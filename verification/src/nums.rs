//! Exact integer arithmetic: floor square roots, wide multiplication,
//! truncating division and exact fractions.
//!
//! The rest of the library states its geometry over these operations, so
//! their contracts pin the results down exactly.

use vstd::prelude::*;

verus! {

/// Floor of the real square root of `n`.
pub open spec fn sqrt_floor(n: nat) -> nat
    decreases n,
{
    if n == 0 {
        0
    } else {
        let p = sqrt_floor((n - 1) as nat);
        if (p + 1) * (p + 1) <= n {
            p + 1
        } else {
            p
        }
    }
}

/// `sqrt_floor(n)` is the unique `r` with `r * r <= n < (r + 1) * (r + 1)`.
pub proof fn lemma_sqrt_floor_bounds(n: nat)
    ensures
        sqrt_floor(n) * sqrt_floor(n) <= n,
        n < (sqrt_floor(n) + 1) * (sqrt_floor(n) + 1),
    decreases n,
{
    if n == 0 {
        assert(sqrt_floor(n) == 0);
        assert(n < (sqrt_floor(n) + 1) * (sqrt_floor(n) + 1)) by (nonlinear_arith)
            requires
                n == 0,
                sqrt_floor(n) == 0,
        ;
    } else {
        lemma_sqrt_floor_bounds((n - 1) as nat);
        let p = sqrt_floor((n - 1) as nat);
        if (p + 1) * (p + 1) <= n {
            assert(sqrt_floor(n) == p + 1);
            assert(n < (p + 2) * (p + 2)) by (nonlinear_arith)
                requires
                    n >= 1,
                    (n - 1) < (p + 1) * (p + 1),
                    p >= 0,
            ;
        } else {
            assert(sqrt_floor(n) == p);
            assert(p * p <= n);
        }
    }
}

pub proof fn lemma_sqrt_floor_unique(n: nat, r: nat)
    requires
        r * r <= n,
        n < (r + 1) * (r + 1),
    ensures
        r == sqrt_floor(n),
{
    lemma_sqrt_floor_bounds(n);
    let s = sqrt_floor(n);
    assert(r < s ==> (r + 1) * (r + 1) <= s * s) by (nonlinear_arith);
    assert(s < r ==> (s + 1) * (s + 1) <= r * r) by (nonlinear_arith);
}

/// Floor square root of an unsigned 128-bit integer, by binary search.
pub fn isqrt_u128(n: u128) -> (r: u128)
    ensures
        r == sqrt_floor(n as nat),
        r * r <= n,
        n < (r + 1) * (r + 1),
{
    let mut lo: u128 = 0;
    let mut hi: u128 = 0x1_0000_0000_0000_0000;
    proof {
        assert((0x1_0000_0000_0000_0000 as int) * (0x1_0000_0000_0000_0000 as int)
            > u128::MAX as int) by (nonlinear_arith);
    }
    while hi - lo > 1
        invariant
            lo < hi <= 0x1_0000_0000_0000_0000,
            lo * lo <= n as int,
            (n as int) < hi * hi,
        decreases hi - lo,
    {
        let mid: u128 = lo + (hi - lo) / 2;
        proof {
            assert(mid * mid <= (0x1_0000_0000_0000_0000 - 1) * (0x1_0000_0000_0000_0000 - 1))
                by (nonlinear_arith)
                requires
                    0 <= mid <= 0x1_0000_0000_0000_0000 - 1,
            ;
        }
        if mid * mid <= n {
            lo = mid;
        } else {
            hi = mid;
        }
    }
    proof {
        lemma_sqrt_floor_unique(n as nat, lo as nat);
    }
    lo
}

/// Exact product of two 64-bit integers, widened to 128 bits.
pub fn mul_i64(a: i64, b: i64) -> (r: i128)
    ensures
        r == a as int * b as int,
{
    proof {
        assert(i128::MIN <= a as int * b as int <= i128::MAX) by (nonlinear_arith);
    }
    (a as i128) * (b as i128)
}

/// Exact product of two 128-bit integers of at most 63 bits of magnitude.
pub fn mul_i128_63(a: i128, b: i128) -> (r: i128)
    requires
        -0x8000_0000_0000_0000 <= a <= 0x8000_0000_0000_0000,
        -0x8000_0000_0000_0000 <= b <= 0x8000_0000_0000_0000,
    ensures
        r == a as int * b as int,
{
    proof {
        assert(i128::MIN <= a as int * b as int <= i128::MAX) by (nonlinear_arith)
            requires
                -0x8000_0000_0000_0000 <= a <= 0x8000_0000_0000_0000,
                -0x8000_0000_0000_0000 <= b <= 0x8000_0000_0000_0000,
        ;
    }
    a * b
}

/// Truncating division on `int`, written through Euclidean division so
/// that it matches what the executable quotient computes.
pub open spec fn div_trunc(n: int, d: int) -> int {
    let q = abs_int(n) / abs_int(d);
    if (n < 0) == (d < 0) {
        q
    } else {
        -q
    }
}

pub open spec fn abs_int(n: int) -> int {
    if n < 0 {
        -n
    } else {
        n
    }
}

/// Magnitude of an `i128` value, as a `u128`.
pub fn abs_u128(n: i128) -> (r: u128)
    ensures
        r == abs_int(n as int),
{
    if n < 0 {
        if n == i128::MIN {
            0x8000_0000_0000_0000_0000_0000_0000_0000u128
        } else {
            (-n) as u128
        }
    } else {
        n as u128
    }
}

/// Truncating division of 128-bit integers, total for every non-zero
/// divisor.
pub fn div_i128(n: i128, d: i128) -> (r: i128)
    requires
        d != 0,
        n != i128::MIN,
    ensures
        r == div_trunc(n as int, d as int),
        abs_int(r as int) <= abs_int(n as int),
{
    let nn = abs_u128(n);
    let dd = abs_u128(d);
    let q = nn / dd;
    proof {
        assert(q <= nn) by (nonlinear_arith)
            requires
                dd >= 1,
                q == nn as int / dd as int,
                nn >= 0,
        ;
    }
    if (n < 0) == (d < 0) {
        q as i128
    } else {
        -(q as i128)
    }
}

/// Clamp a 128-bit value into `[-bound, bound]`.
pub open spec fn clamp_int(v: int, bound: int) -> int {
    if v < -bound {
        -bound
    } else if v > bound {
        bound
    } else {
        v
    }
}

pub fn clamp_i128(v: i128, bound: i128) -> (r: i128)
    requires
        bound >= 0,
    ensures
        r == clamp_int(v as int, bound as int),
{
    if v < -bound {
        -bound
    } else if v > bound {
        bound
    } else {
        v
    }
}

/// An exact non-negative fraction with positive denominator.  All
/// tolerances the library reports or consumes are carried this way.
#[derive(Clone, Copy, Debug, PartialEq, Eq, Structural)]
pub struct Ratio {
    pub num: i64,
    pub den: i64,
}

impl Ratio {
    /// Well-formed fraction: non-negative value, positive denominator.
    pub open spec fn wf(self) -> bool {
        self.den > 0 && self.num >= 0
    }

    /// The value `a/b` is less than `c/d`, by cross multiplication.
    pub open spec fn spec_lt(self, other: Ratio) -> bool {
        self.num * other.den < other.num * self.den
    }

    pub open spec fn spec_le(self, other: Ratio) -> bool {
        self.num * other.den <= other.num * self.den
    }

    pub fn new(num: i64, den: i64) -> (r: Ratio)
        requires
            num >= 0,
            den > 0,
        ensures
            r == (Ratio { num, den }),
            r.wf(),
    {
        Ratio { num, den }
    }

    /// One, the tolerance of a contour that raises no concern.
    pub fn one() -> (r: Ratio)
        ensures
            r == (Ratio { num: 1, den: 1 }),
            r.wf(),
    {
        Ratio { num: 1, den: 1 }
    }

    pub fn zero() -> (r: Ratio)
        ensures
            r == (Ratio { num: 0, den: 1 }),
            r.wf(),
    {
        Ratio { num: 0, den: 1 }
    }

    pub fn lt(&self, other: &Ratio) -> (r: bool)
        ensures
            r == self.spec_lt(*other),
    {
        mul_i64(self.num, other.den) < mul_i64(other.num, self.den)
    }

    pub fn le(&self, other: &Ratio) -> (r: bool)
        ensures
            r == self.spec_le(*other),
    {
        mul_i64(self.num, other.den) <= mul_i64(other.num, self.den)
    }

    /// The fraction is at most one.
    pub open spec fn at_most_one(self) -> bool {
        self.num <= self.den
    }
}


/// Exact product of two bounded 128-bit integers; `ba`, `bb` bound the
/// inputs and carry through to the result.
pub fn mul_bounded(a: i128, b: i128, ba: Ghost<int>, bb: Ghost<int>) -> (r: i128)
    requires
        0 <= ba@,
        0 <= bb@,
        -ba@ <= a <= ba@,
        -bb@ <= b <= bb@,
        ba@ * bb@ <= 0x4000_0000_0000_0000_0000_0000_0000_0000,
    ensures
        r == a as int * b as int,
        -(ba@ * bb@) <= r <= ba@ * bb@,
{
    proof {
        assert(-(ba@ * bb@) <= a as int * b as int <= ba@ * bb@) by (nonlinear_arith)
            requires
                -ba@ <= a as int <= ba@,
                -bb@ <= b as int <= bb@,
                0 <= ba@,
                0 <= bb@,
        ;
    }
    a * b
}

} // verus!
