//! Exact Green's-theorem moments of a contour.
//!
//! Every Bézier segment is taken to power basis (integer coefficients),
//! and each Green functional — `½∮(x dy − y dx)` for the signed area,
//! `½∮x² dy` and `−½∮y² dx` for the first moments, `⅓∮x³ dy`, `½∮x²y dy`
//! and `−⅓∮y³ dx` for the second — is evaluated as the exact integral of
//! an integer polynomial over `[0, 1]`, scaled by a constant that clears
//! every denominator.  The results are exact integers.

use vstd::prelude::*;

use crate::geometry::{BezPath, PathEl, Point};
use crate::COORD_LIMIT;

verus! {

/// The stored signed area is the true area times this factor.
pub const AREA_SCALE: i64 = 120;

/// The stored first moments are the true `∬x dA`, `∬y dA` times this.
pub const M1_SCALE: i64 = 5040;

/// The stored `∬x² dA`, `∬y² dA` are the true values times this.
pub const MXX_SCALE: i64 = 83160;

/// The stored `∬xy dA` is the true value times this.
pub const MXY_SCALE: i64 = 55440;

/// Most path elements one contour may hold.
pub const MAX_ELS: usize = 128;

/// Coefficient `k` of the product of two integer polynomials.
pub open spec fn conv_at(a: Seq<int>, b: Seq<int>, k: int) -> int
    decreases b.len(),
{
    if b.len() == 0 {
        0
    } else {
        conv_at(a, b.drop_last(), k) + if 0 <= k - (b.len() - 1) < a.len() {
            a[k - (b.len() - 1)] * b[b.len() - 1]
        } else {
            0
        }
    }
}

/// The product of two integer polynomials, by coefficient sequences.
pub open spec fn spec_conv(a: Seq<int>, b: Seq<int>) -> Seq<int> {
    Seq::new((a.len() + b.len() - 1) as nat, |k: int| conv_at(a, b, k))
}

/// `scale` times the integral over `[0, 1]` of the polynomial with
/// coefficients `c`; exact when `scale` clears every denominator.
pub open spec fn spec_integral(c: Seq<int>, scale: int) -> int
    decreases c.len(),
{
    if c.len() == 0 {
        0
    } else {
        spec_integral(c.drop_last(), scale) + c.last() * (scale / (c.len() as int))
    }
}

/// Magnitude bound on every entry of a sequence.
pub open spec fn all_bounded(s: Seq<int>, bound: int) -> bool {
    forall|i: int| 0 <= i < s.len() ==> -bound <= #[trigger] s[i] <= bound
}

proof fn lemma_conv_at_bound(a: Seq<int>, b: Seq<int>, k: int, ba: int, bb: int)
    requires
        all_bounded(a, ba),
        all_bounded(b, bb),
        ba >= 0,
        bb >= 0,
    ensures
        -(b.len() * ba * bb) <= conv_at(a, b, k) <= b.len() * ba * bb,
    decreases b.len(),
{
    if b.len() == 0 {
    } else {
        lemma_conv_at_bound(a, b.drop_last(), k, ba, bb);
        assert(all_bounded(b.drop_last(), bb));
        if 0 <= k - (b.len() - 1) < a.len() {
            let x = a[k - (b.len() - 1)];
            let y = b[b.len() - 1];
            assert(-ba <= x <= ba && -bb <= y <= bb);
            assert(-(ba * bb) <= x * y <= ba * bb) by (nonlinear_arith)
                requires
                    -ba <= x <= ba,
                    -bb <= y <= bb,
                    ba >= 0,
                    bb >= 0,
            ;
        }
        assert((b.len() - 1) * ba * bb + ba * bb == b.len() * ba * bb) by (nonlinear_arith);
    }
}

/// Multiplies two coefficient vectors exactly.  `ba`, `bb` bound the
/// inputs' entries; the product's entries stay within `4 * ba * bb`.
fn conv(a: &Vec<i128>, b: &Vec<i128>, ba: Ghost<int>, bb: Ghost<int>) -> (r: Vec<i128>)
    requires
        1 <= a@.len() <= 12,
        1 <= b@.len() <= 4,
        0 <= ba@,
        0 <= bb@,
        all_bounded(a@.map_values(|v: i128| v as int), ba@),
        all_bounded(b@.map_values(|v: i128| v as int), bb@),
        4 * ba@ * bb@ <= 0x2000_0000_0000_0000_0000_0000_0000,
    ensures
        r@.map_values(|v: i128| v as int) == spec_conv(
            a@.map_values(|v: i128| v as int),
            b@.map_values(|v: i128| v as int),
        ),
        r@.len() == a@.len() + b@.len() - 1,
        all_bounded(r@.map_values(|v: i128| v as int), 4 * ba@ * bb@),
{
    let ghost av = a@.map_values(|v: i128| v as int);
    let ghost bv = b@.map_values(|v: i128| v as int);
    let n = a.len() + b.len() - 1;
    let mut r: Vec<i128> = Vec::new();
    let mut k: usize = 0;
    while k < n
        invariant
            n == av.len() + bv.len() - 1,
            av == a@.map_values(|v: i128| v as int),
            bv == b@.map_values(|v: i128| v as int),
            1 <= av.len() <= 12,
            1 <= bv.len() <= 4,
            0 <= ba@,
            0 <= bb@,
            all_bounded(av, ba@),
            all_bounded(bv, bb@),
            4 * ba@ * bb@ <= 0x2000_0000_0000_0000_0000_0000_0000,
            0 <= k <= n,
            r@.len() == k,
            forall|t: int|
                0 <= t < k ==> r@.map_values(|v: i128| v as int)[t] == conv_at(av, bv, t)
                    && -(4 * ba@ * bb@) <= #[trigger] (r@[t] as int) <= 4 * ba@ * bb@,
        decreases n - k,
    {
        let mut acc: i128 = 0;
        let mut j: usize = 0;
        proof {
            assert(bv.take(0) =~= Seq::<int>::empty());
        }
        while j < b.len()
            invariant
                av == a@.map_values(|v: i128| v as int),
                bv == b@.map_values(|v: i128| v as int),
                1 <= av.len() <= 12,
                1 <= bv.len() <= 4,
                0 <= ba@,
                0 <= bb@,
                all_bounded(av, ba@),
                all_bounded(bv, bb@),
                4 * ba@ * bb@ <= 0x2000_0000_0000_0000_0000_0000_0000,
                0 <= j <= bv.len(),
                0 <= k < av.len() + bv.len() - 1,
                acc as int == conv_at(av, bv.take(j as int), k as int),
                -(j * ba@ * bb@) <= acc as int <= j * ba@ * bb@,
            decreases b.len() - j,
        {
            proof {
                assert(j * ba@ * bb@ + ba@ * bb@ == (j + 1) * ba@ * bb@) by (nonlinear_arith);
                assert(4 * ba@ * bb@ >= (j + 1) * ba@ * bb@ >= 0) by (nonlinear_arith)
                    requires
                        0 <= j < 4,
                        0 <= ba@,
                        0 <= bb@,
                ;
            }
            let kj = k as i128 - j as i128;
            let term: i128 = if 0 <= kj && kj < a.len() as i128 {
                let ai = a[k - j];
                let bj = b[j];
                proof {
                    assert(ai as int == av[k - j]);
                    assert(bj as int == bv[j as int]);
                    assert(-(ba@ * bb@) <= ai as int * bj as int <= ba@ * bb@)
                        by (nonlinear_arith)
                        requires
                            -ba@ <= ai as int <= ba@,
                            -bb@ <= bj as int <= bb@,
                            0 <= ba@,
                            0 <= bb@,
                    ;
                }
                ai * bj
            } else {
                0
            };
            proof {
                assert(bv.take(j + 1).drop_last() =~= bv.take(j as int));
                assert(bv.take(j + 1).last() == bv[j as int]);
            }
            acc = acc + term;
            j = j + 1;
        }
        proof {
            assert(bv.take(bv.len() as int) =~= bv);
            assert(bv.len() * ba@ * bb@ <= 4 * ba@ * bb@) by (nonlinear_arith)
                requires
                    0 <= bv.len() <= 4,
                    0 <= ba@,
                    0 <= bb@,
            ;
        }
        r.push(acc);
        k = k + 1;
    }
    proof {
        assert(r@.map_values(|v: i128| v as int) =~= spec_conv(av, bv));
    }
    r
}

/// `scale` times the exact integral of the polynomial `c` over `[0, 1]`.
/// `bc` bounds the coefficients; the result stays within
/// `15 * bc * 0x8000`.
fn integral_scaled(c: &Vec<i128>, scale: i64, bc: Ghost<int>) -> (r: i128)
    requires
        c@.len() <= 15,
        0 < scale <= 0x8000,
        0 <= bc@ <= 0x100_0000_0000_0000_0000_0000,
        forall|k: int| 0 <= k < c@.len() ==> #[trigger] (scale as int % (k + 1)) == 0,
        all_bounded(c@.map_values(|v: i128| v as int), bc@),
    ensures
        r as int == spec_integral(c@.map_values(|v: i128| v as int), scale as int),
        -(c@.len() * bc@ * scale) <= r as int <= c@.len() * bc@ * scale,
{
    let ghost cv = c@.map_values(|v: i128| v as int);
    let mut acc: i128 = 0;
    let mut k: usize = 0;
    proof {
        assert(cv.take(0) =~= Seq::<int>::empty());
        assert(15 * bc@ * 0x8000 <= 0x800_0000_0000_0000_0000_0000_0000) by (nonlinear_arith)
            requires
                0 <= bc@ <= 0x100_0000_0000_0000_0000_0000,
        ;
    }
    while k < c.len()
        invariant
            cv == c@.map_values(|v: i128| v as int),
            cv.len() <= 15,
            0 < scale <= 0x8000,
            0 <= bc@ <= 0x100_0000_0000_0000_0000_0000,
            15 * bc@ * 0x8000 <= 0x800_0000_0000_0000_0000_0000_0000,
            forall|t: int| 0 <= t < cv.len() ==> #[trigger] (scale as int % (t + 1)) == 0,
            all_bounded(cv, bc@),
            0 <= k <= cv.len(),
            acc as int == spec_integral(cv.take(k as int), scale as int),
            -(k * bc@ * scale) <= acc as int <= k * bc@ * scale,
        decreases c.len() - k,
    {
        let ck = c[k];
        let w: i64 = scale / (k as i64 + 1);
        proof {
            assert(ck as int == cv[k as int]);
            assert(0 <= w as int <= scale as int) by (nonlinear_arith)
                requires
                    w as int == scale as int / (k as int + 1),
                    1 <= scale as int <= 0x8000,
                    k >= 0,
            ;
            assert(-(bc@ * scale) <= ck as int * w as int <= bc@ * scale) by (nonlinear_arith)
                requires
                    -bc@ <= ck as int <= bc@,
                    0 <= w as int <= scale as int,
                    0 <= bc@,
                    0 <= scale,
            ;
            assert(k * bc@ * scale + bc@ * scale == (k + 1) * bc@ * scale) by (nonlinear_arith);
            assert((k + 1) * bc@ * scale <= 15 * bc@ * 0x8000) by (nonlinear_arith)
                requires
                    0 <= k,
                    k + 1 <= 15,
                    0 <= bc@,
                    0 < scale <= 0x8000,
            ;
        }
        let term: i128 = ck * (w as i128);
        proof {
            assert(cv.take(k + 1).drop_last() =~= cv.take(k as int));
            assert(cv.take(k + 1).last() == cv[k as int]);
        }
        acc = acc + term;
        k = k + 1;
    }
    proof {
        assert(cv.take(cv.len() as int) =~= cv);
    }
    acc
}

/// Power-basis coefficients of the degree-1 interpolant through `a`, `b`.
pub open spec fn pb1(a: int, b: int) -> Seq<int> {
    seq![a, b - a]
}

/// Power-basis coefficients of the quadratic Bézier ordinate `a, b, c`.
pub open spec fn pb2(a: int, b: int, c: int) -> Seq<int> {
    seq![a, 2 * (b - a), c - 2 * b + a]
}

/// Power-basis coefficients of the cubic Bézier ordinate `a, b, c, d`.
pub open spec fn pb3(a: int, b: int, c: int, d: int) -> Seq<int> {
    seq![a, 3 * (b - a), 3 * (c - 2 * b + a), d - 3 * c + 3 * b - a]
}

/// Coefficients of the derivative of the polynomial `c`.
pub open spec fn spec_deriv(c: Seq<int>) -> Seq<int> {
    Seq::new((c.len() - 1) as nat, |k: int| (k + 1) * c[k + 1])
}

/// The six scaled Green functionals of one parametric segment with
/// ordinate polynomials `xc`, `yc`:
/// area `= 120·½∫(xy′ − yx′)`, first moments `= 5040·½∫x²y′` and
/// `= −5040·½∫y²x′`, second moments `= 83160·⅓∫x³y′`, `= 55440·½∫x²yy′`
/// and `= −83160·⅓∫y³x′`.
pub struct GMoments {
    pub area: int,
    pub mx: int,
    pub my: int,
    pub mxx: int,
    pub mxy: int,
    pub myy: int,
}

pub open spec fn gm_zero() -> GMoments {
    GMoments { area: 0, mx: 0, my: 0, mxx: 0, mxy: 0, myy: 0 }
}

pub open spec fn gm_add(a: GMoments, b: GMoments) -> GMoments {
    GMoments {
        area: a.area + b.area,
        mx: a.mx + b.mx,
        my: a.my + b.my,
        mxx: a.mxx + b.mxx,
        mxy: a.mxy + b.mxy,
        myy: a.myy + b.myy,
    }
}

pub open spec fn seg_gm(xc: Seq<int>, yc: Seq<int>) -> GMoments {
    GMoments {
        area: spec_integral(spec_conv(xc, spec_deriv(yc)), 60) - spec_integral(
            spec_conv(yc, spec_deriv(xc)),
            60,
        ),
        mx: spec_integral(spec_conv(spec_conv(xc, xc), spec_deriv(yc)), 2520),
        my: -spec_integral(spec_conv(spec_conv(yc, yc), spec_deriv(xc)), 2520),
        mxx: spec_integral(spec_conv(spec_conv(spec_conv(xc, xc), xc), spec_deriv(yc)), 27720),
        mxy: spec_integral(spec_conv(spec_conv(spec_conv(xc, xc), yc), spec_deriv(yc)), 27720),
        myy: -spec_integral(spec_conv(spec_conv(spec_conv(yc, yc), yc), spec_deriv(xc)), 27720),
    }
}

/// The contribution of one path element, drawn from the pen position
/// `cur` with contour start `start`.  A close draws the closing line
/// when the pen is away from the start; elements after the last close
/// are integrated as drawn.
pub open spec fn el_gm(start: Point, cur: Point, el: PathEl) -> GMoments {
    match el {
        PathEl::MoveTo(_) => gm_zero(),
        PathEl::LineTo(p) => seg_gm(pb1(cur.x as int, p.x as int), pb1(cur.y as int, p.y as int)),
        PathEl::QuadTo(p0, p1) => seg_gm(
            pb2(cur.x as int, p0.x as int, p1.x as int),
            pb2(cur.y as int, p0.y as int, p1.y as int),
        ),
        PathEl::CurveTo(p0, p1, p2) => seg_gm(
            pb3(cur.x as int, p0.x as int, p1.x as int, p2.x as int),
            pb3(cur.y as int, p0.y as int, p1.y as int, p2.y as int),
        ),
        PathEl::ClosePath => if cur == start {
            gm_zero()
        } else {
            seg_gm(pb1(cur.x as int, start.x as int), pb1(cur.y as int, start.y as int))
        },
    }
}

/// Pen start point after the element.
pub open spec fn el_next_start(start: Point, cur: Point, el: PathEl) -> Point {
    match el {
        PathEl::MoveTo(p) => p,
        _ => start,
    }
}

/// Pen position after the element.
pub open spec fn el_next_cur(start: Point, cur: Point, el: PathEl) -> Point {
    match el {
        PathEl::MoveTo(p) => p,
        PathEl::LineTo(p) => p,
        PathEl::QuadTo(_, p1) => p1,
        PathEl::CurveTo(_, _, p2) => p2,
        PathEl::ClosePath => start,
    }
}

pub open spec fn gm_fold(els: Seq<PathEl>, start: Point, cur: Point) -> GMoments
    decreases els.len(),
{
    if els.len() == 0 {
        gm_zero()
    } else {
        gm_add(
            el_gm(start, cur, els.first()),
            gm_fold(
                els.drop_first(),
                el_next_start(start, cur, els.first()),
                el_next_cur(start, cur, els.first()),
            ),
        )
    }
}

/// The six scaled Green moments of a contour, accumulated pen-wise from
/// the origin.
pub open spec fn spec_green_moments(els: Seq<PathEl>) -> GMoments {
    gm_fold(els, Point { x: 0, y: 0 }, Point { x: 0, y: 0 })
}

/// The exact scaled Green moments of one contour, as 128-bit integers.
#[derive(Clone, Copy, Debug)]
pub struct Moments {
    pub area: i128,
    pub mx: i128,
    pub my: i128,
    pub mxx: i128,
    pub mxy: i128,
    pub myy: i128,
}

impl Moments {
    pub open spec fn view_gm(self) -> GMoments {
        GMoments {
            area: self.area as int,
            mx: self.mx as int,
            my: self.my as int,
            mxx: self.mxx as int,
            mxy: self.mxy as int,
            myy: self.myy as int,
        }
    }

    /// Every stored moment is within this magnitude.
    pub open spec fn bounded(self, b: int) -> bool {
        -b <= self.area <= b && -b <= self.mx <= b && -b <= self.my <= b && -b <= self.mxx <= b
            && -b <= self.mxy <= b && -b <= self.myy <= b
    }
}

/// Bound on each accumulated moment of a full contour.
pub const MOM_BOUND: i128 = 0x4000_0000_0000_0000_0000_0000_0000;

/// Bound on the accumulated scaled area of a full contour, midway
/// shapes included.
pub const AREA_BOUND: i128 = 0x800_0000_0000_0000;

fn pb1_exec(a: i64, b: i64) -> (r: Vec<i128>)
    requires
        -0x8000 <= a <= 0x8000,
        -0x8000 <= b <= 0x8000,
    ensures
        r@.map_values(|v: i128| v as int) == pb1(a as int, b as int),
        r@.len() == 2,
        all_bounded(r@.map_values(|v: i128| v as int), 0x8_0000),
{
    let mut r: Vec<i128> = Vec::new();
    r.push(a as i128);
    r.push(b as i128 - a as i128);
    proof {
        assert(r@.map_values(|v: i128| v as int) =~= pb1(a as int, b as int));
    }
    r
}

fn pb2_exec(a: i64, b: i64, c: i64) -> (r: Vec<i128>)
    requires
        -0x8000 <= a <= 0x8000,
        -0x8000 <= b <= 0x8000,
        -0x8000 <= c <= 0x8000,
    ensures
        r@.map_values(|v: i128| v as int) == pb2(a as int, b as int, c as int),
        r@.len() == 3,
        all_bounded(r@.map_values(|v: i128| v as int), 0x8_0000),
{
    let mut r: Vec<i128> = Vec::new();
    r.push(a as i128);
    r.push(2 * (b as i128 - a as i128));
    r.push(c as i128 - 2 * b as i128 + a as i128);
    proof {
        assert(r@.map_values(|v: i128| v as int) =~= pb2(a as int, b as int, c as int));
    }
    r
}

fn pb3_exec(a: i64, b: i64, c: i64, d: i64) -> (r: Vec<i128>)
    requires
        -0x8000 <= a <= 0x8000,
        -0x8000 <= b <= 0x8000,
        -0x8000 <= c <= 0x8000,
        -0x8000 <= d <= 0x8000,
    ensures
        r@.map_values(|v: i128| v as int) == pb3(a as int, b as int, c as int, d as int),
        r@.len() == 4,
        all_bounded(r@.map_values(|v: i128| v as int), 0x8_0000),
{
    let mut r: Vec<i128> = Vec::new();
    r.push(a as i128);
    r.push(3 * (b as i128 - a as i128));
    r.push(3 * (c as i128 - 2 * b as i128 + a as i128));
    r.push(d as i128 - 3 * c as i128 + 3 * b as i128 - a as i128);
    proof {
        assert(r@.map_values(|v: i128| v as int) =~= pb3(a as int, b as int, c as int, d as int));
    }
    r
}

fn pderiv(c: &Vec<i128>) -> (r: Vec<i128>)
    requires
        2 <= c@.len() <= 4,
        all_bounded(c@.map_values(|v: i128| v as int), 0x8_0000),
    ensures
        r@.map_values(|v: i128| v as int) == spec_deriv(c@.map_values(|v: i128| v as int)),
        r@.len() == c@.len() - 1,
        all_bounded(r@.map_values(|v: i128| v as int), 0x20_0000),
{
    let mut r: Vec<i128> = Vec::new();
    let mut k: usize = 1;
    while k < c.len()
        invariant
            2 <= c@.len() <= 4,
            all_bounded(c@.map_values(|v: i128| v as int), 0x8_0000),
            1 <= k <= c@.len(),
            r@.len() == k - 1,
            forall|t: int|
                0 <= t < k - 1 ==> r@.map_values(|v: i128| v as int)[t] == (t + 1) * c@.map_values(
                    |v: i128| v as int,
                )[t + 1] && -0x20_0000 <= #[trigger] (r@[t] as int) <= 0x20_0000,
        decreases c.len() - k,
    {
        let ghost cv = c@.map_values(|v: i128| v as int);
        let ck = c[k];
        proof {
            assert(ck as int == cv[k as int]);
            assert(-0x20_0000 <= k as int * ck as int <= 0x20_0000) by (nonlinear_arith)
                requires
                    1 <= k <= 3,
                    -0x8_0000 <= ck as int <= 0x8_0000,
            ;
        }
        r.push((k as i128) * ck);
        k = k + 1;
    }
    proof {
        assert(r@.map_values(|v: i128| v as int) =~= spec_deriv(c@.map_values(|v: i128| v as int)));
    }
    r
}



/// `60` is divisible by each of `1..=6`.
proof fn lemma_mod60(k: int)
    requires
        0 <= k < 6,
    ensures
        60int % (k + 1) == 0,
{
    if k == 0 {
        assert(60int % 1 == 0);
    } else if k == 1 {
        assert(60int % 2 == 0);
    } else if k == 2 {
        assert(60int % 3 == 0);
    } else if k == 3 {
        assert(60int % 4 == 0);
    } else if k == 4 {
        assert(60int % 5 == 0);
    } else {
        assert(60int % 6 == 0);
    }
}

/// `2520` is divisible by each of `1..=9`.
proof fn lemma_mod2520(k: int)
    requires
        0 <= k < 9,
    ensures
        2520int % (k + 1) == 0,
{
    if k == 0 {
        assert(2520int % 1 == 0);
    } else if k == 1 {
        assert(2520int % 2 == 0);
    } else if k == 2 {
        assert(2520int % 3 == 0);
    } else if k == 3 {
        assert(2520int % 4 == 0);
    } else if k == 4 {
        assert(2520int % 5 == 0);
    } else if k == 5 {
        assert(2520int % 6 == 0);
    } else if k == 6 {
        assert(2520int % 7 == 0);
    } else if k == 7 {
        assert(2520int % 8 == 0);
    } else {
        assert(2520int % 9 == 0);
    }
}

/// `27720` is divisible by each of `1..=12`.
proof fn lemma_mod27720(k: int)
    requires
        0 <= k < 12,
    ensures
        27720int % (k + 1) == 0,
{
    if k == 0 {
        assert(27720int % 1 == 0);
    } else if k == 1 {
        assert(27720int % 2 == 0);
    } else if k == 2 {
        assert(27720int % 3 == 0);
    } else if k == 3 {
        assert(27720int % 4 == 0);
    } else if k == 4 {
        assert(27720int % 5 == 0);
    } else if k == 5 {
        assert(27720int % 6 == 0);
    } else if k == 6 {
        assert(27720int % 7 == 0);
    } else if k == 7 {
        assert(27720int % 8 == 0);
    } else if k == 8 {
        assert(27720int % 9 == 0);
    } else if k == 9 {
        assert(27720int % 10 == 0);
    } else if k == 10 {
        assert(27720int % 11 == 0);
    } else {
        assert(27720int % 12 == 0);
    }
}

/// Bound on one segment's scaled area contribution.
pub const SEG_AREA_BOUND: i128 = 0x10_0000_0000_0000;

/// Bound on one segment's scaled moment contributions.
pub const SEG_MOM_BOUND: i128 = 0x80_0000_0000_0000_0000_0000_0000;

/// The scaled signed-area contribution of one segment; valid for the
/// doubled coordinates of midway shapes as well.
fn seg_area120(xc: &Vec<i128>, yc: &Vec<i128>) -> (r: i128)
    requires
        2 <= xc@.len() <= 4,
        xc@.len() == yc@.len(),
        all_bounded(xc@.map_values(|v: i128| v as int), 0x8_0000),
        all_bounded(yc@.map_values(|v: i128| v as int), 0x8_0000),
    ensures
        r as int == seg_gm(
            xc@.map_values(|v: i128| v as int),
            yc@.map_values(|v: i128| v as int),
        ).area,
        -SEG_AREA_BOUND <= r <= SEG_AREA_BOUND,
{
    let xd = pderiv(xc);
    let yd = pderiv(yc);
    let p = conv(xc, &yd, Ghost(0x8_0000 as int), Ghost(0x20_0000 as int));
    let q = conv(yc, &xd, Ghost(0x8_0000 as int), Ghost(0x20_0000 as int));
    proof {
        assert forall|k: int| 0 <= k < p@.len() implies #[trigger] (60 as int % (k + 1)) == 0 by {
            lemma_mod60(k);
        }
        assert forall|k: int| 0 <= k < q@.len() implies #[trigger] (60 as int % (k + 1)) == 0 by {
            lemma_mod60(k);
        }
    }
    let ip = integral_scaled(&p, 60, Ghost(4 * 0x8_0000 as int * 0x20_0000 as int));
    let iq = integral_scaled(&q, 60, Ghost(4 * 0x8_0000 as int * 0x20_0000 as int));
    proof {
        assert(p@.len() * (4 * 0x8_0000 * 0x20_0000) * 60 <= 0x8_0000_0000_0000) by (nonlinear_arith)
            requires
                p@.len() <= 7,
        ;
        assert(q@.len() * (4 * 0x8_0000 * 0x20_0000) * 60 <= 0x8_0000_0000_0000) by (nonlinear_arith)
            requires
                q@.len() <= 7,
        ;
    }
    ip - iq
}

/// The five scaled moment contributions of one segment.
fn seg_moments5(xc: &Vec<i128>, yc: &Vec<i128>) -> (r: (i128, i128, i128, i128, i128))
    requires
        2 <= xc@.len() <= 4,
        xc@.len() == yc@.len(),
        all_bounded(xc@.map_values(|v: i128| v as int), 0x8_0000),
        all_bounded(yc@.map_values(|v: i128| v as int), 0x8_0000),
    ensures
        ({
            let g = seg_gm(
                xc@.map_values(|v: i128| v as int),
                yc@.map_values(|v: i128| v as int),
            );
            r.0 == g.mx && r.1 == g.my && r.2 == g.mxx && r.3 == g.mxy && r.4 == g.myy
        }),
        -SEG_MOM_BOUND <= r.0 <= SEG_MOM_BOUND,
        -SEG_MOM_BOUND <= r.1 <= SEG_MOM_BOUND,
        -SEG_MOM_BOUND <= r.2 <= SEG_MOM_BOUND,
        -SEG_MOM_BOUND <= r.3 <= SEG_MOM_BOUND,
        -SEG_MOM_BOUND <= r.4 <= SEG_MOM_BOUND,
{
    let xd = pderiv(xc);
    let yd = pderiv(yc);
    let xx = conv(xc, xc, Ghost(0x8_0000 as int), Ghost(0x8_0000 as int));
    let yy = conv(yc, yc, Ghost(0x8_0000 as int), Ghost(0x8_0000 as int));
    let xxx = conv(&xx, xc, Ghost(0x100_0000_0000 as int), Ghost(0x8_0000 as int));
    let xxy = conv(&xx, yc, Ghost(0x100_0000_0000 as int), Ghost(0x8_0000 as int));
    let yyy = conv(&yy, yc, Ghost(0x100_0000_0000 as int), Ghost(0x8_0000 as int));
    let p1 = conv(&xx, &yd, Ghost(0x100_0000_0000 as int), Ghost(0x20_0000 as int));
    let q1 = conv(&yy, &xd, Ghost(0x100_0000_0000 as int), Ghost(0x20_0000 as int));
    let p2 = conv(&xxx, &yd, Ghost(0x2000_0000_0000_0000 as int), Ghost(0x20_0000 as int));
    let p3 = conv(&xxy, &yd, Ghost(0x2000_0000_0000_0000 as int), Ghost(0x20_0000 as int));
    let q3 = conv(&yyy, &xd, Ghost(0x2000_0000_0000_0000 as int), Ghost(0x20_0000 as int));
    proof {
        assert forall|k: int| 0 <= k < p1@.len() implies #[trigger] (2520 as int % (k + 1)) == 0 by {
            lemma_mod2520(k);
        }
        assert forall|k: int| 0 <= k < q1@.len() implies #[trigger] (2520 as int % (k + 1)) == 0 by {
            lemma_mod2520(k);
        }
        assert forall|k: int| 0 <= k < p2@.len() implies #[trigger] (27720 as int % (k + 1)) == 0 by {
            lemma_mod27720(k);
        }
        assert forall|k: int| 0 <= k < p3@.len() implies #[trigger] (27720 as int % (k + 1)) == 0 by {
            lemma_mod27720(k);
        }
        assert forall|k: int| 0 <= k < q3@.len() implies #[trigger] (27720 as int % (k + 1)) == 0 by {
            lemma_mod27720(k);
        }
    }
    let mx = integral_scaled(&p1, 2520, Ghost(4 * 0x100_0000_0000 as int * 0x20_0000 as int));
    let my = integral_scaled(&q1, 2520, Ghost(4 * 0x100_0000_0000 as int * 0x20_0000 as int));
    let mxx = integral_scaled(&p2, 27720, Ghost(4 * 0x2000_0000_0000_0000 as int * 0x20_0000 as int));
    let mxy = integral_scaled(&p3, 27720, Ghost(4 * 0x2000_0000_0000_0000 as int * 0x20_0000 as int));
    let myy = integral_scaled(&q3, 27720, Ghost(4 * 0x2000_0000_0000_0000 as int * 0x20_0000 as int));
    proof {
        assert(p1@.len() * (4 * 0x100_0000_0000 * 0x20_0000) * 2520 <= SEG_MOM_BOUND)
            by (nonlinear_arith)
            requires
                p1@.len() <= 9,
        ;
        assert(q1@.len() * (4 * 0x100_0000_0000 * 0x20_0000) * 2520 <= SEG_MOM_BOUND)
            by (nonlinear_arith)
            requires
                q1@.len() <= 9,
        ;
        assert(p2@.len() * (4 * 0x2000_0000_0000_0000 * 0x20_0000) * 27720 <= SEG_MOM_BOUND)
            by (nonlinear_arith)
            requires
                p2@.len() <= 12,
        ;
        assert(p3@.len() * (4 * 0x2000_0000_0000_0000 * 0x20_0000) * 27720 <= SEG_MOM_BOUND)
            by (nonlinear_arith)
            requires
                p3@.len() <= 12,
        ;
        assert(q3@.len() * (4 * 0x2000_0000_0000_0000 * 0x20_0000) * 27720 <= SEG_MOM_BOUND)
            by (nonlinear_arith)
            requires
                q3@.len() <= 12,
        ;
    }
    (mx, -my, mxx, mxy, -myy)
}

/// Computes the exact scaled Green moments of one contour.
#[verifier::rlimit(60)]
pub fn green_moments(path: &BezPath) -> (r: Moments)
    requires
        path.in_range(crate::COORD_LIMIT as int),
        path@.len() <= MAX_ELS,
    ensures
        r.view_gm() == spec_green_moments(path@),
        r.bounded(MOM_BOUND as int),
        -AREA_BOUND <= r.area <= AREA_BOUND,
{
    let mut start: Point = Point { x: 0, y: 0 };
    let mut cur: Point = Point { x: 0, y: 0 };
    let mut m = Moments { area: 0, mx: 0, my: 0, mxx: 0, mxy: 0, myy: 0 };
    let n = path.0.len();
    let mut i: usize = 0;
    proof {
        assert(path@.skip(0) =~= path@);
    }
    while i < n
        invariant
            n == path@.len() <= MAX_ELS,
            path.in_range(crate::COORD_LIMIT as int),
            0 <= i <= n,
            start.in_range(crate::COORD_LIMIT as int),
            cur.in_range(crate::COORD_LIMIT as int),
            m.bounded(i as int * SEG_MOM_BOUND as int),
            -(i as int) * SEG_AREA_BOUND as int <= m.area <= (i as int) * SEG_AREA_BOUND as int,
            gm_add(m.view_gm(), gm_fold(path@.skip(i as int), start, cur))
                == spec_green_moments(path@),
        decreases n - i,
    {
        let ghost pre = m.view_gm();
        let ghost prestart = start;
        let ghost precur = cur;
        let el = path.0[i];
        proof {
            assert(path@[i as int].in_range(crate::COORD_LIMIT as int));
            assert(path@.skip(i as int).first() == path@[i as int]);
            assert(path@.skip(i as int).drop_first() =~= path@.skip(i + 1));
        }
        match el {
            PathEl::MoveTo(p) => {
                start = p;
                cur = p;
            },
            PathEl::LineTo(p) => {
                let xc = pb1_exec(cur.x, p.x);
                let yc = pb1_exec(cur.y, p.y);
                let a = seg_area120(&xc, &yc);
                let (mx, my, mxx, mxy, myy) = seg_moments5(&xc, &yc);
                m = Moments {
                    area: m.area + a,
                    mx: m.mx + mx,
                    my: m.my + my,
                    mxx: m.mxx + mxx,
                    mxy: m.mxy + mxy,
                    myy: m.myy + myy,
                };
                cur = p;
            },
            PathEl::QuadTo(p0, p1) => {
                let xc = pb2_exec(cur.x, p0.x, p1.x);
                let yc = pb2_exec(cur.y, p0.y, p1.y);
                let a = seg_area120(&xc, &yc);
                let (mx, my, mxx, mxy, myy) = seg_moments5(&xc, &yc);
                m = Moments {
                    area: m.area + a,
                    mx: m.mx + mx,
                    my: m.my + my,
                    mxx: m.mxx + mxx,
                    mxy: m.mxy + mxy,
                    myy: m.myy + myy,
                };
                cur = p1;
            },
            PathEl::CurveTo(p0, p1, p2) => {
                let xc = pb3_exec(cur.x, p0.x, p1.x, p2.x);
                let yc = pb3_exec(cur.y, p0.y, p1.y, p2.y);
                let a = seg_area120(&xc, &yc);
                let (mx, my, mxx, mxy, myy) = seg_moments5(&xc, &yc);
                m = Moments {
                    area: m.area + a,
                    mx: m.mx + mx,
                    my: m.my + my,
                    mxx: m.mxx + mxx,
                    mxy: m.mxy + mxy,
                    myy: m.myy + myy,
                };
                cur = p2;
            },
            PathEl::ClosePath => {
                if cur.x != start.x || cur.y != start.y {
                    let xc = pb1_exec(cur.x, start.x);
                    let yc = pb1_exec(cur.y, start.y);
                    let a = seg_area120(&xc, &yc);
                    let (mx, my, mxx, mxy, myy) = seg_moments5(&xc, &yc);
                    m = Moments {
                        area: m.area + a,
                        mx: m.mx + mx,
                        my: m.my + my,
                        mxx: m.mxx + mxx,
                        mxy: m.mxy + mxy,
                        myy: m.myy + myy,
                    };
                }
                cur = start;
            },
        }
        proof {
            assert(m.view_gm() == gm_add(pre, el_gm(prestart, precur, path@[i as int])));
            assert(start == el_next_start(prestart, precur, path@[i as int]));
            assert(cur == el_next_cur(prestart, precur, path@[i as int]));
            assert(gm_add(m.view_gm(), gm_fold(path@.skip(i + 1), start, cur))
                == spec_green_moments(path@));
        }
        i = i + 1;
    }
    proof {
        assert(path@.skip(n as int) =~= Seq::<PathEl>::empty());
    }
    m
}

/// Computes the scaled signed area of one contour; accepts the doubled
/// coordinates of midway shapes.
#[verifier::rlimit(60)]
pub fn path_area120(path: &BezPath) -> (r: i128)
    requires
        path.in_range(2 * crate::COORD_LIMIT as int),
        path@.len() <= MAX_ELS,
    ensures
        r as int == spec_green_moments(path@).area,
        -AREA_BOUND <= r <= AREA_BOUND,
{
    let mut start: Point = Point { x: 0, y: 0 };
    let mut cur: Point = Point { x: 0, y: 0 };
    let mut area: i128 = 0;
    let n = path.0.len();
    let mut i: usize = 0;
    proof {
        assert(path@.skip(0) =~= path@);
    }
    while i < n
        invariant
            n == path@.len() <= MAX_ELS,
            path.in_range(2 * crate::COORD_LIMIT as int),
            0 <= i <= n,
            start.in_range(2 * crate::COORD_LIMIT as int),
            cur.in_range(2 * crate::COORD_LIMIT as int),
            -(i as int) * SEG_AREA_BOUND as int <= area as int <= (i as int) * SEG_AREA_BOUND
                as int,
            area as int + gm_fold(path@.skip(i as int), start, cur).area
                == spec_green_moments(path@).area,
        decreases n - i,
    {
        let ghost prestart = start;
        let ghost precur = cur;
        let el = path.0[i];
        proof {
            assert(path@[i as int].in_range(2 * crate::COORD_LIMIT as int));
            assert(path@.skip(i as int).first() == path@[i as int]);
            assert(path@.skip(i as int).drop_first() =~= path@.skip(i + 1));
        }
        match el {
            PathEl::MoveTo(p) => {
                start = p;
                cur = p;
            },
            PathEl::LineTo(p) => {
                let xc = pb1_exec(cur.x, p.x);
                let yc = pb1_exec(cur.y, p.y);
                area = area + seg_area120(&xc, &yc);
                cur = p;
            },
            PathEl::QuadTo(p0, p1) => {
                let xc = pb2_exec(cur.x, p0.x, p1.x);
                let yc = pb2_exec(cur.y, p0.y, p1.y);
                area = area + seg_area120(&xc, &yc);
                cur = p1;
            },
            PathEl::CurveTo(p0, p1, p2) => {
                let xc = pb3_exec(cur.x, p0.x, p1.x, p2.x);
                let yc = pb3_exec(cur.y, p0.y, p1.y, p2.y);
                area = area + seg_area120(&xc, &yc);
                cur = p2;
            },
            PathEl::ClosePath => {
                if cur.x != start.x || cur.y != start.y {
                    let xc = pb1_exec(cur.x, start.x);
                    let yc = pb1_exec(cur.y, start.y);
                    area = area + seg_area120(&xc, &yc);
                }
                cur = start;
            },
        }
        proof {
            assert(start == el_next_start(prestart, precur, path@[i as int]));
            assert(cur == el_next_cur(prestart, precur, path@[i as int]));
        }
        i = i + 1;
    }
    proof {
        assert(path@.skip(n as int) =~= Seq::<PathEl>::empty());
    }
    area
}

} // verus!\n