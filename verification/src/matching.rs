//! Minimum-cost assignment between two sets of contours.
//!
//! The Kuhn–Munkres solve itself is done by an outside crate; the
//! library states of it only that the result is a permutation of the
//! columns, one per row, of no greater total cost than any other
//! permutation, and builds the rest of the contour-order logic on that.

use vstd::prelude::*;

use crate::geometry::{BezPath, GlyfPoint, PathEl};
use crate::isomorphism::{Characteristic, Isomorphisms};

verus! {

/// `p` assigns to each of `n` rows a distinct column below `n`.
pub open spec fn is_perm(p: Seq<usize>, n: int) -> bool {
    p.len() == n && (forall|i: int| 0 <= i < n ==> #[trigger] (p[i] as int) < n) && (forall|
        i: int,
        j: int,
    |
        0 <= i < j < n ==> p[i] != p[j])
}

/// Total cost of assignment `p` over the row-major `n × n` matrix `w`,
/// over the first `k` rows.
pub open spec fn cost_upto(w: Seq<int>, n: int, p: Seq<usize>, k: int) -> int
    decreases k,
{
    if k <= 0 {
        0
    } else {
        cost_upto(w, n, p, k - 1) + w[(k - 1) * n + p[k - 1]]
    }
}

/// Total cost of assignment `p` over the row-major `n × n` matrix `w`.
pub open spec fn assignment_cost(w: Seq<int>, n: int, p: Seq<usize>) -> int {
    cost_upto(w, n, p, n)
}

/// The weight matrix as a sequence of mathematical integers.
pub open spec fn mat_view(w: Seq<i64>) -> Seq<int> {
    w.map_values(|v: i64| v as int)
}

/// The identity assignment of length `n`.
pub open spec fn identity_perm(n: int) -> Seq<usize> {
    Seq::new(n as nat, |i: int| i as usize)
}

/// Relies on `munkres::solve_assignment` (the Kuhn–Munkres algorithm):
/// on a square matrix of non-negative finite weights it returns a
/// minimum-total-cost assignment as one starred cell per row, emitted in
/// row order.  The algorithm's internal row and column reductions are
/// driven by the Hungarian dual variables, which stay within `n` times
/// the largest weight; the bounds below keep `(n + 1)` times the weight
/// cap inside `i64`, so its unchecked additions cannot overflow.
#[verifier::external_body]
fn munkres_solve(n: usize, weights: &Vec<i64>) -> (r: Vec<usize>)
    requires
        1 <= n <= 1024,
        weights@.len() == n * n,
        forall|k: int|
            0 <= k < weights@.len() ==> 0 <= #[trigger] weights@[k] <= crate::stats::COST_CAP,
    ensures
        is_perm(r@, n as int),
        forall|p: Seq<usize>|
            is_perm(p, n as int) ==> assignment_cost(mat_view(weights@), n as int, r@)
                <= assignment_cost(mat_view(weights@), n as int, p),
{
    let mut m = munkres::WeightMatrix::from_row_vec(n, weights.clone());
    match munkres::solve_assignment(&mut m) {
        Ok(positions) => positions.iter().map(|p| p.column).collect(),
        Err(_) => (0..n).collect(),
    }
}

/// An assignment between the contours of two glyphs: ordered
/// `(row, column)` pairs whose rows are `0..n` in order.
pub struct Matching(pub Vec<(usize, usize)>);

impl Matching {
    /// The columns, indexed by row.
    pub open spec fn cols(self) -> Seq<usize> {
        self.0@.map_values(|p: (usize, usize)| p.1)
    }

    /// Rows are consecutive and the columns form a permutation.
    pub open spec fn wf(self) -> bool {
        is_perm(self.cols(), self.0@.len() as int) && forall|i: int|
            0 <= i < self.0@.len() ==> #[trigger] (self.0@[i].0 as int) == i
    }

    pub fn len(&self) -> (r: usize)
        ensures
            r == self.0@.len(),
    {
        self.0.len()
    }

    pub fn is_empty(&self) -> (r: bool)
        ensures
            r == (self.0@.len() == 0),
    {
        self.0.len() == 0
    }

    /// The `(row, column)` pairs in row order.
    pub fn positions(&self) -> (r: &Vec<(usize, usize)>)
        ensures
            r@ == self.0@,
    {
        &self.0
    }

    /// Reorders copyable per-contour data by the matching: entry `i` of
    /// the result is entry `column(i)` of the input.
    pub fn reorder<T: Copy>(&self, data: &Vec<T>) -> (r: Vec<T>)
        requires
            self.wf(),
            data@.len() == self.0@.len(),
        ensures
            r@.len() == data@.len(),
            forall|i: int| 0 <= i < r@.len() ==> #[trigger] r@[i] == data@[self.cols()[i] as int],
    {
        let n = self.0.len();
        let mut r: Vec<T> = Vec::new();
        let mut i: usize = 0;
        while i < n
            invariant
                self.wf(),
                n == self.0@.len() == data@.len(),
                0 <= i <= n,
                r@.len() == i,
                forall|t: int| 0 <= t < i ==> #[trigger] r@[t] == data@[self.cols()[t] as int],
            decreases n - i,
        {
            let c = self.0[i].1;
            proof {
                assert(self.cols()[i as int] == self.0@[i as int].1);
                assert((self.cols()[i as int] as int) < n);
            }
            r.push(data[c]);
            i = i + 1;
        }
        r
    }

    /// Reorders per-contour descriptor vectors by the matching.
    pub fn reorder_vectors(&self, data: &Vec<Vec<i64>>) -> (r: Vec<Vec<i64>>)
        requires
            self.wf(),
            data@.len() == self.0@.len(),
        ensures
            r@.len() == data@.len(),
            forall|i: int| 0 <= i < r@.len() ==> #[trigger] r@[i]@ == data@[self.cols()[i] as int]@,
    {
        let n = self.0.len();
        let mut r: Vec<Vec<i64>> = Vec::new();
        let mut i: usize = 0;
        while i < n
            invariant
                self.wf(),
                n == self.0@.len() == data@.len(),
                0 <= i <= n,
                r@.len() == i,
                forall|t: int| 0 <= t < i ==> #[trigger] r@[t]@ == data@[self.cols()[t] as int]@,
            decreases n - i,
        {
            let c = self.0[i].1;
            proof {
                assert(self.cols()[i as int] == self.0@[i as int].1);
                assert((self.cols()[i as int] as int) < n);
            }
            r.push(copy_i64s(&data[c]));
            i = i + 1;
        }
        r
    }

    /// Reorders per-contour node lists by the matching.
    pub fn reorder_points(&self, data: &Vec<Vec<GlyfPoint>>) -> (r: Vec<Vec<GlyfPoint>>)
        requires
            self.wf(),
            data@.len() == self.0@.len(),
        ensures
            r@.len() == data@.len(),
            forall|i: int| 0 <= i < r@.len() ==> #[trigger] r@[i]@ == data@[self.cols()[i] as int]@,
    {
        let n = self.0.len();
        let mut r: Vec<Vec<GlyfPoint>> = Vec::new();
        let mut i: usize = 0;
        while i < n
            invariant
                self.wf(),
                n == self.0@.len() == data@.len(),
                0 <= i <= n,
                r@.len() == i,
                forall|t: int| 0 <= t < i ==> #[trigger] r@[t]@ == data@[self.cols()[t] as int]@,
            decreases n - i,
        {
            let c = self.0[i].1;
            proof {
                assert(self.cols()[i as int] == self.0@[i as int].1);
                assert((self.cols()[i as int] as int) < n);
            }
            r.push(copy_glyf_points(&data[c]));
            i = i + 1;
        }
        r
    }

    /// Reorders per-contour paths by the matching.
    pub fn reorder_paths(&self, data: &Vec<BezPath>) -> (r: Vec<BezPath>)
        requires
            self.wf(),
            data@.len() == self.0@.len(),
        ensures
            r@.len() == data@.len(),
            forall|i: int| 0 <= i < r@.len() ==> #[trigger] r@[i]@ == data@[self.cols()[i] as int]@,
    {
        let n = self.0.len();
        let mut r: Vec<BezPath> = Vec::new();
        let mut i: usize = 0;
        while i < n
            invariant
                self.wf(),
                n == self.0@.len() == data@.len(),
                0 <= i <= n,
                r@.len() == i,
                forall|t: int| 0 <= t < i ==> #[trigger] r@[t]@ == data@[self.cols()[t] as int]@,
            decreases n - i,
        {
            let c = self.0[i].1;
            proof {
                assert(self.cols()[i as int] == self.0@[i as int].1);
                assert((self.cols()[i as int] as int) < n);
            }
            r.push(BezPath(copy_els(&data[c].0)));
            i = i + 1;
        }
        r
    }

    /// Reorders per-contour alignment sets by the matching.
    pub fn reorder_isomorphisms(&self, data: &Vec<Isomorphisms>) -> (r: Vec<Isomorphisms>)
        requires
            self.wf(),
            data@.len() == self.0@.len(),
        ensures
            r@.len() == data@.len(),
            forall|i: int|
                0 <= i < r@.len() ==> (#[trigger] r@[i])@ == data@[self.cols()[i] as int]@ && (
                crate::isomorphism::iso_wf(data@[self.cols()[i] as int])
                    ==> crate::isomorphism::iso_wf(r@[i])),
    {
        let n = self.0.len();
        let mut r: Vec<Isomorphisms> = Vec::new();
        let mut i: usize = 0;
        while i < n
            invariant
                self.wf(),
                n == self.0@.len() == data@.len(),
                0 <= i <= n,
                r@.len() == i,
                forall|t: int|
                    0 <= t < i ==> (#[trigger] r@[t])@ == data@[self.cols()[t] as int]@ && (
                    crate::isomorphism::iso_wf(data@[self.cols()[t] as int])
                        ==> crate::isomorphism::iso_wf(r@[t])),
            decreases n - i,
        {
            let c = self.0[i].1;
            proof {
                assert(self.cols()[i as int] == self.0@[i as int].1);
                assert((self.cols()[i as int] as int) < n);
            }
            r.push(copy_isomorphisms(&data[c]));
            i = i + 1;
        }
        r
    }
}

pub fn copy_i64s(v: &Vec<i64>) -> (r: Vec<i64>)
    ensures
        r@ == v@,
{
    let n = v.len();
    let mut r: Vec<i64> = Vec::new();
    let mut i: usize = 0;
    while i < n
        invariant
            n == v@.len(),
            0 <= i <= n,
            r@ == v@.take(i as int),
        decreases n - i,
    {
        r.push(v[i]);
        proof {
            assert(r@ =~= v@.take(i + 1));
        }
        i = i + 1;
    }
    proof {
        assert(v@.take(n as int) =~= v@);
    }
    r
}

pub fn copy_glyf_points(v: &Vec<GlyfPoint>) -> (r: Vec<GlyfPoint>)
    ensures
        r@ == v@,
{
    let n = v.len();
    let mut r: Vec<GlyfPoint> = Vec::new();
    let mut i: usize = 0;
    while i < n
        invariant
            n == v@.len(),
            0 <= i <= n,
            r@ == v@.take(i as int),
        decreases n - i,
    {
        r.push(v[i]);
        proof {
            assert(r@ =~= v@.take(i + 1));
        }
        i = i + 1;
    }
    proof {
        assert(v@.take(n as int) =~= v@);
    }
    r
}

pub fn copy_els(v: &Vec<PathEl>) -> (r: Vec<PathEl>)
    ensures
        r@ == v@,
{
    let n = v.len();
    let mut r: Vec<PathEl> = Vec::new();
    let mut i: usize = 0;
    while i < n
        invariant
            n == v@.len(),
            0 <= i <= n,
            r@ == v@.take(i as int),
        decreases n - i,
    {
        r.push(v[i]);
        proof {
            assert(r@ =~= v@.take(i + 1));
        }
        i = i + 1;
    }
    proof {
        assert(v@.take(n as int) =~= v@);
    }
    r
}

pub fn copy_pairs(v: &Vec<(i64, i64)>) -> (r: Vec<(i64, i64)>)
    ensures
        r@ == v@,
{
    let n = v.len();
    let mut r: Vec<(i64, i64)> = Vec::new();
    let mut i: usize = 0;
    while i < n
        invariant
            n == v@.len(),
            0 <= i <= n,
            r@ == v@.take(i as int),
        decreases n - i,
    {
        r.push(v[i]);
        proof {
            assert(r@ =~= v@.take(i + 1));
        }
        i = i + 1;
    }
    proof {
        assert(v@.take(n as int) =~= v@);
    }
    r
}

pub fn copy_isomorphisms(v: &Isomorphisms) -> (r: Isomorphisms)
    ensures
        r@ == v@,
        crate::isomorphism::iso_wf(*v) ==> crate::isomorphism::iso_wf(r),
{
    let n = v.0.len();
    let mut r: Vec<Characteristic> = Vec::new();
    let mut i: usize = 0;
    while i < n
        invariant
            n == v.0@.len(),
            0 <= i <= n,
            r@.len() == i,
            forall|t: int|
                0 <= t < i ==> #[trigger] r@[t].rotated_list@ == v.0@[t].rotated_list@
                    && r@[t].rotation == v.0@[t].rotation && r@[t].reverse == v.0@[t].reverse,
        decreases n - i,
    {
        let c = &v.0[i];
        let copied = Characteristic {
            rotated_list: copy_pairs(&c.rotated_list),
            rotation: c.rotation,
            reverse: c.reverse,
        };
        r.push(copied);
        i = i + 1;
    }
    let out = Isomorphisms(r);
    proof {
        assert(out@ =~~= v@);
    }
    out
}

/// Solves the assignment between two equal-length descriptor lists and
/// returns the matching together with its total cost and the cost of the
/// identity assignment (the trace of the weight matrix).
pub fn matching_for_vectors(m0: &Vec<Vec<i64>>, m1: &Vec<Vec<i64>>) -> (r: (Matching, i128, i128))
    requires
        1 <= m0@.len() == m1@.len() <= 1024,
        forall|i: int|
            0 <= i < m0@.len() ==> (#[trigger] m0@[i]@).len() == 6 && forall|t: int|
                0 <= t < 6 ==> -crate::stats::CLAMP <= #[trigger] (m0@[i]@[t] as int)
                    <= crate::stats::CLAMP,
        forall|i: int|
            0 <= i < m1@.len() ==> (#[trigger] m1@[i]@).len() == 6 && forall|t: int|
                0 <= t < 6 ==> -crate::stats::CLAMP <= #[trigger] (m1@[i]@[t] as int)
                    <= crate::stats::CLAMP,
    ensures
        ({
            let (m, mc, ic) = r;
            let n = m0@.len() as int;
            let w = spec_weight_matrix(m0@, m1@);
            m.wf() && m.0@.len() == n && mc as int == assignment_cost(w, n, m.cols()) && ic as int
                == assignment_cost(w, n, identity_perm(n)) && 0 <= mc <= ic && ic <= n
                * crate::stats::COST_CAP && (forall|p: Seq<usize>|
                is_perm(p, n) ==> mc as int <= assignment_cost(w, n, p))
        }),
{
    let n = m0.len();
    let ghost w = spec_weight_matrix(m0@, m1@);
    let mut weights: Vec<i64> = Vec::new();
    let mut i: usize = 0;
    while i < n
        invariant
            1 <= n == m0@.len() == m1@.len() <= 1024,
            forall|t: int|
                0 <= t < m0@.len() ==> (#[trigger] m0@[t]@).len() == 6 && forall|u: int|
                    0 <= u < 6 ==> -crate::stats::CLAMP <= #[trigger] (m0@[t]@[u] as int)
                        <= crate::stats::CLAMP,
            forall|t: int|
                0 <= t < m1@.len() ==> (#[trigger] m1@[t]@).len() == 6 && forall|u: int|
                    0 <= u < 6 ==> -crate::stats::CLAMP <= #[trigger] (m1@[t]@[u] as int)
                        <= crate::stats::CLAMP,
            w == spec_weight_matrix(m0@, m1@),
            0 <= i <= n,
            weights@.len() == i * n,
            forall|t: int|
                0 <= t < weights@.len() ==> #[trigger] (weights@[t] as int) == w[t] && 0
                    <= weights@[t] <= crate::stats::COST_CAP,
        decreases n - i,
    {
        let mut j: usize = 0;
        while j < n
            invariant
                1 <= n == m0@.len() == m1@.len() <= 1024,
                forall|t: int|
                    0 <= t < m0@.len() ==> (#[trigger] m0@[t]@).len() == 6 && forall|u: int|
                        0 <= u < 6 ==> -crate::stats::CLAMP <= #[trigger] (m0@[t]@[u] as int)
                            <= crate::stats::CLAMP,
                forall|t: int|
                    0 <= t < m1@.len() ==> (#[trigger] m1@[t]@).len() == 6 && forall|u: int|
                        0 <= u < 6 ==> -crate::stats::CLAMP <= #[trigger] (m1@[t]@[u] as int)
                            <= crate::stats::CLAMP,
                w == spec_weight_matrix(m0@, m1@),
                0 <= i < n,
                0 <= j <= n,
                weights@.len() == i * n + j,
                forall|t: int|
                    0 <= t < weights@.len() ==> #[trigger] (weights@[t] as int) == w[t] && 0
                        <= weights@[t] <= crate::stats::COST_CAP,
            decreases n - j,
        {
            let c = crate::stats::vdiff_hypot2(&m0[i], &m1[j]);
            proof {
                assert(i * n + j < n * n) by (nonlinear_arith)
                    requires
                        0 <= i < n,
                        0 <= j < n,
                ;
                vstd::arithmetic::div_mod::lemma_fundamental_div_mod_converse(
                    (i * n + j) as int,
                    n as int,
                    i as int,
                    j as int,
                );
                assert(w[i * n + j] == crate::stats::spec_vdiff6(
                    m0@[i as int]@.map_values(|v: i64| v as int),
                    m1@[j as int]@.map_values(|v: i64| v as int),
                ));
            }
            weights.push(c as i64);
            j = j + 1;
        }
        proof {
            assert(i * n + n == (i + 1) * n) by (nonlinear_arith);
        }
        i = i + 1;
    }
    proof {
        assert(n * n == weights@.len());
    }
    let cols = munkres_solve(n, &weights);
    let mut pairs: Vec<(usize, usize)> = Vec::new();
    let mut mc: i128 = 0;
    let mut k: usize = 0;
    while k < n
        invariant
            1 <= n <= 1024,
            is_perm(cols@, n as int),
            weights@.len() == n * n,
            forall|t: int|
                0 <= t < weights@.len() ==> #[trigger] (weights@[t] as int) == w[t] && 0
                    <= weights@[t] <= crate::stats::COST_CAP,
            0 <= k <= n,
            pairs@.len() == k,
            forall|t: int|
                0 <= t < k ==> #[trigger] pairs@[t] == (t as usize, cols@[t]),
            mc as int == cost_upto(w, n as int, cols@, k as int),
            0 <= mc <= (k as int) * crate::stats::COST_CAP,
        decreases n - k,
    {
        let c = cols[k];
        proof {
            assert((cols@[k as int] as int) < n);
            assert(k * n + c < n * n && k * n <= 1024 * 1024) by (nonlinear_arith)
                requires
                    0 <= k < n,
                    0 <= c < n,
                    n <= 1024,
            ;
        }
        mc = mc + weights[k * n + c] as i128;
        pairs.push((k, c));
        k = k + 1;
    }
    let mut ic: i128 = 0;
    let mut t: usize = 0;
    while t < n
        invariant
            1 <= n <= 1024,
            weights@.len() == n * n,
            forall|u: int|
                0 <= u < weights@.len() ==> #[trigger] (weights@[u] as int) == w[u] && 0
                    <= weights@[u] <= crate::stats::COST_CAP,
            0 <= t <= n,
            ic as int == cost_upto(w, n as int, identity_perm(n as int), t as int),
            0 <= ic <= (t as int) * crate::stats::COST_CAP,
        decreases n - t,
    {
        proof {
            assert(t * n + t < n * n && t * n <= 1024 * 1024) by (nonlinear_arith)
                requires
                    0 <= t < n,
                    n <= 1024,
            ;
            assert(identity_perm(n as int)[t as int] == t as usize);
        }
        ic = ic + weights[t * n + t] as i128;
        t = t + 1;
    }
    let m = Matching(pairs);
    proof {
        assert(m.cols() =~= cols@);
        assert(mat_view(weights@) =~= w);
        assert(is_perm(identity_perm(n as int), n as int));
    }
    (m, mc, ic)
}

/// The row-major matrix of squared descriptor distances.
pub open spec fn spec_weight_matrix(m0: Seq<Vec<i64>>, m1: Seq<Vec<i64>>) -> Seq<int> {
    let n = m0.len() as int;
    Seq::new((n * n) as nat, |k: int| crate::stats::spec_vdiff6(
        m0[k / n]@.map_values(|v: i64| v as int),
        m1[k % n]@.map_values(|v: i64| v as int),
    ))
}


/// The diagonal entries of the weight matrix are the aligned distances.
pub proof fn lemma_weight_diag(m0: Seq<Vec<i64>>, m1: Seq<Vec<i64>>, i: int)
    requires
        m0.len() == m1.len(),
        0 <= i < m0.len(),
    ensures
        spec_weight_matrix(m0, m1)[i * m0.len() + i] == crate::stats::spec_vdiff6(
            m0[i]@.map_values(|v: i64| v as int),
            m1[i]@.map_values(|v: i64| v as int),
        ),
{
    let n = m0.len() as int;
    assert(0 <= i * n + i < n * n) by (nonlinear_arith)
        requires
            0 <= i < n,
    ;
    vstd::arithmetic::div_mod::lemma_fundamental_div_mod_converse(i * n + i, n, i, i);
}

/// An identity assignment over a matrix with a zero diagonal costs
/// nothing.
pub proof fn lemma_identity_cost_zero(w: Seq<int>, n: int, k: int)
    requires
        w.len() == n * n,
        n <= 0x1_0000,
        0 <= k <= n,
        forall|i: int| 0 <= i < n ==> #[trigger] w[i * n + i] == 0,
    ensures
        cost_upto(w, n, identity_perm(n), k) == 0,
    decreases k,
{
    if k > 0 {
        lemma_identity_cost_zero(w, n, k - 1);
        assert(identity_perm(n)[k - 1] == (k - 1) as usize);
        assert(w[(k - 1) * n + (k - 1)] == 0);
    }
}

/// The aligned distance of a descriptor list against itself vanishes.
pub proof fn lemma_vdiff_self_zero(s: Seq<int>)
    ensures
        crate::stats::spec_vdiff6(s, s) == 0,
    decreases s.len(),
{
    if s.len() > 0 {
        lemma_vdiff_self_zero(s.drop_last());
        let t = s.last() - s.last();
        assert(t == 0);
        assert(t * t == 0) by (nonlinear_arith)
            requires
                t == 0,
        ;
    }
}


/// The descriptor lists as sequences of mathematical integer vectors.
pub open spec fn views_int(data: Seq<Vec<i64>>) -> Seq<Seq<int>> {
    data.map_values(|v: Vec<i64>| v@.map_values(|x: i64| x as int))
}

/// Each descriptor with its signed-size entry negated: the same contours
/// wound the other way.
pub open spec fn negate_first_int(s: Seq<Seq<int>>) -> Seq<Seq<int>> {
    s.map_values(|v: Seq<int>| v.update(0, -v[0]))
}

/// The row-major matrix of squared distances between two lists of
/// descriptor views.
pub open spec fn weight_matrix_int(m0: Seq<Seq<int>>, m1: Seq<Seq<int>>) -> Seq<int> {
    let n = m0.len() as int;
    Seq::new((n * n) as nat, |k: int| crate::stats::spec_vdiff6(m0[k / n], m1[k % n]))
}

/// `c` is the least total cost any assignment achieves on `w`.
pub open spec fn is_min_cost(w: Seq<int>, n: int, c: int) -> bool {
    (exists|p: Seq<usize>| is_perm(p, n) && #[trigger] assignment_cost(w, n, p) == c) && (forall|
        p: Seq<usize>,
    |
        is_perm(p, n) ==> c <= #[trigger] assignment_cost(w, n, p))
}

/// The least total cost of any assignment on `w`.
pub open spec fn min_cost(w: Seq<int>, n: int) -> int {
    choose|c: int| is_min_cost(w, n, c)
}

/// The least cost is unique, so any witness pins `min_cost` down.
pub proof fn lemma_min_cost_unique(w: Seq<int>, n: int, c: int)
    requires
        is_min_cost(w, n, c),
    ensures
        min_cost(w, n) == c,
{
    let c2 = min_cost(w, n);
    assert(is_min_cost(w, n, c2));
    let pc = choose|p: Seq<usize>| is_perm(p, n) && #[trigger] assignment_cost(w, n, p) == c;
    let p2 = choose|p: Seq<usize>| is_perm(p, n) && #[trigger] assignment_cost(w, n, p) == c2;
    assert(c2 <= assignment_cost(w, n, pc));
    assert(c <= assignment_cost(w, n, p2));
}

/// The weight matrix of the stored vectors is the matrix of any integer
/// views that agree with them pointwise.
pub proof fn lemma_weight_matrix_as_int(m0: Seq<Vec<i64>>, m1: Seq<Vec<i64>>, b: Seq<Seq<int>>)
    requires
        m0.len() == m1.len(),
        b.len() == m1.len(),
        forall|j: int|
            0 <= j < m1.len() ==> (#[trigger] m1[j])@.map_values(|x: i64| x as int) == b[j],
    ensures
        spec_weight_matrix(m0, m1) == weight_matrix_int(views_int(m0), b),
{
    let n = m0.len() as int;
    assert(views_int(m0).len() == n);
    assert forall|k: int|
        0 <= k < n * n implies #[trigger] spec_weight_matrix(m0, m1)[k] == weight_matrix_int(
        views_int(m0),
        b,
    )[k] by {
        vstd::arithmetic::div_mod::lemma_fundamental_div_mod(k, n);
        let q = k / n;
        let r = k % n;
        assert(q < n) by (nonlinear_arith)
            requires
                n * q + r == k,
                0 <= r < n,
                k < n * n,
        ;
        assert(q >= 0) by (nonlinear_arith)
            requires
                n * q + r == k,
                0 <= r < n,
                0 <= k,
                n >= 1,
        ;
        assert(views_int(m0)[q] == m0[q]@.map_values(|x: i64| x as int));
        assert(m1[r]@.map_values(|x: i64| x as int) == b[r]);
    }
    assert(spec_weight_matrix(m0, m1) =~= weight_matrix_int(views_int(m0), b));
}

} // verus!
