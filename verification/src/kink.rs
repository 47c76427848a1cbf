//! Kink detection: a smooth Bézier junction in both masters that shows
//! a visible angle in the midway contour.
//!
//! A node is a candidate when it is on-curve on both sides and at least
//! one neighbour before it is a handle.  All angle comparisons are made
//! on squared terms or with fixed-point floor-square-root lengths, so
//! the decision is exact over the stated integer semantics.

use vstd::prelude::*;

use crate::geometry::{GlyfPoint, Point};
use crate::nums::{abs_int, div_trunc, isqrt_u128, mul_bounded, sqrt_floor, Ratio};
use crate::problems::{DetailsModel, Problem, ProblemDetails, ProblemModel};
use crate::Glyph;

verus! {

/// Squared length of a delta vector.
pub open spec fn sqn(x: int, y: int) -> int {
    x * x + y * y
}

/// Fixed-point length: `√(256²·(x² + y²))`, the true length at scale 256.
pub open spec fn lenf(x: int, y: int) -> int {
    sqrt_floor((sqn(x, y) * 65536) as nat) as int
}

pub open spec fn cross2(ax: int, ay: int, bx: int, by: int) -> int {
    ax * by - ay * bx
}

pub open spec fn dot2(ax: int, ay: int, bx: int, by: int) -> int {
    ax * bx + ay * by
}

pub open spec fn cyc_prev(i: int, n: int) -> int {
    (i + n - 1) % n
}

pub open spec fn cyc_nxt(i: int, n: int) -> int {
    (i + 1) % n
}

/// The node is on-curve on both sides with a handle before it on at
/// least one side.
pub open spec fn kink_candidate(pa: Seq<GlyfPoint>, pb: Seq<GlyfPoint>, i: int) -> bool {
    let la = pa.len() as int;
    let lb = pb.len() as int;
    pa[i].is_control && pb[i].is_control && !(pa[cyc_prev(i, la)].is_control && pb[cyc_prev(
        i,
        lb,
    )].is_control)
}

/// The full kink decision for node `i` of the paired contours: the node
/// is a candidate, both sides are approximately colinear and not sharp,
/// the handle ratios differ, and the midway contour shows an angle that
/// clears the sine threshold, the deviation threshold (in font units,
/// scaled by `upem`), and the arc-length ratio bound.
pub open spec fn kink_emit(
    pa: Seq<GlyfPoint>,
    pb: Seq<GlyfPoint>,
    i: int,
    tol: Ratio,
    kk: Ratio,
    upem: int,
) -> bool {
    let la = pa.len() as int;
    let lb = pb.len() as int;
    let p0 = pa[i].point;
    let p1 = pb[i].point;
    let pr0 = pa[cyc_prev(i, la)].point;
    let pr1 = pb[cyc_prev(i, lb)].point;
    let nx0 = pa[cyc_nxt(i, la)].point;
    let nx1 = pb[cyc_nxt(i, lb)].point;
    let d0px = p0.x - pr0.x;
    let d0py = p0.y - pr0.y;
    let d0nx = nx0.x - p0.x;
    let d0ny = nx0.y - p0.y;
    let d1px = p1.x - pr1.x;
    let d1py = p1.y - pr1.y;
    let d1nx = nx1.x - p1.x;
    let d1ny = nx1.y - p1.y;
    let sq0 = sqn(d0px, d0py) * sqn(d0nx, d0ny);
    let sq1 = sqn(d1px, d1py) * sqn(d1nx, d1ny);
    let c0 = cross2(d0px, d0py, d0nx, d0ny);
    let c1 = cross2(d1px, d1py, d1nx, d1ny);
    let l0p = lenf(d0px, d0py);
    let l0n = lenf(d0nx, d0ny);
    let l1p = lenf(d1px, d1py);
    let l1n = lenf(d1nx, d1ny);
    let mdx0 = (p0.x + p1.x) - (pr0.x + pr1.x);
    let mdy0 = (p0.y + p1.y) - (pr0.y + pr1.y);
    let mdx1 = (nx0.x + nx1.x) - (p0.x + p1.x);
    let mdy1 = (nx0.y + nx1.y) - (p0.y + p1.y);
    let cm = cross2(mdx0, mdy0, mdx1, mdy1);
    let lm0 = lenf(mdx0, mdy0);
    let lm1 = lenf(mdx1, mdy1);
    &&& kink_candidate(pa, pb, i)
    &&& sq0 != 0
    &&& sq1 != 0
    &&& !(100 * (c0 * c0) > sq0)
    &&& !(100 * (c1 * c1) > sq1)
    &&& dot2(d0px, d0py, d0nx, d0ny) >= 0
    &&& dot2(d1px, d1py, d1nx, d1ny) >= 0
    &&& !(abs_int(l0p * (l1p + l1n) - l1p * (l0p + l0n)) * 10 < (l0p + l0n) * (l1p + l1n))
    &&& sqn(mdx0, mdy0) * sqn(mdx1, mdy1) != 0
    &&& !(10 * (65536 * abs_int(cm)) * tol.num * kk.num <= lm0 * lm1 * (tol.den * kk.den))
    &&& !(256000 * abs_int(cm) * kk.num < 2 * upem * kk.den * (lm0 + lm1))
    &&& !(10 * (65536 * abs_int(cm)) > (lm0 + lm1) * (lm0 + lm1))
}

/// The reported kink tolerance `T / (|sin_mid|·kinkiness)`, as an exact
/// ratio rounded at a 1/4096 granularity so it fits the ratio type.
pub open spec fn kink_tol(pa: Seq<GlyfPoint>, pb: Seq<GlyfPoint>, i: int, kk: Ratio) -> Ratio {
    let la = pa.len() as int;
    let lb = pb.len() as int;
    let p0 = pa[i].point;
    let p1 = pb[i].point;
    let pr0 = pa[cyc_prev(i, la)].point;
    let pr1 = pb[cyc_prev(i, lb)].point;
    let nx0 = pa[cyc_nxt(i, la)].point;
    let nx1 = pb[cyc_nxt(i, lb)].point;
    let mdx0 = (p0.x + p1.x) - (pr0.x + pr1.x);
    let mdy0 = (p0.y + p1.y) - (pr0.y + pr1.y);
    let mdx1 = (nx0.x + nx1.x) - (p0.x + p1.x);
    let mdy1 = (nx0.y + nx1.y) - (p0.y + p1.y);
    let cm = cross2(mdx0, mdy0, mdx1, mdy1);
    let lm0 = lenf(mdx0, mdy0);
    let lm1 = lenf(mdx1, mdy1);
    Ratio {
        num: div_trunc(lm0 * lm1 * kk.den, 4096) as i64,
        den: div_trunc(655360 * abs_int(cm) * kk.num, 4096) as i64,
    }
}

/// The kink problems of one contour pair among the first `k` paired
/// nodes.
pub open spec fn spec_kink_models(
    n1: Seq<char>,
    i1: int,
    n2: Seq<char>,
    i2: int,
    pa: Seq<GlyfPoint>,
    pb: Seq<GlyfPoint>,
    ix: int,
    tol: Ratio,
    kk: Ratio,
    upem: int,
    k: int,
) -> Seq<ProblemModel>
    decreases k,
{
    if k <= 0 {
        Seq::empty()
    } else {
        spec_kink_models(n1, i1, n2, i2, pa, pb, ix, tol, kk, upem, k - 1) + if kink_emit(
            pa,
            pb,
            k - 1,
            tol,
            kk,
            upem,
        ) {
            seq![
                ProblemModel {
                    master_1_name: n1,
                    master_2_name: n2,
                    master_1_index: i1,
                    master_2_index: i2,
                    details: DetailsModel::Kink,
                    tolerance: Some(kink_tol(pa, pb, k - 1, kk)),
                    contour: Some(ix as usize),
                    node: Some((k - 1) as usize),
                },
            ]
        } else {
            Seq::empty()
        }
    }
}

fn sq_of(dx: i64, dy: i64) -> (r: i128)
    requires
        -0x10000 <= dx <= 0x10000,
        -0x10000 <= dy <= 0x10000,
    ensures
        r as int == sqn(dx as int, dy as int),
        0 <= r <= 0x2_0000_0000,
{
    proof {
        assert(0 <= dx as int * dx as int <= 0x1_0000_0000 && 0 <= dy as int * dy as int
            <= 0x1_0000_0000) by (nonlinear_arith)
            requires
                -0x10000 <= dx as int <= 0x10000,
                -0x10000 <= dy as int <= 0x10000,
        ;
    }
    (dx as i128) * (dx as i128) + (dy as i128) * (dy as i128)
}

fn cross_of(ax: i64, ay: i64, bx: i64, by: i64) -> (r: i128)
    requires
        -0x10000 <= ax <= 0x10000,
        -0x10000 <= ay <= 0x10000,
        -0x10000 <= bx <= 0x10000,
        -0x10000 <= by <= 0x10000,
    ensures
        r as int == cross2(ax as int, ay as int, bx as int, by as int),
        -0x2_0000_0000 <= r <= 0x2_0000_0000,
{
    proof {
        assert(-0x1_0000_0000 <= ax as int * by as int <= 0x1_0000_0000 && -0x1_0000_0000 <= ay
            as int * bx as int <= 0x1_0000_0000) by (nonlinear_arith)
            requires
                -0x10000 <= ax as int <= 0x10000,
                -0x10000 <= ay as int <= 0x10000,
                -0x10000 <= bx as int <= 0x10000,
                -0x10000 <= by as int <= 0x10000,
        ;
    }
    (ax as i128) * (by as i128) - (ay as i128) * (bx as i128)
}

fn dot_of(ax: i64, ay: i64, bx: i64, by: i64) -> (r: i128)
    requires
        -0x10000 <= ax <= 0x10000,
        -0x10000 <= ay <= 0x10000,
        -0x10000 <= bx <= 0x10000,
        -0x10000 <= by <= 0x10000,
    ensures
        r as int == dot2(ax as int, ay as int, bx as int, by as int),
        -0x2_0000_0000 <= r <= 0x2_0000_0000,
{
    proof {
        assert(-0x1_0000_0000 <= ax as int * bx as int <= 0x1_0000_0000 && -0x1_0000_0000 <= ay
            as int * by as int <= 0x1_0000_0000) by (nonlinear_arith)
            requires
                -0x10000 <= ax as int <= 0x10000,
                -0x10000 <= ay as int <= 0x10000,
                -0x10000 <= bx as int <= 0x10000,
                -0x10000 <= by as int <= 0x10000,
        ;
    }
    (ax as i128) * (bx as i128) + (ay as i128) * (by as i128)
}

fn len_of(sq: i128) -> (r: i128)
    requires
        0 <= sq <= 0x2_0000_0000,
    ensures
        r as int == sqrt_floor((sq * 65536) as nat) as int,
        0 <= r <= 0x200_0000,
{
    let scaled: u128 = (sq as u128) * 65536;
    let s = isqrt_u128(scaled);
    proof {
        crate::nums::lemma_sqrt_floor_bounds(scaled as nat);
        assert(s > 0x200_0000 ==> s * s > 0x2_0000_0000 * 65536) by (nonlinear_arith);
    }
    s as i128
}

/// Runs the kink test on one contour pair, reporting every node whose
/// midway junction breaks.
#[verifier::rlimit(100)]
pub fn test_kink(
    glyph_a: &Glyph,
    glyph_b: &Glyph,
    contour0: &Vec<GlyfPoint>,
    contour1: &Vec<GlyfPoint>,
    ix: usize,
    tolerance: Ratio,
    kinkiness: Ratio,
    upem: u16,
) -> (r: Vec<Problem>)
    requires
        contour0@.len() <= 4096,
        contour1@.len() <= 4096,
        forall|i: int|
            0 <= i < contour0@.len() ==> (#[trigger] contour0@[i]).point.in_range(
                crate::COORD_LIMIT as int,
            ),
        forall|i: int|
            0 <= i < contour1@.len() ==> (#[trigger] contour1@[i]).point.in_range(
                crate::COORD_LIMIT as int,
            ),
        tolerance.wf(),
        tolerance.num <= 1000000,
        tolerance.den <= 1000000,
        kinkiness.wf(),
        1 <= kinkiness.num <= 1000000,
        kinkiness.den <= 1000000,
    ensures
        crate::problems::views_of(r@) == spec_kink_models(
            glyph_a.master_name@,
            glyph_a.master_index as int,
            glyph_b.master_name@,
            glyph_b.master_index as int,
            contour0@,
            contour1@,
            ix as int,
            tolerance,
            kinkiness,
            upem as int,
            crate::basiccompat::min_int(contour0@.len() as int, contour1@.len() as int),
        ),
{
    let ghost n1 = glyph_a.master_name@;
    let ghost i1 = glyph_a.master_index as int;
    let ghost n2 = glyph_b.master_name@;
    let ghost i2 = glyph_b.master_index as int;
    let la = contour0.len();
    let lb = contour1.len();
    let n = if la < lb {
        la
    } else {
        lb
    };
    let mut problems: Vec<Problem> = Vec::new();
    let mut i: usize = 0;
    while i < n
        invariant
            la == contour0@.len() <= 4096,
            lb == contour1@.len() <= 4096,
            n == crate::basiccompat::min_int(la as int, lb as int),
            forall|t: int|
                0 <= t < contour0@.len() ==> (#[trigger] contour0@[t]).point.in_range(
                    crate::COORD_LIMIT as int,
                ),
            forall|t: int|
                0 <= t < contour1@.len() ==> (#[trigger] contour1@[t]).point.in_range(
                    crate::COORD_LIMIT as int,
                ),
            tolerance.wf(),
            tolerance.num <= 1000000,
            tolerance.den <= 1000000,
            kinkiness.wf(),
            1 <= kinkiness.num <= 1000000,
            kinkiness.den <= 1000000,
            n1 == glyph_a.master_name@,
            i1 == glyph_a.master_index as int,
            n2 == glyph_b.master_name@,
            i2 == glyph_b.master_index as int,
            0 <= i <= n,
            crate::problems::views_of(problems@) == spec_kink_models(
                n1,
                i1,
                n2,
                i2,
                contour0@,
                contour1@,
                ix as int,
                tolerance,
                kinkiness,
                upem as int,
                i as int,
            ),
        decreases n - i,
    {
        let ghost pre = problems@;
        let emitted = kink_step(
            glyph_a,
            glyph_b,
            contour0,
            contour1,
            ix,
            tolerance,
            kinkiness,
            upem,
            i,
            &mut problems,
        );
        i = i + 1;
    }
    problems
}

/// Decides node `i` and appends its problem when the junction breaks.
#[verifier::rlimit(100)]
fn kink_step(
    glyph_a: &Glyph,
    glyph_b: &Glyph,
    contour0: &Vec<GlyfPoint>,
    contour1: &Vec<GlyfPoint>,
    ix: usize,
    tolerance: Ratio,
    kinkiness: Ratio,
    upem: u16,
    i: usize,
    problems: &mut Vec<Problem>,
) -> (emitted: bool)
    requires
        contour0@.len() <= 4096,
        contour1@.len() <= 4096,
        (i as int) < contour0@.len(),
        (i as int) < contour1@.len(),
        forall|t: int|
            0 <= t < contour0@.len() ==> (#[trigger] contour0@[t]).point.in_range(
                crate::COORD_LIMIT as int,
            ),
        forall|t: int|
            0 <= t < contour1@.len() ==> (#[trigger] contour1@[t]).point.in_range(
                crate::COORD_LIMIT as int,
            ),
        tolerance.wf(),
        tolerance.num <= 1000000,
        tolerance.den <= 1000000,
        kinkiness.wf(),
        1 <= kinkiness.num <= 1000000,
        kinkiness.den <= 1000000,
    ensures
        emitted == kink_emit(contour0@, contour1@, i as int, tolerance, kinkiness, upem as int),
        emitted ==> crate::problems::views_of(final(problems)@) == crate::problems::views_of(
            old(problems)@,
        ).push(
            ProblemModel {
                master_1_name: glyph_a.master_name@,
                master_2_name: glyph_b.master_name@,
                master_1_index: glyph_a.master_index as int,
                master_2_index: glyph_b.master_index as int,
                details: DetailsModel::Kink,
                tolerance: Some(kink_tol(contour0@, contour1@, i as int, kinkiness)),
                contour: Some(ix),
                node: Some(i),
            },
        ),
        !emitted ==> final(problems)@ == old(problems)@,
{
    let ghost pa = contour0@;
    let ghost pb = contour1@;
    let la = contour0.len();
    let lb = contour1.len();
    let pt0 = contour0[i];
    let pt1 = contour1[i];
    let ip0 = (i + la - 1) % la;
    let ip1 = (i + lb - 1) % lb;
    let in0 = (i + 1) % la;
    let in1 = (i + 1) % lb;
    proof {
        assert(ip0 < la && ip1 < lb && in0 < la && in1 < lb) by (nonlinear_arith)
            requires
                ip0 == (i + la - 1) % (la as int),
                ip1 == (i + lb - 1) % (lb as int),
                in0 == (i + 1) % (la as int),
                in1 == (i + 1) % (lb as int),
                la >= 1,
                lb >= 1,
        ;
        assert(ip0 as int == cyc_prev(i as int, la as int));
        assert(ip1 as int == cyc_prev(i as int, lb as int));
        assert(in0 as int == cyc_nxt(i as int, la as int));
        assert(in1 as int == cyc_nxt(i as int, lb as int));
    }
    let pr0 = contour0[ip0];
    let pr1 = contour1[ip1];
    let nx0 = contour0[in0];
    let nx1 = contour1[in1];
    let candidate = pt0.is_control && pt1.is_control && !(pr0.is_control && pr1.is_control);
    let d0px = pt0.point.x - pr0.point.x;
    let d0py = pt0.point.y - pr0.point.y;
    let d0nx = nx0.point.x - pt0.point.x;
    let d0ny = nx0.point.y - pt0.point.y;
    let d1px = pt1.point.x - pr1.point.x;
    let d1py = pt1.point.y - pr1.point.y;
    let d1nx = nx1.point.x - pt1.point.x;
    let d1ny = nx1.point.y - pt1.point.y;
    let sq0p = sq_of(d0px, d0py);
    let sq0n = sq_of(d0nx, d0ny);
    let sq1p = sq_of(d1px, d1py);
    let sq1n = sq_of(d1nx, d1ny);
    let c0 = cross_of(d0px, d0py, d0nx, d0ny);
    let c1 = cross_of(d1px, d1py, d1nx, d1ny);
    let sq0 = mul_bounded(sq0p, sq0n, Ghost(0x2_0000_0000 as int), Ghost(0x2_0000_0000 as int));
    let sq1 = mul_bounded(sq1p, sq1n, Ghost(0x2_0000_0000 as int), Ghost(0x2_0000_0000 as int));
    let c0sq = mul_bounded(c0, c0, Ghost(0x2_0000_0000 as int), Ghost(0x2_0000_0000 as int));
    let c1sq = mul_bounded(c1, c1, Ghost(0x2_0000_0000 as int), Ghost(0x2_0000_0000 as int));
    let dot0 = dot_of(d0px, d0py, d0nx, d0ny);
    let dot1 = dot_of(d1px, d1py, d1nx, d1ny);
    let l0p = len_of(sq0p);
    let l0n = len_of(sq0n);
    let l1p = len_of(sq1p);
    let l1n = len_of(sq1n);
    let ratio_lhs = mul_bounded(l0p, l1p + l1n, Ghost(0x200_0000 as int), Ghost(0x400_0000 as int))
        - mul_bounded(l1p, l0p + l0n, Ghost(0x200_0000 as int), Ghost(0x400_0000 as int));
    let ratio_lhs_abs: i128 = if ratio_lhs < 0 {
        -ratio_lhs
    } else {
        ratio_lhs
    };
    let ratio_rhs = mul_bounded(
        l0p + l0n,
        l1p + l1n,
        Ghost(0x400_0000 as int),
        Ghost(0x400_0000 as int),
    );
    let mdx0 = (pt0.point.x + pt1.point.x) - (pr0.point.x + pr1.point.x);
    let mdy0 = (pt0.point.y + pt1.point.y) - (pr0.point.y + pr1.point.y);
    let mdx1 = (nx0.point.x + nx1.point.x) - (pt0.point.x + pt1.point.x);
    let mdy1 = (nx0.point.y + nx1.point.y) - (pt0.point.y + pt1.point.y);
    let sqm0 = sq_of(mdx0, mdy0);
    let sqm1 = sq_of(mdx1, mdy1);
    let cm = cross_of(mdx0, mdy0, mdx1, mdy1);
    let cm_abs: i128 = if cm < 0 {
        -cm
    } else {
        cm
    };
    let sqm = mul_bounded(sqm0, sqm1, Ghost(0x2_0000_0000 as int), Ghost(0x2_0000_0000 as int));
    let lm0 = len_of(sqm0);
    let lm1 = len_of(sqm1);
    let tn: i128 = tolerance.num as i128;
    let td: i128 = tolerance.den as i128;
    let kn: i128 = kinkiness.num as i128;
    let kd: i128 = kinkiness.den as i128;
    let sin_lhs = mul_bounded(
        mul_bounded(
            10 * (65536 * cm_abs),
            tn,
            Ghost(0x80_0000_0000_0000 as int),
            Ghost(0x10_0000 as int),
        ),
        kn,
        Ghost(0x80_0000_0000_0000 as int * 0x10_0000 as int),
        Ghost(0x10_0000 as int),
    );
    let sin_rhs = mul_bounded(
        mul_bounded(lm0, lm1, Ghost(0x200_0000 as int), Ghost(0x200_0000 as int)),
        mul_bounded(td, kd, Ghost(0x10_0000 as int), Ghost(0x10_0000 as int)),
        Ghost(0x200_0000 as int * 0x200_0000 as int),
        Ghost(0x10_0000 as int * 0x10_0000 as int),
    );
    let dev_lhs = mul_bounded(
        256000 * cm_abs,
        kn,
        Ghost(0x8_0000_0000_0000 as int),
        Ghost(0x10_0000 as int),
    );
    let dev_rhs = mul_bounded(
        mul_bounded(2 * (upem as i128), kd, Ghost(0x2_0000 as int), Ghost(0x10_0000 as int)),
        lm0 + lm1,
        Ghost(0x2_0000 as int * 0x10_0000 as int),
        Ghost(0x400_0000 as int),
    );
    let arc_rhs = mul_bounded(
        lm0 + lm1,
        lm0 + lm1,
        Ghost(0x400_0000 as int),
        Ghost(0x400_0000 as int),
    );
    let emit = candidate && sq0 != 0 && sq1 != 0 && !(100 * c0sq > sq0) && !(100 * c1sq > sq1)
        && dot0 >= 0 && dot1 >= 0 && !(ratio_lhs_abs * 10 < ratio_rhs) && sqm != 0 && !(sin_lhs
        <= sin_rhs) && !(dev_lhs < dev_rhs) && !(10 * (65536 * cm_abs) > arc_rhs);
    proof {
        assert(emit == kink_emit(pa, pb, i as int, tolerance, kinkiness, upem as int));
    }
    if emit {
        let tol_num = mul_bounded(
            mul_bounded(lm0, lm1, Ghost(0x200_0000 as int), Ghost(0x200_0000 as int)),
            kd,
            Ghost(0x200_0000 as int * 0x200_0000 as int),
            Ghost(0x10_0000 as int),
        ) / 4096;
        let tol_den = mul_bounded(
            655360 * cm_abs,
            kn,
            Ghost(0x20_0000_0000_0000 as int),
            Ghost(0x10_0000 as int),
        ) / 4096;
        proof {
            lemma_nonneg_div(
                lenf(mdx0 as int, mdy0 as int) * lenf(mdx1 as int, mdy1 as int) * kinkiness.den,
            );
            lemma_nonneg_div(
                655360 * abs_int(cross2(mdx0 as int, mdy0 as int, mdx1 as int, mdy1 as int))
                    * kinkiness.num,
            );
            assert(tol_num as int == div_trunc(
                lenf(mdx0 as int, mdy0 as int) * lenf(mdx1 as int, mdy1 as int) * kinkiness.den,
                4096,
            ));
            assert(tol_den as int == div_trunc(
                655360 * abs_int(cross2(mdx0 as int, mdy0 as int, mdx1 as int, mdy1 as int))
                    * kinkiness.num,
                4096,
            ));
        }
        let prob = Problem {
            master_1_name: glyph_a.master_name.clone(),
            master_2_name: glyph_b.master_name.clone(),
            master_1_index: glyph_a.master_index,
            master_2_index: glyph_b.master_index,
            details: ProblemDetails::Kink,
            tolerance: Some(Ratio { num: tol_num as i64, den: tol_den as i64 }),
            contour: Some(ix),
            node: Some(i),
        };
        proof {
            crate::problems::lemma_views_push(problems@, prob);
        }
        problems.push(prob);
        true
    } else {
        false
    }
}

/// Truncating division by 4096 of a non-negative value agrees with the
/// sign-split model of division.
proof fn lemma_nonneg_div(n: int)
    requires
        n >= 0,
    ensures
        div_trunc(n, 4096) == n / 4096,
{
}

/// One step of the kink model list: the models up to `i + 1` are those
/// up to `i` plus the decision at `i`.
proof fn lemma_kink_models_step(
    n1: Seq<char>,
    i1: int,
    n2: Seq<char>,
    i2: int,
    pa: Seq<GlyfPoint>,
    pb: Seq<GlyfPoint>,
    ix: int,
    tol: Ratio,
    kk: Ratio,
    upem: int,
    i: int,
)
    requires
        i >= 0,
    ensures
        spec_kink_models(n1, i1, n2, i2, pa, pb, ix, tol, kk, upem, i + 1) == spec_kink_models(
            n1,
            i1,
            n2,
            i2,
            pa,
            pb,
            ix,
            tol,
            kk,
            upem,
            i,
        ) + spec_kink_models(n1, i1, n2, i2, pa, pb, ix, tol, kk, upem, i + 1).skip(
            spec_kink_models(n1, i1, n2, i2, pa, pb, ix, tol, kk, upem, i).len() as int,
        ),
        spec_kink_models(n1, i1, n2, i2, pa, pb, ix, tol, kk, upem, i + 1).skip(
            spec_kink_models(n1, i1, n2, i2, pa, pb, ix, tol, kk, upem, i).len() as int,
        ) == if kink_emit(pa, pb, i, tol, kk, upem) {
            seq![
                ProblemModel {
                    master_1_name: n1,
                    master_2_name: n2,
                    master_1_index: i1,
                    master_2_index: i2,
                    details: DetailsModel::Kink,
                    tolerance: Some(kink_tol(pa, pb, i, kk)),
                    contour: Some(ix as usize),
                    node: Some(i as usize),
                },
            ]
        } else {
            Seq::empty()
        },
{
    let a = spec_kink_models(n1, i1, n2, i2, pa, pb, ix, tol, kk, upem, i);
    let b = spec_kink_models(n1, i1, n2, i2, pa, pb, ix, tol, kk, upem, i + 1);
    let tail = if kink_emit(pa, pb, i, tol, kk, upem) {
        seq![
            ProblemModel {
                master_1_name: n1,
                master_2_name: n2,
                master_1_index: i1,
                master_2_index: i2,
                details: DetailsModel::Kink,
                tolerance: Some(kink_tol(pa, pb, i, kk)),
                contour: Some(ix as usize),
                node: Some(i as usize),
            },
        ]
    } else {
        Seq::empty()
    };
    assert(b == a + tail);
    assert(b.skip(a.len() as int) =~= tail);
    assert(b =~= a + b.skip(a.len() as int));
}


/// Every problem the kink test emits is a kink report.
pub proof fn lemma_kink_models_kinds(
    n1: Seq<char>,
    i1: int,
    n2: Seq<char>,
    i2: int,
    pa: Seq<GlyfPoint>,
    pb: Seq<GlyfPoint>,
    ix: int,
    tol: Ratio,
    kk: Ratio,
    upem: int,
    k: int,
    i: int,
)
    requires
        0 <= i < spec_kink_models(n1, i1, n2, i2, pa, pb, ix, tol, kk, upem, k).len(),
    ensures
        spec_kink_models(n1, i1, n2, i2, pa, pb, ix, tol, kk, upem, k)[i].details is Kink,
    decreases k,
{
    if k > 0 {
        let prefix = spec_kink_models(n1, i1, n2, i2, pa, pb, ix, tol, kk, upem, k - 1);
        if i < prefix.len() {
            lemma_kink_models_kinds(n1, i1, n2, i2, pa, pb, ix, tol, kk, upem, k - 1, i);
        }
    }
}

} // verus!
