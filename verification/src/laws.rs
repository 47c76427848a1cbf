//! Laws of the test battery, proved over the same spec functions the
//! tests' contracts use.

use vstd::prelude::*;

use crate::basiccompat::{contour_items, contours_upto, incompat_upto, min_int, spec_compat_items};
use crate::geometry::GlyfPoint;
use crate::kink::{kink_emit, spec_kink_models};
use crate::moments::{GMoments, AREA_BOUND};
use crate::nums::{abs_int, sqrt_floor, Ratio};
use crate::problems::ProblemModel;
use crate::stats::spec_green_descriptor;
use crate::startingpoint::{spec_vdiff_pairs, vdp_upto};
use crate::weight::{overweight_cond, spec_weight_models, underweight_cond};

verus! {

/// Ratio order is transitive across a threshold: a problem whose
/// measured ratio falls below a strict threshold also falls below any
/// laxer (larger) one.  This is the tolerance-monotonicity law for the
/// contour-order and starting-point reports, whose decision is exactly
/// `measured < threshold`.
pub proof fn lemma_threshold_monotone(measured: Ratio, t1: Ratio, t2: Ratio)
    requires
        measured.wf(),
        t1.wf(),
        t2.wf(),
        t1.spec_le(t2),
        measured.spec_lt(t1),
    ensures
        measured.spec_lt(t2),
{
    assert(measured.num * t2.den < t2.num * measured.den) by (nonlinear_arith)
        requires
            measured.num * t1.den < t1.num * measured.den,
            t1.num * t2.den <= t2.num * t1.den,
            measured.den > 0,
            t1.den > 0,
            t2.den > 0,
            measured.num >= 0,
            t1.num >= 0,
            t2.num >= 0,
    ;
}

/// Raising the tolerance keeps every overweight report: the activation
/// condition is monotone in the threshold.
pub proof fn lemma_overweight_monotone(a0: int, a1: int, am: int, t1: Ratio, t2: Ratio)
    requires
        t1.wf(),
        t2.wf(),
        t1.spec_le(t2),
        overweight_cond(a0, a1, am, t1),
    ensures
        overweight_cond(a0, a1, am, t2),
{
    let e = crate::weight::max_int(abs_int(a0), abs_int(a1));
    let m = abs_int(am);
    assert(e >= 0 && m >= 0);
    assert(3 * t2.num + 2500 * e * t2.den < 625 * m * t2.num) by (nonlinear_arith)
        requires
            3 * t1.num + 2500 * e * t1.den < 625 * m * t1.num,
            t1.num * t2.den <= t2.num * t1.den,
            t1.den > 0,
            t2.den > 0,
            t1.num >= 0,
            t2.num >= 0,
            e >= 0,
            m >= 0,
    ;
}

/// Raising the tolerance keeps every underweight report.
pub proof fn lemma_underweight_monotone(a0: int, a1: int, am: int, t1: Ratio, t2: Ratio)
    requires
        t1.wf(),
        t2.wf(),
        t1.spec_le(t2),
        underweight_cond(a0, a1, am, t1),
    ensures
        underweight_cond(a0, a1, am, t2),
{
    let e = sqrt_floor((abs_int(a0) * abs_int(a1)) as nat) as int;
    let m = abs_int(am);
    assert(2500 * e * t2.num > 625 * m * t2.den + 3 * t2.den) by (nonlinear_arith)
        requires
            2500 * e * t1.num > 625 * m * t1.den + 3 * t1.den,
            t1.num * t2.den <= t2.num * t1.den,
            t1.den > 0,
            t2.den > 0,
            t1.num >= 0,
            t2.num >= 0,
            e >= 0,
            m >= 0,
    ;
}

/// The sign of a contour's signed-size descriptor entry is the sign of
/// its Green area: a positively-oriented contour has a positive entry.
pub proof fn lemma_green_sign(g: GMoments)
    requires
        -AREA_BOUND <= g.area <= AREA_BOUND,
    ensures
        g.area > 0 ==> spec_green_descriptor(g)[0] > 0,
        g.area < 0 ==> spec_green_descriptor(g)[0] < 0,
        g.area == 0 ==> spec_green_descriptor(g)[0] == 0,
{
    if g.area != 0 {
        let scaled = abs_int(g.area) * 65536 / 120;
        assert(abs_int(g.area) >= 1);
        assert(scaled >= 546) by (nonlinear_arith)
            requires
                abs_int(g.area) >= 1,
                scaled == abs_int(g.area) * 65536 / 120,
        ;
        crate::nums::lemma_sqrt_floor_bounds(scaled as nat);
        let s = sqrt_floor(scaled as nat);
        assert(s >= 1) by (nonlinear_arith)
            requires
                s * s <= scaled,
                scaled < (s + 1) * (s + 1),
                scaled >= 546,
        ;
    } else {
        assert(abs_int(0) * 65536 / 120 == 0);
        crate::nums::lemma_sqrt_floor_bounds(0);
    }
}

/// Structurally identical glyphs raise no structural mismatch.
pub proof fn lemma_compat_self(ca: int, psa: Seq<Seq<GlyfPoint>>)
    ensures
        spec_compat_items(ca, ca, psa, psa) == Seq::<crate::basiccompat::CompatItem>::empty(),
{
    lemma_contours_self(psa, psa.len() as int);
    assert(spec_compat_items(ca, ca, psa, psa) =~= Seq::<
        crate::basiccompat::CompatItem,
    >::empty());
}

proof fn lemma_incompat_self(pa: Seq<GlyfPoint>, path: int, k: int)
    ensures
        incompat_upto(pa, pa, path, k) == Seq::<crate::basiccompat::CompatItem>::empty(),
    decreases k,
{
    if k > 0 {
        lemma_incompat_self(pa, path, k - 1);
        assert(incompat_upto(pa, pa, path, k) =~= Seq::<crate::basiccompat::CompatItem>::empty());
    } else {
        assert(incompat_upto(pa, pa, path, k) =~= Seq::<crate::basiccompat::CompatItem>::empty());
    }
}

proof fn lemma_contours_self(psa: Seq<Seq<GlyfPoint>>, k: int)
    ensures
        contours_upto(psa, psa, k) == Seq::<crate::basiccompat::CompatItem>::empty(),
    decreases k,
{
    if k > 0 {
        lemma_contours_self(psa, k - 1);
        lemma_incompat_self(psa[k - 1], k - 1, psa[k - 1].len() as int);
        assert(contour_items(psa[k - 1], psa[k - 1], k - 1) =~= Seq::<
            crate::basiccompat::CompatItem,
        >::empty());
        assert(contours_upto(psa, psa, k) =~= Seq::<crate::basiccompat::CompatItem>::empty());
    } else {
        assert(contours_upto(psa, psa, k) =~= Seq::<crate::basiccompat::CompatItem>::empty());
    }
}

/// A characteristic vector is at distance zero from itself.
pub proof fn lemma_vdiff_pairs_self(a: Seq<(int, int)>)
    ensures
        spec_vdiff_pairs(a, a) == 0,
{
    lemma_vdp_self(a, a.len() as int);
}

proof fn lemma_vdp_self(a: Seq<(int, int)>, k: int)
    ensures
        vdp_upto(a, a, k) == 0,
    decreases k,
{
    if k > 0 {
        lemma_vdp_self(a, k - 1);
        let dx = a[k - 1].0 - a[k - 1].0;
        let dy = a[k - 1].1 - a[k - 1].1;
        assert(dx * dx == 0 && dy * dy == 0) by (nonlinear_arith)
            requires
                dx == 0,
                dy == 0,
        ;
    }
}

/// A node paired with itself never kinks: the handle ratios of the two
/// sides are equal, which the ratio guard rejects.
pub proof fn lemma_kink_self(pa: Seq<GlyfPoint>, i: int, tol: Ratio, kk: Ratio, upem: int)
    ensures
        !kink_emit(pa, pa, i, tol, kk, upem),
{
    if kink_emit(pa, pa, i, tol, kk, upem) {
        let la = pa.len() as int;
        let p0 = pa[i].point;
        let pr0 = pa[crate::kink::cyc_prev(i, la)].point;
        let nx0 = pa[crate::kink::cyc_nxt(i, la)].point;
        let d0px = p0.x - pr0.x;
        let d0py = p0.y - pr0.y;
        let d0nx = nx0.x - p0.x;
        let d0ny = nx0.y - p0.y;
        let sp = crate::kink::sqn(d0px, d0py);
        let sn = crate::kink::sqn(d0nx, d0ny);
        assert(d0px * d0px + d0py * d0py >= 0 && d0nx * d0nx + d0ny * d0ny >= 0)
            by (nonlinear_arith);
        assert(sp >= 0 && sn >= 0);
        assert(sp * sn != 0);
        assert(sp >= 1 && sn >= 1) by (nonlinear_arith)
            requires
                sp * sn != 0,
                sp >= 0,
                sn >= 0,
        ;
        lemma_lenf_pos(d0px, d0py);
        lemma_lenf_pos(d0nx, d0ny);
        let l0p = crate::kink::lenf(d0px, d0py);
        let l0n = crate::kink::lenf(d0nx, d0ny);
        assert(l0p * (l0p + l0n) - l0p * (l0p + l0n) == 0);
        assert(abs_int(0) * 10 == 0);
        assert((l0p + l0n) * (l0p + l0n) > 0) by (nonlinear_arith)
            requires
                l0p >= 1,
                l0n >= 1,
        ;
        assert(false);
    }
}

/// A nonzero delta has a positive fixed-point length.
proof fn lemma_lenf_pos(x: int, y: int)
    requires
        crate::kink::sqn(x, y) >= 1,
    ensures
        crate::kink::lenf(x, y) >= 1,
{
    let scaled = crate::kink::sqn(x, y) * 65536;
    assert(scaled >= 65536);
    crate::nums::lemma_sqrt_floor_bounds(scaled as nat);
    let s = sqrt_floor(scaled as nat);
    assert(s >= 1) by (nonlinear_arith)
        requires
            s * s <= scaled,
            scaled < (s + 1) * (s + 1),
            scaled >= 65536,
    ;
}

/// A contour paired with itself reports no kinks at all.
pub proof fn lemma_kink_models_self(
    n1: Seq<char>,
    i1: int,
    n2: Seq<char>,
    i2: int,
    pa: Seq<GlyfPoint>,
    ix: int,
    tol: Ratio,
    kk: Ratio,
    upem: int,
    k: int,
)
    ensures
        spec_kink_models(n1, i1, n2, i2, pa, pa, ix, tol, kk, upem, k) == Seq::<
            ProblemModel,
        >::empty(),
    decreases k,
{
    if k > 0 {
        lemma_kink_models_self(n1, i1, n2, i2, pa, ix, tol, kk, upem, k - 1);
        lemma_kink_self(pa, k - 1, tol, kk, upem);
        assert(spec_kink_models(n1, i1, n2, i2, pa, pa, ix, tol, kk, upem, k) =~= Seq::<
            ProblemModel,
        >::empty());
    } else {
        assert(spec_kink_models(n1, i1, n2, i2, pa, pa, ix, tol, kk, upem, k) =~= Seq::<
            ProblemModel,
        >::empty());
    }
}

/// A contour weighed against itself, with the midway area four times
/// its own (the midway shape at twice the scale), raises no weight
/// problem at any threshold of at most one.
pub proof fn lemma_weight_self(
    n1: Seq<char>,
    i1: int,
    n2: Seq<char>,
    i2: int,
    a0: int,
    tol: Ratio,
    ix: int,
)
    requires
        tol.wf(),
        tol.num <= tol.den,
    ensures
        spec_weight_models(n1, i1, n2, i2, a0, a0, 4 * a0, tol, ix) == Seq::<
            ProblemModel,
        >::empty(),
{
    let e = abs_int(a0);
    assert(abs_int(4 * a0) == 4 * e);
    assert(!(3 * tol.num + 2500 * e * tol.den < 625 * (4 * e) * tol.num)) by (nonlinear_arith)
        requires
            e >= 0,
            tol.den > 0,
            0 <= tol.num <= tol.den,
    ;
    assert(e * e < (e + 1) * (e + 1)) by (nonlinear_arith)
        requires
            e >= 0,
    ;
    crate::nums::lemma_sqrt_floor_unique((e * e) as nat, e as nat);
    assert(!(2500 * e * tol.num > 625 * (4 * e) * tol.den + 3 * tol.den)) by (nonlinear_arith)
        requires
            e >= 0,
            tol.den > 0,
            0 <= tol.num <= tol.den,
    ;
    assert(spec_weight_models(n1, i1, n2, i2, a0, a0, 4 * a0, tol, ix) =~= Seq::<
        ProblemModel,
    >::empty());
}

/// Aligned identical descriptor lists cost nothing, so the identity
/// assignment of a glyph against itself is already optimal.
pub proof fn lemma_identity_cost_of_equal(m0: Seq<Vec<i64>>, m1: Seq<Vec<i64>>)
    requires
        m0.len() == m1.len() <= 0x1_0000,
        forall|i: int|
            0 <= i < m0.len() ==> (#[trigger] m0[i])@.map_values(|v: i64| v as int) == (
            #[trigger] m1[i])@.map_values(|v: i64| v as int),
    ensures
        crate::matching::assignment_cost(
            crate::matching::spec_weight_matrix(m0, m1),
            m0.len() as int,
            crate::matching::identity_perm(m0.len() as int),
        ) == 0,
{
    let n = m0.len() as int;
    let w = crate::matching::spec_weight_matrix(m0, m1);
    assert forall|i: int| 0 <= i < n implies #[trigger] w[i * n + i] == 0 by {
        crate::matching::lemma_weight_diag(m0, m1, i);
        crate::matching::lemma_vdiff_self_zero(m0[i]@.map_values(|v: i64| v as int));
    }
    crate::matching::lemma_identity_cost_zero(w, n, n);
}


/// Every coefficient doubled.
pub open spec fn scale2(s: Seq<int>) -> Seq<int> {
    Seq::new(s.len(), |i: int| 2 * s[i])
}

/// Every coefficient quadrupled.
pub open spec fn scale4(s: Seq<int>) -> Seq<int> {
    Seq::new(s.len(), |i: int| 4 * s[i])
}

proof fn lemma_conv_at_scale(a: Seq<int>, b: Seq<int>, k: int)
    ensures
        crate::moments::conv_at(scale2(a), scale2(b), k) == 4 * crate::moments::conv_at(a, b, k),
    decreases b.len(),
{
    if b.len() == 0 {
        assert(scale2(b).len() == 0);
    } else {
        lemma_conv_at_scale(a, b.drop_last(), k);
        assert(scale2(b).drop_last() =~= scale2(b.drop_last()));
        if 0 <= k - (b.len() - 1) < a.len() {
            let x = a[k - (b.len() - 1)];
            let y = b[b.len() - 1];
            assert(scale2(a)[k - (b.len() - 1)] == 2 * x);
            assert(scale2(b)[b.len() - 1] == 2 * y);
            assert((2 * x) * (2 * y) == 4 * (x * y)) by (nonlinear_arith);
        }
    }
}

proof fn lemma_conv_scale(a: Seq<int>, b: Seq<int>)
    requires
        a.len() >= 1,
        b.len() >= 1,
    ensures
        crate::moments::spec_conv(scale2(a), scale2(b)) == scale4(crate::moments::spec_conv(a, b)),
{
    assert forall|k: int|
        0 <= k < crate::moments::spec_conv(a, b).len() implies #[trigger] crate::moments::spec_conv(
        scale2(a),
        scale2(b),
    )[k] == 4 * crate::moments::spec_conv(a, b)[k] by {
        lemma_conv_at_scale(a, b, k);
    }
    assert(crate::moments::spec_conv(scale2(a), scale2(b)) =~= scale4(
        crate::moments::spec_conv(a, b),
    ));
}

proof fn lemma_deriv_scale(c: Seq<int>)
    requires
        c.len() >= 1,
    ensures
        crate::moments::spec_deriv(scale2(c)) == scale2(crate::moments::spec_deriv(c)),
{
    assert forall|k: int|
        0 <= k < c.len() - 1 implies #[trigger] crate::moments::spec_deriv(scale2(c))[k] == 2
        * crate::moments::spec_deriv(c)[k] by {
        let x = c[k + 1];
        assert((k + 1) * (2 * x) == 2 * ((k + 1) * x)) by (nonlinear_arith);
    }
    assert(crate::moments::spec_deriv(scale2(c)) =~= scale2(crate::moments::spec_deriv(c)));
}

proof fn lemma_integral_scale(c: Seq<int>, scale: int)
    ensures
        crate::moments::spec_integral(scale4(c), scale) == 4 * crate::moments::spec_integral(
            c,
            scale,
        ),
    decreases c.len(),
{
    if c.len() == 0 {
        assert(scale4(c).len() == 0);
    } else {
        lemma_integral_scale(c.drop_last(), scale);
        assert(scale4(c).drop_last() =~= scale4(c.drop_last()));
        let x = c.last();
        let w = scale / (c.len() as int);
        assert(scale4(c).last() == 4 * x);
        assert((4 * x) * w == 4 * (x * w)) by (nonlinear_arith);
    }
}

proof fn lemma_seg_area_scale(xc: Seq<int>, yc: Seq<int>)
    requires
        xc.len() >= 2,
        yc.len() == xc.len(),
    ensures
        crate::moments::seg_gm(scale2(xc), scale2(yc)).area == 4 * crate::moments::seg_gm(
            xc,
            yc,
        ).area,
{
    lemma_deriv_scale(xc);
    lemma_deriv_scale(yc);
    lemma_conv_scale(xc, crate::moments::spec_deriv(yc));
    lemma_conv_scale(yc, crate::moments::spec_deriv(xc));
    lemma_integral_scale(
        crate::moments::spec_conv(xc, crate::moments::spec_deriv(yc)),
        60,
    );
    lemma_integral_scale(
        crate::moments::spec_conv(yc, crate::moments::spec_deriv(xc)),
        60,
    );
}

/// The midway element of an element with itself, drawn from the doubled
/// pen state, contributes four times the signed area.
proof fn lemma_el_area_scale(start: crate::geometry::Point, cur: crate::geometry::Point, el: crate::geometry::PathEl)
    requires
        start.in_range(crate::COORD_LIMIT as int),
        cur.in_range(crate::COORD_LIMIT as int),
        el.in_range(crate::COORD_LIMIT as int),
    ensures
        crate::moments::el_gm(
            crate::geometry::point_sum(start, start),
            crate::geometry::point_sum(cur, cur),
            crate::geometry::el_midpoint(el, el),
        ).area == 4 * crate::moments::el_gm(start, cur, el).area,
{
    let ds = crate::geometry::point_sum(start, start);
    let dc = crate::geometry::point_sum(cur, cur);
    match el {
        crate::geometry::PathEl::MoveTo(_) => {},
        crate::geometry::PathEl::LineTo(p) => {
            let xc = crate::moments::pb1(cur.x as int, p.x as int);
            let yc = crate::moments::pb1(cur.y as int, p.y as int);
            assert(crate::moments::pb1(dc.x as int, 2 * p.x as int) =~= scale2(xc));
            assert(crate::moments::pb1(dc.y as int, 2 * p.y as int) =~= scale2(yc));
            lemma_seg_area_scale(xc, yc);
        },
        crate::geometry::PathEl::QuadTo(p0, p1) => {
            let xc = crate::moments::pb2(cur.x as int, p0.x as int, p1.x as int);
            let yc = crate::moments::pb2(cur.y as int, p0.y as int, p1.y as int);
            assert(crate::moments::pb2(dc.x as int, 2 * p0.x as int, 2 * p1.x as int) =~= scale2(
                xc,
            ));
            assert(crate::moments::pb2(dc.y as int, 2 * p0.y as int, 2 * p1.y as int) =~= scale2(
                yc,
            ));
            lemma_seg_area_scale(xc, yc);
        },
        crate::geometry::PathEl::CurveTo(p0, p1, p2) => {
            let xc = crate::moments::pb3(cur.x as int, p0.x as int, p1.x as int, p2.x as int);
            let yc = crate::moments::pb3(cur.y as int, p0.y as int, p1.y as int, p2.y as int);
            assert(crate::moments::pb3(
                dc.x as int,
                2 * p0.x as int,
                2 * p1.x as int,
                2 * p2.x as int,
            ) =~= scale2(xc));
            assert(crate::moments::pb3(
                dc.y as int,
                2 * p0.y as int,
                2 * p1.y as int,
                2 * p2.y as int,
            ) =~= scale2(yc));
            lemma_seg_area_scale(xc, yc);
        },
        crate::geometry::PathEl::ClosePath => {
            if dc == ds {
                assert(cur == start);
            } else {
                assert(cur != start);
                let xc = crate::moments::pb1(cur.x as int, start.x as int);
                let yc = crate::moments::pb1(cur.y as int, start.y as int);
                assert(crate::moments::pb1(dc.x as int, ds.x as int) =~= scale2(xc));
                assert(crate::moments::pb1(dc.y as int, ds.y as int) =~= scale2(yc));
                lemma_seg_area_scale(xc, yc);
            }
        },
    }
}

/// The elementwise midway of a contour with itself.
pub open spec fn mid_self(els: Seq<crate::geometry::PathEl>) -> Seq<crate::geometry::PathEl> {
    Seq::new(els.len(), |i: int| crate::geometry::el_midpoint(els[i], els[i]))
}

proof fn lemma_fold_area_scale(
    els: Seq<crate::geometry::PathEl>,
    start: crate::geometry::Point,
    cur: crate::geometry::Point,
)
    requires
        start.in_range(crate::COORD_LIMIT as int),
        cur.in_range(crate::COORD_LIMIT as int),
        forall|i: int| 0 <= i < els.len() ==> (#[trigger] els[i]).in_range(crate::COORD_LIMIT as int),
    ensures
        crate::moments::gm_fold(
            mid_self(els),
            crate::geometry::point_sum(start, start),
            crate::geometry::point_sum(cur, cur),
        ).area == 4 * crate::moments::gm_fold(els, start, cur).area,
    decreases els.len(),
{
    if els.len() == 0 {
        assert(mid_self(els).len() == 0);
    } else {
        let e = els.first();
        assert(e.in_range(crate::COORD_LIMIT as int));
        lemma_el_area_scale(start, cur, e);
        let ns = crate::moments::el_next_start(start, cur, e);
        let nc = crate::moments::el_next_cur(start, cur, e);
        assert(ns.in_range(crate::COORD_LIMIT as int) && nc.in_range(crate::COORD_LIMIT as int));
        assert(forall|i: int|
            0 <= i < els.drop_first().len() ==> (#[trigger] els.drop_first()[i]).in_range(
                crate::COORD_LIMIT as int,
            ));
        lemma_fold_area_scale(els.drop_first(), ns, nc);
        assert(mid_self(els).first() == crate::geometry::el_midpoint(e, e));
        assert(mid_self(els).drop_first() =~= mid_self(els.drop_first()));
        assert(crate::moments::el_next_start(
            crate::geometry::point_sum(start, start),
            crate::geometry::point_sum(cur, cur),
            crate::geometry::el_midpoint(e, e),
        ) == crate::geometry::point_sum(ns, ns));
        assert(crate::moments::el_next_cur(
            crate::geometry::point_sum(start, start),
            crate::geometry::point_sum(cur, cur),
            crate::geometry::el_midpoint(e, e),
        ) == crate::geometry::point_sum(nc, nc));
    }
}

/// The midway shape of a contour with itself (at twice the scale) has
/// four times the contour's signed Green area.
pub proof fn lemma_mid_self_area(els: Seq<crate::geometry::PathEl>)
    requires
        forall|i: int| 0 <= i < els.len() ==> (#[trigger] els[i]).in_range(crate::COORD_LIMIT as int),
    ensures
        crate::geometry::spec_midpoint_curve(els, els) == Some(mid_self(els)),
        crate::moments::spec_green_moments(mid_self(els)).area == 4
            * crate::moments::spec_green_moments(els).area,
{
    assert forall|i: int| 0 <= i < els.len() implies (#[trigger] els[i]).same_kind(els[i]) by {
        match els[i] {
            crate::geometry::PathEl::MoveTo(_) => {},
            crate::geometry::PathEl::LineTo(_) => {},
            crate::geometry::PathEl::QuadTo(_, _) => {},
            crate::geometry::PathEl::CurveTo(_, _, _) => {},
            crate::geometry::PathEl::ClosePath => {},
        }
    }
    assert(crate::geometry::els_compatible(els, els));
    assert(crate::geometry::spec_midpoint_curve(els, els)->Some_0 =~= mid_self(els));
    let origin = crate::geometry::Point { x: 0, y: 0 };
    assert(crate::geometry::point_sum(origin, origin) == origin);
    lemma_fold_area_scale(els, origin, origin);
}


/// The structural test finds exactly as many mismatches in one order of
/// the pair as in the other: presence of structural problems is
/// symmetric.
pub proof fn lemma_compat_symmetric(
    ca: int,
    cb: int,
    psa: Seq<Seq<GlyfPoint>>,
    psb: Seq<Seq<GlyfPoint>>,
)
    ensures
        spec_compat_items(ca, cb, psa, psb).len() == spec_compat_items(cb, ca, psb, psa).len(),
{
    lemma_contours_sym(psa, psb, min_int(psa.len() as int, psb.len() as int));
}

proof fn lemma_incompat_sym(pa: Seq<GlyfPoint>, pb: Seq<GlyfPoint>, path: int, k: int)
    ensures
        incompat_upto(pa, pb, path, k).len() == incompat_upto(pb, pa, path, k).len(),
    decreases k,
{
    if k > 0 {
        lemma_incompat_sym(pa, pb, path, k - 1);
    }
}

proof fn lemma_contours_sym(psa: Seq<Seq<GlyfPoint>>, psb: Seq<Seq<GlyfPoint>>, k: int)
    ensures
        contours_upto(psa, psb, k).len() == contours_upto(psb, psa, k).len(),
    decreases k,
{
    if k > 0 {
        lemma_contours_sym(psa, psb, k - 1);
        lemma_incompat_sym(
            psa[k - 1],
            psb[k - 1],
            k - 1,
            min_int(psa[k - 1].len() as int, psb[k - 1].len() as int),
        );
    }
}

/// The midway shape does not depend on the order of the pair.
pub proof fn lemma_midpoint_symmetric(a: Seq<crate::geometry::PathEl>, b: Seq<crate::geometry::PathEl>)
    ensures
        crate::geometry::spec_midpoint_curve(a, b) == crate::geometry::spec_midpoint_curve(b, a),
{
    assert forall|i: int|
        0 <= i < a.len() && a.len() == b.len() implies ((#[trigger] a[i]).same_kind(b[i])
        == b[i].same_kind(a[i]) && crate::geometry::el_midpoint(a[i], b[i])
        == crate::geometry::el_midpoint(b[i], a[i])) by {
        match (a[i], b[i]) {
            (crate::geometry::PathEl::MoveTo(_), crate::geometry::PathEl::MoveTo(_)) => {},
            (crate::geometry::PathEl::LineTo(_), crate::geometry::PathEl::LineTo(_)) => {},
            (crate::geometry::PathEl::QuadTo(_, _), crate::geometry::PathEl::QuadTo(_, _)) => {},
            (
                crate::geometry::PathEl::CurveTo(_, _, _),
                crate::geometry::PathEl::CurveTo(_, _, _),
            ) => {},
            (crate::geometry::PathEl::ClosePath, crate::geometry::PathEl::ClosePath) => {},
            _ => {},
        }
    }
    assert(crate::geometry::els_compatible(a, b) == crate::geometry::els_compatible(b, a));
    if crate::geometry::els_compatible(a, b) {
        assert(crate::geometry::spec_midpoint_curve(a, b)->Some_0
            =~= crate::geometry::spec_midpoint_curve(b, a)->Some_0);
    }
}

/// The weight test reports the same number of problems whichever glyph
/// comes first.
pub proof fn lemma_weight_symmetric(
    n1: Seq<char>,
    i1: int,
    n2: Seq<char>,
    i2: int,
    a0: int,
    a1: int,
    am: int,
    tol: Ratio,
    ix: int,
)
    ensures
        spec_weight_models(n1, i1, n2, i2, a0, a1, am, tol, ix).len() == spec_weight_models(
            n2,
            i2,
            n1,
            i1,
            a1,
            a0,
            am,
            tol,
            ix,
        ).len(),
{
    assert(abs_int(a0) * abs_int(a1) == abs_int(a1) * abs_int(a0)) by (nonlinear_arith);
}

/// A node kinks in one order of the pair exactly when it kinks in the
/// other.
pub proof fn lemma_kink_emit_symmetric(
    pa: Seq<GlyfPoint>,
    pb: Seq<GlyfPoint>,
    i: int,
    tol: Ratio,
    kk: Ratio,
    upem: int,
)
    ensures
        kink_emit(pa, pb, i, tol, kk, upem) == kink_emit(pb, pa, i, tol, kk, upem),
{
    let la = pa.len() as int;
    let lb = pb.len() as int;
    let l0p = crate::kink::lenf(
        pa[i].point.x - pa[crate::kink::cyc_prev(i, la)].point.x,
        pa[i].point.y - pa[crate::kink::cyc_prev(i, la)].point.y,
    );
    let l0n = crate::kink::lenf(
        pa[crate::kink::cyc_nxt(i, la)].point.x - pa[i].point.x,
        pa[crate::kink::cyc_nxt(i, la)].point.y - pa[i].point.y,
    );
    let l1p = crate::kink::lenf(
        pb[i].point.x - pb[crate::kink::cyc_prev(i, lb)].point.x,
        pb[i].point.y - pb[crate::kink::cyc_prev(i, lb)].point.y,
    );
    let l1n = crate::kink::lenf(
        pb[crate::kink::cyc_nxt(i, lb)].point.x - pb[i].point.x,
        pb[crate::kink::cyc_nxt(i, lb)].point.y - pb[i].point.y,
    );
    assert(abs_int(l0p * (l1p + l1n) - l1p * (l0p + l0n)) == abs_int(
        l1p * (l0p + l0n) - l0p * (l1p + l1n),
    ));
    assert((l0p + l0n) * (l1p + l1n) == (l1p + l1n) * (l0p + l0n)) by (nonlinear_arith);
}

/// The kink test reports the same number of problems whichever glyph
/// comes first.
pub proof fn lemma_kink_models_symmetric(
    n1: Seq<char>,
    i1: int,
    n2: Seq<char>,
    i2: int,
    pa: Seq<GlyfPoint>,
    pb: Seq<GlyfPoint>,
    ix: int,
    tol: Ratio,
    kk: Ratio,
    upem: int,
    k: int,
)
    ensures
        spec_kink_models(n1, i1, n2, i2, pa, pb, ix, tol, kk, upem, k).len() == spec_kink_models(
            n2,
            i2,
            n1,
            i1,
            pb,
            pa,
            ix,
            tol,
            kk,
            upem,
            k,
        ).len(),
    decreases k,
{
    if k > 0 {
        lemma_kink_models_symmetric(n1, i1, n2, i2, pa, pb, ix, tol, kk, upem, k - 1);
        lemma_kink_emit_symmetric(pa, pb, k - 1, tol, kk, upem);
    }
}


/// One assignment after another: row `i` goes to `outer[inner[i]]`.
pub open spec fn compose_perm(outer: Seq<usize>, inner: Seq<usize>) -> Seq<usize> {
    Seq::new(inner.len(), |i: int| outer[inner[i] as int])
}

proof fn lemma_compose_is_perm(outer: Seq<usize>, inner: Seq<usize>, n: int)
    requires
        crate::matching::is_perm(outer, n),
        crate::matching::is_perm(inner, n),
    ensures
        crate::matching::is_perm(compose_perm(outer, inner), n),
{
    let c = compose_perm(outer, inner);
    assert forall|i: int, j: int| 0 <= i < j < n implies c[i] != c[j] by {
        assert(inner[i] != inner[j]);
        if (inner[i] as int) < (inner[j] as int) {
            assert(outer[inner[i] as int] != outer[inner[j] as int]);
        } else {
            assert(outer[inner[j] as int] != outer[inner[i] as int]);
        }
    }
}

proof fn lemma_cost_reindex(
    m0: Seq<Vec<i64>>,
    m1: Seq<Vec<i64>>,
    m1r: Seq<Vec<i64>>,
    cols: Seq<usize>,
    p: Seq<usize>,
    k: int,
)
    requires
        m0.len() == m1.len() <= 0x1_0000,
        m1r.len() == m0.len(),
        crate::matching::is_perm(cols, m0.len() as int),
        crate::matching::is_perm(p, m0.len() as int),
        forall|j: int|
            0 <= j < m0.len() ==> (#[trigger] m1r[j])@.map_values(|v: i64| v as int) == m1[
            cols[j] as int]@.map_values(|v: i64| v as int),
        0 <= k <= m0.len(),
    ensures
        crate::matching::cost_upto(
            crate::matching::spec_weight_matrix(m0, m1r),
            m0.len() as int,
            p,
            k,
        ) == crate::matching::cost_upto(
            crate::matching::spec_weight_matrix(m0, m1),
            m0.len() as int,
            compose_perm(cols, p),
            k,
        ),
    decreases k,
{
    let n = m0.len() as int;
    if k > 0 {
        lemma_cost_reindex(m0, m1, m1r, cols, p, k - 1);
        let j = p[k - 1] as int;
        let cj = cols[j] as int;
        assert(0 <= (k - 1) * n + j < n * n) by (nonlinear_arith)
            requires
                0 < k <= n,
                0 <= j < n,
        ;
        vstd::arithmetic::div_mod::lemma_fundamental_div_mod_converse((k - 1) * n + j, n, k - 1, j);
        assert(0 <= (k - 1) * n + cj < n * n) by (nonlinear_arith)
            requires
                0 < k <= n,
                0 <= cj < n,
        ;
        vstd::arithmetic::div_mod::lemma_fundamental_div_mod_converse(
            (k - 1) * n + cj,
            n,
            k - 1,
            cj,
        );
        assert(crate::matching::spec_weight_matrix(m0, m1r)[(k - 1) * n + j]
            == crate::matching::spec_weight_matrix(m0, m1)[(k - 1) * n + cj]);
        assert(compose_perm(cols, p)[k - 1] == cols[j]);
    }
}

/// The reorder law: when the contours of the second glyph are re-listed
/// by the matching the assignment solve chose, the identity assignment
/// of the re-listed pair costs exactly what the chosen matching cost, so
/// it is itself optimal and the contour-order test finds nothing left to
/// reorder.
pub proof fn lemma_reorder_clears_the_matching(
    m0: Seq<Vec<i64>>,
    m1: Seq<Vec<i64>>,
    m1r: Seq<Vec<i64>>,
    cols: Seq<usize>,
)
    requires
        m0.len() == m1.len() <= 0x1_0000,
        m1r.len() == m0.len(),
        crate::matching::is_perm(cols, m0.len() as int),
        forall|j: int|
            0 <= j < m0.len() ==> (#[trigger] m1r[j])@.map_values(|v: i64| v as int) == m1[
            cols[j] as int]@.map_values(|v: i64| v as int),
        forall|p: Seq<usize>|
            crate::matching::is_perm(p, m0.len() as int)
                ==> crate::matching::assignment_cost(
                crate::matching::spec_weight_matrix(m0, m1),
                m0.len() as int,
                cols,
            ) <= crate::matching::assignment_cost(
                crate::matching::spec_weight_matrix(m0, m1),
                m0.len() as int,
                p,
            ),
    ensures
        forall|p: Seq<usize>|
            crate::matching::is_perm(p, m0.len() as int)
                ==> crate::matching::assignment_cost(
                crate::matching::spec_weight_matrix(m0, m1r),
                m0.len() as int,
                crate::matching::identity_perm(m0.len() as int),
            ) <= crate::matching::assignment_cost(
                crate::matching::spec_weight_matrix(m0, m1r),
                m0.len() as int,
                p,
            ),
{
    let n = m0.len() as int;
    let ident = crate::matching::identity_perm(n);
    assert(crate::matching::is_perm(ident, n));
    lemma_cost_reindex(m0, m1, m1r, cols, ident, n);
    assert(compose_perm(cols, ident) =~= cols);
    assert forall|p: Seq<usize>|
        crate::matching::is_perm(p, n) implies crate::matching::assignment_cost(
        crate::matching::spec_weight_matrix(m0, m1r),
        n,
        ident,
    ) <= crate::matching::assignment_cost(
        crate::matching::spec_weight_matrix(m0, m1r),
        n,
        p,
    ) by {
        lemma_cost_reindex(m0, m1, m1r, cols, p, n);
        lemma_compose_is_perm(cols, p, n);
    }
}


/// Traversing the nodes backwards flips the doubled shoelace area.
pub proof fn lemma_shoelace_reversal(pts: Seq<GlyfPoint>)
    ensures
        crate::stats::shoelace2(crate::isomorphism::rev_pts(pts)) == -crate::stats::shoelace2(pts),
{
    let n = pts.len() as int;
    if n == 0 {
    } else {
        lemma_shoelace_partial_reversal(pts, n - 1);
        let rev = crate::isomorphism::rev_pts(pts);
        let a = rev[n - 1].point;
        let b = rev[crate::stats::cyc_next(n - 1, n)].point;
        assert(a == pts[0].point && b == pts[n - 1].point);
        assert(crate::stats::shoelace2_upto(pts, n) == crate::stats::shoelace2_upto(pts, n - 1) + (
        pts[n - 1].point.x * pts[0].point.y - pts[0].point.x * pts[n - 1].point.y));
    }
}

/// The first `k` edges of the reversed node list are the last `k`
/// non-closing edges of the original, each traversed backwards.
proof fn lemma_shoelace_partial_reversal(pts: Seq<GlyfPoint>, k: int)
    requires
        pts.len() >= 1,
        0 <= k <= pts.len() - 1,
    ensures
        crate::stats::shoelace2_upto(crate::isomorphism::rev_pts(pts), k) == -(
        crate::stats::shoelace2_upto(pts, pts.len() - 1) - crate::stats::shoelace2_upto(
            pts,
            pts.len() - 1 - k,
        )),
    decreases k,
{
    let n = pts.len() as int;
    let rev = crate::isomorphism::rev_pts(pts);
    if k > 0 {
        lemma_shoelace_partial_reversal(pts, k - 1);
        let a = rev[k - 1].point;
        let b = rev[crate::stats::cyc_next(k - 1, n)].point;
        assert(a == pts[n - k].point);
        assert(b == pts[n - 1 - k].point);
        assert(crate::stats::shoelace2_upto(pts, n - k) == crate::stats::shoelace2_upto(
            pts,
            n - 1 - k,
        ) + (pts[n - 1 - k].point.x * pts[n - k].point.y - pts[n - k].point.x * pts[n - 1
            - k].point.y));
    }
}

/// Reversing the node order flips the sign of the control descriptor's
/// signed-size entry and keeps its magnitude.
pub proof fn lemma_control_size_reversal(pts: Seq<GlyfPoint>)
    ensures
        crate::stats::spec_control_descriptor(crate::isomorphism::rev_pts(pts))[0]
            == -crate::stats::spec_control_descriptor(pts)[0],
{
    lemma_shoelace_reversal(pts);
    let rev = crate::isomorphism::rev_pts(pts);
    let sh = crate::stats::shoelace2(pts);
    if pts.len() < 2 {
        crate::nums::lemma_sqrt_floor_bounds(0);
    } else {
        assert(abs_int(-sh) == abs_int(sh));
    }
}


/// The sign of the control descriptor's signed-size entry is the sign
/// of the control polygon's area.
pub proof fn lemma_control_sign(pts: Seq<GlyfPoint>)
    requires
        pts.len() >= 2,
    ensures
        crate::stats::shoelace2(pts) > 0 ==> crate::stats::spec_control_descriptor(pts)[0] > 0,
        crate::stats::shoelace2(pts) < 0 ==> crate::stats::spec_control_descriptor(pts)[0] < 0,
        crate::stats::shoelace2(pts) == 0 ==> crate::stats::spec_control_descriptor(pts)[0] == 0,
{
    let sh = crate::stats::shoelace2(pts);
    if sh != 0 {
        let scaled = abs_int(sh) * 65536 / 2;
        assert(abs_int(sh) >= 1);
        assert(scaled >= 32768) by (nonlinear_arith)
            requires
                abs_int(sh) >= 1,
                scaled == abs_int(sh) * 65536 / 2,
        ;
        crate::nums::lemma_sqrt_floor_bounds(scaled as nat);
        let s = sqrt_floor(scaled as nat);
        assert(s >= 1) by (nonlinear_arith)
            requires
                s * s <= scaled,
                scaled < (s + 1) * (s + 1),
                scaled >= 32768,
        ;
    } else {
        assert(abs_int(0) * 65536 / 2 == 0);
        crate::nums::lemma_sqrt_floor_bounds(0);
    }
}

} // verus!
