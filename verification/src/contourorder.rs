//! Contour-order matching: solve the assignment between the two glyphs'
//! contour descriptors and flag a reordering only when some permutation
//! beats the identity, on the control-polygon descriptors, the curve
//! descriptors, and both with the winding sign of the second glyph
//! reversed.

use vstd::prelude::*;

use crate::matching::{
    assignment_cost, identity_perm, is_min_cost, lemma_min_cost_unique, lemma_weight_matrix_as_int,
    matching_for_vectors, min_cost, negate_first_int, spec_weight_matrix, views_int,
    weight_matrix_int, Matching,
};
use crate::nums::Ratio;
use crate::stats::{negate_first, COST_CAP};
use crate::Glyph;

verus! {

/// The cost matrix of the two glyphs' control-polygon descriptors.
pub open spec fn control_matrix(a: Glyph, b: Glyph) -> Seq<int> {
    weight_matrix_int(views_int(a.control_vectors@), views_int(b.control_vectors@))
}

/// The cost matrix of the two glyphs' curve descriptors.
pub open spec fn green_matrix(a: Glyph, b: Glyph) -> Seq<int> {
    weight_matrix_int(views_int(a.green_vectors@), views_int(b.green_vectors@))
}

/// The control-polygon cost matrix with the second glyph's winding
/// reversed.
pub open spec fn control_matrix_reversed(a: Glyph, b: Glyph) -> Seq<int> {
    weight_matrix_int(
        views_int(a.control_vectors@),
        negate_first_int(views_int(b.control_vectors@)),
    )
}

/// The curve cost matrix with the second glyph's winding reversed.
pub open spec fn green_matrix_reversed(a: Glyph, b: Glyph) -> Seq<int> {
    weight_matrix_int(views_int(a.green_vectors@), negate_first_int(views_int(b.green_vectors@)))
}

/// The optimal assignment on `w` costs no less than the identity: the
/// solve ties, so the present contour order is acceptable.
pub open spec fn solve_ties_identity(w: Seq<int>, n: int) -> bool {
    min_cost(w, n) == assignment_cost(w, n, identity_perm(n))
}

/// Some of the four solves ties its identity cost.
pub open spec fn any_solve_ties(a: Glyph, b: Glyph, n: int) -> bool {
    ||| solve_ties_identity(control_matrix(a, b), n)
    ||| solve_ties_identity(green_matrix(a, b), n)
    ||| solve_ties_identity(control_matrix_reversed(a, b), n)
    ||| solve_ties_identity(green_matrix_reversed(a, b), n)
}

/// The outcome of the contour-order test: the best/identity cost ratio
/// and, when a reordering was found, the matching itself.
pub open spec fn contour_order_ok(r: (Ratio, Option<Matching>), n: int) -> bool {
    &&& r.0.wf()
    &&& r.0.num <= r.0.den
    &&& match r.1 {
        Some(m) => m.wf() && m.0@.len() == n && n >= 2,
        None => r.0 == (Ratio { num: 1, den: 1 }),
    }
}

/// Solves the contour assignment four ways (control and curve
/// descriptors, each also with the second glyph's winding reversed).
/// Any solve that ties its identity cost clears the glyph pair; when
/// every solve beats its identity, the matching of the primary solve
/// with the worse matching-to-identity cost ratio is returned together
/// with that ratio.
pub fn test_contour_order(glyph_a: &Glyph, glyph_b: &Glyph) -> (r: (Ratio, Option<Matching>))
    requires
        glyph_a.wf(),
        glyph_b.wf(),
        glyph_a.curves@.len() == glyph_b.curves@.len(),
    ensures
        contour_order_ok(r, glyph_a.curves@.len() as int),
        glyph_a.curves@.len() >= 2 && assignment_cost(
            spec_weight_matrix(glyph_a.control_vectors@, glyph_b.control_vectors@),
            glyph_a.curves@.len() as int,
            identity_perm(glyph_a.curves@.len() as int),
        ) == 0 ==> r.1 is None && r.0 == (Ratio { num: 1, den: 1 }),
        glyph_a.curves@.len() < 2 ==> r == (Ratio { num: 1, den: 1 }, None::<Matching>),
        glyph_a.curves@.len() >= 2 && any_solve_ties(
            *glyph_a,
            *glyph_b,
            glyph_a.curves@.len() as int,
        ) ==> r == (Ratio { num: 1, den: 1 }, None::<Matching>),
        glyph_a.curves@.len() >= 2 && !any_solve_ties(
            *glyph_a,
            *glyph_b,
            glyph_a.curves@.len() as int,
        ) ==> ({
            let n = glyph_a.curves@.len() as int;
            let mcc = min_cost(control_matrix(*glyph_a, *glyph_b), n);
            let icc = assignment_cost(control_matrix(*glyph_a, *glyph_b), n, identity_perm(n));
            let mcg = min_cost(green_matrix(*glyph_a, *glyph_b), n);
            let icg = assignment_cost(green_matrix(*glyph_a, *glyph_b), n, identity_perm(n));
            &&& is_min_cost(control_matrix(*glyph_a, *glyph_b), n, mcc)
            &&& is_min_cost(green_matrix(*glyph_a, *glyph_b), n, mcg)
            &&& match r.1 {
                Some(m) => if mcc * icg < mcg * icc {
                    assignment_cost(control_matrix(*glyph_a, *glyph_b), n, m.cols()) == mcc && r.0
                        == (Ratio { num: mcc as i64, den: icc as i64 })
                } else {
                    assignment_cost(green_matrix(*glyph_a, *glyph_b), n, m.cols()) == mcg && r.0
                        == (Ratio { num: mcg as i64, den: icg as i64 })
                },
                None => false,
            }
        }),
{
    let ghost n_spec = glyph_a.curves@.len() as int;
    let n = glyph_a.control_vectors.len();
    if n <= 1 {
        return (Ratio::one(), None);
    }
    proof {
        assert forall|j: int|
            0 <= j < glyph_b.control_vectors@.len() implies (
        #[trigger] glyph_b.control_vectors@[j])@.map_values(|x: i64| x as int) == views_int(
            glyph_b.control_vectors@,
        )[j] by {}
        lemma_weight_matrix_as_int(
            glyph_a.control_vectors@,
            glyph_b.control_vectors@,
            views_int(glyph_b.control_vectors@),
        );
    }
    let (matching_control, mc_control, ic_control) = matching_for_vectors(
        &glyph_a.control_vectors,
        &glyph_b.control_vectors,
    );
    proof {
        assert(is_min_cost(control_matrix(*glyph_a, *glyph_b), n_spec, mc_control as int));
        lemma_min_cost_unique(control_matrix(*glyph_a, *glyph_b), n_spec, mc_control as int);
    }
    if mc_control == ic_control {
        return (Ratio::one(), None);
    }
    proof {
        assert forall|j: int|
            0 <= j < glyph_b.green_vectors@.len() implies (
        #[trigger] glyph_b.green_vectors@[j])@.map_values(|x: i64| x as int) == views_int(
            glyph_b.green_vectors@,
        )[j] by {}
        lemma_weight_matrix_as_int(
            glyph_a.green_vectors@,
            glyph_b.green_vectors@,
            views_int(glyph_b.green_vectors@),
        );
    }
    let (matching_green, mc_green, ic_green) = matching_for_vectors(
        &glyph_a.green_vectors,
        &glyph_b.green_vectors,
    );
    proof {
        assert(is_min_cost(green_matrix(*glyph_a, *glyph_b), n_spec, mc_green as int));
        lemma_min_cost_unique(green_matrix(*glyph_a, *glyph_b), n_spec, mc_green as int);
    }
    if mc_green == ic_green {
        return (Ratio::one(), None);
    }
    let control_reversed = negate_firsts(&glyph_b.control_vectors);
    proof {
        assert forall|j: int|
            0 <= j < control_reversed@.len() implies (
        #[trigger] control_reversed@[j])@.map_values(|x: i64| x as int) == negate_first_int(
            views_int(glyph_b.control_vectors@),
        )[j] by {
            assert(views_int(glyph_b.control_vectors@)[j] == glyph_b.control_vectors@[
            j]@.map_values(|x: i64| x as int));
        }
        lemma_weight_matrix_as_int(
            glyph_a.control_vectors@,
            control_reversed@,
            negate_first_int(views_int(glyph_b.control_vectors@)),
        );
    }
    let (_m_cr, mc_cr, ic_cr) = matching_for_vectors(&glyph_a.control_vectors, &control_reversed);
    proof {
        assert(is_min_cost(control_matrix_reversed(*glyph_a, *glyph_b), n_spec, mc_cr as int));
        lemma_min_cost_unique(control_matrix_reversed(*glyph_a, *glyph_b), n_spec, mc_cr as int);
    }
    if mc_cr == ic_cr {
        return (Ratio::one(), None);
    }
    let green_reversed = negate_firsts(&glyph_b.green_vectors);
    proof {
        assert forall|j: int|
            0 <= j < green_reversed@.len() implies (#[trigger] green_reversed@[j])@.map_values(
            |x: i64| x as int,
        ) == negate_first_int(views_int(glyph_b.green_vectors@))[j] by {
            assert(views_int(glyph_b.green_vectors@)[j] == glyph_b.green_vectors@[j]@.map_values(
                |x: i64| x as int,
            ));
        }
        lemma_weight_matrix_as_int(
            glyph_a.green_vectors@,
            green_reversed@,
            negate_first_int(views_int(glyph_b.green_vectors@)),
        );
    }
    let (_m_gr, mc_gr, ic_gr) = matching_for_vectors(&glyph_a.green_vectors, &green_reversed);
    proof {
        assert(is_min_cost(green_matrix_reversed(*glyph_a, *glyph_b), n_spec, mc_gr as int));
        lemma_min_cost_unique(green_matrix_reversed(*glyph_a, *glyph_b), n_spec, mc_gr as int);
    }
    if mc_gr == ic_gr {
        return (Ratio::one(), None);
    }
    proof {
        assert(!any_solve_ties(*glyph_a, *glyph_b, n_spec));
        assert(ic_control > 0 && ic_green > 0);
        assert(-0x4000_0000_0000_0000_0000_0000_0000_0000 <= mc_control as int * ic_green as int
            <= 0x4000_0000_0000_0000_0000_0000_0000_0000 && -0x4000_0000_0000_0000_0000_0000_0000_0000
            <= mc_green as int * ic_control as int <= 0x4000_0000_0000_0000_0000_0000_0000_0000)
            by (nonlinear_arith)
            requires
                0 <= mc_control <= 0x100 * COST_CAP,
                0 <= ic_control <= 0x100 * COST_CAP,
                0 <= mc_green <= 0x100 * COST_CAP,
                0 <= ic_green <= 0x100 * COST_CAP,
        ;
    }
    let (matching, mc, ic) = if mc_control * ic_green < mc_green * ic_control {
        (matching_control, mc_control, ic_control)
    } else {
        (matching_green, mc_green, ic_green)
    };
    let this_tolerance = if ic != 0 {
        Ratio { num: mc as i64, den: ic as i64 }
    } else {
        Ratio::one()
    };
    (this_tolerance, Some(matching))
}

/// Copies a list of descriptors with each signed-size entry negated.
fn negate_firsts(data: &Vec<Vec<i64>>) -> (r: Vec<Vec<i64>>)
    requires
        forall|i: int|
            0 <= i < data@.len() ==> (#[trigger] data@[i]@).len() == 6 && forall|t: int|
                0 <= t < 6 ==> -crate::stats::CLAMP <= #[trigger] (data@[i]@[t] as int)
                    <= crate::stats::CLAMP,
    ensures
        r@.len() == data@.len(),
        forall|i: int|
            0 <= i < r@.len() ==> (#[trigger] r@[i]@).map_values(|v: i64| v as int)
                == data@[i]@.map_values(|v: i64| v as int).update(0, -(data@[i]@[0] as int))
                && r@[i]@.len() == 6 && forall|t: int|
                0 <= t < 6 ==> -crate::stats::CLAMP <= #[trigger] (r@[i]@[t] as int)
                    <= crate::stats::CLAMP,
{
    let n = data.len();
    let mut r: Vec<Vec<i64>> = Vec::new();
    let mut i: usize = 0;
    while i < n
        invariant
            n == data@.len(),
            forall|t: int|
                0 <= t < data@.len() ==> (#[trigger] data@[t]@).len() == 6 && forall|u: int|
                    0 <= u < 6 ==> -crate::stats::CLAMP <= #[trigger] (data@[t]@[u] as int)
                        <= crate::stats::CLAMP,
            0 <= i <= n,
            r@.len() == i,
            forall|t: int|
                0 <= t < i ==> (#[trigger] r@[t]@).map_values(|v: i64| v as int)
                    == data@[t]@.map_values(|v: i64| v as int).update(0, -(data@[t]@[0] as int))
                    && r@[t]@.len() == 6 && forall|u: int|
                    0 <= u < 6 ==> -crate::stats::CLAMP <= #[trigger] (r@[t]@[u] as int)
                        <= crate::stats::CLAMP,
        decreases n - i,
    {
        r.push(negate_first(&data[i]));
        i = i + 1;
    }
    r
}

} // verus!
