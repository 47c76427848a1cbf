//! Over/underweight detection: the midway contour's area must sit
//! between the larger of the masters' areas (scaled by the tolerance)
//! and the geometric mean of the two.
//!
//! All quantities are exact: with areas carried at scale 120 and the
//! midway shape at twice the coordinate scale (hence sixteen times the
//! area at scale 480), each comparison of the reference
//! (`1e-5 + expected/tolerance < mid` and `expected·tolerance > mid + 1e-5`)
//! is multiplied through by `300000 · tolerance-denominator`, which
//! clears every fraction.

use vstd::prelude::*;

use crate::geometry::BezPath;
use crate::moments::AREA_BOUND;
use crate::nums::{abs_int, abs_u128, isqrt_u128, sqrt_floor, Ratio};
use crate::problems::{DetailsModel, Problem, ProblemDetails, ProblemModel};
use crate::Glyph;

verus! {

/// Both areas wind the same way.
pub open spec fn signs_match(a0: int, a1: int) -> bool {
    (a0 < 0) == (a1 < 0)
}

pub open spec fn max_int(a: int, b: int) -> int {
    if a < b {
        b
    } else {
        a
    }
}

/// The midway contour is heavier than both masters allow:
/// `1e-5 + max(s0², s1²)/tolerance < sm²`, with `s² = |area|/120` and
/// `sm² = |mid area|/480`, cleared of fractions.
pub open spec fn overweight_cond(a0: int, a1: int, am: int, tol: Ratio) -> bool {
    3 * tol.num + 2500 * max_int(abs_int(a0), abs_int(a1)) * tol.den < 625 * abs_int(am) * tol.num
}

/// The midway contour is lighter than the geometric mean of the masters:
/// `√(s0²·s1²)·tolerance > sm² + 1e-5`, with the root taken as the floor
/// square root of the scaled product.
pub open spec fn underweight_cond(a0: int, a1: int, am: int, tol: Ratio) -> bool {
    2500 * sqrt_floor((abs_int(a0) * abs_int(a1)) as nat) * tol.num > 625 * abs_int(am) * tol.den
        + 3 * tol.den
}

/// The reported overweight tolerance: `expected/sm² = 4·max(|a0|,|a1|)/|am|`,
/// or zero when the midway area vanishes.
pub open spec fn overweight_tol(a0: int, a1: int, am: int) -> Ratio {
    if am == 0 {
        Ratio { num: 0, den: 1 }
    } else {
        Ratio { num: (4 * max_int(abs_int(a0), abs_int(a1))) as i64, den: abs_int(am) as i64 }
    }
}

/// The reported underweight tolerance: `sm²/expected = |am|/(4·√(|a0|·|a1|))`,
/// or zero when the expected weight vanishes.
pub open spec fn underweight_tol(a0: int, a1: int, am: int) -> Ratio {
    let e = sqrt_floor((abs_int(a0) * abs_int(a1)) as nat) as int;
    if e == 0 {
        Ratio { num: 0, den: 1 }
    } else {
        Ratio { num: abs_int(am) as i64, den: (4 * e) as i64 }
    }
}

/// The problems the weight test reports for one contour, in order.  The
/// test acts only when the two masters wind the same way; `value_1` and
/// `value_2` carry the masters' squared sizes `|area|/120`.
pub open spec fn spec_weight_models(
    n1: Seq<char>,
    i1: int,
    n2: Seq<char>,
    i2: int,
    a0: int,
    a1: int,
    am: int,
    tol: Ratio,
    ix: int,
) -> Seq<ProblemModel> {
    if !signs_match(a0, a1) {
        Seq::empty()
    } else {
        (if overweight_cond(a0, a1, am, tol) {
            seq![
                ProblemModel {
                    master_1_name: n1,
                    master_2_name: n2,
                    master_1_index: i1,
                    master_2_index: i2,
                    details: DetailsModel::Overweight {
                        value_1: Ratio { num: abs_int(a0) as i64, den: 120 },
                        value_2: Ratio { num: abs_int(a1) as i64, den: 120 },
                    },
                    tolerance: Some(overweight_tol(a0, a1, am)),
                    contour: Some(ix as usize),
                    node: None,
                },
            ]
        } else {
            Seq::empty()
        }) + (if underweight_cond(a0, a1, am, tol) {
            seq![
                ProblemModel {
                    master_1_name: n1,
                    master_2_name: n2,
                    master_1_index: i1,
                    master_2_index: i2,
                    details: DetailsModel::Underweight {
                        value_1: Ratio { num: abs_int(a0) as i64, den: 120 },
                        value_2: Ratio { num: abs_int(a1) as i64, den: 120 },
                    },
                    tolerance: Some(underweight_tol(a0, a1, am)),
                    contour: Some(ix as usize),
                    node: None,
                },
            ]
        } else {
            Seq::empty()
        })
    }
}

/// Runs the weight test on one contour pair, given the two masters'
/// scaled areas and the midway shape (at twice the coordinate scale).
pub fn test_over_underweight(
    glyph_a: &Glyph,
    glyph_b: &Glyph,
    a0: i128,
    a1: i128,
    mid: &BezPath,
    tolerance: Ratio,
    ix: usize,
) -> (r: Vec<Problem>)
    requires
        -AREA_BOUND <= a0 <= AREA_BOUND,
        -AREA_BOUND <= a1 <= AREA_BOUND,
        mid.in_range(2 * crate::COORD_LIMIT as int),
        mid@.len() <= crate::moments::MAX_ELS,
        tolerance.wf(),
        tolerance.num <= 1000000,
        tolerance.den <= 1000000,
    ensures
        crate::problems::views_of(r@) == spec_weight_models(
            glyph_a.master_name@,
            glyph_a.master_index as int,
            glyph_b.master_name@,
            glyph_b.master_index as int,
            a0 as int,
            a1 as int,
            crate::moments::spec_green_moments(mid@).area,
            tolerance,
            ix as int,
        ),
{
    let ghost n1 = glyph_a.master_name@;
    let ghost i1 = glyph_a.master_index as int;
    let ghost n2 = glyph_b.master_name@;
    let ghost i2 = glyph_b.master_index as int;
    let mut problems: Vec<Problem> = Vec::new();
    if (a0 < 0) != (a1 < 0) {
        return problems;
    }
    let am = crate::moments::path_area120(mid);
    let ghost amv = am as int;
    let b0: i128 = if a0 < 0 {
        -a0
    } else {
        a0
    };
    let b1: i128 = if a1 < 0 {
        -a1
    } else {
        a1
    };
    let bm: i128 = if am < 0 {
        -am
    } else {
        am
    };
    let e_over: i128 = if b0 < b1 {
        b1
    } else {
        b0
    };
    let v1 = Ratio { num: b0 as i64, den: 120 };
    let v2 = Ratio { num: b1 as i64, den: 120 };
    let tn: i128 = tolerance.num as i128;
    let td: i128 = tolerance.den as i128;
    proof {
        lemma_weight_products(e_over as int, bm as int, tn as int, td as int);
    }
    if 3 * tn + 2500 * e_over * td < 625 * bm * tn {
        let this_tolerance = if am == 0 {
            Ratio { num: 0, den: 1 }
        } else {
            Ratio { num: (4 * e_over) as i64, den: bm as i64 }
        };
        let prob = Problem {
            master_1_name: glyph_a.master_name.clone(),
            master_2_name: glyph_b.master_name.clone(),
            master_1_index: glyph_a.master_index,
            master_2_index: glyph_b.master_index,
            details: ProblemDetails::Overweight { value_1: v1, value_2: v2 },
            tolerance: Some(this_tolerance),
            contour: Some(ix),
            node: None,
        };
        proof {
            crate::problems::lemma_views_push(problems@, prob);
        }
        problems.push(prob);
    }
    let aa0 = abs_u128(a0);
    let aa1 = abs_u128(a1);
    proof {
        assert(aa0 * aa1 <= 0x1000_0000_0000_0000 * 0x1000_0000_0000_0000) by (nonlinear_arith)
            requires
                0 <= aa0 <= 0x1000_0000_0000_0000,
                0 <= aa1 <= 0x1000_0000_0000_0000,
        ;
    }
    let prod: u128 = aa0 * aa1;
    let e_under_u = isqrt_u128(prod);
    proof {
        lemma_sqrt_prod_bound(prod as nat);
    }
    let e_under: i128 = e_under_u as i128;
    proof {
        lemma_weight_products(e_under as int, bm as int, tn as int, td as int);
    }
    if 2500 * e_under * tn > 625 * bm * td + 3 * td {
        let this_tolerance = if e_under == 0 {
            Ratio { num: 0, den: 1 }
        } else {
            Ratio { num: bm as i64, den: (4 * e_under) as i64 }
        };
        let prob = Problem {
            master_1_name: glyph_a.master_name.clone(),
            master_2_name: glyph_b.master_name.clone(),
            master_1_index: glyph_a.master_index,
            master_2_index: glyph_b.master_index,
            details: ProblemDetails::Underweight { value_1: v1, value_2: v2 },
            tolerance: Some(this_tolerance),
            contour: Some(ix),
            node: None,
        };
        proof {
            crate::problems::lemma_views_push(problems@, prob);
        }
        problems.push(prob);
    }
    proof {
        assert(crate::problems::views_of(problems@) =~= spec_weight_models(
            n1,
            i1,
            n2,
            i2,
            a0 as int,
            a1 as int,
            amv,
            tolerance,
            ix as int,
        ));
    }
    problems
}

/// The comparison products of the weight test stay inside `i128`.
proof fn lemma_weight_products(e: int, bm: int, tn: int, td: int)
    requires
        0 <= e <= 0x1000_0000_0000_0000,
        0 <= bm <= 0x1000_0000_0000_0000,
        0 <= tn <= 1000000,
        0 <= td <= 1000000,
    ensures
        0 <= 2500 * e * td <= 0x1_0000_0000_0000_0000_0000_0000,
        0 <= 2500 * e * tn <= 0x1_0000_0000_0000_0000_0000_0000,
        0 <= 625 * bm * tn <= 0x1_0000_0000_0000_0000_0000_0000,
        0 <= 625 * bm * td <= 0x1_0000_0000_0000_0000_0000_0000,
{
    assert(0 <= 2500 * e * td <= 0x1_0000_0000_0000_0000_0000_0000 && 0 <= 2500 * e * tn
        <= 0x1_0000_0000_0000_0000_0000_0000 && 0 <= 625 * bm * tn
        <= 0x1_0000_0000_0000_0000_0000_0000 && 0 <= 625 * bm * td
        <= 0x1_0000_0000_0000_0000_0000_0000) by (nonlinear_arith)
        requires
            0 <= e <= 0x1000_0000_0000_0000,
            0 <= bm <= 0x1000_0000_0000_0000,
            0 <= tn <= 1000000,
            0 <= td <= 1000000,
    ;
}

/// The floor root of a product of two areas stays inside `i64` range.
proof fn lemma_sqrt_prod_bound(p: nat)
    requires
        p <= 0x1000_0000_0000_0000 * 0x1000_0000_0000_0000,
    ensures
        sqrt_floor(p) <= 0x1000_0000_0000_0000,
{
    crate::nums::lemma_sqrt_floor_bounds(p);
    let s = sqrt_floor(p);
    assert(s > 0x1000_0000_0000_0000 ==> s * s > 0x1000_0000_0000_0000 * 0x1000_0000_0000_0000)
        by (nonlinear_arith);
}


/// Every problem the weight test emits is an over- or underweight
/// report.
pub proof fn lemma_weight_models_kinds(
    n1: Seq<char>,
    i1: int,
    n2: Seq<char>,
    i2: int,
    a0: int,
    a1: int,
    am: int,
    tol: Ratio,
    ix: int,
    i: int,
)
    requires
        0 <= i < spec_weight_models(n1, i1, n2, i2, a0, a1, am, tol, ix).len(),
    ensures
        spec_weight_models(n1, i1, n2, i2, a0, a1, am, tol, ix)[i].details is Overweight
            || spec_weight_models(n1, i1, n2, i2, a0, a1, am, tol, ix)[i].details is Underweight,
{
}

} // verus!
