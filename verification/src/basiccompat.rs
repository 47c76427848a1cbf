//! Structural compatibility: contour counts, node counts per contour,
//! and on-curve flags per node must agree before any geometric test can
//! be interpreted.

use vstd::prelude::*;

use crate::geometry::GlyfPoint;
use crate::problems::{DetailsModel, Problem, ProblemDetails, ProblemModel};
use crate::Glyph;

verus! {

/// One structural mismatch.
pub enum CompatItem {
    PathCount { count_1: int, count_2: int },
    NodeCount { path: int, count_1: int, count_2: int },
    NodeIncompat { path: int, node: int, is_control_1: bool, is_control_2: bool },
}

/// Flag mismatches among the first `k` paired nodes of contour `path`.
pub open spec fn incompat_upto(
    pa: Seq<GlyfPoint>,
    pb: Seq<GlyfPoint>,
    path: int,
    k: int,
) -> Seq<CompatItem>
    decreases k,
{
    if k <= 0 {
        Seq::empty()
    } else {
        incompat_upto(pa, pb, path, k - 1) + if pa[k - 1].is_control != pb[k - 1].is_control {
            seq![
                CompatItem::NodeIncompat {
                    path,
                    node: k - 1,
                    is_control_1: pa[k - 1].is_control,
                    is_control_2: pb[k - 1].is_control,
                },
            ]
        } else {
            Seq::empty()
        }
    }
}

pub open spec fn min_int(a: int, b: int) -> int {
    if a < b {
        a
    } else {
        b
    }
}

/// All mismatches of one paired contour: a node-count mismatch first,
/// then the flag mismatches of the paired nodes.
pub open spec fn contour_items(pa: Seq<GlyfPoint>, pb: Seq<GlyfPoint>, path: int) -> Seq<
    CompatItem,
> {
    (if pa.len() != pb.len() {
        seq![
            CompatItem::NodeCount { path, count_1: pa.len() as int, count_2: pb.len() as int },
        ]
    } else {
        Seq::empty()
    }) + incompat_upto(pa, pb, path, min_int(pa.len() as int, pb.len() as int))
}

/// Mismatches of the first `k` paired contours.
pub open spec fn contours_upto(psa: Seq<Seq<GlyfPoint>>, psb: Seq<Seq<GlyfPoint>>, k: int) -> Seq<
    CompatItem,
>
    decreases k,
{
    if k <= 0 {
        Seq::empty()
    } else {
        contours_upto(psa, psb, k - 1) + contour_items(psa[k - 1], psb[k - 1], k - 1)
    }
}

/// Every structural mismatch between two glyphs, in report order: the
/// contour-count mismatch, then per paired contour its node-count and
/// flag mismatches.
pub open spec fn spec_compat_items(
    ca: int,
    cb: int,
    psa: Seq<Seq<GlyfPoint>>,
    psb: Seq<Seq<GlyfPoint>>,
) -> Seq<CompatItem> {
    (if ca != cb {
        seq![CompatItem::PathCount { count_1: ca, count_2: cb }]
    } else {
        Seq::empty()
    }) + contours_upto(psa, psb, min_int(psa.len() as int, psb.len() as int))
}

/// The problem a mismatch turns into, carrying the two masters.
pub open spec fn item_model(
    it: CompatItem,
    n1: Seq<char>,
    i1: int,
    n2: Seq<char>,
    i2: int,
) -> ProblemModel {
    match it {
        CompatItem::PathCount { count_1, count_2 } => ProblemModel {
            master_1_name: n1,
            master_2_name: n2,
            master_1_index: i1,
            master_2_index: i2,
            details: DetailsModel::PathCount { count_1, count_2 },
            tolerance: None,
            contour: None,
            node: None,
        },
        CompatItem::NodeCount { path, count_1, count_2 } => ProblemModel {
            master_1_name: n1,
            master_2_name: n2,
            master_1_index: i1,
            master_2_index: i2,
            details: DetailsModel::NodeCount { count_1, count_2 },
            tolerance: None,
            contour: Some(path as usize),
            node: None,
        },
        CompatItem::NodeIncompat { path, node, is_control_1, is_control_2 } => ProblemModel {
            master_1_name: n1,
            master_2_name: n2,
            master_1_index: i1,
            master_2_index: i2,
            details: DetailsModel::NodeIncompatibility { is_control_1, is_control_2 },
            tolerance: None,
            contour: Some(path as usize),
            node: Some(node as usize),
        },
    }
}

/// The problem models of a sequence of mismatches.
pub open spec fn models_of(
    items: Seq<CompatItem>,
    n1: Seq<char>,
    i1: int,
    n2: Seq<char>,
    i2: int,
) -> Seq<ProblemModel> {
    items.map_values(|it: CompatItem| item_model(it, n1, i1, n2, i2))
}

/// Shorthand for the problem models of a glyph pair's mismatches.
pub open spec fn spec_compat_models(a: Glyph, b: Glyph) -> Seq<ProblemModel> {
    models_of(
        spec_compat_items(
            a.curves@.len() as int,
            b.curves@.len() as int,
            a.points@.map_values(|p: Vec<GlyfPoint>| p@),
            b.points@.map_values(|p: Vec<GlyfPoint>| p@),
        ),
        a.master_name@,
        a.master_index as int,
        b.master_name@,
        b.master_index as int,
    )
}

proof fn lemma_models_concat(
    a: Seq<CompatItem>,
    b: Seq<CompatItem>,
    n1: Seq<char>,
    i1: int,
    n2: Seq<char>,
    i2: int,
)
    ensures
        models_of(a + b, n1, i1, n2, i2) == models_of(a, n1, i1, n2, i2) + models_of(
            b,
            n1,
            i1,
            n2,
            i2,
        ),
{
    assert(models_of(a + b, n1, i1, n2, i2) =~= models_of(a, n1, i1, n2, i2) + models_of(
        b,
        n1,
        i1,
        n2,
        i2,
    ));
}

/// Reports every structural mismatch between the two glyphs.
pub fn test_compatibility(glyph1: &Glyph, glyph2: &Glyph) -> (r: Vec<Problem>)
    requires
        glyph1.curves@.len() == glyph1.points@.len(),
        glyph2.curves@.len() == glyph2.points@.len(),
    ensures
        crate::problems::views_of(r@) == spec_compat_models(*glyph1, *glyph2),
{
    let ghost n1 = glyph1.master_name@;
    let ghost i1 = glyph1.master_index as int;
    let ghost n2 = glyph2.master_name@;
    let ghost i2 = glyph2.master_index as int;
    let ghost psa = glyph1.points@.map_values(|p: Vec<GlyfPoint>| p@);
    let ghost psb = glyph2.points@.map_values(|p: Vec<GlyfPoint>| p@);
    let mut problems: Vec<Problem> = Vec::new();
    if glyph1.curves.len() != glyph2.curves.len() {
        let prob = Problem {
            master_1_name: glyph1.master_name.clone(),
            master_2_name: glyph2.master_name.clone(),
            master_1_index: glyph1.master_index,
            master_2_index: glyph2.master_index,
            details: ProblemDetails::PathCount {
                count_1: glyph1.curves.len(),
                count_2: glyph2.curves.len(),
            },
            tolerance: None,
            contour: None,
            node: None,
        };
        proof {
            crate::problems::lemma_views_push(problems@, prob);
        }
        problems.push(prob);
    }
    let ghost items_head = if glyph1.curves@.len() != glyph2.curves@.len() {
        seq![
            CompatItem::PathCount {
                count_1: glyph1.curves@.len() as int,
                count_2: glyph2.curves@.len() as int,
            },
        ]
    } else {
        Seq::<CompatItem>::empty()
    };
    proof {
        assert(crate::problems::views_of(problems@) =~= models_of(items_head, n1, i1, n2, i2));
    }
    let n = if glyph1.points.len() < glyph2.points.len() {
        glyph1.points.len()
    } else {
        glyph2.points.len()
    };
    let mut pi: usize = 0;
    while pi < n
        invariant
            n == min_int(psa.len() as int, psb.len() as int),
            psa == glyph1.points@.map_values(|p: Vec<GlyfPoint>| p@),
            psb == glyph2.points@.map_values(|p: Vec<GlyfPoint>| p@),
            psa.len() == glyph1.points@.len(),
            psb.len() == glyph2.points@.len(),
            n1 == glyph1.master_name@,
            i1 == glyph1.master_index as int,
            n2 == glyph2.master_name@,
            i2 == glyph2.master_index as int,
            0 <= pi <= n,
            crate::problems::views_of(problems@) == models_of(
                items_head + contours_upto(psa, psb, pi as int),
                n1,
                i1,
                n2,
                i2,
            ),
        decreases n - pi,
    {
        let ghost items_pre = items_head + contours_upto(psa, psb, pi as int);
        let p1: &Vec<GlyfPoint> = &glyph1.points[pi];
        let p2: &Vec<GlyfPoint> = &glyph2.points[pi];
        proof {
            assert(psa[pi as int] == p1@);
            assert(psb[pi as int] == p2@);
        }
        if p1.len() != p2.len() {
            let prob = Problem {
                master_1_name: glyph1.master_name.clone(),
                master_2_name: glyph2.master_name.clone(),
                master_1_index: glyph1.master_index,
                master_2_index: glyph2.master_index,
                details: ProblemDetails::NodeCount { count_1: p1.len(), count_2: p2.len() },
                tolerance: None,
                contour: Some(pi),
                node: None,
            };
            proof {
                crate::problems::lemma_views_push(problems@, prob);
            }
            problems.push(prob);
        }
        let ghost items_nc = if p1@.len() != p2@.len() {
            seq![
                CompatItem::NodeCount {
                    path: pi as int,
                    count_1: p1@.len() as int,
                    count_2: p2@.len() as int,
                },
            ]
        } else {
            Seq::<CompatItem>::empty()
        };
        proof {
            lemma_models_concat(items_pre, items_nc, n1, i1, n2, i2);
            assert(models_of(items_nc, n1, i1, n2, i2) =~= if p1@.len() != p2@.len() {
                seq![
                    item_model(
                        CompatItem::NodeCount {
                            path: pi as int,
                            count_1: p1@.len() as int,
                            count_2: p2@.len() as int,
                        },
                        n1,
                        i1,
                        n2,
                        i2,
                    ),
                ]
            } else {
                Seq::<ProblemModel>::empty()
            });
            assert(crate::problems::views_of(problems@) =~= models_of(
                items_pre + items_nc,
                n1,
                i1,
                n2,
                i2,
            ));
        }
        let m = if p1.len() < p2.len() {
            p1.len()
        } else {
            p2.len()
        };
        let mut ni: usize = 0;
        while ni < m
            invariant
                m == min_int(p1@.len() as int, p2@.len() as int),
                p1@ == psa[pi as int],
                p2@ == psb[pi as int],
                0 <= pi < min_int(psa.len() as int, psb.len() as int),
                n1 == glyph1.master_name@,
                i1 == glyph1.master_index as int,
                n2 == glyph2.master_name@,
                i2 == glyph2.master_index as int,
                glyph1.master_name@ == n1,
                glyph2.master_name@ == n2,
                0 <= ni <= m,
                crate::problems::views_of(problems@) == models_of(
                    items_pre + items_nc + incompat_upto(p1@, p2@, pi as int, ni as int),
                    n1,
                    i1,
                    n2,
                    i2,
                ),
            decreases m - ni,
        {
            let ghost inner_pre = items_pre + items_nc + incompat_upto(
                p1@,
                p2@,
                pi as int,
                ni as int,
            );
            if p1[ni].is_control != p2[ni].is_control {
                let prob = Problem {
                    master_1_name: glyph1.master_name.clone(),
                    master_2_name: glyph2.master_name.clone(),
                    master_1_index: glyph1.master_index,
                    master_2_index: glyph2.master_index,
                    details: ProblemDetails::NodeIncompatibility {
                        is_control_1: p1[ni].is_control,
                        is_control_2: p2[ni].is_control,
                    },
                    tolerance: None,
                    contour: Some(pi),
                    node: Some(ni),
                };
                proof {
                    crate::problems::lemma_views_push(problems@, prob);
                }
                problems.push(prob);
            }
            proof {
                let items_new = incompat_upto(p1@, p2@, pi as int, ni + 1);
                assert(items_new == incompat_upto(p1@, p2@, pi as int, ni as int) + if p1@[ni as int].is_control
                    != p2@[ni as int].is_control {
                    seq![
                        CompatItem::NodeIncompat {
                            path: pi as int,
                            node: ni as int,
                            is_control_1: p1@[ni as int].is_control,
                            is_control_2: p2@[ni as int].is_control,
                        },
                    ]
                } else {
                    Seq::<CompatItem>::empty()
                });
                assert(crate::problems::views_of(problems@) =~= models_of(
                    items_pre + items_nc + items_new,
                    n1,
                    i1,
                    n2,
                    i2,
                ));
            }
            ni = ni + 1;
        }
        proof {
            assert(contour_items(psa[pi as int], psb[pi as int], pi as int) == items_nc
                + incompat_upto(p1@, p2@, pi as int, min_int(p1@.len() as int, p2@.len() as int)));
            assert(contours_upto(psa, psb, pi + 1) == contours_upto(psa, psb, pi as int)
                + contour_items(psa[pi as int], psb[pi as int], pi as int));
            assert(items_pre + items_nc + incompat_upto(p1@, p2@, pi as int, m as int)
                =~= items_head + contours_upto(psa, psb, pi + 1));
        }
        pi = pi + 1;
    }
    proof {
        assert(items_head + contours_upto(psa, psb, n as int) =~= spec_compat_items(
            glyph1.curves@.len() as int,
            glyph2.curves@.len() as int,
            psa,
            psb,
        ));
        assert(crate::problems::views_of(problems@) =~= spec_compat_models(*glyph1, *glyph2));
    }
    problems
}

} // verus!
