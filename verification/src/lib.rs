//! Interpolatability checking for glyph outlines.
//!
//! Given two renderings of the same glyph at two design locations (two
//! "masters"), the library classifies whether the pair can be linearly
//! interpolated into a valid intermediate shape, and reports structured
//! problems when it cannot.  All geometry is carried on an integer grid
//! (font units), so every computation here is exact and verified; square
//! roots are taken as integer floor square roots and ratios are kept as
//! exact fractions.

pub mod basiccompat;
pub mod contourorder;
pub mod geometry;
pub mod isomorphism;
pub mod kink;
pub mod laws;
pub mod matching;
pub mod moments;
pub mod nums;
pub mod problems;
pub mod startingpoint;
pub mod stats;
pub mod weight;

use vstd::prelude::*;

use crate::geometry::{BezPath, GlyfPoint};
use crate::isomorphism::Isomorphisms;
use crate::matching::Matching;
use crate::moments::{Moments, AREA_BOUND, MAX_ELS};
use crate::nums::Ratio;
use crate::problems::{views_of, Problem, ProblemDetails};
use crate::stats::CLAMP;

verus! {

/// Greatest coordinate magnitude the library accepts, in font units:
/// four ems at the largest common em size (4096).  Together with the
/// per-contour element cap this keeps every moment product inside
/// `i128` and every reported fraction inside `i64`; the full 16-bit
/// TrueType coordinate range would push the worst-case second moments
/// past what `i128` holds.
pub const COORD_LIMIT: i64 = 16384;

/// The command-line options of the checking tool around the library.
pub struct Args {
    /// Emit the report as JSON.
    pub json: bool,
    /// Write a PDF report to this path.
    pub pdf: Option<String>,
    /// Check only the named glyphs.
    pub glyphs: Vec<String>,
    /// The font file to test.
    pub font: String,
}

/// A glyph at a given location, containing per-contour information.
///
/// The easiest way to construct a glyph for testing is to build a
/// `BezGlyph` with the pen methods and hand its paths to
/// [`Glyph::from_paths`], then set the master name and index.
///
/// Once you have two glyphs, you can test their interpolability by
/// passing them to `run_tests`.
pub struct Glyph {
    pub master_name: String,
    pub master_index: usize,
    /// The contours, one path each, kept verbatim.
    pub curves: Vec<BezPath>,
    /// Per-contour Green moments (exact, scaled integers).
    pub green_moments: Vec<Moments>,
    /// Per-contour descriptor of the curve.
    pub green_vectors: Vec<Vec<i64>>,
    /// Per-contour descriptor of the control polygon.
    pub control_vectors: Vec<Vec<i64>>,
    /// Per-contour node lists, trimmed of a duplicated closing node.
    pub points: Vec<Vec<GlyfPoint>>,
    /// Per-contour admissible alignments.
    pub isomorphisms: Vec<Isomorphisms>,
}

/// A well-formed descriptor: six entries, all clamped.
pub open spec fn descriptor_wf(v: Vec<i64>) -> bool {
    v@.len() == 6 && forall|t: int| 0 <= t < 6 ==> -CLAMP <= #[trigger] (v@[t] as int) <= CLAMP
}

impl Glyph {
    /// All per-contour arrays describe the same contours of bounded
    /// geometry, and each is what the constructor computes from the
    /// paths.
    pub open spec fn wf(self) -> bool {
        let n = self.curves@.len();
        &&& self.green_moments@.len() == n
        &&& self.green_vectors@.len() == n
        &&& self.control_vectors@.len() == n
        &&& self.points@.len() == n
        &&& self.isomorphisms@.len() == n
        &&& n <= 256
        &&& forall|i: int|
            0 <= i < n ==> (#[trigger] self.curves@[i]).in_range(COORD_LIMIT as int)
                && self.curves@[i]@.len() <= MAX_ELS
        &&& forall|i: int|
            0 <= i < n ==> (#[trigger] self.points@[i])@ == geometry::spec_path_points(
                self.curves@[i]@,
            )
        &&& forall|i: int|
            0 <= i < n ==> (#[trigger] self.points@[i])@.len() <= 4096 && forall|t: int|
                0 <= t < self.points@[i]@.len() ==> (#[trigger] self.points@[i]@[t]).point.in_range(
                    COORD_LIMIT as int,
                )
        &&& forall|i: int|
            0 <= i < n ==> (#[trigger] self.green_moments@[i]).view_gm()
                == moments::spec_green_moments(self.curves@[i]@) && self.green_moments@[i].bounded(
                moments::MOM_BOUND as int,
            ) && -AREA_BOUND <= self.green_moments@[i].area <= AREA_BOUND
        &&& forall|i: int|
            0 <= i < n ==> (#[trigger] self.green_vectors@[i])@.map_values(|v: i64| v as int)
                == stats::spec_green_descriptor(moments::spec_green_moments(self.curves@[i]@))
                && descriptor_wf(self.green_vectors@[i])
        &&& forall|i: int|
            0 <= i < n ==> (#[trigger] self.control_vectors@[i])@.map_values(|v: i64| v as int)
                == stats::spec_control_descriptor(geometry::raw_points(self.curves@[i]@))
                && descriptor_wf(self.control_vectors@[i])
        &&& forall|i: int|
            0 <= i < n ==> (#[trigger] self.isomorphisms@[i])@ == isomorphism::spec_isomorphisms(
                geometry::spec_path_points(self.curves@[i]@),
            ) && isomorphism::iso_wf(self.isomorphisms@[i])
    }

    /// Constructs a glyph summary from an ordered sequence of contours:
    /// exact Green moments, both descriptors, the node lists and the
    /// admissible alignments, one of each per contour.  The master name
    /// defaults to empty and the index to zero; both may be set by the
    /// caller afterwards.
    pub fn from_paths(paths: Vec<BezPath>) -> (r: Glyph)
        requires
            paths@.len() <= 256,
            forall|i: int|
                0 <= i < paths@.len() ==> (#[trigger] paths@[i]).in_range(COORD_LIMIT as int)
                    && paths@[i]@.len() <= MAX_ELS,
        ensures
            r.wf(),
            r.curves@ == paths@,
            r.master_name@ == Seq::<char>::empty(),
            r.master_index == 0,
    {
        let n = paths.len();
        let mut green_moments: Vec<Moments> = Vec::new();
        let mut green_vectors: Vec<Vec<i64>> = Vec::new();
        let mut control_vectors: Vec<Vec<i64>> = Vec::new();
        let mut points: Vec<Vec<GlyfPoint>> = Vec::new();
        let mut isomorphisms: Vec<Isomorphisms> = Vec::new();
        let mut i: usize = 0;
        while i < n
            invariant
                n == paths@.len() <= 256,
                forall|t: int|
                    0 <= t < paths@.len() ==> (#[trigger] paths@[t]).in_range(COORD_LIMIT as int)
                        && paths@[t]@.len() <= MAX_ELS,
                0 <= i <= n,
                green_moments@.len() == i,
                green_vectors@.len() == i,
                control_vectors@.len() == i,
                points@.len() == i,
                isomorphisms@.len() == i,
                forall|t: int|
                    0 <= t < i ==> (#[trigger] green_moments@[t]).view_gm()
                        == moments::spec_green_moments(paths@[t]@) && green_moments@[t].bounded(
                        moments::MOM_BOUND as int,
                    ) && -AREA_BOUND <= green_moments@[t].area <= AREA_BOUND,
                forall|t: int|
                    0 <= t < i ==> (#[trigger] green_vectors@[t])@.map_values(|v: i64| v as int)
                        == stats::spec_green_descriptor(moments::spec_green_moments(paths@[t]@))
                        && descriptor_wf(green_vectors@[t]),
                forall|t: int|
                    0 <= t < i ==> (#[trigger] control_vectors@[t])@.map_values(|v: i64| v as int)
                        == stats::spec_control_descriptor(geometry::raw_points(paths@[t]@))
                        && descriptor_wf(control_vectors@[t]),
                forall|t: int|
                    0 <= t < i ==> (#[trigger] points@[t])@ == geometry::spec_path_points(
                        paths@[t]@,
                    ) && points@[t]@.len() <= 4096 && forall|u: int|
                        0 <= u < points@[t]@.len() ==> (#[trigger] points@[t]@[u]).point.in_range(
                            COORD_LIMIT as int,
                        ),
                forall|t: int|
                    0 <= t < i ==> (#[trigger] isomorphisms@[t])@
                        == isomorphism::spec_isomorphisms(geometry::spec_path_points(paths@[t]@))
                        && isomorphism::iso_wf(isomorphisms@[t]),
            decreases n - i,
        {
            let path: &BezPath = &paths[i];
            let m = moments::green_moments(path);
            let gv = stats::green_descriptor(&m);
            let raw = geometry::path_points_raw(path);
            proof {
                geometry::lemma_raw_points_props(path@, COORD_LIMIT as int);
            }
            let cv = stats::control_descriptor(&raw);
            let pts = geometry::path_points(path);
            proof {
                geometry::lemma_trim_points_props(geometry::raw_points(path@), COORD_LIMIT as int);
            }
            let iso = Isomorphisms::new(&pts);
            green_moments.push(m);
            green_vectors.push(gv);
            control_vectors.push(cv);
            points.push(pts);
            isomorphisms.push(iso);
            i = i + 1;
        }
        let r = Glyph {
            master_name: String::new(),
            master_index: 0,
            curves: paths,
            green_moments,
            green_vectors,
            control_vectors,
            points,
            isomorphisms,
        };
        r
    }
}


/// Copies a vector of descriptor vectors.
fn copy_vectors(v: &Vec<Vec<i64>>) -> (r: Vec<Vec<i64>>)
    ensures
        r@.len() == v@.len(),
        forall|i: int| 0 <= i < r@.len() ==> #[trigger] r@[i]@ == v@[i]@,
{
    let n = v.len();
    let mut r: Vec<Vec<i64>> = Vec::new();
    let mut i: usize = 0;
    while i < n
        invariant
            n == v@.len(),
            0 <= i <= n,
            r@.len() == i,
            forall|t: int| 0 <= t < i ==> #[trigger] r@[t]@ == v@[t]@,
        decreases n - i,
    {
        r.push(matching::copy_i64s(&v[i]));
        i = i + 1;
    }
    r
}

/// Copies a vector of contours.
fn copy_paths(v: &Vec<BezPath>) -> (r: Vec<BezPath>)
    ensures
        r@.len() == v@.len(),
        forall|i: int| 0 <= i < r@.len() ==> #[trigger] r@[i]@ == v@[i]@,
{
    let n = v.len();
    let mut r: Vec<BezPath> = Vec::new();
    let mut i: usize = 0;
    while i < n
        invariant
            n == v@.len(),
            0 <= i <= n,
            r@.len() == i,
            forall|t: int| 0 <= t < i ==> #[trigger] r@[t]@ == v@[t]@,
        decreases n - i,
    {
        r.push(BezPath(matching::copy_els(&v[i].0)));
        i = i + 1;
    }
    r
}

/// Copies a vector of node lists.
fn copy_points_vec(v: &Vec<Vec<GlyfPoint>>) -> (r: Vec<Vec<GlyfPoint>>)
    ensures
        r@.len() == v@.len(),
        forall|i: int| 0 <= i < r@.len() ==> #[trigger] r@[i]@ == v@[i]@,
{
    let n = v.len();
    let mut r: Vec<Vec<GlyfPoint>> = Vec::new();
    let mut i: usize = 0;
    while i < n
        invariant
            n == v@.len(),
            0 <= i <= n,
            r@.len() == i,
            forall|t: int| 0 <= t < i ==> #[trigger] r@[t]@ == v@[t]@,
        decreases n - i,
    {
        r.push(matching::copy_glyf_points(&v[i]));
        i = i + 1;
    }
    r
}

/// Copies a vector of alignment sets.
fn copy_isos_vec(v: &Vec<Isomorphisms>) -> (r: Vec<Isomorphisms>)
    requires
        forall|i: int| 0 <= i < v@.len() ==> isomorphism::iso_wf(#[trigger] v@[i]),
    ensures
        r@.len() == v@.len(),
        forall|i: int|
            0 <= i < r@.len() ==> (#[trigger] r@[i])@ == v@[i]@ && isomorphism::iso_wf(r@[i]),
{
    let n = v.len();
    let mut r: Vec<Isomorphisms> = Vec::new();
    let mut i: usize = 0;
    while i < n
        invariant
            n == v@.len(),
            forall|t: int| 0 <= t < v@.len() ==> isomorphism::iso_wf(#[trigger] v@[t]),
            0 <= i <= n,
            r@.len() == i,
            forall|t: int|
                0 <= t < i ==> (#[trigger] r@[t])@ == v@[t]@ && isomorphism::iso_wf(r@[t]),
        decreases n - i,
    {
        r.push(matching::copy_isomorphisms(&v[i]));
        i = i + 1;
    }
    r
}

/// Appends every problem of `more` to `problems`.
fn extend_problems(problems: &mut Vec<Problem>, more: Vec<Problem>)
    ensures
        final(problems)@ == old(problems)@ + more@,
        views_of(final(problems)@) == views_of(old(problems)@) + views_of(more@),
{
    let mut more = more;
    let n = more.len();
    let ghost morev = more@;
    let mut i: usize = 0;
    proof {
        assert(problems@ =~= old(problems)@ + morev.take(0));
        assert(views_of(problems@) + views_of(morev).take(0) =~= views_of(problems@));
    }
    while i < n
        invariant
            n == morev.len(),
            more@ == morev.skip(i as int),
            0 <= i <= n,
            problems@ == old(problems)@ + morev.take(i as int),
            views_of(problems@) == views_of(old(problems)@) + views_of(morev).take(i as int),
        decreases n - i,
    {
        let ghost pre = problems@;
        let mut rest = more.split_off(1);
        match more.pop() {
            Some(p) => {
                proof {
                    assert(p == morev[i as int]);
                    crate::problems::lemma_views_push(pre, p);
                }
                problems.push(p);
            },
            None => {
                proof {
                    assert(false);
                }
            },
        }
        more = rest;
        proof {
            assert(more@ =~= morev.skip(i + 1));
            assert(problems@ =~= old(problems)@ + morev.take(i + 1));
            assert(views_of(problems@) =~= views_of(old(problems)@) + views_of(morev).take(i + 1));
        }
        i = i + 1;
    }
    proof {
        assert(morev.take(n as int) =~= morev);
        assert(views_of(morev).take(n as int) =~= views_of(morev));
    }
}

/// The reordered second-glyph data coincides with the first glyph's
/// own, contour by contour: the situation of a glyph tested against
/// itself.
pub open spec fn mirrors_first(
    a: Glyph,
    m1_curves: Seq<BezPath>,
    m1_points: Seq<Vec<GlyfPoint>>,
    m1_isos: Seq<Isomorphisms>,
    m1_moments: Seq<Moments>,
) -> bool {
    &&& forall|i: int|
        0 <= i < a.curves@.len() ==> (#[trigger] m1_curves[i])@ == a.curves@[i]@
    &&& forall|i: int|
        0 <= i < a.curves@.len() ==> (#[trigger] m1_points[i])@ == a.points@[i]@
    &&& forall|i: int| 0 <= i < a.curves@.len() ==> (#[trigger] m1_isos[i])@ == a.isomorphisms@[i]@
    &&& forall|i: int|
        0 <= i < a.curves@.len() ==> (#[trigger] m1_moments[i]).area == a.green_moments@[i].area
}

/// Contour `jx` of the pair warrants a wrong-start-point report through
/// alignment `j`: both alignment sets are non-empty, `j` is the first
/// cost-minimizing alignment, the near-circle rescue does not fire, and
/// the cost ratio falls below the threshold.
pub open spec fn wsp_case(
    a: Glyph,
    m1_isos: Seq<Isomorphisms>,
    m1_points: Seq<Vec<GlyfPoint>>,
    tol: Ratio,
    jx: int,
    j: int,
) -> bool {
    &&& 0 <= jx < a.curves@.len()
    &&& a.isomorphisms@[jx]@.len() > 0
    &&& m1_isos[jx]@.len() > 0
    &&& startingpoint::first_minimizer(a.isomorphisms@[jx]@[0].rotated, m1_isos[jx]@, j)
    &&& !startingpoint::rescue_fires(
        a.isomorphisms@[jx]@[0].rotated,
        m1_isos[jx]@,
        j,
        m1_points[jx]@.len() as int,
        tol,
    )
    &&& startingpoint::start_tolerance(
        startingpoint::spec_vdiff_pairs(
            a.isomorphisms@[jx]@[0].rotated,
            m1_isos[jx]@[j].rotated,
        ),
        startingpoint::spec_vdiff_pairs(
            a.isomorphisms@[jx]@[0].rotated,
            m1_isos[jx]@[0].rotated,
        ),
    ).spec_lt(tol)
}

/// The report such a contour gets.
pub open spec fn wsp_model(
    a: Glyph,
    m1_isos: Seq<Isomorphisms>,
    tol: Ratio,
    p: crate::problems::ProblemModel,
    jx: int,
    j: int,
) -> bool {
    &&& p.details == (crate::problems::DetailsModel::WrongStartPoint {
        proposed_point: m1_isos[jx]@[j].rotation,
        reverse: m1_isos[jx]@[j].reverse,
    })
    &&& p.contour == Some(jx as usize)
    &&& p.tolerance == Some(
        startingpoint::start_tolerance(
            startingpoint::spec_vdiff_pairs(
                a.isomorphisms@[jx]@[0].rotated,
                m1_isos[jx]@[j].rotated,
            ),
            startingpoint::spec_vdiff_pairs(
                a.isomorphisms@[jx]@[0].rotated,
                m1_isos[jx]@[0].rotated,
            ),
        ),
    )
}

/// The threshold in force: the caller's, or the default of 19/20.
pub open spec fn effective_tolerance(t: Option<Ratio>) -> Ratio {
    match t {
        Some(x) => x,
        None => Ratio { num: 19, den: 20 },
    }
}

/// The ratio the contour-order test reports when every solve beats its
/// identity: the worse of the two primary solves' matching-to-identity
/// cost ratios.
pub open spec fn worse_primary_ratio(a: Glyph, b: Glyph) -> Ratio {
    let n = a.curves@.len() as int;
    let mcc = matching::min_cost(contourorder::control_matrix(a, b), n);
    let icc = matching::assignment_cost(
        contourorder::control_matrix(a, b),
        n,
        matching::identity_perm(n),
    );
    let mcg = matching::min_cost(contourorder::green_matrix(a, b), n);
    let icg = matching::assignment_cost(
        contourorder::green_matrix(a, b),
        n,
        matching::identity_perm(n),
    );
    if mcc * icg < mcg * icc {
        Ratio { num: mcc as i64, den: icc as i64 }
    } else {
        Ratio { num: mcg as i64, den: icg as i64 }
    }
}

/// The main interpolatability testing function.
///
/// Returns the list of problems found between the two glyph summaries,
/// in the fixed order: structural compatibility (returning immediately
/// on any structural mismatch), contour order, then per contour the
/// starting point, weight and kink tests — the latter against the
/// reordered second glyph whenever the contour-order matching chose a
/// permutation.
///
/// Arguments:
///
/// * `glyph_a` - the first glyph to test
/// * `glyph_b` - the second glyph to test
/// * `tolerance` - the threshold under which a problem is reported;
///   defaults to 19/20
/// * `kinkiness` - the kink aggressiveness; defaults to 1/2
/// * `upem` - the design units per em; defaults to 1000
pub fn run_tests(
    glyph_a: &Glyph,
    glyph_b: &Glyph,
    tolerance: Option<Ratio>,
    kinkiness: Option<Ratio>,
    upem: Option<u16>,
) -> (r: Vec<Problem>)
    requires
        glyph_a.wf(),
        glyph_b.wf(),
        match tolerance {
            Some(t) => t.wf() && t.num <= t.den && t.num <= 1000000 && t.den <= 1000000,
            None => true,
        },
        match kinkiness {
            Some(k) => k.wf() && 1 <= k.num <= 1000000 && k.den <= 1000000,
            None => true,
        },
    ensures
        basiccompat::spec_compat_models(*glyph_a, *glyph_b).len() != 0 ==> views_of(r@)
            == basiccompat::spec_compat_models(*glyph_a, *glyph_b),
        glyph_a.curves@.map_values(|p: BezPath| p@) == glyph_b.curves@.map_values(|p: BezPath| p@)
            ==> r@.len() == 0,
        basiccompat::spec_compat_models(*glyph_a, *glyph_b).len() == 0 && glyph_a.curves@.len()
            == glyph_b.curves@.len() && (glyph_a.curves@.len() < 2 || contourorder::any_solve_ties(
            *glyph_a,
            *glyph_b,
            glyph_a.curves@.len() as int,
        ) || !worse_primary_ratio(*glyph_a, *glyph_b).spec_lt(effective_tolerance(tolerance)))
            ==> forall|i: int|
            0 <= i < r@.len() ==> !crate::problems::is_contour_order(
                crate::problems::problem_view(#[trigger] r@[i]).details,
            ),
        basiccompat::spec_compat_models(*glyph_a, *glyph_b).len() == 0 && glyph_a.curves@.len()
            == glyph_b.curves@.len() && glyph_a.curves@.len() >= 2 && !contourorder::any_solve_ties(
            *glyph_a,
            *glyph_b,
            glyph_a.curves@.len() as int,
        ) && worse_primary_ratio(*glyph_a, *glyph_b).spec_lt(effective_tolerance(tolerance)) ==> (
        r@.len() > 0 && crate::problems::is_contour_order(
            crate::problems::problem_view(r@[0]).details,
        ) && crate::problems::problem_view(r@[0]).tolerance == Some(
            worse_primary_ratio(*glyph_a, *glyph_b),
        )),
        forall|jx: int, j: int|
            basiccompat::spec_compat_models(*glyph_a, *glyph_b).len() == 0 && glyph_a.curves@.len()
                == glyph_b.curves@.len() && (glyph_a.curves@.len() < 2
                || contourorder::any_solve_ties(
                *glyph_a,
                *glyph_b,
                glyph_a.curves@.len() as int,
            )) && #[trigger] wsp_case(
                *glyph_a,
                glyph_b.isomorphisms@,
                glyph_b.points@,
                effective_tolerance(tolerance),
                jx,
                j,
            ) ==> exists|i: int|
                0 <= i < r@.len() && wsp_model(
                    *glyph_a,
                    glyph_b.isomorphisms@,
                    effective_tolerance(tolerance),
                    crate::problems::problem_view(#[trigger] r@[i]),
                    jx,
                    j,
                ),
{
    let ghost compat_empty = basiccompat::spec_compat_models(*glyph_a, *glyph_b).len() == 0;
    let ghost eff_tol = effective_tolerance(tolerance);
    let ghost same_curves = glyph_a.curves@.map_values(|p: BezPath| p@) == glyph_b.curves@
        .map_values(|p: BezPath| p@);
    proof {
        if same_curves {
            assert(glyph_a.curves@.map_values(|p: BezPath| p@).len() == glyph_a.curves@.len());
            assert(glyph_b.curves@.map_values(|p: BezPath| p@).len() == glyph_b.curves@.len());
            assert(glyph_a.curves@.len() == glyph_b.curves@.len());
            assert forall|i: int| 0 <= i < glyph_a.curves@.len() implies (
            #[trigger] glyph_a.curves@[i])@ == glyph_b.curves@[i]@ by {
                assert(glyph_a.curves@.map_values(|p: BezPath| p@)[i] == glyph_a.curves@[i]@);
                assert(glyph_b.curves@.map_values(|p: BezPath| p@)[i] == glyph_b.curves@[i]@);
            }
            assert forall|i: int|
                0 <= i < glyph_a.points@.len() implies (#[trigger] glyph_a.points@[i])@
                == glyph_b.points@[i]@ by {
                assert(glyph_a.points@[i]@ == geometry::spec_path_points(glyph_a.curves@[i]@));
                assert(glyph_b.points@[i]@ == geometry::spec_path_points(glyph_b.curves@[i]@));
            }
            assert(glyph_a.points@.map_values(|p: Vec<GlyfPoint>| p@) =~= glyph_b.points@
                .map_values(|p: Vec<GlyfPoint>| p@));
            laws::lemma_compat_self(
                glyph_a.curves@.len() as int,
                glyph_a.points@.map_values(|p: Vec<GlyfPoint>| p@),
            );
            assert(basiccompat::spec_compat_models(*glyph_a, *glyph_b) =~= Seq::<
                crate::problems::ProblemModel,
            >::empty());
        }
    }
    let tolerance = match tolerance {
        Some(t) => t,
        None => Ratio { num: 19, den: 20 },
    };
    proof {
        assert(tolerance == eff_tol);
    }
    let kinkiness = match kinkiness {
        Some(k) => k,
        None => Ratio { num: 1, den: 2 },
    };
    let upem = match upem {
        Some(u) => u,
        None => 1000,
    };
    let mut problems = basiccompat::test_compatibility(glyph_a, glyph_b);
    proof {
        assert(views_of(problems@).len() == problems@.len());
        assert(compat_empty ==> problems@.len() == 0);
    }
    if problems.len() != 0 {
        return problems;
    }
    proof {
        assert(views_of(problems@) =~= Seq::<crate::problems::ProblemModel>::empty());
    }
    if glyph_a.curves.len() != glyph_b.curves.len() {
        return problems;
    }
    let n = glyph_a.curves.len();
    proof {
        if same_curves {
            assert forall|i: int|
                0 <= i < glyph_a.control_vectors@.len() implies (
            #[trigger] glyph_a.control_vectors@[i])@.map_values(|v: i64| v as int)
                == glyph_b.control_vectors@[i]@.map_values(|v: i64| v as int) by {
                assert(glyph_a.curves@.map_values(|p: BezPath| p@)[i] == glyph_a.curves@[i]@);
                assert(glyph_b.curves@.map_values(|p: BezPath| p@)[i] == glyph_b.curves@[i]@);
            }
            laws::lemma_identity_cost_of_equal(
                glyph_a.control_vectors@,
                glyph_b.control_vectors@,
            );
        }
    }
    let (contour_tolerance, matching) = contourorder::test_contour_order(glyph_a, glyph_b);
    match matching {
        Some(matching) => {
            proof {
                assert(!same_curves);
                assert(glyph_a.curves@.len() >= 2);
                assert(!contourorder::any_solve_ties(*glyph_a, *glyph_b, n as int));
                assert(contour_tolerance == worse_primary_ratio(*glyph_a, *glyph_b));
            }
            if contour_tolerance.lt(&tolerance) {
                let mut order_1: Vec<usize> = Vec::new();
                let mut order_2: Vec<usize> = Vec::new();
                let mut t: usize = 0;
                while t < n
                    invariant
                        matching.wf(),
                        matching.0@.len() == n,
                        0 <= t <= n,
                        order_1@.len() == t,
                        order_2@.len() == t,
                    decreases n - t,
                {
                    order_1.push(t);
                    order_2.push(matching.0[t].1);
                    t = t + 1;
                }
                let prob = Problem {
                    master_1_name: glyph_a.master_name.clone(),
                    master_2_name: glyph_b.master_name.clone(),
                    master_1_index: glyph_a.master_index,
                    master_2_index: glyph_b.master_index,
                    details: ProblemDetails::ContourOrder { order_1, order_2 },
                    tolerance: Some(contour_tolerance),
                    contour: None,
                    node: None,
                };
                let ghost pre_push_len = problems@.len();
                problems.push(prob);
                proof {
                    assert(compat_empty ==> (pre_push_len == 0 && problems@[0] == prob));
                }
            }
            let m1_isos = matching.reorder_isomorphisms(&glyph_b.isomorphisms);
            let m1_vectors = matching.reorder_vectors(&glyph_b.green_vectors);
            let m1_curves = matching.reorder_paths(&glyph_b.curves);
            let m1_points = matching.reorder_points(&glyph_b.points);
            let m1_moments = matching.reorder(&glyph_b.green_moments);
            per_contour_tests(
                glyph_a,
                glyph_b,
                &m1_isos,
                &m1_vectors,
                &m1_curves,
                &m1_points,
                &m1_moments,
                tolerance,
                kinkiness,
                upem,
                &mut problems,
            );
        },
        None => {
            let m1_isos = copy_isos_vec(&glyph_b.isomorphisms);
            let m1_vectors = copy_vectors(&glyph_b.green_vectors);
            let m1_curves = copy_paths(&glyph_b.curves);
            let m1_points = copy_points_vec(&glyph_b.points);
            let m1_moments = copy_moments(&glyph_b.green_moments);
            proof {
                if same_curves {
                    assert forall|i: int|
                        0 <= i < glyph_a.curves@.len() implies (#[trigger] m1_curves@[i])@
                        == glyph_a.curves@[i]@ && m1_points@[i]@ == glyph_a.points@[i]@
                        && m1_isos@[i]@ == glyph_a.isomorphisms@[i]@ && m1_moments@[i].area
                        == glyph_a.green_moments@[i].area by {
                        assert(glyph_a.curves@.map_values(|p: BezPath| p@)[i] == glyph_a.curves@[
                        i]@);
                        assert(glyph_b.curves@.map_values(|p: BezPath| p@)[i] == glyph_b.curves@[
                        i]@);
                        assert(glyph_a.green_moments@[i].view_gm() == moments::spec_green_moments(
                            glyph_a.curves@[i]@,
                        ));
                        assert(glyph_b.green_moments@[i].view_gm() == moments::spec_green_moments(
                            glyph_b.curves@[i]@,
                        ));
                    }
                    assert(mirrors_first(*glyph_a, m1_curves@, m1_points@, m1_isos@, m1_moments@));
                }
            }
            per_contour_tests(
                glyph_a,
                glyph_b,
                &m1_isos,
                &m1_vectors,
                &m1_curves,
                &m1_points,
                &m1_moments,
                tolerance,
                kinkiness,
                upem,
                &mut problems,
            );
            proof {
                assert forall|jx: int, j: int|
                    #[trigger] wsp_case(
                        *glyph_a,
                        glyph_b.isomorphisms@,
                        glyph_b.points@,
                        tolerance,
                        jx,
                        j,
                    ) implies exists|i: int|
                        0 <= i < problems@.len() && wsp_model(
                            *glyph_a,
                            glyph_b.isomorphisms@,
                            tolerance,
                            crate::problems::problem_view(#[trigger] problems@[i]),
                            jx,
                            j,
                        ) by {
                    assert(m1_isos@[jx]@ == glyph_b.isomorphisms@[jx]@);
                    assert(m1_points@[jx]@ == glyph_b.points@[jx]@);
                    assert(wsp_case(*glyph_a, m1_isos@, m1_points@, tolerance, jx, j));
                    let i0 = choose|i: int|
                        0 <= i < problems@.len() && wsp_model(
                            *glyph_a,
                            m1_isos@,
                            tolerance,
                            crate::problems::problem_view(#[trigger] problems@[i]),
                            jx,
                            j,
                        );
                    assert(wsp_model(
                        *glyph_a,
                        glyph_b.isomorphisms@,
                        tolerance,
                        crate::problems::problem_view(problems@[i0]),
                        jx,
                        j,
                    ));
                }
            }
        },
    }
    problems
}

/// Copies the per-contour moment records.
fn copy_moments(v: &Vec<Moments>) -> (r: Vec<Moments>)
    ensures
        r@ == v@,
{
    let n = v.len();
    let mut r: Vec<Moments> = Vec::new();
    let mut i: usize = 0;
    while i < n
        invariant
            n == v@.len(),
            0 <= i <= n,
            r@ == v@.take(i as int),
        decreases n - i,
    {
        r.push(v[i]);
        proof {
            assert(r@ =~= v@.take(i + 1));
        }
        i = i + 1;
    }
    proof {
        assert(v@.take(n as int) =~= v@);
    }
    r
}

/// Runs the starting-point, weight and kink tests for every paired
/// contour, appending the problems found.
#[verifier::rlimit(100)]
fn per_contour_tests(
    glyph_a: &Glyph,
    glyph_b: &Glyph,
    m1_isos: &Vec<Isomorphisms>,
    m1_vectors: &Vec<Vec<i64>>,
    m1_curves: &Vec<BezPath>,
    m1_points: &Vec<Vec<GlyfPoint>>,
    m1_moments: &Vec<Moments>,
    tolerance: Ratio,
    kinkiness: Ratio,
    upem: u16,
    problems: &mut Vec<Problem>,
)
    requires
        glyph_a.wf(),
        glyph_b.wf(),
        m1_isos@.len() == glyph_a.curves@.len(),
        m1_vectors@.len() == glyph_a.curves@.len(),
        m1_curves@.len() == glyph_a.curves@.len(),
        m1_points@.len() == glyph_a.curves@.len(),
        m1_moments@.len() == glyph_a.curves@.len(),
        forall|i: int| 0 <= i < m1_isos@.len() ==> isomorphism::iso_wf(#[trigger] m1_isos@[i]),
        forall|i: int|
            0 <= i < m1_vectors@.len() ==> descriptor_wf(#[trigger] m1_vectors@[i]),
        forall|i: int|
            0 <= i < m1_curves@.len() ==> (#[trigger] m1_curves@[i]).in_range(COORD_LIMIT as int)
                && m1_curves@[i]@.len() <= MAX_ELS,
        forall|i: int|
            0 <= i < m1_points@.len() ==> (#[trigger] m1_points@[i])@.len() <= 4096 && forall|
                t: int,
            |
                0 <= t < m1_points@[i]@.len() ==> (#[trigger] m1_points@[i]@[t]).point.in_range(
                    COORD_LIMIT as int,
                ),
        forall|i: int|
            0 <= i < m1_moments@.len() ==> -AREA_BOUND <= (#[trigger] m1_moments@[i]).area
                <= AREA_BOUND,
        tolerance.wf(),
        tolerance.num <= 1000000,
        tolerance.den <= 1000000,
        kinkiness.wf(),
        1 <= kinkiness.num <= 1000000,
        kinkiness.den <= 1000000,
    ensures
        mirrors_first(*glyph_a, m1_curves@, m1_points@, m1_isos@, m1_moments@) && tolerance.num
            <= tolerance.den ==> final(problems)@.len() == old(problems)@.len(),
        final(problems)@.len() >= old(problems)@.len(),
        final(problems)@.take(old(problems)@.len() as int) == old(problems)@,
        forall|i: int|
            old(problems)@.len() <= i < final(problems)@.len() ==> !crate::problems::is_contour_order(
                crate::problems::problem_view(#[trigger] final(problems)@[i]).details,
            ),
        forall|jx: int, j: int|
            #[trigger] wsp_case(*glyph_a, m1_isos@, m1_points@, tolerance, jx, j) ==> exists|i: int|
                old(problems)@.len() <= i < final(problems)@.len() && wsp_model(
                    *glyph_a,
                    m1_isos@,
                    tolerance,
                    crate::problems::problem_view(#[trigger] final(problems)@[i]),
                    jx,
                    j,
                ),
{
    let ghost selfsame = mirrors_first(*glyph_a, m1_curves@, m1_points@, m1_isos@, m1_moments@)
        && tolerance.num <= tolerance.den;
    let n = glyph_a.curves.len();
    let mut ix: usize = 0;
    proof {
        assert(problems@.take(old(problems)@.len() as int) =~= old(problems)@);
    }
    while ix < n
        invariant
            glyph_a.wf(),
            glyph_b.wf(),
            n == glyph_a.curves@.len(),
            m1_isos@.len() == n,
            m1_vectors@.len() == n,
            m1_curves@.len() == n,
            m1_points@.len() == n,
            m1_moments@.len() == n,
            forall|i: int| 0 <= i < m1_isos@.len() ==> isomorphism::iso_wf(#[trigger] m1_isos@[i]),
            forall|i: int|
                0 <= i < m1_vectors@.len() ==> descriptor_wf(#[trigger] m1_vectors@[i]),
            forall|i: int|
                0 <= i < m1_curves@.len() ==> (#[trigger] m1_curves@[i]).in_range(
                    COORD_LIMIT as int,
                ) && m1_curves@[i]@.len() <= MAX_ELS,
            forall|i: int|
                0 <= i < m1_points@.len() ==> (#[trigger] m1_points@[i])@.len() <= 4096 && forall|
                    t: int,
                |
                    0 <= t < m1_points@[i]@.len() ==> (
                    #[trigger] m1_points@[i]@[t]).point.in_range(COORD_LIMIT as int),
            forall|i: int|
                0 <= i < m1_moments@.len() ==> -AREA_BOUND <= (#[trigger] m1_moments@[i]).area
                    <= AREA_BOUND,
            tolerance.wf(),
            tolerance.num <= 1000000,
            tolerance.den <= 1000000,
            kinkiness.wf(),
            1 <= kinkiness.num <= 1000000,
            kinkiness.den <= 1000000,
            selfsame == (mirrors_first(*glyph_a, m1_curves@, m1_points@, m1_isos@, m1_moments@)
                && tolerance.num <= tolerance.den),
            selfsame ==> problems@.len() == old(problems)@.len(),
            problems@.len() >= old(problems)@.len(),
            problems@.take(old(problems)@.len() as int) == old(problems)@,
            forall|i: int|
                old(problems)@.len() <= i < problems@.len() ==> !crate::problems::is_contour_order(
                    crate::problems::problem_view(#[trigger] problems@[i]).details,
                ),
            forall|jx: int, j: int|
                0 <= jx < ix && #[trigger] wsp_case(
                    *glyph_a,
                    m1_isos@,
                    m1_points@,
                    tolerance,
                    jx,
                    j,
                ) ==> exists|i: int|
                    old(problems)@.len() <= i < problems@.len() && wsp_model(
                        *glyph_a,
                        m1_isos@,
                        tolerance,
                        crate::problems::problem_view(#[trigger] problems@[i]),
                        jx,
                        j,
                    ),
            0 <= ix <= n,
        decreases n - ix,
    {
        let ghost iter_pre = problems@;
        proof {
            assert forall|jx: int, j: int|
                0 <= jx < ix && #[trigger] wsp_case(
                    *glyph_a,
                    m1_isos@,
                    m1_points@,
                    tolerance,
                    jx,
                    j,
                ) implies exists|i: int|
                    old(problems)@.len() <= i < iter_pre.len() && wsp_model(
                        *glyph_a,
                        m1_isos@,
                        tolerance,
                        crate::problems::problem_view(#[trigger] iter_pre[i]),
                        jx,
                        j,
                    ) by {}
        }
        let c0_iso = &glyph_a.isomorphisms[ix];
        let c1_iso = &m1_isos[ix];
        proof {
            assert(c0_iso@ == glyph_a.isomorphisms@[ix as int]@);
            assert(c1_iso@ == m1_isos@[ix as int]@);
        }
        if c0_iso.len() != 0 && c1_iso.len() != 0 {
            let sp = startingpoint::test_starting_point(
                c0_iso,
                c1_iso,
                &glyph_a.green_vectors[ix],
                &m1_vectors[ix],
                m1_points[ix].len(),
                tolerance,
            );
            proof {
                if selfsame {
                    assert(m1_isos@[ix as int]@ == glyph_a.isomorphisms@[ix as int]@);
                    assert(c0_iso@ == glyph_a.isomorphisms@[ix as int]@);
                    assert(c1_iso@ == m1_isos@[ix as int]@);
                    if glyph_a.isomorphisms@[ix as int]@.len() > 0 {
                        laws::lemma_vdiff_pairs_self(
                            glyph_a.isomorphisms@[ix as int]@[0].rotated,
                        );
                        assert(startingpoint::spec_vdiff_pairs(
                            c0_iso@[0].rotated,
                            c1_iso@[0].rotated,
                        ) == 0);
                    }
                }
            }
            match sp {
                Some((this_tolerance, proposed_point, reverse)) => {
                    if this_tolerance.lt(&tolerance) {
                        proof {
                            if selfsame {
                                assert(startingpoint::spec_vdiff_pairs(
                                    c0_iso@[0].rotated,
                                    c1_iso@[0].rotated,
                                ) == 0);
                                assert(sp == Some(
                                    (
                                        nums::Ratio { num: 1, den: 1 },
                                        c1_iso@[0].rotation as usize,
                                        c1_iso@[0].reverse,
                                    ),
                                ));
                                assert(this_tolerance == (nums::Ratio { num: 1, den: 1 }));
                                assert(!this_tolerance.spec_lt(tolerance));
                                assert(false);
                            }
                        }
                        let prob = Problem {
                            master_1_name: glyph_a.master_name.clone(),
                            master_2_name: glyph_b.master_name.clone(),
                            master_1_index: glyph_a.master_index,
                            master_2_index: glyph_b.master_index,
                            details: ProblemDetails::WrongStartPoint { proposed_point, reverse },
                            tolerance: Some(this_tolerance),
                            contour: Some(ix),
                            node: None,
                        };
                        let ghost pre_push = problems@;
                        problems.push(prob);
                        proof {
                            assert(problems@.take(old(problems)@.len() as int)
                                =~= old(problems)@);
                            assert(problems@.take(iter_pre.len() as int) =~= iter_pre);
                        }
                    }
                },
                None => {},
            }
            proof {
                assert forall|j: int|
                    #[trigger] wsp_case(*glyph_a, m1_isos@, m1_points@, tolerance, ix as int, j)
                        implies exists|i: int|
                        iter_pre.len() <= i < problems@.len() && wsp_model(
                            *glyph_a,
                            m1_isos@,
                            tolerance,
                            crate::problems::problem_view(#[trigger] problems@[i]),
                            ix as int,
                            j,
                        ) by {
                    let jw = choose|jw: int|
                        {
                            &&& #[trigger] startingpoint::first_minimizer(
                                c0_iso@[0].rotated,
                                c1_iso@,
                                jw,
                            )
                            &&& (!startingpoint::rescue_fires(
                                c0_iso@[0].rotated,
                                c1_iso@,
                                jw,
                                m1_points@[ix as int]@.len() as int,
                                tolerance,
                            ) ==> {
                                &&& sp is Some
                                &&& (sp->Some_0).0 == startingpoint::start_tolerance(
                                    startingpoint::spec_vdiff_pairs(
                                        c0_iso@[0].rotated,
                                        c1_iso@[jw].rotated,
                                    ),
                                    startingpoint::spec_vdiff_pairs(
                                        c0_iso@[0].rotated,
                                        c1_iso@[0].rotated,
                                    ),
                                )
                                &&& ((sp->Some_0).1 as int) == c1_iso@[jw].rotation
                                &&& (sp->Some_0).2 == c1_iso@[jw].reverse
                            })
                        };
                    startingpoint::lemma_first_minimizer_unique(
                        c0_iso@[0].rotated,
                        c1_iso@,
                        j,
                        jw,
                    );
                    assert(crate::problems::problem_view(problems@[iter_pre.len() as int]).contour
                        == Some(ix));
                }
            }
        } else {
            proof {
                assert forall|j: int|
                    #[trigger] wsp_case(*glyph_a, m1_isos@, m1_points@, tolerance, ix as int, j)
                        implies exists|i: int|
                        iter_pre.len() <= i < problems@.len() && wsp_model(
                            *glyph_a,
                            m1_isos@,
                            tolerance,
                            crate::problems::problem_view(#[trigger] problems@[i]),
                            ix as int,
                            j,
                        ) by {
                    assert(glyph_a.isomorphisms@[ix as int]@.len() > 0 && m1_isos@[ix as int]@.len()
                        > 0);
                    assert(c0_iso@.len() == 0 || c1_iso@.len() == 0);
                    assert(false);
                }
            }
        }
        let ghost after_sp = problems@;
        proof {
            assert(after_sp.take(iter_pre.len() as int) =~= iter_pre);
            assert forall|j: int|
                #[trigger] wsp_case(*glyph_a, m1_isos@, m1_points@, tolerance, ix as int, j)
                    implies exists|i: int|
                    iter_pre.len() <= i < after_sp.len() && wsp_model(
                        *glyph_a,
                        m1_isos@,
                        tolerance,
                        crate::problems::problem_view(#[trigger] after_sp[i]),
                        ix as int,
                        j,
                    ) by {}
        }
        let mid = geometry::midpoint_curve(&glyph_a.curves[ix], &m1_curves[ix]);
        match mid {
            Some(midp) => {
                let wproblems = weight::test_over_underweight(
                    glyph_a,
                    glyph_b,
                    glyph_a.green_moments[ix].area,
                    m1_moments[ix].area,
                    &midp,
                    tolerance,
                    ix,
                );
                proof {
                    if selfsame {
                        assert(m1_curves@[ix as int]@ == glyph_a.curves@[ix as int]@);
                        laws::lemma_mid_self_area(glyph_a.curves@[ix as int]@);
                        assert(midp@ == laws::mid_self(glyph_a.curves@[ix as int]@));
                        assert(glyph_a.green_moments@[ix as int].view_gm()
                            == moments::spec_green_moments(glyph_a.curves@[ix as int]@));
                        laws::lemma_weight_self(
                            glyph_a.master_name@,
                            glyph_a.master_index as int,
                            glyph_b.master_name@,
                            glyph_b.master_index as int,
                            glyph_a.green_moments@[ix as int].area as int,
                            tolerance,
                            ix as int,
                        );
                        assert(views_of(wproblems@).len() == 0);
                    }
                }
                let ghost pre_w = problems@;
                let ghost wprobs = wproblems@;
                extend_problems(problems, wproblems);
                proof {
                    assert(problems@.take(old(problems)@.len() as int) =~= old(problems)@);
                    assert(problems@.take(after_sp.len() as int) =~= after_sp);
                    assert forall|i: int|
                        pre_w.len() <= i < problems@.len() implies !crate::problems::is_contour_order(
                        crate::problems::problem_view(#[trigger] problems@[i]).details,
                    ) by {
                        assert(problems@[i] == wprobs[i - pre_w.len()]);
                        assert(views_of(wprobs)[i - pre_w.len()] == crate::problems::problem_view(
                            wprobs[i - pre_w.len()],
                        ));
                        weight::lemma_weight_models_kinds(
                            glyph_a.master_name@,
                            glyph_a.master_index as int,
                            glyph_b.master_name@,
                            glyph_b.master_index as int,
                            glyph_a.green_moments@[ix as int].area as int,
                            m1_moments@[ix as int].area as int,
                            moments::spec_green_moments(midp@).area,
                            tolerance,
                            ix as int,
                            i - pre_w.len(),
                        );
                    }
                }
            },
            None => {},
        }
        let kproblems = kink::test_kink(
            glyph_a,
            glyph_b,
            &glyph_a.points[ix],
            &m1_points[ix],
            ix,
            tolerance,
            kinkiness,
            upem,
        );
        proof {
            if selfsame {
                assert(m1_points@[ix as int]@ == glyph_a.points@[ix as int]@);
                laws::lemma_kink_models_self(
                    glyph_a.master_name@,
                    glyph_a.master_index as int,
                    glyph_b.master_name@,
                    glyph_b.master_index as int,
                    glyph_a.points@[ix as int]@,
                    ix as int,
                    tolerance,
                    kinkiness,
                    upem as int,
                    basiccompat::min_int(
                        glyph_a.points@[ix as int]@.len() as int,
                        m1_points@[ix as int]@.len() as int,
                    ),
                );
                assert(views_of(kproblems@).len() == 0);
            }
        }
        let ghost pre_k = problems@;
        let ghost kprobs = kproblems@;
        extend_problems(problems, kproblems);
        proof {
            assert(problems@.take(old(problems)@.len() as int) =~= old(problems)@);
            assert(problems@.take(after_sp.len() as int) =~= after_sp);
            assert(problems@.take(iter_pre.len() as int) =~= iter_pre);
            assert forall|i: int|
                pre_k.len() <= i < problems@.len() implies !crate::problems::is_contour_order(
                crate::problems::problem_view(#[trigger] problems@[i]).details,
            ) by {
                assert(problems@[i] == kprobs[i - pre_k.len()]);
                assert(views_of(kprobs)[i - pre_k.len()] == crate::problems::problem_view(
                    kprobs[i - pre_k.len()],
                ));
                kink::lemma_kink_models_kinds(
                    glyph_a.master_name@,
                    glyph_a.master_index as int,
                    glyph_b.master_name@,
                    glyph_b.master_index as int,
                    glyph_a.points@[ix as int]@,
                    m1_points@[ix as int]@,
                    ix as int,
                    tolerance,
                    kinkiness,
                    upem as int,
                    basiccompat::min_int(
                        glyph_a.points@[ix as int]@.len() as int,
                        m1_points@[ix as int]@.len() as int,
                    ),
                    i - pre_k.len(),
                );
            }
        }
        proof {
            assert forall|jx: int, j: int|
                0 <= jx < ix + 1 && #[trigger] wsp_case(
                    *glyph_a,
                    m1_isos@,
                    m1_points@,
                    tolerance,
                    jx,
                    j,
                ) implies exists|i: int|
                    old(problems)@.len() <= i < problems@.len() && wsp_model(
                        *glyph_a,
                        m1_isos@,
                        tolerance,
                        crate::problems::problem_view(#[trigger] problems@[i]),
                        jx,
                        j,
                    ) by {
                if jx < ix {
                    let i0 = choose|i: int|
                        old(problems)@.len() <= i < iter_pre.len() && wsp_model(
                            *glyph_a,
                            m1_isos@,
                            tolerance,
                            crate::problems::problem_view(#[trigger] iter_pre[i]),
                            jx,
                            j,
                        );
                    assert(problems@[i0] == iter_pre[i0]);
                } else {
                    let i0 = choose|i: int|
                        iter_pre.len() <= i < after_sp.len() && wsp_model(
                            *glyph_a,
                            m1_isos@,
                            tolerance,
                            crate::problems::problem_view(#[trigger] after_sp[i]),
                            jx,
                            j,
                        );
                    assert(problems@[i0] == after_sp[i0]);
                }
            }
        }
        ix = ix + 1;
    }
}

} // verus!
