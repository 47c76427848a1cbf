//! Unit tests of the geometric building blocks.

use interpolatable::geometry::{midpoint_curve, path_points, BezGlyph, BezPath, GlyfPoint, Point, PathEl};
use interpolatable::nums::{isqrt_u128, Ratio};
use interpolatable::problems::{Problem, ProblemDetails};
use interpolatable::Glyph;

fn pt(x: i64, y: i64) -> Point {
    Point::new(x, y)
}

#[test]
fn the_pen_collects_contours() {
    let mut g = BezGlyph::new();
    g.next();
    g.push_el(PathEl::MoveTo(pt(0, 0)));
    g.push_el(PathEl::LineTo(pt(10, 0)));
    g.push_el(PathEl::LineTo(pt(10, 10)));
    g.push_el(PathEl::ClosePath);
    g.next();
    g.push_el(PathEl::MoveTo(pt(20, 20)));
    assert_eq!(g.len(), 2);
    assert_eq!(g.paths()[0].len(), 4);
    assert_eq!(g.paths()[1].len(), 1);
}

#[test]
fn point_extraction_trims_the_duplicate_closing_node() {
    let mut p = BezPath::new();
    p.move_to(pt(0, 0));
    p.line_to(pt(10, 0));
    p.line_to(pt(10, 10));
    p.line_to(pt(0, 0));
    p.close_path();
    let pts = path_points(&p);
    assert_eq!(pts.len(), 3);
    assert_eq!(pts[0], GlyfPoint { point: pt(0, 0), is_control: true });
}

#[test]
fn point_extraction_flags_handles() {
    let mut p = BezPath::new();
    p.move_to(pt(0, 0));
    p.quad_to(pt(5, 5), pt(10, 0));
    p.curve_to(pt(15, -5), pt(20, 5), pt(25, 0));
    p.close_path();
    let pts = path_points(&p);
    let flags: Vec<bool> = pts.iter().map(|q| q.is_control).collect();
    assert_eq!(flags, vec![true, false, true, false, false, true]);
}

#[test]
fn midpoint_curve_averages_compatible_paths() {
    let mut a = BezPath::new();
    a.move_to(pt(0, 0));
    a.line_to(pt(10, 0));
    a.close_path();
    let mut b = BezPath::new();
    b.move_to(pt(4, 2));
    b.line_to(pt(20, 6));
    b.close_path();
    let mid = midpoint_curve(&a, &b).unwrap();
    // the midway shape is kept at twice the scale so it stays integral
    assert_eq!(mid.0[0], PathEl::MoveTo(pt(4, 2)));
    assert_eq!(mid.0[1], PathEl::LineTo(pt(30, 6)));
    assert_eq!(mid.0[2], PathEl::ClosePath);
}

#[test]
fn midpoint_curve_rejects_mismatched_structure() {
    let mut a = BezPath::new();
    a.move_to(pt(0, 0));
    a.line_to(pt(10, 0));
    let mut b = BezPath::new();
    b.move_to(pt(0, 0));
    b.quad_to(pt(5, 5), pt(10, 0));
    assert!(midpoint_curve(&a, &b).is_none());
    let mut c = BezPath::new();
    c.move_to(pt(0, 0));
    assert!(midpoint_curve(&a, &c).is_none());
}

#[test]
fn a_square_has_eight_alignments() {
    let mut p = BezPath::new();
    p.move_to(pt(0, 0));
    p.line_to(pt(100, 0));
    p.line_to(pt(100, 100));
    p.line_to(pt(0, 100));
    p.close_path();
    let g = Glyph::from_paths(vec![p]);
    let iso = &g.isomorphisms[0];
    // four forward rotations, then four reversed
    assert_eq!(iso.len(), 8);
    let first = iso.get(0).unwrap();
    assert_eq!(first.rotation, 0);
    assert!(!first.reverse);
    assert_eq!(first.rotated_list.len(), 16);
    let last = iso.get(7).unwrap();
    assert!(last.reverse);
}

#[test]
fn handles_restrict_the_alignments() {
    // two on-curve nodes and one handle: only the rotations that keep
    // the handle in place are admissible
    let mut p = BezPath::new();
    p.move_to(pt(0, 0));
    p.line_to(pt(100, 0));
    p.quad_to(pt(50, 80), pt(0, 0));
    p.close_path();
    let g = Glyph::from_paths(vec![p]);
    let iso = &g.isomorphisms[0];
    for i in 0..iso.len() {
        let c = iso.get(i).unwrap();
        assert_eq!(c.rotated_list.len(), 12);
    }
    // the flag pattern on-on-off admits one rotation per orientation
    assert_eq!(iso.len(), 2);
}

#[test]
fn integer_square_roots_are_floors() {
    assert_eq!(isqrt_u128(0), 0);
    assert_eq!(isqrt_u128(1), 1);
    assert_eq!(isqrt_u128(3), 1);
    assert_eq!(isqrt_u128(4), 2);
    assert_eq!(isqrt_u128(65536), 256);
    assert_eq!(isqrt_u128(65535), 255);
    assert_eq!(isqrt_u128(u128::MAX), (1u128 << 64) - 1);
}

#[test]
fn ratios_compare_by_cross_multiplication() {
    let a = Ratio::new(19, 20);
    let b = Ratio::new(1, 1);
    assert!(a.lt(&b));
    assert!(!b.lt(&a));
    assert!(a.le(&a));
    assert_eq!(Ratio::zero(), Ratio::new(0, 1));
    assert_eq!(Ratio::one(), Ratio::new(1, 1));
}

#[test]
fn glyph_summaries_line_up_per_contour() {
    let mut p0 = BezPath::new();
    p0.move_to(pt(0, 0));
    p0.line_to(pt(100, 0));
    p0.line_to(pt(50, 100));
    p0.close_path();
    let mut p1 = BezPath::new();
    p1.move_to(pt(200, 0));
    p1.quad_to(pt(300, 0), pt(300, 100));
    p1.quad_to(pt(200, 100), pt(200, 0));
    p1.close_path();
    let g = Glyph::from_paths(vec![p0, p1]);
    assert_eq!(g.curves.len(), 2);
    assert_eq!(g.points.len(), 2);
    assert_eq!(g.green_vectors.len(), 2);
    assert_eq!(g.control_vectors.len(), 2);
    assert_eq!(g.isomorphisms.len(), 2);
    assert_eq!(g.green_vectors[0].len(), 6);
    assert_eq!(g.master_name, "");
    assert_eq!(g.master_index, 0);
    // a counter-clockwise triangle has positive area: positive signed
    // size in both descriptors
    assert!(g.green_vectors[0][0] > 0);
    assert!(g.control_vectors[0][0] > 0);
}

#[test]
fn reversing_a_contour_flips_the_signed_size() {
    let mut ccw = BezPath::new();
    ccw.move_to(pt(0, 0));
    ccw.line_to(pt(100, 0));
    ccw.line_to(pt(50, 100));
    ccw.close_path();
    let mut cw = BezPath::new();
    cw.move_to(pt(0, 0));
    cw.line_to(pt(50, 100));
    cw.line_to(pt(100, 0));
    cw.close_path();
    let a = Glyph::from_paths(vec![ccw]);
    let b = Glyph::from_paths(vec![cw]);
    assert_eq!(a.green_vectors[0][0], -b.green_vectors[0][0]);
    assert_eq!(a.green_moments[0].area, -b.green_moments[0].area);
}

#[test]
fn descriptor_entries_of_a_square_are_exact() {
    let mut p = BezPath::new();
    p.move_to(pt(0, 0));
    p.line_to(pt(100, 0));
    p.line_to(pt(100, 100));
    p.line_to(pt(0, 100));
    p.close_path();
    let g = Glyph::from_paths(vec![p]);
    // area 10000 at scale 120; centre of mass (50, 50); the descriptor
    // holds [√area, com, 2σ, ρ·√area] in fixed point at scale 256 with
    // floor square roots
    assert_eq!(g.green_moments[0].area, 10000 * 120);
    assert_eq!(g.green_vectors[0], vec![25600, 12800, 12800, 14780, 14780, 0]);
    assert_eq!(g.control_vectors[0], vec![25600, 12800, 12800, 29560, 29560, 0]);
}

#[test]
fn every_problem_kind_names_itself() {
    let base = |details: ProblemDetails| Problem {
        master_1_name: String::new(),
        master_2_name: String::new(),
        master_1_index: 0,
        master_2_index: 0,
        details,
        tolerance: None,
        contour: None,
        node: None,
    };
    let one = Ratio::new(1, 1);
    assert_eq!(base(ProblemDetails::PathCount { count_1: 1, count_2: 2 }).problem_type(), "PathCount");
    assert_eq!(base(ProblemDetails::NodeCount { count_1: 1, count_2: 2 }).problem_type(), "NodeCount");
    assert_eq!(
        base(ProblemDetails::NodeIncompatibility { is_control_1: true, is_control_2: false })
            .problem_type(),
        "NodeIncompatibility"
    );
    assert_eq!(
        base(ProblemDetails::ContourOrder { order_1: vec![0], order_2: vec![0] }).problem_type(),
        "ContourOrder"
    );
    assert_eq!(
        base(ProblemDetails::WrongStartPoint { proposed_point: 1, reverse: false }).problem_type(),
        "WrongStartPoint"
    );
    assert_eq!(
        base(ProblemDetails::Overweight { value_1: one, value_2: one }).problem_type(),
        "Overweight"
    );
    assert_eq!(
        base(ProblemDetails::Underweight { value_1: one, value_2: one }).problem_type(),
        "Underweight"
    );
    assert_eq!(base(ProblemDetails::Kink).problem_type(), "Kink");
}
