//! Cross-checks of the exact integer Green moments against an outside
//! floating-point statistics crate, on the same paths.

use greencurves::{ComputeControlStatistics, ComputeGreenStatistics, CurveStatistics};
use interpolatable::geometry::{BezPath, Point};
use interpolatable::moments::{green_moments, AREA_SCALE, M1_SCALE, MXX_SCALE, MXY_SCALE};

fn pt(x: i64, y: i64) -> Point {
    Point::new(x, y)
}

fn close(a: f64, b: f64) {
    let scale = 1.0f64.max(a.abs()).max(b.abs());
    assert!((a - b).abs() <= 1e-9 * scale, "{} != {}", a, b);
}

fn to_kurbo(p: &BezPath) -> kurbo::BezPath {
    let mut k = kurbo::BezPath::new();
    for el in p.0.iter() {
        match el {
            interpolatable::geometry::PathEl::MoveTo(p) => {
                k.move_to((p.x as f64, p.y as f64));
            },
            interpolatable::geometry::PathEl::LineTo(p) => {
                k.line_to((p.x as f64, p.y as f64));
            },
            interpolatable::geometry::PathEl::QuadTo(p0, p1) => {
                k.quad_to((p0.x as f64, p0.y as f64), (p1.x as f64, p1.y as f64));
            },
            interpolatable::geometry::PathEl::CurveTo(p0, p1, p2) => {
                k.curve_to(
                    (p0.x as f64, p0.y as f64),
                    (p1.x as f64, p1.y as f64),
                    (p2.x as f64, p2.y as f64),
                );
            },
            interpolatable::geometry::PathEl::ClosePath => {
                k.close_path();
            },
        }
    }
    k
}

fn check_against_reference(p: &BezPath) {
    let k = to_kurbo(p);
    let stats = k.green_statistics();
    let m = green_moments(p);
    close(m.area as f64 / AREA_SCALE as f64, stats.area());
    close(m.mx as f64 / M1_SCALE as f64, stats.moment_x);
    close(m.my as f64 / M1_SCALE as f64, stats.moment_y);
    close(m.mxx as f64 / MXX_SCALE as f64, stats.moment_xx);
    close(m.mxy as f64 / MXY_SCALE as f64, stats.moment_xy);
    close(m.myy as f64 / MXX_SCALE as f64, stats.moment_yy);
}

#[test]
fn line_moments_match_the_reference() {
    // an all-lines glyph outline: a slash
    let mut p = BezPath::new();
    p.move_to(pt(362, 714));
    p.line_to(pt(96, 0));
    p.line_to(pt(10, 0));
    p.line_to(pt(276, 714));
    p.close_path();
    check_against_reference(&p);
}

#[test]
fn quadratic_moments_match_the_reference() {
    let mut p = BezPath::new();
    p.move_to(pt(100, 0));
    p.quad_to(pt(200, 50), pt(150, 200));
    p.quad_to(pt(50, 300), pt(0, 100));
    p.close_path();
    check_against_reference(&p);
}

#[test]
fn cubic_moments_match_the_reference() {
    let mut p = BezPath::new();
    p.move_to(pt(100, 0));
    p.curve_to(pt(200, 20), pt(220, 150), pt(150, 200));
    p.curve_to(pt(80, 250), pt(-40, 180), pt(0, 80));
    p.line_to(pt(40, 10));
    p.close_path();
    check_against_reference(&p);
}

#[test]
fn open_trailing_segment_matches_the_reference() {
    // no closing element: the statistics integrate the drawn segments
    // only, exactly as the reference does
    let mut p = BezPath::new();
    p.move_to(pt(0, 0));
    p.quad_to(pt(100, 100), pt(200, 0));
    p.line_to(pt(0, 0));
    check_against_reference(&p);
}

#[test]
fn control_descriptor_tracks_the_reference_statistics() {
    let mut p = BezPath::new();
    p.move_to(pt(100, 0));
    p.quad_to(pt(200, 50), pt(150, 200));
    p.quad_to(pt(50, 300), pt(0, 100));
    p.close_path();
    let k = to_kurbo(&p);
    let stats = k.control_statistics();
    let g = interpolatable::Glyph::from_paths(vec![p]);
    let d = &g.control_vectors[0];
    // entries are fixed point at scale 256 and square roots are floored
    let com = stats.center_of_mass();
    assert!((d[1] as f64 / 256.0 - com.x).abs() < 0.01);
    assert!((d[2] as f64 / 256.0 - com.y).abs() < 0.01);
    let stddev = stats.stddev();
    assert!((d[3] as f64 / 256.0 - 2.0 * stddev.x).abs() < 0.01);
    assert!((d[4] as f64 / 256.0 - 2.0 * stddev.y).abs() < 0.01);
    let size = stats.area().abs().sqrt();
    assert!((d[0] as f64 / 256.0).abs() - size <= 0.01);
    assert!(if stats.area() < 0.0 { d[0] <= 0 } else { d[0] >= 0 });
}

#[test]
fn green_descriptor_tracks_the_reference_statistics() {
    let mut p = BezPath::new();
    p.move_to(pt(100, 0));
    p.curve_to(pt(200, 20), pt(220, 150), pt(150, 200));
    p.curve_to(pt(80, 250), pt(-40, 180), pt(0, 80));
    p.line_to(pt(40, 10));
    p.close_path();
    let k = to_kurbo(&p);
    let stats = k.green_statistics();
    let g = interpolatable::Glyph::from_paths(vec![p]);
    let d = &g.green_vectors[0];
    let com = stats.center_of_mass();
    assert!((d[1] as f64 / 256.0 - com.x).abs() < 0.01);
    assert!((d[2] as f64 / 256.0 - com.y).abs() < 0.01);
    let stddev = stats.stddev();
    assert!((d[3] as f64 / 256.0 - 2.0 * stddev.x).abs() < 0.01);
    assert!((d[4] as f64 / 256.0 - 2.0 * stddev.y).abs() < 0.01);
    let size = stats.area().abs().sqrt();
    assert!((d[0] as f64 / 256.0 - size.copysign(stats.area())).abs() < 0.01);
    let corr_size = stats.correlation() * size;
    assert!((d[5] as f64 / 256.0 - corr_size).abs() < 1.0);
}
