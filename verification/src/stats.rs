//! Descriptor vectors.
//!
//! Each contour is summarised by a length-6 vector
//! `[sign(area)·√|area|, com_x, com_y, 2·σx, 2·σy, ρ·√|area|]`, computed
//! once from the contour's Green moments and once from its control
//! polygon.  Entries are held in fixed point at scale `FIX`, square roots
//! are floor square roots, and every entry is clamped into
//! `[-CLAMP, CLAMP]` so that squared distances between descriptors stay
//! inside `i64`-sized cost budgets.

use vstd::prelude::*;

use crate::geometry::GlyfPoint;
use crate::moments::GMoments;
use crate::nums::{
    abs_int, abs_u128, clamp_i128, clamp_int, div_i128, div_trunc, isqrt_u128,
    lemma_sqrt_floor_bounds, mul_i128_63, sqrt_floor,
};

verus! {

/// Fixed-point scale of descriptor entries.
pub const FIX: i128 = 256;

/// Magnitude clamp on descriptor entries.
pub const CLAMP: i128 = 0x100_0000;

/// A descriptor's entries as mathematical integers.
pub open spec fn descriptor_ints(v: Vec<i64>) -> Seq<int> {
    v@.map_values(|x: i64| x as int)
}

/// Magnitude cap on the fixed-point variance and covariance
/// intermediates; only contours whose moments are astronomically out of
/// proportion to their area (extreme self-winding) ever reach it.
pub const VAR_CAP: i128 = 0x3FFF_FFFF_FFFF_FFFF_F000_0000_0000_0000;

/// Sums over a node list that the control-polygon statistics need.
pub struct ControlSums {
    pub n: usize,
    pub sx: i128,
    pub sy: i128,
    pub sxx: i128,
    pub syy: i128,
    pub sxy: i128,
    pub area2: i128,
}

pub open spec fn sum_x(pts: Seq<GlyfPoint>) -> int
    decreases pts.len(),
{
    if pts.len() == 0 {
        0
    } else {
        sum_x(pts.drop_last()) + pts.last().point.x
    }
}

pub open spec fn sum_y(pts: Seq<GlyfPoint>) -> int
    decreases pts.len(),
{
    if pts.len() == 0 {
        0
    } else {
        sum_y(pts.drop_last()) + pts.last().point.y
    }
}

pub open spec fn sum_xx(pts: Seq<GlyfPoint>) -> int
    decreases pts.len(),
{
    if pts.len() == 0 {
        0
    } else {
        sum_xx(pts.drop_last()) + pts.last().point.x * pts.last().point.x
    }
}

pub open spec fn sum_yy(pts: Seq<GlyfPoint>) -> int
    decreases pts.len(),
{
    if pts.len() == 0 {
        0
    } else {
        sum_yy(pts.drop_last()) + pts.last().point.y * pts.last().point.y
    }
}

pub open spec fn sum_xy(pts: Seq<GlyfPoint>) -> int
    decreases pts.len(),
{
    if pts.len() == 0 {
        0
    } else {
        sum_xy(pts.drop_last()) + pts.last().point.x * pts.last().point.y
    }
}

/// Index of the cyclic successor of `i` in a list of length `n`.
pub open spec fn cyc_next(i: int, n: int) -> int {
    if i + 1 == n {
        0
    } else {
        i + 1
    }
}

/// Twice the shoelace area of the first `k` cyclic edges.
pub open spec fn shoelace2_upto(pts: Seq<GlyfPoint>, k: int) -> int
    decreases k,
{
    if k <= 0 {
        0
    } else {
        let a = pts[k - 1].point;
        let b = pts[cyc_next(k - 1, pts.len() as int)].point;
        shoelace2_upto(pts, k - 1) + (a.x * b.y - b.x * a.y)
    }
}

/// Twice the signed area of the polygon through the nodes, in order.
pub open spec fn shoelace2(pts: Seq<GlyfPoint>) -> int {
    shoelace2_upto(pts, pts.len() as int)
}

/// Gathers the point sums and the doubled polygon area of a node list.
pub fn control_sums(pts: &Vec<GlyfPoint>) -> (r: ControlSums)
    requires
        pts@.len() <= 4096,
        forall|i: int|
            0 <= i < pts@.len() ==> (#[trigger] pts@[i]).point.in_range(
                crate::COORD_LIMIT as int,
            ),
    ensures
        r.n == pts@.len(),
        r.sx == sum_x(pts@),
        r.sy == sum_y(pts@),
        r.sxx == sum_xx(pts@),
        r.syy == sum_yy(pts@),
        r.sxy == sum_xy(pts@),
        r.area2 == shoelace2(pts@),
        -0x400_0000 <= r.sx <= 0x400_0000,
        -0x400_0000 <= r.sy <= 0x400_0000,
        -0x100_0000_0000 <= r.sxx <= 0x100_0000_0000,
        -0x100_0000_0000 <= r.syy <= 0x100_0000_0000,
        -0x100_0000_0000 <= r.sxy <= 0x100_0000_0000,
        -0x200_0000_0000 <= r.area2 <= 0x200_0000_0000,
{
    let n = pts.len();
    let mut sx: i128 = 0;
    let mut sy: i128 = 0;
    let mut sxx: i128 = 0;
    let mut syy: i128 = 0;
    let mut sxy: i128 = 0;
    let mut i: usize = 0;
    proof {
        assert(pts@.take(0) =~= Seq::<GlyfPoint>::empty());
    }
    while i < n
        invariant
            n == pts@.len() <= 4096,
            forall|t: int|
                0 <= t < pts@.len() ==> (#[trigger] pts@[t]).point.in_range(
                    crate::COORD_LIMIT as int,
                ),
            0 <= i <= n,
            sx == sum_x(pts@.take(i as int)),
            sy == sum_y(pts@.take(i as int)),
            sxx == sum_xx(pts@.take(i as int)),
            syy == sum_yy(pts@.take(i as int)),
            sxy == sum_xy(pts@.take(i as int)),
            -(i as int) * 0x4000 <= sx <= (i as int) * 0x4000,
            -(i as int) * 0x4000 <= sy <= (i as int) * 0x4000,
            -(i as int) * 0x1000_0000 <= sxx <= (i as int) * 0x1000_0000,
            -(i as int) * 0x1000_0000 <= syy <= (i as int) * 0x1000_0000,
            -(i as int) * 0x1000_0000 <= sxy <= (i as int) * 0x1000_0000,
        decreases n - i,
    {
        let p = pts[i].point;
        let px = p.x as i128;
        let py = p.y as i128;
        proof {
            assert(pts@[i as int].point.in_range(crate::COORD_LIMIT as int));
            assert(-0x1000_0000 <= px * px <= 0x1000_0000) by (nonlinear_arith)
                requires
                    -0x4000 <= px <= 0x4000,
            ;
            assert(-0x1000_0000 <= py * py <= 0x1000_0000) by (nonlinear_arith)
                requires
                    -0x4000 <= py <= 0x4000,
            ;
            assert(-0x1000_0000 <= px * py <= 0x1000_0000) by (nonlinear_arith)
                requires
                    -0x4000 <= px <= 0x4000,
                    -0x4000 <= py <= 0x4000,
            ;
            assert(pts@.take(i + 1).drop_last() =~= pts@.take(i as int));
            assert(pts@.take(i + 1).last() == pts@[i as int]);
        }
        sx = sx + px;
        sy = sy + py;
        sxx = sxx + px * px;
        syy = syy + py * py;
        sxy = sxy + px * py;
        i = i + 1;
    }
    proof {
        assert(pts@.take(n as int) =~= pts@);
    }
    let mut area2: i128 = 0;
    let mut k: usize = 0;
    while k < n
        invariant
            n == pts@.len() <= 4096,
            forall|t: int|
                0 <= t < pts@.len() ==> (#[trigger] pts@[t]).point.in_range(
                    crate::COORD_LIMIT as int,
                ),
            0 <= k <= n,
            area2 == shoelace2_upto(pts@, k as int),
            -(k as int) * 0x2000_0000 <= area2 <= (k as int) * 0x2000_0000,
        decreases n - k,
    {
        let a = pts[k].point;
        let nk = if k + 1 == n {
            0
        } else {
            k + 1
        };
        let b = pts[nk].point;
        let ax = a.x as i128;
        let ay = a.y as i128;
        let bx = b.x as i128;
        let by = b.y as i128;
        proof {
            assert(pts@[k as int].point.in_range(crate::COORD_LIMIT as int));
            assert(pts@[nk as int].point.in_range(crate::COORD_LIMIT as int));
            assert(-0x1000_0000 <= ax * by <= 0x1000_0000) by (nonlinear_arith)
                requires
                    -0x4000 <= ax <= 0x4000,
                    -0x4000 <= by <= 0x4000,
            ;
            assert(-0x1000_0000 <= bx * ay <= 0x1000_0000) by (nonlinear_arith)
                requires
                    -0x4000 <= bx <= 0x4000,
                    -0x4000 <= ay <= 0x4000,
            ;
            assert(nk as int == cyc_next(k as int, pts@.len() as int));
        }
        area2 = area2 + (ax * by - bx * ay);
        k = k + 1;
    }
    ControlSums { n, sx, sy, sxx, syy, sxy, area2 }
}

/// Assembles the six descriptor entries from an exact area fraction, the
/// fixed-point means, variances and covariance.
///
/// `size = √|area|` in fixed point; the correlation entry is
/// `ρ·size = cov·size / (σx·σy)`, clamped to `|ρ| ≤ 1` and zeroed below
/// `|ρ| ≤ 1/1000`.  A zero
/// standard deviation on either axis zeroes the correlation entry.
pub open spec fn spec_descriptor6(
    area_num: int,
    area_den: int,
    mx_f: int,
    my_f: int,
    vx_f2: int,
    vy_f2: int,
    cov_f2: int,
) -> Seq<int> {
    let size = sqrt_floor((abs_int(area_num) * (FIX as int * FIX as int) / area_den) as nat) as int;
    let sizec = if size > CLAMP as int {
        CLAMP as int
    } else {
        size
    };
    let d0 = if area_num < 0 {
        -sizec
    } else {
        sizec
    };
    let sx = sqrt_floor(abs_int(vx_f2) as nat) as int;
    let sy = sqrt_floor(abs_int(vy_f2) as nat) as int;
    let sxc = if sx > CLAMP as int {
        CLAMP as int
    } else {
        sx
    };
    let syc = if sy > CLAMP as int {
        CLAMP as int
    } else {
        sy
    };
    let d3 = clamp_int(2 * sxc, CLAMP as int);
    let d4 = clamp_int(2 * syc, CLAMP as int);
    let d5 = if sx == 0 || sy == 0 {
        0
    } else {
        let c2c = clamp_int(cov_f2, 0x1000_0000_0000_0000);
        if 1000 * abs_int(c2c) <= sx * sy {
            0
        } else {
            clamp_int(clamp_int(div_trunc(c2c * sizec, sx * sy), sizec), CLAMP as int)
        }
    };
    seq![d0, mx_f, my_f, d3, d4, d5]
}

/// Executable descriptor assembly; see `spec_descriptor6`.
pub fn descriptor6(
    area_num: i128,
    area_den: i128,
    mx_f: i128,
    my_f: i128,
    vx_f2: i128,
    vy_f2: i128,
    cov_f2: i128,
) -> (r: Vec<i64>)
    requires
        1 <= area_den <= 0x1_0000_0000_0000_0000_0000,
        -0x4000_0000_0000_0000_0000_0000_0000 <= area_num <= 0x4000_0000_0000_0000_0000_0000_0000,
        -CLAMP <= mx_f <= CLAMP,
        -CLAMP <= my_f <= CLAMP,
        -0x4000_0000_0000_0000_0000_0000_0000_0000 <= vx_f2
            <= 0x4000_0000_0000_0000_0000_0000_0000_0000,
        -0x4000_0000_0000_0000_0000_0000_0000_0000 <= vy_f2
            <= 0x4000_0000_0000_0000_0000_0000_0000_0000,
        cov_f2 != i128::MIN,
    ensures
        r@.map_values(|v: i64| v as int) == spec_descriptor6(
            area_num as int,
            area_den as int,
            mx_f as int,
            my_f as int,
            vx_f2 as int,
            vy_f2 as int,
            cov_f2 as int,
        ),
        r@.len() == 6,
        forall|i: int| 0 <= i < 6 ==> -CLAMP <= #[trigger] (r@[i] as int) <= CLAMP,
{
    let abs_area = abs_u128(area_num);
    let scaled: u128 = abs_area * 65536u128 / (area_den as u128);
    let size128 = isqrt_u128(scaled);
    proof {
        assert(size128 * size128 <= scaled);
        assert(size128 <= 0x1_0000_0000_0000_0000u128) by (nonlinear_arith)
            requires
                size128 * size128 <= scaled,
                scaled <= u128::MAX,
        ;
    }
    let size: i128 = size128 as i128;
    let sizec: i128 = if size > CLAMP {
        CLAMP
    } else {
        size
    };
    let d0: i128 = if area_num < 0 {
        -sizec
    } else {
        sizec
    };
    let sx = sqrt_abs(vx_f2);
    let sy = sqrt_abs(vy_f2);
    let sxc: i128 = if sx > CLAMP {
        CLAMP
    } else {
        sx
    };
    let syc: i128 = if sy > CLAMP {
        CLAMP
    } else {
        sy
    };
    let d3 = clamp_i128(2 * sxc, CLAMP);
    let d4 = clamp_i128(2 * syc, CLAMP);
    let d5: i128 = if sx == 0 || sy == 0 {
        0
    } else {
        let c2c = clamp_i128(cov_f2, 0x1000_0000_0000_0000);
        let den = mul_i128_63(sx, sy);
        let c2abs: i128 = if c2c < 0 {
            -c2c
        } else {
            c2c
        };
        proof {
            assert(den > 0) by (nonlinear_arith)
                requires
                    den == sx as int * sy as int,
                    sx >= 1,
                    sy >= 1,
            ;
        }
        if 1000 * c2abs <= den {
            0
        } else {
            let num = mul_i128_63(c2c, sizec);
            proof {
                assert(-0x4_0000_0000_0000_0000_0000_0000 <= num as int
                    <= 0x4_0000_0000_0000_0000_0000_0000) by (nonlinear_arith)
                    requires
                        num as int == c2c as int * sizec as int,
                        -0x1000_0000_0000_0000 <= c2c as int <= 0x1000_0000_0000_0000,
                        0 <= sizec as int <= CLAMP as int,
                ;
            }
            let q = div_i128(num, den);
            clamp_i128(clamp_i128(q, sizec), CLAMP)
        }
    };
    let mut r: Vec<i64> = Vec::new();
    r.push(d0 as i64);
    r.push(mx_f as i64);
    r.push(my_f as i64);
    r.push(d3 as i64);
    r.push(d4 as i64);
    r.push(d5 as i64);
    proof {
        assert(r@.map_values(|v: i64| v as int) =~= spec_descriptor6(
            area_num as int,
            area_den as int,
            mx_f as int,
            my_f as int,
            vx_f2 as int,
            vy_f2 as int,
            cov_f2 as int,
        ));
    }
    r
}

/// Floor square root of the magnitude of `v`.
fn sqrt_abs(v: i128) -> (r: i128)
    requires
        -0x4000_0000_0000_0000_0000_0000_0000_0000 <= v
            <= 0x4000_0000_0000_0000_0000_0000_0000_0000,
    ensures
        r as int == sqrt_floor(abs_int(v as int) as nat) as int,
        0 <= r <= 0x8000_0000_0000_0000,
{
    let a = abs_u128(v);
    let s = isqrt_u128(a);
    proof {
        assert(s * s <= a);
        assert(s <= 0x8000_0000_0000_0000u128) by (nonlinear_arith)
            requires
                s * s <= a,
                a <= 0x4000_0000_0000_0000_0000_0000_0000_0000u128,
        ;
    }
    s as i128
}

/// The descriptor of a contour's Green moments.
///
/// Means are `∬x dA / area` in fixed point; variances are
/// `∬x² dA / area − mean²` (as their magnitude, so a self-crossing
/// contour still gets a usable spread); the covariance is
/// `∬xy dA / area − mean_x·mean_y`.  The stored moments carry the scales
/// cleared in `moments`, which reduce against the area scale to the
/// constant factors 42, 693 and 462 below.  A contour with zero signed
/// area gets the zero descriptor.
pub open spec fn spec_green_descriptor(g: GMoments) -> Seq<int> {
    if g.area == 0 {
        spec_descriptor6(0, 1, 0, 0, 0, 0, 0)
    } else {
        let mxf = clamp_int(div_trunc(g.mx * FIX as int, 42 * g.area), CLAMP as int);
        let myf = clamp_int(div_trunc(g.my * FIX as int, 42 * g.area), CLAMP as int);
        let vxf2 = clamp_int(div_trunc(g.mxx * (FIX as int * FIX as int), 693 * g.area), VAR_CAP as int)
            - mxf * mxf;
        let vyf2 = clamp_int(div_trunc(g.myy * (FIX as int * FIX as int), 693 * g.area), VAR_CAP as int)
            - myf * myf;
        let covf2 = clamp_int(div_trunc(g.mxy * (FIX as int * FIX as int), 462 * g.area), VAR_CAP as int)
            - mxf * myf;
        spec_descriptor6(g.area, 120, mxf, myf, vxf2, vyf2, covf2)
    }
}

/// Computes the descriptor of a contour from its Green moments.
pub fn green_descriptor(m: &crate::moments::Moments) -> (r: Vec<i64>)
    requires
        m.bounded(crate::moments::MOM_BOUND as int),
    ensures
        r@.map_values(|v: i64| v as int) == spec_green_descriptor(m.view_gm()),
        r@.len() == 6,
        forall|i: int| 0 <= i < 6 ==> -CLAMP <= #[trigger] (r@[i] as int) <= CLAMP,
{
    if m.area == 0 {
        descriptor6(0, 1, 0, 0, 0, 0, 0)
    } else {
        proof {
            assert(42 * m.area != 0 && 693 * m.area != 0 && 462 * m.area != 0);
        }
        let mxf = clamp_i128(div_i128(m.mx * 256, 42 * m.area), CLAMP);
        let myf = clamp_i128(div_i128(m.my * 256, 42 * m.area), CLAMP);
        proof {
            assert(-0x1000_0000_0000_0000 <= mxf * mxf <= 0x1000_0000_0000_0000)
                by (nonlinear_arith)
                requires
                    -CLAMP <= mxf <= CLAMP,
            ;
            assert(-0x1000_0000_0000_0000 <= myf * myf <= 0x1000_0000_0000_0000)
                by (nonlinear_arith)
                requires
                    -CLAMP <= myf <= CLAMP,
            ;
            assert(-0x1000_0000_0000_0000 <= mxf * myf <= 0x1000_0000_0000_0000)
                by (nonlinear_arith)
                requires
                    -CLAMP <= mxf <= CLAMP,
                    -CLAMP <= myf <= CLAMP,
            ;
        }
        let vxf2 = clamp_i128(div_i128(m.mxx * 65536, 693 * m.area), VAR_CAP) - mxf * mxf;
        let vyf2 = clamp_i128(div_i128(m.myy * 65536, 693 * m.area), VAR_CAP) - myf * myf;
        let covf2 = clamp_i128(div_i128(m.mxy * 65536, 462 * m.area), VAR_CAP) - mxf * myf;
        descriptor6(m.area, 120, mxf, myf, vxf2, vyf2, covf2)
    }
}

/// The descriptor of a contour's control polygon.
///
/// The polygon's nodes are taken as a sample: the mean is the average
/// node, the variances and covariance are the sample (n−1) statistics,
/// and the size term comes from the polygon's shoelace area.  An empty
/// contour gives the zero descriptor; a single node keeps itself as the
/// centre of mass with zero spread.
pub open spec fn spec_control_descriptor(pts: Seq<GlyfPoint>) -> Seq<int> {
    let n = pts.len() as int;
    if n == 0 {
        spec_descriptor6(0, 1, 0, 0, 0, 0, 0)
    } else {
        let mxf = clamp_int(div_trunc(sum_x(pts) * FIX as int, n), CLAMP as int);
        let myf = clamp_int(div_trunc(sum_y(pts) * FIX as int, n), CLAMP as int);
        let vxf2 = if n == 1 {
            0
        } else {
            div_trunc(
                (n * sum_xx(pts) - sum_x(pts) * sum_x(pts)) * (FIX as int * FIX as int),
                n * (n - 1),
            )
        };
        let vyf2 = if n == 1 {
            0
        } else {
            div_trunc(
                (n * sum_yy(pts) - sum_y(pts) * sum_y(pts)) * (FIX as int * FIX as int),
                n * (n - 1),
            )
        };
        let covf2 = if n == 1 {
            0
        } else {
            div_trunc(
                (n * sum_xy(pts) - sum_x(pts) * sum_y(pts)) * (FIX as int * FIX as int),
                n * (n - 1),
            )
        };
        spec_descriptor6(shoelace2(pts), 2, mxf, myf, vxf2, vyf2, covf2)
    }
}

/// Computes the descriptor of a contour's control polygon from its
/// node list.
pub fn control_descriptor(pts: &Vec<GlyfPoint>) -> (r: Vec<i64>)
    requires
        pts@.len() <= 4096,
        forall|i: int|
            0 <= i < pts@.len() ==> (#[trigger] pts@[i]).point.in_range(
                crate::COORD_LIMIT as int,
            ),
    ensures
        r@.map_values(|v: i64| v as int) == spec_control_descriptor(pts@),
        r@.len() == 6,
        forall|i: int| 0 <= i < 6 ==> -CLAMP <= #[trigger] (r@[i] as int) <= CLAMP,
{
    let s = control_sums(pts);
    if s.n == 0 {
        descriptor6(0, 1, 0, 0, 0, 0, 0)
    } else if s.n == 1 {
        let n = s.n as i128;
        let mxf = clamp_i128(div_i128(s.sx * 256, n), CLAMP);
        let myf = clamp_i128(div_i128(s.sy * 256, n), CLAMP);
        descriptor6(s.area2, 2, mxf, myf, 0, 0, 0)
    } else {
        let n = s.n as i128;
        proof {
            assert(2 <= n <= 4096);
            assert(-0x400_0000_0000_0000 <= n * s.sxx <= 0x400_0000_0000_0000)
                by (nonlinear_arith)
                requires
                    2 <= n <= 4096,
                    -0x100_0000_0000 <= s.sxx <= 0x100_0000_0000,
            ;
            assert(-0x400_0000_0000_0000 <= n * s.syy <= 0x400_0000_0000_0000)
                by (nonlinear_arith)
                requires
                    2 <= n <= 4096,
                    -0x100_0000_0000 <= s.syy <= 0x100_0000_0000,
            ;
            assert(-0x400_0000_0000_0000 <= n * s.sxy <= 0x400_0000_0000_0000)
                by (nonlinear_arith)
                requires
                    2 <= n <= 4096,
                    -0x100_0000_0000 <= s.sxy <= 0x100_0000_0000,
            ;
            assert(-0x10_0000_0000_0000 <= s.sx * s.sx <= 0x10_0000_0000_0000)
                by (nonlinear_arith)
                requires
                    -0x400_0000 <= s.sx <= 0x400_0000,
            ;
            assert(-0x10_0000_0000_0000 <= s.sy * s.sy <= 0x10_0000_0000_0000)
                by (nonlinear_arith)
                requires
                    -0x400_0000 <= s.sy <= 0x400_0000,
            ;
            assert(-0x10_0000_0000_0000 <= s.sx * s.sy <= 0x10_0000_0000_0000)
                by (nonlinear_arith)
                requires
                    -0x400_0000 <= s.sx <= 0x400_0000,
                    -0x400_0000 <= s.sy <= 0x400_0000,
            ;

        }
        let mxf = clamp_i128(div_i128(s.sx * 256, n), CLAMP);
        let myf = clamp_i128(div_i128(s.sy * 256, n), CLAMP);
        proof {
            assert(2 <= n * (n - 1) <= 0x100_0000) by (nonlinear_arith)
                requires
                    2 <= n <= 4096,
            ;
        }
        let den = n * (n - 1);
        let vxf2 = div_i128((n * s.sxx - s.sx * s.sx) * 65536, den);
        let vyf2 = div_i128((n * s.syy - s.sy * s.sy) * 65536, den);
        let covf2 = div_i128((n * s.sxy - s.sx * s.sy) * 65536, den);
        descriptor6(s.area2, 2, mxf, myf, vxf2, vyf2, covf2)
    }
}

/// Squared Euclidean distance between two descriptor vectors.
pub open spec fn spec_vdiff6(a: Seq<int>, b: Seq<int>) -> int
    decreases a.len(),
{
    if a.len() == 0 || a.len() != b.len() {
        0
    } else {
        spec_vdiff6(a.drop_last(), b.drop_last()) + (a.last() - b.last()) * (a.last() - b.last())
    }
}

/// Largest squared distance between two clamped descriptors; also the
/// cap fed to the assignment solver.
pub const COST_CAP: i128 = 0x18_0000_0000_0000;

/// Computes the squared Euclidean distance between two descriptors.
pub fn vdiff_hypot2(a: &Vec<i64>, b: &Vec<i64>) -> (r: i128)
    requires
        a@.len() == b@.len() <= 6,
        forall|i: int| 0 <= i < a@.len() ==> -CLAMP <= #[trigger] (a@[i] as int) <= CLAMP,
        forall|i: int| 0 <= i < b@.len() ==> -CLAMP <= #[trigger] (b@[i] as int) <= CLAMP,
    ensures
        r as int == spec_vdiff6(
            a@.map_values(|v: i64| v as int),
            b@.map_values(|v: i64| v as int),
        ),
        0 <= r <= COST_CAP,
{
    let ghost av = a@.map_values(|v: i64| v as int);
    let ghost bv = b@.map_values(|v: i64| v as int);
    let n = a.len();
    let mut acc: i128 = 0;
    let mut i: usize = 0;
    proof {
        assert(av.take(0) =~= Seq::<int>::empty());
        assert(bv.take(0) =~= Seq::<int>::empty());
    }
    while i < n
        invariant
            n == av.len() == bv.len() <= 6,
            av == a@.map_values(|v: i64| v as int),
            bv == b@.map_values(|v: i64| v as int),
            forall|t: int| 0 <= t < av.len() ==> -CLAMP <= #[trigger] av[t] <= CLAMP,
            forall|t: int| 0 <= t < bv.len() ==> -CLAMP <= #[trigger] bv[t] <= CLAMP,
            0 <= i <= n,
            acc as int == spec_vdiff6(av.take(i as int), bv.take(i as int)),
            0 <= acc <= (i as int) * 0x4_0000_0000_0000,
        decreases n - i,
    {
        let d = a[i] as i128 - b[i] as i128;
        proof {
            assert(av[i as int] == a@[i as int] as int);
            assert(bv[i as int] == b@[i as int] as int);
            assert(0 <= d * d <= 0x4_0000_0000_0000) by (nonlinear_arith)
                requires
                    -0x200_0000 <= d <= 0x200_0000,
            ;
            assert(av.take(i + 1).drop_last() =~= av.take(i as int));
            assert(bv.take(i + 1).drop_last() =~= bv.take(i as int));
        }
        acc = acc + d * d;
        i = i + 1;
    }
    proof {
        assert(av.take(n as int) =~= av);
        assert(bv.take(n as int) =~= bv);
    }
    acc
}

/// Negates the signed-size entry of a descriptor, describing the same
/// contour traversed the opposite way.
pub fn negate_first(v: &Vec<i64>) -> (r: Vec<i64>)
    requires
        v@.len() == 6,
        forall|i: int| 0 <= i < v@.len() ==> -CLAMP <= #[trigger] (v@[i] as int) <= CLAMP,
    ensures
        r@.len() == 6,
        r@.map_values(|x: i64| x as int) == v@.map_values(|x: i64| x as int).update(
            0,
            -(v@[0] as int),
        ),
        forall|i: int| 0 <= i < r@.len() ==> -CLAMP <= #[trigger] (r@[i] as int) <= CLAMP,
{
    let mut r: Vec<i64> = Vec::new();
    r.push(-v[0]);
    r.push(v[1]);
    r.push(v[2]);
    r.push(v[3]);
    r.push(v[4]);
    r.push(v[5]);
    proof {
        assert(r@.map_values(|x: i64| x as int) =~= v@.map_values(|x: i64| x as int).update(
            0,
            -(v@[0] as int),
        ));
    }
    r
}

} // verus!
