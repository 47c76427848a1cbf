//! Starting-point alignment: find the admissible rotation (possibly
//! reversed) of the second contour that comes closest to the first
//! contour's characteristic vector.
//!
//! When the best rotation is within three nodes of the start and not
//! reversed, the contours may simply be nearly circular and slightly
//! rotated: both characteristic sets are then re-measured under each
//! contour's covariance ellipse (recovered from its descriptor by the
//! standard 2×2 eigendecomposition) before deciding.

use vstd::prelude::*;

use crate::isomorphism::{Isomorphisms, CH_BOUND};
use crate::nums::{abs_int, clamp_i128, clamp_int, div_i128, div_trunc, isqrt_u128, mul_bounded, sqrt_floor, Ratio};
use crate::stats::CLAMP;

verus! {

/// Magnitude bound on characteristic entries after the ellipse rescue.
pub const TCH_BOUND: i64 = 0x40_0000;

/// Squared distance between the first `k` paired entries.
pub open spec fn vdp_upto(a: Seq<(int, int)>, b: Seq<(int, int)>, k: int) -> int
    decreases k,
{
    if k <= 0 {
        0
    } else {
        let dx = a[k - 1].0 - b[k - 1].0;
        let dy = a[k - 1].1 - b[k - 1].1;
        vdp_upto(a, b, k - 1) + (dx * dx + dy * dy)
    }
}

pub open spec fn min_len(a: int, b: int) -> int {
    if a < b {
        a
    } else {
        b
    }
}

/// Squared Euclidean distance between two characteristic vectors, over
/// their paired entries.
pub open spec fn spec_vdiff_pairs(a: Seq<(int, int)>, b: Seq<(int, int)>) -> int {
    vdp_upto(a, b, min_len(a.len() as int, b.len() as int))
}

/// Computes the squared distance between two characteristic vectors.
pub fn vdiff_pairs(a: &Vec<(i64, i64)>, b: &Vec<(i64, i64)>) -> (r: i128)
    requires
        a@.len() <= 0x8000,
        b@.len() <= 0x8000,
        forall|i: int|
            0 <= i < a@.len() ==> -TCH_BOUND <= #[trigger] (a@[i].0 as int) <= TCH_BOUND
                && -TCH_BOUND <= a@[i].1 as int <= TCH_BOUND,
        forall|i: int|
            0 <= i < b@.len() ==> -TCH_BOUND <= #[trigger] (b@[i].0 as int) <= TCH_BOUND
                && -TCH_BOUND <= b@[i].1 as int <= TCH_BOUND,
    ensures
        r as int == spec_vdiff_pairs(
            a@.map_values(|p: (i64, i64)| crate::isomorphism::pair_view(p)),
            b@.map_values(|p: (i64, i64)| crate::isomorphism::pair_view(p)),
        ),
        0 <= r <= 0x4000_0000_0000_0000,
{
    let ghost av = a@.map_values(|p: (i64, i64)| crate::isomorphism::pair_view(p));
    let ghost bv = b@.map_values(|p: (i64, i64)| crate::isomorphism::pair_view(p));
    let n = if a.len() < b.len() {
        a.len()
    } else {
        b.len()
    };
    let mut acc: i128 = 0;
    let mut i: usize = 0;
    while i < n
        invariant
            n == min_len(av.len() as int, bv.len() as int),
            av == a@.map_values(|p: (i64, i64)| crate::isomorphism::pair_view(p)),
            bv == b@.map_values(|p: (i64, i64)| crate::isomorphism::pair_view(p)),
            av.len() <= 0x8000,
            bv.len() <= 0x8000,
            forall|t: int|
                0 <= t < a@.len() ==> -TCH_BOUND <= #[trigger] (a@[t].0 as int) <= TCH_BOUND
                    && -TCH_BOUND <= a@[t].1 as int <= TCH_BOUND,
            forall|t: int|
                0 <= t < b@.len() ==> -TCH_BOUND <= #[trigger] (b@[t].0 as int) <= TCH_BOUND
                    && -TCH_BOUND <= b@[t].1 as int <= TCH_BOUND,
            0 <= i <= n,
            acc as int == vdp_upto(av, bv, i as int),
            0 <= acc <= (i as int) * 0x8000_0000_0000,
        decreases n - i,
    {
        let pa = a[i];
        let pb = b[i];
        let dx = pa.0 as i128 - pb.0 as i128;
        let dy = pa.1 as i128 - pb.1 as i128;
        proof {
            assert(av[i as int] == crate::isomorphism::pair_view(a@[i as int]));
            assert(bv[i as int] == crate::isomorphism::pair_view(b@[i as int]));
            assert(0 <= dx * dx <= 0x4000_0000_0000 && 0 <= dy * dy <= 0x4000_0000_0000)
                by (nonlinear_arith)
                requires
                    -0x80_0000 <= dx <= 0x80_0000,
                    -0x80_0000 <= dy <= 0x80_0000,
            ;
        }
        acc = acc + (dx * dx + dy * dy);
        i = i + 1;
    }
    proof {
        assert((i as int) * 0x8000_0000_0000 <= 0x4000_0000_0000_0000) by (nonlinear_arith)
            requires
                0 <= i <= 0x8000,
        ;
    }
    acc
}

/// The rotate-then-scale map recovered from one contour's descriptor:
/// the covariance ellipse's axis directions (as the exact pair
/// `(cn, sn)` over the normaliser `h`) and the axis lengths `s1`, `s2`
/// in fixed point.
pub struct EllipseMap {
    pub cn: i128,
    pub sn: i128,
    pub h: i128,
    pub s1: i128,
    pub s2: i128,
}

/// Ghost model of the map.
pub struct EllipseModel {
    pub cn: int,
    pub sn: int,
    pub h: int,
    pub s1: int,
    pub s2: int,
}

pub open spec fn ellipse_view(m: EllipseMap) -> EllipseModel {
    EllipseModel { cn: m.cn as int, sn: m.sn as int, h: m.h as int, s1: m.s1 as int, s2: m.s2 as int }
}

/// The map a descriptor determines: `a = σx²`, `c = σy²`,
/// `b = ρ·σx·σy` (the packed correlation divided back by the signed
/// size), eigenvalues `(a+c)/2 ± √(((a−c)/2)² + b²)`, and the rotation
/// towards the major axis, all in the library's floor-root fixed point.
pub open spec fn spec_ellipse(v: Seq<int>) -> EllipseModel {
    let a = v[3] * v[3];
    let c = v[4] * v[4];
    let b = if v[5] == 0 || v[0] == 0 {
        0
    } else {
        clamp_int(div_trunc(v[3] * v[4] * v[5], abs_int(v[0])), 0x4_0000_0000_0000)
    };
    let dd = sqrt_floor(((a - c) * (a - c) + 4 * (b * b)) as nat) as int;
    let s1 = sqrt_floor(((a + c + dd) / 2) as nat) as int;
    let s2 = if a + c - dd < 0 {
        0
    } else {
        sqrt_floor(((a + c - dd) / 2) as nat) as int
    };
    if b != 0 {
        let cn = 2 * b;
        let sn = c - a + dd;
        let h = sqrt_floor((cn * cn + sn * sn) as nat) as int;
        if h == 0 {
            EllipseModel { cn: 1, sn: 0, h: 1, s1, s2 }
        } else {
            EllipseModel {
                cn: clamp_int(cn, 0x40_0000_0000_0000),
                sn: clamp_int(sn, 0x40_0000_0000_0000),
                h,
                s1,
                s2,
            }
        }
    } else if a < c {
        EllipseModel { cn: 0, sn: 1, h: 1, s1, s2 }
    } else {
        EllipseModel { cn: 1, sn: 0, h: 1, s1, s2 }
    }
}

/// Recovers the covariance ellipse of a contour from its descriptor:
/// `a = σx²`, `c = σy²`, `b = ρ·σx·σy`, eigenvalues
/// `(a+c)/2 ± √(((a−c)/2)² + b²)`, rotation towards the major axis.
fn ellipse_of(v: &Vec<i64>) -> (r: EllipseMap)
    requires
        v@.len() == 6,
        forall|t: int| 0 <= t < 6 ==> -CLAMP <= #[trigger] (v@[t] as int) <= CLAMP,
    ensures
        ellipse_view(r) == spec_ellipse(v@.map_values(|x: i64| x as int)),
        -0x40_0000_0000_0000 <= r.cn <= 0x40_0000_0000_0000,
        -0x40_0000_0000_0000 <= r.sn <= 0x40_0000_0000_0000,
        1 <= r.h <= 0x100_0000_0000_0000,
        0 <= r.s1 <= 0x800_0000,
        0 <= r.s2 <= 0x800_0000,
{
    let ghost vv = v@.map_values(|x: i64| x as int);
    proof {
        assert(vv[0] == v@[0] as int && vv[3] == v@[3] as int && vv[4] == v@[4] as int && vv[5]
            == v@[5] as int);
    }
    let v0 = v[0] as i128;
    let v3 = v[3] as i128;
    let v4 = v[4] as i128;
    let v5 = v[5] as i128;
    let a = mul_bounded(v3, v3, Ghost(CLAMP as int), Ghost(CLAMP as int));
    let c = mul_bounded(v4, v4, Ghost(CLAMP as int), Ghost(CLAMP as int));
    proof {
        assert(a >= 0 && c >= 0) by (nonlinear_arith)
            requires
                a == v3 as int * v3 as int,
                c == v4 as int * v4 as int,
        ;
    }
    let v0a: i128 = if v0 < 0 {
        -v0
    } else {
        v0
    };
    let b: i128 = if v5 == 0 || v0 == 0 {
        0
    } else {
        let prod = mul_bounded(
            mul_bounded(v3, v4, Ghost(CLAMP as int), Ghost(CLAMP as int)),
            v5,
            Ghost(CLAMP as int * CLAMP as int),
            Ghost(CLAMP as int),
        );
        clamp_i128(div_i128(prod, v0a), 0x4_0000_0000_0000)
    };
    let ac = a - c;
    let acsq = mul_bounded(
        ac,
        ac,
        Ghost(0x1_0000_0000_0000 as int),
        Ghost(0x1_0000_0000_0000 as int),
    );
    let bsq = mul_bounded(
        b,
        b,
        Ghost(0x4_0000_0000_0000 as int),
        Ghost(0x4_0000_0000_0000 as int),
    );
    proof {
        assert(acsq >= 0 && bsq >= 0) by (nonlinear_arith)
            requires
                acsq == ac as int * ac as int,
                bsq == b as int * b as int,
        ;
    }
    let d2: u128 = (acsq + 4 * bsq) as u128;
    proof {
        lemma_root_cap(d2 as nat, 0x10_0000_0000_0000);
    }
    let dd = isqrt_u128(d2) as i128;
    let l1: u128 = ((a + c + dd) as u128) / 2;
    let l2raw = a + c - dd;
    let l2: u128 = if l2raw < 0 {
        0
    } else {
        (l2raw as u128) / 2
    };
    proof {
        lemma_root_cap(l1 as nat, 0x800_0000);
        lemma_root_cap(l2 as nat, 0x800_0000);
    }
    let s1 = isqrt_u128(l1) as i128;
    let s2 = isqrt_u128(l2) as i128;
    if b != 0 {
        let cn = 2 * b;
        let sn = c - a + dd;
        let cnsq = mul_bounded(
            cn,
            cn,
            Ghost(0x8_0000_0000_0000 as int),
            Ghost(0x8_0000_0000_0000 as int),
        );
        let snsq = mul_bounded(
            sn,
            sn,
            Ghost(0x20_0000_0000_0000 as int),
            Ghost(0x20_0000_0000_0000 as int),
        );
        proof {
            assert(cnsq >= 0 && snsq >= 0) by (nonlinear_arith)
                requires
                    cnsq == cn as int * cn as int,
                    snsq == sn as int * sn as int,
            ;
            lemma_root_cap((cnsq + snsq) as nat, 0x100_0000_0000_0000);
        }
        let h = isqrt_u128((cnsq + snsq) as u128) as i128;
        if h == 0 {
            EllipseMap { cn: 1, sn: 0, h: 1, s1, s2 }
        } else {
            let cnc = clamp_i128(cn, 0x40_0000_0000_0000);
            let snc = clamp_i128(sn, 0x40_0000_0000_0000);
            EllipseMap { cn: cnc, sn: snc, h, s1, s2 }
        }
    } else if a < c {
        EllipseMap { cn: 0, sn: 1, h: 1, s1, s2 }
    } else {
        EllipseMap { cn: 1, sn: 0, h: 1, s1, s2 }
    }
}

/// A floor square root is no more than any cap whose square covers the
/// argument.
proof fn lemma_root_cap(x: nat, cap: nat)
    requires
        x <= cap * cap,
    ensures
        crate::nums::sqrt_floor(x) <= cap,
{
    crate::nums::lemma_sqrt_floor_bounds(x);
    let s = crate::nums::sqrt_floor(x);
    assert(s > cap ==> s * s > cap * cap) by (nonlinear_arith);
}

/// The rescue-space image of one characteristic entry: rotate by the
/// ellipse axes, scale by the axis lengths, clamp into the rescue range.
pub open spec fn spec_apply(m: EllipseModel, p: (int, int)) -> (int, int) {
    (
        clamp_int(
            div_trunc(m.s1 * (p.0 * m.cn - p.1 * m.sn), 512 * m.h),
            TCH_BOUND as int,
        ),
        clamp_int(
            div_trunc(m.s2 * (p.0 * m.sn + p.1 * m.cn), 512 * m.h),
            TCH_BOUND as int,
        ),
    )
}

/// Applies the rotate-then-scale map to one characteristic entry,
/// clamped into the rescue entry range.
fn apply_map(m: &EllipseMap, p: (i64, i64)) -> (r: (i64, i64))
    requires
        -CH_BOUND <= p.0 <= CH_BOUND,
        -CH_BOUND <= p.1 <= CH_BOUND,
        m.h >= 1,
        -0x40_0000_0000_0000 <= m.cn <= 0x40_0000_0000_0000,
        -0x40_0000_0000_0000 <= m.sn <= 0x40_0000_0000_0000,
        m.h <= 0x100_0000_0000_0000,
        0 <= m.s1 <= 0x800_0000,
        0 <= m.s2 <= 0x800_0000,
    ensures
        crate::isomorphism::pair_view(r) == spec_apply(
            ellipse_view(*m),
            crate::isomorphism::pair_view(p),
        ),
        -TCH_BOUND <= r.0 <= TCH_BOUND,
        -TCH_BOUND <= r.1 <= TCH_BOUND,
{
    let x = p.0 as i128;
    let y = p.1 as i128;
    let rx = mul_bounded(x, m.cn, Ghost(CH_BOUND as int), Ghost(0x40_0000_0000_0000 as int))
        - mul_bounded(y, m.sn, Ghost(CH_BOUND as int), Ghost(0x40_0000_0000_0000 as int));
    let ry = mul_bounded(x, m.sn, Ghost(CH_BOUND as int), Ghost(0x40_0000_0000_0000 as int))
        + mul_bounded(y, m.cn, Ghost(CH_BOUND as int), Ghost(0x40_0000_0000_0000 as int));
    let den = 512 * m.h;
    let tx = clamp_i128(
        div_i128(
            mul_bounded(m.s1, rx, Ghost(0x800_0000 as int), Ghost(0x2_0000_0000_0000_0000_0000 as int)),
            den,
        ),
        TCH_BOUND as i128,
    );
    let ty = clamp_i128(
        div_i128(
            mul_bounded(m.s2, ry, Ghost(0x800_0000 as int), Ghost(0x2_0000_0000_0000_0000_0000 as int)),
            den,
        ),
        TCH_BOUND as i128,
    );
    (tx as i64, ty as i64)
}

/// Applies the map to every entry of a characteristic vector.
fn map_list(m: &EllipseMap, v: &Vec<(i64, i64)>) -> (r: Vec<(i64, i64)>)
    requires
        forall|i: int|
            0 <= i < v@.len() ==> -CH_BOUND <= #[trigger] (v@[i].0 as int) <= CH_BOUND
                && -CH_BOUND <= v@[i].1 as int <= CH_BOUND,
        m.h >= 1,
        -0x40_0000_0000_0000 <= m.cn <= 0x40_0000_0000_0000,
        -0x40_0000_0000_0000 <= m.sn <= 0x40_0000_0000_0000,
        m.h <= 0x100_0000_0000_0000,
        0 <= m.s1 <= 0x800_0000,
        0 <= m.s2 <= 0x800_0000,
    ensures
        r@.len() == v@.len(),
        r@.map_values(|p: (i64, i64)| crate::isomorphism::pair_view(p)) == spec_map_list(
            ellipse_view(*m),
            v@.map_values(|p: (i64, i64)| crate::isomorphism::pair_view(p)),
        ),
        forall|i: int|
            0 <= i < r@.len() ==> -TCH_BOUND <= #[trigger] (r@[i].0 as int) <= TCH_BOUND
                && -TCH_BOUND <= r@[i].1 as int <= TCH_BOUND,
{
    let n = v.len();
    let mut r: Vec<(i64, i64)> = Vec::new();
    let mut i: usize = 0;
    while i < n
        invariant
            n == v@.len(),
            forall|t: int|
                0 <= t < v@.len() ==> -CH_BOUND <= #[trigger] (v@[t].0 as int) <= CH_BOUND
                    && -CH_BOUND <= v@[t].1 as int <= CH_BOUND,
            m.h >= 1,
            -0x40_0000_0000_0000 <= m.cn <= 0x40_0000_0000_0000,
            -0x40_0000_0000_0000 <= m.sn <= 0x40_0000_0000_0000,
            m.h <= 0x100_0000_0000_0000,
            0 <= m.s1 <= 0x800_0000,
            0 <= m.s2 <= 0x800_0000,
            0 <= i <= n,
            r@.len() == i,
            forall|t: int|
                0 <= t < i ==> #[trigger] crate::isomorphism::pair_view(r@[t]) == spec_apply(
                    ellipse_view(*m),
                    crate::isomorphism::pair_view(v@[t]),
                ),
            forall|t: int|
                0 <= t < i ==> -TCH_BOUND <= #[trigger] (r@[t].0 as int) <= TCH_BOUND && -TCH_BOUND
                    <= r@[t].1 as int <= TCH_BOUND,
        decreases n - i,
    {
        let mapped = apply_map(m, v[i]);
        r.push(mapped);
        i = i + 1;
    }
    proof {
        assert(r@.map_values(|p: (i64, i64)| crate::isomorphism::pair_view(p)) =~= spec_map_list(
            ellipse_view(*m),
            v@.map_values(|p: (i64, i64)| crate::isomorphism::pair_view(p)),
        ));
    }
    r
}

/// The rescue-space image of a whole characteristic vector.
pub open spec fn spec_map_list(m: EllipseModel, l: Seq<(int, int)>) -> Seq<(int, int)> {
    Seq::new(l.len(), |i: int| spec_apply(m, l[i]))
}

/// The reference characteristic as the rescue re-measures it: only its
/// first entry is mapped into the first contour's ellipse space.
pub open spec fn rescued_reference(m: EllipseModel, c0: Seq<(int, int)>) -> Seq<(int, int)> {
    c0.update(0, spec_apply(m, c0[0]))
}

/// The second contour's alignments as the rescue re-measures them: every
/// entry mapped into the second contour's ellipse space; start node and
/// orientation unchanged.
pub open spec fn rescued_isos(
    m: EllipseModel,
    isos: Seq<crate::isomorphism::CharModel>,
) -> Seq<crate::isomorphism::CharModel> {
    Seq::new(
        isos.len(),
        |t: int|
            crate::isomorphism::CharModel {
                rotated: spec_map_list(m, isos[t].rotated),
                rotation: isos[t].rotation,
                reverse: isos[t].reverse,
            },
    )
}

/// Index `j` names the first alignment of least distance from the
/// reference characteristic `c0`.
pub open spec fn first_minimizer(
    c0: Seq<(int, int)>,
    isos: Seq<crate::isomorphism::CharModel>,
    j: int,
) -> bool {
    &&& 0 <= j < isos.len()
    &&& forall|t: int|
        0 <= t < isos.len() ==> spec_vdiff_pairs(c0, isos[j].rotated) <= #[trigger] spec_vdiff_pairs(
            c0,
            isos[t].rotated,
        )
    &&& forall|t: int|
        0 <= t < j ==> #[trigger] spec_vdiff_pairs(c0, isos[t].rotated) > spec_vdiff_pairs(
            c0,
            isos[j].rotated,
        )
}

/// The near-circle rescue fires for the alignment `j`: it strictly beats
/// the unrotated alignment at the threshold, is not reversed, and starts
/// within three nodes of either end.
pub open spec fn rescue_fires(
    c0: Seq<(int, int)>,
    isos: Seq<crate::isomorphism::CharModel>,
    j: int,
    num_points: int,
    tol: Ratio,
) -> bool {
    &&& spec_vdiff_pairs(c0, isos[j].rotated) * tol.den < spec_vdiff_pairs(c0, isos[0].rotated)
        * tol.num
    &&& !isos[j].reverse
    &&& (isos[j].rotation <= 3 || num_points < 3 || isos[j].rotation >= num_points - 3)
}

/// The reported starting-point tolerance: best cost over unrotated cost,
/// or one when the unrotated cost vanishes.
pub open spec fn start_tolerance(min_c: int, first_c: int) -> Ratio {
    if first_c == 0 {
        Ratio { num: 1, den: 1 }
    } else {
        Ratio { num: min_c as i64, den: first_c as i64 }
    }
}

/// Finds the closest admissible alignment of the second contour to the
/// first contour's reference characteristic.
///
/// Returns `None` when either alignment set is empty.  Otherwise returns
/// `(tolerance, proposed start node, reversed)`: the tolerance is the
/// ratio of the best cost to the unrotated cost (one when the unrotated
/// cost vanishes), after the near-circle rescue re-measured the costs
/// under the covariance ellipses when the best rotation lay within three
/// nodes of the start.  A perfectly aligned pair (zero cost against the
/// unrotated alignment) always reports tolerance one, start node of the
/// unrotated alignment, unreversed.
pub fn test_starting_point(
    m0_isomorphisms: &Isomorphisms,
    m1_isomorphisms: &Isomorphisms,
    m0_vector: &Vec<i64>,
    m1_vector: &Vec<i64>,
    num_points: usize,
    tolerance: Ratio,
) -> (r: Option<(Ratio, usize, bool)>)
    requires
        crate::isomorphism::iso_wf(*m0_isomorphisms),
        crate::isomorphism::iso_wf(*m1_isomorphisms),
        m0_vector@.len() == 6,
        forall|t: int| 0 <= t < 6 ==> -CLAMP <= #[trigger] (m0_vector@[t] as int) <= CLAMP,
        m1_vector@.len() == 6,
        forall|t: int| 0 <= t < 6 ==> -CLAMP <= #[trigger] (m1_vector@[t] as int) <= CLAMP,
        tolerance.wf(),
        tolerance.num <= 1000000,
        tolerance.den <= 1000000,
    ensures
        (r is None) == (m0_isomorphisms@.len() == 0 || m1_isomorphisms@.len() == 0),
        match r {
            Some(out) => {
                &&& out.0.wf()
                &&& out.0.num <= out.0.den
                &&& exists|j: int|
                    0 <= j < m1_isomorphisms@.len() && (out.1 as int)
                        == (#[trigger] m1_isomorphisms@[j]).rotation && out.2
                        == m1_isomorphisms@[j].reverse
            },
            None => true,
        },
        (m0_isomorphisms@.len() > 0 && m1_isomorphisms@.len() > 0 && spec_vdiff_pairs(
            m0_isomorphisms@[0].rotated,
            m1_isomorphisms@[0].rotated,
        ) == 0) ==> r == Some(
            (
                Ratio { num: 1, den: 1 },
                m1_isomorphisms@[0].rotation as usize,
                m1_isomorphisms@[0].reverse,
            ),
        ),
        m0_isomorphisms@.len() > 0 && m1_isomorphisms@.len() > 0 ==> exists|j: int|
            {
                &&& #[trigger] first_minimizer(m0_isomorphisms@[0].rotated, m1_isomorphisms@, j)
                &&& (!rescue_fires(
                    m0_isomorphisms@[0].rotated,
                    m1_isomorphisms@,
                    j,
                    num_points as int,
                    tolerance,
                ) ==> {
                    &&& r is Some
                    &&& (r->Some_0).0 == start_tolerance(
                        spec_vdiff_pairs(
                            m0_isomorphisms@[0].rotated,
                            m1_isomorphisms@[j].rotated,
                        ),
                        spec_vdiff_pairs(
                            m0_isomorphisms@[0].rotated,
                            m1_isomorphisms@[0].rotated,
                        ),
                    )
                    &&& ((r->Some_0).1 as int) == m1_isomorphisms@[j].rotation
                    &&& (r->Some_0).2 == m1_isomorphisms@[j].reverse
                })
            },
        m0_isomorphisms@.len() > 0 && m1_isomorphisms@.len() > 0 && (exists|j: int|
            #[trigger] first_minimizer(m0_isomorphisms@[0].rotated, m1_isomorphisms@, j)
                && rescue_fires(
                m0_isomorphisms@[0].rotated,
                m1_isomorphisms@,
                j,
                num_points as int,
                tolerance,
            )) ==> exists|j2: int|
            {
                &&& #[trigger] first_minimizer(
                    rescued_reference(
                        spec_ellipse(crate::stats::descriptor_ints(*m0_vector)),
                        m0_isomorphisms@[0].rotated,
                    ),
                    rescued_isos(
                        spec_ellipse(crate::stats::descriptor_ints(*m1_vector)),
                        m1_isomorphisms@,
                    ),
                    j2,
                )
                &&& r is Some
                &&& (r->Some_0).0 == start_tolerance(
                    spec_vdiff_pairs(
                        rescued_reference(
                            spec_ellipse(crate::stats::descriptor_ints(*m0_vector)),
                            m0_isomorphisms@[0].rotated,
                        ),
                        rescued_isos(
                            spec_ellipse(crate::stats::descriptor_ints(*m1_vector)),
                            m1_isomorphisms@,
                        )[j2].rotated,
                    ),
                    spec_vdiff_pairs(
                        rescued_reference(
                            spec_ellipse(crate::stats::descriptor_ints(*m0_vector)),
                            m0_isomorphisms@[0].rotated,
                        ),
                        rescued_isos(
                            spec_ellipse(crate::stats::descriptor_ints(*m1_vector)),
                            m1_isomorphisms@,
                        )[0].rotated,
                    ),
                )
                &&& ((r->Some_0).1 as int) == m1_isomorphisms@[j2].rotation
                &&& (r->Some_0).2 == m1_isomorphisms@[j2].reverse
            },
{
    if m0_isomorphisms.0.len() == 0 || m1_isomorphisms.0.len() == 0 {
        return None;
    }
    let c0 = &m0_isomorphisms.0[0];
    let m = m1_isomorphisms.0.len();
    let mut min_index: usize = 0;
    let mut min_cost: i128 = vdiff_pairs(&c0.rotated_list, &m1_isomorphisms.0[0].rotated_list);
    let first_cost: i128 = min_cost;
    let ghost c0v = crate::isomorphism::char_view(*c0).rotated;
    proof {
        assert(m0_isomorphisms@[0] == crate::isomorphism::char_view(m0_isomorphisms.0@[0]));
        assert(m1_isomorphisms@[0] == crate::isomorphism::char_view(m1_isomorphisms.0@[0]));
        assert(c0v == m0_isomorphisms@[0].rotated);
        assert(first_cost as int == spec_vdiff_pairs(
            m0_isomorphisms@[0].rotated,
            m1_isomorphisms@[0].rotated,
        ));
    }
    let mut k: usize = 1;
    while k < m
        invariant
            crate::isomorphism::iso_wf(*m0_isomorphisms),
            crate::isomorphism::iso_wf(*m1_isomorphisms),
            m0_isomorphisms@.len() > 0,
            m == m1_isomorphisms@.len(),
            c0v == m0_isomorphisms@[0].rotated,
            c0 == m0_isomorphisms.0@[0],
            1 <= k <= m,
            0 <= (min_index as int) < k,
            0 <= min_cost <= 0x4000_0000_0000_0000,
            0 <= first_cost <= 0x4000_0000_0000_0000,
            first_cost as int == spec_vdiff_pairs(c0v, m1_isomorphisms@[0].rotated),
            min_cost as int == spec_vdiff_pairs(c0v, m1_isomorphisms@[min_index as int].rotated),
            min_cost <= first_cost,
            first_cost == 0 ==> min_index == 0,
            forall|t: int|
                0 <= t < k ==> min_cost as int <= #[trigger] spec_vdiff_pairs(
                    c0v,
                    m1_isomorphisms@[t].rotated,
                ),
            forall|t: int|
                0 <= t < min_index ==> #[trigger] spec_vdiff_pairs(
                    c0v,
                    m1_isomorphisms@[t].rotated,
                ) > min_cost as int,
        decreases m - k,
    {
        let cost = vdiff_pairs(&c0.rotated_list, &m1_isomorphisms.0[k].rotated_list);
        proof {
            assert(m1_isomorphisms@[k as int] == crate::isomorphism::char_view(
                m1_isomorphisms.0@[k as int],
            ));
            assert(cost as int == spec_vdiff_pairs(c0v, m1_isomorphisms@[k as int].rotated));
        }
        if cost < min_cost {
            min_cost = cost;
            min_index = k;
        }
        k = k + 1;
    }
    let chosen = &m1_isomorphisms.0[min_index];
    let proposed_point = chosen.rotation;
    let reverse = chosen.reverse;
    let ghost zero_aligned = first_cost == 0;
    proof {
        assert(0 <= min_cost as int * tolerance.den as int <= 0x80_0000_0000_0000_0000_0000 && 0
            <= first_cost as int * tolerance.num as int <= 0x80_0000_0000_0000_0000_0000)
            by (nonlinear_arith)
            requires
                0 <= min_cost <= 0x4000_0000_0000_0000,
                0 <= first_cost <= 0x4000_0000_0000_0000,
                0 <= tolerance.num <= 1000000,
                0 < tolerance.den <= 1000000,
        ;
    }
    let td128: i128 = tolerance.den as i128;
    let tn128: i128 = tolerance.num as i128;
    let rescue = min_cost * td128 < first_cost * tn128 && !reverse && (proposed_point <= 3
        || num_points < 3 || proposed_point >= num_points - 3);
    proof {
        assert(m1_isomorphisms@[min_index as int] == crate::isomorphism::char_view(
            m1_isomorphisms.0@[min_index as int],
        ));
        assert(first_minimizer(c0v, m1_isomorphisms@, min_index as int));
        assert(rescue == rescue_fires(
            c0v,
            m1_isomorphisms@,
            min_index as int,
            num_points as int,
            tolerance,
        ));
    }
    if !rescue {
        let tol = if first_cost != 0 {
            Ratio { num: min_cost as i64, den: first_cost as i64 }
        } else {
            Ratio::one()
        };
        proof {
            assert(0 <= (min_index as int) < m1_isomorphisms@.len() && (proposed_point as int)
                == m1_isomorphisms@[min_index as int].rotation && reverse
                == m1_isomorphisms@[min_index as int].reverse);
            assert(tol == start_tolerance(min_cost as int, first_cost as int));
            if spec_vdiff_pairs(m0_isomorphisms@[0].rotated, m1_isomorphisms@[0].rotated) == 0 {
                assert(first_cost == 0);
                assert(min_index == 0);
            }
        }
        return Some((tol, proposed_point, reverse));
    }
    proof {
        assert(min_cost * td128 < first_cost * tn128);
        if first_cost == 0 {
            assert(min_cost * td128 >= 0 && first_cost * tn128 == 0) by (nonlinear_arith)
                requires
                    first_cost == 0,
                    min_cost >= 0,
                    td128 > 0,
            ;
            assert(false);
        }
        assert(spec_vdiff_pairs(m0_isomorphisms@[0].rotated, m1_isomorphisms@[0].rotated) != 0);
    }
    let tf0 = ellipse_of(m0_vector);
    let tf1 = ellipse_of(m1_vector);
    let ghost tf0v = spec_ellipse(crate::stats::descriptor_ints(*m0_vector));
    let ghost tf1v = spec_ellipse(crate::stats::descriptor_ints(*m1_vector));
    let ghost nc0v = rescued_reference(tf0v, c0v);
    let ghost risos = rescued_isos(tf1v, m1_isomorphisms@);
    proof {
        if c0v.len() == 0 {
            assert(spec_vdiff_pairs(c0v, m1_isomorphisms@[0].rotated) == 0);
            assert(false);
        }
        assert(c0.rotated_list@.len() == c0v.len());
    }
    let mut new_c0: Vec<(i64, i64)> = Vec::new();
    let head = apply_map(&tf0, c0.rotated_list[0]);
    new_c0.push(head);
    let mut t: usize = 1;
    while t < c0.rotated_list.len()
        invariant
            crate::isomorphism::iso_wf(*m0_isomorphisms),
            m0_isomorphisms@.len() > 0,
            c0 == m0_isomorphisms.0@[0],
            c0v == m0_isomorphisms@[0].rotated,
            c0v.len() == c0.rotated_list@.len() >= 1,
            nc0v == rescued_reference(tf0v, c0v),
            1 <= t <= c0.rotated_list@.len(),
            new_c0@.len() == t,
            forall|u: int|
                0 <= u < t ==> #[trigger] crate::isomorphism::pair_view(new_c0@[u]) == nc0v[u],
            forall|u: int|
                0 <= u < t ==> -TCH_BOUND <= #[trigger] (new_c0@[u].0 as int) <= TCH_BOUND
                    && -TCH_BOUND <= new_c0@[u].1 as int <= TCH_BOUND,
        decreases c0.rotated_list.len() - t,
    {
        proof {
            assert(crate::isomorphism::pair_view(c0.rotated_list@[t as int]) == c0v[t as int]);
        }
        new_c0.push(c0.rotated_list[t]);
        t = t + 1;
    }
    proof {
        assert(new_c0@.map_values(|p: (i64, i64)| crate::isomorphism::pair_view(p)) =~= nc0v);
    }
    let mut min2_index: usize = 0;
    let first_list = map_list(&tf1, &m1_isomorphisms.0[0].rotated_list);
    proof {
        assert(m1_isomorphisms@[0] == crate::isomorphism::char_view(m1_isomorphisms.0@[0]));
        assert(first_list@.map_values(|p: (i64, i64)| crate::isomorphism::pair_view(p))
            == risos[0].rotated);
    }
    let mut min2_cost: i128 = vdiff_pairs(&new_c0, &first_list);
    let first2_cost: i128 = min2_cost;
    proof {
        assert(first2_cost as int == spec_vdiff_pairs(nc0v, risos[0].rotated));
    }
    let mut k2: usize = 1;
    while k2 < m
        invariant
            crate::isomorphism::iso_wf(*m1_isomorphisms),
            m == m1_isomorphisms@.len(),
            risos == rescued_isos(tf1v, m1_isomorphisms@),
            tf1.h >= 1,
            -0x40_0000_0000_0000 <= tf1.cn <= 0x40_0000_0000_0000,
            -0x40_0000_0000_0000 <= tf1.sn <= 0x40_0000_0000_0000,
            tf1.h <= 0x100_0000_0000_0000,
            0 <= tf1.s1 <= 0x800_0000,
            0 <= tf1.s2 <= 0x800_0000,
            ellipse_view(tf1) == tf1v,
            nc0v == new_c0@.map_values(|p: (i64, i64)| crate::isomorphism::pair_view(p)),
            forall|u: int|
                0 <= u < new_c0@.len() ==> -TCH_BOUND <= #[trigger] (new_c0@[u].0 as int)
                    <= TCH_BOUND && -TCH_BOUND <= new_c0@[u].1 as int <= TCH_BOUND,
            new_c0@.len() <= 0x8000,
            1 <= k2 <= m,
            0 <= (min2_index as int) < k2,
            0 <= min2_cost <= 0x4000_0000_0000_0000,
            0 <= first2_cost <= 0x4000_0000_0000_0000,
            min2_cost <= first2_cost,
            first2_cost as int == spec_vdiff_pairs(nc0v, risos[0].rotated),
            min2_cost as int == spec_vdiff_pairs(nc0v, risos[min2_index as int].rotated),
            forall|u: int|
                0 <= u < k2 ==> min2_cost as int <= #[trigger] spec_vdiff_pairs(
                    nc0v,
                    risos[u].rotated,
                ),
            forall|u: int|
                0 <= u < min2_index ==> #[trigger] spec_vdiff_pairs(nc0v, risos[u].rotated)
                    > min2_cost as int,
        decreases m - k2,
    {
        let mapped = map_list(&tf1, &m1_isomorphisms.0[k2].rotated_list);
        proof {
            assert(m1_isomorphisms@[k2 as int] == crate::isomorphism::char_view(
                m1_isomorphisms.0@[k2 as int],
            ));
            assert(mapped@.map_values(|p: (i64, i64)| crate::isomorphism::pair_view(p))
                == risos[k2 as int].rotated);
        }
        let cost = vdiff_pairs(&new_c0, &mapped);
        proof {
            assert(cost as int == spec_vdiff_pairs(nc0v, risos[k2 as int].rotated));
        }
        if cost < min2_cost {
            min2_cost = cost;
            min2_index = k2;
        }
        k2 = k2 + 1;
    }
    let chosen2 = &m1_isomorphisms.0[min2_index];
    let tol = if first2_cost != 0 {
        Ratio { num: min2_cost as i64, den: first2_cost as i64 }
    } else {
        Ratio::one()
    };
    proof {
        assert(m1_isomorphisms@[min2_index as int] == crate::isomorphism::char_view(
            m1_isomorphisms.0@[min2_index as int],
        ));
        assert(0 <= (min2_index as int) < m1_isomorphisms@.len() && (chosen2.rotation as int)
            == m1_isomorphisms@[min2_index as int].rotation && chosen2.reverse
            == m1_isomorphisms@[min2_index as int].reverse);
        assert(first_minimizer(nc0v, risos, min2_index as int));
        assert(tol == start_tolerance(min2_cost as int, first2_cost as int));
    }
    Some((tol, chosen2.rotation, chosen2.reverse))
}


/// There is only one first minimizer.
pub proof fn lemma_first_minimizer_unique(
    c0: Seq<(int, int)>,
    isos: Seq<crate::isomorphism::CharModel>,
    j1: int,
    j2: int,
)
    requires
        first_minimizer(c0, isos, j1),
        first_minimizer(c0, isos, j2),
    ensures
        j1 == j2,
{
    if j1 < j2 {
        assert(spec_vdiff_pairs(c0, isos[j1].rotated) > spec_vdiff_pairs(c0, isos[j2].rotated));
        assert(spec_vdiff_pairs(c0, isos[j1].rotated) <= spec_vdiff_pairs(c0, isos[j2].rotated));
    }
    if j2 < j1 {
        assert(spec_vdiff_pairs(c0, isos[j2].rotated) > spec_vdiff_pairs(c0, isos[j1].rotated));
        assert(spec_vdiff_pairs(c0, isos[j2].rotated) <= spec_vdiff_pairs(c0, isos[j1].rotated));
    }
}

} // verus!
