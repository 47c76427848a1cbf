//! Rotational alignment descriptors of a contour.
//!
//! Each contour gets a "characteristic" vector of four 2-D entries per
//! node — the node, three times the step to the next node, the turn
//! vector, and a packed square-rooted cross product.  Every rotation of
//! that vector whose on-curve-flag pattern matches the reference pattern
//! is one admissible alignment (an isomorphism), for the forward and for
//! the reversed node order.

use vstd::prelude::*;

use crate::geometry::GlyfPoint;
use crate::nums::{abs_int, isqrt_u128, sqrt_floor};

verus! {

/// Magnitude bound on characteristic entries.
pub const CH_BOUND: i64 = 0x4_0000;

/// One admissible alignment: the characteristic vector rotated to start
/// at node `rotation` (counted in the forward order), and whether the
/// node order was reversed.
#[derive(Clone, Debug)]
pub struct Characteristic {
    pub rotated_list: Vec<(i64, i64)>,
    pub rotation: usize,
    pub reverse: bool,
}

/// Ghost model of a characteristic.
pub struct CharModel {
    pub rotated: Seq<(int, int)>,
    pub rotation: int,
    pub reverse: bool,
}

pub open spec fn pair_view(p: (i64, i64)) -> (int, int) {
    (p.0 as int, p.1 as int)
}

pub open spec fn char_view(c: Characteristic) -> CharModel {
    CharModel {
        rotated: c.rotated_list@.map_values(|p: (i64, i64)| pair_view(p)),
        rotation: c.rotation as int,
        reverse: c.reverse,
    }
}

/// The node list in reverse order.
pub open spec fn rev_pts(pts: Seq<GlyfPoint>) -> Seq<GlyfPoint> {
    Seq::new(pts.len(), |i: int| pts[pts.len() - 1 - i])
}

/// The on-curve flags, last node first.
pub open spec fn bits_of(pts: Seq<GlyfPoint>) -> Seq<bool> {
    Seq::new(pts.len(), |i: int| pts[pts.len() - 1 - i].is_control)
}

/// The packed cross-product entry: `4·sign(c)·√|c|`.
pub open spec fn packed_cross(c: int) -> int {
    if c < 0 {
        -4 * (sqrt_floor(abs_int(c) as nat) as int)
    } else {
        4 * (sqrt_floor(abs_int(c) as nat) as int)
    }
}

/// The four characteristic entries emitted for node `i`.
pub open spec fn complex_at(pts: Seq<GlyfPoint>, i: int) -> Seq<(int, int)> {
    let n = pts.len() as int;
    let p0 = pts[i].point;
    let p1 = pts[(i + 1) % n].point;
    let p2 = pts[(i + 2) % n].point;
    let d0 = (p1.x - p0.x, p1.y - p0.y);
    let d1 = (p2.x - p1.x, p2.y - p1.y);
    let cross = d0.0 * d1.1 - d0.1 * d1.0;
    seq![
        (p0.x as int, p0.y as int),
        (3 * d0.0, 3 * d0.1),
        (d1.0 - d0.0, d1.1 - d0.1),
        (packed_cross(cross), 0),
    ]
}

/// The first `k` nodes' characteristic entries, concatenated.
pub open spec fn complex_upto(pts: Seq<GlyfPoint>, k: int) -> Seq<(int, int)>
    decreases k,
{
    if k <= 0 {
        Seq::empty()
    } else {
        complex_upto(pts, k - 1) + complex_at(pts, k - 1)
    }
}

/// The full characteristic vector: four entries per node.
pub open spec fn complex_vector(pts: Seq<GlyfPoint>) -> Seq<(int, int)> {
    complex_upto(pts, pts.len() as int)
}

proof fn lemma_complex_upto_len(pts: Seq<GlyfPoint>, k: int)
    requires
        0 <= k <= pts.len(),
    ensures
        complex_upto(pts, k).len() == 4 * k,
    decreases k,
{
    if k > 0 {
        lemma_complex_upto_len(pts, k - 1);
    }
}

/// Computes the characteristic vector of a node list.
pub fn points_complex_vector(pts: &Vec<GlyfPoint>) -> (r: Vec<(i64, i64)>)
    requires
        pts@.len() <= 4096,
        forall|i: int|
            0 <= i < pts@.len() ==> (#[trigger] pts@[i]).point.in_range(crate::COORD_LIMIT as int),
    ensures
        r@.map_values(|p: (i64, i64)| pair_view(p)) == complex_vector(pts@),
        r@.len() == 4 * pts@.len(),
        forall|i: int|
            0 <= i < r@.len() ==> -CH_BOUND <= #[trigger] (r@[i].0 as int) <= CH_BOUND && -CH_BOUND
                <= r@[i].1 as int <= CH_BOUND,
{
    let n = pts.len();
    let mut r: Vec<(i64, i64)> = Vec::new();
    let mut i: usize = 0;
    while i < n
        invariant
            n == pts@.len() <= 4096,
            forall|t: int|
                0 <= t < pts@.len() ==> (#[trigger] pts@[t]).point.in_range(
                    crate::COORD_LIMIT as int,
                ),
            0 <= i <= n,
            r@.map_values(|p: (i64, i64)| pair_view(p)) == complex_upto(pts@, i as int),
            r@.len() == 4 * i,
            forall|t: int|
                0 <= t < r@.len() ==> -CH_BOUND <= #[trigger] (r@[t].0 as int) <= CH_BOUND
                    && -CH_BOUND <= r@[t].1 as int <= CH_BOUND,
        decreases n - i,
    {
        let ghost pre = r@.map_values(|p: (i64, i64)| pair_view(p));
        let p0 = pts[i].point;
        let i1 = (i + 1) % n;
        let i2 = (i + 2) % n;
        proof {
            assert(i1 < n && i2 < n) by (nonlinear_arith)
                requires
                    i1 == (i + 1) % (n as int),
                    i2 == (i + 2) % (n as int),
                    n >= 1,
            ;
        }
        let p1 = pts[i1].point;
        let p2 = pts[i2].point;
        proof {
            assert(pts@[i as int].point.in_range(crate::COORD_LIMIT as int));
            assert(pts@[i1 as int].point.in_range(crate::COORD_LIMIT as int));
            assert(pts@[i2 as int].point.in_range(crate::COORD_LIMIT as int));
            assert(i1 as int == (i as int + 1) % (n as int));
            assert(i2 as int == (i as int + 2) % (n as int));
        }
        let d0x = p1.x - p0.x;
        let d0y = p1.y - p0.y;
        let d1x = p2.x - p1.x;
        let d1y = p2.y - p1.y;
        proof {
            assert(-0x4000_0000 <= d0x as int * d1y as int <= 0x4000_0000) by (nonlinear_arith)
                requires
                    -0x8000 <= d0x as int <= 0x8000,
                    -0x8000 <= d1y as int <= 0x8000,
            ;
            assert(-0x4000_0000 <= d0y as int * d1x as int <= 0x4000_0000) by (nonlinear_arith)
                requires
                    -0x8000 <= d0y as int <= 0x8000,
                    -0x8000 <= d1x as int <= 0x8000,
            ;
        }
        let cross: i64 = d0x * d1y - d0y * d1x;
        let cabs: u128 = if cross < 0 {
            (-cross) as u128
        } else {
            cross as u128
        };
        let croot = isqrt_u128(cabs);
        proof {
            lemma_sqrt_small(cabs as nat);
        }
        let packed: i64 = if cross < 0 {
            -4 * (croot as i64)
        } else {
            4 * (croot as i64)
        };
        r.push((p0.x, p0.y));
        r.push((3 * d0x, 3 * d0y));
        r.push((d1x - d0x, d1y - d0y));
        r.push((packed, 0));
        proof {
            assert(r@.map_values(|p: (i64, i64)| pair_view(p)) =~= pre + complex_at(
                pts@,
                i as int,
            ));
        }
        i = i + 1;
    }
    proof {
        lemma_complex_upto_len(pts@, n as int);
    }
    r
}

/// Square roots of small magnitudes stay small.
proof fn lemma_sqrt_small(c: nat)
    requires
        c <= 0x8000_0000,
    ensures
        sqrt_floor(c) <= 0x1_0000,
{
    crate::nums::lemma_sqrt_floor_bounds(c);
    let s = sqrt_floor(c);
    assert(s > 0x1_0000 ==> s * s > 0x8000_0000) by (nonlinear_arith);
}

/// Rotation `i` of the reversed-or-forward flag pattern matches the
/// reference pattern: entry `j` of the pattern rotated right by `i`
/// equals reference entry `j`.
pub open spec fn admitted(bits: Seq<bool>, reference: Seq<bool>, i: int) -> bool {
    let n = bits.len() as int;
    bits.len() == reference.len() && forall|j: int|
        0 <= j < n ==> reference[j] == bits[#[trigger] ((j + n - i) % n)]
}

/// Checks one rotation of the flag pattern against the reference.
fn bits_admitted(bits: &Vec<bool>, reference: &Vec<bool>, i: usize) -> (r: bool)
    requires
        bits@.len() == reference@.len(),
        bits@.len() <= 4096,
        0 <= i < bits@.len(),
    ensures
        r == admitted(bits@, reference@, i as int),
{
    let n = bits.len();
    let mut j: usize = 0;
    while j < n
        invariant
            n == bits@.len() == reference@.len(),
            n <= 4096,
            0 <= i < n,
            0 <= j <= n,
            forall|t: int|
                0 <= t < j ==> reference@[t] == bits@[#[trigger] ((t + n as int - i as int) % (
                n as int))],
        decreases n - j,
    {
        let idx = (j + n - i) % n;
        if reference[j] != bits[idx] {
            proof {
                assert(idx as int == (j as int + n as int - i as int) % (n as int));
                assert(!admitted(bits@, reference@, i as int));
            }
            return false;
        }
        j = j + 1;
    }
    true
}

/// The rotated characteristic list starting at node `i` of the given
/// order, together with the forward-order start index it denotes.
pub open spec fn char_model_at(pts: Seq<GlyfPoint>, reverse: bool, i: int) -> CharModel {
    let base = if reverse {
        rev_pts(pts)
    } else {
        pts
    };
    let v = complex_vector(base);
    CharModel {
        rotated: v.skip(4 * i) + v.take(4 * i),
        rotation: if reverse {
            pts.len() - 1 - i
        } else {
            i
        },
        reverse,
    }
}

/// The admissible alignments of one traversal order, in rotation order.
pub open spec fn iso_list(pts: Seq<GlyfPoint>, reverse: bool, k: int) -> Seq<CharModel>
    decreases k,
{
    let base = if reverse {
        rev_pts(pts)
    } else {
        pts
    };
    if k <= 0 {
        Seq::empty()
    } else {
        iso_list(pts, reverse, k - 1) + if admitted(bits_of(base), bits_of(pts), k - 1) {
            seq![char_model_at(pts, reverse, k - 1)]
        } else {
            Seq::empty()
        }
    }
}

/// The duplicate-trailing-node trim the alignment search applies: the
/// closing node is dropped when it repeats the first node on-curve.
pub open spec fn trim_iso(pts: Seq<GlyfPoint>) -> Seq<GlyfPoint> {
    if pts.len() > 1 && pts.first() == pts.last() && pts.first().is_control {
        pts.drop_last()
    } else {
        pts
    }
}

/// The full set of admissible alignments of a contour: all admissible
/// rotations of the forward order, then of the reversed order.
pub open spec fn spec_isomorphisms(pts: Seq<GlyfPoint>) -> Seq<CharModel> {
    let t = trim_iso(pts);
    iso_list(t, false, t.len() as int) + iso_list(t, true, t.len() as int)
}

/// The admissible alignments of one contour.
#[derive(Clone, Debug)]
pub struct Isomorphisms(pub Vec<Characteristic>);

impl View for Isomorphisms {
    type V = Seq<CharModel>;

    open spec fn view(&self) -> Seq<CharModel> {
        self.0@.map_values(|c: Characteristic| char_view(c))
    }
}

/// Every characteristic entry of the set is bounded and every rotated
/// list has the same length.
pub open spec fn iso_wf(iso: Isomorphisms) -> bool {
    forall|i: int|
        0 <= i < iso.0@.len() ==> (#[trigger] iso.0@[i]).rotated_list@.len() <= 0x8000
            && forall|t: int|
            0 <= t < iso.0@[i].rotated_list@.len() ==> -CH_BOUND <= #[trigger] (
            iso.0@[i].rotated_list@[t].0 as int) <= CH_BOUND && -CH_BOUND
                <= iso.0@[i].rotated_list@[t].1 as int <= CH_BOUND
}

fn rotate_pairs(v: &Vec<(i64, i64)>, k: usize) -> (r: Vec<(i64, i64)>)
    requires
        k <= v@.len(),
    ensures
        r@ == v@.skip(k as int) + v@.take(k as int),
        r@.len() == v@.len(),
{
    let n = v.len();
    let mut r: Vec<(i64, i64)> = Vec::new();
    let mut i: usize = k;
    while i < n
        invariant
            k <= n == v@.len(),
            k <= i <= n,
            r@ == v@.subrange(k as int, i as int),
        decreases n - i,
    {
        r.push(v[i]);
        proof {
            assert(r@ =~= v@.subrange(k as int, i + 1));
        }
        i = i + 1;
    }
    let mut j: usize = 0;
    while j < k
        invariant
            k <= n == v@.len(),
            0 <= j <= k,
            r@ == v@.skip(k as int) + v@.take(j as int),
        decreases k - j,
    {
        r.push(v[j]);
        proof {
            assert(r@ =~= v@.skip(k as int) + v@.take(j + 1));
        }
        j = j + 1;
    }
    proof {
        assert(r@ =~= v@.skip(k as int) + v@.take(k as int));
    }
    r
}

fn reversed_points(pts: &Vec<GlyfPoint>) -> (r: Vec<GlyfPoint>)
    ensures
        r@ == rev_pts(pts@),
{
    let n = pts.len();
    let mut r: Vec<GlyfPoint> = Vec::new();
    let mut i: usize = 0;
    while i < n
        invariant
            n == pts@.len(),
            0 <= i <= n,
            r@.len() == i,
            forall|t: int| 0 <= t < i ==> #[trigger] r@[t] == pts@[n - 1 - t],
        decreases n - i,
    {
        r.push(pts[n - 1 - i]);
        i = i + 1;
    }
    proof {
        assert(r@ =~= rev_pts(pts@));
    }
    r
}

/// The flag pattern of the nodes, last node first.
pub fn points_characteristic_bits(pts: &Vec<GlyfPoint>) -> (r: Vec<bool>)
    ensures
        r@ == bits_of(pts@),
{
    let n = pts.len();
    let mut r: Vec<bool> = Vec::new();
    let mut i: usize = 0;
    while i < n
        invariant
            n == pts@.len(),
            0 <= i <= n,
            r@.len() == i,
            forall|t: int| 0 <= t < i ==> #[trigger] r@[t] == pts@[n - 1 - t].is_control,
        decreases n - i,
    {
        r.push(pts[n - 1 - i].is_control);
        i = i + 1;
    }
    proof {
        assert(r@ =~= bits_of(pts@));
    }
    r
}

impl Isomorphisms {
    /// Builds the alignment set of a contour's node list.
    pub fn new(points: &Vec<GlyfPoint>) -> (r: Isomorphisms)
        requires
            points@.len() <= 4096,
            forall|i: int|
                0 <= i < points@.len() ==> (#[trigger] points@[i]).point.in_range(
                    crate::COORD_LIMIT as int,
                ),
        ensures
            r@ == spec_isomorphisms(points@),
            iso_wf(r),
    {
        let trimmed: &Vec<GlyfPoint>;
        let mut own: Vec<GlyfPoint>;
        if points.len() > 1 && {
            let f = points[0];
            let l = points[points.len() - 1];
            f == l && f.is_control
        } {
            own = copy_points(points);
            own.pop();
            proof {
                assert(own@ =~= trim_iso(points@));
            }
            trimmed = &own;
        } else {
            proof {
                assert(points@ == trim_iso(points@));
            }
            trimmed = points;
        }
        let mut iso = Isomorphisms(Vec::new());
        add_isomorphisms(&mut iso, trimmed, false);
        add_isomorphisms(&mut iso, trimmed, true);
        proof {
            assert(iso@ =~= spec_isomorphisms(points@));
        }
        iso
    }

    pub fn len(&self) -> (r: usize)
        ensures
            r == self@.len(),
    {
        self.0.len()
    }

    pub fn get(&self, index: usize) -> (r: Option<&Characteristic>)
        ensures
            match r {
                Some(c) => index < self@.len() && char_view(*c) == self@[index as int],
                None => index >= self@.len(),
            },
    {
        if index < self.0.len() {
            Some(&self.0[index])
        } else {
            None
        }
    }

    /// The alignments, in order: forward rotations first, reversed after.
    pub fn all(&self) -> (r: &Vec<Characteristic>)
        ensures
            r@.map_values(|c: Characteristic| char_view(c)) == self@,
    {
        &self.0
    }
}

fn copy_points(pts: &Vec<GlyfPoint>) -> (r: Vec<GlyfPoint>)
    ensures
        r@ == pts@,
{
    let n = pts.len();
    let mut r: Vec<GlyfPoint> = Vec::new();
    let mut i: usize = 0;
    while i < n
        invariant
            n == pts@.len(),
            0 <= i <= n,
            r@ == pts@.take(i as int),
        decreases n - i,
    {
        r.push(pts[i]);
        proof {
            assert(r@ =~= pts@.take(i + 1));
        }
        i = i + 1;
    }
    proof {
        assert(pts@.take(n as int) =~= pts@);
    }
    r
}

/// Appends every admissible alignment of one traversal order.
fn add_isomorphisms(iso: &mut Isomorphisms, points: &Vec<GlyfPoint>, reverse: bool)
    requires
        points@.len() <= 4096,
        forall|i: int|
            0 <= i < points@.len() ==> (#[trigger] points@[i]).point.in_range(
                crate::COORD_LIMIT as int,
            ),
        iso_wf(*old(iso)),
    ensures
        final(iso)@ == old(iso)@ + iso_list(points@, reverse, points@.len() as int),
        iso_wf(*final(iso)),
{
    let n = points.len();
    let reference_bits = points_characteristic_bits(points);
    let base: Vec<GlyfPoint> = if reverse {
        reversed_points(points)
    } else {
        copy_points(points)
    };
    proof {
        assert(base@ == if reverse {
            rev_pts(points@)
        } else {
            points@
        });
    }
    let bits = points_characteristic_bits(&base);
    let vector = points_complex_vector(&base);
    let mut i: usize = 0;
    while i < n
        invariant
            n == points@.len() <= 4096,
            base@ == if reverse {
                rev_pts(points@)
            } else {
                points@
            },
            bits@ == bits_of(base@),
            reference_bits@ == bits_of(points@),
            vector@.map_values(|p: (i64, i64)| pair_view(p)) == complex_vector(base@),
            vector@.len() == 4 * n,
            forall|t: int|
                0 <= t < vector@.len() ==> -CH_BOUND <= #[trigger] (vector@[t].0 as int)
                    <= CH_BOUND && -CH_BOUND <= vector@[t].1 as int <= CH_BOUND,
            0 <= i <= n,
            iso@ == old(iso)@ + iso_list(points@, reverse, i as int),
            iso_wf(*iso),
        decreases n - i,
    {
        let ghost pre_map = iso@;
        if bits_admitted(&bits, &reference_bits, i) {
            let rotated = rotate_pairs(&vector, 4 * i);
            let rotation = if reverse {
                n - 1 - i
            } else {
                i
            };
            let c = Characteristic { rotated_list: rotated, rotation, reverse };
            proof {
                assert(char_view(c).rotated =~= char_model_at(points@, reverse, i as int).rotated);
                assert(char_view(c) == char_model_at(points@, reverse, i as int));
            }
            proof {
                assert forall|t: int| 0 <= t < c.rotated_list@.len() implies -CH_BOUND <= #[trigger] (
                c.rotated_list@[t].0 as int) <= CH_BOUND && -CH_BOUND <= c.rotated_list@[t].1 as int
                    <= CH_BOUND by {
                    if t < vector@.len() - 4 * i {
                        assert(c.rotated_list@[t] == vector@[4 * i + t]);
                    } else {
                        assert(c.rotated_list@[t] == vector@[t - (vector@.len() - 4 * i)]);
                    }
                }
            }
            iso.0.push(c);
            proof {
                assert(iso@ =~= pre_map.push(char_view(c)));
                assert(iso_wf(*iso));
                assert(iso_list(points@, reverse, i + 1) =~= iso_list(points@, reverse, i as int)
                    + seq![char_model_at(points@, reverse, i as int)]);
                assert(iso@ =~= old(iso)@ + iso_list(points@, reverse, i + 1));
            }
        } else {
            proof {
                assert(iso_list(points@, reverse, i + 1) =~= iso_list(
                    points@,
                    reverse,
                    i as int,
                ));
                assert(iso@ =~= old(iso)@ + iso_list(points@, reverse, i + 1));
            }
        }
        i = i + 1;
    }
}

} // verus!
