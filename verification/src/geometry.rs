//! Bézier path primitives on the integer font-unit grid: points, path
//! elements, a pen-style path builder, midpoint interpolation and the
//! extraction of node lists from paths.

use vstd::prelude::*;

use crate::COORD_LIMIT;

verus! {

/// A point on the integer font-unit grid.
#[derive(Clone, Copy, Debug, PartialEq, Eq, Structural)]
pub struct Point {
    pub x: i64,
    pub y: i64,
}

impl Point {
    pub open spec fn in_range(self, bound: int) -> bool {
        -bound <= self.x <= bound && -bound <= self.y <= bound
    }

    pub fn new(x: i64, y: i64) -> (r: Point)
        ensures
            r == (Point { x, y }),
    {
        Point { x, y }
    }
}

/// One Bézier path element.
#[derive(Clone, Copy, Debug, PartialEq, Eq, Structural)]
pub enum PathEl {
    MoveTo(Point),
    LineTo(Point),
    QuadTo(Point, Point),
    CurveTo(Point, Point, Point),
    ClosePath,
}

impl PathEl {
    /// Every coordinate of the element lies within `bound`.
    pub open spec fn in_range(self, bound: int) -> bool {
        match self {
            PathEl::MoveTo(p) => p.in_range(bound),
            PathEl::LineTo(p) => p.in_range(bound),
            PathEl::QuadTo(p0, p1) => p0.in_range(bound) && p1.in_range(bound),
            PathEl::CurveTo(p0, p1, p2) => p0.in_range(bound) && p1.in_range(bound) && p2.in_range(
                bound,
            ),
            PathEl::ClosePath => true,
        }
    }

    /// Two elements are of the same kind (same constructor).
    pub open spec fn same_kind(self, other: PathEl) -> bool {
        match (self, other) {
            (PathEl::MoveTo(_), PathEl::MoveTo(_)) => true,
            (PathEl::LineTo(_), PathEl::LineTo(_)) => true,
            (PathEl::QuadTo(_, _), PathEl::QuadTo(_, _)) => true,
            (PathEl::CurveTo(_, _, _), PathEl::CurveTo(_, _, _)) => true,
            (PathEl::ClosePath, PathEl::ClosePath) => true,
            _ => false,
        }
    }
}

/// A node of a contour: a grid point together with its on-curve flag.
/// `is_control` is true for on-curve nodes, false for Bézier handles.
#[derive(Clone, Copy, Debug, PartialEq, Eq, Structural)]
pub struct GlyfPoint {
    pub point: Point,
    pub is_control: bool,
}

impl GlyfPoint {
    pub fn offcurve(pt: Point) -> (r: GlyfPoint)
        ensures
            r == (GlyfPoint { point: pt, is_control: false }),
    {
        GlyfPoint { point: pt, is_control: false }
    }

    pub fn oncurve(pt: Point) -> (r: GlyfPoint)
        ensures
            r == (GlyfPoint { point: pt, is_control: true }),
    {
        GlyfPoint { point: pt, is_control: true }
    }
}

/// One contour of a glyph, as an ordered sequence of path elements.
#[derive(Clone, Debug)]
pub struct BezPath(pub Vec<PathEl>);

impl View for BezPath {
    type V = Seq<PathEl>;

    open spec fn view(&self) -> Seq<PathEl> {
        self.0@
    }
}

impl BezPath {
    /// Every coordinate of the path lies within `bound`.
    pub open spec fn in_range(self, bound: int) -> bool {
        forall|i: int| 0 <= i < self@.len() ==> (#[trigger] self@[i]).in_range(bound)
    }

    pub fn new() -> (r: BezPath)
        ensures
            r@ == Seq::<PathEl>::empty(),
    {
        BezPath(Vec::new())
    }

    pub fn push(&mut self, el: PathEl)
        ensures
            final(self)@ == old(self)@.push(el),
    {
        self.0.push(el);
    }

    pub fn move_to(&mut self, p: Point)
        ensures
            final(self)@ == old(self)@.push(PathEl::MoveTo(p)),
    {
        self.0.push(PathEl::MoveTo(p));
    }

    pub fn line_to(&mut self, p: Point)
        ensures
            final(self)@ == old(self)@.push(PathEl::LineTo(p)),
    {
        self.0.push(PathEl::LineTo(p));
    }

    pub fn quad_to(&mut self, p0: Point, p1: Point)
        ensures
            final(self)@ == old(self)@.push(PathEl::QuadTo(p0, p1)),
    {
        self.0.push(PathEl::QuadTo(p0, p1));
    }

    pub fn curve_to(&mut self, p0: Point, p1: Point, p2: Point)
        ensures
            final(self)@ == old(self)@.push(PathEl::CurveTo(p0, p1, p2)),
    {
        self.0.push(PathEl::CurveTo(p0, p1, p2));
    }

    pub fn close_path(&mut self)
        ensures
            final(self)@ == old(self)@.push(PathEl::ClosePath),
    {
        self.0.push(PathEl::ClosePath);
    }

    pub fn elements(&self) -> (r: &Vec<PathEl>)
        ensures
            r@ == self@,
    {
        &self.0
    }

    pub fn len(&self) -> (r: usize)
        ensures
            r == self@.len(),
    {
        self.0.len()
    }
}

/// A collection of contours, built pen-style: `move_to` opens a new
/// contour, the other drawing operations extend the current one.
#[derive(Clone, Debug)]
pub struct BezGlyph(pub Vec<BezPath>);

impl View for BezGlyph {
    type V = Seq<Seq<PathEl>>;

    open spec fn view(&self) -> Seq<Seq<PathEl>> {
        self.0@.map_values(|p: BezPath| p@)
    }
}

impl BezGlyph {
    pub fn new() -> (r: BezGlyph)
        ensures
            r@ == Seq::<Seq<PathEl>>::empty(),
    {
        BezGlyph(Vec::new())
    }

    /// Creates a glyph from an ordered sequence of contours.
    pub fn new_from_paths(b: Vec<BezPath>) -> (r: BezGlyph)
        ensures
            r.0@ == b@,
    {
        BezGlyph(b)
    }

    /// Opens a new, empty contour, which becomes the current one.
    pub fn next(&mut self)
        ensures
            final(self)@ == old(self)@.push(Seq::<PathEl>::empty()),
    {
        self.0.push(BezPath::new());
        proof {
            assert(self@ =~~= old(self)@.push(Seq::<PathEl>::empty()));
        }
    }

    /// Makes sure a current contour exists, opening an empty one when the
    /// glyph has none.
    pub fn current(&mut self)
        ensures
            old(self)@.len() > 0 ==> final(self)@ == old(self)@,
            old(self)@.len() == 0 ==> final(self)@ == old(self)@.push(Seq::<PathEl>::empty()),
            final(self)@.len() > 0,
    {
        if self.0.len() == 0 {
            self.next();
        } else {
            proof {
                assert(self@ =~~= old(self)@);
            }
        }
    }

    /// Appends `el` to the current contour, opening one if none exists.
    pub fn push_el(&mut self, el: PathEl)
        ensures
            old(self)@.len() == 0 ==> final(self)@ == old(self)@.push(seq![el]),
            old(self)@.len() > 0 ==> final(self)@ == old(self)@.update(
                old(self)@.len() - 1,
                old(self)@.last().push(el),
            ),
    {
        self.current();
        let ghost mid = self.0@;
        proof {
            assert(self@.len() == self.0@.len());
        }
        let popped = self.0.pop();
        match popped {
            Some(mut cur) => {
                proof {
                    assert(cur == mid[mid.len() - 1]);
                    assert(self.0@ == mid.subrange(0, mid.len() - 1));
                }
                cur.push(el);
                self.0.push(cur);
                proof {
                    assert(self.0@ =~= mid.subrange(0, mid.len() - 1).push(cur));
                    assert(cur@ == mid[mid.len() - 1]@.push(el));
                    assert forall|i: int| 0 <= i < self@.len() implies #[trigger] self@[i]
                        == self.0@[i]@ by {}
                    if old(self)@.len() == 0 {
                        assert(mid[mid.len() - 1]@ == old(self)@.push(Seq::<PathEl>::empty()).last());
                        assert(self@ =~~= old(self)@.push(seq![el]));
                    } else {
                        assert(self@ =~~= old(self)@.update(
                            old(self)@.len() - 1,
                            old(self)@.last().push(el),
                        ));
                    }
                }
            },
            None => {
                proof {
                    assert(false);
                }
            },
        }
    }

    pub fn paths(&self) -> (r: &Vec<BezPath>)
        ensures
            r@ == self.0@,
    {
        &self.0
    }

    pub fn len(&self) -> (r: usize)
        ensures
            r == self@.len(),
    {
        self.0.len()
    }
}

/// Two element sequences have the same length and elementwise the same
/// kind, so they can be interpolated.
pub open spec fn els_compatible(a: Seq<PathEl>, b: Seq<PathEl>) -> bool {
    a.len() == b.len() && forall|i: int| 0 <= i < a.len() ==> (#[trigger] a[i]).same_kind(b[i])
}

/// The elementwise midpoint of two compatible elements, kept integral by
/// doubling: each output coordinate is the sum of the two inputs, so the
/// result describes the midway shape at twice the scale.
pub open spec fn el_midpoint(a: PathEl, b: PathEl) -> PathEl {
    match (a, b) {
        (PathEl::MoveTo(p), PathEl::MoveTo(q)) => PathEl::MoveTo(point_sum(p, q)),
        (PathEl::LineTo(p), PathEl::LineTo(q)) => PathEl::LineTo(point_sum(p, q)),
        (PathEl::QuadTo(p0, p1), PathEl::QuadTo(q0, q1)) => PathEl::QuadTo(
            point_sum(p0, q0),
            point_sum(p1, q1),
        ),
        (PathEl::CurveTo(p0, p1, p2), PathEl::CurveTo(q0, q1, q2)) => PathEl::CurveTo(
            point_sum(p0, q0),
            point_sum(p1, q1),
            point_sum(p2, q2),
        ),
        _ => PathEl::ClosePath,
    }
}

pub open spec fn point_sum(p: Point, q: Point) -> Point {
    Point { x: (p.x + q.x) as i64, y: (p.y + q.y) as i64 }
}

fn point_sum_exec(p: Point, q: Point) -> (r: Point)
    requires
        p.in_range(COORD_LIMIT as int),
        q.in_range(COORD_LIMIT as int),
    ensures
        r == point_sum(p, q),
        r.in_range(2 * COORD_LIMIT as int),
{
    Point { x: p.x + q.x, y: p.y + q.y }
}

/// The elementwise midpoint of two compatible paths, at twice the scale
/// (see `el_midpoint`); `None` when the paths differ in length or in the
/// kind of any element.
pub open spec fn spec_midpoint_curve(a: Seq<PathEl>, b: Seq<PathEl>) -> Option<Seq<PathEl>> {
    if els_compatible(a, b) {
        Some(Seq::new(a.len(), |i: int| el_midpoint(a[i], b[i])))
    } else {
        None
    }
}

/// Computes the midway shape of two contours (at twice the scale), or
/// `None` when their structures are incompatible.
pub fn midpoint_curve(a: &BezPath, b: &BezPath) -> (r: Option<BezPath>)
    requires
        a.in_range(COORD_LIMIT as int),
        b.in_range(COORD_LIMIT as int),
    ensures
        match r {
            Some(mid) => Some(mid@) == spec_midpoint_curve(a@, b@) && mid.in_range(
                2 * COORD_LIMIT as int,
            ),
            None => spec_midpoint_curve(a@, b@) is None,
        },
{
    if a.0.len() != b.0.len() {
        assert(!els_compatible(a@, b@));
        return None;
    }
    let n = a.0.len();
    let mut out: BezPath = BezPath::new();
    let mut i: usize = 0;
    while i < n
        invariant
            n == a@.len() == b@.len(),
            0 <= i <= n,
            a.in_range(COORD_LIMIT as int),
            b.in_range(COORD_LIMIT as int),
            out.in_range(2 * COORD_LIMIT as int),
            out@.len() == i,
            forall|j: int|
                0 <= j < i ==> (#[trigger] a@[j]).same_kind(b@[j]) && out@[j] == el_midpoint(
                    a@[j],
                    b@[j],
                ),
        decreases n - i,
    {
        let ea = a.0[i];
        let eb = b.0[i];
        let mid: PathEl = match (ea, eb) {
            (PathEl::MoveTo(p), PathEl::MoveTo(q)) => PathEl::MoveTo(point_sum_exec(p, q)),
            (PathEl::LineTo(p), PathEl::LineTo(q)) => PathEl::LineTo(point_sum_exec(p, q)),
            (PathEl::QuadTo(p0, p1), PathEl::QuadTo(q0, q1)) => PathEl::QuadTo(
                point_sum_exec(p0, q0),
                point_sum_exec(p1, q1),
            ),
            (PathEl::CurveTo(p0, p1, p2), PathEl::CurveTo(q0, q1, q2)) => PathEl::CurveTo(
                point_sum_exec(p0, q0),
                point_sum_exec(p1, q1),
                point_sum_exec(p2, q2),
            ),
            (PathEl::ClosePath, PathEl::ClosePath) => PathEl::ClosePath,
            _ => {
                assert(!(a@[i as int]).same_kind(b@[i as int]));
                assert(!els_compatible(a@, b@));
                return None;
            },
        };
        out.push(mid);
        i = i + 1;
    }
    proof {
        assert(els_compatible(a@, b@));
        assert(out@ =~= spec_midpoint_curve(a@, b@)->Some_0);
    }
    Some(out)
}

/// The nodes contributed by one path element: on-curve points for line
/// and move targets, handles (off-curve) then the on-curve endpoint for
/// quadratic and cubic segments, nothing for a close.
pub open spec fn el_points(el: PathEl) -> Seq<GlyfPoint> {
    match el {
        PathEl::MoveTo(p) => seq![GlyfPoint { point: p, is_control: true }],
        PathEl::LineTo(p) => seq![GlyfPoint { point: p, is_control: true }],
        PathEl::QuadTo(p0, p1) => seq![
            GlyfPoint { point: p0, is_control: false },
            GlyfPoint { point: p1, is_control: true },
        ],
        PathEl::CurveTo(p0, p1, p2) => seq![
            GlyfPoint { point: p0, is_control: false },
            GlyfPoint { point: p1, is_control: false },
            GlyfPoint { point: p2, is_control: true },
        ],
        PathEl::ClosePath => seq![],
    }
}

/// All nodes of a path, in order.
pub open spec fn raw_points(els: Seq<PathEl>) -> Seq<GlyfPoint>
    decreases els.len(),
{
    if els.len() == 0 {
        Seq::empty()
    } else {
        raw_points(els.drop_last()) + el_points(els.last())
    }
}

/// Drops the duplicate trailing node of a closed contour, so that the
/// node list is cyclic without repetition.
pub open spec fn trim_points(pts: Seq<GlyfPoint>) -> Seq<GlyfPoint> {
    if pts.len() > 1 && pts.first() == pts.last() {
        pts.drop_last()
    } else {
        pts
    }
}

pub open spec fn spec_path_points(els: Seq<PathEl>) -> Seq<GlyfPoint> {
    trim_points(raw_points(els))
}

/// Extracts the node list of one contour: each element's points with
/// their on-curve flags, with a duplicated closing node dropped.
pub fn path_points(path: &BezPath) -> (r: Vec<GlyfPoint>)
    ensures
        r@ == spec_path_points(path@),
{
    let mut pts = path_points_raw(path);
    if pts.len() > 1 {
        let first = pts[0];
        let last = pts[pts.len() - 1];
        if first == last {
            pts.pop();
            proof {
                assert(pts@ =~= trim_points(raw_points(path@)));
            }
        }
    }
    pts
}

/// Extracts every node of the path in order, keeping a duplicated
/// closing node; this is the node list the control-polygon statistics
/// are taken over.
pub fn path_points_raw(path: &BezPath) -> (r: Vec<GlyfPoint>)
    ensures
        r@ == raw_points(path@),
{
    let n = path.0.len();
    let mut pts: Vec<GlyfPoint> = Vec::new();
    let mut i: usize = 0;
    proof {
        assert(path@.take(0) =~= Seq::<PathEl>::empty());
    }
    while i < n
        invariant
            n == path@.len(),
            0 <= i <= n,
            pts@ == raw_points(path@.take(i as int)),
        decreases n - i,
    {
        let ghost pre = pts@;
        match path.0[i] {
            PathEl::MoveTo(p) => {
                pts.push(GlyfPoint { point: p, is_control: true });
            },
            PathEl::LineTo(p) => {
                pts.push(GlyfPoint { point: p, is_control: true });
            },
            PathEl::QuadTo(p0, p1) => {
                pts.push(GlyfPoint { point: p0, is_control: false });
                pts.push(GlyfPoint { point: p1, is_control: true });
            },
            PathEl::CurveTo(p0, p1, p2) => {
                pts.push(GlyfPoint { point: p0, is_control: false });
                pts.push(GlyfPoint { point: p1, is_control: false });
                pts.push(GlyfPoint { point: p2, is_control: true });
            },
            PathEl::ClosePath => {},
        }
        proof {
            assert(path@.take(i + 1).drop_last() =~= path@.take(i as int));
            assert(path@.take(i + 1).last() == path@[i as int]);
            assert(pts@ =~= pre + el_points(path@[i as int]));
        }
        i = i + 1;
    }
    proof {
        assert(path@.take(n as int) =~= path@);
    }
    pts
}


/// The nodes of a bounded path are bounded, and there are at most three
/// per element.
pub proof fn lemma_raw_points_props(els: Seq<PathEl>, bound: int)
    requires
        forall|i: int| 0 <= i < els.len() ==> (#[trigger] els[i]).in_range(bound),
    ensures
        raw_points(els).len() <= 3 * els.len(),
        forall|i: int|
            0 <= i < raw_points(els).len() ==> (#[trigger] raw_points(els)[i]).point.in_range(
                bound,
            ),
    decreases els.len(),
{
    if els.len() > 0 {
        assert(forall|i: int|
            0 <= i < els.drop_last().len() ==> (#[trigger] els.drop_last()[i]).in_range(bound));
        lemma_raw_points_props(els.drop_last(), bound);
        assert(els.last().in_range(bound));
        assert forall|i: int| 0 <= i < raw_points(els).len() implies (#[trigger] raw_points(
            els,
        )[i]).point.in_range(bound) by {
            if i < raw_points(els.drop_last()).len() {
                assert(raw_points(els)[i] == raw_points(els.drop_last())[i]);
            } else {
                assert(raw_points(els)[i] == el_points(els.last())[i - raw_points(
                    els.drop_last(),
                ).len()]);
            }
        }
    }
}

/// Trimming keeps the nodes a subset of the untrimmed nodes.
pub proof fn lemma_trim_points_props(pts: Seq<GlyfPoint>, bound: int)
    requires
        forall|i: int| 0 <= i < pts.len() ==> (#[trigger] pts[i]).point.in_range(bound),
    ensures
        trim_points(pts).len() <= pts.len(),
        forall|i: int|
            0 <= i < trim_points(pts).len() ==> (#[trigger] trim_points(pts)[i]).point.in_range(
                bound,
            ),
{
    if pts.len() > 1 && pts.first() == pts.last() {
        assert forall|i: int| 0 <= i < trim_points(pts).len() implies (#[trigger] trim_points(
            pts,
        )[i]).point.in_range(bound) by {
            assert(trim_points(pts)[i] == pts[i]);
        }
    }
}

} // verus!
