//! Integer positions and the intersection test for axis-aligned boxes.

use vstd::prelude::*;

verus! {

/// A cell of the grid: `x` and `y` on the canvas, `z` the layer.
#[derive(Clone, Copy, PartialEq, Eq, Debug, Structural)]
pub struct Position {
    pub x: i16,
    pub y: i16,
    pub z: i16,
}

impl Default for Position {
    fn default() -> (r: Self)
        ensures
            r == (Position { x: 0, y: 0, z: 0 }),
    {
        Position { x: 0, y: 0, z: 0 }
    }
}

/// An axis-aligned box over the mathematical integers: an origin and three
/// extents. The box is the model that the intersection laws speak of.
pub struct Box3 {
    pub x: int,
    pub y: int,
    pub z: int,
    pub width: int,
    pub height: int,
    pub depth: int,
}

impl Box3 {
    /// The box moved by `(dx, dy, dz)`, extents unchanged.
    pub open spec fn shifted(self, dx: int, dy: int, dz: int) -> Box3 {
        Box3 { x: self.x + dx, y: self.y + dy, z: self.z + dz, ..self }
    }

    /// No extent is negative.
    pub open spec fn valid(self) -> bool {
        self.width >= 0 && self.height >= 0 && self.depth >= 0
    }

    /// Every extent is positive.
    pub open spec fn solid(self) -> bool {
        self.width > 0 && self.height > 0 && self.depth > 0
    }
}

/// Whether the span that starts at `a` and is `a_len` long meets the span that
/// starts at `b` and is `b_len` long: one of the two origins lies inside the
/// other span, the end of a span not being part of it.
pub open spec fn spans_overlap(a: int, a_len: int, b: int, b_len: int) -> bool {
    (b <= a && a < b + b_len) || (a <= b && b < a + a_len)
}

/// Two boxes intersect when their spans overlap on all three axes. The span
/// along `x` is as long as the box's height and the span along `y` as long as
/// its width; along `z` it is the depth.
pub open spec fn boxes_intersect(a: Box3, b: Box3) -> bool {
    &&& spans_overlap(a.x, a.height, b.x, b.height)
    &&& spans_overlap(a.y, a.width, b.y, b.width)
    &&& spans_overlap(a.z, a.depth, b.z, b.depth)
}

/// The overlap test on one axis, for coordinates and extents of the grid.
pub fn coord_intersects(my_coord: i16, other_coord: i16, my_d3: i16, other_d3: i16) -> (r: bool)
    ensures
        r == spans_overlap(my_coord as int, my_d3 as int, other_coord as int, other_d3 as int),
{
    let mine: i32 = my_coord as i32;
    let theirs: i32 = other_coord as i32;
    let my_end: i32 = mine + my_d3 as i32;
    let their_end: i32 = theirs + other_d3 as i32;
    (theirs <= mine && mine < their_end) || (mine <= theirs && theirs < my_end)
}

/// The overlap of two spans does not depend on which one is named first.
pub proof fn lemma_spans_overlap_symmetric(a: int, a_len: int, b: int, b_len: int)
    ensures
        spans_overlap(a, a_len, b, b_len) == spans_overlap(b, b_len, a, a_len),
{
}

/// The point `p` lies in the span that starts at `start` and is `len` long.
/// The end of a span is not part of it.
pub open spec fn in_span(start: int, len: int, p: int) -> bool {
    start <= p < start + len
}

/// Two spans of positive length overlap exactly when some point lies in both.
pub proof fn lemma_spans_overlap_common_point(a: int, a_len: int, b: int, b_len: int)
    requires
        a_len > 0,
        b_len > 0,
    ensures
        spans_overlap(a, a_len, b, b_len) <==> exists|p: int|
            #[trigger] in_span(a, a_len, p) && in_span(b, b_len, p),
{
    if spans_overlap(a, a_len, b, b_len) {
        let p: int = if b <= a {
            a
        } else {
            b
        };
        assert(in_span(a, a_len, p) && in_span(b, b_len, p));
    }
}

/// Intersection is symmetric: `a` meets `b` exactly when `b` meets `a`.
pub proof fn lemma_intersect_symmetric(a: Box3, b: Box3)
    ensures
        boxes_intersect(a, b) == boxes_intersect(b, a),
{
}

/// Two boxes at the same position, each with positive extents, intersect.
pub proof fn lemma_same_origin_intersects(a: Box3, b: Box3)
    requires
        a.x == b.x,
        a.y == b.y,
        a.z == b.z,
        a.solid(),
        b.solid(),
    ensures
        boxes_intersect(a, b),
{
}

/// Moving `b` by the extents of `a` (the height along `x`, the width along
/// `y`, the depth along `z`) parts two intersecting boxes exactly when, on
/// some axis, `b` did not start before `a` and `a` has a positive extent
/// there: the end of a span is not part of it. Where `b` starts before `a`
/// on every axis the moved box still reaches into `a`.
pub proof fn lemma_shift_by_extent_separates(a: Box3, b: Box3)
    requires
        a.valid(),
        b.valid(),
        boxes_intersect(a, b),
    ensures
        !boxes_intersect(a, b.shifted(a.height, a.width, a.depth)) <==> {
            ||| (b.x >= a.x && a.height > 0)
            ||| (b.y >= a.y && a.width > 0)
            ||| (b.z >= a.z && a.depth > 0)
        },
{
}

} // verus!
