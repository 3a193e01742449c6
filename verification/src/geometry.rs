//! Grid geometry: tile coordinates, squared distances and room rectangles.

use vstd::prelude::*;

verus! {

/// A tile coordinate.
#[derive(Clone, Copy, Debug, PartialEq, Eq, Structural)]
pub struct Position {
    pub x: i32,
    pub y: i32,
}

/// Squared Euclidean distance between two points.
pub open spec fn spec_distance_squared(ax: int, ay: int, bx: int, by: int) -> int {
    (ax - bx) * (ax - bx) + (ay - by) * (ay - by)
}

/// Whether the Euclidean distance between the points is at most `range`.
pub open spec fn spec_within_range(ax: int, ay: int, bx: int, by: int, range: int) -> bool {
    range >= 0 && spec_distance_squared(ax, ay, bx, by) <= range * range
}

/// Whether the Euclidean distance between the points is below one and a half
/// tiles, which for whole coordinates means a squared distance of at most two.
pub open spec fn spec_adjacent(ax: int, ay: int, bx: int, by: int) -> bool {
    spec_distance_squared(ax, ay, bx, by) <= 2
}

/// Squared Euclidean distance between two points.
pub fn distance_squared(a: Position, b: Position) -> (d: i128)
    ensures
        d == spec_distance_squared(a.x as int, a.y as int, b.x as int, b.y as int),
        0 <= d,
{
    let dx: i128 = a.x as i128 - b.x as i128;
    let dy: i128 = a.y as i128 - b.y as i128;
    assert(0 <= dx * dx <= 0x1_0000_0000_0000_0000 && 0 <= dy * dy <= 0x1_0000_0000_0000_0000)
        by (nonlinear_arith)
        requires
            -0x1_0000_0000 <= dx <= 0x1_0000_0000,
            -0x1_0000_0000 <= dy <= 0x1_0000_0000,
    ;
    dx * dx + dy * dy
}

/// Whether `b` lies within `range` tiles of `a`, by Euclidean distance.
/// A negative range contains nothing.
pub fn within_range(a: Position, b: Position, range: i32) -> (r: bool)
    ensures
        r == spec_within_range(a.x as int, a.y as int, b.x as int, b.y as int, range as int),
{
    if range < 0 {
        return false;
    }
    let d: i128 = distance_squared(a, b);
    let r: i128 = range as i128;
    assert(0 <= r * r <= 0x4000_0000_0000_0000) by (nonlinear_arith)
        requires
            0 <= r <= 0x7fff_ffff,
    ;
    d <= r * r
}

/// Whether `b` is close enough to `a` for a melee blow: the same tile or one
/// of its eight neighbours.
pub fn adjacent(a: Position, b: Position) -> (r: bool)
    ensures
        r == spec_adjacent(a.x as int, a.y as int, b.x as int, b.y as int),
{
    distance_squared(a, b) <= 2
}

/// An axis-aligned rectangle given by two corners, `x1 <= x2` and `y1 <= y2`
/// for every rectangle that `Rect::new` makes from a non-negative size.
#[derive(Clone, Copy, Debug, PartialEq, Eq, Structural)]
pub struct Rect {
    pub x1: i32,
    pub x2: i32,
    pub y1: i32,
    pub y2: i32,
}

impl Rect {
    /// Whether the two rectangles share a point, borders included.
    pub open spec fn spec_intersect(self, other: Rect) -> bool {
        self.x1 <= other.x2 && self.x2 >= other.x1 && self.y1 <= other.y2 && self.y2 >= other.y1
    }

    pub open spec fn spec_center_x(self) -> int {
        (self.x1 + self.x2) / 2
    }

    pub open spec fn spec_center_y(self) -> int {
        (self.y1 + self.y2) / 2
    }

    /// Whether the point lies in the part of the rectangle that becomes
    /// floor: every column right of `x1` up to `x2`, every row below `y1`
    /// up to `y2`.
    pub open spec fn spec_interior(self, x: int, y: int) -> bool {
        self.x1 < x <= self.x2 && self.y1 < y <= self.y2
    }

    /// Whether the point lies in the rectangle, borders included.
    pub open spec fn spec_contains(self, x: int, y: int) -> bool {
        self.x1 <= x <= self.x2 && self.y1 <= y <= self.y2
    }

    /// The rectangle's corners are ordered and not negative.
    pub open spec fn spec_ordered(self) -> bool {
        0 <= self.x1 <= self.x2 && 0 <= self.y1 <= self.y2
    }

    /// The rectangle with corner `(x, y)`, `w` wide and `h` high.
    pub fn new(x: i32, y: i32, w: i32, h: i32) -> (r: Rect)
        requires
            i32::MIN <= x + w <= i32::MAX,
            i32::MIN <= y + h <= i32::MAX,
        ensures
            r == (Rect { x1: x, x2: (x + w) as i32, y1: y, y2: (y + h) as i32 }),
    {
        Rect { x1: x, x2: x + w, y1: y, y2: y + h }
    }

    pub fn intersect(&self, other: &Rect) -> (r: bool)
        ensures
            r == self.spec_intersect(*other),
    {
        self.x1 <= other.x2 && self.x2 >= other.x1 && self.y1 <= other.y2 && self.y2 >= other.y1
    }

    /// The middle of the rectangle, rounded towards the first corner.
    pub fn center(&self) -> (c: (i32, i32))
        requires
            self.spec_ordered(),
        ensures
            c.0 == self.spec_center_x(),
            c.1 == self.spec_center_y(),
            self.spec_contains(c.0 as int, c.1 as int),
    {
        let cx: i64 = (self.x1 as i64 + self.x2 as i64) / 2;
        let cy: i64 = (self.y1 as i64 + self.y2 as i64) / 2;
        (cx as i32, cy as i32)
    }
}

/// Two rectangles that hold a common point intersect.
pub proof fn lemma_common_point_intersects(a: Rect, b: Rect, x: int, y: int)
    requires
        a.spec_contains(x, y),
        b.spec_contains(x, y),
    ensures
        a.spec_intersect(b),
{
}

/// Intersection does not depend on the order of the two rectangles.
pub proof fn lemma_intersect_symmetric(a: Rect, b: Rect)
    ensures
        a.spec_intersect(b) == b.spec_intersect(a),
{
}

} // verus!
