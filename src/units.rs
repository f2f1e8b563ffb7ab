use vstd::prelude::*;

verus! {

/// A 2D value in fixed point: lengths in micrometres, times in microseconds.
#[derive(Clone, Copy, PartialEq, Eq, Structural, Debug)]
pub struct Vec2 {
    pub x: i64,
    pub y: i64,
}

pub type Point = Vec2;

pub type Vector = Vec2;

/// Micrometres in a metre, and microseconds in a second.
pub const UNITS_PER_METRE: i64 = 1_000_000;

/// Largest magnitude of a coordinate that the library computes with.
pub const COORD_LIMIT: i64 = 0x1000_0000_0000_0000;

pub open spec fn coord_in_range(v: int) -> bool {
    -COORD_LIMIT <= v <= COORD_LIMIT
}

pub open spec fn point_in_range(p: Vec2) -> bool {
    coord_in_range(p.x as int) && coord_in_range(p.y as int)
}

/// Squared Euclidean distance of two points.
pub open spec fn dist_sq(p: Point, q: Point) -> int {
    (p.x - q.x) * (p.x - q.x) + (p.y - q.y) * (p.y - q.y)
}

impl Vec2 {
    pub fn new(x: i64, y: i64) -> (r: Vec2)
        ensures
            r.x == x,
            r.y == y,
    {
        Vec2 { x, y }
    }


    /// Whether both coordinates lie within `COORD_LIMIT`.
    pub fn in_range(&self) -> (r: bool)
        ensures
            r == point_in_range(*self),
    {
        -COORD_LIMIT <= self.x && self.x <= COORD_LIMIT && -COORD_LIMIT <= self.y && self.y
            <= COORD_LIMIT
    }
}

/// Axis-aligned rectangle: lower left corner `(x, y)`, width `w` and height `h`, in micrometres.
#[derive(Clone, Copy, PartialEq, Eq, Structural, Debug)]
pub struct Rect {
    pub x: i64,
    pub y: i64,
    pub w: i64,
    pub h: i64,
}

impl Rect {
    pub fn new(x: i64, y: i64, w: i64, h: i64) -> (r: Rect)
        ensures
            r == (Rect { x, y, w, h }),
    {
        Rect { x, y, w, h }
    }
}

pub fn distance_squared(p: Point, q: Point) -> (r: i128)
    requires
        point_in_range(p),
        point_in_range(q),
    ensures
        r == dist_sq(p, q),
{
    let dx = p.x as i128 - q.x as i128;
    let dy = p.y as i128 - q.y as i128;
    assert(0 <= dx * dx <= 0x400_0000_0000_0000_0000_0000_0000_0000) by (nonlinear_arith)
        requires -0x2000_0000_0000_0000 <= dx <= 0x2000_0000_0000_0000;
    assert(0 <= dy * dy <= 0x400_0000_0000_0000_0000_0000_0000_0000) by (nonlinear_arith)
        requires -0x2000_0000_0000_0000 <= dy <= 0x2000_0000_0000_0000;
    dx * dx + dy * dy
}

} // verus!
