use vstd::prelude::*;

verus! {

/// A position on the grid.
#[derive(Clone, Copy, Debug, PartialEq, Eq, Structural, Hash)]
pub struct Point {
    pub x: i32,
    pub y: i32,
}

/// Squared Euclidean distance between two points.
pub open spec fn dist_sq(a: Point, b: Point) -> int {
    (a.x - b.x) * (a.x - b.x) + (a.y - b.y) * (a.y - b.y)
}

impl Point {
    pub fn new(x: i32, y: i32) -> (p: Point)
        ensures
            p.x == x,
            p.y == y,
    {
        Point { x, y }
    }

    pub open spec fn zero_spec() -> Point {
        Point { x: 0, y: 0 }
    }

    pub fn zero() -> (p: Point)
        ensures
            p.x == 0,
            p.y == 0,
    {
        Point { x: 0, y: 0 }
    }
}

/// Squared distance, computed exactly for points of a grid of at most
/// 10_000 by 10_000 cells.
pub fn distance_sq(a: Point, b: Point) -> (d: i64)
    requires
        -10_000 <= a.x <= 10_000,
        -10_000 <= a.y <= 10_000,
        -10_000 <= b.x <= 10_000,
        -10_000 <= b.y <= 10_000,
    ensures
        d == dist_sq(a, b),
{
    let dx = a.x as i64 - b.x as i64;
    let dy = a.y as i64 - b.y as i64;
    assert(0 <= dx * dx <= 400_000_000) by (nonlinear_arith)
        requires -20_000 <= dx <= 20_000;
    assert(0 <= dy * dy <= 400_000_000) by (nonlinear_arith)
        requires -20_000 <= dy <= 20_000;
    dx * dx + dy * dy
}

/// Half of `v`, rounded toward zero as Rust's `/` on integers rounds.
pub open spec fn half_toward_zero(v: int) -> int {
    if v >= 0 { v / 2 } else { -((-v) / 2) }
}

fn halve(v: i32) -> (r: i32)
    ensures
        r == half_toward_zero(v as int),
{
    let w = v as i64;
    let h = if w >= 0 { w / 2 } else { -((-w) / 2) };
    h as i32
}

/// An axis-aligned rectangle: `x1..x2` by `y1..y2`, the far edges excluded
/// from its cells.
#[derive(Clone, Copy, Debug, PartialEq, Eq, Structural)]
pub struct Rect {
    pub x1: i32,
    pub x2: i32,
    pub y1: i32,
    pub y2: i32,
}

impl Rect {
    pub open spec fn spec_intersects(self, other: Rect) -> bool {
        self.x1 <= other.x2 && self.x2 >= other.x1 && self.y1 <= other.y2 && self.y2 >= other.y1
    }

    pub open spec fn spec_center(self) -> Point {
        Point { x: half_toward_zero(self.x1 + self.x2) as i32, y: half_toward_zero(self.y1 + self.y2) as i32 }
    }

    /// The cells of the rectangle.
    pub open spec fn contains(self, p: Point) -> bool {
        self.x1 <= p.x < self.x2 && self.y1 <= p.y < self.y2
    }

    pub fn with_size(x: i32, y: i32, w: i32, h: i32) -> (r: Rect)
        requires
            i32::MIN <= x + w <= i32::MAX,
            i32::MIN <= y + h <= i32::MAX,
        ensures
            r == (Rect { x1: x, y1: y, x2: (x + w) as i32, y2: (y + h) as i32 }),
    {
        Rect { x1: x, y1: y, x2: x + w, y2: y + h }
    }

    /// Whether the two rectangles overlap or touch.
    pub fn intersect(&self, other: &Rect) -> (b: bool)
        ensures
            b == self.spec_intersects(*other),
    {
        self.x1 <= other.x2 && self.x2 >= other.x1 && self.y1 <= other.y2 && self.y2 >= other.y1
    }

    /// The center, rounding toward zero as integer division does.
    pub fn center(&self) -> (p: Point)
        requires
            i32::MIN <= self.x1 + self.x2 <= i32::MAX,
            i32::MIN <= self.y1 + self.y2 <= i32::MAX,
        ensures
            p == self.spec_center(),
    {
        Point { x: halve(self.x1 + self.x2), y: halve(self.y1 + self.y2) }
    }

    pub fn point_in_rect(&self, p: Point) -> (b: bool)
        ensures
            b == self.contains(p),
    {
        p.x >= self.x1 && p.x < self.x2 && p.y >= self.y1 && p.y < self.y2
    }
}

} // verus!
