//! Axis-aligned rectangles used for room placement.

use vstd::prelude::*;

verus! {

/// An axis-aligned rectangle on the tile grid, stored by its corner
/// coordinates: `(x1, y1)` is the top-left corner, `(x2, y2)` the
/// bottom-right one.
#[derive(Clone, Copy, PartialEq, Eq, Structural, Debug)]
pub struct Rect {
    pub x1: i32,
    pub y1: i32,
    pub x2: i32,
    pub y2: i32,
}

impl Rect {
    /// A rectangle is well formed when its corners are ordered and its
    /// coordinates stay far from the `i32` limits, so that the arithmetic
    /// on room outlines cannot overflow.
    pub open spec fn wf(self) -> bool {
        &&& 0 <= self.x1 <= self.x2 < 0x1000
        &&& 0 <= self.y1 <= self.y2 < 0x1000
    }

    /// Whether two rectangles share at least one point.
    pub open spec fn spec_intersect(self, other: Rect) -> bool {
        self.x1 <= other.x2 && self.x2 >= other.x1 && self.y1 <= other.y2 && self.y2 >= other.y1
    }

    /// Whether the point `(x, y)` lies strictly inside the rectangle.
    pub open spec fn spec_inside(self, x: int, y: int) -> bool {
        self.x1 < x < self.x2 && self.y1 < y < self.y2
    }

    /// Builds a rectangle from a corner and a width and height.
    pub fn new(x: i32, y: i32, w: i32, h: i32) -> (r: Rect)
        requires
            0 <= x,
            0 <= y,
            0 <= w,
            0 <= h,
            x + w < 0x1000,
            y + h < 0x1000,
        ensures
            r.x1 == x,
            r.y1 == y,
            r.x2 == x + w,
            r.y2 == y + h,
            r.wf(),
    {
        Rect { x1: x, y1: y, x2: x + w, y2: y + h }
    }

    /// Reports whether this rectangle overlaps `other`.
    pub fn intersect(&self, other: &Rect) -> (r: bool)
        requires
            self.wf(),
            other.wf(),
        ensures
            r == self.spec_intersect(*other),
    {
        self.x1 <= other.x2 && self.x2 >= other.x1 && self.y1 <= other.y2 && self.y2 >= other.y1
    }

    /// Returns the centre point of the rectangle.
    pub fn center(&self) -> (r: (i32, i32))
        requires
            self.wf(),
        ensures
            r.0 == (self.x1 + self.x2) / 2,
            r.1 == (self.y1 + self.y2) / 2,
    {
        ((self.x1 + self.x2) / 2, (self.y1 + self.y2) / 2)
    }

    /// Reports whether the point lies strictly inside the rectangle.
    pub fn inside(&self, point: (i32, i32)) -> (r: bool)
        requires
            self.wf(),
        ensures
            r == self.spec_inside(point.0 as int, point.1 as int),
    {
        self.x1 < point.0 && point.0 < self.x2 && self.y1 < point.1 && point.1 < self.y2
    }
}

} // verus!
