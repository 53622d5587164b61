use crate::map::Point;
use vstd::prelude::*;

verus! {

/// An axis-aligned rectangle covering `x1 <= x < x2`, `y1 <= y < y2`.
#[derive(Clone, Copy, Debug, PartialEq, Eq, Structural)]
pub struct Rect {
    pub x1: i32,
    pub x2: i32,
    pub y1: i32,
    pub y2: i32,
}

/// Two rectangles touch or overlap (shared edges count).
pub open spec fn intersects(a: Rect, b: Rect) -> bool {
    a.x1 <= b.x2 && a.x2 >= b.x1 && a.y1 <= b.y2 && a.y2 >= b.y1
}

/// The center of a rectangle, rounded toward the top-left.
pub open spec fn center_spec(r: Rect) -> Point {
    Point { x: ((r.x1 + r.x2) / 2) as i32, y: ((r.y1 + r.y2) / 2) as i32 }
}

/// The point is covered by the rectangle.
pub open spec fn covers(r: Rect, p: Point) -> bool {
    r.x1 <= p.x < r.x2 && r.y1 <= p.y < r.y2
}

impl Rect {
    /// The rectangle with top-left corner `(x, y)`, `w` wide and `h` high.
    pub fn with_size(x: i32, y: i32, w: i32, h: i32) -> (r: Rect)
        requires
            i32::MIN <= x + w <= i32::MAX,
            i32::MIN <= y + h <= i32::MAX,
        ensures
            r == (Rect { x1: x, y1: y, x2: (x + w) as i32, y2: (y + h) as i32 }),
    {
        Rect { x1: x, y1: y, x2: x + w, y2: y + h }
    }

    pub fn intersect(&self, other: &Rect) -> (r: bool)
        ensures
            r == intersects(*self, *other),
    {
        self.x1 <= other.x2 && self.x2 >= other.x1 && self.y1 <= other.y2 && self.y2 >= other.y1
    }

    pub fn center(&self) -> (r: Point)
        requires
            0 <= self.x1 <= self.x2,
            0 <= self.y1 <= self.y2,
        ensures
            r == center_spec(*self),
    {
        Point::new(self.x1 + (self.x2 - self.x1) / 2, self.y1 + (self.y2 - self.y1) / 2)
    }
}

} // verus!
