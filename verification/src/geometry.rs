use vstd::prelude::*;

verus! {

/// A rectangle on the map, used to characterize a room: `x2 == x1 + width`,
/// `y2 == y1 + height`.
#[derive(Clone, Copy, Debug, PartialEq, Eq, Structural)]
pub struct Rect {
    pub x1: i32,
    pub y1: i32,
    pub x2: i32,
    pub y2: i32,
}

impl Rect {
    /// The rectangle's integer midpoint (floor division).
    pub open spec fn spec_center(self) -> (int, int) {
        ((self.x1 + self.x2) / 2, (self.y1 + self.y2) / 2)
    }

    /// Inclusive-edge intersection test on all four edges.
    pub open spec fn spec_intersects(self, other: Rect) -> bool {
        self.x1 <= other.x2 && self.x2 >= other.x1 && self.y1 <= other.y2 && self.y2 >= other.y1
    }

    pub fn new(x: i32, y: i32, w: i32, h: i32) -> (r: Rect)
        requires
            i32::MIN <= x + w <= i32::MAX,
            i32::MIN <= y + h <= i32::MAX,
        ensures
            r == (Rect { x1: x, y1: y, x2: (x + w) as i32, y2: (y + h) as i32 }),
    {
        Rect { x1: x, y1: y, x2: x + w, y2: y + h }
    }

    pub fn center(&self) -> (c: (i32, i32))
        requires
            0 <= self.x1 + self.x2,
            0 <= self.y1 + self.y2,
        ensures
            (c.0 as int, c.1 as int) == self.spec_center(),
    {
        let cx: i32 = (((self.x1 as i64) + (self.x2 as i64)) / 2) as i32;
        let cy: i32 = (((self.y1 as i64) + (self.y2 as i64)) / 2) as i32;
        (cx, cy)
    }

    pub fn intersects_with(&self, other: &Rect) -> (b: bool)
        ensures
            b == self.spec_intersects(*other),
    {
        (self.x1 <= other.x2) && (self.x2 >= other.x1) && (self.y1 <= other.y2) && (self.y2
            >= other.y1)
    }
}

/// The open interior of a room: the carved floor cells, one short of the
/// rectangle's edges on every side.
pub open spec fn in_interior(room: Rect, x: int, y: int) -> bool {
    room.x1 < x < room.x2 && room.y1 < y < room.y2
}

} // verus!
