//! Rectangles on the map, as rooms are.

use vstd::prelude::*;

verus! {

/// A rectangle from `(x1, y1)` to `(x2, y2)`. As a room its floor is what lies
/// beyond the first row and column: `x1 < x <= x2`, `y1 < y <= y2`.
#[derive(PartialEq, Eq, Structural, Copy, Clone, Debug)]
pub struct Rect {
    pub x1: i32,
    pub x2: i32,
    pub y1: i32,
    pub y2: i32,
}

/// Half of `n`, rounded towards zero.
pub open spec fn half(n: int) -> int {
    if n >= 0 {
        n / 2
    } else {
        -((-n) / 2)
    }
}

impl Rect {
    /// Whether the two rectangles share a point, edges included.
    pub open spec fn intersects(self, other: Rect) -> bool {
        self.x1 <= other.x2 && self.x2 >= other.x1 && self.y1 <= other.y2 && self.y2 >= other.y1
    }

    /// Whether `(x, y)` is part of the floor of the room.
    pub open spec fn covers(self, x: int, y: int) -> bool {
        self.x1 < x <= self.x2 && self.y1 < y <= self.y2
    }

    /// The middle of the rectangle, each coordinate rounded towards zero.
    pub open spec fn middle(self) -> (int, int) {
        (half(self.x1 + self.x2), half(self.y1 + self.y2))
    }

    /// Whether none of `rooms` shares a point with this rectangle.
    pub open spec fn clear_of(self, rooms: Seq<Rect>) -> bool {
        forall|k: int| 0 <= k < rooms.len() ==> !self.intersects(#[trigger] rooms[k])
    }

    /// The rectangle with corner `(x, y)`, `w` wide and `h` high.
    pub fn new(x: i32, y: i32, w: i32, h: i32) -> (rect: Rect)
        requires
            i32::MIN <= x + w <= i32::MAX,
            i32::MIN <= y + h <= i32::MAX,
        ensures
            rect == (Rect { x1: x, x2: (x + w) as i32, y1: y, y2: (y + h) as i32 }),
    {
        Rect { x1: x, x2: x + w, y1: y, y2: y + h }
    }

    /// Whether the two rectangles share a point, edges included.
    pub fn intersect(&self, other: &Rect) -> (b: bool)
        ensures
            b == self.intersects(*other),
    {
        self.x1 <= other.x2 && self.x2 >= other.x1 && self.y1 <= other.y2 && self.y2 >= other.y1
    }

    /// The middle of the rectangle.
    pub fn center(&self) -> (c: (i32, i32))
        ensures
            (c.0 as int, c.1 as int) == self.middle(),
    {
        let x: i64 = (self.x1 as i64 + self.x2 as i64) / 2;
        let y: i64 = (self.y1 as i64 + self.y2 as i64) / 2;
        (x as i32, y as i32)
    }

    /// Whether none of `rooms` shares a point with this rectangle.
    pub fn fits_among(&self, rooms: &Vec<Rect>) -> (ok: bool)
        ensures
            ok == self.clear_of(rooms@),
    {
        let mut ok: bool = true;
        let mut i: usize = 0;
        while i < rooms.len()
            invariant
                i <= rooms@.len(),
                ok == (forall|k: int| 0 <= k < i ==> !self.intersects(#[trigger] rooms@[k])),
            decreases rooms@.len() - i,
        {
            if self.intersect(&rooms[i]) {
                ok = false;
            }
            i = i + 1;
        }
        ok
    }
}

} // verus!
