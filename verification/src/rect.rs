use vstd::prelude::*;

verus! {

/// An axis-aligned rectangle given by two opposite corners.
#[derive(PartialEq, Eq, Structural, Copy, Clone, Debug)]
pub struct Rect {
    pub x1: i32,
    pub x2: i32,
    pub y1: i32,
    pub y2: i32,
}

/// Half of `a`, rounded toward zero.
pub open spec fn half(a: int) -> int {
    if a >= 0 {
        a / 2
    } else {
        -((-a) / 2)
    }
}

/// The length of a side between the coordinates `a` and `b`.
pub open spec fn side(a: int, b: int) -> int {
    if a >= b {
        a - b
    } else {
        b - a
    }
}

/// Measures the side between two coordinates.
pub fn side_of(a: i32, b: i32) -> (r: i32)
    requires
        side(a as int, b as int) <= i32::MAX,
    ensures
        r == side(a as int, b as int),
{
    if a >= b {
        a - b
    } else {
        b - a
    }
}

impl Rect {
    /// Whether the two rectangles share a cell, edges included.
    pub open spec fn overlaps(&self, other: &Rect) -> bool {
        self.x1 <= other.x2 && self.x2 >= other.x1 && self.y1 <= other.y2 && self.y2 >= other.y1
    }

    /// Whether every cell between the corners lies on a grid of the given
    /// size.
    pub open spec fn fits(&self, width: int, height: int) -> bool {
        0 <= self.x1 < width && 0 <= self.x2 < width && 0 <= self.y1 < height && 0 <= self.y2
            < height
    }

    /// Whether the coordinates are small enough for sums and differences
    /// of a few of them to stay within `i32`.
    pub open spec fn tame(&self) -> bool {
        &&& -0x2000_0000 <= self.x1 <= 0x2000_0000
        &&& -0x2000_0000 <= self.x2 <= 0x2000_0000
        &&& -0x2000_0000 <= self.y1 <= 0x2000_0000
        &&& -0x2000_0000 <= self.y2 <= 0x2000_0000
    }

    /// Whether `(x, y)` lies between the corners, the corners included.
    pub open spec fn holds(&self, x: int, y: int) -> bool {
        self.x1 <= x <= self.x2 && self.y1 <= y <= self.y2
    }

    /// The extent along the horizontal axis.
    pub open spec fn span_x(&self) -> int {
        self.x2 - self.x1
    }

    /// The extent along the vertical axis.
    pub open spec fn span_y(&self) -> int {
        self.y2 - self.y1
    }

    /// The rectangle with corner `(x, y)` that is `w` wide and `h` high.
    pub fn new(x: i32, y: i32, w: i32, h: i32) -> (r: Rect)
        requires
            i32::MIN <= x + w <= i32::MAX,
            i32::MIN <= y + h <= i32::MAX,
        ensures
            r == (Rect { x1: x, y1: y, x2: (x + w) as i32, y2: (y + h) as i32 }),
    {
        Rect { x1: x, y1: y, x2: x + w, y2: y + h }
    }

    /// Returns true if this overlaps with other.
    pub fn intersect(&self, other: &Rect) -> (r: bool)
        ensures
            r == self.overlaps(other),
    {
        self.x1 <= other.x2 && self.x2 >= other.x1 && self.y1 <= other.y2 && self.y2 >= other.y1
    }

    /// The midpoint of the two corners, each coordinate rounded toward zero.
    pub fn center(&self) -> (c: (i32, i32))
        ensures
            c.0 == half(self.x1 + self.x2),
            c.1 == half(self.y1 + self.y2),
    {
        let cx = (self.x1 as i64 + self.x2 as i64) / 2;
        let cy = (self.y1 as i64 + self.y2 as i64) / 2;
        (cx as i32, cy as i32)
    }

    /// Overlap does not depend on the order of the two rectangles.
    pub proof fn lemma_overlaps_symmetric(a: Rect, b: Rect)
        ensures
            a.overlaps(&b) == b.overlaps(&a),
    {
    }

    /// The center of a rectangle whose corners are in order lies between
    /// them, so it is a cell of every grid that the rectangle fits on.
    pub proof fn lemma_center_inside(r: Rect)
        requires
            0 <= r.x1 <= r.x2,
            0 <= r.y1 <= r.y2,
        ensures
            r.x1 <= half(r.x1 + r.x2) <= r.x2,
            r.y1 <= half(r.y1 + r.y2) <= r.y2,
    {
    }
}

} // verus!
