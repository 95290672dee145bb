use vstd::prelude::*;

verus! {

/// A point or a size on the integer canvas.
#[derive(Debug, Clone, Copy, PartialEq, Eq, Hash, Structural)]
pub struct UVec2 {
    pub x: u32,
    pub y: u32,
}

impl UVec2 {
    pub fn new(x: u32, y: u32) -> (r: UVec2)
        ensures
            r.x == x,
            r.y == y,
    {
        UVec2 { x, y }
    }
}

/// An axis-aligned rectangle: `top_left` is inside it, `bottom_right` is the
/// first column and row past it.
#[derive(Debug, Clone, Copy, PartialEq, Eq, Hash, Structural)]
pub struct URect {
    pub top_left: UVec2,
    pub bottom_right: UVec2,
}

impl URect {
    pub open spec fn width_spec(&self) -> int {
        self.bottom_right.x - self.top_left.x
    }

    pub open spec fn height_spec(&self) -> int {
        self.bottom_right.y - self.top_left.y
    }

    /// The corners are in order on both axes.
    pub open spec fn is_ordered(&self) -> bool {
        self.top_left.x <= self.bottom_right.x && self.top_left.y <= self.bottom_right.y
    }

    /// The rectangle covers no cell at all.
    pub open spec fn is_empty(&self) -> bool {
        self.bottom_right.x <= self.top_left.x || self.bottom_right.y <= self.top_left.y
    }

    /// The rectangle lies inside the canvas `(0,0)`-`(width,height)`.
    pub open spec fn within(&self, width: int, height: int) -> bool {
        self.is_ordered() && self.bottom_right.x <= width && self.bottom_right.y <= height
    }

    /// Every cell of `self` is a cell of `other`.
    pub open spec fn inside(&self, other: URect) -> bool {
        self.is_empty() || (other.top_left.x <= self.top_left.x
            && self.bottom_right.x <= other.bottom_right.x
            && other.top_left.y <= self.top_left.y
            && self.bottom_right.y <= other.bottom_right.y)
    }

    /// The two rectangles share at least one cell.
    pub open spec fn overlaps(&self, other: URect) -> bool {
        &&& self.top_left.x < self.bottom_right.x
        &&& other.top_left.x < other.bottom_right.x
        &&& self.top_left.x < other.bottom_right.x
        &&& other.top_left.x < self.bottom_right.x
        &&& self.top_left.y < self.bottom_right.y
        &&& other.top_left.y < other.bottom_right.y
        &&& self.top_left.y < other.bottom_right.y
        &&& other.top_left.y < self.bottom_right.y
    }

    pub fn new(top_left: UVec2, bottom_right: UVec2) -> (r: URect)
        ensures
            r.top_left == top_left,
            r.bottom_right == bottom_right,
    {
        URect { top_left, bottom_right }
    }

    pub fn from_tuples(top_left: (u32, u32), bottom_right: (u32, u32)) -> (r: URect)
        ensures
            r.top_left.x == top_left.0,
            r.top_left.y == top_left.1,
            r.bottom_right.x == bottom_right.0,
            r.bottom_right.y == bottom_right.1,
    {
        URect {
            top_left: UVec2 { x: top_left.0, y: top_left.1 },
            bottom_right: UVec2 { x: bottom_right.0, y: bottom_right.1 },
        }
    }

    pub fn width(&self) -> (r: u32)
        requires
            self.is_ordered(),
        ensures
            r == self.width_spec(),
    {
        self.bottom_right.x - self.top_left.x
    }

    pub fn height(&self) -> (r: u32)
        requires
            self.is_ordered(),
        ensures
            r == self.height_spec(),
    {
        self.bottom_right.y - self.top_left.y
    }

    /// The corner at the right end of the top edge.
    pub fn top_right(&self) -> (r: UVec2)
        ensures
            r.x == self.bottom_right.x,
            r.y == self.top_left.y,
    {
        UVec2 { x: self.bottom_right.x, y: self.top_left.y }
    }

    pub fn is_zero_area(&self) -> (r: bool)
        requires
            self.is_ordered(),
        ensures
            r == (self.width_spec() == 0 || self.height_spec() == 0),
    {
        self.bottom_right.x == self.top_left.x || self.bottom_right.y == self.top_left.y
    }
}

} // verus!
