//! Axis-aligned pixel rectangles and the relations the atlas is specified with.

use vstd::prelude::*;

verus! {

/// A rectangle in whole pixels: its top-left corner and its size.
#[derive(Clone, Copy, Debug, PartialEq, Eq, Structural)]
pub struct Rect {
    pub x: u32,
    pub y: u32,
    pub w: u32,
    pub h: u32,
}

impl Rect {
    /// The first column to the right of the rectangle.
    pub open spec fn right(self) -> int {
        self.x + self.w
    }

    /// The first row below the rectangle.
    pub open spec fn bottom(self) -> int {
        self.y + self.h
    }

    /// A `w` by `h` block is no larger than the rectangle in either direction.
    pub open spec fn fits(self, w: u32, h: u32) -> bool {
        w <= self.w && h <= self.h
    }

    /// Every pixel of the rectangle lies inside `outer`.
    pub open spec fn within(self, outer: Rect) -> bool {
        &&& outer.x <= self.x
        &&& outer.y <= self.y
        &&& self.right() <= outer.right()
        &&& self.bottom() <= outer.bottom()
    }

    /// The two rectangles share at least one pixel.
    pub open spec fn overlaps(self, other: Rect) -> bool {
        &&& self.x < other.right()
        &&& other.x < self.right()
        &&& self.y < other.bottom()
        &&& other.y < self.bottom()
        &&& self.w > 0
        &&& self.h > 0
        &&& other.w > 0
        &&& other.h > 0
    }

    /// Both far edges are representable, so corner arithmetic cannot overflow.
    pub open spec fn bounded(self) -> bool {
        self.right() <= u32::MAX && self.bottom() <= u32::MAX
    }

    pub fn new(x: u32, y: u32, w: u32, h: u32) -> (r: Rect)
        ensures
            r == (Rect { x, y, w, h }),
    {
        Rect { x, y, w, h }
    }

    /// Whether the two rectangles share a pixel.
    pub fn intersects(&self, other: &Rect) -> (b: bool)
        ensures
            b == self.overlaps(*other),
    {
        self.w > 0 && self.h > 0 && other.w > 0 && other.h > 0
            && (self.x as u64) < other.x as u64 + other.w as u64
            && (other.x as u64) < self.x as u64 + self.w as u64
            && (self.y as u64) < other.y as u64 + other.h as u64
            && (other.y as u64) < self.y as u64 + self.h as u64
    }

    /// Whether the rectangle lies wholly inside `outer`.
    pub fn is_within(&self, outer: &Rect) -> (b: bool)
        ensures
            b == self.within(*outer),
    {
        outer.x <= self.x && outer.y <= self.y
            && self.x as u64 + self.w as u64 <= outer.x as u64 + outer.w as u64
            && self.y as u64 + self.h as u64 <= outer.y as u64 + outer.h as u64
    }
}

} // verus!
