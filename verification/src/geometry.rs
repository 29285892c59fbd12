//! Rectangles of the desktop.

use vstd::prelude::*;

verus! {

/// A rectangle whose right column and bottom row belong to it.
#[derive(Debug, Clone, Copy, PartialEq, Eq, Structural)]
pub struct InclusiveRectangle {
    pub left: u16,
    pub top: u16,
    pub right: u16,
    pub bottom: u16,
}

/// The number of pixels of an area fits into 32 bits.
pub proof fn lemma_area_bound(width: u16, height: u16)
    ensures
        0 <= width * height <= 0xFFFF * 0xFFFF,
{
    assert(0 <= width * height <= 0xFFFF * 0xFFFF) by (nonlinear_arith)
        requires
            0 <= width <= 0xFFFF,
            0 <= height <= 0xFFFF,
    ;
}

pub open spec fn min_u16(a: u16, b: u16) -> u16 {
    if a <= b {
        a
    } else {
        b
    }
}

pub open spec fn max_u16(a: u16, b: u16) -> u16 {
    if a <= b {
        b
    } else {
        a
    }
}

pub fn smaller_u16(a: u16, b: u16) -> (r: u16)
    ensures
        r == min_u16(a, b),
{
    if a <= b {
        a
    } else {
        b
    }
}

pub fn larger_u16(a: u16, b: u16) -> (r: u16)
    ensures
        r == max_u16(a, b),
{
    if a <= b {
        b
    } else {
        a
    }
}

impl InclusiveRectangle {
    /// Number of columns, counted modulo the range of a `u16`.
    pub open spec fn columns(self) -> int {
        (self.right - self.left + 1) % 0x1_0000
    }

    /// Number of rows, counted modulo the range of a `u16`.
    pub open spec fn rows(self) -> int {
        (self.bottom - self.top + 1) % 0x1_0000
    }

    /// Whether the point belongs to the rectangle.
    pub open spec fn contains(self, x: int, y: int) -> bool {
        self.left <= x <= self.right && self.top <= y <= self.bottom
    }

    /// The smallest rectangle around both.
    pub open spec fn spanning(self, other: InclusiveRectangle) -> InclusiveRectangle {
        InclusiveRectangle {
            left: min_u16(self.left, other.left),
            top: min_u16(self.top, other.top),
            right: max_u16(self.right, other.right),
            bottom: max_u16(self.bottom, other.bottom),
        }
    }

    /// The part common to both, if they overlap.
    pub open spec fn common(self, other: InclusiveRectangle) -> Option<InclusiveRectangle> {
        let r = InclusiveRectangle {
            left: max_u16(self.left, other.left),
            top: max_u16(self.top, other.top),
            right: min_u16(self.right, other.right),
            bottom: min_u16(self.bottom, other.bottom),
        };
        if r.left <= r.right && r.top <= r.bottom {
            Some(r)
        } else {
            None
        }
    }

    pub open spec fn origin() -> InclusiveRectangle {
        InclusiveRectangle { left: 0, top: 0, right: 0, bottom: 0 }
    }

    /// The rectangle that stands for "nothing was drawn".
    pub fn empty() -> (r: Self)
        ensures
            r == InclusiveRectangle::origin(),
    {
        InclusiveRectangle { left: 0, top: 0, right: 0, bottom: 0 }
    }

    pub fn width(&self) -> (r: u16)
        ensures
            r == self.columns(),
            self.left <= self.right && self.right - self.left < 0xFFFF ==> r == self.right - self.left + 1,
    {
        self.right.wrapping_sub(self.left).wrapping_add(1)
    }

    pub fn height(&self) -> (r: u16)
        ensures
            r == self.rows(),
            self.top <= self.bottom && self.bottom - self.top < 0xFFFF ==> r == self.bottom - self.top + 1,
    {
        self.bottom.wrapping_sub(self.top).wrapping_add(1)
    }

    pub fn union(&self, other: &InclusiveRectangle) -> (r: Self)
        ensures
            r == self.spanning(*other),
    {
        InclusiveRectangle {
            left: smaller_u16(self.left, other.left),
            top: smaller_u16(self.top, other.top),
            right: larger_u16(self.right, other.right),
            bottom: larger_u16(self.bottom, other.bottom),
        }
    }

    pub fn intersect(&self, other: &InclusiveRectangle) -> (r: Option<Self>)
        ensures
            r == self.common(*other),
    {
        let r: InclusiveRectangle = InclusiveRectangle {
            left: larger_u16(self.left, other.left),
            top: larger_u16(self.top, other.top),
            right: smaller_u16(self.right, other.right),
            bottom: smaller_u16(self.bottom, other.bottom),
        };
        if r.left <= r.right && r.top <= r.bottom {
            Some(r)
        } else {
            None
        }
    }
}

} // verus!
