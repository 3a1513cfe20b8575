//! An axis-aligned rectangle with a signed top-left corner and an unsigned
//! extent, used for containment tests and render-space bookkeeping.

use vstd::prelude::*;

use crate::vector2::Vec2;
use crate::vector2::div_toward_zero;

verus! {

/// An axis-aligned rectangle: top-left corner `(x, y)`, extent `(w, h)`.
#[derive(Clone, Copy, PartialEq, Eq, Structural, Debug)]
pub struct Rect {
    pub x: isize,
    pub y: isize,
    pub w: usize,
    pub h: usize,
}

/// The edges overflow `isize` for extreme corners; every edge query needs
/// the far corner to stay representable.
pub open spec fn edges_in_range(r: Rect) -> bool {
    r.w <= isize::MAX && r.h <= isize::MAX && r.x + r.w <= isize::MAX && r.y + r.h <= isize::MAX
}

impl Rect {
    /// Build a rectangle from its corner and extent.
    pub fn new(x: isize, y: isize, w: usize, h: usize) -> (r: Self)
        ensures
            r == (Rect { x, y, w, h }),
    {
        Rect { x, y, w, h }
    }

    /// The x coordinate of the left edge.
    pub fn left(&self) -> (r: isize)
        ensures
            r == self.x,
    {
        self.x
    }

    /// The x coordinate of the right edge, `x + w`.
    pub fn right(&self) -> (r: isize)
        requires
            self.w <= isize::MAX,
            self.x + self.w <= isize::MAX,
        ensures
            r == self.x + self.w,
    {
        self.x + self.w as isize
    }

    /// The y coordinate of the top edge.
    pub fn top(&self) -> (r: isize)
        ensures
            r == self.y,
    {
        self.y
    }

    /// The y coordinate of the bottom edge, `y + h`.
    pub fn bottom(&self) -> (r: isize)
        requires
            self.h <= isize::MAX,
            self.y + self.h <= isize::MAX,
        ensures
            r == self.y + self.h,
    {
        self.y + self.h as isize
    }

    /// Translate the rectangle by `vec`, keeping its extent.
    pub fn slide(&mut self, vec: &Vec2<isize>)
        requires
            isize::MIN <= old(self).x + vec.x <= isize::MAX,
            isize::MIN <= old(self).y + vec.y <= isize::MAX,
        ensures
            final(self).x == old(self).x + vec.x,
            final(self).y == old(self).y + vec.y,
            final(self).w == old(self).w,
            final(self).h == old(self).h,
    {
        self.x = self.x + vec.x;
        self.y = self.y + vec.y;
    }

    /// The point whose components are half the corresponding edge sums,
    /// `((x + w) / 2, (y + h) / 2)`, rounded toward zero.
    pub fn center(&self) -> (c: Vec2<isize>)
        requires
            self.w <= isize::MAX,
            self.h <= isize::MAX,
            self.x + self.w <= isize::MAX,
            self.y + self.h <= isize::MAX,
        ensures
            c.x == div_toward_zero(self.x + self.w, 2),
            c.y == div_toward_zero(self.y + self.h, 2),
    {
        Vec2 { x: (self.x + self.w as isize) / 2, y: (self.y + self.h as isize) / 2 }
    }

    /// Whether `point` lies inside the rectangle; both the left/top and the
    /// right/bottom edges count as inside.
    pub fn contains(&self, point: Vec2<isize>) -> (r: bool)
        requires
            edges_in_range(*self),
        ensures
            r == (self.x <= point.x <= self.x + self.w && self.y <= point.y <= self.y + self.h),
    {
        self.left() <= point.x && point.x <= self.right() && self.top() <= point.y && point.y
            <= self.bottom()
    }

    /// Whether any edge of `rect` falls inside the span of this rectangle on
    /// its axis; used as a cheap culling test for drawing.
    pub fn contains_rect(&self, rect: Rect) -> (r: bool)
        requires
            edges_in_range(*self),
            edges_in_range(rect),
        ensures
            r == ((self.x <= rect.x <= self.x + self.w) || (self.x <= rect.x + rect.w <= self.x
                + self.w) || (self.y <= rect.y <= self.y + self.h) || (self.y <= rect.y + rect.h
                <= self.y + self.h)),
    {
        self.left() <= rect.left() && rect.left() <= self.right() || self.left() <= rect.right()
            && rect.right() <= self.right() || self.top() <= rect.top() && rect.top()
            <= self.bottom() || self.top() <= rect.bottom() && rect.bottom() <= self.bottom()
    }
}

} // verus!
