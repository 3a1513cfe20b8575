//! An integer 2D vector used for grid coordinates and pixel positions.

use vstd::prelude::*;

verus! {

/// Signed division exactly as the machine computes it: the quotient
/// rounded toward zero.
pub open spec fn div_toward_zero(a: int, b: int) -> int {
    if a >= 0 {
        a / b
    } else {
        -((-a) / b)
    }
}

/// A two-component vector. Grid and pixel coordinates use `Vec2<isize>`.
#[derive(Clone, Copy, PartialEq, Eq, Structural, Debug)]
pub struct Vec2<T> {
    pub x: T,
    pub y: T,
}

impl<T> Vec2<T> {
    /// Build a vector from its two components.
    pub fn new(x: T, y: T) -> (r: Self)
        ensures
            r == (Vec2 { x, y }),
    {
        Vec2 { x, y }
    }
}

impl Vec2<isize> {
    /// Component-wise sum.
    pub fn add(self, other: Self) -> (r: Self)
        requires
            isize::MIN <= self.x + other.x <= isize::MAX,
            isize::MIN <= self.y + other.y <= isize::MAX,
        ensures
            r.x == self.x + other.x,
            r.y == self.y + other.y,
    {
        Vec2 { x: self.x + other.x, y: self.y + other.y }
    }

    /// Component-wise difference.
    pub fn sub(self, other: Self) -> (r: Self)
        requires
            isize::MIN <= self.x - other.x <= isize::MAX,
            isize::MIN <= self.y - other.y <= isize::MAX,
        ensures
            r.x == self.x - other.x,
            r.y == self.y - other.y,
    {
        Vec2 { x: self.x - other.x, y: self.y - other.y }
    }

    /// Divide both components by a positive `k`, rounding toward zero.
    pub fn div(self, k: isize) -> (r: Self)
        requires
            k > 0,
        ensures
            r.x == div_toward_zero(self.x as int, k as int),
            r.y == div_toward_zero(self.y as int, k as int),
    {
        Vec2 { x: self.x / k, y: self.y / k }
    }

    /// Scale both components by `k`.
    pub fn mul(self, k: isize) -> (r: Self)
        requires
            isize::MIN <= self.x * k <= isize::MAX,
            isize::MIN <= self.y * k <= isize::MAX,
        ensures
            r.x == self.x * k,
            r.y == self.y * k,
    {
        Vec2 { x: self.x * k, y: self.y * k }
    }
}

} // verus!
