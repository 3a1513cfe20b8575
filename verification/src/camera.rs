//! The camera: an offset applied to everything drawn, published into a
//! caller-owned draw-offset slot instead of hidden global state.

use vstd::prelude::*;

use crate::vector2::Vec2;

verus! {

/// A camera with a render-space offset.
pub struct Camera {
    pub offset: Vec2<isize>,
}

impl Camera {
    /// A camera with no offset.
    pub fn new() -> (r: Self)
        ensures
            r.offset == (Vec2 { x: 0isize, y: 0isize }),
    {
        Camera { offset: Vec2::new(0, 0) }
    }

    /// Publish the camera's offset into the caller's draw-offset slot.
    pub fn set(&self, draw_offset: &mut Vec2<isize>)
        ensures
            *final(draw_offset) == self.offset,
    {
        *draw_offset = self.offset;
    }
}

} // verus!
