use crate::types2d::Vec2D;
use vstd::prelude::*;

verus! {

/// A rectangle of pixels, one 32-bit colour each, stored row by row from the
/// top.
pub struct Framebuffer {
    /// The number of pixels in a row.
    pub width: usize,
    /// The number of rows.
    pub height: usize,
    /// The pixels: the one in column `x` of row `y` at `y * width + x`.
    pub buffer: Vec<u32>,
}

impl View for Framebuffer {
    type V = Seq<u32>;

    /// The pixels, row by row.
    open spec fn view(&self) -> Seq<u32> {
        self.buffer@
    }
}

impl Framebuffer {
    /// There is one pixel for each place of the rectangle.
    pub open spec fn wf(&self) -> bool {
        self@.len() == self.width * self.height <= usize::MAX
    }

    /// `p` is a place of the rectangle.
    pub open spec fn contains(&self, p: Vec2D<int>) -> bool {
        0 <= p.x < self.width && 0 <= p.y < self.height
    }

    /// The colour at `p`.
    pub open spec fn pixel(&self, p: Vec2D<int>) -> u32 {
        self@[p.y * self.width + p.x]
    }

    /// A buffer of `width` by `height` pixels, all zero.
    pub fn new(width: usize, height: usize) -> (fb: Self)
        requires
            width * height <= usize::MAX,
        ensures
            fb.wf(),
            fb.width == width,
            fb.height == height,
            forall|i: int| 0 <= i < width * height ==> fb@[i] == 0,
    {
        let buffer = vec![0u32; width * height];
        Framebuffer { width, height, buffer }
    }

    /// The pixels, for reading.
    #[inline]
    pub fn slice(&self) -> (pixels: &[u32])
        ensures
            pixels@ == self@,
    {
        self.buffer.as_slice()
    }

    /// The pixels, for writing. What is written through the slice is what the
    /// buffer then holds; its dimensions stay.
    #[inline]
    pub fn slice_mut(&mut self) -> (pixels: &mut [u32])
        ensures
            pixels@ == old(self)@,
            final(self)@ == final(pixels)@,
            final(self).width == old(self).width,
            final(self).height == old(self).height,
    {
        self.buffer.as_mut_slice()
    }
}

} // verus!
