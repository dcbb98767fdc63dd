//! The pixel buffer that a render pass writes into.
//!
//! A canvas is a rectangular grid of packed pixels stored row by row in one
//! flat vector; the pixel at column `x` and row `y` sits at index
//! `x + y * width`.

use vstd::prelude::*;

use crate::color::Color8b;
use crate::color::packed;

verus! {

/// A rectangular grid of packed pixels, one `u32` per pixel.
pub struct Canvas {
    pub width: usize,
    pub height: usize,
    pub buffer: Vec<u32>,
}

impl Canvas {
    /// The buffer holds exactly one pixel per grid cell.
    pub open spec fn wf(&self) -> bool {
        self.buffer@.len() == self.width * self.height
    }

    /// A canvas of the given dimensions with every pixel black (zero).
    pub fn new(width: usize, height: usize) -> (canvas: Canvas)
        requires
            width * height <= usize::MAX,
        ensures
            canvas.wf(),
            canvas.width == width,
            canvas.height == height,
            forall|i: int| 0 <= i < canvas.buffer@.len() ==> canvas.buffer@[i] == 0,
    {
        let len: usize = width * height;
        let mut buffer: Vec<u32> = Vec::new();
        let mut i: usize = 0;
        while i < len
            invariant
                i <= len,
                buffer@.len() == i,
                forall|j: int| 0 <= j < i ==> buffer@[j] == 0,
            decreases len - i,
        {
            buffer.push(0);
            i = i + 1;
        }
        Canvas { height, width, buffer }
    }

    /// Write one pixel at column `x`, row `y`, packed into the buffer's
    /// `u32` layout; every other pixel and the dimensions are unchanged.
    pub fn draw_pixel(&mut self, x: usize, y: usize, color: Color8b)
        requires
            old(self).wf(),
            x < old(self).width,
            y < old(self).height,
        ensures
            final(self).wf(),
            final(self).width == old(self).width,
            final(self).height == old(self).height,
            final(self).buffer@ == old(self).buffer@.update(
                x + y * old(self).width,
                packed(color),
            ),
    {
        proof {
            assert(self.buffer.len() == self.buffer@.len());
            assert(x + y * self.width < self.width * self.height) by (nonlinear_arith)
                requires
                    x < self.width,
                    y < self.height,
            ;
        }
        let index: usize = x + y * self.width;
        self.buffer.set(index, u32::from(color));
    }

    /// Reset every pixel to black (zero); the dimensions are unchanged.
    pub fn clear(&mut self)
        ensures
            final(self).width == old(self).width,
            final(self).height == old(self).height,
            final(self).buffer@.len() == old(self).buffer@.len(),
            forall|i: int| 0 <= i < final(self).buffer@.len() ==> final(self).buffer@[i] == 0,
    {
        let len: usize = self.buffer.len();
        let mut i: usize = 0;
        while i < len
            invariant
                i <= len,
                self.buffer@.len() == len,
                self.width == old(self).width,
                self.height == old(self).height,
                forall|j: int| 0 <= j < i ==> self.buffer@[j] == 0,
            decreases len - i,
        {
            self.buffer.set(i, 0);
            i = i + 1;
        }
    }
}

/// The canvas that the front end renders into, at the fixed window size.
pub fn init_canvas() -> (canvas: Canvas)
    ensures
        canvas.wf(),
        canvas.width == 800,
        canvas.height == 600,
        forall|i: int| 0 <= i < canvas.buffer@.len() ==> canvas.buffer@[i] == 0,
{
    Canvas::new(800, 600)
}

} // verus!
