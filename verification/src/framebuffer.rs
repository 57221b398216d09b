//! The render target: a row-major grid of packed pixels.

use vstd::prelude::*;

verus! {

pub struct FrameBuffer {
    pub width: usize,
    pub height: usize,
    pub buf: Vec<u32>,
}

/// The buffer holds exactly one slot per pixel.
pub open spec fn fb_wf(fb: FrameBuffer) -> bool {
    fb.buf.len() == fb.width * fb.height
}

/// A pixel's row-major index.
pub open spec fn fb_index(fb: FrameBuffer, x: int, y: int) -> int {
    y * fb.width + x
}

pub proof fn lemma_fb_index_in_range(w: int, h: int, x: int, y: int)
    by (nonlinear_arith)
    requires
        0 <= x < w,
        0 <= y < h,
    ensures
        0 <= y * w + x < w * h,
{
}

/// Distinct pixel coordinates have distinct row-major indices.
pub proof fn lemma_fb_index_distinct(w: int, a: int, b: int, i: int, j: int)
    by (nonlinear_arith)
    requires
        0 <= a < w,
        0 <= i < w,
        !(a == i && b == j),
    ensures
        b * w + a != j * w + i,
{
}

impl FrameBuffer {
    /// A black buffer of the given dimensions.
    pub fn new(width: usize, height: usize) -> (r: FrameBuffer)
        requires
            width * height <= usize::MAX,
        ensures
            fb_wf(r),
            r.width == width,
            r.height == height,
            forall|i: int| 0 <= i < r.buf.len() ==> r.buf[i] == 0,
    {
        let n: usize = width * height;
        let mut buf: Vec<u32> = Vec::new();
        let mut i: usize = 0;
        while i < n
            invariant
                i <= n,
                buf.len() == i,
                forall|j: int| 0 <= j < i ==> buf[j] == 0,
            decreases n - i,
        {
            buf.push(0);
            i = i + 1;
        }
        FrameBuffer { width, height, buf }
    }

    /// The pixel at column `x` of row `y`.
    pub fn pixel(&self, x: usize, y: usize) -> (r: u32)
        requires
            fb_wf(*self),
            x < self.width,
            y < self.height,
        ensures
            r == self.buf[fb_index(*self, x as int, y as int)],
    {
        proof {
            lemma_fb_index_in_range(
                self.width as int,
                self.height as int,
                x as int,
                y as int,
            );
        }
        self.buf[y * self.width + x]
    }

    /// Store a pixel at column `x` of row `y`; every other pixel is kept.
    pub fn set_pixel(&mut self, x: usize, y: usize, v: u32)
        requires
            fb_wf(*old(self)),
            x < old(self).width,
            y < old(self).height,
        ensures
            fb_wf(*final(self)),
            final(self).width == old(self).width,
            final(self).height == old(self).height,
            final(self).buf@ == old(self).buf@.update(fb_index(*old(self), x as int, y as int), v),
    {
        proof {
            lemma_fb_index_in_range(
                self.width as int,
                self.height as int,
                x as int,
                y as int,
            );
        }
        let i: usize = y * self.width + x;
        self.buf.set(i, v);
    }
}

} // verus!
