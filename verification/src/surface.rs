//! The plotting surface: a raster of packed 24-bit RGB pixels together
//! with the scale/offset transform that places the mathematical origin.

use vstd::prelude::*;

verus! {

/// Color every pixel starts with and is restored to on a clear.
pub const BACKGROUND_COLOR: u32 = 0xFFFFFF;

/// Fixed neutral color of the two coordinate axes.
pub const AXIS_COLOR: u32 = 0x666666;

/// A rectangular pixel buffer (row-major, top-left origin) plus the view
/// transform: `scale_x`/`scale_y` are pixels per one unit of math-space
/// distance, `offset_x`/`offset_y` the pixel coordinates of the
/// mathematical origin, fixed at creation to the buffer center.
pub struct GraphPlotter {
    pub width: usize,
    pub height: usize,
    pub buffer: Vec<u32>,
    pub scale_x: u32,
    pub scale_y: u32,
    pub offset_x: usize,
    pub offset_y: usize,
}

impl GraphPlotter {
    /// Well-formedness: positive dimensions, a buffer of exactly
    /// `width * height` pixels, and positive scales.
    pub open spec fn wf(self) -> bool {
        &&& 1 <= self.width
        &&& 1 <= self.height
        &&& self.width * self.height <= usize::MAX
        &&& self.buffer@.len() == self.width * self.height
        &&& 1 <= self.scale_x
        &&& 1 <= self.scale_y
    }

    /// The color stored at column `x`, row `y`.
    pub open spec fn pix(self, x: int, y: int) -> u32 {
        self.buffer@[y * self.width + x]
    }

    /// Everything but the buffer contents agrees between two surfaces.
    pub open spec fn same_geometry(self, other: Self) -> bool {
        &&& self.width == other.width
        &&& self.height == other.height
        &&& self.scale_x == other.scale_x
        &&& self.scale_y == other.scale_y
        &&& self.offset_x == other.offset_x
        &&& self.offset_y == other.offset_y
    }

    /// A fresh surface: background-colored buffer, default scales of 50
    /// pixels per unit, origin at the buffer center.
    pub fn new(width: usize, height: usize) -> (r: Self)
        requires
            1 <= width,
            1 <= height,
            width * height <= usize::MAX,
        ensures
            r.wf(),
            r.width == width,
            r.height == height,
            r.scale_x == 50,
            r.scale_y == 50,
            r.offset_x == width / 2,
            r.offset_y == height / 2,
            forall|i: int| 0 <= i < r.buffer@.len() ==> r.buffer@[i] == BACKGROUND_COLOR,
    {
        let n = width * height;
        let mut buffer: Vec<u32> = Vec::new();
        let mut i: usize = 0;
        while i < n
            invariant
                i <= n,
                buffer@.len() == i,
                forall|j: int| 0 <= j < i ==> buffer@[j] == BACKGROUND_COLOR,
            decreases n - i,
        {
            buffer.push(BACKGROUND_COLOR);
            i = i + 1;
        }
        Self {
            width,
            height,
            buffer,
            scale_x: 50,
            scale_y: 50,
            offset_x: width / 2,
            offset_y: height / 2,
        }
    }

    /// Sets every buffer element to `color`.
    pub fn clear(&mut self, color: u32)
        requires
            old(self).wf(),
        ensures
            final(self).wf(),
            old(self).same_geometry(*final(self)),
            final(self).buffer@.len() == old(self).buffer@.len(),
            forall|i: int| 0 <= i < final(self).buffer@.len() ==> final(self).buffer@[i] == color,
    {
        let n = self.buffer.len();
        let mut i: usize = 0;
        while i < n
            invariant
                i <= n,
                self.buffer@.len() == n,
                old(self).same_geometry(*self),
                forall|j: int| 0 <= j < i ==> self.buffer@[j] == color,
            decreases n - i,
        {
            self.buffer[i] = color;
            i = i + 1;
        }
    }

    /// Sets the pixel at column `x`, row `y` to `color` when both are in
    /// range; out-of-range coordinates leave the buffer untouched.
    pub fn draw_pixel(&mut self, x: usize, y: usize, color: u32)
        requires
            old(self).wf(),
        ensures
            final(self).wf(),
            old(self).same_geometry(*final(self)),
            final(self).buffer@ == (if x < old(self).width && y < old(self).height {
                old(self).buffer@.update(y * old(self).width + x, color)
            } else {
                old(self).buffer@
            }),
    {
        if x < self.width && y < self.height {
            proof {
                lemma_row_major_bound(self.width as int, self.height as int, x as int, y as int);
            }
            let idx = y * self.width + x;
            self.buffer[idx] = color;
        }
    }
}

/// A row-major index of an in-range pixel lies inside the buffer.
pub(crate) proof fn lemma_row_major_bound(w: int, h: int, x: int, y: int)
    requires
        0 <= x < w,
        0 <= y < h,
    ensures
        0 <= y * w + x < w * h,
{
    assert(0 <= y * w + x < w * h) by (nonlinear_arith)
        requires
            0 <= x < w,
            0 <= y < h,
    ;
}

/// Pointwise reading of one `draw_pixel` effect: only the targeted
/// pixel changes, and only when its coordinates are in range.
pub(crate) proof fn lemma_draw_pixel_pointwise(
    pre: Seq<u32>,
    post: Seq<u32>,
    w: int,
    h: int,
    x: int,
    y: int,
    color: u32,
)
    requires
        0 <= w,
        0 <= h,
        pre.len() == w * h,
        post == (if 0 <= x < w && 0 <= y < h {
            pre.update(y * w + x, color)
        } else {
            pre
        }),
    ensures
        forall|xx: int, yy: int|
            0 <= xx < w && 0 <= yy < h ==> #[trigger] post[yy * w + xx] == (if xx == x && yy == y {
                color
            } else {
                pre[yy * w + xx]
            }),
{
    assert forall|xx: int, yy: int|
        0 <= xx < w && 0 <= yy < h implies #[trigger] post[yy * w + xx] == (if xx == x && yy == y {
        color
    } else {
        pre[yy * w + xx]
    }) by {
        lemma_row_major_bound(w, h, xx, yy);
        if 0 <= x < w && 0 <= y < h {
            lemma_row_major_bound(w, h, x, y);
            if yy * w + xx == y * w + x {
                lemma_row_major_injective(w, xx, yy, x, y);
            }
        }
    }
}

/// Two distinct in-range pixels have distinct row-major indices.
pub(crate) proof fn lemma_row_major_injective(w: int, x1: int, y1: int, x2: int, y2: int)
    requires
        0 <= x1 < w,
        0 <= x2 < w,
        y1 * w + x1 == y2 * w + x2,
    ensures
        x1 == x2 && y1 == y2,
{
    assert(x1 == x2 && y1 == y2) by (nonlinear_arith)
        requires
            0 <= x1 < w,
            0 <= x2 < w,
            y1 * w + x1 == y2 * w + x2,
    ;
}

} // verus!
