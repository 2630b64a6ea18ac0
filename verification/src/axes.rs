//! The axis rasterizer: a 2-pixel-wide vertical line at the pixel
//! column of the mathematical origin and a 2-pixel-wide horizontal line
//! at its pixel row, both in the fixed neutral axis color.

use vstd::prelude::*;
use crate::surface::AXIS_COLOR;
use crate::surface::GraphPlotter;
use crate::surface::lemma_draw_pixel_pointwise;
use crate::surface::lemma_row_major_bound;

verus! {

impl GraphPlotter {
    /// Columns the vertical axis line occupies: the origin's column and
    /// its left neighbor, the latter skipped when the origin sits at
    /// column zero.
    pub open spec fn on_vertical_axis(self, x: int) -> bool {
        ||| x == self.offset_x
        ||| (0 < self.offset_x && x == self.offset_x - 1)
    }

    /// Rows the horizontal axis line occupies: the origin's row and its
    /// upper neighbor, the latter skipped when the origin sits at row
    /// zero.
    pub open spec fn on_horizontal_axis(self, y: int) -> bool {
        ||| y == self.offset_y
        ||| (0 < self.offset_y && y == self.offset_y - 1)
    }

    /// The pixels both axis lines cover together.
    pub open spec fn on_axis(self, x: int, y: int) -> bool {
        self.on_vertical_axis(x) || self.on_horizontal_axis(y)
    }

    /// Draws the two coordinate axes through the origin's pixel column
    /// and row: exactly the covered pixels take the axis color, every
    /// other pixel keeps its previous color.
    pub fn draw_axis(&mut self)
        requires
            old(self).wf(),
        ensures
            final(self).wf(),
            old(self).same_geometry(*final(self)),
            final(self).buffer@.len() == old(self).buffer@.len(),
            forall|x: int, y: int|
                0 <= x < old(self).width && 0 <= y < old(self).height
                    ==> final(self).pix(x, y) == (if old(self).on_axis(x, y) {
                    AXIS_COLOR
                } else {
                    old(self).pix(x, y)
                }),
    {
        let ghost w = old(self).width as int;
        let ghost h = old(self).height as int;

        let x_center = self.offset_x;
        let mut y: usize = 0;
        while y < self.height
            invariant
                y <= old(self).height,
                self.wf(),
                old(self).same_geometry(*self),
                self.buffer@.len() == old(self).buffer@.len(),
                forall|xx: int, yy: int|
                    0 <= xx < w && 0 <= yy < h ==> #[trigger] self.pix(xx, yy) == (if old(
                        self,
                    ).on_vertical_axis(xx) && yy < y {
                        AXIS_COLOR
                    } else {
                        old(self).pix(xx, yy)
                    }),
            decreases old(self).height - y,
        {
            let ghost pre = *self;
            self.draw_pixel(x_center, y, AXIS_COLOR);
            let ghost buf1 = self.buffer@;
            if x_center > 0 {
                self.draw_pixel(x_center - 1, y, AXIS_COLOR);
            }
            proof {
                lemma_draw_pixel_pointwise(
                    pre.buffer@,
                    buf1,
                    w,
                    h,
                    x_center as int,
                    y as int,
                    AXIS_COLOR,
                );
                if x_center > 0 {
                    lemma_draw_pixel_pointwise(
                        buf1,
                        self.buffer@,
                        w,
                        h,
                        x_center - 1,
                        y as int,
                        AXIS_COLOR,
                    );
                }
                assert forall|xx: int, yy: int|
                    0 <= xx < w && 0 <= yy < h implies #[trigger] self.pix(xx, yy) == (if old(
                    self,
                ).on_vertical_axis(xx) && yy < y + 1 {
                    AXIS_COLOR
                } else {
                    old(self).pix(xx, yy)
                }) by {
                    lemma_row_major_bound(w, h, xx, yy);
                    assert(pre.pix(xx, yy) == (if old(self).on_vertical_axis(xx) && yy < y {
                        AXIS_COLOR
                    } else {
                        old(self).pix(xx, yy)
                    }));
                    assert(self.pix(xx, yy) == self.buffer@[yy * w + xx]);
                    assert(buf1[yy * w + xx] == (if xx == x_center && yy == y {
                        AXIS_COLOR
                    } else {
                        pre.buffer@[yy * w + xx]
                    }));
                }
            }
            y = y + 1;
        }

        let y_center = self.offset_y;
        let ghost mid = *self;
        let mut x: usize = 0;
        while x < self.width
            invariant
                x <= old(self).width,
                self.wf(),
                old(self).same_geometry(*self),
                self.buffer@.len() == old(self).buffer@.len(),
                forall|xx: int, yy: int|
                    0 <= xx < w && 0 <= yy < h ==> #[trigger] self.pix(xx, yy) == (if old(
                        self,
                    ).on_horizontal_axis(yy) && xx < x {
                        AXIS_COLOR
                    } else {
                        mid.pix(xx, yy)
                    }),
            decreases old(self).width - x,
        {
            let ghost pre = *self;
            self.draw_pixel(x, y_center, AXIS_COLOR);
            let ghost buf1 = self.buffer@;
            if y_center > 0 {
                self.draw_pixel(x, y_center - 1, AXIS_COLOR);
            }
            proof {
                lemma_draw_pixel_pointwise(
                    pre.buffer@,
                    buf1,
                    w,
                    h,
                    x as int,
                    y_center as int,
                    AXIS_COLOR,
                );
                if y_center > 0 {
                    lemma_draw_pixel_pointwise(
                        buf1,
                        self.buffer@,
                        w,
                        h,
                        x as int,
                        y_center - 1,
                        AXIS_COLOR,
                    );
                }
                assert forall|xx: int, yy: int|
                    0 <= xx < w && 0 <= yy < h implies #[trigger] self.pix(xx, yy) == (if old(
                    self,
                ).on_horizontal_axis(yy) && xx < x + 1 {
                    AXIS_COLOR
                } else {
                    mid.pix(xx, yy)
                }) by {
                    lemma_row_major_bound(w, h, xx, yy);
                    assert(pre.pix(xx, yy) == (if old(self).on_horizontal_axis(yy) && xx < x {
                        AXIS_COLOR
                    } else {
                        mid.pix(xx, yy)
                    }));
                    assert(self.pix(xx, yy) == self.buffer@[yy * w + xx]);
                    assert(buf1[yy * w + xx] == (if xx == x && yy == y_center {
                        AXIS_COLOR
                    } else {
                        pre.buffer@[yy * w + xx]
                    }));
                }
            }
            x = x + 1;
        }
    }
}

/// Axis centering: the vertical axis stands exactly at the pixel column
/// of the mathematical origin, so every row of that column is an axis
/// pixel.
pub proof fn lemma_axis_centering(p: GraphPlotter, y: int)
    requires
        p.offset_x < p.width,
        0 <= y < p.height,
    ensures
        p.on_axis(p.offset_x as int, y),
{
}

} // verus!
