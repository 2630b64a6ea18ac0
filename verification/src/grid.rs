//! The grid rasterizer: horizontal and vertical reference lines placed
//! symmetrically about the buffer center. The distance of the `i`-th
//! line pair from the center is `(i + period * i) / 2`, so the spacing
//! accelerates with `i` rather than repeating a fixed period; that
//! accelerating pattern is what this library specifies and draws. (A
//! conventionally periodic grid would use `i * period` instead.)

use vstd::prelude::*;
use crate::surface::GraphPlotter;
use crate::surface::lemma_draw_pixel_pointwise;
use crate::surface::lemma_row_major_bound;

verus! {

/// Distance of the `i`-th grid line pair from the buffer center.
pub open spec fn grid_offset(i: int, period: int) -> int {
    (i + period * i) / 2
}

/// Rows that the first `n` horizontal grid line pairs of a buffer of
/// height `h` cover: `h/2 - d` (skipped when `d` exceeds `h/2`) and
/// `h/2 + d` for each line-pair distance `d`.
pub open spec fn grid_rows_upto(h: int, period: int, n: int, y: int) -> bool {
    exists|i: int|
        #![trigger grid_offset(i, period)]
        0 <= i < n && {
            let d = grid_offset(i, period);
            ||| (d <= h / 2 && y == h / 2 - d)
            ||| y == h / 2 + d
        }
}

/// Rows the full horizontal grid covers: `h / period` line pairs.
pub open spec fn on_grid_row(h: int, period: int, y: int) -> bool {
    grid_rows_upto(h, period, h / period, y)
}

/// Columns the full vertical grid covers, by the mirrored construction
/// over the width.
pub open spec fn on_grid_col(w: int, period: int, x: int) -> bool {
    grid_rows_upto(w, period, w / period, x)
}

/// One more line pair extends the covered rows by exactly the `n`-th
/// pair.
proof fn lemma_grid_rows_step(h: int, period: int, n: int, y: int)
    requires
        0 <= n,
    ensures
        grid_rows_upto(h, period, n + 1, y) <==> (grid_rows_upto(h, period, n, y) || {
            let d = grid_offset(n, period);
            (d <= h / 2 && y == h / 2 - d) || y == h / 2 + d
        }),
{
    let d = grid_offset(n, period);
    if grid_rows_upto(h, period, n + 1, y) {
        let j = choose|j: int|
            #![trigger grid_offset(j, period)]
            0 <= j < n + 1 && {
                let dj = grid_offset(j, period);
                (dj <= h / 2 && y == h / 2 - dj) || y == h / 2 + dj
            };
        if j < n {
            assert(grid_rows_upto(h, period, n, y));
        }
    }
}

/// The product of two values below `2^64` fits in a `u128`.
proof fn lemma_u64_mul_fits(a: u128, b: u128)
    requires
        a <= 0xFFFF_FFFF_FFFF_FFFF,
        b <= 0xFFFF_FFFF_FFFF_FFFF,
    ensures
        a * b <= 0xFFFF_FFFF_FFFF_FFFF * 0xFFFF_FFFF_FFFF_FFFF,
{
    assert(a * b <= 0xFFFF_FFFF_FFFF_FFFFu128 * 0xFFFF_FFFF_FFFF_FFFFu128) by (nonlinear_arith)
        requires
            a <= 0xFFFF_FFFF_FFFF_FFFFu128,
            b <= 0xFFFF_FFFF_FFFF_FFFFu128,
    ;
}

impl GraphPlotter {
    /// Draws a full-width horizontal line at row `y`; an out-of-range
    /// row leaves the buffer untouched.
    pub fn draw_hline(&mut self, y: usize, color: u32)
        requires
            old(self).wf(),
        ensures
            final(self).wf(),
            old(self).same_geometry(*final(self)),
            final(self).buffer@.len() == old(self).buffer@.len(),
            forall|xx: int, yy: int|
                0 <= xx < old(self).width && 0 <= yy < old(self).height
                    ==> #[trigger] final(self).pix(xx, yy) == (if yy == y {
                    color
                } else {
                    old(self).pix(xx, yy)
                }),
    {
        let ghost w = old(self).width as int;
        let ghost h = old(self).height as int;
        let mut x: usize = 0;
        while x < self.width
            invariant
                x <= old(self).width,
                self.wf(),
                old(self).same_geometry(*self),
                self.buffer@.len() == old(self).buffer@.len(),
                forall|xx: int, yy: int|
                    0 <= xx < w && 0 <= yy < h ==> #[trigger] self.pix(xx, yy) == (if yy == y && xx
                        < x {
                        color
                    } else {
                        old(self).pix(xx, yy)
                    }),
            decreases old(self).width - x,
        {
            let ghost pre = *self;
            self.draw_pixel(x, y, color);
            proof {
                lemma_draw_pixel_pointwise(
                    pre.buffer@,
                    self.buffer@,
                    w,
                    h,
                    x as int,
                    y as int,
                    color,
                );
                assert forall|xx: int, yy: int|
                    0 <= xx < w && 0 <= yy < h implies #[trigger] self.pix(xx, yy) == (if yy == y
                    && xx < x + 1 {
                    color
                } else {
                    old(self).pix(xx, yy)
                }) by {
                    lemma_row_major_bound(w, h, xx, yy);
                    assert(pre.pix(xx, yy) == (if yy == y && xx < x {
                        color
                    } else {
                        old(self).pix(xx, yy)
                    }));
                    assert(self.pix(xx, yy) == self.buffer@[yy * w + xx]);
                }
            }
            x = x + 1;
        }
    }

    /// Draws a full-height vertical line at column `x`; an out-of-range
    /// column leaves the buffer untouched.
    pub fn draw_vline(&mut self, x: usize, color: u32)
        requires
            old(self).wf(),
        ensures
            final(self).wf(),
            old(self).same_geometry(*final(self)),
            final(self).buffer@.len() == old(self).buffer@.len(),
            forall|xx: int, yy: int|
                0 <= xx < old(self).width && 0 <= yy < old(self).height
                    ==> #[trigger] final(self).pix(xx, yy) == (if xx == x {
                    color
                } else {
                    old(self).pix(xx, yy)
                }),
    {
        let ghost w = old(self).width as int;
        let ghost h = old(self).height as int;
        let mut y: usize = 0;
        while y < self.height
            invariant
                y <= old(self).height,
                self.wf(),
                old(self).same_geometry(*self),
                self.buffer@.len() == old(self).buffer@.len(),
                forall|xx: int, yy: int|
                    0 <= xx < w && 0 <= yy < h ==> #[trigger] self.pix(xx, yy) == (if xx == x && yy
                        < y {
                        color
                    } else {
                        old(self).pix(xx, yy)
                    }),
            decreases old(self).height - y,
        {
            let ghost pre = *self;
            self.draw_pixel(x, y, color);
            proof {
                lemma_draw_pixel_pointwise(
                    pre.buffer@,
                    self.buffer@,
                    w,
                    h,
                    x as int,
                    y as int,
                    color,
                );
                assert forall|xx: int, yy: int|
                    0 <= xx < w && 0 <= yy < h implies #[trigger] self.pix(xx, yy) == (if xx == x
                    && yy < y + 1 {
                    color
                } else {
                    old(self).pix(xx, yy)
                }) by {
                    lemma_row_major_bound(w, h, xx, yy);
                    assert(pre.pix(xx, yy) == (if xx == x && yy < y {
                        color
                    } else {
                        old(self).pix(xx, yy)
                    }));
                    assert(self.pix(xx, yy) == self.buffer@[yy * w + xx]);
                }
            }
            y = y + 1;
        }
    }

    /// Draws the reference grid: `height / period_y` horizontal line
    /// pairs and `width / period_x` vertical line pairs, symmetric about
    /// the buffer center at the accelerating line-pair distances; lines
    /// that fall outside the buffer are dropped.
    pub fn draw_grid(&mut self, color: u32, period_x: usize, period_y: usize)
        requires
            old(self).wf(),
            1 <= period_x,
            1 <= period_y,
        ensures
            final(self).wf(),
            old(self).same_geometry(*final(self)),
            final(self).buffer@.len() == old(self).buffer@.len(),
            forall|x: int, y: int|
                0 <= x < old(self).width && 0 <= y < old(self).height
                    ==> #[trigger] final(self).pix(x, y) == (if on_grid_row(
                    old(self).height as int,
                    period_y as int,
                    y,
                ) || on_grid_col(old(self).width as int, period_x as int, x) {
                    color
                } else {
                    old(self).pix(x, y)
                }),
    {
        let ghost w = old(self).width as int;
        let ghost h = old(self).height as int;

        let n_rows = self.height / period_y;
        let half_h = self.height / 2;
        let mut i: usize = 0;
        while i < n_rows
            invariant
                i <= n_rows,
                self.wf(),
                old(self).same_geometry(*self),
                self.buffer@.len() == old(self).buffer@.len(),
                n_rows == old(self).height / period_y,
                half_h == old(self).height / 2,
                1 <= period_y,
                forall|x: int, y: int|
                    0 <= x < w && 0 <= y < h ==> #[trigger] self.pix(x, y) == (if grid_rows_upto(
                        h,
                        period_y as int,
                        i as int,
                        y,
                    ) {
                        color
                    } else {
                        old(self).pix(x, y)
                    }),
            decreases n_rows - i,
        {
            proof {
                lemma_u64_mul_fits(period_y as u128, i as u128);
            }
            let d128: u128 = ((i as u128) + (period_y as u128) * (i as u128)) / 2;
            let ghost d = grid_offset(i as int, period_y as int);
            assert(d128 == d);

            let ghost pre = *self;
            if d128 <= half_h as u128 {
                self.draw_hline(half_h - (d128 as usize), color);
            }
            let ghost mid = *self;
            if d128 <= usize::MAX as u128 - half_h as u128 {
                self.draw_hline(half_h + (d128 as usize), color);
            }
            proof {
                lemma_grid_rows_step(h, period_y as int, i as int, 0);
                assert forall|x: int, y: int|
                    0 <= x < w && 0 <= y < h implies #[trigger] self.pix(x, y) == (if grid_rows_upto(
                    h,
                    period_y as int,
                    i as int + 1,
                    y,
                ) {
                    color
                } else {
                    old(self).pix(x, y)
                }) by {
                    lemma_grid_rows_step(h, period_y as int, i as int, y);
                    assert(pre.pix(x, y) == (if grid_rows_upto(h, period_y as int, i as int, y) {
                        color
                    } else {
                        old(self).pix(x, y)
                    }));
                    if d128 <= half_h as u128 {
                        assert(mid.pix(x, y) == (if y == half_h - d128 {
                            color
                        } else {
                            pre.pix(x, y)
                        }));
                    } else {
                        assert(mid == pre);
                    }
                    if d128 <= usize::MAX as u128 - half_h as u128 {
                        assert(self.pix(x, y) == (if y == half_h + d128 {
                            color
                        } else {
                            mid.pix(x, y)
                        }));
                    } else {
                        assert(*self == mid);
                        assert(y <= usize::MAX);
                        assert(y != h / 2 + d);
                    }
                }
            }
            i = i + 1;
        }

        let ghost rows_done = *self;

        let n_cols = self.width / period_x;
        let half_w = self.width / 2;
        let mut j: usize = 0;
        while j < n_cols
            invariant
                j <= n_cols,
                self.wf(),
                old(self).same_geometry(*self),
                self.buffer@.len() == old(self).buffer@.len(),
                n_cols == old(self).width / period_x,
                half_w == old(self).width / 2,
                1 <= period_x,
                forall|x: int, y: int|
                    0 <= x < w && 0 <= y < h ==> #[trigger] self.pix(x, y) == (if grid_rows_upto(
                        w,
                        period_x as int,
                        j as int,
                        x,
                    ) {
                        color
                    } else {
                        rows_done.pix(x, y)
                    }),
            decreases n_cols - j,
        {
            proof {
                lemma_u64_mul_fits(period_x as u128, j as u128);
            }
            let d128: u128 = ((j as u128) + (period_x as u128) * (j as u128)) / 2;
            let ghost d = grid_offset(j as int, period_x as int);
            assert(d128 == d);

            let ghost pre = *self;
            if d128 <= half_w as u128 {
                self.draw_vline(half_w - (d128 as usize), color);
            }
            let ghost mid = *self;
            if d128 <= usize::MAX as u128 - half_w as u128 {
                self.draw_vline(half_w + (d128 as usize), color);
            }
            proof {
                assert forall|x: int, y: int|
                    0 <= x < w && 0 <= y < h implies #[trigger] self.pix(x, y) == (if grid_rows_upto(
                    w,
                    period_x as int,
                    j as int + 1,
                    x,
                ) {
                    color
                } else {
                    rows_done.pix(x, y)
                }) by {
                    lemma_grid_rows_step(w, period_x as int, j as int, x);
                    assert(pre.pix(x, y) == (if grid_rows_upto(w, period_x as int, j as int, x) {
                        color
                    } else {
                        rows_done.pix(x, y)
                    }));
                    if d128 <= half_w as u128 {
                        assert(mid.pix(x, y) == (if x == half_w - d128 {
                            color
                        } else {
                            pre.pix(x, y)
                        }));
                    } else {
                        assert(mid == pre);
                    }
                    if d128 <= usize::MAX as u128 - half_w as u128 {
                        assert(self.pix(x, y) == (if x == half_w + d128 {
                            color
                        } else {
                            mid.pix(x, y)
                        }));
                    } else {
                        assert(*self == mid);
                        assert(x != w / 2 + d);
                    }
                }
            }
            j = j + 1;
        }
    }
}

} // verus!
