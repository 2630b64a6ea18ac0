//! The polyline rasterizer: one sampled pixel row per pixel column is
//! drawn as a 2-pixel dot, and adjacent sampled columns are joined by a
//! vertical connecting segment spanning every row between them, so a
//! steep slope leaves no visual gap. A column whose sample is absent
//! (an unevaluable or out-of-range value) is skipped and breaks the
//! polyline.

use vstd::prelude::*;
use vstd::math::max;
use vstd::math::min;
use crate::surface::GraphPlotter;
use crate::surface::lemma_draw_pixel_pointwise;
use crate::surface::lemma_row_major_bound;

verus! {

/// Pixels the 2-pixel dot of sampled column `j` covers: the sample
/// itself and its diagonal neighbor one column right, one row down.
pub open spec fn dot_covers_at(samples: Seq<Option<usize>>, j: int, x: int, y: int) -> bool {
    samples[j] is Some && {
        let r = samples[j]->0 as int;
        (x == j && y == r) || (x == j + 1 && y == r + 1)
    }
}

/// Pixels the connecting segment between columns `j - 1` and `j`
/// covers: every row between the two samples (inclusive) at the left
/// column, and the same span shifted one row down at the right column.
pub open spec fn seg_covers_at(samples: Seq<Option<usize>>, j: int, x: int, y: int) -> bool {
    1 <= j && samples[j] is Some && samples[j - 1] is Some && {
        let lo = min(samples[j - 1]->0 as int, samples[j]->0 as int);
        let hi = max(samples[j - 1]->0 as int, samples[j]->0 as int);
        (x == j - 1 && lo <= y <= hi) || (x == j && lo + 1 <= y <= hi + 1)
    }
}

/// Pixels the polyline of the first `n` columns covers.
pub open spec fn covers_upto(samples: Seq<Option<usize>>, n: int, x: int, y: int) -> bool {
    exists|j: int|
        #![trigger dot_covers_at(samples, j, x, y)]
        0 <= j < n && (dot_covers_at(samples, j, x, y) || seg_covers_at(samples, j, x, y))
}

/// Pixels the whole drawn polyline covers.
pub open spec fn curve_covers(samples: Seq<Option<usize>>, x: int, y: int) -> bool {
    covers_upto(samples, samples.len() as int, x, y)
}

/// One more column extends the covered pixels by exactly its dot and
/// its connecting segment.
proof fn lemma_covers_step(samples: Seq<Option<usize>>, n: int, x: int, y: int)
    requires
        0 <= n,
    ensures
        covers_upto(samples, n + 1, x, y) <==> (covers_upto(samples, n, x, y) || dot_covers_at(
            samples,
            n,
            x,
            y,
        ) || seg_covers_at(samples, n, x, y)),
{
    if covers_upto(samples, n + 1, x, y) {
        let j = choose|j: int|
            #![trigger dot_covers_at(samples, j, x, y)]
            0 <= j < n + 1 && (dot_covers_at(samples, j, x, y) || seg_covers_at(samples, j, x, y));
        if j < n {
            assert(covers_upto(samples, n, x, y));
        }
    }
}

/// A pixel covered by a prefix of the polyline is covered by every
/// longer prefix.
proof fn lemma_covers_mono(samples: Seq<Option<usize>>, m: int, n: int, x: int, y: int)
    requires
        m <= n,
        covers_upto(samples, m, x, y),
    ensures
        covers_upto(samples, n, x, y),
{
    let j = choose|j: int|
        #![trigger dot_covers_at(samples, j, x, y)]
        0 <= j < m && (dot_covers_at(samples, j, x, y) || seg_covers_at(samples, j, x, y));
    assert(0 <= j < n && (dot_covers_at(samples, j, x, y) || seg_covers_at(samples, j, x, y)));
}

impl GraphPlotter {
    /// Draws rows `lo ..= hi` of column `x` (rows beyond the buffer are
    /// dropped, so oversized bounds are harmless).
    pub fn draw_vseg(&mut self, x: usize, lo: u128, hi: u128, color: u32)
        requires
            old(self).wf(),
        ensures
            final(self).wf(),
            old(self).same_geometry(*final(self)),
            final(self).buffer@.len() == old(self).buffer@.len(),
            forall|xx: int, yy: int|
                0 <= xx < old(self).width && 0 <= yy < old(self).height
                    ==> #[trigger] final(self).pix(xx, yy) == (if xx == x && lo <= yy <= hi {
                    color
                } else {
                    old(self).pix(xx, yy)
                }),
    {
        let ghost w = old(self).width as int;
        let ghost h = old(self).height as int;
        let end: u128 = if hi >= self.height as u128 {
            self.height as u128
        } else {
            hi + 1
        };
        let mut y: u128 = lo;
        while y < end
            invariant
                lo <= y,
                y <= end || y == lo,
                end <= old(self).height,
                end == (if hi >= old(self).height as u128 {
                    old(self).height as int
                } else {
                    hi + 1
                }),
                self.wf(),
                old(self).same_geometry(*self),
                self.buffer@.len() == old(self).buffer@.len(),
                forall|xx: int, yy: int|
                    0 <= xx < w && 0 <= yy < h ==> #[trigger] self.pix(xx, yy) == (if xx == x && lo
                        <= yy < y {
                        color
                    } else {
                        old(self).pix(xx, yy)
                    }),
            decreases end - y,
        {
            let ghost pre = *self;
            self.draw_pixel(x, y as usize, color);
            proof {
                lemma_draw_pixel_pointwise(
                    pre.buffer@,
                    self.buffer@,
                    w,
                    h,
                    x as int,
                    y as int,
                    color,
                );
                assert forall|xx: int, yy: int|
                    0 <= xx < w && 0 <= yy < h implies #[trigger] self.pix(xx, yy) == (if xx == x
                    && lo <= yy < y + 1 {
                    color
                } else {
                    old(self).pix(xx, yy)
                }) by {
                    lemma_row_major_bound(w, h, xx, yy);
                    assert(pre.pix(xx, yy) == (if xx == x && lo <= yy < y {
                        color
                    } else {
                        old(self).pix(xx, yy)
                    }));
                    assert(self.pix(xx, yy) == self.buffer@[yy * w + xx]);
                }
            }
            y = y + 1;
        }
    }

    /// Draws the sampled function graph: column `j` of `samples` holds
    /// the pixel row sampled for that pixel column, or nothing when the
    /// sample was skipped. Each sample becomes a 2-pixel dot, and two
    /// adjacent samples are joined by a vertical connecting segment, so
    /// exactly the covered pixels take the curve color and every other
    /// pixel keeps its previous color.
    pub fn draw_curve(&mut self, samples: &Vec<Option<usize>>, color: u32)
        requires
            old(self).wf(),
            samples@.len() == old(self).width,
        ensures
            final(self).wf(),
            old(self).same_geometry(*final(self)),
            final(self).buffer@.len() == old(self).buffer@.len(),
            forall|x: int, y: int|
                0 <= x < old(self).width && 0 <= y < old(self).height
                    ==> #[trigger] final(self).pix(x, y) == (if curve_covers(samples@, x, y) {
                    color
                } else {
                    old(self).pix(x, y)
                }),
    {
        let ghost w = old(self).width as int;
        let ghost h = old(self).height as int;

        let n = samples.len();
        let mut previous: Option<usize> = None;
        let mut px: usize = 0;
        while px < n
            invariant
                px <= n,
                n == samples@.len(),
                n == old(self).width,
                self.wf(),
                old(self).same_geometry(*self),
                self.buffer@.len() == old(self).buffer@.len(),
                previous == (if 0 < px {
                    samples@[px as int - 1]
                } else {
                    None::<usize>
                }),
                forall|x: int, y: int|
                    0 <= x < w && 0 <= y < h ==> #[trigger] self.pix(x, y) == (if covers_upto(
                        samples@,
                        px as int,
                        x,
                        y,
                    ) {
                        color
                    } else {
                        old(self).pix(x, y)
                    }),
            decreases n - px,
        {
            let ghost pre = *self;
            let sample = samples[px];
            match sample {
                None => {
                    previous = None;
                    proof {
                        assert forall|x: int, y: int|
                            0 <= x < w && 0 <= y < h implies #[trigger] self.pix(x, y)
                            == (if covers_upto(samples@, px as int + 1, x, y) {
                            color
                        } else {
                            old(self).pix(x, y)
                        }) by {
                            lemma_covers_step(samples@, px as int, x, y);
                        }
                    }
                },
                Some(py) => {
                    self.draw_pixel(px, py, color);
                    let ghost b1 = *self;
                    if py < usize::MAX {
                        self.draw_pixel(px + 1, py + 1, color);
                    }
                    let ghost b2 = *self;
                    let mut seg_lo: usize = 0;
                    let mut seg_hi: usize = 0;
                    let mut has_seg: bool = false;
                    match previous {
                        Some(prev) => {
                            seg_lo = if prev < py {
                                prev
                            } else {
                                py
                            };
                            seg_hi = if prev < py {
                                py
                            } else {
                                prev
                            };
                            has_seg = true;
                            self.draw_vseg(px - 1, seg_lo as u128, seg_hi as u128, color);
                        },
                        None => {},
                    }
                    let ghost b3 = *self;
                    if has_seg {
                        self.draw_vseg(px, seg_lo as u128 + 1, seg_hi as u128 + 1, color);
                    }
                    proof {
                        lemma_draw_pixel_pointwise(
                            pre.buffer@,
                            b1.buffer@,
                            w,
                            h,
                            px as int,
                            py as int,
                            color,
                        );
                        if py < usize::MAX {
                            lemma_draw_pixel_pointwise(
                                b1.buffer@,
                                b2.buffer@,
                                w,
                                h,
                                px as int + 1,
                                py as int + 1,
                                color,
                            );
                        }
                        assert forall|x: int, y: int|
                            0 <= x < w && 0 <= y < h implies #[trigger] self.pix(x, y)
                            == (if covers_upto(samples@, px as int + 1, x, y) {
                            color
                        } else {
                            old(self).pix(x, y)
                        }) by {
                            lemma_covers_step(samples@, px as int, x, y);
                            lemma_row_major_bound(w, h, x, y);
                            assert(pre.pix(x, y) == (if covers_upto(samples@, px as int, x, y) {
                                color
                            } else {
                                old(self).pix(x, y)
                            }));
                            assert(b1.pix(x, y) == b1.buffer@[y * w + x]);
                            assert(b2.pix(x, y) == b2.buffer@[y * w + x]);
                            if py < usize::MAX {
                                assert(b2.pix(x, y) == (if x == px + 1 && y == py + 1 {
                                    color
                                } else {
                                    b1.pix(x, y)
                                }));
                            } else {
                                assert(b2 == b1);
                                assert(y < py + 1);
                            }
                            if has_seg {
                                assert(b3.pix(x, y) == (if x == px - 1 && seg_lo <= y <= seg_hi {
                                    color
                                } else {
                                    b2.pix(x, y)
                                }));
                                assert(self.pix(x, y) == (if x == px && seg_lo + 1 <= y <= seg_hi
                                    + 1 {
                                    color
                                } else {
                                    b3.pix(x, y)
                                }));
                                assert(seg_lo == min(
                                    samples@[px as int - 1]->0 as int,
                                    samples@[px as int]->0 as int,
                                ));
                                assert(seg_hi == max(
                                    samples@[px as int - 1]->0 as int,
                                    samples@[px as int]->0 as int,
                                ));
                            } else {
                                assert(b3 == b2);
                                assert(*self == b3);
                                assert(!seg_covers_at(samples@, px as int, x, y));
                            }
                        }
                    }
                    previous = Some(py);
                },
            }
            px = px + 1;
        }
    }
}

/// Curve continuity: when two adjacent columns both carry a sample,
/// every row between the two sampled rows (inclusive) is covered by the
/// drawn polyline at the left column, so between adjacent samples no
/// vertical gap remains.
pub proof fn lemma_curve_continuity(samples: Seq<Option<usize>>, j: int, y: int)
    requires
        1 <= j < samples.len(),
        samples[j - 1] is Some,
        samples[j] is Some,
        min(samples[j - 1]->0 as int, samples[j]->0 as int) <= y <= max(
            samples[j - 1]->0 as int,
            samples[j]->0 as int,
        ),
    ensures
        curve_covers(samples, j - 1, y),
{
    assert(seg_covers_at(samples, j, j - 1, y));
    lemma_covers_step(samples, j, j - 1, y);
    lemma_covers_mono(samples, j + 1, samples.len() as int, j - 1, y);
}

} // verus!
