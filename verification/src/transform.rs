//! The exact coordinate transform between pixel space and math space.
//!
//! A math-space coordinate is carried as an exact rational `num / den`,
//! so the mapping `pixel = offset + coordinate * scale` (and its mirror
//! for the downward-growing y axis) can be computed and specified
//! without rounding surprises: the result is the true value truncated
//! toward zero, and a pixel column mapped into math space and back
//! returns to exactly the same column.

use vstd::prelude::*;
use vstd::math::abs;
use crate::surface::GraphPlotter;

verus! {

/// Largest magnitude of a rational numerator the transform accepts;
/// samples beyond it are reported as out of range (`None`) rather than
/// risking pixel coordinates that no buffer could hold.
pub const COORD_NUM_MAX: i128 = 0x1_0000_0000_0000_0000;

/// An exact rational math-space coordinate `num / den`.
pub struct MathCoord {
    pub num: i128,
    pub den: u64,
}

impl MathCoord {
    /// A coordinate is well formed when its denominator is positive.
    pub open spec fn wf(self) -> bool {
        1 <= self.den
    }
}

/// A magnitude within `COORD_NUM_MAX` scaled by a `u32` and divided by a
/// positive denominator stays far below the `u128` range.
proof fn lemma_scaled_magnitude_bound(mag: u128, scale: u128, den: u128)
    requires
        mag <= 0x1_0000_0000_0000_0000,
        scale <= 0xFFFF_FFFF,
        1 <= den,
    ensures
        mag * scale <= 0x1_0000_0000_0000_0000_0000_0000,
        mag * scale / (den as int) <= mag * scale,
{
    assert(mag * scale <= 0x1_0000_0000_0000_0000_0000_0000u128) by (nonlinear_arith)
        requires
            mag <= 0x1_0000_0000_0000_0000u128,
            scale <= 0xFFFF_FFFFu128,
    ;
    assert(mag * scale / (den as int) <= mag * scale) by (nonlinear_arith)
        requires
            1 <= den,
            0 <= mag * scale,
    ;
}

impl GraphPlotter {
    /// The math-space x coordinate of pixel column `px`:
    /// `(px - offset_x) / scale_x`, exactly.
    pub open spec fn spec_to_math_x(self, px: usize) -> MathCoord {
        MathCoord { num: (px - self.offset_x) as i128, den: self.scale_x as u64 }
    }

    /// The pixel column of math-space coordinate `c`:
    /// `offset_x + c * scale_x`, truncated toward zero, or `None` when
    /// the numerator is oversized or the column is no `usize`.
    pub open spec fn spec_to_pixel_x(self, c: MathCoord) -> Option<usize> {
        let q = abs(c.num as int) * self.scale_x / c.den as int;
        let p = if c.num >= 0 {
            self.offset_x + q
        } else {
            self.offset_x - q
        };
        if abs(c.num as int) <= COORD_NUM_MAX && 0 <= p <= usize::MAX {
            Some(p as usize)
        } else {
            None
        }
    }

    /// The pixel row of math-space coordinate `c`:
    /// `offset_y - c * scale_y` (math y grows upward, pixel rows grow
    /// downward), truncated toward zero, or `None` when the numerator is
    /// oversized or the row is no `usize`.
    pub open spec fn spec_to_pixel_y(self, c: MathCoord) -> Option<usize> {
        let q = abs(c.num as int) * self.scale_y / c.den as int;
        let p = if c.num >= 0 {
            self.offset_y - q
        } else {
            self.offset_y + q
        };
        if abs(c.num as int) <= COORD_NUM_MAX && 0 <= p <= usize::MAX {
            Some(p as usize)
        } else {
            None
        }
    }

    /// Maps a pixel column into math space by the inverse transform.
    pub fn to_math_x(&self, px: usize) -> (r: MathCoord)
        requires
            self.wf(),
        ensures
            r == self.spec_to_math_x(px),
            r.wf(),
    {
        MathCoord { num: px as i128 - self.offset_x as i128, den: self.scale_x as u64 }
    }

    /// Maps a math-space x coordinate to its pixel column.
    pub fn to_pixel_x(&self, c: &MathCoord) -> (r: Option<usize>)
        requires
            self.wf(),
            c.wf(),
        ensures
            r == self.spec_to_pixel_x(*c),
    {
        if c.num > COORD_NUM_MAX || c.num < -COORD_NUM_MAX {
            return None;
        }
        let mag: u128 = if c.num >= 0 {
            c.num as u128
        } else {
            (-c.num) as u128
        };
        proof {
            lemma_scaled_magnitude_bound(mag as u128, self.scale_x as u128, c.den as u128);
        }
        let q: u128 = mag * (self.scale_x as u128) / (c.den as u128);
        if c.num >= 0 {
            let p: u128 = self.offset_x as u128 + q;
            if p <= usize::MAX as u128 {
                Some(p as usize)
            } else {
                None
            }
        } else {
            if q > self.offset_x as u128 {
                None
            } else {
                Some(self.offset_x - q as usize)
            }
        }
    }

    /// Maps a math-space y coordinate to its pixel row.
    pub fn to_pixel_y(&self, c: &MathCoord) -> (r: Option<usize>)
        requires
            self.wf(),
            c.wf(),
        ensures
            r == self.spec_to_pixel_y(*c),
    {
        if c.num > COORD_NUM_MAX || c.num < -COORD_NUM_MAX {
            return None;
        }
        let mag: u128 = if c.num >= 0 {
            c.num as u128
        } else {
            (-c.num) as u128
        };
        proof {
            lemma_scaled_magnitude_bound(mag as u128, self.scale_y as u128, c.den as u128);
        }
        let q: u128 = mag * (self.scale_y as u128) / (c.den as u128);
        if c.num >= 0 {
            if q > self.offset_y as u128 {
                None
            } else {
                Some(self.offset_y - q as usize)
            }
        } else {
            let p: u128 = self.offset_y as u128 + q;
            if p <= usize::MAX as u128 {
                Some(p as usize)
            } else {
                None
            }
        }
    }
}

/// Transform round trip: mapping any pixel column into math space and
/// back yields exactly that column, for every well-formed surface.
pub proof fn lemma_transform_round_trip(p: GraphPlotter, px: usize)
    requires
        p.wf(),
    ensures
        p.spec_to_pixel_x(p.spec_to_math_x(px)) == Some(px),
{
    let c = p.spec_to_math_x(px);
    let n = c.num as int;
    let s = p.scale_x as int;
    assert(n == px - p.offset_x);
    assert(c.den == p.scale_x);
    assert(abs(n) * s / s == abs(n)) by (nonlinear_arith)
        requires
            1 <= s,
            0 <= abs(n),
    ;
    if n >= 0 {
        assert(p.offset_x + abs(n) == px as int);
    } else {
        assert(p.offset_x - abs(n) == px as int);
    }
}

} // verus!
