//! The per-frame view-state step: one keyboard snapshot mutates the
//! scales and the grid periods, under the documented bounds, and clears
//! the buffer whenever anything changed.

use vstd::prelude::*;
use crate::surface::BACKGROUND_COLOR;
use crate::surface::GraphPlotter;

verus! {

/// Scale both axes return to on a reset.
pub const DEFAULT_SCALE: u32 = 50;

/// Smallest scale a shrink key may leave behind; a shrink is refused
/// once the scale is at or below this bound.
pub const MIN_SCALE: u32 = 10;

/// Grid period for the x direction after a reset.
pub const RESET_PERIOD_X: usize = 156;

/// Grid period for the y direction after a reset.
pub const RESET_PERIOD_Y: usize = 100;

/// The keys of one frame, polled once and handed in as plain flags.
pub struct InputSnapshot {
    pub up: bool,
    pub down: bool,
    pub right: bool,
    pub left: bool,
    pub reset: bool,
}

/// Advisory spacing parameters for the grid rasterizer, owned by the
/// frame loop and kept loosely in sync with the scales.
pub struct GridPeriods {
    pub period_x: usize,
    pub period_y: usize,
}

/// The y scale after one frame: `up` grows it by 2, `down` shrinks it
/// by 2 only while it is strictly above the minimum bound, and `reset`
/// overrides everything with the default.
pub open spec fn next_scale_y(s: u32, input: InputSnapshot) -> u32 {
    let s1 = if input.up && s <= u32::MAX - 2 {
        (s + 2) as u32
    } else {
        s
    };
    let s2 = if input.down && s1 > MIN_SCALE {
        (s1 - 2) as u32
    } else {
        s1
    };
    if input.reset {
        DEFAULT_SCALE
    } else {
        s2
    }
}

/// The x scale after one frame; `right` grows, `left` shrinks under the
/// same bound, `reset` overrides.
pub open spec fn next_scale_x(s: u32, input: InputSnapshot) -> u32 {
    let s1 = if input.right && s <= u32::MAX - 2 {
        (s + 2) as u32
    } else {
        s
    };
    let s2 = if input.left && s1 > MIN_SCALE {
        (s1 - 2) as u32
    } else {
        s1
    };
    if input.reset {
        DEFAULT_SCALE
    } else {
        s2
    }
}

/// The y grid period after one frame. It tracks the y scale: it grows
/// with `up`, shrinks with an effective `down` while strictly above 6,
/// and resets to its own default.
pub open spec fn next_period_y(p: usize, s: u32, input: InputSnapshot) -> usize {
    let s1 = if input.up && s <= u32::MAX - 2 {
        (s + 2) as u32
    } else {
        s
    };
    let p1 = if input.up && p <= usize::MAX - 2 {
        (p + 2) as usize
    } else {
        p
    };
    let p2 = if input.down && s1 > MIN_SCALE && p1 > 6 {
        (p1 - 2) as usize
    } else {
        p1
    };
    if input.reset {
        RESET_PERIOD_Y
    } else {
        p2
    }
}

/// The x grid period after one frame, tracking the x scale, with its
/// shrink guarded at strictly above 5.
pub open spec fn next_period_x(p: usize, s: u32, input: InputSnapshot) -> usize {
    let s1 = if input.right && s <= u32::MAX - 2 {
        (s + 2) as u32
    } else {
        s
    };
    let p1 = if input.right && p <= usize::MAX - 2 {
        (p + 2) as usize
    } else {
        p
    };
    let p2 = if input.left && s1 > MIN_SCALE && p1 > 5 {
        (p1 - 2) as usize
    } else {
        p1
    };
    if input.reset {
        RESET_PERIOD_X
    } else {
        p2
    }
}

/// Whether the frame took any effective branch, which clears the buffer.
pub open spec fn spec_cleared(sx: u32, sy: u32, input: InputSnapshot) -> bool {
    let sy1 = if input.up && sy <= u32::MAX - 2 {
        (sy + 2) as u32
    } else {
        sy
    };
    let sx1 = if input.right && sx <= u32::MAX - 2 {
        (sx + 2) as u32
    } else {
        sx
    };
    ||| input.up
    ||| (input.down && sy1 > MIN_SCALE)
    ||| input.right
    ||| (input.left && sx1 > MIN_SCALE)
    ||| input.reset
}

impl GraphPlotter {
    /// Applies one frame of keyboard input to the view state: grow keys
    /// raise a scale by 2, shrink keys lower it by 2 only while it is
    /// strictly above the minimum, reset restores the defaults; the grid
    /// periods follow along, and any effective branch clears the buffer
    /// to the background color.
    pub fn handle_input(&mut self, periods: &mut GridPeriods, input: &InputSnapshot)
        requires
            old(self).wf(),
        ensures
            final(self).wf(),
            final(self).width == old(self).width,
            final(self).height == old(self).height,
            final(self).offset_x == old(self).offset_x,
            final(self).offset_y == old(self).offset_y,
            final(self).scale_x == next_scale_x(old(self).scale_x, *input),
            final(self).scale_y == next_scale_y(old(self).scale_y, *input),
            final(periods).period_x == next_period_x(
                old(periods).period_x,
                old(self).scale_x,
                *input,
            ),
            final(periods).period_y == next_period_y(
                old(periods).period_y,
                old(self).scale_y,
                *input,
            ),
            final(self).buffer@.len() == old(self).buffer@.len(),
            spec_cleared(old(self).scale_x, old(self).scale_y, *input) ==> forall|i: int|
                0 <= i < final(self).buffer@.len() ==> final(self).buffer@[i] == BACKGROUND_COLOR,
            !spec_cleared(old(self).scale_x, old(self).scale_y, *input)
                ==> final(self).buffer@ == old(self).buffer@,
    {
        if input.up {
            self.clear(BACKGROUND_COLOR);
            if self.scale_y <= u32::MAX - 2 {
                self.scale_y = self.scale_y + 2;
            }
            if periods.period_y <= usize::MAX - 2 {
                periods.period_y = periods.period_y + 2;
            }
        }
        if input.down && self.scale_y > MIN_SCALE {
            self.clear(BACKGROUND_COLOR);
            self.scale_y = self.scale_y - 2;
            if periods.period_y > 6 {
                periods.period_y = periods.period_y - 2;
            }
        }
        if input.right {
            self.clear(BACKGROUND_COLOR);
            if self.scale_x <= u32::MAX - 2 {
                self.scale_x = self.scale_x + 2;
            }
            if periods.period_x <= usize::MAX - 2 {
                periods.period_x = periods.period_x + 2;
            }
        }
        if input.left && self.scale_x > MIN_SCALE {
            self.clear(BACKGROUND_COLOR);
            self.scale_x = self.scale_x - 2;
            if periods.period_x > 5 {
                periods.period_x = periods.period_x - 2;
            }
        }
        if input.reset {
            self.clear(BACKGROUND_COLOR);
            self.scale_x = DEFAULT_SCALE;
            self.scale_y = DEFAULT_SCALE;
            periods.period_y = RESET_PERIOD_Y;
            periods.period_x = RESET_PERIOD_X;
        }
    }
}

/// Scale lower bound: from an even scale at or above the minimum, no
/// frame of input — shrink keys included — can take it below the
/// minimum, and it stays even, so the bound holds over any number of
/// frames.
pub proof fn lemma_scale_y_lower_bound(s: u32, input: InputSnapshot)
    requires
        s >= MIN_SCALE,
        s % 2 == 0,
    ensures
        next_scale_y(s, input) >= MIN_SCALE,
        next_scale_y(s, input) % 2 == 0,
{
}

/// Scale lower bound for the x axis, mirroring the y axis law.
pub proof fn lemma_scale_x_lower_bound(s: u32, input: InputSnapshot)
    requires
        s >= MIN_SCALE,
        s % 2 == 0,
    ensures
        next_scale_x(s, input) >= MIN_SCALE,
        next_scale_x(s, input) % 2 == 0,
{
}

/// Grid periods stay positive: no frame of input drives a positive
/// period to zero, so the grid rasterizer's precondition survives every
/// frame.
pub proof fn lemma_periods_stay_positive(
    px: usize,
    py: usize,
    sx: u32,
    sy: u32,
    input: InputSnapshot,
)
    requires
        1 <= px,
        1 <= py,
    ensures
        1 <= next_period_x(px, sx, input),
        1 <= next_period_y(py, sy, input),
{
}

/// Reset overrides everything: whatever the prior scales, a frame whose
/// input holds the reset key leaves both scales at the default.
pub proof fn lemma_reset_restores_defaults(sx: u32, sy: u32, input: InputSnapshot)
    requires
        input.reset,
    ensures
        next_scale_x(sx, input) == DEFAULT_SCALE,
        next_scale_y(sy, input) == DEFAULT_SCALE,
{
}

} // verus!
