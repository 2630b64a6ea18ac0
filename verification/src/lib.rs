//! Rasterization core of an interactive 2D function plotter.
//!
//! A [`surface::GraphPlotter`] owns a pixel buffer together with the
//! scale/offset transform that places the mathematical origin on it.
//! [`axes`] and [`grid`] draw the fixed reference geometry, [`curve`]
//! connects sampled function values into a gap-free polyline, and
//! [`input`] applies one frame of keyboard state to the view under its
//! documented bounds. The host shell samples the user's expression and
//! presents the finished buffer; the core never touches a window or an
//! evaluator.
//!
//! Numeric model: every reachable scale is a whole number of pixels per
//! math unit (they start at 50 and move in steps of 2), so scales are
//! carried as integers, and the origin offsets as whole pixel
//! coordinates at the buffer center. Math-space coordinates cross the
//! transform as exact rationals ([`transform::MathCoord`]), so the
//! mapping is specified and proved without rounding slack. A sampled
//! value that cannot be evaluated or falls outside the representable
//! pixel range is skipped, and the polyline restarts after it.
#![verifier::loop_isolation(false)]

pub mod axes;
pub mod curve;
pub mod grid;
pub mod input;
pub mod surface;
pub mod transform;
