//! The core of an interactive explorer of the Mandelbrot set.
//!
//! A session holds a view onto the complex plane. Keys pan and zoom the view
//! and change the depth and the density of the sampling; each frame shows the
//! view either as positions that a shading stage evaluates, or as samples
//! that were evaluated and coloured here.
//!
//! Coordinates are decimal fixed-point numbers (see `fixed`). Scale and
//! density, which only change by factors of nine tenths, are held exactly
//! (see `stepped`) and rounded where a coordinate or a digit is worked out.
//! Every result is exact or rounded in a stated way, so that each function's
//! contract says what it returns to the last digit.
//!
//! - `fixed`: the arithmetic.
//! - `stepped`: quantities that change in steps of nine tenths.
//! - `escape`: the escape-time evaluation of a point.
//! - `view`: the view and the keys that change it.
//! - `grid`: the lattice of samples and their colours.
//! - `render`: the two backends and what they draw.
//! - `session`: the loop from keys to frames.
//! - `status`: the status line of a frame.

use vstd::prelude::*;

pub mod escape;
pub mod fixed;
pub mod grid;
pub mod render;
pub mod session;
pub mod status;
pub mod stepped;
pub mod view;

verus! {

} // verus!
