//! Renders a scene of 3D lines and triangles onto a fixed-size character
//! grid: camera-space rotation, perspective projection, line and triangle
//! rasterization with a per-cell depth buffer, and far-to-near ordering.
//!
//! Coordinates are fixed-point integers (`UNIT` steps per world unit),
//! rotations are given by a fixed-point cosine and sine (`TRIG_ONE` is 1.0),
//! and stored depths are fixed-point too (`DEPTH_ONE` is one world unit).
use vstd::prelude::*;

pub mod fixed;
pub mod point;
pub mod projection;
pub mod display;
pub mod line;
pub mod triangle;
pub mod procedural;

verus! {

/// Width of the character grid, in cells.
pub const WIDTH: usize = 120;

/// Height of the character grid, in cells.
pub const HEIGHT: usize = 40;

/// Character of a cell that nothing has been drawn on.
pub const BLANK: u8 = 32;

} // verus!
