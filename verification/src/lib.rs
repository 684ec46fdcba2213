//! Escape-time rendering of Julia sets: the iteration counter, the colour
//! of an iteration count, and the layout of the pixel buffer.

pub mod color;
pub mod kernel;
pub mod raster;
