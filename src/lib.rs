//! Escape-time rendering of the Mandelbrot set with histogram coloring.
//!
//! The library holds the integer and structural parts of the pipeline: the
//! escape-time loop, the histogram of escape counts, the choice of hue sextant,
//! pixel packing, checks on the configuration, and the two-pass render that
//! ties them together. The numeric work on points of the complex plane is handed in
//! by the caller as closures.

pub mod color;
pub mod config;
pub mod escape;
pub mod histogram;
pub mod pixel;
pub mod render;

pub use pixel::PixelFormat;
