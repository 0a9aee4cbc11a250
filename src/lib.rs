//! Fractal generation engine: parameter validation, variant dispatch, colour
//! schemes, escape-time shading, Koch and Sierpinski geometry, a clipping
//! rasterizer and an SVG text builder, with their contracts proved by Verus.
//!
//! Real-valued request parameters travel through the library as the
//! IEEE-754 bit patterns of doubles (`u64`); the escape-time iteration
//! itself runs in doubles outside the library and hands in its per-pixel
//! counts. Geometry works in fixed point (see `geometry`).

mod raster_image;
mod text;

pub mod buffer;
pub mod colors;
pub mod dispatch;
pub mod error;
pub mod escape;
pub mod fractal;
pub mod geometry;
pub mod koch;
pub mod laws;
pub mod params;
pub mod raster;
pub mod sierpinski;
pub mod svg;
pub mod validation;

pub use buffer::PixelBuffer;
pub use colors::{iterations_to_color, ColorScheme};
pub use error::{FractalError, JuliaFault};
pub use escape::{JuliaSet, MandelbrotSet};
pub use fractal::FractalKind;
pub use geometry::{Point, Segment};
pub use koch::KochSnowflake;
pub use params::FractalParams;
pub use sierpinski::{SierpinskiTriangle, Triangle};
pub use svg::SvgBuilder;
