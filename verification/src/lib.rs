//! A deterministic software renderer for declarative 2D vector animations.
//!
//! The engine consumes an in-memory [`types::Composition`] (dimensions, frame
//! range and a draw-ordered list of layers) and renders single frames into an
//! RGBA8888 byte buffer.  All geometry and timing arithmetic is carried out in
//! Q16.16 fixed point so that every computation is exact integer arithmetic.

pub mod fixed;
pub mod parse;
pub mod path;
pub mod raster;
pub mod render;
pub mod tess;
pub mod text;
pub mod timeline;
pub mod types;

pub use fixed::FX_ONE;
