//! Text layers.
//!
//! Glyph rasterization is an external collaborator: the loader turns each
//! character of a text layer into a monochrome coverage bitmap with integer
//! metrics before rendering begins.  The renderer only blits those bitmaps,
//! which is verified in the raster module.

use vstd::prelude::*;

verus! {

/// Metrics of one rasterized glyph, in whole pixels except for the Q16.16
/// advance width.
#[derive(Debug, Clone, Copy)]
pub struct GlyphMetrics {
    /// Width of the coverage bitmap in pixels
    pub width: usize,
    /// Height of the coverage bitmap in pixels
    pub height: usize,
    /// Horizontal offset of the bitmap's left edge from the pen position
    pub xmin: i32,
    /// Vertical offset of the bitmap's bottom edge from the baseline
    pub ymin: i32,
    /// Advance width in Q16.16 pixels
    pub advance: i64,
}

/// One glyph of a text layer: metrics plus a row-major coverage bitmap
/// (0 = no coverage, 255 = full coverage), starting at the top-left corner.
#[derive(Debug, Clone)]
pub struct Glyph {
    /// Sizing and positioning metadata
    pub metrics: GlyphMetrics,
    /// Coverage bytes, `metrics.width * metrics.height` of them
    pub coverage: Vec<u8>,
}

/// A text layer: one pre-rasterized glyph per character of the text, drawn
/// left to right from a baseline position.
#[derive(Debug, Clone)]
pub struct TextLayer {
    /// UTF-8 string the glyphs were rasterized from
    pub text: String,
    /// Text color
    pub color: crate::types::Color,
    /// Font size in Q16.16 pixels
    pub size: i32,
    /// Baseline position of the text, Q16.16 composition-space coordinates
    pub position: crate::types::Vec2Fx,
    /// Coverage bitmaps, one per character of `text`, in text order
    pub glyphs: Vec<Glyph>,
}

} // verus!
