use rlottie_core::raster::draw_text;
use rlottie_core::text::{Glyph, GlyphMetrics, TextLayer};
use rlottie_core::types::{Color, Vec2Fx};

fn fx(v: f32) -> i32 {
    (v * 65536.0) as i32
}

fn block_glyph(w: usize, h: usize, advance: f32) -> Glyph {
    Glyph {
        metrics: GlyphMetrics {
            width: w,
            height: h,
            xmin: 0,
            ymin: 0,
            advance: (advance * 65536.0) as i64,
        },
        coverage: vec![255u8; w * h],
    }
}

#[test]
fn glyph_blits_above_baseline() {
    let layer = TextLayer {
        text: String::from("#"),
        color: Color { r: 0, g: 0, b: 0, a: 255 },
        size: fx(2.0),
        position: Vec2Fx { x: fx(1.0), y: fx(3.0) },
        glyphs: vec![block_glyph(2, 2, 2.0)],
    };
    let mut buf = vec![0u8; 8 * 8 * 4];
    draw_text(&layer, &mut buf, 8, 8, 8 * 4);
    // a 2x2 block above a baseline at y=3 covers rows 1 and 2
    let inside = 1 * 8 * 4 + 1 * 4;
    assert_eq!(&buf[inside..inside + 4], &[0, 0, 0, 255]);
    let below = 3 * 8 * 4 + 1 * 4;
    assert_eq!(&buf[below..below + 4], &[0, 0, 0, 0]);
}

#[test]
fn cursor_advances_between_glyphs() {
    let layer = TextLayer {
        text: String::from("##"),
        color: Color { r: 7, g: 7, b: 7, a: 255 },
        size: fx(1.0),
        position: Vec2Fx { x: fx(0.0), y: fx(1.0) },
        glyphs: vec![block_glyph(1, 1, 3.0), block_glyph(1, 1, 3.0)],
    };
    let mut buf = vec![0u8; 8 * 8 * 4];
    draw_text(&layer, &mut buf, 8, 8, 8 * 4);
    let first = 0 * 8 * 4 + 0 * 4;
    assert_eq!(buf[first], 7);
    let second = 0 * 8 * 4 + 3 * 4;
    assert_eq!(buf[second], 7);
    let skipped = 0 * 8 * 4 + 1 * 4;
    assert_eq!(buf[skipped], 0);
}

#[test]
fn glyph_coverage_scales_alpha() {
    let glyph = Glyph {
        metrics: GlyphMetrics { width: 1, height: 1, xmin: 0, ymin: 0, advance: 65536 },
        coverage: vec![128u8],
    };
    let layer = TextLayer {
        text: String::from("."),
        color: Color { r: 255, g: 0, b: 0, a: 255 },
        size: fx(1.0),
        position: Vec2Fx { x: fx(0.0), y: fx(1.0) },
        glyphs: vec![glyph],
    };
    let mut buf = vec![0u8; 4 * 4 * 4];
    draw_text(&layer, &mut buf, 4, 4, 4 * 4);
    // coverage 128 scales the alpha to 128 before blending
    assert_eq!(buf[0], 128);
    assert_eq!(buf[3], 128);
}
