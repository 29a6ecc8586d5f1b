use rlottie_core::path::Path;
use rlottie_core::raster::{draw_mask, draw_path, draw_path_masked, draw_stroke, draw_stroke_masked};
use rlottie_core::types::{Color, GradientStop, LinearGradient, Paint, RadialGradient, Vec2Fx};

fn fx(v: f32) -> i32 {
    (v * 65536.0) as i32
}

fn pt(x: f32, y: f32) -> Vec2Fx {
    Vec2Fx { x: fx(x), y: fx(y) }
}

fn square(x0: f32, y0: f32, x1: f32, y1: f32) -> Path {
    let mut path = Path::new();
    path.move_to(pt(x0, y0));
    path.line_to(pt(x1, y0));
    path.line_to(pt(x1, y1));
    path.line_to(pt(x0, y1));
    path.close();
    path
}

#[test]
fn draw_simple_rect() {
    let path = square(1.0, 1.0, 5.0, 5.0);
    let mut buf = vec![0u8; 8 * 8 * 4];
    let black = Color { r: 0, g: 0, b: 0, a: 255 };
    draw_path(&path, Paint::Solid(black), &mut buf, 8, 8, 8 * 4);
    let off = 3 * 8 * 4 + 3 * 4;
    assert_eq!(&buf[off..off + 4], &[0, 0, 0, 255]);
}

#[test]
fn stroke_simple_rect() {
    let path = square(1.0, 1.0, 5.0, 5.0);
    let mut buf = vec![0u8; 8 * 8 * 4];
    let red = Color { r: 255, g: 0, b: 0, a: 255 };
    draw_stroke(&path, fx(1.0), Paint::Solid(red), &mut buf, 8, 8, 8 * 4);
    let off = 1 * 8 * 4 + 1 * 4;
    assert_eq!(&buf[off..off + 4], &[255, 0, 0, 255]);
}

#[test]
fn draw_masked_rect() {
    let path = square(1.0, 1.0, 7.0, 7.0);
    let mask_path = square(3.0, 3.0, 5.0, 5.0);

    let mut mask_buf = vec![0u8; 8 * 8 * 4];
    let black = Color { r: 0, g: 0, b: 0, a: 255 };
    draw_path(&mask_path, Paint::Solid(black), &mut mask_buf, 8, 8, 8 * 4);

    let mut buf = vec![0u8; 8 * 8 * 4];
    let green = Color { r: 0, g: 255, b: 0, a: 255 };
    draw_path_masked(&path, Paint::Solid(green), &mask_buf, &mut buf, 8, 8, 8 * 4);

    let off_out = 2 * 8 * 4 + 2 * 4;
    assert_eq!(&buf[off_out..off_out + 4], &[0, 0, 0, 0]);
    let off_in = 4 * 8 * 4 + 4 * 4;
    assert_eq!(&buf[off_in..off_in + 4], &[0, 255, 0, 255]);
}

#[test]
fn stroke_respects_mask() {
    let path = square(1.0, 1.0, 6.0, 6.0);
    let mask_path = square(0.0, 0.0, 3.0, 3.0);
    let mut mask_buf = vec![0u8; 8 * 8 * 4];
    let black = Color { r: 0, g: 0, b: 0, a: 255 };
    draw_path(&mask_path, Paint::Solid(black), &mut mask_buf, 8, 8, 8 * 4);
    let mut buf = vec![0u8; 8 * 8 * 4];
    let red = Color { r: 255, g: 0, b: 0, a: 255 };
    draw_stroke_masked(&path, fx(1.0), Paint::Solid(red), &mask_buf, &mut buf, 8, 8, 8 * 4);
    let inside_mask = 1 * 8 * 4 + 1 * 4;
    assert_eq!(&buf[inside_mask..inside_mask + 4], &[255, 0, 0, 255]);
    let outside_mask = 5 * 8 * 4 + 5 * 4;
    assert_eq!(&buf[outside_mask..outside_mask + 4], &[0, 0, 0, 0]);
}

#[test]
fn linear_gradient_rect() {
    let path = square(0.0, 0.0, 8.0, 8.0);
    let grad = LinearGradient {
        start: pt(0.0, 0.0),
        end: pt(8.0, 0.0),
        stops: vec![
            GradientStop { offset: fx(0.0), color: Color { r: 255, g: 0, b: 0, a: 255 } },
            GradientStop { offset: fx(1.0), color: Color { r: 0, g: 0, b: 255, a: 255 } },
        ],
    };
    let mut buf = vec![0u8; 8 * 8 * 4];
    draw_path(&path, Paint::Linear(grad), &mut buf, 8, 8, 8 * 4);
    let left = 4 * 4;
    let right = 7 * 4 + 7 * 8 * 4;
    assert!(buf[left] > buf[right]);
    assert!(buf[right + 2] > buf[left + 2]);
}

#[test]
fn radial_gradient_center_color() {
    let path = square(0.0, 0.0, 8.0, 8.0);
    let grad = RadialGradient {
        center: pt(4.0, 4.0),
        radius: fx(4.0),
        stops: vec![
            GradientStop { offset: fx(0.0), color: Color { r: 255, g: 255, b: 255, a: 255 } },
            GradientStop { offset: fx(1.0), color: Color { r: 0, g: 0, b: 0, a: 255 } },
        ],
    };
    let mut buf = vec![0u8; 8 * 8 * 4];
    draw_path(&path, Paint::Radial(grad), &mut buf, 8, 8, 8 * 4);
    let center = 4 * 8 * 4 + 4 * 4;
    let corner = 0;
    assert!(buf[center] > 200);
    assert!(buf[corner] < buf[center]);
}

#[test]
fn source_over_blend_values() {
    let path = square(0.0, 0.0, 4.0, 4.0);
    let mut buf = vec![0u8; 4 * 4 * 4];
    let red_half = Color { r: 255, g: 0, b: 0, a: 128 };
    draw_path(&path, Paint::Solid(red_half), &mut buf, 4, 4, 4 * 4);
    // pixel (2, 1) lies strictly inside one fan triangle
    let off = 1 * 4 * 4 + 2 * 4;
    assert_eq!(&buf[off..off + 4], &[128, 0, 0, 128]);
    let blue_half = Color { r: 0, g: 0, b: 255, a: 128 };
    draw_path(&path, Paint::Solid(blue_half), &mut buf, 4, 4, 4 * 4);
    assert_eq!(&buf[off..off + 4], &[63, 0, 128, 191]);
}

#[test]
fn draw_mask_sets_coverage_bytes() {
    let path = square(1.0, 1.0, 3.0, 3.0);
    let mut mask = vec![0u8; 4 * 4];
    draw_mask(&path, &mut mask, 4, 4);
    assert_eq!(mask[1 * 4 + 1], 255);
    assert_eq!(mask[2 * 4 + 2], 255);
    assert_eq!(mask[0], 0);
    assert_eq!(mask[3 * 4 + 3], 0);
}
