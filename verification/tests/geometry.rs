use rlottie_core::path::Path;
use rlottie_core::tess::tessellate;
use rlottie_core::types::Vec2Fx;

fn fx(v: f32) -> i32 {
    (v * 65536.0) as i32
}

fn pt(x: f32, y: f32) -> Vec2Fx {
    Vec2Fx { x: fx(x), y: fx(y) }
}

fn xf(v: i32) -> f32 {
    v as f32 / 65536.0
}

#[test]
fn path_build_and_flatten() {
    let mut path = Path::new();
    path.move_to(pt(0.0, 0.0));
    path.line_to(pt(1.0, 0.0));
    path.cubic_to(pt(1.0, 1.0), pt(0.0, 1.0), pt(0.0, 0.0));
    path.close();
    let segs = path.flatten(fx(0.01));
    assert!(segs.len() >= 2);
    assert_eq!(segs.first().unwrap().from, pt(0.0, 0.0));
    assert_eq!(segs.first().unwrap().to, pt(1.0, 0.0));
}

#[test]
fn path_trim_half() {
    let mut path = Path::new();
    path.move_to(pt(0.0, 0.0));
    path.line_to(pt(10.0, 0.0));
    let trimmed = path.trim(fx(0.0), fx(0.5), fx(0.01));
    let segs = trimmed.flatten(fx(0.01));
    assert_eq!(segs.len(), 1);
    assert!((xf(segs[0].to.x) - 5.0).abs() < 1e-5);
}

#[test]
fn path_trim_loop() {
    let mut path = Path::new();
    path.move_to(pt(0.0, 0.0));
    path.line_to(pt(10.0, 0.0));
    let trimmed = path.trim(fx(0.8), fx(0.2), fx(0.01));
    let segs = trimmed.flatten(fx(0.01));
    assert_eq!(segs.len(), 2);
    // the trim fractions are Q16.16, so the cut points carry the
    // representation granularity of 1/65536 scaled by the path length
    let tol = 10.0 * 2.0 / 65536.0;
    assert!((xf(segs[0].from.x) - 8.0).abs() < tol);
    assert!((xf(segs[1].to.x) - 2.0).abs() < tol);
}

#[test]
fn path_trim_equal_fractions_is_empty() {
    let mut path = Path::new();
    path.move_to(pt(0.0, 0.0));
    path.line_to(pt(10.0, 0.0));
    let trimmed = path.trim(fx(0.3), fx(0.3), fx(0.01));
    assert_eq!(trimmed.segments.len(), 0);
}

#[test]
fn path_trim_full_range_keeps_path() {
    let mut path = Path::new();
    path.move_to(pt(0.0, 0.0));
    path.line_to(pt(10.0, 0.0));
    path.close();
    let trimmed = path.trim(fx(0.0), fx(1.0), fx(0.01));
    assert_eq!(trimmed.segments.len(), path.segments.len());
}

#[test]
fn flatten_output_is_bounded() {
    let mut path = Path::new();
    path.move_to(pt(0.0, 0.0));
    path.cubic_to(pt(100.0, 300.0), pt(-200.0, -300.0), pt(5.0, 5.0));
    let segs = path.flatten(1);
    assert!(segs.len() <= 2 * 1024);
}

#[test]
fn segment_length_is_euclidean() {
    let mut path = Path::new();
    path.move_to(pt(0.0, 0.0));
    path.line_to(pt(3.0, 4.0));
    let len = path.length(fx(0.2));
    assert_eq!(len, 5 * 65536);
}

#[test]
fn triangulate_rectangle() {
    let mut path = Path::new();
    path.move_to(pt(0.0, 0.0));
    path.line_to(pt(1.0, 0.0));
    path.line_to(pt(1.0, 1.0));
    path.line_to(pt(0.0, 1.0));
    path.close();
    let mesh = tessellate(&path, fx(0.1), None);
    assert_eq!(mesh.indices.len(), 6);
    assert!(mesh.vertices.len() >= 4);
}

#[test]
fn tessellate_with_mask_range_trims_first() {
    let mut path = Path::new();
    path.move_to(pt(0.0, 0.0));
    path.line_to(pt(10.0, 0.0));
    let mesh = tessellate(&path, fx(0.1), Some((fx(0.0), fx(0.5))));
    // a trimmed open line yields two fan vertices and no triangle
    assert_eq!(mesh.vertices.len(), 2);
    assert_eq!(mesh.indices.len(), 0);
    assert!((xf(mesh.vertices[1].x) - 5.0).abs() < 1e-4);
}

#[test]
fn vec2fx_roundtrip() {
    let (vx, vy) = (1.5f32, -2.25f32);
    let fxv = Vec2Fx { x: (vx * 65536.0) as i32, y: (vy * 65536.0) as i32 };
    let (bx, by) = (fxv.x as f32 / 65536.0, fxv.y as f32 / 65536.0);
    assert!((vx - bx).abs() < 0.0001);
    assert!((vy - by).abs() < 0.0001);
}
