use rlottie_core::types::{
    Color, Composition, ImageLayer, Layer, MatteType, PathCommand, PreCompLayer, ShapeLayer,
};

fn fx(v: f32) -> i32 {
    (v * 65536.0) as i32
}

fn square_cmds(x0: f32, y0: f32, x1: f32, y1: f32) -> Vec<PathCommand> {
    let p = |x: f32, y: f32| rlottie_core::types::Vec2Fx { x: fx(x), y: fx(y) };
    vec![
        PathCommand::MoveTo(p(x0, y0)),
        PathCommand::LineTo(p(x1, y0)),
        PathCommand::LineTo(p(x1, y1)),
        PathCommand::LineTo(p(x0, y1)),
        PathCommand::Close,
    ]
}

fn shape() -> ShapeLayer {
    ShapeLayer {
        paths: vec![],
        fill: None,
        stroke: None,
        stroke_width: fx(1.0),
        mask: None,
        trim: None,
        animators: vec![],
        is_mask: false,
        matte: None,
    }
}

fn comp(width: u32, height: u32, layers: Vec<Layer>) -> Composition {
    Composition { width, height, start_frame: 0, end_frame: 0, fps: fx(60.0), layers }
}

#[test]
fn filled_square_scene() {
    let mut s = shape();
    s.paths = vec![square_cmds(1.0, 1.0, 5.0, 5.0)];
    s.fill = Some(Color { r: 0, g: 0, b: 0, a: 255 });
    let c = comp(8, 8, vec![Layer::Shape(s)]);
    let mut buf = vec![0u8; 8 * 8 * 4];
    c.render_sync(0, &mut buf, 8, 8, 8 * 4);
    let off = 3 * 8 * 4 + 3 * 4;
    assert_eq!(&buf[off..off + 4], &[0, 0, 0, 255]);
}

#[test]
fn stroked_square_scene() {
    let mut s = shape();
    s.paths = vec![square_cmds(1.0, 1.0, 5.0, 5.0)];
    s.stroke = Some(Color { r: 255, g: 0, b: 0, a: 255 });
    s.stroke_width = fx(1.0);
    let c = comp(8, 8, vec![Layer::Shape(s)]);
    let mut buf = vec![0u8; 8 * 8 * 4];
    c.render_sync(0, &mut buf, 8, 8, 8 * 4);
    let off = 1 * 8 * 4 + 1 * 4;
    assert_eq!(&buf[off..off + 4], &[255, 0, 0, 255]);
}

#[test]
fn locally_masked_scene() {
    let mut s = shape();
    s.paths = vec![square_cmds(1.0, 1.0, 7.0, 7.0)];
    s.fill = Some(Color { r: 0, g: 255, b: 0, a: 255 });
    s.mask = Some(vec![square_cmds(3.0, 3.0, 5.0, 5.0)]);
    let c = comp(8, 8, vec![Layer::Shape(s)]);
    let mut buf = vec![0u8; 8 * 8 * 4];
    c.render_sync(0, &mut buf, 8, 8, 8 * 4);
    let off_out = 2 * 8 * 4 + 2 * 4;
    assert_eq!(&buf[off_out..off_out + 4], &[0, 0, 0, 0]);
    let off_in = 4 * 8 * 4 + 4 * 4;
    assert_eq!(&buf[off_in..off_in + 4], &[0, 255, 0, 255]);
}

#[test]
fn render_alpha_mask() {
    let mut matte_src = shape();
    matte_src.paths = vec![square_cmds(3.0, 3.0, 8.0, 8.0)];
    matte_src.is_mask = true;
    let mut consumer = shape();
    consumer.paths = vec![square_cmds(0.0, 0.0, 10.0, 10.0)];
    consumer.fill = Some(Color { r: 255, g: 0, b: 0, a: 255 });
    consumer.matte = Some(MatteType::Alpha);
    let c = comp(10, 10, vec![Layer::Shape(matte_src), Layer::Shape(consumer)]);
    let mut buf = vec![0u8; 10 * 10 * 4];
    c.render_sync(0, &mut buf, 10, 10, 10 * 4);
    let inside = 5 * 10 * 4 + 5 * 4;
    assert_eq!(&buf[inside..inside + 4], &[255, 0, 0, 255]);
    let outside = 1 * 10 * 4 + 1 * 4;
    assert_eq!(&buf[outside..outside + 4], &[0, 0, 0, 0]);
}

#[test]
fn inverted_matte_scene() {
    let mut matte_src = shape();
    matte_src.paths = vec![square_cmds(3.0, 3.0, 8.0, 8.0)];
    matte_src.is_mask = true;
    let mut consumer = shape();
    consumer.paths = vec![square_cmds(0.0, 0.0, 10.0, 10.0)];
    consumer.fill = Some(Color { r: 255, g: 0, b: 0, a: 255 });
    consumer.matte = Some(MatteType::AlphaInv);
    let c = comp(10, 10, vec![Layer::Shape(matte_src), Layer::Shape(consumer)]);
    let mut buf = vec![0u8; 10 * 10 * 4];
    c.render_sync(0, &mut buf, 10, 10, 10 * 4);
    let covered = 5 * 10 * 4 + 5 * 4;
    assert_eq!(&buf[covered..covered + 4], &[0, 0, 0, 0]);
    let uncovered = 1 * 10 * 4 + 1 * 4;
    assert_eq!(&buf[uncovered..uncovered + 4], &[255, 0, 0, 255]);
}

#[test]
fn render_precomp_layer() {
    let mut inner_shape = shape();
    inner_shape.paths = vec![square_cmds(1.0, 1.0, 7.0, 7.0)];
    inner_shape.fill = Some(Color { r: 0, g: 0, b: 255, a: 255 });
    let inner = comp(8, 8, vec![Layer::Shape(inner_shape)]);
    let outer = comp(8, 8, vec![Layer::PreComp(PreCompLayer { comp: Box::new(inner) })]);
    let mut buf = vec![0u8; 8 * 8 * 4];
    outer.render_sync(0, &mut buf, 8, 8, 8 * 4);
    let off = 4 * 8 * 4 + 4 * 4;
    assert_eq!(&buf[off..off + 4], &[0, 0, 255, 255]);
}

#[test]
fn trimmed_shape_renders_partially() {
    let mut s = shape();
    s.paths = vec![square_cmds(1.0, 1.0, 6.0, 6.0)];
    s.stroke = Some(Color { r: 255, g: 255, b: 255, a: 255 });
    s.stroke_width = fx(1.0);
    s.trim = Some((fx(0.0), fx(0.25)));
    let c = comp(8, 8, vec![Layer::Shape(s)]);
    let mut buf = vec![0u8; 8 * 8 * 4];
    c.render_sync(0, &mut buf, 8, 8, 8 * 4);
    // the first quarter of the outline is the top edge
    let top = 1 * 8 * 4 + 3 * 4;
    assert_eq!(buf[top], 255);
    // the last edge is not drawn
    let left = 4 * 8 * 4 + 1 * 4;
    assert_eq!(buf[left], 0);
}

#[test]
fn image_layers_do_not_draw() {
    let img = ImageLayer { width: 2, height: 2, pixels: vec![255u8; 16] };
    let c = comp(8, 8, vec![Layer::Image(img)]);
    let mut buf = vec![7u8; 8 * 8 * 4];
    c.render_sync(0, &mut buf, 8, 8, 8 * 4);
    assert!(buf.iter().all(|&b| b == 0));
}

#[test]
fn frame_looping() {
    let c = comp(8, 8, vec![]);
    let c = Composition { end_frame: 10, ..c };
    assert_eq!(c.frame_at(0), c.start_frame);
    assert_eq!(c.frame_at(12), c.start_frame + 1);
}

#[test]
fn frame_at_is_periodic() {
    let c = Composition {
        width: 8,
        height: 8,
        start_frame: 2,
        end_frame: 12,
        fps: fx(30.0),
        layers: vec![],
    };
    // period is 11 frames
    assert_eq!(c.frame_at(5 + 11), c.frame_at(5));
    assert_eq!(c.frame_at(22), c.start_frame);
    assert_eq!(c.frame_at(0), c.start_frame + 0);
}

#[test]
fn scaled_render_doubles_coordinates() {
    let mut s = shape();
    s.paths = vec![square_cmds(1.0, 1.0, 3.0, 3.0)];
    s.fill = Some(Color { r: 9, g: 8, b: 7, a: 255 });
    let c = comp(4, 4, vec![Layer::Shape(s)]);
    let mut buf = vec![0u8; 8 * 8 * 4];
    c.render_sync(0, &mut buf, 8, 8, 8 * 4);
    // the unit square (1..3) scales to (2..6)
    let inside = 4 * 8 * 4 + 4 * 4;
    assert_eq!(&buf[inside..inside + 4], &[9, 8, 7, 255]);
    let outside = 1 * 8 * 4 + 1 * 4;
    assert_eq!(&buf[outside..outside + 4], &[0, 0, 0, 0]);
}
