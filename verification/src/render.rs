//! The frame renderer: a per-frame scene walk that converts layer records
//! into geometry, paint and mask operations.
//!
//! The output bytes are specified as a pure function of the composition,
//! the frame index and the target dimensions: rendering is deterministic.

use crate::fixed::{fx_div, fx_mul, to_i32_sat};
use crate::fixed::{clip32, clip64, fx_div_spec, fx_mul_spec};
use crate::path::{trim_spec, Path, PathSeg};
use crate::raster::{blend_masked, blend_masked_spec, draw_mask, draw_mask_spec, draw_path,
    draw_path_masked, draw_path_spec, draw_stroke, draw_stroke_masked, draw_stroke_spec,
    draw_text_at, draw_text_spec};
use crate::types::{Color, Composition, Layer, Paint, PathCommand, ShapeLayer, Vec2Fx};
use vstd::prelude::*;

verus! {

broadcast use crate::raster::lemma_draw_path_len, crate::raster::lemma_draw_stroke_len,
    crate::raster::lemma_draw_mask_len, crate::raster::lemma_draw_text_len;

/// The rasterization tolerance in Q16.16: one fifth of a pixel.
pub const RASTER_TOL: i32 = 13107;

/// A buffer of `n` zero bytes.
pub open spec fn zeros(n: nat) -> Seq<u8> {
    Seq::new(n, |i: int| 0u8)
}

/// One scale factor of the render: the target dimension over the
/// composition dimension, in Q16.16.
pub open spec fn scale_of(dim: int, comp_dim: int) -> int {
    fx_div_spec(clip64(dim * 65536), comp_dim * 65536)
}

/// A point scaled componentwise by the Q16.16 factors `(sx, sy)`.
pub open spec fn scale_pt(p: Vec2Fx, sx: int, sy: int) -> Vec2Fx {
    Vec2Fx {
        x: clip32(fx_mul_spec(p.x as int, sx)) as i32,
        y: clip32(fx_mul_spec(p.y as int, sy)) as i32,
    }
}

/// One path command converted to the geometry-kernel form, scaled into
/// output space.
pub open spec fn scale_cmd(cmd: PathCommand, sx: int, sy: int) -> PathSeg {
    match cmd {
        PathCommand::MoveTo(p) => PathSeg::MoveTo(scale_pt(p, sx, sy)),
        PathCommand::LineTo(p) => PathSeg::LineTo(scale_pt(p, sx, sy)),
        PathCommand::CubicTo(c1, c2, p) => PathSeg::Cubic(scale_pt(c1, sx, sy), scale_pt(c2, sx,
            sy), scale_pt(p, sx, sy)),
        PathCommand::Close => PathSeg::Close,
    }
}

/// A command list converted and scaled into output space.
pub open spec fn scale_cmds(cmds: Seq<PathCommand>, sx: int, sy: int) -> Seq<PathSeg> {
    Seq::new(cmds.len(), |i: int| scale_cmd(cmds[i], sx, sy))
}

/// The scratch state carried across layers: the destination, the matte mask
/// buffer, the matte layer buffer, and whether a matte mask is pending.
pub struct RenderState {
    /// Destination buffer contents
    pub dest: Seq<u8>,
    /// Byte-per-pixel matte mask buffer
    pub mask: Seq<u8>,
    /// RGBA matte layer buffer
    pub layer: Seq<u8>,
    /// Whether a matte mask has been rasterized and not yet consumed
    pub have_mask: bool,
}

/// The matte mask buffer after rasterizing the first `i` paths of a matte
/// source layer into it.
pub open spec fn mask_paths_iter(
    buf: Seq<u8>,
    paths: Seq<Vec<PathCommand>>,
    sx: int,
    sy: int,
    w: int,
    h: int,
    i: int,
) -> Seq<u8>
    decreases i,
{
    if i <= 0 {
        buf
    } else {
        draw_mask_spec(mask_paths_iter(buf, paths, sx, sy, w, h, i - 1), scale_cmds(paths[i
            - 1]@, sx, sy), w, h)
    }
}

/// The local clip buffer after filling the first `i` local mask paths into
/// it with opaque black.
pub open spec fn local_mask_iter(
    buf: Seq<u8>,
    paths: Seq<Vec<PathCommand>>,
    sx: int,
    sy: int,
    w: int,
    h: int,
    stride: int,
    i: int,
) -> Seq<u8>
    decreases i,
{
    if i <= 0 {
        buf
    } else {
        draw_path_spec(local_mask_iter(buf, paths, sx, sy, w, h, stride, i - 1), scale_cmds(
            paths[i - 1]@, sx, sy), Paint::Solid(Color { r: 0, g: 0, b: 0, a: 255 }),
            Option::None, w, h, stride)
    }
}

/// The scaled, optionally trimmed geometry of one shape path.
pub open spec fn shape_geometry(shape: ShapeLayer, cmds: Seq<PathCommand>, sx: int, sy: int)
    -> Seq<PathSeg> {
    let scaled = scale_cmds(cmds, sx, sy);
    match shape.trim {
        Option::Some((s, e)) => trim_spec(scaled, s as int, e as int, RASTER_TOL as int),
        Option::None => scaled,
    }
}

/// The state after filling and stroking one path of a shape layer: a pending
/// matte draws into the layer buffer, a local mask clips drawing into the
/// destination, and otherwise the destination is drawn directly.
pub open spec fn shape_path_step(
    st: RenderState,
    shape: ShapeLayer,
    cmds: Seq<PathCommand>,
    lm: Option<Seq<u8>>,
    sx: int,
    sy: int,
    w: int,
    h: int,
    stride: int,
) -> RenderState {
    let rp = shape_geometry(shape, cmds, sx, sy);
    let to_matte = st.have_mask && shape.matte is Some;
    let st1 = match shape.fill {
        Option::Some(f) => {
            if to_matte {
                RenderState {
                    layer: draw_path_spec(st.layer, rp, Paint::Solid(f), Option::None, w, h,
                        stride),
                    ..st
                }
            } else {
                RenderState {
                    dest: draw_path_spec(st.dest, rp, Paint::Solid(f), lm, w, h, stride),
                    ..st
                }
            }
        },
        Option::None => st,
    };
    match shape.stroke {
        Option::Some(sc) => {
            if to_matte {
                RenderState {
                    layer: draw_stroke_spec(st1.layer, rp, shape.stroke_width as int,
                        Paint::Solid(sc), Option::None, w, h, stride),
                    ..st1
                }
            } else {
                RenderState {
                    dest: draw_stroke_spec(st1.dest, rp, shape.stroke_width as int,
                        Paint::Solid(sc), lm, w, h, stride),
                    ..st1
                }
            }
        },
        Option::None => st1,
    }
}

/// The state after the first `i` paths of a shape layer.
pub open spec fn shape_paths_iter(
    st: RenderState,
    shape: ShapeLayer,
    lm: Option<Seq<u8>>,
    sx: int,
    sy: int,
    w: int,
    h: int,
    stride: int,
    i: int,
) -> RenderState
    decreases i,
{
    if i <= 0 {
        st
    } else {
        shape_path_step(shape_paths_iter(st, shape, lm, sx, sy, w, h, stride, i - 1), shape,
            shape.paths@[i - 1]@, lm, sx, sy, w, h, stride)
    }
}

/// The effect of one shape layer on the render state.
pub open spec fn shape_effect(
    st: RenderState,
    shape: ShapeLayer,
    sx: int,
    sy: int,
    w: int,
    h: int,
    stride: int,
    len: nat,
) -> RenderState {
    if shape.is_mask {
        RenderState {
            mask: mask_paths_iter(zeros((w * h) as nat), shape.paths@, sx, sy, w, h,
                shape.paths@.len() as int),
            have_mask: true,
            ..st
        }
    } else {
        let lm = match shape.mask {
            Option::Some(mps) => Option::Some(local_mask_iter(zeros(len), mps@, sx, sy, w, h,
                stride, mps@.len() as int)),
            Option::None => Option::None,
        };
        let st1 = shape_paths_iter(st, shape, lm, sx, sy, w, h, stride,
            shape.paths@.len() as int);
        if st1.have_mask {
            match shape.matte {
                Option::Some(mt) => RenderState {
                    dest: blend_masked_spec(st1.dest, st1.layer, st1.mask, mt, w, h, stride),
                    mask: zeros((w * h) as nat),
                    layer: zeros(len),
                    have_mask: false,
                },
                Option::None => RenderState {
                    dest: st1.dest,
                    mask: zeros((w * h) as nat),
                    layer: zeros(len),
                    have_mask: false,
                },
            }
        } else {
            st1
        }
    }
}

/// The effect of one layer on the render state.
pub open spec fn render_layer_spec(
    layer: Layer,
    frame: u32,
    st: RenderState,
    cw: int,
    ch: int,
    w: int,
    h: int,
    stride: int,
    len: nat,
) -> RenderState
    decreases layer,
{
    let sx = scale_of(w, cw);
    let sy = scale_of(h, ch);
    match layer {
        Layer::Shape(shape) => shape_effect(st, shape, sx, sy, w, h, stride, len),
        Layer::Text(t) => RenderState {
            dest: draw_text_spec(st.dest, t.glyphs@, t.color, fx_mul_spec(t.position.x as int,
                sx), fx_mul_spec(t.position.y as int, sy), w, h, stride),
            ..st
        },
        Layer::PreComp(p) => RenderState {
            dest: render_comp_spec(*p.comp, frame, len, w, h, stride),
            ..st
        },
        Layer::Image(_) => st,
    }
}

/// The render state after the first `i` layers.
pub open spec fn render_layers_iter(
    layers: Seq<Layer>,
    frame: u32,
    st0: RenderState,
    cw: int,
    ch: int,
    w: int,
    h: int,
    stride: int,
    len: nat,
    i: int,
) -> RenderState
    decreases layers, i,
{
    if i <= 0 || i > layers.len() {
        st0
    } else {
        render_layer_spec(layers[i - 1], frame, render_layers_iter(layers, frame, st0, cw, ch, w,
            h, stride, len, i - 1), cw, ch, w, h, stride, len)
    }
}

/// The destination buffer produced by rendering one frame of a composition
/// into a zeroed buffer of `len` bytes.
pub open spec fn render_comp_spec(comp: Composition, frame: u32, len: nat, w: int, h: int,
    stride: int) -> Seq<u8>
    decreases comp,
{
    let st0 = RenderState {
        dest: zeros(len),
        mask: zeros((w * h) as nat),
        layer: zeros(len),
        have_mask: false,
    };
    render_layers_iter(comp.layers@, frame, st0, comp.width as int, comp.height as int, w, h,
        stride, len, comp.layers@.len() as int).dest
}

/// The effect of one layer preserves every buffer length.
proof fn lemma_render_layer_lens(
    layer: Layer,
    frame: u32,
    st: RenderState,
    cw: int,
    ch: int,
    w: int,
    h: int,
    stride: int,
    len: nat,
)
    requires
        st.dest.len() == len,
        st.mask.len() == w * h,
        st.layer.len() == len,
        w >= 0,
        h >= 0,
    ensures
        render_layer_spec(layer, frame, st, cw, ch, w, h, stride, len).dest.len() == len,
        render_layer_spec(layer, frame, st, cw, ch, w, h, stride, len).mask.len() == w * h,
        render_layer_spec(layer, frame, st, cw, ch, w, h, stride, len).layer.len() == len,
    decreases layer,
{
    let sx = scale_of(w, cw);
    let sy = scale_of(h, ch);
    match layer {
        Layer::Shape(shape) => {
            if shape.is_mask {
                lemma_mask_paths_len(zeros((w * h) as nat), shape.paths@, sx, sy, w, h,
                    shape.paths@.len() as int);
            } else {
                let lm = match shape.mask {
                    Option::Some(mps) => Option::Some(local_mask_iter(zeros(len), mps@, sx, sy,
                        w, h, stride, mps@.len() as int)),
                    Option::None => Option::<Seq<u8>>::None,
                };
                lemma_shape_paths_dest_len(st, shape, lm, sx, sy, w, h, stride,
                    shape.paths@.len() as int);
                lemma_shape_paths_keeps(st, shape, lm, sx, sy, w, h, stride,
                    shape.paths@.len() as int);
            }
        },
        Layer::Text(_) => {},
        Layer::PreComp(p) => {
            lemma_render_comp_len(*p.comp, frame, len, w, h, stride);
        },
        Layer::Image(_) => {},
    }
}

/// Walking the layers preserves every buffer length.
proof fn lemma_render_layers_lens(
    layers: Seq<Layer>,
    frame: u32,
    st0: RenderState,
    cw: int,
    ch: int,
    w: int,
    h: int,
    stride: int,
    len: nat,
    i: int,
)
    requires
        st0.dest.len() == len,
        st0.mask.len() == w * h,
        st0.layer.len() == len,
        w >= 0,
        h >= 0,
    ensures
        render_layers_iter(layers, frame, st0, cw, ch, w, h, stride, len, i).dest.len() == len,
        render_layers_iter(layers, frame, st0, cw, ch, w, h, stride, len, i).mask.len() == w * h,
        render_layers_iter(layers, frame, st0, cw, ch, w, h, stride, len, i).layer.len() == len,
    decreases layers, i,
{
    if i > 0 && i <= layers.len() {
        lemma_render_layers_lens(layers, frame, st0, cw, ch, w, h, stride, len, i - 1);
        lemma_render_layer_lens(layers[i - 1], frame, render_layers_iter(layers, frame, st0, cw,
            ch, w, h, stride, len, i - 1), cw, ch, w, h, stride, len);
    }
}

/// Rendering a composition yields a buffer of exactly the requested length.
pub proof fn lemma_render_comp_len(comp: Composition, frame: u32, len: nat, w: int, h: int,
    stride: int)
    requires
        w >= 0,
        h >= 0,
    ensures
        render_comp_spec(comp, frame, len, w, h, stride).len() == len,
    decreases comp,
{
    let st0 = RenderState {
        dest: zeros(len),
        mask: zeros((w * h) as nat),
        layer: zeros(len),
        have_mask: false,
    };
    assert(w * h >= 0) by (nonlinear_arith)
        requires
            w >= 0,
            h >= 0,
    ;
    lemma_render_layers_lens(comp.layers@, frame, st0, comp.width as int, comp.height as int, w,
        h, stride, len, comp.layers@.len() as int);
}

/// Rendering is deterministic: the output bytes are the same function of
/// the composition, frame and dimensions on every run.
pub proof fn lemma_render_deterministic(
    c1: Composition,
    c2: Composition,
    frame: u32,
    len: nat,
    w: int,
    h: int,
    stride: int,
)
    requires
        c1 == c2,
    ensures
        render_comp_spec(c1, frame, len, w, h, stride) == render_comp_spec(c2, frame, len, w, h,
            stride),
{
}

/// Convert a command list to a scaled geometry-kernel path.
fn build_scaled_path(cmds: &Vec<PathCommand>, sx: i64, sy: i64) -> (r: Path)
    ensures
        r.segments@ == scale_cmds(cmds@, sx as int, sy as int),
{
    let mut segs: Vec<PathSeg> = Vec::new();
    let n = cmds.len();
    let mut i: usize = 0;
    while i < n
        invariant
            i <= n,
            n == cmds@.len(),
            segs@.len() == i,
            forall|j: int| 0 <= j < i ==> segs@[j] == scale_cmd(cmds@[j], sx as int, sy as int),
        decreases n - i,
    {
        let seg = match &cmds[i] {
            PathCommand::MoveTo(p) => PathSeg::MoveTo(scale_pt_exec(*p, sx, sy)),
            PathCommand::LineTo(p) => PathSeg::LineTo(scale_pt_exec(*p, sx, sy)),
            PathCommand::CubicTo(c1, c2, p) => PathSeg::Cubic(scale_pt_exec(*c1, sx, sy),
                scale_pt_exec(*c2, sx, sy), scale_pt_exec(*p, sx, sy)),
            PathCommand::Close => PathSeg::Close,
        };
        segs.push(seg);
        i = i + 1;
    }
    let r = Path { segments: segs };
    proof {
        assert(r.segments@ =~= scale_cmds(cmds@, sx as int, sy as int));
    }
    r
}

/// Scale one point into output space.
fn scale_pt_exec(p: Vec2Fx, sx: i64, sy: i64) -> (r: Vec2Fx)
    ensures
        r == scale_pt(p, sx as int, sy as int),
{
    Vec2Fx {
        x: to_i32_sat(fx_mul(p.x as i64, sx)),
        y: to_i32_sat(fx_mul(p.y as i64, sy)),
    }
}

/// A Q16.16 scale factor from a target dimension and composition dimension.
fn scale_exec(dim: usize, comp_dim: u32) -> (r: i64)
    ensures
        r as int == scale_of(dim as int, comp_dim as int),
{
    let num128: u128 = dim as u128 * 65536;
    let num: i64 = if num128 > 0x7fff_ffff_ffff_ffff {
        i64::MAX
    } else {
        num128 as i64
    };
    fx_div(num, comp_dim as i64 * 65536)
}

/// Rasterize every path of a matte source layer into the mask buffer.
#[verifier::loop_isolation(false)]
#[verifier::rlimit(100)]
fn rasterize_matte_paths(
    paths: &Vec<Vec<PathCommand>>,
    sx: i64,
    sy: i64,
    buf: &mut Vec<u8>,
    width: usize,
    height: usize,
)
    ensures
        final(buf)@ == mask_paths_iter(old(buf)@, paths@, sx as int, sy as int, width as int,
            height as int, paths@.len() as int),
{
    let np = paths.len();
    let mut p: usize = 0;
    while p < np
        invariant
            p <= np,
            buf@ == mask_paths_iter(old(buf)@, paths@, sx as int, sy as int, width as int,
                height as int, p as int),
        decreases np - p,
    {
        let path = build_scaled_path(&paths[p], sx, sy);
        draw_mask(&path, buf, width, height);
        p = p + 1;
    }
}

/// Fill every local mask path with opaque black into a fresh clip buffer.
#[verifier::loop_isolation(false)]
#[verifier::rlimit(100)]
fn fill_local_mask(
    paths: &Vec<Vec<PathCommand>>,
    sx: i64,
    sy: i64,
    buf: &mut Vec<u8>,
    width: usize,
    height: usize,
    stride: usize,
)
    requires
        stride >= 4 * width,
    ensures
        final(buf)@ == local_mask_iter(old(buf)@, paths@, sx as int, sy as int, width as int,
            height as int, stride as int, paths@.len() as int),
{
    let np = paths.len();
    let mut p: usize = 0;
    while p < np
        invariant
            p <= np,
            buf@ == local_mask_iter(old(buf)@, paths@, sx as int, sy as int, width as int,
                height as int, stride as int, p as int),
        decreases np - p,
    {
        let path = build_scaled_path(&paths[p], sx, sy);
        draw_path(&path, Paint::Solid(Color { r: 0, g: 0, b: 0, a: 255 }), buf, width, height,
            stride);
        p = p + 1;
    }
}

/// Fill and stroke one path of a shape layer, drawing into the layer
/// buffer for a pending matte, through the local mask into the destination
/// when one is set, and directly otherwise.
#[verifier::loop_isolation(false)]
#[verifier::rlimit(100)]
fn render_shape_path(
    shape: &ShapeLayer,
    cmds: &Vec<PathCommand>,
    local_mask: &Option<Vec<u8>>,
    to_matte: bool,
    Ghost(st): Ghost<RenderState>,
    Ghost(lm): Ghost<Option<Seq<u8>>>,
    sx: i64,
    sy: i64,
    dest: &mut Vec<u8>,
    layer_buf: &mut Vec<u8>,
    width: usize,
    height: usize,
    stride: usize,
)
    requires
        stride >= 4 * width,
        st.dest == old(dest)@,
        st.layer == old(layer_buf)@,
        to_matte == (st.have_mask && shape.matte is Some),
        lm == (match local_mask {
            Option::Some(m) => Option::Some(m@),
            Option::None => Option::<Seq<u8>>::None,
        }),
    ensures
        final(dest)@ == shape_path_step(st, *shape, cmds@, lm, sx as int, sy as int, width as int,
            height as int, stride as int).dest,
        final(layer_buf)@ == shape_path_step(st, *shape, cmds@, lm, sx as int, sy as int,
            width as int, height as int, stride as int).layer,
{
    let ghost wi = width as int;
    let ghost hi = height as int;
    let ghost si = stride as int;
    let path = build_scaled_path(cmds, sx, sy);
    let render_path: Path = match &shape.trim {
        Option::Some(t) => path.trim(t.0, t.1, RASTER_TOL),
        Option::None => path,
    };
    proof {
        assert(render_path.segments@ == shape_geometry(*shape, cmds@, sx as int, sy as int));
    }
    if let Option::Some(fill) = &shape.fill {
        if to_matte {
            draw_path(&render_path, Paint::Solid(*fill), layer_buf, width, height, stride);
        } else if let Option::Some(m) = local_mask {
            draw_path_masked(&render_path, Paint::Solid(*fill), m, dest, width, height, stride);
        } else {
            draw_path(&render_path, Paint::Solid(*fill), dest, width, height, stride);
        }
    }
    if let Option::Some(sc) = &shape.stroke {
        if to_matte {
            draw_stroke(&render_path, shape.stroke_width, Paint::Solid(*sc), layer_buf, width,
                height, stride);
        } else if let Option::Some(m) = local_mask {
            draw_stroke_masked(&render_path, shape.stroke_width, Paint::Solid(*sc), m, dest,
                width, height, stride);
        } else {
            draw_stroke(&render_path, shape.stroke_width, Paint::Solid(*sc), dest, width, height,
                stride);
        }
    }
}

/// Render one shape layer, updating the destination and the matte scratch
/// state exactly as [`shape_effect`] describes.
#[verifier::loop_isolation(false)]
#[verifier::rlimit(100)]
fn render_shape(
    shape: &ShapeLayer,
    sx: i64,
    sy: i64,
    dest: &mut Vec<u8>,
    mask_buf: &mut Vec<u8>,
    layer_buf: &mut Vec<u8>,
    have_mask: &mut bool,
    width: usize,
    height: usize,
    stride: usize,
)
    requires
        stride >= 4 * width,
        old(dest)@.len() >= height * stride,
        old(layer_buf)@.len() == old(dest)@.len(),
        old(mask_buf)@.len() == width * height,
    ensures
        ({
            let st0 = RenderState {
                dest: old(dest)@,
                mask: old(mask_buf)@,
                layer: old(layer_buf)@,
                have_mask: *old(have_mask),
            };
            let st1 = shape_effect(st0, *shape, sx as int, sy as int, width as int, height as int,
                stride as int, old(dest)@.len());
            final(dest)@ == st1.dest && final(mask_buf)@ == st1.mask && final(layer_buf)@
                == st1.layer && *final(have_mask) == st1.have_mask
        }),
        final(dest)@.len() == old(dest)@.len(),
        final(layer_buf)@.len() == old(layer_buf)@.len(),
        final(mask_buf)@.len() == old(mask_buf)@.len(),
{
    let n = dest.len();
    let wh = mask_buf.len();
    let ghost st_before = RenderState {
        dest: dest@,
        mask: mask_buf@,
        layer: layer_buf@,
        have_mask: *have_mask,
    };
    let ghost wi = width as int;
    let ghost hi = height as int;
    let ghost si = stride as int;
    if shape.is_mask {
        let mut fresh: Vec<u8> = vec![0u8; wh];
        proof {
            assert(fresh@ =~= zeros((wi * hi) as nat));
        }
        rasterize_matte_paths(&shape.paths, sx, sy, &mut fresh, width, height);
        proof {
            lemma_mask_paths_len(zeros((wi * hi) as nat), shape.paths@, sx as int, sy as int, wi,
                hi, shape.paths@.len() as int);
        }
        *mask_buf = fresh;
        *have_mask = true;
    } else {
        let mut local_mask: Option<Vec<u8>> = None;
        if let Option::Some(mask_paths) = &shape.mask {
            let mut buf_m: Vec<u8> = vec![0u8; n];
            proof {
                assert(buf_m@ =~= zeros(n as nat));
            }
            fill_local_mask(mask_paths, sx, sy, &mut buf_m, width, height, stride);
            local_mask = Some(buf_m);
        }
        let ghost lm: Option<Seq<u8>> = match &local_mask {
            Option::Some(m) => Option::Some(m@),
            Option::None => Option::None,
        };
        let to_matte = *have_mask && shape.matte.is_some();
        let np = shape.paths.len();
        let mut p: usize = 0;
        while p < np
            invariant
                p <= np,
                dest@ == shape_paths_iter(st_before, *shape, lm, sx as int, sy as int, wi, hi, si,
                    p as int).dest,
                layer_buf@ == shape_paths_iter(st_before, *shape, lm, sx as int, sy as int, wi,
                    hi, si, p as int).layer,
            decreases np - p,
        {
            let ghost stp = shape_paths_iter(st_before, *shape, lm, sx as int, sy as int, wi, hi,
                si, p as int);
            proof {
                lemma_shape_paths_keeps(st_before, *shape, lm, sx as int, sy as int, wi, hi, si,
                    p as int);
            }
            render_shape_path(shape, &shape.paths[p], &local_mask, to_matte, Ghost(stp),
                Ghost(lm), sx, sy, dest, layer_buf, width, height, stride);
            p = p + 1;
        }
        proof {
            lemma_shape_paths_keeps(st_before, *shape, lm, sx as int, sy as int, wi, hi, si,
                np as int);
            lemma_shape_paths_dest_len(st_before, *shape, lm, sx as int, sy as int, wi, hi, si,
                np as int);
        }
        if *have_mask {
            if let Option::Some(mt) = &shape.matte {
                blend_masked(dest, layer_buf, mask_buf, *mt, width, height, stride);
            }
            *layer_buf = vec![0u8; n];
            *mask_buf = vec![0u8; wh];
            *have_mask = false;
            proof {
                assert(layer_buf@ =~= zeros(n as nat));
                assert(mask_buf@ =~= zeros((wi * hi) as nat));
            }
        }
    }
}

/// Walking the paths of a shape layer never touches the matte mask or the
/// pending-matte flag.
proof fn lemma_shape_paths_keeps(
    st: RenderState,
    shape: ShapeLayer,
    lm: Option<Seq<u8>>,
    sx: int,
    sy: int,
    w: int,
    h: int,
    stride: int,
    i: int,
)
    ensures
        shape_paths_iter(st, shape, lm, sx, sy, w, h, stride, i).mask == st.mask,
        shape_paths_iter(st, shape, lm, sx, sy, w, h, stride, i).have_mask == st.have_mask,
    decreases i,
{
    if i > 0 {
        lemma_shape_paths_keeps(st, shape, lm, sx, sy, w, h, stride, i - 1);
    }
}

/// Walking the paths of a shape layer preserves the buffer lengths.
proof fn lemma_shape_paths_dest_len(
    st: RenderState,
    shape: ShapeLayer,
    lm: Option<Seq<u8>>,
    sx: int,
    sy: int,
    w: int,
    h: int,
    stride: int,
    i: int,
)
    ensures
        shape_paths_iter(st, shape, lm, sx, sy, w, h, stride, i).dest.len() == st.dest.len(),
        shape_paths_iter(st, shape, lm, sx, sy, w, h, stride, i).layer.len() == st.layer.len(),
    decreases i,
{
    if i > 0 {
        lemma_shape_paths_dest_len(st, shape, lm, sx, sy, w, h, stride, i - 1);
    }
}

/// Rasterizing matte paths preserves the mask buffer length.
proof fn lemma_mask_paths_len(
    buf: Seq<u8>,
    paths: Seq<Vec<PathCommand>>,
    sx: int,
    sy: int,
    w: int,
    h: int,
    i: int,
)
    ensures
        mask_paths_iter(buf, paths, sx, sy, w, h, i).len() == buf.len(),
    decreases i,
{
    if i > 0 {
        lemma_mask_paths_len(buf, paths, sx, sy, w, h, i - 1);
    }
}

impl Composition {
    /// Render a frame into the provided RGBA8888 buffer.
    ///
    /// The buffer is zeroed, then each layer is processed in order: matte
    /// source layers rasterize into the matte mask, matte consumers render
    /// into a scratch layer composited through the mask, locally masked
    /// shapes clip against their own mask, and everything else draws
    /// directly.  Nested compositions render recursively into the same
    /// buffer.
    #[verifier::loop_isolation(false)]
    #[verifier::rlimit(100)]
    pub fn render_sync(
        &self,
        frame: u32,
        buffer: &mut Vec<u8>,
        width: usize,
        height: usize,
        stride: usize,
    )
        requires
            stride >= 4 * width,
            old(buffer)@.len() >= height * stride,
        ensures
            final(buffer)@ == render_comp_spec(*self, frame, old(buffer)@.len(), width as int,
                height as int, stride as int),
        decreases *self,
    {
        let n = buffer.len();
        proof {
            assert((width * height) as int * 4 <= height as int * stride as int) by
                (nonlinear_arith)
                requires
                    stride as int >= 4 * width as int,
                    height as int >= 0,
                    width as int >= 0,
            ;
        }
        let mut dest: Vec<u8> = vec![0u8; n];
        let mut mask_buf: Vec<u8> = vec![0u8; width * height];
        let mut layer_buf: Vec<u8> = vec![0u8; n];
        let mut have_mask = false;
        let sx = scale_exec(width, self.width);
        let sy = scale_exec(height, self.height);
        let ghost st0 = RenderState {
            dest: zeros(n as nat),
            mask: zeros((width as int * height as int) as nat),
            layer: zeros(n as nat),
            have_mask: false,
        };
        proof {
            assert(dest@ =~= st0.dest);
            assert(mask_buf@ =~= st0.mask);
            assert(layer_buf@ =~= st0.layer);
        }
        let ghost cw = self.width as int;
        let ghost ch = self.height as int;
        let ghost wi = width as int;
        let ghost hi = height as int;
        let ghost si = stride as int;
        let nl = self.layers.len();
        let mut i: usize = 0;
        while i < nl
            invariant
                i <= nl,
                mask_buf@.len() == width * height,
                layer_buf@.len() == n,
                dest@.len() == n,
                dest@ == render_layers_iter(self.layers@, frame, st0, cw, ch, wi, hi, si,
                    n as nat, i as int).dest,
                mask_buf@ == render_layers_iter(self.layers@, frame, st0, cw, ch, wi, hi, si,
                    n as nat, i as int).mask,
                layer_buf@ == render_layers_iter(self.layers@, frame, st0, cw, ch, wi, hi, si,
                    n as nat, i as int).layer,
                have_mask == render_layers_iter(self.layers@, frame, st0, cw, ch, wi, hi, si,
                    n as nat, i as int).have_mask,
            decreases nl - i,
        {
            let layer = &self.layers[i];
            match layer {
                Layer::Shape(shape) => {
                    render_shape(shape, sx, sy, &mut dest, &mut mask_buf, &mut layer_buf,
                        &mut have_mask, width, height, stride);
                },
                Layer::Text(t) => {
                    let posx = fx_mul(t.position.x as i64, sx);
                    let posy = fx_mul(t.position.y as i64, sy);
                    draw_text_at(&t.glyphs, t.color, posx, posy, &mut dest, width, height,
                        stride);
                },
                Layer::PreComp(pre) => {
                    proof {
                        assert(self.layers@[i as int] == *layer);
                    }
                    pre.comp.render_sync(frame, &mut dest, width, height, stride);
                    proof {
                        lemma_render_comp_len(*pre.comp, frame, n as nat, wi, hi, si);
                    }
                },
                Layer::Image(_) => {},
            }
            proof {
                assert(render_layers_iter(self.layers@, frame, st0, cw, ch, wi, hi, si, n as nat,
                    i as int + 1) == render_layer_spec(self.layers@[i as int], frame,
                    render_layers_iter(self.layers@, frame, st0, cw, ch, wi, hi, si, n as nat,
                    i as int), cw, ch, wi, hi, si, n as nat));
            }
            i = i + 1;
        }
        *buffer = dest;
    }
}

} // verus!
