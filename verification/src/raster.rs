//! The software rasterizer: triangle coverage, paint sampling, source-over
//! blending, masking and glyph blitting.
//!
//! A pixel is covered when all three edge functions at its center agree in
//! sign.  All arithmetic is exact integer or Q16.16 fixed-point math, so the
//! output bytes are a pure function of the inputs.

use crate::fixed::{fx_add, fx_div, fx_mul, fx_sub, isqrt, to_i32_sat};
use crate::fixed::{clip64, fx_add_spec, fx_div_spec, fx_mul_spec, fx_sub_spec, scale_down,
    sqrt_floor, lemma_mul_bound};
use crate::path::{LineSegment, Path};
use crate::types::{Color, GradientStop, LinearGradient, Paint, RadialGradient, Vec2Fx};
use vstd::arithmetic::div_mod::lemma_fundamental_div_mod_converse;
use vstd::prelude::*;

verus! {

/// The Q16.16 position of a pixel center along one axis.
pub open spec fn pix_center(v: int) -> int {
    v * 65536 + 32768
}

/// The edge function of the directed edge `a -> b` at the point `(px, py)`:
/// positive on one side, negative on the other, zero on the line.
pub open spec fn edge_spec(px: int, py: int, a: Vec2Fx, b: Vec2Fx) -> int {
    (px - a.x) * (b.y - a.y) - (py - a.y) * (b.x - a.x)
}

/// Whether the pixel `(x, y)` is covered by the triangle `(a, b, c)`: all
/// three edge functions at the pixel center agree in sign (either winding).
pub open spec fn covered_spec(x: int, y: int, a: Vec2Fx, b: Vec2Fx, c: Vec2Fx) -> bool {
    let px = pix_center(x);
    let py = pix_center(y);
    let e1 = edge_spec(px, py, a, b);
    let e2 = edge_spec(px, py, b, c);
    let e3 = edge_spec(px, py, c, a);
    (e1 >= 0 && e2 >= 0 && e3 >= 0) || (e1 <= 0 && e2 <= 0 && e3 <= 0)
}

/// The largest whole pixel at or below a Q16.16 coordinate.
pub open spec fn floor_fx_spec(v: int) -> int {
    if v >= 0 {
        v / 65536
    } else {
        -((-v + 65535) / 65536)
    }
}

/// The smallest whole pixel at or above a Q16.16 coordinate.
pub open spec fn ceil_fx_spec(v: int) -> int {
    if v >= 0 {
        (v + 65535) / 65536
    } else {
        -((-v) / 65536)
    }
}

/// The smaller of two integers.
pub open spec fn imin(a: int, b: int) -> int {
    if a < b {
        a
    } else {
        b
    }
}

/// The larger of two integers.
pub open spec fn imax(a: int, b: int) -> int {
    if a > b {
        a
    } else {
        b
    }
}

/// The first pixel column of a triangle's clipped bounding box.
pub open spec fn bbox_x0(a: Vec2Fx, b: Vec2Fx, c: Vec2Fx) -> int {
    imax(floor_fx_spec(imin(imin(a.x as int, b.x as int), c.x as int)), 0)
}

/// One past the last pixel column of a triangle's clipped bounding box.
pub open spec fn bbox_x1(a: Vec2Fx, b: Vec2Fx, c: Vec2Fx, w: int) -> int {
    imax(imin(ceil_fx_spec(imax(imax(a.x as int, b.x as int), c.x as int)), w), 0)
}

/// The first pixel row of a triangle's clipped bounding box.
pub open spec fn bbox_y0(a: Vec2Fx, b: Vec2Fx, c: Vec2Fx) -> int {
    imax(floor_fx_spec(imin(imin(a.y as int, b.y as int), c.y as int)), 0)
}

/// One past the last pixel row of a triangle's clipped bounding box.
pub open spec fn bbox_y1(a: Vec2Fx, b: Vec2Fx, c: Vec2Fx, h: int) -> int {
    imax(imin(ceil_fx_spec(imax(imax(a.y as int, b.y as int), c.y as int)), h), 0)
}

/// Whether filling the triangle `(a, b, c)` writes the pixel `(x, y)`: the
/// pixel lies in the clipped bounding box and its center is covered.
pub open spec fn tri_writes(x: int, y: int, a: Vec2Fx, b: Vec2Fx, c: Vec2Fx, w: int, h: int)
    -> bool {
    bbox_x0(a, b, c) <= x < bbox_x1(a, b, c, w) && bbox_y0(a, b, c) <= y < bbox_y1(a, b, c, h)
        && covered_spec(x, y, a, b, c)
}

/// One source-over blended color channel: `(s*a + d*(255 - a)) / 255`.
pub open spec fn blend_ch_spec(s: int, d: int, a: int) -> int {
    (s * a + d * (255 - a)) / 255
}

/// The source-over blended alpha channel: `sa + da*(255 - sa)/255`.
pub open spec fn blend_a_spec(sa: int, da: int) -> int {
    sa + (da * (255 - sa)) / 255
}

/// Source-over channel results stay within a byte.
pub proof fn lemma_blend_range(s: int, d: int, a: int)
    requires
        0 <= s <= 255,
        0 <= d <= 255,
        0 <= a <= 255,
    ensures
        0 <= blend_ch_spec(s, d, a) <= 255,
        0 <= blend_a_spec(a, d) <= 255,
{
    assert(s * a + d * (255 - a) <= 255 * 255) by (nonlinear_arith)
        requires
            0 <= s <= 255,
            0 <= d <= 255,
            0 <= a <= 255,
    ;
    assert(s * a + d * (255 - a) >= 0) by (nonlinear_arith)
        requires
            0 <= s <= 255,
            0 <= d <= 255,
            0 <= a <= 255,
    ;
    assert(d * (255 - a) <= 255 * (255 - a)) by (nonlinear_arith)
        requires
            0 <= d <= 255,
            0 <= a <= 255,
    ;
    assert(d * (255 - a) >= 0) by (nonlinear_arith)
        requires
            0 <= d <= 255,
            0 <= a <= 255,
    ;
    assert(255 * (255 - a) / 255 == 255 - a);
}

/// The buffer after source-over blending `src` into the pixel `(x, y)`:
/// four bytes change when the pixel lies inside the buffer, else nothing.
pub open spec fn blend_pixel_spec(pre: Seq<u8>, stride: int, x: int, y: int, src: Color)
    -> Seq<u8> {
    let o = y * stride + 4 * x;
    if 0 <= o && o + 3 < pre.len() {
        pre.update(o, blend_ch_spec(src.r as int, pre[o] as int, src.a as int) as u8).update(
            o + 1,
            blend_ch_spec(src.g as int, pre[o + 1] as int, src.a as int) as u8,
        ).update(o + 2, blend_ch_spec(src.b as int, pre[o + 2] as int, src.a as int) as u8).update(
            o + 3,
            blend_a_spec(src.a as int, pre[o + 3] as int) as u8,
        )
    } else {
        pre
    }
}

/// Source-over blend one pixel into an RGBA8888 buffer; writes falling
/// outside the buffer are dropped.
pub fn blend_pixel(buf: &mut Vec<u8>, stride: usize, x: usize, y: usize, src: Color)
    ensures
        final(buf)@ == blend_pixel_spec(old(buf)@, stride as int, x as int, y as int, src),
{
    let len128: u128 = buf.len() as u128;
    proof {
        lemma_mul_bound(y as int, stride as int, 0xffff_ffff_ffff_ffff);
    }
    let row: u128 = y as u128 * stride as u128;
    if row >= len128 {
        return ;
    }
    let o128: u128 = row + 4 * (x as u128);
    if o128 + 3 >= len128 {
        return ;
    }
    let o = o128 as usize;
    let sa: u32 = src.a as u32;
    let ia: u32 = 255 - sa;
    proof {
        lemma_blend_range(src.r as int, buf@[o as int] as int, sa as int);
        lemma_blend_range(src.g as int, buf@[o + 1] as int, sa as int);
        lemma_blend_range(src.b as int, buf@[o + 2] as int, sa as int);
        lemma_blend_range(0, buf@[o + 3] as int, sa as int);
    }
    let dr = buf[o] as u32;
    let dg = buf[o + 1] as u32;
    let db = buf[o + 2] as u32;
    let da = buf[o + 3] as u32;
    let nr = ((src.r as u32 * sa + dr * ia) / 255) as u8;
    let ng = ((src.g as u32 * sa + dg * ia) / 255) as u8;
    let nb = ((src.b as u32 * sa + db * ia) / 255) as u8;
    let na = (sa + da * ia / 255) as u8;
    buf.set(o, nr);
    buf.set(o + 1, ng);
    buf.set(o + 2, nb);
    buf.set(o + 3, na);
}

/// Linear interpolation of one color channel by a clamped Q16.16 factor,
/// rounded to nearest.
pub open spec fn lerp_ch_spec(ac: int, bc: int, t: int) -> int {
    ac + fx_mul_spec(bc - ac, crate::path::clamp01_spec(t))
}

/// An interpolated channel of two bytes is a byte.
pub proof fn lemma_lerp_ch_range(ac: int, bc: int, t: int)
    requires
        0 <= ac <= 255,
        0 <= bc <= 255,
    ensures
        0 <= lerp_ch_spec(ac, bc, t) <= 255,
{
    let tc = crate::path::clamp01_spec(t);
    let d = bc - ac;
    assert(0 <= tc <= 65536);
    if d >= 0 {
        assert(0 <= d * tc <= d * 65536) by (nonlinear_arith)
            requires
                0 <= tc <= 65536,
                d >= 0,
        ;
        assert(0 <= scale_down(d * tc) <= d) by {
            assert((d * 65536 + 32768) / 65536 == d);
        }
    } else {
        assert(d * 65536 <= d * tc <= 0) by (nonlinear_arith)
            requires
                0 <= tc <= 65536,
                d < 0,
        ;
        assert(d <= scale_down(d * tc) <= 0) by {
            assert((-(d * 65536) + 32768) / 65536 == -d);
        }
    }
}

/// Componentwise linear color interpolation by a clamped Q16.16 factor.
pub open spec fn lerp_color_spec(a: Color, b: Color, t: int) -> Color {
    Color {
        r: lerp_ch_spec(a.r as int, b.r as int, t) as u8,
        g: lerp_ch_spec(a.g as int, b.g as int, t) as u8,
        b: lerp_ch_spec(a.b as int, b.b as int, t) as u8,
        a: lerp_ch_spec(a.a as int, b.a as int, t) as u8,
    }
}

/// Interpolate between two colors by a Q16.16 factor, clamped to 0..=1.
fn lerp_color(a: Color, b: Color, t: i64) -> (r: Color)
    ensures
        r == lerp_color_spec(a, b, t as int),
{
    let tc: i64 = if t < 0 {
        0
    } else if t > 65536 {
        65536
    } else {
        t
    };
    proof {
        lemma_lerp_ch_range(a.r as int, b.r as int, t as int);
        lemma_lerp_ch_range(a.g as int, b.g as int, t as int);
        lemma_lerp_ch_range(a.b as int, b.b as int, t as int);
        lemma_lerp_ch_range(a.a as int, b.a as int, t as int);
    }
    let ir = a.r as i64 + fx_mul(b.r as i64 - a.r as i64, tc);
    let ig = a.g as i64 + fx_mul(b.g as i64 - a.g as i64, tc);
    let ib = a.b as i64 + fx_mul(b.b as i64 - a.b as i64, tc);
    let ia = a.a as i64 + fx_mul(b.a as i64 - a.a as i64, tc);
    Color { r: ir as u8, g: ig as u8, b: ib as u8, a: ia as u8 }
}

/// The color of a stop table at position `t` from stop `k` on: the first
/// later stop at or past `t` interpolates from its predecessor, and past the
/// last stop the last color holds.
pub open spec fn stops_from_spec(stops: Seq<GradientStop>, t: int, k: int) -> Color
    decreases stops.len() - k,
{
    if k < 1 || k >= stops.len() {
        stops.last().color
    } else if t <= stops[k].offset as int {
        lerp_color_spec(
            stops[k - 1].color,
            stops[k].color,
            fx_div_spec(
                fx_sub_spec(t, stops[k - 1].offset as int),
                fx_sub_spec(stops[k].offset as int, stops[k - 1].offset as int),
            ),
        )
    } else {
        stops_from_spec(stops, t, k + 1)
    }
}

/// The color of a stop table at position `t`: the first color before the
/// first stop, the last color after the last, linear interpolation between
/// the spanning pair otherwise; black when the table is empty.
pub open spec fn sample_stops_spec(stops: Seq<GradientStop>, t: int) -> Color {
    if stops.len() == 0 {
        Color { r: 0, g: 0, b: 0, a: 255 }
    } else if t <= stops[0].offset as int {
        stops[0].color
    } else {
        stops_from_spec(stops, t, 1)
    }
}

/// Sample a gradient stop table at the Q16.16 position `t`.
fn sample_stops(stops: &Vec<GradientStop>, t: i64) -> (r: Color)
    ensures
        r == sample_stops_spec(stops@, t as int),
{
    let n = stops.len();
    if n == 0 {
        return Color { r: 0, g: 0, b: 0, a: 255 };
    }
    if t <= stops[0].offset as i64 {
        return stops[0].color;
    }
    let mut k: usize = 1;
    while k < n
        invariant
            1 <= k <= n,
            n == stops@.len(),
            n > 0,
            t as int > stops@[0].offset as int,
            sample_stops_spec(stops@, t as int) == stops_from_spec(stops@, t as int, k as int),
        decreases n - k,
    {
        if t <= stops[k].offset as i64 {
            let s0 = stops[k - 1];
            let s1 = stops[k];
            let local = fx_div(fx_sub(t, s0.offset as i64), fx_sub(s1.offset as i64, s0.offset
                as i64));
            return lerp_color(s0.color, s1.color, local);
        }
        k = k + 1;
    }
    stops[n - 1].color
}

/// The gradient position of a point for a linear gradient: the projection
/// onto the gradient axis as a fraction of its squared length (zero for a
/// degenerate axis).
pub open spec fn linear_t_spec(g: LinearGradient, px: int, py: int) -> int {
    let dx = g.end.x - g.start.x;
    let dy = g.end.y - g.start.y;
    let len_sq = fx_add_spec(fx_mul_spec(dx, dx), fx_mul_spec(dy, dy));
    if len_sq == 0 {
        0
    } else {
        fx_div_spec(
            fx_add_spec(
                fx_mul_spec(fx_sub_spec(px, g.start.x as int), dx),
                fx_mul_spec(fx_sub_spec(py, g.start.y as int), dy),
            ),
            len_sq,
        )
    }
}

/// The color of a linear gradient at a point.
pub open spec fn sample_linear_spec(g: LinearGradient, px: int, py: int) -> Color {
    sample_stops_spec(g.stops@, linear_t_spec(g, px, py))
}

/// The gradient position of a point for a radial gradient: distance from the
/// center over the radius; a degenerate radius puts every point past the
/// last stop.
pub open spec fn radial_t_spec(g: RadialGradient, px: int, py: int) -> int {
    let ddx = fx_sub_spec(px, g.center.x as int);
    let ddy = fx_sub_spec(py, g.center.y as int);
    let dist = clip64(sqrt_floor(ddx * ddx + ddy * ddy));
    if g.radius == 0 {
        i64::MAX as int
    } else {
        fx_div_spec(dist, g.radius as int)
    }
}

/// The color of a radial gradient at a point.
pub open spec fn sample_radial_spec(g: RadialGradient, px: int, py: int) -> Color {
    sample_stops_spec(g.stops@, radial_t_spec(g, px, py))
}

/// The color of a paint at a point (Q16.16 output-space coordinates).
pub open spec fn sample_paint_spec(paint: Paint, px: int, py: int) -> Color {
    match paint {
        Paint::Solid(c) => c,
        Paint::Linear(g) => sample_linear_spec(g, px, py),
        Paint::Radial(g) => sample_radial_spec(g, px, py),
    }
}

/// Sample a paint at the Q16.16 point `(px, py)`.
fn sample_paint(paint: &Paint, px: i64, py: i64) -> (r: Color)
    ensures
        r == sample_paint_spec(*paint, px as int, py as int),
{
    match paint {
        Paint::Solid(c) => *c,
        Paint::Linear(g) => {
            let dx: i64 = g.end.x as i64 - g.start.x as i64;
            let dy: i64 = g.end.y as i64 - g.start.y as i64;
            let len_sq = fx_add(fx_mul(dx, dx), fx_mul(dy, dy));
            let t: i64 = if len_sq == 0 {
                0
            } else {
                fx_div(
                    fx_add(
                        fx_mul(fx_sub(px, g.start.x as i64), dx),
                        fx_mul(fx_sub(py, g.start.y as i64), dy),
                    ),
                    len_sq,
                )
            };
            sample_stops(&g.stops, t)
        },
        Paint::Radial(g) => {
            let ddx = fx_sub(px, g.center.x as i64);
            let ddy = fx_sub(py, g.center.y as i64);
            proof {
                lemma_mul_bound(ddx as int, ddx as int, 0x8000_0000_0000_0000);
                lemma_mul_bound(ddy as int, ddy as int, 0x8000_0000_0000_0000);
            }
            let sx: i128 = ddx as i128 * ddx as i128;
            let sy: i128 = ddy as i128 * ddy as i128;
            let dist = isqrt(sx as u128 + sy as u128);
            let t: i64 = if g.radius == 0 {
                i64::MAX
            } else {
                fx_div(dist, g.radius as i64)
            };
            sample_stops(&g.stops, t)
        },
    }
}

/// Whether a clip mask lets the pixel whose bytes start at `o` through: no
/// mask, or a non-zero alpha byte at that pixel of the mask's RGBA buffer.
pub open spec fn mask_pass(mask: Option<Seq<u8>>, o: int) -> bool {
    match mask {
        Option::None => true,
        Option::Some(m) => o + 3 < m.len() && m[o + 3] != 0,
    }
}

/// One byte of the buffer after filling a triangle: a byte of a written
/// pixel becomes its blended channel, every other byte keeps its value.
pub open spec fn tri_byte(
    pre: Seq<u8>,
    k: int,
    a: Vec2Fx,
    b: Vec2Fx,
    c: Vec2Fx,
    paint: Paint,
    mask: Option<Seq<u8>>,
    w: int,
    h: int,
    stride: int,
) -> u8 {
    if stride <= 0 {
        pre[k]
    } else {
        let y = k / stride;
        let x = (k % stride) / 4;
        let ch = (k % stride) % 4;
        let o = y * stride + 4 * x;
        if x < w && tri_writes(x, y, a, b, c, w, h) && mask_pass(mask, o) && o + 3 < pre.len() {
            let src = sample_paint_spec(paint, pix_center(x), pix_center(y));
            if ch == 0 {
                blend_ch_spec(src.r as int, pre[o] as int, src.a as int) as u8
            } else if ch == 1 {
                blend_ch_spec(src.g as int, pre[o + 1] as int, src.a as int) as u8
            } else if ch == 2 {
                blend_ch_spec(src.b as int, pre[o + 2] as int, src.a as int) as u8
            } else {
                blend_a_spec(src.a as int, pre[o + 3] as int) as u8
            }
        } else {
            pre[k]
        }
    }
}

/// The whole buffer after filling a triangle with a paint, through an
/// optional clip mask.
pub open spec fn fill_tri_spec(
    pre: Seq<u8>,
    a: Vec2Fx,
    b: Vec2Fx,
    c: Vec2Fx,
    paint: Paint,
    mask: Option<Seq<u8>>,
    w: int,
    h: int,
    stride: int,
) -> Seq<u8> {
    Seq::new(pre.len(), |k: int| tri_byte(pre, k, a, b, c, paint, mask, w, h, stride))
}

/// Whether the pixel holding byte `k` has been processed by the fill loops,
/// which walk the clipped bounding box row by row.
pub open spec fn pix_done(
    k: int,
    x: int,
    y: int,
    x0: int,
    x1: int,
    y0: int,
    y1: int,
    stride: int,
) -> bool {
    let ky = k / stride;
    let kx = (k % stride) / 4;
    x0 <= kx < x1 && y0 <= ky < y1 && (ky < y || (ky == y && kx < x))
}

/// The byte indices of the pixel `(x, y)` decompose as expected under a
/// stride of at least four bytes per pixel.
pub proof fn lemma_pixel_bytes(k: int, y: int, x: int, stride: int, w: int)
    requires
        stride >= 4 * w,
        0 <= x < w,
        0 <= y,
        y * stride + 4 * x <= k <= y * stride + 4 * x + 3,
    ensures
        k / stride == y,
        (k % stride) / 4 == x,
        (k % stride) % 4 == k - (y * stride + 4 * x),
{
    let ch = k - (y * stride + 4 * x);
    assert(4 * x + ch < 4 * w) by (nonlinear_arith)
        requires
            0 <= x < w,
            0 <= ch <= 3,
    ;
    lemma_fundamental_div_mod_converse(k, stride, y, 4 * x + ch);
    lemma_fundamental_div_mod_converse(4 * x + ch, 4, x, ch);
}

/// Fill the triangle `(a, b, c)` with a paint, source-over, into an
/// RGBA8888 buffer with the given dimensions and row stride; with a clip
/// mask, only pixels whose mask alpha byte is non-zero are touched.
pub fn fill_triangle_paint(
    a: Vec2Fx,
    b: Vec2Fx,
    c: Vec2Fx,
    paint: &Paint,
    mask: Option<&Vec<u8>>,
    buf: &mut Vec<u8>,
    width: usize,
    height: usize,
    stride: usize,
)
    requires
        stride >= 4 * width,
    ensures
        final(buf)@ == fill_tri_spec(old(buf)@, a, b, c, *paint, mask_view(mask), width as int,
            height as int, stride as int),
{
    let ghost maskv = mask_view(mask);
    let ghost pre = buf@;
    let ghost wi = width as int;
    let ghost hi = height as int;
    let ghost si = stride as int;
    let (x0, x1) = bbox_cols(a, b, c, width);
    let (y0, y1) = bbox_rows(a, b, c, height);
    let mut y = y0;
    while y < y1
        invariant
            stride >= 4 * width,
            pre == old(buf)@,
            maskv == mask_view(mask),
            wi == width as int,
            hi == height as int,
            si == stride as int,
            y0 <= y <= imax(y1 as int, y0 as int),
            y1 <= height,
            x1 <= 0x1_0000,
            y1 <= 0x1_0000,
            x0 as int == bbox_x0(a, b, c),
            x1 as int == bbox_x1(a, b, c, wi),
            y0 as int == bbox_y0(a, b, c),
            y1 as int == bbox_y1(a, b, c, hi),
            x1 <= width,
            buf@.len() == pre.len(),
            forall|k: int|
                0 <= k < pre.len() ==> buf@[k] == (if pix_done(k, x0 as int, y as int, x0 as int,
                    x1 as int, y0 as int, y1 as int, si) {
                    tri_byte(pre, k, a, b, c, *paint, maskv, wi, hi, si)
                } else {
                    pre[k]
                }),
        decreases y1 as int - y,
    {
        let mut x = x0;
        while x < x1
            invariant
                stride >= 4 * width,
                pre == old(buf)@,
                maskv == mask_view(mask),
                wi == width as int,
                hi == height as int,
                si == stride as int,
                y0 <= y < y1,
                y1 <= height,
                x1 <= 0x1_0000,
                y1 <= 0x1_0000,
                x0 <= x <= imax(x1 as int, x0 as int),
                x0 as int == bbox_x0(a, b, c),
                x1 as int == bbox_x1(a, b, c, wi),
                y0 as int == bbox_y0(a, b, c),
                y1 as int == bbox_y1(a, b, c, hi),
                x1 <= width,
                buf@.len() == pre.len(),
                forall|k: int|
                    0 <= k < pre.len() ==> buf@[k] == (if pix_done(k, x as int, y as int, x0
                        as int, x1 as int, y0 as int, y1 as int, si) {
                        tri_byte(pre, k, a, b, c, *paint, maskv, wi, hi, si)
                    } else {
                        pre[k]
                    }),
            decreases x1 as int - x,
        {
            if inside_triangle(x, y, a, b, c) && mask_lets(mask, stride, x, y) {
                let px: i64 = x as i64 * 65536 + 32768;
                let py: i64 = y as i64 * 65536 + 32768;
                let color = sample_paint(paint, px, py);
                let ghost before = buf@;
                blend_pixel(buf, stride, x, y, color);
                proof {
                    step_pixel_proof(pre, before, buf@, x as int, y as int, x0 as int, x1 as int,
                        y0 as int, y1 as int, a, b, c, *paint, maskv, wi, hi, si, true);
                }
            } else {
                proof {
                    step_pixel_proof(pre, buf@, buf@, x as int, y as int, x0 as int, x1 as int,
                        y0 as int, y1 as int, a, b, c, *paint, maskv, wi, hi, si,
                        covered_spec(x as int, y as int, a, b, c) && mask_pass(maskv, y as int * (
                        stride as int) + 4 * (x as int)));
                }
            }
            x = x + 1;
        }
        proof {
            assert(forall|k: int|
                0 <= k < pre.len() ==> pix_done(k, x as int, y as int, x0 as int, x1 as int, y0
                    as int, y1 as int, si) == pix_done(k, x0 as int, y as int + 1, x0 as int, x1
                    as int, y0 as int, y1 as int, si));
        }
        y = y + 1;
    }
    proof {
        assert forall|k: int| 0 <= k < pre.len() implies buf@[k] == tri_byte(pre, k, a, b, c,
            *paint, maskv, wi, hi, si) by {
            if !pix_done(k, x0 as int, y as int, x0 as int, x1 as int, y0 as int, y1 as int, si) {
                tri_byte_unwritten(pre, k, a, b, c, *paint, maskv, wi, hi, si, x0 as int, x1
                    as int, y0 as int, y1 as int);
            }
        }
        assert(buf@ =~= fill_tri_spec(pre, a, b, c, *paint, maskv, wi, hi, si));
    }
}

/// The view of an optional mask buffer.
pub open spec fn mask_view(mask: Option<&Vec<u8>>) -> Option<Seq<u8>> {
    match mask {
        Option::None => Option::None,
        Option::Some(m) => Option::Some(m@),
    }
}

/// Whether the clip mask lets the pixel `(x, y)` through.
fn mask_lets(mask: Option<&Vec<u8>>, stride: usize, x: usize, y: usize) -> (r: bool)
    ensures
        r == mask_pass(mask_view(mask), y as int * stride as int + 4 * x as int),
{
    match mask {
        Option::None => true,
        Option::Some(m) => {
            proof {
                lemma_mul_bound(y as int, stride as int, 0xffff_ffff_ffff_ffff);
            }
            let row: u128 = y as u128 * stride as u128;
            if row >= m.len() as u128 {
                return false;
            }
            let o128: u128 = row + 4 * (x as u128);
            if o128 + 3 < m.len() as u128 {
                let moff = (o128 + 3) as usize;
                m[moff] != 0
            } else {
                false
            }
        },
    }
}

/// A byte whose pixel lies outside the clipped bounding box keeps its value.
proof fn tri_byte_unwritten(
    pre: Seq<u8>,
    k: int,
    a: Vec2Fx,
    b: Vec2Fx,
    c: Vec2Fx,
    paint: Paint,
    mask: Option<Seq<u8>>,
    w: int,
    h: int,
    stride: int,
    x0: int,
    x1: int,
    y0: int,
    y1: int,
)
    requires
        0 <= k < pre.len(),
        x0 == bbox_x0(a, b, c),
        x1 == bbox_x1(a, b, c, w),
        y0 == bbox_y0(a, b, c),
        y1 == bbox_y1(a, b, c, h),
        stride <= 0 || !(x0 <= (k % stride) / 4 < x1 && y0 <= k / stride < y1),
    ensures
        tri_byte(pre, k, a, b, c, paint, mask, w, h, stride) == pre[k],
{
}

/// After processing the pixel `(x, y)` (blending it when covered, leaving it
/// when not), the row-major processed-prefix picture of the buffer extends
/// by one pixel.
proof fn step_pixel_proof(
    pre: Seq<u8>,
    before: Seq<u8>,
    after: Seq<u8>,
    x: int,
    y: int,
    x0: int,
    x1: int,
    y0: int,
    y1: int,
    a: Vec2Fx,
    b: Vec2Fx,
    c: Vec2Fx,
    paint: Paint,
    mask: Option<Seq<u8>>,
    w: int,
    h: int,
    stride: int,
    writes: bool,
)
    requires
        stride >= 4 * w,
        x0 == bbox_x0(a, b, c),
        x1 == bbox_x1(a, b, c, w),
        y0 == bbox_y0(a, b, c),
        y1 == bbox_y1(a, b, c, h),
        x0 <= x < x1,
        y0 <= y < y1,
        x1 <= w,
        y1 <= h,
        0 <= x0,
        0 <= y0,
        before.len() == pre.len(),
        writes == (covered_spec(x, y, a, b, c) && mask_pass(mask, y * stride + 4 * x)),
        after == (if writes {
            blend_pixel_spec(before, stride, x, y, sample_paint_spec(paint, pix_center(x),
                pix_center(y)))
        } else {
            before
        }),
        forall|k: int|
            0 <= k < pre.len() ==> before[k] == (if pix_done(k, x, y, x0, x1, y0, y1, stride) {
                tri_byte(pre, k, a, b, c, paint, mask, w, h, stride)
            } else {
                pre[k]
            }),
    ensures
        after.len() == pre.len(),
        forall|k: int|
            0 <= k < pre.len() ==> after[k] == (if pix_done(k, x + 1, y, x0, x1, y0, y1, stride) {
                tri_byte(pre, k, a, b, c, paint, mask, w, h, stride)
            } else {
                pre[k]
            }),
{
    let o = y * stride + 4 * x;
    let src = sample_paint_spec(paint, pix_center(x), pix_center(y));
    assert forall|k: int| 0 <= k < pre.len() implies after[k] == (if pix_done(k, x + 1, y, x0, x1,
        y0, y1, stride) {
        tri_byte(pre, k, a, b, c, paint, mask, w, h, stride)
    } else {
        pre[k]
    }) by {
        if o <= k <= o + 3 {
            lemma_pixel_bytes(k, y, x, stride, w);
            assert(k / stride == y && (k % stride) / 4 == x);
            assert(!pix_done(k, x, y, x0, x1, y0, y1, stride));
            assert(before[k] == pre[k]);
            assert(pix_done(k, x + 1, y, x0, x1, y0, y1, stride));
            if writes {
                assert(o >= 0) by (nonlinear_arith)
                    requires
                        y >= 0,
                        x >= 0,
                        stride >= 0,
                        o == y * stride + 4 * x,
                ;
                if o + 3 < pre.len() {
                    assert(before[o] == pre[o] && before[o + 1] == pre[o + 1] && before[o + 2]
                        == pre[o + 2] && before[o + 3] == pre[o + 3]) by {
                        lemma_pixel_bytes(o, y, x, stride, w);
                        lemma_pixel_bytes(o + 1, y, x, stride, w);
                        lemma_pixel_bytes(o + 2, y, x, stride, w);
                        lemma_pixel_bytes(o + 3, y, x, stride, w);
                    }
                    assert(tri_writes(x, y, a, b, c, w, h));
                    assert(tri_byte(pre, k, a, b, c, paint, mask, w, h, stride) == after[k]);
                } else {
                    assert(after[k] == pre[k]);
                    assert(tri_byte(pre, k, a, b, c, paint, mask, w, h, stride) == pre[k]);
                }
            } else {
                assert(after[k] == pre[k]);
                assert(tri_byte(pre, k, a, b, c, paint, mask, w, h, stride) == pre[k]);
            }
        } else {
            if writes {
                assert(after[k] == before[k]);
            }
            assert(pix_done(k, x + 1, y, x0, x1, y0, y1, stride) == pix_done(k, x, y, x0, x1, y0,
                y1, stride)) by {
                let ky = k / stride;
                let kx = (k % stride) / 4;
                if x0 <= kx < x1 && ky == y && kx == x {
                    lemma_pixel_bytes_converse(k, y, x, stride, w);
                    assert(false);
                }
            }
        }
    }
}

/// A byte whose row and column decompose to the pixel `(x, y)` lies among
/// that pixel's four bytes.
proof fn lemma_pixel_bytes_converse(k: int, y: int, x: int, stride: int, w: int)
    requires
        stride >= 4 * w,
        0 <= x < w,
        0 <= k,
        k / stride == y,
        (k % stride) / 4 == x,
    ensures
        y * stride + 4 * x <= k <= y * stride + 4 * x + 3,
{
    vstd::arithmetic::div_mod::lemma_fundamental_div_mod(k, stride);
    vstd::arithmetic::div_mod::lemma_fundamental_div_mod(k % stride, 4);
}

/// Whether the center of pixel `(x, y)` is inside the triangle `(a, b, c)`.
fn inside_triangle(x: usize, y: usize, a: Vec2Fx, b: Vec2Fx, c: Vec2Fx) -> (r: bool)
    requires
        x <= 0xffff_ffff,
        y <= 0xffff_ffff,
    ensures
        r == covered_spec(x as int, y as int, a, b, c),
{
    let px: i64 = x as i64 * 65536 + 32768;
    let py: i64 = y as i64 * 65536 + 32768;
    let e1 = edge_fn(px, py, a, b);
    let e2 = edge_fn(px, py, b, c);
    let e3 = edge_fn(px, py, c, a);
    (e1 >= 0 && e2 >= 0 && e3 >= 0) || (e1 <= 0 && e2 <= 0 && e3 <= 0)
}

/// Bounds on a product follow from separate bounds on its factors.
proof fn lemma_mul_bound2(a: int, b: int, ma: int, mb: int)
    requires
        -ma <= a <= ma,
        -mb <= b <= mb,
        0 <= ma,
        0 <= mb,
    ensures
        -(ma * mb) <= a * b <= ma * mb,
{
    assert(-(ma * mb) <= a * b <= ma * mb) by (nonlinear_arith)
        requires
            -ma <= a <= ma,
            -mb <= b <= mb,
            0 <= ma,
            0 <= mb,
    ;
}

/// The edge function, computed exactly in 128-bit arithmetic.
fn edge_fn(px: i64, py: i64, a: Vec2Fx, b: Vec2Fx) -> (r: i128)
    ensures
        r as int == edge_spec(px as int, py as int, a, b),
{
    proof {
        lemma_mul_bound2(px as int - a.x as int, b.y as int - a.y as int,
            0x1_0000_0000_0000_0000, 0x1_0000_0000);
        lemma_mul_bound2(py as int - a.y as int, b.x as int - a.x as int,
            0x1_0000_0000_0000_0000, 0x1_0000_0000);
    }
    (px as i128 - a.x as i128) * (b.y as i128 - a.y as i128) - (py as i128 - a.y as i128) * (b.x
        as i128 - a.x as i128)
}

/// The clipped bounding-box columns of a triangle.
fn bbox_cols(a: Vec2Fx, b: Vec2Fx, c: Vec2Fx, width: usize) -> (r: (usize, usize))
    ensures
        r.0 as int == bbox_x0(a, b, c),
        r.1 as int == bbox_x1(a, b, c, width as int),
        r.1 <= width,
        r.1 <= 0x1_0000,
{
    let lo = floor_fx(min3(a.x, b.x, c.x));
    let hi = ceil_fx(max3(a.x, b.x, c.x));
    let lo_c: usize = if lo < 0 {
        0
    } else {
        lo as usize
    };
    let hi_c: usize = if hi < 0 {
        0
    } else if (hi as u128) > (width as u128) {
        width
    } else {
        hi as usize
    };
    (lo_c, hi_c)
}

/// The clipped bounding-box rows of a triangle.
fn bbox_rows(a: Vec2Fx, b: Vec2Fx, c: Vec2Fx, height: usize) -> (r: (usize, usize))
    ensures
        r.0 as int == bbox_y0(a, b, c),
        r.1 as int == bbox_y1(a, b, c, height as int),
        r.1 <= height,
        r.1 <= 0x1_0000,
{
    let lo = floor_fx(min3(a.y, b.y, c.y));
    let hi = ceil_fx(max3(a.y, b.y, c.y));
    let lo_c: usize = if lo < 0 {
        0
    } else {
        lo as usize
    };
    let hi_c: usize = if hi < 0 {
        0
    } else if (hi as u128) > (height as u128) {
        height
    } else {
        hi as usize
    };
    (lo_c, hi_c)
}

/// The smallest of three coordinates.
fn min3(p: i32, q: i32, r: i32) -> (m: i32)
    ensures
        m as int == imin(imin(p as int, q as int), r as int),
{
    let mut m = p;
    if q < m {
        m = q;
    }
    if r < m {
        m = r;
    }
    m
}

/// The largest of three coordinates.
fn max3(p: i32, q: i32, r: i32) -> (m: i32)
    ensures
        m as int == imax(imax(p as int, q as int), r as int),
{
    let mut m = p;
    if q > m {
        m = q;
    }
    if r > m {
        m = r;
    }
    m
}

/// The whole pixel at or below a Q16.16 coordinate.
fn floor_fx(v: i32) -> (r: i64)
    ensures
        r as int == floor_fx_spec(v as int),
{
    let w: i64 = v as i64;
    if w >= 0 {
        w / 65536
    } else {
        -((-w + 65535) / 65536)
    }
}

/// The whole pixel at or above a Q16.16 coordinate.
fn ceil_fx(v: i32) -> (r: i64)
    ensures
        r as int == ceil_fx_spec(v as int),
{
    let w: i64 = v as i64;
    if w >= 0 {
        (w + 65535) / 65536
    } else {
        -((-w) / 65536)
    }
}


/// One byte of a byte-per-pixel mask buffer after rasterizing a triangle
/// into it: covered pixels become 255, all others keep their value.
pub open spec fn maskfill_byte(pre: Seq<u8>, k: int, a: Vec2Fx, b: Vec2Fx, c: Vec2Fx, w: int,
    h: int) -> u8 {
    if w <= 0 {
        pre[k]
    } else {
        let y = k / w;
        let x = k % w;
        if tri_writes(x, y, a, b, c, w, h) {
            255
        } else {
            pre[k]
        }
    }
}

/// The whole mask buffer after rasterizing a triangle into it.
pub open spec fn fill_mask_tri_spec(pre: Seq<u8>, a: Vec2Fx, b: Vec2Fx, c: Vec2Fx, w: int, h: int)
    -> Seq<u8> {
    Seq::new(pre.len(), |k: int| maskfill_byte(pre, k, a, b, c, w, h))
}

/// Whether the mask byte `k` has been processed by the mask-fill loops.
pub open spec fn mask_done(k: int, x: int, y: int, x0: int, x1: int, y0: int, y1: int, w: int)
    -> bool {
    let ky = k / w;
    let kx = k % w;
    x0 <= kx < x1 && y0 <= ky < y1 && (ky < y || (ky == y && kx < x))
}

/// Processing one pixel of the mask fill extends the processed prefix.
proof fn mask_step_proof(
    pre: Seq<u8>,
    before: Seq<u8>,
    after: Seq<u8>,
    x: int,
    y: int,
    x0: int,
    x1: int,
    y0: int,
    y1: int,
    a: Vec2Fx,
    b: Vec2Fx,
    c: Vec2Fx,
    w: int,
    h: int,
    covered: bool,
)
    requires
        x0 == bbox_x0(a, b, c),
        x1 == bbox_x1(a, b, c, w),
        y0 == bbox_y0(a, b, c),
        y1 == bbox_y1(a, b, c, h),
        x0 <= x < x1,
        y0 <= y < y1,
        x1 <= w,
        y1 <= h,
        0 <= x0,
        0 <= y0,
        before.len() == pre.len(),
        covered == covered_spec(x, y, a, b, c),
        after == (if covered && y * w + x < pre.len() {
            before.update(y * w + x, 255u8)
        } else {
            before
        }),
        forall|k: int|
            0 <= k < pre.len() ==> before[k] == (if mask_done(k, x, y, x0, x1, y0, y1, w) {
                maskfill_byte(pre, k, a, b, c, w, h)
            } else {
                pre[k]
            }),
    ensures
        after.len() == pre.len(),
        forall|k: int|
            0 <= k < pre.len() ==> after[k] == (if mask_done(k, x + 1, y, x0, x1, y0, y1, w) {
                maskfill_byte(pre, k, a, b, c, w, h)
            } else {
                pre[k]
            }),
{
    let o = y * w + x;
    assert forall|k: int| 0 <= k < pre.len() implies after[k] == (if mask_done(k, x + 1, y, x0, x1,
        y0, y1, w) {
        maskfill_byte(pre, k, a, b, c, w, h)
    } else {
        pre[k]
    }) by {
        if k == o {
            lemma_fundamental_div_mod_converse(k, w, y, x);
            assert(k / w == y && k % w == x);
            assert(!mask_done(k, x, y, x0, x1, y0, y1, w));
            assert(mask_done(k, x + 1, y, x0, x1, y0, y1, w));
        } else {
            if covered && o < pre.len() {
                assert(after[k] == before[k]);
            }
            assert(mask_done(k, x + 1, y, x0, x1, y0, y1, w) == mask_done(k, x, y, x0, x1, y0, y1,
                w)) by {
                let ky = k / w;
                let kx = k % w;
                if 0 <= kx < w && ky == y && kx == x {
                    vstd::arithmetic::div_mod::lemma_fundamental_div_mod(k, w);
                    assert(k == w * ky + kx);
                    assert(w * ky == ky * w) by (nonlinear_arith);
                    assert(k == o);
                }
            }
        }
    }
}

/// A mask byte whose pixel lies outside the clipped bounding box keeps its
/// value.
proof fn maskfill_byte_unwritten(pre: Seq<u8>, k: int, a: Vec2Fx, b: Vec2Fx, c: Vec2Fx, w: int,
    h: int, x0: int, x1: int, y0: int, y1: int)
    requires
        0 <= k < pre.len(),
        x0 == bbox_x0(a, b, c),
        x1 == bbox_x1(a, b, c, w),
        y0 == bbox_y0(a, b, c),
        y1 == bbox_y1(a, b, c, h),
        w <= 0 || !(x0 <= k % w < x1 && y0 <= k / w < y1),
    ensures
        maskfill_byte(pre, k, a, b, c, w, h) == pre[k],
{
}

/// Rasterize the triangle `(a, b, c)` at full coverage into a
/// byte-per-pixel mask buffer.
fn fill_triangle_mask(a: Vec2Fx, b: Vec2Fx, c: Vec2Fx, buf: &mut Vec<u8>, width: usize,
    height: usize)
    ensures
        final(buf)@ == fill_mask_tri_spec(old(buf)@, a, b, c, width as int, height as int),
{
    let ghost pre = buf@;
    let ghost wi = width as int;
    let ghost hi = height as int;
    let (x0, x1) = bbox_cols(a, b, c, width);
    let (y0, y1) = bbox_rows(a, b, c, height);
    let mut y = y0;
    while y < y1
        invariant
            pre == old(buf)@,
            wi == width as int,
            hi == height as int,
            y0 <= y <= imax(y1 as int, y0 as int),
            y1 <= height,
            x0 as int == bbox_x0(a, b, c),
            x1 as int == bbox_x1(a, b, c, wi),
            y0 as int == bbox_y0(a, b, c),
            y1 as int == bbox_y1(a, b, c, hi),
            x1 <= width,
            x1 <= 0x1_0000,
            y1 <= 0x1_0000,
            buf@.len() == pre.len(),
            forall|k: int|
                0 <= k < pre.len() ==> buf@[k] == (if mask_done(k, x0 as int, y as int, x0 as int,
                    x1 as int, y0 as int, y1 as int, wi) {
                    maskfill_byte(pre, k, a, b, c, wi, hi)
                } else {
                    pre[k]
                }),
        decreases y1 as int - y,
    {
        let mut x = x0;
        while x < x1
            invariant
                pre == old(buf)@,
                wi == width as int,
                hi == height as int,
                y0 <= y < y1,
                y1 <= height,
                x0 <= x <= imax(x1 as int, x0 as int),
                x0 as int == bbox_x0(a, b, c),
                x1 as int == bbox_x1(a, b, c, wi),
                y0 as int == bbox_y0(a, b, c),
                y1 as int == bbox_y1(a, b, c, hi),
                x1 <= width,
                x1 <= 0x1_0000,
                y1 <= 0x1_0000,
                buf@.len() == pre.len(),
                forall|k: int|
                    0 <= k < pre.len() ==> buf@[k] == (if mask_done(k, x as int, y as int, x0
                        as int, x1 as int, y0 as int, y1 as int, wi) {
                        maskfill_byte(pre, k, a, b, c, wi, hi)
                    } else {
                        pre[k]
                    }),
            decreases x1 as int - x,
        {
            let ghost before = buf@;
            if inside_triangle(x, y, a, b, c) {
                proof {
                    lemma_mul_bound(y as int, width as int, 0xffff_ffff_ffff_ffff);
                }
                let idx128: u128 = y as u128 * width as u128 + x as u128;
                if idx128 < buf.len() as u128 {
                    let idx = idx128 as usize;
                    buf.set(idx, 255);
                }
                proof {
                    mask_step_proof(pre, before, buf@, x as int, y as int, x0 as int, x1 as int,
                        y0 as int, y1 as int, a, b, c, wi, hi, true);
                }
            } else {
                proof {
                    mask_step_proof(pre, before, buf@, x as int, y as int, x0 as int, x1 as int,
                        y0 as int, y1 as int, a, b, c, wi, hi, false);
                }
            }
            x = x + 1;
        }
        proof {
            assert(forall|k: int|
                0 <= k < pre.len() ==> mask_done(k, x as int, y as int, x0 as int, x1 as int, y0
                    as int, y1 as int, wi) == mask_done(k, x0 as int, y as int + 1, x0 as int, x1
                    as int, y0 as int, y1 as int, wi));
        }
        y = y + 1;
    }
    proof {
        assert forall|k: int| 0 <= k < pre.len() implies buf@[k] == maskfill_byte(pre, k, a, b, c,
            wi, hi) by {
            if !mask_done(k, x0 as int, y as int, x0 as int, x1 as int, y0 as int, y1 as int, wi) {
                maskfill_byte_unwritten(pre, k, a, b, c, wi, hi, x0 as int, x1 as int, y0 as int,
                    y1 as int);
            }
        }
        assert(buf@ =~= fill_mask_tri_spec(pre, a, b, c, wi, hi));
    }
}

/// The buffer after filling the first `t` fan triangles of a mesh.
pub open spec fn fill_mesh_iter(
    pre: Seq<u8>,
    verts: Seq<Vec2Fx>,
    idx: Seq<u32>,
    paint: Paint,
    mask: Option<Seq<u8>>,
    w: int,
    h: int,
    stride: int,
    t: int,
) -> Seq<u8>
    decreases t,
{
    if t <= 0 {
        pre
    } else {
        let p = fill_mesh_iter(pre, verts, idx, paint, mask, w, h, stride, t - 1);
        fill_tri_spec(p, verts[idx[3 * (t - 1)] as int], verts[idx[3 * (t - 1) + 1] as int],
            verts[idx[3 * (t - 1) + 2] as int], paint, mask, w, h, stride)
    }
}

/// The buffer after filling a path with a paint: the path is flattened at
/// the rasterization tolerance, fan-triangulated, and each triangle is
/// blended in order, through the optional clip mask.
pub open spec fn draw_path_spec(
    pre: Seq<u8>,
    segs: Seq<crate::path::PathSeg>,
    paint: Paint,
    mask: Option<Seq<u8>>,
    w: int,
    h: int,
    stride: int,
) -> Seq<u8> {
    let fsegs = crate::path::flatten_spec(segs, 13107);
    let verts = crate::tess::fan_verts_spec(fsegs);
    let idx = crate::tess::fan_indices_spec(verts.len() as int);
    fill_mesh_iter(pre, verts, idx, paint, mask, w, h, stride, idx.len() as int / 3)
}

/// Fill a path with a paint through an optional clip mask.
fn draw_path_with(
    path: &Path,
    paint: &Paint,
    mask: Option<&Vec<u8>>,
    buffer: &mut Vec<u8>,
    width: usize,
    height: usize,
    stride: usize,
)
    requires
        stride >= 4 * width,
    ensures
        final(buffer)@ == draw_path_spec(old(buffer)@, path.segments@, *paint, mask_view(mask),
            width as int, height as int, stride as int),
{
    let ghost pre = buffer@;
    let ghost maskv = mask_view(mask);
    let mesh = crate::tess::tessellate(path, 13107, None);
    let ghost verts = mesh.vertices@;
    let ghost idx = mesh.indices@;
    let nt = mesh.indices.len() / 3;
    proof {
        assert(idx.len() as int / 3 == nt as int);
    }
    let mut t: usize = 0;
    while t < nt
        invariant
            pre == old(buffer)@,
            maskv == mask_view(mask),
            verts == mesh.vertices@,
            idx == mesh.indices@,
            idx == crate::tess::fan_indices_spec(verts.len() as int),
            stride >= 4 * width,
            nt as int == idx.len() as int / 3,
            3 * nt <= idx.len(),
            t <= nt,
            buffer@ == fill_mesh_iter(pre, verts, idx, *paint, maskv, width as int, height as int,
                stride as int, t as int),
        decreases nt - t,
    {
        let i0 = mesh.indices[3 * t] as usize;
        let i1 = mesh.indices[3 * t + 1] as usize;
        let i2 = mesh.indices[3 * t + 2] as usize;
        proof {
            assert((idx[3 * t as int] as int) < verts.len());
            assert((idx[3 * t as int + 1] as int) < verts.len());
            assert((idx[3 * t as int + 2] as int) < verts.len());
        }
        let v0 = mesh.vertices[i0];
        let v1 = mesh.vertices[i1];
        let v2 = mesh.vertices[i2];
        fill_triangle_paint(v0, v1, v2, paint, mask, buffer, width, height, stride);
        t = t + 1;
    }
    proof {
        assert(verts == crate::tess::fan_verts_spec(crate::path::flatten_spec(path.segments@,
            13107)));
    }
}

/// Fill a path with the given paint into the RGBA8888 buffer.
pub fn draw_path(
    path: &Path,
    paint: Paint,
    buffer: &mut Vec<u8>,
    width: usize,
    height: usize,
    stride: usize,
)
    requires
        stride >= 4 * width,
    ensures
        final(buffer)@ == draw_path_spec(old(buffer)@, path.segments@, paint, Option::None,
            width as int, height as int, stride as int),
{
    draw_path_with(path, &paint, None, buffer, width, height, stride)
}

/// Fill a path applying a mask buffer: only pixels whose alpha byte in the
/// mask RGBA buffer is non-zero are drawn.
pub fn draw_path_masked(
    path: &Path,
    paint: Paint,
    mask: &Vec<u8>,
    buffer: &mut Vec<u8>,
    width: usize,
    height: usize,
    stride: usize,
)
    requires
        stride >= 4 * width,
    ensures
        final(buffer)@ == draw_path_spec(old(buffer)@, path.segments@, paint, Option::Some(mask@),
            width as int, height as int, stride as int),
{
    draw_path_with(path, &paint, Some(mask), buffer, width, height, stride)
}

/// A point displaced by a Q16.16 offset, saturating into coordinates.
pub open spec fn off_add_spec(p: Vec2Fx, nx: int, ny: int) -> Vec2Fx {
    Vec2Fx {
        x: crate::fixed::clip32(fx_add_spec(p.x as int, nx)) as i32,
        y: crate::fixed::clip32(fx_add_spec(p.y as int, ny)) as i32,
    }
}

/// A point displaced by the negated Q16.16 offset, saturating.
pub open spec fn off_sub_spec(p: Vec2Fx, nx: int, ny: int) -> Vec2Fx {
    Vec2Fx {
        x: crate::fixed::clip32(fx_sub_spec(p.x as int, nx)) as i32,
        y: crate::fixed::clip32(fx_sub_spec(p.y as int, ny)) as i32,
    }
}

/// The buffer after stroking one flattened chord: a quadrilateral of the
/// stroke width around the chord, drawn as two triangles; zero-length chords
/// are skipped.
pub open spec fn stroke_seg_spec(
    pre: Seq<u8>,
    seg: LineSegment,
    width_px: int,
    paint: Paint,
    mask: Option<Seq<u8>>,
    w: int,
    h: int,
    stride: int,
) -> Seq<u8> {
    let dx = seg.to.x - seg.from.x;
    let dy = seg.to.y - seg.from.y;
    let len = crate::path::seg_len_spec(seg);
    if len == 0 {
        pre
    } else {
        let hw = fx_mul_spec(width_px, 32768);
        let nx = fx_mul_spec(fx_div_spec(-dy, len), hw);
        let ny = fx_mul_spec(fx_div_spec(dx, len), hw);
        let p1 = off_add_spec(seg.from, nx, ny);
        let p2 = off_sub_spec(seg.from, nx, ny);
        let p3 = off_sub_spec(seg.to, nx, ny);
        let p4 = off_add_spec(seg.to, nx, ny);
        fill_tri_spec(fill_tri_spec(pre, p1, p2, p3, paint, mask, w, h, stride), p1, p3, p4,
            paint, mask, w, h, stride)
    }
}

/// The buffer after stroking the first `i` flattened chords.
pub open spec fn stroke_iter(
    pre: Seq<u8>,
    fsegs: Seq<LineSegment>,
    width_px: int,
    paint: Paint,
    mask: Option<Seq<u8>>,
    w: int,
    h: int,
    stride: int,
    i: int,
) -> Seq<u8>
    decreases i,
{
    if i <= 0 {
        pre
    } else {
        stroke_seg_spec(stroke_iter(pre, fsegs, width_px, paint, mask, w, h, stride, i - 1),
            fsegs[i - 1], width_px, paint, mask, w, h, stride)
    }
}

/// The buffer after stroking a whole path.
pub open spec fn draw_stroke_spec(
    pre: Seq<u8>,
    segs: Seq<crate::path::PathSeg>,
    width_px: int,
    paint: Paint,
    mask: Option<Seq<u8>>,
    w: int,
    h: int,
    stride: int,
) -> Seq<u8> {
    let fsegs = crate::path::flatten_spec(segs, 13107);
    stroke_iter(pre, fsegs, width_px, paint, mask, w, h, stride, fsegs.len() as int)
}

/// Stroke a path through an optional clip mask.
fn draw_stroke_with(
    path: &Path,
    width_px: i32,
    paint: &Paint,
    mask: Option<&Vec<u8>>,
    buffer: &mut Vec<u8>,
    width: usize,
    height: usize,
    stride: usize,
)
    requires
        stride >= 4 * width,
    ensures
        final(buffer)@ == draw_stroke_spec(old(buffer)@, path.segments@, width_px as int, *paint,
            mask_view(mask), width as int, height as int, stride as int),
{
    let ghost pre = buffer@;
    let ghost maskv = mask_view(mask);
    let segs = path.flatten(13107);
    let ghost fsegs = segs@;
    let hw = fx_mul(width_px as i64, 32768);
    let n = segs.len();
    let mut i: usize = 0;
    while i < n
        invariant
            pre == old(buffer)@,
            maskv == mask_view(mask),
            fsegs == segs@,
            stride >= 4 * width,
            n == fsegs.len(),
            hw as int == fx_mul_spec(width_px as int, 32768),
            i <= n,
            buffer@ == stroke_iter(pre, fsegs, width_px as int, *paint, maskv, width as int,
                height as int, stride as int, i as int),
        decreases n - i,
    {
        let seg = segs[i];
        let len = seg.length();
        if len != 0 {
            let dx: i64 = seg.to.x as i64 - seg.from.x as i64;
            let dy: i64 = seg.to.y as i64 - seg.from.y as i64;
            let nx = fx_mul(fx_div(-dy, len), hw);
            let ny = fx_mul(fx_div(dx, len), hw);
            let p1 = Vec2Fx {
                x: to_i32_sat(fx_add(seg.from.x as i64, nx)),
                y: to_i32_sat(fx_add(seg.from.y as i64, ny)),
            };
            let p2 = Vec2Fx {
                x: to_i32_sat(fx_sub(seg.from.x as i64, nx)),
                y: to_i32_sat(fx_sub(seg.from.y as i64, ny)),
            };
            let p3 = Vec2Fx {
                x: to_i32_sat(fx_sub(seg.to.x as i64, nx)),
                y: to_i32_sat(fx_sub(seg.to.y as i64, ny)),
            };
            let p4 = Vec2Fx {
                x: to_i32_sat(fx_add(seg.to.x as i64, nx)),
                y: to_i32_sat(fx_add(seg.to.y as i64, ny)),
            };
            fill_triangle_paint(p1, p2, p3, paint, mask, buffer, width, height, stride);
            fill_triangle_paint(p1, p3, p4, paint, mask, buffer, width, height, stride);
        }
        i = i + 1;
    }
}

/// Stroke a path with the given paint and pixel width (Q16.16).
pub fn draw_stroke(
    path: &Path,
    width_px: i32,
    paint: Paint,
    buffer: &mut Vec<u8>,
    width: usize,
    height: usize,
    stride: usize,
)
    requires
        stride >= 4 * width,
    ensures
        final(buffer)@ == draw_stroke_spec(old(buffer)@, path.segments@, width_px as int, paint,
            Option::None, width as int, height as int, stride as int),
{
    draw_stroke_with(path, width_px, &paint, None, buffer, width, height, stride)
}

/// Stroke a path applying a mask buffer.
pub fn draw_stroke_masked(
    path: &Path,
    width_px: i32,
    paint: Paint,
    mask: &Vec<u8>,
    buffer: &mut Vec<u8>,
    width: usize,
    height: usize,
    stride: usize,
)
    requires
        stride >= 4 * width,
    ensures
        final(buffer)@ == draw_stroke_spec(old(buffer)@, path.segments@, width_px as int, paint,
            Option::Some(mask@), width as int, height as int, stride as int),
{
    draw_stroke_with(path, width_px, &paint, Some(mask), buffer, width, height, stride)
}

/// The mask buffer after rasterizing the first `t` fan triangles into it.
pub open spec fn mask_mesh_iter(
    pre: Seq<u8>,
    verts: Seq<Vec2Fx>,
    idx: Seq<u32>,
    w: int,
    h: int,
    t: int,
) -> Seq<u8>
    decreases t,
{
    if t <= 0 {
        pre
    } else {
        let p = mask_mesh_iter(pre, verts, idx, w, h, t - 1);
        fill_mask_tri_spec(p, verts[idx[3 * (t - 1)] as int], verts[idx[3 * (t - 1) + 1] as int],
            verts[idx[3 * (t - 1) + 2] as int], w, h)
    }
}

/// The byte-per-pixel mask buffer after rasterizing a path into it.
pub open spec fn draw_mask_spec(pre: Seq<u8>, segs: Seq<crate::path::PathSeg>, w: int, h: int)
    -> Seq<u8> {
    let fsegs = crate::path::flatten_spec(segs, 13107);
    let verts = crate::tess::fan_verts_spec(fsegs);
    let idx = crate::tess::fan_indices_spec(verts.len() as int);
    mask_mesh_iter(pre, verts, idx, w, h, idx.len() as int / 3)
}

/// Rasterize a path at full coverage into a byte-per-pixel alpha mask.
pub fn draw_mask(path: &Path, mask: &mut Vec<u8>, width: usize, height: usize)
    ensures
        final(mask)@ == draw_mask_spec(old(mask)@, path.segments@, width as int, height as int),
{
    let ghost pre = mask@;
    let mesh = crate::tess::tessellate(path, 13107, None);
    let ghost verts = mesh.vertices@;
    let ghost idx = mesh.indices@;
    let nt = mesh.indices.len() / 3;
    let mut t: usize = 0;
    while t < nt
        invariant
            pre == old(mask)@,
            verts == mesh.vertices@,
            idx == mesh.indices@,
            idx == crate::tess::fan_indices_spec(verts.len() as int),
            nt as int == idx.len() as int / 3,
            3 * nt <= idx.len(),
            t <= nt,
            mask@ == mask_mesh_iter(pre, verts, idx, width as int, height as int, t as int),
        decreases nt - t,
    {
        let i0 = mesh.indices[3 * t] as usize;
        let i1 = mesh.indices[3 * t + 1] as usize;
        let i2 = mesh.indices[3 * t + 2] as usize;
        proof {
            assert((idx[3 * t as int] as int) < verts.len());
            assert((idx[3 * t as int + 1] as int) < verts.len());
            assert((idx[3 * t as int + 2] as int) < verts.len());
        }
        let v0 = mesh.vertices[i0];
        let v1 = mesh.vertices[i1];
        let v2 = mesh.vertices[i2];
        fill_triangle_mask(v0, v1, v2, mask, width, height);
        t = t + 1;
    }
    proof {
        assert(verts == crate::tess::fan_verts_spec(crate::path::flatten_spec(path.segments@,
            13107)));
    }
}



/// The matte-adjusted mask value: inverted for `AlphaInv`.
pub open spec fn matte_m(m0: int, matte: crate::types::MatteType) -> int {
    if matte is AlphaInv {
        255 - m0
    } else {
        m0
    }
}

/// An integer capped at 255.
pub open spec fn cap255(v: int) -> int {
    if v > 255 {
        255
    } else {
        v
    }
}

/// One byte of the destination after the track-matte composite: the source
/// is premultiplied by the mask value and blended source-over; a pixel whose
/// premultiplied source alpha is exactly zero is left untouched.
pub open spec fn bm_byte(
    pre: Seq<u8>,
    src: Seq<u8>,
    mask: Seq<u8>,
    matte: crate::types::MatteType,
    w: int,
    h: int,
    stride: int,
    k: int,
) -> u8 {
    if stride <= 0 {
        pre[k]
    } else {
        let y = k / stride;
        let x = (k % stride) / 4;
        let ch = (k % stride) % 4;
        let o = y * stride + 4 * x;
        if y < h && x < w {
            let m = matte_m(mask[y * w + x] as int, matte);
            let sraw = src[o + 3] as int * m;
            if sraw == 0 {
                pre[k]
            } else {
                let sa = sraw / 255;
                if ch == 0 {
                    cap255(src[o] as int * m / 255 + pre[o] as int * (255 - sa) / 255) as u8
                } else if ch == 1 {
                    cap255(src[o + 1] as int * m / 255 + pre[o + 1] as int * (255 - sa) / 255)
                        as u8
                } else if ch == 2 {
                    cap255(src[o + 2] as int * m / 255 + pre[o + 2] as int * (255 - sa) / 255)
                        as u8
                } else {
                    cap255(sa + pre[o + 3] as int * (255 - sa) / 255) as u8
                }
            }
        } else {
            pre[k]
        }
    }
}

/// The whole destination after the track-matte composite.
pub open spec fn blend_masked_spec(
    pre: Seq<u8>,
    src: Seq<u8>,
    mask: Seq<u8>,
    matte: crate::types::MatteType,
    w: int,
    h: int,
    stride: int,
) -> Seq<u8> {
    Seq::new(pre.len(), |k: int| bm_byte(pre, src, mask, matte, w, h, stride, k))
}

/// Processing one pixel of the matte composite extends the processed prefix.
proof fn bm_step_proof(
    pre: Seq<u8>,
    before: Seq<u8>,
    after: Seq<u8>,
    src: Seq<u8>,
    mask: Seq<u8>,
    matte: crate::types::MatteType,
    x: int,
    y: int,
    w: int,
    h: int,
    stride: int,
)
    requires
        stride >= 4 * w,
        0 <= x < w,
        0 <= y < h,
        before.len() == pre.len(),
        after.len() == before.len(),
        y * stride + 4 * x + 3 < pre.len(),
        forall|k: int|
            0 <= k < pre.len() ==> before[k] == (if pix_done(k, x, y, 0, w, 0, h, stride) {
                bm_byte(pre, src, mask, matte, w, h, stride, k)
            } else {
                pre[k]
            }),
        forall|k: int|
            0 <= k < after.len() && !(y * stride + 4 * x <= k <= y * stride + 4 * x + 3)
                ==> after[k] == before[k],
        forall|k: int|
            y * stride + 4 * x <= k <= y * stride + 4 * x + 3 ==> after[k] == bm_byte(pre, src,
                mask, matte, w, h, stride, k),
    ensures
        forall|k: int|
            0 <= k < pre.len() ==> after[k] == (if pix_done(k, x + 1, y, 0, w, 0, h, stride) {
                bm_byte(pre, src, mask, matte, w, h, stride, k)
            } else {
                pre[k]
            }),
{
    let o = y * stride + 4 * x;
    assert forall|k: int| 0 <= k < pre.len() implies after[k] == (if pix_done(k, x + 1, y, 0, w, 0,
        h, stride) {
        bm_byte(pre, src, mask, matte, w, h, stride, k)
    } else {
        pre[k]
    }) by {
        if o <= k <= o + 3 {
            lemma_pixel_bytes(k, y, x, stride, w);
            assert(pix_done(k, x + 1, y, 0, w, 0, h, stride));
        } else {
            assert(pix_done(k, x + 1, y, 0, w, 0, h, stride) == pix_done(k, x, y, 0, w, 0, h,
                stride)) by {
                let ky = k / stride;
                let kx = (k % stride) / 4;
                if 0 <= kx < w && ky == y && kx == x {
                    lemma_pixel_bytes_converse(k, y, x, stride, w);
                    assert(false);
                }
            }
        }
    }
}

/// Composite a source layer onto the destination through a byte-per-pixel
/// matte mask: each source pixel is scaled by its mask value (inverted for
/// `AlphaInv`) and blended source-over.
#[verifier::rlimit(100)]
pub fn blend_masked(
    dest: &mut Vec<u8>,
    src: &Vec<u8>,
    mask: &Vec<u8>,
    matte: crate::types::MatteType,
    width: usize,
    height: usize,
    stride: usize,
)
    requires
        stride >= 4 * width,
        src@.len() == old(dest)@.len(),
        mask@.len() >= width * height,
        old(dest)@.len() >= height * stride,
    ensures
        final(dest)@ == blend_masked_spec(old(dest)@, src@, mask@, matte, width as int,
            height as int, stride as int),
{
    let ghost pre = dest@;
    let ghost wi = width as int;
    let ghost hi = height as int;
    let ghost si = stride as int;
    let mut y: usize = 0;
    while y < height
        invariant
            stride >= 4 * width,
            pre == old(dest)@,
            wi == width as int,
            hi == height as int,
            si == stride as int,
            src@.len() == pre.len(),
            mask@.len() >= width * height,
            pre.len() >= height * stride,
            y <= height,
            dest@.len() == pre.len(),
            forall|k: int|
                0 <= k < pre.len() ==> dest@[k] == (if pix_done(k, 0, y as int, 0, wi, 0, hi, si) {
                    bm_byte(pre, src@, mask@, matte, wi, hi, si, k)
                } else {
                    pre[k]
                }),
        decreases height - y,
    {
        let mut x: usize = 0;
        while x < width
            invariant
                stride >= 4 * width,
                pre == old(dest)@,
                wi == width as int,
                hi == height as int,
                si == stride as int,
                src@.len() == pre.len(),
                mask@.len() >= width * height,
                pre.len() >= height * stride,
                y < height,
                x <= width,
                dest@.len() == pre.len(),
                forall|k: int|
                    0 <= k < pre.len() ==> dest@[k] == (if pix_done(k, x as int, y as int, 0, wi,
                        0, hi, si) {
                        bm_byte(pre, src@, mask@, matte, wi, hi, si, k)
                    } else {
                        pre[k]
                    }),
            decreases width - x,
        {
            proof {
                assert((y as int + 1) * si <= hi * si) by (nonlinear_arith)
                    requires
                        y as int + 1 <= hi,
                        si >= 0,
                ;
                assert((y as int) * si + 4 * (x as int) + 3 < (y as int + 1) * si) by
                    (nonlinear_arith)
                    requires
                        x as int + 1 <= wi,
                        si >= 4 * wi,
                ;
                assert((y as int + 1) * wi <= hi * wi) by (nonlinear_arith)
                    requires
                        y as int + 1 <= hi,
                        wi >= 0,
                ;
                assert((y as int) * wi + (x as int) < (y as int + 1) * wi) by (nonlinear_arith)
                    requires
                        x as int + 1 <= wi,
                ;
            }
            let dl: usize = dest.len();
            let ml: usize = mask.len();
            proof {
                assert((y as int) * si + 4 * (x as int) + 3 < dl as int);
                assert((y as int) * wi + (x as int) < ml as int);
            }
            let o: usize = y * stride + 4 * x;
            let midx: usize = y * width + x;
            let m0: u32 = mask[midx] as u32;
            let m: u32 = if matte == crate::types::MatteType::AlphaInv {
                255 - m0
            } else {
                m0
            };
            let ghost before = dest@;
            proof {
                assert(src@[o + 3] as int * m <= 255 * 255) by (nonlinear_arith)
                    requires
                        0 <= src@[o + 3] as int <= 255,
                        0 <= m <= 255,
                ;
            }
            let sraw: u32 = src[o + 3] as u32 * m;
            if sraw != 0 {
                let sa: u32 = sraw / 255;
                proof {
                    assert(src@[o + 3] as int * m <= 255 * 255) by (nonlinear_arith)
                        requires
                            0 <= src@[o + 3] as int <= 255,
                            0 <= m <= 255,
                    ;
                    assert(src@[o as int] as int * m <= 255 * 255) by (nonlinear_arith)
                        requires
                            0 <= src@[o as int] as int <= 255,
                            0 <= m <= 255,
                    ;
                    assert(src@[o + 1] as int * m <= 255 * 255) by (nonlinear_arith)
                        requires
                            0 <= src@[o + 1] as int <= 255,
                            0 <= m <= 255,
                    ;
                    assert(src@[o + 2] as int * m <= 255 * 255) by (nonlinear_arith)
                        requires
                            0 <= src@[o + 2] as int <= 255,
                            0 <= m <= 255,
                    ;
                    assert(dest@[o as int] as int * (255 - sa) <= 255 * 255) by (nonlinear_arith)
                        requires
                            0 <= dest@[o as int] as int <= 255,
                            0 <= sa <= 255,
                    ;
                    assert(dest@[o + 1] as int * (255 - sa) <= 255 * 255) by (nonlinear_arith)
                        requires
                            0 <= dest@[o + 1] as int <= 255,
                            0 <= sa <= 255,
                    ;
                    assert(dest@[o + 2] as int * (255 - sa) <= 255 * 255) by (nonlinear_arith)
                        requires
                            0 <= dest@[o + 2] as int <= 255,
                            0 <= sa <= 255,
                    ;
                    assert(dest@[o + 3] as int * (255 - sa) <= 255 * 255) by (nonlinear_arith)
                        requires
                            0 <= dest@[o + 3] as int <= 255,
                            0 <= sa <= 255,
                    ;
                }
                let sr: u32 = src[o] as u32 * m / 255;
                let sg: u32 = src[o + 1] as u32 * m / 255;
                let sb: u32 = src[o + 2] as u32 * m / 255;
                let ia: u32 = 255 - sa;
                let nr0: u32 = sr + dest[o] as u32 * ia / 255;
                let ng0: u32 = sg + dest[o + 1] as u32 * ia / 255;
                let nb0: u32 = sb + dest[o + 2] as u32 * ia / 255;
                let na0: u32 = sa + dest[o + 3] as u32 * ia / 255;
                let nr: u8 = if nr0 > 255 { 255 } else { nr0 as u8 };
                let ng: u8 = if ng0 > 255 { 255 } else { ng0 as u8 };
                let nb: u8 = if nb0 > 255 { 255 } else { nb0 as u8 };
                let na: u8 = if na0 > 255 { 255 } else { na0 as u8 };
                dest.set(o, nr);
                dest.set(o + 1, ng);
                dest.set(o + 2, nb);
                dest.set(o + 3, na);
                proof {
                    lemma_pixel_bytes(o as int, y as int, x as int, si, wi);
                    lemma_pixel_bytes(o as int + 1, y as int, x as int, si, wi);
                    lemma_pixel_bytes(o as int + 2, y as int, x as int, si, wi);
                    lemma_pixel_bytes(o as int + 3, y as int, x as int, si, wi);
                    assert(before[o as int] == pre[o as int] && before[o + 1] == pre[o + 1]
                        && before[o + 2] == pre[o + 2] && before[o + 3] == pre[o + 3]);
                    bm_step_proof(pre, before, dest@, src@, mask@, matte, x as int, y as int, wi,
                        hi, si);
                }
            } else {
                proof {
                    lemma_pixel_bytes(o as int, y as int, x as int, si, wi);
                    lemma_pixel_bytes(o as int + 1, y as int, x as int, si, wi);
                    lemma_pixel_bytes(o as int + 2, y as int, x as int, si, wi);
                    lemma_pixel_bytes(o as int + 3, y as int, x as int, si, wi);
                    bm_step_proof(pre, before, dest@, src@, mask@, matte, x as int, y as int, wi,
                        hi, si);
                }
            }
            x = x + 1;
        }
        proof {
            assert(forall|k: int|
                0 <= k < pre.len() ==> pix_done(k, x as int, y as int, 0, wi, 0, hi, si)
                    == pix_done(k, 0, y as int + 1, 0, wi, 0, hi, si));
        }
        y = y + 1;
    }
    proof {
        assert forall|k: int| 0 <= k < pre.len() implies dest@[k] == bm_byte(pre, src@, mask@,
            matte, wi, hi, si, k) by {
            if !pix_done(k, 0, y as int, 0, wi, 0, hi, si) {
                if si > 0 {
                    let ky = k / si;
                    let kx = (k % si) / 4;
                    assert(!(0 <= kx < wi && 0 <= ky < hi) ==> bm_byte(pre, src@, mask@, matte,
                        wi, hi, si, k) == pre[k]);
                    assert(ky >= 0) by (nonlinear_arith)
                        requires
                            k >= 0,
                            si > 0,
                            ky == k / si,
                    ;
                    assert(kx >= 0) by (nonlinear_arith)
                        requires
                            k >= 0,
                            si > 0,
                            kx == (k % si) / 4,
                    ;
                }
            }
        }
        assert(dest@ =~= blend_masked_spec(pre, src@, mask@, matte, wi, hi, si));
    }
}



/// A Q16.16 value truncated toward zero to a whole pixel.
pub open spec fn trunc_fx_spec(v: int) -> int {
    if v >= 0 {
        v / 65536
    } else {
        -((-v) / 65536)
    }
}

/// The pixel column of a glyph bitmap's left edge.
pub open spec fn glyph_bx(g: crate::text::Glyph, cursor: int) -> int {
    trunc_fx_spec(cursor + g.metrics.xmin * 65536)
}

/// The pixel row of a glyph bitmap's top edge.
pub open spec fn glyph_by(g: crate::text::Glyph, base: int) -> int {
    trunc_fx_spec(base - g.metrics.height * 65536 - g.metrics.ymin * 65536)
}

/// The color a glyph pixel blends with: the text color with its alpha
/// scaled by the coverage byte.
pub open spec fn glyph_color(color: Color, cov: int) -> Color {
    Color { r: color.r, g: color.g, b: color.b, a: (cov * color.a / 255) as u8 }
}

/// One byte of the buffer after blitting a glyph: a byte of a covered,
/// in-bounds glyph pixel becomes its blended channel, every other byte
/// keeps its value.
pub open spec fn glyph_byte(
    pre: Seq<u8>,
    k: int,
    g: crate::text::Glyph,
    cursor: int,
    base: int,
    color: Color,
    w: int,
    h: int,
    stride: int,
) -> u8 {
    if stride <= 0 {
        pre[k]
    } else {
        let y = k / stride;
        let x = (k % stride) / 4;
        let ch = (k % stride) % 4;
        let o = y * stride + 4 * x;
        let gx = x - glyph_bx(g, cursor);
        let gy = y - glyph_by(g, base);
        let idx = gy * g.metrics.width + gx;
        if x < w && y < h && 0 <= gx < g.metrics.width && 0 <= gy < g.metrics.height && idx
            < g.coverage@.len() && g.coverage@[idx] > 0 && o + 3 < pre.len() {
            let src = glyph_color(color, g.coverage@[idx] as int);
            if ch == 0 {
                blend_ch_spec(src.r as int, pre[o] as int, src.a as int) as u8
            } else if ch == 1 {
                blend_ch_spec(src.g as int, pre[o + 1] as int, src.a as int) as u8
            } else if ch == 2 {
                blend_ch_spec(src.b as int, pre[o + 2] as int, src.a as int) as u8
            } else {
                blend_a_spec(src.a as int, pre[o + 3] as int) as u8
            }
        } else {
            pre[k]
        }
    }
}

/// The whole buffer after blitting one glyph at a cursor position.
pub open spec fn blit_spec(
    pre: Seq<u8>,
    g: crate::text::Glyph,
    cursor: int,
    base: int,
    color: Color,
    w: int,
    h: int,
    stride: int,
) -> Seq<u8> {
    Seq::new(pre.len(), |k: int| glyph_byte(pre, k, g, cursor, base, color, w, h, stride))
}

/// Whether the buffer byte `k` belongs to a glyph pixel already processed
/// by the blit loops.
pub open spec fn gdone(
    k: int,
    gx: int,
    gy: int,
    bx: int,
    by: int,
    gw: int,
    gh: int,
    stride: int,
) -> bool {
    let ky = k / stride;
    let kx = (k % stride) / 4;
    let ggx = kx - bx;
    let ggy = ky - by;
    0 <= ggx < gw && 0 <= ggy < gh && (ggy < gy || (ggy == gy && ggx < gx))
}

/// Processing one glyph pixel extends the processed prefix of the blit.
proof fn blit_step_proof(
    pre: Seq<u8>,
    before: Seq<u8>,
    after: Seq<u8>,
    g: crate::text::Glyph,
    cursor: int,
    base: int,
    color: Color,
    gx: int,
    gy: int,
    w: int,
    h: int,
    stride: int,
    writes: bool,
)
    requires
        stride >= 4 * w,
        w >= 1,
        0 <= gx < g.metrics.width,
        0 <= gy < g.metrics.height,
        before.len() == pre.len(),
        writes == (0 <= glyph_bx(g, cursor) + gx < w && 0 <= glyph_by(g, base) + gy < h && 0 <= gy
            * g.metrics.width + gx < g.coverage@.len() && g.coverage@[gy * g.metrics.width + gx]
            > 0),
        after == (if writes {
            blend_pixel_spec(before, stride, glyph_bx(g, cursor) + gx, glyph_by(g, base) + gy,
                glyph_color(color, g.coverage@[gy * g.metrics.width + gx] as int))
        } else {
            before
        }),
        forall|k: int|
            0 <= k < pre.len() ==> before[k] == (if gdone(k, gx, gy, glyph_bx(g, cursor),
                glyph_by(g, base), g.metrics.width as int, g.metrics.height as int, stride) {
                glyph_byte(pre, k, g, cursor, base, color, w, h, stride)
            } else {
                pre[k]
            }),
    ensures
        after.len() == pre.len(),
        forall|k: int|
            0 <= k < pre.len() ==> after[k] == (if gdone(k, gx + 1, gy, glyph_bx(g, cursor),
                glyph_by(g, base), g.metrics.width as int, g.metrics.height as int, stride) {
                glyph_byte(pre, k, g, cursor, base, color, w, h, stride)
            } else {
                pre[k]
            }),
{
    let bx = glyph_bx(g, cursor);
    let by = glyph_by(g, base);
    let gw = g.metrics.width as int;
    let gh = g.metrics.height as int;
    let xx = bx + gx;
    let yy = by + gy;
    let o = yy * stride + 4 * xx;
    assert forall|k: int| 0 <= k < pre.len() implies after[k] == (if gdone(k, gx + 1, gy, bx, by,
        gw, gh, stride) {
        glyph_byte(pre, k, g, cursor, base, color, w, h, stride)
    } else {
        pre[k]
    }) by {
        if 0 <= xx < w && 0 <= yy < h && o <= k <= o + 3 {
            lemma_pixel_bytes(k, yy, xx, stride, w);
            assert(k / stride == yy && (k % stride) / 4 == xx);
            assert(!gdone(k, gx, gy, bx, by, gw, gh, stride));
            assert(before[k] == pre[k]);
            assert(gdone(k, gx + 1, gy, bx, by, gw, gh, stride));
            if writes {
                assert(o >= 0) by (nonlinear_arith)
                    requires
                        yy >= 0,
                        xx >= 0,
                        stride >= 0,
                        o == yy * stride + 4 * xx,
                ;
                if o + 3 < pre.len() {
                    assert(before[o] == pre[o] && before[o + 1] == pre[o + 1] && before[o + 2]
                        == pre[o + 2] && before[o + 3] == pre[o + 3]) by {
                        lemma_pixel_bytes(o, yy, xx, stride, w);
                        lemma_pixel_bytes(o + 1, yy, xx, stride, w);
                        lemma_pixel_bytes(o + 2, yy, xx, stride, w);
                        lemma_pixel_bytes(o + 3, yy, xx, stride, w);
                    }
                    assert(glyph_byte(pre, k, g, cursor, base, color, w, h, stride) == after[k]);
                } else {
                    assert(after[k] == pre[k]);
                    assert(glyph_byte(pre, k, g, cursor, base, color, w, h, stride) == pre[k]);
                }
            } else {
                assert(after[k] == pre[k]);
                assert(glyph_byte(pre, k, g, cursor, base, color, w, h, stride) == pre[k]);
            }
        } else {
            if writes {
                assert(after[k] == before[k]);
            }
            assert(gdone(k, gx + 1, gy, bx, by, gw, gh, stride) == gdone(k, gx, gy, bx, by, gw,
                gh, stride) ==> after[k] == (if gdone(k, gx + 1, gy, bx, by, gw, gh, stride) {
                glyph_byte(pre, k, g, cursor, base, color, w, h, stride)
            } else {
                pre[k]
            }));
            if gdone(k, gx + 1, gy, bx, by, gw, gh, stride) != gdone(k, gx, gy, bx, by, gw, gh,
                stride) {
                let ky = k / stride;
                let kx = (k % stride) / 4;
                assert(ky == yy && kx == xx);
                assert(kx >= 0 && ky >= 0) by (nonlinear_arith)
                    requires
                        k >= 0,
                        stride > 0,
                        0 <= k % stride,
                        ky == k / stride,
                        kx == (k % stride) / 4,
                ;
                if 0 <= xx < w && 0 <= yy < h {
                    lemma_pixel_bytes_converse(k, yy, xx, stride, w);
                    assert(false);
                } else {
                    if kx >= w || ky >= h {
                        assert(glyph_byte(pre, k, g, cursor, base, color, w, h, stride) == pre[
                            k]);
                        assert(before[k] == pre[k]);
                    } else {
                        assert(false);
                    }
                }
            }
        }
    }
}

/// Blit one glyph's coverage bitmap at the given Q16.16 cursor and baseline.
fn blit_glyph(
    g: &crate::text::Glyph,
    cursor: i64,
    base: i64,
    color: Color,
    buf: &mut Vec<u8>,
    width: usize,
    height: usize,
    stride: usize,
)
    requires
        stride >= 4 * width,
    ensures
        final(buf)@ == blit_spec(old(buf)@, *g, cursor as int, base as int, color, width as int,
            height as int, stride as int),
{
    let ghost pre = buf@;
    let ghost wi = width as int;
    let ghost hi = height as int;
    let ghost si = stride as int;
    if width == 0 || height == 0 {
        proof {
            assert(buf@ =~= blit_spec(pre, *g, cursor as int, base as int, color, wi, hi, si));
        }
        return ;
    }
    let gw = g.metrics.width;
    let gh = g.metrics.height;
    let bx: i128 = trunc_fx_i128(cursor as i128 + g.metrics.xmin as i128 * 65536);
    let by: i128 = trunc_fx_i128(base as i128 - gh as i128 * 65536 - g.metrics.ymin as i128
        * 65536);
    proof {
        assert(bx as int == glyph_bx(*g, cursor as int));
        assert(by as int == glyph_by(*g, base as int));
    }
    let mut gy: usize = 0;
    while gy < gh
        invariant
            stride >= 4 * width,
            pre == old(buf)@,
            wi == width as int,
            hi == height as int,
            si == stride as int,
            gw == g.metrics.width,
            gh == g.metrics.height,
            bx as int == glyph_bx(*g, cursor as int),
            by as int == glyph_by(*g, base as int),
            width >= 1,
            height >= 1,
            gy <= gh,
            buf@.len() == pre.len(),
            forall|k: int|
                0 <= k < pre.len() ==> buf@[k] == (if gdone(k, 0, gy as int, bx as int, by as int,
                    gw as int, gh as int, si) {
                    glyph_byte(pre, k, *g, cursor as int, base as int, color, wi, hi, si)
                } else {
                    pre[k]
                }),
        decreases gh - gy,
    {
        let mut gx: usize = 0;
        while gx < gw
            invariant
                stride >= 4 * width,
                pre == old(buf)@,
                wi == width as int,
                hi == height as int,
                si == stride as int,
                gw == g.metrics.width,
                gh == g.metrics.height,
                bx as int == glyph_bx(*g, cursor as int),
                by as int == glyph_by(*g, base as int),
                width >= 1,
                height >= 1,
                gy < gh,
                gx <= gw,
                buf@.len() == pre.len(),
                forall|k: int|
                    0 <= k < pre.len() ==> buf@[k] == (if gdone(k, gx as int, gy as int, bx
                        as int, by as int, gw as int, gh as int, si) {
                        glyph_byte(pre, k, *g, cursor as int, base as int, color, wi, hi, si)
                    } else {
                        pre[k]
                    }),
            decreases gw - gx,
        {
            let xx: i128 = bx + gx as i128;
            let yy: i128 = by + gy as i128;
            proof {
                lemma_mul_bound(gy as int, gw as int, 0xffff_ffff_ffff_ffff);
            }
            let idx128: u128 = gy as u128 * gw as u128 + gx as u128;
            let mut wrote = false;
            if 0 <= xx && xx < width as i128 && 0 <= yy && yy < height as i128 && idx128 < g
                .coverage.len() as u128 {
                let idx = idx128 as usize;
                let cov = g.coverage[idx];
                if cov > 0 {
                    proof {
                        assert(cov as int * color.a as int <= 255 * 255) by (nonlinear_arith)
                            requires
                                0 <= cov as int <= 255,
                                0 <= color.a as int <= 255,
                        ;
                    }
                    let ca = (cov as u32 * color.a as u32 / 255) as u8;
                    let c = Color { r: color.r, g: color.g, b: color.b, a: ca };
                    let ghost before = buf@;
                    blend_pixel(buf, stride, xx as usize, yy as usize, c);
                    proof {
                        blit_step_proof(pre, before, buf@, *g, cursor as int, base as int, color,
                            gx as int, gy as int, wi, hi, si, true);
                    }
                    wrote = true;
                }
            }
            if !wrote {
                proof {
                    blit_step_proof(pre, buf@, buf@, *g, cursor as int, base as int, color, gx
                        as int, gy as int, wi, hi, si, false);
                }
            }
            gx = gx + 1;
        }
        proof {
            assert(forall|k: int|
                0 <= k < pre.len() ==> gdone(k, gx as int, gy as int, bx as int, by as int, gw
                    as int, gh as int, si) == gdone(k, 0, gy as int + 1, bx as int, by as int, gw
                    as int, gh as int, si));
        }
        gy = gy + 1;
    }
    proof {
        assert forall|k: int| 0 <= k < pre.len() implies buf@[k] == glyph_byte(pre, k, *g, cursor
            as int, base as int, color, wi, hi, si) by {
            if !gdone(k, 0, gy as int, bx as int, by as int, gw as int, gh as int, si) {
                if si > 0 {
                    let ky = k / si;
                    let kx = (k % si) / 4;
                    assert(!(0 <= kx - bx < gw && 0 <= ky - by < gh) ==> glyph_byte(pre, k, *g,
                        cursor as int, base as int, color, wi, hi, si) == pre[k]);
                }
            }
        }
        assert(buf@ =~= blit_spec(pre, *g, cursor as int, base as int, color, wi, hi, si));
    }
}

/// A Q16.16 value truncated toward zero, in 128-bit arithmetic.
fn trunc_fx_i128(v: i128) -> (r: i128)
    requires
        -0x4000_0000_0000_0000_0000_0000_0000_0000 < v
            < 0x4000_0000_0000_0000_0000_0000_0000_0000,
    ensures
        r as int == trunc_fx_spec(v as int),
{
    if v >= 0 {
        v / 65536
    } else {
        -((-v) / 65536)
    }
}

/// The blit state after the first `i` glyphs: the buffer and the cursor.
pub struct TextState {
    /// Buffer contents
    pub buf: Seq<u8>,
    /// Q16.16 cursor position
    pub cursor: int,
}

/// The blit state after the first `i` glyphs of a text run.
pub open spec fn text_iter(
    pre: Seq<u8>,
    glyphs: Seq<crate::text::Glyph>,
    color: Color,
    posx: int,
    posy: int,
    w: int,
    h: int,
    stride: int,
    i: int,
) -> TextState
    decreases i,
{
    if i <= 0 {
        TextState { buf: pre, cursor: posx }
    } else {
        let st = text_iter(pre, glyphs, color, posx, posy, w, h, stride, i - 1);
        TextState {
            buf: blit_spec(st.buf, glyphs[i - 1], st.cursor, posy, color, w, h, stride),
            cursor: fx_add_spec(st.cursor, glyphs[i - 1].metrics.advance as int),
        }
    }
}

/// The buffer after drawing a whole run of glyphs from a baseline position,
/// advancing the cursor by each glyph's advance width.
pub open spec fn draw_text_spec(
    pre: Seq<u8>,
    glyphs: Seq<crate::text::Glyph>,
    color: Color,
    posx: int,
    posy: int,
    w: int,
    h: int,
    stride: int,
) -> Seq<u8> {
    text_iter(pre, glyphs, color, posx, posy, w, h, stride, glyphs.len() as int).buf
}

/// Draw a run of glyphs left to right from a Q16.16 baseline position.
pub fn draw_text_at(
    glyphs: &Vec<crate::text::Glyph>,
    color: Color,
    posx: i64,
    posy: i64,
    buffer: &mut Vec<u8>,
    width: usize,
    height: usize,
    stride: usize,
)
    requires
        stride >= 4 * width,
    ensures
        final(buffer)@ == draw_text_spec(old(buffer)@, glyphs@, color, posx as int, posy as int,
            width as int, height as int, stride as int),
{
    let ghost pre = buffer@;
    let mut cursor: i64 = posx;
    let n = glyphs.len();
    let mut i: usize = 0;
    while i < n
        invariant
            stride >= 4 * width,
            pre == old(buffer)@,
            n == glyphs@.len(),
            i <= n,
            buffer@ == text_iter(pre, glyphs@, color, posx as int, posy as int, width as int,
                height as int, stride as int, i as int).buf,
            cursor as int == text_iter(pre, glyphs@, color, posx as int, posy as int, width
                as int, height as int, stride as int, i as int).cursor,
        decreases n - i,
    {
        let g = &glyphs[i];
        blit_glyph(g, cursor, posy, color, buffer, width, height, stride);
        cursor = fx_add(cursor, g.metrics.advance);
        i = i + 1;
    }
}

/// Render a text layer into the RGBA8888 buffer.
pub fn draw_text(
    layer: &crate::text::TextLayer,
    buffer: &mut Vec<u8>,
    width: usize,
    height: usize,
    stride: usize,
)
    requires
        stride >= 4 * width,
    ensures
        final(buffer)@ == draw_text_spec(old(buffer)@, layer.glyphs@, layer.color,
            layer.position.x as int, layer.position.y as int, width as int, height as int,
            stride as int),
{
    draw_text_at(&layer.glyphs, layer.color, layer.position.x as i64, layer.position.y as i64,
        buffer, width, height, stride)
}



/// Filling mesh triangles never changes the buffer length.
pub broadcast proof fn lemma_fill_mesh_len(
    pre: Seq<u8>,
    verts: Seq<Vec2Fx>,
    idx: Seq<u32>,
    paint: Paint,
    mask: Option<Seq<u8>>,
    w: int,
    h: int,
    stride: int,
    t: int,
)
    ensures
        (#[trigger] fill_mesh_iter(pre, verts, idx, paint, mask, w, h, stride, t)).len()
            == pre.len(),
    decreases t,
{
    if t > 0 {
        lemma_fill_mesh_len(pre, verts, idx, paint, mask, w, h, stride, t - 1);
    }
}

/// Filling a path never changes the buffer length.
pub broadcast proof fn lemma_draw_path_len(
    pre: Seq<u8>,
    segs: Seq<crate::path::PathSeg>,
    paint: Paint,
    mask: Option<Seq<u8>>,
    w: int,
    h: int,
    stride: int,
)
    ensures
        (#[trigger] draw_path_spec(pre, segs, paint, mask, w, h, stride)).len() == pre.len(),
{
    let fsegs = crate::path::flatten_spec(segs, 13107);
    let verts = crate::tess::fan_verts_spec(fsegs);
    let idx = crate::tess::fan_indices_spec(verts.len() as int);
    lemma_fill_mesh_len(pre, verts, idx, paint, mask, w, h, stride, idx.len() as int / 3);
}

/// Stroking chords never changes the buffer length.
pub broadcast proof fn lemma_stroke_iter_len(
    pre: Seq<u8>,
    fsegs: Seq<LineSegment>,
    width_px: int,
    paint: Paint,
    mask: Option<Seq<u8>>,
    w: int,
    h: int,
    stride: int,
    i: int,
)
    ensures
        (#[trigger] stroke_iter(pre, fsegs, width_px, paint, mask, w, h, stride, i)).len()
            == pre.len(),
    decreases i,
{
    if i > 0 {
        lemma_stroke_iter_len(pre, fsegs, width_px, paint, mask, w, h, stride, i - 1);
    }
}

/// Stroking a path never changes the buffer length.
pub broadcast proof fn lemma_draw_stroke_len(
    pre: Seq<u8>,
    segs: Seq<crate::path::PathSeg>,
    width_px: int,
    paint: Paint,
    mask: Option<Seq<u8>>,
    w: int,
    h: int,
    stride: int,
)
    ensures
        (#[trigger] draw_stroke_spec(pre, segs, width_px, paint, mask, w, h, stride)).len()
            == pre.len(),
{
    let fsegs = crate::path::flatten_spec(segs, 13107);
    lemma_stroke_iter_len(pre, fsegs, width_px, paint, mask, w, h, stride, fsegs.len() as int);
}

/// Rasterizing mesh triangles never changes the mask buffer length.
pub broadcast proof fn lemma_mask_mesh_len(
    pre: Seq<u8>,
    verts: Seq<Vec2Fx>,
    idx: Seq<u32>,
    w: int,
    h: int,
    t: int,
)
    ensures
        (#[trigger] mask_mesh_iter(pre, verts, idx, w, h, t)).len() == pre.len(),
    decreases t,
{
    if t > 0 {
        lemma_mask_mesh_len(pre, verts, idx, w, h, t - 1);
    }
}

/// Rasterizing a path into a mask never changes the mask buffer length.
pub broadcast proof fn lemma_draw_mask_len(pre: Seq<u8>, segs: Seq<crate::path::PathSeg>, w: int,
    h: int)
    ensures
        (#[trigger] draw_mask_spec(pre, segs, w, h)).len() == pre.len(),
{
    let fsegs = crate::path::flatten_spec(segs, 13107);
    let verts = crate::tess::fan_verts_spec(fsegs);
    let idx = crate::tess::fan_indices_spec(verts.len() as int);
    lemma_mask_mesh_len(pre, verts, idx, w, h, idx.len() as int / 3);
}

/// Blitting glyphs never changes the buffer length.
pub broadcast proof fn lemma_text_iter_len(
    pre: Seq<u8>,
    glyphs: Seq<crate::text::Glyph>,
    color: Color,
    posx: int,
    posy: int,
    w: int,
    h: int,
    stride: int,
    i: int,
)
    ensures
        (#[trigger] text_iter(pre, glyphs, color, posx, posy, w, h, stride, i)).buf.len()
            == pre.len(),
    decreases i,
{
    if i > 0 {
        lemma_text_iter_len(pre, glyphs, color, posx, posy, w, h, stride, i - 1);
    }
}

/// Drawing a text run never changes the buffer length.
pub broadcast proof fn lemma_draw_text_len(
    pre: Seq<u8>,
    glyphs: Seq<crate::text::Glyph>,
    color: Color,
    posx: int,
    posy: int,
    w: int,
    h: int,
    stride: int,
)
    ensures
        (#[trigger] draw_text_spec(pre, glyphs, color, posx, posy, w, h, stride)).len()
            == pre.len(),
{
    lemma_text_iter_len(pre, glyphs, color, posx, posy, w, h, stride, glyphs.len() as int);
}


} // verus!
