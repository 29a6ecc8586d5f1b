//! The composition data model: vectors, colors, paints, layers.
//!
//! All scalar quantities (coordinates, gradient offsets, opacities, stroke
//! widths, trim fractions) are Q16.16 fixed-point values stored as `i32`.

use crate::timeline::Animator;
use vstd::prelude::*;

verus! {

/// Fixed-point 2D vector using Q16.16 representation.
#[derive(Debug, Clone, Copy, PartialEq, Eq, Structural)]
pub struct Vec2Fx {
    /// X coordinate in Q16.16 format
    pub x: i32,
    /// Y coordinate in Q16.16 format
    pub y: i32,
}


/// RGBA color in 8-bit per channel, straight (non-premultiplied) alpha.
#[derive(Debug, Clone, Copy, PartialEq, Eq, Structural)]
pub struct Color {
    /// Red channel
    pub r: u8,
    /// Green channel
    pub g: u8,
    /// Blue channel
    pub b: u8,
    /// Alpha channel
    pub a: u8,
}

/// A color stop used in gradients; `offset` is a Q16.16 fraction in `[0, 1]`.
#[derive(Debug, Clone, Copy)]
pub struct GradientStop {
    /// Offset along the gradient, Q16.16 in 0..=1
    pub offset: i32,
    /// Color at this stop
    pub color: Color,
}

/// Linear gradient parameters.
#[derive(Debug, Clone)]
pub struct LinearGradient {
    /// Start position in output space
    pub start: Vec2Fx,
    /// End position in output space
    pub end: Vec2Fx,
    /// Color stops sorted by offset
    pub stops: Vec<GradientStop>,
}

/// Radial gradient parameters.
#[derive(Debug, Clone)]
pub struct RadialGradient {
    /// Center of the gradient
    pub center: Vec2Fx,
    /// Radius of the gradient, Q16.16
    pub radius: i32,
    /// Color stops sorted by offset
    pub stops: Vec<GradientStop>,
}

/// Paint style for filling paths.
#[derive(Debug, Clone)]
pub enum Paint {
    /// Solid color fill
    Solid(Color),
    /// Linear gradient fill
    Linear(LinearGradient),
    /// Radial gradient fill
    Radial(RadialGradient),
}

/// Type of matte compositing to apply with the previous mask layer.
#[derive(Debug, Clone, Copy, PartialEq, Eq, Structural)]
pub enum MatteType {
    /// Use the alpha of the mask as-is.
    Alpha,
    /// Use the inverse of the mask alpha.
    AlphaInv,
}

/// Transform parameters for a layer or object; scalars are Q16.16.
#[derive(Debug, Clone)]
pub struct Transform {
    /// Anchor point
    pub anchor: Vec2Fx,
    /// Position vector
    pub position: Vec2Fx,
    /// Scale factor
    pub scale: Vec2Fx,
    /// Rotation in degrees, Q16.16
    pub rotation: i32,
    /// Opacity in 0..=1, Q16.16
    pub opacity: i32,
    /// Property animations keyed by name
    pub animators: Vec<(String, Animator<i32>)>,
}

impl Default for Transform {
    /// The identity transform: unit scale, full opacity, no animators.
    fn default() -> (r: Transform)
        ensures
            r.anchor.x == 0 && r.anchor.y == 0,
            r.position.x == 0 && r.position.y == 0,
            r.scale.x == crate::fixed::FX_ONE && r.scale.y == crate::fixed::FX_ONE,
            r.rotation == 0,
            r.opacity == crate::fixed::FX_ONE,
            r.animators@.len() == 0,
    {
        Transform {
            anchor: Vec2Fx { x: 0, y: 0 },
            position: Vec2Fx { x: 0, y: 0 },
            scale: Vec2Fx { x: crate::fixed::FX_ONE, y: crate::fixed::FX_ONE },
            rotation: 0,
            opacity: crate::fixed::FX_ONE,
            animators: Vec::new(),
        }
    }
}

impl Transform {
    /// The scalar fields of the transform, in a fixed order.
    pub open spec fn scalars_spec(&self) -> Seq<i32> {
        seq![
            self.anchor.x,
            self.anchor.y,
            self.position.x,
            self.position.y,
            self.scale.x,
            self.scale.y,
            self.rotation,
            self.opacity,
        ]
    }

    /// Encode the scalar fields for interchange, in the order anchor,
    /// position, scale, rotation, opacity.
    pub fn to_scalars(&self) -> (r: Vec<i32>)
        ensures
            r@ == self.scalars_spec(),
    {
        let mut v: Vec<i32> = Vec::new();
        v.push(self.anchor.x);
        v.push(self.anchor.y);
        v.push(self.position.x);
        v.push(self.position.y);
        v.push(self.scale.x);
        v.push(self.scale.y);
        v.push(self.rotation);
        v.push(self.opacity);
        proof {
            assert(v@ =~= self.scalars_spec());
        }
        v
    }

    /// Decode scalar fields written by [`Transform::to_scalars`]; animators
    /// are not part of the interchange form and come back empty.
    pub fn from_scalars(v: &Vec<i32>) -> (r: Transform)
        requires
            v@.len() == 8,
        ensures
            r.scalars_spec() == v@,
            r.animators@.len() == 0,
    {
        let r = Transform {
            anchor: Vec2Fx { x: v[0], y: v[1] },
            position: Vec2Fx { x: v[2], y: v[3] },
            scale: Vec2Fx { x: v[4], y: v[5] },
            rotation: v[6],
            opacity: v[7],
            animators: Vec::new(),
        };
        proof {
            assert(r.scalars_spec() =~= v@);
        }
        r
    }
}

/// Round-trip law: encoding a transform's scalars and decoding them yields a
/// transform with exactly the same scalar fields.
pub proof fn lemma_transform_scalars_round_trip(t: Transform, enc: Seq<i32>, back: Transform)
    requires
        enc == t.scalars_spec(),
        back.scalars_spec() == enc,
    ensures
        back.anchor == t.anchor,
        back.position == t.position,
        back.scale == t.scale,
        back.rotation == t.rotation,
        back.opacity == t.opacity,
{
    assert(back.scalars_spec()[0] == t.scalars_spec()[0]);
    assert(back.scalars_spec()[1] == t.scalars_spec()[1]);
    assert(back.scalars_spec()[2] == t.scalars_spec()[2]);
    assert(back.scalars_spec()[3] == t.scalars_spec()[3]);
    assert(back.scalars_spec()[4] == t.scalars_spec()[4]);
    assert(back.scalars_spec()[5] == t.scalars_spec()[5]);
    assert(back.scalars_spec()[6] == t.scalars_spec()[6]);
    assert(back.scalars_spec()[7] == t.scalars_spec()[7]);
}

/// Path drawing commands, the serialized form stored on shape layers.
#[derive(Debug, Clone)]
pub enum PathCommand {
    /// Move to absolute position
    MoveTo(Vec2Fx),
    /// Line to absolute position
    LineTo(Vec2Fx),
    /// Cubic Bezier curve
    CubicTo(Vec2Fx, Vec2Fx, Vec2Fx),
    /// Close current sub-path
    Close,
}

/// Vector shape layer.
#[derive(Debug, Clone)]
pub struct ShapeLayer {
    /// Collection of paths within the shape
    pub paths: Vec<Vec<PathCommand>>,
    /// Fill color if present
    pub fill: Option<Color>,
    /// Stroke color if present
    pub stroke: Option<Color>,
    /// Stroke width in pixels, Q16.16
    pub stroke_width: i32,
    /// Optional mask paths to clip this shape
    pub mask: Option<Vec<Vec<PathCommand>>>,
    /// Optional trim start/end fractions, Q16.16
    pub trim: Option<(i32, i32)>,
    /// Animations for fill or stroke properties
    pub animators: Vec<(String, Animator<i32>)>,
    /// If true this layer acts as a matte for the next layer
    pub is_mask: bool,
    /// Matte mode applied using the previous mask layer
    pub matte: Option<MatteType>,
}

impl Default for ShapeLayer {
    /// An empty shape layer: no paths, no fill, no stroke, no mask, a unit
    /// stroke width.
    fn default() -> (r: ShapeLayer)
        ensures
            r.paths@.len() == 0,
            r.fill is None,
            r.stroke is None,
            r.stroke_width == crate::fixed::FX_ONE,
            r.mask is None,
            r.trim is None,
            r.animators@.len() == 0,
            !r.is_mask,
            r.matte is None,
    {
        ShapeLayer {
            paths: Vec::new(),
            fill: None,
            stroke: None,
            stroke_width: crate::fixed::FX_ONE,
            mask: None,
            trim: None,
            animators: Vec::new(),
            is_mask: false,
            matte: None,
        }
    }
}

/// Bitmap image layer decoded from assets.
#[derive(Debug, Clone)]
pub struct ImageLayer {
    /// Width in pixels
    pub width: u32,
    /// Height in pixels
    pub height: u32,
    /// Raw RGBA8888 pixel data
    pub pixels: Vec<u8>,
}

/// A layer rendering a nested composition.
#[derive(Debug)]
pub struct PreCompLayer {
    /// Nested composition to render
    pub comp: Box<Composition>,
}

/// Animation layer variants.
#[derive(Debug)]
pub enum Layer {
    /// Vector shape layer
    Shape(ShapeLayer),
    /// Bitmap image layer
    Image(ImageLayer),
    /// Pre-composed layer
    PreComp(PreCompLayer),
    /// Text layer
    Text(crate::text::TextLayer),
}

/// Root composition.
#[derive(Debug)]
pub struct Composition {
    /// Width in pixels
    pub width: u32,
    /// Height in pixels
    pub height: u32,
    /// First frame of the animation
    pub start_frame: u32,
    /// Last frame of the animation, inclusive
    pub end_frame: u32,
    /// Frames per second, Q16.16
    pub fps: i32,
    /// Flattened layer list in draw order
    pub layers: Vec<Layer>,
}

/// The looped frame index: `start + (frame mod (end - start + 1))`, where an
/// end frame at or before the start frame yields a single-frame loop.
pub open spec fn frame_at_spec(start: u32, end: u32, frame: u32) -> int {
    let total: int = if end > start {
        end - start + 1
    } else {
        1
    };
    start + (frame as int % total)
}

impl Composition {
    /// Calculate the actual frame index after applying start/end offsets and looping.
    pub fn frame_at(&self, frame: u32) -> (r: u32)
        requires
            self.start_frame > 0 || self.end_frame < u32::MAX,
        ensures
            r as int == frame_at_spec(self.start_frame, self.end_frame, frame),
    {
        let total: u32 = if self.end_frame > self.start_frame {
            self.end_frame - self.start_frame + 1
        } else {
            1
        };
        let local = frame % total;
        self.start_frame + local
    }
}

/// The frame loop is periodic: two frame indices that differ by a multiple of
/// the loop length resolve to the same effective frame, and every multiple of
/// the loop length resolves to the start frame.
pub proof fn lemma_frame_at_periodic(start: u32, end: u32, frame: u32, k: nat)
    requires
        frame + k * (frame_period(start, end)) <= u32::MAX,
    ensures
        frame_at_spec(start, end, (frame + k * frame_period(start, end)) as u32) == frame_at_spec(
            start,
            end,
            frame,
        ),
        frame_at_spec(start, end, (k * frame_period(start, end)) as u32) == start,
{
    let p = frame_period(start, end);
    assert(p >= 1);
    vstd::arithmetic::div_mod::lemma_mod_multiples_vanish(k as int, frame as int, p as int);
    assert((frame + k * p) % (p as int) == frame as int % (p as int));
    vstd::arithmetic::div_mod::lemma_mod_multiples_vanish(k as int, 0, p as int);
    assert((k * p) % (p as int) == 0int % (p as int));
    assert(0int % (p as int) == 0) by {
        vstd::arithmetic::div_mod::lemma_small_mod(0nat, p as nat);
    }
}

/// The loop length of the frame range: `end - start + 1` frames.
pub open spec fn frame_period(start: u32, end: u32) -> int {
    if end > start {
        end - start + 1
    } else {
        1
    }
}

} // verus!
