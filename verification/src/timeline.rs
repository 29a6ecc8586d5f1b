//! Animation timeline primitives: easing curves, keyframes, animators.
//!
//! Frame positions handed to samplers are Q16.16 fixed-point values in `i64`
//! (a whole frame index `f` is `f * 65536`), and eased progress values are
//! Q16.16 fractions.

use crate::fixed::{fx_add, fx_div, fx_lerp, fx_mul, fx_sub, to_i32_sat};
use crate::fixed::{clip32, fx_lerp_spec, fx_mul_spec, FX_ONE};
use crate::types::Vec2Fx;
use vstd::prelude::*;

verus! {

/// Cubic Bezier easing curve defined by two control points, with a
/// precomputed table of curve x-positions at evenly spaced parameters.
#[derive(Debug, Clone, PartialEq)]
pub struct CubicBezier {
    /// First control point
    pub c1: Vec2Fx,
    /// Second control point
    pub c2: Vec2Fx,
    /// Precomputed curve x-positions at evenly spaced parameters, filled by
    /// [`CubicBezier::new`]; only a seed for the inversion, never trusted.
    pub samples: Vec<i32>,
}

/// Coefficient of `t^3` in the expanded Bezier polynomial.
pub open spec fn coeff_a_spec(a1: int, a2: int) -> int {
    65536 - 3 * a2 + 3 * a1
}

/// Coefficient of `t^2` in the expanded Bezier polynomial.
pub open spec fn coeff_b_spec(a1: int, a2: int) -> int {
    3 * a2 - 6 * a1
}

/// Coefficient of `t` in the expanded Bezier polynomial.
pub open spec fn coeff_c_spec(a1: int) -> int {
    3 * a1
}

/// The one-dimensional Bezier polynomial
/// `((A * t + B) * t + C) * t` evaluated in saturating Q16.16 arithmetic.
pub open spec fn calc_bezier_spec(t: int, a1: int, a2: int) -> int {
    let m1 = crate::fixed::fx_mul_spec(coeff_a_spec(a1, a2), t);
    let s1 = crate::fixed::fx_add_spec(m1, coeff_b_spec(a1, a2));
    let m2 = crate::fixed::fx_mul_spec(s1, t);
    let s2 = crate::fixed::fx_add_spec(m2, coeff_c_spec(a1));
    crate::fixed::fx_mul_spec(s2, t)
}

/// Evaluate the Bezier polynomial for coordinates `a1`, `a2` at parameter `t`.
fn calc_bezier(t: i64, a1: i64, a2: i64) -> (r: i64)
    requires
        -0x8000_0000 <= a1 <= 0x7fff_ffff,
        -0x8000_0000 <= a2 <= 0x7fff_ffff,
    ensures
        r as int == calc_bezier_spec(t as int, a1 as int, a2 as int),
{
    let ca: i64 = 65536 - 3 * a2 + 3 * a1;
    let cb: i64 = 3 * a2 - 6 * a1;
    let cc: i64 = 3 * a1;
    let m1 = fx_mul(ca, t);
    let s1 = fx_add(m1, cb);
    let m2 = fx_mul(s1, t);
    let s2 = fx_add(m2, cc);
    fx_mul(s2, t)
}

/// The derivative `3 A t^2 + 2 B t + C` in saturating Q16.16 arithmetic.
pub open spec fn slope_spec(t: int, a1: int, a2: int) -> int {
    let q1 = crate::fixed::fx_mul_spec(3 * coeff_a_spec(a1, a2), crate::fixed::fx_mul_spec(t, t));
    let q2 = crate::fixed::fx_mul_spec(2 * coeff_b_spec(a1, a2), t);
    crate::fixed::fx_add_spec(crate::fixed::fx_add_spec(q1, q2), coeff_c_spec(a1))
}

/// Evaluate the derivative of the Bezier polynomial at parameter `t`.
fn get_slope(t: i64, a1: i64, a2: i64) -> (r: i64)
    requires
        -0x8000_0000 <= a1 <= 0x7fff_ffff,
        -0x8000_0000 <= a2 <= 0x7fff_ffff,
    ensures
        r as int == slope_spec(t as int, a1 as int, a2 as int),
{
    let ca: i64 = 65536 - 3 * a2 + 3 * a1;
    let cb: i64 = 3 * a2 - 6 * a1;
    let cc: i64 = 3 * a1;
    let q1 = fx_mul(3 * ca, fx_mul(t, t));
    let q2 = fx_mul(2 * cb, t);
    fx_add(fx_add(q1, q2), cc)
}

/// The lookup-table index whose interval holds `x`: advance from `cs`
/// while the next sample is still at or below `x`, within the table.
pub open spec fn seek_spec(samples: Seq<i32>, x: int, cs: int) -> int
    decreases 256 - cs,
{
    if cs + 1 < samples.len() && cs < 255 && samples[cs] as int <= x {
        seek_spec(samples, x, cs + 1)
    } else {
        cs
    }
}

/// One round of Newton iteration on the curve's x-polynomial, stopping at a
/// zero slope, for `fuel` rounds.
pub open spec fn newton_spec(c1x: int, c2x: int, x: int, guess: int, fuel: nat) -> int
    decreases fuel,
{
    if fuel == 0 {
        guess
    } else {
        let cx = crate::fixed::fx_sub_spec(calc_bezier_spec(guess, c1x, c2x), x);
        let sl = slope_spec(guess, c1x, c2x);
        if sl == 0 {
            guess
        } else {
            newton_spec(c1x, c2x, x, crate::fixed::fx_sub_spec(guess, crate::fixed::fx_div_spec(
                cx, sl)), (fuel - 1) as nat)
        }
    }
}

/// Bisection on the curve's x-polynomial over `[a, b]` for `fuel` rounds:
/// each round takes the midpoint, stops on an exact hit, and otherwise
/// shrinks the bracket toward `x`.
pub open spec fn bisect_spec(c1x: int, c2x: int, x: int, a: int, b: int, fuel: nat) -> int
    decreases fuel,
{
    let t = crate::fixed::fx_add_spec(a, crate::fixed::fx_div_spec(crate::fixed::fx_sub_spec(b,
        a), 131072));
    let cx = crate::fixed::fx_sub_spec(calc_bezier_spec(t, c1x, c2x), x);
    if fuel <= 1 || cx == 0 {
        t
    } else if cx > 0 {
        bisect_spec(c1x, c2x, x, a, t, (fuel - 1) as nat)
    } else {
        bisect_spec(c1x, c2x, x, t, b, (fuel - 1) as nat)
    }
}

/// The curve parameter whose x-position is `x`: a linear seed inside the
/// lookup-table interval holding `x`, refined by four Newton rounds when
/// the local slope is at least 0.02, returned as-is at a zero slope, and
/// refined by ten bisection rounds otherwise.  A table shorter than two
/// entries inverts nothing and yields `x`.
pub open spec fn get_t_spec(samples: Seq<i32>, c1: Vec2Fx, c2: Vec2Fx, x: int) -> int {
    if samples.len() < 2 {
        x
    } else {
        let cs = seek_spec(samples, x, 1) - 1;
        let interval_start = (cs * 65536 + 127) / 255;
        let s0 = samples[cs] as int;
        let s1 = samples[cs + 1] as int;
        let dist = crate::fixed::fx_div_spec(crate::fixed::fx_sub_spec(x, s0),
            crate::fixed::fx_sub_spec(s1, s0));
        let guess = crate::fixed::fx_add_spec(interval_start, fx_mul_spec(dist, 257));
        let isl = slope_spec(guess, c1.x as int, c2.x as int);
        if isl >= 1311 {
            newton_spec(c1.x as int, c2.x as int, x, guess, 4)
        } else if isl == 0 {
            guess
        } else {
            bisect_spec(c1.x as int, c2.x as int, x, interval_start,
                crate::fixed::fx_add_spec(interval_start, 257), 10)
        }
    }
}

impl CubicBezier {
    /// Whether the curve is the identity easing: both control points lie on
    /// the diagonal, so eased progress equals raw progress.
    pub open spec fn is_identity(&self) -> bool {
        self.c1.x == self.c1.y && self.c2.x == self.c2.y
    }

    /// The table entry for index `i`: the curve's x-position at the
    /// parameter `i / 255`, rounded into Q16.16.
    pub open spec fn sample_spec(c1: Vec2Fx, c2: Vec2Fx, i: int) -> int {
        clip32(calc_bezier_spec((i * 65536 + 127) / 255, c1.x as int, c2.x as int))
    }

    /// Create a new cubic Bezier and precompute its sample table.
    pub fn new(c1: Vec2Fx, c2: Vec2Fx) -> (r: CubicBezier)
        ensures
            r.c1 == c1,
            r.c2 == c2,
            r.samples@.len() == 256,
            forall|i: int| 0 <= i < 256 ==> r.samples@[i] as int == Self::sample_spec(c1, c2, i),
    {
        let mut samples: Vec<i32> = Vec::new();
        let mut i: usize = 0;
        while i < 256
            invariant
                i <= 256,
                samples@.len() == i,
                forall|j: int| 0 <= j < i ==> samples@[j] as int == Self::sample_spec(c1, c2, j),
            decreases 256 - i,
        {
            let t: i64 = ((i as i64) * 65536 + 127) / 255;
            let s = calc_bezier(t, c1.x as i64, c2.x as i64);
            samples.push(to_i32_sat(s));
            i = i + 1;
        }
        CubicBezier { c1, c2, samples }
    }

    /// Refine `t` by bisection until the curve x-position matches `x` or
    /// the rounds run out.
    fn binary_subdivide(&self, x: i64, a0: i64, b0: i64) -> (r: i64)
        ensures
            r as int == bisect_spec(self.c1.x as int, self.c2.x as int, x as int, a0 as int,
                b0 as int, 10),
    {
        self.bisect_go(x, a0, b0, 10)
    }

    /// One bisection round, recursing on the shrunk bracket.
    fn bisect_go(&self, x: i64, a: i64, b: i64, fuel: u32) -> (r: i64)
        requires
            fuel >= 1,
        ensures
            r as int == bisect_spec(self.c1.x as int, self.c2.x as int, x as int, a as int,
                b as int, fuel as nat),
        decreases fuel,
    {
        let current_t = fx_add(a, fx_div(fx_sub(b, a), 2 * 65536));
        let current_x = fx_sub(calc_bezier(current_t, self.c1.x as i64, self.c2.x as i64), x);
        if fuel <= 1 || current_x == 0 {
            current_t
        } else if current_x > 0 {
            self.bisect_go(x, a, current_t, fuel - 1)
        } else {
            self.bisect_go(x, current_t, b, fuel - 1)
        }
    }

    /// Find the curve parameter whose x-position is `x`, seeding from the
    /// sample table and refining by Newton iteration or bisection.
    fn get_t_for_x(&self, x: i64) -> (r: i64)
        ensures
            r as int == get_t_spec(self.samples@, self.c1, self.c2, x as int),
    {
        let n = self.samples.len();
        if n < 2 {
            return x;
        }
        let mut current_sample: usize = 1;
        while current_sample + 1 < n && current_sample < 255 && self.samples[current_sample]
            as i64 <= x
            invariant
                1 <= current_sample < n,
                current_sample <= 255,
                n == self.samples@.len(),
                seek_spec(self.samples@, x as int, current_sample as int) == seek_spec(
                    self.samples@, x as int, 1),
            decreases n - current_sample,
        {
            current_sample = current_sample + 1;
        }
        proof {
            assert(current_sample as int == seek_spec(self.samples@, x as int, 1));
        }
        current_sample = current_sample - 1;
        let interval_start: i64 = ((current_sample as i64) * 65536 + 127) / 255;
        let step: i64 = 257;
        let s0 = self.samples[current_sample] as i64;
        let s1 = self.samples[current_sample + 1] as i64;
        let dist = fx_div(fx_sub(x, s0), fx_sub(s1, s0));
        let mut guess_t = fx_add(interval_start, fx_mul(dist, step));
        let initial_slope = get_slope(guess_t, self.c1.x as i64, self.c2.x as i64);
        if initial_slope >= 1311 {
            let ghost target = newton_spec(self.c1.x as int, self.c2.x as int, x as int,
                guess_t as int, 4);
            proof {
                assert(target == get_t_spec(self.samples@, self.c1, self.c2, x as int));
            }
            let mut i: usize = 0;
            while i < 4
                invariant
                    i <= 4,
                    target == get_t_spec(self.samples@, self.c1, self.c2, x as int),
                    newton_spec(self.c1.x as int, self.c2.x as int, x as int, guess_t as int, (4
                        - i) as nat) == target,
                decreases 4 - i,
            {
                let current_x = fx_sub(
                    calc_bezier(guess_t, self.c1.x as i64, self.c2.x as i64),
                    x,
                );
                let current_slope = get_slope(guess_t, self.c1.x as i64, self.c2.x as i64);
                if current_slope == 0 {
                    return guess_t;
                }
                guess_t = fx_sub(guess_t, fx_div(current_x, current_slope));
                i = i + 1;
            }
            guess_t
        } else if initial_slope == 0 {
            guess_t
        } else {
            self.binary_subdivide(x, interval_start, fx_add(interval_start, step))
        }
    }

    /// The eased progress at `x`: raw progress for an identity curve,
    /// exact endpoints, and in the interior the curve's y-polynomial at the
    /// parameter found by inverting the x-polynomial.
    pub open spec fn value_spec(&self, x: int) -> int {
        if self.is_identity() {
            x
        } else if x <= 0 {
            0
        } else if x >= 65536 {
            65536
        } else {
            clip32(calc_bezier_spec(get_t_spec(self.samples@, self.c1, self.c2, x), self.c1.y
                as int, self.c2.y as int))
        }
    }

    /// Evaluate the easing curve at progress `x` (Q16.16 in 0..=1).
    ///
    /// An identity curve returns `x` unchanged; otherwise the endpoints map
    /// exactly to the endpoints and interior positions are inverted through
    /// the curve, exactly as [`CubicBezier::value_spec`] says.
    pub fn value(&self, x: i32) -> (r: i32)
        ensures
            r as int == self.value_spec(x as int),
            self.is_identity() ==> r == x,
            !self.is_identity() && x <= 0 ==> r == 0,
            !self.is_identity() && x >= FX_ONE ==> r == FX_ONE,
    {
        if self.c1.x == self.c1.y && self.c2.x == self.c2.y {
            return x;
        }
        if x <= 0 {
            return 0;
        }
        if x >= FX_ONE {
            return FX_ONE;
        }
        let t = self.get_t_for_x(x as i64);
        to_i32_sat(calc_bezier(t, self.c1.y as i64, self.c2.y as i64))
    }
}

/// Trait for values that can be linearly interpolated and have a default.
pub trait Lerp: Sized + Copy {
    /// The mathematical meaning of [`Lerp::lerp`].
    spec fn lerp_spec(self, other: Self, t: int) -> Self;

    /// The mathematical meaning of [`Lerp::default_value`].
    spec fn default_spec() -> Self;

    /// Interpolate between `self` and `other` with Q16.16 factor `t`.
    fn lerp(self, other: Self, t: i64) -> (r: Self)
        ensures
            r == self.lerp_spec(other, t as int),
    ;

    /// The value an empty animator yields.
    fn default_value() -> (r: Self)
        ensures
            r == Self::default_spec(),
    ;
}

impl Lerp for i32 {
    open spec fn lerp_spec(self, other: i32, t: int) -> i32 {
        clip32(fx_lerp_spec(self as int, other as int, t)) as i32
    }

    open spec fn default_spec() -> i32 {
        0
    }

    fn lerp(self, other: i32, t: i64) -> (r: i32) {
        to_i32_sat(fx_lerp(self as i64, other as i64, t))
    }

    fn default_value() -> (r: i32) {
        0
    }
}

impl Lerp for Vec2Fx {
    open spec fn lerp_spec(self, other: Vec2Fx, t: int) -> Vec2Fx {
        Vec2Fx {
            x: clip32(fx_lerp_spec(self.x as int, other.x as int, t)) as i32,
            y: clip32(fx_lerp_spec(self.y as int, other.y as int, t)) as i32,
        }
    }

    open spec fn default_spec() -> Vec2Fx {
        Vec2Fx { x: 0, y: 0 }
    }

    fn lerp(self, other: Vec2Fx, t: i64) -> (r: Vec2Fx) {
        Vec2Fx {
            x: to_i32_sat(fx_lerp(self.x as i64, other.x as i64, t)),
            y: to_i32_sat(fx_lerp(self.y as i64, other.y as i64, t)),
        }
    }

    fn default_value() -> (r: Vec2Fx) {
        Vec2Fx { x: 0, y: 0 }
    }
}

/// Keyframe describing a value interpolation over a frame range.
#[derive(Debug, Clone)]
pub struct Keyframe<T> {
    /// Start frame inclusive
    pub start: u32,
    /// End frame exclusive
    pub end: u32,
    /// Value at the start frame
    pub start_v: T,
    /// Value at the end frame
    pub end_v: T,
    /// Easing curve applied between frames
    pub ease: CubicBezier,
}

impl<T: Lerp> Keyframe<T> {
    /// The sampled value at a Q16.16 frame position: the start value up to
    /// the start frame, the end value from the end frame on, and in between
    /// the interpolation of the two at the eased progress
    /// `ease.value((frame - start) / (end - start))`.
    pub open spec fn sample_spec(&self, frame: int) -> T {
        if frame <= self.start as int * 65536 {
            self.start_v
        } else if frame >= self.end as int * 65536 {
            self.end_v
        } else {
            let progress = crate::fixed::fx_div_spec(frame - self.start as int * 65536, self.end
                as int * 65536 - self.start as int * 65536);
            self.start_v.lerp_spec(self.end_v, self.ease.value_spec(clip32(progress)))
        }
    }

    /// Sample the interpolated value at the given Q16.16 frame position.
    pub fn sample(&self, frame: i64) -> (r: T)
        ensures
            r == self.sample_spec(frame as int),
    {
        let sf: i64 = (self.start as i64) * 65536;
        let ef: i64 = (self.end as i64) * 65536;
        if frame <= sf {
            return self.start_v;
        }
        if frame >= ef {
            return self.end_v;
        }
        let progress = fx_div(frame - sf, ef - sf);
        let eased = self.ease.value(to_i32_sat(progress));
        self.start_v.lerp(self.end_v, eased as i64)
    }
}

/// Whether `frame` lies in the keyframe's half-open range `[start, end)`.
pub open spec fn kf_holds<T>(kf: Keyframe<T>, frame: int) -> bool {
    kf.start as int * 65536 <= frame < kf.end as int * 65536
}

/// The index of the first keyframe whose range contains `frame`, or -1.
pub open spec fn find_kf<T>(frames: Seq<Keyframe<T>>, frame: int) -> int
    decreases frames.len(),
{
    if frames.len() == 0 {
        -1
    } else if kf_holds(frames[0], frame) {
        0
    } else {
        let rest = find_kf(frames.drop_first(), frame);
        if rest < 0 {
            -1
        } else {
            rest + 1
        }
    }
}

/// Sequence of keyframes describing an animated property.
#[derive(Debug, Clone)]
pub struct Animator<T> {
    /// Ordered list of keyframes
    pub frames: Vec<Keyframe<T>>,
}

impl<T: Lerp> Animator<T> {
    /// The sampled value at a Q16.16 frame position: the default when
    /// empty, the first start value before the first keyframe, the last end
    /// value at or after the last keyframe's end, the sample of the first
    /// keyframe containing the frame, and the default in a gap between
    /// keyframes.
    pub open spec fn value_spec(&self, frame: int) -> T {
        if self.frames@.len() == 0 {
            T::default_spec()
        } else if frame <= self.frames@[0].start as int * 65536 {
            self.frames@[0].start_v
        } else if frame >= self.frames@.last().end as int * 65536 {
            self.frames@.last().end_v
        } else {
            let i = find_kf(self.frames@, frame);
            if i >= 0 {
                self.frames@[i].sample_spec(frame)
            } else {
                T::default_spec()
            }
        }
    }

    /// Sample the animated value at the given Q16.16 frame position,
    /// exactly as [`Animator::value_spec`] says.
    pub fn value(&self, frame: i64) -> (r: T)
        ensures
            r == self.value_spec(frame as int),
            self.frames@.len() == 0 ==> r == T::default_spec(),
            self.frames@.len() > 0 && frame <= self.frames@[0].start as int * 65536 ==> r
                == self.frames@[0].start_v,
            self.frames@.len() > 0 && frame > self.frames@[0].start as int * 65536 && frame
                >= self.frames@.last().end as int * 65536 ==> r == self.frames@.last().end_v,
    {
        let n = self.frames.len();
        if n == 0 {
            return T::default_value();
        }
        let sf: i64 = (self.frames[0].start as i64) * 65536;
        if frame <= sf {
            return self.frames[0].start_v;
        }
        let ef: i64 = (self.frames[n - 1].end as i64) * 65536;
        if frame >= ef {
            return self.frames[n - 1].end_v;
        }
        let mut k: usize = 0;
        while k < n
            invariant
                k <= n,
                n == self.frames@.len(),
                n > 0,
                frame > self.frames@[0].start as int * 65536,
                frame < self.frames@.last().end as int * 65536,
                forall|j: int| 0 <= j < k ==> !kf_holds(self.frames@[j], frame as int),
                find_kf(self.frames@, frame as int) >= 0 ==> find_kf(self.frames@, frame as int)
                    >= k,
            decreases n - k,
        {
            let ks: i64 = (self.frames[k].start as i64) * 65536;
            let ke: i64 = (self.frames[k].end as i64) * 65536;
            if frame >= ks && frame < ke {
                proof {
                    lemma_find_kf_first(self.frames@, frame as int, k as int);
                }
                let r = self.frames[k].sample(frame);
                return r;
            }
            proof {
                lemma_find_kf_skip(self.frames@, frame as int, k as int);
            }
            k = k + 1;
        }
        proof {
            lemma_find_kf_none(self.frames@, frame as int);
        }
        T::default_value()
    }
}

/// If no keyframe's range contains `frame`, the search finds nothing.
proof fn lemma_find_kf_none<T>(frames: Seq<Keyframe<T>>, frame: int)
    requires
        forall|j: int| 0 <= j < frames.len() ==> !kf_holds(frames[j], frame),
    ensures
        find_kf(frames, frame) == -1,
    decreases frames.len(),
{
    if frames.len() == 0 {
    } else {
        assert(forall|j: int|
            0 <= j < frames.drop_first().len() ==> frames.drop_first()[j] == frames[j + 1]);
        lemma_find_kf_none(frames.drop_first(), frame);
    }
}

/// If the first matching keyframe search has not matched before `k` and
/// matches at `k`, then `k` is the first match.
proof fn lemma_find_kf_first<T>(frames: Seq<Keyframe<T>>, frame: int, k: int)
    requires
        0 <= k < frames.len(),
        forall|j: int| 0 <= j < k ==> !kf_holds(frames[j], frame),
        kf_holds(frames[k], frame),
    ensures
        find_kf(frames, frame) == k,
    decreases k,
{
    if k == 0 {
    } else {
        lemma_find_kf_first(frames.drop_first(), frame, k - 1);
    }
}

/// If index `k` does not match, the first match (if any) lies beyond `k`.
proof fn lemma_find_kf_skip<T>(frames: Seq<Keyframe<T>>, frame: int, k: int)
    requires
        0 <= k < frames.len(),
        forall|j: int| 0 <= j <= k ==> !kf_holds(frames[j], frame),
    ensures
        find_kf(frames, frame) >= 0 ==> find_kf(frames, frame) > k,
    decreases k,
{
    if k == 0 {
    } else {
        lemma_find_kf_skip(frames.drop_first(), frame, k - 1);
    }
}

} // verus!
