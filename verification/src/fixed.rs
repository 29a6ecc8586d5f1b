//! Q16.16 fixed-point scalar arithmetic.
//!
//! Coordinates are stored as `i32` values holding `value * 65536`; wider
//! intermediate results use `i64`.  Every operation saturates instead of
//! wrapping, so the renderer can never abort on extreme inputs.

use vstd::math::abs;
use vstd::prelude::*;

verus! {

/// One, in Q16.16 fixed point.
pub const FX_ONE: i32 = 65536;

/// Clamp an unbounded integer into the `i32` range.
pub open spec fn clip32(x: int) -> int {
    if x > i32::MAX {
        i32::MAX as int
    } else if x < i32::MIN {
        i32::MIN as int
    } else {
        x
    }
}

/// Clamp an unbounded integer into the `i64` range.
pub open spec fn clip64(x: int) -> int {
    if x > i64::MAX {
        i64::MAX as int
    } else if x < i64::MIN {
        i64::MIN as int
    } else {
        x
    }
}

/// Divide by 2^16, rounding to the nearest value with halves away from zero.
pub open spec fn scale_down(n: int) -> int {
    if n >= 0 {
        (n + 32768) / 65536
    } else {
        -((-n + 32768) / 65536)
    }
}

/// The saturating Q16.16 product of `a` and `b`.
pub open spec fn fx_mul_spec(a: int, b: int) -> int {
    clip64(scale_down(a * b))
}

/// The saturating Q16.16 quotient of `a` and `b`, rounded to nearest with
/// halves away from zero; a zero divisor yields zero (the documented
/// degenerate-input fallback).
pub open spec fn fx_div_spec(a: int, b: int) -> int {
    if b == 0 {
        0
    } else {
        let n = abs(a) * 65536;
        let d = abs(b);
        let q = ((n + d / 2) / d) as int;
        if (a < 0) <==> (b < 0) {
            clip64(q)
        } else {
            clip64(-q)
        }
    }
}

/// The integer square root (floor) of a non-negative integer.
pub open spec fn sqrt_floor(n: int) -> int {
    choose|r: int| 0 <= r && #[trigger] (r * r) <= n && n < (r + 1) * (r + 1)
}

/// The saturating sum of two Q16.16 values.
pub open spec fn fx_add_spec(a: int, b: int) -> int {
    clip64(a + b)
}

/// The saturating difference of two Q16.16 values.
pub open spec fn fx_sub_spec(a: int, b: int) -> int {
    clip64(a - b)
}

/// Linear interpolation from `a` to `b` by the Q16.16 factor `t`.
pub open spec fn fx_lerp_spec(a: int, b: int, t: int) -> int {
    clip64(a + fx_mul_spec(clip64(b - a), t))
}

/// Any integer within `sqrt_floor`'s defining bounds is the square root.
pub proof fn lemma_sqrt_floor_is(n: int, r: int)
    requires
        0 <= r,
        r * r <= n,
        n < (r + 1) * (r + 1),
    ensures
        sqrt_floor(n) == r,
{
    let c = choose|c: int| 0 <= c && #[trigger] (c * c) <= n && n < (c + 1) * (c + 1);
    assert(0 <= c && c * c <= n && n < (c + 1) * (c + 1));
    assert(c == r) by (nonlinear_arith)
        requires
            0 <= r,
            r * r <= n,
            n < (r + 1) * (r + 1),
            0 <= c,
            c * c <= n,
            n < (c + 1) * (c + 1),
    ;
}

/// Bounds on a product follow from bounds on its factors.
pub proof fn lemma_mul_bound(a: int, b: int, m: int)
    requires
        -m <= a <= m,
        -m <= b <= m,
        0 <= m,
    ensures
        -(m * m) <= a * b <= m * m,
        a * a >= 0,
{
    assert(-(m * m) <= a * b <= m * m && a * a >= 0) by (nonlinear_arith)
        requires
            -m <= a <= m,
            -m <= b <= m,
            0 <= m,
    ;
}

/// Saturate an unsigned magnitude into the non-negative `i64` range.
fn sat_pos(q: u128) -> (r: i64)
    ensures
        r as int == clip64(q as int),
{
    if q > 0x7fff_ffff_ffff_ffff {
        i64::MAX
    } else {
        q as i64
    }
}

/// Saturate a negated unsigned magnitude into the non-positive `i64` range.
fn sat_neg(q: u128) -> (r: i64)
    ensures
        r as int == clip64(-(q as int)),
{
    if q >= 0x8000_0000_0000_0000 {
        i64::MIN
    } else {
        -(q as i64)
    }
}

/// Saturating Q16.16 multiplication.
pub fn fx_mul(a: i64, b: i64) -> (r: i64)
    ensures
        r as int == fx_mul_spec(a as int, b as int),
{
    proof {
        lemma_mul_bound(a as int, b as int, 0x8000_0000_0000_0000);
    }
    let p: i128 = a as i128 * b as i128;
    if p >= 0 {
        let q: u128 = (p as u128 + 32768) / 65536;
        sat_pos(q)
    } else {
        let m: u128 = (-p) as u128;
        let q: u128 = (m + 32768) / 65536;
        assert(q as int == -scale_down(p as int));
        sat_neg(q)
    }
}

/// Saturating Q16.16 division; a zero divisor yields zero.
pub fn fx_div(a: i64, b: i64) -> (r: i64)
    ensures
        r as int == fx_div_spec(a as int, b as int),
{
    if b == 0 {
        return 0;
    }
    let na: u128 = if a >= 0 {
        a as u128
    } else {
        (-(a as i128)) as u128
    };
    let nb: u128 = if b >= 0 {
        b as u128
    } else {
        (-(b as i128)) as u128
    };
    let n: u128 = na * 65536;
    let q: u128 = (n + nb / 2) / nb;
    if (a < 0) == (b < 0) {
        sat_pos(q)
    } else {
        sat_neg(q)
    }
}

/// Saturating addition of two Q16.16 values.
pub fn fx_add(a: i64, b: i64) -> (r: i64)
    ensures
        r as int == fx_add_spec(a as int, b as int),
{
    let s: i128 = a as i128 + b as i128;
    if s > i64::MAX as i128 {
        i64::MAX
    } else if s < i64::MIN as i128 {
        i64::MIN
    } else {
        s as i64
    }
}

/// Saturating subtraction of two Q16.16 values.
pub fn fx_sub(a: i64, b: i64) -> (r: i64)
    ensures
        r as int == fx_sub_spec(a as int, b as int),
{
    let s: i128 = a as i128 - b as i128;
    if s > i64::MAX as i128 {
        i64::MAX
    } else if s < i64::MIN as i128 {
        i64::MIN
    } else {
        s as i64
    }
}

/// Saturate a wide value into the `i32` coordinate range.
pub fn to_i32_sat(a: i64) -> (r: i32)
    ensures
        r as int == clip32(a as int),
{
    if a > i32::MAX as i64 {
        i32::MAX
    } else if a < i32::MIN as i64 {
        i32::MIN
    } else {
        a as i32
    }
}

/// Linear interpolation from `a` to `b` by the Q16.16 factor `t`.
pub fn fx_lerp(a: i64, b: i64, t: i64) -> (r: i64)
    ensures
        r as int == fx_lerp_spec(a as int, b as int, t as int),
{
    let d = fx_sub(b, a);
    fx_add(a, fx_mul(d, t))
}

/// The integer square root of `n`, saturated into `i64`.
pub fn isqrt(n: u128) -> (r: i64)
    ensures
        r as int == clip64(sqrt_floor(n as int)),
{
    let mut lo: u128 = 0;
    let mut hi: u128 = 0x1_0000_0000_0000_0000;
    proof {
        assert((hi as int) * (hi as int) > n as int) by (nonlinear_arith)
            requires
                hi as int == 0x1_0000_0000_0000_0000,
                n < 0x1_0000_0000_0000_0000_0000_0000_0000_0000,
        ;
    }
    while lo + 1 < hi
        invariant
            lo < hi,
            hi <= 0x1_0000_0000_0000_0000,
            (lo as int) * (lo as int) <= n as int,
            (n as int) < (hi as int) * (hi as int),
        decreases hi - lo,
    {
        let mid: u128 = lo + (hi - lo) / 2;
        proof {
            assert((mid as int) * (mid as int) < 0x1_0000_0000_0000_0000_0000_0000_0000_0000)
                by (nonlinear_arith)
                requires
                    mid < 0x1_0000_0000_0000_0000,
            ;
        }
        if mid * mid <= n {
            lo = mid;
        } else {
            hi = mid;
        }
    }
    proof {
        lemma_sqrt_floor_is(n as int, lo as int);
    }
    if lo > 0x7fff_ffff_ffff_ffff {
        i64::MAX
    } else {
        lo as i64
    }
}

/// The Q16.16 length of the vector `(dx, dy)`.
pub fn fx_len(dx: i64, dy: i64) -> (r: i64)
    ensures
        r as int == clip64(sqrt_floor(dx * dx + dy * dy)),
{
    proof {
        lemma_mul_bound(dx as int, dx as int, 0x8000_0000_0000_0000);
        lemma_mul_bound(dy as int, dy as int, 0x8000_0000_0000_0000);
    }
    let sx: i128 = dx as i128 * dx as i128;
    let sy: i128 = dy as i128 * dy as i128;
    isqrt(sx as u128 + sy as u128)
}


/// The saturating rounded quotient `n / d` (nearest, halves away from
/// zero); a zero divisor yields zero.
pub open spec fn rdiv_spec(n: int, d: int) -> int {
    if d == 0 {
        0
    } else {
        let q = ((abs(n) + abs(d) / 2) / abs(d)) as int;
        if (n < 0) <==> (d < 0) {
            clip64(q)
        } else {
            clip64(-q)
        }
    }
}

/// Saturating rounded division of a wide numerator by a Q16.16 divisor.
pub fn rdiv128(n: i128, d: i64) -> (r: i64)
    ensures
        r as int == rdiv_spec(n as int, d as int),
{
    if d == 0 {
        return 0;
    }
    let na: u128 = if n >= 0 {
        n as u128
    } else {
        -(n as i128 + 1) as u128 + 1
    };
    let nd: u128 = if d >= 0 {
        d as u128
    } else {
        (-(d as i128)) as u128
    };
    let q: u128 = (na + nd / 2) / nd;
    if (n < 0) == (d < 0) {
        sat_pos(q)
    } else {
        sat_neg(q)
    }
}


} // verus!
