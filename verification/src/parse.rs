//! The path-string grammar: whitespace-separated tokens of verbs and
//! decimal numbers, with verbs `m x y`, `l x y`, `c x1 y1 x2 y2 x y` and
//! `o` (close).  Unknown tokens are skipped; a token that is not a valid
//! signed decimal with an optional exponent reads as zero.  Numbers become
//! Q16.16 fixed point, rounded to nearest on the first eight fraction
//! digits, then scaled by the power of ten of the exponent.

use crate::fixed::{clip32, to_i32_sat};
use crate::types::{Color, PathCommand, Vec2Fx};
use vstd::prelude::*;

verus! {

/// Whether a byte is ASCII whitespace.
pub open spec fn is_ws(b: u8) -> bool {
    b == 32 || b == 9 || b == 10 || b == 13 || b == 11 || b == 12
}

/// Whether a byte is an ASCII digit.
pub open spec fn is_digit(b: u8) -> bool {
    48 <= b <= 57
}

/// The tokenizer state: finished tokens and the run being collected.
pub struct TokState {
    /// Whitespace-separated tokens seen so far
    pub out: Seq<Seq<u8>>,
    /// The non-whitespace run being collected
    pub cur: Seq<u8>,
}

/// One byte's effect on the tokenizer: whitespace closes the current run,
/// any other byte extends it.
pub open spec fn tok_step(st: TokState, b: u8) -> TokState {
    if is_ws(b) {
        if st.cur.len() > 0 {
            TokState { out: st.out.push(st.cur), cur: Seq::empty() }
        } else {
            st
        }
    } else {
        TokState { out: st.out, cur: st.cur.push(b) }
    }
}

/// The tokenizer state after the first `i` bytes.
pub open spec fn tok_iter(s: Seq<u8>, i: int) -> TokState
    decreases i,
{
    if i <= 0 {
        TokState { out: Seq::empty(), cur: Seq::empty() }
    } else {
        tok_step(tok_iter(s, i - 1), s[i - 1])
    }
}

/// The whitespace-separated tokens of a byte string.
pub open spec fn tokens_spec(s: Seq<u8>) -> Seq<Seq<u8>> {
    let st = tok_iter(s, s.len() as int);
    if st.cur.len() > 0 {
        st.out.push(st.cur)
    } else {
        st.out
    }
}

/// The number-scanner state: validity, whether a dot and a digit have been
/// seen, the integer part (held once past the representable range), the
/// fraction value over the first eight fraction digits with its power of
/// ten, and the exponent stage after an `e`.
pub struct NumState {
    /// No unexpected byte, second dot or misplaced sign seen
    pub ok: bool,
    /// A decimal point has been seen
    pub seen_dot: bool,
    /// At least one mantissa digit has been seen
    pub seen_digit: bool,
    /// Accumulated integer part
    pub ip: int,
    /// Accumulated fraction digits value
    pub fp: int,
    /// Power of ten of the accumulated fraction digits
    pub p10: int,
    /// An `e` or `E` has been seen
    pub in_exp: bool,
    /// The exponent's sign has been seen
    pub exp_signed: bool,
    /// The exponent is negative
    pub exp_neg: bool,
    /// At least one exponent digit has been seen
    pub exp_digit: bool,
    /// Accumulated exponent (held once past the effective range)
    pub exp: int,
}

/// One byte's effect on the number scanner.
pub open spec fn num_step(st: NumState, b: u8) -> NumState {
    if !st.ok {
        st
    } else if !st.in_exp {
        if b == 46 {
            if st.seen_dot {
                NumState { ok: false, ..st }
            } else {
                NumState { seen_dot: true, ..st }
            }
        } else if b == 101 || b == 69 {
            if st.seen_digit {
                NumState { in_exp: true, ..st }
            } else {
                NumState { ok: false, ..st }
            }
        } else if is_digit(b) {
            if !st.seen_dot {
                NumState {
                    seen_digit: true,
                    ip: if st.ip <= 0xffff_ffff {
                        st.ip * 10 + (b - 48)
                    } else {
                        st.ip
                    },
                    ..st
                }
            } else if st.p10 < 100000000 {
                NumState { seen_digit: true, fp: st.fp * 10 + (b - 48), p10: st.p10 * 10, ..st }
            } else {
                NumState { seen_digit: true, ..st }
            }
        } else {
            NumState { ok: false, ..st }
        }
    } else {
        if b == 43 || b == 45 {
            if st.exp_signed || st.exp_digit {
                NumState { ok: false, ..st }
            } else {
                NumState { exp_signed: true, exp_neg: b == 45, ..st }
            }
        } else if is_digit(b) {
            NumState {
                exp_digit: true,
                exp: if st.exp < 100 {
                    st.exp * 10 + (b - 48)
                } else {
                    st.exp
                },
                ..st
            }
        } else {
            NumState { ok: false, ..st }
        }
    }
}

/// The number-scanner state over `s[from..i]`.
pub open spec fn num_iter(s: Seq<u8>, from: int, i: int) -> NumState
    decreases i - from,
{
    if i <= from {
        NumState {
            ok: true,
            seen_dot: false,
            seen_digit: false,
            ip: 0,
            fp: 0,
            p10: 1,
            in_exp: false,
            exp_signed: false,
            exp_neg: false,
            exp_digit: false,
            exp: 0,
        }
    } else {
        num_step(num_iter(s, from, i - 1), s[i - 1])
    }
}

/// Ten to the power `e` (one for non-positive `e`).
pub open spec fn pow10_spec(e: int) -> int
    decreases e,
{
    if e <= 0 {
        1
    } else {
        10 * pow10_spec(e - 1)
    }
}

/// The Q16.16 value of a decimal token: an optional sign, mantissa digits
/// with at most one decimal point, and an optional `e`-exponent.  Anything
/// else reads as zero.  The exponent scales by its power of ten, rounded to
/// nearest and saturating; beyond ten to the eighteenth the scale saturates
/// (or rounds to zero) in the same way.
pub open spec fn parse_fx_spec(t: Seq<u8>) -> int {
    if t.len() == 0 {
        0
    } else {
        let neg = t[0] == 45;
        let from: int = if t[0] == 45 || t[0] == 43 {
            1
        } else {
            0
        };
        let st = num_iter(t, from, t.len() as int);
        if st.ok && st.seen_digit && (!st.in_exp || st.exp_digit) {
            let m = st.ip * 65536 + (st.fp * 65536 + st.p10 / 2) / st.p10;
            let sm = if neg {
                -m
            } else {
                m
            };
            if !st.in_exp {
                clip32(sm)
            } else {
                let p = pow10_spec(if st.exp > 18 {
                    18
                } else {
                    st.exp
                });
                if st.exp_neg {
                    clip32(crate::fixed::rdiv_spec(sm, p))
                } else {
                    clip32(sm * p)
                }
            }
        } else {
            0
        }
    }
}

/// The numeric value of token `j`, or zero when the tokens ran out.
pub open spec fn tok_val(toks: Seq<Seq<u8>>, j: int) -> int {
    if 0 <= j < toks.len() {
        parse_fx_spec(toks[j])
    } else {
        0
    }
}

/// An index advanced by `k` tokens, stopping at the end.
pub open spec fn adv(toks: Seq<Seq<u8>>, i: int, k: int) -> int {
    if i + k <= toks.len() {
        i + k
    } else {
        toks.len() as int
    }
}

/// Whether a token is the single byte `b`.
pub open spec fn is_verb(t: Seq<u8>, b: u8) -> bool {
    t.len() == 1 && t[0] == b
}

/// The commands parsed from the tokens starting at index `i`: each verb
/// consumes its operand tokens positionally, unknown tokens are skipped.
pub open spec fn parse_cmds_spec(toks: Seq<Seq<u8>>, i: int) -> Seq<PathCommand>
    decreases toks.len() - i,
{
    if i < 0 || i >= toks.len() {
        Seq::empty()
    } else {
        let t = toks[i];
        if is_verb(t, 109) {
            seq![
                PathCommand::MoveTo(
                    Vec2Fx {
                        x: tok_val(toks, i + 1) as i32,
                        y: tok_val(toks, i + 2) as i32,
                    },
                ),
            ] + parse_cmds_spec(toks, adv(toks, i, 3))
        } else if is_verb(t, 108) {
            seq![
                PathCommand::LineTo(
                    Vec2Fx {
                        x: tok_val(toks, i + 1) as i32,
                        y: tok_val(toks, i + 2) as i32,
                    },
                ),
            ] + parse_cmds_spec(toks, adv(toks, i, 3))
        } else if is_verb(t, 99) {
            seq![
                PathCommand::CubicTo(
                    Vec2Fx {
                        x: tok_val(toks, i + 1) as i32,
                        y: tok_val(toks, i + 2) as i32,
                    },
                    Vec2Fx {
                        x: tok_val(toks, i + 3) as i32,
                        y: tok_val(toks, i + 4) as i32,
                    },
                    Vec2Fx {
                        x: tok_val(toks, i + 5) as i32,
                        y: tok_val(toks, i + 6) as i32,
                    },
                ),
            ] + parse_cmds_spec(toks, adv(toks, i, 7))
        } else if is_verb(t, 111) {
            seq![PathCommand::Close] + parse_cmds_spec(toks, adv(toks, i, 1))
        } else {
            parse_cmds_spec(toks, adv(toks, i, 1))
        }
    }
}

/// The commands parsed from a path string.
pub open spec fn parse_path_spec(bytes: Seq<u8>) -> Seq<PathCommand> {
    parse_cmds_spec(tokens_spec(bytes), 0)
}

/// Split a byte string into whitespace-separated tokens.
fn tokenize(data: &[u8]) -> (r: Vec<Vec<u8>>)
    ensures
        r@.len() == tokens_spec(data@).len(),
        forall|j: int| 0 <= j < r@.len() ==> #[trigger] (r@[j]@) == tokens_spec(data@)[j],
{
    let n = data.len();
    let mut out: Vec<Vec<u8>> = Vec::new();
    let mut cur: Vec<u8> = Vec::new();
    let mut i: usize = 0;
    while i < n
        invariant
            i <= n,
            n == data@.len(),
            out@.len() == tok_iter(data@, i as int).out.len(),
            forall|j: int|
                0 <= j < out@.len() ==> #[trigger] (out@[j]@) == tok_iter(data@, i as int).out[
                    j],
            cur@ == tok_iter(data@, i as int).cur,
        decreases n - i,
    {
        let b = data[i];
        if b == 32 || b == 9 || b == 10 || b == 13 || b == 11 || b == 12 {
            if cur.len() > 0 {
                out.push(cur);
                cur = Vec::new();
            }
        } else {
            cur.push(b);
        }
        i = i + 1;
    }
    if cur.len() > 0 {
        out.push(cur);
    }
    out
}

/// Parse one decimal token into Q16.16, reading zero for anything that is
/// not a plain signed decimal.
fn parse_fx(t: &Vec<u8>) -> (r: i32)
    ensures
        r as int == parse_fx_spec(t@),
{
    let n = t.len();
    if n == 0 {
        return 0;
    }
    let neg = t[0] == 45;
    let from: usize = if t[0] == 45 || t[0] == 43 {
        1
    } else {
        0
    };
    let mut ok = true;
    let mut seen_dot = false;
    let mut seen_digit = false;
    let mut ip: u64 = 0;
    let mut fp: u64 = 0;
    let mut p10: u64 = 1;
    let mut in_exp = false;
    let mut exp_signed = false;
    let mut exp_neg = false;
    let mut exp_digit = false;
    let mut exp: u32 = 0;
    let mut i: usize = from;
    while i < n
        invariant
            from <= i <= n,
            n == t@.len(),
            ok == num_iter(t@, from as int, i as int).ok,
            seen_dot == num_iter(t@, from as int, i as int).seen_dot,
            seen_digit == num_iter(t@, from as int, i as int).seen_digit,
            ip as int == num_iter(t@, from as int, i as int).ip,
            fp as int == num_iter(t@, from as int, i as int).fp,
            p10 as int == num_iter(t@, from as int, i as int).p10,
            in_exp == num_iter(t@, from as int, i as int).in_exp,
            exp_signed == num_iter(t@, from as int, i as int).exp_signed,
            exp_neg == num_iter(t@, from as int, i as int).exp_neg,
            exp_digit == num_iter(t@, from as int, i as int).exp_digit,
            exp as int == num_iter(t@, from as int, i as int).exp,
            ip <= 0xffff_ffff * 10 + 9,
            fp < p10,
            1 <= p10 <= 1000000000,
            exp <= 999,
        decreases n - i,
    {
        let b = t[i];
        if ok {
            if !in_exp {
                if b == 46 {
                    if seen_dot {
                        ok = false;
                    } else {
                        seen_dot = true;
                    }
                } else if b == 101 || b == 69 {
                    if seen_digit {
                        in_exp = true;
                    } else {
                        ok = false;
                    }
                } else if 48 <= b && b <= 57 {
                    seen_digit = true;
                    if !seen_dot {
                        if ip <= 0xffff_ffff {
                            ip = ip * 10 + (b - 48) as u64;
                        }
                    } else if p10 < 100000000 {
                        fp = fp * 10 + (b - 48) as u64;
                        p10 = p10 * 10;
                    }
                } else {
                    ok = false;
                }
            } else {
                if b == 43 || b == 45 {
                    if exp_signed || exp_digit {
                        ok = false;
                    } else {
                        exp_signed = true;
                        exp_neg = b == 45;
                    }
                } else if 48 <= b && b <= 57 {
                    exp_digit = true;
                    if exp < 100 {
                        exp = exp * 10 + (b - 48) as u32;
                    }
                } else {
                    ok = false;
                }
            }
        }
        i = i + 1;
    }
    if ok && seen_digit && (!in_exp || exp_digit) {
        let fv: u64 = (fp * 65536 + p10 / 2) / p10;
        let m: i64 = (ip as i64) * 65536 + fv as i64;
        let sm: i64 = if neg {
            -m
        } else {
            m
        };
        if !in_exp {
            to_i32_sat(sm)
        } else {
            let e_eff: u32 = if exp > 18 {
                18
            } else {
                exp
            };
            let p = pow10_upto18(e_eff);
            if exp_neg {
                to_i32_sat(crate::fixed::rdiv128(sm as i128, p))
            } else {
                proof {
                    crate::fixed::lemma_mul_bound(sm as int, p as int, 0x8000_0000_0000_0000);
                }
                to_i32_sat128(sm as i128 * p as i128)
            }
        }
    } else {
        0
    }
}

/// Ten to the power `e`, for exponents up to eighteen.
fn pow10_upto18(e: u32) -> (p: i64)
    requires
        e <= 18,
    ensures
        p as int == pow10_spec(e as int),
        1 <= p,
{
    proof {
        reveal_with_fuel(pow10_spec, 20);
    }
    if e == 0 {
        1
    } else if e == 1 {
        10
    } else if e == 2 {
        100
    } else if e == 3 {
        1000
    } else if e == 4 {
        10000
    } else if e == 5 {
        100000
    } else if e == 6 {
        1000000
    } else if e == 7 {
        10000000
    } else if e == 8 {
        100000000
    } else if e == 9 {
        1000000000
    } else if e == 10 {
        10000000000
    } else if e == 11 {
        100000000000
    } else if e == 12 {
        1000000000000
    } else if e == 13 {
        10000000000000
    } else if e == 14 {
        100000000000000
    } else if e == 15 {
        1000000000000000
    } else if e == 16 {
        10000000000000000
    } else if e == 17 {
        100000000000000000
    } else {
        1000000000000000000
    }
}

/// Saturate a wide value into the `i32` range.
fn to_i32_sat128(a: i128) -> (r: i32)
    ensures
        r as int == clip32(a as int),
{
    if a > i32::MAX as i128 {
        i32::MAX
    } else if a < i32::MIN as i128 {
        i32::MIN
    } else {
        a as i32
    }
}

/// The numeric value of the token `off` places past `i`, or zero past the
/// end of the tokens.
fn fetch(toks: &Vec<Vec<u8>>, i: usize, off: usize) -> (r: i32)
    ensures
        r as int == (if i + off < toks@.len() {
            parse_fx_spec(toks@[i as int + off as int]@)
        } else {
            0
        }),
{
    let n = toks.len();
    if i < n && off < n - i {
        parse_fx(&toks[i + off])
    } else {
        0
    }
}

/// The byte view of one token of a token list.
pub open spec fn view_of(toks: Seq<Vec<u8>>, k: int) -> Seq<u8> {
    toks[k]@
}

/// Parse a path string into drawing commands.
pub fn parse_path(data: &[u8]) -> (r: Vec<PathCommand>)
    ensures
        r@ == parse_path_spec(data@),
{
    let toks = tokenize(data);
    let ghost tv: Seq<Seq<u8>> = Seq::new(toks@.len(), |k: int| view_of(toks@, k));
    proof {
        assert(tv =~= tokens_spec(data@));
    }
    let n = toks.len();
    let mut out: Vec<PathCommand> = Vec::new();
    let mut i: usize = 0;
    while i < n
        invariant
            i <= n,
            n == tv.len(),
            tv == Seq::new(toks@.len(), |k: int| view_of(toks@, k)),
            tv == tokens_spec(data@),
            out@ + parse_cmds_spec(tv, i as int) == parse_cmds_spec(tv, 0),
        decreases n - i,
    {
        let t = &toks[i];
        let ghost pre_out = out@;
        let mut step: usize = 1;
        if t.len() == 1 && t[0] == 109 {
            let x = fetch(&toks, i, 1);
            let y = fetch(&toks, i, 2);
            out.push(PathCommand::MoveTo(Vec2Fx { x, y }));
            step = 3;
        } else if t.len() == 1 && t[0] == 108 {
            let x = fetch(&toks, i, 1);
            let y = fetch(&toks, i, 2);
            out.push(PathCommand::LineTo(Vec2Fx { x, y }));
            step = 3;
        } else if t.len() == 1 && t[0] == 99 {
            let x1 = fetch(&toks, i, 1);
            let y1 = fetch(&toks, i, 2);
            let x2 = fetch(&toks, i, 3);
            let y2 = fetch(&toks, i, 4);
            let x = fetch(&toks, i, 5);
            let y = fetch(&toks, i, 6);
            out.push(PathCommand::CubicTo(Vec2Fx { x: x1, y: y1 }, Vec2Fx { x: x2, y: y2 },
                Vec2Fx { x, y }));
            step = 7;
        } else if t.len() == 1 && t[0] == 111 {
            out.push(PathCommand::Close);
            step = 1;
        } else {
            step = 1;
        }
        let ni: usize = if step <= n - i {
            i + step
        } else {
            n
        };
        proof {
            assert(tv[i as int] == toks@[i as int]@);
            assert(ni as int == adv(tv, i as int, step as int));
            assert(out@ + parse_cmds_spec(tv, ni as int) =~= pre_out + parse_cmds_spec(tv,
                i as int));
        }
        i = ni;
    }
    proof {
        assert(out@ =~= parse_cmds_spec(tv, 0));
    }
    out
}

/// Quantize one unit-interval channel (Q16.16) to a byte by flooring
/// `v * 255`, saturating outside the interval.
pub open spec fn quant_spec(v: int) -> int {
    if v <= 0 {
        0
    } else if v * 255 / 65536 > 255 {
        255
    } else {
        v * 255 / 65536
    }
}

/// Build a color from four unit-interval channels in Q16.16, as the loader
/// quantizes color arrays.
pub fn color_from_unit(r: i64, g: i64, b: i64, a: i64) -> (c: Color)
    ensures
        c.r as int == quant_spec(r as int),
        c.g as int == quant_spec(g as int),
        c.b as int == quant_spec(b as int),
        c.a as int == quant_spec(a as int),
{
    Color { r: quant(r), g: quant(g), b: quant(b), a: quant(a) }
}

/// Quantize one channel.
fn quant(v: i64) -> (r: u8)
    ensures
        r as int == quant_spec(v as int),
{
    if v <= 0 {
        return 0;
    }
    let q: i128 = v as i128 * 255 / 65536;
    if q > 255 {
        255
    } else {
        q as u8
    }
}

} // verus!
