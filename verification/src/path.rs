//! Vector path representation and the geometry kernel: adaptive flattening
//! of cubic Bezier curves, length parameterization and trimming.
//!
//! All coordinates are Q16.16 fixed point.  Flattening subdivides cubics by
//! midpoint de Casteljau splits until both control points are within the
//! tolerance of the chord, with a hard subdivision depth cap.

use crate::fixed::{fx_add, fx_div, fx_mul, fx_sub, fx_len, to_i32_sat};
use crate::fixed::{clip32, clip64, fx_add_spec, fx_div_spec, fx_mul_spec, fx_sub_spec,
    sqrt_floor, FX_ONE};
use crate::types::Vec2Fx;
use vstd::prelude::*;

verus! {

/// The depth cap for recursive cubic subdivision: one cubic flattens into at
/// most `2^MAX_SUBDIV` chords.
pub const MAX_SUBDIV: u32 = 10;

/// A line segment represented by two end points.
#[derive(Debug, Clone, Copy, PartialEq, Eq, Structural)]
pub struct LineSegment {
    /// Start point of the segment
    pub from: Vec2Fx,
    /// End point of the segment
    pub to: Vec2Fx,
}

/// The Q16.16 Euclidean length of a segment (exact integer square root of
/// the squared coordinate differences).
pub open spec fn seg_len_spec(s: LineSegment) -> int {
    let dx = s.to.x - s.from.x;
    let dy = s.to.y - s.from.y;
    clip64(sqrt_floor(dx * dx + dy * dy))
}

impl LineSegment {
    /// Calculate the Euclidean length of the segment, Q16.16.
    pub fn length(&self) -> (r: i64)
        ensures
            r as int == seg_len_spec(*self),
    {
        let dx = self.to.x as i64 - self.from.x as i64;
        let dy = self.to.y as i64 - self.from.y as i64;
        fx_len(dx, dy)
    }
}

/// Basic path drawing commands, the geometry-kernel form.
#[derive(Debug, Clone, Copy, PartialEq, Eq, Structural)]
pub enum PathSeg {
    /// Move to absolute position.
    MoveTo(Vec2Fx),
    /// Line to absolute position.
    LineTo(Vec2Fx),
    /// Cubic Bezier curve with two control points and end point.
    Cubic(Vec2Fx, Vec2Fx, Vec2Fx),
    /// Close current sub-path.
    Close,
}

/// A sequence of [`PathSeg`] items forming a vector path.
#[derive(Debug, Clone)]
pub struct Path {
    /// Ordered list of path segments
    pub segments: Vec<PathSeg>,
}

impl Default for Path {
    /// An empty path.
    fn default() -> (r: Path)
        ensures
            r.segments@.len() == 0,
    {
        Path { segments: Vec::new() }
    }
}

/// The midpoint of two coordinates, rounded toward zero.
pub open spec fn half_spec(s: int) -> int {
    if s >= 0 {
        s / 2
    } else {
        -((-s) / 2)
    }
}

/// The midpoint of two points, each coordinate rounded toward zero.
pub open spec fn mid_spec(a: Vec2Fx, b: Vec2Fx) -> Vec2Fx {
    Vec2Fx {
        x: half_spec(a.x + b.x) as i32,
        y: half_spec(a.y + b.y) as i32,
    }
}

/// The point a Q16.16 arc-length `dist` along a chord of length `len`:
/// each coordinate moves by the rounded share of the coordinate span.
pub open spec fn point_along_spec(seg: LineSegment, dist: int, len: int) -> Vec2Fx {
    Vec2Fx {
        x: clip32(seg.from.x + crate::fixed::rdiv_spec((seg.to.x - seg.from.x) * dist, len))
            as i32,
        y: clip32(seg.from.y + crate::fixed::rdiv_spec((seg.to.y - seg.from.y) * dist, len))
            as i32,
    }
}

/// The saturating Q16.16 squared distance from `p` to the line through `a`
/// and `b` (measured to the projection onto the line; to `a` when the chord
/// is degenerate).
pub open spec fn dist_sq_spec(p: Vec2Fx, a: Vec2Fx, b: Vec2Fx) -> int {
    let vx = b.x - a.x;
    let vy = b.y - a.y;
    let dot = fx_add_spec(fx_mul_spec(p.x - a.x, vx), fx_mul_spec(p.y - a.y, vy));
    let vv = fx_add_spec(fx_mul_spec(vx, vx), fx_mul_spec(vy, vy));
    let u = fx_div_spec(dot, vv);
    let x = fx_add_spec(a.x as int, fx_mul_spec(u, vx));
    let y = fx_add_spec(a.y as int, fx_mul_spec(u, vy));
    let dx = fx_sub_spec(x, p.x as int);
    let dy = fx_sub_spec(y, p.y as int);
    fx_add_spec(fx_mul_spec(dx, dx), fx_mul_spec(dy, dy))
}

/// Whether both control points are within `tol` of the chord, compared in
/// squared distance.
pub open spec fn flat_enough_spec(p0: Vec2Fx, c1: Vec2Fx, c2: Vec2Fx, p3: Vec2Fx, tol: int)
    -> bool {
    let tt = fx_mul_spec(tol, tol);
    dist_sq_spec(c1, p0, p3) <= tt && dist_sq_spec(c2, p0, p3) <= tt
}

/// The chords a cubic flattens into: a single chord once flat enough or out
/// of subdivision depth, else the chords of both midpoint halves.
pub open spec fn flat_cubic_spec(
    p0: Vec2Fx,
    c1: Vec2Fx,
    c2: Vec2Fx,
    p3: Vec2Fx,
    tol: int,
    depth: nat,
) -> Seq<LineSegment>
    decreases depth,
{
    if depth == 0 || flat_enough_spec(p0, c1, c2, p3, tol) {
        seq![LineSegment { from: p0, to: p3 }]
    } else {
        let m1 = mid_spec(p0, c1);
        let m2 = mid_spec(c1, c2);
        let m3 = mid_spec(c2, p3);
        let m4 = mid_spec(m1, m2);
        let m5 = mid_spec(m2, m3);
        let m6 = mid_spec(m4, m5);
        flat_cubic_spec(p0, m1, m4, m6, tol, (depth - 1) as nat) + flat_cubic_spec(
            m6,
            m5,
            m3,
            p3,
            tol,
            (depth - 1) as nat,
        )
    }
}

/// One cubic yields at most `2^depth` chords.
pub proof fn lemma_flat_cubic_len(p0: Vec2Fx, c1: Vec2Fx, c2: Vec2Fx, p3: Vec2Fx, tol: int,
    depth: nat)
    ensures
        1 <= flat_cubic_spec(p0, c1, c2, p3, tol, depth).len() <= vstd::arithmetic::power2::pow2(
            depth,
        ),
    decreases depth,
{
    vstd::arithmetic::power2::lemma_pow2_pos(depth);
    if depth == 0 || flat_enough_spec(p0, c1, c2, p3, tol) {
    } else {
        let m1 = mid_spec(p0, c1);
        let m2 = mid_spec(c1, c2);
        let m3 = mid_spec(c2, p3);
        let m4 = mid_spec(m1, m2);
        let m5 = mid_spec(m2, m3);
        let m6 = mid_spec(m4, m5);
        lemma_flat_cubic_len(p0, m1, m4, m6, tol, (depth - 1) as nat);
        lemma_flat_cubic_len(m6, m5, m3, p3, tol, (depth - 1) as nat);
        assert(vstd::arithmetic::power2::pow2(depth) == 2 * vstd::arithmetic::power2::pow2(
            (depth - 1) as nat,
        )) by {
            vstd::arithmetic::power2::lemma_pow2_unfold(depth);
        }
    }
}

/// The walk state of flattening: current point, subpath start, whether a
/// `MoveTo` has been seen, and the chords emitted so far.
pub struct FlattenState {
    /// Current point
    pub cur: Vec2Fx,
    /// Start of the current subpath
    pub start: Vec2Fx,
    /// Whether a `MoveTo` has been seen
    pub has_start: bool,
    /// Chords emitted so far
    pub out: Seq<LineSegment>,
}

/// The initial flattening state: both points at the origin, nothing emitted.
pub open spec fn flatten_init() -> FlattenState {
    FlattenState {
        cur: Vec2Fx { x: 0, y: 0 },
        start: Vec2Fx { x: 0, y: 0 },
        has_start: false,
        out: Seq::empty(),
    }
}

/// The effect of one path segment on the flattening state.
pub open spec fn flatten_step(st: FlattenState, seg: PathSeg, tol: int) -> FlattenState {
    match seg {
        PathSeg::MoveTo(p) => FlattenState { cur: p, start: p, has_start: true, out: st.out },
        PathSeg::LineTo(p) => FlattenState {
            cur: p,
            out: st.out.push(LineSegment { from: st.cur, to: p }),
            ..st
        },
        PathSeg::Cubic(c1, c2, p) => FlattenState {
            cur: p,
            out: st.out + flat_cubic_spec(st.cur, c1, c2, p, tol, MAX_SUBDIV as nat),
            ..st
        },
        PathSeg::Close => FlattenState {
            cur: st.start,
            out: if st.has_start && st.cur != st.start {
                st.out.push(LineSegment { from: st.cur, to: st.start })
            } else {
                st.out
            },
            ..st
        },
    }
}

/// The flattening state after the first `i` segments.
pub open spec fn flatten_iter(segs: Seq<PathSeg>, tol: int, i: int) -> FlattenState
    decreases i,
{
    if i <= 0 {
        flatten_init()
    } else {
        flatten_step(flatten_iter(segs, tol, i - 1), segs[i - 1], tol)
    }
}

/// The chords a whole path flattens into.
pub open spec fn flatten_spec(segs: Seq<PathSeg>, tol: int) -> Seq<LineSegment> {
    flatten_iter(segs, tol, segs.len() as int).out
}

/// Each path segment contributes at most `2^MAX_SUBDIV` chords.
pub proof fn lemma_flatten_len(segs: Seq<PathSeg>, tol: int, i: int)
    requires
        0 <= i <= segs.len(),
    ensures
        flatten_iter(segs, tol, i).out.len() <= i * 1024,
    decreases i,
{
    if i > 0 {
        lemma_flatten_len(segs, tol, i - 1);
        let st = flatten_iter(segs, tol, i - 1);
        match segs[i - 1] {
            PathSeg::Cubic(c1, c2, p) => {
                lemma_flat_cubic_len(st.cur, c1, c2, p, tol, MAX_SUBDIV as nat);
                vstd::arithmetic::power2::lemma2_to64();
            },
            _ => {},
        }
    }
}

/// The Q16.16 total length of a chord sequence, summed with saturation.
pub open spec fn segs_len_spec(segs: Seq<LineSegment>, i: int) -> int
    decreases i,
{
    if i <= 0 {
        0
    } else {
        fx_add_spec(segs_len_spec(segs, i - 1), seg_len_spec(segs[i - 1]))
    }
}

impl Path {
    /// Create a new empty path.
    pub fn new() -> (r: Self)
        ensures
            r.segments@ == Seq::<PathSeg>::empty(),
    {
        let r = Path { segments: Vec::new() };
        proof {
            assert(r.segments@ =~= Seq::<PathSeg>::empty());
        }
        r
    }

    /// Append a move command.
    pub fn move_to(&mut self, p: Vec2Fx)
        ensures
            final(self).segments@ == old(self).segments@.push(PathSeg::MoveTo(p)),
    {
        self.segments.push(PathSeg::MoveTo(p));
    }

    /// Append a line command.
    pub fn line_to(&mut self, p: Vec2Fx)
        ensures
            final(self).segments@ == old(self).segments@.push(PathSeg::LineTo(p)),
    {
        self.segments.push(PathSeg::LineTo(p));
    }

    /// Append a cubic Bezier curve command.
    pub fn cubic_to(&mut self, c1: Vec2Fx, c2: Vec2Fx, p: Vec2Fx)
        ensures
            final(self).segments@ == old(self).segments@.push(PathSeg::Cubic(c1, c2, p)),
    {
        self.segments.push(PathSeg::Cubic(c1, c2, p));
    }

    /// Close the current sub-path.
    pub fn close(&mut self)
        ensures
            final(self).segments@ == old(self).segments@.push(PathSeg::Close),
    {
        self.segments.push(PathSeg::Close);
    }

    /// Flatten the path into line segments by recursive subdivision of
    /// cubics.  The number of chords is bounded by `1024` per input segment.
    pub fn flatten(&self, tolerance: i32) -> (r: Vec<LineSegment>)
        ensures
            r@ == flatten_spec(self.segments@, tolerance as int),
            r@.len() <= self.segments@.len() * 1024,
    {
        let tol = tolerance as i64;
        let mut out: Vec<LineSegment> = Vec::new();
        let mut cur = Vec2Fx { x: 0, y: 0 };
        let mut start = Vec2Fx { x: 0, y: 0 };
        let mut has_start = false;
        let n = self.segments.len();
        let mut i: usize = 0;
        while i < n
            invariant
                i <= n,
                n == self.segments@.len(),
                tol == tolerance as i64,
                cur == flatten_iter(self.segments@, tol as int, i as int).cur,
                start == flatten_iter(self.segments@, tol as int, i as int).start,
                has_start == flatten_iter(self.segments@, tol as int, i as int).has_start,
                out@ == flatten_iter(self.segments@, tol as int, i as int).out,
            decreases n - i,
        {
            let seg = self.segments[i];
            match seg {
                PathSeg::MoveTo(p) => {
                    cur = p;
                    start = p;
                    has_start = true;
                },
                PathSeg::LineTo(p) => {
                    out.push(LineSegment { from: cur, to: p });
                    cur = p;
                },
                PathSeg::Cubic(c1, c2, p) => {
                    flatten_cubic(cur, c1, c2, p, tol, MAX_SUBDIV, &mut out);
                    cur = p;
                },
                PathSeg::Close => {
                    if has_start && !(cur.x == start.x && cur.y == start.y) {
                        out.push(LineSegment { from: cur, to: start });
                    }
                    cur = start;
                },
            }
            i = i + 1;
        }
        proof {
            lemma_flatten_len(self.segments@, tol as int, n as int);
        }
        out
    }

    /// Approximate path length, Q16.16: the saturating sum of the flattened
    /// chord lengths.
    pub fn length(&self, tolerance: i32) -> (r: i64)
        ensures
            r as int == segs_len_spec(
                flatten_spec(self.segments@, tolerance as int),
                flatten_spec(self.segments@, tolerance as int).len() as int,
            ),
    {
        let segs = self.flatten(tolerance);
        sum_seg_lengths(&segs)
    }

    /// Return a new path trimmed between the `start` and `end` fractions
    /// (Q16.16, normalized to 0..=1 of the flattened length); `start > end`
    /// wraps around the path's end.
    pub fn trim(&self, start: i32, end: i32, tolerance: i32) -> (r: Path)
        ensures
            r.segments@ == trim_spec(self.segments@, start as int, end as int, tolerance as int),
    {
        if start == end {
            return Path::new();
        }
        if (start <= 0 && end >= FX_ONE) || (start >= FX_ONE && end <= 0) {
            let mut copy: Vec<PathSeg> = Vec::new();
            let mut j: usize = 0;
            while j < self.segments.len()
                invariant
                    j <= self.segments@.len(),
                    copy@ == self.segments@.take(j as int),
                decreases self.segments@.len() - j,
            {
                copy.push(self.segments[j]);
                proof {
                    assert(self.segments@.take(j + 1) == self.segments@.take(j as int).push(
                        self.segments@[j as int],
                    ));
                }
                j = j + 1;
            }
            proof {
                assert(self.segments@.take(self.segments@.len() as int) == self.segments@);
            }
            return Path { segments: copy };
        }
        let segs = self.flatten(tolerance);
        if segs.len() == 0 {
            return Path::new();
        }
        let total = sum_seg_lengths(&segs);
        let s = fx_mul(clamp01(start) as i64, total);
        let e = fx_mul(clamp01(end) as i64, total);
        if start < end {
            extract_range(&segs, s, e)
        } else {
            let mut first = extract_range(&segs, s, total);
            let second = extract_range(&segs, 0, e);
            let mut j: usize = 0;
            while j < second.segments.len()
                invariant
                    j <= second.segments@.len(),
                    first.segments@ == extract_spec(segs@, s as int, total as int).out + second
                        .segments@.take(j as int),
                decreases second.segments@.len() - j,
            {
                first.segments.push(second.segments[j]);
                proof {
                    assert(second.segments@.take(j + 1) == second.segments@.take(j as int).push(
                        second.segments@[j as int],
                    ));
                }
                j = j + 1;
            }
            proof {
                assert(second.segments@.take(second.segments@.len() as int) == second.segments@);
            }
            first
        }
    }
}

/// Saturating sum of the lengths of a chord sequence.
fn sum_seg_lengths(segs: &Vec<LineSegment>) -> (r: i64)
    ensures
        r as int == segs_len_spec(segs@, segs@.len() as int),
{
    let mut acc: i64 = 0;
    let mut i: usize = 0;
    while i < segs.len()
        invariant
            i <= segs@.len(),
            acc as int == segs_len_spec(segs@, i as int),
        decreases segs@.len() - i,
    {
        let l = segs[i].length();
        acc = fx_add(acc, l);
        i = i + 1;
    }
    acc
}

/// Clamp a Q16.16 fraction into 0..=1.
fn clamp01(v: i32) -> (r: i32)
    ensures
        r as int == clamp01_spec(v as int),
{
    if v < 0 {
        0
    } else if v > FX_ONE {
        FX_ONE
    } else {
        v
    }
}

/// A Q16.16 fraction clamped into 0..=1.
pub open spec fn clamp01_spec(v: int) -> int {
    if v < 0 {
        0
    } else if v > 65536 {
        65536
    } else {
        v
    }
}

/// The result of trimming: an empty path for an empty range, the whole
/// path for a full range, and otherwise the extracted sub-range of the
/// flattened chords, wrapping around the end when `start > end`.
pub open spec fn trim_spec(segs: Seq<PathSeg>, start: int, end: int, tol: int) -> Seq<PathSeg> {
    if start == end {
        Seq::empty()
    } else if (start <= 0 && end >= 65536) || (start >= 65536 && end <= 0) {
        segs
    } else {
        let fsegs = flatten_spec(segs, tol);
        if fsegs.len() == 0 {
            Seq::empty()
        } else {
            let total = segs_len_spec(fsegs, fsegs.len() as int);
            let s = fx_mul_spec(clamp01_spec(start), total);
            let e = fx_mul_spec(clamp01_spec(end), total);
            if start < end {
                extract_spec(fsegs, s, e).out
            } else {
                extract_spec(fsegs, s, total).out + extract_spec(fsegs, 0, e).out
            }
        }
    }
}

/// The walk state of sub-range extraction.
pub struct ExtractState {
    /// Arc length consumed so far
    pub pos: int,
    /// Whether a first point has been emitted
    pub started: bool,
    /// Whether the walk has passed the end of the range
    pub done: bool,
    /// Commands emitted so far
    pub out: Seq<PathSeg>,
}

/// The effect of one chord on the extraction state for the range
/// `[from, to]`.
pub open spec fn extract_step(st: ExtractState, seg: LineSegment, from: int, to: int)
    -> ExtractState {
    if st.done {
        st
    } else {
        let len = seg_len_spec(seg);
        let next = fx_add_spec(st.pos, len);
        if next <= from {
            ExtractState { pos: next, ..st }
        } else if st.pos >= to {
            ExtractState { done: true, ..st }
        } else {
            let start_pt = if from > st.pos {
                point_along_spec(seg, fx_sub_spec(from, st.pos), len)
            } else {
                seg.from
            };
            let end_pt = if to < next {
                point_along_spec(seg, fx_sub_spec(to, st.pos), len)
            } else {
                seg.to
            };
            let with_start = if !st.started {
                st.out.push(PathSeg::MoveTo(start_pt))
            } else if from > st.pos {
                st.out.push(PathSeg::MoveTo(start_pt))
            } else {
                st.out.push(PathSeg::LineTo(start_pt))
            };
            ExtractState {
                pos: next,
                started: true,
                done: next >= to,
                out: with_start.push(PathSeg::LineTo(end_pt)),
            }
        }
    }
}

/// The extraction state after the first `i` chords.
pub open spec fn extract_iter(segs: Seq<LineSegment>, from: int, to: int, i: int) -> ExtractState
    decreases i,
{
    if i <= 0 {
        ExtractState { pos: 0, started: false, done: from >= to, out: Seq::empty() }
    } else {
        extract_step(extract_iter(segs, from, to, i - 1), segs[i - 1], from, to)
    }
}

/// The full extraction of the arc-length range `[from, to]`.
pub open spec fn extract_spec(segs: Seq<LineSegment>, from: int, to: int) -> ExtractState {
    extract_iter(segs, from, to, segs.len() as int)
}

/// Extract the linearized sub-path covering the arc-length range
/// `[from, to]` of the chords.
fn extract_range(segs: &Vec<LineSegment>, from: i64, to: i64) -> (r: Path)
    ensures
        r.segments@ == extract_spec(segs@, from as int, to as int).out,
{
    let mut result = Path::new();
    if from >= to {
        proof {
            lemma_extract_done(segs@, from as int, to as int, segs@.len() as int);
        }
        return result;
    }
    let mut pos: i64 = 0;
    let mut started = false;
    let mut i: usize = 0;
    let n = segs.len();
    while i < n
        invariant
            i <= n,
            n == segs@.len(),
            from < to,
            !extract_iter(segs@, from as int, to as int, i as int).done,
            pos as int == extract_iter(segs@, from as int, to as int, i as int).pos,
            started == extract_iter(segs@, from as int, to as int, i as int).started,
            result.segments@ == extract_iter(segs@, from as int, to as int, i as int).out,
        decreases n - i,
    {
        let seg = segs[i];
        let len = seg.length();
        let next = fx_add(pos, len);
        if next <= from {
            pos = next;
            i = i + 1;
            continue ;
        }
        if pos >= to {
            proof {
                lemma_extract_stays_done(segs@, from as int, to as int, i as int + 1,
                    segs@.len() as int);
            }
            return result;
        }
        let start_pt = if from > pos {
            point_along(seg, fx_sub(from, pos), len)
        } else {
            seg.from
        };
        let end_pt = if to < next {
            point_along(seg, fx_sub(to, pos), len)
        } else {
            seg.to
        };
        if !started {
            result.move_to(start_pt);
            started = true;
        } else if from > pos {
            result.move_to(start_pt);
        } else {
            result.line_to(start_pt);
        }
        result.line_to(end_pt);
        pos = next;
        if next >= to {
            proof {
                lemma_extract_stays_done(segs@, from as int, to as int, i as int + 1,
                    segs@.len() as int);
            }
            return result;
        }
        i = i + 1;
    }
    result
}

/// Once `done`, further chords leave the extraction state unchanged.
proof fn lemma_extract_stays_done(segs: Seq<LineSegment>, from: int, to: int, i: int, j: int)
    requires
        0 <= i <= j <= segs.len(),
        extract_iter(segs, from, to, i).done,
    ensures
        extract_iter(segs, from, to, j) == extract_iter(segs, from, to, i),
    decreases j - i,
{
    if j > i {
        lemma_extract_stays_done(segs, from, to, i, j - 1);
    }
}

/// An empty range is done from the start and emits nothing.
proof fn lemma_extract_done(segs: Seq<LineSegment>, from: int, to: int, i: int)
    requires
        from >= to,
        0 <= i <= segs.len(),
    ensures
        extract_iter(segs, from, to, i).out == Seq::<PathSeg>::empty(),
        extract_iter(segs, from, to, i).done,
    decreases i,
{
    if i > 0 {
        lemma_extract_done(segs, from, to, i - 1);
    }
}

/// The point a Q16.16 arc-length `dist` along a chord of length `len`.
fn point_along(seg: LineSegment, dist: i64, len: i64) -> (r: Vec2Fx)
    ensures
        r == point_along_spec(seg, dist as int, len as int),
{
    proof {
        crate::fixed::lemma_mul_bound(seg.to.x - seg.from.x, dist as int,
            0x8000_0000_0000_0000);
        crate::fixed::lemma_mul_bound(seg.to.y - seg.from.y, dist as int,
            0x8000_0000_0000_0000);
    }
    let dx: i128 = (seg.to.x as i128 - seg.from.x as i128) * dist as i128;
    let dy: i128 = (seg.to.y as i128 - seg.from.y as i128) * dist as i128;
    let ox = crate::fixed::rdiv128(dx, len);
    let oy = crate::fixed::rdiv128(dy, len);
    Vec2Fx {
        x: to_i32_sat(fx_add(seg.from.x as i64, ox)),
        y: to_i32_sat(fx_add(seg.from.y as i64, oy)),
    }
}

/// The midpoint of two points.
fn mid(a: Vec2Fx, b: Vec2Fx) -> (r: Vec2Fx)
    ensures
        r == mid_spec(a, b),
{
    let sx: i64 = a.x as i64 + b.x as i64;
    let sy: i64 = a.y as i64 + b.y as i64;
    let hx: i64 = if sx >= 0 {
        sx / 2
    } else {
        -((-sx) / 2)
    };
    let hy: i64 = if sy >= 0 {
        sy / 2
    } else {
        -((-sy) / 2)
    };
    Vec2Fx { x: hx as i32, y: hy as i32 }
}

/// Squared distance from `p` to the line through `a` and `b`, Q16.16.
fn point_line_distance_sq(p: Vec2Fx, a: Vec2Fx, b: Vec2Fx) -> (r: i64)
    ensures
        r as int == dist_sq_spec(p, a, b),
{
    let vx: i64 = b.x as i64 - a.x as i64;
    let vy: i64 = b.y as i64 - a.y as i64;
    let dot = fx_add(fx_mul(p.x as i64 - a.x as i64, vx), fx_mul(p.y as i64 - a.y as i64, vy));
    let vv = fx_add(fx_mul(vx, vx), fx_mul(vy, vy));
    let u = fx_div(dot, vv);
    let x = fx_add(a.x as i64, fx_mul(u, vx));
    let y = fx_add(a.y as i64, fx_mul(u, vy));
    let dx = fx_sub(x, p.x as i64);
    let dy = fx_sub(y, p.y as i64);
    fx_add(fx_mul(dx, dx), fx_mul(dy, dy))
}

/// Whether a cubic is flat enough to be replaced by its chord.
fn cubic_flat_enough(p0: Vec2Fx, c1: Vec2Fx, c2: Vec2Fx, p3: Vec2Fx, tol: i64) -> (r: bool)
    ensures
        r == flat_enough_spec(p0, c1, c2, p3, tol as int),
{
    let tt = fx_mul(tol, tol);
    let d1 = point_line_distance_sq(c1, p0, p3);
    let d2 = point_line_distance_sq(c2, p0, p3);
    d1 <= tt && d2 <= tt
}

/// Recursively subdivide a cubic until flat, appending chords to `out`.
fn flatten_cubic(
    p0: Vec2Fx,
    c1: Vec2Fx,
    c2: Vec2Fx,
    p3: Vec2Fx,
    tol: i64,
    depth: u32,
    out: &mut Vec<LineSegment>,
)
    ensures
        final(out)@ == old(out)@ + flat_cubic_spec(p0, c1, c2, p3, tol as int, depth as nat),
    decreases depth,
{
    if depth == 0 || cubic_flat_enough(p0, c1, c2, p3, tol) {
        out.push(LineSegment { from: p0, to: p3 });
        proof {
            assert(out@ =~= old(out)@ + flat_cubic_spec(p0, c1, c2, p3, tol as int,
                depth as nat));
        }
    } else {
        let m1 = mid(p0, c1);
        let m2 = mid(c1, c2);
        let m3 = mid(c2, p3);
        let m4 = mid(m1, m2);
        let m5 = mid(m2, m3);
        let m6 = mid(m4, m5);
        flatten_cubic(p0, m1, m4, m6, tol, depth - 1, out);
        flatten_cubic(m6, m5, m3, p3, tol, depth - 1, out);
        proof {
            assert(out@ =~= old(out)@ + flat_cubic_spec(p0, c1, c2, p3, tol as int,
                depth as nat));
        }
    }
}

} // verus!
