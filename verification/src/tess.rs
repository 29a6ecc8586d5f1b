//! Path tessellation: a triangle fan over the flattened polyline.
//!
//! The fan is anchored at the first flattened vertex; a final vertex that
//! exactly repeats the first is dropped.  The mesh is correct for convex or
//! nearly convex outlines, which is the documented contract.

use crate::path::{flatten_spec, trim_spec, LineSegment, Path};
use crate::types::Vec2Fx;
use vstd::prelude::*;

verus! {

/// A simple triangle mesh produced by tessellation.
#[derive(Debug, Clone)]
pub struct Mesh {
    /// Vertex positions
    pub vertices: Vec<Vec2Fx>,
    /// Index buffer (triples)
    pub indices: Vec<u32>,
}

impl Default for Mesh {
    /// An empty mesh.
    fn default() -> (r: Mesh)
        ensures
            r.vertices@.len() == 0,
            r.indices@.len() == 0,
    {
        Mesh { vertices: Vec::new(), indices: Vec::new() }
    }
}

/// The fan vertices of a chord sequence: the first chord's start point, then
/// every chord's end point, with an exactly repeated final vertex dropped.
pub open spec fn fan_verts_spec(fsegs: Seq<LineSegment>) -> Seq<Vec2Fx> {
    if fsegs.len() == 0 {
        Seq::empty()
    } else {
        let raw = seq![fsegs[0].from] + Seq::new(fsegs.len(), |i: int| fsegs[i].to);
        if raw.len() > 1 && raw.last() == raw[0] {
            raw.drop_last()
        } else {
            raw
        }
    }
}

/// The number of fan triangles over `n` vertices.
pub open spec fn fan_tri_count(n: int) -> int {
    if 2 <= n <= 0xffff_ffff {
        n - 2
    } else {
        0
    }
}

/// The fan index buffer over `n` vertices: the triples `(0, i, i + 1)`.
pub open spec fn fan_indices_spec(n: int) -> Seq<u32> {
    Seq::new((3 * fan_tri_count(n)) as nat, |k: int|
        (if k % 3 == 0 {
            0
        } else if k % 3 == 1 {
            k / 3 + 1
        } else {
            k / 3 + 2
        }) as u32)
}

/// The chords that tessellation triangulates: the path flattened, after
/// trimming to the mask range when one is given.
pub open spec fn tess_segs_spec(segs: Seq<crate::path::PathSeg>, tol: int, mask: Option<
    (i32, i32),
>) -> Seq<LineSegment> {
    match mask {
        Some((s, e)) => flatten_spec(trim_spec(segs, s as int, e as int, tol), tol),
        None => flatten_spec(segs, tol),
    }
}

/// Tessellate a path into a triangle fan, optionally trimming the length to
/// the Q16.16 range `[start, end]` before tessellation.
pub fn tessellate(path: &Path, tolerance: i32, mask: Option<(i32, i32)>) -> (r: Mesh)
    ensures
        r.vertices@ == fan_verts_spec(tess_segs_spec(path.segments@, tolerance as int, mask)),
        r.indices@ == fan_indices_spec(r.vertices@.len() as int),
{
    let tmp: Path;
    let src: &Path = match mask {
        Some((s, e)) => {
            tmp = path.trim(s, e, tolerance);
            &tmp
        },
        None => { path },
    };
    tessellate_impl(src, tolerance)
}

/// Fan-triangulate the flattened polyline of a path.
fn tessellate_impl(path: &Path, tolerance: i32) -> (r: Mesh)
    ensures
        r.vertices@ == fan_verts_spec(flatten_spec(path.segments@, tolerance as int)),
        r.indices@ == fan_indices_spec(r.vertices@.len() as int),
{
    let segs = path.flatten(tolerance);
    if segs.len() == 0 {
        let r = Mesh { vertices: Vec::new(), indices: Vec::new() };
        proof {
            assert(r.vertices@ =~= fan_verts_spec(flatten_spec(path.segments@, tolerance as int)));
            assert(r.indices@ =~= fan_indices_spec(0));
        }
        return r;
    }
    let ghost fsegs = segs@;
    let mut vertices: Vec<Vec2Fx> = Vec::new();
    vertices.push(segs[0].from);
    let mut i: usize = 0;
    while i < segs.len()
        invariant
            i <= fsegs.len(),
            segs@ == fsegs,
            fsegs.len() > 0,
            vertices@ == seq![fsegs[0].from] + Seq::new(i as nat, |j: int| fsegs[j].to),
        decreases fsegs.len() - i,
    {
        vertices.push(segs[i].to);
        proof {
            assert(vertices@ =~= seq![fsegs[0].from] + Seq::new((i + 1) as nat, |j: int|
                fsegs[j].to));
        }
        i = i + 1;
    }
    let ghost raw = seq![fsegs[0].from] + Seq::new(fsegs.len(), |j: int| fsegs[j].to);
    proof {
        assert(vertices@ =~= raw);
    }
    if vertices.len() > 1 {
        let last = vertices[vertices.len() - 1];
        let first = vertices[0];
        if last.x == first.x && last.y == first.y {
            vertices.pop();
            proof {
                assert(vertices@ =~= raw.drop_last());
            }
        }
    }
    let n = vertices.len();
    let mut indices: Vec<u32> = Vec::new();
    if n >= 2 && n <= 0xffff_ffff {
        let mut t: usize = 1;
        while t + 1 < n
            invariant
                1 <= t,
                t + 1 <= n,
                n <= 0xffff_ffff,
                n == vertices@.len(),
                indices@.len() == 3 * (t - 1),
                forall|k: int|
                    0 <= k < indices@.len() ==> indices@[k] == fan_indices_spec(n as int)[k],
            decreases n - t,
        {
            indices.push(0);
            indices.push(t as u32);
            indices.push((t + 1) as u32);
            t = t + 1;
        }
    }
    proof {
        assert(indices@ =~= fan_indices_spec(n as int));
    }
    Mesh { vertices, indices }
}

} // verus!
