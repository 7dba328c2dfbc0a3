//! The global normaliser: folds a global bounding box over every vertex,
//! takes each triangle's reference point (the midpoint of the triangle's own
//! bounding box), normalises it into the unit cube by the global extents, and
//! hands the quantised point to the Morton encoder.

use vstd::prelude::*;
use crate::types::{Vertex, Triangle, Aabb, min_i32, max_i32, min3_i32, max3_i32, tri_in_bounds,
    imin, imax};
use crate::morton::{Morton, spec_morton, morton_3d};
use vstd::arithmetic::div_mod::lemma_div_pos_is_pos;

verus! {

/// The least x coordinate among the vertices (for a non-empty sequence).
pub open spec fn glob_min_x(vs: Seq<Vertex>) -> i32
    decreases vs.len(),
{
    if vs.len() <= 1 {
        vs[0].x
    } else {
        min_i32(glob_min_x(vs.drop_last()), vs.last().x)
    }
}

pub open spec fn glob_max_x(vs: Seq<Vertex>) -> i32
    decreases vs.len(),
{
    if vs.len() <= 1 {
        vs[0].x
    } else {
        max_i32(glob_max_x(vs.drop_last()), vs.last().x)
    }
}

pub open spec fn glob_min_y(vs: Seq<Vertex>) -> i32
    decreases vs.len(),
{
    if vs.len() <= 1 {
        vs[0].y
    } else {
        min_i32(glob_min_y(vs.drop_last()), vs.last().y)
    }
}

pub open spec fn glob_max_y(vs: Seq<Vertex>) -> i32
    decreases vs.len(),
{
    if vs.len() <= 1 {
        vs[0].y
    } else {
        max_i32(glob_max_y(vs.drop_last()), vs.last().y)
    }
}

pub open spec fn glob_min_z(vs: Seq<Vertex>) -> i32
    decreases vs.len(),
{
    if vs.len() <= 1 {
        vs[0].z
    } else {
        min_i32(glob_min_z(vs.drop_last()), vs.last().z)
    }
}

pub open spec fn glob_max_z(vs: Seq<Vertex>) -> i32
    decreases vs.len(),
{
    if vs.len() <= 1 {
        vs[0].z
    } else {
        max_i32(glob_max_z(vs.drop_last()), vs.last().z)
    }
}

/// The global bounding box encloses every vertex.
pub proof fn lemma_glob_bounds(vs: Seq<Vertex>)
    ensures
        forall|i: int|
            #![trigger vs[i]]
            0 <= i < vs.len() ==> glob_min_x(vs) <= vs[i].x && vs[i].x <= glob_max_x(vs)
                && glob_min_y(vs) <= vs[i].y && vs[i].y <= glob_max_y(vs) && glob_min_z(vs)
                <= vs[i].z && vs[i].z <= glob_max_z(vs),
    decreases vs.len(),
{
    if vs.len() > 1 {
        lemma_glob_bounds(vs.drop_last());
        assert(forall|i: int| #![trigger vs[i]] 0 <= i < vs.len() - 1 ==> vs.drop_last()[i] == vs[i]);
    }
}

/// Normalise-and-quantise one axis. `d` is twice the reference point's
/// offset from the global minimum, `len` the global extent of the axis: the
/// result is `floor(((d / 2) * 1024) / len)` clamped to the 10-bit lattice,
/// and 0 on a degenerate (zero-extent) axis.
pub open spec fn spec_quantize(d: int, len: int) -> u32 {
    if len <= 0 {
        0
    } else {
        let q = (d / 2) * 1024 / len;
        if q < 0 {
            0
        } else if q > 1023 {
            1023
        } else {
            q as u32
        }
    }
}

fn quantize_axis(d: i64, len: i64) -> (q: u32)
    requires
        0 <= d,
        d <= 0x2_0000_0000,
        len <= 0x1_0000_0000,
    ensures
        q == spec_quantize(d as int, len as int),
        q < 1024,
{
    if len <= 0 {
        0
    } else {
        let q = ((d as u64) / 2) * 1024 / (len as u64);
        proof {
            lemma_div_pos_is_pos((d as int / 2) * 1024, len as int);
        }
        if q > 1023 {
            1023
        } else {
            q as u32
        }
    }
}

/// The Morton code of one triangle's reference point: per axis, the midpoint
/// of the triangle's own bounding box, normalised by the global extents.
pub open spec fn spec_tri_code(t: Triangle, vs: Seq<Vertex>) -> Morton {
    let ax = vs[t.a as int];
    let bx = vs[t.b as int];
    let cx = vs[t.c as int];
    let qx = spec_quantize(
        (min3_i32(ax.x, bx.x, cx.x) - glob_min_x(vs)) + (max3_i32(ax.x, bx.x, cx.x) - glob_min_x(
            vs,
        )),
        glob_max_x(vs) - glob_min_x(vs),
    );
    let qy = spec_quantize(
        (min3_i32(ax.y, bx.y, cx.y) - glob_min_y(vs)) + (max3_i32(ax.y, bx.y, cx.y) - glob_min_y(
            vs,
        )),
        glob_max_y(vs) - glob_min_y(vs),
    );
    let qz = spec_quantize(
        (min3_i32(ax.z, bx.z, cx.z) - glob_min_z(vs)) + (max3_i32(ax.z, bx.z, cx.z) - glob_min_z(
            vs,
        )),
        glob_max_z(vs) - glob_min_z(vs),
    );
    Morton(spec_morton(qx, qy, qz))
}

/// One Morton code per triangle, in the order the triangles were given.
pub open spec fn spec_codes(vs: Seq<Vertex>, ts: Seq<Triangle>) -> Seq<Morton> {
    ts.map_values(|t: Triangle| spec_tri_code(t, vs))
}

/// Folds the global bounding box over every vertex.
fn global_aabb(vertices: &Vec<Vertex>) -> (gb: Aabb)
    requires
        vertices@.len() > 0,
    ensures
        gb.x_min == glob_min_x(vertices@),
        gb.x_max == glob_max_x(vertices@),
        gb.y_min == glob_min_y(vertices@),
        gb.y_max == glob_max_y(vertices@),
        gb.z_min == glob_min_z(vertices@),
        gb.z_max == glob_max_z(vertices@),
{
    let ghost vs = vertices@;
    let v0 = vertices[0];
    let mut gb = Aabb {
        x_min: v0.x,
        x_max: v0.x,
        y_min: v0.y,
        y_max: v0.y,
        z_min: v0.z,
        z_max: v0.z,
    };
    let mut i: usize = 1;
    while i < vertices.len()
        invariant
            1 <= i <= vs.len(),
            vertices@ == vs,
            gb.x_min == glob_min_x(vs.take(i as int)),
            gb.x_max == glob_max_x(vs.take(i as int)),
            gb.y_min == glob_min_y(vs.take(i as int)),
            gb.y_max == glob_max_y(vs.take(i as int)),
            gb.z_min == glob_min_z(vs.take(i as int)),
            gb.z_max == glob_max_z(vs.take(i as int)),
        decreases vs.len() - i,
    {
        let v = vertices[i];
        proof {
            assert(vs.take(i + 1).drop_last() =~= vs.take(i as int));
            assert(vs.take(i + 1).last() == vs[i as int]);
        }
        gb = Aabb {
            x_min: imin(gb.x_min, v.x),
            x_max: imax(gb.x_max, v.x),
            y_min: imin(gb.y_min, v.y),
            y_max: imax(gb.y_max, v.y),
            z_min: imin(gb.z_min, v.z),
            z_max: imax(gb.z_max, v.z),
        };
        i = i + 1;
    }
    proof {
        assert(vs.take(vs.len() as int) =~= vs);
    }
    gb
}

/// The Morton code of one triangle, from the precomputed global box.
fn tri_code(t: &Triangle, vertices: &Vec<Vertex>, gb: &Aabb) -> (r: Morton)
    requires
        tri_in_bounds(*t, vertices@.len()),
        gb.x_min == glob_min_x(vertices@),
        gb.x_max == glob_max_x(vertices@),
        gb.y_min == glob_min_y(vertices@),
        gb.y_max == glob_max_y(vertices@),
        gb.z_min == glob_min_z(vertices@),
        gb.z_max == glob_max_z(vertices@),
    ensures
        r == spec_tri_code(*t, vertices@),
{
    proof {
        lemma_glob_bounds(vertices@);
    }
    let va = vertices[t.a as usize];
    let vb = vertices[t.b as usize];
    let vc = vertices[t.c as usize];
    let mnx = imin(imin(va.x, vb.x), vc.x);
    let mxx = imax(imax(va.x, vb.x), vc.x);
    let mny = imin(imin(va.y, vb.y), vc.y);
    let mxy = imax(imax(va.y, vb.y), vc.y);
    let mnz = imin(imin(va.z, vb.z), vc.z);
    let mxz = imax(imax(va.z, vb.z), vc.z);
    let qx = quantize_axis(
        (mnx as i64 - gb.x_min as i64) + (mxx as i64 - gb.x_min as i64),
        gb.x_max as i64 - gb.x_min as i64,
    );
    let qy = quantize_axis(
        (mny as i64 - gb.y_min as i64) + (mxy as i64 - gb.y_min as i64),
        gb.y_max as i64 - gb.y_min as i64,
    );
    let qz = quantize_axis(
        (mnz as i64 - gb.z_min as i64) + (mxz as i64 - gb.z_min as i64),
        gb.z_max as i64 - gb.z_min as i64,
    );
    morton_3d(qx, qy, qz)
}

/// One Morton code per triangle: fold the global box over all vertices, then
/// normalise and encode each triangle's reference point.
pub fn normalize_and_encode(vertices: &Vec<Vertex>, triangles: &Vec<Triangle>) -> (r: Vec<Morton>)
    requires
        vertices@.len() > 0,
        forall|i: int|
            0 <= i < triangles@.len() ==> tri_in_bounds(#[trigger] triangles@[i], vertices@.len()),
    ensures
        r@ == spec_codes(vertices@, triangles@),
{
    let gb = global_aabb(vertices);
    let mut r: Vec<Morton> = Vec::new();
    let mut i: usize = 0;
    while i < triangles.len()
        invariant
            0 <= i <= triangles@.len(),
            r@.len() == i,
            vertices@.len() > 0,
            forall|k: int|
                0 <= k < triangles@.len() ==> tri_in_bounds(
                    #[trigger] triangles@[k],
                    vertices@.len(),
                ),
            gb.x_min == glob_min_x(vertices@),
            gb.x_max == glob_max_x(vertices@),
            gb.y_min == glob_min_y(vertices@),
            gb.y_max == glob_max_y(vertices@),
            gb.z_min == glob_min_z(vertices@),
            gb.z_max == glob_max_z(vertices@),
            forall|k: int| 0 <= k < i ==> #[trigger] r@[k] == spec_tri_code(triangles@[k], vertices@),
        decreases triangles@.len() - i,
    {
        let c = tri_code(&triangles[i], vertices, &gb);
        r.push(c);
        i = i + 1;
    }
    proof {
        assert(r@ =~= spec_codes(vertices@, triangles@));
    }
    r
}

} // verus!
