//! The mesh data model: vertices, triangles, bounding boxes, and the errors
//! construction can report.

use vstd::prelude::*;

verus! {

/// A vertex position. Coordinates are fixed-point integers: callers pick a
/// scale, quantise their geometry once, and every later stage is exact.
#[derive(Clone, Copy, PartialEq, Eq, Structural, Debug)]
pub struct Vertex {
    pub x: i32,
    pub y: i32,
    pub z: i32,
}

/// A triangle as an index triple into a vertex sequence.
#[derive(Clone, Copy, PartialEq, Eq, Structural, Debug)]
pub struct Triangle {
    pub a: u32,
    pub b: u32,
    pub c: u32,
}

/// An axis-aligned bounding box: per-axis minimum and maximum.
#[derive(Clone, Copy, PartialEq, Eq, Structural, Debug)]
pub struct Aabb {
    pub x_min: i32,
    pub x_max: i32,
    pub y_min: i32,
    pub y_max: i32,
    pub z_min: i32,
    pub z_max: i32,
}

/// Why construction refused a mesh.
#[derive(Clone, Copy, PartialEq, Eq, Structural, Debug)]
pub enum BvhError {
    /// No triangles were supplied; a hierarchy over zero leaves is undefined.
    EmptyMesh,
    /// Some triangle names a vertex index at or past the end of the vertex list.
    IndexOutOfRange,
}

pub open spec fn min_i32(a: i32, b: i32) -> i32 {
    if a <= b {
        a
    } else {
        b
    }
}

pub open spec fn max_i32(a: i32, b: i32) -> i32 {
    if a >= b {
        a
    } else {
        b
    }
}

pub open spec fn min3_i32(a: i32, b: i32, c: i32) -> i32 {
    min_i32(min_i32(a, b), c)
}

pub open spec fn max3_i32(a: i32, b: i32, c: i32) -> i32 {
    max_i32(max_i32(a, b), c)
}

/// All three vertex indices of `t` fall short of `n`.
pub open spec fn tri_in_bounds(t: Triangle, n: nat) -> bool {
    t.a < n && t.b < n && t.c < n
}

/// The smallest box enclosing both `a` and `b`, axis by axis.
pub open spec fn bb_union(a: Aabb, b: Aabb) -> Aabb {
    Aabb {
        x_min: min_i32(a.x_min, b.x_min),
        x_max: max_i32(a.x_max, b.x_max),
        y_min: min_i32(a.y_min, b.y_min),
        y_max: max_i32(a.y_max, b.y_max),
        z_min: min_i32(a.z_min, b.z_min),
        z_max: max_i32(a.z_max, b.z_max),
    }
}

pub fn imin(a: i32, b: i32) -> (r: i32)
    ensures
        r == min_i32(a, b),
{
    if a <= b {
        a
    } else {
        b
    }
}

pub fn imax(a: i32, b: i32) -> (r: i32)
    ensures
        r == max_i32(a, b),
{
    if a >= b {
        a
    } else {
        b
    }
}

pub fn union_aabb(a: &Aabb, b: &Aabb) -> (r: Aabb)
    ensures
        r == bb_union(*a, *b),
{
    Aabb {
        x_min: imin(a.x_min, b.x_min),
        x_max: imax(a.x_max, b.x_max),
        y_min: imin(a.y_min, b.y_min),
        y_max: imax(a.y_max, b.y_max),
        z_min: imin(a.z_min, b.z_min),
        z_max: imax(a.z_max, b.z_max),
    }
}

} // verus!
