//! Construction of the flat bounding volume hierarchy over a mesh: encode,
//! sort, split, flatten, link. The result is pinned to a functional model
//! of the whole pipeline, so two runs over one mesh give one array.

use vstd::prelude::*;
use crate::types::{Vertex, Triangle, BvhError, tri_in_bounds};
use crate::morton::Morton;
use crate::normalize::{normalize_and_encode, spec_codes, spec_tri_code};
use crate::sort::{CodedTriangle, sort_coded, spec_sort, code_seq, tri_seq, lemma_sort_props};
use crate::hierarchy::{BVH, generate_hierarchy, spec_hierarchy};
use crate::flatten::{Node, flatten_tree, spec_flatten, tree_size, tree_leaves, tree_in_bounds,
    lemma_tree_size, lemma_flatten_len, lemma_flatten_last};
use crate::parents::{set_parents, spec_link, children_below};
use crate::props::{flat_wf_at, parent_ok, tris_of, lemma_flatten_wf, lemma_flatten_tris,
    lemma_tris_of_data, lemma_hierarchy_props, lemma_linked_props};

verus! {

/// The coded triangles of a mesh, in input order: each triangle paired
/// with the Morton code of its reference point.
pub open spec fn spec_coded(vs: Seq<Vertex>, ts: Seq<Triangle>) -> Seq<CodedTriangle> {
    ts.map_values(|t: Triangle| CodedTriangle { code: spec_tri_code(t, vs), tri: t })
}

/// The functional model of the whole construction: sort the coded
/// triangles, build the radix tree over the sorted codes, flatten it from
/// position 0, link the parents from the root. A function of the mesh
/// alone.
pub open spec fn spec_construct(vs: Seq<Vertex>, ts: Seq<Triangle>) -> Seq<Node> {
    let sorted = spec_sort(spec_coded(vs, ts));
    let tree = spec_hierarchy(code_seq(sorted), tri_seq(sorted), 0, ts.len() - 1);
    spec_link(spec_flatten(tree, 0, vs), tree_size(tree) - 1)
}

/// A mesh is accepted exactly when it has at least one triangle and every
/// triangle indexes only existing vertices.
pub open spec fn mesh_ok(vs: Seq<Vertex>, ts: Seq<Triangle>) -> bool {
    ts.len() > 0 && forall|i: int| 0 <= i < ts.len() ==> tri_in_bounds(#[trigger] ts[i], vs.len())
}

/// Construction is deterministic: the array is a function of the mesh, so
/// two runs over the same vertices and triangles return identical arrays,
/// byte for byte.
pub proof fn lemma_construct_deterministic(
    vs: Seq<Vertex>,
    ts: Seq<Triangle>,
    r1: Seq<Node>,
    r2: Seq<Node>,
)
    requires
        r1 == spec_construct(vs, ts),
        r2 == spec_construct(vs, ts),
    ensures
        r1 == r2,
{
}

/// Builds the flat hierarchy over the mesh by the linear technique: one
/// Morton code per triangle, an unstable-by-key but deterministic sort, a
/// prefix-split radix tree, a post-order flattening with bottom-up box
/// merging, and parent back-links.
///
/// On success the array holds `2 L - 1` nodes for `L` triangles, every
/// inner node's box is the exact union of its children's, every node but
/// the root points back at its parent, and the leaves carry exactly the
/// input triangles. An empty mesh and an out-of-range vertex index are
/// refused, in that order of detection.
#[verifier::rlimit(100)]
pub fn construct_bvh(vertices: &Vec<Vertex>, indices: &Vec<Triangle>) -> (r: Result<
    Vec<Node>,
    BvhError,
>)
    requires
        indices@.len() <= 0x2000_0000,
    ensures
        r is Ok <==> mesh_ok(vertices@, indices@),
        match r {
            Ok(ns) => {
                &&& ns@ == spec_construct(vertices@, indices@)
                &&& ns@.len() == 2 * indices@.len() - 1
                &&& forall|j: int|
                    0 <= j < ns@.len() ==> #[trigger] flat_wf_at(ns@, 0, j, vertices@)
                &&& forall|j: int| 0 <= j < ns@.len() - 1 ==> #[trigger] parent_ok(ns@, j)
                &&& ns@[ns@.len() - 1].parent == 0
                &&& tris_of(ns@).to_multiset() == indices@.to_multiset()
            },
            Err(e) => {
                &&& (e is EmptyMesh <==> indices@.len() == 0)
                &&& (e is IndexOutOfRange <==> indices@.len() > 0)
            },
        },
{
    let ghost vs = vertices@;
    let ghost ts = indices@;
    let n = indices.len();
    if n == 0 {
        return Err(BvhError::EmptyMesh);
    }
    let mut i: usize = 0;
    while i < n
        invariant
            0 <= i <= n,
            n == ts.len(),
            indices@ == ts,
            vertices@ == vs,
            forall|k: int| 0 <= k < i ==> tri_in_bounds(#[trigger] ts[k], vs.len()),
        decreases n - i,
    {
        let t = indices[i];
        if !((t.a as usize) < vertices.len() && (t.b as usize) < vertices.len() && (t.c as usize)
            < vertices.len()) {
            proof {
                assert(!tri_in_bounds(ts[i as int], vs.len()));
            }
            return Err(BvhError::IndexOutOfRange);
        }
        i = i + 1;
    }
    proof {
        assert(tri_in_bounds(ts[0], vs.len()));
        assert(vs.len() > 0);
    }
    let codes = normalize_and_encode(vertices, indices);
    let mut coded: Vec<CodedTriangle> = Vec::new();
    let mut i: usize = 0;
    while i < n
        invariant
            0 <= i <= n,
            n == ts.len(),
            indices@ == ts,
            vertices@ == vs,
            codes@ == spec_codes(vs, ts),
            coded@.len() == i,
            forall|k: int| 0 <= k < i ==> #[trigger] coded@[k] == spec_coded(vs, ts)[k],
        decreases n - i,
    {
        coded.push(CodedTriangle { code: codes[i], tri: indices[i] });
        i = i + 1;
    }
    proof {
        assert(coded@ =~= spec_coded(vs, ts));
    }
    let sorted = sort_coded(coded);
    let ghost ssorted = spec_sort(spec_coded(vs, ts));
    let mut zorder: Vec<Morton> = Vec::new();
    let mut tris: Vec<Triangle> = Vec::new();
    let mut i: usize = 0;
    while i < n
        invariant
            0 <= i <= n,
            n == ts.len(),
            sorted@ == ssorted,
            ssorted.len() == n,
            zorder@.len() == i,
            tris@.len() == i,
            forall|k: int| 0 <= k < i ==> #[trigger] zorder@[k] == ssorted[k].code,
            forall|k: int| 0 <= k < i ==> #[trigger] tris@[k] == ssorted[k].tri,
        decreases n - i,
    {
        zorder.push(sorted[i].code);
        tris.push(sorted[i].tri);
        i = i + 1;
    }
    proof {
        assert(zorder@ =~= code_seq(ssorted));
        assert(tris@ =~= tri_seq(ssorted));
        lemma_sort_props(spec_coded(vs, ts));
        assert(tri_seq(spec_coded(vs, ts)) =~= ts);
        assert forall|k: int| 0 <= k <= n - 1 implies tri_in_bounds(
            #[trigger] tris@[k],
            vs.len(),
        ) by {
            let a = tris@[k];
            tris@.to_multiset_ensures();
            ts.to_multiset_ensures();
            assert(tris@.contains(a));
            assert(tris@.to_multiset().count(a) > 0);
            assert(tris@.to_multiset() == tri_seq(ssorted).to_multiset());
            assert(tri_seq(ssorted).to_multiset() == tri_seq(spec_coded(vs, ts)).to_multiset());
            assert(ts.to_multiset().count(a) > 0);
            assert(ts.contains(a));
            let w = choose|w: int| 0 <= w < ts.len() && ts[w] == a;
            assert(tri_in_bounds(ts[w], vs.len()));
        }
    }
    let tree = generate_hierarchy(&zorder, &tris, 0, n - 1);
    proof {
        lemma_hierarchy_props(zorder@, tris@, 0, n - 1, vs.len());
        lemma_tree_size(tree);
        assert(tree_leaves(tree) == tris@.subrange(0, n as int));
        assert(tris@.subrange(0, n as int) =~= tris@);
        assert(tree_size(tree) == 2 * n - 1);
    }
    let mut flat: Vec<Node> = Vec::new();
    let root = flatten_tree(&mut flat, &tree, vertices);
    let ghost f = spec_flatten(tree, 0, vs);
    if flat.len() > 1 {
        proof {
            lemma_flatten_last(tree, 0, vs);
            if tree is Leaf {
                assert(tree_size(tree) == 1);
            }
            assert(tree is Node);
            assert(flat@[root as int].data is Node);
            lemma_flatten_wf(tree, 0, vs);
            assert forall|j: int| 0 <= j < flat@.len() implies match (#[trigger] flat@[j]).data {
                crate::flatten::NodeData::Node(ind) => ind.left_child < j && ind.right_child < j,
                crate::flatten::NodeData::Leaf(_) => true,
            } by {
                assert(flat_wf_at(f, 0, j, vs));
            }
            assert(children_below(flat@));
        }
        set_parents(&mut flat, root);
    } else {
        proof {
            assert(tree_size(tree) == 1);
            if tree is Node {
                lemma_tree_size(tree);
            }
            assert(tree is Leaf);
            assert(f[0].data is Leaf);
            assert(spec_link(f, 0) == f);
        }
    }
    proof {
        assert(flat@ == spec_link(f, tree_size(tree) - 1));
        assert(flat@ == spec_construct(vs, ts));
        lemma_linked_props(tree, vs);
        assert(flat@.len() == 2 * ts.len() - 1);
        // the root keeps the sentinel parent
        lemma_flatten_last(tree, 0, vs);
        assert(flat@[flat@.len() - 1] == f[f.len() - 1]);
        assert(flat@[flat@.len() - 1].parent == 0);
        // every inner node still merges exactly its children's boxes
        lemma_flatten_wf(tree, 0, vs);
        assert forall|j: int| 0 <= j < flat@.len() implies #[trigger] flat_wf_at(
            flat@,
            0,
            j,
            vs,
        ) by {
            assert(flat_wf_at(f, 0, j, vs));
            assert(flat@[j].data == f[j].data);
            match f[j].data {
                crate::flatten::NodeData::Node(ind) => {
                    assert(flat@[ind.left_child - 0].data == f[ind.left_child - 0].data);
                    assert(flat@[ind.right_child - 0].data == f[ind.right_child - 0].data);
                },
                crate::flatten::NodeData::Leaf(_) => {
                },
            }
        }
        // the leaves carry exactly the input triangles
        lemma_flatten_tris(tree, 0, vs);
        lemma_tris_of_data(flat@, f);
        assert(tris_of(flat@) == tree_leaves(tree));
        assert(tris_of(flat@).to_multiset() == ts.to_multiset());
    }
    Ok(flat)
}

/// A mesh bundled with the hierarchy built over it.
pub struct Object {
    pub vertices: Vec<Vertex>,
    pub indices: Vec<Triangle>,
    pub bvh: Vec<Node>,
}

impl Object {
    /// Bundles a mesh with its hierarchy; vertices and triangles are kept
    /// exactly as given.
    pub fn new(vertices: Vec<Vertex>, indices: Vec<Triangle>) -> (r: Result<Object, BvhError>)
        requires
            indices@.len() <= 0x2000_0000,
        ensures
            r is Ok <==> mesh_ok(vertices@, indices@),
            match r {
                Ok(o) => o.vertices@ == vertices@ && o.indices@ == indices@ && o.bvh@
                    == spec_construct(vertices@, indices@),
                Err(e) => {
                    &&& (e is EmptyMesh <==> indices@.len() == 0)
                    &&& (e is IndexOutOfRange <==> indices@.len() > 0)
                },
            },
    {
        match construct_bvh(&vertices, &indices) {
            Ok(bvh) => Ok(Object { vertices, indices, bvh }),
            Err(e) => Err(e),
        }
    }
}

} // verus!
