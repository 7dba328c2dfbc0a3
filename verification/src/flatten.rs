//! The tree flattener: a post-order walk appends the tree's nodes to a flat
//! array. A leaf carries its triangle; an inner node carries the array
//! positions of its two children and the union of their bounding boxes,
//! computed bottom-up (a leaf child's box on demand from its vertices).

use vstd::prelude::*;
use crate::types::{Vertex, Triangle, Aabb, min3_i32, max3_i32, tri_in_bounds, bb_union, imin,
    imax, union_aabb};
use crate::hierarchy::BVH;

verus! {

/// An inner node's payload: the merged box and the array positions of the
/// two children.
#[derive(Clone, Copy, PartialEq, Eq, Structural, Debug)]
pub struct InnerNodeData {
    pub bounding_box: Aabb,
    pub left_child: u32,
    pub right_child: u32,
}

/// A node's payload, tagged by kind.
#[derive(Clone, Copy, PartialEq, Eq, Structural, Debug)]
pub enum NodeData {
    Leaf(Triangle),
    Node(InnerNodeData),
}

/// One entry of the flat hierarchy: a payload and the array position of the
/// parent (0, the sentinel, for the root).
#[derive(Clone, Copy, PartialEq, Eq, Structural, Debug)]
pub struct Node {
    pub data: NodeData,
    pub parent: u32,
}

impl Node {
    pub fn is_leaf(&self) -> (r: bool)
        ensures
            r == (self.data is Leaf),
    {
        matches!(self.data, NodeData::Leaf(_))
    }
}

/// The bounding box of one triangle: per-axis extremes of its three
/// vertices.
pub open spec fn leaf_bb(t: Triangle, vs: Seq<Vertex>) -> Aabb {
    let va = vs[t.a as int];
    let vb = vs[t.b as int];
    let vc = vs[t.c as int];
    Aabb {
        x_min: min3_i32(va.x, vb.x, vc.x),
        x_max: max3_i32(va.x, vb.x, vc.x),
        y_min: min3_i32(va.y, vb.y, vc.y),
        y_max: max3_i32(va.y, vb.y, vc.y),
        z_min: min3_i32(va.z, vb.z, vc.z),
        z_max: max3_i32(va.z, vb.z, vc.z),
    }
}

/// The box a payload stands for: an inner node's stored box, a leaf's box
/// recomputed from its vertices.
pub open spec fn data_bb(d: NodeData, vs: Seq<Vertex>) -> Aabb {
    match d {
        NodeData::Leaf(t) => leaf_bb(t, vs),
        NodeData::Node(ind) => ind.bounding_box,
    }
}

/// The exact bounding box of a subtree: a leaf's own box, or the union of
/// the children's.
pub open spec fn tree_bb(t: BVH, vs: Seq<Vertex>) -> Aabb
    decreases t,
{
    match t {
        BVH::Leaf(tr) => leaf_bb(tr, vs),
        BVH::Node(l, r) => bb_union(tree_bb(*l, vs), tree_bb(*r, vs)),
    }
}

/// How many nodes the subtree flattens to.
pub open spec fn tree_size(t: BVH) -> int
    decreases t,
{
    match t {
        BVH::Leaf(_) => 1,
        BVH::Node(l, r) => tree_size(*l) + tree_size(*r) + 1,
    }
}

/// The subtree's triangles, in leaf order.
pub open spec fn tree_leaves(t: BVH) -> Seq<Triangle>
    decreases t,
{
    match t {
        BVH::Leaf(tr) => seq![tr],
        BVH::Node(l, r) => tree_leaves(*l) + tree_leaves(*r),
    }
}

/// Every triangle of the subtree indexes fewer than `n` vertices.
pub open spec fn tree_in_bounds(t: BVH, n: nat) -> bool
    decreases t,
{
    match t {
        BVH::Leaf(tr) => tri_in_bounds(tr, n),
        BVH::Node(l, r) => tree_in_bounds(*l, n) && tree_in_bounds(*r, n),
    }
}

/// A flattened subtree holds one node per leaf and per inner node: an odd
/// count, one less than twice its leaves.
pub proof fn lemma_tree_size(t: BVH)
    ensures
        tree_size(t) >= 1,
        tree_size(t) == 2 * tree_leaves(t).len() - 1,
    decreases t,
{
    match t {
        BVH::Leaf(_) => {
        },
        BVH::Node(l, r) => {
            lemma_tree_size(*l);
            lemma_tree_size(*r);
        },
    }
}

/// The nodes a subtree contributes when flattened starting at array
/// position `off`: left subtree, right subtree, then the subtree's own
/// node, every parent field still the sentinel 0.
pub open spec fn spec_flatten(t: BVH, off: int, vs: Seq<Vertex>) -> Seq<Node>
    decreases t,
{
    match t {
        BVH::Leaf(tr) => seq![Node { data: NodeData::Leaf(tr), parent: 0 }],
        BVH::Node(l, r) => {
            let fl = spec_flatten(*l, off, vs);
            let fr = spec_flatten(*r, off + tree_size(*l), vs);
            fl + fr + seq![
                Node {
                    data: NodeData::Node(
                        InnerNodeData {
                            bounding_box: bb_union(tree_bb(*l, vs), tree_bb(*r, vs)),
                            left_child: (off + tree_size(*l) - 1) as u32,
                            right_child: (off + tree_size(*l) + tree_size(*r) - 1) as u32,
                        },
                    ),
                    parent: 0,
                },
            ]
        },
    }
}

pub proof fn lemma_flatten_len(t: BVH, off: int, vs: Seq<Vertex>)
    ensures
        spec_flatten(t, off, vs).len() == tree_size(t),
        tree_size(t) >= 1,
    decreases t,
{
    lemma_tree_size(t);
    match t {
        BVH::Leaf(_) => {
        },
        BVH::Node(l, r) => {
            lemma_flatten_len(*l, off, vs);
            lemma_flatten_len(*r, off + tree_size(*l), vs);
        },
    }
}

/// The last node of a flattened subtree is the subtree's own: its payload
/// stands for the subtree's exact box, and its child positions point at the
/// last nodes of the two halves.
pub proof fn lemma_flatten_last(t: BVH, off: int, vs: Seq<Vertex>)
    ensures
        spec_flatten(t, off, vs).len() == tree_size(t),
        spec_flatten(t, off, vs).last().parent == 0,
        data_bb(spec_flatten(t, off, vs).last().data, vs) == tree_bb(t, vs),
        match t {
            BVH::Leaf(tr) => spec_flatten(t, off, vs).last().data == NodeData::Leaf(tr),
            BVH::Node(l, r) => spec_flatten(t, off, vs).last().data == NodeData::Node(
                InnerNodeData {
                    bounding_box: bb_union(tree_bb(*l, vs), tree_bb(*r, vs)),
                    left_child: (off + tree_size(*l) - 1) as u32,
                    right_child: (off + tree_size(*l) + tree_size(*r) - 1) as u32,
                },
            ),
        },
{
    lemma_flatten_len(t, off, vs);
    match t {
        BVH::Leaf(_) => {
        },
        BVH::Node(l, r) => {
            lemma_flatten_len(*l, off, vs);
            lemma_flatten_len(*r, off + tree_size(*l), vs);
        },
    }
}

/// The bounding box of one leaf triangle, from its three vertices.
pub fn calc_leaf_bb(idx: &Triangle, vertices: &Vec<Vertex>) -> (bb: Aabb)
    requires
        tri_in_bounds(*idx, vertices@.len()),
    ensures
        bb == leaf_bb(*idx, vertices@),
{
    let v0 = vertices[idx.a as usize];
    let v1 = vertices[idx.b as usize];
    let v2 = vertices[idx.c as usize];
    Aabb {
        x_min: imin(imin(v0.x, v1.x), v2.x),
        x_max: imax(imax(v0.x, v1.x), v2.x),
        y_min: imin(imin(v0.y, v1.y), v2.y),
        y_max: imax(imax(v0.y, v1.y), v2.y),
        z_min: imin(imin(v0.z, v1.z), v2.z),
        z_max: imax(imax(v0.z, v1.z), v2.z),
    }
}

/// Appends the subtree to the flat array in post-order and returns the
/// array position of the subtree's own node.
pub fn flatten_tree(vec: &mut Vec<Node>, tree: &BVH, vertices: &Vec<Vertex>) -> (idx: usize)
    requires
        tree_in_bounds(*tree, vertices@.len()),
        old(vec)@.len() + tree_size(*tree) <= 0x4000_0000,
    ensures
        final(vec)@ == old(vec)@ + spec_flatten(*tree, old(vec)@.len() as int, vertices@),
        final(vec)@.len() == old(vec)@.len() + tree_size(*tree),
        idx == final(vec)@.len() - 1,
    decreases *tree,
{
    let ghost base = vec@;
    let ghost off = vec@.len() as int;
    proof {
        lemma_flatten_len(*tree, off, vertices@);
    }
    match tree {
        BVH::Leaf(idx) => {
            vec.push(Node { data: NodeData::Leaf(*idx), parent: 0 });
            proof {
                assert(vec@ =~= base + spec_flatten(*tree, off, vertices@));
            }
            vec.len() - 1
        },
        BVH::Node(l, r) => {
            proof {
                lemma_flatten_len(**l, off, vertices@);
                lemma_flatten_len(**r, off + tree_size(**l), vertices@);
            }
            let left_idx = flatten_tree(vec, l, vertices);
            let right_idx = flatten_tree(vec, r, vertices);
            let ghost fl = spec_flatten(**l, off, vertices@);
            let ghost fr = spec_flatten(**r, off + tree_size(**l), vertices@);
            proof {
                lemma_flatten_last(**l, off, vertices@);
                lemma_flatten_last(**r, off + tree_size(**l), vertices@);
                assert(vec@[left_idx as int] == fl.last());
                assert(vec@[right_idx as int] == fr.last());
            }
            let lbb = match vec[left_idx].data {
                NodeData::Leaf(tr) => {
                    proof {
                        assert(vec@[left_idx as int] == fl.last());
                        assert(fl.last().data == NodeData::Leaf(tr));
                        if !(**l is Leaf) {
                            assert(fl.last().data is Node);
                        }
                        assert(**l is Leaf);
                        assert(tree_in_bounds(**l, vertices@.len()));
                        assert(tri_in_bounds(tr, vertices@.len()));
                    }
                    calc_leaf_bb(&tr, vertices)
                },
                NodeData::Node(ind) => ind.bounding_box,
            };
            let rbb = match vec[right_idx].data {
                NodeData::Leaf(tr) => {
                    proof {
                        assert(vec@[right_idx as int] == fr.last());
                        assert(fr.last().data == NodeData::Leaf(tr));
                        if !(**r is Leaf) {
                            assert(fr.last().data is Node);
                        }
                        assert(**r is Leaf);
                        assert(tree_in_bounds(**r, vertices@.len()));
                        assert(tri_in_bounds(tr, vertices@.len()));
                    }
                    calc_leaf_bb(&tr, vertices)
                },
                NodeData::Node(ind) => ind.bounding_box,
            };
            proof {
                assert(lbb == tree_bb(**l, vertices@));
                assert(rbb == tree_bb(**r, vertices@));
            }
            let merged = union_aabb(&lbb, &rbb);
            vec.push(
                Node {
                    data: NodeData::Node(
                        InnerNodeData {
                            bounding_box: merged,
                            left_child: left_idx as u32,
                            right_child: right_idx as u32,
                        },
                    ),
                    parent: 0,
                },
            );
            proof {
                assert(vec@ =~= base + spec_flatten(*tree, off, vertices@));
            }
            vec.len() - 1
        },
    }
}

} // verus!
