//! Structural facts about the flattened hierarchy: every inner node's box
//! is the exact union of its children's, the leaves carry exactly the
//! sorted triangles, and after linking every non-root node's parent points
//! back at it.

use vstd::prelude::*;
use crate::types::{Vertex, Triangle, tri_in_bounds, bb_union};
use crate::morton::Morton;
use crate::hierarchy::{BVH, spec_find_split, spec_hierarchy, lemma_find_split_bounds};
use crate::flatten::{Node, NodeData, data_bb, tree_bb, tree_size, tree_leaves, tree_in_bounds,
    spec_flatten, lemma_tree_size, lemma_flatten_len, lemma_flatten_last};

verus! {

/// The node at `k` (an absolute position; the subtree starts at `off`) is
/// well formed: an inner node's children lie earlier in the subtree and its
/// box is the exact union of what their payloads stand for.
pub open spec fn flat_wf_at(f: Seq<Node>, off: int, k: int, vs: Seq<Vertex>) -> bool {
    match f[k].data {
        NodeData::Node(ind) => {
            let l = ind.left_child as int;
            let r = ind.right_child as int;
            off <= l < off + k && off <= r < off + k && ind.bounding_box == bb_union(
                data_bb(f[l - off].data, vs),
                data_bb(f[r - off].data, vs),
            )
        },
        NodeData::Leaf(_) => true,
    }
}

/// Every node of a flattened subtree is well formed.
pub proof fn lemma_flatten_wf(t: BVH, off: int, vs: Seq<Vertex>)
    requires
        0 <= off,
        off + tree_size(t) < 0x1_0000_0000,
    ensures
        forall|k: int|
            0 <= k < tree_size(t) ==> #[trigger] flat_wf_at(spec_flatten(t, off, vs), off, k, vs),
    decreases t,
{
    let f = spec_flatten(t, off, vs);
    lemma_flatten_len(t, off, vs);
    match t {
        BVH::Leaf(_) => {
        },
        BVH::Node(l, r) => {
            let sl = tree_size(*l);
            let sr = tree_size(*r);
            let fl = spec_flatten(*l, off, vs);
            let fr = spec_flatten(*r, off + sl, vs);
            lemma_tree_size(*l);
            lemma_tree_size(*r);
            lemma_flatten_len(*l, off, vs);
            lemma_flatten_len(*r, off + sl, vs);
            lemma_flatten_wf(*l, off, vs);
            lemma_flatten_wf(*r, off + sl, vs);
            lemma_flatten_last(*l, off, vs);
            lemma_flatten_last(*r, off + sl, vs);
            assert(forall|k: int| 0 <= k < sl ==> f[k] == #[trigger] fl[k]);
            assert(forall|k: int| 0 <= k < sr ==> f[sl + k] == #[trigger] fr[k]);
            assert(f[sl + sr] == f.last());
            assert forall|k: int| 0 <= k < tree_size(t) implies #[trigger] flat_wf_at(
                f,
                off,
                k,
                vs,
            ) by {
                if k < sl {
                    assert(flat_wf_at(fl, off, k, vs));
                    match fl[k].data {
                        NodeData::Node(ind) => {
                            assert(f[ind.left_child - off] == fl[ind.left_child - off]);
                            assert(f[ind.right_child - off] == fl[ind.right_child - off]);
                        },
                        NodeData::Leaf(_) => {
                        },
                    }
                } else if k < sl + sr {
                    assert(flat_wf_at(fr, off + sl, k - sl, vs));
                    assert(f[k] == fr[k - sl]);
                    match fr[k - sl].data {
                        NodeData::Node(ind) => {
                            assert(f[ind.left_child - off] == fr[ind.left_child - (off + sl)]);
                            assert(f[ind.right_child - off] == fr[ind.right_child - (off + sl)]);
                        },
                        NodeData::Leaf(_) => {
                        },
                    }
                } else {
                    assert(k == sl + sr);
                    assert(f[sl - 1] == fl.last());
                    assert(f[sl + sr - 1] == fr.last());
                }
            }
        },
    }
}

/// The triangles the leaf nodes of a flat array carry, in array order.
pub open spec fn tris_of(ns: Seq<Node>) -> Seq<Triangle>
    decreases ns.len(),
{
    if ns.len() == 0 {
        Seq::empty()
    } else {
        let rest = tris_of(ns.drop_last());
        match ns.last().data {
            NodeData::Leaf(t) => rest.push(t),
            NodeData::Node(_) => rest,
        }
    }
}

pub proof fn lemma_tris_of_concat(a: Seq<Node>, b: Seq<Node>)
    ensures
        tris_of(a + b) == tris_of(a) + tris_of(b),
    decreases b.len(),
{
    if b.len() == 0 {
        assert(a + b =~= a);
        assert(tris_of(a) + tris_of(b) =~= tris_of(a));
    } else {
        lemma_tris_of_concat(a, b.drop_last());
        assert((a + b).drop_last() =~= a + b.drop_last());
        assert((a + b).last() == b.last());
        match b.last().data {
            NodeData::Leaf(t) => {
                assert(tris_of(a) + tris_of(b.drop_last()).push(t) =~= (tris_of(a) + tris_of(
                    b.drop_last(),
                )).push(t));
            },
            NodeData::Node(_) => {
            },
        }
    }
}

/// Two arrays with the same payloads carry the same leaf triangles.
pub proof fn lemma_tris_of_data(a: Seq<Node>, b: Seq<Node>)
    requires
        a.len() == b.len(),
        forall|j: int| 0 <= j < a.len() ==> (#[trigger] a[j]).data == b[j].data,
    ensures
        tris_of(a) == tris_of(b),
    decreases a.len(),
{
    if a.len() > 0 {
        lemma_tris_of_data(a.drop_last(), b.drop_last());
        assert(a.last().data == b.last().data);
    }
}

/// Flattening writes exactly the subtree's leaves, in leaf order.
pub proof fn lemma_flatten_tris(t: BVH, off: int, vs: Seq<Vertex>)
    ensures
        tris_of(spec_flatten(t, off, vs)) == tree_leaves(t),
    decreases t,
{
    let f = spec_flatten(t, off, vs);
    match t {
        BVH::Leaf(tr) => {
            assert(tris_of(Seq::<Node>::empty()) == Seq::<Triangle>::empty());
            assert(f.drop_last() =~= Seq::<Node>::empty());
            assert(tris_of(f) =~= tree_leaves(t));
        },
        BVH::Node(l, r) => {
            let sl = tree_size(*l);
            let fl = spec_flatten(*l, off, vs);
            let fr = spec_flatten(*r, off + sl, vs);
            lemma_flatten_len(t, off, vs);
            lemma_flatten_last(t, off, vs);
            let x = f.last();
            assert(f =~= fl + fr + seq![x]);
            lemma_flatten_tris(*l, off, vs);
            lemma_flatten_tris(*r, off + sl, vs);
            lemma_tris_of_concat(fl, fr);
            lemma_tris_of_concat(fl + fr, seq![x]);
            assert(tris_of(seq![x]) =~= Seq::<Triangle>::empty()) by {
                assert(tris_of(Seq::<Node>::empty()) == Seq::<Triangle>::empty());
                assert(seq![x].drop_last() =~= Seq::<Node>::empty());
                assert(x.data is Node);
            }
            assert(tris_of(f) =~= tree_leaves(t));
        },
    }
}

/// The node at `j` has a live parent back-reference: the node its parent
/// field points at is an inner node with `j` as one of its two children.
pub open spec fn parent_ok(ns: Seq<Node>, j: int) -> bool {
    let p = ns[j].parent as int;
    0 <= p < ns.len() && match ns[p].data {
        NodeData::Node(ind) => ind.left_child == j || ind.right_child == j,
        NodeData::Leaf(_) => false,
    }
}

/// Linking a flattened subtree rooted at its own top node touches only the
/// positions strictly inside the subtree and gives every one of them a
/// correct parent back-reference into the subtree.
#[verifier::rlimit(100)]
pub proof fn lemma_link_parents(t: BVH, ns: Seq<Node>, off: int, vs: Seq<Vertex>)
    requires
        0 <= off,
        off + tree_size(t) < 0x1_0000_0000,
        ns.len() >= off + tree_size(t),
        t is Node,
        forall|k: int|
            0 <= k < tree_size(t) ==> (#[trigger] ns[off + k]).data == spec_flatten(t, off, vs)[k].data,
    ensures
        ({
            let top = off + tree_size(t) - 1;
            let out = crate::parents::spec_link(ns, top);
            out.len() == ns.len() && (forall|j: int|
                0 <= j < ns.len() && !(off <= j < top) ==> #[trigger] out[j] == ns[j]) && (
            forall|j: int| 0 <= j < ns.len() ==> (#[trigger] out[j]).data == ns[j].data) && (
            forall|j: int|
                off <= j < top ==> #[trigger] parent_ok(out, j) && off <= out[j].parent <= top)
        }),
    decreases t,
{
    let size = tree_size(t);
    let top = off + size - 1;
    crate::parents::lemma_link_data(ns, top);
    let out = crate::parents::spec_link(ns, top);
    match t {
        BVH::Leaf(_) => {
            assert(false);
        },
        BVH::Node(l, r) => {
            let sl = tree_size(*l);
            let sr = tree_size(*r);
            let lt = off + sl - 1;
            let rt = off + sl + sr - 1;
            let f = spec_flatten(t, off, vs);
            let fl = spec_flatten(*l, off, vs);
            let fr = spec_flatten(*r, off + sl, vs);
            lemma_tree_size(*l);
            lemma_tree_size(*r);
            lemma_flatten_len(t, off, vs);
            lemma_flatten_len(*l, off, vs);
            lemma_flatten_len(*r, off + sl, vs);
            lemma_flatten_last(t, off, vs);
            lemma_flatten_last(*l, off, vs);
            lemma_flatten_last(*r, off + sl, vs);
            assert(forall|k: int| 0 <= k < sl ==> f[k] == #[trigger] fl[k]);
            assert(forall|k: int| 0 <= k < sr ==> f[sl + k] == #[trigger] fr[k]);
            assert(ns[off + (size - 1)].data == f[size - 1].data);
            assert(ns[top].data == f[size - 1].data);
            assert(f[size - 1] == f.last());
            assert(ns[off + (sl - 1)].data == f[sl - 1].data);
            assert(f[sl - 1] == fl[sl - 1]);
            assert(ns[lt].data == fl.last().data);
            assert(ns[off + (sl + sr - 1)].data == f[sl + sr - 1].data);
            assert(f[sl + (sr - 1)] == fr[sr - 1]);
            assert(ns[rt].data == fr.last().data);
            let ns1 = ns.update(lt, Node { data: ns[lt].data, parent: top as u32 });
            let ns2 = ns1.update(rt, Node { data: ns1[rt].data, parent: top as u32 });
            let ns3 = if !(ns2[lt].data is Leaf) {
                crate::parents::spec_link(ns2, lt)
            } else {
                ns2
            };
            assert(out == (if !(ns3[rt].data is Leaf) {
                crate::parents::spec_link(ns3, rt)
            } else {
                ns3
            }));
            assert(forall|j: int| 0 <= j < ns.len() ==> (#[trigger] ns2[j]).data == ns[j].data);
            if !(ns2[lt].data is Leaf) {
                assert(*l is Node) by {
                    if *l is Leaf {
                        assert(fl.last().data is Leaf);
                    }
                }
                assert(forall|k: int|
                    0 <= k < sl ==> (#[trigger] ns2[off + k]).data == fl[k].data);
                lemma_link_parents(*l, ns2, off, vs);
            } else {
                assert(*l is Leaf) by {
                    if *l is Node {
                        assert(fl.last().data is Node);
                    }
                }
                assert(sl == 1);
            }
            assert(forall|j: int| 0 <= j < ns.len() ==> (#[trigger] ns3[j]).data == ns[j].data);
            assert(forall|j: int|
                0 <= j < ns.len() && !(off <= j < lt) ==> #[trigger] ns3[j] == ns2[j]);
            assert forall|j: int|
                off <= j < lt implies #[trigger] parent_ok(ns3, j) && off <= ns3[j].parent
                <= lt by {
                if ns2[lt].data is Leaf {
                    if *l is Node {
                        assert(fl.last().data is Node);
                    }
                    assert(*l is Leaf);
                    assert(sl == 1);
                } else {
                    let outl = crate::parents::spec_link(ns2, off + tree_size(*l) - 1);
                    assert(ns3 == outl);
                    assert(parent_ok(outl, j));
                    assert(off <= outl[j].parent <= off + tree_size(*l) - 1);
                }
            }
            if !(ns3[rt].data is Leaf) {
                assert(*r is Node) by {
                    if *r is Leaf {
                        assert(fr.last().data is Leaf);
                    }
                }
                assert forall|k: int|
                    0 <= k < sr implies (#[trigger] ns3[off + sl + k]).data == fr[k].data by {
                    assert(ns3[off + sl + k].data == ns[off + sl + k].data);
                    assert(ns[off + (sl + k)].data == f[sl + k].data);
                    assert(f[sl + k] == fr[k]);
                }
                lemma_link_parents(*r, ns3, off + sl, vs);
            } else {
                assert(*r is Leaf) by {
                    if *r is Node {
                        assert(fr.last().data is Node);
                    }
                }
                assert(sr == 1);
            }
            assert(forall|j: int|
                0 <= j < ns.len() && !(off + sl <= j < rt) ==> #[trigger] out[j] == ns3[j]);
            assert forall|j: int|
                off + sl <= j < rt implies #[trigger] parent_ok(out, j) && off + sl
                    <= out[j].parent <= rt by {
                if ns3[rt].data is Leaf {
                    if *r is Node {
                        assert(fr.last().data is Node);
                    }
                    assert(*r is Leaf);
                    assert(sr == 1);
                } else {
                    let outr = crate::parents::spec_link(ns3, off + sl + tree_size(*r) - 1);
                    assert(out == outr);
                    assert(parent_ok(outr, j));
                    assert(off + sl <= outr[j].parent <= off + sl + tree_size(*r) - 1);
                }
            }
            assert(ns3[lt] == ns2[lt]);
            assert(ns2[lt] == Node { data: ns[lt].data, parent: top as u32 });
            assert(ns3[rt] == ns2[rt]);
            assert(ns2[rt] == Node { data: ns[rt].data, parent: top as u32 });
            assert forall|j: int|
                off <= j < top implies #[trigger] parent_ok(out, j) && off <= out[j].parent
                <= top by {
                if j < lt {
                    assert(sl > 1);
                    if *l is Leaf {
                        assert(tree_size(*l) == 1);
                    }
                    assert(*l is Node);
                    assert(!(ns2[lt].data is Leaf));
                    let outl = crate::parents::spec_link(ns2, off + tree_size(*l) - 1);
                    assert(ns3 == outl);
                    assert(parent_ok(outl, j));
                    assert(off <= outl[j].parent <= off + tree_size(*l) - 1);
                    assert(out[j] == ns3[j]);
                    let p = ns3[j].parent as int;
                    assert(out[p].data == ns3[p].data);
                } else if j == lt {
                    assert(out[lt] == ns3[lt]);
                    assert(out[lt].parent == top as u32);
                    assert(out[top].data == ns[top].data);
                } else if j < rt {
                    assert(sr > 1);
                    if *r is Leaf {
                        assert(tree_size(*r) == 1);
                    }
                    assert(*r is Node);
                    assert(!(ns3[rt].data is Leaf));
                    let outr = crate::parents::spec_link(ns3, off + sl + tree_size(*r) - 1);
                    assert(out == outr);
                    assert(parent_ok(outr, j));
                    assert(off + sl <= outr[j].parent <= off + sl + tree_size(*r) - 1);
                } else {
                    assert(j == rt);
                    assert(out[rt] == ns3[rt]);
                    assert(out[rt].parent == top as u32);
                    assert(out[top].data == ns[top].data);
                }
            }
            assert forall|j: int|
                0 <= j < ns.len() && !(off <= j < top) implies #[trigger] out[j] == ns[j] by {
                assert(out[j] == ns3[j]);
                assert(ns3[j] == ns2[j]);
                assert(ns2[j] == ns[j]);
            }
        },
    }
}

/// After flattening from position 0 and linking from the root, the array
/// keeps its payloads, every node but the root points back at its parent,
/// and the root still carries the sentinel parent.
pub proof fn lemma_linked_props(t: BVH, vs: Seq<Vertex>)
    requires
        tree_size(t) < 0x1_0000_0000,
    ensures
        ({
            let f = spec_flatten(t, 0, vs);
            let out = crate::parents::spec_link(f, tree_size(t) - 1);
            out.len() == tree_size(t) && (forall|j: int|
                0 <= j < out.len() ==> (#[trigger] out[j]).data == f[j].data) && (forall|j: int|
                0 <= j < out.len() - 1 ==> #[trigger] parent_ok(out, j)) && out[out.len() - 1]
                == f[out.len() - 1]
        }),
{
    let size = tree_size(t);
    let f = spec_flatten(t, 0, vs);
    let out = crate::parents::spec_link(f, size - 1);
    lemma_flatten_len(t, 0, vs);
    crate::parents::lemma_link_data(f, size - 1);
    match t {
        BVH::Leaf(_) => {
            assert(f[0].data is Leaf);
            assert(out == f);
        },
        BVH::Node(_, _) => {
            assert(forall|k: int|
                0 <= k < tree_size(t) ==> (#[trigger] f[0 + k]).data == spec_flatten(
                    t,
                    0,
                    vs,
                )[k].data);
            lemma_link_parents(t, f, 0, vs);
        },
    }
}

/// The radix tree over `[first, last]` has those positions' triangles as
/// its leaves, in order, and the node count of a full binary tree over
/// them; its triangles keep their vertex indices in bounds.
pub proof fn lemma_hierarchy_props(
    codes: Seq<Morton>,
    tris: Seq<Triangle>,
    first: int,
    last: int,
    n: nat,
)
    requires
        0 <= first <= last < tris.len(),
        forall|i: int| first <= i <= last ==> tri_in_bounds(#[trigger] tris[i], n),
    ensures
        tree_leaves(spec_hierarchy(codes, tris, first, last)) == tris.subrange(first, last + 1),
        tree_size(spec_hierarchy(codes, tris, first, last)) == 2 * (last - first + 1) - 1,
        tree_in_bounds(spec_hierarchy(codes, tris, first, last), n),
    decreases last - first,
{
    let t = spec_hierarchy(codes, tris, first, last);
    lemma_tree_size(t);
    if first == last {
        assert(tree_leaves(t) =~= tris.subrange(first, last + 1));
    } else {
        let s = spec_find_split(codes, first, last);
        lemma_find_split_bounds(codes, first, last);
        lemma_hierarchy_props(codes, tris, first, s, n);
        lemma_hierarchy_props(codes, tris, s + 1, last, n);
        assert(tree_leaves(t) =~= tris.subrange(first, last + 1)) by {
            assert(tris.subrange(first, s + 1) + tris.subrange(s + 1, last + 1) =~= tris.subrange(
                first,
                last + 1,
            ));
        }
    }
}

} // verus!
