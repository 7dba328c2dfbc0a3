//! The parent linker: starting from the root, each inner node writes its
//! own array position into its two children's parent fields, recursing into
//! inner children and stopping at leaves. The root keeps the sentinel.

use vstd::prelude::*;
use crate::flatten::{Node, NodeData};

verus! {

/// Every inner node's children sit strictly earlier in the array, as
/// post-order flattening leaves them.
pub open spec fn children_below(ns: Seq<Node>) -> bool {
    forall|j: int|
        #![trigger ns[j]]
        0 <= j < ns.len() ==> match ns[j].data {
            NodeData::Node(ind) => ind.left_child < j && ind.right_child < j,
            NodeData::Leaf(_) => true,
        }
}

/// The functional mirror of the linking pass rooted at position `i`: set
/// both children's parent fields to `i`, then link inside each inner child.
pub open spec fn spec_link(nodes: Seq<Node>, i: int) -> Seq<Node>
    decreases i,
{
    if 0 <= i < nodes.len() {
        match nodes[i].data {
            NodeData::Node(ind) => {
                if ind.left_child < i && ind.right_child < i {
                    let l = ind.left_child as int;
                    let r = ind.right_child as int;
                    let ns1 = nodes.update(l, Node { data: nodes[l].data, parent: i as u32 });
                    let ns2 = ns1.update(r, Node { data: ns1[r].data, parent: i as u32 });
                    let ns3 = if !(ns2[l].data is Leaf) {
                        spec_link(ns2, l)
                    } else {
                        ns2
                    };
                    if !(ns3[r].data is Leaf) {
                        spec_link(ns3, r)
                    } else {
                        ns3
                    }
                } else {
                    nodes
                }
            },
            NodeData::Leaf(_) => nodes,
        }
    } else {
        nodes
    }
}

/// Linking rewrites parent fields only, and only at positions below `i`.
pub proof fn lemma_link_data(ns: Seq<Node>, i: int)
    ensures
        spec_link(ns, i).len() == ns.len(),
        forall|j: int| 0 <= j < ns.len() ==> (#[trigger] spec_link(ns, i)[j]).data == ns[j].data,
        forall|j: int| i <= j < ns.len() ==> (#[trigger] spec_link(ns, i)[j]) == ns[j],
    decreases i,
{
    if 0 <= i < ns.len() {
        match ns[i].data {
            NodeData::Node(ind) => {
                if ind.left_child < i && ind.right_child < i {
                    let l = ind.left_child as int;
                    let r = ind.right_child as int;
                    let ns1 = ns.update(l, Node { data: ns[l].data, parent: i as u32 });
                    let ns2 = ns1.update(r, Node { data: ns1[r].data, parent: i as u32 });
                    let ns3 = if !(ns2[l].data is Leaf) {
                        spec_link(ns2, l)
                    } else {
                        ns2
                    };
                    if !(ns2[l].data is Leaf) {
                        lemma_link_data(ns2, l);
                    }
                    if !(ns3[r].data is Leaf) {
                        lemma_link_data(ns3, r);
                    }
                }
            },
            NodeData::Leaf(_) => {
            },
        }
    }
}

/// Writes the parent back-references below the inner node at `index`, as a
/// post-order flattened array allows: children always precede their parent.
pub fn set_parents(vec: &mut Vec<Node>, index: usize)
    requires
        index < old(vec)@.len(),
        old(vec)@.len() <= 0x4000_0000,
        children_below(old(vec)@),
        old(vec)@[index as int].data is Node,
    ensures
        final(vec)@ == spec_link(old(vec)@, index as int),
    decreases index,
{
    let ghost base = vec@;
    let nd = vec[index].data;
    let (l, r): (usize, usize) = match nd {
        NodeData::Node(ind) => (ind.left_child as usize, ind.right_child as usize),
        NodeData::Leaf(_) => {
            proof {
                assert(false);
            }
            (0, 0)
        },
    };
    let nl = vec[l];
    vec[l] = Node { data: nl.data, parent: index as u32 };
    let nr = vec[r];
    vec[r] = Node { data: nr.data, parent: index as u32 };
    let ghost ns2 = vec@;
    proof {
        assert(forall|j: int| 0 <= j < base.len() ==> (#[trigger] ns2[j]).data == base[j].data);
        assert(children_below(ns2));
    }
    if !vec[l].is_leaf() {
        set_parents(vec, l);
        proof {
            lemma_link_data(ns2, l as int);
            assert(forall|j: int|
                0 <= j < base.len() ==> (#[trigger] vec@[j]).data == base[j].data);
            assert(children_below(vec@));
        }
    }
    let ghost ns3 = vec@;
    if !vec[r].is_leaf() {
        set_parents(vec, r);
        proof {
            lemma_link_data(ns3, r as int);
        }
    }
    proof {
        assert(vec@ == spec_link(base, index as int));
    }
}

} // verus!
