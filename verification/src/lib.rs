//! Linear bounding volume hierarchy (LBVH) construction over a triangle mesh.
//!
//! The mesh is given as a list of vertices with fixed-point integer
//! coordinates and a list of triangles, each an index triple into the vertex
//! list. Construction encodes each triangle's reference point as a Morton
//! code, sorts the triangles by code, splits the sorted run into a binary
//! radix tree along longest-common-prefix boundaries, and flattens that tree
//! into an array of nodes with merged bounding boxes and parent back-links.

mod types;
mod morton;
mod normalize;
mod sort;
mod hierarchy;
mod flatten;
mod parents;
mod props;
mod bvh;

pub use types::{Vertex, Triangle, Aabb, BvhError};
pub use morton::{Morton, expand_bits, morton_3d, spec_dilate, spec_morton};
pub use normalize::{normalize_and_encode, spec_codes, spec_tri_code, spec_quantize};
pub use sort::{CodedTriangle, sort_coded, spec_sort, sorted_codes};
pub use hierarchy::{BVH, find_split, generate_hierarchy, spec_find_split, spec_hierarchy};
pub use flatten::{InnerNodeData, NodeData, Node, calc_leaf_bb, flatten_tree, spec_flatten,
    tree_bb, tree_size, tree_leaves, leaf_bb, data_bb};
pub use parents::{set_parents, spec_link, children_below};
pub use props::{flat_wf_at, tris_of, parent_ok};
pub use bvh::{construct_bvh, spec_construct, spec_coded, mesh_ok, lemma_construct_deterministic, Object};
