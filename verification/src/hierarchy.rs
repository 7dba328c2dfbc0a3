//! The hierarchy builder: the sorted run of Morton codes is split
//! recursively into a binary radix tree. Each split point is found by a
//! binary search for the longest-common-prefix boundary of the range.

use vstd::prelude::*;
use vstd::std_specs::bits::u32_leading_zeros;
use crate::types::Triangle;
use crate::morton::Morton;

verus! {

/// The intermediate ownership tree: a leaf wraps one triangle, an inner
/// node owns its two subtrees. It is flattened into the node array and then
/// discarded.
pub enum BVH {
    Leaf(Triangle),
    Node(Box<BVH>, Box<BVH>),
}

/// How many leading bits two codes share.
pub open spec fn prefix_len(a: Morton, b: Morton) -> u32 {
    u32_leading_zeros(a.0 ^ b.0)
}

/// One halving pass of the split search: from `split`, probe forward by
/// ever-halving steps, keeping every candidate that shares more leading
/// bits with the range's first code than the whole range does.
pub open spec fn split_step(
    codes: Seq<Morton>,
    first: int,
    last: int,
    cp: u32,
    split: int,
    step: int,
) -> int
    decreases step,
{
    let half = (step + 1) / 2;
    let cand = split + half;
    let next = if cand < last && prefix_len(codes[first], codes[cand]) > cp {
        cand
    } else {
        split
    };
    if half > 1 {
        split_step(codes, first, last, cp, next, half)
    } else {
        next
    }
}

/// The split index of the range `[first, last]`: the last position whose
/// code shares more leading bits with `codes[first]` than `codes[last]`
/// does; for a range of equal codes, the arithmetic midpoint.
pub open spec fn spec_find_split(codes: Seq<Morton>, first: int, last: int) -> int {
    if codes[first] == codes[last] {
        (first + last) / 2
    } else {
        split_step(
            codes,
            first,
            last,
            prefix_len(codes[first], codes[last]),
            first,
            last - first,
        )
    }
}

pub proof fn lemma_split_step_bounds(
    codes: Seq<Morton>,
    first: int,
    last: int,
    cp: u32,
    split: int,
    step: int,
)
    requires
        first <= split < last,
        step >= 1,
    ensures
        first <= split_step(codes, first, last, cp, split, step) < last,
    decreases step,
{
    let half = (step + 1) / 2;
    let cand = split + half;
    let next = if cand < last && prefix_len(codes[first], codes[cand]) > cp {
        cand
    } else {
        split
    };
    if half > 1 {
        lemma_split_step_bounds(codes, first, last, cp, next, half);
    }
}

/// The split of a non-degenerate range falls strictly inside it, so both
/// sides of the split are non-empty.
pub proof fn lemma_find_split_bounds(codes: Seq<Morton>, first: int, last: int)
    requires
        first < last,
    ensures
        first <= spec_find_split(codes, first, last) < last,
{
    if codes[first] == codes[last] {
    } else {
        lemma_split_step_bounds(
            codes,
            first,
            last,
            prefix_len(codes[first], codes[last]),
            first,
            last - first,
        );
    }
}

/// The radix tree over the inclusive range `[first, last]` of the sorted
/// codes: a single position becomes a leaf, a longer range splits at
/// `spec_find_split` into two subtrees.
pub open spec fn spec_hierarchy(
    codes: Seq<Morton>,
    tris: Seq<Triangle>,
    first: int,
    last: int,
) -> BVH
    decreases last - first,
    when first <= last
    via spec_hierarchy_decreases
{
    if first >= last {
        BVH::Leaf(tris[first])
    } else {
        let s = spec_find_split(codes, first, last);
        BVH::Node(
            Box::new(spec_hierarchy(codes, tris, first, s)),
            Box::new(spec_hierarchy(codes, tris, s + 1, last)),
        )
    }
}

#[via_fn]
proof fn spec_hierarchy_decreases(codes: Seq<Morton>, tris: Seq<Triangle>, first: int, last: int) {
    if first < last {
        lemma_find_split_bounds(codes, first, last);
    }
}

/// Finds the split position of `[first, last]`: binary search for the
/// highest position that shares more leading bits with `zorder[first]`
/// than the whole range does, or the midpoint when all codes are equal.
pub fn find_split(zorder: &Vec<Morton>, first: usize, last: usize) -> (split: usize)
    requires
        first < last,
        last < zorder@.len(),
        last < usize::MAX / 2,
    ensures
        split == spec_find_split(zorder@, first as int, last as int),
        first <= split < last,
{
    let ghost codes = zorder@;
    let first_code = zorder[first];
    let last_code = zorder[last];
    if first_code.0 == last_code.0 {
        first + (last - first) / 2
    } else {
        let common_prefix = first_code.bitxor(last_code).leading_zeros();
        let ghost cp = common_prefix;
        let ghost goal = split_step(codes, first as int, last as int, cp, first as int, (last
            - first) as int);
        let mut split = first;
        let mut step = last - first;
        loop
            invariant_except_break
                first <= split < last,
                1 <= step <= last - first,
                first < last < codes.len(),
                last < usize::MAX / 2,
                zorder@ == codes,
                first_code == codes[first as int],
                cp == common_prefix,
                split_step(codes, first as int, last as int, cp, split as int, step as int)
                    == goal,
            ensures
                split == goal,
                first <= split < last,
            decreases step,
        {
            let ghost s0 = split as int;
            let ghost st0 = step as int;
            step = (step + 1) / 2;
            let new_split = split + step;
            proof {
                assert(split + step < 2 * (last as int));
            }
            if new_split < last {
                let split_code = zorder[new_split];
                let split_prefix = first_code.bitxor(split_code).leading_zeros();
                if split_prefix > common_prefix {
                    split = new_split;
                }
            }
            proof {
                let half = (st0 + 1) / 2;
                let cand = s0 + half;
                let next = if cand < last as int && prefix_len(codes[first as int], codes[cand])
                    > cp {
                    cand
                } else {
                    s0
                };
                assert(half == step as int);
                assert(next == split as int);
                assert(split_step(codes, first as int, last as int, cp, s0, st0) == (if half > 1 {
                    split_step(codes, first as int, last as int, cp, next, half)
                } else {
                    next
                }));
            }
            if step <= 1 {
                break ;
            }
        }
        split
    }
}

/// Builds the radix tree over the inclusive range `[first, last]` of the
/// sorted codes, pairing each leaf with the triangle at the same position.
pub fn generate_hierarchy(
    zorder: &Vec<Morton>,
    indices: &Vec<Triangle>,
    first: usize,
    last: usize,
) -> (t: BVH)
    requires
        first <= last,
        last < zorder@.len(),
        zorder@.len() == indices@.len(),
        zorder@.len() < usize::MAX / 2,
    ensures
        t == spec_hierarchy(zorder@, indices@, first as int, last as int),
    decreases last - first,
{
    if first == last {
        BVH::Leaf(indices[first])
    } else {
        let split = find_split(zorder, first, last);
        let child_a = generate_hierarchy(zorder, indices, first, split);
        let child_b = generate_hierarchy(zorder, indices, split + 1, last);
        BVH::Node(Box::new(child_a), Box::new(child_b))
    }
}

} // verus!
