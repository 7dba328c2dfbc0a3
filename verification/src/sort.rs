//! The primitive sorter: triangles are ordered by Morton code, code and
//! triangle moving together, with ties kept in their original order, so the
//! sorted sequence is a function of the input alone.

use vstd::prelude::*;
use crate::types::Triangle;
use crate::morton::Morton;

verus! {

/// A triangle paired with the Morton code of its reference point.
#[derive(Clone, Copy, PartialEq, Eq, Structural, Debug)]
pub struct CodedTriangle {
    pub code: Morton,
    pub tri: Triangle,
}

/// Codes ascend along the sequence.
pub open spec fn sorted_codes(s: Seq<CodedTriangle>) -> bool {
    forall|i: int, j: int| 0 <= i < j < s.len() ==> s[i].code.0 <= s[j].code.0
}

/// Stable insertion into a sorted sequence: `x` lands after every entry
/// whose code is less than or equal to its own.
pub open spec fn insert_sorted(x: CodedTriangle, s: Seq<CodedTriangle>) -> Seq<CodedTriangle>
    decreases s.len(),
{
    if s.len() == 0 {
        seq![x]
    } else if x.code.0 < s[0].code.0 {
        seq![x] + s
    } else {
        seq![s[0]] + insert_sorted(x, s.drop_first())
    }
}

/// Stable insertion sort, the functional reference for the executable sort.
pub open spec fn spec_sort(s: Seq<CodedTriangle>) -> Seq<CodedTriangle>
    decreases s.len(),
{
    if s.len() == 0 {
        Seq::empty()
    } else {
        insert_sorted(s.last(), spec_sort(s.drop_last()))
    }
}

/// The position where `insert_sorted` puts `x`: the number of leading
/// entries whose code does not exceed `x`'s.
pub open spec fn insert_pos(x: CodedTriangle, s: Seq<CodedTriangle>) -> int
    decreases s.len(),
{
    if s.len() == 0 {
        0
    } else if s[0].code.0 <= x.code.0 {
        1 + insert_pos(x, s.drop_first())
    } else {
        0
    }
}

/// The triangles of a coded sequence, in order.
pub open spec fn tri_seq(s: Seq<CodedTriangle>) -> Seq<Triangle> {
    s.map_values(|ct: CodedTriangle| ct.tri)
}

/// The codes of a coded sequence, in order.
pub open spec fn code_seq(s: Seq<CodedTriangle>) -> Seq<Morton> {
    s.map_values(|ct: CodedTriangle| ct.code)
}

/// In a sorted sequence, `insert_pos` is a boundary: everything before it
/// has a code at most `x`'s, and the entry at it (if any) a strictly
/// greater one.
pub proof fn lemma_insert_pos_props(x: CodedTriangle, s: Seq<CodedTriangle>)
    requires
        sorted_codes(s),
    ensures
        0 <= insert_pos(x, s) <= s.len(),
        forall|k: int| 0 <= k < insert_pos(x, s) ==> s[k].code.0 <= x.code.0,
        insert_pos(x, s) == s.len() || s[insert_pos(x, s)].code.0 > x.code.0,
    decreases s.len(),
{
    if s.len() > 0 && s[0].code.0 <= x.code.0 {
        assert(sorted_codes(s.drop_first())) by {
            assert(forall|k: int| 0 <= k < s.len() - 1 ==> s.drop_first()[k] == s[k + 1]);
        }
        lemma_insert_pos_props(x, s.drop_first());
        assert forall|k: int| 0 <= k < insert_pos(x, s) implies s[k].code.0 <= x.code.0 by {
            if k >= 1 {
                assert(s.drop_first()[k - 1] == s[k]);
            }
        }
        if insert_pos(x, s) < s.len() {
            assert(s.drop_first()[insert_pos(x, s.drop_first())] == s[insert_pos(x, s)]);
        }
    }
}

/// Against any boundary position `p`, stable insertion is the positional
/// splice `s.insert(p, x)`.
pub proof fn lemma_insert_sorted_positional(x: CodedTriangle, s: Seq<CodedTriangle>, p: int)
    requires
        0 <= p <= s.len(),
        forall|k: int| 0 <= k < p ==> s[k].code.0 <= x.code.0,
        p == s.len() || s[p].code.0 > x.code.0,
    ensures
        insert_sorted(x, s) == s.insert(p, x),
    decreases s.len(),
{
    if s.len() == 0 {
        assert(insert_sorted(x, s) =~= s.insert(0, x));
    } else if x.code.0 < s[0].code.0 {
        assert(p == 0);
        assert(insert_sorted(x, s) =~= s.insert(0, x));
    } else {
        assert(p >= 1);
        assert(forall|k: int| 0 <= k < s.len() - 1 ==> s.drop_first()[k] == s[k + 1]);
        lemma_insert_sorted_positional(x, s.drop_first(), p - 1);
        assert(seq![s[0]] + s.drop_first().insert(p - 1, x) =~= s.insert(p, x));
    }
}

/// Splicing at a boundary position keeps the sequence sorted.
pub proof fn lemma_positional_sorted(x: CodedTriangle, s: Seq<CodedTriangle>, p: int)
    requires
        sorted_codes(s),
        0 <= p <= s.len(),
        forall|k: int| 0 <= k < p ==> s[k].code.0 <= x.code.0,
        p == s.len() || s[p].code.0 > x.code.0,
    ensures
        sorted_codes(s.insert(p, x)),
{
    let t = s.insert(p, x);
    s.insert_ensures(p, x);
    assert forall|i: int, j: int| 0 <= i < j < t.len() implies t[i].code.0 <= t[j].code.0 by {
        if i < p && j < p {
            assert(t[i] == s[i] && t[j] == s[j]);
        } else if i < p && j == p {
            assert(t[i] == s[i]);
        } else if i < p && j > p {
            assert(t[i] == s[i] && t[j] == s[j - 1]);
            assert(s[i].code.0 <= s[j - 1].code.0);
        } else if i == p && j > p {
            assert(t[j] == s[j - 1]);
            assert(s[p].code.0 <= s[j - 1].code.0);
        } else {
            assert(i > p && j > p);
            assert(t[i] == s[i - 1] && t[j] == s[j - 1]);
        }
    }
}

/// What the sort guarantees: the result is sorted, has the same length, and
/// both it and its triangle projection are permutations of the input's.
pub proof fn lemma_sort_props(s: Seq<CodedTriangle>)
    ensures
        sorted_codes(spec_sort(s)),
        spec_sort(s).len() == s.len(),
        spec_sort(s).to_multiset() == s.to_multiset(),
        tri_seq(spec_sort(s)).to_multiset() == tri_seq(s).to_multiset(),
    decreases s.len(),
{
    broadcast use vstd::seq_lib::to_multiset_insert;
    broadcast use vstd::seq_lib::to_multiset_build;

    if s.len() == 0 {
        assert(spec_sort(s) =~= s);
        assert(tri_seq(spec_sort(s)) =~= tri_seq(s));
    } else {
        let x = s.last();
        let rest = s.drop_last();
        lemma_sort_props(rest);
        let t = spec_sort(rest);
        let p = insert_pos(x, t);
        lemma_insert_pos_props(x, t);
        lemma_insert_sorted_positional(x, t, p);
        lemma_positional_sorted(x, t, p);
        // length and multiset of the spliced result
        t.insert_ensures(p, x);
        assert(t.insert(p, x).to_multiset() == t.to_multiset().insert(x));
        assert(s =~= rest.push(x));
        assert(rest.push(x).to_multiset() == rest.to_multiset().insert(x));
        // the triangle projection of a splice is the spliced projection
        assert(tri_seq(t.insert(p, x)) =~= tri_seq(t).insert(p, x.tri)) by {
            t.insert_ensures(p, x);
            tri_seq(t).insert_ensures(p, x.tri);
        }
        assert(tri_seq(t).insert(p, x.tri).to_multiset() == tri_seq(t).to_multiset().insert(
            x.tri,
        ));
        assert(tri_seq(s) =~= tri_seq(rest).push(x.tri));
        assert(tri_seq(rest).push(x.tri).to_multiset() == tri_seq(rest).to_multiset().insert(
            x.tri,
        ));
    }
}

/// Sorts the coded triangles by code, ties staying in input order; the
/// result is exactly the stable insertion sort of the input.
pub fn sort_coded(v: Vec<CodedTriangle>) -> (r: Vec<CodedTriangle>)
    ensures
        r@ == spec_sort(v@),
        r@.len() == v@.len(),
{
    let ghost orig = v@;
    let mut out: Vec<CodedTriangle> = Vec::new();
    let mut i: usize = 0;
    while i < v.len()
        invariant
            0 <= i <= v@.len(),
            v@ == orig,
            out@ == spec_sort(orig.take(i as int)),
            out@.len() == i,
            sorted_codes(out@),
        decreases v@.len() - i,
    {
        let x = v[i];
        let mut pos: usize = 0;
        while pos < out.len() && out[pos].code.0 <= x.code.0
            invariant
                0 <= pos <= out@.len(),
                forall|k: int| 0 <= k < pos ==> out@[k].code.0 <= x.code.0,
            decreases out@.len() - pos,
        {
            pos = pos + 1;
        }
        proof {
            lemma_insert_sorted_positional(x, out@, pos as int);
            lemma_positional_sorted(x, out@, pos as int);
            assert(orig.take(i + 1).drop_last() =~= orig.take(i as int));
            assert(orig.take(i + 1).last() == orig[i as int]);
        }
        out.insert(pos, x);
        i = i + 1;
    }
    proof {
        assert(orig.take(orig.len() as int) =~= orig);
    }
    out
}

} // verus!
