//! Stable ordering of a sequence, as a mathematical function.
//!
//! The order is given by a relation `le`, read as "ranks before or with".
//! Elements are put in one by one, each behind the last element that does
//! not rank after it, so elements of equal rank keep their first order.

use vstd::prelude::*;

verus! {

/// Whether `le` relates every two elements one way or the other, and is
/// transitive.
pub open spec fn is_total_preorder<T>(le: spec_fn(T, T) -> bool) -> bool {
    &&& forall|a: T, b: T| #[trigger] le(a, b) || #[trigger] le(b, a)
    &&& forall|a: T, b: T, c: T| #[trigger] le(a, b) && #[trigger] le(b, c) ==> le(a, c)
}

/// Whether each element of `s` ranks before or with every later one.
pub open spec fn is_ordered<T>(s: Seq<T>, le: spec_fn(T, T) -> bool) -> bool {
    forall|i: int, j: int| 0 <= i < j < s.len() ==> le(s[i], s[j])
}

/// Where `x` goes into `s`: behind the last element that does not rank
/// after it, or at the front where every element ranks after it.
pub open spec fn insertion_point<T>(s: Seq<T>, x: T, le: spec_fn(T, T) -> bool) -> int
    decreases s.len(),
{
    if s.len() == 0 {
        0
    } else if le(s.last(), x) {
        s.len() as int
    } else {
        insertion_point(s.drop_last(), x, le)
    }
}

/// `s` put in order, with elements of equal rank kept in the order in
/// which `s` has them.
pub open spec fn stable_sorted<T>(s: Seq<T>, le: spec_fn(T, T) -> bool) -> Seq<T>
    decreases s.len(),
{
    if s.len() == 0 {
        Seq::empty()
    } else {
        let rest = stable_sorted(s.drop_last(), le);
        rest.insert(insertion_point(rest, s.last(), le), s.last())
    }
}

/// The insertion point lies within the sequence and nothing from it on
/// ranks before or with `x`; in an ordered sequence everything before it
/// ranks before or with `x`.
pub proof fn lemma_insertion_point<T>(s: Seq<T>, x: T, le: spec_fn(T, T) -> bool)
    ensures
        0 <= insertion_point(s, x, le) <= s.len(),
        forall|i: int| insertion_point(s, x, le) <= i < s.len() ==> !le(#[trigger] s[i], x),
        is_total_preorder(le) && is_ordered(s, le) ==> forall|i: int|
            0 <= i < insertion_point(s, x, le) ==> le(#[trigger] s[i], x),
    decreases s.len(),
{
    if s.len() > 0 && !le(s.last(), x) {
        let t = s.drop_last();
        lemma_insertion_point(t, x, le);
        assert forall|i: int| insertion_point(s, x, le) <= i < s.len() implies !le(
            #[trigger] s[i],
            x,
        ) by {
            if i < t.len() {
                assert(s[i] == t[i]);
            }
        }
        if is_total_preorder(le) && is_ordered(s, le) {
            assert forall|i: int, j: int| 0 <= i < j < t.len() implies le(t[i], t[j]) by {
                assert(t[i] == s[i] && t[j] == s[j]);
            }
            assert forall|i: int| 0 <= i < insertion_point(s, x, le) implies le(
                #[trigger] s[i],
                x,
            ) by {
                assert(s[i] == t[i]);
            }
        }
    } else if s.len() > 0 {
        if is_total_preorder(le) && is_ordered(s, le) {
            assert forall|i: int| 0 <= i < s.len() implies le(#[trigger] s[i], x) by {
                if i < s.len() - 1 {
                    assert(le(s[i], s[s.len() - 1]));
                    assert(le(s[s.len() - 1], x));
                }
            }
        }
    }
}

/// Under a total preorder, putting a sequence in order gives an ordered
/// sequence of the same length.
pub proof fn lemma_stable_sorted_is_ordered<T>(s: Seq<T>, le: spec_fn(T, T) -> bool)
    requires
        is_total_preorder(le),
    ensures
        is_ordered(stable_sorted(s, le), le),
        stable_sorted(s, le).len() == s.len(),
    decreases s.len(),
{
    if s.len() > 0 {
        let rest = stable_sorted(s.drop_last(), le);
        let x = s.last();
        let p = insertion_point(rest, x, le);
        lemma_stable_sorted_is_ordered(s.drop_last(), le);
        lemma_insertion_point(rest, x, le);
        let out = rest.insert(p, x);
        assert forall|i: int, j: int| 0 <= i < j < out.len() implies le(out[i], out[j]) by {
            if j < p {
                assert(out[i] == rest[i] && out[j] == rest[j]);
            } else if j == p {
                assert(out[i] == rest[i]);
            } else if i < p {
                assert(out[i] == rest[i] && out[j] == rest[j - 1]);
            } else if i == p {
                assert(out[j] == rest[j - 1]);
                assert(!le(rest[j - 1], x));
                assert(le(rest[j - 1], x) || le(x, rest[j - 1]));
            } else {
                assert(out[i] == rest[i - 1] && out[j] == rest[j - 1]);
            }
        }
    }
}

/// Putting a sequence in order keeps its elements, each as often as before.
pub proof fn lemma_stable_sorted_permutes<T>(s: Seq<T>, le: spec_fn(T, T) -> bool)
    ensures
        stable_sorted(s, le).to_multiset() == s.to_multiset(),
    decreases s.len(),
{
    broadcast use vstd::seq_lib::group_to_multiset_ensures;

    if s.len() == 0 {
        assert(stable_sorted(s, le) =~= s);
    } else {
        let rest = stable_sorted(s.drop_last(), le);
        let x = s.last();
        lemma_stable_sorted_permutes(s.drop_last(), le);
        lemma_insertion_point(rest, x, le);
        assert(s =~= s.drop_last().push(x));
        assert(rest.insert(insertion_point(rest, x, le), x).to_multiset() =~= rest.to_multiset().insert(
            x,
        ));
        assert(s.to_multiset() =~= s.drop_last().to_multiset().insert(x));
    }
}

/// A sequence that is in order already stays as it is.
pub proof fn lemma_stable_sorted_of_ordered<T>(s: Seq<T>, le: spec_fn(T, T) -> bool)
    requires
        is_ordered(s, le),
    ensures
        stable_sorted(s, le) == s,
    decreases s.len(),
{
    if s.len() == 0 {
        assert(stable_sorted(s, le) =~= s);
    } else {
        let t = s.drop_last();
        assert forall|i: int, j: int| 0 <= i < j < t.len() implies le(t[i], t[j]) by {
            assert(t[i] == s[i] && t[j] == s[j]);
        }
        lemma_stable_sorted_of_ordered(t, le);
        if t.len() > 0 {
            assert(le(s[t.len() - 1], s[s.len() - 1]));
            assert(t.last() == s[t.len() - 1]);
        }
        assert(insertion_point(t, s.last(), le) == t.len());
        assert(t.insert(t.len() as int, s.last()) =~= s);
    }
}

} // verus!
