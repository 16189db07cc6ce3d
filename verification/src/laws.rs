//! Laws that tie the operations together. Each is stated over the views and
//! spec functions that the operations' own contracts use, so it holds of
//! whatever those operations return.

use crate::bitset::BitSet256;
use crate::model::{
    greatest_below, insert_each, least_from, lemma_bounded_len, lemma_greatest_below_unique,
    lemma_least_from, lemma_least_from_unique, lemma_nth_member, lemma_nth_member_unique,
    lemma_rank_member, nth_member, rank, span, symmetric_difference, universe,
};
use vstd::prelude::*;
use vstd::set_lib::{lemma_int_range, lemma_subset_equality};

verus! {

/// A set that was emptied and then given the one index `i` holds `i` and
/// nothing else: it has one member, which is its first and its last, and no
/// member comes after it.
pub proof fn lemma_singleton(i: int)
    requires
        0 <= i < 256,
    ensures
        Set::<int>::empty().insert(i).contains(i),
        forall|j: int| j != i ==> !Set::<int>::empty().insert(i).contains(j),
        Set::<int>::empty().insert(i).len() == 1,
        least_from(Set::<int>::empty().insert(i), 0) == i,
        greatest_below(Set::<int>::empty().insert(i), 256) == i,
        least_from(Set::<int>::empty().insert(i), i + 1) == 256,
        nth_member(Set::<int>::empty().insert(i), 0) == i,
{
    let s = Set::<int>::empty().insert(i);
    lemma_least_from_unique(s, 0, i);
    lemma_greatest_below_unique(s, 256, i);
    lemma_least_from_unique(s, i + 1, 256);
}

/// Putting an index into a set that does not hold it and taking it out
/// again gives back the very same bit set, word for word. In particular
/// the empty set comes back empty.
pub proof fn lemma_set_then_unset(before: BitSet256, after: BitSet256, i: int)
    requires
        !before@.contains(i),
        after@ == before@.insert(i).remove(i),
    ensures
        after == before,
        before@ == Set::<int>::empty() ==> after@ == Set::<int>::empty(),
{
    assert(after@ =~= before@);
    after.lemma_view_injective(&before);
}

/// Filling the range from `start` to `end` in one step gives the same set
/// as inserting `start`, `start + 1`, ..., `end` one after the other.
pub proof fn lemma_range_is_each_index(s: Set<int>, start: int, end: int)
    requires
        start <= end,
    ensures
        s.union(span(start, end)) == insert_each(s, start, end),
    decreases end - start,
{
    if start < end {
        lemma_range_is_each_index(s, start, end - 1);
        assert(s.union(span(start, end)) =~= s.union(span(start, end - 1)).insert(end));
    } else {
        assert(insert_each(s, start, end - 1) == s);
        assert(s.union(span(start, end)) =~= s.insert(end));
    }
}

/// Walking a bit set from its first member, each time to the next member
/// after the last one found, is what `nth_member` describes. Such a walk
/// finds a member at each of its first `len` steps, each greater than the
/// one before and with as many members below it as steps were made, and
/// finds 256 at every step after those.
pub proof fn lemma_enumeration(b: BitSet256, k: nat)
    ensures
        nth_member(b@, 0) == least_from(b@, 0),
        nth_member(b@, k + 1) == least_from(b@, nth_member(b@, k) + 1),
        k < b@.len() ==> 0 <= nth_member(b@, k) < 256 && b@.contains(nth_member(b@, k)),
        k < b@.len() ==> rank(b@, nth_member(b@, k)) == k,
        k < b@.len() ==> nth_member(b@, k) < nth_member(b@, k + 1),
        k >= b@.len() ==> nth_member(b@, k) == 256,
{
    lemma_bounded_len(b@);
    lemma_nth_member(b@, k);
    lemma_nth_member(b@, k + 1);
    let v = nth_member(b@, k);
    if v != 256 {
        lemma_rank_member(b@, v, 256);
        lemma_least_from(b@, v + 1);
    }
}

/// The walk of `lemma_enumeration` leaves no member out: a member with `k`
/// members below it is found at step `k`.
pub proof fn lemma_every_member_is_visited(b: BitSet256, m: int)
    requires
        b@.contains(m),
    ensures
        rank(b@, m) < b@.len(),
        nth_member(b@, rank(b@, m)) == m,
{
    lemma_bounded_len(b@);
    lemma_rank_member(b@, m, 256);
    lemma_nth_member_unique(b@, rank(b@, m), m);
}

/// The combinators obey the laws of Boolean algebra that relate them:
/// what is in both sets together with what is in exactly one is what is in
/// either, a set combined with itself by `&` or `|` is unchanged, and
/// combined with itself by `^` it is empty. This holds of the bit sets as
/// values and of their sets of members.
pub proof fn lemma_boolean_algebra(a: BitSet256, b: BitSet256)
    ensures
        a.and(b).or(a.xor(b)) == a.or(b),
        a.and(a) == a,
        a.or(a) == a,
        a.xor(a)@ == Set::<int>::empty(),
        a@.intersect(b@).union(symmetric_difference(a@, b@)) == a@.union(b@),
        a@.intersect(a@) == a@,
        a@.union(a@) == a@,
        symmetric_difference(a@, a@) == Set::<int>::empty(),
{
    assert(a@.intersect(b@).union(symmetric_difference(a@, b@)) =~= a@.union(b@));
    assert(a@.intersect(a@) =~= a@);
    assert(a@.union(a@) =~= a@);
    assert(symmetric_difference(a@, a@) =~= Set::<int>::empty());
    a.lemma_combined_views(b);
    a.lemma_combined_views(a);
    a.and(b).lemma_combined_views(a.xor(b));
    assert(a.and(b).or(a.xor(b))@ =~= a.or(b)@);
    a.and(b).or(a.xor(b)).lemma_view_injective(&a.or(b));
    assert(a.and(a)@ =~= a@);
    a.and(a).lemma_view_injective(&a);
    assert(a.or(a)@ =~= a@);
    a.or(a).lemma_view_injective(&a);
    assert(a.xor(a)@ =~= Set::<int>::empty());
}

/// A bit set holds every index exactly when it has 256 members, and none
/// exactly when it has 0 members.
pub proof fn lemma_count_extremes(b: BitSet256)
    ensures
        b@ == universe() <==> b@.len() == 256,
        b@.is_empty() <==> b@.len() == 0,
{
    b.lemma_view_bounded();
    lemma_int_range(0, 256);
    if b@.len() == 256 {
        lemma_subset_equality(b@, universe());
    }
    if b@.len() == 0 {
        b@.lemma_len0_is_empty();
    }
}

} // verus!
