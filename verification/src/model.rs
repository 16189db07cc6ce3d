//! The mathematical model: a bit set is a `Set<int>` of indices in `0..256`.
//! This module says, over such sets, what searching and ranking mean, and
//! proves the facts about them that the executable code relies on.

use vstd::prelude::*;
use vstd::set_lib::set_int_range;

verus! {

/// Every index that a bit set can hold.
pub open spec fn universe() -> Set<int> {
    set_int_range(0, 256)
}

/// The indices from `start` to `end`, both included.
pub open spec fn span(start: int, end: int) -> Set<int> {
    set_int_range(start, end + 1)
}

/// The indices that are in exactly one of `a` and `b`.
pub open spec fn symmetric_difference(a: Set<int>, b: Set<int>) -> Set<int> {
    a.difference(b).union(b.difference(a))
}

/// The least member of `s` in `from..256`, or 256 when there is none.
pub open spec fn least_from(s: Set<int>, from: int) -> int
    decreases 256 - from,
{
    if from >= 256 {
        256
    } else if s.contains(from) {
        from
    } else {
        least_from(s, from + 1)
    }
}

/// The greatest member of `s` in `0..below`, or 256 when there is none.
pub open spec fn greatest_below(s: Set<int>, below: int) -> int
    decreases below,
{
    if below <= 0 {
        256
    } else if s.contains(below - 1) {
        below - 1
    } else {
        greatest_below(s, below - 1)
    }
}

/// The number of members of `s` in `0..i`.
pub open spec fn rank(s: Set<int>, i: int) -> nat
    decreases i,
{
    if i <= 0 {
        0
    } else {
        rank(s, i - 1) + if s.contains(i - 1) {
            1nat
        } else {
            0nat
        }
    }
}

/// The members of `s` in increasing order, numbered from 0: `nth_member(s, 0)`
/// is the least member, and each next one is the least member above the one
/// before. Once the members are used up the value is 256.
pub open spec fn nth_member(s: Set<int>, n: nat) -> int
    decreases n,
{
    if n == 0 {
        least_from(s, 0)
    } else {
        least_from(s, nth_member(s, (n - 1) as nat) + 1)
    }
}

/// The result of inserting `start`, `start + 1`, ..., `end` into `s`, one index at a time.
pub open spec fn insert_each(s: Set<int>, start: int, end: int) -> Set<int>
    decreases end - start + 1,
{
    if end < start {
        s
    } else {
        insert_each(s, start, end - 1).insert(end)
    }
}

/// `least_from(s, from)` is 256 or a member of `s` at or above `from`, and no
/// member of `s` lies between `from` and it.
pub proof fn lemma_least_from(s: Set<int>, from: int)
    ensures
        least_from(s, from) == 256 || (from <= least_from(s, from) < 256 && s.contains(
            least_from(s, from),
        )),
        forall|m: int| from <= m < least_from(s, from) ==> !s.contains(m),
    decreases 256 - from,
{
    if from < 256 && !s.contains(from) {
        lemma_least_from(s, from + 1);
    }
}

/// Only one value has the properties that `lemma_least_from` states.
pub proof fn lemma_least_from_unique(s: Set<int>, from: int, r: int)
    requires
        r == 256 || (from <= r < 256 && s.contains(r)),
        forall|m: int| from <= m < r ==> !s.contains(m),
    ensures
        r == least_from(s, from),
    decreases 256 - from,
{
    if from < 256 && !s.contains(from) {
        lemma_least_from_unique(s, from + 1, r);
    }
}

/// `greatest_below(s, below)` is the one value `r` that is 256 when `s` has no
/// member in `0..below`, and else a member of `s` under `below` with no member
/// of `s` between it and `below`.
pub proof fn lemma_greatest_below_unique(s: Set<int>, below: int, r: int)
    requires
        below <= 256,
        r == 256 || (0 <= r < below && s.contains(r)),
        r == 256 ==> forall|m: int| 0 <= m < below ==> !s.contains(m),
        forall|m: int| r < m < below ==> !s.contains(m),
    ensures
        r == greatest_below(s, below),
    decreases below,
{
    if below > 0 && !s.contains(below - 1) {
        lemma_greatest_below_unique(s, below - 1, r);
    }
}

/// `rank` grows with the index, by at most one per index.
pub proof fn lemma_rank_monotonic(s: Set<int>, i: int, j: int)
    requires
        i <= j,
    ensures
        rank(s, i) <= rank(s, j),
        rank(s, j) <= rank(s, i) + (j - i),
    decreases j - i,
{
    if i < j {
        lemma_rank_monotonic(s, i, j - 1);
    }
}

/// `rank` does not change across a stretch that holds no member.
pub proof fn lemma_rank_gap(s: Set<int>, i: int, j: int)
    requires
        i <= j,
        forall|m: int| i <= m < j ==> !s.contains(m),
    ensures
        rank(s, j) == rank(s, i),
    decreases j - i,
{
    if i < j {
        lemma_rank_gap(s, i, j - 1);
    }
}

/// A member has more members below the indices above it than below itself.
pub proof fn lemma_rank_member(s: Set<int>, m: int, j: int)
    requires
        0 <= m < j,
        s.contains(m),
    ensures
        rank(s, m) < rank(s, j),
{
    lemma_rank_monotonic(s, m + 1, j);
}

/// `rank(s, i)` is the cardinality of the part of `s` that lies in `0..i`.
pub proof fn lemma_rank_is_len(s: Set<int>, i: int)
    requires
        0 <= i,
    ensures
        s.intersect(set_int_range(0, i)).finite(),
        s.intersect(set_int_range(0, i)).len() == rank(s, i),
    decreases i,
{
    let part = s.intersect(set_int_range(0, i));
    if i == 0 {
        assert(part =~= Set::empty());
    } else {
        lemma_rank_is_len(s, i - 1);
        let less = s.intersect(set_int_range(0, i - 1));
        if s.contains(i - 1) {
            assert(part =~= less.insert(i - 1));
        } else {
            assert(part =~= less);
        }
    }
}

/// A set of indices in `0..256` is finite, with at most 256 members, as many
/// as `rank` counts below 256.
pub proof fn lemma_bounded_len(s: Set<int>)
    requires
        s.subset_of(universe()),
    ensures
        s.finite(),
        s.len() == rank(s, 256),
        s.len() <= 256,
{
    lemma_rank_is_len(s, 256);
    assert(s.intersect(set_int_range(0, 256)) =~= s);
    lemma_rank_monotonic(s, 0, 256);
}

/// What `nth_member(s, n)` is: the member of `s` with exactly `n` members
/// below it, or 256 when `s` has at most `n` members below 256.
pub proof fn lemma_nth_member(s: Set<int>, n: nat)
    ensures
        nth_member(s, n) == 256 || (0 <= nth_member(s, n) < 256 && s.contains(nth_member(s, n))),
        nth_member(s, n) == 256 ==> rank(s, 256) <= n,
        nth_member(s, n) != 256 ==> rank(s, nth_member(s, n)) == n,
    decreases n,
{
    let v = nth_member(s, n);
    if n == 0 {
        lemma_least_from(s, 0);
        lemma_rank_gap(s, 0, v);
    } else {
        let u = nth_member(s, (n - 1) as nat);
        lemma_nth_member(s, (n - 1) as nat);
        lemma_least_from(s, u + 1);
        if u != 256 {
            lemma_rank_gap(s, u + 1, v);
        }
    }
}

/// Only one value has the properties that `lemma_nth_member` states.
pub proof fn lemma_nth_member_unique(s: Set<int>, n: nat, r: int)
    requires
        r == 256 || (0 <= r < 256 && s.contains(r)),
        r == 256 ==> rank(s, 256) <= n,
        r != 256 ==> rank(s, r) == n,
    ensures
        r == nth_member(s, n),
{
    let v = nth_member(s, n);
    lemma_nth_member(s, n);
    if r != 256 {
        lemma_rank_member(s, r, 256);
    }
    if v != 256 {
        lemma_rank_member(s, v, 256);
    }
    if r != 256 && v != 256 {
        if r < v {
            lemma_rank_member(s, r, v);
        }
        if v < r {
            lemma_rank_member(s, v, r);
        }
    }
}

} // verus!
