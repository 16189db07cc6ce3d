//! Equality and order of bit sets. Both go by the four words, word 0 first,
//! so equal sets are equal values and the order is total.

use crate::bitset::BitSet256;
use core::cmp::Ordering;
use vstd::prelude::*;

verus! {

/// Whether `a` comes before `b` when the two are compared word by word,
/// word 0 first: at the first word in which they differ, `a` has the lesser one.
pub open spec fn words_before(a: Seq<u64>, b: Seq<u64>) -> bool {
    exists|i: int| 0 <= i < 4 && #[trigger] a[i] < b[i] && forall|j: int| 0 <= j < i ==> a[j] == b[j]
}

impl PartialEq for BitSet256 {
    /// Whether the two bit sets are the same value, which they are exactly
    /// when they have the same members.
    fn eq(&self, other: &Self) -> (r: bool) {
        proof {
            if self.bits[0] == other.bits[0] && self.bits[1] == other.bits[1] && self.bits[2]
                == other.bits[2] && self.bits[3] == other.bits[3] {
                assert(self.bits =~= other.bits);
            }
        }
        self.bits[0] == other.bits[0] && self.bits[1] == other.bits[1] && self.bits[2]
            == other.bits[2] && self.bits[3] == other.bits[3]
    }
}

impl vstd::std_specs::cmp::PartialEqSpecImpl for BitSet256 {
    open spec fn obeys_eq_spec() -> bool {
        true
    }

    open spec fn eq_spec(&self, other: &Self) -> bool {
        *self == *other
    }
}

impl PartialOrd for BitSet256 {
    /// Compares the words as numbers, word 0 first. The result is never `None`.
    fn partial_cmp(&self, other: &Self) -> (r: Option<Ordering>) {
        proof {
            self.lemma_order_is_total(other);
        }
        if self.bits[0] < other.bits[0] {
            Some(Ordering::Less)
        } else if self.bits[0] > other.bits[0] {
            Some(Ordering::Greater)
        } else if self.bits[1] < other.bits[1] {
            Some(Ordering::Less)
        } else if self.bits[1] > other.bits[1] {
            Some(Ordering::Greater)
        } else if self.bits[2] < other.bits[2] {
            Some(Ordering::Less)
        } else if self.bits[2] > other.bits[2] {
            Some(Ordering::Greater)
        } else if self.bits[3] < other.bits[3] {
            Some(Ordering::Less)
        } else if self.bits[3] > other.bits[3] {
            Some(Ordering::Greater)
        } else {
            Some(Ordering::Equal)
        }
    }
}

impl vstd::std_specs::cmp::PartialOrdSpecImpl for BitSet256 {
    open spec fn obeys_partial_cmp_spec() -> bool {
        true
    }

    open spec fn partial_cmp_spec(&self, other: &Self) -> Option<Ordering> {
        if words_before(self.words(), other.words()) {
            Some(Ordering::Less)
        } else if words_before(other.words(), self.words()) {
            Some(Ordering::Greater)
        } else {
            Some(Ordering::Equal)
        }
    }
}

impl BitSet256 {
    /// Of two bit sets, either one comes before the other or they are
    /// equal, and only one of the three holds.
    pub proof fn lemma_order_is_total(&self, other: &Self)
        ensures
            words_before(self.words(), other.words()) || words_before(other.words(), self.words())
                || *self == *other,
            !(words_before(self.words(), other.words()) && words_before(
                other.words(),
                self.words(),
            )),
            *self == *other ==> !words_before(self.words(), other.words()),
    {
        let a = self.words();
        let b = other.words();
        let i = if a[0] != b[0] {
            0int
        } else if a[1] != b[1] {
            1int
        } else if a[2] != b[2] {
            2int
        } else {
            3int
        };
        if a[i] == b[i] {
            assert(self.bits =~= other.bits);
        } else if a[i] < b[i] {
            assert(words_before(a, b));
        } else {
            assert(b[i] < a[i]);
            assert(words_before(b, a));
        }
    }

    /// The order is transitive.
    pub proof fn lemma_order_is_transitive(&self, second: &Self, third: &Self)
        requires
            words_before(self.words(), second.words()),
            words_before(second.words(), third.words()),
        ensures
            words_before(self.words(), third.words()),
    {
        let a = self.words();
        let b = second.words();
        let c = third.words();
        let i = choose|i: int|
            0 <= i < 4 && #[trigger] a[i] < b[i] && forall|j: int| 0 <= j < i ==> a[j] == b[j];
        let k = choose|k: int|
            0 <= k < 4 && #[trigger] b[k] < c[k] && forall|j: int| 0 <= j < k ==> b[j] == c[j];
        let m = if i <= k {
            i
        } else {
            k
        };
        assert(a[m] < c[m]);
    }
}

} // verus!
