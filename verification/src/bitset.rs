//! The bit set itself: its representation, its view as a set of indices,
//! and the operations on single bits and on the whole set.

use crate::model::{rank, universe};
use crate::word::{
    bit, lemma_constant_bits, lemma_extreme_words, lemma_inverted_bits, lemma_lowest,
    lemma_mask_bits, lemma_ones_below_monotonic, lemma_operator_bits, lemma_same_bits,
    lemma_test_bit, lowest, ones, ones_below,
};
use vstd::prelude::*;

verus! {

/// A set of integers in `0..256`, stored in four 64-bit words.
///
/// Index `n` is a member exactly when bit `n % 64` of word `n / 64` is set.
/// Every value of the four words stands for a set, and no two values for the
/// same set, so the type needs no further invariant. The default value is
/// the empty set.
///
/// An index handed to an operation has to be below 256. The operations state
/// this as a precondition, which is checked where a verified caller makes
/// the call, and not again when the code runs: a caller that is not verified
/// has to see to it itself.
///
/// Equality, hashing and the total order all go by the four words, word 0
/// first, so a bit set can serve as a key in hashed and in sorted containers.
#[derive(Clone, Copy, Debug, Eq, Ord, Hash)]
pub struct BitSet256 {
    pub(crate) bits: [u64; 4],
}

impl BitSet256 {
    /// The four words, word 0 first.
    pub open(crate) spec fn words(&self) -> Seq<u64> {
        self.bits@
    }

    /// The members of the set.
    pub open spec fn view(&self) -> Set<int> {
        Set::new(|n: int| 0 <= n < 256 && bit(self.words()[n / 64], n % 64))
    }

    /// Bit `k` of word `j` says whether `64 * j + k` is a member.
    pub(crate) proof fn lemma_member(&self, j: int, k: int)
        requires
            0 <= j < 4,
            0 <= k < 64,
        ensures
            self@.contains(64 * j + k) == bit(self.bits[j], k),
    {
    }

    /// The view is `s` as soon as the words hold the members of `s` bit by bit.
    pub(crate) proof fn lemma_view_is(&self, s: Set<int>)
        requires
            s.subset_of(universe()),
            forall|j: int, k: int|
                0 <= j < 4 && 0 <= k < 64 ==> #[trigger] bit(self.bits[j], k) == s.contains(
                    64 * j + k,
                ),
        ensures
            self@ == s,
    {
        assert forall|n: int| self@.contains(n) == s.contains(n) by {
            if 0 <= n < 256 {
                assert(bit(self.bits[n / 64], n % 64) == s.contains(64 * (n / 64) + n % 64));
            }
        }
        assert(self@ =~= s);
    }

    /// Every member is an index in `0..256`, so there are at most 256 of them.
    pub proof fn lemma_view_bounded(&self)
        ensures
            self@.subset_of(universe()),
            self@.finite(),
            self@.len() <= 256,
    {
        crate::model::lemma_bounded_len(self@);
    }

    /// Two bit sets with the same members are equal.
    pub proof fn lemma_view_injective(&self, other: &Self)
        requires
            self@ == other@,
        ensures
            *self == *other,
    {
        assert forall|j: int| 0 <= j < 4 implies self.bits[j] == other.bits[j] by {
            assert forall|k: int| 0 <= k < 64 implies bit(self.bits[j], k) == bit(
                other.bits[j],
                k,
            ) by {
                self.lemma_member(j, k);
                other.lemma_member(j, k);
            }
            lemma_same_bits(self.bits[j], other.bits[j]);
        }
        assert(self.bits =~= other.bits);
    }

    /// Within word `j`, the rank grows by the number of set bits passed.
    pub(crate) proof fn lemma_rank_in_word(&self, j: int, k: int)
        requires
            0 <= j < 4,
            0 <= k <= 64,
        ensures
            rank(self@, 64 * j + k) == rank(self@, 64 * j) + ones_below(self.bits[j], k),
        decreases k,
    {
        if k > 0 {
            self.lemma_rank_in_word(j, k - 1);
            self.lemma_member(j, k - 1);
        }
    }

    /// Word by word, the rank grows by the number of set bits, up to the
    /// number of members at 256. No word has more than 64 set bits.
    pub(crate) proof fn lemma_rank_of_words(&self)
        ensures
            rank(self@, 0) == 0,
            rank(self@, 64) == ones(self.bits[0]),
            rank(self@, 128) == rank(self@, 64) + ones(self.bits[1]),
            rank(self@, 192) == rank(self@, 128) + ones(self.bits[2]),
            rank(self@, 256) == rank(self@, 192) + ones(self.bits[3]),
            self@.len() == rank(self@, 256),
            forall|j: int| 0 <= j < 4 ==> ones(#[trigger] self.bits[j]) <= 64,
    {
        self.lemma_rank_in_word(0, 64);
        self.lemma_rank_in_word(1, 64);
        self.lemma_rank_in_word(2, 64);
        self.lemma_rank_in_word(3, 64);
        crate::model::lemma_bounded_len(self@);
        assert forall|j: int| 0 <= j < 4 implies ones(#[trigger] self.bits[j]) <= 64 by {
            lemma_ones_below_monotonic(self.bits[j], 0, 64);
        }
    }

    /// Puts every index into the set.
    pub fn set_all(&mut self)
        ensures
            final(self)@ == universe(),
    {
        self.bits[0] = u64::MAX;
        self.bits[1] = u64::MAX;
        self.bits[2] = u64::MAX;
        self.bits[3] = u64::MAX;
        proof {
            lemma_constant_bits();
            self.lemma_view_is(universe());
        }
    }

    /// Empties the set.
    pub fn unset_all(&mut self)
        ensures
            final(self)@ == Set::<int>::empty(),
    {
        self.bits[0] = 0;
        self.bits[1] = 0;
        self.bits[2] = 0;
        self.bits[3] = 0;
        proof {
            lemma_constant_bits();
            self.lemma_view_is(Set::empty());
        }
    }

    /// Puts `n` into the set.
    pub fn set(&mut self, n: usize)
        requires
            n < 256,
        ensures
            final(self)@ == old(self)@.insert(n as int),
    {
        let w = Self::getword(n);
        let mask = Self::maskbit(n);
        self.bits[w] |= mask;
        proof {
            lemma_operator_bits(old(self).bits[w as int], mask);
            assert forall|j: int, k: int| 0 <= j < 4 && 0 <= k < 64 implies #[trigger] bit(
                self.bits[j],
                k,
            ) == old(self)@.insert(n as int).contains(64 * j + k) by {
                old(self).lemma_member(j, k);
            }
            self.lemma_view_is(old(self)@.insert(n as int));
        }
    }

    /// Takes `n` out of the set.
    pub fn unset(&mut self, n: usize)
        requires
            n < 256,
        ensures
            final(self)@ == old(self)@.remove(n as int),
    {
        let w = Self::getword(n);
        let mask = Self::unmaskbit(n);
        self.bits[w] &= mask;
        proof {
            lemma_operator_bits(old(self).bits[w as int], mask);
            assert forall|j: int, k: int| 0 <= j < 4 && 0 <= k < 64 implies #[trigger] bit(
                self.bits[j],
                k,
            ) == old(self)@.remove(n as int).contains(64 * j + k) by {
                old(self).lemma_member(j, k);
            }
            self.lemma_view_is(old(self)@.remove(n as int));
        }
    }

    /// Makes `n` a member if it was none, and takes it out if it was one.
    pub fn flip(&mut self, n: usize)
        requires
            n < 256,
        ensures
            final(self)@ == if old(self)@.contains(n as int) {
                old(self)@.remove(n as int)
            } else {
                old(self)@.insert(n as int)
            },
    {
        let w = Self::getword(n);
        let mask = Self::maskbit(n);
        self.bits[w] ^= mask;
        proof {
            let flipped = if old(self)@.contains(n as int) {
                old(self)@.remove(n as int)
            } else {
                old(self)@.insert(n as int)
            };
            lemma_operator_bits(old(self).bits[w as int], mask);
            assert forall|j: int, k: int| 0 <= j < 4 && 0 <= k < 64 implies #[trigger] bit(
                self.bits[j],
                k,
            ) == flipped.contains(64 * j + k) by {
                old(self).lemma_member(j, k);
            }
            old(self).lemma_member(w as int, n as int % 64);
            self.lemma_view_is(flipped);
        }
    }

    /// Replaces the set by its complement within `0..256`.
    pub fn flip_all(&mut self)
        ensures
            final(self)@ == universe().difference(old(self)@),
    {
        self.bits[0] ^= u64::MAX;
        self.bits[1] ^= u64::MAX;
        self.bits[2] ^= u64::MAX;
        self.bits[3] ^= u64::MAX;
        proof {
            assert forall|j: int, k: int| 0 <= j < 4 && 0 <= k < 64 implies #[trigger] bit(
                self.bits[j],
                k,
            ) == universe().difference(old(self)@).contains(64 * j + k) by {
                lemma_inverted_bits(old(self).bits[j]);
                old(self).lemma_member(j, k);
            }
            self.lemma_view_is(universe().difference(old(self)@));
        }
    }

    /// Whether `n` is a member.
    pub fn test(&self, n: usize) -> (r: bool)
        requires
            n < 256,
        ensures
            r == self@.contains(n as int),
    {
        let w = Self::getword(n);
        let mask = Self::maskbit(n);
        proof {
            lemma_test_bit(self.bits[w as int], (n % 64) as u64);
        }
        self.bits[w] & mask != 0
    }

    /// The number of members.
    pub fn count(&self) -> (r: usize)
        ensures
            r == self@.len(),
            r <= 256,
    {
        proof {
            self.lemma_rank_of_words();
        }
        (self.bits[0].count_ones() + self.bits[1].count_ones() + self.bits[2].count_ones()
            + self.bits[3].count_ones()) as usize
    }

    /// Whether the set is empty.
    pub fn none(&self) -> (r: bool)
        ensures
            r == self@.is_empty(),
    {
        proof {
            if self.bits[0] == 0 && self.bits[1] == 0 && self.bits[2] == 0 && self.bits[3] == 0 {
                lemma_constant_bits();
                self.lemma_view_is(Set::empty());
            } else {
                let j = if self.bits[0] != 0 {
                    0int
                } else if self.bits[1] != 0 {
                    1int
                } else if self.bits[2] != 0 {
                    2int
                } else {
                    3int
                };
                lemma_lowest(self.bits[j]);
                self.lemma_member(j, lowest(self.bits[j]));
            }
        }
        self.bits[0] == 0 && self.bits[1] == 0 && self.bits[2] == 0 && self.bits[3] == 0
    }

    /// Whether the set has a member.
    pub fn any(&self) -> (r: bool)
        ensures
            r == !self@.is_empty(),
    {
        !self.none()
    }

    /// Whether every index in `0..256` is a member.
    pub fn all(&self) -> (r: bool)
        ensures
            r == (self@ == universe()),
    {
        proof {
            if self.bits[0] == u64::MAX && self.bits[1] == u64::MAX && self.bits[2] == u64::MAX
                && self.bits[3] == u64::MAX {
                lemma_constant_bits();
                self.lemma_view_is(universe());
            } else {
                let j = if self.bits[0] != u64::MAX {
                    0int
                } else if self.bits[1] != u64::MAX {
                    1int
                } else if self.bits[2] != u64::MAX {
                    2int
                } else {
                    3int
                };
                lemma_extreme_words(self.bits[j]);
                let k = choose|k: int| 0 <= k < 64 && !bit(self.bits[j], k);
                self.lemma_member(j, k);
                assert(universe().contains(64 * j + k));
            }
        }
        self.bits[0] == u64::MAX && self.bits[1] == u64::MAX && self.bits[2] == u64::MAX
            && self.bits[3] == u64::MAX
    }

    /// The word that holds index `n`.
    pub(crate) fn getword(n: usize) -> (w: usize)
        ensures
            w == n / 64,
    {
        n / 64
    }

    /// The word with bit `n % 64` set and no other.
    pub(crate) fn maskbit(n: usize) -> (mask: u64)
        ensures
            mask == 1u64 << ((n % 64) as u64),
            mask >= 1,
            forall|k: int| #[trigger] bit(mask, k) == (k == n % 64),
    {
        proof {
            lemma_mask_bits((n % 64) as u64);
        }
        1u64 << (n % 64)
    }

    /// The word with every bit set but bit `n % 64`.
    pub(crate) fn unmaskbit(n: usize) -> (mask: u64)
        ensures
            forall|k: int| #[trigger] bit(mask, k) == (0 <= k < 64 && k != n % 64),
    {
        proof {
            lemma_mask_bits((n % 64) as u64);
        }
        !(1u64 << (n % 64))
    }
}

impl Default for BitSet256 {
    /// The empty set.
    fn default() -> (r: Self)
        ensures
            r@ == Set::<int>::empty(),
    {
        let r = BitSet256 { bits: [0, 0, 0, 0] };
        proof {
            lemma_constant_bits();
            r.lemma_view_is(Set::empty());
        }
        r
    }
}

} // verus!
