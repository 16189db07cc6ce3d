//! Combining two bit sets: `&`, `|` and `^`, each as an operator that gives
//! a new set and as a method that changes the left operand in place.

use crate::bitset::BitSet256;
use crate::model::symmetric_difference;
use crate::word::{bit, lemma_operator_bits};
use std::ops::{BitAnd, BitAndAssign, BitOr, BitOrAssign, BitXor, BitXorAssign};
use vstd::prelude::*;

verus! {

impl BitSet256 {
    /// The set whose words are `self`'s and `rhs`'s, combined by `&`.
    pub closed spec fn and(self, rhs: Self) -> Self {
        BitSet256 {
            bits: [
                self.bits[0] & rhs.bits[0],
                self.bits[1] & rhs.bits[1],
                self.bits[2] & rhs.bits[2],
                self.bits[3] & rhs.bits[3],
            ],
        }
    }

    /// The set whose words are `self`'s and `rhs`'s, combined by `|`.
    pub closed spec fn or(self, rhs: Self) -> Self {
        BitSet256 {
            bits: [
                self.bits[0] | rhs.bits[0],
                self.bits[1] | rhs.bits[1],
                self.bits[2] | rhs.bits[2],
                self.bits[3] | rhs.bits[3],
            ],
        }
    }

    /// The set whose words are `self`'s and `rhs`'s, combined by `^`.
    pub closed spec fn xor(self, rhs: Self) -> Self {
        BitSet256 {
            bits: [
                self.bits[0] ^ rhs.bits[0],
                self.bits[1] ^ rhs.bits[1],
                self.bits[2] ^ rhs.bits[2],
                self.bits[3] ^ rhs.bits[3],
            ],
        }
    }

    /// Combining the words by `&`, `|` and `^` gives the intersection, the
    /// union and the symmetric difference of the members.
    pub proof fn lemma_combined_views(self, rhs: Self)
        ensures
            self.and(rhs)@ == self@.intersect(rhs@),
            self.or(rhs)@ == self@.union(rhs@),
            self.xor(rhs)@ == symmetric_difference(self@, rhs@),
    {
        let and = self.and(rhs);
        let or = self.or(rhs);
        let xor = self.xor(rhs);
        assert forall|j: int, k: int| 0 <= j < 4 && 0 <= k < 64 implies #[trigger] bit(
            and.bits[j],
            k,
        ) == self@.intersect(rhs@).contains(64 * j + k) by {
            lemma_operator_bits(self.bits[j], rhs.bits[j]);
            self.lemma_member(j, k);
            rhs.lemma_member(j, k);
        }
        assert forall|j: int, k: int| 0 <= j < 4 && 0 <= k < 64 implies #[trigger] bit(
            or.bits[j],
            k,
        ) == self@.union(rhs@).contains(64 * j + k) by {
            lemma_operator_bits(self.bits[j], rhs.bits[j]);
            self.lemma_member(j, k);
            rhs.lemma_member(j, k);
        }
        assert forall|j: int, k: int| 0 <= j < 4 && 0 <= k < 64 implies #[trigger] bit(
            xor.bits[j],
            k,
        ) == symmetric_difference(self@, rhs@).contains(64 * j + k) by {
            lemma_operator_bits(self.bits[j], rhs.bits[j]);
            self.lemma_member(j, k);
            rhs.lemma_member(j, k);
        }
        self.and(rhs).lemma_view_is(self@.intersect(rhs@));
        self.or(rhs).lemma_view_is(self@.union(rhs@));
        self.xor(rhs).lemma_view_is(symmetric_difference(self@, rhs@));
    }
}

impl BitAndAssign for BitSet256 {
    /// Keeps the members that are also in `rhs`.
    fn bitand_assign(&mut self, rhs: Self)
        ensures
            *final(self) == old(self).and(rhs),
            final(self)@ == old(self)@.intersect(rhs@),
    {
        self.bits[0] &= rhs.bits[0];
        self.bits[1] &= rhs.bits[1];
        self.bits[2] &= rhs.bits[2];
        self.bits[3] &= rhs.bits[3];
        proof {
            assert(self.bits =~= old(self).and(rhs).bits);
            old(self).lemma_combined_views(rhs);
        }
    }
}

impl BitAnd for BitSet256 {
    type Output = Self;

    /// The members of both sets.
    fn bitand(self, rhs: Self) -> (r: Self)
        ensures
            r@ == self@.intersect(rhs@),
    {
        let mut r = self;
        r.bitand_assign(rhs);
        r
    }
}

impl vstd::std_specs::ops::BitAndSpecImpl for BitSet256 {
    open spec fn obeys_bitand_spec() -> bool {
        true
    }

    open spec fn bitand_req(self, rhs: Self) -> bool {
        true
    }

    open spec fn bitand_spec(self, rhs: Self) -> Self {
        self.and(rhs)
    }
}

impl BitOrAssign for BitSet256 {
    /// Adds the members of `rhs`.
    fn bitor_assign(&mut self, rhs: Self)
        ensures
            *final(self) == old(self).or(rhs),
            final(self)@ == old(self)@.union(rhs@),
    {
        self.bits[0] |= rhs.bits[0];
        self.bits[1] |= rhs.bits[1];
        self.bits[2] |= rhs.bits[2];
        self.bits[3] |= rhs.bits[3];
        proof {
            assert(self.bits =~= old(self).or(rhs).bits);
            old(self).lemma_combined_views(rhs);
        }
    }
}

impl BitOr for BitSet256 {
    type Output = Self;

    /// The members of either set.
    fn bitor(self, rhs: Self) -> (r: Self)
        ensures
            r@ == self@.union(rhs@),
    {
        let mut r = self;
        r.bitor_assign(rhs);
        r
    }
}

impl vstd::std_specs::ops::BitOrSpecImpl for BitSet256 {
    open spec fn obeys_bitor_spec() -> bool {
        true
    }

    open spec fn bitor_req(self, rhs: Self) -> bool {
        true
    }

    open spec fn bitor_spec(self, rhs: Self) -> Self {
        self.or(rhs)
    }
}

impl BitXorAssign for BitSet256 {
    /// Keeps the members of exactly one of the two sets.
    fn bitxor_assign(&mut self, rhs: Self)
        ensures
            *final(self) == old(self).xor(rhs),
            final(self)@ == symmetric_difference(old(self)@, rhs@),
    {
        self.bits[0] ^= rhs.bits[0];
        self.bits[1] ^= rhs.bits[1];
        self.bits[2] ^= rhs.bits[2];
        self.bits[3] ^= rhs.bits[3];
        proof {
            assert(self.bits =~= old(self).xor(rhs).bits);
            old(self).lemma_combined_views(rhs);
        }
    }
}

impl BitXor for BitSet256 {
    type Output = Self;

    /// The members of exactly one of the two sets.
    fn bitxor(self, rhs: Self) -> (r: Self)
        ensures
            r@ == symmetric_difference(self@, rhs@),
    {
        let mut r = self;
        r.bitxor_assign(rhs);
        r
    }
}

impl vstd::std_specs::ops::BitXorSpecImpl for BitSet256 {
    open spec fn obeys_bitxor_spec() -> bool {
        true
    }

    open spec fn bitxor_req(self, rhs: Self) -> bool {
        true
    }

    open spec fn bitxor_spec(self, rhs: Self) -> Self {
        self.xor(rhs)
    }
}

} // verus!
