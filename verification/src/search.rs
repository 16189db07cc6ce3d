//! Walking the members in increasing order: the first, the last, the next
//! after a given index, and the member of a given rank.

use crate::bitset::BitSet256;
use crate::model::{
    greatest_below, least_from, lemma_bounded_len, lemma_greatest_below_unique,
    lemma_least_from_unique, lemma_nth_member_unique, lemma_rank_member, nth_member, rank,
};
use crate::word::{
    bit, highest, lemma_clear_lowest, lemma_constant_bits, lemma_highest, lemma_lowest,
    lemma_mask_bits, lemma_ones_below_monotonic, lemma_ones_below_reaches, lemma_operator_bits,
    lowest, ones, ones_below,
};
use vstd::prelude::*;

verus! {

impl BitSet256 {
    /// A zero word holds no member.
    proof fn lemma_empty_word(&self, j: int)
        requires
            0 <= j < 4,
            self.bits[j] == 0,
        ensures
            forall|m: int| 64 * j <= m < 64 * j + 64 ==> !self@.contains(m),
    {
        lemma_constant_bits();
    }

    /// The least member, or 256 when the set is empty.
    pub fn find_first(&self) -> (r: usize)
        ensures
            r == least_from(self@, 0),
            r == 256 <==> self@.is_empty(),
            r != 256 ==> r < 256 && self@.contains(r as int),
            forall|m: int| self@.contains(m) ==> r <= m,
    {
        let mut i: usize = 0;
        while i < 4
            invariant
                i <= 4,
                forall|m: int| 0 <= m < 64 * i ==> !self@.contains(m),
            decreases 4 - i,
        {
            let block = self.bits[i];
            if block != 0 {
                proof {
                    lemma_lowest(block);
                    self.lemma_member(i as int, lowest(block));
                    lemma_least_from_unique(self@, 0, 64 * i + lowest(block));
                }
                return i * 64 + block.trailing_zeros() as usize;
            }
            proof {
                self.lemma_empty_word(i as int);
            }
            i += 1;
        }
        proof {
            lemma_least_from_unique(self@, 0, 256);
            assert(self@ =~= Set::empty());
        }
        256
    }

    /// The greatest member, or 256 when the set is empty.
    pub fn find_last(&self) -> (r: usize)
        ensures
            r == greatest_below(self@, 256),
            r == 256 <==> self@.is_empty(),
            r != 256 ==> r < 256 && self@.contains(r as int),
            forall|m: int| self@.contains(m) ==> m <= r,
    {
        let mut i: usize = 4;
        while i > 0
            invariant
                i <= 4,
                forall|m: int| 64 * i <= m < 256 ==> !self@.contains(m),
            decreases i,
        {
            i -= 1;
            let block = self.bits[i];
            if block != 0 {
                proof {
                    lemma_highest(block);
                    self.lemma_member(i as int, highest(block));
                    lemma_greatest_below_unique(self@, 256, 64 * i + highest(block));
                }
                return (i + 1) * 64 - 1 - block.leading_zeros() as usize;
            }
            proof {
                self.lemma_empty_word(i as int);
            }
        }
        proof {
            lemma_greatest_below_unique(self@, 256, 256);
            assert(self@ =~= Set::empty());
        }
        256
    }

    /// The least member above `last`, or 256 when there is none. For a
    /// `last` of 256 or more the result is 256.
    pub fn find_next(&self, last: usize) -> (r: usize)
        ensures
            r == least_from(self@, last + 1),
            r == 256 <==> forall|m: int| self@.contains(m) ==> m <= last,
            r != 256 ==> last < r < 256 && self@.contains(r as int),
            forall|m: int| self@.contains(m) && last < m ==> r <= m,
    {
        if last >= 256 {
            return 256;
        }
        let i = Self::getword(last);
        let mut last_block = self.bits[i];
        if (last % 64) != 63 {
            let above = u64::MAX << ((last % 64) + 1);
            proof {
                lemma_mask_bits((last % 64 + 1) as u64);
                lemma_operator_bits(last_block, above);
            }
            last_block &= above;
            proof {
                if last_block != 0 {
                    lemma_lowest(last_block);
                }
                lemma_constant_bits();
                let end = if last_block != 0 {
                    64 * i + lowest(last_block)
                } else {
                    64 * i + 64
                };
                assert forall|m: int| last < m < end implies !self@.contains(m) by {
                    self.lemma_member(i as int, m - 64 * i);
                    assert(!bit(last_block, m - 64 * i));
                }
            }
            if last_block > 0 {
                proof {
                    self.lemma_member(i as int, lowest(last_block));
                    lemma_least_from_unique(self@, last + 1, 64 * i + lowest(last_block));
                }
                return i * 64 + last_block.trailing_zeros() as usize;
            }
        }
        let mut i = i + 1;
        while i < 4
            invariant
                last < 64 * i,
                i <= 4,
                forall|m: int| last < m < 64 * i ==> !self@.contains(m),
            decreases 4 - i,
        {
            if self.bits[i] > 0 {
                proof {
                    lemma_lowest(self.bits[i as int]);
                    self.lemma_member(i as int, lowest(self.bits[i as int]));
                    lemma_least_from_unique(
                        self@,
                        last + 1,
                        64 * i + lowest(self.bits[i as int]),
                    );
                }
                return i * 64 + self.bits[i].trailing_zeros() as usize;
            }
            proof {
                self.lemma_empty_word(i as int);
            }
            i += 1;
        }
        proof {
            lemma_least_from_unique(self@, last + 1, 256);
        }
        256
    }

    /// The member that has exactly `n` members below it, or 256 when the set
    /// has `n` members or fewer.
    pub fn select(&self, n: usize) -> (r: usize)
        requires
            n < 256,
        ensures
            r == nth_member(self@, n as nat),
            r == 256 <==> self@.len() <= n,
            r != 256 ==> r < 256 && self@.contains(r as int) && rank(self@, r as int) == n,
    {
        let mut sum: usize = 0;
        let mut pos: usize = 0;
        let mut i: usize = 0;
        while i < 4
            invariant
                i <= 4,
                pos == 64 * i,
                sum == rank(self@, 64 * i),
                sum <= n < 256,
            decreases 4 - i,
        {
            let word = self.bits[i];
            proof {
                self.lemma_rank_in_word(i as int, 64);
                lemma_ones_below_monotonic(word, 0, 64);
            }
            let next_sum = word.count_ones() as usize;
            if sum + next_sum > n {
                let ghost base = sum;
                let mut block = word;
                while sum < n
                    invariant
                        base <= sum <= n < 256,
                        ones(word) > n - base,
                        forall|k: int|
                            #[trigger] bit(block, k) == (bit(word, k) && ones_below(word, k) >= sum
                                - base),
                    decreases n - sum,
                {
                    proof {
                        let k0 = lemma_ones_below_reaches(word, 64, (sum - base) as nat);
                        assert(bit(block, k0));
                        lemma_constant_bits();
                        lemma_lowest(block);
                        lemma_clear_lowest(block);
                        let z = lowest(block);
                        lemma_ones_below_monotonic(word, z, k0);
                        assert forall|k: int|
                            #[trigger] bit(block & ((block - 1) as u64), k) == (bit(word, k)
                                && ones_below(word, k) >= sum + 1 - base) by {
                            if bit(word, k) && z < k {
                                lemma_ones_below_monotonic(word, z + 1, k);
                            }
                        }
                    }
                    block &= block - 1;
                    sum += 1;
                }
                proof {
                    let k0 = lemma_ones_below_reaches(word, 64, (n - base) as nat);
                    assert(bit(block, k0));
                    lemma_constant_bits();
                    lemma_lowest(block);
                    let z = lowest(block);
                    lemma_ones_below_monotonic(word, z, k0);
                    self.lemma_rank_in_word(i as int, z);
                    self.lemma_member(i as int, z);
                    lemma_nth_member_unique(self@, n as nat, 64 * i + z);
                    lemma_rank_member(self@, 64 * i + z, 256);
                    lemma_bounded_len(self@);
                }
                return pos + block.trailing_zeros() as usize;
            }
            sum += next_sum;
            pos += 64;
            i += 1;
        }
        proof {
            lemma_nth_member_unique(self@, n as nat, 256);
            lemma_bounded_len(self@);
        }
        256
    }
}

} // verus!
