//! Filling a whole range of indices at once.

use crate::bitset::BitSet256;
use crate::model::span;
use crate::word::{bit, lemma_constant_bits, lemma_mask_bits, lemma_operator_bits};
use std::ops::Range;
use vstd::prelude::*;
use vstd::set_lib::set_int_range;

verus! {

/// The least multiple of 64 that is not below `n`.
pub(crate) fn roundup_64(n: usize) -> (r: usize)
    requires
        n + 0x3f <= usize::MAX,
    ensures
        r % 64 == 0,
        n <= r < n + 64,
{
    let sum: usize = n + 0x3f;
    let r: usize = sum & !0x3f;
    assert(r == sum - sum % 64) by (bit_vector)
        requires
            r == sum & !0x3fusize,
    ;
    r
}

impl BitSet256 {
    /// Changing word `w` so that its bits for the indices in `added` are set,
    /// and nothing else, puts `added` into the set.
    proof fn lemma_word_filled(&self, after: &Self, w: int, added: Set<int>)
        requires
            0 <= w < 4,
            forall|j: int| 0 <= j < 4 && j != w ==> after.bits[j] == self.bits[j],
            forall|k: int|
                0 <= k < 64 ==> #[trigger] bit(after.bits[w], k) == (bit(self.bits[w], k)
                    || added.contains(64 * w + k)),
            forall|n: int| added.contains(n) ==> 64 * w <= n < 64 * w + 64,
        ensures
            after@ == self@.union(added),
    {
        assert forall|j: int, k: int| 0 <= j < 4 && 0 <= k < 64 implies #[trigger] bit(
            after.bits[j],
            k,
        ) == self@.union(added).contains(64 * j + k) by {
            self.lemma_member(j, k);
        }
        after.lemma_view_is(self@.union(added));
    }

    /// Puts every index from `range.start` to `range.end` into the set.
    /// Both ends are included: `range.end` is the last index that is set.
    pub fn set_range(&mut self, range: Range<usize>)
        requires
            range.start <= range.end < 256,
        ensures
            final(self)@ == old(self)@.union(span(range.start as int, range.end as int)),
    {
        let ghost start = range.start as int;
        let ghost end = range.end as int;
        if range.start / 64 == range.end / 64 {
            let mut block = u64::MAX << (range.start % 64);
            proof {
                lemma_mask_bits((range.start % 64) as u64);
            }
            if range.end % 64 != 63 {
                let upper = Self::maskbit(range.end + 1) - 1;
                proof {
                    lemma_mask_bits(((range.end + 1) % 64) as u64);
                    lemma_operator_bits(block, upper);
                }
                block &= upper;
            }
            let w = range.start / 64;
            proof {
                lemma_operator_bits(self.bits[w as int], block);
            }
            self.bits[w] |= block;
            proof {
                old(self).lemma_word_filled(self, w as int, span(start, end));
            }
            return;
        }
        let mut i = range.start;
        if i % 64 != 0 {
            let block = u64::MAX << (i % 64);
            let w = i / 64;
            proof {
                lemma_mask_bits((i % 64) as u64);
                lemma_operator_bits(self.bits[w as int], block);
            }
            self.bits[w] |= block;
            i = roundup_64(i);
            proof {
                old(self).lemma_word_filled(self, w as int, set_int_range(start, i as int));
            }
        }
        assert(self@ =~= old(self)@.union(set_int_range(start, i as int)));
        while i + 63 <= range.end
            invariant
                start == range.start,
                end == range.end,
                start <= i <= end + 1,
                end < 256,
                i % 64 == 0,
                self@ == old(self)@.union(set_int_range(start, i as int)),
            decreases 256 - i,
        {
            let ghost before = *self;
            let w = i / 64;
            self.bits[w] = u64::MAX;
            proof {
                lemma_constant_bits();
                before.lemma_word_filled(self, w as int, set_int_range(i as int, i + 64));
                assert(old(self)@.union(set_int_range(start, i as int)).union(
                    set_int_range(i as int, i + 64),
                ) =~= old(self)@.union(set_int_range(start, i + 64)));
            }
            i += 64;
        }
        if i <= range.end {
            let ghost before = *self;
            let w = i / 64;
            let block = Self::maskbit(range.end + 1) - 1;
            proof {
                lemma_mask_bits(((range.end + 1) % 64) as u64);
                lemma_operator_bits(self.bits[w as int], block);
            }
            self.bits[w] |= block;
            proof {
                before.lemma_word_filled(self, w as int, set_int_range(i as int, end + 1));
            }
        }
        assert(self@ =~= old(self)@.union(span(start, end)));
    }
}

} // verus!
