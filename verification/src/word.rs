//! Bits of a single 64-bit word: which positions are set, how many of them,
//! and what the usual masks and bitwise operators do to them.

use vstd::prelude::*;
use vstd::std_specs::bits::{
    axiom_u64_leading_zeros, axiom_u64_trailing_zeros, u64_leading_zeros, u64_trailing_zeros,
};

verus! {

/// Whether bit `k` of `w` is set. No bit is set outside the positions `0..64`.
pub open spec fn bit(w: u64, k: int) -> bool {
    0 <= k < 64 && (w >> (k as u64)) & 1 == 1
}

/// The number of set bits of `w` among the positions `0..k`.
pub open spec fn ones_below(w: u64, k: int) -> nat
    decreases k,
{
    if k <= 0 {
        0
    } else {
        ones_below(w, k - 1) + if bit(w, k - 1) {
            1nat
        } else {
            0nat
        }
    }
}

/// The number of set bits of `w`.
pub open spec fn ones(w: u64) -> nat {
    ones_below(w, 64)
}

/// The position of the lowest set bit of `w`, or 64 when `w` is zero.
pub open spec fn lowest(w: u64) -> int {
    u64_trailing_zeros(w) as int
}

/// The position of the highest set bit of `w`, or -1 when `w` is zero.
pub open spec fn highest(w: u64) -> int {
    63 - u64_leading_zeros(w)
}

/// Trusted: `u64::count_ones` returns the number of ones in the binary
/// representation of its argument, that is, the number of positions in
/// `0..64` whose bit is set.
pub assume_specification[ u64::count_ones ](w: u64) -> (r: u32)
    ensures
        r == ones(w),
;

proof fn lemma_operator_bits_at(a: u64, b: u64, j: u64)
    by (bit_vector)
    requires
        j < 64,
    ensures
        ((a | b) >> j) & 1 == 1 <==> ((a >> j) & 1 == 1 || (b >> j) & 1 == 1),
        ((a & b) >> j) & 1 == 1 <==> ((a >> j) & 1 == 1 && (b >> j) & 1 == 1),
        ((a ^ b) >> j) & 1 == 1 <==> ((a >> j) & 1 == 1) != ((b >> j) & 1 == 1),
        ((a ^ 0xffff_ffff_ffff_ffffu64) >> j) & 1 == 1 <==> !((a >> j) & 1 == 1),
{
}

/// The bits of `a | b`, `a & b` and `a ^ b` are the disjunction, the
/// conjunction and the exclusive disjunction of the bits of `a` and `b`.
pub proof fn lemma_operator_bits(a: u64, b: u64)
    ensures
        forall|k: int| #[trigger] bit(a | b, k) == (bit(a, k) || bit(b, k)),
        forall|k: int| #[trigger] bit(a & b, k) == (bit(a, k) && bit(b, k)),
        forall|k: int| #[trigger] bit(a ^ b, k) == (bit(a, k) != bit(b, k)),
{
    assert forall|k: int| #[trigger] bit(a | b, k) == (bit(a, k) || bit(b, k)) by {
        if 0 <= k < 64 {
            lemma_operator_bits_at(a, b, k as u64);
        }
    }
    assert forall|k: int| #[trigger] bit(a & b, k) == (bit(a, k) && bit(b, k)) by {
        if 0 <= k < 64 {
            lemma_operator_bits_at(a, b, k as u64);
        }
    }
    assert forall|k: int| #[trigger] bit(a ^ b, k) == (bit(a, k) != bit(b, k)) by {
        if 0 <= k < 64 {
            lemma_operator_bits_at(a, b, k as u64);
        }
    }
}

/// Exclusive or with the all-ones word inverts every bit.
pub proof fn lemma_inverted_bits(a: u64)
    ensures
        forall|k: int| 0 <= k < 64 ==> #[trigger] bit(a ^ u64::MAX, k) == !bit(a, k),
{
    assert forall|k: int| 0 <= k < 64 implies #[trigger] bit(a ^ u64::MAX, k) == !bit(a, k) by {
        lemma_operator_bits_at(a, a, k as u64);
    }
}

proof fn lemma_mask_bits_at(s: u64, j: u64)
    by (bit_vector)
    requires
        s < 64,
        j < 64,
    ensures
        (0u64 >> j) & 1 != 1,
        (0xffff_ffff_ffff_ffffu64 >> j) & 1 == 1,
        (1u64 << s) >= 1,
        ((1u64 << s) >> j) & 1 == 1 <==> j == s,
        ((!(1u64 << s)) >> j) & 1 == 1 <==> j != s,
        ((0xffff_ffff_ffff_ffffu64 << s) >> j) & 1 == 1 <==> j >= s,
        ((((1u64 << s) - 1) as u64) >> j) & 1 == 1 <==> j < s,
{
}

/// The zero word has no bit set and the all-ones word has every bit set.
pub proof fn lemma_constant_bits()
    ensures
        forall|k: int| !#[trigger] bit(0, k),
        forall|k: int| 0 <= k < 64 ==> #[trigger] bit(u64::MAX, k),
{
    assert forall|k: int| !#[trigger] bit(0, k) by {
        if 0 <= k < 64 {
            lemma_mask_bits_at(0, k as u64);
        }
    }
    assert forall|k: int| 0 <= k < 64 implies #[trigger] bit(u64::MAX, k) by {
        lemma_mask_bits_at(0, k as u64);
    }
}

/// The bits of the masks that are built by shifting, for a position `s` in `0..64`:
/// `1 << s` holds bit `s` alone, `!(1 << s)` every bit but `s`,
/// `u64::MAX << s` the bits from `s` upwards, `(1 << s) - 1` those below `s`.
pub proof fn lemma_mask_bits(s: u64)
    requires
        s < 64,
    ensures
        (1u64 << s) >= 1,
        forall|k: int| #[trigger] bit(1u64 << s, k) == (k == s),
        forall|k: int| #[trigger] bit(!(1u64 << s), k) == (0 <= k < 64 && k != s),
        forall|k: int| #[trigger] bit(u64::MAX << s, k) == (s <= k < 64),
        forall|k: int| #[trigger] bit(((1u64 << s) - 1) as u64, k) == (0 <= k < s),
{
    lemma_mask_bits_at(s, 0);
    assert forall|k: int| #[trigger] bit(1u64 << s, k) == (k == s) by {
        if 0 <= k < 64 {
            lemma_mask_bits_at(s, k as u64);
        }
    }
    assert forall|k: int| #[trigger] bit(!(1u64 << s), k) == (0 <= k < 64 && k != s) by {
        if 0 <= k < 64 {
            lemma_mask_bits_at(s, k as u64);
        }
    }
    assert forall|k: int| #[trigger] bit(u64::MAX << s, k) == (s <= k < 64) by {
        if 0 <= k < 64 {
            lemma_mask_bits_at(s, k as u64);
        }
    }
    assert forall|k: int| #[trigger] bit(((1u64 << s) - 1) as u64, k) == (0 <= k < s) by {
        if 0 <= k < 64 {
            lemma_mask_bits_at(s, k as u64);
        }
    }
}

proof fn lemma_test_bit_at(a: u64, s: u64)
    by (bit_vector)
    requires
        s < 64,
    ensures
        (a & (1u64 << s)) != 0 <==> (a >> s) & 1 == 1,
        (a >> s) & 1 != 0 ==> (a >> s) & 1 == 1,
{
}

/// Masking `a` with `1 << s` leaves a non-zero word exactly when bit `s` of `a` is set.
pub proof fn lemma_test_bit(a: u64, s: u64)
    requires
        s < 64,
    ensures
        (a & (1u64 << s)) != 0 <==> bit(a, s as int),
{
    lemma_test_bit_at(a, s);
}

/// A non-zero word has a lowest set bit, at the position that `trailing_zeros` gives.
pub proof fn lemma_lowest(w: u64)
    requires
        w != 0,
    ensures
        0 <= lowest(w) < 64,
        bit(w, lowest(w)),
        forall|k: int| k < lowest(w) ==> !bit(w, k),
{
    axiom_u64_trailing_zeros(w);
    assert forall|k: int| k < lowest(w) implies !bit(w, k) by {
        if 0 <= k {
            assert((w >> (k as u64)) & 1u64 == 0u64);
        }
    }
}

/// A non-zero word has a highest set bit, at 63 less what `leading_zeros` gives.
pub proof fn lemma_highest(w: u64)
    requires
        w != 0,
    ensures
        0 <= highest(w) < 64,
        bit(w, highest(w)),
        forall|k: int| highest(w) < k ==> !bit(w, k),
{
    axiom_u64_leading_zeros(w);
    let h = highest(w) as u64;
    lemma_test_bit_at(w, h);
    assert forall|k: int| highest(w) < k implies !bit(w, k) by {
        if k < 64 {
            assert((w >> (k as u64)) & 1u64 == 0u64);
        }
    }
}

proof fn lemma_xor_zero(a: u64, b: u64)
    by (bit_vector)
    requires
        a ^ b == 0,
    ensures
        a == b,
{
}

/// Two words with the same bits are the same word.
pub proof fn lemma_same_bits(a: u64, b: u64)
    requires
        forall|k: int| 0 <= k < 64 ==> bit(a, k) == bit(b, k),
    ensures
        a == b,
{
    let d = a ^ b;
    if d != 0 {
        lemma_lowest(d);
        lemma_operator_bits(a, b);
        assert(bit(a, lowest(d)) != bit(b, lowest(d)));
    }
    lemma_xor_zero(a, b);
}

/// A word is zero exactly when none of its bits is set, and all ones exactly
/// when every one of them is.
pub proof fn lemma_extreme_words(w: u64)
    ensures
        w == 0 <==> forall|k: int| 0 <= k < 64 ==> !bit(w, k),
        w == u64::MAX <==> forall|k: int| 0 <= k < 64 ==> bit(w, k),
{
    lemma_constant_bits();
    if forall|k: int| 0 <= k < 64 ==> !bit(w, k) {
        lemma_same_bits(w, 0);
    }
    if forall|k: int| 0 <= k < 64 ==> bit(w, k) {
        lemma_same_bits(w, u64::MAX);
    }
}

proof fn lemma_clear_lowest_at(w: u64, z: u64, j: u64)
    by (bit_vector)
    requires
        z < 64,
        j < 64,
        (w >> z) & 1 == 1,
        w << ((64 - z) as u64) == 0,
    ensures
        ((w & ((w - 1) as u64)) >> j) & 1 == 1 <==> ((w >> j) & 1 == 1 && j != z),
{
}

/// `w & (w - 1)` is `w` without its lowest set bit.
pub proof fn lemma_clear_lowest(w: u64)
    requires
        w != 0,
    ensures
        forall|k: int| #[trigger] bit(w & ((w - 1) as u64), k) == (bit(w, k) && k != lowest(w)),
{
    axiom_u64_trailing_zeros(w);
    let z = u64_trailing_zeros(w) as u64;
    assert forall|k: int| #[trigger] bit(w & ((w - 1) as u64), k) == (bit(w, k) && k != lowest(
        w,
    )) by {
        if 0 <= k < 64 {
            lemma_clear_lowest_at(w, z, k as u64);
        }
    }
}

/// `ones_below` grows with the position, by at most one per position.
pub proof fn lemma_ones_below_monotonic(w: u64, i: int, j: int)
    requires
        i <= j,
    ensures
        ones_below(w, i) <= ones_below(w, j),
        ones_below(w, j) <= ones_below(w, i) + (j - i),
    decreases j - i,
{
    if i < j {
        lemma_ones_below_monotonic(w, i, j - 1);
    }
}

/// Whenever more than `t` bits are set below `hi`, one set bit below `hi`
/// has exactly `t` set bits below it.
pub proof fn lemma_ones_below_reaches(w: u64, hi: int, t: nat) -> (k: int)
    requires
        ones_below(w, hi) > t,
    ensures
        0 <= k < hi,
        bit(w, k),
        ones_below(w, k) == t,
    decreases hi,
{
    if ones_below(w, hi - 1) > t {
        lemma_ones_below_reaches(w, hi - 1, t)
    } else {
        hi - 1
    }
}

} // verus!
