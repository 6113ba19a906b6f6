//! Allocation bitmaps: bit `i` of a word array is bit `i % 64` of word
//! `i / 64`, and a set bit marks an allocated identifier.

use vstd::prelude::*;

verus! {

/// Whether bit `j` of word `w` is set.
pub open spec fn word_bit(w: u64, j: u64) -> bool {
    (w >> j) & 1 == 1
}

/// Whether bit `i` of the bitmap `words` is set.
pub open spec fn bit_set(words: Seq<u64>, i: int) -> bool {
    word_bit(words[i / 64], (i % 64) as u64)
}

/// The single-bit mask for bit `b` of a word.
pub open spec fn bit_mask(b: u64) -> u64 {
    (1u64 << b) as u64
}

/// Setting bit `b` of a word changes that bit alone.
pub proof fn lemma_word_set_bit(w: u64, b: u64)
    requires
        b < 64,
    ensures
        forall|j: u64| j < 64 ==> #[trigger] word_bit(w | bit_mask(b), j) == (j == b || word_bit(w, j)),
{
    assert forall|j: u64| j < 64 implies #[trigger] word_bit(w | bit_mask(b), j) == (j == b || word_bit(w, j)) by {
        assert((((w | (1u64 << b)) >> j) & 1 == 1) == (j == b || (w >> j) & 1 == 1)) by (bit_vector)
            requires
                b < 64,
                j < 64;
    }
}

/// Clearing bit `b` of a word changes that bit alone.
pub proof fn lemma_word_clear_bit(w: u64, b: u64)
    requires
        b < 64,
    ensures
        forall|j: u64| j < 64 ==> #[trigger] word_bit(w & !bit_mask(b), j) == (j != b && word_bit(w, j)),
{
    assert forall|j: u64| j < 64 implies #[trigger] word_bit(w & !bit_mask(b), j) == (j != b && word_bit(w, j)) by {
        assert((((w & !(1u64 << b)) >> j) & 1 == 1) == (j != b && (w >> j) & 1 == 1)) by (bit_vector)
            requires
                b < 64,
                j < 64;
    }
}

/// Every bit of an all-ones word is set.
pub proof fn lemma_word_full(w: u64)
    requires
        w == !0u64,
    ensures
        forall|j: u64| j < 64 ==> #[trigger] word_bit(w, j),
{
    assert forall|j: u64| j < 64 implies #[trigger] word_bit(w, j) by {
        assert(j < 64 ==> ((!0u64 >> j) & 1) == 1) by (bit_vector);
    }
}

/// An identifier splits into its word and its bit within the word.
pub proof fn lemma_bit_index(c: int)
    requires
        0 <= c,
    ensures
        c == 64 * (c / 64) + c % 64,
        0 <= c % 64 < 64,
        0 <= c / 64,
{
    vstd::arithmetic::div_mod::lemma_fundamental_div_mod(c, 64);
}

/// Each bit of a word reads as zero or one.
pub proof fn lemma_word_bit_values(w: u64, j: u64)
    ensures
        (w >> j) & 1 == 0 || (w >> j) & 1 == 1,
{
    assert((w >> j) & 1 == 0 || (w >> j) & 1 == 1) by (bit_vector);
}

/// The lowest clear bit of a word that is not all ones: every bit below it
/// is set.
pub fn lowest_clear_bit(w: u64) -> (r: u64)
    requires
        w != !0u64,
    ensures
        r < 64,
        !word_bit(w, r),
        forall|j: u64| j < r ==> #[trigger] word_bit(w, j),
{
    let mut b: u64 = 0;
    assert(w & (((1u64 << 0u64) - 1) as u64) == (((1u64 << 0u64) - 1) as u64)) by (bit_vector);
    while b < 64
        invariant
            b < 64,
            w != !0u64,
            forall|j: u64| j < b ==> #[trigger] word_bit(w, j),
            b < 64 ==> w & (((1u64 << b) - 1) as u64) == (((1u64 << b) - 1) as u64),
        decreases 64 - b,
    {
        if (w >> b) & 1 == 0 {
            return b;
        }
        proof {
            lemma_word_bit_values(w, b);
            if b < 63 {
                assert(w & (((1u64 << ((b + 1) as u64)) - 1) as u64) == (((1u64 << ((b + 1) as u64)) - 1) as u64)) by (bit_vector)
                    requires
                        b < 63,
                        w & (((1u64 << b) - 1) as u64) == (((1u64 << b) - 1) as u64),
                        (w >> b) & 1 == 1;
            } else {
                assert(w == !0u64) by (bit_vector)
                    requires
                        b == 63,
                        w & (((1u64 << b) - 1) as u64) == (((1u64 << b) - 1) as u64),
                        (w >> b) & 1 == 1;
            }
        }
        b = b + 1;
    }
    b
}

} // verus!
