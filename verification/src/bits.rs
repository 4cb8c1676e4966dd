//! The bits of a 64-bit word.

use vstd::prelude::*;

verus! {

/// Whether bit `k` of `word` is set.
pub open spec fn bit(word: u64, k: u64) -> bool {
    (word >> k) & 1 == 1
}

pub proof fn lemma_bit_shift(word: u64, s: u64, k: u64)
    by (bit_vector)
    requires
        0 < s < 64,
        k < 64,
    ensures
        bit((word << s) | 1, k) == (k == 0 || (k >= s && bit(word, (k - s) as u64))),
{
}

pub proof fn lemma_bit_set(word: u64, b: u64, k: u64)
    by (bit_vector)
    requires
        b < 64,
        k < 64,
    ensures
        bit(word | (1u64 << b), k) == (k == b || bit(word, k)),
        (word & (1u64 << b) != 0) == bit(word, b),
        bit(1, k) == (k == 0),
        bit(0, k) == false,
        0u64 | 1 == 1,
{
}

pub proof fn lemma_bit_clear(word: u64, b: u64, k: u64)
    by (bit_vector)
    requires
        b < 64,
        k < 64,
    ensures
        bit(word & !(1u64 << b), k) == (k != b && bit(word, k)),
{
}

pub proof fn lemma_bit_and(left: u64, right: u64, k: u64)
    by (bit_vector)
    requires
        k < 64,
    ensures
        bit(left & right, k) == (bit(left, k) && bit(right, k)),
        bit(left | right, k) == (bit(left, k) || bit(right, k)),
        bit(left & !right, k) == (bit(left, k) && !bit(right, k)),
        bit(left, k) ==> left != 0,
        bit(0, k) == false,
        bit(u64::MAX, k),
{
}

/// The lowest `n` bits.
pub proof fn lemma_low_bits(n: u64, k: u64)
    by (bit_vector)
    requires
        n < 64,
        k < 64,
    ensures
        1u64 << n >= 1,
        bit(((1u64 << n) - 1) as u64, k) == (k < n),
{
}

proof fn lemma_step(word: u64, n: u64)
    by (bit_vector)
    requires
        0 < n <= 64,
        n < 64 ==> word >> n == 0,
        !bit(word, (n - 1) as u64),
    ensures
        word >> ((n - 1) as u64) == 0,
{
}

proof fn lemma_bit_below(word: u64, n: u64) -> (k: u64)
    requires
        n <= 64,
        n < 64 ==> word >> n == 0,
        word != 0,
    ensures
        k < 64,
        bit(word, k),
    decreases n,
{
    if n == 0 {
        assert(word >> 0 == word) by (bit_vector);
        0
    } else if bit(word, (n - 1) as u64) {
        (n - 1) as u64
    } else {
        lemma_step(word, n);
        lemma_bit_below(word, (n - 1) as u64)
    }
}

/// A word that is not zero has some bit set.
pub proof fn lemma_some_bit(word: u64) -> (k: u64)
    requires
        word != 0,
    ensures
        k < 64,
        bit(word, k),
{
    lemma_bit_below(word, 64)
}

} // verus!
