//! Bits of words, and how many of them are set.
use vstd::prelude::*;

verus! {

/// Bit `i` of `word`; a word is followed by zeros.
pub open spec fn bit(word: u32, i: int) -> bool {
    0 <= i < 32 && (word >> (i as u32)) & 1 == 1
}

/// Bit `i` of `byte`; a byte is followed by zeros.
pub open spec fn byte_bit(byte: u8, i: int) -> bool {
    bit(byte as u32, i)
}

/// The number of ones in the binary representation of `n`.
pub open spec fn ones(n: nat) -> nat
    decreases n,
{
    if n == 0 {
        0
    } else {
        n % 2 + ones(n / 2)
    }
}

/// `u32::count_ones`: the number of ones in the binary representation.
pub assume_specification[ u32::count_ones ](word: u32) -> (n: u32)
    ensures
        n == ones(word as nat),
;

/// `u8::count_ones`: the number of ones in the binary representation.
pub assume_specification[ u8::count_ones ](byte: u8) -> (n: u32)
    ensures
        n == ones(byte as nat),
;

/// The number of `i` below `n` at which `s` holds.
pub open spec fn tally(s: spec_fn(int) -> bool, n: nat) -> nat
    decreases n,
{
    if n == 0 {
        0
    } else {
        tally(s, (n - 1) as nat) + if s(n - 1) {
            1nat
        } else {
            0
        }
    }
}

pub(crate) proof fn lemma_low_bit(word: u32)
    ensures
        word >> 0u32 == word,
        word & 1 == word % 2,
        bit(word, 0) == (word % 2 == 1),
{
    assert(word >> 0u32 == word && word & 1 == word % 2) by (bit_vector);
}

pub(crate) proof fn lemma_half_bit(word: u32, i: int)
    requires
        i >= 0,
    ensures
        bit(word >> 1u32, i) == bit(word, i + 1),
{
    if i < 32 {
        let k = i as u32;
        assert(((word >> 1u32) >> k) & 1 == if k < 31 {
            (word >> ((k + 1) as u32)) & 1
        } else {
            0
        }) by (bit_vector)
            requires
                k < 32,
        ;
    }
}

pub(crate) proof fn lemma_zero_bit(i: int)
    ensures
        !bit(0, i),
{
    let k = i as u32;
    assert((0u32 >> k) & 1 == 0) by (bit_vector);
}

/// The ones of a word are its bits that are set.
pub proof fn law_ones_are_set_bits(word: u32)
    ensures
        ones(word as nat) == tally(|i: int| bit(word, i), 32),
{
    lemma_ones(word, 32);
}

proof fn lemma_ones(word: u32, n: nat)
    requires
        n <= 32,
        n < 32 ==> word >> (n as u32) == 0,
    ensures
        ones(word as nat) == tally(|i: int| bit(word, i), n),
    decreases n,
{
    lemma_low_bit(word);
    if n > 0 {
        let half = word >> 1u32;
        assert(half == word / 2) by (bit_vector)
            requires
                half == word >> 1u32,
        ;
        let m = n as u32;
        assert((word >> 1u32) >> ((m - 1) as u32) == if m < 32 {
            word >> m
        } else {
            0
        }) by (bit_vector)
            requires
                1 <= m <= 32,
        ;
        lemma_ones(half, (n - 1) as nat);
        assert forall|i: int| 0 <= i < n - 1 implies bit(half, i) == bit(word, i + 1) by {
            lemma_half_bit(word, i);
        }
        lemma_tally_shift(|i: int| bit(word, i), |i: int| bit(half, i), (n - 1) as nat);
        if word == 0 {
            lemma_tally_none(|i: int| bit(word, i), n);
        }
    }
}

proof fn lemma_tally_shift(s: spec_fn(int) -> bool, t: spec_fn(int) -> bool, n: nat)
    requires
        forall|i: int| 0 <= i < n ==> #[trigger] t(i) == s(i + 1),
    ensures
        tally(s, n + 1) == tally(t, n) + if s(0) {
            1nat
        } else {
            0
        },
    decreases n,
{
    if n == 0 {
        assert(tally(s, 1) == tally(s, 0) + if s(0) {
            1nat
        } else {
            0
        });
    } else {
        lemma_tally_shift(s, t, (n - 1) as nat);
        assert(t(n - 1) == s(n as int));
    }
}

pub(crate) proof fn lemma_tally_same(s: spec_fn(int) -> bool, t: spec_fn(int) -> bool, n: nat)
    requires
        forall|i: int| 0 <= i < n ==> #[trigger] s(i) == t(i),
    ensures
        tally(s, n) == tally(t, n),
    decreases n,
{
    if n > 0 {
        lemma_tally_same(s, t, (n - 1) as nat);
        assert(s(n - 1) == t(n - 1));
    }
}

pub(crate) proof fn lemma_tally_bound(s: spec_fn(int) -> bool, n: nat)
    ensures
        tally(s, n) <= n,
    decreases n,
{
    if n > 0 {
        lemma_tally_bound(s, (n - 1) as nat);
    }
}

proof fn lemma_tally_none(s: spec_fn(int) -> bool, n: nat)
    requires
        forall|i: int| 0 <= i < n ==> !#[trigger] s(i),
    ensures
        tally(s, n) == 0,
    decreases n,
{
    if n > 0 {
        lemma_tally_none(s, (n - 1) as nat);
    }
}

proof fn lemma_tally_differs_once(
    s: spec_fn(int) -> bool,
    t: spec_fn(int) -> bool,
    at: int,
    n: nat,
)
    requires
        0 <= at,
        forall|i: int| 0 <= i < n ==> (#[trigger] s(i) == t(i) <==> i != at),
    ensures
        at < n ==> (tally(s, n) + tally(t, n)) % 2 == 1,
        at >= n ==> tally(s, n) == tally(t, n),
    decreases n,
{
    if n > 0 {
        lemma_tally_differs_once(s, t, at, (n - 1) as nat);
        assert(s(n - 1) == t(n - 1) <==> n - 1 != at);
    }
}

/// Words that differ in one bit do not have the same parity.
pub proof fn law_parity_of_one_flip(a: u32, b: u32, at: int)
    requires
        0 <= at < 32,
        forall|i: int| 0 <= i < 32 ==> (#[trigger] bit(a, i) == bit(b, i) <==> i != at),
    ensures
        ones(a as nat) % 2 != ones(b as nat) % 2,
{
    law_ones_are_set_bits(a);
    law_ones_are_set_bits(b);
    lemma_tally_differs_once(|i: int| bit(a, i), |i: int| bit(b, i), at, 32);
}

} // verus!
