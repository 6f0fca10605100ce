//! Trusted view of `fixedbitset::FixedBitSet`, the packed bit storage.
//!
//! A `FixedBitSet` of `n` bits stores them in `(n + 31) / 32` little-endian
//! `u32` blocks: bit `i` of the set is bit `i % 32` of block `i / 32`.  The
//! two uninterpreted functions below name what a set holds — its blocks and
//! its length in bits — and the wrappers state, over those names, what the
//! outside calls do to them.

use vstd::prelude::*;

use fixedbitset::FixedBitSet;

verus! {

#[verifier::external_type_specification]
#[verifier::external_body]
pub struct ExFixedBitSet(FixedBitSet);

/// The `u32` blocks that a `FixedBitSet` holds, in order.
pub uninterp spec fn word_seq(b: FixedBitSet) -> Seq<u32>;

/// The length in bits that a `FixedBitSet` was built with.
pub uninterp spec fn bit_len(b: FixedBitSet) -> nat;

/// How many `u32` words hold `n` bits.
pub open spec fn words_for(n: int) -> int {
    (n + 31) / 32
}

/// Bit `i` of a word sequence, reading bit `i % 32` of word `i / 32`.
pub open spec fn word_bit(words: Seq<u32>, i: int) -> bool {
    (words[i / 32] >> ((i % 32) as u32)) & 1u32 == 1u32
}

/// Relies on `fixedbitset::FixedBitSet::with_capacity`: it builds a set of
/// `bits` bits out of `(bits + 31) / 32` all-zero blocks.
#[verifier::external_body]
pub(crate) fn bitset_new(bits: usize) -> (r: FixedBitSet)
    ensures
        bit_len(r) == bits,
        word_seq(r) == Seq::new(words_for(bits as int) as nat, |i: int| 0u32),
{
    FixedBitSet::with_capacity(bits)
}

/// Relies on `fixedbitset::FixedBitSet::set`: for an in-range index it ORs
/// `1 << (bit % 32)` into block `bit / 32`, or ANDs its complement, and
/// touches nothing else; for an out-of-range index it panics.
#[verifier::external_body]
pub(crate) fn bitset_set(b: &mut FixedBitSet, bit: usize, enabled: bool)
    requires
        bit < bit_len(*old(b)),
        bit as int / 32 < word_seq(*old(b)).len(),
    ensures
        bit_len(*final(b)) == bit_len(*old(b)),
        word_seq(*final(b)) == word_seq(*old(b)).update(
            bit as int / 32,
            (if enabled {
                word_seq(*old(b))[bit as int / 32] | (1u32 << ((bit as int % 32) as u32))
            } else {
                word_seq(*old(b))[bit as int / 32] & !(1u32 << ((bit as int % 32) as u32))
            }),
        ),
{
    b.set(bit, enabled)
}

/// Relies on `fixedbitset::FixedBitSet::contains`: it reads bit `bit % 32`
/// of block `bit / 32` and never panics.
#[verifier::external_body]
pub(crate) fn bitset_get(b: &FixedBitSet, bit: usize) -> (r: bool)
    requires
        bit < bit_len(*b),
    ensures
        r == word_bit(word_seq(*b), bit as int),
{
    b.contains(bit)
}

/// Relies on `fixedbitset::FixedBitSet::as_slice`: it exposes the blocks
/// directly as a `&[u32]`.
#[verifier::external_body]
pub(crate) fn bitset_words(b: &FixedBitSet) -> (r: &[u32])
    ensures
        r@ == word_seq(*b),
{
    b.as_slice()
}

/// Setting bit `j` of a word raises exactly that bit.
proof fn lemma_or_bit(w: u32, j: u32, k: u32)
    requires
        j < 32,
        k < 32,
    ensures
        ((w | (1u32 << j)) >> j) & 1u32 == 1u32,
        j != k ==> ((w | (1u32 << j)) >> k) & 1u32 == (w >> k) & 1u32,
{
    assert(j < 32 ==> ((w | (1u32 << j)) >> j) & 1u32 == 1u32) by (bit_vector);
    assert(j < 32 && k < 32 && j != k ==> ((w | (1u32 << j)) >> k) & 1u32 == (w >> k) & 1u32)
        by (bit_vector);
}

/// Clearing bit `j` of a word lowers exactly that bit.
proof fn lemma_and_not_bit(w: u32, j: u32, k: u32)
    requires
        j < 32,
        k < 32,
    ensures
        ((w & !(1u32 << j)) >> j) & 1u32 == 0u32,
        j != k ==> ((w & !(1u32 << j)) >> k) & 1u32 == (w >> k) & 1u32,
{
    assert(j < 32 ==> ((w & !(1u32 << j)) >> j) & 1u32 == 0u32) by (bit_vector);
    assert(j < 32 && k < 32 && j != k ==> ((w & !(1u32 << j)) >> k) & 1u32 == (w >> k) & 1u32)
        by (bit_vector);
}

/// Every bit of the zero word is clear.
proof fn lemma_zero_word_bit(j: u32)
    requires
        j < 32,
    ensures
        (0u32 >> j) & 1u32 == 0u32,
{
    assert(j < 32 ==> (0u32 >> j) & 1u32 == 0u32) by (bit_vector);
}

/// A sequence of zero words has no bit set.
pub(crate) proof fn lemma_zero_words_clear(words: Seq<u32>)
    requires
        forall|w: int| 0 <= w < words.len() ==> words[w] == 0u32,
    ensures
        forall|i: int| 0 <= i < words.len() * 32 ==> !word_bit(words, i),
{
    assert forall|i: int| 0 <= i < words.len() * 32 implies !word_bit(words, i) by {
        lemma_div_in_range(i, words.len() as int);
        lemma_zero_word_bit((i % 32) as u32);
    }
}

/// `words_for(n)` words hold at least `n` bits.
pub(crate) proof fn lemma_words_cover(n: int)
    requires
        0 <= n,
    ensures
        n <= words_for(n) * 32,
{
    vstd::arithmetic::div_mod::lemma_fundamental_div_mod(n + 31, 32);
}

/// For `0 <= i < m * 32`, word index `i / 32` lies below `m`.
pub(crate) proof fn lemma_div_in_range(i: int, m: int)
    requires
        0 <= i < m * 32,
    ensures
        0 <= i / 32 < m,
        0 <= i % 32 < 32,
{
    vstd::arithmetic::div_mod::lemma_fundamental_div_mod(i, 32);
}

/// Updating word `i / 32` as `bitset_set` does changes bit `i` of the word
/// sequence to `v` and leaves every other bit as it was.
pub(crate) proof fn lemma_word_update(ws0: Seq<u32>, ws1: Seq<u32>, i: int, v: bool)
    requires
        0 <= i,
        i / 32 < ws0.len(),
        ws1 == ws0.update(
            i / 32,
            (if v {
                ws0[i / 32] | (1u32 << ((i % 32) as u32))
            } else {
                ws0[i / 32] & !(1u32 << ((i % 32) as u32))
            }),
        ),
    ensures
        ws1.len() == ws0.len(),
        word_bit(ws1, i) == v,
        forall|k: int| 0 <= k < ws0.len() * 32 && k != i ==> word_bit(ws1, k) == word_bit(ws0, k),
{
    let j = (i % 32) as u32;
    if v {
        lemma_or_bit(ws0[i / 32], j, j);
    } else {
        lemma_and_not_bit(ws0[i / 32], j, j);
    }
    assert forall|k: int| 0 <= k < ws0.len() * 32 && k != i implies word_bit(ws1, k) == word_bit(
        ws0,
        k,
    ) by {
        lemma_div_in_range(k, ws0.len() as int);
        if k / 32 == i / 32 {
            vstd::arithmetic::div_mod::lemma_fundamental_div_mod(k, 32);
            vstd::arithmetic::div_mod::lemma_fundamental_div_mod(i, 32);
            let kj = (k % 32) as u32;
            if v {
                lemma_or_bit(ws0[i / 32], j, kj);
            } else {
                lemma_and_not_bit(ws0[i / 32], j, kj);
            }
        } else {
            assert(ws1[k / 32] == ws0[k / 32]);
        }
    }
}

} // verus!
