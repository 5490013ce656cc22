//! Facts about single bits of a 64-bit status word.

use bit_iter::BitIter;
use vstd::prelude::*;

verus! {

/// Whether bit `ix` of `word` is set. No bit outside `0..64` is ever set.
pub open spec fn bit_is_set(word: u64, ix: int) -> bool {
    0 <= ix < 64 && (word >> (ix as u64)) & 1 == 1
}

/// The word whose bit `ix` is the only one set.
pub open spec fn bit_mask(ix: int) -> u64 {
    1u64 << (ix as u64)
}

proof fn lemma_or_mask(word: u64, i: u64, j: u64)
    by (bit_vector)
    requires
        i < 64,
        j < 64,
    ensures
        ((word | (1u64 << i)) >> j) & 1 == 1 <==> ((word >> j) & 1 == 1 || j == i),
{
}

proof fn lemma_and_not_mask(word: u64, i: u64, j: u64)
    by (bit_vector)
    requires
        i < 64,
        j < 64,
    ensures
        ((word & !(1u64 << i)) >> j) & 1 == 1 <==> ((word >> j) & 1 == 1 && j != i),
{
}

proof fn lemma_and_not_word(word: u64, other: u64, j: u64)
    by (bit_vector)
    requires
        j < 64,
    ensures
        ((word & !other) >> j) & 1 == 1 <==> ((word >> j) & 1 == 1 && (other >> j) & 1 != 1),
{
}

proof fn lemma_test_mask(word: u64, i: u64)
    by (bit_vector)
    requires
        i < 64,
    ensures
        word & (1u64 << i) != 0 <==> (word >> i) & 1 == 1,
{
}

proof fn lemma_zero_word(j: u64)
    by (bit_vector)
    requires
        j < 64,
    ensures
        (0u64 >> j) & 1 != 1,
{
}

/// Setting bit `ix` sets that bit and leaves every other bit as it was.
pub proof fn lemma_set_bit(word: u64, ix: int)
    requires
        0 <= ix < 64,
    ensures
        forall|j: int| #[trigger]
            bit_is_set(word | bit_mask(ix), j) == (bit_is_set(word, j) || j == ix),
{
    assert forall|j: int| #[trigger]
        bit_is_set(word | bit_mask(ix), j) == (bit_is_set(word, j) || j == ix) by {
        if 0 <= j < 64 {
            lemma_or_mask(word, ix as u64, j as u64);
        }
    }
}

/// Clearing bit `ix` clears that bit and leaves every other bit as it was.
pub proof fn lemma_clear_bit(word: u64, ix: int)
    requires
        0 <= ix < 64,
    ensures
        forall|j: int| #[trigger]
            bit_is_set(word & !bit_mask(ix), j) == (bit_is_set(word, j) && j != ix),
{
    assert forall|j: int| #[trigger]
        bit_is_set(word & !bit_mask(ix), j) == (bit_is_set(word, j) && j != ix) by {
        if 0 <= j < 64 {
            lemma_and_not_mask(word, ix as u64, j as u64);
        }
    }
}

/// Masking `word` by the complement of `other` keeps exactly the bits of
/// `word` that `other` does not have.
pub proof fn lemma_mask_out(word: u64, other: u64)
    ensures
        forall|j: int| #[trigger]
            bit_is_set(word & !other, j) == (bit_is_set(word, j) && !bit_is_set(other, j)),
{
    assert forall|j: int| #[trigger]
        bit_is_set(word & !other, j) == (bit_is_set(word, j) && !bit_is_set(other, j)) by {
        if 0 <= j < 64 {
            lemma_and_not_word(word, other, j as u64);
        }
    }
}

/// Testing a word against the mask of bit `ix` reads that bit.
pub proof fn lemma_test_bit(word: u64, ix: int)
    requires
        0 <= ix < 64,
    ensures
        (word & bit_mask(ix) != 0) == bit_is_set(word, ix),
{
    lemma_test_mask(word, ix as u64);
}

/// No bit of the zero word is left by a mask.
pub proof fn lemma_and_zero(mask: u64)
    ensures
        0u64 & mask == 0,
{
    assert(0u64 & mask == 0) by (bit_vector);
}

/// The zero word has no bit set.
pub proof fn lemma_no_bit_in_zero()
    ensures
        forall|j: int| !#[trigger] bit_is_set(0u64, j),
{
    assert forall|j: int| !#[trigger] bit_is_set(0u64, j) by {
        if 0 <= j < 64 {
            lemma_zero_word(j as u64);
        }
    }
}

proof fn lemma_lowest_bit(word: u64, negated: u64, zeros: u64)
    by (bit_vector)
    requires
        zeros < 64,
        (word >> zeros) & 1 == 1,
        word << ((64 - zeros) as u64) == 0,
        negated == !word + 1,
    ensures
        word & negated == 1u64 << zeros,
        word ^ (1u64 << zeros) < word,
{
}

proof fn lemma_xor_mask(word: u64, i: u64, j: u64)
    by (bit_vector)
    requires
        i < 64,
        j < 64,
        (word >> i) & 1 == 1,
    ensures
        ((word ^ (1u64 << i)) >> j) & 1 == 1 <==> ((word >> j) & 1 == 1 && j != i),
{
}

/// The positions of the bits that are set in `bitset`, each of them once, in
/// ascending order.
pub fn iter_set_bits(bitset: u64) -> (bits: Vec<usize>)
    ensures
        forall|i: int| 0 <= i < bits.len() ==> bit_is_set(bitset, #[trigger] bits[i] as int),
        forall|i: int, j: int| 0 <= i < j < bits.len() ==> bits[i] < bits[j],
        forall|k: int|
            #[trigger] bit_is_set(bitset, k) ==> exists|i: int|
                0 <= i < bits.len() && bits[i] == k,
{
    let mut rest = bitset;
    let mut bits: Vec<usize> = Vec::new();
    while rest != 0
        invariant
            forall|i: int| 0 <= i < bits.len() ==> bit_is_set(bitset, #[trigger] bits[i] as int),
            forall|i: int, j: int| 0 <= i < j < bits.len() ==> bits[i] < bits[j],
            forall|k: int|
                #[trigger] bit_is_set(bitset, k) ==> bit_is_set(rest, k) || exists|i: int|
                    0 <= i < bits.len() && bits[i] == k,
            forall|k: int| #[trigger] bit_is_set(rest, k) ==> bit_is_set(bitset, k),
            forall|i: int, k: int|
                0 <= i < bits.len() && #[trigger] bit_is_set(rest, k) ==> (#[trigger] bits[i]) < k,
        decreases rest,
    {
        let zeros = rest.trailing_zeros();
        let negated = (!rest).wrapping_add(1);
        // `rest & -rest` has only the lowest bit of `rest` set.
        let t = rest & negated;
        let ghost found = bits@;
        let ghost before = rest;
        proof {
            vstd::std_specs::bits::axiom_u64_trailing_zeros(rest);
            assert(!rest != u64::MAX) by (bit_vector)
                requires
                    rest != 0,
            ;
            assert(rest << ((64 - zeros) as u64) == 0);
            lemma_lowest_bit(rest, negated, zeros as u64);
            assert(bit_is_set(rest, zeros as int));
            assert forall|j: int| #[trigger]
                bit_is_set(rest ^ t, j) == (bit_is_set(rest, j) && j != zeros) by {
                if 0 <= j < 64 {
                    lemma_xor_mask(rest, zeros as u64, j as u64);
                }
            }
            assert forall|j: int| bit_is_set(rest, j) implies j >= zeros by {
                if 0 <= j < zeros {
                    assert((rest >> (j as u64)) & 1u64 == 0u64);
                }
            }
        }
        bits.push(zeros as usize);
        rest = rest ^ t;
        proof {
            assert forall|k: int| #[trigger] bit_is_set(bitset, k) implies bit_is_set(rest, k)
                || exists|i: int| 0 <= i < bits.len() && bits[i] == k by {
                if k == zeros {
                    assert(bits[found.len() as int] == k);
                } else if !bit_is_set(before, k) {
                    let i = choose|i: int| 0 <= i < found.len() && found[i] == k;
                    assert(bits[i] == k);
                }
            }
        }
    }
    proof {
        lemma_no_bit_in_zero();
    }
    bits
}

/// Calls `bit_iter::BitIter::from` on `word` and collects what the iterator
/// yields: the positions of the bits that are set in `word`, each of them
/// once, in ascending order.
#[verifier::external_body]
pub(crate) fn set_bits(word: u64) -> (bits: Vec<usize>)
    ensures
        forall|i: int| 0 <= i < bits.len() ==> bit_is_set(word, #[trigger] bits[i] as int),
        forall|i: int, j: int| 0 <= i < j < bits.len() ==> bits[i] < bits[j],
        forall|k: int|
            #[trigger] bit_is_set(word, k) ==> exists|i: int|
                0 <= i < bits.len() && bits[i] == k,
{
    BitIter::from(word).collect()
}

} // verus!
