//! Bit twiddling helpers.

use vstd::prelude::*;
use vstd::arithmetic::power2::pow2;

verus! {

/// Bit `i` of `b` (bit 0 is the least significant).
pub open spec fn bit(b: u8, i: u8) -> u8 {
    (b >> i) & 1
}

/// The value of a sequence of bits read most significant first.
pub open spec fn bits_value(bits: Seq<u8>) -> nat
    decreases bits.len(),
{
    if bits.len() == 0 {
        0
    } else {
        bits_value(bits.drop_last()) * 2 + bits.last() as nat
    }
}

/// A sequence whose every element is 0 or 1.
pub open spec fn all_bits(bits: Seq<u8>) -> bool {
    forall|i: int| 0 <= i < bits.len() ==> #[trigger] bits[i] <= 1
}

proof fn lemma_bits_value_bound(bits: Seq<u8>)
    requires
        all_bits(bits),
    ensures
        bits_value(bits) < pow2(bits.len()),
    decreases bits.len(),
{
    if bits.len() > 0 {
        let init = bits.drop_last();
        assert(all_bits(init)) by {
            assert forall|i: int| 0 <= i < init.len() implies #[trigger] init[i] <= 1 by {
                assert(init[i] == bits[i]);
            }
        }
        lemma_bits_value_bound(init);
        assert(bits.last() == bits[bits.len() - 1]);
        vstd::arithmetic::power2::lemma_pow2_unfold(bits.len());
    } else {
        vstd::arithmetic::power2::lemma2_to64();
    }
}

/// Splits a byte into its eight bits, most significant first.
pub fn to_bits(b: u8) -> (r: (u8, u8, u8, u8, u8, u8, u8, u8))
    ensures
        r == (bit(b, 7), bit(b, 6), bit(b, 5), bit(b, 4), bit(b, 3), bit(b, 2), bit(b, 1), bit(b, 0)),
        r.0 <= 1 && r.1 <= 1 && r.2 <= 1 && r.3 <= 1 && r.4 <= 1 && r.5 <= 1 && r.6 <= 1 && r.7 <= 1,
{
    assert(forall|x: u8, i: u8| #[trigger] ((x >> i) & 1) <= 1) by (bit_vector);
    ((b >> 7) & 1, (b >> 6) & 1, (b >> 5) & 1, (b >> 4) & 1, (b >> 3) & 1, (b >> 2) & 1, (b >> 1)
        & 1, (b >> 0) & 1)
}

/// Folds a short sequence of bits, most significant first, into an integer.
pub fn to_u32(bits: &[u8]) -> (r: u32)
    requires
        bits@.len() <= 32,
        all_bits(bits@),
    ensures
        r == bits_value(bits@),
{
    let mut result: u32 = 0;
    let mut i: usize = 0;
    while i < bits.len()
        invariant
            i <= bits@.len() <= 32,
            all_bits(bits@),
            result == bits_value(bits@.subrange(0, i as int)),
        decreases bits@.len() - i,
    {
        let ghost prefix = bits@.subrange(0, i as int + 1);
        assert(prefix.drop_last() =~= bits@.subrange(0, i as int));
        proof {
            assert(all_bits(prefix)) by {
                assert forall|k: int| 0 <= k < prefix.len() implies #[trigger] prefix[k] <= 1 by {
                    assert(prefix[k] == bits@[k]);
                }
            }
            lemma_bits_value_bound(prefix);
            vstd::arithmetic::power2::lemma_pow2_adds(prefix.len(), (32 - prefix.len()) as nat);
            vstd::arithmetic::power2::lemma2_to64();
            vstd::arithmetic::power2::lemma_pow2_pos((32 - prefix.len()) as nat);
        }
        result = result * 2 + (bits[i] as u32);
        i += 1;
    }
    assert(bits@.subrange(0, i as int) =~= bits@);
    result
}

} // verus!
