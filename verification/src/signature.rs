//! Bitmask signatures.
//!
//! A signature is a `u32` in which bit `i` records whether an entity
//! currently owns a value of the component type registered at position
//! `i`. Queries test membership of a whole set of types at once with a
//! single superset check on the mask.

use vstd::prelude::*;

verus! {

/// How many distinct component types a signature can record.
pub const SIGNATURE_BITS: u32 = 32;

/// True when bit `i` of `sig` is set.
pub open spec fn bit_set(sig: u32, i: u32) -> bool {
    sig & (1u32 << i) != 0
}

/// True when every bit set in `mask` is also set in `sig`.
pub open spec fn signature_matches(sig: u32, mask: u32) -> bool {
    sig & mask == mask
}

/// No bit is set in the zero signature.
pub proof fn lemma_bit_zero(i: u32)
    by (bit_vector)
    requires
        i < 32,
    ensures
        !bit_set(0u32, i),
{
}

/// A one-bit mask has exactly its own bit set.
pub proof fn lemma_bit_single(i: u32, j: u32)
    by (bit_vector)
    requires
        i < 32,
        j < 32,
    ensures
        bit_set(1u32 << i, j) <==> i == j,
{
}

/// OR-ing two signatures unions their bits.
pub proof fn lemma_bit_or(a: u32, b: u32, i: u32)
    by (bit_vector)
    requires
        i < 32,
    ensures
        bit_set(a | b, i) <==> (bit_set(a, i) || bit_set(b, i)),
{
}

/// Clearing one bit leaves every other bit as it was.
pub proof fn lemma_bit_clear(a: u32, i: u32, j: u32)
    by (bit_vector)
    requires
        i < 32,
        j < 32,
    ensures
        bit_set(a & !(1u32 << i), j) <==> (bit_set(a, j) && i != j),
{
}

/// A signature that passes the superset test owns every bit of the mask.
pub proof fn lemma_superset_bit(sig: u32, mask: u32, i: u32)
    by (bit_vector)
    requires
        i < 32,
        signature_matches(sig, mask),
        bit_set(mask, i),
    ensures
        bit_set(sig, i),
{
}

/// Matching a one-bit mask is the same as having that bit set.
pub proof fn lemma_single_bit_test(sig: u32, i: u32)
    by (bit_vector)
    requires
        i < 32,
    ensures
        signature_matches(sig, 1u32 << i) <==> bit_set(sig, i),
{
}

} // verus!
