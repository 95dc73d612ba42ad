//! The hash of a key, and the two parts a table takes from it.
//!
//! Keys are byte strings. Their hash is the 64-bit FNV-1a hash of the bytes,
//! stirred once more so that every byte of the key reaches every bit of the
//! hash. It depends on the bytes alone, so a key is found again in every table
//! and every process.

use vstd::prelude::*;

verus! {

/// The hash of the empty string.
pub const FNV_OFFSET: u64 = 0xcbf2_9ce4_8422_2325;

/// The factor of one hashing step.
pub const FNV_PRIME: u64 = 0x0000_0100_0000_01b3;

/// The hash after one more byte.
pub open spec fn fnv_step(h: u64, b: u8) -> u64 {
    vstd::wrapping::u64_specs::wrapping_mul(h ^ (b as u64), FNV_PRIME)
}

/// The FNV-1a hash of a byte string.
pub open spec fn spec_fnv(bytes: Seq<u8>) -> u64
    decreases bytes.len(),
{
    if bytes.len() == 0 {
        FNV_OFFSET
    } else {
        fnv_step(spec_fnv(bytes.drop_last()), bytes.last())
    }
}

/// The first factor of the stirring.
pub const STIR_A: u64 = 0xbf58_476d_1ce4_e5b9;

/// The second factor of the stirring.
pub const STIR_B: u64 = 0x94d0_49bb_1331_11eb;

/// A hash, stirred: two rounds of folding the high bits into the low ones and
/// multiplying, and one more fold.
pub open spec fn stir(h: u64) -> u64 {
    let a = vstd::wrapping::u64_specs::wrapping_mul(h ^ (h >> 30), STIR_A);
    let b = vstd::wrapping::u64_specs::wrapping_mul(a ^ (a >> 27), STIR_B);
    b ^ (b >> 31)
}

/// The hash of a byte string.
pub open spec fn spec_hash(bytes: Seq<u8>) -> u64 {
    stir(spec_fnv(bytes))
}

/// The part of a hash that selects the group a probe starts at.
pub open spec fn spec_h1(hash: u64) -> u64 {
    hash >> 7
}

/// The part of a hash that is kept in the control byte of an occupied slot:
/// its low seven bits.
pub open spec fn spec_h2(hash: u64) -> u8 {
    (hash & 0x7f) as u8
}

/// Hashes a byte string.
pub fn hash_bytes(bytes: &[u8]) -> (h: u64)
    ensures
        h == spec_hash(bytes@),
{
    let mut h: u64 = FNV_OFFSET;
    let mut i: usize = 0;
    while i < bytes.len()
        invariant
            i <= bytes@.len(),
            h == spec_fnv(bytes@.subrange(0, i as int)),
        decreases bytes@.len() - i,
    {
        proof {
            let next = bytes@.subrange(0, i + 1);
            assert(next.drop_last() == bytes@.subrange(0, i as int));
            assert(next.last() == bytes@[i as int]);
        }
        h = (h ^ (bytes[i] as u64)).wrapping_mul(FNV_PRIME);
        i = i + 1;
    }
    proof {
        assert(bytes@.subrange(0, i as int) == bytes@);
    }
    let a = (h ^ (h >> 30)).wrapping_mul(STIR_A);
    let b = (a ^ (a >> 27)).wrapping_mul(STIR_B);
    b ^ (b >> 31)
}

/// Returns the part of a hash that selects the group a probe starts at.
pub fn h1(hash: u64) -> (r: u64)
    ensures
        r == spec_h1(hash),
{
    hash >> 7
}

/// Returns the tag of a hash: a control byte that marks an occupied slot.
pub fn h2(hash: u64) -> (r: u8)
    ensures
        r == spec_h2(hash),
        r < 0x80,
{
    assert(hash & 0x7f < 0x80) by (bit_vector);
    (hash & 0x7f) as u8
}

/// A tag always has its top bit clear.
pub proof fn lemma_h2_is_tag(hash: u64)
    ensures
        spec_h2(hash) < 0x80,
{
    assert(hash & 0x7f < 0x80) by (bit_vector);
}

} // verus!
