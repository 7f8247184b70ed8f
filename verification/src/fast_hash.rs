//! The 64-bit mixing hash over byte sequences.
//!
//! Correctness of the table never depends on how the hash mixes, only on it
//! being a function of the key bytes alone: equal keys hash equal, so a
//! differing hash is a sound fast reject when comparing fallback keys. Hash
//! values are not stable across versions of this crate and must not be
//! persisted.

use vstd::prelude::*;

verus! {

/// The seed of the hash (FNV offset basis).
pub open spec fn hash_seed() -> u64 {
    0xcbf29ce484222325
}

/// One mixing step: absorb the byte `b` into the state `h`.
pub open spec fn spec_hash_step(h: u64, b: u8) -> u64 {
    (h ^ (b as u64)).wrapping_mul(0x100000001b3)
}

/// The hash of the byte sequence `s`: the seed with every byte absorbed, in
/// order.
pub open spec fn spec_hash_bytes(s: Seq<u8>) -> u64
    decreases s.len(),
{
    if s.len() == 0 {
        hash_seed()
    } else {
        spec_hash_step(spec_hash_bytes(s.drop_last()), s.last())
    }
}

/// Computes the 64-bit hash of `key`.
pub fn fast_hash(key: &[u8]) -> (h: u64)
    ensures
        h == spec_hash_bytes(key@),
{
    let mut h: u64 = 0xcbf29ce484222325;
    let mut i: usize = 0;
    while i < key.len()
        invariant
            i <= key@.len(),
            h == spec_hash_bytes(key@.take(i as int)),
        decreases key@.len() - i,
    {
        proof {
            assert(key@.take(i + 1).drop_last() =~= key@.take(i as int));
            assert(key@.take(i + 1).last() == key@[i as int]);
        }
        h = (h ^ (key[i] as u64)).wrapping_mul(0x100000001b3);
        i = i + 1;
    }
    proof {
        assert(key@.take(key@.len() as int) =~= key@);
    }
    h
}

} // verus!
