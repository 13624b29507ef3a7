//! Keccak-256 hash capability.

use vstd::prelude::*;

use crate::hasher::{
    keccak_of, lemma_flatten_single, slices_view, Digest, Hasher, HasherError,
};

verus! {

/// Keccak-256, backed by the Solana platform implementation.
pub struct Keccak;

/// Relies on `anchor_lang::solana_program::keccak::hashv`: the Keccak-256
/// digest of the buffers' concatenation (each buffer is fed into one running
/// Keccak-256 state), a pure function of the bytes alone, and on
/// `Hash::to_bytes`, which returns the digest's 32 bytes unchanged.
#[verifier::external_body]
fn keccak_hashv(vals: &[&[u8]]) -> (r: Digest)
    ensures
        r@ == keccak_of(slices_view(vals@).flatten()),
{
    anchor_lang::solana_program::keccak::hashv(vals).to_bytes()
}

impl Hasher for Keccak {
    /// Keccak-256 accepts every input. `hashv` feeds the buffers one by one
    /// into a single running Keccak-256 state, so the digest is that of the
    /// buffers' concatenation.
    open spec fn spec_hashv(inputs: Seq<Seq<u8>>) -> Option<Seq<u8>> {
        Some(keccak_of(inputs.flatten()))
    }

    fn hash(val: &[u8]) -> (r: Result<Digest, HasherError>) {
        let single: [&[u8]; 1] = [val];
        let d = keccak_hashv(single.as_slice());
        proof {
            assert(slices_view(single@) =~= seq![val@]);
            lemma_flatten_single(val@);
        }
        Ok(d)
    }

    fn hashv(vals: &[&[u8]]) -> (r: Result<Digest, HasherError>) {
        Ok(keccak_hashv(vals))
    }
}

} // verus!
