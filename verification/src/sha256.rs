//! SHA-256 hash capability.

use vstd::prelude::*;

use crate::hasher::{
    lemma_flatten_single, sha256_of, slices_view, Digest, Hasher, HasherError,
};

verus! {

/// SHA-256, backed by the Solana platform implementation.
pub struct Sha256;

/// Relies on `anchor_lang::solana_program::hash::hashv`: the SHA-256 digest
/// of the buffers' concatenation (each buffer is fed into one running
/// SHA-256 state), a pure function of the bytes alone, and on
/// `Hash::to_bytes`, which returns the digest's 32 bytes unchanged.
#[verifier::external_body]
fn sha256_hashv(vals: &[&[u8]]) -> (r: Digest)
    ensures
        r@ == sha256_of(slices_view(vals@).flatten()),
{
    anchor_lang::solana_program::hash::hashv(vals).to_bytes()
}

impl Hasher for Sha256 {
    /// SHA-256 accepts every input. `hashv` feeds the buffers one by one
    /// into a single running SHA-256 state, so the digest is that of the
    /// buffers' concatenation.
    open spec fn spec_hashv(inputs: Seq<Seq<u8>>) -> Option<Seq<u8>> {
        Some(sha256_of(inputs.flatten()))
    }

    fn hash(val: &[u8]) -> (r: Result<Digest, HasherError>) {
        let single: [&[u8]; 1] = [val];
        let d = sha256_hashv(single.as_slice());
        proof {
            assert(slices_view(single@) =~= seq![val@]);
            lemma_flatten_single(val@);
        }
        Ok(d)
    }

    fn hashv(vals: &[&[u8]]) -> (r: Result<Digest, HasherError>) {
        Ok(sha256_hashv(vals))
    }
}

} // verus!
