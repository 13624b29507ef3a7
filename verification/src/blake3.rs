//! BLAKE3 hash capability.

use vstd::prelude::*;

use crate::hasher::{
    blake3_of, lemma_flatten_single, slices_view, Digest, Hasher, HasherError,
};

verus! {

/// BLAKE3, backed by the Solana platform implementation.
pub struct Blake3;

/// Relies on `anchor_lang::solana_program::blake3::hashv`: the BLAKE3 digest
/// of the buffers' concatenation (each buffer is fed into one running BLAKE3
/// state), a pure function of the bytes alone, and on `Hash::to_bytes`,
/// which returns the digest's 32 bytes unchanged.
#[verifier::external_body]
fn blake3_hashv(vals: &[&[u8]]) -> (r: Digest)
    ensures
        r@ == blake3_of(slices_view(vals@).flatten()),
{
    anchor_lang::solana_program::blake3::hashv(vals).to_bytes()
}

impl Hasher for Blake3 {
    /// BLAKE3 accepts every input. `hashv` feeds the buffers one by one into
    /// a single running BLAKE3 state, so the digest is that of the buffers'
    /// concatenation.
    open spec fn spec_hashv(inputs: Seq<Seq<u8>>) -> Option<Seq<u8>> {
        Some(blake3_of(inputs.flatten()))
    }

    fn hash(val: &[u8]) -> (r: Result<Digest, HasherError>) {
        let single: [&[u8]; 1] = [val];
        let d = blake3_hashv(single.as_slice());
        proof {
            assert(slices_view(single@) =~= seq![val@]);
            lemma_flatten_single(val@);
        }
        Ok(d)
    }

    fn hashv(vals: &[&[u8]]) -> (r: Result<Digest, HasherError>) {
        Ok(blake3_hashv(vals))
    }
}

} // verus!
