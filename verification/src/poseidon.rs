//! Poseidon hash capability over the BN254 scalar field.

use vstd::prelude::*;

use light_poseidon::PoseidonBytesHasher;

use crate::hasher::{poseidon_of, slices_view, Digest, Hasher, HasherError};

verus! {

/// Poseidon with the BN254 x^5 width-3 parameter set: it hashes at most two
/// buffers per call, each read as a big-endian field element.
pub struct Poseidon;

/// Relies on `light_poseidon::PoseidonBytesHasher::hash_bytes` with the
/// `bn254_x5_3` parameters: the big-endian encoding of the Poseidon digest
/// of the buffers, a pure function of the buffers alone (the permutation
/// state is created here and dropped after the call). With width 3 the call
/// fails exactly when more than two buffers are given; fewer are padded with
/// the zero field element.
#[verifier::external_body]
fn poseidon_hash_bytes(vals: &[&[u8]]) -> (r: Result<Digest, HasherError>)
    ensures
        match r {
            Ok(d) => vals@.len() <= 2 && d@ == poseidon_of(slices_view(vals@)),
            Err(e) => vals@.len() > 2 && e == HasherError::DigestConversion,
        },
{
    let mut hasher = light_poseidon::Poseidon::new(
        light_poseidon::parameters::bn254_x5_3::poseidon_parameters(),
    );
    hasher.hash_bytes(vals).map_err(|_| HasherError::DigestConversion)
}

impl Hasher for Poseidon {
    /// The width-3 parameter set admits at most two inputs; missing inputs
    /// are padded with the zero field element. Every call builds a fresh
    /// permutation state, so the digest is a function of the buffers alone.
    open spec fn spec_hashv(inputs: Seq<Seq<u8>>) -> Option<Seq<u8>> {
        if inputs.len() <= 2 {
            Some(poseidon_of(inputs))
        } else {
            None
        }
    }

    fn hash(val: &[u8]) -> (r: Result<Digest, HasherError>) {
        let single: [&[u8]; 1] = [val];
        let r = poseidon_hash_bytes(single.as_slice());
        proof {
            assert(slices_view(single@) =~= seq![val@]);
        }
        r
    }

    fn hashv(vals: &[&[u8]]) -> (r: Result<Digest, HasherError>) {
        poseidon_hash_bytes(vals)
    }
}

} // verus!
