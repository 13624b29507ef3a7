//! The hash capability that parameterizes the tree engine: a pairwise
//! "hash one buffer" / "hash many buffers" contract with a fixed-size digest.

use vstd::prelude::*;

verus! {

/// A fixed-size digest, the unit of all tree state.
pub type Digest = [u8; 32];

/// Failure of a hash provider: its underlying primitive could not turn the
/// given buffers into a fixed-size digest.
#[derive(Clone, Copy, Debug, PartialEq, Eq, Structural)]
pub enum HasherError {
    DigestConversion,
}

/// Selector for the available hash capabilities.
#[derive(Clone, Copy, Debug, PartialEq, Eq, Structural)]
pub enum HashFunction {
    Sha256,
    Keccak,
    Blake3,
    Poseidon,
}

/// The SHA-256 digest of a byte string. Left uninterpreted: the value is
/// whatever the SHA-256 implementation linked at run time computes.
pub uninterp spec fn sha256_of(input: Seq<u8>) -> Seq<u8>;

/// The Keccak-256 digest of a byte string, uninterpreted.
pub uninterp spec fn keccak_of(input: Seq<u8>) -> Seq<u8>;

/// The BLAKE3 digest of a byte string, uninterpreted.
pub uninterp spec fn blake3_of(input: Seq<u8>) -> Seq<u8>;

/// The Poseidon (BN254, x^5, width 3) digest of an ordered sequence of
/// buffers, each interpreted as a big-endian field element. Uninterpreted:
/// the value is whatever the Poseidon implementation computes.
pub uninterp spec fn poseidon_of(inputs: Seq<Seq<u8>>) -> Seq<u8>;

/// The byte strings behind a sequence of byte slices.
pub open spec fn slices_view(vals: Seq<&[u8]>) -> Seq<Seq<u8>> {
    vals.map_values(|v: &[u8]| v@)
}

/// A capability to hash buffers into fixed-size digests.
///
/// `spec_hashv` is the provider's mathematical contract: `Some(digest)` for
/// the buffer shapes it accepts, `None` for those it rejects. Each provider
/// must be pure: the digest is a function of the buffers alone, with no state
/// carried between calls.
pub trait Hasher {
    /// The digest of the ordered buffers, or `None` if the provider rejects
    /// this input shape.
    spec fn spec_hashv(inputs: Seq<Seq<u8>>) -> Option<Seq<u8>>;

    /// Hash a single byte buffer, equivalent to `hashv` on that one buffer.
    fn hash(val: &[u8]) -> (r: Result<Digest, HasherError>)
        ensures
            match r {
                Ok(d) => Self::spec_hashv(seq![val@]) == Some(d@),
                Err(e) => Self::spec_hashv(seq![val@]) is None && e
                    == HasherError::DigestConversion,
            },
    ;

    /// Hash the ordered concatenation of buffers as one logical input.
    fn hashv(vals: &[&[u8]]) -> (r: Result<Digest, HasherError>)
        ensures
            match r {
                Ok(d) => Self::spec_hashv(slices_view(vals@)) == Some(d@),
                Err(e) => Self::spec_hashv(slices_view(vals@)) is None && e
                    == HasherError::DigestConversion,
            },
    ;
}

/// Hashes the pair `(a, b)` under `H`.
pub fn hashv_pair<H: Hasher>(a: &Digest, b: &Digest) -> (r: Result<Digest, HasherError>)
    ensures
        match r {
            Ok(d) => H::spec_hashv(seq![a@, b@]) == Some(d@),
            Err(_) => H::spec_hashv(seq![a@, b@]) is None,
        },
{
    let pair: [&[u8]; 2] = [a.as_slice(), b.as_slice()];
    let r = H::hashv(pair.as_slice());
    proof {
        assert(slices_view(pair@) =~= seq![a@, b@]);
    }
    r
}

/// The flattening of one buffer is that buffer.
pub proof fn lemma_flatten_single(a: Seq<u8>)
    ensures
        seq![a].flatten() == a,
{
    assert(seq![a].len() == 1);
    seq![a].lemma_flatten_singleton();
}

} // verus!
