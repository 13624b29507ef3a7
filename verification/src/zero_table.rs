//! Computation of the zero-value table: the per-level digests of all-empty
//! subtrees that the tree engine pairs not-yet-populated siblings with.

use vstd::prelude::*;

use crate::hasher::{hashv_pair, Digest, Hasher};
use crate::model::hash2;
use crate::tree::MerkleTreeError;

verus! {

/// The canonical empty leaf: 32 bytes of ones.
pub open spec fn one_bytes() -> Seq<u8> {
    Seq::new(32, |i: int| 1u8)
}

/// Entry `i` of the zero-value table under `H`: entry 0 is the self-pairing
/// of the digest of two all-one leaves, and each later entry is the
/// self-pairing of the previous one. `None` where a hash call fails.
pub open spec fn zero_entry<H: Hasher>(i: nat) -> Option<Seq<u8>>
    decreases i,
{
    if i == 0 {
        match hash2::<H>(one_bytes(), one_bytes()) {
            Some(seed) => hash2::<H>(seed, seed),
            None => None,
        }
    } else {
        match zero_entry::<H>((i - 1) as nat) {
            Some(prev) => hash2::<H>(prev, prev),
            None => None,
        }
    }
}

/// Computes the first `levels` entries of the zero-value table under `H`.
///
/// Fails with `DigestConversion` exactly when some entry's hash call fails;
/// no provider of this crate fails on pairs, so in practice every entry is
/// produced.
pub fn zero_bytes_table<H: Hasher>(levels: usize) -> (r: Result<Vec<Digest>, MerkleTreeError>)
    ensures
        match r {
            Ok(v) => {
                &&& v@.len() == levels
                &&& forall|i: int| 0 <= i < levels ==> zero_entry::<H>(i as nat) == Some(v@[i]@)
            },
            Err(e) => {
                &&& e == MerkleTreeError::DigestConversion
                &&& exists|i: int|
                    0 <= i < levels && (#[trigger] zero_entry::<H>(i as nat)) is None
            },
        },
{
    if levels == 0 {
        return Ok(Vec::new());
    }
    let ones: Digest = [1u8; 32];
    proof {
        assert(ones@ =~= one_bytes());
    }
    let mut prev = match hashv_pair::<H>(&ones, &ones) {
        Ok(d) => d,
        Err(_) => {
            proof {
                let gi: int = 0;
                assert(zero_entry::<H>(gi as nat) is None);
            }
            return Err(MerkleTreeError::DigestConversion);
        },
    };
    let mut v: Vec<Digest> = Vec::new();
    let mut i: usize = 0;
    while i < levels
        invariant
            i <= levels,
            v@.len() == i,
            forall|j: int| 0 <= j < i ==> zero_entry::<H>(j as nat) == Some(v@[j]@),
            if i == 0 {
                hash2::<H>(one_bytes(), one_bytes()) == Some(prev@)
            } else {
                zero_entry::<H>((i - 1) as nat) == Some(prev@)
            },
        decreases levels - i,
    {
        match hashv_pair::<H>(&prev, &prev) {
            Ok(h) => {
                proof {
                    assert(zero_entry::<H>(i as nat) == Some(h@));
                }
                v.push(h);
                prev = h;
            },
            Err(_) => {
                proof {
                    let gj: int = i as int;
                    assert(zero_entry::<H>(gj as nat) is None);
                }
                return Err(MerkleTreeError::DigestConversion);
            },
        }
        i = i + 1;
    }
    Ok(v)
}

} // verus!
