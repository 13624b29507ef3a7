//! An incremental, append-only Merkle-tree accumulator.
//!
//! The tree has a fixed height chosen at construction. Leaves are admitted
//! two at a time; the engine keeps only one cached subtree digest per level
//! plus a bounded, rotating history of past roots, so that memory stays
//! O(height) no matter how many leaves have been inserted.
//!
//! The pairwise hash is a pluggable capability (the [`hasher::Hasher`]
//! trait), with SHA-256, Keccak-256, BLAKE3 and Poseidon providers.

use vstd::prelude::*;

pub mod blake3;
pub mod hasher;
pub mod keccak;
pub mod laws;
pub mod model;
pub mod poseidon;
pub mod sha256;
pub mod tree;
pub mod zero_table;

pub use blake3::Blake3;
pub use hasher::Digest;
pub use hasher::HashFunction;
pub use hasher::Hasher;
pub use hasher::HasherError;
pub use keccak::Keccak;
pub use poseidon::Poseidon;
pub use sha256::Sha256;
pub use tree::MerkleTree;
pub use tree::MerkleTreeError;

verus! {

/// Number of bytes in a digest produced by every hash capability.
pub const HASH_LEN: usize = 32;

/// Number of bytes in a leaf value.
pub const DATA_LEN: usize = 32;

/// Greatest tree height an engine may be constructed with.
pub const MAX_HEIGHT: usize = 18;

/// Number of past roots the engine retains.
pub const MERKLE_TREE_HISTORY_SIZE: usize = 20;

} // verus!
