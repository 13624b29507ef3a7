//! The tree engine: construction, pairwise insertion, and root queries.

use vstd::prelude::*;

use core::marker::PhantomData;
use vstd::arithmetic::power2::{lemma2_to64, lemma_pow2_strictly_increases, lemma_pow2_unfold, pow2};

use crate::hasher::{Digest, Hasher, HasherError};
use crate::model::{
    chain, fresh_view, hash2, lemma_state_after_facts, state_after, step, zero_digest, TreeView,
};
use crate::{MAX_HEIGHT, MERKLE_TREE_HISTORY_SIZE};

verus! {

/// Why a tree-engine operation was rejected.
#[derive(Clone, Copy, Debug, PartialEq, Eq, Structural)]
pub enum MerkleTreeError {
    /// Construction with a height of zero or above `MAX_HEIGHT`.
    InvalidHeight,
    /// Construction with fewer than `height + 1` zero-table entries.
    InvalidZeroBytes,
    /// Insertion into a tree already holding `pow2(height)` leaves.
    CapacityExceeded,
    /// The hash capability could not produce a digest.
    DigestConversion,
}

/// The byte strings behind a sequence of digests.
pub open spec fn dv(s: Seq<Digest>) -> Seq<Seq<u8>> {
    s.map_values(|d: Digest| d@)
}

/// An incremental, append-only Merkle tree of fixed height.
///
/// Leaves are inserted two at a time. Only one cached subtree digest per
/// level is kept (`filled_subtrees`), plus a rotating history of the last
/// `MERKLE_TREE_HISTORY_SIZE` roots. The zero table supplied at construction
/// gives, per level, the digest standing in for a not-yet-populated sibling;
/// entry `height` is the root of the all-empty tree.
pub struct MerkleTree<H: Hasher> {
    /// Height of the Merkle tree.
    pub height: usize,
    /// Cached left-subtree digest per level.
    pub filled_subtrees: Vec<Digest>,
    /// Rotating history of roots (`current_root_index` points at the latest).
    pub roots: Vec<Digest>,
    /// Count of leaves inserted so far.
    pub next_index: usize,
    /// Slot in `roots` holding the most recent root.
    pub current_root_index: usize,
    /// Digest of an all-empty subtree, per level; immutable.
    pub zero_bytes: Vec<Digest>,
    /// The leaf pairs inserted so far, oldest first.
    pub leaves: Ghost<Seq<(Seq<u8>, Seq<u8>)>>,
    /// The hash capability the tree is built with.
    pub hasher: PhantomData<H>,
}

impl<H: Hasher> View for MerkleTree<H> {
    type V = TreeView;

    open spec fn view(&self) -> TreeView {
        TreeView {
            height: self.height as nat,
            filled_subtrees: dv(self.filled_subtrees@),
            zero_bytes: dv(self.zero_bytes@),
            roots: dv(self.roots@),
            next_index: self.next_index as nat,
            current_root_index: self.current_root_index as nat,
            leaves: self.leaves@,
        }
    }
}

/// Compares two digests byte by byte.
fn digest_eq(a: &Digest, b: &Digest) -> (r: bool)
    ensures
        r == (a@ == b@),
{
    let mut i: usize = 0;
    while i < 32
        invariant
            i <= 32,
            forall|j: int| 0 <= j < i ==> a@[j] == b@[j],
        decreases 32 - i,
    {
        if a[i] != b[i] {
            return false;
        }
        i = i + 1;
    }
    proof {
        assert(a@ =~= b@);
    }
    true
}

/// Copies a digest vector element by element.
fn copy_digests(src: &Vec<Digest>) -> (r: Vec<Digest>)
    ensures
        r@ == src@,
{
    let mut r: Vec<Digest> = Vec::new();
    let mut i: usize = 0;
    while i < src.len()
        invariant
            i <= src@.len(),
            r@ == src@.subrange(0, i as int),
        decreases src@.len() - i,
    {
        r.push(src[i]);
        proof {
            assert(src@.subrange(0, i + 1) =~= src@.subrange(0, i as int).push(src@[i as int]));
        }
        i = i + 1;
    }
    proof {
        assert(src@.subrange(0, src@.len() as int) =~= src@);
    }
    r
}

/// The all-zero digest.
fn make_zero_digest() -> (r: Digest)
    ensures
        r@ == zero_digest(),
{
    let r: Digest = [0u8; 32];
    proof {
        assert(r@ =~= zero_digest());
    }
    r
}

/// 2 to the power `e`.
fn pow2_usize(e: usize) -> (r: usize)
    requires
        e <= MAX_HEIGHT,
    ensures
        r == pow2(e as nat),
{
    proof {
        lemma2_to64();
    }
    let mut r: usize = 1;
    let mut i: usize = 0;
    while i < e
        invariant
            i <= e,
            e <= MAX_HEIGHT,
            r == pow2(i as nat),
            r <= 0x40000,
        decreases e - i,
    {
        proof {
            lemma_pow2_unfold((i + 1) as nat);
            if i + 1 < MAX_HEIGHT {
                lemma_pow2_strictly_increases((i + 1) as nat, MAX_HEIGHT as nat);
            }
            lemma2_to64();
        }
        r = r * 2;
        i = i + 1;
    }
    r
}

impl<H: Hasher> MerkleTree<H> {
    /// The engine's invariant: the height is in range, the zero table covers
    /// every level plus the all-empty root, and the concrete state is
    /// exactly the fold of the insertion transition over the leaves inserted
    /// so far.
    pub open spec fn wf(self) -> bool {
        &&& 1 <= self@.height <= MAX_HEIGHT
        &&& self@.zero_bytes.len() > self@.height
        &&& state_after::<H>(self@.height, self@.zero_bytes, self@.leaves) == Some(self@)
    }

    /// Hashes the pair `(a, b)` with the tree's capability.
    fn hash_pair(a: &Digest, b: &Digest) -> (r: Result<Digest, HasherError>)
        ensures
            match r {
                Ok(d) => hash2::<H>(a@, b@) == Some(d@),
                Err(_) => hash2::<H>(a@, b@) is None,
            },
    {
        crate::hasher::hashv_pair::<H>(a, b)
    }

    /// Creates a tree of the given height over the given zero table.
    ///
    /// Fails with `InvalidHeight` when the height is zero or above
    /// `MAX_HEIGHT`, and with `InvalidZeroBytes` when the table has fewer
    /// than `height + 1` entries. Otherwise every filled-subtree slot below
    /// `height` starts as that level's zero digest, and history slot 0 holds
    /// the all-empty tree's root `zero_bytes[height]`.
    pub fn new(height: usize, zero_bytes: Vec<Digest>) -> (r: Result<Self, MerkleTreeError>)
        ensures
            match r {
                Ok(t) => {
                    &&& 1 <= height <= MAX_HEIGHT
                    &&& zero_bytes@.len() > height
                    &&& t.wf()
                    &&& t@ == fresh_view(height as nat, dv(zero_bytes@))
                },
                Err(e) => {
                    &&& !(1 <= height <= MAX_HEIGHT && zero_bytes@.len() > height)
                    &&& (e == MerkleTreeError::InvalidHeight <==> !(1 <= height <= MAX_HEIGHT))
                    &&& (e == MerkleTreeError::InvalidZeroBytes <==> (1 <= height <= MAX_HEIGHT
                        && zero_bytes@.len() <= height))
                },
            },
    {
        if height == 0 || height > MAX_HEIGHT {
            return Err(MerkleTreeError::InvalidHeight);
        }
        if zero_bytes.len() <= height {
            return Err(MerkleTreeError::InvalidZeroBytes);
        }

        let mut filled: Vec<Digest> = Vec::new();
        let mut i: usize = 0;
        while i < MAX_HEIGHT
            invariant
                i <= MAX_HEIGHT,
                1 <= height <= MAX_HEIGHT,
                zero_bytes@.len() > height,
                filled@.len() == i,
                forall|j: int|
                    0 <= j < i ==> filled@[j]@ == (if j < height {
                        zero_bytes@[j]@
                    } else {
                        zero_digest()
                    }),
            decreases MAX_HEIGHT - i,
        {
            if i < height {
                filled.push(zero_bytes[i]);
            } else {
                filled.push(make_zero_digest());
            }
            i = i + 1;
        }

        let mut roots: Vec<Digest> = Vec::new();
        roots.push(zero_bytes[height]);
        let mut k: usize = 1;
        while k < MERKLE_TREE_HISTORY_SIZE
            invariant
                1 <= k <= MERKLE_TREE_HISTORY_SIZE,
                zero_bytes@.len() > height,
                roots@.len() == k,
                roots@[0]@ == zero_bytes@[height as int]@,
                forall|j: int| 1 <= j < k ==> roots@[j]@ == zero_digest(),
            decreases MERKLE_TREE_HISTORY_SIZE - k,
        {
            roots.push(make_zero_digest());
            k = k + 1;
        }

        let t = MerkleTree {
            height,
            filled_subtrees: filled,
            roots,
            next_index: 0,
            current_root_index: 0,
            zero_bytes,
            leaves: Ghost(Seq::empty()),
            hasher: PhantomData,
        };
        proof {
            let fresh = fresh_view(height as nat, dv(t.zero_bytes@));
            assert(t@.filled_subtrees =~= fresh.filled_subtrees);
            assert(t@.roots =~= fresh.roots);
            assert(t@ =~= fresh);
        }
        Ok(t)
    }

    /// Re-initializes this tree in place, with the same validation and the
    /// same resulting state as `new`; on failure the tree is unchanged.
    pub fn init(&mut self, height: usize, zero_bytes: Vec<Digest>) -> (r: Result<
        (),
        MerkleTreeError,
    >)
        ensures
            match r {
                Ok(()) => {
                    &&& 1 <= height <= MAX_HEIGHT
                    &&& zero_bytes@.len() > height
                    &&& final(self).wf()
                    &&& final(self)@ == fresh_view(height as nat, dv(zero_bytes@))
                },
                Err(e) => {
                    &&& *final(self) == *old(self)
                    &&& !(1 <= height <= MAX_HEIGHT && zero_bytes@.len() > height)
                    &&& (e == MerkleTreeError::InvalidHeight <==> !(1 <= height <= MAX_HEIGHT))
                    &&& (e == MerkleTreeError::InvalidZeroBytes <==> (1 <= height <= MAX_HEIGHT
                        && zero_bytes@.len() <= height))
                },
            },
    {
        match Self::new(height, zero_bytes) {
            Ok(t) => {
                *self = t;
                Ok(())
            },
            Err(e) => Err(e),
        }
    }

    /// The pairwise hash the tree is built on: the digest of the two leaves
    /// under the tree's hash capability.
    pub fn hash(&self, leaf1: Digest, leaf2: Digest) -> (r: Result<Digest, MerkleTreeError>)
        ensures
            match r {
                Ok(d) => hash2::<H>(leaf1@, leaf2@) == Some(d@),
                Err(e) => hash2::<H>(leaf1@, leaf2@) is None && e
                    == MerkleTreeError::DigestConversion,
            },
    {
        match Self::hash_pair(&leaf1, &leaf2) {
            Ok(d) => Ok(d),
            Err(_) => Err(MerkleTreeError::DigestConversion),
        }
    }

    /// Inserts a pair of leaves.
    ///
    /// Rejected with `CapacityExceeded` when the tree already holds
    /// `pow2(height)` leaves, and with `DigestConversion` when a hash call
    /// fails; in both cases the state is unchanged. On success the whole
    /// state advances by exactly the `step` transition: the filled-subtree
    /// cache absorbs the new left subtrees, the history pointer rotates to
    /// the next slot, which receives the new root, and the leaf count grows
    /// by two.
    pub fn insert(&mut self, leaf1: Digest, leaf2: Digest) -> (r: Result<(), MerkleTreeError>)
        requires
            old(self).wf(),
        ensures
            final(self).wf(),
            final(self)@.height == old(self)@.height,
            final(self)@.zero_bytes == old(self)@.zero_bytes,
            match r {
                Ok(()) => {
                    &&& old(self)@.next_index + 2 <= pow2(old(self)@.height)
                    &&& step::<H>(old(self)@, leaf1@, leaf2@) == Some(final(self)@)
                    &&& final(self)@.leaves == old(self)@.leaves.push((leaf1@, leaf2@))
                },
                Err(e) => {
                    &&& *final(self) == *old(self)
                    &&& if old(self)@.next_index + 2 > pow2(old(self)@.height) {
                        e == MerkleTreeError::CapacityExceeded
                    } else {
                        step::<H>(old(self)@, leaf1@, leaf2@) is None && e
                            == MerkleTreeError::DigestConversion
                    }
                },
            },
    {
        let ghost t0 = self@;
        proof {
            lemma_state_after_facts::<H>(t0.height, t0.zero_bytes, t0.leaves, t0);
        }

        let cap = pow2_usize(self.height);
        if self.next_index == cap {
            return Err(MerkleTreeError::CapacityExceeded);
        }
        proof {
            // The leaf count and the capacity are both even, so a count
            // strictly below capacity leaves room for a whole pair.
            lemma_pow2_unfold(t0.height);
            assert(t0.next_index + 2 <= pow2(t0.height));
        }

        let d0 = match Self::hash_pair(&leaf1, &leaf2) {
            Ok(d) => d,
            Err(_) => {
                return Err(MerkleTreeError::DigestConversion);
            },
        };

        let mut current_index: usize = self.next_index / 2;
        let mut run: Digest = d0;
        let mut new_filled: Vec<Digest> = copy_digests(&self.filled_subtrees);
        let mut i: usize = 1;
        while i < self.height
            invariant
                *self == *old(self),
                self@ == t0,
                self.wf(),
                1 <= i <= t0.height,
                t0.height <= MAX_HEIGHT,
                new_filled@.len() == MAX_HEIGHT,
                self@.zero_bytes.len() > t0.height,
                hash2::<H>(leaf1@, leaf2@) == Some(d0@),
                t0.next_index + 2 <= pow2(t0.height),
                chain::<H>(dv(new_filled@), t0.zero_bytes, t0.height, i as nat, current_index as nat, run@)
                    == chain::<H>(t0.filled_subtrees, t0.zero_bytes, t0.height, 1, t0.next_index / 2, d0@),
            decreases t0.height - i,
        {
            let ghost filled_before = dv(new_filled@);
            let ghost run_before = run@;
            let ghost idx_before = current_index as nat;
            if current_index % 2 == 0 {
                new_filled[i] = run;
                proof {
                    assert(dv(new_filled@) =~= filled_before.update(i as int, run@));
                }
                let z = self.zero_bytes[i];
                proof {
                    assert(z@ == t0.zero_bytes[i as int]);
                }
                match Self::hash_pair(&run, &z) {
                    Ok(h) => {
                        proof {
                            assert(chain::<H>(
                                filled_before,
                                t0.zero_bytes,
                                t0.height,
                                i as nat,
                                idx_before,
                                run_before,
                            ) == chain::<H>(
                                filled_before.update(i as int, run_before),
                                t0.zero_bytes,
                                t0.height,
                                (i + 1) as nat,
                                idx_before / 2,
                                h@,
                            ));
                        }
                        run = h;
                    },
                    Err(_) => {
                        proof {
                            assert(chain::<H>(
                                filled_before,
                                t0.zero_bytes,
                                t0.height,
                                i as nat,
                                idx_before,
                                run_before,
                            ) is None);
                            assert(step::<H>(t0, leaf1@, leaf2@) is None);
                        }
                        return Err(MerkleTreeError::DigestConversion);
                    },
                }
            } else {
                let f = new_filled[i];
                proof {
                    assert(f@ == filled_before[i as int]);
                }
                match Self::hash_pair(&f, &run) {
                    Ok(h) => {
                        proof {
                            assert(chain::<H>(
                                filled_before,
                                t0.zero_bytes,
                                t0.height,
                                i as nat,
                                idx_before,
                                run_before,
                            ) == chain::<H>(
                                filled_before,
                                t0.zero_bytes,
                                t0.height,
                                (i + 1) as nat,
                                idx_before / 2,
                                h@,
                            ));
                        }
                        run = h;
                    },
                    Err(_) => {
                        proof {
                            assert(chain::<H>(
                                filled_before,
                                t0.zero_bytes,
                                t0.height,
                                i as nat,
                                idx_before,
                                run_before,
                            ) is None);
                            assert(step::<H>(t0, leaf1@, leaf2@) is None);
                        }
                        return Err(MerkleTreeError::DigestConversion);
                    },
                }
            }
            current_index = current_index / 2;
            i = i + 1;
        }

        proof {
            assert(chain::<H>(
                t0.filled_subtrees,
                t0.zero_bytes,
                t0.height,
                1,
                t0.next_index / 2,
                d0@,
            ) == Some((run@, dv(new_filled@))));
        }

        self.filled_subtrees = new_filled;
        let new_root_index = (self.current_root_index + 1) % MERKLE_TREE_HISTORY_SIZE;
        let ghost roots_before = dv(self.roots@);
        self.current_root_index = new_root_index;
        self.roots[new_root_index] = run;
        self.next_index = self.next_index + 2;
        proof {
            self.leaves@ = t0.leaves.push((leaf1@, leaf2@));
            assert(dv(self.roots@) =~= roots_before.update(new_root_index as int, run@));
            let stepped = step::<H>(t0, leaf1@, leaf2@)->Some_0;
            assert(self@ =~= stepped);
            let pairs = t0.leaves.push((leaf1@, leaf2@));
            assert(pairs.drop_last() =~= t0.leaves);
            assert(state_after::<H>(t0.height, t0.zero_bytes, pairs) == Some(self@));
        }
        Ok(())
    }

    /// Whether `root` is among the retained past roots, scanning history
    /// slots `current_root_index` down to 0.
    pub fn is_known_root(&self, root: Digest) -> (r: bool)
        requires
            self.wf(),
        ensures
            r == exists|j: int|
                0 <= j <= self@.current_root_index && self@.roots[j] == root@,
    {
        proof {
            lemma_state_after_facts::<H>(self@.height, self@.zero_bytes, self@.leaves, self@);
        }
        let mut i: usize = self.current_root_index + 1;
        while i > 0
            invariant
                self.wf(),
                i <= self@.current_root_index + 1,
                self@.current_root_index < MERKLE_TREE_HISTORY_SIZE,
                self@.roots.len() == MERKLE_TREE_HISTORY_SIZE,
                forall|j: int| i <= j <= self@.current_root_index ==> self@.roots[j] != root@,
            decreases i,
        {
            i = i - 1;
            if digest_eq(&self.roots[i], &root) {
                assert(self@.roots[i as int] == root@);
                return true;
            }
        }
        false
    }

    /// The most recent root.
    pub fn last_root(&self) -> (r: Digest)
        requires
            self.wf(),
        ensures
            r@ == self@.roots[self@.current_root_index as int],
    {
        proof {
            lemma_state_after_facts::<H>(self@.height, self@.zero_bytes, self@.leaves, self@);
        }
        self.roots[self.current_root_index]
    }
}

} // verus!
