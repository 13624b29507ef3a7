//! The mathematical model of the tree engine: its state as ghost data, the
//! construction and insertion transitions as pure functions of that state,
//! and the fold of those transitions over a whole sequence of leaf pairs.

use vstd::prelude::*;

use vstd::arithmetic::power2::pow2;

use crate::hasher::Hasher;
use crate::{MAX_HEIGHT, MERKLE_TREE_HISTORY_SIZE};

verus! {

/// The engine's state as mathematical data: digests as byte strings,
/// counters as naturals, plus the ghost sequence of leaf pairs inserted so
/// far.
#[verifier::ext_equal]
pub struct TreeView {
    /// Height of the tree, fixed at construction.
    pub height: nat,
    /// Cached left-subtree digest per level, `MAX_HEIGHT` slots.
    pub filled_subtrees: Seq<Seq<u8>>,
    /// Digest of an all-empty subtree, per level; supplied at construction.
    pub zero_bytes: Seq<Seq<u8>>,
    /// Rotating history of roots, `MERKLE_TREE_HISTORY_SIZE` slots.
    pub roots: Seq<Seq<u8>>,
    /// Count of leaves inserted so far (two per insertion).
    pub next_index: nat,
    /// Slot in `roots` holding the most recent root.
    pub current_root_index: nat,
    /// Every leaf pair inserted so far, oldest first.
    pub leaves: Seq<(Seq<u8>, Seq<u8>)>,
}

/// The all-zero digest that fills unused state slots.
pub open spec fn zero_digest() -> Seq<u8> {
    Seq::new(32, |i: int| 0u8)
}

/// The digest of the pair `(a, b)` under `H`, if `H` accepts pairs.
pub open spec fn hash2<H: Hasher>(a: Seq<u8>, b: Seq<u8>) -> Option<Seq<u8>> {
    H::spec_hashv(seq![a, b])
}

/// Whether `H` accepts every pair of buffers; every provider of this crate
/// does.
pub open spec fn pairwise_total<H: Hasher>() -> bool {
    forall|a: Seq<u8>, b: Seq<u8>| #[trigger] hash2::<H>(a, b) is Some
}

/// The state of a freshly constructed engine: level `i` of the filled
/// subtree cache holds `zeros[i]`, history slot 0 holds the all-empty tree's
/// root `zeros[height]`, and no leaves have been inserted.
pub open spec fn fresh_view(height: nat, zeros: Seq<Seq<u8>>) -> TreeView {
    TreeView {
        height,
        filled_subtrees: Seq::new(
            MAX_HEIGHT as nat,
            |i: int| if i < height { zeros[i] } else { zero_digest() },
        ),
        zero_bytes: zeros,
        roots: Seq::new(
            MERKLE_TREE_HISTORY_SIZE as nat,
            |i: int| if i == 0 { zeros[height as int] } else { zero_digest() },
        ),
        next_index: 0,
        current_root_index: 0,
        leaves: Seq::empty(),
    }
}

/// The climb from level `lvl` to the root: `run` is the digest of the node
/// at position `idx` of level `lvl`. An even node is a left child: it is
/// cached in `filled` and paired with the empty right sibling `zeros[lvl]`.
/// An odd node is a right child: it is paired with the cached left sibling
/// `filled[lvl]`. Returns the root digest and the updated cache, or `None`
/// if a hash call fails.
pub open spec fn chain<H: Hasher>(
    filled: Seq<Seq<u8>>,
    zeros: Seq<Seq<u8>>,
    height: nat,
    lvl: nat,
    idx: nat,
    run: Seq<u8>,
) -> Option<(Seq<u8>, Seq<Seq<u8>>)>
    decreases height - lvl,
{
    if lvl >= height {
        Some((run, filled))
    } else if idx % 2 == 0 {
        match hash2::<H>(run, zeros[lvl as int]) {
            Some(up) => chain::<H>(
                filled.update(lvl as int, run),
                zeros,
                height,
                (lvl + 1) as nat,
                idx / 2,
                up,
            ),
            None => None,
        }
    } else {
        match hash2::<H>(filled[lvl as int], run) {
            Some(up) => chain::<H>(filled, zeros, height, (lvl + 1) as nat, idx / 2, up),
            None => None,
        }
    }
}

/// The insertion transition: hash the two leaves, climb the tree from level
/// 1, rotate the history pointer and record the new root, and advance the
/// leaf count by two. `None` if a hash call fails; capacity is the caller's
/// concern.
pub open spec fn step<H: Hasher>(t: TreeView, l1: Seq<u8>, l2: Seq<u8>) -> Option<TreeView> {
    match hash2::<H>(l1, l2) {
        Some(d0) => match chain::<H>(
            t.filled_subtrees,
            t.zero_bytes,
            t.height,
            1,
            t.next_index / 2,
            d0,
        ) {
            Some((root, filled)) => {
                let slot = (t.current_root_index + 1) % (MERKLE_TREE_HISTORY_SIZE as nat);
                Some(
                    TreeView {
                        filled_subtrees: filled,
                        roots: t.roots.update(slot as int, root),
                        next_index: (t.next_index + 2) as nat,
                        current_root_index: slot,
                        leaves: t.leaves.push((l1, l2)),
                        ..t
                    },
                )
            },
            None => None,
        },
        None => None,
    }
}

/// The state after inserting `pairs`, in order, into a freshly constructed
/// engine of the given height and zero table. `None` if a hash call fails
/// or the insertions exceed the tree's capacity of `pow2(height)` leaves.
pub open spec fn state_after<H: Hasher>(
    height: nat,
    zeros: Seq<Seq<u8>>,
    pairs: Seq<(Seq<u8>, Seq<u8>)>,
) -> Option<TreeView>
    decreases pairs.len(),
{
    if pairs.len() == 0 {
        Some(fresh_view(height, zeros))
    } else {
        match state_after::<H>(height, zeros, pairs.drop_last()) {
            Some(t) => {
                if t.next_index + 2 <= pow2(height) {
                    step::<H>(t, pairs.last().0, pairs.last().1)
                } else {
                    None
                }
            },
            None => None,
        }
    }
}

/// The digest of the pair `(a, b)` under `H`, where `H` accepts it.
pub open spec fn hash2_v<H: Hasher>(a: Seq<u8>, b: Seq<u8>) -> Seq<u8> {
    hash2::<H>(a, b)->Some_0
}

/// The level-1 digests of a sequence of leaf pairs.
pub open spec fn pair_digests<H: Hasher>(pairs: Seq<(Seq<u8>, Seq<u8>)>) -> Seq<Seq<u8>> {
    pairs.map_values(|p: (Seq<u8>, Seq<u8>)| hash2_v::<H>(p.0, p.1))
}

/// The zero table is self-pairing-consistent up to level `height`: each
/// entry is the digest of the previous entry paired with itself.
pub open spec fn table_consistent<H: Hasher>(zeros: Seq<Seq<u8>>, height: nat) -> bool {
    forall|i: int|
        2 <= i <= height ==> hash2::<H>(zeros[i - 1], zeros[i - 1]) == Some(zeros[i])
}

/// The digest of the node at position `pos` of level `lvl` in the full
/// binary tree whose level-1 nodes are `ds`, with every missing node of
/// level `l` standing as `zeros[l]`: each higher node is the digest of its
/// two children.
pub open spec fn node<H: Hasher>(
    ds: Seq<Seq<u8>>,
    zeros: Seq<Seq<u8>>,
    lvl: nat,
    pos: nat,
) -> Seq<u8>
    decreases lvl,
{
    if lvl <= 1 {
        if pos < ds.len() {
            ds[pos as int]
        } else {
            zeros[1]
        }
    } else {
        hash2_v::<H>(
            node::<H>(ds, zeros, (lvl - 1) as nat, 2 * pos),
            node::<H>(ds, zeros, (lvl - 1) as nat, 2 * pos + 1),
        )
    }
}

/// The climb never changes the length of the filled-subtree cache.
pub proof fn lemma_chain_len<H: Hasher>(
    filled: Seq<Seq<u8>>,
    zeros: Seq<Seq<u8>>,
    height: nat,
    lvl: nat,
    idx: nat,
    run: Seq<u8>,
)
    requires
        height <= filled.len(),
        chain::<H>(filled, zeros, height, lvl, idx, run) is Some,
    ensures
        chain::<H>(filled, zeros, height, lvl, idx, run)->Some_0.1.len() == filled.len(),
    decreases height - lvl,
{
    if lvl >= height {
    } else if idx % 2 == 0 {
        let up = hash2::<H>(run, zeros[lvl as int])->Some_0;
        let f2 = filled.update(lvl as int, run);
        assert(chain::<H>(filled, zeros, height, lvl, idx, run) == chain::<H>(
            f2,
            zeros,
            height,
            (lvl + 1) as nat,
            idx / 2,
            up,
        ));
        lemma_chain_len::<H>(f2, zeros, height, (lvl + 1) as nat, idx / 2, up);
        assert(f2.len() == filled.len());
    } else {
        let up = hash2::<H>(filled[lvl as int], run)->Some_0;
        assert(chain::<H>(filled, zeros, height, lvl, idx, run) == chain::<H>(
            filled,
            zeros,
            height,
            (lvl + 1) as nat,
            idx / 2,
            up,
        ));
        lemma_chain_len::<H>(filled, zeros, height, (lvl + 1) as nat, idx / 2, up);
    }
}

/// Shape facts that hold of every reachable state: the construction
/// parameters are kept, the caches keep their lengths, the leaf count is
/// twice the number of insertions and stays within capacity, and the history
/// pointer is the insertion count modulo the history size.
pub proof fn lemma_state_after_facts<H: Hasher>(
    height: nat,
    zeros: Seq<Seq<u8>>,
    pairs: Seq<(Seq<u8>, Seq<u8>)>,
    t: TreeView,
)
    requires
        height <= MAX_HEIGHT,
        state_after::<H>(height, zeros, pairs) == Some(t),
    ensures
        t.height == height,
        t.zero_bytes == zeros,
        t.leaves == pairs,
        t.filled_subtrees.len() == MAX_HEIGHT,
        t.roots.len() == MERKLE_TREE_HISTORY_SIZE,
        t.next_index == 2 * pairs.len(),
        t.next_index <= pow2(height),
        t.current_root_index == pairs.len() % (MERKLE_TREE_HISTORY_SIZE as nat),
        t.current_root_index < MERKLE_TREE_HISTORY_SIZE,
    decreases pairs.len(),
{
    let m = MERKLE_TREE_HISTORY_SIZE as nat;
    if pairs.len() == 0 {
        vstd::arithmetic::power2::lemma_pow2_pos(height);
        vstd::arithmetic::div_mod::lemma_small_mod(0, m);
    } else {
        let prev = state_after::<H>(height, zeros, pairs.drop_last())->Some_0;
        lemma_state_after_facts::<H>(height, zeros, pairs.drop_last(), prev);
        let d0 = hash2::<H>(pairs.last().0, pairs.last().1)->Some_0;
        lemma_chain_len::<H>(
            prev.filled_subtrees,
            prev.zero_bytes,
            prev.height,
            1,
            prev.next_index / 2,
            d0,
        );
        vstd::arithmetic::div_mod::lemma_small_mod(1, m);
        vstd::arithmetic::div_mod::lemma_add_mod_noop(
            pairs.drop_last().len() as int,
            1,
            m as int,
        );
        vstd::arithmetic::div_mod::lemma_mod_division_less_than_divisor(
            pairs.len() as int,
            m as int,
        );
    }
}

} // verus!
