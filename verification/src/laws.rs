//! Proved laws of the tree engine, stated over the mathematical model its
//! contracts are written in.

use vstd::prelude::*;

use vstd::arithmetic::div_mod::{
    lemma_div_basics, lemma_div_denominator, lemma_div_pos_is_pos, lemma_fundamental_div_mod,
    lemma_fundamental_div_mod_converse, lemma_mod_division_less_than_divisor, lemma_small_mod,
};
use vstd::arithmetic::power2::{lemma2_to64, lemma_pow2_pos, lemma_pow2_unfold, pow2};

use crate::hasher::Hasher;
use crate::model::{
    chain, hash2, hash2_v, lemma_state_after_facts, node, pair_digests, pairwise_total,
    state_after, table_consistent, TreeView,
};
use crate::zero_table::zero_entry;
use crate::{MAX_HEIGHT, MERKLE_TREE_HISTORY_SIZE};

verus! {

/// After `k` insertions the leaf count is `2 k`, and the history pointer is
/// `k` modulo the history size.
pub proof fn lemma_insertion_counters<H: Hasher>(
    height: nat,
    zeros: Seq<Seq<u8>>,
    pairs: Seq<(Seq<u8>, Seq<u8>)>,
    t: TreeView,
)
    requires
        height <= MAX_HEIGHT,
        state_after::<H>(height, zeros, pairs) == Some(t),
    ensures
        t.next_index == 2 * pairs.len(),
        t.current_root_index == pairs.len() % (MERKLE_TREE_HISTORY_SIZE as nat),
{
    lemma_state_after_facts::<H>(height, zeros, pairs, t);
}

/// Root determinism: one height, one zero table and one sequence of leaf
/// pairs determine the whole engine state — two freshly constructed engines
/// fed the same insertions hold the same roots.
pub proof fn lemma_root_determinism<H: Hasher>(
    height: nat,
    zeros: Seq<Seq<u8>>,
    pairs: Seq<(Seq<u8>, Seq<u8>)>,
    t1: TreeView,
    t2: TreeView,
)
    requires
        state_after::<H>(height, zeros, pairs) == Some(t1),
        state_after::<H>(height, zeros, pairs) == Some(t2),
    ensures
        t1 == t2,
        t1.roots == t2.roots,
        t1.current_root_index == t2.current_root_index,
{
}

/// Capacity boundary: an engine of height `h` has room for an insertion
/// exactly while fewer than `pow2(h - 1)` insertions have been made; after
/// exactly `pow2(h - 1)` of them the tree is full.
pub proof fn lemma_capacity_boundary<H: Hasher>(
    height: nat,
    zeros: Seq<Seq<u8>>,
    pairs: Seq<(Seq<u8>, Seq<u8>)>,
    t: TreeView,
)
    requires
        1 <= height <= MAX_HEIGHT,
        state_after::<H>(height, zeros, pairs) == Some(t),
    ensures
        (t.next_index + 2 <= pow2(height)) <==> (pairs.len() < pow2((height - 1) as nat)),
        pairs.len() == pow2((height - 1) as nat) ==> t.next_index == pow2(height),
{
    lemma_state_after_facts::<H>(height, zeros, pairs, t);
    lemma_pow2_unfold(height);
}

/// Zero-tree law: a table whose entries come from the generator chain is the
/// repeated self-pairing of the empty leaf's digest, so each level's entry
/// is the digest of the previous entry paired with itself.
pub proof fn lemma_zero_table_self_pairing<H: Hasher>(
    zeros: Seq<Seq<u8>>,
    levels: nat,
    height: nat,
)
    requires
        forall|i: int| 0 <= i < levels ==> zero_entry::<H>(i as nat) == Some(#[trigger] zeros[i]),
        height < levels,
    ensures
        forall|i: int|
            1 <= i < levels ==> #[trigger] hash2::<H>(zeros[i - 1], zeros[i - 1]) == Some(zeros[i]),
        table_consistent::<H>(zeros, height),
{
    assert forall|i: int|
        1 <= i < levels implies #[trigger] hash2::<H>(zeros[i - 1], zeros[i - 1]) == Some(
        zeros[i],
    ) by {
        assert(zero_entry::<H>(i as nat) == Some(zeros[i]));
        assert(zero_entry::<H>((i - 1) as nat) == Some(zeros[i - 1]));
        assert(zero_entry::<H>(i as nat) == hash2::<H>(zeros[i - 1], zeros[i - 1]));
    }
}

/// Every hash capability of this crate accepts pairs of buffers, so the
/// laws conditioned on `pairwise_total` hold of all of them.
pub proof fn lemma_providers_pairwise_total()
    ensures
        pairwise_total::<crate::Sha256>(),
        pairwise_total::<crate::Keccak>(),
        pairwise_total::<crate::Blake3>(),
        pairwise_total::<crate::Poseidon>(),
{
    assert forall|a: Seq<u8>, b: Seq<u8>| #[trigger] hash2::<crate::Poseidon>(a, b) is Some by {
        assert(seq![a, b].len() == 2);
    }
}

/// The root recorded after the first `k` insertions of a history (`k == 0`
/// gives the all-empty root seeded at construction).
pub open spec fn prefix_root<H: Hasher>(
    height: nat,
    zeros: Seq<Seq<u8>>,
    pairs: Seq<(Seq<u8>, Seq<u8>)>,
    k: int,
) -> Seq<u8> {
    let t = state_after::<H>(height, zeros, pairs.take(k))->Some_0;
    t.roots[t.current_root_index as int]
}

/// Every prefix of a reachable insertion history is itself reachable.
proof fn lemma_state_after_prefix<H: Hasher>(
    height: nat,
    zeros: Seq<Seq<u8>>,
    pairs: Seq<(Seq<u8>, Seq<u8>)>,
    k: int,
)
    requires
        state_after::<H>(height, zeros, pairs) is Some,
        0 <= k <= pairs.len(),
    ensures
        state_after::<H>(height, zeros, pairs.take(k)) is Some,
    decreases pairs.len(),
{
    if k == pairs.len() {
        assert(pairs.take(k) =~= pairs);
    } else {
        assert(pairs.take(k) =~= pairs.drop_last().take(k));
        lemma_state_after_prefix::<H>(height, zeros, pairs.drop_last(), k);
    }
}

/// Every digest in the scanned portion of the history is a root this engine
/// once recorded: the all-empty root, or the root after some prefix of the
/// insertions. A digest the engine never produced is therefore never
/// reported as known.
pub proof fn lemma_known_roots_produced<H: Hasher>(
    height: nat,
    zeros: Seq<Seq<u8>>,
    pairs: Seq<(Seq<u8>, Seq<u8>)>,
    t: TreeView,
    j: int,
)
    requires
        height <= MAX_HEIGHT,
        state_after::<H>(height, zeros, pairs) == Some(t),
        0 <= j <= t.current_root_index,
    ensures
        exists|k: int|
            0 <= k <= pairs.len() && t.roots[j] == #[trigger] prefix_root::<H>(
                height,
                zeros,
                pairs,
                k,
            ),
    decreases pairs.len(),
{
    lemma_state_after_facts::<H>(height, zeros, pairs, t);
    let m = MERKLE_TREE_HISTORY_SIZE as nat;
    if pairs.len() == 0 {
        assert(pairs.take(0) =~= pairs);
        assert(t.roots[j] == prefix_root::<H>(height, zeros, pairs, 0));
    } else {
        let ps = pairs.drop_last();
        let s = state_after::<H>(height, zeros, ps)->Some_0;
        lemma_state_after_facts::<H>(height, zeros, ps, s);
        if j == t.current_root_index {
            assert(pairs.take(pairs.len() as int) =~= pairs);
            assert(t.roots[j] == prefix_root::<H>(height, zeros, pairs, pairs.len() as int));
        } else {
            // The scanned slot is below the freshly written one, so it was
            // already in the previous state's scanned window, untouched by
            // this insertion.
            let slot = (s.current_root_index + 1) % m;
            if s.current_root_index + 1 < m {
                lemma_small_mod(s.current_root_index + 1, m);
            } else {
                assert(s.current_root_index + 1 == m);
                assert(slot == 0) by {
                    lemma_small_mod(0, m);
                    assert((m as int) % (m as int) == 0) by {
                        vstd::arithmetic::div_mod::lemma_mod_self_0(m as int);
                    }
                }
            }
            assert(j <= s.current_root_index);
            assert(t.roots[j] == s.roots[j]);
            lemma_known_roots_produced::<H>(height, zeros, ps, s, j);
            let k = choose|k: int|
                0 <= k <= ps.len() && s.roots[j] == #[trigger] prefix_root::<H>(
                    height,
                    zeros,
                    ps,
                    k,
                );
            assert(ps.take(k) =~= pairs.take(k));
            assert(t.roots[j] == prefix_root::<H>(height, zeros, pairs, k));
        }
    }
}

/// Growing the dividend by one moves the quotient up by at most one.
proof fn lemma_div_succ(k: nat, a: nat)
    requires
        a >= 1,
    ensures
        k / a <= (k + 1) / a <= k / a + 1,
{
    let ki = k as int;
    let ai = a as int;
    lemma_fundamental_div_mod(ki, ai);
    lemma_mod_division_less_than_divisor(ki, ai);
    lemma_div_pos_is_pos(ki, ai);
    let q = ki / ai;
    let r = ki % ai;
    if r + 1 < ai {
        lemma_fundamental_div_mod_converse(ki + 1, ai, q, r + 1);
    } else {
        assert(ki + 1 == (q + 1) * ai + 0) by (nonlinear_arith)
            requires
                ki == ai * q + r,
                r + 1 == ai,
        ;
        lemma_fundamental_div_mod_converse(ki + 1, ai, q + 1, 0);
    }
}

/// An all-empty subtree's digest is its level's zero value, for a
/// self-pairing-consistent table.
proof fn lemma_node_empty<H: Hasher>(
    ds: Seq<Seq<u8>>,
    zeros: Seq<Seq<u8>>,
    height: nat,
    lvl: nat,
    pos: nat,
)
    requires
        table_consistent::<H>(zeros, height),
        1 <= lvl <= height,
        pos * pow2((lvl - 1) as nat) >= ds.len(),
    ensures
        node::<H>(ds, zeros, lvl, pos) == zeros[lvl as int],
    decreases lvl,
{
    if lvl == 1 {
        assert(pow2(0) == 1) by {
            lemma2_to64();
        }
    } else {
        let a = pow2((lvl - 2) as nat);
        lemma_pow2_pos((lvl - 2) as nat);
        lemma_pow2_unfold((lvl - 1) as nat);
        assert((2 * pos) * a == pos * (2 * a)) by (nonlinear_arith);
        assert((2 * pos + 1) * a >= (2 * pos) * a) by (nonlinear_arith)
            requires
                a >= 1,
        ;
        lemma_node_empty::<H>(ds, zeros, height, (lvl - 1) as nat, 2 * pos);
        lemma_node_empty::<H>(ds, zeros, height, (lvl - 1) as nat, 2 * pos + 1);
        assert(hash2::<H>(zeros[lvl - 1], zeros[lvl - 1]) == Some(zeros[lvl as int]));
    }
}

/// A node over an extended pair list equals the node over the original one
/// when its subtree lies wholly within the original pairs.
proof fn lemma_node_frame<H: Hasher>(
    ds1: Seq<Seq<u8>>,
    ds2: Seq<Seq<u8>>,
    zeros: Seq<Seq<u8>>,
    lvl: nat,
    pos: nat,
)
    requires
        1 <= lvl,
        ds1.len() <= ds2.len(),
        forall|i: int| 0 <= i < ds1.len() ==> ds1[i] == ds2[i],
        (pos + 1) * pow2((lvl - 1) as nat) <= ds1.len(),
    ensures
        node::<H>(ds1, zeros, lvl, pos) == node::<H>(ds2, zeros, lvl, pos),
    decreases lvl,
{
    if lvl == 1 {
        assert(pow2(0) == 1) by {
            lemma2_to64();
        }
    } else {
        let a = pow2((lvl - 2) as nat);
        lemma_pow2_pos((lvl - 2) as nat);
        lemma_pow2_unfold((lvl - 1) as nat);
        assert((2 * pos + 2) * a == (pos + 1) * (2 * a)) by (nonlinear_arith);
        assert((2 * pos + 1) * a <= (2 * pos + 2) * a) by (nonlinear_arith)
            requires
                a >= 1,
        ;
        lemma_node_frame::<H>(ds1, ds2, zeros, (lvl - 1) as nat, 2 * pos);
        lemma_node_frame::<H>(ds1, ds2, zeros, (lvl - 1) as nat, 2 * pos + 1);
    }
}

/// The iterative climb from level `lvl` computes exactly the recursive
/// Merkle node at the root, and leaves in the cache exactly the completed
/// left siblings that later insertions will need. Here `k` is the number of
/// pairs inserted before this one and `ds2` the pair digests including this
/// one.
proof fn lemma_chain_node<H: Hasher>(
    filled: Seq<Seq<u8>>,
    zeros: Seq<Seq<u8>>,
    height: nat,
    lvl: nat,
    k: nat,
    ds2: Seq<Seq<u8>>,
    run: Seq<u8>,
)
    requires
        pairwise_total::<H>(),
        table_consistent::<H>(zeros, height),
        height <= filled.len(),
        1 <= lvl <= height,
        ds2.len() == k + 1,
        k + 1 <= pow2((height - 1) as nat),
        run == node::<H>(ds2, zeros, lvl, k / pow2((lvl - 1) as nat)),
        forall|l: int|
            lvl <= l < height && (k / #[trigger] pow2((l - 1) as nat)) % 2 == 1
                ==> filled[l] == node::<H>(
                ds2,
                zeros,
                l as nat,
                (k / pow2((l - 1) as nat) - 1) as nat,
            ),
    ensures
        chain::<H>(filled, zeros, height, lvl, k / pow2((lvl - 1) as nat), run) is Some,
        ({
            let c = chain::<H>(filled, zeros, height, lvl, k / pow2((lvl - 1) as nat), run)->Some_0;
            &&& c.0 == node::<H>(ds2, zeros, height, 0)
            &&& c.1.len() == filled.len()
            &&& forall|l: int| 0 <= l < lvl ==> c.1[l] == filled[l]
            &&& forall|l: int|
                lvl <= l < height && ((k + 1) / #[trigger] pow2((l - 1) as nat)) % 2 == 1
                    ==> c.1[l] == node::<H>(
                    ds2,
                    zeros,
                    l as nat,
                    ((k + 1) / pow2((l - 1) as nat) - 1) as nat,
                )
        }),
    decreases height - lvl,
{
    let a = pow2((lvl - 1) as nat);
    lemma_pow2_pos((lvl - 1) as nat);
    let q = k / a;
    lemma_fundamental_div_mod(k as int, a as int);
    lemma_mod_division_less_than_divisor(k as int, a as int);
    lemma_div_pos_is_pos(k as int, a as int);
    if lvl == height {
        vstd::arithmetic::div_mod::lemma_basic_div(k as int, a as int);
        assert(q == 0);
        assert(chain::<H>(filled, zeros, height, lvl, q, run) == Some((run, filled)));
    } else {
        lemma_pow2_unfold(lvl);
        let a2 = pow2(lvl as nat);
        lemma_div_denominator(k as int, a as int, 2);
        assert(k / a2 == q / 2);
        lemma_fundamental_div_mod(q as int, 2);
        lemma_mod_division_less_than_divisor(q as int, 2);
        lemma_div_succ(k, a);
        let q1 = (k + 1) / a;
        if q % 2 == 0 {
            // This pair-digest's subtree is a left child here: its right
            // sibling is still all-empty.
            assert((q + 1) * a >= k + 1) by (nonlinear_arith)
                requires
                    k == a * q + (k as int % a as int),
                    (k as int % a as int) < a,
            ;
            lemma_node_empty::<H>(ds2, zeros, height, lvl, (q + 1) as nat);
            assert(hash2::<H>(run, zeros[lvl as int]) is Some);
            let up = hash2_v::<H>(run, zeros[lvl as int]);
            assert(2 * (q / 2) == q);
            assert(node::<H>(ds2, zeros, (lvl + 1) as nat, q / 2) == up);
            let f2 = filled.update(lvl as int, run);
            lemma_chain_node::<H>(f2, zeros, height, (lvl + 1) as nat, k, ds2, up);
            assert(chain::<H>(filled, zeros, height, lvl, q, run) == chain::<H>(
                f2,
                zeros,
                height,
                (lvl + 1) as nat,
                q / 2,
                up,
            ));
            let c = chain::<H>(filled, zeros, height, lvl, q, run)->Some_0;
            assert forall|l: int| 0 <= l < lvl implies c.1[l] == filled[l] by {
                assert(c.1[l] == f2[l]);
                assert(f2[l] == filled[l]);
            }
            assert forall|l: int|
                lvl <= l < height && ((k + 1) / #[trigger] pow2((l - 1) as nat)) % 2 == 1
                    implies c.1[l] == node::<H>(
                ds2,
                zeros,
                l as nat,
                ((k + 1) / pow2((l - 1) as nat) - 1) as nat,
            ) by {
                if l == lvl {
                    assert(q1 % 2 == 1);
                    assert(q1 == q + 1);
                    assert(c.1[l] == f2[l]);
                }
            }
        } else {
            // This pair-digest's subtree is a right child here: the cache
            // holds its completed left sibling.
            assert(filled[lvl as int] == node::<H>(ds2, zeros, lvl, (q - 1) as nat));
            let left = filled[lvl as int];
            assert(hash2::<H>(left, run) is Some);
            let up = hash2_v::<H>(left, run);
            assert(2 * (q / 2) == q - 1);
            assert(node::<H>(ds2, zeros, (lvl + 1) as nat, q / 2) == up);
            lemma_chain_node::<H>(filled, zeros, height, (lvl + 1) as nat, k, ds2, up);
            assert(chain::<H>(filled, zeros, height, lvl, q, run) == chain::<H>(
                filled,
                zeros,
                height,
                (lvl + 1) as nat,
                q / 2,
                up,
            ));
            let c = chain::<H>(filled, zeros, height, lvl, q, run)->Some_0;
            assert forall|l: int| 0 <= l < lvl implies c.1[l] == filled[l] by {
                assert(c.1[l] == filled[l]);
            }
            assert forall|l: int|
                lvl <= l < height && ((k + 1) / #[trigger] pow2((l - 1) as nat)) % 2 == 1
                    implies c.1[l] == node::<H>(
                ds2,
                zeros,
                l as nat,
                ((k + 1) / pow2((l - 1) as nat) - 1) as nat,
            ) by {
                if l == lvl {
                    assert(q1 % 2 == 1);
                    assert(q1 == q);
                    assert(c.1[l] == filled[l]);
                }
            }
        }
    }
}

/// After any reachable history, the recorded current root is the Merkle root
/// of the inserted pair digests, and the cache holds exactly the completed
/// left siblings the next insertion may need.
proof fn lemma_reachable_root<H: Hasher>(
    height: nat,
    zeros: Seq<Seq<u8>>,
    pairs: Seq<(Seq<u8>, Seq<u8>)>,
    t: TreeView,
)
    requires
        pairwise_total::<H>(),
        1 <= height <= MAX_HEIGHT,
        table_consistent::<H>(zeros, height),
        state_after::<H>(height, zeros, pairs) == Some(t),
    ensures
        t.roots[t.current_root_index as int] == node::<H>(
            pair_digests::<H>(pairs),
            zeros,
            height,
            0,
        ),
        forall|l: int|
            1 <= l < height && (pairs.len() / #[trigger] pow2((l - 1) as nat)) % 2 == 1
                ==> t.filled_subtrees[l] == node::<H>(
                pair_digests::<H>(pairs),
                zeros,
                l as nat,
                (pairs.len() / pow2((l - 1) as nat) - 1) as nat,
            ),
    decreases pairs.len(),
{
    lemma_state_after_facts::<H>(height, zeros, pairs, t);
    let ds = pair_digests::<H>(pairs);
    if pairs.len() == 0 {
        assert(0 * pow2((height - 1) as nat) == 0) by (nonlinear_arith);
        lemma_node_empty::<H>(ds, zeros, height, height, 0);
        assert forall|l: int|
            1 <= l < height && (pairs.len() / #[trigger] pow2((l - 1) as nat)) % 2 == 1
                implies t.filled_subtrees[l] == node::<H>(
            ds,
            zeros,
            l as nat,
            (pairs.len() / pow2((l - 1) as nat) - 1) as nat,
        ) by {
            lemma_pow2_pos((l - 1) as nat);
            lemma_div_basics(pow2((l - 1) as nat) as int);
            assert(false);
        }
    } else {
        let ps = pairs.drop_last();
        let s = state_after::<H>(height, zeros, ps)->Some_0;
        lemma_state_after_facts::<H>(height, zeros, ps, s);
        lemma_reachable_root::<H>(height, zeros, ps, s);
        let k = ps.len();
        let dsp = pair_digests::<H>(ps);
        let p = pairs.last();
        let d0 = hash2_v::<H>(p.0, p.1);
        assert(hash2::<H>(p.0, p.1) is Some);
        assert(ds =~= dsp.push(d0));
        lemma_pow2_unfold(height);
        // s.next_index == 2 k, so the climb starts at pair position k.
        lemma_fundamental_div_mod_converse(2 * k as int, 2, k as int, 0);
        assert(s.next_index / 2 == k);
        // Lift the cache facts from the old pair digests to the new ones.
        assert forall|l: int|
            1 <= l < height && (k / #[trigger] pow2((l - 1) as nat)) % 2 == 1
                implies s.filled_subtrees[l] == node::<H>(
            ds,
            zeros,
            l as nat,
            (k / pow2((l - 1) as nat) - 1) as nat,
        ) by {
            let aa = pow2((l - 1) as nat);
            lemma_pow2_pos((l - 1) as nat);
            let qq = k / aa;
            lemma_fundamental_div_mod(k as int, aa as int);
            lemma_mod_division_less_than_divisor(k as int, aa as int);
            lemma_div_pos_is_pos(k as int, aa as int);
            assert(qq >= 1);
            assert(qq * aa <= k) by (nonlinear_arith)
                requires
                    k == aa * qq + (k as int % aa as int),
                    0 <= (k as int % aa as int),
            ;
            assert(((qq - 1) + 1) * aa <= dsp.len());
            lemma_node_frame::<H>(dsp, ds, zeros, l as nat, (qq - 1) as nat);
        }
        assert(pow2(0) == 1) by {
            lemma2_to64();
        }
        lemma_div_basics(1);
        assert(k / pow2(0) == k) by {
            lemma_div_basics(k as int);
        }
        assert(node::<H>(ds, zeros, 1, k) == ds[k as int]);
        assert(ds[k as int] == d0);
        lemma_chain_node::<H>(s.filled_subtrees, zeros, height, 1, k, ds, d0);
        let c = chain::<H>(s.filled_subtrees, zeros, height, 1, k, d0)->Some_0;
        assert(t.filled_subtrees == c.1);
        assert(t.roots[t.current_root_index as int] == c.0);
    }
}

/// The heart of the accumulator: with a self-pairing-consistent zero table,
/// the current root after any in-capacity sequence of insertions is the root
/// of the standard binary Merkle tree whose level-1 nodes are the inserted
/// pairs' digests and whose unfilled positions stand as their level's zero
/// value.
pub proof fn lemma_root_reflects_leaves<H: Hasher>(
    height: nat,
    zeros: Seq<Seq<u8>>,
    pairs: Seq<(Seq<u8>, Seq<u8>)>,
    t: TreeView,
)
    requires
        pairwise_total::<H>(),
        1 <= height <= MAX_HEIGHT,
        table_consistent::<H>(zeros, height),
        state_after::<H>(height, zeros, pairs) == Some(t),
    ensures
        t.roots[t.current_root_index as int] == node::<H>(
            pair_digests::<H>(pairs),
            zeros,
            height,
            0,
        ),
{
    lemma_reachable_root::<H>(height, zeros, pairs, t);
}

} // verus!
