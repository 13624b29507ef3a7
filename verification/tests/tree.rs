use light_merkle_tree::zero_table::zero_bytes_table;
use light_merkle_tree::{
    Blake3, Keccak, MerkleTree, MerkleTreeError, Poseidon, Sha256, MAX_HEIGHT,
    MERKLE_TREE_HISTORY_SIZE,
};

fn sha_table() -> Vec<[u8; 32]> {
    zero_bytes_table::<Sha256>(MAX_HEIGHT + 1).unwrap()
}

#[test]
fn test_sha256() {
    let zero_bytes = sha_table();
    let merkle_tree: MerkleTree<Sha256> = MerkleTree::new(3, zero_bytes.clone()).unwrap();

    let h = merkle_tree.hash([1; 32], [1; 32]).unwrap();
    let h = merkle_tree.hash(h, h).unwrap();
    assert_eq!(h, zero_bytes[0]);
}

#[test]
fn test_merkle_tree_insert() {
    let zero_bytes = sha_table();
    let mut merkle_tree: MerkleTree<Sha256> = MerkleTree::new(3, zero_bytes.clone()).unwrap();

    let h1 = merkle_tree.hash([1; 32], [2; 32]).unwrap();
    let h2 = merkle_tree.hash(h1, zero_bytes[1]).unwrap();
    let h3 = merkle_tree.hash(h2, zero_bytes[2]).unwrap();

    merkle_tree.insert([1u8; 32], [2u8; 32]).unwrap();
    assert_eq!(merkle_tree.last_root(), h3);

    assert_eq!(
        merkle_tree.last_root(),
        [
            247, 106, 203, 53, 197, 22, 54, 96, 235, 103, 77, 32, 26, 225, 24, 139, 161, 98, 253,
            193, 16, 47, 34, 229, 111, 32, 89, 149, 147, 184, 120, 122
        ]
    );

    merkle_tree.insert([3u8; 32], [4u8; 32]).unwrap();

    assert_eq!(
        merkle_tree.last_root(),
        [
            221, 141, 161, 139, 16, 93, 204, 253, 77, 161, 139, 239, 120, 252, 228, 149, 93, 68,
            230, 151, 142, 173, 176, 130, 234, 217, 247, 60, 49, 232, 98, 116
        ]
    )
}

#[test]
fn test_insertion_counters() {
    let mut tree: MerkleTree<Sha256> = MerkleTree::new(4, sha_table()).unwrap();
    assert_eq!(tree.next_index, 0);
    assert_eq!(tree.current_root_index, 0);
    for k in 1..=8usize {
        tree.insert([k as u8; 32], [(k + 1) as u8; 32]).unwrap();
        assert_eq!(tree.next_index, 2 * k);
        assert_eq!(tree.current_root_index, k % MERKLE_TREE_HISTORY_SIZE);
    }
}

#[test]
fn test_root_determinism() {
    let mut a: MerkleTree<Sha256> = MerkleTree::new(5, sha_table()).unwrap();
    let mut b: MerkleTree<Sha256> = MerkleTree::new(5, sha_table()).unwrap();
    let leaves = [([7u8; 32], [8u8; 32]), ([9u8; 32], [10u8; 32]), ([0u8; 32], [255u8; 32])];
    for (l1, l2) in leaves.iter() {
        a.insert(*l1, *l2).unwrap();
        b.insert(*l1, *l2).unwrap();
        assert_eq!(a.last_root(), b.last_root());
    }
    assert_eq!(a.roots, b.roots);
    assert_eq!(a.filled_subtrees, b.filled_subtrees);
    assert_eq!(a.current_root_index, b.current_root_index);
}

#[test]
fn test_zero_table_self_pairing() {
    let zero_bytes = sha_table();
    let tree: MerkleTree<Sha256> = MerkleTree::new(3, zero_bytes.clone()).unwrap();
    let seed = tree.hash([1u8; 32], [1u8; 32]).unwrap();
    assert_eq!(zero_bytes[0], tree.hash(seed, seed).unwrap());
    for i in 1..zero_bytes.len() {
        assert_eq!(
            zero_bytes[i],
            tree.hash(zero_bytes[i - 1], zero_bytes[i - 1]).unwrap()
        );
    }
}

#[test]
fn test_is_known_root() {
    let zero_bytes = sha_table();
    let mut tree: MerkleTree<Sha256> = MerkleTree::new(3, zero_bytes.clone()).unwrap();
    let empty_root = tree.last_root();
    assert_eq!(empty_root, zero_bytes[3]);
    assert!(tree.is_known_root(empty_root));

    tree.insert([1u8; 32], [2u8; 32]).unwrap();
    let first_root = tree.last_root();
    tree.insert([3u8; 32], [4u8; 32]).unwrap();
    let second_root = tree.last_root();

    assert!(tree.is_known_root(empty_root));
    assert!(tree.is_known_root(first_root));
    assert!(tree.is_known_root(second_root));
    assert!(!tree.is_known_root([0xABu8; 32]));
    assert!(!tree.is_known_root([0u8; 32]));
}

#[test]
fn test_capacity_boundary() {
    let mut tree: MerkleTree<Sha256> = MerkleTree::new(2, sha_table()).unwrap();
    tree.insert([1u8; 32], [2u8; 32]).unwrap();
    tree.insert([3u8; 32], [4u8; 32]).unwrap();
    let root = tree.last_root();
    let err = tree.insert([5u8; 32], [6u8; 32]).unwrap_err();
    assert_eq!(err, MerkleTreeError::CapacityExceeded);
    // The rejected call left the state unchanged.
    assert_eq!(tree.next_index, 4);
    assert_eq!(tree.last_root(), root);
    assert_eq!(tree.current_root_index, 2);
}

#[test]
fn test_height_one_capacity() {
    let mut tree: MerkleTree<Sha256> = MerkleTree::new(1, sha_table()).unwrap();
    tree.insert([1u8; 32], [2u8; 32]).unwrap();
    // With height 1 the root is the digest of the single pair.
    assert_eq!(tree.last_root(), tree.hash([1u8; 32], [2u8; 32]).unwrap());
    let err = tree.insert([3u8; 32], [4u8; 32]).unwrap_err();
    assert_eq!(err, MerkleTreeError::CapacityExceeded);
}

#[test]
fn test_keccak_tree_root_chain() {
    let zero_bytes = zero_bytes_table::<Keccak>(MAX_HEIGHT + 1).unwrap();
    let mut tree: MerkleTree<Keccak> = MerkleTree::new(3, zero_bytes.clone()).unwrap();
    let h1 = tree.hash([5u8; 32], [6u8; 32]).unwrap();
    let h2 = tree.hash(h1, zero_bytes[1]).unwrap();
    let h3 = tree.hash(h2, zero_bytes[2]).unwrap();
    tree.insert([5u8; 32], [6u8; 32]).unwrap();
    assert_eq!(tree.last_root(), h3);
}

#[test]
fn test_blake3_tree_root_chain() {
    let zero_bytes = zero_bytes_table::<Blake3>(MAX_HEIGHT + 1).unwrap();
    let mut tree: MerkleTree<Blake3> = MerkleTree::new(3, zero_bytes.clone()).unwrap();
    let h1 = tree.hash([5u8; 32], [6u8; 32]).unwrap();
    let h2 = tree.hash(h1, zero_bytes[1]).unwrap();
    let h3 = tree.hash(h2, zero_bytes[2]).unwrap();
    tree.insert([5u8; 32], [6u8; 32]).unwrap();
    assert_eq!(tree.last_root(), h3);
}

#[test]
fn test_poseidon_tree_roots_distinct() {
    let zero_bytes = zero_bytes_table::<Poseidon>(MAX_HEIGHT + 1).unwrap();
    let mut tree: MerkleTree<Poseidon> = MerkleTree::new(3, zero_bytes.clone()).unwrap();
    let mut other: MerkleTree<Poseidon> = MerkleTree::new(3, zero_bytes.clone()).unwrap();

    let h1 = tree.hash([1u8; 32], [2u8; 32]).unwrap();
    let h2 = tree.hash(h1, zero_bytes[1]).unwrap();
    let h3 = tree.hash(h2, zero_bytes[2]).unwrap();

    tree.insert([1u8; 32], [2u8; 32]).unwrap();
    let first_root = tree.last_root();
    assert_eq!(first_root, h3);

    tree.insert([3u8; 32], [4u8; 32]).unwrap();
    let second_root = tree.last_root();
    assert_ne!(first_root, second_root);

    // A second engine fed the same pairs produces the same roots.
    other.insert([1u8; 32], [2u8; 32]).unwrap();
    assert_eq!(other.last_root(), first_root);
    other.insert([3u8; 32], [4u8; 32]).unwrap();
    assert_eq!(other.last_root(), second_root);
}

#[test]
fn test_invalid_height() {
    let table = sha_table();
    let err = match MerkleTree::<Sha256>::new(0, table.clone()) {
        Ok(_) => panic!("expected an error"),
        Err(e) => e,
    };
    assert_eq!(err, MerkleTreeError::InvalidHeight);
    let err = match MerkleTree::<Sha256>::new(MAX_HEIGHT + 1, table) {
        Ok(_) => panic!("expected an error"),
        Err(e) => e,
    };
    assert_eq!(err, MerkleTreeError::InvalidHeight);
}

#[test]
fn test_invalid_zero_bytes() {
    let table = sha_table();
    // A height-3 tree needs table entries 0 through 3.
    let err = match MerkleTree::<Sha256>::new(3, table[..3].to_vec()) {
        Ok(_) => panic!("expected an error"),
        Err(e) => e,
    };
    assert_eq!(err, MerkleTreeError::InvalidZeroBytes);
    let tree = MerkleTree::<Sha256>::new(3, table[..4].to_vec());
    assert!(tree.is_ok());
}

#[test]
fn test_init_reinitializes_in_place() {
    let zero_bytes = sha_table();
    let fresh: MerkleTree<Sha256> = MerkleTree::new(3, zero_bytes.clone()).unwrap();
    let mut tree: MerkleTree<Sha256> = MerkleTree::new(3, zero_bytes.clone()).unwrap();
    tree.insert([1u8; 32], [2u8; 32]).unwrap();
    tree.init(3, zero_bytes.clone()).unwrap();
    assert_eq!(tree.next_index, 0);
    assert_eq!(tree.current_root_index, 0);
    assert_eq!(tree.last_root(), fresh.last_root());
    assert_eq!(tree.roots, fresh.roots);
    assert_eq!(tree.filled_subtrees, fresh.filled_subtrees);

    let err = tree.init(0, zero_bytes).unwrap_err();
    assert_eq!(err, MerkleTreeError::InvalidHeight);
    // The failed call left the tree unchanged.
    assert_eq!(tree.last_root(), fresh.last_root());
}

#[test]
fn test_last_root_is_current_slot() {
    let mut tree: MerkleTree<Sha256> = MerkleTree::new(3, sha_table()).unwrap();
    tree.insert([9u8; 32], [9u8; 32]).unwrap();
    assert_eq!(tree.last_root(), tree.roots[tree.current_root_index]);
}

#[test]
fn test_history_wraps_around() {
    // Height 6 holds 32 pairs, more than the history can retain.
    let mut tree: MerkleTree<Sha256> = MerkleTree::new(6, sha_table()).unwrap();
    let empty_root = tree.last_root();
    let mut roots = Vec::new();
    for k in 0..25u8 {
        tree.insert([k; 32], [k + 1; 32]).unwrap();
        roots.push(tree.last_root());
    }
    assert_eq!(tree.current_root_index, 25 % MERKLE_TREE_HISTORY_SIZE);
    // The scan runs from the current slot down to slot 0 only: recent roots
    // in that window are known, and the seeded all-empty root has been
    // overwritten by now.
    assert!(tree.is_known_root(roots[24]));
    assert!(tree.is_known_root(roots[20]));
    assert!(!tree.is_known_root(empty_root));
    // Retained but above the current slot: not scanned.
    assert!(!tree.is_known_root(roots[18]));
}
