use gitgold::merkle::{hash_eq, hash_pair, MerkleError};
use gitgold::MerkleTree;
use sha2::{Digest, Sha256};

fn leaf(data: &[u8]) -> [u8; 32] {
    Sha256::digest(data).into()
}

fn from_hex(text: &str) -> [u8; 32] {
    let bytes = hex::decode(text).unwrap();
    let mut out = [0u8; 32];
    out.copy_from_slice(&bytes);
    out
}

#[test]
fn empty_tree_has_zero_root_and_no_proofs() {
    let tree = MerkleTree::build(Vec::new());
    assert_eq!(tree.root(), [0u8; 32]);
    assert_eq!(tree.leaf_count(), 0);
    assert_eq!(tree.inclusion_proof(0), Err(MerkleError::IndexOutOfRange));
}

#[test]
fn single_leaf_is_its_own_root() {
    let l = leaf(b"a");
    let tree = MerkleTree::build(vec![l]);
    assert_eq!(tree.root(), l);
    assert_eq!(tree.inclusion_proof(0), Ok(Vec::new()));
    assert!(MerkleTree::verify_proof(l, &Vec::new(), l));
    assert_eq!(tree.inclusion_proof(1), Err(MerkleError::IndexOutOfRange));
}

#[test]
fn two_leaves_hash_together() {
    let tree = MerkleTree::build(vec![leaf(b"a"), leaf(b"b")]);
    assert_eq!(
        tree.root(),
        from_hex("e5a01fee14e0ed5c48714f22180f25ad8365b53f9779f79dc4a3d7e93963f94a")
    );
    assert_eq!(tree.inclusion_proof(0), Ok(vec![(leaf(b"b"), true)]));
    assert_eq!(tree.inclusion_proof(1), Ok(vec![(leaf(b"a"), false)]));
}

#[test]
fn odd_level_pairs_last_node_with_itself() {
    let tree = MerkleTree::build(vec![leaf(b"a"), leaf(b"b"), leaf(b"c")]);
    assert_eq!(
        tree.root(),
        from_hex("d31a37ef6ac14a2db1470c4316beb5592e6afd4465022339adafda76a18ffabe")
    );
    let path = tree.inclusion_proof(2).unwrap();
    assert_eq!(path.len(), 2);
    assert_eq!(path[0], (leaf(b"c"), true));
    assert_eq!(path[1], (hash_pair(&leaf(b"a"), &leaf(b"b")), false));
}

#[test]
fn every_proof_verifies_and_tampering_fails() {
    for count in 1..20usize {
        let leaves: Vec<[u8; 32]> = (0..count).map(|i| leaf(&(i as u64).to_le_bytes())).collect();
        let tree = MerkleTree::build(leaves.clone());
        let root = tree.root();
        assert_eq!(tree.leaf_count(), count);
        for i in 0..count {
            let path = tree.inclusion_proof(i).unwrap();
            assert!(MerkleTree::verify_proof(leaves[i], &path, root));
            let mut bad_leaf = leaves[i];
            bad_leaf[7] ^= 1;
            assert!(!MerkleTree::verify_proof(bad_leaf, &path, root));
            let mut bad_root = root;
            bad_root[31] ^= 0x80;
            assert!(!MerkleTree::verify_proof(leaves[i], &path, bad_root));
            if !path.is_empty() {
                let mut bad_path = path.clone();
                bad_path[0].0[0] ^= 1;
                assert!(!MerkleTree::verify_proof(leaves[i], &bad_path, root));
            }
        }
        assert_eq!(tree.inclusion_proof(count), Err(MerkleError::IndexOutOfRange));
    }
}

#[test]
fn root_depends_on_leaf_order() {
    let a = MerkleTree::build(vec![leaf(b"a"), leaf(b"b")]);
    let b = MerkleTree::build(vec![leaf(b"b"), leaf(b"a")]);
    let c = MerkleTree::build(vec![leaf(b"a"), leaf(b"b")]);
    assert_ne!(a.root(), b.root());
    assert_eq!(a.root(), c.root());
}

#[test]
fn hash_pair_is_sha256_of_left_then_right() {
    let l = leaf(b"a");
    let r = leaf(b"b");
    let mut joined = l.to_vec();
    joined.extend_from_slice(&r);
    let expected: [u8; 32] = Sha256::digest(&joined).into();
    assert_eq!(hash_pair(&l, &r), expected);
    assert_ne!(hash_pair(&l, &r), hash_pair(&r, &l));
    assert_ne!(hash_pair(&l, &r), l);
}

#[test]
fn hash_eq_compares_all_bytes() {
    let a = [7u8; 32];
    let mut b = a;
    assert!(hash_eq(&a, &b));
    b[31] = 8;
    assert!(!hash_eq(&a, &b));
}

#[test]
fn from_data_hashes_each_item() {
    let raw: Vec<Vec<u8>> = (0..5).map(|i| format!("leaf-data-{i}").into_bytes()).collect();
    let refs: Vec<&[u8]> = raw.iter().map(|v| v.as_slice()).collect();
    let tree = MerkleTree::from_data(&refs);
    let hashed: Vec<[u8; 32]> = raw.iter().map(|v| leaf(v)).collect();
    assert_eq!(tree.leaf_count(), 5);
    assert_eq!(tree.root(), MerkleTree::build(hashed).root());
    assert_eq!(MerkleTree::from_data(&[]).root(), [0u8; 32]);
}
