use gaskiya::hashing::sha256_hex;
use gaskiya::merkle_tree::{MerkleTree, Side};

fn leaves(n: usize) -> Vec<String> {
    (0..n).map(|i| sha256_hex(format!("leaf-{i}").as_bytes())).collect()
}

fn pair(left: &str, right: &str) -> String {
    sha256_hex(format!("{left}{right}").as_bytes())
}

#[test]
fn every_leaf_proves_inclusion_in_power_of_two_tree() {
    let tree = MerkleTree::build(leaves(8));
    for i in 0..8 {
        let proof = tree.inclusion_proof(i).unwrap();
        assert!(proof.verify(tree.root()));
    }
}

#[test]
fn every_leaf_proves_inclusion_with_odd_leaf_count() {
    let tree = MerkleTree::build(leaves(5));
    for i in 0..5 {
        let proof = tree.inclusion_proof(i).unwrap();
        assert!(proof.verify(tree.root()));
    }
}

#[test]
fn single_leaf_tree_is_its_own_root() {
    let l = leaves(1);
    let tree = MerkleTree::build(l.clone());
    assert_eq!(tree.root(), l[0]);
    let proof = tree.inclusion_proof(0).unwrap();
    assert!(proof.verify(tree.root()));
}

#[test]
fn tampered_leaf_fails_verification() {
    let tree = MerkleTree::build(leaves(4));
    let mut proof = tree.inclusion_proof(2).unwrap();
    proof.leaf_hash = sha256_hex(b"tampered");
    assert!(!proof.verify(tree.root()));
}

#[test]
fn two_leaves_hash_into_their_root() {
    let l = leaves(2);
    let tree = MerkleTree::build(l.clone());
    assert_eq!(tree.root(), pair(&l[0], &l[1]));
    assert_eq!(tree.leaf_count(), 2);
}

#[test]
fn odd_node_is_hashed_with_itself() {
    let l = leaves(3);
    let tree = MerkleTree::build(l.clone());
    let expected = pair(&pair(&l[0], &l[1]), &pair(&l[2], &l[2]));
    assert_eq!(tree.root(), expected);
}

#[test]
fn proof_carries_the_siblings_up_the_tree() {
    let l = leaves(3);
    let tree = MerkleTree::build(l.clone());
    let proof = tree.inclusion_proof(2).unwrap();
    assert_eq!(proof.leaf_index, 2);
    assert_eq!(proof.leaf_hash, l[2]);
    assert_eq!(
        proof.siblings,
        vec![(l[2].clone(), Side::Right), (pair(&l[0], &l[1]), Side::Left)]
    );
}

#[test]
fn no_proof_past_the_last_leaf() {
    let tree = MerkleTree::build(leaves(5));
    assert!(tree.inclusion_proof(5).is_none());
    assert!(tree.inclusion_proof(100).is_none());
}

#[test]
fn proof_fails_against_another_root() {
    let tree = MerkleTree::build(leaves(4));
    let other = MerkleTree::build(leaves(5));
    let proof = tree.inclusion_proof(1).unwrap();
    assert!(!proof.verify(other.root()));
}
