use gaskiya::anchor::{anchor_inclusion_proof, batch_root};
use gaskiya::hashing::sha256_hex;
use gaskiya::merkle_tree::MerkleTree;

fn hashes(n: usize) -> Vec<String> {
    (0..n).map(|i| sha256_hex(format!("version-{i}").as_bytes())).collect()
}

#[test]
fn nothing_pending_means_no_anchor() {
    assert_eq!(batch_root(Vec::new()), None);
}

#[test]
fn batch_root_is_the_merkle_root() {
    let h = hashes(6);
    let tree = MerkleTree::build(h.clone());
    assert_eq!(batch_root(h), Some(tree.root().to_string()));
}

#[test]
fn anchored_version_proof_verifies_against_the_batch_root() {
    let h = hashes(5);
    let ids: Vec<u128> = vec![11, 22, 33, 44, 55];
    let root = batch_root(h.clone()).unwrap();
    for (i, id) in ids.iter().enumerate() {
        let proof = anchor_inclusion_proof(&ids, h.clone(), *id);
        assert_eq!(proof.leaf_index, i);
        assert_eq!(proof.leaf_hash, h[i]);
        assert!(proof.verify(&root));
    }
}

#[test]
fn a_stale_leaf_no_longer_proves_inclusion() {
    let mut h = hashes(4);
    let ids: Vec<u128> = vec![1, 2, 3, 4];
    let root = batch_root(h.clone()).unwrap();
    h[1] = sha256_hex(b"edited after anchoring");
    let proof = anchor_inclusion_proof(&ids, h, 2);
    assert!(!proof.verify(&root));
}
