//! Batch anchoring: the content hashes of every version not yet anchored
//! are folded into one Merkle tree whose root is published, and a
//! version's inclusion proof is later rebuilt from the leaf order the
//! anchor recorded, rather than trusted from a cache. Reading the records
//! and publishing the root happen at the caller; what is published and
//! proved is decided here.

use vstd::prelude::*;

use crate::hashing::text_view;
use crate::merkle_tree::{inclusion_path, merkle_root, MerkleProof, MerkleTree};

verus! {

/// The root to publish for a batch of pending content hashes (in the order
/// the anchor records them), or `None` when nothing is pending.
pub fn batch_root(pending_hashes: Vec<String>) -> (root: Option<String>)
    ensures
        match root {
            None => pending_hashes@.len() == 0,
            Some(r) => pending_hashes@.len() > 0 && r@ == merkle_root(text_view(pending_hashes@)),
        },
{
    if pending_hashes.len() == 0 {
        return None;
    }
    let tree = MerkleTree::build(pending_hashes);
    Some(tree.root().to_owned())
}

/// Rebuilds the inclusion proof of `version_id` from the anchor that
/// covers it: `version_ids` is the anchor's recorded leaf order and
/// `leaf_hashes[i]` the content hash of `version_ids[i]`. The proof is for
/// the first position of the version, and climbs to the root of the tree
/// over exactly those hashes.
pub fn anchor_inclusion_proof(version_ids: &[u128], leaf_hashes: Vec<String>, version_id: u128) -> (proof: MerkleProof)
    requires
        leaf_hashes@.len() == version_ids@.len(),
        version_ids@.contains(version_id),
    ensures
        proof.leaf_index < version_ids@.len(),
        version_ids@[proof.leaf_index as int] == version_id,
        forall|j: int| 0 <= j < proof.leaf_index ==> version_ids@[j] != version_id,
        proof.leaf_hash@ == leaf_hashes@[proof.leaf_index as int]@,
        proof.sibling_view() == inclusion_path(text_view(leaf_hashes@), proof.leaf_index as int),
        proof.spec_root() == merkle_root(text_view(leaf_hashes@)),
{
    let ghost leaves = text_view(leaf_hashes@);
    let mut index: usize = 0;
    while version_ids[index] != version_id
        invariant
            index < version_ids@.len(),
            version_ids@.contains(version_id),
            forall|j: int| 0 <= j < index ==> version_ids@[j] != version_id,
        decreases version_ids@.len() - index,
    {
        index = index + 1;
        proof {
            if index == version_ids@.len() {
                let w = choose|w: int| 0 <= w < version_ids@.len() && version_ids@[w] == version_id;
                assert(version_ids@[w] == version_id);
            }
        }
    }
    let tree = MerkleTree::build(leaf_hashes);
    let found = tree.inclusion_proof(index);
    found.unwrap()
}

} // verus!
