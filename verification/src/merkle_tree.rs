//! Batch Merkle trees for anchoring: the content hashes of a batch of
//! versions are folded into one root, and any client can check that a
//! given version was in the batch by replaying a [`MerkleProof`] against
//! that root, without trusting the server.

use vstd::prelude::*;

use crate::hashing::{concat_bytes, sha256_hex, spec_sha256_hex, text_view};

verus! {

/// Which side of the running hash a proof's sibling goes on.
#[derive(Debug, Clone, Copy, PartialEq, Eq, Structural)]
pub enum Side {
    Left,
    Right,
}

/// The hash of two nodes: SHA-256 (hex) of the UTF-8 bytes of the left
/// node's text followed by the right node's text.
pub open spec fn spec_hash_pair(left: Seq<char>, right: Seq<char>) -> Seq<char> {
    spec_sha256_hex(vstd::utf8::encode_utf8(left) + vstd::utf8::encode_utf8(right))
}

/// Hashes two nodes into their parent.
fn hash_pair(left: &str, right: &str) -> (h: String)
    ensures
        h@ == spec_hash_pair(left@, right@),
{
    let data = concat_bytes(left.as_bytes(), right.as_bytes());
    sha256_hex(data.as_slice())
}

/// One step of replaying a proof: combine the running hash with a sibling.
pub open spec fn proof_step(acc: Seq<char>, sibling: (Seq<char>, Side)) -> Seq<char> {
    match sibling.1 {
        Side::Right => spec_hash_pair(acc, sibling.0),
        Side::Left => spec_hash_pair(sibling.0, acc),
    }
}

/// The root that replaying `siblings` (leaf level first) from `acc` arrives at.
pub open spec fn fold_proof(acc: Seq<char>, siblings: Seq<(Seq<char>, Side)>) -> Seq<char>
    decreases siblings.len(),
{
    if siblings.len() == 0 {
        acc
    } else {
        fold_proof(proof_step(acc, siblings[0]), siblings.drop_first())
    }
}

/// A claim that `leaf_hash` sits at `leaf_index` under some root, with the
/// sibling hashes needed to recompute that root.
#[derive(Debug, Clone)]
pub struct MerkleProof {
    pub leaf_hash: String,
    pub leaf_index: usize,
    pub siblings: Vec<(String, Side)>,
}

impl MerkleProof {
    /// The siblings as text and side.
    pub open spec fn sibling_view(&self) -> Seq<(Seq<char>, Side)> {
        self.siblings@.map_values(|p: (String, Side)| (p.0@, p.1))
    }

    /// The root this proof arrives at.
    pub open spec fn spec_root(&self) -> Seq<char> {
        fold_proof(self.leaf_hash@, self.sibling_view())
    }

    /// Replays the proof and compares the result with `expected_root`.
    pub fn verify(&self, expected_root: &str) -> (ok: bool)
        ensures
            ok == (self.spec_root() == expected_root@),
    {
        let ghost sibs = self.sibling_view();
        let mut current = self.leaf_hash.clone();
        let n = self.siblings.len();
        assert(sibs.skip(0) == sibs);
        for k in 0..n
            invariant
                n == self.siblings@.len(),
                sibs == self.sibling_view(),
                fold_proof(current@, sibs.skip(k as int)) == self.spec_root(),
        {
            let pair = &self.siblings[k];
            let sib = &pair.0;
            assert(sibs[k as int] == (sib@, pair.1));
            let next = match pair.1 {
                Side::Right => hash_pair(current.as_str(), sib.as_str()),
                Side::Left => hash_pair(sib.as_str(), current.as_str()),
            };
            assert(sibs.skip(k as int)[0] == sibs[k as int]);
            assert(sibs.skip(k as int).drop_first() == sibs.skip(k + 1));
            current = next;
        }
        current == expected_root.to_owned()
    }
}

/// The layer above `layer`: adjacent pairs hashed together, an odd last
/// node hashed with itself.
pub open spec fn next_layer(layer: Seq<Seq<char>>) -> Seq<Seq<char>> {
    Seq::new(
        ((layer.len() + 1) / 2) as nat,
        |i: int|
            if 2 * i + 1 < layer.len() {
                spec_hash_pair(layer[2 * i], layer[2 * i + 1])
            } else {
                spec_hash_pair(layer[2 * i], layer[2 * i])
            },
    )
}

/// Every layer of the tree over `leaves`, leaves first, root layer last.
pub open spec fn tree_layers(leaves: Seq<Seq<char>>) -> Seq<Seq<Seq<char>>>
    decreases leaves.len(),
{
    if leaves.len() <= 1 {
        seq![leaves]
    } else {
        seq![leaves] + tree_layers(next_layer(leaves))
    }
}

/// The Merkle root of `leaves`.
pub open spec fn merkle_root(leaves: Seq<Seq<char>>) -> Seq<char>
    decreases leaves.len(),
{
    if leaves.len() <= 1 {
        leaves[0]
    } else {
        merkle_root(next_layer(leaves))
    }
}

/// The sibling of node `i` in `layer`, and the side it goes on.
pub open spec fn path_entry(layer: Seq<Seq<char>>, i: int) -> (Seq<char>, Side) {
    if i % 2 == 0 {
        if i + 1 < layer.len() {
            (layer[i + 1], Side::Right)
        } else {
            (layer[i], Side::Right)
        }
    } else {
        (layer[i - 1], Side::Left)
    }
}

/// The siblings that prove leaf `i` is under the root of `leaves`.
pub open spec fn inclusion_path(leaves: Seq<Seq<char>>, i: int) -> Seq<(Seq<char>, Side)>
    decreases leaves.len(),
{
    if leaves.len() <= 1 {
        seq![]
    } else {
        seq![path_entry(leaves, i)] + inclusion_path(next_layer(leaves), i / 2)
    }
}

/// Climbing one layer: the path from node `i` is its sibling entry
/// followed by the path from its parent.
proof fn lemma_path_step(
    layer: Seq<Seq<char>>,
    parent: Seq<Seq<char>>,
    i: int,
    walked: Seq<(Seq<char>, Side)>,
    entry: (Seq<char>, Side),
)
    requires
        layer.len() > 1,
        parent == next_layer(layer),
        0 <= i < layer.len(),
        entry == path_entry(layer, i),
    ensures
        walked + inclusion_path(layer, i) == walked.push(entry) + inclusion_path(parent, i / 2),
        i / 2 < parent.len(),
{
    assert(inclusion_path(layer, i) == seq![entry] + inclusion_path(parent, i / 2));
    assert(walked + (seq![entry] + inclusion_path(parent, i / 2)) == walked.push(entry)
        + inclusion_path(parent, i / 2));
}

/// A layer of two or more nodes has a shorter, nonempty layer above it.
pub proof fn lemma_next_layer_len(layer: Seq<Seq<char>>)
    requires
        layer.len() >= 2,
    ensures
        1 <= next_layer(layer).len() < layer.len(),
{
}

/// The shape of the layer list: it starts at the leaves, each layer is the
/// one above its predecessor, and it ends in a single node, the root.
pub proof fn lemma_tree_layers(leaves: Seq<Seq<char>>)
    requires
        leaves.len() > 0,
    ensures
        tree_layers(leaves).len() > 0,
        tree_layers(leaves)[0] == leaves,
        tree_layers(leaves).last().len() == 1,
        tree_layers(leaves).last()[0] == merkle_root(leaves),
        forall|k: int|
            0 <= k < tree_layers(leaves).len() ==> #[trigger] tree_layers(leaves)[k].len() > 0,
        forall|k: int|
            0 <= k < tree_layers(leaves).len() - 1 ==> #[trigger] tree_layers(leaves)[k].len() > 1
                && tree_layers(leaves)[k + 1] == next_layer(tree_layers(leaves)[k]),
    decreases leaves.len(),
{
    if leaves.len() > 1 {
        let next = next_layer(leaves);
        lemma_next_layer_len(leaves);
        lemma_tree_layers(next);
        let t = tree_layers(leaves);
        let t2 = tree_layers(next);
        assert(t == seq![leaves] + t2);
        assert forall|k: int| 0 <= k < t.len() implies #[trigger] t[k].len() > 0 by {
            if k > 0 {
                assert(t[k] == t2[k - 1]);
            }
        }
        assert forall|k: int| 0 <= k < t.len() - 1 implies #[trigger] t[k].len() > 1 && t[k + 1]
            == next_layer(t[k]) by {
            assert(t[k + 1] == t2[k]);
            if k > 0 {
                assert(t[k] == t2[k - 1]);
            }
        }
    }
}

/// A tree of one leaf is its own root, and that leaf's proof has no siblings.
pub proof fn lemma_single_leaf_root(leaf: Seq<char>)
    ensures
        merkle_root(seq![leaf]) == leaf,
        inclusion_path(seq![leaf], 0).len() == 0,
{
}

/// Inclusion: replaying the inclusion path of any leaf arrives at the root.
pub proof fn lemma_inclusion(leaves: Seq<Seq<char>>, i: int)
    requires
        0 <= i < leaves.len(),
    ensures
        fold_proof(leaves[i], inclusion_path(leaves, i)) == merkle_root(leaves),
    decreases leaves.len(),
{
    if leaves.len() > 1 {
        let next = next_layer(leaves);
        lemma_next_layer_len(leaves);
        lemma_inclusion(next, i / 2);
        let p = inclusion_path(leaves, i);
        assert(p.drop_first() == inclusion_path(next, i / 2));
        assert(p[0] == path_entry(leaves, i));
        assert(proof_step(leaves[i], p[0]) == next[i / 2]);
    }
}

/// A batch Merkle tree over content hashes.
pub struct MerkleTree {
    /// `layers[0]` are the leaves, the last layer is `[root]`.
    layers: Vec<Vec<String>>,
}

impl MerkleTree {
    /// The layers as text.
    closed spec fn layers_view(&self) -> Seq<Seq<Seq<char>>> {
        self.layers@.map_values(|l: Vec<String>| text_view(l@))
    }

    /// The leaves the tree was built over.
    pub closed spec fn leaves(&self) -> Seq<Seq<char>> {
        self.layers_view()[0]
    }

    #[verifier::type_invariant]
    closed spec fn wf(&self) -> bool {
        &&& self.layers@.len() > 0
        &&& self.leaves().len() > 0
        &&& self.layers_view() == tree_layers(self.leaves())
    }

    /// Builds the tree over `leaves`, in the order given (callers sort them
    /// first, e.g. by version id, so the tree can be rebuilt). An odd node
    /// at any level is hashed with itself rather than left dangling.
    pub fn build(leaves: Vec<String>) -> (tree: Self)
        requires
            leaves@.len() > 0,
        ensures
            tree.leaves() == text_view(leaves@),
    {
        let ghost base = text_view(leaves@);
        let mut layers: Vec<Vec<String>> = Vec::new();
        layers.push(leaves);
        proof {
            lemma_tree_layers(base);
        }
        while layers[layers.len() - 1].len() > 1
            invariant
                layers@.len() > 0,
                text_view(layers@[0]@) == base,
                base.len() > 0,
                text_view(layers@.last()@).len() > 0,
                tree_layers(base) == layers@.map_values(|l: Vec<String>| text_view(l@)).drop_last()
                    + tree_layers(text_view(layers@.last()@)),
            decreases layers@.last()@.len(),
        {
            let last = layers.len() - 1;
            let ghost before = layers@;
            let next = Self::parent_layer(&layers[last]);
            proof {
                lemma_next_layer_len(text_view(before.last()@));
            }
            layers.push(next);
            proof {
                let lv = layers@.map_values(|l: Vec<String>| text_view(l@));
                let bv = before.map_values(|l: Vec<String>| text_view(l@));
                assert(lv.drop_last() == bv);
                assert(bv == bv.drop_last().push(text_view(before.last()@)));
                assert(tree_layers(text_view(before.last()@)) == seq![text_view(before.last()@)]
                    + tree_layers(text_view(layers@.last()@)));
                assert(lv.drop_last() + tree_layers(text_view(layers@.last()@)) == bv.drop_last()
                    + tree_layers(text_view(before.last()@)));
            }
        }
        proof {
            let lv = layers@.map_values(|l: Vec<String>| text_view(l@));
            assert(tree_layers(text_view(layers@.last()@)) == seq![text_view(layers@.last()@)]);
            assert(lv == lv.drop_last().push(text_view(layers@.last()@)));
            assert(lv.drop_last() + seq![text_view(layers@.last()@)] == lv);
            assert(tree_layers(base) == lv);
            assert(lv[0] == base);
        }
        MerkleTree { layers }
    }

    /// The layer above `layer`.
    fn parent_layer(layer: &Vec<String>) -> (parent: Vec<String>)
        requires
            layer@.len() >= 2,
        ensures
            text_view(parent@) == next_layer(text_view(layer@)),
    {
        let ghost lv = text_view(layer@);
        let len = layer.len();
        let count = len / 2 + len % 2;
        let mut parent: Vec<String> = Vec::new();
        for k in 0..count
            invariant
                lv == text_view(layer@),
                count == (lv.len() + 1) / 2,
                len == layer@.len(),
                text_view(parent@) == next_layer(lv).take(k as int),
        {
            assert(k < (lv.len() + 1) / 2);
            assert(2 * k < len);
            let ghost prev = parent@;
            let left = &layer[2 * k];
            assert(lv[2 * k as int] == left@);
            let h = if 2 * k + 1 < layer.len() {
                let right = &layer[2 * k + 1];
                assert(lv[2 * k + 1] == right@);
                hash_pair(left.as_str(), right.as_str())
            } else {
                hash_pair(left.as_str(), left.as_str())
            };
            assert(next_layer(lv)[k as int] == h@);
            parent.push(h);
            assert(parent@ == prev.push(h));
            assert(text_view(parent@) =~= text_view(prev).push(h@));
            assert(next_layer(lv).take(k + 1) =~= next_layer(lv).take(k as int).push(h@));
        }
        assert(next_layer(lv).take(count as int) == next_layer(lv));
        parent
    }

    /// The root hash.
    pub fn root(&self) -> (root: &str)
        ensures
            root@ == merkle_root(self.leaves()),
    {
        proof {
            use_type_invariant(self);
            lemma_tree_layers(self.leaves());
        }
        let last = self.layers.len() - 1;
        assert(self.layers_view()[last as int] == text_view(self.layers@[last as int]@));
        self.layers[last][0].as_str()
    }

    /// The number of leaves.
    pub fn leaf_count(&self) -> (count: usize)
        ensures
            count == self.leaves().len(),
    {
        proof {
            use_type_invariant(self);
        }
        self.layers[0].len()
    }

    /// The inclusion proof of leaf `leaf_index`, or `None` past the last leaf.
    /// Its siblings are exactly those needed to climb to the root, so the
    /// proof always verifies against [`MerkleTree::root`].
    pub fn inclusion_proof(&self, leaf_index: usize) -> (found: Option<MerkleProof>)
        ensures
            found is None <==> leaf_index >= self.leaves().len(),
            found matches Some(p) ==> {
                &&& p.leaf_hash@ == self.leaves()[leaf_index as int]
                &&& p.leaf_index == leaf_index
                &&& p.sibling_view() == inclusion_path(self.leaves(), leaf_index as int)
                &&& p.spec_root() == merkle_root(self.leaves())
            },
    {
        proof {
            use_type_invariant(self);
            lemma_tree_layers(self.leaves());
        }
        if leaf_index >= self.layers[0].len() {
            return None;
        }
        let ghost leaves = self.leaves();
        let ghost lv = self.layers_view();
        let mut idx = leaf_index;
        let mut siblings: Vec<(String, Side)> = Vec::new();
        let ghost mut walked: Seq<(Seq<char>, Side)> = Seq::empty();
        let top = self.layers.len() - 1;
        for k in 0..top
            invariant
                top == self.layers@.len() - 1,
                lv == self.layers_view(),
                lv == tree_layers(leaves),
                leaves.len() > 0,
                forall|j: int| 0 <= j < lv.len() ==> #[trigger] lv[j].len() > 0,
                forall|j: int| 0 <= j < lv.len() - 1 ==> #[trigger] lv[j].len() > 1 && lv[j + 1]
                    == next_layer(lv[j]),
                idx < lv[k as int].len(),
                walked == siblings@.map_values(|p: (String, Side)| (p.0@, p.1)),
                walked + inclusion_path(lv[k as int], idx as int) == inclusion_path(
                    leaves,
                    leaf_index as int,
                ),
        {
            let layer = &self.layers[k];
            assert(lv[k as int] == text_view(layer@));
            let even = idx % 2 == 0;
            let sibling = if even && idx + 1 < layer.len() {
                layer[idx + 1].clone()
            } else if even {
                layer[idx].clone()
            } else {
                layer[idx - 1].clone()
            };
            let side = if even {
                Side::Right
            } else {
                Side::Left
            };
            proof {
                lemma_path_step(lv[k as int], lv[k + 1], idx as int, walked, (sibling@, side));
            }
            siblings.push((sibling, side));
            proof {
                walked = walked.push((sibling@, side));
                assert(walked == siblings@.map_values(|p: (String, Side)| (p.0@, p.1)));
            }
            idx = idx / 2;
        }
        assert(inclusion_path(lv[top as int], idx as int) == Seq::<(Seq<char>, Side)>::empty());
        assert(walked + Seq::<(Seq<char>, Side)>::empty() == walked);
        let p = MerkleProof {
            leaf_hash: self.layers[0][leaf_index].clone(),
            leaf_index,
            siblings,
        };
        assert(p.sibling_view() == inclusion_path(leaves, leaf_index as int));
        assert(lv[0] == text_view(self.layers@[0]@));
        proof {
            lemma_inclusion(leaves, leaf_index as int);
        }
        Some(p)
    }
}

} // verus!
