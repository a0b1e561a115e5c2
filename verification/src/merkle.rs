//! The Merkle tree over a list of byte strings: leaves hash the
//! elements, inner nodes hash the concatenation of their children's
//! hashes, and an odd level is padded by repeating its last entry.

use vstd::prelude::*;
use crate::bytes::copy_bytes;
use crate::bytes::views_of;
use crate::crypto::sha256;
use crate::crypto::sha256_of;

verus! {

/// The hash of an inner node over its children's hashes.
pub open spec fn merkle_parent(l: Seq<u8>, r: Seq<u8>) -> Seq<u8> {
    sha256_of(l + r)
}

/// A level padded to even length by repeating its last entry.
pub open spec fn pad_even(s: Seq<Seq<u8>>) -> Seq<Seq<u8>> {
    if s.len() % 2 == 1 {
        s.push(s.last())
    } else {
        s
    }
}

/// The next level up: each pair of hashes combined into its parent.
pub open spec fn level_up(s: Seq<Seq<u8>>) -> Seq<Seq<u8>> {
    Seq::new(s.len() / 2, |i: int| merkle_parent(s[2 * i], s[2 * i + 1]))
}

/// The root hash over a level of hashes: combine levels until one
/// hash remains.
pub open spec fn merkle_fold(s: Seq<Seq<u8>>) -> Seq<u8>
    decreases s.len(),
{
    if s.len() <= 1 {
        s[0]
    } else {
        merkle_fold(level_up(pad_even(s)))
    }
}

/// The Merkle root over a list of byte strings: the list is padded to
/// even length by repeating its last element, the leaves hash the
/// elements, and the fold combines levels down to one hash.
pub open spec fn merkle_root(leaves: Seq<Seq<u8>>) -> Seq<u8> {
    merkle_fold(pad_even(leaves.map_values(|l: Seq<u8>| sha256_of(l))))
}

/// A node of the tree: its hash and, for inner nodes, its children.
pub struct MerkleNode {
    /// The left child of an inner node.
    pub left: Option<Box<MerkleNode>>,
    /// The right child of an inner node.
    pub right: Option<Box<MerkleNode>>,
    /// The node's hash.
    pub data: Vec<u8>,
}

/// A Merkle tree, held by its root node.
pub struct MerkleTree {
    /// The root: its data is the Merkle root hash.
    pub root_node: MerkleNode,
}

impl MerkleNode {
    /// A childless node carrying the same hash, used to pad an odd
    /// level.
    fn pad_clone(&self) -> (r: MerkleNode)
        ensures
            r.data@ == self.data@,
    {
        MerkleNode { left: None, right: None, data: copy_bytes(&self.data) }
    }
}

/// Builds a node: a leaf hashes the given bytes, an inner node hashes
/// its children's concatenated hashes.
fn new_merkle_node(
    left: Option<Box<MerkleNode>>,
    right: Option<Box<MerkleNode>>,
    data: Vec<u8>,
) -> (r: MerkleNode)
    requires
        left is Some <==> right is Some,
    ensures
        left is None ==> r.data@ == sha256_of(data@),
        left matches Some(l) ==> right matches Some(rt) && r.data@ == merkle_parent(
            l.data@,
            rt.data@,
        ),
{
    match (left, right) {
        (None, None) => {
            let hash = sha256(&data);
            MerkleNode { left: None, right: None, data: hash }
        },
        (Some(l), Some(rt)) => {
            let mut joined = copy_bytes(&l.data);
            crate::bytes::push_bytes(&mut joined, &rt.data);
            let hash = sha256(&joined);
            MerkleNode { left: Some(l), right: Some(rt), data: hash }
        },
        _ => {
            proof {
                assert(false);
            }
            unreached()
        },
    }
}

/// The hashes held by a sequence of nodes.
pub open spec fn node_datas(s: Seq<MerkleNode>) -> Seq<Seq<u8>> {
    s.map_values(|n: MerkleNode| n.data@)
}

/// A level of even length folds as one parent followed by the fold of
/// the rest.
proof fn lemma_level_up_step(s: Seq<Seq<u8>>)
    requires
        s.len() >= 2,
    ensures
        level_up(s) == seq![merkle_parent(s[0], s[1])] + level_up(s.skip(2)),
{
    let lhs = level_up(s);
    let rhs = seq![merkle_parent(s[0], s[1])] + level_up(s.skip(2));
    assert forall|i: int| 0 <= i < lhs.len() implies lhs[i] == rhs[i] by {
        if i > 0 {
            assert(s.skip(2)[2 * (i - 1)] == s[2 * i]);
            assert(s.skip(2)[2 * (i - 1) + 1] == s[2 * i + 1]);
        }
    }
    assert(lhs =~= rhs);
}

/// Builds the Merkle tree over a list of byte strings.
pub fn new_merkle_tree(data: Vec<Vec<u8>>) -> (r: MerkleTree)
    requires
        data@.len() >= 1,
    ensures
        r.root_node.data@ == merkle_root(views_of(data@)),
{
    let ghost leaves: Seq<Seq<u8>> = views_of(data@).map_values(|l: Seq<u8>| sha256_of(l));
    let mut nodes: Vec<MerkleNode> = Vec::new();
    let mut i: usize = 0;
    while i < data.len()
        invariant
            i <= data.len(),
            leaves == views_of(data@).map_values(|l: Seq<u8>| sha256_of(l)),
            leaves.len() == data@.len(),
            nodes@.len() == i,
            forall|j: int| 0 <= j < i ==> nodes@[j].data@ == leaves[j],
        decreases data.len() - i,
    {
        let node = new_merkle_node(None, None, copy_bytes(&data[i]));
        nodes.push(node);
        i = i + 1;
    }
    proof {
        assert(node_datas(nodes@) =~= leaves);
    }
    if nodes.len() % 2 == 1 {
        let padding = nodes[nodes.len() - 1].pad_clone();
        nodes.push(padding);
    }
    proof {
        assert(node_datas(nodes@) =~= pad_even(leaves));
    }
    while nodes.len() > 1
        invariant
            nodes@.len() >= 1,
            merkle_fold(node_datas(nodes@)) == merkle_fold(pad_even(leaves)),
        decreases nodes@.len(),
    {
        let ghost level: Seq<Seq<u8>> = node_datas(nodes@);
        if nodes.len() % 2 == 1 {
            let padding = nodes[nodes.len() - 1].pad_clone();
            nodes.push(padding);
        }
        proof {
            assert(node_datas(nodes@) =~= pad_even(level));
        }
        let ghost padded: Seq<Seq<u8>> = pad_even(level);
        let mut next: Vec<MerkleNode> = Vec::new();
        while nodes.len() >= 2
            invariant
                nodes@.len() % 2 == 0,
                padded.len() >= 2,
                level_up(padded) == node_datas(next@) + level_up(node_datas(nodes@)),
            decreases nodes@.len(),
        {
            let a = nodes.remove(0);
            let b = nodes.remove(0);
            let ghost before: Seq<Seq<u8>> = node_datas(next@);
            let ghost rest: Seq<Seq<u8>> = seq![a.data@, b.data@] + node_datas(nodes@);
            proof {
                lemma_level_up_step(rest);
                assert(rest.skip(2) =~= node_datas(nodes@));
            }
            let parent = new_merkle_node(Some(Box::new(a)), Some(Box::new(b)), Vec::new());
            next.push(parent);
            proof {
                assert(node_datas(next@) =~= before + seq![merkle_parent(rest[0], rest[1])]);
                assert(level_up(padded) =~= node_datas(next@) + level_up(node_datas(nodes@)));
            }
        }
        proof {
            assert(node_datas(nodes@).len() == 0);
            assert(level_up(node_datas(nodes@)) =~= Seq::<Seq<u8>>::empty());
            assert(level_up(padded) =~= node_datas(next@));
            assert(level.len() >= 2);
            assert(merkle_fold(level) == merkle_fold(level_up(pad_even(level))));
        }
        nodes = next;
        proof {
            assert(nodes@.len() == level_up(padded).len());
            assert(nodes@.len() >= 1);
        }
    }
    let ghost finals: Seq<Seq<u8>> = node_datas(nodes@);
    proof {
        assert(finals.len() == 1);
        assert(merkle_fold(finals) == finals[0]);
        assert(nodes@[0].data@ == finals[0]);
    }
    let root = nodes.remove(0);
    MerkleTree { root_node: root }
}

} // verus!
