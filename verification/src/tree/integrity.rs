use vstd::prelude::*;
use crate::codec::bytes_eq;
use crate::tree::index::{LeafIndex, NodeIndex};
use crate::tree::node::{Node, NodeType, NodeView};
use crate::tree::ratchet_tree::{spec_leaf_count, RatchetTree};
use crate::tree::treemath;
use crate::tree::treemath::{spec_left, spec_level, spec_node_width, spec_right};

verus! {

/// The views of a list of optional nodes.
pub open spec fn spec_public_views(s: Seq<Option<Node>>) -> Seq<Option<NodeView>> {
    s.map_values(
        |n: Option<Node>|
            match n {
                Some(node) => Some(node@),
                None => None,
            },
    )
}

/// The views of a list of optional byte strings.
pub open spec fn spec_digest_views(s: Seq<Option<Vec<u8>>>) -> Seq<Option<Seq<u8>>> {
    s.map_values(
        |d: Option<Vec<u8>>|
            match d {
                Some(bytes) => Some(bytes@),
                None => None,
            },
    )
}

/// Whether a child records `hash` as the hash of its parent.
pub open spec fn spec_child_points_to(child: Option<NodeView>, hash: Seq<u8>) -> bool {
    child.is_some() && child.unwrap().parent_hash() == Some(hash)
}

/// Whether the node at `i` is as the tree asks. A parent sits at an odd
/// position inside the tree, holds a parent node, and exactly one of its
/// two children records the parent's hash as the hash of its parent. A
/// leaf that holds a key package sits at an even position, and the
/// signature of its key package is good.
pub open spec fn spec_node_ok(
    nodes: Seq<Option<NodeView>>,
    hashes: Seq<Option<Seq<u8>>>,
    valid: Seq<bool>,
    i: int,
) -> bool {
    let n = spec_leaf_count(nodes.len());
    match nodes[i] {
        None => true,
        Some(node) => match node.node_type {
            NodeType::Parent => {
                &&& i % 2 == 1
                &&& i < spec_node_width(n)
                &&& node.node.is_some()
                &&& hashes[i].is_some()
                &&& (spec_child_points_to(nodes[spec_left(i as nat) as int], hashes[i].unwrap())
                    != spec_child_points_to(
                    nodes[spec_right(i as nat, n) as int],
                    hashes[i].unwrap(),
                ))
            },
            NodeType::Leaf => node.key_package.is_some() ==> i % 2 == 0 && valid[i],
            NodeType::Default => true,
        },
    }
}

/// Whether a tree as it is shown to others is sound, given the hash of
/// each parent that holds a key and, for each leaf that holds a key
/// package, whether the signature of the key package is good.
pub open spec fn spec_integrity(
    nodes: Seq<Option<NodeView>>,
    hashes: Seq<Option<Seq<u8>>>,
    valid: Seq<bool>,
) -> bool {
    &&& nodes.len() <= 0xffff_ffff
    &&& hashes.len() == nodes.len()
    &&& valid.len() == nodes.len()
    &&& forall|i: int| 0 <= i < nodes.len() ==> spec_node_ok(nodes, hashes, valid, i)
}

/// In a sound tree, every parent that holds a key has exactly one child
/// that records the parent's hash as the hash of its parent.
pub proof fn lemma_parent_hash_chain(
    nodes: Seq<Option<NodeView>>,
    hashes: Seq<Option<Seq<u8>>>,
    valid: Seq<bool>,
    p: int,
)
    requires
        spec_integrity(nodes, hashes, valid),
        0 <= p < nodes.len(),
        nodes[p].is_some(),
        nodes[p].unwrap().node_type == NodeType::Parent,
    ensures
        hashes[p].is_some(),
        spec_child_points_to(nodes[spec_left(p as nat) as int], hashes[p].unwrap())
            != spec_child_points_to(
            nodes[spec_right(p as nat, spec_leaf_count(nodes.len())) as int],
            hashes[p].unwrap(),
        ),
        0 <= spec_left(p as nat) < p < spec_right(p as nat, spec_leaf_count(nodes.len()))
            < nodes.len(),
{
    assert(spec_node_ok(nodes, hashes, valid, p));
    let n = spec_leaf_count(nodes.len());
    assert(spec_level(p as nat) > 0);
    treemath::lemma_left(p as nat);
    treemath::lemma_right(p as nat, n);
}

fn child_points_to(child: &Option<Node>, hash: &[u8]) -> (r: bool)
    ensures
        r == spec_child_points_to(
            match child {
                Some(node) => Some(node@),
                None => None,
            },
            hash@,
        ),
{
    match child {
        Some(node) => match node.parent_hash() {
            Some(recorded) => bytes_eq(recorded.as_slice(), hash),
            None => false,
        },
        None => false,
    }
}

impl RatchetTree {
    /// Whether a tree as it is shown to others is sound. For each parent
    /// that holds a key, `node_hashes` holds the digest of the parent's
    /// `hash_input`; for each leaf that holds a key package,
    /// `signatures_valid` says whether the signature of the key package
    /// verifies. Both are the caller's.
    pub fn verify_integrity(
        nodes: &[Option<Node>],
        node_hashes: &[Option<Vec<u8>>],
        signatures_valid: &[bool],
    ) -> (r: bool)
        ensures
            r == spec_integrity(
                spec_public_views(nodes@),
                spec_digest_views(node_hashes@),
                signatures_valid@,
            ),
    {
        let ghost views = spec_public_views(nodes@);
        let ghost hashes = spec_digest_views(node_hashes@);
        let ghost valid = signatures_valid@;
        if nodes.len() > 0xffff_ffff || node_hashes.len() != nodes.len() || signatures_valid.len()
            != nodes.len() {
            return false;
        }
        let node_count = NodeIndex(nodes.len() as u32);
        let size: LeafIndex = node_count.as_leaf_index();
        let width: u64 = treemath::node_width(size);
        let mut i: usize = 0;
        while i < nodes.len()
            invariant
                i <= nodes@.len(),
                nodes@.len() <= 0xffff_ffff,
                node_hashes@.len() == nodes@.len(),
                signatures_valid@.len() == nodes@.len(),
                views == spec_public_views(nodes@),
                hashes == spec_digest_views(node_hashes@),
                valid == signatures_valid@,
                size.0 == spec_leaf_count(nodes@.len()),
                width == spec_node_width(size.0 as nat),
                width <= nodes@.len(),
                forall|j: int| 0 <= j < i ==> spec_node_ok(views, hashes, valid, j),
            decreases nodes@.len() - i,
        {
            if let Some(node) = &nodes[i] {
                assert(views[i as int] == Some(node@));
                match node.node_type {
                    NodeType::Parent => {
                        if i % 2 != 1 || i as u64 >= width || node.node.is_none() {
                            assert(!spec_node_ok(views, hashes, valid, i as int));
                            return false;
                        }
                        let own_hash = match &node_hashes[i] {
                            Some(hash) => hash,
                            None => {
                                assert(!spec_node_ok(views, hashes, valid, i as int));
                                return false;
                            },
                        };
                        assert(hashes[i as int] == Some(own_hash@));
                        proof {
                            assert(spec_level(i as nat) > 0);
                            treemath::lemma_left(i as nat);
                            treemath::lemma_right(i as nat, size.0 as nat);
                        }
                        let left_index = treemath::left(NodeIndex(i as u32));
                        let right_index = treemath::right(NodeIndex(i as u32), size);
                        let left_points = child_points_to(
                            &nodes[left_index.as_usize()],
                            own_hash.as_slice(),
                        );
                        let right_points = child_points_to(
                            &nodes[right_index.as_usize()],
                            own_hash.as_slice(),
                        );
                        if left_points == right_points {
                            assert(!spec_node_ok(views, hashes, valid, i as int));
                            return false;
                        }
                    },
                    NodeType::Leaf => {
                        if node.key_package.is_some() {
                            if i % 2 != 0 || !signatures_valid[i] {
                                assert(!spec_node_ok(views, hashes, valid, i as int));
                                return false;
                            }
                        }
                    },
                    NodeType::Default => {},
                }
            } else {
                assert(views[i as int].is_none());
            }
            assert(spec_node_ok(views, hashes, valid, i as int));
            i += 1;
        }
        true
    }
}

} // verus!
