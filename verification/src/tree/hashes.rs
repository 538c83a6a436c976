use vstd::prelude::*;
use crate::codec::{
    append_bytes, encode_u32, encode_vec, spec_option, spec_u32, spec_vec, CodecError, VecSize,
};
use crate::key_packages::{KeyPackage, KeyPackageView};
use crate::tree::apply::TreeError;
use crate::tree::index::{LeafIndex, NodeIndex};
use crate::tree::integrity::spec_digest_views;
use crate::tree::node::{Node, NodeView, ParentNode, ParentNodeView};
use crate::tree::ratchet_tree::{lemma_width_of_len, spec_leaf_count, spec_shape_ok, RatchetTree};
use crate::tree::treemath;
use crate::tree::treemath::{spec_left, spec_level, spec_right, spec_root};

verus! {

/// An optional key package as it stands on the wire, if it can be
/// written.
pub open spec fn spec_optional_package(kp: Option<KeyPackageView>) -> Option<Seq<u8>> {
    match kp {
        Some(package) => Some(package.wire()),
        None => None,
    }
}

/// An optional parent node as it stands on the wire.
pub open spec fn spec_optional_parent(parent: Option<ParentNodeView>) -> Option<Seq<u8>> {
    match parent {
        Some(node) => Some(node.wire()),
        None => None,
    }
}

/// The bytes whose digest is the hash of a leaf: its position in four
/// bytes, then its key package as an optional value.
pub open spec fn spec_leaf_hash_input(index: u32, kp: Option<KeyPackageView>) -> Seq<u8> {
    spec_u32(index) + spec_option(spec_optional_package(kp))
}

/// The bytes whose digest is the hash of a parent: its position in four
/// bytes, its parent node as an optional value, and the hashes of its
/// left and right child, each behind a one-byte length.
pub open spec fn spec_parent_hash_input(
    index: u32,
    parent: Option<ParentNodeView>,
    left: Seq<u8>,
    right: Seq<u8>,
) -> Seq<u8> {
    spec_u32(index) + spec_option(spec_optional_parent(parent)) + spec_vec(VecSize::VecU8, left)
        + spec_vec(VecSize::VecU8, right)
}

/// Whether the hash input of a leaf can be written.
pub open spec fn spec_leaf_input_encodable(kp: Option<KeyPackageView>) -> bool {
    kp.is_some() ==> kp.unwrap().encodable()
}

/// Whether the hash input of a parent can be written.
pub open spec fn spec_parent_input_encodable(
    parent: Option<ParentNodeView>,
    left: Seq<u8>,
    right: Seq<u8>,
) -> bool {
    (parent.is_some() ==> parent.unwrap().encodable()) && left.len() <= 0xff && right.len()
        <= 0xff
}

/// What is hashed for a leaf.
pub struct LeafNodeHashInput<'a> {
    node_index: &'a NodeIndex,
    key_package: &'a Option<KeyPackage>,
}

impl<'a> LeafNodeHashInput<'a> {
    /// The leaf's position.
    pub closed spec fn index(self) -> u32 {
        self.node_index.0
    }

    /// The leaf's key package.
    pub closed spec fn package(self) -> Option<KeyPackageView> {
        match *self.key_package {
            Some(kp) => Some(kp@),
            None => None,
        }
    }

    pub fn new(node_index: &'a NodeIndex, key_package: &'a Option<KeyPackage>) -> (r: Self)
        ensures
            r.index() == node_index.0,
            r.package() == match *key_package {
                Some(kp) => Some(kp@),
                None => None,
            },
    {
        LeafNodeHashInput { node_index, key_package }
    }

    /// The bytes whose digest is the leaf's hash; fails where the key
    /// package cannot be written.
    pub fn encode_detached(&self) -> (r: Result<Vec<u8>, CodecError>)
        ensures
            spec_leaf_input_encodable(self.package()) ==> r.is_ok() && r.unwrap()@
                == spec_leaf_hash_input(self.index(), self.package()),
            !spec_leaf_input_encodable(self.package()) ==> r.is_err() && r.unwrap_err()
                == CodecError::EncodingError,
    {
        let mut buffer: Vec<u8> = Vec::new();
        encode_u32(&mut buffer, self.node_index.0);
        match self.key_package {
            Some(kp) => {
                let bytes = match kp.encode_detached() {
                    Ok(bytes) => bytes,
                    Err(e) => {
                        return Err(e);
                    },
                };
                buffer.push(1u8);
                append_bytes(&mut buffer, bytes.as_slice());
            },
            None => {
                buffer.push(0u8);
            },
        }
        assert(buffer@ =~= spec_leaf_hash_input(self.index(), self.package()));
        Ok(buffer)
    }
}

/// What is hashed for a parent.
pub struct ParentNodeHashInput<'a> {
    node_index: u32,
    parent_node: &'a Option<ParentNode>,
    left_hash: &'a [u8],
    right_hash: &'a [u8],
}

impl<'a> ParentNodeHashInput<'a> {
    /// The parent's position.
    pub closed spec fn index(self) -> u32 {
        self.node_index
    }

    /// The parent node.
    pub closed spec fn parent(self) -> Option<ParentNodeView> {
        match *self.parent_node {
            Some(node) => Some(node@),
            None => None,
        }
    }

    /// The hash of the left child.
    pub closed spec fn left(self) -> Seq<u8> {
        self.left_hash@
    }

    /// The hash of the right child.
    pub closed spec fn right(self) -> Seq<u8> {
        self.right_hash@
    }

    pub fn new(
        node_index: u32,
        parent_node: &'a Option<ParentNode>,
        left_hash: &'a [u8],
        right_hash: &'a [u8],
    ) -> (r: Self)
        ensures
            r.index() == node_index,
            r.parent() == match *parent_node {
                Some(node) => Some(node@),
                None => None,
            },
            r.left() == left_hash@,
            r.right() == right_hash@,
    {
        ParentNodeHashInput { node_index, parent_node, left_hash, right_hash }
    }

    /// The bytes whose digest is the parent's hash; fails where the
    /// parent node cannot be written or a child's hash has more than 255
    /// bytes.
    pub fn encode_detached(&self) -> (r: Result<Vec<u8>, CodecError>)
        ensures
            spec_parent_input_encodable(self.parent(), self.left(), self.right()) ==> r.is_ok()
                && r.unwrap()@ == spec_parent_hash_input(
                self.index(),
                self.parent(),
                self.left(),
                self.right(),
            ),
            !spec_parent_input_encodable(self.parent(), self.left(), self.right()) ==> r.is_err()
                && r.unwrap_err() == CodecError::EncodingError,
    {
        let mut buffer: Vec<u8> = Vec::new();
        encode_u32(&mut buffer, self.node_index);
        match self.parent_node {
            Some(node) => {
                let bytes = match node.encode_detached() {
                    Ok(bytes) => bytes,
                    Err(e) => {
                        return Err(e);
                    },
                };
                buffer.push(1u8);
                append_bytes(&mut buffer, bytes.as_slice());
            },
            None => {
                buffer.push(0u8);
            },
        }
        match encode_vec(VecSize::VecU8, &mut buffer, self.left_hash) {
            Ok(()) => {},
            Err(e) => {
                return Err(e);
            },
        }
        match encode_vec(VecSize::VecU8, &mut buffer, self.right_hash) {
            Ok(()) => {},
            Err(e) => {
                return Err(e);
            },
        }
        assert(buffer@ =~= spec_parent_hash_input(
            self.index(),
            self.parent(),
            self.left(),
            self.right(),
        ));
        Ok(buffer)
    }
}

/// What is hashed for a node of a tree, given the hashes of the nodes
/// below it: for a leaf its hash input; for a parent its hash input with
/// the hashes of its two children, or nothing while one of them is
/// missing.
pub open spec fn spec_tree_hash_input(
    nodes: Seq<NodeView>,
    x: nat,
    digests: Seq<Option<Seq<u8>>>,
) -> Option<Seq<u8>> {
    let n = spec_leaf_count(nodes.len());
    if spec_level(x) == 0 {
        Some(spec_leaf_hash_input(x as u32, nodes[x as int].key_package))
    } else {
        match (digests[spec_left(x) as int], digests[spec_right(x, n) as int]) {
            (Some(left), Some(right)) => Some(
                spec_parent_hash_input(x as u32, nodes[x as int].node, left, right),
            ),
            _ => None,
        }
    }
}

/// Whether the hash input of a node can be written.
pub open spec fn spec_tree_input_encodable(
    nodes: Seq<NodeView>,
    x: nat,
    digests: Seq<Option<Seq<u8>>>,
) -> bool {
    let n = spec_leaf_count(nodes.len());
    if spec_level(x) == 0 {
        spec_leaf_input_encodable(nodes[x as int].key_package)
    } else {
        match (digests[spec_left(x) as int], digests[spec_right(x, n) as int]) {
            (Some(left), Some(right)) => spec_parent_input_encodable(
                nodes[x as int].node,
                left,
                right,
            ),
            _ => true,
        }
    }
}

/// The hash of the subtree of a node under a hash function: the digest of
/// a leaf's hash input, or of a parent's hash input with the hashes of
/// the subtrees of its two children.
pub open spec fn spec_tree_hash(nodes: Seq<NodeView>, hash: spec_fn(Seq<u8>) -> Seq<u8>, x: nat) -> Seq<
    u8,
>
    decreases spec_level(x),
{
    if spec_level(x) == 0 || x >= nodes.len() || nodes.len() % 2 == 0 {
        hash(spec_leaf_hash_input(x as u32, nodes[x as int].key_package))
    } else {
        proof {
            treemath::lemma_left(x);
            treemath::lemma_right(x, spec_leaf_count(nodes.len()));
        }
        hash(
            spec_parent_hash_input(
                x as u32,
                nodes[x as int].node,
                spec_tree_hash(nodes, hash, spec_left(x)),
                spec_tree_hash(nodes, hash, spec_right(x, spec_leaf_count(nodes.len()))),
            ),
        )
    }
}

/// Whether every digest of a table is the digest of the hash input that
/// the tree names for its node.
pub open spec fn spec_digests_follow(
    nodes: Seq<NodeView>,
    hash: spec_fn(Seq<u8>) -> Seq<u8>,
    digests: Seq<Option<Seq<u8>>>,
) -> bool {
    &&& digests.len() == nodes.len()
    &&& forall|y: int|
        0 <= y < nodes.len() && (#[trigger] digests[y]).is_some() ==> spec_tree_hash_input(
            nodes,
            y as nat,
            digests,
        ).is_some() && digests[y] == Some(
            hash(spec_tree_hash_input(nodes, y as nat, digests).unwrap()),
        )
}

/// Hashing level by level gives the hash of the tree: where every digest
/// of a table is the digest of the input that the tree names for its
/// node, the digest of a node is the hash of the node's subtree.
pub proof fn lemma_tree_hash(
    nodes: Seq<NodeView>,
    hash: spec_fn(Seq<u8>) -> Seq<u8>,
    digests: Seq<Option<Seq<u8>>>,
    x: nat,
)
    requires
        spec_shape_ok(nodes),
        spec_digests_follow(nodes, hash, digests),
        x < nodes.len(),
        digests[x as int].is_some(),
    ensures
        digests[x as int] == Some(spec_tree_hash(nodes, hash, x)),
    decreases spec_level(x),
{
    let n = spec_leaf_count(nodes.len());
    lemma_width_of_len(nodes.len());
    if spec_level(x) > 0 {
        treemath::lemma_left(x);
        treemath::lemma_right(x, n);
        lemma_tree_hash(nodes, hash, digests, spec_left(x));
        lemma_tree_hash(nodes, hash, digests, spec_right(x, n));
    }
}

impl RatchetTree {
    /// The nodes of one level of the tree, lowest first. The hash of the
    /// tree is made level by level from the leaves up: every node of a
    /// level can be hashed once the levels below are.
    pub fn tree_hash_level(&self, level: usize) -> (r: Vec<NodeIndex>)
        requires
            self.wf(),
            level <= 32,
        ensures
            treemath::spec_indices(r@) == treemath::spec_level_nodes(
                level as nat,
                self.nodes@.len(),
            ),
    {
        proof {
            lemma_width_of_len(self.nodes@.len());
        }
        treemath::level_nodes(level, self.leaf_count())
    }

    /// The bytes whose digest is the hash of a node, given the digests of
    /// the nodes hashed so far, one slot for each node of the tree. Fails
    /// where the digest of a child is missing, or where the input cannot
    /// be written.
    pub fn tree_hash_input(&self, index: NodeIndex, digests: &[Option<Vec<u8>>]) -> (r: Result<
        Vec<u8>,
        TreeError,
    >)
        requires
            self.wf(),
            index.0 < self.nodes@.len(),
            digests@.len() == self.nodes@.len(),
        ensures
            match spec_tree_hash_input(
                self.node_views(),
                index.0 as nat,
                spec_digest_views(digests@),
            ) {
                Some(input) => if spec_tree_input_encodable(
                    self.node_views(),
                    index.0 as nat,
                    spec_digest_views(digests@),
                ) {
                    r.is_ok() && r.unwrap()@ == input
                } else {
                    r.is_err() && r.unwrap_err() == TreeError::EncodingError
                },
                None => r.is_err() && r.unwrap_err() == TreeError::MissingDigest,
            },
    {
        let size = self.leaf_count();
        proof {
            lemma_width_of_len(self.nodes@.len());
        }
        let node = &self.nodes[index.as_usize()];
        assert(node@ == self.node_views()[index.0 as int]);
        if treemath::level(index) == 0 {
            let input = LeafNodeHashInput::new(&index, &node.key_package);
            return match input.encode_detached() {
                Ok(bytes) => Ok(bytes),
                Err(e) => Err(TreeError::EncodingError),
            };
        }
        proof {
            treemath::lemma_left(index.0 as nat);
            treemath::lemma_right(index.0 as nat, size.0 as nat);
        }
        let left = treemath::left(index);
        let right = treemath::right(index, size);
        let left_hash = match &digests[left.as_usize()] {
            Some(hash) => hash,
            None => {
                return Err(TreeError::MissingDigest);
            },
        };
        let right_hash = match &digests[right.as_usize()] {
            Some(hash) => hash,
            None => {
                return Err(TreeError::MissingDigest);
            },
        };
        assert(spec_digest_views(digests@)[left.0 as int] == Some(left_hash@));
        assert(spec_digest_views(digests@)[right.0 as int] == Some(right_hash@));
        let input = ParentNodeHashInput::new(
            index.0,
            &node.node,
            left_hash.as_slice(),
            right_hash.as_slice(),
        );
        match input.encode_detached() {
            Ok(bytes) => Ok(bytes),
            Err(e) => Err(TreeError::EncodingError),
        }
    }

    /// The bytes whose digest is the hash of the root, with which the
    /// chain of parent hashes starts. Fails where the root holds no key.
    pub fn root_hash_input(&self) -> (r: Result<Vec<u8>, TreeError>)
        requires
            self.wf(),
        ensures
            match self.node_views()[spec_root(self.spec_size()) as int].node {
                Some(parent) => if parent.encodable() {
                    r.is_ok() && r.unwrap()@ == parent.wire()
                } else {
                    r.is_err() && r.unwrap_err() == TreeError::EncodingError
                },
                None => r.is_err() && r.unwrap_err() == TreeError::MissingPublicKey,
            },
    {
        let size = self.leaf_count();
        proof {
            lemma_width_of_len(self.nodes@.len());
        }
        let root = treemath::root(size);
        let node = &self.nodes[root.as_usize()];
        assert(node@ == self.node_views()[root.0 as int]);
        match node.hash_input() {
            Ok(Some(bytes)) => Ok(bytes),
            Ok(None) => Err(TreeError::MissingPublicKey),
            Err(e) => Err(TreeError::EncodingError),
        }
    }

    /// One step of the chain of parent hashes, which runs from below the
    /// root down to the node above a leaf: records `parent_hash`, the
    /// hash of the node above, in the node at `index`, and returns the
    /// bytes whose digest is this node's own hash, to be recorded in the
    /// node below. A blank node records nothing and returns nothing: the
    /// hash passes through it. Fails, and changes nothing, where the node
    /// cannot be written with that hash.
    pub fn compute_parent_hash(&mut self, index: NodeIndex, parent_hash: &[u8]) -> (r: Result<
        Option<Vec<u8>>,
        TreeError,
    >)
        requires
            index.0 < old(self).nodes@.len(),
        ensures
            final(self).own_leaf == old(self).own_leaf,
            final(self).ciphersuite == old(self).ciphersuite,
            final(self).nodes@.len() == old(self).nodes@.len(),
            match old(self).node_views()[index.0 as int].node {
                Some(parent) => {
                    let updated = ParentNodeView { parent_hash: parent_hash@, ..parent };
                    if updated.encodable() {
                        r.is_ok() && r.unwrap().is_some() && r.unwrap().unwrap()@
                            == updated.wire() && final(self).node_views() == old(self).node_views().update(
                            index.0 as int,
                            old(self).node_views()[index.0 as int].with_parent(updated),
                        )
                    } else {
                        r.is_err() && r.unwrap_err() == TreeError::EncodingError && final(self).node_views() == old(self).node_views()
                    }
                },
                None => r.is_ok() && r.unwrap().is_none() && final(self).node_views() == old(self).node_views(),
            },
            old(self).wf() ==> final(self).wf(),
    {
        let ghost before = self.node_views();
        let mut parent = match &self.nodes[index.as_usize()].node {
            Some(parent) => parent.clone(),
            None => {
                return Ok(None);
            },
        };
        assert(before[index.0 as int].node == Some(parent@));
        parent.set_parent_hash(crate::codec::copy_bytes(parent_hash));
        let bytes = match parent.encode_detached() {
            Ok(bytes) => bytes,
            Err(e) => {
                return Err(TreeError::EncodingError);
            },
        };
        let ghost updated = parent@;
        self.nodes[index.as_usize()].node = Some(parent);
        assert(self.node_views() =~= before.update(
            index.0 as int,
            before[index.0 as int].with_parent(updated),
        ));
        Ok(Some(bytes))
    }
}

} // verus!
