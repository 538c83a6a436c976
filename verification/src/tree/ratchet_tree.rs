use vstd::prelude::*;
use crate::ciphersuite::{Ciphersuite, HPKEKeyPair, HPKEKeyPairView, HPKEPublicKey, HpkeCiphertext};
use crate::key_packages::{KeyPackage, KeyPackageBundle, KeyPackageBundleView, KeyPackageView};
use crate::tree::index::{LeafIndex, NodeIndex};
use crate::tree::node::{spec_node_views, Node, NodeType, NodeView, ParentNode, ParentNodeView};
use crate::tree::treemath;
use crate::tree::treemath::{
    spec_dirpath, spec_in_tree, spec_indices, spec_left, spec_level, spec_node_width, spec_right,
    spec_root,
};

verus! {

/// Number of leaves of a tree of `len` nodes.
pub open spec fn spec_leaf_count(len: nat) -> nat {
    (len + 1) / 2
}

/// Whether a list of nodes has the shape of a tree: an odd number of nodes
/// that 32 bits can count, leaves at the even positions and parents at the
/// odd ones, no leaf with a parent node and no parent with a key package.
pub open spec fn spec_shape_ok(nodes: Seq<NodeView>) -> bool {
    &&& nodes.len() % 2 == 1
    &&& nodes.len() <= 0xffff_ffff
    &&& forall|i: int|
        0 <= i < nodes.len() ==> (#[trigger] nodes[i]).node_type == (if i % 2 == 0 {
            NodeType::Leaf
        } else {
            NodeType::Parent
        })
    &&& forall|i: int|
        0 <= i < nodes.len() && i % 2 == 0 ==> (#[trigger] nodes[i]).node.is_none()
    &&& forall|i: int|
        0 <= i < nodes.len() && i % 2 == 1 ==> (#[trigger] nodes[i]).key_package.is_none()
}

/// In a tree of an odd number of nodes, the width of the tree with as many
/// leaves is that number.
pub proof fn lemma_width_of_len(len: nat)
    requires
        len % 2 == 1,
    ensures
        spec_node_width(spec_leaf_count(len)) == len,
        spec_leaf_count(len) >= 1,
{
}

/// The members that hold a node's private key between them.
pub open spec fn spec_resolve(nodes: Seq<NodeView>, x: nat) -> Seq<nat>
    decreases spec_level(x),
{
    if x >= nodes.len() {
        Seq::empty()
    } else if spec_level(x) == 0 {
        if nodes[x as int].is_blank() {
            Seq::empty()
        } else {
            seq![x]
        }
    } else if nodes[x as int].node.is_some() {
        seq![x] + nodes[x as int].node.unwrap().unmerged_leaves.map_values(|l: u32| l as nat)
    } else if nodes.len() % 2 == 1 {
        proof {
            treemath::lemma_left(x);
            treemath::lemma_right(x, spec_leaf_count(nodes.len()));
        }
        spec_resolve(nodes, spec_left(x)) + spec_resolve(
            nodes,
            spec_right(x, spec_leaf_count(nodes.len())),
        )
    } else {
        Seq::empty()
    }
}

/// The nodes after a member has been blanked: the member's leaf, the root
/// and every node between them hold nothing.
pub open spec fn spec_blank_member(nodes: Seq<NodeView>, x: nat) -> Seq<NodeView> {
    let n = spec_leaf_count(nodes.len());
    Seq::new(
        nodes.len(),
        |i: int|
            if i == x || i == spec_root(n) || spec_dirpath(x, n).contains(i as nat) {
                nodes[i].blanked()
            } else {
                nodes[i]
            },
    )
}

/// The blank leaves among the first `k` leaves, lowest first.
pub open spec fn spec_free_leaves_below(nodes: Seq<NodeView>, k: nat) -> Seq<nat>
    decreases k,
{
    if k == 0 {
        Seq::empty()
    } else {
        let before = spec_free_leaves_below(nodes, (k - 1) as nat);
        if nodes[2 * (k - 1)].is_blank() {
            before.push((2 * (k - 1)) as nat)
        } else {
            before
        }
    }
}

/// The blank leaves of a tree, lowest first.
pub open spec fn spec_free_leaves(nodes: Seq<NodeView>) -> Seq<nat> {
    spec_free_leaves_below(nodes, spec_leaf_count(nodes.len()))
}

/// Position of the last node that holds something.
pub open spec fn spec_last_occupied(nodes: Seq<NodeView>) -> Option<int>
    decreases nodes.len(),
{
    if nodes.len() == 0 {
        None
    } else if !nodes.last().is_blank() {
        Some(nodes.len() - 1)
    } else {
        spec_last_occupied(nodes.drop_last())
    }
}

/// The last node that holds something is in the list, holds something, and
/// every node behind it is blank.
pub proof fn lemma_last_occupied(nodes: Seq<NodeView>)
    ensures
        match spec_last_occupied(nodes) {
            Some(i) => 0 <= i < nodes.len() && !nodes[i].is_blank() && forall|j: int|
                i < j < nodes.len() ==> (#[trigger] nodes[j]).is_blank(),
            None => forall|j: int| 0 <= j < nodes.len() ==> (#[trigger] nodes[j]).is_blank(),
        },
    decreases nodes.len(),
{
    if nodes.len() > 0 && nodes.last().is_blank() {
        lemma_last_occupied(nodes.drop_last());
        assert forall|j: int| 0 <= j < nodes.len() - 1 implies nodes[j] == nodes.drop_last()[j] by {}
    }
}

/// Number of nodes that stay when the blank nodes at the end are cut off:
/// up to the last node that holds something and, where that is a parent,
/// the leaf behind it, so that the tree keeps its shape. A tree that holds
/// nothing stays as it is.
pub open spec fn spec_trimmed_len(nodes: Seq<NodeView>) -> int {
    match spec_last_occupied(nodes) {
        Some(i) => if i % 2 == 0 {
            i + 1
        } else {
            i + 2
        },
        None => nodes.len() as int,
    }
}

/// The nodes after public keys have been put on a path: each node of the
/// path holds a parent node with its key, no unmerged leaves and no parent
/// hash.
pub open spec fn spec_merge(nodes: Seq<NodeView>, keys: Seq<Seq<u8>>, path: Seq<nat>) -> Seq<
    NodeView,
>
    decreases path.len(),
{
    if path.len() == 0 || keys.len() != path.len() {
        nodes
    } else {
        let before = spec_merge(nodes, keys.drop_last(), path.drop_last());
        before.update(
            path.last() as int,
            before[path.last() as int].with_parent(
                ParentNodeView {
                    public_key: keys.last(),
                    unmerged_leaves: Seq::empty(),
                    parent_hash: Seq::empty(),
                },
            ),
        )
    }
}

/// Putting keys on a path of parents keeps the number of nodes and the
/// shape of the tree.
pub proof fn lemma_merge_shape(nodes: Seq<NodeView>, keys: Seq<Seq<u8>>, path: Seq<nat>)
    requires
        spec_shape_ok(nodes),
        forall|i: int| 0 <= i < path.len() ==> path[i] < nodes.len() && path[i] % 2 == 1,
    ensures
        spec_merge(nodes, keys, path).len() == nodes.len(),
        spec_shape_ok(spec_merge(nodes, keys, path)),
    decreases path.len(),
{
    if path.len() == 0 || keys.len() != path.len() {
    } else {
        lemma_merge_shape(nodes, keys.drop_last(), path.drop_last());
    }
}

/// The private keys that a member holds for the nodes above its leaf, by
/// position in the tree.
#[derive(Debug)]
pub struct PathKeypairs {
    keypairs: Vec<Option<HPKEKeyPair>>,
}

/// The views of a list of optional key pairs.
pub open spec fn spec_keypair_slots(s: Seq<Option<HPKEKeyPair>>) -> Seq<Option<HPKEKeyPairView>> {
    s.map_values(
        |k: Option<HPKEKeyPair>|
            match k {
                Some(pair) => Some(pair@),
                None => None,
            },
    )
}

/// The views of a list of key pairs.
pub open spec fn spec_keypair_views(s: Seq<HPKEKeyPair>) -> Seq<HPKEKeyPairView> {
    s.map_values(|k: HPKEKeyPair| k@)
}

/// The public keys of a list of key pairs.
pub open spec fn spec_public_keys(s: Seq<HPKEKeyPairView>) -> Seq<Seq<u8>> {
    s.map_values(|k: HPKEKeyPairView| k.public_key)
}

/// A list of slots made long enough to have a slot `index`, and `pair` put
/// in that slot.
pub open spec fn spec_put_keypair(
    slots: Seq<Option<HPKEKeyPairView>>,
    index: nat,
    pair: HPKEKeyPairView,
) -> Seq<Option<HPKEKeyPairView>> {
    Seq::new(
        if slots.len() > index {
            slots.len()
        } else {
            index + 1
        },
        |i: int|
            if i == index {
                Some(pair)
            } else if i < slots.len() {
                slots[i]
            } else {
                None
            },
    )
}

/// The slots after the key pairs of a path have been put in, one after the
/// other.
pub open spec fn spec_add_keypairs(
    slots: Seq<Option<HPKEKeyPairView>>,
    pairs: Seq<HPKEKeyPairView>,
    path: Seq<nat>,
) -> Seq<Option<HPKEKeyPairView>>
    decreases path.len(),
{
    if path.len() == 0 || pairs.len() != path.len() {
        slots
    } else {
        spec_put_keypair(
            spec_add_keypairs(slots, pairs.drop_last(), path.drop_last()),
            path.last(),
            pairs.last(),
        )
    }
}

impl View for PathKeypairs {
    type V = Seq<Option<HPKEKeyPairView>>;

    closed spec fn view(&self) -> Seq<Option<HPKEKeyPairView>> {
        spec_keypair_slots(self.keypairs@)
    }
}

impl PathKeypairs {
    pub fn new() -> (r: PathKeypairs)
        ensures
            r@ == Seq::<Option<HPKEKeyPairView>>::empty(),
    {
        let r = PathKeypairs { keypairs: Vec::new() };
        assert(r@ =~= Seq::<Option<HPKEKeyPairView>>::empty());
        r
    }

    fn put(&mut self, index: NodeIndex, pair: HPKEKeyPair)
        ensures
            final(self)@ == spec_put_keypair(old(self)@, index.0 as nat, pair@),
    {
        let ghost before = spec_keypair_slots(old(self).keypairs@);
        while self.keypairs.len() <= index.as_usize()
            invariant
                before == spec_keypair_slots(old(self).keypairs@),
                self.keypairs@.len() >= before.len(),
                self.keypairs@.len() <= before.len() || self.keypairs@.len() <= index.0 + 1,
                forall|i: int|
                    0 <= i < before.len() ==> spec_keypair_slots(self.keypairs@)[i] == before[i],
                forall|i: int|
                    before.len() <= i < self.keypairs@.len() ==> spec_keypair_slots(
                        self.keypairs@,
                    )[i].is_none(),
            decreases index.0 + 1 - self.keypairs@.len(),
        {
            let ghost current = self.keypairs@;
            self.keypairs.push(None);
            assert(spec_keypair_slots(self.keypairs@) =~= spec_keypair_slots(current).push(None));
        }
        let ghost current = self.keypairs@;
        self.keypairs[index.as_usize()] = Some(pair);
        assert(spec_keypair_slots(self.keypairs@) =~= spec_keypair_slots(current).update(
            index.0 as int,
            Some(pair@),
        ));
        assert(self@ =~= spec_put_keypair(old(self)@, index.0 as nat, pair@));
    }

    /// Puts the key pairs of a path in their nodes' slots.
    pub fn add(&mut self, keypairs: &[HPKEKeyPair], path: &[NodeIndex])
        requires
            keypairs@.len() == path@.len(),
        ensures
            final(self)@ == spec_add_keypairs(
                old(self)@,
                spec_keypair_views(keypairs@),
                spec_indices(path@),
            ),
    {
        let ghost pairs = spec_keypair_views(keypairs@);
        let ghost positions = spec_indices(path@);
        let mut i: usize = 0;
        while i < path.len()
            invariant
                i <= path@.len(),
                keypairs@.len() == path@.len(),
                pairs == spec_keypair_views(keypairs@),
                positions == spec_indices(path@),
                self@ == spec_add_keypairs(
                    old(self)@,
                    pairs.take(i as int),
                    positions.take(i as int),
                ),
            decreases path@.len() - i,
        {
            proof {
                assert(pairs.take(i + 1).drop_last() =~= pairs.take(i as int));
                assert(positions.take(i + 1).drop_last() =~= positions.take(i as int));
            }
            self.put(path[i], keypairs[i].clone());
            i += 1;
        }
        proof {
            assert(pairs.take(i as int) =~= pairs);
            assert(positions.take(i as int) =~= positions);
        }
    }

    /// The key pair of a node, if the member holds one.
    pub fn get(&self, index: NodeIndex) -> (r: Option<&HPKEKeyPair>)
        ensures
            match (if index.0 < self@.len() {
                self@[index.0 as int]
            } else {
                None
            }) {
                Some(pair) => r.is_some() && r.unwrap()@ == pair,
                None => r.is_none(),
            },
    {
        if index.as_usize() >= self.keypairs.len() {
            return None;
        }
        match &self.keypairs[index.as_usize()] {
            Some(pair) => Some(pair),
            None => None,
        }
    }
}

impl Clone for PathKeypairs {
    fn clone(&self) -> (r: Self)
        ensures
            r@ == self@,
    {
        let mut keypairs: Vec<Option<HPKEKeyPair>> = Vec::new();
        let mut i: usize = 0;
        while i < self.keypairs.len()
            invariant
                i <= self.keypairs@.len(),
                spec_keypair_slots(keypairs@) == spec_keypair_slots(self.keypairs@).take(i as int),
            decreases self.keypairs@.len() - i,
        {
            let slot = match &self.keypairs[i] {
                Some(pair) => Some(pair.clone()),
                None => None,
            };
            let ghost copied = keypairs@;
            let ghost slot_view = spec_keypair_slots(self.keypairs@)[i as int];
            assert(spec_keypair_slots(copied.push(slot)) =~= spec_keypair_slots(copied).push(
                slot_view,
            ));
            keypairs.push(slot);
            i += 1;
            assert(spec_keypair_slots(keypairs@) =~= spec_keypair_slots(self.keypairs@).take(
                i as int,
            ));
        }
        assert(spec_keypair_slots(self.keypairs@).take(i as int) =~= spec_keypair_slots(
            self.keypairs@,
        ));
        PathKeypairs { keypairs }
    }
}

/// What a member knows of its own place in the tree: its key package with
/// the private key, its leaf, and the private keys above the leaf.
#[derive(Debug)]
pub struct OwnLeaf {
    pub kpb: KeyPackageBundle,
    pub node_index: NodeIndex,
    pub path_keypairs: PathKeypairs,
}

pub struct OwnLeafView {
    pub kpb: KeyPackageBundleView,
    pub node_index: NodeIndex,
    pub path_keypairs: Seq<Option<HPKEKeyPairView>>,
}

impl View for OwnLeaf {
    type V = OwnLeafView;

    open spec fn view(&self) -> OwnLeafView {
        OwnLeafView {
            kpb: self.kpb@,
            node_index: self.node_index,
            path_keypairs: self.path_keypairs@,
        }
    }
}

impl OwnLeaf {
    pub fn new(kpb: KeyPackageBundle, node_index: NodeIndex, path_keypairs: PathKeypairs) -> (r:
        OwnLeaf)
        ensures
            r@ == (OwnLeafView { kpb: kpb@, node_index, path_keypairs: path_keypairs@ }),
    {
        OwnLeaf { kpb, node_index, path_keypairs }
    }
}

impl Clone for OwnLeaf {
    fn clone(&self) -> (r: Self)
        ensures
            r@ == self@,
    {
        OwnLeaf {
            kpb: self.kpb.clone(),
            node_index: self.node_index,
            path_keypairs: self.path_keypairs.clone(),
        }
    }
}

/// The tree of a group as one member sees it: the public keys of all
/// nodes, and the member's own private keys.
#[derive(Debug)]
pub struct RatchetTree {
    pub ciphersuite: Ciphersuite,
    pub nodes: Vec<Node>,
    pub own_leaf: OwnLeaf,
}

impl Clone for RatchetTree {
    fn clone(&self) -> (r: Self)
        ensures
            r.node_views() == self.node_views(),
            r.own_leaf@ == self.own_leaf@,
            r.ciphersuite == self.ciphersuite,
    {
        let mut nodes: Vec<Node> = Vec::new();
        let mut i: usize = 0;
        while i < self.nodes.len()
            invariant
                i <= self.nodes@.len(),
                spec_node_views(nodes@) == self.node_views().take(i as int),
            decreases self.nodes@.len() - i,
        {
            let ghost copied = nodes@;
            let node = self.nodes[i].clone();
            assert(spec_node_views(copied.push(node)) =~= spec_node_views(copied).push(node@));
            nodes.push(node);
            i += 1;
            assert(spec_node_views(nodes@) =~= self.node_views().take(i as int));
        }
        assert(self.node_views().take(i as int) =~= self.node_views());
        RatchetTree { ciphersuite: self.ciphersuite, nodes, own_leaf: self.own_leaf.clone() }
    }
}

impl RatchetTree {
    /// The nodes of the tree.
    pub open spec fn node_views(&self) -> Seq<NodeView> {
        spec_node_views(self.nodes@)
    }

    /// Whether the nodes have the shape of a tree.
    pub open spec fn wf(&self) -> bool {
        spec_shape_ok(self.node_views())
    }

    /// Whether the member's own leaf is one of the leaves of the tree.
    pub open spec fn has_own_leaf(&self) -> bool {
        self.own_leaf.node_index.0 < self.nodes@.len() && self.own_leaf.node_index.0 % 2 == 0
    }

    /// Number of leaves, as the tree arithmetic counts them.
    pub open spec fn spec_size(&self) -> nat {
        spec_leaf_count(self.nodes@.len())
    }

    /// The tree of a group of one: the founder's leaf.
    pub fn new(ciphersuite: Ciphersuite, kpb: KeyPackageBundle) -> (r: RatchetTree)
        ensures
            r.wf(),
            r.has_own_leaf(),
            r.ciphersuite == ciphersuite,
            r.node_views() == seq![NodeView::leaf(Some(kpb@.key_package))],
            r.own_leaf@ == (OwnLeafView {
                kpb: kpb@,
                node_index: NodeIndex(0),
                path_keypairs: Seq::empty(),
            }),
    {
        let leaf = Node::new_leaf(Some(kpb.get_key_package().clone()));
        let own_leaf = OwnLeaf::new(kpb, NodeIndex(0), PathKeypairs::new());
        let mut nodes: Vec<Node> = Vec::new();
        nodes.push(leaf);
        let r = RatchetTree { ciphersuite, nodes, own_leaf };
        assert(r.node_views() =~= seq![NodeView::leaf(Some(kpb@.key_package))]);
        r
    }

    /// Number of nodes.
    pub fn tree_size(&self) -> (r: NodeIndex)
        requires
            self.nodes@.len() <= 0xffff_ffff,
        ensures
            r.0 == self.nodes@.len(),
    {
        NodeIndex(self.nodes.len() as u32)
    }

    pub fn get_own_index(&self) -> (r: NodeIndex)
        ensures
            r == self.own_leaf.node_index,
    {
        self.own_leaf.node_index
    }

    /// Number of leaves.
    pub fn leaf_count(&self) -> (r: LeafIndex)
        requires
            self.nodes@.len() <= 0xffff_ffff,
        ensures
            r.0 == self.spec_size(),
    {
        self.tree_size().as_leaf_index()
    }

    /// The tree as it is shown to others: each node that holds something,
    /// and nothing for a blank node.
    pub fn public_key_tree(&self) -> (r: Vec<Option<Node>>)
        ensures
            r@.len() == self.nodes@.len(),
            forall|i: int|
                0 <= i < r@.len() ==> (if self.node_views()[i].is_blank() {
                    (#[trigger] r@[i]).is_none()
                } else {
                    r@[i].is_some() && r@[i].unwrap()@ == self.node_views()[i]
                }),
    {
        let mut tree: Vec<Option<Node>> = Vec::new();
        let mut i: usize = 0;
        while i < self.nodes.len()
            invariant
                i <= self.nodes@.len(),
                tree@.len() == i,
                forall|j: int|
                    0 <= j < i ==> (if self.node_views()[j].is_blank() {
                        (#[trigger] tree@[j]).is_none()
                    } else {
                        tree@[j].is_some() && tree@[j].unwrap()@ == self.node_views()[j]
                    }),
            decreases self.nodes@.len() - i,
        {
            if self.nodes[i].is_blank() {
                tree.push(None);
            } else {
                tree.push(Some(self.nodes[i].clone()));
            }
            i += 1;
        }
        tree
    }

    /// The members that hold the private key of a node between them: a leaf
    /// that holds a key package; a parent that holds a key, followed by its
    /// unmerged leaves; for a blank parent, those of its left child, then
    /// those of its right child.
    pub fn resolve(&self, index: NodeIndex) -> (r: Vec<NodeIndex>)
        requires
            self.wf(),
            index.0 < self.nodes@.len(),
        ensures
            spec_indices(r@) == spec_resolve(self.node_views(), index.0 as nat),
        decreases spec_level(index.0 as nat),
    {
        let size = self.leaf_count();
        proof {
            lemma_width_of_len(self.nodes@.len());
        }
        let ghost nodes = self.node_views();
        let node = &self.nodes[index.as_usize()];
        assert(node@ == nodes[index.0 as int]);
        if treemath::level(index) == 0 {
            let mut r: Vec<NodeIndex> = Vec::new();
            if !node.is_blank() {
                r.push(index);
            }
            assert(spec_indices(r@) =~= spec_resolve(nodes, index.0 as nat));
            return r;
        }
        match &node.node {
            Some(parent) => {
                let mut r: Vec<NodeIndex> = Vec::new();
                r.push(index);
                let leaves = parent.get_unmerged_leaves();
                let mut i: usize = 0;
                while i < leaves.len()
                    invariant
                        i <= leaves@.len(),
                        spec_indices(r@) == seq![index.0 as nat] + leaves@.take(
                            i as int,
                        ).map_values(|l: u32| l as nat),
                    decreases leaves@.len() - i,
                {
                    let ghost found = r@;
                    r.push(NodeIndex(leaves[i]));
                    assert(spec_indices(r@) =~= spec_indices(found).push(leaves@[i as int] as nat));
                    i += 1;
                    assert(spec_indices(r@) =~= seq![index.0 as nat] + leaves@.take(
                        i as int,
                    ).map_values(|l: u32| l as nat));
                }
                assert(leaves@.take(i as int) =~= leaves@);
                r
            },
            None => {
                proof {
                    treemath::lemma_left(index.0 as nat);
                    treemath::lemma_right(index.0 as nat, size.0 as nat);
                }
                let mut r = self.resolve(treemath::left(index));
                let right = self.resolve(treemath::right(index, size));
                let ghost first = r@;
                let mut i: usize = 0;
                while i < right.len()
                    invariant
                        i <= right@.len(),
                        r@ == first + right@.take(i as int),
                    decreases right@.len() - i,
                {
                    r.push(right[i]);
                    i += 1;
                    assert(r@ =~= first + right@.take(i as int));
                }
                assert(right@.take(i as int) =~= right@);
                assert(spec_indices(first + right@) =~= spec_indices(first) + spec_indices(right@));
                r
            },
        }
    }

    /// Takes a member out of the tree: blanks its leaf, the root and every
    /// node between them.
    pub fn blank_member(&mut self, index: NodeIndex)
        requires
            old(self).wf(),
            index.0 < old(self).nodes@.len(),
        ensures
            final(self).node_views() == spec_blank_member(old(self).node_views(), index.0 as nat),
            final(self).wf(),
            final(self).own_leaf == old(self).own_leaf,
            final(self).ciphersuite == old(self).ciphersuite,
            final(self).nodes@.len() == old(self).nodes@.len(),
    {
        let size = self.leaf_count();
        proof {
            lemma_width_of_len(self.nodes@.len());
        }
        let ghost before = self.node_views();
        let ghost n = size.0 as nat;
        let path = treemath::dirpath(index, size);
        let root = treemath::root(size);
        self.nodes[index.as_usize()].blank();
        self.nodes[root.as_usize()].blank();
        let ghost marked = seq![index.0 as nat, root.0 as nat];
        let mut i: usize = 0;
        while i < path.len()
            invariant
                i <= path@.len(),
                self.nodes@.len() == before.len(),
                self.own_leaf == old(self).own_leaf,
                self.ciphersuite == old(self).ciphersuite,
                forall|j: int| 0 <= j < path@.len() ==> (#[trigger] path@[j]).0 < before.len(),
                forall|k: int|
                    0 <= k < before.len() ==> #[trigger] self.node_views()[k] == (if k == index.0
                        || k == root.0 || spec_indices(path@).take(i as int).contains(k as nat) {
                        before[k].blanked()
                    } else {
                        before[k]
                    }),
            decreases path@.len() - i,
        {
            let ghost current = self.node_views();
            let p = path[i];
            self.nodes[p.as_usize()].blank();
            proof {
                let done = spec_indices(path@).take(i as int);
                let next = spec_indices(path@).take(i + 1);
                assert(next =~= done.push(p.0 as nat));
                assert forall|k: int| 0 <= k < before.len() implies #[trigger] self.node_views()[k]
                    == (if k == index.0 || k == root.0 || next.contains(k as nat) {
                    before[k].blanked()
                } else {
                    before[k]
                }) by {
                    if k == p.0 {
                        assert(next[i as int] == k as nat);
                        assert(current[k] == before[k].blanked() || current[k] == before[k]);
                    } else {
                        assert(self.node_views()[k] == current[k]);
                        if done.contains(k as nat) {
                            let w = choose|w: int| 0 <= w < done.len() && done[w] == k as nat;
                            assert(next[w] == k as nat);
                        }
                        if next.contains(k as nat) {
                            let w = choose|w: int| 0 <= w < next.len() && next[w] == k as nat;
                            if w < i {
                                assert(done[w] == k as nat);
                            }
                        }
                    }
                }
            }
            i += 1;
        }
        proof {
            assert(spec_indices(path@).take(i as int) =~= spec_indices(path@));
            assert(self.node_views() =~= spec_blank_member(before, index.0 as nat));
        }
    }

    /// The blank leaves, lowest first.
    pub fn free_leaves(&self) -> (r: Vec<NodeIndex>)
        requires
            self.wf(),
        ensures
            spec_indices(r@) == spec_free_leaves(self.node_views()),
            forall|i: int|
                0 <= i < r@.len() ==> (#[trigger] r@[i]).0 < self.nodes@.len() && r@[i].0 % 2 == 0
                    && self.node_views()[r@[i].0 as int].is_blank(),
    {
        let ghost nodes = self.node_views();
        let count: usize = self.leaf_count().as_usize();
        let mut free: Vec<NodeIndex> = Vec::new();
        let mut k: usize = 0;
        assert(spec_indices(free@) =~= spec_free_leaves_below(nodes, 0));
        while k < count
            invariant
                k <= count,
                count == spec_leaf_count(self.nodes@.len()),
                self.nodes@.len() % 2 == 1,
                self.nodes@.len() <= 0xffff_ffff,
                nodes == self.node_views(),
                spec_indices(free@) == spec_free_leaves_below(nodes, k as nat),
                forall|i: int|
                    0 <= i < free@.len() ==> (#[trigger] free@[i]).0 < self.nodes@.len()
                        && free@[i].0 % 2 == 0 && nodes[free@[i].0 as int].is_blank(),
            decreases count - k,
        {
            if self.nodes[2 * k].is_blank() {
                let ghost before = free@;
                free.push(NodeIndex((2 * k) as u32));
                assert(spec_indices(free@) =~= spec_indices(before).push((2 * k) as nat));
            }
            k += 1;
        }
        free
    }

    /// Cuts the blank nodes off the end of the tree, up to the last node
    /// that holds something and, where that is a parent, the leaf behind
    /// it. A tree that holds nothing stays as it is.
    pub fn trim_tree(&mut self)
        requires
            old(self).wf(),
        ensures
            final(self).node_views() == old(self).node_views().take(
                spec_trimmed_len(old(self).node_views()),
            ),
            final(self).own_leaf == old(self).own_leaf,
            final(self).ciphersuite == old(self).ciphersuite,
            spec_shape_ok(final(self).node_views()),
    {
        let ghost before = self.node_views();
        let mut new_tree_size: usize = 0;
        let mut i: usize = 0;
        while i < self.nodes.len()
            invariant
                i <= self.nodes@.len(),
                before == self.node_views(),
                self.nodes == old(self).nodes,
                new_tree_size <= i,
                match spec_last_occupied(before.take(i as int)) {
                    Some(last) => new_tree_size == last + 1,
                    None => new_tree_size == 0,
                },
            decreases self.nodes@.len() - i,
        {
            proof {
                assert(before.take(i + 1).drop_last() =~= before.take(i as int));
                assert(before.take(i + 1).last() == before[i as int]);
            }
            if !self.nodes[i].is_blank() {
                new_tree_size = i + 1;
            }
            i += 1;
        }
        proof {
            assert(before.take(i as int) =~= before);
            lemma_last_occupied(before);
        }
        if new_tree_size > 0 {
            if new_tree_size % 2 == 0 {
                new_tree_size = new_tree_size + 1;
            }
            self.nodes.truncate(new_tree_size);
        }
        proof {
            assert(self.node_views() =~= before.take(spec_trimmed_len(before)));
        }
    }

    /// Puts public keys on a path of parents: each node of the path gets a
    /// fresh parent node with its key.
    pub(crate) fn merge_path_keys(&mut self, keys: &Vec<HPKEPublicKey>, path: &[NodeIndex])
        requires
            keys@.len() == path@.len(),
            forall|i: int| 0 <= i < path@.len() ==> (#[trigger] path@[i]).0 < old(self).nodes@.len(),
        ensures
            final(self).node_views() == spec_merge(
                old(self).node_views(),
                keys@.map_values(|k: HPKEPublicKey| k@),
                spec_indices(path@),
            ),
            final(self).nodes@.len() == old(self).nodes@.len(),
            final(self).own_leaf == old(self).own_leaf,
            final(self).ciphersuite == old(self).ciphersuite,
    {
        let ghost before = self.node_views();
        let ghost key_views = keys@.map_values(|k: HPKEPublicKey| k@);
        let ghost positions = spec_indices(path@);
        let mut i: usize = 0;
        while i < path.len()
            invariant
                i <= path@.len(),
                keys@.len() == path@.len(),
                self.nodes@.len() == before.len(),
                self.own_leaf == old(self).own_leaf,
                self.ciphersuite == old(self).ciphersuite,
                key_views == keys@.map_values(|k: HPKEPublicKey| k@),
                positions == spec_indices(path@),
                forall|j: int| 0 <= j < path@.len() ==> (#[trigger] path@[j]).0 < before.len(),
                self.node_views() == spec_merge(
                    before,
                    key_views.take(i as int),
                    positions.take(i as int),
                ),
            decreases path@.len() - i,
        {
            proof {
                assert(key_views.take(i + 1).drop_last() =~= key_views.take(i as int));
                assert(positions.take(i + 1).drop_last() =~= positions.take(i as int));
            }
            let ghost current = self.node_views();
            let no_leaves: Vec<u32> = Vec::new();
            let no_hash: Vec<u8> = Vec::new();
            let node = ParentNode::new(keys[i].clone(), no_leaves.as_slice(), no_hash.as_slice());
            let p: usize = path[i].as_usize();
            assert(positions[i as int] == p);
            assert(node@.public_key == key_views[i as int]);
            self.nodes[p].node = Some(node);
            proof {
                assert(self.nodes@[p as int]@ == current[p as int].with_parent(node@));
                assert(self.node_views() =~= current.update(
                    p as int,
                    current[p as int].with_parent(
                        ParentNodeView {
                            public_key: key_views[i as int],
                            unmerged_leaves: Seq::empty(),
                            parent_hash: Seq::empty(),
                        },
                    ),
                ));
            }
            i += 1;
        }
        proof {
            assert(key_views.take(i as int) =~= key_views);
            assert(positions.take(i as int) =~= positions);
        }
    }

    /// Puts the public keys of a list of key pairs on a path of parents.
    /// The path holds as many nodes as the list holds key pairs, all of
    /// them in the tree.
    pub fn merge_keypairs(&mut self, keypairs: &[HPKEKeyPair], path: &[NodeIndex])
        requires
            keypairs@.len() == path@.len(),
            forall|i: int| 0 <= i < path@.len() ==> (#[trigger] path@[i]).0 < old(self).nodes@.len(),
        ensures
            final(self).node_views() == spec_merge(
                old(self).node_views(),
                spec_public_keys(spec_keypair_views(keypairs@)),
                spec_indices(path@),
            ),
            final(self).nodes@.len() == old(self).nodes@.len(),
            final(self).own_leaf == old(self).own_leaf,
            final(self).ciphersuite == old(self).ciphersuite,
    {
        let mut keys: Vec<HPKEPublicKey> = Vec::new();
        let mut i: usize = 0;
        while i < keypairs.len()
            invariant
                i <= keypairs@.len(),
                keys@.map_values(|k: HPKEPublicKey| k@) == spec_public_keys(
                    spec_keypair_views(keypairs@),
                ).take(i as int),
            decreases keypairs@.len() - i,
        {
            let ghost copied = keys@;
            let key = keypairs[i].get_public_key().clone();
            assert(key@ == spec_public_keys(spec_keypair_views(keypairs@))[i as int]);
            keys.push(key);
            assert(keys@.map_values(|k: HPKEPublicKey| k@) =~= copied.map_values(
                |k: HPKEPublicKey| k@,
            ).push(key@));
            i += 1;
            assert(keys@.map_values(|k: HPKEPublicKey| k@) =~= spec_public_keys(
                spec_keypair_views(keypairs@),
            ).take(i as int));
        }
        assert(spec_public_keys(spec_keypair_views(keypairs@)).take(i as int) =~= spec_public_keys(
            spec_keypair_views(keypairs@),
        ));
        self.merge_path_keys(&keys, path);
    }
}

} // verus!
