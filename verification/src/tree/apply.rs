use rayon::iter::{IntoParallelRefIterator, ParallelIterator};
use vstd::prelude::*;
use crate::creds::{Credential, CredentialView};
use crate::framing::Sender;
use crate::key_packages::{KeyPackage, KeyPackageBundle, KeyPackageBundleView, KeyPackageView};
use crate::messages::proposals::{
    spec_id_views, spec_queue_position, AddProposal, ProposalID, ProposalIDList, ProposalQueue,
    ProposalView, QueueEntry,
};
use crate::messages::{spec_credential_views, MembershipChanges, MembershipChangesView};
use crate::tree::index::{LeafIndex, NodeIndex};
use crate::tree::node::{Node, NodeView, ParentNodeView};
use crate::tree::ratchet_tree::{
    lemma_last_occupied, lemma_width_of_len, spec_blank_member, spec_free_leaves, spec_leaf_count,
    spec_shape_ok, spec_trimmed_len, OwnLeaf, OwnLeafView, PathKeypairs, RatchetTree,
};
use crate::tree::treemath;
use crate::tree::treemath::{spec_dirpath_root, spec_indices};

verus! {

/// Why a change to the tree was refused.
#[derive(Clone, Copy, Debug, PartialEq, Eq, Structural)]
pub enum TreeError {
    /// A commit names a proposal that is not in the queue.
    ProposalNotFound,
    /// A proposal is listed under a kind that is not its own.
    WrongProposalType,
    /// The sender of an update has no leaf in the tree.
    UnknownSender,
    /// The member updates its own leaf with a key package whose private key
    /// it was not handed.
    MissingKeyPackageBundle,
    /// A member to remove has no leaf in the tree, or its leaf is blank.
    EmptyLeaf,
    /// The tree would have more nodes than 32 bits can count.
    TreeTooLarge,
    /// A path does not have the length that the tree asks for.
    WrongPathLength,
    /// A node to encrypt to lies outside the tree or holds no key.
    MissingPublicKey,
    /// The member holds no private key to decrypt with.
    MissingPrivateKey,
    /// A key derived from a decrypted secret is not the key that the sender
    /// announced.
    InvalidCommit,
    /// A node cannot be written.
    EncodingError,
    /// A node is to be hashed before one of its children.
    MissingDigest,
}

/// The part of a tree that proposals change: the nodes and what the member
/// knows of its own leaf.
pub struct TreeView {
    pub nodes: Seq<NodeView>,
    pub own_leaf: OwnLeafView,
}

/// The views of a list of key package bundles.
pub open spec fn spec_bundle_views(s: Seq<KeyPackageBundle>) -> Seq<KeyPackageBundleView> {
    s.map_values(|b: KeyPackageBundle| b@)
}

/// The first bundle of a list that goes with a key package.
pub open spec fn spec_find_bundle(pending: Seq<KeyPackageBundleView>, kp: KeyPackageView) -> Option<
    KeyPackageBundleView,
>
    decreases pending.len(),
{
    if pending.len() == 0 {
        None
    } else {
        match spec_find_bundle(pending.drop_last(), kp) {
            Some(b) => Some(b),
            None => if pending.last().key_package == kp {
                Some(pending.last())
            } else {
                None
            },
        }
    }
}

/// A bundle found among the first `n` is the one found in the whole list.
pub proof fn lemma_find_bundle_stays(
    pending: Seq<KeyPackageBundleView>,
    kp: KeyPackageView,
    n: int,
)
    requires
        0 <= n <= pending.len(),
        spec_find_bundle(pending.take(n), kp).is_some(),
    ensures
        spec_find_bundle(pending, kp) == spec_find_bundle(pending.take(n), kp),
    decreases pending.len() - n,
{
    if n < pending.len() {
        assert(pending.take(n + 1).drop_last() =~= pending.take(n));
        lemma_find_bundle_stays(pending, kp, n + 1);
    } else {
        assert(pending.take(n) =~= pending);
    }
}

/// The nodes with a key package put in a leaf.
pub open spec fn spec_set_leaf(nodes: Seq<NodeView>, x: nat, kp: KeyPackageView) -> Seq<NodeView> {
    nodes.update(x as int, NodeView::leaf(Some(kp)))
}

/// The tree after one update: the sender's path is blanked and its leaf
/// holds the new key package. Where the sender is the member itself, the
/// member's leaf is the first of the pending bundles that goes with the
/// key package, and its private keys above the leaf are gone.
pub open spec fn spec_apply_update(
    state: TreeView,
    sender: Sender,
    kp: KeyPackageView,
    pending: Seq<KeyPackageBundleView>,
) -> Result<TreeView, TreeError> {
    let x = 2 * sender.sender.0;
    if x >= state.nodes.len() {
        Err(TreeError::UnknownSender)
    } else {
        let nodes = spec_set_leaf(spec_blank_member(state.nodes, x as nat), x as nat, kp);
        if x == state.own_leaf.node_index.0 {
            match spec_find_bundle(pending, kp) {
                Some(kpb) => Ok(
                    TreeView {
                        nodes,
                        own_leaf: OwnLeafView {
                            kpb,
                            node_index: state.own_leaf.node_index,
                            path_keypairs: Seq::empty(),
                        },
                    },
                ),
                None => Err(TreeError::MissingKeyPackageBundle),
            }
        } else {
            Ok(TreeView { nodes, own_leaf: state.own_leaf })
        }
    }
}

/// What applying a list of proposals has come to so far.
pub struct Applied {
    pub tree: TreeView,
    pub credentials: Seq<CredentialView>,
    pub self_removed: bool,
}

/// One update of a commit: the proposal is looked up in the queue, and
/// applied.
pub open spec fn spec_update_step(
    acc: Applied,
    id: Seq<u8>,
    queue: Seq<QueueEntry>,
    pending: Seq<KeyPackageBundleView>,
) -> Result<Applied, TreeError> {
    match spec_queue_position(queue, id.take(32)) {
        None => Err(TreeError::ProposalNotFound),
        Some(i) => match queue[i].queued.proposal {
            ProposalView::Update(kp) => match spec_apply_update(
                acc.tree,
                queue[i].queued.sender,
                kp,
                pending,
            ) {
                Ok(tree) => Ok(
                    Applied {
                        tree,
                        credentials: acc.credentials.push(kp.credential),
                        self_removed: acc.self_removed,
                    },
                ),
                Err(e) => Err(e),
            },
            _ => Err(TreeError::WrongProposalType),
        },
    }
}

/// The updates of a commit, one after the other. The first that fails
/// ends the list.
pub open spec fn spec_apply_updates(
    acc: Applied,
    ids: Seq<Seq<u8>>,
    queue: Seq<QueueEntry>,
    pending: Seq<KeyPackageBundleView>,
) -> Result<Applied, TreeError>
    decreases ids.len(),
{
    if ids.len() == 0 {
        Ok(acc)
    } else {
        match spec_apply_updates(acc, ids.drop_last(), queue, pending) {
            Ok(before) => spec_update_step(before, ids.last(), queue, pending),
            Err(e) => Err(e),
        }
    }
}

/// Updates that fail on their first `n` fail as a whole, in the same way.
pub proof fn lemma_updates_error_stays(
    acc: Applied,
    ids: Seq<Seq<u8>>,
    queue: Seq<QueueEntry>,
    pending: Seq<KeyPackageBundleView>,
    n: int,
)
    requires
        0 <= n <= ids.len(),
        spec_apply_updates(acc, ids.take(n), queue, pending).is_err(),
    ensures
        spec_apply_updates(acc, ids, queue, pending) == spec_apply_updates(
            acc,
            ids.take(n),
            queue,
            pending,
        ),
    decreases ids.len() - n,
{
    if n < ids.len() {
        assert(ids.take(n + 1).drop_last() =~= ids.take(n));
        lemma_updates_error_stays(acc, ids, queue, pending, n + 1);
    } else {
        assert(ids.take(n) =~= ids);
    }
}

/// One removal of a commit: the proposal is looked up in the queue, the
/// member's credential is noted and its path is blanked.
pub open spec fn spec_remove_step(acc: Applied, id: Seq<u8>, queue: Seq<QueueEntry>) -> Result<
    Applied,
    TreeError,
> {
    match spec_queue_position(queue, id.take(32)) {
        None => Err(TreeError::ProposalNotFound),
        Some(i) => match queue[i].queued.proposal {
            ProposalView::Remove(removed) => {
                let x = 2 * removed;
                if x >= acc.tree.nodes.len() {
                    Err(TreeError::EmptyLeaf)
                } else {
                    match acc.tree.nodes[x].key_package {
                        Some(kp) => Ok(
                            Applied {
                                tree: TreeView {
                                    nodes: spec_blank_member(acc.tree.nodes, x as nat),
                                    own_leaf: acc.tree.own_leaf,
                                },
                                credentials: acc.credentials.push(kp.credential),
                                self_removed: acc.self_removed || x
                                    == acc.tree.own_leaf.node_index.0,
                            },
                        ),
                        None => Err(TreeError::EmptyLeaf),
                    }
                }
            },
            _ => Err(TreeError::WrongProposalType),
        },
    }
}

/// The removals of a commit, one after the other. The first that fails
/// ends the list.
pub open spec fn spec_apply_removes(acc: Applied, ids: Seq<Seq<u8>>, queue: Seq<QueueEntry>) -> Result<
    Applied,
    TreeError,
>
    decreases ids.len(),
{
    if ids.len() == 0 {
        Ok(acc)
    } else {
        match spec_apply_removes(acc, ids.drop_last(), queue) {
            Ok(before) => spec_remove_step(before, ids.last(), queue),
            Err(e) => Err(e),
        }
    }
}

/// Removals that fail on their first `n` fail as a whole, in the same way.
pub proof fn lemma_removes_error_stays(
    acc: Applied,
    ids: Seq<Seq<u8>>,
    queue: Seq<QueueEntry>,
    n: int,
)
    requires
        0 <= n <= ids.len(),
        spec_apply_removes(acc, ids.take(n), queue).is_err(),
    ensures
        spec_apply_removes(acc, ids, queue) == spec_apply_removes(acc, ids.take(n), queue),
    decreases ids.len() - n,
{
    if n < ids.len() {
        assert(ids.take(n + 1).drop_last() =~= ids.take(n));
        lemma_removes_error_stays(acc, ids, queue, n + 1);
    } else {
        assert(ids.take(n) =~= ids);
    }
}

/// The key package that an identifier proposes to add.
pub open spec fn spec_lookup_add(queue: Seq<QueueEntry>, id: Seq<u8>) -> Result<
    KeyPackageView,
    TreeError,
> {
    match spec_queue_position(queue, id.take(32)) {
        None => Err(TreeError::ProposalNotFound),
        Some(i) => match queue[i].queued.proposal {
            ProposalView::Add(kp) => Ok(kp),
            _ => Err(TreeError::WrongProposalType),
        },
    }
}

/// The key packages that a list of identifiers proposes to add; the first
/// identifier that names none fails the list.
pub open spec fn spec_lookup_adds(queue: Seq<QueueEntry>, ids: Seq<Seq<u8>>) -> Result<
    Seq<KeyPackageView>,
    TreeError,
>
    decreases ids.len(),
{
    if ids.len() == 0 {
        Ok(Seq::empty())
    } else {
        match spec_lookup_adds(queue, ids.drop_last()) {
            Ok(before) => match spec_lookup_add(queue, ids.last()) {
                Ok(kp) => Ok(before.push(kp)),
                Err(e) => Err(e),
            },
            Err(e) => Err(e),
        }
    }
}

/// Lookups that fail on their first `n` fail as a whole, in the same way.
pub proof fn lemma_lookup_adds_error_stays(queue: Seq<QueueEntry>, ids: Seq<Seq<u8>>, n: int)
    requires
        0 <= n <= ids.len(),
        spec_lookup_adds(queue, ids.take(n)).is_err(),
    ensures
        spec_lookup_adds(queue, ids) == spec_lookup_adds(queue, ids.take(n)),
    decreases ids.len() - n,
{
    if n < ids.len() {
        assert(ids.take(n + 1).drop_last() =~= ids.take(n));
        lemma_lookup_adds_error_stays(queue, ids, n + 1);
    } else {
        assert(ids.take(n) =~= ids);
    }
}

/// The nodes after a leaf has been noted as unmerged in every parent of a
/// path that holds a key: the leaf is added at the end of the parent's
/// unmerged leaves unless it is among them.
pub open spec fn spec_note_unmerged(nodes: Seq<NodeView>, path: Seq<nat>, leaf: u32) -> Seq<
    NodeView,
>
    decreases path.len(),
{
    if path.len() == 0 {
        nodes
    } else {
        let before = spec_note_unmerged(nodes, path.drop_last(), leaf);
        let d = path.last() as int;
        if 0 <= d < before.len() && before[d].node.is_some() {
            let parent = before[d].node.unwrap();
            before.update(
                d,
                before[d].with_parent(
                    ParentNodeView {
                        unmerged_leaves: if parent.unmerged_leaves.contains(leaf) {
                            parent.unmerged_leaves
                        } else {
                            parent.unmerged_leaves.push(leaf)
                        },
                        ..parent
                    },
                ),
            )
        } else {
            before
        }
    }
}

/// Noting a leaf as unmerged keeps the number of nodes and the shape of
/// the tree.
pub proof fn lemma_note_unmerged_shape(nodes: Seq<NodeView>, path: Seq<nat>, leaf: u32)
    requires
        spec_shape_ok(nodes),
    ensures
        spec_note_unmerged(nodes, path, leaf).len() == nodes.len(),
        spec_shape_ok(spec_note_unmerged(nodes, path, leaf)),
    decreases path.len(),
{
    if path.len() > 0 {
        lemma_note_unmerged_shape(nodes, path.drop_last(), leaf);
    }
}

/// The nodes after a key package has been put in a blank leaf of the
/// tree: the leaf holds it, and every parent above the leaf that holds a
/// key notes the leaf as unmerged.
pub open spec fn spec_add_in_place(nodes: Seq<NodeView>, x: nat, kp: KeyPackageView) -> Seq<NodeView> {
    spec_note_unmerged(
        spec_set_leaf(nodes, x, kp),
        spec_dirpath_root(x, spec_leaf_count(nodes.len())),
        x as u32,
    )
}

/// The nodes after the first key packages of a list have been put in the
/// free leaves, the first in the lowest.
pub open spec fn spec_fill_free(nodes: Seq<NodeView>, free: Seq<nat>, kps: Seq<KeyPackageView>) -> Seq<
    NodeView,
>
    decreases kps.len(),
{
    if kps.len() == 0 || kps.len() > free.len() {
        nodes
    } else {
        spec_add_in_place(
            spec_fill_free(nodes, free, kps.drop_last()),
            free[kps.len() - 1],
            kps.last(),
        )
    }
}

/// The nodes after a list of key packages has been put behind the end of
/// the tree: a blank parent and a leaf for each.
pub open spec fn spec_append_leaves(nodes: Seq<NodeView>, kps: Seq<KeyPackageView>) -> Seq<NodeView>
    decreases kps.len(),
{
    if kps.len() == 0 {
        nodes
    } else {
        spec_append_leaves(nodes, kps.drop_last()).push(NodeView::blank_parent()).push(
            NodeView::leaf(Some(kps.last())),
        )
    }
}

/// Appending leaves adds two nodes for each and keeps the shape of the
/// tree while 32 bits can count its nodes.
pub proof fn lemma_append_leaves(nodes: Seq<NodeView>, kps: Seq<KeyPackageView>)
    requires
        spec_shape_ok(nodes),
        nodes.len() + 2 * kps.len() <= 0xffff_ffff,
    ensures
        spec_append_leaves(nodes, kps).len() == nodes.len() + 2 * kps.len(),
        spec_shape_ok(spec_append_leaves(nodes, kps)),
    decreases kps.len(),
{
    if kps.len() > 0 {
        lemma_append_leaves(nodes, kps.drop_last());
    }
}

/// Where each of a list of key packages lands: the first in the free
/// leaves, lowest first, the others behind the end of the tree.
pub open spec fn spec_landing(len: nat, free: Seq<nat>, count: nat) -> Seq<nat> {
    Seq::new(
        count,
        |k: int|
            if k < free.len() {
                free[k]
            } else {
                (len + 1 + 2 * (k - free.len())) as nat
            },
    )
}

/// The nodes after a list of key packages has been added: as many as
/// there are free leaves go there, the others behind the end of the tree;
/// then the blank nodes at the end are cut off. An empty list changes
/// nothing.
pub open spec fn spec_apply_adds(nodes: Seq<NodeView>, kps: Seq<KeyPackageView>) -> Result<
    Seq<NodeView>,
    TreeError,
> {
    let free = spec_free_leaves(nodes);
    if kps.len() == 0 {
        Ok(nodes)
    } else if kps.len() <= free.len() {
        let filled = spec_fill_free(nodes, free, kps);
        Ok(filled.take(spec_trimmed_len(filled)))
    } else if nodes.len() + 2 * (kps.len() - free.len()) > 0xffff_ffff {
        Err(TreeError::TreeTooLarge)
    } else {
        let filled = spec_fill_free(nodes, free, kps.take(free.len() as int));
        let grown = spec_append_leaves(filled, kps.skip(free.len() as int));
        Ok(grown.take(spec_trimmed_len(grown)))
    }
}


/// What a commit's proposals come to.
pub struct ApplyOutcome {
    pub tree: TreeView,
    pub changes: MembershipChangesView,
    /// Each added key package with the leaf in which it landed.
    pub invited: Seq<(nat, KeyPackageView)>,
    pub self_removed: bool,
}

/// The views of a list of invited members.
pub open spec fn spec_invited_views(s: Seq<(NodeIndex, AddProposal)>) -> Seq<(nat, KeyPackageView)> {
    s.map_values(|t: (NodeIndex, AddProposal)| (t.0.0 as nat, t.1@))
}

/// What applying the proposals of a commit to a tree comes to: the
/// updates first, then the removals, then the additions, each list in its
/// order. The first step that fails fails the commit.
pub open spec fn spec_apply_proposals(
    state: TreeView,
    updates: Seq<Seq<u8>>,
    removes: Seq<Seq<u8>>,
    adds: Seq<Seq<u8>>,
    queue: Seq<QueueEntry>,
    pending: Seq<KeyPackageBundleView>,
) -> Result<ApplyOutcome, TreeError> {
    match spec_apply_updates(spec_start(state), updates, queue, pending) {
        Err(e) => Err(e),
        Ok(updated) => match spec_apply_removes(spec_start(updated.tree), removes, queue) {
            Err(e) => Err(e),
            Ok(removed) => match spec_lookup_adds(queue, adds) {
                Err(e) => Err(e),
                Ok(kps) => match spec_apply_adds(removed.tree.nodes, kps) {
                    Err(e) => Err(e),
                    Ok(nodes) => Ok(
                        ApplyOutcome {
                            tree: TreeView { nodes, own_leaf: removed.tree.own_leaf },
                            changes: MembershipChangesView {
                                updates: updated.credentials,
                                removes: removed.credentials,
                                adds: kps.map_values(|kp: KeyPackageView| kp.credential),
                            },
                            invited: spec_landing(
                                removed.tree.nodes.len(),
                                spec_free_leaves(removed.tree.nodes),
                                kps.len(),
                            ).zip_with(kps),
                            self_removed: removed.self_removed,
                        },
                    ),
                },
            },
        },
    }
}

impl ProposalQueue {
    /// The key package that a queued proposal proposes to add.
    pub fn get_add(&self, proposal_id: &ProposalID) -> (r: Result<AddProposal, TreeError>)
        ensures
            match spec_lookup_add(self@, proposal_id@) {
                Ok(kp) => r.is_ok() && r.unwrap()@ == kp,
                Err(e) => r.is_err() && r.unwrap_err() == e,
            },
    {
        match self.get(proposal_id) {
            None => Err(TreeError::ProposalNotFound),
            Some(entry) => match entry.1.proposal.as_add() {
                Some(add) => Ok(add),
                None => Err(TreeError::WrongProposalType),
            },
        }
    }
}

impl RatchetTree {
    /// The nodes and the member's own leaf.
    pub open spec fn state(&self) -> TreeView {
        TreeView { nodes: self.node_views(), own_leaf: self.own_leaf@ }
    }

    fn find_bundle(pending: &Vec<KeyPackageBundle>, kp: &KeyPackage) -> (r: Option<
        KeyPackageBundle,
    >)
        ensures
            match spec_find_bundle(spec_bundle_views(pending@), kp@) {
                Some(b) => r.is_some() && r.unwrap()@ == b,
                None => r.is_none(),
            },
    {
        let ghost views = spec_bundle_views(pending@);
        let mut i: usize = 0;
        while i < pending.len()
            invariant
                i <= pending@.len(),
                views == spec_bundle_views(pending@),
                spec_find_bundle(views.take(i as int), kp@).is_none(),
            decreases pending@.len() - i,
        {
            proof {
                assert(views.take(i + 1).drop_last() =~= views.take(i as int));
                assert(views.take(i + 1).last() == pending@[i as int]@);
            }
            if pending[i].get_key_package() == kp {
                proof {
                    lemma_find_bundle_stays(views, kp@, i + 1);
                }
                return Some(pending[i].clone());
            }
            i += 1;
        }
        assert(views.take(i as int) =~= views);
        None
    }

    /// Applies one update: blanks the sender's path and puts the new key
    /// package in its leaf.
    pub fn apply_update(
        &mut self,
        sender: Sender,
        kp: &KeyPackage,
        pending: &Vec<KeyPackageBundle>,
    ) -> (r: Result<(), TreeError>)
        requires
            old(self).wf(),
        ensures
            match spec_apply_update(old(self).state(), sender, kp@, spec_bundle_views(pending@)) {
                Ok(state) => r.is_ok() && final(self).state() == state && final(self).wf(),
                Err(e) => r == Err::<(), TreeError>(e),
            },
            final(self).ciphersuite == old(self).ciphersuite,
    {
        let index = match sender.as_node_index() {
            Some(i) => i,
            None => {
                return Err(TreeError::UnknownSender);
            },
        };
        if index.as_usize() >= self.nodes.len() {
            return Err(TreeError::UnknownSender);
        }
        self.blank_member(index);
        let ghost blanked = self.node_views();
        self.nodes[index.as_usize()] = Node::new_leaf(Some(kp.clone()));
        assert(self.node_views() =~= spec_set_leaf(blanked, index.0 as nat, kp@));
        if index == self.own_leaf.node_index {
            match RatchetTree::find_bundle(pending, kp) {
                Some(kpb) => {
                    self.own_leaf = OwnLeaf::new(kpb, index, PathKeypairs::new());
                },
                None => {
                    return Err(TreeError::MissingKeyPackageBundle);
                },
            }
        }
        Ok(())
    }

    /// Applies one removal: blanks the member's path. Returns the member's
    /// credential, and whether the member is the holder of this tree.
    pub fn apply_remove(&mut self, removed: u32) -> (r: Result<(Credential, bool), TreeError>)
        requires
            old(self).wf(),
        ensures
            final(self).own_leaf == old(self).own_leaf,
            final(self).ciphersuite == old(self).ciphersuite,
            if 2 * removed < old(self).nodes@.len() && old(self).node_views()[2
                * removed].key_package.is_some() {
                r.is_ok() && final(self).node_views() == spec_blank_member(
                    old(self).node_views(),
                    (2 * removed) as nat,
                ) && r.unwrap().0@ == old(self).node_views()[2
                    * removed].key_package.unwrap().credential && r.unwrap().1 == (2 * removed
                    == old(self).own_leaf.node_index.0) && final(self).wf()
            } else {
                r.is_err() && r.unwrap_err() == TreeError::EmptyLeaf
            },
    {
        let index = match LeafIndex(removed).as_node_index() {
            Some(i) => i,
            None => {
                return Err(TreeError::EmptyLeaf);
            },
        };
        if index.as_usize() >= self.nodes.len() {
            return Err(TreeError::EmptyLeaf);
        }
        let credential = match &self.nodes[index.as_usize()].key_package {
            Some(kp) => kp.get_credential().clone(),
            None => {
                return Err(TreeError::EmptyLeaf);
            },
        };
        let is_self = index == self.own_leaf.node_index;
        self.blank_member(index);
        Ok((credential, is_self))
    }

    /// Puts a key package in a leaf of the tree and notes the leaf as
    /// unmerged in every parent above it that holds a key.
    pub fn add_in_place(&mut self, leaf_index: NodeIndex, kp: &KeyPackage)
        requires
            old(self).wf(),
            leaf_index.0 < old(self).nodes@.len(),
            leaf_index.0 % 2 == 0,
        ensures
            final(self).node_views() == spec_add_in_place(
                old(self).node_views(),
                leaf_index.0 as nat,
                kp@,
            ),
            final(self).wf(),
            final(self).nodes@.len() == old(self).nodes@.len(),
            final(self).own_leaf == old(self).own_leaf,
            final(self).ciphersuite == old(self).ciphersuite,
    {
        let size = self.leaf_count();
        proof {
            lemma_width_of_len(self.nodes@.len());
        }
        let ghost before = self.node_views();
        self.nodes[leaf_index.as_usize()] = Node::new_leaf(Some(kp.clone()));
        let ghost set = self.node_views();
        assert(set =~= spec_set_leaf(before, leaf_index.0 as nat, kp@));
        let dirpath = treemath::dirpath_root(leaf_index, size);
        let ghost positions = spec_indices(dirpath@);
        let mut i: usize = 0;
        while i < dirpath.len()
            invariant
                i <= dirpath@.len(),
                positions == spec_indices(dirpath@),
                self.nodes@.len() == before.len(),
                spec_shape_ok(set),
                set.len() == before.len(),
                self.own_leaf == old(self).own_leaf,
                self.ciphersuite == old(self).ciphersuite,
                forall|j: int| 0 <= j < dirpath@.len() ==> (#[trigger] dirpath@[j]).0 < before.len(),
                self.node_views() == spec_note_unmerged(set, positions.take(i as int), leaf_index.0),
            decreases dirpath@.len() - i,
        {
            proof {
                assert(positions.take(i + 1).drop_last() =~= positions.take(i as int));
                assert(positions.take(i + 1).last() == dirpath@[i as int].0);
                lemma_note_unmerged_shape(set, positions.take(i as int), leaf_index.0);
            }
            let ghost current = self.node_views();
            let d: usize = dirpath[i].as_usize();
            match &mut self.nodes[d].node {
                Some(parent) => {
                    parent.add_unmerged_leaf(leaf_index.0);
                },
                None => {},
            }
            proof {
                if current[d as int].node.is_some() {
                    let parent = current[d as int].node.unwrap();
                    assert(self.node_views() =~= current.update(
                        d as int,
                        current[d as int].with_parent(
                            ParentNodeView {
                                unmerged_leaves: if parent.unmerged_leaves.contains(leaf_index.0) {
                                    parent.unmerged_leaves
                                } else {
                                    parent.unmerged_leaves.push(leaf_index.0)
                                },
                                ..parent
                            },
                        ),
                    ));
                } else {
                    assert(self.node_views() =~= current);
                }
            }
            i += 1;
        }
        proof {
            assert(positions.take(i as int) =~= positions);
            lemma_note_unmerged_shape(set, positions, leaf_index.0);
        }
    }
}


/// The key packages of a list of proposals to add.
pub open spec fn spec_add_views(s: Seq<AddProposal>) -> Seq<KeyPackageView> {
    s.map_values(|a: AddProposal| a@)
}

/// Looks up each identifier of a list in the queue, all at once, with
/// rayon's `par_iter`, `map` and `collect`. Trusted: the results come back
/// in the order of the identifiers, each as `ProposalQueue::get_add`
/// returns it for its identifier.
#[verifier::external_body]
fn lookup_adds_parallel(queue: &ProposalQueue, ids: &Vec<ProposalID>) -> (r: Vec<
    Result<AddProposal, TreeError>,
>)
    ensures
        r@.len() == ids@.len(),
        forall|i: int|
            0 <= i < ids@.len() ==> match spec_lookup_add(queue@, ids@[i]@) {
                Ok(kp) => (#[trigger] r@[i]).is_ok() && r@[i].unwrap()@ == kp,
                Err(e) => r@[i].is_err() && r@[i].unwrap_err() == e,
            },
{
    ids.par_iter().map(|a| queue.get_add(a)).collect()
}

impl RatchetTree {
    /// Looks up the proposals to add that a commit names. Fails with the
    /// error of the first identifier that names none.
    pub fn lookup_adds(queue: &ProposalQueue, ids: &Vec<ProposalID>) -> (r: Result<
        Vec<AddProposal>,
        TreeError,
    >)
        ensures
            match spec_lookup_adds(queue@, spec_id_views(ids@)) {
                Ok(kps) => r.is_ok() && spec_add_views(r.unwrap()@) == kps,
                Err(e) => r.is_err() && r.unwrap_err() == e,
            },
    {
        let found = lookup_adds_parallel(queue, ids);
        let ghost id_views = spec_id_views(ids@);
        let mut adds: Vec<AddProposal> = Vec::new();
        let mut i: usize = 0;
        assert(spec_add_views(adds@) =~= Seq::<KeyPackageView>::empty());
        while i < found.len()
            invariant
                i <= found@.len(),
                found@.len() == ids@.len(),
                id_views == spec_id_views(ids@),
                forall|j: int|
                    0 <= j < ids@.len() ==> match spec_lookup_add(queue@, ids@[j]@) {
                        Ok(kp) => (#[trigger] found@[j]).is_ok() && found@[j].unwrap()@ == kp,
                        Err(e) => found@[j].is_err() && found@[j].unwrap_err() == e,
                    },
                spec_lookup_adds(queue@, id_views.take(i as int)) == Ok::<
                    Seq<KeyPackageView>,
                    TreeError,
                >(spec_add_views(adds@)),
            decreases found@.len() - i,
        {
            proof {
                assert(id_views.take(i + 1).drop_last() =~= id_views.take(i as int));
                assert(id_views.take(i + 1).last() == ids@[i as int]@);
            }
            match &found[i] {
                Ok(add) => {
                    let ghost copied = adds@;
                    let add = add.clone();
                    assert(spec_add_views(copied.push(add)) =~= spec_add_views(copied).push(add@));
                    adds.push(add);
                },
                Err(e) => {
                    proof {
                        lemma_lookup_adds_error_stays(queue@, id_views, i + 1);
                    }
                    return Err(*e);
                },
            }
            i += 1;
        }
        assert(id_views.take(i as int) =~= id_views);
        Ok(adds)
    }

    /// Adds a list of members: as many as there are blank leaves go there,
    /// lowest leaf first, the others behind the end of the tree; then the
    /// blank nodes at the end are cut off. Returns each proposal with the
    /// leaf in which it landed. Where the tree would outgrow 32 bits,
    /// nothing is changed.
    pub fn apply_adds(&mut self, adds: &Vec<AddProposal>) -> (r: Result<
        Vec<(NodeIndex, AddProposal)>,
        TreeError,
    >)
        requires
            old(self).wf(),
        ensures
            final(self).own_leaf == old(self).own_leaf,
            final(self).ciphersuite == old(self).ciphersuite,
            match spec_apply_adds(old(self).node_views(), spec_add_views(adds@)) {
                Ok(nodes) => r.is_ok() && final(self).node_views() == nodes && final(self).wf()
                    && spec_invited_views(r.unwrap()@) == spec_landing(
                    old(self).nodes@.len(),
                    spec_free_leaves(old(self).node_views()),
                    adds@.len(),
                ).zip_with(spec_add_views(adds@)),
                Err(e) => r.is_err() && r.unwrap_err() == e && final(self).node_views() == old(self).node_views(),
            },
    {
        let ghost before = self.node_views();
        let ghost kps = spec_add_views(adds@);
        let ghost free_spec = spec_free_leaves(before);
        let ghost landing = spec_landing(before.len(), free_spec, kps.len());
        let mut invited: Vec<(NodeIndex, AddProposal)> = Vec::new();
        if adds.len() == 0 {
            assert(spec_invited_views(invited@) =~= landing.zip_with(kps));
            return Ok(invited);
        }
        let free = self.free_leaves();
        assert(spec_indices(free@).len() == free@.len());
        let in_place: usize = if free.len() < adds.len() {
            free.len()
        } else {
            adds.len()
        };
        if adds.len() > free.len() {
            let extra: usize = adds.len() - free.len();
            if extra > (0xffff_ffff - self.nodes.len()) / 2 {
                return Err(TreeError::TreeTooLarge);
            }
        }
        let mut k: usize = 0;
        while k < in_place
            invariant
                k <= in_place,
                in_place <= free@.len(),
                in_place <= adds@.len(),
                kps == spec_add_views(adds@),
                free_spec == spec_indices(free@),
                landing == spec_landing(before.len(), free_spec, kps.len()),
                forall|i: int|
                    0 <= i < free@.len() ==> (#[trigger] free@[i]).0 < before.len() && free@[i].0
                        % 2 == 0,
                self.wf(),
                self.nodes@.len() == before.len(),
                self.own_leaf == old(self).own_leaf,
                self.ciphersuite == old(self).ciphersuite,
                self.node_views() == spec_fill_free(before, free_spec, kps.take(k as int)),
                invited@.len() == k,
                forall|i: int|
                    0 <= i < k ==> (#[trigger] invited@[i]).0.0 == landing[i] && invited@[i].1@
                        == kps[i],
            decreases in_place - k,
        {
            proof {
                assert(kps.take(k + 1).drop_last() =~= kps.take(k as int));
                assert(kps.take(k + 1).last() == adds@[k as int]@);
                assert(free_spec[k as int] == free@[k as int].0);
            }
            self.add_in_place(free[k], &adds[k].key_package);
            invited.push((free[k], adds[k].clone()));
            k += 1;
        }
        let ghost filled = self.node_views();
        let ghost rest = kps.skip(in_place as int);
        let mut leaf_index: u64 = self.nodes.len() as u64 + 1;
        proof {
            if adds@.len() <= free@.len() {
                assert(kps.take(k as int) =~= kps);
            }
            assert(rest.take(0) =~= Seq::<KeyPackageView>::empty());
        }
        while k < adds.len()
            invariant
                in_place <= k <= adds@.len(),
                in_place == if free@.len() < adds@.len() {
                    free@.len()
                } else {
                    adds@.len()
                },
                kps == spec_add_views(adds@),
                rest == kps.skip(in_place as int),
                free_spec == spec_indices(free@),
                landing == spec_landing(before.len(), free_spec, kps.len()),
                spec_shape_ok(filled),
                filled.len() == before.len(),
                filled.len() + 2 * (adds@.len() - in_place) <= 0xffff_ffff,
                self.own_leaf == old(self).own_leaf,
                self.ciphersuite == old(self).ciphersuite,
                self.node_views() == spec_append_leaves(filled, rest.take(k - in_place)),
                self.nodes@.len() == filled.len() + 2 * (k - in_place),
                leaf_index == self.nodes@.len() + 1,
                invited@.len() == k,
                forall|i: int|
                    0 <= i < k ==> (#[trigger] invited@[i]).0.0 == landing[i] && invited@[i].1@
                        == kps[i],
            decreases adds@.len() - k,
        {
            proof {
                assert(rest.take(k - in_place + 1).drop_last() =~= rest.take(k - in_place));
                assert(rest.take(k - in_place + 1).last() == adds@[k as int]@);
            }
            let ghost current = self.node_views();
            let parent = Node::new_blank_parent_node();
            let leaf = Node::new_leaf(Some(adds[k].key_package.clone()));
            self.nodes.push(parent);
            self.nodes.push(leaf);
            assert(self.node_views() =~= current.push(NodeView::blank_parent()).push(
                NodeView::leaf(Some(adds@[k as int]@)),
            ));
            invited.push((NodeIndex(leaf_index as u32), adds[k].clone()));
            leaf_index += 2;
            k += 1;
        }
        proof {
            assert(rest.take(k - in_place) =~= rest);
            lemma_append_leaves(filled, rest);
            if adds@.len() > free@.len() {
                assert(kps.take(in_place as int) =~= kps.take(free_spec.len() as int));
            }
            assert(spec_invited_views(invited@) =~= landing.zip_with(kps));
        }
        self.trim_tree();
        Ok(invited)
    }
}


/// The start of a list of proposals: nothing noted yet.
pub open spec fn spec_start(tree: TreeView) -> Applied {
    Applied { tree, credentials: Seq::empty(), self_removed: false }
}

impl RatchetTree {
    /// Applies the updates that a commit names, in their order. Returns
    /// the credentials of the members that updated their keys.
    pub fn apply_updates(
        &mut self,
        ids: &Vec<ProposalID>,
        proposal_queue: &ProposalQueue,
        pending_kpbs: &Vec<KeyPackageBundle>,
    ) -> (r: Result<Vec<Credential>, TreeError>)
        requires
            old(self).wf(),
        ensures
            final(self).ciphersuite == old(self).ciphersuite,
            match spec_apply_updates(
                spec_start(old(self).state()),
                spec_id_views(ids@),
                proposal_queue@,
                spec_bundle_views(pending_kpbs@),
            ) {
                Ok(applied) => r.is_ok() && final(self).state() == applied.tree && final(self).wf() && spec_credential_views(r.unwrap()@) == applied.credentials,
                Err(e) => r.is_err() && r.unwrap_err() == e,
            },
    {
        let ghost queue = proposal_queue@;
        let ghost pending = spec_bundle_views(pending_kpbs@);
        let ghost id_views = spec_id_views(ids@);
        let ghost start = spec_start(old(self).state());
        let mut updated_members: Vec<Credential> = Vec::new();
        let mut i: usize = 0;
        assert(spec_credential_views(updated_members@) =~= Seq::<CredentialView>::empty());
        while i < ids.len()
            invariant
                i <= ids@.len(),
                queue == proposal_queue@,
                pending == spec_bundle_views(pending_kpbs@),
                id_views == spec_id_views(ids@),
                start == spec_start(old(self).state()),
                self.wf(),
                self.ciphersuite == old(self).ciphersuite,
                spec_apply_updates(start, id_views.take(i as int), queue, pending) == Ok::<
                    Applied,
                    TreeError,
                >(
                    Applied {
                        tree: self.state(),
                        credentials: spec_credential_views(updated_members@),
                        self_removed: false,
                    },
                ),
            decreases ids@.len() - i,
        {
            let ghost before = Applied {
                tree: self.state(),
                credentials: spec_credential_views(updated_members@),
                self_removed: false,
            };
            proof {
                assert(id_views.take(i + 1).drop_last() =~= id_views.take(i as int));
                assert(id_views.take(i + 1).last() == ids@[i as int]@);
                assert(spec_apply_updates(start, id_views.take(i + 1), queue, pending)
                    == spec_update_step(before, ids@[i as int]@, queue, pending));
            }
            match self.update_step(&ids[i], proposal_queue, pending_kpbs) {
                Ok(credential) => {
                    let ghost noted = updated_members@;
                    assert(spec_credential_views(noted.push(credential)) =~= spec_credential_views(
                        noted,
                    ).push(credential@));
                    updated_members.push(credential);
                },
                Err(e) => {
                    proof {
                        lemma_updates_error_stays(start, id_views, queue, pending, i + 1);
                    }
                    return Err(e);
                },
            }
            i += 1;
        }
        assert(id_views.take(i as int) =~= id_views);
        Ok(updated_members)
    }

    /// Looks up one update in the queue and applies it. Returns the
    /// credential of the member that updated its keys.
    fn update_step(
        &mut self,
        id: &ProposalID,
        proposal_queue: &ProposalQueue,
        pending_kpbs: &Vec<KeyPackageBundle>,
    ) -> (r: Result<Credential, TreeError>)
        requires
            old(self).wf(),
        ensures
            final(self).ciphersuite == old(self).ciphersuite,
            forall|credentials: Seq<CredentialView>, self_removed: bool|
                match #[trigger] spec_update_step(
                    Applied { tree: old(self).state(), credentials, self_removed },
                    id@,
                    proposal_queue@,
                    spec_bundle_views(pending_kpbs@),
                ) {
                    Ok(applied) => r.is_ok() && final(self).state() == applied.tree && final(self).wf() && applied.credentials == credentials.push(r.unwrap()@)
                        && applied.self_removed == self_removed,
                    Err(e) => r.is_err() && r.unwrap_err() == e,
                },
    {
        let entry = match proposal_queue.get(id) {
            Some(entry) => entry,
            None => {
                return Err(TreeError::ProposalNotFound);
            },
        };
        let update_proposal = match entry.1.proposal.as_update() {
            Some(update) => update,
            None => {
                return Err(TreeError::WrongProposalType);
            },
        };
        match self.apply_update(entry.1.sender, &update_proposal.key_package, pending_kpbs) {
            Ok(()) => {},
            Err(e) => {
                return Err(e);
            },
        }
        Ok(update_proposal.key_package.get_credential().clone())
    }

    /// Looks up one removal in the queue and applies it. Returns the
    /// credential of the member that was removed, and whether it is the
    /// holder of this tree.
    fn remove_step(&mut self, id: &ProposalID, proposal_queue: &ProposalQueue) -> (r: Result<
        (Credential, bool),
        TreeError,
    >)
        requires
            old(self).wf(),
        ensures
            final(self).ciphersuite == old(self).ciphersuite,
            forall|credentials: Seq<CredentialView>, self_removed: bool|
                match #[trigger] spec_remove_step(
                    Applied { tree: old(self).state(), credentials, self_removed },
                    id@,
                    proposal_queue@,
                ) {
                    Ok(applied) => r.is_ok() && final(self).state() == applied.tree && final(self).wf() && applied.credentials == credentials.push(r.unwrap().0@)
                        && applied.self_removed == (self_removed || r.unwrap().1),
                    Err(e) => r.is_err() && r.unwrap_err() == e,
                },
    {
        let entry = match proposal_queue.get(id) {
            Some(entry) => entry,
            None => {
                return Err(TreeError::ProposalNotFound);
            },
        };
        let remove_proposal = match entry.1.proposal.as_remove() {
            Some(remove) => remove,
            None => {
                return Err(TreeError::WrongProposalType);
            },
        };
        self.apply_remove(remove_proposal.removed)
    }

    /// Applies the removals that a commit names, in their order. Returns
    /// the credentials of the members that were removed, and whether the
    /// holder of this tree is among them.
    pub fn apply_removes(&mut self, ids: &Vec<ProposalID>, proposal_queue: &ProposalQueue) -> (r:
        Result<(Vec<Credential>, bool), TreeError>)
        requires
            old(self).wf(),
        ensures
            final(self).ciphersuite == old(self).ciphersuite,
            match spec_apply_removes(
                spec_start(old(self).state()),
                spec_id_views(ids@),
                proposal_queue@,
            ) {
                Ok(applied) => r.is_ok() && final(self).state() == applied.tree && final(self).wf() && spec_credential_views(r.unwrap().0@) == applied.credentials
                    && r.unwrap().1 == applied.self_removed,
                Err(e) => r.is_err() && r.unwrap_err() == e,
            },
    {
        let ghost queue = proposal_queue@;
        let ghost id_views = spec_id_views(ids@);
        let ghost start = spec_start(old(self).state());
        let mut removed_members: Vec<Credential> = Vec::new();
        let mut self_removed = false;
        let mut j: usize = 0;
        assert(spec_credential_views(removed_members@) =~= Seq::<CredentialView>::empty());
        while j < ids.len()
            invariant
                j <= ids@.len(),
                queue == proposal_queue@,
                id_views == spec_id_views(ids@),
                start == spec_start(old(self).state()),
                self.wf(),
                self.ciphersuite == old(self).ciphersuite,
                spec_apply_removes(start, id_views.take(j as int), queue) == Ok::<
                    Applied,
                    TreeError,
                >(
                    Applied {
                        tree: self.state(),
                        credentials: spec_credential_views(removed_members@),
                        self_removed,
                    },
                ),
            decreases ids@.len() - j,
        {
            let ghost before = Applied {
                tree: self.state(),
                credentials: spec_credential_views(removed_members@),
                self_removed,
            };
            proof {
                assert(id_views.take(j + 1).drop_last() =~= id_views.take(j as int));
                assert(id_views.take(j + 1).last() == ids@[j as int]@);
                assert(spec_apply_removes(start, id_views.take(j + 1), queue) == spec_remove_step(
                    before,
                    ids@[j as int]@,
                    queue,
                ));
            }
            match self.remove_step(&ids[j], proposal_queue) {
                Ok((credential, is_self)) => {
                    let ghost noted = removed_members@;
                    assert(spec_credential_views(noted.push(credential)) =~= spec_credential_views(
                        noted,
                    ).push(credential@));
                    removed_members.push(credential);
                    if is_self {
                        self_removed = true;
                    }
                },
                Err(e) => {
                    proof {
                        lemma_removes_error_stays(start, id_views, queue, j + 1);
                    }
                    return Err(e);
                },
            }
            j += 1;
        }
        assert(id_views.take(j as int) =~= id_views);
        Ok((removed_members, self_removed))
    }

    /// Applies the proposals that a commit names: the updates first, then
    /// the removals, then the additions, each list in its order. Returns
    /// who was changed, each added member with its leaf, and whether the
    /// holder of this tree was removed. On an error the tree is left
    /// as far as the proposals before the failing one have changed it.
    pub fn apply_proposals(
        &mut self,
        proposal_id_list: &ProposalIDList,
        proposal_queue: ProposalQueue,
        pending_kpbs: Vec<KeyPackageBundle>,
    ) -> (r: Result<(MembershipChanges, Vec<(NodeIndex, AddProposal)>, bool), TreeError>)
        requires
            old(self).wf(),
        ensures
            final(self).ciphersuite == old(self).ciphersuite,
            match spec_apply_proposals(
                old(self).state(),
                spec_id_views(proposal_id_list.updates@),
                spec_id_views(proposal_id_list.removes@),
                spec_id_views(proposal_id_list.adds@),
                proposal_queue@,
                spec_bundle_views(pending_kpbs@),
            ) {
                Ok(outcome) => r.is_ok() && final(self).state() == outcome.tree && final(self).wf()
                    && r.unwrap().0@ == outcome.changes && spec_invited_views(r.unwrap().1@)
                    == outcome.invited && r.unwrap().2 == outcome.self_removed,
                Err(e) => r.is_err() && r.unwrap_err() == e,
            },
    {
        let updated_members = match self.apply_updates(
            &proposal_id_list.updates,
            &proposal_queue,
            &pending_kpbs,
        ) {
            Ok(credentials) => credentials,
            Err(e) => {
                return Err(e);
            },
        };
        let (removed_members, self_removed) = match self.apply_removes(
            &proposal_id_list.removes,
            &proposal_queue,
        ) {
            Ok(removed) => removed,
            Err(e) => {
                return Err(e);
            },
        };
        let adds = match RatchetTree::lookup_adds(&proposal_queue, &proposal_id_list.adds) {
            Ok(adds) => adds,
            Err(e) => {
                return Err(e);
            },
        };
        let invited_members = match self.apply_adds(&adds) {
            Ok(invited) => invited,
            Err(e) => {
                return Err(e);
            },
        };
        let mut added_members: Vec<Credential> = Vec::new();
        let mut k: usize = 0;
        let ghost kps = spec_add_views(adds@);
        assert(spec_credential_views(added_members@) =~= kps.take(0).map_values(
            |kp: KeyPackageView| kp.credential,
        ));
        while k < adds.len()
            invariant
                k <= adds@.len(),
                kps == spec_add_views(adds@),
                spec_credential_views(added_members@) == kps.take(k as int).map_values(
                    |kp: KeyPackageView| kp.credential,
                ),
            decreases adds@.len() - k,
        {
            let ghost noted = added_members@;
            let credential = adds[k].key_package.get_credential().clone();
            assert(credential@ == kps[k as int].credential);
            assert(spec_credential_views(noted.push(credential)) =~= spec_credential_views(
                noted,
            ).push(credential@));
            added_members.push(credential);
            k += 1;
            assert(spec_credential_views(added_members@) =~= kps.take(k as int).map_values(
                |kp: KeyPackageView| kp.credential,
            ));
        }
        assert(kps.take(k as int) =~= kps);
        Ok(
            (
                MembershipChanges {
                    updates: updated_members,
                    removes: removed_members,
                    adds: added_members,
                },
                invited_members,
                self_removed,
            ),
        )
    }
}

} // verus!
