use vstd::prelude::*;
use vstd::arithmetic::power2::{lemma_pow2_pos, pow2};
use crate::key_packages::{KeyPackageBundleView, KeyPackageView};
use crate::messages::proposals::QueueEntry;
use crate::tree::apply::{
    lemma_append_leaves, lemma_note_unmerged_shape, spec_add_in_place, spec_append_leaves,
    spec_apply_adds, spec_apply_proposals, spec_apply_removes, spec_apply_update,
    spec_apply_updates, spec_fill_free, spec_lookup_adds, spec_note_unmerged, spec_remove_step,
    spec_set_leaf, spec_start, spec_update_step, Applied, TreeView,
};
use crate::tree::node::NodeView;
use crate::tree::ratchet_tree::{
    lemma_width_of_len, spec_blank_member, spec_free_leaves, spec_free_leaves_below,
    spec_leaf_count, spec_merge, spec_resolve, spec_shape_ok, spec_trimmed_len,
};
use crate::tree::treemath::{
    lemma_dirpath_covers, lemma_left, lemma_pow2_double, lemma_right_full, spec_covers,
    spec_descend, spec_dirpath_long, spec_dirpath_root, spec_first_leaf, spec_left, spec_level,
    spec_node_width, spec_right,
};

verus! {

/// A leaf that lies to the left of a parent, in the parent's subtree,
/// lies in the subtree of the parent's left child.
pub proof fn lemma_covers_left(x: nat, l: nat)
    requires
        spec_level(x) > 0,
        spec_covers(x, l),
        l < x,
    ensures
        spec_covers(spec_left(x), l),
{
    lemma_left(x);
    lemma_pow2_double((spec_level(x) - 1) as nat);
}

/// Going left from a node that lies outside the tree loses no node of
/// its subtree that lies inside the tree.
pub proof fn lemma_covers_descend(r: nat, w: nat, l: nat)
    requires
        spec_covers(r, l),
        l < w,
    ensures
        spec_covers(spec_descend(r, w), l),
    decreases spec_level(r),
{
    if r < w || spec_level(r) == 0 {
    } else {
        lemma_left(r);
        lemma_pow2_double((spec_level(r) - 1) as nat);
        lemma_covers_left(r, l);
        lemma_covers_descend(spec_left(r), w, l);
    }
}

/// A node of the tree that lies to the right of a parent, in the parent's
/// subtree, lies in the subtree of the parent's right child.
pub proof fn lemma_covers_right(x: nat, n: nat, l: nat)
    requires
        spec_level(x) > 0,
        spec_covers(x, l),
        l > x,
        l < spec_node_width(n),
    ensures
        spec_covers(spec_right(x, n), l),
{
    let k = spec_level(x);
    let h = pow2((k - 1) as nat);
    lemma_pow2_double((k - 1) as nat);
    lemma_right_full(x);
    lemma_covers_descend(x + h, spec_node_width(n), l);
}

/// The resolution of a node reaches every member below the node: each
/// leaf in the node's subtree that holds a key package lies in the
/// subtree of a member of the node's resolution, so that a secret
/// encrypted to the keys of the resolution can be read by every member
/// below the node.
pub proof fn lemma_resolve_covers(nodes: Seq<NodeView>, x: nat, l: nat)
    requires
        spec_shape_ok(nodes),
        x < nodes.len(),
        l < nodes.len(),
        l % 2 == 0,
        spec_covers(x, l),
        !nodes[l as int].is_blank(),
    ensures
        exists|k: int|
            0 <= k < spec_resolve(nodes, x).len() && spec_covers(
                #[trigger] spec_resolve(nodes, x)[k],
                l,
            ),
    decreases spec_level(x),
{
    let n = spec_leaf_count(nodes.len());
    lemma_width_of_len(nodes.len());
    let members = spec_resolve(nodes, x);
    vstd::arithmetic::power2::lemma2_to64();
    if spec_level(x) == 0 {
        assert(l == x);
        assert(members[0] == x);
    } else if nodes[x as int].node.is_some() {
        assert(members[0] == x);
    } else {
        assert(x % 2 == 1);
        let left = spec_resolve(nodes, spec_left(x));
        let right = spec_resolve(nodes, spec_right(x, n));
        assert(members == left + right);
        lemma_left(x);
        crate::tree::treemath::lemma_right(x, n);
        if l < x {
            lemma_covers_left(x, l);
            lemma_resolve_covers(nodes, spec_left(x), l);
            let k = choose|k: int| 0 <= k < left.len() && spec_covers(#[trigger] left[k], l);
            assert(members[k] == left[k]);
        } else {
            lemma_covers_right(x, n, l);
            lemma_resolve_covers(nodes, spec_right(x, n), l);
            let k = choose|k: int| 0 <= k < right.len() && spec_covers(#[trigger] right[k], l);
            assert(members[left.len() + k] == right[k]);
        }
    }
}

/// Updates that succeed on two trees with the same nodes leave the same
/// nodes and note the same credentials, whoever holds the trees.
pub proof fn lemma_updates_agree(
    a: Applied,
    b: Applied,
    ids: Seq<Seq<u8>>,
    queue: Seq<QueueEntry>,
    pending_a: Seq<KeyPackageBundleView>,
    pending_b: Seq<KeyPackageBundleView>,
)
    requires
        a.tree.nodes == b.tree.nodes,
        a.credentials == b.credentials,
        spec_apply_updates(a, ids, queue, pending_a).is_ok(),
        spec_apply_updates(b, ids, queue, pending_b).is_ok(),
    ensures
        spec_apply_updates(a, ids, queue, pending_a).unwrap().tree.nodes == spec_apply_updates(
            b,
            ids,
            queue,
            pending_b,
        ).unwrap().tree.nodes,
        spec_apply_updates(a, ids, queue, pending_a).unwrap().credentials == spec_apply_updates(
            b,
            ids,
            queue,
            pending_b,
        ).unwrap().credentials,
    decreases ids.len(),
{
    if ids.len() > 0 {
        lemma_updates_agree(a, b, ids.drop_last(), queue, pending_a, pending_b);
    }
}

/// Removals that succeed on two trees with the same nodes leave the same
/// nodes and note the same credentials, whoever holds the trees.
pub proof fn lemma_removes_agree(a: Applied, b: Applied, ids: Seq<Seq<u8>>, queue: Seq<QueueEntry>)
    requires
        a.tree.nodes == b.tree.nodes,
        a.credentials == b.credentials,
        spec_apply_removes(a, ids, queue).is_ok(),
        spec_apply_removes(b, ids, queue).is_ok(),
    ensures
        spec_apply_removes(a, ids, queue).unwrap().tree.nodes == spec_apply_removes(
            b,
            ids,
            queue,
        ).unwrap().tree.nodes,
        spec_apply_removes(a, ids, queue).unwrap().credentials == spec_apply_removes(
            b,
            ids,
            queue,
        ).unwrap().credentials,
    decreases ids.len(),
{
    if ids.len() > 0 {
        lemma_removes_agree(a, b, ids.drop_last(), queue);
    }
}

/// Members agree on a commit: two members whose trees hold the same
/// nodes, and who both apply the same proposals from the same queue,
/// end with trees that hold the same nodes, and see the same changes
/// and the same members invited to the same leaves.
pub proof fn lemma_members_agree(
    a: TreeView,
    b: TreeView,
    updates: Seq<Seq<u8>>,
    removes: Seq<Seq<u8>>,
    adds: Seq<Seq<u8>>,
    queue: Seq<QueueEntry>,
    pending_a: Seq<KeyPackageBundleView>,
    pending_b: Seq<KeyPackageBundleView>,
)
    requires
        a.nodes == b.nodes,
        spec_apply_proposals(a, updates, removes, adds, queue, pending_a).is_ok(),
        spec_apply_proposals(b, updates, removes, adds, queue, pending_b).is_ok(),
    ensures
        spec_apply_proposals(a, updates, removes, adds, queue, pending_a).unwrap().tree.nodes
            == spec_apply_proposals(b, updates, removes, adds, queue, pending_b).unwrap().tree.nodes,
        spec_apply_proposals(a, updates, removes, adds, queue, pending_a).unwrap().changes
            == spec_apply_proposals(b, updates, removes, adds, queue, pending_b).unwrap().changes,
        spec_apply_proposals(a, updates, removes, adds, queue, pending_a).unwrap().invited
            == spec_apply_proposals(b, updates, removes, adds, queue, pending_b).unwrap().invited,
{
    lemma_updates_agree(spec_start(a), spec_start(b), updates, queue, pending_a, pending_b);
    let ua = spec_apply_updates(spec_start(a), updates, queue, pending_a).unwrap();
    let ub = spec_apply_updates(spec_start(b), updates, queue, pending_b).unwrap();
    lemma_removes_agree(spec_start(ua.tree), spec_start(ub.tree), removes, queue);
}


/// Whether every leaf that a parent notes as unmerged is a leaf of the
/// parent's subtree.
pub open spec fn spec_unmerged_ok(nodes: Seq<NodeView>) -> bool {
    forall|p: int, k: int|
        0 <= p < nodes.len() && nodes[p].node.is_some() && 0 <= k
            < nodes[p].node.unwrap().unmerged_leaves.len() ==> spec_covers(
            p as nat,
            (#[trigger] nodes[p].node.unwrap().unmerged_leaves[k]) as nat,
        ) && nodes[p].node.unwrap().unmerged_leaves[k] % 2 == 0
}

/// Blanking a member leaves the unmerged leaves in their parents'
/// subtrees.
pub proof fn lemma_blank_keeps_unmerged(nodes: Seq<NodeView>, x: nat)
    requires
        spec_unmerged_ok(nodes),
    ensures
        spec_unmerged_ok(spec_blank_member(nodes, x)),
{
    let blanked = spec_blank_member(nodes, x);
    assert forall|p: int, k: int|
        0 <= p < blanked.len() && blanked[p].node.is_some() && 0 <= k
            < blanked[p].node.unwrap().unmerged_leaves.len() implies spec_covers(
        p as nat,
        (#[trigger] blanked[p].node.unwrap().unmerged_leaves[k]) as nat,
    ) && blanked[p].node.unwrap().unmerged_leaves[k] % 2 == 0 by {
        assert(blanked[p] == nodes[p]);
        assert(nodes[p].node.unwrap().unmerged_leaves[k] == blanked[p].node.unwrap().unmerged_leaves[k]);
    }
}

/// Putting a key package in a leaf leaves the unmerged leaves in their
/// parents' subtrees.
pub proof fn lemma_set_leaf_keeps_unmerged(nodes: Seq<NodeView>, x: nat, kp: KeyPackageView)
    requires
        spec_unmerged_ok(nodes),
        x < nodes.len(),
    ensures
        spec_unmerged_ok(spec_set_leaf(nodes, x, kp)),
{
    let set = spec_set_leaf(nodes, x, kp);
    assert forall|p: int, k: int|
        0 <= p < set.len() && set[p].node.is_some() && 0 <= k
            < set[p].node.unwrap().unmerged_leaves.len() implies spec_covers(
        p as nat,
        (#[trigger] set[p].node.unwrap().unmerged_leaves[k]) as nat,
    ) && set[p].node.unwrap().unmerged_leaves[k] % 2 == 0 by {
        if p != x {
            assert(set[p] == nodes[p]);
            assert(nodes[p].node.unwrap().unmerged_leaves[k] == set[p].node.unwrap().unmerged_leaves[k]);
        }
    }
}

/// Noting a leaf as unmerged in parents whose subtrees hold it leaves the
/// unmerged leaves in their parents' subtrees.
pub proof fn lemma_note_keeps_unmerged(nodes: Seq<NodeView>, path: Seq<nat>, leaf: u32)
    requires
        spec_unmerged_ok(nodes),
        leaf % 2 == 0,
        forall|i: int| 0 <= i < path.len() ==> spec_covers(#[trigger] path[i], leaf as nat),
    ensures
        spec_unmerged_ok(spec_note_unmerged(nodes, path, leaf)),
        spec_note_unmerged(nodes, path, leaf).len() == nodes.len(),
    decreases path.len(),
{
    if path.len() > 0 {
        let before = spec_note_unmerged(nodes, path.drop_last(), leaf);
        assert forall|i: int| 0 <= i < path.drop_last().len() implies spec_covers(
            #[trigger] path.drop_last()[i],
            leaf as nat,
        ) by {
            assert(path.drop_last()[i] == path[i]);
        }
        lemma_note_keeps_unmerged(nodes, path.drop_last(), leaf);
        let after = spec_note_unmerged(nodes, path, leaf);
        let d = path.last() as int;
        assert(spec_covers(path[path.len() - 1], leaf as nat));
        assert forall|p: int, k: int|
            0 <= p < after.len() && after[p].node.is_some() && 0 <= k
                < after[p].node.unwrap().unmerged_leaves.len() implies spec_covers(
            p as nat,
            (#[trigger] after[p].node.unwrap().unmerged_leaves[k]) as nat,
        ) && after[p].node.unwrap().unmerged_leaves[k] % 2 == 0 by {
            if p == d && 0 <= d < before.len() && before[d].node.is_some() {
                let old_leaves = before[d].node.unwrap().unmerged_leaves;
                if k < old_leaves.len() {
                    assert(after[p].node.unwrap().unmerged_leaves[k] == old_leaves[k]);
                    assert(before[p].node.unwrap().unmerged_leaves[k] == old_leaves[k]);
                } else {
                    assert(after[p].node.unwrap().unmerged_leaves[k] == leaf);
                }
            } else {
                assert(after[p] == before[p]);
                assert(before[p].node.unwrap().unmerged_leaves[k] == after[p].node.unwrap().unmerged_leaves[k]);
            }
        }
    }
}

/// Putting a member in a leaf of the tree leaves the unmerged leaves in
/// their parents' subtrees, and the tree in its shape.
pub proof fn lemma_add_in_place_keeps_unmerged(nodes: Seq<NodeView>, x: nat, kp: KeyPackageView)
    requires
        spec_shape_ok(nodes),
        spec_unmerged_ok(nodes),
        x < nodes.len(),
        x % 2 == 0,
    ensures
        spec_unmerged_ok(spec_add_in_place(nodes, x, kp)),
        spec_shape_ok(spec_add_in_place(nodes, x, kp)),
        spec_add_in_place(nodes, x, kp).len() == nodes.len(),
{
    let n = spec_leaf_count(nodes.len());
    lemma_width_of_len(nodes.len());
    lemma_set_leaf_keeps_unmerged(nodes, x, kp);
    let set = spec_set_leaf(nodes, x, kp);
    let path = spec_dirpath_root(x, n);
    vstd::arithmetic::power2::lemma2_to64();
    assert(spec_level(x) == 0);
    assert(spec_covers(x, x));
    assert forall|i: int| 0 <= i < path.len() implies spec_covers(#[trigger] path[i], x) by {
        lemma_dirpath_covers(x, n, x, i + 1);
        assert(path[i] == spec_dirpath_long(x, n)[i + 1]);
    }
    lemma_note_keeps_unmerged(set, path, x as u32);
    lemma_note_unmerged_shape(set, path, x as u32);
}

/// The free leaves of a tree are leaves of the tree.
pub proof fn lemma_free_leaves_are_leaves(nodes: Seq<NodeView>, k: nat, i: int)
    requires
        nodes.len() % 2 == 1,
        k <= spec_leaf_count(nodes.len()),
        0 <= i < spec_free_leaves_below(nodes, k).len(),
    ensures
        spec_free_leaves_below(nodes, k)[i] < nodes.len(),
        spec_free_leaves_below(nodes, k)[i] % 2 == 0,
    decreases k,
{
    if k > 0 {
        let before = spec_free_leaves_below(nodes, (k - 1) as nat);
        if i < before.len() {
            lemma_free_leaves_are_leaves(nodes, (k - 1) as nat, i);
        }
    }
}

/// Filling free leaves leaves the unmerged leaves in their parents'
/// subtrees, and the tree in its shape.
pub proof fn lemma_fill_keeps_unmerged(
    nodes: Seq<NodeView>,
    free: Seq<nat>,
    kps: Seq<KeyPackageView>,
)
    requires
        spec_shape_ok(nodes),
        spec_unmerged_ok(nodes),
        forall|i: int| 0 <= i < free.len() ==> (#[trigger] free[i]) < nodes.len() && free[i] % 2 == 0,
    ensures
        spec_unmerged_ok(spec_fill_free(nodes, free, kps)),
        spec_shape_ok(spec_fill_free(nodes, free, kps)),
        spec_fill_free(nodes, free, kps).len() == nodes.len(),
    decreases kps.len(),
{
    if kps.len() == 0 || kps.len() > free.len() {
    } else {
        lemma_fill_keeps_unmerged(nodes, free, kps.drop_last());
        let before = spec_fill_free(nodes, free, kps.drop_last());
        assert(free[kps.len() - 1] < nodes.len());
        lemma_add_in_place_keeps_unmerged(before, free[kps.len() - 1], kps.last());
    }
}

/// Appending leaves leaves the unmerged leaves in their parents'
/// subtrees.
pub proof fn lemma_append_keeps_unmerged(nodes: Seq<NodeView>, kps: Seq<KeyPackageView>)
    requires
        spec_unmerged_ok(nodes),
    ensures
        spec_unmerged_ok(spec_append_leaves(nodes, kps)),
    decreases kps.len(),
{
    if kps.len() > 0 {
        lemma_append_keeps_unmerged(nodes, kps.drop_last());
        let before = spec_append_leaves(nodes, kps.drop_last());
        let after = spec_append_leaves(nodes, kps);
        assert forall|p: int, k: int|
            0 <= p < after.len() && after[p].node.is_some() && 0 <= k
                < after[p].node.unwrap().unmerged_leaves.len() implies spec_covers(
            p as nat,
            (#[trigger] after[p].node.unwrap().unmerged_leaves[k]) as nat,
        ) && after[p].node.unwrap().unmerged_leaves[k] % 2 == 0 by {
            assert(p < before.len());
            assert(after[p] == before[p]);
            assert(before[p].node.unwrap().unmerged_leaves[k] == after[p].node.unwrap().unmerged_leaves[k]);
        }
    }
}

/// Cutting nodes off the end leaves the unmerged leaves in their parents'
/// subtrees.
pub proof fn lemma_take_keeps_unmerged(nodes: Seq<NodeView>, n: int)
    requires
        spec_unmerged_ok(nodes),
        0 <= n <= nodes.len(),
    ensures
        spec_unmerged_ok(nodes.take(n)),
{
    let cut = nodes.take(n);
    assert forall|p: int, k: int|
        0 <= p < cut.len() && cut[p].node.is_some() && 0 <= k
            < cut[p].node.unwrap().unmerged_leaves.len() implies spec_covers(
        p as nat,
        (#[trigger] cut[p].node.unwrap().unmerged_leaves[k]) as nat,
    ) && cut[p].node.unwrap().unmerged_leaves[k] % 2 == 0 by {
        assert(cut[p] == nodes[p]);
        assert(nodes[p].node.unwrap().unmerged_leaves[k] == cut[p].node.unwrap().unmerged_leaves[k]);
    }
}

/// Putting keys on a path leaves the unmerged leaves in their parents'
/// subtrees: a node that gets a key notes no leaf.
pub proof fn lemma_merge_keeps_unmerged(nodes: Seq<NodeView>, keys: Seq<Seq<u8>>, path: Seq<nat>)
    requires
        spec_unmerged_ok(nodes),
        forall|i: int| 0 <= i < path.len() ==> (#[trigger] path[i]) < nodes.len(),
    ensures
        spec_unmerged_ok(spec_merge(nodes, keys, path)),
        spec_merge(nodes, keys, path).len() == nodes.len(),
    decreases path.len(),
{
    if path.len() == 0 || keys.len() != path.len() {
    } else {
        assert forall|i: int| 0 <= i < path.drop_last().len() implies (
        #[trigger] path.drop_last()[i]) < nodes.len() by {
            assert(path.drop_last()[i] == path[i]);
        }
        lemma_merge_keeps_unmerged(nodes, keys.drop_last(), path.drop_last());
        let before = spec_merge(nodes, keys.drop_last(), path.drop_last());
        let after = spec_merge(nodes, keys, path);
        let d = path.last() as int;
        assert(path[path.len() - 1] < nodes.len());
        assert forall|p: int, k: int|
            0 <= p < after.len() && after[p].node.is_some() && 0 <= k
                < after[p].node.unwrap().unmerged_leaves.len() implies spec_covers(
            p as nat,
            (#[trigger] after[p].node.unwrap().unmerged_leaves[k]) as nat,
        ) && after[p].node.unwrap().unmerged_leaves[k] % 2 == 0 by {
            if p != d {
                assert(after[p] == before[p]);
                assert(before[p].node.unwrap().unmerged_leaves[k] == after[p].node.unwrap().unmerged_leaves[k]);
            }
        }
    }
}

/// Updates keep the shape of the tree and leave the unmerged leaves in
/// their parents' subtrees.
pub proof fn lemma_updates_keep_unmerged(
    acc: Applied,
    ids: Seq<Seq<u8>>,
    queue: Seq<QueueEntry>,
    pending: Seq<KeyPackageBundleView>,
)
    requires
        spec_shape_ok(acc.tree.nodes),
        spec_unmerged_ok(acc.tree.nodes),
        spec_apply_updates(acc, ids, queue, pending).is_ok(),
    ensures
        spec_shape_ok(spec_apply_updates(acc, ids, queue, pending).unwrap().tree.nodes),
        spec_unmerged_ok(spec_apply_updates(acc, ids, queue, pending).unwrap().tree.nodes),
    decreases ids.len(),
{
    if ids.len() > 0 {
        lemma_updates_keep_unmerged(acc, ids.drop_last(), queue, pending);
        let before = spec_apply_updates(acc, ids.drop_last(), queue, pending).unwrap();
        let after = spec_apply_updates(acc, ids, queue, pending).unwrap();
        let i = crate::messages::proposals::spec_queue_position(queue, ids.last().take(32)).unwrap();
        match queue[i].queued.proposal {
            crate::messages::proposals::ProposalView::Update(kp) => {
                let x = (2 * queue[i].queued.sender.sender.0) as nat;
                lemma_blank_keeps_unmerged(before.tree.nodes, x);
                lemma_set_leaf_keeps_unmerged(spec_blank_member(before.tree.nodes, x), x, kp);
                assert(after.tree.nodes == spec_set_leaf(
                    spec_blank_member(before.tree.nodes, x),
                    x,
                    kp,
                ));
            },
            _ => {},
        }
    }
}

/// Removals keep the shape of the tree and leave the unmerged leaves in
/// their parents' subtrees.
pub proof fn lemma_removes_keep_unmerged(acc: Applied, ids: Seq<Seq<u8>>, queue: Seq<QueueEntry>)
    requires
        spec_shape_ok(acc.tree.nodes),
        spec_unmerged_ok(acc.tree.nodes),
        spec_apply_removes(acc, ids, queue).is_ok(),
    ensures
        spec_shape_ok(spec_apply_removes(acc, ids, queue).unwrap().tree.nodes),
        spec_unmerged_ok(spec_apply_removes(acc, ids, queue).unwrap().tree.nodes),
    decreases ids.len(),
{
    if ids.len() > 0 {
        lemma_removes_keep_unmerged(acc, ids.drop_last(), queue);
        let before = spec_apply_removes(acc, ids.drop_last(), queue).unwrap();
        let i = crate::messages::proposals::spec_queue_position(queue, ids.last().take(32)).unwrap();
        match queue[i].queued.proposal {
            crate::messages::proposals::ProposalView::Remove(removed) => {
                let x = (2 * removed) as nat;
                lemma_blank_keeps_unmerged(before.tree.nodes, x);
            },
            _ => {},
        }
    }
}

/// A commit keeps the tree in order: where the proposals of a commit are
/// applied to a tree that has the shape of a tree and whose unmerged
/// leaves lie in their parents' subtrees, the tree after the commit has
/// the shape of a tree, and its unmerged leaves lie in their parents'
/// subtrees.
pub proof fn lemma_commit_keeps_tree_in_order(
    state: TreeView,
    updates: Seq<Seq<u8>>,
    removes: Seq<Seq<u8>>,
    adds: Seq<Seq<u8>>,
    queue: Seq<QueueEntry>,
    pending: Seq<KeyPackageBundleView>,
)
    requires
        spec_shape_ok(state.nodes),
        spec_unmerged_ok(state.nodes),
        spec_apply_proposals(state, updates, removes, adds, queue, pending).is_ok(),
    ensures
        spec_shape_ok(
            spec_apply_proposals(state, updates, removes, adds, queue, pending).unwrap().tree.nodes,
        ),
        spec_unmerged_ok(
            spec_apply_proposals(state, updates, removes, adds, queue, pending).unwrap().tree.nodes,
        ),
{
    lemma_updates_keep_unmerged(spec_start(state), updates, queue, pending);
    let updated = spec_apply_updates(spec_start(state), updates, queue, pending).unwrap();
    lemma_removes_keep_unmerged(spec_start(updated.tree), removes, queue);
    let removed = spec_apply_removes(spec_start(updated.tree), removes, queue).unwrap();
    let nodes = removed.tree.nodes;
    let kps = spec_lookup_adds(queue, adds).unwrap();
    let free = spec_free_leaves(nodes);
    assert forall|i: int| 0 <= i < free.len() implies (#[trigger] free[i]) < nodes.len() && free[i]
        % 2 == 0 by {
        lemma_free_leaves_are_leaves(nodes, spec_leaf_count(nodes.len()), i);
    }
    if kps.len() == 0 {
    } else if kps.len() <= free.len() {
        lemma_fill_keeps_unmerged(nodes, free, kps);
        let filled = spec_fill_free(nodes, free, kps);
        crate::tree::ratchet_tree::lemma_last_occupied(filled);
        lemma_take_keeps_unmerged(filled, spec_trimmed_len(filled));
        lemma_trim_keeps_shape(filled);
    } else {
        lemma_fill_keeps_unmerged(nodes, free, kps.take(free.len() as int));
        let filled = spec_fill_free(nodes, free, kps.take(free.len() as int));
        lemma_append_leaves(filled, kps.skip(free.len() as int));
        lemma_append_keeps_unmerged(filled, kps.skip(free.len() as int));
        let grown = spec_append_leaves(filled, kps.skip(free.len() as int));
        crate::tree::ratchet_tree::lemma_last_occupied(grown);
        lemma_take_keeps_unmerged(grown, spec_trimmed_len(grown));
        lemma_trim_keeps_shape(grown);
    }
}

/// Cutting the blank nodes off the end of a tree leaves a tree.
pub proof fn lemma_trim_keeps_shape(nodes: Seq<NodeView>)
    requires
        spec_shape_ok(nodes),
    ensures
        0 <= spec_trimmed_len(nodes) <= nodes.len(),
        spec_shape_ok(nodes.take(spec_trimmed_len(nodes))),
{
    crate::tree::ratchet_tree::lemma_last_occupied(nodes);
}

} // verus!
