use maelstrom::ciphersuite::{
    Ciphersuite, CiphersuiteName, HPKEKeyPair, HPKEPrivateKey, HPKEPublicKey, HpkeCiphertext,
    SignaturePublicKey,
};
use maelstrom::creds::Credential;
use maelstrom::extensions::ParentHashExtension;
use maelstrom::key_packages::{KeyPackage, KeyPackageBundle};
use maelstrom::messages::proposals::{
    AddProposal, Proposal, ProposalID, ProposalIDList, ProposalQueue, QueuedProposal,
    RemoveProposal, UpdateProposal,
};
use maelstrom::tree::apply::TreeError;
use maelstrom::tree::hashes::{LeafNodeHashInput, ParentNodeHashInput};
use maelstrom::tree::index::{LeafIndex, NodeIndex};
use maelstrom::tree::node::{Node, NodeType, ParentNode};
use maelstrom::tree::paths::{DirectPath, DirectPathNode};
use maelstrom::tree::ratchet_tree::{OwnLeaf, PathKeypairs, RatchetTree};

const SUITE: CiphersuiteName = CiphersuiteName::MLS10_128_DHKEMX25519_AES128GCM_SHA256_Ed25519;

fn suite() -> Ciphersuite {
    Ciphersuite::new(SUITE)
}

fn key_package(name: u8) -> KeyPackage {
    let credential = Credential::new(vec![name], SUITE, SignaturePublicKey::new(vec![name; 4]));
    KeyPackage::new(SUITE, HPKEPublicKey::new(vec![name, name]), credential, vec![])
}

fn bundle(name: u8) -> KeyPackageBundle {
    KeyPackageBundle::from_values(key_package(name), HPKEPrivateKey::new(vec![name; 3]))
}

fn keypair(name: u8) -> HPKEKeyPair {
    HPKEKeyPair::new(
        HPKEPrivateKey::new(vec![name, 0]),
        HPKEPublicKey::new(vec![name, 1]),
    )
}

fn id(n: u8) -> ProposalID {
    ProposalID::from_proposal(&[n; 32]).unwrap()
}

fn add(name: u8) -> Proposal {
    Proposal::Add(AddProposal { key_package: key_package(name) })
}

fn queue_of(entries: Vec<(u8, u32, Proposal)>) -> ProposalQueue {
    let mut queue = ProposalQueue::new();
    for (n, sender, proposal) in entries {
        queue.add(QueuedProposal::new(proposal, LeafIndex(sender), None), id(n));
    }
    queue
}

fn list(updates: &[u8], removes: &[u8], adds: &[u8]) -> ProposalIDList {
    ProposalIDList {
        updates: updates.iter().map(|n| id(*n)).collect(),
        removes: removes.iter().map(|n| id(*n)).collect(),
        adds: adds.iter().map(|n| id(*n)).collect(),
    }
}

fn names(tree: &RatchetTree) -> Vec<Option<u8>> {
    tree.nodes
        .iter()
        .map(|n| n.key_package.as_ref().map(|kp| kp.credential.identity[0]))
        .collect()
}

fn shape_holds(tree: &RatchetTree) -> bool {
    tree.nodes.len() % 2 == 1
        && tree.nodes.iter().enumerate().all(|(i, n)| {
            if i % 2 == 0 {
                n.node_type == NodeType::Leaf && n.node.is_none()
            } else {
                n.node_type == NodeType::Parent && n.key_package.is_none()
            }
        })
}

/// A tree of the founder `1` to which the members named are added.
fn tree_of(members: &[u8]) -> RatchetTree {
    let mut tree = RatchetTree::new(suite(), bundle(1));
    if !members.is_empty() {
        let queue = queue_of(members.iter().map(|m| (*m, 0, add(*m))).collect());
        tree.apply_proposals(&list(&[], &[], members), queue, vec![])
            .unwrap();
    }
    tree
}

fn indices(v: Vec<NodeIndex>) -> Vec<u32> {
    v.iter().map(|i| i.as_u32()).collect()
}

#[test]
fn the_founder_alone() {
    let tree = RatchetTree::new(suite(), bundle(1));
    assert_eq!(tree.nodes.len(), 1);
    assert_eq!(names(&tree), vec![Some(1)]);
    assert_eq!(tree.get_own_index(), NodeIndex(0));
    assert_eq!(tree.tree_size(), NodeIndex(1));
    assert_eq!(tree.leaf_count(), LeafIndex(1));
    assert!(tree.own_leaf.path_keypairs.get(NodeIndex(0)).is_none());
    assert!(shape_holds(&tree));
    assert!(RatchetTree::check_shape(&tree.nodes));
}

#[test]
fn founder_adds_one_member() {
    let mut tree = RatchetTree::new(suite(), bundle(1));
    let queue = queue_of(vec![(10, 0, add(2))]);
    let (changes, invited, self_removed) = tree
        .apply_proposals(&list(&[], &[], &[10]), queue, vec![])
        .unwrap();
    assert_eq!(tree.nodes.len(), 3);
    assert_eq!(names(&tree), vec![Some(1), None, Some(2)]);
    assert!(tree.nodes[1].is_blank());
    assert_eq!(tree.nodes[1].node_type, NodeType::Parent);
    assert_eq!(tree.nodes[2].node_type, NodeType::Leaf);
    assert!(!self_removed);
    assert_eq!(invited.len(), 1);
    assert_eq!(invited[0].0, NodeIndex(2));
    assert!(invited[0].1.key_package == key_package(2));
    assert!(changes.updates.is_empty());
    assert!(changes.removes.is_empty());
    assert_eq!(changes.adds.len(), 1);
    assert_eq!(changes.adds[0].identity, vec![2]);
    assert!(shape_holds(&tree));
}

#[test]
fn many_members_are_added_in_the_order_of_the_commit() {
    let members: Vec<u8> = (2..=40).collect();
    let tree = tree_of(&members);
    assert_eq!(tree.nodes.len(), 79);
    for (k, member) in members.iter().enumerate() {
        assert_eq!(names(&tree)[2 * (k + 1)], Some(*member));
    }
    assert!(shape_holds(&tree));
}

#[test]
fn bulk_add_beyond_capacity() {
    let mut tree = tree_of(&[2, 3]);
    assert_eq!(tree.nodes.len(), 5);
    let queue = queue_of(vec![(20, 0, Proposal::Remove(RemoveProposal { removed: 2 }))]);
    let (changes, _, self_removed) = tree
        .apply_proposals(&list(&[], &[20], &[]), queue, vec![])
        .unwrap();
    assert!(!self_removed);
    assert_eq!(changes.removes.len(), 1);
    assert_eq!(changes.removes[0].identity, vec![3]);
    assert_eq!(names(&tree), vec![Some(1), None, Some(2), None, None]);
    tree.merge_keypairs(&[keypair(9)], &[NodeIndex(3)]);
    assert!(!tree.nodes[3].is_blank());
    let adds: Vec<u8> = vec![4, 5, 6, 7, 8];
    let queue = queue_of(adds.iter().map(|m| (*m, 0, add(*m))).collect());
    let (changes, invited, _) = tree
        .apply_proposals(&list(&[], &[], &adds), queue, vec![])
        .unwrap();
    assert_eq!(tree.nodes.len(), 13);
    assert_eq!(
        names(&tree),
        vec![
            Some(1),
            None,
            Some(2),
            None,
            Some(4),
            None,
            Some(5),
            None,
            Some(6),
            None,
            Some(7),
            None,
            Some(8)
        ]
    );
    assert_eq!(
        invited.iter().map(|(i, _)| i.as_u32()).collect::<Vec<u32>>(),
        vec![4, 6, 8, 10, 12]
    );
    assert_eq!(
        changes.adds.iter().map(|c| c.identity[0]).collect::<Vec<u8>>(),
        adds
    );
    assert_eq!(
        tree.nodes[3].node.as_ref().unwrap().get_unmerged_leaves(),
        &[4u32][..]
    );
    assert!(tree.nodes[5].is_blank());
    assert!(shape_holds(&tree));
}

#[test]
fn a_member_that_is_removed_learns_it() {
    let shown = tree_of(&[2, 3]).public_key_tree();
    let mut tree =
        RatchetTree::new_from_nodes(suite(), bundle(2), &shown, &[keypair(6), keypair(7)]).unwrap();
    assert_eq!(tree.get_own_index(), NodeIndex(2));
    let queue = queue_of(vec![(20, 0, Proposal::Remove(RemoveProposal { removed: 1 }))]);
    let (changes, invited, self_removed) = tree
        .apply_proposals(&list(&[], &[20], &[]), queue, vec![])
        .unwrap();
    assert!(self_removed);
    assert!(invited.is_empty());
    assert_eq!(changes.removes[0].identity, vec![2]);
    assert!(tree.nodes[2].is_blank());
    assert_eq!(names(&tree), vec![Some(1), None, None, None, Some(3)]);
    let mut other =
        RatchetTree::new_from_nodes(suite(), bundle(3), &shown, &[keypair(7)]).unwrap();
    let queue = queue_of(vec![(20, 0, Proposal::Remove(RemoveProposal { removed: 1 }))]);
    let (_, _, removed) = other
        .apply_proposals(&list(&[], &[20], &[]), queue, vec![])
        .unwrap();
    assert!(!removed);
    assert_eq!(names(&other), names(&tree));
    assert!(other.own_leaf.path_keypairs.get(NodeIndex(3)).is_some());
}

#[test]
fn an_update_blanks_the_path_and_replaces_the_leaf() {
    let mut tree = tree_of(&[2, 3, 4]);
    tree.merge_keypairs(&[keypair(1), keypair(2), keypair(3)], &[NodeIndex(1), NodeIndex(3), NodeIndex(5)]);
    let queue = queue_of(vec![(
        30,
        1,
        Proposal::Update(UpdateProposal { key_package: key_package(22) }),
    )]);
    let (changes, _, _) = tree
        .apply_proposals(&list(&[30], &[], &[]), queue, vec![])
        .unwrap();
    assert_eq!(changes.updates.len(), 1);
    assert_eq!(changes.updates[0].identity, vec![22]);
    assert_eq!(
        names(&tree),
        vec![Some(1), None, Some(22), None, Some(3), None, Some(4)]
    );
    assert!(tree.nodes[1].is_blank());
    assert!(tree.nodes[3].is_blank());
    assert!(!tree.nodes[5].is_blank());
    assert!(tree.own_leaf.kpb.key_package == key_package(1));
}

#[test]
fn an_own_update_takes_the_pending_bundle() {
    let mut tree = tree_of(&[2]);
    tree.own_leaf.path_keypairs.add(&[keypair(5)], &[NodeIndex(1)]);
    let queue = queue_of(vec![(
        30,
        0,
        Proposal::Update(UpdateProposal { key_package: key_package(11) }),
    )]);
    tree.apply_proposals(&list(&[30], &[], &[]), queue, vec![bundle(12), bundle(11)])
        .unwrap();
    assert!(tree.own_leaf.kpb.key_package == key_package(11));
    assert_eq!(tree.own_leaf.kpb.private_key.as_slice(), &[11u8; 3][..]);
    assert!(tree.own_leaf.path_keypairs.get(NodeIndex(1)).is_none());
    assert_eq!(names(&tree), vec![Some(11), None, Some(2)]);
}

#[test]
fn updates_come_before_removals_and_removals_before_additions() {
    let mut tree = tree_of(&[2, 3]);
    let queue = queue_of(vec![
        (1, 0, add(7)),
        (2, 0, Proposal::Remove(RemoveProposal { removed: 1 })),
        (3, 1, Proposal::Update(UpdateProposal { key_package: key_package(22) })),
    ]);
    let (changes, invited, _) = tree
        .apply_proposals(&list(&[3], &[2], &[1]), queue, vec![])
        .unwrap();
    assert_eq!(changes.updates[0].identity, vec![22]);
    assert_eq!(changes.removes[0].identity, vec![22]);
    assert_eq!(changes.adds[0].identity, vec![7]);
    assert_eq!(invited[0].0, NodeIndex(2));
    assert_eq!(names(&tree), vec![Some(1), None, Some(7), None, Some(3)]);
}

#[test]
fn each_error_of_a_commit() {
    let attempt = |lists: ProposalIDList, queue: ProposalQueue| -> Option<TreeError> {
        tree_of(&[2]).apply_proposals(&lists, queue, vec![]).err()
    };
    assert_eq!(
        attempt(list(&[], &[], &[9]), ProposalQueue::new()),
        Some(TreeError::ProposalNotFound)
    );
    assert_eq!(
        attempt(list(&[9], &[], &[]), ProposalQueue::new()),
        Some(TreeError::ProposalNotFound)
    );
    assert_eq!(
        attempt(list(&[], &[9], &[]), ProposalQueue::new()),
        Some(TreeError::ProposalNotFound)
    );
    assert_eq!(
        attempt(list(&[1], &[], &[]), queue_of(vec![(1, 0, add(5))])),
        Some(TreeError::WrongProposalType)
    );
    assert_eq!(
        attempt(list(&[], &[1], &[]), queue_of(vec![(1, 0, add(5))])),
        Some(TreeError::WrongProposalType)
    );
    assert_eq!(
        attempt(
            list(&[], &[], &[1]),
            queue_of(vec![(1, 0, Proposal::Remove(RemoveProposal { removed: 1 }))])
        ),
        Some(TreeError::WrongProposalType)
    );
    let update = |sender: u32| {
        queue_of(vec![(
            1,
            sender,
            Proposal::Update(UpdateProposal { key_package: key_package(5) }),
        )])
    };
    assert_eq!(
        attempt(list(&[1], &[], &[]), update(2)),
        Some(TreeError::UnknownSender)
    );
    assert_eq!(
        attempt(list(&[1], &[], &[]), update(u32::MAX)),
        Some(TreeError::UnknownSender)
    );
    assert_eq!(
        attempt(list(&[1], &[], &[]), update(0)),
        Some(TreeError::MissingKeyPackageBundle)
    );
    let remove = |leaf: u32| queue_of(vec![(1, 0, Proposal::Remove(RemoveProposal { removed: leaf }))]);
    assert_eq!(attempt(list(&[], &[1], &[]), remove(2)), Some(TreeError::EmptyLeaf));
    let twice = queue_of(vec![
        (1, 0, Proposal::Remove(RemoveProposal { removed: 1 })),
        (2, 0, Proposal::Remove(RemoveProposal { removed: 1 })),
    ]);
    assert_eq!(attempt(list(&[], &[1, 2], &[]), twice), Some(TreeError::EmptyLeaf));
}

#[test]
fn blanking_a_member_blanks_its_path_and_the_root() {
    let mut tree = tree_of(&[2, 3, 4]);
    tree.merge_keypairs(&[keypair(1), keypair(2), keypair(3)], &[NodeIndex(1), NodeIndex(3), NodeIndex(5)]);
    tree.blank_member(NodeIndex(0));
    let blank: Vec<bool> = tree.nodes.iter().map(|n| n.is_blank()).collect();
    assert_eq!(blank, vec![true, true, false, true, false, false, false]);
    assert!(shape_holds(&tree));
    let mut wide = tree_of(&[2, 3, 4, 5]);
    wide.merge_keypairs(
        &[keypair(1), keypair(2), keypair(3), keypair(4)],
        &[NodeIndex(1), NodeIndex(3), NodeIndex(5), NodeIndex(7)],
    );
    wide.blank_member(NodeIndex(4));
    let blank: Vec<bool> = wide.nodes.iter().map(|n| n.is_blank()).collect();
    assert_eq!(
        blank,
        vec![false, false, false, true, true, true, false, true, false]
    );
}

#[test]
fn free_leaves_are_the_blank_leaves() {
    let mut tree = tree_of(&[2, 3, 4]);
    assert!(tree.free_leaves().is_empty());
    tree.blank_member(NodeIndex(2));
    tree.blank_member(NodeIndex(6));
    assert_eq!(indices(tree.free_leaves()), vec![2, 6]);
}

#[test]
fn additions_fill_the_lowest_free_leaves_first() {
    let mut tree = tree_of(&[2, 3, 4]);
    tree.blank_member(NodeIndex(2));
    tree.blank_member(NodeIndex(4));
    let queue = queue_of(vec![(1, 0, add(8))]);
    let (_, invited, _) = tree
        .apply_proposals(&list(&[], &[], &[1]), queue, vec![])
        .unwrap();
    assert_eq!(invited[0].0, NodeIndex(2));
    assert_eq!(
        names(&tree),
        vec![Some(1), None, Some(8), None, None, None, Some(4)]
    );
}

#[test]
fn trimming_keeps_the_shape() {
    let mut tree = tree_of(&[2, 3, 4]);
    tree.blank_member(NodeIndex(6));
    tree.blank_member(NodeIndex(4));
    tree.trim_tree();
    assert_eq!(tree.nodes.len(), 3);
    let mut tree = tree_of(&[2, 3, 4]);
    tree.blank_member(NodeIndex(6));
    tree.merge_keypairs(&[keypair(1)], &[NodeIndex(5)]);
    tree.trim_tree();
    assert_eq!(tree.nodes.len(), 7);
    assert!(shape_holds(&tree));
    let mut tree = tree_of(&[2, 3, 4]);
    tree.blank_member(NodeIndex(6));
    tree.trim_tree();
    assert_eq!(tree.nodes.len(), 5);
    let mut tree = tree_of(&[2]);
    tree.blank_member(NodeIndex(0));
    tree.blank_member(NodeIndex(2));
    tree.trim_tree();
    assert_eq!(tree.nodes.len(), 3);
}

#[test]
fn resolution_of_leaves_and_parents() {
    let mut tree = tree_of(&[2, 3, 4]);
    assert_eq!(indices(tree.resolve(NodeIndex(0))), vec![0]);
    assert_eq!(indices(tree.resolve(NodeIndex(1))), vec![0, 2]);
    assert_eq!(indices(tree.resolve(NodeIndex(3))), vec![0, 2, 4, 6]);
    tree.blank_member(NodeIndex(2));
    assert_eq!(indices(tree.resolve(NodeIndex(2))), Vec::<u32>::new());
    assert_eq!(indices(tree.resolve(NodeIndex(3))), vec![0, 4, 6]);
    tree.merge_keypairs(&[keypair(1)], &[NodeIndex(5)]);
    assert_eq!(indices(tree.resolve(NodeIndex(3))), vec![0, 5]);
    tree.add_in_place(NodeIndex(2), &key_package(9));
    assert_eq!(indices(tree.resolve(NodeIndex(3))), vec![0, 2, 5]);
    tree.merge_keypairs(&[keypair(2)], &[NodeIndex(3)]);
    assert_eq!(indices(tree.resolve(NodeIndex(3))), vec![3]);
    tree.blank_member(NodeIndex(6));
    tree.merge_keypairs(&[keypair(2), keypair(3)], &[NodeIndex(5), NodeIndex(3)]);
    tree.add_in_place(NodeIndex(6), &key_package(10));
    assert_eq!(indices(tree.resolve(NodeIndex(3))), vec![3, 6]);
    assert_eq!(indices(tree.resolve(NodeIndex(5))), vec![5, 6]);
    tree.add_in_place(NodeIndex(6), &key_package(11));
    assert_eq!(indices(tree.resolve(NodeIndex(5))), vec![5, 6]);
}

#[test]
fn resolution_in_a_tree_that_is_not_full() {
    let tree = tree_of(&[2, 3]);
    assert_eq!(indices(tree.resolve(NodeIndex(3))), vec![0, 2, 4]);
    let tree = tree_of(&[2, 3, 4, 5]);
    assert_eq!(indices(tree.resolve(NodeIndex(7))), vec![0, 2, 4, 6, 8]);
}

#[test]
fn the_tree_is_shown_without_its_blank_nodes() {
    let tree = tree_of(&[2]);
    let shown = tree.public_key_tree();
    assert_eq!(shown.len(), 3);
    assert!(shown[0].as_ref().unwrap() == &tree.nodes[0]);
    assert!(shown[1].is_none());
    assert!(shown[2].as_ref().unwrap() == &tree.nodes[2]);
}

#[test]
fn a_joiner_builds_its_tree_from_the_tree_that_is_shown() {
    let shown = tree_of(&[2, 3, 4]).public_key_tree();
    assert_eq!(RatchetTree::find_key_package(&key_package(3), &shown), Some(4));
    assert_eq!(RatchetTree::find_key_package(&key_package(9), &shown), None);
    let tree =
        RatchetTree::new_from_nodes(suite(), bundle(3), &shown, &[keypair(5), keypair(3)]).unwrap();
    assert_eq!(tree.get_own_index(), NodeIndex(4));
    assert_eq!(names(&tree), vec![Some(1), None, Some(2), None, Some(3), None, Some(4)]);
    assert!(shape_holds(&tree));
    assert_eq!(
        tree.own_leaf.path_keypairs.get(NodeIndex(5)).unwrap().get_public_key().as_slice(),
        &[5u8, 1][..]
    );
    assert_eq!(
        tree.own_leaf.path_keypairs.get(NodeIndex(3)).unwrap().get_private_key().as_slice(),
        &[3u8, 0][..]
    );
    assert!(tree.own_leaf.path_keypairs.get(NodeIndex(1)).is_none());
    assert!(tree.own_leaf.path_keypairs.get(NodeIndex(4)).is_none());
    assert!(tree.own_leaf.path_keypairs.get(NodeIndex(9)).is_none());
    assert!(RatchetTree::new_from_nodes(suite(), bundle(9), &shown, &[keypair(5), keypair(3)]).is_none());
    assert!(RatchetTree::new_from_nodes(suite(), bundle(3), &shown, &[keypair(5)]).is_none());
    let mut even = tree_of(&[2, 3, 4]).public_key_tree();
    even.pop();
    assert!(RatchetTree::new_from_nodes(suite(), bundle(3), &even, &[keypair(5), keypair(3)]).is_none());
    let mut misplaced = tree_of(&[2]).public_key_tree();
    misplaced[1] = Some(Node::new_leaf(Some(key_package(8))));
    assert!(RatchetTree::new_from_nodes(suite(), bundle(2), &misplaced, &[keypair(5)]).is_none());
    assert!(!RatchetTree::check_shape(&vec![Node::new_blank_parent_node()]));
    assert!(!RatchetTree::check_shape(&vec![]));
}

#[test]
fn path_keypairs_are_kept_by_position() {
    let mut keypairs = PathKeypairs::new();
    assert!(keypairs.get(NodeIndex(0)).is_none());
    keypairs.add(&[keypair(1), keypair(2)], &[NodeIndex(5), NodeIndex(3)]);
    assert_eq!(keypairs.get(NodeIndex(5)).unwrap().get_public_key().as_slice(), &[1u8, 1][..]);
    assert_eq!(keypairs.get(NodeIndex(3)).unwrap().get_public_key().as_slice(), &[2u8, 1][..]);
    assert!(keypairs.get(NodeIndex(4)).is_none());
    assert!(keypairs.get(NodeIndex(6)).is_none());
    keypairs.add(&[keypair(9)], &[NodeIndex(3)]);
    assert_eq!(keypairs.get(NodeIndex(3)).unwrap().get_public_key().as_slice(), &[9u8, 1][..]);
    let own = OwnLeaf::new(bundle(1), NodeIndex(2), keypairs.clone());
    assert_eq!(own.node_index, NodeIndex(2));
    assert!(own.path_keypairs.get(NodeIndex(5)).is_some());
}

fn with_parent_hash(name: u8, hash: &[u8]) -> KeyPackage {
    let mut kp = key_package(name);
    kp.add_extension(ParentHashExtension::new(hash).to_extension().unwrap());
    kp
}

#[test]
fn integrity_asks_for_exactly_one_child_that_points_to_its_parent() {
    let parent = Node {
        node_type: NodeType::Parent,
        key_package: None,
        node: Some(ParentNode::new(HPKEPublicKey::new(vec![5]), &[], &[])),
    };
    let hash = vec![0xaa; 32];
    let hashes = vec![None, Some(hash.clone()), None];
    let good = vec![
        Some(Node::new_leaf(Some(with_parent_hash(1, &hash)))),
        Some(parent.clone()),
        Some(Node::new_leaf(Some(key_package(2)))),
    ];
    assert!(RatchetTree::verify_integrity(&good, &hashes, &[true, false, true]));
    assert!(!RatchetTree::verify_integrity(&good, &hashes, &[false, false, true]));
    assert!(!RatchetTree::verify_integrity(&good, &hashes, &[true, false, false]));
    assert!(!RatchetTree::verify_integrity(&good, &[None, None, None], &[true, true, true]));
    assert!(!RatchetTree::verify_integrity(&good, &hashes, &[true, true]));
    assert!(!RatchetTree::verify_integrity(&good, &hashes[..2], &[true, true, true]));
    let other = vec![None, Some(vec![0xbb; 32]), None];
    assert!(!RatchetTree::verify_integrity(&good, &other, &[true, true, true]));
    let both = vec![
        Some(Node::new_leaf(Some(with_parent_hash(1, &hash)))),
        Some(parent.clone()),
        Some(Node::new_leaf(Some(with_parent_hash(2, &hash)))),
    ];
    assert!(!RatchetTree::verify_integrity(&both, &hashes, &[true, true, true]));
    let none = vec![
        Some(Node::new_leaf(Some(key_package(1)))),
        Some(parent.clone()),
        Some(Node::new_leaf(Some(key_package(2)))),
    ];
    assert!(!RatchetTree::verify_integrity(&none, &hashes, &[true, true, true]));
    let right_only = vec![
        None,
        Some(parent.clone()),
        Some(Node::new_leaf(Some(with_parent_hash(2, &hash)))),
    ];
    assert!(RatchetTree::verify_integrity(&right_only, &hashes, &[false, false, true]));
    let blank_parent = vec![
        Some(Node::new_leaf(Some(key_package(1)))),
        None,
        Some(Node::new_leaf(Some(key_package(2)))),
    ];
    assert!(RatchetTree::verify_integrity(&blank_parent, &[None, None, None], &[true, true, true]));
    let leaf_at_odd = vec![
        Some(Node::new_leaf(Some(key_package(1)))),
        Some(Node::new_leaf(Some(key_package(2)))),
        None,
    ];
    assert!(!RatchetTree::verify_integrity(&leaf_at_odd, &[None, None, None], &[true, true, true]));
    let parent_at_even = vec![Some(parent.clone())];
    assert!(!RatchetTree::verify_integrity(&parent_at_even, &[Some(hash.clone())], &[true]));
    let parent_without_right = vec![
        Some(Node::new_leaf(Some(with_parent_hash(1, &hash)))),
        Some(parent),
    ];
    assert!(!RatchetTree::verify_integrity(&parent_without_right, &hashes[..2], &[true, true]));
    assert!(RatchetTree::verify_integrity(&[], &[], &[]));
}

#[test]
fn integrity_follows_the_chain_through_parents() {
    let root_hash = vec![1; 32];
    let left_hash = vec![2; 32];
    let node = |key: u8, parent_hash: &[u8]| {
        Some(Node {
            node_type: NodeType::Parent,
            key_package: None,
            node: Some(ParentNode::new(HPKEPublicKey::new(vec![key]), &[], parent_hash)),
        })
    };
    let shown = vec![
        Some(Node::new_leaf(Some(with_parent_hash(1, &left_hash)))),
        node(11, &root_hash),
        Some(Node::new_leaf(Some(key_package(2)))),
        node(13, &[]),
        Some(Node::new_leaf(Some(key_package(3)))),
        None,
        Some(Node::new_leaf(Some(key_package(4)))),
    ];
    let hashes = vec![
        None,
        Some(left_hash.clone()),
        None,
        Some(root_hash.clone()),
        None,
        None,
        None,
    ];
    assert!(RatchetTree::verify_integrity(&shown, &hashes, &[true; 7]));
    let mut wrong = hashes.clone();
    wrong[3] = Some(left_hash);
    assert!(!RatchetTree::verify_integrity(&shown, &wrong, &[true; 7]));
}

#[test]
fn hash_inputs_are_written_byte_for_byte() {
    let expected_key_package = vec![
        0, 0, 1, 0, 2, 1, 1, 0, 0, 1, 1, 0, 1, 0, 4, 1, 1, 1, 1, 0, 0, 0, 0,
    ];
    let tree = tree_of(&[2]);
    let mut expected = vec![0, 0, 0, 0, 1];
    expected.extend(expected_key_package.clone());
    assert_eq!(tree.tree_hash_input(NodeIndex(0), &[None, None, None]), Ok(expected.clone()));
    let index = NodeIndex(0);
    let package = Some(key_package(1));
    assert_eq!(LeafNodeHashInput::new(&index, &package).encode_detached(), Ok(expected));
    let index = NodeIndex(6);
    assert_eq!(
        LeafNodeHashInput::new(&index, &None).encode_detached(),
        Ok(vec![0, 0, 0, 6, 0])
    );
    assert_eq!(
        tree.tree_hash_input(NodeIndex(1), &[Some(vec![7, 7]), None, None]),
        Err(TreeError::MissingDigest)
    );
    assert_eq!(
        tree.tree_hash_input(NodeIndex(1), &[None, None, Some(vec![7, 7])]),
        Err(TreeError::MissingDigest)
    );
    assert_eq!(
        tree.tree_hash_input(NodeIndex(1), &[Some(vec![7, 7]), None, Some(vec![8])]),
        Ok(vec![0, 0, 0, 1, 0, 2, 7, 7, 1, 8])
    );
    assert_eq!(
        tree.tree_hash_input(NodeIndex(1), &[Some(vec![7; 256]), None, Some(vec![8])]),
        Err(TreeError::EncodingError)
    );
    let parent = Some(ParentNode::new(HPKEPublicKey::new(vec![5, 6]), &[2, 4], &[9]));
    assert_eq!(
        ParentNodeHashInput::new(3, &parent, &[7], &[8, 8]).encode_detached(),
        Ok(vec![
            0, 0, 0, 3, 1, 0, 2, 5, 6, 0, 0, 0, 8, 0, 0, 0, 2, 0, 0, 0, 4, 1, 9, 1, 7, 2, 8, 8
        ])
    );
    assert_eq!(indices(tree.tree_hash_level(0)), vec![0, 2]);
    assert_eq!(indices(tree.tree_hash_level(1)), vec![1]);
    assert_eq!(indices(tree.tree_hash_level(2)), Vec::<u32>::new());
}

// Stands in for the hash of the caller.
fn digest(bytes: &[u8]) -> Vec<u8> {
    let mut state = [0x9eu8; 8];
    for (i, b) in bytes.iter().enumerate() {
        state[i % 8] = state[i % 8].rotate_left(3) ^ b.wrapping_add(i as u8);
    }
    state.to_vec()
}

fn tree_hash(tree: &RatchetTree) -> Vec<u8> {
    let mut digests: Vec<Option<Vec<u8>>> = vec![None; tree.nodes.len()];
    for level in 0..=32 {
        for index in tree.tree_hash_level(level) {
            let input = tree.tree_hash_input(index, &digests).unwrap();
            digests[index.as_usize()] = Some(digest(&input));
        }
    }
    let root = maelstrom::tree::treemath::root(tree.leaf_count());
    digests[root.as_usize()].clone().unwrap()
}

fn tree_hash_by_recursion(tree: &RatchetTree, index: NodeIndex) -> Vec<u8> {
    let node = &tree.nodes[index.as_usize()];
    if index.is_leaf() {
        digest(&LeafNodeHashInput::new(&index, &node.key_package).encode_detached().unwrap())
    } else {
        let left = tree_hash_by_recursion(tree, maelstrom::tree::treemath::left(index));
        let right = tree_hash_by_recursion(
            tree,
            maelstrom::tree::treemath::right(index, tree.leaf_count()),
        );
        digest(
            &ParentNodeHashInput::new(index.as_u32(), &node.node, &left, &right)
                .encode_detached()
                .unwrap(),
        )
    }
}

#[test]
fn hashing_level_by_level_gives_the_hash_of_the_tree() {
    for members in [vec![], vec![2], vec![2, 3], vec![2, 3, 4, 5, 6], vec![2, 3, 4, 5, 6, 7, 8]] {
        let mut tree = tree_of(&members);
        if tree.nodes.len() > 1 {
            tree.merge_keypairs(&[keypair(1)], &[NodeIndex(1)]);
        }
        let root = maelstrom::tree::treemath::root(tree.leaf_count());
        assert_eq!(tree_hash(&tree), tree_hash_by_recursion(&tree, root));
    }
    assert_ne!(tree_hash(&tree_of(&[2])), tree_hash(&tree_of(&[3])));
}

#[test]
fn the_chain_of_parent_hashes_runs_from_the_root_down() {
    let mut tree = tree_of(&[2, 3, 4]);
    assert_eq!(tree.root_hash_input(), Err(TreeError::MissingPublicKey));
    tree.merge_keypairs(&[keypair(1), keypair(3)], &[NodeIndex(1), NodeIndex(3)]);
    let root_input = tree.root_hash_input().unwrap();
    assert_eq!(root_input, vec![0, 2, 3, 1, 0, 0, 0, 0, 0]);
    let root_hash = digest(&root_input);
    let input = tree.compute_parent_hash(NodeIndex(1), &root_hash).unwrap().unwrap();
    let mut expected = vec![0, 2, 1, 1, 0, 0, 0, 0, 8];
    expected.extend(root_hash.clone());
    assert_eq!(input, expected);
    assert_eq!(tree.nodes[1].node.as_ref().unwrap().get_parent_hash(), &root_hash[..]);
    assert_eq!(tree.nodes[1].parent_hash(), Some(root_hash.clone()));
    assert_eq!(tree.compute_parent_hash(NodeIndex(5), &root_hash), Ok(None));
    assert!(tree.nodes[5].is_blank());
    assert_eq!(
        tree.compute_parent_hash(NodeIndex(1), &[0; 256]),
        Err(TreeError::EncodingError)
    );
    assert_eq!(tree.nodes[1].node.as_ref().unwrap().get_parent_hash(), &root_hash[..]);
    assert_eq!(tree.compute_parent_hash(NodeIndex(0), &root_hash), Ok(None));
}

fn ciphertext(n: u8) -> HpkeCiphertext {
    HpkeCiphertext::new(vec![n], vec![n, n])
}

#[test]
fn a_committer_encrypts_to_the_resolution_of_its_copath() {
    let mut tree = tree_of(&[2, 3, 4]);
    tree.merge_keypairs(&[keypair(7)], &[NodeIndex(5)]);
    let recipients = tree.copath_resolutions().unwrap();
    assert_eq!(recipients.len(), 2);
    assert_eq!(recipients[0].len(), 1);
    assert_eq!(recipients[0][0].as_slice(), &[2u8, 2][..]);
    assert_eq!(recipients[1].len(), 1);
    assert_eq!(recipients[1][0].as_slice(), &[7u8, 1][..]);
    tree.blank_member(NodeIndex(6));
    let recipients = tree.copath_resolutions().unwrap();
    assert_eq!(recipients[1].len(), 1);
    assert_eq!(recipients[1][0].as_slice(), &[3u8, 3][..]);
    let path = tree
        .encrypt_to_copath(
            &[keypair(11), keypair(13)],
            vec![vec![ciphertext(1)], vec![ciphertext(2)]],
            key_package(21),
        )
        .unwrap();
    assert!(path.leaf_key_package == key_package(21));
    assert_eq!(path.nodes.len(), 2);
    assert_eq!(path.nodes[0].public_key.as_slice(), &[11u8, 1][..]);
    assert!(path.nodes[0].encrypted_path_secret[0] == ciphertext(1));
    assert_eq!(path.nodes[1].public_key.as_slice(), &[13u8, 1][..]);
    assert!(path.nodes[1].encrypted_path_secret[0] == ciphertext(2));
    assert_eq!(
        tree.encrypt_to_copath(&[keypair(11)], vec![vec![ciphertext(1)], vec![ciphertext(2)]], key_package(21))
            .err(),
        Some(TreeError::WrongPathLength)
    );
    assert_eq!(
        tree.encrypt_to_copath(&[keypair(11), keypair(13)], vec![vec![ciphertext(1)]], key_package(21))
            .err(),
        Some(TreeError::WrongPathLength)
    );
    assert_eq!(
        tree.encrypt_to_copath(
            &[keypair(11), keypair(13)],
            vec![vec![ciphertext(1)], vec![]],
            key_package(21)
        )
        .err(),
        Some(TreeError::WrongPathLength)
    );
    tree.nodes[5].node = Some(ParentNode::new(HPKEPublicKey::new(vec![1]), &[40], &[]));
    assert_eq!(tree.copath_resolutions().err(), Some(TreeError::MissingPublicKey));
}

#[test]
fn a_member_updates_its_own_leaf() {
    let mut tree = tree_of(&[2, 3, 4]);
    assert_eq!(
        tree.update_own_leaf(bundle(11), &[keypair(1)]),
        Err(TreeError::WrongPathLength)
    );
    assert_eq!(names(&tree)[0], Some(1));
    tree.merge_keypairs(&[keypair(1), keypair(3)], &[NodeIndex(1), NodeIndex(3)]);
    assert_eq!(tree.update_own_leaf(bundle(11), &[keypair(1), keypair(3)]), Ok(()));
    assert_eq!(names(&tree)[0], Some(11));
    assert!(tree.own_leaf.kpb.key_package == key_package(11));
    assert_eq!(tree.own_leaf.node_index, NodeIndex(0));
    assert_eq!(
        tree.own_leaf.path_keypairs.get(NodeIndex(1)).unwrap().get_private_key().as_slice(),
        &[1u8, 0][..]
    );
    assert_eq!(
        tree.own_leaf.path_keypairs.get(NodeIndex(3)).unwrap().get_private_key().as_slice(),
        &[3u8, 0][..]
    );
    assert_eq!(tree.nodes[1].get_public_hpke_key().unwrap().as_slice(), &[1u8, 1][..]);
    assert_eq!(tree.nodes[3].get_public_hpke_key().unwrap().as_slice(), &[3u8, 1][..]);
}

fn path_of(leaf: u8, keys: &[u8], ciphertexts: Vec<Vec<HpkeCiphertext>>) -> DirectPath {
    DirectPath {
        leaf_key_package: key_package(leaf),
        nodes: keys
            .iter()
            .zip(ciphertexts)
            .map(|(k, c)| DirectPathNode {
                public_key: HPKEPublicKey::new(vec![*k, 1]),
                encrypted_path_secret: c,
            })
            .collect(),
    }
}

#[test]
fn a_member_takes_its_secret_out_of_a_direct_path() {
    let mut tree = tree_of(&[2]);
    let path = path_of(22, &[9], vec![vec![ciphertext(4)]]);
    let plan = tree.direct_path_decryption(LeafIndex(1), &path).unwrap();
    assert!(plan.ciphertext == ciphertext(4));
    assert_eq!(plan.private_key.as_slice(), &[1u8; 3][..]);
    assert_eq!(indices(plan.common_path.clone()), vec![1]);
    assert_eq!(plan.sender_path_offset, 0);
    assert_eq!(
        tree.update_direct_path(LeafIndex(1), &path, &[keypair(8)]),
        Err(TreeError::InvalidCommit)
    );
    assert_eq!(names(&tree), vec![Some(1), None, Some(2)]);
    assert!(tree.nodes[1].is_blank());
    assert_eq!(tree.update_direct_path(LeafIndex(1), &path, &[keypair(9)]), Ok(()));
    assert_eq!(names(&tree), vec![Some(1), None, Some(22)]);
    assert_eq!(tree.nodes[1].get_public_hpke_key().unwrap().as_slice(), &[9u8, 1][..]);
    assert_eq!(
        tree.own_leaf.path_keypairs.get(NodeIndex(1)).unwrap().get_private_key().as_slice(),
        &[9u8, 0][..]
    );
}

#[test]
fn a_member_below_a_parent_opens_with_the_key_of_the_parent() {
    let shown = {
        let mut tree = tree_of(&[2, 3, 4]);
        tree.merge_keypairs(&[keypair(5)], &[NodeIndex(5)]);
        tree.public_key_tree()
    };
    let mut tree =
        RatchetTree::new_from_nodes(suite(), bundle(3), &shown, &[keypair(5), keypair(3)]).unwrap();
    let path = path_of(11, &[6, 7], vec![vec![ciphertext(1)], vec![ciphertext(2)]]);
    let plan = tree.direct_path_decryption(LeafIndex(0), &path).unwrap();
    assert!(plan.ciphertext == ciphertext(2));
    assert_eq!(plan.private_key.as_slice(), &[5u8, 0][..]);
    assert_eq!(indices(plan.common_path.clone()), vec![3]);
    assert_eq!(plan.sender_path_offset, 1);
    assert_eq!(tree.update_direct_path(LeafIndex(0), &path, &[keypair(7)]), Ok(()));
    assert_eq!(tree.nodes[1].get_public_hpke_key().unwrap().as_slice(), &[6u8, 1][..]);
    assert_eq!(tree.nodes[3].get_public_hpke_key().unwrap().as_slice(), &[7u8, 1][..]);
    assert_eq!(names(&tree)[0], Some(11));
    assert_eq!(
        tree.own_leaf.path_keypairs.get(NodeIndex(3)).unwrap().get_private_key().as_slice(),
        &[7u8, 0][..]
    );
    assert_eq!(
        tree.own_leaf.path_keypairs.get(NodeIndex(5)).unwrap().get_private_key().as_slice(),
        &[5u8, 0][..]
    );
}

#[test]
fn each_error_of_a_direct_path() {
    let tree = tree_of(&[2, 3, 4]);
    let path = path_of(11, &[6, 7], vec![vec![ciphertext(1)], vec![ciphertext(2)]]);
    assert_eq!(
        tree.direct_path_decryption(LeafIndex(4), &path).err(),
        Some(TreeError::UnknownSender)
    );
    assert_eq!(
        tree.direct_path_decryption(LeafIndex(0), &path).err(),
        Some(TreeError::InvalidCommit)
    );
    let short = path_of(11, &[6], vec![vec![ciphertext(1)]]);
    assert_eq!(
        tree.direct_path_decryption(LeafIndex(2), &short).err(),
        Some(TreeError::WrongPathLength)
    );
    let no_ciphertext = path_of(11, &[6, 7], vec![vec![], vec![]]);
    assert_eq!(
        tree.direct_path_decryption(LeafIndex(2), &no_ciphertext).err(),
        Some(TreeError::WrongPathLength)
    );
    let mut with_parent = tree_of(&[2, 3, 4]);
    with_parent.merge_keypairs(&[keypair(5)], &[NodeIndex(1)]);
    assert_eq!(
        with_parent.direct_path_decryption(LeafIndex(2), &path).err(),
        Some(TreeError::MissingPrivateKey)
    );
    let mut blanked = tree_of(&[2, 3, 4]);
    blanked.blank_member(NodeIndex(0));
    blanked.blank_member(NodeIndex(2));
    assert_eq!(
        blanked.direct_path_decryption(LeafIndex(2), &path).err(),
        Some(TreeError::InvalidCommit)
    );
    let mut tree = tree_of(&[2, 3, 4]);
    assert_eq!(
        tree.update_direct_path(LeafIndex(9), &path, &[keypair(7)]),
        Err(TreeError::UnknownSender)
    );
    assert_eq!(
        tree.update_direct_path(LeafIndex(2), &short, &[keypair(7)]),
        Err(TreeError::WrongPathLength)
    );
    assert_eq!(
        tree.update_direct_path(LeafIndex(2), &path, &[keypair(6), keypair(7)]),
        Err(TreeError::WrongPathLength)
    );
    assert_eq!(
        tree.update_direct_path(LeafIndex(2), &path, &[keypair(6)]),
        Err(TreeError::InvalidCommit)
    );
    assert_eq!(tree.update_direct_path(LeafIndex(2), &path, &[keypair(7)]), Ok(()));
}

#[test]
fn members_agree_on_a_commit() {
    let shown = tree_of(&[2, 3, 4]).public_key_tree();
    let commit = || {
        (
            list(&[3], &[2], &[1, 4]),
            queue_of(vec![
                (1, 0, add(7)),
                (2, 0, Proposal::Remove(RemoveProposal { removed: 3 })),
                (3, 1, Proposal::Update(UpdateProposal { key_package: key_package(22) })),
                (4, 0, add(8)),
            ]),
        )
    };
    let mut first = tree_of(&[2, 3, 4]);
    let (lists, queue) = commit();
    first.apply_proposals(&lists, queue, vec![]).unwrap();
    let mut third =
        RatchetTree::new_from_nodes(suite(), bundle(3), &shown, &[keypair(5), keypair(3)]).unwrap();
    let (lists, queue) = commit();
    third.apply_proposals(&lists, queue, vec![]).unwrap();
    assert!(first.nodes == third.nodes);
    assert_eq!(
        names(&first),
        vec![Some(1), None, Some(22), None, Some(3), None, Some(7), None, Some(8)]
    );
}

#[test]
fn a_resolution_reaches_every_member_below_its_node() {
    let mut tree = tree_of(&[2, 3, 4, 5, 6, 7]);
    tree.blank_member(NodeIndex(4));
    tree.merge_keypairs(&[keypair(1), keypair(2)], &[NodeIndex(1), NodeIndex(9)]);
    tree.add_in_place(NodeIndex(4), &key_package(9));
    tree.blank_member(NodeIndex(12));
    for node in 0..tree.nodes.len() as u32 {
        let members = tree.resolve(NodeIndex(node));
        for leaf in (0..tree.nodes.len() as u32).step_by(2) {
            if maelstrom::tree::treemath::covers(NodeIndex(node), NodeIndex(leaf))
                && !tree.nodes[leaf as usize].is_blank()
            {
                assert!(members
                    .iter()
                    .any(|m| maelstrom::tree::treemath::covers(*m, NodeIndex(leaf))));
            }
        }
        for member in members {
            assert!(!tree.nodes[member.as_usize()].is_blank());
        }
    }
}

#[test]
fn unmerged_leaves_lie_below_the_parents_that_note_them() {
    let mut tree = tree_of(&[2, 3, 4, 5, 6, 7, 8]);
    tree.merge_keypairs(
        &[keypair(1), keypair(2), keypair(3), keypair(4)],
        &[NodeIndex(1), NodeIndex(3), NodeIndex(7), NodeIndex(11)],
    );
    for leaf in [2u32, 8, 12] {
        tree.blank_member(NodeIndex(leaf));
    }
    tree.merge_keypairs(
        &[keypair(1), keypair(2), keypair(3), keypair(4), keypair(5)],
        &[NodeIndex(1), NodeIndex(3), NodeIndex(7), NodeIndex(9), NodeIndex(11)],
    );
    let queue = queue_of(vec![(1, 0, add(21)), (2, 0, add(22)), (3, 0, add(23)), (4, 0, add(24))]);
    tree.apply_proposals(&list(&[], &[], &[1, 2, 3, 4]), queue, vec![])
        .unwrap();
    assert_eq!(tree.nodes.len(), 17);
    assert!(shape_holds(&tree));
    let noted = |i: usize| tree.nodes[i].node.as_ref().unwrap().get_unmerged_leaves().to_vec();
    assert_eq!(noted(1), vec![2]);
    assert_eq!(noted(3), vec![2]);
    assert_eq!(noted(7), vec![2, 8, 12]);
    assert_eq!(noted(9), vec![8]);
    assert_eq!(noted(11), vec![8, 12]);
    for (p, node) in tree.nodes.iter().enumerate() {
        if let Some(parent) = &node.node {
            for leaf in parent.get_unmerged_leaves() {
                assert!(maelstrom::tree::treemath::covers(
                    NodeIndex(p as u32),
                    NodeIndex(*leaf)
                ));
                assert_eq!(leaf % 2, 0);
            }
        }
    }
}
