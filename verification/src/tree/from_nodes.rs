use vstd::prelude::*;
use crate::ciphersuite::{Ciphersuite, HPKEKeyPair};
use crate::key_packages::{KeyPackage, KeyPackageBundle, KeyPackageView};
use crate::tree::index::NodeIndex;
use crate::tree::integrity::spec_public_views;
use crate::tree::node::{spec_node_views, Node, NodeType, NodeView};
use crate::tree::ratchet_tree::{
    lemma_width_of_len, spec_add_keypairs, spec_keypair_views, spec_leaf_count, spec_shape_ok,
    OwnLeaf, OwnLeafView, PathKeypairs, RatchetTree,
};
use crate::tree::treemath;
use crate::tree::treemath::{spec_dirpath_root, spec_indices};

verus! {

/// Position of the first node that holds a key package.
pub open spec fn spec_find_key_package(nodes: Seq<Option<NodeView>>, kp: KeyPackageView) -> Option<
    int,
>
    decreases nodes.len(),
{
    if nodes.len() == 0 {
        None
    } else {
        match spec_find_key_package(nodes.drop_last(), kp) {
            Some(i) => Some(i),
            None => if nodes.last().is_some() && nodes.last().unwrap().key_package == Some(kp) {
                Some(nodes.len() - 1)
            } else {
                None
            },
        }
    }
}

/// The first node that holds a key package is in the list and holds it.
pub proof fn lemma_find_key_package(nodes: Seq<Option<NodeView>>, kp: KeyPackageView)
    ensures
        match spec_find_key_package(nodes, kp) {
            Some(i) => 0 <= i < nodes.len() && nodes[i].is_some() && nodes[i].unwrap().key_package
                == Some(kp),
            None => true,
        },
    decreases nodes.len(),
{
    if nodes.len() > 0 {
        lemma_find_key_package(nodes.drop_last(), kp);
    }
}

/// What is found among the first `n` nodes is found in the whole list.
pub proof fn lemma_find_key_package_stays(nodes: Seq<Option<NodeView>>, kp: KeyPackageView, n: int)
    requires
        0 <= n <= nodes.len(),
        spec_find_key_package(nodes.take(n), kp).is_some(),
    ensures
        spec_find_key_package(nodes, kp) == spec_find_key_package(nodes.take(n), kp),
    decreases nodes.len() - n,
{
    if n < nodes.len() {
        assert(nodes.take(n + 1).drop_last() =~= nodes.take(n));
        lemma_find_key_package_stays(nodes, kp, n + 1);
    } else {
        assert(nodes.take(n) =~= nodes);
    }
}

/// The nodes of a tree that is shown with nothing for its blank nodes:
/// a blank leaf at an even position and a blank parent at an odd one.
pub open spec fn spec_nodes_from_options(options: Seq<Option<NodeView>>) -> Seq<NodeView> {
    Seq::new(
        options.len(),
        |i: int|
            match options[i] {
                Some(node) => node,
                None => if i % 2 == 0 {
                    NodeView::leaf(None)
                } else {
                    NodeView::blank_parent()
                },
            },
    )
}

impl RatchetTree {
    /// Whether a list of nodes has the shape of a tree.
    pub fn check_shape(nodes: &Vec<Node>) -> (r: bool)
        ensures
            r == spec_shape_ok(spec_node_views(nodes@)),
    {
        let ghost views = spec_node_views(nodes@);
        if nodes.len() % 2 != 1 || nodes.len() > 0xffff_ffff {
            return false;
        }
        let mut i: usize = 0;
        while i < nodes.len()
            invariant
                i <= nodes@.len(),
                views == spec_node_views(nodes@),
                forall|j: int|
                    0 <= j < i ==> (#[trigger] views[j]).node_type == (if j % 2 == 0 {
                        NodeType::Leaf
                    } else {
                        NodeType::Parent
                    }),
                forall|j: int| 0 <= j < i && j % 2 == 0 ==> (#[trigger] views[j]).node.is_none(),
                forall|j: int|
                    0 <= j < i && j % 2 == 1 ==> (#[trigger] views[j]).key_package.is_none(),
            decreases nodes@.len() - i,
        {
            assert(views[i as int] == nodes@[i as int]@);
            if i % 2 == 0 {
                if !(nodes[i].node_type == NodeType::Leaf) || nodes[i].node.is_some() {
                    return false;
                }
            } else {
                if !(nodes[i].node_type == NodeType::Parent) || nodes[i].key_package.is_some() {
                    return false;
                }
            }
            i += 1;
        }
        true
    }

    /// The first node of a tree that holds a key package.
    pub fn find_key_package(key_package: &KeyPackage, nodes: &[Option<Node>]) -> (r: Option<usize>)
        ensures
            r.is_some() == spec_find_key_package(spec_public_views(nodes@), key_package@).is_some(),
            r.is_some() ==> r.unwrap() as int == spec_find_key_package(
                spec_public_views(nodes@),
                key_package@,
            ).unwrap() && r.unwrap() < nodes@.len(),
    {
        let ghost views = spec_public_views(nodes@);
        let mut i: usize = 0;
        while i < nodes.len()
            invariant
                i <= nodes@.len(),
                views == spec_public_views(nodes@),
                spec_find_key_package(views.take(i as int), key_package@).is_none(),
            decreases nodes@.len() - i,
        {
            proof {
                assert(views.take(i + 1).drop_last() =~= views.take(i as int));
                assert(views.take(i + 1).last() == views[i as int]);
            }
            if let Some(node) = &nodes[i] {
                assert(views[i as int] == Some(node@));
                if let Some(kp) = &node.key_package {
                    if kp == key_package {
                        proof {
                            lemma_find_key_package_stays(views, key_package@, i + 1);
                        }
                        return Some(i);
                    }
                }
            }
            i += 1;
        }
        assert(views.take(i as int) =~= views);
        None
    }

    /// The tree of a member that joins a group, from the tree as the
    /// group shows it: the member's leaf is the first node that holds its
    /// key package, and the key pairs above the leaf, lowest first, are
    /// the caller's, derived from the private key of the key package.
    /// None where no node holds the key package, where the nodes do not
    /// have the shape of a tree, or where the number of key pairs is not
    /// the number of nodes above the leaf.
    pub fn new_from_nodes(
        ciphersuite: Ciphersuite,
        kpb: KeyPackageBundle,
        node_options: &[Option<Node>],
        keypairs: &[HPKEKeyPair],
    ) -> (r: Option<RatchetTree>)
        ensures
            match spec_find_key_package(spec_public_views(node_options@), kpb@.key_package) {
                Some(index) => {
                    let nodes = spec_nodes_from_options(spec_public_views(node_options@));
                    let path = spec_dirpath_root(index as nat, spec_leaf_count(nodes.len()));
                    if spec_shape_ok(nodes) && keypairs@.len() == path.len() {
                        r.is_some() && r.unwrap().ciphersuite == ciphersuite && r.unwrap().node_views()
                            == nodes && r.unwrap().own_leaf@ == (OwnLeafView {
                            kpb: kpb@,
                            node_index: NodeIndex(index as u32),
                            path_keypairs: spec_add_keypairs(
                                Seq::empty(),
                                spec_keypair_views(keypairs@),
                                path,
                            ),
                        }) && r.unwrap().wf() && r.unwrap().has_own_leaf()
                    } else {
                        r.is_none()
                    }
                },
                None => r.is_none(),
            },
    {
        let ghost options = spec_public_views(node_options@);
        let index = match RatchetTree::find_key_package(kpb.get_key_package(), node_options) {
            Some(i) => i,
            None => {
                return None;
            },
        };
        proof {
            lemma_find_key_package(options, kpb@.key_package);
        }
        let mut nodes: Vec<Node> = Vec::new();
        let mut i: usize = 0;
        while i < node_options.len()
            invariant
                i <= node_options@.len(),
                options == spec_public_views(node_options@),
                spec_node_views(nodes@) == spec_nodes_from_options(options).take(i as int),
            decreases node_options@.len() - i,
        {
            let ghost built = nodes@;
            let node = match &node_options[i] {
                Some(node) => node.clone(),
                None => if i % 2 == 0 {
                    Node::new_leaf(None)
                } else {
                    Node::new_blank_parent_node()
                },
            };
            assert(node@ == spec_nodes_from_options(options)[i as int]);
            assert(spec_node_views(built.push(node)) =~= spec_node_views(built).push(node@));
            nodes.push(node);
            i += 1;
            assert(spec_node_views(nodes@) =~= spec_nodes_from_options(options).take(i as int));
        }
        assert(spec_nodes_from_options(options).take(i as int) =~= spec_nodes_from_options(
            options,
        ));
        if !RatchetTree::check_shape(&nodes) {
            return None;
        }
        proof {
            lemma_width_of_len(nodes@.len());
            assert(spec_node_views(nodes@)[index as int] == options[index as int].unwrap());
        }
        let node_index = NodeIndex(index as u32);
        let size = NodeIndex(nodes.len() as u32).as_leaf_index();
        let dirpath = treemath::dirpath_root(node_index, size);
        assert(spec_indices(dirpath@).len() == dirpath@.len());
        if keypairs.len() != dirpath.len() {
            return None;
        }
        let mut path_keypairs = PathKeypairs::new();
        path_keypairs.add(keypairs, dirpath.as_slice());
        let own_leaf = OwnLeaf::new(kpb, node_index, path_keypairs);
        Some(RatchetTree { ciphersuite, nodes, own_leaf })
    }
}

} // verus!
