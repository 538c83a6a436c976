use maelstrom::tree::index::{LeafIndex, NodeIndex};
use maelstrom::tree::treemath::{
    common_ancestor, copath, covers, dirpath, dirpath_long, dirpath_root, first_index, left, level,
    level_nodes, node_width, parent, right, root, sibling,
};

fn indices(v: Vec<NodeIndex>) -> Vec<u32> {
    v.iter().map(|i| i.as_u32()).collect()
}

#[test]
fn level_counts_trailing_ones() {
    assert_eq!(level(NodeIndex(0)), 0);
    assert_eq!(level(NodeIndex(1)), 1);
    assert_eq!(level(NodeIndex(2)), 0);
    assert_eq!(level(NodeIndex(3)), 2);
    assert_eq!(level(NodeIndex(5)), 1);
    assert_eq!(level(NodeIndex(7)), 3);
    assert_eq!(level(NodeIndex(11)), 2);
    assert_eq!(level(NodeIndex(u32::MAX)), 32);
}

#[test]
fn node_width_is_twice_the_leaves_less_one() {
    assert_eq!(node_width(LeafIndex(0)), 0);
    assert_eq!(node_width(LeafIndex(1)), 1);
    assert_eq!(node_width(LeafIndex(4)), 7);
    assert_eq!(node_width(LeafIndex(7)), 13);
}

#[test]
fn root_of_small_trees() {
    assert_eq!(root(LeafIndex(1)), NodeIndex(0));
    assert_eq!(root(LeafIndex(2)), NodeIndex(1));
    assert_eq!(root(LeafIndex(3)), NodeIndex(3));
    assert_eq!(root(LeafIndex(4)), NodeIndex(3));
    assert_eq!(root(LeafIndex(5)), NodeIndex(7));
    assert_eq!(root(LeafIndex(8)), NodeIndex(7));
    assert_eq!(root(LeafIndex(9)), NodeIndex(15));
}

#[test]
fn children_of_parents() {
    assert_eq!(left(NodeIndex(1)), NodeIndex(0));
    assert_eq!(left(NodeIndex(3)), NodeIndex(1));
    assert_eq!(left(NodeIndex(5)), NodeIndex(4));
    assert_eq!(left(NodeIndex(7)), NodeIndex(3));
    assert_eq!(left(NodeIndex(0)), NodeIndex(0));
    assert_eq!(right(NodeIndex(1), LeafIndex(2)), NodeIndex(2));
    assert_eq!(right(NodeIndex(3), LeafIndex(4)), NodeIndex(5));
    assert_eq!(right(NodeIndex(3), LeafIndex(3)), NodeIndex(4));
    assert_eq!(right(NodeIndex(7), LeafIndex(5)), NodeIndex(8));
    assert_eq!(right(NodeIndex(7), LeafIndex(8)), NodeIndex(11));
    assert_eq!(right(NodeIndex(7), LeafIndex(6)), NodeIndex(9));
    assert_eq!(right(NodeIndex(4), LeafIndex(4)), NodeIndex(4));
}

#[test]
fn parents_and_siblings() {
    assert_eq!(parent(NodeIndex(0), LeafIndex(4)), NodeIndex(1));
    assert_eq!(parent(NodeIndex(2), LeafIndex(4)), NodeIndex(1));
    assert_eq!(parent(NodeIndex(1), LeafIndex(4)), NodeIndex(3));
    assert_eq!(parent(NodeIndex(5), LeafIndex(4)), NodeIndex(3));
    assert_eq!(parent(NodeIndex(3), LeafIndex(4)), NodeIndex(3));
    assert_eq!(parent(NodeIndex(4), LeafIndex(3)), NodeIndex(3));
    assert_eq!(parent(NodeIndex(8), LeafIndex(5)), NodeIndex(7));
    assert_eq!(parent(NodeIndex(12), LeafIndex(7)), NodeIndex(11));
    assert_eq!(sibling(NodeIndex(0), LeafIndex(4)), NodeIndex(2));
    assert_eq!(sibling(NodeIndex(2), LeafIndex(4)), NodeIndex(0));
    assert_eq!(sibling(NodeIndex(1), LeafIndex(4)), NodeIndex(5));
    assert_eq!(sibling(NodeIndex(4), LeafIndex(3)), NodeIndex(1));
    assert_eq!(sibling(NodeIndex(8), LeafIndex(5)), NodeIndex(3));
    assert_eq!(sibling(NodeIndex(3), LeafIndex(4)), NodeIndex(3));
}

#[test]
fn paths_of_a_tree_of_four() {
    assert_eq!(indices(dirpath(NodeIndex(0), LeafIndex(4))), vec![1]);
    assert_eq!(indices(dirpath_root(NodeIndex(0), LeafIndex(4))), vec![1, 3]);
    assert_eq!(indices(dirpath_long(NodeIndex(0), LeafIndex(4))), vec![0, 1, 3]);
    assert_eq!(indices(copath(NodeIndex(0), LeafIndex(4))), vec![2, 5]);
    assert_eq!(indices(dirpath_root(NodeIndex(6), LeafIndex(4))), vec![5, 3]);
    assert_eq!(indices(copath(NodeIndex(6), LeafIndex(4))), vec![4, 1]);
    assert_eq!(indices(dirpath_long(NodeIndex(1), LeafIndex(4))), vec![1, 3]);
}

#[test]
fn paths_of_a_tree_that_is_not_full() {
    assert_eq!(indices(dirpath_root(NodeIndex(8), LeafIndex(5))), vec![7]);
    assert_eq!(indices(dirpath(NodeIndex(8), LeafIndex(5))), Vec::<u32>::new());
    assert_eq!(indices(copath(NodeIndex(8), LeafIndex(5))), vec![3]);
    assert_eq!(indices(dirpath_root(NodeIndex(4), LeafIndex(3))), vec![3]);
    assert_eq!(indices(copath(NodeIndex(4), LeafIndex(3))), vec![1]);
    assert_eq!(indices(dirpath_root(NodeIndex(0), LeafIndex(5))), vec![1, 3, 7]);
    assert_eq!(indices(copath(NodeIndex(0), LeafIndex(5))), vec![2, 5, 8]);
}

#[test]
fn paths_of_the_sole_leaf_are_empty() {
    assert_eq!(root(LeafIndex(1)), NodeIndex(0));
    assert_eq!(indices(dirpath(NodeIndex(0), LeafIndex(1))), Vec::<u32>::new());
    assert_eq!(indices(dirpath_root(NodeIndex(0), LeafIndex(1))), Vec::<u32>::new());
    assert_eq!(indices(dirpath_long(NodeIndex(0), LeafIndex(1))), vec![0]);
    assert_eq!(indices(copath(NodeIndex(0), LeafIndex(1))), Vec::<u32>::new());
}

#[test]
fn common_ancestors() {
    assert_eq!(common_ancestor(NodeIndex(0), NodeIndex(2)), NodeIndex(1));
    assert_eq!(common_ancestor(NodeIndex(2), NodeIndex(0)), NodeIndex(1));
    assert_eq!(common_ancestor(NodeIndex(0), NodeIndex(4)), NodeIndex(3));
    assert_eq!(common_ancestor(NodeIndex(4), NodeIndex(6)), NodeIndex(5));
    assert_eq!(common_ancestor(NodeIndex(0), NodeIndex(8)), NodeIndex(7));
    assert_eq!(common_ancestor(NodeIndex(6), NodeIndex(8)), NodeIndex(7));
    assert_eq!(common_ancestor(NodeIndex(2), NodeIndex(2)), NodeIndex(2));
    assert_eq!(common_ancestor(NodeIndex(1), NodeIndex(0)), NodeIndex(1));
    assert_eq!(common_ancestor(NodeIndex(0), NodeIndex(3)), NodeIndex(3));
    assert_eq!(common_ancestor(NodeIndex(1), NodeIndex(5)), NodeIndex(3));
}

#[test]
fn subtrees_cover_their_nodes() {
    assert!(covers(NodeIndex(3), NodeIndex(0)));
    assert!(covers(NodeIndex(3), NodeIndex(6)));
    assert!(!covers(NodeIndex(3), NodeIndex(7)));
    assert!(!covers(NodeIndex(3), NodeIndex(8)));
    assert!(covers(NodeIndex(5), NodeIndex(4)));
    assert!(!covers(NodeIndex(5), NodeIndex(2)));
    assert!(covers(NodeIndex(2), NodeIndex(2)));
    assert!(!covers(NodeIndex(2), NodeIndex(1)));
}

#[test]
fn first_index_finds_the_first() {
    let list = vec![NodeIndex(5), NodeIndex(3), NodeIndex(5)];
    assert_eq!(first_index(&list, NodeIndex(5)), Some(0));
    assert_eq!(first_index(&list, NodeIndex(3)), Some(1));
    assert_eq!(first_index(&list, NodeIndex(4)), None);
}

#[test]
fn levels_of_a_tree_of_three() {
    assert_eq!(indices(level_nodes(0, LeafIndex(3))), vec![0, 2, 4]);
    assert_eq!(indices(level_nodes(1, LeafIndex(3))), vec![1]);
    assert_eq!(indices(level_nodes(2, LeafIndex(3))), vec![3]);
    assert_eq!(indices(level_nodes(3, LeafIndex(3))), Vec::<u32>::new());
    assert_eq!(indices(level_nodes(1, LeafIndex(7))), vec![1, 5, 9]);
    assert_eq!(indices(level_nodes(2, LeafIndex(7))), vec![3, 11]);
}

#[test]
fn indices_convert() {
    assert_eq!(NodeIndex::from(7u32), NodeIndex(7));
    assert_eq!(LeafIndex::from(7u32), LeafIndex(7));
    assert_eq!(NodeIndex(13).as_leaf_index(), LeafIndex(7));
    assert_eq!(NodeIndex(4).as_leaf_index(), LeafIndex(2));
    assert_eq!(LeafIndex(3).as_node_index(), Some(NodeIndex(6)));
    assert_eq!(LeafIndex(u32::MAX).as_node_index(), None);
    assert_eq!(NodeIndex::from_usize(9), Some(NodeIndex(9)));
    assert!(NodeIndex(6).is_leaf());
    assert!(!NodeIndex(5).is_leaf());
    assert_eq!(NodeIndex(5).as_usize(), 5);
    assert_eq!(LeafIndex(5).as_usize(), 5);
}
