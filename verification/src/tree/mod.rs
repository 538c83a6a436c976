pub mod apply;
pub mod astree;
pub mod from_nodes;
pub mod hashes;
pub mod index;
pub mod integrity;
pub mod laws;
pub mod node;
pub mod paths;
pub mod ratchet_tree;
pub mod sender_ratchet;
pub mod treemath;
