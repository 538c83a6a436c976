use vstd::prelude::*;

verus! {

/// Position of a node in the flat array that holds the tree. Leaves sit at
/// even positions, parents at odd ones.
#[derive(Clone, Copy, Debug, PartialEq, Eq, Structural)]
pub struct NodeIndex(pub u32);

/// Position of a leaf among the leaves, counted from the left.
#[derive(Clone, Copy, Debug, PartialEq, Eq, Structural)]
pub struct LeafIndex(pub u32);

impl NodeIndex {
    pub open spec fn spec_as_nat(self) -> nat {
        self.0 as nat
    }

    pub fn as_u32(&self) -> (r: u32)
        ensures
            r == self.0,
    {
        self.0
    }

    pub fn as_usize(&self) -> (r: usize)
        ensures
            r == self.0,
    {
        self.0 as usize
    }

    /// The index for a position in a vector, if it fits in 32 bits.
    pub fn from_usize(value: usize) -> (r: Option<NodeIndex>)
        ensures
            value <= u32::MAX ==> r == Some(NodeIndex(value as u32)),
            value > u32::MAX ==> r.is_none(),
    {
        if value <= u32::MAX as usize {
            Some(NodeIndex(value as u32))
        } else {
            None
        }
    }

    /// Whether this position holds a leaf.
    pub fn is_leaf(&self) -> (r: bool)
        ensures
            r == (self.0 % 2 == 0),
    {
        self.0 % 2 == 0
    }

    /// The leaf that sits at this position, counted among the leaves. Applied
    /// to the width of a tree it gives the number of its leaves.
    pub fn as_leaf_index(&self) -> (r: LeafIndex)
        ensures
            r.0 as int == (self.0 as int + 1) / 2,
    {
        LeafIndex((((self.0 as u64) + 1) / 2) as u32)
    }
}

impl LeafIndex {
    pub fn as_u32(&self) -> (r: u32)
        ensures
            r == self.0,
    {
        self.0
    }

    pub fn as_usize(&self) -> (r: usize)
        ensures
            r == self.0,
    {
        self.0 as usize
    }

    /// The position of this leaf in the flat array: twice its rank. `None`
    /// where that does not fit in 32 bits.
    pub fn as_node_index(&self) -> (r: Option<NodeIndex>)
        ensures
            2 * self.0 <= u32::MAX ==> r == Some(NodeIndex((2 * self.0) as u32)),
            2 * self.0 > u32::MAX ==> r.is_none(),
    {
        if self.0 <= u32::MAX / 2 {
            Some(NodeIndex(2 * self.0))
        } else {
            None
        }
    }
}

impl From<u32> for NodeIndex {
    fn from(value: u32) -> (r: NodeIndex) {
        NodeIndex(value)
    }
}

impl vstd::std_specs::convert::FromSpecImpl<u32> for NodeIndex {
    open spec fn obeys_from_spec() -> bool {
        true
    }

    open spec fn from_spec(value: u32) -> NodeIndex {
        NodeIndex(value)
    }
}

impl From<u32> for LeafIndex {
    fn from(value: u32) -> (r: LeafIndex) {
        LeafIndex(value)
    }
}

impl vstd::std_specs::convert::FromSpecImpl<u32> for LeafIndex {
    open spec fn obeys_from_spec() -> bool {
        true
    }

    open spec fn from_spec(value: u32) -> LeafIndex {
        LeafIndex(value)
    }
}

} // verus!
