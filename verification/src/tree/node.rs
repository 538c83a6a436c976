use vstd::prelude::*;
use vstd::std_specs::cmp::PartialEqSpecImpl;
use crate::ciphersuite::HPKEPublicKey;
use crate::codec::{
    append_bytes, bytes_eq, copy_bytes, encode_u32, encode_u8, encode_vec, lemma_parse_int_len,
    lemma_parse_u32, lemma_parse_u8, lemma_parse_vec, spec_option, spec_parse_u32, spec_parse_u8,
    spec_parse_vec, spec_u32, spec_u8, spec_vec, CodecError, Cursor, VecSize,
};
use crate::extensions::ParentHashExtension;
use crate::key_packages::{lemma_key_package_round_trip, KeyPackage, KeyPackageView};

verus! {

/// Kind of a node, by its place in the tree.
#[derive(Clone, Copy, Debug, PartialEq, Eq, Structural)]
pub enum NodeType {
    Leaf,
    Parent,
    /// Any kind that the protocol does not name.
    Default,
}

impl NodeType {
    pub open spec fn spec_to_u8(self) -> u8 {
        match self {
            NodeType::Leaf => 0,
            NodeType::Parent => 1,
            NodeType::Default => 255,
        }
    }

    pub open spec fn spec_from_u8(v: u8) -> NodeType {
        if v == 0 {
            NodeType::Leaf
        } else if v == 1 {
            NodeType::Parent
        } else {
            NodeType::Default
        }
    }

    /// The kind's number on the wire.
    pub fn to_u8(&self) -> (r: u8)
        ensures
            r == self.spec_to_u8(),
    {
        match self {
            NodeType::Leaf => 0,
            NodeType::Parent => 1,
            NodeType::Default => 255,
        }
    }

    /// The kind that a number names; `Default` for an unknown number.
    pub fn from_u8(v: u8) -> (r: NodeType)
        ensures
            r == NodeType::spec_from_u8(v),
    {
        match v {
            0 => NodeType::Leaf,
            1 => NodeType::Parent,
            _ => NodeType::Default,
        }
    }
}

/// The bytes of a list of leaf numbers, four bytes each.
pub open spec fn spec_leaves_payload(leaves: Seq<u32>) -> Seq<u8>
    decreases leaves.len(),
{
    if leaves.len() == 0 {
        Seq::empty()
    } else {
        spec_leaves_payload(leaves.drop_last()) + spec_u32(leaves.last())
    }
}

/// A list of leaf numbers takes four bytes for each.
pub proof fn lemma_leaves_payload_len(leaves: Seq<u32>)
    ensures
        spec_leaves_payload(leaves).len() == 4 * leaves.len(),
    decreases leaves.len(),
{
    reveal(spec_u32);
    if leaves.len() > 0 {
        lemma_leaves_payload_len(leaves.drop_last());
    }
}

/// The leaf numbers that a byte string holds, four bytes each. None where
/// its length is no multiple of four.
pub open spec fn spec_parse_leaves(s: Seq<u8>) -> Option<Seq<u32>>
    decreases s.len(),
{
    if s.len() == 0 {
        Some(Seq::empty())
    } else if s.len() < 4 {
        None
    } else {
        match spec_parse_leaves(s.take(s.len() - 4)) {
            Some(front) => match spec_parse_u32(s.skip(s.len() - 4)) {
                Some((leaf, rest)) => Some(front.push(leaf)),
                None => None,
            },
            None => None,
        }
    }
}

/// Leaf numbers are read from a byte string exactly where its length is
/// a multiple of four, and then there is one for every four bytes.
pub proof fn lemma_parse_leaves_len(s: Seq<u8>)
    ensures
        spec_parse_leaves(s).is_some() <==> s.len() % 4 == 0,
        spec_parse_leaves(s).is_some() ==> 4 * spec_parse_leaves(s).unwrap().len() == s.len(),
    decreases s.len(),
{
    reveal(spec_parse_u32);
    if s.len() >= 4 {
        lemma_parse_leaves_len(s.take(s.len() - 4));
    }
}

/// Reading a list of leaf numbers that was written gives it back.
pub proof fn lemma_leaves_round_trip(leaves: Seq<u32>)
    ensures
        spec_parse_leaves(spec_leaves_payload(leaves)) == Some(leaves),
    decreases leaves.len(),
{
    if leaves.len() > 0 {
        let front = leaves.drop_last();
        let payload = spec_leaves_payload(leaves);
        lemma_leaves_payload_len(leaves);
        lemma_leaves_payload_len(front);
        lemma_leaves_round_trip(front);
        assert(payload.take(payload.len() - 4) =~= spec_leaves_payload(front));
        assert(payload.skip(payload.len() - 4) =~= spec_u32(leaves.last()) + Seq::<u8>::empty());
        lemma_parse_u32(leaves.last(), Seq::empty());
        assert(front.push(leaves.last()) =~= leaves);
    }
}

fn decode_leaves(bytes: &[u8]) -> (r: Option<Vec<u32>>)
    ensures
        match spec_parse_leaves(bytes@) {
            Some(leaves) => r.is_some() && r.unwrap()@ == leaves,
            None => r.is_none(),
        },
{
    proof {
        lemma_parse_leaves_len(bytes@);
    }
    let total: usize = bytes.len();
    if total % 4 != 0 {
        return None;
    }
    let count: usize = total / 4;
    let mut leaves: Vec<u32> = Vec::new();
    let mut i: usize = 0;
    assert(bytes@.take(0) =~= Seq::<u8>::empty());
    while i < count
        invariant
            i <= count,
            4 * count == total,
            total == bytes@.len(),
            spec_parse_leaves(bytes@.take(4 * i)) == Some(leaves@),
        decreases count - i,
    {
        let leaf: u32 = (bytes[4 * i] as u32) * 0x100_0000 + (bytes[4 * i + 1] as u32) * 0x1_0000
            + (bytes[4 * i + 2] as u32) * 0x100 + (bytes[4 * i + 3] as u32);
        proof {
            reveal(spec_parse_u32);
            let next = bytes@.take(4 * i + 4);
            assert(next.take(next.len() - 4) =~= bytes@.take(4 * i));
            let last = next.skip(next.len() - 4);
            assert(last[0] == bytes@[4 * i] && last[1] == bytes@[4 * i + 1] && last[2] == bytes@[4
                * i + 2] && last[3] == bytes@[4 * i + 3]);
        }
        leaves.push(leaf);
        i += 1;
    }
    assert(bytes@.take(4 * i) =~= bytes@);
    Some(leaves)
}

/// What a parent holds: the public key of its subtree, the leaves below it
/// that do not know the private key yet, and the hash of its own parent.
#[derive(Debug)]
pub struct ParentNode {
    public_key: HPKEPublicKey,
    unmerged_leaves: Vec<u32>,
    parent_hash: Vec<u8>,
}

pub struct ParentNodeView {
    pub public_key: Seq<u8>,
    pub unmerged_leaves: Seq<u32>,
    pub parent_hash: Seq<u8>,
}

impl View for ParentNode {
    type V = ParentNodeView;

    closed spec fn view(&self) -> ParentNodeView {
        ParentNodeView {
            public_key: self.public_key@,
            unmerged_leaves: self.unmerged_leaves@,
            parent_hash: self.parent_hash@,
        }
    }
}

impl ParentNodeView {
    /// Whether every part fits behind its length prefix.
    pub open spec fn encodable(self) -> bool {
        self.public_key.len() <= 0xffff && 4 * self.unmerged_leaves.len() <= 0xffff_ffff
            && self.parent_hash.len() <= 0xff
    }

    /// The parent on the wire: the key behind a two-byte length, the leaves
    /// behind a four-byte length, the hash behind a one-byte length.
    pub open spec fn wire(self) -> Seq<u8> {
        spec_vec(VecSize::VecU16, self.public_key) + spec_vec(
            VecSize::VecU32,
            spec_leaves_payload(self.unmerged_leaves),
        ) + spec_vec(VecSize::VecU8, self.parent_hash)
    }
}

impl ParentNodeView {
    /// The parent node that a byte string starts with, and what follows
    /// it.
    pub open spec fn parse(s: Seq<u8>) -> Option<(ParentNodeView, Seq<u8>)> {
        match spec_parse_vec(VecSize::VecU16, s) {
            Some((public_key, r1)) => match spec_parse_vec(VecSize::VecU32, r1) {
                Some((payload, r2)) => match spec_parse_leaves(payload) {
                    Some(unmerged_leaves) => match spec_parse_vec(VecSize::VecU8, r2) {
                        Some((parent_hash, r3)) => Some(
                            (ParentNodeView { public_key, unmerged_leaves, parent_hash }, r3),
                        ),
                        None => None,
                    },
                    None => None,
                },
                None => None,
            },
            None => None,
        }
    }
}

/// What is left behind a parent node that is read is no longer than what
/// the parent node was read from.
pub proof fn lemma_parent_node_rest_len(s: Seq<u8>)
    ensures
        ParentNodeView::parse(s).is_some() ==> ParentNodeView::parse(s).unwrap().1.len()
            <= s.len(),
{
    crate::codec::lemma_parse_vec_len(VecSize::VecU16, s);
    if spec_parse_vec(VecSize::VecU16, s).is_some() {
        let r1 = spec_parse_vec(VecSize::VecU16, s).unwrap().1;
        crate::codec::lemma_parse_vec_len(VecSize::VecU32, r1);
        if spec_parse_vec(VecSize::VecU32, r1).is_some() {
            crate::codec::lemma_parse_vec_len(
                VecSize::VecU8,
                spec_parse_vec(VecSize::VecU32, r1).unwrap().1,
            );
        }
    }
}

/// Reading a parent node that was written gives it back.
pub proof fn lemma_parent_node_round_trip(p: ParentNodeView, rest: Seq<u8>)
    requires
        p.encodable(),
    ensures
        ParentNodeView::parse(p.wire() + rest) == Some((p, rest)),
{
    let payload = spec_leaves_payload(p.unmerged_leaves);
    lemma_leaves_payload_len(p.unmerged_leaves);
    let r2 = spec_vec(VecSize::VecU8, p.parent_hash) + rest;
    let r1 = spec_vec(VecSize::VecU32, payload) + r2;
    assert(p.wire() + rest =~= spec_vec(VecSize::VecU16, p.public_key) + r1);
    lemma_parse_vec(VecSize::VecU16, p.public_key, r1);
    lemma_parse_vec(VecSize::VecU32, payload, r2);
    lemma_leaves_round_trip(p.unmerged_leaves);
    lemma_parse_vec(VecSize::VecU8, p.parent_hash, rest);
}

impl ParentNode {
    /// Reads a parent node; fails where the bytes end early or the list of
    /// leaves is cut inside a leaf.
    pub fn decode(cursor: &mut Cursor) -> (r: Result<ParentNode, CodecError>)
        ensures
            match ParentNodeView::parse(old(cursor).remaining()) {
                Some((p, rest)) => r.is_ok() && r.unwrap()@ == p && final(cursor).remaining()
                    == rest,
                None => r.is_err() && r.unwrap_err() == CodecError::DecodingError,
            },
    {
        let public_key = match cursor.decode_vec(VecSize::VecU16) {
            Ok(v) => v,
            Err(e) => {
                return Err(e);
            },
        };
        let payload = match cursor.decode_vec(VecSize::VecU32) {
            Ok(v) => v,
            Err(e) => {
                return Err(e);
            },
        };
        let unmerged_leaves = match decode_leaves(payload.as_slice()) {
            Some(v) => v,
            None => {
                return Err(CodecError::DecodingError);
            },
        };
        let parent_hash = match cursor.decode_vec(VecSize::VecU8) {
            Ok(v) => v,
            Err(e) => {
                return Err(e);
            },
        };
        Ok(ParentNode { public_key: HPKEPublicKey::new(public_key), unmerged_leaves, parent_hash })
    }

    pub fn new(public_key: HPKEPublicKey, unmerged_leaves: &[u32], parent_hash: &[u8]) -> (r:
        ParentNode)
        ensures
            r@ == (ParentNodeView {
                public_key: public_key@,
                unmerged_leaves: unmerged_leaves@,
                parent_hash: parent_hash@,
            }),
    {
        let mut leaves: Vec<u32> = Vec::new();
        let mut i: usize = 0;
        while i < unmerged_leaves.len()
            invariant
                i <= unmerged_leaves@.len(),
                leaves@ == unmerged_leaves@.take(i as int),
            decreases unmerged_leaves@.len() - i,
        {
            leaves.push(unmerged_leaves[i]);
            i += 1;
            assert(leaves@ =~= unmerged_leaves@.take(i as int));
        }
        assert(unmerged_leaves@.take(i as int) =~= unmerged_leaves@);
        ParentNode { public_key, unmerged_leaves: leaves, parent_hash: copy_bytes(parent_hash) }
    }

    pub fn get_public_key(&self) -> (r: &HPKEPublicKey)
        ensures
            r@ == self@.public_key,
    {
        &self.public_key
    }

    pub fn get_parent_hash(&self) -> (r: &[u8])
        ensures
            r@ == self@.parent_hash,
    {
        self.parent_hash.as_slice()
    }

    pub fn set_parent_hash(&mut self, hash: Vec<u8>)
        ensures
            final(self)@ == (ParentNodeView { parent_hash: hash@, ..old(self)@ }),
    {
        self.parent_hash = hash;
    }

    pub fn get_unmerged_leaves(&self) -> (r: &[u32])
        ensures
            r@ == self@.unmerged_leaves,
    {
        self.unmerged_leaves.as_slice()
    }

    /// Whether `leaf` is among the unmerged leaves.
    pub fn has_unmerged_leaf(&self, leaf: u32) -> (r: bool)
        ensures
            r == self@.unmerged_leaves.contains(leaf),
    {
        let mut i: usize = 0;
        while i < self.unmerged_leaves.len()
            invariant
                i <= self.unmerged_leaves@.len(),
                forall|j: int| 0 <= j < i ==> self.unmerged_leaves@[j] != leaf,
            decreases self.unmerged_leaves@.len() - i,
        {
            if self.unmerged_leaves[i] == leaf {
                return true;
            }
            i += 1;
        }
        false
    }

    /// Adds `leaf` at the end of the unmerged leaves, unless it is among
    /// them.
    pub fn add_unmerged_leaf(&mut self, leaf: u32)
        ensures
            final(self)@ == (ParentNodeView {
                unmerged_leaves: if old(self)@.unmerged_leaves.contains(leaf) {
                    old(self)@.unmerged_leaves
                } else {
                    old(self)@.unmerged_leaves.push(leaf)
                },
                ..old(self)@
            }),
    {
        if !self.has_unmerged_leaf(leaf) {
            self.unmerged_leaves.push(leaf);
        }
    }

    /// The parent as it stands on the wire; fails where a part is too long
    /// for its length prefix.
    pub fn encode_detached(&self) -> (r: Result<Vec<u8>, CodecError>)
        ensures
            self@.encodable() ==> r.is_ok() && r.unwrap()@ == self@.wire(),
            !self@.encodable() ==> r.is_err() && r.unwrap_err() == CodecError::EncodingError,
    {
        if self.public_key.as_slice().len() > 0xffff || self.unmerged_leaves.len() > 0x3fff_ffff
            || self.parent_hash.len() > 0xff {
            return Err(CodecError::EncodingError);
        }
        let mut payload: Vec<u8> = Vec::new();
        let mut i: usize = 0;
        while i < self.unmerged_leaves.len()
            invariant
                i <= self.unmerged_leaves@.len(),
                payload@ == spec_leaves_payload(self.unmerged_leaves@.take(i as int)),
            decreases self.unmerged_leaves@.len() - i,
        {
            proof {
                assert(self.unmerged_leaves@.take(i + 1).drop_last() =~= self.unmerged_leaves@.take(
                    i as int,
                ));
            }
            encode_u32(&mut payload, self.unmerged_leaves[i]);
            i += 1;
        }
        proof {
            assert(self.unmerged_leaves@.take(i as int) =~= self.unmerged_leaves@);
            lemma_leaves_payload_len(self.unmerged_leaves@);
        }
        let mut buffer: Vec<u8> = Vec::new();
        let r1 = encode_vec(VecSize::VecU16, &mut buffer, self.public_key.as_slice());
        let r2 = encode_vec(VecSize::VecU32, &mut buffer, payload.as_slice());
        let r3 = encode_vec(VecSize::VecU8, &mut buffer, self.parent_hash.as_slice());
        assert(buffer@ =~= self@.wire());
        Ok(buffer)
    }
}

impl Clone for ParentNode {
    fn clone(&self) -> (r: Self)
        ensures
            r@ == self@,
    {
        let leaves = self.unmerged_leaves.clone();
        assert(leaves@ =~= self.unmerged_leaves@);
        ParentNode {
            public_key: self.public_key.clone(),
            unmerged_leaves: leaves,
            parent_hash: copy_bytes(self.parent_hash.as_slice()),
        }
    }
}

impl PartialEq for ParentNode {
    fn eq(&self, other: &Self) -> (r: bool) {
        if !(self.public_key == other.public_key && bytes_eq(
            self.parent_hash.as_slice(),
            other.parent_hash.as_slice(),
        )) {
            return false;
        }
        if self.unmerged_leaves.len() != other.unmerged_leaves.len() {
            return false;
        }
        let mut i: usize = 0;
        while i < self.unmerged_leaves.len()
            invariant
                i <= self.unmerged_leaves@.len(),
                self.unmerged_leaves@.len() == other.unmerged_leaves@.len(),
                forall|j: int| 0 <= j < i ==> self.unmerged_leaves@[j] == other.unmerged_leaves@[j],
            decreases self.unmerged_leaves@.len() - i,
        {
            if self.unmerged_leaves[i] != other.unmerged_leaves[i] {
                return false;
            }
            i += 1;
        }
        assert(self.unmerged_leaves@ =~= other.unmerged_leaves@);
        true
    }
}

impl PartialEqSpecImpl for ParentNode {
    open spec fn obeys_eq_spec() -> bool {
        true
    }

    open spec fn eq_spec(&self, other: &Self) -> bool {
        self@ == other@
    }
}

/// A node of the tree. A leaf holds a key package or is blank; a parent
/// holds a parent node or is blank.
#[derive(Debug)]
pub struct Node {
    pub node_type: NodeType,
    pub key_package: Option<KeyPackage>,
    pub node: Option<ParentNode>,
}

pub struct NodeView {
    pub node_type: NodeType,
    pub key_package: Option<KeyPackageView>,
    pub node: Option<ParentNodeView>,
}

impl View for Node {
    type V = NodeView;

    open spec fn view(&self) -> NodeView {
        NodeView {
            node_type: self.node_type,
            key_package: match self.key_package {
                Some(kp) => Some(kp@),
                None => None,
            },
            node: match self.node {
                Some(n) => Some(n@),
                None => None,
            },
        }
    }
}

impl NodeView {
    /// A leaf that holds `key_package`, or a blank leaf.
    pub open spec fn leaf(key_package: Option<KeyPackageView>) -> NodeView {
        NodeView { node_type: NodeType::Leaf, key_package, node: None }
    }

    /// A blank parent.
    pub open spec fn blank_parent() -> NodeView {
        NodeView { node_type: NodeType::Parent, key_package: None, node: None }
    }

    /// Whether the node holds neither a key package nor a parent node.
    pub open spec fn is_blank(self) -> bool {
        self.key_package.is_none() && self.node.is_none()
    }

    /// The node with what it holds taken out.
    pub open spec fn blanked(self) -> NodeView {
        NodeView { node_type: self.node_type, key_package: None, node: None }
    }

    /// The node with `parent` put in as its parent node.
    pub open spec fn with_parent(self, parent: ParentNodeView) -> NodeView {
        NodeView { node: Some(parent), ..self }
    }

    /// The public key to encrypt to this node: the init key of a leaf's key
    /// package, the key of a parent node.
    pub open spec fn public_hpke_key(self) -> Option<Seq<u8>> {
        match self.node_type {
            NodeType::Leaf => match self.key_package {
                Some(kp) => Some(kp.hpke_init_key),
                None => None,
            },
            NodeType::Parent => match self.node {
                Some(n) => Some(n.public_key),
                None => None,
            },
            NodeType::Default => None,
        }
    }

    /// The hash of the node's parent as the node records it: a parent's
    /// field, or the body of a leaf's parent-hash extension where that is
    /// well formed.
    pub open spec fn parent_hash(self) -> Option<Seq<u8>> {
        if self.is_blank() {
            None
        } else {
            match self.node_type {
                NodeType::Parent => match self.node {
                    Some(n) => Some(n.parent_hash),
                    None => None,
                },
                NodeType::Leaf => match self.key_package {
                    Some(kp) => match kp.parent_hash_body() {
                        Some(body) => match spec_parse_vec(VecSize::VecU8, body) {
                            Some((hash, rest)) => Some(hash),
                            None => None,
                        },
                        None => None,
                    },
                    None => None,
                },
                NodeType::Default => None,
            }
        }
    }

    /// Whether the node can be written.
    pub open spec fn encodable(self) -> bool {
        (self.key_package.is_some() ==> self.key_package.unwrap().encodable()) && (
        self.node.is_some() ==> self.node.unwrap().encodable())
    }

    /// The node on the wire: its kind, then the key package and the parent
    /// node, each as an optional value.
    pub open spec fn wire(self) -> Seq<u8> {
        spec_u8(self.node_type.spec_to_u8()) + spec_option(
            match self.key_package {
                Some(kp) => Some(kp.wire()),
                None => None,
            },
        ) + spec_option(
            match self.node {
                Some(n) => Some(n.wire()),
                None => None,
            },
        )
    }
}

impl NodeView {
    /// The node that a byte string starts with, and what follows it.
    pub open spec fn parse(s: Seq<u8>) -> Option<(NodeView, Seq<u8>)> {
        match spec_parse_u8(s) {
            Some((kind, r1)) => match spec_parse_u8(r1) {
                Some((has_package, r2)) => {
                    let package = if has_package == 0 {
                        Some((None::<KeyPackageView>, r2))
                    } else if has_package == 1 {
                        match KeyPackageView::parse(r2) {
                            Some((kp, r3)) => Some((Some(kp), r3)),
                            None => None,
                        }
                    } else {
                        None
                    };
                    match package {
                        Some((key_package, r3)) => match spec_parse_u8(r3) {
                            Some((has_parent, r4)) => if has_parent == 0 {
                                Some(
                                    (
                                        NodeView {
                                            node_type: NodeType::spec_from_u8(kind),
                                            key_package,
                                            node: None,
                                        },
                                        r4,
                                    ),
                                )
                            } else if has_parent == 1 {
                                match ParentNodeView::parse(r4) {
                                    Some((parent, r5)) => Some(
                                        (
                                            NodeView {
                                                node_type: NodeType::spec_from_u8(kind),
                                                key_package,
                                                node: Some(parent),
                                            },
                                            r5,
                                        ),
                                    ),
                                    None => None,
                                }
                            } else {
                                None
                            },
                            None => None,
                        },
                        None => None,
                    }
                },
                None => None,
            },
            None => None,
        }
    }
}

/// Reading a node that was written gives it back.
pub proof fn lemma_node_round_trip(n: NodeView, rest: Seq<u8>)
    requires
        n.encodable(),
    ensures
        NodeView::parse(n.wire() + rest) == Some((n, rest)),
{
    let parent_part = spec_option(
        match n.node {
            Some(p) => Some(p.wire()),
            None => None,
        },
    );
    let package_part = spec_option(
        match n.key_package {
            Some(kp) => Some(kp.wire()),
            None => None,
        },
    );
    let r3 = parent_part + rest;
    let r1 = package_part + r3;
    assert(n.wire() + rest =~= spec_u8(n.node_type.spec_to_u8()) + r1);
    lemma_parse_u8(n.node_type.spec_to_u8(), r1);
    match n.key_package {
        Some(kp) => {
            assert(r1 =~= spec_u8(1) + (kp.wire() + r3));
            lemma_parse_u8(1, kp.wire() + r3);
            lemma_key_package_round_trip(kp, r3);
        },
        None => {
            assert(r1 =~= spec_u8(0) + r3);
            lemma_parse_u8(0, r3);
        },
    }
    match n.node {
        Some(p) => {
            assert(r3 =~= spec_u8(1) + (p.wire() + rest));
            lemma_parse_u8(1, p.wire() + rest);
            lemma_parent_node_round_trip(p, rest);
        },
        None => {
            assert(r3 =~= spec_u8(0) + rest);
            lemma_parse_u8(0, rest);
        },
    }
}

/// A node that is read takes at least three bytes.
pub proof fn lemma_node_parse_len(s: Seq<u8>)
    ensures
        NodeView::parse(s).is_some() ==> s.len() >= 3,
{
    lemma_parse_int_len(s);
    if spec_parse_u8(s).is_some() {
        let r1 = spec_parse_u8(s).unwrap().1;
        lemma_parse_int_len(r1);
        if spec_parse_u8(r1).is_some() {
            let r2 = spec_parse_u8(r1).unwrap().1;
            lemma_parse_int_len(r2);
        }
    }
}

impl Node {
    /// Reads a node; fails where the bytes end early or do not hold a
    /// node.
    pub fn decode(cursor: &mut Cursor) -> (r: Result<Node, CodecError>)
        ensures
            match NodeView::parse(old(cursor).remaining()) {
                Some((n, rest)) => r.is_ok() && r.unwrap()@ == n && final(cursor).remaining()
                    == rest,
                None => r.is_err() && r.unwrap_err() == CodecError::DecodingError,
            },
    {
        let kind = match cursor.decode_u8() {
            Ok(v) => v,
            Err(e) => {
                return Err(e);
            },
        };
        let has_package = match cursor.decode_u8() {
            Ok(v) => v,
            Err(e) => {
                return Err(e);
            },
        };
        let key_package = if has_package == 0 {
            None
        } else if has_package == 1 {
            match KeyPackage::decode(cursor) {
                Ok(kp) => Some(kp),
                Err(e) => {
                    return Err(e);
                },
            }
        } else {
            return Err(CodecError::DecodingError);
        };
        let has_parent = match cursor.decode_u8() {
            Ok(v) => v,
            Err(e) => {
                return Err(e);
            },
        };
        let node = if has_parent == 0 {
            None
        } else if has_parent == 1 {
            match ParentNode::decode(cursor) {
                Ok(p) => Some(p),
                Err(e) => {
                    return Err(e);
                },
            }
        } else {
            return Err(CodecError::DecodingError);
        };
        Ok(Node { node_type: NodeType::from_u8(kind), key_package, node })
    }

    pub fn new_leaf(key_package: Option<KeyPackage>) -> (r: Node)
        ensures
            r@ == NodeView::leaf(
                match key_package {
                    Some(kp) => Some(kp@),
                    None => None,
                },
            ),
    {
        Node { node_type: NodeType::Leaf, key_package, node: None }
    }

    pub fn new_blank_parent_node() -> (r: Node)
        ensures
            r@ == NodeView::blank_parent(),
    {
        Node { node_type: NodeType::Parent, key_package: None, node: None }
    }

    pub fn is_blank(&self) -> (r: bool)
        ensures
            r == self@.is_blank(),
    {
        self.key_package.is_none() && self.node.is_none()
    }

    /// Takes out what the node holds.
    pub fn blank(&mut self)
        ensures
            final(self)@ == old(self)@.blanked(),
    {
        self.key_package = None;
        self.node = None;
    }

    /// The public key to encrypt to this node, if it has one.
    pub fn get_public_hpke_key(&self) -> (r: Option<HPKEPublicKey>)
        ensures
            match self@.public_hpke_key() {
                Some(key) => r.is_some() && r.unwrap()@ == key,
                None => r.is_none(),
            },
    {
        match self.node_type {
            NodeType::Leaf => match &self.key_package {
                Some(kp) => Some(kp.get_hpke_init_key().clone()),
                None => None,
            },
            NodeType::Parent => match &self.node {
                Some(n) => Some(n.get_public_key().clone()),
                None => None,
            },
            NodeType::Default => None,
        }
    }

    /// The hash of the node's parent as the node records it.
    pub fn parent_hash(&self) -> (r: Option<Vec<u8>>)
        ensures
            match self@.parent_hash() {
                Some(hash) => r.is_some() && r.unwrap()@ == hash,
                None => r.is_none(),
            },
    {
        if self.is_blank() {
            return None;
        }
        match self.node_type {
            NodeType::Parent => match &self.node {
                Some(n) => Some(copy_bytes(n.get_parent_hash())),
                None => None,
            },
            NodeType::Leaf => match &self.key_package {
                Some(kp) => match kp.parent_hash_body() {
                    Some(body) => match ParentHashExtension::new_from_bytes(body) {
                        Ok(extension) => Some(extension.parent_hash),
                        Err(e) => None,
                    },
                    None => None,
                },
                None => None,
            },
            NodeType::Default => None,
        }
    }

    /// The bytes whose digest is this node's hash: the parent node as it
    /// stands on the wire. None where the node holds no parent node.
    pub fn hash_input(&self) -> (r: Result<Option<Vec<u8>>, CodecError>)
        ensures
            match self@.node {
                Some(n) => if n.encodable() {
                    r.is_ok() && r.unwrap().is_some() && r.unwrap().unwrap()@ == n.wire()
                } else {
                    r.is_err() && r.unwrap_err() == CodecError::EncodingError
                },
                None => r.is_ok() && r.unwrap().is_none(),
            },
    {
        match &self.node {
            Some(n) => match n.encode_detached() {
                Ok(bytes) => Ok(Some(bytes)),
                Err(e) => Err(e),
            },
            None => Ok(None),
        }
    }

    /// The node as it stands on the wire; fails where a part is too long for
    /// its length prefix.
    pub fn encode_detached(&self) -> (r: Result<Vec<u8>, CodecError>)
        ensures
            self@.encodable() ==> r.is_ok() && r.unwrap()@ == self@.wire(),
            !self@.encodable() ==> r.is_err() && r.unwrap_err() == CodecError::EncodingError,
    {
        let mut buffer: Vec<u8> = Vec::new();
        encode_u8(&mut buffer, self.node_type.to_u8());
        match &self.key_package {
            Some(kp) => {
                let bytes = match kp.encode_detached() {
                    Ok(bytes) => bytes,
                    Err(e) => {
                        return Err(e);
                    },
                };
                buffer.push(1u8);
                append_bytes(&mut buffer, bytes.as_slice());
            },
            None => {
                buffer.push(0u8);
            },
        }
        match &self.node {
            Some(n) => {
                let bytes = match n.encode_detached() {
                    Ok(bytes) => bytes,
                    Err(e) => {
                        return Err(e);
                    },
                };
                buffer.push(1u8);
                append_bytes(&mut buffer, bytes.as_slice());
            },
            None => {
                buffer.push(0u8);
            },
        }
        assert(buffer@ =~= self@.wire());
        Ok(buffer)
    }
}

impl Clone for Node {
    fn clone(&self) -> (r: Self)
        ensures
            r@ == self@,
    {
        Node {
            node_type: self.node_type,
            key_package: match &self.key_package {
                Some(kp) => Some(kp.clone()),
                None => None,
            },
            node: match &self.node {
                Some(n) => Some(n.clone()),
                None => None,
            },
        }
    }
}

impl PartialEq for Node {
    fn eq(&self, other: &Self) -> (r: bool) {
        let kinds = self.node_type == other.node_type;
        let packages = match (&self.key_package, &other.key_package) {
            (Some(a), Some(b)) => a == b,
            (None, None) => true,
            _ => false,
        };
        let parents = match (&self.node, &other.node) {
            (Some(a), Some(b)) => a == b,
            (None, None) => true,
            _ => false,
        };
        kinds && packages && parents
    }
}

impl PartialEqSpecImpl for Node {
    open spec fn obeys_eq_spec() -> bool {
        true
    }

    open spec fn eq_spec(&self, other: &Self) -> bool {
        self@ == other@
    }
}

/// The views of a list of nodes.
pub open spec fn spec_node_views(s: Seq<Node>) -> Seq<NodeView> {
    s.map_values(|n: Node| n@)
}

} // verus!
