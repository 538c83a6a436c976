use vstd::prelude::*;
use crate::ciphersuite::{
    HPKEKeyPair, HPKEKeyPairView, HPKEPrivateKey, HPKEPublicKey, HpkeCiphertext, HpkeCiphertextView,
};
use crate::ciphersuite::{lemma_ciphertext_len, lemma_ciphertext_round_trip};
use crate::codec::{
    append_bytes, encode_vec, join_bytes, lemma_list_round_trip, lemma_parse_vec,
    lemma_parse_vec_len, lemma_vec_len, spec_byte_views, spec_concat, spec_parse_list,
    spec_parse_vec, spec_vec, CodecError, Cursor, VecSize,
};
use crate::key_packages::lemma_key_package_round_trip;
use crate::key_packages::{KeyPackage, KeyPackageBundle, KeyPackageBundleView, KeyPackageView};
use crate::tree::apply::{spec_set_leaf, TreeError, TreeView};
use crate::tree::index::{LeafIndex, NodeIndex};
use crate::tree::node::{Node, NodeView};
use crate::tree::ratchet_tree::{
    lemma_merge_shape, lemma_width_of_len, spec_add_keypairs, spec_keypair_views, spec_leaf_count,
    spec_merge, spec_public_keys, spec_resolve, spec_shape_ok, OwnLeaf, OwnLeafView, PathKeypairs,
    RatchetTree,
};
use crate::tree::treemath;
use crate::tree::treemath::{
    spec_common_ancestor, spec_copath, spec_dirpath_long, spec_dirpath_root, spec_first_index,
    spec_indices,
};

verus! {

/// One node of a direct path: the node's new public key, and the secret
/// from which it was derived, encrypted once to each member of the
/// resolution of the node's other child.
#[derive(Debug)]
pub struct DirectPathNode {
    pub public_key: HPKEPublicKey,
    pub encrypted_path_secret: Vec<HpkeCiphertext>,
}

pub struct DirectPathNodeView {
    pub public_key: Seq<u8>,
    pub encrypted_path_secret: Seq<HpkeCiphertextView>,
}

/// The views of a list of ciphertexts.
pub open spec fn spec_ciphertext_views(s: Seq<HpkeCiphertext>) -> Seq<HpkeCiphertextView> {
    s.map_values(|c: HpkeCiphertext| c@)
}

impl View for DirectPathNode {
    type V = DirectPathNodeView;

    open spec fn view(&self) -> DirectPathNodeView {
        DirectPathNodeView {
            public_key: self.public_key@,
            encrypted_path_secret: spec_ciphertext_views(self.encrypted_path_secret@),
        }
    }
}

impl DirectPathNodeView {
    /// The ciphertexts of the node as they stand on the wire.
    pub open spec fn ciphertext_wires(self) -> Seq<Seq<u8>> {
        self.encrypted_path_secret.map_values(|c: HpkeCiphertextView| c.wire())
    }

    /// Whether the key and every ciphertext can be written, and the
    /// ciphertexts fit behind a four-byte length.
    pub open spec fn encodable(self) -> bool {
        &&& self.public_key.len() <= 0xffff
        &&& forall|i: int|
            0 <= i < self.encrypted_path_secret.len() ==> (
            #[trigger] self.encrypted_path_secret[i]).encodable()
        &&& spec_concat(self.ciphertext_wires()).len() <= 0xffff_ffff
    }

    /// The node on the wire: the key behind a two-byte length, then the
    /// ciphertexts behind a four-byte length.
    pub open spec fn wire(self) -> Seq<u8> {
        spec_vec(VecSize::VecU16, self.public_key) + spec_vec(
            VecSize::VecU32,
            spec_concat(self.ciphertext_wires()),
        )
    }
}

impl DirectPathNodeView {
    /// The node that a byte string starts with, and what follows it.
    pub open spec fn parse(s: Seq<u8>) -> Option<(DirectPathNodeView, Seq<u8>)> {
        match spec_parse_vec(VecSize::VecU16, s) {
            Some((public_key, r1)) => match spec_parse_vec(VecSize::VecU32, r1) {
                Some((payload, r2)) => match spec_parse_list(
                    payload,
                    |b: Seq<u8>| HpkeCiphertextView::parse(b),
                ) {
                    Some(encrypted_path_secret) => Some(
                        (DirectPathNodeView { public_key, encrypted_path_secret }, r2),
                    ),
                    None => None,
                },
                None => None,
            },
            None => None,
        }
    }
}

/// A node of a direct path takes at least six bytes, written or read.
pub proof fn lemma_path_node_len(n: DirectPathNodeView, s: Seq<u8>)
    ensures
        n.wire().len() >= 6,
        DirectPathNodeView::parse(s).is_some() ==> DirectPathNodeView::parse(s).unwrap().1.len() + 6
            <= s.len(),
{
    lemma_vec_len(VecSize::VecU16, n.public_key);
    lemma_vec_len(VecSize::VecU32, spec_concat(n.ciphertext_wires()));
    lemma_parse_vec_len(VecSize::VecU16, s);
    if spec_parse_vec(VecSize::VecU16, s).is_some() {
        lemma_parse_vec_len(VecSize::VecU32, spec_parse_vec(VecSize::VecU16, s).unwrap().1);
    }
}

/// Reading a node of a direct path that was written gives it back.
pub proof fn lemma_path_node_round_trip(n: DirectPathNodeView, rest: Seq<u8>)
    requires
        n.encodable(),
    ensures
        DirectPathNodeView::parse(n.wire() + rest) == Some((n, rest)),
{
    let payload = spec_concat(n.ciphertext_wires());
    let r1 = spec_vec(VecSize::VecU32, payload) + rest;
    assert(n.wire() + rest =~= spec_vec(VecSize::VecU16, n.public_key) + r1);
    lemma_parse_vec(VecSize::VecU16, n.public_key, r1);
    lemma_parse_vec(VecSize::VecU32, payload, rest);
    let wire = |c: HpkeCiphertextView| c.wire();
    let item = |b: Seq<u8>| HpkeCiphertextView::parse(b);
    let items = n.encrypted_path_secret;
    assert forall|i: int, r: Seq<u8>| 0 <= i < items.len() implies #[trigger] item(
        wire(items[i]) + r,
    ) == Some((items[i], r)) by {
        lemma_ciphertext_round_trip(items[i], r);
    }
    assert forall|i: int| 0 <= i < items.len() implies (#[trigger] wire(items[i])).len() > 0 by {
        lemma_ciphertext_len(items[i], Seq::empty());
    }
    lemma_list_round_trip(items, wire, item);
}

impl DirectPathNode {
    /// Reads a node of a direct path; fails where the bytes end early.
    pub fn decode(cursor: &mut Cursor) -> (r: Result<DirectPathNode, CodecError>)
        ensures
            match DirectPathNodeView::parse(old(cursor).remaining()) {
                Some((n, rest)) => r.is_ok() && r.unwrap()@ == n && final(cursor).remaining()
                    == rest,
                None => r.is_err() && r.unwrap_err() == CodecError::DecodingError,
            },
    {
        let public_key = match cursor.decode_vec(VecSize::VecU16) {
            Ok(v) => v,
            Err(e) => {
                return Err(e);
            },
        };
        let payload = match cursor.decode_vec(VecSize::VecU32) {
            Ok(v) => v,
            Err(e) => {
                return Err(e);
            },
        };
        let ghost item = |b: Seq<u8>| HpkeCiphertextView::parse(b);
        let ghost expected = DirectPathNodeView::parse(old(cursor).remaining());
        let ghost after = cursor.remaining();
        let mut inner = Cursor::new(payload.as_slice());
        let mut ciphertexts: Vec<HpkeCiphertext> = Vec::new();
        assert(spec_ciphertext_views(ciphertexts@) =~= Seq::<HpkeCiphertextView>::empty());
        while !inner.is_empty()
            invariant
                item == |b: Seq<u8>| HpkeCiphertextView::parse(b),
                cursor.remaining() == after,
                expected == DirectPathNodeView::parse(old(cursor).remaining()),
                expected == match spec_parse_list(payload@, item) {
                    Some(list) => Some(
                        (
                            DirectPathNodeView {
                                public_key: public_key@,
                                encrypted_path_secret: list,
                            },
                            after,
                        ),
                    ),
                    None => None,
                },
                spec_parse_list(payload@, item) == match spec_parse_list(inner.remaining(), item) {
                    Some(tail) => Some(spec_ciphertext_views(ciphertexts@) + tail),
                    None => None,
                },
            decreases inner.remaining().len(),
        {
            let ghost before = inner.remaining();
            let ghost done = ciphertexts@;
            proof {
                lemma_ciphertext_len(
                    HpkeCiphertextView { kem_output: Seq::empty(), ciphertext: Seq::empty() },
                    before,
                );
            }
            let ciphertext = match HpkeCiphertext::decode(&mut inner) {
                Ok(c) => c,
                Err(e) => {
                    return Err(e);
                },
            };
            proof {
                assert(spec_ciphertext_views(done.push(ciphertext)) =~= spec_ciphertext_views(
                    done,
                ).push(ciphertext@));
                match spec_parse_list(inner.remaining(), item) {
                    Some(tail) => {
                        assert(spec_ciphertext_views(done) + (seq![ciphertext@] + tail)
                            =~= spec_ciphertext_views(done).push(ciphertext@) + tail);
                    },
                    None => {},
                }
            }
            ciphertexts.push(ciphertext);
        }
        assert(spec_ciphertext_views(ciphertexts@) + Seq::<HpkeCiphertextView>::empty()
            =~= spec_ciphertext_views(ciphertexts@));
        Ok(
            DirectPathNode {
                public_key: HPKEPublicKey::new(public_key),
                encrypted_path_secret: ciphertexts,
            },
        )
    }

    /// The node as it stands on the wire; fails where a part cannot be
    /// written.
    pub fn encode_detached(&self) -> (r: Result<Vec<u8>, CodecError>)
        ensures
            self@.encodable() ==> r.is_ok() && r.unwrap()@ == self@.wire(),
            !self@.encodable() ==> r.is_err() && r.unwrap_err() == CodecError::EncodingError,
    {
        let ghost wires = self@.ciphertext_wires();
        let mut encoded: Vec<Vec<u8>> = Vec::new();
        let mut i: usize = 0;
        assert(spec_byte_views(encoded@) =~= wires.take(0));
        while i < self.encrypted_path_secret.len()
            invariant
                i <= self.encrypted_path_secret@.len(),
                wires == self@.ciphertext_wires(),
                spec_byte_views(encoded@) == wires.take(i as int),
                forall|j: int| 0 <= j < i ==> (#[trigger] self@.encrypted_path_secret[j]).encodable(),
            decreases self.encrypted_path_secret@.len() - i,
        {
            let ghost done = encoded@;
            assert(self@.encrypted_path_secret[i as int] == self.encrypted_path_secret@[i as int]@);
            let bytes = match self.encrypted_path_secret[i].encode_detached() {
                Ok(bytes) => bytes,
                Err(e) => {
                    return Err(e);
                },
            };
            assert(spec_byte_views(done.push(bytes)) =~= spec_byte_views(done).push(bytes@));
            encoded.push(bytes);
            i += 1;
            assert(spec_byte_views(encoded@) =~= wires.take(i as int));
        }
        assert(wires.take(i as int) =~= wires);
        let payload = join_bytes(&encoded);
        let mut buffer: Vec<u8> = Vec::new();
        match encode_vec(VecSize::VecU16, &mut buffer, self.public_key.as_slice()) {
            Ok(()) => {},
            Err(e) => {
                return Err(e);
            },
        }
        match encode_vec(VecSize::VecU32, &mut buffer, payload.as_slice()) {
            Ok(()) => {},
            Err(e) => {
                return Err(e);
            },
        }
        assert(buffer@ =~= self@.wire());
        Ok(buffer)
    }
}

impl Clone for DirectPathNode {
    fn clone(&self) -> (r: Self)
        ensures
            r@ == self@,
    {
        let ciphertexts = self.encrypted_path_secret.clone();
        assert(spec_ciphertext_views(ciphertexts@) =~= spec_ciphertext_views(
            self.encrypted_path_secret@,
        ));
        DirectPathNode { public_key: self.public_key.clone(), encrypted_path_secret: ciphertexts }
    }
}

/// What a committer sends along with a commit: its new key package, and
/// the nodes above its leaf up to the root, lowest first.
#[derive(Debug)]
pub struct DirectPath {
    pub leaf_key_package: KeyPackage,
    pub nodes: Vec<DirectPathNode>,
}

pub struct DirectPathView {
    pub leaf_key_package: KeyPackageView,
    pub nodes: Seq<DirectPathNodeView>,
}

/// The views of a list of path nodes.
pub open spec fn spec_path_node_views(s: Seq<DirectPathNode>) -> Seq<DirectPathNodeView> {
    s.map_values(|n: DirectPathNode| n@)
}

impl View for DirectPath {
    type V = DirectPathView;

    open spec fn view(&self) -> DirectPathView {
        DirectPathView {
            leaf_key_package: self.leaf_key_package@,
            nodes: spec_path_node_views(self.nodes@),
        }
    }
}

impl DirectPathView {
    /// The public keys of the nodes of the path.
    pub open spec fn public_keys(self) -> Seq<Seq<u8>> {
        self.nodes.map_values(|n: DirectPathNodeView| n.public_key)
    }
}

impl DirectPathView {
    /// The nodes of the path as they stand on the wire.
    pub open spec fn node_wires(self) -> Seq<Seq<u8>> {
        self.nodes.map_values(|n: DirectPathNodeView| n.wire())
    }

    /// Whether the key package and every node can be written, and the
    /// nodes fit behind a four-byte length.
    pub open spec fn encodable(self) -> bool {
        &&& self.leaf_key_package.encodable()
        &&& forall|i: int| 0 <= i < self.nodes.len() ==> (#[trigger] self.nodes[i]).encodable()
        &&& spec_concat(self.node_wires()).len() <= 0xffff_ffff
    }

    /// The path on the wire: the key package, then the nodes behind a
    /// four-byte length.
    pub open spec fn wire(self) -> Seq<u8> {
        self.leaf_key_package.wire() + spec_vec(VecSize::VecU32, spec_concat(self.node_wires()))
    }
}

impl DirectPathView {
    /// The path that a byte string starts with, and what follows it.
    pub open spec fn parse(s: Seq<u8>) -> Option<(DirectPathView, Seq<u8>)> {
        match KeyPackageView::parse(s) {
            Some((leaf_key_package, r1)) => match spec_parse_vec(VecSize::VecU32, r1) {
                Some((payload, r2)) => match spec_parse_list(
                    payload,
                    |b: Seq<u8>| DirectPathNodeView::parse(b),
                ) {
                    Some(nodes) => Some((DirectPathView { leaf_key_package, nodes }, r2)),
                    None => None,
                },
                None => None,
            },
            None => None,
        }
    }
}

/// Reading a direct path that was written gives it back.
pub proof fn lemma_direct_path_round_trip(p: DirectPathView, rest: Seq<u8>)
    requires
        p.encodable(),
    ensures
        DirectPathView::parse(p.wire() + rest) == Some((p, rest)),
{
    let payload = spec_concat(p.node_wires());
    let r1 = spec_vec(VecSize::VecU32, payload) + rest;
    assert(p.wire() + rest =~= p.leaf_key_package.wire() + r1);
    lemma_key_package_round_trip(p.leaf_key_package, r1);
    lemma_parse_vec(VecSize::VecU32, payload, rest);
    let wire = |n: DirectPathNodeView| n.wire();
    let item = |b: Seq<u8>| DirectPathNodeView::parse(b);
    let items = p.nodes;
    assert forall|i: int, r: Seq<u8>| 0 <= i < items.len() implies #[trigger] item(
        wire(items[i]) + r,
    ) == Some((items[i], r)) by {
        lemma_path_node_round_trip(items[i], r);
    }
    assert forall|i: int| 0 <= i < items.len() implies (#[trigger] wire(items[i])).len() > 0 by {
        lemma_path_node_len(items[i], Seq::empty());
    }
    lemma_list_round_trip(items, wire, item);
}

impl DirectPath {
    /// Reads a direct path; fails where the bytes end early or do not
    /// hold a direct path.
    pub fn decode(cursor: &mut Cursor) -> (r: Result<DirectPath, CodecError>)
        ensures
            match DirectPathView::parse(old(cursor).remaining()) {
                Some((p, rest)) => r.is_ok() && r.unwrap()@ == p && final(cursor).remaining()
                    == rest,
                None => r.is_err() && r.unwrap_err() == CodecError::DecodingError,
            },
    {
        let leaf_key_package = match KeyPackage::decode(cursor) {
            Ok(v) => v,
            Err(e) => {
                return Err(e);
            },
        };
        let payload = match cursor.decode_vec(VecSize::VecU32) {
            Ok(v) => v,
            Err(e) => {
                return Err(e);
            },
        };
        let ghost item = |b: Seq<u8>| DirectPathNodeView::parse(b);
        let ghost expected = DirectPathView::parse(old(cursor).remaining());
        let ghost after = cursor.remaining();
        let mut inner = Cursor::new(payload.as_slice());
        let mut nodes: Vec<DirectPathNode> = Vec::new();
        assert(spec_path_node_views(nodes@) =~= Seq::<DirectPathNodeView>::empty());
        while !inner.is_empty()
            invariant
                item == |b: Seq<u8>| DirectPathNodeView::parse(b),
                cursor.remaining() == after,
                expected == DirectPathView::parse(old(cursor).remaining()),
                expected == match spec_parse_list(payload@, item) {
                    Some(list) => Some(
                        (
                            DirectPathView { leaf_key_package: leaf_key_package@, nodes: list },
                            after,
                        ),
                    ),
                    None => None,
                },
                spec_parse_list(payload@, item) == match spec_parse_list(inner.remaining(), item) {
                    Some(tail) => Some(spec_path_node_views(nodes@) + tail),
                    None => None,
                },
            decreases inner.remaining().len(),
        {
            let ghost before = inner.remaining();
            let ghost done = nodes@;
            proof {
                lemma_path_node_len(
                    DirectPathNodeView {
                        public_key: Seq::empty(),
                        encrypted_path_secret: Seq::empty(),
                    },
                    before,
                );
            }
            let node = match DirectPathNode::decode(&mut inner) {
                Ok(n) => n,
                Err(e) => {
                    return Err(e);
                },
            };
            proof {
                assert(spec_path_node_views(done.push(node)) =~= spec_path_node_views(done).push(
                    node@,
                ));
                match spec_parse_list(inner.remaining(), item) {
                    Some(tail) => {
                        assert(spec_path_node_views(done) + (seq![node@] + tail)
                            =~= spec_path_node_views(done).push(node@) + tail);
                    },
                    None => {},
                }
            }
            nodes.push(node);
        }
        assert(spec_path_node_views(nodes@) + Seq::<DirectPathNodeView>::empty()
            =~= spec_path_node_views(nodes@));
        Ok(DirectPath { leaf_key_package, nodes })
    }

    /// The path as it stands on the wire; fails where a part cannot be
    /// written.
    pub fn encode_detached(&self) -> (r: Result<Vec<u8>, CodecError>)
        ensures
            self@.encodable() ==> r.is_ok() && r.unwrap()@ == self@.wire(),
            !self@.encodable() ==> r.is_err() && r.unwrap_err() == CodecError::EncodingError,
    {
        let mut buffer = match self.leaf_key_package.encode_detached() {
            Ok(bytes) => bytes,
            Err(e) => {
                return Err(e);
            },
        };
        let ghost wires = self@.node_wires();
        let mut encoded: Vec<Vec<u8>> = Vec::new();
        let mut i: usize = 0;
        assert(spec_byte_views(encoded@) =~= wires.take(0));
        while i < self.nodes.len()
            invariant
                i <= self.nodes@.len(),
                wires == self@.node_wires(),
                spec_byte_views(encoded@) == wires.take(i as int),
                forall|j: int| 0 <= j < i ==> (#[trigger] self@.nodes[j]).encodable(),
            decreases self.nodes@.len() - i,
        {
            let ghost done = encoded@;
            assert(self@.nodes[i as int] == self.nodes@[i as int]@);
            let bytes = match self.nodes[i].encode_detached() {
                Ok(bytes) => bytes,
                Err(e) => {
                    return Err(e);
                },
            };
            assert(spec_byte_views(done.push(bytes)) =~= spec_byte_views(done).push(bytes@));
            encoded.push(bytes);
            i += 1;
            assert(spec_byte_views(encoded@) =~= wires.take(i as int));
        }
        assert(wires.take(i as int) =~= wires);
        let payload = join_bytes(&encoded);
        match encode_vec(VecSize::VecU32, &mut buffer, payload.as_slice()) {
            Ok(()) => {},
            Err(e) => {
                return Err(e);
            },
        }
        assert(buffer@ =~= self@.wire());
        Ok(buffer)
    }
}

impl Clone for DirectPath {
    fn clone(&self) -> (r: Self)
        ensures
            r@ == self@,
    {
        let nodes = self.nodes.clone();
        assert(spec_path_node_views(nodes@) =~= spec_path_node_views(self.nodes@));
        DirectPath { leaf_key_package: self.leaf_key_package.clone(), nodes }
    }
}

/// The public keys of the members of a resolution; none where a member
/// lies outside the tree or holds no key.
pub open spec fn spec_resolution_keys(nodes: Seq<NodeView>, members: Seq<nat>) -> Option<
    Seq<Seq<u8>>,
> {
    if forall|i: int|
        0 <= i < members.len() ==> (#[trigger] members[i]) < nodes.len()
            && nodes[members[i] as int].public_hpke_key().is_some() {
        Some(
            Seq::new(
                members.len(),
                |i: int| nodes[members[i] as int].public_hpke_key().unwrap(),
            ),
        )
    } else {
        None
    }
}

/// For each node of a copath, the public keys of its resolution; none
/// where a member of a resolution lies outside the tree or holds no key.
pub open spec fn spec_copath_keys(nodes: Seq<NodeView>, copath: Seq<nat>) -> Option<
    Seq<Seq<Seq<u8>>>,
> {
    if forall|i: int|
        0 <= i < copath.len() ==> (#[trigger] spec_resolution_keys(
            nodes,
            spec_resolve(nodes, copath[i]),
        )).is_some() {
        Some(
            Seq::new(
                copath.len(),
                |i: int| spec_resolution_keys(nodes, spec_resolve(nodes, copath[i])).unwrap(),
            ),
        )
    } else {
        None
    }
}

/// The views of a list of public keys.
pub open spec fn spec_key_views(s: Seq<HPKEPublicKey>) -> Seq<Seq<u8>> {
    s.map_values(|k: HPKEPublicKey| k@)
}

/// The views of a list of lists of public keys.
pub open spec fn spec_key_lists(s: Seq<Vec<HPKEPublicKey>>) -> Seq<Seq<Seq<u8>>> {
    s.map_values(|l: Vec<HPKEPublicKey>| spec_key_views(l@))
}

/// The views of a list of lists of ciphertexts.
pub open spec fn spec_ciphertext_lists(s: Seq<Vec<HpkeCiphertext>>) -> Seq<Seq<HpkeCiphertextView>> {
    s.map_values(|l: Vec<HpkeCiphertext>| spec_ciphertext_views(l@))
}

/// The direct path that a committer sends: for each node above its leaf
/// the public key of the node's new key pair, with the ciphertexts made
/// for the resolution of the copath node beside it.
pub open spec fn spec_assemble(
    key_package: KeyPackageView,
    pairs: Seq<HPKEKeyPairView>,
    ciphertexts: Seq<Seq<HpkeCiphertextView>>,
) -> DirectPathView {
    DirectPathView {
        leaf_key_package: key_package,
        nodes: Seq::new(
            pairs.len(),
            |i: int|
                DirectPathNodeView {
                    public_key: pairs[i].public_key,
                    encrypted_path_secret: ciphertexts[i],
                },
        ),
    }
}

impl RatchetTree {
    /// The public keys of the members of the resolution of a node.
    fn resolution_keys(&self, index: NodeIndex) -> (r: Result<Vec<HPKEPublicKey>, TreeError>)
        requires
            self.wf(),
            index.0 < self.nodes@.len(),
        ensures
            match spec_resolution_keys(
                self.node_views(),
                spec_resolve(self.node_views(), index.0 as nat),
            ) {
                Some(keys) => r.is_ok() && spec_key_views(r.unwrap()@) == keys,
                None => r.is_err() && r.unwrap_err() == TreeError::MissingPublicKey,
            },
    {
        let members = self.resolve(index);
        let ghost nodes = self.node_views();
        let ghost positions = spec_indices(members@);
        let mut keys: Vec<HPKEPublicKey> = Vec::new();
        let mut i: usize = 0;
        while i < members.len()
            invariant
                i <= members@.len(),
                nodes == self.node_views(),
                positions == spec_indices(members@),
                positions == spec_resolve(nodes, index.0 as nat),
                keys@.len() == i,
                forall|j: int|
                    0 <= j < i ==> (#[trigger] positions[j]) < nodes.len()
                        && nodes[positions[j] as int].public_hpke_key() == Some(keys@[j]@),
            decreases members@.len() - i,
        {
            assert(positions[i as int] == members@[i as int].0);
            if members[i].as_usize() >= self.nodes.len() {
                assert(!(positions[i as int] < nodes.len()));
                assert(spec_resolution_keys(nodes, positions).is_none());
                return Err(TreeError::MissingPublicKey);
            }
            match self.nodes[members[i].as_usize()].get_public_hpke_key() {
                Some(key) => {
                    keys.push(key);
                },
                None => {
                    assert(nodes[positions[i as int] as int].public_hpke_key().is_none());
                    assert(spec_resolution_keys(nodes, positions).is_none());
                    return Err(TreeError::MissingPublicKey);
                },
            }
            i += 1;
        }
        assert(spec_key_views(keys@) =~= spec_resolution_keys(nodes, positions).unwrap());
        Ok(keys)
    }

    /// For each node of the member's copath, lowest first, the public
    /// keys to which the committer encrypts the path secret of the node
    /// beside it: those of the members of the copath node's resolution.
    /// Fails where a member of a resolution lies outside the tree or
    /// holds no key.
    pub fn copath_resolutions(&self) -> (r: Result<Vec<Vec<HPKEPublicKey>>, TreeError>)
        requires
            self.wf(),
            self.has_own_leaf(),
        ensures
            match spec_copath_keys(
                self.node_views(),
                spec_copath(self.own_leaf.node_index.0 as nat, self.spec_size()),
            ) {
                Some(keys) => r.is_ok() && spec_key_lists(r.unwrap()@) == keys,
                None => r.is_err() && r.unwrap_err() == TreeError::MissingPublicKey,
            },
    {
        let size = self.leaf_count();
        proof {
            lemma_width_of_len(self.nodes@.len());
        }
        let copath = treemath::copath(self.own_leaf.node_index, size);
        let ghost nodes = self.node_views();
        let ghost positions = spec_indices(copath@);
        let mut lists: Vec<Vec<HPKEPublicKey>> = Vec::new();
        let mut i: usize = 0;
        while i < copath.len()
            invariant
                i <= copath@.len(),
                self.wf(),
                nodes == self.node_views(),
                positions == spec_indices(copath@),
                positions == spec_copath(self.own_leaf.node_index.0 as nat, self.spec_size()),
                forall|j: int| 0 <= j < copath@.len() ==> (#[trigger] copath@[j]).0 < nodes.len(),
                lists@.len() == i,
                forall|j: int|
                    0 <= j < i ==> (#[trigger] spec_resolution_keys(
                        nodes,
                        spec_resolve(nodes, positions[j]),
                    )) == Some(spec_key_views(lists@[j]@)),
            decreases copath@.len() - i,
        {
            assert(positions[i as int] == copath@[i as int].0);
            match self.resolution_keys(copath[i]) {
                Ok(keys) => {
                    lists.push(keys);
                },
                Err(e) => {
                    assert(spec_resolution_keys(
                        nodes,
                        spec_resolve(nodes, positions[i as int]),
                    ).is_none());
                    assert(spec_copath_keys(nodes, positions).is_none());
                    return Err(e);
                },
            }
            i += 1;
        }
        assert(spec_key_lists(lists@) =~= spec_copath_keys(nodes, positions).unwrap());
        Ok(lists)
    }

    /// Puts together the direct path of a commit from the key pairs above
    /// the member's leaf and the ciphertexts that the caller has made:
    /// for each node of the copath one ciphertext for each key that
    /// `copath_resolutions` names, in that order. Fails where the numbers
    /// do not agree.
    pub fn encrypt_to_copath(
        &self,
        keypairs: &[HPKEKeyPair],
        ciphertexts: Vec<Vec<HpkeCiphertext>>,
        leaf_key_package: KeyPackage,
    ) -> (r: Result<DirectPath, TreeError>)
        requires
            self.wf(),
            self.has_own_leaf(),
        ensures
            match spec_copath_keys(
                self.node_views(),
                spec_copath(self.own_leaf.node_index.0 as nat, self.spec_size()),
            ) {
                Some(keys) => if keypairs@.len() == keys.len() && ciphertexts@.len() == keys.len()
                    && forall|i: int|
                    0 <= i < keys.len() ==> (#[trigger] ciphertexts@[i])@.len() == keys[i].len() {
                    r.is_ok() && r.unwrap()@ == spec_assemble(
                        leaf_key_package@,
                        spec_keypair_views(keypairs@),
                        spec_ciphertext_lists(ciphertexts@),
                    )
                } else {
                    r.is_err() && r.unwrap_err() == TreeError::WrongPathLength
                },
                None => r.is_err() && r.unwrap_err() == TreeError::MissingPublicKey,
            },
    {
        let recipients = match self.copath_resolutions() {
            Ok(lists) => lists,
            Err(e) => {
                return Err(e);
            },
        };
        let ghost keys = spec_key_lists(recipients@);
        if keypairs.len() != recipients.len() || ciphertexts.len() != recipients.len() {
            return Err(TreeError::WrongPathLength);
        }
        let mut j: usize = 0;
        while j < recipients.len()
            invariant
                j <= recipients@.len(),
                ciphertexts@.len() == recipients@.len(),
                keypairs@.len() == recipients@.len(),
                keys == spec_key_lists(recipients@),
                spec_copath_keys(
                    self.node_views(),
                    spec_copath(self.own_leaf.node_index.0 as nat, self.spec_size()),
                ) == Some(keys),
                forall|i: int|
                    0 <= i < j ==> (#[trigger] ciphertexts@[i])@.len() == keys[i].len(),
            decreases recipients@.len() - j,
        {
            assert(keys[j as int].len() == recipients@[j as int]@.len());
            if ciphertexts[j].len() != recipients[j].len() {
                assert(ciphertexts@[j as int]@.len() != keys[j as int].len());
                return Err(TreeError::WrongPathLength);
            }
            j += 1;
        }
        let ghost pairs = spec_keypair_views(keypairs@);
        let ghost lists = spec_ciphertext_lists(ciphertexts@);
        let mut direct_path_nodes: Vec<DirectPathNode> = Vec::new();
        let mut i: usize = 0;
        while i < keypairs.len()
            invariant
                i <= keypairs@.len(),
                ciphertexts@.len() == keypairs@.len(),
                pairs == spec_keypair_views(keypairs@),
                lists == spec_ciphertext_lists(ciphertexts@),
                direct_path_nodes@.len() == i,
                forall|k: int|
                    0 <= k < i ==> (#[trigger] direct_path_nodes@[k])@ == (DirectPathNodeView {
                        public_key: pairs[k].public_key,
                        encrypted_path_secret: lists[k],
                    }),
            decreases keypairs@.len() - i,
        {
            let node = DirectPathNode {
                public_key: keypairs[i].get_public_key().clone(),
                encrypted_path_secret: ciphertexts[i].clone(),
            };
            assert(node@.encrypted_path_secret =~= lists[i as int]);
            direct_path_nodes.push(node);
            i += 1;
        }
        let path = DirectPath { leaf_key_package, nodes: direct_path_nodes };
        assert(path@.nodes =~= spec_assemble(leaf_key_package@, pairs, lists).nodes);
        Ok(path)
    }

    /// Puts the public keys of a direct path on a path of parents. The
    /// path holds as many nodes as the direct path, all of them in the
    /// tree.
    pub fn merge_public_keys(&mut self, direct_path: &DirectPath, path: Vec<NodeIndex>)
        requires
            direct_path.nodes@.len() == path@.len(),
            forall|i: int| 0 <= i < path@.len() ==> (#[trigger] path@[i]).0 < old(self).nodes@.len(),
        ensures
            final(self).node_views() == spec_merge(
                old(self).node_views(),
                direct_path@.public_keys(),
                spec_indices(path@),
            ),
            final(self).nodes@.len() == old(self).nodes@.len(),
            final(self).own_leaf == old(self).own_leaf,
            final(self).ciphersuite == old(self).ciphersuite,
    {
        let ghost all = direct_path@.public_keys();
        let mut keys: Vec<HPKEPublicKey> = Vec::new();
        let mut i: usize = 0;
        while i < direct_path.nodes.len()
            invariant
                i <= direct_path.nodes@.len(),
                all == direct_path@.public_keys(),
                spec_key_views(keys@) == all.take(i as int),
            decreases direct_path.nodes@.len() - i,
        {
            let ghost copied = keys@;
            let key = direct_path.nodes[i].public_key.clone();
            assert(key@ == all[i as int]);
            assert(spec_key_views(copied.push(key)) =~= spec_key_views(copied).push(key@));
            keys.push(key);
            i += 1;
            assert(spec_key_views(keys@) =~= all.take(i as int));
        }
        assert(all.take(i as int) =~= all);
        self.merge_path_keys(&keys, path.as_slice());
    }

    /// Puts the member's new key package in its leaf and takes the key
    /// pairs above the leaf, lowest first, as the member's own: the
    /// private keys of the path are exactly these. Fails, and changes
    /// nothing, where the number of key pairs is not the number of nodes
    /// above the leaf.
    pub fn update_own_leaf(&mut self, kpb: KeyPackageBundle, keypairs: &[HPKEKeyPair]) -> (r:
        Result<(), TreeError>)
        requires
            old(self).wf(),
            old(self).has_own_leaf(),
        ensures
            final(self).ciphersuite == old(self).ciphersuite,
            if keypairs@.len() == spec_dirpath_root(
                old(self).own_leaf.node_index.0 as nat,
                old(self).spec_size(),
            ).len() {
                r.is_ok() && final(self).node_views() == spec_set_leaf(
                    old(self).node_views(),
                    old(self).own_leaf.node_index.0 as nat,
                    kpb@.key_package,
                ) && final(self).own_leaf@ == (OwnLeafView {
                    kpb: kpb@,
                    node_index: old(self).own_leaf.node_index,
                    path_keypairs: spec_add_keypairs(
                        Seq::empty(),
                        spec_keypair_views(keypairs@),
                        spec_dirpath_root(
                            old(self).own_leaf.node_index.0 as nat,
                            old(self).spec_size(),
                        ),
                    ),
                }) && final(self).wf() && final(self).has_own_leaf()
            } else {
                r.is_err() && r.unwrap_err() == TreeError::WrongPathLength && final(self).state()
                    == old(self).state()
            },
    {
        let size = self.leaf_count();
        proof {
            lemma_width_of_len(self.nodes@.len());
        }
        let own_index = self.own_leaf.node_index;
        let dirpath_root = treemath::dirpath_root(own_index, size);
        assert(spec_indices(dirpath_root@).len() == dirpath_root@.len());
        if keypairs.len() != dirpath_root.len() {
            return Err(TreeError::WrongPathLength);
        }
        let ghost before = self.node_views();
        self.nodes[own_index.as_usize()] = Node::new_leaf(Some(kpb.get_key_package().clone()));
        assert(self.node_views() =~= spec_set_leaf(before, own_index.0 as nat, kpb@.key_package));
        let mut path_keypairs = PathKeypairs::new();
        path_keypairs.add(keypairs, dirpath_root.as_slice());
        self.own_leaf = OwnLeaf::new(kpb, own_index, path_keypairs);
        Ok(())
    }
}


/// What a member needs to take its secret out of a direct path: the
/// ciphertext that was made for it, the private key that opens it, and
/// the nodes for which the secret gives keys.
#[derive(Debug)]
pub struct PathDecryption {
    pub ciphertext: HpkeCiphertext,
    pub private_key: HPKEPrivateKey,
    /// The nodes from the lowest node that the member shares with the
    /// sender up to the root, lowest first. The decrypted secret is the
    /// path secret of the first; each next one is derived from the one
    /// before.
    pub common_path: Vec<NodeIndex>,
    /// Position, in the direct path, of the first node of `common_path`.
    pub sender_path_offset: usize,
}

pub struct PathDecryptionView {
    pub ciphertext: HpkeCiphertextView,
    pub private_key: Seq<u8>,
    pub common_path: Seq<nat>,
    pub sender_path_offset: nat,
}

impl View for PathDecryption {
    type V = PathDecryptionView;

    open spec fn view(&self) -> PathDecryptionView {
        PathDecryptionView {
            ciphertext: self.ciphertext@,
            private_key: self.private_key@,
            common_path: spec_indices(self.common_path@),
            sender_path_offset: self.sender_path_offset as nat,
        }
    }
}

/// The private key with which a member opens the ciphertext made for
/// `member` of a resolution: its own leaf's where the member is its leaf,
/// else the one that it holds for the copath node.
pub open spec fn spec_decryption_key(own_leaf: OwnLeafView, member: nat, copath_node: nat) -> Option<
    Seq<u8>,
> {
    if member == own_leaf.node_index.0 {
        Some(own_leaf.kpb.private_key)
    } else if copath_node < own_leaf.path_keypairs.len()
        && own_leaf.path_keypairs[copath_node as int].is_some() {
        Some(own_leaf.path_keypairs[copath_node as int].unwrap().private_key)
    } else {
        None
    }
}

/// How a member takes its secret out of the direct path of the member at
/// leaf `sender`. The lowest node that both share lies on the sender's
/// path at some step; the copath node of that step covers the member;
/// the member's place in that node's resolution, or the first place
/// where it is not in it, says which ciphertext of the step is its own.
pub open spec fn spec_path_decryption(state: TreeView, sender: LeafIndex, path: DirectPathView) -> Result<
    PathDecryptionView,
    TreeError,
> {
    let n = spec_leaf_count(state.nodes.len());
    let s = (2 * sender.0) as nat;
    let own = state.own_leaf.node_index.0 as nat;
    if s >= state.nodes.len() {
        Err(TreeError::UnknownSender)
    } else {
        let ancestor = spec_common_ancestor(s, own);
        match spec_first_index(spec_dirpath_root(s, n), ancestor) {
            None => Err(TreeError::InvalidCommit),
            Some(step) => if step >= path.nodes.len() {
                Err(TreeError::WrongPathLength)
            } else {
                let copath_node = spec_copath(s, n)[step];
                let resolution = spec_resolve(state.nodes, copath_node);
                let place = match spec_first_index(resolution, own) {
                    Some(i) => i,
                    None => 0,
                };
                if resolution.len() == 0 {
                    Err(TreeError::InvalidCommit)
                } else if place >= path.nodes[step].encrypted_path_secret.len() {
                    Err(TreeError::WrongPathLength)
                } else {
                    match spec_decryption_key(state.own_leaf, resolution[place], copath_node) {
                        None => Err(TreeError::MissingPrivateKey),
                        Some(key) => Ok(
                            PathDecryptionView {
                                ciphertext: path.nodes[step].encrypted_path_secret[place],
                                private_key: key,
                                common_path: spec_dirpath_long(ancestor, n),
                                sender_path_offset: step as nat,
                            },
                        ),
                    }
                }
            },
        }
    }
}

/// Whether the public keys of a list of key pairs are those that a
/// direct path announces from `offset` on.
pub open spec fn spec_keys_match(path: DirectPathView, pairs: Seq<HPKEKeyPairView>, offset: nat) -> bool {
    forall|i: int|
        0 <= i < pairs.len() ==> (#[trigger] pairs[i]).public_key == path.nodes[offset
            + i].public_key
}

/// The tree after the direct path of the member at leaf `sender` has been
/// taken in, with the key pairs that the member has derived from its
/// secret for the nodes that it shares with the sender: the sender's
/// public keys are on the sender's path, the member holds the private
/// keys of the shared nodes, and the sender's leaf holds its new key
/// package. Nothing is taken in where the numbers do not agree or a
/// derived public key is not the one that the sender announced.
pub open spec fn spec_update_direct_path(
    state: TreeView,
    sender: LeafIndex,
    path: DirectPathView,
    pairs: Seq<HPKEKeyPairView>,
) -> Result<TreeView, TreeError> {
    let n = spec_leaf_count(state.nodes.len());
    let s = (2 * sender.0) as nat;
    let own = state.own_leaf.node_index.0 as nat;
    if s >= state.nodes.len() {
        Err(TreeError::UnknownSender)
    } else {
        let ancestor = spec_common_ancestor(s, own);
        let sender_path = spec_dirpath_root(s, n);
        let common_path = spec_dirpath_long(ancestor, n);
        match spec_first_index(sender_path, ancestor) {
            None => Err(TreeError::InvalidCommit),
            Some(step) => if path.nodes.len() != sender_path.len() || pairs.len()
                != common_path.len() || step + common_path.len() > path.nodes.len() {
                Err(TreeError::WrongPathLength)
            } else if !spec_keys_match(path, pairs, step as nat) {
                Err(TreeError::InvalidCommit)
            } else {
                Ok(
                    TreeView {
                        nodes: spec_set_leaf(
                            spec_merge(
                                spec_merge(state.nodes, path.public_keys(), sender_path),
                                spec_public_keys(pairs),
                                common_path,
                            ),
                            s,
                            path.leaf_key_package,
                        ),
                        own_leaf: OwnLeafView {
                            path_keypairs: spec_add_keypairs(
                                state.own_leaf.path_keypairs,
                                pairs,
                                common_path,
                            ),
                            ..state.own_leaf
                        },
                    },
                )
            },
        }
    }
}

impl RatchetTree {
    /// Says how the member takes its secret out of the direct path of the
    /// member at leaf `sender`: which ciphertext to open with which
    /// private key. The caller opens it, derives from the secret one path
    /// secret and one key pair for each node of `common_path`, and hands
    /// the key pairs to `update_direct_path`.
    pub fn direct_path_decryption(&self, sender: LeafIndex, direct_path: &DirectPath) -> (r: Result<
        PathDecryption,
        TreeError,
    >)
        requires
            self.wf(),
            self.has_own_leaf(),
        ensures
            match spec_path_decryption(self.state(), sender, direct_path@) {
                Ok(plan) => r.is_ok() && r.unwrap()@ == plan,
                Err(e) => r.is_err() && r.unwrap_err() == e,
            },
    {
        let size = self.leaf_count();
        proof {
            lemma_width_of_len(self.nodes@.len());
        }
        let own_index = self.own_leaf.node_index;
        let sender_index = match sender.as_node_index() {
            Some(i) => i,
            None => {
                return Err(TreeError::UnknownSender);
            },
        };
        if sender_index.as_usize() >= self.nodes.len() {
            return Err(TreeError::UnknownSender);
        }
        let common_ancestor = treemath::common_ancestor(sender_index, own_index);
        let sender_dirpath = treemath::dirpath_root(sender_index, size);
        let sender_copath = treemath::copath(sender_index, size);
        assert(spec_indices(sender_dirpath@).len() == sender_dirpath@.len());
        let step = match treemath::first_index(sender_dirpath.as_slice(), common_ancestor) {
            Some(i) => i,
            None => {
                return Err(TreeError::InvalidCommit);
            },
        };
        if step >= direct_path.nodes.len() {
            return Err(TreeError::WrongPathLength);
        }
        let copath_node = sender_copath[step];
        assert(spec_indices(sender_copath@)[step as int] == copath_node.0);
        let resolution = self.resolve(copath_node);
        assert(spec_indices(resolution@).len() == resolution@.len());
        let place: usize = match treemath::first_index(resolution.as_slice(), own_index) {
            Some(i) => i,
            None => 0,
        };
        if resolution.len() == 0 {
            return Err(TreeError::InvalidCommit);
        }
        assert(direct_path@.nodes[step as int] == direct_path.nodes@[step as int]@);
        if place >= direct_path.nodes[step].encrypted_path_secret.len() {
            return Err(TreeError::WrongPathLength);
        }
        assert(spec_indices(resolution@)[place as int] == resolution@[place as int].0);
        let private_key = if resolution[place].0 == own_index.0 {
            self.own_leaf.kpb.get_private_key().clone()
        } else {
            match self.own_leaf.path_keypairs.get(copath_node) {
                Some(pair) => pair.get_private_key().clone(),
                None => {
                    return Err(TreeError::MissingPrivateKey);
                },
            }
        };
        let common_path = treemath::dirpath_long(common_ancestor, size);
        let ciphertext = direct_path.nodes[step].encrypted_path_secret[place].clone();
        assert(ciphertext@ == direct_path@.nodes[step as int].encrypted_path_secret[place as int]);
        Ok(PathDecryption { ciphertext, private_key, common_path, sender_path_offset: step })
    }

    /// Takes in the direct path of the member at leaf `sender`, with the
    /// key pairs that the caller has derived from the decrypted secret
    /// for the nodes of the common path. On an error the tree is as it
    /// was.
    pub fn update_direct_path(
        &mut self,
        sender: LeafIndex,
        direct_path: &DirectPath,
        keypairs: &[HPKEKeyPair],
    ) -> (r: Result<(), TreeError>)
        requires
            old(self).wf(),
            old(self).has_own_leaf(),
        ensures
            final(self).ciphersuite == old(self).ciphersuite,
            match spec_update_direct_path(
                old(self).state(),
                sender,
                direct_path@,
                spec_keypair_views(keypairs@),
            ) {
                Ok(state) => r.is_ok() && final(self).state() == state && final(self).wf()
                    && final(self).has_own_leaf(),
                Err(e) => r.is_err() && r.unwrap_err() == e && final(self).state() == old(self).state(),
            },
    {
        let size = self.leaf_count();
        proof {
            lemma_width_of_len(self.nodes@.len());
        }
        let own_index = self.own_leaf.node_index;
        let sender_index = match sender.as_node_index() {
            Some(i) => i,
            None => {
                return Err(TreeError::UnknownSender);
            },
        };
        if sender_index.as_usize() >= self.nodes.len() {
            return Err(TreeError::UnknownSender);
        }
        let common_ancestor = treemath::common_ancestor(sender_index, own_index);
        let sender_dirpath = treemath::dirpath_root(sender_index, size);
        assert(spec_indices(sender_dirpath@).len() == sender_dirpath@.len());
        let step = match treemath::first_index(sender_dirpath.as_slice(), common_ancestor) {
            Some(i) => i,
            None => {
                return Err(TreeError::InvalidCommit);
            },
        };
        let common_path = treemath::dirpath_long(common_ancestor, size);
        assert(spec_indices(common_path@).len() == common_path@.len());
        if direct_path.nodes.len() != sender_dirpath.len() || keypairs.len() != common_path.len()
            || common_path.len() > direct_path.nodes.len() - step {
            return Err(TreeError::WrongPathLength);
        }
        let ghost pairs = spec_keypair_views(keypairs@);
        let ghost expected = spec_update_direct_path(old(self).state(), sender, direct_path@, pairs);
        let total: usize = direct_path.nodes.len();
        assert(!spec_keys_match(direct_path@, pairs, step as nat) ==> expected == Err::<
            TreeView,
            TreeError,
        >(TreeError::InvalidCommit));
        let mut i: usize = 0;
        while i < keypairs.len()
            invariant
                i <= keypairs@.len(),
                step + keypairs@.len() <= total,
                total == direct_path.nodes@.len(),
                *self == *old(self),
                pairs == spec_keypair_views(keypairs@),
                expected == spec_update_direct_path(old(self).state(), sender, direct_path@, pairs),
                !spec_keys_match(direct_path@, pairs, step as nat) ==> expected == Err::<
                    TreeView,
                    TreeError,
                >(TreeError::InvalidCommit),
                forall|k: int|
                    0 <= k < i ==> (#[trigger] pairs[k]).public_key == direct_path@.nodes[step
                        + k].public_key,
            decreases keypairs@.len() - i,
        {
            assert(direct_path@.nodes[step + i] == direct_path.nodes@[step + i]@);
            assert(pairs[i as int] == keypairs@[i as int]@);
            if !(direct_path.nodes[step + i].public_key == *keypairs[i].get_public_key()) {
                assert(!spec_keys_match(direct_path@, pairs, step as nat));
                return Err(TreeError::InvalidCommit);
            }
            i += 1;
        }
        assert(spec_keys_match(direct_path@, pairs, step as nat));
        let ghost before = self.node_views();
        proof {
            assert forall|k: int| 0 <= k < common_path@.len() implies (
            #[trigger] spec_indices(common_path@)[k]) % 2 == 1 by {
                assert(spec_indices(common_path@)[k] == common_path@[k].0);
                if k == 0 {
                    assert(common_path@[0] == sender_dirpath@[step as int]);
                }
                assert(treemath::spec_level(common_path@[k].0 as nat) > 0);
            }
            assert forall|k: int| 0 <= k < sender_dirpath@.len() implies (
            #[trigger] spec_indices(sender_dirpath@)[k]) % 2 == 1 by {
                assert(spec_indices(sender_dirpath@)[k] == sender_dirpath@[k].0);
                assert(treemath::spec_level(sender_dirpath@[k].0 as nat) > 0);
            }
            lemma_merge_shape(before, direct_path@.public_keys(), spec_indices(sender_dirpath@));
            lemma_merge_shape(
                spec_merge(before, direct_path@.public_keys(), spec_indices(sender_dirpath@)),
                spec_public_keys(pairs),
                spec_indices(common_path@),
            );
        }
        self.merge_public_keys(direct_path, sender_dirpath);
        self.own_leaf.path_keypairs.add(keypairs, common_path.as_slice());
        self.merge_keypairs(keypairs, common_path.as_slice());
        let ghost merged = self.node_views();
        self.nodes[sender_index.as_usize()] = Node::new_leaf(
            Some(direct_path.leaf_key_package.clone()),
        );
        assert(self.node_views() =~= spec_set_leaf(
            merged,
            sender_index.0 as nat,
            direct_path@.leaf_key_package,
        ));
        Ok(())
    }
}

} // verus!
