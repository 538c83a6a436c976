use maelstrom::ciphersuite::{
    CiphersuiteName, HPKEPublicKey, HpkeCiphertext, Signature, SignaturePublicKey,
};
use maelstrom::codec::{join_bytes, CodecError, Cursor};
use maelstrom::creds::Credential;
use maelstrom::extensions::{
    CapabilitiesExtension, Extension, ExtensionPayload, ExtensionType, KeyIDExtension,
    LifetimeExtension, ParentHashExtension, ProtocolVersion, RatchetTreeExtension,
};
use maelstrom::framing::{
    ContentType, MLSPlaintext, MLSPlaintextContentType, Sender, SenderType,
};
use maelstrom::group::{GroupContext, GroupEpoch, GroupId};
use maelstrom::key_packages::KeyPackage;
use maelstrom::messages::proposals::{
    AddProposal, Proposal, ProposalID, ProposalIDList, RemoveProposal, UpdateProposal,
};
use maelstrom::messages::Commit;
use maelstrom::tree::index::LeafIndex;
use maelstrom::tree::node::{Node, NodeType, ParentNode};
use maelstrom::tree::paths::{DirectPath, DirectPathNode};

const SUITE: CiphersuiteName = CiphersuiteName::MLS10_128_DHKEMX25519_AES128GCM_SHA256_Ed25519;

fn credential(name: u8) -> Credential {
    Credential::new(vec![name], SUITE, SignaturePublicKey::new(vec![name; 4]))
}

fn key_package(name: u8) -> KeyPackage {
    let mut kp = KeyPackage::new(
        SUITE,
        HPKEPublicKey::new(vec![name, name]),
        credential(name),
        vec![
            Extension::new(ExtensionType::KeyID, vec![0, 1, name]),
            ParentHashExtension::new(&[name; 3]).to_extension().unwrap(),
        ],
    );
    kp.set_signature(Signature::new(vec![name; 5]));
    kp
}

fn parent(name: u8) -> ParentNode {
    ParentNode::new(HPKEPublicKey::new(vec![name; 2]), &[2, 0x01020304], &[name; 4])
}

#[test]
fn credentials_round_trip() {
    let bytes = credential(7).encode_detached().unwrap();
    assert_eq!(bytes, vec![0, 0, 1, 7, 0, 1, 0, 4, 7, 7, 7, 7]);
    let mut cursor = Cursor::new(&bytes);
    assert!(Credential::decode(&mut cursor).unwrap() == credential(7));
    assert!(cursor.is_empty());
    let mut other_kind = bytes.clone();
    other_kind[0] = 1;
    assert_eq!(
        Credential::decode(&mut Cursor::new(&other_kind)).err(),
        Some(CodecError::DecodingError)
    );
    assert_eq!(
        Credential::decode(&mut Cursor::new(&bytes[..11])).err(),
        Some(CodecError::DecodingError)
    );
}

#[test]
fn key_packages_round_trip() {
    let kp = key_package(3);
    let mut bytes = kp.encode_detached().unwrap();
    bytes.push(0xee);
    let mut cursor = Cursor::new(&bytes);
    let back = KeyPackage::decode(&mut cursor).unwrap();
    assert!(back == kp);
    assert_eq!(back.extensions.len(), 2);
    assert_eq!(back.protocol_version, ProtocolVersion::Mls10);
    assert_eq!(cursor.has_more(), 1);
    for cut in 0..bytes.len() - 1 {
        assert_eq!(
            KeyPackage::decode(&mut Cursor::new(&bytes[..cut])).err(),
            Some(CodecError::DecodingError)
        );
    }
}

#[test]
fn a_key_package_whose_extensions_are_cut_is_refused() {
    let kp = KeyPackage::new(SUITE, HPKEPublicKey::new(vec![]), credential(1), vec![]);
    let mut bytes = kp.encode_detached().unwrap();
    assert_eq!(&bytes[bytes.len() - 4..], &[0, 0, 0, 0]);
    let at = bytes.len() - 4;
    bytes.splice(at..at + 2, [0, 3, 0, 1, 0]);
    assert_eq!(
        KeyPackage::decode(&mut Cursor::new(&bytes)).err(),
        Some(CodecError::DecodingError)
    );
}

#[test]
fn parent_nodes_round_trip() {
    let bytes = parent(9).encode_detached().unwrap();
    assert_eq!(
        bytes,
        vec![0, 2, 9, 9, 0, 0, 0, 8, 0, 0, 0, 2, 1, 2, 3, 4, 4, 9, 9, 9, 9]
    );
    let mut cursor = Cursor::new(&bytes);
    let back = ParentNode::decode(&mut cursor).unwrap();
    assert!(back == parent(9));
    assert_eq!(back.get_unmerged_leaves(), &[2u32, 0x01020304][..]);
    assert!(back.has_unmerged_leaf(2));
    assert!(!back.has_unmerged_leaf(3));
    let mut cut_leaf = bytes.clone();
    cut_leaf[7] = 7;
    assert_eq!(
        ParentNode::decode(&mut Cursor::new(&cut_leaf)).err(),
        Some(CodecError::DecodingError)
    );
}

#[test]
fn nodes_round_trip() {
    let nodes = vec![
        Node::new_leaf(Some(key_package(1))),
        Node::new_leaf(None),
        Node::new_blank_parent_node(),
        Node {
            node_type: NodeType::Parent,
            key_package: None,
            node: Some(parent(4)),
        },
        Node {
            node_type: NodeType::Default,
            key_package: Some(key_package(2)),
            node: Some(parent(5)),
        },
    ];
    for node in &nodes {
        let bytes = node.encode_detached().unwrap();
        let mut cursor = Cursor::new(&bytes);
        assert!(&Node::decode(&mut cursor).unwrap() == node);
        assert!(cursor.is_empty());
    }
    assert_eq!(Node::new_leaf(None).encode_detached(), Ok(vec![0, 0, 0]));
    assert_eq!(Node::new_blank_parent_node().encode_detached(), Ok(vec![1, 0, 0]));
    assert_eq!(
        Node::decode(&mut Cursor::new(&[0, 2, 0])).err(),
        Some(CodecError::DecodingError)
    );
    assert_eq!(
        Node::decode(&mut Cursor::new(&[0, 0, 2])).err(),
        Some(CodecError::DecodingError)
    );
    assert_eq!(
        Node::decode(&mut Cursor::new(&[9, 0, 0])).unwrap().node_type,
        NodeType::Default
    );
}

#[test]
fn proposals_round_trip() {
    let proposals = vec![
        Proposal::Add(AddProposal { key_package: key_package(1) }),
        Proposal::Update(UpdateProposal { key_package: key_package(2) }),
        Proposal::Remove(RemoveProposal { removed: 0xdeadbeef }),
    ];
    for proposal in &proposals {
        let bytes = proposal.encode_detached().unwrap();
        let mut cursor = Cursor::new(&bytes);
        assert!(&Proposal::decode(&mut cursor).unwrap() == proposal);
        assert!(cursor.is_empty());
    }
    assert_eq!(
        Proposal::decode(&mut Cursor::new(&[0, 0, 0, 0, 0])).err(),
        Some(CodecError::DecodingError)
    );
    assert_eq!(
        Proposal::decode(&mut Cursor::new(&[4, 0, 0, 0, 0])).err(),
        Some(CodecError::DecodingError)
    );
    assert_eq!(
        Proposal::decode(&mut Cursor::new(&[3, 0, 0, 0])).err(),
        Some(CodecError::DecodingError)
    );
}

#[test]
fn identifiers_ciphertexts_and_senders_round_trip() {
    let id = ProposalID::from_proposal(&[7; 32]).unwrap();
    let mut bytes = Vec::new();
    id.encode(&mut bytes).unwrap();
    assert!(ProposalID::decode(&mut Cursor::new(&bytes)).unwrap() == id);
    assert_eq!(
        ProposalID::decode(&mut Cursor::new(&[2, 1, 1])).err(),
        Some(CodecError::DecodingError)
    );
    let ciphertext = HpkeCiphertext::new(vec![1, 2], vec![3]);
    let bytes = ciphertext.encode_detached().unwrap();
    assert_eq!(bytes, vec![0, 2, 1, 2, 0, 1, 3]);
    assert!(HpkeCiphertext::decode(&mut Cursor::new(&bytes)).unwrap() == ciphertext);
    assert_eq!(
        HpkeCiphertext::decode(&mut Cursor::new(&bytes[..6])).err(),
        Some(CodecError::DecodingError)
    );
    assert_eq!(
        HpkeCiphertext::new(vec![0; 0x10000], vec![]).encode_detached().err(),
        Some(CodecError::EncodingError)
    );
    let sender = Sender::member(LeafIndex(0x01020304));
    let mut bytes = Vec::new();
    sender.encode(&mut bytes);
    assert_eq!(bytes, vec![1, 1, 2, 3, 4]);
    assert_eq!(Sender::decode(&mut Cursor::new(&bytes)), Ok(sender));
    assert_eq!(
        Sender::decode(&mut Cursor::new(&[9, 0, 0, 0, 1])),
        Ok(Sender {
            sender_type: SenderType::Default,
            sender: LeafIndex(1)
        })
    );
    assert_eq!(
        Sender::decode(&mut Cursor::new(&[1, 0, 0, 0])),
        Err(CodecError::DecodingError)
    );
    assert_eq!(SenderType::from_u8(2), SenderType::Preconfigured);
    assert_eq!(SenderType::from_u8(3), SenderType::NewMember);
    assert_eq!(SenderType::NewMember.to_u8(), 3);
    assert_eq!(ContentType::from_u8(3), ContentType::Commit);
    assert_eq!(ContentType::from_u8(9), ContentType::Default);
    assert_eq!(ContentType::Application.to_u8(), 1);
}

#[test]
fn the_tree_extension_round_trips() {
    let tree = vec![
        Some(Node::new_leaf(Some(key_package(1)))),
        None,
        Some(Node::new_leaf(Some(key_package(2)))),
        Some(Node {
            node_type: NodeType::Parent,
            key_package: None,
            node: Some(parent(4)),
        }),
        None,
    ];
    let extension = RatchetTreeExtension::new(tree).to_extension().unwrap();
    assert_eq!(extension.get_type(), ExtensionType::RatchetTree);
    let back = RatchetTreeExtension::new_from_bytes(&extension.extension_data).unwrap();
    assert_eq!(back.tree.len(), 5);
    assert!(back.tree[0].as_ref().unwrap().key_package.as_ref().unwrap() == &key_package(1));
    assert!(back.tree[1].is_none());
    assert!(back.tree[3].as_ref().unwrap().node.as_ref().unwrap() == &parent(4));
    assert!(back.tree[4].is_none());
    let empty = RatchetTreeExtension::new(vec![None, None]).to_extension().unwrap();
    assert_eq!(empty.extension_data, vec![0, 0, 0, 2, 0, 0]);
    assert_eq!(
        RatchetTreeExtension::new_from_bytes(&[0, 0, 0, 1, 2]).err(),
        Some(CodecError::DecodingError)
    );
    assert_eq!(
        RatchetTreeExtension::new_from_bytes(&[0, 0, 0, 2, 1, 0]).err(),
        Some(CodecError::DecodingError)
    );
    assert_eq!(
        RatchetTreeExtension::new_from_bytes(&[0, 0, 0, 2, 0]).err(),
        Some(CodecError::DecodingError)
    );
}

#[test]
fn extension_bodies_are_read_by_kind() {
    let capabilities = CapabilitiesExtension::new(vec![ProtocolVersion::Mls10], vec![SUITE], vec![])
        .to_extension()
        .unwrap();
    match capabilities.to_payload().unwrap() {
        ExtensionPayload::Capabilities(c) => assert_eq!(c.ciphersuites, vec![SUITE]),
        _ => panic!("capabilities"),
    }
    let lifetime = LifetimeExtension { not_before: 1, not_after: 2 };
    match lifetime.to_extension().to_payload().unwrap() {
        ExtensionPayload::Lifetime(l) => assert_eq!(l, lifetime),
        _ => panic!("lifetime"),
    }
    match KeyIDExtension::new(&[5]).to_extension().unwrap().to_payload().unwrap() {
        ExtensionPayload::KeyID(k) => assert_eq!(k.key_id, vec![5]),
        _ => panic!("key id"),
    }
    match ParentHashExtension::new(&[6]).to_extension().unwrap().to_payload().unwrap() {
        ExtensionPayload::ParentHash(p) => assert_eq!(p.parent_hash, vec![6]),
        _ => panic!("parent hash"),
    }
    match RatchetTreeExtension::new(vec![None]).to_extension().unwrap().to_payload().unwrap() {
        ExtensionPayload::RatchetTree(t) => assert_eq!(t.tree.len(), 1),
        _ => panic!("tree"),
    }
    assert_eq!(
        Extension::new(ExtensionType::Lifetime, vec![1]).to_payload().err(),
        Some(CodecError::DecodingError)
    );
    assert_eq!(
        Extension::new(ExtensionType::Default, vec![]).to_payload().err(),
        Some(CodecError::DecodingError)
    );
    assert_eq!(
        Extension::new(ExtensionType::DeviceCapabilities, vec![0, 0, 0, 1]).to_payload().err(),
        Some(CodecError::DecodingError)
    );
}

#[test]
fn a_direct_path_is_written_byte_for_byte() {
    let node = DirectPathNode {
        public_key: HPKEPublicKey::new(vec![1]),
        encrypted_path_secret: vec![
            HpkeCiphertext::new(vec![2], vec![3]),
            HpkeCiphertext::new(vec![], vec![4, 4]),
        ],
    };
    assert_eq!(
        node.encode_detached(),
        Ok(vec![0, 1, 1, 0, 0, 0, 12, 0, 1, 2, 0, 1, 3, 0, 0, 0, 2, 4, 4])
    );
    let path = DirectPath {
        leaf_key_package: key_package(1),
        nodes: vec![node.clone(), DirectPathNode { public_key: HPKEPublicKey::new(vec![]), encrypted_path_secret: vec![] }],
    };
    let mut expected = key_package(1).encode_detached().unwrap();
    expected.extend([0, 0, 0, 25]);
    expected.extend(node.encode_detached().unwrap());
    expected.extend([0, 0, 0, 0, 0, 0]);
    assert_eq!(path.encode_detached(), Ok(expected));
    let unwritable = DirectPathNode {
        public_key: HPKEPublicKey::new(vec![0; 0x10000]),
        encrypted_path_secret: vec![],
    };
    assert_eq!(unwritable.encode_detached(), Err(CodecError::EncodingError));
    assert_eq!(join_bytes(&vec![vec![1], vec![], vec![2, 3]]), vec![1, 2, 3]);
}

#[test]
fn a_commit_names_its_proposals_and_may_carry_a_path() {
    let id = |n: u8| ProposalID::from_proposal(&[n; 32]).unwrap();
    let lists = |u: &[u8], r: &[u8], a: &[u8]| ProposalIDList {
        updates: u.iter().map(|n| id(*n)).collect(),
        removes: r.iter().map(|n| id(*n)).collect(),
        adds: a.iter().map(|n| id(*n)).collect(),
    };
    assert!(Commit::new(lists(&[], &[], &[]), None).path_required());
    assert!(!Commit::new(lists(&[], &[], &[1]), None).path_required());
    assert!(Commit::new(lists(&[1], &[], &[2]), None).path_required());
    assert!(Commit::new(lists(&[], &[1], &[2]), None).path_required());
    assert_eq!(
        Commit::new(lists(&[], &[], &[]), None).encode_detached(),
        Ok(vec![0, 0, 0, 0, 0, 0, 0])
    );
    let bytes = Commit::new(lists(&[1], &[], &[2, 3]), None).encode_detached().unwrap();
    assert_eq!(bytes.len(), 2 + 33 + 2 + 2 + 66 + 1);
    assert_eq!(&bytes[..4], &[0, 33, 32, 1]);
    assert_eq!(&bytes[35..41], &[0, 0, 0, 66, 32, 2]);
    assert_eq!(bytes[bytes.len() - 1], 0);
    let path = DirectPath { leaf_key_package: key_package(1), nodes: vec![] };
    let with_path = Commit::new(lists(&[], &[], &[]), Some(path.clone())).encode_detached().unwrap();
    let mut expected = vec![0, 0, 0, 0, 0, 0, 1];
    expected.extend(path.encode_detached().unwrap());
    assert_eq!(with_path, expected);
}

#[test]
fn direct_paths_and_commits_round_trip() {
    let id = |n: u8| ProposalID::from_proposal(&[n; 40]).unwrap();
    let path = DirectPath {
        leaf_key_package: key_package(1),
        nodes: vec![
            DirectPathNode {
                public_key: HPKEPublicKey::new(vec![1]),
                encrypted_path_secret: vec![
                    HpkeCiphertext::new(vec![2], vec![3]),
                    HpkeCiphertext::new(vec![], vec![]),
                ],
            },
            DirectPathNode {
                public_key: HPKEPublicKey::new(vec![]),
                encrypted_path_secret: vec![],
            },
        ],
    };
    let bytes = path.encode_detached().unwrap();
    let mut cursor = Cursor::new(&bytes);
    let back = DirectPath::decode(&mut cursor).unwrap();
    assert!(cursor.is_empty());
    assert!(back.leaf_key_package == path.leaf_key_package);
    assert_eq!(back.nodes.len(), 2);
    assert_eq!(back.nodes[0].public_key.as_slice(), &[1u8][..]);
    assert!(back.nodes[0].encrypted_path_secret == path.nodes[0].encrypted_path_secret);
    assert!(back.nodes[1].encrypted_path_secret.is_empty());
    for cut in 0..bytes.len() {
        assert_eq!(
            DirectPath::decode(&mut Cursor::new(&bytes[..cut])).err(),
            Some(CodecError::DecodingError)
        );
    }
    let commit = Commit::new(
        ProposalIDList {
            updates: vec![id(1)],
            removes: vec![],
            adds: vec![id(2), id(3)],
        },
        Some(path),
    );
    let bytes = commit.encode_detached().unwrap();
    let mut cursor = Cursor::new(&bytes);
    let back = Commit::decode(&mut cursor).unwrap();
    assert!(cursor.is_empty());
    assert!(back.updates == commit.updates);
    assert!(back.removes.is_empty());
    assert!(back.adds == commit.adds);
    assert_eq!(back.encode_detached().unwrap(), bytes);
    assert_eq!(
        Commit::decode(&mut Cursor::new(&[0, 0, 0, 0, 0, 0, 2])).err(),
        Some(CodecError::DecodingError)
    );
    assert_eq!(
        Commit::decode(&mut Cursor::new(&[0, 2, 1, 9, 0, 0, 0, 0, 0])).err(),
        Some(CodecError::DecodingError)
    );
    assert!(Commit::decode(&mut Cursor::new(&[0, 0, 0, 0, 0, 0, 0])).is_ok());
}

#[test]
fn messages_round_trip() {
    let context = GroupContext::new(GroupId { value: vec![4, 2] }, GroupEpoch(7), vec![], vec![]);
    let contents = vec![
        MLSPlaintextContentType::Application(vec![1, 2, 3]),
        MLSPlaintextContentType::Proposal(Proposal::Remove(RemoveProposal { removed: 3 })),
        MLSPlaintextContentType::Proposal(Proposal::Add(AddProposal { key_package: key_package(5) })),
        MLSPlaintextContentType::Commit(
            Commit::new(
                ProposalIDList {
                    updates: vec![],
                    removes: vec![ProposalID::from_proposal(&[8; 32]).unwrap()],
                    adds: vec![],
                },
                None,
            ),
            vec![9, 9],
        ),
    ];
    for content in contents {
        let mut message = MLSPlaintext::new(LeafIndex(6), &[5], content, &context);
        message.set_signature(Signature::new(vec![7; 3]));
        let bytes = message.encode_detached().unwrap();
        let mut cursor = Cursor::new(&bytes);
        let back = MLSPlaintext::decode(&mut cursor).unwrap();
        assert!(cursor.is_empty());
        assert_eq!(back.group_id.value, vec![4, 2]);
        assert_eq!(back.epoch, GroupEpoch(7));
        assert_eq!(back.sender, Sender::member(LeafIndex(6)));
        assert_eq!(back.authenticated_data, vec![5]);
        assert_eq!(back.signature.as_slice(), &[7u8; 3][..]);
        assert_eq!(back.encode_detached().unwrap(), bytes);
        assert_eq!(
            MLSPlaintext::decode(&mut Cursor::new(&bytes[..bytes.len() - 1])).err(),
            Some(CodecError::DecodingError)
        );
        match &message.content {
            MLSPlaintextContentType::Commit(_, _) => {
                assert_eq!(
                    message.commit_content().unwrap(),
                    [&bytes[..16], &[3u8][..], &bytes[22..bytes.len() - 8]].concat()
                );
                assert_eq!(message.commit_auth_data(), Ok(vec![2, 9, 9, 0, 3, 7, 7, 7]));
            }
            _ => {
                assert_eq!(message.commit_content(), Err(CodecError::EncodingError));
                assert_eq!(message.commit_auth_data(), Err(CodecError::EncodingError));
            }
        }
    }
    assert_eq!(
        MLSPlaintextContentType::decode(&mut Cursor::new(&[0, 0, 0, 0, 0])).err(),
        Some(CodecError::DecodingError)
    );
}

#[test]
fn a_key_package_must_carry_capabilities_and_a_lifetime() {
    let mut kp = key_package(1);
    assert!(!kp.has_mandatory_extensions());
    assert_eq!(kp.count_extensions(ExtensionType::KeyID), 1);
    kp.add_extension(
        CapabilitiesExtension::new(vec![ProtocolVersion::Mls10], vec![SUITE], vec![])
            .to_extension()
            .unwrap(),
    );
    assert!(!kp.has_mandatory_extensions());
    kp.add_extension(LifetimeExtension { not_before: 1, not_after: 2 }.to_extension());
    assert!(kp.has_mandatory_extensions());
    kp.extensions.push(LifetimeExtension { not_before: 3, not_after: 4 }.to_extension());
    assert_eq!(kp.count_extensions(ExtensionType::Lifetime), 2);
    assert!(!kp.has_mandatory_extensions());
    let lists = |u: usize, r: usize, a: usize| {
        let ids = |n: usize| (0..n).map(|_| ProposalID::from_proposal(&[0; 32]).unwrap()).collect();
        ProposalIDList { updates: ids(u), removes: ids(r), adds: ids(a) }
    };
    assert!(lists(0, 0, 0).path_required());
    assert!(!lists(0, 0, 2).path_required());
    assert!(lists(1, 0, 2).path_required());
    assert!(lists(0, 1, 0).path_required());
}
