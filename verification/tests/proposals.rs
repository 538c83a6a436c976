use maelstrom::ciphersuite::{CiphersuiteName, HPKEPrivateKey, HPKEPublicKey, SignaturePublicKey};
use maelstrom::codec::CodecError;
use maelstrom::creds::Credential;
use maelstrom::framing::{Sender, SenderType};
use maelstrom::key_packages::{KeyPackage, KeyPackageBundle};
use maelstrom::messages::proposals::{
    AddProposal, Proposal, ProposalID, ProposalQueue, ProposalType, QueuedProposal, RemoveProposal,
    ShortProposalID, UpdateProposal,
};
use maelstrom::tree::index::{LeafIndex, NodeIndex};

const SUITE: CiphersuiteName = CiphersuiteName::MLS10_128_DHKEMX25519_AES128GCM_SHA256_Ed25519;

fn key_package(name: u8) -> KeyPackage {
    let credential = Credential::new(vec![name], SUITE, SignaturePublicKey::new(vec![name; 4]));
    KeyPackage::new(SUITE, HPKEPublicKey::new(vec![name, name]), credential, vec![])
}

fn id(n: u8) -> ProposalID {
    ProposalID::from_proposal(&[n; 32]).unwrap()
}

fn id_with_tail(n: u8, tail: u8) -> ProposalID {
    let mut digest = vec![n; 32];
    digest.push(tail);
    ProposalID::from_proposal(&digest).unwrap()
}

#[test]
fn proposal_types_have_their_numbers() {
    assert_eq!(ProposalType::from_u8(0), ProposalType::Invalid);
    assert_eq!(ProposalType::from_u8(1), ProposalType::Add);
    assert_eq!(ProposalType::from_u8(2), ProposalType::Update);
    assert_eq!(ProposalType::from_u8(3), ProposalType::Remove);
    assert_eq!(ProposalType::from_u8(4), ProposalType::Default);
    assert_eq!(ProposalType::from_u8(255), ProposalType::Default);
    assert_eq!(ProposalType::Add.to_u8(), 1);
    assert_eq!(ProposalType::Update.to_u8(), 2);
    assert_eq!(ProposalType::Remove.to_u8(), 3);
    assert_eq!(ProposalType::Default.to_u8(), 255);
}

#[test]
fn proposals_are_told_apart() {
    let add = Proposal::Add(AddProposal { key_package: key_package(1) });
    let update = Proposal::Update(UpdateProposal { key_package: key_package(2) });
    let remove = Proposal::Remove(RemoveProposal { removed: 7 });
    assert!(add.as_add().unwrap().key_package == key_package(1));
    assert!(add.as_update().is_none());
    assert!(add.as_remove().is_none());
    assert!(update.as_update().unwrap().key_package == key_package(2));
    assert!(update.as_add().is_none());
    assert_eq!(remove.as_remove(), Some(RemoveProposal { removed: 7 }));
    assert!(remove.as_add().is_none());
    assert_eq!(add.get_type(), ProposalType::Add);
    assert_eq!(update.get_type(), ProposalType::Update);
    assert_eq!(remove.get_type(), ProposalType::Remove);
    assert!(add.clone() == add);
    assert!(!(add == update));
}

#[test]
fn a_proposal_is_written_behind_its_kind() {
    let remove = Proposal::Remove(RemoveProposal { removed: 0x01020304 });
    assert_eq!(remove.encode_detached(), Ok(vec![3, 1, 2, 3, 4]));
    let add = Proposal::Add(AddProposal { key_package: key_package(1) });
    let expected_key_package = vec![
        0, 0, 1, 0, 2, 1, 1, 0, 0, 1, 1, 0, 1, 0, 4, 1, 1, 1, 1, 0, 0, 0, 0,
    ];
    assert_eq!(key_package(1).encode_detached(), Ok(expected_key_package.clone()));
    let mut expected = vec![1];
    expected.extend(expected_key_package.clone());
    assert_eq!(add.encode_detached(), Ok(expected));
    let update = Proposal::Update(UpdateProposal { key_package: key_package(1) });
    let mut expected = vec![9, 2];
    expected.extend(expected_key_package);
    let mut buffer = vec![9];
    assert_eq!(update.encode(&mut buffer), Ok(()));
    assert_eq!(buffer, expected);
}

#[test]
fn a_proposal_that_cannot_be_written_is_refused() {
    let credential = Credential::new(vec![1], SUITE, SignaturePublicKey::new(vec![1]));
    let huge = KeyPackage::new(SUITE, HPKEPublicKey::new(vec![0; 0x10000]), credential, vec![]);
    let add = Proposal::Add(AddProposal { key_package: huge });
    assert_eq!(add.encode_detached(), Err(CodecError::EncodingError));
    let mut buffer = vec![5];
    assert_eq!(add.encode(&mut buffer), Err(CodecError::EncodingError));
    assert_eq!(buffer, vec![5]);
}

#[test]
fn an_identifier_needs_thirty_two_bytes() {
    assert!(ProposalID::from_proposal(&[1; 31]).is_none());
    assert!(ProposalID::from_proposal(&[]).is_none());
    let id = ProposalID::from_proposal(&[1; 32]).unwrap();
    assert_eq!(id.as_slice(), &[1u8; 32][..]);
    let long = ProposalID::from_proposal(&[2; 64]).unwrap();
    assert_eq!(long.as_slice().len(), 64);
    let remove = Proposal::Remove(RemoveProposal { removed: 1 });
    assert!(remove.to_proposal_id(&[3; 32]).unwrap() == ProposalID::from_proposal(&[3; 32]).unwrap());
    assert!(remove.to_proposal_id(&[3; 8]).is_none());
    let short = ShortProposalID::from_proposal_id(&long);
    assert_eq!(short.0, [2u8; 32]);
    assert!(short.equals(&ShortProposalID([2u8; 32])));
    assert!(!short.equals(&ShortProposalID([3u8; 32])));
    let mut buffer = Vec::new();
    assert_eq!(id.encode(&mut buffer), Ok(()));
    assert_eq!(buffer.len(), 33);
    assert_eq!(buffer[0], 32);
}

#[test]
fn a_queued_proposal_comes_from_a_member() {
    let queued = QueuedProposal::new(
        Proposal::Remove(RemoveProposal { removed: 1 }),
        LeafIndex(4),
        None,
    );
    assert_eq!(
        queued.sender,
        Sender {
            sender_type: SenderType::Member,
            sender: LeafIndex(4)
        }
    );
    assert_eq!(queued.sender, Sender::member(LeafIndex(4)));
    assert_eq!(queued.sender.as_node_index(), Some(NodeIndex(8)));
    assert!(queued.own_kpb.is_none());
    let bundle = KeyPackageBundle::from_values(key_package(1), HPKEPrivateKey::new(vec![1]));
    let own = QueuedProposal::new(
        Proposal::Update(UpdateProposal { key_package: key_package(1) }),
        LeafIndex(0),
        Some(bundle),
    );
    assert!(own.own_kpb.unwrap().key_package == key_package(1));
    let mut buffer = Vec::new();
    queued.sender.encode(&mut buffer);
    assert_eq!(buffer, vec![1, 0, 0, 0, 4]);
}

#[test]
fn the_first_proposal_under_a_key_stays() {
    let mut queue = ProposalQueue::new();
    assert_eq!(queue.len(), 0);
    assert!(queue.get(&id(1)).is_none());
    queue.add(
        QueuedProposal::new(Proposal::Remove(RemoveProposal { removed: 1 }), LeafIndex(0), None),
        id(1),
    );
    queue.add(
        QueuedProposal::new(Proposal::Remove(RemoveProposal { removed: 2 }), LeafIndex(0), None),
        id(1),
    );
    queue.add(
        QueuedProposal::new(Proposal::Remove(RemoveProposal { removed: 3 }), LeafIndex(0), None),
        id_with_tail(1, 9),
    );
    assert_eq!(queue.len(), 1);
    let found = queue.get(&id(1)).unwrap();
    assert!(found.0 == id(1));
    assert_eq!(found.1.proposal.as_remove(), Some(RemoveProposal { removed: 1 }));
    let by_prefix = queue.get(&id_with_tail(1, 7)).unwrap();
    assert!(by_prefix.0 == id(1));
    assert!(queue.get(&id(2)).is_none());
    let copy = queue.clone();
    assert_eq!(copy.len(), 1);
    assert!(copy.get(&id(1)).is_some());
}

#[test]
fn commit_lists_keep_the_order_of_arrival() {
    let mut queue = ProposalQueue::new();
    let entries: Vec<(u8, Proposal)> = vec![
        (1, Proposal::Add(AddProposal { key_package: key_package(1) })),
        (2, Proposal::Remove(RemoveProposal { removed: 1 })),
        (3, Proposal::Update(UpdateProposal { key_package: key_package(3) })),
        (4, Proposal::Add(AddProposal { key_package: key_package(4) })),
        (5, Proposal::Update(UpdateProposal { key_package: key_package(5) })),
        (6, Proposal::Remove(RemoveProposal { removed: 2 })),
        (7, Proposal::Add(AddProposal { key_package: key_package(7) })),
    ];
    for (n, proposal) in entries {
        queue.add(QueuedProposal::new(proposal, LeafIndex(0), None), id(n));
    }
    let lists = queue.get_commit_lists();
    let numbers = |ids: &Vec<ProposalID>| -> Vec<u8> { ids.iter().map(|i| i.as_slice()[0]).collect() };
    assert_eq!(numbers(&lists.updates), vec![3, 5]);
    assert_eq!(numbers(&lists.removes), vec![2, 6]);
    assert_eq!(numbers(&lists.adds), vec![1, 4, 7]);
    let empty = ProposalQueue::new().get_commit_lists();
    assert!(empty.updates.is_empty() && empty.removes.is_empty() && empty.adds.is_empty());
}
