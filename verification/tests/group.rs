use maelstrom::ciphersuite::{
    hkdf_label, Ciphersuite, CiphersuiteName, HPKEPrivateKey, HPKEPublicKey, SignaturePublicKey,
};
use maelstrom::codec::{CodecError, Cursor};
use maelstrom::creds::Credential;
use maelstrom::ciphersuite::Signature;
use maelstrom::extensions::{Extension, ExtensionType, ParentHashExtension};
use maelstrom::framing::{MLSPlaintext, MLSPlaintextContentType, Sender};
use maelstrom::group::mls_group::GroupError;
use maelstrom::messages::proposals::ProposalIDList;
use maelstrom::messages::Commit;
use maelstrom::tree::astree::{ASError, SecretRequest};
use maelstrom::tree::ratchet_tree::RatchetTree;
use maelstrom::group::mls_group::{
    compute_welcome_key_nonce, update_confirmed_transcript_hash, update_interim_transcript_hash,
    MlsGroup,
};
use maelstrom::group::{GroupContext, GroupEpoch, GroupId};
use maelstrom::key_packages::{KeyPackage, KeyPackageBundle};
use maelstrom::messages::proposals::RemoveProposal;
use maelstrom::schedule::{epoch_labels, mls_exporter, node_label, path_label, EpochSecrets};
use maelstrom::tree::index::{LeafIndex, NodeIndex};

const SUITE: CiphersuiteName = CiphersuiteName::MLS10_128_DHKEMX25519_AES128GCM_SHA256_Ed25519;

fn suite() -> Ciphersuite {
    Ciphersuite::new(SUITE)
}

fn key_package(name: u8) -> KeyPackage {
    let credential = Credential::new(vec![name], SUITE, SignaturePublicKey::new(vec![name; 4]));
    KeyPackage::new(SUITE, HPKEPublicKey::new(vec![name, name]), credential, vec![])
}

fn context() -> GroupContext {
    GroupContext::new(GroupId { value: vec![0] }, GroupEpoch(1), vec![7, 7], vec![8])
}

#[test]
fn the_group_of_its_founder() {
    let bundle = KeyPackageBundle::from_values(key_package(1), HPKEPrivateKey::new(vec![1]));
    let group = MlsGroup::new(&[0], suite(), bundle, vec![5, 5]);
    assert_eq!(*group.get_ciphersuite(), suite());
    assert_eq!(group.get_context().group_id.value, vec![0]);
    assert_eq!(group.get_context().epoch, GroupEpoch(0));
    assert_eq!(group.get_context().tree_hash, vec![5, 5]);
    assert!(group.get_context().confirmed_transcript_hash.is_empty());
    assert_eq!(group.get_tree().nodes.len(), 1);
    assert_eq!(group.get_tree().get_own_index(), NodeIndex(0));
    assert_eq!(group.get_sender_index(), LeafIndex(0));
    assert!(group.get_epoch_secrets().application_secret.is_empty());
    assert!(group.get_epoch_secrets().init_secret.is_empty());
    assert!(group.get_interim_transcript_hash().is_empty());
    assert_eq!(group.get_astree().get_generation(LeafIndex(0)), 0);
    let (message, proposal) = group.create_add_proposal(&[9], key_package(2));
    assert!(proposal.as_add().unwrap().key_package == key_package(2));
    assert_eq!(message.group_id.value, vec![0]);
    assert_eq!(message.epoch, GroupEpoch(0));
    assert_eq!(message.sender, Sender::member(LeafIndex(0)));
    assert_eq!(message.authenticated_data, vec![9]);
    assert!(message.signature.as_slice().is_empty());
    match &message.content {
        MLSPlaintextContentType::Proposal(carried) => assert!(carried == &proposal),
        _ => panic!("the message carries the proposal"),
    }
    let (_, proposal) = group.create_update_proposal(&[], key_package(3));
    assert!(proposal.as_update().unwrap().key_package == key_package(3));
    let (message, proposal) = group.create_remove_proposal(&[], LeafIndex(4));
    assert_eq!(proposal.as_remove(), Some(RemoveProposal { removed: 4 }));
    assert_eq!(
        message.encode_detached(),
        Ok(vec![1, 0, 0, 0, 0, 0, 0, 0, 0, 0, 1, 0, 0, 0, 0, 0, 0, 0, 0, 2, 3, 0, 0, 0, 4, 0, 0])
    );
    let message = group.create_application_message(&[1], &[7, 8]);
    match &message.content {
        MLSPlaintextContentType::Application(bytes) => assert_eq!(bytes, &vec![7, 8]),
        _ => panic!("the message carries the bytes"),
    }
    assert_eq!(group.check_epoch(&message), Ok(()));
    let credentials = group.roster().unwrap();
    assert_eq!(credentials.len(), 1);
    assert_eq!(credentials[0].identity, vec![1]);
}

#[test]
fn a_message_is_signed_over_the_context_and_its_content() {
    let bundle = KeyPackageBundle::from_values(key_package(1), HPKEPrivateKey::new(vec![1]));
    let group = MlsGroup::new(&[0], suite(), bundle, vec![5, 5]);
    let mut message = group.create_application_message(&[1], &[7, 8]);
    let unsigned = vec![
        1, 0, 0, 0, 0, 0, 0, 0, 0, 0, 1, 0, 0, 0, 0, 0, 0, 0, 1, 1, 1, 0, 0, 0, 2, 7, 8,
    ];
    let mut expected = group.get_context().encode_detached().unwrap();
    assert_eq!(expected, vec![1, 0, 0, 0, 0, 0, 0, 0, 0, 0, 2, 5, 5, 0]);
    expected.extend(unsigned.clone());
    assert_eq!(message.to_be_signed(group.get_context()), Ok(expected));
    message.set_signature(Signature::new(vec![4, 4, 4]));
    let mut signed = unsigned;
    signed.extend([0, 3, 4, 4, 4]);
    assert_eq!(message.encode_detached(), Ok(signed));
    let long = MLSPlaintext::new(
        LeafIndex(0),
        &[],
        MLSPlaintextContentType::Commit(
            Commit::new(
                ProposalIDList { updates: vec![], removes: vec![], adds: vec![] },
                None,
            ),
            vec![0; 256],
        ),
        group.get_context(),
    );
    assert_eq!(long.encode_detached(), Err(CodecError::EncodingError));
    assert_eq!(
        long.to_be_signed(group.get_context()),
        Err(CodecError::EncodingError)
    );
}

#[test]
fn messages_of_other_epochs_are_refused() {
    let bundle = KeyPackageBundle::from_values(key_package(1), HPKEPrivateKey::new(vec![1]));
    let mut group = MlsGroup::new(&[0], suite(), bundle.clone(), vec![5, 5]);
    let old = group.create_application_message(&[], &[1]);
    let tree = RatchetTree::new(suite(), bundle.clone());
    let mut secrets = EpochSecrets::new();
    secrets.application_secret = vec![3, 3];
    let same_epoch = group.get_context().clone();
    assert_eq!(
        group.install_epoch(tree, same_epoch, secrets.clone(), vec![1]),
        Err(GroupError::WrongEpoch)
    );
    let tree = RatchetTree::new(suite(), bundle.clone());
    let other_group = GroupContext::new(GroupId { value: vec![1] }, GroupEpoch(1), vec![], vec![]);
    assert_eq!(
        group.install_epoch(tree, other_group, secrets.clone(), vec![1]),
        Err(GroupError::WrongEpoch)
    );
    let mut malformed = RatchetTree::new(suite(), bundle.clone());
    malformed.nodes.push(maelstrom::tree::node::Node::new_blank_parent_node());
    let next = group.get_context().advance(vec![6], vec![7]).unwrap();
    assert_eq!(
        group.install_epoch(malformed, next.clone(), secrets.clone(), vec![1]),
        Err(GroupError::MalformedTree)
    );
    assert_eq!(group.get_context().epoch, GroupEpoch(0));
    let tree = RatchetTree::new(suite(), bundle);
    assert_eq!(group.install_epoch(tree, next, secrets, vec![1]), Ok(()));
    assert_eq!(group.get_context().epoch, GroupEpoch(1));
    assert_eq!(group.get_context().tree_hash, vec![6]);
    assert_eq!(group.get_epoch_secrets().application_secret, vec![3, 3]);
    assert_eq!(group.get_interim_transcript_hash(), &vec![1]);
    assert_eq!(group.check_epoch(&old), Err(GroupError::StaleEpoch));
    let mut ahead = group.create_application_message(&[], &[1]);
    assert_eq!(group.check_epoch(&ahead), Ok(()));
    ahead.epoch = GroupEpoch(2);
    assert_eq!(group.check_epoch(&ahead), Err(GroupError::FutureEpoch));
}

#[test]
fn a_member_asks_its_ratchet_for_the_secrets_of_its_next_message() {
    let bundle = KeyPackageBundle::from_values(key_package(1), HPKEPrivateKey::new(vec![1]));
    let mut group = MlsGroup::new(&[0], suite(), bundle, vec![5, 5]);
    let message = group.create_application_message(&[], &[1]);
    match group.encrypt(&message).unwrap() {
        (0, SecretRequest::Seed { secret, length, .. }) => {
            assert!(secret.is_empty());
            assert_eq!(length, 32);
        }
        _ => panic!("the sender has no secret yet"),
    }
    assert!(group.advance_ratchet(LeafIndex(0), vec![1, 1]));
    match group.encrypt(&message).unwrap() {
        (0, SecretRequest::Ready { secret, .. }) => assert_eq!(secret, vec![1, 1]),
        _ => panic!("the first secret is at hand"),
    }
    assert!(group.advance_ratchet(LeafIndex(0), vec![2, 2]));
    match group.encrypt(&message).unwrap() {
        (1, SecretRequest::Ready { secret, .. }) => assert_eq!(secret, vec![2, 2]),
        _ => panic!("the second secret is at hand"),
    }
    assert!(!group.advance_ratchet(LeafIndex(1), vec![2, 2]));
    let mut stranger = group.create_application_message(&[], &[1]);
    stranger.sender = Sender::member(LeafIndex(5));
    assert_eq!(group.encrypt(&stranger).err(), Some(ASError::IndexOutOfBounds));
}

#[test]
fn the_context_is_written_byte_for_byte() {
    let bytes = context().encode_detached().unwrap();
    assert_eq!(bytes, vec![1, 0, 0, 0, 0, 0, 0, 0, 0, 1, 2, 7, 7, 1, 8]);
    let mut cursor = Cursor::new(&bytes);
    assert!(GroupContext::decode(&mut cursor).unwrap() == context());
    assert!(cursor.is_empty());
    let mut short = Cursor::new(&bytes[..14]);
    assert_eq!(
        GroupContext::decode(&mut short).err(),
        Some(CodecError::DecodingError)
    );
    let long = GroupContext::new(GroupId { value: vec![0; 256] }, GroupEpoch(1), vec![], vec![]);
    assert_eq!(long.encode_detached(), Err(CodecError::EncodingError));
    assert!(context().clone() == context());
}

#[test]
fn a_commit_opens_the_next_epoch() {
    let next = context().advance(vec![1], vec![2]).unwrap();
    assert_eq!(next.group_id.value, vec![0]);
    assert_eq!(next.epoch, GroupEpoch(2));
    assert_eq!(next.tree_hash, vec![1]);
    assert_eq!(next.confirmed_transcript_hash, vec![2]);
    let last = GroupContext::new(GroupId { value: vec![0] }, GroupEpoch(u64::MAX), vec![], vec![]);
    assert!(last.advance(vec![], vec![]).is_none());
}

#[test]
fn the_secrets_of_an_epoch_are_derived_under_their_labels() {
    let labels = epoch_labels(&suite(), &context()).unwrap();
    assert_eq!(labels.length, 32);
    assert_eq!(
        labels.epoch,
        hkdf_label(32, "epoch", &context().encode_detached().unwrap()).unwrap()
    );
    assert_eq!(labels.sender_data, hkdf_label(32, "sender data", &[]).unwrap());
    assert_eq!(labels.handshake, hkdf_label(32, "handshake", &[]).unwrap());
    assert_eq!(labels.application, hkdf_label(32, "app", &[]).unwrap());
    assert_eq!(labels.exporter, hkdf_label(32, "exporter", &[]).unwrap());
    assert_eq!(labels.confirmation, hkdf_label(32, "confirm", &[]).unwrap());
    assert_eq!(labels.membership, hkdf_label(32, "membership", &[]).unwrap());
    assert_eq!(labels.resumption, hkdf_label(32, "resumption", &[]).unwrap());
    assert_eq!(labels.init, hkdf_label(32, "init", &[]).unwrap());
    assert_eq!(
        labels.application,
        vec![0, 32, 9, b'm', b'l', b's', b'1', b'0', b' ', b'a', b'p', b'p', 0, 0, 0, 0]
    );
    assert_eq!(path_label(&suite()), hkdf_label(32, "path", &[]).unwrap());
    assert_eq!(node_label(&suite()), hkdf_label(32, "node", &[]).unwrap());
    let long = GroupContext::new(GroupId { value: vec![0; 256] }, GroupEpoch(1), vec![], vec![]);
    assert_eq!(
        epoch_labels(&suite(), &long).err(),
        Some(CodecError::EncodingError)
    );
    let secrets = EpochSecrets::new();
    assert!(secrets.clone().exporter_secret.is_empty());
}

#[test]
fn an_exported_secret_is_derived_in_two_steps() {
    let labels = mls_exporter(&suite(), "chat", &context(), 20).unwrap();
    assert_eq!(labels.first, hkdf_label(32, "chat", &[]).unwrap());
    assert_eq!(labels.first_length, 32);
    assert_eq!(
        labels.second,
        hkdf_label(20, "exporter", &context().encode_detached().unwrap()).unwrap()
    );
    assert_eq!(labels.second_length, 20);
    assert_eq!(
        mls_exporter(&suite(), "chat", &context(), 0x10000).err(),
        Some(CodecError::EncodingError)
    );
    assert_eq!(
        mls_exporter(&suite(), &"x".repeat(250), &context(), 20).err(),
        Some(CodecError::EncodingError)
    );
}

#[test]
fn transcript_hashes_chain_the_commits() {
    assert_eq!(
        update_confirmed_transcript_hash(&[3, 4], &[1, 2]),
        vec![1, 2, 3, 4]
    );
    assert_eq!(
        update_interim_transcript_hash(&[7], &[5, 6]),
        vec![5, 6, 7]
    );
    assert_eq!(update_confirmed_transcript_hash(&[3], &[]), vec![3]);
}

#[test]
fn key_and_nonce_of_a_welcome() {
    let labels = compute_welcome_key_nonce(&suite());
    assert_eq!(labels.secret_info, b"mls 1.0 welcome".to_vec());
    assert_eq!(labels.secret_length, 32);
    assert_eq!(labels.key_info, b"key".to_vec());
    assert_eq!(labels.key_length, 16);
    assert_eq!(labels.nonce_info, b"nonce".to_vec());
    assert_eq!(labels.nonce_length, 12);
}

#[test]
fn a_key_package_carries_its_extensions() {
    let mut kp = key_package(1);
    assert!(kp.get_extension(ExtensionType::ParentHash).is_none());
    assert!(kp.parent_hash_body().is_none());
    kp.add_extension(Extension::new(ExtensionType::KeyID, vec![0, 1, 9]));
    kp.add_extension(ParentHashExtension::new(&[1, 2]).to_extension().unwrap());
    kp.add_extension(Extension::new(ExtensionType::Lifetime, vec![0; 16]));
    kp.add_extension(ParentHashExtension::new(&[3, 4]).to_extension().unwrap());
    let kinds: Vec<ExtensionType> = kp.extensions.iter().map(|e| e.get_type()).collect();
    assert_eq!(
        kinds,
        vec![ExtensionType::KeyID, ExtensionType::Lifetime, ExtensionType::ParentHash]
    );
    assert_eq!(kp.parent_hash_body(), Some(&[2u8, 3, 4][..]));
    assert_eq!(
        kp.get_extension(ExtensionType::KeyID).unwrap().extension_data,
        vec![0, 1, 9]
    );
    assert_eq!(kp.get_hpke_init_key().as_slice(), &[1u8, 1][..]);
    assert_eq!(kp.get_credential().get_identity(), &[1u8][..]);
    assert_eq!(kp.get_credential().get_public_key().as_slice(), &[1u8; 4][..]);
    assert!(kp.get_signature().as_slice().is_empty());
    let unsigned = kp.unsigned_payload().unwrap();
    kp.set_signature(Signature::new(vec![6, 6]));
    let mut signed = unsigned.clone();
    signed.extend([0, 2, 6, 6]);
    assert_eq!(kp.encode_detached(), Ok(signed));
    assert_eq!(kp.unsigned_payload(), Ok(unsigned));
    assert!(kp.clone() == kp);
    assert!(!(kp == key_package(1)));
}
