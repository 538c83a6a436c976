use maelstrom::ciphersuite::{hkdf_label, AeadKey, AeadNonce, Ciphersuite, CiphersuiteName};
use maelstrom::codec::CodecError;
use maelstrom::tree::astree::{ASError, ASTree, ApplicationSecrets, SecretRequest};
use maelstrom::tree::index::LeafIndex;
use maelstrom::tree::sender_ratchet::{
    SenderRatchet, MAXIMUM_FORWARD_DISTANCE, OUT_OF_ORDER_TOLERANCE,
};

fn suite() -> Ciphersuite {
    Ciphersuite::new(CiphersuiteName::MLS10_128_DHKEMX25519_AES128GCM_SHA256_Ed25519)
}

// Stands in for the key derivation of the caller.
fn expand(secret: &[u8], info: &[u8], length: usize) -> Vec<u8> {
    (0..length)
        .map(|i| {
            secret[i % secret.len()]
                .wrapping_mul(31)
                .wrapping_add(info[i % info.len()])
                .wrapping_add(info[info.len() - 1])
                .wrapping_add(i as u8)
        })
        .collect()
}

fn serve(ratchet: &mut SenderRatchet, generation: u32) -> Result<ApplicationSecrets, ASError> {
    loop {
        match ratchet.get_secret(generation, &suite())? {
            SecretRequest::Ready {
                secret,
                key_label,
                key_length,
                nonce_label,
                nonce_length,
            } => {
                let key = expand(&secret, &key_label, key_length);
                let nonce = expand(&secret, &nonce_label, nonce_length);
                return Ok(ApplicationSecrets::new(
                    AeadNonce::from_slice(&nonce),
                    AeadKey::from_slice(&key),
                ));
            }
            SecretRequest::Ratchet {
                secret,
                label,
                length,
            } => {
                assert!(ratchet.ratchet(expand(&secret, &label, length)));
            }
            SecretRequest::Seed { .. } => panic!("a ratchet has its first secret"),
        }
    }
}

#[test]
fn the_bounds_of_the_ratchet() {
    assert_eq!(OUT_OF_ORDER_TOLERANCE, 5);
    assert_eq!(MAXIMUM_FORWARD_DISTANCE, 1000);
}

#[test]
fn labels_are_written_byte_for_byte() {
    assert_eq!(
        hkdf_label(16, "app-key", &[0, 0, 0, 1, 0, 0, 0, 2]),
        Ok(vec![
            0, 16, 13, b'm', b'l', b's', b'1', b'0', b' ', b'a', b'p', b'p', b'-', b'k', b'e',
            b'y', 0, 0, 0, 8, 0, 0, 0, 1, 0, 0, 0, 2
        ])
    );
    assert_eq!(
        hkdf_label(32, "path", &[]),
        Ok(vec![0, 32, 10, b'm', b'l', b's', b'1', b'0', b' ', b'p', b'a', b't', b'h', 0, 0, 0, 0])
    );
    assert_eq!(hkdf_label(0x10000, "path", &[]), Err(CodecError::EncodingError));
    let long_label = "x".repeat(250);
    assert_eq!(hkdf_label(32, &long_label, &[]), Err(CodecError::EncodingError));
    let longest_label = "x".repeat(249);
    assert!(hkdf_label(32, &longest_label, &[]).is_ok());
}

#[test]
fn a_new_ratchet_answers_for_generation_zero() {
    let ratchet = SenderRatchet::new(LeafIndex(1), &[7, 7, 7]);
    assert_eq!(ratchet.get_generation(), 0);
    match ratchet.get_secret(0, &suite()).unwrap() {
        SecretRequest::Ready {
            secret,
            key_label,
            key_length,
            nonce_label,
            nonce_length,
        } => {
            assert_eq!(secret, vec![7, 7, 7]);
            assert_eq!(key_length, 16);
            assert_eq!(nonce_length, 12);
            assert_eq!(key_label, hkdf_label(16, "app-key", &[0, 0, 0, 1, 0, 0, 0, 0]).unwrap());
            assert_eq!(
                nonce_label,
                hkdf_label(12, "app-nonce", &[0, 0, 0, 1, 0, 0, 0, 0]).unwrap()
            );
        }
        _ => panic!("the secret of generation 0 is at hand"),
    }
    match ratchet.get_secret(1, &suite()).unwrap() {
        SecretRequest::Ratchet {
            secret,
            label,
            length,
        } => {
            assert_eq!(secret, vec![7, 7, 7]);
            assert_eq!(length, 32);
            assert_eq!(label, hkdf_label(32, "app-secret", &[0, 0, 0, 1, 0, 0, 0, 0]).unwrap());
        }
        _ => panic!("the secret of generation 1 is to be derived"),
    }
}

#[test]
fn the_ratchet_keeps_five_secrets() {
    let mut ratchet = SenderRatchet::new(LeafIndex(0), &[0]);
    for g in 1..=9u8 {
        assert!(ratchet.ratchet(vec![g]));
        assert_eq!(ratchet.get_generation(), g as u32);
    }
    for g in 5..=9u32 {
        match ratchet.get_secret(g, &suite()).unwrap() {
            SecretRequest::Ready { secret, .. } => assert_eq!(secret, vec![g as u8]),
            _ => panic!("the secret is at hand"),
        }
    }
    assert_eq!(
        ratchet.get_secret(4, &suite()).err(),
        Some(ASError::TooDistantInThePast)
    );
    let copy = ratchet.clone();
    assert_eq!(copy.get_generation(), 9);
}

#[test]
fn messages_out_of_order() {
    let mut in_order = SenderRatchet::new(LeafIndex(3), &[1, 2, 3, 4]);
    let mut expected = Vec::new();
    for g in 0..=6u32 {
        let secrets = serve(&mut in_order, g).unwrap();
        expected.push((
            secrets.get_key().as_slice().to_vec(),
            secrets.get_nonce().as_slice().to_vec(),
        ));
    }
    let mut receiver = SenderRatchet::new(LeafIndex(3), &[1, 2, 3, 4]);
    for g in [0u32, 2, 1, 3, 5, 4] {
        let secrets = serve(&mut receiver, g).unwrap();
        assert_eq!(secrets.get_key().as_slice(), &expected[g as usize].0[..]);
        assert_eq!(secrets.get_nonce().as_slice(), &expected[g as usize].1[..]);
        assert_eq!(secrets.get_key().as_slice().len(), 16);
        assert_eq!(secrets.get_nonce().as_slice().len(), 12);
    }
    assert_eq!(receiver.get_generation(), 5);
    assert!(serve(&mut receiver, 6).is_ok());
    assert_eq!(receiver.get_generation(), 6);
    assert_eq!(
        serve(&mut receiver, 0).err(),
        Some(ASError::TooDistantInThePast)
    );
    assert_eq!(
        serve(&mut receiver, 1).err(),
        Some(ASError::TooDistantInThePast)
    );
    assert!(serve(&mut receiver, 2).is_ok());
    assert_eq!(receiver.get_generation(), 6);
}

#[test]
fn the_ratchet_only_goes_forward() {
    let mut ratchet = SenderRatchet::new(LeafIndex(0), &[5]);
    assert!(serve(&mut ratchet, 10).is_ok());
    for asked in 0..6u32 {
        assert_eq!(
            serve(&mut ratchet, asked).err(),
            Some(ASError::TooDistantInThePast)
        );
    }
    for asked in 6..=10u32 {
        assert!(serve(&mut ratchet, asked).is_ok());
    }
    assert_eq!(ratchet.get_generation(), 10);
}

#[test]
fn a_generation_too_far_ahead_is_refused() {
    let mut ratchet = SenderRatchet::new(LeafIndex(0), &[5]);
    assert_eq!(
        ratchet.get_secret(1001, &suite()).err(),
        Some(ASError::TooDistantInTheFuture)
    );
    assert_eq!(
        ratchet.get_secret(u32::MAX, &suite()).err(),
        Some(ASError::TooDistantInTheFuture)
    );
    assert!(ratchet.get_secret(1000, &suite()).is_ok());
    assert!(serve(&mut ratchet, 1000).is_ok());
    assert_eq!(ratchet.get_generation(), 1000);
    assert!(ratchet.get_secret(2000, &suite()).is_ok());
    assert_eq!(
        ratchet.get_secret(2001, &suite()).err(),
        Some(ASError::TooDistantInTheFuture)
    );
}

#[test]
fn the_tree_of_ratchets_starts_each_sender_from_the_application_secret() {
    let mut tree = ASTree::new(&[9, 9], LeafIndex(3));
    assert_eq!(tree.get_generation(LeafIndex(1)), 0);
    assert_eq!(tree.get_generation(LeafIndex(7)), 0);
    assert_eq!(
        tree.get_secret(&suite(), LeafIndex(3), 0).err(),
        Some(ASError::IndexOutOfBounds)
    );
    match tree.get_secret(&suite(), LeafIndex(2), 4).unwrap() {
        SecretRequest::Seed {
            secret,
            label,
            length,
        } => {
            assert_eq!(secret, vec![9, 9]);
            assert_eq!(length, 32);
            assert_eq!(label, hkdf_label(32, "app-secret", &[0, 0, 0, 2]).unwrap());
        }
        _ => panic!("the sender has no secret yet"),
    }
    assert!(!tree.ratchet(LeafIndex(2), vec![1]));
    assert!(!tree.seed(LeafIndex(3), &[1]));
    assert!(tree.seed(LeafIndex(2), &[1]));
    assert!(!tree.seed(LeafIndex(2), &[2]));
    match tree.get_secret(&suite(), LeafIndex(2), 0).unwrap() {
        SecretRequest::Ready { secret, .. } => assert_eq!(secret, vec![1]),
        _ => panic!("the first secret is at hand"),
    }
    assert!(tree.ratchet(LeafIndex(2), vec![2]));
    assert!(!tree.ratchet(LeafIndex(3), vec![2]));
    assert_eq!(tree.get_generation(LeafIndex(2)), 1);
    assert_eq!(tree.get_generation(LeafIndex(0)), 0);
    match tree.get_secret(&suite(), LeafIndex(2), 1).unwrap() {
        SecretRequest::Ready { secret, .. } => assert_eq!(secret, vec![2]),
        _ => panic!("the second secret is at hand"),
    }
    assert_eq!(
        tree.get_secret(&suite(), LeafIndex(2), 1002).err(),
        Some(ASError::TooDistantInTheFuture)
    );
}

#[test]
fn ciphersuites_fix_their_lengths() {
    let small = suite();
    assert_eq!(small.hash_length(), 32);
    assert_eq!(small.aead_key_length(), 16);
    assert_eq!(small.aead_nonce_length(), 12);
    assert_eq!(
        small.get_name(),
        CiphersuiteName::MLS10_128_DHKEMX25519_AES128GCM_SHA256_Ed25519
    );
    let chacha =
        Ciphersuite::new(CiphersuiteName::MLS10_128_DHKEMX25519_CHACHA20POLY1305_SHA256_Ed25519);
    assert_eq!(chacha.hash_length(), 32);
    assert_eq!(chacha.aead_key_length(), 32);
    let large = Ciphersuite::new(CiphersuiteName::MLS10_256_DHKEMX448_AES256GCM_SHA512_Ed448);
    assert_eq!(large.hash_length(), 64);
    assert_eq!(large.aead_key_length(), 32);
    assert_eq!(large.aead_nonce_length(), 12);
}
