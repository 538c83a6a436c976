use maelstrom::ciphersuite::{supported_ciphersuites, CiphersuiteName};
use maelstrom::codec::{CodecError, Cursor};
use maelstrom::extensions::{
    current_protocol_version, supported_extensions, supported_protocol_versions,
    CapabilitiesExtension, DeviceCapabilities, DeviceCapabilityExtension, DeviceCapabilityType,
    DeviceType, Extension, ExtensionType, KeyIDExtension, KeyPackageId, LifetimeExtension,
    ParentHashExtension, ProtocolVersion, LIFETIME_1_DAY, LIFETIME_1_HOUR, LIFETIME_1_MINUTE,
    LIFETIME_1_WEEK, LIFETIME_4_WEEKS, LIFETIME_MARGIN,
};

#[test]
fn test_protocol_version() {
    let mls10_version = ProtocolVersion::Mls10;
    let default_version = ProtocolVersion::Default;
    let mls10_e = mls10_version.encode_detached();
    assert_eq!(mls10_e[0], mls10_version.to_u8());
    let default_e = default_version.encode_detached();
    assert_eq!(default_e[0], default_version.to_u8());
    assert_eq!(mls10_e[0], 0);
    assert_eq!(default_e[0], 255);
}

#[test]
fn test_extension_codec() {
    let capabilities_extension = CapabilitiesExtension::new(
        supported_protocol_versions(),
        supported_ciphersuites(),
        supported_extensions(),
    );
    let extension = capabilities_extension.to_extension().unwrap();
    let bytes = extension.encode_detached().unwrap();
    assert_eq!(
        bytes,
        vec![0, 1, 0, 14, 1, 0, 4, 0, 1, 0, 3, 6, 0, 1, 0, 2, 0, 3]
    );
}

#[test]
fn unknown_tags_read_as_default() {
    assert_eq!(ProtocolVersion::from_u8(0), ProtocolVersion::Mls10);
    assert_eq!(ProtocolVersion::from_u8(1), ProtocolVersion::Default);
    assert_eq!(ProtocolVersion::from_u8(255), ProtocolVersion::Default);
    assert_eq!(current_protocol_version(), ProtocolVersion::Mls10);
    assert!(ProtocolVersion::Mls10 < ProtocolVersion::Default);
    assert_eq!(ExtensionType::from_u16(0), ExtensionType::Invalid);
    assert_eq!(ExtensionType::from_u16(1), ExtensionType::Capabilities);
    assert_eq!(ExtensionType::from_u16(2), ExtensionType::Lifetime);
    assert_eq!(ExtensionType::from_u16(3), ExtensionType::KeyID);
    assert_eq!(ExtensionType::from_u16(4), ExtensionType::ParentHash);
    assert_eq!(ExtensionType::from_u16(5), ExtensionType::RatchetTree);
    assert_eq!(ExtensionType::from_u16(6), ExtensionType::DeviceCapabilities);
    assert_eq!(ExtensionType::from_u16(7), ExtensionType::Default);
    assert_eq!(ExtensionType::Default.to_u16(), 65535);
    assert_eq!(CiphersuiteName::from_u16(1).to_u16(), 1);
    assert_eq!(CiphersuiteName::from_u16(9), CiphersuiteName::Default);
    let mut cursor = Cursor::new(&[7u8]);
    assert_eq!(ProtocolVersion::decode(&mut cursor), Ok(ProtocolVersion::Default));
    assert_eq!(
        ProtocolVersion::decode(&mut cursor),
        Err(CodecError::DecodingError)
    );
}

#[test]
fn extension_round_trip() {
    let extension = Extension::new(ExtensionType::KeyID, vec![1, 2, 3]);
    assert_eq!(extension.get_type(), ExtensionType::KeyID);
    let bytes = extension.encode_detached().unwrap();
    assert_eq!(bytes, vec![0, 3, 0, 3, 1, 2, 3]);
    let mut cursor = Cursor::new(&bytes);
    let back = Extension::decode(&mut cursor).unwrap();
    assert!(back == extension);
    assert!(cursor.is_empty());
    let mut short = Cursor::new(&bytes[..5]);
    assert_eq!(
        Extension::decode(&mut short).err(),
        Some(CodecError::DecodingError)
    );
    let too_long = Extension::new(ExtensionType::KeyID, vec![0u8; 0x10000]);
    assert_eq!(
        too_long.encode_detached().err(),
        Some(CodecError::EncodingError)
    );
}

#[test]
fn capabilities_round_trip() {
    let capabilities = CapabilitiesExtension::new(
        vec![ProtocolVersion::Mls10, ProtocolVersion::Default],
        vec![
            CiphersuiteName::MLS10_128_DHKEMP256_AES128GCM_SHA256_P256,
            CiphersuiteName::Default,
        ],
        vec![ExtensionType::ParentHash],
    );
    let extension = capabilities.to_extension().unwrap();
    assert_eq!(extension.get_type(), ExtensionType::Capabilities);
    assert_eq!(
        extension.extension_data,
        vec![2, 0, 255, 4, 0, 2, 255, 255, 2, 0, 4]
    );
    let back = CapabilitiesExtension::new_from_bytes(&extension.extension_data).unwrap();
    assert_eq!(back.versions, capabilities.versions);
    assert_eq!(back.ciphersuites, capabilities.ciphersuites);
    assert_eq!(back.extensions, capabilities.extensions);
}

#[test]
fn capabilities_that_are_malformed_are_refused() {
    assert_eq!(
        CapabilitiesExtension::new_from_bytes(&[1, 0, 3, 0, 1, 0, 0]).err(),
        Some(CodecError::DecodingError)
    );
    assert_eq!(
        CapabilitiesExtension::new_from_bytes(&[1, 0, 2, 0, 1]).err(),
        Some(CodecError::DecodingError)
    );
    let too_many = CapabilitiesExtension::new(vec![], vec![CiphersuiteName::Default; 128], vec![]);
    assert_eq!(
        too_many.to_extension().err(),
        Some(CodecError::EncodingError)
    );
}

#[test]
fn lifetime_has_an_hour_of_slack_on_either_side() {
    assert_eq!(LIFETIME_1_MINUTE, 60);
    assert_eq!(LIFETIME_1_HOUR, 60 * LIFETIME_1_MINUTE);
    assert_eq!(LIFETIME_1_DAY, 24 * LIFETIME_1_HOUR);
    assert_eq!(LIFETIME_1_WEEK, 7 * LIFETIME_1_DAY);
    assert_eq!(LIFETIME_4_WEEKS, 4 * LIFETIME_1_WEEK);
    assert_eq!(LIFETIME_MARGIN, LIFETIME_1_HOUR);
    let lifetime = LifetimeExtension::new(60, 10_000).unwrap();
    assert_eq!(lifetime.not_before, 6_400);
    assert_eq!(lifetime.not_after, 13_660);
    assert!(lifetime.is_valid_now(10_000));
    assert!(lifetime.is_valid_now(6_400));
    assert!(lifetime.is_valid_now(13_660));
    assert!(!lifetime.is_valid_now(6_399));
    assert!(!lifetime.is_valid_now(13_661));
    assert!(!lifetime.is_expired(10_000));
    assert!(lifetime.is_expired(6_399));
    assert!(lifetime.is_expired(13_661));
    assert_eq!(LifetimeExtension::new(60, 3_599), None);
    assert_eq!(LifetimeExtension::new(u64::MAX, 10_000), None);
    assert_eq!(LifetimeExtension::new(60, u64::MAX - 3_600), None);
}

#[test]
fn lifetime_round_trip() {
    let lifetime = LifetimeExtension {
        not_before: 0x0102030405060708,
        not_after: 0x1112131415161718,
    };
    let extension = lifetime.to_extension();
    assert_eq!(extension.get_type(), ExtensionType::Lifetime);
    assert_eq!(
        extension.extension_data,
        vec![1, 2, 3, 4, 5, 6, 7, 8, 0x11, 0x12, 0x13, 0x14, 0x15, 0x16, 0x17, 0x18]
    );
    assert_eq!(
        LifetimeExtension::new_from_bytes(&extension.extension_data),
        Ok(lifetime)
    );
    assert_eq!(
        LifetimeExtension::new_from_bytes(&extension.extension_data[..15]),
        Err(CodecError::DecodingError)
    );
}

#[test]
fn key_id_and_parent_hash_round_trip() {
    let key_id = KeyIDExtension::new(&[9, 8, 7]);
    let extension = key_id.to_extension().unwrap();
    assert_eq!(extension.get_type(), ExtensionType::KeyID);
    assert_eq!(extension.extension_data, vec![0, 3, 9, 8, 7]);
    assert_eq!(
        KeyIDExtension::new_from_bytes(&extension.extension_data)
            .unwrap()
            .key_id,
        vec![9, 8, 7]
    );
    let parent_hash = ParentHashExtension::new(&[1, 2, 3, 4]);
    let extension = parent_hash.to_extension().unwrap();
    assert_eq!(extension.get_type(), ExtensionType::ParentHash);
    assert_eq!(extension.extension_data, vec![4, 1, 2, 3, 4]);
    assert_eq!(
        ParentHashExtension::new_from_bytes(&extension.extension_data)
            .unwrap()
            .parent_hash,
        vec![1, 2, 3, 4]
    );
    assert_eq!(
        ParentHashExtension::new_from_bytes(&[4, 1, 2]).err(),
        Some(CodecError::DecodingError)
    );
    assert_eq!(
        ParentHashExtension::new(&[0u8; 256]).to_extension().err(),
        Some(CodecError::EncodingError)
    );
}

#[test]
fn device_capabilities() {
    let permanent = DeviceCapabilities::from_device(DeviceType::PermanentDevice);
    assert_eq!(permanent, DeviceCapabilities(11));
    assert!(permanent.is_permanent());
    assert!(!permanent.is_temporary());
    assert!(permanent.can_add());
    assert!(permanent.can_remove());
    assert!(permanent.can_self_update());
    assert!(!permanent.cannot_be_removed());
    let temporary = DeviceCapabilities::from_device(DeviceType::TemporaryDevice);
    assert_eq!(temporary, DeviceCapabilities(0));
    assert!(temporary.is_temporary());
    assert!(!temporary.is_permanent());
    assert!(!temporary.can_add());
    assert!(!temporary.can_remove());
    assert!(!temporary.can_self_update());
    assert!(DeviceCapabilities(4).cannot_be_removed());
    assert!(!DeviceCapabilities(3).is_permanent());
    assert_eq!(DeviceCapabilityType::AddCap.bit(), 1);
    assert_eq!(DeviceCapabilityType::RemoveCap.bit(), 2);
    assert_eq!(DeviceCapabilityType::NonRemovableCap.bit(), 4);
    assert_eq!(DeviceCapabilityType::SelfUpdateCap.bit(), 8);
    let extension = DeviceCapabilityExtension::new(permanent).to_extension();
    assert_eq!(extension.get_type(), ExtensionType::DeviceCapabilities);
    assert_eq!(extension.extension_data, vec![0, 0, 0, 11]);
    assert_eq!(
        DeviceCapabilityExtension::new_from_bytes(&extension.extension_data),
        Ok(DeviceCapabilityExtension::new(permanent))
    );
    assert_eq!(
        DeviceCapabilityExtension::new_from_bytes(&[0, 0, 11]),
        Err(CodecError::DecodingError)
    );
}

#[test]
fn key_package_id_has_sixteen_bytes() {
    let bytes: Vec<u8> = (1..=16).collect();
    let id = KeyPackageId::from_slice(&bytes).unwrap();
    assert_eq!(id.to_vec(), bytes);
    assert!(KeyPackageId::from_slice(&bytes[..15]).is_none());
    assert!(KeyPackageId::from_slice(&[0u8; 17]).is_none());
    assert!(KeyPackageId::from_slice(&[]).is_none());
    assert_eq!(KeyPackageId::default().to_vec(), vec![0u8; 16]);
    let mut buffer = Vec::new();
    id.encode(&mut buffer);
    assert_eq!(buffer[0], 16);
    assert_eq!(&buffer[1..], &bytes[..]);
    let mut cursor = Cursor::new(&buffer);
    assert!(KeyPackageId::decode(&mut cursor).unwrap() == id);
    let mut short = Cursor::new(&[2u8, 1, 2]);
    assert_eq!(
        KeyPackageId::decode(&mut short).err(),
        Some(CodecError::DecodingError)
    );
}
