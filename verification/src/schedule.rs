use vstd::prelude::*;
use vstd::string::StringSliceAdditionalSpecFns;
use crate::ciphersuite::{hkdf_label, spec_hkdf_label, spec_hkdf_label_encodable, Ciphersuite};
use crate::codec::{copy_bytes, CodecError};
use crate::group::{GroupContext, GroupContextView};

verus! {

/// The secrets of an epoch. They are derived by the caller, under the
/// labels that `epoch_labels` hands out.
#[derive(Debug)]
pub struct EpochSecrets {
    pub welcome_secret: Vec<u8>,
    pub sender_data_secret: Vec<u8>,
    pub handshake_secret: Vec<u8>,
    pub application_secret: Vec<u8>,
    pub exporter_secret: Vec<u8>,
    pub confirmation_key: Vec<u8>,
    pub membership_key: Vec<u8>,
    pub resumption_secret: Vec<u8>,
    pub init_secret: Vec<u8>,
}

pub struct EpochSecretsView {
    pub welcome_secret: Seq<u8>,
    pub sender_data_secret: Seq<u8>,
    pub handshake_secret: Seq<u8>,
    pub application_secret: Seq<u8>,
    pub exporter_secret: Seq<u8>,
    pub confirmation_key: Seq<u8>,
    pub membership_key: Seq<u8>,
    pub resumption_secret: Seq<u8>,
    pub init_secret: Seq<u8>,
}

impl View for EpochSecrets {
    type V = EpochSecretsView;

    open spec fn view(&self) -> EpochSecretsView {
        EpochSecretsView {
            welcome_secret: self.welcome_secret@,
            sender_data_secret: self.sender_data_secret@,
            handshake_secret: self.handshake_secret@,
            application_secret: self.application_secret@,
            exporter_secret: self.exporter_secret@,
            confirmation_key: self.confirmation_key@,
            membership_key: self.membership_key@,
            resumption_secret: self.resumption_secret@,
            init_secret: self.init_secret@,
        }
    }
}

impl EpochSecretsView {
    /// The secrets before the first epoch: all empty.
    pub open spec fn empty() -> EpochSecretsView {
        EpochSecretsView {
            welcome_secret: Seq::empty(),
            sender_data_secret: Seq::empty(),
            handshake_secret: Seq::empty(),
            application_secret: Seq::empty(),
            exporter_secret: Seq::empty(),
            confirmation_key: Seq::empty(),
            membership_key: Seq::empty(),
            resumption_secret: Seq::empty(),
            init_secret: Seq::empty(),
        }
    }
}

impl EpochSecrets {
    /// The secrets before the first epoch: all empty.
    pub fn new() -> (r: EpochSecrets)
        ensures
            r@ == EpochSecretsView::empty(),
    {
        EpochSecrets {
            welcome_secret: Vec::new(),
            sender_data_secret: Vec::new(),
            handshake_secret: Vec::new(),
            application_secret: Vec::new(),
            exporter_secret: Vec::new(),
            confirmation_key: Vec::new(),
            membership_key: Vec::new(),
            resumption_secret: Vec::new(),
            init_secret: Vec::new(),
        }
    }
}

impl Clone for EpochSecrets {
    fn clone(&self) -> (r: Self)
        ensures
            r@ == self@,
    {
        EpochSecrets {
            welcome_secret: copy_bytes(self.welcome_secret.as_slice()),
            sender_data_secret: copy_bytes(self.sender_data_secret.as_slice()),
            handshake_secret: copy_bytes(self.handshake_secret.as_slice()),
            application_secret: copy_bytes(self.application_secret.as_slice()),
            exporter_secret: copy_bytes(self.exporter_secret.as_slice()),
            confirmation_key: copy_bytes(self.confirmation_key.as_slice()),
            membership_key: copy_bytes(self.membership_key.as_slice()),
            resumption_secret: copy_bytes(self.resumption_secret.as_slice()),
            init_secret: copy_bytes(self.init_secret.as_slice()),
        }
    }
}

/// The `info` under which each secret of an epoch is derived. The epoch
/// secret is expanded from the joiner secret under `epoch`; every other
/// secret is expanded from the epoch secret under its own label. Each
/// expansion yields as many bytes as the hash.
#[derive(Debug)]
pub struct EpochLabels {
    pub epoch: Vec<u8>,
    pub sender_data: Vec<u8>,
    pub handshake: Vec<u8>,
    pub application: Vec<u8>,
    pub exporter: Vec<u8>,
    pub confirmation: Vec<u8>,
    pub membership: Vec<u8>,
    pub resumption: Vec<u8>,
    pub init: Vec<u8>,
    pub length: usize,
}

/// The `info` of a derivation under a label with an empty context.
pub open spec fn spec_derive_label(ciphersuite: Ciphersuite, label: Seq<u8>) -> Seq<u8> {
    spec_hkdf_label(ciphersuite.spec_hash_length(), label, Seq::empty())
}

/// The labels of the key schedule are short enough to be written.
pub proof fn lemma_schedule_labels(length: nat, context: Seq<u8>)
    requires
        length <= 0xffff,
        context.len() <= 0xffff_ffff,
    ensures
        spec_hkdf_label_encodable(length, "epoch".spec_bytes(), context),
        spec_hkdf_label_encodable(length, "sender data".spec_bytes(), context),
        spec_hkdf_label_encodable(length, "handshake".spec_bytes(), context),
        spec_hkdf_label_encodable(length, "app".spec_bytes(), context),
        spec_hkdf_label_encodable(length, "exporter".spec_bytes(), context),
        spec_hkdf_label_encodable(length, "confirm".spec_bytes(), context),
        spec_hkdf_label_encodable(length, "membership".spec_bytes(), context),
        spec_hkdf_label_encodable(length, "resumption".spec_bytes(), context),
        spec_hkdf_label_encodable(length, "init".spec_bytes(), context),
        spec_hkdf_label_encodable(length, "path".spec_bytes(), context),
        spec_hkdf_label_encodable(length, "node".spec_bytes(), context),
{
    reveal_strlit("epoch");
    reveal_strlit("sender data");
    reveal_strlit("handshake");
    reveal_strlit("app");
    reveal_strlit("exporter");
    reveal_strlit("confirm");
    reveal_strlit("membership");
    reveal_strlit("resumption");
    reveal_strlit("init");
    reveal_strlit("path");
    reveal_strlit("node");
    vstd::string::is_ascii_spec_bytes("epoch");
    vstd::string::is_ascii_spec_bytes("sender data");
    vstd::string::is_ascii_spec_bytes("handshake");
    vstd::string::is_ascii_spec_bytes("app");
    vstd::string::is_ascii_spec_bytes("exporter");
    vstd::string::is_ascii_spec_bytes("confirm");
    vstd::string::is_ascii_spec_bytes("membership");
    vstd::string::is_ascii_spec_bytes("resumption");
    vstd::string::is_ascii_spec_bytes("init");
    vstd::string::is_ascii_spec_bytes("path");
    vstd::string::is_ascii_spec_bytes("node");
    assert(vstd::string::is_ascii("epoch"));
    assert(vstd::string::is_ascii("sender data"));
    assert(vstd::string::is_ascii("handshake"));
    assert(vstd::string::is_ascii("app"));
    assert(vstd::string::is_ascii("exporter"));
    assert(vstd::string::is_ascii("confirm"));
    assert(vstd::string::is_ascii("membership"));
    assert(vstd::string::is_ascii("resumption"));
    assert(vstd::string::is_ascii("init"));
    assert(vstd::string::is_ascii("path"));
    assert(vstd::string::is_ascii("node"));
}

/// A label with an empty context, for a derivation that yields as many
/// bytes as the hash.
fn derive_label(ciphersuite: &Ciphersuite, label: &str) -> (r: Vec<u8>)
    requires
        spec_hkdf_label_encodable(
            ciphersuite.spec_hash_length(),
            label.spec_bytes(),
            Seq::empty(),
        ),
    ensures
        r@ == spec_derive_label(*ciphersuite, label.spec_bytes()),
{
    let empty: Vec<u8> = Vec::new();
    match hkdf_label(ciphersuite.hash_length(), label, empty.as_slice()) {
        Ok(bytes) => bytes,
        Err(e) => Vec::new(),
    }
}

/// The `info` under which the secrets of an epoch are derived, for the
/// epoch that `group_context` describes. Fails where the context cannot
/// be written.
pub fn epoch_labels(ciphersuite: &Ciphersuite, group_context: &GroupContext) -> (r: Result<
    EpochLabels,
    CodecError,
>)
    ensures
        group_context@.encodable() ==> r.is_ok() && r.unwrap().epoch@ == spec_hkdf_label(
            ciphersuite.spec_hash_length(),
            "epoch".spec_bytes(),
            group_context@.wire(),
        ) && r.unwrap().sender_data@ == spec_derive_label(
            *ciphersuite,
            "sender data".spec_bytes(),
        ) && r.unwrap().handshake@ == spec_derive_label(*ciphersuite, "handshake".spec_bytes())
            && r.unwrap().application@ == spec_derive_label(*ciphersuite, "app".spec_bytes())
            && r.unwrap().exporter@ == spec_derive_label(*ciphersuite, "exporter".spec_bytes())
            && r.unwrap().confirmation@ == spec_derive_label(*ciphersuite, "confirm".spec_bytes())
            && r.unwrap().membership@ == spec_derive_label(
            *ciphersuite,
            "membership".spec_bytes(),
        ) && r.unwrap().resumption@ == spec_derive_label(*ciphersuite, "resumption".spec_bytes())
            && r.unwrap().init@ == spec_derive_label(*ciphersuite, "init".spec_bytes())
            && r.unwrap().length == ciphersuite.spec_hash_length(),
        !group_context@.encodable() ==> r.is_err() && r.unwrap_err() == CodecError::EncodingError,
{
    let context = match group_context.encode_detached() {
        Ok(bytes) => bytes,
        Err(e) => {
            return Err(e);
        },
    };
    let length = ciphersuite.hash_length();
    proof {
        crate::group::lemma_group_context_len(group_context@);
        lemma_schedule_labels(length as nat, context@);
        lemma_schedule_labels(length as nat, Seq::empty());
    }
    let epoch = match hkdf_label(length, "epoch", context.as_slice()) {
        Ok(bytes) => bytes,
        Err(e) => Vec::new(),
    };
    Ok(
        EpochLabels {
            epoch,
            sender_data: derive_label(ciphersuite, "sender data"),
            handshake: derive_label(ciphersuite, "handshake"),
            application: derive_label(ciphersuite, "app"),
            exporter: derive_label(ciphersuite, "exporter"),
            confirmation: derive_label(ciphersuite, "confirm"),
            membership: derive_label(ciphersuite, "membership"),
            resumption: derive_label(ciphersuite, "resumption"),
            init: derive_label(ciphersuite, "init"),
            length,
        },
    )
}

/// The `info` under which the secret of a node is derived from the
/// secret of the node below it.
pub fn path_label(ciphersuite: &Ciphersuite) -> (r: Vec<u8>)
    ensures
        r@ == spec_derive_label(*ciphersuite, "path".spec_bytes()),
{
    proof {
        lemma_schedule_labels(ciphersuite.spec_hash_length(), Seq::empty());
    }
    derive_label(ciphersuite, "path")
}

/// The `info` under which the seed of a node's key pair is derived from
/// the node's path secret.
pub fn node_label(ciphersuite: &Ciphersuite) -> (r: Vec<u8>)
    ensures
        r@ == spec_derive_label(*ciphersuite, "node".spec_bytes()),
{
    proof {
        lemma_schedule_labels(ciphersuite.spec_hash_length(), Seq::empty());
    }
    derive_label(ciphersuite, "node")
}

/// The two derivations of an exported secret: the exporter secret is
/// expanded under `label` to as many bytes as the hash, and the result
/// under `"exporter"`, bound to the group's context, to `key_length`
/// bytes.
#[derive(Debug)]
pub struct ExporterLabels {
    pub first: Vec<u8>,
    pub first_length: usize,
    pub second: Vec<u8>,
    pub second_length: usize,
}

/// The `info` of the two derivations of an exported secret. Fails where
/// the label, the length or the context cannot be written.
pub fn mls_exporter(
    ciphersuite: &Ciphersuite,
    label: &str,
    group_context: &GroupContext,
    key_length: usize,
) -> (r: Result<ExporterLabels, CodecError>)
    ensures
        group_context@.encodable() && key_length <= 0xffff && label.spec_bytes().len() + 6
            <= 0xff ==> r.is_ok() && r.unwrap().first@ == spec_derive_label(
            *ciphersuite,
            label.spec_bytes(),
        ) && r.unwrap().first_length == ciphersuite.spec_hash_length() && r.unwrap().second@
            == spec_hkdf_label(
            key_length as nat,
            "exporter".spec_bytes(),
            group_context@.wire(),
        ) && r.unwrap().second_length == key_length,
        !(group_context@.encodable() && key_length <= 0xffff && label.spec_bytes().len() + 6
            <= 0xff) ==> r.is_err() && r.unwrap_err() == CodecError::EncodingError,
{
    let context = match group_context.encode_detached() {
        Ok(bytes) => bytes,
        Err(e) => {
            return Err(e);
        },
    };
    let empty: Vec<u8> = Vec::new();
    let first_length = ciphersuite.hash_length();
    let first = match hkdf_label(first_length, label, empty.as_slice()) {
        Ok(bytes) => bytes,
        Err(e) => {
            return Err(e);
        },
    };
    if key_length > 0xffff {
        return Err(CodecError::EncodingError);
    }
    proof {
        crate::group::lemma_group_context_len(group_context@);
        lemma_schedule_labels(key_length as nat, context@);
    }
    let second = match hkdf_label(key_length, "exporter", context.as_slice()) {
        Ok(bytes) => bytes,
        Err(e) => {
            return Err(e);
        },
    };
    Ok(ExporterLabels { first, first_length, second, second_length: key_length })
}

} // verus!
