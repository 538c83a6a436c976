use vstd::prelude::*;
use vstd::std_specs::cmp::PartialEqSpecImpl;
use crate::ciphersuite::{CiphersuiteName, HPKEPrivateKey, HPKEPublicKey, Signature};
use crate::codec::{
    append_bytes, encode_u16, encode_u8, encode_vec, lemma_parse_int_len, lemma_parse_u16,
    lemma_parse_u8, lemma_parse_vec, lemma_parse_vec_len, lemma_vec_len, spec_parse_u16,
    spec_parse_u8, spec_parse_vec, spec_u16, spec_u8, spec_vec, CodecError, Cursor, VecSize,
};
use crate::creds::{lemma_credential_round_trip, Credential, CredentialView};
use crate::extensions::{
    lemma_extension_round_trip, Extension, ExtensionType, ExtensionView, ProtocolVersion,
};

verus! {

/// The views of a list of extensions.
pub open spec fn spec_extension_views(s: Seq<Extension>) -> Seq<ExtensionView> {
    s.map_values(|e: Extension| e@)
}

/// The extensions of a list, one behind the other, as they stand on the
/// wire.
pub open spec fn spec_extensions_payload(exts: Seq<ExtensionView>) -> Seq<u8>
    decreases exts.len(),
{
    if exts.len() == 0 {
        Seq::empty()
    } else {
        spec_extensions_payload(exts.drop_last()) + exts.last().wire()
    }
}

/// Whether every extension of a list can be written, and the list fits
/// behind a two-byte length.
pub open spec fn spec_extensions_encodable(exts: Seq<ExtensionView>) -> bool {
    (forall|i: int| 0 <= i < exts.len() ==> (#[trigger] exts[i]).encodable())
        && spec_extensions_payload(exts).len() <= 0xffff
}

/// Position of the first extension of a kind.
pub open spec fn spec_extension_index(exts: Seq<ExtensionView>, kind: ExtensionType) -> Option<int>
    decreases exts.len(),
{
    if exts.len() == 0 {
        None
    } else {
        match spec_extension_index(exts.drop_last(), kind) {
            Some(i) => Some(i),
            None => if exts.last().extension_type == kind {
                Some(exts.len() - 1)
            } else {
                None
            },
        }
    }
}

/// The first extension of a kind is in the list, has that kind, and none
/// before it has.
pub proof fn lemma_extension_index(exts: Seq<ExtensionView>, kind: ExtensionType)
    ensures
        match spec_extension_index(exts, kind) {
            Some(i) => 0 <= i < exts.len() && exts[i].extension_type == kind && forall|j: int|
                0 <= j < i ==> (#[trigger] exts[j]).extension_type != kind,
            None => forall|j: int|
                0 <= j < exts.len() ==> (#[trigger] exts[j]).extension_type != kind,
        },
    decreases exts.len(),
{
    if exts.len() > 0 {
        lemma_extension_index(exts.drop_last(), kind);
        assert forall|j: int| 0 <= j < exts.len() - 1 implies exts[j] == exts.drop_last()[j] by {}
    }
}

/// What is found in the first `n` extensions is found in the whole list.
pub proof fn lemma_extension_index_stays(
    exts: Seq<ExtensionView>,
    kind: ExtensionType,
    n: int,
    i: int,
)
    requires
        0 <= n <= exts.len(),
        spec_extension_index(exts.take(n), kind) == Some(i),
    ensures
        spec_extension_index(exts, kind) == Some(i),
    decreases exts.len() - n,
{
    if n < exts.len() {
        assert(exts.take(n + 1).drop_last() =~= exts.take(n));
        lemma_extension_index_stays(exts, kind, n + 1, i);
    } else {
        assert(exts.take(n) =~= exts);
    }
}

/// The extensions that a byte string holds, one behind the other. None
/// where the bytes end inside an extension.
pub open spec fn spec_parse_extensions(s: Seq<u8>) -> Option<Seq<ExtensionView>>
    decreases s.len(),
{
    if s.len() == 0 {
        Some(Seq::empty())
    } else {
        match ExtensionView::parse(s) {
            Some((e, rest)) => if rest.len() >= s.len() {
                None
            } else {
                match spec_parse_extensions(rest) {
                    Some(tail) => Some(seq![e] + tail),
                    None => None,
                }
            },
            None => None,
        }
    }
}

/// An extension that is read takes at least four bytes.
pub proof fn lemma_extension_parse_len(s: Seq<u8>)
    ensures
        ExtensionView::parse(s).is_some() ==> ExtensionView::parse(s).unwrap().1.len() + 4
            <= s.len(),
{
    lemma_parse_int_len(s);
    if spec_parse_u16(s).is_some() {
        lemma_parse_vec_len(VecSize::VecU16, spec_parse_u16(s).unwrap().1);
    }
}

/// The payload of a list is its first extension, then the payload of the
/// others.
pub proof fn lemma_extensions_payload_front(e: ExtensionView, es: Seq<ExtensionView>)
    ensures
        spec_extensions_payload(seq![e] + es) == e.wire() + spec_extensions_payload(es),
    decreases es.len(),
{
    let all = seq![e] + es;
    if es.len() == 0 {
        assert(all.drop_last() =~= Seq::<ExtensionView>::empty());
        assert(all.last() == e);
        assert(spec_extensions_payload(all.drop_last()) =~= Seq::<u8>::empty());
        assert(spec_extensions_payload(all) =~= e.wire());
        assert(e.wire() + spec_extensions_payload(es) =~= e.wire());
    } else {
        assert(all.drop_last() =~= seq![e] + es.drop_last());
        assert(all.last() == es.last());
        lemma_extensions_payload_front(e, es.drop_last());
        assert(spec_extensions_payload(all) =~= e.wire() + spec_extensions_payload(es));
    }
}

/// Reading a list of extensions that was written gives it back.
pub proof fn lemma_extensions_round_trip(exts: Seq<ExtensionView>)
    requires
        forall|i: int| 0 <= i < exts.len() ==> (#[trigger] exts[i]).encodable(),
    ensures
        spec_parse_extensions(spec_extensions_payload(exts)) == Some(exts),
    decreases exts.len(),
{
    if exts.len() == 0 {
    } else {
        let e = exts[0];
        let tail = exts.drop_first();
        assert(exts =~= seq![e] + tail);
        lemma_extensions_payload_front(e, tail);
        let rest = spec_extensions_payload(tail);
        lemma_extension_round_trip(e, rest);
        lemma_extension_parse_len(e.wire() + rest);
        assert forall|i: int| 0 <= i < tail.len() implies (#[trigger] tail[i]).encodable() by {
            assert(tail[i] == exts[i + 1]);
        }
        lemma_extensions_round_trip(tail);
    }
}

/// A member's signed offer of keys: the version and ciphersuite it speaks,
/// the public key to encrypt to it, who it is, and extensions; under a
/// signature over all of these.
#[derive(Debug)]
pub struct KeyPackage {
    pub protocol_version: ProtocolVersion,
    pub cipher_suite: CiphersuiteName,
    pub hpke_init_key: HPKEPublicKey,
    pub credential: Credential,
    pub extensions: Vec<Extension>,
    pub signature: Signature,
}

pub struct KeyPackageView {
    pub protocol_version: ProtocolVersion,
    pub cipher_suite: CiphersuiteName,
    pub hpke_init_key: Seq<u8>,
    pub credential: CredentialView,
    pub extensions: Seq<ExtensionView>,
    pub signature: Seq<u8>,
}

impl View for KeyPackage {
    type V = KeyPackageView;

    open spec fn view(&self) -> KeyPackageView {
        KeyPackageView {
            protocol_version: self.protocol_version,
            cipher_suite: self.cipher_suite,
            hpke_init_key: self.hpke_init_key@,
            credential: self.credential@,
            extensions: spec_extension_views(self.extensions@),
            signature: self.signature@,
        }
    }
}

impl KeyPackageView {
    /// Whether every part fits behind its length prefix.
    pub open spec fn encodable(self) -> bool {
        self.hpke_init_key.len() <= 0xffff && self.credential.encodable()
            && spec_extensions_encodable(self.extensions) && self.signature.len() <= 0xffff
    }

    /// What the signature covers: every field but the signature.
    pub open spec fn unsigned_wire(self) -> Seq<u8> {
        spec_u8(self.protocol_version.spec_to_u8()) + spec_u16(self.cipher_suite.spec_to_u16())
            + spec_vec(VecSize::VecU16, self.hpke_init_key) + self.credential.wire() + spec_vec(
            VecSize::VecU16,
            spec_extensions_payload(self.extensions),
        )
    }

    /// The key package on the wire.
    pub open spec fn wire(self) -> Seq<u8> {
        self.unsigned_wire() + spec_vec(VecSize::VecU16, self.signature)
    }

    /// The key package that a byte string starts with, and what follows
    /// it.
    pub open spec fn parse(s: Seq<u8>) -> Option<(KeyPackageView, Seq<u8>)> {
        match spec_parse_u8(s) {
            Some((version, r1)) => match spec_parse_u16(r1) {
                Some((suite, r2)) => match spec_parse_vec(VecSize::VecU16, r2) {
                    Some((hpke_init_key, r3)) => match CredentialView::parse(r3) {
                        Some((credential, r4)) => match spec_parse_vec(VecSize::VecU16, r4) {
                            Some((payload, r5)) => match spec_parse_extensions(payload) {
                                Some(extensions) => match spec_parse_vec(VecSize::VecU16, r5) {
                                    Some((signature, r6)) => Some(
                                        (
                                            KeyPackageView {
                                                protocol_version: ProtocolVersion::spec_from_u8(
                                                    version,
                                                ),
                                                cipher_suite: CiphersuiteName::spec_from_u16(suite),
                                                hpke_init_key,
                                                credential,
                                                extensions,
                                                signature,
                                            },
                                            r6,
                                        ),
                                    ),
                                    None => None,
                                },
                                None => None,
                            },
                            None => None,
                        },
                        None => None,
                    },
                    None => None,
                },
                None => None,
            },
            None => None,
        }
    }

    /// The parent hash that the key package carries, if it carries one.
    pub open spec fn parent_hash_body(self) -> Option<Seq<u8>> {
        match spec_extension_index(self.extensions, ExtensionType::ParentHash) {
            Some(i) => Some(self.extensions[i].extension_data),
            None => None,
        }
    }

    /// Number of extensions of a kind.
    pub open spec fn count_of(self, kind: ExtensionType) -> nat {
        self.extensions.filter(|e: ExtensionView| e.extension_type == kind).len()
    }

    /// Whether the key package carries exactly one capabilities extension
    /// and exactly one lifetime extension.
    pub open spec fn has_mandatory_extensions(self) -> bool {
        self.count_of(ExtensionType::Capabilities) == 1 && self.count_of(ExtensionType::Lifetime)
            == 1
    }
}

/// Reading a key package that was written gives it back.
pub proof fn lemma_key_package_round_trip(kp: KeyPackageView, rest: Seq<u8>)
    requires
        kp.encodable(),
    ensures
        KeyPackageView::parse(kp.wire() + rest) == Some((kp, rest)),
{
    let payload = spec_extensions_payload(kp.extensions);
    let r5 = spec_vec(VecSize::VecU16, kp.signature) + rest;
    let r4 = spec_vec(VecSize::VecU16, payload) + r5;
    let r3 = kp.credential.wire() + r4;
    let r2 = spec_vec(VecSize::VecU16, kp.hpke_init_key) + r3;
    let r1 = spec_u16(kp.cipher_suite.spec_to_u16()) + r2;
    assert(kp.wire() + rest =~= spec_u8(kp.protocol_version.spec_to_u8()) + r1);
    lemma_parse_u8(kp.protocol_version.spec_to_u8(), r1);
    lemma_parse_u16(kp.cipher_suite.spec_to_u16(), r2);
    lemma_parse_vec(VecSize::VecU16, kp.hpke_init_key, r3);
    lemma_credential_round_trip(kp.credential, r4);
    lemma_parse_vec(VecSize::VecU16, payload, r5);
    lemma_extensions_round_trip(kp.extensions);
    lemma_parse_vec(VecSize::VecU16, kp.signature, rest);
}

/// What is left behind a key package that is read is no longer than what
/// the key package was read from.
pub proof fn lemma_key_package_rest_len(s: Seq<u8>)
    ensures
        KeyPackageView::parse(s).is_some() ==> KeyPackageView::parse(s).unwrap().1.len()
            <= s.len(),
{
    lemma_parse_int_len(s);
    if spec_parse_u8(s).is_some() {
        let r1 = spec_parse_u8(s).unwrap().1;
        lemma_parse_int_len(r1);
        if spec_parse_u16(r1).is_some() {
            let r2 = spec_parse_u16(r1).unwrap().1;
            lemma_parse_vec_len(VecSize::VecU16, r2);
            if spec_parse_vec(VecSize::VecU16, r2).is_some() {
                let r3 = spec_parse_vec(VecSize::VecU16, r2).unwrap().1;
                crate::creds::lemma_credential_rest_len(r3);
                if CredentialView::parse(r3).is_some() {
                    let r4 = CredentialView::parse(r3).unwrap().1;
                    lemma_parse_vec_len(VecSize::VecU16, r4);
                    if spec_parse_vec(VecSize::VecU16, r4).is_some() {
                        let r5 = spec_parse_vec(VecSize::VecU16, r4).unwrap().1;
                        lemma_parse_vec_len(VecSize::VecU16, r5);
                    }
                }
            }
        }
    }
}

/// Reads the extensions that a byte string holds, one behind the other.
fn decode_extensions(payload: &[u8]) -> (r: Result<Vec<Extension>, CodecError>)
    ensures
        match spec_parse_extensions(payload@) {
            Some(exts) => r.is_ok() && spec_extension_views(r.unwrap()@) == exts,
            None => r.is_err() && r.unwrap_err() == CodecError::DecodingError,
        },
{
    let mut cursor = Cursor::new(payload);
    let mut extensions: Vec<Extension> = Vec::new();
    assert(spec_extension_views(extensions@) =~= Seq::<ExtensionView>::empty());
    while !cursor.is_empty()
        invariant
            spec_parse_extensions(payload@) == match spec_parse_extensions(cursor.remaining()) {
                Some(tail) => Some(spec_extension_views(extensions@) + tail),
                None => None,
            },
        decreases cursor.remaining().len(),
    {
        let ghost before = cursor.remaining();
        let ghost done = extensions@;
        proof {
            lemma_extension_parse_len(before);
        }
        let extension = match Extension::decode(&mut cursor) {
            Ok(e) => e,
            Err(e) => {
                return Err(e);
            },
        };
        proof {
            assert(spec_extension_views(done.push(extension)) =~= spec_extension_views(done).push(
                extension@,
            ));
            match spec_parse_extensions(cursor.remaining()) {
                Some(tail) => {
                    assert(spec_extension_views(done) + (seq![extension@] + tail)
                        =~= spec_extension_views(done).push(extension@) + tail);
                },
                None => {},
            }
        }
        extensions.push(extension);
    }
    assert(spec_extension_views(extensions@) + Seq::<ExtensionView>::empty()
        =~= spec_extension_views(extensions@));
    Ok(extensions)
}

impl KeyPackage {
    /// Reads a key package; fails where the bytes end early or do not hold
    /// a key package.
    pub fn decode(cursor: &mut Cursor) -> (r: Result<KeyPackage, CodecError>)
        ensures
            match KeyPackageView::parse(old(cursor).remaining()) {
                Some((kp, rest)) => r.is_ok() && r.unwrap()@ == kp && final(cursor).remaining()
                    == rest,
                None => r.is_err() && r.unwrap_err() == CodecError::DecodingError,
            },
    {
        let version = match cursor.decode_u8() {
            Ok(v) => v,
            Err(e) => {
                return Err(e);
            },
        };
        let suite = match cursor.decode_u16() {
            Ok(v) => v,
            Err(e) => {
                return Err(e);
            },
        };
        let hpke_init_key = match cursor.decode_vec(VecSize::VecU16) {
            Ok(v) => v,
            Err(e) => {
                return Err(e);
            },
        };
        let credential = match Credential::decode(cursor) {
            Ok(v) => v,
            Err(e) => {
                return Err(e);
            },
        };
        let payload = match cursor.decode_vec(VecSize::VecU16) {
            Ok(v) => v,
            Err(e) => {
                return Err(e);
            },
        };
        let extensions = match decode_extensions(payload.as_slice()) {
            Ok(v) => v,
            Err(e) => {
                return Err(e);
            },
        };
        let signature = match cursor.decode_vec(VecSize::VecU16) {
            Ok(v) => v,
            Err(e) => {
                return Err(e);
            },
        };
        Ok(
            KeyPackage {
                protocol_version: ProtocolVersion::from_u8(version),
                cipher_suite: CiphersuiteName::from_u16(suite),
                hpke_init_key: HPKEPublicKey::new(hpke_init_key),
                credential,
                extensions,
                signature: Signature::new(signature),
            },
        )
    }

    /// A key package that is not signed yet: its signature is empty.
    pub fn new(
        cipher_suite: CiphersuiteName,
        hpke_init_key: HPKEPublicKey,
        credential: Credential,
        extensions: Vec<Extension>,
    ) -> (r: KeyPackage)
        ensures
            r@ == (KeyPackageView {
                protocol_version: ProtocolVersion::Mls10,
                cipher_suite,
                hpke_init_key: hpke_init_key@,
                credential: credential@,
                extensions: spec_extension_views(extensions@),
                signature: Seq::empty(),
            }),
    {
        KeyPackage {
            protocol_version: ProtocolVersion::Mls10,
            cipher_suite,
            hpke_init_key,
            credential,
            extensions,
            signature: Signature::new(Vec::new()),
        }
    }

    pub fn get_hpke_init_key(&self) -> (r: &HPKEPublicKey)
        ensures
            r@ == self@.hpke_init_key,
    {
        &self.hpke_init_key
    }

    pub fn get_credential(&self) -> (r: &Credential)
        ensures
            r@ == self@.credential,
    {
        &self.credential
    }

    pub fn get_signature(&self) -> (r: &Signature)
        ensures
            r@ == self@.signature,
    {
        &self.signature
    }

    /// Puts a signature under the key package. The signature is the
    /// caller's, made over `unsigned_payload`.
    pub fn set_signature(&mut self, signature: Signature)
        ensures
            final(self)@ == (KeyPackageView { signature: signature@, ..old(self)@ }),
    {
        self.signature = signature;
    }

    /// Number of extensions of a kind.
    pub fn count_extensions(&self, kind: ExtensionType) -> (r: usize)
        ensures
            r == self@.count_of(kind),
    {
        let ghost exts = self@.extensions;
        let ghost of_kind = |e: ExtensionView| e.extension_type == kind;
        let mut count: usize = 0;
        let mut i: usize = 0;
        proof {
            reveal(Seq::filter);
            assert(exts.take(0).filter(of_kind) =~= Seq::<ExtensionView>::empty());
        }
        while i < self.extensions.len()
            invariant
                i <= self.extensions@.len(),
                exts == spec_extension_views(self.extensions@),
                of_kind == |e: ExtensionView| e.extension_type == kind,
                count == exts.take(i as int).filter(of_kind).len(),
                count <= i,
            decreases self.extensions@.len() - i,
        {
            proof {
                reveal(Seq::filter);
                assert(exts.take(i + 1).drop_last() =~= exts.take(i as int));
                assert(exts.take(i + 1).last() == self.extensions@[i as int]@);
            }
            if self.extensions[i].extension_type == kind {
                count += 1;
            }
            i += 1;
        }
        assert(exts.take(i as int) =~= exts);
        count
    }

    /// Whether the key package carries exactly one capabilities extension
    /// and exactly one lifetime extension, as every key package must.
    pub fn has_mandatory_extensions(&self) -> (r: bool)
        ensures
            r == self@.has_mandatory_extensions(),
    {
        self.count_extensions(ExtensionType::Capabilities) == 1 && self.count_extensions(
            ExtensionType::Lifetime,
        ) == 1
    }

    /// The first extension of a kind, if there is one.
    pub fn get_extension(&self, kind: ExtensionType) -> (r: Option<&Extension>)
        ensures
            match spec_extension_index(self@.extensions, kind) {
                Some(i) => r.is_some() && r.unwrap()@ == self@.extensions[i],
                None => r.is_none(),
            },
    {
        let ghost exts = self@.extensions;
        let mut i: usize = 0;
        while i < self.extensions.len()
            invariant
                i <= self.extensions@.len(),
                exts == spec_extension_views(self.extensions@),
                spec_extension_index(exts.take(i as int), kind).is_none(),
            decreases self.extensions@.len() - i,
        {
            proof {
                assert(exts.take(i + 1).drop_last() =~= exts.take(i as int));
            }
            if self.extensions[i].extension_type == kind {
                proof {
                    lemma_extension_index_stays(exts, kind, i + 1, i as int);
                }
                return Some(&self.extensions[i]);
            }
            i += 1;
        }
        assert(exts.take(i as int) =~= exts);
        None
    }

    /// The parent hash that the key package carries, if it carries one.
    pub fn parent_hash_body(&self) -> (r: Option<&[u8]>)
        ensures
            match self@.parent_hash_body() {
                Some(body) => r.is_some() && r.unwrap()@ == body,
                None => r.is_none(),
            },
    {
        match self.get_extension(ExtensionType::ParentHash) {
            Some(e) => Some(e.extension_data.as_slice()),
            None => None,
        }
    }

    /// Takes out every extension of the kind of `extension`, then adds
    /// `extension` at the end.
    pub fn add_extension(&mut self, extension: Extension)
        ensures
            final(self)@ == (KeyPackageView {
                extensions: old(self)@.extensions.filter(
                    |e: ExtensionView| e.extension_type != extension@.extension_type,
                ).push(extension@),
                ..old(self)@
            }),
    {
        let kind = extension.extension_type;
        let ghost keep = |e: ExtensionView| e.extension_type != extension@.extension_type;
        let ghost before = old(self)@.extensions;
        let mut kept: Vec<Extension> = Vec::new();
        let mut i: usize = 0;
        proof {
            reveal(Seq::filter);
            assert(spec_extension_views(kept@) =~= before.take(0).filter(keep));
        }
        while i < self.extensions.len()
            invariant
                i <= self.extensions@.len(),
                self.extensions == old(self).extensions,
                before == spec_extension_views(self.extensions@),
                kind == extension@.extension_type,
                keep == |e: ExtensionView| e.extension_type != extension@.extension_type,
                spec_extension_views(kept@) == before.take(i as int).filter(keep),
            decreases self.extensions@.len() - i,
        {
            proof {
                reveal(Seq::filter);
                assert(before.take(i + 1).drop_last() =~= before.take(i as int));
                assert(before.take(i + 1).last() == before[i as int]);
            }
            if self.extensions[i].extension_type != kind {
                let e = self.extensions[i].clone();
                proof {
                    assert(spec_extension_views(kept@.push(e)) =~= spec_extension_views(kept@).push(
                        e@,
                    ));
                }
                kept.push(e);
            }
            i += 1;
        }
        proof {
            assert(before.take(i as int) =~= before);
            assert(spec_extension_views(kept@.push(extension)) =~= spec_extension_views(
                kept@,
            ).push(extension@));
        }
        kept.push(extension);
        self.extensions = kept;
    }

    /// The bytes of all extensions, one behind the other; fails where one
    /// cannot be written.
    fn extensions_payload(&self) -> (r: Result<Vec<u8>, CodecError>)
        ensures
            match r {
                Ok(bytes) => bytes@ == spec_extensions_payload(self@.extensions) && forall|i: int|
                    0 <= i < self@.extensions.len() ==> (#[trigger] self@.extensions[i]).encodable(),
                Err(e) => e == CodecError::EncodingError && !spec_extensions_encodable(
                    self@.extensions,
                ),
            },
    {
        let ghost exts = self@.extensions;
        let mut payload: Vec<u8> = Vec::new();
        let mut i: usize = 0;
        while i < self.extensions.len()
            invariant
                i <= self.extensions@.len(),
                exts == spec_extension_views(self.extensions@),
                payload@ == spec_extensions_payload(exts.take(i as int)),
                forall|j: int| 0 <= j < i ==> (#[trigger] exts[j]).encodable(),
            decreases self.extensions@.len() - i,
        {
            proof {
                assert(exts.take(i + 1).drop_last() =~= exts.take(i as int));
                assert(exts.take(i + 1).last() == exts[i as int]);
            }
            match self.extensions[i].encode(&mut payload) {
                Ok(()) => {},
                Err(e) => {
                    return Err(e);
                },
            }
            i += 1;
        }
        assert(exts.take(i as int) =~= exts);
        Ok(payload)
    }

    /// The bytes that the signature covers; fails where a part is too long
    /// for its length prefix.
    pub fn unsigned_payload(&self) -> (r: Result<Vec<u8>, CodecError>)
        ensures
            (KeyPackageView { signature: Seq::empty(), ..self@ }).encodable() ==> r.is_ok()
                && r.unwrap()@ == self@.unsigned_wire(),
            !(KeyPackageView { signature: Seq::empty(), ..self@ }).encodable() ==> r.is_err()
                && r.unwrap_err() == CodecError::EncodingError,
    {
        let mut buffer: Vec<u8> = Vec::new();
        encode_u8(&mut buffer, self.protocol_version.to_u8());
        encode_u16(&mut buffer, self.cipher_suite.to_u16());
        match encode_vec(VecSize::VecU16, &mut buffer, self.hpke_init_key.as_slice()) {
            Ok(()) => {},
            Err(e) => {
                return Err(e);
            },
        }
        let credential = match self.credential.encode_detached() {
            Ok(bytes) => bytes,
            Err(e) => {
                return Err(e);
            },
        };
        append_bytes(&mut buffer, credential.as_slice());
        let payload = match self.extensions_payload() {
            Ok(bytes) => bytes,
            Err(e) => {
                return Err(e);
            },
        };
        match encode_vec(VecSize::VecU16, &mut buffer, payload.as_slice()) {
            Ok(()) => {},
            Err(e) => {
                return Err(e);
            },
        }
        assert(buffer@ =~= self@.unsigned_wire());
        Ok(buffer)
    }

    /// The key package as it stands on the wire; fails where a part is too
    /// long for its length prefix.
    pub fn encode_detached(&self) -> (r: Result<Vec<u8>, CodecError>)
        ensures
            self@.encodable() ==> r.is_ok() && r.unwrap()@ == self@.wire(),
            !self@.encodable() ==> r.is_err() && r.unwrap_err() == CodecError::EncodingError,
    {
        let mut buffer = match self.unsigned_payload() {
            Ok(bytes) => bytes,
            Err(e) => {
                return Err(e);
            },
        };
        match encode_vec(VecSize::VecU16, &mut buffer, self.signature.as_slice()) {
            Ok(()) => {},
            Err(e) => {
                return Err(e);
            },
        }
        assert(buffer@ =~= self@.wire());
        Ok(buffer)
    }

    /// Appends the key package to `buffer`; fails, and leaves the buffer as
    /// it was, where a part is too long.
    pub fn encode(&self, buffer: &mut Vec<u8>) -> (r: Result<(), CodecError>)
        ensures
            self@.encodable() ==> r.is_ok() && final(buffer)@ == old(buffer)@ + self@.wire(),
            !self@.encodable() ==> r.is_err() && r.unwrap_err() == CodecError::EncodingError
                && final(buffer)@ == old(buffer)@,
    {
        match self.encode_detached() {
            Ok(bytes) => {
                append_bytes(buffer, bytes.as_slice());
                Ok(())
            },
            Err(e) => Err(e),
        }
    }
}

impl Clone for KeyPackage {
    fn clone(&self) -> (r: Self)
        ensures
            r@ == self@,
    {
        let extensions = self.extensions.clone();
        assert(spec_extension_views(extensions@) =~= spec_extension_views(self.extensions@));
        KeyPackage {
            protocol_version: self.protocol_version,
            cipher_suite: self.cipher_suite,
            hpke_init_key: self.hpke_init_key.clone(),
            credential: self.credential.clone(),
            extensions,
            signature: self.signature.clone(),
        }
    }
}

impl PartialEq for KeyPackage {
    fn eq(&self, other: &Self) -> (r: bool) {
        if !(self.protocol_version == other.protocol_version && self.cipher_suite
            == other.cipher_suite && self.hpke_init_key == other.hpke_init_key && self.credential
            == other.credential && self.signature == other.signature) {
            return false;
        }
        if self.extensions.len() != other.extensions.len() {
            assert(self@.extensions.len() != other@.extensions.len());
            return false;
        }
        let mut i: usize = 0;
        while i < self.extensions.len()
            invariant
                i <= self.extensions@.len(),
                self.extensions@.len() == other.extensions@.len(),
                forall|j: int| 0 <= j < i ==> self.extensions@[j]@ == other.extensions@[j]@,
            decreases self.extensions@.len() - i,
        {
            if !(self.extensions[i] == other.extensions[i]) {
                assert(self@.extensions[i as int] != other@.extensions[i as int]);
                return false;
            }
            i += 1;
        }
        assert(self@.extensions =~= other@.extensions);
        true
    }
}

impl PartialEqSpecImpl for KeyPackage {
    open spec fn obeys_eq_spec() -> bool {
        true
    }

    open spec fn eq_spec(&self, other: &Self) -> bool {
        self@ == other@
    }
}

/// A key package together with the private key of its init key.
#[derive(Debug)]
pub struct KeyPackageBundle {
    pub key_package: KeyPackage,
    pub private_key: HPKEPrivateKey,
}

pub struct KeyPackageBundleView {
    pub key_package: KeyPackageView,
    pub private_key: Seq<u8>,
}

impl View for KeyPackageBundle {
    type V = KeyPackageBundleView;

    open spec fn view(&self) -> KeyPackageBundleView {
        KeyPackageBundleView { key_package: self.key_package@, private_key: self.private_key@ }
    }
}

impl KeyPackageBundle {
    pub fn from_values(key_package: KeyPackage, private_key: HPKEPrivateKey) -> (r:
        KeyPackageBundle)
        ensures
            r@.key_package == key_package@,
            r@.private_key == private_key@,
    {
        KeyPackageBundle { key_package, private_key }
    }

    pub fn get_key_package(&self) -> (r: &KeyPackage)
        ensures
            r@ == self@.key_package,
    {
        &self.key_package
    }

    pub fn get_private_key(&self) -> (r: &HPKEPrivateKey)
        ensures
            r@ == self@.private_key,
    {
        &self.private_key
    }
}

impl Clone for KeyPackageBundle {
    fn clone(&self) -> (r: Self)
        ensures
            r@ == self@,
    {
        KeyPackageBundle {
            key_package: self.key_package.clone(),
            private_key: self.private_key.clone(),
        }
    }
}

} // verus!
