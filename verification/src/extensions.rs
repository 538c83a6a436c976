use vstd::prelude::*;
use vstd::std_specs::cmp::PartialEqSpecImpl;
use crate::ciphersuite::CiphersuiteName;
use crate::tree::node::{lemma_node_parse_len, lemma_node_round_trip, Node, NodeView};
use crate::codec::{
    bytes_eq, copy_bytes, encode_u16, encode_u32, encode_u64, encode_u8, encode_vec,
    lemma_parse_u16, lemma_parse_u32, lemma_parse_u64, lemma_parse_vec, spec_parse_u16, spec_parse_u8,
    spec_parse_u32, spec_parse_u64, spec_parse_vec, spec_u16, spec_u32, spec_u64, spec_u8, spec_vec,
    CodecError, Cursor, VecSize,
};

verus! {

/// Version of the protocol.
#[derive(Clone, Copy, Debug, PartialEq, Eq, Structural, PartialOrd, Ord)]
pub enum ProtocolVersion {
    Mls10,
    /// Any version that the protocol does not name.
    Default,
}

impl ProtocolVersion {
    pub open spec fn spec_to_u8(self) -> u8 {
        match self {
            ProtocolVersion::Mls10 => 0,
            ProtocolVersion::Default => 255,
        }
    }

    pub open spec fn spec_from_u8(v: u8) -> ProtocolVersion {
        if v == 0 {
            ProtocolVersion::Mls10
        } else {
            ProtocolVersion::Default
        }
    }

    /// The version's number on the wire.
    pub fn to_u8(&self) -> (r: u8)
        ensures
            r == self.spec_to_u8(),
    {
        match self {
            ProtocolVersion::Mls10 => 0,
            ProtocolVersion::Default => 255,
        }
    }

    /// The version that a number names; `Default` for an unknown number.
    pub fn from_u8(v: u8) -> (r: ProtocolVersion)
        ensures
            r == ProtocolVersion::spec_from_u8(v),
    {
        match v {
            0 => ProtocolVersion::Mls10,
            _ => ProtocolVersion::Default,
        }
    }

    pub fn encode(&self, buffer: &mut Vec<u8>)
        ensures
            final(buffer)@ == old(buffer)@ + spec_u8(self.spec_to_u8()),
    {
        encode_u8(buffer, self.to_u8());
    }

    pub fn encode_detached(&self) -> (r: Vec<u8>)
        ensures
            r@ == spec_u8(self.spec_to_u8()),
    {
        let mut buffer: Vec<u8> = Vec::new();
        self.encode(&mut buffer);
        assert(buffer@ =~= spec_u8(self.spec_to_u8()));
        buffer
    }

    pub fn decode(cursor: &mut Cursor) -> (r: Result<ProtocolVersion, CodecError>)
        ensures
            old(cursor).remaining().len() >= 1 ==> r == Ok::<ProtocolVersion, CodecError>(
                ProtocolVersion::spec_from_u8(old(cursor).remaining()[0]),
            ) && final(cursor).remaining() == old(cursor).remaining().skip(1),
            old(cursor).remaining().len() < 1 ==> r == Err::<ProtocolVersion, CodecError>(
                CodecError::DecodingError,
            ) && final(cursor).remaining() == old(cursor).remaining(),
    {
        match cursor.decode_u8() {
            Ok(v) => Ok(ProtocolVersion::from_u8(v)),
            Err(e) => Err(e),
        }
    }
}

impl From<u8> for ProtocolVersion {
    fn from(a: u8) -> (r: ProtocolVersion) {
        ProtocolVersion::from_u8(a)
    }
}

impl vstd::std_specs::convert::FromSpecImpl<u8> for ProtocolVersion {
    open spec fn obeys_from_spec() -> bool {
        true
    }

    open spec fn from_spec(a: u8) -> ProtocolVersion {
        ProtocolVersion::spec_from_u8(a)
    }
}

/// The version that this library speaks.
pub fn current_protocol_version() -> (r: ProtocolVersion)
    ensures
        r == ProtocolVersion::Mls10,
{
    ProtocolVersion::Mls10
}

/// The versions that a key package of this library offers.
pub fn supported_protocol_versions() -> (r: Vec<ProtocolVersion>)
    ensures
        r@ == seq![ProtocolVersion::Mls10],
{
    let mut r: Vec<ProtocolVersion> = Vec::new();
    r.push(ProtocolVersion::Mls10);
    assert(r@ =~= seq![ProtocolVersion::Mls10]);
    r
}

/// Kind of an extension.
#[derive(Clone, Copy, Debug, PartialEq, Eq, Structural, Hash)]
pub enum ExtensionType {
    Invalid,
    Capabilities,
    Lifetime,
    KeyID,
    ParentHash,
    RatchetTree,
    DeviceCapabilities,
    /// Any kind that the protocol does not name.
    Default,
}

impl ExtensionType {
    pub open spec fn spec_to_u16(self) -> u16 {
        match self {
            ExtensionType::Invalid => 0,
            ExtensionType::Capabilities => 1,
            ExtensionType::Lifetime => 2,
            ExtensionType::KeyID => 3,
            ExtensionType::ParentHash => 4,
            ExtensionType::RatchetTree => 5,
            ExtensionType::DeviceCapabilities => 6,
            ExtensionType::Default => 65535,
        }
    }

    pub open spec fn spec_from_u16(v: u16) -> ExtensionType {
        if v == 0 {
            ExtensionType::Invalid
        } else if v == 1 {
            ExtensionType::Capabilities
        } else if v == 2 {
            ExtensionType::Lifetime
        } else if v == 3 {
            ExtensionType::KeyID
        } else if v == 4 {
            ExtensionType::ParentHash
        } else if v == 5 {
            ExtensionType::RatchetTree
        } else if v == 6 {
            ExtensionType::DeviceCapabilities
        } else {
            ExtensionType::Default
        }
    }

    /// The kind's number on the wire.
    pub fn to_u16(&self) -> (r: u16)
        ensures
            r == self.spec_to_u16(),
    {
        match self {
            ExtensionType::Invalid => 0,
            ExtensionType::Capabilities => 1,
            ExtensionType::Lifetime => 2,
            ExtensionType::KeyID => 3,
            ExtensionType::ParentHash => 4,
            ExtensionType::RatchetTree => 5,
            ExtensionType::DeviceCapabilities => 6,
            ExtensionType::Default => 65535,
        }
    }

    /// The kind that a number names; `Default` for an unknown number.
    pub fn from_u16(v: u16) -> (r: ExtensionType)
        ensures
            r == ExtensionType::spec_from_u16(v),
    {
        match v {
            0 => ExtensionType::Invalid,
            1 => ExtensionType::Capabilities,
            2 => ExtensionType::Lifetime,
            3 => ExtensionType::KeyID,
            4 => ExtensionType::ParentHash,
            5 => ExtensionType::RatchetTree,
            6 => ExtensionType::DeviceCapabilities,
            _ => ExtensionType::Default,
        }
    }

    pub fn encode(&self, buffer: &mut Vec<u8>)
        ensures
            final(buffer)@ == old(buffer)@ + spec_u16(self.spec_to_u16()),
    {
        encode_u16(buffer, self.to_u16());
    }
}

impl From<u16> for ExtensionType {
    fn from(a: u16) -> (r: ExtensionType) {
        ExtensionType::from_u16(a)
    }
}

impl vstd::std_specs::convert::FromSpecImpl<u16> for ExtensionType {
    open spec fn obeys_from_spec() -> bool {
        true
    }

    open spec fn from_spec(a: u16) -> ExtensionType {
        ExtensionType::spec_from_u16(a)
    }
}

/// A version or a kind that is written and read again is the same.
pub proof fn lemma_tags_round_trip(version: ProtocolVersion, kind: ExtensionType)
    ensures
        ProtocolVersion::spec_from_u8(version.spec_to_u8()) == version,
        ExtensionType::spec_from_u16(kind.spec_to_u16()) == kind,
{
}

/// The kinds of extension that a key package of this library carries.
pub fn supported_extensions() -> (r: Vec<ExtensionType>)
    ensures
        r@ == seq![ExtensionType::Capabilities, ExtensionType::Lifetime, ExtensionType::KeyID],
{
    let mut r: Vec<ExtensionType> = Vec::new();
    r.push(ExtensionType::Capabilities);
    r.push(ExtensionType::Lifetime);
    r.push(ExtensionType::KeyID);
    assert(r@ =~= seq![ExtensionType::Capabilities, ExtensionType::Lifetime, ExtensionType::KeyID]);
    r
}

/// An extension as a key package carries it: its kind and its body.
#[derive(Debug)]
pub struct Extension {
    pub extension_type: ExtensionType,
    pub extension_data: Vec<u8>,
}

pub struct ExtensionView {
    pub extension_type: ExtensionType,
    pub extension_data: Seq<u8>,
}

impl View for Extension {
    type V = ExtensionView;

    open spec fn view(&self) -> ExtensionView {
        ExtensionView { extension_type: self.extension_type, extension_data: self.extension_data@ }
    }
}

impl ExtensionView {
    /// Whether the body fits behind a 16-bit length.
    pub open spec fn encodable(self) -> bool {
        self.extension_data.len() <= 0xffff
    }

    /// The extension on the wire: its kind in two bytes, then its body behind
    /// a two-byte length.
    pub open spec fn wire(self) -> Seq<u8> {
        spec_u16(self.extension_type.spec_to_u16()) + spec_vec(
            VecSize::VecU16,
            self.extension_data,
        )
    }

    /// The extension that a byte string starts with, and what follows it.
    pub open spec fn parse(s: Seq<u8>) -> Option<(ExtensionView, Seq<u8>)> {
        match spec_parse_u16(s) {
            Some((kind, rest)) => match spec_parse_vec(VecSize::VecU16, rest) {
                Some((data, rest2)) => Some(
                    (
                        ExtensionView {
                            extension_type: ExtensionType::spec_from_u16(kind),
                            extension_data: data,
                        },
                        rest2,
                    ),
                ),
                None => None,
            },
            None => None,
        }
    }
}

/// Reading an extension that was written gives it back.
pub proof fn lemma_extension_round_trip(e: ExtensionView, rest: Seq<u8>)
    requires
        e.encodable(),
    ensures
        ExtensionView::parse(e.wire() + rest) == Some((e, rest)),
{
    let body = spec_vec(VecSize::VecU16, e.extension_data);
    lemma_parse_u16(e.extension_type.spec_to_u16(), body + rest);
    assert(e.wire() + rest =~= spec_u16(e.extension_type.spec_to_u16()) + (body + rest));
    lemma_parse_vec(VecSize::VecU16, e.extension_data, rest);
}

impl Extension {
    pub fn new(extension_type: ExtensionType, extension_data: Vec<u8>) -> (r: Extension)
        ensures
            r@.extension_type == extension_type,
            r@.extension_data == extension_data@,
    {
        Extension { extension_type, extension_data }
    }

    pub fn get_type(&self) -> (r: ExtensionType)
        ensures
            r == self@.extension_type,
    {
        self.extension_type
    }

    /// Appends the extension to `buffer`; fails, and leaves the buffer as it
    /// was, where the body is too long.
    pub fn encode(&self, buffer: &mut Vec<u8>) -> (r: Result<(), CodecError>)
        ensures
            self@.encodable() ==> r.is_ok() && final(buffer)@ == old(buffer)@ + self@.wire(),
            !self@.encodable() ==> r == Err::<(), CodecError>(CodecError::EncodingError) && final(buffer)@ == old(buffer)@,
    {
        if self.extension_data.len() > 0xffff {
            return Err(CodecError::EncodingError);
        }
        self.extension_type.encode(buffer);
        let done = encode_vec(VecSize::VecU16, buffer, self.extension_data.as_slice());
        assert(buffer@ =~= old(buffer)@ + self@.wire());
        Ok(())
    }

    pub fn encode_detached(&self) -> (r: Result<Vec<u8>, CodecError>)
        ensures
            self@.encodable() ==> r.is_ok() && r.unwrap()@ == self@.wire(),
            !self@.encodable() ==> r == Err::<Vec<u8>, CodecError>(CodecError::EncodingError),
    {
        let mut buffer: Vec<u8> = Vec::new();
        match self.encode(&mut buffer) {
            Ok(()) => {
                assert(buffer@ =~= self@.wire());
                Ok(buffer)
            },
            Err(e) => Err(e),
        }
    }

    /// Reads an extension; fails, without moving, where the bytes end early.
    pub fn decode(cursor: &mut Cursor) -> (r: Result<Extension, CodecError>)
        ensures
            match ExtensionView::parse(old(cursor).remaining()) {
                Some((e, rest)) => r.is_ok() && r.unwrap()@ == e && final(cursor).remaining()
                    == rest,
                None => r.is_err() && r.unwrap_err() == CodecError::DecodingError,
            },
    {
        let kind = match cursor.decode_u16() {
            Ok(v) => v,
            Err(e) => {
                return Err(e);
            },
        };
        let data = match cursor.decode_vec(VecSize::VecU16) {
            Ok(v) => v,
            Err(e) => {
                return Err(e);
            },
        };
        Ok(Extension { extension_type: ExtensionType::from_u16(kind), extension_data: data })
    }
}

impl Clone for Extension {
    fn clone(&self) -> (r: Self)
        ensures
            r@ == self@,
    {
        Extension {
            extension_type: self.extension_type,
            extension_data: copy_bytes(self.extension_data.as_slice()),
        }
    }
}

impl PartialEq for Extension {
    fn eq(&self, other: &Self) -> (r: bool) {
        self.extension_type == other.extension_type && bytes_eq(
            self.extension_data.as_slice(),
            other.extension_data.as_slice(),
        )
    }
}

impl PartialEqSpecImpl for Extension {
    open spec fn obeys_eq_spec() -> bool {
        true
    }

    open spec fn eq_spec(&self, other: &Self) -> bool {
        self@ == other@
    }
}


/// The bytes of a list of 16-bit numbers, each high byte first.
#[verifier::opaque]
pub open spec fn spec_codes_payload(codes: Seq<u16>) -> Seq<u8> {
    Seq::new(
        2 * codes.len(),
        |i: int|
            if i % 2 == 0 {
                (codes[i / 2] / 0x100) as u8
            } else {
                (codes[i / 2] % 0x100) as u8
            },
    )
}

/// The list of 16-bit numbers that a byte string holds; none where its
/// length is odd.
#[verifier::opaque]
pub open spec fn spec_parse_codes(bytes: Seq<u8>) -> Option<Seq<u16>> {
    if bytes.len() % 2 != 0 {
        None
    } else {
        Some(
            Seq::new(
                (bytes.len() / 2) as nat,
                |i: int| (bytes[2 * i] * 0x100 + bytes[2 * i + 1]) as u16,
            ),
        )
    }
}

/// A list of numbers takes two bytes for each.
pub proof fn lemma_codes_len(codes: Seq<u16>)
    ensures
        spec_codes_payload(codes).len() == 2 * codes.len(),
{
    reveal(spec_codes_payload);
}

/// Reading a list of numbers that was written gives it back.
pub proof fn lemma_codes_round_trip(codes: Seq<u16>)
    ensures
        spec_parse_codes(spec_codes_payload(codes)) == Some(codes),
{
    reveal(spec_codes_payload);
    reveal(spec_parse_codes);
    let bytes = spec_codes_payload(codes);
    let back = spec_parse_codes(bytes).unwrap();
    assert(back.len() == codes.len());
    assert forall|i: int| 0 <= i < codes.len() implies back[i] == codes[i] by {
        assert(bytes[2 * i] == (codes[i] / 0x100) as u8);
        assert(bytes[2 * i + 1] == (codes[i] % 0x100) as u8);
    }
    assert(back =~= codes);
}

fn codes_payload(codes: &Vec<u16>) -> (r: Vec<u8>)
    requires
        codes@.len() <= 0x7fff_ffff,
    ensures
        r@ == spec_codes_payload(codes@),
{
    proof {
        reveal(spec_codes_payload);
    }
    let mut r: Vec<u8> = Vec::new();
    let mut i: usize = 0;
    while i < codes.len()
        invariant
            i <= codes@.len(),
            codes@.len() <= 0x7fff_ffff,
            r@ == spec_codes_payload(codes@.take(i as int)),
        decreases codes@.len() - i,
    {
        r.push((codes[i] / 0x100) as u8);
        r.push((codes[i] % 0x100) as u8);
        i += 1;
        proof {
            reveal(spec_codes_payload);
        }
        assert(r@ =~= spec_codes_payload(codes@.take(i as int)));
    }
    assert(codes@.take(i as int) =~= codes@);
    r
}

fn parse_codes(bytes: &[u8]) -> (r: Option<Vec<u16>>)
    ensures
        match spec_parse_codes(bytes@) {
            Some(codes) => r.is_some() && r.unwrap()@ == codes,
            None => r.is_none(),
        },
{
    proof {
        reveal(spec_parse_codes);
    }
    if bytes.len() % 2 != 0 {
        return None;
    }
    let total: usize = bytes.len();
    let count: usize = total / 2;
    let ghost all = spec_parse_codes(bytes@).unwrap();
    let mut r: Vec<u16> = Vec::new();
    let mut i: usize = 0;
    while i < count
        invariant
            i <= count,
            2 * count == total,
            total == bytes@.len(),
            all == spec_parse_codes(bytes@).unwrap(),
            r@ == all.take(i as int),
        decreases count - i,
    {
        r.push((bytes[2 * i] as u16) * 0x100 + (bytes[2 * i + 1] as u16));
        i += 1;
        proof {
            reveal(spec_parse_codes);
        }
        assert(r@ =~= all.take(i as int));
    }
    assert(all.take(i as int) =~= all);
    Some(r)
}

/// What a client can do: the versions, ciphersuites and kinds of extension
/// that it understands.
#[derive(Debug)]
pub struct CapabilitiesExtension {
    pub versions: Vec<ProtocolVersion>,
    pub ciphersuites: Vec<CiphersuiteName>,
    pub extensions: Vec<ExtensionType>,
}

pub struct CapabilitiesView {
    pub versions: Seq<ProtocolVersion>,
    pub ciphersuites: Seq<CiphersuiteName>,
    pub extensions: Seq<ExtensionType>,
}

impl View for CapabilitiesExtension {
    type V = CapabilitiesView;

    open spec fn view(&self) -> CapabilitiesView {
        CapabilitiesView {
            versions: self.versions@,
            ciphersuites: self.ciphersuites@,
            extensions: self.extensions@,
        }
    }
}

impl CapabilitiesView {
    pub open spec fn version_bytes(self) -> Seq<u8> {
        self.versions.map_values(|v: ProtocolVersion| v.spec_to_u8())
    }

    pub open spec fn ciphersuite_codes(self) -> Seq<u16> {
        self.ciphersuites.map_values(|c: CiphersuiteName| c.spec_to_u16())
    }

    pub open spec fn extension_codes(self) -> Seq<u16> {
        self.extensions.map_values(|e: ExtensionType| e.spec_to_u16())
    }

    /// Whether each of the three lists fits behind a one-byte length.
    pub open spec fn encodable(self) -> bool {
        self.versions.len() <= 0xff && 2 * self.ciphersuites.len() <= 0xff && 2
            * self.extensions.len() <= 0xff
    }

    /// The body of the extension: the three lists, each behind a one-byte
    /// length.
    pub open spec fn wire(self) -> Seq<u8> {
        spec_vec(VecSize::VecU8, self.version_bytes()) + spec_vec(
            VecSize::VecU8,
            spec_codes_payload(self.ciphersuite_codes()),
        ) + spec_vec(VecSize::VecU8, spec_codes_payload(self.extension_codes()))
    }

    /// The capabilities that a body holds.
    pub open spec fn parse(s: Seq<u8>) -> Option<CapabilitiesView> {
        match spec_parse_vec(VecSize::VecU8, s) {
            Some((vb, r1)) => match spec_parse_vec(VecSize::VecU8, r1) {
                Some((cb, r2)) => match spec_parse_vec(VecSize::VecU8, r2) {
                    Some((eb, r3)) => match (spec_parse_codes(cb), spec_parse_codes(eb)) {
                        (Some(cc), Some(ec)) => Some(
                            CapabilitiesView {
                                versions: vb.map_values(|b: u8| ProtocolVersion::spec_from_u8(b)),
                                ciphersuites: cc.map_values(
                                    |c: u16| CiphersuiteName::spec_from_u16(c),
                                ),
                                extensions: ec.map_values(|c: u16| ExtensionType::spec_from_u16(c)),
                            },
                        ),
                        _ => None,
                    },
                    None => None,
                },
                None => None,
            },
            None => None,
        }
    }
}

/// Reading capabilities that were written gives them back, whatever follows
/// them.
pub proof fn lemma_capabilities_round_trip(c: CapabilitiesView, rest: Seq<u8>)
    requires
        c.encodable(),
    ensures
        CapabilitiesView::parse(c.wire() + rest) == Some(c),
{
    let vb = c.version_bytes();
    let cb = spec_codes_payload(c.ciphersuite_codes());
    let eb = spec_codes_payload(c.extension_codes());
    let r2 = spec_vec(VecSize::VecU8, eb) + rest;
    let r1 = spec_vec(VecSize::VecU8, cb) + r2;
    assert(c.wire() + rest =~= spec_vec(VecSize::VecU8, vb) + r1);
    lemma_codes_len(c.ciphersuite_codes());
    lemma_codes_len(c.extension_codes());
    lemma_parse_vec(VecSize::VecU8, vb, r1);
    lemma_parse_vec(VecSize::VecU8, cb, r2);
    lemma_parse_vec(VecSize::VecU8, eb, rest);
    lemma_codes_round_trip(c.ciphersuite_codes());
    lemma_codes_round_trip(c.extension_codes());
    let back = CapabilitiesView::parse(c.wire() + rest).unwrap();
    assert(back.versions =~= c.versions);
    assert(back.ciphersuites =~= c.ciphersuites);
    assert(back.extensions =~= c.extensions);
}

impl CapabilitiesExtension {
    pub fn new(
        versions: Vec<ProtocolVersion>,
        ciphersuites: Vec<CiphersuiteName>,
        extensions: Vec<ExtensionType>,
    ) -> (r: CapabilitiesExtension)
        ensures
            r@.versions == versions@,
            r@.ciphersuites == ciphersuites@,
            r@.extensions == extensions@,
    {
        CapabilitiesExtension { versions, ciphersuites, extensions }
    }

    /// Reads the body of a capabilities extension. Bytes behind the three
    /// lists are not looked at.
    pub fn new_from_bytes(bytes: &[u8]) -> (r: Result<CapabilitiesExtension, CodecError>)
        ensures
            match CapabilitiesView::parse(bytes@) {
                Some(c) => r.is_ok() && r.unwrap()@ == c,
                None => r.is_err() && r.unwrap_err() == CodecError::DecodingError,
            },
    {
        let mut cursor = Cursor::new(bytes);
        let vb = match cursor.decode_vec(VecSize::VecU8) {
            Ok(v) => v,
            Err(e) => {
                return Err(e);
            },
        };
        let cb = match cursor.decode_vec(VecSize::VecU8) {
            Ok(v) => v,
            Err(e) => {
                return Err(e);
            },
        };
        let eb = match cursor.decode_vec(VecSize::VecU8) {
            Ok(v) => v,
            Err(e) => {
                return Err(e);
            },
        };
        let cc = match parse_codes(cb.as_slice()) {
            Some(v) => v,
            None => {
                return Err(CodecError::DecodingError);
            },
        };
        let ec = match parse_codes(eb.as_slice()) {
            Some(v) => v,
            None => {
                return Err(CodecError::DecodingError);
            },
        };
        let mut versions: Vec<ProtocolVersion> = Vec::new();
        let mut i: usize = 0;
        while i < vb.len()
            invariant
                i <= vb@.len(),
                versions@ == vb@.take(i as int).map_values(
                    |b: u8| ProtocolVersion::spec_from_u8(b),
                ),
            decreases vb@.len() - i,
        {
            versions.push(ProtocolVersion::from_u8(vb[i]));
            i += 1;
            assert(versions@ =~= vb@.take(i as int).map_values(
                |b: u8| ProtocolVersion::spec_from_u8(b),
            ));
        }
        assert(vb@.take(i as int) =~= vb@);
        let mut ciphersuites: Vec<CiphersuiteName> = Vec::new();
        let mut j: usize = 0;
        while j < cc.len()
            invariant
                j <= cc@.len(),
                ciphersuites@ == cc@.take(j as int).map_values(
                    |c: u16| CiphersuiteName::spec_from_u16(c),
                ),
            decreases cc@.len() - j,
        {
            ciphersuites.push(CiphersuiteName::from_u16(cc[j]));
            j += 1;
            assert(ciphersuites@ =~= cc@.take(j as int).map_values(
                |c: u16| CiphersuiteName::spec_from_u16(c),
            ));
        }
        assert(cc@.take(j as int) =~= cc@);
        let mut extensions: Vec<ExtensionType> = Vec::new();
        let mut k: usize = 0;
        while k < ec.len()
            invariant
                k <= ec@.len(),
                extensions@ == ec@.take(k as int).map_values(
                    |c: u16| ExtensionType::spec_from_u16(c),
                ),
            decreases ec@.len() - k,
        {
            extensions.push(ExtensionType::from_u16(ec[k]));
            k += 1;
            assert(extensions@ =~= ec@.take(k as int).map_values(
                |c: u16| ExtensionType::spec_from_u16(c),
            ));
        }
        assert(ec@.take(k as int) =~= ec@);
        Ok(CapabilitiesExtension { versions, ciphersuites, extensions })
    }

    /// The extension that carries these capabilities; fails where a list is
    /// too long for its one-byte length.
    pub fn to_extension(&self) -> (r: Result<Extension, CodecError>)
        ensures
            self@.encodable() ==> r.is_ok() && r.unwrap()@ == (ExtensionView {
                extension_type: ExtensionType::Capabilities,
                extension_data: self@.wire(),
            }),
            !self@.encodable() ==> r.is_err() && r.unwrap_err() == CodecError::EncodingError,
    {
        if self.versions.len() > 0xff || self.ciphersuites.len() > 0x7f || self.extensions.len()
            > 0x7f {
            return Err(CodecError::EncodingError);
        }
        let mut vb: Vec<u8> = Vec::new();
        let mut i: usize = 0;
        while i < self.versions.len()
            invariant
                i <= self.versions@.len(),
                vb@ == self.versions@.take(i as int).map_values(
                    |v: ProtocolVersion| v.spec_to_u8(),
                ),
            decreases self.versions@.len() - i,
        {
            vb.push(self.versions[i].to_u8());
            i += 1;
            assert(vb@ =~= self.versions@.take(i as int).map_values(
                |v: ProtocolVersion| v.spec_to_u8(),
            ));
        }
        assert(self.versions@.take(i as int) =~= self.versions@);
        let mut cc: Vec<u16> = Vec::new();
        let mut j: usize = 0;
        while j < self.ciphersuites.len()
            invariant
                j <= self.ciphersuites@.len(),
                cc@ == self.ciphersuites@.take(j as int).map_values(
                    |c: CiphersuiteName| c.spec_to_u16(),
                ),
            decreases self.ciphersuites@.len() - j,
        {
            cc.push(self.ciphersuites[j].to_u16());
            j += 1;
            assert(cc@ =~= self.ciphersuites@.take(j as int).map_values(
                |c: CiphersuiteName| c.spec_to_u16(),
            ));
        }
        assert(self.ciphersuites@.take(j as int) =~= self.ciphersuites@);
        let mut ec: Vec<u16> = Vec::new();
        let mut k: usize = 0;
        while k < self.extensions.len()
            invariant
                k <= self.extensions@.len(),
                ec@ == self.extensions@.take(k as int).map_values(
                    |e: ExtensionType| e.spec_to_u16(),
                ),
            decreases self.extensions@.len() - k,
        {
            ec.push(self.extensions[k].to_u16());
            k += 1;
            assert(ec@ =~= self.extensions@.take(k as int).map_values(
                |e: ExtensionType| e.spec_to_u16(),
            ));
        }
        assert(self.extensions@.take(k as int) =~= self.extensions@);
        let cb = codes_payload(&cc);
        let eb = codes_payload(&ec);
        proof {
            lemma_codes_len(cc@);
            lemma_codes_len(ec@);
        }
        let mut extension_data: Vec<u8> = Vec::new();
        let r1 = encode_vec(VecSize::VecU8, &mut extension_data, vb.as_slice());
        let r2 = encode_vec(VecSize::VecU8, &mut extension_data, cb.as_slice());
        let r3 = encode_vec(VecSize::VecU8, &mut extension_data, eb.as_slice());
        assert(extension_data@ =~= self@.wire());
        Ok(Extension { extension_type: ExtensionType::Capabilities, extension_data })
    }
}

impl Clone for CapabilitiesExtension {
    fn clone(&self) -> (r: Self)
        ensures
            r@ == self@,
    {
        let r = CapabilitiesExtension {
            versions: self.versions.clone(),
            ciphersuites: self.ciphersuites.clone(),
            extensions: self.extensions.clone(),
        };
        assert(r.versions@ =~= self.versions@);
        assert(r.ciphersuites@ =~= self.ciphersuites@);
        assert(r.extensions@ =~= self.extensions@);
        r
    }
}

pub const LIFETIME_1_MINUTE: u64 = 60;

pub const LIFETIME_1_HOUR: u64 = 3600;

pub const LIFETIME_1_DAY: u64 = 86400;

pub const LIFETIME_1_WEEK: u64 = 604800;

pub const LIFETIME_4_WEEKS: u64 = 2419200;

/// Slack on either side of a lifetime, for clocks that disagree.
pub const LIFETIME_MARGIN: u64 = 3600;

/// The time, in seconds since the epoch, during which a key package is
/// good.
#[derive(Clone, Copy, Debug, PartialEq, Eq, Structural)]
pub struct LifetimeExtension {
    pub not_before: u64,
    pub not_after: u64,
}

impl LifetimeExtension {
    /// The body of the extension: both bounds, eight bytes each.
    pub open spec fn wire(self) -> Seq<u8> {
        spec_u64(self.not_before) + spec_u64(self.not_after)
    }

    /// The lifetime that a body holds.
    pub open spec fn parse(s: Seq<u8>) -> Option<LifetimeExtension> {
        match spec_parse_u64(s) {
            Some((not_before, rest)) => match spec_parse_u64(rest) {
                Some((not_after, rest2)) => Some(LifetimeExtension { not_before, not_after }),
                None => None,
            },
            None => None,
        }
    }

    /// Whether `now` lies inside the lifetime, bounds included.
    pub open spec fn spec_is_valid(self, now: u64) -> bool {
        self.not_before <= now <= self.not_after
    }

    /// A lifetime of `t` seconds from `now`, with an hour of slack on either
    /// side. None where a bound would not fit in 64 bits.
    pub fn new(t: u64, now: u64) -> (r: Option<LifetimeExtension>)
        ensures
            now >= LIFETIME_MARGIN && now + t + LIFETIME_MARGIN <= u64::MAX ==> r == Some(
                LifetimeExtension {
                    not_before: (now - LIFETIME_MARGIN) as u64,
                    not_after: (now + t + LIFETIME_MARGIN) as u64,
                },
            ),
            !(now >= LIFETIME_MARGIN && now + t + LIFETIME_MARGIN <= u64::MAX) ==> r.is_none(),
    {
        if now < LIFETIME_MARGIN {
            return None;
        }
        if t > u64::MAX - LIFETIME_MARGIN {
            return None;
        }
        if now > u64::MAX - LIFETIME_MARGIN - t {
            return None;
        }
        Some(
            LifetimeExtension {
                not_before: now - LIFETIME_MARGIN,
                not_after: now + t + LIFETIME_MARGIN,
            },
        )
    }

    /// Reads the body of a lifetime extension. Bytes behind the two bounds
    /// are not looked at.
    pub fn new_from_bytes(bytes: &[u8]) -> (r: Result<LifetimeExtension, CodecError>)
        ensures
            match LifetimeExtension::parse(bytes@) {
                Some(l) => r == Ok::<LifetimeExtension, CodecError>(l),
                None => r == Err::<LifetimeExtension, CodecError>(CodecError::DecodingError),
            },
    {
        let mut cursor = Cursor::new(bytes);
        let not_before = match cursor.decode_u64() {
            Ok(v) => v,
            Err(e) => {
                return Err(e);
            },
        };
        let not_after = match cursor.decode_u64() {
            Ok(v) => v,
            Err(e) => {
                return Err(e);
            },
        };
        Ok(LifetimeExtension { not_before, not_after })
    }

    /// The extension that carries this lifetime.
    pub fn to_extension(&self) -> (r: Extension)
        ensures
            r@ == (ExtensionView {
                extension_type: ExtensionType::Lifetime,
                extension_data: self.wire(),
            }),
    {
        let mut extension_data: Vec<u8> = Vec::new();
        encode_u64(&mut extension_data, self.not_before);
        encode_u64(&mut extension_data, self.not_after);
        assert(extension_data@ =~= self.wire());
        Extension { extension_type: ExtensionType::Lifetime, extension_data }
    }

    /// Whether `now` lies inside the lifetime, bounds included.
    pub fn is_valid_now(&self, now: u64) -> (r: bool)
        ensures
            r == self.spec_is_valid(now),
    {
        self.not_before <= now && now <= self.not_after
    }

    /// Whether `now` lies outside the lifetime.
    pub fn is_expired(&self, now: u64) -> (r: bool)
        ensures
            r == !self.spec_is_valid(now),
    {
        !self.is_valid_now(now)
    }
}

/// Reading a lifetime that was written gives it back, whatever follows it.
pub proof fn lemma_lifetime_round_trip(l: LifetimeExtension, rest: Seq<u8>)
    ensures
        LifetimeExtension::parse(l.wire() + rest) == Some(l),
{
    lemma_parse_u64(l.not_before, spec_u64(l.not_after) + rest);
    assert(l.wire() + rest =~= spec_u64(l.not_before) + (spec_u64(l.not_after) + rest));
    lemma_parse_u64(l.not_after, rest);
}

/// A lifetime made at `now` for `t` seconds is good at `now` and through the
/// `t` seconds that follow.
pub proof fn lemma_lifetime_covers(t: u64, now: u64, later: u64)
    requires
        now >= LIFETIME_MARGIN,
        now + t + LIFETIME_MARGIN <= u64::MAX,
        now <= later <= now + t,
    ensures
        (LifetimeExtension {
            not_before: (now - LIFETIME_MARGIN) as u64,
            not_after: (now + t + LIFETIME_MARGIN) as u64,
        }).spec_is_valid(later),
{
}

/// An application's name for a key.
#[derive(Debug)]
pub struct KeyIDExtension {
    pub key_id: Vec<u8>,
}

impl View for KeyIDExtension {
    type V = Seq<u8>;

    open spec fn view(&self) -> Seq<u8> {
        self.key_id@
    }
}

impl KeyIDExtension {
    pub fn new(key_id: &[u8]) -> (r: KeyIDExtension)
        ensures
            r@ == key_id@,
    {
        KeyIDExtension { key_id: copy_bytes(key_id) }
    }

    /// Reads the body of a key-id extension: the id behind a two-byte
    /// length. Bytes behind it are not looked at.
    pub fn new_from_bytes(bytes: &[u8]) -> (r: Result<KeyIDExtension, CodecError>)
        ensures
            match spec_parse_vec(VecSize::VecU16, bytes@) {
                Some((id, rest)) => r.is_ok() && r.unwrap()@ == id,
                None => r.is_err() && r.unwrap_err() == CodecError::DecodingError,
            },
    {
        let mut cursor = Cursor::new(bytes);
        match cursor.decode_vec(VecSize::VecU16) {
            Ok(key_id) => Ok(KeyIDExtension { key_id }),
            Err(e) => Err(e),
        }
    }

    /// The extension that carries this id; fails where the id is longer
    /// than a two-byte length can say.
    pub fn to_extension(&self) -> (r: Result<Extension, CodecError>)
        ensures
            self@.len() <= 0xffff ==> r.is_ok() && r.unwrap()@ == (ExtensionView {
                extension_type: ExtensionType::KeyID,
                extension_data: spec_vec(VecSize::VecU16, self@),
            }),
            self@.len() > 0xffff ==> r.is_err() && r.unwrap_err() == CodecError::EncodingError,
    {
        let mut extension_data: Vec<u8> = Vec::new();
        match encode_vec(VecSize::VecU16, &mut extension_data, self.key_id.as_slice()) {
            Ok(()) => {
                assert(extension_data@ =~= spec_vec(VecSize::VecU16, self@));
                Ok(Extension { extension_type: ExtensionType::KeyID, extension_data })
            },
            Err(e) => Err(e),
        }
    }
}

impl Clone for KeyIDExtension {
    fn clone(&self) -> (r: Self)
        ensures
            r@ == self@,
    {
        KeyIDExtension { key_id: copy_bytes(self.key_id.as_slice()) }
    }
}

/// The hash of a leaf's parent, carried in the leaf's key package.
#[derive(Debug)]
pub struct ParentHashExtension {
    pub parent_hash: Vec<u8>,
}

impl View for ParentHashExtension {
    type V = Seq<u8>;

    open spec fn view(&self) -> Seq<u8> {
        self.parent_hash@
    }
}

impl ParentHashExtension {
    pub fn new(hash: &[u8]) -> (r: ParentHashExtension)
        ensures
            r@ == hash@,
    {
        ParentHashExtension { parent_hash: copy_bytes(hash) }
    }

    /// Reads the body of a parent-hash extension: the hash behind a one-byte
    /// length. Bytes behind it are not looked at.
    pub fn new_from_bytes(bytes: &[u8]) -> (r: Result<ParentHashExtension, CodecError>)
        ensures
            match spec_parse_vec(VecSize::VecU8, bytes@) {
                Some((hash, rest)) => r.is_ok() && r.unwrap()@ == hash,
                None => r.is_err() && r.unwrap_err() == CodecError::DecodingError,
            },
    {
        let mut cursor = Cursor::new(bytes);
        match cursor.decode_vec(VecSize::VecU8) {
            Ok(parent_hash) => Ok(ParentHashExtension { parent_hash }),
            Err(e) => Err(e),
        }
    }

    /// The extension that carries this hash; fails where the hash is longer
    /// than a one-byte length can say.
    pub fn to_extension(&self) -> (r: Result<Extension, CodecError>)
        ensures
            self@.len() <= 0xff ==> r.is_ok() && r.unwrap()@ == (ExtensionView {
                extension_type: ExtensionType::ParentHash,
                extension_data: spec_vec(VecSize::VecU8, self@),
            }),
            self@.len() > 0xff ==> r.is_err() && r.unwrap_err() == CodecError::EncodingError,
    {
        let mut extension_data: Vec<u8> = Vec::new();
        match encode_vec(VecSize::VecU8, &mut extension_data, self.parent_hash.as_slice()) {
            Ok(()) => {
                assert(extension_data@ =~= spec_vec(VecSize::VecU8, self@));
                Ok(Extension { extension_type: ExtensionType::ParentHash, extension_data })
            },
            Err(e) => Err(e),
        }
    }
}

impl Clone for ParentHashExtension {
    fn clone(&self) -> (r: Self)
        ensures
            r@ == self@,
    {
        ParentHashExtension { parent_hash: copy_bytes(self.parent_hash.as_slice()) }
    }
}

/// One thing that a device may be allowed to do.
#[derive(Clone, Copy, Debug, PartialEq, Eq, Structural)]
pub enum DeviceCapabilityType {
    AddCap,
    RemoveCap,
    NonRemovableCap,
    SelfUpdateCap,
}

impl DeviceCapabilityType {
    /// The bit that stands for the capability.
    pub open spec fn spec_bit(self) -> u32 {
        match self {
            DeviceCapabilityType::AddCap => 1,
            DeviceCapabilityType::RemoveCap => 2,
            DeviceCapabilityType::NonRemovableCap => 4,
            DeviceCapabilityType::SelfUpdateCap => 8,
        }
    }

    pub fn bit(&self) -> (r: u32)
        ensures
            r == self.spec_bit(),
    {
        match self {
            DeviceCapabilityType::AddCap => 1,
            DeviceCapabilityType::RemoveCap => 2,
            DeviceCapabilityType::NonRemovableCap => 4,
            DeviceCapabilityType::SelfUpdateCap => 8,
        }
    }
}

/// Kind of a device, by what it may do.
#[derive(Clone, Copy, Debug, PartialEq, Eq, Structural)]
pub enum DeviceType {
    /// May do nothing.
    TemporaryDevice,
    /// May add, remove and update itself.
    PermanentDevice,
}

/// The set of things that a device may do, one bit each.
#[derive(Clone, Copy, Debug, PartialEq, Eq, Structural)]
pub struct DeviceCapabilities(pub u32);

impl DeviceCapabilities {
    /// The capabilities of a kind of device.
    pub open spec fn spec_from_device(n: DeviceType) -> DeviceCapabilities {
        match n {
            DeviceType::TemporaryDevice => DeviceCapabilities(0),
            DeviceType::PermanentDevice => DeviceCapabilities(11),
        }
    }

    /// Whether the set holds a capability.
    pub open spec fn spec_has(self, capability: DeviceCapabilityType) -> bool {
        self.0 & capability.spec_bit() != 0
    }

    pub fn from_device(n: DeviceType) -> (r: DeviceCapabilities)
        ensures
            r == DeviceCapabilities::spec_from_device(n),
    {
        match n {
            DeviceType::TemporaryDevice => DeviceCapabilities(0),
            DeviceType::PermanentDevice => DeviceCapabilities(11),
        }
    }

    /// Whether the device may add, remove and update itself.
    pub fn is_permanent(&self) -> (r: bool)
        ensures
            r == (self.spec_has(DeviceCapabilityType::AddCap) && self.spec_has(
                DeviceCapabilityType::RemoveCap,
            ) && self.spec_has(DeviceCapabilityType::SelfUpdateCap)),
    {
        let v: u32 = self.0;
        assert((v & 11 == 11) == (v & 1 != 0 && v & 2 != 0 && v & 8 != 0)) by (bit_vector);
        self.0 & 11 == 11
    }

    /// Whether the device may do nothing at all.
    pub fn is_temporary(&self) -> (r: bool)
        ensures
            r == (self.0 == 0),
    {
        self.0 == 0
    }

    pub fn can_add(&self) -> (r: bool)
        ensures
            r == self.spec_has(DeviceCapabilityType::AddCap),
    {
        (self.0 & 1) > 0
    }

    pub fn can_remove(&self) -> (r: bool)
        ensures
            r == self.spec_has(DeviceCapabilityType::RemoveCap),
    {
        (self.0 & 2) > 0
    }

    pub fn cannot_be_removed(&self) -> (r: bool)
        ensures
            r == self.spec_has(DeviceCapabilityType::NonRemovableCap),
    {
        (self.0 & 4) > 0
    }

    pub fn can_self_update(&self) -> (r: bool)
        ensures
            r == self.spec_has(DeviceCapabilityType::SelfUpdateCap),
    {
        (self.0 & 8) > 0
    }
}

impl From<DeviceType> for DeviceCapabilities {
    fn from(n: DeviceType) -> (r: DeviceCapabilities) {
        DeviceCapabilities::from_device(n)
    }
}

impl vstd::std_specs::convert::FromSpecImpl<DeviceType> for DeviceCapabilities {
    open spec fn obeys_from_spec() -> bool {
        true
    }

    open spec fn from_spec(n: DeviceType) -> DeviceCapabilities {
        DeviceCapabilities::spec_from_device(n)
    }
}

/// A permanent device may add, remove and update itself, and can be
/// removed; a temporary one may do none of the four.
pub proof fn lemma_device_kinds()
    ensures
        DeviceCapabilities::spec_from_device(DeviceType::PermanentDevice).spec_has(
            DeviceCapabilityType::AddCap,
        ),
        DeviceCapabilities::spec_from_device(DeviceType::PermanentDevice).spec_has(
            DeviceCapabilityType::RemoveCap,
        ),
        DeviceCapabilities::spec_from_device(DeviceType::PermanentDevice).spec_has(
            DeviceCapabilityType::SelfUpdateCap,
        ),
        !DeviceCapabilities::spec_from_device(DeviceType::PermanentDevice).spec_has(
            DeviceCapabilityType::NonRemovableCap,
        ),
        forall|c: DeviceCapabilityType|
            !DeviceCapabilities::spec_from_device(DeviceType::TemporaryDevice).spec_has(c),
{
    assert(11u32 & 1 != 0) by (bit_vector);
    assert(11u32 & 2 != 0) by (bit_vector);
    assert(11u32 & 8 != 0) by (bit_vector);
    assert(11u32 & 4 == 0) by (bit_vector);
    assert forall|c: DeviceCapabilityType|
        !DeviceCapabilities::spec_from_device(DeviceType::TemporaryDevice).spec_has(c) by {
        let b = c.spec_bit();
        assert(0u32 & b == 0) by (bit_vector);
    }
}

/// What a device may do, as an extension of its key package.
#[derive(Clone, Copy, Debug, PartialEq, Eq, Structural)]
pub struct DeviceCapabilityExtension {
    pub capabilities: DeviceCapabilities,
}

impl DeviceCapabilityExtension {
    pub fn new(capabilities: DeviceCapabilities) -> (r: DeviceCapabilityExtension)
        ensures
            r.capabilities == capabilities,
    {
        DeviceCapabilityExtension { capabilities }
    }

    /// Reads the body of a device-capability extension: four bytes. Bytes
    /// behind them are not looked at.
    pub fn new_from_bytes(bytes: &[u8]) -> (r: Result<DeviceCapabilityExtension, CodecError>)
        ensures
            match spec_parse_u32(bytes@) {
                Some((v, rest)) => r == Ok::<DeviceCapabilityExtension, CodecError>(
                    DeviceCapabilityExtension { capabilities: DeviceCapabilities(v) },
                ),
                None => r == Err::<DeviceCapabilityExtension, CodecError>(
                    CodecError::DecodingError,
                ),
            },
    {
        let mut cursor = Cursor::new(bytes);
        match cursor.decode_u32() {
            Ok(v) => Ok(DeviceCapabilityExtension { capabilities: DeviceCapabilities(v) }),
            Err(e) => Err(e),
        }
    }

    /// The extension that carries these capabilities.
    pub fn to_extension(&self) -> (r: Extension)
        ensures
            r@ == (ExtensionView {
                extension_type: ExtensionType::DeviceCapabilities,
                extension_data: spec_u32(self.capabilities.0),
            }),
    {
        let mut extension_data: Vec<u8> = Vec::new();
        encode_u32(&mut extension_data, self.capabilities.0);
        assert(extension_data@ =~= spec_u32(self.capabilities.0));
        Extension { extension_type: ExtensionType::DeviceCapabilities, extension_data }
    }
}


/// Checks a byte string as an identifier with `uuid::Uuid::from_slice`
/// and takes its bytes back out with `Uuid::as_bytes`. Trusted: a string
/// of 16 bytes is an identifier with exactly those bytes; any other
/// length is refused.
#[verifier::external_body]
fn uuid_from_slice(bytes: &[u8]) -> (r: Option<Vec<u8>>)
    ensures
        bytes@.len() == 16 ==> r.is_some() && r.unwrap()@ == bytes@,
        bytes@.len() != 16 ==> r.is_none(),
{
    match uuid::Uuid::from_slice(bytes) {
        Ok(id) => Some(id.as_bytes().to_vec()),
        Err(_) => None,
    }
}

/// Identifier of a key package: 16 bytes.
#[derive(Debug)]
pub struct KeyPackageId {
    uuid: Vec<u8>,
}

impl View for KeyPackageId {
    type V = Seq<u8>;

    closed spec fn view(&self) -> Seq<u8> {
        self.uuid@
    }
}

impl KeyPackageId {
    #[verifier::type_invariant]
    spec fn sixteen(self) -> bool {
        self.uuid@.len() == 16
    }

    /// The identifier with the given bytes; none unless there are 16 of
    /// them. A new identifier is made from 16 random bytes.
    pub fn from_slice(bytes: &[u8]) -> (r: Option<KeyPackageId>)
        ensures
            bytes@.len() == 16 ==> r.is_some() && r.unwrap()@ == bytes@,
            bytes@.len() != 16 ==> r.is_none(),
    {
        match uuid_from_slice(bytes) {
            Some(uuid) => Some(KeyPackageId { uuid }),
            None => None,
        }
    }

    pub fn to_vec(&self) -> (r: Vec<u8>)
        ensures
            r@ == self@,
            r@.len() == 16,
    {
        proof {
            use_type_invariant(self);
        }
        copy_bytes(self.uuid.as_slice())
    }

    /// Appends the identifier behind a one-byte length.
    pub fn encode(&self, buffer: &mut Vec<u8>)
        ensures
            final(buffer)@ == old(buffer)@ + spec_vec(VecSize::VecU8, self@),
    {
        proof {
            use_type_invariant(self);
        }
        let done = encode_vec(VecSize::VecU8, buffer, self.uuid.as_slice());
    }

    /// Reads an identifier; fails where the bytes end early or the
    /// identifier does not have 16 bytes.
    pub fn decode(cursor: &mut Cursor) -> (r: Result<KeyPackageId, CodecError>)
        ensures
            match spec_parse_vec(VecSize::VecU8, old(cursor).remaining()) {
                Some((bytes, rest)) => if bytes.len() == 16 {
                    r.is_ok() && r.unwrap()@ == bytes && final(cursor).remaining() == rest
                } else {
                    r.is_err() && r.unwrap_err() == CodecError::DecodingError
                },
                None => r.is_err() && r.unwrap_err() == CodecError::DecodingError,
            },
    {
        let bytes = match cursor.decode_vec(VecSize::VecU8) {
            Ok(v) => v,
            Err(e) => {
                return Err(e);
            },
        };
        match KeyPackageId::from_slice(bytes.as_slice()) {
            Some(id) => Ok(id),
            None => Err(CodecError::DecodingError),
        }
    }
}

impl Default for KeyPackageId {
    /// The identifier of 16 zero bytes.
    fn default() -> (r: KeyPackageId)
        ensures
            r@ == Seq::new(16, |i: int| 0u8),
    {
        KeyPackageId { uuid: crate::utils::zero(16) }
    }
}

impl Clone for KeyPackageId {
    fn clone(&self) -> (r: Self)
        ensures
            r@ == self@,
    {
        proof {
            use_type_invariant(self);
        }
        KeyPackageId { uuid: copy_bytes(self.uuid.as_slice()) }
    }
}

impl PartialEq for KeyPackageId {
    fn eq(&self, other: &Self) -> (r: bool) {
        bytes_eq(self.uuid.as_slice(), other.uuid.as_slice())
    }
}

impl PartialEqSpecImpl for KeyPackageId {
    open spec fn obeys_eq_spec() -> bool {
        true
    }

    open spec fn eq_spec(&self, other: &Self) -> bool {
        self@ == other@
    }
}


/// The views of a list of optional nodes.
pub open spec fn spec_tree_views(s: Seq<Option<Node>>) -> Seq<Option<NodeView>> {
    s.map_values(
        |n: Option<Node>|
            match n {
                Some(node) => Some(node@),
                None => None,
            },
    )
}

/// An optional node as it stands on the wire: a tag byte, then the node
/// where there is one.
pub open spec fn spec_optional_node(node: Option<NodeView>) -> Seq<u8> {
    match node {
        Some(n) => seq![1u8] + n.wire(),
        None => seq![0u8],
    }
}

/// The optional node that a byte string starts with, and what follows
/// it.
pub open spec fn spec_parse_optional_node(s: Seq<u8>) -> Option<(Option<NodeView>, Seq<u8>)> {
    match spec_parse_u8(s) {
        Some((tag, rest)) => if tag == 0 {
            Some((None, rest))
        } else if tag == 1 {
            match NodeView::parse(rest) {
                Some((node, rest2)) => Some((Some(node), rest2)),
                None => None,
            }
        } else {
            None
        },
        None => None,
    }
}

/// The nodes of a tree, one behind the other, as they stand on the wire.
pub open spec fn spec_tree_payload(nodes: Seq<Option<NodeView>>) -> Seq<u8>
    decreases nodes.len(),
{
    if nodes.len() == 0 {
        Seq::empty()
    } else {
        spec_tree_payload(nodes.drop_last()) + spec_optional_node(nodes.last())
    }
}

/// The nodes that a byte string holds, one behind the other. None where
/// the bytes end inside a node.
pub open spec fn spec_parse_tree(s: Seq<u8>) -> Option<Seq<Option<NodeView>>>
    decreases s.len(),
{
    if s.len() == 0 {
        Some(Seq::empty())
    } else {
        match spec_parse_optional_node(s) {
            Some((node, rest)) => if rest.len() >= s.len() {
                None
            } else {
                match spec_parse_tree(rest) {
                    Some(tail) => Some(seq![node] + tail),
                    None => None,
                }
            },
            None => None,
        }
    }
}

/// Whether every node of a tree can be written, and the tree fits behind
/// a four-byte length.
pub open spec fn spec_tree_encodable(nodes: Seq<Option<NodeView>>) -> bool {
    (forall|i: int|
        0 <= i < nodes.len() && (#[trigger] nodes[i]).is_some() ==> nodes[i].unwrap().encodable())
        && spec_tree_payload(nodes).len() <= 0xffff_ffff
}

/// An optional node that is read takes at least one byte.
pub proof fn lemma_optional_node_parse_len(s: Seq<u8>)
    ensures
        spec_parse_optional_node(s).is_some() ==> spec_parse_optional_node(s).unwrap().1.len()
            < s.len(),
{
    crate::codec::lemma_parse_int_len(s);
    if spec_parse_u8(s).is_some() {
        let rest = spec_parse_u8(s).unwrap().1;
        lemma_node_parse_len(rest);
        if NodeView::parse(rest).is_some() {
            lemma_node_rest_len(rest);
        }
    }
}

/// What is left behind a node that is read is no longer than what the node
/// was read from.
pub proof fn lemma_node_rest_len(s: Seq<u8>)
    ensures
        NodeView::parse(s).is_some() ==> NodeView::parse(s).unwrap().1.len() <= s.len(),
{
    crate::codec::lemma_parse_int_len(s);
    if spec_parse_u8(s).is_some() {
        let r1 = spec_parse_u8(s).unwrap().1;
        crate::codec::lemma_parse_int_len(r1);
        if spec_parse_u8(r1).is_some() {
            let r2 = spec_parse_u8(r1).unwrap().1;
            crate::key_packages::lemma_key_package_rest_len(r2);
            crate::codec::lemma_parse_int_len(r2);
            if crate::key_packages::KeyPackageView::parse(r2).is_some() {
                let r3 = crate::key_packages::KeyPackageView::parse(r2).unwrap().1;
                crate::codec::lemma_parse_int_len(r3);
                if spec_parse_u8(r3).is_some() {
                    crate::tree::node::lemma_parent_node_rest_len(spec_parse_u8(r3).unwrap().1);
                }
            }
            if spec_parse_u8(r2).is_some() {
                crate::tree::node::lemma_parent_node_rest_len(spec_parse_u8(r2).unwrap().1);
            }
        }
    }
}

/// The payload of a tree is its first node, then the payload of the
/// others.
pub proof fn lemma_tree_payload_front(node: Option<NodeView>, nodes: Seq<Option<NodeView>>)
    ensures
        spec_tree_payload(seq![node] + nodes) == spec_optional_node(node) + spec_tree_payload(
            nodes,
        ),
    decreases nodes.len(),
{
    let all = seq![node] + nodes;
    if nodes.len() == 0 {
        assert(all.drop_last() =~= Seq::<Option<NodeView>>::empty());
        assert(all.last() == node);
        assert(spec_tree_payload(all.drop_last()) =~= Seq::<u8>::empty());
        assert(spec_tree_payload(all) =~= spec_optional_node(node));
        assert(spec_optional_node(node) + spec_tree_payload(nodes) =~= spec_optional_node(node));
    } else {
        assert(all.drop_last() =~= seq![node] + nodes.drop_last());
        assert(all.last() == nodes.last());
        lemma_tree_payload_front(node, nodes.drop_last());
        assert(spec_tree_payload(all) =~= spec_optional_node(node) + spec_tree_payload(nodes));
    }
}

/// Reading an optional node that was written gives it back.
pub proof fn lemma_optional_node_round_trip(node: Option<NodeView>, rest: Seq<u8>)
    requires
        node.is_some() ==> node.unwrap().encodable(),
    ensures
        spec_parse_optional_node(spec_optional_node(node) + rest) == Some((node, rest)),
{
    match node {
        Some(n) => {
            assert(spec_optional_node(node) + rest =~= spec_u8(1) + (n.wire() + rest));
            crate::codec::lemma_parse_u8(1, n.wire() + rest);
            lemma_node_round_trip(n, rest);
        },
        None => {
            assert(spec_optional_node(node) + rest =~= spec_u8(0) + rest);
            crate::codec::lemma_parse_u8(0, rest);
        },
    }
}

/// Reading a tree that was written gives it back.
pub proof fn lemma_tree_round_trip(nodes: Seq<Option<NodeView>>)
    requires
        forall|i: int|
            0 <= i < nodes.len() && (#[trigger] nodes[i]).is_some() ==> nodes[i].unwrap().encodable(),
    ensures
        spec_parse_tree(spec_tree_payload(nodes)) == Some(nodes),
    decreases nodes.len(),
{
    if nodes.len() > 0 {
        let first = nodes[0];
        let tail = nodes.drop_first();
        assert(nodes =~= seq![first] + tail);
        lemma_tree_payload_front(first, tail);
        let rest = spec_tree_payload(tail);
        lemma_optional_node_round_trip(first, rest);
        lemma_optional_node_parse_len(spec_optional_node(first) + rest);
        assert forall|i: int| 0 <= i < tail.len() && (#[trigger] tail[i]).is_some() implies tail[i].unwrap().encodable() by {
            assert(tail[i] == nodes[i + 1]);
        }
        lemma_tree_round_trip(tail);
    }
}

/// The tree of a group as it is shown to a member that joins.
#[derive(Debug)]
pub struct RatchetTreeExtension {
    pub tree: Vec<Option<Node>>,
}

impl View for RatchetTreeExtension {
    type V = Seq<Option<NodeView>>;

    open spec fn view(&self) -> Seq<Option<NodeView>> {
        spec_tree_views(self.tree@)
    }
}

impl RatchetTreeExtension {
    pub fn new(tree: Vec<Option<Node>>) -> (r: RatchetTreeExtension)
        ensures
            r@ == spec_tree_views(tree@),
    {
        RatchetTreeExtension { tree }
    }

    /// Reads the body of a tree extension: the nodes behind a four-byte
    /// length. Bytes behind them are not looked at.
    pub fn new_from_bytes(bytes: &[u8]) -> (r: Result<RatchetTreeExtension, CodecError>)
        ensures
            match spec_parse_vec(VecSize::VecU32, bytes@) {
                Some((payload, rest)) => match spec_parse_tree(payload) {
                    Some(nodes) => r.is_ok() && r.unwrap()@ == nodes,
                    None => r.is_err() && r.unwrap_err() == CodecError::DecodingError,
                },
                None => r.is_err() && r.unwrap_err() == CodecError::DecodingError,
            },
    {
        let mut outer = Cursor::new(bytes);
        let payload = match outer.decode_vec(VecSize::VecU32) {
            Ok(v) => v,
            Err(e) => {
                return Err(e);
            },
        };
        let mut cursor = Cursor::new(payload.as_slice());
        let mut tree: Vec<Option<Node>> = Vec::new();
        assert(spec_tree_views(tree@) =~= Seq::<Option<NodeView>>::empty());
        while !cursor.is_empty()
            invariant
                spec_parse_vec(VecSize::VecU32, bytes@).is_some(),
                spec_parse_vec(VecSize::VecU32, bytes@).unwrap().0 == payload@,
                spec_parse_tree(payload@) == match spec_parse_tree(cursor.remaining()) {
                    Some(tail) => Some(spec_tree_views(tree@) + tail),
                    None => None,
                },
            decreases cursor.remaining().len(),
        {
            let ghost before = cursor.remaining();
            let ghost done = tree@;
            proof {
                lemma_optional_node_parse_len(before);
            }
            let tag = match cursor.decode_u8() {
                Ok(v) => v,
                Err(e) => {
                    return Err(e);
                },
            };
            let node = if tag == 0 {
                None
            } else if tag == 1 {
                match Node::decode(&mut cursor) {
                    Ok(n) => Some(n),
                    Err(e) => {
                        return Err(e);
                    },
                }
            } else {
                return Err(CodecError::DecodingError);
            };
            proof {
                let node_view = spec_tree_views(seq![node])[0];
                assert(spec_tree_views(done.push(node)) =~= spec_tree_views(done).push(node_view));
                match spec_parse_tree(cursor.remaining()) {
                    Some(tail) => {
                        assert(spec_tree_views(done) + (seq![node_view] + tail)
                            =~= spec_tree_views(done).push(node_view) + tail);
                    },
                    None => {},
                }
            }
            tree.push(node);
        }
        assert(spec_tree_views(tree@) + Seq::<Option<NodeView>>::empty() =~= spec_tree_views(
            tree@,
        ));
        Ok(RatchetTreeExtension { tree })
    }

    /// The extension that carries this tree; fails where a node cannot be
    /// written or the tree is too long for a four-byte length.
    pub fn to_extension(&self) -> (r: Result<Extension, CodecError>)
        ensures
            spec_tree_encodable(self@) ==> r.is_ok() && r.unwrap()@ == (ExtensionView {
                extension_type: ExtensionType::RatchetTree,
                extension_data: spec_vec(VecSize::VecU32, spec_tree_payload(self@)),
            }),
            !spec_tree_encodable(self@) ==> r.is_err() && r.unwrap_err()
                == CodecError::EncodingError,
    {
        let ghost nodes = self@;
        let mut payload: Vec<u8> = Vec::new();
        let mut i: usize = 0;
        while i < self.tree.len()
            invariant
                i <= self.tree@.len(),
                nodes == spec_tree_views(self.tree@),
                payload@ == spec_tree_payload(nodes.take(i as int)),
                forall|j: int|
                    0 <= j < i && (#[trigger] nodes[j]).is_some() ==> nodes[j].unwrap().encodable(),
            decreases self.tree@.len() - i,
        {
            proof {
                assert(nodes.take(i + 1).drop_last() =~= nodes.take(i as int));
                assert(nodes.take(i + 1).last() == nodes[i as int]);
            }
            match &self.tree[i] {
                Some(node) => {
                    let bytes = match node.encode_detached() {
                        Ok(bytes) => bytes,
                        Err(e) => {
                            assert(!nodes[i as int].unwrap().encodable());
                            return Err(e);
                        },
                    };
                    payload.push(1u8);
                    crate::codec::append_bytes(&mut payload, bytes.as_slice());
                    assert(payload@ =~= spec_tree_payload(nodes.take(i + 1)));
                },
                None => {
                    payload.push(0u8);
                    assert(payload@ =~= spec_tree_payload(nodes.take(i + 1)));
                },
            }
            i += 1;
        }
        assert(nodes.take(i as int) =~= nodes);
        let mut extension_data: Vec<u8> = Vec::new();
        match encode_vec(VecSize::VecU32, &mut extension_data, payload.as_slice()) {
            Ok(()) => {
                assert(extension_data@ =~= spec_vec(VecSize::VecU32, spec_tree_payload(nodes)));
                Ok(Extension { extension_type: ExtensionType::RatchetTree, extension_data })
            },
            Err(e) => Err(e),
        }
    }
}

/// The body of an extension, read according to its kind.
#[derive(Debug)]
pub enum ExtensionPayload {
    Capabilities(CapabilitiesExtension),
    Lifetime(LifetimeExtension),
    KeyID(KeyIDExtension),
    ParentHash(ParentHashExtension),
    RatchetTree(RatchetTreeExtension),
}

impl Extension {
    /// Reads the body of the extension according to its kind. Fails where
    /// the body is malformed, or the kind has no body that is known.
    pub fn to_payload(&self) -> (r: Result<ExtensionPayload, CodecError>)
        ensures
            match self@.extension_type {
                ExtensionType::Capabilities => match CapabilitiesView::parse(
                    self@.extension_data,
                ) {
                    Some(c) => r.is_ok() && (r.unwrap() matches ExtensionPayload::Capabilities(x)
                        && x@ == c),
                    None => r.is_err(),
                },
                ExtensionType::Lifetime => match LifetimeExtension::parse(self@.extension_data) {
                    Some(l) => r.is_ok() && (r.unwrap() matches ExtensionPayload::Lifetime(x) && x
                        == l),
                    None => r.is_err(),
                },
                ExtensionType::KeyID => match spec_parse_vec(
                    VecSize::VecU16,
                    self@.extension_data,
                ) {
                    Some((id, rest)) => r.is_ok() && (r.unwrap() matches ExtensionPayload::KeyID(x)
                        && x@ == id),
                    None => r.is_err(),
                },
                ExtensionType::ParentHash => match spec_parse_vec(
                    VecSize::VecU8,
                    self@.extension_data,
                ) {
                    Some((hash, rest)) => r.is_ok() && (
                    r.unwrap() matches ExtensionPayload::ParentHash(x) && x@ == hash),
                    None => r.is_err(),
                },
                ExtensionType::RatchetTree => match spec_parse_vec(
                    VecSize::VecU32,
                    self@.extension_data,
                ) {
                    Some((payload, rest)) => match spec_parse_tree(payload) {
                        Some(nodes) => r.is_ok() && (
                        r.unwrap() matches ExtensionPayload::RatchetTree(x) && x@ == nodes),
                        None => r.is_err(),
                    },
                    None => r.is_err(),
                },
                _ => r.is_err(),
            },
            r.is_err() ==> r.unwrap_err() == CodecError::DecodingError,
    {
        let data = self.extension_data.as_slice();
        match self.extension_type {
            ExtensionType::Capabilities => match CapabilitiesExtension::new_from_bytes(data) {
                Ok(x) => Ok(ExtensionPayload::Capabilities(x)),
                Err(e) => Err(e),
            },
            ExtensionType::Lifetime => match LifetimeExtension::new_from_bytes(data) {
                Ok(x) => Ok(ExtensionPayload::Lifetime(x)),
                Err(e) => Err(e),
            },
            ExtensionType::KeyID => match KeyIDExtension::new_from_bytes(data) {
                Ok(x) => Ok(ExtensionPayload::KeyID(x)),
                Err(e) => Err(e),
            },
            ExtensionType::ParentHash => match ParentHashExtension::new_from_bytes(data) {
                Ok(x) => Ok(ExtensionPayload::ParentHash(x)),
                Err(e) => Err(e),
            },
            ExtensionType::RatchetTree => match RatchetTreeExtension::new_from_bytes(data) {
                Ok(x) => Ok(ExtensionPayload::RatchetTree(x)),
                Err(e) => Err(e),
            },
            _ => Err(CodecError::DecodingError),
        }
    }
}

} // verus!
