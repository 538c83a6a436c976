use vstd::prelude::*;
use vstd::std_specs::cmp::PartialEqSpecImpl;
use vstd::string::StringSliceAdditionalSpecFns;
use crate::codec::{
    append_bytes, bytes_eq, copy_bytes, encode_u16, encode_vec, lemma_parse_vec, spec_parse_vec,
    spec_u16, spec_vec, CodecError, Cursor, VecSize,
};

verus! {

/// The ciphersuites that the protocol names.
#[allow(non_camel_case_types)]
#[derive(Clone, Copy, Debug, PartialEq, Eq, Structural)]
pub enum CiphersuiteName {
    MLS10_128_DHKEMX25519_AES128GCM_SHA256_Ed25519,
    MLS10_128_DHKEMP256_AES128GCM_SHA256_P256,
    MLS10_128_DHKEMX25519_CHACHA20POLY1305_SHA256_Ed25519,
    MLS10_256_DHKEMX448_AES256GCM_SHA512_Ed448,
    MLS10_256_DHKEMP521_AES256GCM_SHA512_P521,
    MLS10_256_DHKEMX448_CHACHA20POLY1305_SHA512_Ed448,
    /// Any identifier that the protocol does not name.
    Default,
}

impl CiphersuiteName {
    /// The identifier on the wire.
    pub open spec fn spec_to_u16(self) -> u16 {
        match self {
            CiphersuiteName::MLS10_128_DHKEMX25519_AES128GCM_SHA256_Ed25519 => 1,
            CiphersuiteName::MLS10_128_DHKEMP256_AES128GCM_SHA256_P256 => 2,
            CiphersuiteName::MLS10_128_DHKEMX25519_CHACHA20POLY1305_SHA256_Ed25519 => 3,
            CiphersuiteName::MLS10_256_DHKEMX448_AES256GCM_SHA512_Ed448 => 4,
            CiphersuiteName::MLS10_256_DHKEMP521_AES256GCM_SHA512_P521 => 5,
            CiphersuiteName::MLS10_256_DHKEMX448_CHACHA20POLY1305_SHA512_Ed448 => 6,
            CiphersuiteName::Default => 0xffff,
        }
    }

    /// The ciphersuite that an identifier names; `Default` for all others.
    pub open spec fn spec_from_u16(v: u16) -> CiphersuiteName {
        if v == 1 {
            CiphersuiteName::MLS10_128_DHKEMX25519_AES128GCM_SHA256_Ed25519
        } else if v == 2 {
            CiphersuiteName::MLS10_128_DHKEMP256_AES128GCM_SHA256_P256
        } else if v == 3 {
            CiphersuiteName::MLS10_128_DHKEMX25519_CHACHA20POLY1305_SHA256_Ed25519
        } else if v == 4 {
            CiphersuiteName::MLS10_256_DHKEMX448_AES256GCM_SHA512_Ed448
        } else if v == 5 {
            CiphersuiteName::MLS10_256_DHKEMP521_AES256GCM_SHA512_P521
        } else if v == 6 {
            CiphersuiteName::MLS10_256_DHKEMX448_CHACHA20POLY1305_SHA512_Ed448
        } else {
            CiphersuiteName::Default
        }
    }

    pub fn to_u16(&self) -> (r: u16)
        ensures
            r == self.spec_to_u16(),
    {
        match self {
            CiphersuiteName::MLS10_128_DHKEMX25519_AES128GCM_SHA256_Ed25519 => 1,
            CiphersuiteName::MLS10_128_DHKEMP256_AES128GCM_SHA256_P256 => 2,
            CiphersuiteName::MLS10_128_DHKEMX25519_CHACHA20POLY1305_SHA256_Ed25519 => 3,
            CiphersuiteName::MLS10_256_DHKEMX448_AES256GCM_SHA512_Ed448 => 4,
            CiphersuiteName::MLS10_256_DHKEMP521_AES256GCM_SHA512_P521 => 5,
            CiphersuiteName::MLS10_256_DHKEMX448_CHACHA20POLY1305_SHA512_Ed448 => 6,
            CiphersuiteName::Default => 0xffff,
        }
    }

    pub fn from_u16(v: u16) -> (r: CiphersuiteName)
        ensures
            r == CiphersuiteName::spec_from_u16(v),
    {
        match v {
            1 => CiphersuiteName::MLS10_128_DHKEMX25519_AES128GCM_SHA256_Ed25519,
            2 => CiphersuiteName::MLS10_128_DHKEMP256_AES128GCM_SHA256_P256,
            3 => CiphersuiteName::MLS10_128_DHKEMX25519_CHACHA20POLY1305_SHA256_Ed25519,
            4 => CiphersuiteName::MLS10_256_DHKEMX448_AES256GCM_SHA512_Ed448,
            5 => CiphersuiteName::MLS10_256_DHKEMP521_AES256GCM_SHA512_P521,
            6 => CiphersuiteName::MLS10_256_DHKEMX448_CHACHA20POLY1305_SHA512_Ed448,
            _ => CiphersuiteName::Default,
        }
    }
}

/// An identifier that is written and read again names the same ciphersuite.
pub proof fn lemma_ciphersuite_name_round_trip(name: CiphersuiteName)
    ensures
        CiphersuiteName::spec_from_u16(name.spec_to_u16()) == name,
{
}

/// The ciphersuites that this library knows the parameters of.
pub fn supported_ciphersuites() -> (r: Vec<CiphersuiteName>)
    ensures
        r@ == seq![
            CiphersuiteName::MLS10_128_DHKEMX25519_AES128GCM_SHA256_Ed25519,
            CiphersuiteName::MLS10_128_DHKEMX25519_CHACHA20POLY1305_SHA256_Ed25519,
        ],
{
    let mut r: Vec<CiphersuiteName> = Vec::new();
    r.push(CiphersuiteName::MLS10_128_DHKEMX25519_AES128GCM_SHA256_Ed25519);
    r.push(CiphersuiteName::MLS10_128_DHKEMX25519_CHACHA20POLY1305_SHA256_Ed25519);
    assert(r@ =~= seq![
        CiphersuiteName::MLS10_128_DHKEMX25519_AES128GCM_SHA256_Ed25519,
        CiphersuiteName::MLS10_128_DHKEMX25519_CHACHA20POLY1305_SHA256_Ed25519,
    ]);
    r
}

/// The sizes that a ciphersuite fixes. The primitives themselves are the
/// caller's.
#[derive(Clone, Copy, Debug, PartialEq, Eq, Structural)]
pub struct Ciphersuite {
    pub name: CiphersuiteName,
}

impl Ciphersuite {
    /// Output length of the hash, in bytes.
    pub open spec fn spec_hash_length(self) -> nat {
        match self.name {
            CiphersuiteName::MLS10_256_DHKEMX448_AES256GCM_SHA512_Ed448 => 64,
            CiphersuiteName::MLS10_256_DHKEMP521_AES256GCM_SHA512_P521 => 64,
            CiphersuiteName::MLS10_256_DHKEMX448_CHACHA20POLY1305_SHA512_Ed448 => 64,
            _ => 32,
        }
    }

    /// Key length of the authenticated cipher, in bytes.
    pub open spec fn spec_aead_key_length(self) -> nat {
        match self.name {
            CiphersuiteName::MLS10_128_DHKEMX25519_AES128GCM_SHA256_Ed25519 => 16,
            CiphersuiteName::MLS10_128_DHKEMP256_AES128GCM_SHA256_P256 => 16,
            _ => 32,
        }
    }

    /// Nonce length of the authenticated cipher, in bytes.
    pub open spec fn spec_aead_nonce_length(self) -> nat {
        12
    }

    pub fn new(name: CiphersuiteName) -> (r: Ciphersuite)
        ensures
            r.name == name,
    {
        Ciphersuite { name }
    }

    pub fn get_name(&self) -> (r: CiphersuiteName)
        ensures
            r == self.name,
    {
        self.name
    }

    pub fn hash_length(&self) -> (r: usize)
        ensures
            r == self.spec_hash_length(),
    {
        match self.name {
            CiphersuiteName::MLS10_256_DHKEMX448_AES256GCM_SHA512_Ed448 => 64,
            CiphersuiteName::MLS10_256_DHKEMP521_AES256GCM_SHA512_P521 => 64,
            CiphersuiteName::MLS10_256_DHKEMX448_CHACHA20POLY1305_SHA512_Ed448 => 64,
            _ => 32,
        }
    }

    pub fn aead_key_length(&self) -> (r: usize)
        ensures
            r == self.spec_aead_key_length(),
    {
        match self.name {
            CiphersuiteName::MLS10_128_DHKEMX25519_AES128GCM_SHA256_Ed25519 => 16,
            CiphersuiteName::MLS10_128_DHKEMP256_AES128GCM_SHA256_P256 => 16,
            _ => 32,
        }
    }

    pub fn aead_nonce_length(&self) -> (r: usize)
        ensures
            r == self.spec_aead_nonce_length(),
    {
        12
    }
}

/// Public key of a key-encapsulation key pair.
#[derive(Debug)]
pub struct HPKEPublicKey {
    value: Vec<u8>,
}

impl View for HPKEPublicKey {
    type V = Seq<u8>;

    closed spec fn view(&self) -> Seq<u8> {
        self.value@
    }
}

impl HPKEPublicKey {
    pub fn new(value: Vec<u8>) -> (r: HPKEPublicKey)
        ensures
            r@ == value@,
    {
        HPKEPublicKey { value }
    }

    pub fn from_slice(bytes: &[u8]) -> (r: HPKEPublicKey)
        ensures
            r@ == bytes@,
    {
        HPKEPublicKey { value: copy_bytes(bytes) }
    }

    pub fn as_slice(&self) -> (r: &[u8])
        ensures
            r@ == self@,
    {
        self.value.as_slice()
    }
}

impl Clone for HPKEPublicKey {
    fn clone(&self) -> (r: Self)
        ensures
            r@ == self@,
    {
        HPKEPublicKey { value: copy_bytes(self.value.as_slice()) }
    }
}

impl PartialEq for HPKEPublicKey {
    fn eq(&self, other: &Self) -> (r: bool) {
        bytes_eq(self.value.as_slice(), other.value.as_slice())
    }
}

impl PartialEqSpecImpl for HPKEPublicKey {
    open spec fn obeys_eq_spec() -> bool {
        true
    }

    open spec fn eq_spec(&self, other: &Self) -> bool {
        self@ == other@
    }
}

/// Private key of a key-encapsulation key pair.
#[derive(Debug)]
pub struct HPKEPrivateKey {
    value: Vec<u8>,
}

impl View for HPKEPrivateKey {
    type V = Seq<u8>;

    closed spec fn view(&self) -> Seq<u8> {
        self.value@
    }
}

impl HPKEPrivateKey {
    pub fn new(value: Vec<u8>) -> (r: HPKEPrivateKey)
        ensures
            r@ == value@,
    {
        HPKEPrivateKey { value }
    }

    pub fn from_slice(bytes: &[u8]) -> (r: HPKEPrivateKey)
        ensures
            r@ == bytes@,
    {
        HPKEPrivateKey { value: copy_bytes(bytes) }
    }

    pub fn as_slice(&self) -> (r: &[u8])
        ensures
            r@ == self@,
    {
        self.value.as_slice()
    }
}

impl Clone for HPKEPrivateKey {
    fn clone(&self) -> (r: Self)
        ensures
            r@ == self@,
    {
        HPKEPrivateKey { value: copy_bytes(self.value.as_slice()) }
    }
}

impl PartialEq for HPKEPrivateKey {
    fn eq(&self, other: &Self) -> (r: bool) {
        bytes_eq(self.value.as_slice(), other.value.as_slice())
    }
}

impl PartialEqSpecImpl for HPKEPrivateKey {
    open spec fn obeys_eq_spec() -> bool {
        true
    }

    open spec fn eq_spec(&self, other: &Self) -> bool {
        self@ == other@
    }
}

/// A signature over a message.
#[derive(Debug)]
pub struct Signature {
    value: Vec<u8>,
}

impl View for Signature {
    type V = Seq<u8>;

    closed spec fn view(&self) -> Seq<u8> {
        self.value@
    }
}

impl Signature {
    pub fn new(value: Vec<u8>) -> (r: Signature)
        ensures
            r@ == value@,
    {
        Signature { value }
    }

    pub fn from_slice(bytes: &[u8]) -> (r: Signature)
        ensures
            r@ == bytes@,
    {
        Signature { value: copy_bytes(bytes) }
    }

    pub fn as_slice(&self) -> (r: &[u8])
        ensures
            r@ == self@,
    {
        self.value.as_slice()
    }
}

impl Clone for Signature {
    fn clone(&self) -> (r: Self)
        ensures
            r@ == self@,
    {
        Signature { value: copy_bytes(self.value.as_slice()) }
    }
}

impl PartialEq for Signature {
    fn eq(&self, other: &Self) -> (r: bool) {
        bytes_eq(self.value.as_slice(), other.value.as_slice())
    }
}

impl PartialEqSpecImpl for Signature {
    open spec fn obeys_eq_spec() -> bool {
        true
    }

    open spec fn eq_spec(&self, other: &Self) -> bool {
        self@ == other@
    }
}

/// Public key that verifies signatures.
#[derive(Debug)]
pub struct SignaturePublicKey {
    value: Vec<u8>,
}

impl View for SignaturePublicKey {
    type V = Seq<u8>;

    closed spec fn view(&self) -> Seq<u8> {
        self.value@
    }
}

impl SignaturePublicKey {
    pub fn new(value: Vec<u8>) -> (r: SignaturePublicKey)
        ensures
            r@ == value@,
    {
        SignaturePublicKey { value }
    }

    pub fn from_slice(bytes: &[u8]) -> (r: SignaturePublicKey)
        ensures
            r@ == bytes@,
    {
        SignaturePublicKey { value: copy_bytes(bytes) }
    }

    pub fn as_slice(&self) -> (r: &[u8])
        ensures
            r@ == self@,
    {
        self.value.as_slice()
    }
}

impl Clone for SignaturePublicKey {
    fn clone(&self) -> (r: Self)
        ensures
            r@ == self@,
    {
        SignaturePublicKey { value: copy_bytes(self.value.as_slice()) }
    }
}

impl PartialEq for SignaturePublicKey {
    fn eq(&self, other: &Self) -> (r: bool) {
        bytes_eq(self.value.as_slice(), other.value.as_slice())
    }
}

impl PartialEqSpecImpl for SignaturePublicKey {
    open spec fn obeys_eq_spec() -> bool {
        true
    }

    open spec fn eq_spec(&self, other: &Self) -> bool {
        self@ == other@
    }
}

/// Key of the authenticated cipher.
#[derive(Debug)]
pub struct AeadKey {
    value: Vec<u8>,
}

impl View for AeadKey {
    type V = Seq<u8>;

    closed spec fn view(&self) -> Seq<u8> {
        self.value@
    }
}

impl AeadKey {
    pub fn new(value: Vec<u8>) -> (r: AeadKey)
        ensures
            r@ == value@,
    {
        AeadKey { value }
    }

    pub fn from_slice(bytes: &[u8]) -> (r: AeadKey)
        ensures
            r@ == bytes@,
    {
        AeadKey { value: copy_bytes(bytes) }
    }

    pub fn as_slice(&self) -> (r: &[u8])
        ensures
            r@ == self@,
    {
        self.value.as_slice()
    }
}

impl Clone for AeadKey {
    fn clone(&self) -> (r: Self)
        ensures
            r@ == self@,
    {
        AeadKey { value: copy_bytes(self.value.as_slice()) }
    }
}

impl PartialEq for AeadKey {
    fn eq(&self, other: &Self) -> (r: bool) {
        bytes_eq(self.value.as_slice(), other.value.as_slice())
    }
}

impl PartialEqSpecImpl for AeadKey {
    open spec fn obeys_eq_spec() -> bool {
        true
    }

    open spec fn eq_spec(&self, other: &Self) -> bool {
        self@ == other@
    }
}

/// Nonce of the authenticated cipher.
#[derive(Debug)]
pub struct AeadNonce {
    value: Vec<u8>,
}

impl View for AeadNonce {
    type V = Seq<u8>;

    closed spec fn view(&self) -> Seq<u8> {
        self.value@
    }
}

impl AeadNonce {
    pub fn new(value: Vec<u8>) -> (r: AeadNonce)
        ensures
            r@ == value@,
    {
        AeadNonce { value }
    }

    pub fn from_slice(bytes: &[u8]) -> (r: AeadNonce)
        ensures
            r@ == bytes@,
    {
        AeadNonce { value: copy_bytes(bytes) }
    }

    pub fn as_slice(&self) -> (r: &[u8])
        ensures
            r@ == self@,
    {
        self.value.as_slice()
    }
}

impl Clone for AeadNonce {
    fn clone(&self) -> (r: Self)
        ensures
            r@ == self@,
    {
        AeadNonce { value: copy_bytes(self.value.as_slice()) }
    }
}

impl PartialEq for AeadNonce {
    fn eq(&self, other: &Self) -> (r: bool) {
        bytes_eq(self.value.as_slice(), other.value.as_slice())
    }
}

impl PartialEqSpecImpl for AeadNonce {
    open spec fn obeys_eq_spec() -> bool {
        true
    }

    open spec fn eq_spec(&self, other: &Self) -> bool {
        self@ == other@
    }
}

/// A key-encapsulation key pair.
#[derive(Debug)]
pub struct HPKEKeyPair {
    private_key: HPKEPrivateKey,
    public_key: HPKEPublicKey,
}

pub struct HPKEKeyPairView {
    pub private_key: Seq<u8>,
    pub public_key: Seq<u8>,
}

impl View for HPKEKeyPair {
    type V = HPKEKeyPairView;

    closed spec fn view(&self) -> HPKEKeyPairView {
        HPKEKeyPairView { private_key: self.private_key@, public_key: self.public_key@ }
    }
}

impl HPKEKeyPair {
    pub fn new(private_key: HPKEPrivateKey, public_key: HPKEPublicKey) -> (r: HPKEKeyPair)
        ensures
            r@.private_key == private_key@,
            r@.public_key == public_key@,
    {
        HPKEKeyPair { private_key, public_key }
    }

    pub fn get_private_key(&self) -> (r: &HPKEPrivateKey)
        ensures
            r@ == self@.private_key,
    {
        &self.private_key
    }

    pub fn get_public_key(&self) -> (r: &HPKEPublicKey)
        ensures
            r@ == self@.public_key,
    {
        &self.public_key
    }
}

impl Clone for HPKEKeyPair {
    fn clone(&self) -> (r: Self)
        ensures
            r@ == self@,
    {
        HPKEKeyPair { private_key: self.private_key.clone(), public_key: self.public_key.clone() }
    }
}

/// What a sender hands to one recipient: the encapsulated key and the
/// encrypted payload.
#[derive(Debug)]
pub struct HpkeCiphertext {
    pub kem_output: Vec<u8>,
    pub ciphertext: Vec<u8>,
}

pub struct HpkeCiphertextView {
    pub kem_output: Seq<u8>,
    pub ciphertext: Seq<u8>,
}

impl View for HpkeCiphertext {
    type V = HpkeCiphertextView;

    open spec fn view(&self) -> HpkeCiphertextView {
        HpkeCiphertextView { kem_output: self.kem_output@, ciphertext: self.ciphertext@ }
    }
}

impl HpkeCiphertextView {
    /// Whether both parts fit behind a 16-bit length.
    pub open spec fn encodable(self) -> bool {
        self.kem_output.len() <= 0xffff && self.ciphertext.len() <= 0xffff
    }

    /// The ciphertext on the wire.
    pub open spec fn wire(self) -> Seq<u8> {
        spec_vec(VecSize::VecU16, self.kem_output) + spec_vec(VecSize::VecU16, self.ciphertext)
    }
}

impl HpkeCiphertextView {
    /// The ciphertext that a byte string starts with, and what follows
    /// it.
    pub open spec fn parse(s: Seq<u8>) -> Option<(HpkeCiphertextView, Seq<u8>)> {
        match spec_parse_vec(VecSize::VecU16, s) {
            Some((kem_output, r1)) => match spec_parse_vec(VecSize::VecU16, r1) {
                Some((ciphertext, r2)) => Some((HpkeCiphertextView { kem_output, ciphertext }, r2)),
                None => None,
            },
            None => None,
        }
    }
}

/// A ciphertext takes at least four bytes, written or read.
pub proof fn lemma_ciphertext_len(c: HpkeCiphertextView, s: Seq<u8>)
    ensures
        c.wire().len() >= 4,
        HpkeCiphertextView::parse(s).is_some() ==> HpkeCiphertextView::parse(s).unwrap().1.len()
            + 4 <= s.len(),
{
    crate::codec::lemma_vec_len(VecSize::VecU16, c.kem_output);
    crate::codec::lemma_vec_len(VecSize::VecU16, c.ciphertext);
    crate::codec::lemma_parse_vec_len(VecSize::VecU16, s);
    if spec_parse_vec(VecSize::VecU16, s).is_some() {
        crate::codec::lemma_parse_vec_len(
            VecSize::VecU16,
            spec_parse_vec(VecSize::VecU16, s).unwrap().1,
        );
    }
}

/// Reading a ciphertext that was written gives it back.
pub proof fn lemma_ciphertext_round_trip(c: HpkeCiphertextView, rest: Seq<u8>)
    requires
        c.encodable(),
    ensures
        HpkeCiphertextView::parse(c.wire() + rest) == Some((c, rest)),
{
    let r1 = spec_vec(VecSize::VecU16, c.ciphertext) + rest;
    assert(c.wire() + rest =~= spec_vec(VecSize::VecU16, c.kem_output) + r1);
    lemma_parse_vec(VecSize::VecU16, c.kem_output, r1);
    lemma_parse_vec(VecSize::VecU16, c.ciphertext, rest);
}

impl HpkeCiphertext {
    /// Reads a ciphertext; fails where the bytes end early.
    pub fn decode(cursor: &mut Cursor) -> (r: Result<HpkeCiphertext, CodecError>)
        ensures
            match HpkeCiphertextView::parse(old(cursor).remaining()) {
                Some((c, rest)) => r.is_ok() && r.unwrap()@ == c && final(cursor).remaining()
                    == rest,
                None => r.is_err() && r.unwrap_err() == CodecError::DecodingError,
            },
    {
        let kem_output = match cursor.decode_vec(VecSize::VecU16) {
            Ok(v) => v,
            Err(e) => {
                return Err(e);
            },
        };
        let ciphertext = match cursor.decode_vec(VecSize::VecU16) {
            Ok(v) => v,
            Err(e) => {
                return Err(e);
            },
        };
        Ok(HpkeCiphertext { kem_output, ciphertext })
    }

    pub fn new(kem_output: Vec<u8>, ciphertext: Vec<u8>) -> (r: HpkeCiphertext)
        ensures
            r@.kem_output == kem_output@,
            r@.ciphertext == ciphertext@,
    {
        HpkeCiphertext { kem_output, ciphertext }
    }

    /// The ciphertext as it stands on the wire; fails where a part is too
    /// long for its length prefix.
    pub fn encode_detached(&self) -> (r: Result<Vec<u8>, CodecError>)
        ensures
            self@.encodable() ==> r.is_ok() && r.unwrap()@ == self@.wire(),
            !self@.encodable() ==> r == Err::<Vec<u8>, CodecError>(CodecError::EncodingError),
    {
        let mut buffer: Vec<u8> = Vec::new();
        match encode_vec(VecSize::VecU16, &mut buffer, self.kem_output.as_slice()) {
            Ok(()) => {},
            Err(e) => {
                return Err(e);
            },
        }
        match encode_vec(VecSize::VecU16, &mut buffer, self.ciphertext.as_slice()) {
            Ok(()) => {},
            Err(e) => {
                return Err(e);
            },
        }
        assert(buffer@ =~= self@.wire());
        Ok(buffer)
    }
}

impl Clone for HpkeCiphertext {
    fn clone(&self) -> (r: Self)
        ensures
            r@ == self@,
    {
        HpkeCiphertext {
            kem_output: copy_bytes(self.kem_output.as_slice()),
            ciphertext: copy_bytes(self.ciphertext.as_slice()),
        }
    }
}

impl PartialEq for HpkeCiphertext {
    fn eq(&self, other: &Self) -> (r: bool) {
        bytes_eq(self.kem_output.as_slice(), other.kem_output.as_slice()) && bytes_eq(
            self.ciphertext.as_slice(),
            other.ciphertext.as_slice(),
        )
    }
}

impl PartialEqSpecImpl for HpkeCiphertext {
    open spec fn obeys_eq_spec() -> bool {
        true
    }

    open spec fn eq_spec(&self, other: &Self) -> bool {
        self@ == other@
    }
}

/// Prefix of every label of the key derivation: `"mls10 "`.
pub open spec fn spec_label_prefix() -> Seq<u8> {
    seq![0x6du8, 0x6cu8, 0x73u8, 0x31u8, 0x30u8, 0x20u8]
}

/// Whether a label, an output length and a context can be written as a
/// derivation label.
pub open spec fn spec_hkdf_label_encodable(length: nat, label: Seq<u8>, context: Seq<u8>) -> bool {
    length <= 0xffff && label.len() + 6 <= 0xff && context.len() <= 0xffff_ffff
}

/// The `info` of a labeled key derivation: the output length in two bytes,
/// the label behind `"mls10 "` and a one-byte length, the context behind a
/// four-byte length.
pub open spec fn spec_hkdf_label(length: nat, label: Seq<u8>, context: Seq<u8>) -> Seq<u8> {
    spec_u16(length as u16) + spec_vec(VecSize::VecU8, spec_label_prefix() + label) + spec_vec(
        VecSize::VecU32,
        context,
    )
}

/// Builds the `info` of a labeled key derivation. The caller expands its
/// secret with these bytes to `length` bytes of output.
pub fn hkdf_label(length: usize, label: &str, context: &[u8]) -> (r: Result<Vec<u8>, CodecError>)
    ensures
        spec_hkdf_label_encodable(length as nat, label.spec_bytes(), context@) ==> r.is_ok()
            && r.unwrap()@ == spec_hkdf_label(length as nat, label.spec_bytes(), context@),
        !spec_hkdf_label_encodable(length as nat, label.spec_bytes(), context@) ==> r == Err::<
            Vec<u8>,
            CodecError,
        >(CodecError::EncodingError),
{
    let label_bytes = label.as_bytes();
    if length > 0xffff || label_bytes.len() > 0xff - 6 || context.len() > 0xffff_ffff {
        return Err(CodecError::EncodingError);
    }
    let mut full_label: Vec<u8> = Vec::new();
    full_label.push(0x6du8);
    full_label.push(0x6cu8);
    full_label.push(0x73u8);
    full_label.push(0x31u8);
    full_label.push(0x30u8);
    full_label.push(0x20u8);
    assert(full_label@ =~= spec_label_prefix());
    append_bytes(&mut full_label, label_bytes);
    let mut buffer: Vec<u8> = Vec::new();
    encode_u16(&mut buffer, length as u16);
    let first = encode_vec(VecSize::VecU8, &mut buffer, full_label.as_slice());
    let second = encode_vec(VecSize::VecU32, &mut buffer, context);
    assert(buffer@ =~= spec_hkdf_label(length as nat, label.spec_bytes(), context@));
    Ok(buffer)
}

} // verus!
