use vstd::prelude::*;
use vstd::std_specs::cmp::PartialEqSpecImpl;
use crate::ciphersuite::{CiphersuiteName, SignaturePublicKey};
use crate::codec::{
    bytes_eq, copy_bytes, encode_u16, encode_u8, encode_vec, lemma_parse_u16, lemma_parse_u8,
    lemma_parse_vec, spec_parse_u16, spec_parse_u8, spec_parse_vec, spec_u16, spec_u8, spec_vec,
    CodecError, Cursor, VecSize,
};

verus! {

/// Who a member is: a name and the key that verifies the member's
/// signatures.
#[derive(Debug)]
pub struct Credential {
    pub identity: Vec<u8>,
    pub ciphersuite: CiphersuiteName,
    pub public_key: SignaturePublicKey,
}

pub struct CredentialView {
    pub identity: Seq<u8>,
    pub ciphersuite: CiphersuiteName,
    pub public_key: Seq<u8>,
}

impl View for Credential {
    type V = CredentialView;

    open spec fn view(&self) -> CredentialView {
        CredentialView {
            identity: self.identity@,
            ciphersuite: self.ciphersuite,
            public_key: self.public_key@,
        }
    }
}

impl CredentialView {
    /// Whether the name and the key each fit behind a two-byte length.
    pub open spec fn encodable(self) -> bool {
        self.identity.len() <= 0xffff && self.public_key.len() <= 0xffff
    }

    /// The credential on the wire: the tag of a basic credential, the name,
    /// the ciphersuite and the key.
    pub open spec fn wire(self) -> Seq<u8> {
        spec_u8(0) + spec_vec(VecSize::VecU16, self.identity) + spec_u16(
            self.ciphersuite.spec_to_u16(),
        ) + spec_vec(VecSize::VecU16, self.public_key)
    }
}

impl CredentialView {
    /// The credential that a byte string starts with, and what follows
    /// it. Only the basic kind of credential is known.
    pub open spec fn parse(s: Seq<u8>) -> Option<(CredentialView, Seq<u8>)> {
        match spec_parse_u8(s) {
            Some((kind, r1)) => if kind != 0 {
                None
            } else {
                match spec_parse_vec(VecSize::VecU16, r1) {
                    Some((identity, r2)) => match spec_parse_u16(r2) {
                        Some((suite, r3)) => match spec_parse_vec(VecSize::VecU16, r3) {
                            Some((public_key, r4)) => Some(
                                (
                                    CredentialView {
                                        identity,
                                        ciphersuite: CiphersuiteName::spec_from_u16(suite),
                                        public_key,
                                    },
                                    r4,
                                ),
                            ),
                            None => None,
                        },
                        None => None,
                    },
                    None => None,
                }
            },
            None => None,
        }
    }
}

/// What is left behind a credential that is read is no longer than what
/// the credential was read from.
pub proof fn lemma_credential_rest_len(s: Seq<u8>)
    ensures
        CredentialView::parse(s).is_some() ==> CredentialView::parse(s).unwrap().1.len()
            <= s.len(),
{
    crate::codec::lemma_parse_int_len(s);
    if spec_parse_u8(s).is_some() {
        let r1 = spec_parse_u8(s).unwrap().1;
        crate::codec::lemma_parse_vec_len(VecSize::VecU16, r1);
        if spec_parse_vec(VecSize::VecU16, r1).is_some() {
            let r2 = spec_parse_vec(VecSize::VecU16, r1).unwrap().1;
            crate::codec::lemma_parse_int_len(r2);
            if spec_parse_u16(r2).is_some() {
                crate::codec::lemma_parse_vec_len(VecSize::VecU16, spec_parse_u16(r2).unwrap().1);
            }
        }
    }
}

/// Reading a credential that was written gives it back.
pub proof fn lemma_credential_round_trip(c: CredentialView, rest: Seq<u8>)
    requires
        c.encodable(),
    ensures
        CredentialView::parse(c.wire() + rest) == Some((c, rest)),
{
    let r3 = spec_vec(VecSize::VecU16, c.public_key) + rest;
    let r2 = spec_u16(c.ciphersuite.spec_to_u16()) + r3;
    let r1 = spec_vec(VecSize::VecU16, c.identity) + r2;
    assert(c.wire() + rest =~= spec_u8(0) + r1);
    lemma_parse_u8(0, r1);
    lemma_parse_vec(VecSize::VecU16, c.identity, r2);
    lemma_parse_u16(c.ciphersuite.spec_to_u16(), r3);
    lemma_parse_vec(VecSize::VecU16, c.public_key, rest);
}

impl Credential {
    /// Reads a credential; fails where the bytes end early or the
    /// credential is not of the basic kind.
    pub fn decode(cursor: &mut Cursor) -> (r: Result<Credential, CodecError>)
        ensures
            match CredentialView::parse(old(cursor).remaining()) {
                Some((c, rest)) => r.is_ok() && r.unwrap()@ == c && final(cursor).remaining()
                    == rest,
                None => r.is_err() && r.unwrap_err() == CodecError::DecodingError,
            },
    {
        let kind = match cursor.decode_u8() {
            Ok(v) => v,
            Err(e) => {
                return Err(e);
            },
        };
        if kind != 0 {
            return Err(CodecError::DecodingError);
        }
        let identity = match cursor.decode_vec(VecSize::VecU16) {
            Ok(v) => v,
            Err(e) => {
                return Err(e);
            },
        };
        let suite = match cursor.decode_u16() {
            Ok(v) => v,
            Err(e) => {
                return Err(e);
            },
        };
        let public_key = match cursor.decode_vec(VecSize::VecU16) {
            Ok(v) => v,
            Err(e) => {
                return Err(e);
            },
        };
        Ok(
            Credential {
                identity,
                ciphersuite: CiphersuiteName::from_u16(suite),
                public_key: SignaturePublicKey::new(public_key),
            },
        )
    }

    pub fn new(identity: Vec<u8>, ciphersuite: CiphersuiteName, public_key: SignaturePublicKey) -> (r:
        Credential)
        ensures
            r@.identity == identity@,
            r@.ciphersuite == ciphersuite,
            r@.public_key == public_key@,
    {
        Credential { identity, ciphersuite, public_key }
    }

    pub fn get_identity(&self) -> (r: &[u8])
        ensures
            r@ == self@.identity,
    {
        self.identity.as_slice()
    }

    pub fn get_public_key(&self) -> (r: &SignaturePublicKey)
        ensures
            r@ == self@.public_key,
    {
        &self.public_key
    }

    /// The credential as it stands on the wire.
    pub fn encode_detached(&self) -> (r: Result<Vec<u8>, CodecError>)
        ensures
            self@.encodable() ==> r.is_ok() && r.unwrap()@ == self@.wire(),
            !self@.encodable() ==> r.is_err() && r.unwrap_err() == CodecError::EncodingError,
    {
        if self.identity.len() > 0xffff || self.public_key.as_slice().len() > 0xffff {
            return Err(CodecError::EncodingError);
        }
        let mut buffer: Vec<u8> = Vec::new();
        encode_u8(&mut buffer, 0);
        let r1 = encode_vec(VecSize::VecU16, &mut buffer, self.identity.as_slice());
        encode_u16(&mut buffer, self.ciphersuite.to_u16());
        let r2 = encode_vec(VecSize::VecU16, &mut buffer, self.public_key.as_slice());
        assert(buffer@ =~= self@.wire());
        Ok(buffer)
    }
}

impl Clone for Credential {
    fn clone(&self) -> (r: Self)
        ensures
            r@ == self@,
    {
        Credential {
            identity: copy_bytes(self.identity.as_slice()),
            ciphersuite: self.ciphersuite,
            public_key: self.public_key.clone(),
        }
    }
}

impl PartialEq for Credential {
    fn eq(&self, other: &Self) -> (r: bool) {
        bytes_eq(self.identity.as_slice(), other.identity.as_slice()) && self.ciphersuite
            == other.ciphersuite && self.public_key == other.public_key
    }
}

impl PartialEqSpecImpl for Credential {
    open spec fn obeys_eq_spec() -> bool {
        true
    }

    open spec fn eq_spec(&self, other: &Self) -> bool {
        self@ == other@
    }
}

} // verus!
