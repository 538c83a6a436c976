use vstd::prelude::*;
use crate::ciphersuite::{
    hkdf_label, spec_hkdf_label, spec_hkdf_label_encodable, AeadKey, AeadNonce, Ciphersuite,
};
use crate::codec::{copy_bytes, encode_u32, spec_u32};
use crate::tree::index::LeafIndex;
use crate::tree::sender_ratchet::{
    lemma_labels_encodable, spec_label_secret, SenderRatchet, SenderRatchetView,
};

verus! {

/// Why the application ratchet refuses a generation.
#[derive(Clone, Copy, Debug, PartialEq, Eq, Structural)]
pub enum ASError {
    /// The generation lies five or more behind the newest secret.
    TooDistantInThePast,
    /// The generation lies more than 1000 ahead of the newest secret.
    TooDistantInTheFuture,
    /// The sender has no leaf in the tree of secrets.
    IndexOutOfBounds,
}

/// Key and nonce of one application message.
#[derive(Debug)]
pub struct ApplicationSecrets {
    nonce: AeadNonce,
    key: AeadKey,
}

pub struct ApplicationSecretsView {
    pub nonce: Seq<u8>,
    pub key: Seq<u8>,
}

impl View for ApplicationSecrets {
    type V = ApplicationSecretsView;

    closed spec fn view(&self) -> ApplicationSecretsView {
        ApplicationSecretsView { nonce: self.nonce@, key: self.key@ }
    }
}

impl ApplicationSecrets {
    pub fn new(nonce: AeadNonce, key: AeadKey) -> (r: ApplicationSecrets)
        ensures
            r@ == (ApplicationSecretsView { nonce: nonce@, key: key@ }),
    {
        ApplicationSecrets { nonce, key }
    }

    pub fn get_nonce(&self) -> (r: &AeadNonce)
        ensures
            r@ == self@.nonce,
    {
        &self.nonce
    }

    pub fn get_key(&self) -> (r: &AeadKey)
        ensures
            r@ == self@.key,
    {
        &self.key
    }
}

/// What the caller is asked to derive. Each label is the `info` of a
/// key derivation that expands the secret to the given length.
#[derive(Debug)]
pub enum SecretRequest {
    /// The secret of the generation that was asked for: expand it under
    /// `key_label` to the message key and under `nonce_label` to the
    /// message nonce.
    Ready {
        secret: Vec<u8>,
        key_label: Vec<u8>,
        key_length: usize,
        nonce_label: Vec<u8>,
        nonce_length: usize,
    },
    /// The newest secret: expand it under `label` to the secret of the
    /// next generation, hand that in, and ask again.
    Ratchet { secret: Vec<u8>, label: Vec<u8>, length: usize },
    /// The application secret of the epoch: expand it under `label` to the
    /// first secret of the sender, hand that in, and ask again.
    Seed { secret: Vec<u8>, label: Vec<u8>, length: usize },
}

pub enum SecretRequestView {
    Ready {
        secret: Seq<u8>,
        key_label: Seq<u8>,
        key_length: nat,
        nonce_label: Seq<u8>,
        nonce_length: nat,
    },
    Ratchet { secret: Seq<u8>, label: Seq<u8>, length: nat },
    Seed { secret: Seq<u8>, label: Seq<u8>, length: nat },
}

impl View for SecretRequest {
    type V = SecretRequestView;

    open spec fn view(&self) -> SecretRequestView {
        match self {
            SecretRequest::Ready { secret, key_label, key_length, nonce_label, nonce_length } => {
                SecretRequestView::Ready {
                    secret: secret@,
                    key_label: key_label@,
                    key_length: *key_length as nat,
                    nonce_label: nonce_label@,
                    nonce_length: *nonce_length as nat,
                }
            },
            SecretRequest::Ratchet { secret, label, length } => SecretRequestView::Ratchet {
                secret: secret@,
                label: label@,
                length: *length as nat,
            },
            SecretRequest::Seed { secret, label, length } => SecretRequestView::Seed {
                secret: secret@,
                label: label@,
                length: *length as nat,
            },
        }
    }
}

/// The ratchets of an epoch as one member holds them.
pub struct ASTreeView {
    pub application_secret: Seq<u8>,
    /// One ratchet for each leaf; none for a sender that has no secret yet.
    pub ratchets: Seq<Option<SenderRatchetView>>,
}

impl ASTreeView {
    /// Generation of a sender's newest secret; 0 for a sender that has no
    /// secret yet or no leaf.
    pub open spec fn generation(self, sender: LeafIndex) -> u32 {
        if sender.0 < self.ratchets.len() && self.ratchets[sender.0 as int].is_some() {
            self.ratchets[sender.0 as int].unwrap().generation
        } else {
            0
        }
    }

    /// What is asked of the caller next, for the secret of a sender's
    /// generation: the sender's first secret where it has none yet, else
    /// what its ratchet asks for.
    pub open spec fn get_secret(self, ciphersuite: Ciphersuite, index: LeafIndex, generation: u32) -> Result<
        SecretRequestView,
        ASError,
    > {
        if index.0 >= self.ratchets.len() {
            Err(ASError::IndexOutOfBounds)
        } else {
            match self.ratchets[index.0 as int] {
                Some(ratchet) => ratchet.get_secret(generation, ciphersuite),
                None => Ok(
                    SecretRequestView::Seed {
                        secret: self.application_secret,
                        label: spec_hkdf_label(
                            ciphersuite.spec_hash_length(),
                            spec_label_secret(),
                            spec_u32(index.0),
                        ),
                        length: ciphersuite.spec_hash_length(),
                    },
                ),
            }
        }
    }

    /// The ratchets after a sender's first secret has been handed in. A
    /// sender that has a secret, or no leaf, changes nothing.
    pub open spec fn seed(self, index: LeafIndex, secret: Seq<u8>) -> ASTreeView {
        if index.0 < self.ratchets.len() && self.ratchets[index.0 as int].is_none() {
            ASTreeView {
                ratchets: self.ratchets.update(
                    index.0 as int,
                    Some(SenderRatchetView { index, generation: 0, past_secrets: seq![secret] }),
                ),
                ..self
            }
        } else {
            self
        }
    }

    /// The ratchets after a sender's next secret has been handed in. A
    /// sender that has no secret yet, or no leaf, changes nothing.
    pub open spec fn ratchet(self, index: LeafIndex, next_secret: Seq<u8>) -> ASTreeView {
        if index.0 < self.ratchets.len() && self.ratchets[index.0 as int].is_some() {
            ASTreeView {
                ratchets: self.ratchets.update(
                    index.0 as int,
                    Some(self.ratchets[index.0 as int].unwrap().ratchet(next_secret)),
                ),
                ..self
            }
        } else {
            self
        }
    }
}

/// The application ratchets of an epoch: one per leaf, each started from
/// the epoch's application secret when its sender is first asked for.
#[derive(Debug)]
pub struct ASTree {
    application_secret: Vec<u8>,
    sender_ratchets: Vec<Option<SenderRatchet>>,
}

impl View for ASTree {
    type V = ASTreeView;

    closed spec fn view(&self) -> ASTreeView {
        ASTreeView {
            application_secret: self.application_secret@,
            ratchets: self.sender_ratchets@.map_values(
                |r: Option<SenderRatchet>|
                    match r {
                        Some(ratchet) => Some(ratchet@),
                        None => None,
                    },
            ),
        }
    }
}

impl ASTree {
    /// The ratchets of a new epoch for `size` leaves: no sender has a
    /// secret yet.
    pub fn new(application_secret: &[u8], size: LeafIndex) -> (r: ASTree)
        ensures
            r@ == (ASTreeView {
                application_secret: application_secret@,
                ratchets: Seq::new(size.0 as nat, |i: int| None::<SenderRatchetView>),
            }),
    {
        let mut sender_ratchets: Vec<Option<SenderRatchet>> = Vec::new();
        let mut i: u32 = 0;
        while i < size.0
            invariant
                i <= size.0,
                sender_ratchets@.len() == i,
                forall|j: int| 0 <= j < i ==> sender_ratchets@[j].is_none(),
            decreases size.0 - i,
        {
            sender_ratchets.push(None);
            i += 1;
        }
        let r = ASTree { application_secret: copy_bytes(application_secret), sender_ratchets };
        assert(r@.ratchets =~= Seq::new(size.0 as nat, |i: int| None::<SenderRatchetView>));
        r
    }

    /// Generation of a sender's newest secret; 0 for a sender that has no
    /// secret yet or no leaf.
    pub fn get_generation(&self, sender: LeafIndex) -> (r: u32)
        ensures
            r == self@.generation(sender),
    {
        if sender.as_usize() >= self.sender_ratchets.len() {
            return 0;
        }
        match &self.sender_ratchets[sender.as_usize()] {
            Some(ratchet) => ratchet.get_generation(),
            None => 0,
        }
    }

    /// Asks for the secret of a sender's generation. The answer says what
    /// the caller derives next: the sender's first secret, to hand to
    /// `seed`; its next secret, to hand to `ratchet`; or key and nonce.
    pub fn get_secret(&self, ciphersuite: &Ciphersuite, index: LeafIndex, generation: u32) -> (r:
        Result<SecretRequest, ASError>)
        ensures
            match self@.get_secret(*ciphersuite, index, generation) {
                Ok(request) => r.is_ok() && r.unwrap()@ == request,
                Err(e) => r.is_err() && r.unwrap_err() == e,
            },
    {
        if index.as_usize() >= self.sender_ratchets.len() {
            return Err(ASError::IndexOutOfBounds);
        }
        match &self.sender_ratchets[index.as_usize()] {
            Some(ratchet) => ratchet.get_secret(generation, ciphersuite),
            None => {
                let mut context: Vec<u8> = Vec::new();
                encode_u32(&mut context, index.0);
                assert(context@ =~= spec_u32(index.0));
                proof {
                    reveal(spec_u32);
                    lemma_labels_encodable(ciphersuite.spec_hash_length(), context@);
                }
                let length = ciphersuite.hash_length();
                let label = match hkdf_label(length, "app-secret", context.as_slice()) {
                    Ok(label) => label,
                    Err(e) => Vec::new(),
                };
                Ok(
                    SecretRequest::Seed {
                        secret: copy_bytes(self.application_secret.as_slice()),
                        label,
                        length,
                    },
                )
            },
        }
    }

    /// Hands in a sender's first secret, which the caller has derived from
    /// the application secret. Returns whether it was taken: it is not
    /// where the sender has a secret already, or no leaf.
    pub fn seed(&mut self, index: LeafIndex, secret: &[u8]) -> (r: bool)
        ensures
            final(self)@ == old(self)@.seed(index, secret@),
            r == (index.0 < old(self)@.ratchets.len() && old(self)@.ratchets[index.0 as int].is_none()),
    {
        if index.as_usize() >= self.sender_ratchets.len() {
            return false;
        }
        if self.sender_ratchets[index.as_usize()].is_some() {
            return false;
        }
        let ratchet = SenderRatchet::new(index, secret);
        self.sender_ratchets[index.as_usize()] = Some(ratchet);
        assert(self@.ratchets =~= old(self)@.seed(index, secret@).ratchets);
        true
    }

    /// Hands in a sender's next secret, which the caller has derived from
    /// its newest one. Returns whether the sender's ratchet has moved: it
    /// does not where the sender has no secret yet or no leaf, nor at the
    /// last generation.
    pub fn ratchet(&mut self, index: LeafIndex, next_secret: Vec<u8>) -> (r: bool)
        ensures
            final(self)@ == old(self)@.ratchet(index, next_secret@),
            r == (index.0 < old(self)@.ratchets.len() && old(self)@.ratchets[index.0 as int].is_some()
                && old(self)@.ratchets[index.0 as int].unwrap().generation < u32::MAX),
    {
        if index.as_usize() >= self.sender_ratchets.len() {
            return false;
        }
        let moved = match &mut self.sender_ratchets[index.as_usize()] {
            Some(ratchet) => ratchet.ratchet(next_secret),
            None => false,
        };
        assert(self@.ratchets =~= old(self)@.ratchet(index, next_secret@).ratchets);
        moved
    }
}

} // verus!
