use vstd::prelude::*;
use vstd::string::StringSliceAdditionalSpecFns;
use crate::ciphersuite::{hkdf_label, spec_hkdf_label, spec_hkdf_label_encodable, Ciphersuite};
use crate::codec::{copy_bytes, encode_u32, spec_u32, CodecError};
use crate::tree::astree::{ASError, SecretRequest, SecretRequestView};
use crate::tree::index::LeafIndex;

verus! {

/// How many generations back a secret stays at hand.
pub const OUT_OF_ORDER_TOLERANCE: u32 = 5;

/// How far ahead of the newest secret a generation may be asked for.
pub const MAXIMUM_FORWARD_DISTANCE: u32 = 1000;

/// What a derivation of the application ratchet is bound to: the sender's
/// leaf and the generation, four bytes each.
pub open spec fn spec_app_context(leaf: u32, generation: u32) -> Seq<u8> {
    spec_u32(leaf) + spec_u32(generation)
}

/// The label `"app-secret"`, under which a secret gives the next one.
pub open spec fn spec_label_secret() -> Seq<u8> {
    "app-secret".spec_bytes()
}

/// The label `"app-key"`, under which a secret gives a message key.
pub open spec fn spec_label_key() -> Seq<u8> {
    "app-key".spec_bytes()
}

/// The label `"app-nonce"`, under which a secret gives a message nonce.
pub open spec fn spec_label_nonce() -> Seq<u8> {
    "app-nonce".spec_bytes()
}

/// The three labels are short enough to be written with any context of
/// eight bytes and any output length below 65536.
pub proof fn lemma_labels_encodable(length: nat, context: Seq<u8>)
    requires
        length <= 0xffff,
        context.len() <= 0xffff_ffff,
    ensures
        spec_hkdf_label_encodable(length, spec_label_secret(), context),
        spec_hkdf_label_encodable(length, spec_label_key(), context),
        spec_hkdf_label_encodable(length, spec_label_nonce(), context),
{
    reveal_strlit("app-secret");
    reveal_strlit("app-key");
    reveal_strlit("app-nonce");
    vstd::string::is_ascii_spec_bytes("app-secret");
    vstd::string::is_ascii_spec_bytes("app-key");
    vstd::string::is_ascii_spec_bytes("app-nonce");
    assert(vstd::string::is_ascii("app-secret"));
    assert(vstd::string::is_ascii("app-key"));
    assert(vstd::string::is_ascii("app-nonce"));
}

/// The state of one sender's ratchet.
pub struct SenderRatchetView {
    pub index: LeafIndex,
    /// Generation of the newest secret.
    pub generation: u32,
    /// The newest secrets, oldest first.
    pub past_secrets: Seq<Seq<u8>>,
}

impl SenderRatchetView {
    /// Whether the window holds the secrets of the generations up to the
    /// newest, as far back as the tolerance reaches.
    pub open spec fn wf(self) -> bool {
        self.past_secrets.len() == if self.generation + 1 < OUT_OF_ORDER_TOLERANCE {
            self.generation + 1
        } else {
            OUT_OF_ORDER_TOLERANCE as int
        }
    }

    /// What the ratchet answers when it is asked for the secret of a
    /// generation: an error where the generation lies more than 1000
    /// ahead of the newest secret or 5 or more behind it; the secret to
    /// derive key and nonce from, where it is at hand; else the newest
    /// secret, to derive the next one from.
    pub open spec fn get_secret(self, generation: u32, ciphersuite: Ciphersuite) -> Result<
        SecretRequestView,
        ASError,
    > {
        if generation > self.generation + MAXIMUM_FORWARD_DISTANCE {
            Err(ASError::TooDistantInTheFuture)
        } else if generation < self.generation && self.generation - generation
            >= OUT_OF_ORDER_TOLERANCE {
            Err(ASError::TooDistantInThePast)
        } else if generation <= self.generation {
            let context = spec_app_context(self.index.0, generation);
            Ok(
                SecretRequestView::Ready {
                    secret: self.past_secrets[self.past_secrets.len() - (self.generation
                        - generation) - 1],
                    key_label: spec_hkdf_label(
                        ciphersuite.spec_aead_key_length(),
                        spec_label_key(),
                        context,
                    ),
                    key_length: ciphersuite.spec_aead_key_length(),
                    nonce_label: spec_hkdf_label(
                        ciphersuite.spec_aead_nonce_length(),
                        spec_label_nonce(),
                        context,
                    ),
                    nonce_length: ciphersuite.spec_aead_nonce_length(),
                },
            )
        } else {
            Ok(
                SecretRequestView::Ratchet {
                    secret: self.past_secrets.last(),
                    label: spec_hkdf_label(
                        ciphersuite.spec_hash_length(),
                        spec_label_secret(),
                        spec_app_context(self.index.0, self.generation),
                    ),
                    length: ciphersuite.spec_hash_length(),
                },
            )
        }
    }

    /// The ratchet after the secret of the next generation has been handed
    /// in: the secret is the newest, and the oldest is dropped where the
    /// window was full. A ratchet at the last generation stays as it is.
    pub open spec fn ratchet(self, next_secret: Seq<u8>) -> SenderRatchetView {
        if self.generation == u32::MAX {
            self
        } else {
            SenderRatchetView {
                index: self.index,
                generation: (self.generation + 1) as u32,
                past_secrets: if self.past_secrets.len() >= OUT_OF_ORDER_TOLERANCE {
                    self.past_secrets.skip(
                        self.past_secrets.len() - OUT_OF_ORDER_TOLERANCE + 1,
                    ).push(next_secret)
                } else {
                    self.past_secrets.push(next_secret)
                },
            }
        }
    }
}

/// The ratchet only goes forward: once it holds the secret of a
/// generation, it refuses every generation that lies more than four
/// behind that one as too distant in the past.
pub proof fn lemma_forward_only(
    ratchet: SenderRatchetView,
    served: u32,
    asked: u32,
    ciphersuite: Ciphersuite,
)
    requires
        ratchet.generation >= served,
        asked + 4 < served,
    ensures
        ratchet.get_secret(asked, ciphersuite) == Err::<SecretRequestView, ASError>(
            ASError::TooDistantInThePast,
        ),
{
}

/// Handing in a secret keeps the window well formed and never takes the
/// ratchet back.
pub proof fn lemma_ratchet_advances(ratchet: SenderRatchetView, next_secret: Seq<u8>)
    requires
        ratchet.wf(),
    ensures
        ratchet.ratchet(next_secret).wf(),
        ratchet.ratchet(next_secret).generation >= ratchet.generation,
        ratchet.generation < u32::MAX ==> ratchet.ratchet(next_secret).generation
            == ratchet.generation + 1 && ratchet.ratchet(next_secret).past_secrets.last()
            == next_secret,
{
}

/// A secret that is at hand stays at hand while the ratchet takes up to
/// four more secrets.
pub proof fn lemma_window_keeps(
    ratchet: SenderRatchetView,
    next_secret: Seq<u8>,
    generation: u32,
    ciphersuite: Ciphersuite,
)
    requires
        ratchet.wf(),
        ratchet.generation < u32::MAX,
        generation <= ratchet.generation,
        ratchet.generation + 1 - generation < OUT_OF_ORDER_TOLERANCE,
    ensures
        ratchet.ratchet(next_secret).get_secret(generation, ciphersuite) == ratchet.get_secret(
            generation,
            ciphersuite,
        ),
{
}

/// The forward-secret chain of one sender: the secrets of its newest
/// generations. The secrets themselves are derived by the caller.
#[derive(Debug)]
pub struct SenderRatchet {
    index: LeafIndex,
    generation: u32,
    past_secrets: Vec<Vec<u8>>,
}

impl View for SenderRatchet {
    type V = SenderRatchetView;

    closed spec fn view(&self) -> SenderRatchetView {
        SenderRatchetView {
            index: self.index,
            generation: self.generation,
            past_secrets: self.past_secrets@.map_values(|s: Vec<u8>| s@),
        }
    }
}

/// The context of a derivation, as bytes.
fn app_context(leaf: u32, generation: u32) -> (r: Vec<u8>)
    ensures
        r@ == spec_app_context(leaf, generation),
        r@.len() == 8,
{
    let mut r: Vec<u8> = Vec::new();
    encode_u32(&mut r, leaf);
    encode_u32(&mut r, generation);
    proof {
        reveal(spec_u32);
    }
    assert(r@ =~= spec_app_context(leaf, generation));
    r
}

impl SenderRatchet {
    #[verifier::type_invariant]
    spec fn window_ok(self) -> bool {
        self@.wf()
    }

    /// A ratchet at generation 0, with the secret of that generation.
    pub fn new(index: LeafIndex, secret: &[u8]) -> (r: SenderRatchet)
        ensures
            r@ == (SenderRatchetView { index, generation: 0, past_secrets: seq![secret@] }),
            r@.wf(),
    {
        let mut past_secrets: Vec<Vec<u8>> = Vec::new();
        past_secrets.push(copy_bytes(secret));
        let r = SenderRatchet { index, generation: 0, past_secrets };
        assert(r@.past_secrets =~= seq![secret@]);
        r
    }

    /// Generation of the newest secret.
    pub fn get_generation(&self) -> (r: u32)
        ensures
            r == self@.generation,
            self@.wf(),
    {
        proof {
            use_type_invariant(self);
        }
        self.generation
    }

    /// Asks for the secret of a generation. The answer is either the
    /// secret to derive key and nonce from, with the labels to derive
    /// them under; or the newest secret with the label under which the
    /// caller derives the next one, to hand it to `ratchet` and ask
    /// again.
    pub fn get_secret(&self, generation: u32, ciphersuite: &Ciphersuite) -> (r: Result<
        SecretRequest,
        ASError,
    >)
        ensures
            match self@.get_secret(generation, *ciphersuite) {
                Ok(request) => r.is_ok() && r.unwrap()@ == request,
                Err(e) => r.is_err() && r.unwrap_err() == e,
            },
    {
        proof {
            use_type_invariant(self);
        }
        if generation as u64 > self.generation as u64 + MAXIMUM_FORWARD_DISTANCE as u64 {
            return Err(ASError::TooDistantInTheFuture);
        }
        if generation < self.generation && (self.generation - generation)
            >= OUT_OF_ORDER_TOLERANCE {
            return Err(ASError::TooDistantInThePast);
        }
        if generation <= self.generation {
            let window_index: usize = self.past_secrets.len() - (self.generation
                - generation) as usize - 1;
            let context = app_context(self.index.0, generation);
            proof {
                lemma_labels_encodable(ciphersuite.spec_aead_key_length(), context@);
                lemma_labels_encodable(ciphersuite.spec_aead_nonce_length(), context@);
            }
            let key_length = ciphersuite.aead_key_length();
            let nonce_length = ciphersuite.aead_nonce_length();
            let key_label = match hkdf_label(key_length, "app-key", context.as_slice()) {
                Ok(label) => label,
                Err(e) => Vec::new(),
            };
            let nonce_label = match hkdf_label(nonce_length, "app-nonce", context.as_slice()) {
                Ok(label) => label,
                Err(e) => Vec::new(),
            };
            Ok(
                SecretRequest::Ready {
                    secret: copy_bytes(self.past_secrets[window_index].as_slice()),
                    key_label,
                    key_length,
                    nonce_label,
                    nonce_length,
                },
            )
        } else {
            let context = app_context(self.index.0, self.generation);
            proof {
                lemma_labels_encodable(ciphersuite.spec_hash_length(), context@);
            }
            let length = ciphersuite.hash_length();
            let label = match hkdf_label(length, "app-secret", context.as_slice()) {
                Ok(label) => label,
                Err(e) => Vec::new(),
            };
            let newest: usize = self.past_secrets.len() - 1;
            Ok(
                SecretRequest::Ratchet {
                    secret: copy_bytes(self.past_secrets[newest].as_slice()),
                    label,
                    length,
                },
            )
        }
    }

    /// Hands in the secret of the next generation, which the caller has
    /// derived from the newest one. Returns whether the ratchet has moved:
    /// it does not at the last generation.
    pub fn ratchet(&mut self, next_secret: Vec<u8>) -> (r: bool)
        ensures
            final(self)@ == old(self)@.ratchet(next_secret@),
            r == (old(self)@.generation < u32::MAX),
            final(self)@.wf(),
    {
        proof {
            use_type_invariant(&*self);
        }
        if self.generation == u32::MAX {
            return false;
        }
        let len: usize = self.past_secrets.len();
        let start: usize = if len >= OUT_OF_ORDER_TOLERANCE as usize {
            len - OUT_OF_ORDER_TOLERANCE as usize + 1
        } else {
            0
        };
        let ghost window = self@.past_secrets;
        let mut secrets: Vec<Vec<u8>> = Vec::new();
        let mut i: usize = start;
        while i < len
            invariant
                start <= i <= len,
                len == self.past_secrets@.len(),
                window == self.past_secrets@.map_values(|s: Vec<u8>| s@),
                secrets@.map_values(|s: Vec<u8>| s@) == window.subrange(start as int, i as int),
            decreases len - i,
        {
            let ghost copied = secrets@;
            let secret = copy_bytes(self.past_secrets[i].as_slice());
            assert(secret@ == window[i as int]);
            assert(copied.push(secret).map_values(|s: Vec<u8>| s@) =~= copied.map_values(
                |s: Vec<u8>| s@,
            ).push(secret@));
            secrets.push(secret);
            i += 1;
            assert(secrets@.map_values(|s: Vec<u8>| s@) =~= window.subrange(
                start as int,
                i as int,
            ));
        }
        let ghost kept = secrets@;
        assert(kept.push(next_secret).map_values(|s: Vec<u8>| s@) =~= kept.map_values(
            |s: Vec<u8>| s@,
        ).push(next_secret@));
        secrets.push(next_secret);
        let index = self.index;
        let generation: u32 = self.generation + 1;
        proof {
            assert(window.subrange(start as int, len as int) =~= window.skip(start as int));
            assert(secrets@.map_values(|s: Vec<u8>| s@) =~= window.skip(start as int).push(
                next_secret@,
            ));
        }
        *self = SenderRatchet { index, generation, past_secrets: secrets };
        proof {
            assert(window.skip(0) =~= window);
            assert(self@.past_secrets =~= old(self)@.ratchet(next_secret@).past_secrets);
        }
        true
    }
}

impl Clone for SenderRatchet {
    fn clone(&self) -> (r: Self)
        ensures
            r@ == self@,
    {
        proof {
            use_type_invariant(self);
        }
        let mut secrets: Vec<Vec<u8>> = Vec::new();
        let mut i: usize = 0;
        while i < self.past_secrets.len()
            invariant
                i <= self.past_secrets@.len(),
                secrets@.map_values(|s: Vec<u8>| s@) == self.past_secrets@.map_values(
                    |s: Vec<u8>| s@,
                ).take(i as int),
            decreases self.past_secrets@.len() - i,
        {
            let ghost copied = secrets@;
            let secret = copy_bytes(self.past_secrets[i].as_slice());
            assert(copied.push(secret).map_values(|s: Vec<u8>| s@) =~= copied.map_values(
                |s: Vec<u8>| s@,
            ).push(secret@));
            secrets.push(secret);
            i += 1;
            assert(secrets@.map_values(|s: Vec<u8>| s@) =~= self.past_secrets@.map_values(
                |s: Vec<u8>| s@,
            ).take(i as int));
        }
        assert(self.past_secrets@.map_values(|s: Vec<u8>| s@).take(i as int)
            =~= self.past_secrets@.map_values(|s: Vec<u8>| s@));
        SenderRatchet { index: self.index, generation: self.generation, past_secrets: secrets }
    }
}

} // verus!
