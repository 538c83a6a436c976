use vstd::prelude::*;
use vstd::string::StringSliceAdditionalSpecFns;
use crate::ciphersuite::Ciphersuite;
use crate::codec::{append_bytes, copy_bytes};
use crate::creds::Credential;
use crate::framing::{
    ContentView, MLSPlaintext, MLSPlaintextContentType, MLSPlaintextView, Sender, SenderType,
};
use crate::group::{GroupContext, GroupContextView, GroupEpoch, GroupId};
use crate::messages::spec_credential_views;
use crate::tree::astree::{ASError, SecretRequest, SecretRequestView};
use crate::key_packages::{KeyPackage, KeyPackageBundle, KeyPackageBundleView};
use crate::messages::proposals::{
    AddProposal, Proposal, ProposalView, RemoveProposal, UpdateProposal,
};
use crate::schedule::{EpochSecrets, EpochSecretsView};
use crate::tree::astree::{ASTree, ASTreeView};
use crate::tree::index::{LeafIndex, NodeIndex};
use crate::tree::node::NodeView;
use crate::tree::ratchet_tree::{OwnLeafView, RatchetTree};
use crate::tree::sender_ratchet::SenderRatchetView;

verus! {

/// A group as one member holds it.
#[derive(Debug)]
pub struct MlsGroup {
    ciphersuite: Ciphersuite,
    group_context: GroupContext,
    generation: u32,
    epoch_secrets: EpochSecrets,
    astree: ASTree,
    tree: RatchetTree,
    interim_transcript_hash: Vec<u8>,
}

impl MlsGroup {
    /// The group of its founder alone, at epoch 0. `tree_hash` is the
    /// caller's hash of the founder's tree: the digest of the hash input
    /// of its only leaf.
    pub fn new(
        id: &[u8],
        ciphersuite: Ciphersuite,
        key_package_bundle: KeyPackageBundle,
        tree_hash: Vec<u8>,
    ) -> (r: MlsGroup)
        ensures
            *r.get_ciphersuite() == ciphersuite,
            r.get_context()@ == (GroupContextView {
                group_id: id@,
                epoch: 0,
                tree_hash: tree_hash@,
                confirmed_transcript_hash: Seq::empty(),
            }),
            r.get_tree().wf(),
            r.get_tree().has_own_leaf(),
            r.get_tree().node_views() == seq![
                NodeView::leaf(Some(key_package_bundle@.key_package)),
            ],
            r.get_tree().own_leaf@ == (OwnLeafView {
                kpb: key_package_bundle@,
                node_index: NodeIndex(0),
                path_keypairs: Seq::empty(),
            }),
            r.get_epoch_secrets()@ == EpochSecretsView::empty(),
            r.get_astree()@ == (ASTreeView {
                application_secret: Seq::empty(),
                ratchets: seq![None::<SenderRatchetView>],
            }),
            r.get_interim_transcript_hash()@ == Seq::<u8>::empty(),
    {
        let group_id = GroupId { value: copy_bytes(id) };
        let epoch_secrets = EpochSecrets::new();
        let astree = ASTree::new(epoch_secrets.application_secret.as_slice(), LeafIndex(1));
        assert(astree@.ratchets =~= seq![None::<SenderRatchetView>]);
        let tree = RatchetTree::new(ciphersuite, key_package_bundle);
        let group_context = GroupContext {
            group_id,
            epoch: GroupEpoch(0),
            tree_hash,
            confirmed_transcript_hash: Vec::new(),
        };
        MlsGroup {
            ciphersuite,
            group_context,
            generation: 0,
            epoch_secrets,
            astree,
            tree,
            interim_transcript_hash: Vec::new(),
        }
    }

    pub closed spec fn spec_tree(&self) -> &RatchetTree {
        &self.tree
    }

    pub closed spec fn spec_ciphersuite(&self) -> &Ciphersuite {
        &self.ciphersuite
    }

    pub closed spec fn spec_context(&self) -> &GroupContext {
        &self.group_context
    }

    pub closed spec fn spec_epoch_secrets(&self) -> &EpochSecrets {
        &self.epoch_secrets
    }

    pub closed spec fn spec_astree(&self) -> &ASTree {
        &self.astree
    }

    pub closed spec fn spec_interim_transcript_hash(&self) -> &Vec<u8> {
        &self.interim_transcript_hash
    }

    #[verifier::when_used_as_spec(spec_tree)]
    pub fn get_tree(&self) -> (r: &RatchetTree)
        ensures
            r == self.spec_tree(),
    {
        &self.tree
    }

    #[verifier::when_used_as_spec(spec_ciphersuite)]
    pub fn get_ciphersuite(&self) -> (r: &Ciphersuite)
        ensures
            r == self.spec_ciphersuite(),
    {
        &self.ciphersuite
    }

    #[verifier::when_used_as_spec(spec_context)]
    pub fn get_context(&self) -> (r: &GroupContext)
        ensures
            r == self.spec_context(),
    {
        &self.group_context
    }

    #[verifier::when_used_as_spec(spec_epoch_secrets)]
    pub fn get_epoch_secrets(&self) -> (r: &EpochSecrets)
        ensures
            r == self.spec_epoch_secrets(),
    {
        &self.epoch_secrets
    }

    #[verifier::when_used_as_spec(spec_astree)]
    pub fn get_astree(&self) -> (r: &ASTree)
        ensures
            r == self.spec_astree(),
    {
        &self.astree
    }

    #[verifier::when_used_as_spec(spec_interim_transcript_hash)]
    pub fn get_interim_transcript_hash(&self) -> (r: &Vec<u8>)
        ensures
            r == self.spec_interim_transcript_hash(),
    {
        &self.interim_transcript_hash
    }

    /// The member's own leaf, counted among the leaves.
    pub fn get_sender_index(&self) -> (r: LeafIndex)
        ensures
            r.0 as int == (self.get_tree().own_leaf.node_index.0 as int + 1) / 2,
    {
        self.tree.get_own_index().as_leaf_index()
    }

    /// The message of this member, in this epoch, that carries
    /// `content`; not signed yet.
    pub open spec fn spec_message(&self, aad: Seq<u8>, content: ContentView) -> MLSPlaintextView {
        MLSPlaintextView {
            group_id: self.get_context()@.group_id,
            epoch: self.get_context()@.epoch,
            sender: Sender {
                sender_type: SenderType::Member,
                sender: LeafIndex(((self.get_tree().own_leaf.node_index.0 as int + 1) / 2) as u32),
            },
            authenticated_data: aad,
            content,
            signature: Seq::empty(),
        }
    }

    fn message(&self, aad: &[u8], content: MLSPlaintextContentType) -> (r: MLSPlaintext)
        ensures
            r@ == self.spec_message(aad@, content@),
    {
        MLSPlaintext::new(self.get_sender_index(), aad, content, &self.group_context)
    }

    /// The proposal to add the owner of a key package, and the message
    /// that carries it. The caller signs the message.
    pub fn create_add_proposal(&self, aad: &[u8], joiner_key_package: KeyPackage) -> (r: (
        MLSPlaintext,
        Proposal,
    ))
        ensures
            r.1@ == ProposalView::Add(joiner_key_package@),
            r.0@ == self.spec_message(aad@, ContentView::Proposal(r.1@)),
    {
        let proposal = Proposal::Add(AddProposal { key_package: joiner_key_package });
        let content = MLSPlaintextContentType::Proposal(proposal.clone());
        (self.message(aad, content), proposal)
    }

    /// The proposal to replace the member's own key package, and the
    /// message that carries it. The caller signs the message.
    pub fn create_update_proposal(&self, aad: &[u8], key_package: KeyPackage) -> (r: (
        MLSPlaintext,
        Proposal,
    ))
        ensures
            r.1@ == ProposalView::Update(key_package@),
            r.0@ == self.spec_message(aad@, ContentView::Proposal(r.1@)),
    {
        let proposal = Proposal::Update(UpdateProposal { key_package });
        let content = MLSPlaintextContentType::Proposal(proposal.clone());
        (self.message(aad, content), proposal)
    }

    /// The proposal to remove the member at a leaf, and the message that
    /// carries it. The caller signs the message.
    pub fn create_remove_proposal(&self, aad: &[u8], removed_index: LeafIndex) -> (r: (
        MLSPlaintext,
        Proposal,
    ))
        ensures
            r.1@ == ProposalView::Remove(removed_index.0),
            r.0@ == self.spec_message(aad@, ContentView::Proposal(r.1@)),
    {
        let proposal = Proposal::Remove(RemoveProposal { removed: removed_index.as_u32() });
        let content = MLSPlaintextContentType::Proposal(proposal.clone());
        (self.message(aad, content), proposal)
    }

    /// The message that carries bytes of the application. The caller
    /// signs it.
    pub fn create_application_message(&self, aad: &[u8], msg: &[u8]) -> (r: MLSPlaintext)
        ensures
            r@ == self.spec_message(aad@, ContentView::Application(msg@)),
    {
        self.message(aad, MLSPlaintextContentType::Application(copy_bytes(msg)))
    }

    /// What the member derives to encrypt its next message: the newest
    /// generation of the sender, and what its ratchet asks for to give
    /// key and nonce of that generation.
    pub fn encrypt(&self, mls_plaintext: &MLSPlaintext) -> (r: Result<
        (u32, SecretRequest),
        ASError,
    >)
        ensures
            match self.get_astree()@.get_secret(
                *self.get_ciphersuite(),
                mls_plaintext@.sender.sender,
                self.get_astree()@.generation(mls_plaintext@.sender.sender),
            ) {
                Ok(request) => r.is_ok() && r.unwrap().0 == self.get_astree()@.generation(
                    mls_plaintext@.sender.sender,
                ) && r.unwrap().1@ == request,
                Err(e) => r.is_err() && r.unwrap_err() == e,
            },
    {
        let generation = self.astree.get_generation(mls_plaintext.sender.sender);
        match self.astree.get_secret(&self.ciphersuite, mls_plaintext.sender.sender, generation) {
            Ok(request) => Ok((generation, request)),
            Err(e) => Err(e),
        }
    }

    /// Hands in a secret that the caller has derived for a sender's
    /// ratchet: its first where the sender has none yet, else its next.
    /// Returns whether it was taken.
    pub fn advance_ratchet(&mut self, sender: LeafIndex, secret: Vec<u8>) -> (r: bool)
        ensures
            final(self).get_astree()@ == (if sender.0 < old(self).get_astree()@.ratchets.len()
                && old(self).get_astree()@.ratchets[sender.0 as int].is_none() {
                old(self).get_astree()@.seed(sender, secret@)
            } else {
                old(self).get_astree()@.ratchet(sender, secret@)
            }),
            r == (sender.0 < old(self).get_astree()@.ratchets.len() && (old(self).get_astree()@.ratchets[sender.0 as int].is_none() || old(self).get_astree()@.ratchets[sender.0 as int].unwrap().generation < u32::MAX)),
            final(self).get_tree() == old(self).get_tree(),
            final(self).get_context() == old(self).get_context(),
            final(self).get_ciphersuite() == old(self).get_ciphersuite(),
            final(self).get_epoch_secrets() == old(self).get_epoch_secrets(),
    {
        if self.astree.seed(sender, secret.as_slice()) {
            true
        } else {
            self.astree.ratchet(sender, secret)
        }
    }

    /// The credentials of the members, leaf by leaf, against which the
    /// sender of a decrypted message is checked. None where a leaf of the
    /// tree is blank or the tree is malformed.
    pub fn roster(&self) -> (r: Option<Vec<Credential>>)
        ensures
            match r {
                Some(credentials) => self.get_tree().nodes@.len() % 2 == 1
                    && credentials@.len() == (self.get_tree().nodes@.len() + 1) / 2 && forall|
                    i: int,
                |
                    0 <= i < credentials@.len() ==> self.get_tree().node_views()[2
                        * i].key_package.is_some() && (#[trigger] credentials@[i])@
                        == self.get_tree().node_views()[2 * i].key_package.unwrap().credential,
                None => self.get_tree().nodes@.len() % 2 == 0 || exists|i: int|
                    0 <= 2 * i < self.get_tree().nodes@.len() && (
                    #[trigger] self.get_tree().node_views()[2 * i]).key_package.is_none(),
            },
    {
        let total: usize = self.tree.nodes.len();
        if total % 2 != 1 {
            return None;
        }
        let count: usize = total / 2 + 1;
        let ghost nodes = self.get_tree().node_views();
        let mut roster: Vec<Credential> = Vec::new();
        let mut i: usize = 0;
        while i < count
            invariant
                i <= count,
                total == self.tree.nodes@.len(),
                total % 2 == 1,
                count == total / 2 + 1,
                nodes == self.tree.node_views(),
                nodes == self.get_tree().node_views(),
                roster@.len() == i,
                forall|j: int|
                    0 <= j < i ==> nodes[2 * j].key_package.is_some() && (#[trigger] roster@[j])@
                        == nodes[2 * j].key_package.unwrap().credential,
            decreases count - i,
        {
            assert(nodes[2 * i] == self.tree.nodes@[2 * i]@);
            match &self.tree.nodes[2 * i].key_package {
                Some(kp) => {
                    roster.push(kp.get_credential().clone());
                },
                None => {
                    assert(0 <= 2 * (i as int) < nodes.len() && nodes[2 * (i as int)].key_package.is_none());
                    return None;
                },
            }
            i += 1;
        }
        Some(roster)
    }

    /// Whether a message belongs to the epoch that the group is in. A
    /// message of an earlier epoch is stale, one of a later epoch is
    /// ahead; either way the member has to catch up another way.
    pub fn check_epoch(&self, mls_plaintext: &MLSPlaintext) -> (r: Result<(), GroupError>)
        ensures
            mls_plaintext@.epoch == self.get_context()@.epoch ==> r.is_ok(),
            mls_plaintext@.epoch < self.get_context()@.epoch ==> r == Err::<(), GroupError>(
                GroupError::StaleEpoch,
            ),
            mls_plaintext@.epoch > self.get_context()@.epoch ==> r == Err::<(), GroupError>(
                GroupError::FutureEpoch,
            ),
    {
        if mls_plaintext.epoch.0 < self.group_context.epoch.0 {
            Err(GroupError::StaleEpoch)
        } else if mls_plaintext.epoch.0 > self.group_context.epoch.0 {
            Err(GroupError::FutureEpoch)
        } else {
            Ok(())
        }
    }

    /// Moves the group to the epoch that a commit opens: with the tree
    /// after the commit, the context and the secrets of the new epoch,
    /// and fresh ratchets, one for each leaf, that start from the new
    /// application secret. Refused, and nothing changed, unless the
    /// context is of the same group and of the next epoch, and the tree
    /// has the shape of a tree.
    pub fn install_epoch(
        &mut self,
        tree: RatchetTree,
        group_context: GroupContext,
        epoch_secrets: EpochSecrets,
        interim_transcript_hash: Vec<u8>,
    ) -> (r: Result<(), GroupError>)
        ensures
            final(self).get_ciphersuite() == old(self).get_ciphersuite(),
            if !(group_context@.group_id == old(self).get_context()@.group_id
                && group_context@.epoch == old(self).get_context()@.epoch + 1) {
                r.is_err() && r.unwrap_err() == GroupError::WrongEpoch && *final(self) == *old(self)
            } else if !tree.wf() {
                r.is_err() && r.unwrap_err() == GroupError::MalformedTree && *final(self) == *old(self)
            } else {
                r.is_ok() && *final(self).get_tree() == tree && final(self).get_context()@
                    == group_context@ && final(self).get_epoch_secrets()@ == epoch_secrets@
                    && final(self).get_interim_transcript_hash()@ == interim_transcript_hash@
                    && final(self).get_astree()@ == (ASTreeView {
                    application_secret: epoch_secrets@.application_secret,
                    ratchets: Seq::new(
                        ((tree.nodes@.len() + 1) / 2) as nat,
                        |i: int| None::<SenderRatchetView>,
                    ),
                })
            },
    {
        if self.group_context.epoch.0 == u64::MAX || group_context.epoch.0
            != self.group_context.epoch.0 + 1 || !crate::codec::bytes_eq(
            group_context.group_id.value.as_slice(),
            self.group_context.group_id.value.as_slice(),
        ) {
            return Err(GroupError::WrongEpoch);
        }
        if !RatchetTree::check_shape(&tree.nodes) {
            return Err(GroupError::MalformedTree);
        }
        let size = tree.leaf_count();
        self.astree = ASTree::new(epoch_secrets.application_secret.as_slice(), size);
        self.tree = tree;
        self.group_context = group_context;
        self.epoch_secrets = epoch_secrets;
        self.interim_transcript_hash = interim_transcript_hash;
        Ok(())
    }
}

/// Why a message or an epoch was refused.
#[derive(Clone, Copy, Debug, PartialEq, Eq, Structural)]
pub enum GroupError {
    /// The message is of an epoch that has passed.
    StaleEpoch,
    /// The message is of an epoch that the member has not reached.
    FutureEpoch,
    /// The context is not of the next epoch of this group.
    WrongEpoch,
    /// The tree does not have the shape of a tree.
    MalformedTree,
}

/// What is hashed for the confirmed transcript hash of a commit: the
/// interim transcript hash of the epoch, then the commit's content as it
/// stands on the wire.
pub fn update_confirmed_transcript_hash(
    mls_plaintext_commit_content: &[u8],
    interim_transcript_hash: &[u8],
) -> (r: Vec<u8>)
    ensures
        r@ == interim_transcript_hash@ + mls_plaintext_commit_content@,
{
    let mut r = copy_bytes(interim_transcript_hash);
    append_bytes(&mut r, mls_plaintext_commit_content);
    r
}

/// What is hashed for the interim transcript hash after a commit: the
/// confirmed transcript hash, then what authenticates the commit as it
/// stands on the wire.
pub fn update_interim_transcript_hash(
    mls_plaintext_commit_auth_data: &[u8],
    confirmed_transcript_hash: &[u8],
) -> (r: Vec<u8>)
    ensures
        r@ == confirmed_transcript_hash@ + mls_plaintext_commit_auth_data@,
{
    let mut r = copy_bytes(confirmed_transcript_hash);
    append_bytes(&mut r, mls_plaintext_commit_auth_data);
    r
}

/// How key and nonce of a welcome are derived from the joiner secret:
/// the joiner secret is expanded under `secret_info` to the welcome
/// secret, and that under `key_info` and `nonce_info` to key and nonce.
#[derive(Debug)]
pub struct WelcomeLabels {
    pub secret_info: Vec<u8>,
    pub secret_length: usize,
    pub key_info: Vec<u8>,
    pub key_length: usize,
    pub nonce_info: Vec<u8>,
    pub nonce_length: usize,
}

/// The `info` and the lengths of the three expansions that give key and
/// nonce of a welcome.
pub fn compute_welcome_key_nonce(ciphersuite: &Ciphersuite) -> (r: WelcomeLabels)
    ensures
        r.secret_info@ == "mls 1.0 welcome".spec_bytes(),
        r.secret_length == ciphersuite.spec_hash_length(),
        r.key_info@ == "key".spec_bytes(),
        r.key_length == ciphersuite.spec_aead_key_length(),
        r.nonce_info@ == "nonce".spec_bytes(),
        r.nonce_length == ciphersuite.spec_aead_nonce_length(),
{
    WelcomeLabels {
        secret_info: copy_bytes("mls 1.0 welcome".as_bytes()),
        secret_length: ciphersuite.hash_length(),
        key_info: copy_bytes("key".as_bytes()),
        key_length: ciphersuite.aead_key_length(),
        nonce_info: copy_bytes("nonce".as_bytes()),
        nonce_length: ciphersuite.aead_nonce_length(),
    }
}

} // verus!
