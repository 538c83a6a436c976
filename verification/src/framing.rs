use vstd::prelude::*;
use crate::ciphersuite::Signature;
use crate::codec::{
    append_bytes, copy_bytes, encode_u32, encode_u64, encode_u8, encode_vec, lemma_parse_u32,
    lemma_parse_u64, lemma_parse_u8, lemma_parse_vec, spec_parse_u32, spec_parse_u64,
    spec_parse_u8, spec_parse_vec, spec_u32, spec_u64, spec_u8, spec_vec, CodecError, Cursor,
    VecSize,
};
use crate::group::{GroupContext, GroupContextView, GroupEpoch, GroupId};
use crate::messages::proposals::{lemma_proposal_round_trip, Proposal, ProposalView};
use crate::messages::{lemma_commit_round_trip, Commit, CommitView};
use crate::tree::index::{LeafIndex, NodeIndex};

verus! {

/// Kind of a message's sender.
#[derive(Clone, Copy, Debug, PartialEq, Eq, Structural)]
pub enum SenderType {
    Invalid,
    Member,
    Preconfigured,
    NewMember,
    /// Any kind that the protocol does not name.
    Default,
}

impl SenderType {
    pub open spec fn spec_to_u8(self) -> u8 {
        match self {
            SenderType::Invalid => 0,
            SenderType::Member => 1,
            SenderType::Preconfigured => 2,
            SenderType::NewMember => 3,
            SenderType::Default => 255,
        }
    }

    pub open spec fn spec_from_u8(v: u8) -> SenderType {
        if v == 0 {
            SenderType::Invalid
        } else if v == 1 {
            SenderType::Member
        } else if v == 2 {
            SenderType::Preconfigured
        } else if v == 3 {
            SenderType::NewMember
        } else {
            SenderType::Default
        }
    }

    /// The kind's number on the wire.
    pub fn to_u8(&self) -> (r: u8)
        ensures
            r == self.spec_to_u8(),
    {
        match self {
            SenderType::Invalid => 0,
            SenderType::Member => 1,
            SenderType::Preconfigured => 2,
            SenderType::NewMember => 3,
            SenderType::Default => 255,
        }
    }

    /// The kind that a number names; `Default` for an unknown number.
    pub fn from_u8(v: u8) -> (r: SenderType)
        ensures
            r == SenderType::spec_from_u8(v),
    {
        match v {
            0 => SenderType::Invalid,
            1 => SenderType::Member,
            2 => SenderType::Preconfigured,
            3 => SenderType::NewMember,
            _ => SenderType::Default,
        }
    }
}

/// Who sent a message: the kind of sender and, for a member, its leaf.
#[derive(Clone, Copy, Debug, PartialEq, Eq, Structural)]
pub struct Sender {
    pub sender_type: SenderType,
    pub sender: LeafIndex,
}

impl Sender {
    /// The sender on the wire: its kind, then its leaf in four bytes.
    pub open spec fn wire(self) -> Seq<u8> {
        spec_u8(self.sender_type.spec_to_u8()) + spec_u32(self.sender.0)
    }

    /// The sender that a byte string starts with, and what follows it.
    pub open spec fn parse(s: Seq<u8>) -> Option<(Sender, Seq<u8>)> {
        match spec_parse_u8(s) {
            Some((kind, r1)) => match spec_parse_u32(r1) {
                Some((leaf, r2)) => Some(
                    (
                        Sender {
                            sender_type: SenderType::spec_from_u8(kind),
                            sender: LeafIndex(leaf),
                        },
                        r2,
                    ),
                ),
                None => None,
            },
            None => None,
        }
    }

    /// Reads a sender; fails where the bytes end early.
    pub fn decode(cursor: &mut Cursor) -> (r: Result<Sender, CodecError>)
        ensures
            match Sender::parse(old(cursor).remaining()) {
                Some((sender, rest)) => r == Ok::<Sender, CodecError>(sender) && final(cursor).remaining() == rest,
                None => r == Err::<Sender, CodecError>(CodecError::DecodingError),
            },
    {
        let kind = match cursor.decode_u8() {
            Ok(v) => v,
            Err(e) => {
                return Err(e);
            },
        };
        let leaf = match cursor.decode_u32() {
            Ok(v) => v,
            Err(e) => {
                return Err(e);
            },
        };
        Ok(Sender { sender_type: SenderType::from_u8(kind), sender: LeafIndex(leaf) })
    }

    /// The member at leaf `sender`.
    pub fn member(sender: LeafIndex) -> (r: Sender)
        ensures
            r == (Sender { sender_type: SenderType::Member, sender }),
    {
        Sender { sender_type: SenderType::Member, sender }
    }

    /// The sender's leaf as a position in the tree; none where twice the
    /// leaf's rank does not fit in 32 bits.
    pub fn as_node_index(&self) -> (r: Option<NodeIndex>)
        ensures
            2 * self.sender.0 <= u32::MAX ==> r == Some(NodeIndex((2 * self.sender.0) as u32)),
            2 * self.sender.0 > u32::MAX ==> r.is_none(),
    {
        self.sender.as_node_index()
    }

    pub fn encode(&self, buffer: &mut Vec<u8>)
        ensures
            final(buffer)@ == old(buffer)@ + self.wire(),
    {
        encode_u8(buffer, self.sender_type.to_u8());
        encode_u32(buffer, self.sender.0);
        assert(buffer@ =~= old(buffer)@ + self.wire());
    }
}


/// Reading a sender that was written gives it back.
pub proof fn lemma_sender_round_trip(sender: Sender, rest: Seq<u8>)
    ensures
        Sender::parse(sender.wire() + rest) == Some((sender, rest)),
{
    let r1 = spec_u32(sender.sender.0) + rest;
    assert(sender.wire() + rest =~= spec_u8(sender.sender_type.spec_to_u8()) + r1);
    lemma_parse_u8(sender.sender_type.spec_to_u8(), r1);
    lemma_parse_u32(sender.sender.0, rest);
}


/// Kind of what a message carries.
#[derive(Clone, Copy, Debug, PartialEq, Eq, Structural)]
pub enum ContentType {
    Invalid,
    Application,
    Proposal,
    Commit,
    /// Any kind that the protocol does not name.
    Default,
}

impl ContentType {
    pub open spec fn spec_to_u8(self) -> u8 {
        match self {
            ContentType::Invalid => 0,
            ContentType::Application => 1,
            ContentType::Proposal => 2,
            ContentType::Commit => 3,
            ContentType::Default => 255,
        }
    }

    pub open spec fn spec_from_u8(v: u8) -> ContentType {
        if v == 0 {
            ContentType::Invalid
        } else if v == 1 {
            ContentType::Application
        } else if v == 2 {
            ContentType::Proposal
        } else if v == 3 {
            ContentType::Commit
        } else {
            ContentType::Default
        }
    }

    /// The kind's number on the wire.
    pub fn to_u8(&self) -> (r: u8)
        ensures
            r == self.spec_to_u8(),
    {
        match self {
            ContentType::Invalid => 0,
            ContentType::Application => 1,
            ContentType::Proposal => 2,
            ContentType::Commit => 3,
            ContentType::Default => 255,
        }
    }

    /// The kind that a number names; `Default` for an unknown number.
    pub fn from_u8(v: u8) -> (r: ContentType)
        ensures
            r == ContentType::spec_from_u8(v),
    {
        match v {
            0 => ContentType::Invalid,
            1 => ContentType::Application,
            2 => ContentType::Proposal,
            3 => ContentType::Commit,
            _ => ContentType::Default,
        }
    }
}

/// What a message carries: the bytes of the application, a proposal, or a
/// commit with the tag that confirms it.
#[derive(Debug)]
pub enum MLSPlaintextContentType {
    Application(Vec<u8>),
    Proposal(Proposal),
    Commit(Commit, Vec<u8>),
}

pub enum ContentView {
    Application(Seq<u8>),
    Proposal(ProposalView),
    Commit(CommitView, Seq<u8>),
}

impl View for MLSPlaintextContentType {
    type V = ContentView;

    open spec fn view(&self) -> ContentView {
        match self {
            MLSPlaintextContentType::Application(bytes) => ContentView::Application(bytes@),
            MLSPlaintextContentType::Proposal(proposal) => ContentView::Proposal(proposal@),
            MLSPlaintextContentType::Commit(commit, tag) => ContentView::Commit(commit@, tag@),
        }
    }
}

impl ContentView {
    /// The kind of the content.
    pub open spec fn content_type(self) -> ContentType {
        match self {
            ContentView::Application(bytes) => ContentType::Application,
            ContentView::Proposal(proposal) => ContentType::Proposal,
            ContentView::Commit(commit, tag) => ContentType::Commit,
        }
    }

    /// Whether the content can be written.
    pub open spec fn encodable(self) -> bool {
        match self {
            ContentView::Application(bytes) => bytes.len() <= 0xffff_ffff,
            ContentView::Proposal(proposal) => proposal.encodable(),
            ContentView::Commit(commit, tag) => commit.encodable() && tag.len() <= 0xff,
        }
    }

    /// The content on the wire, behind its kind: the bytes of the
    /// application behind a four-byte length; a proposal; or a commit and
    /// its tag behind a one-byte length.
    pub open spec fn wire(self) -> Seq<u8> {
        spec_u8(self.content_type().spec_to_u8()) + match self {
            ContentView::Application(bytes) => spec_vec(VecSize::VecU32, bytes),
            ContentView::Proposal(proposal) => proposal.wire(),
            ContentView::Commit(commit, tag) => commit.wire() + spec_vec(VecSize::VecU8, tag),
        }
    }
}

impl ContentView {
    /// The content that a byte string starts with, and what follows it.
    pub open spec fn parse(s: Seq<u8>) -> Option<(ContentView, Seq<u8>)> {
        match spec_parse_u8(s) {
            Some((kind, r1)) => if kind == 1 {
                match spec_parse_vec(VecSize::VecU32, r1) {
                    Some((bytes, r2)) => Some((ContentView::Application(bytes), r2)),
                    None => None,
                }
            } else if kind == 2 {
                match ProposalView::parse(r1) {
                    Some((proposal, r2)) => Some((ContentView::Proposal(proposal), r2)),
                    None => None,
                }
            } else if kind == 3 {
                match CommitView::parse(r1) {
                    Some((commit, r2)) => match spec_parse_vec(VecSize::VecU8, r2) {
                        Some((tag, r3)) => Some((ContentView::Commit(commit, tag), r3)),
                        None => None,
                    },
                    None => None,
                }
            } else {
                None
            },
            None => None,
        }
    }

    /// Whether every identifier that the content names has at least 32
    /// bytes.
    pub open spec fn ids_long_enough(self) -> bool {
        match self {
            ContentView::Commit(commit, tag) => commit.ids_long_enough(),
            _ => true,
        }
    }
}

/// Reading content that was written gives it back.
pub proof fn lemma_content_round_trip(c: ContentView, rest: Seq<u8>)
    requires
        c.encodable(),
        c.ids_long_enough(),
    ensures
        ContentView::parse(c.wire() + rest) == Some((c, rest)),
{
    match c {
        ContentView::Application(bytes) => {
            let r1 = spec_vec(VecSize::VecU32, bytes) + rest;
            assert(c.wire() + rest =~= spec_u8(1) + r1);
            lemma_parse_u8(1, r1);
            lemma_parse_vec(VecSize::VecU32, bytes, rest);
        },
        ContentView::Proposal(proposal) => {
            let r1 = proposal.wire() + rest;
            assert(c.wire() + rest =~= spec_u8(2) + r1);
            lemma_parse_u8(2, r1);
            lemma_proposal_round_trip(proposal, rest);
        },
        ContentView::Commit(commit, tag) => {
            let r2 = spec_vec(VecSize::VecU8, tag) + rest;
            let r1 = commit.wire() + r2;
            assert(c.wire() + rest =~= spec_u8(3) + r1);
            lemma_parse_u8(3, r1);
            lemma_commit_round_trip(commit, r2);
            lemma_parse_vec(VecSize::VecU8, tag, rest);
        },
    }
}

impl MLSPlaintextContentType {
    /// Reads content; fails where the bytes end early or name no kind of
    /// content.
    pub fn decode(cursor: &mut Cursor) -> (r: Result<MLSPlaintextContentType, CodecError>)
        ensures
            match ContentView::parse(old(cursor).remaining()) {
                Some((c, rest)) => r.is_ok() && r.unwrap()@ == c && final(cursor).remaining()
                    == rest,
                None => r.is_err() && r.unwrap_err() == CodecError::DecodingError,
            },
    {
        let kind = match cursor.decode_u8() {
            Ok(v) => v,
            Err(e) => {
                return Err(e);
            },
        };
        match ContentType::from_u8(kind) {
            ContentType::Application => match cursor.decode_vec(VecSize::VecU32) {
                Ok(bytes) => Ok(MLSPlaintextContentType::Application(bytes)),
                Err(e) => Err(e),
            },
            ContentType::Proposal => match Proposal::decode(cursor) {
                Ok(proposal) => Ok(MLSPlaintextContentType::Proposal(proposal)),
                Err(e) => Err(e),
            },
            ContentType::Commit => {
                let commit = match Commit::decode(cursor) {
                    Ok(c) => c,
                    Err(e) => {
                        return Err(e);
                    },
                };
                match cursor.decode_vec(VecSize::VecU8) {
                    Ok(tag) => Ok(MLSPlaintextContentType::Commit(commit, tag)),
                    Err(e) => Err(e),
                }
            },
            _ => Err(CodecError::DecodingError),
        }
    }

    /// The content as it stands on the wire; fails where a part cannot be
    /// written.
    pub fn encode_detached(&self) -> (r: Result<Vec<u8>, CodecError>)
        ensures
            self@.encodable() ==> r.is_ok() && r.unwrap()@ == self@.wire(),
            !self@.encodable() ==> r.is_err() && r.unwrap_err() == CodecError::EncodingError,
    {
        let mut buffer: Vec<u8> = Vec::new();
        match self {
            MLSPlaintextContentType::Application(bytes) => {
                encode_u8(&mut buffer, 1);
                match encode_vec(VecSize::VecU32, &mut buffer, bytes.as_slice()) {
                    Ok(()) => {},
                    Err(e) => {
                        return Err(e);
                    },
                }
            },
            MLSPlaintextContentType::Proposal(proposal) => {
                encode_u8(&mut buffer, 2);
                match proposal.encode(&mut buffer) {
                    Ok(()) => {},
                    Err(e) => {
                        return Err(e);
                    },
                }
            },
            MLSPlaintextContentType::Commit(commit, tag) => {
                encode_u8(&mut buffer, 3);
                let bytes = match commit.encode_detached() {
                    Ok(bytes) => bytes,
                    Err(e) => {
                        return Err(e);
                    },
                };
                append_bytes(&mut buffer, bytes.as_slice());
                match encode_vec(VecSize::VecU8, &mut buffer, tag.as_slice()) {
                    Ok(()) => {},
                    Err(e) => {
                        return Err(e);
                    },
                }
            },
        }
        assert(buffer@ =~= self@.wire());
        Ok(buffer)
    }
}

/// A message of the group before it is encrypted: the group and epoch it
/// belongs to, who sent it, data that is authenticated with it, what it
/// carries, and the sender's signature.
#[derive(Debug)]
pub struct MLSPlaintext {
    pub group_id: GroupId,
    pub epoch: GroupEpoch,
    pub sender: Sender,
    pub authenticated_data: Vec<u8>,
    pub content: MLSPlaintextContentType,
    pub signature: Signature,
}

pub struct MLSPlaintextView {
    pub group_id: Seq<u8>,
    pub epoch: u64,
    pub sender: Sender,
    pub authenticated_data: Seq<u8>,
    pub content: ContentView,
    pub signature: Seq<u8>,
}

impl View for MLSPlaintext {
    type V = MLSPlaintextView;

    open spec fn view(&self) -> MLSPlaintextView {
        MLSPlaintextView {
            group_id: self.group_id@,
            epoch: self.epoch.0,
            sender: self.sender,
            authenticated_data: self.authenticated_data@,
            content: self.content@,
            signature: self.signature@,
        }
    }
}

impl MLSPlaintextView {
    /// Whether everything that is signed can be written.
    pub open spec fn signable(self) -> bool {
        self.group_id.len() <= 0xff && self.authenticated_data.len() <= 0xffff_ffff
            && self.content.encodable()
    }

    /// The message without its signature, as it stands on the wire.
    pub open spec fn unsigned_wire(self) -> Seq<u8> {
        spec_vec(VecSize::VecU8, self.group_id) + spec_u64(self.epoch) + self.sender.wire()
            + spec_vec(VecSize::VecU32, self.authenticated_data) + self.content.wire()
    }

    /// What the signature covers: the context of the group, then the
    /// message without its signature.
    pub open spec fn to_be_signed(self, context: GroupContextView) -> Seq<u8> {
        context.wire() + self.unsigned_wire()
    }

    /// The message on the wire.
    pub open spec fn wire(self) -> Seq<u8> {
        self.unsigned_wire() + spec_vec(VecSize::VecU16, self.signature)
    }

    /// What a commit adds to the confirmed transcript: the group, the
    /// epoch, the sender and the commit, as they stand on the wire.
    pub open spec fn commit_content(self) -> Option<Seq<u8>> {
        match self.content {
            ContentView::Commit(commit, tag) => Some(
                spec_vec(VecSize::VecU8, self.group_id) + spec_u64(self.epoch) + self.sender.wire()
                    + spec_u8(ContentType::Commit.spec_to_u8()) + commit.wire(),
            ),
            _ => None,
        }
    }

    /// What a commit adds to the interim transcript: the tag that
    /// confirms it behind a one-byte length, and its signature behind a
    /// two-byte length.
    pub open spec fn commit_auth_data(self) -> Option<Seq<u8>> {
        match self.content {
            ContentView::Commit(commit, tag) => Some(
                spec_vec(VecSize::VecU8, tag) + spec_vec(VecSize::VecU16, self.signature),
            ),
            _ => None,
        }
    }

    /// Whether the message is a commit whose content can be written.
    pub open spec fn commit_writable(self) -> bool {
        self.content matches ContentView::Commit(commit, tag) && commit.encodable()
            && self.group_id.len() <= 0xff
    }

    /// Whether the message is a commit whose tag and signature can be
    /// written.
    pub open spec fn auth_writable(self) -> bool {
        self.content matches ContentView::Commit(commit, tag) && tag.len() <= 0xff
            && self.signature.len() <= 0xffff
    }
}

impl MLSPlaintextView {
    /// The message that a byte string starts with, and what follows it.
    pub open spec fn parse(s: Seq<u8>) -> Option<(MLSPlaintextView, Seq<u8>)> {
        match spec_parse_vec(VecSize::VecU8, s) {
            Some((group_id, r1)) => match spec_parse_u64(r1) {
                Some((epoch, r2)) => match Sender::parse(r2) {
                    Some((sender, r3)) => match spec_parse_vec(VecSize::VecU32, r3) {
                        Some((authenticated_data, r4)) => match ContentView::parse(r4) {
                            Some((content, r5)) => match spec_parse_vec(VecSize::VecU16, r5) {
                                Some((signature, r6)) => Some(
                                    (
                                        MLSPlaintextView {
                                            group_id,
                                            epoch,
                                            sender,
                                            authenticated_data,
                                            content,
                                            signature,
                                        },
                                        r6,
                                    ),
                                ),
                                None => None,
                            },
                            None => None,
                        },
                        None => None,
                    },
                    None => None,
                },
                None => None,
            },
            None => None,
        }
    }
}

/// Reading a message that was written gives it back.
pub proof fn lemma_plaintext_round_trip(m: MLSPlaintextView, rest: Seq<u8>)
    requires
        m.signable(),
        m.signature.len() <= 0xffff,
        m.content.ids_long_enough(),
    ensures
        MLSPlaintextView::parse(m.wire() + rest) == Some((m, rest)),
{
    let r5 = spec_vec(VecSize::VecU16, m.signature) + rest;
    let r4 = m.content.wire() + r5;
    let r3 = spec_vec(VecSize::VecU32, m.authenticated_data) + r4;
    let r2 = m.sender.wire() + r3;
    let r1 = spec_u64(m.epoch) + r2;
    assert(m.wire() + rest =~= spec_vec(VecSize::VecU8, m.group_id) + r1);
    lemma_parse_vec(VecSize::VecU8, m.group_id, r1);
    lemma_parse_u64(m.epoch, r2);
    lemma_sender_round_trip(m.sender, r3);
    lemma_parse_vec(VecSize::VecU32, m.authenticated_data, r4);
    lemma_content_round_trip(m.content, r5);
    lemma_parse_vec(VecSize::VecU16, m.signature, rest);
}

impl MLSPlaintext {
    /// Reads a message; fails where the bytes end early or do not hold a
    /// message.
    pub fn decode(cursor: &mut Cursor) -> (r: Result<MLSPlaintext, CodecError>)
        ensures
            match MLSPlaintextView::parse(old(cursor).remaining()) {
                Some((m, rest)) => r.is_ok() && r.unwrap()@ == m && final(cursor).remaining()
                    == rest,
                None => r.is_err() && r.unwrap_err() == CodecError::DecodingError,
            },
    {
        let group_id = match cursor.decode_vec(VecSize::VecU8) {
            Ok(v) => v,
            Err(e) => {
                return Err(e);
            },
        };
        let epoch = match cursor.decode_u64() {
            Ok(v) => v,
            Err(e) => {
                return Err(e);
            },
        };
        let sender = match Sender::decode(cursor) {
            Ok(v) => v,
            Err(e) => {
                return Err(e);
            },
        };
        let authenticated_data = match cursor.decode_vec(VecSize::VecU32) {
            Ok(v) => v,
            Err(e) => {
                return Err(e);
            },
        };
        let content = match MLSPlaintextContentType::decode(cursor) {
            Ok(v) => v,
            Err(e) => {
                return Err(e);
            },
        };
        let signature = match cursor.decode_vec(VecSize::VecU16) {
            Ok(v) => v,
            Err(e) => {
                return Err(e);
            },
        };
        Ok(
            MLSPlaintext {
                group_id: GroupId { value: group_id },
                epoch: GroupEpoch(epoch),
                sender,
                authenticated_data,
                content,
                signature: Signature::new(signature),
            },
        )
    }

    /// A message of the group and epoch of `context`, not signed yet: its
    /// signature is empty.
    pub fn new(
        sender: LeafIndex,
        authenticated_data: &[u8],
        content: MLSPlaintextContentType,
        context: &GroupContext,
    ) -> (r: MLSPlaintext)
        ensures
            r@ == (MLSPlaintextView {
                group_id: context@.group_id,
                epoch: context@.epoch,
                sender: Sender { sender_type: SenderType::Member, sender },
                authenticated_data: authenticated_data@,
                content: content@,
                signature: Seq::empty(),
            }),
    {
        MLSPlaintext {
            group_id: context.group_id.clone(),
            epoch: context.epoch,
            sender: Sender::member(sender),
            authenticated_data: copy_bytes(authenticated_data),
            content,
            signature: Signature::new(Vec::new()),
        }
    }

    /// Puts the sender's signature under the message. The signature is the
    /// caller's, made over `to_be_signed`.
    pub fn set_signature(&mut self, signature: Signature)
        ensures
            final(self)@ == (MLSPlaintextView { signature: signature@, ..old(self)@ }),
    {
        self.signature = signature;
    }

    fn unsigned(&self) -> (r: Result<Vec<u8>, CodecError>)
        ensures
            self@.signable() ==> r.is_ok() && r.unwrap()@ == self@.unsigned_wire(),
            !self@.signable() ==> r.is_err() && r.unwrap_err() == CodecError::EncodingError,
    {
        let mut buffer: Vec<u8> = Vec::new();
        match encode_vec(VecSize::VecU8, &mut buffer, self.group_id.value.as_slice()) {
            Ok(()) => {},
            Err(e) => {
                return Err(e);
            },
        }
        encode_u64(&mut buffer, self.epoch.0);
        self.sender.encode(&mut buffer);
        match encode_vec(VecSize::VecU32, &mut buffer, self.authenticated_data.as_slice()) {
            Ok(()) => {},
            Err(e) => {
                return Err(e);
            },
        }
        let content = match self.content.encode_detached() {
            Ok(bytes) => bytes,
            Err(e) => {
                return Err(e);
            },
        };
        append_bytes(&mut buffer, content.as_slice());
        assert(buffer@ =~= self@.unsigned_wire());
        Ok(buffer)
    }

    /// What the commit adds to the confirmed transcript. Fails where the
    /// message is no commit or cannot be written.
    pub fn commit_content(&self) -> (r: Result<Vec<u8>, CodecError>)
        ensures
            self@.commit_writable() ==> r.is_ok() && Some(r.unwrap()@) == self@.commit_content(),
            !self@.commit_writable() ==> r.is_err() && r.unwrap_err() == CodecError::EncodingError,
    {
        let commit = match &self.content {
            MLSPlaintextContentType::Commit(commit, tag) => commit,
            _ => {
                return Err(CodecError::EncodingError);
            },
        };
        let mut buffer: Vec<u8> = Vec::new();
        match encode_vec(VecSize::VecU8, &mut buffer, self.group_id.value.as_slice()) {
            Ok(()) => {},
            Err(e) => {
                return Err(e);
            },
        }
        encode_u64(&mut buffer, self.epoch.0);
        self.sender.encode(&mut buffer);
        encode_u8(&mut buffer, 3);
        let bytes = match commit.encode_detached() {
            Ok(bytes) => bytes,
            Err(e) => {
                return Err(e);
            },
        };
        append_bytes(&mut buffer, bytes.as_slice());
        assert(buffer@ =~= self@.commit_content().unwrap());
        Ok(buffer)
    }

    /// What the commit adds to the interim transcript. Fails where the
    /// message is no commit or tag or signature cannot be written.
    pub fn commit_auth_data(&self) -> (r: Result<Vec<u8>, CodecError>)
        ensures
            self@.auth_writable() ==> r.is_ok() && Some(r.unwrap()@) == self@.commit_auth_data(),
            !self@.auth_writable() ==> r.is_err() && r.unwrap_err() == CodecError::EncodingError,
    {
        let tag = match &self.content {
            MLSPlaintextContentType::Commit(commit, tag) => tag,
            _ => {
                return Err(CodecError::EncodingError);
            },
        };
        let mut buffer: Vec<u8> = Vec::new();
        match encode_vec(VecSize::VecU8, &mut buffer, tag.as_slice()) {
            Ok(()) => {},
            Err(e) => {
                return Err(e);
            },
        }
        match encode_vec(VecSize::VecU16, &mut buffer, self.signature.as_slice()) {
            Ok(()) => {},
            Err(e) => {
                return Err(e);
            },
        }
        assert(buffer@ =~= self@.commit_auth_data().unwrap());
        Ok(buffer)
    }

    /// The bytes that the sender signs, and that a receiver verifies the
    /// signature over. Fails where the context or the message cannot be
    /// written.
    pub fn to_be_signed(&self, context: &GroupContext) -> (r: Result<Vec<u8>, CodecError>)
        ensures
            context@.encodable() && self@.signable() ==> r.is_ok() && r.unwrap()@
                == self@.to_be_signed(context@),
            !(context@.encodable() && self@.signable()) ==> r.is_err() && r.unwrap_err()
                == CodecError::EncodingError,
    {
        let mut buffer = match context.encode_detached() {
            Ok(bytes) => bytes,
            Err(e) => {
                return Err(e);
            },
        };
        let unsigned = match self.unsigned() {
            Ok(bytes) => bytes,
            Err(e) => {
                return Err(e);
            },
        };
        append_bytes(&mut buffer, unsigned.as_slice());
        Ok(buffer)
    }

    /// The message as it stands on the wire; fails where a part cannot be
    /// written.
    pub fn encode_detached(&self) -> (r: Result<Vec<u8>, CodecError>)
        ensures
            self@.signable() && self@.signature.len() <= 0xffff ==> r.is_ok() && r.unwrap()@
                == self@.wire(),
            !(self@.signable() && self@.signature.len() <= 0xffff) ==> r.is_err()
                && r.unwrap_err() == CodecError::EncodingError,
    {
        let mut buffer = match self.unsigned() {
            Ok(bytes) => bytes,
            Err(e) => {
                return Err(e);
            },
        };
        match encode_vec(VecSize::VecU16, &mut buffer, self.signature.as_slice()) {
            Ok(()) => {},
            Err(e) => {
                return Err(e);
            },
        }
        assert(buffer@ =~= self@.wire());
        Ok(buffer)
    }
}

} // verus!
