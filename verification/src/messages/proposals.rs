use vstd::prelude::*;
use vstd::std_specs::cmp::PartialEqSpecImpl;
use crate::codec::{
    append_bytes, bytes_eq, copy_bytes, encode_u32, encode_u8, encode_vec, lemma_parse_u32,
    lemma_parse_u8, lemma_parse_vec, spec_parse_u32, spec_parse_u8, spec_parse_vec, spec_u32,
    spec_u8, spec_vec, CodecError, Cursor, VecSize,
};
use crate::framing::{Sender, SenderType};
use crate::key_packages::{
    lemma_key_package_round_trip, KeyPackage, KeyPackageBundle, KeyPackageBundleView,
    KeyPackageView,
};
use crate::tree::index::LeafIndex;

verus! {

/// Kind of a proposal.
#[derive(Clone, Copy, Debug, PartialEq, Eq, Structural)]
pub enum ProposalType {
    Invalid,
    Add,
    Update,
    Remove,
    /// Any kind that the protocol does not name.
    Default,
}

impl ProposalType {
    pub open spec fn spec_to_u8(self) -> u8 {
        match self {
            ProposalType::Invalid => 0,
            ProposalType::Add => 1,
            ProposalType::Update => 2,
            ProposalType::Remove => 3,
            ProposalType::Default => 255,
        }
    }

    pub open spec fn spec_from_u8(v: u8) -> ProposalType {
        if v == 0 {
            ProposalType::Invalid
        } else if v == 1 {
            ProposalType::Add
        } else if v == 2 {
            ProposalType::Update
        } else if v == 3 {
            ProposalType::Remove
        } else {
            ProposalType::Default
        }
    }

    /// The kind's number on the wire.
    pub fn to_u8(&self) -> (r: u8)
        ensures
            r == self.spec_to_u8(),
    {
        match self {
            ProposalType::Invalid => 0,
            ProposalType::Add => 1,
            ProposalType::Update => 2,
            ProposalType::Remove => 3,
            ProposalType::Default => 255,
        }
    }

    /// The kind that a number names; `Default` for an unknown number.
    pub fn from_u8(value: u8) -> (r: ProposalType)
        ensures
            r == ProposalType::spec_from_u8(value),
    {
        match value {
            0 => ProposalType::Invalid,
            1 => ProposalType::Add,
            2 => ProposalType::Update,
            3 => ProposalType::Remove,
            _ => ProposalType::Default,
        }
    }

    pub fn encode(&self, buffer: &mut Vec<u8>)
        ensures
            final(buffer)@ == old(buffer)@ + spec_u8(self.spec_to_u8()),
    {
        encode_u8(buffer, self.to_u8());
    }
}

impl From<u8> for ProposalType {
    fn from(value: u8) -> (r: ProposalType) {
        ProposalType::from_u8(value)
    }
}

impl vstd::std_specs::convert::FromSpecImpl<u8> for ProposalType {
    open spec fn obeys_from_spec() -> bool {
        true
    }

    open spec fn from_spec(value: u8) -> ProposalType {
        ProposalType::spec_from_u8(value)
    }
}

/// A kind that is written and read again is the same.
pub proof fn lemma_proposal_type_round_trip(kind: ProposalType)
    ensures
        ProposalType::spec_from_u8(kind.spec_to_u8()) == kind,
{
}

/// Proposal to add the owner of a key package to the group.
#[derive(Debug)]
pub struct AddProposal {
    pub key_package: KeyPackage,
}

/// Proposal of a member to replace its own key package.
#[derive(Debug)]
pub struct UpdateProposal {
    pub key_package: KeyPackage,
}

/// Proposal to remove the member at a position of the tree.
#[derive(Clone, Copy, Debug, PartialEq, Eq, Structural)]
pub struct RemoveProposal {
    pub removed: u32,
}

impl View for AddProposal {
    type V = KeyPackageView;

    open spec fn view(&self) -> KeyPackageView {
        self.key_package@
    }
}

impl View for UpdateProposal {
    type V = KeyPackageView;

    open spec fn view(&self) -> KeyPackageView {
        self.key_package@
    }
}

impl Clone for AddProposal {
    fn clone(&self) -> (r: Self)
        ensures
            r@ == self@,
    {
        AddProposal { key_package: self.key_package.clone() }
    }
}

impl Clone for UpdateProposal {
    fn clone(&self) -> (r: Self)
        ensures
            r@ == self@,
    {
        UpdateProposal { key_package: self.key_package.clone() }
    }
}

impl RemoveProposal {
    /// The proposal's body on the wire: the position in four bytes.
    pub fn encode(&self, buffer: &mut Vec<u8>)
        ensures
            final(buffer)@ == old(buffer)@ + spec_u32(self.removed),
    {
        encode_u32(buffer, self.removed);
    }
}

/// A change to the group that a member asks for.
#[derive(Debug)]
pub enum Proposal {
    Add(AddProposal),
    Update(UpdateProposal),
    Remove(RemoveProposal),
}

pub enum ProposalView {
    Add(KeyPackageView),
    Update(KeyPackageView),
    Remove(u32),
}

impl View for Proposal {
    type V = ProposalView;

    open spec fn view(&self) -> ProposalView {
        match self {
            Proposal::Add(add) => ProposalView::Add(add@),
            Proposal::Update(update) => ProposalView::Update(update@),
            Proposal::Remove(remove) => ProposalView::Remove(remove.removed),
        }
    }
}

impl ProposalView {
    /// Whether the proposal can be written.
    pub open spec fn encodable(self) -> bool {
        match self {
            ProposalView::Add(kp) => kp.encodable(),
            ProposalView::Update(kp) => kp.encodable(),
            ProposalView::Remove(removed) => true,
        }
    }

    /// The proposal on the wire: its kind in one byte, then its body.
    pub open spec fn wire(self) -> Seq<u8> {
        match self {
            ProposalView::Add(kp) => spec_u8(1) + kp.wire(),
            ProposalView::Update(kp) => spec_u8(2) + kp.wire(),
            ProposalView::Remove(removed) => spec_u8(3) + spec_u32(removed),
        }
    }
}

impl ProposalView {
    /// The proposal that a byte string starts with, and what follows it.
    pub open spec fn parse(s: Seq<u8>) -> Option<(ProposalView, Seq<u8>)> {
        match spec_parse_u8(s) {
            Some((kind, r1)) => if kind == 1 {
                match KeyPackageView::parse(r1) {
                    Some((kp, r2)) => Some((ProposalView::Add(kp), r2)),
                    None => None,
                }
            } else if kind == 2 {
                match KeyPackageView::parse(r1) {
                    Some((kp, r2)) => Some((ProposalView::Update(kp), r2)),
                    None => None,
                }
            } else if kind == 3 {
                match spec_parse_u32(r1) {
                    Some((removed, r2)) => Some((ProposalView::Remove(removed), r2)),
                    None => None,
                }
            } else {
                None
            },
            None => None,
        }
    }
}

/// Reading a proposal that was written gives it back.
pub proof fn lemma_proposal_round_trip(p: ProposalView, rest: Seq<u8>)
    requires
        p.encodable(),
    ensures
        ProposalView::parse(p.wire() + rest) == Some((p, rest)),
{
    match p {
        ProposalView::Add(kp) => {
            assert(p.wire() + rest =~= spec_u8(1) + (kp.wire() + rest));
            lemma_parse_u8(1, kp.wire() + rest);
            lemma_key_package_round_trip(kp, rest);
        },
        ProposalView::Update(kp) => {
            assert(p.wire() + rest =~= spec_u8(2) + (kp.wire() + rest));
            lemma_parse_u8(2, kp.wire() + rest);
            lemma_key_package_round_trip(kp, rest);
        },
        ProposalView::Remove(removed) => {
            assert(p.wire() + rest =~= spec_u8(3) + (spec_u32(removed) + rest));
            lemma_parse_u8(3, spec_u32(removed) + rest);
            lemma_parse_u32(removed, rest);
        },
    }
}

impl Proposal {
    /// Reads a proposal; fails where the bytes end early or name no
    /// kind of proposal.
    pub fn decode(cursor: &mut Cursor) -> (r: Result<Proposal, CodecError>)
        ensures
            match ProposalView::parse(old(cursor).remaining()) {
                Some((p, rest)) => r.is_ok() && r.unwrap()@ == p && final(cursor).remaining()
                    == rest,
                None => r.is_err() && r.unwrap_err() == CodecError::DecodingError,
            },
    {
        let kind = match cursor.decode_u8() {
            Ok(v) => v,
            Err(e) => {
                return Err(e);
            },
        };
        match ProposalType::from_u8(kind) {
            ProposalType::Add => match KeyPackage::decode(cursor) {
                Ok(key_package) => Ok(Proposal::Add(AddProposal { key_package })),
                Err(e) => Err(e),
            },
            ProposalType::Update => match KeyPackage::decode(cursor) {
                Ok(key_package) => Ok(Proposal::Update(UpdateProposal { key_package })),
                Err(e) => Err(e),
            },
            ProposalType::Remove => match cursor.decode_u32() {
                Ok(removed) => Ok(Proposal::Remove(RemoveProposal { removed })),
                Err(e) => Err(e),
            },
            _ => Err(CodecError::DecodingError),
        }
    }

    /// The identifier of this proposal. `digest` is the caller's hash of
    /// `encode_detached`; none where it has fewer than 32 bytes.
    pub fn to_proposal_id(&self, digest: &[u8]) -> (r: Option<ProposalID>)
        ensures
            digest@.len() >= 32 ==> r.is_some() && r.unwrap()@ == digest@,
            digest@.len() < 32 ==> r.is_none(),
    {
        ProposalID::from_proposal(digest)
    }

    pub fn as_add(&self) -> (r: Option<AddProposal>)
        ensures
            match self@ {
                ProposalView::Add(kp) => r.is_some() && r.unwrap()@ == kp,
                _ => r.is_none(),
            },
    {
        match self {
            Proposal::Add(add_proposal) => Some(add_proposal.clone()),
            _ => None,
        }
    }

    pub fn as_update(&self) -> (r: Option<UpdateProposal>)
        ensures
            match self@ {
                ProposalView::Update(kp) => r.is_some() && r.unwrap()@ == kp,
                _ => r.is_none(),
            },
    {
        match self {
            Proposal::Update(update_proposal) => Some(update_proposal.clone()),
            _ => None,
        }
    }

    pub fn as_remove(&self) -> (r: Option<RemoveProposal>)
        ensures
            match self@ {
                ProposalView::Remove(removed) => r == Some(RemoveProposal { removed }),
                _ => r.is_none(),
            },
    {
        match self {
            Proposal::Remove(remove_proposal) => Some(*remove_proposal),
            _ => None,
        }
    }

    /// The kind of the proposal.
    pub fn get_type(&self) -> (r: ProposalType)
        ensures
            r == match self@ {
                ProposalView::Add(kp) => ProposalType::Add,
                ProposalView::Update(kp) => ProposalType::Update,
                ProposalView::Remove(removed) => ProposalType::Remove,
            },
    {
        match self {
            Proposal::Add(add) => ProposalType::Add,
            Proposal::Update(update) => ProposalType::Update,
            Proposal::Remove(remove) => ProposalType::Remove,
        }
    }

    /// The proposal as it stands on the wire: the bytes whose digest is its
    /// identifier. Fails where its key package cannot be written.
    pub fn encode_detached(&self) -> (r: Result<Vec<u8>, CodecError>)
        ensures
            self@.encodable() ==> r.is_ok() && r.unwrap()@ == self@.wire(),
            !self@.encodable() ==> r.is_err() && r.unwrap_err() == CodecError::EncodingError,
    {
        let mut buffer: Vec<u8> = Vec::new();
        match self {
            Proposal::Add(add) => {
                ProposalType::Add.encode(&mut buffer);
                match add.key_package.encode(&mut buffer) {
                    Ok(()) => {},
                    Err(e) => {
                        return Err(e);
                    },
                }
            },
            Proposal::Update(update) => {
                ProposalType::Update.encode(&mut buffer);
                match update.key_package.encode(&mut buffer) {
                    Ok(()) => {},
                    Err(e) => {
                        return Err(e);
                    },
                }
            },
            Proposal::Remove(remove) => {
                ProposalType::Remove.encode(&mut buffer);
                remove.encode(&mut buffer);
            },
        }
        assert(buffer@ =~= self@.wire());
        Ok(buffer)
    }

    /// Appends the proposal to `buffer`; fails, and leaves the buffer as it
    /// was, where its key package cannot be written.
    pub fn encode(&self, buffer: &mut Vec<u8>) -> (r: Result<(), CodecError>)
        ensures
            self@.encodable() ==> r.is_ok() && final(buffer)@ == old(buffer)@ + self@.wire(),
            !self@.encodable() ==> r.is_err() && r.unwrap_err() == CodecError::EncodingError
                && final(buffer)@ == old(buffer)@,
    {
        match self.encode_detached() {
            Ok(bytes) => {
                append_bytes(buffer, bytes.as_slice());
                Ok(())
            },
            Err(e) => Err(e),
        }
    }
}

impl Clone for Proposal {
    fn clone(&self) -> (r: Self)
        ensures
            r@ == self@,
    {
        match self {
            Proposal::Add(add) => Proposal::Add(add.clone()),
            Proposal::Update(update) => Proposal::Update(update.clone()),
            Proposal::Remove(remove) => Proposal::Remove(*remove),
        }
    }
}

impl PartialEq for Proposal {
    fn eq(&self, other: &Self) -> (r: bool) {
        match (self, other) {
            (Proposal::Add(a), Proposal::Add(b)) => a.key_package == b.key_package,
            (Proposal::Update(a), Proposal::Update(b)) => a.key_package == b.key_package,
            (Proposal::Remove(a), Proposal::Remove(b)) => a.removed == b.removed,
            _ => false,
        }
    }
}

impl PartialEqSpecImpl for Proposal {
    open spec fn obeys_eq_spec() -> bool {
        true
    }

    open spec fn eq_spec(&self, other: &Self) -> bool {
        self@ == other@
    }
}

/// Identifier of a proposal: the digest of its encoding, of at least 32
/// bytes.
#[derive(Debug)]
pub struct ProposalID {
    value: Vec<u8>,
}

impl View for ProposalID {
    type V = Seq<u8>;

    closed spec fn view(&self) -> Seq<u8> {
        self.value@
    }
}

impl ProposalID {
    #[verifier::type_invariant]
    spec fn long_enough(self) -> bool {
        self.value@.len() >= 32
    }

    /// The identifier of the proposal whose encoding has the digest
    /// `digest`; none where the digest has fewer than 32 bytes.
    pub fn from_proposal(digest: &[u8]) -> (r: Option<ProposalID>)
        ensures
            digest@.len() >= 32 ==> r.is_some() && r.unwrap()@ == digest@,
            digest@.len() < 32 ==> r.is_none(),
    {
        if digest.len() < 32 {
            None
        } else {
            Some(ProposalID { value: copy_bytes(digest) })
        }
    }

    /// Reads an identifier; fails where the bytes end early or the
    /// identifier has fewer than 32 bytes.
    pub fn decode(cursor: &mut Cursor) -> (r: Result<ProposalID, CodecError>)
        ensures
            match spec_parse_vec(VecSize::VecU8, old(cursor).remaining()) {
                Some((value, rest)) => if value.len() >= 32 {
                    r.is_ok() && r.unwrap()@ == value && final(cursor).remaining() == rest
                } else {
                    r.is_err() && r.unwrap_err() == CodecError::DecodingError
                },
                None => r.is_err() && r.unwrap_err() == CodecError::DecodingError,
            },
    {
        let value = match cursor.decode_vec(VecSize::VecU8) {
            Ok(v) => v,
            Err(e) => {
                return Err(e);
            },
        };
        if value.len() < 32 {
            return Err(CodecError::DecodingError);
        }
        Ok(ProposalID { value })
    }

    pub fn as_slice(&self) -> (r: &[u8])
        ensures
            r@ == self@,
            r@.len() >= 32,
    {
        proof {
            use_type_invariant(self);
        }
        self.value.as_slice()
    }

    /// Appends the identifier behind a one-byte length; fails, and leaves
    /// the buffer as it was, where it has more than 255 bytes.
    pub fn encode(&self, buffer: &mut Vec<u8>) -> (r: Result<(), CodecError>)
        ensures
            self@.len() <= 0xff ==> r.is_ok() && final(buffer)@ == old(buffer)@ + spec_vec(
                VecSize::VecU8,
                self@,
            ),
            self@.len() > 0xff ==> r.is_err() && r.unwrap_err() == CodecError::EncodingError
                && final(buffer)@ == old(buffer)@,
    {
        encode_vec(VecSize::VecU8, buffer, self.value.as_slice())
    }
}

impl Clone for ProposalID {
    fn clone(&self) -> (r: Self)
        ensures
            r@ == self@,
    {
        proof {
            use_type_invariant(self);
        }
        ProposalID { value: copy_bytes(self.value.as_slice()) }
    }
}

impl PartialEq for ProposalID {
    fn eq(&self, other: &Self) -> (r: bool) {
        bytes_eq(self.value.as_slice(), other.value.as_slice())
    }
}

impl PartialEqSpecImpl for ProposalID {
    open spec fn obeys_eq_spec() -> bool {
        true
    }

    open spec fn eq_spec(&self, other: &Self) -> bool {
        self@ == other@
    }
}

/// The first 32 bytes of a proposal's identifier: the key under which the
/// queue keeps the proposal.
#[derive(Clone, Copy, Debug)]
pub struct ShortProposalID(pub [u8; 32]);

impl View for ShortProposalID {
    type V = Seq<u8>;

    open spec fn view(&self) -> Seq<u8> {
        self.0@
    }
}

impl ShortProposalID {
    pub fn from_proposal_id(proposal_id: &ProposalID) -> (r: ShortProposalID)
        ensures
            r@ == proposal_id@.take(32),
    {
        let bytes = proposal_id.as_slice();
        let mut inner = [0u8;32];
        let mut i: usize = 0;
        while i < 32
            invariant
                i <= 32,
                bytes@.len() >= 32,
                inner@.len() == 32,
                forall|j: int| 0 <= j < i ==> inner@[j] == bytes@[j],
            decreases 32 - i,
        {
            inner[i] = bytes[i];
            i += 1;
        }
        assert(inner@ =~= bytes@.take(32));
        ShortProposalID(inner)
    }

    /// Whether two keys are the same.
    pub fn equals(&self, other: &ShortProposalID) -> (r: bool)
        ensures
            r == (self@ == other@),
    {
        let mut i: usize = 0;
        while i < 32
            invariant
                i <= 32,
                forall|j: int| 0 <= j < i ==> self.0@[j] == other.0@[j],
            decreases 32 - i,
        {
            if self.0[i] != other.0[i] {
                return false;
            }
            i += 1;
        }
        assert(self.0@ =~= other.0@);
        true
    }
}

/// A proposal as the queue keeps it: with its sender and, where the
/// proposal is the holder's own update, the key package bundle that goes
/// with it.
#[derive(Debug)]
pub struct QueuedProposal {
    pub proposal: Proposal,
    pub sender: Sender,
    pub own_kpb: Option<KeyPackageBundle>,
}

pub struct QueuedProposalView {
    pub proposal: ProposalView,
    pub sender: Sender,
    pub own_kpb: Option<KeyPackageBundleView>,
}

impl View for QueuedProposal {
    type V = QueuedProposalView;

    open spec fn view(&self) -> QueuedProposalView {
        QueuedProposalView {
            proposal: self.proposal@,
            sender: self.sender,
            own_kpb: match self.own_kpb {
                Some(kpb) => Some(kpb@),
                None => None,
            },
        }
    }
}

impl QueuedProposal {
    pub fn new(proposal: Proposal, sender: LeafIndex, own_kpb: Option<KeyPackageBundle>) -> (r:
        QueuedProposal)
        ensures
            r@ == (QueuedProposalView {
                proposal: proposal@,
                sender: Sender { sender_type: SenderType::Member, sender },
                own_kpb: match own_kpb {
                    Some(kpb) => Some(kpb@),
                    None => None,
                },
            }),
    {
        QueuedProposal { proposal, sender: Sender::member(sender), own_kpb }
    }
}

impl Clone for QueuedProposal {
    fn clone(&self) -> (r: Self)
        ensures
            r@ == self@,
    {
        QueuedProposal {
            proposal: self.proposal.clone(),
            sender: self.sender,
            own_kpb: match &self.own_kpb {
                Some(kpb) => Some(kpb.clone()),
                None => None,
            },
        }
    }
}

/// The proposals that a commit names, by kind, each list in the order in
/// which the commit applies it.
#[derive(Debug)]
pub struct ProposalIDList {
    pub updates: Vec<ProposalID>,
    pub removes: Vec<ProposalID>,
    pub adds: Vec<ProposalID>,
}

impl ProposalIDList {
    /// Whether a commit that applies these proposals has to carry a
    /// direct path: it has where it applies no proposal at all, or an
    /// update, or a removal. A commit that only adds members may do
    /// without.
    pub fn path_required(&self) -> (r: bool)
        ensures
            r == (self.updates@.len() > 0 || self.removes@.len() > 0 || self.adds@.len() == 0),
    {
        self.updates.len() > 0 || self.removes.len() > 0 || self.adds.len() == 0
    }
}

/// The identifiers that a list holds.
pub open spec fn spec_id_views(s: Seq<ProposalID>) -> Seq<Seq<u8>> {
    s.map_values(|id: ProposalID| id@)
}

/// One entry of the queue: a proposal's identifier and the proposal.
pub struct QueueEntry {
    pub id: Seq<u8>,
    pub queued: QueuedProposalView,
}

/// Whether an entry is kept under the key `short`.
pub open spec fn spec_entry_matches(entry: QueueEntry, short: Seq<u8>) -> bool {
    entry.id.take(32) == short
}

/// Position of the first entry kept under `short`.
pub open spec fn spec_queue_position(entries: Seq<QueueEntry>, short: Seq<u8>) -> Option<int>
    decreases entries.len(),
{
    if entries.len() == 0 {
        None
    } else {
        match spec_queue_position(entries.drop_last(), short) {
            Some(i) => Some(i),
            None => if spec_entry_matches(entries.last(), short) {
                Some(entries.len() - 1)
            } else {
                None
            },
        }
    }
}

/// The first entry under a key is in the queue, is kept under that key,
/// and none before it is.
pub proof fn lemma_queue_position(entries: Seq<QueueEntry>, short: Seq<u8>)
    ensures
        match spec_queue_position(entries, short) {
            Some(i) => 0 <= i < entries.len() && spec_entry_matches(entries[i], short) && forall|
                j: int,
            |
                0 <= j < i ==> !spec_entry_matches(#[trigger] entries[j], short),
            None => forall|j: int|
                0 <= j < entries.len() ==> !spec_entry_matches(#[trigger] entries[j], short),
        },
    decreases entries.len(),
{
    if entries.len() > 0 {
        lemma_queue_position(entries.drop_last(), short);
        assert forall|j: int| 0 <= j < entries.len() - 1 implies entries[j]
            == entries.drop_last()[j] by {}
    }
}

/// What is found among the first `n` entries is found in the whole queue.
pub proof fn lemma_queue_position_stays(entries: Seq<QueueEntry>, short: Seq<u8>, n: int, i: int)
    requires
        0 <= n <= entries.len(),
        spec_queue_position(entries.take(n), short) == Some(i),
    ensures
        spec_queue_position(entries, short) == Some(i),
    decreases entries.len() - n,
{
    if n < entries.len() {
        assert(entries.take(n + 1).drop_last() =~= entries.take(n));
        lemma_queue_position_stays(entries, short, n + 1, i);
    } else {
        assert(entries.take(n) =~= entries);
    }
}

/// The identifiers of the entries of one kind, in the order of the queue.
pub open spec fn spec_ids_of_kind(entries: Seq<QueueEntry>, kind: ProposalType) -> Seq<Seq<u8>>
    decreases entries.len(),
{
    if entries.len() == 0 {
        Seq::empty()
    } else {
        let rest = spec_ids_of_kind(entries.drop_last(), kind);
        if spec_kind_of(entries.last().queued.proposal) == kind {
            rest.push(entries.last().id)
        } else {
            rest
        }
    }
}

/// The kind of a proposal.
pub open spec fn spec_kind_of(proposal: ProposalView) -> ProposalType {
    match proposal {
        ProposalView::Add(kp) => ProposalType::Add,
        ProposalView::Update(kp) => ProposalType::Update,
        ProposalView::Remove(removed) => ProposalType::Remove,
    }
}

/// The proposals that wait for a commit, in the order in which they came.
/// No two of them are kept under the same key.
#[derive(Debug)]
pub struct ProposalQueue {
    tuples: Vec<(ProposalID, QueuedProposal)>,
}

impl View for ProposalQueue {
    type V = Seq<QueueEntry>;

    closed spec fn view(&self) -> Seq<QueueEntry> {
        self.tuples@.map_values(
            |t: (ProposalID, QueuedProposal)| QueueEntry { id: t.0@, queued: t.1@ },
        )
    }
}

impl ProposalQueue {
    /// An empty queue.
    pub fn new() -> (r: ProposalQueue)
        ensures
            r@ == Seq::<QueueEntry>::empty(),
    {
        let r = ProposalQueue { tuples: Vec::new() };
        assert(r@ =~= Seq::<QueueEntry>::empty());
        r
    }

    /// Number of proposals in the queue.
    pub fn len(&self) -> (r: usize)
        ensures
            r == self@.len(),
    {
        self.tuples.len()
    }

    fn position(&self, short: &ShortProposalID) -> (r: Option<usize>)
        ensures
            r.is_some() == spec_queue_position(self@, short@).is_some(),
            r.is_some() ==> r.unwrap() as int == spec_queue_position(self@, short@).unwrap()
                && r.unwrap() < self.tuples@.len(),
    {
        let ghost entries = self@;
        let mut i: usize = 0;
        while i < self.tuples.len()
            invariant
                i <= self.tuples@.len(),
                entries == self@,
                entries.len() == self.tuples@.len(),
                spec_queue_position(entries.take(i as int), short@).is_none(),
            decreases self.tuples@.len() - i,
        {
            proof {
                assert(entries.take(i + 1).drop_last() =~= entries.take(i as int));
                assert(entries.take(i + 1).last() == entries[i as int]);
                assert(entries[i as int].id == self.tuples@[i as int].0@);
            }
            let candidate = ShortProposalID::from_proposal_id(&self.tuples[i].0);
            if candidate.equals(short) {
                proof {
                    lemma_queue_position_stays(entries, short@, i + 1, i as int);
                }
                return Some(i);
            }
            i += 1;
        }
        assert(entries.take(i as int) =~= entries);
        None
    }

    /// Puts a proposal at the end of the queue under the first 32 bytes of
    /// its identifier, unless a proposal is kept under that key already:
    /// the first one stays.
    pub fn add(&mut self, queued_proposal: QueuedProposal, proposal_id: ProposalID)
        ensures
            final(self)@ == if spec_queue_position(old(self)@, proposal_id@.take(32)).is_none() {
                old(self)@.push(QueueEntry { id: proposal_id@, queued: queued_proposal@ })
            } else {
                old(self)@
            },
    {
        let spi = ShortProposalID::from_proposal_id(&proposal_id);
        if self.position(&spi).is_none() {
            self.tuples.push((proposal_id, queued_proposal));
            assert(self@ =~= old(self)@.push(
                QueueEntry { id: proposal_id@, queued: queued_proposal@ },
            ));
        }
    }

    /// The proposal that is kept under the first 32 bytes of `proposal_id`,
    /// with its own identifier.
    pub fn get(&self, proposal_id: &ProposalID) -> (r: Option<&(ProposalID, QueuedProposal)>)
        ensures
            match spec_queue_position(self@, proposal_id@.take(32)) {
                Some(i) => r.is_some() && r.unwrap().0@ == self@[i].id && r.unwrap().1@
                    == self@[i].queued,
                None => r.is_none(),
            },
    {
        let spi = ShortProposalID::from_proposal_id(proposal_id);
        let ghost expected = spec_queue_position(self@, proposal_id@.take(32));
        match self.position(&spi) {
            Some(i) => {
                assert(expected == Some(i as int));
                assert(self@[i as int].id == self.tuples@[i as int].0@);
                assert(self@[i as int].queued == self.tuples@[i as int].1@);
                let found = &self.tuples[i];
                assert(found.0@ == self@[i as int].id);
                assert(found.1@ == self@[i as int].queued);
                Some(found)
            },
            None => None,
        }
    }

    /// The identifiers of the queued proposals by kind, each list in the
    /// order in which the proposals came.
    pub fn get_commit_lists(&self) -> (r: ProposalIDList)
        ensures
            spec_id_views(r.updates@) == spec_ids_of_kind(self@, ProposalType::Update),
            spec_id_views(r.removes@) == spec_ids_of_kind(self@, ProposalType::Remove),
            spec_id_views(r.adds@) == spec_ids_of_kind(self@, ProposalType::Add),
    {
        let ghost entries = self@;
        let mut updates: Vec<ProposalID> = Vec::new();
        let mut removes: Vec<ProposalID> = Vec::new();
        let mut adds: Vec<ProposalID> = Vec::new();
        let mut i: usize = 0;
        assert(spec_id_views(updates@) =~= Seq::<Seq<u8>>::empty());
        assert(spec_id_views(removes@) =~= Seq::<Seq<u8>>::empty());
        assert(spec_id_views(adds@) =~= Seq::<Seq<u8>>::empty());
        while i < self.tuples.len()
            invariant
                i <= self.tuples@.len(),
                entries == self@,
                entries.len() == self.tuples@.len(),
                spec_id_views(updates@) == spec_ids_of_kind(
                    entries.take(i as int),
                    ProposalType::Update,
                ),
                spec_id_views(removes@) == spec_ids_of_kind(
                    entries.take(i as int),
                    ProposalType::Remove,
                ),
                spec_id_views(adds@) == spec_ids_of_kind(entries.take(i as int), ProposalType::Add),
            decreases self.tuples@.len() - i,
        {
            proof {
                assert(entries.take(i + 1).drop_last() =~= entries.take(i as int));
                assert(entries.take(i + 1).last() == entries[i as int]);
                assert(entries[i as int].id == self.tuples@[i as int].0@);
                assert(entries[i as int].queued == self.tuples@[i as int].1@);
            }
            let id = self.tuples[i].0.clone();
            match self.tuples[i].1.proposal.get_type() {
                ProposalType::Update => {
                    proof {
                        assert(spec_id_views(updates@.push(id)) =~= spec_id_views(updates@).push(
                            id@,
                        ));
                    }
                    updates.push(id);
                },
                ProposalType::Remove => {
                    proof {
                        assert(spec_id_views(removes@.push(id)) =~= spec_id_views(removes@).push(
                            id@,
                        ));
                    }
                    removes.push(id);
                },
                _ => {
                    proof {
                        assert(spec_id_views(adds@.push(id)) =~= spec_id_views(adds@).push(id@));
                    }
                    adds.push(id);
                },
            }
            i += 1;
        }
        assert(entries.take(i as int) =~= entries);
        ProposalIDList { updates, removes, adds }
    }
}

impl Clone for ProposalQueue {
    fn clone(&self) -> (r: Self)
        ensures
            r@ == self@,
    {
        let mut tuples: Vec<(ProposalID, QueuedProposal)> = Vec::new();
        let mut i: usize = 0;
        while i < self.tuples.len()
            invariant
                i <= self.tuples@.len(),
                tuples@.len() == i,
                forall|j: int|
                    0 <= j < i ==> tuples@[j].0@ == self.tuples@[j].0@ && tuples@[j].1@
                        == self.tuples@[j].1@,
            decreases self.tuples@.len() - i,
        {
            tuples.push((self.tuples[i].0.clone(), self.tuples[i].1.clone()));
            i += 1;
        }
        let r = ProposalQueue { tuples };
        assert(r@ =~= self@);
        r
    }
}

/// A queue never keeps two proposals under the same key when it is built
/// by `add` alone: adding under a key that is taken changes nothing.
pub proof fn lemma_first_write_wins(entries: Seq<QueueEntry>, id: Seq<u8>, queued: QueuedProposalView)
    requires
        spec_queue_position(entries, id.take(32)).is_some(),
    ensures
        spec_queue_position(entries.push(QueueEntry { id, queued }), id.take(32))
            == spec_queue_position(entries, id.take(32)),
{
    assert(entries.push(QueueEntry { id, queued }).drop_last() =~= entries);
}

} // verus!
