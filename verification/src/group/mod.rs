use vstd::prelude::*;
use vstd::std_specs::cmp::PartialEqSpecImpl;
use crate::codec::{
    bytes_eq, copy_bytes, encode_u64, encode_vec, lemma_parse_u64, lemma_parse_vec, spec_parse_u64,
    spec_parse_vec, spec_u64, spec_vec, CodecError, Cursor, VecSize,
};

pub mod mls_group;

verus! {

/// Name of a group.
#[derive(Debug)]
pub struct GroupId {
    pub value: Vec<u8>,
}

impl View for GroupId {
    type V = Seq<u8>;

    open spec fn view(&self) -> Seq<u8> {
        self.value@
    }
}

impl Clone for GroupId {
    fn clone(&self) -> (r: Self)
        ensures
            r@ == self@,
    {
        GroupId { value: copy_bytes(self.value.as_slice()) }
    }
}

/// Number of an epoch: how many commits the group has seen.
#[derive(Clone, Copy, Debug, PartialEq, Eq, Structural)]
pub struct GroupEpoch(pub u64);

/// What every handshake message of an epoch is bound to.
#[derive(Debug)]
pub struct GroupContext {
    pub group_id: GroupId,
    pub epoch: GroupEpoch,
    pub tree_hash: Vec<u8>,
    pub confirmed_transcript_hash: Vec<u8>,
}

pub struct GroupContextView {
    pub group_id: Seq<u8>,
    pub epoch: u64,
    pub tree_hash: Seq<u8>,
    pub confirmed_transcript_hash: Seq<u8>,
}

impl View for GroupContext {
    type V = GroupContextView;

    open spec fn view(&self) -> GroupContextView {
        GroupContextView {
            group_id: self.group_id@,
            epoch: self.epoch.0,
            tree_hash: self.tree_hash@,
            confirmed_transcript_hash: self.confirmed_transcript_hash@,
        }
    }
}

impl GroupContextView {
    /// Whether the name and both hashes each fit behind a one-byte
    /// length.
    pub open spec fn encodable(self) -> bool {
        self.group_id.len() <= 0xff && self.tree_hash.len() <= 0xff
            && self.confirmed_transcript_hash.len() <= 0xff
    }

    /// The context on the wire: the name, the epoch in eight bytes, the
    /// hash of the tree and the hash of the confirmed transcript.
    pub open spec fn wire(self) -> Seq<u8> {
        spec_vec(VecSize::VecU8, self.group_id) + spec_u64(self.epoch) + spec_vec(
            VecSize::VecU8,
            self.tree_hash,
        ) + spec_vec(VecSize::VecU8, self.confirmed_transcript_hash)
    }

    /// The context that a byte string starts with, and what follows it.
    pub open spec fn parse(s: Seq<u8>) -> Option<(GroupContextView, Seq<u8>)> {
        match spec_parse_vec(VecSize::VecU8, s) {
            Some((group_id, r1)) => match spec_parse_u64(r1) {
                Some((epoch, r2)) => match spec_parse_vec(VecSize::VecU8, r2) {
                    Some((tree_hash, r3)) => match spec_parse_vec(VecSize::VecU8, r3) {
                        Some((confirmed_transcript_hash, r4)) => Some(
                            (
                                GroupContextView {
                                    group_id,
                                    epoch,
                                    tree_hash,
                                    confirmed_transcript_hash,
                                },
                                r4,
                            ),
                        ),
                        None => None,
                    },
                    None => None,
                },
                None => None,
            },
            None => None,
        }
    }

    /// The context of the epoch that a commit opens: the next epoch, with
    /// the hashes of the new tree and of the transcript up to the commit.
    pub open spec fn advance(self, tree_hash: Seq<u8>, confirmed_transcript_hash: Seq<u8>) -> GroupContextView {
        GroupContextView {
            group_id: self.group_id,
            epoch: (self.epoch + 1) as u64,
            tree_hash,
            confirmed_transcript_hash,
        }
    }
}

/// A context that can be written takes fewer than 800 bytes.
pub proof fn lemma_group_context_len(c: GroupContextView)
    requires
        c.encodable(),
    ensures
        c.wire().len() <= 776,
{
    reveal(crate::codec::spec_u32);
    crate::codec::lemma_vec_len(VecSize::VecU8, c.group_id);
    crate::codec::lemma_vec_len(VecSize::VecU8, c.tree_hash);
    crate::codec::lemma_vec_len(VecSize::VecU8, c.confirmed_transcript_hash);
}

/// Reading a context that was written gives it back.
pub proof fn lemma_group_context_round_trip(c: GroupContextView, rest: Seq<u8>)
    requires
        c.encodable(),
    ensures
        GroupContextView::parse(c.wire() + rest) == Some((c, rest)),
{
    let r3 = spec_vec(VecSize::VecU8, c.confirmed_transcript_hash) + rest;
    let r2 = spec_vec(VecSize::VecU8, c.tree_hash) + r3;
    let r1 = spec_u64(c.epoch) + r2;
    assert(c.wire() + rest =~= spec_vec(VecSize::VecU8, c.group_id) + r1);
    lemma_parse_vec(VecSize::VecU8, c.group_id, r1);
    lemma_parse_u64(c.epoch, r2);
    lemma_parse_vec(VecSize::VecU8, c.tree_hash, r3);
    lemma_parse_vec(VecSize::VecU8, c.confirmed_transcript_hash, rest);
}

impl GroupContext {
    pub fn new(group_id: GroupId, epoch: GroupEpoch, tree_hash: Vec<u8>, confirmed_transcript_hash: Vec<u8>) -> (r:
        GroupContext)
        ensures
            r@ == (GroupContextView {
                group_id: group_id@,
                epoch: epoch.0,
                tree_hash: tree_hash@,
                confirmed_transcript_hash: confirmed_transcript_hash@,
            }),
    {
        GroupContext { group_id, epoch, tree_hash, confirmed_transcript_hash }
    }

    /// The context as it stands on the wire: the bytes that signatures
    /// and key derivations of the epoch are bound to. Fails where a part
    /// has more than 255 bytes.
    pub fn encode_detached(&self) -> (r: Result<Vec<u8>, CodecError>)
        ensures
            self@.encodable() ==> r.is_ok() && r.unwrap()@ == self@.wire(),
            !self@.encodable() ==> r.is_err() && r.unwrap_err() == CodecError::EncodingError,
    {
        let mut buffer: Vec<u8> = Vec::new();
        match encode_vec(VecSize::VecU8, &mut buffer, self.group_id.value.as_slice()) {
            Ok(()) => {},
            Err(e) => {
                return Err(e);
            },
        }
        encode_u64(&mut buffer, self.epoch.0);
        match encode_vec(VecSize::VecU8, &mut buffer, self.tree_hash.as_slice()) {
            Ok(()) => {},
            Err(e) => {
                return Err(e);
            },
        }
        match encode_vec(VecSize::VecU8, &mut buffer, self.confirmed_transcript_hash.as_slice()) {
            Ok(()) => {},
            Err(e) => {
                return Err(e);
            },
        }
        assert(buffer@ =~= self@.wire());
        Ok(buffer)
    }

    /// Reads a context; fails where the bytes end early.
    pub fn decode(cursor: &mut Cursor) -> (r: Result<GroupContext, CodecError>)
        ensures
            match GroupContextView::parse(old(cursor).remaining()) {
                Some((c, rest)) => r.is_ok() && r.unwrap()@ == c && final(cursor).remaining()
                    == rest,
                None => r.is_err() && r.unwrap_err() == CodecError::DecodingError,
            },
    {
        let group_id = match cursor.decode_vec(VecSize::VecU8) {
            Ok(v) => v,
            Err(e) => {
                return Err(e);
            },
        };
        let epoch = match cursor.decode_u64() {
            Ok(v) => v,
            Err(e) => {
                return Err(e);
            },
        };
        let tree_hash = match cursor.decode_vec(VecSize::VecU8) {
            Ok(v) => v,
            Err(e) => {
                return Err(e);
            },
        };
        let confirmed_transcript_hash = match cursor.decode_vec(VecSize::VecU8) {
            Ok(v) => v,
            Err(e) => {
                return Err(e);
            },
        };
        Ok(
            GroupContext {
                group_id: GroupId { value: group_id },
                epoch: GroupEpoch(epoch),
                tree_hash,
                confirmed_transcript_hash,
            },
        )
    }

    /// The context of the epoch that a commit opens. None at the last
    /// epoch that 64 bits can count.
    pub fn advance(&self, tree_hash: Vec<u8>, confirmed_transcript_hash: Vec<u8>) -> (r: Option<
        GroupContext,
    >)
        ensures
            self@.epoch < u64::MAX ==> r.is_some() && r.unwrap()@ == self@.advance(
                tree_hash@,
                confirmed_transcript_hash@,
            ),
            self@.epoch == u64::MAX ==> r.is_none(),
    {
        if self.epoch.0 == u64::MAX {
            return None;
        }
        Some(
            GroupContext {
                group_id: self.group_id.clone(),
                epoch: GroupEpoch(self.epoch.0 + 1),
                tree_hash,
                confirmed_transcript_hash,
            },
        )
    }
}

impl Clone for GroupContext {
    fn clone(&self) -> (r: Self)
        ensures
            r@ == self@,
    {
        GroupContext {
            group_id: self.group_id.clone(),
            epoch: self.epoch,
            tree_hash: copy_bytes(self.tree_hash.as_slice()),
            confirmed_transcript_hash: copy_bytes(self.confirmed_transcript_hash.as_slice()),
        }
    }
}

impl PartialEq for GroupContext {
    fn eq(&self, other: &Self) -> (r: bool) {
        bytes_eq(self.group_id.value.as_slice(), other.group_id.value.as_slice()) && self.epoch.0
            == other.epoch.0 && bytes_eq(self.tree_hash.as_slice(), other.tree_hash.as_slice())
            && bytes_eq(
            self.confirmed_transcript_hash.as_slice(),
            other.confirmed_transcript_hash.as_slice(),
        )
    }
}

impl PartialEqSpecImpl for GroupContext {
    open spec fn obeys_eq_spec() -> bool {
        true
    }

    open spec fn eq_spec(&self, other: &Self) -> bool {
        self@ == other@
    }
}

} // verus!
