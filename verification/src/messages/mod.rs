use vstd::prelude::*;
use crate::codec::{
    append_bytes, encode_vec, join_bytes, lemma_list_round_trip, lemma_parse_u8, lemma_parse_vec,
    lemma_parse_vec_len, lemma_vec_len, spec_byte_views, spec_concat, spec_option,
    spec_parse_list, spec_parse_u8, spec_parse_vec, spec_u8, spec_vec, CodecError, Cursor,
    VecSize,
};
use crate::creds::{Credential, CredentialView};
use crate::messages::proposals::{spec_id_views, ProposalID, ProposalIDList};
use crate::tree::paths::{lemma_direct_path_round_trip, DirectPath, DirectPathView};

pub mod proposals;

verus! {

/// The views of a list of credentials.
pub open spec fn spec_credential_views(s: Seq<Credential>) -> Seq<CredentialView> {
    s.map_values(|c: Credential| c@)
}

/// Who a commit has changed: the members that updated their keys, those
/// that were removed and those that were added, each list in the order in
/// which the commit was applied.
#[derive(Debug)]
pub struct MembershipChanges {
    pub updates: Vec<Credential>,
    pub removes: Vec<Credential>,
    pub adds: Vec<Credential>,
}

pub struct MembershipChangesView {
    pub updates: Seq<CredentialView>,
    pub removes: Seq<CredentialView>,
    pub adds: Seq<CredentialView>,
}

impl View for MembershipChanges {
    type V = MembershipChangesView;

    open spec fn view(&self) -> MembershipChangesView {
        MembershipChangesView {
            updates: spec_credential_views(self.updates@),
            removes: spec_credential_views(self.removes@),
            adds: spec_credential_views(self.adds@),
        }
    }
}


/// A commit: the proposals that it applies, by kind and in the order in
/// which it applies them, and the committer's direct path where it sends
/// one.
#[derive(Debug)]
pub struct Commit {
    pub updates: Vec<ProposalID>,
    pub removes: Vec<ProposalID>,
    pub adds: Vec<ProposalID>,
    pub path: Option<DirectPath>,
}

pub struct CommitView {
    pub updates: Seq<Seq<u8>>,
    pub removes: Seq<Seq<u8>>,
    pub adds: Seq<Seq<u8>>,
    pub path: Option<DirectPathView>,
}

impl View for Commit {
    type V = CommitView;

    open spec fn view(&self) -> CommitView {
        CommitView {
            updates: spec_id_views(self.updates@),
            removes: spec_id_views(self.removes@),
            adds: spec_id_views(self.adds@),
            path: match self.path {
                Some(p) => Some(p@),
                None => None,
            },
        }
    }
}

/// A list of identifiers as it stands on the wire: each behind a one-byte
/// length, all behind a two-byte length.
pub open spec fn spec_id_list(ids: Seq<Seq<u8>>) -> Seq<u8> {
    spec_vec(
        VecSize::VecU16,
        spec_concat(ids.map_values(|id: Seq<u8>| spec_vec(VecSize::VecU8, id))),
    )
}

/// Whether a list of identifiers can be written.
pub open spec fn spec_id_list_encodable(ids: Seq<Seq<u8>>) -> bool {
    (forall|i: int| 0 <= i < ids.len() ==> (#[trigger] ids[i]).len() <= 0xff) && spec_concat(
        ids.map_values(|id: Seq<u8>| spec_vec(VecSize::VecU8, id)),
    ).len() <= 0xffff
}

impl CommitView {
    /// Whether every part of the commit can be written.
    pub open spec fn encodable(self) -> bool {
        &&& spec_id_list_encodable(self.updates)
        &&& spec_id_list_encodable(self.removes)
        &&& spec_id_list_encodable(self.adds)
        &&& self.path.is_some() ==> self.path.unwrap().encodable()
    }

    /// The commit on the wire: the three lists of identifiers, then the
    /// path as an optional value.
    pub open spec fn wire(self) -> Seq<u8> {
        spec_id_list(self.updates) + spec_id_list(self.removes) + spec_id_list(self.adds)
            + spec_option(
            match self.path {
                Some(p) => Some(p.wire()),
                None => None,
            },
        )
    }

    /// Whether the commit has to carry a direct path: it has where it
    /// applies no proposal at all, or an update, or a removal. A commit
    /// that only adds members may do without.
    pub open spec fn path_required(self) -> bool {
        self.updates.len() > 0 || self.removes.len() > 0 || self.adds.len() == 0
    }
}

/// The identifier that a byte string starts with, and what follows it.
/// An identifier has at least 32 bytes.
pub open spec fn spec_parse_id(s: Seq<u8>) -> Option<(Seq<u8>, Seq<u8>)> {
    match spec_parse_vec(VecSize::VecU8, s) {
        Some((id, rest)) => if id.len() >= 32 {
            Some((id, rest))
        } else {
            None
        },
        None => None,
    }
}

/// The list of identifiers that a byte string starts with, and what
/// follows it.
pub open spec fn spec_parse_id_list(s: Seq<u8>) -> Option<(Seq<Seq<u8>>, Seq<u8>)> {
    match spec_parse_vec(VecSize::VecU16, s) {
        Some((payload, rest)) => match spec_parse_list(payload, |b: Seq<u8>| spec_parse_id(b)) {
            Some(ids) => Some((ids, rest)),
            None => None,
        },
        None => None,
    }
}

/// Reading a list of identifiers that was written gives it back.
pub proof fn lemma_id_list_round_trip(ids: Seq<Seq<u8>>, rest: Seq<u8>)
    requires
        spec_id_list_encodable(ids),
        forall|i: int| 0 <= i < ids.len() ==> (#[trigger] ids[i]).len() >= 32,
    ensures
        spec_parse_id_list(spec_id_list(ids) + rest) == Some((ids, rest)),
{
    let wire = |id: Seq<u8>| spec_vec(VecSize::VecU8, id);
    let item = |b: Seq<u8>| spec_parse_id(b);
    let payload = spec_concat(ids.map_values(wire));
    lemma_parse_vec(VecSize::VecU16, payload, rest);
    assert forall|i: int, r: Seq<u8>| 0 <= i < ids.len() implies #[trigger] item(wire(ids[i]) + r)
        == Some((ids[i], r)) by {
        lemma_parse_vec(VecSize::VecU8, ids[i], r);
    }
    assert forall|i: int| 0 <= i < ids.len() implies (#[trigger] wire(ids[i])).len() > 0 by {
        lemma_vec_len(VecSize::VecU8, ids[i]);
    }
    lemma_list_round_trip(ids, wire, item);
}

fn decode_id_list(cursor: &mut Cursor) -> (r: Result<Vec<ProposalID>, CodecError>)
    ensures
        match spec_parse_id_list(old(cursor).remaining()) {
            Some((ids, rest)) => r.is_ok() && spec_id_views(r.unwrap()@) == ids && final(cursor).remaining() == rest,
            None => r.is_err() && r.unwrap_err() == CodecError::DecodingError,
        },
{
    let payload = match cursor.decode_vec(VecSize::VecU16) {
        Ok(v) => v,
        Err(e) => {
            return Err(e);
        },
    };
    let ghost item = |b: Seq<u8>| spec_parse_id(b);
    let ghost expected = spec_parse_id_list(old(cursor).remaining());
    let ghost after = cursor.remaining();
    let mut inner = Cursor::new(payload.as_slice());
    let mut ids: Vec<ProposalID> = Vec::new();
    assert(spec_id_views(ids@) =~= Seq::<Seq<u8>>::empty());
    while !inner.is_empty()
        invariant
            item == |b: Seq<u8>| spec_parse_id(b),
            cursor.remaining() == after,
            expected == spec_parse_id_list(old(cursor).remaining()),
            expected == match spec_parse_list(payload@, item) {
                Some(list) => Some((list, after)),
                None => None,
            },
            spec_parse_list(payload@, item) == match spec_parse_list(inner.remaining(), item) {
                Some(tail) => Some(spec_id_views(ids@) + tail),
                None => None,
            },
        decreases inner.remaining().len(),
    {
        let ghost before = inner.remaining();
        let ghost done = ids@;
        proof {
            lemma_parse_vec_len(VecSize::VecU8, before);
        }
        let id = match ProposalID::decode(&mut inner) {
            Ok(id) => id,
            Err(e) => {
                return Err(e);
            },
        };
        proof {
            assert(spec_id_views(done.push(id)) =~= spec_id_views(done).push(id@));
            match spec_parse_list(inner.remaining(), item) {
                Some(tail) => {
                    assert(spec_id_views(done) + (seq![id@] + tail) =~= spec_id_views(done).push(
                        id@,
                    ) + tail);
                },
                None => {},
            }
        }
        ids.push(id);
    }
    assert(spec_id_views(ids@) + Seq::<Seq<u8>>::empty() =~= spec_id_views(ids@));
    Ok(ids)
}

impl CommitView {
    /// Whether every identifier that the commit names has at least 32
    /// bytes, as every identifier has.
    pub open spec fn ids_long_enough(self) -> bool {
        &&& forall|i: int| 0 <= i < self.updates.len() ==> (#[trigger] self.updates[i]).len() >= 32
        &&& forall|i: int| 0 <= i < self.removes.len() ==> (#[trigger] self.removes[i]).len() >= 32
        &&& forall|i: int| 0 <= i < self.adds.len() ==> (#[trigger] self.adds[i]).len() >= 32
    }

    /// The commit that a byte string starts with, and what follows it.
    pub open spec fn parse(s: Seq<u8>) -> Option<(CommitView, Seq<u8>)> {
        match spec_parse_id_list(s) {
            Some((updates, r1)) => match spec_parse_id_list(r1) {
                Some((removes, r2)) => match spec_parse_id_list(r2) {
                    Some((adds, r3)) => match spec_parse_u8(r3) {
                        Some((has_path, r4)) => if has_path == 0 {
                            Some((CommitView { updates, removes, adds, path: None }, r4))
                        } else if has_path == 1 {
                            match DirectPathView::parse(r4) {
                                Some((path, r5)) => Some(
                                    (CommitView { updates, removes, adds, path: Some(path) }, r5),
                                ),
                                None => None,
                            }
                        } else {
                            None
                        },
                        None => None,
                    },
                    None => None,
                },
                None => None,
            },
            None => None,
        }
    }
}

/// Reading a commit that was written gives it back.
pub proof fn lemma_commit_round_trip(c: CommitView, rest: Seq<u8>)
    requires
        c.encodable(),
        c.ids_long_enough(),
    ensures
        CommitView::parse(c.wire() + rest) == Some((c, rest)),
{
    let path_part = spec_option(
        match c.path {
            Some(p) => Some(p.wire()),
            None => None,
        },
    );
    let r3 = path_part + rest;
    let r2 = spec_id_list(c.adds) + r3;
    let r1 = spec_id_list(c.removes) + r2;
    assert(c.wire() + rest =~= spec_id_list(c.updates) + r1);
    lemma_id_list_round_trip(c.updates, r1);
    lemma_id_list_round_trip(c.removes, r2);
    lemma_id_list_round_trip(c.adds, r3);
    match c.path {
        Some(p) => {
            assert(r3 =~= spec_u8(1) + (p.wire() + rest));
            lemma_parse_u8(1, p.wire() + rest);
            lemma_direct_path_round_trip(p, rest);
        },
        None => {
            assert(r3 =~= spec_u8(0) + rest);
            lemma_parse_u8(0, rest);
        },
    }
}

fn encode_id_list(buffer: &mut Vec<u8>, ids: &Vec<ProposalID>) -> (r: Result<(), CodecError>)
    ensures
        spec_id_list_encodable(spec_id_views(ids@)) ==> r.is_ok() && final(buffer)@ == old(buffer)@ + spec_id_list(spec_id_views(ids@)),
        !spec_id_list_encodable(spec_id_views(ids@)) ==> r.is_err() && r.unwrap_err()
            == CodecError::EncodingError && final(buffer)@ == old(buffer)@,
{
    let ghost views = spec_id_views(ids@);
    let ghost wires = views.map_values(|id: Seq<u8>| spec_vec(VecSize::VecU8, id));
    let mut encoded: Vec<Vec<u8>> = Vec::new();
    let mut i: usize = 0;
    assert(spec_byte_views(encoded@) =~= wires.take(0));
    while i < ids.len()
        invariant
            i <= ids@.len(),
            views == spec_id_views(ids@),
            wires == views.map_values(|id: Seq<u8>| spec_vec(VecSize::VecU8, id)),
            spec_byte_views(encoded@) == wires.take(i as int),
            forall|j: int| 0 <= j < i ==> (#[trigger] views[j]).len() <= 0xff,
            buffer@ == old(buffer)@,
        decreases ids@.len() - i,
    {
        let ghost done = encoded@;
        assert(views[i as int] == ids@[i as int]@);
        let mut bytes: Vec<u8> = Vec::new();
        match ids[i].encode(&mut bytes) {
            Ok(()) => {},
            Err(e) => {
                return Err(e);
            },
        }
        assert(bytes@ =~= spec_vec(VecSize::VecU8, views[i as int]));
        assert(spec_byte_views(done.push(bytes)) =~= spec_byte_views(done).push(bytes@));
        encoded.push(bytes);
        i += 1;
        assert(spec_byte_views(encoded@) =~= wires.take(i as int));
    }
    assert(wires.take(i as int) =~= wires);
    let payload = join_bytes(&encoded);
    encode_vec(VecSize::VecU16, buffer, payload.as_slice())
}

impl Commit {
    /// The commit that applies the proposals of `lists`, with or without
    /// a direct path.
    pub fn new(lists: ProposalIDList, path: Option<DirectPath>) -> (r: Commit)
        ensures
            r@ == (CommitView {
                updates: spec_id_views(lists.updates@),
                removes: spec_id_views(lists.removes@),
                adds: spec_id_views(lists.adds@),
                path: match path {
                    Some(p) => Some(p@),
                    None => None,
                },
            }),
    {
        Commit { updates: lists.updates, removes: lists.removes, adds: lists.adds, path }
    }

    /// Reads a commit; fails where the bytes end early or do not hold a
    /// commit.
    pub fn decode(cursor: &mut Cursor) -> (r: Result<Commit, CodecError>)
        ensures
            match CommitView::parse(old(cursor).remaining()) {
                Some((c, rest)) => r.is_ok() && r.unwrap()@ == c && final(cursor).remaining()
                    == rest,
                None => r.is_err() && r.unwrap_err() == CodecError::DecodingError,
            },
    {
        let updates = match decode_id_list(cursor) {
            Ok(v) => v,
            Err(e) => {
                return Err(e);
            },
        };
        let removes = match decode_id_list(cursor) {
            Ok(v) => v,
            Err(e) => {
                return Err(e);
            },
        };
        let adds = match decode_id_list(cursor) {
            Ok(v) => v,
            Err(e) => {
                return Err(e);
            },
        };
        let has_path = match cursor.decode_u8() {
            Ok(v) => v,
            Err(e) => {
                return Err(e);
            },
        };
        let path = if has_path == 0 {
            None
        } else if has_path == 1 {
            match DirectPath::decode(cursor) {
                Ok(p) => Some(p),
                Err(e) => {
                    return Err(e);
                },
            }
        } else {
            return Err(CodecError::DecodingError);
        };
        Ok(Commit { updates, removes, adds, path })
    }

    /// Whether the commit has to carry a direct path.
    pub fn path_required(&self) -> (r: bool)
        ensures
            r == self@.path_required(),
    {
        self.updates.len() > 0 || self.removes.len() > 0 || self.adds.len() == 0
    }

    /// The commit as it stands on the wire; fails where a part cannot be
    /// written.
    pub fn encode_detached(&self) -> (r: Result<Vec<u8>, CodecError>)
        ensures
            self@.encodable() ==> r.is_ok() && r.unwrap()@ == self@.wire(),
            !self@.encodable() ==> r.is_err() && r.unwrap_err() == CodecError::EncodingError,
    {
        let mut buffer: Vec<u8> = Vec::new();
        match encode_id_list(&mut buffer, &self.updates) {
            Ok(()) => {},
            Err(e) => {
                return Err(e);
            },
        }
        match encode_id_list(&mut buffer, &self.removes) {
            Ok(()) => {},
            Err(e) => {
                return Err(e);
            },
        }
        match encode_id_list(&mut buffer, &self.adds) {
            Ok(()) => {},
            Err(e) => {
                return Err(e);
            },
        }
        match &self.path {
            Some(path) => {
                let bytes = match path.encode_detached() {
                    Ok(bytes) => bytes,
                    Err(e) => {
                        return Err(e);
                    },
                };
                buffer.push(1u8);
                append_bytes(&mut buffer, bytes.as_slice());
            },
            None => {
                buffer.push(0u8);
            },
        }
        assert(buffer@ =~= self@.wire());
        Ok(buffer)
    }
}

} // verus!
