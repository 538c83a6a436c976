use vstd::prelude::*;

verus! {

/// Why a value could not be written or read.
#[derive(Clone, Copy, Debug, PartialEq, Eq, Structural)]
pub enum CodecError {
    /// A vector is longer than its length prefix can say.
    EncodingError,
    /// The bytes end early or hold a value that the field does not admit.
    DecodingError,
}

/// Width of the length prefix of a vector.
#[derive(Clone, Copy, Debug, PartialEq, Eq, Structural)]
pub enum VecSize {
    VecU8,
    VecU16,
    VecU24,
    VecU32,
}

/// Number of bytes of a length prefix.
pub open spec fn spec_prefix_width(size: VecSize) -> nat {
    match size {
        VecSize::VecU8 => 1,
        VecSize::VecU16 => 2,
        VecSize::VecU24 => 3,
        VecSize::VecU32 => 4,
    }
}

/// Longest payload, in bytes, that a length prefix can announce.
pub open spec fn spec_max_len(size: VecSize) -> nat {
    match size {
        VecSize::VecU8 => 0xff,
        VecSize::VecU16 => 0xffff,
        VecSize::VecU24 => 0xff_ffff,
        VecSize::VecU32 => 0xffff_ffff,
    }
}

pub open spec fn spec_u8(v: u8) -> Seq<u8> {
    seq![v]
}

/// Two bytes, high byte first.
#[verifier::opaque]
pub open spec fn spec_u16(v: u16) -> Seq<u8> {
    seq![(v / 0x100) as u8, (v % 0x100) as u8]
}

/// Three bytes, high byte first, of a value below `2^24`.
#[verifier::opaque]
pub open spec fn spec_u24(v: u32) -> Seq<u8> {
    seq![((v / 0x1_0000) % 0x100) as u8, ((v / 0x100) % 0x100) as u8, (v % 0x100) as u8]
}

/// Four bytes, high byte first.
#[verifier::opaque]
pub open spec fn spec_u32(v: u32) -> Seq<u8> {
    seq![
        (v / 0x100_0000) as u8,
        ((v / 0x1_0000) % 0x100) as u8,
        ((v / 0x100) % 0x100) as u8,
        (v % 0x100) as u8,
    ]
}

/// Eight bytes, high byte first.
pub open spec fn spec_u64(v: u64) -> Seq<u8> {
    spec_u32((v / 0x1_0000_0000) as u32) + spec_u32((v % 0x1_0000_0000) as u32)
}

/// The length prefix that announces `len` payload bytes.
#[verifier::opaque]
pub open spec fn spec_prefix(size: VecSize, len: nat) -> Seq<u8> {
    match size {
        VecSize::VecU8 => spec_u8(len as u8),
        VecSize::VecU16 => spec_u16(len as u16),
        VecSize::VecU24 => spec_u24(len as u32),
        VecSize::VecU32 => spec_u32(len as u32),
    }
}

/// A byte vector on the wire: its length, then its bytes.
#[verifier::opaque]
pub open spec fn spec_vec(size: VecSize, data: Seq<u8>) -> Seq<u8> {
    spec_prefix(size, data.len()) + data
}

/// An optional value on the wire: a tag byte, then the value where there is
/// one.
pub open spec fn spec_option(payload: Option<Seq<u8>>) -> Seq<u8> {
    match payload {
        Some(bytes) => seq![1u8] + bytes,
        None => seq![0u8],
    }
}

pub open spec fn spec_parse_u8(s: Seq<u8>) -> Option<(u8, Seq<u8>)> {
    if s.len() < 1 {
        None
    } else {
        Some((s[0], s.skip(1)))
    }
}

#[verifier::opaque]
pub open spec fn spec_parse_u16(s: Seq<u8>) -> Option<(u16, Seq<u8>)> {
    if s.len() < 2 {
        None
    } else {
        Some(((s[0] * 0x100 + s[1]) as u16, s.skip(2)))
    }
}

#[verifier::opaque]
pub open spec fn spec_parse_u24(s: Seq<u8>) -> Option<(u32, Seq<u8>)> {
    if s.len() < 3 {
        None
    } else {
        Some(((s[0] * 0x1_0000 + s[1] * 0x100 + s[2]) as u32, s.skip(3)))
    }
}

#[verifier::opaque]
pub open spec fn spec_parse_u32(s: Seq<u8>) -> Option<(u32, Seq<u8>)> {
    if s.len() < 4 {
        None
    } else {
        Some(((s[0] * 0x100_0000 + s[1] * 0x1_0000 + s[2] * 0x100 + s[3]) as u32, s.skip(4)))
    }
}

#[verifier::opaque]
pub open spec fn spec_parse_u64(s: Seq<u8>) -> Option<(u64, Seq<u8>)> {
    if s.len() < 8 {
        None
    } else {
        Some(
            (
                ((s[0] * 0x100_0000 + s[1] * 0x1_0000 + s[2] * 0x100 + s[3]) * 0x1_0000_0000 + (s[4]
                    * 0x100_0000 + s[5] * 0x1_0000 + s[6] * 0x100 + s[7])) as u64,
                s.skip(8),
            ),
        )
    }
}

/// The length that a prefix announces, and what follows the prefix.
#[verifier::opaque]
pub open spec fn spec_parse_prefix(size: VecSize, s: Seq<u8>) -> Option<(nat, Seq<u8>)> {
    match size {
        VecSize::VecU8 => match spec_parse_u8(s) {
            Some((v, rest)) => Some((v as nat, rest)),
            None => None,
        },
        VecSize::VecU16 => match spec_parse_u16(s) {
            Some((v, rest)) => Some((v as nat, rest)),
            None => None,
        },
        VecSize::VecU24 => match spec_parse_u24(s) {
            Some((v, rest)) => Some((v as nat, rest)),
            None => None,
        },
        VecSize::VecU32 => match spec_parse_u32(s) {
            Some((v, rest)) => Some((v as nat, rest)),
            None => None,
        },
    }
}

/// A byte vector read from the wire, and what follows it.
#[verifier::opaque]
pub open spec fn spec_parse_vec(size: VecSize, s: Seq<u8>) -> Option<(Seq<u8>, Seq<u8>)> {
    match spec_parse_prefix(size, s) {
        Some((len, rest)) => if rest.len() < len {
            None
        } else {
            Some((rest.take(len as int), rest.skip(len as int)))
        },
        None => None,
    }
}

/// Reading what `spec_u8` wrote gives the value back.
pub proof fn lemma_parse_u8(v: u8, rest: Seq<u8>)
    ensures
        spec_parse_u8(spec_u8(v) + rest) == Some((v, rest)),
{
    assert((spec_u8(v) + rest).skip(1) =~= rest);
}

/// Reading what `spec_u16` wrote gives the value back.
pub proof fn lemma_parse_u16(v: u16, rest: Seq<u8>)
    ensures
        spec_parse_u16(spec_u16(v) + rest) == Some((v, rest)),
{
    reveal(spec_u16);
    reveal(spec_parse_u16);
    assert((spec_u16(v) + rest).skip(2) =~= rest);
}

/// Reading what `spec_u24` wrote gives the value back.
pub proof fn lemma_parse_u24(v: u32, rest: Seq<u8>)
    requires
        v <= 0xff_ffff,
    ensures
        spec_parse_u24(spec_u24(v) + rest) == Some((v, rest)),
{
    reveal(spec_u24);
    reveal(spec_parse_u24);
    assert((spec_u24(v) + rest).skip(3) =~= rest);
}

/// The four bytes of `spec_u32` put together again give the value.
pub proof fn lemma_u32_bytes(v: u32)
    ensures
        spec_u32(v)[0] * 0x100_0000 + spec_u32(v)[1] * 0x1_0000 + spec_u32(v)[2] * 0x100
            + spec_u32(v)[3] == v,
{
    reveal(spec_u32);
    let a = v / 0x100_0000;
    let b = (v / 0x1_0000) % 0x100;
    let c = (v / 0x100) % 0x100;
    let d = v % 0x100;
    assert(a * 0x100_0000 + b * 0x1_0000 + c * 0x100 + d == v);
}

/// Reading what `spec_u32` wrote gives the value back.
pub proof fn lemma_parse_u32(v: u32, rest: Seq<u8>)
    ensures
        spec_parse_u32(spec_u32(v) + rest) == Some((v, rest)),
{
    reveal(spec_u32);
    reveal(spec_parse_u32);
    let s = spec_u32(v) + rest;
    lemma_u32_bytes(v);
    assert(s.skip(4) =~= rest);
    assert(s[0] == spec_u32(v)[0] && s[1] == spec_u32(v)[1] && s[2] == spec_u32(v)[2] && s[3]
        == spec_u32(v)[3]);
}

/// Reading what `spec_u64` wrote gives the value back.
pub proof fn lemma_parse_u64(v: u64, rest: Seq<u8>)
    ensures
        spec_parse_u64(spec_u64(v) + rest) == Some((v, rest)),
{
    reveal(spec_u32);
    reveal(spec_parse_u64);
    let s = spec_u64(v) + rest;
    let hi = (v / 0x1_0000_0000) as u32;
    let lo = (v % 0x1_0000_0000) as u32;
    lemma_u32_bytes(hi);
    lemma_u32_bytes(lo);
    assert(s.skip(8) =~= rest);
    assert(s[0] == spec_u32(hi)[0] && s[1] == spec_u32(hi)[1] && s[2] == spec_u32(hi)[2] && s[3]
        == spec_u32(hi)[3]);
    assert(s[4] == spec_u32(lo)[0] && s[5] == spec_u32(lo)[1] && s[6] == spec_u32(lo)[2] && s[7]
        == spec_u32(lo)[3]);
    assert(hi * 0x1_0000_0000 + lo == v);
}

/// Reading the prefix that announces `len` gives `len` back.
pub proof fn lemma_parse_prefix(size: VecSize, len: nat, rest: Seq<u8>)
    requires
        len <= spec_max_len(size),
    ensures
        spec_parse_prefix(size, spec_prefix(size, len) + rest) == Some((len, rest)),
        spec_prefix(size, len).len() == spec_prefix_width(size),
{
    reveal(spec_prefix);
    reveal(spec_parse_prefix);
    reveal(spec_u16);
    reveal(spec_u24);
    reveal(spec_u32);
    match size {
        VecSize::VecU8 => lemma_parse_u8(len as u8, rest),
        VecSize::VecU16 => lemma_parse_u16(len as u16, rest),
        VecSize::VecU24 => lemma_parse_u24(len as u32, rest),
        VecSize::VecU32 => lemma_parse_u32(len as u32, rest),
    }
}

/// Reading a byte vector that was written gives its bytes back.
pub proof fn lemma_parse_vec(size: VecSize, data: Seq<u8>, rest: Seq<u8>)
    requires
        data.len() <= spec_max_len(size),
    ensures
        spec_parse_vec(size, spec_vec(size, data) + rest) == Some((data, rest)),
{
    reveal(spec_vec);
    reveal(spec_parse_vec);
    lemma_parse_prefix(size, data.len(), data + rest);
    assert(spec_vec(size, data) + rest =~= spec_prefix(size, data.len()) + (data + rest));
    assert((data + rest).take(data.len() as int) =~= data);
    assert((data + rest).skip(data.len() as int) =~= rest);
}

/// A byte vector on the wire is as long as its prefix and its bytes.
pub proof fn lemma_vec_len(size: VecSize, data: Seq<u8>)
    ensures
        spec_vec(size, data).len() == spec_prefix_width(size) + data.len(),
{
    reveal(spec_vec);
    reveal(spec_prefix);
    reveal(spec_u16);
    reveal(spec_u24);
    reveal(spec_u32);
}

/// What a fixed-width read leaves is shorter by the width.
pub proof fn lemma_parse_int_len(s: Seq<u8>)
    ensures
        spec_parse_u8(s).is_some() ==> s.len() == spec_parse_u8(s).unwrap().1.len() + 1,
        spec_parse_u16(s).is_some() ==> s.len() == spec_parse_u16(s).unwrap().1.len() + 2,
        spec_parse_u24(s).is_some() ==> s.len() == spec_parse_u24(s).unwrap().1.len() + 3,
        spec_parse_u32(s).is_some() ==> s.len() == spec_parse_u32(s).unwrap().1.len() + 4,
        spec_parse_u64(s).is_some() ==> s.len() == spec_parse_u64(s).unwrap().1.len() + 8,
{
    reveal(spec_parse_u16);
    reveal(spec_parse_u24);
    reveal(spec_parse_u32);
    reveal(spec_parse_u64);
}

/// What the read of a byte vector leaves is shorter by the prefix and the
/// vector.
pub proof fn lemma_parse_vec_len(size: VecSize, s: Seq<u8>)
    ensures
        spec_parse_vec(size, s).is_some() ==> s.len() == spec_prefix_width(size) + spec_parse_vec(
            size,
            s,
        ).unwrap().0.len() + spec_parse_vec(size, s).unwrap().1.len() && spec_parse_vec(
            size,
            s,
        ).unwrap().0.len() <= spec_max_len(size),
{
    reveal(spec_parse_vec);
    reveal(spec_parse_prefix);
    reveal(spec_parse_u16);
    reveal(spec_parse_u24);
    reveal(spec_parse_u32);
}

/// A list of byte strings, one behind the other.
pub open spec fn spec_concat(items: Seq<Seq<u8>>) -> Seq<u8>
    decreases items.len(),
{
    if items.len() == 0 {
        Seq::empty()
    } else {
        spec_concat(items.drop_last()) + items.last()
    }
}

/// The items that a byte string holds, one behind the other, where `item`
/// reads one item from the front of a byte string. None where the bytes
/// end inside an item.
pub open spec fn spec_parse_list<T>(
    s: Seq<u8>,
    item: spec_fn(Seq<u8>) -> Option<(T, Seq<u8>)>,
) -> Option<Seq<T>>
    decreases s.len(),
{
    if s.len() == 0 {
        Some(Seq::empty())
    } else {
        match item(s) {
            Some((first, rest)) => if rest.len() >= s.len() {
                None
            } else {
                match spec_parse_list(rest, item) {
                    Some(tail) => Some(seq![first] + tail),
                    None => None,
                }
            },
            None => None,
        }
    }
}

/// A list of byte strings put together is the first, then the others put
/// together.
pub proof fn lemma_concat_front(first: Seq<u8>, others: Seq<Seq<u8>>)
    ensures
        spec_concat(seq![first] + others) == first + spec_concat(others),
    decreases others.len(),
{
    let all = seq![first] + others;
    if others.len() == 0 {
        assert(all.drop_last() =~= Seq::<Seq<u8>>::empty());
        assert(all.last() == first);
        assert(spec_concat(all.drop_last()) =~= Seq::<u8>::empty());
        assert(spec_concat(all) =~= first);
        assert(first + spec_concat(others) =~= first);
    } else {
        assert(all.drop_last() =~= seq![first] + others.drop_last());
        assert(all.last() == others.last());
        lemma_concat_front(first, others.drop_last());
        assert(spec_concat(all) =~= first + spec_concat(others));
    }
}

/// Reading a list of items that was written gives it back, where reading
/// one item that was written gives it back and no item is written as
/// nothing.
pub proof fn lemma_list_round_trip<T>(
    items: Seq<T>,
    wire: spec_fn(T) -> Seq<u8>,
    item: spec_fn(Seq<u8>) -> Option<(T, Seq<u8>)>,
)
    requires
        forall|i: int, rest: Seq<u8>|
            0 <= i < items.len() ==> #[trigger] item(wire(items[i]) + rest) == Some(
                (items[i], rest),
            ),
        forall|i: int| 0 <= i < items.len() ==> (#[trigger] wire(items[i])).len() > 0,
    ensures
        spec_parse_list(spec_concat(items.map_values(wire)), item) == Some(items),
    decreases items.len(),
{
    if items.len() > 0 {
        let first = items[0];
        let tail = items.drop_first();
        assert(items.map_values(wire) =~= seq![wire(first)] + tail.map_values(wire));
        lemma_concat_front(wire(first), tail.map_values(wire));
        let rest = spec_concat(tail.map_values(wire));
        assert(item(wire(items[0]) + rest) == Some((items[0], rest)));
        assert(wire(items[0]).len() > 0);
        assert forall|i: int, r: Seq<u8>| 0 <= i < tail.len() implies #[trigger] item(
            wire(tail[i]) + r,
        ) == Some((tail[i], r)) by {
            assert(tail[i] == items[i + 1]);
        }
        assert forall|i: int| 0 <= i < tail.len() implies (#[trigger] wire(tail[i])).len() > 0 by {
            assert(tail[i] == items[i + 1]);
        }
        lemma_list_round_trip(tail, wire, item);
        assert(seq![first] + tail =~= items);
    } else {
        assert(items.map_values(wire) =~= Seq::<Seq<u8>>::empty());
    }
}

/// The views of a list of byte strings.
pub open spec fn spec_byte_views(items: Seq<Vec<u8>>) -> Seq<Seq<u8>> {
    items.map_values(|v: Vec<u8>| v@)
}

/// Puts a list of byte strings one behind the other.
pub fn join_bytes(items: &Vec<Vec<u8>>) -> (r: Vec<u8>)
    ensures
        r@ == spec_concat(spec_byte_views(items@)),
{
    let ghost views = spec_byte_views(items@);
    let mut r: Vec<u8> = Vec::new();
    let mut i: usize = 0;
    while i < items.len()
        invariant
            i <= items@.len(),
            views == spec_byte_views(items@),
            r@ == spec_concat(views.take(i as int)),
        decreases items@.len() - i,
    {
        proof {
            assert(views.take(i + 1).drop_last() =~= views.take(i as int));
            assert(views.take(i + 1).last() == items@[i as int]@);
        }
        append_bytes(&mut r, items[i].as_slice());
        i += 1;
    }
    assert(views.take(i as int) =~= views);
    r
}

/// Whether two byte strings are equal.
pub fn bytes_eq(a: &[u8], b: &[u8]) -> (r: bool)
    ensures
        r == (a@ == b@),
{
    if a.len() != b.len() {
        return false;
    }
    let mut i: usize = 0;
    while i < a.len()
        invariant
            a@.len() == b@.len(),
            i <= a@.len(),
            forall|j: int| 0 <= j < i ==> a@[j] == b@[j],
        decreases a@.len() - i,
    {
        if a[i] != b[i] {
            return false;
        }
        i += 1;
    }
    assert(a@ =~= b@);
    true
}

/// A copy of a byte string.
pub fn copy_bytes(a: &[u8]) -> (r: Vec<u8>)
    ensures
        r@ == a@,
{
    let mut r: Vec<u8> = Vec::new();
    let mut i: usize = 0;
    while i < a.len()
        invariant
            i <= a@.len(),
            r@ == a@.take(i as int),
        decreases a@.len() - i,
    {
        r.push(a[i]);
        i += 1;
        assert(r@ =~= a@.take(i as int));
    }
    assert(a@.take(i as int) =~= a@);
    r
}

/// Appends `data` to `buffer`.
pub fn append_bytes(buffer: &mut Vec<u8>, data: &[u8])
    ensures
        final(buffer)@ == old(buffer)@ + data@,
{
    let mut i: usize = 0;
    while i < data.len()
        invariant
            i <= data@.len(),
            buffer@ == old(buffer)@ + data@.take(i as int),
        decreases data@.len() - i,
    {
        buffer.push(data[i]);
        i += 1;
        assert(buffer@ =~= old(buffer)@ + data@.take(i as int));
    }
    assert(data@.take(i as int) =~= data@);
}

pub fn encode_u8(buffer: &mut Vec<u8>, v: u8)
    ensures
        final(buffer)@ == old(buffer)@ + spec_u8(v),
{
    buffer.push(v);
    assert(buffer@ =~= old(buffer)@ + spec_u8(v));
}

pub fn encode_u16(buffer: &mut Vec<u8>, v: u16)
    ensures
        final(buffer)@ == old(buffer)@ + spec_u16(v),
{
    proof {
        reveal(spec_u16);
    }
    buffer.push((v / 0x100) as u8);
    buffer.push((v % 0x100) as u8);
    assert(buffer@ =~= old(buffer)@ + spec_u16(v));
}

pub fn encode_u24(buffer: &mut Vec<u8>, v: u32)
    requires
        v <= 0xff_ffff,
    ensures
        final(buffer)@ == old(buffer)@ + spec_u24(v),
{
    proof {
        reveal(spec_u24);
    }
    buffer.push(((v / 0x1_0000) % 0x100) as u8);
    buffer.push(((v / 0x100) % 0x100) as u8);
    buffer.push((v % 0x100) as u8);
    assert(buffer@ =~= old(buffer)@ + spec_u24(v));
}

pub fn encode_u32(buffer: &mut Vec<u8>, v: u32)
    ensures
        final(buffer)@ == old(buffer)@ + spec_u32(v),
{
    proof {
        reveal(spec_u32);
    }
    buffer.push((v / 0x100_0000) as u8);
    buffer.push(((v / 0x1_0000) % 0x100) as u8);
    buffer.push(((v / 0x100) % 0x100) as u8);
    buffer.push((v % 0x100) as u8);
    assert(buffer@ =~= old(buffer)@ + spec_u32(v));
}

pub fn encode_u64(buffer: &mut Vec<u8>, v: u64)
    ensures
        final(buffer)@ == old(buffer)@ + spec_u64(v),
{
    encode_u32(buffer, (v / 0x1_0000_0000) as u32);
    encode_u32(buffer, (v % 0x1_0000_0000) as u32);
    assert(buffer@ =~= old(buffer)@ + spec_u64(v));
}

/// Writes a byte vector behind its length prefix. Fails, and leaves the
/// buffer as it was, where the vector is longer than the prefix can say.
pub fn encode_vec(size: VecSize, buffer: &mut Vec<u8>, data: &[u8]) -> (r: Result<(), CodecError>)
    ensures
        data@.len() <= spec_max_len(size) ==> r.is_ok() && final(buffer)@ == old(buffer)@
            + spec_vec(size, data@),
        data@.len() > spec_max_len(size) ==> r == Err::<(), CodecError>(CodecError::EncodingError)
            && final(buffer)@ == old(buffer)@,
{
    proof {
        reveal(spec_vec);
        reveal(spec_prefix);
    }
    let len: usize = data.len();
    match size {
        VecSize::VecU8 => {
            if len > 0xff {
                return Err(CodecError::EncodingError);
            }
            encode_u8(buffer, len as u8);
        },
        VecSize::VecU16 => {
            if len > 0xffff {
                return Err(CodecError::EncodingError);
            }
            encode_u16(buffer, len as u16);
        },
        VecSize::VecU24 => {
            if len > 0xff_ffff {
                return Err(CodecError::EncodingError);
            }
            encode_u24(buffer, len as u32);
        },
        VecSize::VecU32 => {
            if len > 0xffff_ffff {
                return Err(CodecError::EncodingError);
            }
            encode_u32(buffer, len as u32);
        },
    }
    append_bytes(buffer, data);
    assert(buffer@ =~= old(buffer)@ + spec_vec(size, data@));
    Ok(())
}

/// A reading position in a byte string.
pub struct Cursor<'a> {
    bytes: &'a [u8],
    position: usize,
}

impl<'a> Cursor<'a> {
    #[verifier::type_invariant]
    spec fn valid(self) -> bool {
        self.position <= self.bytes@.len()
    }

    /// The bytes that have not been read yet.
    pub closed spec fn remaining(self) -> Seq<u8> {
        self.bytes@.skip(self.position as int)
    }

    pub fn new(bytes: &'a [u8]) -> (c: Cursor<'a>)
        ensures
            c.remaining() == bytes@,
    {
        assert(bytes@.skip(0) =~= bytes@);
        Cursor { bytes, position: 0 }
    }

    /// Whether every byte has been read.
    pub fn is_empty(&self) -> (r: bool)
        ensures
            r == (self.remaining().len() == 0),
    {
        proof {
            use_type_invariant(self);
        }
        self.position == self.bytes.len()
    }

    /// Number of bytes that have not been read yet.
    pub fn has_more(&self) -> (r: usize)
        ensures
            r == self.remaining().len(),
    {
        proof {
            use_type_invariant(self);
        }
        self.bytes.len() - self.position
    }

    /// Reads `n` bytes; fails, without moving, where fewer are left.
    pub fn consume(&mut self, n: usize) -> (r: Result<Vec<u8>, CodecError>)
        ensures
            old(self).remaining().len() >= n ==> r.is_ok() && r.unwrap()@ == old(self).remaining().take(n as int) && final(self).remaining() == old(self).remaining().skip(
                n as int,
            ),
            old(self).remaining().len() < n ==> r == Err::<Vec<u8>, CodecError>(
                CodecError::DecodingError,
            ) && final(self).remaining() == old(self).remaining(),
    {
        proof {
            use_type_invariant(&*self);
        }
        if self.bytes.len() - self.position < n {
            return Err(CodecError::DecodingError);
        }
        let bytes: &[u8] = self.bytes;
        let start: usize = self.position;
        let total: usize = bytes.len();
        let mut out: Vec<u8> = Vec::new();
        let mut i: usize = 0;
        while i < n
            invariant
                i <= n,
                start + n <= total,
                total == bytes@.len(),
                out@ == bytes@.subrange(start as int, start + i),
            decreases n - i,
        {
            out.push(bytes[start + i]);
            i += 1;
            assert(out@ =~= bytes@.subrange(start as int, start + i));
        }
        self.position = start + n;
        assert(out@ =~= old(self).remaining().take(n as int));
        assert(self.remaining() =~= old(self).remaining().skip(n as int));
        Ok(out)
    }

    pub fn decode_u8(&mut self) -> (r: Result<u8, CodecError>)
        ensures
            match spec_parse_u8(old(self).remaining()) {
                Some((v, rest)) => r == Ok::<u8, CodecError>(v) && final(self).remaining() == rest,
                None => r == Err::<u8, CodecError>(CodecError::DecodingError) && final(self).remaining() == old(self).remaining(),
            },
    {
        match self.consume(1) {
            Ok(b) => Ok(b[0]),
            Err(e) => Err(e),
        }
    }

    pub fn decode_u16(&mut self) -> (r: Result<u16, CodecError>)
        ensures
            match spec_parse_u16(old(self).remaining()) {
                Some((v, rest)) => r == Ok::<u16, CodecError>(v) && final(self).remaining() == rest,
                None => r == Err::<u16, CodecError>(CodecError::DecodingError) && final(self).remaining() == old(self).remaining(),
            },
    {
        proof {
            reveal(spec_parse_u16);
        }
        match self.consume(2) {
            Ok(b) => Ok((b[0] as u16) * 0x100 + (b[1] as u16)),
            Err(e) => Err(e),
        }
    }

    pub fn decode_u24(&mut self) -> (r: Result<u32, CodecError>)
        ensures
            match spec_parse_u24(old(self).remaining()) {
                Some((v, rest)) => r == Ok::<u32, CodecError>(v) && final(self).remaining() == rest,
                None => r == Err::<u32, CodecError>(CodecError::DecodingError) && final(self).remaining() == old(self).remaining(),
            },
    {
        proof {
            reveal(spec_parse_u24);
        }
        match self.consume(3) {
            Ok(b) => Ok((b[0] as u32) * 0x1_0000 + (b[1] as u32) * 0x100 + (b[2] as u32)),
            Err(e) => Err(e),
        }
    }

    pub fn decode_u32(&mut self) -> (r: Result<u32, CodecError>)
        ensures
            match spec_parse_u32(old(self).remaining()) {
                Some((v, rest)) => r == Ok::<u32, CodecError>(v) && final(self).remaining() == rest,
                None => r == Err::<u32, CodecError>(CodecError::DecodingError) && final(self).remaining() == old(self).remaining(),
            },
    {
        proof {
            reveal(spec_parse_u32);
        }
        match self.consume(4) {
            Ok(b) => Ok(
                (b[0] as u32) * 0x100_0000 + (b[1] as u32) * 0x1_0000 + (b[2] as u32) * 0x100 + (
                b[3] as u32),
            ),
            Err(e) => Err(e),
        }
    }

    pub fn decode_u64(&mut self) -> (r: Result<u64, CodecError>)
        ensures
            match spec_parse_u64(old(self).remaining()) {
                Some((v, rest)) => r == Ok::<u64, CodecError>(v) && final(self).remaining() == rest,
                None => r == Err::<u64, CodecError>(CodecError::DecodingError) && final(self).remaining() == old(self).remaining(),
            },
    {
        proof {
            reveal(spec_parse_u64);
        }
        match self.consume(8) {
            Ok(b) => {
                let hi: u64 = (b[0] as u64) * 0x100_0000 + (b[1] as u64) * 0x1_0000 + (b[2] as u64)
                    * 0x100 + (b[3] as u64);
                let lo: u64 = (b[4] as u64) * 0x100_0000 + (b[5] as u64) * 0x1_0000 + (b[6] as u64)
                    * 0x100 + (b[7] as u64);
                Ok(hi * 0x1_0000_0000 + lo)
            },
            Err(e) => Err(e),
        }
    }

    /// Reads a byte vector behind its length prefix; fails, without moving,
    /// where the bytes end before the vector does.
    pub fn decode_vec(&mut self, size: VecSize) -> (r: Result<Vec<u8>, CodecError>)
        ensures
            match spec_parse_vec(size, old(self).remaining()) {
                Some((data, rest)) => r.is_ok() && r.unwrap()@ == data && final(self).remaining()
                    == rest,
                None => r == Err::<Vec<u8>, CodecError>(CodecError::DecodingError) && final(self).remaining() == old(self).remaining(),
            },
    {
        proof {
            reveal(spec_parse_vec);
            reveal(spec_parse_prefix);
        }
        proof {
            reveal(spec_parse_u16);
            reveal(spec_parse_u24);
            reveal(spec_parse_u32);
        }
        proof {
            use_type_invariant(&*self);
        }
        let bytes: &[u8] = self.bytes;
        let start: usize = self.position;
        let avail: usize = bytes.len() - start;
        let ghost s = self.remaining();
        let width: usize = match size {
            VecSize::VecU8 => 1,
            VecSize::VecU16 => 2,
            VecSize::VecU24 => 3,
            VecSize::VecU32 => 4,
        };
        if avail < width {
            return Err(CodecError::DecodingError);
        }
        assert(forall|j: int| 0 <= j < width ==> s[j] == bytes@[start + j]);
        let len: usize = match size {
            VecSize::VecU8 => bytes[start] as usize,
            VecSize::VecU16 => (bytes[start] as usize) * 0x100 + (bytes[start + 1] as usize),
            VecSize::VecU24 => (bytes[start] as usize) * 0x1_0000 + (bytes[start + 1] as usize)
                * 0x100 + (bytes[start + 2] as usize),
            VecSize::VecU32 => (bytes[start] as usize) * 0x100_0000 + (bytes[start + 1] as usize)
                * 0x1_0000 + (bytes[start + 2] as usize) * 0x100 + (bytes[start + 3] as usize),
        };
        if avail - width < len {
            return Err(CodecError::DecodingError);
        }
        self.position = start + width;
        assert(self.remaining() =~= s.skip(width as int));
        self.consume(len)
    }
}

} // verus!
