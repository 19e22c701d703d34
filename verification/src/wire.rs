//! Protobuf field keys and the per-field calls into prost that encode,
//! measure, read and skip fields.

use vstd::prelude::*;
use prost::encoding::WireType;
use crate::varint::{
    encode_varint,
    lemma_varint_decode_facts, lemma_varint_decode_prefix, lemma_varint_roundtrip, varint_bytes,
    varint_decode,
};
use vstd::utf8::{decode_utf8, encode_utf8, valid_utf8};

verus! {

/// The wire type of a protobuf field, as carried in the low three bits of
/// its key.
#[derive(Clone, Copy, Debug, PartialEq, Eq, Structural)]
pub enum WireKind {
    Varint,
    SixtyFourBit,
    LengthDelimited,
    StartGroup,
    EndGroup,
    ThirtyTwoBit,
}

impl WireKind {
    /// The number protobuf gives this wire type.
    pub open spec fn code(self) -> u8 {
        match self {
            WireKind::Varint => 0,
            WireKind::SixtyFourBit => 1,
            WireKind::LengthDelimited => 2,
            WireKind::StartGroup => 3,
            WireKind::EndGroup => 4,
            WireKind::ThirtyTwoBit => 5,
        }
    }
}

/// The largest field number protobuf allows.
pub open spec fn max_tag() -> u32 {
    0x1fff_ffff
}

/// The bytes of the key of field `tag` with wire type `wire`.
pub open spec fn key_bytes(tag: u32, wire: u8) -> Seq<u8> {
    varint_bytes((tag * 8 + wire) as u64)
}

/// What prost's `decode_key` reads from the front of `s`: the field number,
/// the wire type code and the number of bytes of the key.  A key is refused
/// when it is beyond 32 bits, names an unknown wire type or field 0.
pub open spec fn key_decode(s: Seq<u8>) -> Option<(u32, u8, nat)> {
    match varint_decode(s) {
        Some((k, n)) => if k > u32::MAX || k % 8 > 5 || k / 8 == 0 {
            None
        } else {
            Some(((k / 8) as u32, (k % 8) as u8, n))
        },
        None => None,
    }
}

/// The unsigned 64-bit number prost writes for an `int32` value: its two's
/// complement sign extension.
pub open spec fn int32_wire(v: i32) -> u64 {
    (v as int % 0x1_0000_0000_0000_0000) as u64
}

/// The `int32` value prost keeps of a decoded 64-bit number: its low 32
/// bits read as two's complement.
pub open spec fn int32_from_wire(x: u64) -> i32 {
    let r = x as int % 0x1_0000_0000;
    if r >= 0x8000_0000 {
        (r - 0x1_0000_0000) as i32
    } else {
        r as i32
    }
}

/// A length-delimited payload at the front of `s`: a varint length, then
/// that many bytes.  Gives the payload and the number of bytes taken.
pub open spec fn delimited(s: Seq<u8>) -> Option<(Seq<u8>, nat)> {
    match varint_decode(s) {
        Some((len, n)) => if len > s.len() - n {
            None
        } else {
            Some((s.subrange(n as int, n + len), (n + len) as nat))
        },
        None => None,
    }
}

/// The recursion budget prost's decoders start from.
pub open spec fn recursion_limit() -> nat {
    100
}

/// How many bytes prost's `skip_field` takes from the front of `s` to skip
/// the body of a field of wire type `wire` and number `tag` whose key has
/// been read, with `budget` levels of nesting left; `None` when it reports
/// an error.  No level left is an error; a varint is read and dropped; a
/// 64-bit and a 32-bit field take 8 and 4 bytes; a length-delimited field
/// takes its length and payload; a group takes its fields, each skipped
/// with one level less, up to an end key of its own number; an end key
/// outside a group is an error.
pub open spec fn skip_len(wire: u8, tag: u32, s: Seq<u8>, budget: nat) -> Option<nat>
    decreases budget, s.len(), 1nat,
{
    if budget == 0 {
        None
    } else if wire == 0 {
        match varint_decode(s) {
            Some((_, n)) => Some(n),
            None => None,
        }
    } else if wire == 1 {
        if s.len() < 8 {
            None
        } else {
            Some(8)
        }
    } else if wire == 2 {
        match delimited(s) {
            Some((_, n)) => Some(n),
            None => None,
        }
    } else if wire == 3 {
        group_len(tag, s, (budget - 1) as nat)
    } else if wire == 5 {
        if s.len() < 4 {
            None
        } else {
            Some(4)
        }
    } else {
        None
    }
}

/// How many bytes the rest of a group of number `tag` takes from the front
/// of `s`: the fields, each skipped with `inner` levels left, then the end
/// key.  An end key of another number, or a field that cannot be skipped, is
/// an error.  (Every key takes a byte and no field takes more than what
/// follows its key, as `lemma_skip_len_bound` shows, so the test on the
/// length taken never fails; it only makes the recursion visibly finite.)
pub open spec fn group_len(tag: u32, s: Seq<u8>, inner: nat) -> Option<nat>
    decreases inner + 1, s.len(), 0nat,
{
    match key_decode(s) {
        None => None,
        Some((t, w, k)) => if w == 4 {
            if t == tag {
                Some(k)
            } else {
                None
            }
        } else {
            let r = s.skip(k as int);
            match skip_len(w, t, r, inner) {
                None => None,
                Some(m) => if 1 <= k && k + m <= s.len() {
                    match group_len(tag, r.skip(m as int), inner) {
                        Some(g) => Some(k + m + g),
                        None => None,
                    }
                } else {
                    None
                },
            }
        }
    }
}

pub proof fn lemma_key_decode_len(s: Seq<u8>)
    requires
        key_decode(s) is Some,
    ensures
        1 <= key_decode(s).unwrap().2 <= s.len(),
{
    lemma_varint_decode_facts(s);
}

pub proof fn lemma_delimited_len(s: Seq<u8>)
    requires
        delimited(s) is Some,
    ensures
        delimited(s).unwrap().1 <= s.len(),
        delimited(s).unwrap().0.len() <= delimited(s).unwrap().1,
{
    lemma_varint_decode_facts(s);
}

proof fn lemma_group_len_bound(tag: u32, s: Seq<u8>, inner: nat)
    ensures
        group_len(tag, s, inner) matches Some(n) ==> n <= s.len(),
    decreases s.len(),
{
    if let Some((t, w, k)) = key_decode(s) {
        lemma_key_decode_len(s);
        if w != 4 {
            let r = s.skip(k as int);
            if let Some(m) = skip_len(w, t, r, inner) {
                if 1 <= k && k + m <= s.len() {
                    lemma_group_len_bound(tag, r.skip(m as int), inner);
                }
            }
        }
    }
}

/// Skipping a field never takes more than the bytes that follow its key.
pub proof fn lemma_skip_len_bound(wire: u8, tag: u32, s: Seq<u8>, budget: nat)
    ensures
        skip_len(wire, tag, s, budget) matches Some(n) ==> n <= s.len(),
{
    if budget > 0 {
        if wire == 0 && varint_decode(s) is Some {
            lemma_varint_decode_facts(s);
        } else if wire == 2 && delimited(s) is Some {
            lemma_delimited_len(s);
        } else if wire == 3 {
            lemma_group_len_bound(tag, s, (budget - 1) as nat);
        }
    }
}

/// A key is read from its own bytes alone.
pub proof fn lemma_key_decode_prefix(s: Seq<u8>, x: Seq<u8>)
    requires
        key_decode(s) is Some,
    ensures
        key_decode(s.take(key_decode(s).unwrap().2 as int) + x) == key_decode(s),
{
    lemma_varint_decode_prefix(s, x);
}

/// A length-delimited payload is read from its own bytes alone.
pub proof fn lemma_delimited_prefix(s: Seq<u8>, x: Seq<u8>)
    requires
        delimited(s) is Some,
    ensures
        delimited(s.take(delimited(s).unwrap().1 as int) + x) == delimited(s),
{
    let (p, n) = delimited(s).unwrap();
    let (len, vn) = varint_decode(s).unwrap();
    lemma_varint_decode_facts(s);
    let t = s.take(n as int) + x;
    let y = s.subrange(vn as int, n as int) + x;
    assert(t =~= s.take(vn as int) + y);
    lemma_varint_decode_prefix(s, y);
    assert(t.subrange(vn as int, vn + len) =~= p);
}

/// Skipping a field reads only the bytes it takes: whatever follows them,
/// it takes the same.
pub proof fn lemma_skip_len_prefix(wire: u8, tag: u32, s: Seq<u8>, budget: nat, x: Seq<u8>)
    requires
        skip_len(wire, tag, s, budget) is Some,
    ensures
        skip_len(wire, tag, s, budget).unwrap() <= s.len(),
        skip_len(wire, tag, s.take(skip_len(wire, tag, s, budget).unwrap() as int) + x, budget)
            == skip_len(wire, tag, s, budget),
    decreases budget, s.len(), 1nat,
{
    let n = skip_len(wire, tag, s, budget).unwrap();
    lemma_skip_len_bound(wire, tag, s, budget);
    let t = s.take(n as int) + x;
    if wire == 0 {
        lemma_varint_decode_prefix(s, x);
    } else if wire == 2 {
        lemma_delimited_prefix(s, x);
    } else if wire == 3 {
        lemma_group_len_prefix(tag, s, (budget - 1) as nat, x);
    }
}

proof fn lemma_group_len_prefix(tag: u32, s: Seq<u8>, inner: nat, x: Seq<u8>)
    requires
        group_len(tag, s, inner) is Some,
    ensures
        group_len(tag, s, inner).unwrap() <= s.len(),
        group_len(tag, s.take(group_len(tag, s, inner).unwrap() as int) + x, inner) == group_len(tag, s, inner),
    decreases inner + 1, s.len(), 0nat,
{
    let n = group_len(tag, s, inner).unwrap();
    lemma_group_len_bound(tag, s, inner);
    let t = s.take(n as int) + x;
    let (kt, w, k) = key_decode(s).unwrap();
    lemma_key_decode_len(s);
    let y = s.subrange(k as int, n as int) + x;
    assert(t =~= s.take(k as int) + y);
    lemma_key_decode_prefix(s, y);
    if w != 4 {
        let r = s.skip(k as int);
        let m = skip_len(w, kt, r, inner).unwrap();
        let g = group_len(tag, r.skip(m as int), inner).unwrap();
        let rt = t.skip(k as int);
        let z = r.skip(m as int).take(g as int) + x;
        assert(rt =~= r.take(m as int) + z);
        lemma_skip_len_prefix(w, kt, r, inner, z);
        assert(rt.skip(m as int) =~= r.skip(m as int).take(g as int) + x);
        lemma_group_len_prefix(tag, r.skip(m as int), inner, x);
    }
}

/// Skipping a field with more levels of nesting left takes the same bytes
/// wherever it succeeds with fewer.
pub proof fn lemma_skip_len_monotone(wire: u8, tag: u32, s: Seq<u8>, budget: nat, more: nat)
    requires
        skip_len(wire, tag, s, budget) is Some,
        budget <= more,
    ensures
        skip_len(wire, tag, s, more) == skip_len(wire, tag, s, budget),
    decreases budget, s.len(), 1nat,
{
    if wire == 3 {
        lemma_group_len_monotone(tag, s, (budget - 1) as nat, (more - 1) as nat);
    }
}

proof fn lemma_group_len_monotone(tag: u32, s: Seq<u8>, inner: nat, more: nat)
    requires
        group_len(tag, s, inner) is Some,
        inner <= more,
    ensures
        group_len(tag, s, more) == group_len(tag, s, inner),
    decreases inner + 1, s.len(), 0nat,
{
    let (kt, w, k) = key_decode(s).unwrap();
    if w != 4 {
        let r = s.skip(k as int);
        let m = skip_len(w, kt, r, inner).unwrap();
        lemma_skip_len_monotone(w, kt, r, inner, more);
        lemma_group_len_monotone(tag, r.skip(m as int), inner, more);
    }
}

/// A field skipped with the default budget, taken out and closed in a group
/// of number 1 of its own, is skipped again exactly where it can be skipped
/// with one level less: the group's fields get one level less than the
/// group.
proof fn lemma_skip_wrapped(wire: u8, tag: u32, s: Seq<u8>, n: nat)
    requires
        1 <= tag <= max_tag(),
        wire <= 5,
        skip_len(wire, tag, s, recursion_limit()) == Some(n),
    ensures
        skip_len(3, 1, key_bytes(tag, wire) + s.take(n as int) + key_bytes(1, 4), recursion_limit()) is Some
            <==> skip_len(wire, tag, s, (recursion_limit() - 1) as nat) is Some,
{
    let lower = (recursion_limit() - 1) as nat;
    let end = key_bytes(1, 4);
    let body = s.take(n as int);
    let b = key_bytes(tag, wire) + body + end;
    lemma_skip_len_bound(wire, tag, s, recursion_limit());
    assert(b =~= key_bytes(tag, wire) + (body + end));
    lemma_key_roundtrip(tag, wire, body + end);
    lemma_key_decode_len(b);
    let kb = key_bytes(tag, wire).len();
    let r = b.skip(kb as int);
    assert(r =~= body + end);
    lemma_skip_len_prefix(wire, tag, s, recursion_limit(), end);
    lemma_key_roundtrip(1, 4, Seq::empty());
    assert(r.skip(n as int) =~= end);
    assert(end + Seq::<u8>::empty() =~= end);
    assert(wire != 4);
    assert(key_decode(b) == Some((tag, wire, kb)));
    assert(skip_len(3, 1, b, recursion_limit()) == group_len(1, b, lower));
    assert(key_decode(end) == Some((1u32, 4u8, end.len())));
    assert(group_len(1, end, lower) == Some(end.len()));
    if skip_len(wire, tag, s, lower) is Some {
        lemma_skip_len_monotone(wire, tag, s, lower, recursion_limit());
        lemma_skip_len_prefix(wire, tag, s, lower, end);
        assert(skip_len(wire, tag, r, lower) == Some(n));
        assert(group_len(1, b, lower) is Some);
    }
    if skip_len(wire, tag, r, lower) is Some {
        lemma_skip_len_monotone(wire, tag, r, lower, recursion_limit());
        lemma_skip_len_prefix(wire, tag, r, lower, s.skip(n as int));
        assert(r.take(n as int) + s.skip(n as int) =~= s);
    }
}

pub proof fn lemma_int32_wire_roundtrip(v: i32)
    ensures
        int32_from_wire(int32_wire(v)) == v,
{
}

pub proof fn lemma_key_roundtrip(tag: u32, wire: u8, rest: Seq<u8>)
    requires
        1 <= tag <= max_tag(),
        wire <= 5,
    ensures
        key_decode(key_bytes(tag, wire) + rest) == Some((tag, wire, key_bytes(tag, wire).len())),
{
    lemma_varint_roundtrip((tag * 8 + wire) as u64, rest);
}

pub proof fn lemma_delimited_roundtrip(payload: Seq<u8>, rest: Seq<u8>)
    requires
        payload.len() <= u64::MAX,
    ensures
        delimited(varint_bytes(payload.len() as u64) + payload + rest)
            == Some((payload, varint_bytes(payload.len() as u64).len() + payload.len())),
{
    let head = varint_bytes(payload.len() as u64);
    let s = head + payload + rest;
    assert(s =~= head + (payload + rest));
    lemma_varint_roundtrip(payload.len() as u64, payload + rest);
    assert(s.subrange(head.len() as int, (head.len() + payload.len()) as int) =~= payload);
}

/// Reads a field key from the front of `data` (`prost::encoding::decode_key`).
#[verifier::external_body]
pub(crate) fn decode_key(data: &[u8]) -> (res: Result<(u32, WireKind, &[u8]), prost::DecodeError>)
    ensures
        res is Ok <==> key_decode(data@) is Some,
        res matches Ok((tag, wire, rest)) ==> ({
            let (t, w, n) = key_decode(data@).unwrap();
            tag == t && wire.code() == w && rest@ == data@.skip(n as int)
        }),
{
    let mut buf: &[u8] = data;
    match prost::encoding::decode_key(&mut buf) {
        Ok((tag, WireType::Varint)) => Ok((tag, WireKind::Varint, buf)),
        Ok((tag, WireType::SixtyFourBit)) => Ok((tag, WireKind::SixtyFourBit, buf)),
        Ok((tag, WireType::LengthDelimited)) => Ok((tag, WireKind::LengthDelimited, buf)),
        Ok((tag, WireType::StartGroup)) => Ok((tag, WireKind::StartGroup, buf)),
        Ok((tag, WireType::EndGroup)) => Ok((tag, WireKind::EndGroup, buf)),
        Ok((tag, WireType::ThirtyTwoBit)) => Ok((tag, WireKind::ThirtyTwoBit, buf)),
        Err(e) => Err(e),
    }
}

/// Appends field `tag` holding the `int32` `value` to `buf`
/// (`prost::encoding::int32::encode`): its key, then the sign-extended value
/// as a varint.
#[verifier::external_body]
pub(crate) fn int32_encode(tag: u32, value: i32, buf: &mut Vec<u8>)
    requires
        1 <= tag <= max_tag(),
    ensures
        final(buf)@ == old(buf)@ + key_bytes(tag, 0) + varint_bytes(int32_wire(value)),
{
    prost::encoding::int32::encode(tag, &value, buf);
}

/// Appends field `tag` holding the string `value` to `buf`
/// (`prost::encoding::string::encode`): its key, the length of its UTF-8
/// bytes as a varint, then those bytes.
#[verifier::external_body]
pub(crate) fn string_encode(tag: u32, value: &String, buf: &mut Vec<u8>)
    requires
        1 <= tag <= max_tag(),
    ensures
        final(buf)@ == old(buf)@ + key_bytes(tag, 2) + varint_bytes(
            encode_utf8(value@).len() as u64,
        ) + encode_utf8(value@),
{
    prost::encoding::string::encode(tag, value, buf);
}

/// Appends field `tag` holding the bytes `value` to `buf`
/// (`prost::encoding::bytes::encode`): its key, their length as a varint,
/// then the bytes.
#[verifier::external_body]
pub(crate) fn bytes_encode(tag: u32, value: &Vec<u8>, buf: &mut Vec<u8>)
    requires
        1 <= tag <= max_tag(),
    ensures
        final(buf)@ == old(buf)@ + key_bytes(tag, 2) + varint_bytes(value@.len() as u64) + value@,
{
    prost::encoding::bytes::encode(tag, value, buf);
}

/// The number of bytes `int32_encode` writes (`prost::encoding::int32::encoded_len`).
#[verifier::external_body]
pub(crate) fn int32_encoded_len(tag: u32, value: i32) -> (len: usize)
    requires
        1 <= tag <= max_tag(),
    ensures
        len == (key_bytes(tag, 0) + varint_bytes(int32_wire(value))).len(),
{
    prost::encoding::int32::encoded_len(tag, &value)
}

/// The number of bytes `string_encode` writes
/// (`prost::encoding::string::encoded_len`); the sum must fit in `usize`.
#[verifier::external_body]
pub(crate) fn string_encoded_len(tag: u32, value: &String) -> (len: usize)
    requires
        1 <= tag <= max_tag(),
        encode_utf8(value@).len() + 20 <= usize::MAX,
    ensures
        len == (key_bytes(tag, 2) + varint_bytes(encode_utf8(value@).len() as u64)
            + encode_utf8(value@)).len(),
{
    prost::encoding::string::encoded_len(tag, value)
}

/// The number of bytes `bytes_encode` writes
/// (`prost::encoding::bytes::encoded_len`); the sum must fit in `usize`.
#[verifier::external_body]
pub(crate) fn bytes_encoded_len(tag: u32, value: &Vec<u8>) -> (len: usize)
    requires
        1 <= tag <= max_tag(),
        value@.len() + 20 <= usize::MAX,
    ensures
        len == (key_bytes(tag, 2) + varint_bytes(value@.len() as u64) + value@).len(),
{
    prost::encoding::bytes::encoded_len(tag, value)
}

/// Reads the varint payload of an `int32` field into `value`
/// (`prost::encoding::int32::merge`, called with the varint wire type, which
/// the caller has checked).  On failure `value` is left as it was.
#[verifier::external_body]
pub(crate) fn int32_merge<'a>(value: &mut i32, data: &'a [u8]) -> (res: Result<&'a [u8], prost::DecodeError>)
    ensures
        res is Ok <==> varint_decode(data@) is Some,
        res matches Ok(rest) ==> ({
            let (x, n) = varint_decode(data@).unwrap();
            *final(value) == int32_from_wire(x) && rest@ == data@.skip(n as int)
        }),
        res is Err ==> *final(value) == *old(value),
{
    let mut buf: &[u8] = data;
    let ctx = prost::encoding::DecodeContext::default();
    match prost::encoding::int32::merge(WireType::Varint, value, &mut buf, ctx) {
        Ok(()) => Ok(buf),
        Err(e) => Err(e),
    }
}

/// Reads a length-delimited string payload into `value`
/// (`prost::encoding::string::merge`, called with the length-delimited wire
/// type, which the caller has checked).  It fails when the length runs past
/// the data or the payload is not UTF-8; `value` is then left empty.
#[verifier::external_body]
pub(crate) fn string_merge<'a>(value: &mut String, data: &'a [u8]) -> (res: Result<&'a [u8], prost::DecodeError>)
    ensures
        res is Ok <==> (delimited(data@) matches Some((p, n)) && valid_utf8(p)),
        res matches Ok(rest) ==> ({
            let (p, n) = delimited(data@).unwrap();
            final(value)@ == decode_utf8(p) && rest@ == data@.skip(n as int)
        }),
        res is Err ==> final(value)@.len() == 0,
{
    let mut buf: &[u8] = data;
    let ctx = prost::encoding::DecodeContext::default();
    match prost::encoding::string::merge(WireType::LengthDelimited, value, &mut buf, ctx) {
        Ok(()) => Ok(buf),
        Err(e) => Err(e),
    }
}

/// Reads a length-delimited bytes payload into `value`
/// (`prost::encoding::bytes::merge`, called with the length-delimited wire
/// type, which the caller has checked).  It fails when the length runs past
/// the data; `value` is then left as it was.
#[verifier::external_body]
pub(crate) fn bytes_merge<'a>(value: &mut Vec<u8>, data: &'a [u8]) -> (res: Result<&'a [u8], prost::DecodeError>)
    ensures
        res is Ok <==> delimited(data@) is Some,
        res matches Ok(rest) ==> ({
            let (p, n) = delimited(data@).unwrap();
            final(value)@ == p && rest@ == data@.skip(n as int)
        }),
        res is Err ==> final(value)@ == old(value)@,
{
    let mut buf: &[u8] = data;
    let ctx = prost::encoding::DecodeContext::default();
    match prost::encoding::bytes::merge(WireType::LengthDelimited, value, &mut buf, ctx) {
        Ok(()) => Ok(buf),
        Err(e) => Err(e),
    }
}

/// Skips the body of a field this message does not know
/// (`prost::encoding::skip_field`, with the default recursion budget): what
/// is left of `data` after the bytes `skip_len` counts.
#[verifier::external_body]
pub(crate) fn skip_field<'a>(wire: WireKind, tag: u32, data: &'a [u8]) -> (res: Result<&'a [u8], prost::DecodeError>)
    ensures
        res is Ok <==> skip_len(wire.code(), tag, data@, recursion_limit()) is Some,
        res matches Ok(rest) ==> rest@ == data@.skip(
            skip_len(wire.code(), tag, data@, recursion_limit()).unwrap() as int,
        ),
{
    let wt = match wire {
        WireKind::Varint => WireType::Varint,
        WireKind::SixtyFourBit => WireType::SixtyFourBit,
        WireKind::LengthDelimited => WireType::LengthDelimited,
        WireKind::StartGroup => WireType::StartGroup,
        WireKind::EndGroup => WireType::EndGroup,
        WireKind::ThirtyTwoBit => WireType::ThirtyTwoBit,
    };
    let mut buf: &[u8] = data;
    match prost::encoding::skip_field(wt, tag, &mut buf, prost::encoding::DecodeContext::default()) {
        Ok(()) => Ok(buf),
        Err(e) => Err(e),
    }
}

/// The number of a wire type.
fn wire_code(wire: WireKind) -> (c: u8)
    ensures
        c == wire.code(),
{
    match wire {
        WireKind::Varint => 0,
        WireKind::SixtyFourBit => 1,
        WireKind::LengthDelimited => 2,
        WireKind::StartGroup => 3,
        WireKind::EndGroup => 4,
        WireKind::ThirtyTwoBit => 5,
    }
}

/// Skips the body of a field a message inside a length-delimited frame
/// does not know: as `skip_field` does, with one level of nesting less, as
/// prost's `decode_length_delimited` allows.  prost gives no way to start
/// from a lower budget, so the field, once skipped, is skipped again closed
/// in a group of its own, whose fields prost skips with one level less than
/// the group.  `None` when either skip fails.
pub(crate) fn skip_field_nested<'a>(wire: WireKind, tag: u32, data: &'a [u8]) -> (res: Option<&'a [u8]>)
    requires
        1 <= tag <= max_tag(),
    ensures
        res is Some <==> skip_len(wire.code(), tag, data@, (recursion_limit() - 1) as nat) is Some,
        res matches Some(rest) ==> rest@ == data@.skip(
            skip_len(wire.code(), tag, data@, (recursion_limit() - 1) as nat).unwrap() as int,
        ),
{
    let ghost lower = (recursion_limit() - 1) as nat;
    let rest = match skip_field(wire, tag, data) {
        Ok(r) => r,
        Err(_) => {
            proof {
                if skip_len(wire.code(), tag, data@, lower) is Some {
                    lemma_skip_len_monotone(wire.code(), tag, data@, lower, recursion_limit());
                }
            }
            return None;
        },
    };
    let ghost n = skip_len(wire.code(), tag, data@, recursion_limit()).unwrap();
    proof {
        lemma_skip_len_bound(wire.code(), tag, data@, recursion_limit());
        lemma_skip_wrapped(wire.code(), tag, data@, n);
    }
    let taken = data.len() - rest.len();
    let mut wrapped: Vec<u8> = Vec::new();
    encode_varint((tag as u64) * 8 + (wire_code(wire) as u64), &mut wrapped);
    let mut body = vstd::slice::slice_to_vec(vstd::slice::slice_subrange(data, 0, taken));
    wrapped.append(&mut body);
    encode_varint(12, &mut wrapped);
    assert(wrapped@ =~= key_bytes(tag, wire.code()) + data@.take(n as int) + key_bytes(1, 4));
    match skip_field(WireKind::StartGroup, 1, wrapped.as_slice()) {
        Ok(_) => {
            proof {
                if skip_len(wire.code(), tag, data@, lower) is Some {
                    lemma_skip_len_monotone(wire.code(), tag, data@, lower, recursion_limit());
                }
            }
            Some(rest)
        },
        Err(_) => None,
    }
}

} // verus!
