//! The one message type of the dropfile protocol, its protobuf encoding
//! and decoding, and the framing of several messages in one buffer.

use vstd::prelude::*;
use vstd::utf8::{decode_utf8, encode_utf8, valid_utf8};
use crate::varint::{
    encode_varint, encoded_len_varint, lemma_varint_bytes_len, lemma_varint_decode_facts,
    lemma_varint_roundtrip, lemma_varint_strict_prefix, length_delimiter_len, decode_varint, varint_bytes, varint_decode,
};
use crate::text::{decimal, push_decimal, push_i32, signed_decimal};
use crate::wire::{
    bytes_encode, bytes_encoded_len, bytes_merge, decode_key, delimited, int32_encode,
    int32_encoded_len, int32_from_wire, int32_merge, int32_wire, key_bytes, key_decode,
    lemma_delimited_len, lemma_delimited_roundtrip, lemma_int32_wire_roundtrip, lemma_key_decode_len,
    lemma_key_roundtrip, lemma_skip_len_bound, recursion_limit, skip_field, skip_field_nested,
    skip_len,
    string_encode, string_encoded_len, string_merge, WireKind,
};

verus! {

/// The request or reply a message carries.
#[derive(Clone, Copy, Debug, PartialEq, Eq, Hash, PartialOrd, Ord)]
pub enum Action {
    DeleteFile,
    AddFile,
    GetFile,
    GetFileList,
    Login,
    Logout,
    Error,
    Register,
}

impl Action {
    /// The number an action has on the wire.
    pub open spec fn spec_code(self) -> i32 {
        match self {
            Action::DeleteFile => 0,
            Action::AddFile => 1,
            Action::GetFile => 2,
            Action::GetFileList => 3,
            Action::Login => 4,
            Action::Logout => 5,
            Action::Error => 6,
            Action::Register => 7,
        }
    }

    /// The action a wire number stands for, if any.
    pub open spec fn spec_from_i32(value: i32) -> Option<Action> {
        if value == 0 {
            Some(Action::DeleteFile)
        } else if value == 1 {
            Some(Action::AddFile)
        } else if value == 2 {
            Some(Action::GetFile)
        } else if value == 3 {
            Some(Action::GetFileList)
        } else if value == 4 {
            Some(Action::Login)
        } else if value == 5 {
            Some(Action::Logout)
        } else if value == 6 {
            Some(Action::Error)
        } else if value == 7 {
            Some(Action::Register)
        } else {
            None
        }
    }

    /// The number of this action on the wire.
    pub fn code(self) -> (c: i32)
        ensures
            c == self.spec_code(),
    {
        match self {
            Action::DeleteFile => 0,
            Action::AddFile => 1,
            Action::GetFile => 2,
            Action::GetFileList => 3,
            Action::Login => 4,
            Action::Logout => 5,
            Action::Error => 6,
            Action::Register => 7,
        }
    }

    /// The action with wire number `value`; `None` for numbers no action has.
    pub fn from_i32(value: i32) -> (a: Option<Action>)
        ensures
            a == Action::spec_from_i32(value),
    {
        if value == 0 {
            Some(Action::DeleteFile)
        } else if value == 1 {
            Some(Action::AddFile)
        } else if value == 2 {
            Some(Action::GetFile)
        } else if value == 3 {
            Some(Action::GetFileList)
        } else if value == 4 {
            Some(Action::Login)
        } else if value == 5 {
            Some(Action::Logout)
        } else if value == 6 {
            Some(Action::Error)
        } else if value == 7 {
            Some(Action::Register)
        } else {
            None
        }
    }
}

/// Every action is found again from its wire number, and a number names an
/// action exactly when it is one of theirs.
pub proof fn law_action_code_roundtrip(a: Action, value: i32)
    ensures
        Action::spec_from_i32(a.spec_code()) == Some(a),
        Action::spec_from_i32(value) matches Some(b) ==> b.spec_code() == value,
        Action::spec_from_i32(value) is Some <==> 0 <= value <= 7,
{
}

/// A message of the protocol: an action number (field 1, `int32`), a file
/// name (field 2, `string`) and a payload (field 3, `bytes`).
#[derive(Clone, PartialEq, Debug)]
pub struct SomeMessage {
    pub action: i32,
    pub filename: String,
    pub data: Vec<u8>,
}

/// The contents of a message.
#[verifier::ext_equal]
pub struct MessageModel {
    pub action: i32,
    pub filename: Seq<char>,
    pub data: Seq<u8>,
}

impl View for SomeMessage {
    type V = MessageModel;

    open spec fn view(&self) -> MessageModel {
        MessageModel { action: self.action, filename: self.filename@, data: self.data@ }
    }
}

/// Why a buffer is not a message.
#[derive(Clone, Copy, Debug, PartialEq, Eq, Structural)]
pub enum DecodeFault {
    /// A known field came with a wire type other than its own.
    WireTypeMismatch,
    /// The bytes are not protobuf: a bad key or varint, a length past the
    /// end, a name that is not UTF-8, or an unknown field that cannot be skipped.
    Malformed,
}

/// Why a message was not written.
#[derive(Clone, Copy, Debug, PartialEq, Eq, Structural)]
pub enum EncodeFault {
    /// The buffer has no room for the bytes.
    InsufficientCapacity,
}

/// The message with every field at its default: action 0, no name, no data.
pub open spec fn empty_model() -> MessageModel {
    MessageModel { action: 0, filename: Seq::empty(), data: Seq::empty() }
}

/// The number of content bytes of a message: its name in UTF-8 and its data.
pub open spec fn content_len(m: MessageModel) -> int {
    (encode_utf8(m.filename).len() + m.data.len()) as int
}

/// A message whose contents fit in memory, so that its length and its
/// encoding can be computed.
pub open spec fn fits(m: MessageModel) -> bool {
    content_len(m) <= isize::MAX
}

/// Field 1, written only when the action is not 0.
pub open spec fn action_field(m: MessageModel) -> Seq<u8> {
    if m.action != 0 {
        key_bytes(1, 0) + varint_bytes(int32_wire(m.action))
    } else {
        Seq::empty()
    }
}

/// Field 2, written only when the name is not empty.
pub open spec fn filename_field(m: MessageModel) -> Seq<u8> {
    if m.filename.len() != 0 {
        key_bytes(2, 2) + varint_bytes(encode_utf8(m.filename).len() as u64) + encode_utf8(
            m.filename,
        )
    } else {
        Seq::empty()
    }
}

/// Field 3, written only when the data is not empty.
pub open spec fn data_field(m: MessageModel) -> Seq<u8> {
    if m.data.len() != 0 {
        key_bytes(3, 2) + varint_bytes(m.data.len() as u64) + m.data
    } else {
        Seq::empty()
    }
}

/// The protobuf encoding of a message: its non-default fields in field order.
pub open spec fn encode_message(m: MessageModel) -> Seq<u8> {
    action_field(m) + filename_field(m) + data_field(m)
}

/// Reads the fields in `s` one after the other into `m`, as prost's derived
/// decoder does: a later occurrence of a field replaces an earlier one,
/// fields of other numbers are skipped with `budget` levels of nesting
/// left, and the first failure ends it.
pub open spec fn decode_fields(s: Seq<u8>, m: MessageModel, budget: nat) -> Result<MessageModel, DecodeFault>
    decreases s.len(),
{
    if s.len() == 0 {
        Ok(m)
    } else {
        match key_decode(s) {
            None => Err(DecodeFault::Malformed),
            Some((tag, wire, n)) => {
                proof {
                    lemma_key_decode_len(s);
                }
                let r = s.skip(n as int);
                if tag == 1 {
                    if wire != 0 {
                        Err(DecodeFault::WireTypeMismatch)
                    } else {
                        match varint_decode(r) {
                            None => Err(DecodeFault::Malformed),
                            Some((x, k)) => {
                                proof {
                                    lemma_varint_decode_facts(r);
                                }
                                decode_fields(
                                    r.skip(k as int),
                                    MessageModel { action: int32_from_wire(x), filename: m.filename, data: m.data },
                                    budget,
                                )
                            },
                        }
                    }
                } else if tag == 2 {
                    if wire != 2 {
                        Err(DecodeFault::WireTypeMismatch)
                    } else {
                        match delimited(r) {
                            None => Err(DecodeFault::Malformed),
                            Some((p, k)) => {
                                proof {
                                    lemma_delimited_len(r);
                                }
                                if valid_utf8(p) {
                                    decode_fields(
                                        r.skip(k as int),
                                        MessageModel { action: m.action, filename: decode_utf8(p), data: m.data },
                                        budget,
                                    )
                                } else {
                                    Err(DecodeFault::Malformed)
                                }
                            },
                        }
                    }
                } else if tag == 3 {
                    if wire != 2 {
                        Err(DecodeFault::WireTypeMismatch)
                    } else {
                        match delimited(r) {
                            None => Err(DecodeFault::Malformed),
                            Some((p, k)) => {
                                proof {
                                    lemma_delimited_len(r);
                                }
                                decode_fields(
                                    r.skip(k as int),
                                    MessageModel { action: m.action, filename: m.filename, data: p },
                                    budget,
                                )
                            },
                        }
                    }
                } else {
                    match skip_len(wire, tag, r, budget) {
                        None => Err(DecodeFault::Malformed),
                        Some(k) => {
                            proof {
                                lemma_skip_len_bound(wire, tag, r, budget);
                            }
                            decode_fields(r.skip(k as int), m, budget)
                        },
                    }
                }
            },
        }
    }
}

/// The message prost's derived `decode` reads from a whole buffer.
pub open spec fn decode_message(s: Seq<u8>) -> Result<MessageModel, DecodeFault> {
    decode_fields(s, empty_model(), recursion_limit())
}

/// The message prost's derived `merge` reads from the payload of a
/// length-delimited frame, where unknown fields get one level of nesting
/// less than at the top.
pub open spec fn decode_nested(s: Seq<u8>) -> Result<MessageModel, DecodeFault> {
    decode_fields(s, empty_model(), (recursion_limit() - 1) as nat)
}

impl SomeMessage {
    /// A message with every field at its default.
    pub fn new_empty() -> (m: SomeMessage)
        ensures
            m@ == empty_model(),
    {
        SomeMessage { action: 0, filename: String::new(), data: Vec::new() }
    }

    /// Appends the protobuf encoding of the message to `buf`
    /// (the body that prost's derive writes for this message).
    pub fn encode_raw(&self, buf: &mut Vec<u8>)
        ensures
            final(buf)@ == old(buf)@ + encode_message(self@),
    {
        let ghost start = buf@;
        if self.action != 0 {
            int32_encode(1, self.action, buf);
        }
        let ghost after_action = buf@;
        if !self.filename.as_str().is_empty() {
            string_encode(2, &self.filename, buf);
        }
        let ghost after_name = buf@;
        if self.data.len() != 0 {
            bytes_encode(3, &self.data, buf);
        }
        assert(after_action =~= start + action_field(self@));
        assert(after_name =~= after_action + filename_field(self@));
        assert(buf@ =~= after_name + data_field(self@));
    }

    /// The length of the protobuf encoding of the message.
    pub fn encoded_len(&self) -> (len: usize)
        requires
            fits(self@),
        ensures
            len == encode_message(self@).len(),
    {
        proof {
            lemma_field_lens(self@);
        }
        let a = if self.action != 0 {
            int32_encoded_len(1, self.action)
        } else {
            0
        };
        let f = if !self.filename.as_str().is_empty() {
            string_encoded_len(2, &self.filename)
        } else {
            0
        };
        let d = if self.data.len() != 0 {
            bytes_encoded_len(3, &self.data)
        } else {
            0
        };
        a + f + d
    }
}

/// Field lengths: each field adds at most eleven bytes to its contents.
pub proof fn lemma_field_lens(m: MessageModel)
    requires
        fits(m),
    ensures
        action_field(m).len() <= 11,
        filename_field(m).len() <= 11 + encode_utf8(m.filename).len(),
        data_field(m).len() <= 11 + m.data.len(),
        encode_message(m).len() <= 33 + content_len(m),
{
    lemma_varint_bytes_len(int32_wire(m.action));
    lemma_varint_bytes_len(encode_utf8(m.filename).len() as u64);
    lemma_varint_bytes_len(m.data.len() as u64);
    assert(key_bytes(1, 0) =~= seq![8u8]);
    assert(key_bytes(2, 2) =~= seq![18u8]);
    assert(key_bytes(3, 2) =~= seq![26u8]);
}

/// Decodes a message from the bytes of `buf` (`SomeMessage::decode`).
pub fn message_from_bytes(buf: &Vec<u8>) -> (res: Result<SomeMessage, DecodeFault>)
    ensures
        match res {
            Ok(m) => decode_message(buf@) == Ok::<MessageModel, DecodeFault>(m@),
            Err(e) => decode_message(buf@) == Err::<MessageModel, DecodeFault>(e),
        },
{
    decode_slice(buf.as_slice(), false)
}

/// Decodes a message from all of `data`: a whole buffer, or with `nested`
/// the payload of a length-delimited frame, whose unknown fields get one
/// level of nesting less.
fn decode_slice(data: &[u8], nested: bool) -> (res: Result<SomeMessage, DecodeFault>)
    ensures
        ({
            let budget = if nested { (recursion_limit() - 1) as nat } else { recursion_limit() };
            match res {
                Ok(m) => decode_fields(data@, empty_model(), budget) == Ok::<MessageModel, DecodeFault>(m@),
                Err(e) => decode_fields(data@, empty_model(), budget) == Err::<MessageModel, DecodeFault>(e),
            }
        }),
{
    let ghost budget = if nested { (recursion_limit() - 1) as nat } else { recursion_limit() };
    let mut msg = SomeMessage::new_empty();
    let mut rest: &[u8] = data;
    while rest.len() > 0
        invariant
            budget == if nested { (recursion_limit() - 1) as nat } else { recursion_limit() },
            decode_fields(data@, empty_model(), budget) == decode_fields(rest@, msg@, budget),
        decreases rest@.len(),
    {
        let (tag, wire, after) = match decode_key(rest) {
            Ok(k) => k,
            Err(_) => {
                return Err(DecodeFault::Malformed);
            },
        };
        proof {
            lemma_key_decode_len(rest@);
        }
        if tag == 1 {
            if wire != WireKind::Varint {
                return Err(DecodeFault::WireTypeMismatch);
            }
            let mut action = msg.action;
            match int32_merge(&mut action, after) {
                Ok(r) => {
                    proof {
                        lemma_varint_decode_facts(after@);
                    }
                    msg.action = action;
                    rest = r;
                },
                Err(_) => {
                    return Err(DecodeFault::Malformed);
                },
            }
        } else if tag == 2 {
            if wire != WireKind::LengthDelimited {
                return Err(DecodeFault::WireTypeMismatch);
            }
            match string_merge(&mut msg.filename, after) {
                Ok(r) => {
                    proof {
                        lemma_delimited_len(after@);
                    }
                    rest = r;
                },
                Err(_) => {
                    return Err(DecodeFault::Malformed);
                },
            }
        } else if tag == 3 {
            if wire != WireKind::LengthDelimited {
                return Err(DecodeFault::WireTypeMismatch);
            }
            match bytes_merge(&mut msg.data, after) {
                Ok(r) => {
                    proof {
                        lemma_delimited_len(after@);
                    }
                    rest = r;
                },
                Err(_) => {
                    return Err(DecodeFault::Malformed);
                },
            }
        } else if nested {
            match skip_field_nested(wire, tag, after) {
                Some(r) => {
                    proof {
                        lemma_skip_len_bound(wire.code(), tag, after@, budget);
                    }
                    rest = r;
                },
                None => {
                    return Err(DecodeFault::Malformed);
                },
            }
        } else {
            match skip_field(wire, tag, after) {
                Ok(r) => {
                    proof {
                        lemma_skip_len_bound(wire.code(), tag, after@, budget);
                    }
                    rest = r;
                },
                Err(_) => {
                    return Err(DecodeFault::Malformed);
                },
            }
        }
    }
    Ok(msg)
}

proof fn lemma_decode_action_field(m: MessageModel, t: Seq<u8>, acc: MessageModel, budget: nat)
    requires
        m.action != 0,
    ensures
        decode_fields(action_field(m) + t, acc, budget) == decode_fields(
            t,
            MessageModel { action: m.action, filename: acc.filename, data: acc.data },
            budget,
        ),
{
    let v = varint_bytes(int32_wire(m.action));
    let s = action_field(m) + t;
    assert(s =~= key_bytes(1, 0) + (v + t));
    lemma_key_roundtrip(1, 0, v + t);
    let n = key_bytes(1, 0).len();
    assert(s.skip(n as int) =~= v + t);
    lemma_varint_roundtrip(int32_wire(m.action), t);
    assert((v + t).skip(v.len() as int) =~= t);
    lemma_int32_wire_roundtrip(m.action);
}

proof fn lemma_decode_filename_field(m: MessageModel, t: Seq<u8>, acc: MessageModel, budget: nat)
    requires
        m.filename.len() != 0,
        fits(m),
    ensures
        decode_fields(filename_field(m) + t, acc, budget) == decode_fields(
            t,
            MessageModel { action: acc.action, filename: m.filename, data: acc.data },
            budget,
        ),
{
    broadcast use vstd::utf8::encode_utf8_valid_utf8, vstd::utf8::encode_utf8_decode_utf8;

    let p = encode_utf8(m.filename);
    let v = varint_bytes(p.len() as u64);
    let s = filename_field(m) + t;
    assert(s =~= key_bytes(2, 2) + (v + p + t));
    lemma_key_roundtrip(2, 2, v + p + t);
    let n = key_bytes(2, 2).len();
    assert(s.skip(n as int) =~= v + p + t);
    lemma_delimited_roundtrip(p, t);
    assert((v + p + t).skip((v.len() + p.len()) as int) =~= t);
}

proof fn lemma_decode_data_field(m: MessageModel, t: Seq<u8>, acc: MessageModel, budget: nat)
    requires
        m.data.len() != 0,
        fits(m),
    ensures
        decode_fields(data_field(m) + t, acc, budget) == decode_fields(
            t,
            MessageModel { action: acc.action, filename: acc.filename, data: m.data },
            budget,
        ),
{
    let p = m.data;
    let v = varint_bytes(p.len() as u64);
    let s = data_field(m) + t;
    assert(s =~= key_bytes(3, 2) + (v + p + t));
    lemma_key_roundtrip(3, 2, v + p + t);
    let n = key_bytes(3, 2).len();
    assert(s.skip(n as int) =~= v + p + t);
    lemma_delimited_roundtrip(p, t);
    assert((v + p + t).skip((v.len() + p.len()) as int) =~= t);
}

/// Decoding the encoding of a message gives it back, whatever the budget
/// for unknown fields, which it has none of.
proof fn lemma_decode_encode_at(m: MessageModel, budget: nat)
    requires
        fits(m),
    ensures
        decode_fields(encode_message(m), empty_model(), budget) == Ok::<MessageModel, DecodeFault>(m),
{
    let e = empty_model();
    let a = action_field(m);
    let f = filename_field(m);
    let d = data_field(m);
    assert(encode_message(m) =~= a + (f + d));
    let m1 = MessageModel { action: m.action, filename: e.filename, data: e.data };
    if m.action != 0 {
        lemma_decode_action_field(m, f + d, e, budget);
    } else {
        assert(a + (f + d) =~= f + d);
        assert(m1 =~= e);
    }
    assert(decode_fields(a + (f + d), e, budget) == decode_fields(f + d, m1, budget));
    let m2 = MessageModel { action: m.action, filename: m.filename, data: e.data };
    if m.filename.len() != 0 {
        lemma_decode_filename_field(m, d, m1, budget);
    } else {
        assert(f + d =~= d);
        assert(m2 =~= m1);
    }
    assert(decode_fields(f + d, m1, budget) == decode_fields(d, m2, budget));
    let m3 = MessageModel { action: m.action, filename: m.filename, data: m.data };
    if m.data.len() != 0 {
        lemma_decode_data_field(m, Seq::empty(), m2, budget);
        assert(d + Seq::<u8>::empty() =~= d);
        assert(decode_fields(Seq::<u8>::empty(), m3, budget) == Ok::<MessageModel, DecodeFault>(m3));
    } else {
        assert(d =~= Seq::<u8>::empty());
        assert(m3 =~= m2);
    }
    assert(decode_fields(d, m2, budget) == Ok::<MessageModel, DecodeFault>(m3));
    assert(MessageModel { action: m.action, filename: m.filename, data: m.data } =~= m);
}

/// Decoding the encoding of a message gives the message back.
pub proof fn law_decode_encode(m: MessageModel)
    requires
        fits(m),
    ensures
        decode_message(encode_message(m)) == Ok::<MessageModel, DecodeFault>(m),
{
    lemma_decode_encode_at(m, recursion_limit());
}

/// The room a `Vec<u8>` has left for writing (`bytes::BufMut::remaining_mut`):
/// `isize::MAX` less its length.
#[verifier::external_body]
fn remaining_mut(buf: &Vec<u8>) -> (r: usize)
    ensures
        r == isize::MAX - buf@.len(),
{
    bytes::BufMut::remaining_mut(buf)
}

/// A message preceded by the length of its encoding, as a varint.
pub open spec fn frame(m: MessageModel) -> Seq<u8> {
    varint_bytes(encode_message(m).len() as u64) + encode_message(m)
}

/// A message whose contents and frame fit in memory.
pub open spec fn framed_fits(m: MessageModel) -> bool {
    fits(m) && frame(m).len() <= isize::MAX
}

/// The frames of the messages, one after the other; a message whose frame
/// would not fit in a vector is left out.
pub open spec fn frames(ms: Seq<MessageModel>) -> Seq<u8>
    decreases ms.len(),
{
    if ms.len() == 0 {
        Seq::empty()
    } else {
        (if frame(ms[0]).len() <= isize::MAX {
            frame(ms[0])
        } else {
            Seq::empty()
        }) + frames(ms.drop_first())
    }
}

/// The message read from the front of `s` as prost's
/// `decode_length_delimited` reads it: a varint length, then a message of
/// that many bytes, whose unknown fields get one level of nesting less.
pub open spec fn decode_delimited(s: Seq<u8>) -> Result<MessageModel, DecodeFault> {
    match delimited(s) {
        Some((p, _)) => decode_nested(p),
        None => Err(DecodeFault::Malformed),
    }
}

/// The walk of `parse_bytes_to_msg` over `buf` from `pos`: the messages
/// read so far, the position reached, and whether the walk fails by
/// stepping past the end of `buf`.  After each message it steps by the
/// length of the message's own encoding and delimiter, which is the number
/// of bytes it was read from only when those bytes were canonical.
pub open spec fn parse_walk(buf: Seq<u8>, pos: nat, acc: Seq<MessageModel>) -> (Seq<MessageModel>, nat, bool)
    decreases buf.len() - pos,
{
    if pos > buf.len() {
        (acc, pos, true)
    } else {
        match decode_delimited(buf.skip(pos as int)) {
            Err(_) => (acc, pos, false),
            Ok(m) => {
                let l = encode_message(m).len();
                proof {
                    lemma_varint_bytes_len(l as u64);
                }
                let next = pos + l + varint_bytes(l as u64).len();
                if next > buf.len() {
                    (acc.push(m), next, true)
                } else {
                    parse_walk(buf, next as nat, acc.push(m))
                }
            },
        }
    }
}

/// The views of a list of messages.
pub open spec fn views(ms: Seq<SomeMessage>) -> Seq<MessageModel> {
    ms.map_values(|m: SomeMessage| m@)
}

impl SomeMessage {
    /// Writes the message to `buf` if it has room for it (`Message::encode`).
    pub fn encode(&self, buf: &mut Vec<u8>) -> (res: Result<(), EncodeFault>)
        requires
            fits(self@),
        ensures
            res is Ok <==> encode_message(self@).len() <= isize::MAX - old(buf)@.len(),
            res is Ok ==> final(buf)@ == old(buf)@ + encode_message(self@),
            res is Err ==> final(buf)@ == old(buf)@,
    {
        let required = self.encoded_len();
        let remaining = remaining_mut(buf);
        if required > remaining {
            return Err(EncodeFault::InsufficientCapacity);
        }
        self.encode_raw(buf);
        Ok(())
    }

    /// Writes the message preceded by its length to `buf` if it has room for
    /// both (`Message::encode_length_delimited`).
    pub fn encode_length_delimited(&self, buf: &mut Vec<u8>) -> (res: Result<(), EncodeFault>)
        requires
            fits(self@),
        ensures
            res is Ok <==> frame(self@).len() <= isize::MAX - old(buf)@.len(),
            res is Ok ==> final(buf)@ == old(buf)@ + frame(self@),
            res is Err ==> final(buf)@ == old(buf)@,
    {
        proof {
            lemma_field_lens(self@);
        }
        let len = self.encoded_len();
        proof {
            lemma_varint_bytes_len(len as u64);
        }
        let required = len + encoded_len_varint(len as u64);
        let remaining = remaining_mut(buf);
        if required > remaining {
            return Err(EncodeFault::InsufficientCapacity);
        }
        let ghost start = buf@;
        encode_varint(len as u64, buf);
        self.encode_raw(buf);
        assert(buf@ =~= start + frame(self@));
        Ok(())
    }
}

/// The frames of the first `i` messages and those of the next one.
proof fn lemma_frames_snoc(ms: Seq<MessageModel>, i: int)
    requires
        0 <= i < ms.len(),
    ensures
        frames(ms.take(i + 1)) == frames(ms.take(i)) + (if frame(ms[i]).len() <= isize::MAX {
            frame(ms[i])
        } else {
            Seq::empty()
        }),
    decreases i,
{
    let a = ms.take(i + 1);
    let b = ms.take(i);
    if i == 0 {
        assert(a.drop_first() =~= Seq::<MessageModel>::empty());
        assert(b =~= Seq::<MessageModel>::empty());
        assert(a[0] == ms[0]);
        assert(frames(Seq::<MessageModel>::empty()) =~= Seq::<u8>::empty());
        assert(frames(a) =~= frames(b) + (if frame(ms[i]).len() <= isize::MAX {
            frame(ms[i])
        } else {
            Seq::empty()
        }));
    } else {
        let t = ms.drop_first();
        lemma_frames_snoc(t, i - 1);
        assert(a.drop_first() =~= t.take(i));
        assert(b.drop_first() =~= t.take(i - 1));
        assert(frames(a) =~= frames(b) + (if frame(ms[i]).len() <= isize::MAX {
            frame(ms[i])
        } else {
            Seq::empty()
        }));
    }
}

/// Writes the messages one after the other, each preceded by its length
/// (each by `encode_length_delimited` into a buffer of its own, then appended).
pub fn messages_to_bytes(msg_list: Vec<SomeMessage>) -> (out: Vec<u8>)
    requires
        forall|i: int| 0 <= i < msg_list@.len() ==> fits(#[trigger] msg_list@[i]@),
    ensures
        out@ == frames(views(msg_list@)),
{
    let mut return_buf: Vec<u8> = Vec::new();
    let ghost ms = views(msg_list@);
    let mut i: usize = 0;
    while i < msg_list.len()
        invariant
            0 <= i <= msg_list@.len(),
            ms == views(msg_list@),
            forall|j: int| 0 <= j < msg_list@.len() ==> fits(#[trigger] msg_list@[j]@),
            return_buf@ == frames(ms.take(i as int)),
        decreases msg_list@.len() - i,
    {
        let msg = &msg_list[i];
        let mut buf: Vec<u8> = Vec::new();
        let _ = msg.encode_length_delimited(&mut buf);
        proof {
            lemma_frames_snoc(ms, i as int);
            assert(ms[i as int] == msg@);
        }
        let ghost before = return_buf@;
        return_buf.append(&mut buf);
        assert(return_buf@ =~= before + (if frame(ms[i as int]).len() <= isize::MAX {
            frame(ms[i as int])
        } else {
            Seq::empty()
        }));
        i = i + 1;
    }
    assert(ms.take(msg_list@.len() as int) =~= ms);
    return_buf
}

/// Decodes one message preceded by its length from the front of `data`
/// (`SomeMessage::decode_length_delimited`); what follows the message is
/// not looked at.
pub fn message_from_delimited(data: &[u8]) -> (res: Result<SomeMessage, DecodeFault>)
    ensures
        match res {
            Ok(m) => decode_delimited(data@) == Ok::<MessageModel, DecodeFault>(m@),
            Err(e) => decode_delimited(data@) == Err::<MessageModel, DecodeFault>(e),
        },
{
    let (len, rest) = match decode_varint(data) {
        Ok(x) => x,
        Err(_) => {
            return Err(DecodeFault::Malformed);
        },
    };
    proof {
        lemma_varint_decode_facts(data@);
    }
    if len > rest.len() as u64 {
        return Err(DecodeFault::Malformed);
    }
    let payload = vstd::slice::slice_subrange(rest, 0, len as usize);
    proof {
        let (l, n) = varint_decode(data@).unwrap();
        assert(payload@ =~= data@.subrange(n as int, n + l));
    }
    decode_slice(payload, true)
}

/// Decoding never makes the contents of a message grow by more than the
/// bytes it reads.
pub proof fn lemma_decode_fields_size(s: Seq<u8>, m: MessageModel, budget: nat)
    ensures
        decode_fields(s, m, budget) matches Ok(m2) ==> content_len(m2) <= content_len(m) + s.len(),
    decreases s.len(),
{
    if s.len() != 0 && key_decode(s) is Some {
        let (tag, wire, n) = key_decode(s).unwrap();
        lemma_key_decode_len(s);
        let r = s.skip(n as int);
        if tag == 1 {
            if wire == 0 && varint_decode(r) is Some {
                let (x, k) = varint_decode(r).unwrap();
                lemma_varint_decode_facts(r);
                lemma_decode_fields_size(
                    r.skip(k as int),
                    MessageModel { action: int32_from_wire(x), filename: m.filename, data: m.data },
                    budget,
                );
            }
        } else if tag == 2 {
            if wire == 2 && delimited(r) is Some {
                let (p, k) = delimited(r).unwrap();
                lemma_delimited_len(r);
                if valid_utf8(p) {
                    vstd::utf8::decode_utf8_encode_utf8(p);
                    lemma_decode_fields_size(
                        r.skip(k as int),
                        MessageModel { action: m.action, filename: decode_utf8(p), data: m.data },
                        budget,
                    );
                }
            }
        } else if tag == 3 {
            if wire == 2 && delimited(r) is Some {
                let (p, k) = delimited(r).unwrap();
                lemma_delimited_len(r);
                lemma_decode_fields_size(
                    r.skip(k as int),
                    MessageModel { action: m.action, filename: m.filename, data: p },
                    budget,
                );
            }
        } else {
            if let Some(k) = skip_len(wire, tag, r, budget) {
                lemma_skip_len_bound(wire, tag, r, budget);
                lemma_decode_fields_size(r.skip(k as int), m, budget);
            }
        }
    }
}

/// A message read from the front of `s` fits in memory when `s` does.
proof fn lemma_decode_delimited_fits(s: Seq<u8>)
    requires
        s.len() <= isize::MAX,
    ensures
        decode_delimited(s) matches Ok(m) ==> fits(m),
{
    if let Some((p, k)) = delimited(s) {
        lemma_delimited_len(s);
        lemma_decode_fields_size(p, empty_model(), (recursion_limit() - 1) as nat);
        assert(encode_utf8(Seq::<char>::empty()) =~= Seq::<u8>::empty());
    }
}

/// The result of reading messages one after the other from a buffer: the
/// messages read and the position the reading stopped at.
pub struct ParseResult {
    pub msg: Vec<SomeMessage>,
    pub len: usize,
}

impl ParseResult {
    /// No messages, position 0.
    pub fn new() -> (r: ParseResult)
        ensures
            r.msg@.len() == 0,
            r.len == 0,
    {
        ParseResult { msg: Vec::new(), len: 0 }
    }
}

/// Reads messages, each preceded by its length, from the front of `buf`
/// until one cannot be read, as `parse_bytes_to_msg` does.  Gives `None`
/// where `parse_bytes_to_msg` would step past the end of `buf`.
pub fn try_parse_bytes_to_msg(buf: &Vec<u8>) -> (res: Option<ParseResult>)
    requires
        buf@.len() <= isize::MAX,
    ensures
        match res {
            Some(r) => parse_walk(buf@, 0, Seq::empty()) == (views(r.msg@), r.len as nat, false),
            None => parse_walk(buf@, 0, Seq::empty()).2,
        },
{
    let mut parse_result = ParseResult::new();
    let mut pos: usize = 0;
    assert(views(parse_result.msg@) =~= Seq::<MessageModel>::empty());
    loop
        invariant
            pos <= buf@.len(),
            buf@.len() <= isize::MAX,
            parse_result.len == pos,
            parse_walk(buf@, 0, Seq::empty()) == parse_walk(buf@, pos as nat, views(parse_result.msg@)),
        decreases buf@.len() - pos,
    {
        let read_buf = vstd::slice::slice_subrange(buf.as_slice(), pos, buf.len());
        assert(read_buf@ =~= buf@.skip(pos as int));
        let msg = match message_from_delimited(read_buf) {
            Ok(m) => m,
            Err(_) => {
                return Some(parse_result);
            },
        };
        proof {
            lemma_decode_delimited_fits(read_buf@);
        }
        let msg_len = msg.encoded_len();
        let delim_len = length_delimiter_len(msg_len);
        proof {
            lemma_varint_bytes_len(msg_len as u64);
        }
        let ghost before = views(parse_result.msg@);
        parse_result.msg.push(msg);
        assert(views(parse_result.msg@) =~= before.push(msg@));
        if msg_len > buf.len() - pos || delim_len > buf.len() - pos - msg_len {
            return None;
        }
        pos = pos + msg_len + delim_len;
        parse_result.len = pos;
    }
}

/// Reads messages, each preceded by its length, from the front of `buf`
/// until one cannot be read: the messages, and the position reached, which
/// after each message advances by the length of that message's own
/// encoding and delimiter.  The walk must stay within `buf`; where it would
/// step past the end (only after non-canonical input), see
/// `try_parse_bytes_to_msg`.
pub fn parse_bytes_to_msg(buf: &Vec<u8>) -> (r: ParseResult)
    requires
        buf@.len() <= isize::MAX,
        !parse_walk(buf@, 0, Seq::empty()).2,
    ensures
        parse_walk(buf@, 0, Seq::empty()) == (views(r.msg@), r.len as nat, false),
{
    match try_parse_bytes_to_msg(buf) {
        Some(r) => r,
        None => ParseResult::new(),
    }
}

/// One step of the walk over a canonical frame.
proof fn lemma_walk_step(buf: Seq<u8>, p: nat, acc: Seq<MessageModel>, m: MessageModel, tail: Seq<u8>)
    requires
        p <= buf.len(),
        buf.skip(p as int) == frame(m) + tail,
        fits(m),
    ensures
        parse_walk(buf, p, acc) == parse_walk(buf, p + frame(m).len(), acc.push(m)),
        p + frame(m).len() <= buf.len(),
{
    let e = encode_message(m);
    let v = varint_bytes(e.len() as u64);
    lemma_field_lens(m);
    assert(frame(m) + tail =~= v + e + tail);
    lemma_delimited_roundtrip(e, tail);
    lemma_decode_encode_at(m, (recursion_limit() - 1) as nat);
    assert(decode_delimited(buf.skip(p as int)) == Ok::<MessageModel, DecodeFault>(m));
    assert(buf.skip(p as int).len() == buf.len() - p);
}

/// Reading canonical frames one after the other, whatever follows them.
#[verifier::spinoff_prover]
#[verifier::rlimit(40)]
proof fn lemma_walk_frames(prefix: Seq<u8>, ms: Seq<MessageModel>, acc: Seq<MessageModel>, tail: Seq<u8>)
    requires
        forall|i: int| 0 <= i < ms.len() ==> framed_fits(#[trigger] ms[i]),
    ensures
        parse_walk(prefix + frames(ms) + tail, prefix.len(), acc) == parse_walk(
            prefix + frames(ms) + tail,
            prefix.len() + frames(ms).len(),
            acc + ms,
        ),
    decreases ms.len(),
{
    let buf = prefix + frames(ms) + tail;
    if ms.len() == 0 {
        assert(acc + ms =~= acc);
    } else {
        let m = ms[0];
        let rest = ms.drop_first();
        let after = frames(rest);
        assert(framed_fits(m));
        assert(frames(ms) == frame(m) + after);
        assert(buf.skip(prefix.len() as int) =~= frame(m) + (after + tail));
        lemma_walk_step(buf, prefix.len(), acc, m, after + tail);
        let next = prefix + frame(m);
        assert(buf =~= next + after + tail);
        assert forall|i: int| 0 <= i < rest.len() implies framed_fits(#[trigger] rest[i]) by {
            assert(rest[i] == ms[i + 1]);
        }
        lemma_walk_frames(next, rest, acc.push(m), tail);
        assert(acc.push(m) + rest =~= acc + ms);
    }
}

/// No part of a frame short of the whole holds a message: either its
/// length is cut, or fewer bytes follow it than it gives.
proof fn lemma_partial_frame(m: MessageModel, j: int)
    requires
        framed_fits(m),
        0 <= j < frame(m).len(),
    ensures
        decode_delimited(frame(m).take(j)) is Err,
{
    let e = encode_message(m);
    let l = e.len() as u64;
    let v = varint_bytes(l);
    let p = frame(m).take(j);
    if j < v.len() {
        assert(p =~= v.take(j));
        lemma_varint_strict_prefix(l, 10, j);
    } else {
        let part = e.take(j - v.len());
        assert(p =~= v + part);
        lemma_varint_roundtrip(l, part);
    }
}

/// Reading back the bytes that `messages_to_bytes` writes gives the same
/// messages, and stops at the end of those bytes.
pub proof fn law_parse_messages(ms: Seq<MessageModel>)
    requires
        forall|i: int| 0 <= i < ms.len() ==> framed_fits(#[trigger] ms[i]),
    ensures
        parse_walk(frames(ms), 0, Seq::empty()) == (ms, frames(ms).len(), false),
{
    let e = Seq::<u8>::empty();
    lemma_walk_frames(e, ms, Seq::empty(), e);
    assert(e + frames(ms) + e =~= frames(ms));
    assert(Seq::<MessageModel>::empty() + ms =~= ms);
    assert(frames(ms).skip(frames(ms).len() as int) =~= e);
}

/// Reading the bytes that `messages_to_bytes` writes for `ms`, followed by
/// what has arrived so far of the frame of one more message (any part of it
/// short of the whole, none included), gives the messages of `ms` and stops
/// at the end of their frames: the partial frame is left unread.
pub proof fn law_parse_leaves_partial_frame(ms: Seq<MessageModel>, m: MessageModel, j: int)
    requires
        forall|i: int| 0 <= i < ms.len() ==> framed_fits(#[trigger] ms[i]),
        framed_fits(m),
        0 <= j < frame(m).len(),
    ensures
        parse_walk(frames(ms) + frame(m).take(j), 0, Seq::empty()) == (ms, frames(ms).len(), false),
{
    let e = Seq::<u8>::empty();
    let part = frame(m).take(j);
    let buf = frames(ms) + part;
    lemma_walk_frames(e, ms, Seq::empty(), part);
    assert(e + frames(ms) + part =~= buf);
    assert(Seq::<MessageModel>::empty() + ms =~= ms);
    assert(buf.skip(frames(ms).len() as int) =~= part);
    lemma_partial_frame(m, j);
}

/// The one-line description of a message: its action number, its name and
/// the length of its data.
pub open spec fn message_text(m: MessageModel) -> Seq<char> {
    "action: '"@ + signed_decimal(m.action as int) + "', filename: '"@ + m.filename
        + "', data_len: '"@ + decimal(m.data.len()) + "'"@
}

impl SomeMessage {
    /// Describes the message as
    /// `action: '<action>', filename: '<name>', data_len: '<length of data>'`.
    pub fn to_string(&self) -> (s: String)
        ensures
            s@ == message_text(self@),
    {
        let mut out = String::new();
        out.append("action: '");
        push_i32(&mut out, self.action);
        out.append("', filename: '");
        out.append(self.filename.as_str());
        out.append("', data_len: '");
        push_decimal(&mut out, self.data.len() as u64);
        out.append("'");
        assert(out@ =~= message_text(self@));
        out
    }
}

} // verus!
