//! LEB128 varints as protobuf writes them, and the calls into prost that
//! read and write them.

use vstd::prelude::*;

verus! {

/// A decoding failure reported by prost.
#[verifier::external_type_specification]
#[verifier::external_body]
pub struct ExDecodeError(prost::DecodeError);

/// The bytes of the LEB128 encoding of `v`: seven bits per byte, least
/// significant group first, the high bit set on every byte but the last.
pub open spec fn varint_bytes(v: u64) -> Seq<u8>
    decreases v,
{
    if v < 128 {
        seq![v as u8]
    } else {
        seq![(v % 128 + 128) as u8] + varint_bytes(v / 128)
    }
}

/// Reads a varint of at most `left` bytes from the front of `s`: the value
/// and the number of bytes read.  The last byte allowed (the `left`-th) may
/// only carry the value 0 or 1, so that nothing beyond 64 bits is accepted.
pub open spec fn varint_parse(s: Seq<u8>, left: nat) -> Option<(int, nat)>
    decreases left,
{
    if left == 0 || s.len() == 0 {
        None
    } else if s[0] < 128 {
        if left == 1 && s[0] >= 2 {
            None
        } else {
            Some((s[0] as int, 1))
        }
    } else {
        match varint_parse(s.drop_first(), (left - 1) as nat) {
            Some((v, n)) => Some(((s[0] - 128) + 128 * v, n + 1)),
            None => None,
        }
    }
}

/// What prost's `decode_varint` reads from the front of `s`: the value and
/// the number of bytes it takes, or `None` when `s` holds no valid varint.
pub open spec fn varint_decode(s: Seq<u8>) -> Option<(u64, nat)> {
    match varint_parse(s, 10) {
        Some((v, n)) => Some((v as u64, n)),
        None => None,
    }
}

/// `128^(left - 1) * 2`: the bound on a value read in `left` bytes.
pub open spec fn varint_bound(left: nat) -> int
    decreases left,
{
    if left <= 1 {
        2
    } else {
        128 * varint_bound((left - 1) as nat)
    }
}

pub proof fn lemma_varint_bound_10()
    ensures
        varint_bound(10) == 0x1_0000_0000_0000_0000,
{
    reveal_with_fuel(varint_bound, 10);
}

/// A parsed varint has a value below the bound and takes between one and
/// `left` bytes of the input.
pub proof fn lemma_varint_parse_facts(s: Seq<u8>, left: nat)
    requires
        varint_parse(s, left) is Some,
    ensures
        ({
            let (v, n) = varint_parse(s, left).unwrap();
            &&& 0 <= v < varint_bound(left)
            &&& 1 <= n <= left
            &&& n <= s.len()
        }),
    decreases left,
{
    if s[0] >= 128 {
        lemma_varint_parse_facts(s.drop_first(), (left - 1) as nat);
        if left <= 2 {
            reveal_with_fuel(varint_bound, 2);
        }
    } else if left > 1 {
        lemma_varint_bound_pos((left - 1) as nat);
    }
}

proof fn lemma_varint_bound_pos(left: nat)
    ensures
        varint_bound(left) >= 2,
    decreases left,
{
    if left > 1 {
        lemma_varint_bound_pos((left - 1) as nat);
    }
}

/// A decoded varint takes between one and ten bytes of the input, and its
/// value fits in 64 bits.
pub proof fn lemma_varint_decode_facts(s: Seq<u8>)
    requires
        varint_decode(s) is Some,
    ensures
        ({
            let (v, n) = varint_decode(s).unwrap();
            &&& 1 <= n <= 10
            &&& n <= s.len()
            &&& varint_parse(s, 10).unwrap().0 == v as int
        }),
{
    lemma_varint_parse_facts(s, 10);
    lemma_varint_bound_10();
}

proof fn lemma_varint_bytes_len_left(v: u64, left: nat)
    requires
        v < varint_bound(left),
        left >= 1,
    ensures
        1 <= varint_bytes(v).len() <= left,
    decreases v,
{
    if v >= 128 {
        assert(left >= 2) by {
            if left < 2 {
                assert(varint_bound(left) == 2);
            }
        }
        assert(varint_bound(left) == 128 * varint_bound((left - 1) as nat));
        lemma_varint_bytes_len_left(v / 128, (left - 1) as nat);
    }
}

/// The encoding of a value takes between one and ten bytes.
pub proof fn lemma_varint_bytes_len(v: u64)
    ensures
        1 <= varint_bytes(v).len() <= 10,
{
    lemma_varint_bound_10();
    lemma_varint_bytes_len_left(v, 10);
}

/// Reading back the encoding of `v`, whatever follows it, gives `v` and the
/// length of the encoding.
pub proof fn lemma_varint_roundtrip_left(v: u64, left: nat, rest: Seq<u8>)
    requires
        v < varint_bound(left),
        left >= 1,
    ensures
        varint_parse(varint_bytes(v) + rest, left) == Some((v as int, varint_bytes(v).len())),
    decreases v,
{
    let s = varint_bytes(v) + rest;
    if v < 128 {
        assert(s[0] == v as u8);
    } else {
        let w = v / 128;
        assert(left >= 2) by {
            if left < 2 {
                assert(varint_bound(left) == 2);
            }
        }
        assert(varint_bound(left) == 128 * varint_bound((left - 1) as nat));
        assert(w < varint_bound((left - 1) as nat));
        lemma_varint_roundtrip_left(w, (left - 1) as nat, rest);
        assert(s.drop_first() =~= varint_bytes(w) + rest);
        assert(s[0] == (v % 128 + 128) as u8);
    }
}

/// Decoding the encoding of `v`, whatever follows it, gives back `v`.
pub proof fn lemma_varint_roundtrip(v: u64, rest: Seq<u8>)
    ensures
        varint_decode(varint_bytes(v) + rest) == Some((v, varint_bytes(v).len())),
{
    lemma_varint_bound_10();
    lemma_varint_roundtrip_left(v, 10, rest);
}

/// A varint is read from its own bytes alone: what follows them does not
/// matter.
pub proof fn lemma_varint_parse_prefix(s: Seq<u8>, left: nat, x: Seq<u8>)
    requires
        varint_parse(s, left) is Some,
    ensures
        varint_parse(s, left).unwrap().1 <= s.len(),
        varint_parse(s.take(varint_parse(s, left).unwrap().1 as int) + x, left) == varint_parse(s, left),
    decreases left,
{
    let n = varint_parse(s, left).unwrap().1;
    let t = s.take(n as int) + x;
    if s[0] < 128 {
        assert(t[0] == s[0]);
    } else {
        let d = s.drop_first();
        lemma_varint_parse_prefix(d, (left - 1) as nat, x);
        let n1 = varint_parse(d, (left - 1) as nat).unwrap().1;
        assert(t[0] == s[0]);
        assert(t.drop_first() =~= d.take(n1 as int) + x);
    }
}

/// `lemma_varint_parse_prefix` for `varint_decode`.
pub proof fn lemma_varint_decode_prefix(s: Seq<u8>, x: Seq<u8>)
    requires
        varint_decode(s) is Some,
    ensures
        varint_decode(s.take(varint_decode(s).unwrap().1 as int) + x) == varint_decode(s),
{
    lemma_varint_parse_prefix(s, 10, x);
}

/// A strict prefix of the encoding of `v` holds no varint.
pub proof fn lemma_varint_strict_prefix(v: u64, left: nat, j: int)
    requires
        0 <= j < varint_bytes(v).len(),
    ensures
        varint_parse(varint_bytes(v).take(j), left) is None,
    decreases v,
{
    let b = varint_bytes(v);
    let t = b.take(j);
    if j > 0 && left > 0 {
        assert(v >= 128);
        assert(t[0] == b[0]);
        assert(b[0] == (v % 128 + 128) as u8);
        assert(t.drop_first() =~= varint_bytes(v / 128).take(j - 1));
        lemma_varint_strict_prefix(v / 128, (left - 1) as nat, j - 1);
    }
}

/// Appends the varint encoding of `value` to `buf`
/// (`prost::encoding::encode_varint`).
#[verifier::external_body]
pub(crate) fn encode_varint(value: u64, buf: &mut Vec<u8>)
    ensures
        final(buf)@ == old(buf)@ + varint_bytes(value),
{
    prost::encoding::encode_varint(value, buf);
}

/// Reads a varint from the front of `data`
/// (`prost::encoding::decode_varint`): the value and the bytes after it,
/// or prost's error exactly when `data` does not start with a valid varint.
#[verifier::external_body]
pub(crate) fn decode_varint(data: &[u8]) -> (res: Result<(u64, &[u8]), prost::DecodeError>)
    ensures
        res is Ok <==> varint_decode(data@) is Some,
        res matches Ok((v, rest)) ==> ({
            let (w, n) = varint_decode(data@).unwrap();
            v == w && rest@ == data@.skip(n as int)
        }),
{
    let mut buf: &[u8] = data;
    match prost::encoding::decode_varint(&mut buf) {
        Ok(v) => Ok((v, buf)),
        Err(e) => Err(e),
    }
}

/// The number of bytes the varint encoding of `value` takes
/// (`prost::encoding::encoded_len_varint`).
#[verifier::external_body]
pub(crate) fn encoded_len_varint(value: u64) -> (len: usize)
    ensures
        len == varint_bytes(value).len(),
{
    prost::encoding::encoded_len_varint(value)
}

/// The number of bytes a length delimiter for `length` takes
/// (`prost::length_delimiter_len`).
#[verifier::external_body]
pub(crate) fn length_delimiter_len(length: usize) -> (len: usize)
    ensures
        len == varint_bytes(length as u64).len(),
{
    prost::length_delimiter_len(length)
}

} // verus!
