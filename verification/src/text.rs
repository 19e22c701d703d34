//! Text built from numbers and bytes: decimal numbers and the upper-case
//! hexadecimal that `{:X}` prints for bytes.

use vstd::prelude::*;
use vstd::utf8::{decode_utf8, valid_utf8};

verus! {

/// Appends `c` to `s` (`String::push`).
#[verifier::external_body]
pub(crate) fn push_char(s: &mut String, c: char)
    ensures
        final(s)@ == old(s)@.push(c),
{
    s.push(c);
}

/// The character of a digit below 16: `0`-`9`, then `A`-`F`.
pub open spec fn digit_char(d: int) -> char {
    if d < 10 {
        (48 + d) as char
    } else {
        (55 + d) as char
    }
}

/// The decimal digits of `n`, without leading zeros (`0` for zero).
pub open spec fn decimal(n: nat) -> Seq<char>
    decreases n,
{
    if n < 10 {
        seq![digit_char(n as int)]
    } else {
        decimal(n / 10) + seq![digit_char((n % 10) as int)]
    }
}

/// An integer in decimal, with a leading `-` when it is negative.
pub open spec fn signed_decimal(v: int) -> Seq<char> {
    if v < 0 {
        seq!['-'] + decimal((-v) as nat)
    } else {
        decimal(v as nat)
    }
}

/// What `{:X}` prints for a byte: one or two upper-case hexadecimal digits,
/// with no leading zero.
pub open spec fn byte_hex(b: u8) -> Seq<char> {
    if b < 16 {
        seq![digit_char(b as int)]
    } else {
        seq![digit_char((b / 16) as int), digit_char((b % 16) as int)]
    }
}

/// The bytes printed one after the other with `{:X}`.
pub open spec fn hex_str(data: Seq<u8>) -> Seq<char>
    decreases data.len(),
{
    if data.len() == 0 {
        Seq::empty()
    } else {
        hex_str(data.drop_last()) + byte_hex(data.last())
    }
}

fn digit(d: u8) -> (c: char)
    requires
        d < 16,
    ensures
        c == digit_char(d as int),
{
    if d < 10 {
        (48 + d) as char
    } else {
        (55 + d) as char
    }
}

/// Appends the decimal digits of `n` to `s`.
pub(crate) fn push_decimal(s: &mut String, n: u64)
    ensures
        final(s)@ == old(s)@ + decimal(n as nat),
    decreases n,
{
    if n >= 10 {
        push_decimal(s, n / 10);
    }
    push_char(s, digit((n % 10) as u8));
    assert(final(s)@ =~= old(s)@ + decimal(n as nat));
}

/// Appends `v` in decimal to `s`, as `Display` writes an `i32`.
pub(crate) fn push_i32(s: &mut String, v: i32)
    ensures
        final(s)@ == old(s)@ + signed_decimal(v as int),
{
    if v < 0 {
        push_char(s, '-');
        let magnitude: u64 = (0 - (v as i64)) as u64;
        push_decimal(s, magnitude);
        assert(final(s)@ =~= old(s)@ + signed_decimal(v as int));
    } else {
        push_decimal(s, v as u64);
    }
}

/// The bytes of `data` in upper-case hexadecimal, each byte with `{:X}`:
/// one digit for bytes below 16, two for the others.
pub fn to_hex_str(data: &[u8]) -> (s: String)
    ensures
        s@ == hex_str(data@),
{
    let mut s = String::new();
    let mut i: usize = 0;
    while i < data.len()
        invariant
            0 <= i <= data@.len(),
            s@ == hex_str(data@.take(i as int)),
        decreases data@.len() - i,
    {
        let byte = data[i];
        let ghost before = s@;
        if byte >= 16 {
            push_char(&mut s, digit(byte / 16));
        }
        push_char(&mut s, digit(byte % 16));
        assert(data@.take(i + 1).drop_last() =~= data@.take(i as int));
        assert(s@ =~= before + byte_hex(byte));
        i = i + 1;
    }
    assert(data@.take(data@.len() as int) =~= data@);
    s
}

/// Each byte gives one or two digits.
pub proof fn law_hex_len(data: Seq<u8>)
    ensures
        data.len() <= hex_str(data).len() <= 2 * data.len(),
    decreases data.len(),
{
    if data.len() > 0 {
        law_hex_len(data.drop_last());
    }
}

/// The string whose UTF-8 bytes are `bytes`, if they are UTF-8
/// (`String::from_utf8`).
#[verifier::external_body]
pub(crate) fn string_from_utf8(bytes: Vec<u8>) -> (s: Option<String>)
    ensures
        s is Some <==> valid_utf8(bytes@),
        s matches Some(t) ==> t@ == decode_utf8(bytes@),
{
    String::from_utf8(bytes).ok()
}

} // verus!
