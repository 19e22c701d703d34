//! Hashing of user names and data with libsodium.

use vstd::prelude::*;
use vstd::utf8::encode_utf8;

pub use crate::text::to_hex_str;

verus! {

/// The SHA-512 digest of `data`, which libsodium's `crypto_hash` computes.
pub uninterp spec fn sha512_digest(data: Seq<u8>) -> Seq<u8>;

/// The digest of `data` (`sodiumoxide::crypto::hash::hash`, SHA-512).
#[verifier::external_body]
fn sodium_hash(data: &[u8]) -> (d: [u8; 64])
    ensures
        d@ == sha512_digest(data@),
{
    sodiumoxide::crypto::hash::hash(data).0
}

/// The 64-byte SHA-512 digest of `data`.
pub fn hash(data: &[u8]) -> (d: [u8; 64])
    ensures
        d@ == sha512_digest(data@),
{
    sodium_hash(data)
}

/// The digest of the UTF-8 bytes of `data`.
pub fn hash_str(data: &str) -> (d: [u8; 64])
    ensures
        d@ == sha512_digest(encode_utf8(data@)),
{
    hash(data.as_bytes())
}

} // verus!
