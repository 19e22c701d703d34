//! The client's side of the storage: files and file names are encrypted
//! with keys derived from the user's password before they are sent, and
//! decrypted after they come back.
//!
//! A stored file is `nonce (24 bytes) || salt (32 bytes) || ciphertext`,
//! the ciphertext sealed with the key derived from the password and the
//! salt.  A stored name is the hexadecimal text of
//! `salt (32 bytes) || ciphertext`, where the ciphertext seals the
//! zlib-compressed name with the key derived from the password and the
//! salt, and the first 24 bytes of the salt serve as nonce.

use vstd::prelude::*;
use vstd::utf8::{decode_utf8, encode_utf8, valid_utf8};
use crate::text::string_from_utf8;
use sodiumoxide::crypto::{pwhash, secretbox};

verus! {

/// The key libsodium derives from a password and a 32-byte salt with
/// scrypt (`crypto_pwhash_scryptsalsa208sha256`) at the interactive limits.
pub uninterp spec fn scrypt_key(passwd: Seq<u8>, salt: Seq<u8>) -> Seq<u8>;

/// What libsodium's `crypto_secretbox_easy` (XSalsa20-Poly1305) makes of a
/// message with a 24-byte nonce and a 32-byte key.
pub uninterp spec fn secretbox_seal(m: Seq<u8>, nonce: Seq<u8>, key: Seq<u8>) -> Seq<u8>;

/// What libsodium's `crypto_secretbox_open_easy` recovers from a
/// ciphertext with a nonce and a key; `None` when it is refused.
pub uninterp spec fn secretbox_open(c: Seq<u8>, nonce: Seq<u8>, key: Seq<u8>) -> Option<Seq<u8>>;

/// The zlib stream libflate's encoder writes for `data`.
pub uninterp spec fn zlib_compress(data: Seq<u8>) -> Seq<u8>;

/// What libflate's zlib decoder reads from `data`; `None` when it fails.
pub uninterp spec fn zlib_decompress(data: Seq<u8>) -> Option<Seq<u8>>;

/// Why a file or a name could not be sealed or opened.
#[derive(Clone, Copy, Debug, PartialEq, Eq, Structural)]
pub enum VaultError {
    /// The key could not be derived (libsodium could not get the memory).
    KeyDerivation,
    /// The data is shorter than its nonce and salt.
    TooShort,
    /// The ciphertext does not open with this password.
    Forged,
    /// The stored name is not hexadecimal.
    NotHex,
    /// The opened name is not a zlib stream.
    Corrupt,
    /// The opened name is not UTF-8.
    NotUtf8,
}

/// Derives the key for `passwd` and `salt` (`pwhash::derive_key` at the
/// interactive limits).  `None` when libsodium cannot complete it, which
/// depends on the memory available, not on the arguments.
#[verifier::external_body]
fn derive_key(passwd: &[u8], salt: &[u8]) -> (k: Option<Vec<u8>>)
    requires
        salt@.len() == 32,
    ensures
        k matches Some(k) ==> k@ == scrypt_key(passwd@, salt@) && k@.len() == 32,
{
    let mut kb = [0u8; secretbox::KEYBYTES];
    let salt = pwhash::Salt::from_slice(salt).unwrap();
    match pwhash::derive_key(&mut kb, passwd, &salt, pwhash::OPSLIMIT_INTERACTIVE, pwhash::MEMLIMIT_INTERACTIVE) {
        Ok(_) => Some(kb.to_vec()),
        Err(()) => None,
    }
}

/// Whether libsodium may refuse to derive a key for the password `passwd`
/// and the salt `salt`: whether `derive_key` may come back without a key on
/// them.  That depends on the memory the system grants, not on the
/// arguments alone; it holds wherever a derivation was seen to fail, and
/// nothing else is known of it.
pub closed spec fn key_derivation_may_fail(passwd: Seq<u8>, salt: Seq<u8>) -> bool {
    exists|p: &[u8], s: &[u8]|
        p@ == passwd && s@ == salt && #[trigger] call_ensures(derive_key, (p, s), None::<Vec<u8>>)
}

/// Derives the key for `passwd` and `salt`, and records a failure: without
/// a key, the derivation may fail on these arguments.
fn derive_key_checked(passwd: &[u8], salt: &[u8]) -> (k: Option<Vec<u8>>)
    requires
        salt@.len() == 32,
    ensures
        k matches Some(k) ==> k@ == scrypt_key(passwd@, salt@) && k@.len() == 32,
        k is None ==> key_derivation_may_fail(passwd@, salt@),
{
    let derive = derive_key;
    let k = derive(passwd, salt);
    proof {
        if k is None {
            assert(call_ensures(derive_key, (passwd, salt), None::<Vec<u8>>));
        }
    }
    k
}

/// Encrypts and authenticates `m` (`secretbox::seal`).  The result opens
/// with the same nonce and key to `m`.
#[verifier::external_body]
fn seal(m: &[u8], nonce: &[u8], key: &[u8]) -> (c: Vec<u8>)
    requires
        nonce@.len() == 24,
        key@.len() == 32,
    ensures
        c@ == secretbox_seal(m@, nonce@, key@),
        secretbox_open(c@, nonce@, key@) == Some(m@),
{
    let n = secretbox::Nonce::from_slice(nonce).unwrap();
    let k = secretbox::Key::from_slice(key).unwrap();
    secretbox::seal(m, &n, &k)
}

/// Checks and decrypts `c` (`secretbox::open`).
#[verifier::external_body]
fn open(c: &[u8], nonce: &[u8], key: &[u8]) -> (m: Option<Vec<u8>>)
    requires
        nonce@.len() == 24,
        key@.len() == 32,
    ensures
        m is Some <==> secretbox_open(c@, nonce@, key@) is Some,
        m matches Some(v) ==> v@ == secretbox_open(c@, nonce@, key@).unwrap(),
{
    let n = secretbox::Nonce::from_slice(nonce).unwrap();
    let k = secretbox::Key::from_slice(key).unwrap();
    secretbox::open(c, &n, &k).ok()
}

/// Compresses `data` into a zlib stream (libflate's `zlib::Encoder`: made
/// over a new vector, fed `data`, finished).  The stream decodes to `data`.
/// The encoder only writes into the vector, and writing into a vector does
/// not fail, so the unwraps below never panic.
#[verifier::external_body]
fn zlib_encode(data: &[u8]) -> (c: Vec<u8>)
    ensures
        c@ == zlib_compress(data@),
        zlib_decompress(c@) == Some(data@),
{
    let mut encoder = libflate::zlib::Encoder::new(Vec::new()).unwrap();
    std::io::Write::write_all(&mut encoder, data).unwrap();
    encoder.finish().into_result().unwrap()
}

/// Decompresses a zlib stream (libflate's `zlib::Decoder`, read to the end).
#[verifier::external_body]
fn zlib_decode(data: &[u8]) -> (d: Option<Vec<u8>>)
    ensures
        d is Some <==> zlib_decompress(data@) is Some,
        d matches Some(v) ==> v@ == zlib_decompress(data@).unwrap(),
{
    let mut decoder = libflate::zlib::Decoder::new(data).ok()?;
    let mut out = Vec::new();
    std::io::Read::read_to_end(&mut decoder, &mut out).ok()?;
    Some(out)
}

/// The lower-case hexadecimal digit of a value below 16.
pub open spec fn lower_digit(d: int) -> char {
    if d < 10 {
        (48 + d) as char
    } else {
        (87 + d) as char
    }
}

/// Two lower-case hexadecimal digits per byte.
pub open spec fn hex_lower(data: Seq<u8>) -> Seq<char>
    decreases data.len(),
{
    if data.len() == 0 {
        Seq::empty()
    } else {
        hex_lower(data.drop_last()) + seq![
            lower_digit((data.last() / 16) as int),
            lower_digit((data.last() % 16) as int),
        ]
    }
}

/// The value of a hexadecimal digit in either case.
pub open spec fn hex_value(c: u8) -> Option<int> {
    if 48 <= c <= 57 {
        Some(c - 48)
    } else if 65 <= c <= 70 {
        Some(c - 55)
    } else if 97 <= c <= 102 {
        Some(c - 87)
    } else {
        None
    }
}

/// The bytes hexadecimal text stands for: an even number of digits, two
/// per byte; `None` for anything else.
pub open spec fn hex_decode(s: Seq<u8>) -> Option<Seq<u8>>
    decreases s.len(),
{
    if s.len() % 2 != 0 {
        None
    } else if s.len() == 0 {
        Some(Seq::empty())
    } else {
        match (hex_decode(s.take(s.len() - 2)), hex_value(s[s.len() - 2]), hex_value(s[s.len() - 1])) {
            (Some(p), Some(h), Some(l)) => Some(p.push((h * 16 + l) as u8)),
            _ => None,
        }
    }
}

/// `data` in lower-case hexadecimal (`hex::encode`).
#[verifier::external_body]
fn hex_encode(data: &[u8]) -> (s: String)
    ensures
        s@ == hex_lower(data@),
{
    hex::encode(data)
}

/// The bytes hexadecimal text stands for (`hex::decode`).
#[verifier::external_body]
fn hex_decode_bytes(text: &[u8]) -> (r: Option<Vec<u8>>)
    ensures
        r is Some <==> hex_decode(text@) is Some,
        r matches Some(v) ==> v@ == hex_decode(text@).unwrap(),
{
    hex::decode(text).ok()
}

/// The UTF-8 bytes of the hexadecimal text of `data`.
pub open spec fn hex_lower_bytes(data: Seq<u8>) -> Seq<u8> {
    encode_utf8(hex_lower(data))
}

proof fn lemma_hex_lower_ascii(data: Seq<u8>)
    ensures
        vstd::utf8::is_ascii_chars(hex_lower(data)),
        hex_lower(data).len() == 2 * data.len(),
    decreases data.len(),
{
    if data.len() > 0 {
        lemma_hex_lower_ascii(data.drop_last());
        let h = hex_lower(data);
        let p = hex_lower(data.drop_last());
        assert forall|i| 0 <= i < h.len() implies '\0' <= #[trigger] h[i] <= '\u{7f}' by {
            if i < p.len() {
                assert(h[i] == p[i]);
            }
        }
    }
}

/// Reading back the hexadecimal text of `data` gives `data`.
pub proof fn lemma_hex_roundtrip(data: Seq<u8>)
    ensures
        hex_decode(hex_lower_bytes(data)) == Some(data),
    decreases data.len(),
{
    broadcast use vstd::utf8::is_ascii_chars_encode_utf8;

    lemma_hex_lower_ascii(data);
    if data.len() > 0 {
        let d = data.drop_last();
        lemma_hex_roundtrip(d);
        lemma_hex_lower_ascii(d);
        let s = hex_lower_bytes(data);
        let h = hex_lower(data);
        let ph = hex_lower(d);
        assert(s.len() == 2 * data.len());
        assert(s.take(s.len() - 2) =~= hex_lower_bytes(d)) by {
            assert forall|i| 0 <= i < s.len() - 2 implies s.take(s.len() - 2)[i] == hex_lower_bytes(d)[i] by {
                assert(h[i] == ph[i]);
                assert(s[i] == h[i] as u8);
                assert(hex_lower_bytes(d)[i] == ph[i] as u8);
            }
        }
        let b = data.last();
        assert(s[s.len() - 2] == h[h.len() - 2] as u8);
        assert(s[s.len() - 1] == h[h.len() - 1] as u8);
        assert(h[h.len() - 2] == lower_digit((b / 16) as int));
        assert(h[h.len() - 1] == lower_digit((b % 16) as int));
        assert(data =~= d.push(b));
    }
}

/// A stored file: the nonce, the salt, then the file sealed with `key`.
pub open spec fn sealed_file_with_key(key: Seq<u8>, plaintext: Seq<u8>, nonce: Seq<u8>, salt: Seq<u8>) -> Seq<u8> {
    nonce + salt + secretbox_seal(plaintext, nonce, key)
}

/// A stored file: the nonce, the salt, then the file sealed with the key
/// of the password and the salt.
pub open spec fn sealed_file(passwd: Seq<u8>, plaintext: Seq<u8>, nonce: Seq<u8>, salt: Seq<u8>) -> Seq<u8> {
    sealed_file_with_key(scrypt_key(passwd, salt), plaintext, nonce, salt)
}

/// What a stored file opens to with `key`: its first 24 bytes are the
/// nonce, the next 32 the salt, the rest the ciphertext.  `TooShort` when it
/// has no room for nonce and salt, `Forged` when the ciphertext does not
/// open with `key`.
pub open spec fn file_opened_with_key(key: Seq<u8>, stored: Seq<u8>) -> Result<Seq<u8>, VaultError> {
    if stored.len() < 56 {
        Err(VaultError::TooShort)
    } else {
        match secretbox_open(stored.skip(56), stored.take(24), key) {
            Some(m) => Ok(m),
            None => Err(VaultError::Forged),
        }
    }
}

/// What a stored file opens to with `passwd`: the key is the one of the
/// password and the stored salt.
pub open spec fn opened_file(passwd: Seq<u8>, stored: Seq<u8>) -> Result<Seq<u8>, VaultError> {
    file_opened_with_key(scrypt_key(passwd, stored.subrange(24, 56)), stored)
}

/// The stored form of a file sealed with a 32-byte key, given a 24-byte
/// nonce and the 32-byte salt the key was derived with.  It opens with the
/// same key to the same file.
pub fn seal_file_with_key(key: &[u8], plaintext: &[u8], nonce: &[u8], salt: &[u8]) -> (stored: Vec<u8>)
    requires
        key@.len() == 32,
        nonce@.len() == 24,
        salt@.len() == 32,
    ensures
        stored@ == sealed_file_with_key(key@, plaintext@, nonce@, salt@),
        file_opened_with_key(key@, stored@) == Ok::<Seq<u8>, VaultError>(plaintext@),
{
    let mut ciphertext = seal(plaintext, nonce, key);
    let mut tosave = vstd::slice::slice_to_vec(nonce);
    let mut salt_bytes = vstd::slice::slice_to_vec(salt);
    tosave.append(&mut salt_bytes);
    tosave.append(&mut ciphertext);
    proof {
        let s = tosave@;
        assert(s.take(24) =~= nonce@);
        assert(s.skip(56) =~= secretbox_seal(plaintext@, nonce@, key@));
    }
    tosave
}

/// The stored form of a file, given a fresh 24-byte nonce and 32-byte
/// salt.  It opens with the same password to the same file.  Deriving the
/// key can fail for want of memory, which no argument decides.
pub fn seal_file(passwd: &[u8], plaintext: &[u8], nonce: &[u8], salt: &[u8]) -> (r: Result<Vec<u8>, VaultError>)
    requires
        nonce@.len() == 24,
        salt@.len() == 32,
    ensures
        r matches Ok(stored) ==> stored@ == sealed_file(passwd@, plaintext@, nonce@, salt@)
            && opened_file(passwd@, stored@) == Ok::<Seq<u8>, VaultError>(plaintext@),
        r matches Err(e) ==> e == VaultError::KeyDerivation,
        r is Err ==> key_derivation_may_fail(passwd@, salt@),
        !key_derivation_may_fail(passwd@, salt@) ==> r is Ok,
{
    let key = match derive_key_checked(passwd, salt) {
        Some(k) => k,
        None => {
            return Err(VaultError::KeyDerivation);
        },
    };
    let stored = seal_file_with_key(key.as_slice(), plaintext, nonce, salt);
    assert(stored@.subrange(24, 56) =~= salt@);
    Ok(stored)
}

/// Opens a stored file with a 32-byte key: `TooShort` when it has no room
/// for its nonce and salt, `Forged` when the ciphertext does not open.
pub fn open_file_with_key(key: &[u8], stored: &[u8]) -> (r: Result<Vec<u8>, VaultError>)
    requires
        key@.len() == 32,
    ensures
        r matches Ok(m) ==> file_opened_with_key(key@, stored@) == Ok::<Seq<u8>, VaultError>(m@),
        r matches Err(e) ==> file_opened_with_key(key@, stored@) == Err::<Seq<u8>, VaultError>(e),
{
    if stored.len() < 56 {
        return Err(VaultError::TooShort);
    }
    let nonce = vstd::slice::slice_subrange(stored, 0, 24);
    let ciphertext = vstd::slice::slice_subrange(stored, 56, stored.len());
    assert(ciphertext@ =~= stored@.skip(56));
    assert(nonce@ =~= stored@.take(24));
    match open(ciphertext, nonce, key) {
        Some(m) => Ok(m),
        None => Err(VaultError::Forged),
    }
}

/// Opens a stored file with `passwd`: `TooShort` when it has no room for
/// its nonce and salt, before any key is derived; otherwise what
/// `open_file_with_key` gives with the key of the password and the stored
/// salt, unless deriving that key fails.
pub fn open_file(passwd: &[u8], stored: &[u8]) -> (r: Result<Vec<u8>, VaultError>)
    ensures
        r == Err::<Vec<u8>, VaultError>(VaultError::TooShort) <==> stored@.len() < 56,
        r matches Ok(m) ==> opened_file(passwd@, stored@) == Ok::<Seq<u8>, VaultError>(m@),
        r matches Err(e) ==> e == VaultError::KeyDerivation || opened_file(passwd@, stored@)
            == Err::<Seq<u8>, VaultError>(e),
        r == Err::<Vec<u8>, VaultError>(VaultError::KeyDerivation) ==> stored@.len() >= 56
            && key_derivation_may_fail(passwd@, stored@.subrange(24, 56)),
        stored@.len() >= 56 && !key_derivation_may_fail(passwd@, stored@.subrange(24, 56)) ==> match opened_file(
            passwd@,
            stored@,
        ) {
            Ok(m) => r matches Ok(v) && v@ == m,
            Err(e) => r == Err::<Vec<u8>, VaultError>(e),
        },
{
    if stored.len() < 56 {
        return Err(VaultError::TooShort);
    }
    let salt = vstd::slice::slice_subrange(stored, 24, 56);
    let key = match derive_key_checked(passwd, salt) {
        Some(k) => k,
        None => {
            return Err(VaultError::KeyDerivation);
        },
    };
    open_file_with_key(key.as_slice(), stored)
}

/// The bytes of a stored name: the salt, then the compressed name sealed
/// with `key` and the first 24 bytes of the salt as nonce.
pub open spec fn sealed_name_bytes(key: Seq<u8>, name: Seq<char>, salt: Seq<u8>) -> Seq<u8> {
    salt + secretbox_seal(zlib_compress(encode_utf8(name)), salt.take(24), key)
}

/// The stored form of a name: the salt and the sealed, compressed name, in
/// hexadecimal.
pub open spec fn sealed_name(passwd: Seq<u8>, name: Seq<char>, salt: Seq<u8>) -> Seq<char> {
    hex_lower(sealed_name_bytes(scrypt_key(passwd, salt), name, salt))
}

/// The name the bytes of a stored name open to with `key`, or why not.
pub open spec fn name_opened_with_key(key: Seq<u8>, b: Seq<u8>) -> Result<Seq<char>, VaultError> {
    if b.len() < 32 {
        Err(VaultError::TooShort)
    } else {
        match secretbox_open(b.skip(32), b.take(24), key) {
            None => Err(VaultError::Forged),
            Some(z) => match zlib_decompress(z) {
                None => Err(VaultError::Corrupt),
                Some(u) => if valid_utf8(u) {
                    Ok(decode_utf8(u))
                } else {
                    Err(VaultError::NotUtf8)
                },
            },
        }
    }
}

/// The name stored as the bytes `text` opens to with `passwd`, or why not:
/// the text is read as hexadecimal, and the key is the one of the password
/// and the salt at the front of the bytes.
pub open spec fn opened_name(passwd: Seq<u8>, text: Seq<u8>) -> Result<Seq<char>, VaultError> {
    match hex_decode(text) {
        None => Err(VaultError::NotHex),
        Some(b) => if b.len() < 32 {
            Err(VaultError::TooShort)
        } else {
            name_opened_with_key(scrypt_key(passwd, b.take(32)), b)
        },
    }
}

/// The stored form of the name `name` sealed with a 32-byte key, given the
/// 32-byte salt the key was derived with.  Its text opens with the same key
/// to the same name.
pub fn seal_name_with_key(key: &[u8], name: &str, salt: &[u8]) -> (text: String)
    requires
        key@.len() == 32,
        salt@.len() == 32,
    ensures
        text@ == hex_lower(sealed_name_bytes(key@, name@, salt@)),
        hex_decode(encode_utf8(text@)) == Some(sealed_name_bytes(key@, name@, salt@)),
        name_opened_with_key(key@, sealed_name_bytes(key@, name@, salt@)) == Ok::<Seq<char>, VaultError>(name@),
{
    let compressed = zlib_encode(name.as_bytes());
    let nonce = vstd::slice::slice_subrange(salt, 0, 24);
    let mut ciphertext = seal(compressed.as_slice(), nonce, key);
    let mut tosave = vstd::slice::slice_to_vec(salt);
    tosave.append(&mut ciphertext);
    let text = hex_encode(tosave.as_slice());
    proof {
        broadcast use vstd::utf8::encode_utf8_valid_utf8, vstd::utf8::encode_utf8_decode_utf8;

        lemma_hex_roundtrip(tosave@);
        let b = tosave@;
        assert(b =~= sealed_name_bytes(key@, name@, salt@));
        assert(b.take(24) =~= salt@.take(24));
        assert(b.skip(32) =~= secretbox_seal(compressed@, nonce@, key@));
    }
    text
}

/// The stored form of the name `name`, given a fresh 32-byte salt.  Its
/// text opens with the same password to the same name.  Deriving the key
/// can fail for want of memory, which no argument decides.
pub fn seal_name(passwd: &[u8], name: &str, salt: &[u8]) -> (r: Result<String, VaultError>)
    requires
        salt@.len() == 32,
    ensures
        r matches Ok(text) ==> text@ == sealed_name(passwd@, name@, salt@)
            && opened_name(passwd@, encode_utf8(text@)) == Ok::<Seq<char>, VaultError>(name@),
        r matches Err(e) ==> e == VaultError::KeyDerivation,
        r is Err ==> key_derivation_may_fail(passwd@, salt@),
        !key_derivation_may_fail(passwd@, salt@) ==> r is Ok,
{
    let key = match derive_key_checked(passwd, salt) {
        Some(k) => k,
        None => {
            return Err(VaultError::KeyDerivation);
        },
    };
    let text = seal_name_with_key(key.as_slice(), name, salt);
    assert(sealed_name_bytes(key@, name@, salt@).take(32) =~= salt@);
    Ok(text)
}

/// Opens the bytes of a stored name with a 32-byte key: `TooShort` when
/// they have no room for the salt, `Forged` when the ciphertext does not
/// open, `Corrupt` when what it opens to is no zlib stream, `NotUtf8` when
/// that stream does not hold UTF-8.
pub fn open_name_with_key(key: &[u8], bytes: &[u8]) -> (r: Result<String, VaultError>)
    requires
        key@.len() == 32,
    ensures
        r matches Ok(name) ==> name_opened_with_key(key@, bytes@) == Ok::<Seq<char>, VaultError>(name@),
        r matches Err(e) ==> name_opened_with_key(key@, bytes@) == Err::<Seq<char>, VaultError>(e),
{
    if bytes.len() < 32 {
        return Err(VaultError::TooShort);
    }
    let nonce = vstd::slice::slice_subrange(bytes, 0, 24);
    let ciphertext = vstd::slice::slice_subrange(bytes, 32, bytes.len());
    assert(ciphertext@ =~= bytes@.skip(32));
    assert(nonce@ =~= bytes@.take(24));
    let compressed = match open(ciphertext, nonce, key) {
        Some(z) => z,
        None => {
            return Err(VaultError::Forged);
        },
    };
    let plain = match zlib_decode(compressed.as_slice()) {
        Some(u) => u,
        None => {
            return Err(VaultError::Corrupt);
        },
    };
    match string_from_utf8(plain) {
        Some(name) => Ok(name),
        None => Err(VaultError::NotUtf8),
    }
}

/// Opens a stored name, given as the bytes of its text, with `passwd`.
/// `NotHex` and `TooShort` come before any key is derived; otherwise it is
/// what `open_name_with_key` gives with the key of the password and the
/// stored salt, unless deriving that key fails.
pub fn open_name(passwd: &[u8], text: &[u8]) -> (r: Result<String, VaultError>)
    ensures
        r == Err::<String, VaultError>(VaultError::NotHex) <==> hex_decode(text@) is None,
        r == Err::<String, VaultError>(VaultError::TooShort) <==> (hex_decode(text@) matches Some(b)
            && b.len() < 32),
        r matches Ok(name) ==> opened_name(passwd@, text@) == Ok::<Seq<char>, VaultError>(name@),
        r matches Err(e) ==> e == VaultError::KeyDerivation || opened_name(passwd@, text@)
            == Err::<Seq<char>, VaultError>(e),
        r == Err::<String, VaultError>(VaultError::KeyDerivation) ==> (hex_decode(text@) matches Some(b)
            && b.len() >= 32 && key_derivation_may_fail(passwd@, b.take(32))),
        (hex_decode(text@) matches Some(b) && (b.len() < 32 || !key_derivation_may_fail(passwd@, b.take(32))))
            ==> match opened_name(passwd@, text@) {
            Ok(n) => r matches Ok(v) && v@ == n,
            Err(e) => r == Err::<String, VaultError>(e),
        },
{
    let bytes = match hex_decode_bytes(text) {
        Some(b) => b,
        None => {
            return Err(VaultError::NotHex);
        },
    };
    if bytes.len() < 32 {
        return Err(VaultError::TooShort);
    }
    let salt = vstd::slice::slice_subrange(bytes.as_slice(), 0, 32);
    let key = match derive_key_checked(passwd, salt) {
        Some(k) => k,
        None => {
            return Err(VaultError::KeyDerivation);
        },
    };
    assert(salt@ =~= bytes@.take(32));
    open_name_with_key(key.as_slice(), bytes.as_slice())
}

/// The pieces of `s` between the separators `sep`, as `str::split` gives
/// them: one more piece than separators, empty pieces included.
pub open spec fn split_on(s: Seq<u8>, sep: u8) -> Seq<Seq<u8>>
    decreases s.len(),
{
    if s.len() == 0 {
        seq![Seq::empty()]
    } else {
        let prev = split_on(s.drop_last(), sep);
        if s.last() == sep {
            prev.push(Seq::empty())
        } else {
            prev.update(prev.len() - 1, prev.last().push(s.last()))
        }
    }
}

proof fn lemma_split_on_nonempty(s: Seq<u8>, sep: u8)
    ensures
        split_on(s, sep).len() >= 1,
    decreases s.len(),
{
    if s.len() > 0 {
        lemma_split_on_nonempty(s.drop_last(), sep);
    }
}

/// The pieces of `data` between the separators `sep`.
pub fn split_bytes(data: &[u8], sep: u8) -> (parts: Vec<Vec<u8>>)
    ensures
        parts@.map_values(|v: Vec<u8>| v@) == split_on(data@, sep),
{
    let mut parts: Vec<Vec<u8>> = Vec::new();
    let mut current: Vec<u8> = Vec::new();
    let mut i: usize = 0;
    while i < data.len()
        invariant
            0 <= i <= data@.len(),
            parts@.map_values(|v: Vec<u8>| v@).push(current@) == split_on(data@.take(i as int), sep),
        decreases data@.len() - i,
    {
        proof {
            lemma_split_on_nonempty(data@.take(i as int), sep);
            assert(data@.take(i + 1).drop_last() =~= data@.take(i as int));
        }
        let ghost before = parts@.map_values(|v: Vec<u8>| v@);
        let b = data[i];
        if b == sep {
            let done = current;
            current = Vec::new();
            parts.push(done);
            assert(parts@.map_values(|v: Vec<u8>| v@) =~= before.push(done@));
            assert(parts@.map_values(|v: Vec<u8>| v@).push(current@) =~= split_on(
                data@.take(i + 1),
                sep,
            ));
        } else {
            let ghost old_current = current@;
            current.push(b);
            assert(parts@.map_values(|v: Vec<u8>| v@).push(current@) =~= split_on(
                data@.take(i + 1),
                sep,
            ));
        }
        i = i + 1;
    }
    assert(data@.take(data@.len() as int) =~= data@);
    let ghost before = parts@.map_values(|v: Vec<u8>| v@);
    parts.push(current);
    assert(parts@.map_values(|v: Vec<u8>| v@) =~= before.push(current@));
    parts
}

/// The entries of a file listing, the names between its commas.
pub fn split_listing(listing: &[u8]) -> (parts: Vec<Vec<u8>>)
    ensures
        parts@.map_values(|v: Vec<u8>| v@) == split_on(listing@, 44),
{
    split_bytes(listing, 44)
}

} // verus!
