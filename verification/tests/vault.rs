use cryptodropfile::vault::{
    open_file, open_file_with_key, open_name, open_name_with_key, seal_file, seal_file_with_key, seal_name,
    seal_name_with_key, split_listing, VaultError,
};
use sodiumoxide::crypto::secretbox;
use std::io::Write;

const NONCE: [u8; 24] = [7; 24];
const SALT: [u8; 32] = [9; 32];
const KEY: [u8; 32] = [5; 32];

fn zlib(data: &[u8]) -> Vec<u8> {
    let mut encoder = libflate::zlib::Encoder::new(Vec::new()).unwrap();
    encoder.write_all(data).unwrap();
    encoder.finish().into_result().unwrap()
}

/// The bytes of a stored name whose ciphertext seals `inner` under `KEY`.
fn name_bytes_sealing(inner: &[u8]) -> Vec<u8> {
    let nonce = secretbox::Nonce::from_slice(&SALT[..24]).unwrap();
    let key = secretbox::Key::from_slice(&KEY).unwrap();
    let mut bytes = SALT.to_vec();
    bytes.extend(secretbox::seal(inner, &nonce, &key));
    bytes
}

#[test]
fn sealed_file_opens_with_the_same_password() {
    let stored = seal_file(b"secret", b"the file contents", &NONCE, &SALT).unwrap();
    assert_eq!(&stored[..24], &NONCE);
    assert_eq!(&stored[24..56], &SALT);
    assert_eq!(stored.len(), 56 + 17 + 16);
    assert_eq!(open_file(b"secret", &stored), Ok(b"the file contents".to_vec()));
}

#[test]
fn sealed_file_is_not_the_plain_text() {
    let stored = seal_file(b"secret", b"the file contents", &NONCE, &SALT).unwrap();
    assert!(!stored.windows(17).any(|w| w == b"the file contents"));
}

#[test]
fn opening_files_fails() {
    let stored = seal_file(b"secret", b"abc", &NONCE, &SALT).unwrap();
    assert_eq!(open_file(b"other", &stored), Err(VaultError::Forged));
    let mut tampered = stored.clone();
    let last = tampered.len() - 1;
    tampered[last] ^= 1;
    assert_eq!(open_file(b"secret", &tampered), Err(VaultError::Forged));
    assert_eq!(open_file(b"secret", &stored[..55]), Err(VaultError::TooShort));
    assert_eq!(open_file(b"secret", &stored[..56]), Err(VaultError::Forged));
}

#[test]
fn sealed_name_opens_with_the_same_password() {
    let text = seal_name(b"pw", "report.txt", &SALT).unwrap();
    assert!(text.chars().all(|c| c.is_ascii_digit() || ('a'..='f').contains(&c)));
    assert!(text.starts_with(&"09".repeat(32)));
    assert_eq!(open_name(b"pw", text.as_bytes()), Ok("report.txt".to_string()));
    assert_eq!(open_name(b"pw", text.to_uppercase().as_bytes()), Ok("report.txt".to_string()));
    let unicode = seal_name(b"pw", "åäö.md", &SALT).unwrap();
    assert_eq!(open_name(b"pw", unicode.as_bytes()), Ok("åäö.md".to_string()));
}

#[test]
fn opening_names_fails() {
    let text = seal_name(b"pw", "report.txt", &SALT).unwrap();
    assert_eq!(open_name(b"other", text.as_bytes()), Err(VaultError::Forged));
    assert_eq!(open_name(b"pw", b" 0a"), Err(VaultError::NotHex));
    assert_eq!(open_name(b"pw", b"abc"), Err(VaultError::NotHex));
    assert_eq!(open_name(b"pw", b"zz"), Err(VaultError::NotHex));
    assert_eq!(open_name(b"pw", b"0a0b"), Err(VaultError::TooShort));
}

#[test]
fn listing_splits_at_commas() {
    assert_eq!(split_listing(b"ab,cd, ef"), vec![b"ab".to_vec(), b"cd".to_vec(), b" ef".to_vec()]);
    assert_eq!(split_listing(b""), vec![Vec::<u8>::new()]);
    assert_eq!(split_listing(b"a,"), vec![b"a".to_vec(), Vec::new()]);
    assert_eq!(split_listing(b",,"), vec![Vec::<u8>::new(), Vec::new(), Vec::new()]);
}

#[test]
fn file_sealed_with_a_key_opens_with_it() {
    let stored = seal_file_with_key(&KEY, b"abc", &NONCE, &SALT);
    assert_eq!(&stored[..24], &NONCE);
    assert_eq!(&stored[24..56], &SALT);
    let nonce = secretbox::Nonce::from_slice(&NONCE).unwrap();
    let key = secretbox::Key::from_slice(&KEY).unwrap();
    assert_eq!(&stored[56..], secretbox::seal(b"abc", &nonce, &key).as_slice());
    assert_eq!(open_file_with_key(&KEY, &stored), Ok(b"abc".to_vec()));
    assert_eq!(open_file_with_key(&[6; 32], &stored), Err(VaultError::Forged));
    assert_eq!(open_file_with_key(&KEY, &stored[..55]), Err(VaultError::TooShort));
}

#[test]
fn name_sealed_with_a_key_opens_with_it() {
    let text = seal_name_with_key(&KEY, "notes.txt", &SALT);
    let bytes = hex::decode(&text).unwrap();
    assert_eq!(bytes, name_bytes_sealing(&zlib(b"notes.txt")));
    assert_eq!(open_name_with_key(&KEY, &bytes), Ok("notes.txt".to_string()));
    assert_eq!(open_name_with_key(&[6; 32], &bytes), Err(VaultError::Forged));
    assert_eq!(open_name_with_key(&KEY, &bytes[..31]), Err(VaultError::TooShort));
}

#[test]
fn opened_names_must_be_zlib_and_utf8() {
    assert_eq!(open_name_with_key(&KEY, &name_bytes_sealing(b"not zlib")), Err(VaultError::Corrupt));
    assert_eq!(open_name_with_key(&KEY, &name_bytes_sealing(&zlib(&[0xff, 0xfe]))), Err(VaultError::NotUtf8));
    assert_eq!(open_name_with_key(&KEY, &name_bytes_sealing(&zlib("é".as_bytes()))), Ok("é".to_string()));
}
