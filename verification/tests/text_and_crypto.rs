use cryptodropfile::crypto::{hash, hash_str};
use cryptodropfile::logger::Setup;
use cryptodropfile::text::to_hex_str;

#[test]
fn hex_is_upper_case_without_padding() {
    assert_eq!(to_hex_str(&[0x0a, 0xff, 0x00, 0x10]), "AFF010");
    assert_eq!(to_hex_str(&[]), "");
    assert_eq!(to_hex_str(&[0x01, 0x23]), "123");
    // two different byte strings can give the same text
    assert_eq!(to_hex_str(&[0x12, 0x03]), "123");
}

#[test]
fn hex_length_between_one_and_two_digits_per_byte() {
    let data: Vec<u8> = (0..=255).collect();
    let s = to_hex_str(&data);
    assert!(s.len() >= data.len() && s.len() <= 2 * data.len());
    assert_eq!(s.len(), 16 + 2 * 240);
}

fn hex_lower(d: &[u8]) -> String {
    d.iter().map(|b| format!("{:02x}", b)).collect()
}

#[test]
fn hash_is_sha512() {
    assert_eq!(
        hex_lower(&hash(b"abc")),
        "ddaf35a193617abacc417349ae20413112e6fa4e89a97ea20a9eeee64b55d39a2192992a274fc1a836ba3c23a3feebbd454d4423643ce80e2a9ac94fa54ca49f"
    );
    assert_eq!(
        hex_lower(&hash_str("")),
        "cf83e1357eefb8bdf1542850d66d8007d620e4050b5715dc83f4a921d36ce9ce47d0d13c5d85f2b0ff8318d2877eec2f63b931bd47417a81a538327af927da3e"
    );
    assert_eq!(hash_str("hello world"), hash(b"hello world"));
}

#[test]
fn hash_of_user_name_in_hex() {
    let id = to_hex_str(&hash_str("someuser"));
    assert!(id.len() >= 64 && id.len() <= 128);
    assert!(id.chars().all(|c| c.is_ascii_digit() || ('A'..='F').contains(&c)));
}

#[test]
fn default_log_setup() {
    let s = Setup::default();
    assert_eq!(s.output_file(), "log/requests.log");
    assert!(s.flush());
    let t = Setup::new("x.log".to_string(), false);
    assert_eq!(t.output_file(), "x.log");
    assert!(!t.flush());
}
