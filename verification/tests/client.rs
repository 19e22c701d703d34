use cryptodropfile::client::{
    add_file_request, add_file_request_with, command_for, credentials_request, file_list_request, get_file_request,
    open_file_reply, open_listing, reply_failed, split_credentials, ClientCommand,
};
use cryptodropfile::crypto::hash;
use cryptodropfile::protobuf_msg::SomeMessage;
use cryptodropfile::session::{load_file_reply, Command, UserConnection};
use cryptodropfile::vault::{seal_file, seal_name, VaultError};

fn msg(action: i32, filename: &str, data: &[u8]) -> SomeMessage {
    SomeMessage { action, filename: filename.to_string(), data: data.to_vec() }
}

#[test]
fn credentials_become_requests() {
    assert_eq!(split_credentials(b"alice:pw"), Some((b"alice".to_vec(), b"pw".to_vec())));
    assert_eq!(split_credentials(b"a:b:c"), Some((b"a".to_vec(), b"b".to_vec())));
    assert_eq!(split_credentials(b":"), Some((Vec::new(), Vec::new())));
    assert_eq!(split_credentials(b"alice"), None);
    assert_eq!(split_credentials(b""), None);
    assert_eq!(credentials_request(false, b"alice"), msg(4, "", &hash(b"alice")));
    assert_eq!(credentials_request(true, b"alice"), msg(7, "", &hash(b"alice")));
}

#[test]
fn simple_requests() {
    assert_eq!(file_list_request(), msg(3, "", &[]));
    assert_eq!(get_file_request("0a0b"), msg(2, "0a0b", &[]));
    assert!(reply_failed(&msg(6, "", b"could not parse action")));
    assert!(!reply_failed(&msg(2, "x", &[])));
}

#[test]
fn add_file_request_seals_name_and_contents() {
    let nonce = [1u8; 24];
    let salt = [2u8; 32];
    let name_salt = [3u8; 32];
    let m = add_file_request_with(b"pw", "a.txt", b"hello", &nonce, &salt, &name_salt).unwrap();
    assert_eq!(m.action, 1);
    assert_eq!(m.data, seal_file(b"pw", b"hello", &nonce, &salt).unwrap());
    assert_eq!(m.filename, seal_name(b"pw", "a.txt", &name_salt).unwrap());
}

#[test]
fn stored_file_comes_back_open() {
    let m = add_file_request(b"pw", "a.txt", b"hello").unwrap();
    assert_eq!(m.action, 1);
    let reply = msg(2, &m.filename, &m.data);
    assert_eq!(open_file_reply(b"pw", &reply), Ok(("a.txt".to_string(), b"hello".to_vec())));
    assert_eq!(open_file_reply(b"other", &reply), Err(VaultError::Forged));
    let short = msg(2, &m.filename, &m.data[..10]);
    assert_eq!(open_file_reply(b"pw", &short), Err(VaultError::TooShort));
    let unnamed = msg(2, "zz", &m.data);
    assert_eq!(open_file_reply(b"pw", &unnamed), Err(VaultError::NotHex));
}

#[test]
fn listing_opens_the_hexadecimal_entries() {
    let a = seal_name(b"pw", "a.txt", &[4u8; 32]).unwrap();
    let b = seal_name(b"pw", "b.txt", &[5u8; 32]).unwrap();
    let listing = format!("{},junk,{}", a, b);
    assert_eq!(
        open_listing(b"pw", listing.as_bytes()),
        Ok(vec![
            ("a.txt".to_string(), a.as_bytes().to_vec()),
            ("b.txt".to_string(), b.as_bytes().to_vec()),
        ])
    );
    // an empty listing is one empty entry, too short to be a name
    assert_eq!(open_listing(b"pw", b""), Err(VaultError::TooShort));
    assert_eq!(open_listing(b"other", listing.as_bytes()), Err(VaultError::Forged));
    assert_eq!(open_listing(b"pw", b"junk,0a0b"), Err(VaultError::TooShort));
}

#[test]
fn added_file_comes_back_through_the_server() {
    let mut c = UserConnection::new();
    let login = SomeMessage { action: 4, filename: String::new(), data: vec![0xab] };
    c.login(&login, &vec!["AB".to_string()]).unwrap();
    let add = add_file_request(b"pw", "plan.md", b"step one").unwrap();
    let mut disk = std::collections::HashMap::new();
    match c.handle_message(&add) {
        Command::SaveFile { path } => {
            disk.insert(path, add.data.clone());
        }
        _ => panic!("expected a save"),
    }
    let get = get_file_request(&add.filename);
    let reply = match c.handle_message(&get) {
        Command::LoadFile { path } => load_file_reply(&get, disk[&path].clone()),
        _ => panic!("expected a load"),
    };
    assert_eq!(open_file_reply(b"pw", &reply), Ok(("plan.md".to_string(), b"step one".to_vec())));
}

#[test]
fn command_words() {
    assert_eq!(command_for("login"), ClientCommand::Login);
    assert_eq!(command_for("register"), ClientCommand::Register);
    assert_eq!(command_for("filelist"), ClientCommand::FileList);
    assert_eq!(command_for("addfile"), ClientCommand::AddFile);
    assert_eq!(command_for("getfile"), ClientCommand::GetFile);
    assert_eq!(command_for("validaterecord"), ClientCommand::ValidateRecord);
    assert_eq!(command_for("Login"), ClientCommand::Unknown);
    assert_eq!(command_for("log"), ClientCommand::Unknown);
    assert_eq!(command_for(""), ClientCommand::Unknown);
}
