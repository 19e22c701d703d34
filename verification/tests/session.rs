use cryptodropfile::crypto::hash_str;
use cryptodropfile::protobuf_msg::{message_from_bytes, Action, SomeMessage};
use cryptodropfile::session::{
    bind_address, file_list_reply, load_file_reply, Command, ServerError, UserConnection,
};
use cryptodropfile::text::to_hex_str;

fn msg(action: Action, filename: &str, data: &[u8]) -> SomeMessage {
    SomeMessage { action: action.code(), filename: filename.to_string(), data: data.to_vec() }
}

fn text(e: &ServerError) -> String {
    match e {
        ServerError::Text(t) => t.clone(),
        ServerError::Io(t) => t.clone(),
    }
}

fn logged_in_as(id: &str) -> UserConnection {
    let mut c = UserConnection::new();
    let m = SomeMessage { action: 4, filename: String::new(), data: vec![0xab] };
    assert_eq!(to_hex_str(&m.data), "AB");
    c.login(&m, &vec![id.to_string()]).unwrap();
    c
}

#[test]
fn nobody_is_logged_in_at_first() {
    let c = UserConnection::new();
    assert_eq!(c.userid(), "");
    assert_eq!(text(&c.logged_in().unwrap_err()), "not logged in");
    assert_eq!(text(&c.user_path().unwrap_err()), "not logged in");
    assert_eq!(text(&c.file_path(&msg(Action::GetFile, "a", &[])).unwrap_err()), "not logged in");
}

#[test]
fn login_with_a_known_user() {
    let user = hash_str("someuser").to_vec();
    let id = to_hex_str(&user);
    let mut c = UserConnection::new();
    let m = msg(Action::Login, "", &user);
    assert!(c.login(&m, &vec!["other".to_string(), id.clone()]).is_ok());
    assert_eq!(c.userid(), id);
    assert!(c.logged_in().is_ok());
    assert_eq!(c.user_path().unwrap(), format!("./user/{}/", id));
    assert_eq!(c.file_path(&msg(Action::GetFile, "f.txt", &[])).unwrap(), format!("./user/{}/f.txt", id));
}

#[test]
fn login_with_an_unknown_user() {
    let mut c = logged_in_as("AB");
    let m = msg(Action::Login, "", &[1, 2]);
    assert_eq!(text(&c.login(&m, &vec!["AB".to_string()]).unwrap_err()), "could not locate user");
    assert_eq!(c.userid(), "AB");
}

#[test]
fn login_with_a_long_hash_changes_nothing() {
    let mut c = UserConnection::new();
    let m = msg(Action::Login, "", &[7; 128]);
    assert!(c.login(&m, &vec![]).is_ok());
    assert_eq!(c.userid(), "");
}

#[test]
fn registration() {
    let c = UserConnection::new();
    let m = msg(Action::Register, "", &[0x01, 0xff]);
    let reg = c.register_new_user(&m, &vec!["AB".to_string()]).unwrap().unwrap();
    assert_eq!(reg.path, "./user/1FF");
    assert_eq!(reg.userid, "1FF");
    assert_eq!(text(&c.register_new_user(&m, &vec!["1FF".to_string()]).err().unwrap()), "user already exists");
    assert!(c.register_new_user(&msg(Action::Register, "", &[0; 200]), &vec![]).unwrap().is_none());
    let mut c = c;
    c.complete_registration(reg);
    assert_eq!(c.userid(), "1FF");
}

#[test]
fn requests_become_commands() {
    let c = logged_in_as("AB");
    match c.handle_message(&msg(Action::Login, "", &[1])) {
        Command::Login => {}
        _ => panic!("expected a login"),
    }
    match c.handle_message(&msg(Action::GetFile, "a.bin", &[])) {
        Command::LoadFile { path } => assert_eq!(path, "./user/AB/a.bin"),
        _ => panic!("expected a load"),
    }
    match c.handle_message(&msg(Action::AddFile, "b.bin", &[1])) {
        Command::SaveFile { path } => assert_eq!(path, "./user/AB/b.bin"),
        _ => panic!("expected a save"),
    }
    match c.handle_message(&msg(Action::GetFileList, "", &[])) {
        Command::ListFiles { path } => assert_eq!(path, "./user/AB/"),
        _ => panic!("expected a list"),
    }
}

#[test]
fn other_actions_are_refused() {
    let c = UserConnection::new();
    for action in [0, 5, 6, 7, 8, -3] {
        let m = SomeMessage { action, filename: String::new(), data: vec![] };
        match c.handle_message(&m) {
            Command::Refuse { reply, error } => {
                assert_eq!(reply.action, 6);
                assert_eq!(reply.filename, "");
                assert_eq!(reply.data, b"could not parse action".to_vec());
                assert_eq!(text(&error), "Could not parse action: ");
            }
            _ => panic!("expected a refusal"),
        }
    }
}

#[test]
fn file_requests_need_a_login() {
    let c = UserConnection::new();
    for action in [Action::GetFile, Action::AddFile, Action::GetFileList] {
        match c.handle_message(&msg(action, "x", &[])) {
            Command::Fail(e) => assert_eq!(text(&e), "not logged in"),
            _ => panic!("expected a failure"),
        }
    }
}

#[test]
fn replies() {
    let req = msg(Action::GetFile, "doc", &[]);
    let r = load_file_reply(&req, vec![1, 2, 3]);
    assert_eq!(r, SomeMessage { action: 2, filename: "doc".to_string(), data: vec![1, 2, 3] });
    let l = file_list_reply(&vec!["a".to_string(), "bb".to_string(), "c".to_string()]);
    assert_eq!(l.action, 3);
    assert_eq!(l.filename, "");
    assert_eq!(l.data, b"a, bb, c".to_vec());
    assert_eq!(file_list_reply(&vec![]).data, Vec::<u8>::new());
    assert_eq!(file_list_reply(&vec!["only".to_string()]).data, b"only".to_vec());
}

#[test]
fn send_encodes_the_reply() {
    let c = UserConnection::new();
    let r = msg(Action::GetFile, "d", &[9]);
    let bytes = c.send(&r).unwrap();
    assert_eq!(bytes, vec![0x08, 0x02, 0x12, 0x01, 0x64, 0x1a, 0x01, 0x09]);
    assert_eq!(message_from_bytes(&bytes), Ok(r));
}

#[test]
fn addresses_and_error_text() {
    assert_eq!(bind_address("127.0.0.1", 3000), "127.0.0.1:3000");
    assert_eq!(bind_address("10.0.0.2", 0), "10.0.0.2:0");
    assert_eq!(ServerError::from_text("boom").describe(), "(boom)");
    assert_eq!(ServerError::Io("disk".to_string()).describe(), "(disk)");
}

#[test]
fn saved_file_loads_back() {
    let c = logged_in_as("AB");
    let save = msg(Action::AddFile, "notes", &[1, 2, 3]);
    let mut disk = std::collections::HashMap::new();
    match c.handle_message(&save) {
        Command::SaveFile { path } => {
            disk.insert(path, save.data.clone());
        }
        _ => panic!("expected a save"),
    }
    let load = msg(Action::GetFile, "notes", &[]);
    match c.handle_message(&load) {
        Command::LoadFile { path } => {
            let reply = load_file_reply(&load, disk[&path].clone());
            assert_eq!(reply, msg(Action::GetFile, "notes", &[1, 2, 3]));
        }
        _ => panic!("expected a load"),
    }
    assert_eq!(c.userid(), "AB");
}

#[test]
fn registered_user_logs_in() {
    let data = hash_str("newuser").to_vec();
    let request = msg(Action::Register, "", &data);
    let known = vec!["AB".to_string()];
    let reg = UserConnection::new().register_new_user(&request, &known).unwrap().unwrap();
    assert_eq!(reg.path, format!("./user/{}", to_hex_str(&data)));
    let mut after = known.clone();
    after.push(reg.userid.clone());
    let mut d = logged_in_as("AB");
    assert!(d.login(&msg(Action::Login, "", &data), &after).is_ok());
    assert_eq!(d.userid(), reg.userid);
    assert_eq!(d.userid(), to_hex_str(&data));
}

#[test]
fn save_file_then_load_file_sends_the_saved_data() {
    let c = logged_in_as("AB");
    let save = SomeMessage { action: 0, filename: "notes".to_string(), data: vec![4, 5] };
    let mut disk = std::collections::HashMap::new();
    disk.insert(c.file_path(&save).unwrap(), save.data.clone());
    let load = SomeMessage { action: 9, filename: "notes".to_string(), data: vec![] };
    let reply = load_file_reply(&load, disk[&c.file_path(&load).unwrap()].clone());
    let expected = SomeMessage { action: 2, filename: "notes".to_string(), data: vec![4, 5] };
    assert_eq!(reply, expected);
    let mut bytes = Vec::new();
    expected.encode_raw(&mut bytes);
    assert_eq!(c.send(&reply).unwrap(), bytes);
    assert_eq!(c.userid(), "AB");
}
