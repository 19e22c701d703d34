//! The client's side of an exchange with the server: the requests its
//! commands send, and what it makes of the replies.  Reading the terminal,
//! the file to send and the network is left to the program around it.

use vstd::prelude::*;
use vstd::utf8::encode_utf8;
use sodiumoxide::crypto::{pwhash, secretbox};
use crate::crypto::{hash, sha512_digest};
use crate::protobuf_msg::{Action, MessageModel, SomeMessage};
use crate::session::{disk_after, law_save_then_load, load_reply, task_for};
use crate::vault::{
    hex_decode, open_file, open_name, opened_file, opened_name, seal_file, seal_name, sealed_file,
    sealed_name, split_bytes, split_listing, split_on, key_derivation_may_fail, VaultError,
};

verus! {

/// A fresh random nonce for sealing a file (`secretbox::gen_nonce`).  Only
/// its length, 24 bytes, is known of it.
#[verifier::external_body]
fn fresh_nonce() -> (n: Vec<u8>)
    ensures
        n@.len() == 24,
{
    secretbox::gen_nonce().0.to_vec()
}

/// A fresh random salt for deriving a key (`pwhash::gen_salt`).  Only its
/// length, 32 bytes, is known of it.
#[verifier::external_body]
fn fresh_salt() -> (s: Vec<u8>)
    ensures
        s@.len() == 32,
{
    pwhash::gen_salt().0.to_vec()
}

/// A command the client reads from its user, by its word.
#[derive(Clone, Copy, Debug, PartialEq, Eq, Structural)]
pub enum ClientCommand {
    Login,
    Register,
    FileList,
    AddFile,
    GetFile,
    ValidateRecord,
    Unknown,
}

/// The command a word names: `login`, `register`, `filelist`, `addfile`,
/// `getfile`, `validaterecord`; any other word is unknown.
pub open spec fn command_of(word: Seq<char>) -> ClientCommand {
    if word == "login"@ {
        ClientCommand::Login
    } else if word == "register"@ {
        ClientCommand::Register
    } else if word == "filelist"@ {
        ClientCommand::FileList
    } else if word == "addfile"@ {
        ClientCommand::AddFile
    } else if word == "getfile"@ {
        ClientCommand::GetFile
    } else if word == "validaterecord"@ {
        ClientCommand::ValidateRecord
    } else {
        ClientCommand::Unknown
    }
}

/// Whether two byte strings are the same.
fn same_bytes(a: &[u8], b: &[u8]) -> (r: bool)
    ensures
        r == (a@ == b@),
{
    if a.len() != b.len() {
        return false;
    }
    let mut i: usize = 0;
    while i < a.len()
        invariant
            a@.len() == b@.len(),
            0 <= i <= a@.len(),
            forall|j: int| 0 <= j < i ==> a@[j] == b@[j],
        decreases a@.len() - i,
    {
        if a[i] != b[i] {
            return false;
        }
        i = i + 1;
    }
    assert(a@ =~= b@);
    true
}

/// Whether `word` is the word `w`.
fn is_word(word: &str, w: &str) -> (r: bool)
    ensures
        r == (word@ == w@),
{
    let r = same_bytes(word.as_bytes(), w.as_bytes());
    proof {
        vstd::utf8::encode_utf8_decode_utf8(word@);
        vstd::utf8::encode_utf8_decode_utf8(w@);
    }
    r
}

/// The command the word `word` names.
pub fn command_for(word: &str) -> (c: ClientCommand)
    ensures
        c == command_of(word@),
{
    if is_word(word, "login") {
        ClientCommand::Login
    } else if is_word(word, "register") {
        ClientCommand::Register
    } else if is_word(word, "filelist") {
        ClientCommand::FileList
    } else if is_word(word, "addfile") {
        ClientCommand::AddFile
    } else if is_word(word, "getfile") {
        ClientCommand::GetFile
    } else if is_word(word, "validaterecord") {
        ClientCommand::ValidateRecord
    } else {
        ClientCommand::Unknown
    }
}

/// The user name and the password of a line `user:password`: the pieces
/// before the first colon and between it and the next one.  `None` when the
/// line has no colon.
pub fn split_credentials(line: &[u8]) -> (r: Option<(Vec<u8>, Vec<u8>)>)
    ensures
        r is Some <==> split_on(line@, 58).len() >= 2,
        r matches Some((user, passwd)) ==> user@ == split_on(line@, 58)[0] && passwd@ == split_on(
            line@,
            58,
        )[1],
{
    let parts = split_bytes(line, 58);
    proof {
        assert(parts@.map_values(|v: Vec<u8>| v@).len() == parts@.len());
    }
    if parts.len() < 2 {
        return None;
    }
    proof {
        assert(parts@.map_values(|v: Vec<u8>| v@)[0] == parts@[0]@);
        assert(parts@.map_values(|v: Vec<u8>| v@)[1] == parts@[1]@);
    }
    Some((vstd::slice::slice_to_vec(parts[0].as_slice()), vstd::slice::slice_to_vec(parts[1].as_slice())))
}

/// The request that logs in (`Login`) or registers (`Register`) the user
/// named `user`: it carries the SHA-512 digest of the name.
pub fn credentials_request(register: bool, user: &[u8]) -> (m: SomeMessage)
    ensures
        m@ == (MessageModel {
            action: if register { 7i32 } else { 4i32 },
            filename: Seq::empty(),
            data: sha512_digest(user@),
        }),
{
    let digest = hash(user);
    let action = if register {
        Action::Register.code()
    } else {
        Action::Login.code()
    };
    SomeMessage { action, filename: String::new(), data: vstd::slice::slice_to_vec(&digest) }
}

/// The request for the list of the user's files.
pub fn file_list_request() -> (m: SomeMessage)
    ensures
        m@ == (MessageModel { action: 3, filename: Seq::empty(), data: Seq::empty() }),
{
    SomeMessage { action: Action::GetFileList.code(), filename: String::new(), data: Vec::new() }
}

/// The request for the file stored under the name `stored_name`.
pub fn get_file_request(stored_name: &str) -> (m: SomeMessage)
    ensures
        m@ == (MessageModel { action: 2, filename: stored_name@, data: Seq::empty() }),
{
    SomeMessage { action: Action::GetFile.code(), filename: stored_name.to_owned(), data: Vec::new() }
}

/// The request that stores the file `name` with contents `plaintext`,
/// given the nonce and salt for its contents and the salt for its name:
/// the sealed name and the sealed contents under `AddFile`.
pub fn add_file_request_with(
    passwd: &[u8],
    name: &str,
    plaintext: &[u8],
    nonce: &[u8],
    salt: &[u8],
    name_salt: &[u8],
) -> (r: Result<SomeMessage, VaultError>)
    requires
        nonce@.len() == 24,
        salt@.len() == 32,
        name_salt@.len() == 32,
    ensures
        r matches Ok(m) ==> m@ == (MessageModel {
            action: 1,
            filename: sealed_name(passwd@, name@, name_salt@),
            data: sealed_file(passwd@, plaintext@, nonce@, salt@),
        }),
        r matches Ok(m) ==> opened_file(passwd@, m@.data) == Ok::<Seq<u8>, VaultError>(plaintext@)
            && opened_name(passwd@, encode_utf8(m@.filename)) == Ok::<Seq<char>, VaultError>(name@),
        r matches Err(e) ==> e == VaultError::KeyDerivation,
        r is Err ==> key_derivation_may_fail(passwd@, salt@) || key_derivation_may_fail(passwd@, name_salt@),
        !key_derivation_may_fail(passwd@, salt@) && !key_derivation_may_fail(passwd@, name_salt@) ==> r is Ok,
{
    let data = seal_file(passwd, plaintext, nonce, salt)?;
    let filename = seal_name(passwd, name, name_salt)?;
    Ok(SomeMessage { action: Action::AddFile.code(), filename, data })
}

/// The request that stores the file `name` with contents `plaintext`,
/// sealed with a fresh nonce and fresh salts.  Whatever they are, the
/// request opens with the same password to the same name and contents.
pub fn add_file_request(passwd: &[u8], name: &str, plaintext: &[u8]) -> (r: Result<SomeMessage, VaultError>)
    ensures
        r matches Ok(m) ==> m@.action == 1 && opened_file(passwd@, m@.data) == Ok::<Seq<u8>, VaultError>(
            plaintext@,
        ) && opened_name(passwd@, encode_utf8(m@.filename)) == Ok::<Seq<char>, VaultError>(name@),
        r matches Err(e) ==> e == VaultError::KeyDerivation,
        r is Err ==> exists|salt: Seq<u8>| salt.len() == 32 && #[trigger] key_derivation_may_fail(passwd@, salt),
{
    let nonce = fresh_nonce();
    let salt = fresh_salt();
    let name_salt = fresh_salt();
    add_file_request_with(passwd, name, plaintext, nonce.as_slice(), salt.as_slice(), name_salt.as_slice())
}

/// Whether the server's reply reports an error: its action is `Error`.
pub fn reply_failed(reply: &SomeMessage) -> (b: bool)
    ensures
        b == (reply@.action == 6),
{
    reply.action == Action::Error.code()
}

/// The name and the contents of the file a reply to `GetFile` carries,
/// opened with `passwd`: the name first, then the contents; the first
/// failure is the error.
pub fn open_file_reply(passwd: &[u8], reply: &SomeMessage) -> (r: Result<(String, Vec<u8>), VaultError>)
    ensures
        r == Err::<(String, Vec<u8>), VaultError>(VaultError::NotHex) <==> hex_decode(
            encode_utf8(reply.filename@),
        ) is None,
        (hex_decode(encode_utf8(reply.filename@)) matches Some(b) && b.len() < 32) ==> r == Err::<
            (String, Vec<u8>),
            VaultError,
        >(VaultError::TooShort),
        r matches Ok((name, contents)) ==> opened_name(passwd@, encode_utf8(reply.filename@))
            == Ok::<Seq<char>, VaultError>(name@) && opened_file(passwd@, reply.data@) == Ok::<
            Seq<u8>,
            VaultError,
        >(contents@),
        r matches Err(e) ==> e == VaultError::KeyDerivation || opened_name(
            passwd@,
            encode_utf8(reply.filename@),
        ) == Err::<Seq<char>, VaultError>(e) || (opened_name(passwd@, encode_utf8(reply.filename@)) is Ok
            && opened_file(passwd@, reply.data@) == Err::<Seq<u8>, VaultError>(e)),
        r == Err::<(String, Vec<u8>), VaultError>(VaultError::KeyDerivation) ==> (hex_decode(
            encode_utf8(reply.filename@),
        ) matches Some(b) && b.len() >= 32 && key_derivation_may_fail(passwd@, b.take(32))) || (reply.data@.len()
            >= 56 && key_derivation_may_fail(passwd@, reply.data@.subrange(24, 56))),
{
    let name = open_name(passwd, reply.filename.as_str().as_bytes())?;
    let contents = open_file(passwd, reply.data.as_slice())?;
    Ok((name, contents))
}

/// The names the entries of a listing open to with `passwd`, each with the
/// entry itself, in order: entries that are not hexadecimal are passed
/// over, and any other failure to open one is the error.
pub open spec fn listed_names(passwd: Seq<u8>, entries: Seq<Seq<u8>>) -> Result<Seq<(Seq<char>, Seq<u8>)>, VaultError>
    decreases entries.len(),
{
    if entries.len() == 0 {
        Ok(Seq::empty())
    } else {
        match listed_names(passwd, entries.drop_last()) {
            Err(e) => Err(e),
            Ok(prev) => match opened_name(passwd, entries.last()) {
                Ok(n) => Ok(prev.push((n, entries.last()))),
                Err(VaultError::NotHex) => Ok(prev),
                Err(e) => Err(e),
            },
        }
    }
}

proof fn lemma_listed_names_error_stays(passwd: Seq<u8>, entries: Seq<Seq<u8>>, k: int, e: VaultError)
    requires
        0 <= k <= entries.len(),
        listed_names(passwd, entries.take(k)) == Err::<Seq<(Seq<char>, Seq<u8>)>, VaultError>(e),
    ensures
        listed_names(passwd, entries) == Err::<Seq<(Seq<char>, Seq<u8>)>, VaultError>(e),
    decreases entries.len(),
{
    if k == entries.len() {
        assert(entries.take(k) =~= entries);
    } else {
        assert(entries.drop_last().take(k) =~= entries.take(k));
        lemma_listed_names_error_stays(passwd, entries.drop_last(), k, e);
    }
}

/// The names in the listing a reply to `GetFileList` carries (its entries
/// between commas), opened with `passwd`, each with its entry.
pub fn open_listing(passwd: &[u8], listing: &[u8]) -> (r: Result<Vec<(String, Vec<u8>)>, VaultError>)
    ensures
        r matches Ok(v) ==> listed_names(passwd@, split_on(listing@, 44)) == Ok::<
            Seq<(Seq<char>, Seq<u8>)>,
            VaultError,
        >(v@.map_values(|p: (String, Vec<u8>)| (p.0@, p.1@))),
        r matches Err(e) ==> e == VaultError::KeyDerivation || listed_names(
            passwd@,
            split_on(listing@, 44),
        ) == Err::<Seq<(Seq<char>, Seq<u8>)>, VaultError>(e),
        r == Err::<Vec<(String, Vec<u8>)>, VaultError>(VaultError::KeyDerivation) ==> exists|i: int|
            0 <= i < split_on(listing@, 44).len() && (#[trigger] hex_decode(split_on(listing@, 44)[i]) matches Some(
                b,
            ) && b.len() >= 32 && key_derivation_may_fail(passwd@, b.take(32))),
        (forall|i: int|
            0 <= i < split_on(listing@, 44).len() ==> !(#[trigger] hex_decode(split_on(listing@, 44)[i]) matches Some(
                b,
            ) && b.len() >= 32 && key_derivation_may_fail(passwd@, b.take(32)))) ==> match listed_names(
            passwd@,
            split_on(listing@, 44),
        ) {
            Ok(v) => r matches Ok(w) && w@.map_values(|p: (String, Vec<u8>)| (p.0@, p.1@)) == v,
            Err(e) => r == Err::<Vec<(String, Vec<u8>)>, VaultError>(e),
        },
{
    let parts = split_listing(listing);
    let ghost entries = split_on(listing@, 44);
    let mut out: Vec<(String, Vec<u8>)> = Vec::new();
    let mut i: usize = 0;
    assert(entries.take(0) =~= Seq::<Seq<u8>>::empty());
    assert(out@.map_values(|p: (String, Vec<u8>)| (p.0@, p.1@)) =~= Seq::<(Seq<char>, Seq<u8>)>::empty());
    while i < parts.len()
        invariant
            0 <= i <= parts@.len(),
            parts@.map_values(|v: Vec<u8>| v@) == entries,
            entries == split_on(listing@, 44),
            listed_names(passwd@, entries.take(i as int)) == Ok::<Seq<(Seq<char>, Seq<u8>)>, VaultError>(
                out@.map_values(|p: (String, Vec<u8>)| (p.0@, p.1@)),
            ),
        decreases parts@.len() - i,
    {
        let entry = parts[i].as_slice();
        let ghost before = out@.map_values(|p: (String, Vec<u8>)| (p.0@, p.1@));
        proof {
            assert(entries[i as int] == entry@);
            assert(entries.take(i + 1).drop_last() =~= entries.take(i as int));
            assert(entries.take(i + 1).last() == entry@);
        }
        match open_name(passwd, entry) {
            Ok(name) => {
                out.push((name, vstd::slice::slice_to_vec(entry)));
                assert(out@.map_values(|p: (String, Vec<u8>)| (p.0@, p.1@)) =~= before.push(
                    (name@, entry@),
                ));
            },
            Err(VaultError::NotHex) => {},
            Err(e) => {
                proof {
                    if e != VaultError::KeyDerivation {
                        lemma_listed_names_error_stays(passwd@, entries, i + 1, e);
                    } else {
                        assert(hex_decode(entries[i as int]) matches Some(b) && b.len() >= 32
                            && key_derivation_may_fail(passwd@, b.take(32)));
                    }
                }
                return Err(e);
            },
        }
        i = i + 1;
    }
    assert(entries.take(parts@.len() as int) =~= entries);
    Ok(out)
}

/// A file the client adds, which the server saves for a logged-in user and
/// later loads for the same user by its stored name, with nothing else
/// written in between, opens again with the same password to the same name
/// and contents.
pub proof fn law_added_file_comes_back(
    passwd: Seq<u8>,
    name: Seq<char>,
    plaintext: Seq<u8>,
    userid: Seq<char>,
    add: MessageModel,
    disk: Map<Seq<char>, Seq<u8>>,
)
    requires
        userid.len() != 0,
        add.action == 1,
        opened_file(passwd, add.data) == Ok::<Seq<u8>, VaultError>(plaintext),
        opened_name(passwd, encode_utf8(add.filename)) == Ok::<Seq<char>, VaultError>(name),
    ensures
        ({
            let get = MessageModel { action: 2, filename: add.filename, data: Seq::empty() };
            let reply = load_reply(task_for(userid, get), get, disk_after(task_for(userid, add), add, disk));
            &&& reply is Some
            &&& opened_name(passwd, encode_utf8(reply.unwrap().filename)) == Ok::<Seq<char>, VaultError>(name)
            &&& opened_file(passwd, reply.unwrap().data) == Ok::<Seq<u8>, VaultError>(plaintext)
        }),
{
    let get = MessageModel { action: 2, filename: add.filename, data: Seq::empty() };
    law_save_then_load(userid, add, get, disk);
}

} // verus!
