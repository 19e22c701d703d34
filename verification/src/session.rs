//! What the server decides for one client connection: who is logged in,
//! where their files live, and what each request asks the server to do.

use vstd::prelude::*;
use vstd::utf8::encode_utf8;
use crate::protobuf_msg::{encode_message, fits, Action, MessageModel, SomeMessage};
use crate::text::{decimal, hex_str, push_decimal, to_hex_str};

verus! {

/// An error of the server: a message of its own, or the text of an I/O
/// error met while serving the request.
#[derive(Debug)]
pub enum ServerError {
    Text(String),
    Io(String),
}

impl ServerError {
    /// The error's message.
    pub open spec fn text(&self) -> Seq<char> {
        match self {
            ServerError::Text(t) => t@,
            ServerError::Io(t) => t@,
        }
    }

    /// The error with message `t`.
    pub fn from_text(t: &str) -> (e: ServerError)
        ensures
            e is Text,
            e.text() == t@,
    {
        ServerError::Text(t.to_owned())
    }

    /// The error shown in parentheses: `(<message>)`.
    pub fn describe(&self) -> (s: String)
        ensures
            s@ == "("@ + self.text() + ")"@,
    {
        let mut s = String::new();
        s.append("(");
        match self {
            ServerError::Text(t) => s.append(t.as_str()),
            ServerError::Io(t) => s.append(t.as_str()),
        }
        s.append(")");
        s
    }
}

/// The names in a list of strings.
pub open spec fn names(list: Seq<String>) -> Seq<Seq<char>> {
    list.map_values(|s: String| s@)
}

/// The names joined with `, ` between them.
pub open spec fn join_names(list: Seq<Seq<char>>) -> Seq<char>
    decreases list.len(),
{
    if list.len() == 0 {
        Seq::empty()
    } else if list.len() == 1 {
        list[0]
    } else {
        join_names(list.drop_last()) + ", "@ + list.last()
    }
}

/// The directory of a user's files: `./user/<id>/`.
pub open spec fn user_dir(id: Seq<char>) -> Seq<char> {
    "./user/"@ + id + "/"@
}

/// The server's side of a connection: the user logged in on it, empty
/// while nobody is.
pub struct UserConnection {
    userid: String,
}

/// A registration the server may carry out: the directory to create for
/// the new user and the user's id.
pub struct Registration {
    pub path: String,
    pub userid: String,
}

/// What the server has to do for a request.
pub enum Command {
    /// Look up the users (the directories under `./user`) and log in.
    Login,
    /// Send back the file at this path.
    LoadFile { path: String },
    /// Store the request's data at this path.
    SaveFile { path: String },
    /// Send back the list of entries of this directory.
    ListFiles { path: String },
    /// Send this reply, then fail with this error.
    Refuse { reply: SomeMessage, error: ServerError },
    /// Fail with this error.
    Fail(ServerError),
}

/// What a request asks of the server, in terms of paths, replies and
/// error texts.
pub enum Task {
    Login,
    Load(Seq<char>),
    Save(Seq<char>),
    List(Seq<char>),
    Refuse(MessageModel, Seq<char>),
    Fail(Seq<char>),
}

impl Command {
    /// What the command asks of the server.
    pub open spec fn task(&self) -> Task {
        match self {
            Command::Login => Task::Login,
            Command::LoadFile { path } => Task::Load(path@),
            Command::SaveFile { path } => Task::Save(path@),
            Command::ListFiles { path } => Task::List(path@),
            Command::Refuse { reply, error } => Task::Refuse(reply@, error.text()),
            Command::Fail(e) => Task::Fail(e.text()),
        }
    }
}

/// What the request `msg` asks of the server while `userid` is logged in
/// (empty while nobody is), by its action: a login; for a file, loading it
/// from or saving it to the user's directory under its name; the list of
/// that directory; for any other action or number, the reply `could not
/// parse action` and the error `Could not parse action: `.  The file and
/// list requests fail with `not logged in` while nobody is.
pub open spec fn task_for(userid: Seq<char>, msg: MessageModel) -> Task {
    match Action::spec_from_i32(msg.action) {
        Some(Action::Login) => Task::Login,
        Some(Action::GetFile) => if userid.len() != 0 {
            Task::Load(user_dir(userid) + msg.filename)
        } else {
            Task::Fail("not logged in"@)
        },
        Some(Action::AddFile) => if userid.len() != 0 {
            Task::Save(user_dir(userid) + msg.filename)
        } else {
            Task::Fail("not logged in"@)
        },
        Some(Action::GetFileList) => if userid.len() != 0 {
            Task::List(user_dir(userid))
        } else {
            Task::Fail("not logged in"@)
        },
        _ => Task::Refuse(error_reply_model(), "Could not parse action: "@),
    }
}

/// The files on the server's disk after the task of the request `msg` is
/// carried out: a save writes the request's data at its path; no other task
/// writes.
pub open spec fn disk_after(task: Task, msg: MessageModel, disk: Map<Seq<char>, Seq<u8>>) -> Map<Seq<char>, Seq<u8>> {
    match task {
        Task::Save(p) => disk.insert(p, msg.data),
        _ => disk,
    }
}

/// The reply a load sends when the disk holds `disk` (`load_file_reply` on
/// the file read): the request's name and the file at its path; `None`
/// for a task that is no load, or a path with no file.
pub open spec fn load_reply(task: Task, msg: MessageModel, disk: Map<Seq<char>, Seq<u8>>) -> Option<MessageModel> {
    match task {
        Task::Load(p) => if disk.contains_key(p) {
            Some(MessageModel { action: 2, filename: msg.filename, data: disk[p] })
        } else {
            None
        },
        _ => None,
    }
}

/// A file saved by a logged-in user and then loaded by the same user under
/// the same name, with nothing else written in between, comes back as it
/// was saved: in a reply of action 2 with its name and the saved data.
pub proof fn law_save_then_load(
    userid: Seq<char>,
    save: MessageModel,
    load: MessageModel,
    disk: Map<Seq<char>, Seq<u8>>,
)
    requires
        userid.len() != 0,
        save.action == 1,
        load.action == 2,
        load.filename == save.filename,
    ensures
        load_reply(task_for(userid, load), load, disk_after(task_for(userid, save), save, disk))
            == Some(MessageModel { action: 2, filename: save.filename, data: save.data }),
{
}

/// The files on the server's disk after the request `msg` of the user
/// `userid` is saved, as the server's `save_file` saves it: the request's
/// data written at the path `file_path` gives, whatever the action.
pub open spec fn disk_after_save(userid: Seq<char>, msg: MessageModel, disk: Map<Seq<char>, Seq<u8>>) -> Map<Seq<char>, Seq<u8>> {
    disk.insert(user_dir(userid) + msg.filename, msg.data)
}

/// The reply the server's `load_file` sends for the request `msg` of the
/// user `userid` when the disk holds `disk`: the file at the path
/// `file_path` gives, under the request's name (`load_file_reply`), whatever
/// the action; `None` when there is no file there.
pub open spec fn file_loaded(userid: Seq<char>, msg: MessageModel, disk: Map<Seq<char>, Seq<u8>>) -> Option<MessageModel> {
    let p = user_dir(userid) + msg.filename;
    if disk.contains_key(p) {
        Some(MessageModel { action: 2, filename: msg.filename, data: disk[p] })
    } else {
        None
    }
}

/// A file the logged-in user saves and then loads under the same name,
/// with nothing else written in between, comes back as it was saved: the
/// reply has action 2, the name and the saved data, and the bytes `send`
/// writes for it are the encoding of that message.  The user logged in does
/// not change: neither step changes the connection.
pub proof fn law_save_file_then_load_file(
    userid: Seq<char>,
    save: MessageModel,
    load: MessageModel,
    disk: Map<Seq<char>, Seq<u8>>,
)
    requires
        userid.len() != 0,
        load.filename == save.filename,
    ensures
        file_loaded(userid, load, disk_after_save(userid, save, disk)) == Some(
            MessageModel { action: 2, filename: save.filename, data: save.data },
        ),
        encode_message(file_loaded(userid, load, disk_after_save(userid, save, disk)).unwrap())
            == encode_message(MessageModel { action: 2, filename: save.filename, data: save.data }),
{
}

/// What a login request with the hash `data` leads to, given the known
/// users and the user logged in before: the user then logged in, or the
/// error text.  A hash shorter than 128 bytes names a user in hexadecimal;
/// a longer one changes nothing.
pub open spec fn login_outcome(data: Seq<u8>, users: Seq<Seq<char>>, current: Seq<char>) -> Result<Seq<char>, Seq<char>> {
    if data.len() >= 128 {
        Ok(current)
    } else if users.contains(hex_str(data)) {
        Ok(hex_str(data))
    } else {
        Err("could not locate user"@)
    }
}

/// What a registration request with the hash `data` leads to, given the
/// known users: the id of the user to create (whose directory is
/// `./user/<id>`), nothing for a hash of 128 bytes or more, or the error
/// text when the user is known.
pub open spec fn registration_outcome(data: Seq<u8>, users: Seq<Seq<char>>) -> Result<Option<Seq<char>>, Seq<char>> {
    if data.len() >= 128 {
        Ok(None)
    } else if !users.contains(hex_str(data)) {
        Ok(Some(hex_str(data)))
    } else {
        Err("user already exists"@)
    }
}

/// A login request asks for a login whoever is logged in on the
/// connection, nobody included: what it asks does not depend on the
/// connection's user, and it is never refused for want of a login.
pub proof fn law_login_request_is_always_served(userid: Seq<char>, other: Seq<char>, msg: MessageModel)
    requires
        msg.action == 4,
    ensures
        task_for(userid, msg) == Task::Login,
        task_for(userid, msg) == task_for(other, msg),
{
}

/// While nobody is logged in, every request for a file or for the list of
/// files fails with `not logged in`; once somebody is, a request to load or
/// to save a file names the same path for the same name, inside the user's
/// directory, and a list request names that directory.
pub proof fn law_file_requests(userid: Seq<char>, msg: MessageModel, other: MessageModel)
    requires
        1 <= msg.action <= 3,
    ensures
        userid.len() == 0 ==> task_for(userid, msg) == Task::Fail("not logged in"@),
        userid.len() != 0 && msg.action == 2 ==> task_for(userid, msg) == Task::Load(user_dir(userid) + msg.filename),
        userid.len() != 0 && msg.action == 1 ==> task_for(userid, msg) == Task::Save(user_dir(userid) + msg.filename),
        userid.len() != 0 && msg.action == 3 ==> task_for(userid, msg) == Task::List(user_dir(userid)),
        userid.len() != 0 && msg.action == 1 && other.action == 2 && other.filename == msg.filename ==> (
        task_for(userid, msg) matches Task::Save(p) && (task_for(userid, other) matches Task::Load(q) && p == q)),
{
}

/// A login with a hash shorter than 128 bytes ends the same whoever was
/// logged in before, nobody included: it logs in the user the hash names in
/// hexadecimal when that user is known, and otherwise fails with `could not
/// locate user`.  A longer hash leaves the user logged in as it was.
pub proof fn law_login_outcome(data: Seq<u8>, users: Seq<Seq<char>>, current: Seq<char>, other: Seq<char>)
    ensures
        data.len() < 128 ==> login_outcome(data, users, current) == login_outcome(data, users, other),
        data.len() < 128 ==> (login_outcome(data, users, current) is Ok <==> users.contains(hex_str(data))),
        data.len() < 128 && !users.contains(hex_str(data)) ==> login_outcome(data, users, current) == Err::<
            Seq<char>,
            Seq<char>,
        >("could not locate user"@),
        data.len() < 128 && users.contains(hex_str(data)) ==> login_outcome(data, users, current) == Ok::<
            Seq<char>,
            Seq<char>,
        >(hex_str(data)),
        data.len() >= 128 ==> login_outcome(data, users, current) == Ok::<Seq<char>, Seq<char>>(current),
{
}

/// A user registered with a hash, once its directory is among the known
/// users, logs in with the same hash, whoever was logged in before, under
/// the id the registration created: the hash in hexadecimal.
pub proof fn law_register_then_login(
    data: Seq<u8>,
    before: Seq<Seq<char>>,
    after: Seq<Seq<char>>,
    current: Seq<char>,
    id: Seq<char>,
)
    requires
        registration_outcome(data, before) == Ok::<Option<Seq<char>>, Seq<char>>(Some(id)),
        after.contains(id),
    ensures
        id == hex_str(data),
        login_outcome(data, after, current) == Ok::<Seq<char>, Seq<char>>(id),
{
}

impl UserConnection {
    /// The user logged in on the connection.
    pub closed spec fn spec_userid(&self) -> Seq<char> {
        self.userid@
    }

    /// A connection on which nobody is logged in.
    pub fn new() -> (c: UserConnection)
        ensures
            c.spec_userid().len() == 0,
    {
        UserConnection { userid: String::new() }
    }

    /// The user logged in on the connection.
    pub fn userid(&self) -> (id: &str)
        ensures
            id@ == self.spec_userid(),
    {
        self.userid.as_str()
    }

    /// `Ok` when somebody is logged in; else the error `not logged in`.
    pub fn logged_in(&self) -> (r: Result<(), ServerError>)
        ensures
            r is Ok <==> self.spec_userid().len() != 0,
            r matches Err(e) ==> e is Text && e.text() == "not logged in"@,
    {
        if !self.userid.as_str().is_empty() {
            Ok(())
        } else {
            Err(ServerError::from_text("not logged in"))
        }
    }

    /// The directory of the logged-in user's files, `./user/<id>/`.
    pub fn user_path(&self) -> (r: Result<String, ServerError>)
        ensures
            r is Ok <==> self.spec_userid().len() != 0,
            r matches Ok(p) ==> p@ == user_dir(self.spec_userid()),
            r matches Err(e) ==> e is Text && e.text() == "not logged in"@,
    {
        self.logged_in()?;
        let mut path = String::new();
        path.append("./user/");
        path.append(self.userid.as_str());
        path.append("/");
        Ok(path)
    }

    /// Whether the request's file name may be used; every name is accepted.
    pub fn is_valid_file_name(&self, _msg: &SomeMessage) -> (r: Result<(), ServerError>)
        ensures
            r is Ok,
    {
        Ok(())
    }

    /// The path of the request's file: the user's directory, then the name.
    pub fn file_path(&self, msg: &SomeMessage) -> (r: Result<String, ServerError>)
        ensures
            r is Ok <==> self.spec_userid().len() != 0,
            r matches Ok(p) ==> p@ == user_dir(self.spec_userid()) + msg.filename@,
            r matches Err(e) ==> e is Text && e.text() == "not logged in"@,
    {
        self.is_valid_file_name(msg)?;
        let mut path = self.user_path()?;
        path.append(msg.filename.as_str());
        Ok(path)
    }

    /// Logs in the user whose hash the request carries, given the known
    /// users.  A hash shorter than 128 bytes is written in hexadecimal
    /// (`to_hex_str`); if a known user has that name, it is logged in, else
    /// the error is `could not locate user`.  A longer hash changes nothing
    /// and the known users are not consulted.
    pub fn login(&mut self, msg: &SomeMessage, user_list: &Vec<String>) -> (r: Result<(), ServerError>)
        ensures
            match login_outcome(msg.data@, names(user_list@), old(self).spec_userid()) {
                Ok(id) => r is Ok && final(self).spec_userid() == id,
                Err(t) => r matches Err(e) && e is Text && e.text() == t && final(self).spec_userid()
                    == old(self).spec_userid(),
            },
    {
        if msg.data.len() < 128 {
            let user_id = to_hex_str(msg.data.as_slice());
            if contains(user_list, &user_id) {
                self.userid = user_id;
            } else {
                return Err(ServerError::from_text("could not locate user"));
            }
        }
        Ok(())
    }

    /// Prepares the registration of the user whose hash the request
    /// carries, given the known users.  A hash shorter than 128 bytes names
    /// the user in hexadecimal; if no known user has that name the
    /// registration is to create `./user/<id>`, else the error is
    /// `user already exists`.  A longer hash asks for nothing.
    pub fn register_new_user(&self, msg: &SomeMessage, user_list: &Vec<String>) -> (r: Result<Option<Registration>, ServerError>)
        ensures
            match registration_outcome(msg.data@, names(user_list@)) {
                Ok(None) => r == Ok::<Option<Registration>, ServerError>(None),
                Ok(Some(id)) => r matches Ok(Some(reg)) && reg.userid@ == id && reg.path@ == "./user/"@ + id,
                Err(t) => r matches Err(e) && e is Text && e.text() == t,
            },
    {
        if msg.data.len() < 128 {
            let user_id = to_hex_str(msg.data.as_slice());
            if !contains(user_list, &user_id) {
                let mut path = String::new();
                path.append("./user/");
                path.append(user_id.as_str());
                return Ok(Some(Registration { path, userid: user_id }));
            } else {
                return Err(ServerError::from_text("user already exists"));
            }
        }
        Ok(None)
    }

    /// Logs in the user of a registration whose directory was created.
    pub fn complete_registration(&mut self, reg: Registration)
        ensures
            final(self).spec_userid() == reg.userid@,
    {
        self.userid = reg.userid;
    }

    /// What the server has to do for the request `msg`: the task
    /// `task_for` gives for the user logged in, its errors the server's own.
    pub fn handle_message(&self, msg: &SomeMessage) -> (c: Command)
        ensures
            c.task() == task_for(self.spec_userid(), msg@),
            c matches Command::Fail(e) ==> e is Text,
            c matches Command::Refuse { error, .. } ==> error is Text,
    {
        match Action::from_i32(msg.action) {
            Some(Action::Login) => Command::Login,
            Some(Action::GetFile) => match self.file_path(msg) {
                Ok(path) => Command::LoadFile { path },
                Err(e) => Command::Fail(e),
            },
            Some(Action::AddFile) => match self.file_path(msg) {
                Ok(path) => Command::SaveFile { path },
                Err(e) => Command::Fail(e),
            },
            Some(Action::GetFileList) => match self.user_path() {
                Ok(path) => Command::ListFiles { path },
                Err(e) => Command::Fail(e),
            },
            _ => Command::Refuse {
                reply: error_reply(),
                error: ServerError::from_text("Could not parse action: "),
            },
        }
    }

    /// The bytes to write to the client for the reply `msg`: its protobuf
    /// encoding, or the error `encoding failed` when it cannot be written.
    pub fn send(&self, msg: &SomeMessage) -> (r: Result<Vec<u8>, ServerError>)
        requires
            fits(msg@),
        ensures
            r is Ok <==> encode_message(msg@).len() <= isize::MAX,
            r matches Ok(b) ==> b@ == encode_message(msg@),
            r matches Err(e) ==> e is Text && e.text() == "encoding failed"@,
    {
        let mut buf: Vec<u8> = Vec::new();
        if msg.encode(&mut buf).is_err() {
            return Err(ServerError::from_text("encoding failed"));
        }
        Ok(buf)
    }
}

/// Whether `id` is one of the strings of `list`.
fn contains(list: &Vec<String>, id: &String) -> (b: bool)
    ensures
        b == names(list@).contains(id@),
{
    let mut i: usize = 0;
    while i < list.len()
        invariant
            0 <= i <= list@.len(),
            forall|j: int| 0 <= j < i ==> list@[j]@ != id@,
        decreases list@.len() - i,
    {
        if list[i] == *id {
            assert(names(list@)[i as int] == id@);
            return true;
        }
        i = i + 1;
    }
    assert forall|j: int| 0 <= j < names(list@).len() implies names(list@)[j] != id@ by {
        assert(names(list@)[j] == list@[j]@);
    }
    false
}

/// The reply to a request the server does not understand.
pub open spec fn error_reply_model() -> MessageModel {
    MessageModel { action: 6, filename: Seq::empty(), data: encode_utf8("could not parse action"@) }
}

fn error_reply() -> (m: SomeMessage)
    ensures
        m@ == error_reply_model(),
{
    SomeMessage {
        action: Action::Error.code(),
        filename: String::new(),
        data: vstd::slice::slice_to_vec("could not parse action".as_bytes()),
    }
}

/// The reply carrying a file: the request's name and the file's bytes.
pub fn load_file_reply(msg: &SomeMessage, data: Vec<u8>) -> (m: SomeMessage)
    ensures
        m@ == (MessageModel { action: 2, filename: msg.filename@, data: data@ }),
{
    SomeMessage { action: Action::GetFile.code(), filename: msg.filename.clone(), data }
}

/// The reply listing the user's entries: their names joined with `, `, in
/// UTF-8.
pub fn file_list_reply(file_list: &Vec<String>) -> (m: SomeMessage)
    ensures
        m@ == (MessageModel {
            action: 3,
            filename: Seq::empty(),
            data: encode_utf8(join_names(names(file_list@))),
        }),
{
    let mut return_str = String::new();
    let mut iter_num: usize = 0;
    while iter_num < file_list.len()
        invariant
            0 <= iter_num <= file_list@.len(),
            return_str@ == join_names(names(file_list@).take(iter_num as int)),
        decreases file_list@.len() - iter_num,
    {
        let ghost before = names(file_list@).take(iter_num as int);
        if iter_num != 0 {
            return_str.append(", ");
        }
        return_str.append(file_list[iter_num].as_str());
        let ghost after = names(file_list@).take(iter_num + 1);
        assert(after.drop_last() =~= before);
        assert(after.last() == file_list@[iter_num as int]@);
        if iter_num == 0 {
            assert(return_str@ =~= join_names(after));
        }
        iter_num = iter_num + 1;
    }
    assert(names(file_list@).take(file_list@.len() as int) =~= names(file_list@));
    SomeMessage {
        action: Action::GetFileList.code(),
        filename: String::new(),
        data: vstd::slice::slice_to_vec(return_str.as_str().as_bytes()),
    }
}

/// The address a server binds to: `<host>:<port>`.
pub fn bind_address(host: &str, port: u16) -> (s: String)
    ensures
        s@ == host@ + ":"@ + decimal(port as nat),
{
    let mut s = String::new();
    s.append(host);
    s.append(":");
    push_decimal(&mut s, port as u64);
    s
}

} // verus!
