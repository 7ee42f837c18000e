//! What a front end and the daemon say to each other.
//!
//! One object per line, both directions. Terminal output crosses as text: a
//! read of the pty may end in the middle of a character, and the side that owns
//! the stream puts it together (see [`crate::daemon::stream`]).
use crate::text::{ascii_alphanumeric, copy_text, to_chars};
use vstd::prelude::*;

verus! {

/// Names a terminal for as long as the daemon is alive. Not reused: a client
/// that comes back with a stale id gets an error, not somebody else's shell.
pub type SessionId = u32;

// ---- the pipe -------------------------------------------------------------------

/// A character that may stand in the name of a pipe, in place of `c`.
pub open spec fn pipe_char(c: char) -> char {
    if ascii_alphanumeric(c) {
        c
    } else {
        '_'
    }
}

/// The part of the name that is the user's own.
pub open spec fn user_part(user: Option<Seq<char>>) -> Seq<char> {
    let name = match user {
        Some(u) => u,
        None => "default"@,
    };
    name.map_values(|c: char| pipe_char(c))
}

/// The user's part of a pipe name. `user` is the account's name, if it has one.
pub fn pipe_user(user: Option<&str>) -> (out: String)
    ensures
        user matches Some(u) ==> out@ == user_part(Some(u@)),
        user is None ==> out@ == user_part(None),
{
    let name = match user {
        Some(u) => copy_text(u),
        None => copy_text("default"),
    };
    let v = to_chars(name.as_str());
    let mut out = String::new();
    let mut i: usize = 0;
    while i < v.len()
        invariant
            i <= v@.len(),
            out@ == v@.take(i as int).map_values(|c: char| pipe_char(c)),
        decreases v@.len() - i,
    {
        let c = v[i];
        let keep = ('a' <= c && c <= 'z') || ('A' <= c && c <= 'Z') || ('0' <= c && c <= '9');
        out.push(
            if keep {
                c
            } else {
                '_'
            },
        );
        i += 1;
        assert(out@ =~= v@.take(i as int).map_values(|c: char| pipe_char(c)));
    }
    assert(v@.take(i as int) =~= v@);
    out
}

/// The pipe that both sides meet on. Per user: a named pipe is machine-wide,
/// and two people on one machine must not land in each other's terminals.
pub fn pipe_name(user: Option<&str>) -> (out: String)
    ensures
        user matches Some(u) ==> out@ == r"\\.\pipe\hmux-"@ + user_part(Some(u@)),
        user is None ==> out@ == r"\\.\pipe\hmux-"@ + user_part(None),
{
    let mut out = copy_text(r"\\.\pipe\hmux-");
    out.push_str(pipe_user(user).as_str());
    out
}

/// The name that a daemon of the time when the project was called `mux` still
/// answers on. A client tries it after the real one.
pub fn legacy_pipe_name(user: Option<&str>) -> (out: String)
    ensures
        user matches Some(u) ==> out@ == r"\\.\pipe\mux-"@ + user_part(Some(u@)),
        user is None ==> out@ == r"\\.\pipe\mux-"@ + user_part(None),
{
    let mut out = copy_text(r"\\.\pipe\mux-");
    out.push_str(pipe_user(user).as_str());
    out
}

/// The user's part makes a legal pipe name, whatever the account is called: it
/// holds no backslash, nor anything else but letters, digits and underscores.
pub proof fn law_pipe_names_are_legal(user: Option<Seq<char>>, i: int)
    requires
        0 <= i < user_part(user).len(),
    ensures
        ascii_alphanumeric(user_part(user)[i]) || user_part(user)[i] == '_',
        user_part(user)[i] != '\\',
{
}

// ---- messages -------------------------------------------------------------------

/// Which way a connection carries. A client opens the pipe twice and uses each
/// end one way only: a blocking read and a write on one file object get in each
/// other's way.
#[derive(Debug, Clone, Copy, PartialEq, Eq, Structural)]
pub enum Role {
    /// The client writes, the daemon reads.
    Requests,
    /// The daemon writes, the client reads.
    Events,
}

/// Asked of the daemon.
#[derive(Debug, Clone)]
pub enum Request {
    /// The first line on every connection: its direction, and the token that
    /// pairs the two halves of a client.
    Hello { role: Role, token: String },
    /// What terminals exist.
    List,
    /// Start a shell. `replay` is text to seed the backlog with.
    Create {
        shell: Option<String>,
        cwd: Option<String>,
        cols: u16,
        rows: u16,
        replay: Option<String>,
    },
    /// Send everything after `from`, and keep sending. Zero means the lot.
    Attach { id: SessionId, from: u64 },
    /// Keystrokes.
    Input { id: SessionId, data: String },
    Resize { id: SessionId, cols: u16, rows: u16 },
    /// Kill the shell and forget the session. A client that goes away leaves
    /// it running.
    Close { id: SessionId },
    /// The name shown in the rail, kept here so that it survives the window.
    Rename { id: SessionId, name: Option<String> },
}

/// One terminal, as the daemon sees it.
#[derive(Debug, Clone)]
pub struct SessionInfo {
    pub id: SessionId,
    /// What the shell is called, from the program name.
    pub title: String,
    pub shell: String,
    /// What the user renamed it to, if anything.
    pub name: Option<String>,
    pub cwd: Option<String>,
    pub cols: u16,
    pub rows: u16,
    pub alive: bool,
    /// Running a command that is producing output.
    pub busy: bool,
    /// The last chunk that the daemon has.
    pub seq: u64,
}

/// Sent by the daemon, in answer to a request or because something happened.
#[derive(Debug, Clone)]
pub enum Event {
    Sessions { sessions: Vec<SessionInfo> },
    Created { id: SessionId },
    /// The backlog from an attach, in one piece.
    Replay { id: SessionId, data: String, seq: u64 },
    Output { id: SessionId, seq: u64, data: String },
    Exit { id: SessionId },
    /// A request that could not be answered.
    Error { message: String },
}

// ---- messages as mathematics ----------------------------------------------------

/// The characters of a text that may be missing.
pub open spec fn opt_text(s: Option<String>) -> Option<Seq<char>> {
    match s {
        Some(t) => Some(t@),
        None => None,
    }
}

#[verifier::ext_equal]
pub enum RequestModel {
    Hello { role: Role, token: Seq<char> },
    List,
    Create {
        shell: Option<Seq<char>>,
        cwd: Option<Seq<char>>,
        cols: u16,
        rows: u16,
        replay: Option<Seq<char>>,
    },
    Attach { id: SessionId, from: u64 },
    Input { id: SessionId, data: Seq<char> },
    Resize { id: SessionId, cols: u16, rows: u16 },
    Close { id: SessionId },
    Rename { id: SessionId, name: Option<Seq<char>> },
}

impl View for Request {
    type V = RequestModel;

    open spec fn view(&self) -> RequestModel {
        match *self {
            Request::Hello { role, token } => RequestModel::Hello { role, token: token@ },
            Request::List => RequestModel::List,
            Request::Create { shell, cwd, cols, rows, replay } => RequestModel::Create {
                shell: opt_text(shell),
                cwd: opt_text(cwd),
                cols,
                rows,
                replay: opt_text(replay),
            },
            Request::Attach { id, from } => RequestModel::Attach { id, from },
            Request::Input { id, data } => RequestModel::Input { id, data: data@ },
            Request::Resize { id, cols, rows } => RequestModel::Resize { id, cols, rows },
            Request::Close { id } => RequestModel::Close { id },
            Request::Rename { id, name } => RequestModel::Rename { id, name: opt_text(name) },
        }
    }
}

#[verifier::ext_equal]
pub struct InfoModel {
    pub id: SessionId,
    pub title: Seq<char>,
    pub shell: Seq<char>,
    pub name: Option<Seq<char>>,
    pub cwd: Option<Seq<char>>,
    pub cols: u16,
    pub rows: u16,
    pub alive: bool,
    pub busy: bool,
    pub seq: u64,
}

impl View for SessionInfo {
    type V = InfoModel;

    open spec fn view(&self) -> InfoModel {
        InfoModel {
            id: self.id,
            title: self.title@,
            shell: self.shell@,
            name: opt_text(self.name),
            cwd: opt_text(self.cwd),
            cols: self.cols,
            rows: self.rows,
            alive: self.alive,
            busy: self.busy,
            seq: self.seq,
        }
    }
}

/// What a list of sessions says.
pub open spec fn infos_of(v: Seq<SessionInfo>) -> Seq<InfoModel> {
    Seq::new(v.len(), |i: int| v[i]@)
}

#[verifier::ext_equal]
pub enum EventModel {
    Sessions { sessions: Seq<InfoModel> },
    Created { id: SessionId },
    Replay { id: SessionId, data: Seq<char>, seq: u64 },
    Output { id: SessionId, seq: u64, data: Seq<char> },
    Exit { id: SessionId },
    Error { message: Seq<char> },
}

impl View for Event {
    type V = EventModel;

    open spec fn view(&self) -> EventModel {
        match *self {
            Event::Sessions { sessions } => EventModel::Sessions { sessions: infos_of(sessions@) },
            Event::Created { id } => EventModel::Created { id },
            Event::Replay { id, data, seq } => EventModel::Replay { id, data: data@, seq },
            Event::Output { id, seq, data } => EventModel::Output { id, seq, data: data@ },
            Event::Exit { id } => EventModel::Exit { id },
            Event::Error { message } => EventModel::Error { message: message@ },
        }
    }
}

/// A copy of a text that may be missing.
pub fn copy_opt(s: &Option<String>) -> (out: Option<String>)
    ensures
        opt_text(out) == opt_text(*s),
{
    match s {
        Some(t) => Some(copy_text(t.as_str())),
        None => None,
    }
}

/// The user's part has a character for each of the account's: letters and digits
/// stay, and anything else becomes an underscore.
pub proof fn law_the_account_shows_in_the_name(user: Seq<char>, i: int)
    requires
        0 <= i < user.len(),
    ensures
        user_part(Some(user)).len() == user.len(),
        'a' <= user[i] <= 'z' || 'A' <= user[i] <= 'Z' || '0' <= user[i] <= '9' ==> user_part(
            Some(user),
        )[i] == user[i],
        !('a' <= user[i] <= 'z' || 'A' <= user[i] <= 'Z' || '0' <= user[i] <= '9') ==> user_part(
            Some(user),
        )[i] == '_',
        user_part(None) == user_part(Some("default"@)),
{
}

/// The model of a session's description shows all that it says.
pub proof fn law_a_description_shows_all(i: SessionInfo)
    ensures
        i@.id == i.id && i@.title == i.title@ && i@.shell == i.shell@,
        i@.cols == i.cols && i@.rows == i.rows && i@.alive == i.alive && i@.busy == i.busy,
        i@.seq == i.seq,
        i.name matches Some(x) ==> i@.name == Some(x@),
        i.name is None ==> i@.name is None,
        i.cwd matches Some(x) ==> i@.cwd == Some(x@),
        i.cwd is None ==> i@.cwd is None,
{
}

/// The model of a request shows all that it asks for.
pub proof fn law_a_request_shows_all(r: Request)
    ensures
        r matches Request::Hello { role, token } ==> r@ == (RequestModel::Hello {
            role,
            token: token@,
        }),
        r matches Request::List ==> r@ is List,
        r matches Request::Create { shell: Some(s), cwd: Some(d), cols, rows, replay: Some(t) }
            ==> r@ == (RequestModel::Create {
            shell: Some(s@),
            cwd: Some(d@),
            cols,
            rows,
            replay: Some(t@),
        }),
        r matches Request::Create { shell: None, cwd: None, cols, rows, replay: None } ==> r@ == (
        RequestModel::Create { shell: None, cwd: None, cols, rows, replay: None }),
        r matches Request::Attach { id, from } ==> r@ == (RequestModel::Attach { id, from }),
        r matches Request::Input { id, data } ==> r@ == (RequestModel::Input { id, data: data@ }),
        r matches Request::Resize { id, cols, rows } ==> r@ == (RequestModel::Resize {
            id,
            cols,
            rows,
        }),
        r matches Request::Close { id } ==> r@ == (RequestModel::Close { id }),
        r matches Request::Rename { id, name: Some(n) } ==> r@ == (RequestModel::Rename {
            id,
            name: Some(n@),
        }),
        r matches Request::Rename { id, name: None } ==> r@ == (RequestModel::Rename {
            id,
            name: None,
        }),
{
}

/// The model of an event shows all that it tells.
pub proof fn law_an_event_shows_all(e: Event, i: int)
    ensures
        e matches Event::Sessions { sessions } ==> (e@ matches EventModel::Sessions {
            sessions: all,
        } && all.len() == sessions@.len() && (0 <= i < all.len() ==> all[i] == sessions@[i]@)),
        e matches Event::Created { id } ==> e@ == (EventModel::Created { id }),
        e matches Event::Replay { id, data, seq } ==> e@ == (EventModel::Replay {
            id,
            data: data@,
            seq,
        }),
        e matches Event::Output { id, seq, data } ==> e@ == (EventModel::Output {
            id,
            seq,
            data: data@,
        }),
        e matches Event::Exit { id } ==> e@ == (EventModel::Exit { id }),
        e matches Event::Error { message } ==> e@ == (EventModel::Error { message: message@ }),
{
}

} // verus!
