//! Serving the pipe: what is accepted, what is refused, and what is said.
use crate::proto::{Event, EventModel, Request, RequestModel, Role, SessionId};
use crate::text::{
    begins_with, copy_text, decimal, finishes_with, push_decimal, trim, trimmed, to_chars,
};
use crate::utf8::byte_len;
use vstd::prelude::*;
use vstd::utf8::encode_utf8;

verus! {

// ---- the instances of the pipe --------------------------------------------------

/// Where the server stands. The first instance claims the name; with the claim
/// lost to another daemon there is nothing to serve.
pub struct Server {
    pub first: bool,
}

/// What to do with an instance that was waited on.
#[derive(Clone, Copy, PartialEq, Eq, Debug, Structural)]
pub enum Accept {
    /// Somebody is at the other end.
    Serve,
    /// Nobody is; close it and open the next.
    Retry,
}

/// Why serving ends.
pub open spec fn refusal(first: bool, name: Seq<char>, err: Seq<char>) -> Seq<char> {
    if first {
        "another hmux daemon already owns "@ + name + ": "@ + err
    } else {
        "could not open "@ + name + ": "@ + err
    }
}

impl Server {
    pub fn new() -> (s: Self)
        ensures
            s.first,
    {
        Server { first: true }
    }

    /// How the next instance is to be opened: both ways, and the first one as
    /// the first or not at all. The two flags are the system's.
    pub fn open_mode(&self, duplex: u32, first_instance: u32) -> (mode: u32)
        ensures
            mode == (if self.first {
                duplex | first_instance
            } else {
                duplex
            }),
    {
        if self.first {
            duplex | first_instance
        } else {
            duplex
        }
    }

    /// An instance was opened, or it was not and this is why.
    pub fn opened(&mut self, name: &str, failure: Option<&str>) -> (res: Result<(), String>)
        ensures
            res is Ok <==> failure is None,
            res is Ok ==> !final(self).first,
            res is Err ==> *final(self) == *old(self),
            failure matches Some(err) ==> (res matches Err(why) && why@ == refusal(
                old(self).first,
                name@,
                err@,
            )),
    {
        match failure {
            None => {
                self.first = false;
                Ok(())
            },
            Some(err) => {
                let mut why = copy_text(
                    if self.first {
                        "another hmux daemon already owns "
                    } else {
                        "could not open "
                    },
                );
                why.push_str(name);
                why.push_str(": ");
                why.push_str(err);
                Err(why)
            },
        }
    }

    /// What came of waiting for the other end. Already connected is a success:
    /// a client can win the race between opening and waiting.
    pub fn waited(&self, connected: i32, code: u32, already_connected: u32) -> (res: Accept)
        ensures
            res == (if connected != 0 || code == already_connected {
                Accept::Serve
            } else {
                Accept::Retry
            }),
    {
        if connected != 0 || code == already_connected {
            Accept::Serve
        } else {
            Accept::Retry
        }
    }
}

// ---- a connection ---------------------------------------------------------------

pub open spec fn role_text(role: Role) -> Seq<char> {
    match role {
        Role::Requests => "Requests"@,
        Role::Events => "Events"@,
    }
}

/// A request in one line, without its payload: what somebody types into their
/// shell never reaches the log.
pub open spec fn summary(req: RequestModel) -> Seq<char> {
    match req {
        RequestModel::Hello { role, token } => "hello "@ + role_text(role) + " "@ + token,
        RequestModel::List => "list"@,
        RequestModel::Create { shell, cwd, cols, rows, replay } => "create "@ + (match shell {
            Some(s) => s,
            None => "default"@,
        }) + " "@ + decimal(cols as nat) + "x"@ + decimal(rows as nat),
        RequestModel::Attach { id, from } => "attach "@ + decimal(id as nat) + " from "@ + decimal(
            from as nat,
        ),
        RequestModel::Input { id, data } => "input "@ + decimal(id as nat) + " ("@ + decimal(
            encode_utf8(data).len(),
        ) + " bytes)"@,
        RequestModel::Resize { id, cols, rows } => "resize "@ + decimal(id as nat) + " "@ + decimal(
            cols as nat,
        ) + "x"@ + decimal(rows as nat),
        RequestModel::Close { id } => "close "@ + decimal(id as nat),
        RequestModel::Rename { id, name } => "rename "@ + decimal(id as nat),
    }
}

/// A request in one line, without its payload.
pub fn summarise(req: &Request) -> (out: String)
    ensures
        out@ == summary(req@),
{
    match req {
        Request::Hello { role, token } => {
            let mut s = copy_text("hello ");
            s.push_str(
                match role {
                    Role::Requests => "Requests",
                    Role::Events => "Events",
                },
            );
            s.push_str(" ");
            s.push_str(token.as_str());
            s
        },
        Request::List => copy_text("list"),
        Request::Create { shell, cwd: _, cols, rows, replay: _ } => {
            let mut s = copy_text("create ");
            match shell {
                Some(name) => s.push_str(name.as_str()),
                None => s.push_str("default"),
            }
            s.push_str(" ");
            push_decimal(&mut s, *cols as u64);
            s.push_str("x");
            push_decimal(&mut s, *rows as u64);
            s
        },
        Request::Attach { id, from } => {
            let mut s = copy_text("attach ");
            push_decimal(&mut s, *id as u64);
            s.push_str(" from ");
            push_decimal(&mut s, *from);
            s
        },
        Request::Input { id, data } => {
            let mut s = copy_text("input ");
            push_decimal(&mut s, *id as u64);
            s.push_str(" (");
            push_decimal(&mut s, byte_len(data.as_str()) as u64);
            s.push_str(" bytes)");
            s
        },
        Request::Resize { id, cols, rows } => {
            let mut s = copy_text("resize ");
            push_decimal(&mut s, *id as u64);
            s.push_str(" ");
            push_decimal(&mut s, *cols as u64);
            s.push_str("x");
            push_decimal(&mut s, *rows as u64);
            s
        },
        Request::Close { id } => {
            let mut s = copy_text("close ");
            push_decimal(&mut s, *id as u64);
            s
        },
        Request::Rename { id, name: _ } => {
            let mut s = copy_text("rename ");
            push_decimal(&mut s, *id as u64);
            s
        },
    }
}

/// The opening line of a connection says which way it runs and for whom.
/// Anything but a hello is refused.
pub fn opening(req: Request) -> (res: Result<(Role, String), String>)
    ensures
        res is Ok <==> req@ is Hello,
        req@ matches RequestModel::Hello { role, token } ==> (res matches Ok((r, t)) && r == role
            && t@ == token),
        res matches Err(why) ==> why@ == "opened with "@ + summary(req@) + " instead of hello"@,
{
    match req {
        Request::Hello { role, token } => Ok((role, token)),
        other => {
            let mut why = copy_text("opened with ");
            why.push_str(summarise(&other).as_str());
            why.push_str(" instead of hello");
            Err(why)
        },
    }
}

/// What is said to a second connection that wants the events of one client.
pub fn second_events(token: &str) -> (why: String)
    ensures
        why@ == token@ + " already has an events connection"@,
{
    let mut why = copy_text(token);
    why.push_str(" already has an events connection");
    why
}

/// Whether a line holds nothing, and is passed over.
pub fn is_blank(line: &str) -> (blank: bool)
    ensures
        blank == (trim(line@).len() == 0),
{
    to_chars(trimmed(line).as_str()).len() == 0
}

/// What is answered to a line that is no request.
pub fn unreadable(err: &str) -> (event: Event)
    ensures
        event@ == (EventModel::Error { message: "could not read a request: "@ + err@ }),
{
    let mut message = copy_text("could not read a request: ");
    message.push_str(err);
    Event::Error { message }
}

/// Why a front end could not reach the daemon.
pub fn no_daemon(name: &str, err: &str) -> (why: String)
    ensures
        why@ == "no daemon on "@ + name@ + ": "@ + err@,
{
    let mut why = copy_text("no daemon on ");
    why.push_str(name);
    why.push_str(": ");
    why.push_str(err);
    why
}

/// The log tells two inputs apart by their size alone: what was typed does not
/// show.
pub proof fn law_the_log_keeps_no_keystrokes(id: SessionId, a: Seq<char>, b: Seq<char>)
    requires
        encode_utf8(a).len() == encode_utf8(b).len(),
    ensures
        summary(RequestModel::Input { id, data: a }) == summary(
            RequestModel::Input { id, data: b },
        ),
{
}

/// The log tells what was asked and of which terminal: every request begins with
/// its own word, and behind it stands whom it is about.
#[verifier::rlimit(40)]
pub proof fn law_the_log_tells_what_was_asked(
    id: SessionId,
    from: u64,
    text: Seq<char>,
    name: Option<Seq<char>>,
    cols: u16,
    rows: u16,
)
    ensures
        summary(RequestModel::List) == "list"@,
        summary(RequestModel::Close { id }) == "close "@ + decimal(id as nat),
        summary(RequestModel::Rename { id, name }) == "rename "@ + decimal(id as nat),
        begins_with(
            summary(RequestModel::Attach { id, from }),
            "attach "@ + decimal(id as nat) + " "@,
        ),
        finishes_with(summary(RequestModel::Attach { id, from }), " "@ + decimal(from as nat)),
        begins_with(
            summary(RequestModel::Input { id, data: text }),
            "input "@ + decimal(id as nat) + " "@,
        ),
        finishes_with(
            summary(RequestModel::Input { id, data: text }),
            "("@ + decimal(encode_utf8(text).len()) + " bytes)"@,
        ),
        begins_with(
            summary(RequestModel::Resize { id, cols, rows }),
            "resize "@ + decimal(id as nat) + " "@,
        ),
        finishes_with(
            summary(RequestModel::Resize { id, cols, rows }),
            decimal(cols as nat) + "x"@ + decimal(rows as nat),
        ),
        begins_with(
            summary(
                RequestModel::Create { shell: Some(text), cwd: name, cols, rows, replay: name },
            ),
            "create "@ + text,
        ),
        begins_with(
            summary(RequestModel::Create { shell: None, cwd: name, cols, rows, replay: name }),
            "create default"@,
        ),
        begins_with(
            summary(RequestModel::Hello { role: Role::Requests, token: text }),
            "hello Requests"@,
        ),
        begins_with(
            summary(RequestModel::Hello { role: Role::Events, token: text }),
            "hello Events"@,
        ),
        finishes_with(summary(RequestModel::Hello { role: Role::Events, token: text }), text),
{
    reveal_strlit("attach ");
    reveal_strlit(" from ");
    reveal_strlit(" ");
    reveal_strlit("input ");
    reveal_strlit(" (");
    reveal_strlit("(");
    reveal_strlit(" bytes)");
    reveal_strlit("resize ");
    reveal_strlit("x");
    reveal_strlit("create ");
    reveal_strlit("default");
    reveal_strlit("create default");
    reveal_strlit("hello ");
    reveal_strlit("Requests");
    reveal_strlit("Events");
    reveal_strlit("hello Requests");
    reveal_strlit("hello Events");
    lemma_begins(
        summary(RequestModel::Attach { id, from }),
        "attach "@ + decimal(id as nat) + " "@,
    );
    lemma_finishes(summary(RequestModel::Attach { id, from }), " "@ + decimal(from as nat));
    lemma_begins(
        summary(RequestModel::Input { id, data: text }),
        "input "@ + decimal(id as nat) + " "@,
    );
    lemma_finishes(
        summary(RequestModel::Input { id, data: text }),
        "("@ + decimal(encode_utf8(text).len()) + " bytes)"@,
    );
    lemma_begins(
        summary(RequestModel::Resize { id, cols, rows }),
        "resize "@ + decimal(id as nat) + " "@,
    );
    lemma_finishes(
        summary(RequestModel::Resize { id, cols, rows }),
        decimal(cols as nat) + "x"@ + decimal(rows as nat),
    );
    lemma_begins(
        summary(RequestModel::Create { shell: Some(text), cwd: name, cols, rows, replay: name }),
        "create "@ + text,
    );
    lemma_begins(
        summary(RequestModel::Create { shell: None, cwd: name, cols, rows, replay: name }),
        "create default"@,
    );
    lemma_begins(
        summary(RequestModel::Hello { role: Role::Requests, token: text }),
        "hello Requests"@,
    );
    lemma_begins(
        summary(RequestModel::Hello { role: Role::Events, token: text }),
        "hello Events"@,
    );
    lemma_finishes(summary(RequestModel::Hello { role: Role::Events, token: text }), text);
}

proof fn lemma_begins(s: Seq<char>, p: Seq<char>)
    requires
        p.len() <= s.len(),
        forall|i: int| 0 <= i < p.len() ==> #[trigger] p[i] == s[i],
    ensures
        begins_with(s, p),
{
    assert(s.take(p.len() as int) =~= p);
}

proof fn lemma_finishes(s: Seq<char>, p: Seq<char>)
    requires
        p.len() <= s.len(),
        forall|i: int| 0 <= i < p.len() ==> #[trigger] p[i] == s[s.len() - p.len() + i],
    ensures
        finishes_with(s, p),
{
    assert(s.skip(s.len() - p.len()) =~= p);
}

/// Where the pipe cannot be opened the reason is passed on, with the name of the
/// pipe; only the first instance blames another daemon.
pub proof fn law_refusals_name_the_pipe(first: bool, name: Seq<char>, err: Seq<char>)
    ensures
        finishes_with(refusal(first, name, err), name + ": "@ + err),
        begins_with(refusal(first, name, err), "another hmux daemon"@) <==> first,
{
    reveal_strlit("another hmux daemon already owns ");
    reveal_strlit("another hmux daemon");
    reveal_strlit("could not open ");
    reveal_strlit(": ");
    let r = refusal(first, name, err);
    let p = name + ": "@ + err;
    assert(r.skip(r.len() - p.len()) =~= p);
    let a = "another hmux daemon"@;
    if first {
        assert(r.take(a.len() as int) =~= a);
    } else {
        assert(r[0] == 'c' && a[0] == 'a');
        if r.len() >= a.len() {
            assert(r.take(a.len() as int)[0] == 'c');
        }
    }
}

} // verus!
