//! What each request comes to, and what becomes of a terminal and of a client.
use super::stream::{drained, heard_text};
use super::{
    find_client, find_leftover, find_session, ClientModel, Drained, LaunchModel, LeftoverModel,
    OutcomeModel, Registry, RegistryModel, SessionModel,
};
use crate::activity::TableModel;
use crate::grid::model::VtAction;
use crate::proto::{EventModel, RequestModel, Role, SessionId};
use vstd::prelude::*;
use vstd::utf8::encode_utf8;

verus! {

// ---- finding --------------------------------------------------------------------

/// A terminal is found by its id: at the first place that has it, and nowhere
/// where no place has it.
pub proof fn law_terminals_are_found_by_id(sessions: Seq<SessionModel>, id: SessionId, i: int)
    requires
        0 <= i <= sessions.len(),
    ensures
        find_session(sessions, id, i) matches Some(k) ==> i <= k < sessions.len()
            && sessions[k].id == id && forall|j: int|
            i <= j < k ==> (#[trigger] sessions[j]).id != id,
        find_session(sessions, id, i) is None ==> forall|j: int|
            i <= j < sessions.len() ==> (#[trigger] sessions[j]).id != id,
    decreases sessions.len() - i,
{
    if i < sessions.len() {
        law_terminals_are_found_by_id(sessions, id, i + 1);
    }
}

/// A client is found by its token, in the same way.
pub proof fn law_clients_are_found_by_token(clients: Seq<ClientModel>, token: Seq<char>, i: int)
    requires
        0 <= i <= clients.len(),
    ensures
        find_client(clients, token, i) matches Some(k) ==> i <= k < clients.len()
            && clients[k].token == token && forall|j: int|
            i <= j < k ==> (#[trigger] clients[j]).token != token,
        find_client(clients, token, i) is None ==> forall|j: int|
            i <= j < clients.len() ==> (#[trigger] clients[j]).token != token,
    decreases clients.len() - i,
{
    if i < clients.len() {
        law_clients_are_found_by_token(clients, token, i + 1);
    }
}

/// Some terminal has that id.
pub open spec fn exists_terminal(r: RegistryModel, id: SessionId) -> bool {
    exists|k: int| 0 <= k < r.sessions.len() && (#[trigger] r.sessions[k]).id == id
}

proof fn lemma_found_at(r: RegistryModel, k: int)
    requires
        r.wf(),
        0 <= k < r.sessions.len(),
    ensures
        find_session(r.sessions, r.sessions[k].id, 0) == Some(k),
{
    let id = r.sessions[k].id;
    law_terminals_are_found_by_id(r.sessions, id, 0);
    match find_session(r.sessions, id, 0) {
        Some(j) => {
            if j < k {
                assert(r.sessions[j].id < r.sessions[k].id);
            } else if k < j {
                assert(r.sessions[k].id < r.sessions[j].id);
            }
        },
        None => {},
    }
}

proof fn lemma_client_at(r: RegistryModel, k: int)
    requires
        r.wf(),
        0 <= k < r.clients.len(),
    ensures
        find_client(r.clients, r.clients[k].token, 0) == Some(k),
{
    let token = r.clients[k].token;
    law_clients_are_found_by_token(r.clients, token, 0);
    match find_client(r.clients, token, 0) {
        Some(j) => {
            if j < k {
                assert(r.clients[j].token != r.clients[k].token);
            } else if k < j {
                assert(r.clients[k].token != r.clients[j].token);
            }
        },
        None => {},
    }
}

// ---- requests -------------------------------------------------------------------

/// A terminal is started as it was asked for: the shell that was named, in the
/// directory that was named, at that size, with that text in its backlog. Only
/// where no shell was named, or an empty one, the system's own is started, and
/// `powershell.exe` where the system names none. Asking changes nothing yet.
pub proof fn law_a_terminal_is_started_as_asked(
    r: RegistryModel,
    token: Seq<char>,
    shell: Option<Seq<char>>,
    cwd: Option<Seq<char>>,
    cols: u16,
    rows: u16,
    replay: Option<Seq<char>>,
    comspec: Option<Seq<char>>,
    now: u64,
)
    ensures
        ({
            let (after, out) = r.handled(
                token,
                RequestModel::Create { shell, cwd, cols, rows, replay },
                comspec,
                now,
            );
            &&& after == r
            &&& out matches OutcomeModel::Launch(l) && {
                &&& l.cols == cols && l.rows == rows
                &&& shell matches Some(s) ==> (s.len() > 0 ==> l.shell == s)
                &&& (shell is None || shell.unwrap().len() == 0) ==> (comspec matches Some(c)
                    ==> l.shell == c)
                &&& (shell is None || shell.unwrap().len() == 0) && comspec is None ==> l.shell
                    == "powershell.exe"@
                &&& cwd matches Some(d) ==> (d.len() > 0 ==> l.cwd == Some(d))
                &&& (cwd is None || cwd.unwrap().len() == 0) ==> l.cwd is None
                &&& replay matches Some(t) ==> (t.len() > 0 ==> l.replay == Some(t))
                &&& (replay is None || replay.unwrap().len() == 0) ==> l.replay is None
            }
        }),
{
}

/// What is typed reaches the shell it is meant for, as it is; for a terminal that
/// has ended, or that does not exist, it goes nowhere. Typing changes nothing
/// here.
pub proof fn law_input_reaches_its_shell(
    r: RegistryModel,
    token: Seq<char>,
    id: SessionId,
    data: Seq<char>,
    comspec: Option<Seq<char>>,
    now: u64,
    k: int,
)
    requires
        r.wf(),
    ensures
        ({
            let (after, out) = r.handled(token, RequestModel::Input { id, data }, comspec, now);
            &&& after == r
            &&& 0 <= k < r.sessions.len() && r.sessions[k].id == id && r.sessions[k].alive ==> out
                == (OutcomeModel::Write { id, data })
            &&& 0 <= k < r.sessions.len() && r.sessions[k].id == id && !r.sessions[k].alive ==> out
                is Nothing
            &&& !exists_terminal(r, id) ==> out is Nothing
        }),
{
    law_terminals_are_found_by_id(r.sessions, id, 0);
    if 0 <= k < r.sessions.len() && r.sessions[k].id == id {
        lemma_found_at(r, k);
    }
}

/// A resize reaches the terminal it is meant for and no other: its screen gets
/// that size, at least one by one, and so does its pty. What it printed, its
/// name and all else stay, and the repaint that follows does not count as work.
pub proof fn law_a_resize_reaches_its_terminal(
    r: RegistryModel,
    token: Seq<char>,
    id: SessionId,
    cols: u16,
    rows: u16,
    comspec: Option<Seq<char>>,
    now: u64,
    k: int,
)
    requires
        r.wf(),
        now <= u64::MAX - 350,
    ensures
        ({
            let (after, out) = r.handled(
                token,
                RequestModel::Resize { id, cols, rows },
                comspec,
                now,
            );
            let w = if cols == 0 { 1u16 } else { cols };
            let h = if rows == 0 { 1u16 } else { rows };
            &&& after.clients == r.clients && after.sessions.len() == r.sessions.len()
            &&& !exists_terminal(r, id) ==> after == r && out is Nothing
            &&& 0 <= k < r.sessions.len() && r.sessions[k].id != id ==> after.sessions[k]
                == r.sessions[k]
            &&& 0 <= k < r.sessions.len() && r.sessions[k].id == id ==> {
                let s = after.sessions[k];
                &&& out == (OutcomeModel::Resize { id, cols: w, rows: h })
                &&& s.cols == cols && s.rows == rows
                &&& s.grid.cols == w && s.grid.rows == h
                &&& s.backlog == r.sessions[k].backlog && s.name == r.sessions[k].name
                &&& s.alive == r.sessions[k].alive && s.pid == r.sessions[k].pid
                &&& s.last_output == r.sessions[k].last_output
                &&& s.quiet_until == now + 350
                &&& s.shell == r.sessions[k].shell && s.title == r.sessions[k].title
            }
        }),
{
    law_terminals_are_found_by_id(r.sessions, id, 0);
    if 0 <= k < r.sessions.len() && r.sessions[k].id == id {
        lemma_found_at(r, k);
    }
}

/// A new name is given to the terminal it is meant for and to no other, nothing
/// else of it changes, and everybody is told.
pub proof fn law_a_rename_names_its_terminal(
    r: RegistryModel,
    token: Seq<char>,
    id: SessionId,
    name: Option<Seq<char>>,
    comspec: Option<Seq<char>>,
    now: u64,
    k: int,
)
    requires
        r.wf(),
    ensures
        ({
            let (after, out) = r.handled(token, RequestModel::Rename { id, name }, comspec, now);
            &&& out is ListAll
            &&& after == (RegistryModel { sessions: after.sessions, ..r })
            &&& after.sessions.len() == r.sessions.len()
            &&& 0 <= k < r.sessions.len() && r.sessions[k].id == id ==> after.sessions[k] == (
            SessionModel { name, ..r.sessions[k] })
            &&& 0 <= k < r.sessions.len() && r.sessions[k].id != id ==> after.sessions[k]
                == r.sessions[k]
        }),
{
    law_terminals_are_found_by_id(r.sessions, id, 0);
    if 0 <= k < r.sessions.len() && r.sessions[k].id == id {
        lemma_found_at(r, k);
    }
    assert(r.handled(token, RequestModel::Rename { id, name }, comspec, now).0 =~= (RegistryModel {
        sessions: r.handled(token, RequestModel::Rename { id, name }, comspec, now).0.sessions,
        ..r
    }));
}

/// A close takes away the terminal it is meant for, has its child killed, and
/// leaves every other as it was, in the order they were in.
pub proof fn law_a_close_takes_its_terminal(
    r: RegistryModel,
    token: Seq<char>,
    id: SessionId,
    comspec: Option<Seq<char>>,
    now: u64,
    k: int,
    j: int,
)
    requires
        r.wf(),
        0 <= j < r.sessions.len(),
    ensures
        ({
            let (after, out) = r.handled(token, RequestModel::Close { id }, comspec, now);
            &&& !exists_terminal(r, id) ==> after.sessions == r.sessions && out == (
            OutcomeModel::Forgotten { kill: None })
            &&& 0 <= k < r.sessions.len() && r.sessions[k].id == id ==> {
                &&& out == (OutcomeModel::Forgotten { kill: Some(id) })
                &&& !exists_terminal(after, id)
                &&& after.sessions.len() == r.sessions.len() - 1
                &&& j < k ==> after.sessions[j] == r.sessions[j]
                &&& j > k ==> after.sessions[j - 1] == r.sessions[j]
            }
            &&& after.clients.len() == r.clients.len()
            &&& forall|c: int|
                0 <= c < r.clients.len() ==> (#[trigger] after.clients[c]).token
                    == r.clients[c].token && after.clients[c].claimed == r.clients[c].claimed
        }),
{
    law_terminals_are_found_by_id(r.sessions, id, 0);
    let after = r.forgotten(id, now);
    if 0 <= k < r.sessions.len() && r.sessions[k].id == id {
        lemma_found_at(r, k);
        assert(r.handled(token, RequestModel::Close { id }, comspec, now).0 == after);
        assert(after.sessions == r.sessions.remove(k));
        assert forall|m: int| 0 <= m < after.sessions.len() implies (#[trigger] after.sessions[m]).id
            != id by {
            if m < k {
                assert(r.sessions[m].id < r.sessions[k].id);
            } else {
                assert(r.sessions[k].id < r.sessions[m + 1].id);
            }
        }
    }
}

/// Asking for the list, and saying hello, change nothing; the one that asks gets
/// the list.
pub proof fn law_looking_changes_nothing(
    r: RegistryModel,
    token: Seq<char>,
    role: Role,
    other: Seq<char>,
    comspec: Option<Seq<char>>,
    now: u64,
)
    ensures
        r.handled(token, RequestModel::List, comspec, now) == (r, OutcomeModel::List),
        r.handled(token, RequestModel::Hello { role, token: other }, comspec, now) == (
            r,
            OutcomeModel::Nothing,
        ),
{
}

/// An attach to a terminal that exists gives what it printed after the chunk
/// named, under the number of its last chunk, and makes the asker watch it; no
/// other client is touched. One to a terminal that does not exist gives an error
/// that names it.
pub proof fn law_an_attach_gives_the_history(
    r: RegistryModel,
    token: Seq<char>,
    id: SessionId,
    from: u64,
    comspec: Option<Seq<char>>,
    now: u64,
    k: int,
    c: int,
)
    requires
        r.wf(),
        0 <= c < r.clients.len(),
    ensures
        ({
            let (after, out) = r.handled(token, RequestModel::Attach { id, from }, comspec, now);
            &&& after.sessions == r.sessions && after.clients.len() == r.clients.len()
            &&& after.next_session == r.next_session && after.empty_since == r.empty_since
            &&& 0 <= k < r.sessions.len() && r.sessions[k].id == id ==> {
                &&& out == OutcomeModel::Send(
                    EventModel::Replay {
                        id,
                        data: r.sessions[k].backlog.since(from),
                        seq: r.sessions[k].backlog.last_seq,
                    },
                )
                &&& r.clients[c].token == token ==> after.clients[c].attached.contains(id)
                &&& r.clients[c].token == token ==> forall|x: SessionId|
                    x != id ==> (#[trigger] after.clients[c].attached.contains(x)
                        <==> r.clients[c].attached.contains(x))
            }
            &&& !exists_terminal(r, id) ==> after == r && out == OutcomeModel::Send(
                EventModel::Error { message: "no terminal "@ + crate::text::decimal(id as nat) },
            )
            &&& r.clients[c].token != token ==> after.clients[c] == r.clients[c]
        }),
{
    law_terminals_are_found_by_id(r.sessions, id, 0);
    law_clients_are_found_by_token(r.clients, token, 0);
    if 0 <= k < r.sessions.len() && r.sessions[k].id == id {
        lemma_found_at(r, k);
    }
    if r.clients[c].token == token {
        lemma_client_at(r, c);
        let old = r.clients[c].attached;
        let new = old.push(id);
        assert(new[old.len() as int] == id);
        assert forall|x: SessionId| x != id implies (new.contains(x) <==> old.contains(x)) by {
            if old.contains(x) {
                let i = choose|i: int| 0 <= i < old.len() && old[i] == x;
                assert(new[i] == x);
            }
            if new.contains(x) {
                let i = choose|i: int| 0 <= i < new.len() && new[i] == x;
                assert(old[i] == x);
            }
        }
    }
}

// ---- terminals ------------------------------------------------------------------

/// A terminal that was started is the last of the list, under a new number, alive
/// and without a name, with the shell, size and child that it was started with
/// and a blank screen; the others stay as they are, in front of it. What it is
/// given to show comes first in its backlog.
pub proof fn law_a_started_terminal_is_listed(
    r: RegistryModel,
    token: Seq<char>,
    l: LaunchModel,
    pid: Option<u32>,
    now: u64,
)
    requires
        r.wf(),
        r.next_session < SessionId::MAX,
        now <= u64::MAX - 350,
    ensures
        ({
            let after = r.registered(token, l, pid, now);
            let s = after.sessions.last();
            let w: int = if l.cols == 0 { 1 } else { l.cols as int };
            let h: int = if l.rows == 0 { 1 } else { l.rows as int };
            &&& after.sessions.drop_last() == r.sessions
            &&& s.id == r.next_session + 1 && after.next_session == s.id
            &&& s.alive && s.name is None && s.pid == pid
            &&& s.shell == l.shell && s.cols == l.cols && s.rows == l.rows
            &&& crate::windows_path::file_stem(l.shell) matches Some(stem) ==> s.title == stem
            &&& crate::windows_path::file_stem(l.shell) is None ==> s.title == l.shell
            &&& s.grid.cols == w && s.grid.rows == h
            &&& forall|y: int, x: int|
                0 <= y < h && 0 <= x < w ==> (#[trigger] s.grid.screen.rows[y][x]).ch == ' '
            &&& s.last_output == now && s.quiet_until == now + 350
            &&& after.empty_since is None
            &&& l.replay is None ==> s.backlog.since(0).len() == 0 && s.backlog.last_seq == 0
            &&& l.replay matches Some(text) ==> s.backlog.last_seq == 1
            &&& l.replay matches Some(text) ==> (encode_utf8(text).len() <= 4194304
                ==> s.backlog.since(0) == text)
        }),
{
    let after = r.registered(token, l, pid, now);
    assert(after.sessions.drop_last() =~= r.sessions);
    let empty = super::backlog::BacklogModel::empty(4194304);
    assert(empty.wf());
    match l.replay {
        Some(text) => {
            if encode_utf8(text).len() <= 4194304 {
                super::backlog::law_a_client_gets_what_it_missed(empty, text);
            }
        },
        None => {},
    }
}

/// What a terminal prints is added to its backlog under the next number. It
/// counts as work, unless it came within the grace period of a repaint; nothing
/// else of the terminal changes.
pub proof fn law_printing_is_remembered(s: SessionModel, text: Seq<char>, now: u64)
    requires
        s.backlog.wf(),
        s.backlog.last_seq < u64::MAX,
        encode_utf8(text).len() <= s.backlog.limit,
    ensures
        ({
            let after = s.heard(text, now);
            &&& after.backlog.last_seq == s.backlog.last_seq + 1
            &&& after.backlog.since(s.backlog.last_seq) == text
            &&& now >= s.quiet_until ==> after.last_output == now
            &&& now < s.quiet_until ==> after.last_output == s.last_output
            &&& after == (SessionModel {
                backlog: after.backlog,
                last_output: after.last_output,
                ..s
            })
        }),
{
    super::backlog::law_a_client_gets_what_it_missed(s.backlog, text);
}

/// A terminal is busy while a command runs under it that printed a moment ago,
/// and not because of a repaint: a quiet command, a shell at its prompt and a
/// dead one are not busy.
pub proof fn law_busy_means_a_command_at_work(
    s: SessionModel,
    table: TableModel,
    cwd: Option<Seq<char>>,
    now: u64,
)
    ensures
        ({
            let said = s.info(table, cwd, now);
            let recent = now < s.last_output + 700 && now >= s.quiet_until;
            let runs = s.pid matches Some(pid) && exists|k: int|
                0 <= k < table.rows.len() && #[trigger] table.started_by(k, pid);
            &&& said.busy <==> s.alive && runs && recent
            &&& said.id == s.id && said.title == s.title && said.shell == s.shell
            &&& said.name == s.name && said.cwd == cwd
            &&& said.cols == s.cols && said.rows == s.rows
            &&& said.alive == s.alive && said.seq == s.backlog.last_seq
        }),
{
    match s.pid {
        Some(pid) => crate::activity::law_running_means_a_child(table, pid, s.working(now)),
        None => {},
    }
}

/// The end of a child marks its terminal and no other, and changes nothing else:
/// what it printed can still be read.
pub proof fn law_an_end_marks_its_terminal(r: RegistryModel, id: SessionId, k: int)
    requires
        r.wf(),
        0 <= k < r.sessions.len(),
    ensures
        ({
            let after = r.exited(id);
            &&& after == (RegistryModel { sessions: after.sessions, ..r })
            &&& after.sessions.len() == r.sessions.len()
            &&& r.sessions[k].id == id ==> after.sessions[k] == (SessionModel {
                alive: false,
                ..r.sessions[k]
            })
            &&& r.sessions[k].id != id ==> after.sessions[k] == r.sessions[k]
        }),
{
    law_terminals_are_found_by_id(r.sessions, id, 0);
    if r.sessions[k].id == id {
        lemma_found_at(r, k);
    }
    assert(r.exited(id) =~= (RegistryModel { sessions: r.exited(id).sessions, ..r }));
}

/// A read reaches one terminal: the answers that its screen owes are handed out,
/// the complete text goes to its backlog and to those who watch under the same
/// number, and every other terminal, and every client, stays as it was.
pub proof fn law_a_read_reaches_one_terminal(
    r: Registry,
    k: int,
    found: Seq<VtAction>,
    carry: Seq<u8>,
    read: Seq<u8>,
    now: u64,
    after: Registry,
    kept: Seq<u8>,
    got: Drained,
    j: int,
)
    requires
        r@.wf(),
        0 <= k < r@.sessions.len(),
        0 <= j < r@.sessions.len(),
        r@.sessions[k].backlog.last_seq < u64::MAX,
        r@.sessions[k].grid.takes(found),
        encode_utf8(heard_text(carry, read)).len() <= r@.sessions[k].backlog.limit,
        r.digests(r@.sessions[k].id, found, carry, read, now, after, kept, got),
    ensures
        ({
            let s = r@.sessions[k];
            let text = heard_text(carry, read);
            let end = s.grid.after(found, found.len() as int);
            &&& after@.sessions.len() == r@.sessions.len() && after@.clients == r@.clients
            &&& j != k ==> after@.sessions[j] == r@.sessions[j]
            &&& got matches Drained::Read { reply, event } && reply@ == end.reply && (event is Some
                <==> text.len() > 0)
            &&& after@.sessions[k].grid.screen == end.screen
            &&& after@.sessions[k].grid.reply.len() == 0
            &&& text.len() > 0 ==> {
                &&& after@.sessions[k].backlog.since(s.backlog.last_seq) == text
                &&& got matches Drained::Read { reply, event: Some(e) } && (e@
                    matches EventModel::Output { id, seq, data } && id == s.id && data == text
                    && seq == after@.sessions[k].backlog.last_seq)
            }
            &&& text.len() == 0 ==> after@.sessions[k].backlog == s.backlog
            &&& kept == drained(carry, read).1
        }),
{
    let s = r@.sessions[k];
    lemma_found_at(r@, k);
    crate::grid::laws::law_feeding_keeps_the_shape(s.grid, found);
    super::backlog::law_a_client_gets_what_it_missed(s.backlog, heard_text(carry, read));
}

// ---- clients --------------------------------------------------------------------

/// A client that says hello is known from then on, with nothing watched, and the
/// daemon has a reason to stay; one that is known already loses nothing, and
/// nobody else changes.
pub proof fn law_a_client_is_known_once(r: RegistryModel, token: Seq<char>, k: int)
    requires
        0 <= k < r.clients.len(),
    ensures
        ({
            let after = r.ensured(token);
            &&& after.sessions == r.sessions && after.next_session == r.next_session
            &&& after.empty_since is None
            &&& after.clients[k] == r.clients[k]
            &&& find_client(r.clients, token, 0) is Some ==> after.clients == r.clients
            &&& find_client(r.clients, token, 0) is None ==> {
                &&& after.clients.len() == r.clients.len() + 1
                &&& after.clients.last() == (ClientModel {
                    token,
                    claimed: false,
                    attached: Seq::empty(),
                })
            }
        }),
{
}

/// A client that leaves is forgotten, and no other client is.
pub proof fn law_a_client_leaves_alone(r: RegistryModel, k: int, now: u64, j: int)
    requires
        r.wf(),
        0 <= k < r.clients.len(),
        0 <= j < r.clients.len(),
    ensures
        ({
            let after = r.dropped(r.clients[k].token, now);
            &&& after.clients.len() == r.clients.len() - 1
            &&& j < k ==> after.clients[j] == r.clients[j]
            &&& j > k ==> after.clients[j - 1] == r.clients[j]
        }),
{
    lemma_client_at(r, k);
}

/// Once the last client has left and no child runs, the daemon may leave after
/// its time, and not before; while a child runs it stays.
pub proof fn law_the_daemon_waits_before_it_leaves(
    r: RegistryModel,
    token: Seq<char>,
    now: u64,
    later: u64,
)
    requires
        r.wf(),
        r.clients.len() == 1,
        r.clients[0].token == token,
    ensures
        ({
            let after = r.dropped(token, now);
            let dead = forall|i: int| 0 <= i < r.sessions.len() ==> !(#[trigger] r.sessions[i]).alive;
            &&& dead ==> (after.may_exit(later) <==> later > now + 120000)
            &&& !dead && r.empty_since is None ==> !after.may_exit(later)
        }),
{
    lemma_client_at(r, 0);
}

/// The last terminal that is closed while nobody is connected starts the wait
/// too; a terminal that is started ends it.
pub proof fn law_closing_the_last_starts_the_wait(
    r: RegistryModel,
    now: u64,
    later: u64,
    token: Seq<char>,
    l: LaunchModel,
    pid: Option<u32>,
)
    requires
        r.wf(),
        r.sessions.len() == 1,
        r.clients.len() == 0,
    ensures
        r.forgotten(r.sessions[0].id, now).may_exit(later) <==> later > now + 120000,
        !r.registered(token, l, pid, now).may_exit(later),
{
    lemma_found_at(r, 0);
}

/// Everybody who watches is told once, in the order they came.
pub proof fn law_watchers_are_told_once(r: RegistryModel, id: SessionId, n: int)
    requires
        r.wf(),
        0 <= n <= r.clients.len(),
    ensures
        r.watchers(id, n).no_duplicates(),
        r.watchers(id, n).len() <= n,
        forall|i: int|
            0 <= i < r.watchers(id, n).len() ==> exists|k: int|
                0 <= k < n && (#[trigger] r.clients[k]).token == (#[trigger] r.watchers(id, n)[i]),
    decreases n,
{
    if n > 0 {
        law_watchers_are_told_once(r, id, n - 1);
        let before = r.watchers(id, n - 1);
        let all = r.watchers(id, n);
        assert forall|i: int| 0 <= i < before.len() implies before[i] != r.clients[n - 1].token by {
            let k = choose|k: int| 0 <= k < n - 1 && (#[trigger] r.clients[k]).token == before[i];
            assert(r.clients[k].token != r.clients[n - 1].token);
        }
        assert forall|i: int| 0 <= i < all.len() implies exists|k: int|
            0 <= k < n && (#[trigger] r.clients[k]).token == (#[trigger] all[i]) by {
            if i < before.len() {
                let k = choose|k: int| 0 <= k < n - 1 && (#[trigger] r.clients[k]).token == before[i];
                assert(r.clients[k].token == all[i]);
            } else {
                assert(r.clients[n - 1].token == all[i]);
            }
        }
    }
}

// ---- terminals that were closed -------------------------------------------------

/// The child of a terminal that was closed is still answered: what its screen owes
/// is handed out, no text reaches anybody, and no terminal and no client changes.
/// Once there is text that nobody is there for, the screen is given up.
pub proof fn law_a_closed_terminal_is_still_answered(
    r: Registry,
    id: SessionId,
    k: int,
    found: Seq<VtAction>,
    carry: Seq<u8>,
    read: Seq<u8>,
    now: u64,
    after: Registry,
    kept: Seq<u8>,
    got: Drained,
)
    requires
        r@.wf(),
        forall|i: int| 0 <= i < r@.sessions.len() ==> (#[trigger] r@.sessions[i]).id != id,
        0 <= k < r@.leftovers.len(),
        r@.leftovers[k].id == id,
        forall|i: int| 0 <= i < k ==> (#[trigger] r@.leftovers[i]).id != id,
        r@.leftovers[k].grid.takes(found),
        r.digests(id, found, carry, read, now, after, kept, got),
    ensures
        ({
            let end = r@.leftovers[k].grid.after(found, found.len() as int);
            let text = heard_text(carry, read);
            &&& after@.sessions == r@.sessions && after@.clients == r@.clients
            &&& text.len() == 0 ==> (got matches Drained::Read { reply, event } && reply@
                == end.reply && event is None) && after@.leftovers.len() == r@.leftovers.len()
                && after@.leftovers[k].grid.screen == end.screen
                && after@.leftovers[k].grid.reply.len() == 0
            &&& text.len() > 0 ==> (got matches Drained::Gone { reply } && reply@ == end.reply)
                && after@.leftovers == r@.leftovers.remove(k)
        }),
{
    law_terminals_are_found_by_id(r@.sessions, id, 0);
    lemma_leftover_at(r@.leftovers, id, 0, k);
}

/// The output of a child that nothing is known of changes nothing.
pub proof fn law_unknown_children_are_ignored(
    r: Registry,
    id: SessionId,
    found: Seq<VtAction>,
    carry: Seq<u8>,
    read: Seq<u8>,
    now: u64,
    after: Registry,
    kept: Seq<u8>,
    got: Drained,
)
    requires
        forall|i: int| 0 <= i < r@.sessions.len() ==> (#[trigger] r@.sessions[i]).id != id,
        forall|i: int| 0 <= i < r@.leftovers.len() ==> (#[trigger] r@.leftovers[i]).id != id,
        r.digests(id, found, carry, read, now, after, kept, got),
    ensures
        after@ == r@,
        got matches Drained::Gone { reply } && reply@.len() == 0,
{
    law_terminals_are_found_by_id(r@.sessions, id, 0);
    lemma_no_leftover(r@.leftovers, id, 0);
}

proof fn lemma_leftover_at(v: Seq<LeftoverModel>, id: SessionId, i: int, k: int)
    requires
        0 <= i <= k < v.len(),
        v[k].id == id,
        forall|j: int| i <= j < k ==> (#[trigger] v[j]).id != id,
    ensures
        find_leftover(v, id, i) == Some(k),
    decreases k - i,
{
    if i < k {
        lemma_leftover_at(v, id, i + 1, k);
    }
}

proof fn lemma_no_leftover(v: Seq<LeftoverModel>, id: SessionId, i: int)
    requires
        0 <= i <= v.len(),
        forall|j: int| 0 <= j < v.len() ==> (#[trigger] v[j]).id != id,
    ensures
        find_leftover(v, id, i) is None,
    decreases v.len() - i,
{
    if i < v.len() {
        lemma_no_leftover(v, id, i + 1);
    }
}

/// A terminal that is closed leaves its screen behind, as it was, for what its
/// child may still ask; nothing else is left behind.
pub proof fn law_a_close_puts_the_screen_by(r: RegistryModel, k: int, now: u64)
    requires
        r.wf(),
        0 <= k < r.sessions.len(),
    ensures
        ({
            let after = r.forgotten(r.sessions[k].id, now);
            &&& after.leftovers.len() == r.leftovers.len() + 1
            &&& after.leftovers.drop_last() == r.leftovers
            &&& after.leftovers.last().id == r.sessions[k].id
            &&& after.leftovers.last().grid == r.sessions[k].grid
        }),
{
    lemma_found_at(r, k);
    let after = r.forgotten(r.sessions[k].id, now);
    assert(after.leftovers.drop_last() =~= r.leftovers);
}

/// One connection gets the events of a client: the claim that it makes is its
/// client's alone, and a second one is turned away.
pub proof fn law_a_claim_is_the_clients_own(r: RegistryModel, k: int, j: int)
    requires
        r.wf(),
        0 <= k < r.clients.len(),
        0 <= j < r.clients.len(),
    ensures
        ({
            let token = r.clients[k].token;
            let after = r.claimed(token);
            &&& r.can_claim(token) <==> !r.clients[k].claimed
            &&& after.clients.len() == r.clients.len()
            &&& after.clients[k].claimed && after.clients[k].token == token
            &&& after.clients[k].attached == r.clients[k].attached
            &&& j != k ==> after.clients[j] == r.clients[j]
            &&& after.sessions == r.sessions
            &&& !after.can_claim(token)
        }),
{
    let token = r.clients[k].token;
    lemma_client_at(r, k);
    lemma_client_at(r.claimed(token), k);
}

/// Whoever has a terminal started watches it from the start, besides what they
/// watched before; nobody else's watching changes.
pub proof fn law_the_starter_watches_too(
    r: RegistryModel,
    k: int,
    l: LaunchModel,
    pid: Option<u32>,
    now: u64,
    j: int,
)
    requires
        r.wf(),
        r.next_session < SessionId::MAX,
        0 <= k < r.clients.len(),
        0 <= j < r.clients.len(),
    ensures
        ({
            let after = r.registered(r.clients[k].token, l, pid, now);
            &&& after.clients.len() == r.clients.len()
            &&& after.clients[k].attached == r.clients[k].attached.push(after.sessions.last().id)
            &&& after.clients[k].token == r.clients[k].token
            &&& after.clients[k].claimed == r.clients[k].claimed
            &&& j != k ==> after.clients[j] == r.clients[j]
            &&& after.leftovers == r.leftovers
        }),
{
    lemma_client_at(r, k);
}

/// An attach adds to what a client watches, once: what it watched before it goes
/// on watching, and nobody else's watching changes.
pub proof fn law_an_attach_adds_to_the_watching(r: RegistryModel, k: int, id: SessionId, j: int)
    requires
        r.wf(),
        0 <= k < r.clients.len(),
        0 <= j < r.clients.len(),
    ensures
        ({
            let after = r.watched(r.clients[k].token, id);
            let had = r.clients[k].attached;
            &&& after.clients.len() == r.clients.len()
            &&& had.contains(id) ==> after == r
            &&& !had.contains(id) ==> after.clients[k].attached == had.push(id)
            &&& after.clients[k].claimed == r.clients[k].claimed
            &&& after.clients[k].token == r.clients[k].token
            &&& j != k ==> after.clients[j] == r.clients[j]
            &&& after.sessions == r.sessions && after.empty_since == r.empty_since
        }),
{
    lemma_client_at(r, k);
}

// ---- what the models show -------------------------------------------------------

/// The model of a session shows all that is held of it.
pub proof fn law_a_session_shows_all(s: super::Session)
    ensures
        s@.id == s.id && s@.title == s.title@ && s@.shell == s.shell@,
        s@.cols == s.cols && s@.rows == s.rows && s@.alive == s.alive && s@.pid == s.pid,
        s@.backlog == s.backlog@ && s@.grid == s.grid@,
        s@.last_output == s.last_output && s@.quiet_until == s.quiet_until,
        s.name matches Some(x) ==> s@.name == Some(x@),
        s.name is None ==> s@.name is None,
{
}

/// The model of a launch shows all that is to be started.
pub proof fn law_a_launch_shows_all(l: super::Launch)
    ensures
        l@.shell == l.shell@ && l@.cols == l.cols && l@.rows == l.rows,
        l.cwd matches Some(x) ==> l@.cwd == Some(x@),
        l.cwd is None ==> l@.cwd is None,
        l.replay matches Some(x) ==> l@.replay == Some(x@),
        l.replay is None ==> l@.replay is None,
{
}

/// The model of the registry shows every session, client and leftover, in order.
pub proof fn law_the_registry_shows_all(r: Registry, i: int)
    ensures
        r@.next_session == r.next_session && r@.empty_since == r.empty_since,
        r@.sessions.len() == r.sessions@.len() && r@.clients.len() == r.clients@.len(),
        r@.leftovers.len() == r.leftovers@.len(),
        0 <= i < r.sessions@.len() ==> r@.sessions[i] == r.sessions@[i]@,
        0 <= i < r.clients@.len() ==> r@.clients[i].token == r.clients@[i].token@
            && r@.clients[i].claimed == r.clients@[i].claimed && r@.clients[i].attached
            == r.clients@[i].attached@,
        0 <= i < r.leftovers@.len() ==> r@.leftovers[i].id == r.leftovers@[i].id
            && r@.leftovers[i].grid == r.leftovers@[i].grid@,
{
}

/// The model of an outcome shows all that is to be done.
pub proof fn law_an_outcome_shows_all(o: super::Outcome)
    ensures
        o matches super::Outcome::Send(e) ==> o@ == OutcomeModel::Send(e@),
        o matches super::Outcome::Forgotten { kill } ==> o@ == (OutcomeModel::Forgotten { kill }),
        o matches super::Outcome::Launch(l) ==> o@ == OutcomeModel::Launch(l@),
        o matches super::Outcome::Write { id, data } ==> o@ == (OutcomeModel::Write {
            id,
            data: data@,
        }),
        o matches super::Outcome::Resize { id, cols, rows } ==> o@ == (OutcomeModel::Resize {
            id,
            cols,
            rows,
        }),
        o is Nothing <==> o@ is Nothing,
        o is List <==> o@ is List,
        o is ListAll <==> o@ is ListAll,
{
}

} // verus!
