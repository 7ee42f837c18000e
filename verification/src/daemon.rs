//! The process that owns the terminals, so that closing a window does not end
//! them.
//!
//! The shells live here, in a process without a window, and a front end attaches
//! to them: it asks what exists, asks for the backlog, and then gets the live
//! stream. This module is the daemon's state and its rules. Pipes, ptys and
//! clocks belong to the caller, who performs what an [`Outcome`] asks for.
use crate::activity::{ActivityModel, ProcessTable, TableModel};
use crate::grid::model::{at_least_one, GridModel, VtAction};
use crate::grid::Grid;
use crate::mux::label_for;
use crate::pane::{at_least_one_u16, is_working, working};
use crate::proto::{
    copy_opt, infos_of, opt_text, Event, EventModel, InfoModel, Request, RequestModel, SessionId, SessionInfo,
};
use crate::text::{copy_text, decimal, push_decimal, same_text, texts, to_chars};
use crate::vt::{actions, advance, vt_actions, vt_state, VtEvent};
use crate::windows_path::stem_of;
use vstd::prelude::*;

pub mod backlog;
pub mod laws;
pub mod requests;
pub mod serve;
pub mod stream;

use self::backlog::{Backlog, BacklogModel};
use self::stream::{drained, heard_text, Carry};

verus! {

/// How much of each terminal is kept for a client that attaches later, in bytes.
pub const BACKLOG_LIMIT: usize = 4194304;

/// For this many milliseconds after a resize or a start, output is a repaint or
/// a banner and not work.
pub const REPAINT_GRACE: u64 = 350;

/// How long the daemon stays up with nothing to hold, in milliseconds.
pub const IDLE_EXIT: u64 = 120000;

// ---- sessions -------------------------------------------------------------------

/// What the daemon remembers of a terminal.
pub struct Session {
    pub id: SessionId,
    pub title: String,
    pub shell: String,
    pub name: Option<String>,
    pub cols: u16,
    pub rows: u16,
    pub alive: bool,
    pub pid: Option<u32>,
    pub backlog: Backlog,
    pub last_output: u64,
    pub quiet_until: u64,
    /// The screen, kept for the answers: a program that asks where the cursor
    /// is must be answered while no window is open, and truthfully.
    pub grid: Grid,
}

/// A [`Session`] as mathematics.
#[verifier::ext_equal]
pub struct SessionModel {
    pub id: SessionId,
    pub title: Seq<char>,
    pub shell: Seq<char>,
    pub name: Option<Seq<char>>,
    pub cols: u16,
    pub rows: u16,
    pub alive: bool,
    pub pid: Option<u32>,
    pub backlog: BacklogModel,
    pub last_output: u64,
    pub quiet_until: u64,
    pub grid: GridModel,
}

impl View for Session {
    type V = SessionModel;

    open spec fn view(&self) -> SessionModel {
        SessionModel {
            id: self.id,
            title: self.title@,
            shell: self.shell@,
            name: opt_text(self.name),
            cols: self.cols,
            rows: self.rows,
            alive: self.alive,
            pid: self.pid,
            backlog: self.backlog@,
            last_output: self.last_output,
            quiet_until: self.quiet_until,
            grid: self.grid@,
        }
    }
}

impl SessionModel {
    /// Output came recently, and it was not a repaint.
    pub open spec fn working(self, now: u64) -> bool {
        is_working(self.last_output as int, now as int) && now >= self.quiet_until
    }

    /// What the daemon says of a session.
    pub open spec fn info(self, table: TableModel, cwd: Option<Seq<char>>, now: u64) -> InfoModel {
        InfoModel {
            id: self.id,
            title: self.title,
            shell: self.shell,
            name: self.name,
            cwd,
            cols: self.cols,
            rows: self.rows,
            alive: self.alive,
            busy: table.activity(self.pid, self.alive, self.working(now))
                matches ActivityModel::Running { working: true, .. },
            seq: self.backlog.last_seq,
        }
    }

    /// A shell just started. What it printed in an earlier life comes first in
    /// its backlog.
    pub open spec fn fresh(id: SessionId, l: LaunchModel, pid: Option<u32>, now: u64) -> SessionModel {
        let empty = BacklogModel::empty(BACKLOG_LIMIT as int);
        SessionModel {
            id,
            title: label_for(l.shell),
            shell: l.shell,
            name: None,
            cols: l.cols,
            rows: l.rows,
            alive: true,
            pid,
            backlog: match l.replay {
                Some(text) => empty.pushed(text),
                None => empty,
            },
            last_output: now,
            quiet_until: (now + REPAINT_GRACE) as u64,
            grid: GridModel::fresh(at_least_one(l.cols as int), at_least_one(l.rows as int)),
        }
    }

    pub open spec fn resized(self, cols: u16, rows: u16, now: u64) -> SessionModel {
        SessionModel {
            cols,
            rows,
            quiet_until: (now + REPAINT_GRACE) as u64,
            grid: self.grid.resized(at_least_one(cols as int), at_least_one(rows as int)),
            ..self
        }
    }

    /// Text came in. Within the grace period it does not count as output.
    pub open spec fn heard(self, text: Seq<char>, now: u64) -> SessionModel {
        SessionModel {
            last_output: if now >= self.quiet_until {
                now
            } else {
                self.last_output
            },
            backlog: self.backlog.pushed(text),
            ..self
        }
    }
}

impl Session {
    pub open spec fn wf(self) -> bool {
        self.grid@.wf() && self.backlog.wf()
    }

    /// What the daemon says of this session.
    pub fn info(&self, table: &ProcessTable, cwd: &Option<String>, now: u64) -> (info: SessionInfo)
        ensures
            info@ == self@.info(table@, opt_text(*cwd), now),
    {
        let busy = working(self.last_output, now) && now >= self.quiet_until;
        let activity = table.activity_of(self.pid, self.alive, busy);
        SessionInfo {
            id: self.id,
            title: copy_text(self.title.as_str()),
            shell: copy_text(self.shell.as_str()),
            name: copy_opt(&self.name),
            cwd: copy_opt(cwd),
            cols: self.cols,
            rows: self.rows,
            alive: self.alive,
            busy: activity.is_busy(),
            seq: self.backlog.last_seq(),
        }
    }
}

/// A shell to be started.
pub struct Launch {
    pub shell: String,
    pub cwd: Option<String>,
    pub cols: u16,
    pub rows: u16,
    pub replay: Option<String>,
}

#[verifier::ext_equal]
pub struct LaunchModel {
    pub shell: Seq<char>,
    pub cwd: Option<Seq<char>>,
    pub cols: u16,
    pub rows: u16,
    pub replay: Option<Seq<char>>,
}

impl View for Launch {
    type V = LaunchModel;

    open spec fn view(&self) -> LaunchModel {
        LaunchModel {
            shell: self.shell@,
            cwd: opt_text(self.cwd),
            cols: self.cols,
            rows: self.rows,
            replay: opt_text(self.replay),
        }
    }
}

/// An empty text counts as a missing one.
pub open spec fn given(s: Option<Seq<char>>) -> Option<Seq<char>> {
    match s {
        Some(t) => if t.len() > 0 {
            Some(t)
        } else {
            None
        },
        None => None,
    }
}

/// The program to start where a client names none.
pub open spec fn default_shell(comspec: Option<Seq<char>>) -> Seq<char> {
    match comspec {
        Some(s) => s,
        None => "powershell.exe"@,
    }
}

pub open spec fn launch(
    shell: Option<Seq<char>>,
    cwd: Option<Seq<char>>,
    cols: u16,
    rows: u16,
    replay: Option<Seq<char>>,
    comspec: Option<Seq<char>>,
) -> LaunchModel {
    LaunchModel {
        shell: match given(shell) {
            Some(s) => s,
            None => default_shell(comspec),
        },
        cwd: given(cwd),
        cols,
        rows,
        replay: given(replay),
    }
}

fn keep_given(s: Option<String>) -> (out: Option<String>)
    ensures
        opt_text(out) == given(opt_text(s)),
{
    match s {
        Some(t) => if to_chars(t.as_str()).len() > 0 {
            Some(t)
        } else {
            None
        },
        None => None,
    }
}

/// The program to start where a client names none. `comspec` is what the
/// environment names as the command interpreter.
pub fn default_program(comspec: &Option<String>) -> (out: String)
    ensures
        out@ == default_shell(opt_text(*comspec)),
{
    match comspec {
        Some(s) => copy_text(s.as_str()),
        None => copy_text("powershell.exe"),
    }
}

// ---- clients --------------------------------------------------------------------

/// A connected front end. The pair of connections it consists of shares a token
/// and can come in either order.
pub struct Client {
    pub token: String,
    /// Whether some connection already carries its events.
    pub claimed: bool,
    /// The terminals that it wants the live stream of.
    pub attached: Vec<SessionId>,
}

#[verifier::ext_equal]
pub struct ClientModel {
    pub token: Seq<char>,
    pub claimed: bool,
    pub attached: Seq<SessionId>,
}

impl View for Client {
    type V = ClientModel;

    open spec fn view(&self) -> ClientModel {
        ClientModel { token: self.token@, claimed: self.claimed, attached: self.attached@ }
    }
}

// ---- the registry ---------------------------------------------------------------

/// All the terminals, oldest first, and all the clients.
pub struct Registry {
    pub sessions: Vec<Session>,
    pub next_session: SessionId,
    pub clients: Vec<Client>,
    /// When the last client left with nothing to hold.
    pub empty_since: Option<u64>,
    /// The screens of sessions that were closed while their children could
    /// still print.
    pub leftovers: Vec<Leftover>,
}

/// The screen of a session that was closed. Until the last of its child's output
/// has been read, questions in it are still answered from here.
pub struct Leftover {
    pub id: SessionId,
    pub grid: Grid,
}

#[verifier::ext_equal]
pub struct LeftoverModel {
    pub id: SessionId,
    pub grid: GridModel,
}

impl View for Leftover {
    type V = LeftoverModel;

    open spec fn view(&self) -> LeftoverModel {
        LeftoverModel { id: self.id, grid: self.grid@ }
    }
}

pub open spec fn leftovers_of(v: Seq<Leftover>) -> Seq<LeftoverModel> {
    Seq::new(v.len(), |i: int| v[i]@)
}

/// The place of the first leftover from the `i`-th on with that id.
pub open spec fn find_leftover(v: Seq<LeftoverModel>, id: SessionId, i: int) -> Option<int>
    decreases v.len() - i,
{
    if i >= v.len() {
        None
    } else if v[i].id == id {
        Some(i)
    } else {
        find_leftover(v, id, i + 1)
    }
}

#[verifier::ext_equal]
pub struct RegistryModel {
    pub sessions: Seq<SessionModel>,
    pub next_session: SessionId,
    pub clients: Seq<ClientModel>,
    pub empty_since: Option<u64>,
    pub leftovers: Seq<LeftoverModel>,
}

pub open spec fn sessions_of(v: Seq<Session>) -> Seq<SessionModel> {
    Seq::new(v.len(), |i: int| v[i]@)
}

pub open spec fn clients_of(v: Seq<Client>) -> Seq<ClientModel> {
    Seq::new(v.len(), |i: int| v[i]@)
}

impl View for Registry {
    type V = RegistryModel;

    open spec fn view(&self) -> RegistryModel {
        RegistryModel {
            sessions: sessions_of(self.sessions@),
            next_session: self.next_session,
            clients: clients_of(self.clients@),
            empty_since: self.empty_since,
            leftovers: leftovers_of(self.leftovers@),
        }
    }
}

/// The place of the first session from the `i`-th on with that id.
pub open spec fn find_session(sessions: Seq<SessionModel>, id: SessionId, i: int) -> Option<int>
    decreases sessions.len() - i,
{
    if i >= sessions.len() {
        None
    } else if sessions[i].id == id {
        Some(i)
    } else {
        find_session(sessions, id, i + 1)
    }
}

/// The place of the first client from the `i`-th on with that token.
pub open spec fn find_client(clients: Seq<ClientModel>, token: Seq<char>, i: int) -> Option<int>
    decreases clients.len() - i,
{
    if i >= clients.len() {
        None
    } else if clients[i].token == token {
        Some(i)
    } else {
        find_client(clients, token, i + 1)
    }
}

/// `v` without `id`.
pub open spec fn without(v: Seq<SessionId>, id: SessionId) -> Seq<SessionId>
    decreases v.len(),
{
    if v.len() == 0 {
        Seq::empty()
    } else if v[0] == id {
        without(v.skip(1), id)
    } else {
        seq![v[0]] + without(v.skip(1), id)
    }
}

/// What a request asks the caller to do.
pub enum Outcome {
    Nothing,
    /// Send this to the client that asked.
    Send(Event),
    /// Send the list of sessions to the client that asked.
    List,
    /// Kill the child of a session that was forgotten, if there was one, and
    /// send the list of sessions to everybody.
    Forgotten { kill: Option<SessionId> },
    /// Send the list of sessions to everybody.
    ListAll,
    /// Start a shell, and say how that went to [`Registry::launched`].
    Launch(Launch),
    /// Write to the pty of a session.
    Write { id: SessionId, data: String },
    /// Give the pty of a session another size.
    Resize { id: SessionId, cols: u16, rows: u16 },
}

#[verifier::ext_equal]
pub enum OutcomeModel {
    Nothing,
    Send(EventModel),
    List,
    Forgotten { kill: Option<SessionId> },
    ListAll,
    Launch(LaunchModel),
    Write { id: SessionId, data: Seq<char> },
    Resize { id: SessionId, cols: u16, rows: u16 },
}

impl View for Outcome {
    type V = OutcomeModel;

    open spec fn view(&self) -> OutcomeModel {
        match *self {
            Outcome::Nothing => OutcomeModel::Nothing,
            Outcome::Send(e) => OutcomeModel::Send(e@),
            Outcome::List => OutcomeModel::List,
            Outcome::Forgotten { kill } => OutcomeModel::Forgotten { kill },
            Outcome::ListAll => OutcomeModel::ListAll,
            Outcome::Launch(l) => OutcomeModel::Launch(l@),
            Outcome::Write { id, data } => OutcomeModel::Write { id, data: data@ },
            Outcome::Resize { id, cols, rows } => OutcomeModel::Resize { id, cols, rows },
        }
    }
}

/// What is said of a terminal that does not exist.
pub open spec fn no_terminal(id: SessionId) -> Seq<char> {
    "no terminal "@ + decimal(id as nat)
}

impl RegistryModel {
    /// Sessions are in the order of their ids, ids are given out once, tokens
    /// are not shared.
    pub open spec fn wf(self) -> bool {
        &&& forall|i: int, j: int|
            0 <= i < j < self.sessions.len() ==> (#[trigger] self.sessions[i]).id < (
            #[trigger] self.sessions[j]).id
        &&& forall|i: int|
            0 <= i < self.sessions.len() ==> 1 <= (#[trigger] self.sessions[i]).id
                <= self.next_session
        &&& forall|i: int|
            0 <= i < self.sessions.len() ==> (#[trigger] self.sessions[i]).grid.wf()
                && self.sessions[i].backlog.wf()
        &&& forall|i: int, j: int|
            0 <= i < j < self.clients.len() ==> (#[trigger] self.clients[i]).token != (
            #[trigger] self.clients[j]).token
        &&& forall|i: int|
            0 <= i < self.leftovers.len() ==> (#[trigger] self.leftovers[i]).grid.wf()
    }

    /// No child is running any more.
    pub open spec fn all_dead(self) -> bool {
        forall|i: int| 0 <= i < self.sessions.len() ==> !(#[trigger] self.sessions[i]).alive
    }

    pub open spec fn with_session(self, i: int, s: SessionModel) -> RegistryModel {
        RegistryModel { sessions: self.sessions.update(i, s), ..self }
    }

    /// A client with that token exists from now on, and the daemon is not idle.
    pub open spec fn ensured(self, token: Seq<char>) -> RegistryModel {
        RegistryModel {
            clients: if find_client(self.clients, token, 0) is Some {
                self.clients
            } else {
                self.clients.push(
                    ClientModel { token, claimed: false, attached: Seq::empty() },
                )
            },
            empty_since: None,
            ..self
        }
    }

    /// The events of that client go to one connection, and no other.
    pub open spec fn claimed(self, token: Seq<char>) -> RegistryModel {
        match find_client(self.clients, token, 0) {
            Some(i) => RegistryModel {
                clients: self.clients.update(
                    i,
                    ClientModel { claimed: true, ..self.clients[i] },
                ),
                ..self
            },
            None => self,
        }
    }

    pub open spec fn can_claim(self, token: Seq<char>) -> bool {
        find_client(self.clients, token, 0) matches Some(i) && !self.clients[i].claimed
    }

    /// A client is gone. With no client left, and no child running, the daemon
    /// is idle from now on.
    pub open spec fn dropped(self, token: Seq<char>, now: u64) -> RegistryModel {
        let left = match find_client(self.clients, token, 0) {
            Some(i) => self.clients.remove(i),
            None => self.clients,
        };
        RegistryModel {
            clients: left,
            empty_since: if left.len() == 0 && self.all_dead() {
                Some(now)
            } else {
                self.empty_since
            },
            ..self
        }
    }

    /// A client watches a session, once.
    pub open spec fn watched(self, token: Seq<char>, id: SessionId) -> RegistryModel {
        match find_client(self.clients, token, 0) {
            Some(i) => if self.clients[i].attached.contains(id) {
                self
            } else {
                RegistryModel {
                    clients: self.clients.update(
                        i,
                        ClientModel {
                            attached: self.clients[i].attached.push(id),
                            ..self.clients[i]
                        },
                    ),
                    ..self
                }
            },
            None => self,
        }
    }

    /// A shell was started for a client. The client watches it from the start,
    /// so that it misses nothing.
    pub open spec fn registered(
        self,
        token: Seq<char>,
        l: LaunchModel,
        pid: Option<u32>,
        now: u64,
    ) -> RegistryModel {
        let id = (self.next_session + 1) as SessionId;
        (RegistryModel {
            sessions: self.sessions.push(SessionModel::fresh(id, l, pid, now)),
            next_session: id,
            empty_since: None,
            ..self
        }).started_watching(token, id)
    }

    pub open spec fn started_watching(self, token: Seq<char>, id: SessionId) -> RegistryModel {
        match find_client(self.clients, token, 0) {
            Some(i) => RegistryModel {
                clients: self.clients.update(
                    i,
                    ClientModel { attached: self.clients[i].attached.push(id), ..self.clients[i] },
                ),
                ..self
            },
            None => self,
        }
    }

    pub open spec fn with_leftover(self, j: int, grid: GridModel) -> RegistryModel {
        RegistryModel {
            leftovers: self.leftovers.update(j, LeftoverModel { grid, ..self.leftovers[j] }),
            ..self
        }
    }

    /// All that the child of a closed session printed has been read.
    pub open spec fn read_out(self, id: SessionId) -> RegistryModel {
        match find_leftover(self.leftovers, id, 0) {
            Some(j) => RegistryModel { leftovers: self.leftovers.remove(j), ..self },
            None => self,
        }
    }

    /// A session is forgotten, and nobody watches it any more. Its screen is put
    /// by, for what its child may still ask.
    pub open spec fn forgotten(self, id: SessionId, now: u64) -> RegistryModel {
        let left = match find_session(self.sessions, id, 0) {
            Some(i) => self.sessions.remove(i),
            None => self.sessions,
        };
        RegistryModel {
            sessions: left,
            clients: Seq::new(
                self.clients.len(),
                |k: int|
                    ClientModel {
                        attached: without(self.clients[k].attached, id),
                        ..self.clients[k]
                    },
            ),
            empty_since: if self.clients.len() == 0 && left.len() == 0 {
                Some(now)
            } else {
                self.empty_since
            },
            leftovers: match find_session(self.sessions, id, 0) {
                Some(i) => self.leftovers.push(
                    LeftoverModel { id, grid: self.sessions[i].grid },
                ),
                None => self.leftovers,
            },
            ..self
        }
    }

    /// What a request does, and what it asks for.
    pub open spec fn handled(
        self,
        token: Seq<char>,
        req: RequestModel,
        comspec: Option<Seq<char>>,
        now: u64,
    ) -> (RegistryModel, OutcomeModel) {
        match req {
            RequestModel::Hello { role, token: t } => (self, OutcomeModel::Nothing),
            RequestModel::List => (self, OutcomeModel::List),
            RequestModel::Create { shell, cwd, cols, rows, replay } => (
                self,
                OutcomeModel::Launch(launch(shell, cwd, cols, rows, replay, comspec)),
            ),
            RequestModel::Attach { id, from } => match find_session(self.sessions, id, 0) {
                Some(i) => (
                    self.watched(token, id),
                    OutcomeModel::Send(
                        EventModel::Replay {
                            id,
                            data: self.sessions[i].backlog.since(from),
                            seq: self.sessions[i].backlog.last_seq,
                        },
                    ),
                ),
                None => (
                    self,
                    OutcomeModel::Send(EventModel::Error { message: no_terminal(id) }),
                ),
            },
            RequestModel::Input { id, data } => match find_session(self.sessions, id, 0) {
                Some(i) => if self.sessions[i].alive {
                    (self, OutcomeModel::Write { id, data })
                } else {
                    (self, OutcomeModel::Nothing)
                },
                None => (self, OutcomeModel::Nothing),
            },
            RequestModel::Resize { id, cols, rows } => match find_session(self.sessions, id, 0) {
                Some(i) => (
                    self.with_session(i, self.sessions[i].resized(cols, rows, now)),
                    OutcomeModel::Resize {
                        id,
                        cols: at_least_one(cols as int) as u16,
                        rows: at_least_one(rows as int) as u16,
                    },
                ),
                None => (self, OutcomeModel::Nothing),
            },
            RequestModel::Close { id } => (
                self.forgotten(id, now),
                OutcomeModel::Forgotten {
                    kill: if find_session(self.sessions, id, 0) is Some {
                        Some(id)
                    } else {
                        None
                    },
                },
            ),
            RequestModel::Rename { id, name } => (
                match find_session(self.sessions, id, 0) {
                    Some(i) => self.with_session(i, SessionModel { name, ..self.sessions[i] }),
                    None => self,
                },
                OutcomeModel::ListAll,
            ),
        }
    }

    /// Everybody who watches a session.
    pub open spec fn watchers(self, id: SessionId, n: int) -> Seq<Seq<char>>
        decreases n,
    {
        if n <= 0 {
            Seq::empty()
        } else if self.clients[n - 1].attached.contains(id) {
            self.watchers(id, n - 1).push(self.clients[n - 1].token)
        } else {
            self.watchers(id, n - 1)
        }
    }

    /// A child has ended.
    pub open spec fn exited(self, id: SessionId) -> RegistryModel {
        match find_session(self.sessions, id, 0) {
            Some(i) => self.with_session(i, SessionModel { alive: false, ..self.sessions[i] }),
            None => self,
        }
    }

    /// The daemon has had nothing to hold for long enough.
    pub open spec fn may_exit(self, now: u64) -> bool {
        &&& self.empty_since matches Some(since) && now - since > IDLE_EXIT
        &&& self.clients.len() == 0
    }
}

/// What a read of a pty comes to.
pub enum Drained {
    /// Text came in for a session that is gone; stop reading. The answers are
    /// owed all the same.
    Gone { reply: Vec<u8> },
    /// Something in the output could not be drawn.
    Stuck,
    /// The answers owed to the child, and what to send to those who watch.
    Read { reply: Vec<u8>, event: Option<Event> },
}

fn copy_ids(v: &Vec<SessionId>, id: SessionId) -> (out: Vec<SessionId>)
    ensures
        out@ == without(v@, id),
{
    let mut out: Vec<SessionId> = Vec::new();
    let mut i: usize = 0;
    assert(v@.skip(0) =~= v@);
    assert(out@ + without(v@, id) =~= without(v@, id));
    while i < v.len()
        invariant
            i <= v@.len(),
            out@ + without(v@.skip(i as int), id) == without(v@, id),
        decreases v@.len() - i,
    {
        let ghost rest = v@.skip(i as int);
        let ghost before = out@;
        assert(rest.skip(1) =~= v@.skip(i + 1));
        if v[i] != id {
            out.push(v[i]);
            assert(out@ + without(rest.skip(1), id) =~= before + without(rest, id));
        }
        i += 1;
    }
    assert(out@ + Seq::<SessionId>::empty() =~= out@);
    out
}

fn has_id(v: &Vec<SessionId>, id: SessionId) -> (res: bool)
    ensures
        res == v@.contains(id),
{
    let mut i: usize = 0;
    while i < v.len()
        invariant
            i <= v@.len(),
            forall|k: int| 0 <= k < i ==> v@[k] != id,
        decreases v@.len() - i,
    {
        if v[i] == id {
            return true;
        }
        i += 1;
    }
    false
}

impl Registry {
    pub open spec fn wf(self) -> bool {
        &&& self@.wf()
        &&& forall|i: int| 0 <= i < self.sessions@.len() ==> (#[trigger] self.sessions@[i]).wf()
    }

    /// No terminals and no clients.
    pub fn new() -> (r: Self)
        ensures
            r.wf(),
            r@ == (RegistryModel {
                sessions: Seq::empty(),
                next_session: 0,
                clients: Seq::empty(),
                empty_since: None,
                leftovers: Seq::empty(),
            }),
    {
        let r = Registry {
            sessions: Vec::new(),
            next_session: 0,
            clients: Vec::new(),
            empty_since: None,
            leftovers: Vec::new(),
        };
        assert(r@.sessions =~= Seq::empty());
        assert(r@.clients =~= Seq::empty());
        assert(r@.leftovers =~= Seq::empty());
        r
    }

    fn find(&self, id: SessionId) -> (at: Option<usize>)
        ensures
            at is Some <==> find_session(self@.sessions, id, 0) is Some,
            at matches Some(i) ==> i < self.sessions@.len() && find_session(self@.sessions, id, 0)
                == Some(i as int) && self@.sessions[i as int].id == id && self@.sessions[i as int]
                == self.sessions@[i as int]@,
    {
        let mut i: usize = 0;
        while i < self.sessions.len()
            invariant
                i <= self.sessions@.len(),
                find_session(self@.sessions, id, i as int) == find_session(
                    self@.sessions,
                    id,
                    0,
                ),
            decreases self.sessions@.len() - i,
        {
            assert(self@.sessions[i as int] == self.sessions@[i as int]@);
            if self.sessions[i].id == id {
                return Some(i);
            }
            i += 1;
        }
        None
    }

    fn find_token(&self, token: &str) -> (at: Option<usize>)
        ensures
            at is Some <==> find_client(self@.clients, token@, 0) is Some,
            at matches Some(i) ==> i < self.clients@.len() && find_client(self@.clients, token@, 0)
                == Some(i as int) && self@.clients[i as int].token == token@
                && self@.clients[i as int] == self.clients@[i as int]@,
    {
        let mut i: usize = 0;
        while i < self.clients.len()
            invariant
                i <= self.clients@.len(),
                find_client(self@.clients, token@, i as int) == find_client(
                    self@.clients,
                    token@,
                    0,
                ),
            decreases self.clients@.len() - i,
        {
            assert(self@.clients[i as int] == self.clients@[i as int]@);
            if same_text(self.clients[i].token.as_str(), token) {
                return Some(i);
            }
            i += 1;
        }
        None
    }

    /// Make sure that a client exists for `token`, whichever half of it came.
    pub fn ensure_client(&mut self, token: &str)
        requires
            old(self).wf(),
        ensures
            final(self).wf(),
            final(self)@ == old(self)@.ensured(token@),
    {
        self.empty_since = None;
        if self.find_token(token).is_none() {
            proof {
                laws::lemma_no_client(old(self)@.clients, token@, 0);
            }
            self.clients.push(
                Client { token: copy_text(token), claimed: false, attached: Vec::new() },
            );
            let ghost c = self.clients@.last();
            assert(c.attached@ =~= Seq::<SessionId>::empty());
            assert(self@.clients =~= old(self)@.clients.push(c@));
        }
        assert(self@ =~= old(self)@.ensured(token@));
    }

    /// Claim the events of a client for one connection. `false` where another
    /// has them already, or where there is no such client.
    pub fn take_receiver(&mut self, token: &str) -> (claimed: bool)
        requires
            old(self).wf(),
        ensures
            final(self).wf(),
            claimed == old(self)@.can_claim(token@),
            final(self)@ == old(self)@.claimed(token@),
    {
        match self.find_token(token) {
            Some(i) => {
                let free = !self.clients[i].claimed;
                self.clients[i].claimed = true;
                assert(self@.clients =~= old(self)@.claimed(token@).clients);
                assert(self@ =~= old(self)@.claimed(token@));
                free
            },
            None => false,
        }
    }

    fn nothing_runs(&self) -> (res: bool)
        ensures
            res == self@.all_dead(),
    {
        let mut i: usize = 0;
        while i < self.sessions.len()
            invariant
                i <= self.sessions@.len(),
                forall|k: int| 0 <= k < i ==> !(#[trigger] self@.sessions[k]).alive,
            decreases self.sessions@.len() - i,
        {
            assert(self@.sessions[i as int] == self.sessions@[i as int]@);
            if self.sessions[i].alive {
                return false;
            }
            i += 1;
        }
        true
    }

    /// Forget a client.
    pub fn drop_client(&mut self, token: &str, now: u64)
        requires
            old(self).wf(),
        ensures
            final(self).wf(),
            final(self)@ == old(self)@.dropped(token@, now),
    {
        match self.find_token(token) {
            Some(i) => {
                let _ = self.clients.remove(i);
                assert(self@.clients =~= old(self)@.clients.remove(i as int));
            },
            None => {},
        }
        if self.clients.len() == 0 && self.nothing_runs() {
            self.empty_since = Some(now);
        }
        assert(self@ =~= old(self)@.dropped(token@, now));
    }

    /// Say how starting a shell went: with the child's process id, or why not.
    /// What comes back goes to the client that asked.
    pub fn launched(
        &mut self,
        client: &str,
        launch: Launch,
        started: Result<Option<u32>, String>,
        now: u64,
    ) -> (event: Event)
        requires
            old(self).wf(),
            old(self)@.next_session < SessionId::MAX,
            now <= u64::MAX - REPAINT_GRACE,
        ensures
            final(self).wf(),
            started matches Ok(pid) ==> {
                &&& final(self)@ == old(self)@.registered(client@, launch@, pid, now)
                &&& event@ == (EventModel::Created {
                    id: (old(self)@.next_session + 1) as SessionId,
                })
            },
            started matches Err(why) ==> {
                &&& final(self)@ == old(self)@
                &&& event@ == (EventModel::Error { message: why@ })
            },
    {
        match started {
            Ok(pid) => {
                let id = self.register(launch, pid, now);
                self.start_watching(client, id);
                Event::Created { id }
            },
            Err(message) => Event::Error { message },
        }
    }

    fn register(&mut self, launch: Launch, pid: Option<u32>, now: u64) -> (id: SessionId)
        requires
            old(self).wf(),
            old(self)@.next_session < SessionId::MAX,
            now <= u64::MAX - REPAINT_GRACE,
        ensures
            final(self).wf(),
            id == old(self)@.next_session + 1,
            final(self)@ == (RegistryModel {
                sessions: old(self)@.sessions.push(SessionModel::fresh(id, launch@, pid, now)),
                next_session: id,
                empty_since: None,
                ..old(self)@
            }),
    {
        let id = self.next_session + 1;
        self.next_session = id;
        let title = match stem_of(launch.shell.as_str()) {
            Some(stem) => stem,
            None => copy_text(launch.shell.as_str()),
        };
        let mut backlog = Backlog::new(BACKLOG_LIMIT);
        match &launch.replay {
            Some(text) => {
                let _ = backlog.push(copy_text(text.as_str()));
            },
            None => {},
        }
        let session = Session {
            id,
            title,
            shell: copy_text(launch.shell.as_str()),
            name: None,
            cols: launch.cols,
            rows: launch.rows,
            alive: true,
            pid,
            backlog,
            last_output: now,
            quiet_until: now + REPAINT_GRACE,
            grid: Grid::new(launch.cols as usize, launch.rows as usize),
        };
        proof {
            session.backlog.lemma_wf();
        }
        let ghost fresh = SessionModel::fresh(id, launch@, pid, now);
        assert(session@ =~= fresh);
        self.sessions.push(session);
        self.empty_since = None;
        assert(self@.sessions =~= old(self)@.sessions.push(fresh));
        assert(self@.clients =~= old(self)@.clients);
        id
    }

    fn start_watching(&mut self, client: &str, id: SessionId)
        requires
            old(self).wf(),
        ensures
            final(self).wf(),
            final(self)@ == old(self)@.started_watching(client@, id),
    {
        match self.find_token(client) {
            Some(i) => {
                self.clients[i].attached.push(id);
                assert(self@.clients =~= old(self)@.started_watching(client@, id).clients);
                assert(self@ =~= old(self)@.started_watching(client@, id));
            },
            None => {},
        }
    }

    fn watch(&mut self, client: &str, id: SessionId)
        requires
            old(self).wf(),
        ensures
            final(self).wf(),
            final(self)@ == old(self)@.watched(client@, id),
    {
        match self.find_token(client) {
            Some(i) => {
                if !has_id(&self.clients[i].attached, id) {
                    self.clients[i].attached.push(id);
                    assert(self@.clients =~= old(self)@.watched(client@, id).clients);
                }
                assert(self@ =~= old(self)@.watched(client@, id));
            },
            None => {},
        }
    }

    fn unwatch_all(&mut self, id: SessionId)
        requires
            old(self).wf(),
        ensures
            final(self).wf(),
            final(self).sessions == old(self).sessions,
            final(self).next_session == old(self).next_session,
            final(self).empty_since == old(self).empty_since,
            final(self).leftovers == old(self).leftovers,
            final(self)@.clients == Seq::new(
                old(self)@.clients.len(),
                |k: int|
                    ClientModel {
                        attached: without(old(self)@.clients[k].attached, id),
                        ..old(self)@.clients[k]
                    },
            ),
    {
        let n: usize = self.clients.len();
        let mut i: usize = 0;
        while i < n
            invariant
                i <= n,
                n == self.clients@.len(),
                n == old(self).clients@.len(),
                self.sessions == old(self).sessions,
                self.next_session == old(self).next_session,
                self.empty_since == old(self).empty_since,
                self.leftovers == old(self).leftovers,
                forall|k: int| i <= k < n ==> self.clients@[k] == old(self).clients@[k],
                forall|k: int|
                    0 <= k < i ==> (#[trigger] self.clients@[k])@ == (ClientModel {
                        attached: without(old(self)@.clients[k].attached, id),
                        ..old(self)@.clients[k]
                    }),
            decreases n - i,
        {
            let kept = copy_ids(&self.clients[i].attached, id);
            self.clients[i].attached = kept;
            i += 1;
        }
        assert(self@.clients =~= Seq::new(
            old(self)@.clients.len(),
            |k: int|
                ClientModel {
                    attached: without(old(self)@.clients[k].attached, id),
                    ..old(self)@.clients[k]
                },
        ));
        assert forall|i: int, j: int| 0 <= i < j < self@.clients.len() implies (
        #[trigger] self@.clients[i]).token != (#[trigger] self@.clients[j]).token by {
            assert(old(self)@.clients[i].token != old(self)@.clients[j].token);
        }
    }

    fn forget(&mut self, id: SessionId, now: u64) -> (kill: Option<SessionId>)
        requires
            old(self).wf(),
        ensures
            final(self).wf(),
            final(self)@ == old(self)@.forgotten(id, now),
            kill == (if find_session(old(self)@.sessions, id, 0) is Some {
                Some(id)
            } else {
                None
            }),
    {
        let found = self.find(id);
        let kill = match found {
            Some(i) => {
                assert(self.sessions@[i as int].wf());
                let session = self.sessions.remove(i);
                self.leftovers.push(Leftover { id, grid: session.grid });
                assert(self@.sessions =~= old(self)@.sessions.remove(i as int));
                assert(self@.leftovers =~= old(self)@.leftovers.push(
                    LeftoverModel { id, grid: old(self)@.sessions[i as int].grid },
                ));
                Some(id)
            },
            None => None,
        };
        assert(self@.clients =~= old(self)@.clients);
        self.unwatch_all(id);
        assert(self@.clients =~= old(self)@.forgotten(id, now).clients);
        assert(self@.sessions == old(self)@.forgotten(id, now).sessions);
        assert(self@.leftovers == old(self)@.forgotten(id, now).leftovers);
        if self.clients.len() == 0 && self.sessions.len() == 0 {
            self.empty_since = Some(now);
        }
        assert(self@ =~= old(self)@.forgotten(id, now));
        kill
    }

    /// Answer one request of a client. `comspec` is what the environment names
    /// as the command interpreter.
    pub fn handle(&mut self, client: &str, req: Request, comspec: &Option<String>, now: u64) -> (out:
        Outcome)
        requires
            old(self).wf(),
            now <= u64::MAX - REPAINT_GRACE,
        ensures
            final(self).wf(),
            (final(self)@, out@) == old(self)@.handled(client@, req@, opt_text(*comspec), now),
    {
        match req {
            Request::Hello { .. } => Outcome::Nothing,
            Request::List => Outcome::List,
            Request::Create { shell, cwd, cols, rows, replay } => {
                let shell = match keep_given(shell) {
                    Some(s) => s,
                    None => default_program(comspec),
                };
                Outcome::Launch(
                    Launch {
                        shell,
                        cwd: keep_given(cwd),
                        cols,
                        rows,
                        replay: keep_given(replay),
                    },
                )
            },
            Request::Attach { id, from } => match self.find(id) {
                Some(i) => {
                    let data = self.sessions[i].backlog.replay_from(from);
                    let seq = self.sessions[i].backlog.last_seq();
                    self.watch(client, id);
                    Outcome::Send(Event::Replay { id, data, seq })
                },
                None => {
                    let mut message = copy_text("no terminal ");
                    push_decimal(&mut message, id as u64);
                    Outcome::Send(Event::Error { message })
                },
            },
            Request::Input { id, data } => match self.find(id) {
                Some(i) => if self.sessions[i].alive {
                    Outcome::Write { id, data }
                } else {
                    Outcome::Nothing
                },
                None => Outcome::Nothing,
            },
            Request::Resize { id, cols, rows } => match self.find(id) {
                Some(i) => {
                    self.resize_session(i, cols, rows, now);
                    Outcome::Resize {
                        id,
                        cols: at_least_one_u16(cols),
                        rows: at_least_one_u16(rows),
                    }
                },
                None => Outcome::Nothing,
            },
            Request::Close { id } => Outcome::Forgotten { kill: self.forget(id, now) },
            Request::Rename { id, name } => {
                match self.find(id) {
                    Some(i) => {
                        self.sessions[i].name = name;
                        let ghost s = SessionModel {
                            name: opt_text(name),
                            ..old(self)@.sessions[i as int]
                        };
                        assert(self@.sessions =~= old(self)@.sessions.update(i as int, s));
                        assert(self@ =~= old(self)@.with_session(i as int, s));
                    },
                    None => {},
                }
                Outcome::ListAll
            },
        }
    }

    fn resize_session(&mut self, i: usize, cols: u16, rows: u16, now: u64)
        requires
            old(self).wf(),
            i < old(self).sessions@.len(),
            now <= u64::MAX - REPAINT_GRACE,
        ensures
            final(self).wf(),
            final(self)@ == old(self)@.with_session(
                i as int,
                old(self)@.sessions[i as int].resized(cols, rows, now),
            ),
    {
        let ghost s = old(self)@.sessions[i as int].resized(cols, rows, now);
        assert(old(self).sessions@[i as int].wf());
        self.sessions[i].cols = cols;
        self.sessions[i].rows = rows;
        self.sessions[i].quiet_until = now + REPAINT_GRACE;
        self.sessions[i].grid.resize(cols as usize, rows as usize);
        assert(self.sessions@[i as int]@ =~= s);
        assert(self@.sessions =~= old(self)@.sessions.update(i as int, s));
        assert(self@ =~= old(self)@.with_session(i as int, s));
    }

    /// What the daemon says of every session, in the order they were started.
    /// `cwds` holds the directory of each, as far as it is known.
    pub fn infos(&self, table: &ProcessTable, cwds: &Vec<Option<String>>, now: u64) -> (out: Vec<
        SessionInfo,
    >)
        requires
            cwds@.len() == self.sessions@.len(),
        ensures
            infos_of(out@) == Seq::new(
                self@.sessions.len(),
                |i: int| self@.sessions[i].info(table@, opt_text(cwds@[i]), now),
            ),
    {
        let mut out: Vec<SessionInfo> = Vec::new();
        let mut i: usize = 0;
        while i < self.sessions.len()
            invariant
                i <= self.sessions@.len(),
                cwds@.len() == self.sessions@.len(),
                out@.len() == i,
                forall|k: int|
                    0 <= k < i ==> (#[trigger] out@[k])@ == self@.sessions[k].info(
                        table@,
                        opt_text(cwds@[k]),
                        now,
                    ),
            decreases self.sessions@.len() - i,
        {
            out.push(self.sessions[i].info(table, &cwds[i], now));
            i += 1;
        }
        assert(infos_of(out@) =~= Seq::new(
            self@.sessions.len(),
            |i: int| self@.sessions[i].info(table@, opt_text(cwds@[i]), now),
        ));
        out
    }

    /// The tokens of those who watch a session.
    pub fn watchers(&self, id: SessionId) -> (out: Vec<String>)
        ensures
            texts(out@) == self@.watchers(id, self@.clients.len() as int),
    {
        let mut out: Vec<String> = Vec::new();
        let mut i: usize = 0;
        assert(texts(out@) =~= Seq::empty());
        while i < self.clients.len()
            invariant
                i <= self.clients@.len(),
                texts(out@) == self@.watchers(id, i as int),
            decreases self.clients@.len() - i,
        {
            let ghost before = texts(out@);
            assert(self@.clients[i as int] == self.clients@[i as int]@);
            if has_id(&self.clients[i].attached, id) {
                out.push(copy_text(self.clients[i].token.as_str()));
                assert(texts(out@) =~= before.push(self@.clients[i as int].token));
            }
            i += 1;
        }
        out
    }

    /// The tokens of all clients.
    pub fn everybody(&self) -> (out: Vec<String>)
        ensures
            texts(out@) == Seq::new(self@.clients.len(), |i: int| self@.clients[i].token),
    {
        let mut out: Vec<String> = Vec::new();
        let mut i: usize = 0;
        while i < self.clients.len()
            invariant
                i <= self.clients@.len(),
                out@.len() == i,
                forall|k: int| 0 <= k < i ==> (#[trigger] out@[k])@ == self@.clients[k].token,
            decreases self.clients@.len() - i,
        {
            out.push(copy_text(self.clients[i].token.as_str()));
            i += 1;
        }
        assert(texts(out@) =~= Seq::new(self@.clients.len(), |i: int| self@.clients[i].token));
        out
    }

    /// What becomes of the sessions when the child of one printed something.
    /// `found` is what the parser found in what was read.
    pub open spec fn digests(
        self,
        id: SessionId,
        found: Seq<VtAction>,
        carry: Seq<u8>,
        read: Seq<u8>,
        now: u64,
        after: Registry,
        kept: Seq<u8>,
        got: Drained,
    ) -> bool {
        match find_session(self@.sessions, id, 0) {
            None => self.digests_leftover(id, found, carry, read, after, kept, got),
            Some(i) => {
                let s = self@.sessions[i];
                let end = s.grid.fed(found);
                match got {
                    Drained::Gone { reply } => false,
                    Drained::Stuck => {
                        &&& !s.grid.takes(found)
                        &&& kept == carry
                        &&& after@ == self@.with_session(i, SessionModel { grid: end, ..s })
                    },
                    Drained::Read { reply, event } => {
                        let drawn = SessionModel { grid: end.answered(), ..s };
                        let text = heard_text(carry, read);
                        &&& s.grid.takes(found)
                        &&& reply@ == end.reply
                        &&& kept == drained(carry, read).1
                        &&& if text.len() > 0 {
                            &&& after@ == self@.with_session(i, drawn.heard(text, now))
                            &&& event matches Some(e) && e@ == (EventModel::Output {
                                id,
                                seq: (s.backlog.last_seq + 1) as u64,
                                data: text,
                            })
                        } else {
                            &&& after@ == self@.with_session(i, drawn)
                            &&& event is None
                        }
                    },
                }
            },
        }
    }

    /// The same for a session that was closed meanwhile: its child is still
    /// answered, and reading stops once there is text that nobody is there for.
    pub open spec fn digests_leftover(
        self,
        id: SessionId,
        found: Seq<VtAction>,
        carry: Seq<u8>,
        read: Seq<u8>,
        after: Registry,
        kept: Seq<u8>,
        got: Drained,
    ) -> bool {
        match find_leftover(self@.leftovers, id, 0) {
            None => {
                &&& got matches Drained::Gone { reply } && reply@ == Seq::<u8>::empty()
                &&& after@ == self@
                &&& kept == carry
            },
            Some(j) => {
                let grid = self@.leftovers[j].grid;
                let end = grid.fed(found);
                let text = heard_text(carry, read);
                match got {
                    Drained::Stuck => {
                        &&& !grid.takes(found)
                        &&& kept == carry
                        &&& after@ == self@.with_leftover(j, end)
                    },
                    Drained::Gone { reply } => {
                        &&& grid.takes(found)
                        &&& text.len() > 0
                        &&& reply@ == end.reply
                        &&& kept == drained(carry, read).1
                        &&& after@ == self@.read_out(id)
                    },
                    Drained::Read { reply, event } => {
                        &&& grid.takes(found)
                        &&& text.len() == 0
                        &&& reply@ == end.reply
                        &&& event is None
                        &&& kept == drained(carry, read).1
                        &&& after@ == self@.with_leftover(j, end.answered())
                    },
                }
            },
        }
    }

    /// Some screen is there for the output of that session.
    pub open spec fn has_screen(self, id: SessionId) -> bool {
        find_session(self@.sessions, id, 0) is Some || find_leftover(self@.leftovers, id, 0) is Some
    }

    /// Take in what a child printed. Its questions are answered by the screen
    /// kept here, whoever is watching; the text goes to the backlog and to
    /// those who watch.
    pub fn output(
        &mut self,
        id: SessionId,
        parser: &mut vte::Parser,
        carry: &mut Carry,
        read: &[u8],
        now: u64,
    ) -> (got: Drained)
        requires
            old(self).wf(),
            find_session(old(self)@.sessions, id, 0) matches Some(i)
                ==> old(self)@.sessions[i].backlog.last_seq < u64::MAX,
        ensures
            final(self).wf(),
            old(self).digests(
                id,
                vt_actions(*old(parser), read@),
                old(carry).bytes@,
                read@,
                now,
                *final(self),
                final(carry).bytes@,
                got,
            ),
            *final(parser) == (if old(self).has_screen(id) {
                vt_state(*old(parser), read@)
            } else {
                *old(parser)
            }),
    {
        if self.find(id).is_none() && self.find_leftover(id).is_none() {
            return Drained::Gone { reply: Vec::new() };
        }
        let events = advance(parser, read);
        self.digest(id, &events, carry, read, now)
    }

    /// Take in what a child printed, given what the parser found in it.
    pub fn digest(
        &mut self,
        id: SessionId,
        events: &Vec<VtEvent>,
        carry: &mut Carry,
        read: &[u8],
        now: u64,
    ) -> (got: Drained)
        requires
            old(self).wf(),
            find_session(old(self)@.sessions, id, 0) matches Some(i)
                ==> old(self)@.sessions[i].backlog.last_seq < u64::MAX,
        ensures
            final(self).wf(),
            old(self).digests(
                id,
                actions(events@),
                old(carry).bytes@,
                read@,
                now,
                *final(self),
                final(carry).bytes@,
                got,
            ),
    {
        let i = match self.find(id) {
            Some(i) => i,
            None => {
                return self.digest_leftover(id, events, carry, read);
            },
        };
        let ghost s = self@.sessions[i as int];
        let ghost end = s.grid.fed(actions(events@));
        assert(self.sessions@[i as int].wf());
        let n = self.sessions[i].grid.apply_all(events);
        if n != events.len() {
            assert(self.sessions@[i as int]@ =~= SessionModel { grid: end, ..s });
            proof {
                self.lemma_updated(*old(self), i as int);
            }
            assert(self@ =~= old(self)@.with_session(i as int, SessionModel { grid: end, ..s }));
            return Drained::Stuck;
        }
        let reply = self.sessions[i].grid.take_reply();
        let text = carry.take_in(read);
        let ghost drawn = SessionModel { grid: end.answered(), ..s };
        assert(self.sessions@[i as int]@ =~= drawn);
        let chars = to_chars(text.as_str());
        if chars.len() == 0 {
            proof {
                self.lemma_updated(*old(self), i as int);
            }
            assert(self@ =~= old(self)@.with_session(i as int, drawn));
            return Drained::Read { reply, event: None };
        }
        if now >= self.sessions[i].quiet_until {
            self.sessions[i].last_output = now;
        }
        let seq = self.sessions[i].backlog.push(copy_text(text.as_str()));
        assert(self.sessions@[i as int]@ =~= drawn.heard(text@, now));
        proof {
            self.sessions@[i as int].backlog.lemma_wf();
            self.lemma_updated(*old(self), i as int);
        }
        assert(self@ =~= old(self)@.with_session(i as int, drawn.heard(text@, now)));
        Drained::Read { reply, event: Some(Event::Output { id, seq, data: text }) }
    }

    fn find_leftover(&self, id: SessionId) -> (at: Option<usize>)
        ensures
            at is Some <==> find_leftover(self@.leftovers, id, 0) is Some,
            at matches Some(j) ==> j < self.leftovers@.len() && find_leftover(
                self@.leftovers,
                id,
                0,
            ) == Some(j as int) && self@.leftovers[j as int] == self.leftovers@[j as int]@,
    {
        let mut i: usize = 0;
        while i < self.leftovers.len()
            invariant
                i <= self.leftovers@.len(),
                find_leftover(self@.leftovers, id, i as int) == find_leftover(
                    self@.leftovers,
                    id,
                    0,
                ),
            decreases self.leftovers@.len() - i,
        {
            assert(self@.leftovers[i as int] == self.leftovers@[i as int]@);
            if self.leftovers[i].id == id {
                return Some(i);
            }
            i += 1;
        }
        None
    }

    fn digest_leftover(
        &mut self,
        id: SessionId,
        events: &Vec<VtEvent>,
        carry: &mut Carry,
        read: &[u8],
    ) -> (got: Drained)
        requires
            old(self).wf(),
        ensures
            final(self).wf(),
            old(self).digests_leftover(
                id,
                actions(events@),
                old(carry).bytes@,
                read@,
                *final(self),
                final(carry).bytes@,
                got,
            ),
    {
        let j = match self.find_leftover(id) {
            Some(j) => j,
            None => {
                return Drained::Gone { reply: Vec::new() };
            },
        };
        let ghost start = self@.leftovers[j as int].grid;
        let ghost end = start.fed(actions(events@));
        let n = self.leftovers[j].grid.apply_all(events);
        if n != events.len() {
            proof {
                self.lemma_other_screen(*old(self), j as int);
            }
            assert(self@ =~= old(self)@.with_leftover(j as int, end));
            return Drained::Stuck;
        }
        let reply = self.leftovers[j].grid.take_reply();
        let text = carry.take_in(read);
        let chars = to_chars(text.as_str());
        if chars.len() == 0 {
            proof {
                self.lemma_other_screen(*old(self), j as int);
            }
            assert(self@ =~= old(self)@.with_leftover(j as int, end.answered()));
            return Drained::Read { reply, event: None };
        }
        let _ = self.leftovers.remove(j);
        assert(self@.leftovers =~= old(self)@.leftovers.remove(j as int));
        assert(self@ =~= old(self)@.read_out(id));
        Drained::Gone { reply }
    }

    /// One leftover screen changed: the rest still holds.
    proof fn lemma_other_screen(self, before: Registry, j: int)
        requires
            before.wf(),
            0 <= j < before.leftovers@.len(),
            self.leftovers@.len() == before.leftovers@.len(),
            forall|k: int|
                0 <= k < before.leftovers@.len() && k != j ==> self.leftovers@[k]
                    == before.leftovers@[k],
            self.leftovers@[j].grid@.wf(),
            self.leftovers@[j].id == before.leftovers@[j].id,
            self.sessions == before.sessions,
            self.next_session == before.next_session,
            self.clients == before.clients,
            self.empty_since == before.empty_since,
        ensures
            self.wf(),
            self@ == before@.with_leftover(j, self.leftovers@[j].grid@),
    {
        assert(self@.leftovers =~= before@.with_leftover(
            j,
            self.leftovers@[j].grid@,
        ).leftovers);
        assert(self@ =~= before@.with_leftover(j, self.leftovers@[j].grid@));
        assert forall|k: int| 0 <= k < self@.leftovers.len() implies (
        #[trigger] self@.leftovers[k]).grid.wf() by {
            assert(before@.leftovers[k].grid.wf());
        }
    }

    /// All that a child printed has been read: the screen of a closed session is
    /// not needed any more.
    pub fn reader_ended(&mut self, id: SessionId)
        requires
            old(self).wf(),
        ensures
            final(self).wf(),
            final(self)@ == old(self)@.read_out(id),
    {
        match self.find_leftover(id) {
            Some(j) => {
                let _ = self.leftovers.remove(j);
                assert(self@.leftovers =~= old(self)@.leftovers.remove(j as int));
                assert(self@ =~= old(self)@.read_out(id));
            },
            None => {},
        }
    }

    /// One session changed, its id kept: the rest still holds.
    proof fn lemma_updated(self, before: Registry, i: int)
        requires
            before.wf(),
            0 <= i < before.sessions@.len(),
            self.sessions@.len() == before.sessions@.len(),
            forall|k: int|
                0 <= k < before.sessions@.len() && k != i ==> self.sessions@[k]
                    == before.sessions@[k],
            self.sessions@[i].wf(),
            self.sessions@[i]@.backlog.wf(),
            self.sessions@[i]@.id == before.sessions@[i]@.id,
            self.next_session == before.next_session,
            self.clients == before.clients,
            self.leftovers == before.leftovers,
        ensures
            self.wf(),
            self@.sessions == before@.sessions.update(i, self.sessions@[i]@),
            self@.clients == before@.clients,
            self@.leftovers == before@.leftovers,
    {
        assert(self@.leftovers =~= before@.leftovers);
        assert(self@.sessions =~= before@.sessions.update(i, self.sessions@[i]@));
        assert(self@.clients =~= before@.clients);
        assert forall|a: int, b: int| 0 <= a < b < self@.sessions.len() implies (
        #[trigger] self@.sessions[a]).id < (#[trigger] self@.sessions[b]).id by {
            assert(before@.sessions[a].id < before@.sessions[b].id);
        }
        assert forall|k: int| 0 <= k < self@.sessions.len() implies 1 <= (
        #[trigger] self@.sessions[k]).id <= self@.next_session && self@.sessions[k].grid.wf()
            && self@.sessions[k].backlog.wf() by {
            assert(1 <= before@.sessions[k].id <= before@.next_session);
            assert(before@.sessions[k].grid.wf() && before@.sessions[k].backlog.wf());
        }
        assert forall|k: int| 0 <= k < self.sessions@.len() implies (
        #[trigger] self.sessions@[k]).wf() by {
            assert(before.sessions@[k].wf());
        }
    }

    /// A child has ended. The answer says whether that is news, so that an end
    /// is told of once, whoever notices it first.
    pub fn exited(&mut self, id: SessionId) -> (news: bool)
        requires
            old(self).wf(),
        ensures
            final(self).wf(),
            final(self)@ == old(self)@.exited(id),
            news == (find_session(old(self)@.sessions, id, 0) matches Some(i)
                && old(self)@.sessions[i].alive),
    {
        match self.find(id) {
            Some(i) => {
                let news = self.sessions[i].alive;
                self.sessions[i].alive = false;
                let ghost s = SessionModel { alive: false, ..old(self)@.sessions[i as int] };
                assert(self.sessions@[i as int]@ =~= s);
                assert(old(self).sessions@[i as int].wf());
                assert(old(self)@.sessions[i as int].backlog.wf());
                proof {
                    self.lemma_updated(*old(self), i as int);
                }
                assert(self@ =~= old(self)@.with_session(i as int, s));
                news
            },
            None => false,
        }
    }

    /// Whether the daemon has had nothing to hold for long enough.
    pub fn should_exit(&self, now: u64) -> (yes: bool)
        ensures
            yes == self@.may_exit(now),
    {
        match self.empty_since {
            Some(since) => now > since && now - since > IDLE_EXIT && self.clients.len() == 0,
            None => false,
        }
    }
}

} // verus!
