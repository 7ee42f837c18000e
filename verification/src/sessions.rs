//! The window's half of the conversation with the daemon.
//!
//! None of the terminals live here: the daemon owns them, and this side asks
//! and listens. The pipe carries one stream of events without request numbers,
//! so whoever needs an answer takes a ticket, and the event that satisfies it
//! is handed over under that ticket.
use crate::proto::{
    copy_opt, infos_of, opt_text, Event, EventModel, InfoModel, Request, RequestModel, Role, SessionId,
    SessionInfo,
};
use crate::text::{copy_text, decimal, push_decimal, to_chars};
use crate::utf8::{decode_lossy, utf8_lossy};
use vstd::prelude::*;
use vstd::utf8::{encode_utf8, valid_utf8};

verus! {

/// How long to wait for an answer that cannot be done without, in milliseconds.
pub const REPLY_TIMEOUT: u64 = 15000;

/// How long to try to reach a daemon that should be running already.
pub const FIRST_PATIENCE: u64 = 400;

/// How long to try to reach a daemon that was just started.
pub const STARTUP_TIMEOUT: u64 = 10000;

/// How long to wait between tries.
pub const RETRY_PAUSE: u64 = 25;

/// A piece of output on its way to the page.
#[derive(Clone, Debug)]
pub struct Chunk {
    pub id: SessionId,
    pub data: String,
    /// Goes up within a session, so that a late attacher can drop what its
    /// replay already held.
    pub seq: u64,
}

/// A replay, and the point in the stream that it reaches.
#[derive(Clone, Debug)]
pub struct Backlog {
    pub text: String,
    pub last_seq: u64,
}

/// What is worth writing to disk about a live session.
#[derive(Clone, Debug)]
pub struct Snapshot {
    pub shell: String,
    pub scrollback: String,
    pub cwd: Option<String>,
}

/// What an event means for the window.
pub enum Delivery {
    /// Nobody was waiting for it.
    Nothing,
    Output(Chunk),
    Exit(SessionId),
    Sessions,
    /// The ticket of whoever asked for a terminal, and its id.
    Created { ticket: u64, id: SessionId },
    /// The tickets of all who asked for the history of a terminal.
    Replay { tickets: Vec<u64>, backlog: Backlog },
    Error(String),
}

#[verifier::ext_equal]
pub enum DeliveryModel {
    Nothing,
    Output { id: SessionId, data: Seq<char>, seq: u64 },
    Exit(SessionId),
    Sessions,
    Created { ticket: u64, id: SessionId },
    Replay { tickets: Seq<u64>, text: Seq<char>, last_seq: u64 },
    Error(Seq<char>),
}

impl View for Delivery {
    type V = DeliveryModel;

    open spec fn view(&self) -> DeliveryModel {
        match *self {
            Delivery::Nothing => DeliveryModel::Nothing,
            Delivery::Output(c) => DeliveryModel::Output { id: c.id, data: c.data@, seq: c.seq },
            Delivery::Exit(id) => DeliveryModel::Exit(id),
            Delivery::Sessions => DeliveryModel::Sessions,
            Delivery::Created { ticket, id } => DeliveryModel::Created { ticket, id },
            Delivery::Replay { tickets, backlog } => DeliveryModel::Replay {
                tickets: tickets@,
                text: backlog.text@,
                last_seq: backlog.last_seq,
            },
            Delivery::Error(m) => DeliveryModel::Error(m@),
        }
    }
}

/// Somebody waiting for the history of a terminal.
#[derive(Clone, Copy, PartialEq, Eq, Debug, Structural)]
pub struct Waiter {
    pub id: SessionId,
    pub ticket: u64,
}

pub struct Sessions {
    pub connected: bool,
    /// The last thing the daemon said the world looks like.
    pub infos: Vec<SessionInfo>,
    /// Those who wait for a terminal to be started.
    pub created: Vec<u64>,
    /// Those who wait for the history of one.
    pub replays: Vec<Waiter>,
    pub next_ticket: u64,
}

#[verifier::ext_equal]
pub struct SessionsModel {
    pub connected: bool,
    pub infos: Seq<InfoModel>,
    pub created: Seq<u64>,
    pub replays: Seq<Waiter>,
    pub next_ticket: u64,
}

impl View for Sessions {
    type V = SessionsModel;

    open spec fn view(&self) -> SessionsModel {
        SessionsModel {
            connected: self.connected,
            infos: infos_of(self.infos@),
            created: self.created@,
            replays: self.replays@,
            next_ticket: self.next_ticket,
        }
    }
}

/// The tickets of those who wait for `id`, in the order they came.
pub open spec fn tickets_for(waiters: Seq<Waiter>, id: SessionId, n: int) -> Seq<u64>
    decreases n,
{
    if n <= 0 {
        Seq::empty()
    } else if waiters[n - 1].id == id {
        tickets_for(waiters, id, n - 1).push(waiters[n - 1].ticket)
    } else {
        tickets_for(waiters, id, n - 1)
    }
}

/// Those among the first `n` who wait for something else.
pub open spec fn others(waiters: Seq<Waiter>, id: SessionId, n: int) -> Seq<Waiter>
    decreases n,
{
    if n <= 0 {
        Seq::empty()
    } else if waiters[n - 1].id == id {
        others(waiters, id, n - 1)
    } else {
        others(waiters, id, n - 1).push(waiters[n - 1])
    }
}

/// The place of the first session from the `i`-th on with that id.
pub open spec fn find_info(infos: Seq<InfoModel>, id: SessionId, i: int) -> Option<int>
    decreases infos.len() - i,
{
    if i >= infos.len() {
        None
    } else if infos[i].id == id {
        Some(i)
    } else {
        find_info(infos, id, i + 1)
    }
}

impl SessionsModel {
    /// What an event does, and to whom it goes.
    pub open spec fn heard(self, e: EventModel) -> (SessionsModel, DeliveryModel) {
        match e {
            EventModel::Output { id, seq, data } => (
                self,
                DeliveryModel::Output { id, data, seq },
            ),
            EventModel::Exit { id } => (self, DeliveryModel::Exit(id)),
            EventModel::Sessions { sessions } => (
                SessionsModel { infos: sessions, ..self },
                DeliveryModel::Sessions,
            ),
            EventModel::Created { id } => if self.created.len() > 0 {
                (
                    SessionsModel { created: self.created.drop_last(), ..self },
                    DeliveryModel::Created { ticket: self.created.last(), id },
                )
            } else {
                (self, DeliveryModel::Nothing)
            },
            EventModel::Replay { id, data, seq } => {
                let n = self.replays.len() as int;
                let tickets = tickets_for(self.replays, id, n);
                if tickets.len() > 0 {
                    (
                        SessionsModel { replays: others(self.replays, id, n), ..self },
                        DeliveryModel::Replay { tickets, text: data, last_seq: seq },
                    )
                } else {
                    (self, DeliveryModel::Nothing)
                }
            },
            EventModel::Error { message } => (self, DeliveryModel::Error(message)),
        }
    }

    /// Somebody waits for a terminal to be started.
    pub open spec fn awaiting_creation(self) -> SessionsModel {
        SessionsModel {
            created: self.created.push(self.next_ticket),
            next_ticket: (self.next_ticket + 1) as u64,
            ..self
        }
    }

    /// Somebody waits for the history of a terminal.
    pub open spec fn awaiting_replay(self, id: SessionId) -> SessionsModel {
        SessionsModel {
            replays: self.replays.push(Waiter { id, ticket: self.next_ticket }),
            next_ticket: (self.next_ticket + 1) as u64,
            ..self
        }
    }
}

/// What is said where there is no daemon to ask.
pub open spec fn not_connected() -> Seq<char> {
    "not connected to the hmux daemon"@
}

/// What starting a terminal asks of the daemon.
pub open spec fn start_request(
    shell: Seq<char>,
    cwd: Option<Seq<char>>,
    replay: Seq<char>,
    cols: u16,
    rows: u16,
) -> RequestModel {
    RequestModel::Create {
        shell: Some(shell),
        cwd,
        cols,
        rows,
        replay: if replay.len() == 0 {
            None
        } else {
            Some(replay)
        },
    }
}

impl Sessions {
    /// Not connected, and nothing known.
    pub fn new() -> (s: Self)
        ensures
            s@ == (SessionsModel {
                connected: false,
                infos: Seq::empty(),
                created: Seq::empty(),
                replays: Seq::empty(),
                next_ticket: 0,
            }),
    {
        let s = Sessions {
            connected: false,
            infos: Vec::new(),
            created: Vec::new(),
            replays: Vec::new(),
            next_ticket: 0,
        };
        assert(s@.infos =~= Seq::empty());
        s
    }

    /// Both halves of the connection stand. Nothing is known until the daemon
    /// says so, and what exists is the first thing to ask.
    pub fn connect(&mut self) -> (ask: Request)
        ensures
            ask@ is List,
            final(self)@ == (SessionsModel {
                connected: true,
                infos: Seq::empty(),
                created: Seq::empty(),
                replays: Seq::empty(),
                next_ticket: old(self)@.next_ticket,
            }),
    {
        self.connected = true;
        self.infos = Vec::new();
        self.created = Vec::new();
        self.replays = Vec::new();
        assert(self@.infos =~= Seq::empty());
        Request::List
    }

    /// Start a terminal in the shell's own default directory.
    pub fn create(&mut self, shell: &str, cols: u16, rows: u16) -> (res: Result<
        (u64, Request),
        String,
    >)
        requires
            old(self)@.next_ticket < u64::MAX,
        ensures
            res is Ok <==> old(self)@.connected,
            res matches Err(why) ==> why@ == not_connected() && final(self)@ == old(self)@,
            res matches Ok((ticket, ask)) ==> {
                &&& ticket == old(self)@.next_ticket
                &&& final(self)@ == old(self)@.awaiting_creation()
                &&& ask@ == start_request(shell@, None, ""@, cols, rows)
            },
    {
        self.start(shell, None, copy_text(""), cols, rows)
    }

    /// Bring a terminal back: the same shell in the same directory, with the
    /// old output in its backlog.
    pub fn restore(
        &mut self,
        shell: &str,
        cwd: Option<String>,
        replay: String,
        cols: u16,
        rows: u16,
    ) -> (res: Result<(u64, Request), String>)
        requires
            old(self)@.next_ticket < u64::MAX,
        ensures
            res is Ok <==> old(self)@.connected,
            res matches Err(why) ==> why@ == not_connected() && final(self)@ == old(self)@,
            res matches Ok((ticket, ask)) ==> {
                &&& ticket == old(self)@.next_ticket
                &&& final(self)@ == old(self)@.awaiting_creation()
                &&& ask@ == start_request(shell@, opt_text(cwd), replay@, cols, rows)
            },
    {
        self.start(shell, cwd, replay, cols, rows)
    }

    fn start(&mut self, shell: &str, cwd: Option<String>, replay: String, cols: u16, rows: u16) -> (res:
        Result<(u64, Request), String>)
        requires
            old(self)@.next_ticket < u64::MAX,
        ensures
            res is Ok <==> old(self)@.connected,
            res matches Err(why) ==> why@ == not_connected() && final(self)@ == old(self)@,
            res matches Ok((ticket, ask)) ==> {
                &&& ticket == old(self)@.next_ticket
                &&& final(self)@ == old(self)@.awaiting_creation()
                &&& ask@ == start_request(shell@, opt_text(cwd), replay@, cols, rows)
            },
    {
        if !self.connected {
            return Err(copy_text("not connected to the hmux daemon"));
        }
        let ticket = self.next_ticket;
        self.next_ticket = ticket + 1;
        self.created.push(ticket);
        assert(self@ =~= old(self)@.awaiting_creation());
        let replay = if to_chars(replay.as_str()).len() == 0 {
            None
        } else {
            Some(replay)
        };
        Ok(
            (
                ticket,
                Request::Create { shell: Some(copy_text(shell)), cwd, cols, rows, replay },
            ),
        )
    }

    /// Attach to a terminal that the daemon already had, for all it has said so
    /// far.
    pub fn attach(&mut self, id: SessionId) -> (res: Result<(u64, Request), String>)
        requires
            old(self)@.next_ticket < u64::MAX,
        ensures
            res is Ok <==> old(self)@.connected,
            res matches Err(why) ==> why@ == not_connected() && final(self)@ == old(self)@,
            res matches Ok((ticket, ask)) ==> {
                &&& ticket == old(self)@.next_ticket
                &&& final(self)@ == old(self)@.awaiting_replay(id)
                &&& ask@ == (RequestModel::Attach { id, from: 0 })
            },
    {
        if !self.connected {
            return Err(copy_text("not connected to the hmux daemon"));
        }
        let ticket = self.next_ticket;
        self.next_ticket = ticket + 1;
        self.replays.push(Waiter { id, ticket });
        assert(self@ =~= old(self)@.awaiting_replay(id));
        Ok((ticket, Request::Attach { id, from: 0 }))
    }

    /// What the daemon knows about a session. The text is not among it: only
    /// the terminal that drew it knows what it ended up looking like.
    pub fn snapshot_of(&self, id: SessionId) -> (res: Option<Snapshot>)
        ensures
            res is Some <==> self@.connected && find_info(self@.infos, id, 0) is Some,
            res matches Some(s) ==> {
                let info = self@.infos[find_info(self@.infos, id, 0).unwrap()];
                &&& s.shell@ == info.shell
                &&& s.scrollback@ == ""@
                &&& opt_text(s.cwd) == info.cwd
            },
    {
        if !self.connected {
            return None;
        }
        let mut i: usize = 0;
        while i < self.infos.len()
            invariant
                i <= self.infos@.len(),
                self.connected,
                find_info(self@.infos, id, i as int) == find_info(self@.infos, id, 0),
            decreases self.infos@.len() - i,
        {
            assert(self@.infos[i as int] == self.infos@[i as int]@);
            if self.infos[i].id == id {
                return Some(
                    Snapshot {
                        shell: copy_text(self.infos[i].shell.as_str()),
                        scrollback: copy_text(""),
                        cwd: copy_opt(&self.infos[i].cwd),
                    },
                );
            }
            i += 1;
        }
        None
    }

    /// Keystrokes for a terminal.
    pub fn write(&self, id: SessionId, bytes: &[u8]) -> (ask: Option<Request>)
        ensures
            ask is Some <==> self@.connected,
            ask matches Some(r) ==> r@ == (RequestModel::Input { id, data: utf8_lossy(bytes@) }),
            ask matches Some(r) ==> (valid_utf8(bytes@) ==> (r@ matches RequestModel::Input {
                id: i,
                data,
            } && encode_utf8(data) == bytes@)),
    {
        self.write_text(id, decode_lossy(bytes))
    }

    /// Keystrokes for a terminal, as text.
    pub fn write_text(&self, id: SessionId, data: String) -> (ask: Option<Request>)
        ensures
            ask is Some <==> self@.connected,
            ask matches Some(r) ==> r@ == (RequestModel::Input { id, data: data@ }),
    {
        if self.connected {
            Some(Request::Input { id, data })
        } else {
            None
        }
    }

    pub fn resize(&self, id: SessionId, cols: u16, rows: u16) -> (ask: Option<Request>)
        ensures
            ask is Some <==> self@.connected,
            ask matches Some(r) ==> r@ == (RequestModel::Resize { id, cols, rows }),
    {
        if self.connected {
            Some(Request::Resize { id, cols, rows })
        } else {
            None
        }
    }

    pub fn close(&self, id: SessionId) -> (ask: Option<Request>)
        ensures
            ask is Some <==> self@.connected,
            ask matches Some(r) ==> r@ == (RequestModel::Close { id }),
    {
        if self.connected {
            Some(Request::Close { id })
        } else {
            None
        }
    }

    /// Ask what exists. The answer comes as an event; nothing waits for it.
    pub fn poll(&self) -> (ask: Option<Request>)
        ensures
            ask is Some <==> self@.connected,
            ask matches Some(r) ==> r@ is List,
    {
        if self.connected {
            Some(Request::List)
        } else {
            None
        }
    }

    /// The last thing the daemon said the world looks like.
    pub fn info(&self) -> (out: Vec<SessionInfo>)
        ensures
            infos_of(out@) == (if self@.connected {
                self@.infos
            } else {
                Seq::empty()
            }),
    {
        let mut out: Vec<SessionInfo> = Vec::new();
        if self.connected {
            let mut i: usize = 0;
            while i < self.infos.len()
                invariant
                    i <= self.infos@.len(),
                    out@.len() == i,
                    forall|k: int| 0 <= k < i ==> (#[trigger] out@[k])@ == self@.infos[k],
                decreases self.infos@.len() - i,
            {
                out.push(copy_info(&self.infos[i]));
                i += 1;
            }
            assert(infos_of(out@) =~= self@.infos);
        } else {
            assert(infos_of(out@) =~= Seq::empty());
        }
        out
    }

    /// Take in an event, and say to whom it goes.
    pub fn hear(&mut self, event: Event) -> (d: Delivery)
        ensures
            (final(self)@, d@) == old(self)@.heard(event@),
    {
        match event {
            Event::Output { id, seq, data } => Delivery::Output(Chunk { id, data, seq }),
            Event::Exit { id } => Delivery::Exit(id),
            Event::Sessions { sessions } => {
                self.infos = sessions;
                Delivery::Sessions
            },
            Event::Created { id } => match self.created.pop() {
                Some(ticket) => {
                    assert(self@ =~= old(self)@.heard(event@).0);
                    Delivery::Created { ticket, id }
                },
                None => Delivery::Nothing,
            },
            Event::Replay { id, data, seq } => {
                let ghost n = self.replays@.len() as int;
                let mut tickets: Vec<u64> = Vec::new();
                let mut rest: Vec<Waiter> = Vec::new();
                let mut i: usize = 0;
                while i < self.replays.len()
                    invariant
                        i <= self.replays@.len(),
                        tickets@ == tickets_for(self.replays@, id, i as int),
                        rest@ == others(self.replays@, id, i as int),
                        tickets@.len() == 0 ==> rest@ == self.replays@.take(i as int),
                        self == old(self),
                    decreases self.replays@.len() - i,
                {
                    let w = self.replays[i];
                    if w.id == id {
                        tickets.push(w.ticket);
                    } else {
                        rest.push(w);
                        assert(self.replays@.take(i + 1) =~= self.replays@.take(i as int).push(w));
                    }
                    i += 1;
                }
                assert(self.replays@.take(i as int) =~= self.replays@);
                if tickets.len() == 0 {
                    return Delivery::Nothing;
                }
                self.replays = rest;
                Delivery::Replay { tickets, backlog: Backlog { text: data, last_seq: seq } }
            },
            Event::Error { message } => Delivery::Error(message),
        }
    }
}

fn copy_info(i: &SessionInfo) -> (out: SessionInfo)
    ensures
        out@ == i@,
{
    SessionInfo {
        id: i.id,
        title: copy_text(i.title.as_str()),
        shell: copy_text(i.shell.as_str()),
        name: copy_opt(&i.name),
        cwd: copy_opt(&i.cwd),
        cols: i.cols,
        rows: i.rows,
        alive: i.alive,
        busy: i.busy,
        seq: i.seq,
    }
}

// ---- reaching the daemon --------------------------------------------------------

/// What to do next to reach the daemon.
#[derive(Clone, Copy, PartialEq, Eq, Debug, Structural)]
pub enum Dial {
    /// Open both halves, for at most that many milliseconds.
    Open { patience: u64 },
    /// Start a daemon.
    Start,
    /// The daemon answers.
    Reached,
    /// It cannot be reached.
    Failed,
}

/// The step after this one. A short try comes first: a daemon that is up
/// answers at once, and where there is none there is nothing to wait for yet.
pub open spec fn dialled(step: Dial, ok: bool) -> Dial {
    match step {
        Dial::Open { patience } => if ok {
            Dial::Reached
        } else if patience == FIRST_PATIENCE {
            Dial::Start
        } else {
            Dial::Failed
        },
        Dial::Start => if ok {
            Dial::Open { patience: STARTUP_TIMEOUT }
        } else {
            Dial::Failed
        },
        Dial::Reached => Dial::Reached,
        Dial::Failed => Dial::Failed,
    }
}

impl Dial {
    pub fn first() -> (d: Self)
        ensures
            d == (Dial::Open { patience: FIRST_PATIENCE }),
    {
        Dial::Open { patience: FIRST_PATIENCE }
    }

    /// The step after this one, given how this one went.
    pub fn next(self, ok: bool) -> (d: Self)
        ensures
            d == dialled(self, ok),
    {
        match self {
            Dial::Open { patience } => if ok {
                Dial::Reached
            } else if patience == FIRST_PATIENCE {
                Dial::Start
            } else {
                Dial::Failed
            },
            Dial::Start => if ok {
                Dial::Open { patience: STARTUP_TIMEOUT }
            } else {
                Dial::Failed
            },
            Dial::Reached => Dial::Reached,
            Dial::Failed => Dial::Failed,
        }
    }
}

/// Whether to try the pipe again: there are moments without a free instance,
/// and waiting them out is all there is to do.
pub fn try_again(now: u64, deadline: u64) -> (again: bool)
    ensures
        again == (now < deadline),
{
    now < deadline
}

/// The two opening lines: for the events half, and for the requests half.
pub fn introductions(pid: u32) -> (pair: (Request, Request))
    ensures
        pair.0@ == (RequestModel::Hello { role: Role::Events, token: "gui-"@ + decimal(pid as nat) }),
        pair.1@ == (RequestModel::Hello {
            role: Role::Requests,
            token: "gui-"@ + decimal(pid as nat),
        }),
{
    let mut token = copy_text("gui-");
    push_decimal(&mut token, pid as u64);
    let other = copy_text(token.as_str());
    (
        Request::Hello { role: Role::Events, token },
        Request::Hello { role: Role::Requests, token: other },
    )
}

/// What is said when a terminal was not started in time.
pub fn start_timed_out() -> (why: String)
    ensures
        why@ == "the daemon did not start a shell"@,
{
    copy_text("the daemon did not start a shell")
}

/// What is said when the history of a terminal did not come in time.
pub fn history_timed_out(id: SessionId) -> (why: String)
    ensures
        why@ == "the daemon did not send terminal "@ + decimal(id as nat) + "'s history"@,
{
    let mut why = copy_text("the daemon did not send terminal ");
    push_decimal(&mut why, id as u64);
    why.push_str("'s history");
    why
}

/// What is said when the daemon has gone away.
pub fn lost_connection() -> (why: String)
    ensures
        why@ == "lost the connection to the hmux daemon"@,
{
    copy_text("lost the connection to the hmux daemon")
}

// ---- laws -----------------------------------------------------------------------

proof fn lemma_none_left(waiters: Seq<Waiter>, id: SessionId, n: int)
    requires
        0 <= n <= waiters.len(),
    ensures
        tickets_for(others(waiters, id, n), id, others(waiters, id, n).len() as int).len() == 0,
        others(waiters, id, n).len() + tickets_for(waiters, id, n).len() == n,
    decreases n,
{
    if n > 0 {
        lemma_none_left(waiters, id, n - 1);
        let before = others(waiters, id, n - 1);
        if waiters[n - 1].id != id {
            let after = before.push(waiters[n - 1]);
            lemma_tickets_prefix(before, waiters[n - 1], id, before.len() as int);
            assert(after[after.len() - 1] == waiters[n - 1]);
        }
    }
}

proof fn lemma_tickets_prefix(waiters: Seq<Waiter>, w: Waiter, id: SessionId, n: int)
    requires
        0 <= n <= waiters.len(),
    ensures
        tickets_for(waiters.push(w), id, n) == tickets_for(waiters, id, n),
    decreases n,
{
    if n > 0 {
        lemma_tickets_prefix(waiters, w, id, n - 1);
        assert(waiters.push(w)[n - 1] == waiters[n - 1]);
    }
}

/// A history answers everybody who waits for it, and nobody else: afterwards
/// nobody waits for it, and all the others still wait.
pub proof fn law_a_replay_answers_all_who_wait(
    s: SessionsModel,
    id: SessionId,
    data: Seq<char>,
    seq: u64,
)
    ensures
        ({
            let (after, d) = s.heard(EventModel::Replay { id, data, seq });
            let n = s.replays.len() as int;
            &&& tickets_for(after.replays, id, after.replays.len() as int).len() == 0
            &&& after.replays.len() + tickets_for(s.replays, id, n).len() == n
            &&& after.created == s.created
            &&& after.infos == s.infos
        }),
{
    let n = s.replays.len() as int;
    lemma_none_left(s.replays, id, n);
    if tickets_for(s.replays, id, n).len() == 0 {
        assert(others(s.replays, id, n).len() == n);
    }
}

/// Whoever asked last for a terminal gets the next one that is created.
pub proof fn law_a_creation_answers_the_last_asker(s: SessionsModel, id: SessionId)
    ensures
        s.awaiting_creation().heard(EventModel::Created { id }).1 == (DeliveryModel::Created {
            ticket: s.next_ticket,
            id,
        }),
        s.awaiting_creation().heard(EventModel::Created { id }).0.created == s.created,
{
    assert(s.created.push(s.next_ticket).drop_last() =~= s.created);
}

/// Dialling ends, whatever happens: after three steps it has succeeded or
/// failed.
pub proof fn law_dialling_ends(a: bool, b: bool, c: bool)
    ensures
        ({
            let first = Dial::Open { patience: FIRST_PATIENCE };
            let end = dialled(dialled(dialled(first, a), b), c);
            end is Reached || end is Failed
        }),
{
}

/// A terminal is found in the list by its id.
pub proof fn law_listed_terminals_are_found(infos: Seq<InfoModel>, id: SessionId, i: int)
    requires
        0 <= i <= infos.len(),
    ensures
        find_info(infos, id, i) matches Some(k) ==> i <= k < infos.len() && infos[k].id == id
            && forall|j: int| i <= j < k ==> (#[trigger] infos[j]).id != id,
        find_info(infos, id, i) is None ==> forall|j: int|
            i <= j < infos.len() ==> (#[trigger] infos[j]).id != id,
    decreases infos.len() - i,
{
    if i < infos.len() {
        law_listed_terminals_are_found(infos, id, i + 1);
    }
}

/// Those who wait for a terminal are told, each of them, and nobody else is; the
/// others go on waiting.
pub proof fn law_waiters_get_their_own(waiters: Seq<Waiter>, id: SessionId, n: int, w: Waiter)
    requires
        0 <= n <= waiters.len(),
    ensures
        tickets_for(waiters, id, n).contains(w.ticket) <==> exists|k: int|
            0 <= k < n && (#[trigger] waiters[k]).id == id && waiters[k].ticket == w.ticket,
        others(waiters, id, n).contains(w) <==> w.id != id && exists|k: int|
            0 <= k < n && (#[trigger] waiters[k]) == w,
        tickets_for(waiters, id, n).len() + others(waiters, id, n).len() == n,
    decreases n,
{
    if n > 0 {
        law_waiters_get_their_own(waiters, id, n - 1, w);
        let last = waiters[n - 1];
        let t0 = tickets_for(waiters, id, n - 1);
        let t1 = tickets_for(waiters, id, n);
        let o0 = others(waiters, id, n - 1);
        let o1 = others(waiters, id, n);
        if t0.contains(w.ticket) {
            let i = choose|i: int| 0 <= i < t0.len() && t0[i] == w.ticket;
            assert(t1[i] == w.ticket);
        }
        if o0.contains(w) {
            let i = choose|i: int| 0 <= i < o0.len() && o0[i] == w;
            assert(o1[i] == w);
        }
        if last.id == id {
            assert(t1[t1.len() - 1] == last.ticket);
        } else {
            assert(o1[o1.len() - 1] == last);
        }
        if t1.contains(w.ticket) && !t0.contains(w.ticket) {
            let i = choose|i: int| 0 <= i < t1.len() && t1[i] == w.ticket;
            if i < t0.len() {
                assert(t0[i] == w.ticket);
            }
            assert(waiters[n - 1].id == id && waiters[n - 1].ticket == w.ticket);
        }
        if o1.contains(w) && !o0.contains(w) {
            let i = choose|i: int| 0 <= i < o1.len() && o1[i] == w;
            if i < o0.len() {
                assert(o0[i] == w);
            }
            assert(waiters[n - 1] == w);
        }
    }
}

/// What the daemon says is passed on as it is: output to its terminal under its
/// number, the end of a child, an error, a history to those who wait for it. A
/// list replaces the one before, and nothing else does.
pub proof fn law_events_are_passed_on(
    s: SessionsModel,
    id: SessionId,
    seq: u64,
    data: Seq<char>,
    sessions: Seq<InfoModel>,
)
    ensures
        s.heard(EventModel::Output { id, seq, data }) == (
            s,
            DeliveryModel::Output { id, data, seq },
        ),
        s.heard(EventModel::Exit { id }) == (s, DeliveryModel::Exit(id)),
        s.heard(EventModel::Error { message: data }) == (s, DeliveryModel::Error(data)),
        s.heard(EventModel::Sessions { sessions }) == (
            SessionsModel { infos: sessions, ..s },
            DeliveryModel::Sessions,
        ),
        s.heard(EventModel::Replay { id, data, seq }).1 matches DeliveryModel::Replay {
            tickets,
            text,
            last_seq,
        } ==> text == data && last_seq == seq && tickets == tickets_for(
            s.replays,
            id,
            s.replays.len() as int,
        ),
        s.created.len() == 0 ==> s.heard(EventModel::Created { id }) == (s, DeliveryModel::Nothing),
{
}

/// Whoever asks for the history of a terminal gets it when it comes, under the
/// ticket that they were given, and tickets are never given twice.
pub proof fn law_a_history_reaches_its_asker(
    s: SessionsModel,
    id: SessionId,
    seq: u64,
    data: Seq<char>,
)
    requires
        s.next_ticket < u64::MAX,
    ensures
        ({
            let asked = s.awaiting_replay(id);
            &&& asked.next_ticket == s.next_ticket + 1
            &&& asked.created == s.created && asked.infos == s.infos
            &&& s.awaiting_creation().next_ticket == s.next_ticket + 1
            &&& asked.heard(EventModel::Replay { id, data, seq }).1
                matches DeliveryModel::Replay { tickets, text, last_seq } && tickets.contains(
                s.next_ticket,
            ) && text == data && last_seq == seq
        }),
{
    let asked = s.awaiting_replay(id);
    let n = asked.replays.len() as int;
    let t = tickets_for(asked.replays, id, n);
    assert(t[t.len() - 1] == s.next_ticket);
}

/// A terminal is asked for with everything that was chosen: its shell, its
/// directory, its size, and the text it is to show, where there is any.
pub proof fn law_a_start_asks_for_what_was_chosen(
    shell: Seq<char>,
    cwd: Option<Seq<char>>,
    replay: Seq<char>,
    cols: u16,
    rows: u16,
)
    ensures
        start_request(shell, cwd, replay, cols, rows) matches RequestModel::Create {
            shell: s,
            cwd: d,
            cols: w,
            rows: h,
            replay: t,
        } && s == Some(shell) && d == cwd && w == cols && h == rows && (replay.len() > 0 ==> t
            == Some(replay)) && (replay.len() == 0 ==> t is None),
{
}

/// A daemon that answers is reached at once. One that does not is started, once,
/// and tried once more with patience; nothing else is reached.
pub proof fn law_a_daemon_is_started_once()
    ensures
        ({
            let first = Dial::Open { patience: 400 };
            let second = Dial::Open { patience: 10000 };
            &&& dialled(first, true) is Reached
            &&& dialled(first, false) is Start
            &&& dialled(Dial::Start, true) == second
            &&& dialled(Dial::Start, false) is Failed
            &&& dialled(second, true) is Reached
            &&& dialled(second, false) is Failed
        }),
{
}

/// Those who wait for a terminal are told in the order they came, and the others
/// keep theirs.
pub proof fn law_waiters_keep_their_order(waiters: Seq<Waiter>, id: SessionId, n: int)
    requires
        0 <= n <= waiters.len(),
    ensures
        tickets_for(waiters, id, n) == waiters.take(n).filter(|w: Waiter| w.id == id).map_values(
            |w: Waiter| w.ticket,
        ),
        others(waiters, id, n) == waiters.take(n).filter(|w: Waiter| w.id != id),
    decreases n,
{
    reveal(Seq::filter);
    if n > 0 {
        law_waiters_keep_their_order(waiters, id, n - 1);
        assert(waiters.take(n).drop_last() =~= waiters.take(n - 1));
        assert(waiters.take(n).last() == waiters[n - 1]);
        assert(tickets_for(waiters, id, n) =~= waiters.take(n).filter(
            |w: Waiter| w.id == id,
        ).map_values(|w: Waiter| w.ticket));
    } else {
        assert(tickets_for(waiters, id, n) =~= waiters.take(n).filter(
            |w: Waiter| w.id == id,
        ).map_values(|w: Waiter| w.ticket));
    }
}

/// A history that nobody waits for goes nowhere, and one that somebody waits for
/// is theirs: those who wait for it are told, and go on waiting no longer.
pub proof fn law_a_history_goes_to_its_waiters(
    s: SessionsModel,
    id: SessionId,
    data: Seq<char>,
    seq: u64,
)
    ensures
        ({
            let (after, d) = s.heard(EventModel::Replay { id, data, seq });
            let mine = s.replays.filter(|w: Waiter| w.id == id);
            &&& mine.len() == 0 ==> after == s && d is Nothing
            &&& mine.len() > 0 ==> d == (DeliveryModel::Replay {
                tickets: mine.map_values(|w: Waiter| w.ticket),
                text: data,
                last_seq: seq,
            }) && after.replays == s.replays.filter(|w: Waiter| w.id != id)
        }),
{
    let n = s.replays.len() as int;
    law_waiters_keep_their_order(s.replays, id, n);
    assert(s.replays.take(n) =~= s.replays);
}

/// The model of a delivery shows all that is delivered.
pub proof fn law_a_delivery_shows_all(d: Delivery)
    ensures
        d matches Delivery::Output(c) ==> d@ == (DeliveryModel::Output {
            id: c.id,
            data: c.data@,
            seq: c.seq,
        }),
        d matches Delivery::Exit(id) ==> d@ == DeliveryModel::Exit(id),
        d matches Delivery::Created { ticket, id } ==> d@ == (DeliveryModel::Created {
            ticket,
            id,
        }),
        d matches Delivery::Replay { tickets, backlog } ==> d@ == (DeliveryModel::Replay {
            tickets: tickets@,
            text: backlog.text@,
            last_seq: backlog.last_seq,
        }),
        d matches Delivery::Error(m) ==> d@ == DeliveryModel::Error(m@),
        d is Nothing <==> d@ is Nothing,
        d is Sessions <==> d@ is Sessions,
{
}

} // verus!
