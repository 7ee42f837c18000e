//! What holds of the daemon's terminals and clients.
use super::{
    find_client, find_session, without, ClientModel, LaunchModel, OutcomeModel, RegistryModel, SessionModel,
};
use crate::proto::{EventModel, RequestModel, SessionId};
use vstd::prelude::*;

verus! {

/// A token that is not found is the token of nobody.
pub proof fn lemma_no_client(clients: Seq<ClientModel>, token: Seq<char>, i: int)
    requires
        0 <= i <= clients.len(),
        find_client(clients, token, i) is None,
    ensures
        forall|k: int| i <= k < clients.len() ==> (#[trigger] clients[k]).token != token,
    decreases clients.len() - i,
{
    if i < clients.len() {
        lemma_no_client(clients, token, i + 1);
    }
}

proof fn lemma_found(sessions: Seq<SessionModel>, id: SessionId, i: int)
    requires
        0 <= i <= sessions.len(),
    ensures
        find_session(sessions, id, i) matches Some(k) ==> i <= k < sessions.len()
            && sessions[k].id == id,
        find_session(sessions, id, i) is None ==> forall|k: int|
            i <= k < sessions.len() ==> (#[trigger] sessions[k]).id != id,
    decreases sessions.len() - i,
{
    if i < sessions.len() {
        lemma_found(sessions, id, i + 1);
    }
}

proof fn lemma_not_there(sessions: Seq<SessionModel>, id: SessionId, i: int)
    requires
        0 <= i,
        forall|k: int| i <= k < sessions.len() ==> (#[trigger] sessions[k]).id != id,
    ensures
        find_session(sessions, id, i) is None,
    decreases sessions.len() - i,
{
    if i < sessions.len() {
        lemma_not_there(sessions, id, i + 1);
    }
}

/// The id of a new terminal is one that no terminal has or ever had.
pub proof fn law_ids_are_not_reused(
    r: RegistryModel,
    token: Seq<char>,
    l: LaunchModel,
    pid: Option<u32>,
    now: u64,
)
    requires
        r.wf(),
        r.next_session < SessionId::MAX,
    ensures
        r.registered(token, l, pid, now).next_session == r.next_session + 1,
        find_session(r.sessions, r.registered(token, l, pid, now).next_session, 0) is None,
        find_session(
            r.registered(token, l, pid, now).sessions,
            r.registered(token, l, pid, now).next_session,
            0,
        ) is Some,
{
    let id = (r.next_session + 1) as SessionId;
    let after = r.registered(token, l, pid, now);
    lemma_not_there(r.sessions, id, 0);
    lemma_found(after.sessions, id, 0);
    assert(after.sessions[r.sessions.len() as int].id == id);
}

/// The numbers given out only ever go up, whatever is asked.
pub proof fn law_ids_only_go_up(
    r: RegistryModel,
    token: Seq<char>,
    req: RequestModel,
    comspec: Option<Seq<char>>,
    now: u64,
)
    ensures
        r.handled(token, req, comspec, now).0.next_session == r.next_session,
{
}

/// A terminal that was closed is gone: a client that comes back for it gets an
/// error, and no terminal started later takes its place.
pub proof fn law_stale_ids_find_nothing(
    r: RegistryModel,
    id: SessionId,
    token: Seq<char>,
    l: LaunchModel,
    pid: Option<u32>,
    from: u64,
    comspec: Option<Seq<char>>,
    now: u64,
)
    requires
        r.wf(),
        1 <= id <= r.next_session < SessionId::MAX,
    ensures
        ({
            let gone = r.forgotten(id, now);
            let later = gone.registered(token, l, pid, now);
            let ask = RequestModel::Attach { id, from };
            let refused = OutcomeModel::Send(
                EventModel::Error { message: super::no_terminal(id) },
            );
            &&& gone.handled(token, ask, comspec, now) == (gone, refused)
            &&& later.handled(token, ask, comspec, now) == (later, refused)
        }),
{
    let gone = r.forgotten(id, now);
    lemma_found(r.sessions, id, 0);
    assert forall|k: int| 0 <= k < gone.sessions.len() implies (#[trigger] gone.sessions[k]).id
        != id by {
        match find_session(r.sessions, id, 0) {
            Some(i) => {
                if k < i {
                    assert(gone.sessions[k] == r.sessions[k]);
                    assert(r.sessions[k].id < r.sessions[i].id);
                } else {
                    assert(gone.sessions[k] == r.sessions[k + 1]);
                    assert(r.sessions[i].id < r.sessions[k + 1].id);
                }
            },
            None => {},
        }
    }
    lemma_not_there(gone.sessions, id, 0);
    let later = gone.registered(token, l, pid, now);
    assert forall|k: int| 0 <= k < later.sessions.len() implies (#[trigger] later.sessions[k]).id
        != id by {
        if k < gone.sessions.len() {
            assert(later.sessions[k] == gone.sessions[k]);
        }
    }
    lemma_not_there(later.sessions, id, 0);
}

/// A window that goes away ends nothing: every terminal stays as it is.
pub proof fn law_leaving_ends_no_terminal(r: RegistryModel, token: Seq<char>, now: u64)
    ensures
        r.dropped(token, now).sessions == r.sessions,
        r.dropped(token, now).next_session == r.next_session,
{
}

/// Only a close takes a terminal away.
pub proof fn law_only_a_close_takes_away(
    r: RegistryModel,
    token: Seq<char>,
    req: RequestModel,
    comspec: Option<Seq<char>>,
    now: u64,
    k: int,
)
    requires
        r.wf(),
        !(req is Close),
        0 <= k < r.sessions.len(),
    ensures
        r.handled(token, req, comspec, now).0.sessions.len() == r.sessions.len(),
        ({
            let before = r.sessions[k];
            let after = r.handled(token, req, comspec, now).0.sessions[k];
            &&& after.id == before.id
            &&& after.alive == before.alive
            &&& after.backlog == before.backlog
            &&& after.shell == before.shell
            &&& after.pid == before.pid
        }),
{
    match req {
        RequestModel::Resize { id, cols, rows } => lemma_found(r.sessions, id, 0),
        RequestModel::Rename { id, name } => lemma_found(r.sessions, id, 0),
        _ => {},
    }
}

proof fn lemma_found_client(clients: Seq<ClientModel>, token: Seq<char>, i: int)
    requires
        0 <= i <= clients.len(),
    ensures
        find_client(clients, token, i) matches Some(k) ==> i <= k < clients.len()
            && clients[k].token == token,
    decreases clients.len() - i,
{
    if i < clients.len() {
        lemma_found_client(clients, token, i + 1);
    }
}

/// The client that asked for a terminal watches it from the start.
pub proof fn law_the_asker_watches(
    r: RegistryModel,
    token: Seq<char>,
    l: LaunchModel,
    pid: Option<u32>,
    now: u64,
    i: int,
)
    requires
        find_client(r.clients, token, 0) == Some(i),
    ensures
        r.registered(token, l, pid, now).clients[i].attached.contains(
            r.registered(token, l, pid, now).next_session,
        ),
{
    let after = r.registered(token, l, pid, now);
    lemma_found_client(r.clients, token, 0);
    let id = (r.next_session + 1) as SessionId;
    assert(after.clients[i].attached.last() == id);
}

/// An attach leaves no gap and repeats nothing: the client gets all that came
/// after the chunk it has, is watching from then on, and the next output carries
/// the number after the one that its replay reaches.
pub proof fn law_an_attach_leaves_no_gap(
    r: RegistryModel,
    token: Seq<char>,
    id: SessionId,
    from: u64,
    comspec: Option<Seq<char>>,
    now: u64,
    text: Seq<char>,
    i: int,
    k: int,
)
    requires
        r.wf(),
        find_session(r.sessions, id, 0) == Some(i),
        find_client(r.clients, token, 0) == Some(k),
        r.sessions[i].backlog.last_seq < u64::MAX,
    ensures
        ({
            let s = r.sessions[i];
            let (after, out) = r.handled(token, RequestModel::Attach { id, from }, comspec, now);
            &&& out == OutcomeModel::Send(
                EventModel::Replay { id, data: s.backlog.since(from), seq: s.backlog.last_seq },
            )
            &&& after.clients[k].attached.contains(id)
            &&& after.sessions == r.sessions
            &&& s.heard(text, now).backlog.last_seq == s.backlog.last_seq + 1
        }),
{
    lemma_found_client(r.clients, token, 0);
    let before = r.clients[k].attached;
    if !before.contains(id) {
        let after = before.push(id);
        assert(after[before.len() as int] == id);
    }
}

proof fn lemma_without(v: Seq<SessionId>, id: SessionId)
    ensures
        !without(v, id).contains(id),
        forall|x: SessionId| x != id ==> (#[trigger] without(v, id).contains(x) <==> v.contains(x)),
    decreases v.len(),
{
    if v.len() > 0 {
        let rest = v.skip(1);
        lemma_without(rest, id);
        let w = without(v, id);
        let tail = without(rest, id);
        assert forall|x: SessionId| v.contains(x) <==> (x == v[0] || rest.contains(x)) by {
            if v.contains(x) {
                let k = choose|k: int| 0 <= k < v.len() && v[k] == x;
                if k > 0 {
                    assert(rest[k - 1] == x);
                }
            }
            if rest.contains(x) {
                let k = choose|k: int| 0 <= k < rest.len() && rest[k] == x;
                assert(v[k + 1] == x);
            }
            assert(v[0] == v[0]);
        }
        if v[0] != id {
            assert forall|x: SessionId| w.contains(x) <==> (x == v[0] || tail.contains(x)) by {
                if w.contains(x) {
                    let k = choose|k: int| 0 <= k < w.len() && w[k] == x;
                    if k > 0 {
                        assert(tail[k - 1] == x);
                    }
                }
                if tail.contains(x) {
                    let k = choose|k: int| 0 <= k < tail.len() && tail[k] == x;
                    assert(w[k + 1] == x);
                }
                assert(w[0] == v[0]);
            }
        }
    }
}

/// Nobody watches a terminal that was closed, and everybody goes on watching
/// what they watched besides.
pub proof fn law_closing_ends_the_watching(r: RegistryModel, id: SessionId, now: u64, k: int)
    requires
        0 <= k < r.clients.len(),
    ensures
        !r.forgotten(id, now).clients[k].attached.contains(id),
        forall|x: SessionId|
            x != id ==> (#[trigger] r.forgotten(id, now).clients[k].attached.contains(x)
                <==> r.clients[k].attached.contains(x)),
{
    lemma_without(r.clients[k].attached, id);
}

proof fn lemma_watchers(r: RegistryModel, id: SessionId, n: int, token: Seq<char>)
    requires
        0 <= n <= r.clients.len(),
    ensures
        r.watchers(id, n).contains(token) <==> exists|k: int|
            0 <= k < n && (#[trigger] r.clients[k]).token == token
                && r.clients[k].attached.contains(id),
    decreases n,
{
    if n > 0 {
        lemma_watchers(r, id, n - 1, token);
        let before = r.watchers(id, n - 1);
        let c = r.clients[n - 1];
        if c.attached.contains(id) {
            let w = before.push(c.token);
            assert(w.contains(token) <==> before.contains(token) || c.token == token) by {
                if w.contains(token) {
                    let k = choose|k: int| 0 <= k < w.len() && w[k] == token;
                    if k < before.len() {
                        assert(before[k] == token);
                    }
                }
                if before.contains(token) {
                    let k = choose|k: int| 0 <= k < before.len() && before[k] == token;
                    assert(w[k] == token);
                }
                assert(w[before.len() as int] == c.token);
            }
            assert(c == r.clients[n - 1]);
        }
    }
}

/// Output goes to those who asked for it, and to nobody else.
pub proof fn law_output_goes_to_the_watchers(r: RegistryModel, id: SessionId, token: Seq<char>)
    ensures
        r.watchers(id, r.clients.len() as int).contains(token) <==> exists|k: int|
            0 <= k < r.clients.len() && (#[trigger] r.clients[k]).token == token
                && r.clients[k].attached.contains(id),
{
    lemma_watchers(r, id, r.clients.len() as int, token);
}

/// The end of a child is news once.
pub proof fn law_an_end_is_told_once(r: RegistryModel, id: SessionId)
    requires
        r.wf(),
    ensures
        find_session(r.exited(id).sessions, id, 0) matches Some(i)
            ==> !r.exited(id).sessions[i].alive,
        r.exited(id).exited(id) == r.exited(id),
{
    lemma_found(r.sessions, id, 0);
    let after = r.exited(id);
    lemma_found(after.sessions, id, 0);
    if let Some(i) = find_session(r.sessions, id, 0) {
        assert(after.sessions[i].id == id);
        match find_session(after.sessions, id, 0) {
            Some(j) => {
                if j != i {
                    assert(r.sessions[j].id == id);
                    if j < i {
                        assert(r.sessions[j].id < r.sessions[i].id);
                    } else {
                        assert(r.sessions[i].id < r.sessions[j].id);
                    }
                }
            },
            None => {},
        }
        assert(after.exited(id) =~= after);
    }
}

/// The daemon does not leave while a client is connected, and a client that
/// comes keeps it from leaving.
pub proof fn law_no_leaving_under_a_client(r: RegistryModel, token: Seq<char>, now: u64)
    ensures
        r.clients.len() > 0 ==> !r.may_exit(now),
        !r.ensured(token).may_exit(now),
{
}

/// One connection at a time carries the events of a client.
pub proof fn law_events_are_claimed_once(r: RegistryModel, token: Seq<char>)
    requires
        r.wf(),
    ensures
        !r.claimed(token).can_claim(token),
{
    let after = r.claimed(token);
    lemma_found_client(r.clients, token, 0);
    lemma_found_client(after.clients, token, 0);
    if let Some(i) = find_client(r.clients, token, 0) {
        if let Some(j) = find_client(after.clients, token, 0) {
            if i != j {
                assert(r.clients[j].token == token);
                if i < j {
                    assert(r.clients[i].token != r.clients[j].token);
                } else {
                    assert(r.clients[j].token != r.clients[i].token);
                }
            }
        }
    }
}

} // verus!
