use hmux::activity::{Entry, ProcessTable};
use hmux::daemon::backlog::Backlog;
use hmux::daemon::serve::{is_blank, no_daemon, opening, second_events, summarise, unreadable, Accept, Server};
use hmux::daemon::stream::Carry;
use hmux::daemon::{default_program, Drained, Launch, Outcome, Registry};
use hmux::vt::VtEvent;
use hmux::proto::{legacy_pipe_name, pipe_name, pipe_user, Event, Request, Role};

fn launch(replay: Option<&str>) -> Launch {
    Launch {
        shell: r"C:\Windows\cmd.exe".to_string(),
        cwd: None,
        cols: 10,
        rows: 4,
        replay: replay.map(|s| s.to_string()),
    }
}

fn started(r: &mut Registry, client: &str, replay: Option<&str>) -> u32 {
    match r.launched(client, launch(replay), Ok(Some(100)), 1000) {
        Event::Created { id } => id,
        other => panic!("{other:?}"),
    }
}

fn replay_of(r: &mut Registry, client: &str, id: u32, from: u64) -> (String, u64) {
    match r.handle(client, Request::Attach { id, from }, &None, 0) {
        Outcome::Send(Event::Replay { id: got, data, seq }) => {
            assert_eq!(got, id);
            (data, seq)
        }
        _ => panic!("no replay"),
    }
}

#[test]
fn the_pipe_name_is_per_user_and_a_legal_pipe_path() {
    let name = pipe_name(Some(r"CORP\jane doe"));
    assert!(name.starts_with(r"\\.\pipe\hmux-"));
    // A pipe path cannot contain a backslash past the prefix, and a
    // username can.
    assert!(!name[r"\\.\pipe\".len()..].contains('\\'));
    assert_eq!(name, r"\\.\pipe\hmux-CORP_jane_doe");
    assert_eq!(legacy_pipe_name(Some("é1")), r"\\.\pipe\mux-_1");
    assert_eq!(pipe_name(None), r"\\.\pipe\hmux-default");
    assert_eq!(pipe_user(Some("")), "");
}

#[test]
fn a_backlog_replays_only_what_came_after_the_asked_for_point() {
    let mut backlog = Backlog::new(1000);
    for (seq, text) in [(1u64, "one"), (2, "two"), (3, "three")] {
        assert_eq!(backlog.push(text.to_string()), seq);
    }
    assert_eq!(backlog.replay_from(1), "twothree");
    assert_eq!(backlog.replay_from(0), "onetwothree");
    assert_eq!(backlog.replay_from(3), "");
}

#[test]
fn the_backlog_drops_from_the_front_when_it_is_full() {
    let mut kept = Backlog::new(500);
    for _ in 1..=10u64 {
        kept.push("x".repeat(100));
    }
    assert_eq!(kept.first_seq(), Some(6));
    assert_eq!(kept.last_seq(), 10);
    assert_eq!(kept.replay_from(0).len(), 500);
}

#[test]
fn a_chunk_over_the_limit_is_not_kept() {
    let mut kept = Backlog::new(5);
    kept.push("abc".to_string());
    assert_eq!(kept.push("é".repeat(3)), 2);
    assert_eq!(kept.first_seq(), None);
    assert_eq!(kept.replay_from(0), "");
    assert_eq!(kept.push("héé".to_string()), 3);
    assert_eq!(kept.replay_from(2), "héé");
}

#[test]
fn a_character_may_straddle_a_read() {
    let bytes = "aé日🦀z".as_bytes();
    for split in 0..=bytes.len() {
        let mut carry = Carry::new();
        let mut text = carry.take_in(&bytes[..split]);
        text.push_str(&carry.take_in(&bytes[split..]));
        assert_eq!(text, "aé日🦀z");
        assert!(carry.bytes.is_empty());
    }
    let mut carry = Carry::new();
    let mut text = String::new();
    for b in bytes {
        text.push_str(&carry.take_in(&[*b]));
        assert!(carry.bytes.len() <= 3);
    }
    assert_eq!(text, "aé日🦀z");
}

#[test]
fn one_bad_byte_does_not_wedge_the_stream() {
    let mut carry = Carry::new();
    assert_eq!(carry.take_in(b"ab\xffcd"), "ab");
    assert_eq!(carry.bytes, b"\xffcd");
    assert_eq!(carry.take_in(b"efgh"), "");
    assert_eq!(carry.bytes.len(), 7);
    assert_eq!(carry.take_in(b"ij"), "");
    assert!(carry.bytes.is_empty());
    assert_eq!(carry.take_in(b"k"), "k");
}

#[test]
fn the_text_that_is_complete_is_what_the_standard_library_says() {
    for bytes in [&b"\xed\xa0\x80"[..], b"\xc0\x80", b"\xf4\x90\x80\x80", b"a\xe6\x97", b"\xf0\x9f\xa6\x80x\x80", b""] {
        let good = match std::str::from_utf8(bytes) {
            Ok(s) => s.len(),
            Err(e) => e.valid_up_to(),
        };
        assert_eq!(hmux::utf8::valid_len(&bytes.to_vec()), good);
    }
}

#[test]
fn terminals_outlive_their_windows() {
    let mut r = Registry::new();
    r.ensure_client("gui-1");
    let id = started(&mut r, "gui-1", None);
    r.drop_client("gui-1", 2000);
    assert_eq!(r.sessions.len(), 1);
    assert!(r.empty_since.is_none());
    // A new window finds it.
    r.ensure_client("gui-2");
    assert_eq!(replay_of(&mut r, "gui-2", id, 0), (String::new(), 0));
    assert_eq!(r.watchers(id), ["gui-2"]);
}

#[test]
fn ids_are_not_given_out_twice() {
    let mut r = Registry::new();
    let a = started(&mut r, "x", None);
    let b = started(&mut r, "x", None);
    assert_eq!((a, b), (1, 2));
    assert!(matches!(
        r.handle("x", Request::Close { id: b }, &None, 0),
        Outcome::Forgotten { kill: Some(2) }
    ));
    let c = started(&mut r, "x", None);
    assert_eq!(c, 3);
    match r.handle("x", Request::Attach { id: b, from: 0 }, &None, 0) {
        Outcome::Send(Event::Error { message }) => assert_eq!(message, "no terminal 2"),
        _ => panic!("a stale id was answered"),
    }
    assert!(matches!(
        r.handle("x", Request::Close { id: 77 }, &None, 0),
        Outcome::Forgotten { kill: None }
    ));
}

#[test]
fn a_failed_start_is_told_and_leaves_no_trace() {
    let mut r = Registry::new();
    match r.launched("x", launch(None), Err("failed to start cmd".to_string()), 5) {
        Event::Error { message } => assert_eq!(message, "failed to start cmd"),
        other => panic!("{other:?}"),
    }
    assert!(r.sessions.is_empty());
    assert_eq!(r.next_session, 0);
}

#[test]
fn a_restored_terminal_replays_its_past_first() {
    let mut r = Registry::new();
    let id = started(&mut r, "x", Some("old output"));
    assert_eq!(replay_of(&mut r, "x", id, 0), ("old output".to_string(), 1));
    assert_eq!(r.sessions[0].title, "cmd");
}

#[test]
fn output_is_answered_kept_and_sent_to_those_who_watch() {
    let mut r = Registry::new();
    r.ensure_client("a");
    r.ensure_client("b");
    let id = started(&mut r, "a", None);
    assert_eq!(r.watchers(id), ["a"]);
    assert_eq!(r.everybody(), ["a", "b"]);
    let mut parser: vte::Parser = vte::Parser::new();
    let mut carry = Carry::new();
    match r.output(id, &mut parser, &mut carry, "hi\x1b[6n\u{65e5}".as_bytes(), 1000) {
        Drained::Read { reply, event: Some(Event::Output { id: got, seq, data }) } => {
            assert_eq!(reply, b"\x1b[1;3R");
            assert_eq!((got, seq), (id, 1));
            assert_eq!(data, "hi\x1b[6n日");
        }
        _ => panic!("nothing was read"),
    }
    // Within the grace period this was a banner, after it it is work.
    assert_eq!(r.sessions[0].last_output, 1000);
    assert!(matches!(
        r.output(id, &mut parser, &mut carry, b"x", 1349),
        Drained::Read { .. }
    ));
    assert_eq!(r.sessions[0].last_output, 1000);
    assert!(matches!(
        r.output(id, &mut parser, &mut carry, b"y", 1350),
        Drained::Read { .. }
    ));
    assert_eq!(r.sessions[0].last_output, 1350);
    // Half a character is held back, and nothing is sent.
    assert!(matches!(
        r.output(id, &mut parser, &mut carry, b"\xe6\x97", 1400),
        Drained::Read { event: None, .. }
    ));
    assert_eq!(replay_of(&mut r, "b", id, 1), ("xy".to_string(), 3));
    assert_eq!(r.watchers(id), ["a", "b"]);
    match r.output(99, &mut parser, &mut carry, b"z\x1b[6n", 0) {
        Drained::Gone { reply } => assert!(reply.is_empty()),
        _ => panic!("nobody was to be read"),
    }
}

#[test]
fn a_closed_session_is_answered_until_it_says_something() {
    let mut r = Registry::new();
    let id = started(&mut r, "a", None);
    let mut parser: vte::Parser = vte::Parser::new();
    let mut carry = Carry::new();
    assert!(matches!(
        r.output(id, &mut parser, &mut carry, b"hi", 0),
        Drained::Read { event: Some(_), .. }
    ));
    assert!(matches!(
        r.handle("a", Request::Close { id }, &None, 5),
        Outcome::Forgotten { kill: Some(_) }
    ));
    assert!(r.sessions.is_empty());
    assert_eq!(r.leftovers.len(), 1);
    // Half a character is no text yet: the reading goes on.
    assert!(matches!(
        r.output(id, &mut parser, &mut carry, b"\xe6", 6),
        Drained::Read { event: None, .. }
    ));
    assert_eq!(r.leftovers.len(), 1);
    match r.output(id, &mut parser, &mut carry, b"\x97\xa5\x1b[6n", 7) {
        Drained::Gone { reply } => assert_eq!(reply, b"\x1b[1;5R"),
        _ => panic!("there was nobody left to send it to"),
    }
    assert!(r.leftovers.is_empty());
    assert!(carry.bytes.is_empty());
}

#[test]
fn the_screen_of_a_closed_session_goes_with_its_reader() {
    let mut r = Registry::new();
    let id = started(&mut r, "a", None);
    let other = started(&mut r, "a", None);
    r.reader_ended(id);
    assert_eq!(r.sessions.len(), 2);
    r.handle("a", Request::Close { id }, &None, 5);
    r.reader_ended(other);
    assert_eq!(r.leftovers.len(), 1);
    r.reader_ended(id);
    assert!(r.leftovers.is_empty());
    assert_eq!(r.sessions.len(), 1);
}

#[test]
fn what_the_daemon_cannot_draw_is_reported() {
    let mut r = Registry::new();
    let id = match r.launched(
        "x",
        Launch { shell: "a".to_string(), cwd: None, cols: 1, rows: 1, replay: None },
        Ok(None),
        0,
    ) {
        Event::Created { id } => id,
        other => panic!("{other:?}"),
    };
    let mut parser: vte::Parser = vte::Parser::new();
    let mut carry = Carry::new();
    assert!(matches!(
        r.output(id, &mut parser, &mut carry, "\x1b[?7l日".as_bytes(), 0),
        Drained::Stuck
    ));
}

#[test]
fn requests_ask_for_the_right_work() {
    let mut r = Registry::new();
    r.ensure_client("x");
    assert!(matches!(r.handle("x", Request::List, &None, 0), Outcome::List));
    let hello = Request::Hello { role: Role::Events, token: "x".to_string() };
    assert!(matches!(r.handle("x", hello, &None, 0), Outcome::Nothing));
    let create = Request::Create {
        shell: Some(String::new()),
        cwd: Some(String::new()),
        cols: 3,
        rows: 2,
        replay: Some(String::new()),
    };
    match r.handle("x", create, &Some("C:\\cmd.exe".to_string()), 0) {
        Outcome::Launch(l) => {
            assert_eq!(l.shell, "C:\\cmd.exe");
            assert_eq!((l.cwd, l.replay), (None, None));
            assert_eq!((l.cols, l.rows), (3, 2));
        }
        _ => panic!("nothing was to be started"),
    }
    let id = started(&mut r, "x", None);
    match r.handle("x", Request::Input { id, data: "ls\r".to_string() }, &None, 0) {
        Outcome::Write { id: got, data } => assert_eq!((got, data.as_str()), (id, "ls\r")),
        _ => panic!("nothing was to be written"),
    }
    match r.handle("x", Request::Resize { id, cols: 0, rows: 9 }, &None, 5000) {
        Outcome::Resize { id: got, cols, rows } => assert_eq!((got, cols, rows), (id, 1, 9)),
        _ => panic!("nothing was to be resized"),
    }
    assert_eq!((r.sessions[0].cols, r.sessions[0].rows), (0, 9));
    assert_eq!(r.sessions[0].grid.size(), (1, 9));
    assert_eq!(r.sessions[0].quiet_until, 5350);
    assert!(matches!(
        r.handle("x", Request::Rename { id, name: Some("build".to_string()) }, &None, 0),
        Outcome::ListAll
    ));
    assert_eq!(r.sessions[0].name.as_deref(), Some("build"));
    // Nobody is there to be written to or resized.
    assert!(matches!(
        r.handle("x", Request::Input { id: 50, data: "x".to_string() }, &None, 0),
        Outcome::Nothing
    ));
    assert!(matches!(
        r.handle("x", Request::Resize { id: 50, cols: 1, rows: 1 }, &None, 0),
        Outcome::Nothing
    ));
    assert_eq!(default_program(&None), "powershell.exe");
}

#[test]
fn an_end_is_news_once() {
    let mut r = Registry::new();
    let id = started(&mut r, "x", None);
    assert!(r.exited(id));
    assert!(!r.exited(id));
    assert!(!r.exited(99));
    assert!(matches!(
        r.handle("x", Request::Input { id, data: "x".to_string() }, &None, 0),
        Outcome::Nothing
    ));
}

#[test]
fn closing_ends_the_watching() {
    let mut r = Registry::new();
    r.ensure_client("x");
    let a = started(&mut r, "x", None);
    let b = started(&mut r, "x", None);
    r.handle("x", Request::Close { id: a }, &None, 0);
    assert_eq!(r.clients[0].attached, [b]);
    assert!(r.watchers(a).is_empty());
    // Attaching twice is watching once.
    replay_of(&mut r, "x", b, 0);
    assert_eq!(r.clients[0].attached, [b]);
}

#[test]
fn the_daemon_leaves_when_there_is_nothing_to_hold() {
    let mut r = Registry::new();
    assert!(!r.should_exit(u64::MAX));
    r.ensure_client("x");
    let id = started(&mut r, "x", None);
    r.exited(id);
    r.drop_client("x", 1000);
    assert_eq!(r.empty_since, Some(1000));
    assert!(!r.should_exit(121_000));
    assert!(r.should_exit(121_001));
    r.ensure_client("y");
    assert!(!r.should_exit(999_999));
}

#[test]
fn events_go_to_one_connection() {
    let mut r = Registry::new();
    assert!(!r.take_receiver("x"));
    r.ensure_client("x");
    assert!(r.take_receiver("x"));
    assert!(!r.take_receiver("x"));
    assert_eq!(second_events("x"), "x already has an events connection");
}

#[test]
fn the_list_tells_what_each_terminal_does() {
    let mut r = Registry::new();
    let id = started(&mut r, "x", None);
    let table = ProcessTable::capture(vec![Entry { pid: 101, parent: 100, name: "node.exe".to_string() }]);
    let quiet = r.infos(&table, &vec![Some("C:\\work".to_string())], 1200);
    assert_eq!(quiet.len(), 1);
    assert_eq!(quiet[0].id, id);
    assert_eq!(quiet[0].cwd.as_deref(), Some("C:\\work"));
    assert_eq!(quiet[0].shell, r"C:\Windows\cmd.exe");
    assert!(!quiet[0].busy, "a banner is not work");
    assert!(r.infos(&table, &vec![None], 1350)[0].busy);
    assert!(!r.infos(&table, &vec![None], 1700)[0].busy);
    let idle = ProcessTable::capture(vec![]);
    assert!(!r.infos(&idle, &vec![None], 1350)[0].busy);
}

#[test]
fn the_first_instance_claims_the_name() {
    let mut s = Server::new();
    assert_eq!(s.open_mode(3, 0x80000), 0x80003);
    assert_eq!(
        s.opened("P", Some("denied")),
        Err("another hmux daemon already owns P: denied".to_string())
    );
    assert_eq!(s.opened("P", None), Ok(()));
    assert_eq!(s.open_mode(3, 0x80000), 3);
    assert_eq!(s.opened("P", Some("denied")), Err("could not open P: denied".to_string()));
    assert_eq!(s.waited(1, 0, 535), Accept::Serve);
    assert_eq!(s.waited(0, 535, 535), Accept::Serve);
    assert_eq!(s.waited(0, 5, 535), Accept::Retry);
}

#[test]
fn a_connection_opens_with_hello() {
    let hello = Request::Hello { role: Role::Requests, token: "t".to_string() };
    assert_eq!(opening(hello), Ok((Role::Requests, "t".to_string())));
    assert_eq!(opening(Request::List), Err("opened with list instead of hello".to_string()));
}

#[test]
fn a_summary_holds_no_payload() {
    let cases: [(Request, &str); 9] = [
        (Request::Hello { role: Role::Events, token: "gui-7".to_string() }, "hello Events gui-7"),
        (Request::List, "list"),
        (
            Request::Create { shell: None, cwd: None, cols: 80, rows: 24, replay: Some("secret".to_string()) },
            "create default 80x24",
        ),
        (
            Request::Create { shell: Some("pwsh.exe".to_string()), cwd: None, cols: 1, rows: 2, replay: None },
            "create pwsh.exe 1x2",
        ),
        (Request::Attach { id: 3, from: 18446744073709551615 }, "attach 3 from 18446744073709551615"),
        (Request::Input { id: 1, data: "hé".to_string() }, "input 1 (3 bytes)"),
        (Request::Resize { id: 1, cols: 5, rows: 6 }, "resize 1 5x6"),
        (Request::Close { id: 4294967295 }, "close 4294967295"),
        (Request::Rename { id: 2, name: Some("secret".to_string()) }, "rename 2"),
    ];
    for (req, text) in cases {
        assert_eq!(summarise(&req), text);
    }
}

#[test]
fn lines_that_say_nothing_or_nonsense() {
    assert!(is_blank(" \t\r\n"));
    assert!(!is_blank("{}"));
    match unreadable("expected value") {
        Event::Error { message } => assert_eq!(message, "could not read a request: expected value"),
        other => panic!("{other:?}"),
    }
    assert_eq!(no_daemon("P", "not found"), "no daemon on P: not found");
}

#[test]
fn events_found_in_output_are_digested() {
    let mut r = Registry::new();
    let id = started(&mut r, "x", None);
    let mut carry = Carry::new();
    let events = vec![
        VtEvent::Print('h'),
        VtEvent::Csi { params: vec![vec![6]], intermediates: vec![], action: 'n' },
    ];
    match r.digest(id, &events, &mut carry, b"h\x1b[6n\xe6", 2000) {
        Drained::Read { reply, event: Some(Event::Output { seq, data, .. }) } => {
            assert_eq!(reply, b"\x1b[1;2R");
            assert_eq!((seq, data.as_str()), (1, "h\x1b[6n"));
        }
        _ => panic!("nothing was read"),
    }
    assert_eq!(carry.bytes, [0xe6]);
    assert!(matches!(r.digest(9, &events, &mut carry, b"", 0), Drained::Gone { .. }));
}
