use hmux::proto::{Event, Request, Role, SessionInfo};
use hmux::sessions::{
    history_timed_out, introductions, lost_connection, start_timed_out, try_again, Delivery, Dial, Sessions,
};
use hmux::shells::{available, default_program, places_for, program_of, split_paths, which};
use hmux::update::{
    checked_name, is_leftover, update_stage, update_staged, Plan, Report, Step,
};

fn listed(names: &[&str]) -> Vec<String> {
    names.iter().map(|n| n.to_string()).collect()
}

fn info(id: u32, shell: &str) -> SessionInfo {
    SessionInfo {
        id,
        title: "t".to_string(),
        shell: shell.to_string(),
        name: None,
        cwd: Some("C:\\w".to_string()),
        cols: 80,
        rows: 24,
        alive: true,
        busy: false,
        seq: 5,
    }
}

#[test]
fn cmd_is_always_findable_on_windows() {
    let files = listed(&["C:\\Windows\\system32\\cmd.exe"]);
    assert!(
        which(Some("C:\\Windows\\system32;C:\\Windows"), "cmd.exe", &files).is_some(),
        "cmd.exe was not on PATH"
    );
}

#[test]
fn nonsense_resolves_to_nothing() {
    let files = listed(&["C:\\Windows\\system32\\cmd.exe"]);
    assert!(which(Some("C:\\Windows\\system32"), "definitely-not-a-real-shell-9f3a.exe", &files).is_none());
    assert!(which(None, "cmd.exe", &files).is_none());
}

#[test]
fn at_least_one_shell_is_offered_and_it_is_not_the_dullest() {
    let present = listed(&["cmd.exe", "powershell.exe"]);
    let shells = available(&present);
    assert!(!shells.is_empty(), "no shells found at all");

    // cmd.exe exists everywhere, so it should only be the default on a
    // machine with nothing better installed.
    let default = default_program(&present);
    let has_powershell = shells.iter().any(|s| s.program.contains("powershell"));
    assert!(has_powershell);
    assert_ne!(
        default, "cmd.exe",
        "PowerShell is installed but cmd.exe is still the default"
    );
    assert_eq!(default_program(&listed(&["cmd.exe"])), "cmd.exe");
    assert_eq!(default_program(&listed(&[])), "cmd.exe");
    assert!(available(&listed(&[])).is_empty());
}

#[test]
fn preference_order_is_preserved() {
    let shells = available(&listed(&["cmd.exe", "wsl.exe", "powershell.exe", "pwsh.exe"]));
    let names: Vec<&str> = shells.iter().map(|s| s.program.as_str()).collect();
    assert_eq!(names, ["pwsh.exe", "powershell.exe", "wsl.exe", "cmd.exe"]);
    assert_eq!(shells[0].name, "PowerShell 7");
    assert_eq!(shells[2].name, "WSL");
    assert_eq!(program_of(1), "powershell.exe");
}

#[test]
fn a_search_path_is_taken_apart() {
    assert_eq!(split_paths("c:\\foo;c:\\som\"e;di\"r;c:\\bar"), ["c:\\foo", "c:\\some;dir", "c:\\bar"]);
    assert_eq!(split_paths("a;;b;"), ["a", "", "b", ""]);
    assert_eq!(places_for("C:\\a\\;D:", "x.exe"), ["C:\\a\\x.exe", "D:x.exe"]);
    let files = listed(&["B\\x", "A\\x"]);
    assert_eq!(which(Some("A;B"), "x", &files).as_deref(), Some("A\\x"));
}

#[test]
fn only_this_apps_binaries_may_be_written() {
    assert!(checked_name("mux-gui.exe").is_ok());
    assert!(checked_name("mux-daemon.exe").is_ok());
    assert!(checked_name("mux.exe").is_ok());

    assert!(checked_name("mux-gui.exe.old").is_err());
    assert!(checked_name("MUX-GUI.EXE").is_err());
    assert!(checked_name("payload.dll").is_err());
}

#[test]
fn a_path_cannot_be_smuggled_through_the_name() {
    assert!(checked_name("..\\..\\mux-gui.exe").is_err());
    assert!(checked_name("../../mux-gui.exe").is_err());
    assert!(checked_name("C:\\Windows\\System32\\mux.exe").is_err());
    assert!(checked_name("sub/mux.exe").is_err());
}

#[test]
fn something_that_is_not_a_program_is_not_staged() {
    let html = b"<!DOCTYPE html><html>error</html>".to_vec();
    let err = update_stage("mux.exe".into(), html).unwrap_err();
    assert!(err.contains("not a program"), "{err}");
    assert_eq!(err, "mux.exe came back as 33 bytes, which is not a program");

    let big_but_wrong = vec![b'<'; 128 * 1024];
    let err = update_stage("mux.exe".into(), big_but_wrong).unwrap_err();
    assert!(err.contains("not a Windows executable"), "{err}");

    let mut program = vec![0u8; 64 * 1024];
    program[0] = b'M';
    program[1] = b'Z';
    assert_eq!(update_stage("mux.exe".into(), program), Ok("mux.exe".to_string()));
}

#[test]
fn nothing_is_staged_under_a_name_that_was_refused() {
    let err = update_stage("evil.exe".into(), vec![b'M', b'Z']).unwrap_err();
    assert!(err.contains("not one of this app's binaries"), "{err}");
}

#[test]
fn what_is_staged_is_listed_in_order() {
    assert_eq!(update_staged(&listed(&["mux.exe", "x.dll", "mux-gui.exe"])), ["mux-gui.exe", "mux.exe"]);
    assert!(update_staged(&listed(&[])).is_empty());
}

#[test]
fn an_update_swaps_every_staged_binary() {
    let plan = Plan { dir: "C:\\mux".to_string(), ready: listed(&["mux-gui.exe", "mux.exe"]), stamp: 17 };
    assert_eq!(plan.live_path(1), "C:\\mux\\mux.exe");
    assert_eq!(plan.staged_path(0), "C:\\mux\\staged\\mux-gui.exe");
    assert_eq!(plan.aside_path(0), "C:\\mux\\mux-gui.exe.17.old");
    assert_eq!(plan.window_path(), "C:\\mux\\mux-gui.exe");
    let step = plan.begin();
    assert!(matches!(step, Step::Look { k: 0 }));
    let step = plan.next(step, Report::Yes);
    assert!(matches!(step, Step::MoveAside { k: 0 }));
    let step = plan.next(step, Report::Yes);
    assert!(matches!(step, Step::Install { k: 0 }));
    let step = plan.next(step, Report::Yes);
    assert!(matches!(step, Step::Look { k: 1 }));
    // Nothing there to move aside.
    let step = plan.next(step, Report::No);
    assert!(matches!(step, Step::Install { k: 1 }));
    let step = plan.next(step, Report::Yes);
    assert!(matches!(step, Step::Clear));
    let step = plan.next(step, Report::Error("busy".to_string()));
    assert!(matches!(step, Step::Launch));
    assert!(matches!(plan.next(step, Report::Yes), Step::Leave));
}

#[test]
fn a_failed_install_puts_the_old_build_back() {
    let plan = Plan { dir: "D".to_string(), ready: listed(&["mux.exe"]), stamp: 1 };
    let step = plan.next(Step::Install { k: 0 }, Report::Error("denied".to_string()));
    assert!(matches!(step, Step::PutBack { k: 0, .. }));
    match plan.next(step, Report::Yes) {
        Step::Failed(why) => assert_eq!(why, "could not install D\\mux.exe: denied"),
        _ => panic!("it went on"),
    }
    match plan.next(Step::MoveAside { k: 0 }, Report::Error("locked".to_string())) {
        Step::Failed(why) => assert_eq!(why, "could not move D\\mux.exe aside: locked"),
        _ => panic!("it went on"),
    }
    match plan.next(Step::Launch, Report::Error("gone".to_string())) {
        Step::Failed(why) => {
            assert_eq!(why, "installed the update but could not start D\\mux-gui.exe: gone")
        }
        _ => panic!("it went on"),
    }
    let nothing = Plan { dir: "D".to_string(), ready: listed(&[]), stamp: 1 };
    match nothing.begin() {
        Step::Failed(why) => assert_eq!(why, "there is nothing staged to install"),
        _ => panic!("it began"),
    }
}

#[test]
fn leftovers_are_known_by_their_ending() {
    assert!(is_leftover("mux.exe.17.old"));
    assert!(is_leftover("a.old"));
    assert!(!is_leftover(".old"));
    assert!(!is_leftover("a.OLD"));
    assert!(!is_leftover("old"));
    assert!(!is_leftover("a.old.exe"));
}

#[test]
fn nothing_is_asked_of_a_daemon_that_is_not_there() {
    let mut s = Sessions::new();
    assert_eq!(s.create("cmd", 1, 1).unwrap_err(), "not connected to the hmux daemon");
    assert!(s.attach(1).is_err());
    assert!(s.poll().is_none());
    assert!(s.write(1, b"x").is_none());
    assert!(s.snapshot_of(1).is_none());
    assert!(s.info().is_empty());
}

#[test]
fn answers_reach_those_who_asked() {
    let mut s = Sessions::new();
    assert!(matches!(s.connect(), Request::List));
    let (a, ask) = s.create("pwsh.exe", 80, 24).unwrap();
    match ask {
        Request::Create { shell, cwd, cols, rows, replay } => {
            assert_eq!(shell.as_deref(), Some("pwsh.exe"));
            assert_eq!((cwd, replay), (None, None));
            assert_eq!((cols, rows), (80, 24));
        }
        other => panic!("{other:?}"),
    }
    let (b, ask) = s.restore("cmd", Some("C:\\".to_string()), "old".to_string(), 1, 2).unwrap();
    assert!(matches!(ask, Request::Create { replay: Some(_), .. }));
    assert_ne!(a, b);
    match s.hear(Event::Created { id: 9 }) {
        Delivery::Created { ticket, id } => assert_eq!((ticket, id), (b, 9)),
        _ => panic!("nobody got it"),
    }
    match s.hear(Event::Created { id: 10 }) {
        Delivery::Created { ticket, id } => assert_eq!((ticket, id), (a, 10)),
        _ => panic!("nobody got it"),
    }
    assert!(matches!(s.hear(Event::Created { id: 11 }), Delivery::Nothing));

    let (c, ask) = s.attach(9).unwrap();
    assert!(matches!(ask, Request::Attach { id: 9, from: 0 }));
    let (d, _) = s.attach(10).unwrap();
    let (e, _) = s.attach(9).unwrap();
    match s.hear(Event::Replay { id: 9, data: "text".to_string(), seq: 4 }) {
        Delivery::Replay { tickets, backlog } => {
            assert_eq!(tickets, [c, e]);
            assert_eq!((backlog.text.as_str(), backlog.last_seq), ("text", 4));
        }
        _ => panic!("nobody got it"),
    }
    assert_eq!(s.replays.len(), 1);
    assert_eq!(s.replays[0].ticket, d);
    assert!(matches!(
        s.hear(Event::Replay { id: 9, data: String::new(), seq: 0 }),
        Delivery::Nothing
    ));
}

#[test]
fn events_reach_the_page() {
    let mut s = Sessions::new();
    s.connect();
    match s.hear(Event::Output { id: 1, seq: 2, data: "x".to_string() }) {
        Delivery::Output(c) => assert_eq!((c.id, c.seq, c.data.as_str()), (1, 2, "x")),
        _ => panic!("lost"),
    }
    assert!(matches!(s.hear(Event::Exit { id: 4 }), Delivery::Exit(4)));
    assert!(matches!(
        s.hear(Event::Sessions { sessions: vec![info(1, "a"), info(2, "b")] }),
        Delivery::Sessions
    ));
    match s.hear(Event::Error { message: "m".to_string() }) {
        Delivery::Error(m) => assert_eq!(m, "m"),
        _ => panic!("lost"),
    }
    assert_eq!(s.info().len(), 2);
    assert_eq!(s.info()[1].shell, "b");
    let snap = s.snapshot_of(2).unwrap();
    assert_eq!((snap.shell.as_str(), snap.scrollback.as_str(), snap.cwd.as_deref()), ("b", "", Some("C:\\w")));
    assert!(s.snapshot_of(3).is_none());
    match s.write(1, "é\r".as_bytes()) {
        Some(Request::Input { id: 1, data }) => assert_eq!(data, "é\r"),
        other => panic!("{other:?}"),
    }
    match s.write(1, b"a\xffb") {
        Some(Request::Input { data, .. }) => assert_eq!(data, "a\u{fffd}b"),
        other => panic!("{other:?}"),
    }
    assert!(matches!(s.write_text(1, "k".to_string()), Some(Request::Input { id: 1, .. })));
    assert!(matches!(s.resize(1, 2, 3), Some(Request::Resize { id: 1, cols: 2, rows: 3 })));
    assert!(matches!(s.close(1), Some(Request::Close { id: 1 })));
    assert!(matches!(s.poll(), Some(Request::List)));
}

#[test]
fn reaching_the_daemon_takes_at_most_three_steps() {
    let first = Dial::first();
    assert_eq!(first, Dial::Open { patience: 400 });
    assert_eq!(first.next(true), Dial::Reached);
    assert_eq!(first.next(false), Dial::Start);
    assert_eq!(Dial::Start.next(false), Dial::Failed);
    let second = Dial::Start.next(true);
    assert_eq!(second, Dial::Open { patience: 10000 });
    assert_eq!(second.next(false), Dial::Failed);
    assert_eq!(second.next(true).next(false), Dial::Reached);
    assert!(try_again(5, 6));
    assert!(!try_again(6, 6));
}

#[test]
fn both_halves_share_a_token() {
    match introductions(42) {
        (Request::Hello { role: a, token: s }, Request::Hello { role: b, token: t }) => {
            assert_eq!((a, b), (Role::Events, Role::Requests));
            assert_eq!((s.as_str(), t.as_str()), ("gui-42", "gui-42"));
        }
        other => panic!("{other:?}"),
    }
    assert_eq!(start_timed_out(), "the daemon did not start a shell");
    assert_eq!(history_timed_out(3), "the daemon did not send terminal 3's history");
    assert_eq!(lost_connection(), "lost the connection to the hmux daemon");
}
