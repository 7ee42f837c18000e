use hmux::input::{Action, MouseEvent};
use hmux::mux::{parse_args, Args, Console, Mux, PtySize, Step};
use hmux::Ev;

fn console(panes: usize) -> Console {
    let mut c = Console::new("C:\\bin\\pwsh.exe", 100, 30, 0);
    for _ in 0..panes {
        let plan = c.mux.spawn_pane();
        c.mux.adopt(&plan, Some(1), 0);
    }
    c
}

fn click(x: u16, y: u16) -> Action {
    Action::Mouse(MouseEvent { button: 0, x, y, pressed: true })
}

#[test]
fn a_console_starts_with_a_rail_and_nothing_painted() {
    let c = Console::new("cmd.exe", 100, 30, 9);
    assert_eq!((c.mux.sidebar_w, c.mux.active, c.mux.next_id), (20, 0, 1));
    assert_eq!((c.renderer.cols, c.renderer.rows, c.renderer.prev.len()), (0, 0, 0));
    assert_eq!((c.dirty, c.last_frame, c.last_poll), (true, 9, 9));
}

#[test]
fn arguments_name_the_shell() {
    let args = |list: &[&str]| -> String {
        match parse_args(&list.iter().map(|s| s.to_string()).collect()) {
            Args::Shell(s) => s,
            Args::Help => "help".to_string(),
        }
    };
    assert_eq!(args(&[]), "cmd.exe");
    assert_eq!(args(&["--shell", "powershell.exe"]), "powershell.exe");
    assert_eq!(args(&["x", "-s", "-h"]), "-h");
    assert_eq!(args(&["--shell"]), "cmd.exe");
    assert_eq!(args(&["-h"]), "help");
    assert_eq!(args(&["y", "--help", "-s", "z"]), "help");
}

#[test]
fn a_new_pane_comes_last_and_is_shown() {
    let mut c = console(1);
    match c.act(Action::NewPane) {
        Step::Spawn(plan) => {
            assert_eq!((plan.id, plan.label.as_str(), plan.program.as_str()), (2, "pwsh", "C:\\bin\\pwsh.exe"));
            assert_eq!((plan.cols, plan.rows), (79, 29));
            c.mux.adopt(&plan, None, 5);
        }
        _ => panic!("nothing was started"),
    }
    assert_eq!(c.mux.panes.len(), 2);
    assert_eq!(c.mux.active, 1);
}

#[test]
fn cycling_goes_round_and_back() {
    let mut c = console(3);
    assert_eq!(c.mux.active, 2);
    c.act(Action::NextPane);
    assert_eq!(c.mux.active, 0);
    c.act(Action::PrevPane);
    assert_eq!(c.mux.active, 2);
    c.act(Action::SelectPane(1));
    assert_eq!(c.mux.active, 1);
    c.act(Action::SelectPane(7));
    assert_eq!(c.mux.active, 1);
    let mut empty = Mux::new("x", 80, 24);
    empty.cycle(true);
    assert_eq!(empty.active, 0);
}

#[test]
fn closing_takes_the_active_pane_away() {
    let mut c = console(3);
    c.act(Action::SelectPane(1));
    assert!(matches!(c.act(Action::ClosePane), Step::Close { pane: 2, leave: false }));
    assert_eq!(c.mux.active, 1);
    assert!(matches!(c.act(Action::ClosePane), Step::Close { pane: 3, leave: false }));
    assert_eq!(c.mux.active, 0);
    assert!(matches!(c.act(Action::ClosePane), Step::Close { pane: 1, leave: true }));
    assert!(matches!(c.act(Action::ClosePane), Step::Quit));
}

#[test]
fn keys_go_to_the_active_pane() {
    let mut c = console(2);
    match c.act(Action::Forward(b"ls".to_vec())) {
        Step::Write { pane, bytes } => assert_eq!((pane, bytes), (2, b"ls".to_vec())),
        _ => panic!("nothing was written"),
    }
    let mut none = console(0);
    assert!(matches!(none.act(Action::Forward(b"ls".to_vec())), Step::Done));
    assert!(matches!(c.act(Action::Quit), Step::Quit));
}

#[test]
fn the_rail_is_made_wider_and_narrower() {
    let mut c = console(2);
    match c.act(Action::GrowSidebar) {
        Step::Resize(sizes) => assert_eq!(
            sizes,
            vec![PtySize { pane: 1, cols: 77, rows: 29 }, PtySize { pane: 2, cols: 77, rows: 29 }]
        ),
        _ => panic!("nothing was resized"),
    }
    assert_eq!(c.mux.sidebar_w, 22);
    assert_eq!(c.mux.panes[0].grid.size(), (77, 29));
    for _ in 0..20 {
        c.act(Action::GrowSidebar);
    }
    assert_eq!(c.mux.sidebar_w, 40);
    for _ in 0..40 {
        c.act(Action::ShrinkSidebar);
    }
    assert_eq!(c.mux.sidebar_w, 12);
}

#[test]
fn clicks_select_and_start() {
    let mut c = console(3);
    assert!(matches!(c.act(click(3, 1)), Step::Done));
    assert_eq!(c.mux.active, 0);
    assert!(matches!(c.act(click(3, 28)), Step::Spawn(_)));
    assert!(matches!(c.act(click(50, 2)), Step::Done));
    assert_eq!(c.mux.active, 0);
    // A release, or another button, does nothing.
    let release = Action::Mouse(MouseEvent { button: 0, x: 3, y: 2, pressed: false });
    assert!(matches!(c.act(release), Step::Done));
    let right = Action::Mouse(MouseEvent { button: 2, x: 3, y: 2, pressed: true });
    assert!(matches!(c.act(right), Step::Done));
    assert_eq!(c.mux.active, 0);
}

#[test]
fn a_held_escape_reaches_the_shell_after_a_while() {
    let mut c = console(1);
    assert!(c.hear(Ev::Input(vec![0x1b])).is_empty());
    match c.idle() {
        Step::Write { pane, bytes } => assert_eq!((pane, bytes), (1, vec![0x1b])),
        _ => panic!("the escape is still held"),
    }
    assert!(matches!(c.idle(), Step::Done));
}

#[test]
fn a_dead_pane_stays_to_be_read() {
    let mut c = console(2);
    let mut parser: vte::Parser = vte::Parser::new();
    assert_eq!(c.mux.output(1, &mut parser, b"bye\x1b[c", 7), Some(b"\x1b[?6c".to_vec()));
    assert!(c.hear(Ev::Exited(1)).is_empty());
    assert!(!c.mux.panes[0].alive);
    assert_eq!(c.mux.panes[0].grid.row(0)[0].ch, 'b');
    assert!(c.mux.panes[1].alive);
    assert_eq!(c.mux.output(99, &mut parser, b"x", 7), Some(Vec::new()));
    assert!(c.hear(Ev::Output).is_empty());
    c.hear(Ev::Exited(99));
    assert_eq!(c.mux.panes.len(), 2);
}

#[test]
fn a_closed_pane_is_answered_until_its_output_ends() {
    let mut c = console(2);
    let mut parser: vte::Parser = vte::Parser::new();
    assert_eq!(c.mux.close_active(), Some(2));
    assert_eq!(c.mux.panes.len(), 1);
    assert_eq!(c.mux.output(2, &mut parser, b"ab\x1b[6n", 7), Some(b"\x1b[1;3R".to_vec()));
    assert_eq!(c.mux.closed[0].grid.row(0)[1].ch, 'b');
    assert_eq!(c.mux.closed[0].last_output, 7);
    assert!(!c.mux.closed[0].alive);
    assert_eq!(c.mux.panes[0].grid.row(0)[0].ch, ' ');
    c.mux.reader_ended(1);
    assert_eq!((c.mux.panes.len(), c.mux.closed.len()), (1, 1));
    c.mux.reader_ended(2);
    assert!(c.mux.closed.is_empty());
    assert_eq!(c.mux.output(2, &mut parser, b"\x1b[6n", 8), Some(Vec::new()));
}

#[test]
fn repaints_are_gathered_into_frames() {
    let mut c = console(1);
    assert!(c.repaint(15).is_none());
    let first = c.repaint(16).unwrap();
    assert!(first.starts_with("\x1b[0m\x1b[2J"));
    assert!(first.contains("TERMINALS"));
    // Nothing changed, nothing to paint.
    assert!(c.repaint(100).is_none());
    c.hear(Ev::Output);
    let second = c.repaint(100).unwrap();
    assert_eq!(second, "\x1b[?25l\x1b[1;22H\x1b[?25h");
    c.act(Action::Redraw);
    c.hear(Ev::Output);
    assert!(c.repaint(200).unwrap().starts_with("\x1b[0m\x1b[2J"));
}

#[test]
fn a_new_size_is_noticed() {
    let mut c = console(1);
    assert!(!c.poll_due(99));
    assert!(c.poll_due(100));
    assert!(!c.poll_due(150));
    assert!(c.size_seen(100, 30).is_empty());
    assert_eq!(c.size_seen(60, 20), vec![PtySize { pane: 1, cols: 39, rows: 19 }]);
    assert_eq!(c.mux.panes[0].grid.size(), (39, 19));
    assert!(c.dirty);
}

#[test]
fn a_click_on_the_wire_becomes_a_selection() {
    let mut c = console(2);
    let actions = c.hear(Ev::Input(b"\x1b[<0;2;2M".to_vec()));
    for a in actions {
        c.act(a);
    }
    assert_eq!(c.mux.active, 0);
}
