use hmux::activity::{Activity, Entry, ProcessTable};
use hmux::grid::Color;
use hmux::layout::compute;
use hmux::mux::Console;
use hmux::pane::Pane;
use hmux::render::compose::compose;
use hmux::Ev;

/// What `cmd.exe` prints up to its first prompt.
const BANNER: &[u8] = b"\x1b[2J\x1b[m\x1b[HMicrosoft Windows [Version 10.0]\r\n\r\nC:\\>";

fn screen(pane: &Pane) -> String {
    let (_, rows) = pane.grid.size();
    (0..rows)
        .map(|r| pane.grid.row(r).iter().map(|c| c.ch).collect::<String>())
        .collect::<Vec<_>>()
        .join("\n")
}

fn says(pane: &mut Pane, parser: &mut vte::Parser, bytes: &[u8]) {
    assert_eq!(pane.output(parser, bytes, 0), Some(Vec::new()));
}

/// A shell at its prompt.
fn shell(id: usize, cols: u16, rows: u16) -> (Pane, vte::Parser) {
    let mut pane = Pane::new(id, "cmd", cols, rows, Some(100), 0);
    let mut parser: vte::Parser = vte::Parser::new();
    says(&mut pane, &mut parser, BANNER);
    assert!(screen(&pane).contains('>'));
    (pane, parser)
}

#[test]
fn a_hidden_pane_keeps_running() {
    let mut c = Console::new("cmd.exe", 80, 24, 0);
    for _ in 0..2 {
        let plan = c.mux.spawn_pane();
        c.mux.adopt(&plan, Some(100), 0);
    }
    assert_eq!(c.mux.active, 1);
    let mut parser: vte::Parser = vte::Parser::new();
    assert_eq!(c.mux.output(1, &mut parser, BANNER, 0), Some(Vec::new()));
    let echo = b"echo still-alive-marker\r\nstill-alive-marker\r\n";
    assert_eq!(c.mux.output(1, &mut parser, echo, 0), Some(Vec::new()));
    assert!(screen(&c.mux.panes[0]).contains("still-alive-marker"));
    assert!(!screen(&c.mux.panes[1]).contains("still-alive-marker"));
}

#[test]
fn resize_reaches_the_child() {
    let (mut pane, _) = shell(1, 80, 24);
    // What comes back is the size for the child's pty.
    assert_eq!(pane.resize(100, 30), (100, 30));
    assert_eq!(pane.grid.size(), (100, 30));
    assert!(screen(&pane).contains('>'));
}

#[test]
fn the_composed_frame_has_a_rail_a_divider_and_live_output() {
    let (mut a, mut parser) = shell(1, 60, 20);
    let (b, _) = shell(2, 60, 20);
    says(&mut a, &mut parser, b"set /a 21*2\r\n42\r\nC:\\>");
    assert!(screen(&a).contains("42"));

    let (cols, rows) = (80u16, 24u16);
    let l = compute(cols, rows, 20);
    let panes = vec![a, b];
    let frame = compose(&panes, 0, &l, cols, rows, false);

    let row = |y: u16| -> String {
        (0..cols)
            .map(|x| frame.cells[y as usize * cols as usize + x as usize].ch)
            .collect()
    };

    assert!(row(0).starts_with(" TERMINALS"), "rail heading missing: {:?}", row(0));

    // Pane 1 is active and marked; pane 2 is listed but unmarked.
    let first = row(l.button_row(0));
    let second = row(l.button_row(1));
    assert!(first.contains('▸'), "active marker missing: {first:?}");
    assert!(first.contains("1:"), "first button missing: {first:?}");
    assert!(second.contains("2:"), "second button missing: {second:?}");
    assert!(!second.trim_start().starts_with('▸'), "inactive pane marked: {second:?}");

    // The vertical rule separates rail from terminal on every body row.
    for y in 0..l.sidebar.h {
        let c = frame.cells[y as usize * cols as usize + l.divider_x as usize].ch;
        assert_eq!(c, '│', "divider broken at row {y}");
    }

    // The active pane's output is painted into the content area.
    let content: String = (0..l.content.h).map(row).collect::<Vec<_>>().join("\n");
    assert!(content.contains("42"), "live output not composed:\n{content}");

    // And the status line reports both panes.
    assert!(row(l.status.y).contains("2/2 live"), "status wrong: {:?}", row(l.status.y));
}

#[test]
fn a_running_command_flips_the_terminal_to_busy_and_back() {
    let (pane, _) = shell(1, 80, 24);
    let row = |pid: u32, parent: u32, name: &str| Entry { pid, parent, name: name.to_string() };
    let quiet = || ProcessTable::capture(vec![row(100, 4, "cmd.exe"), row(101, 100, "conhost.exe")]);

    // A shell sitting at its prompt has no children but plumbing.
    assert!(!pane.activity(&quiet(), 0).is_busy());

    let running = ProcessTable::capture(vec![
        row(100, 4, "cmd.exe"),
        row(101, 100, "conhost.exe"),
        row(102, 100, "PING.EXE"),
    ]);
    let busy = pane.activity(&running, 0);
    assert!(busy.is_busy());
    match &busy {
        Activity::Running { command, .. } => assert_eq!(command, "ping", "busy, but reported `{command}`"),
        other => panic!("expected Busy, got {other:?}"),
    }

    // And back again once it finishes.
    assert!(!pane.activity(&quiet(), 0).is_busy());
}

#[test]
fn colour_survives_the_whole_pipeline() {
    let (mut pane, mut parser) = shell(1, 100, 30);
    says(&mut pane, &mut parser, b"Write-Host -ForegroundColor Red 'REDTEXT'\r\n");
    says(&mut pane, &mut parser, b"\x1b[91mREDTEXT\x1b[m\r\nPS>");
    assert!(screen(&pane).contains("REDTEXT"));

    // The echoed command line holds REDTEXT too, in the default colour, so look
    // for any occurrence that carries a colour.
    let (cols, rows) = pane.grid.size();
    let mut coloured = None;
    for r in 0..rows {
        let row = pane.grid.row(r);
        for c in 0..cols.saturating_sub(3) {
            let is_marker = row[c].ch == 'R' && row[c + 1].ch == 'E' && row[c + 2].ch == 'D';
            if is_marker && row[c].fg != Color::Default {
                coloured = Some(row[c].fg);
            }
        }
    }
    assert!(coloured.is_some(), "REDTEXT reached the grid with no colour at all");
    assert_eq!(coloured, Some(Color::Indexed(9)));
}

#[test]
fn pane_reports_death_after_exit() {
    let mut c = Console::new("cmd.exe", 80, 24, 0);
    for _ in 0..7 {
        let plan = c.mux.spawn_pane();
        c.mux.adopt(&plan, Some(100), 0);
    }
    assert!(c.mux.panes[6].is_alive());
    let mut parser: vte::Parser = vte::Parser::new();
    assert_eq!(c.mux.output(7, &mut parser, BANNER, 0), Some(Vec::new()));
    assert!(c.hear(Ev::Exited(7)).is_empty());
    assert_eq!(c.mux.panes[6].id, 7);
    assert!(!c.mux.panes[6].is_alive());
    assert!(c.mux.panes[..6].iter().all(|p| p.is_alive()));
}
