use hmux::clipboard::{after_failure, read_text, write_text, Problem, Retry};
use hmux::cwd::{next, of_process, tidied, Stage, Step};
use hmux::pty::{no_console, not_started, spawn, spawn_in};
use hmux::term;
use hmux::term::{HostTerm, Modes};
use hmux::text::is_white_space;
use hmux::utf16::{encode, from_utf16, from_utf16_lossy, text_until_nul};
use hmux::width::{columns_of, span_of};
use windows_sys::Win32::System::Console as sys;

#[test]
fn text_survives_a_round_trip() {
    let sample = "hmux clipboard test — ünïcödé ✓";
    assert_eq!(read_text(Some(write_text(sample))), sample);

    // Empty is a value, not a failure: clearing the clipboard and pasting
    // should type nothing, not report a problem.
    assert_eq!(read_text(Some(write_text(""))), "");
    assert_eq!(read_text(None), "");
    // Text ends at its terminator, not at the end of the block.
    let mut block = write_text("a🦀");
    block.extend([65, 66, 0]);
    assert_eq!(read_text(Some(block)), "a🦀");
}

#[test]
fn a_held_clipboard_is_tried_ten_times() {
    assert_eq!(after_failure(0), Retry::Wait(10));
    assert_eq!(after_failure(8), Retry::Wait(90));
    assert_eq!(after_failure(9), Retry::GiveUp(100));
    assert_eq!(Problem::Held.message(), "another application is holding the clipboard");
    assert_eq!(Problem::Unreadable.message(), "the clipboard's text could not be read");
    assert_eq!(Problem::NoMemory.message(), "could not allocate for the clipboard");
    assert_eq!(Problem::Unwritable.message(), "could not write to the clipboard's memory");
    assert_eq!(Problem::Refused.message(), "the clipboard refused the text");
}

#[test]
fn units_are_what_the_standard_library_says() {
    for s in ["", "plain", "é日🦀", "\u{ffff}\u{10000}\u{10ffff}"] {
        let units: Vec<u16> = s.encode_utf16().collect();
        assert_eq!(encode(s), units);
        assert_eq!(from_utf16(&units).as_deref(), Some(s));
    }
    for units in [&[0xd800u16][..], &[0xdc00, 0x41], &[0x41, 0xd83e, 0x42], &[0xd83e, 0xdd80, 0xdd80], &[0xd83e, 0xd83e, 0xdd80]] {
        let v = units.to_vec();
        assert_eq!(from_utf16_lossy(&v), String::from_utf16_lossy(units));
        assert_eq!(from_utf16(&v), String::from_utf16(units).ok());
    }
    assert_eq!(text_until_nul(&vec![0x41, 0x42, 0, 0x43]), "AB");
    assert_eq!(text_until_nul(&vec![0x41, 0x42]), "AB");
}

#[test]
fn white_space_is_what_the_standard_library_says() {
    for n in 0..=0x10ffffu32 {
        if let Some(c) = char::from_u32(n) {
            assert_eq!(is_white_space(c), c.is_whitespace(), "{n:x}");
        }
    }
}

#[test]
fn widths_are_those_of_the_tables() {
    assert_eq!(columns_of('a'), 1);
    assert_eq!(columns_of('日'), 2);
    assert_eq!(columns_of('\u{301}'), 0);
    assert_eq!(columns_of('\u{7}'), 0);
    assert_eq!(span_of('\u{301}'), 1);
    assert_eq!(span_of('\u{1}'), 1);
    assert_eq!(span_of('日'), 2);
    for n in 0..=0x10ffffu32 {
        if let Some(c) = char::from_u32(n) {
            let control = n < 0x20 || (0x7f..0xa0).contains(&n);
            assert_eq!(unicode_width::UnicodeWidthChar::width(c).is_none(), control);
            assert!(columns_of(c) <= 3);
            if (0x20..0x7f).contains(&n) {
                assert_eq!(columns_of(c), 1);
            }
        }
    }
}

#[test]
fn a_pid_that_cannot_exist_is_not_guessed_at() {
    assert!(matches!(of_process(0), Step::GiveUp));
    // A process that does not answer has no directory.
    assert!(matches!(of_process(u32::MAX), Step::Read { stage: Stage::Info, len: 48, .. }));
    assert!(matches!(next(Stage::Info, None), Step::GiveUp));
}

#[test]
fn a_directory_is_read_step_by_step() {
    let mut info = vec![0u8; 48];
    info[8..16].copy_from_slice(&0x1122_3344_5566u64.to_le_bytes());
    assert!(matches!(
        next(Stage::Info, Some(info)),
        Step::Read { stage: Stage::Parameters, address: 0x1122_3344_5586, len: 8 }
    ));
    let directory = 0x2000u64 + 0x38;
    assert!(matches!(
        next(Stage::Parameters, Some(0x2000u64.to_le_bytes().to_vec())),
        Step::Read { stage: Stage::Length { directory: d }, address: a, len: 2 } if d == directory && a == directory
    ));
    assert!(matches!(
        next(Stage::Length { directory }, Some(20u16.to_le_bytes().to_vec())),
        Step::Read { stage: Stage::Buffer { length: 20 }, address: 0x2040, len: 8 }
    ));
    assert!(matches!(
        next(Stage::Buffer { length: 20 }, Some(0x3000u64.to_le_bytes().to_vec())),
        Step::Read { stage: Stage::Path { length: 20 }, address: 0x3000, len: 20 }
    ));
    let path: Vec<u8> = "C:\\Users\\x".encode_utf16().flat_map(|u| u.to_le_bytes()).collect();
    match next(Stage::Path { length: 20 }, Some(path)) {
        Step::Found(p) => assert_eq!(p, "C:\\Users\\x"),
        _ => panic!("no path"),
    }
}

#[test]
fn any_surprise_ends_the_search() {
    assert!(matches!(next(Stage::Info, Some(vec![0; 48])), Step::GiveUp));
    assert!(matches!(next(Stage::Info, Some(vec![1; 47])), Step::GiveUp));
    assert!(matches!(next(Stage::Parameters, Some(vec![0; 8])), Step::GiveUp));
    assert!(matches!(next(Stage::Parameters, Some(vec![0xff; 8])), Step::GiveUp));
    for length in [0u16, 3, 8194] {
        assert!(matches!(next(Stage::Buffer { length }, Some(vec![1; 8])), Step::GiveUp));
    }
    assert!(matches!(next(Stage::Buffer { length: 2 }, Some(vec![0; 8])), Step::GiveUp));
    assert!(matches!(next(Stage::Path { length: 2 }, Some(vec![0, 0xd8])), Step::GiveUp));
    assert!(matches!(next(Stage::Path { length: 4 }, Some(vec![0x41, 0])), Step::GiveUp));
}

#[test]
fn a_drive_keeps_its_separator() {
    assert_eq!(tidied("C:\\"), "C:\\");
    assert_eq!(tidied("C:\\work\\"), "C:\\work");
    assert_eq!(tidied("C:\\work\\\\"), "C:\\work");
    assert_eq!(tidied("C:\\work"), "C:\\work");
}

#[test]
fn console_flags_are_those_of_the_system() {
    assert_eq!(term::ENABLE_ECHO_INPUT, sys::ENABLE_ECHO_INPUT);
    assert_eq!(term::ENABLE_LINE_INPUT, sys::ENABLE_LINE_INPUT);
    assert_eq!(term::ENABLE_PROCESSED_INPUT, sys::ENABLE_PROCESSED_INPUT);
    assert_eq!(term::ENABLE_QUICK_EDIT_MODE, sys::ENABLE_QUICK_EDIT_MODE);
    assert_eq!(term::ENABLE_MOUSE_INPUT, sys::ENABLE_MOUSE_INPUT);
    assert_eq!(term::ENABLE_VIRTUAL_TERMINAL_INPUT, sys::ENABLE_VIRTUAL_TERMINAL_INPUT);
    assert_eq!(term::ENABLE_EXTENDED_FLAGS, sys::ENABLE_EXTENDED_FLAGS);
    assert_eq!(term::ENABLE_WRAP_AT_EOL_OUTPUT, sys::ENABLE_WRAP_AT_EOL_OUTPUT);
    assert_eq!(term::ENABLE_PROCESSED_OUTPUT, sys::ENABLE_PROCESSED_OUTPUT);
    assert_eq!(
        term::ENABLE_VIRTUAL_TERMINAL_PROCESSING,
        sys::ENABLE_VIRTUAL_TERMINAL_PROCESSING
    );
    assert_eq!(term::DISABLE_NEWLINE_AUTO_RETURN, sys::DISABLE_NEWLINE_AUTO_RETURN);
}

#[test]
fn the_console_is_taken_over_and_given_back_once() {
    let modes = Modes { input: 0x1f7, output: 0x3, input_page: 437, output_page: 850 };
    let (mut host, set) = match HostTerm::enter(true, Some(modes)) {
        Ok(pair) => pair,
        Err(why) => panic!("{why}"),
    };
    assert_eq!(set, Modes { input: 0x3b0, output: 0xd, input_page: 65001, output_page: 65001 });
    assert_eq!(host.restore(), Some(modes));
    assert_eq!(host.restore(), None);
    assert!(matches!(HostTerm::enter(false, None), Err("no console attached")));
    assert!(matches!(
        HostTerm::enter(true, None),
        Err("stdin/stdout is not a console — run mux from a real terminal")
    ));
    assert_eq!(term::size(0, 0, 119, 29), (120, 30));
    assert_eq!(term::size(5, 5, 2, 5), (1, 1));
    assert!(term::enter_text().starts_with("\x1b[?1049h"));
    assert!(term::leave_text().ends_with("\x1b[?1049l"));
}

#[test]
fn programs_are_told_what_this_terminal_can_do() {
    let plan = spawn("cmd.exe", Some("C:\\here".to_string()), 0, 0);
    assert_eq!((plan.program.as_str(), plan.cols, plan.rows), ("cmd.exe", 1, 1));
    assert_eq!(plan.dir.as_deref(), Some("C:\\here"));
    let set: Vec<(&str, &str)> = plan.set.iter().map(|v| (v.name.as_str(), v.value.as_str())).collect();
    assert_eq!(set, [("TERM", "xterm-256color"), ("COLORTERM", "truecolor"), ("TERM_PROGRAM", "hmux")]);
    assert_eq!(plan.unset, ["NO_COLOR", "NODE_DISABLE_COLORS"]);
    let there = spawn_in("x", Some("D:\\w".to_string()), true, Some("C:\\".to_string()), 80, 24);
    assert_eq!(there.dir.as_deref(), Some("D:\\w"));
    let gone = spawn_in("x", Some("D:\\w".to_string()), false, Some("C:\\".to_string()), 80, 24);
    assert_eq!(gone.dir.as_deref(), Some("C:\\"));
    assert_eq!(not_started("x"), "failed to start x");
    assert!(no_console().starts_with("failed to open a ConPTY"));
}
