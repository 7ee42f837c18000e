use hmux::persist::{
    cwd_from_prompt, directory, fill, keep_known, path, prompt_candidates, replay_text, restored_marker,
    strip_escapes, temp_path, text_to_save, trim_scrollback, Layout, SavedTerminal, SAVED_SCROLLBACK,
};
use hmux::sessions::Snapshot;

fn known(dirs: &[&str]) -> Vec<String> {
    dirs.iter().map(|d| d.to_string()).collect()
}

#[test]
fn escapes_are_removed_but_text_survives() {
    assert_eq!(strip_escapes("\x1b[32mhello\x1b[0m"), "hello");
    assert_eq!(strip_escapes("\x1b]0;a title\x07PS C:\\>"), "PS C:\\>");
    assert_eq!(strip_escapes("plain"), "plain");
}

#[test]
fn a_powershell_prompt_gives_up_its_directory() {
    let dir = r"C:\Users\me\src";
    let text = format!("something\r\nPS {}> ", dir);
    assert_eq!(cwd_from_prompt(&text, &known(&[dir])).as_deref(), Some(dir));
}

#[test]
fn a_cmd_prompt_gives_up_its_directory() {
    let dir = r"C:\Users\me\src";
    let text = format!("Microsoft Windows\r\n\r\n{}>", dir);
    assert_eq!(cwd_from_prompt(&text, &known(&[dir])).as_deref(), Some(dir));
}

#[test]
fn the_latest_prompt_wins() {
    let dir = r"C:\Users\me\src";
    let parent = r"C:\Users\me";
    let text = format!("PS {}> cd ..\r\nPS {}> ", dir, parent);
    assert_eq!(cwd_from_prompt(&text, &known(&[dir, parent])).as_deref(), Some(parent));
}

#[test]
fn output_that_merely_ends_in_an_angle_bracket_is_not_a_prompt() {
    let none = known(&[]);
    assert!(cwd_from_prompt("echo hi > file.txt\r\n", &none).is_none());
    assert!(cwd_from_prompt("<html>\r\n", &none).is_none());
    assert!(cwd_from_prompt("PS Q:\\nowhere-at-all>", &none).is_none());
    assert!(prompt_candidates("echo hi > file.txt\r\n").is_empty());
    assert!(prompt_candidates("<html>\r\n").is_empty());
    assert_eq!(prompt_candidates("PS Q:\\nowhere-at-all>"), ["Q:\\nowhere-at-all"]);
}

#[test]
fn trimming_keeps_the_end_and_stays_on_a_character_boundary() {
    let text = "é".repeat(200 * 1024);
    let trimmed = trim_scrollback(&text);
    assert!(trimmed.len() <= SAVED_SCROLLBACK);
    assert!(text.ends_with(&trimmed));
    assert!(trimmed.chars().all(|c| c == 'é'));
    assert_eq!(trimmed.len(), SAVED_SCROLLBACK);
}

#[test]
fn a_short_scrollback_is_kept_whole() {
    assert_eq!(trim_scrollback("short"), "short");
}

#[test]
fn a_character_on_the_cut_is_dropped() {
    let text = format!("日{}", "x".repeat(SAVED_SCROLLBACK - 1));
    assert_eq!(trim_scrollback(&text).len(), SAVED_SCROLLBACK - 1);
    let text = format!("日{}", "x".repeat(SAVED_SCROLLBACK - 3));
    assert_eq!(trim_scrollback(&text), text);
}

#[test]
fn the_restored_marker_leaves_the_alternate_screen() {
    // A session that closed inside a full-screen program would otherwise
    // replay into a screen buffer the user cannot scroll out of.
    let marker = restored_marker(None);
    assert!(marker.contains("\x1b[?1049l"));
    assert!(marker.contains("restored"));
    assert_eq!(
        restored_marker(Some("C:\\work")),
        "\x1b[?1049l\x1b[0m\r\n\x1b[38;5;244m── restored · C:\\work ── above is the previous session\x1b[0m\r\n"
    );
}

#[test]
fn all_sorts_of_escapes_are_removed() {
    assert_eq!(strip_escapes("a\x1b(Bb\x1b)0c"), "abc");
    assert_eq!(strip_escapes("a\x1b]2;t\x1b\\b"), "ab");
    assert_eq!(strip_escapes("a\x1b7b\x1b"), "ab");
    assert_eq!(strip_escapes("a\x1b[38;5;1"), "a");
    assert_eq!(strip_escapes("a\x1b]never ends"), "a");
    assert_eq!(strip_escapes("a\x1b("), "a");
    assert_eq!(strip_escapes(""), "");
}

#[test]
fn prompts_are_told_from_commands() {
    assert_eq!(prompt_candidates("C:\\>\nC:\\a|b>\nC:\\\"q>\nPS  D:\\x y > \n"), ["D:\\x y", "C:\\"]);
    assert!(prompt_candidates("C:>").is_empty());
    assert!(prompt_candidates("éC:\\>").is_empty());
    assert!(prompt_candidates(">").is_empty());
    assert_eq!(prompt_candidates("\x1b[32mC:\\dir\x1b[0m>"), ["C:\\dir"]);
}

#[test]
fn only_the_end_of_a_text_is_looked_through() {
    let mut text = "C:\\old>\n".to_string();
    text.push_str(&"x\n".repeat(79));
    assert_eq!(prompt_candidates(&text), ["C:\\old"]);
    text.push_str("x\n");
    assert!(prompt_candidates(&text).is_empty());
    let text = format!("C:\\far>\n{}", "y".repeat(8192));
    assert!(prompt_candidates(&text).is_empty());
    let text = format!("C:\\far>\n{}", "y".repeat(8184));
    assert_eq!(prompt_candidates(&text), ["C:\\far"]);
}

#[test]
fn the_session_file_is_under_the_users_data() {
    let data = Some("C:\\Users\\me\\AppData\\Roaming".to_string());
    assert_eq!(directory(&data, "T"), "C:\\Users\\me\\AppData\\Roaming\\mux");
    assert_eq!(path(&data, "T"), "C:\\Users\\me\\AppData\\Roaming\\mux\\session.json");
    assert_eq!(temp_path(&data, "T"), "C:\\Users\\me\\AppData\\Roaming\\mux\\session.json.tmp");
    assert_eq!(path(&None, "C:\\Temp\\"), "C:\\Temp\\mux\\session.json");
}

#[test]
fn a_restored_terminal_shows_its_past_above_a_rule() {
    assert_eq!(replay_text("", Some("C:\\x")), "");
    let text = replay_text("old", None);
    assert!(text.starts_with("old\x1b[?1049l"));
    assert!(text.ends_with("previous session\x1b[0m\r\n"));
}

#[test]
fn saving_fills_in_what_the_daemon_knows() {
    let snapshot = Snapshot {
        shell: "pwsh.exe".to_string(),
        scrollback: "stream".to_string(),
        cwd: Some("C:\\process".to_string()),
    };
    let mut t = SavedTerminal { scrollback: "PS C:\\prompt> ".to_string(), ..SavedTerminal::default() };
    assert_eq!(text_to_save(&t, &snapshot), "PS C:\\prompt> ");
    fill(&mut t, snapshot.clone(), &known(&["C:\\prompt"]));
    assert_eq!(t.shell, "pwsh.exe");
    assert_eq!(t.cwd.as_deref(), Some("C:\\prompt"));
    // A prompt in a directory that is gone does not count, and the stream
    // stands in for a text that is missing.
    let mut t = SavedTerminal::default();
    fill(&mut t, snapshot, &known(&[]));
    assert_eq!(t.cwd.as_deref(), Some("C:\\process"));
    assert_eq!(t.scrollback, "stream");
}

#[test]
fn terminals_that_are_gone_are_not_saved() {
    let named = SavedTerminal { id: 1, shell: "cmd.exe".to_string(), ..SavedTerminal::default() };
    let gone = SavedTerminal { id: 2, ..SavedTerminal::default() };
    let layout = Layout { active: Some(2), terminals: vec![gone, named] };
    let kept = keep_known(layout);
    assert_eq!(kept.active, Some(2));
    assert_eq!(kept.terminals.len(), 1);
    assert_eq!(kept.terminals[0].id, 1);
    assert!(Layout::default().terminals.is_empty());
}
