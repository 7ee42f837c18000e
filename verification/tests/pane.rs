use hmux::activity::{Activity, Entry, ProcessTable};
use hmux::pane::{shorten_title, Pane};
use hmux::windows_path::{join, stem_of};

#[test]
fn executable_paths_are_reduced_to_a_name() {
    assert_eq!(shorten_title(r"C:\Windows\system32\cmd.exe"), "cmd");
    assert_eq!(shorten_title(r"C:\Program Files\PowerShell\pwsh.exe"), "pwsh");
}

#[test]
fn a_real_title_is_left_alone() {
    assert_eq!(shorten_title("npm run dev"), "npm run dev");
    assert_eq!(shorten_title("vim README.md"), "vim README.md");
}

#[test]
fn only_a_path_to_a_program_is_cut_down() {
    assert_eq!(shorten_title("  cmd.exe "), "cmd.exe");
    assert_eq!(shorten_title("C:/tools/Git.EXE"), "Git");
    assert_eq!(shorten_title(r"C:\tools\.exe"), ".exe");
    assert_eq!(shorten_title(r"C:\a\readme.txt"), r"C:\a\readme.txt");
    // A share is no file.
    assert_eq!(shorten_title(r"\\server\share.exe"), r"\\server\share.exe");
    assert_eq!(shorten_title(r"\\server\share\x.exe"), "x");
}

#[test]
fn stems_of_all_sorts_of_paths() {
    let cases: [(&str, Option<&str>); 24] = [
        ("cmd.exe", Some("cmd")),
        (r"C:\Windows\cmd.exe", Some("cmd")),
        ("C:cmd.exe", Some("cmd")),
        ("C:", None),
        ("", None),
        (r"C:\", None),
        (r"C:\bin\", Some("bin")),
        (r"C:\bin\.", Some("bin")),
        (r"C:\bin\..", None),
        ("..", None),
        (".profile", Some(".profile")),
        ("a.b.c", Some("a.b")),
        ("a/b\\c.exe", Some("c")),
        (r"\\srv\share", None),
        (r"\\srv\share\a.b", Some("a")),
        (r"\\srv", Some("srv")),
        (r"\\.\COM1", None),
        (r"\\?\C:\x.exe", Some("x")),
        (r"\\?\x.exe", None),
        (r"\\?\UNC\srv\share.exe", None),
        (r"\\?\UNC\srv\share\y.exe", Some("y")),
        (r"\\?\C:\a/b.exe", Some("a/b")),
        ("./x.exe", Some("x")),
        ("...", Some("..")),
    ];
    for (path, stem) in cases {
        assert_eq!(stem_of(path).as_deref(), stem, "{path}");
    }
}

#[test]
fn a_name_with_a_place_of_its_own_is_not_put_under_the_folder() {
    assert_eq!(join(r"C:\a", r"D:\b"), r"D:\b");
    assert_eq!(join(r"C:\a", "D:b"), "D:b");
    assert_eq!(join(r"C:\a", r"\\server\share\b"), r"\\server\share\b");
    assert_eq!(join(r"\\?\C:\a", r"D:\b"), r"D:\b");
    assert_eq!(join(r"C:\a\b", r"\c"), r"C:\c");
    assert_eq!(join(r"\\server\share\a", "/c"), r"\\server\share/c");
    assert_eq!(join("a", r"\c"), r"\c");
}

#[test]
fn a_literal_path_is_rebuilt_from_its_parts() {
    assert_eq!(join(r"\\?\C:\a", "b"), r"\\?\C:\a\b");
    assert_eq!(join(r"\\?\C:\a\", "b"), r"\\?\C:\a\b");
    assert_eq!(join(r"\\?\C:\a", "b/c"), r"\\?\C:\a\b\c");
    assert_eq!(join(r"\\?\C:\a\\x", r".\b"), r"\\?\C:\a\x\b");
    assert_eq!(join(r"\\?\C:\a", r"..\b"), r"\\?\C:\b");
    assert_eq!(join(r"\\?\C:\", r"..\..\b"), r"\\?\C:\b");
    assert_eq!(join(r"\\?\C:\a\..", r"..\b"), r"\\?\C:\a\..\b");
    assert_eq!(join(r"\\?\C:\a\.", "b"), r"\\?\C:\a\.\b");
    assert_eq!(join(r"\\?\C:\a/b", "c"), r"\\?\C:\a/b\c");
    assert_eq!(join(r"\\?\C:\a/", "b"), r"\\?\C:\a/\b");
    assert_eq!(join(r"\\?\C:\a", r"\b"), r"\\?\C:\b");
    assert_eq!(join(r"\\?\C:\a", ".."), r"\\?\C:\");
    assert_eq!(join(r"\\?\C:", "b"), r"\\?\C:\b");
    assert_eq!(join(r"\\?\C:", "."), r"\\?\C:");
    assert_eq!(join(r"\\?\C:/a", "b"), r"\\?\C:\a\b");
    assert_eq!(join(r"\\?\UNC\server\share", "b"), r"\\?\UNC\server\share\b");
    assert_eq!(join(r"\\?\C:\a", ""), r"\\?\C:\a\");
}

#[test]
fn a_slash_after_a_literal_prefix_is_no_part_of_the_name() {
    assert_eq!(stem_of(r"\\?\C:/x.exe").as_deref(), Some("x"));
    assert_eq!(stem_of(r"\\?\C:\a/x.exe").as_deref(), Some("a/x"));
    assert_eq!(stem_of(r"\\?\C:\a\x.exe").as_deref(), Some("x"));
}

#[test]
fn joining_puts_one_separator_between() {
    assert_eq!(join(r"C:\a", "b"), r"C:\a\b");
    assert_eq!(join(r"C:\a\", "b"), r"C:\a\b");
    assert_eq!(join("C:/a/", "b"), "C:/a/b");
    assert_eq!(join("C:", "b"), "C:b");
    assert_eq!(join("", "b"), "b");
}

#[test]
fn a_pane_goes_by_its_title_and_else_by_its_label() {
    let mut p = Pane::new(3, "shell", 0, 0, None, 5);
    assert_eq!(p.display_name(), "shell");
    assert_eq!(p.grid.size(), (1, 1));
    let mut parser: vte::Parser = vte::Parser::new();
    assert_eq!(p.output(&mut parser, b"\x1b]2;build\x07\x1b[6n", 9), Some(b"\x1b[1;1R".to_vec()));
    assert_eq!(p.display_name(), "build");
    assert_eq!(p.last_output, 9);
    assert_eq!(p.resize(0, 7), (1, 7));
    assert_eq!(p.grid.size(), (1, 7));
}

#[test]
fn what_cannot_be_drawn_is_reported() {
    let mut p = Pane::new(1, "x", 1, 1, None, 0);
    let mut parser: vte::Parser = vte::Parser::new();
    assert_eq!(p.output(&mut parser, "\x1b[?7l日".as_bytes(), 1), None);
}

#[test]
fn a_running_command_flips_a_pane_to_busy_and_back() {
    let table = ProcessTable::capture(vec![
        Entry { pid: 10, parent: 1, name: "cmd.exe".to_string() },
        Entry { pid: 11, parent: 10, name: "PING.EXE".to_string() },
    ]);
    let mut p = Pane::new(1, "cmd", 80, 24, Some(10), 1000);
    assert_eq!(p.activity(&table, 1699), Activity::Running { command: "ping".to_string(), working: true });
    assert_eq!(p.activity(&table, 1700).label(), "ping · waiting");
    let idle = ProcessTable::capture(vec![]);
    assert_eq!(p.activity(&idle, 1001), Activity::Idle);
    p.alive = false;
    assert!(!p.is_alive());
    assert_eq!(p.activity(&table, 1001), Activity::Dead);
}
