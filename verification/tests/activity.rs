use hmux::activity::{
    classify, fold_shouting, is_infrastructure, strip_exe, without_exe, Activity, Entry, ProcessTable,
};

fn entry(pid: u32, parent: u32, name: &str) -> Entry {
    Entry { pid, parent, name: name.to_string() }
}

#[test]
fn a_dead_shell_is_dead_regardless_of_pid() {
    let table = ProcessTable::capture(vec![entry(4, 0, "System"), entry(9, 4, "smss.exe")]);
    assert_eq!(table.activity_of(Some(4), false, true), Activity::Dead);
    assert_eq!(table.activity_of(None, false, false), Activity::Dead);
}

#[test]
fn a_childless_process_reads_as_idle() {
    let table = ProcessTable::capture(vec![entry(4, 0, "System"), entry(9, 4, "smss.exe")]);
    // A pid that cannot have children in the table.
    assert_eq!(table.activity_of(Some(u32::MAX), true, true), Activity::Idle);
    assert_eq!(table.activity_of(None, true, true), Activity::Idle);
}

#[test]
fn a_quiet_command_is_running_but_not_working() {
    let table = ProcessTable::capture(vec![
        entry(100, 1, "powershell.exe"),
        entry(101, 100, "node.exe"),
    ]);

    let busy = table.activity_of(Some(100), true, true);
    assert!(busy.is_busy());
    assert_eq!(busy.label(), "node");

    let quiet = table.activity_of(Some(100), true, false);
    assert!(quiet.is_running(), "a quiet command is still running");
    assert!(!quiet.is_busy(), "a quiet command must not pulse as working");
    assert_eq!(quiet.label(), "node · waiting");
}

#[test]
fn the_command_reported_is_what_the_shell_launched() {
    let table = ProcessTable::capture(vec![
        entry(100, 1, "powershell.exe"),
        entry(101, 100, "node.exe"),
        entry(102, 101, "python.exe"),
    ]);
    assert_eq!(
        table.activity_of(Some(100), true, true),
        Activity::Running { command: "node".into(), working: true }
    );
}

#[test]
fn exe_suffixes_are_stripped_for_display() {
    assert_eq!(strip_exe("ping.exe"), "ping");
    assert_eq!(strip_exe("node"), "node");
    assert_eq!(strip_exe("cargo.EXE"), "cargo");
}

#[test]
fn console_plumbing_is_not_mistaken_for_a_command() {
    assert!(is_infrastructure("conhost.exe"));
    assert!(is_infrastructure("OpenConsole.exe"));
    assert!(is_infrastructure("CONHOST.EXE"));
    assert!(!is_infrastructure("node.exe"));
    assert!(!is_infrastructure("cargo.exe"));
}

#[test]
fn a_shell_with_only_a_conhost_child_still_reads_as_idle() {
    let table = ProcessTable::capture(vec![
        entry(100, 1, "powershell.exe"),
        entry(101, 100, "conhost.exe"),
    ]);
    assert_eq!(table.activity_of(Some(100), true, true), Activity::Idle);
}

#[test]
fn a_real_command_is_preferred_over_plumbing() {
    let table = ProcessTable::capture(vec![
        entry(100, 1, "powershell.exe"),
        // conhost comes first, exactly as it does in the real table.
        entry(101, 100, "conhost.exe"),
        entry(102, 100, "node.exe"),
    ]);
    assert_eq!(
        table.activity_of(Some(100), true, true),
        Activity::Running { command: "node".into(), working: true }
    );
}

#[test]
fn shouty_system_binaries_are_folded_but_real_casing_is_kept() {
    // The process table really does report "PING.EXE".
    assert_eq!(strip_exe("PING.EXE"), "ping");
    assert_eq!(strip_exe("ROBOCOPY.EXE"), "robocopy");
    assert_eq!(strip_exe("Code.exe"), "Code");
    assert_eq!(strip_exe("node.exe"), "node");
}

#[test]
fn odd_names_are_shown_as_they_are() {
    assert_eq!(strip_exe(".exe"), ".exe");
    assert_eq!(strip_exe(""), "");
    assert_eq!(strip_exe("7.exe"), "7");
    assert_eq!(strip_exe("日本"), "日本");
    assert_eq!(strip_exe("日本.exe"), "日本");
    assert_eq!(strip_exe("ÄÖÜ.EXE"), "äöü");
    assert_eq!(strip_exe("ÄöÜ.EXE"), "ÄöÜ");
    assert_eq!(strip_exe("R2D2"), "r2d2");
}

#[test]
fn a_process_is_not_its_own_child() {
    let table = ProcessTable::capture(vec![entry(0, 0, "Idle")]);
    assert_eq!(table.activity_of(Some(0), true, true), Activity::Idle);
    assert_eq!(table.child_command(0), None);
}

#[test]
fn what_a_badge_says() {
    assert_eq!(Activity::Idle.label(), "idle");
    assert_eq!(Activity::Dead.label(), "exited");
    assert!(!Activity::Idle.is_running());
    assert!(!Activity::Dead.is_busy());
}

#[test]
fn folding_needs_letters_and_only_capitals() {
    let fold = |letters: &[bool], capitals: &[bool]| {
        fold_shouting("BASE".to_string(), &letters.to_vec(), &capitals.to_vec(), "small".to_string())
    };
    assert_eq!(fold(&[true, false], &[true, false]), "small");
    assert_eq!(fold(&[true, true], &[true, false]), "BASE");
    assert_eq!(fold(&[false], &[true]), "BASE");
    assert_eq!(fold(&[], &[]), "BASE");
    assert_eq!(without_exe("A.Exe"), "A");
    assert_eq!(classify(true, None, true), Activity::Idle);
    assert_eq!(classify(false, Some("x".to_string()), true), Activity::Dead);
    assert_eq!(
        classify(true, Some("x".to_string()), false),
        Activity::Running { command: "x".to_string(), working: false }
    );
}
