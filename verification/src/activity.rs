//! Is this terminal doing something, or sitting at a prompt?
//!
//! A shell at its prompt has no children, and a shell that runs a command has
//! that command as a child. So the question is put to the process table.
use crate::text::{
    ascii_lower_text, ascii_lowered, begins_with, copy_text, from_chars, same_text, to_chars,
};
use vstd::prelude::*;

verus! {

/// What a terminal is doing.
#[derive(Debug, Clone, PartialEq, Eq)]
pub enum Activity {
    /// At a prompt, with no command running.
    Idle,
    /// A command is open. `working` tells one that is doing something from one
    /// that waits for the user: a long-lived interactive program is a running
    /// child all the time it is on the screen, but it goes quiet while it waits.
    Running { command: String, working: bool },
    /// The shell itself is gone.
    Dead,
}

/// An [`Activity`] with its text as characters.
#[verifier::ext_equal]
pub enum ActivityModel {
    Idle,
    Running { command: Seq<char>, working: bool },
    Dead,
}

impl View for Activity {
    type V = ActivityModel;

    open spec fn view(&self) -> ActivityModel {
        match *self {
            Activity::Idle => ActivityModel::Idle,
            Activity::Running { command, working } => ActivityModel::Running {
                command: command@,
                working,
            },
            Activity::Dead => ActivityModel::Dead,
        }
    }
}

impl ActivityModel {
    pub open spec fn label(self) -> Seq<char> {
        match self {
            ActivityModel::Idle => "idle"@,
            ActivityModel::Running { command, working } => if working {
                command
            } else {
                command + " · waiting"@
            },
            ActivityModel::Dead => "exited"@,
        }
    }
}

impl Activity {
    /// What a badge says.
    pub fn label(&self) -> (out: String)
        ensures
            out@ == self@.label(),
    {
        match self {
            Activity::Idle => copy_text("idle"),
            Activity::Running { command, working } => {
                let mut s = copy_text(command.as_str());
                if !*working {
                    s.push_str(" · waiting");
                }
                s
            },
            Activity::Dead => copy_text("exited"),
        }
    }

    /// A command is open and produces output.
    pub fn is_busy(&self) -> (res: bool)
        ensures
            res == (self@ matches ActivityModel::Running { working: true, .. }),
    {
        match self {
            Activity::Running { working, .. } => *working,
            _ => false,
        }
    }

    /// A command is open, whether or not it does anything right now.
    pub fn is_running(&self) -> (res: bool)
        ensures
            res == (self@ is Running),
    {
        match self {
            Activity::Running { .. } => true,
            _ => false,
        }
    }
}

/// One row of the process table.
pub struct Entry {
    pub pid: u32,
    pub parent: u32,
    pub name: String,
}

/// An [`Entry`] with its name as characters.
pub struct EntryModel {
    pub pid: u32,
    pub parent: u32,
    pub name: Seq<char>,
}

impl View for Entry {
    type V = EntryModel;

    open spec fn view(&self) -> EntryModel {
        EntryModel { pid: self.pid, parent: self.parent, name: self.name@ }
    }
}

/// A snapshot of the process table. Build one, then ask it about every pane.
pub struct ProcessTable {
    entries: Vec<Entry>,
}

/// What a snapshot holds, row by row.
pub struct TableModel {
    pub rows: Seq<EntryModel>,
}

impl View for ProcessTable {
    type V = TableModel;

    closed spec fn view(&self) -> TableModel {
        TableModel { rows: rows_of(self.entries@) }
    }
}

/// The rows of a list of entries.
pub open spec fn rows_of(entries: Seq<Entry>) -> Seq<EntryModel> {
    Seq::new(entries.len(), |i: int| entries[i]@)
}

/// Console plumbing that hangs off every shell and is never what the user runs.
pub open spec fn plumbing(name: Seq<char>) -> bool {
    ascii_lower_text(name) == "conhost.exe"@ || ascii_lower_text(name) == "openconsole.exe"@
}

/// Whether a program is console plumbing.
pub fn is_infrastructure(name: &str) -> (res: bool)
    ensures
        res == plumbing(name@),
{
    let lower = ascii_lowered(name);
    same_text(lower.as_str(), "conhost.exe") || same_text(lower.as_str(), "openconsole.exe")
}

impl TableModel {
    /// The row is a command that the shell itself started.
    pub open spec fn started_by(self, i: int, shell: u32) -> bool {
        self.rows[i].parent == shell && self.rows[i].pid != shell && !plumbing(self.rows[i].name)
    }

    /// The name of the first command, from row `i` on, that the shell started.
    pub open spec fn command_from(self, i: int, shell: u32) -> Option<Seq<char>>
        decreases self.rows.len() - i,
    {
        if i >= self.rows.len() {
            None
        } else if self.started_by(i, shell) {
            Some(self.rows[i].name)
        } else {
            self.command_from(i + 1, shell)
        }
    }

    /// What a shell is doing.
    pub open spec fn activity(self, shell: Option<u32>, alive: bool, output: bool) -> ActivityModel {
        if !alive {
            ActivityModel::Dead
        } else {
            match shell {
                None => ActivityModel::Idle,
                Some(pid) => match self.command_from(0, pid) {
                    Some(name) => ActivityModel::Running {
                        command: shown_command(name),
                        working: output,
                    },
                    None => ActivityModel::Idle,
                },
            }
        }
    }
}

impl ProcessTable {
    /// A snapshot made of rows.
    pub fn capture(entries: Vec<Entry>) -> (t: Self)
        ensures
            t@.rows == rows_of(entries@),
    {
        ProcessTable { entries }
    }

    /// The command that the shell itself launched: its direct child, since the
    /// bottom of the tree names whatever that command happens to run right now.
    pub fn child_command(&self, shell: u32) -> (res: Option<String>)
        ensures
            res is Some <==> self@.command_from(0, shell) is Some,
            res matches Some(name) ==> self@.command_from(0, shell) == Some(name@),
    {
        let mut i: usize = 0;
        while i < self.entries.len()
            invariant
                i <= self.entries@.len(),
                self@.command_from(i as int, shell) == self@.command_from(0, shell),
            decreases self.entries@.len() - i,
        {
            let e = &self.entries[i];
            assert(self@.rows[i as int] == e@);
            if e.parent == shell && e.pid != shell && !is_infrastructure(e.name.as_str()) {
                return Some(copy_text(e.name.as_str()));
            }
            i += 1;
        }
        None
    }

    /// What a shell is doing. `producing_output` is the caller's judgement of
    /// recent output, which the process table cannot tell.
    pub fn activity_of(&self, shell_pid: Option<u32>, alive: bool, producing_output: bool) -> (res:
        Activity)
        ensures
            res@ == self@.activity(shell_pid, alive, producing_output),
            alive ==> (shell_pid matches Some(pid) ==> (self@.command_from(0, pid) matches Some(name)
                ==> (all_ascii(name) ==> res@ == (ActivityModel::Running {
                command: shown_ascii(name),
                working: producing_output,
            })))),
    {
        let command = match shell_pid {
            None => None,
            Some(pid) => match self.child_command(pid) {
                Some(name) => Some(strip_exe(name.as_str())),
                None => None,
            },
        };
        classify(alive, command, producing_output)
    }
}

/// What a shell is doing, given the command that runs under it, if any.
pub fn classify(alive: bool, command: Option<String>, producing_output: bool) -> (res: Activity)
    ensures
        res@ == (if !alive {
            ActivityModel::Dead
        } else {
            match command {
                Some(name) => ActivityModel::Running { command: name@, working: producing_output },
                None => ActivityModel::Idle,
            }
        }),
{
    if !alive {
        return Activity::Dead;
    }
    match command {
        Some(command) => Activity::Running { command, working: producing_output },
        None => Activity::Idle,
    }
}

// ---- names ----------------------------------------------------------------------

/// What `char::is_alphabetic` says of a character.
pub uninterp spec fn alphabetic(c: char) -> bool;

/// Calls `char::is_alphabetic`.
///
/// Claimed of it: the answer is a function of the character, and of the ASCII
/// characters it is true for the letters and no other.
#[verifier::external_body]
fn is_alphabetic(c: char) -> (res: bool)
    ensures
        res == alphabetic(c),
        (c as u32) < 0x80 ==> res == ('a' <= c <= 'z' || 'A' <= c <= 'Z'),
{
    c.is_alphabetic()
}

/// What `char::is_uppercase` says of a character.
pub uninterp spec fn uppercase(c: char) -> bool;

/// Calls `char::is_uppercase`.
///
/// Claimed of it: the answer is a function of the character, and of the ASCII
/// characters it is true for the capitals and no other.
#[verifier::external_body]
fn is_uppercase(c: char) -> (res: bool)
    ensures
        res == uppercase(c),
        (c as u32) < 0x80 ==> res == ('A' <= c <= 'Z'),
{
    c.is_uppercase()
}

/// What `str::to_lowercase` makes of a text.
pub uninterp spec fn lowercase(s: Seq<char>) -> Seq<char>;

/// Calls `str::to_lowercase`.
///
/// Claimed of it: the text is a function of the text given, and of one that is
/// all ASCII the capitals are made small and nothing else is changed.
#[verifier::external_body]
fn lowered(s: &str) -> (out: String)
    ensures
        out@ == lowercase(s@),
        (forall|i: int| 0 <= i < s@.len() ==> (#[trigger] s@[i] as u32) < 0x80) ==> out@
            == ascii_lower_text(s@),
{
    s.to_lowercase()
}

/// `name` ends in `.exe`, in any case, with something before it.
pub open spec fn has_exe_suffix(name: Seq<char>) -> bool {
    name.len() > 4 && ascii_lower_text(name.skip(name.len() - 4)) == ".exe"@
}

/// `name` without its `.exe`.
pub open spec fn base_name(name: Seq<char>) -> Seq<char> {
    if has_exe_suffix(name) {
        name.take(name.len() - 4)
    } else {
        name
    }
}

/// Some character is a letter, and all letters are capitals. `letters` and
/// `capitals` say of each character whether it is one.
pub open spec fn shouts(letters: Seq<bool>, capitals: Seq<bool>) -> bool {
    &&& exists|i: int| 0 <= i < letters.len() && #[trigger] letters[i]
    &&& forall|i: int| 0 <= i < letters.len() && #[trigger] letters[i] ==> capitals[i]
}

/// Which characters of `s` are letters.
pub open spec fn letters_of(s: Seq<char>) -> Seq<bool> {
    Seq::new(s.len(), |i: int| alphabetic(s[i]))
}

/// Which characters of `s` are capitals.
pub open spec fn capitals_of(s: Seq<char>) -> Seq<bool> {
    Seq::new(s.len(), |i: int| uppercase(s[i]))
}

/// A program name as a badge shows it: without `.exe`, and in small letters
/// where it was all capitals. Any deliberate casing is left alone.
pub open spec fn shown_command(name: Seq<char>) -> Seq<char> {
    let base = base_name(name);
    if shouts(letters_of(base), capitals_of(base)) {
        lowercase(base)
    } else {
        base
    }
}

/// Every character is ASCII.
pub open spec fn all_ascii(s: Seq<char>) -> bool {
    forall|i: int| 0 <= i < s.len() ==> (#[trigger] s[i] as u32) < 0x80
}

pub open spec fn small_letter(c: char) -> bool {
    'a' <= c <= 'z'
}

pub open spec fn ascii_letter(c: char) -> bool {
    small_letter(c) || 'A' <= c <= 'Z'
}

/// An ASCII program name as a badge shows it: without `.exe`, and in small
/// letters where it has letters and none of them is small.
pub open spec fn shown_ascii(name: Seq<char>) -> Seq<char> {
    let base = base_name(name);
    if (exists|i: int| 0 <= i < base.len() && ascii_letter(#[trigger] base[i])) && (forall|i: int|
        0 <= i < base.len() ==> !small_letter(#[trigger] base[i])) {
        ascii_lower_text(base)
    } else {
        base
    }
}

/// `name` without its `.exe`.
pub fn without_exe(name: &str) -> (out: String)
    ensures
        out@ == base_name(name@),
{
    let v = to_chars(name);
    let n: usize = v.len();
    let mut end: usize = n;
    if n > 4 {
        let suffix = from_chars(&v, n - 4, n);
        assert(suffix@ =~= name@.skip(n - 4));
        let lower = ascii_lowered(suffix.as_str());
        if same_text(lower.as_str(), ".exe") {
            end = n - 4;
        }
    }
    let base = from_chars(&v, 0, end);
    assert(base@ =~= base_name(name@));
    base
}

/// `small` where the letters of a name are all capitals, and else the name as
/// it is.
pub fn fold_shouting(
    base: String,
    letters: &Vec<bool>,
    capitals: &Vec<bool>,
    small: String,
) -> (out: String)
    requires
        letters@.len() == capitals@.len(),
    ensures
        out@ == (if shouts(letters@, capitals@) {
            small@
        } else {
            base@
        }),
{
    let mut seen = false;
    let mut i: usize = 0;
    while i < letters.len()
        invariant
            i <= letters@.len(),
            letters@.len() == capitals@.len(),
            seen == exists|k: int| 0 <= k < i && #[trigger] letters@[k],
            forall|k: int| 0 <= k < i && #[trigger] letters@[k] ==> capitals@[k],
        decreases letters@.len() - i,
    {
        if letters[i] {
            if !capitals[i] {
                return base;
            }
            seen = true;
        }
        i += 1;
    }
    if seen {
        small
    } else {
        base
    }
}

/// The name of a program, as a badge shows it.
pub fn strip_exe(name: &str) -> (out: String)
    ensures
        out@ == shown_command(name@),
        all_ascii(name@) ==> out@ == shown_ascii(name@),
{
    let base = without_exe(name);
    let v = to_chars(base.as_str());
    let mut letters: Vec<bool> = Vec::new();
    let mut capitals: Vec<bool> = Vec::new();
    let mut i: usize = 0;
    while i < v.len()
        invariant
            i <= v@.len(),
            v@ == base@,
            letters@.len() == i,
            capitals@.len() == i,
            forall|k: int| 0 <= k < i ==> #[trigger] letters@[k] == alphabetic(base@[k]),
            forall|k: int| 0 <= k < i ==> #[trigger] capitals@[k] == uppercase(base@[k]),
            forall|k: int|
                0 <= k < i && (base@[k] as u32) < 0x80 ==> #[trigger] letters@[k] == ascii_letter(
                    base@[k],
                ),
            forall|k: int|
                0 <= k < i && (base@[k] as u32) < 0x80 ==> #[trigger] capitals@[k] == ('A'
                    <= base@[k] <= 'Z'),
        decreases v@.len() - i,
    {
        letters.push(is_alphabetic(v[i]));
        capitals.push(is_uppercase(v[i]));
        i += 1;
    }
    assert(letters@ =~= letters_of(base@));
    assert(capitals@ =~= capitals_of(base@));
    let small = lowered(base.as_str());
    proof {
        if all_ascii(name@) {
            assert forall|k: int| 0 <= k < base@.len() implies (#[trigger] base@[k] as u32)
                < 0x80 by {
                assert(base@[k] == name@[k]);
            }
            let spoken = exists|k: int| 0 <= k < base@.len() && ascii_letter(#[trigger] base@[k]);
            let loud = forall|k: int| 0 <= k < base@.len() ==> !small_letter(#[trigger] base@[k]);
            if spoken {
                let k = choose|k: int| 0 <= k < base@.len() && ascii_letter(#[trigger] base@[k]);
                assert(letters@[k]);
            }
            if shouts(letters@, capitals@) {
                let k = choose|k: int| 0 <= k < letters@.len() && #[trigger] letters@[k];
                assert(ascii_letter(base@[k]));
                assert forall|j: int| 0 <= j < base@.len() implies !small_letter(
                    #[trigger] base@[j],
                ) by {
                    assert(letters@[j] == ascii_letter(base@[j]));
                    assert(capitals@[j] == ('A' <= base@[j] <= 'Z'));
                }
            } else if spoken && loud {
                assert forall|j: int| 0 <= j < letters@.len() && #[trigger] letters@[j] implies capitals@[j] by {
                    assert(!small_letter(base@[j]));
                    assert(capitals@[j] == ('A' <= base@[j] <= 'Z'));
                }
            }
        }
    }
    fold_shouting(base, &letters, &capitals, small)
}

// ---- laws -----------------------------------------------------------------------

/// A dead shell is dead, whatever the table says.
pub proof fn law_dead_is_dead(t: TableModel, shell: Option<u32>, output: bool)
    ensures
        t.activity(shell, false, output) is Dead,
{
}

proof fn lemma_command_from(t: TableModel, i: int, shell: u32)
    requires
        0 <= i <= t.rows.len(),
    ensures
        t.command_from(i, shell) is Some <==> exists|k: int|
            i <= k < t.rows.len() && #[trigger] t.started_by(k, shell),
    decreases t.rows.len() - i,
{
    if i < t.rows.len() {
        lemma_command_from(t, i + 1, shell);
        if t.started_by(i, shell) {
        } else {
            if exists|k: int| i <= k < t.rows.len() && #[trigger] t.started_by(k, shell) {
                let k = choose|k: int| i <= k < t.rows.len() && #[trigger] t.started_by(k, shell);
                assert(i + 1 <= k < t.rows.len() && t.started_by(k, shell));
            }
        }
    }
}

/// A live shell runs a command exactly where the table holds a child of it that
/// is not plumbing; with plumbing alone it is idle.
pub proof fn law_running_means_a_child(t: TableModel, pid: u32, output: bool)
    ensures
        t.activity(Some(pid), true, output) is Running <==> exists|k: int|
            0 <= k < t.rows.len() && #[trigger] t.started_by(k, pid),
        t.activity(Some(pid), true, output) is Running || t.activity(
            Some(pid),
            true,
            output,
        ) is Idle,
{
    lemma_command_from(t, 0, pid);
}

/// Output does not decide whether a command runs, only whether it works: a
/// quiet command runs on.
pub proof fn law_quiet_commands_still_run(t: TableModel, pid: u32)
    ensures
        t.activity(Some(pid), true, true) is Running <==> t.activity(
            Some(pid),
            true,
            false,
        ) is Running,
        t.activity(Some(pid), true, true) matches ActivityModel::Running { command, working }
            ==> working && t.activity(Some(pid), true, false) == (ActivityModel::Running {
            command,
            working: false,
        }),
{
}

/// What runs below a command does not rename the terminal: rows whose parent is
/// not the shell make no difference, wherever they stand at the end of the
/// table.
pub proof fn law_grandchildren_do_not_show(t: TableModel, extra: EntryModel, pid: u32, i: int)
    requires
        extra.parent != pid,
        0 <= i <= t.rows.len(),
    ensures
        (TableModel { rows: t.rows.push(extra) }).command_from(i, pid) == t.command_from(i, pid),
    decreases t.rows.len() - i,
{
    let u = TableModel { rows: t.rows.push(extra) };
    if i < t.rows.len() {
        assert(u.rows[i] == t.rows[i]);
        law_grandchildren_do_not_show(t, extra, pid, i + 1);
    } else {
        assert(u.rows[i] == extra);
        assert(u.command_from(i + 1, pid) is None);
    }
}

/// The command that a shell runs is the first child of it in the table that is
/// not plumbing; where there is none, it runs none.
pub proof fn law_the_first_child_is_the_command(t: TableModel, i: int, shell: u32)
    requires
        0 <= i <= t.rows.len(),
    ensures
        t.command_from(i, shell) matches Some(name) ==> exists|k: int|
            i <= k < t.rows.len() && (#[trigger] t.rows[k]).name == name && t.rows[k].parent == shell
                && t.rows[k].pid != shell && !plumbing(t.rows[k].name) && forall|j: int|
                i <= j < k ==> !((#[trigger] t.rows[j]).parent == shell && t.rows[j].pid != shell
                    && !plumbing(t.rows[j].name)),
        t.command_from(i, shell) is None ==> forall|j: int|
            i <= j < t.rows.len() ==> !((#[trigger] t.rows[j]).parent == shell && t.rows[j].pid
                != shell && !plumbing(t.rows[j].name)),
    decreases t.rows.len() - i,
{
    if i < t.rows.len() {
        if t.started_by(i, shell) {
            assert(t.rows[i].name == t.command_from(i, shell).unwrap());
        } else {
            law_the_first_child_is_the_command(t, i + 1, shell);
        }
    }
}

/// A shell that runs a command is shown with that command, and as working where
/// it printed a moment ago; a shell whose process is not known is idle.
pub proof fn law_the_command_is_shown(t: TableModel, pid: u32, output: bool, name: Seq<char>)
    ensures
        t.command_from(0, pid) == Some(name) ==> t.activity(Some(pid), true, output) == (
        ActivityModel::Running { command: shown_command(name), working: output }),
        t.command_from(0, pid) is None ==> t.activity(Some(pid), true, output) is Idle,
        t.activity(None, true, output) is Idle,
{
}

/// The badge of a command at work is its name; one that waits says so behind it,
/// and the badges of idle and dead shells are no command's.
pub proof fn law_badges_tell_what_runs(command: Seq<char>)
    ensures
        (ActivityModel::Running { command, working: true }).label() == command,
        begins_with(
            (ActivityModel::Running { command, working: false }).label(),
            command,
        ),
        (ActivityModel::Running { command, working: false }).label() != command,
        ActivityModel::Idle.label() == "idle"@,
        ActivityModel::Dead.label() == "exited"@,
{
    reveal_strlit(" · waiting");
    let label = (ActivityModel::Running { command, working: false }).label();
    assert(label.take(command.len() as int) =~= command);
    assert(label.len() > command.len());
}

/// Plumbing is known in any case.
pub proof fn law_plumbing_is_known_in_any_case(name: Seq<char>)
    ensures
        ascii_lower_text(name) == "conhost.exe"@ ==> plumbing(name),
        ascii_lower_text(name) == "openconsole.exe"@ ==> plumbing(name),
        plumbing(name) ==> ascii_lower_text(name) == "conhost.exe"@ || ascii_lower_text(name)
            == "openconsole.exe"@,
{
}

/// A name loses its `.exe`, in any case, where something stands before it, and a
/// name without it loses nothing.
pub proof fn law_names_lose_their_exe(name: Seq<char>, suffix: Seq<char>)
    requires
        suffix.len() == 4,
    ensures
        name.len() > 0 && ascii_lower_text(suffix) == ".exe"@ ==> base_name(name + suffix) == name,
        ascii_lower_text(suffix) != ".exe"@ ==> base_name(name + suffix) == name + suffix,
        name.len() <= 4 ==> base_name(name) == name,
{
    let all = name + suffix;
    assert(all.skip(all.len() - 4) =~= suffix);
    assert(all.take(all.len() - 4) =~= name);
}

/// A name in capitals alone is shown in small letters; one with a small letter in
/// it, or without any letter, is shown as it is.
pub proof fn law_capitals_are_shown_small(name: Seq<char>, k: int)
    requires
        0 <= k < base_name(name).len(),
    ensures
        ({
            let base = base_name(name);
            &&& 'a' <= base[k] <= 'z' ==> shown_ascii(name) == base
            &&& ('A' <= base[k] <= 'Z' && forall|i: int|
                0 <= i < base.len() ==> !('a' <= #[trigger] base[i] <= 'z')) ==> shown_ascii(name)
                == ascii_lower_text(base)
            &&& (forall|i: int|
                0 <= i < base.len() ==> !('a' <= #[trigger] base[i] <= 'z') && !('A' <= base[i]
                    <= 'Z')) ==> shown_ascii(name) == base
        }),
{
    let base = base_name(name);
    if 'a' <= base[k] <= 'z' {
        assert(small_letter(base[k]));
    }
    if 'A' <= base[k] <= 'Z' {
        assert(ascii_letter(base[k]));
    }
}

/// A name whose letters are all capitals is shown small, and any other name as it
/// is: one with a letter that is no capital, or without letters.
pub proof fn law_only_shouting_is_softened(name: Seq<char>, k: int)
    requires
        0 <= k < base_name(name).len(),
    ensures
        ({
            let base = base_name(name);
            let all_capitals = forall|i: int|
                0 <= i < base.len() && alphabetic(#[trigger] base[i]) ==> uppercase(base[i]);
            &&& alphabetic(base[k]) && !uppercase(base[k]) ==> shown_command(name) == base
            &&& alphabetic(base[k]) && all_capitals ==> shown_command(name) == lowercase(base)
            &&& (forall|i: int| 0 <= i < base.len() ==> !alphabetic(#[trigger] base[i]))
                ==> shown_command(name) == base
        }),
{
    let base = base_name(name);
    let letters = letters_of(base);
    let capitals = capitals_of(base);
    assert(letters[k] == alphabetic(base[k]));
    if alphabetic(base[k]) && (forall|i: int|
        0 <= i < base.len() && alphabetic(#[trigger] base[i]) ==> uppercase(base[i])) {
        assert forall|i: int| 0 <= i < letters.len() && #[trigger] letters[i] implies capitals[i] by {
            assert(alphabetic(base[i]));
        }
    }
    if forall|i: int| 0 <= i < base.len() ==> !alphabetic(#[trigger] base[i]) {
        assert forall|i: int| 0 <= i < letters.len() implies !(#[trigger] letters[i]) by {
            assert(!alphabetic(base[i]));
        }
    }
}

} // verus!
