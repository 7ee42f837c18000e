//! Updating in place, without dropping what is running.
//!
//! Windows does not let the image of a running process be overwritten, but it
//! lets it be renamed: the process carries on from the renamed file, and the
//! name is free for the new build. So every binary is moved aside, replaced, and
//! the one moved aside is swept up at some later start. The daemon is not
//! restarted: it keeps running its shells, and the new build is picked up when
//! it next starts.
use crate::persist::is_listed;
use crate::text::{
    begins_with, copy_text, decimal, finishes_with, from_chars, lemma_decimal_digits,
    lemma_decimal_injective, push_decimal, same_text, texts, to_chars,
};
use crate::windows_path::{join, joined, last_dot};
use vstd::prelude::*;

verus! {

/// How many binaries an update may replace.
pub const UPDATABLE: usize = 3;

/// A download smaller than this is no program, but some proxy's error page.
pub const SMALLEST_PROGRAM: usize = 65536;

/// The binaries that an update may replace. A fixed list: the name comes from a
/// page that has just been talking to the network.
pub open spec fn binary(k: int) -> Seq<char> {
    if k == 0 {
        "mux-gui.exe"@
    } else if k == 1 {
        "mux.exe"@
    } else {
        "mux-daemon.exe"@
    }
}

/// The name is that of one of the binaries, letter for letter.
pub open spec fn is_ours(name: Seq<char>) -> bool {
    name == binary(0) || name == binary(1) || name == binary(2)
}

fn binary_name(k: usize) -> (s: &'static str)
    ensures
        s@ == binary(k as int),
{
    if k == 0 {
        "mux-gui.exe"
    } else if k == 1 {
        "mux.exe"
    } else {
        "mux-daemon.exe"
    }
}

pub open spec fn not_ours(name: Seq<char>) -> Seq<char> {
    name + " is not one of this app's binaries"@
}

/// Refuse any name but those of the binaries.
pub fn checked_name(name: &str) -> (res: Result<String, String>)
    ensures
        res is Ok <==> is_ours(name@),
        res matches Ok(s) ==> s@ == name@,
        res matches Err(why) ==> why@ == not_ours(name@),
{
    let mut k: usize = 0;
    while k < UPDATABLE
        invariant
            k <= UPDATABLE,
            forall|j: int| 0 <= j < k ==> name@ != #[trigger] binary(j),
        decreases UPDATABLE - k,
    {
        if same_text(name, binary_name(k)) {
            return Ok(copy_text(binary_name(k)));
        }
        k += 1;
    }
    assert(name@ != binary(0) && name@ != binary(1) && name@ != binary(2));
    let mut why = copy_text(name);
    why.push_str(" is not one of this app's binaries");
    Err(why)
}

/// The bytes begin as every Windows program does.
pub open spec fn looks_like_a_program(bytes: Seq<u8>) -> bool {
    bytes.len() >= 2 && bytes[0] == 0x4d && bytes[1] == 0x5a
}

/// Check a download before it is staged. What comes back is the name to stage
/// it under.
pub fn update_stage(name: String, bytes: Vec<u8>) -> (res: Result<String, String>)
    ensures
        res is Ok <==> is_ours(name@) && bytes@.len() >= SMALLEST_PROGRAM && looks_like_a_program(
            bytes@,
        ),
        res matches Ok(s) ==> s@ == name@,
        res matches Err(why) ==> why@ == (if !is_ours(name@) {
            not_ours(name@)
        } else if bytes@.len() < SMALLEST_PROGRAM {
            name@ + " came back as "@ + decimal(bytes@.len()) + " bytes, which is not a program"@
        } else {
            name@ + " is not a Windows executable"@
        }),
{
    let name = checked_name(name.as_str())?;
    if bytes.len() < SMALLEST_PROGRAM {
        let mut why = name;
        why.push_str(" came back as ");
        push_decimal(&mut why, bytes.len() as u64);
        why.push_str(" bytes, which is not a program");
        return Err(why);
    }
    if bytes[0] != 0x4d || bytes[1] != 0x5a {
        let mut why = name;
        why.push_str(" is not a Windows executable");
        return Err(why);
    }
    Ok(name)
}

/// The first `n` binaries that are among `files`.
pub open spec fn staged(files: Seq<Seq<char>>, n: int) -> Seq<Seq<char>>
    decreases n,
{
    if n <= 0 {
        Seq::empty()
    } else if files.contains(binary(n - 1)) {
        staged(files, n - 1).push(binary(n - 1))
    } else {
        staged(files, n - 1)
    }
}

/// Which binaries are staged. `files` are the names in the staging folder.
pub fn update_staged(files: &Vec<String>) -> (out: Vec<String>)
    ensures
        texts(out@) == staged(texts(files@), UPDATABLE as int),
{
    let mut out: Vec<String> = Vec::new();
    let mut k: usize = 0;
    assert(texts(out@) =~= Seq::empty());
    while k < UPDATABLE
        invariant
            k <= UPDATABLE,
            texts(out@) == staged(texts(files@), k as int),
        decreases UPDATABLE - k,
    {
        let ghost before = texts(out@);
        if is_listed(files, binary_name(k)) {
            out.push(copy_text(binary_name(k)));
            assert(texts(out@) =~= before.push(binary(k as int)));
        }
        k += 1;
    }
    out
}

// ---- applying -------------------------------------------------------------------

/// An update to be applied: the folder of the app, the staged binaries, and a
/// stamp of the run.
pub struct Plan {
    pub dir: String,
    pub ready: Vec<String>,
    pub stamp: u64,
}

/// The name that a binary is moved aside under. The stamp keeps it from landing
/// on one that is still there from the last time.
pub open spec fn aside_name(name: Seq<char>, stamp: u64) -> Seq<char> {
    name + "."@ + decimal(stamp as nat) + ".old"@
}

impl Plan {
    pub open spec fn live(self, k: int) -> Seq<char> {
        joined(self.dir@, self.ready@[k]@)
    }

    pub open spec fn fresh(self, k: int) -> Seq<char> {
        joined(joined(self.dir@, "staged"@), self.ready@[k]@)
    }

    pub open spec fn aside(self, k: int) -> Seq<char> {
        joined(self.dir@, aside_name(self.ready@[k]@, self.stamp))
    }

    /// Where the binary is run from.
    pub fn live_path(&self, k: usize) -> (out: String)
        requires
            k < self.ready@.len(),
        ensures
            out@ == self.live(k as int),
    {
        join(self.dir.as_str(), self.ready[k].as_str())
    }

    /// Where the new build waits.
    pub fn staged_path(&self, k: usize) -> (out: String)
        requires
            k < self.ready@.len(),
        ensures
            out@ == self.fresh(k as int),
    {
        let folder = join(self.dir.as_str(), "staged");
        join(folder.as_str(), self.ready[k].as_str())
    }

    /// Where the old build goes.
    pub fn aside_path(&self, k: usize) -> (out: String)
        requires
            k < self.ready@.len(),
        ensures
            out@ == self.aside(k as int),
    {
        let mut name = copy_text(self.ready[k].as_str());
        name.push_str(".");
        push_decimal(&mut name, self.stamp);
        name.push_str(".old");
        join(self.dir.as_str(), name.as_str())
    }
}

/// What to do next.
pub enum Step {
    /// See whether the `k`-th binary is there.
    Look { k: usize },
    /// Rename it out of the way.
    MoveAside { k: usize },
    /// Rename the new build to its name.
    Install { k: usize },
    /// That failed; rename the old build back.
    PutBack { k: usize, why: String },
    /// Remove the staging folder.
    Clear,
    /// Start the new window.
    Launch,
    /// Leave to it.
    Leave,
    /// Give up, and say why.
    Failed(String),
}

#[verifier::ext_equal]
pub enum StepModel {
    Look { k: int },
    MoveAside { k: int },
    Install { k: int },
    PutBack { k: int, why: Seq<char> },
    Clear,
    Launch,
    Leave,
    Failed(Seq<char>),
}

impl View for Step {
    type V = StepModel;

    open spec fn view(&self) -> StepModel {
        match *self {
            Step::Look { k } => StepModel::Look { k: k as int },
            Step::MoveAside { k } => StepModel::MoveAside { k: k as int },
            Step::Install { k } => StepModel::Install { k: k as int },
            Step::PutBack { k, why } => StepModel::PutBack { k: k as int, why: why@ },
            Step::Clear => StepModel::Clear,
            Step::Launch => StepModel::Launch,
            Step::Leave => StepModel::Leave,
            Step::Failed(why) => StepModel::Failed(why@),
        }
    }
}

/// How a step went.
pub enum Report {
    /// Done; of a look, that something is there.
    Yes,
    /// Of a look, that nothing is there.
    No,
    /// It failed, and this is why.
    Error(String),
}

impl Plan {
    pub open spec fn begun(self) -> StepModel {
        if self.ready@.len() == 0 {
            StepModel::Failed("there is nothing staged to install"@)
        } else {
            StepModel::Look { k: 0 }
        }
    }

    /// The step after this one.
    pub open spec fn after(self, step: StepModel, report: Report) -> StepModel {
        match step {
            StepModel::Look { k } => if report is Yes {
                StepModel::MoveAside { k }
            } else {
                StepModel::Install { k }
            },
            StepModel::MoveAside { k } => match report {
                Report::Error(e) => StepModel::Failed(
                    "could not move "@ + self.live(k) + " aside: "@ + e@,
                ),
                _ => StepModel::Install { k },
            },
            StepModel::Install { k } => match report {
                Report::Error(e) => StepModel::PutBack {
                    k,
                    why: "could not install "@ + self.live(k) + ": "@ + e@,
                },
                _ => if k + 1 < self.ready@.len() {
                    StepModel::Look { k: k + 1 }
                } else {
                    StepModel::Clear
                },
            },
            StepModel::PutBack { k, why } => StepModel::Failed(why),
            StepModel::Clear => StepModel::Launch,
            StepModel::Launch => match report {
                Report::Error(e) => StepModel::Failed(
                    "installed the update but could not start "@ + joined(
                        self.dir@,
                        "mux-gui.exe"@,
                    ) + ": "@ + e@,
                ),
                _ => StepModel::Leave,
            },
            StepModel::Leave => StepModel::Leave,
            StepModel::Failed(why) => StepModel::Failed(why),
        }
    }

    /// The step names a binary that there is.
    pub open spec fn names(self, step: StepModel) -> bool {
        match step {
            StepModel::Look { k } => 0 <= k < self.ready@.len(),
            StepModel::MoveAside { k } => 0 <= k < self.ready@.len(),
            StepModel::Install { k } => 0 <= k < self.ready@.len(),
            StepModel::PutBack { k, why } => 0 <= k < self.ready@.len(),
            _ => true,
        }
    }

    /// Where to begin.
    pub fn begin(&self) -> (step: Step)
        ensures
            step@ == self.begun(),
            self.names(step@),
    {
        if self.ready.len() == 0 {
            Step::Failed(copy_text("there is nothing staged to install"))
        } else {
            Step::Look { k: 0 }
        }
    }

    /// The new window's program.
    pub fn window_path(&self) -> (out: String)
        ensures
            out@ == joined(self.dir@, "mux-gui.exe"@),
    {
        join(self.dir.as_str(), "mux-gui.exe")
    }

    /// The step after this one, given how this one went.
    pub fn next(&self, step: Step, report: Report) -> (after: Step)
        requires
            self.names(step@),
        ensures
            after@ == self.after(step@, report),
            self.names(after@),
    {
        match step {
            Step::Look { k } => match report {
                Report::Yes => Step::MoveAside { k },
                _ => Step::Install { k },
            },
            Step::MoveAside { k } => match report {
                Report::Error(e) => {
                    let mut why = copy_text("could not move ");
                    why.push_str(self.live_path(k).as_str());
                    why.push_str(" aside: ");
                    why.push_str(e.as_str());
                    Step::Failed(why)
                },
                _ => Step::Install { k },
            },
            Step::Install { k } => match report {
                Report::Error(e) => {
                    let mut why = copy_text("could not install ");
                    why.push_str(self.live_path(k).as_str());
                    why.push_str(": ");
                    why.push_str(e.as_str());
                    Step::PutBack { k, why }
                },
                _ => if k < self.ready.len() - 1 {
                    Step::Look { k: k + 1 }
                } else {
                    Step::Clear
                },
            },
            Step::PutBack { k: _, why } => Step::Failed(why),
            Step::Clear => Step::Launch,
            Step::Launch => match report {
                Report::Error(e) => {
                    let mut why = copy_text("installed the update but could not start ");
                    why.push_str(self.window_path().as_str());
                    why.push_str(": ");
                    why.push_str(e.as_str());
                    Step::Failed(why)
                },
                _ => Step::Leave,
            },
            Step::Leave => Step::Leave,
            Step::Failed(why) => Step::Failed(why),
        }
    }
}

// ---- sweeping -------------------------------------------------------------------

/// The file was moved aside by an update: its extension is `old`.
pub open spec fn leftover(name: Seq<char>) -> bool {
    last_dot(name, 0, name.len() as int) matches Some(dot) && dot > 0 && name.skip(dot + 1)
        == "old"@
}

/// Whether a file was moved aside by an update.
pub fn is_leftover(name: &str) -> (res: bool)
    ensures
        res == leftover(name@),
{
    let v = to_chars(name);
    let n: usize = v.len();
    let mut i: usize = n;
    while i > 0
        invariant
            i <= n,
            n == v@.len(),
            v@ == name@,
            last_dot(name@, 0, i as int) == last_dot(name@, 0, n as int),
        decreases i,
    {
        if v[i - 1] == '.' {
            let rest = from_chars(&v, i, n);
            assert(rest@ =~= name@.skip(i as int));
            return i > 1 && same_text(rest.as_str(), "old");
        }
        i -= 1;
    }
    false
}

// ---- laws -----------------------------------------------------------------------

/// No name with a separator in it is one of ours, so nothing outside the app's
/// own folder is ever named.
pub proof fn law_no_path_is_a_name(name: Seq<char>)
    requires
        name.contains('\\') || name.contains('/'),
    ensures
        !is_ours(name),
{
    reveal_strlit("mux-gui.exe");
    reveal_strlit("mux.exe");
    reveal_strlit("mux-daemon.exe");
}

/// Which build is to be found under the name of a binary.
pub enum Held {
    Nothing,
    Old,
    New,
}

/// What a step does to the names, where it succeeds.
pub open spec fn held_after(held: Seq<Held>, step: StepModel, report: Report) -> Seq<Held> {
    if report is Error {
        held
    } else {
        match step {
            StepModel::MoveAside { k } => held.update(k, Held::Nothing),
            StepModel::Install { k } => held.update(k, Held::New),
            StepModel::PutBack { k, why } => held.update(k, Held::Old),
            _ => held,
        }
    }
}

/// Every binary that was there is still there under its name, old or new,
/// except for the one that is being replaced this moment.
pub open spec fn safe(had: Seq<bool>, held: Seq<Held>, step: StepModel) -> bool {
    let busy = match step {
        StepModel::Install { k } => k,
        StepModel::PutBack { k, why } => k,
        _ => -1,
    };
    &&& held.len() == had.len()
    &&& forall|i: int| 0 <= i < had.len() && i != busy && had[i] ==> !((#[trigger] held[i]) is Nothing)
}

/// An update never leaves the app without one of its programs: at every step,
/// and so also where it gives up, every binary that was there is there, as long
/// as putting the old one back succeeds.
pub proof fn law_no_program_is_lost(
    plan: Plan,
    had: Seq<bool>,
    held: Seq<Held>,
    step: StepModel,
    report: Report,
)
    requires
        had.len() == plan.ready@.len(),
        plan.names(step),
        safe(had, held, step),
        step is PutBack ==> !(report is Error),
    ensures
        safe(had, held_after(held, step, report), plan.after(step, report)),
        plan.names(plan.after(step, report)),
{
}

/// How far an update has come.
pub open spec fn progress(plan: Plan, step: StepModel) -> int {
    let n = plan.ready@.len() as int;
    match step {
        StepModel::Look { k } => 4 * k,
        StepModel::MoveAside { k } => 4 * k + 1,
        StepModel::Install { k } => 4 * k + 2,
        StepModel::PutBack { k, why } => 4 * k + 3,
        StepModel::Clear => 4 * n,
        StepModel::Launch => 4 * n + 1,
        StepModel::Leave => 4 * n + 2,
        StepModel::Failed(why) => 4 * n + 2,
    }
}

/// An update comes to an end: every step leads further.
pub proof fn law_an_update_ends(plan: Plan, step: StepModel, report: Report)
    requires
        plan.names(step),
        !(step is Leave),
        !(step is Failed),
    ensures
        progress(plan, plan.after(step, report)) > progress(plan, step),
{
}

/// Two updates move a binary aside under different names.
pub proof fn law_asides_never_meet(name: Seq<char>, s: u64, t: u64)
    requires
        aside_name(name, s) == aside_name(name, t),
    ensures
        s == t,
{
    reveal_strlit(".");
    reveal_strlit(".old");
    let a = aside_name(name, s);
    let b = aside_name(name, t);
    let m = decimal(s as nat);
    let n = decimal(t as nat);
    let from = name.len() as int + 1;
    assert(a.len() == from + m.len() + 4);
    assert(b.len() == from + n.len() + 4);
    assert(m =~= a.subrange(from as int, from + m.len()));
    assert(n =~= b.subrange(from as int, from + n.len()));
    lemma_decimal_injective(s as nat, t as nat);
}

/// What an update moved aside is what a later start sweeps up.
pub proof fn law_asides_are_swept(name: Seq<char>, stamp: u64)
    ensures
        leftover(aside_name(name, stamp)),
{
    reveal_strlit(".");
    reveal_strlit(".old");
    reveal_strlit("old");
    let a = aside_name(name, stamp);
    let n = a.len() as int;
    lemma_decimal_digits(stamp as nat);
    reveal_with_fuel(last_dot, 5);
    assert(a[n - 4] == '.' && a[n - 3] == 'o' && a[n - 2] == 'l' && a[n - 1] == 'd');
    assert(a.skip(n - 3) =~= "old"@);
}

/// What is staged are those of the app's own binaries that are there, and nothing
/// else that happens to lie beside them.
pub proof fn law_only_our_binaries_are_staged(files: Seq<Seq<char>>, name: Seq<char>)
    ensures
        staged(files, 3).contains(name) <==> files.contains(name) && (name == "mux-gui.exe"@ || name
            == "mux.exe"@ || name == "mux-daemon.exe"@),
        staged(files, 3).len() <= 3,
{
    reveal_with_fuel(staged, 4);
    let s1 = staged(files, 1);
    let s2 = staged(files, 2);
    let s3 = staged(files, 3);
    if files.contains(binary(0)) {
        assert(s1[0] == binary(0));
        assert(s2[0] == binary(0));
        assert(s3[0] == binary(0));
    }
    if files.contains(binary(1)) {
        assert(s2[s1.len() as int] == binary(1));
        assert(s3[s1.len() as int] == binary(1));
    }
    if files.contains(binary(2)) {
        assert(s3[s2.len() as int] == binary(2));
    }
}

/// The app's own binaries are known letter for letter.
pub proof fn law_our_binaries_are_known(name: Seq<char>)
    ensures
        is_ours(name) <==> name == "mux-gui.exe"@ || name == "mux.exe"@ || name
            == "mux-daemon.exe"@,
{
}

/// A download counts as a program where it begins with `MZ`; one cut shorter than
/// that does not.
pub proof fn law_programs_begin_with_their_mark(rest: Seq<u8>, bytes: Seq<u8>)
    ensures
        looks_like_a_program(seq![0x4du8, 0x5au8] + rest),
        looks_like_a_program(bytes) ==> bytes[0] == 0x4d && bytes[1] == 0x5a,
        bytes.len() < 2 ==> !looks_like_a_program(bytes),
{
}

/// An update gives up only over a step that failed. Where every step succeeds, a
/// binary that is there is moved aside before the new one takes its place, every
/// binary has its turn, and only after the last of them the app is started anew
/// and this one leaves.
pub proof fn law_an_update_takes_its_steps(plan: Plan, step: StepModel, report: Report, k: int)
    ensures
        plan.after(step, report) is Failed && !(step is Failed) && !(step is PutBack) ==> report
            is Error,
        plan.after(StepModel::Look { k }, Report::Yes) == (StepModel::MoveAside { k }),
        !(report is Yes) ==> plan.after(StepModel::Look { k }, report) == (StepModel::Install { k }),
        !(report is Error) ==> plan.after(StepModel::MoveAside { k }, report) == (
        StepModel::Install { k }),
        !(report is Error) && k + 1 < plan.ready@.len() ==> plan.after(
            StepModel::Install { k },
            report,
        ) == (StepModel::Look { k: k + 1 }),
        !(report is Error) && k + 1 >= plan.ready@.len() ==> plan.after(
            StepModel::Install { k },
            report,
        ) is Clear,
        report is Error ==> plan.after(StepModel::Install { k }, report) is PutBack,
        report is Error ==> plan.after(StepModel::MoveAside { k }, report) is Failed,
        plan.after(StepModel::Clear, report) is Launch,
        !(report is Error) ==> plan.after(StepModel::Launch, report) is Leave,
        plan.after(step, report) is Launch ==> step is Clear,
        plan.ready@.len() > 0 ==> plan.begun() == (StepModel::Look { k: 0 }),
        plan.ready@.len() == 0 ==> plan.begun() is Failed,
{
}

/// A file counts as left over where its name ends in `.old` with something before
/// that, and no other does.
pub proof fn law_only_old_files_are_swept(a: Seq<char>, end: Seq<char>)
    requires
        forall|k: int| 0 <= k < end.len() ==> (#[trigger] end[k]) != '.',
    ensures
        leftover(a + seq!['.'] + end) <==> a.len() > 0 && end == "old"@,
        !leftover(end),
{
    let n = a + seq!['.'] + end;
    crate::windows_path::lemma_dot_is_last(n, 0, n.len() as int, a.len() as int);
    assert(n.skip(a.len() as int + 1) =~= end);
    crate::windows_path::lemma_dotless(end, 0, end.len() as int);
}

/// An update that fails says what it could not do and why, and one that could not
/// install a binary puts the old one back before it says so.
pub proof fn law_a_failed_update_says_why(plan: Plan, k: int, e: String, why: Seq<char>, report: Report)
    ensures
        plan.after(StepModel::MoveAside { k }, Report::Error(e)) matches StepModel::Failed(w)
            && finishes_with(w, ": "@ + e@),
        plan.after(StepModel::Install { k }, Report::Error(e)) matches StepModel::PutBack {
            k: back,
            why: w,
        } && back == k && finishes_with(w, ": "@ + e@),
        plan.after(StepModel::Launch, Report::Error(e)) matches StepModel::Failed(w)
            && finishes_with(w, ": "@ + e@),
        plan.after(StepModel::PutBack { k, why }, report) == StepModel::Failed(why),
{
    reveal_strlit(" aside: ");
    reveal_strlit(": ");
    let end = ": "@ + e@;
    let aside = "could not move "@ + plan.live(k) + " aside: "@ + e@;
    assert(aside.skip(aside.len() - end.len()) =~= end);
    let install = "could not install "@ + plan.live(k) + ": "@ + e@;
    assert(install.skip(install.len() - end.len()) =~= end);
    let start = "installed the update but could not start "@ + joined(plan.dir@, "mux-gui.exe"@)
        + ": "@ + e@;
    assert(start.skip(start.len() - end.len()) =~= end);
}

/// A binary is replaced where it lies, from the folder of what is staged, and
/// moved aside beside itself.
pub proof fn law_an_update_stays_in_its_folder(plan: Plan, k: int)
    requires
        0 <= k < plan.ready@.len(),
        is_ours(plan.ready@[k]@),
        plan.dir@.len() > 2,
        plan.dir@[0] != '\\' && plan.dir@[0] != '/',
        plan.dir@.last() != '\\' && plan.dir@.last() != '/',
    ensures
        plan.live(k) == plan.dir@ + "\\"@ + plan.ready@[k]@,
        plan.fresh(k) == plan.dir@ + "\\staged\\"@ + plan.ready@[k]@,
        begins_with(plan.aside(k), plan.live(k) + "."@),
        finishes_with(plan.aside(k), ".old"@),
        plan.aside(k).len() > plan.live(k).len() + 5,
{
    let name = plan.ready@[k]@;
    let aside = aside_name(name, plan.stamp);
    reveal_strlit("mux-gui.exe");
    reveal_strlit("mux.exe");
    reveal_strlit("mux-daemon.exe");
    reveal_strlit("\\");
    reveal_strlit("\\staged\\");
    reveal_strlit("staged");
    reveal_strlit(".");
    reveal_strlit(".old");
    assert(name.len() >= 7 && name[0] == 'm' && name[1] == 'u');
    crate::text::law_numerals_read_back(plan.stamp as nat);
    assert(aside[0] == 'm' && aside[1] == 'u');
    let dir = joined(plan.dir@, "staged"@);
    assert(dir =~= plan.dir@ + "\\staged"@) by {
        reveal_strlit("\\staged");
    }
    assert(dir[0] == plan.dir@[0]);
    assert(dir.last() == 'd');
    assert(plan.fresh(k) =~= plan.dir@ + "\\staged\\"@ + name);
    let t = plan.aside(k);
    assert(t =~= plan.dir@ + "\\"@ + aside);
    let p = plan.live(k) + "."@;
    assert(t.take(p.len() as int) =~= p);
    assert(t.skip(t.len() - 4) =~= ".old"@);
}

/// Whoever asks for something else than the app's own binaries is told its name.
pub proof fn law_strangers_are_named(name: Seq<char>)
    ensures
        begins_with(not_ours(name), name),
        not_ours(name).len() > name.len(),
{
    reveal_strlit(" is not one of this app's binaries");
    assert(not_ours(name).take(name.len() as int) =~= name);
}

} // verus!
