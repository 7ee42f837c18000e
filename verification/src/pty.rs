//! One child process under a pseudoconsole: how it is to be started.
use crate::grid::model::at_least_one;
use crate::pane::at_least_one_u16;
use crate::proto::opt_text;
use crate::text::copy_text;
use vstd::prelude::*;

verus! {

/// Milliseconds between looks at whether a child still runs. A pseudoconsole
/// keeps its output open after the child is gone, so the child has to be
/// watched.
pub const EXIT_POLL: u64 = 150;

/// A variable in the child's environment.
pub struct Variable {
    pub name: String,
    pub value: String,
}

/// A child to be started.
pub struct Plan {
    pub program: String,
    /// Where it starts, if that is known.
    pub dir: Option<String>,
    pub cols: u16,
    pub rows: u16,
    /// What its environment is to hold.
    pub set: Vec<Variable>,
    /// What its environment must not hold.
    pub unset: Vec<String>,
}

/// The names of what the environment is to hold. Programs are told what the
/// terminal can do: without `COLORTERM` many take it for one of 16 colours.
pub open spec fn set_name(k: int) -> Seq<char> {
    if k == 0 {
        "TERM"@
    } else if k == 1 {
        "COLORTERM"@
    } else {
        "TERM_PROGRAM"@
    }
}

pub open spec fn set_value(k: int) -> Seq<char> {
    if k == 0 {
        "xterm-256color"@
    } else if k == 1 {
        "truecolor"@
    } else {
        "hmux"@
    }
}

/// What whatever started this may have switched off for its own output.
pub open spec fn unset_name(k: int) -> Seq<char> {
    if k == 0 {
        "NO_COLOR"@
    } else {
        "NODE_DISABLE_COLORS"@
    }
}

/// Where a child starts: where it was asked to, if that is still a directory,
/// and else where this process is.
pub open spec fn start_dir(
    cwd: Option<Seq<char>>,
    is_dir: bool,
    here: Option<Seq<char>>,
) -> Option<Seq<char>> {
    if cwd is Some && is_dir {
        cwd
    } else {
        here
    }
}

impl Plan {
    /// The environment is the one that every child gets.
    pub open spec fn tells_the_truth(self) -> bool {
        &&& self.set@.len() == 3
        &&& forall|k: int|
            0 <= k < 3 ==> (#[trigger] self.set@[k]).name@ == set_name(k) && self.set@[k].value@
                == set_value(k)
        &&& self.unset@.len() == 2
        &&& forall|k: int| 0 <= k < 2 ==> (#[trigger] self.unset@[k])@ == unset_name(k)
    }
}

/// Plan a child that starts where this process is.
pub fn spawn(program: &str, here: Option<String>, cols: u16, rows: u16) -> (plan: Plan)
    ensures
        plan.program@ == program@,
        opt_text(plan.dir) == opt_text(here),
        plan.cols == at_least_one(cols as int),
        plan.rows == at_least_one(rows as int),
        plan.tells_the_truth(),
{
    spawn_in(program, None, false, here, cols, rows)
}

/// Plan a child that starts in `cwd`. `is_dir` says whether that is a directory
/// on disk: one that has been deleted would make the start fail, so the child
/// starts here instead.
pub fn spawn_in(
    program: &str,
    cwd: Option<String>,
    is_dir: bool,
    here: Option<String>,
    cols: u16,
    rows: u16,
) -> (plan: Plan)
    ensures
        plan.program@ == program@,
        opt_text(plan.dir) == start_dir(opt_text(cwd), is_dir, opt_text(here)),
        plan.cols == at_least_one(cols as int),
        plan.rows == at_least_one(rows as int),
        plan.tells_the_truth(),
{
    let dir = match cwd {
        Some(d) => if is_dir {
            Some(d)
        } else {
            here
        },
        None => here,
    };
    let mut set: Vec<Variable> = Vec::new();
    set.push(Variable { name: copy_text("TERM"), value: copy_text("xterm-256color") });
    set.push(Variable { name: copy_text("COLORTERM"), value: copy_text("truecolor") });
    set.push(Variable { name: copy_text("TERM_PROGRAM"), value: copy_text("hmux") });
    let mut unset: Vec<String> = Vec::new();
    unset.push(copy_text("NO_COLOR"));
    unset.push(copy_text("NODE_DISABLE_COLORS"));
    Plan {
        program: copy_text(program),
        dir,
        cols: at_least_one_u16(cols),
        rows: at_least_one_u16(rows),
        set,
        unset,
    }
}

/// What is said where a pseudoconsole could not be opened.
pub fn no_console() -> (why: &'static str)
    ensures
        why@ == "failed to open a ConPTY — needs Windows 10 1809 or newer"@,
{
    "failed to open a ConPTY — needs Windows 10 1809 or newer"
}

/// What is said where a program could not be started.
pub fn not_started(program: &str) -> (why: String)
    ensures
        why@ == "failed to start "@ + program@,
{
    let mut why = copy_text("failed to start ");
    why.push_str(program);
    why
}

// ---- laws -----------------------------------------------------------------------

/// A child starts where it was asked to, as long as that is a directory; where it
/// is none, or none was asked for, it starts where this process is.
pub proof fn law_children_start_where_they_can(dir: Seq<char>, here: Option<Seq<char>>, is_dir: bool)
    ensures
        start_dir(Some(dir), true, here) == Some(dir),
        start_dir(Some(dir), false, here) == here,
        start_dir(None, is_dir, here) == here,
{
}

/// Every child is told of a terminal with all colours, and nothing that would
/// switch them off is left to it.
pub proof fn law_children_know_their_terminal(plan: Plan)
    requires
        plan.tells_the_truth(),
    ensures
        exists|k: int|
            0 <= k < plan.set@.len() && (#[trigger] plan.set@[k]).name@ == "TERM"@
                && plan.set@[k].value@ == "xterm-256color"@,
        exists|k: int|
            0 <= k < plan.set@.len() && (#[trigger] plan.set@[k]).name@ == "COLORTERM"@
                && plan.set@[k].value@ == "truecolor"@,
        exists|k: int|
            0 <= k < plan.set@.len() && (#[trigger] plan.set@[k]).name@ == "TERM_PROGRAM"@
                && plan.set@[k].value@ == "hmux"@,
        exists|k: int| 0 <= k < plan.unset@.len() && (#[trigger] plan.unset@[k])@ == "NO_COLOR"@,
        exists|k: int|
            0 <= k < plan.unset@.len() && (#[trigger] plan.unset@[k])@ == "NODE_DISABLE_COLORS"@,
{
    assert(plan.set@[0].name@ == set_name(0));
    assert(plan.set@[1].name@ == set_name(1));
    assert(plan.set@[2].name@ == set_name(2));
    assert(plan.unset@[0]@ == unset_name(0));
    assert(plan.unset@[1]@ == unset_name(1));
}

} // verus!
