//! The console multiplexer: which panes there are, which one is shown, and what
//! each action does.
//!
//! The outside work (starting a child, writing to its pty, asking the console
//! for its size) is handed out as a [`Step`] for the caller to perform.
use crate::grid::model::{at_least_one, VtAction};
use crate::input::{actions_for, meaning, Action, ActionModel, MouseEvent, Router};
use crate::layout::{clamped, compute, laid_out, Layout, MIN_COLS, MIN_ROWS, SIDEBAR_MAX, SIDEBAR_MIN};
use crate::pane::Pane;
use crate::render::compose::{compose, composed};
use crate::render::{spans_of, FrameModel, Renderer};
use crate::text::{copy_text, same_text};
use crate::vt::{actions, advance, vt_actions, vt_state, VtEvent};
use crate::windows_path::{file_stem, stem_of};
use crate::Ev;
use vstd::prelude::*;

verus! {

/// The rail's width to begin with.
pub const DEFAULT_SIDEBAR_W: u16 = 20;

/// How much wider or narrower one key press makes the rail.
pub const SIDEBAR_STEP: u16 = 2;

/// Milliseconds between repaints. Output comes in bursts far faster than that,
/// so all that lands within one frame is painted at once.
pub const FRAME: u64 = 16;

/// Milliseconds between looks at the size of the console.
pub const RESIZE_POLL: u64 = 100;

// ---- arguments ------------------------------------------------------------------

/// What the command line asks for.
pub enum Args {
    Shell(String),
    Help,
}

/// [`Args`] with its text as characters.
pub enum ArgsModel {
    Shell(Seq<char>),
    Help,
}

impl View for Args {
    type V = ArgsModel;

    open spec fn view(&self) -> ArgsModel {
        match *self {
            Args::Shell(s) => ArgsModel::Shell(s@),
            Args::Help => ArgsModel::Help,
        }
    }
}

/// The arguments from the `i`-th on. `--shell` takes the one after it, whatever
/// that is; anything unknown is passed over.
pub open spec fn parsed(args: Seq<String>, i: int) -> ArgsModel
    decreases args.len() - i,
{
    if i >= args.len() {
        ArgsModel::Shell("cmd.exe"@)
    } else if args[i]@ == "--shell"@ || args[i]@ == "-s"@ {
        if i + 1 < args.len() {
            ArgsModel::Shell(args[i + 1]@)
        } else {
            ArgsModel::Shell("cmd.exe"@)
        }
    } else if args[i]@ == "-h"@ || args[i]@ == "--help"@ {
        ArgsModel::Help
    } else {
        parsed(args, i + 1)
    }
}

/// Read the arguments that follow the program's own name.
pub fn parse_args(args: &Vec<String>) -> (res: Args)
    ensures
        res@ == parsed(args@, 0),
{
    let n: usize = args.len();
    let mut i: usize = 0;
    while i < n
        invariant
            n == args@.len(),
            i <= n,
            parsed(args@, i as int) == parsed(args@, 0),
        decreases n - i,
    {
        let a = args[i].as_str();
        if same_text(a, "--shell") || same_text(a, "-s") {
            if i + 1 < n {
                return Args::Shell(copy_text(args[i + 1].as_str()));
            }
            return Args::Shell(copy_text("cmd.exe"));
        }
        if same_text(a, "-h") || same_text(a, "--help") {
            return Args::Help;
        }
        i += 1;
    }
    Args::Shell(copy_text("cmd.exe"))
}

// ---- panes ----------------------------------------------------------------------

/// A child to be started.
pub struct SpawnPlan {
    pub id: usize,
    pub label: String,
    pub program: String,
    pub cols: u16,
    pub rows: u16,
}

/// The size that a pane's pty is to have.
#[derive(Clone, Copy, PartialEq, Eq, Debug, Structural)]
pub struct PtySize {
    pub pane: usize,
    pub cols: u16,
    pub rows: u16,
}

pub struct Mux {
    pub panes: Vec<Pane>,
    pub active: usize,
    pub sidebar_w: u16,
    pub cols: u16,
    pub rows: u16,
    pub shell: String,
    pub next_id: usize,
    /// Panes that were closed while their children could still print.
    pub closed: Vec<Pane>,
}

/// The layout of a screen, whatever its size.
pub open spec fn layout_for(cols: u16, rows: u16, sidebar_w: u16) -> Layout {
    laid_out(
        clamped(cols as int, MIN_COLS as int, u16::MAX as int),
        clamped(rows as int, MIN_ROWS as int, u16::MAX as int),
        sidebar_w as int,
    )
}

/// What a pane of some program is called: the program's name without directory
/// and extension.
pub open spec fn label_for(program: Seq<char>) -> Seq<char> {
    match file_stem(program) {
        Some(stem) => stem,
        None => program,
    }
}

/// `after` is `before` at another size, and otherwise the same.
pub open spec fn same_but_resized(before: Pane, after: Pane, cols: int, rows: int) -> bool {
    &&& after.grid@ == before.grid@.resized(cols, rows)
    &&& after.id == before.id
    &&& after.label == before.label
    &&& after.alive == before.alive
    &&& after.pid == before.pid
    &&& after.last_output == before.last_output
}

/// The pane after this one, round to the first.
pub open spec fn next_of(active: int, n: int) -> int {
    (active + 1) % n
}

/// The pane before this one, round to the last.
pub open spec fn previous_of(active: int, n: int) -> int {
    (active + n - 1) % n
}

fn find_in(panes: &Vec<Pane>, id: usize) -> (at: Option<usize>)
    ensures
        at is Some <==> find_pane(panes@, id, 0) is Some,
        at matches Some(i) ==> find_pane(panes@, id, 0) == Some(i as int) && i < panes@.len()
            && panes@[i as int].id == id,
{
    let mut i: usize = 0;
    while i < panes.len()
        invariant
            i <= panes@.len(),
            find_pane(panes@, id, i as int) == find_pane(panes@, id, 0),
        decreases panes@.len() - i,
    {
        if panes[i].id == id {
            return Some(i);
        }
        i += 1;
    }
    None
}

/// The place of the first pane from the `i`-th on with that id.
pub open spec fn find_pane(panes: Seq<Pane>, id: usize, i: int) -> Option<int>
    decreases panes.len() - i,
{
    if i >= panes.len() {
        None
    } else if panes[i].id == id {
        Some(i)
    } else {
        find_pane(panes, id, i + 1)
    }
}

impl Mux {
    /// Every pane is sound, ids are given out once, and one of the panes is
    /// active while there are any.
    pub open spec fn wf(self) -> bool {
        &&& forall|i: int| 0 <= i < self.panes@.len() ==> (#[trigger] self.panes@[i]).wf()
        &&& forall|i: int| 0 <= i < self.panes@.len() ==> (#[trigger] self.panes@[i]).id < self.next_id
        &&& forall|i: int, j: int|
            0 <= i < j < self.panes@.len() ==> (#[trigger] self.panes@[i]).id != (
            #[trigger] self.panes@[j]).id
        &&& forall|i: int| 0 <= i < self.closed@.len() ==> (#[trigger] self.closed@[i]).wf()
        &&& forall|i: int| 0 <= i < self.closed@.len() ==> (#[trigger] self.closed@[i]).id < self.next_id
        &&& forall|i: int, j: int|
            0 <= i < self.panes@.len() && 0 <= j < self.closed@.len() ==> (
            #[trigger] self.panes@[i]).id != (#[trigger] self.closed@[j]).id
        &&& self.active < at_least_one(self.panes@.len() as int)
        &&& SIDEBAR_MIN <= self.sidebar_w <= SIDEBAR_MAX
    }

    /// Everything but the panes and which is active stays as it was.
    pub open spec fn same_frame(self, other: Mux) -> bool {
        &&& self.sidebar_w == other.sidebar_w
        &&& self.cols == other.cols
        &&& self.rows == other.rows
        &&& self.shell == other.shell
        &&& self.next_id == other.next_id
    }

    /// No panes yet.
    pub fn new(shell: &str, cols: u16, rows: u16) -> (m: Self)
        ensures
            m.wf(),
            m.panes@ == Seq::<Pane>::empty(),
            m.active == 0,
            m.sidebar_w == DEFAULT_SIDEBAR_W,
            m.cols == cols,
            m.rows == rows,
            m.shell@ == shell@,
            m.next_id == 1,
            m.closed@ == Seq::<Pane>::empty(),
    {
        Mux {
            panes: Vec::new(),
            active: 0,
            sidebar_w: DEFAULT_SIDEBAR_W,
            cols,
            rows,
            shell: copy_text(shell),
            next_id: 1,
            closed: Vec::new(),
        }
    }

    /// Where everything is on the screen.
    pub fn layout(&self) -> (l: Layout)
        ensures
            l == layout_for(self.cols, self.rows, self.sidebar_w),
            l.sound(),
    {
        compute(self.cols, self.rows, self.sidebar_w)
    }

    /// Give out an id, and say what is to be started under it.
    pub fn spawn_pane(&mut self) -> (plan: SpawnPlan)
        requires
            old(self).wf(),
            old(self).next_id < usize::MAX,
        ensures
            final(self).wf(),
            final(self).panes == old(self).panes,
            final(self).active == old(self).active,
            final(self).sidebar_w == old(self).sidebar_w,
            final(self).cols == old(self).cols,
            final(self).rows == old(self).rows,
            final(self).shell == old(self).shell,
            final(self).closed == old(self).closed,
            final(self).next_id == old(self).next_id + 1,
            plan.id == old(self).next_id,
            plan.label@ == label_for(old(self).shell@),
            plan.program@ == old(self).shell@,
            plan.cols == layout_for(old(self).cols, old(self).rows, old(self).sidebar_w).content.w,
            plan.rows == layout_for(old(self).cols, old(self).rows, old(self).sidebar_w).content.h,
    {
        let l = self.layout();
        let id = self.next_id;
        self.next_id = id + 1;
        let label = match stem_of(self.shell.as_str()) {
            Some(stem) => stem,
            None => copy_text(self.shell.as_str()),
        };
        SpawnPlan {
            id,
            label,
            program: copy_text(self.shell.as_str()),
            cols: l.content.w,
            rows: l.content.h,
        }
    }

    /// The child of a plan was started: its pane comes last and is shown.
    pub fn adopt(&mut self, plan: &SpawnPlan, pid: Option<u32>, now: u64)
        requires
            old(self).wf(),
            plan.id < old(self).next_id,
            forall|i: int| 0 <= i < old(self).panes@.len() ==> (#[trigger] old(self).panes@[i]).id != plan.id,
            forall|i: int| 0 <= i < old(self).closed@.len() ==> (#[trigger] old(self).closed@[i]).id != plan.id,
            old(self).panes@.len() < usize::MAX,
        ensures
            final(self).wf(),
            final(self).same_frame(*old(self)),
            final(self).closed == old(self).closed,
            final(self).panes@.len() == old(self).panes@.len() + 1,
            final(self).panes@.drop_last() == old(self).panes@,
            final(self).active == old(self).panes@.len(),
            ({
                let p = final(self).panes@.last();
                &&& p.id == plan.id
                &&& p.label@ == plan.label@
                &&& p.alive
                &&& p.pid == pid
                &&& p.last_output == now
                &&& p.grid@ == crate::grid::model::GridModel::fresh(
                    at_least_one(plan.cols as int),
                    at_least_one(plan.rows as int),
                )
            }),
    {
        let pane = Pane::new(plan.id, plan.label.as_str(), plan.cols, plan.rows, pid, now);
        self.panes.push(pane);
        self.active = self.panes.len() - 1;
        assert(self.panes@.drop_last() =~= old(self).panes@);
    }

    /// Take the active pane away, and say whose child is to be killed. What that
    /// child still prints is answered until its output ends.
    pub fn close_active(&mut self) -> (closed: Option<usize>)
        requires
            old(self).wf(),
        ensures
            final(self).wf(),
            final(self).same_frame(*old(self)),
            closed is Some <==> old(self).panes@.len() > 0,
            closed is None ==> *final(self) == *old(self),
            closed matches Some(id) ==> {
                let at = old(self).active as int;
                let n = old(self).panes@.len();
                &&& id == old(self).panes@[at].id
                &&& final(self).panes@ == old(self).panes@.remove(at)
                &&& final(self).closed@ == old(self).closed@.push(
                    (Pane { alive: false, ..old(self).panes@[at] }),
                )
                &&& final(self).active == (if at < n - 1 {
                    at
                } else if n >= 2 {
                    n - 2
                } else {
                    0
                })
            },
    {
        if self.panes.len() == 0 {
            return None;
        }
        assert(self.panes@[self.active as int].wf());
        let mut pane = self.panes.remove(self.active);
        let id = pane.id;
        pane.alive = false;
        self.closed.push(pane);
        let left: usize = self.panes.len();
        if self.active >= left {
            self.active =
            if left > 0 {
                left - 1
            } else {
                0
            };
        }
        Some(id)
    }

    /// Lay the screen out anew. Every pane is resized, not just the visible one:
    /// a hidden shell that goes by the old width would wrap its next prompt
    /// wrongly. What comes back are the sizes that the ptys are to have.
    pub fn resize_all(&mut self, cols: u16, rows: u16) -> (sizes: Vec<PtySize>)
        requires
            old(self).wf(),
        ensures
            final(self).wf(),
            final(self).cols == cols,
            final(self).rows == rows,
            final(self).active == old(self).active,
            final(self).sidebar_w == old(self).sidebar_w,
            final(self).shell == old(self).shell,
            final(self).next_id == old(self).next_id,
            final(self).closed == old(self).closed,
            final(self).panes@.len() == old(self).panes@.len(),
            sizes@.len() == old(self).panes@.len(),
            ({
                let c = layout_for(cols, rows, old(self).sidebar_w).content;
                forall|i: int|
                    0 <= i < old(self).panes@.len() ==> same_but_resized(
                        old(self).panes@[i],
                        #[trigger] final(self).panes@[i],
                        at_least_one(c.w as int),
                        at_least_one(c.h as int),
                    ) && sizes@[i] == (PtySize {
                        pane: old(self).panes@[i].id,
                        cols: at_least_one(c.w as int) as u16,
                        rows: at_least_one(c.h as int) as u16,
                    })
            }),
    {
        self.cols = cols;
        self.rows = rows;
        let l = self.layout();
        let mut sizes: Vec<PtySize> = Vec::new();
        let n: usize = self.panes.len();
        let mut i: usize = 0;
        while i < n
            invariant
                i <= n,
                n == self.panes@.len(),
                n == old(self).panes@.len(),
                old(self).wf(),
                self.cols == cols,
                self.rows == rows,
                self.active == old(self).active,
                self.sidebar_w == old(self).sidebar_w,
                self.shell == old(self).shell,
                self.next_id == old(self).next_id,
                self.closed == old(self).closed,
                sizes@.len() == i,
                forall|k: int| i <= k < n ==> self.panes@[k] == old(self).panes@[k],
                forall|k: int| 0 <= k < n ==> (#[trigger] self.panes@[k]).wf(),
                forall|k: int|
                    0 <= k < i ==> same_but_resized(
                        old(self).panes@[k],
                        #[trigger] self.panes@[k],
                        at_least_one(l.content.w as int),
                        at_least_one(l.content.h as int),
                    ) && sizes@[k] == (PtySize {
                        pane: old(self).panes@[k].id,
                        cols: at_least_one(l.content.w as int) as u16,
                        rows: at_least_one(l.content.h as int) as u16,
                    }),
            decreases n - i,
        {
            assert(old(self).panes@[i as int].wf());
            let (c, r) = self.panes[i].resize(l.content.w, l.content.h);
            sizes.push(PtySize { pane: self.panes[i].id, cols: c, rows: r });
            i += 1;
        }
        sizes
    }

    /// Show a pane, where there is one of that number.
    pub fn select(&mut self, idx: usize)
        requires
            old(self).wf(),
        ensures
            final(self).wf(),
            final(self).same_frame(*old(self)),
            final(self).closed == old(self).closed,
            final(self).panes == old(self).panes,
            final(self).active == (if idx < old(self).panes@.len() {
                idx
            } else {
                old(self).active
            }),
    {
        if idx < self.panes.len() {
            self.active = idx;
        }
    }

    /// Show the next pane or the one before, round and round.
    pub fn cycle(&mut self, forward: bool)
        requires
            old(self).wf(),
        ensures
            final(self).wf(),
            final(self).same_frame(*old(self)),
            final(self).closed == old(self).closed,
            final(self).panes == old(self).panes,
            final(self).active == (if old(self).panes@.len() == 0 {
                old(self).active as int
            } else if forward {
                next_of(old(self).active as int, old(self).panes@.len() as int)
            } else {
                previous_of(old(self).active as int, old(self).panes@.len() as int)
            }),
    {
        let n: usize = self.panes.len();
        if n == 0 {
            return ;
        }
        if forward {
            self.active =
            if self.active < n - 1 {
                self.active + 1
            } else {
                0
            };
            proof {
                let a = old(self).active as int;
                if a < n - 1 {
                    vstd::arithmetic::div_mod::lemma_small_mod((a + 1) as nat, n as nat);
                } else {
                    vstd::arithmetic::div_mod::lemma_mod_self_0(n as int);
                }
            }
        } else {
            self.active =
            if self.active > 0 {
                self.active - 1
            } else {
                n - 1
            };
            proof {
                let a = old(self).active as int;
                if a > 0 {
                    vstd::arithmetic::div_mod::lemma_mod_add_multiples_vanish(a - 1, n as int);
                    vstd::arithmetic::div_mod::lemma_small_mod((a - 1) as nat, n as nat);
                } else {
                    vstd::arithmetic::div_mod::lemma_small_mod((n - 1) as nat, n as nat);
                }
            }
        }
    }

    fn find(&self, id: usize) -> (at: Option<usize>)
        ensures
            at is Some <==> find_pane(self.panes@, id, 0) is Some,
            at matches Some(i) ==> find_pane(self.panes@, id, 0) == Some(i as int) && i
                < self.panes@.len() && self.panes@[i as int].id == id,
    {
        find_in(&self.panes, id)
    }

    fn find_closed(&self, id: usize) -> (at: Option<usize>)
        ensures
            at is Some <==> find_pane(self.closed@, id, 0) is Some,
            at matches Some(i) ==> find_pane(self.closed@, id, 0) == Some(i as int) && i
                < self.closed@.len() && self.closed@[i as int].id == id,
    {
        find_in(&self.closed, id)
    }

    /// A child has ended. Its pane stays, with what it last showed.
    pub fn exited(&mut self, id: usize)
        requires
            old(self).wf(),
        ensures
            final(self).wf(),
            final(self).same_frame(*old(self)),
            final(self).closed == old(self).closed,
            final(self).active == old(self).active,
            match find_pane(old(self).panes@, id, 0) {
                Some(i) => final(self).panes@ == old(self).panes@.update(
                    i,
                    (Pane { alive: false, ..old(self).panes@[i] }),
                ),
                None => final(self).panes == old(self).panes,
            },
    {
        match self.find(id) {
            Some(i) => {
                self.panes[i].alive = false;
            },
            None => {},
        }
    }

    /// What becomes of the panes when the child of one printed something: that
    /// pane shows it, whether or not it is on the screen, and no other changes.
    /// The child of a pane that was closed is answered all the same.
    pub open spec fn shows(
        self,
        id: usize,
        found: Seq<VtAction>,
        now: u64,
        after: Mux,
        reply: Option<Vec<u8>>,
    ) -> bool {
        &&& after.wf()
        &&& after.same_frame(self)
        &&& after.active == self.active
        &&& match find_pane(self.panes@, id, 0) {
            Some(i) => {
                &&& after.closed == self.closed
                &&& one_shows(self.panes@, i, found, now, after.panes@, reply)
            },
            None => {
                &&& after.panes == self.panes
                &&& match find_pane(self.closed@, id, 0) {
                    Some(i) => one_shows(self.closed@, i, found, now, after.closed@, reply),
                    None => {
                        &&& after.closed == self.closed
                        &&& reply matches Some(owed) && owed@ == Seq::<u8>::empty()
                    },
                }
            },
        }
    }

    /// There is a pane, listed or closed, for the output of that child.
    pub open spec fn has_pane(self, id: usize) -> bool {
        find_pane(self.panes@, id, 0) is Some || find_pane(self.closed@, id, 0) is Some
    }

    /// A child has printed something. What comes back are the answers owed to
    /// it, or `None` where the output could not be drawn.
    pub fn output(&mut self, id: usize, parser: &mut vte::Parser, bytes: &[u8], now: u64) -> (reply:
        Option<Vec<u8>>)
        requires
            old(self).wf(),
        ensures
            old(self).shows(id, vt_actions(*old(parser), bytes@), now, *final(self), reply),
            *final(parser) == (if old(self).has_pane(id) {
                vt_state(*old(parser), bytes@)
            } else {
                *old(parser)
            }),
    {
        if self.find(id).is_none() && self.find_closed(id).is_none() {
            return Some(Vec::new());
        }
        let events = advance(parser, bytes);
        self.show(id, &events, now)
    }

    /// Take in what the parser found in a child's output.
    pub fn show(&mut self, id: usize, events: &Vec<VtEvent>, now: u64) -> (reply: Option<Vec<u8>>)
        requires
            old(self).wf(),
        ensures
            old(self).shows(id, actions(events@), now, *final(self), reply),
    {
        match self.find(id) {
            Some(i) => {
                assert(old(self).panes@[i as int].wf());
                let reply = self.panes[i].show(events, now);
                reply
            },
            None => match self.find_closed(id) {
                Some(i) => {
                    assert(old(self).closed@[i as int].wf());
                    let reply = self.closed[i].show(events, now);
                    reply
                },
                None => Some(Vec::new()),
            },
        }
    }

    /// The output of a child has ended: a pane that was closed is not needed any
    /// more.
    pub fn reader_ended(&mut self, id: usize)
        requires
            old(self).wf(),
        ensures
            final(self).wf(),
            final(self).same_frame(*old(self)),
            final(self).active == old(self).active,
            final(self).panes == old(self).panes,
            final(self).closed@ == (match find_pane(old(self).closed@, id, 0) {
                Some(i) => old(self).closed@.remove(i),
                None => old(self).closed@,
            }),
    {
        match self.find_closed(id) {
            Some(i) => {
                let _ = self.closed.remove(i);
            },
            None => {},
        }
    }
}

/// The `i`-th of some panes shows what its child printed, and no other changes.
pub open spec fn one_shows(
    panes: Seq<Pane>,
    i: int,
    found: Seq<VtAction>,
    now: u64,
    after: Seq<Pane>,
    reply: Option<Vec<u8>>,
) -> bool {
    &&& after.len() == panes.len()
    &&& panes[i].shows(found, now, after[i], reply)
    &&& forall|k: int| 0 <= k < panes.len() && k != i ==> after[k] == panes[k]
}

// ---- what each action does ------------------------------------------------------

/// What the caller has to do next.
pub enum Step {
    /// Nothing.
    Done,
    /// Write to the pty of a pane.
    Write { pane: usize, bytes: Vec<u8> },
    /// Start a child, and hand its pane to [`Mux::adopt`].
    Spawn(SpawnPlan),
    /// Kill the child of a pane that was taken away, and leave where it was the
    /// last.
    Close { pane: usize, leave: bool },
    /// Give ptys another size.
    Resize(Vec<PtySize>),
    /// Leave.
    Quit,
}

/// What a click on the screen is meant for.
pub enum Target {
    New,
    Pane(int),
    Nothing,
}

/// Only the press of the first button counts: its release would do everything
/// twice.
pub open spec fn target_of(l: Layout, m: MouseEvent, panes: int) -> Target {
    if !m.pressed || m.button != 0 {
        Target::Nothing
    } else if l.sidebar.covers(m.x as int, m.y as int) && m.y == l.row_of_new() {
        Target::New
    } else {
        match l.button_under(m.x as int, m.y as int, panes) {
            Some(i) => Target::Pane(i),
            None => Target::Nothing,
        }
    }
}

/// The panes, what the keys mean, and what is on the screen.
pub struct Console {
    pub mux: Mux,
    pub router: Router,
    pub renderer: Renderer,
    /// Something has changed since the last repaint.
    pub dirty: bool,
    /// When the screen was last painted, in milliseconds.
    pub last_frame: u64,
    /// When the size of the console was last looked at.
    pub last_poll: u64,
}

/// `wait` milliseconds or more have passed.
pub open spec fn elapsed(since: u64, now: u64, wait: u64) -> bool {
    now >= since && now - since >= wait
}

fn has_elapsed(since: u64, now: u64, wait: u64) -> (res: bool)
    ensures
        res == elapsed(since, now, wait),
{
    now >= since && now - since >= wait
}

/// What the screen remembers is forgotten, and all else stays.
pub open spec fn forgotten(before: Renderer, after: Renderer) -> bool {
    after.prev@ == Seq::<crate::grid::Cell>::empty() && after.cols == before.cols && after.rows
        == before.rows
}

impl Console {
    pub open spec fn wf(self) -> bool {
        self.mux.wf() && self.router@.wf()
    }

    /// All but the panes and the renderer stays.
    pub open spec fn same_clock(self, other: Console) -> bool {
        &&& self.router == other.router
        &&& self.dirty == other.dirty
        &&& self.last_frame == other.last_frame
        &&& self.last_poll == other.last_poll
    }

    /// A console without panes, to be painted at once.
    pub fn new(shell: &str, cols: u16, rows: u16, now: u64) -> (c: Self)
        ensures
            c.wf(),
            c.mux.panes@ == Seq::<Pane>::empty(),
            c.mux.active == 0,
            c.mux.sidebar_w == DEFAULT_SIDEBAR_W,
            c.mux.shell@ == shell@,
            c.mux.cols == cols,
            c.mux.rows == rows,
            c.mux.next_id == 1,
            c.mux.closed@ == Seq::<Pane>::empty(),
            c.router@ == (crate::input::RouterModel { armed: false, pending: Seq::empty() }),
            c.renderer.prev@ == Seq::<crate::grid::Cell>::empty(),
            c.renderer.cols == 0,
            c.renderer.rows == 0,
            c.dirty,
            c.last_frame == now,
            c.last_poll == now,
    {
        Console {
            mux: Mux::new(shell, cols, rows),
            router: Router::new(),
            renderer: Renderer::new(),
            dirty: true,
            last_frame: now,
            last_poll: now,
        }
    }

    /// Forwarded bytes go to the active pane, where there is one.
    pub open spec fn write_step(self, bytes: Seq<u8>, step: Step) -> bool {
        if self.mux.active < self.mux.panes@.len() {
            step matches Step::Write { pane, bytes: b } && pane == self.mux.panes@[self.mux.active as int].id
                && b@ == bytes
        } else {
            step is Done
        }
    }

    /// A child is to be started under the next id.
    pub open spec fn spawn_step(self, after: Console, step: Step) -> bool {
        let l = layout_for(self.mux.cols, self.mux.rows, self.mux.sidebar_w);
        &&& step matches Step::Spawn(plan) && plan.id == self.mux.next_id && plan.label@
            == label_for(self.mux.shell@) && plan.program@ == self.mux.shell@ && plan.cols
            == l.content.w && plan.rows == l.content.h
        &&& after.mux == (Mux { next_id: (self.mux.next_id + 1) as usize, ..self.mux })
        &&& after.renderer == self.renderer
    }

    /// Every pane is laid out anew under a rail of that width.
    pub open spec fn resize_step(self, after: Console, sidebar_w: u16, step: Step) -> bool {
        let c = layout_for(self.mux.cols, self.mux.rows, sidebar_w).content;
        let n = self.mux.panes@.len();
        &&& after.mux.sidebar_w == sidebar_w
        &&& after.mux.cols == self.mux.cols
        &&& after.mux.rows == self.mux.rows
        &&& after.mux.active == self.mux.active
        &&& after.mux.shell == self.mux.shell
        &&& after.mux.next_id == self.mux.next_id
        &&& after.mux.closed == self.mux.closed
        &&& after.mux.panes@.len() == n
        &&& forgotten(self.renderer, after.renderer)
        &&& step matches Step::Resize(sizes) && sizes@.len() == n && forall|i: int|
            0 <= i < n ==> same_but_resized(
                self.mux.panes@[i],
                #[trigger] after.mux.panes@[i],
                c.w as int,
                c.h as int,
            ) && sizes@[i] == (PtySize {
                pane: self.mux.panes@[i].id,
                cols: c.w,
                rows: c.h,
            })
    }

    /// The active pane is shown as `active`; nothing else changes.
    pub open spec fn show_step(self, after: Console, active: int, step: Step) -> bool {
        &&& after.mux.panes == self.mux.panes
        &&& after.mux.closed == self.mux.closed
        &&& after.mux.same_frame(self.mux)
        &&& after.mux.active == active
        &&& after.renderer == self.renderer
        &&& step is Done
    }

    /// The active pane is taken away, and the screen painted anew.
    pub open spec fn close_step(self, after: Console, step: Step) -> bool {
        let n = self.mux.panes@.len();
        let at = self.mux.active as int;
        &&& forgotten(self.renderer, after.renderer)
        &&& after.mux.same_frame(self.mux)
        &&& if n == 0 {
            after.mux == self.mux && step is Quit
        } else {
            &&& after.mux.panes@ == self.mux.panes@.remove(at)
            &&& after.mux.closed@ == self.mux.closed@.push(
                (Pane { alive: false, ..self.mux.panes@[at] }),
            )
            &&& after.mux.active == (if at < n - 1 {
                at
            } else if n >= 2 {
                n - 2
            } else {
                0
            })
            &&& step matches Step::Close { pane, leave } && pane == self.mux.panes@[at].id && leave
                == (n == 1)
        }
    }

    /// What an action does to the console and asks of the caller.
    pub open spec fn acts(self, a: ActionModel, after: Console, step: Step) -> bool {
        let n = self.mux.panes@.len() as int;
        let active = self.mux.active as int;
        match a {
            ActionModel::Forward(bytes) => self.write_step(bytes, step) && after == self,
            ActionModel::NewPane => self.spawn_step(after, step),
            ActionModel::ClosePane => self.close_step(after, step),
            ActionModel::NextPane => self.show_step(
                after,
                if n == 0 {
                    active
                } else {
                    next_of(active, n)
                },
                step,
            ),
            ActionModel::PrevPane => self.show_step(
                after,
                if n == 0 {
                    active
                } else {
                    previous_of(active, n)
                },
                step,
            ),
            ActionModel::SelectPane(i) => self.show_step(
                after,
                if i < n {
                    i
                } else {
                    active
                },
                step,
            ),
            ActionModel::GrowSidebar => self.resize_step(
                after,
                wider(self.mux.sidebar_w),
                step,
            ),
            ActionModel::ShrinkSidebar => self.resize_step(
                after,
                narrower(self.mux.sidebar_w),
                step,
            ),
            ActionModel::Redraw => after.mux == self.mux && forgotten(
                self.renderer,
                after.renderer,
            ) && step is Done,
            ActionModel::Quit => after == self && step is Quit,
            ActionModel::Mouse(m) => match target_of(
                layout_for(self.mux.cols, self.mux.rows, self.mux.sidebar_w),
                m,
                n,
            ) {
                Target::New => self.spawn_step(after, step),
                Target::Pane(i) => self.show_step(after, i, step),
                Target::Nothing => after == self && step is Done,
            },
        }
    }

    /// Do what an action asks for, as far as it can be done here.
    pub fn act(&mut self, action: Action) -> (step: Step)
        requires
            old(self).wf(),
            action@ is NewPane || action@ is Mouse ==> old(self).mux.next_id < usize::MAX,
        ensures
            final(self).wf(),
            final(self).same_clock(*old(self)),
            old(self).acts(action@, *final(self), step),
    {
        match action {
            Action::Forward(bytes) => {
                if self.mux.active < self.mux.panes.len() {
                    Step::Write { pane: self.mux.panes[self.mux.active].id, bytes }
                } else {
                    Step::Done
                }
            },
            Action::NewPane => Step::Spawn(self.mux.spawn_pane()),
            Action::ClosePane => {
                let closed = self.mux.close_active();
                self.renderer.invalidate();
                match closed {
                    Some(pane) => Step::Close { pane, leave: self.mux.panes.len() == 0 },
                    None => Step::Quit,
                }
            },
            Action::NextPane => {
                self.mux.cycle(true);
                Step::Done
            },
            Action::PrevPane => {
                self.mux.cycle(false);
                Step::Done
            },
            Action::SelectPane(i) => {
                self.mux.select(i);
                Step::Done
            },
            Action::GrowSidebar => {
                let w: u16 = self.mux.sidebar_w + SIDEBAR_STEP;
                self.relay(
                    if w <= SIDEBAR_MAX {
                        w
                    } else {
                        SIDEBAR_MAX
                    },
                )
            },
            Action::ShrinkSidebar => {
                let w: u16 = self.mux.sidebar_w.saturating_sub(SIDEBAR_STEP);
                self.relay(
                    if w >= SIDEBAR_MIN {
                        w
                    } else {
                        SIDEBAR_MIN
                    },
                )
            },
            Action::Redraw => {
                self.renderer.invalidate();
                Step::Done
            },
            Action::Quit => Step::Quit,
            Action::Mouse(m) => {
                if !m.pressed || m.button != 0 {
                    return Step::Done;
                }
                let l = self.mux.layout();
                if l.is_new_button(m.x, m.y) {
                    return Step::Spawn(self.mux.spawn_pane());
                }
                match l.button_at(m.x, m.y, self.mux.panes.len()) {
                    Some(i) => self.mux.select(i),
                    None => {},
                }
                Step::Done
            },
        }
    }

    fn relay(&mut self, sidebar_w: u16) -> (step: Step)
        requires
            old(self).wf(),
            SIDEBAR_MIN <= sidebar_w <= SIDEBAR_MAX,
        ensures
            final(self).wf(),
            final(self).same_clock(*old(self)),
            old(self).resize_step(*final(self), sidebar_w, step),
    {
        self.mux.sidebar_w = sidebar_w;
        let cols = self.mux.cols;
        let rows = self.mux.rows;
        let sizes = self.mux.resize_all(cols, rows);
        self.renderer.invalidate();
        Step::Resize(sizes)
    }

    /// Take in what woke the loop up, and say what is to be done. A child that
    /// ended leaves its pane with what it last showed.
    pub fn hear(&mut self, ev: Ev) -> (actions: Vec<Action>)
        requires
            old(self).wf(),
        ensures
            final(self).wf(),
            final(self).dirty,
            final(self).renderer == old(self).renderer,
            final(self).last_frame == old(self).last_frame,
            final(self).last_poll == old(self).last_poll,
            match ev {
                Ev::Input(bytes) => {
                    let n = bytes@.len() as int;
                    &&& final(self).mux == old(self).mux
                    &&& final(self).router@ == old(self).router@.after(bytes@, n)
                    &&& meaning(actions@) == actions_for(old(self).router@.tokens(bytes@, n))
                },
                Ev::Output => {
                    &&& final(self).mux == old(self).mux
                    &&& final(self).router == old(self).router
                    &&& actions@.len() == 0
                },
                Ev::Exited(id) => {
                    &&& final(self).mux.same_frame(old(self).mux)
                    &&& final(self).mux.closed == old(self).mux.closed
                    &&& final(self).mux.active == old(self).mux.active
                    &&& final(self).router == old(self).router
                    &&& actions@.len() == 0
                    &&& match find_pane(old(self).mux.panes@, id, 0) {
                        Some(i) => final(self).mux.panes@ == old(self).mux.panes@.update(
                            i,
                            (Pane { alive: false, ..old(self).mux.panes@[i] }),
                        ),
                        None => final(self).mux.panes == old(self).mux.panes,
                    }
                },
            },
    {
        self.dirty = true;
        match ev {
            Ev::Input(bytes) => self.router.feed(bytes.as_slice()),
            Ev::Output => Vec::new(),
            Ev::Exited(id) => {
                self.mux.exited(id);
                Vec::new()
            },
        }
    }

    /// No input has come for a while: what the router holds back goes to the
    /// active pane.
    pub fn idle(&mut self) -> (step: Step)
        requires
            old(self).wf(),
        ensures
            final(self).wf(),
            final(self).mux == old(self).mux,
            final(self).renderer == old(self).renderer,
            final(self).dirty == old(self).dirty,
            final(self).last_frame == old(self).last_frame,
            final(self).last_poll == old(self).last_poll,
            final(self).router@ == old(self).router@.released(),
            if old(self).router@.pending.len() > 0 {
                old(self).write_step(old(self).router@.pending, step)
            } else {
                step is Done
            },
    {
        match self.router.flush_pending() {
            Some(Action::Forward(bytes)) => {
                if self.mux.active < self.mux.panes.len() {
                    Step::Write { pane: self.mux.panes[self.mux.active].id, bytes }
                } else {
                    Step::Done
                }
            },
            _ => Step::Done,
        }
    }

    /// Whether it is time to look at the size of the console again.
    pub fn poll_due(&mut self, now: u64) -> (due: bool)
        requires
            old(self).wf(),
        ensures
            final(self).wf(),
            due == elapsed(old(self).last_poll, now, RESIZE_POLL),
            final(self).last_poll == (if due {
                now
            } else {
                old(self).last_poll
            }),
            final(self).mux == old(self).mux,
            final(self).router == old(self).router,
            final(self).renderer == old(self).renderer,
            final(self).dirty == old(self).dirty,
            final(self).last_frame == old(self).last_frame,
    {
        if has_elapsed(self.last_poll, now, RESIZE_POLL) {
            self.last_poll = now;
            true
        } else {
            false
        }
    }

    /// The console has this size now. Where that is news, everything is laid
    /// out and painted anew.
    pub fn size_seen(&mut self, cols: u16, rows: u16) -> (sizes: Vec<PtySize>)
        requires
            old(self).wf(),
        ensures
            final(self).wf(),
            final(self).router == old(self).router,
            final(self).last_frame == old(self).last_frame,
            final(self).last_poll == old(self).last_poll,
            if cols == old(self).mux.cols && rows == old(self).mux.rows {
                *final(self) == *old(self) && sizes@.len() == 0
            } else {
                let c = layout_for(cols, rows, old(self).mux.sidebar_w).content;
                let n = old(self).mux.panes@.len();
                &&& final(self).dirty
                &&& forgotten(old(self).renderer, final(self).renderer)
                &&& final(self).mux.cols == cols
                &&& final(self).mux.rows == rows
                &&& final(self).mux.active == old(self).mux.active
                &&& final(self).mux.sidebar_w == old(self).mux.sidebar_w
                &&& final(self).mux.shell == old(self).mux.shell
                &&& final(self).mux.next_id == old(self).mux.next_id
                &&& final(self).mux.closed == old(self).mux.closed
                &&& final(self).mux.panes@.len() == n
                &&& sizes@.len() == n
                &&& forall|i: int|
                    0 <= i < n ==> same_but_resized(
                        old(self).mux.panes@[i],
                        #[trigger] final(self).mux.panes@[i],
                        c.w as int,
                        c.h as int,
                    ) && sizes@[i] == (PtySize {
                        pane: old(self).mux.panes@[i].id,
                        cols: c.w,
                        rows: c.h,
                    })
            },
    {
        if cols == self.mux.cols && rows == self.mux.rows {
            return Vec::new();
        }
        let sizes = self.mux.resize_all(cols, rows);
        self.renderer.invalidate();
        self.dirty = true;
        sizes
    }

    /// The frame as it is now.
    pub open spec fn picture(self) -> FrameModel {
        composed(
            self.mux.panes@,
            self.mux.active as int,
            layout_for(self.mux.cols, self.mux.rows, self.mux.sidebar_w),
            self.mux.cols as int,
            self.mux.rows as int,
            self.router@.armed,
        )
    }

    /// The text of a repaint, where there is something to repaint and the last
    /// one is long enough ago.
    pub fn repaint(&mut self, now: u64) -> (text: Option<String>)
        requires
            old(self).wf(),
        ensures
            final(self).wf(),
            final(self).mux == old(self).mux,
            final(self).router == old(self).router,
            final(self).last_poll == old(self).last_poll,
            text is Some <==> old(self).dirty && elapsed(old(self).last_frame, now, FRAME),
            text is None ==> *final(self) == *old(self),
            text matches Some(s) ==> {
                let f = old(self).picture();
                let spans = spans_of(f.cells);
                &&& s@ == old(self).renderer.draw_text(f, spans)
                &&& final(self).renderer.prev@ == f.walk(
                    spans,
                    old(self).renderer.baseline(f),
                ).shown
                &&& final(self).renderer.cols == old(self).mux.cols
                &&& final(self).renderer.rows == old(self).mux.rows
                &&& !final(self).dirty
                &&& final(self).last_frame == now
            },
    {
        if !self.dirty || !has_elapsed(self.last_frame, now, FRAME) {
            return None;
        }
        let l = self.mux.layout();
        let n: usize = self.mux.panes.len();
        assert(self.mux.active < at_least_one(n as int));
        let frame = compose(
            self.mux.panes.as_slice(),
            self.mux.active,
            &l,
            self.mux.cols,
            self.mux.rows,
            self.router.prefix_armed(),
        );
        let text = self.renderer.draw(&frame);
        self.dirty = false;
        self.last_frame = now;
        Some(text)
    }
}

/// The rail one step wider, within its limit.
pub open spec fn wider(w: u16) -> u16 {
    clamped(w + SIDEBAR_STEP, 0, SIDEBAR_MAX as int) as u16
}

/// The rail one step narrower, within its limit.
pub open spec fn narrower(w: u16) -> u16 {
    clamped(w - SIDEBAR_STEP, SIDEBAR_MIN as int, u16::MAX as int) as u16
}

// ---- laws -----------------------------------------------------------------------

/// Forward and back again is where one was, either way round.
pub proof fn law_cycling_is_reversible(active: int, n: int)
    requires
        0 <= active < n,
    ensures
        0 <= next_of(active, n) < n,
        0 <= previous_of(active, n) < n,
        previous_of(next_of(active, n), n) == active,
        next_of(previous_of(active, n), n) == active,
{
    if active == n - 1 {
        vstd::arithmetic::div_mod::lemma_mod_self_0(n);
        vstd::arithmetic::div_mod::lemma_small_mod((n - 1) as nat, n as nat);
    } else {
        vstd::arithmetic::div_mod::lemma_small_mod((active + 1) as nat, n as nat);
        vstd::arithmetic::div_mod::lemma_mod_add_multiples_vanish(active, n);
        vstd::arithmetic::div_mod::lemma_small_mod(active as nat, n as nat);
    }
    if active == 0 {
        vstd::arithmetic::div_mod::lemma_small_mod((n - 1) as nat, n as nat);
        vstd::arithmetic::div_mod::lemma_mod_self_0(n);
    } else {
        vstd::arithmetic::div_mod::lemma_mod_add_multiples_vanish(active - 1, n);
        vstd::arithmetic::div_mod::lemma_small_mod((active - 1) as nat, n as nat);
        vstd::arithmetic::div_mod::lemma_small_mod(active as nat, n as nat);
    }
}

/// Switching panes is a change of view: no key that switches, and no click on a
/// button, changes any pane.
pub proof fn law_switching_changes_no_pane(c: Console, a: ActionModel, after: Console, step: Step)
    requires
        c.acts(a, after, step),
        a is NextPane || a is PrevPane || a is SelectPane || a is Mouse || a is Forward || a is Redraw,
    ensures
        after.mux.panes == c.mux.panes,
{
}

/// The rail stays within its limits, however often it is made wider or narrower.
pub proof fn law_the_rail_stays_in_its_limits(w: u16)
    requires
        SIDEBAR_MIN <= w <= SIDEBAR_MAX,
    ensures
        SIDEBAR_MIN <= wider(w) <= SIDEBAR_MAX,
        SIDEBAR_MIN <= narrower(w) <= SIDEBAR_MAX,
        w <= SIDEBAR_MAX - SIDEBAR_STEP ==> narrower(wider(w)) == w,
{
}

/// The shell that is asked for is the one after `--shell` or `-s`, wherever they
/// stand behind arguments that mean nothing; without them it is the command
/// prompt. `-h` and `--help` ask for help.
pub proof fn law_arguments_mean_what_they_say(args: Seq<String>, i: int, k: int)
    requires
        0 <= i <= k,
        forall|j: int|
            i <= j < k && j < args.len() ==> (#[trigger] args[j])@ != "--shell"@ && args[j]@ != "-s"@
                && args[j]@ != "-h"@ && args[j]@ != "--help"@,
    ensures
        k >= args.len() ==> parsed(args, i) == ArgsModel::Shell("cmd.exe"@),
        k + 1 < args.len() && (args[k]@ == "--shell"@ || args[k]@ == "-s"@) ==> parsed(args, i)
            == ArgsModel::Shell(args[k + 1]@),
        k + 1 == args.len() && (args[k]@ == "--shell"@ || args[k]@ == "-s"@) ==> parsed(args, i)
            == ArgsModel::Shell("cmd.exe"@),
        k < args.len() && (args[k]@ == "-h"@ || args[k]@ == "--help"@) ==> parsed(args, i) is Help,
    decreases k - i,
{
    reveal_strlit("--shell");
    reveal_strlit("-s");
    reveal_strlit("-h");
    reveal_strlit("--help");
    assert("--shell"@.len() == 7 && "--help"@.len() == 6 && "-s"@.len() == 2 && "-h"@.len() == 2);
    assert("-s"@[1] == 's' && "-h"@[1] == 'h');
    if i < k {
        law_arguments_mean_what_they_say(args, i + 1, k);
    }
}

/// A step makes the rail two columns wider or narrower, or takes it to its limit.
pub proof fn law_the_rail_moves_by_steps(w: u16)
    requires
        12 <= w <= 40,
    ensures
        w + 2 <= 40 ==> wider(w) == w + 2,
        w + 2 > 40 ==> wider(w) == 40,
        w - 2 >= 12 ==> narrower(w) == w - 2,
        w - 2 < 12 ==> narrower(w) == 12,
{
}

/// Going on from the last pane leads to the first, going back from the first to
/// the last, and otherwise each goes by one.
pub proof fn law_panes_go_round(active: int, n: int)
    requires
        0 <= active < n,
    ensures
        active + 1 < n ==> next_of(active, n) == active + 1,
        active + 1 == n ==> next_of(active, n) == 0,
        active > 0 ==> previous_of(active, n) == active - 1,
        active == 0 ==> previous_of(active, n) == n - 1,
{
    law_cycling_is_reversible(active, n);
    if active + 1 < n {
        vstd::arithmetic::div_mod::lemma_small_mod((active + 1) as nat, n as nat);
    } else {
        vstd::arithmetic::div_mod::lemma_mod_self_0(n);
    }
    if active > 0 {
        vstd::arithmetic::div_mod::lemma_mod_add_multiples_vanish(active - 1, n);
        vstd::arithmetic::div_mod::lemma_small_mod((active - 1) as nat, n as nat);
        assert(active + n - 1 == n + (active - 1));
    } else {
        vstd::arithmetic::div_mod::lemma_small_mod((n - 1) as nat, n as nat);
    }
}

/// A press of the first button in the rail opens a pane in the last row, shows
/// the pane whose button stands there below the heading, and does nothing
/// elsewhere. A release, or another button, does nothing anywhere.
pub proof fn law_clicks_do_what_is_under_them(l: Layout, m: MouseEvent, panes: int)
    ensures
        ({
            let r = l.sidebar;
            let inside = r.x <= m.x < r.x + r.w && r.y <= m.y < r.y + r.h;
            let down = m.pressed && m.button == 0;
            let row = m.y - r.y;
            &&& target_of(l, m, panes) is New <==> down && inside && row == r.h - 1
            &&& down && inside && row < r.h - 1 && 1 <= row <= panes ==> target_of(l, m, panes)
                == Target::Pane(row - 1)
            &&& target_of(l, m, panes) is Pane ==> down && inside && 1 <= row <= panes
            &&& !down || !inside ==> target_of(l, m, panes) is Nothing
        }),
{
}

/// Time passes evenly: what has waited long enough goes on having done so, and a
/// clock that stands behind counts as no time at all.
pub proof fn law_waiting_comes_to_an_end(since: u64, now: u64, wait: u64)
    ensures
        since + wait <= now ==> elapsed(since, now, wait),
        now < since + wait ==> !elapsed(since, now, wait),
{
}

/// A pane is found by its id.
pub proof fn law_panes_are_found(panes: Seq<Pane>, id: usize, i: int)
    requires
        0 <= i <= panes.len(),
    ensures
        find_pane(panes, id, i) matches Some(k) ==> i <= k < panes.len() && panes[k].id == id
            && forall|j: int| i <= j < k ==> (#[trigger] panes[j]).id != id,
        find_pane(panes, id, i) is None ==> forall|j: int|
            i <= j < panes.len() ==> (#[trigger] panes[j]).id != id,
    decreases panes.len() - i,
{
    if i < panes.len() {
        law_panes_are_found(panes, id, i + 1);
    }
}

/// What each action does, seen from outside: bytes go to the pane on the screen;
/// a new pane gets the next id, the shell, and the size of the screen beside the
/// rail; the pane on the screen is the one that is closed, and the last to be
/// closed ends the program; a number shows the pane of that number; leaving
/// leaves.
pub proof fn law_actions_reach_their_pane(
    c: Console,
    bytes: Seq<u8>,
    i: int,
    after: Console,
    step: Step,
)
    requires
        c.wf(),
    ensures
        c.acts(ActionModel::Forward(bytes), after, step) && c.mux.panes@.len() > 0 ==> (step
            matches Step::Write { pane, bytes: b } && pane == c.mux.panes@[c.mux.active as int].id
            && b@ == bytes),
        c.acts(ActionModel::NewPane, after, step) ==> (step matches Step::Spawn(plan) && plan.id
            == c.mux.next_id && plan.program@ == c.mux.shell@ && (c.mux.cols >= 80
            && c.mux.rows >= 3 ==> plan.cols == c.mux.cols - c.mux.sidebar_w - 1 && plan.rows
            == c.mux.rows - 1)),
        c.acts(ActionModel::ClosePane, after, step) && c.mux.panes@.len() > 0 ==> {
            &&& step matches Step::Close { pane, leave } && pane
                == c.mux.panes@[c.mux.active as int].id && (leave <==> c.mux.panes@.len() == 1)
            &&& after.mux.panes@.len() == c.mux.panes@.len() - 1
            &&& forall|k: int|
                0 <= k < after.mux.panes@.len() ==> (#[trigger] after.mux.panes@[k]) == c.mux.panes@[if k
                    < c.mux.active {
                    k
                } else {
                    k + 1
                }]
        },
        c.acts(ActionModel::SelectPane(i), after, step) && 0 <= i < c.mux.panes@.len()
            ==> after.mux.active == i && step is Done,
        c.acts(ActionModel::SelectPane(i), after, step) && i >= c.mux.panes@.len()
            ==> after.mux.active == c.mux.active && step is Done,
        c.acts(ActionModel::Quit, after, step) ==> step is Quit && after == c,
        c.acts(ActionModel::Redraw, after, step) ==> step is Done && after.renderer.prev@.len() == 0
            && after.mux == c.mux,
{
}

/// A change of the rail gives every pane the new size, and the child of every
/// pane is told it.
pub proof fn law_the_rail_resizes_every_pane(c: Console, after: Console, step: Step, i: int)
    requires
        c.wf(),
        c.mux.cols >= 80,
        c.mux.rows >= 3,
        c.acts(ActionModel::GrowSidebar, after, step),
        0 <= i < c.mux.panes@.len(),
    ensures
        after.mux.panes@[i].id == c.mux.panes@[i].id,
        after.mux.panes@[i].grid@ == c.mux.panes@[i].grid@.resized(
            c.mux.cols - after.mux.sidebar_w - 1,
            c.mux.rows - 1,
        ),
        step matches Step::Resize(sizes) && sizes@[i].pane == c.mux.panes@[i].id && sizes@[i].cols
            == c.mux.cols - after.mux.sidebar_w - 1 && sizes@[i].rows == c.mux.rows - 1,
{
    assert(same_but_resized(
        c.mux.panes@[i],
        after.mux.panes@[i],
        layout_for(c.mux.cols, c.mux.rows, after.mux.sidebar_w).content.w as int,
        layout_for(c.mux.cols, c.mux.rows, after.mux.sidebar_w).content.h as int,
    ));
}

/// A pane is called by the name of its program, without directory and extension;
/// a program that is nothing but a directory goes by what it was given as.
pub proof fn law_panes_are_called_by_their_program(dir: Seq<char>, name: Seq<char>, ext: Seq<char>)
    requires
        dir.len() == 0 || (dir[0] != '\\' && dir[0] != '/'),
        crate::windows_path::plain_name(name),
        crate::windows_path::plain_name(ext),
        !ext.contains('.'),
    ensures
        label_for(dir + seq!['\\'] + name + seq!['.'] + ext) == name,
        file_stem(dir) is None ==> label_for(dir) == dir,
{
    crate::windows_path::law_the_stem_is_the_name(dir, name, ext);
}

/// What a child prints is drawn on its own pane, whether that is on the screen or
/// not; every other pane stays as it was, and so does which one is shown. The
/// answers are handed over.
pub proof fn law_output_reaches_one_pane(
    m: Mux,
    k: int,
    found: Seq<VtAction>,
    now: u64,
    after: Mux,
    reply: Option<Vec<u8>>,
    j: int,
)
    requires
        m.wf(),
        0 <= k < m.panes@.len(),
        0 <= j < m.panes@.len(),
        m.panes@[k].grid@.takes(found),
        m.shows(m.panes@[k].id, found, now, after, reply),
    ensures
        ({
            let end = m.panes@[k].grid@.after(found, found.len() as int);
            &&& after.panes@.len() == m.panes@.len()
            &&& after.panes@[k].grid@.screen == end.screen && after.panes@[k].grid@.title
                == end.title
            &&& after.panes@[k].id == m.panes@[k].id && after.panes@[k].last_output == now
            &&& reply matches Some(owed) && owed@ == end.reply
            &&& j != k ==> after.panes@[j] == m.panes@[j]
            &&& after.active == m.active && after.sidebar_w == m.sidebar_w && after.closed
                == m.closed
        }),
{
    let id = m.panes@[k].id;
    law_panes_are_found(m.panes@, id, 0);
    let i = find_pane(m.panes@, id, 0).unwrap();
    if i < k {
        assert(m.panes@[i].id != m.panes@[k].id);
    } else if k < i {
        assert(m.panes@[k].id != m.panes@[i].id);
    }
    crate::pane::law_output_is_drawn_and_answered(m.panes@[k], found, now, after.panes@[k], reply);
}

/// What is drawn is the pane that is active, beside the rail, cell by cell.
pub proof fn law_the_picture_shows_the_active_pane(c: Console, x: int, y: int)
    requires
        c.wf(),
        c.mux.panes@.len() > 0,
        c.mux.cols >= 80,
        c.mux.rows >= 3,
        0 <= x < c.mux.cols - c.mux.sidebar_w - 1,
        0 <= y < c.mux.rows - 1,
        x < c.mux.panes@[c.mux.active as int].grid@.cols <= u16::MAX,
        y < c.mux.panes@[c.mux.active as int].grid@.rows <= u16::MAX,
    ensures
        c.picture().cols == c.mux.cols && c.picture().rows == c.mux.rows,
        c.picture().at(c.mux.sidebar_w + 1 + x, y)
            == c.mux.panes@[c.mux.active as int].grid@.screen.rows[y][x],
{
    crate::render::laws::law_the_active_pane_is_shown(
        c.mux.panes@,
        c.mux.active as int,
        c.mux.cols,
        c.mux.rows,
        c.mux.sidebar_w,
        c.router@.armed,
        x,
        y,
    );
    crate::render::chrome::law_the_picture_has_its_size(
        c.mux.panes@,
        c.mux.active as int,
        c.mux.cols,
        c.mux.rows,
        c.mux.sidebar_w,
        c.router@.armed,
    );
}

/// A press on a button shows its pane, one on "+ new" opens another, and anything
/// else of the mouse does nothing.
pub proof fn law_clicks_reach_their_pane(c: Console, m: MouseEvent, after: Console, step: Step)
    requires
        c.wf(),
        c.mux.cols >= 80,
        c.mux.rows >= 3,
        c.acts(ActionModel::Mouse(m), after, step),
    ensures
        ({
            let down = m.pressed && m.button == 0;
            let inside = m.x < c.mux.sidebar_w && m.y < c.mux.rows - 1;
            &&& down && inside && 1 <= m.y <= c.mux.panes@.len() && m.y < c.mux.rows - 2
                ==> after.mux.active == m.y - 1 && step is Done && after.mux.panes == c.mux.panes
            &&& down && inside && m.y == c.mux.rows - 2 ==> (step matches Step::Spawn(plan)
                && plan.id == c.mux.next_id)
            &&& !down || !inside || m.y == 0 ==> after == c && step is Done
        }),
{
}

/// The keys for the next pane and the one before it go round, and change nothing
/// else; those for the rail move it by a step.
pub proof fn law_keys_move_by_one(c: Console, after: Console, step: Step)
    requires
        c.wf(),
        c.mux.panes@.len() > 0,
    ensures
        ({
            let n = c.mux.panes@.len();
            let a = c.mux.active;
            let w = c.mux.sidebar_w;
            &&& c.acts(ActionModel::NextPane, after, step) ==> step is Done && after.mux.panes
                == c.mux.panes && after.mux.active == (if a + 1 < n {
                a + 1
            } else {
                0
            })
            &&& c.acts(ActionModel::PrevPane, after, step) ==> step is Done && after.mux.panes
                == c.mux.panes && after.mux.active == (if a > 0 {
                a - 1
            } else {
                n - 1
            })
            &&& c.acts(ActionModel::GrowSidebar, after, step) && w + 2 <= 40
                ==> after.mux.sidebar_w == w + 2 && after.mux.active == a
            &&& c.acts(ActionModel::ShrinkSidebar, after, step) && w - 2 >= 12
                ==> after.mux.sidebar_w == w - 2 && after.mux.active == a
        }),
{
    law_panes_go_round(c.mux.active as int, c.mux.panes@.len() as int);
}

/// When the pane on the screen is closed, the one behind it takes its place; where
/// it was the last, the one before it is shown. The closed one is kept aside, as
/// it was but dead.
pub proof fn law_a_neighbour_takes_the_place(c: Console, after: Console, step: Step)
    requires
        c.wf(),
        c.mux.panes@.len() > 0,
        c.acts(ActionModel::ClosePane, after, step),
    ensures
        ({
            let n = c.mux.panes@.len();
            let a = c.mux.active as int;
            let gone = after.mux.closed@.last();
            &&& a + 1 < n ==> after.mux.panes@[after.mux.active as int] == c.mux.panes@[a + 1]
            &&& a + 1 == n && n > 1 ==> after.mux.panes@[after.mux.active as int]
                == c.mux.panes@[a - 1]
            &&& n == 1 ==> after.mux.active == 0
            &&& after.mux.closed@.drop_last() == c.mux.closed@
            &&& gone.id == c.mux.panes@[a].id && gone.grid == c.mux.panes@[a].grid && !gone.alive
            &&& after.renderer.prev@.len() == 0
        }),
{
    assert(after.mux.closed@.drop_last() =~= c.mux.closed@);
}

/// Opening a pane only asks for its child yet: no pane changes, nothing is painted
/// anew, and the next one gets the next id. Without a pane there is nobody to send
/// anything to, and closing leaves.
pub proof fn law_opening_only_asks(c: Console, bytes: Seq<u8>, after: Console, step: Step)
    requires
        c.wf(),
        c.mux.next_id < usize::MAX,
    ensures
        c.acts(ActionModel::NewPane, after, step) ==> after.mux.panes == c.mux.panes
            && after.mux.active == c.mux.active && after.renderer == c.renderer && after.mux.next_id
            == c.mux.next_id + 1 && after.mux.sidebar_w == c.mux.sidebar_w,
        c.acts(ActionModel::Forward(bytes), after, step) ==> after == c,
        c.acts(ActionModel::Forward(bytes), after, step) && c.mux.panes@.len() == 0 ==> step is Done,
        c.acts(ActionModel::ClosePane, after, step) && c.mux.panes@.len() == 0 ==> step is Quit,
{
}

} // verus!
