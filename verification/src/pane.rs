//! A terminal: one child shell, one [`Grid`].
//!
//! A pane is not ephemeral. Its output is fed into the grid whether or not
//! anyone is looking at it, so that switching back to a pane shows its screen as
//! it is now.
use crate::activity::{all_ascii, shown_ascii, Activity, ActivityModel, ProcessTable};
use crate::grid::model::{at_least_one, GridModel, VtAction};
use crate::grid::Grid;
use crate::text::{
    ascii_lower_text, ascii_lowered, copy_text, finishes_with, has_char, text_finishes_with, to_chars,
    trim, trimmed,
};
use crate::vt::{actions, advance, vt_actions, vt_state, VtEvent};
use crate::windows_path::{file_stem, stem_of};
use vstd::prelude::*;

verus! {

/// How recently, in milliseconds, a terminal must have printed something to
/// count as working.
pub const WORKING_WINDOW: u64 = 700;

pub struct Pane {
    pub id: usize,
    /// What the user named it. The child can override this with a title.
    pub label: String,
    pub grid: Grid,
    /// Whether the child still runs.
    pub alive: bool,
    pub pid: Option<u32>,
    /// When output last came, in milliseconds on the caller's clock.
    pub last_output: u64,
}

/// A title that is a bare path to a program, which says little on a narrow
/// button: it ends in `.exe` and holds a separator.
pub open spec fn is_program_path(t: Seq<char>) -> bool {
    finishes_with(ascii_lower_text(t), ".exe"@) && (t.contains('\\') || t.contains('/'))
}

/// A title as a button shows it: the path to a program is cut down to the name
/// of the program, any other title is left alone.
pub open spec fn shortened(title: Seq<char>) -> Seq<char> {
    let t = trim(title);
    if is_program_path(t) {
        match file_stem(t) {
            Some(stem) => stem,
            None => t,
        }
    } else {
        t
    }
}

/// Cut a title down to what is worth showing.
pub fn shorten_title(title: &str) -> (out: String)
    ensures
        out@ == shortened(title@),
{
    let t = trimmed(title);
    let lower = ascii_lowered(t.as_str());
    let chars = to_chars(t.as_str());
    let n = chars.len();
    assert(chars@.subrange(0, n as int) =~= t@);
    if text_finishes_with(lower.as_str(), ".exe") && (has_char(&chars, 0, n, '\\') || has_char(
        &chars,
        0,
        n,
        '/',
    )) {
        match stem_of(t.as_str()) {
            Some(stem) => stem,
            None => t,
        }
    } else {
        t
    }
}

/// Output came recently enough for the terminal to count as working. A clock
/// that went backwards counts as no time passed.
pub open spec fn is_working(last_output: int, now: int) -> bool {
    now - last_output < WORKING_WINDOW
}

/// Whether output that came at `last_output` still counts as recent at `now`.
pub fn working(last_output: u64, now: u64) -> (res: bool)
    ensures
        res == is_working(last_output as int, now as int),
{
    now < last_output || now - last_output < WORKING_WINDOW
}

/// A width or height that is at least one.
pub fn at_least_one_u16(n: u16) -> (res: u16)
    ensures
        res == at_least_one(n as int),
{
    if n == 0 {
        1
    } else {
        n
    }
}

impl Pane {
    pub open spec fn wf(self) -> bool {
        self.grid@.wf()
    }

    /// The pane of a child that was just started, with a blank screen.
    pub fn new(id: usize, label: &str, cols: u16, rows: u16, pid: Option<u32>, now: u64) -> (p: Self)
        ensures
            p.id == id,
            p.label@ == label@,
            p.alive,
            p.pid == pid,
            p.last_output == now,
            p.grid@ == GridModel::fresh(at_least_one(cols as int), at_least_one(rows as int)),
            p.wf(),
    {
        Pane {
            id,
            label: copy_text(label),
            grid: Grid::new(at_least_one_u16(cols) as usize, at_least_one_u16(rows) as usize),
            alive: true,
            pid,
            last_output: now,
        }
    }

    pub fn is_alive(&self) -> (res: bool)
        ensures
            res == self.alive,
    {
        self.alive
    }

    /// Whether this pane runs a command, and whether that command is doing
    /// anything right now.
    pub fn activity(&self, table: &ProcessTable, now: u64) -> (res: Activity)
        ensures
            res@ == table@.activity(
                self.pid,
                self.alive,
                is_working(self.last_output as int, now as int),
            ),
            self.alive ==> (self.pid matches Some(pid) ==> (table@.command_from(0, pid) matches Some(
                name,
            ) ==> (all_ascii(name) ==> res@ == (ActivityModel::Running {
                command: shown_ascii(name),
                working: is_working(self.last_output as int, now as int),
            })))),
    {
        table.activity_of(self.pid, self.alive, working(self.last_output, now))
    }

    /// The name on the button: the title that the child set, or the label where
    /// it set none.
    pub open spec fn shown_name(self) -> Seq<char> {
        if self.grid@.title.len() == 0 {
            self.label@
        } else {
            shortened(self.grid@.title)
        }
    }

    /// The title that the child reports, or the label where there is none.
    pub fn display_name(&self) -> (out: String)
        ensures
            out@ == self.shown_name(),
    {
        let title = self.grid.title();
        if to_chars(title).len() == 0 {
            return copy_text(self.label.as_str());
        }
        shorten_title(title)
    }

    /// Resize the grid, and say what size the pty is to have.
    pub fn resize(&mut self, cols: u16, rows: u16) -> (size: (u16, u16))
        requires
            old(self).wf(),
        ensures
            final(self).wf(),
            size.0 == at_least_one(cols as int),
            size.1 == at_least_one(rows as int),
            final(self).grid@ == old(self).grid@.resized(size.0 as int, size.1 as int),
            final(self).id == old(self).id,
            final(self).label == old(self).label,
            final(self).alive == old(self).alive,
            final(self).pid == old(self).pid,
            final(self).last_output == old(self).last_output,
    {
        let c: u16 = at_least_one_u16(cols);
        let r: u16 = at_least_one_u16(rows);
        self.grid.resize(c as usize, r as usize);
        (c, r)
    }

    /// Take in what the child printed. What comes back are the answers owed to
    /// it, or `None` where something in the output could not be drawn: then the
    /// grid stands as it did before that.
    pub fn output(&mut self, parser: &mut vte::Parser, bytes: &[u8], now: u64) -> (reply: Option<
        Vec<u8>,
    >)
        requires
            old(self).wf(),
        ensures
            *final(parser) == vt_state(*old(parser), bytes@),
            old(self).shows(vt_actions(*old(parser), bytes@), now, *final(self), reply),
    {
        let events = advance(parser, bytes);
        self.show(&events, now)
    }

    /// What becomes of a pane whose child printed something, and what is owed to
    /// the child.
    pub open spec fn shows(
        self,
        found: Seq<VtAction>,
        now: u64,
        after: Pane,
        reply: Option<Vec<u8>>,
    ) -> bool {
        let end = self.grid@.fed(found);
        &&& after.wf()
        &&& after.last_output == now
        &&& after.id == self.id
        &&& after.label == self.label
        &&& after.alive == self.alive
        &&& after.pid == self.pid
        &&& reply is Some <==> self.grid@.takes(found)
        &&& reply matches Some(owed) ==> owed@ == end.reply && after.grid@ == end.answered()
        &&& reply is None ==> after.grid@ == end
    }

    /// Take in what the parser found in the child's output.
    pub fn show(&mut self, events: &Vec<VtEvent>, now: u64) -> (reply: Option<Vec<u8>>)
        requires
            old(self).wf(),
        ensures
            old(self).shows(actions(events@), now, *final(self), reply),
    {
        self.last_output = now;
        let n = self.grid.apply_all(events);
        if n == events.len() {
            Some(self.grid.take_reply())
        } else {
            None
        }
    }
}

// ---- laws -----------------------------------------------------------------------

/// A title that is no path to a program is shown as it is, without the white
/// space around it; a pane without a title goes by its label.
pub proof fn law_titles_are_shown(p: Pane)
    ensures
        ({
            let t = trim(p.grid@.title);
            let program = finishes_with(ascii_lower_text(t), ".exe"@) && (t.contains('\\')
                || t.contains('/'));
            &&& p.grid@.title.len() == 0 ==> p.shown_name() == p.label@
            &&& p.grid@.title.len() > 0 && !program ==> p.shown_name() == t
            &&& p.grid@.title.len() > 0 && program ==> (file_stem(t) matches Some(stem)
                ==> p.shown_name() == stem)
        }),
{
}

/// A terminal counts as working for a moment after it printed, and then no more;
/// the moment is the same whenever it is.
pub proof fn law_work_wears_off(last: int, now: int, shift: int)
    ensures
        last <= now < last + 700 ==> is_working(last, now),
        now >= last + 700 ==> !is_working(last, now),
        is_working(last + shift, now + shift) == is_working(last, now),
{
}

/// What a child prints goes to the screen of its pane, all of it where it can be
/// drawn, and the answers are handed over once: the pane owes nothing after.
pub proof fn law_output_is_drawn_and_answered(
    p: Pane,
    found: Seq<VtAction>,
    now: u64,
    after: Pane,
    reply: Option<Vec<u8>>,
)
    requires
        p.wf(),
        p.grid@.takes(found),
        p.shows(found, now, after, reply),
    ensures
        ({
            let end = p.grid@.after(found, found.len() as int);
            &&& reply matches Some(owed) && owed@ == end.reply
            &&& after.grid@.reply.len() == 0
            &&& after.grid@ == (GridModel { reply: Seq::empty(), ..end })
            &&& after.last_output == now
            &&& after.id == p.id && after.alive == p.alive && after.pid == p.pid
        }),
{
    crate::grid::laws::law_feeding_keeps_the_shape(p.grid@, found);
}

} // verus!
