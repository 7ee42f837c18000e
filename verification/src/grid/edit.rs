//! Moving, scrolling, erasing, editing and resizing.
use super::model;
use super::model::GridModel;
use super::{cell_row, cell_rows, default_tabs, rows_of, Cell, Color, Grid, Screen, SCROLLBACK_LIMIT};
use std::collections::VecDeque;
use vstd::prelude::*;

verus! {

// ---- rows as vectors ------------------------------------------------------------

/// One step of [`model::slide_up`]: take out at `lo`, put in at `hi`.
proof fn lemma_slide_up_step<A>(s: Seq<A>, lo: int, hi: int, k: int, fill: A)
    requires
        0 <= lo <= hi < s.len(),
        k >= 0,
    ensures
        model::slide_up(s, lo, hi, k + 1, fill) == model::slide_up(s, lo, hi, k, fill).remove(
            lo,
        ).insert(hi, fill),
{
    assert(model::slide_up(s, lo, hi, k + 1, fill) =~= model::slide_up(s, lo, hi, k, fill).remove(
        lo,
    ).insert(hi, fill));
}

/// One step of [`model::slide_down`]: take out at `hi`, put in at `lo`.
proof fn lemma_slide_down_step<A>(s: Seq<A>, lo: int, hi: int, k: int, fill: A)
    requires
        0 <= lo <= hi < s.len(),
        k >= 0,
    ensures
        model::slide_down(s, lo, hi, k + 1, fill) == model::slide_down(s, lo, hi, k, fill).remove(
            hi,
        ).insert(lo, fill),
{
    assert(model::slide_down(s, lo, hi, k + 1, fill) =~= model::slide_down(s, lo, hi, k, fill).remove(
        hi,
    ).insert(lo, fill));
}

/// Move the lines from `lo` to `hi` up by `n`, and hand back what fell out.
fn slide_rows_up(
    rows: &mut Vec<Vec<Cell>>,
    lo: usize,
    hi: usize,
    n: usize,
    fill: Cell,
    cols: usize,
) -> (out: Vec<Vec<Cell>>)
    requires
        lo <= hi < old(rows)@.len(),
    ensures
        rows_of(final(rows)@) == model::slide_up(
            rows_of(old(rows)@),
            lo as int,
            hi as int,
            n as int,
            model::line_of(fill, cols as int),
        ),
        rows_of(out@) == Seq::new(
            n as nat,
            |i: int|
                if lo + i <= hi {
                    old(rows)@[lo + i]@
                } else {
                    model::line_of(fill, cols as int)
                },
        ),
{
    let ghost start = rows_of(rows@);
    let ghost line = model::line_of(fill, cols as int);
    let mut out: Vec<Vec<Cell>> = Vec::new();
    let mut k: usize = 0;
    assert(model::slide_up(start, lo as int, hi as int, 0, line) =~= start);
    while k < n
        invariant
            k <= n,
            lo <= hi < rows@.len(),
            rows@.len() == start.len(),
            line == model::line_of(fill, cols as int),
            start == rows_of(old(rows)@),
            rows_of(rows@) == model::slide_up(start, lo as int, hi as int, k as int, line),
            rows_of(out@) == Seq::new(
                k as nat,
                |i: int|
                    if lo + i <= hi {
                        start[lo + i]
                    } else {
                        line
                    },
            ),
        decreases n - k,
    {
        proof {
            lemma_slide_up_step(start, lo as int, hi as int, k as int, line);
        }
        let ghost before = rows@;
        let ghost gone = out@;
        let top = rows.remove(lo);
        let row = cell_row(fill, cols);
        rows.insert(hi, row);
        out.push(top);
        assert(rows_of(rows@) =~= rows_of(before).remove(lo as int).insert(hi as int, line));
        assert(rows_of(before)[lo as int] == top@);
        assert(rows_of(out@) =~= rows_of(gone).push(top@));
        k += 1;
        assert(rows_of(out@) =~= Seq::new(
            k as nat,
            |i: int|
                if lo + i <= hi {
                    start[lo + i]
                } else {
                    line
                },
        ));
    }
    assert(rows_of(out@) =~= Seq::new(
        n as nat,
        |i: int|
            if lo + i <= hi {
                old(rows)@[lo + i]@
            } else {
                model::line_of(fill, cols as int)
            },
    ));
    out
}

/// Move the lines from `lo` to `hi` down by `n`.
fn slide_rows_down(
    rows: &mut Vec<Vec<Cell>>,
    lo: usize,
    hi: usize,
    n: usize,
    fill: Cell,
    cols: usize,
)
    requires
        lo <= hi < old(rows)@.len(),
    ensures
        rows_of(final(rows)@) == model::slide_down(
            rows_of(old(rows)@),
            lo as int,
            hi as int,
            n as int,
            model::line_of(fill, cols as int),
        ),
{
    let ghost start = rows_of(rows@);
    let ghost line = model::line_of(fill, cols as int);
    let mut k: usize = 0;
    assert(model::slide_down(start, lo as int, hi as int, 0, line) =~= start);
    while k < n
        invariant
            k <= n,
            lo <= hi < rows@.len(),
            rows@.len() == start.len(),
            line == model::line_of(fill, cols as int),
            rows_of(rows@) == model::slide_down(start, lo as int, hi as int, k as int, line),
        decreases n - k,
    {
        proof {
            lemma_slide_down_step(start, lo as int, hi as int, k as int, line);
        }
        let ghost before = rows@;
        let _ = rows.remove(hi);
        let row = cell_row(fill, cols);
        rows.insert(lo, row);
        assert(rows_of(rows@) =~= rows_of(before).remove(hi as int).insert(lo as int, line));
        k += 1;
    }
}

/// Put `fill` in the cells from `from` up to `to`.
fn fill_cells(row: &mut Vec<Cell>, from: usize, to: usize, fill: Cell)
    requires
        to <= old(row)@.len(),
    ensures
        final(row)@ == model::painted(old(row)@, from as int, to as int, fill),
{
    let mut i: usize = from;
    assert(model::painted(row@, from as int, from as int, fill) =~= row@);
    while i < to
        invariant
            from <= i,
            i <= to || i == from,
            to <= row@.len(),
            row@.len() == old(row)@.len(),
            row@ == model::painted(old(row)@, from as int, i as int, fill),
        decreases to - i,
    {
        row.set(i, fill);
        i += 1;
        assert(row@ =~= model::painted(old(row)@, from as int, i as int, fill));
    }
    assert(row@ =~= model::painted(old(row)@, from as int, to as int, fill));
}

/// Make the lines from `from` up to `to` all `fill`.
fn fill_rows(rows: &mut Vec<Vec<Cell>>, from: usize, to: usize, fill: Cell, cols: usize)
    requires
        to <= old(rows)@.len(),
    ensures
        rows_of(final(rows)@) == model::painted(
            rows_of(old(rows)@),
            from as int,
            to as int,
            model::line_of(fill, cols as int),
        ),
{
    let ghost start = rows_of(rows@);
    let ghost line = model::line_of(fill, cols as int);
    let mut i: usize = from;
    assert(model::painted(start, from as int, from as int, line) =~= start);
    while i < to
        invariant
            from <= i,
            i <= to || i == from,
            to <= rows@.len(),
            rows@.len() == start.len(),
            line == model::line_of(fill, cols as int),
            rows_of(rows@) == model::painted(start, from as int, i as int, line),
        decreases to - i,
    {
        let ghost before = rows@;
        let row = cell_row(fill, cols);
        rows.set(i, row);
        assert(rows_of(rows@) =~= rows_of(before).update(i as int, line));
        i += 1;
        assert(rows_of(rows@) =~= model::painted(start, from as int, i as int, line));
    }
    assert(rows_of(rows@) =~= model::painted(start, from as int, to as int, line));
}

/// Cut or fill up a row to `n` cells.
fn fit_row(row: &mut Vec<Cell>, n: usize)
    ensures
        final(row)@ == model::fitted(old(row)@, n as int, super::plain_cell()),
{
    if row.len() > n {
        row.truncate(n);
    }
    while row.len() < n
        invariant
            row@.len() <= n,
            row@ == model::fitted(old(row)@, row@.len() as int, super::plain_cell()),
            row@.len() < n ==> old(row)@.len() <= row@.len(),
        decreases n - row@.len(),
    {
        row.push(Cell::default());
        assert(row@ =~= model::fitted(old(row)@, row@.len() as int, super::plain_cell()));
    }
}

/// Cut, pad and move one screen to another size.
fn resize_screen(s: &mut Screen, cols: usize, rows: usize)
    requires
        cols >= 1,
        rows >= 1,
    ensures
        final(s).model() == old(s).model().resized(cols as int, rows as int),
{
    let ghost start = rows_of(s.rows@);
    let ghost wide = Seq::new(
        start.len(),
        |i: int| model::fitted(start[i], cols as int, super::plain_cell()),
    );
    let ghost blank = model::line_of(super::plain_cell(), cols as int);
    let had: usize = s.rows.len();
    let dropped: usize = if rows < had {
        had - rows
    } else {
        0
    };
    let mut kept: Vec<Vec<Cell>> = Vec::new();
    let mut i: usize = 0;
    let mut source: Vec<Vec<Cell>> = Vec::new();
    std::mem::swap(&mut source, &mut s.rows);
    while i < had
        invariant
            i <= had,
            had == source@.len(),
            dropped <= had,
            start == rows_of(source@),
            wide == Seq::new(
                start.len(),
                |i: int| model::fitted(start[i], cols as int, super::plain_cell()),
            ),
            kept@.len() == (if i < dropped {
                0
            } else {
                i - dropped
            }),
            forall|k: int| 0 <= k < kept@.len() ==> (#[trigger] kept@[k])@ == wide[k + dropped],
        decreases had - i,
    {
        if i >= dropped {
            let mut row = copy_row(&source[i]);
            fit_row(&mut row, cols);
            assert(start[i as int] == source@[i as int]@);
            kept.push(row);
        }
        i += 1;
    }
    while kept.len() < rows
        invariant
            dropped == (if rows < had {
                had - rows
            } else {
                0
            }),
            wide.len() == had,
            had - dropped <= kept@.len() <= rows,
            blank == model::line_of(super::plain_cell(), cols as int),
            forall|k: int| 0 <= k < had - dropped ==> (#[trigger] kept@[k])@ == wide[k + dropped],
            forall|k: int| had - dropped <= k < kept@.len() ==> (#[trigger] kept@[k])@ == blank,
        decreases rows - kept@.len(),
    {
        kept.push(cell_row(Cell::default(), cols));
    }
    s.rows = kept;
    let row: usize = if s.cursor_row < dropped {
        0
    } else {
        s.cursor_row - dropped
    };
    s.cursor_row =
    if row < rows {
        row
    } else {
        rows - 1
    };
    if s.cursor_col >= cols {
        s.cursor_col = cols - 1;
    }
    assert(rows_of(s.rows@) =~= model::fitted(wide.skip(dropped as int), rows as int, blank));
    assert(old(s).model().resized(cols as int, rows as int).rows =~= rows_of(s.rows@));
}

/// A copy of a row.
pub(crate) fn copy_row(row: &Vec<Cell>) -> (out: Vec<Cell>)
    ensures
        out@ == row@,
{
    let mut out: Vec<Cell> = Vec::new();
    let mut i: usize = 0;
    while i < row.len()
        invariant
            i <= row@.len(),
            out@ == row@.take(i as int),
        decreases row@.len() - i,
    {
        out.push(row[i]);
        i += 1;
        assert(out@ =~= row@.take(i as int));
    }
    assert(out@ =~= row@);
    out
}

/// Append `lines` and drop from the front what is over the limit.
fn remember(history: &mut VecDeque<Vec<Cell>>, lines: Vec<Vec<Cell>>)
    requires
        old(history)@.len() <= SCROLLBACK_LIMIT,
    ensures
        rows_of(final(history)@) == model::keep_last(
            rows_of(old(history)@) + rows_of(lines@),
            SCROLLBACK_LIMIT as int,
        ),
{
    let ghost all = rows_of(history@) + rows_of(lines@);
    let ghost had = history@.len();
    let mut i: usize = 0;
    assert(model::keep_last(all.take(had as int), SCROLLBACK_LIMIT as int) =~= rows_of(history@));
    while i < lines.len()
        invariant
            i <= lines@.len(),
            all.len() == had + lines@.len(),
            forall|k: int| 0 <= k < lines@.len() ==> all[had + k] == (#[trigger] lines@[k])@,
            history@.len() <= SCROLLBACK_LIMIT,
            rows_of(history@) == model::keep_last(
                all.take(had + i as int),
                SCROLLBACK_LIMIT as int,
            ),
        decreases lines@.len() - i,
    {
        let ghost before = rows_of(history@);
        let ghost gone = history@;
        history.push_back(copy_row(&lines[i]));
        assert(rows_of(history@) =~= before.push(all[had + i]));
        let ghost pushed = history@;
        if history.len() > SCROLLBACK_LIMIT {
            let _ = history.pop_front();
            assert(rows_of(history@) =~= rows_of(pushed).skip(1));
        }
        i += 1;
        assert(all.take(had + i as int) =~= all.take(had + i - 1).push(all[had + i - 1]));
        assert(rows_of(history@) =~= model::keep_last(
            all.take(had + i as int),
            SCROLLBACK_LIMIT as int,
        ));
    }
    assert(all.take(had + i as int) =~= all);
}

impl Grid {
    /// Change the size. A size of zero is taken as one.
    pub fn resize(&mut self, cols: usize, rows: usize)
        requires
            old(self)@.wf(),
        ensures
            final(self)@ == old(self)@.resized(
                model::at_least_one(cols as int),
                model::at_least_one(rows as int),
            ),
            final(self)@.wf(),
    {
        let cols = if cols == 0 { 1 } else { cols };
        let rows = if rows == 0 { 1 } else { rows };
        if cols == self.cols && rows == self.rows {
            return ;
        }
        resize_screen(&mut self.screen, cols, rows);
        match &mut self.alt {
            Some(s) => resize_screen(s, cols, rows),
            None => {},
        }
        self.cols = cols;
        self.rows = rows;
        self.scroll_top = 0;
        self.scroll_bot = rows - 1;
        self.tabs = default_tabs(cols);
        self.wrap_pending = false;
        assert(self@ =~= old(self)@.resized(cols as int, rows as int));
    }

    pub(crate) fn blank(&self) -> (c: Cell)
        ensures
            c == self@.blank(),
    {
        Cell { ch: ' ', fg: Color::Default, bg: self.pen.bg, attrs: 0 }
    }

    // ---- cursor movement --------------------------------------------------------

    pub(crate) fn set_cursor(&mut self, row: usize, col: usize)
        requires
            old(self)@.wf(),
        ensures
            final(self)@ == old(self)@.moved_to(row as int, col as int),
            final(self)@.wf(),
    {
        self.screen.cursor_row =
        if row < self.rows {
            row
        } else {
            self.rows - 1
        };
        self.screen.cursor_col =
        if col < self.cols {
            col
        } else {
            self.cols - 1
        };
        self.wrap_pending = false;
        assert(self@ =~= old(self)@.moved_to(row as int, col as int));
    }

    /// Move up and down by `up` and `down`, left and right by `left` and `right`.
    pub(crate) fn move_rel(&mut self, up: u16, down: u16, left: u16, right: u16)
        requires
            old(self)@.wf(),
            up == 0 || down == 0,
            left == 0 || right == 0,
        ensures
            final(self)@ == old(self)@.moved_by(down - up, right - left),
            final(self)@.wf(),
    {
        let row: usize = self.screen.cursor_row.saturating_sub(up as usize).saturating_add(down as usize);
        let col: usize = self.screen.cursor_col.saturating_sub(left as usize).saturating_add(right as usize);
        self.set_cursor(row, col);
    }

    pub(crate) fn cr(&mut self)
        requires
            old(self)@.wf(),
        ensures
            final(self)@ == old(self)@.carriage_return(),
            final(self)@.wf(),
    {
        self.screen.cursor_col = 0;
        self.wrap_pending = false;
        assert(self@ =~= old(self)@.carriage_return());
    }

    /// Line feed: down one, scrolling the region at its bottom.
    pub(crate) fn lf(&mut self)
        requires
            old(self)@.wf(),
        ensures
            final(self)@ == old(self)@.line_feed(),
            final(self)@.wf(),
    {
        if self.screen.cursor_row == self.scroll_bot {
            self.scroll_up(1);
        } else if self.screen.cursor_row < self.rows - 1 {
            self.screen.cursor_row += 1;
        }
        self.wrap_pending = false;
        assert(self@ =~= old(self)@.line_feed());
    }

    /// Reverse index: up one, scrolling the region down at its top.
    pub(crate) fn ri(&mut self)
        requires
            old(self)@.wf(),
        ensures
            final(self)@ == old(self)@.reverse_index(),
            final(self)@.wf(),
    {
        if self.screen.cursor_row == self.scroll_top {
            self.scroll_down(1);
        } else if self.screen.cursor_row > 0 {
            self.screen.cursor_row -= 1;
        }
        self.wrap_pending = false;
        assert(self@ =~= old(self)@.reverse_index());
    }

    pub(crate) fn tab(&mut self)
        requires
            old(self)@.wf(),
        ensures
            final(self)@ == old(self)@.tabbed(),
            final(self)@.wf(),
    {
        let mut c: usize = self.screen.cursor_col + 1;
        while c < self.cols && !self.tabs[c]
            invariant
                self.cols == self@.cols,
                self.tabs@ == self@.tabs,
                self@ == old(self)@,
                self@.wf(),
                c <= self.cols,
                self@.next_stop(c as int) == old(self)@.next_stop(
                    old(self)@.screen.cursor_col + 1,
                ),
            decreases self.cols - c,
        {
            c += 1;
        }
        self.screen.cursor_col =
        if c < self.cols {
            c
        } else {
            self.cols - 1
        };
        self.wrap_pending = false;
        assert(self@ =~= old(self)@.tabbed());
    }

    pub(crate) fn backspace(&mut self)
        requires
            old(self)@.wf(),
        ensures
            final(self)@ == old(self)@.backspaced(),
            final(self)@.wf(),
    {
        if self.screen.cursor_col > 0 {
            self.screen.cursor_col -= 1;
        }
        self.wrap_pending = false;
        assert(self@ =~= old(self)@.backspaced());
    }

    // ---- scrolling --------------------------------------------------------------

    pub(crate) fn scroll_up(&mut self, n: usize)
        requires
            old(self)@.wf(),
        ensures
            final(self)@ == old(self)@.scrolled_up(n as int),
            final(self)@.wf(),
    {
        let fill = self.blank();
        let lines = slide_rows_up(
            &mut self.screen.rows,
            self.scroll_top,
            self.scroll_bot,
            n,
            fill,
            self.cols,
        );
        assert(rows_of(lines@) =~= old(self)@.evicted(n as int));
        if self.alt.is_none() && self.scroll_top == 0 {
            remember(&mut self.scrollback, lines);
        }
        assert(self@ =~= old(self)@.scrolled_up(n as int));
    }

    pub(crate) fn scroll_down(&mut self, n: usize)
        requires
            old(self)@.wf(),
        ensures
            final(self)@ == old(self)@.scrolled_down(n as int),
            final(self)@.wf(),
    {
        let fill = self.blank();
        slide_rows_down(
            &mut self.screen.rows,
            self.scroll_top,
            self.scroll_bot,
            n,
            fill,
            self.cols,
        );
        assert(self@ =~= old(self)@.scrolled_down(n as int));
    }

    pub(crate) fn insert_lines(&mut self, n: usize)
        requires
            old(self)@.wf(),
        ensures
            final(self)@ == old(self)@.lines_inserted(n as int),
            final(self)@.wf(),
    {
        let r = self.screen.cursor_row;
        if r < self.scroll_top || r > self.scroll_bot {
            return ;
        }
        let fill = self.blank();
        slide_rows_down(&mut self.screen.rows, r, self.scroll_bot, n, fill, self.cols);
        assert(self@ =~= old(self)@.lines_inserted(n as int));
    }

    pub(crate) fn delete_lines(&mut self, n: usize)
        requires
            old(self)@.wf(),
        ensures
            final(self)@ == old(self)@.lines_deleted(n as int),
            final(self)@.wf(),
    {
        let r = self.screen.cursor_row;
        if r < self.scroll_top || r > self.scroll_bot {
            return ;
        }
        let fill = self.blank();
        let _ = slide_rows_up(&mut self.screen.rows, r, self.scroll_bot, n, fill, self.cols);
        assert(self@ =~= old(self)@.lines_deleted(n as int));
    }

    // ---- erasing and editing ------------------------------------------------------

    /// Take out the row the cursor is on, leaving an empty one in its place.
    fn lift_row(&mut self) -> (row: Vec<Cell>)
        requires
            old(self)@.wf(),
        ensures
            row@ == old(self)@.here(),
            final(self)@ == old(self)@.with_row(Seq::empty()),
            final(self).screen.rows@.len() == old(self).screen.rows@.len(),
    {
        let mut row: Vec<Cell> = Vec::new();
        let r = self.screen.cursor_row;
        std::mem::swap(&mut row, &mut self.screen.rows[r]);
        assert(self@ =~= old(self)@.with_row(Seq::empty()));
        row
    }

    /// Put a row down where the cursor is.
    fn lay_row(&mut self, row: Vec<Cell>)
        requires
            old(self)@.screen.cursor_row < old(self)@.screen.rows.len(),
        ensures
            final(self)@ == old(self)@.with_row(row@),
    {
        let r = self.screen.cursor_row;
        self.screen.rows.set(r, row);
        assert(self@ =~= old(self)@.with_row(row@));
    }

    pub(crate) fn erase_in_line(&mut self, mode: u16)
        requires
            old(self)@.wf(),
        ensures
            final(self)@ == old(self)@.line_erased(mode as int),
            final(self)@.wf(),
    {
        let fill = self.blank();
        let c = self.screen.cursor_col;
        if mode > 2 {
            return ;
        }
        let mut row = self.lift_row();
        if mode == 0 {
            fill_cells(&mut row, c, self.cols, fill);
        } else if mode == 1 {
            fill_cells(&mut row, 0, c + 1, fill);
        } else {
            fill_cells(&mut row, 0, self.cols, fill);
            assert(row@ =~= old(self)@.blank_line());
        }
        self.lay_row(row);
        assert(self@ =~= old(self)@.line_erased(mode as int));
    }

    pub(crate) fn erase_in_display(&mut self, mode: u16)
        requires
            old(self)@.wf(),
        ensures
            final(self)@ == old(self)@.display_erased(mode as int),
            final(self)@.wf(),
    {
        let fill = self.blank();
        let r = self.screen.cursor_row;
        if mode == 0 {
            self.erase_in_line(0);
            fill_rows(&mut self.screen.rows, r + 1, self.rows, fill, self.cols);
        } else if mode == 1 {
            self.erase_in_line(1);
            fill_rows(&mut self.screen.rows, 0, r, fill, self.cols);
        } else if mode == 2 || mode == 3 {
            fill_rows(&mut self.screen.rows, 0, self.rows, fill, self.cols);
            if mode == 3 {
                self.scrollback.clear();
                assert(rows_of(self.scrollback@) =~= Seq::empty());
            }
            assert(self@.screen.rows =~= model::uniform(
                old(self)@.blank(),
                old(self)@.cols,
                old(self)@.rows,
            ));
        }
        assert(self@ =~= old(self)@.display_erased(mode as int));
    }

    pub(crate) fn insert_chars(&mut self, n: usize)
        requires
            old(self)@.wf(),
        ensures
            final(self)@ == old(self)@.chars_inserted(n as int),
            final(self)@.wf(),
    {
        let fill = self.blank();
        let c = self.screen.cursor_col;
        let cols = self.cols;
        let mut row = self.lift_row();
        let ghost start = row@;
        let mut k: usize = 0;
        assert(model::slide_down(start, c as int, cols - 1, 0, fill) =~= start);
        while k < n
            invariant
                k <= n,
                c < cols,
                row@.len() == cols,
                start.len() == cols,
                row@ == model::slide_down(start, c as int, cols - 1, k as int, fill),
            decreases n - k,
        {
            proof {
                lemma_slide_down_step(start, c as int, cols - 1, k as int, fill);
            }
            let _ = row.pop();
            row.insert(c, fill);
            assert(row@ =~= model::slide_down(start, c as int, cols - 1, k + 1, fill));
            k += 1;
        }
        self.lay_row(row);
        assert(self@ =~= old(self)@.chars_inserted(n as int));
    }

    pub(crate) fn delete_chars(&mut self, n: usize)
        requires
            old(self)@.wf(),
        ensures
            final(self)@ == old(self)@.chars_deleted(n as int),
            final(self)@.wf(),
    {
        let fill = self.blank();
        let c = self.screen.cursor_col;
        let cols = self.cols;
        let mut row = self.lift_row();
        let ghost start = row@;
        let mut k: usize = 0;
        assert(model::slide_up(start, c as int, cols - 1, 0, fill) =~= start);
        while k < n
            invariant
                k <= n,
                c < cols,
                row@.len() == cols,
                start.len() == cols,
                row@ == model::slide_up(start, c as int, cols - 1, k as int, fill),
            decreases n - k,
        {
            proof {
                lemma_slide_up_step(start, c as int, cols - 1, k as int, fill);
            }
            let _ = row.remove(c);
            row.push(fill);
            assert(row@ =~= model::slide_up(start, c as int, cols - 1, k + 1, fill));
            k += 1;
        }
        self.lay_row(row);
        assert(self@ =~= old(self)@.chars_deleted(n as int));
    }

    pub(crate) fn erase_chars(&mut self, n: usize)
        requires
            old(self)@.wf(),
        ensures
            final(self)@ == old(self)@.chars_erased(n as int),
            final(self)@.wf(),
    {
        let fill = self.blank();
        let c = self.screen.cursor_col;
        let room = self.cols - c;
        let end: usize = if n < room {
            c + n
        } else {
            self.cols
        };
        let mut row = self.lift_row();
        fill_cells(&mut row, c, end, fill);
        assert(row@ =~= model::painted(old(self)@.here(), c as int, c + n, fill));
        self.lay_row(row);
        assert(self@ =~= old(self)@.chars_erased(n as int));
    }

    // ---- screens and saved cursor ---------------------------------------------------

    pub(crate) fn enter_alt_screen(&mut self)
        requires
            old(self)@.wf(),
        ensures
            final(self)@ == old(self)@.alt_entered(),
            final(self)@.wf(),
    {
        if self.alt.is_some() {
            return ;
        }
        let mut screen = Screen {
            rows: cell_rows(Cell::default(), self.cols, self.rows),
            cursor_row: 0,
            cursor_col: 0,
        };
        std::mem::swap(&mut screen, &mut self.screen);
        self.alt = Some(screen);
        assert(self@ =~= old(self)@.alt_entered());
    }

    pub(crate) fn leave_alt_screen(&mut self)
        requires
            old(self)@.wf(),
        ensures
            final(self)@ == old(self)@.alt_left(),
            final(self)@.wf(),
    {
        if let Some(normal) = self.alt.take() {
            self.screen = normal;
        }
        assert(self@ =~= old(self)@.alt_left());
    }

    pub(crate) fn save_cursor(&mut self)
        requires
            old(self)@.wf(),
        ensures
            final(self)@ == old(self)@.cursor_saved(),
            final(self)@.wf(),
    {
        self.saved_cursor = (self.screen.cursor_row, self.screen.cursor_col, self.pen);
        assert(self@ =~= old(self)@.cursor_saved());
    }

    pub(crate) fn restore_cursor(&mut self)
        requires
            old(self)@.wf(),
        ensures
            final(self)@ == old(self)@.cursor_restored(),
            final(self)@.wf(),
    {
        let (r, c, pen) = self.saved_cursor;
        self.pen = pen;
        assert(self@ =~= GridModel { pen: old(self)@.saved.2, ..old(self)@ });
        self.set_cursor(r, c);
    }

    pub(crate) fn set_mode(&mut self, private: bool, mode: u16, on: bool)
        requires
            old(self)@.wf(),
        ensures
            final(self)@ == old(self)@.mode_set(private, mode, on),
            final(self)@.wf(),
    {
        if !private {
            return ;
        }
        if mode == 6 {
            self.origin_mode = on;
            assert(self@ =~= GridModel { origin_mode: on, ..old(self)@ });
            let row = if on {
                self.scroll_top
            } else {
                0
            };
            self.set_cursor(row, 0);
        } else if mode == 7 {
            self.autowrap = on;
            assert(self@ =~= GridModel { autowrap: on, ..old(self)@ });
        } else if mode == 25 {
            self.cursor_visible = on;
            assert(self@ =~= GridModel { cursor_visible: on, ..old(self)@ });
        } else if mode == 1047 {
            if on {
                self.enter_alt_screen();
            } else {
                self.leave_alt_screen();
            }
        } else if mode == 1049 {
            if on {
                self.save_cursor();
                self.enter_alt_screen();
            } else {
                self.leave_alt_screen();
                self.restore_cursor();
            }
        }
    }

    pub(crate) fn reset(&mut self)
        requires
            old(self)@.wf(),
        ensures
            final(self)@ == GridModel::fresh(old(self)@.cols, old(self)@.rows),
            final(self)@.wf(),
    {
        *self = Grid::new(self.cols, self.rows);
    }
}

} // verus!
