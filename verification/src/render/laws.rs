//! What holds of every frame and every repaint.
use super::compose::{
    composed, ink, lemma_column_and_row, status_text, wash, widths_of, STATUS_BG, STATUS_FG,
};
use super::{
    cursor_text, lemma_place, move_text, paint_text, paints_text, sgr_text, stale, FrameModel, Paint,
    Renderer, Walk,
};
use crate::grid::model::{at_least_one, lesser, minus};
use crate::grid::{Cell, Color, WIDE_CONT};
use crate::layout::{laid_out, Layout, MIN_COLS, MIN_ROWS};
use crate::pane::Pane;
use crate::text::{begins_with, decimal, finishes_with, law_numerals_read_back, value_of};
use vstd::prelude::*;

verus! {

impl FrameModel {
    /// No glyph of row `y` from column `x` on is stale.
    pub open spec fn row_shown(self, spans: Seq<usize>, shown: Seq<Cell>, y: int, x: int) -> bool
        decreases minus(self.cols, x),
    {
        let i = self.place(x, y);
        if x >= self.cols {
            true
        } else if self.cells[i].ch == WIDE_CONT {
            self.row_shown(spans, shown, y, x + 1)
        } else {
            let span = at_least_one(spans[i] as int);
            !stale(shown, self.cells, i, span) && self.row_shown(spans, shown, y, x + span)
        }
    }

    /// The screen shows every glyph of the frame.
    pub open spec fn is_shown(self, spans: Seq<usize>, shown: Seq<Cell>) -> bool {
        &&& shown.len() == self.cells.len()
        &&& forall|y: int| 0 <= y < self.rows ==> #[trigger] self.row_shown(spans, shown, y, 0)
    }
}

/// Painting only ever turns a cell into that of the frame.
spec fn no_farther(f: FrameModel, a: Seq<Cell>, b: Seq<Cell>) -> bool {
    &&& a.len() == f.cells.len()
    &&& b.len() == f.cells.len()
    &&& forall|i: int| 0 <= i < f.cells.len() && a[i] == f.cells[i] ==> #[trigger] b[i] == f.cells[i]
}

proof fn lemma_row_stays_shown(f: FrameModel, spans: Seq<usize>, a: Seq<Cell>, b: Seq<Cell>, y: int, x: int)
    requires
        f.covered(),
        no_farther(f, a, b),
        0 <= y < f.rows,
        0 <= x,
        f.row_shown(spans, a, y, x),
    ensures
        f.row_shown(spans, b, y, x),
    decreases minus(f.cols, x),
{
    let i = f.place(x, y);
    if x < f.cols {
        lemma_place(f, x, y);
        if f.cells[i].ch == WIDE_CONT {
            lemma_row_stays_shown(f, spans, a, b, y, x + 1);
        } else {
            lemma_row_stays_shown(f, spans, a, b, y, x + at_least_one(spans[i] as int));
        }
    }
}

proof fn lemma_walk_row(f: FrameModel, spans: Seq<usize>, w: Walk, y: int, x: int)
    requires
        f.covered(),
        w.shown.len() == f.cells.len(),
        0 <= y < f.rows,
        0 <= x,
    ensures
        no_farther(f, w.shown, f.walk_row(spans, w, y, x).shown),
        f.row_shown(spans, f.walk_row(spans, w, y, x).shown, y, x),
    decreases minus(f.cols, x),
{
    let i = f.place(x, y);
    if x < f.cols {
        lemma_place(f, x, y);
        if f.cells[i].ch == WIDE_CONT {
            lemma_walk_row(f, spans, w, y, x + 1);
        } else {
            let v = f.visit(spans, w, y, x);
            lemma_walk_row(f, spans, v, y, x + at_least_one(spans[i] as int));
            let end = f.walk_row(spans, w, y, x).shown;
            assert(no_farther(f, w.shown, v.shown));
            assert(!stale(v.shown, f.cells, i, at_least_one(spans[i] as int)));
            assert(!stale(end, f.cells, i, at_least_one(spans[i] as int)));
        }
    }
}

proof fn lemma_walk_rows(f: FrameModel, spans: Seq<usize>, w: Walk, y: int)
    requires
        f.covered(),
        w.shown.len() == f.cells.len(),
        0 <= y,
        forall|r: int| 0 <= r < y && r < f.rows ==> #[trigger] f.row_shown(spans, w.shown, r, 0),
    ensures
        f.is_shown(spans, f.walk_rows(spans, w, y).shown),
    decreases f.rows - y,
{
    if y < f.rows {
        lemma_walk_row(f, spans, w, y, 0);
        let v = f.walk_row(spans, w, y, 0);
        assert forall|r: int| 0 <= r < y + 1 && r < f.rows implies #[trigger] f.row_shown(
            spans,
            v.shown,
            r,
            0,
        ) by {
            if r < y {
                lemma_row_stays_shown(f, spans, w.shown, v.shown, r, 0);
            }
        }
        lemma_walk_rows(f, spans, v, y + 1);
    }
}

/// Drawing a frame leaves all of it on the screen, whatever was there before.
pub proof fn law_drawing_shows_the_frame(f: FrameModel, spans: Seq<usize>, shown: Seq<Cell>)
    requires
        f.covered(),
        shown.len() == f.cells.len(),
    ensures
        f.is_shown(spans, f.walk(spans, shown).shown),
{
    lemma_walk_rows(f, spans, Walk { shown, paints: Seq::empty() }, 0);
}

proof fn lemma_row_at_rest(f: FrameModel, spans: Seq<usize>, w: Walk, y: int, x: int)
    requires
        f.covered(),
        f.row_shown(spans, w.shown, y, x),
    ensures
        f.walk_row(spans, w, y, x) == w,
    decreases minus(f.cols, x),
{
    let i = f.place(x, y);
    if x < f.cols {
        if f.cells[i].ch == WIDE_CONT {
            lemma_row_at_rest(f, spans, w, y, x + 1);
        } else {
            lemma_row_at_rest(f, spans, w, y, x + at_least_one(spans[i] as int));
        }
    }
}

proof fn lemma_rows_at_rest(f: FrameModel, spans: Seq<usize>, w: Walk, y: int)
    requires
        f.covered(),
        f.is_shown(spans, w.shown),
        0 <= y,
    ensures
        f.walk_rows(spans, w, y) == w,
    decreases f.rows - y,
{
    if y < f.rows {
        assert(f.row_shown(spans, w.shown, y, 0));
        lemma_row_at_rest(f, spans, w, y, 0);
        lemma_rows_at_rest(f, spans, w, y + 1);
    }
}

/// A frame that is on the screen already costs nothing: no cell is written
/// again.
pub proof fn law_nothing_is_painted_twice(f: FrameModel, spans: Seq<usize>, shown: Seq<Cell>)
    requires
        f.covered(),
        f.is_shown(spans, shown),
    ensures
        f.walk(spans, shown).paints.len() == 0,
        f.walk(spans, shown).shown == shown,
{
    lemma_rows_at_rest(f, spans, Walk { shown, paints: Seq::empty() }, 0);
}

/// Drawing the same frame again writes no cell: only the cursor is hidden and
/// put back.
pub proof fn law_a_second_draw_is_quiet(
    before: Renderer,
    after: Renderer,
    f: FrameModel,
    spans: Seq<usize>,
)
    requires
        f.covered(),
        after.prev@ == f.walk(spans, before.baseline(f)).shown,
        after.cols == f.cols,
        after.rows == f.rows,
    ensures
        after.draw_text(f, spans) == "\x1b[?25l"@ + cursor_text(f.cursor),
{
    law_drawing_shows_the_frame(f, spans, before.baseline(f));
    law_nothing_is_painted_twice(f, spans, after.prev@);
    let paints = f.walk(spans, after.prev@).paints;
    assert(paints_text(paints, f.cols, 0) =~= Seq::empty());
    assert(after.draw_text(f, spans) =~= "\x1b[?25l"@ + cursor_text(f.cursor));
}

impl FrameModel {
    /// The cell at column `x`, row `y` is a glyph of one column, the first half of
    /// one of two columns, or the second half of the one before it.
    pub open spec fn pairs_up(self, spans: Seq<usize>, x: int, y: int) -> bool {
        if self.at(x, y).ch == WIDE_CONT {
            x > 0 && self.at(x - 1, y).ch != WIDE_CONT && spans[self.place(x - 1, y)] == 2
        } else {
            let span = spans[self.place(x, y)];
            span == 1 || (span == 2 && x + 1 < self.cols && self.at(x + 1, y).ch == WIDE_CONT)
        }
    }
}

proof fn lemma_shown_whole(f: FrameModel, spans: Seq<usize>, shown: Seq<Cell>, y: int, x: int, c: int)
    requires
        f.covered(),
        0 <= y < f.rows,
        0 <= x <= c < f.cols,
        f.at(x, y).ch != WIDE_CONT,
        f.row_shown(spans, shown, y, x),
        forall|k: int| 0 <= k < f.cols ==> #[trigger] f.pairs_up(spans, k, y),
    ensures
        shown[f.place(c, y)] == f.at(c, y),
    decreases c - x,
{
    lemma_place(f, x, y);
    assert(f.pairs_up(spans, x, y));
    let span = spans[f.place(x, y)];
    if span == 2 {
        lemma_place(f, x + 1, y);
        assert(f.place(x + 1, y) == f.place(x, y) + 1);
    }
    if x + span <= c {
        assert(f.pairs_up(spans, x + span, y));
        lemma_shown_whole(f, spans, shown, y, x + span, c);
    }
}

/// On a row of whole glyphs the screen then agrees with the frame cell by cell.
pub proof fn law_whole_rows_agree(f: FrameModel, spans: Seq<usize>, shown: Seq<Cell>, y: int, c: int)
    requires
        f.covered(),
        shown.len() == f.cells.len(),
        0 <= y < f.rows,
        0 <= c < f.cols,
        forall|k: int| 0 <= k < f.cols ==> #[trigger] f.pairs_up(spans, k, y),
    ensures
        f.walk(spans, shown).shown[f.place(c, y)] == f.at(c, y),
{
    law_drawing_shows_the_frame(f, spans, shown);
    assert(f.row_shown(spans, f.walk(spans, shown).shown, y, 0));
    assert(f.pairs_up(spans, 0, y));
    lemma_shown_whole(f, spans, f.walk(spans, shown).shown, y, 0, c);
}

/// After [`Renderer::invalidate`] any frame with cells in it is painted from a
/// cleared screen.
pub proof fn law_invalidated_means_cleared(r: Renderer, f: FrameModel)
    requires
        r.prev@.len() == 0,
        f.cells.len() > 0,
    ensures
        r.must_clear(f),
{
}

// ---- the frame ------------------------------------------------------------------

/// `b` differs from `a` in row `y` alone.
spec fn only_row(a: FrameModel, b: FrameModel, y: int) -> bool {
    &&& b.wf()
    &&& b.cols == a.cols
    &&& b.rows == a.rows
    &&& b.cursor == a.cursor
    &&& b.cells.len() == a.cells.len()
    &&& forall|i: int| 0 <= i < a.cells.len() && i / a.cols != y ==> #[trigger] b.cells[i] == a.cells[i]
}

proof fn lemma_put_row(f: FrameModel, x: int, y: int, cell: Cell)
    requires
        f.wf(),
        x >= 0,
        y >= 0,
    ensures
        only_row(f, f.put(x, y, cell), y),
{
    if x < f.cols && y < f.rows {
        lemma_place(f, x, y);
        assert forall|i: int| 0 <= i < f.cells.len() && i / f.cols != y implies #[trigger] f.put(
            x,
            y,
            cell,
        ).cells[i] == f.cells[i] by {
            lemma_column_and_row(f.cols, i, x, y);
        }
    }
}

proof fn lemma_text_row(f: FrameModel, x: int, y: int, limit: int, s: Seq<char>, style: Cell)
    requires
        f.wf(),
        x >= 0,
        y >= 0,
    ensures
        only_row(f, f.text_from(x, y, limit, s, widths_of(s), 0, style).0, y),
        f.text_from(x, y, limit, s, widths_of(s), 0, style).1 >= x,
{
    lemma_text_rest(f, x, y, limit, s, widths_of(s), 0, style);
}

proof fn lemma_text_rest(
    f: FrameModel,
    x: int,
    y: int,
    limit: int,
    s: Seq<char>,
    widths: Seq<usize>,
    k: int,
    style: Cell,
)
    requires
        f.wf(),
        x >= 0,
        y >= 0,
        k >= 0,
    ensures
        only_row(f, f.text_from(x, y, limit, s, widths, k, style).0, y),
        f.text_from(x, y, limit, s, widths, k, style).1 >= x,
    decreases s.len() - k,
{
    if k < s.len() {
        let w = widths[k] as int;
        if w == 0 {
            lemma_text_rest(f, x, y, limit, s, widths, k + 1, style);
        } else if x + w <= limit {
            let first = f.put(x, y, Cell { ch: s[k], ..style });
            lemma_put_row(f, x, y, Cell { ch: s[k], ..style });
            lemma_put_row(first, x + 1, y, Cell { ch: WIDE_CONT, ..style });
            let g = f.glyph(x, y, s[k], w, style);
            assert(only_row(f, g, y));
            lemma_text_rest(g, x + w, y, limit, s, widths, k + 1, style);
        }
    }
}

proof fn lemma_hints_row(f: FrameModel, l: Layout, x: int, k: int)
    requires
        f.wf(),
        x >= 0,
        k >= 0,
    ensures
        only_row(f, f.hints(l, x, k), l.status.y as int),
    decreases 4 - k,
{
    let s = l.status;
    if !(k >= 4 || x + super::compose::HINT_ROOM > s.x + s.w) {
        let y = s.y as int;
        let key_ink = ink(
            Color::Indexed(super::compose::STATUS_KEY_FG),
            Color::Indexed(STATUS_BG),
            0,
        );
        let what_ink = ink(Color::Indexed(STATUS_FG), Color::Indexed(STATUS_BG), 0);
        let key = f.text(x, y, minus(s.w as int, x), super::compose::hint_key(k), key_ink);
        lemma_text_row(
            f,
            x,
            y,
            lesser(x + minus(s.w as int, x), f.cols),
            super::compose::hint_key(k),
            key_ink,
        );
        let what = key.0.text(
            key.1,
            y,
            minus(s.w as int, key.1),
            super::compose::hint_what(k),
            what_ink,
        );
        lemma_text_row(
            key.0,
            key.1,
            y,
            lesser(key.1 + minus(s.w as int, key.1), key.0.cols),
            super::compose::hint_what(k),
            what_ink,
        );
        lemma_hints_row(what.0, l, what.1, k + 1);
    }
}

proof fn lemma_status_row(f: FrameModel, panes: Seq<Pane>, active: int, l: Layout, pending: bool)
    requires
        f.wf(),
    ensures
        only_row(f, f.with_status(panes, active, l, pending), l.status.y as int),
{
    let s = l.status;
    let y = s.y as int;
    let bar = f.boxed(s.x as int, y, s.w as int, 1, wash(Color::Indexed(STATUS_BG)));
    assert(only_row(f, bar, y));
    let bold = ink(Color::Indexed(STATUS_FG), Color::Indexed(STATUS_BG), crate::grid::A_BOLD);
    lemma_text_row(
        bar,
        s.x as int,
        y,
        lesser(s.x + s.w, bar.cols),
        status_text(panes, active),
        bold,
    );
    let left = bar.text(s.x as int, y, s.w as int, status_text(panes, active), bold);
    if pending {
        lemma_text_row(
            left.0,
            left.1,
            y,
            lesser(left.1 + minus(s.w as int, left.1), left.0.cols),
            "[C-b]"@,
            ink(
                Color::Indexed(super::compose::PENDING_FG),
                Color::Indexed(super::compose::PENDING_BG),
                crate::grid::A_BOLD,
            ),
        );
    } else {
        lemma_hints_row(left.0, l, left.1, 0);
    }
}

/// What the frame holds where the terminal goes is the screen of the active
/// pane, cell by cell: the chrome covers none of it.
pub proof fn law_the_active_pane_is_shown(
    panes: Seq<Pane>,
    active: int,
    cols: u16,
    rows: u16,
    sidebar_w: u16,
    pending: bool,
    gx: int,
    gy: int,
)
    requires
        0 <= active < panes.len(),
        cols >= MIN_COLS,
        rows >= MIN_ROWS,
        panes[active].wf(),
        ({
            let c = laid_out(cols as int, rows as int, sidebar_w as int).content;
            let g = panes[active].grid@;
            &&& 0 <= gx < c.w && gx < g.cols <= u16::MAX
            &&& 0 <= gy < c.h && gy < g.rows <= u16::MAX
        }),
    ensures
        ({
            let l = laid_out(cols as int, rows as int, sidebar_w as int);
            composed(panes, active, l, cols as int, rows as int, pending).at(
                l.content.x + gx,
                l.content.y + gy,
            ) == panes[active].grid@.screen.rows[gy][gx]
        }),
{
    let l = laid_out(cols as int, rows as int, sidebar_w as int);
    let c = l.content;
    let blank = FrameModel::blank(cols as int, rows as int);
    assert(cols * rows >= 0) by (nonlinear_arith)
        requires
            cols >= 0,
            rows >= 0,
    ;
    assert(blank.wf());
    lemma_rail_wf(blank, panes, active, l);
    let ruled = blank.with_rail(panes, active, l).with_divider(l);
    let body = ruled.with_content(panes, active, l);
    lemma_status_row(body, panes, active, l, pending);
    let x = c.x + gx;
    let y = c.y + gy;
    lemma_place(body, x, y);
    lemma_column_and_row(body.cols, body.place(x, y), x, y);
}

proof fn lemma_rail_wf(f: FrameModel, panes: Seq<Pane>, active: int, l: Layout)
    requires
        f.wf(),
        l.sound(),
    ensures
        f.with_rail(panes, active, l).wf(),
        f.with_rail(panes, active, l).cols == f.cols,
        f.with_rail(panes, active, l).rows == f.rows,
        f.with_rail(panes, active, l).cursor == f.cursor,
{
    let r = l.sidebar;
    let visible = lesser(panes.len() as int, l.room());
    let bg = Color::Indexed(super::compose::RAIL_BG);
    let washed = f.boxed(r.x as int, r.y as int, r.w as int, r.h as int, wash(bg));
    let head = ink(Color::Indexed(super::compose::RAIL_HEAD_FG), bg, crate::grid::A_BOLD);
    lemma_text_row(washed, r.x + 1, r.y as int, lesser(r.x + 1 + (r.w - 1), f.cols), "TERMINALS"@, head);
    let headed = washed.text(r.x + 1, r.y as int, r.w - 1, "TERMINALS"@, head).0;
    lemma_buttons_wf(headed, panes, active, l, visible);
    let listed = headed.buttons(panes, active, l, visible);
    let dead = ink(Color::Indexed(super::compose::DEAD_FG), bg, 0);
    let y = l.row_of_button(minus(visible, 1));
    lemma_text_row(listed, r.x as int, y, lesser(r.x + r.w, f.cols), " …more"@, dead);
    let noted = if panes.len() > visible {
        listed.text(r.x as int, y, r.w as int, " …more"@, dead).0
    } else {
        listed
    };
    let last = noted.boxed(r.x as int, l.row_of_new(), r.w as int, 1, wash(bg));
    lemma_text_row(
        last,
        r.x as int,
        l.row_of_new(),
        lesser(r.x + r.w, f.cols),
        "  + new"@,
        ink(Color::Indexed(super::compose::NEW_FG), bg, 0),
    );
}

proof fn lemma_buttons_wf(f: FrameModel, panes: Seq<Pane>, active: int, l: Layout, n: int)
    requires
        f.wf(),
    ensures
        f.buttons(panes, active, l, n).wf(),
        f.buttons(panes, active, l, n).cols == f.cols,
        f.buttons(panes, active, l, n).rows == f.rows,
        f.buttons(panes, active, l, n).cursor == f.cursor,
    decreases n,
{
    if n > 0 {
        lemma_buttons_wf(f, panes, active, l, n - 1);
        let g = f.buttons(panes, active, l, n - 1);
        let r = l.sidebar;
        let look = super::compose::button_ink(n - 1 == active, panes[n - 1].alive);
        let y = l.row_of_button(n - 1);
        let bar = g.boxed(r.x as int, y, r.w as int, 1, wash(look.bg));
        lemma_text_row(
            bar,
            r.x as int,
            y,
            lesser(r.x + r.w, g.cols),
            super::compose::button_text(panes[n - 1], n - 1, n - 1 == active),
            look,
        );
    }
}

// ---- what is written ------------------------------------------------------------

/// A move names the row and then the column, both counted from one: `ESC [`, a
/// numeral, a semicolon, a numeral, `H`.
pub proof fn law_moves_name_their_place(row: nat, col: nat)
    ensures
        ({
            let t = move_text(row as int, col as int);
            exists|k: int|
                {
                    &&& 2 < k < t.len() - 2
                    &&& t[0] == '\x1b' && t[1] == '[' && #[trigger] t[k] == ';' && t.last() == 'H'
                    &&& value_of(t.subrange(2, k)) == row + 1
                    &&& value_of(t.subrange(k + 1, t.len() - 1)) == col + 1
                    &&& forall|j: int|
                        2 <= j < t.len() - 1 && j != k ==> '0' <= #[trigger] t[j] <= '9'
                }
        }),
{
    reveal_strlit("\x1b[");
    reveal_strlit(";");
    reveal_strlit("H");
    let r = decimal((row + 1) as nat);
    let c = decimal((col + 1) as nat);
    law_numerals_read_back((row + 1) as nat);
    law_numerals_read_back((col + 1) as nat);
    let t = move_text(row as int, col as int);
    let k = 2 + r.len() as int;
    assert(t.subrange(2, k) =~= r);
    assert(t.subrange(k + 1, t.len() - 1) =~= c);
    assert forall|j: int| 2 <= j < t.len() - 1 && j != k implies '0' <= #[trigger] t[j] <= '9' by {
        if j < k {
            assert(t[j] == r[j - 2]);
        } else {
            assert(t[j] == c[j - k - 1]);
        }
    }
    assert(t[k] == ';');
}

/// A frame ends with its cursor: put in its place and shown, or hidden where the
/// frame has none. It begins with a cleared screen where the size is another one,
/// and the cursor is hidden before anything is painted.
pub proof fn law_frames_begin_and_end(r: Renderer, f: FrameModel, spans: Seq<usize>, y: u16, x: u16)
    ensures
        f.cursor == Some((y, x)) ==> finishes_with(
            r.draw_text(f, spans),
            move_text(y as int, x as int) + "\x1b[?25h"@,
        ),
        f.cursor is None ==> finishes_with(r.draw_text(f, spans), "\x1b[?25l"@),
        r.cols != f.cols || r.rows != f.rows || r.prev@.len() != f.cells.len() ==> begins_with(
            r.draw_text(f, spans),
            "\x1b[0m\x1b[2J\x1b[?25l"@,
        ),
        r.cols == f.cols && r.rows == f.rows && r.prev@.len() == f.cells.len() ==> begins_with(
            r.draw_text(f, spans),
            "\x1b[?25l"@,
        ),
{
    reveal_strlit("\x1b[0m\x1b[2J\x1b[?25l");
    reveal_strlit("\x1b[0m\x1b[2J");
    reveal_strlit("\x1b[?25l");
    let t = r.draw_text(f, spans);
    let end = cursor_text(f.cursor);
    assert(t.skip(t.len() - end.len()) =~= end);
    if r.must_clear(f) {
        assert("\x1b[0m\x1b[2J\x1b[?25l"@ =~= "\x1b[0m\x1b[2J"@ + "\x1b[?25l"@);
        let head = "\x1b[0m\x1b[2J\x1b[?25l"@;
        assert(t.take(head.len() as int) =~= head);
    } else {
        let head = "\x1b[?25l"@;
        assert(t.take(head.len() as int) =~= head);
    }
}

/// Each glyph that is painted is written out, behind a move where the cursor is
/// not there already and a style where another one is set. The first needs both.
pub proof fn law_glyphs_are_written_out(paints: Seq<Paint>, cols: int, k: int)
    requires
        0 <= k < paints.len(),
    ensures
        ({
            let p = paints[k];
            let q = paints[k - 1];
            let t = paint_text(paints, cols, k);
            let there = k > 0 && q.row == p.row && q.col + q.span == p.col && p.col < cols;
            let styled = k > 0 && q.cell.fg == p.cell.fg && q.cell.bg == p.cell.bg && q.cell.attrs
                == p.cell.attrs;
            &&& t.last() == p.cell.ch
            &&& there && styled ==> t == seq![p.cell.ch]
            &&& there && !styled ==> t == sgr_text(p.cell) + seq![p.cell.ch]
            &&& !there && styled ==> t == move_text(p.row, p.col) + seq![p.cell.ch]
            &&& !there && !styled ==> t == move_text(p.row, p.col) + sgr_text(p.cell) + seq![
                p.cell.ch,
            ]
        }),
{
    let p = paints[k];
    let t = paint_text(paints, cols, k);
    assert(t =~= t.drop_last() + seq![p.cell.ch]);
    assert(t.drop_last() + seq![p.cell.ch] =~= t);
    assert(Seq::<char>::empty() + sgr_text(p.cell) =~= sgr_text(p.cell));
    assert(move_text(p.row, p.col) + Seq::<char>::empty() =~= move_text(p.row, p.col));
    assert((Seq::<char>::empty() + Seq::<char>::empty()).push(p.cell.ch) =~= seq![p.cell.ch]);
}

proof fn lemma_row_paints(f: FrameModel, spans: Seq<usize>, w: Walk, y: int, x: int, k: int)
    requires
        0 <= k,
    ensures
        ({
            let v = f.walk_row(spans, w, y, x);
            &&& w.paints.len() <= v.paints.len()
            &&& forall|j: int| 0 <= j < w.paints.len() ==> (#[trigger] v.paints[j]) == w.paints[j]
            &&& w.paints.len() <= k < v.paints.len() ==> {
                let p = v.paints[k];
                p.row == y && x <= p.col < f.cols && p.cell == f.cells[f.place(p.col, y)]
            }
        }),
    decreases minus(f.cols, x),
{
    let i = f.place(x, y);
    if x < f.cols {
        if f.cells[i].ch == WIDE_CONT {
            lemma_row_paints(f, spans, w, y, x + 1, k);
        } else {
            let next = f.visit(spans, w, y, x);
            lemma_row_paints(f, spans, next, y, x + at_least_one(spans[i] as int), k);
        }
    }
}

proof fn lemma_rows_paints(f: FrameModel, spans: Seq<usize>, w: Walk, y: int, k: int)
    requires
        0 <= y,
        0 <= k,
    ensures
        ({
            let v = f.walk_rows(spans, w, y);
            &&& w.paints.len() <= v.paints.len()
            &&& forall|j: int| 0 <= j < w.paints.len() ==> (#[trigger] v.paints[j]) == w.paints[j]
            &&& w.paints.len() <= k < v.paints.len() ==> {
                let p = v.paints[k];
                y <= p.row < f.rows && 0 <= p.col < f.cols && p.cell == f.at(p.col, p.row)
            }
        }),
    decreases f.rows - y,
{
    if y < f.rows {
        lemma_row_paints(f, spans, w, y, 0, k);
        lemma_rows_paints(f, spans, f.walk_row(spans, w, y, 0), y + 1, k);
    }
}

/// Every glyph is painted where it stands in the frame, as it stands there.
pub proof fn law_glyphs_are_painted_in_place(
    f: FrameModel,
    spans: Seq<usize>,
    shown: Seq<Cell>,
    k: int,
)
    requires
        0 <= k < f.walk(spans, shown).paints.len(),
    ensures
        ({
            let p = f.walk(spans, shown).paints[k];
            0 <= p.row < f.rows && 0 <= p.col < f.cols && p.cell == f.at(p.col, p.row)
        }),
{
    lemma_rows_paints(f, spans, Walk { shown, paints: Seq::empty() }, 0, k);
}

/// A screen of another size counts as showing nothing, so that every cell of a
/// frame is painted; one of the same size counts as showing what was drawn last.
pub proof fn law_another_size_shows_nothing(r: Renderer, f: FrameModel, i: int)
    requires
        0 <= i < f.cells.len(),
        f.cells[i].ch != '\u{1}',
    ensures
        r.baseline(f).len() == f.cells.len(),
        r.cols != f.cols || r.rows != f.rows || r.prev@.len() != f.cells.len() ==> r.baseline(f)[i]
            != f.cells[i],
        r.cols == f.cols && r.rows == f.rows && r.prev@.len() == f.cells.len() ==> r.baseline(f)[i]
            == r.prev@[i],
{
}

} // verus!
