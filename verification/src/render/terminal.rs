//! What a repaint does to the terminal it is written to.
//!
//! A repaint is moves, styles and glyphs. The terminal that reads them is the
//! emulator's model, with wrapping off, as the console is while it is drawn on.
use super::compose::lemma_column_and_row;
use super::laws::law_whole_rows_agree;
use super::round_trip::{as_params, law_styles_survive_the_round_trip, style_numbers};
use super::{lemma_place, rests_at, spans_of, FrameModel, Paint, Walk};
use crate::grid::model::{arg, minus, GridModel, VtAction};
use crate::grid::{Cell, WIDE_CONT};
use crate::width::print_width;
use vstd::prelude::*;

verus! {

/// `ESC [ row ; col H`, as a parser reports it.
pub open spec fn move_action(row: int, col: int) -> VtAction {
    VtAction::Csi {
        params: seq![seq![(row + 1) as u16], seq![(col + 1) as u16]],
        intermediates: Seq::empty(),
        action: 'H',
    }
}

/// The sequence that sets a style, as a parser reports it.
pub open spec fn style_action(cell: Cell) -> VtAction {
    VtAction::Csi {
        params: as_params(style_numbers(cell)),
        intermediates: Seq::empty(),
        action: 'm',
    }
}

/// The terminal after the `k`-th paint: moved and styled where
/// [`super::paint_text`] writes a move and a style, and then the glyph.
pub open spec fn after_paint(g: GridModel, paints: Seq<Paint>, cols: int, k: int) -> GridModel {
    let p = paints[k];
    let moved = if k > 0 && rests_at(paints[k - 1], cols) == Some((p.row, p.col)) {
        g
    } else {
        g.apply(move_action(p.row, p.col))
    };
    let styled = if k > 0 && paints[k - 1].cell.styled_like(p.cell) {
        moved
    } else {
        moved.apply(style_action(p.cell))
    };
    styled.apply(VtAction::Print(p.cell.ch))
}

/// The terminal after the first `n` paints.
pub open spec fn after_paints(g: GridModel, paints: Seq<Paint>, cols: int, n: int) -> GridModel
    decreases n,
{
    if n <= 0 {
        g
    } else {
        after_paint(after_paints(g, paints, cols, n - 1), paints, cols, n - 1)
    }
}

/// The second half of a glyph of two columns.
pub open spec fn second_half(cell: Cell) -> Cell {
    Cell { ch: WIDE_CONT, ..cell }
}

/// The cells after the first `n` paints.
pub open spec fn cells_after(f: FrameModel, shown: Seq<Cell>, paints: Seq<Paint>, n: int) -> Seq<Cell>
    decreases n,
{
    if n <= 0 {
        shown
    } else {
        let p = paints[n - 1];
        let first = cells_after(f, shown, paints, n - 1).update(f.place(p.col, p.row), p.cell);
        if p.span == 2 {
            first.update(f.place(p.col + 1, p.row), second_half(p.cell))
        } else {
            first
        }
    }
}

impl FrameModel {
    /// The cell at column `x`, row `y` is a glyph of one column, the first half of
    /// one of two columns, whose second half follows in the same style, or such a
    /// second half. Its style is one that a terminal knows.
    pub open spec fn whole_at(self, x: int, y: int) -> bool {
        let cell = self.at(x, y);
        &&& cell.attrs & 0x3f == cell.attrs
        &&& if cell.ch == WIDE_CONT {
            x > 0 && self.at(x - 1, y).ch != WIDE_CONT && print_width(self.at(x - 1, y).ch) == 2
        } else {
            let w = print_width(cell.ch);
            w == 1 || (w == 2 && x + 1 < self.cols && self.at(x + 1, y) == second_half(cell))
        }
    }

    /// Every glyph of the frame is whole.
    pub open spec fn is_whole(self) -> bool {
        forall|x: int, y: int|
            0 <= x < self.cols && 0 <= y < self.rows ==> #[trigger] self.whole_at(x, y)
    }

    /// A terminal of the frame's size shows these cells.
    pub open spec fn on_screen(self, g: GridModel, cells: Seq<Cell>) -> bool {
        &&& g.wf()
        &&& g.cols == self.cols
        &&& g.rows == self.rows
        &&& forall|x: int, y: int|
            0 <= x < self.cols && 0 <= y < self.rows ==> #[trigger] g.screen.rows[y][x]
                == cells[self.place(x, y)]
    }
}

/// The paints are of whole glyphs of the frame, each in its place.
pub open spec fn of_frame(f: FrameModel, paints: Seq<Paint>) -> bool {
    forall|k: int| 0 <= k < paints.len() ==> is_of_frame(f, #[trigger] paints[k])
}

pub open spec fn is_of_frame(f: FrameModel, p: Paint) -> bool {
    &&& 0 <= p.row < f.rows
    &&& 0 <= p.col
    &&& 1 <= p.span <= 2
    &&& p.col + p.span <= f.cols
    &&& p.cell == f.at(p.col, p.row)
    &&& p.cell.attrs & 0x3f == p.cell.attrs
    &&& p.span == print_width(p.cell.ch)
    &&& p.span == 2 ==> f.at(p.col + 1, p.row) == second_half(p.cell)
}

proof fn lemma_move(g: GridModel, row: int, col: int)
    requires
        g.wf(),
        !g.origin_mode,
        0 <= row < g.rows <= u16::MAX,
        0 <= col < g.cols <= u16::MAX,
    ensures
        g.apply(move_action(row, col)) == g.with_cursor(row, col).unwrapped(),
{
    let params = seq![seq![(row + 1) as u16], seq![(col + 1) as u16]];
    assert(params[0][0] == (row + 1) as u16);
    assert(params[1][0] == (col + 1) as u16);
    assert(arg(params, 0, 1) == row + 1);
    assert(arg(params, 1, 1) == col + 1);
}

proof fn lemma_style(g: GridModel, cell: Cell)
    requires
        cell.attrs & 0x3f == cell.attrs,
    ensures
        g.apply(style_action(cell)) == (GridModel { pen: Cell { ch: ' ', ..cell }, ..g }),
{
    law_styles_survive_the_round_trip(g.pen, cell);
}

proof fn lemma_glyph(g: GridModel, cell: Cell, w: int)
    requires
        g.wf(),
        !g.autowrap,
        !g.wrap_pending,
        w == print_width(cell.ch),
        1 <= w <= 2,
        g.screen.cursor_col + w <= g.cols,
        g.pen.styled_like(cell),
    ensures
        ({
            let h = g.apply(VtAction::Print(cell.ch));
            let row = g.screen.cursor_row;
            let col = g.screen.cursor_col;
            let first = g.here().update(col, cell);
            let line = if w == 2 {
                first.update(col + 1, second_half(cell))
            } else {
                first
            };
            &&& h.screen.rows == g.screen.rows.update(row, line)
            &&& h.screen.cursor_row == row
            &&& h.screen.cursor_col == (if col + w >= g.cols {
                g.cols - 1
            } else {
                col + w
            })
            &&& h == g.with_rows(h.screen.rows).with_cursor(row, h.screen.cursor_col)
        }),
{
    let h = g.apply(VtAction::Print(cell.ch));
    assert(g.inked(cell.ch) == cell);
    assert(g.inked(WIDE_CONT) == second_half(cell));
    assert(h =~= g.with_rows(h.screen.rows).with_cursor(
        g.screen.cursor_row,
        h.screen.cursor_col,
    ));
}

/// Where a terminal stands after some paints.
spec fn in_step(f: FrameModel, shown: Seq<Cell>, g: GridModel, paints: Seq<Paint>, n: int) -> bool {
    &&& f.on_screen(g, cells_after(f, shown, paints, n))
    &&& !g.autowrap
    &&& !g.origin_mode
    &&& n > 0 ==> {
        let last = paints[n - 1];
        &&& !g.wrap_pending
        &&& g.pen.styled_like(last.cell)
        &&& rests_at(last, f.cols) matches Some((r, c)) ==> g.screen.cursor_row == r
            && g.screen.cursor_col == c
    }
}

proof fn lemma_paint_in_step(f: FrameModel, shown: Seq<Cell>, g: GridModel, paints: Seq<Paint>, n: int)
    requires
        f.wf(),
        f.cols <= u16::MAX,
        f.rows <= u16::MAX,
        shown.len() == f.cells.len(),
        of_frame(f, paints),
        0 <= n < paints.len(),
        in_step(f, shown, g, paints, n),
    ensures
        in_step(f, shown, after_paint(g, paints, f.cols, n), paints, n + 1),
{
    let p = paints[n];
    assert(is_of_frame(f, p));
    lemma_place(f, p.col, p.row);
    let stands = n > 0 && rests_at(paints[n - 1], f.cols) == Some((p.row, p.col));
    if !stands {
        lemma_move(g, p.row, p.col);
    }
    let moved = if stands {
        g
    } else {
        g.apply(move_action(p.row, p.col))
    };
    assert(moved.wf() && moved.screen.rows == g.screen.rows && !moved.wrap_pending);
    assert(moved.screen.cursor_row == p.row && moved.screen.cursor_col == p.col);
    let same = n > 0 && paints[n - 1].cell.styled_like(p.cell);
    lemma_style(moved, p.cell);
    let styled = if same {
        moved
    } else {
        moved.apply(style_action(p.cell))
    };
    assert(styled.pen.styled_like(p.cell));
    assert(styled.wf());
    lemma_glyph(styled, p.cell, p.span);
    let h = after_paint(g, paints, f.cols, n);
    assert(h == styled.apply(VtAction::Print(p.cell.ch)));
    let before = cells_after(f, shown, paints, n);
    let after = cells_after(f, shown, paints, n + 1);
    lemma_cells_len(f, shown, paints, n);
    if p.span == 2 {
        lemma_place(f, p.col + 1, p.row);
    }
    assert forall|x: int, y: int| 0 <= x < f.cols && 0 <= y < f.rows implies #[trigger] h.screen.rows[y][x]
        == after[f.place(x, y)] by {
        lemma_place(f, x, y);
        lemma_places_differ(f, x, y, p.col, p.row);
        if p.span == 2 {
            lemma_places_differ(f, x, y, p.col + 1, p.row);
        }
        assert(g.screen.rows[y][x] == before[f.place(x, y)]);
    }
    assert(h.wf()) by {
        assert forall|i: int| 0 <= i < h.rows implies (#[trigger] h.screen.rows[i]).len() == h.cols by {
            assert(styled.screen.rows[i].len() == styled.cols);
        }
    }
}

proof fn lemma_places_differ(f: FrameModel, x: int, y: int, a: int, b: int)
    requires
        0 <= x < f.cols,
        0 <= a < f.cols,
        0 <= y,
        0 <= b,
    ensures
        f.place(x, y) == f.place(a, b) ==> x == a && y == b,
{
    let cols = f.cols;
    if y * cols + x == b * cols + a {
        assert(y == b) by (nonlinear_arith)
            requires
                y * cols + x == b * cols + a,
                0 <= x < cols,
                0 <= a < cols,
        ;
    }
}

proof fn lemma_cells_len(f: FrameModel, shown: Seq<Cell>, paints: Seq<Paint>, n: int)
    requires
        f.wf(),
        of_frame(f, paints),
        shown.len() == f.cells.len(),
        0 <= n <= paints.len(),
    ensures
        cells_after(f, shown, paints, n).len() == shown.len(),
    decreases n,
{
    if n > 0 {
        let p = paints[n - 1];
        lemma_cells_len(f, shown, paints, n - 1);
        assert(is_of_frame(f, p));
        lemma_place(f, p.col, p.row);
        if p.span == 2 {
            lemma_place(f, p.col + 1, p.row);
        }
    }
}

proof fn lemma_in_step(f: FrameModel, shown: Seq<Cell>, g: GridModel, paints: Seq<Paint>, n: int)
    requires
        f.wf(),
        f.cols <= u16::MAX,
        f.rows <= u16::MAX,
        shown.len() == f.cells.len(),
        of_frame(f, paints),
        0 <= n <= paints.len(),
        f.on_screen(g, shown),
        !g.autowrap,
        !g.origin_mode,
    ensures
        in_step(f, shown, after_paints(g, paints, f.cols, n), paints, n),
    decreases n,
{
    if n > 0 {
        lemma_in_step(f, shown, g, paints, n - 1);
        lemma_paint_in_step(f, shown, after_paints(g, paints, f.cols, n - 1), paints, n - 1);
    }
}

// ---- a walk is the sum of its paints ----------------------------------------------

spec fn adds_up(f: FrameModel, shown: Seq<Cell>, w: Walk) -> bool {
    &&& of_frame(f, w.paints)
    &&& w.shown.len() == f.cells.len()
    &&& w.shown == cells_after(f, shown, w.paints, w.paints.len() as int)
}

proof fn lemma_cells_prefix(f: FrameModel, shown: Seq<Cell>, paints: Seq<Paint>, p: Paint, n: int)
    requires
        0 <= n <= paints.len(),
    ensures
        cells_after(f, shown, paints.push(p), n) == cells_after(f, shown, paints, n),
    decreases n,
{
    if n > 0 {
        lemma_cells_prefix(f, shown, paints, p, n - 1);
        assert(paints.push(p)[n - 1] == paints[n - 1]);
    }
}

proof fn lemma_row_adds_up(f: FrameModel, shown: Seq<Cell>, w: Walk, y: int, x: int)
    requires
        f.wf(),
        f.is_whole(),
        adds_up(f, shown, w),
        0 <= y < f.rows,
        0 <= x,
    ensures
        adds_up(f, shown, f.walk_row(spans_of(f.cells), w, y, x)),
    decreases minus(f.cols, x),
{
    let spans = spans_of(f.cells);
    if x < f.cols {
        lemma_place(f, x, y);
        let i = f.place(x, y);
        assert(f.whole_at(x, y));
        if f.cells[i].ch == WIDE_CONT {
            lemma_row_adds_up(f, shown, w, y, x + 1);
        } else {
            let span = spans[i] as int;
            assert(span == print_width(f.cells[i].ch));
            if span == 2 {
                lemma_place(f, x + 1, y);
                assert(f.place(x + 1, y) == i + 1);
            }
            let v = f.visit(spans, w, y, x);
            if v.paints != w.paints {
                let p = v.paints.last();
                let n = w.paints.len() as int;
                assert(v.paints =~= w.paints.push(p));
                lemma_cells_prefix(f, shown, w.paints, p, n);
                assert(v.paints[n] == p);
                assert(v.shown == cells_after(f, shown, v.paints, n + 1));
                assert forall|k: int| 0 <= k < v.paints.len() implies is_of_frame(
                    f,
                    #[trigger] v.paints[k],
                ) by {
                    if k < n {
                        assert(v.paints[k] == w.paints[k]);
                    }
                }
            }
            lemma_row_adds_up(f, shown, v, y, x + span);
        }
    }
}

proof fn lemma_rows_add_up(f: FrameModel, shown: Seq<Cell>, w: Walk, y: int)
    requires
        f.wf(),
        f.is_whole(),
        adds_up(f, shown, w),
        0 <= y,
    ensures
        adds_up(f, shown, f.walk_rows(spans_of(f.cells), w, y)),
    decreases f.rows - y,
{
    if y < f.rows {
        lemma_row_adds_up(f, shown, w, y, 0);
        lemma_rows_add_up(f, shown, f.walk_row(spans_of(f.cells), w, y, 0), y + 1);
    }
}

proof fn lemma_whole_pairs(f: FrameModel, y: int)
    requires
        f.wf(),
        f.is_whole(),
        0 <= y < f.rows,
    ensures
        forall|k: int| 0 <= k < f.cols ==> #[trigger] f.pairs_up(spans_of(f.cells), k, y),
{
    assert forall|k: int| 0 <= k < f.cols implies #[trigger] f.pairs_up(
        spans_of(f.cells),
        k,
        y,
    ) by {
        lemma_place(f, k, y);
        assert(f.whole_at(k, y));
        if k > 0 {
            lemma_place(f, k - 1, y);
            assert(f.whole_at(k - 1, y));
        }
    }
}

/// What is drawn is what the terminal shows: on a terminal that shows what the
/// renderer remembers, the moves, styles and glyphs of a repaint leave exactly
/// the frame, cell by cell, for every frame of whole glyphs.
pub proof fn law_a_terminal_shows_what_is_drawn(
    f: FrameModel,
    shown: Seq<Cell>,
    g: GridModel,
    x: int,
    y: int,
)
    requires
        f.wf(),
        f.cols <= u16::MAX,
        f.rows <= u16::MAX,
        f.is_whole(),
        shown.len() == f.cells.len(),
        f.on_screen(g, shown),
        !g.autowrap,
        !g.origin_mode,
        0 <= x < f.cols,
        0 <= y < f.rows,
    ensures
        ({
            let paints = f.walk(spans_of(f.cells), shown).paints;
            after_paints(g, paints, f.cols, paints.len() as int).screen.rows[y][x] == f.at(x, y)
        }),
{
    let w = f.walk(spans_of(f.cells), shown);
    let start = Walk { shown, paints: Seq::empty() };
    lemma_rows_add_up(f, shown, start, 0);
    lemma_in_step(f, shown, g, w.paints, w.paints.len() as int);
    lemma_place(f, x, y);
    lemma_whole_pairs(f, y);
    law_whole_rows_agree(f, spans_of(f.cells), shown, y, x);
}

/// The cells of a terminal's screen, row after row.
pub open spec fn cells_on(g: GridModel) -> Seq<Cell> {
    Seq::new((g.cols * g.rows) as nat, |i: int| g.screen.rows[i / g.cols][i % g.cols])
}

/// A place is painted alike on any screen, or on none.
proof fn lemma_painted_alike(
    f: FrameModel,
    a: Seq<Cell>,
    b: Seq<Cell>,
    paints: Seq<Paint>,
    n: int,
    i: int,
)
    requires
        f.wf(),
        of_frame(f, paints),
        a.len() == f.cells.len(),
        b.len() == f.cells.len(),
        0 <= n <= paints.len(),
        0 <= i < f.cells.len(),
    ensures
        ({
            let c = cells_after(f, a, paints, n)[i];
            let d = cells_after(f, b, paints, n)[i];
            c == d || (c == a[i] && d == b[i])
        }),
    decreases n,
{
    if n > 0 {
        lemma_painted_alike(f, a, b, paints, n - 1, i);
        lemma_cells_len(f, a, paints, n - 1);
        lemma_cells_len(f, b, paints, n - 1);
        let p = paints[n - 1];
        assert(is_of_frame(f, p));
        lemma_place(f, p.col, p.row);
        if p.span == 2 {
            lemma_place(f, p.col + 1, p.row);
        }
    }
}

/// A frame that is painted whole reaches the terminal whatever was there
/// before: where no cell is taken to be shown already, every cell is painted.
pub proof fn law_a_whole_repaint_needs_nothing(
    f: FrameModel,
    base: Seq<Cell>,
    g: GridModel,
    x: int,
    y: int,
)
    requires
        f.wf(),
        f.cols <= u16::MAX,
        f.rows <= u16::MAX,
        f.is_whole(),
        base.len() == f.cells.len(),
        forall|i: int| 0 <= i < base.len() ==> #[trigger] base[i] != f.cells[i],
        g.wf(),
        g.cols == f.cols,
        g.rows == f.rows,
        !g.autowrap,
        !g.origin_mode,
        0 <= x < f.cols,
        0 <= y < f.rows,
    ensures
        ({
            let paints = f.walk(spans_of(f.cells), base).paints;
            after_paints(g, paints, f.cols, paints.len() as int).screen.rows[y][x] == f.at(x, y)
        }),
{
    let w = f.walk(spans_of(f.cells), base);
    let n = w.paints.len() as int;
    let start = Walk { shown: base, paints: Seq::empty() };
    lemma_rows_add_up(f, base, start, 0);
    let there = cells_on(g);
    assert forall|a: int, b: int| 0 <= a < f.cols && 0 <= b < f.rows implies #[trigger] g.screen.rows[b][a]
        == there[f.place(a, b)] by {
        lemma_place(f, a, b);
        lemma_column_and_row(f.cols, f.place(a, b), a, b);
    }
    lemma_in_step(f, there, g, w.paints, n);
    lemma_place(f, x, y);
    let i = f.place(x, y);
    lemma_whole_pairs(f, y);
    law_whole_rows_agree(f, spans_of(f.cells), base, y, x);
    lemma_painted_alike(f, base, there, w.paints, n, i);
    assert(base[i] != f.cells[i]);
}

} // verus!
