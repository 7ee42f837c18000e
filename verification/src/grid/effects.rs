//! What each sequence does to a screen, told cell by cell.
use super::laws::switch;
use super::model::{GridModel, ScreenModel, VtAction};
use super::{Cell, Color, A_BOLD, A_DIM, A_ITALIC, A_REVERSE, A_STRIKE, A_UNDERLINE, WIDE_CONT};
use crate::text::{decimal, trim};
use crate::utf8::utf8_lossy;
use crate::width::print_width;
use vstd::prelude::*;
use vstd::utf8::encode_utf8;

verus! {

/// `CSI n` and a final character.
pub open spec fn counted(action: char, n: u16) -> VtAction {
    VtAction::Csi { params: seq![seq![n]], intermediates: Seq::empty(), action }
}

/// `CSI a ; b` and a final character.
pub open spec fn paired(action: char, a: u16, b: u16) -> VtAction {
    VtAction::Csi { params: seq![seq![a], seq![b]], intermediates: Seq::empty(), action }
}

/// `CSI` and a final character alone.
pub open spec fn bare(action: char) -> VtAction {
    VtAction::Csi { params: Seq::empty(), intermediates: Seq::empty(), action }
}

/// `ESC` and one character.
pub open spec fn escape(byte: u8) -> VtAction {
    VtAction::Esc { intermediates: Seq::empty(), byte }
}

/// A blank in the background that is set.
pub open spec fn emptied(g: GridModel) -> Cell {
    Cell { ch: ' ', fg: Color::Default, bg: g.pen.bg, attrs: 0 }
}

/// A line of such blanks.
pub open spec fn is_emptied(g: GridModel, line: Seq<Cell>) -> bool {
    line.len() == g.cols && forall|k: int| 0 <= k < g.cols ==> #[trigger] line[k] == emptied(g)
}

/// Nothing but lines of the screen differs.
pub open spec fn only_lines(g: GridModel, h: GridModel) -> bool {
    &&& h == (GridModel { screen: ScreenModel { rows: h.screen.rows, ..g.screen }, ..g })
    &&& h.screen.rows.len() == g.screen.rows.len()
}

/// Nothing but the cursor's line differs.
pub open spec fn only_its_line(g: GridModel, h: GridModel) -> bool {
    &&& only_lines(g, h)
    &&& h.screen.rows[g.screen.cursor_row].len() == g.cols
    &&& forall|r: int|
        0 <= r < g.rows && r != g.screen.cursor_row ==> #[trigger] h.screen.rows[r]
            == g.screen.rows[r]
}

/// Nothing but the place of the cursor differs, and no wrap is pending.
pub open spec fn only_cursor(g: GridModel, h: GridModel, row: int, col: int) -> bool {
    h == (GridModel {
        screen: ScreenModel { cursor_row: row, cursor_col: col, ..g.screen },
        wrap_pending: false,
        ..g
    })
}

proof fn lemma_params(a: u16, b: u16)
    ensures
        seq![seq![a]].len() == 1,
        seq![seq![a]][0] == seq![a],
        seq![seq![a], seq![b]][0] == seq![a],
        seq![seq![a], seq![b]][1] == seq![b],
        seq![a][0] == a,
        seq![b][0] == b,
{
}

// ---- editing a line -------------------------------------------------------------

/// Inserting pushes what stands at the cursor and behind it to the right: blanks
/// come in at the cursor, and what is pushed over the margin is gone.
pub proof fn law_inserting_pushes_right(g: GridModel, n: u16, k: int)
    requires
        g.wf(),
        n >= 1,
        0 <= k < g.cols,
    ensures
        ({
            let h = g.apply(counted('@', n));
            let c = g.screen.cursor_col;
            let before = g.screen.rows[g.screen.cursor_row];
            let after = h.screen.rows[g.screen.cursor_row];
            &&& only_its_line(g, h)
            &&& k < c ==> after[k] == before[k]
            &&& c <= k && k < c + n ==> after[k] == emptied(g)
            &&& c <= k && k + n < g.cols ==> after[k + n] == before[k]
        }),
{
    lemma_params(n, n);
}

/// Deleting pulls what stands behind the cursor to the left, over what is
/// deleted: blanks come in at the margin.
pub proof fn law_deleting_pulls_left(g: GridModel, n: u16, k: int)
    requires
        g.wf(),
        n >= 1,
        0 <= k < g.cols,
    ensures
        ({
            let h = g.apply(counted('P', n));
            let c = g.screen.cursor_col;
            let before = g.screen.rows[g.screen.cursor_row];
            let after = h.screen.rows[g.screen.cursor_row];
            &&& only_its_line(g, h)
            &&& k < c ==> after[k] == before[k]
            &&& c <= k && k + n < g.cols ==> after[k] == before[k + n]
            &&& c <= k && k + n >= g.cols ==> after[k] == emptied(g)
        }),
{
    lemma_params(n, n);
}

/// Deleting what was inserted gives the line back, but for what was pushed over
/// the margin.
pub proof fn law_deleting_undoes_inserting(g: GridModel, n: u16, k: int)
    requires
        g.wf(),
        n >= 1,
        0 <= k < g.cols,
        k < g.screen.cursor_col || k + n < g.cols,
    ensures
        ({
            let h = g.apply(counted('@', n)).apply(counted('P', n));
            h.screen.rows[g.screen.cursor_row][k] == g.screen.rows[g.screen.cursor_row][k]
        }),
{
    let h = g.apply(counted('@', n));
    law_inserting_pushes_right(g, n, k);
    super::laws::law_shape_is_kept(g, counted('@', n));
    law_deleting_pulls_left(h, n, k);
    if k >= g.screen.cursor_col {
        law_inserting_pushes_right(g, n, k + n);
    }
}

/// Erasing characters blanks them where they stand, and moves nothing.
pub proof fn law_erasing_moves_nothing(g: GridModel, n: u16, k: int)
    requires
        g.wf(),
        n >= 1,
        0 <= k < g.cols,
    ensures
        ({
            let h = g.apply(counted('X', n));
            let c = g.screen.cursor_col;
            let before = g.screen.rows[g.screen.cursor_row];
            let after = h.screen.rows[g.screen.cursor_row];
            &&& only_its_line(g, h)
            &&& c <= k < c + n ==> after[k] == emptied(g)
            &&& !(c <= k < c + n) ==> after[k] == before[k]
        }),
{
    lemma_params(n, n);
}

/// Erasing in a line blanks it from the cursor on, up to and with the cursor,
/// or whole; any other number does nothing.
pub proof fn law_line_erasing_knows_its_side(g: GridModel, mode: u16, k: int)
    requires
        g.wf(),
        0 <= k < g.cols,
    ensures
        ({
            let h = g.apply(counted('K', mode));
            let c = g.screen.cursor_col;
            let before = g.screen.rows[g.screen.cursor_row];
            let after = h.screen.rows[g.screen.cursor_row];
            let gone = (mode == 0 && k >= c) || (mode == 1 && k <= c) || mode == 2;
            &&& only_its_line(g, h)
            &&& gone ==> after[k] == emptied(g)
            &&& !gone ==> after[k] == before[k]
            &&& mode > 2 ==> h == g
            &&& g.apply(bare('K')) == g.apply(counted('K', 0))
        }),
{
    lemma_params(mode, 0);
    assert(g.apply(bare('K')) == g.line_erased(0));
    assert(seq![seq![0u16]][0][0] == 0);
    assert(g.apply(counted('K', 0)) == g.line_erased(0));
}

/// Erasing on the screen blanks all cells behind the cursor, all before it, or
/// all there are, the cursor's own always among them; only number 3 touches the
/// history, and that one empties it.
pub proof fn law_screen_erasing_knows_its_side(g: GridModel, mode: u16, r: int, k: int)
    requires
        g.wf(),
        0 <= r < g.rows,
        0 <= k < g.cols,
    ensures
        ({
            let h = g.apply(counted('J', mode));
            let row = g.screen.cursor_row;
            let col = g.screen.cursor_col;
            let behind = r > row || (r == row && k >= col);
            let before = r < row || (r == row && k <= col);
            let gone = (mode == 0 && behind) || (mode == 1 && before) || mode == 2 || mode == 3;
            &&& gone ==> h.screen.rows[r][k] == emptied(g)
            &&& !gone ==> h.screen.rows[r][k] == g.screen.rows[r][k]
            &&& h.screen.rows.len() == g.rows
            &&& h.screen.rows[r].len() == g.cols
            &&& mode == 3 ==> h.scrollback.len() == 0
            &&& mode != 3 ==> h.scrollback == g.scrollback
            &&& h == (GridModel {
                screen: ScreenModel { rows: h.screen.rows, ..g.screen },
                scrollback: h.scrollback,
                ..g
            })
            &&& mode > 3 ==> h == g
            &&& g.apply(bare('J')) == g.apply(counted('J', 0))
        }),
{
    lemma_params(mode, 0);
    assert(seq![seq![0u16]][0][0] == 0);
    assert(g.apply(bare('J')) == g.display_erased(0));
    assert(g.apply(counted('J', 0)) == g.display_erased(0));
}

// ---- editing lines --------------------------------------------------------------

/// Inserting lines pushes the cursor's line and those below it down, to the end
/// of the scroll region: blank lines come in at the cursor. Outside the region
/// nothing happens, and the history is never touched.
pub proof fn law_inserting_lines_pushes_down(g: GridModel, n: u16, r: int)
    requires
        g.wf(),
        n >= 1,
        0 <= r < g.rows,
    ensures
        ({
            let h = g.apply(counted('L', n));
            let row = g.screen.cursor_row;
            let inside = g.scroll_top <= row <= g.scroll_bot;
            &&& only_lines(g, h)
            &&& !inside || r < row || r > g.scroll_bot ==> h.screen.rows[r] == g.screen.rows[r]
            &&& inside && row <= r && r + n <= g.scroll_bot ==> h.screen.rows[r + n]
                == g.screen.rows[r]
            &&& inside && row <= r <= g.scroll_bot && r < row + n ==> is_emptied(
                g,
                h.screen.rows[r],
            )
        }),
{
    lemma_params(n, n);
}

/// Deleting lines pulls those below the cursor up, within the scroll region:
/// blank lines come in at its end. Outside the region nothing happens, and the
/// history is never touched.
pub proof fn law_deleting_lines_pulls_up(g: GridModel, n: u16, r: int)
    requires
        g.wf(),
        n >= 1,
        0 <= r < g.rows,
    ensures
        ({
            let h = g.apply(counted('M', n));
            let row = g.screen.cursor_row;
            let inside = g.scroll_top <= row <= g.scroll_bot;
            &&& only_lines(g, h)
            &&& !inside || r < row || r > g.scroll_bot ==> h.screen.rows[r] == g.screen.rows[r]
            &&& inside && row <= r && r + n <= g.scroll_bot ==> h.screen.rows[r]
                == g.screen.rows[r + n]
            &&& inside && row <= r <= g.scroll_bot && r + n > g.scroll_bot ==> is_emptied(
                g,
                h.screen.rows[r],
            )
        }),
{
    lemma_params(n, n);
}

/// Scrolling up moves the lines of the region up and blanks what comes in below;
/// the lines above and below the region, the cursor and the pen stay.
pub proof fn law_scrolling_up_moves_the_region(g: GridModel, n: u16, r: int)
    requires
        g.wf(),
        n >= 1,
        0 <= r < g.rows,
    ensures
        ({
            let h = g.apply(counted('S', n));
            let top = g.scroll_top;
            let bot = g.scroll_bot;
            &&& h == (GridModel {
                screen: ScreenModel { rows: h.screen.rows, ..g.screen },
                scrollback: h.scrollback,
                ..g
            })
            &&& h.screen.rows.len() == g.rows
            &&& r < top || r > bot ==> h.screen.rows[r] == g.screen.rows[r]
            &&& top <= r && r + n <= bot ==> h.screen.rows[r] == g.screen.rows[r + n]
            &&& top <= r <= bot && r + n > bot ==> is_emptied(g, h.screen.rows[r])
        }),
{
    lemma_params(n, n);
}

/// Scrolling down moves the lines of the region down and blanks what comes in
/// above; nothing reaches the history.
pub proof fn law_scrolling_down_moves_the_region(g: GridModel, n: u16, r: int)
    requires
        g.wf(),
        n >= 1,
        0 <= r < g.rows,
    ensures
        ({
            let h = g.apply(counted('T', n));
            let top = g.scroll_top;
            let bot = g.scroll_bot;
            &&& only_lines(g, h)
            &&& r < top || r > bot ==> h.screen.rows[r] == g.screen.rows[r]
            &&& top <= r && r + n <= bot ==> h.screen.rows[r + n] == g.screen.rows[r]
            &&& top <= r <= bot && r < top + n ==> is_emptied(g, h.screen.rows[r])
        }),
{
    lemma_params(n, n);
}

/// The lines that scroll off the top of the normal screen go to the end of the
/// history, in order, and what was there before stays in front of them while
/// there is room.
pub proof fn law_scrolled_lines_join_the_history(g: GridModel, n: u16, i: int)
    requires
        g.wf(),
        g.alt is None,
        g.scroll_top == 0,
        1 <= n <= g.scroll_bot + 1,
        g.scrollback.len() + n <= 2000,
        0 <= i < g.scrollback.len() + n,
    ensures
        ({
            let h = g.apply(counted('S', n));
            &&& h.scrollback.len() == g.scrollback.len() + n
            &&& i < g.scrollback.len() ==> h.scrollback[i] == g.scrollback[i]
            &&& i >= g.scrollback.len() ==> h.scrollback[i] == g.screen.rows[i
                - g.scrollback.len()]
        }),
{
    lemma_params(n, n);
}

// ---- the cursor -----------------------------------------------------------------

/// A relative move goes as far as it was told and no farther than the edge, and
/// moves nothing but the cursor.
pub proof fn law_moves_go_their_way(g: GridModel, n: u16)
    requires
        g.wf(),
        n >= 1,
    ensures
        ({
            let row = g.screen.cursor_row;
            let col = g.screen.cursor_col;
            let up = if row < n { 0 } else { row - n };
            let down = if row + n < g.rows { row + n } else { g.rows - 1 };
            let left = if col < n { 0 } else { col - n };
            let right = if col + n < g.cols { col + n } else { g.cols - 1 };
            &&& only_cursor(g, g.apply(counted('A', n)), up, col)
            &&& only_cursor(g, g.apply(counted('B', n)), down, col)
            &&& only_cursor(g, g.apply(counted('e', n)), down, col)
            &&& only_cursor(g, g.apply(counted('C', n)), row, right)
            &&& only_cursor(g, g.apply(counted('a', n)), row, right)
            &&& only_cursor(g, g.apply(counted('D', n)), row, left)
            &&& only_cursor(g, g.apply(counted('E', n)), down, 0)
            &&& only_cursor(g, g.apply(counted('F', n)), up, 0)
        }),
{
    lemma_params(n, n);
}

/// A move and its opposite cancel out, as long as neither meets an edge.
pub proof fn law_opposite_moves_cancel(g: GridModel, n: u16)
    requires
        g.wf(),
        n >= 1,
    ensures
        g.screen.cursor_row >= n ==> only_cursor(
            g,
            g.apply(counted('A', n)).apply(counted('B', n)),
            g.screen.cursor_row,
            g.screen.cursor_col,
        ),
        g.screen.cursor_col + n < g.cols ==> only_cursor(
            g,
            g.apply(counted('C', n)).apply(counted('D', n)),
            g.screen.cursor_row,
            g.screen.cursor_col,
        ),
{
    lemma_params(n, n);
}

/// An address names a column, a row or a cell, counted from one; one beyond the
/// edge means the last. In origin mode rows count from the top of the region.
pub proof fn law_addresses_are_clamped(g: GridModel, row: u16, col: u16)
    requires
        g.wf(),
        row >= 1,
        col >= 1,
    ensures
        ({
            let r = if row <= g.rows { row - 1 } else { g.rows - 1 };
            let c = if col <= g.cols { col - 1 } else { g.cols - 1 };
            let from_top = row - 1 + g.scroll_top;
            let inner = if from_top < g.rows { from_top } else { g.rows - 1 };
            &&& only_cursor(g, g.apply(counted('G', col)), g.screen.cursor_row, c)
            &&& only_cursor(g, g.apply(counted('`', col)), g.screen.cursor_row, c)
            &&& only_cursor(g, g.apply(counted('d', row)), r, g.screen.cursor_col)
            &&& !g.origin_mode ==> only_cursor(g, g.apply(paired('H', row, col)), r, c)
            &&& !g.origin_mode ==> only_cursor(g, g.apply(paired('f', row, col)), r, c)
            &&& g.origin_mode ==> only_cursor(g, g.apply(paired('H', row, col)), inner, c)
            &&& g.origin_mode ==> only_cursor(g, g.apply(paired('f', row, col)), inner, c)
        }),
{
    lemma_params(row, col);
    lemma_params(col, col);
}

/// Home is the first cell, whatever the cursor was at.
pub proof fn law_home_is_the_corner(g: GridModel)
    requires
        g.wf(),
        !g.origin_mode,
    ensures
        only_cursor(g, g.apply(bare('H')), 0, 0),
        only_cursor(g, g.apply(bare('f')), 0, 0),
{
}

/// A carriage return goes to the first column, a backspace one column back and
/// never past the first; neither erases anything.
pub proof fn law_returns_erase_nothing(g: GridModel)
    requires
        g.wf(),
    ensures
        only_cursor(g, g.apply(VtAction::Execute(0x0d)), g.screen.cursor_row, 0),
        g.screen.cursor_col > 0 ==> only_cursor(
            g,
            g.apply(VtAction::Execute(0x08)),
            g.screen.cursor_row,
            g.screen.cursor_col - 1,
        ),
        g.screen.cursor_col == 0 ==> only_cursor(
            g,
            g.apply(VtAction::Execute(0x08)),
            g.screen.cursor_row,
            0,
        ),
{
}

/// A line feed keeps the column and goes one line down; at the end of the region
/// the region scrolls up one line instead, and at the end of the screen nothing
/// happens. Vertical tabs, form feeds and `ESC D` are line feeds too, and `ESC E`
/// is one from the first column.
pub proof fn law_line_feeds_go_down(g: GridModel, byte: u8)
    requires
        g.wf(),
        byte == 0x0a || byte == 0x0b || byte == 0x0c,
    ensures
        ({
            let h = g.apply(VtAction::Execute(byte));
            let row = g.screen.cursor_row;
            let col = g.screen.cursor_col;
            &&& row != g.scroll_bot && row + 1 < g.rows ==> only_cursor(g, h, row + 1, col)
            &&& row != g.scroll_bot && row + 1 >= g.rows ==> only_cursor(g, h, row, col)
            &&& row == g.scroll_bot ==> only_cursor(g.apply(counted('S', 1)), h, row, col)
            &&& g.apply(escape(0x44)) == h
            &&& g.apply(escape(0x45)) == g.apply(VtAction::Execute(0x0d)).apply(
                VtAction::Execute(byte),
            )
        }),
{
    lemma_params(1, 1);
    assert(g.apply(counted('S', 1)) == g.scrolled_up(1));
}

/// A reverse index keeps the column and goes one line up; at the top of the
/// region the region scrolls down one line instead.
pub proof fn law_reverse_index_goes_up(g: GridModel)
    requires
        g.wf(),
    ensures
        ({
            let h = g.apply(escape(0x4d));
            let row = g.screen.cursor_row;
            let col = g.screen.cursor_col;
            &&& row != g.scroll_top && row > 0 ==> only_cursor(g, h, row - 1, col)
            &&& row != g.scroll_top && row == 0 ==> only_cursor(g, h, row, col)
            &&& row == g.scroll_top ==> only_cursor(g.apply(counted('T', 1)), h, row, col)
        }),
{
    lemma_params(1, 1);
    assert(g.apply(counted('T', 1)) == g.scrolled_down(1));
}

/// Control characters that are not listed do nothing.
pub proof fn law_other_controls_do_nothing(g: GridModel, byte: u8)
    requires
        !(0x08 <= byte <= 0x0d),
    ensures
        g.apply(VtAction::Execute(byte)) == g,
{
}

proof fn lemma_stop_ahead(g: GridModel, c: int)
    requires
        c <= g.cols,
    ensures
        c <= g.next_stop(c) <= g.cols,
        g.next_stop(c) < g.cols ==> g.tabs[g.next_stop(c)],
        forall|k: int| c <= k < g.next_stop(c) ==> !(#[trigger] g.tabs[k]),
    decreases g.cols - c,
{
    if c < g.cols && !g.tabs[c] {
        lemma_stop_ahead(g, c + 1);
    }
}

/// A tab goes to the next stop to the right, over none, and to the last column
/// where there is no stop left. It erases nothing.
pub proof fn law_tabs_go_to_the_next_stop(g: GridModel)
    requires
        g.wf(),
    ensures
        ({
            let h = g.apply(VtAction::Execute(0x09));
            let from = g.screen.cursor_col;
            let to = h.screen.cursor_col;
            &&& only_cursor(g, h, g.screen.cursor_row, to)
            &&& from <= to < g.cols
            &&& from < g.cols - 1 ==> from < to
            &&& to < g.cols - 1 ==> g.tabs[to]
            &&& forall|k: int| from < k < to ==> !(#[trigger] g.tabs[k])
        }),
{
    lemma_stop_ahead(g, g.screen.cursor_col + 1);
}

/// A new terminal has a tab stop in every eighth column; `ESC H` sets one at the
/// cursor, `CSI g` takes it away, and `CSI 3 g` takes all away.
pub proof fn law_tab_stops_are_set_and_cleared(g: GridModel, cols: int, rows: int, c: int)
    requires
        g.wf(),
        cols >= 1,
        rows >= 1,
    ensures
        0 <= c < cols ==> (GridModel::fresh(cols, rows).tabs[c] <==> c > 0 && c % 8 == 0),
        ({
            let here = g.screen.cursor_col;
            let set = g.apply(escape(0x48));
            let cleared = g.apply(bare('g'));
            let all = g.apply(counted('g', 3));
            &&& set == (GridModel { tabs: set.tabs, ..g })
            &&& cleared == (GridModel { tabs: cleared.tabs, ..g })
            &&& all == (GridModel { tabs: all.tabs, ..g })
            &&& set.tabs.len() == g.cols && cleared.tabs.len() == g.cols && all.tabs.len() == g.cols
            &&& 0 <= c < g.cols ==> (set.tabs[c] <==> c == here || g.tabs[c])
            &&& 0 <= c < g.cols ==> (cleared.tabs[c] <==> c != here && g.tabs[c])
            &&& 0 <= c < g.cols ==> !all.tabs[c]
        }),
{
    lemma_params(3, 3);
}

// ---- regions and modes ----------------------------------------------------------

/// A scroll region is the lines from the first to the second number, both
/// counted from one and both within the screen; setting it sends the cursor
/// home, which in origin mode is the top of the region. One that is no region
/// changes nothing, and without numbers the whole screen is the region.
pub proof fn law_regions_are_set(g: GridModel, top: u16, bot: u16)
    requires
        g.wf(),
        g.rows <= u16::MAX,
        top >= 1,
        bot >= 1,
    ensures
        ({
            let h = g.apply(paired('r', top, bot));
            let ok = top < bot && bot <= g.rows;
            &&& !ok ==> h == g
            &&& ok ==> h.scroll_top == top - 1 && h.scroll_bot == bot - 1
            &&& ok ==> only_cursor(
                GridModel { scroll_top: top - 1, scroll_bot: bot - 1, ..g },
                h,
                if g.origin_mode {
                    top - 1
                } else {
                    0
                },
                0,
            )
        }),
        g.rows >= 2 ==> g.apply(bare('r')).scroll_top == 0 && g.apply(bare('r')).scroll_bot == g.rows
            - 1,
{
    lemma_params(top, bot);
}

/// Origin mode, wrapping and the cursor's visibility are switched by their own
/// numbers and by no other, and switching one changes nothing else; origin mode
/// sends the cursor home.
pub proof fn law_modes_are_switched(g: GridModel, mode: u16, on: bool)
    requires
        g.wf(),
    ensures
        g.apply(switch(7, on)) == (GridModel { autowrap: on, ..g }),
        g.apply(switch(25, on)) == (GridModel { cursor_visible: on, ..g }),
        only_cursor(
            GridModel { origin_mode: on, ..g },
            g.apply(switch(6, on)),
            if on {
                g.scroll_top
            } else {
                0
            },
            0,
        ),
        mode != 6 && mode != 7 && mode != 25 && mode != 1047 && mode != 1049 ==> g.apply(
            switch(mode, on),
        ) == g,
        g.apply(
            counted(
                if on {
                    'h'
                } else {
                    'l'
                },
                mode,
            ),
        ) == g,
{
    super::laws::lemma_switch(g, 7, on);
    super::laws::lemma_switch(g, 25, on);
    super::laws::lemma_switch(g, 6, on);
    super::laws::lemma_switch(g, mode, on);
    super::laws::lemma_modes_keep_size(g, false, seq![seq![mode]], 0, on);
}

/// A sequence may name several modes: they are switched one after the other.
pub proof fn law_modes_are_switched_in_turn(g: GridModel, a: u16, b: u16, on: bool)
    ensures
        g.apply(
            VtAction::Csi {
                params: seq![seq![a], seq![b]],
                intermediates: seq![0x3fu8],
                action: if on {
                    'h'
                } else {
                    'l'
                },
            },
        ) == g.apply(switch(a, on)).apply(switch(b, on)),
{
    let params = seq![seq![a], seq![b]];
    lemma_params(a, b);
    let g1 = g.mode_set(true, a, on);
    let g2 = g1.mode_set(true, b, on);
    super::laws::lemma_switch(g, a, on);
    super::laws::lemma_switch(g1, b, on);
    assert(g2.modes_set(true, params, 2, on) == g2);
    assert(g1.modes_set(true, params, 1, on) == g2);
    assert(g.modes_set(true, params, 0, on) == g2);
}

/// Both spellings save the cursor's place and the pen, and both bring them back.
pub proof fn law_saving_has_two_spellings(g: GridModel)
    requires
        g.wf(),
    ensures
        ({
            let saved = GridModel {
                saved: (g.screen.cursor_row, g.screen.cursor_col, g.pen),
                ..g
            };
            &&& g.apply(escape(0x37)) == saved
            &&& g.apply(bare('s')) == saved
            &&& g.apply(escape(0x38)) == g.apply(bare('u'))
            &&& g.apply(escape(0x38)).pen == g.saved.2
            &&& g.saved.0 < g.rows && g.saved.1 < g.cols ==> only_cursor(
                GridModel { pen: g.saved.2, ..g },
                g.apply(escape(0x38)),
                g.saved.0,
                g.saved.1,
            )
        }),
{
}

proof fn lemma_modes_keep_saved(g: GridModel, private: bool, params: Seq<Seq<u16>>, i: int, on: bool)
    requires
        i >= 0,
        on && private ==> !super::laws::names_mode(params, 1049),
    ensures
        g.modes_set(private, params, i, on).saved == g.saved,
        g.modes_set(private, params, i, on).cols == g.cols,
        g.modes_set(private, params, i, on).rows == g.rows,
    decreases params.len() - i,
{
    if i < params.len() {
        if params[i].len() > 0 {
            lemma_modes_keep_saved(
                g.mode_set(private, params[i][0], on),
                private,
                params,
                i + 1,
                on,
            );
        } else {
            lemma_modes_keep_saved(g, private, params, i + 1, on);
        }
    }
}

#[verifier::rlimit(60)]
#[verifier::spinoff_prover]
proof fn lemma_saved_stays(g: GridModel, actions: Seq<VtAction>, n: int)
    requires
        0 <= n <= actions.len(),
        forall|i: int| 0 <= i < n ==> !super::laws::saves_cursor(#[trigger] actions[i]),
        forall|i: int|
            0 <= i < n ==> !((#[trigger] actions[i]) matches VtAction::Esc { intermediates, byte }
                && intermediates.len() == 0 && byte == 0x63),
    ensures
        g.after(actions, n).saved == g.saved,
        g.after(actions, n).cols == g.cols,
        g.after(actions, n).rows == g.rows,
    decreases n,
{
    if n > 0 {
        lemma_saved_stays(g, actions, n - 1);
        let a = actions[n - 1];
        let h = g.after(actions, n - 1);
        assert(!super::laws::saves_cursor(a));
        match a {
            VtAction::Csi { params, intermediates, action } => {
                let private = intermediates.len() > 0 && intermediates[0] == 0x3f;
                if action == 'h' {
                    lemma_modes_keep_saved(h, private, params, 0, true);
                } else if action == 'l' {
                    lemma_modes_keep_saved(h, private, params, 0, false);
                }
            },
            _ => {},
        }
    }
}

/// A saved cursor comes back after anything that saves no other and resets
/// nothing: to the same place and with the same pen.
pub proof fn law_a_saved_cursor_waits(g: GridModel, actions: Seq<VtAction>, n: int)
    requires
        g.wf(),
        0 <= n <= actions.len(),
        forall|i: int| 0 <= i < n ==> !super::laws::saves_cursor(#[trigger] actions[i]),
        forall|i: int|
            0 <= i < n ==> !((#[trigger] actions[i]) matches VtAction::Esc { intermediates, byte }
                && intermediates.len() == 0 && byte == 0x63),
    ensures
        ({
            let back = g.apply(escape(0x37)).after(actions, n).apply(escape(0x38));
            &&& back.screen.cursor_row == g.screen.cursor_row
            &&& back.screen.cursor_col == g.screen.cursor_col
            &&& back.pen == g.pen
        }),
{
    lemma_saved_stays(g.apply(escape(0x37)), actions, n);
}

/// A reset leaves a terminal as it was when it was new, at its size.
pub proof fn law_a_reset_starts_over(g: GridModel)
    requires
        g.wf(),
    ensures
        ({
            let h = g.apply(escape(0x63));
            &&& h.cols == g.cols && h.rows == g.rows
            &&& h.alt is None && !h.origin_mode && !h.wrap_pending
            &&& h.autowrap && h.cursor_visible
            &&& h.scroll_top == 0 && h.scroll_bot == g.rows - 1
            &&& h.screen.cursor_row == 0 && h.screen.cursor_col == 0
            &&& h.pen == (Cell { ch: ' ', fg: Color::Default, bg: Color::Default, attrs: 0 })
            &&& h.title.len() == 0 && h.scrollback.len() == 0 && h.reply.len() == 0
            &&& forall|r: int, c: int|
                0 <= r < g.rows && 0 <= c < g.cols ==> #[trigger] h.screen.rows[r][c] == (Cell {
                    ch: ' ',
                    fg: Color::Default,
                    bg: Color::Default,
                    attrs: 0,
                })
            &&& h.wf()
        }),
{
}

/// Escape sequences that select a character set, and those that are not listed,
/// do nothing.
pub proof fn law_other_escapes_do_nothing(g: GridModel, intermediates: Seq<u8>, byte: u8)
    requires
        intermediates.len() > 0 || !(byte == 0x37 || byte == 0x38 || byte == 0x44 || byte == 0x45
            || byte == 0x48 || byte == 0x4d || byte == 0x63),
    ensures
        g.apply(VtAction::Esc { intermediates, byte }) == g,
{
}

/// The final characters that mean something after `CSI`.
pub open spec fn means_something(action: char) -> bool {
    ||| action == 'A' || action == 'B' || action == 'C' || action == 'D' || action == 'E'
    ||| action == 'F' || action == 'G' || action == 'H' || action == 'J' || action == 'K'
    ||| action == 'L' || action == 'M' || action == 'P' || action == 'S' || action == 'T'
    ||| action == 'X' || action == '@' || action == '`' || action == 'a' || action == 'c'
    ||| action == 'd' || action == 'e' || action == 'f' || action == 'g' || action == 'h'
    ||| action == 'l' || action == 'm' || action == 'n' || action == 'r' || action == 's'
    ||| action == 'u'
}

/// Control sequences that are not listed do nothing.
pub proof fn law_other_sequences_do_nothing(
    g: GridModel,
    params: Seq<Seq<u16>>,
    intermediates: Seq<u8>,
    action: char,
)
    requires
        !means_something(action),
    ensures
        g.apply(VtAction::Csi { params, intermediates, action }) == g,
{
}

// ---- answers and titles ---------------------------------------------------------

/// A terminal that is asked where its cursor is says so, row first, counted from
/// one; asked what it is, it says a VT102. Answers wait behind those already
/// owed, asking changes nothing else, and no other question is answered.
pub proof fn law_questions_are_answered(g: GridModel, n: u16)
    requires
        g.wf(),
    ensures
        g.apply(counted('n', 6)) == (GridModel {
            reply: g.reply + encode_utf8(
                "\x1b["@ + decimal((g.screen.cursor_row + 1) as nat) + ";"@ + decimal(
                    (g.screen.cursor_col + 1) as nat,
                ) + "R"@,
            ),
            ..g
        }),
        n != 6 ==> g.apply(counted('n', n)) == g,
        g.apply(bare('c')) == (GridModel { reply: g.reply + encode_utf8("\x1b[?6c"@), ..g }),
        g.answered() == (GridModel { reply: Seq::empty(), ..g }),
{
    lemma_params(6, n);
    lemma_params(n, n);
}

/// Commands 0 and 2 set the title to their text, without the white space around
/// it, and change nothing else; any other command, or one without text, does
/// nothing.
pub proof fn law_titles_are_set(g: GridModel, kind: Seq<u8>, text: Seq<u8>)
    ensures
        kind == seq![0x30u8] || kind == seq![0x32u8] ==> g.apply(
            VtAction::Osc { fields: seq![kind, text] },
        ) == (GridModel { title: trim(utf8_lossy(text)), ..g }),
        kind != seq![0x30u8] && kind != seq![0x32u8] ==> g.apply(
            VtAction::Osc { fields: seq![kind, text] },
        ) == g,
        g.apply(VtAction::Osc { fields: seq![kind] }) == g,
{
    assert(seq![kind, text][0] == kind);
    assert(seq![kind, text][1] == text);
}

// ---- printing -------------------------------------------------------------------

/// With wrapping off a character at the right margin replaces the last cell, and
/// the cursor stays; nothing scrolls.
pub proof fn law_without_wrapping_the_margin_holds(g: GridModel, c: char)
    requires
        g.wf(),
        !g.autowrap,
        !g.wrap_pending,
        print_width(c) == 1,
        g.screen.cursor_col == g.cols - 1,
    ensures
        ({
            let h = g.apply(VtAction::Print(c));
            &&& only_its_line(g, h)
            &&& h.screen.rows[g.screen.cursor_row][g.cols - 1] == (Cell { ch: c, ..g.pen })
            &&& forall|k: int|
                0 <= k < g.cols - 1 ==> #[trigger] h.screen.rows[g.screen.cursor_row][k]
                    == g.screen.rows[g.screen.cursor_row][k]
        }),
{
}

/// A wide character that does not fit in the line goes to the next one where
/// wrapping is on, and where it is off it takes the last two cells.
pub proof fn law_wide_characters_are_not_split(g: GridModel, c: char)
    requires
        g.wf(),
        !g.wrap_pending,
        g.cols >= 3,
        print_width(c) == 2,
        g.screen.cursor_col == g.cols - 1,
    ensures
        ({
            let h = g.apply(VtAction::Print(c));
            let line = h.screen.rows[h.screen.cursor_row];
            &&& g.autowrap ==> line[0] == (Cell { ch: c, ..g.pen }) && line[1] == (Cell {
                ch: WIDE_CONT,
                ..g.pen
            }) && h.screen.cursor_col == 2
            &&& !g.autowrap ==> line[g.cols - 2] == (Cell { ch: c, ..g.pen }) && line[g.cols - 1]
                == (Cell { ch: WIDE_CONT, ..g.pen }) && h.screen.cursor_row == g.screen.cursor_row
        }),
{
    super::laws::lemma_line_feed_wf(g);
    assert(g.autowrap ==> g.next_line().screen.cursor_col == 0);
}

/// Only a character wider than the whole screen, with wrapping off, cannot be
/// printed; everything else is accepted.
pub proof fn law_little_is_refused(g: GridModel, a: VtAction)
    ensures
        !g.accepts(a) <==> (a matches VtAction::Print(c) && !g.autowrap && print_width(c) > g.cols),
{
}

/// A stream is its actions, applied one after the other.
pub proof fn law_streams_go_one_by_one(g: GridModel, actions: Seq<VtAction>, n: int)
    requires
        0 <= n < actions.len(),
    ensures
        g.after(actions, 0) == g,
        g.after(actions, n + 1) == g.after(actions, n).apply(actions[n]),
{
}

// ---- sizes ----------------------------------------------------------------------

/// A screen made shorter keeps its last lines, and one made taller gets blank
/// lines at its end; a narrower screen cuts its lines at the right, a wider one
/// pads them there. Nothing is wrapped again. The screen that is put by changes
/// in the same way.
pub proof fn law_resizing_keeps_the_last_lines(g: GridModel, cols: int, rows: int, r: int, c: int)
    requires
        g.wf(),
        cols >= 1,
        rows >= 1,
        0 <= r < rows,
        0 <= c < cols,
    ensures
        ({
            let h = g.resized(cols, rows);
            let plain = Cell { ch: ' ', fg: Color::Default, bg: Color::Default, attrs: 0 };
            let dropped = if rows < g.rows { g.rows - rows } else { 0 };
            &&& h.screen.rows.len() == rows
            &&& h.screen.rows[r].len() == cols
            &&& r + dropped < g.rows && c < g.cols ==> h.screen.rows[r][c] == g.screen.rows[r
                + dropped][c]
            &&& r + dropped >= g.rows || c >= g.cols ==> h.screen.rows[r][c] == plain
            &&& h.alt is Some <==> g.alt is Some
            &&& g.alt matches Some(put_by) ==> {
                let there = h.alt.unwrap();
                &&& there.rows.len() == rows
                &&& there.rows[r].len() == cols
                &&& r + dropped < g.rows && c < g.cols ==> there.rows[r][c] == put_by.rows[r
                    + dropped][c]
                &&& r + dropped >= g.rows || c >= g.cols ==> there.rows[r][c] == plain
            }
        }),
{
}

/// The cursor stays on its line and in its column when the size changes: where
/// lines are dropped from the top it goes up with its line, where its own line
/// is dropped it goes to the top, and where its column is cut off it goes to the
/// last one.
pub proof fn law_resizing_keeps_the_cursor_on_its_line(g: GridModel, cols: int, rows: int)
    requires
        g.wf(),
        cols >= 1,
        rows >= 1,
    ensures
        ({
            let h = g.resized(cols, rows);
            let s = g.screen;
            let dropped = if rows < g.rows { g.rows - rows } else { 0 };
            &&& s.cursor_row >= dropped ==> h.screen.cursor_row == s.cursor_row - dropped
            &&& s.cursor_row < dropped ==> h.screen.cursor_row == 0
            &&& s.cursor_col < cols ==> h.screen.cursor_col == s.cursor_col
            &&& s.cursor_col >= cols ==> h.screen.cursor_col == cols - 1
            &&& s.cursor_row >= dropped && cols == g.cols
                ==> h.screen.rows[h.screen.cursor_row] == s.rows[s.cursor_row]
            &&& g.alt matches Some(put_by) ==> {
                let there = h.alt.unwrap();
                &&& put_by.cursor_row >= dropped ==> there.cursor_row == put_by.cursor_row
                    - dropped
                &&& put_by.cursor_row < dropped ==> there.cursor_row == 0
                &&& put_by.cursor_col < cols ==> there.cursor_col == put_by.cursor_col
                &&& put_by.cursor_col >= cols ==> there.cursor_col == cols - 1
            }
        }),
{
    let s = g.screen;
    let h = g.resized(cols, rows);
    let dropped = if rows < g.rows { g.rows - rows } else { 0 };
    if s.cursor_row >= dropped && cols == g.cols {
        assert(h.screen.rows[h.screen.cursor_row] =~= s.rows[s.cursor_row]);
    }
}

/// A change of size makes the whole screen the region, puts the tab stops where
/// a new terminal has them and leaves no wrap pending; pen, saved cursor, modes,
/// title, history and what is owed stay.
pub proof fn law_resizing_keeps_the_rest(g: GridModel, cols: int, rows: int)
    requires
        g.wf(),
        cols >= 1,
        rows >= 1,
        cols != g.cols || rows != g.rows,
    ensures
        ({
            let h = g.resized(cols, rows);
            &&& h.scroll_top == 0 && h.scroll_bot == rows - 1
            &&& !h.wrap_pending
            &&& h.tabs == GridModel::fresh(cols, rows).tabs
            &&& h.pen == g.pen && h.saved == g.saved
            &&& h.autowrap == g.autowrap && h.origin_mode == g.origin_mode
            &&& h.cursor_visible == g.cursor_visible
            &&& h.title == g.title && h.scrollback == g.scrollback && h.reply == g.reply
        }),
{
}

// ---- the pen --------------------------------------------------------------------

proof fn lemma_one_style(g: GridModel, p: u16)
    requires
        p != 38,
        p != 48,
    ensures
        g.apply(counted('m', p)) == (GridModel {
            pen: super::model::sgr_simple(g.pen, p),
            ..g
        }),
{
    let params = seq![seq![p]];
    lemma_params(p, p);
    let q = super::model::sgr_simple(g.pen, p);
    assert(super::model::sgr_step(g.pen, params, 0) == (q, 1int));
    assert(super::model::sgr_from(q, params, 1) == q);
    assert(super::model::sgr_from(g.pen, params, 0) == q);
}

/// The attribute that a number switches on, if it is one of those.
pub open spec fn attribute(p: u16) -> u8 {
    if p == 1 {
        A_BOLD
    } else if p == 2 {
        A_DIM
    } else if p == 3 {
        A_ITALIC
    } else if p == 4 {
        A_UNDERLINE
    } else if p == 7 {
        A_REVERSE
    } else if p == 9 {
        A_STRIKE
    } else {
        0
    }
}

/// An attribute is switched on by its own number and leaves colours and other
/// attributes alone; the number twenty above it switches it off again, and 22
/// switches off both bold and dim.
pub proof fn law_attributes_go_on_and_off(g: GridModel, p: u16)
    requires
        p == 1 || p == 2 || p == 3 || p == 4 || p == 7 || p == 9,
    ensures
        ({
            let bit = attribute(p);
            let on = g.apply(counted('m', p));
            let off_number: u16 = if p == 1 { 22 } else { (p + 20) as u16 };
            let off = g.apply(counted('m', off_number));
            let gone: u8 = if p <= 2 { A_BOLD | A_DIM } else { bit };
            &&& on == (GridModel { pen: Cell { attrs: on.pen.attrs, ..g.pen }, ..g })
            &&& on.pen.attrs & bit == bit
            &&& on.pen.attrs & !bit == g.pen.attrs & !bit
            &&& off == (GridModel { pen: Cell { attrs: off.pen.attrs, ..g.pen }, ..g })
            &&& off.pen.attrs & gone == 0
            &&& off.pen.attrs & !gone == g.pen.attrs & !gone
        }),
{
    let bit = attribute(p);
    let off_number: u16 = if p == 1 { 22 } else { (p + 20) as u16 };
    let gone: u8 = if p <= 2 { A_BOLD | A_DIM } else { bit };
    lemma_one_style(g, p);
    lemma_one_style(g, off_number);
    let a = g.pen.attrs;
    assert((a | bit) & bit == bit) by (bit_vector);
    assert((a | bit) & !bit == a & !bit) by (bit_vector);
    assert((a & !gone) & gone == 0) by (bit_vector);
    assert((a & !gone) & !gone == a & !gone) by (bit_vector);
}

/// The sixteen colours of text and of background are set by their numbers, the
/// bright ones sixty higher; 39 and 49 go back to the default. Nothing else of
/// the pen changes.
pub proof fn law_colours_have_their_numbers(g: GridModel, k: u16)
    requires
        k < 8,
    ensures
        g.apply(counted('m', (30 + k) as u16)).pen == (Cell { fg: Color::Indexed(k as u8), ..g.pen }),
        g.apply(counted('m', (40 + k) as u16)).pen == (Cell { bg: Color::Indexed(k as u8), ..g.pen }),
        g.apply(counted('m', (90 + k) as u16)).pen == (Cell {
            fg: Color::Indexed((k + 8) as u8),
            ..g.pen
        }),
        g.apply(counted('m', (100 + k) as u16)).pen == (Cell {
            bg: Color::Indexed((k + 8) as u8),
            ..g.pen
        }),
        g.apply(counted('m', 39)).pen == (Cell { fg: Color::Default, ..g.pen }),
        g.apply(counted('m', 49)).pen == (Cell { bg: Color::Default, ..g.pen }),
{
    lemma_one_style(g, (30 + k) as u16);
    lemma_one_style(g, (40 + k) as u16);
    lemma_one_style(g, (90 + k) as u16);
    lemma_one_style(g, (100 + k) as u16);
    lemma_one_style(g, 39);
    lemma_one_style(g, 49);
}

/// Number 0, and no number at all, make the pen plain; a number that is not
/// listed leaves it as it is. A style never touches the screen.
pub proof fn law_styles_can_be_reset(g: GridModel, p: u16)
    ensures
        g.apply(counted('m', 0)) == (GridModel {
            pen: Cell { ch: ' ', fg: Color::Default, bg: Color::Default, attrs: 0 },
            ..g
        }),
        g.apply(bare('m')) == g.apply(counted('m', 0)),
        p > 107 ==> g.apply(counted('m', p)) == g,
        g.apply(counted('m', p)) == (GridModel { pen: g.apply(counted('m', p)).pen, ..g }),
{
    lemma_one_style(g, 0);
    if p != 38 && p != 48 {
        lemma_one_style(g, p);
    }
}

/// Of the extended colours 38 sets that of the text and 48 that of the
/// background, in either spelling, and nothing else of the pen changes.
pub proof fn law_extended_colours_know_their_side(g: GridModel, n: u16, r: u16, gr: u16, b: u16)
    requires
        n < 256,
        r < 256,
        gr < 256,
        b < 256,
    ensures
        super::model::sgr(g.pen, seq![seq![38u16], seq![5u16], seq![n]]) == (Cell {
            fg: Color::Indexed(n as u8),
            ..g.pen
        }),
        super::model::sgr(g.pen, seq![seq![48u16, 5u16, n]]) == (Cell {
            bg: Color::Indexed(n as u8),
            ..g.pen
        }),
        super::model::sgr(g.pen, seq![seq![38u16, 2u16, r, gr, b]]) == (Cell {
            fg: Color::Rgb(r as u8, gr as u8, b as u8),
            ..g.pen
        }),
        super::model::sgr(g.pen, seq![seq![48u16], seq![2u16], seq![r], seq![gr], seq![b]]) == (
        Cell { bg: Color::Rgb(r as u8, gr as u8, b as u8), ..g.pen }),
{
    super::laws::law_indexed_colour_spellings(g.pen, 38, n);
    super::laws::law_indexed_colour_spellings(g.pen, 48, n);
    super::laws::law_true_colour_spellings(g.pen, 38, r, gr, b);
    super::laws::law_true_colour_spellings(g.pen, 48, r, gr, b);
}

/// Two numbers in one sequence are two sequences, one after the other.
pub proof fn law_styles_add_up(g: GridModel, a: u16, b: u16)
    requires
        a != 38,
        a != 48,
        b != 38,
        b != 48,
    ensures
        g.apply(paired('m', a, b)) == g.apply(counted('m', a)).apply(counted('m', b)),
{
    let params = seq![seq![a], seq![b]];
    lemma_params(a, b);
    let p = super::model::sgr_simple(g.pen, a);
    let q = super::model::sgr_simple(p, b);
    lemma_one_style(g, a);
    lemma_one_style(g.apply(counted('m', a)), b);
    assert(super::model::sgr_step(g.pen, params, 0) == (p, 1int));
    assert(super::model::sgr_step(p, params, 1) == (q, 2int));
    assert(super::model::sgr_from(q, params, 2) == q);
    assert(super::model::sgr_from(p, params, 1) == q);
    assert(super::model::sgr_from(g.pen, params, 0) == q);
}

/// Modes without the question mark are none that the terminal knows: whatever is
/// switched, nothing changes.
pub proof fn law_public_modes_do_nothing(g: GridModel, params: Seq<Seq<u16>>, intermediates: Seq<u8>)
    requires
        intermediates.len() == 0 || intermediates[0] != 0x3f,
    ensures
        g.apply(VtAction::Csi { params, intermediates, action: 'h' }) == g,
        g.apply(VtAction::Csi { params, intermediates, action: 'l' }) == g,
{
    lemma_public_modes(g, params, 0, true);
    lemma_public_modes(g, params, 0, false);
}

proof fn lemma_public_modes(g: GridModel, params: Seq<Seq<u16>>, i: int, on: bool)
    requires
        0 <= i,
    ensures
        g.modes_set(false, params, i, on) == g,
    decreases params.len() - i,
{
    if i < params.len() {
        lemma_public_modes(g, params, i + 1, on);
    }
}

} // verus!
