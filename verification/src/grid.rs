//! The terminal emulator hiding inside every multiplexer.
//!
//! A pane cannot be a byte pipe. The moment a pane is hidden, resized or
//! focused again it has to be redrawn, and the only way to do that is to have
//! kept the screen it would have drawn. So each pane owns a [`Grid`]: a
//! rectangle of styled cells plus a cursor, changed by the escape sequences
//! that the child shell emits.
//!
//! The `vte` crate splits the byte stream into sequences (see [`crate::vt`]).
//! What each sequence does to the screen is stated in [`model`], on
//! mathematical sequences, and the operations here are proved to do exactly
//! that.
use std::collections::VecDeque;
use vstd::prelude::*;

pub mod dispatch;
pub mod edit;
pub mod effects;
pub mod laws;
pub mod model;

use self::model::{GridModel, ScreenModel};

verus! {

/// Fills the second column of a double-width character. Never painted: the
/// wide character before it already covers the space.
pub const WIDE_CONT: char = '\u{0}';

pub const A_BOLD: u8 = 1;

pub const A_DIM: u8 = 2;

pub const A_ITALIC: u8 = 4;

pub const A_UNDERLINE: u8 = 8;

pub const A_REVERSE: u8 = 16;

pub const A_STRIKE: u8 = 32;

/// How many lines of history a grid keeps.
pub const SCROLLBACK_LIMIT: usize = 2000;

#[derive(Clone, Copy, PartialEq, Eq, Debug, Structural)]
pub enum Color {
    Default,
    Indexed(u8),
    Rgb(u8, u8, u8),
}

#[derive(Clone, Copy, PartialEq, Eq, Debug, Structural)]
pub struct Cell {
    pub ch: char,
    pub fg: Color,
    pub bg: Color,
    pub attrs: u8,
}

/// The unstyled blank.
pub open spec fn plain_cell() -> Cell {
    Cell { ch: ' ', fg: Color::Default, bg: Color::Default, attrs: 0 }
}

impl Default for Cell {
    fn default() -> (c: Self)
        ensures
            c == plain_cell(),
    {
        Cell { ch: ' ', fg: Color::Default, bg: Color::Default, attrs: 0 }
    }
}

impl Cell {
    pub fn styled(ch: char, fg: Color, bg: Color, attrs: u8) -> (c: Self)
        ensures
            c == (Cell { ch, fg, bg, attrs }),
    {
        Cell { ch, fg, bg, attrs }
    }

    /// Colours and attributes agree; the glyph may differ.
    pub open spec fn styled_like(self, other: Cell) -> bool {
        self.fg == other.fg && self.bg == other.bg && self.attrs == other.attrs
    }

    /// True when at most the glyph differs from `other`, so that the renderer
    /// can keep its current style.
    pub fn same_style(&self, other: &Cell) -> (res: bool)
        ensures
            res == self.styled_like(*other),
    {
        self.fg == other.fg && self.bg == other.bg && self.attrs == other.attrs
    }
}

/// One screen buffer. A grid owns up to two of these: the normal screen and the
/// alternate screen that full-screen programs switch to.
struct Screen {
    rows: Vec<Vec<Cell>>,
    cursor_row: usize,
    cursor_col: usize,
}

/// The cells of a vector of rows.
pub open spec fn rows_of(rows: Seq<Vec<Cell>>) -> Seq<Seq<Cell>> {
    Seq::new(rows.len(), |i: int| rows[i]@)
}

impl Screen {
    spec fn model(self) -> ScreenModel {
        ScreenModel {
            rows: rows_of(self.rows@),
            cursor_row: self.cursor_row as int,
            cursor_col: self.cursor_col as int,
        }
    }
}

pub struct Grid {
    pub cols: usize,
    pub rows: usize,
    screen: Screen,
    /// The normal screen, put by while the alternate one is shown.
    alt: Option<Screen>,
    /// Current style. The `ch` field is unused.
    pen: Cell,
    saved_cursor: (usize, usize, Cell),
    scroll_top: usize,
    scroll_bot: usize,
    pub cursor_visible: bool,
    autowrap: bool,
    origin_mode: bool,
    /// Deferred wrap: after printing in the last column the cursor stays put
    /// and the next printable character wraps. Wrapping at once would scroll a
    /// line early on full-width output.
    wrap_pending: bool,
    tabs: Vec<bool>,
    pub title: String,
    /// Lines that scrolled off the top, oldest first.
    pub scrollback: VecDeque<Vec<Cell>>,
    /// Answers owed to the child: cursor position reports, device attributes. A
    /// program that asks and gets no answer will hang.
    reply: Vec<u8>,
}

impl View for Grid {
    type V = GridModel;

    closed spec fn view(&self) -> GridModel {
        GridModel {
            cols: self.cols as int,
            rows: self.rows as int,
            screen: self.screen.model(),
            alt: match self.alt {
                Some(s) => Some(s.model()),
                None => None,
            },
            pen: self.pen,
            saved: (self.saved_cursor.0 as int, self.saved_cursor.1 as int, self.saved_cursor.2),
            scroll_top: self.scroll_top as int,
            scroll_bot: self.scroll_bot as int,
            cursor_visible: self.cursor_visible,
            autowrap: self.autowrap,
            origin_mode: self.origin_mode,
            wrap_pending: self.wrap_pending,
            tabs: self.tabs@,
            title: self.title@,
            scrollback: rows_of(self.scrollback@),
            reply: self.reply@,
        }
    }
}

/// A row of `cols` copies of `cell`.
pub fn cell_row(cell: Cell, cols: usize) -> (row: Vec<Cell>)
    ensures
        row@ == model::line_of(cell, cols as int),
{
    let mut row: Vec<Cell> = Vec::new();
    let mut i: usize = 0;
    while i < cols
        invariant
            i <= cols,
            row@ == model::line_of(cell, i as int),
        decreases cols - i,
    {
        row.push(cell);
        i += 1;
        assert(row@ =~= model::line_of(cell, i as int));
    }
    row
}

fn cell_rows(cell: Cell, cols: usize, rows: usize) -> (out: Vec<Vec<Cell>>)
    ensures
        rows_of(out@) == model::uniform(cell, cols as int, rows as int),
{
    let mut out: Vec<Vec<Cell>> = Vec::new();
    let mut i: usize = 0;
    while i < rows
        invariant
            i <= rows,
            rows_of(out@) == model::uniform(cell, cols as int, i as int),
        decreases rows - i,
    {
        let ghost before = rows_of(out@);
        out.push(cell_row(cell, cols));
        assert(rows_of(out@) =~= before.push(model::line_of(cell, cols as int)));
        i += 1;
        assert(rows_of(out@) =~= model::uniform(cell, cols as int, i as int));
    }
    out
}

fn default_tabs(cols: usize) -> (tabs: Vec<bool>)
    ensures
        tabs@ == model::tab_stops(cols as int),
{
    let mut tabs: Vec<bool> = Vec::new();
    let mut c: usize = 0;
    while c < cols
        invariant
            c <= cols,
            tabs@ == model::tab_stops(c as int),
        decreases cols - c,
    {
        tabs.push(c % 8 == 0 && c != 0);
        c += 1;
        assert(tabs@ =~= model::tab_stops(c as int));
    }
    tabs
}

impl Grid {
    /// A blank grid. A size of zero is taken as one.
    pub fn new(cols: usize, rows: usize) -> (g: Self)
        ensures
            g@ == GridModel::fresh(model::at_least_one(cols as int), model::at_least_one(rows as int)),
            g@.wf(),
    {
        let cols = if cols == 0 { 1 } else { cols };
        let rows = if rows == 0 { 1 } else { rows };
        let g = Grid {
            cols,
            rows,
            screen: Screen { rows: cell_rows(Cell::default(), cols, rows), cursor_row: 0, cursor_col: 0 },
            alt: None,
            pen: Cell::default(),
            saved_cursor: (0, 0, Cell::default()),
            scroll_top: 0,
            scroll_bot: rows - 1,
            cursor_visible: true,
            autowrap: true,
            origin_mode: false,
            wrap_pending: false,
            tabs: default_tabs(cols),
            title: String::new(),
            scrollback: VecDeque::new(),
            reply: Vec::new(),
        };
        assert(g@ =~= GridModel::fresh(cols as int, rows as int));
        proof {
            model::lemma_fresh_wf(cols as int, rows as int);
        }
        g
    }

    /// Columns and rows.
    pub fn size(&self) -> (size: (usize, usize))
        ensures
            size.0 == self@.cols,
            size.1 == self@.rows,
    {
        (self.cols, self.rows)
    }

    /// The title that the child last set.
    pub fn title(&self) -> (title: &str)
        ensures
            title@ == self@.title,
    {
        self.title.as_str()
    }

    /// Whether the child wants its cursor shown.
    pub fn cursor_visible(&self) -> (shown: bool)
        ensures
            shown == self@.cursor_visible,
    {
        self.cursor_visible
    }

    /// How many lines of history there are.
    pub fn history(&self) -> (lines: usize)
        ensures
            lines == self@.scrollback.len(),
    {
        self.scrollback.len()
    }

    /// Row and column of the cursor, counted from zero.
    pub fn cursor(&self) -> (at: (usize, usize))
        ensures
            at.0 == self@.screen.cursor_row,
            at.1 == self@.screen.cursor_col,
    {
        (self.screen.cursor_row, self.screen.cursor_col)
    }

    /// The cells of one row of the screen.
    pub fn row(&self, r: usize) -> (cells: &[Cell])
        requires
            r < self@.screen.rows.len(),
        ensures
            cells@ == self@.screen.rows[r as int],
    {
        self.screen.rows[r].as_slice()
    }

    /// Hand over the answers owed to the child, and owe none.
    pub fn take_reply(&mut self) -> (owed: Vec<u8>)
        ensures
            owed@ == old(self)@.reply,
            final(self)@ == old(self)@.answered(),
    {
        let mut owed: Vec<u8> = Vec::new();
        std::mem::swap(&mut owed, &mut self.reply);
        assert(self@ =~= old(self)@.answered());
        owed
    }

    /// Whether the alternate screen is showing.
    pub fn on_alt_screen(&self) -> (on: bool)
        ensures
            on == (self@.alt is Some),
    {
        self.alt.is_some()
    }
}

} // verus!
