//! What the screen is, and what each sequence does to it, as mathematics.
use super::{
    plain_cell, Cell, Color, A_BOLD, A_DIM, A_ITALIC, A_REVERSE, A_STRIKE, A_UNDERLINE,
    SCROLLBACK_LIMIT, WIDE_CONT,
};
use crate::text::{decimal, trim};
use crate::utf8::utf8_lossy;
use crate::width::print_width;
use vstd::prelude::*;
use vstd::utf8::encode_utf8;

verus! {

// ---- building blocks ----------------------------------------------------------

pub open spec fn at_least_one(n: int) -> int {
    if n < 1 {
        1
    } else {
        n
    }
}

pub open spec fn lesser(a: int, b: int) -> int {
    if a <= b {
        a
    } else {
        b
    }
}

/// `n - k`, or zero where that would be negative.
pub open spec fn minus(n: int, k: int) -> int {
    if n < k {
        0
    } else {
        n - k
    }
}

/// `x` where it is below `n`, else the last place below `n`.
pub open spec fn clamp_below(x: int, n: int) -> int {
    if x < n {
        x
    } else {
        n - 1
    }
}

/// The items from `lo` to `hi`, both counted, move `n` places towards `lo`;
/// `fill` comes in at `hi`, and what is pushed out below `lo` is gone.
pub open spec fn slide_up<A>(s: Seq<A>, lo: int, hi: int, n: int, fill: A) -> Seq<A> {
    Seq::new(
        s.len(),
        |i: int|
            if lo <= i <= hi {
                if i + n <= hi {
                    s[i + n]
                } else {
                    fill
                }
            } else {
                s[i]
            },
    )
}

/// The items from `lo` to `hi`, both counted, move `n` places towards `hi`;
/// `fill` comes in at `lo`.
pub open spec fn slide_down<A>(s: Seq<A>, lo: int, hi: int, n: int, fill: A) -> Seq<A> {
    Seq::new(
        s.len(),
        |i: int|
            if lo <= i <= hi {
                if i - n >= lo {
                    s[i - n]
                } else {
                    fill
                }
            } else {
                s[i]
            },
    )
}

/// `s` with `fill` in the places from `from` up to, not counting, `to`.
pub open spec fn painted<A>(s: Seq<A>, from: int, to: int, fill: A) -> Seq<A> {
    Seq::new(
        s.len(),
        |i: int|
            if from <= i < to {
                fill
            } else {
                s[i]
            },
    )
}

/// The last `limit` items of `s`, or all of it where it is shorter.
pub open spec fn keep_last<A>(s: Seq<A>, limit: int) -> Seq<A> {
    if s.len() > limit {
        s.skip(s.len() - limit)
    } else {
        s
    }
}

/// `s` cut or filled up to `n` items.
pub open spec fn fitted<A>(s: Seq<A>, n: int, fill: A) -> Seq<A> {
    Seq::new(
        n as nat,
        |i: int|
            if i < s.len() {
                s[i]
            } else {
                fill
            },
    )
}

/// A line of one cell repeated.
pub open spec fn line_of(cell: Cell, cols: int) -> Seq<Cell> {
    Seq::new(cols as nat, |i: int| cell)
}

/// A rectangle of one cell repeated.
pub open spec fn uniform(cell: Cell, cols: int, rows: int) -> Seq<Seq<Cell>> {
    Seq::new(rows as nat, |i: int| line_of(cell, cols))
}

/// A tab stop in every eighth column but the first.
pub open spec fn tab_stops(cols: int) -> Seq<bool> {
    Seq::new(cols as nat, |c: int| c % 8 == 0 && c != 0)
}

// ---- screens ------------------------------------------------------------------

#[verifier::ext_equal]
pub struct ScreenModel {
    pub rows: Seq<Seq<Cell>>,
    pub cursor_row: int,
    pub cursor_col: int,
}

impl ScreenModel {
    /// Every row is `cols` wide, there are `rows` of them, and the cursor is on
    /// one of the cells.
    pub open spec fn wf(self, cols: int, rows: int) -> bool {
        &&& self.rows.len() == rows
        &&& forall|i: int| 0 <= i < rows ==> (#[trigger] self.rows[i]).len() == cols
        &&& 0 <= self.cursor_row < rows
        &&& 0 <= self.cursor_col < cols
    }

    pub open spec fn blank(cols: int, rows: int) -> ScreenModel {
        ScreenModel { rows: uniform(plain_cell(), cols, rows), cursor_row: 0, cursor_col: 0 }
    }

    /// The screen at another size. Lines are cut or padded, never wrapped
    /// again. A shorter screen loses lines from the top, so that the most
    /// recent output survives.
    pub open spec fn resized(self, cols: int, rows: int) -> ScreenModel {
        let wide = Seq::new(self.rows.len(), |i: int| fitted(self.rows[i], cols, plain_cell()));
        let dropped = minus(self.rows.len() as int, rows);
        ScreenModel {
            rows: fitted(wide.skip(dropped), rows, line_of(plain_cell(), cols)),
            cursor_row: clamp_below(minus(self.cursor_row, dropped), rows),
            cursor_col: clamp_below(self.cursor_col, cols),
        }
    }
}

// ---- the grid -----------------------------------------------------------------

#[verifier::ext_equal]
pub struct GridModel {
    pub cols: int,
    pub rows: int,
    pub screen: ScreenModel,
    /// The normal screen, while the alternate one is shown.
    pub alt: Option<ScreenModel>,
    pub pen: Cell,
    pub saved: (int, int, Cell),
    pub scroll_top: int,
    pub scroll_bot: int,
    pub cursor_visible: bool,
    pub autowrap: bool,
    pub origin_mode: bool,
    pub wrap_pending: bool,
    pub tabs: Seq<bool>,
    pub title: Seq<char>,
    pub scrollback: Seq<Seq<Cell>>,
    pub reply: Seq<u8>,
}

/// What the parser found in the byte stream.
#[verifier::ext_equal]
pub enum VtAction {
    Print(char),
    Execute(u8),
    Csi { params: Seq<Seq<u16>>, intermediates: Seq<u8>, action: char },
    Esc { intermediates: Seq<u8>, byte: u8 },
    Osc { fields: Seq<Seq<u8>> },
}

impl GridModel {
    /// The invariant of a grid, kept by every operation.
    pub open spec fn wf(self) -> bool {
        &&& self.cols >= 1
        &&& self.rows >= 1
        &&& self.screen.wf(self.cols, self.rows)
        &&& self.alt matches Some(s) ==> s.wf(self.cols, self.rows)
        &&& 0 <= self.scroll_top <= self.scroll_bot < self.rows
        &&& self.tabs.len() == self.cols
        &&& self.scrollback.len() <= SCROLLBACK_LIMIT
        &&& self.saved.0 >= 0
        &&& self.saved.1 >= 0
    }

    pub open spec fn fresh(cols: int, rows: int) -> GridModel {
        GridModel {
            cols,
            rows,
            screen: ScreenModel::blank(cols, rows),
            alt: None,
            pen: plain_cell(),
            saved: (0, 0, plain_cell()),
            scroll_top: 0,
            scroll_bot: rows - 1,
            cursor_visible: true,
            autowrap: true,
            origin_mode: false,
            wrap_pending: false,
            tabs: tab_stops(cols),
            title: Seq::empty(),
            scrollback: Seq::empty(),
            reply: Seq::empty(),
        }
    }

    /// The grid at another size. A size that changes nothing leaves all as it
    /// is; any other resets the scroll region and the tab stops.
    pub open spec fn resized(self, cols: int, rows: int) -> GridModel {
        if cols == self.cols && rows == self.rows {
            self
        } else {
            GridModel {
                cols,
                rows,
                screen: self.screen.resized(cols, rows),
                alt: match self.alt {
                    Some(s) => Some(s.resized(cols, rows)),
                    None => None,
                },
                scroll_top: 0,
                scroll_bot: rows - 1,
                tabs: tab_stops(cols),
                wrap_pending: false,
                ..self
            }
        }
    }

    /// What erasing leaves behind: the current background, which is how a
    /// program paints a coloured region.
    pub open spec fn blank(self) -> Cell {
        Cell { ch: ' ', fg: Color::Default, bg: self.pen.bg, attrs: 0 }
    }

    // ---- cursor -----------------------------------------------------------------

    /// The cursor put down without any clamping, a pending wrap kept.
    pub open spec fn with_cursor(self, row: int, col: int) -> GridModel {
        GridModel {
            screen: ScreenModel { cursor_row: row, cursor_col: col, ..self.screen },
            ..self
        }
    }

    pub open spec fn unwrapped(self) -> GridModel {
        GridModel { wrap_pending: false, ..self }
    }

    /// The cursor moved to `row`, `col`, or to the nearest cell on the screen.
    pub open spec fn moved_to(self, row: int, col: int) -> GridModel {
        self.with_cursor(clamp_below(row, self.rows), clamp_below(col, self.cols)).unwrapped()
    }

    /// The cursor moved by `dr` rows and `dc` columns, as far as the screen goes.
    pub open spec fn moved_by(self, dr: int, dc: int) -> GridModel {
        let r = self.screen.cursor_row + dr;
        let c = self.screen.cursor_col + dc;
        self.moved_to(
            if r < 0 {
                0
            } else {
                r
            },
            if c < 0 {
                0
            } else {
                c
            },
        )
    }

    pub open spec fn carriage_return(self) -> GridModel {
        self.with_cursor(self.screen.cursor_row, 0).unwrapped()
    }

    /// Down one line, scrolling the region where the cursor is at its bottom.
    pub open spec fn line_feed(self) -> GridModel {
        if self.screen.cursor_row == self.scroll_bot {
            self.scrolled_up(1).unwrapped()
        } else if self.screen.cursor_row + 1 < self.rows {
            self.with_cursor(self.screen.cursor_row + 1, self.screen.cursor_col).unwrapped()
        } else {
            self.unwrapped()
        }
    }

    pub open spec fn next_line(self) -> GridModel {
        self.carriage_return().line_feed()
    }

    /// Up one line, scrolling the region where the cursor is at its top.
    pub open spec fn reverse_index(self) -> GridModel {
        if self.screen.cursor_row == self.scroll_top {
            self.scrolled_down(1).unwrapped()
        } else if self.screen.cursor_row > 0 {
            self.with_cursor(self.screen.cursor_row - 1, self.screen.cursor_col).unwrapped()
        } else {
            self.unwrapped()
        }
    }

    /// The first tab stop from column `c` on, or the width where there is none.
    pub open spec fn next_stop(self, c: int) -> int
        decreases self.cols - c,
    {
        if c >= self.cols || self.tabs[c] {
            c
        } else {
            self.next_stop(c + 1)
        }
    }

    pub open spec fn tabbed(self) -> GridModel {
        self.with_cursor(
            self.screen.cursor_row,
            clamp_below(self.next_stop(self.screen.cursor_col + 1), self.cols),
        ).unwrapped()
    }

    pub open spec fn backspaced(self) -> GridModel {
        self.with_cursor(self.screen.cursor_row, minus(self.screen.cursor_col, 1)).unwrapped()
    }

    // ---- scrolling --------------------------------------------------------------

    pub open spec fn with_rows(self, rows: Seq<Seq<Cell>>) -> GridModel {
        GridModel { screen: ScreenModel { rows, ..self.screen }, ..self }
    }

    pub open spec fn blank_line(self) -> Seq<Cell> {
        line_of(self.blank(), self.cols)
    }

    /// The lines that scrolling up `n` times pushes off the top of the region.
    pub open spec fn evicted(self, n: int) -> Seq<Seq<Cell>> {
        Seq::new(
            n as nat,
            |i: int|
                if self.scroll_top + i <= self.scroll_bot {
                    self.screen.rows[self.scroll_top + i]
                } else {
                    self.blank_line()
                },
        )
    }

    /// Only the normal screen gathers history, and only while the region starts
    /// at the top: a region further down is a program animating, not output
    /// flowing past.
    pub open spec fn gathers_history(self) -> bool {
        self.alt is None && self.scroll_top == 0
    }

    pub open spec fn scrolled_up(self, n: int) -> GridModel {
        GridModel {
            scrollback: if self.gathers_history() {
                keep_last(self.scrollback + self.evicted(n), SCROLLBACK_LIMIT as int)
            } else {
                self.scrollback
            },
            ..self.with_rows(
                slide_up(self.screen.rows, self.scroll_top, self.scroll_bot, n, self.blank_line()),
            )
        }
    }

    pub open spec fn scrolled_down(self, n: int) -> GridModel {
        self.with_rows(
            slide_down(self.screen.rows, self.scroll_top, self.scroll_bot, n, self.blank_line()),
        )
    }

    pub open spec fn cursor_in_region(self) -> bool {
        self.scroll_top <= self.screen.cursor_row <= self.scroll_bot
    }

    pub open spec fn lines_inserted(self, n: int) -> GridModel {
        if self.cursor_in_region() {
            self.with_rows(
                slide_down(
                    self.screen.rows,
                    self.screen.cursor_row,
                    self.scroll_bot,
                    n,
                    self.blank_line(),
                ),
            )
        } else {
            self
        }
    }

    pub open spec fn lines_deleted(self, n: int) -> GridModel {
        if self.cursor_in_region() {
            self.with_rows(
                slide_up(
                    self.screen.rows,
                    self.screen.cursor_row,
                    self.scroll_bot,
                    n,
                    self.blank_line(),
                ),
            )
        } else {
            self
        }
    }

    // ---- erasing and editing ----------------------------------------------------

    /// The row the cursor is on.
    pub open spec fn here(self) -> Seq<Cell> {
        self.screen.rows[self.screen.cursor_row]
    }

    pub open spec fn with_row(self, line: Seq<Cell>) -> GridModel {
        self.with_rows(self.screen.rows.update(self.screen.cursor_row, line))
    }

    /// EL: to the end of the line, to its start, or the whole of it.
    pub open spec fn line_erased(self, mode: int) -> GridModel {
        let c = self.screen.cursor_col;
        if mode == 0 {
            self.with_row(painted(self.here(), c, self.cols, self.blank()))
        } else if mode == 1 {
            self.with_row(painted(self.here(), 0, c + 1, self.blank()))
        } else if mode == 2 {
            self.with_row(self.blank_line())
        } else {
            self
        }
    }

    /// ED: from the cursor on, up to the cursor, or the whole screen; mode 3
    /// clears the history too.
    pub open spec fn display_erased(self, mode: int) -> GridModel {
        let r = self.screen.cursor_row;
        let rows = self.screen.rows;
        if mode == 0 {
            self.with_rows(
                painted(self.line_erased(0).screen.rows, r + 1, self.rows, self.blank_line()),
            )
        } else if mode == 1 {
            self.with_rows(painted(self.line_erased(1).screen.rows, 0, r, self.blank_line()))
        } else if mode == 2 {
            self.with_rows(uniform(self.blank(), self.cols, self.rows))
        } else if mode == 3 {
            GridModel {
                scrollback: Seq::empty(),
                ..self.with_rows(uniform(self.blank(), self.cols, self.rows))
            }
        } else {
            self
        }
    }

    pub open spec fn chars_inserted(self, n: int) -> GridModel {
        self.with_row(
            slide_down(self.here(), self.screen.cursor_col, self.cols - 1, n, self.blank()),
        )
    }

    pub open spec fn chars_deleted(self, n: int) -> GridModel {
        self.with_row(
            slide_up(self.here(), self.screen.cursor_col, self.cols - 1, n, self.blank()),
        )
    }

    pub open spec fn chars_erased(self, n: int) -> GridModel {
        let c = self.screen.cursor_col;
        self.with_row(painted(self.here(), c, c + n, self.blank()))
    }

    // ---- modes ------------------------------------------------------------------

    pub open spec fn alt_entered(self) -> GridModel {
        if self.alt is Some {
            self
        } else {
            GridModel {
                alt: Some(self.screen),
                screen: ScreenModel::blank(self.cols, self.rows),
                ..self
            }
        }
    }

    pub open spec fn alt_left(self) -> GridModel {
        match self.alt {
            Some(normal) => GridModel { alt: None, screen: normal, ..self },
            None => self,
        }
    }

    pub open spec fn cursor_saved(self) -> GridModel {
        GridModel { saved: (self.screen.cursor_row, self.screen.cursor_col, self.pen), ..self }
    }

    pub open spec fn cursor_restored(self) -> GridModel {
        (GridModel { pen: self.saved.2, ..self }).moved_to(self.saved.0, self.saved.1)
    }

    /// A private mode switched on or off. Modes that are not private are
    /// ignored, and so is any number not listed.
    pub open spec fn mode_set(self, private: bool, mode: u16, on: bool) -> GridModel {
        if !private {
            self
        } else if mode == 6 {
            (GridModel { origin_mode: on, ..self }).moved_to(
                if on {
                    self.scroll_top
                } else {
                    0
                },
                0,
            )
        } else if mode == 7 {
            GridModel { autowrap: on, ..self }
        } else if mode == 25 {
            GridModel { cursor_visible: on, ..self }
        } else if mode == 1047 {
            if on {
                self.alt_entered()
            } else {
                self.alt_left()
            }
        } else if mode == 1049 {
            if on {
                self.cursor_saved().alt_entered()
            } else {
                self.alt_left().cursor_restored()
            }
        } else {
            self
        }
    }

    /// The modes named by the parameters from the `i`-th on, one after another.
    pub open spec fn modes_set(
        self,
        private: bool,
        params: Seq<Seq<u16>>,
        i: int,
        on: bool,
    ) -> GridModel
        decreases params.len() - i,
    {
        if i >= params.len() {
            self
        } else if params[i].len() > 0 {
            self.mode_set(private, params[i][0], on).modes_set(private, params, i + 1, on)
        } else {
            self.modes_set(private, params, i + 1, on)
        }
    }

    // ---- printing ---------------------------------------------------------------

    /// The current style on another glyph.
    pub open spec fn inked(self, c: char) -> Cell {
        Cell { ch: c, ..self.pen }
    }

    /// `c`, of width `w`, put down at the cursor, which steps past it. At the
    /// right margin the cursor stays in the last column and the wrap is left
    /// pending.
    pub open spec fn placed(self, c: char, w: int) -> GridModel {
        let col = self.screen.cursor_col;
        let first = self.here().update(col, self.inked(c));
        let line = if w == 2 && col + 1 < self.cols {
            first.update(col + 1, self.inked(WIDE_CONT))
        } else {
            first
        };
        let g = self.with_row(line);
        if col + w >= self.cols {
            GridModel {
                wrap_pending: self.autowrap,
                ..g.with_cursor(g.screen.cursor_row, self.cols - 1)
            }
        } else {
            g.with_cursor(g.screen.cursor_row, col + w)
        }
    }

    /// Whether a glyph of width `w` can be printed at all: with wrapping off, one
    /// wider than the whole screen has nowhere to go.
    pub open spec fn has_room(self, w: int) -> bool {
        self.autowrap || w <= self.cols
    }

    /// Whether `c` can be printed at all.
    pub open spec fn fits(self, c: char) -> bool {
        self.has_room(print_width(c) as int)
    }

    /// A printable character of its own width.
    pub open spec fn printed(self, c: char) -> GridModel {
        self.printed_as(c, print_width(c) as int)
    }

    /// A printable character of width `w`. A pending wrap happens first; a glyph
    /// that would stick out wraps, or with wrapping off is pulled back to the
    /// margin. A character without width is dropped.
    pub open spec fn printed_as(self, c: char, w: int) -> GridModel {
        if w == 0 {
            self
        } else {
            let g = if self.wrap_pending {
                self.next_line()
            } else {
                self
            };
            let h = if g.screen.cursor_col + w > g.cols {
                if g.autowrap {
                    g.next_line()
                } else {
                    g.with_cursor(g.screen.cursor_row, g.cols - w)
                }
            } else {
                g
            };
            h.placed(c, w)
        }
    }

    /// A control character.
    pub open spec fn executed(self, byte: u8) -> GridModel {
        if byte == 0x08 {
            self.backspaced()
        } else if byte == 0x09 {
            self.tabbed()
        } else if byte == 0x0a || byte == 0x0b || byte == 0x0c {
            self.line_feed()
        } else if byte == 0x0d {
            self.carriage_return()
        } else {
            self
        }
    }

    // ---- control sequences ------------------------------------------------------

    /// The region set to the lines from `top` to `bot`, where that is a region.
    pub open spec fn region_set(self, top: int, bot: int) -> GridModel {
        if top < bot && bot < self.rows {
            (GridModel { scroll_top: top, scroll_bot: bot, ..self }).moved_to(
                if self.origin_mode {
                    top
                } else {
                    0
                },
                0,
            )
        } else {
            self
        }
    }

    /// The cursor addressed from the top left, or from the top of the region in
    /// origin mode.
    pub open spec fn addressed(self, row: int, col: int) -> GridModel {
        self.moved_to(
            if self.origin_mode {
                row + self.scroll_top
            } else {
                row
            },
            col,
        )
    }

    pub open spec fn replied(self, answer: Seq<u8>) -> GridModel {
        GridModel { reply: self.reply + answer, ..self }
    }

    pub open spec fn tabs_cleared(self, which: u16) -> GridModel {
        GridModel {
            tabs: if which == 3 {
                Seq::new(self.tabs.len(), |c: int| false)
            } else {
                self.tabs.update(self.screen.cursor_col, false)
            },
            ..self
        }
    }

    /// A CSI sequence, by its final character.
    pub open spec fn csi(
        self,
        params: Seq<Seq<u16>>,
        intermediates: Seq<u8>,
        action: char,
    ) -> GridModel {
        let n = arg(params, 0, 1) as int;
        let private = intermediates.len() > 0 && intermediates[0] == 0x3f;
        match action {
            'A' => self.moved_by(-n, 0),
            'B' | 'e' => self.moved_by(n, 0),
            'C' | 'a' => self.moved_by(0, n),
            'D' => self.moved_by(0, -n),
            'E' => self.moved_by(n, 0).carriage_return(),
            'F' => self.moved_by(-n, 0).carriage_return(),
            'G' | '`' => self.moved_to(self.screen.cursor_row, n - 1),
            'd' => self.moved_to(n - 1, self.screen.cursor_col),
            'H' | 'f' => self.addressed(n - 1, arg(params, 1, 1) - 1),
            'J' => self.display_erased(mode_arg(params) as int),
            'K' => self.line_erased(mode_arg(params) as int),
            'L' => self.lines_inserted(n),
            'M' => self.lines_deleted(n),
            'P' => self.chars_deleted(n),
            '@' => self.chars_inserted(n),
            'X' => self.chars_erased(n),
            'S' => self.scrolled_up(n),
            'T' => self.scrolled_down(n),
            'm' => GridModel { pen: sgr(self.pen, params), ..self },
            'r' => self.region_set(n - 1, minus(arg(params, 1, self.rows as u16) as int, 1)),
            'h' => self.modes_set(private, params, 0, true),
            'l' => self.modes_set(private, params, 0, false),
            's' => self.cursor_saved(),
            'u' => self.cursor_restored(),
            'n' => if arg(params, 0, 0) == 6 {
                self.replied(
                    cursor_report(self.screen.cursor_row + 1, self.screen.cursor_col + 1),
                )
            } else {
                self
            },
            'c' => self.replied(device_attributes()),
            'g' => self.tabs_cleared(arg(params, 0, 0)),
            _ => self,
        }
    }

    /// An escape sequence without parameters. One with intermediates selects a
    /// character set or the like, and is ignored.
    pub open spec fn esc(self, intermediates: Seq<u8>, byte: u8) -> GridModel {
        if intermediates.len() > 0 {
            self
        } else if byte == 0x44 {
            self.line_feed()
        } else if byte == 0x45 {
            self.next_line()
        } else if byte == 0x4d {
            self.reverse_index()
        } else if byte == 0x48 {
            GridModel { tabs: self.tabs.update(self.screen.cursor_col, true), ..self }
        } else if byte == 0x37 {
            self.cursor_saved()
        } else if byte == 0x38 {
            self.cursor_restored()
        } else if byte == 0x63 {
            GridModel::fresh(self.cols, self.rows)
        } else {
            self
        }
    }

    /// An operating system command. Numbers 0 and 2 set the title.
    pub open spec fn osc(self, fields: Seq<Seq<u8>>) -> GridModel {
        if fields.len() >= 2 && is_title(fields[0]) {
            GridModel { title: trim(utf8_lossy(fields[1])), ..self }
        } else {
            self
        }
    }

    // ---- streams ----------------------------------------------------------------

    pub open spec fn apply(self, a: VtAction) -> GridModel {
        match a {
            VtAction::Print(c) => self.printed(c),
            VtAction::Execute(byte) => self.executed(byte),
            VtAction::Csi { params, intermediates, action } => self.csi(
                params,
                intermediates,
                action,
            ),
            VtAction::Esc { intermediates, byte } => self.esc(intermediates, byte),
            VtAction::Osc { fields } => self.osc(fields),
        }
    }

    pub open spec fn accepts(self, a: VtAction) -> bool {
        a matches VtAction::Print(c) ==> self.fits(c)
    }

    /// The grid after the first `n` of `actions`.
    pub open spec fn after(self, actions: Seq<VtAction>, n: int) -> GridModel
        decreases n,
    {
        if n <= 0 {
            self
        } else {
            self.after(actions, n - 1).apply(actions[n - 1])
        }
    }

    /// None of the first `n` of `actions` is one that does not fit.
    pub open spec fn accepts_all(self, actions: Seq<VtAction>, n: int) -> bool {
        forall|i: int| 0 <= i < n ==> (#[trigger] self.after(actions, i)).accepts(actions[i])
    }

    /// The place of the first action from the `i`-th on that does not fit, or
    /// their number where all fit.
    pub open spec fn stops_at(self, actions: Seq<VtAction>, i: int) -> int
        decreases actions.len() - i,
    {
        if i >= actions.len() {
            actions.len() as int
        } else if self.after(actions, i).accepts(actions[i]) {
            self.stops_at(actions, i + 1)
        } else {
            i
        }
    }

    /// All of `actions` fit, one after the other.
    pub open spec fn takes(self, actions: Seq<VtAction>) -> bool {
        self.stops_at(actions, 0) == actions.len()
    }

    /// The grid after `actions`, up to the first that does not fit.
    pub open spec fn fed(self, actions: Seq<VtAction>) -> GridModel {
        self.after(actions, self.stops_at(actions, 0))
    }

    /// The grid once the answers that it owes have been handed over.
    pub open spec fn answered(self) -> GridModel {
        GridModel { reply: Seq::empty(), ..self }
    }
}

/// The number of an operating system command that sets the title: 0 or 2.
pub open spec fn is_title(kind: Seq<u8>) -> bool {
    kind == seq![0x30u8] || kind == seq![0x32u8]
}

/// The first number of the parameter at `idx`; where it is missing or zero,
/// `default`, since `CSI A` and `CSI 1 A` mean the same.
pub open spec fn arg(params: Seq<Seq<u16>>, idx: int, default: u16) -> u16 {
    if idx < params.len() && params[idx].len() > 0 && params[idx][0] != 0 {
        params[idx][0]
    } else {
        default
    }
}

/// The first number of the first parameter, or zero.
pub open spec fn mode_arg(params: Seq<Seq<u16>>) -> u16 {
    arg(params, 0, 0)
}

/// `ESC [ row ; col R`
pub open spec fn cursor_report(row: int, col: int) -> Seq<u8> {
    encode_utf8("\x1b["@ + decimal(row as nat) + ";"@ + decimal(col as nat) + "R"@)
}

/// `ESC [ ? 6 c`: the claim to be a VT102.
pub open spec fn device_attributes() -> Seq<u8> {
    encode_utf8("\x1b[?6c"@)
}

// ---- select graphic rendition ---------------------------------------------------

/// `5;n` is an indexed colour, `2;r;g;b` a true one; with it comes how many
/// numbers it used up. Numbers above 255 lose their high byte.
pub open spec fn extended_color(rest: Seq<u16>) -> Option<(Color, int)> {
    if rest.len() >= 2 && rest[0] == 5 {
        Some((Color::Indexed(rest[1] as u8), 2))
    } else if rest.len() >= 4 && rest[0] == 2 {
        Some((Color::Rgb(rest[1] as u8, rest[2] as u8, rest[3] as u8), 4))
    } else {
        None
    }
}

/// The first number of each parameter from the `i`-th on that has one.
pub open spec fn firsts(params: Seq<Seq<u16>>, i: int) -> Seq<u16>
    decreases params.len() - i,
{
    if i >= params.len() {
        Seq::empty()
    } else if params[i].len() > 0 {
        seq![params[i][0]] + firsts(params, i + 1)
    } else {
        firsts(params, i + 1)
    }
}

/// A number that stands for a whole style change by itself.
pub open spec fn sgr_simple(pen: Cell, p: u16) -> Cell {
    if p == 0 {
        plain_cell()
    } else if p == 1 {
        Cell { attrs: pen.attrs | A_BOLD, ..pen }
    } else if p == 2 {
        Cell { attrs: pen.attrs | A_DIM, ..pen }
    } else if p == 3 {
        Cell { attrs: pen.attrs | A_ITALIC, ..pen }
    } else if p == 4 {
        Cell { attrs: pen.attrs | A_UNDERLINE, ..pen }
    } else if p == 7 {
        Cell { attrs: pen.attrs | A_REVERSE, ..pen }
    } else if p == 9 {
        Cell { attrs: pen.attrs | A_STRIKE, ..pen }
    } else if p == 22 {
        Cell { attrs: pen.attrs & !(A_BOLD | A_DIM), ..pen }
    } else if p == 23 {
        Cell { attrs: pen.attrs & !A_ITALIC, ..pen }
    } else if p == 24 {
        Cell { attrs: pen.attrs & !A_UNDERLINE, ..pen }
    } else if p == 27 {
        Cell { attrs: pen.attrs & !A_REVERSE, ..pen }
    } else if p == 29 {
        Cell { attrs: pen.attrs & !A_STRIKE, ..pen }
    } else if 30 <= p <= 37 {
        Cell { fg: Color::Indexed((p - 30) as u8), ..pen }
    } else if p == 39 {
        Cell { fg: Color::Default, ..pen }
    } else if 40 <= p <= 47 {
        Cell { bg: Color::Indexed((p - 40) as u8), ..pen }
    } else if p == 49 {
        Cell { bg: Color::Default, ..pen }
    } else if 90 <= p <= 97 {
        Cell { fg: Color::Indexed((p - 90 + 8) as u8), ..pen }
    } else if 100 <= p <= 107 {
        Cell { bg: Color::Indexed((p - 100 + 8) as u8), ..pen }
    } else {
        pen
    }
}

pub open spec fn with_color(pen: Cell, p: u16, color: Color) -> Cell {
    if p == 38 {
        Cell { fg: color, ..pen }
    } else {
        Cell { bg: color, ..pen }
    }
}

/// The pen after the parameter at `i`, and where the next one stands. A colour
/// comes in two spellings: `38;5;n` spreads over separate parameters, `38:5:n`
/// is one parameter with sub-parameters.
pub open spec fn sgr_step(pen: Cell, params: Seq<Seq<u16>>, i: int) -> (Cell, int) {
    let g = params[i];
    let p = if g.len() > 0 {
        g[0]
    } else {
        0
    };
    if p == 38 || p == 48 {
        if g.len() > 1 {
            match extended_color(g.skip(1)) {
                Some((color, _)) => (with_color(pen, p, color), i + 1),
                None => (pen, i + 1),
            }
        } else {
            match extended_color(firsts(params, i + 1)) {
                Some((color, used)) => (with_color(pen, p, color), i + used + 1),
                None => (pen, i + 1),
            }
        }
    } else {
        (sgr_simple(pen, p), i + 1)
    }
}

/// The pen after the parameters from the `i`-th on.
pub open spec fn sgr_from(pen: Cell, params: Seq<Seq<u16>>, i: int) -> Cell
    decreases minus(params.len() as int, i),
{
    if i >= params.len() {
        pen
    } else {
        let (p, next) = sgr_step(pen, params, i);
        if next <= i {
            p
        } else {
            sgr_from(p, params, next)
        }
    }
}

/// The pen after a whole `m` sequence; one without parameters resets it.
pub open spec fn sgr(pen: Cell, params: Seq<Seq<u16>>) -> Cell {
    if params.len() == 0 {
        plain_cell()
    } else {
        sgr_from(pen, params, 0)
    }
}

// ---- first facts ----------------------------------------------------------------

pub proof fn lemma_fresh_wf(cols: int, rows: int)
    requires
        cols >= 1,
        rows >= 1,
    ensures
        GridModel::fresh(cols, rows).wf(),
{
}

} // verus!
