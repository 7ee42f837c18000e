//! The frame: chrome around the active pane.
use super::{lemma_place, one_each, Frame, FrameModel};
use crate::grid::model::{lesser, minus};
use crate::grid::{cell_row, plain_cell, Cell, Color, A_BOLD, WIDE_CONT};
use crate::layout::{Layout, Rect};
use crate::pane::Pane;
use crate::text::{copy_text, decimal, push_decimal, to_chars};
use crate::width::{columns_of, print_width, printable_ascii};
use vstd::prelude::*;

verus! {

// Palette indices rather than true colours, so that the chrome looks right in a
// console that was not told about 24-bit sequences.
pub const RAIL_BG: u8 = 235;

pub const RAIL_FG: u8 = 245;

pub const RAIL_HEAD_FG: u8 = 109;

pub const ACTIVE_BG: u8 = 24;

pub const ACTIVE_FG: u8 = 255;

pub const DEAD_FG: u8 = 240;

pub const NEW_FG: u8 = 114;

pub const DIVIDER_FG: u8 = 238;

pub const STATUS_BG: u8 = 236;

pub const STATUS_FG: u8 = 247;

pub const STATUS_KEY_FG: u8 = 180;

pub const PENDING_FG: u8 = 232;

pub const PENDING_BG: u8 = 180;

/// How many columns must be left for another key hint to be worth starting.
pub const HINT_ROOM: u16 = 12;

/// A blank in one background.
pub open spec fn wash(bg: Color) -> Cell {
    Cell { ch: ' ', fg: Color::Default, bg, attrs: 0 }
}

/// The style that text is written in; the glyph does not matter.
pub open spec fn ink(fg: Color, bg: Color, attrs: u8) -> Cell {
    Cell { ch: ' ', fg, bg, attrs }
}

impl FrameModel {
    pub open spec fn blank(cols: int, rows: int) -> FrameModel {
        FrameModel {
            cols,
            rows,
            cells: Seq::new((cols * rows) as nat, |i: int| plain_cell()),
            cursor: None,
        }
    }

    /// One cell changed, where it is on the screen.
    pub open spec fn put(self, x: int, y: int, cell: Cell) -> FrameModel {
        if x < self.cols && y < self.rows {
            FrameModel { cells: self.cells.update(self.place(x, y), cell), ..self }
        } else {
            self
        }
    }

    /// Place `i` lies in the rectangle.
    pub open spec fn inside(self, i: int, x: int, y: int, w: int, h: int) -> bool {
        x <= i % self.cols < x + w && y <= i / self.cols < y + h
    }

    /// A rectangle, as far as it is on the screen, filled with one cell.
    pub open spec fn boxed(self, x: int, y: int, w: int, h: int, cell: Cell) -> FrameModel {
        FrameModel {
            cells: Seq::new(
                self.cells.len(),
                |i: int|
                    if self.inside(i, x, y, w, h) {
                        cell
                    } else {
                        self.cells[i]
                    },
            ),
            ..self
        }
    }

    /// The top left corner of a grid, `w` by `h` cells of it, put down at `x`, `y`.
    pub open spec fn pasted(
        self,
        lines: Seq<Seq<Cell>>,
        x: int,
        y: int,
        w: int,
        h: int,
    ) -> FrameModel {
        FrameModel {
            cells: Seq::new(
                self.cells.len(),
                |i: int|
                    if self.inside(i, x, y, w, h) {
                        lines[i / self.cols - y][i % self.cols - x]
                    } else {
                        self.cells[i]
                    },
            ),
            ..self
        }
    }

    /// One glyph of text, `w` columns wide.
    pub open spec fn glyph(self, x: int, y: int, ch: char, w: int, style: Cell) -> FrameModel {
        let first = self.put(x, y, Cell { ch, ..style });
        if w == 2 {
            first.put(x + 1, y, Cell { ch: WIDE_CONT, ..style })
        } else {
            first
        }
    }

    /// The characters of `s` from the `k`-th on, which take `widths` columns each,
    /// put down from column `x` up to `limit`, and the column after the last of
    /// them. A glyph that would cross the limit ends the text; one without width
    /// is left out.
    pub open spec fn text_from(
        self,
        x: int,
        y: int,
        limit: int,
        s: Seq<char>,
        widths: Seq<usize>,
        k: int,
        style: Cell,
    ) -> (FrameModel, int)
        decreases s.len() - k,
    {
        if k >= s.len() {
            (self, x)
        } else {
            let w = widths[k] as int;
            if w == 0 {
                self.text_from(x, y, limit, s, widths, k + 1, style)
            } else if x + w > limit {
                (self, x)
            } else {
                self.glyph(x, y, s[k], w, style).text_from(
                    x + w,
                    y,
                    limit,
                    s,
                    widths,
                    k + 1,
                    style,
                )
            }
        }
    }

    /// `s`, whose characters take `widths` columns each, put down at `x`, `y` in at
    /// most `max_w` columns.
    pub open spec fn text_as(
        self,
        x: int,
        y: int,
        max_w: int,
        s: Seq<char>,
        widths: Seq<usize>,
        style: Cell,
    ) -> (FrameModel, int) {
        self.text_from(x, y, lesser(x + max_w, self.cols), s, widths, 0, style)
    }

    /// `s` put down at `x`, `y` in at most `max_w` columns.
    pub open spec fn text(
        self,
        x: int,
        y: int,
        max_w: int,
        s: Seq<char>,
        style: Cell,
    ) -> (FrameModel, int) {
        self.text_as(x, y, max_w, s, widths_of(s), style)
    }
}

/// The columns that each character of `s` takes.
pub open spec fn widths_of(s: Seq<char>) -> Seq<usize> {
    Seq::new(s.len(), |i: int| print_width(s[i]) as usize)
}

fn measure(s: &str) -> (widths: Vec<usize>)
    ensures
        widths@ == widths_of(s@),
        forall|i: int| 0 <= i < widths@.len() ==> #[trigger] widths@[i] <= 3,
        forall|i: int|
            0 <= i < widths@.len() && printable_ascii(s@[i]) ==> #[trigger] widths@[i] == 1,
{
    let v = to_chars(s);
    let mut widths: Vec<usize> = Vec::new();
    let mut i: usize = 0;
    while i < v.len()
        invariant
            i <= v@.len(),
            v@ == s@,
            widths@.len() == i,
            forall|k: int|
                0 <= k < i ==> #[trigger] widths@[k] == print_width(s@[k]) && widths@[k] <= 3 && (
                printable_ascii(s@[k]) ==> widths@[k] == 1),
        decreases v@.len() - i,
    {
        widths.push(columns_of(v[i]));
        i += 1;
    }
    assert(widths@ =~= widths_of(s@));
    widths
}

/// The cell at column `x`, row `y` is the only one in that column and row.
pub(crate) proof fn lemma_column_and_row(cols: int, i: int, x: int, y: int)
    requires
        0 <= x < cols,
        0 <= i,
    ensures
        i == y * cols + x <==> i % cols == x && i / cols == y,
{
    if i == y * cols + x {
        vstd::arithmetic::div_mod::lemma_fundamental_div_mod_converse(i, cols, y, x);
    }
    if i % cols == x && i / cols == y {
        vstd::arithmetic::div_mod::lemma_fundamental_div_mod(i, cols);
        assert(cols * y == y * cols) by (nonlinear_arith);
    }
}

impl Frame {
    /// A blank frame.
    pub fn new(cols: u16, rows: u16) -> (f: Self)
        ensures
            f@ == FrameModel::blank(cols as int, rows as int),
            f@.wf(),
    {
        assert(cols * rows <= 0xffff * 0xffff) by (nonlinear_arith)
            requires
                0 <= cols <= 0xffff,
                0 <= rows <= 0xffff,
        ;
        assert(0 <= cols * rows) by (nonlinear_arith)
            requires
                0 <= cols,
                0 <= rows,
        ;
        let n: usize = cols as usize * rows as usize;
        let f = Frame { cols, rows, cells: cell_row(Cell::default(), n), cursor: None };
        assert(f@ =~= FrameModel::blank(cols as int, rows as int));
        f
    }

    /// Change one cell, where it is on the screen.
    pub fn put(&mut self, x: u16, y: u16, cell: Cell)
        requires
            old(self)@.wf(),
        ensures
            final(self)@ == old(self)@.put(x as int, y as int, cell),
            final(self)@.wf(),
    {
        if x < self.cols && y < self.rows {
            proof {
                lemma_place(self@, x as int, y as int);
                lemma_place(self@, 0, y as int);
            }
            let n: usize = self.cells.len();
            let i: usize = y as usize * self.cols as usize + x as usize;
            self.cells.set(i, cell);
            assert(self@ =~= old(self)@.put(x as int, y as int, cell));
        }
    }

    /// Write `s` at (`x`, `y`), clipped to `max_w` columns, and give the column
    /// after the last glyph.
    pub fn text(&mut self, x: u16, y: u16, max_w: u16, s: &str, fg: Color, bg: Color, attrs: u8) -> (end:
        u16)
        requires
            old(self)@.wf(),
        ensures
            (final(self)@, end as int) == old(self)@.text(
                x as int,
                y as int,
                max_w as int,
                s@,
                ink(fg, bg, attrs),
            ),
            (forall|i: int| 0 <= i < s@.len() ==> printable_ascii(#[trigger] s@[i])) ==> (
            final(self)@,
            end as int,
            ) == old(self)@.text_as(
                x as int,
                y as int,
                max_w as int,
                s@,
                one_each(s@.len()),
                ink(fg, bg, attrs),
            ),
            final(self)@.wf(),
            x <= end,
            end > x ==> end <= x + max_w && end <= old(self)@.cols,
            final(self)@.cols == old(self)@.cols,
            final(self)@.rows == old(self)@.rows,
            final(self)@.cursor == old(self)@.cursor,
    {
        let widths = measure(s);
        assert((forall|i: int| 0 <= i < s@.len() ==> printable_ascii(#[trigger] s@[i])) ==> widths@
            =~= one_each(s@.len()));
        self.text_as(x, y, max_w, s, &widths, Cell::styled(' ', fg, bg, attrs))
    }

    /// Write `s`, whose characters take `widths` columns each.
    pub fn text_as(&mut self, x: u16, y: u16, max_w: u16, s: &str, widths: &Vec<usize>, style: Cell) -> (end:
        u16)
        requires
            old(self)@.wf(),
            widths@.len() == s@.len(),
            forall|i: int| 0 <= i < widths@.len() ==> #[trigger] widths@[i] <= u16::MAX,
        ensures
            (final(self)@, end as int) == old(self)@.text_as(
                x as int,
                y as int,
                max_w as int,
                s@,
                widths@,
                style,
            ),
            final(self)@.wf(),
            x <= end,
            end > x ==> end <= x + max_w && end <= old(self)@.cols,
            final(self)@.cols == old(self)@.cols,
            final(self)@.rows == old(self)@.rows,
            final(self)@.cursor == old(self)@.cursor,
    {
        let v = to_chars(s);
        let ghost goal = old(self)@.text_as(x as int, y as int, max_w as int, s@, widths@, style);
        let wanted: u32 = x as u32 + max_w as u32;
        let limit: u32 = if wanted <= self.cols as u32 {
            wanted
        } else {
            self.cols as u32
        };
        let mut cx: u16 = x;
        let mut k: usize = 0;
        while k < v.len()
            invariant
                v@ == s@,
                k <= v@.len(),
                widths@.len() == v@.len(),
                forall|i: int| 0 <= i < widths@.len() ==> #[trigger] widths@[i] <= u16::MAX,
                self@.wf(),
                self@.cols == old(self)@.cols,
                self@.rows == old(self)@.rows,
                self@.cursor == old(self)@.cursor,
                limit == lesser(x + max_w, self@.cols),
                x <= cx,
                cx > x ==> cx <= limit,
                goal == old(self)@.text_as(x as int, y as int, max_w as int, s@, widths@, style),
                goal == self@.text_from(
                    cx as int,
                    y as int,
                    limit as int,
                    s@,
                    widths@,
                    k as int,
                    style,
                ),
            decreases v@.len() - k,
        {
            let ch = v[k];
            let w: usize = widths[k];
            if w > 0 {
                let next: u32 = cx as u32 + w as u32;
                if next > limit {
                    return cx;
                }
                self.put(cx, y, Cell::styled(ch, style.fg, style.bg, style.attrs));
                if w == 2 {
                    self.put(cx + 1, y, Cell::styled(WIDE_CONT, style.fg, style.bg, style.attrs));
                }
                cx = next as u16;
            }
            k += 1;
        }
        cx
    }

    /// Fill part of a row with one background.
    pub fn fill_row(&mut self, x: u16, y: u16, w: u16, bg: Color)
        requires
            old(self)@.wf(),
        ensures
            final(self)@ == old(self)@.boxed(x as int, y as int, w as int, 1, wash(bg)),
            final(self)@.wf(),
    {
        self.fill_box(x, y, w, 1, Cell::styled(' ', Color::Default, bg, 0));
    }

    /// Fill a rectangle with one cell.
    pub fn fill_box(&mut self, x: u16, y: u16, w: u16, h: u16, cell: Cell)
        requires
            old(self)@.wf(),
        ensures
            final(self)@ == old(self)@.boxed(x as int, y as int, w as int, h as int, cell),
            final(self)@.wf(),
    {
        let ghost f = old(self)@;
        let right: u32 = if x as u32 + w as u32 <= self.cols as u32 {
            x as u32 + w as u32
        } else {
            self.cols as u32
        };
        let bottom: u32 = if y as u32 + h as u32 <= self.rows as u32 {
            y as u32 + h as u32
        } else {
            self.rows as u32
        };
        let mut r: u32 = y as u32;
        while r < bottom
            invariant
                f == old(self)@,
                f.wf(),
                right == lesser(x + w, f.cols),
                bottom == lesser(y + h, f.rows),
                y <= r,
                r <= bottom || r == y,
                self@.wf(),
                self@.cols == f.cols,
                self@.rows == f.rows,
                self@.cursor == f.cursor,
                self@.cells.len() == f.cells.len(),
                forall|i: int|
                    0 <= i < f.cells.len() ==> #[trigger] self@.cells[i] == (if f.inside(
                        i,
                        x as int,
                        y as int,
                        w as int,
                        r - y,
                    ) {
                        cell
                    } else {
                        f.cells[i]
                    }),
            decreases bottom - r,
        {
            let mut c: u32 = x as u32;
            while c < right
                invariant
                    f == old(self)@,
                    f.wf(),
                    right == lesser(x + w, f.cols),
                    bottom == lesser(y + h, f.rows),
                    y <= r < bottom,
                    x <= c,
                    c <= right || c == x,
                    self@.wf(),
                    self@.cols == f.cols,
                    self@.rows == f.rows,
                    self@.cursor == f.cursor,
                    self@.cells.len() == f.cells.len(),
                    forall|i: int|
                        0 <= i < f.cells.len() ==> #[trigger] self@.cells[i] == (if f.inside(
                            i,
                            x as int,
                            y as int,
                            w as int,
                            r - y,
                        ) || f.inside(i, x as int, r as int, c - x, 1) {
                            cell
                        } else {
                            f.cells[i]
                        }),
                decreases right - c,
            {
                let ghost before = self@;
                self.put(c as u16, r as u16, cell);
                proof {
                    lemma_place(f, c as int, r as int);
                    assert forall|i: int| 0 <= i < f.cells.len() implies #[trigger] self@.cells[i]
                        == (if f.inside(i, x as int, y as int, w as int, r - y) || f.inside(
                        i,
                        x as int,
                        r as int,
                        c + 1 - x,
                        1,
                    ) {
                        cell
                    } else {
                        f.cells[i]
                    }) by {
                        lemma_column_and_row(f.cols, i, c as int, r as int);
                        assert(self@.cells[i] == (if i == f.place(c as int, r as int) {
                            cell
                        } else {
                            before.cells[i]
                        }));
                    }
                }
                c += 1;
            }
            r += 1;
            proof {
                assert forall|i: int| 0 <= i < f.cells.len() implies #[trigger] self@.cells[i] == (
                if f.inside(i, x as int, y as int, w as int, r - y) {
                    cell
                } else {
                    f.cells[i]
                }) by {
                    lemma_in_grid(f, i);
                }
            }
        }
        proof {
            assert forall|i: int| 0 <= i < f.cells.len() implies #[trigger] self@.cells[i] == (
            if f.inside(i, x as int, y as int, w as int, h as int) {
                cell
            } else {
                f.cells[i]
            }) by {
                lemma_in_grid(f, i);
            }
        }
        assert(self@ =~= f.boxed(x as int, y as int, w as int, h as int, cell));
    }
}

/// Every place has a column and a row on the screen.
pub(crate) proof fn lemma_in_grid(f: FrameModel, i: int)
    requires
        f.wf(),
        0 <= i < f.cells.len(),
    ensures
        0 <= i % f.cols < f.cols,
        0 <= i / f.cols < f.rows,
{
    let cols = f.cols;
    let rows = f.rows;
    assert(cols > 0) by (nonlinear_arith)
        requires
            cols >= 0,
            rows >= 0,
            cols * rows > 0,
    ;
    vstd::arithmetic::div_mod::lemma_fundamental_div_mod(i, cols);
    let q = i / cols;
    assert(0 <= q) by (nonlinear_arith)
        requires
            q == i / cols,
            i >= 0,
            cols > 0,
    ;
    assert(q < rows) by (nonlinear_arith)
        requires
            cols * q <= i,
            i < cols * rows,
            cols > 0,
    ;
}

// ---- the chrome -----------------------------------------------------------------

/// How a button looks: the active one stands out, a dead one is dimmed.
pub open spec fn button_ink(active: bool, alive: bool) -> Cell {
    if active {
        ink(Color::Indexed(ACTIVE_FG), Color::Indexed(ACTIVE_BG), A_BOLD)
    } else if alive {
        ink(Color::Indexed(RAIL_FG), Color::Indexed(RAIL_BG), 0)
    } else {
        ink(Color::Indexed(DEAD_FG), Color::Indexed(RAIL_BG), 0)
    }
}

/// What a button says: a marker, its number, the name, and whether it is dead.
pub open spec fn button_text(pane: Pane, index: int, active: bool) -> Seq<char> {
    (if active {
        "▸"@
    } else {
        " "@
    }) + " "@ + decimal((index + 1) as nat) + ": "@ + pane.shown_name() + (if pane.alive {
        ""@
    } else {
        " (exited)"@
    })
}

/// How many of the panes are alive.
pub open spec fn live_count(panes: Seq<Pane>, n: int) -> nat
    decreases n,
{
    if n <= 0 {
        0
    } else {
        live_count(panes, n - 1) + if panes[n - 1].alive {
            1nat
        } else {
            0nat
        }
    }
}

/// The left part of the status line.
pub open spec fn status_text(panes: Seq<Pane>, active: int) -> Seq<char> {
    " mux · "@ + decimal(live_count(panes, panes.len() as int)) + "/"@ + decimal(panes.len())
        + " live · pane "@ + decimal((active + 1) as nat) + " "@
}

/// The keys that the status line tells of.
pub open spec fn hint_key(k: int) -> Seq<char> {
    if k == 0 {
        "C-b c"@
    } else if k == 1 {
        "C-b n/p"@
    } else if k == 2 {
        "C-b x"@
    } else {
        "C-b q"@
    }
}

/// What those keys do.
pub open spec fn hint_what(k: int) -> Seq<char> {
    if k == 0 {
        " new  "@
    } else if k == 1 {
        " switch  "@
    } else if k == 2 {
        " close  "@
    } else {
        " quit  "@
    }
}

impl FrameModel {
    /// One button: the full width painted first, so that the active one reads
    /// as a solid block.
    pub open spec fn button(self, panes: Seq<Pane>, active: int, l: Layout, i: int) -> FrameModel {
        let r = l.sidebar;
        let look = button_ink(i == active, panes[i].alive);
        let y = l.row_of_button(i);
        self.boxed(r.x as int, y, r.w as int, 1, wash(look.bg)).text(
            r.x as int,
            y,
            r.w as int,
            button_text(panes[i], i, i == active),
            look,
        ).0
    }

    /// The first `n` buttons.
    pub open spec fn buttons(self, panes: Seq<Pane>, active: int, l: Layout, n: int) -> FrameModel
        decreases n,
    {
        if n <= 0 {
            self
        } else {
            self.buttons(panes, active, l, n - 1).button(panes, active, l, n - 1)
        }
    }

    /// The rail: heading, buttons, a note where some do not fit, "+ new".
    pub open spec fn with_rail(self, panes: Seq<Pane>, active: int, l: Layout) -> FrameModel {
        let r = l.sidebar;
        let visible = lesser(panes.len() as int, l.room());
        let washed = self.boxed(
            r.x as int,
            r.y as int,
            r.w as int,
            r.h as int,
            wash(Color::Indexed(RAIL_BG)),
        );
        let headed = washed.text(
            r.x + 1,
            r.y as int,
            r.w - 1,
            "TERMINALS"@,
            ink(Color::Indexed(RAIL_HEAD_FG), Color::Indexed(RAIL_BG), A_BOLD),
        ).0;
        let listed = headed.buttons(panes, active, l, visible);
        let noted = if panes.len() > visible {
            listed.text(
                r.x as int,
                l.row_of_button(minus(visible, 1)),
                r.w as int,
                " …more"@,
                ink(Color::Indexed(DEAD_FG), Color::Indexed(RAIL_BG), 0),
            ).0
        } else {
            listed
        };
        noted.boxed(
            r.x as int,
            l.row_of_new(),
            r.w as int,
            1,
            wash(Color::Indexed(RAIL_BG)),
        ).text(
            r.x as int,
            l.row_of_new(),
            r.w as int,
            "  + new"@,
            ink(Color::Indexed(NEW_FG), Color::Indexed(RAIL_BG), 0),
        ).0
    }

    /// The rule between rail and terminal.
    pub open spec fn with_divider(self, l: Layout) -> FrameModel {
        self.boxed(
            l.divider_x as int,
            l.sidebar.y as int,
            1,
            l.sidebar.h as int,
            Cell {
                ch: '│',
                fg: Color::Indexed(DIVIDER_FG),
                bg: Color::Default,
                attrs: 0,
            },
        )
    }

    /// The active pane: as much of its screen as fits, and its cursor where it
    /// is alive and wants one shown.
    pub open spec fn with_content(self, panes: Seq<Pane>, active: int, l: Layout) -> FrameModel {
        if active >= panes.len() {
            self
        } else {
            let c = l.content;
            let g = panes[active].grid@;
            let row = g.screen.cursor_row as u16;
            let col = g.screen.cursor_col as u16;
            let pasted = self.pasted(
                g.screen.rows,
                c.x as int,
                c.y as int,
                lesser(g.cols as u16 as int, c.w as int),
                lesser(g.rows as u16 as int, c.h as int),
            );
            if g.cursor_visible && panes[active].alive && row < c.h && col < c.w {
                FrameModel { cursor: Some(((c.y + row) as u16, (c.x + col) as u16)), ..pasted }
            } else {
                pasted
            }
        }
    }

    /// The hints from the `k`-th on, as long as there is room for them.
    pub open spec fn hints(self, l: Layout, x: int, k: int) -> FrameModel
        decreases 4 - k,
    {
        let s = l.status;
        if k >= 4 || x + HINT_ROOM > s.x + s.w {
            self
        } else {
            let key = self.text(
                x,
                s.y as int,
                minus(s.w as int, x),
                hint_key(k),
                ink(Color::Indexed(STATUS_KEY_FG), Color::Indexed(STATUS_BG), 0),
            );
            let what = key.0.text(
                key.1,
                s.y as int,
                minus(s.w as int, key.1),
                hint_what(k),
                ink(Color::Indexed(STATUS_FG), Color::Indexed(STATUS_BG), 0),
            );
            what.0.hints(l, what.1, k + 1)
        }
    }

    /// The status line. While the prefix key is pending it says so, since a
    /// mistyped chord would feel like a freeze; else it lists the keys.
    pub open spec fn with_status(
        self,
        panes: Seq<Pane>,
        active: int,
        l: Layout,
        pending: bool,
    ) -> FrameModel {
        let s = l.status;
        let left = self.boxed(
            s.x as int,
            s.y as int,
            s.w as int,
            1,
            wash(Color::Indexed(STATUS_BG)),
        ).text(
            s.x as int,
            s.y as int,
            s.w as int,
            status_text(panes, active),
            ink(Color::Indexed(STATUS_FG), Color::Indexed(STATUS_BG), A_BOLD),
        );
        if pending {
            left.0.text(
                left.1,
                s.y as int,
                minus(s.w as int, left.1),
                "[C-b]"@,
                ink(Color::Indexed(PENDING_FG), Color::Indexed(PENDING_BG), A_BOLD),
            ).0
        } else {
            left.0.hints(l, left.1, 0)
        }
    }
}

/// The whole screen.
pub open spec fn composed(
    panes: Seq<Pane>,
    active: int,
    l: Layout,
    cols: int,
    rows: int,
    pending: bool,
) -> FrameModel {
    FrameModel::blank(cols, rows).with_rail(panes, active, l).with_divider(l).with_content(
        panes,
        active,
        l,
    ).with_status(panes, active, l, pending)
}

/// The part of a pane's screen that is shown, and its cursor where that is shown
/// too, lie where a `u16` can count.
pub open spec fn content_fits(pane: Pane, c: Rect) -> bool {
    let g = pane.grid@;
    let w = lesser(g.cols as u16 as int, c.w as int);
    let h = lesser(g.rows as u16 as int, c.h as int);
    let row = g.screen.cursor_row as u16;
    let col = g.screen.cursor_col as u16;
    &&& w > 0 && h > 0 ==> c.x + w <= u16::MAX + 1 && c.y + h <= u16::MAX + 1
    &&& g.cursor_visible && pane.alive && row < c.h && col < c.w ==> c.y + row <= u16::MAX && c.x
        + col <= u16::MAX
}

/// The parts of the screen lie where a `u16` can count, and the rail has a column
/// for the margin of its heading and a last row.
pub open spec fn drawable(panes: Seq<Pane>, active: int, l: Layout) -> bool {
    let r = l.sidebar;
    &&& r.w >= 1
    &&& r.x + r.w <= u16::MAX
    &&& 1 <= r.y + r.h <= u16::MAX
    &&& r.h == 0 && panes.len() > 0 ==> r.y + 1 <= u16::MAX
    &&& l.status.x + l.status.w <= u16::MAX
    &&& active < panes.len() ==> content_fits(panes[active], l.content)
}

/// Build the whole screen.
pub fn compose(
    panes: &[Pane],
    active: usize,
    layout: &Layout,
    cols: u16,
    rows: u16,
    pending_prefix: bool,
) -> (f: Frame)
    requires
        drawable(panes@, active as int, *layout),
        active < usize::MAX,
        forall|i: int| 0 <= i < panes@.len() ==> (#[trigger] panes@[i]).wf(),
    ensures
        f@ == composed(
            panes@,
            active as int,
            *layout,
            cols as int,
            rows as int,
            pending_prefix,
        ),
        f@.wf(),
        f.cols == cols,
        f.rows == rows,
{
    let mut f = Frame::new(cols, rows);
    draw_rail(&mut f, panes, active, layout);
    draw_divider(&mut f, layout);
    draw_content(&mut f, panes, active, layout);
    draw_status(&mut f, panes, active, layout, pending_prefix);
    f
}

fn draw_button(f: &mut Frame, panes: &[Pane], active: usize, layout: &Layout, i: usize)
    requires
        old(f)@.wf(),
        layout.sidebar.y + layout.sidebar.h <= u16::MAX,
        i < panes@.len(),
        i < layout.room(),
    ensures
        final(f)@ == old(f)@.button(panes@, active as int, *layout, i as int),
        final(f)@.wf(),
        final(f)@.cols == old(f)@.cols,
        final(f)@.rows == old(f)@.rows,
{
    let r = layout.sidebar;
    let y = layout.button_row(i);
    let is_active = i == active;
    let alive = panes[i].is_alive();
    let fg: u8 = if is_active {
        ACTIVE_FG
    } else if alive {
        RAIL_FG
    } else {
        DEAD_FG
    };
    let bg: u8 = if is_active {
        ACTIVE_BG
    } else {
        RAIL_BG
    };
    let attrs: u8 = if is_active {
        A_BOLD
    } else {
        0
    };
    f.fill_row(r.x, y, r.w, Color::Indexed(bg));
    let name = panes[i].display_name();
    let mut label = copy_text(
        if is_active {
            "▸"
        } else {
            " "
        },
    );
    label.push_str(" ");
    push_decimal(&mut label, i as u64 + 1);
    label.push_str(": ");
    label.push_str(name.as_str());
    label.push_str(
        if alive {
            ""
        } else {
            " (exited)"
        },
    );
    assert(label@ =~= button_text(panes@[i as int], i as int, is_active));
    let _ = f.text(r.x, y, r.w, label.as_str(), Color::Indexed(fg), Color::Indexed(bg), attrs);
}

fn draw_rail(f: &mut Frame, panes: &[Pane], active: usize, layout: &Layout)
    requires
        old(f)@.wf(),
        drawable(panes@, active as int, *layout),
    ensures
        final(f)@ == old(f)@.with_rail(panes@, active as int, *layout),
        final(f)@.wf(),
        final(f)@.cols == old(f)@.cols,
        final(f)@.rows == old(f)@.rows,
{
    let r = layout.sidebar;
    f.fill_box(r.x, r.y, r.w, r.h, Cell::styled(' ', Color::Default, Color::Indexed(RAIL_BG), 0));
    let _ = f.text(
        r.x + 1,
        r.y,
        r.w - 1,
        "TERMINALS",
        Color::Indexed(RAIL_HEAD_FG),
        Color::Indexed(RAIL_BG),
        A_BOLD,
    );
    let room = layout.max_buttons();
    let visible: usize = if panes.len() <= room {
        panes.len()
    } else {
        room
    };
    let ghost headed = f@;
    let mut i: usize = 0;
    while i < visible
        invariant
            i <= visible,
            visible <= panes@.len(),
            visible <= layout.room(),
            layout.sidebar.y + layout.sidebar.h <= u16::MAX,
            f@.wf(),
            f@.cols == headed.cols,
            f@.rows == headed.rows,
            f@ == headed.buttons(panes@, active as int, *layout, i as int),
        decreases visible - i,
    {
        draw_button(f, panes, active, layout, i);
        i += 1;
    }
    if panes.len() > visible {
        let last: usize = if visible > 0 {
            visible - 1
        } else {
            0
        };
        let y = layout.button_row(last);
        let _ = f.text(
            r.x,
            y,
            r.w,
            " …more",
            Color::Indexed(DEAD_FG),
            Color::Indexed(RAIL_BG),
            0,
        );
    }
    let ny = layout.new_button_row();
    f.fill_row(r.x, ny, r.w, Color::Indexed(RAIL_BG));
    let _ = f.text(r.x, ny, r.w, "  + new", Color::Indexed(NEW_FG), Color::Indexed(RAIL_BG), 0);
}

fn draw_divider(f: &mut Frame, layout: &Layout)
    requires
        old(f)@.wf(),
    ensures
        final(f)@ == old(f)@.with_divider(*layout),
        final(f)@.wf(),
        final(f)@.cols == old(f)@.cols,
        final(f)@.rows == old(f)@.rows,
{
    let cell = Cell::styled('│', Color::Indexed(DIVIDER_FG), Color::Default, 0);
    f.fill_box(layout.divider_x, layout.sidebar.y, 1, layout.sidebar.h, cell);
}

fn low_half(n: usize) -> (res: u16)
    ensures
        res == n as u16,
        n <= 0xffff ==> res == n,
        res <= n,
{
    proof {
        assert((n as u16) <= n) by (bit_vector);
    }
    #[verifier::truncate] (n as u16)
}

fn draw_content(f: &mut Frame, panes: &[Pane], active: usize, layout: &Layout)
    requires
        old(f)@.wf(),
        drawable(panes@, active as int, *layout),
        forall|i: int| 0 <= i < panes@.len() ==> (#[trigger] panes@[i]).wf(),
    ensures
        final(f)@ == old(f)@.with_content(panes@, active as int, *layout),
        final(f)@.wf(),
        final(f)@.cols == old(f)@.cols,
        final(f)@.rows == old(f)@.rows,
{
    if active >= panes.len() {
        return ;
    }
    let pane = &panes[active];
    assert(pane.wf());
    let c = layout.content;
    let (grid_cols, grid_rows) = pane.grid.size();
    let cols: u16 = low_half(grid_cols);
    let rows: u16 = low_half(grid_rows);
    let w: u16 = if cols <= c.w {
        cols
    } else {
        c.w
    };
    let h: u16 = if rows <= c.h {
        rows
    } else {
        c.h
    };
    let ghost start = f@;
    let ghost lines = pane.grid@.screen.rows;
    let ghost x = c.x as int;
    let ghost y = c.y as int;
    let mut gy: u16 = 0;
    while gy < h
        invariant
            gy <= h,
            h <= c.h,
            w <= c.w,
            w > 0 && h > 0 ==> c.x + w <= u16::MAX + 1 && c.y + h <= u16::MAX + 1,
            x == c.x,
            y == c.y,
            pane.wf(),
            w <= pane.grid@.cols,
            h <= pane.grid@.rows,
            lines == pane.grid@.screen.rows,
            f@.wf(),
            start.wf(),
            f@.cols == start.cols,
            f@.rows == start.rows,
            f@.cursor == start.cursor,
            f@ == start.pasted(lines, x, y, w as int, gy as int),
        decreases h - gy,
    {
        let line = pane.grid.row(gy as usize);
        let mut gx: u16 = 0;
        while gx < w
            invariant
                gx <= w,
                gy < h,
                h <= c.h,
                w <= c.w,
                w > 0 && h > 0 ==> c.x + w <= u16::MAX + 1 && c.y + h <= u16::MAX + 1,
                x == c.x,
                y == c.y,
                w <= line@.len(),
                line@ == lines[gy as int],
                f@.wf(),
                start.wf(),
                f@.cols == start.cols,
                f@.rows == start.rows,
                f@.cursor == start.cursor,
                f@.cells.len() == start.cells.len(),
                forall|i: int|
                    0 <= i < start.cells.len() ==> #[trigger] f@.cells[i] == (if start.inside(
                        i,
                        x,
                        y,
                        w as int,
                        gy as int,
                    ) || start.inside(i, x, y + gy, gx as int, 1) {
                        lines[i / start.cols - y][i % start.cols - x]
                    } else {
                        start.cells[i]
                    }),
            decreases w - gx,
        {
            let ghost before = f@;
            f.put(c.x + gx, c.y + gy, line[gx as usize]);
            proof {
                assert forall|i: int| 0 <= i < start.cells.len() implies #[trigger] f@.cells[i]
                    == (if start.inside(i, x, y, w as int, gy as int) || start.inside(
                    i,
                    x,
                    y + gy,
                    gx + 1,
                    1,
                ) {
                    lines[i / start.cols - y][i % start.cols - x]
                } else {
                    start.cells[i]
                }) by {
                    lemma_in_grid(start, i);
                    if x + gx < start.cols && y + gy < start.rows {
                        lemma_place(start, x + gx, y + gy);
                        lemma_column_and_row(start.cols, i, x + gx, y + gy);
                    }
                    assert(before.cells[i] == (if start.inside(i, x, y, w as int, gy as int)
                        || start.inside(i, x, y + gy, gx as int, 1) {
                        lines[i / start.cols - y][i % start.cols - x]
                    } else {
                        start.cells[i]
                    }));
                }
            }
            gx += 1;
        }
        gy += 1;
        assert(f@ =~= start.pasted(lines, x, y, w as int, gy as int));
    }
    assert(start.pasted(lines, x, y, w as int, gy as int).cells =~= f@.cells);
    if pane.grid.cursor_visible() && pane.is_alive() {
        let (row, col) = pane.grid.cursor();
        let row: u16 = low_half(row);
        let col: u16 = low_half(col);
        if row < c.h && col < c.w {
            f.cursor = Some((c.y + row, c.x + col));
        }
    }
    assert(f@ =~= old(f)@.with_content(panes@, active as int, *layout));
}

fn count_live(panes: &[Pane]) -> (n: usize)
    ensures
        n == live_count(panes@, panes@.len() as int),
{
    let mut n: usize = 0;
    let mut i: usize = 0;
    while i < panes.len()
        invariant
            i <= panes@.len(),
            n <= i,
            n == live_count(panes@, i as int),
        decreases panes@.len() - i,
    {
        if panes[i].is_alive() {
            n += 1;
        }
        i += 1;
    }
    n
}

fn draw_hints(f: &mut Frame, layout: &Layout, x: u16)
    requires
        old(f)@.wf(),
    ensures
        final(f)@ == old(f)@.hints(*layout, x as int, 0),
        final(f)@.wf(),
        final(f)@.cols == old(f)@.cols,
        final(f)@.rows == old(f)@.rows,
{
    let s = layout.status;
    let keys: [&str; 4] = ["C-b c", "C-b n/p", "C-b x", "C-b q"];
    let whats: [&str; 4] = [" new  ", " switch  ", " close  ", " quit  "];
    let mut cx: u16 = x;
    let mut k: usize = 0;
    while k < 4
        invariant
            k <= 4,
            s == layout.status,
            f@.wf(),
            f@.cols == old(f)@.cols,
            f@.rows == old(f)@.rows,
            f@.hints(*layout, cx as int, k as int) == old(f)@.hints(*layout, x as int, 0),
            forall|j: int| 0 <= j < 4 ==> (#[trigger] keys@[j])@ == hint_key(j),
            forall|j: int| 0 <= j < 4 ==> (#[trigger] whats@[j])@ == hint_what(j),
        decreases 4 - k,
    {
        if cx as u32 + HINT_ROOM as u32 > s.x as u32 + s.w as u32 {
            return ;
        }
        assert(keys@[k as int]@ == hint_key(k as int));
        assert(whats@[k as int]@ == hint_what(k as int));
        cx =
        f.text(
            cx,
            s.y,
            s.w.saturating_sub(cx),
            keys[k],
            Color::Indexed(STATUS_KEY_FG),
            Color::Indexed(STATUS_BG),
            0,
        );
        cx =
        f.text(
            cx,
            s.y,
            s.w.saturating_sub(cx),
            whats[k],
            Color::Indexed(STATUS_FG),
            Color::Indexed(STATUS_BG),
            0,
        );
        k += 1;
    }
}

fn draw_status(f: &mut Frame, panes: &[Pane], active: usize, layout: &Layout, pending: bool)
    requires
        old(f)@.wf(),
        active < usize::MAX,
    ensures
        final(f)@ == old(f)@.with_status(panes@, active as int, *layout, pending),
        final(f)@.wf(),
        final(f)@.cols == old(f)@.cols,
        final(f)@.rows == old(f)@.rows,
{
    let s = layout.status;
    f.fill_row(s.x, s.y, s.w, Color::Indexed(STATUS_BG));
    let live = count_live(panes);
    let mut left = copy_text(" mux · ");
    push_decimal(&mut left, live as u64);
    left.push_str("/");
    push_decimal(&mut left, panes.len() as u64);
    left.push_str(" live · pane ");
    push_decimal(&mut left, active as u64 + 1);
    left.push_str(" ");
    let x = f.text(
        s.x,
        s.y,
        s.w,
        left.as_str(),
        Color::Indexed(STATUS_FG),
        Color::Indexed(STATUS_BG),
        A_BOLD,
    );
    if pending {
        let _ = f.text(
            x,
            s.y,
            s.w.saturating_sub(x),
            "[C-b]",
            Color::Indexed(PENDING_FG),
            Color::Indexed(PENDING_BG),
            A_BOLD,
        );
        return ;
    }
    draw_hints(f, layout, x);
}

} // verus!
