//! Compositing and painting.
//!
//! Two steps, kept apart. [`compose`] builds a [`Frame`], the whole screen as
//! flat cells, from the chrome and the active pane. [`Renderer::draw`] compares
//! that frame with the last one and gives the escape sequences that close the
//! gap: repainting every cell each time would make the screen shimmer.
use crate::grid::model::{at_least_one, minus};
use crate::grid::{Cell, Color, A_BOLD, A_DIM, A_ITALIC, A_REVERSE, A_STRIKE, A_UNDERLINE, WIDE_CONT};
use crate::text::{copy_text, decimal, push_decimal};
use crate::width::{cell_span, printable_ascii, span_of};
use vstd::prelude::*;

pub mod chrome;
pub mod compose;
pub mod laws;
pub mod round_trip;
pub mod terminal;



verus! {

/// The whole screen as cells, row after row.
pub struct Frame {
    pub cols: u16,
    pub rows: u16,
    pub cells: Vec<Cell>,
    /// Row and column of the hardware cursor, or `None` to hide it.
    pub cursor: Option<(u16, u16)>,
}

/// A [`Frame`] as mathematics.
#[verifier::ext_equal]
pub struct FrameModel {
    pub cols: int,
    pub rows: int,
    pub cells: Seq<Cell>,
    pub cursor: Option<(u16, u16)>,
}

impl View for Frame {
    type V = FrameModel;

    open spec fn view(&self) -> FrameModel {
        FrameModel {
            cols: self.cols as int,
            rows: self.rows as int,
            cells: self.cells@,
            cursor: self.cursor,
        }
    }
}

impl FrameModel {
    /// There is a cell for every place on the screen, and no other.
    pub open spec fn wf(self) -> bool {
        self.cols >= 0 && self.rows >= 0 && self.cells.len() == self.cols * self.rows
    }

    /// There is a cell for every place on the screen.
    pub open spec fn covered(self) -> bool {
        self.cols >= 0 && self.rows >= 0 && self.cells.len() >= self.cols * self.rows
    }

    /// Where the cell at column `x`, row `y` stands.
    pub open spec fn place(self, x: int, y: int) -> int {
        y * self.cols + x
    }

    /// The cell at column `x`, row `y`.
    pub open spec fn at(self, x: int, y: int) -> Cell {
        self.cells[self.place(x, y)]
    }
}

// ---- what has to be painted -----------------------------------------------------

/// One glyph to be painted, the columns it spans, and where.
pub struct Paint {
    pub row: int,
    pub col: int,
    pub cell: Cell,
    pub span: int,
}

/// What is on the screen, and what was painted on it so far.
pub struct Walk {
    pub shown: Seq<Cell>,
    pub paints: Seq<Paint>,
}

/// The glyph at place `i`, which spans `span` columns, differs from what is
/// shown. A wide glyph owns two cells: where either half differs, so does the
/// glyph.
pub open spec fn stale(shown: Seq<Cell>, cells: Seq<Cell>, i: int, span: int) -> bool {
    shown[i] != cells[i] || (span == 2 && i + 1 < cells.len() && shown[i + 1] != cells[i + 1])
}

/// What is shown once that glyph is painted.
pub open spec fn repainted(shown: Seq<Cell>, cells: Seq<Cell>, i: int, span: int) -> Seq<Cell> {
    let first = shown.update(i, cells[i]);
    if span == 2 && i + 1 < cells.len() {
        first.update(i + 1, cells[i + 1])
    } else {
        first
    }
}

/// One column for each of `n` characters.
pub open spec fn one_each(n: nat) -> Seq<usize> {
    Seq::new(n, |i: int| 1usize)
}

/// The columns that each cell spans.
pub open spec fn spans_of(cells: Seq<Cell>) -> Seq<usize> {
    Seq::new(cells.len(), |i: int| cell_span(cells[i].ch) as usize)
}

impl FrameModel {
    /// One row, from column `x` on: the stale glyphs, left to right. `spans` says
    /// how many columns each cell spans; a span of zero is taken as one.
    pub open spec fn walk_row(self, spans: Seq<usize>, w: Walk, y: int, x: int) -> Walk
        decreases minus(self.cols, x),
    {
        let i = self.place(x, y);
        if x >= self.cols {
            w
        } else if self.cells[i].ch == WIDE_CONT {
            self.walk_row(spans, w, y, x + 1)
        } else {
            self.walk_row(
                spans,
                self.visit(spans, w, y, x),
                y,
                x + at_least_one(spans[i] as int),
            )
        }
    }

    /// One glyph: painted where it is stale, else left alone.
    pub open spec fn visit(self, spans: Seq<usize>, w: Walk, y: int, x: int) -> Walk {
        let i = self.place(x, y);
        let cell = self.cells[i];
        let span = at_least_one(spans[i] as int);
        if stale(w.shown, self.cells, i, span) {
            Walk {
                shown: repainted(w.shown, self.cells, i, span),
                paints: w.paints.push(Paint { row: y, col: x, cell, span }),
            }
        } else {
            w
        }
    }

    /// The rows from `y` on, top to bottom.
    pub open spec fn walk_rows(self, spans: Seq<usize>, w: Walk, y: int) -> Walk
        decreases self.rows - y,
    {
        if y >= self.rows {
            w
        } else {
            self.walk_rows(spans, self.walk_row(spans, w, y, 0), y + 1)
        }
    }

    /// All that has to be painted over what is shown.
    pub open spec fn walk(self, spans: Seq<usize>, shown: Seq<Cell>) -> Walk {
        self.walk_rows(spans, Walk { shown, paints: Seq::empty() }, 0)
    }
}

// ---- how it is written ----------------------------------------------------------

/// `ESC [ row ; col H`, counted from one.
pub open spec fn move_text(row: int, col: int) -> Seq<char> {
    "\x1b["@ + decimal((row + 1) as nat) + ";"@ + decimal((col + 1) as nat) + "H"@
}

/// Where the terminal's cursor is after a paint. At the right margin it stops
/// rather than moving on, so there it counts as unknown.
pub open spec fn rests_at(p: Paint, cols: int) -> Option<(int, int)> {
    if p.col + p.span >= cols {
        None
    } else {
        Some((p.row, p.col + p.span))
    }
}

/// One paint, given what went before: the cursor is moved where it does not
/// stand there already, the style is set where it is not set already.
pub open spec fn paint_text(paints: Seq<Paint>, cols: int, k: int) -> Seq<char> {
    let p = paints[k];
    let moved = if k > 0 && rests_at(paints[k - 1], cols) == Some((p.row, p.col)) {
        Seq::empty()
    } else {
        move_text(p.row, p.col)
    };
    let style = if k > 0 && paints[k - 1].cell.styled_like(p.cell) {
        Seq::empty()
    } else {
        sgr_text(p.cell)
    };
    (moved + style).push(p.cell.ch)
}

/// The first `n` paints.
pub open spec fn paints_text(paints: Seq<Paint>, cols: int, n: int) -> Seq<char>
    decreases n,
{
    if n <= 0 {
        Seq::empty()
    } else {
        paints_text(paints, cols, n - 1) + paint_text(paints, cols, n - 1)
    }
}

/// What ends a frame: the cursor put in its place and shown, or kept hidden.
pub open spec fn cursor_text(cursor: Option<(u16, u16)>) -> Seq<char> {
    match cursor {
        Some((r, c)) => move_text(r as int, c as int) + "\x1b[?25h"@,
        None => "\x1b[?25l"@,
    }
}

/// `;1` and the like, where an attribute is on.
pub open spec fn attr_text(attrs: u8, bit: u8, code: Seq<char>) -> Seq<char> {
    if attrs & bit != 0 {
        code
    } else {
        Seq::empty()
    }
}

/// `;31` and the like.
pub open spec fn color_text(c: Color, fg: bool) -> Seq<char> {
    match c {
        Color::Default => Seq::empty(),
        Color::Indexed(n) => if n < 8 {
            ";"@ + decimal(
                (if fg {
                    30 + n
                } else {
                    40 + n
                }) as nat,
            )
        } else if n < 16 {
            ";"@ + decimal(
                (if fg {
                    90 + (n - 8)
                } else {
                    100 + (n - 8)
                }) as nat,
            )
        } else {
            extended_text(fg) + ";5;"@ + decimal(n as nat)
        },
        Color::Rgb(r, g, b) => extended_text(fg) + ";2;"@ + decimal(r as nat) + ";"@ + decimal(
            g as nat,
        ) + ";"@ + decimal(b as nat),
    }
}

pub open spec fn extended_text(fg: bool) -> Seq<char> {
    if fg {
        ";38"@
    } else {
        ";48"@
    }
}

/// The sequence that sets a style. It resets first: sending only what changed
/// would let one lost sequence spoil every cell after it.
pub open spec fn sgr_text(cell: Cell) -> Seq<char> {
    "\x1b[0"@ + attr_text(cell.attrs, A_BOLD, ";1"@) + attr_text(cell.attrs, A_DIM, ";2"@)
        + attr_text(cell.attrs, A_ITALIC, ";3"@) + attr_text(cell.attrs, A_UNDERLINE, ";4"@)
        + attr_text(cell.attrs, A_REVERSE, ";7"@) + attr_text(cell.attrs, A_STRIKE, ";9"@)
        + color_text(cell.fg, true) + color_text(cell.bg, false) + "m"@
}

fn push_attr(s: &mut String, attrs: u8, bit: u8, code: &str)
    ensures
        final(s)@ == old(s)@ + attr_text(attrs, bit, code@),
{
    if attrs & bit != 0 {
        s.push_str(code);
    } else {
        assert(s@ + Seq::<char>::empty() =~= s@);
    }
}

fn push_extended(s: &mut String, fg: bool)
    ensures
        final(s)@ == old(s)@ + extended_text(fg),
{
    if fg {
        s.push_str(";38");
    } else {
        s.push_str(";48");
    }
}

/// Append the numbers that set a colour.
pub fn push_color(s: &mut String, c: Color, fg: bool)
    ensures
        final(s)@ == old(s)@ + color_text(c, fg),
{
    match c {
        Color::Default => {},
        Color::Indexed(n) => {
            if n < 8 {
                s.push_str(";");
                push_decimal(
                    s,
                    if fg {
                        30 + n as u64
                    } else {
                        40 + n as u64
                    },
                );
            } else if n < 16 {
                s.push_str(";");
                push_decimal(
                    s,
                    if fg {
                        90 + (n as u64 - 8)
                    } else {
                        100 + (n as u64 - 8)
                    },
                );
            } else {
                push_extended(s, fg);
                s.push_str(";5;");
                push_decimal(s, n as u64);
            }
        },
        Color::Rgb(r, g, b) => {
            push_extended(s, fg);
            s.push_str(";2;");
            push_decimal(s, r as u64);
            s.push_str(";");
            push_decimal(s, g as u64);
            s.push_str(";");
            push_decimal(s, b as u64);
        },
    }
    assert(s@ =~= old(s)@ + color_text(c, fg));
}

/// The sequence that sets the style of a cell.
pub fn sgr(cell: &Cell) -> (s: String)
    ensures
        s@ == sgr_text(*cell),
{
    let mut s = copy_text("\x1b[0");
    push_attr(&mut s, cell.attrs, A_BOLD, ";1");
    push_attr(&mut s, cell.attrs, A_DIM, ";2");
    push_attr(&mut s, cell.attrs, A_ITALIC, ";3");
    push_attr(&mut s, cell.attrs, A_UNDERLINE, ";4");
    push_attr(&mut s, cell.attrs, A_REVERSE, ";7");
    push_attr(&mut s, cell.attrs, A_STRIKE, ";9");
    push_color(&mut s, cell.fg, true);
    push_color(&mut s, cell.bg, false);
    s.push_str("m");
    s
}

fn push_move(s: &mut String, row: u16, col: u16)
    ensures
        final(s)@ == old(s)@ + move_text(row as int, col as int),
{
    s.push_str("\x1b[");
    push_decimal(s, row as u64 + 1);
    s.push_str(";");
    push_decimal(s, col as u64 + 1);
    s.push_str("H");
    assert(s@ =~= old(s)@ + move_text(row as int, col as int));
}

// ---- the renderer ---------------------------------------------------------------

/// Remembers what is on the screen.
pub struct Renderer {
    pub prev: Vec<Cell>,
    pub cols: u16,
    pub rows: u16,
}

/// A cell unlike any that is painted, so that it counts as stale.
pub open spec fn unpainted() -> Cell {
    Cell { ch: '\u{1}', fg: Color::Default, bg: Color::Default, attrs: 0 }
}

impl Renderer {
    /// The frame has another size than the screen that is remembered.
    pub open spec fn must_clear(self, f: FrameModel) -> bool {
        self.prev@.len() != f.cells.len() || self.cols != f.cols || self.rows != f.rows
    }

    /// What the frame is compared with.
    pub open spec fn baseline(self, f: FrameModel) -> Seq<Cell> {
        if self.must_clear(f) {
            Seq::new(f.cells.len(), |i: int| unpainted())
        } else {
            self.prev@
        }
    }

    /// What is written to close the gap to a frame. The cursor is hidden while
    /// cells are written.
    pub open spec fn draw_text(self, f: FrameModel, spans: Seq<usize>) -> Seq<char> {
        let paints = f.walk(spans, self.baseline(f)).paints;
        let clear = if self.must_clear(f) {
            "\x1b[0m\x1b[2J"@
        } else {
            Seq::empty()
        };
        clear + "\x1b[?25l"@ + paints_text(paints, f.cols, paints.len() as int) + cursor_text(
            f.cursor,
        )
    }

    /// Nothing is remembered.
    pub fn new() -> (r: Self)
        ensures
            r.prev@ == Seq::<Cell>::empty(),
            r.cols == 0,
            r.rows == 0,
    {
        Renderer { prev: Vec::new(), cols: 0, rows: 0 }
    }

    /// Forget what is on the screen, so that the next frame is painted whole.
    pub fn invalidate(&mut self)
        ensures
            final(self).prev@ == Seq::<Cell>::empty(),
            final(self).cols == old(self).cols,
            final(self).rows == old(self).rows,
    {
        self.prev.clear();
    }

    /// The text that turns what is on the screen into `frame`.
    pub fn draw(&mut self, frame: &Frame) -> (out: String)
        requires
            frame@.covered(),
        ensures
            out@ == old(self).draw_text(frame@, spans_of(frame@.cells)),
            final(self).prev@ == frame@.walk(
                spans_of(frame@.cells),
                old(self).baseline(frame@),
            ).shown,
            final(self).cols == frame.cols,
            final(self).rows == frame.rows,
            (forall|i: int|
                0 <= i < frame@.cells.len() ==> printable_ascii((#[trigger] frame@.cells[i]).ch))
                ==> {
                let ones = one_each(frame@.cells.len());
                &&& out@ == old(self).draw_text(frame@, ones)
                &&& final(self).prev@ == frame@.walk(ones, old(self).baseline(frame@)).shown
            },
    {
        let n: usize = frame.cells.len();
        let mut spans: Vec<usize> = Vec::new();
        let mut i: usize = 0;
        while i < n
            invariant
                i <= n,
                n == frame.cells@.len(),
                spans@.len() == i,
                forall|k: int|
                    0 <= k < i ==> #[trigger] spans@[k] == cell_span(frame.cells@[k].ch)
                        && spans@[k] <= 3 && (printable_ascii(frame.cells@[k].ch) ==> spans@[k]
                        == 1),
            decreases n - i,
        {
            spans.push(span_of(frame.cells[i].ch));
            i += 1;
        }
        assert(spans@ =~= spans_of(frame@.cells));
        assert((forall|k: int|
            0 <= k < frame@.cells.len() ==> printable_ascii((#[trigger] frame@.cells[k]).ch))
            ==> spans@ =~= one_each(frame@.cells.len()));
        self.draw_as(frame, &spans)
    }

    /// The text that turns what is on the screen into `frame`, whose cells span
    /// `spans` columns each.
    pub fn draw_as(&mut self, frame: &Frame, spans: &Vec<usize>) -> (out: String)
        requires
            frame@.covered(),
            spans@.len() == frame@.cells.len(),
            forall|i: int| 0 <= i < spans@.len() ==> #[trigger] spans@[i] <= u16::MAX,
        ensures
            out@ == old(self).draw_text(frame@, spans@),
            final(self).prev@ == frame@.walk(spans@, old(self).baseline(frame@)).shown,
            final(self).cols == frame.cols,
            final(self).rows == frame.rows,
    {
        let ghost f = frame@;
        let ghost base = self.baseline(f);
        let mut out = String::new();
        let n: usize = frame.cells.len();
        if self.prev.len() != n || self.cols != frame.cols || self.rows != frame.rows {
            self.prev = crate::grid::cell_row(
                Cell::styled('\u{1}', Color::Default, Color::Default, 0),
                n,
            );
            self.cols = frame.cols;
            self.rows = frame.rows;
            out.push_str("\x1b[0m\x1b[2J");
            assert(self.prev@ =~= base);
        }
        out.push_str("\x1b[?25l");
        let ghost head = out@;
        let ghost whole = f.walk(spans@, base);
        let mut painter = Painter { pen: None, at: None, paints: Ghost(Seq::empty()) };
        let mut y: u16 = 0;
        assert(head + paints_text(Seq::empty(), f.cols, 0) =~= head);
        while y < frame.rows
            invariant
                f == frame@,
                f.covered(),
                y <= frame.rows,
                self.prev@.len() == f.cells.len(),
                painter.wf(f.cols),
                out@ == head + paints_text(painter.paints@, f.cols, painter.paints@.len() as int),
                self.cols == frame.cols,
                self.rows == frame.rows,
                spans@.len() == f.cells.len(),
                forall|i: int| 0 <= i < spans@.len() ==> #[trigger] spans@[i] <= u16::MAX,
                whole == f.walk_rows(
                    spans@,
                    Walk { shown: self.prev@, paints: painter.paints@ },
                    y as int,
                ),
            decreases frame.rows - y,
        {
            draw_row(frame, spans, y, &mut self.prev, &mut painter, &mut out, Ghost(head));
            y += 1;
        }
        match frame.cursor {
            Some((r, c)) => {
                push_move(&mut out, r, c);
                out.push_str("\x1b[?25h");
            },
            None => {
                out.push_str("\x1b[?25l");
            },
        }
        assert(out@ =~= old(self).draw_text(f, spans@));
        out
    }
}

/// Where the terminal's cursor and style stand while a frame is painted.
struct Painter {
    pen: Option<Cell>,
    at: Option<(u16, u16)>,
    paints: Ghost<Seq<Paint>>,
}

impl Painter {
    spec fn wf(self, cols: int) -> bool {
        let n = self.paints@.len();
        if n == 0 {
            self.pen is None && self.at is None
        } else {
            let last = self.paints@[n - 1];
            &&& self.pen matches Some(p) && p.styled_like(last.cell)
            &&& match self.at {
                Some((r, c)) => rests_at(last, cols) == Some((r as int, c as int)),
                None => rests_at(last, cols) is None,
            }
        }
    }

    /// Write one glyph.
    fn paint(&mut self, out: &mut String, row: u16, col: u16, cell: Cell, span: usize, cols: u16)
        requires
            old(self).wf(cols as int),
            span <= u16::MAX,
        ensures
            final(self).wf(cols as int),
            final(self).paints@ == old(self).paints@.push(
                Paint { row: row as int, col: col as int, cell, span: span as int },
            ),
            final(out)@ == old(out)@ + paint_text(
                final(self).paints@,
                cols as int,
                old(self).paints@.len() as int,
            ),
    {
        let ghost k = self.paints@.len() as int;
        let ghost p = Paint { row: row as int, col: col as int, cell, span: span as int };
        let ghost paints = self.paints@.push(p);
        assert(k > 0 ==> paints[k - 1] == self.paints@[k - 1]);
        let stands = match self.at {
            Some((r, c)) => r == row && c == col,
            None => false,
        };
        if !stands {
            push_move(out, row, col);
        }
        let styled = match self.pen {
            Some(pen) => pen.same_style(&cell),
            None => false,
        };
        if !styled {
            let style = sgr(&cell);
            out.push_str(style.as_str());
            self.pen = Some(cell);
        }
        out.push(cell.ch);
        assert(out@ =~= old(out)@ + paint_text(paints, cols as int, k));
        let end: u32 = col as u32 + span as u32;
        self.at =
        if end >= cols as u32 {
            None
        } else {
            Some((row, end as u16))
        };
        self.paints = Ghost(paints);
    }
}

/// The place of a cell is one of the places there are.
pub(crate) proof fn lemma_place(f: FrameModel, x: int, y: int)
    requires
        f.covered(),
        0 <= x < f.cols,
        0 <= y < f.rows,
    ensures
        0 <= f.place(x, y) < f.cells.len(),
{
    assert(y * f.cols + x < f.cols * f.rows) by (nonlinear_arith)
        requires
            0 <= x < f.cols,
            0 <= y < f.rows,
    ;
    assert(0 <= y * f.cols) by (nonlinear_arith)
        requires
            0 <= f.cols,
            0 <= y,
    ;
}

fn draw_row(
    frame: &Frame,
    spans: &Vec<usize>,
    y: u16,
    prev: &mut Vec<Cell>,
    painter: &mut Painter,
    out: &mut String,
    Ghost(head): Ghost<Seq<char>>,
)
    requires
        frame@.covered(),
        spans@.len() == frame@.cells.len(),
        forall|i: int| 0 <= i < spans@.len() ==> #[trigger] spans@[i] <= u16::MAX,
        y < frame.rows,
        old(prev)@.len() == frame@.cells.len(),
        old(painter).wf(frame@.cols),
        old(out)@ == head + paints_text(
            old(painter).paints@,
            frame@.cols,
            old(painter).paints@.len() as int,
        ),
    ensures
        final(painter).wf(frame@.cols),
        final(prev)@.len() == frame@.cells.len(),
        final(out)@ == head + paints_text(
            final(painter).paints@,
            frame@.cols,
            final(painter).paints@.len() as int,
        ),
        (Walk { shown: final(prev)@, paints: final(painter).paints@ }) == frame@.walk_row(
            spans@,
            Walk { shown: old(prev)@, paints: old(painter).paints@ },
            y as int,
            0,
        ),
{
    let ghost f = frame@;
    let ghost row = f.walk_row(spans@, Walk { shown: prev@, paints: painter.paints@ }, y as int, 0);
    let n: usize = frame.cells.len();
    let cols: u32 = frame.cols as u32;
    let mut x: u32 = 0;
    while x < cols
        invariant
            f == frame@,
            f.covered(),
            n == f.cells.len(),
            cols == f.cols,
            y < f.rows,
            x <= cols + 0xffff,
            cols <= 0xffff,
            spans@.len() == f.cells.len(),
            forall|i: int| 0 <= i < spans@.len() ==> #[trigger] spans@[i] <= u16::MAX,
            prev@.len() == f.cells.len(),
            painter.wf(f.cols),
            out@ == head + paints_text(painter.paints@, f.cols, painter.paints@.len() as int),
            row == f.walk_row(
                spans@,
                Walk { shown: prev@, paints: painter.paints@ },
                y as int,
                x as int,
            ),
        decreases cols + 0xffff - x,
    {
        proof {
            lemma_place(f, x as int, y as int);
            lemma_place(f, 0, y as int);
        }
        let start: usize = y as usize * frame.cols as usize;
        let i: usize = start + x as usize;
        assert(i == f.place(x as int, y as int));
        let cell = frame.cells[i];
        if cell.ch == WIDE_CONT {
            x += 1;
        } else {
            let span: usize = if spans[i] == 0 {
                1
            } else {
                spans[i]
            };
            let stale = prev[i] != cell || (span == 2 && i < n - 1 && prev[i + 1] != frame.cells[i
                + 1]);
            if stale {
                let ghost paints = painter.paints@;
                painter.paint(out, y, x as u16, cell, span, frame.cols);
                proof {
                    let more = painter.paints@;
                    let k = paints.len() as int;
                    lemma_paints_prefix(paints, more, f.cols, k);
                    assert(paints_text(more, f.cols, k + 1) == paints_text(more, f.cols, k)
                        + paint_text(more, f.cols, k));
                    assert(out@ =~= head + paints_text(more, f.cols, k + 1));
                }
                prev.set(i, cell);
                if span == 2 && i < n - 1 {
                    prev.set(i + 1, frame.cells[i + 1]);
                }
            }
            x += span as u32;
        }
    }
}

/// What was written does not change when more is painted.
proof fn lemma_paints_prefix(paints: Seq<Paint>, more: Seq<Paint>, cols: int, n: int)
    requires
        0 <= n <= paints.len() <= more.len(),
        forall|k: int| 0 <= k < paints.len() ==> more[k] == paints[k],
    ensures
        paints_text(paints, cols, n) == paints_text(more, cols, n),
    decreases n,
{
    if n > 0 {
        lemma_paints_prefix(paints, more, cols, n - 1);
    }
}

} // verus!
