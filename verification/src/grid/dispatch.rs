//! What each character and each sequence does.
use super::model;
use super::model::{is_title, GridModel, VtAction};
use super::{Cell, Color, Grid, A_BOLD, A_DIM, A_ITALIC, A_REVERSE, A_STRIKE, A_UNDERLINE, WIDE_CONT};
use crate::text::{push_decimal, trim, trimmed};
use crate::utf8::decode_lossy;
use crate::vt::{actions, advance, fields_of, groups, vt_actions, vt_state, VtEvent};
use crate::width::{columns_of, is_control, printable_ascii};
use vstd::prelude::*;
use vstd::utf8::{encode_utf8, valid_utf8};

verus! {

/// The first number of the parameter at `idx`, or `default` where that is
/// missing or zero.
pub fn arg(params: &Vec<Vec<u16>>, idx: usize, default: u16) -> (n: u16)
    ensures
        n == model::arg(groups(params@), idx as int, default),
{
    if idx < params.len() && params[idx].len() > 0 && params[idx][0] != 0 {
        params[idx][0]
    } else {
        default
    }
}

/// The first number of the first parameter, or zero: for sequences where no
/// parameter and `0` mean the same.
pub fn mode_arg(params: &Vec<Vec<u16>>) -> (n: u16)
    ensures
        n == model::mode_arg(groups(params@)),
{
    arg(params, 0, 0)
}

/// The colour that the numbers from `from` on spell, and how many of them it
/// took.
pub fn parse_extended(rest: &Vec<u16>, from: usize) -> (res: Option<(Color, usize)>)
    requires
        from <= rest@.len(),
    ensures
        res is Some <==> model::extended_color(rest@.skip(from as int)) is Some,
        res matches Some((color, used)) ==> model::extended_color(rest@.skip(from as int)) == Some(
            (color, used as int),
        ),
{
    let n: usize = rest.len() - from;
    if n >= 2 && rest[from] == 5 {
        Some((Color::Indexed(low_byte(rest[from + 1])), 2))
    } else if n >= 4 && rest[from] == 2 {
        Some(
            (
                Color::Rgb(
                    low_byte(rest[from + 1]),
                    low_byte(rest[from + 2]),
                    low_byte(rest[from + 3]),
                ),
                4,
            ),
        )
    } else {
        None
    }
}

fn low_byte(n: u16) -> (b: u8)
    ensures
        b == n as u8,
{
    #[verifier::truncate] (n as u8)
}

/// The first number of each parameter from the `i`-th on that has one.
fn firsts(params: &Vec<Vec<u16>>, from: usize) -> (out: Vec<u16>)
    requires
        from <= params@.len(),
    ensures
        out@ == model::firsts(groups(params@), from as int),
{
    let mut out: Vec<u16> = Vec::new();
    let mut i: usize = from;
    while i < params.len()
        invariant
            from <= i <= params@.len(),
            out@ + model::firsts(groups(params@), i as int) == model::firsts(
                groups(params@),
                from as int,
            ),
        decreases params@.len() - i,
    {
        let ghost rest = model::firsts(groups(params@), i + 1);
        let ghost before = out@;
        if params[i].len() > 0 {
            out.push(params[i][0]);
            assert(before + (seq![params@[i as int]@[0]] + rest) =~= out@ + rest);
        }
        i += 1;
    }
    assert(out@ + Seq::<u16>::empty() =~= out@);
    out
}

/// The style after one number that needs no other.
fn sgr_simple(pen: Cell, p: u16) -> (res: Cell)
    ensures
        res == model::sgr_simple(pen, p),
{
    let mut pen = pen;
    if p == 0 {
        pen = Cell::default();
    } else if p == 1 {
        pen.attrs = pen.attrs | A_BOLD;
    } else if p == 2 {
        pen.attrs = pen.attrs | A_DIM;
    } else if p == 3 {
        pen.attrs = pen.attrs | A_ITALIC;
    } else if p == 4 {
        pen.attrs = pen.attrs | A_UNDERLINE;
    } else if p == 7 {
        pen.attrs = pen.attrs | A_REVERSE;
    } else if p == 9 {
        pen.attrs = pen.attrs | A_STRIKE;
    } else if p == 22 {
        pen.attrs = pen.attrs & !(A_BOLD | A_DIM);
    } else if p == 23 {
        pen.attrs = pen.attrs & !A_ITALIC;
    } else if p == 24 {
        pen.attrs = pen.attrs & !A_UNDERLINE;
    } else if p == 27 {
        pen.attrs = pen.attrs & !A_REVERSE;
    } else if p == 29 {
        pen.attrs = pen.attrs & !A_STRIKE;
    } else if 30 <= p && p <= 37 {
        pen.fg = Color::Indexed((p - 30) as u8);
    } else if p == 39 {
        pen.fg = Color::Default;
    } else if 40 <= p && p <= 47 {
        pen.bg = Color::Indexed((p - 40) as u8);
    } else if p == 49 {
        pen.bg = Color::Default;
    } else if 90 <= p && p <= 97 {
        pen.fg = Color::Indexed((p - 90 + 8) as u8);
    } else if 100 <= p && p <= 107 {
        pen.bg = Color::Indexed((p - 100 + 8) as u8);
    }
    pen
}

fn with_color(pen: Cell, p: u16, color: Color) -> (res: Cell)
    ensures
        res == model::with_color(pen, p, color),
{
    let mut pen = pen;
    if p == 38 {
        pen.fg = color;
    } else {
        pen.bg = color;
    }
    pen
}

/// The style after a whole `m` sequence.
pub fn sgr_pen(pen: Cell, params: &Vec<Vec<u16>>) -> (res: Cell)
    ensures
        res == model::sgr(pen, groups(params@)),
{
    let ghost gs = groups(params@);
    let n: usize = params.len();
    if n == 0 {
        return Cell::default();
    }
    let mut res = pen;
    let mut i: usize = 0;
    while i < n
        invariant
            n == params@.len(),
            gs == groups(params@),
            model::sgr_from(res, gs, i as int) == model::sgr_from(pen, gs, 0),
        decreases n - i,
    {
        let g = &params[i];
        let p: u16 = if g.len() > 0 {
            g[0]
        } else {
            0
        };
        assert(gs[i as int] == g@);
        if p == 38 || p == 48 {
            if g.len() > 1 {
                let color = parse_extended(g, 1);
                match color {
                    Some((c, _)) => {
                        res = with_color(res, p, c);
                    },
                    None => {},
                }
                i += 1;
            } else {
                let rest = firsts(params, i + 1);
                assert(rest@.skip(0) =~= rest@);
                let color = parse_extended(&rest, 0);
                proof {
                    lemma_firsts_len(gs, i + 1);
                }
                match color {
                    Some((c, used)) => {
                        res = with_color(res, p, c);
                        i += used + 1;
                    },
                    None => {
                        i += 1;
                    },
                }
            }
        } else {
            res = sgr_simple(res, p);
            i += 1;
        }
    }
    res
}

proof fn lemma_firsts_len(params: Seq<Seq<u16>>, i: int)
    requires
        0 <= i <= params.len(),
    ensures
        model::firsts(params, i).len() <= params.len() - i,
    decreases params.len() - i,
{
    if i < params.len() {
        lemma_firsts_len(params, i + 1);
    }
}

/// The bytes of a text.
fn push_text_bytes(out: &mut Vec<u8>, s: &str)
    ensures
        final(out)@ == old(out)@ + encode_utf8(s@),
{
    let bytes = s.as_bytes();
    let mut i: usize = 0;
    while i < bytes.len()
        invariant
            i <= bytes@.len(),
            out@ == old(out)@ + bytes@.take(i as int),
        decreases bytes@.len() - i,
    {
        out.push(bytes[i]);
        i += 1;
        assert(out@ =~= old(out)@ + bytes@.take(i as int));
    }
    assert(bytes@.take(i as int) =~= bytes@);
}

fn is_title_kind(kind: &Vec<u8>) -> (yes: bool)
    ensures
        yes == is_title(kind@),
{
    if kind.len() == 1 && (kind[0] == 0x30 || kind[0] == 0x32) {
        assert(kind@ =~= seq![kind@[0]]);
        true
    } else {
        assert(kind@.len() != 1 ==> kind@ != seq![0x30u8] && kind@ != seq![0x32u8]);
        assert(kind@.len() == 1 ==> kind@[0] != 0x30 && kind@[0] != 0x32);
        assert(seq![0x30u8][0] == 0x30u8);
        assert(seq![0x32u8][0] == 0x32u8);
        false
    }
}

impl Grid {
    /// A printable character.
    pub fn print(&mut self, c: char)
        requires
            old(self)@.wf(),
            old(self)@.fits(c),
        ensures
            final(self)@ == old(self)@.printed(c),
            final(self)@.wf(),
            printable_ascii(c) ==> final(self)@ == old(self)@.printed_as(c, 1),
            is_control(c) ==> final(self)@ == old(self)@,
    {
        self.print_as(c, columns_of(c));
    }

    /// A printable character that takes `w` columns.
    pub fn print_as(&mut self, c: char, w: usize)
        requires
            old(self)@.wf(),
            old(self)@.has_room(w as int),
        ensures
            final(self)@ == old(self)@.printed_as(c, w as int),
            final(self)@.wf(),
    {
        if w == 0 {
            return ;
        }
        if self.wrap_pending {
            self.cr();
            self.lf();
        }
        assert(self@.autowrap == old(self)@.autowrap && self@.cols == old(self)@.cols);
        let ghost g = self@;
        let room: usize = self.cols - self.screen.cursor_col;
        if w > room {
            if self.autowrap {
                self.cr();
                self.lf();
            } else {
                self.screen.cursor_col = self.cols - w;
                assert(self@ =~= g.with_cursor(g.screen.cursor_row, g.cols - w));
            }
        }
        self.place(c, w);
    }

    /// Put `c` down at the cursor and step past it.
    fn place(&mut self, c: char, w: usize)
        requires
            old(self)@.wf(),
            1 <= w,
        ensures
            final(self)@ == old(self)@.placed(c, w as int),
            final(self)@.wf(),
    {
        let r = self.screen.cursor_row;
        let c0 = self.screen.cursor_col;
        let room: usize = self.cols - c0;
        let glyph = Cell::styled(c, self.pen.fg, self.pen.bg, self.pen.attrs);
        let filler = Cell::styled(WIDE_CONT, self.pen.fg, self.pen.bg, self.pen.attrs);
        let ghost here = self@.here();
        self.screen.rows[r][c0] = glyph;
        if w == 2 && room > 1 {
            self.screen.rows[r][c0 + 1] = filler;
        }
        let ghost line = if w == 2 && c0 + 1 < old(self)@.cols {
            here.update(c0 as int, glyph).update(c0 + 1, filler)
        } else {
            here.update(c0 as int, glyph)
        };
        assert(self@.screen.rows =~= old(self)@.screen.rows.update(r as int, line));
        if w >= room {
            self.screen.cursor_col = self.cols - 1;
            self.wrap_pending = self.autowrap;
        } else {
            self.screen.cursor_col = c0 + w;
        }
        assert(self@ =~= old(self)@.placed(c, w as int));
    }

    /// A control character.
    pub fn execute(&mut self, byte: u8)
        requires
            old(self)@.wf(),
        ensures
            final(self)@ == old(self)@.executed(byte),
            final(self)@.wf(),
    {
        if byte == 0x08 {
            self.backspace();
        } else if byte == 0x09 {
            self.tab();
        } else if byte == 0x0a || byte == 0x0b || byte == 0x0c {
            self.lf();
        } else if byte == 0x0d {
            self.cr();
        }
    }

    /// Apply style numbers to the pen.
    pub fn sgr(&mut self, params: &Vec<Vec<u16>>)
        requires
            old(self)@.wf(),
        ensures
            final(self)@ == (GridModel {
                pen: model::sgr(old(self)@.pen, groups(params@)),
                ..old(self)@
            }),
            final(self)@.wf(),
    {
        self.pen = sgr_pen(self.pen, params);
        assert(self@ =~= GridModel {
            pen: model::sgr(old(self)@.pen, groups(params@)),
            ..old(self)@
        });
    }

    fn set_modes(&mut self, private: bool, params: &Vec<Vec<u16>>, on: bool)
        requires
            old(self)@.wf(),
        ensures
            final(self)@ == old(self)@.modes_set(private, groups(params@), 0, on),
            final(self)@.wf(),
    {
        let mut i: usize = 0;
        while i < params.len()
            invariant
                i <= params@.len(),
                self@.wf(),
                self@.modes_set(private, groups(params@), i as int, on) == old(self)@.modes_set(
                    private,
                    groups(params@),
                    0,
                    on,
                ),
            decreases params@.len() - i,
        {
            if params[i].len() > 0 {
                self.set_mode(private, params[i][0], on);
            }
            i += 1;
        }
    }

    fn set_region(&mut self, top: usize, bot: usize)
        requires
            old(self)@.wf(),
        ensures
            final(self)@ == old(self)@.region_set(top as int, bot as int),
            final(self)@.wf(),
    {
        if top < bot && bot < self.rows {
            self.scroll_top = top;
            self.scroll_bot = bot;
            assert(self@ =~= GridModel {
                scroll_top: top as int,
                scroll_bot: bot as int,
                ..old(self)@
            });
            let row = if self.origin_mode {
                top
            } else {
                0
            };
            self.set_cursor(row, 0);
        }
    }

    fn address(&mut self, row: usize, col: usize)
        requires
            old(self)@.wf(),
        ensures
            final(self)@ == old(self)@.addressed(row as int, col as int),
            final(self)@.wf(),
    {
        let r: usize = if self.origin_mode {
            row.saturating_add(self.scroll_top)
        } else {
            row
        };
        self.set_cursor(r, col);
    }

    fn report_cursor(&mut self)
        requires
            old(self)@.wf(),
        ensures
            final(self)@ == old(self)@.replied(
                model::cursor_report(
                    old(self)@.screen.cursor_row + 1,
                    old(self)@.screen.cursor_col + 1,
                ),
            ),
            final(self)@.wf(),
    {
        let mut s = crate::text::copy_text("\x1b[");
        push_decimal(&mut s, (self.screen.cursor_row + 1) as u64);
        s.push_str(";");
        push_decimal(&mut s, (self.screen.cursor_col + 1) as u64);
        s.push_str("R");
        push_text_bytes(&mut self.reply, s.as_str());
        assert(self@ =~= old(self)@.replied(
            model::cursor_report(
                old(self)@.screen.cursor_row + 1,
                old(self)@.screen.cursor_col + 1,
            ),
        ));
    }

    fn report_attributes(&mut self)
        requires
            old(self)@.wf(),
        ensures
            final(self)@ == old(self)@.replied(model::device_attributes()),
            final(self)@.wf(),
    {
        push_text_bytes(&mut self.reply, "\x1b[?6c");
        assert(self@ =~= old(self)@.replied(model::device_attributes()));
    }

    fn clear_tabs(&mut self, which: u16)
        requires
            old(self)@.wf(),
        ensures
            final(self)@ == old(self)@.tabs_cleared(which),
            final(self)@.wf(),
    {
        if which == 3 {
            let mut c: usize = 0;
            let n: usize = self.tabs.len();
            let mut tabs: Vec<bool> = Vec::new();
            while c < n
                invariant
                    c <= n,
                    tabs@ == Seq::new(c as nat, |k: int| false),
                decreases n - c,
            {
                tabs.push(false);
                c += 1;
                assert(tabs@ =~= Seq::new(c as nat, |k: int| false));
            }
            self.tabs = tabs;
        } else {
            let c = self.screen.cursor_col;
            self.tabs.set(c, false);
        }
        assert(self@.tabs =~= old(self)@.tabs_cleared(which).tabs);
        assert(self@ =~= old(self)@.tabs_cleared(which));
    }

    fn set_tab(&mut self)
        requires
            old(self)@.wf(),
        ensures
            final(self)@ == (GridModel {
                tabs: old(self)@.tabs.update(old(self)@.screen.cursor_col, true),
                ..old(self)@
            }),
            final(self)@.wf(),
    {
        let c = self.screen.cursor_col;
        self.tabs.set(c, true);
        assert(self@ =~= GridModel {
            tabs: old(self)@.tabs.update(old(self)@.screen.cursor_col, true),
            ..old(self)@
        });
    }

    /// A control sequence, by its final character.
    pub fn csi_dispatch(&mut self, params: &Vec<Vec<u16>>, intermediates: &Vec<u8>, action: char)
        requires
            old(self)@.wf(),
        ensures
            final(self)@ == old(self)@.csi(groups(params@), intermediates@, action),
            final(self)@.wf(),
    {
        let private = intermediates.len() > 0 && intermediates[0] == 0x3f;
        let n: u16 = arg(params, 0, 1);
        let count: usize = n as usize;
        match action {
            'A' => self.move_rel(n, 0, 0, 0),
            'B' | 'e' => self.move_rel(0, n, 0, 0),
            'C' | 'a' => self.move_rel(0, 0, 0, n),
            'D' => self.move_rel(0, 0, n, 0),
            'E' => {
                self.move_rel(0, n, 0, 0);
                self.cr();
            },
            'F' => {
                self.move_rel(n, 0, 0, 0);
                self.cr();
            },
            'G' | '`' => {
                let r = self.screen.cursor_row;
                self.set_cursor(r, count - 1);
            },
            'd' => {
                let c = self.screen.cursor_col;
                self.set_cursor(count - 1, c);
            },
            'H' | 'f' => {
                let c: u16 = arg(params, 1, 1);
                self.address(count - 1, c as usize - 1);
            },
            'J' => self.erase_in_display(mode_arg(params)),
            'K' => self.erase_in_line(mode_arg(params)),
            'L' => self.insert_lines(count),
            'M' => self.delete_lines(count),
            'P' => self.delete_chars(count),
            '@' => self.insert_chars(count),
            'X' => self.erase_chars(count),
            'S' => self.scroll_up(count),
            'T' => self.scroll_down(count),
            'm' => self.sgr(params),
            'r' => {
                let all: u16 = #[verifier::truncate] (self.rows as u16);
                let bot: u16 = arg(params, 1, all);
                self.set_region(count - 1, bot.saturating_sub(1) as usize);
            },
            'h' => self.set_modes(private, params, true),
            'l' => self.set_modes(private, params, false),
            's' => self.save_cursor(),
            'u' => self.restore_cursor(),
            'n' => {
                if arg(params, 0, 0) == 6 {
                    self.report_cursor();
                }
            },
            'c' => self.report_attributes(),
            'g' => self.clear_tabs(arg(params, 0, 0)),
            _ => {},
        }
    }

    /// An escape sequence without parameters.
    pub fn esc_dispatch(&mut self, intermediates: &Vec<u8>, byte: u8)
        requires
            old(self)@.wf(),
        ensures
            final(self)@ == old(self)@.esc(intermediates@, byte),
            final(self)@.wf(),
    {
        if intermediates.len() > 0 {
            return ;
        }
        if byte == 0x44 {
            self.lf();
        } else if byte == 0x45 {
            self.cr();
            self.lf();
        } else if byte == 0x4d {
            self.ri();
        } else if byte == 0x48 {
            self.set_tab();
        } else if byte == 0x37 {
            self.save_cursor();
        } else if byte == 0x38 {
            self.restore_cursor();
        } else if byte == 0x63 {
            self.reset();
        }
    }

    /// An operating system command.
    pub fn osc_dispatch(&mut self, fields: &Vec<Vec<u8>>)
        requires
            old(self)@.wf(),
        ensures
            final(self)@ == old(self)@.osc(fields_of(fields@)),
            final(self)@.wf(),
            fields@.len() >= 2 && is_title(fields@[0]@) && valid_utf8(fields@[1]@) ==> exists|
                text: Seq<char>,
            |
                encode_utf8(text) == fields@[1]@ && #[trigger] trim(text) == final(self)@.title,
    {
        if fields.len() >= 2 && is_title_kind(&fields[0]) {
            let text = decode_lossy(fields[1].as_slice());
            self.set_title(text.as_str());
        }
    }

    /// The title that the child gave, without the white space around it.
    pub fn set_title(&mut self, title: &str)
        requires
            old(self)@.wf(),
        ensures
            final(self)@ == (GridModel { title: trim(title@), ..old(self)@ }),
            final(self)@.wf(),
    {
        self.title = trimmed(title);
        assert(self@ =~= GridModel { title: trim(title@), ..old(self)@ });
    }

    /// Apply one event where it can be applied, and say whether it could: a
    /// glyph wider than the screen cannot be printed with wrapping off.
    pub fn apply(&mut self, event: &VtEvent) -> (done: bool)
        requires
            old(self)@.wf(),
        ensures
            done == old(self)@.accepts(event@),
            done ==> final(self)@ == old(self)@.apply(event@),
            !done ==> final(self)@ == old(self)@,
            final(self)@.wf(),
            event@ matches VtAction::Print(c) ==> (printable_ascii(c) ==> done && final(self)@
                == old(self)@.printed_as(c, 1)),
    {
        match event {
            VtEvent::Print(c) => {
                if !self.autowrap && columns_of(*c) > self.cols {
                    return false;
                }
                self.print(*c);
            },
            VtEvent::Execute(byte) => self.execute(*byte),
            VtEvent::Csi { params, intermediates, action } => self.csi_dispatch(
                params,
                intermediates,
                *action,
            ),
            VtEvent::Esc { intermediates, byte } => self.esc_dispatch(intermediates, *byte),
            VtEvent::Osc { fields } => self.osc_dispatch(fields),
        }
        true
    }

    /// Apply events in order, up to the first that cannot be applied, and say
    /// how many were.
    pub fn apply_all(&mut self, events: &Vec<VtEvent>) -> (n: usize)
        requires
            old(self)@.wf(),
        ensures
            n == old(self)@.stops_at(actions(events@), 0),
            n <= events@.len(),
            final(self)@ == old(self)@.fed(actions(events@)),
            final(self)@.wf(),
    {
        let mut i: usize = 0;
        while i < events.len()
            invariant
                i <= events@.len(),
                self@.wf(),
                self@ == old(self)@.after(actions(events@), i as int),
                old(self)@.stops_at(actions(events@), i as int) == old(self)@.stops_at(
                    actions(events@),
                    0,
                ),
            decreases events@.len() - i,
        {
            if !self.apply(&events[i]) {
                return i;
            }
            i += 1;
        }
        i
    }

    /// Feed bytes through a parser. The answer says whether all that was found
    /// in them could be applied; where it could not, the grid stands as it did
    /// before the first event that does not fit.
    pub fn feed(&mut self, parser: &mut vte::Parser, bytes: &[u8]) -> (done: bool)
        requires
            old(self)@.wf(),
        ensures
            *final(parser) == vt_state(*old(parser), bytes@),
            done == old(self)@.takes(vt_actions(*old(parser), bytes@)),
            final(self)@ == old(self)@.fed(vt_actions(*old(parser), bytes@)),
            final(self)@.wf(),
    {
        let events = advance(parser, bytes);
        let n = self.apply_all(&events);
        n == events.len()
    }
}

} // verus!
