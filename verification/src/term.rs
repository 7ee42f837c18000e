//! The console that the multiplexer draws itself on.
//!
//! Three things are needed of it: raw input, since every keystroke belongs to a
//! child; keys as escape sequences, so that they can be forwarded as they are;
//! and escape sequences interpreted on the way out. Everything touched is put
//! back on the way out, once.
use vstd::prelude::*;

verus! {

pub const ENABLE_PROCESSED_INPUT: u32 = 0x1;

pub const ENABLE_LINE_INPUT: u32 = 0x2;

pub const ENABLE_ECHO_INPUT: u32 = 0x4;

pub const ENABLE_MOUSE_INPUT: u32 = 0x10;

pub const ENABLE_QUICK_EDIT_MODE: u32 = 0x40;

pub const ENABLE_EXTENDED_FLAGS: u32 = 0x80;

pub const ENABLE_VIRTUAL_TERMINAL_INPUT: u32 = 0x200;

pub const ENABLE_PROCESSED_OUTPUT: u32 = 0x1;

pub const ENABLE_WRAP_AT_EOL_OUTPUT: u32 = 0x2;

pub const ENABLE_VIRTUAL_TERMINAL_PROCESSING: u32 = 0x4;

pub const DISABLE_NEWLINE_AUTO_RETURN: u32 = 0x8;

/// The code page of UTF-8.
pub const CP_UTF8: u32 = 65001;

/// The size of a console that does not tell.
pub const FALLBACK_COLS: u16 = 80;

pub const FALLBACK_ROWS: u16 = 24;

/// Raw input: no echo, no lines, no Ctrl-C, no quick edit (which freezes output
/// on a stray click and eats the mouse), but the mouse and keys as sequences.
pub open spec fn raw_input(mode: u32) -> u32 {
    (mode & !(ENABLE_ECHO_INPUT | ENABLE_LINE_INPUT | ENABLE_PROCESSED_INPUT
        | ENABLE_QUICK_EDIT_MODE)) | ENABLE_MOUSE_INPUT | ENABLE_VIRTUAL_TERMINAL_INPUT
        | ENABLE_EXTENDED_FLAGS
}

/// Output that is interpreted and does not wrap: every cell is placed
/// explicitly, and an implicit wrap would scroll the screen away.
pub open spec fn raw_output(mode: u32) -> u32 {
    (mode & !ENABLE_WRAP_AT_EOL_OUTPUT) | ENABLE_PROCESSED_OUTPUT
        | ENABLE_VIRTUAL_TERMINAL_PROCESSING | DISABLE_NEWLINE_AUTO_RETURN
}

/// The input mode to set, given the one that was.
pub fn input_mode(mode: u32) -> (res: u32)
    ensures
        res == raw_input(mode),
{
    (mode & !(ENABLE_ECHO_INPUT | ENABLE_LINE_INPUT | ENABLE_PROCESSED_INPUT
        | ENABLE_QUICK_EDIT_MODE)) | ENABLE_MOUSE_INPUT | ENABLE_VIRTUAL_TERMINAL_INPUT
        | ENABLE_EXTENDED_FLAGS
}

/// The output mode to set, given the one that was.
pub fn output_mode(mode: u32) -> (res: u32)
    ensures
        res == raw_output(mode),
{
    (mode & !ENABLE_WRAP_AT_EOL_OUTPUT) | ENABLE_PROCESSED_OUTPUT
        | ENABLE_VIRTUAL_TERMINAL_PROCESSING | DISABLE_NEWLINE_AUTO_RETURN
}

pub open spec fn extent(lo: i16, hi: i16) -> u16 {
    if hi - lo + 1 < 1 {
        1
    } else {
        (hi - lo + 1) as u16
    }
}

fn measure(lo: i16, hi: i16) -> (n: u16)
    requires
        -32768 <= hi - lo < 32767,
    ensures
        n == extent(lo, hi),
{
    let n: i32 = hi as i32 - lo as i32 + 1;
    if n < 1 {
        1
    } else {
        n as u16
    }
}

/// Columns and rows of the console window, whose first and last column and row
/// are given; not those of the buffer behind it.
pub fn size(left: i16, top: i16, right: i16, bottom: i16) -> (size: (u16, u16))
    requires
        -32768 <= right - left < 32767,
        -32768 <= bottom - top < 32767,
    ensures
        size == (extent(left, right), extent(top, bottom)),
        size.0 >= 1,
        size.1 >= 1,
{
    (measure(left, right), measure(top, bottom))
}

/// Alternate screen, hidden cursor, cleared, and mouse reports in the encoding
/// that has no limit on the column.
pub fn enter_text() -> (s: &'static str)
    ensures
        s@ == "\x1b[?1049h\x1b[?25l\x1b[2J\x1b[H\x1b[?1000h\x1b[?1006h"@,
{
    "\x1b[?1049h\x1b[?25l\x1b[2J\x1b[H\x1b[?1000h\x1b[?1006h"
}

/// Mouse off, style reset, cursor shown, back to the normal screen.
pub fn leave_text() -> (s: &'static str)
    ensures
        s@ == "\x1b[?1006l\x1b[?1000l\x1b[0m\x1b[?25h\x1b[?1049l"@,
{
    "\x1b[?1006l\x1b[?1000l\x1b[0m\x1b[?25h\x1b[?1049l"
}

/// What the console was like before.
#[derive(Clone, Copy, PartialEq, Eq, Debug, Structural)]
pub struct Modes {
    pub input: u32,
    pub output: u32,
    pub input_page: u32,
    pub output_page: u32,
}

/// A console that was taken over.
pub struct HostTerm {
    pub original: Modes,
    pub restored: bool,
}

/// Why the console cannot be taken over.
pub open spec fn refusal(attached: bool) -> Seq<char> {
    if attached {
        "stdin/stdout is not a console — run mux from a real terminal"@
    } else {
        "no console attached"@
    }
}

impl HostTerm {
    /// Take the console over. `attached` says that there are handles at all, and
    /// `modes` is what was read from them. What comes back is what to set.
    pub fn enter(attached: bool, modes: Option<Modes>) -> (res: Result<(Self, Modes), &'static str>)
        ensures
            res is Ok <==> attached && modes is Some,
            res matches Ok((host, set)) ==> {
                &&& modes == Some(host.original)
                &&& !host.restored
                &&& set == (Modes {
                    input: raw_input(host.original.input),
                    output: raw_output(host.original.output),
                    input_page: CP_UTF8,
                    output_page: CP_UTF8,
                })
            },
            res matches Err(why) ==> why@ == refusal(attached),
    {
        if !attached {
            return Err("no console attached");
        }
        match modes {
            None => Err("stdin/stdout is not a console — run mux from a real terminal"),
            Some(original) => {
                let set = Modes {
                    input: input_mode(original.input),
                    output: output_mode(original.output),
                    input_page: CP_UTF8,
                    output_page: CP_UTF8,
                };
                Ok((HostTerm { original, restored: false }, set))
            },
        }
    }

    /// Give the console back: what to set, the first time, and nothing after.
    pub fn restore(&mut self) -> (set: Option<Modes>)
        ensures
            set == (if old(self).restored {
                None
            } else {
                Some(old(self).original)
            }),
            final(self).restored,
            final(self).original == old(self).original,
    {
        if self.restored {
            return None;
        }
        self.restored = true;
        Some(self.original)
    }
}

// ---- laws -----------------------------------------------------------------------

/// Raw input has neither echo nor lines nor Ctrl-C nor quick edit, has the mouse
/// and keys as sequences, and leaves every other bit as it was.
pub proof fn law_raw_input(mode: u32)
    ensures
        raw_input(mode) & ENABLE_ECHO_INPUT == 0,
        raw_input(mode) & ENABLE_LINE_INPUT == 0,
        raw_input(mode) & ENABLE_PROCESSED_INPUT == 0,
        raw_input(mode) & ENABLE_QUICK_EDIT_MODE == 0,
        raw_input(mode) & ENABLE_MOUSE_INPUT != 0,
        raw_input(mode) & ENABLE_VIRTUAL_TERMINAL_INPUT != 0,
        raw_input(mode) & ENABLE_EXTENDED_FLAGS != 0,
        raw_input(mode) & !0x2d7u32 == mode & !0x2d7u32,
        raw_input(raw_input(mode)) == raw_input(mode),
{
    let raw = raw_input(mode);
    assert(raw == (mode & !(0x4u32 | 0x2u32 | 0x1u32 | 0x40u32)) | 0x10u32 | 0x200u32 | 0x80u32);
    assert(raw & 0x4u32 == 0 && raw & 0x2u32 == 0 && raw & 0x1u32 == 0 && raw & 0x40u32 == 0 && raw
        & 0x10u32 != 0 && raw & 0x200u32 != 0 && raw & 0x80u32 != 0 && raw & !0x2d7u32 == mode
        & !0x2d7u32 && (raw & !(0x4u32 | 0x2u32 | 0x1u32 | 0x40u32)) | 0x10u32 | 0x200u32 | 0x80u32
        == raw) by (bit_vector)
        requires
            raw == (mode & !(0x4u32 | 0x2u32 | 0x1u32 | 0x40u32)) | 0x10u32 | 0x200u32 | 0x80u32,
    ;
}

/// Raw output is interpreted, does not wrap, and leaves every other bit as it
/// was.
pub proof fn law_raw_output(mode: u32)
    ensures
        raw_output(mode) & ENABLE_WRAP_AT_EOL_OUTPUT == 0,
        raw_output(mode) & ENABLE_PROCESSED_OUTPUT != 0,
        raw_output(mode) & ENABLE_VIRTUAL_TERMINAL_PROCESSING != 0,
        raw_output(mode) & DISABLE_NEWLINE_AUTO_RETURN != 0,
        raw_output(mode) & !0xfu32 == mode & !0xfu32,
{
    let raw = raw_output(mode);
    assert(raw == (mode & !0x2u32) | 0x1u32 | 0x4u32 | 0x8u32);
    assert(raw & 0x2u32 == 0 && raw & 0x1u32 != 0 && raw & 0x4u32 != 0 && raw & 0x8u32 != 0 && raw
        & !0xfu32 == mode & !0xfu32) by (bit_vector)
        requires
            raw == (mode & !0x2u32) | 0x1u32 | 0x4u32 | 0x8u32,
    ;
}

/// A console's size is its window's, both edges counted, and never less than one.
pub proof fn law_sizes_count_both_edges(lo: i16, hi: i16)
    requires
        hi - lo < 32767,
    ensures
        hi >= lo ==> extent(lo, hi) == hi - lo + 1,
        hi < lo ==> extent(lo, hi) == 1,
        lo < i16::MAX && hi < i16::MAX ==> extent((lo + 1) as i16, (hi + 1) as i16) == extent(
            lo,
            hi,
        ),
{
}

/// Without a console the refusal says so, and not that the console is another
/// kind of thing.
pub proof fn law_refusals_tell_why()
    ensures
        refusal(false) == "no console attached"@,
        refusal(true) != refusal(false),
{
    reveal_strlit("no console attached");
    reveal_strlit("stdin/stdout is not a console — run mux from a real terminal");
    assert(refusal(true)[0] == 's');
    assert(refusal(false)[0] == 'n');
}

} // verus!
