//! How many columns a character takes on the screen.
//!
//! The tables are those of the `unicode-width` crate. A character takes no
//! column (a combining mark), one, two (East Asian wide), or three; a control
//! character has no width at all.
use unicode_width::UnicodeWidthChar;
use vstd::prelude::*;

verus! {

/// The displayed width of a character by the tables of `unicode-width`, or
/// `None` for a control character.
pub uninterp spec fn unicode_width(c: char) -> Option<usize>;

/// The control characters: C0, DEL and C1.
pub open spec fn is_control(c: char) -> bool {
    let v = c as u32;
    v < 0x20 || 0x7f <= v < 0xa0
}

/// The ASCII characters that are printed, the space among them.
pub open spec fn printable_ascii(c: char) -> bool {
    0x20 <= c as u32 && (c as u32) < 0x7f
}

/// Calls `UnicodeWidthChar::width` of the `unicode-width` crate.
///
/// Claimed of it: the result is a function of the character; it is `None` for
/// the control characters and for no other; printable ASCII has width one; no
/// character is wider than three columns.
#[verifier::external_body]
pub(crate) fn char_width(c: char) -> (w: Option<usize>)
    ensures
        w == unicode_width(c),
        w is None <==> is_control(c),
        w matches Some(n) ==> n <= 3,
        printable_ascii(c) ==> w == Some(1usize),
{
    c.width()
}

/// The columns a printed character takes; a control character takes none.
pub open spec fn print_width(c: char) -> nat {
    match unicode_width(c) {
        Some(n) => n as nat,
        None => 0,
    }
}

/// The columns that `c` takes when printed.
pub fn columns_of(c: char) -> (w: usize)
    ensures
        w == print_width(c),
        w <= 3,
        is_control(c) ==> w == 0,
        printable_ascii(c) ==> w == 1,
{
    match char_width(c) {
        Some(n) => n,
        None => 0,
    }
}

/// The columns that a painted cell spans: at least one, whatever it holds.
pub open spec fn cell_span(c: char) -> nat {
    match unicode_width(c) {
        Some(n) => if n == 0 { 1 } else { n as nat },
        None => 1,
    }
}

/// The columns that a cell holding `c` spans.
pub fn span_of(c: char) -> (w: usize)
    ensures
        w == cell_span(c),
        1 <= w <= 3,
        printable_ascii(c) ==> w == 1,
{
    match char_width(c) {
        Some(n) => if n == 0 {
            1
        } else {
            n
        },
        None => 1,
    }
}

/// A cell spans the columns that its character takes when printed, and one where
/// that would be none.
pub proof fn law_every_cell_spans_a_column(c: char)
    ensures
        print_width(c) >= 1 ==> cell_span(c) == print_width(c),
        print_width(c) == 0 ==> cell_span(c) == 1,
{
}

} // verus!
