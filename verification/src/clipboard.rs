//! The clipboard, as text.
//!
//! Any process can hold it, so opening it may fail for a moment and is tried
//! again. The text on it ends at its first zero, wherever the block it is in
//! ends.
use crate::text::copy_text;
use crate::utf16::{
    decode_lossy, encode_utf16, encode_with_nul, law_utf16_round_trip, text_until_nul, units_of, until_nul,
};
use vstd::prelude::*;
use vstd::utf8::char_is_scalar;

verus! {

/// How many times to try before giving up.
pub const ATTEMPTS: u32 = 10;

/// What to do after an attempt to open the clipboard failed.
#[derive(Clone, Copy, PartialEq, Eq, Debug, Structural)]
pub enum Retry {
    /// Wait that many milliseconds and try again.
    Wait(u64),
    /// Wait that many milliseconds and give up.
    GiveUp(u64),
}

/// The wait after the given attempt, counted from zero: a little longer each
/// time. The last one ends in giving up.
pub fn after_failure(attempt: u32) -> (next: Retry)
    requires
        attempt < ATTEMPTS,
    ensures
        next == (if attempt + 1 < ATTEMPTS {
            Retry::Wait((10 * (attempt + 1)) as u64)
        } else {
            Retry::GiveUp((10 * (attempt + 1)) as u64)
        }),
{
    let wait: u64 = 10 * (attempt as u64 + 1);
    if attempt + 1 < ATTEMPTS {
        Retry::Wait(wait)
    } else {
        Retry::GiveUp(wait)
    }
}

/// What went wrong.
#[derive(Clone, Copy, PartialEq, Eq, Debug, Structural)]
pub enum Problem {
    Held,
    Unreadable,
    NoMemory,
    Unwritable,
    Refused,
}

pub open spec fn problem_text(p: Problem) -> Seq<char> {
    match p {
        Problem::Held => "another application is holding the clipboard"@,
        Problem::Unreadable => "the clipboard's text could not be read"@,
        Problem::NoMemory => "could not allocate for the clipboard"@,
        Problem::Unwritable => "could not write to the clipboard's memory"@,
        Problem::Refused => "the clipboard refused the text"@,
    }
}

impl Problem {
    /// What is said of it.
    pub fn message(self) -> (out: String)
        ensures
            out@ == problem_text(self),
    {
        copy_text(
            match self {
                Problem::Held => "another application is holding the clipboard",
                Problem::Unreadable => "the clipboard's text could not be read",
                Problem::NoMemory => "could not allocate for the clipboard",
                Problem::Unwritable => "could not write to the clipboard's memory",
                Problem::Refused => "the clipboard refused the text",
            },
        )
    }
}

/// The text in a block from the clipboard. No block means no text, which is not
/// an error: an image is simply nothing to paste.
pub fn read_text(block: Option<Vec<u16>>) -> (out: String)
    ensures
        out@ == (match block {
            Some(units) => decode_lossy(until_nul(units@)),
            None => Seq::empty(),
        }),
{
    match block {
        Some(units) => text_until_nul(&units),
        None => {
            let out = String::new();
            assert(out@ =~= Seq::empty());
            out
        },
    }
}

/// The block that puts a text on the clipboard.
pub fn write_text(text: &str) -> (block: Vec<u16>)
    ensures
        block@ == encode_utf16(text@).push(0),
{
    encode_with_nul(text)
}

// ---- laws -----------------------------------------------------------------------

proof fn lemma_until_nul(s: Seq<char>, tail: Seq<u16>)
    requires
        forall|i: int| 0 <= i < s.len() ==> (#[trigger] s[i]) as u32 != 0,
        tail.len() > 0,
        tail[0] == 0,
    ensures
        until_nul(encode_utf16(s) + tail) == encode_utf16(s),
    decreases s.len(),
{
    let u = encode_utf16(s) + tail;
    if s.len() == 0 {
        assert(u[0] == 0);
        assert(until_nul(u) =~= encode_utf16(s));
    } else {
        let c = s[0];
        char_is_scalar(c);
        assert(c as u32 != 0);
        let rest = encode_utf16(s.skip(1));
        assert forall|i: int| 0 <= i < s.skip(1).len() implies (#[trigger] s.skip(
            1,
        )[i]) as u32 != 0 by {
            assert(s.skip(1)[i] == s[i + 1]);
        }
        lemma_until_nul(s.skip(1), tail);
        let first = units_of(c);
        assert(u =~= first + (rest + tail));
        if first.len() == 1 {
            assert(u[0] == first[0] && first[0] != 0);
            assert(u.skip(1) =~= rest + tail);
            assert(until_nul(u) =~= encode_utf16(s));
        } else {
            assert(u[0] == first[0] && first[0] != 0);
            assert(u[1] == first[1] && first[1] != 0);
            assert(u.skip(1)[0] == u[1]);
            assert(u.skip(1).skip(1) =~= rest + tail);
            assert(until_nul(u.skip(1)) =~= seq![first[1]] + rest);
            assert(until_nul(u) =~= encode_utf16(s));
        }
    }
}

/// Text survives a round trip through the clipboard, as long as it holds no
/// zero character: that would end it.
pub proof fn law_text_survives_a_round_trip(s: Seq<char>)
    requires
        forall|i: int| 0 <= i < s.len() ==> (#[trigger] s[i]) as u32 != 0,
    ensures
        decode_lossy(until_nul(encode_utf16(s).push(0))) == s,
{
    assert(encode_utf16(s).push(0) =~= encode_utf16(s) + seq![0u16]);
    lemma_until_nul(s, seq![0u16]);
    law_utf16_round_trip(s);
}

/// No two problems are told in the same words.
pub proof fn law_problems_are_told_apart(a: Problem, b: Problem)
    ensures
        problem_text(a) == problem_text(b) ==> a == b,
{
    reveal_strlit("another application is holding the clipboard");
    reveal_strlit("the clipboard's text could not be read");
    reveal_strlit("could not allocate for the clipboard");
    reveal_strlit("could not write to the clipboard's memory");
    reveal_strlit("the clipboard refused the text");
    assert(problem_text(Problem::Held).len() == 44);
    assert(problem_text(Problem::Unreadable).len() == 38);
    assert(problem_text(Problem::NoMemory).len() == 36);
    assert(problem_text(Problem::Unwritable).len() == 41);
    assert(problem_text(Problem::Refused).len() == 30);
}

} // verus!
