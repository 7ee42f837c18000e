//! Text as Windows holds it: 16-bit units, with a pair of surrogates for each
//! character beyond the first 65536.
use crate::text::to_chars;
use vstd::prelude::*;
use vstd::utf8::char_is_scalar;

verus! {

/// `char::from_u32` gives the character of every Unicode scalar value, and
/// `None` for any other number.
pub assume_specification[ char::from_u32 ](i: u32) -> (res: Option<char>)
    ensures
        res is Some <==> i < 0xd800 || 0xe000 <= i <= 0x10ffff,
        res matches Some(c) ==> c as u32 == i,
;

/// What stands for units that are no text.
pub const REPLACEMENT: char = '\u{fffd}';

pub open spec fn is_high(u: u16) -> bool {
    0xd800 <= u <= 0xdbff
}

pub open spec fn is_low(u: u16) -> bool {
    0xdc00 <= u <= 0xdfff
}

/// The units of one character.
pub open spec fn units_of(c: char) -> Seq<u16> {
    let v = c as u32;
    if v < 0x10000 {
        seq![v as u16]
    } else {
        seq![
            (0xd800 + (v - 0x10000) / 0x400) as u16,
            (0xdc00 + (v - 0x10000) % 0x400) as u16,
        ]
    }
}

/// The units of a text.
pub open spec fn encode_utf16(s: Seq<char>) -> Seq<u16>
    decreases s.len(),
{
    if s.len() == 0 {
        Seq::empty()
    } else {
        units_of(s[0]) + encode_utf16(s.skip(1))
    }
}

/// The character that units begin with, and how many of them it takes. A
/// surrogate without its partner is no character.
pub open spec fn first_char(u: Seq<u16>) -> (Option<char>, int) {
    if !is_high(u[0]) && !is_low(u[0]) {
        (Some(u[0] as char), 1)
    } else if is_high(u[0]) && u.len() >= 2 && is_low(u[1]) {
        (Some((0x10000 + (u[0] - 0xd800) * 0x400 + (u[1] - 0xdc00)) as char), 2)
    } else {
        (None, 1)
    }
}

/// The text of some units, with a replacement character for every surrogate
/// that has no partner.
pub open spec fn decode_lossy(u: Seq<u16>) -> Seq<char>
    decreases u.len(),
{
    if u.len() == 0 {
        Seq::empty()
    } else {
        let (c, n) = first_char(u);
        seq![
            match c {
                Some(c) => c,
                None => REPLACEMENT,
            },
        ] + decode_lossy(u.skip(n))
    }
}

/// Every surrogate has its partner.
pub open spec fn well_paired(u: Seq<u16>) -> bool
    decreases u.len(),
{
    u.len() > 0 ==> first_char(u).0 is Some && well_paired(u.skip(first_char(u).1))
}

/// The text of some units, where it is text throughout.
pub open spec fn decode_strict(u: Seq<u16>) -> Option<Seq<char>> {
    if well_paired(u) {
        Some(decode_lossy(u))
    } else {
        None
    }
}

/// The units of a text.
pub fn encode(s: &str) -> (out: Vec<u16>)
    ensures
        out@ == encode_utf16(s@),
{
    let v = to_chars(s);
    let mut out: Vec<u16> = Vec::new();
    let mut i: usize = 0;
    assert(v@.skip(0) =~= v@);
    assert(out@ + encode_utf16(v@) =~= encode_utf16(v@));
    while i < v.len()
        invariant
            i <= v@.len(),
            v@ == s@,
            out@ + encode_utf16(v@.skip(i as int)) == encode_utf16(s@),
        decreases v@.len() - i,
    {
        let ghost before = out@;
        let ghost rest = v@.skip(i as int);
        let c = v[i];
        let n: u32 = c as u32;
        proof {
            char_is_scalar(c);
            assert(rest[0] == c);
            assert(rest.skip(1) =~= v@.skip(i + 1));
        }
        if n < 0x10000 {
            out.push(n as u16);
        } else {
            out.push((0xd800 + (n - 0x10000) / 0x400) as u16);
            out.push((0xdc00 + (n - 0x10000) % 0x400) as u16);
        }
        assert(out@ =~= before + units_of(c));
        assert(before + (units_of(c) + encode_utf16(rest.skip(1))) =~= out@ + encode_utf16(
            rest.skip(1),
        ));
        i += 1;
    }
    assert(out@ + Seq::<u16>::empty() =~= out@);
    out
}

/// The units of a text with a zero behind them, as Windows wants a name.
pub fn encode_with_nul(s: &str) -> (out: Vec<u16>)
    ensures
        out@ == encode_utf16(s@).push(0),
{
    let mut out = encode(s);
    out.push(0);
    out
}

fn unit_char(u: u16) -> (c: char)
    requires
        !is_high(u) && !is_low(u),
    ensures
        c == u as char,
{
    match char::from_u32(u as u32) {
        Some(c) => {
            proof {
                vstd::utf8::char_u32_cast(c, u as u32);
            }
            c
        },
        None => REPLACEMENT,
    }
}

fn pair_char(high: u16, low: u16) -> (c: char)
    requires
        is_high(high),
        is_low(low),
    ensures
        c == (0x10000 + (high - 0xd800) * 0x400 + (low - 0xdc00)) as char,
{
    let n: u32 = 0x10000 + (high as u32 - 0xd800) * 0x400 + (low as u32 - 0xdc00);
    match char::from_u32(n) {
        Some(c) => {
            proof {
                vstd::utf8::char_u32_cast(c, n);
            }
            c
        },
        None => REPLACEMENT,
    }
}

/// Decode units, and say whether they were text throughout.
fn decode(u: &Vec<u16>) -> (res: (String, bool))
    ensures
        res.0@ == decode_lossy(u@),
        res.1 == well_paired(u@),
{
    let mut out = String::new();
    let mut good = true;
    let n: usize = u.len();
    let mut i: usize = 0;
    assert(u@.skip(0) =~= u@);
    assert(out@ + decode_lossy(u@) =~= decode_lossy(u@));
    while i < n
        invariant
            i <= n,
            n == u@.len(),
            out@ + decode_lossy(u@.skip(i as int)) == decode_lossy(u@),
            well_paired(u@) == (good && well_paired(u@.skip(i as int))),
        decreases n - i,
    {
        let ghost before = out@;
        let ghost rest = u@.skip(i as int);
        assert(rest[0] == u@[i as int]);
        assert(rest.skip(1) =~= u@.skip(i + 1));
        let a = u[i];
        let high = 0xd800 <= a && a <= 0xdbff;
        let low = 0xdc00 <= a && a <= 0xdfff;
        if !high && !low {
            out.push(unit_char(a));
            i += 1;
        } else if high && n - i >= 2 && 0xdc00 <= u[i + 1] && u[i + 1] <= 0xdfff {
            assert(rest[1] == u@[i + 1]);
            assert(rest.skip(2) =~= u@.skip(i + 2));
            out.push(pair_char(a, u[i + 1]));
            i += 2;
        } else {
            assert(rest.len() >= 2 ==> rest[1] == u@[i + 1]);
            out.push(REPLACEMENT);
            good = false;
            i += 1;
        }
        assert(out@ + decode_lossy(u@.skip(i as int)) =~= before + decode_lossy(rest));
    }
    assert(out@ + Seq::<char>::empty() =~= out@);
    (out, good)
}

/// The text of some units, with replacements for what is no text.
pub fn from_utf16_lossy(u: &Vec<u16>) -> (s: String)
    ensures
        s@ == decode_lossy(u@),
{
    decode(u).0
}

/// The text of some units, where they are text throughout.
pub fn from_utf16(u: &Vec<u16>) -> (res: Option<String>)
    ensures
        res is Some <==> decode_strict(u@) is Some,
        res matches Some(s) ==> decode_strict(u@) == Some(s@),
{
    let (text, good) = decode(u);
    if good {
        Some(text)
    } else {
        None
    }
}

/// The units before the first zero.
pub open spec fn until_nul(u: Seq<u16>) -> Seq<u16>
    decreases u.len(),
{
    if u.len() == 0 || u[0] == 0 {
        Seq::empty()
    } else {
        seq![u[0]] + until_nul(u.skip(1))
    }
}

/// The text in a buffer that ends at its first zero, or where it is full.
pub fn text_until_nul(u: &Vec<u16>) -> (s: String)
    ensures
        s@ == decode_lossy(until_nul(u@)),
{
    let mut head: Vec<u16> = Vec::new();
    let mut i: usize = 0;
    assert(u@.skip(0) =~= u@);
    assert(head@ + until_nul(u@) =~= until_nul(u@));
    while i < u.len() && u[i] != 0
        invariant
            i <= u@.len(),
            head@ + until_nul(u@.skip(i as int)) == until_nul(u@),
        decreases u@.len() - i,
    {
        let ghost rest = u@.skip(i as int);
        let ghost before = head@;
        assert(rest.skip(1) =~= u@.skip(i + 1));
        head.push(u[i]);
        i += 1;
        assert(head@ + until_nul(rest.skip(1)) =~= before + until_nul(rest));
    }
    assert(head@ + Seq::<u16>::empty() =~= head@);
    from_utf16_lossy(&head)
}

// ---- laws -----------------------------------------------------------------------

/// What was written is what is read back.
pub proof fn law_utf16_round_trip(s: Seq<char>)
    ensures
        decode_strict(encode_utf16(s)) == Some(s),
        decode_lossy(encode_utf16(s)) == s,
    decreases s.len(),
{
    let u = encode_utf16(s);
    if s.len() > 0 {
        let c = s[0];
        let v = c as u32;
        char_is_scalar(c);
        law_utf16_round_trip(s.skip(1));
        let rest = encode_utf16(s.skip(1));
        if v < 0x10000 {
            assert(u[0] == v as u16);
            assert(u.skip(1) =~= rest);
            vstd::utf8::char_u32_cast(c, v);
            assert(first_char(u) == (Some(c), 1int));
        } else {
            let high = (0xd800 + (v - 0x10000) / 0x400) as u16;
            let low = (0xdc00 + (v - 0x10000) % 0x400) as u16;
            assert(u[0] == high);
            assert(u[1] == low);
            assert(u.skip(2) =~= rest);
            assert(v == 0x10000 + (high - 0xd800) * 0x400 + (low - 0xdc00));
            vstd::utf8::char_u32_cast(c, v);
            assert(first_char(u) == (Some(c), 2int));
        }
        assert(seq![c] + s.skip(1) =~= s);
    } else {
        assert(s =~= Seq::<char>::empty());
    }
}

/// Text ends at the first zero unit: what is kept comes before it, all of it, and
/// holds none.
pub proof fn law_text_ends_at_the_first_zero(u: Seq<u16>)
    ensures
        ({
            let head = until_nul(u);
            &&& head.len() <= u.len()
            &&& head == u.take(head.len() as int)
            &&& !head.contains(0)
            &&& head.len() < u.len() ==> u[head.len() as int] == 0
        }),
    decreases u.len(),
{
    let head = until_nul(u);
    if u.len() > 0 && u[0] != 0 {
        let rest = until_nul(u.skip(1));
        law_text_ends_at_the_first_zero(u.skip(1));
        assert(head =~= u.take(head.len() as int));
        assert forall|i: int| 0 <= i < head.len() implies head[i] != 0 by {
            if i > 0 {
                assert(head[i] == rest[i - 1]);
                assert(rest.contains(rest[i - 1]));
            }
        }
        if head.len() < u.len() {
            assert(u.skip(1)[rest.len() as int] == u[head.len() as int]);
        }
    } else {
        assert(u.take(0) =~= Seq::empty());
    }
}

/// A surrogate without its partner is replaced, and the text goes on behind it;
/// strictly taken there is no text then.
pub proof fn law_lone_surrogates_are_replaced(u: u16, rest: Seq<u16>)
    requires
        0xd800 <= u <= 0xdfff,
        0xd800 <= u <= 0xdbff ==> rest.len() == 0 || !(0xdc00 <= rest[0] <= 0xdfff),
    ensures
        decode_lossy(seq![u] + rest) == seq!['\u{fffd}'] + decode_lossy(rest),
        decode_strict(seq![u] + rest) is None,
{
    let all = seq![u] + rest;
    assert(all[0] == u);
    assert(all.skip(1) =~= rest);
    assert(rest.len() > 0 ==> all[1] == rest[0]);
}

/// A character of the first plane is one unit, its own number; any other is a high
/// surrogate and a low one that share its bits, ten each.
pub proof fn law_characters_have_their_units(c: char)
    ensures
        ({
            let u = encode_utf16(seq![c]);
            let v = c as u32;
            &&& v < 0x10000 ==> u.len() == 1 && u[0] == v
            &&& v >= 0x10000 ==> u.len() == 2 && 0xd800 <= u[0] <= 0xdbff && 0xdc00 <= u[1] <= 0xdfff
                && (u[0] - 0xd800) * 0x400 + (u[1] - 0xdc00) + 0x10000 == v
        }),
{
    char_is_scalar(c);
    let one = seq![c];
    assert(one.skip(1) =~= Seq::empty());
    assert(encode_utf16(one.skip(1)) =~= Seq::empty());
    assert(encode_utf16(one) =~= units_of(c));
}

} // verus!
