//! The emulator reads back the styles that the renderer writes.
use super::{attr_text, color_text, extended_text, sgr_text};
use crate::grid::model::{extended_color, firsts, sgr, sgr_from, sgr_simple, sgr_step, with_color};
use crate::grid::{plain_cell, Cell, Color, A_BOLD, A_DIM, A_ITALIC, A_REVERSE, A_STRIKE, A_UNDERLINE};
use crate::text::decimal;
use vstd::prelude::*;

verus! {

/// The number of an attribute, where it is on.
pub open spec fn attr_numbers(attrs: u8, bit: u8, number: u16) -> Seq<u16> {
    if attrs & bit != 0 {
        seq![number]
    } else {
        Seq::empty()
    }
}

/// The numbers of a colour.
pub open spec fn color_numbers(c: Color, fg: bool) -> Seq<u16> {
    let extended: u16 = if fg {
        38
    } else {
        48
    };
    match c {
        Color::Default => Seq::empty(),
        Color::Indexed(n) => if n < 8 {
            seq![
                (if fg {
                    30 + n
                } else {
                    40 + n
                }) as u16,
            ]
        } else if n < 16 {
            seq![
                (if fg {
                    90 + (n - 8)
                } else {
                    100 + (n - 8)
                }) as u16,
            ]
        } else {
            seq![extended, 5, n as u16]
        },
        Color::Rgb(r, g, b) => seq![extended, 2, r as u16, g as u16, b as u16],
    }
}

/// The numbers that set a style: a reset, and then what is on.
pub open spec fn style_numbers(cell: Cell) -> Seq<u16> {
    seq![0u16] + (attr_numbers(cell.attrs, A_BOLD, 1) + (attr_numbers(cell.attrs, A_DIM, 2) + (
    attr_numbers(cell.attrs, A_ITALIC, 3) + (attr_numbers(cell.attrs, A_UNDERLINE, 4) + (
    attr_numbers(cell.attrs, A_REVERSE, 7) + (attr_numbers(cell.attrs, A_STRIKE, 9) + (
    color_numbers(cell.fg, true) + color_numbers(cell.bg, false))))))))
}

/// Numbers written with a semicolon before each.
pub open spec fn listed(numbers: Seq<u16>) -> Seq<char>
    decreases numbers.len(),
{
    if numbers.len() == 0 {
        Seq::empty()
    } else {
        ";"@ + decimal(numbers[0] as nat) + listed(numbers.skip(1))
    }
}

/// Each number as a parameter of its own, which is how a parser hands over what
/// stands between semicolons.
pub open spec fn as_params(numbers: Seq<u16>) -> Seq<Seq<u16>> {
    Seq::new(numbers.len(), |i: int| seq![numbers[i]])
}

// ---- writing --------------------------------------------------------------------

proof fn lemma_listed_concat(a: Seq<u16>, b: Seq<u16>)
    ensures
        listed(a + b) == listed(a) + listed(b),
    decreases a.len(),
{
    if a.len() == 0 {
        assert(a + b =~= b);
        assert(listed(a) + listed(b) =~= listed(b));
    } else {
        assert((a + b).skip(1) =~= a.skip(1) + b);
        lemma_listed_concat(a.skip(1), b);
        assert(listed(a + b) =~= listed(a) + listed(b));
    }
}

proof fn lemma_listed_one(n: u16)
    ensures
        listed(seq![n]) == ";"@ + decimal(n as nat),
{
    assert(seq![n].skip(1) =~= Seq::<u16>::empty());
    assert(listed(seq![n].skip(1)) =~= Seq::<char>::empty());
    assert(listed(seq![n]) =~= ";"@ + decimal(n as nat));
}

proof fn lemma_attr_listed(attrs: u8, bit: u8, number: u16, code: Seq<char>)
    requires
        code == ";"@ + decimal(number as nat),
    ensures
        listed(attr_numbers(attrs, bit, number)) == attr_text(attrs, bit, code),
{
    lemma_listed_one(number);
    assert(listed(Seq::<u16>::empty()) =~= Seq::<char>::empty());
}

proof fn lemma_listed_three(a: u16, b: u16, c: u16)
    ensures
        listed(seq![a, b, c]) == ";"@ + decimal(a as nat) + ";"@ + decimal(b as nat) + ";"@
            + decimal(c as nat),
{
    lemma_listed_one(a);
    lemma_listed_one(b);
    lemma_listed_one(c);
    assert(seq![a, b, c] =~= seq![a] + (seq![b] + seq![c]));
    lemma_listed_concat(seq![a], seq![b] + seq![c]);
    lemma_listed_concat(seq![b], seq![c]);
    assert(listed(seq![a, b, c]) =~= ";"@ + decimal(a as nat) + ";"@ + decimal(b as nat) + ";"@
        + decimal(c as nat));
}

proof fn lemma_color_listed(c: Color, fg: bool)
    ensures
        listed(color_numbers(c, fg)) == color_text(c, fg),
{
    reveal_strlit(";");
    reveal_strlit(";5;");
    reveal_strlit(";2;");
    reveal_strlit(";38");
    reveal_strlit(";48");
    reveal_with_fuel(decimal, 3);
    let extended: u16 = if fg {
        38
    } else {
        48
    };
    assert(decimal(38) =~= seq!['3', '8']);
    assert(decimal(48) =~= seq!['4', '8']);
    assert(decimal(5) =~= seq!['5']);
    assert(decimal(2) =~= seq!['2']);
    assert(extended_text(fg) =~= ";"@ + decimal(extended as nat));
    assert(";5;"@ =~= ";"@ + decimal(5) + ";"@);
    assert(";2;"@ =~= ";"@ + decimal(2) + ";"@);
    match c {
        Color::Default => {
            assert(listed(Seq::<u16>::empty()) =~= Seq::<char>::empty());
        },
        Color::Indexed(n) => {
            if n < 16 {
                lemma_listed_one(color_numbers(c, fg)[0]);
                assert(color_numbers(c, fg) =~= seq![color_numbers(c, fg)[0]]);
            } else {
                lemma_listed_three(extended, 5, n as u16);
                assert(listed(color_numbers(c, fg)) =~= color_text(c, fg));
            }
        },
        Color::Rgb(r, g, b) => {
            let all = color_numbers(c, fg);
            assert(all =~= seq![extended, 2u16, r as u16] + (seq![g as u16] + seq![b as u16]));
            lemma_listed_concat(seq![extended, 2u16, r as u16], seq![g as u16] + seq![b as u16]);
            lemma_listed_concat(seq![g as u16], seq![b as u16]);
            lemma_listed_three(extended, 2, r as u16);
            lemma_listed_one(g as u16);
            lemma_listed_one(b as u16);
            assert(listed(all) =~= color_text(c, fg));
        },
    }
}

proof fn lemma_regroup(a: Seq<char>, b: Seq<char>, c: Seq<char>)
    ensures
        (a + b) + c == a + (b + c),
{
    assert((a + b) + c =~= a + (b + c));
}

/// The texts of the attributes, one behind the other.
proof fn lemma_attrs_listed(a: u8, rest: Seq<u16>, head: Seq<char>)
    ensures
        head + attr_text(a, A_BOLD, ";1"@) + attr_text(a, A_DIM, ";2"@) + attr_text(
            a,
            A_ITALIC,
            ";3"@,
        ) + attr_text(a, A_UNDERLINE, ";4"@) + attr_text(a, A_REVERSE, ";7"@) + attr_text(
            a,
            A_STRIKE,
            ";9"@,
        ) + listed(rest) == head + listed(
            attr_numbers(a, A_BOLD, 1) + (attr_numbers(a, A_DIM, 2) + (attr_numbers(a, A_ITALIC, 3)
                + (attr_numbers(a, A_UNDERLINE, 4) + (attr_numbers(a, A_REVERSE, 7) + (attr_numbers(
                a,
                A_STRIKE,
                9,
            ) + rest))))),
        ),
{
    reveal_strlit(";");
    reveal_strlit(";1");
    reveal_strlit(";2");
    reveal_strlit(";3");
    reveal_strlit(";4");
    reveal_strlit(";7");
    reveal_strlit(";9");
    assert(";1"@ =~= ";"@ + decimal(1));
    assert(";2"@ =~= ";"@ + decimal(2));
    assert(";3"@ =~= ";"@ + decimal(3));
    assert(";4"@ =~= ";"@ + decimal(4));
    assert(";7"@ =~= ";"@ + decimal(7));
    assert(";9"@ =~= ";"@ + decimal(9));
    lemma_attr_listed(a, A_BOLD, 1, ";1"@);
    lemma_attr_listed(a, A_DIM, 2, ";2"@);
    lemma_attr_listed(a, A_ITALIC, 3, ";3"@);
    lemma_attr_listed(a, A_UNDERLINE, 4, ";4"@);
    lemma_attr_listed(a, A_REVERSE, 7, ";7"@);
    lemma_attr_listed(a, A_STRIKE, 9, ";9"@);
    let t1 = attr_text(a, A_BOLD, ";1"@);
    let t2 = attr_text(a, A_DIM, ";2"@);
    let t3 = attr_text(a, A_ITALIC, ";3"@);
    let t4 = attr_text(a, A_UNDERLINE, ";4"@);
    let t7 = attr_text(a, A_REVERSE, ";7"@);
    let t9 = attr_text(a, A_STRIKE, ";9"@);
    let n9 = attr_numbers(a, A_STRIKE, 9) + rest;
    let n7 = attr_numbers(a, A_REVERSE, 7) + n9;
    let n4 = attr_numbers(a, A_UNDERLINE, 4) + n7;
    let n3 = attr_numbers(a, A_ITALIC, 3) + n4;
    let n2 = attr_numbers(a, A_DIM, 2) + n3;
    lemma_listed_concat(attr_numbers(a, A_STRIKE, 9), rest);
    lemma_listed_concat(attr_numbers(a, A_REVERSE, 7), n9);
    lemma_listed_concat(attr_numbers(a, A_UNDERLINE, 4), n7);
    lemma_listed_concat(attr_numbers(a, A_ITALIC, 3), n4);
    lemma_listed_concat(attr_numbers(a, A_DIM, 2), n3);
    lemma_listed_concat(attr_numbers(a, A_BOLD, 1), n2);
    lemma_regroup(head + t1 + t2 + t3 + t4 + t7, t9, listed(rest));
    lemma_regroup(head + t1 + t2 + t3 + t4, t7, listed(n9));
    lemma_regroup(head + t1 + t2 + t3, t4, listed(n7));
    lemma_regroup(head + t1 + t2, t3, listed(n4));
    lemma_regroup(head + t1, t2, listed(n3));
    lemma_regroup(head, t1, listed(n2));
}

/// The sequence that sets a style is its numbers, written out.
pub proof fn law_styles_are_written_as_numbers(cell: Cell)
    ensures
        sgr_text(cell) == "\x1b["@ + listed(style_numbers(cell)).skip(1) + "m"@,
{
    let a = cell.attrs;
    let head = "\x1b[0"@;
    let f = color_numbers(cell.fg, true);
    let b = color_numbers(cell.bg, false);
    lemma_color_listed(cell.fg, true);
    lemma_color_listed(cell.bg, false);
    lemma_listed_concat(f, b);
    lemma_attrs_listed(a, f + b, head);
    let attrs = head + attr_text(a, A_BOLD, ";1"@) + attr_text(a, A_DIM, ";2"@) + attr_text(
        a,
        A_ITALIC,
        ";3"@,
    ) + attr_text(a, A_UNDERLINE, ";4"@) + attr_text(a, A_REVERSE, ";7"@) + attr_text(
        a,
        A_STRIKE,
        ";9"@,
    );
    lemma_regroup(attrs, color_text(cell.fg, true), color_text(cell.bg, false));
    lemma_written(cell, head, f + b);
    assert(sgr_text(cell) == attrs + listed(f + b) + "m"@);
}

proof fn lemma_written(cell: Cell, head: Seq<char>, colors: Seq<u16>)
    requires
        head == "\x1b[0"@,
        colors == color_numbers(cell.fg, true) + color_numbers(cell.bg, false),
    ensures
        head + listed(style_numbers(cell).skip(1)) == "\x1b["@ + listed(style_numbers(cell)).skip(1),
        style_numbers(cell).skip(1) == attr_numbers(cell.attrs, A_BOLD, 1) + (attr_numbers(
            cell.attrs,
            A_DIM,
            2,
        ) + (attr_numbers(cell.attrs, A_ITALIC, 3) + (attr_numbers(cell.attrs, A_UNDERLINE, 4) + (
        attr_numbers(cell.attrs, A_REVERSE, 7) + (attr_numbers(cell.attrs, A_STRIKE, 9)
            + colors))))),
{
    reveal_strlit("\x1b[0");
    reveal_strlit("\x1b[");
    reveal_strlit(";");
    let all = style_numbers(cell);
    let rest = attr_numbers(cell.attrs, A_BOLD, 1) + (attr_numbers(cell.attrs, A_DIM, 2) + (
    attr_numbers(cell.attrs, A_ITALIC, 3) + (attr_numbers(cell.attrs, A_UNDERLINE, 4) + (
    attr_numbers(cell.attrs, A_REVERSE, 7) + (attr_numbers(cell.attrs, A_STRIKE, 9) + colors)))));
    assert(all == seq![0u16] + rest);
    assert(all.skip(1) =~= rest);
    lemma_listed_concat(seq![0u16], rest);
    lemma_listed_one(0);
    assert(decimal(0) =~= seq!['0']);
    assert(listed(all).skip(1) =~= seq!['0'] + listed(rest));
    assert(head + listed(rest) =~= "\x1b["@ + (seq!['0'] + listed(rest)));
}

// ---- reading --------------------------------------------------------------------

proof fn lemma_firsts(numbers: Seq<u16>, i: int)
    requires
        0 <= i <= numbers.len(),
    ensures
        firsts(as_params(numbers), i) == numbers.skip(i),
    decreases numbers.len() - i,
{
    if i < numbers.len() {
        lemma_firsts(numbers, i + 1);
        assert(as_params(numbers)[i][0] == numbers[i]);
        assert(seq![numbers[i]] + numbers.skip(i + 1) =~= numbers.skip(i));
    } else {
        assert(numbers.skip(i) =~= Seq::<u16>::empty());
    }
}

/// Only what is still to come matters.
proof fn lemma_from_here(pen: Cell, numbers: Seq<u16>, i: int)
    requires
        0 <= i <= numbers.len(),
    ensures
        sgr_from(pen, as_params(numbers), i) == sgr_from(pen, as_params(numbers.skip(i)), 0),
    decreases numbers.len() - i,
{
    assert(numbers.skip(i).skip(0) =~= numbers.skip(i));
    lemma_shift(pen, numbers, numbers.skip(i), i, 0);
}

proof fn lemma_shift(pen: Cell, a: Seq<u16>, b: Seq<u16>, i: int, j: int)
    requires
        0 <= i,
        0 <= j,
        a.len() - i == b.len() - j,
        i <= a.len() ==> a.skip(i) == b.skip(j),
    ensures
        sgr_from(pen, as_params(a), i) == sgr_from(pen, as_params(b), j),
    decreases a.len() - i,
{
    if i < a.len() {
        assert(a.skip(i)[0] == a[i]);
        assert(b.skip(j)[0] == b[j]);
        assert(a.skip(i + 1) =~= a.skip(i).skip(1));
        assert(b.skip(j + 1) =~= b.skip(j).skip(1));
        lemma_firsts(a, i + 1);
        lemma_firsts(b, j + 1);
        let (p, next) = sgr_step(pen, as_params(a), i);
        let (q, other) = sgr_step(pen, as_params(b), j);
        assert(p == q && next - i == other - j);
        if next <= a.len() {
            assert(a.skip(next) =~= a.skip(i).skip(next - i));
            assert(b.skip(other) =~= b.skip(j).skip(other - j));
        }
        lemma_shift(p, a, b, next, other);
    }
}

proof fn lemma_one_number(pen: Cell, p: u16, rest: Seq<u16>)
    requires
        p != 38,
        p != 48,
    ensures
        sgr_from(pen, as_params(seq![p] + rest), 0) == sgr_from(
            sgr_simple(pen, p),
            as_params(rest),
            0,
        ),
{
    let all = seq![p] + rest;
    assert(as_params(all)[0][0] == p);
    lemma_from_here(sgr_simple(pen, p), all, 1);
    assert(all.skip(1) =~= rest);
}

proof fn lemma_attr(pen: Cell, attrs: u8, bit: u8, number: u16, rest: Seq<u16>)
    requires
        number != 38,
        number != 48,
    ensures
        sgr_from(pen, as_params(attr_numbers(attrs, bit, number) + rest), 0) == sgr_from(
            if attrs & bit != 0 {
                sgr_simple(pen, number)
            } else {
                pen
            },
            as_params(rest),
            0,
        ),
{
    if attrs & bit != 0 {
        lemma_one_number(pen, number, rest);
    } else {
        assert(attr_numbers(attrs, bit, number) + rest =~= rest);
    }
}

proof fn lemma_color(pen: Cell, c: Color, fg: bool, rest: Seq<u16>)
    requires
        fg ==> pen.fg == Color::Default,
        !fg ==> pen.bg == Color::Default,
    ensures
        sgr_from(pen, as_params(color_numbers(c, fg) + rest), 0) == sgr_from(
            if fg {
                Cell { fg: c, ..pen }
            } else {
                Cell { bg: c, ..pen }
            },
            as_params(rest),
            0,
        ),
{
    let numbers = color_numbers(c, fg);
    let all = numbers + rest;
    let after = if fg {
        Cell { fg: c, ..pen }
    } else {
        Cell { bg: c, ..pen }
    };
    match c {
        Color::Default => {
            assert(all =~= rest);
            assert(after == pen);
        },
        Color::Indexed(n) => {
            if n < 16 {
                let p = numbers[0];
                assert(numbers =~= seq![p]);
                lemma_one_number(pen, p, rest);
                assert(sgr_simple(pen, p) == after);
            } else {
                lemma_firsts(all, 1);
                assert(as_params(all)[0][0] == numbers[0]);
                assert(as_params(all)[0].len() == 1);
                assert(all.skip(1)[0] == 5 && all.skip(1)[1] == n as u16);
                assert((n as u16) as u8 == n);
                assert(extended_color(all.skip(1)) == Some((Color::Indexed(n), 2int)));
                lemma_from_here(after, all, 3);
                assert(all.skip(3) =~= rest);
            }
        },
        Color::Rgb(r, g, b) => {
            lemma_firsts(all, 1);
            assert(as_params(all)[0][0] == numbers[0]);
            assert(as_params(all)[0].len() == 1);
            let tail = all.skip(1);
            assert(tail[0] == 2 && tail[1] == r as u16 && tail[2] == g as u16 && tail[3] == b as u16);
            assert((r as u16) as u8 == r && (g as u16) as u8 == g && (b as u16) as u8 == b);
            assert(extended_color(tail) == Some((Color::Rgb(r, g, b), 4int)));
            lemma_from_here(after, all, 5);
            assert(all.skip(5) =~= rest);
        },
    }
}

/// What the renderer writes for a style, the emulator reads back as that style:
/// colours and attributes survive, whatever the pen was before.
pub proof fn law_styles_survive_the_round_trip(pen: Cell, cell: Cell)
    ensures
        sgr(pen, as_params(style_numbers(cell))) == (Cell {
            ch: ' ',
            fg: cell.fg,
            bg: cell.bg,
            attrs: cell.attrs & 0x3f,
        }),
{
    let a = cell.attrs;
    let f = color_numbers(cell.fg, true);
    let b = color_numbers(cell.bg, false);
    let r9 = f + b;
    let r7 = attr_numbers(a, A_STRIKE, 9) + r9;
    let r4 = attr_numbers(a, A_REVERSE, 7) + r7;
    let r3 = attr_numbers(a, A_UNDERLINE, 4) + r4;
    let r2 = attr_numbers(a, A_ITALIC, 3) + r3;
    let r1 = attr_numbers(a, A_DIM, 2) + r2;
    let r0 = attr_numbers(a, A_BOLD, 1) + r1;
    lemma_one_number(pen, 0, r0);
    let p0 = plain_cell();
    lemma_attr(p0, a, A_BOLD, 1, r1);
    let p1 = if a & A_BOLD != 0 {
        sgr_simple(p0, 1)
    } else {
        p0
    };
    lemma_attr(p1, a, A_DIM, 2, r2);
    let p2 = if a & A_DIM != 0 {
        sgr_simple(p1, 2)
    } else {
        p1
    };
    lemma_attr(p2, a, A_ITALIC, 3, r3);
    let p3 = if a & A_ITALIC != 0 {
        sgr_simple(p2, 3)
    } else {
        p2
    };
    lemma_attr(p3, a, A_UNDERLINE, 4, r4);
    let p4 = if a & A_UNDERLINE != 0 {
        sgr_simple(p3, 4)
    } else {
        p3
    };
    lemma_attr(p4, a, A_REVERSE, 7, r7);
    let p7 = if a & A_REVERSE != 0 {
        sgr_simple(p4, 7)
    } else {
        p4
    };
    lemma_attr(p7, a, A_STRIKE, 9, r9);
    let p9 = if a & A_STRIKE != 0 {
        sgr_simple(p7, 9)
    } else {
        p7
    };
    lemma_color(p9, cell.fg, true, b);
    let pf = Cell { fg: cell.fg, ..p9 };
    assert(b + Seq::<u16>::empty() =~= b);
    lemma_color(pf, cell.bg, false, Seq::empty());
    let b1: u8 = if a & 1 != 0 { 0u8 | 1 } else { 0 };
    let b2: u8 = if a & 2 != 0 { b1 | 2 } else { b1 };
    let b3: u8 = if a & 4 != 0 { b2 | 4 } else { b2 };
    let b4: u8 = if a & 8 != 0 { b3 | 8 } else { b3 };
    let b7: u8 = if a & 16 != 0 { b4 | 16 } else { b4 };
    let b9: u8 = if a & 32 != 0 { b7 | 32 } else { b7 };
    assert(p9.attrs == b9);
    assert(b9 == a & 0x3f) by (bit_vector)
        requires
            b1 == (if a & 1 != 0 { 0u8 | 1 } else { 0 }),
            b2 == (if a & 2 != 0 { b1 | 2 } else { b1 }),
            b3 == (if a & 4 != 0 { b2 | 4 } else { b2 }),
            b4 == (if a & 8 != 0 { b3 | 8 } else { b3 }),
            b7 == (if a & 16 != 0 { b4 | 16 } else { b4 }),
            b9 == (if a & 32 != 0 { b7 | 32 } else { b7 }),
    ;
}

} // verus!
