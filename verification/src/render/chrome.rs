//! What stands around the active terminal: the rail with its buttons, the rule
//! beside it and the status line.
use super::compose::{
    button_ink, button_text, composed, hint_key, hint_what, ink, lemma_column_and_row, live_count,
    status_text, wash, widths_of, DEAD_FG, HINT_ROOM, NEW_FG, PENDING_BG, PENDING_FG, RAIL_BG,
    RAIL_HEAD_FG, STATUS_BG, STATUS_FG, STATUS_KEY_FG,
};
use super::{lemma_place, FrameModel};
use crate::grid::model::{lesser, minus};
use crate::grid::{Cell, Color, A_BOLD, WIDE_CONT};
use crate::layout::{laid_out, Layout};
use crate::pane::Pane;
use crate::width::print_width;
use vstd::prelude::*;

verus! {

/// Every character of `s` takes one column.
pub open spec fn narrow(s: Seq<char>) -> bool {
    forall|k: int| 0 <= k < s.len() ==> print_width(#[trigger] s[k]) == 1
}

/// `b` has the size and the cursor of `a`.
spec fn alike(a: FrameModel, b: FrameModel) -> bool {
    b.wf() && b.cols == a.cols && b.rows == a.rows && b.cursor == a.cursor
}

/// `b` differs from `a` at most in row `y` from column `x` on, and where it does
/// it has that background.
spec fn inked(a: FrameModel, b: FrameModel, y: int, x: int, bg: Color) -> bool {
    &&& alike(a, b)
    &&& forall|cx: int, cy: int|
        0 <= cx < a.cols && 0 <= cy < a.rows ==> (#[trigger] b.at(cx, cy)) == a.at(cx, cy) || (cy
            == y && cx >= x && b.at(cx, cy).bg == bg)
}

proof fn lemma_put_at(f: FrameModel, x: int, y: int, cell: Cell)
    requires
        f.wf(),
        x >= 0,
        y >= 0,
    ensures
        alike(f, f.put(x, y, cell)),
        forall|cx: int, cy: int|
            0 <= cx < f.cols && 0 <= cy < f.rows ==> (#[trigger] f.put(x, y, cell).at(cx, cy)) == if cx
                == x && cy == y {
                cell
            } else {
                f.at(cx, cy)
            },
{
    assert forall|cx: int, cy: int| 0 <= cx < f.cols && 0 <= cy < f.rows implies (#[trigger] f.put(
        x,
        y,
        cell,
    ).at(cx, cy)) == if cx == x && cy == y {
        cell
    } else {
        f.at(cx, cy)
    } by {
        lemma_place(f, cx, cy);
        if x < f.cols && y < f.rows {
            lemma_place(f, x, y);
            lemma_column_and_row(f.cols, f.place(cx, cy), cx, cy);
            lemma_column_and_row(f.cols, f.place(cx, cy), x, y);
        }
    }
    if x < f.cols && y < f.rows {
        lemma_place(f, x, y);
    }
}

proof fn lemma_boxed_at(f: FrameModel, x: int, y: int, w: int, h: int, cell: Cell)
    requires
        f.wf(),
    ensures
        alike(f, f.boxed(x, y, w, h, cell)),
        forall|cx: int, cy: int|
            0 <= cx < f.cols && 0 <= cy < f.rows ==> (#[trigger] f.boxed(x, y, w, h, cell).at(
                cx,
                cy,
            )) == if x <= cx < x + w && y <= cy < y + h {
                cell
            } else {
                f.at(cx, cy)
            },
{
    assert forall|cx: int, cy: int| 0 <= cx < f.cols && 0 <= cy < f.rows implies (
    #[trigger] f.boxed(x, y, w, h, cell).at(cx, cy)) == if x <= cx < x + w && y <= cy < y + h {
        cell
    } else {
        f.at(cx, cy)
    } by {
        lemma_place(f, cx, cy);
        lemma_column_and_row(f.cols, f.place(cx, cy), cx, cy);
    }
}

proof fn lemma_content_at(f: FrameModel, panes: Seq<Pane>, active: int, l: Layout)
    requires
        f.wf(),
    ensures
        f.with_content(panes, active, l).wf(),
        f.with_content(panes, active, l).cols == f.cols,
        f.with_content(panes, active, l).rows == f.rows,
        forall|cx: int, cy: int|
            0 <= cx < f.cols && 0 <= cy < f.rows && !(l.content.x <= cx < l.content.x + l.content.w
                && l.content.y <= cy < l.content.y + l.content.h) ==> (#[trigger] f.with_content(
                panes,
                active,
                l,
            ).at(cx, cy)) == f.at(cx, cy),
{
    assert forall|cx: int, cy: int|
        0 <= cx < f.cols && 0 <= cy < f.rows && !(l.content.x <= cx < l.content.x + l.content.w
            && l.content.y <= cy < l.content.y + l.content.h) implies (#[trigger] f.with_content(
        panes,
        active,
        l,
    ).at(cx, cy)) == f.at(cx, cy) by {
        lemma_place(f, cx, cy);
        lemma_column_and_row(f.cols, f.place(cx, cy), cx, cy);
    }
}

proof fn lemma_text_inked(
    f: FrameModel,
    x: int,
    y: int,
    limit: int,
    s: Seq<char>,
    widths: Seq<usize>,
    k: int,
    style: Cell,
)
    requires
        f.wf(),
        x >= 0,
        y >= 0,
        k >= 0,
    ensures
        inked(f, f.text_from(x, y, limit, s, widths, k, style).0, y, x, style.bg),
        f.text_from(x, y, limit, s, widths, k, style).1 >= x,
    decreases s.len() - k,
{
    if k < s.len() {
        let w = widths[k] as int;
        if w == 0 {
            lemma_text_inked(f, x, y, limit, s, widths, k + 1, style);
        } else if x + w <= limit {
            let first = f.put(x, y, Cell { ch: s[k], ..style });
            lemma_put_at(f, x, y, Cell { ch: s[k], ..style });
            lemma_put_at(first, x + 1, y, Cell { ch: WIDE_CONT, ..style });
            let g = f.glyph(x, y, s[k], w, style);
            lemma_text_inked(g, x + w, y, limit, s, widths, k + 1, style);
            let h = g.text_from(x + w, y, limit, s, widths, k + 1, style).0;
            assert forall|cx: int, cy: int| 0 <= cx < f.cols && 0 <= cy < f.rows implies (
            #[trigger] h.at(cx, cy)) == f.at(cx, cy) || (cy == y && cx >= x && h.at(cx, cy).bg
                == style.bg) by {
                assert(h.at(cx, cy) == g.at(cx, cy) || (cy == y && cx >= x + w && h.at(cx, cy).bg
                    == style.bg));
                let once = first.at(cx, cy);
                let twice = g.at(cx, cy);
            }
        }
    }
}

/// Text of narrow characters stands one after the other, up to the limit, and
/// ends where the last of them does.
proof fn lemma_narrow_text(
    f: FrameModel,
    x: int,
    y: int,
    limit: int,
    s: Seq<char>,
    k: int,
    style: Cell,
)
    requires
        f.wf(),
        x >= 0,
        0 <= y < f.rows,
        0 <= k <= s.len(),
        limit <= f.cols,
        narrow(s),
    ensures
        ({
            let (g, e) = f.text_from(x, y, limit, s, widths_of(s), k, style);
            &&& alike(f, g)
            &&& e == (if x + (s.len() - k) <= limit {
                x + (s.len() - k)
            } else if x <= limit {
                limit
            } else {
                x
            })
            &&& forall|cx: int, cy: int|
                0 <= cx < f.cols && 0 <= cy < f.rows ==> (#[trigger] g.at(cx, cy)) == if cy == y
                    && x <= cx < e {
                    Cell { ch: s[k + (cx - x)], ..style }
                } else {
                    f.at(cx, cy)
                }
        }),
    decreases s.len() - k,
{
    if k < s.len() {
        assert(print_width(s[k]) == 1);
        assert(widths_of(s)[k] == 1);
        if x + 1 <= limit {
            let g = f.put(x, y, Cell { ch: s[k], ..style });
            lemma_put_at(f, x, y, Cell { ch: s[k], ..style });
            assert(g == f.glyph(x, y, s[k], 1, style));
            lemma_narrow_text(g, x + 1, y, limit, s, k + 1, style);
            let (h, e) = g.text_from(x + 1, y, limit, s, widths_of(s), k + 1, style);
            assert forall|cx: int, cy: int| 0 <= cx < f.cols && 0 <= cy < f.rows implies (
            #[trigger] h.at(cx, cy)) == if cy == y && x <= cx < e {
                Cell { ch: s[k + (cx - x)], ..style }
            } else {
                f.at(cx, cy)
            } by {
                let once = g.at(cx, cy);
                assert(k + 1 + (cx - (x + 1)) == k + (cx - x));
            }
        }
    }
}

proof fn lemma_hints_inked(f: FrameModel, l: Layout, x: int, k: int)
    requires
        f.wf(),
        x >= 0,
        k >= 0,
    ensures
        inked(f, f.hints(l, x, k), l.status.y as int, x, Color::Indexed(STATUS_BG)),
    decreases 4 - k,
{
    let s = l.status;
    if !(k >= 4 || x + HINT_ROOM > s.x + s.w) {
        let y = s.y as int;
        let bg = Color::Indexed(STATUS_BG);
        let key_ink = ink(Color::Indexed(STATUS_KEY_FG), bg, 0);
        let what_ink = ink(Color::Indexed(STATUS_FG), bg, 0);
        let m = minus(s.w as int, x);
        let key = f.text(x, y, m, hint_key(k), key_ink);
        lemma_text_inked(
            f,
            x,
            y,
            lesser(x + m, f.cols),
            hint_key(k),
            widths_of(hint_key(k)),
            0,
            key_ink,
        );
        let n = minus(s.w as int, key.1);
        let what = key.0.text(key.1, y, n, hint_what(k), what_ink);
        lemma_text_inked(
            key.0,
            key.1,
            y,
            lesser(key.1 + n, key.0.cols),
            hint_what(k),
            widths_of(hint_what(k)),
            0,
            what_ink,
        );
        lemma_hints_inked(what.0, l, what.1, k + 1);
        let done = f.hints(l, x, k);
        assert forall|cx: int, cy: int| 0 <= cx < f.cols && 0 <= cy < f.rows implies (
        #[trigger] done.at(cx, cy)) == f.at(cx, cy) || (cy == y && cx >= x && done.at(cx, cy).bg
            == bg) by {
            let a = what.0.at(cx, cy);
            let b = key.0.at(cx, cy);
        }
    }
}

/// The layers that hold the status line leave the rows above it alone.
#[verifier::rlimit(40)]
proof fn lemma_status_alone(
    f: FrameModel,
    panes: Seq<Pane>,
    active: int,
    l: Layout,
    pending: bool,
)
    requires
        f.wf(),
        l.status.h == 1,
        l.status.x == 0,
        l.status.w == f.cols,
        l.status.y < f.rows,
    ensures
        ({
            let g = f.with_status(panes, active, l, pending);
            let t = status_text(panes, active);
            let y = l.status.y as int;
            &&& alike(f, g)
            &&& forall|cx: int, cy: int|
                0 <= cx < f.cols && 0 <= cy < f.rows && cy != y ==> (#[trigger] g.at(cx, cy))
                    == f.at(cx, cy)
            &&& !pending ==> forall|cx: int|
                0 <= cx < f.cols ==> (#[trigger] g.at(cx, y)).bg == Color::Indexed(STATUS_BG)
            &&& pending ==> forall|cx: int|
                0 <= cx < f.cols ==> (#[trigger] g.at(cx, y)).bg == Color::Indexed(STATUS_BG)
                    || g.at(cx, y).bg == Color::Indexed(PENDING_BG)
            &&& narrow(t) ==> forall|cx: int|
                0 <= cx < f.cols && cx < t.len() ==> (#[trigger] g.at(cx, y)) == (Cell {
                    ch: t[cx],
                    fg: Color::Indexed(STATUS_FG),
                    bg: Color::Indexed(STATUS_BG),
                    attrs: A_BOLD,
                })
            &&& pending && narrow(t) && narrow("[C-b]"@) ==> forall|k: int|
                0 <= k < "[C-b]"@.len() && t.len() + k < f.cols ==> (#[trigger] g.at(
                    t.len() + k,
                    y,
                )) == (Cell {
                    ch: "[C-b]"@[k],
                    fg: Color::Indexed(PENDING_FG),
                    bg: Color::Indexed(PENDING_BG),
                    attrs: A_BOLD,
                })
        }),
{
    let s = l.status;
    let y = s.y as int;
    let t = status_text(panes, active);
    let bg = Color::Indexed(STATUS_BG);
    let bar = f.boxed(0, y, s.w as int, 1, wash(bg));
    lemma_boxed_at(f, 0, y, s.w as int, 1, wash(bg));
    let bold = ink(Color::Indexed(STATUS_FG), bg, A_BOLD);
    let left = bar.text(0, y, s.w as int, t, bold);
    lemma_text_inked(bar, 0, y, s.w as int, t, widths_of(t), 0, bold);
    if narrow(t) {
        lemma_narrow_text(bar, 0, y, s.w as int, t, 0, bold);
    }
    let g = f.with_status(panes, active, l, pending);
    let loud = ink(Color::Indexed(PENDING_FG), Color::Indexed(PENDING_BG), A_BOLD);
    if pending {
        let limit = lesser(left.1 + minus(s.w as int, left.1), left.0.cols);
        lemma_text_inked(left.0, left.1, y, limit, "[C-b]"@, widths_of("[C-b]"@), 0, loud);
        if narrow(t) && narrow("[C-b]"@) {
            lemma_narrow_text(left.0, left.1, y, limit, "[C-b]"@, 0, loud);
        }
    } else {
        lemma_hints_inked(left.0, l, left.1, 0);
    }
    assert forall|cx: int, cy: int| 0 <= cx < f.cols && 0 <= cy < f.rows && cy != y implies (
    #[trigger] g.at(cx, cy)) == f.at(cx, cy) by {
        let a = left.0.at(cx, cy);
        let b = bar.at(cx, cy);
    }
    assert forall|cx: int| 0 <= cx < f.cols implies (#[trigger] g.at(cx, y)).bg == bg || (pending
        && g.at(cx, y).bg == Color::Indexed(PENDING_BG)) by {
        let a = left.0.at(cx, y);
        let b = bar.at(cx, y);
    }
    if narrow(t) {
        assert forall|cx: int| 0 <= cx < f.cols && cx < t.len() implies (#[trigger] g.at(cx, y))
            == (Cell { ch: t[cx], ..bold }) by {
            let a = left.0.at(cx, y);
        }
    }
}

/// One button changes its own row of the rail alone.
proof fn lemma_button_at(f: FrameModel, panes: Seq<Pane>, active: int, l: Layout, i: int)
    requires
        f.wf(),
        l.sidebar.x == 0,
        l.sidebar.y == 0,
        l.sidebar.w < f.cols,
        0 <= i,
        i + 1 < f.rows,
    ensures
        ({
            let g = f.button(panes, active, l, i);
            let t = button_text(panes[i], i, i == active);
            let look = button_ink(i == active, panes[i].alive);
            &&& alike(f, g)
            &&& forall|cx: int, cy: int|
                0 <= cx < f.cols && 0 <= cy < f.rows && cy != i + 1 ==> (#[trigger] g.at(cx, cy))
                    == f.at(cx, cy)
            &&& forall|cx: int|
                0 <= cx < l.sidebar.w ==> (#[trigger] g.at(cx, i + 1)).bg == look.bg
            &&& narrow(t) ==> forall|cx: int|
                0 <= cx < l.sidebar.w ==> (#[trigger] g.at(cx, i + 1)) == if cx < t.len() {
                    Cell { ch: t[cx], ..look }
                } else {
                    Cell { ch: ' ', fg: Color::Default, bg: look.bg, attrs: 0 }
                }
        }),
{
    let w = l.sidebar.w as int;
    let y = i + 1;
    let t = button_text(panes[i], i, i == active);
    let look = button_ink(i == active, panes[i].alive);
    let bar = f.boxed(0, y, w, 1, wash(look.bg));
    lemma_boxed_at(f, 0, y, w, 1, wash(look.bg));
    lemma_text_inked(bar, 0, y, w, t, widths_of(t), 0, look);
    let g = f.button(panes, active, l, i);
    assert(g == bar.text_from(0, y, w, t, widths_of(t), 0, look).0);
    if narrow(t) {
        lemma_narrow_text(bar, 0, y, w, t, 0, look);
    }
    assert forall|cx: int, cy: int| 0 <= cx < f.cols && 0 <= cy < f.rows && cy != y implies (
    #[trigger] g.at(cx, cy)) == f.at(cx, cy) by {
        let b = bar.at(cx, cy);
    }
    assert forall|cx: int| 0 <= cx < w implies (#[trigger] g.at(cx, y)).bg == look.bg by {
        let b = bar.at(cx, y);
    }
    if narrow(t) {
        assert forall|cx: int| 0 <= cx < w implies (#[trigger] g.at(cx, y)) == if cx < t.len() {
            Cell { ch: t[cx], ..look }
        } else {
            Cell { ch: ' ', fg: Color::Default, bg: look.bg, attrs: 0 }
        } by {
            let b = bar.at(cx, y);
        }
    }
}

/// Each of the first `n` buttons stands in its row, as it was put there.
proof fn lemma_buttons_at(f: FrameModel, panes: Seq<Pane>, active: int, l: Layout, n: int, i: int)
    requires
        f.wf(),
        l.sidebar.x == 0,
        l.sidebar.y == 0,
        l.sidebar.w < f.cols,
        n < f.rows,
    ensures
        ({
            let g = f.buttons(panes, active, l, n);
            let t = button_text(panes[i], i, i == active);
            let look = button_ink(i == active, panes[i].alive);
            &&& alike(f, g)
            &&& forall|cx: int, cy: int|
                0 <= cx < f.cols && 0 <= cy < f.rows && !(1 <= cy <= n) ==> (#[trigger] g.at(
                    cx,
                    cy,
                )) == f.at(cx, cy)
            &&& 0 <= i < n ==> forall|cx: int|
                0 <= cx < l.sidebar.w ==> (#[trigger] g.at(cx, i + 1)).bg == look.bg
            &&& 0 <= i < n && narrow(t) ==> forall|cx: int|
                0 <= cx < l.sidebar.w ==> (#[trigger] g.at(cx, i + 1)) == if cx < t.len() {
                    Cell { ch: t[cx], ..look }
                } else {
                    Cell { ch: ' ', fg: Color::Default, bg: look.bg, attrs: 0 }
                }
        }),
    decreases n,
{
    if n > 0 {
        lemma_buttons_at(f, panes, active, l, n - 1, i);
        let h = f.buttons(panes, active, l, n - 1);
        lemma_button_at(h, panes, active, l, n - 1);
        let g = f.buttons(panes, active, l, n);
        assert(g == h.button(panes, active, l, n - 1));
        let t = button_text(panes[i], i, i == active);
        let look = button_ink(i == active, panes[i].alive);
        assert forall|cx: int, cy: int|
            0 <= cx < f.cols && 0 <= cy < f.rows && !(1 <= cy <= n) implies (#[trigger] g.at(cx, cy))
            == f.at(cx, cy) by {
            let b = h.at(cx, cy);
        }
        if 0 <= i < n - 1 {
            assert forall|cx: int| 0 <= cx < l.sidebar.w implies (#[trigger] g.at(cx, i + 1)) == h.at(
                cx,
                i + 1,
            ) by {}
            assert forall|cx: int| 0 <= cx < l.sidebar.w implies (#[trigger] g.at(cx, i + 1)).bg
                == look.bg by {
                let b = h.at(cx, i + 1);
            }
            if narrow(t) {
                assert forall|cx: int| 0 <= cx < l.sidebar.w implies (#[trigger] g.at(cx, i + 1))
                    == if cx < t.len() {
                    Cell { ch: t[cx], ..look }
                } else {
                    Cell { ch: ' ', fg: Color::Default, bg: look.bg, attrs: 0 }
                } by {
                    let b = h.at(cx, i + 1);
                }
            }
        }
    }
}

/// The rail, row by row: the heading, the buttons, what is left of it, and the
/// button that opens another terminal.
#[verifier::rlimit(40)]
proof fn lemma_rail_at(f: FrameModel, panes: Seq<Pane>, active: int, l: Layout, i: int)
    requires
        f.wf(),
        l.sidebar.x == 0,
        l.sidebar.y == 0,
        1 <= l.sidebar.w < f.cols,
        2 <= l.sidebar.h < f.rows,
    ensures
        ({
            let g = f.with_rail(panes, active, l);
            let w = l.sidebar.w as int;
            let h = l.sidebar.h as int;
            let rail = Color::Indexed(RAIL_BG);
            let visible = lesser(panes.len() as int, h - 2);
            let covered = panes.len() > visible && i == visible - 1;
            let t = button_text(panes[i], i, i == active);
            let look = button_ink(i == active, panes[i].alive);
            &&& alike(f, g)
            &&& forall|cx: int| 0 <= cx < w ==> (#[trigger] g.at(cx, 0)).bg == rail
            &&& forall|cx: int| 0 <= cx < w ==> (#[trigger] g.at(cx, h - 1)).bg == rail
            &&& forall|cx: int, cy: int|
                0 <= cx < w && visible < cy < h - 1 ==> (#[trigger] g.at(cx, cy)) == wash(rail)
            &&& 0 <= i < visible && !covered ==> forall|cx: int|
                0 <= cx < w ==> (#[trigger] g.at(cx, i + 1)).bg == look.bg
            &&& 0 <= i < visible && !covered && narrow(t) ==> forall|cx: int|
                0 <= cx < w ==> (#[trigger] g.at(cx, i + 1)) == if cx < t.len() {
                    Cell { ch: t[cx], ..look }
                } else {
                    Cell { ch: ' ', fg: Color::Default, bg: look.bg, attrs: 0 }
                }
            &&& narrow("TERMINALS"@) ==> forall|k: int|
                0 <= k < "TERMINALS"@.len() && k + 1 < w ==> (#[trigger] g.at(k + 1, 0)) == (Cell {
                    ch: "TERMINALS"@[k],
                    fg: Color::Indexed(RAIL_HEAD_FG),
                    bg: rail,
                    attrs: A_BOLD,
                })
            &&& narrow("  + new"@) ==> forall|cx: int|
                0 <= cx < w && cx < "  + new"@.len() ==> (#[trigger] g.at(cx, h - 1)) == (Cell {
                    ch: "  + new"@[cx],
                    fg: Color::Indexed(NEW_FG),
                    bg: rail,
                    attrs: 0,
                })
            &&& panes.len() > visible && visible >= 1 && narrow(" …more"@) ==> forall|cx: int|
                0 <= cx < w && cx < " …more"@.len() ==> (#[trigger] g.at(cx, visible)) == (Cell {
                    ch: " …more"@[cx],
                    fg: Color::Indexed(DEAD_FG),
                    bg: rail,
                    attrs: 0,
                })
        }),
{
    let w = l.sidebar.w as int;
    let h = l.sidebar.h as int;
    let rail = Color::Indexed(RAIL_BG);
    let visible = lesser(panes.len() as int, h - 2);
    assert(visible == lesser(panes.len() as int, l.room()));
    let washed = f.boxed(0, 0, w, h, wash(rail));
    lemma_boxed_at(f, 0, 0, w, h, wash(rail));
    let title = "TERMINALS"@;
    let head = ink(Color::Indexed(RAIL_HEAD_FG), rail, A_BOLD);
    lemma_text_inked(washed, 1, 0, w, title, widths_of(title), 0, head);
    if narrow(title) {
        lemma_narrow_text(washed, 1, 0, w, title, 0, head);
    }
    let headed = washed.text(1, 0, w - 1, title, head).0;
    assert(headed == washed.text_from(1, 0, w, title, widths_of(title), 0, head).0);
    let listed = headed.buttons(panes, active, l, visible);
    lemma_buttons_at(headed, panes, active, l, visible, i);
    let dead = ink(Color::Indexed(DEAD_FG), rail, 0);
    let y = minus(visible, 1) + 1;
    let note = " …more"@;
    lemma_text_inked(listed, 0, y, w, note, widths_of(note), 0, dead);
    if narrow(note) {
        lemma_narrow_text(listed, 0, y, w, note, 0, dead);
    }
    let noted = if panes.len() > visible {
        listed.text(0, y, w, note, dead).0
    } else {
        listed
    };
    let last = noted.boxed(0, h - 1, w, 1, wash(rail));
    lemma_boxed_at(noted, 0, h - 1, w, 1, wash(rail));
    let fresh = "  + new"@;
    let green = ink(Color::Indexed(NEW_FG), rail, 0);
    lemma_text_inked(last, 0, h - 1, w, fresh, widths_of(fresh), 0, green);
    if narrow(fresh) {
        lemma_narrow_text(last, 0, h - 1, w, fresh, 0, green);
    }
    let g = f.with_rail(panes, active, l);
    assert(g == last.text_from(0, h - 1, w, fresh, widths_of(fresh), 0, green).0);
    // The rows above the last one are as they were before it was painted.
    assert forall|cx: int, cy: int| 0 <= cx < f.cols && 0 <= cy < h - 1 implies (#[trigger] g.at(
        cx,
        cy,
    )) == noted.at(cx, cy) by {
        let a = last.at(cx, cy);
    }
    assert forall|cx: int, cy: int|
        0 <= cx < f.cols && 0 <= cy < h - 1 && (cy != y || panes.len() <= visible) implies (
    #[trigger] g.at(cx, cy)) == listed.at(cx, cy) by {
        let a = noted.at(cx, cy);
    }
    assert forall|cx: int| 0 <= cx < w implies (#[trigger] g.at(cx, 0)).bg == rail by {
        let a = listed.at(cx, 0);
        let b = headed.at(cx, 0);
        let c = washed.at(cx, 0);
    }
    assert forall|cx: int| 0 <= cx < w implies (#[trigger] g.at(cx, h - 1)).bg == rail by {
        let a = last.at(cx, h - 1);
    }
    assert forall|cx: int, cy: int| 0 <= cx < w && visible < cy < h - 1 implies (#[trigger] g.at(
        cx,
        cy,
    )) == wash(rail) by {
        if panes.len() > visible {
            assert(visible == h - 2);
        }
        let a = listed.at(cx, cy);
        let b = headed.at(cx, cy);
        let c = washed.at(cx, cy);
    }
    let t = button_text(panes[i], i, i == active);
    let look = button_ink(i == active, panes[i].alive);
    if 0 <= i < visible && !(panes.len() > visible && i == visible - 1) {
        assert forall|cx: int| 0 <= cx < w implies (#[trigger] g.at(cx, i + 1)).bg == look.bg by {
            let a = listed.at(cx, i + 1);
        }
        if narrow(t) {
            assert forall|cx: int| 0 <= cx < w implies (#[trigger] g.at(cx, i + 1)) == if cx
                < t.len() {
                Cell { ch: t[cx], ..look }
            } else {
                Cell { ch: ' ', fg: Color::Default, bg: look.bg, attrs: 0 }
            } by {
                let a = listed.at(cx, i + 1);
            }
        }
    }
    if narrow(title) {
        assert forall|k: int| 0 <= k < title.len() && k + 1 < w implies (#[trigger] g.at(k + 1, 0))
            == (Cell { ch: title[k], ..head }) by {
            let a = listed.at(k + 1, 0);
            let b = headed.at(k + 1, 0);
        }
    }
    if panes.len() > visible && visible >= 1 && narrow(note) {
        assert forall|cx: int| 0 <= cx < w && cx < note.len() implies (#[trigger] g.at(cx, visible))
            == (Cell { ch: note[cx], ..dead }) by {
            let a = noted.at(cx, visible);
        }
    }
    if narrow(fresh) {
        assert forall|cx: int| 0 <= cx < w && cx < fresh.len() implies (#[trigger] g.at(cx, h - 1))
            == (Cell { ch: fresh[cx], ..green }) by {}
    }
}

/// The frame is the rail, the rule and the status line around the active terminal:
/// beside it and below it stands what was put there first.
proof fn lemma_frame_layers(
    panes: Seq<Pane>,
    active: int,
    cols: u16,
    rows: u16,
    sidebar_w: u16,
    pending: bool,
)
    requires
        cols >= 20,
        rows >= 3,
    ensures
        ({
            let l = laid_out(cols as int, rows as int, sidebar_w as int);
            let f = composed(panes, active, l, cols as int, rows as int, pending);
            let blank = FrameModel::blank(cols as int, rows as int);
            let railed = blank.with_rail(panes, active, l);
            let body = railed.with_divider(l).with_content(panes, active, l);
            &&& blank.wf()
            &&& railed.wf() && railed.cols == cols && railed.rows == rows && railed.cursor is None
            &&& body.wf() && body.cols == cols && body.rows == rows
            &&& f == body.with_status(panes, active, l, pending)
            &&& f.wf() && f.cols == cols && f.rows == rows && f.cursor == body.cursor
            &&& forall|cx: int, cy: int|
                0 <= cx < l.sidebar.w && 0 <= cy < rows - 1 ==> (#[trigger] f.at(cx, cy))
                    == railed.at(cx, cy)
            &&& forall|cy: int|
                0 <= cy < rows - 1 ==> (#[trigger] f.at(l.sidebar.w as int, cy)) == (Cell {
                    ch: '│',
                    fg: Color::Indexed(238),
                    bg: Color::Default,
                    attrs: 0,
                })
        }),
{
    let l = laid_out(cols as int, rows as int, sidebar_w as int);
    let blank = FrameModel::blank(cols as int, rows as int);
    assert(cols * rows >= 0) by (nonlinear_arith)
        requires
            cols >= 0,
            rows >= 0,
    ;
    assert(blank.wf());
    lemma_rail_at(blank, panes, active, l, 0);
    let railed = blank.with_rail(panes, active, l);
    let rule = Cell { ch: '│', fg: Color::Indexed(238), bg: Color::Default, attrs: 0 };
    let ruled = railed.with_divider(l);
    lemma_boxed_at(railed, l.divider_x as int, 0, 1, l.sidebar.h as int, rule);
    assert(ruled == railed.boxed(l.divider_x as int, 0, 1, l.sidebar.h as int, rule));
    let body = ruled.with_content(panes, active, l);
    lemma_content_at(ruled, panes, active, l);
    lemma_status_alone(body, panes, active, l, pending);
    let f = composed(panes, active, l, cols as int, rows as int, pending);
    assert forall|cx: int, cy: int| 0 <= cx < l.sidebar.w && 0 <= cy < rows - 1 implies (
    #[trigger] f.at(cx, cy)) == railed.at(cx, cy) by {
        let a = body.at(cx, cy);
        let b = ruled.at(cx, cy);
    }
    assert forall|cy: int| 0 <= cy < rows - 1 implies (#[trigger] f.at(l.sidebar.w as int, cy))
        == rule by {
        let a = body.at(l.sidebar.w as int, cy);
        let b = ruled.at(l.sidebar.w as int, cy);
    }
}

/// A rule stands between rail and terminal, from the top down to the status line.
pub proof fn law_a_rule_stands_beside_the_rail(
    panes: Seq<Pane>,
    active: int,
    cols: u16,
    rows: u16,
    sidebar_w: u16,
    pending: bool,
    y: int,
)
    requires
        cols >= 20,
        rows >= 3,
        0 <= y < rows - 1,
    ensures
        ({
            let l = laid_out(cols as int, rows as int, sidebar_w as int);
            let f = composed(panes, active, l, cols as int, rows as int, pending);
            f.at(l.sidebar.w as int, y).ch == '│' && f.at(l.sidebar.w as int, y).fg
                == Color::Indexed(238)
        }),
{
    lemma_frame_layers(panes, active, cols, rows, sidebar_w, pending);
}

/// The rail has one background, but for the active button, which is a solid block
/// of its own.
pub proof fn law_the_active_button_stands_out(
    panes: Seq<Pane>,
    active: int,
    cols: u16,
    rows: u16,
    sidebar_w: u16,
    pending: bool,
    x: int,
    y: int,
)
    requires
        cols >= 20,
        rows >= 3,
        panes.len() <= rows - 3,
        0 <= x,
        0 <= y < rows - 1,
    ensures
        ({
            let l = laid_out(cols as int, rows as int, sidebar_w as int);
            let f = composed(panes, active, l, cols as int, rows as int, pending);
            x < l.sidebar.w ==> f.at(x, y).bg == Color::Indexed(
                if 0 <= active < panes.len() && y == active + 1 {
                    24
                } else {
                    235
                },
            )
        }),
{
    let l = laid_out(cols as int, rows as int, sidebar_w as int);
    let f = composed(panes, active, l, cols as int, rows as int, pending);
    let blank = FrameModel::blank(cols as int, rows as int);
    let railed = blank.with_rail(panes, active, l);
    lemma_frame_layers(panes, active, cols, rows, sidebar_w, pending);
    lemma_rail_at(blank, panes, active, l, y - 1);
    if x < l.sidebar.w {
        assert(f.at(x, y) == railed.at(x, y));
        assert(lesser(panes.len() as int, l.sidebar.h - 2) == panes.len());
        if 1 <= y <= panes.len() {
            assert(railed.at(x, (y - 1) + 1) == railed.at(x, y));
        }
    }
}

/// Every terminal that there is room for has its button, one below the other under
/// the heading: what it says stands there from the left edge on, as far as the
/// rail goes, and blanks after it.
pub proof fn law_every_terminal_has_its_button(
    panes: Seq<Pane>,
    active: int,
    cols: u16,
    rows: u16,
    sidebar_w: u16,
    pending: bool,
    i: int,
    x: int,
)
    requires
        cols >= 20,
        rows >= 3,
        panes.len() <= rows - 3,
        0 <= i < panes.len(),
        narrow(button_text(panes[i], i, i == active)),
        0 <= x,
    ensures
        ({
            let l = laid_out(cols as int, rows as int, sidebar_w as int);
            let f = composed(panes, active, l, cols as int, rows as int, pending);
            let t = button_text(panes[i], i, i == active);
            &&& x < l.sidebar.w && x < t.len() ==> f.at(x, i + 1).ch == t[x]
            &&& x < l.sidebar.w && x >= t.len() ==> f.at(x, i + 1).ch == ' '
            &&& x < l.sidebar.w && x < t.len() ==> f.at(x, i + 1).fg == Color::Indexed(
                if i == active {
                    255
                } else if panes[i].alive {
                    245
                } else {
                    240
                },
            )
        }),
{
    let l = laid_out(cols as int, rows as int, sidebar_w as int);
    let f = composed(panes, active, l, cols as int, rows as int, pending);
    let blank = FrameModel::blank(cols as int, rows as int);
    let railed = blank.with_rail(panes, active, l);
    lemma_frame_layers(panes, active, cols, rows, sidebar_w, pending);
    lemma_rail_at(blank, panes, active, l, i);
    if x < l.sidebar.w {
        assert(f.at(x, i + 1) == railed.at(x, i + 1));
    }
}

/// A button says which terminal it is: a mark where it is the active one, its
/// number, its name, and that it is over where it is.
pub proof fn law_buttons_name_their_terminal(pane: Pane, i: nat, active: bool)
    ensures
        ({
            let t = button_text(pane, i as int, active);
            let n = crate::text::decimal((i + 1) as nat);
            let name = pane.shown_name();
            &&& t[0] == (if active {
                '▸'
            } else {
                ' '
            })
            &&& t.subrange(2, 2 + n.len() as int) == n
            &&& t[2 + n.len() as int] == ':'
            &&& t.subrange(4 + n.len() as int, 4 + n.len() as int + name.len()) == name
            &&& pane.alive ==> t.len() == 4 + n.len() + name.len()
            &&& !pane.alive ==> t.skip(4 + n.len() as int + name.len()) == " (exited)"@
        }),
{
    reveal_strlit("▸");
    reveal_strlit(" ");
    reveal_strlit(": ");
    reveal_strlit("");
    reveal_strlit(" (exited)");
    let t = button_text(pane, i as int, active);
    let n = crate::text::decimal((i + 1) as nat);
    let name = pane.shown_name();
    assert(t.subrange(2, 2 + n.len() as int) =~= n);
    assert(t.subrange(4 + n.len() as int, 4 + n.len() as int + name.len()) =~= name);
    if !pane.alive {
        assert(t.skip(4 + n.len() as int + name.len()) =~= " (exited)"@);
    }
}

/// The heading stands above the buttons, and "+ new" in the last row of the rail.
pub proof fn law_the_rail_has_a_head_and_a_foot(
    panes: Seq<Pane>,
    active: int,
    cols: u16,
    rows: u16,
    sidebar_w: u16,
    pending: bool,
    k: int,
)
    requires
        cols >= 20,
        rows >= 3,
        narrow("TERMINALS"@),
        narrow("  + new"@),
        0 <= k,
    ensures
        ({
            let l = laid_out(cols as int, rows as int, sidebar_w as int);
            let f = composed(panes, active, l, cols as int, rows as int, pending);
            &&& k < 9 ==> f.at(k + 1, 0).ch == "TERMINALS"@[k] && f.at(k + 1, 0).fg
                == Color::Indexed(109) && f.at(k + 1, 0).attrs == 1
            &&& k < 7 ==> f.at(k, rows - 2).ch == "  + new"@[k] && f.at(k, rows - 2).fg
                == Color::Indexed(114)
        }),
{
    reveal_strlit("TERMINALS");
    reveal_strlit("  + new");
    let l = laid_out(cols as int, rows as int, sidebar_w as int);
    let f = composed(panes, active, l, cols as int, rows as int, pending);
    let blank = FrameModel::blank(cols as int, rows as int);
    let railed = blank.with_rail(panes, active, l);
    lemma_frame_layers(panes, active, cols, rows, sidebar_w, pending);
    lemma_rail_at(blank, panes, active, l, 0);
    assert(l.sidebar.w >= 10);
    if k < 9 {
        assert(f.at(k + 1, 0) == railed.at(k + 1, 0));
    }
    if k < 7 {
        assert(l.sidebar.h - 1 == rows - 2);
        assert(f.at(k, rows - 2) == railed.at(k, rows - 2));
    }
}

/// The status line fills the last row. It tells how many terminals live and which
/// is shown, and while a chord is pending it says so right behind that.
pub proof fn law_the_status_line_fills_the_last_row(
    panes: Seq<Pane>,
    active: int,
    cols: u16,
    rows: u16,
    sidebar_w: u16,
    pending: bool,
    x: int,
)
    requires
        cols >= 20,
        rows >= 3,
        0 <= x < cols,
    ensures
        ({
            let l = laid_out(cols as int, rows as int, sidebar_w as int);
            let f = composed(panes, active, l, cols as int, rows as int, pending);
            let t = status_text(panes, active);
            let k = x - t.len();
            &&& !pending ==> f.at(x, rows - 1).bg == Color::Indexed(236)
            &&& narrow(t) && x < t.len() ==> f.at(x, rows - 1).ch == t[x] && f.at(x, rows - 1).bg
                == Color::Indexed(236) && f.at(x, rows - 1).fg == Color::Indexed(247) && f.at(
                x,
                rows - 1,
            ).attrs == 1
            &&& pending && narrow(t) && narrow("[C-b]"@) && 0 <= k < 5 ==> f.at(x, rows - 1).ch
                == "[C-b]"@[k] && f.at(x, rows - 1).bg == Color::Indexed(180) && f.at(x, rows - 1).fg
                == Color::Indexed(232)
        }),
{
    reveal_strlit("[C-b]");
    let l = laid_out(cols as int, rows as int, sidebar_w as int);
    let blank = FrameModel::blank(cols as int, rows as int);
    let body = blank.with_rail(panes, active, l).with_divider(l).with_content(panes, active, l);
    lemma_frame_layers(panes, active, cols, rows, sidebar_w, pending);
    lemma_status_alone(body, panes, active, l, pending);
    let f = composed(panes, active, l, cols as int, rows as int, pending);
    let t = status_text(panes, active);
    let y = l.status.y as int;
    assert(y == rows - 1);
    let cell = f.at(x, y);
    let k = x - t.len();
    assert(t.len() + k == x);
    if 0 <= k < 5 {
        let there = f.at(t.len() + k, y);
    }
}

/// As many terminals are counted as live as there are live ones.
pub proof fn law_the_live_are_counted(panes: Seq<Pane>, n: int)
    requires
        0 <= n <= panes.len(),
    ensures
        live_count(panes, n) == panes.take(n).filter(|p: Pane| p.alive).len(),
    decreases n,
{
    reveal(Seq::filter);
    if n > 0 {
        law_the_live_are_counted(panes, n - 1);
        assert(panes.take(n).drop_last() =~= panes.take(n - 1));
        assert(panes.take(n).last() == panes[n - 1]);
    }
}

/// The cursor stands where the active terminal has it, moved along with the
/// screen; where that one is dead or hides its cursor, there is none.
pub proof fn law_the_cursor_is_the_terminals(
    panes: Seq<Pane>,
    active: int,
    cols: u16,
    rows: u16,
    sidebar_w: u16,
    pending: bool,
)
    requires
        cols >= 20,
        rows >= 3,
        0 <= active < panes.len(),
        0 <= panes[active].grid@.screen.cursor_row <= u16::MAX,
        0 <= panes[active].grid@.screen.cursor_col <= u16::MAX,
    ensures
        ({
            let l = laid_out(cols as int, rows as int, sidebar_w as int);
            let f = composed(panes, active, l, cols as int, rows as int, pending);
            let g = panes[active].grid@;
            let row = g.screen.cursor_row;
            let col = g.screen.cursor_col;
            let left = l.sidebar.w + 1;
            let shown = panes[active].alive && g.cursor_visible && row < rows - 1 && col < cols
                - left;
            &&& shown ==> (f.cursor matches Some((y, x)) && y == row && x == col + left)
            &&& !shown ==> f.cursor is None
        }),
{
    lemma_frame_layers(panes, active, cols, rows, sidebar_w, pending);
}

/// The status line tells how many of the terminals live, how many there are, and
/// the number of the one that is shown.
pub proof fn law_the_status_line_counts(panes: Seq<Pane>, active: nat)
    ensures
        ({
            let t = status_text(panes, active as int);
            let live = crate::text::decimal(live_count(panes, panes.len() as int));
            let all = crate::text::decimal(panes.len());
            let shown = crate::text::decimal((active + 1) as nat);
            let a = 7 + live.len() as int;
            let b = a + 1 + all.len();
            &&& t.subrange(7, a) == live
            &&& t[a] == '/'
            &&& t.subrange(a + 1, b) == all
            &&& t.subrange(b + 13, b + 13 + shown.len()) == shown
            &&& t.len() == b + 13 + shown.len() + 1
        }),
{
    reveal_strlit(" mux · ");
    reveal_strlit("/");
    reveal_strlit(" live · pane ");
    reveal_strlit(" ");
    let t = status_text(panes, active as int);
    let live = crate::text::decimal(live_count(panes, panes.len() as int));
    let all = crate::text::decimal(panes.len());
    let shown = crate::text::decimal((active + 1) as nat);
    let a = 7 + live.len() as int;
    let b = a + 1 + all.len();
    assert(t.subrange(7, a) =~= live);
    assert(t.subrange(a + 1, b) =~= all);
    assert(t.subrange(b + 13, b + 13 + shown.len()) =~= shown);
}

/// The `j`-th cell of a hint: the key in one colour, what it does in another.
pub open spec fn hint_cell(k: int, j: int) -> Cell {
    Cell {
        ch: (hint_key(k) + hint_what(k))[j],
        fg: Color::Indexed(
            if j < hint_key(k).len() {
                180
            } else {
                247
            },
        ),
        bg: Color::Indexed(236),
        attrs: 0,
    }
}

/// One hint that there is room for: the key and what it does, one after the
/// other, and the next hint behind them.
proof fn lemma_hint_at(f: FrameModel, l: Layout, x: int, k: int)
    requires
        f.wf(),
        x >= 0,
        0 <= k < 4,
        l.status.x == 0,
        l.status.w == f.cols,
        l.status.y < f.rows,
        x + 12 <= f.cols,
        narrow(hint_key(k)),
        narrow(hint_what(k)),
    ensures
        ({
            let g = f.hints(l, x, k);
            let both = hint_key(k) + hint_what(k);
            let y = l.status.y as int;
            let end = lesser(x + both.len(), f.cols);
            exists|h: FrameModel|
                {
                    &&& alike(f, h)
                    &&& g == #[trigger] h.hints(l, end, k + 1)
                    &&& forall|cx: int|
                        end <= cx < f.cols ==> (#[trigger] h.at(cx, y)) == f.at(cx, y)
                    &&& forall|cx: int|
                        0 <= cx < end ==> (#[trigger] h.at(cx, y)) == if cx < x {
                            f.at(cx, y)
                        } else {
                            hint_cell(k, cx - x)
                        }
                    &&& forall|cx: int|
                        0 <= cx < end ==> (#[trigger] g.at(cx, y)) == if cx < x {
                            f.at(cx, y)
                        } else {
                            hint_cell(k, cx - x)
                        }
                }
        }),
{
    let s = l.status;
    let y = s.y as int;
    let bg = Color::Indexed(STATUS_BG);
    let both = hint_key(k) + hint_what(k);
    let end = lesser(x + both.len(), f.cols);
    let key_ink = ink(Color::Indexed(STATUS_KEY_FG), bg, 0);
    let what_ink = ink(Color::Indexed(STATUS_FG), bg, 0);
    let key = f.text(x, y, minus(s.w as int, x), hint_key(k), key_ink);
    lemma_narrow_text(f, x, y, f.cols, hint_key(k), 0, key_ink);
    let what = key.0.text(key.1, y, minus(s.w as int, key.1), hint_what(k), what_ink);
    lemma_narrow_text(key.0, key.1, y, f.cols, hint_what(k), 0, what_ink);
    let h = what.0;
    assert(what.1 == end);
    let g = f.hints(l, x, k);
    assert(g == h.hints(l, end, k + 1));
    lemma_hints_inked(h, l, end, k + 1);
    assert forall|cx: int| end <= cx < f.cols implies (#[trigger] h.at(cx, y)) == f.at(cx, y) by {
        let a = key.0.at(cx, y);
    }
    assert forall|cx: int| 0 <= cx < end implies (#[trigger] h.at(cx, y)) == if cx < x {
        f.at(cx, y)
    } else {
        hint_cell(k, cx - x)
    } by {
        let a = key.0.at(cx, y);
    }
    assert forall|cx: int| 0 <= cx < end implies (#[trigger] g.at(cx, y)) == if cx < x {
        f.at(cx, y)
    } else {
        hint_cell(k, cx - x)
    } by {
        let a = h.at(cx, y);
    }
}

/// Behind the status the line tells of the keys, one hint after the other, as long
/// as there is room for them: how to open a terminal, switch, close one and leave.
#[verifier::rlimit(40)]
pub proof fn law_the_status_line_tells_of_the_keys(
    panes: Seq<Pane>,
    active: int,
    cols: u16,
    rows: u16,
    sidebar_w: u16,
    x: int,
)
    requires
        cols >= 20,
        rows >= 3,
        narrow(status_text(panes, active)),
        forall|k: int| 0 <= k < 4 ==> narrow(#[trigger] hint_key(k)) && narrow(hint_what(k)),
        status_text(panes, active).len() <= x < cols,
    ensures
        ({
            let l = laid_out(cols as int, rows as int, sidebar_w as int);
            let f = composed(panes, active, l, cols as int, rows as int, false);
            let n = status_text(panes, active).len();
            let k = x - n;
            &&& k < 11 && n + 12 <= cols ==> f.at(x, rows - 1).ch == "C-b c new  "@[k]
            &&& 11 <= k < 27 && n + 23 <= cols ==> f.at(x, rows - 1).ch == "C-b n/p switch  "@[k
                - 11]
            &&& 27 <= k < 40 && n + 39 <= cols ==> f.at(x, rows - 1).ch == "C-b x close  "@[k - 27]
            &&& 40 <= k < 52 && n + 52 <= cols ==> f.at(x, rows - 1).ch == "C-b q quit  "@[k - 40]
            &&& n + 12 > cols ==> f.at(x, rows - 1).ch == ' '
            &&& k >= 11 && n + 23 > cols ==> f.at(x, rows - 1).ch == ' '
            &&& k >= 27 && n + 39 > cols ==> f.at(x, rows - 1).ch == ' '
            &&& k >= 40 && n + 52 > cols ==> f.at(x, rows - 1).ch == ' '
            &&& k < 5 && n + 12 <= cols ==> f.at(x, rows - 1).fg == Color::Indexed(180)
            &&& 5 <= k < 11 && n + 12 <= cols ==> f.at(x, rows - 1).fg == Color::Indexed(247)
        }),
{
    reveal_strlit("C-b c new  ");
    reveal_strlit("C-b n/p switch  ");
    reveal_strlit("C-b x close  ");
    reveal_strlit("C-b q quit  ");
    reveal_strlit("C-b c");
    reveal_strlit("C-b n/p");
    reveal_strlit("C-b x");
    reveal_strlit("C-b q");
    reveal_strlit(" new  ");
    reveal_strlit(" switch  ");
    reveal_strlit(" close  ");
    reveal_strlit(" quit  ");
    assert(hint_key(0) + hint_what(0) =~= "C-b c new  "@);
    assert(hint_key(1) + hint_what(1) =~= "C-b n/p switch  "@);
    assert(hint_key(2) + hint_what(2) =~= "C-b x close  "@);
    assert(hint_key(3) + hint_what(3) =~= "C-b q quit  "@);
    let l = laid_out(cols as int, rows as int, sidebar_w as int);
    let blank = FrameModel::blank(cols as int, rows as int);
    let body = blank.with_rail(panes, active, l).with_divider(l).with_content(panes, active, l);
    lemma_frame_layers(panes, active, cols, rows, sidebar_w, false);
    let t = status_text(panes, active);
    let n = t.len() as int;
    let y = l.status.y as int;
    let bg = Color::Indexed(STATUS_BG);
    let bar = body.boxed(0, y, cols as int, 1, wash(bg));
    lemma_boxed_at(body, 0, y, cols as int, 1, wash(bg));
    let bold = ink(Color::Indexed(STATUS_FG), bg, A_BOLD);
    let left = bar.text(0, y, cols as int, t, bold);
    lemma_narrow_text(bar, 0, y, cols as int, t, 0, bold);
    assert(left.1 == n);
    let f = composed(panes, active, l, cols as int, rows as int, false);
    assert(f == left.0.hints(l, n, 0));
    assert(left.0.at(x, y).ch == ' ') by {
        let there = bar.at(x, y);
    }
    if n + 12 <= cols {
        lemma_hint_at(left.0, l, n, 0);
        let e0 = lesser(n + 11, cols as int);
        let h0 = choose|h: FrameModel|
            {
                &&& alike(left.0, h)
                &&& f == #[trigger] h.hints(l, e0, 1)
                &&& forall|cx: int|
                    e0 <= cx < cols ==> (#[trigger] h.at(cx, y)) == left.0.at(cx, y)
                &&& forall|cx: int|
                    0 <= cx < e0 ==> (#[trigger] h.at(cx, y)) == if cx < n {
                        left.0.at(cx, y)
                    } else {
                        hint_cell(0, cx - n)
                    }
                &&& forall|cx: int|
                    0 <= cx < e0 ==> (#[trigger] f.at(cx, y)) == if cx < n {
                        left.0.at(cx, y)
                    } else {
                        hint_cell(0, cx - n)
                    }
            };
        let first = h0.at(x, y);
        if n + 23 <= cols {
            lemma_hint_at(h0, l, n + 11, 1);
            let e1 = lesser(n + 27, cols as int);
            let h1 = choose|h: FrameModel|
                {
                    &&& alike(h0, h)
                    &&& f == #[trigger] h.hints(l, e1, 2)
                    &&& forall|cx: int|
                        e1 <= cx < cols ==> (#[trigger] h.at(cx, y)) == h0.at(cx, y)
                    &&& forall|cx: int|
                        0 <= cx < e1 ==> (#[trigger] h.at(cx, y)) == if cx < n + 11 {
                            h0.at(cx, y)
                        } else {
                            hint_cell(1, cx - (n + 11))
                        }
                    &&& forall|cx: int|
                        0 <= cx < e1 ==> (#[trigger] f.at(cx, y)) == if cx < n + 11 {
                            h0.at(cx, y)
                        } else {
                            hint_cell(1, cx - (n + 11))
                        }
                };
            let second = h1.at(x, y);
            if n + 39 <= cols {
                lemma_hint_at(h1, l, n + 27, 2);
                let e2 = lesser(n + 40, cols as int);
                let h2 = choose|h: FrameModel|
                    {
                        &&& alike(h1, h)
                        &&& f == #[trigger] h.hints(l, e2, 3)
                        &&& forall|cx: int|
                            e2 <= cx < cols ==> (#[trigger] h.at(cx, y)) == h1.at(cx, y)
                        &&& forall|cx: int|
                            0 <= cx < e2 ==> (#[trigger] h.at(cx, y)) == if cx < n + 27 {
                                h1.at(cx, y)
                            } else {
                                hint_cell(2, cx - (n + 27))
                            }
                        &&& forall|cx: int|
                            0 <= cx < e2 ==> (#[trigger] f.at(cx, y)) == if cx < n + 27 {
                                h1.at(cx, y)
                            } else {
                                hint_cell(2, cx - (n + 27))
                            }
                    };
                let third = h2.at(x, y);
                if n + 52 <= cols {
                    lemma_hint_at(h2, l, n + 40, 3);
                }
            }
        }
    }
    let cell = f.at(x, y);
}

/// Where there are more terminals than the rail has room for, the last row above
/// "+ new" says so.
pub proof fn law_hidden_terminals_are_told_of(
    panes: Seq<Pane>,
    active: int,
    cols: u16,
    rows: u16,
    sidebar_w: u16,
    pending: bool,
    k: int,
)
    requires
        cols >= 20,
        rows >= 4,
        panes.len() > rows - 3,
        narrow(" …more"@),
        0 <= k < 6,
    ensures
        ({
            let l = laid_out(cols as int, rows as int, sidebar_w as int);
            let f = composed(panes, active, l, cols as int, rows as int, pending);
            f.at(k, rows - 3).ch == " …more"@[k] && f.at(k, rows - 3).fg == Color::Indexed(240)
        }),
{
    reveal_strlit(" …more");
    let l = laid_out(cols as int, rows as int, sidebar_w as int);
    let f = composed(panes, active, l, cols as int, rows as int, pending);
    let blank = FrameModel::blank(cols as int, rows as int);
    let railed = blank.with_rail(panes, active, l);
    lemma_frame_layers(panes, active, cols, rows, sidebar_w, pending);
    lemma_rail_at(blank, panes, active, l, 0);
    assert(l.sidebar.w >= 10);
    assert(lesser(panes.len() as int, l.sidebar.h - 2) == rows - 3);
    assert(f.at(k, rows - 3) == railed.at(k, rows - 3));
}

/// The frame is as large as the screen.
pub proof fn law_the_picture_has_its_size(
    panes: Seq<Pane>,
    active: int,
    cols: u16,
    rows: u16,
    sidebar_w: u16,
    pending: bool,
)
    requires
        cols >= 20,
        rows >= 3,
    ensures
        ({
            let l = laid_out(cols as int, rows as int, sidebar_w as int);
            let f = composed(panes, active, l, cols as int, rows as int, pending);
            f.cols == cols && f.rows == rows && f.cells.len() == cols * rows
        }),
{
    lemma_frame_layers(panes, active, cols, rows, sidebar_w, pending);
}

/// The rule stands where the layout says, and nowhere else.
pub proof fn law_the_rule_goes_where_it_is_laid_out(f: FrameModel, l: Layout, x: int, y: int)
    requires
        f.wf(),
        0 <= x < f.cols,
        0 <= y < f.rows,
    ensures
        ({
            let on = x == l.divider_x && l.sidebar.y <= y < l.sidebar.y + l.sidebar.h;
            &&& on ==> f.with_divider(l).at(x, y).ch == '│'
            &&& !on ==> f.with_divider(l).at(x, y) == f.at(x, y)
        }),
{
    let rule = Cell { ch: '│', fg: Color::Indexed(238), bg: Color::Default, attrs: 0 };
    lemma_boxed_at(
        f,
        l.divider_x as int,
        l.sidebar.y as int,
        1,
        l.sidebar.h as int,
        rule,
    );
    let there = f.with_divider(l).at(x, y);
}

/// The active pane is put down where the layout says, cell by cell from its top
/// left corner, as much of it as there is room for; all around it stays.
pub proof fn law_the_pane_goes_where_it_is_laid_out(
    f: FrameModel,
    panes: Seq<Pane>,
    active: int,
    l: Layout,
    x: int,
    y: int,
)
    requires
        f.wf(),
        0 <= active < panes.len(),
        0 <= x < f.cols,
        0 <= y < f.rows,
        0 <= panes[active].grid@.cols <= u16::MAX,
        0 <= panes[active].grid@.rows <= u16::MAX,
    ensures
        ({
            let c = l.content;
            let g = panes[active].grid@;
            let inside = c.x <= x < c.x + c.w && c.y <= y < c.y + c.h && x - c.x < g.cols && y - c.y
                < g.rows;
            let after = f.with_content(panes, active, l);
            &&& inside ==> after.at(x, y) == g.screen.rows[y - c.y][x - c.x]
            &&& !inside ==> after.at(x, y) == f.at(x, y)
        }),
{
    lemma_place(f, x, y);
    lemma_column_and_row(f.cols, f.place(x, y), x, y);
}

/// A button stands in its row of the rail, wherever the rail is: what it says from
/// the left edge on, and its background up to the right edge.
pub proof fn law_a_button_goes_where_it_is_laid_out(
    f: FrameModel,
    panes: Seq<Pane>,
    active: int,
    l: Layout,
    i: int,
    k: int,
)
    requires
        f.wf(),
        0 <= i,
        l.sidebar.x + l.sidebar.w <= f.cols,
        l.sidebar.y + 1 + i < f.rows,
        0 <= k < l.sidebar.w,
        narrow(button_text(panes[i], i, i == active)),
    ensures
        ({
            let after = f.button(panes, active, l, i);
            let cell = after.at(l.sidebar.x + k, l.sidebar.y + 1 + i);
            let t = button_text(panes[i], i, i == active);
            &&& k < t.len() ==> cell.ch == t[k]
            &&& k >= t.len() ==> cell.ch == ' '
            &&& cell.bg == Color::Indexed(
                if i == active {
                    24
                } else {
                    235
                },
            )
        }),
{
    let r = l.sidebar;
    let y = r.y + 1 + i;
    let t = button_text(panes[i], i, i == active);
    let look = button_ink(i == active, panes[i].alive);
    let bar = f.boxed(r.x as int, y, r.w as int, 1, wash(look.bg));
    lemma_boxed_at(f, r.x as int, y, r.w as int, 1, wash(look.bg));
    lemma_narrow_text(bar, r.x as int, y, r.x + r.w, t, 0, look);
    let before = bar.at(r.x + k, y);
    let after = f.button(panes, active, l, i).at(r.x + k, y);
}

/// The status stands at the left of the status line, wherever that is.
pub proof fn law_the_status_goes_where_it_is_laid_out(
    f: FrameModel,
    panes: Seq<Pane>,
    active: int,
    l: Layout,
    pending: bool,
    k: int,
)
    requires
        f.wf(),
        l.status.x + l.status.w <= f.cols,
        l.status.y < f.rows,
        narrow(status_text(panes, active)),
        0 <= k < status_text(panes, active).len(),
        k < l.status.w,
    ensures
        f.with_status(panes, active, l, pending).at(l.status.x + k, l.status.y as int).ch
            == status_text(panes, active)[k],
{
    let s = l.status;
    let y = s.y as int;
    let t = status_text(panes, active);
    let bg = Color::Indexed(STATUS_BG);
    let bar = f.boxed(s.x as int, y, s.w as int, 1, wash(bg));
    lemma_boxed_at(f, s.x as int, y, s.w as int, 1, wash(bg));
    let bold = ink(Color::Indexed(STATUS_FG), bg, A_BOLD);
    let left = bar.text(s.x as int, y, s.w as int, t, bold);
    lemma_narrow_text(bar, s.x as int, y, s.x + s.w, t, 0, bold);
    let first = left.0.at(s.x + k, y);
    let loud = ink(Color::Indexed(PENDING_FG), Color::Indexed(PENDING_BG), A_BOLD);
    if pending {
        let limit = lesser(left.1 + minus(s.w as int, left.1), left.0.cols);
        lemma_text_inked(left.0, left.1, y, limit, "[C-b]"@, widths_of("[C-b]"@), 0, loud);
    } else {
        lemma_hints_inked(left.0, l, left.1, 0);
    }
    let last = f.with_status(panes, active, l, pending).at(s.x + k, y);
}

} // verus!
