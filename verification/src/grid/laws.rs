//! What holds of a grid whatever is fed to it.
use super::model::{
    arg, cursor_report, device_attributes, firsts, fitted, minus, mode_arg, sgr, sgr_from, sgr_step, slide_down,
    slide_up, with_color, GridModel, ScreenModel, VtAction,
};
use super::{Cell, Color, WIDE_CONT};
use crate::text::{lemma_trim_idempotent, trim};
use crate::width::print_width;
use vstd::prelude::*;

verus! {

proof fn lemma_slides_keep_width(g: GridModel, lo: int, n: int)
    requires
        g.wf(),
        0 <= lo <= g.scroll_bot,
        n >= 0,
    ensures
        ({
            let up = slide_up(g.screen.rows, lo, g.scroll_bot, n, g.blank_line());
            let down = slide_down(g.screen.rows, lo, g.scroll_bot, n, g.blank_line());
            &&& g.with_rows(up).wf()
            &&& g.with_rows(down).wf()
        }),
{
}

proof fn lemma_scrolled_wf(g: GridModel, n: int)
    requires
        g.wf(),
        n >= 0,
    ensures
        g.scrolled_up(n).wf(),
        g.scrolled_down(n).wf(),
{
    lemma_slides_keep_width(g, g.scroll_top, n);
}

proof fn lemma_modes_set_wf(
    g: GridModel,
    private: bool,
    params: Seq<Seq<u16>>,
    i: int,
    on: bool,
)
    requires
        g.wf(),
        i >= 0,
    ensures
        g.modes_set(private, params, i, on).wf(),
    decreases params.len() - i,
{
    if i < params.len() {
        if params[i].len() > 0 {
            lemma_modes_set_wf(g.mode_set(private, params[i][0], on), private, params, i + 1, on);
        } else {
            lemma_modes_set_wf(g, private, params, i + 1, on);
        }
    }
}

proof fn lemma_next_stop(g: GridModel, c: int)
    requires
        c <= g.cols,
    ensures
        c <= g.next_stop(c) <= g.cols,
    decreases g.cols - c,
{
    if c < g.cols && !g.tabs[c] {
        lemma_next_stop(g, c + 1);
    }
}

pub(crate) proof fn lemma_line_feed_wf(g: GridModel)
    requires
        g.wf(),
    ensures
        g.line_feed().wf(),
        g.reverse_index().wf(),
        g.next_line().wf(),
{
    lemma_scrolled_wf(g, 1);
    lemma_scrolled_wf(g.carriage_return(), 1);
}

#[verifier::rlimit(40)]
#[verifier::spinoff_prover]
proof fn lemma_printed_wf(g: GridModel, c: char)
    requires
        g.wf(),
        g.fits(c),
    ensures
        g.printed(c).wf(),
{
    lemma_line_feed_wf(g);
    lemma_line_feed_wf(g.next_line());
}

proof fn lemma_lines_wf(g: GridModel, n: int)
    requires
        g.wf(),
        n >= 0,
    ensures
        g.lines_inserted(n).wf(),
        g.lines_deleted(n).wf(),
{
    if g.cursor_in_region() {
        lemma_slides_keep_width(g, g.screen.cursor_row, n);
    }
}

proof fn lemma_edits_wf(g: GridModel, n: int)
    requires
        g.wf(),
        n >= 0,
    ensures
        g.chars_inserted(n).wf(),
        g.chars_deleted(n).wf(),
        g.chars_erased(n).wf(),
{
}

proof fn lemma_erased_wf(g: GridModel, mode: int)
    requires
        g.wf(),
    ensures
        g.line_erased(mode).wf(),
        g.display_erased(mode).wf(),
{
}

proof fn lemma_moved_wf(g: GridModel, r: int, c: int)
    requires
        g.wf(),
    ensures
        r >= 0 && c >= 0 ==> g.moved_to(r, c).wf(),
        r >= 0 && c >= 0 ==> g.addressed(r, c).wf(),
        g.moved_by(r, c).wf(),
        g.moved_by(r, c).carriage_return().wf(),
        r >= 0 ==> g.region_set(r, c).wf(),
        g.cursor_saved().wf(),
        g.cursor_restored().wf(),
{
}

proof fn lemma_csi_wf(g: GridModel, params: Seq<Seq<u16>>, intermediates: Seq<u8>, action: char)
    requires
        g.wf(),
    ensures
        g.csi(params, intermediates, action).wf(),
{
    let n = arg(params, 0, 1) as int;
    let private = intermediates.len() > 0 && intermediates[0] == 0x3f;
    if action == 'A' || action == 'F' {
        lemma_moved_wf(g, -n, 0);
    } else if action == 'B' || action == 'e' || action == 'E' {
        lemma_moved_wf(g, n, 0);
    } else if action == 'C' || action == 'a' {
        lemma_moved_wf(g, 0, n);
    } else if action == 'D' {
        lemma_moved_wf(g, 0, -n);
    } else if action == 'G' || action == '`' {
        lemma_moved_wf(g, g.screen.cursor_row, n - 1);
    } else if action == 'd' {
        lemma_moved_wf(g, n - 1, g.screen.cursor_col);
    } else if action == 'H' || action == 'f' {
        lemma_moved_wf(g, n - 1, arg(params, 1, 1) - 1);
    } else if action == 'J' || action == 'K' {
        lemma_erased_wf(g, mode_arg(params) as int);
    } else if action == 'L' || action == 'M' {
        lemma_lines_wf(g, n);
    } else if action == 'P' || action == '@' || action == 'X' {
        lemma_edits_wf(g, n);
    } else if action == 'S' || action == 'T' {
        lemma_scrolled_wf(g, n);
    } else if action == 'r' {
        lemma_moved_wf(g, n - 1, minus(arg(params, 1, g.rows as u16) as int, 1));
    } else if action == 'h' {
        lemma_modes_set_wf(g, private, params, 0, true);
    } else if action == 'l' {
        lemma_modes_set_wf(g, private, params, 0, false);
    } else if action == 's' || action == 'u' {
        lemma_moved_wf(g, 0, 0);
    }
}

/// Whatever sequence is applied, the screen keeps its shape: every line keeps
/// its width, the cursor stays on a cell, the scroll region stays a region.
pub proof fn law_shape_is_kept(g: GridModel, a: VtAction)
    requires
        g.wf(),
        g.accepts(a),
    ensures
        g.apply(a).wf(),
        g.apply(a).cols == g.cols,
        g.apply(a).rows == g.rows,
{
    match a {
        VtAction::Print(c) => lemma_printed_wf(g, c),
        VtAction::Execute(byte) => {
            lemma_line_feed_wf(g);
            lemma_next_stop(g, g.screen.cursor_col + 1);
        },
        VtAction::Csi { params, intermediates, action } => {
            lemma_csi_wf(g, params, intermediates, action);
            let private = intermediates.len() > 0 && intermediates[0] == 0x3f;
            lemma_modes_keep_size(g, private, params, 0, true);
            lemma_modes_keep_size(g, private, params, 0, false);
        },
        VtAction::Esc { intermediates, byte } => {
            lemma_line_feed_wf(g);
        },
        VtAction::Osc { fields } => {},
    }
}

pub(crate) proof fn lemma_modes_keep_size(
    g: GridModel,
    private: bool,
    params: Seq<Seq<u16>>,
    i: int,
    on: bool,
)
    requires
        i >= 0,
    ensures
        g.modes_set(private, params, i, on).cols == g.cols,
        g.modes_set(private, params, i, on).rows == g.rows,
        g.modes_set(private, params, i, on).scrollback == g.scrollback,
        g.modes_set(private, params, i, on).reply == g.reply,
        g.modes_set(private, params, i, on).title == g.title,
        !private ==> g.modes_set(private, params, i, on) == g,
        on && g.alt is Some ==> g.modes_set(private, params, i, on).alt == g.alt,
        !on ==> g.modes_set(private, params, i, on).alt == g.alt || g.modes_set(
            private,
            params,
            i,
            on,
        ).alt is None,
    decreases params.len() - i,
{
    if i < params.len() {
        if params[i].len() > 0 {
            lemma_modes_keep_size(
                g.mode_set(private, params[i][0], on),
                private,
                params,
                i + 1,
                on,
            );
        } else {
            lemma_modes_keep_size(g, private, params, i + 1, on);
        }
    }
}

/// A whole stream keeps the shape of the screen.
pub proof fn law_streams_keep_the_shape(g: GridModel, actions: Seq<VtAction>, n: int)
    requires
        g.wf(),
        0 <= n <= actions.len(),
        g.accepts_all(actions, n),
    ensures
        g.after(actions, n).wf(),
        g.after(actions, n).cols == g.cols,
        g.after(actions, n).rows == g.rows,
    decreases n,
{
    if n > 0 {
        law_streams_keep_the_shape(g, actions, n - 1);
        law_shape_is_kept(g.after(actions, n - 1), actions[n - 1]);
    }
}

/// What is fed up to the first action that does not fit is all accepted, and so
/// keeps the shape of the screen.
pub proof fn law_feeding_keeps_the_shape(g: GridModel, actions: Seq<VtAction>)
    requires
        g.wf(),
    ensures
        0 <= g.stops_at(actions, 0) <= actions.len(),
        g.accepts_all(actions, g.stops_at(actions, 0)),
        g.fed(actions).wf(),
        g.fed(actions).cols == g.cols,
        g.fed(actions).rows == g.rows,
        g.takes(actions) ==> g.fed(actions) == g.after(actions, actions.len() as int),
        !g.takes(actions) ==> !g.fed(actions).accepts(actions[g.stops_at(actions, 0)]),
{
    lemma_stops_at(g, actions, 0);
    law_streams_keep_the_shape(g, actions, g.stops_at(actions, 0));
}

proof fn lemma_stops_at(g: GridModel, actions: Seq<VtAction>, i: int)
    requires
        0 <= i <= actions.len(),
    ensures
        i <= g.stops_at(actions, i) <= actions.len(),
        forall|k: int|
            i <= k < g.stops_at(actions, i) ==> (#[trigger] g.after(actions, k)).accepts(actions[k]),
        g.stops_at(actions, i) < actions.len() ==> !g.after(
            actions,
            g.stops_at(actions, i),
        ).accepts(actions[g.stops_at(actions, i)]),
    decreases actions.len() - i,
{
    if i < actions.len() && g.after(actions, i).accepts(actions[i]) {
        lemma_stops_at(g, actions, i + 1);
    }
}

/// Feeding one stream after another is feeding them joined.
pub proof fn law_streams_join(g: GridModel, a: Seq<VtAction>, b: Seq<VtAction>, n: int)
    requires
        0 <= n <= b.len(),
    ensures
        g.after(a, a.len() as int).after(b, n) == g.after(a + b, a.len() + n),
    decreases n,
{
    lemma_after_prefix(g, a, b, a.len() as int);
    if n > 0 {
        law_streams_join(g, a, b, n - 1);
        assert((a + b)[a.len() + n - 1] == b[n - 1]);
    }
}

proof fn lemma_after_prefix(g: GridModel, a: Seq<VtAction>, b: Seq<VtAction>, n: int)
    requires
        0 <= n <= a.len(),
    ensures
        g.after(a + b, n) == g.after(a, n),
    decreases n,
{
    if n > 0 {
        lemma_after_prefix(g, a, b, n - 1);
        assert((a + b)[n - 1] == a[n - 1]);
    }
}

/// What is drawn on the alternate screen never reaches the history: while it is
/// showing, the history stays as it is or is cleared.
pub proof fn law_alternate_screen_leaves_no_history(g: GridModel, a: VtAction)
    requires
        g.alt is Some,
    ensures
        g.apply(a).scrollback == g.scrollback || g.apply(a).scrollback == Seq::<
            Seq<Cell>,
        >::empty(),
{
    match a {
        VtAction::Csi { params, intermediates, action } => {
            let private = intermediates.len() > 0 && intermediates[0] == 0x3f;
            lemma_modes_keep_size(g, private, params, 0, true);
            lemma_modes_keep_size(g, private, params, 0, false);
        },
        _ => {},
    }
}

/// While the alternate screen is showing, nothing draws on the normal one: it
/// stays put by as it was, until it is brought back or all is reset.
pub proof fn law_normal_screen_is_put_by(g: GridModel, a: VtAction)
    requires
        g.alt is Some,
    ensures
        g.apply(a).alt == g.alt || g.apply(a).alt is None,
{
    match a {
        VtAction::Csi { params, intermediates, action } => {
            let private = intermediates.len() > 0 && intermediates[0] == 0x3f;
            lemma_modes_keep_size(g, private, params, 0, true);
            lemma_modes_keep_size(g, private, params, 0, false);
        },
        _ => {},
    }
}

/// Entering the alternate screen and leaving it again brings back the normal
/// screen, the cursor and the pen. What is left of the trip is the saved cursor.
pub proof fn law_alternate_screen_round_trip(g: GridModel)
    requires
        g.wf(),
        g.alt is None,
    ensures
        g.mode_set(true, 1049, true).mode_set(true, 1049, false) == g.cursor_saved().unwrapped(),
{
    assert(g.mode_set(true, 1049, true).mode_set(true, 1049, false)
        =~= g.cursor_saved().unwrapped());
}

/// Some parameter names the mode.
pub open spec fn names_mode(params: Seq<Seq<u16>>, mode: u16) -> bool {
    exists|i: int| 0 <= i < params.len() && (#[trigger] params[i]).len() > 0 && params[i][0] == mode
}

/// A private mode is switched on or off.
pub open spec fn switches(a: VtAction, mode: u16, on: bool) -> bool {
    a matches VtAction::Csi { params, intermediates, action } && action == (if on {
        'h'
    } else {
        'l'
    }) && intermediates.len() > 0 && intermediates[0] == 0x3f && names_mode(params, mode)
}

/// The action leaves the alternate screen, or resets everything.
pub open spec fn leaves_alternate(a: VtAction) -> bool {
    ||| switches(a, 1047, false)
    ||| switches(a, 1049, false)
    ||| a matches VtAction::Esc { intermediates, byte } && intermediates.len() == 0 && byte == 0x63
}

/// The action saves the cursor.
pub open spec fn saves_cursor(a: VtAction) -> bool {
    ||| switches(a, 1049, true)
    ||| a matches VtAction::Csi { params, intermediates, action } && action == 's'
    ||| a matches VtAction::Esc { intermediates, byte } && intermediates.len() == 0 && byte == 0x37
}

/// The action clears the history.
pub open spec fn clears_history(a: VtAction) -> bool {
    a matches VtAction::Csi { params, intermediates, action } && action == 'J' && mode_arg(params)
        == 3
}

/// `ESC [ ? mode h` or `ESC [ ? mode l`.
pub open spec fn switch(mode: u16, on: bool) -> VtAction {
    VtAction::Csi {
        params: seq![seq![mode]],
        intermediates: seq![0x3fu8],
        action: if on {
            'h'
        } else {
            'l'
        },
    }
}

pub(crate) proof fn lemma_switch(g: GridModel, mode: u16, on: bool)
    ensures
        g.apply(switch(mode, on)) == g.mode_set(true, mode, on),
{
    let params = seq![seq![mode]];
    let h = g.mode_set(true, mode, on);
    assert(params[0][0] == mode);
    assert(h.modes_set(true, params, 1, on) == h);
    assert(g.modes_set(true, params, 0, on) == h);
}

proof fn lemma_modes_keep_the_way_back(
    g: GridModel,
    private: bool,
    params: Seq<Seq<u16>>,
    i: int,
    on: bool,
)
    requires
        i >= 0,
        g.alt is Some,
        !on && private ==> !names_mode(params, 1047) && !names_mode(params, 1049),
    ensures
        g.modes_set(private, params, i, on).alt == g.alt,
        !names_mode(params, 1049) ==> g.modes_set(private, params, i, on).saved == g.saved,
    decreases params.len() - i,
{
    if i < params.len() {
        if params[i].len() > 0 {
            lemma_modes_keep_the_way_back(
                g.mode_set(private, params[i][0], on),
                private,
                params,
                i + 1,
                on,
            );
            if !private {
                lemma_modes_keep_size(g, private, params, i, on);
            }
        } else {
            lemma_modes_keep_the_way_back(g, private, params, i + 1, on);
        }
    }
}

#[verifier::rlimit(40)]
#[verifier::spinoff_prover]
proof fn lemma_way_back_step(g: GridModel, a: VtAction)
    requires
        g.alt is Some,
        !leaves_alternate(a),
    ensures
        g.apply(a).alt == g.alt,
        g.apply(a).cols == g.cols,
        g.apply(a).rows == g.rows,
        !saves_cursor(a) ==> g.apply(a).saved == g.saved,
        !clears_history(a) ==> g.apply(a).scrollback == g.scrollback,
{
    match a {
        VtAction::Csi { params, intermediates, action } => {
            let private = intermediates.len() > 0 && intermediates[0] == 0x3f;
            if action == 'h' {
                lemma_modes_keep_size(g, private, params, 0, true);
                lemma_modes_keep_the_way_back(g, private, params, 0, true);
            } else if action == 'l' {
                lemma_modes_keep_size(g, private, params, 0, false);
                lemma_modes_keep_the_way_back(g, private, params, 0, false);
            }
        },
        _ => {},
    }
}

proof fn lemma_way_back(g: GridModel, actions: Seq<VtAction>, n: int)
    requires
        g.alt is Some,
        0 <= n <= actions.len(),
        forall|i: int| 0 <= i < n ==> !leaves_alternate(#[trigger] actions[i]),
    ensures
        g.after(actions, n).alt == g.alt,
        g.after(actions, n).cols == g.cols,
        g.after(actions, n).rows == g.rows,
        (forall|i: int| 0 <= i < n ==> !saves_cursor(#[trigger] actions[i])) ==> g.after(
            actions,
            n,
        ).saved == g.saved,
        (forall|i: int| 0 <= i < n ==> !clears_history(#[trigger] actions[i])) ==> g.after(
            actions,
            n,
        ).scrollback == g.scrollback,
    decreases n,
{
    if n > 0 {
        lemma_way_back(g, actions, n - 1);
        lemma_way_back_step(g.after(actions, n - 1), actions[n - 1]);
    }
}

/// Whatever a program does on the alternate screen, leaving it brings back the
/// lines of the normal one. The cursor and the pen come back too, unless the
/// program saved another cursor over them, and the history is as it was, unless
/// the program cleared it.
pub proof fn law_normal_screen_comes_back(g: GridModel, actions: Seq<VtAction>, n: int)
    requires
        g.wf(),
        g.alt is None,
        0 <= n <= actions.len(),
        forall|i: int| 0 <= i < n ==> !leaves_alternate(#[trigger] actions[i]),
    ensures
        ({
            let back = g.apply(switch(1049, true)).after(actions, n).apply(switch(1049, false));
            &&& back.alt is None
            &&& back.screen.rows == g.screen.rows
            &&& (forall|i: int| 0 <= i < n ==> !saves_cursor(#[trigger] actions[i])) ==> {
                &&& back.screen == g.screen
                &&& back.pen == g.pen
            }
            &&& (forall|i: int| 0 <= i < n ==> !clears_history(#[trigger] actions[i]))
                ==> back.scrollback == g.scrollback
        }),
{
    let inside = g.apply(switch(1049, true));
    lemma_switch(g, 1049, true);
    lemma_way_back(inside, actions, n);
    lemma_switch(inside.after(actions, n), 1049, false);
}

/// Mode 1047 keeps no cursor of its own: leaving by it brings back the normal
/// screen with its cursor, whatever was saved meanwhile, and the pen stays as
/// the program left it.
pub proof fn law_plain_switch_brings_the_screen_back(g: GridModel, actions: Seq<VtAction>, n: int)
    requires
        g.alt is None,
        0 <= n <= actions.len(),
        forall|i: int| 0 <= i < n ==> !leaves_alternate(#[trigger] actions[i]),
    ensures
        ({
            let inside = g.apply(switch(1047, true)).after(actions, n);
            let back = inside.apply(switch(1047, false));
            &&& back.alt is None
            &&& back.screen == g.screen
            &&& back.pen == inside.pen
            &&& (forall|i: int| 0 <= i < n ==> !clears_history(#[trigger] actions[i]))
                ==> back.scrollback == g.scrollback
        }),
{
    let start = g.apply(switch(1047, true));
    lemma_switch(g, 1047, true);
    lemma_way_back(start, actions, n);
    lemma_switch(start.after(actions, n), 1047, false);
}

/// The alternate screen comes up blank, with the cursor in its corner.
pub proof fn law_alternate_screen_starts_blank(g: GridModel)
    requires
        g.alt is None,
    ensures
        g.mode_set(true, 1049, true).screen == ScreenModel::blank(g.cols, g.rows),
        g.mode_set(true, 1047, true).screen == ScreenModel::blank(g.cols, g.rows),
{
}

/// Restoring a cursor just saved moves nothing.
pub proof fn law_saved_cursor_comes_back(g: GridModel)
    requires
        g.wf(),
    ensures
        g.cursor_saved().cursor_restored() == g.cursor_saved().unwrapped(),
{
    assert(g.cursor_saved().cursor_restored() =~= g.cursor_saved().unwrapped());
}

/// A character in the last column does not wrap yet: the cursor stays where it
/// is, on the same line, and nothing has scrolled.
pub proof fn law_wrap_is_deferred(g: GridModel, c: char)
    requires
        g.wf(),
        g.autowrap,
        !g.wrap_pending,
        print_width(c) == 1,
        g.screen.cursor_col == g.cols - 1,
    ensures
        g.printed(c).wrap_pending,
        g.printed(c).screen.cursor_row == g.screen.cursor_row,
        g.printed(c).screen.cursor_col == g.cols - 1,
        g.printed(c).scrollback == g.scrollback,
        g.printed(c).screen.rows == g.screen.rows.update(
            g.screen.cursor_row,
            g.here().update(g.cols - 1, g.inked(c)),
        ),
{
}

/// The character after a deferred wrap lands in the first column of the next
/// line.
pub proof fn law_deferred_wrap_happens_next(g: GridModel, c: char)
    requires
        g.wf(),
        g.wrap_pending,
        print_width(c) == 1,
        g.cols >= 2,
    ensures
        g.printed(c) == g.next_line().placed(c, 1),
        g.printed(c).here()[0] == g.inked(c),
        g.printed(c).screen.cursor_col == 1,
{
    lemma_line_feed_wf(g);
}

/// The character that an action prints.
pub open spec fn printing(a: VtAction) -> char {
    match a {
        VtAction::Print(c) => c,
        _ => ' ',
    }
}

/// The cursor's line with what the first `n` actions print typed over it.
pub open spec fn typed(g: GridModel, actions: Seq<VtAction>, n: int) -> Seq<Cell> {
    let col = g.screen.cursor_col;
    Seq::new(
        g.cols as nat,
        |c: int|
            if col <= c < col + n {
                g.inked(printing(actions[c - col]))
            } else {
                g.here()[c]
            },
    )
}

proof fn lemma_narrow_print(g: GridModel, c: char)
    requires
        g.wf(),
        !g.wrap_pending,
        print_width(c) == 1,
        g.screen.cursor_col + 1 < g.cols,
    ensures
        g.printed(c) == g.with_row(g.here().update(g.screen.cursor_col, g.inked(c))).with_cursor(
            g.screen.cursor_row,
            g.screen.cursor_col + 1,
        ),
{
}

/// Text lands on the screen as it was sent: character by character from the
/// cursor on, in the current style, with nothing else changed, as long as it
/// stays clear of the right margin.
pub proof fn law_text_lands_as_it_was_sent(g: GridModel, actions: Seq<VtAction>, n: int)
    requires
        g.wf(),
        !g.wrap_pending,
        0 <= n <= actions.len(),
        g.screen.cursor_col + actions.len() < g.cols,
        forall|i: int|
            0 <= i < actions.len() ==> (#[trigger] actions[i]) is Print && print_width(
                printing(actions[i]),
            ) == 1,
    ensures
        g.after(actions, n) == g.with_row(typed(g, actions, n)).with_cursor(
            g.screen.cursor_row,
            g.screen.cursor_col + n,
        ),
    decreases n,
{
    let row = g.screen.cursor_row;
    let col = g.screen.cursor_col;
    let goal = g.with_row(typed(g, actions, n)).with_cursor(row, col + n);
    if n == 0 {
        assert(typed(g, actions, 0) =~= g.here());
        assert(goal.screen.rows =~= g.screen.rows);
        assert(goal =~= g);
    } else {
        let c = printing(actions[n - 1]);
        law_text_lands_as_it_was_sent(g, actions, n - 1);
        let short = typed(g, actions, n - 1);
        let before = g.with_row(short).with_cursor(row, col + n - 1);
        assert(g.after(actions, n) == before.printed(c));
        assert(before.here() == short);
        lemma_narrow_print(before, c);
        assert(short.update(col + n - 1, g.inked(c)) =~= typed(g, actions, n));
        assert(before.printed(c).screen.rows =~= goal.screen.rows);
        assert(before.printed(c) =~= goal);
    }
}

/// A wide character fills two cells, and the second is never painted.
pub proof fn law_wide_characters_fill_two_cells(g: GridModel, c: char)
    requires
        g.wf(),
        !g.wrap_pending,
        print_width(c) == 2,
        g.screen.cursor_col + 2 <= g.cols,
    ensures
        g.printed(c).here()[g.screen.cursor_col] == g.inked(c),
        g.printed(c).here()[g.screen.cursor_col + 1] == g.inked(WIDE_CONT),
        g.printed(c).screen.cursor_row == g.screen.cursor_row,
{
}

/// A character without width changes nothing.
pub proof fn law_marks_are_dropped(g: GridModel, c: char)
    requires
        print_width(c) == 0,
    ensures
        g.printed(c) == g,
{
}

/// The sequences whose count defaults to one.
pub open spec fn counts_from_one(action: char) -> bool {
    ||| action == 'A' || action == 'B' || action == 'C' || action == 'D'
    ||| action == 'E' || action == 'F' || action == 'G' || action == '`'
    ||| action == 'a' || action == 'd' || action == 'e'
    ||| action == 'L' || action == 'M' || action == 'P' || action == '@'
    ||| action == 'X' || action == 'S' || action == 'T'
}

/// `CSI A`, `CSI 0 A` and `CSI 1 A` mean the same.
pub proof fn law_missing_count_is_one(g: GridModel, intermediates: Seq<u8>, action: char)
    requires
        counts_from_one(action),
    ensures
        g.csi(Seq::empty(), intermediates, action) == g.csi(
            seq![seq![1u16]],
            intermediates,
            action,
        ),
        g.csi(seq![seq![0u16]], intermediates, action) == g.csi(
            seq![seq![1u16]],
            intermediates,
            action,
        ),
{
    assert(arg(Seq::empty(), 0, 1) == 1);
    assert(seq![seq![1u16]][0][0] == 1u16);
    assert(seq![seq![0u16]][0][0] == 0u16);
    assert(arg(seq![seq![1u16]], 0, 1) == 1);
    assert(arg(seq![seq![0u16]], 0, 1) == 1);
}

/// Addresses are counted from one: `CSI row ; col H` puts the cursor on the
/// cell that is `row - 1` down and `col - 1` across.
pub proof fn law_addresses_count_from_one(g: GridModel, row: u16, col: u16)
    requires
        g.wf(),
        !g.origin_mode,
        1 <= row <= g.rows,
        1 <= col <= g.cols,
    ensures
        g.csi(seq![seq![row], seq![col]], Seq::empty(), 'H').screen.cursor_row == row - 1,
        g.csi(seq![seq![row], seq![col]], Seq::empty(), 'H').screen.cursor_col == col - 1,
        g.csi(seq![seq![row], seq![col]], Seq::empty(), 'H').screen.rows == g.screen.rows,
{
    let params = seq![seq![row], seq![col]];
    assert(params[0][0] == row);
    assert(params[1][0] == col);
    assert(arg(params, 0, 1) == row);
    assert(arg(params, 1, 1) == col);
}

/// The two spellings of an indexed colour mean the same.
pub proof fn law_indexed_colour_spellings(pen: Cell, which: u16, n: u16)
    requires
        which == 38 || which == 48,
    ensures
        sgr(pen, seq![seq![which], seq![5u16], seq![n]]) == with_color(
            pen,
            which,
            Color::Indexed(n as u8),
        ),
        sgr(pen, seq![seq![which, 5u16, n]]) == with_color(pen, which, Color::Indexed(n as u8)),
{
    let apart = seq![seq![which], seq![5u16], seq![n]];
    let joined = seq![seq![which, 5u16, n]];
    reveal_with_fuel(firsts, 4);
    reveal_with_fuel(sgr_from, 3);
    assert(apart[0][0] == which && apart[1][0] == 5 && apart[2][0] == n);
    assert(firsts(apart, 1) =~= seq![5u16, n]);
    assert(joined[0].skip(1) =~= seq![5u16, n]);
    assert(joined[0][0] == which);
    assert(sgr_step(pen, apart, 0) == (with_color(pen, which, Color::Indexed(n as u8)), 3int));
    assert(sgr_step(pen, joined, 0) == (with_color(pen, which, Color::Indexed(n as u8)), 1int));
}

/// The two spellings of a true colour mean the same.
pub proof fn law_true_colour_spellings(pen: Cell, which: u16, r: u16, g: u16, b: u16)
    requires
        which == 38 || which == 48,
    ensures
        sgr(pen, seq![seq![which], seq![2u16], seq![r], seq![g], seq![b]]) == with_color(
            pen,
            which,
            Color::Rgb(r as u8, g as u8, b as u8),
        ),
        sgr(pen, seq![seq![which, 2u16, r, g, b]]) == with_color(
            pen,
            which,
            Color::Rgb(r as u8, g as u8, b as u8),
        ),
{
    let apart = seq![seq![which], seq![2u16], seq![r], seq![g], seq![b]];
    let joined = seq![seq![which, 2u16, r, g, b]];
    let color = Color::Rgb(r as u8, g as u8, b as u8);
    reveal_with_fuel(firsts, 6);
    reveal_with_fuel(sgr_from, 3);
    assert(apart[0][0] == which && apart[1][0] == 2 && apart[2][0] == r && apart[3][0] == g
        && apart[4][0] == b);
    assert(firsts(apart, 1) =~= seq![2u16, r, g, b]);
    assert(joined[0].skip(1) =~= seq![2u16, r, g, b]);
    assert(joined[0][0] == which);
    assert(sgr_step(pen, apart, 0) == (with_color(pen, which, color), 5int));
    assert(sgr_step(pen, joined, 0) == (with_color(pen, which, color), 1int));
}

/// With the whole screen as its region and room in the history, scrolling loses
/// nothing: history and screen together are what they were, with one blank line
/// more.
pub proof fn law_scrolling_loses_nothing(g: GridModel)
    requires
        g.wf(),
        g.alt is None,
        g.scroll_top == 0,
        g.scroll_bot == g.rows - 1,
        g.scrollback.len() < 2000,
    ensures
        g.scrolled_up(1).scrollback + g.scrolled_up(1).screen.rows == (g.scrollback
            + g.screen.rows).push(g.blank_line()),
{
    assert(g.evicted(1) =~= seq![g.screen.rows[0]]);
    assert(g.scrolled_up(1).scrollback + g.scrolled_up(1).screen.rows =~= (g.scrollback
        + g.screen.rows).push(g.blank_line()));
}

/// A full history gives up its oldest line for a new one.
pub proof fn law_history_drops_the_oldest(g: GridModel)
    requires
        g.wf(),
        g.alt is None,
        g.scroll_top == 0,
        g.scrollback.len() == 2000,
    ensures
        g.scrolled_up(1).scrollback == g.scrollback.skip(1).push(g.screen.rows[0]),
{
    assert(g.evicted(1) =~= seq![g.screen.rows[0]]);
    assert(g.scrolled_up(1).scrollback =~= g.scrollback.skip(1).push(g.screen.rows[0]));
}

/// A region below the top line scrolls without touching the history.
pub proof fn law_inner_regions_leave_no_history(g: GridModel, n: int)
    requires
        g.scroll_top > 0,
    ensures
        g.scrolled_up(n).scrollback == g.scrollback,
{
}

/// A screen made shorter keeps its most recent lines, and the history is left
/// alone.
pub proof fn law_resize_keeps_recent_output(g: GridModel, rows: int, i: int)
    requires
        g.wf(),
        1 <= rows <= g.rows,
        0 <= i < rows,
    ensures
        g.resized(g.cols, rows).screen.rows[i] == g.screen.rows[g.rows - rows + i],
        g.resized(g.cols, rows).scrollback == g.scrollback,
        g.resized(g.cols, rows).wf(),
{
    let s = g.screen.rows[g.rows - rows + i];
    assert(fitted(s, g.cols, super::plain_cell()) =~= s);
}

/// Changing the size keeps the invariant, and changing it to what it was
/// changes nothing.
pub proof fn law_resize_keeps_the_shape(g: GridModel, cols: int, rows: int)
    requires
        g.wf(),
        cols >= 1,
        rows >= 1,
    ensures
        g.resized(cols, rows).wf(),
        g.resized(cols, rows).cols == cols,
        g.resized(cols, rows).rows == rows,
        g.resized(g.cols, g.rows) == g,
        g.resized(cols, rows).resized(cols, rows) == g.resized(cols, rows),
{
}

/// Erasing paints the current background.
pub proof fn law_erasing_paints_the_background(g: GridModel, c: int)
    requires
        g.wf(),
        g.screen.cursor_col <= c < g.cols,
    ensures
        g.line_erased(0).here()[c] == (Cell {
            ch: ' ',
            fg: Color::Default,
            bg: g.pen.bg,
            attrs: 0,
        }),
        g.line_erased(0).wf(),
{
}

/// A title carries no white space at its ends.
pub proof fn law_titles_are_trimmed(g: GridModel, fields: Seq<Seq<u8>>)
    requires
        g.title == trim(g.title),
    ensures
        g.osc(fields).title == trim(g.osc(fields).title),
{
    if fields.len() >= 2 {
        lemma_trim_idempotent(crate::utf8::utf8_lossy(fields[1]));
    }
}

/// A cursor report tells the place counted from one, and every report asked for
/// is owed: answers are added behind those already owed.
pub proof fn law_reports_are_answered(g: GridModel)
    requires
        g.wf(),
    ensures
        g.csi(seq![seq![6u16]], Seq::empty(), 'n').reply == g.reply + cursor_report(
            g.screen.cursor_row + 1,
            g.screen.cursor_col + 1,
        ),
        g.csi(Seq::empty(), Seq::empty(), 'c').reply == g.reply + device_attributes(),
{
    assert(seq![seq![6u16]][0][0] == 6u16);
    assert(arg(seq![seq![6u16]], 0, 0) == 6);
}

} // verus!
