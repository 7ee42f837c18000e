//! What the window decides: links, history, pages, full screen, and what to
//! start.
use crate::browser::{destination, normalise_url, Moves, Place, Pool, PoolModel, TabId, POOL_SIZE};
use crate::daemon::given;
use crate::persist::{replay_of, replay_text};
use crate::proto::opt_text;
use crate::text::{
    begins_with, copy_text, decimal, push_decimal, same_text, text_begins_with, to_chars, trim, trimmed,
};
use crate::windows_path::{join, joined};
use vstd::prelude::*;

verus! {

// ---- links and names ------------------------------------------------------------

/// Only the web opens outside the app: the string goes to the system's protocol
/// handlers, and some of those run things.
pub fn open_external(url: &str) -> (res: Result<(), String>)
    ensures
        res is Ok <==> begins_with(url@, "https://"@) || begins_with(url@, "http://"@),
        res matches Err(why) ==> why@ == "only http and https links open outside the app"@,
{
    if text_begins_with(url, "https://") || text_begins_with(url, "http://") {
        Ok(())
    } else {
        Err(copy_text("only http and https links open outside the app"))
    }
}

/// Who is running this, for the foot of the menu.
pub fn account_name(user: Option<String>) -> (out: String)
    ensures
        out@ == (match opt_text(user) {
            Some(u) => if trim(u).len() > 0 {
                u
            } else {
                "this machine"@
            },
            None => "this machine"@,
        }),
{
    match user {
        Some(u) => if to_chars(trimmed(u.as_str()).as_str()).len() > 0 {
            u
        } else {
            copy_text("this machine")
        },
        None => copy_text("this machine"),
    }
}

/// The script behind a history button, if there is such a button.
pub open spec fn script_for(action: Seq<char>) -> Option<Seq<char>> {
    if action == "back"@ {
        Some("history.back()"@)
    } else if action == "forward"@ {
        Some("history.forward()"@)
    } else if action == "reload"@ {
        Some("location.reload()"@)
    } else {
        None
    }
}

/// The script behind a history button.
pub fn history_script(action: &str) -> (res: Result<&'static str, String>)
    ensures
        res is Ok <==> script_for(action@) is Some,
        res matches Ok(s) ==> script_for(action@) == Some(s@),
        res matches Err(why) ==> why@ == "unknown history action: "@ + action@,
{
    if same_text(action, "back") {
        Ok("history.back()")
    } else if same_text(action, "forward") {
        Ok("history.forward()")
    } else if same_text(action, "reload") {
        Ok("location.reload()")
    } else {
        let mut why = copy_text("unknown history action: ");
        why.push_str(action);
        Err(why)
    }
}

// ---- the window -----------------------------------------------------------------

/// What to do to the window for full screen, in this order.
#[derive(Clone, Copy, PartialEq, Eq, Debug, Structural)]
pub struct ScreenPlan {
    /// Leave the maximised state first: full screen from there does not work.
    pub unmaximize: bool,
    pub fullscreen: bool,
    /// Go back to the maximised state afterwards.
    pub maximize: bool,
}

/// What to do to a window that is full screen or not, maximised or not, and was
/// maximised before it went full screen or not.
pub open spec fn screen_plan(was_maximized: bool, full: bool, maximized: bool) -> ScreenPlan {
    if full {
        ScreenPlan { unmaximize: false, fullscreen: false, maximize: was_maximized }
    } else {
        ScreenPlan { unmaximize: maximized, fullscreen: true, maximize: false }
    }
}

/// Whether the window is maximised once that is done.
pub open spec fn maximized_after(plan: ScreenPlan, maximized: bool) -> bool {
    if plan.maximize {
        true
    } else if plan.unmaximize {
        false
    } else {
        maximized
    }
}

/// Whether the window was maximised before it went full screen.
pub struct Window {
    pub was_maximized: bool,
}

impl Window {
    pub fn new() -> (w: Self)
        ensures
            !w.was_maximized,
    {
        Window { was_maximized: false }
    }

    /// In and out of full screen, back to the state that it was entered from.
    pub fn toggle_fullscreen(&mut self, full: bool, maximized: bool) -> (plan: ScreenPlan)
        ensures
            plan == screen_plan(old(self).was_maximized, full, maximized),
            final(self).was_maximized == (!full && maximized),
    {
        if full {
            let maximize = self.was_maximized;
            self.was_maximized = false;
            ScreenPlan { unmaximize: false, fullscreen: false, maximize }
        } else {
            self.was_maximized = maximized;
            ScreenPlan { unmaximize: maximized, fullscreen: true, maximize: false }
        }
    }
}

/// Whether a drag moves the window: one that fills the screen does not move.
pub fn may_drag(full: bool) -> (yes: bool)
    ensures
        yes == !full,
{
    !full
}

/// Going full screen and back ends in the state it began in.
pub proof fn law_full_screen_is_undone(was_maximized: bool, maximized: bool)
    ensures
        ({
            let there = screen_plan(was_maximized, false, maximized);
            let meanwhile = maximized_after(there, maximized);
            let back = screen_plan(maximized, true, meanwhile);
            &&& there.fullscreen
            &&& !meanwhile
            &&& !back.fullscreen
            &&& maximized_after(back, meanwhile) == maximized
        }),
{
}

// ---- pages ----------------------------------------------------------------------

/// What is said of a tab without a browser.
pub open spec fn no_browser(p: PoolModel, tab: TabId) -> Seq<char> {
    if p.free_from(0) is None {
        "no browser left for this tab: all "@ + decimal(POOL_SIZE as nat) + " are open"@
    } else {
        "tab "@ + decimal(tab as nat) + " has not been given a browser"@
    }
}

/// The slot of a tab, or why it has none.
pub fn slot_for_tab(pool: &Pool, tab: TabId) -> (res: Result<usize, String>)
    ensures
        res is Ok <==> pool@.slot_from(tab, 0) is Some,
        res matches Ok(slot) ==> pool@.slot_from(tab, 0) == Some(slot as int),
        res matches Err(why) ==> why@ == no_browser(pool@, tab),
{
    match pool.slot_of(tab) {
        Some(slot) => Ok(slot),
        None => {
            if pool.is_full() {
                let mut why = copy_text("no browser left for this tab: all ");
                push_decimal(&mut why, POOL_SIZE as u64);
                why.push_str(" are open");
                Err(why)
            } else {
                let mut why = copy_text("tab ");
                push_decimal(&mut why, tab as u64);
                why.push_str(" has not been given a browser");
                Err(why)
            }
        },
    }
}

/// What is said of a browser that is not there.
pub fn browser_missing(slot: usize) -> (why: String)
    ensures
        why@ == "browser "@ + decimal(slot as nat) + " is missing"@,
{
    let mut why = copy_text("browser ");
    push_decimal(&mut why, slot as u64);
    why.push_str(" is missing");
    why
}

/// The slot of the active tab, if it has one.
pub open spec fn active_slot(p: PoolModel, active: Option<TabId>) -> Option<int> {
    match active {
        Some(tab) => p.slot_from(tab, 0),
        None => None,
    }
}

/// Show the active tab's browser, and say what has to be moved and whether there
/// is one at all. `force` is for when what is looked at has changed: being
/// right then matters more than being cheap.
pub fn browser_layout(pool: &mut Pool, active: Option<TabId>, visible: bool, at: Place, force: bool) -> (res:
    (Moves, bool))
    requires
        old(pool)@.wf(),
    ensures
        final(pool)@.wf(),
        ({
            let start = if force {
                PoolModel { placed_at: None, ..old(pool)@ }
            } else {
                old(pool)@
            };
            let slot = match active_slot(old(pool)@, active) {
                Some(i) => Some(i as usize),
                None => None,
            };
            &&& final(pool)@ == start.laid_out(slot, visible, at)
            &&& res.0 == start.moves(slot, visible, at)
            &&& res.1 == (slot is Some)
        }),
{
    if force {
        pool.forget_placement();
    }
    let slot = match active {
        Some(tab) => pool.slot_of(tab),
        None => None,
    };
    proof {
        let start = if force {
            PoolModel { placed_at: None, ..old(pool)@ }
        } else {
            old(pool)@
        };
        if let Some(tab) = active {
            lemma_same_slots(old(pool)@, start, tab, 0);
        }
    }
    let moves = pool.layout(slot, visible, at);
    (moves, slot.is_some())
}

proof fn lemma_same_slots(p: PoolModel, q: PoolModel, tab: TabId, i: int)
    requires
        p.slots == q.slots,
        i >= 0,
    ensures
        p.slot_from(tab, i) == q.slot_from(tab, i),
    decreases p.slots.len() - i,
{
    if i < p.slots.len() {
        lemma_same_slots(p, q, tab, i + 1);
    }
}

/// Claim a browser for a tab. The next layout then puts it in place, even at the
/// spot where the last tab's was.
pub fn browser_claim(pool: &mut Pool, tab: TabId) -> (got: bool)
    requires
        old(pool)@.wf(),
    ensures
        final(pool)@.wf(),
        got == (old(pool)@.slot_for(tab) is Some),
        final(pool)@ == (PoolModel { placed_at: None, ..old(pool)@.assigned(tab) }),
{
    let got = pool.assign(tab).is_some();
    pool.forget_placement();
    got
}

/// Hand a tab's browser back. What comes back is the slot that is to be sent
/// home, so that the next tab does not open on the last one's page.
pub fn browser_release(pool: &mut Pool, tab: TabId) -> (slot: Option<usize>)
    requires
        old(pool)@.wf(),
    ensures
        final(pool)@.wf(),
        slot is Some <==> old(pool)@.slot_from(tab, 0) is Some,
        slot matches Some(i) ==> old(pool)@.slot_from(tab, 0) == Some(i as int),
        final(pool)@ == (PoolModel { placed_at: None, ..old(pool)@ }).released(tab),
{
    proof {
        lemma_same_slots(
            pool@,
            PoolModel { placed_at: None, ..pool@ },
            tab,
            0,
        );
    }
    pool.forget_placement();
    pool.release(tab)
}

/// The address to show in the bar: nothing for the new-tab page, whose real
/// address is of no use to anybody.
pub fn browser_url(pool: &Pool, url: &str) -> (out: String)
    ensures
        out@ == (if pool@.at_home(url@) {
            ""@
        } else {
            url@
        }),
{
    if pool.is_home(url) {
        copy_text("")
    } else {
        copy_text(url)
    }
}

/// Where the bar leads for a tab: nowhere for an empty bar, else to a slot and
/// an address, or why that cannot be.
pub fn browser_navigate(pool: &Pool, tab: TabId, url: &str) -> (res: Result<
    Option<(usize, String)>,
    String,
>)
    ensures
        destination(url@) is None <==> res == Ok::<Option<(usize, String)>, String>(None),
        destination(url@) matches Some(full) ==> match pool@.slot_from(tab, 0) {
            Some(i) => res matches Ok(Some((slot, s))) && slot == i && s@ == full,
            None => res matches Err(why) && why@ == no_browser(pool@, tab),
        },
{
    match normalise_url(url) {
        None => Ok(None),
        Some(full) => match slot_for_tab(pool, tab) {
            Ok(slot) => Ok(Some((slot, full))),
            Err(why) => Err(why),
        },
    }
}

// ---- terminals ------------------------------------------------------------------

/// What is needed to start a terminal.
pub struct Revival {
    pub shell: String,
    pub cwd: Option<String>,
    pub replay: String,
}

/// Start a terminal from a saved one: the same shell in the same directory, with
/// the old output above a rule. Empty texts count as missing.
pub fn restore_terminal(
    shell: Option<String>,
    cwd: Option<String>,
    scrollback: &str,
    default_shell: &str,
) -> (r: Revival)
    ensures
        r.shell@ == (match given(opt_text(shell)) {
            Some(s) => s,
            None => default_shell@,
        }),
        opt_text(r.cwd) == given(opt_text(cwd)),
        r.replay@ == replay_of(scrollback@, given(opt_text(cwd))),
{
    let shell = match shell {
        Some(s) => if to_chars(s.as_str()).len() > 0 {
            s
        } else {
            copy_text(default_shell)
        },
        None => copy_text(default_shell),
    };
    match cwd {
        Some(dir) => {
            if to_chars(dir.as_str()).len() > 0 {
                let replay = replay_text(scrollback, Some(dir.as_str()));
                Revival { shell, cwd: Some(dir), replay }
            } else {
                Revival { shell, cwd: None, replay: replay_text(scrollback, None) }
            }
        },
        None => Revival { shell, cwd: None, replay: replay_text(scrollback, None) },
    }
}

/// Start a new terminal, in the directory that was asked for or else in the
/// shell's own. Whether there is such a directory is not looked at here.
pub fn create_terminal(shell: Option<String>, cwd: Option<String>, default_shell: &str) -> (r: Revival)
    ensures
        r.shell@ == (match opt_text(shell) {
            Some(s) => s,
            None => default_shell@,
        }),
        opt_text(r.cwd) == given(opt_text(cwd)),
        r.replay@ == ""@,
{
    let shell = match shell {
        Some(s) => s,
        None => copy_text(default_shell),
    };
    let cwd = match cwd {
        Some(dir) => if to_chars(dir.as_str()).len() > 0 {
            Some(dir)
        } else {
            None
        },
        None => None,
    };
    Revival { shell, cwd, replay: copy_text("") }
}

// ---- problems -------------------------------------------------------------------

/// Where problems are written down: a window has no console to print them on.
pub fn log_path(temp: &str) -> (out: String)
    ensures
        out@ == joined(temp@, "mux.log"@),
{
    join(temp, "mux.log")
}

// ---- laws -----------------------------------------------------------------------

/// The three buttons of the history have three scripts, and no other word has one.
pub proof fn law_history_buttons_differ(action: Seq<char>)
    ensures
        script_for("back"@) == Some("history.back()"@),
        script_for("forward"@) == Some("history.forward()"@),
        script_for("reload"@) == Some("location.reload()"@),
        script_for(action) is Some <==> action == "back"@ || action == "forward"@ || action
            == "reload"@,
{
    reveal_strlit("back");
    reveal_strlit("forward");
    reveal_strlit("reload");
    assert("back"@.len() == 4 && "forward"@.len() == 7 && "reload"@.len() == 6);
}

/// Full screen is left for the state it was entered from, and entered from the
/// maximised state only after leaving that.
pub proof fn law_full_screen_minds_the_maximised_state(was: bool, maximized: bool)
    ensures
        screen_plan(was, false, maximized) == (ScreenPlan {
            unmaximize: maximized,
            fullscreen: true,
            maximize: false,
        }),
        screen_plan(was, true, maximized) == (ScreenPlan {
            unmaximize: false,
            fullscreen: false,
            maximize: was,
        }),
{
}

/// The browser of the active tab is the slot that is its own.
pub proof fn law_the_active_tab_has_its_own_slot(p: PoolModel, tab: TabId, k: int)
    requires
        p.wf(),
        0 <= k < p.slots.len(),
    ensures
        p.slots[k] == Some(tab) ==> active_slot(p, Some(tab)) == Some(k),
        active_slot(p, Some(tab)) matches Some(j) ==> 0 <= j < p.slots.len() && p.slots[j] == Some(
            tab,
        ),
        active_slot(p, None) is None,
{
    crate::browser::law_slots_are_found(p, tab, 0);
    crate::browser::law_tabs_get_the_first_free_browser(p, tab, k);
}

/// A tab without a browser is told why: that all of them are taken where they
/// are, and which tab it is about where one is still free.
pub proof fn law_a_missing_browser_is_explained(p: PoolModel, tab: TabId)
    ensures
        begins_with(no_browser(p, tab), "no browser left"@) <==> p.free_from(0) is None,
        p.free_from(0) is Some ==> begins_with(
            no_browser(p, tab),
            "tab "@ + decimal(tab as nat) + " "@,
        ),
{
    reveal_strlit("no browser left for this tab: all ");
    reveal_strlit("no browser left");
    reveal_strlit("tab ");
    reveal_strlit(" ");
    reveal_strlit(" has not been given a browser");
    let t = no_browser(p, tab);
    let a = "no browser left"@;
    if p.free_from(0) is None {
        assert(t.take(a.len() as int) =~= a);
    } else {
        assert(t[0] == 't' && a[0] == 'n');
        if t.len() >= a.len() {
            assert(t.take(a.len() as int)[0] == 't');
        }
        let b = "tab "@ + decimal(tab as nat) + " "@;
        assert(t.take(b.len() as int) =~= b);
    }
}

} // verus!
