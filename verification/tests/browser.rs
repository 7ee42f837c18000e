use hmux::browser::{normalise_url, slot_label, urlencode, Loading, Moves, Place, Pool, POOL_SIZE};
use hmux::gui::{
    account_name, browser_claim, browser_layout, browser_missing, browser_navigate, browser_release, browser_url,
    create_terminal, history_script, log_path, may_drag, open_external, restore_terminal, slot_for_tab, ScreenPlan,
    Window,
};

fn at(x: i64) -> Place {
    Place { x, y: 0, width: 100, height: 50 }
}

#[test]
fn slots_are_handed_out_then_reused() {
    let mut pool = Pool::default();
    assert_eq!(pool.assign(1), Some(0));
    assert_eq!(pool.assign(2), Some(1));
    // Asking again is idempotent, not a second allocation.
    assert_eq!(pool.assign(1), Some(0));

    assert_eq!(pool.release(1), Some(0));
    assert_eq!(pool.slot_of(1), None);
    // The freed slot is the next one out.
    assert_eq!(pool.assign(3), Some(0));
}

#[test]
fn running_out_of_slots_is_reported_not_hidden() {
    let mut pool = Pool::default();
    for i in 0..POOL_SIZE {
        assert!(pool.assign(i as u32 + 1).is_some());
    }
    // A terminal past the pool gets no browser rather than stealing one.
    assert_eq!(pool.assign(999), None);
    assert_eq!(pool.slot_of(1), Some(0));
}

#[test]
fn labels_are_unique_per_slot() {
    assert_eq!(slot_label(0), "browser-0");
    assert_ne!(slot_label(0), slot_label(1));
}

#[test]
fn bare_hosts_get_https() {
    assert_eq!(
        normalise_url("example.com").as_deref(),
        Some("https://example.com")
    );
    assert_eq!(
        normalise_url("  news.ycombinator.com ").as_deref(),
        Some("https://news.ycombinator.com")
    );
}

#[test]
fn explicit_schemes_are_left_alone() {
    assert_eq!(
        normalise_url("http://a.test/x").as_deref(),
        Some("http://a.test/x")
    );
    assert_eq!(normalise_url("about:blank").as_deref(), Some("about:blank"));
}

#[test]
fn a_file_url_opens_rather_than_being_searched_for() {
    let url = "file:///C:/Users/me/Pictures/shot%202023.png";
    assert_eq!(normalise_url(url).as_deref(), Some(url));
}

#[test]
fn prose_becomes_a_search() {
    assert_eq!(
        normalise_url("rust conpty").as_deref(),
        Some("https://duckduckgo.com/?q=rust+conpty")
    );
    assert!(normalise_url("localhost")
        .unwrap()
        .starts_with("https://duckduckgo.com/?q="));
}

#[test]
fn an_empty_bar_does_nothing() {
    assert_eq!(normalise_url("   "), None);
    assert_eq!(normalise_url(""), None);
}

#[test]
fn the_new_tab_page_is_recognised_so_the_bar_can_stay_empty() {
    let mut pool = Pool::default();
    pool.set_home("http://tauri.localhost/newtab.html".into());
    assert!(pool.is_home("http://tauri.localhost/newtab.html"));
    assert!(!pool.is_home("https://example.com"));
    pool.set_home("app://start".into());
    assert_eq!(pool.home(), Some("app://start"));
    assert!(pool.is_home("app://start"));
    assert_eq!(browser_url(&pool, "app://start"), "");
    assert_eq!(browser_url(&pool, "https://example.com"), "https://example.com");
}

#[test]
fn queries_are_encoded() {
    assert_eq!(urlencode("aZ0-_.~"), "aZ0-_.~");
    assert_eq!(urlencode("a b/é?"), "a+b%2F%C3%A9%3F");
    assert_eq!(urlencode("\n\u{ff}"), "%0A%C3%BF");
}

#[test]
fn a_slot_knows_its_tab() {
    let mut pool = Pool::default();
    pool.assign(7);
    assert_eq!(pool.tab_of(0), Some(7));
    assert_eq!(pool.tab_of(1), None);
    assert_eq!(pool.tab_of(99), None);
    assert!(!pool.is_full());
    let note = Loading { tab: 7, loading: true };
    assert_eq!(note.tab, 7);
}

#[test]
fn a_layout_moves_no_more_than_two() {
    let mut pool = Pool::default();
    assert_eq!(pool.layout(Some(2), true, at(0)), Moves { park: None, place: Some(2) });
    assert_eq!(pool.layout(Some(2), true, at(0)), Moves { park: None, place: None });
    assert_eq!(pool.layout(Some(2), true, at(5)), Moves { park: None, place: Some(2) });
    assert_eq!(pool.layout(Some(3), true, at(5)), Moves { park: Some(2), place: Some(3) });
    pool.forget_placement();
    assert_eq!(pool.layout(Some(3), true, at(5)), Moves { park: None, place: Some(3) });
    // A panel without an area hides the browser.
    assert_eq!(pool.layout(Some(3), false, at(5)), Moves { park: Some(3), place: None });
    assert_eq!(pool.layout(None, true, at(5)), Moves { park: None, place: None });
}

#[test]
fn claiming_and_releasing_place_anew() {
    let mut pool = Pool::default();
    assert!(browser_claim(&mut pool, 1));
    assert_eq!(browser_layout(&mut pool, Some(1), true, at(0), false), (Moves { park: None, place: Some(0) }, true));
    assert_eq!(browser_layout(&mut pool, Some(1), true, at(0), false), (Moves { park: None, place: None }, true));
    assert_eq!(browser_layout(&mut pool, Some(1), true, at(0), true), (Moves { park: None, place: Some(0) }, true));
    assert_eq!(browser_release(&mut pool, 1), Some(0));
    assert_eq!(browser_release(&mut pool, 1), None);
    assert!(browser_claim(&mut pool, 2));
    assert_eq!(browser_layout(&mut pool, Some(2), true, at(0), false).0.place, Some(0));
    assert_eq!(browser_layout(&mut pool, Some(9), true, at(0), false), (Moves { park: Some(0), place: None }, false));
}

#[test]
fn a_tab_without_a_browser_is_told_why() {
    let mut pool = Pool::default();
    assert_eq!(slot_for_tab(&pool, 4), Err("tab 4 has not been given a browser".to_string()));
    assert_eq!(browser_navigate(&pool, 4, "  "), Ok(None));
    assert_eq!(browser_navigate(&pool, 4, "a.b"), Err("tab 4 has not been given a browser".to_string()));
    for i in 0..POOL_SIZE {
        pool.assign(i as u32);
    }
    assert!(pool.is_full());
    assert_eq!(slot_for_tab(&pool, 99), Err("no browser left for this tab: all 12 are open".to_string()));
    assert_eq!(browser_navigate(&pool, 3, "a.b"), Ok(Some((3, "https://a.b".to_string()))));
    assert_eq!(browser_missing(3), "browser 3 is missing");
    assert!(!browser_claim(&mut pool, 99));
}

#[test]
fn only_the_web_opens_outside() {
    assert!(open_external("https://example.com").is_ok());
    assert!(open_external("http://example.com").is_ok());
    for url in ["file:///c:/x", "HTTPS://x", "ms-settings:", ""] {
        assert_eq!(
            open_external(url),
            Err("only http and https links open outside the app".to_string())
        );
    }
}

#[test]
fn the_foot_of_the_menu_names_the_account() {
    assert_eq!(account_name(Some("jane".to_string())), "jane");
    assert_eq!(account_name(Some("  ".to_string())), "this machine");
    assert_eq!(account_name(None), "this machine");
}

#[test]
fn history_buttons_have_their_scripts() {
    assert_eq!(history_script("back"), Ok("history.back()"));
    assert_eq!(history_script("forward"), Ok("history.forward()"));
    assert_eq!(history_script("reload"), Ok("location.reload()"));
    assert_eq!(history_script("up"), Err("unknown history action: up".to_string()));
}

#[test]
fn full_screen_is_undone() {
    let mut w = Window::new();
    assert_eq!(
        w.toggle_fullscreen(false, true),
        ScreenPlan { unmaximize: true, fullscreen: true, maximize: false }
    );
    assert_eq!(
        w.toggle_fullscreen(true, false),
        ScreenPlan { unmaximize: false, fullscreen: false, maximize: true }
    );
    assert!(!w.was_maximized);
    assert!(may_drag(false));
    assert!(!may_drag(true));
}

#[test]
fn a_saved_terminal_comes_back_as_it_was() {
    let r = restore_terminal(Some("pwsh.exe".to_string()), Some("C:\\w".to_string()), "out", "cmd.exe");
    assert_eq!((r.shell.as_str(), r.cwd.as_deref()), ("pwsh.exe", Some("C:\\w")));
    assert!(r.replay.starts_with("out") && r.replay.contains("· C:\\w"));
    let r = restore_terminal(Some(String::new()), Some(String::new()), "", "cmd.exe");
    assert_eq!((r.shell.as_str(), r.cwd, r.replay.as_str()), ("cmd.exe", None, ""));
    assert_eq!(restore_terminal(None, None, "x", "d").shell, "d");
}

#[test]
fn a_new_terminal_starts_where_it_was_asked_to() {
    let r = create_terminal(Some("s".to_string()), Some(r"C:\a".to_string()), "d");
    assert_eq!((r.shell.as_str(), r.cwd.as_deref(), r.replay.as_str()), ("s", Some(r"C:\a"), ""));
    let r = create_terminal(None, Some(String::new()), "d");
    assert_eq!((r.shell.as_str(), r.cwd, r.replay.as_str()), ("d", None, ""));
    let r = create_terminal(Some(String::new()), None, "d");
    assert_eq!((r.shell.as_str(), r.cwd), ("", None));
}

#[test]
fn problems_are_written_to_the_temporary_folder() {
    assert_eq!(log_path(r"C:\Users\jane\AppData\Local\Temp"), r"C:\Users\jane\AppData\Local\Temp\mux.log");
    assert_eq!(log_path(r"C:\Temp\"), r"C:\Temp\mux.log");
}
