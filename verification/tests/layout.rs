use hmux::layout::{compute, Rect, SIDEBAR_MAX, SIDEBAR_MIN};

#[test]
fn content_and_sidebar_tile_without_overlap() {
    let l = compute(100, 30, 20);
    assert_eq!(l.sidebar.w, 20);
    assert_eq!(l.divider_x, 20);
    assert_eq!(l.content.x, 21);
    assert_eq!(l.content.x + l.content.w, 100);
    assert_eq!(l.status.y, 29);
    assert_eq!(l.sidebar.h, 29);
}

#[test]
fn sidebar_never_eats_more_than_half_the_screen() {
    let l = compute(40, 20, SIDEBAR_MAX);
    assert!(l.sidebar.w <= 20);
    assert!(l.content.w >= 1);
}

#[test]
fn clicks_map_to_buttons() {
    let l = compute(100, 30, 20);
    assert_eq!(l.button_at(5, 0, 3), None); // heading row
    assert_eq!(l.button_at(5, 1, 3), Some(0));
    assert_eq!(l.button_at(5, 3, 3), Some(2));
    assert_eq!(l.button_at(5, 4, 3), None); // past the last button
    assert_eq!(l.button_at(50, 1, 3), None); // in the terminal, not the rail
}

#[test]
fn new_button_is_on_the_last_rail_row() {
    let l = compute(100, 30, 20);
    assert!(l.is_new_button(3, 28));
    assert!(!l.is_new_button(3, 27));
}

#[test]
fn a_tiny_screen_is_laid_out_as_the_smallest() {
    let l = compute(1, 1, 0);
    assert_eq!(l, compute(20, 3, SIDEBAR_MIN));
    assert_eq!(l.sidebar, Rect { x: 0, y: 0, w: 10, h: 2 });
    assert_eq!(l.content, Rect { x: 11, y: 0, w: 9, h: 2 });
    assert_eq!(l.status, Rect { x: 0, y: 2, w: 20, h: 1 });
    assert_eq!(l.max_buttons(), 0);
}

#[test]
fn every_cell_belongs_to_one_part() {
    let l = compute(50, 12, 15);
    for y in 0..12 {
        for x in 0..50 {
            let parts = [
                l.sidebar.contains(x, y),
                x == l.divider_x && y < 11,
                l.content.contains(x, y),
                l.status.contains(x, y),
            ];
            assert_eq!(parts.iter().filter(|p| **p).count(), 1, "{x},{y}");
        }
    }
}

#[test]
fn buttons_and_rows_agree() {
    let l = compute(80, 10, 20);
    assert_eq!(l.max_buttons(), 7);
    for i in 0..l.max_buttons() {
        assert_eq!(l.button_at(0, l.button_row(i), l.max_buttons()), Some(i));
        assert!(l.button_row(i) < l.new_button_row());
    }
    assert_eq!(compute(65535, 65535, 40).status.w, 65535);
}
