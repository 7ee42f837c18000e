use hmux::grid::{Cell, Color, Grid, A_BOLD, A_DIM, A_ITALIC, A_REVERSE, A_STRIKE, A_UNDERLINE, WIDE_CONT};
use hmux::vt::VtEvent;
use vte::Parser;

fn feed(g: &mut Grid, s: &str) {
    let mut p: Parser = Parser::new();
    assert!(g.feed(&mut p, s.as_bytes()));
}

fn line(g: &Grid, r: usize) -> String {
    g.row(r).iter().map(|c| c.ch).collect::<String>().trim_end().to_string()
}

#[test]
fn prints_and_wraps_at_the_right_moment() {
    let mut g = Grid::new(5, 3);
    feed(&mut g, "abcde");
    // Deferred wrap: the grid is full but we have NOT moved to row 1 yet.
    assert_eq!(line(&g, 0), "abcde");
    assert_eq!(g.cursor(), (0, 4));
    feed(&mut g, "f");
    assert_eq!(line(&g, 1), "f");
}

#[test]
fn cursor_addressing_is_one_based() {
    let mut g = Grid::new(10, 5);
    feed(&mut g, "\x1b[3;4Hx");
    assert_eq!(g.row(2)[3].ch, 'x');
}

#[test]
fn erase_in_line_paints_current_background() {
    let mut g = Grid::new(6, 2);
    feed(&mut g, "abcdef\x1b[1;3H\x1b[41m\x1b[K");
    assert_eq!(line(&g, 0), "ab");
    assert_eq!(g.row(0)[4].bg, Color::Indexed(1));
}

#[test]
fn scrolling_pushes_lines_into_scrollback() {
    let mut g = Grid::new(6, 2);
    feed(&mut g, "one\r\ntwo\r\nthree");
    assert_eq!(line(&g, 0), "two");
    assert_eq!(line(&g, 1), "three");
    assert_eq!(g.scrollback.len(), 1);
    let evicted: String = g.scrollback[0].iter().map(|c| c.ch).collect();
    assert_eq!(evicted.trim_end(), "one");
}

#[test]
fn a_wrapped_line_costs_a_second_scroll() {
    let mut g = Grid::new(4, 2);
    feed(&mut g, "one\r\ntwo\r\nthree");
    assert_eq!(line(&g, 0), "thre");
    assert_eq!(line(&g, 1), "e");
    assert_eq!(g.scrollback.len(), 2);
}

#[test]
fn alt_screen_output_never_reaches_scrollback() {
    let mut g = Grid::new(6, 2);
    feed(&mut g, "\x1b[?1049h");
    feed(&mut g, "a\r\nb\r\nc\r\nd");
    assert!(g.scrollback.is_empty());
}

#[test]
fn sgr_truecolor_both_spellings() {
    let mut g = Grid::new(4, 1);
    feed(&mut g, "\x1b[38;2;10;20;30ma");
    assert_eq!(g.row(0)[0].fg, Color::Rgb(10, 20, 30));
    feed(&mut g, "\x1b[38:5:200mb");
    assert_eq!(g.row(0)[1].fg, Color::Indexed(200));
}

#[test]
fn cursor_position_report_is_answered() {
    let mut g = Grid::new(10, 10);
    feed(&mut g, "\x1b[2;5H\x1b[6n");
    assert_eq!(g.take_reply(), b"\x1b[2;5R");
}

#[test]
fn alt_screen_round_trips() {
    let mut g = Grid::new(6, 2);
    feed(&mut g, "normal\x1b[?1049h");
    assert_eq!(line(&g, 0), "");
    feed(&mut g, "\x1b[?1049l");
    assert_eq!(line(&g, 0), "normal");
}

#[test]
fn delete_and_insert_chars_keep_row_width() {
    let mut g = Grid::new(6, 1);
    feed(&mut g, "abcdef\x1b[1;2H\x1b[2P");
    assert_eq!(line(&g, 0), "adef");
    assert_eq!(g.row(0).len(), 6);
    feed(&mut g, "\x1b[2@");
    assert_eq!(g.row(0).len(), 6);
}

#[test]
fn resize_keeps_recent_output() {
    let mut g = Grid::new(10, 4);
    feed(&mut g, "a\r\nb\r\nc\r\nd");
    g.resize(10, 2);
    assert_eq!(line(&g, 0), "c");
    assert_eq!(line(&g, 1), "d");
}

#[test]
fn a_size_of_zero_is_one() {
    let g = Grid::new(0, 0);
    assert_eq!(g.size(), (1, 1));
    assert_eq!(g.row(0).len(), 1);
    let mut g = Grid::new(8, 3);
    g.resize(0, 0);
    assert_eq!((g.cols, g.rows), (1, 1));
}

#[test]
fn a_wide_character_fills_two_cells() {
    let mut g = Grid::new(6, 2);
    feed(&mut g, "日x");
    assert_eq!(g.row(0)[0].ch, '日');
    assert_eq!(g.row(0)[1].ch, WIDE_CONT);
    assert_eq!(g.row(0)[2].ch, 'x');
    assert_eq!(g.cursor(), (0, 3));
}

#[test]
fn a_wide_character_that_does_not_fit_wraps() {
    let mut g = Grid::new(3, 2);
    feed(&mut g, "ab日");
    assert_eq!(line(&g, 0), "ab");
    assert_eq!(g.row(1)[0].ch, '日');
}

#[test]
fn a_wide_character_without_wrapping_is_pulled_back() {
    let mut g = Grid::new(4, 2);
    feed(&mut g, "\x1b[?7labcd日");
    assert_eq!(g.row(0)[1].ch, 'b');
    assert_eq!(g.row(0)[2].ch, '日');
    assert_eq!(g.row(0)[3].ch, WIDE_CONT);
    assert_eq!(g.cursor(), (0, 3));
}

#[test]
fn a_character_wider_than_the_screen_is_refused_with_wrapping_off() {
    let mut g = Grid::new(1, 2);
    let mut p: Parser = Parser::new();
    assert!(g.feed(&mut p, "\x1b[?7lx".as_bytes()));
    assert!(!g.feed(&mut p, "日".as_bytes()));
    assert_eq!(g.row(0)[0].ch, 'x');
    // With wrapping on it is put down, cut off.
    let mut g = Grid::new(1, 2);
    feed(&mut g, "日");
    assert_eq!(g.row(1)[0].ch, '日');
}

#[test]
fn combining_marks_are_dropped() {
    let mut g = Grid::new(5, 1);
    feed(&mut g, "e\u{301}x");
    assert_eq!(line(&g, 0), "ex");
}

#[test]
fn tabs_stop_in_every_eighth_column() {
    let mut g = Grid::new(20, 1);
    feed(&mut g, "\tx");
    assert_eq!(g.row(0)[8].ch, 'x');
    feed(&mut g, "\t\t\t");
    assert_eq!(g.cursor(), (0, 19));
    // A stop of one's own, then none at all.
    let mut g = Grid::new(20, 1);
    feed(&mut g, "\x1b[1;4H\x1bH\r\tx");
    assert_eq!(g.row(0)[3].ch, 'x');
    feed(&mut g, "\x1b[3g\r\t");
    assert_eq!(g.cursor(), (0, 19));
    // Clearing the one under the cursor.
    let mut g = Grid::new(20, 1);
    feed(&mut g, "\x1b[1;9H\x1b[g\r\t");
    assert_eq!(g.cursor(), (0, 16));
}

#[test]
fn backspace_moves_and_does_not_erase() {
    let mut g = Grid::new(5, 1);
    feed(&mut g, "ab\x08");
    assert_eq!(g.cursor(), (0, 1));
    assert_eq!(line(&g, 0), "ab");
    feed(&mut g, "\x08\x08\x08");
    assert_eq!(g.cursor(), (0, 0));
}

#[test]
fn cursor_movement_stops_at_the_edges() {
    let mut g = Grid::new(5, 4);
    feed(&mut g, "\x1b[3;3H\x1b[A");
    assert_eq!(g.cursor(), (1, 2));
    feed(&mut g, "\x1b[9A\x1b[9D");
    assert_eq!(g.cursor(), (0, 0));
    feed(&mut g, "\x1b[2B\x1b[3C");
    assert_eq!(g.cursor(), (2, 3));
    feed(&mut g, "\x1b[65535e\x1b[65535a");
    assert_eq!(g.cursor(), (3, 4));
    feed(&mut g, "\x1b[2F");
    assert_eq!(g.cursor(), (1, 0));
    feed(&mut g, "\x1b[3G\x1b[E");
    assert_eq!(g.cursor(), (2, 0));
    feed(&mut g, "\x1b[4`\x1b[2d");
    assert_eq!(g.cursor(), (1, 3));
    // No count, zero and one are the same.
    feed(&mut g, "\x1b[0A");
    assert_eq!(g.cursor(), (0, 3));
}

#[test]
fn display_erasing_has_four_modes() {
    let fill = "abcd\r\nefgh\r\nijkl";
    let mut g = Grid::new(4, 3);
    feed(&mut g, fill);
    feed(&mut g, "\x1b[2;3H\x1b[J");
    assert_eq!((line(&g, 0), line(&g, 1), line(&g, 2)), ("abcd".into(), "ef".into(), "".into()));

    let mut g = Grid::new(4, 3);
    feed(&mut g, fill);
    feed(&mut g, "\x1b[2;3H\x1b[1J");
    assert_eq!((line(&g, 0), line(&g, 1), line(&g, 2)), ("".into(), "   h".into(), "ijkl".into()));

    let mut g = Grid::new(4, 3);
    feed(&mut g, fill);
    feed(&mut g, "\r\nmore");
    assert_eq!(g.history(), 1);
    feed(&mut g, "\x1b[2J");
    assert_eq!(line(&g, 0), "");
    assert_eq!(g.history(), 1);
    feed(&mut g, "\x1b[3J");
    assert_eq!(g.history(), 0);
    feed(&mut g, "\x1b[1;1Hx\x1b[7J");
    assert_eq!(line(&g, 0), "x");
}

#[test]
fn line_erasing_has_three_modes() {
    let mut g = Grid::new(5, 1);
    feed(&mut g, "abcde\x1b[1;3H\x1b[1K");
    assert_eq!(line(&g, 0), "   de");
    feed(&mut g, "\x1b[2K");
    assert_eq!(line(&g, 0), "");
    let mut g = Grid::new(5, 1);
    feed(&mut g, "abcde\x1b[1;2H\x1b[2X");
    assert_eq!(line(&g, 0), "a  de");
    feed(&mut g, "\x1b[99X");
    assert_eq!(line(&g, 0), "a");
}

#[test]
fn lines_are_inserted_and_deleted_within_the_region() {
    let mut g = Grid::new(2, 4);
    feed(&mut g, "a\r\nb\r\nc\r\nd\x1b[2;3r\x1b[2;1H\x1b[L");
    let lines: Vec<String> = (0..4).map(|r| line(&g, r)).collect();
    assert_eq!(lines, ["a", "", "b", "d"]);
    feed(&mut g, "\x1b[M");
    let lines: Vec<String> = (0..4).map(|r| line(&g, r)).collect();
    assert_eq!(lines, ["a", "b", "", "d"]);
    // Outside the region nothing happens.
    feed(&mut g, "\x1b[4;1H\x1b[9M\x1b[9L");
    assert_eq!(line(&g, 3), "d");
    assert_eq!(g.history(), 0);
}

#[test]
fn a_region_scrolls_by_itself() {
    let mut g = Grid::new(2, 4);
    feed(&mut g, "a\r\nb\r\nc\r\nd\x1b[2;3r\x1b[S");
    let lines: Vec<String> = (0..4).map(|r| line(&g, r)).collect();
    assert_eq!(lines, ["a", "c", "", "d"]);
    feed(&mut g, "\x1b[T");
    let lines: Vec<String> = (0..4).map(|r| line(&g, r)).collect();
    assert_eq!(lines, ["a", "", "c", "d"]);
    // At its top and bottom the cursor scrolls it.
    feed(&mut g, "\x1b[2;1H\x1bM");
    assert_eq!(line(&g, 2), "");
    feed(&mut g, "\x1b[3;1Hz\x1bD");
    assert_eq!(line(&g, 1), "z");
    assert_eq!(g.history(), 0);
    // A region that is none is ignored.
    feed(&mut g, "\x1b[3;2r\x1b[1;1H");
    feed(&mut g, "\x1b[9;1H\n\n");
    assert_eq!(line(&g, 3), "d");
}

#[test]
fn origin_mode_addresses_from_the_region() {
    let mut g = Grid::new(4, 5);
    feed(&mut g, "\x1b[2;4r\x1b[?6h");
    assert_eq!(g.cursor(), (1, 0));
    feed(&mut g, "\x1b[2;2H");
    assert_eq!(g.cursor(), (2, 1));
    feed(&mut g, "\x1b[?6l");
    assert_eq!(g.cursor(), (0, 0));
}

#[test]
fn scrolling_further_than_the_screen_leaves_blanks() {
    let mut g = Grid::new(2, 2);
    feed(&mut g, "a\r\nb\x1b[5S");
    assert_eq!(line(&g, 0), "");
    assert_eq!(g.history(), 5);
    assert_eq!(g.scrollback[0][0].ch, 'a');
    assert_eq!(g.scrollback[1][0].ch, 'b');
    assert_eq!(g.scrollback[4][0].ch, ' ');
}

#[test]
fn the_history_drops_its_oldest_line() {
    let mut g = Grid::new(6, 1);
    for i in 0..2005 {
        feed(&mut g, &format!("{i}\r\n"));
    }
    assert_eq!(g.history(), 2000);
    let oldest: String = g.scrollback[0].iter().map(|c| c.ch).collect();
    assert_eq!(oldest.trim_end(), "5");
}

#[test]
fn a_scroll_loses_no_line() {
    let mut g = Grid::new(3, 3);
    feed(&mut g, "a\r\nb\r\nc\r\nd\r\ne");
    let mut all: Vec<String> = g
        .scrollback
        .iter()
        .map(|l| l.iter().map(|c| c.ch).collect::<String>().trim_end().to_string())
        .collect();
    all.extend((0..3).map(|r| line(&g, r)));
    assert_eq!(all, ["a", "b", "c", "d", "e"]);
}

#[test]
fn styles_are_set_and_cleared() {
    let mut g = Grid::new(12, 1);
    feed(&mut g, "\x1b[1;2;3;4;7;9ma");
    assert_eq!(
        g.row(0)[0].attrs,
        A_BOLD | A_DIM | A_ITALIC | A_UNDERLINE | A_REVERSE | A_STRIKE
    );
    feed(&mut g, "\x1b[22mb\x1b[23mc\x1b[24md\x1b[27me\x1b[29mf");
    assert_eq!(g.row(0)[1].attrs, A_ITALIC | A_UNDERLINE | A_REVERSE | A_STRIKE);
    assert_eq!(g.row(0)[2].attrs, A_UNDERLINE | A_REVERSE | A_STRIKE);
    assert_eq!(g.row(0)[3].attrs, A_REVERSE | A_STRIKE);
    assert_eq!(g.row(0)[4].attrs, A_STRIKE);
    assert_eq!(g.row(0)[5].attrs, 0);
    feed(&mut g, "\x1b[31;42mg\x1b[39;49mh\x1b[97;100mi\x1b[mj");
    assert_eq!((g.row(0)[6].fg, g.row(0)[6].bg), (Color::Indexed(1), Color::Indexed(2)));
    assert_eq!((g.row(0)[7].fg, g.row(0)[7].bg), (Color::Default, Color::Default));
    assert_eq!((g.row(0)[8].fg, g.row(0)[8].bg), (Color::Indexed(15), Color::Indexed(8)));
    assert_eq!(g.row(0)[9], Cell::styled('j', Color::Default, Color::Default, 0));
}

#[test]
fn extended_colours_use_up_their_numbers() {
    let mut g = Grid::new(8, 1);
    feed(&mut g, "\x1b[38;5;200;1ma");
    assert_eq!(g.row(0)[0], Cell::styled('a', Color::Indexed(200), Color::Default, A_BOLD));
    feed(&mut g, "\x1b[0;48:2:1:2:3;4mb");
    assert_eq!(g.row(0)[1], Cell::styled('b', Color::Default, Color::Rgb(1, 2, 3), A_UNDERLINE));
    // A number above 255 loses its high byte.
    feed(&mut g, "\x1b[0;38;5;300mc");
    assert_eq!(g.row(0)[2].fg, Color::Indexed(44));
    // One that is cut short is passed over, and the rest is read on.
    feed(&mut g, "\x1b[0;38;5md");
    assert_eq!(g.row(0)[3].fg, Color::Default);
}

#[test]
fn questions_are_answered_in_turn() {
    let mut g = Grid::new(10, 10);
    feed(&mut g, "\x1b[c\x1b[6n\x1b[5n");
    assert_eq!(g.take_reply(), b"\x1b[?6c\x1b[1;1R");
    assert!(g.take_reply().is_empty());
}

#[test]
fn the_title_is_taken_from_the_child() {
    let mut g = Grid::new(10, 2);
    feed(&mut g, "\x1b]0;  a title \x07");
    assert_eq!(g.title, "a title");
    feed(&mut g, "\x1b]2;日本\x1b\\");
    assert_eq!(g.title(), "日本");
    feed(&mut g, "\x1b]1;icon\x07");
    assert_eq!(g.title, "日本");
    let mut p: Parser = Parser::new();
    assert!(g.feed(&mut p, b"\x1b]0;bad\xffbyte\x07"));
    assert_eq!(g.title, "bad\u{fffd}byte");
}

#[test]
fn the_cursor_is_saved_and_brought_back() {
    let mut g = Grid::new(10, 5);
    feed(&mut g, "\x1b[2;3H\x1b[31m\x1b7\x1b[4;4H\x1b[0m\x1b8x");
    assert_eq!(g.row(1)[2], Cell::styled('x', Color::Indexed(1), Color::Default, 0));
    feed(&mut g, "\x1b[3;5H\x1b[s\x1b[H\x1b[u");
    assert_eq!(g.cursor(), (2, 4));
}

#[test]
fn the_alternate_screen_brings_the_cursor_back() {
    let mut g = Grid::new(6, 3);
    feed(&mut g, "ab\x1b[?1049h\x1b[3;3Hzz\x1b[?1049l");
    assert_eq!(g.cursor(), (0, 2));
    assert!(!g.on_alt_screen());
    feed(&mut g, "\x1b[?1047h");
    assert!(g.on_alt_screen());
    assert_eq!(g.cursor(), (0, 0));
    feed(&mut g, "\x1b[?1047l");
    assert_eq!(line(&g, 0), "ab");
}

#[test]
fn the_cursor_can_be_hidden() {
    let mut g = Grid::new(6, 3);
    feed(&mut g, "\x1b[?25l");
    assert!(!g.cursor_visible);
    feed(&mut g, "\x1b[25h");
    assert!(!g.cursor_visible());
    feed(&mut g, "\x1b[?25h");
    assert!(g.cursor_visible());
}

#[test]
fn a_reset_starts_over() {
    let mut g = Grid::new(4, 2);
    feed(&mut g, "a\r\nb\r\nc\x1b[31m\x1b]0;t\x07\x1bc");
    assert_eq!(line(&g, 0), "");
    assert_eq!(g.history(), 0);
    assert_eq!(g.title, "");
    assert_eq!(g.cursor(), (0, 0));
    feed(&mut g, "x");
    assert_eq!(g.row(0)[0], Cell::styled('x', Color::Default, Color::Default, 0));
}

#[test]
fn character_set_selection_is_ignored() {
    let mut g = Grid::new(4, 2);
    feed(&mut g, "a\x1b(B\x1b#8b");
    assert_eq!(line(&g, 0), "ab");
}

#[test]
fn a_resize_pads_and_cuts_lines() {
    let mut g = Grid::new(4, 2);
    feed(&mut g, "abcd\r\nef");
    g.resize(2, 3);
    assert_eq!(line(&g, 0), "ab");
    assert_eq!(g.row(2).len(), 2);
    assert_eq!(g.cursor(), (1, 1));
    g.resize(6, 3);
    assert_eq!(g.row(0).len(), 6);
    assert_eq!(line(&g, 0), "ab");
    assert_eq!(g.history(), 0);
}

#[test]
fn a_sequence_may_be_split_between_reads() {
    let mut g = Grid::new(6, 2);
    let mut p: Parser = Parser::new();
    for b in "\x1b[31m\u{65e5}x".as_bytes() {
        assert!(g.feed(&mut p, &[*b]));
    }
    assert_eq!(g.row(0)[0].ch, '日');
    assert_eq!(g.row(0)[2].fg, Color::Indexed(1));
}

#[test]
fn same_style_ignores_the_glyph() {
    let a = Cell::styled('a', Color::Indexed(1), Color::Default, A_BOLD);
    let b = Cell::styled('b', Color::Indexed(1), Color::Default, A_BOLD);
    assert!(a.same_style(&b));
    assert!(!a.same_style(&Cell::default()));
}

#[test]
fn a_character_is_printed_at_the_width_it_is_given() {
    let mut g = Grid::new(4, 2);
    g.print_as('a', 2);
    g.print_as('b', 0);
    g.print_as('c', 3);
    assert_eq!(g.row(0)[0].ch, 'a');
    assert_eq!(g.row(0)[1].ch, WIDE_CONT);
    assert_eq!(g.row(1)[0].ch, 'c');
    assert_eq!(g.row(1)[1].ch, ' ');
    assert_eq!(g.cursor(), (1, 3));
    g.set_title(" t\u{a0}");
    assert_eq!(g.title, "t");
}

#[test]
fn events_are_applied_up_to_the_first_that_does_not_fit() {
    let mut g = Grid::new(1, 1);
    let events = vec![
        VtEvent::Csi { params: vec![vec![7]], intermediates: vec![b'?'], action: 'l' },
        VtEvent::Print('x'),
        VtEvent::Print('日'),
        VtEvent::Print('y'),
    ];
    assert_eq!(g.apply_all(&events), 2);
    assert_eq!(g.row(0)[0].ch, 'x');
    assert!(!g.apply(&events[2]));
    assert!(g.apply(&events[3]));
    assert!(g.apply(&VtEvent::Esc { intermediates: vec![], byte: b'c' }));
    assert!(g.apply(&VtEvent::Execute(13)));
    assert!(g.apply(&VtEvent::Osc { fields: vec![b"2".to_vec(), b"z".to_vec()] }));
    assert_eq!(g.title, "z");
}

#[test]
fn the_normal_screen_comes_back_after_a_busy_program() {
    let mut g = Grid::new(6, 3);
    feed(&mut g, "1\r\n2\r\n3\r\n\x1b[31mab");
    let (cursor, history) = (g.cursor(), g.scrollback.len());
    feed(&mut g, "\x1b[?1049h\x1b[44m\x1b[2;3rx\r\ny\r\nz\r\nw\x1b[S\x1b[L\x1b[?1047h\x1b[?6h\x1b[5X\x1b8q");
    assert_eq!(g.scrollback.len(), history);
    feed(&mut g, "\x1b[?1049l");
    assert_eq!([line(&g, 0), line(&g, 1), line(&g, 2)], ["2", "3", "ab"]);
    assert_eq!(g.cursor(), cursor);
    assert_eq!(g.scrollback.len(), history);
    feed(&mut g, "c");
    assert_eq!(g.row(2)[2].fg, Color::Indexed(1));
    assert_eq!(g.row(2)[2].bg, Color::Default);
}

#[test]
fn a_program_may_save_over_the_cursor_and_clear_the_history() {
    let mut g = Grid::new(6, 3);
    feed(&mut g, "1\r\n2\r\n3\r\nab\x1b[?1049h\x1b[1;4H\x1b[32m\x1b7\x1b[3J\x1b[?1049l");
    assert_eq!([line(&g, 0), line(&g, 1), line(&g, 2)], ["2", "3", "ab"]);
    assert_eq!(g.cursor(), (0, 3));
    assert_eq!(g.scrollback.len(), 0);
    // Leaving by the plain switch goes by no saved cursor.
    feed(&mut g, "\x1b[2;2H\x1b[?1047h\x1b[1;1H\x1b[sx\x1b[?1047l");
    assert_eq!(g.cursor(), (1, 1));
    assert_eq!(line(&g, 0), "2");
}
