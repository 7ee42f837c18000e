use hmux::grid::{Cell, Color, A_BOLD, A_DIM, A_ITALIC, A_REVERSE, A_STRIKE, A_UNDERLINE, WIDE_CONT};
use hmux::layout::{compute, Layout, Rect};
use hmux::pane::Pane;
use hmux::render::compose::compose;
use hmux::render::{sgr, Frame, Renderer};

fn row_text(f: &Frame, y: usize) -> String {
    let w = f.cols as usize;
    f.cells[y * w..(y + 1) * w].iter().map(|c| c.ch).collect()
}

fn pane(id: usize, label: &str, cols: u16, rows: u16, text: &str) -> Pane {
    let mut p = Pane::new(id, label, cols, rows, Some(7), 0);
    let mut parser: vte::Parser = vte::Parser::new();
    assert!(p.output(&mut parser, text.as_bytes(), 0).is_some());
    p
}

#[test]
fn sgr_round_trips_common_styles() {
    assert_eq!(sgr(&Cell::default()), "\x1b[0m");
    assert_eq!(
        sgr(&Cell::styled('x', Color::Indexed(1), Color::Indexed(2), A_BOLD)),
        "\x1b[0;1;31;42m"
    );
    assert_eq!(
        sgr(&Cell::styled('x', Color::Indexed(9), Color::Default, 0)),
        "\x1b[0;91m"
    );
    assert_eq!(
        sgr(&Cell::styled('x', Color::Indexed(200), Color::Default, 0)),
        "\x1b[0;38;5;200m"
    );
    assert_eq!(
        sgr(&Cell::styled('x', Color::Rgb(1, 2, 3), Color::Default, 0)),
        "\x1b[0;38;2;1;2;3m"
    );
}

#[test]
fn text_clips_at_the_given_width() {
    let mut f = Frame::new(10, 1);
    let end = f.text(0, 0, 4, "abcdefgh", Color::Default, Color::Default, 0);
    assert_eq!(end, 4);
    let row: String = f.cells.iter().map(|c| c.ch).collect();
    assert_eq!(row, "abcd      ");
}

#[test]
fn text_does_not_split_a_wide_glyph_at_the_boundary() {
    let mut f = Frame::new(10, 1);
    // Width 3 can hold one wide glyph but not two.
    let end = f.text(0, 0, 3, "日本", Color::Default, Color::Default, 0);
    assert_eq!(end, 2);
    assert_eq!(f.cells[0].ch, '日');
    assert_eq!(f.cells[1].ch, WIDE_CONT);
    assert_eq!(f.cells[2].ch, ' ');
}

#[test]
fn every_attribute_has_its_number() {
    let all = A_BOLD | A_DIM | A_ITALIC | A_UNDERLINE | A_REVERSE | A_STRIKE;
    assert_eq!(
        sgr(&Cell::styled('x', Color::Default, Color::Default, all)),
        "\x1b[0;1;2;3;4;7;9m"
    );
    assert_eq!(
        sgr(&Cell::styled('x', Color::Default, Color::Indexed(15), 0)),
        "\x1b[0;107m"
    );
    assert_eq!(
        sgr(&Cell::styled('x', Color::Default, Color::Rgb(0, 128, 255), 0)),
        "\x1b[0;48;2;0;128;255m"
    );
}

#[test]
fn the_composed_frame_shows_rail_divider_terminal_and_status() {
    let panes = vec![pane(1, "cmd", 39, 9, "C:\\>dir\r\nout"), pane(2, "cmd", 39, 9, "")];
    let l = compute(60, 10, 20);
    let f = compose(&panes, 0, &l, 60, 10, false);
    assert!(row_text(&f, 0).starts_with(" TERMINALS          │C:\\>dir"));
    assert!(row_text(&f, 1).starts_with("▸ 1: cmd            │out"));
    assert!(row_text(&f, 2).starts_with("  2: cmd            │"));
    assert!(row_text(&f, 8).starts_with("  + new             │"));
    assert!(row_text(&f, 9).starts_with(" mux · 2/2 live · pane 1 C-b c new  C-b n/p switch"));
    assert_eq!(f.cursor, Some((1, 24)));
    assert_eq!(f.cells[60].bg, Color::Indexed(24));
    assert_eq!(f.cells[20].fg, Color::Indexed(238));
}

#[test]
fn a_pending_prefix_shows() {
    let panes = vec![pane(1, "cmd", 39, 9, "")];
    let l = compute(60, 10, 20);
    let f = compose(&panes, 0, &l, 60, 10, true);
    assert_eq!(row_text(&f, 9).trim_end(), " mux · 1/1 live · pane 1 [C-b]");
}

#[test]
fn a_dead_pane_says_so_and_has_no_cursor() {
    let mut p = pane(1, "cmd", 39, 9, "gone");
    p.alive = false;
    let l = compute(60, 10, 20);
    let f = compose(&vec![p], 0, &l, 60, 10, false);
    assert!(row_text(&f, 1).starts_with("▸ 1: cmd (exited)"));
    assert!(row_text(&f, 0).contains("gone"));
    assert_eq!(f.cursor, None);
}

#[test]
fn too_many_panes_end_in_a_note() {
    let panes: Vec<Pane> = (0..5).map(|i| pane(i, "sh", 9, 4, "")).collect();
    let l = compute(24, 5, 12);
    let f = compose(&panes, 4, &l, 24, 5, false);
    assert!(row_text(&f, 1).starts_with("  1: sh"));
    assert!(row_text(&f, 2).starts_with(" …more"));
    assert!(row_text(&f, 3).starts_with("  + new"));
}

#[test]
fn a_rail_of_one_row_holds_the_new_button() {
    let panes = vec![pane(1, "sh", 10, 3, "hello")];
    let l = Layout {
        sidebar: Rect { x: 2, y: 0, w: 12, h: 1 },
        divider_x: 14,
        content: Rect { x: 15, y: 0, w: 10, h: 3 },
        status: Rect { x: 3, y: 5, w: 57, h: 1 },
    };
    let f = compose(&panes, 0, &l, 60, 6, false);
    assert!(row_text(&f, 0).starts_with("    + new     │hello"));
    assert!(row_text(&f, 1).starts_with("   …more       "));
    assert!(row_text(&f, 5).starts_with("    mux · 1/1 live · pane 1 C-b c new  "));
    assert_eq!(f.cursor, Some((0, 20)));
    let f = compose(&panes, 0, &l, 60, 6, true);
    assert_eq!(row_text(&f, 5).trim_end(), "    mux · 1/1 live · pane 1 [C-b]");
}

#[test]
fn a_rail_without_rows_is_drawn_above_its_place() {
    let panes = vec![pane(1, "sh", 4, 1, "")];
    let l = Layout {
        sidebar: Rect { x: 0, y: 2, w: 8, h: 0 },
        divider_x: 8,
        content: Rect { x: 65535, y: 65535, w: 1, h: 1 },
        status: Rect { x: 0, y: 4, w: 9, h: 0 },
    };
    let f = compose(&panes, 0, &l, 9, 5, false);
    assert_eq!(row_text(&f, 1), "  + new  ");
    assert_eq!(row_text(&f, 2), " TERMINA ");
    assert_eq!(row_text(&f, 3), " …more   ");
    assert_eq!(row_text(&f, 4), " mux · 1/");
    assert_eq!(f.cursor, Some((65535, 65535)));
}

#[test]
fn a_title_renames_the_button() {
    let panes = vec![pane(1, "cmd", 39, 9, "\x1b]0;C:\\Windows\\System32\\PING.EXE\x07")];
    let l = compute(60, 10, 20);
    let f = compose(&panes, 0, &l, 60, 10, false);
    assert!(row_text(&f, 1).starts_with("▸ 1: PING "));
}

#[test]
fn the_first_draw_paints_everything_and_the_second_nothing() {
    let mut f = Frame::new(3, 2);
    f.text(0, 0, 3, "ab", Color::Indexed(1), Color::Default, 0);
    f.cursor = Some((1, 2));
    let mut r = Renderer::new();
    assert_eq!(
        r.draw(&f),
        "\x1b[0m\x1b[2J\x1b[?25l\x1b[1;1H\x1b[0;31mab\x1b[0m \x1b[2;1H   \x1b[2;3H\x1b[?25h"
    );
    assert_eq!(r.draw(&f), "\x1b[?25l\x1b[2;3H\x1b[?25h");
    assert_eq!(r.prev, f.cells);
    // One cell changed: one cell painted.
    f.put(1, 1, Cell::styled('z', Color::Default, Color::Default, 0));
    f.cursor = None;
    assert_eq!(r.draw(&f), "\x1b[?25l\x1b[2;2H\x1b[0mz\x1b[?25l");
    // Forgotten: painted whole.
    r.invalidate();
    assert!(r.draw(&f).starts_with("\x1b[0m\x1b[2J\x1b[?25l\x1b[1;1H"));
}

#[test]
fn either_half_of_a_wide_glyph_repaints_it() {
    let mut f = Frame::new(4, 1);
    f.text(0, 0, 4, "日x", Color::Default, Color::Default, 0);
    let mut r = Renderer::new();
    let first = r.draw(&f);
    assert!(first.contains("日x"), "{first:?}");
    f.cells[1].bg = Color::Indexed(4);
    let again = r.draw(&f);
    assert_eq!(again, "\x1b[?25l\x1b[1;1H\x1b[0m日\x1b[?25l");
}

#[test]
fn wide_glyphs_that_move_reach_the_terminal_whole() {
    let mut r = Renderer::new();
    let mut g = hmux::grid::Grid::new(6, 1);
    let mut parser: vte::Parser = vte::Parser::new();
    assert!(g.feed(&mut parser, b"\x1b[?7l"));
    for line in ["日本x ", "x日本 ", " x日y ", "abcd日", "日本日"] {
        let mut f = Frame::new(6, 1);
        f.text(0, 0, 6, line, Color::Indexed(3), Color::Default, A_BOLD);
        assert!(g.feed(&mut parser, r.draw(&f).as_bytes()));
        assert_eq!(g.row(0), &f.cells[..], "{line}");
    }
}

#[test]
fn what_is_drawn_is_what_a_terminal_shows() {
    // Painted onto a grid of the same size, a frame comes out cell by cell.
    let panes = vec![pane(1, "cmd", 39, 9, "\x1b[31mred\x1b[0m 日本 \x1b[1;44mbold")];
    let l = compute(60, 10, 20);
    let f = compose(&panes, 0, &l, 60, 10, false);
    let mut r = Renderer::new();
    let text = r.draw(&f);
    let mut g = hmux::grid::Grid::new(60, 10);
    let mut parser: vte::Parser = vte::Parser::new();
    assert!(g.feed(&mut parser, b"\x1b[?7l"));
    assert!(g.feed(&mut parser, text.as_bytes()));
    for y in 0..10 {
        assert_eq!(g.row(y), &f.cells[y * 60..(y + 1) * 60], "row {y}");
    }
    assert_eq!(g.cursor(), (f.cursor.unwrap().0 as usize, f.cursor.unwrap().1 as usize));
}

#[test]
fn a_box_is_clipped_to_the_screen() {
    let mut f = Frame::new(4, 3);
    f.fill_box(2, 1, 9, 9, Cell::styled('#', Color::Default, Color::Default, 0));
    assert_eq!(row_text(&f, 0), "    ");
    assert_eq!(row_text(&f, 1), "  ##");
    assert_eq!(row_text(&f, 2), "  ##");
    f.put(4, 0, Cell::styled('!', Color::Default, Color::Default, 0));
    assert_eq!(row_text(&f, 0), "    ");
    f.fill_row(0, 0, 2, Color::Indexed(9));
    assert_eq!(f.cells[1].bg, Color::Indexed(9));
    assert_eq!(f.cells[2].bg, Color::Default);
}

#[test]
fn the_emulator_reads_back_what_the_renderer_writes() {
    let colors = [
        Color::Default,
        Color::Indexed(0),
        Color::Indexed(7),
        Color::Indexed(8),
        Color::Indexed(15),
        Color::Indexed(16),
        Color::Indexed(255),
        Color::Rgb(0, 128, 255),
    ];
    for fg in colors {
        for bg in colors {
            for attrs in 0..64u8 {
                let cell = Cell::styled('x', fg, bg, attrs);
                let mut g = hmux::grid::Grid::new(4, 1);
                let mut parser: vte::Parser = vte::Parser::new();
                assert!(g.feed(&mut parser, format!("\x1b[1;7;45m{}x", sgr(&cell)).as_bytes()));
                assert_eq!(g.row(0)[0], cell);
            }
        }
    }
}

#[test]
fn text_and_frames_are_painted_at_the_widths_they_are_given() {
    let mut f = Frame::new(5, 1);
    let style = Cell::styled(' ', Color::Indexed(2), Color::Default, 0);
    assert_eq!(f.text_as(0, 0, 5, "abc", &vec![2, 0, 3], style), 5);
    assert_eq!(f.cells[0].ch, 'a');
    assert_eq!(f.cells[1].ch, WIDE_CONT);
    assert_eq!(f.cells[2], Cell::styled('c', Color::Indexed(2), Color::Default, 0));
    assert_eq!(f.cells[3].ch, ' ');
    let mut r = Renderer::new();
    assert_eq!(
        r.draw_as(&f, &vec![2, 1, 3, 1, 1]),
        "\x1b[0m\x1b[2J\x1b[?25l\x1b[1;1H\x1b[0;32mac\x1b[?25l"
    );
}
