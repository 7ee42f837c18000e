use hmux::input::{parse_sgr_mouse, Action, MouseEvent, Router, PREFIX};

#[test]
fn ordinary_bytes_pass_straight_through() {
    let mut r = Router::new();
    assert_eq!(r.feed(b"ls -la\r"), vec![Action::Forward(b"ls -la\r".to_vec())]);
}

#[test]
fn escape_sequences_are_not_mangled() {
    let mut r = Router::new();
    // Up arrow — must arrive at the shell intact for history to work.
    assert_eq!(r.feed(b"\x1b[A"), vec![Action::Forward(b"\x1b[A".to_vec())]);
}

#[test]
fn prefix_chord_is_intercepted() {
    let mut r = Router::new();
    assert_eq!(r.feed(&[PREFIX, b'c']), vec![Action::NewPane]);
    assert_eq!(r.feed(&[PREFIX, b'3']), vec![Action::SelectPane(2)]);
}

#[test]
fn doubled_prefix_sends_a_literal_ctrl_b() {
    let mut r = Router::new();
    assert_eq!(
        r.feed(&[PREFIX, PREFIX]),
        vec![Action::Forward(vec![PREFIX])]
    );
}

#[test]
fn prefix_survives_a_read_boundary() {
    let mut r = Router::new();
    assert_eq!(r.feed(&[PREFIX]), vec![]);
    assert!(r.prefix_armed());
    assert_eq!(r.feed(b"q"), vec![Action::Quit]);
}

#[test]
fn text_around_a_chord_keeps_its_order() {
    let mut r = Router::new();
    assert_eq!(
        r.feed(&[b'a', PREFIX, b'c', b'b']),
        vec![
            Action::Forward(b"a".to_vec()),
            Action::NewPane,
            Action::Forward(b"b".to_vec()),
        ]
    );
}

#[test]
fn mouse_press_is_decoded() {
    let mut r = Router::new();
    let acts = r.feed(b"\x1b[<0;13;4M");
    assert_eq!(
        acts,
        vec![Action::Mouse(MouseEvent {
            button: 0,
            x: 12,
            y: 3,
            pressed: true
        })]
    );
}

#[test]
fn mouse_report_split_across_reads() {
    let mut r = Router::new();
    assert_eq!(r.feed(b"\x1b[<0;13"), vec![]);
    assert_eq!(
        r.feed(b";4M"),
        vec![Action::Mouse(MouseEvent {
            button: 0,
            x: 12,
            y: 3,
            pressed: true
        })]
    );
}

#[test]
fn mouse_report_split_inside_its_own_prefix() {
    for split in 1..=3 {
        let seq = b"\x1b[<0;13;4M";
        let mut r = Router::new();
        let first = r.feed(&seq[..split]);
        assert!(first.is_empty(), "leaked at split {split}: {first:?}");
        assert_eq!(
            r.feed(&seq[split..]),
            vec![Action::Mouse(MouseEvent {
                button: 0,
                x: 12,
                y: 3,
                pressed: true
            })],
            "split {split}"
        );
    }
}

#[test]
fn a_stray_mouse_report_does_not_eat_a_chord() {
    let mut r = Router::new();
    assert_eq!(r.feed(&[PREFIX]), vec![]);
    assert!(r.prefix_armed());

    let acts = r.feed(b"\x1b[<0;37;5m");
    assert_eq!(acts.len(), 1);
    assert!(matches!(acts[0], Action::Mouse(_)));
    assert!(r.prefix_armed(), "the chord was eaten by a mouse report");

    assert_eq!(r.feed(b"c"), vec![Action::NewPane]);
}

#[test]
fn a_lone_escape_is_held_then_released() {
    let mut r = Router::new();
    assert_eq!(r.feed(b"\x1b"), vec![]);
    assert!(r.has_pending());
    assert_eq!(r.flush_pending(), Some(Action::Forward(vec![0x1b])));
    assert!(!r.has_pending());
    assert_eq!(r.flush_pending(), None);
}

#[test]
fn a_non_mouse_escape_sequence_survives_a_split() {
    let mut r = Router::new();
    assert_eq!(r.feed(b"\x1b"), vec![]);
    // Up arrow, split right after the ESC.
    assert_eq!(r.feed(b"[A"), vec![Action::Forward(b"\x1b[A".to_vec())]);
}

#[test]
fn every_bound_key_does_its_work() {
    let keys: [(u8, Action); 14] = [
        (b'c', Action::NewPane),
        (b'x', Action::ClosePane),
        (b'n', Action::NextPane),
        (b'o', Action::NextPane),
        (b'p', Action::PrevPane),
        (b'q', Action::Quit),
        (b'r', Action::Redraw),
        (b'>', Action::GrowSidebar),
        (b'.', Action::GrowSidebar),
        (b'<', Action::ShrinkSidebar),
        (b',', Action::ShrinkSidebar),
        (b'1', Action::SelectPane(0)),
        (b'9', Action::SelectPane(8)),
        (PREFIX, Action::Forward(vec![PREFIX])),
    ];
    for (key, action) in keys {
        assert_eq!(Router::new().feed(&[PREFIX, key]), vec![action]);
    }
}

#[test]
fn an_unbound_key_is_swallowed() {
    let mut r = Router::new();
    assert_eq!(
        r.feed(&[b'a', PREFIX, b'z', b'b']),
        vec![Action::Forward(b"a".to_vec()), Action::Forward(b"b".to_vec())]
    );
    assert!(!r.prefix_armed());
}

#[test]
fn a_report_that_is_none_is_forwarded() {
    for bad in [&b"\x1b[<0;13M"[..], b"\x1b[<;1;2M", b"\x1b[<0;x;4M", b"\x1b[<70000;1;1M", b"\x1b[<0;1;\xffM"] {
        assert_eq!(Router::new().feed(bad), vec![Action::Forward(bad.to_vec())]);
    }
}

#[test]
fn an_endless_report_is_given_up() {
    let mut long = b"\x1b[<".to_vec();
    long.extend(vec![b'1'; 29]);
    assert_eq!(Router::new().feed(&long), vec![]);
    long.push(b'1');
    let mut r = Router::new();
    assert_eq!(r.feed(&long), vec![Action::Forward(long.clone())]);
    assert!(!r.has_pending());
}

#[test]
fn a_report_may_carry_more_than_it_needs() {
    assert_eq!(
        parse_sgr_mouse(&b"\x1b[<+2;0;65535;99m".to_vec()),
        Some(MouseEvent { button: 2, x: 0, y: 65534, pressed: false })
    );
    assert_eq!(parse_sgr_mouse(&b"\x1b[<0;1;65536M".to_vec()), None);
    assert_eq!(parse_sgr_mouse(&b"x[<0;1;1M".to_vec()), None);
}

#[test]
fn what_is_no_report_is_not_decoded() {
    assert_eq!(parse_sgr_mouse(&Vec::new()), None);
    assert_eq!(parse_sgr_mouse(&b"\x1b[".to_vec()), None);
    assert_eq!(parse_sgr_mouse(&b"abc".to_vec()), None);
    assert_eq!(parse_sgr_mouse(&"x;1;日".as_bytes().to_vec()), None);
    assert_eq!(parse_sgr_mouse(&b"\x1b[<\xff".to_vec()), None);
    assert_eq!(parse_sgr_mouse(&b"\x1b[<0;1;\xe6".to_vec()), None);
    assert_eq!(parse_sgr_mouse(&b"\x1b[<M".to_vec()), None);
    // Anything but an `M` at the end is a release.
    assert_eq!(
        parse_sgr_mouse(&b"\x1b[<0;3;4x".to_vec()),
        Some(MouseEvent { button: 0, x: 2, y: 3, pressed: false })
    );
}

#[test]
fn reads_may_end_anywhere() {
    let all = [b'a', 0x1b, b'[', b'A', PREFIX, 0x1b, b'[', b'<', b'0', b';', b'1', b';', b'1', b'M', b'c', b'b'];
    for split in 0..=all.len() {
        let mut r = Router::new();
        let mut got = r.feed(&all[..split]);
        got.extend(r.feed(&all[split..]));
        let mut bytes: Vec<u8> = Vec::new();
        let mut others: Vec<Action> = Vec::new();
        for a in got {
            match a {
                Action::Forward(b) => bytes.extend(b),
                other => others.push(other),
            }
        }
        assert_eq!(bytes, b"a\x1b[Ab");
        assert_eq!(
            others,
            vec![
                Action::Mouse(MouseEvent { button: 0, x: 0, y: 0, pressed: true }),
                Action::NewPane
            ]
        );
    }
}

#[test]
fn an_escape_after_an_escape_is_forwarded() {
    let mut r = Router::new();
    assert_eq!(r.feed(b"\x1b\x1b[A"), vec![Action::Forward(b"\x1b\x1b[A".to_vec())]);
}
