use termedit::input::{Decoder, MouseEvent, RawKey, Term, TermEvent};

fn feed_all(d: &mut Decoder, keys: Vec<RawKey>) -> Vec<TermEvent> {
    let mut out = Vec::new();
    for k in keys {
        if let Some(e) = d.feed(k) {
            out.push(e);
        }
    }
    out
}

fn chars(s: &str) -> Vec<RawKey> {
    s.chars().map(RawKey::Char).collect()
}

#[test]
fn mouse_click_payload_decodes() {
    let mut d = Decoder::new();
    let mut keys = vec![RawKey::UnknownEscSeq(vec!['['])];
    keys.extend(chars("32;10;5M"));
    let evs = feed_all(&mut d, keys);
    assert_eq!(
        evs,
        vec![TermEvent::Mouse { event: MouseEvent::Click { x: 10, y: 5, state: 32, data: 1 } }]
    );
    assert!(d.pending.is_empty());
}

#[test]
fn mouse_buttons_moves_and_scrolls() {
    let mut d = Decoder::new();
    let mut keys = vec![RawKey::UnknownEscSeq(vec!['['])];
    keys.extend(chars("34;1;2M"));
    keys.push(RawKey::UnknownEscSeq(vec!['[']));
    keys.extend(chars("67;3;4M"));
    keys.push(RawKey::UnknownEscSeq(vec!['[']));
    keys.extend(chars("97;7;8M"));
    keys.push(RawKey::UnknownEscSeq(vec!['[']));
    keys.extend(chars("96;7;8M"));
    keys.push(RawKey::UnknownEscSeq(vec!['[']));
    keys.extend(chars("3;9;9M"));
    let evs = feed_all(&mut d, keys);
    assert_eq!(
        evs,
        vec![
            TermEvent::Mouse { event: MouseEvent::Click { x: 1, y: 2, state: 34, data: 4 } },
            TermEvent::Mouse { event: MouseEvent::Move { x: 3, y: 4, state: 67, data: 0 } },
            TermEvent::Mouse { event: MouseEvent::Scroll { x: 7, y: 8, state: 97, data: 1 } },
            TermEvent::Mouse { event: MouseEvent::Scroll { x: 7, y: 8, state: 96, data: -1 } },
            TermEvent::Mouse { event: MouseEvent::Unknown { x: 9, y: 9, state: 3, data: 0 } },
        ]
    );
}

#[test]
fn malformed_mouse_payload_is_dropped() {
    let mut d = Decoder::new();
    let mut keys = vec![RawKey::UnknownEscSeq(vec!['['])];
    keys.extend(chars("3x;1;2M"));
    keys.push(RawKey::UnknownEscSeq(vec!['[']));
    keys.extend(chars("1;2M"));
    keys.push(RawKey::UnknownEscSeq(vec!['[']));
    keys.extend(chars("1;2;99999999999M"));
    keys.push(RawKey::Char('a'));
    let evs = feed_all(&mut d, keys);
    assert_eq!(evs, vec![TermEvent::Char { char: 'a' }]);
}

#[test]
fn arrow_letters_follow_vt100() {
    let mut d = Decoder::new();
    let keys = vec![
        RawKey::UnknownEscSeq(vec!['[', 'A']),
        RawKey::UnknownEscSeq(vec!['[', 'B']),
        RawKey::UnknownEscSeq(vec!['[', '1', ';', '5', 'C']),
        RawKey::UnknownEscSeq(vec!['[', 'D']),
        RawKey::UnknownEscSeq(vec!['[', 'Z']),
    ];
    let evs = feed_all(&mut d, keys);
    assert_eq!(
        evs,
        vec![
            TermEvent::Arrow { x: 0, y: -1, modifiers: 0 },
            TermEvent::Arrow { x: 0, y: 1, modifiers: 0 },
            TermEvent::Arrow { x: 1, y: 0, modifiers: 0 },
            TermEvent::Arrow { x: -1, y: 0, modifiers: 0 },
        ]
    );
}

#[test]
fn named_keys_emit_directly() {
    let mut d = Decoder::new();
    let keys = vec![
        RawKey::Char('x'),
        RawKey::Enter,
        RawKey::Backspace,
        RawKey::ArrowLeft,
        RawKey::ArrowRight,
        RawKey::ArrowUp,
        RawKey::ArrowDown,
        RawKey::Other,
    ];
    let evs = feed_all(&mut d, keys);
    assert_eq!(
        evs,
        vec![
            TermEvent::Char { char: 'x' },
            TermEvent::Enter {},
            TermEvent::Backspace {},
            TermEvent::Arrow { x: -1, y: 0, modifiers: 0 },
            TermEvent::Arrow { x: 1, y: 0, modifiers: 0 },
            TermEvent::Arrow { x: 0, y: -1, modifiers: 0 },
            TermEvent::Arrow { x: 0, y: 1, modifiers: 0 },
        ]
    );
}

#[test]
fn queue_is_first_in_first_out() {
    let mut t = Term::new();
    assert_eq!(t.consume_event(), None);
    t.push_event(TermEvent::Char { char: 'a' });
    t.push_event(TermEvent::Enter {});
    assert_eq!(t.consume_event(), Some(TermEvent::Char { char: 'a' }));
    assert_eq!(t.consume_event(), Some(TermEvent::Enter {}));
    assert_eq!(t.consume_event(), None);
}

#[test]
fn mode_flags_and_sequences() {
    let mut t = Term::new();
    assert_eq!(t.enable_mouse(), "\x1b[?1003h\x1b[?1015h");
    assert_eq!(t.enable_alternate_buffer(), "\x1b[?1049h");
    assert_eq!(t.flags, 3);
    assert_eq!(t.disable_mouse(), "\x1b[?1015l\x1b[?1003l");
    assert_eq!(t.flags, 2);
    assert_eq!(t.disable_alternate_buffer(), "\x1b[?1049l");
    assert_eq!(t.flags, 0);
}
