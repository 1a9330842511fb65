use termedit::text::{Buffer, Effect, Key, MenuState};

fn typed(b: &mut Buffer, s: &str) {
    for c in s.chars() {
        b.key_pressed(Key::Char(c), false);
    }
}

fn doc(s: &str) -> Buffer {
    Buffer::from_file("/tmp/doc.txt".to_string(), Some(s.to_string()))
}

#[test]
fn typing_hi_enter_there() {
    let mut b = Buffer::new();
    typed(&mut b, "Hi");
    b.key_pressed(Key::Char('\n'), false);
    typed(&mut b, "there");
    assert_eq!(b.text_string(), "Hi\nthere");
    assert_eq!(b.cursor, (5, 1));
    assert!(!b.saved);
}

#[test]
fn tab_and_carriage_return() {
    let mut b = Buffer::new();
    b.key_pressed(Key::Char('\t'), false);
    b.key_pressed(Key::Char('\r'), false);
    assert_eq!(b.text_string(), "    \n");
    assert_eq!(b.cursor, (0, 1));
}

#[test]
fn cursor_index_round_trips() {
    let b = doc("ab\n\ncde");
    assert_eq!(b.cur((0, 0)), 0);
    assert_eq!(b.cur((2, 0)), 2);
    assert_eq!(b.cur((9, 0)), 2);
    assert_eq!(b.cur((5, 1)), 3);
    assert_eq!(b.cur((1, 2)), 5);
    assert_eq!(b.cur((7, 9)), 7);
    assert_eq!(b.cur((-3, -3)), 0);
    assert_eq!(b.fix((9, 0)), (2, 0));
    assert_eq!(b.fix((1, 7)), (1, 2));
    for i in 0..=7usize {
        assert_eq!(b.cur(b.ipos(i)), i);
    }
    for c in [(0, 0), (2, 0), (0, 1), (3, 2), (1, 2)] {
        assert_eq!(b.ipos(b.cur(c)), c);
    }
    assert_eq!(b.ipos(3), (0, 1));
    assert_eq!(b.ipos(100), (3, 2));
    let e = Buffer::new();
    assert_eq!(e.cur((4, 4)), 0);
    assert_eq!(e.ipos(0), (0, 0));
}

#[test]
fn insert_then_backspace_restores() {
    let mut b = doc("one\ntwo");
    b.cursor = (1, 1);
    b.key_pressed(Key::Char('X'), false);
    assert_eq!(b.text_string(), "one\ntXwo");
    assert_eq!(b.cursor, (2, 1));
    b.key_pressed(Key::Backspace, false);
    assert_eq!(b.text_string(), "one\ntwo");
    assert_eq!(b.cursor, (1, 1));
}

#[test]
fn backspace_joins_lines_and_stops_at_start() {
    let mut b = doc("ab\ncd");
    b.cursor = (0, 1);
    b.key_pressed(Key::Backspace, false);
    assert_eq!(b.text_string(), "abcd");
    assert_eq!(b.cursor, (2, 0));
    b.cursor = (0, 0);
    b.key_pressed(Key::Backspace, false);
    assert_eq!(b.text_string(), "abcd");
}

#[test]
fn arrows_move_and_clamp() {
    let mut b = doc("abcd\nx\nlonger");
    b.cursor = (3, 0);
    b.key_pressed(Key::Down, false);
    assert_eq!(b.cursor, (3, 1));
    assert_eq!(b.fix(b.cursor), (1, 1));
    b.key_pressed(Key::Down, false);
    b.key_pressed(Key::Down, false);
    assert_eq!(b.cursor, (3, 2));
    b.key_pressed(Key::Up, false);
    assert_eq!(b.cursor, (3, 1));
    b.cursor = (2, 0);
    b.key_pressed(Key::Up, false);
    assert_eq!(b.cursor, (2, 0));
    b.cursor = (9, 7);
    b.key_pressed(Key::Up, false);
    assert_eq!(b.cursor, (9, 2));
    assert_eq!(b.fix(b.cursor), (6, 2));
    b.cursor = (0, 0);
    b.key_pressed(Key::Left, false);
    assert_eq!(b.cursor, (0, 0));
    b.cursor = (4, 0);
    b.key_pressed(Key::Right, false);
    assert_eq!(b.cursor, (0, 1));
    b.key_pressed(Key::Left, false);
    assert_eq!(b.cursor, (4, 0));
    b.cursor = (6, 2);
    b.key_pressed(Key::Right, false);
    assert_eq!(b.cursor, (6, 2));
}

#[test]
fn home_end_and_smart_home() {
    let mut b = doc("   foo\nbar");
    b.cursor = (5, 0);
    b.key_pressed(Key::End, true);
    assert_eq!(b.cursor, (6, 0));
    b.key_pressed(Key::Home, true);
    assert_eq!(b.cursor, (3, 0));
    b.key_pressed(Key::Home, true);
    assert_eq!(b.cursor, (0, 0));
    b.key_pressed(Key::Home, true);
    assert_eq!(b.cursor, (3, 0));
    b.key_pressed(Key::Home, false);
    assert_eq!(b.cursor, (0, 0));
}

#[test]
fn scrolling_is_bounded_by_content() {
    let mut b = doc("abc\nd");
    b.key_pressed(Key::CtrlUp, false);
    b.key_pressed(Key::CtrlLeft, false);
    assert_eq!(b.scroll, (0, 0));
    b.key_pressed(Key::CtrlDown, false);
    b.key_pressed(Key::CtrlDown, false);
    assert_eq!(b.scroll, (0, 1));
    b.key_pressed(Key::CtrlRight, false);
    b.key_pressed(Key::CtrlRight, false);
    b.key_pressed(Key::CtrlRight, false);
    assert_eq!(b.scroll, (2, 1));
    b.key_pressed(Key::CtrlLeft, false);
    b.key_pressed(Key::CtrlUp, false);
    assert_eq!(b.scroll, (1, 0));
    assert_eq!(b.cursor, (0, 0));
}

#[test]
fn unknown_key_inserts_its_name() {
    let mut b = Buffer::new();
    let e = b.key_pressed(Key::Unknown("F(5)".to_string()), false);
    assert_eq!(e, Effect::Nothing);
    assert_eq!(b.text_string(), "F(5)");
    assert_eq!(b.cursor, (4, 0));
    assert!(!b.saved);
    assert_eq!(b.key_pressed(Key::Alt('x'), false), Effect::HoldCursor);
    assert_eq!(b.text_string(), "F(5)");
}

#[test]
fn save_flow_without_a_path() {
    let mut b = Buffer::new();
    typed(&mut b, "hello");
    b.key_pressed(Key::Esc, false);
    assert_eq!(b.menu, MenuState::Open(String::new()));
    assert_eq!(b.key_pressed(Key::Char('w'), false), Effect::BrowseSave);
    b.browse_done(false, Some("/home/u".to_string()));
    assert_eq!(b.menu, MenuState::Save("/home/u/".to_string()));
    typed(&mut b, "out.txt");
    assert_eq!(b.menu, MenuState::Save("/home/u/out.txt".to_string()));
    let e = b.key_pressed(Key::Char('\n'), false);
    assert_eq!(e, Effect::Write("/home/u/out.txt".to_string()));
    b.write_done("/home/u/out.txt".to_string(), true);
    assert_eq!(b.menu, MenuState::Open("Wrote 5 bytes".to_string()));
    assert!(b.saved);
    assert_eq!(b.path, Some("/home/u/out.txt".to_string()));
    assert_eq!(b.text_string(), "hello");
}

#[test]
fn save_to_the_same_path_writes_directly() {
    let mut b = doc("é!");
    b.key_pressed(Key::Char('z'), false);
    b.key_pressed(Key::Esc, false);
    let e = b.key_pressed(Key::Char('w'), false);
    assert_eq!(e, Effect::Write("/tmp/doc.txt".to_string()));
    b.write_done("/tmp/doc.txt".to_string(), true);
    assert_eq!(b.menu, MenuState::Open("Wrote 4 bytes".to_string()));
    b.menu = MenuState::Save("/tmp/doc.txt".to_string());
    let e = b.key_pressed(Key::Char('\r'), false);
    assert_eq!(e, Effect::Write("/tmp/doc.txt".to_string()));
}

#[test]
fn save_to_another_existing_path_asks_first() {
    let mut b = doc("abc");
    b.menu = MenuState::Save("/tmp/other.txt".to_string());
    assert_eq!(b.key_pressed(Key::Char('\n'), false), Effect::Nothing);
    assert_eq!(b.menu, MenuState::Overwrite("/tmp/other.txt".to_string()));
    let e = b.key_pressed(Key::Char('y'), false);
    assert_eq!(e, Effect::Write("/tmp/other.txt".to_string()));
    b.write_done("/tmp/other.txt".to_string(), true);
    assert_eq!(b.menu, MenuState::Open("Wrote 3 bytes".to_string()));
    assert_eq!(b.path, Some("/tmp/other.txt".to_string()));
}

#[test]
fn failed_write_keeps_state() {
    let mut b = Buffer::new();
    typed(&mut b, "x");
    b.menu = MenuState::Overwrite("/nope/a".to_string());
    b.key_pressed(Key::Char('Y'), false);
    b.write_done("/nope/a".to_string(), false);
    assert_eq!(b.menu, MenuState::Open("Could not write".to_string()));
    assert!(!b.saved);
    assert_eq!(b.path, None);
}

#[test]
fn quit_with_unsaved_changes_asks() {
    let mut b = Buffer::new();
    typed(&mut b, "x");
    b.key_pressed(Key::Esc, false);
    assert_eq!(b.key_pressed(Key::Char('q'), false), Effect::Nothing);
    assert_eq!(b.menu, MenuState::SaveFailed);
    b.key_pressed(Key::Char('n'), false);
    assert_eq!(b.menu, MenuState::Open(String::new()));
    b.key_pressed(Key::Char('q'), false);
    assert_eq!(b.menu, MenuState::SaveFailed);
    assert_eq!(b.key_pressed(Key::Char('y'), false), Effect::Quit);
}

#[test]
fn quit_when_saved_is_immediate() {
    let mut b = Buffer::new();
    b.key_pressed(Key::Esc, false);
    assert_eq!(b.key_pressed(Key::Char('q'), false), Effect::Quit);
}

#[test]
fn load_flows() {
    let mut b = doc("old");
    b.key_pressed(Key::Esc, false);
    assert_eq!(b.key_pressed(Key::Char('r'), false), Effect::Read("/tmp/doc.txt".to_string()));
    b.read_done("/tmp/doc.txt".to_string(), Some("new text".to_string()));
    assert_eq!(b.text_string(), "new text");
    assert_eq!(b.menu, MenuState::Open("Read 8 bytes".to_string()));
    b.read_done("/tmp/other".to_string(), None);
    assert_eq!(b.menu, MenuState::Open("Could not read".to_string()));
    assert_eq!(b.path, Some("/tmp/doc.txt".to_string()));

    let mut n = Buffer::new();
    n.key_pressed(Key::Esc, false);
    assert_eq!(n.key_pressed(Key::Char('r'), false), Effect::BrowseLoad);
    n.browse_done(true, None);
    assert_eq!(n.menu, MenuState::Open("Could not open load menu".to_string()));
    n.browse_done(true, Some("/d".to_string()));
    typed(&mut n, "f");
    n.key_pressed(Key::Backspace, false);
    n.key_pressed(Key::Backspace, false);
    assert_eq!(n.menu, MenuState::Load("/d".to_string()));
    typed(&mut n, "g");
    assert_eq!(n.key_pressed(Key::Char('\n'), false), Effect::Read("/dg".to_string()));

    let mut d = Buffer::new();
    typed(&mut d, "dirty");
    d.key_pressed(Key::Esc, false);
    d.key_pressed(Key::Char('r'), false);
    assert_eq!(d.menu, MenuState::ForceLoad);
    assert_eq!(d.key_pressed(Key::Char('y'), false), Effect::BrowseLoad);
    d.key_pressed(Key::Char('N'), false);
    assert_eq!(d.menu, MenuState::Open(String::new()));
}

#[test]
fn command_line_and_escape() {
    let mut b = Buffer::new();
    b.key_pressed(Key::Esc, false);
    b.key_pressed(Key::Char(':'), false);
    typed(&mut b, "wq");
    assert_eq!(b.menu, MenuState::Command("wq".to_string()));
    b.key_pressed(Key::Backspace, false);
    assert_eq!(b.menu, MenuState::Command("w".to_string()));
    b.key_pressed(Key::Char('\r'), false);
    assert_eq!(b.menu, MenuState::Inactive);
    b.key_pressed(Key::Esc, false);
    b.key_pressed(Key::Char('w'), false);
    b.key_pressed(Key::Esc, false);
    assert_eq!(b.menu, MenuState::Inactive);
    assert_eq!(b.text_string(), "");
}

#[test]
fn unreadable_file_starts_empty_and_unsaved() {
    let b = Buffer::from_file("/missing".to_string(), None);
    assert_eq!(b.text_string(), "");
    assert!(!b.saved);
    assert_eq!(b.path, Some("/missing".to_string()));
}

#[test]
fn menu_transitions_are_total() {
    let states = vec![
        MenuState::Open("m".to_string()),
        MenuState::Command("c".to_string()),
        MenuState::SaveFailed,
        MenuState::Save("/p".to_string()),
        MenuState::Overwrite("/p".to_string()),
        MenuState::Load("/p".to_string()),
        MenuState::ForceLoad,
    ];
    let keys = vec![
        Key::Esc,
        Key::Char(':'),
        Key::Char('w'),
        Key::Char('r'),
        Key::Char('q'),
        Key::Char('y'),
        Key::Char('N'),
        Key::Char('\n'),
        Key::Char('\r'),
        Key::Char('\x01'),
        Key::Backspace,
        Key::Up,
        Key::Home,
        Key::Unknown("F(1)".to_string()),
    ];
    for saved in [true, false] {
        for path in [None, Some("/p".to_string())] {
            for s in &states {
                for k in &keys {
                    let mut b = Buffer::new();
                    b.saved = saved;
                    b.path = path.clone();
                    b.menu = s.clone();
                    b.key_pressed(k.clone(), true);
                    assert_eq!(b.text_string(), "");
                    if *k == Key::Esc {
                        assert_eq!(b.menu, MenuState::Inactive);
                    }
                }
            }
        }
    }
}

#[test]
fn control_characters_do_not_enter_prompts() {
    let mut b = Buffer::new();
    b.menu = MenuState::Command("ab".to_string());
    b.key_pressed(Key::Char('\x07'), false);
    assert_eq!(b.menu, MenuState::Command("ab".to_string()));
    b.menu = MenuState::Load("x".to_string());
    b.key_pressed(Key::Char('\r'), false);
    assert_eq!(b.menu, MenuState::Load("x".to_string()));
}

#[test]
fn missing_working_directory_is_reported() {
    let mut b = Buffer::new();
    b.key_pressed(Key::Esc, false);
    b.key_pressed(Key::Char('w'), false);
    b.browse_done(false, None);
    assert_eq!(b.menu, MenuState::Open("Could not open write menu".to_string()));
}
