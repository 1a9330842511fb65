use termedit::frame::{cursor_sequence, Palette};
use termedit::grid::{Cell, Renderer};
use termedit::layout::{TextOptions, TextStyle};
use termedit::session::{Clock, Windows};
use termedit::style::{Color, Style};
use termedit::text::{Buffer, Key, MenuState};

fn opts(pos: (i32, i32), text: &str) -> TextOptions {
    TextOptions {
        pos,
        offset: None,
        text: text.to_string(),
        max_w: None,
        max_h: None,
        wrap: None,
        style: None,
    }
}

fn row(r: &Renderer, y: u32) -> String {
    (0..r.buffer.width).map(|x| r.get(x, y).c).collect()
}

#[test]
fn idx_to_xy_follows_lines() {
    let o = opts((2, 1), "ab\ncd");
    assert_eq!(opts((2, 1), "ab\ncd").idx_to_xy(10, 5, 0), Some((2, 1)));
    assert_eq!(opts((2, 1), "ab\ncd").idx_to_xy(10, 5, 2), Some((4, 1)));
    assert_eq!(opts((2, 1), "ab\ncd").idx_to_xy(10, 5, 3), Some((2, 2)));
    assert_eq!(opts((2, 1), "ab\ncd").idx_to_xy(10, 5, 5), Some((4, 2)));
    assert_eq!(o.idx_to_xy(10, 5, 6), None);
}

#[test]
fn idx_to_xy_wraps_and_clips() {
    let mut o = opts((0, 0), "abcdef");
    o.max_w = Some(3);
    o.wrap = Some(true);
    assert_eq!(o.idx_to_xy(10, 5, 2), Some((2, 0)));
    let mut o = opts((0, 0), "abcdef");
    o.max_w = Some(3);
    o.wrap = Some(true);
    assert_eq!(o.idx_to_xy(10, 5, 4), Some((0, 1)));
    let mut o = opts((0, 0), "abcdef");
    o.max_w = Some(3);
    assert_eq!(o.idx_to_xy(10, 5, 4), None);
    assert_eq!(opts((0, 0), "x").idx_to_xy(0, 5, 0), None);
}

#[test]
fn put_places_styled_text() {
    let mut r = Renderer::with_size(5, 2);
    let red = Style::default().fg(Color::Red).clone();
    let mut o = opts((1, 0), "hi\nyo");
    o.style = Some(TextStyle::Style(red));
    r.put(&o);
    assert_eq!(row(&r, 0), " hi  ");
    assert_eq!(row(&r, 1), " yo  ");
    assert_eq!(r.get(2, 1).s, red);
    assert_eq!(r.get(0, 1).s, Style::default());
    let blue = Style::default().bg(Color::Blue).clone();
    let mut o = opts((0, 0), "abcdefg");
    o.style = Some(TextStyle::StyleVec(vec![red], Some(blue)));
    r.put(&o);
    assert_eq!(row(&r, 0), "abcde");
    assert_eq!(r.get(0, 0).s, red);
    assert_eq!(r.get(1, 0).s, blue);
}

#[test]
fn frame_shows_text_numbers_and_status() {
    let mut r = Renderer::with_size(20, 6);
    let b = Buffer::from_file("/tmp/notes.txt".to_string(), Some("hello\nwor\x01d".to_string()));
    let pal = Palette::default();
    let out = b.render(&mut r, pal, true);
    assert!(out.starts_with("\x1b[H"));
    assert!(out.ends_with("\x1b[m\x1b[6;1H\x1b[?25l"));
    assert_eq!(r.backbuffer.cells, r.buffer.cells);
    assert!(row(&r, 0).contains("notes.txt"));
    assert_eq!(&row(&r, 1)[..], "   1┃hello          ");
    assert!(row(&r, 2).starts_with("   2┃wor\u{2401}d"));
    assert!(row(&r, 3).starts_with("   ~┃"));
    assert!(row(&r, 5).ends_with("1:1 "));
    assert_eq!(r.get(0, 5).c, '🪶');
    assert!(r.get(5, 1).s.reverse);
    assert_eq!(r.get(8, 2).s.bg, pal.red);
    assert_eq!(r.get(8, 2).s.fg, pal.foreground);
    let again = b.render(&mut r, pal, true);
    assert_eq!(again, "\x1b[6;1H\x1b[?25l");
    assert_eq!(r.get(6, 2).s.bg, pal.background);
}

#[test]
fn frame_menu_prompts_place_the_cursor() {
    let mut r = Renderer::with_size(20, 6);
    let mut b = Buffer::new();
    b.key_pressed(Key::Esc, false);
    assert!(b.render(&mut r, Palette::default(), true).ends_with("\x1b[6;1H\x1b[?25h\x1b[6;3H"));
    assert_eq!(r.get(0, 5).c, '🐵');
    b.menu = MenuState::Save("/a/b".to_string());
    let mut r = Renderer::with_size(20, 6);
    assert!(b.render(&mut r, Palette::default(), true).ends_with("\x1b[6;1H\x1b[?25h\x1b[6;7H"));
    assert!(row(&r, 5).starts_with("💾 /a/b"));
    assert!(row(&r, 0).contains("<new>"));
}

#[test]
fn tiny_screen_is_filled_with_marks() {
    let mut r = Renderer::with_size(9, 4);
    let b = Buffer::new();
    let out = b.render(&mut r, Palette::default(), false);
    assert_eq!(out, format!("\x1b[H{}\x1b[m", vec!["!!!!!!!!!"; 4].join("\n")));
    assert!(r.buffer.cells.iter().all(|c| *c == Cell { c: '!', s: Style::default() }));
}

#[test]
fn cursor_placement_sequences() {
    assert_eq!(cursor_sequence(24, Some((2, 23))), "\x1b[24;1H\x1b[?25h\x1b[24;3H");
    assert_eq!(cursor_sequence(7, None), "\x1b[7;1H\x1b[?25l");
}

#[test]
fn clock_fires_once_per_delay() {
    let mut c = Clock::new(16, 100);
    assert_eq!(c.next, 116);
    assert!(!c.tick(110));
    assert!(c.tick(116));
    assert_eq!(c.next, 132);
    assert!(!c.tick(131));
}

#[test]
fn windows_focus_the_pushed_buffer() {
    let mut w = Windows::new();
    assert_eq!(w.current, usize::MAX);
    w.push(Buffer::new(), true);
    w.push(Buffer::from_file("/x".to_string(), None), false);
    assert_eq!(w.current, 0);
    w.focused().key_pressed(Key::Char('a'), false);
    assert_eq!(w.windows[0].text_string(), "a");
    w.push(Buffer::new(), true);
    assert_eq!(w.current, 2);
}
