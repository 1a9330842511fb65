use termedit::grid::{Buff, Cell, Renderer};
use termedit::style::{Color, Style};

fn cell(c: char) -> Cell {
    Cell { c, s: Style::default() }
}

#[test]
fn blank_grid_and_point_access() {
    let mut r = Renderer::with_size(4, 3);
    assert_eq!(r.buffer.cells.len(), 12);
    assert_eq!(r.get(3, 2), Cell::empty());
    r.set(1, 2, cell('x'));
    assert_eq!(r.get(1, 2).c, 'x');
    assert_eq!(r.buffer.cells[9].c, 'x');
    r.get_mut(0, 0).c = 'q';
    assert_eq!(r.get(0, 0).c, 'q');
    let n = Buff::null();
    assert_eq!((n.width, n.height, n.cells.len()), (0, 0, 0));
}

#[test]
fn put_text_stops_at_row_end() {
    let mut r = Renderer::with_size(5, 2);
    r.put_text(3, 0, "abcd".to_string());
    assert_eq!(r.get(3, 0).c, 'a');
    assert_eq!(r.get(4, 0).c, 'b');
    assert_eq!(r.get(0, 1).c, ' ');
    r.put_text(9, 1, "zz".to_string());
    assert_eq!(r.buffer.cells.iter().filter(|c| c.c == 'z').count(), 0);
}

#[test]
fn fill_paint_and_apply_cover_the_rectangle() {
    let mut r = Renderer::with_size(4, 4);
    r.fill(1, 1, 2, 2, cell('#'));
    assert_eq!(r.get(1, 1).c, '#');
    assert_eq!(r.get(2, 2).c, '#');
    assert_eq!(r.get(3, 3).c, ' ');
    assert_eq!(r.get(0, 1).c, ' ');
    let red = Style::default().bg(Color::Red).clone();
    r.paint(0, 0, 4, 1, red);
    assert_eq!(r.get(2, 0).s, red);
    assert_eq!(r.get(2, 0).c, ' ');
    assert_eq!(r.get(2, 1).s, Style::default());
    r.set(0, 3, cell('\x07'));
    r.apply(0, 3, 4, 1, &|c: Cell, _x: u32, _y: u32| {
        if (c.c as u32) < 0x20 {
            Cell { c: char::from_u32(c.c as u32 + 0x2400).unwrap(), s: c.s }
        } else {
            c
        }
    });
    assert_eq!(r.get(0, 3).c, '\u{2407}');
    assert_eq!(r.get(1, 3).c, ' ');
}

#[test]
fn full_repaint_when_sizes_differ() {
    let mut r = Renderer::with_size(2, 2);
    r.set(0, 0, cell('a'));
    let bold = Style::default().bold(true).clone();
    r.set(1, 1, Cell { c: 'b', s: bold });
    assert_eq!(r.render(), "\x1b[Ha \n \x1b[1mb\x1b[m");
}

#[test]
fn full_repaint_rejumps_after_wide_glyph() {
    let mut r = Renderer::with_size(2, 1);
    r.set(0, 0, cell('é'));
    assert_eq!(r.render(), "\x1b[Hé\x1b[2G \x1b[m");
}

#[test]
fn diff_render_emits_changed_runs() {
    let mut r = Renderer::with_size(6, 2);
    r.flip();
    r.set(1, 0, cell('a'));
    r.set(2, 0, cell('b'));
    r.set(4, 0, cell('c'));
    let red = Style::default().fg(Color::Red).clone();
    r.set(0, 1, Cell { c: 'd', s: red });
    assert_eq!(
        r.render(),
        "\x1b[1;H\x1b[2Gab\x1b[5Gc\x1b[2;H\x1b[1G\x1b[31md\x1b[m"
    );
}

#[test]
fn render_after_flip_is_silent() {
    let mut r = Renderer::with_size(3, 2);
    r.put_text(0, 0, "hey".to_string());
    let first = r.render();
    assert!(first.starts_with("\x1b[H"));
    r.flip();
    assert_eq!(r.render(), "");
    r.void();
    assert!(r.render().starts_with("\x1b[Hhey"));
}

#[test]
fn clear_to_resets_front_only() {
    let mut r = Renderer::with_size(2, 2);
    r.set(0, 0, cell('k'));
    r.flip();
    r.clear_to(3, 1);
    assert_eq!(r.buffer.width, 3);
    assert_eq!(r.get(0, 0), Cell::empty());
    assert_eq!(r.backbuffer.cells[0].c, 'k');
}
