use termedit::style::{Color, Style};

#[test]
fn named_colors_have_sgr_codes() {
    assert_eq!(Color::Unset.foreground(), "39");
    assert_eq!(Color::Red.foreground(), "31");
    assert_eq!(Color::BrightWhite.foreground(), "97");
    assert_eq!(Color::Unset.background(), "49");
    assert_eq!(Color::Blue.background(), "44");
    assert_eq!(Color::BrightBlack.background(), "100");
}

#[test]
fn palette_and_rgb_codes() {
    assert_eq!(Color::Color256(0).foreground(), "38;5;0");
    assert_eq!(Color::Color256(208).background(), "48;5;208");
    assert_eq!(Color::RGB(40, 42, 254).foreground(), "38;2;40;42;254");
    assert_eq!(Color::RGB(255, 0, 7).background(), "48;2;255;0;7");
}

#[test]
fn builders_set_one_field() {
    let mut s = Style::default();
    s.fg(Color::Red).bg(Color::Blue).bold(true);
    assert_eq!(s.fg, Color::Red);
    assert_eq!(s.bg, Color::Blue);
    assert!(s.bold);
    assert!(!s.italic);
    let t = Style::default().underline(true).clone();
    assert!(t.underline);
    assert_eq!(t.fg, Color::Unset);
}

#[test]
fn full_encoding_lists_colors_then_attributes() {
    let s = Style::default().fg(Color::Red).bg(Color::Black).bold(true).strike(true).clone();
    assert_eq!(s.to_string(), "\x1b[31;40;1;9m");
    assert_eq!(Style::default().to_string(), "");
}

#[test]
fn diff_against_itself_is_empty() {
    let s = Style::default().fg(Color::RGB(1, 2, 3)).italic(true).clone();
    assert_eq!(s.diff_to_string(s), "");
    assert_eq!(Style::default().diff_to_string(Style::default()), "");
}

#[test]
fn diff_against_default_matches_full_encoding() {
    let s = Style::default().fg(Color::Green).bg(Color::Color256(17)).clone();
    assert_eq!(s.diff_to_string(Style::default()), s.to_string());
    assert_eq!(s.to_string(), "\x1b[32;48;5;17m");
}

#[test]
fn diff_emits_only_changes_in_fixed_order() {
    let prev = Style::default().bold(true).underline(true).clone();
    let next = Style::default().bg(Color::Red).italic(true).reverse(true).strike(true).clone();
    assert_eq!(next.diff_to_string(prev), "\x1b[41;22;3;24;7;9m");
    let prev = Style::default().italic(true).clone();
    assert_eq!(Style::default().diff_to_string(prev), "\x1b[23m");
    let only_fg = Style::default().fg(Color::Cyan).clone();
    assert_eq!(only_fg.diff_to_string(Style::default()), "\x1b[36m");
    let back = Style::default();
    assert_eq!(back.diff_to_string(only_fg), "\x1b[39m");
    let faint = Style::default().faint(true).clone();
    assert_eq!(Style::default().diff_to_string(faint), "\x1b[22m");
}

#[test]
fn diff_against_default_is_full_encoding_for_every_style() {
    let styles = vec![
        Style::default(),
        Style::default().bold(true).clone(),
        Style::default().fg(Color::Red).faint(true).underline(true).clone(),
        Style::default().bg(Color::RGB(1, 2, 3)).reverse(true).strike(true).clone(),
    ];
    for s in styles {
        assert_eq!(s.diff_to_string(Style::default()), s.to_string());
    }
}

#[test]
fn normal_intensity_sets_again_what_stays_on() {
    let both = Style::default().bold(true).faint(true).clone();
    let faint = Style::default().faint(true).clone();
    let bold = Style::default().bold(true).clone();
    assert_eq!(faint.diff_to_string(both), "\x1b[22;2m");
    assert_eq!(bold.diff_to_string(both), "\x1b[22;1m");
    assert_eq!(bold.diff_to_string(faint), "\x1b[22;1m");
    assert_eq!(both.diff_to_string(bold), "\x1b[2m");
    assert_eq!(Style::default().diff_to_string(both), "\x1b[22m");
}
