//! Colors and text attributes, with their ANSI SGR encodings.

use vstd::prelude::*;
use crate::strings::{dec, dec_string, push_str};

verus! {

/// A terminal color: unset (the terminal's default), one of the eight named
/// colors or their bright forms, an entry of the 256-color palette, or a
/// 24-bit RGB triple.
#[derive(Clone, Copy, PartialEq, Eq, Structural, Debug)]
pub enum Color {
    Unset,
    Black,
    Red,
    Green,
    Yellow,
    Blue,
    Magenta,
    Cyan,
    White,
    BrightBlack,
    BrightRed,
    BrightGreen,
    BrightYellow,
    BrightBlue,
    BrightMagenta,
    BrightCyan,
    BrightWhite,
    Color256(u8),
    RGB(u8, u8, u8),
}

/// The SGR parameters that select `c` as the foreground color.
#[verifier::opaque]
pub open spec fn fg_code(c: Color) -> Seq<char> {
    match c {
        Color::Unset => "39"@,
        Color::Black => "30"@,
        Color::Red => "31"@,
        Color::Green => "32"@,
        Color::Yellow => "33"@,
        Color::Blue => "34"@,
        Color::Magenta => "35"@,
        Color::Cyan => "36"@,
        Color::White => "37"@,
        Color::BrightBlack => "90"@,
        Color::BrightRed => "91"@,
        Color::BrightGreen => "92"@,
        Color::BrightYellow => "93"@,
        Color::BrightBlue => "94"@,
        Color::BrightMagenta => "95"@,
        Color::BrightCyan => "96"@,
        Color::BrightWhite => "97"@,
        Color::Color256(i) => "38;5;"@ + dec(i as nat),
        Color::RGB(r, g, b) => "38;2;"@ + dec(r as nat) + ";"@ + dec(g as nat) + ";"@ + dec(
            b as nat,
        ),
    }
}

/// The SGR parameters that select `c` as the background color.
#[verifier::opaque]
pub open spec fn bg_code(c: Color) -> Seq<char> {
    match c {
        Color::Unset => "49"@,
        Color::Black => "40"@,
        Color::Red => "41"@,
        Color::Green => "42"@,
        Color::Yellow => "43"@,
        Color::Blue => "44"@,
        Color::Magenta => "45"@,
        Color::Cyan => "46"@,
        Color::White => "47"@,
        Color::BrightBlack => "100"@,
        Color::BrightRed => "101"@,
        Color::BrightGreen => "102"@,
        Color::BrightYellow => "103"@,
        Color::BrightBlue => "104"@,
        Color::BrightMagenta => "105"@,
        Color::BrightCyan => "106"@,
        Color::BrightWhite => "107"@,
        Color::Color256(i) => "48;5;"@ + dec(i as nat),
        Color::RGB(r, g, b) => "48;2;"@ + dec(r as nat) + ";"@ + dec(g as nat) + ";"@ + dec(
            b as nat,
        ),
    }
}

/// Builds `head` followed by the decimal notation of `i`.
fn indexed_code(head: &str, i: u8) -> (r: String)
    ensures
        r@ == head@ + dec(i as nat),
{
    let mut s = head.to_owned();
    push_str(&mut s, dec_string(i as u64).as_str());
    s
}

/// Builds `head` followed by `r;g;b` in decimal.
fn rgb_code(head: &str, r: u8, g: u8, b: u8) -> (res: String)
    ensures
        res@ == head@ + dec(r as nat) + ";"@ + dec(g as nat) + ";"@ + dec(b as nat),
{
    let mut s = head.to_owned();
    push_str(&mut s, dec_string(r as u64).as_str());
    push_str(&mut s, ";");
    push_str(&mut s, dec_string(g as u64).as_str());
    push_str(&mut s, ";");
    push_str(&mut s, dec_string(b as u64).as_str());
    s
}

impl Color {
    /// The SGR parameters that make this the foreground color.
    pub fn foreground(self) -> (r: String)
        ensures
            r@ == fg_code(self),
    {
        reveal(fg_code);
        match self {
            Color::Unset => "39".to_owned(),
            Color::Black => "30".to_owned(),
            Color::Red => "31".to_owned(),
            Color::Green => "32".to_owned(),
            Color::Yellow => "33".to_owned(),
            Color::Blue => "34".to_owned(),
            Color::Magenta => "35".to_owned(),
            Color::Cyan => "36".to_owned(),
            Color::White => "37".to_owned(),
            Color::BrightBlack => "90".to_owned(),
            Color::BrightRed => "91".to_owned(),
            Color::BrightGreen => "92".to_owned(),
            Color::BrightYellow => "93".to_owned(),
            Color::BrightBlue => "94".to_owned(),
            Color::BrightMagenta => "95".to_owned(),
            Color::BrightCyan => "96".to_owned(),
            Color::BrightWhite => "97".to_owned(),
            Color::Color256(i) => indexed_code("38;5;", i),
            Color::RGB(r, g, b) => rgb_code("38;2;", r, g, b),
        }
    }

    /// The SGR parameters that make this the background color.
    pub fn background(self) -> (r: String)
        ensures
            r@ == bg_code(self),
    {
        reveal(bg_code);
        match self {
            Color::Unset => "49".to_owned(),
            Color::Black => "40".to_owned(),
            Color::Red => "41".to_owned(),
            Color::Green => "42".to_owned(),
            Color::Yellow => "43".to_owned(),
            Color::Blue => "44".to_owned(),
            Color::Magenta => "45".to_owned(),
            Color::Cyan => "46".to_owned(),
            Color::White => "47".to_owned(),
            Color::BrightBlack => "100".to_owned(),
            Color::BrightRed => "101".to_owned(),
            Color::BrightGreen => "102".to_owned(),
            Color::BrightYellow => "103".to_owned(),
            Color::BrightBlue => "104".to_owned(),
            Color::BrightMagenta => "105".to_owned(),
            Color::BrightCyan => "106".to_owned(),
            Color::BrightWhite => "107".to_owned(),
            Color::Color256(i) => indexed_code("48;5;", i),
            Color::RGB(r, g, b) => rgb_code("48;2;", r, g, b),
        }
    }
}

/// Foreground and background colors plus the boolean text attributes.
#[derive(Clone, Copy, PartialEq, Eq, Structural, Debug)]
pub struct Style {
    pub fg: Color,
    pub bg: Color,
    pub bold: bool,
    pub faint: bool,
    pub italic: bool,
    pub underline: bool,
    pub strike: bool,
    pub reverse: bool,
}

/// The default style: both colors unset, no attribute.
pub open spec fn default_style() -> Style {
    Style {
        fg: Color::Unset,
        bg: Color::Unset,
        bold: false,
        faint: false,
        italic: false,
        underline: false,
        strike: false,
        reverse: false,
    }
}

/// The parameters joined by `;`.
#[verifier::opaque]
pub open spec fn join(parts: Seq<Seq<char>>) -> Seq<char>
    decreases parts.len(),
{
    if parts.len() == 0 {
        Seq::empty()
    } else if parts.len() == 1 {
        parts[0]
    } else {
        join(parts.drop_last()) + ";"@ + parts.last()
    }
}

/// `parts` followed by `p` when `cond` holds.
#[verifier::opaque]
pub open spec fn push_if(parts: Seq<Seq<char>>, cond: bool, p: Seq<char>) -> Seq<Seq<char>> {
    if cond {
        parts.push(p)
    } else {
        parts
    }
}

/// One SGR action: what a single parameter does to the terminal's style.
pub enum Sgr {
    Fg(Color),
    Bg(Color),
    Bold,
    Faint,
    /// Normal intensity: bold and faint both off (parameter 22).
    NormalWeight,
    Italic(bool),
    Underline(bool),
    Reverse(bool),
    Strike(bool),
}

/// The SGR parameter of an action.
pub open spec fn sgr_code(a: Sgr) -> Seq<char> {
    match a {
        Sgr::Fg(c) => fg_code(c),
        Sgr::Bg(c) => bg_code(c),
        Sgr::Bold => "1"@,
        Sgr::Faint => "2"@,
        Sgr::NormalWeight => "22"@,
        Sgr::Italic(on) => if on { "3"@ } else { "23"@ },
        Sgr::Underline(on) => if on { "4"@ } else { "24"@ },
        Sgr::Reverse(on) => if on { "7"@ } else { "27"@ },
        Sgr::Strike(on) => if on { "9"@ } else { "29"@ },
    }
}

/// The parameters of a list of actions.
pub open spec fn codes(acts: Seq<Sgr>) -> Seq<Seq<char>> {
    acts.map_values(|a: Sgr| sgr_code(a))
}

/// The terminal's style after it applies action `a` in style `st`.
pub open spec fn apply_sgr(st: Style, a: Sgr) -> Style {
    match a {
        Sgr::Fg(c) => Style { fg: c, ..st },
        Sgr::Bg(c) => Style { bg: c, ..st },
        Sgr::Bold => Style { bold: true, ..st },
        Sgr::Faint => Style { faint: true, ..st },
        Sgr::NormalWeight => Style { bold: false, faint: false, ..st },
        Sgr::Italic(on) => Style { italic: on, ..st },
        Sgr::Underline(on) => Style { underline: on, ..st },
        Sgr::Reverse(on) => Style { reverse: on, ..st },
        Sgr::Strike(on) => Style { strike: on, ..st },
    }
}

/// The terminal's style after it applies `acts` in order, starting in `st`.
pub open spec fn apply_all(st: Style, acts: Seq<Sgr>) -> Style
    decreases acts.len(),
{
    if acts.len() == 0 {
        st
    } else {
        apply_sgr(apply_all(st, acts.drop_last()), acts.last())
    }
}

/// `acts` followed by `a` when `cond` holds.
#[verifier::opaque]
pub open spec fn push_act(acts: Seq<Sgr>, cond: bool, a: Sgr) -> Seq<Sgr> {
    if cond {
        acts.push(a)
    } else {
        acts
    }
}

/// Whether going from `was` to `now` turns bold or faint off: the only way
/// to do so is parameter 22, which turns both off.
pub open spec fn weight_cleared(now: Style, was: Style) -> bool {
    (was.bold && !now.bold) || (was.faint && !now.faint)
}

/// The color and intensity actions of `diff_actions`: each color that
/// changed; then, when bold or faint goes off, normal intensity followed by
/// whichever of bold and faint stays on; else bold or faint if it comes on.
pub open spec fn color_weight_actions(now: Style, was: Style) -> Seq<Sgr> {
    let cleared = weight_cleared(now, was);
    let a = push_act(Seq::empty(), now.fg != was.fg, Sgr::Fg(now.fg));
    let a = push_act(a, now.bg != was.bg, Sgr::Bg(now.bg));
    let a = push_act(a, cleared, Sgr::NormalWeight);
    let a = push_act(a, now.bold && (cleared || !was.bold), Sgr::Bold);
    push_act(a, now.faint && (cleared || !was.faint), Sgr::Faint)
}

/// The actions that turn style `was` into style `now`, in the order
/// foreground, background, intensity, italic, underline, reverse, strike;
/// an attribute that did not change is left alone.
pub open spec fn diff_actions(now: Style, was: Style) -> Seq<Sgr> {
    let a = color_weight_actions(now, was);
    let a = push_act(a, now.italic != was.italic, Sgr::Italic(now.italic));
    let a = push_act(a, now.underline != was.underline, Sgr::Underline(now.underline));
    let a = push_act(a, now.reverse != was.reverse, Sgr::Reverse(now.reverse));
    push_act(a, now.strike != was.strike, Sgr::Strike(now.strike))
}

/// The parameters that turn style `was` into style `now`.
pub open spec fn diff_parts(now: Style, was: Style) -> Seq<Seq<char>> {
    codes(diff_actions(now, was))
}

/// The escape sequence that turns style `was` into style `now`: empty when
/// they are equal, else one SGR sequence holding only the changes.
pub open spec fn diff_seq(now: Style, was: Style) -> Seq<char> {
    if now == was {
        Seq::empty()
    } else {
        "\x1b["@ + join(diff_parts(now, was)) + "m"@
    }
}

/// The full encoding of a style: the changes from the default style, so the
/// default style itself encodes to nothing.
pub open spec fn full_seq(s: Style) -> Seq<char> {
    diff_seq(s, default_style())
}

proof fn lemma_codes_push_act(acts: Seq<Sgr>, cond: bool, a: Sgr)
    ensures
        codes(push_act(acts, cond, a)) == push_if(codes(acts), cond, sgr_code(a)),
        push_act(acts, cond, a).len() == push_if(codes(acts), cond, sgr_code(a)).len(),
{
    reveal(push_act);
    reveal(push_if);
    assert(codes(acts.push(a)) =~= codes(acts).push(sgr_code(a)));
}

proof fn lemma_apply_push_act(st: Style, acts: Seq<Sgr>, cond: bool, a: Sgr)
    ensures
        apply_all(st, push_act(acts, cond, a)) == if cond {
            apply_sgr(apply_all(st, acts), a)
        } else {
            apply_all(st, acts)
        },
{
    reveal(push_act);
    if cond {
        assert(acts.push(a).drop_last() =~= acts);
    }
}

proof fn lemma_apply_concat(st: Style, a: Seq<Sgr>, b: Seq<Sgr>)
    ensures
        apply_all(st, a + b) == apply_all(apply_all(st, a), b),
    decreases b.len(),
{
    if b.len() == 0 {
        assert(a + b =~= a);
    } else {
        assert((a + b).drop_last() =~= a + b.drop_last());
        lemma_apply_concat(st, a, b.drop_last());
    }
}

proof fn lemma_join_push(parts: Seq<Seq<char>>, p: Seq<char>)
    ensures
        join(parts.push(p)) == if parts.len() == 0 { p } else { join(parts) + ";"@ + p },
        join(Seq::empty()) == Seq::<char>::empty(),
{
    reveal(join);
    assert(parts.push(p).drop_last() =~= parts);
}

/// Appends parameter `part` to an SGR sequence being built, after a `;`
/// unless it is the first.
fn add_part(s: &mut String, parts: Ghost<Seq<Seq<char>>>, first: bool, part: &str)
    requires
        old(s)@ == "\x1b["@ + join(parts@),
        first == (parts@.len() == 0),
    ensures
        final(s)@ == "\x1b["@ + join(parts@.push(part@)),
{
    proof {
        lemma_join_push(parts@, part@);
    }
    if !first {
        push_str(s, ";");
    }
    push_str(s, part);
    proof {
        if parts@.len() > 0 {
            assert(final(s)@ =~= "\x1b["@ + join(parts@.push(part@)));
        } else {
            assert(parts@ =~= Seq::empty());
            assert(final(s)@ =~= "\x1b["@ + join(parts@.push(part@)));
        }
    }
}

/// Appends parameter `part` when `cond` holds; returns whether the sequence
/// still holds no parameter.
fn add_opt(s: &mut String, parts: Ghost<Seq<Seq<char>>>, first: bool, cond: bool, part: &str) -> (f: bool)
    requires
        old(s)@ == "\x1b["@ + join(parts@),
        first == (parts@.len() == 0),
    ensures
        final(s)@ == "\x1b["@ + join(push_if(parts@, cond, part@)),
        f == (push_if(parts@, cond, part@).len() == 0),
{
    reveal(push_if);
    if cond {
        add_part(s, parts, first, part);
        false
    } else {
        first
    }
}

/// `on` when `flag` is set, else `off`.
fn pick<'a>(flag: bool, on: &'a str, off: &'a str) -> (r: &'a str)
    ensures
        r@ == if flag { on@ } else { off@ },
{
    if flag {
        on
    } else {
        off
    }
}

/// Appends the parameter of action `a` when `cond` holds; returns whether
/// the sequence still holds no parameter.
fn add_act(s: &mut String, acts: Ghost<Seq<Sgr>>, first: bool, cond: bool, a: Ghost<Sgr>, part: &str) -> (f: bool)
    requires
        old(s)@ == "\x1b["@ + join(codes(acts@)),
        first == (acts@.len() == 0),
        part@ == sgr_code(a@),
    ensures
        final(s)@ == "\x1b["@ + join(codes(push_act(acts@, cond, a@))),
        f == (push_act(acts@, cond, a@).len() == 0),
{
    proof {
        lemma_codes_push_act(acts@, cond, a@);
        assert(codes(acts@).len() == acts@.len());
    }
    add_opt(s, Ghost(codes(acts@)), first, cond, part)
}

/// `"\x1b["` followed by the color and intensity parameters that turn
/// `other` into `this`; also whether there were none.
fn sgr_color_weight(this: Style, other: Style) -> (r: (String, bool))
    ensures
        r.0@ == "\x1b["@ + join(codes(color_weight_actions(this, other))),
        r.1 == (color_weight_actions(this, other).len() == 0),
{
    let mut s = "\x1b[".to_owned();
    let ghost a0: Seq<Sgr> = Seq::empty();
    proof {
        lemma_join_push(Seq::empty(), Seq::empty());
        assert(codes(a0) =~= Seq::<Seq<char>>::empty());
    }
    assert(s@ =~= "\x1b["@ + join(codes(a0)));
    let fg = this.fg.foreground();
    let bg = this.bg.background();
    let cleared = (other.bold && !this.bold) || (other.faint && !this.faint);
    let f = add_act(&mut s, Ghost(a0), true, this.fg != other.fg, Ghost(Sgr::Fg(this.fg)), fg.as_str());
    let ghost a1 = push_act(a0, this.fg != other.fg, Sgr::Fg(this.fg));
    let f = add_act(&mut s, Ghost(a1), f, this.bg != other.bg, Ghost(Sgr::Bg(this.bg)), bg.as_str());
    let ghost a2 = push_act(a1, this.bg != other.bg, Sgr::Bg(this.bg));
    let f = add_act(&mut s, Ghost(a2), f, cleared, Ghost(Sgr::NormalWeight), "22");
    let ghost a3 = push_act(a2, cleared, Sgr::NormalWeight);
    let on = this.bold && (cleared || !other.bold);
    let f = add_act(&mut s, Ghost(a3), f, on, Ghost(Sgr::Bold), "1");
    let ghost a4 = push_act(a3, on, Sgr::Bold);
    let on = this.faint && (cleared || !other.faint);
    let f = add_act(&mut s, Ghost(a4), f, on, Ghost(Sgr::Faint), "2");
    let ghost a5 = push_act(a4, on, Sgr::Faint);
    assert(a5 == color_weight_actions(this, other));
    (s, f)
}

/// `"\x1b["` followed by the parameters that turn `other` into `this`.
fn sgr_changes(this: Style, other: Style) -> (r: String)
    ensures
        r@ == "\x1b["@ + join(diff_parts(this, other)),
{
    let (mut s, f) = sgr_color_weight(this, other);
    let ghost a5 = color_weight_actions(this, other);
    let code = pick(this.italic, "3", "23");
    let f = add_act(&mut s, Ghost(a5), f, this.italic != other.italic, Ghost(Sgr::Italic(this.italic)), code);
    let ghost a6 = push_act(a5, this.italic != other.italic, Sgr::Italic(this.italic));
    let code = pick(this.underline, "4", "24");
    let f = add_act(
        &mut s,
        Ghost(a6),
        f,
        this.underline != other.underline,
        Ghost(Sgr::Underline(this.underline)),
        code,
    );
    let ghost a7 = push_act(a6, this.underline != other.underline, Sgr::Underline(this.underline));
    let code = pick(this.reverse, "7", "27");
    let f = add_act(&mut s, Ghost(a7), f, this.reverse != other.reverse, Ghost(Sgr::Reverse(this.reverse)), code);
    let ghost a8 = push_act(a7, this.reverse != other.reverse, Sgr::Reverse(this.reverse));
    let code = pick(this.strike, "9", "29");
    add_act(&mut s, Ghost(a8), f, this.strike != other.strike, Ghost(Sgr::Strike(this.strike)), code);
    let ghost a9 = push_act(a8, this.strike != other.strike, Sgr::Strike(this.strike));
    assert(a9 == diff_actions(this, other));
    s
}

impl Style {
    /// The default style: both colors unset, no attribute.
    pub fn default() -> (r: Style)
        ensures
            r == default_style(),
    {
        Style {
            fg: Color::Unset,
            bg: Color::Unset,
            bold: false,
            faint: false,
            italic: false,
            underline: false,
            strike: false,
            reverse: false,
        }
    }

    /// Sets the foreground color.
    pub fn fg(&mut self, fg: Color) -> (r: &mut Self)
        ensures
            *r == (Style { fg, ..*old(self) }),
            *final(self) == *final(r),
    {
        self.fg = fg;
        self
    }

    /// Sets the background color.
    pub fn bg(&mut self, bg: Color) -> (r: &mut Self)
        ensures
            *r == (Style { bg, ..*old(self) }),
            *final(self) == *final(r),
    {
        self.bg = bg;
        self
    }

    /// Sets or clears bold.
    pub fn bold(&mut self, bold: bool) -> (r: &mut Self)
        ensures
            *r == (Style { bold, ..*old(self) }),
            *final(self) == *final(r),
    {
        self.bold = bold;
        self
    }

    /// Sets or clears faint.
    pub fn faint(&mut self, faint: bool) -> (r: &mut Self)
        ensures
            *r == (Style { faint, ..*old(self) }),
            *final(self) == *final(r),
    {
        self.faint = faint;
        self
    }

    /// Sets or clears italic.
    pub fn italic(&mut self, italic: bool) -> (r: &mut Self)
        ensures
            *r == (Style { italic, ..*old(self) }),
            *final(self) == *final(r),
    {
        self.italic = italic;
        self
    }

    /// Sets or clears underline.
    pub fn underline(&mut self, underline: bool) -> (r: &mut Self)
        ensures
            *r == (Style { underline, ..*old(self) }),
            *final(self) == *final(r),
    {
        self.underline = underline;
        self
    }

    /// Sets or clears strike-through.
    pub fn strike(&mut self, strike: bool) -> (r: &mut Self)
        ensures
            *r == (Style { strike, ..*old(self) }),
            *final(self) == *final(r),
    {
        self.strike = strike;
        self
    }

    /// Sets or clears reverse video.
    pub fn reverse(&mut self, reverse: bool) -> (r: &mut Self)
        ensures
            *r == (Style { reverse, ..*old(self) }),
            *final(self) == *final(r),
    {
        self.reverse = reverse;
        self
    }

    /// The full encoding of this style: the changes from the default
    /// style, so the default style encodes to nothing.
    pub fn to_string(self) -> (r: String)
        ensures
            r@ == full_seq(self),
    {
        self.diff_to_string(Style::default())
    }

    /// The shortest sequence that turns the terminal's current style `other`
    /// into this style; empty when they are equal.
    pub fn diff_to_string(self, other: Style) -> (r: String)
        ensures
            r@ == diff_seq(self, other),
    {
        if self == other {
            return String::new();
        }
        let mut s = sgr_changes(self, other);
        push_str(&mut s, "m");
        s
    }
}

/// Diff-encoding a style against itself yields nothing.
pub proof fn lemma_diff_self_empty(s: Style)
    ensures
        diff_seq(s, s) == Seq::<char>::empty(),
{
}

/// Diff-encoding against the default style gives the same characters as the
/// full encoding.
pub proof fn lemma_diff_from_default_is_full(s: Style)
    ensures
        diff_seq(s, default_style()) == full_seq(s),
{
}

/// A terminal in style `was` that applies the parameters of the diff from
/// `was` to `now` ends in style `now`.
pub proof fn lemma_diff_reaches(now: Style, was: Style)
    ensures
        apply_all(was, diff_actions(now, was)) == now,
{
    let cleared = weight_cleared(now, was);
    let a0: Seq<Sgr> = Seq::empty();
    let a1 = push_act(a0, now.fg != was.fg, Sgr::Fg(now.fg));
    let a2 = push_act(a1, now.bg != was.bg, Sgr::Bg(now.bg));
    let a3 = push_act(a2, cleared, Sgr::NormalWeight);
    let a4 = push_act(a3, now.bold && (cleared || !was.bold), Sgr::Bold);
    let a5 = push_act(a4, now.faint && (cleared || !was.faint), Sgr::Faint);
    let a6 = push_act(a5, now.italic != was.italic, Sgr::Italic(now.italic));
    let a7 = push_act(a6, now.underline != was.underline, Sgr::Underline(now.underline));
    let a8 = push_act(a7, now.reverse != was.reverse, Sgr::Reverse(now.reverse));
    let a9 = push_act(a8, now.strike != was.strike, Sgr::Strike(now.strike));
    lemma_apply_push_act(was, a0, now.fg != was.fg, Sgr::Fg(now.fg));
    lemma_apply_push_act(was, a1, now.bg != was.bg, Sgr::Bg(now.bg));
    lemma_apply_push_act(was, a2, cleared, Sgr::NormalWeight);
    lemma_apply_push_act(was, a3, now.bold && (cleared || !was.bold), Sgr::Bold);
    lemma_apply_push_act(was, a4, now.faint && (cleared || !was.faint), Sgr::Faint);
    lemma_apply_push_act(was, a5, now.italic != was.italic, Sgr::Italic(now.italic));
    lemma_apply_push_act(was, a6, now.underline != was.underline, Sgr::Underline(now.underline));
    lemma_apply_push_act(was, a7, now.reverse != was.reverse, Sgr::Reverse(now.reverse));
    lemma_apply_push_act(was, a8, now.strike != was.strike, Sgr::Strike(now.strike));
    assert(a9 == diff_actions(now, was));
}

/// The actions of the diffs between consecutive styles of `ss`, in order.
pub open spec fn replay_actions(ss: Seq<Style>) -> Seq<Sgr>
    decreases ss.len(),
{
    if ss.len() <= 1 {
        Seq::empty()
    } else {
        replay_actions(ss.drop_last()) + diff_actions(ss.last(), ss[ss.len() - 2])
    }
}

/// Replaying the diff encodings of a run of styles from the default style
/// leaves the terminal in the same style as the full encoding of the last
/// one applied after a reset.
pub proof fn lemma_replay_matches_full(ss: Seq<Style>)
    requires
        ss.len() >= 1,
        ss[0] == default_style(),
    ensures
        apply_all(default_style(), replay_actions(ss)) == ss.last(),
        apply_all(default_style(), diff_actions(ss.last(), default_style())) == ss.last(),
    decreases ss.len(),
{
    lemma_diff_reaches(ss.last(), default_style());
    if ss.len() > 1 {
        let p = ss.drop_last();
        lemma_replay_matches_full(p);
        lemma_apply_concat(default_style(), replay_actions(p), diff_actions(ss.last(), ss[ss.len() - 2]));
        lemma_diff_reaches(ss.last(), ss[ss.len() - 2]);
    }
}

} // verus!
