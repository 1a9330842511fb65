//! Drawing a buffer into the renderer's grid: title bar, line numbers, the
//! visible text, the status bar and the menu prompt.

use vstd::prelude::*;
use crate::grid::{Cell, Renderer, flat, in_rect, lemma_index_in_grid, render_seq};
use vstd::arithmetic::div_mod::{lemma_fundamental_div_mod, lemma_mod_bound};
use crate::strings::{chars_of, dec, dec_string, push_str};
use crate::style::{Color, Style};
use crate::text::{Buffer, MenuState, MenuView, line_count, row_len, row_start};

verus! {

/// The colors of the editor's roles.
#[derive(Clone, Copy, PartialEq, Eq, Structural, Debug)]
pub struct Palette {
    pub background: Color,
    pub head: Color,
    pub current: Color,
    pub foreground: Color,
    pub comment: Color,
    pub red: Color,
    pub yellow: Color,
}

impl Palette {
    /// The built-in dark palette.
    pub fn default() -> (r: Palette)
        ensures
            r.background == Color::RGB(40, 42, 54),
            r.head == Color::RGB(68, 71, 90),
            r.current == Color::RGB(50, 52, 64),
            r.foreground == Color::RGB(248, 248, 242),
            r.comment == Color::RGB(98, 114, 164),
            r.red == Color::RGB(255, 85, 85),
            r.yellow == Color::RGB(241, 250, 140),
    {
        Palette {
            background: Color::RGB(40, 42, 54),
            head: Color::RGB(68, 71, 90),
            current: Color::RGB(50, 52, 64),
            foreground: Color::RGB(248, 248, 242),
            comment: Color::RGB(98, 114, 164),
            red: Color::RGB(255, 85, 85),
            yellow: Color::RGB(241, 250, 140),
        }
    }
}

/// Relies on `char::from_u32`: the character with scalar value `u`, which
/// exists exactly when `u` is below `0xD800` or in `0xE000..=0x10FFFF`.
#[verifier::external_body]
fn char_from_u32(u: u32) -> (r: Option<char>)
    ensures
        r is Some <==> (u < 0xD800 || (0xE000 <= u && u <= 0x10FFFF)),
        r matches Some(c) ==> c as u32 == u,
{
    char::from_u32(u)
}

/// The control picture of a control character: `U+2400` plus its value.
fn control_picture(c: char) -> (r: char)
    requires
        (c as u32) < 0x20,
    ensures
        r as u32 == c as u32 + 0x2400,
{
    match char_from_u32(c as u32 + 0x2400) {
        Some(p) => p,
        None => c,
    }
}

proof fn lemma_in_grid(w: int, h: int, k: int)
    requires
        0 <= w,
        0 <= h,
        0 <= k < w * h,
    ensures
        in_rect(w, k, 0, 0, w, h),
{
    assert(w > 0) by (nonlinear_arith)
        requires
            0 <= k < w * h,
            0 <= w,
            0 <= h,
    ;
    lemma_fundamental_div_mod(k, w);
    lemma_mod_bound(k, w);
    let q = k / w;
    assert(0 <= q < h) by (nonlinear_arith)
        requires
            k == w * q + k % w,
            0 <= k % w < w,
            0 <= k < w * h,
            w > 0,
    ;
}

/// The final path component of `p`, if it has one.
pub uninterp spec fn file_name_of(p: Seq<char>) -> Option<Seq<char>>;

/// Relies on `std::path::Path::file_name`: the last component of the path,
/// none when the path ends in `..` or is a root; a component that is not
/// valid Unicode is converted lossily.
#[verifier::external_body]
fn file_name(p: &str) -> (r: Option<String>)
    ensures
        match r {
            Some(s) => file_name_of(p@) == Some(s@),
            None => file_name_of(p@) is None,
        },
{
    std::path::Path::new(p).file_name().map(|q| q.to_string_lossy().to_string())
}

/// A style with the given colors and no attribute.
fn colors(fg: Color, bg: Color) -> (r: Style)
    ensures
        r.fg == fg,
        r.bg == bg,
        !r.bold && !r.faint && !r.italic && !r.underline && !r.strike && !r.reverse,
{
    Style { fg, bg, ..Style::default() }
}

/// `n` in decimal, with a minus sign when negative.
fn signed_string(n: i64) -> (r: String)
    ensures
        n >= 0 ==> r@ == dec(n as nat),
        n < 0 ==> r@ == "-"@ + dec((-n) as nat),
{
    if n >= 0 {
        dec_string(n as u64)
    } else {
        let mut s = "-".to_owned();
        let m: u64 = if n == i64::MIN { 0x8000_0000_0000_0000 } else { (-n) as u64 };
        push_str(&mut s, dec_string(m).as_str());
        s
    }
}

/// Whether row `j`, column `k` of the text area shows a character of `t`
/// when the view is scrolled by `scroll`.
pub open spec fn shown(t: Seq<char>, scroll: (int, int), j: int, k: int) -> bool {
    0 <= j + scroll.1 < line_count(t) && 0 <= k && scroll.0 + k < row_len(t, (j + scroll.1) as nat)
}

/// The character of `t` at row `j`, column `k` of the text area.
pub open spec fn shown_char(t: Seq<char>, scroll: (int, int), j: int, k: int) -> char {
    t[row_start(t, (j + scroll.1) as nat) + scroll.0 + k]
}

/// The first `rows` rows of the text area of a grid `w` wide, up to column
/// `cols`, hold the characters of `t` they show.
pub open spec fn text_drawn(
    cells: Seq<Cell>,
    w: int,
    t: Seq<char>,
    scroll: (int, int),
    rows: int,
    cols: int,
) -> bool {
    forall|j: int, k: int|
        0 <= j < rows && 0 <= k < cols && #[trigger] shown(t, scroll, j, k) ==> cells[flat(
            w,
            5 + k,
            j + 1,
        )].c == shown_char(t, scroll, j, k)
}

/// Whether row `j` of the text area shows line number cell `i`: the row
/// holds a line of `t` when the view is scrolled by `scroll`.
pub open spec fn labelled(t: Seq<char>, scroll: (int, int), j: int, i: int) -> bool {
    0 <= j + scroll.1 < line_count(t) && 0 <= i < 4
}

/// The first `rows` rows of the text area of a grid `w` wide hold, in their
/// first four cells, the label of the line number they show.
pub open spec fn labels_drawn(cells: Seq<Cell>, w: int, t: Seq<char>, scroll: (int, int), rows: int) -> bool {
    forall|j: int, i: int|
        0 <= j < rows && #[trigger] labelled(t, scroll, j, i) ==> cells[flat(w, i, j + 1)].c == line_label(
            (j + scroll.1 + 1) as nat,
        )[i]
}

/// A cell at column 4 or beyond leaves the labels as they are.
proof fn lemma_labels_kept(
    c0: Seq<Cell>,
    c1: Seq<Cell>,
    w: int,
    h: int,
    t: Seq<char>,
    sc: (int, int),
    rows: int,
)
    requires
        c0.len() == w * h,
        c1.len() == c0.len(),
        w >= 5,
        rows + 2 <= h,
        labels_drawn(c0, w, t, sc, rows),
        forall|f: int| 0 <= f < c0.len() && f % w < 4 ==> #[trigger] c1[f] == c0[f],
    ensures
        labels_drawn(c1, w, t, sc, rows),
{
    assert forall|j: int, i: int| 0 <= j < rows && #[trigger] labelled(t, sc, j, i) implies c1[flat(w, i, j + 1)].c
        == line_label((j + sc.1 + 1) as nat)[i] by {
        lemma_index_in_grid(w, h, i, j + 1);
        assert(c1[flat(w, i, j + 1)] == c0[flat(w, i, j + 1)]);
    }
}

proof fn lemma_update_keeps_left(c0: Seq<Cell>, w: int, h: int, x: int, y: int, v: Cell)
    requires
        c0.len() == w * h,
        4 <= x < w,
        0 <= y < h,
    ensures
        forall|f: int| 0 <= f < c0.len() && f % w < 4 ==> #[trigger] c0.update(flat(w, x, y), v)[f] == c0[f],
{
    lemma_index_in_grid(w, h, x, y);
}

proof fn lemma_line_label_len(n: nat)
    ensures
        line_label(n).len() == 4,
{
}

proof fn lemma_flat_injective(w: int, h: int, x1: int, y1: int, x2: int, y2: int)
    requires
        0 <= x1 < w,
        0 <= x2 < w,
        0 <= y1 < h,
        0 <= y2 < h,
        y1 * w + x1 == y2 * w + x2,
    ensures
        x1 == x2 && y1 == y2,
{
    lemma_index_in_grid(w, h, x1, y1);
    lemma_index_in_grid(w, h, x2, y2);
}

/// Cell `now` shows the character of `was`: a control character as its
/// picture on the alert background `red`, any other as itself.
pub open spec fn pictured(was: Cell, now: Cell, red: Color) -> bool {
    if (was.c as u32) < 0x20 {
        now.c as u32 == was.c as u32 + 0x2400 && now.s == (Style { bg: red, ..was.s })
    } else {
        now.c == was.c
    }
}

/// The first `rows` rows of the text area, up to column `cols`, show the
/// characters of `t` from the scroll offset, control characters as their
/// pictures (`U+2400` plus their value) on the alert background `red`.
pub open spec fn text_shows(
    cells: Seq<Cell>,
    w: int,
    t: Seq<char>,
    scroll: (int, int),
    rows: int,
    cols: int,
    red: Color,
) -> bool {
    forall|j: int, k: int|
        0 <= j < rows && 0 <= k < cols && #[trigger] shown(t, scroll, j, k) ==> {
            let ch = shown_char(t, scroll, j, k);
            let c = cells[flat(w, 5 + k, j + 1)].c;
            if (ch as u32) < 0x20 {
                c as u32 == ch as u32 + 0x2400 && cells[flat(w, 5 + k, j + 1)].s.bg == red
            } else {
                c == ch
            }
        }
}

proof fn lemma_same_chars_drawn(
    c1: Seq<Cell>,
    f: int,
    cell: Cell,
    w: int,
    h: int,
    t: Seq<char>,
    sc: (int, int),
    rows: int,
    cols: int,
)
    requires
        0 <= f < c1.len(),
        c1.len() == w * h,
        w == cols + 5,
        h == rows + 2,
        cell.c == c1[f].c,
        text_drawn(c1, w, t, sc, rows, cols),
    ensures
        text_drawn(c1.update(f, cell), w, t, sc, rows, cols),
{
    let c2 = c1.update(f, cell);
    assert forall|j: int, k: int|
        0 <= j < rows && 0 <= k < cols && #[trigger] shown(t, sc, j, k) implies c2[flat(w, 5 + k, j + 1)].c
        == shown_char(t, sc, j, k) by {
        let i = flat(w, 5 + k, j + 1);
        lemma_index_in_grid(w, h, 5 + k, j + 1);
        if i == f {
            assert(c2[i].c == c1[i].c);
        }
    }
}

proof fn lemma_pictures_shown(
    c2: Seq<Cell>,
    c3: Seq<Cell>,
    w: int,
    h: int,
    t: Seq<char>,
    sc: (int, int),
    th: int,
    tw: int,
    red: Color,
)
    requires
        c2.len() == w * h,
        c3.len() == c2.len(),
        w == tw + 5,
        h == th + 2,
        0 <= tw,
        0 <= th,
        text_drawn(c2, w, t, sc, th, tw),
        forall|i: int| 0 <= i < c2.len() && in_rect(w, i, 5, 1, tw, th) ==> #[trigger] pictured(c2[i], c3[i], red),
    ensures
        text_shows(c3, w, t, sc, th, tw, red),
{
    assert forall|j: int, k: int| 0 <= j < th && 0 <= k < tw && #[trigger] shown(t, sc, j, k) implies {
        let ch = shown_char(t, sc, j, k);
        let c = c3[flat(w, 5 + k, j + 1)].c;
        if (ch as u32) < 0x20 {
            c as u32 == ch as u32 + 0x2400 && c3[flat(w, 5 + k, j + 1)].s.bg == red
        } else {
            c == ch
        }
    } by {
        let i = flat(w, 5 + k, j + 1);
        lemma_index_in_grid(w, h, 5 + k, j + 1);
        assert(in_rect(w, i, 5, 1, tw, th));
        assert(pictured(c2[i], c3[i], red));
    }
}

proof fn lemma_draw_step(
    c0: Seq<Cell>,
    w: int,
    h: int,
    t: Seq<char>,
    sc: (int, int),
    j: int,
    k: int,
    tw: int,
    v: Cell,
)
    requires
        c0.len() == w * h,
        w == tw + 5,
        0 <= k < tw,
        0 <= j,
        j + 1 < h,
        text_drawn(c0, w, t, sc, j, tw),
        forall|k2: int|
            0 <= k2 < k && #[trigger] shown(t, sc, j, k2) ==> c0[flat(w, 5 + k2, j + 1)].c == shown_char(
                t,
                sc,
                j,
                k2,
            ),
        v.c == shown_char(t, sc, j, k),
    ensures
        text_drawn(c0.update(flat(w, 5 + k, j + 1), v), w, t, sc, j, tw),
        forall|k2: int|
            0 <= k2 < k + 1 && #[trigger] shown(t, sc, j, k2) ==> c0.update(flat(w, 5 + k, j + 1), v)[flat(
                w,
                5 + k2,
                j + 1,
            )].c == shown_char(t, sc, j, k2),
{
    let f0 = flat(w, 5 + k, j + 1);
    let c1 = c0.update(f0, v);
    lemma_index_in_grid(w, h, 5 + k, j + 1);
    assert forall|j2: int, k2: int|
        0 <= j2 < j && 0 <= k2 < tw && #[trigger] shown(t, sc, j2, k2) implies c1[flat(w, 5 + k2, j2 + 1)].c
        == shown_char(t, sc, j2, k2) by {
        lemma_index_in_grid(w, h, 5 + k2, j2 + 1);
        if flat(w, 5 + k2, j2 + 1) == f0 {
            lemma_flat_injective(w, h, 5 + k2, j2 + 1, 5 + k, j + 1);
        }
    }
    assert forall|k2: int|
        0 <= k2 < k + 1 && #[trigger] shown(t, sc, j, k2) implies c1[flat(w, 5 + k2, j + 1)].c == shown_char(
        t,
        sc,
        j,
        k2,
    ) by {
        lemma_index_in_grid(w, h, 5 + k2, j + 1);
        if k2 < k && flat(w, 5 + k2, j + 1) == f0 {
            lemma_flat_injective(w, h, 5 + k2, j + 1, 5 + k, j + 1);
        }
    }
}

/// The line number label: the number right-aligned in four columns, or its
/// last four digits.
pub open spec fn line_label(n: nat) -> Seq<char> {
    let d = dec(n);
    if d.len() >= 4 {
        d.skip(d.len() - 4)
    } else {
        Seq::new((4 - d.len()) as nat, |i: int| ' ') + d
    }
}

/// The line number label of `n`.
fn line_label_string(n: u64) -> (r: String)
    ensures
        r@ == line_label(n as nat),
{
    let d = chars_of(dec_string(n).as_str());
    let mut out: Vec<char> = Vec::new();
    if d.len() >= 4 {
        let mut i = d.len() - 4;
        while i < d.len()
            invariant
                d@.len() >= 4,
                d.len() - 4 <= i <= d@.len(),
                out@ == d@.subrange(d@.len() - 4, i as int),
            decreases d@.len() - i,
        {
            out.push(d[i]);
            i = i + 1;
            assert(out@ =~= d@.subrange(d@.len() - 4, i as int));
        }
        assert(out@ =~= d@.skip(d@.len() - 4));
    } else {
        let pad = 4 - d.len();
        let mut i: usize = 0;
        while i < pad
            invariant
                i <= pad,
                out@ == Seq::new(i as nat, |k: int| ' '),
            decreases pad - i,
        {
            out.push(' ');
            i = i + 1;
            assert(out@ =~= Seq::new(i as nat, |k: int| ' '));
        }
        let mut j: usize = 0;
        while j < d.len()
            invariant
                j <= d@.len(),
                out@ == Seq::new(pad as nat, |k: int| ' ') + d@.take(j as int),
            decreases d@.len() - j,
        {
            out.push(d[j]);
            j = j + 1;
            assert(out@ =~= Seq::new(pad as nat, |k: int| ' ') + d@.take(j as int));
        }
        assert(d@.take(j as int) =~= d@);
    }
    crate::strings::string_of(&out)
}

/// `a` if it is below `b`, else `b`.
pub open spec fn min(a: int, b: int) -> int {
    if a < b {
        a
    } else {
        b
    }
}

/// Where the terminal cursor stands for a menu prompt on a `w` by `h`
/// screen: after the prompt in the status bar; none in plain editing.
pub open spec fn menu_cursor(m: MenuView, w: int, h: int) -> Option<(int, int)> {
    match m {
        MenuView::Inactive => None,
        MenuView::Open(_) => Some((2, h - 1)),
        MenuView::Command(s) => Some((min(s.len() as int + 2, w - 1), h - 1)),
        MenuView::Save(s) => Some((min(s.len() as int + 2, w - 1), h - 1)),
        MenuView::Load(s) => Some((min(s.len() as int + 2, w - 1), h - 1)),
        MenuView::SaveFailed => Some((19, h - 1)),
        MenuView::ForceLoad => Some((19, h - 1)),
        MenuView::Overwrite(_) => Some((13, h - 1)),
    }
}

/// The column after a prompt of `n` characters, kept on the screen.
fn prompt_end(n: usize, w: u32) -> (r: u32)
    requires
        w >= 10,
    ensures
        r == min(n + 2, w - 1),
{
    if (n as u64) < (w as u64) - 3 {
        (n + 2) as u32
    } else {
        w - 1
    }
}

/// Writes `text` at column `x` of the status row.
fn put_status(r: &mut Renderer, x: u32, text: &str)
    requires
        old(r).wf(),
        old(r).buffer.height >= 3,
    ensures
        final(r).wf(),
        final(r).buffer.width == old(r).buffer.width,
        final(r).buffer.height == old(r).buffer.height,
        final(r).backbuffer == old(r).backbuffer,
{
    let h = r.buffer.height;
    r.put_text(x, h - 1, text.to_owned());
}

/// Sets the character of the cell at `(x, y)`, keeping its style.
fn put_char(r: &mut Renderer, x: u32, y: u32, c: char)
    requires
        old(r).wf(),
        x < old(r).buffer.width,
        y < old(r).buffer.height,
    ensures
        final(r).wf(),
        final(r).buffer.width == old(r).buffer.width,
        final(r).buffer.height == old(r).buffer.height,
        final(r).backbuffer == old(r).backbuffer,
        final(r).buffer.cells@ == old(r).buffer.cells@.update(
            flat(old(r).buffer.width as int, x as int, y as int),
            Cell { c, s: old(r).buffer.cells@[flat(old(r).buffer.width as int, x as int, y as int)].s },
        ),
{
    let cell = r.get(x, y);
    r.set(x, y, Cell { c, s: cell.s });
}

impl Buffer {
    /// Draws a frame of this buffer and sends it: draws into the renderer's
    /// grid (which the caller has just cleared), renders it against what the
    /// terminal shows, records it as shown, and returns the terminal output,
    /// followed on a screen of 10 by 3 or more by the sequence that places
    /// the terminal cursor. See `draw` for what the grid holds.
    pub fn render(&self, r: &mut Renderer, pal: Palette, cursor_on: bool) -> (out: String)
        requires
            self.wf(),
            old(r).wf(),
            old(r).buffer.width <= 0xffff,
            old(r).buffer.height <= 0xffff,
        ensures
            final(r).wf(),
            final(r).buffer.width == old(r).buffer.width,
            final(r).buffer.height == old(r).buffer.height,
            final(r).backbuffer.cells@ == final(r).buffer.cells@,
            final(r).backbuffer.width == final(r).buffer.width,
            final(r).backbuffer.height == final(r).buffer.height,
            (old(r).buffer.width < 10 || old(r).buffer.height < 3) ==> out@ == render_seq(
                final(r).buffer,
                old(r).backbuffer,
            ) && forall|k: int|
                0 <= k < final(r).buffer.cells@.len() ==> final(r).buffer.cells@[k] == (Cell {
                    c: '!',
                    s: crate::style::default_style(),
                }),
            (old(r).buffer.width >= 10 && old(r).buffer.height >= 3) ==> out@ == render_seq(
                final(r).buffer,
                old(r).backbuffer,
            ) + cursor_seq(
                old(r).buffer.height as int,
                menu_cursor(self.menu@, old(r).buffer.width as int, old(r).buffer.height as int),
            ) && text_shows(
                final(r).buffer.cells@,
                old(r).buffer.width as int,
                self.text(),
                self@.scroll,
                old(r).buffer.height - 2,
                old(r).buffer.width - 5,
                pal.red,
            ) && labels_drawn(
                final(r).buffer.cells@,
                old(r).buffer.width as int,
                self.text(),
                self@.scroll,
                old(r).buffer.height - 2,
            ),
    {
        let cur = self.draw(r, pal, cursor_on);
        let w = r.buffer.width;
        let h = r.buffer.height;
        let mut out = r.render();
        if w >= 10 && h >= 3 {
            push_str(&mut out, cursor_sequence(h, cur).as_str());
        }
        r.flip();
        out
    }

    /// Draws this buffer into the renderer's grid and returns where the
    /// terminal cursor should stand (none while editing: the text cursor is
    /// drawn reversed when `cursor_on`). A screen under 10 by 3 is filled
    /// with `!`.
    fn draw(&self, r: &mut Renderer, pal: Palette, cursor_on: bool) -> (cur: Option<(u32, u32)>)
        requires
            self.wf(),
            old(r).wf(),
            old(r).buffer.width <= 0xffff,
            old(r).buffer.height <= 0xffff,
        ensures
            final(r).wf(),
            final(r).buffer.width == old(r).buffer.width,
            final(r).buffer.height == old(r).buffer.height,
            final(r).backbuffer == old(r).backbuffer,
            (old(r).buffer.width < 10 || old(r).buffer.height < 3) ==> cur is None && forall|k: int|
                0 <= k < final(r).buffer.cells@.len() ==> final(r).buffer.cells@[k] == (Cell {
                    c: '!',
                    s: crate::style::default_style(),
                }),
            (old(r).buffer.width >= 10 && old(r).buffer.height >= 3) ==> match cur {
                Some(p) => menu_cursor(self.menu@, old(r).buffer.width as int, old(r).buffer.height as int)
                    == Some((p.0 as int, p.1 as int)),
                None => menu_cursor(self.menu@, old(r).buffer.width as int, old(r).buffer.height as int) is None,
            },
            (old(r).buffer.width >= 10 && old(r).buffer.height >= 3) ==> text_shows(
                final(r).buffer.cells@,
                old(r).buffer.width as int,
                self.text(),
                self@.scroll,
                old(r).buffer.height - 2,
                old(r).buffer.width - 5,
                pal.red,
            ) && labels_drawn(
                final(r).buffer.cells@,
                old(r).buffer.width as int,
                self.text(),
                self@.scroll,
                old(r).buffer.height - 2,
            ),
    {
        let w = r.buffer.width;
        let h = r.buffer.height;
        if w < 10 || h < 3 {
            r.fill(0, 0, w, h, Cell { c: '!', s: Style::default() });
            proof {
                assert forall|k: int| 0 <= k < old(r).buffer.cells@.len() implies in_rect(
                    w as int,
                    k,
                    0,
                    0,
                    w as int,
                    h as int,
                ) by {
                    lemma_in_grid(w as int, h as int, k);
                }
            }
            return None;
        }
        let tw = w - 5;
        let th = h - 2;
        let fixed = self.fix(self.cursor);
        let cx: i64 = fixed.0 as i64 - self.scroll.0 as i64;
        let cy: i64 = fixed.1 as i64 - self.scroll.1 as i64;
        r.paint(0, h - 1, w, 1, colors(pal.foreground, pal.head));
        r.paint(5, 1, tw, th, colors(pal.foreground, pal.background));
        let cursor: Option<(u32, u32)> = match &self.menu {
            MenuState::Inactive => {
                let mut fmt = signed_string(cy + 1);
                push_str(&mut fmt, ":");
                push_str(&mut fmt, signed_string(cx + 1).as_str());
                let n = chars_of(fmt.as_str()).len();
                let x: u32 = if (n as u64) < (w as u64) - 1 { w - 1 - n as u32 } else { 0 };
                put_status(r, x, fmt.as_str());
                put_char(r, 0, h - 1, '🪶');
                None
            },
            MenuState::Open(message) => {
                put_char(r, 0, h - 1, '🐵');
                let n = chars_of(message.as_str()).len();
                let x: u32 = if (n as u64) < (w as u64) - 1 { w - 1 - n as u32 } else { 0 };
                put_status(r, x, message.as_str());
                Some((2, h - 1))
            },
            MenuState::Command(cmd) => {
                put_char(r, 0, h - 1, '📜');
                put_status(r, 2, cmd.as_str());
                Some((prompt_end(chars_of(cmd.as_str()).len(), w), h - 1))
            },
            MenuState::SaveFailed => {
                put_char(r, 0, h - 1, '❗');
                put_status(r, 2, "Abandon unsaved? ");
                Some((19, h - 1))
            },
            MenuState::Save(path) => {
                put_char(r, 0, h - 1, '💾');
                put_status(r, 2, path.as_str());
                Some((prompt_end(chars_of(path.as_str()).len(), w), h - 1))
            },
            MenuState::Overwrite(_) => {
                put_char(r, 0, h - 1, '💾');
                put_status(r, 2, "Overwrite? ");
                Some((13, h - 1))
            },
            MenuState::Load(path) => {
                put_char(r, 0, h - 1, '📂');
                put_status(r, 2, path.as_str());
                Some((prompt_end(chars_of(path.as_str()).len(), w), h - 1))
            },
            MenuState::ForceLoad => {
                put_char(r, 0, h - 1, '📂');
                put_status(r, 2, "Abandon unsaved? ");
                Some((19, h - 1))
            },
        };
        r.paint(0, 1, 4, th, colors(Color::Unset, pal.comment));
        r.paint(4, 1, 1, th, colors(pal.head, Color::Unset));
        r.paint(0, 0, w, 1, colors(pal.foreground, pal.head));
        let title = match &self.path {
            Some(p) => match file_name(p.as_str()) {
                Some(name) => name,
                None => "<new>".to_owned(),
            },
            None => "<new>".to_owned(),
        };
        let tn = chars_of(title.as_str()).len();
        let half: u64 = (tn as u64) / 2;
        let off: u32 = if half < (w / 2) as u64 { w / 2 - half as u32 } else { 0 };
        r.put_text(off, 0, title);
        if !self.saved {
            r.put_text(w - 1, 0, "M".to_owned());
        }
        if 0 <= cy && cy <= th as i64 {
            r.paint(5, (cy + 1) as u32, w - 5, 1, colors(pal.foreground, pal.current));
            r.paint(0, (cy + 1) as u32, 4, 1, colors(pal.comment, pal.foreground));
        }
        let mut y: u32 = 0;
        while y < th
            invariant
                y <= th,
                th == h - 2,
                h >= 3,
                w >= 10,
                r.wf(),
                r.buffer.width == w,
                r.buffer.height == h,
                r.backbuffer == old(r).backbuffer,
            decreases th - y,
        {
            r.put_text(3, y + 1, "~┃".to_owned());
            y = y + 1;
        }
        self.draw_lines(r, tw, th);
        if self.menu.is_inactive() && 0 <= cx && cx < tw as i64 && 0 <= cy && cy <= th as i64 {
            let cell = r.get((cx + 5) as u32, (cy + 1) as u32);
            let mut s = cell.s;
            s.reverse = cursor_on;
            let ghost c1 = r.buffer.cells@;
            proof {
                lemma_index_in_grid(w as int, h as int, cx + 5, cy + 1);
            }
            r.set((cx + 5) as u32, (cy + 1) as u32, Cell { c: cell.c, s });
            proof {
                lemma_update_keeps_left(c1, w as int, h as int, cx + 5, cy + 1, Cell { c: cell.c, s });
                lemma_labels_kept(c1, r.buffer.cells@, w as int, h as int, self.text(), self@.scroll, th as int);
                lemma_same_chars_drawn(
                    c1,
                    flat(w as int, cx + 5, cy + 1),
                    Cell { c: cell.c, s },
                    w as int,
                    h as int,
                    self.text(),
                    self@.scroll,
                    th as int,
                    tw as int,
                );
            }
        }
        let red = pal.red;
        let pictures = |c: Cell, x: u32, y: u32| -> (out: Cell)
            ensures
                pictured(c, out, red),
            {
                if (c.c as u32) < 0x20 {
                    Cell { c: control_picture(c.c), s: Style { bg: red, ..c.s } }
                } else {
                    c
                }
            };
        let ghost c2 = r.buffer.cells@;
        r.apply(5, 1, tw, th, &pictures);
        proof {
            let c3 = r.buffer.cells@;
            assert forall|i: int| 0 <= i < c2.len() && in_rect(w as int, i, 5, 1, tw as int, th as int) implies
                #[trigger] pictured(c2[i], c3[i], red) by {
            }
            lemma_pictures_shown(c2, c3, w as int, h as int, self.text(), self@.scroll, th as int, tw as int, red);
            assert forall|f: int| 0 <= f < c2.len() && f % (w as int) < 4 implies #[trigger] c3[f] == c2[f] by {
                assert(!in_rect(w as int, f, 5, 1, tw as int, th as int));
            }
            lemma_labels_kept(c2, c3, w as int, h as int, self.text(), self@.scroll, th as int);
        }
        cursor
    }

    /// Writes the visible lines, with their numbers, into rows `1..=th`.
    fn draw_lines(&self, r: &mut Renderer, tw: u32, th: u32)
        requires
            self.wf(),
            old(r).wf(),
            old(r).buffer.width == tw + 5,
            old(r).buffer.height == th + 2,
        ensures
            final(r).wf(),
            final(r).buffer.width == old(r).buffer.width,
            final(r).buffer.height == old(r).buffer.height,
            final(r).backbuffer == old(r).backbuffer,
            text_drawn(final(r).buffer.cells@, tw + 5, self.text(), self@.scroll, th as int, tw as int),
            labels_drawn(final(r).buffer.cells@, tw + 5, self.text(), self@.scroll, th as int),
    {
        let t = &self.body;
        let ghost sc = self@.scroll;
        let ghost wd = (tw + 5) as int;
        let ghost hd = (th + 2) as int;
        let lines = newlines_total(t) + 1;
        let mut j: u32 = 0;
        while j < th
            invariant
                j <= th,
                self.wf(),
                r.wf(),
                r.buffer.width == tw + 5,
                r.buffer.height == th + 2,
                r.backbuffer == old(r).backbuffer,
                lines == line_count(self.text()),
                t@ == self.body@,
                sc == self@.scroll,
                wd == tw + 5,
                hd == th + 2,
                text_drawn(r.buffer.cells@, tw + 5, t@, sc, j as int, tw as int),
                labels_drawn(r.buffer.cells@, tw + 5, t@, sc, j as int),
            decreases th - j,
        {
            let ii: u64 = j as u64 + self.scroll.1 as u64;
            if ii < lines as u64 {
                assert(ii <= crate::text::nl_count(t@));
                let ghost before = r.buffer.cells@;
                r.put_text(0, j + 1, line_label_string(ii + 1));
                proof {
                    assert forall|j2: int, k2: int|
                        0 <= j2 < j && 0 <= k2 < tw && #[trigger] shown(t@, sc, j2, k2) implies r.buffer.cells@[flat(
                            tw + 5,
                            5 + k2,
                            j2 + 1,
                        )].c == shown_char(t@, sc, j2, k2) by {
                        lemma_index_in_grid(wd, hd, 5 + k2, j2 + 1);
                    }
                    lemma_line_label_len((ii + 1) as nat);
                    assert forall|j2: int, i: int|
                        0 <= j2 < j + 1 && #[trigger] labelled(t@, sc, j2, i) implies r.buffer.cells@[flat(
                            tw + 5,
                            i,
                            j2 + 1,
                        )].c == line_label((j2 + sc.1 + 1) as nat)[i] by {
                        lemma_index_in_grid(wd, hd, i, j2 + 1);
                        if j2 < j {
                            assert(before[flat(wd, i, j2 + 1)].c == line_label((j2 + sc.1 + 1) as nat)[i]);
                        }
                    }
                }
                let s = crate::text::row_start_of(t, ii as usize);
                let e = crate::text::line_end_of(t, s);
                let mut k: u32 = 0;
                while k < tw
                    invariant
                        k <= tw,
                        j < th,
                        self.wf(),
                        t@ == self.body@,
                        sc == self@.scroll,
                        wd == tw + 5,
                        hd == th + 2,
                        ii == j + sc.1,
                        ii < line_count(t@),
                        s == row_start(t@, ii as nat),
                        e == s + row_len(t@, ii as nat),
                        s <= e <= t@.len(),
                        r.wf(),
                        r.buffer.width == tw + 5,
                        r.buffer.height == th + 2,
                        r.backbuffer == old(r).backbuffer,
                        text_drawn(r.buffer.cells@, tw + 5, t@, sc, j as int, tw as int),
                        labels_drawn(r.buffer.cells@, tw + 5, t@, sc, j + 1),
                        forall|k2: int|
                            0 <= k2 < k && #[trigger] shown(t@, sc, j as int, k2) ==> r.buffer.cells@[flat(
                                tw + 5,
                                5 + k2,
                                j + 1,
                            )].c == shown_char(t@, sc, j as int, k2),
                    ensures
                        text_drawn(r.buffer.cells@, tw + 5, t@, sc, j as int, tw as int),
                        labels_drawn(r.buffer.cells@, tw + 5, t@, sc, j + 1),
                        forall|k2: int|
                            0 <= k2 < tw && #[trigger] shown(t@, sc, j as int, k2) ==> r.buffer.cells@[flat(
                                tw + 5,
                                5 + k2,
                                j + 1,
                            )].c == shown_char(t@, sc, j as int, k2),
                    decreases tw - k,
                {
                    let at: u64 = s as u64 + self.scroll.0 as u64 + k as u64;
                    if at >= e as u64 {
                        proof {
                            assert forall|k2: int| 0 <= k2 < tw && #[trigger] shown(t@, sc, j as int, k2) implies k2 < k by {
                            }
                        }
                        break;
                    }
                    let ghost f0 = flat(tw + 5, 5 + k as int, j + 1);
                    let ghost c0 = r.buffer.cells@;
                    proof {
                        lemma_index_in_grid(wd, hd, 5 + k as int, j + 1);
                    }
                    put_char(r, 5 + k, j + 1, t[at as usize]);
                    proof {
                        assert(shown_char(t@, sc, j as int, k as int) == t@[at as int]);
                        assert(c0.len() == wd * hd);
                        assert(f0 == flat(wd, 5 + k as int, j + 1));
                        assert(r.buffer.cells@ == c0.update(f0, Cell { c: t@[at as int], s: c0[f0].s }));
                        lemma_draw_step(c0, wd, hd, t@, sc, j as int, k as int, tw as int, Cell { c: t@[at as int], s: c0[f0].s });
                        lemma_update_keeps_left(c0, wd, hd, 5 + k as int, j + 1, Cell { c: t@[at as int], s: c0[f0].s });
                        lemma_labels_kept(c0, r.buffer.cells@, wd, hd, t@, sc, j + 1);
                    }
                    k = k + 1;
                }
                proof {
                    assert forall|j2: int, k2: int|
                        0 <= j2 < j + 1 && 0 <= k2 < tw && #[trigger] shown(t@, sc, j2, k2) implies r.buffer.cells@[flat(
                            tw + 5,
                            5 + k2,
                            j2 + 1,
                        )].c == shown_char(t@, sc, j2, k2) by {
                        if j2 < j {
                            assert(shown(t@, sc, j2, k2));
                        }
                    }
                }
            } else {
                proof {
                    assert forall|j2: int, k2: int|
                        0 <= j2 < j + 1 && 0 <= k2 < tw && #[trigger] shown(t@, sc, j2, k2) implies r.buffer.cells@[flat(
                            tw + 5,
                            5 + k2,
                            j2 + 1,
                        )].c == shown_char(t@, sc, j2, k2) by {
                        assert(j2 < j);
                    }
                    assert forall|j2: int, i: int|
                        0 <= j2 < j + 1 && #[trigger] labelled(t@, sc, j2, i) implies r.buffer.cells@[flat(
                            tw + 5,
                            i,
                            j2 + 1,
                        )].c == line_label((j2 + sc.1 + 1) as nat)[i] by {
                        assert(j2 < j);
                    }
                }
            }
            j = j + 1;
        }
    }
}

/// The number of newlines in `t`.
fn newlines_total(t: &Vec<char>) -> (r: usize)
    ensures
        r == crate::text::nl_count(t@),
        r <= t@.len(),
{
    crate::text::count_newlines(t)
}

/// The escape sequences that place the terminal cursor after a frame on a
/// screen `h` rows high: shown at `cursor` when there is one, else hidden.
pub open spec fn cursor_seq(h: int, cursor: Option<(int, int)>) -> Seq<char> {
    "\x1b["@ + dec(h as nat) + ";1H"@ + match cursor {
        Some(p) => "\x1b[?25h\x1b["@ + dec((p.1 + 1) as nat) + ";"@ + dec((p.0 + 1) as nat) + "H"@,
        None => "\x1b[?25l"@,
    }
}

/// The escape sequences that place the terminal cursor after a frame on a
/// screen `h` rows high: shown at `cursor` when there is one, else hidden.
pub fn cursor_sequence(h: u32, cursor: Option<(u32, u32)>) -> (r: String)
    ensures
        r@ == cursor_seq(
            h as int,
            match cursor {
                Some(p) => Some((p.0 as int, p.1 as int)),
                None => None,
            },
        ),
{
    let mut s = "\x1b[".to_owned();
    push_str(&mut s, dec_string(h as u64).as_str());
    push_str(&mut s, ";1H");
    let ghost head = s@;
    match cursor {
        Some((x, y)) => {
            push_str(&mut s, "\x1b[?25h\x1b[");
            push_str(&mut s, dec_string(y as u64 + 1).as_str());
            push_str(&mut s, ";");
            push_str(&mut s, dec_string(x as u64 + 1).as_str());
            push_str(&mut s, "H");
            assert(s@ =~= head + ("\x1b[?25h\x1b["@ + dec(y as nat + 1) + ";"@ + dec(x as nat + 1) + "H"@));
        },
        None => {
            push_str(&mut s, "\x1b[?25l");
        },
    }
    s
}

} // verus!
