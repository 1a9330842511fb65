//! Placing a run of text in the grid: a box with an offset, optional
//! wrapping, and per-character styles.

use vstd::prelude::*;
use crate::grid::{Cell, Renderer, flat};
use crate::strings::chars_of;
use crate::style::Style;
use crate::text::clamp;

verus! {

/// How `Renderer::put` styles the characters it writes: one style for all,
/// or one per character with a fallback for the rest.
#[derive(Debug)]
pub enum TextStyle {
    Style(Style),
    StyleVec(Vec<Style>, Option<Style>),
}

/// A text to place: its box origin `pos`, an `offset` of the text within
/// the box, the box size limits, whether to wrap at the box's right edge,
/// and the styling.
#[derive(Debug)]
pub struct TextOptions {
    pub pos: (i32, i32),
    pub offset: Option<(i32, i32)>,
    pub text: String,
    pub max_w: Option<i32>,
    pub max_h: Option<i32>,
    pub wrap: Option<bool>,
    pub style: Option<TextStyle>,
}

/// The box a text is placed in and where its first character goes.
pub struct Layout {
    pub min_x: int,
    pub min_y: int,
    pub max_x: int,
    pub max_y: int,
    pub start_x: int,
    pub start_y: int,
    pub line_x: int,
    pub wrap: bool,
}

/// The box of `o` on a `width` by `height` grid: its left and top edges are
/// the position clamped into the grid; its right and bottom edges come from
/// the size limits (by default, the room from the offset position to the
/// grid's edge) and are clamped too. A new line starts at the left edge plus
/// the horizontal offset.
pub open spec fn layout(o: TextOptions, width: int, height: int) -> Layout {
    let off = match o.offset {
        Some(p) => (p.0 as int, p.1 as int),
        None => (0, 0),
    };
    let x = o.pos.0 + off.0;
    let y = o.pos.1 + off.1;
    let min_x = clamp(o.pos.0 as int, 0, width);
    let min_y = clamp(o.pos.1 as int, 0, height);
    let max_x = clamp(
        match o.max_w {
            Some(m) => m as int,
            None => width - x,
        } + min_x,
        0,
        width,
    );
    let max_y = clamp(
        match o.max_h {
            Some(m) => m as int,
            None => height - y,
        } + min_y,
        0,
        height,
    );
    Layout {
        min_x,
        min_y,
        max_x,
        max_y,
        start_x: x,
        start_y: y,
        line_x: min_x + off.0,
        wrap: o.wrap == Some(true),
    }
}

/// Where the walk over the text stands: the position of the next character,
/// and whether it has left the box at the bottom.
pub struct Walk {
    pub x: int,
    pub y: int,
    pub stopped: bool,
}

/// Whether the walk breaks the line before character `c` at column `x`: on
/// a newline, or past the right edge when wrapping.
pub open spec fn breaks(l: Layout, x: int, c: char) -> bool {
    (x >= l.max_x && l.wrap) || c == '\n'
}

/// The walk after the first `n` characters of `t`.
pub open spec fn walk(t: Seq<char>, l: Layout, n: int) -> Walk
    decreases n,
{
    if n <= 0 {
        Walk { x: l.start_x, y: l.start_y, stopped: false }
    } else {
        let p = walk(t, l, n - 1);
        if p.stopped {
            p
        } else if breaks(l, p.x, t[n - 1]) {
            Walk { x: l.line_x, y: p.y + 1, stopped: p.y + 1 >= l.max_y }
        } else {
            Walk { x: p.x + 1, ..p }
        }
    }
}

/// Whether `(x, y)` lies inside the box.
pub open spec fn visible(l: Layout, x: int, y: int) -> bool {
    l.min_x <= x < l.max_x && l.min_y <= y < l.max_y
}

/// Where character `i` of the text lands (`i` may be the text's length: the
/// position after it), when that is inside the box.
pub open spec fn place_of(o: TextOptions, width: int, height: int, i: int) -> Option<(int, int)> {
    let l = layout(o, width, height);
    let p = walk(o.text@, l, i);
    if l.max_x == 0 || l.max_y == 0 || i > o.text@.len() {
        None
    } else if !p.stopped && visible(l, p.x, p.y) {
        Some((p.x, p.y))
    } else {
        None
    }
}

/// Cell `c` given the style that `st` assigns to character `ci`.
pub open spec fn styled(c: Cell, st: Option<TextStyle>, ci: int) -> Cell {
    match st {
        None => c,
        Some(TextStyle::Style(s)) => Cell { s, ..c },
        Some(TextStyle::StyleVec(v, d)) => if 0 <= ci < v@.len() {
            Cell { s: v@[ci], ..c }
        } else {
            match d {
                Some(s) => Cell { s, ..c },
                None => c,
            }
        },
    }
}

/// The cells after the first `n` characters of the text were placed: each
/// character that lands inside the box is written there, styled.
pub open spec fn put_cells(
    t: Seq<char>,
    l: Layout,
    st: Option<TextStyle>,
    w: u32,
    cells: Seq<Cell>,
    n: int,
) -> Seq<Cell>
    decreases n,
{
    if n <= 0 {
        cells
    } else {
        let prev = put_cells(t, l, st, w, cells, n - 1);
        let p = walk(t, l, n - 1);
        if !p.stopped && !breaks(l, p.x, t[n - 1]) && visible(l, p.x, p.y) {
            let k = flat(w as int, p.x, p.y);
            prev.update(k, styled(Cell { c: t[n - 1], s: prev[k].s }, st, n - 1))
        } else {
            prev
        }
    }
}

/// The box of `o`, computed.
fn layout_exec(o: &TextOptions, width: u32, height: u32) -> (r: (i64, i64, i64, i64, i64, i64, i64, bool))
    requires
        width <= 0x7fff_ffff,
        height <= 0x7fff_ffff,
    ensures
        ({
            let l = layout(*o, width as int, height as int);
            r.0 == l.min_x && r.1 == l.min_y && r.2 == l.max_x && r.3 == l.max_y && r.4 == l.start_x
                && r.5 == l.start_y && r.6 == l.line_x && r.7 == l.wrap
        }),
{
    let (ox, oy): (i64, i64) = match o.offset {
        Some((a, b)) => (a as i64, b as i64),
        None => (0, 0),
    };
    let w = width as i64;
    let h = height as i64;
    let x = o.pos.0 as i64 + ox;
    let y = o.pos.1 as i64 + oy;
    let px = o.pos.0 as i64;
    let py = o.pos.1 as i64;
    let min_x = if px < 0 { 0 } else if px > w { w } else { px };
    let min_y = if py < 0 { 0 } else if py > h { h } else { py };
    let mw = match o.max_w {
        Some(m) => m as i64,
        None => w - x,
    } + min_x;
    let mh = match o.max_h {
        Some(m) => m as i64,
        None => h - y,
    } + min_y;
    let max_x = if mw < 0 { 0 } else if mw > w { w } else { mw };
    let max_y = if mh < 0 { 0 } else if mh > h { h } else { mh };
    let wrap = match o.wrap {
        Some(b) => b,
        None => false,
    };
    (min_x, min_y, max_x, max_y, x, y, min_x + ox, wrap)
}

impl TextOptions {
    /// Where character `i` of the text lands on a `width` by `height` grid,
    /// if inside the box.
    pub fn idx_to_xy(self, width: u32, height: u32, i: usize) -> (r: Option<(i32, i32)>)
        requires
            width <= 0x7fff_ffff,
            height <= 0x7fff_ffff,
        ensures
            match r {
                Some(p) => place_of(self, width as int, height as int, i as int) == Some(
                    (p.0 as int, p.1 as int),
                ),
                None => place_of(self, width as int, height as int, i as int) is None,
            },
    {
        let (min_x, min_y, max_x, max_y, sx, sy, line_x, wrap) = layout_exec(&self, width, height);
        let ghost l = layout(self, width as int, height as int);
        if max_x == 0 || max_y == 0 {
            return None;
        }
        let t = chars_of(self.text.as_str());
        if i > t.len() {
            return None;
        }
        let mut x: i128 = sx as i128;
        let mut y: i128 = sy as i128;
        let mut stopped = false;
        let mut n: usize = 0;
        while n < i
            invariant
                n <= i <= t@.len(),
                t@ == self.text@,
                l == layout(self, width as int, height as int),
                min_x == l.min_x && min_y == l.min_y && max_x == l.max_x && max_y == l.max_y,
                line_x == l.line_x && wrap == l.wrap,
                -0x1_0000_0000 <= l.start_x <= 0x1_0000_0000,
                -0x1_0000_0000 <= l.start_y <= 0x1_0000_0000,
                0 <= l.max_x <= 0x7fff_ffff,
                -0x1_0000_0000 <= l.line_x <= 0x1_0000_0000,
                (Walk { x: x as int, y: y as int, stopped }) == walk(t@, l, n as int),
                x <= l.start_x + n || x <= l.line_x + n,
                x >= -0x1_0000_0000,
                l.start_y <= y <= l.start_y + n,
            decreases i - n,
        {
            if !stopped {
                if (x >= max_x as i128 && wrap) || t[n] == '\n' {
                    x = line_x as i128;
                    y = y + 1;
                    stopped = y >= max_y as i128;
                } else {
                    x = x + 1;
                }
            }
            n = n + 1;
        }
        if !stopped && min_x as i128 <= x && x < max_x as i128 && min_y as i128 <= y && y < max_y as i128 {
            Some((x as i32, y as i32))
        } else {
            None
        }
    }
}

impl Renderer {
    /// Places `text` in the grid being drawn: each character that lands
    /// inside its box replaces the character there and takes its style.
    pub fn put(&mut self, text: &TextOptions)
        requires
            old(self).wf(),
            old(self).buffer.width <= 0x7fff_ffff,
            old(self).buffer.height <= 0x7fff_ffff,
        ensures
            final(self).wf(),
            final(self).buffer.width == old(self).buffer.width,
            final(self).buffer.height == old(self).buffer.height,
            final(self).backbuffer == old(self).backbuffer,
            final(self).cursor == old(self).cursor,
            ({
                let l = layout(*text, old(self).buffer.width as int, old(self).buffer.height as int);
                final(self).buffer.cells@ == if l.max_x == 0 || l.max_y == 0 {
                    old(self).buffer.cells@
                } else {
                    put_cells(
                        text.text@,
                        l,
                        text.style,
                        old(self).buffer.width,
                        old(self).buffer.cells@,
                        text.text@.len() as int,
                    )
                }
            }),
    {
        let width = self.buffer.width;
        let height = self.buffer.height;
        let (min_x, min_y, max_x, max_y, sx, sy, line_x, wrap) = layout_exec(text, width, height);
        let ghost l = layout(*text, width as int, height as int);
        if max_x == 0 || max_y == 0 {
            return;
        }
        let t = chars_of(text.text.as_str());
        let ghost cells0 = self.buffer.cells@;
        let mut x: i128 = sx as i128;
        let mut y: i128 = sy as i128;
        let mut stopped = false;
        let mut n: usize = 0;
        while n < t.len()
            invariant
                n <= t@.len(),
                t@ == text.text@,
                self.wf(),
                self.buffer.width == width,
                self.buffer.height == height,
                self.backbuffer == old(self).backbuffer,
                self.cursor == old(self).cursor,
                cells0 == old(self).buffer.cells@,
                l == layout(*text, width as int, height as int),
                min_x == l.min_x && min_y == l.min_y && max_x == l.max_x && max_y == l.max_y,
                line_x == l.line_x && wrap == l.wrap,
                0 <= l.min_x && 0 <= l.max_x <= width,
                0 <= l.min_y && 0 <= l.max_y <= height,
                -0x1_0000_0000 <= l.start_x <= 0x1_0000_0000,
                -0x1_0000_0000 <= l.start_y <= 0x1_0000_0000,
                -0x1_0000_0000 <= l.line_x <= 0x1_0000_0000,
                (Walk { x: x as int, y: y as int, stopped }) == walk(t@, l, n as int),
                x <= l.start_x + n || x <= l.line_x + n,
                x >= -0x1_0000_0000,
                l.start_y <= y <= l.start_y + n,
                self.buffer.cells@ == put_cells(t@, l, text.style, width, cells0, n as int),
            decreases t@.len() - n,
        {
            let c = t[n];
            if !stopped {
                if (x >= max_x as i128 && wrap) || c == '\n' {
                    x = line_x as i128;
                    y = y + 1;
                    stopped = y >= max_y as i128;
                } else {
                    if min_x as i128 <= x && x < max_x as i128 && min_y as i128 <= y && y < max_y as i128 {
                        let cell = self.get(x as u32, y as u32);
                        let mut out = Cell { c, s: cell.s };
                        match &text.style {
                            Some(TextStyle::Style(s)) => {
                                out = Cell { c, s: *s };
                            },
                            Some(TextStyle::StyleVec(v, d)) => {
                                if n < v.len() {
                                    out = Cell { c, s: v[n] };
                                } else {
                                    match d {
                                        Some(s) => {
                                            out = Cell { c, s: *s };
                                        },
                                        None => {},
                                    }
                                }
                            },
                            None => {},
                        }
                        self.set(x as u32, y as u32, out);
                    }
                    x = x + 1;
                }
            }
            n = n + 1;
        }
    }
}

} // verus!
