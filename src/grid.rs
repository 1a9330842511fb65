//! The cell grid and the double-buffered renderer that turns it into
//! terminal output.

use vstd::prelude::*;
use vstd::arithmetic::div_mod::lemma_fundamental_div_mod;
use vstd::arithmetic::div_mod::lemma_fundamental_div_mod_converse;
use crate::strings::{chars_of, dec, dec_string, push_str};
use crate::style::{Style, default_style, diff_seq};

verus! {

/// One character position: its glyph and its style.
#[derive(Clone, Copy, PartialEq, Eq, Structural, Debug)]
pub struct Cell {
    pub c: char,
    pub s: Style,
}

/// The default cell: a space in the default style.
pub open spec fn blank_cell() -> Cell {
    Cell { c: ' ', s: default_style() }
}

impl Cell {
    /// A space in the default style.
    pub fn empty() -> (r: Cell)
        ensures
            r == blank_cell(),
    {
        Cell { c: ' ', s: Style::default() }
    }
}

/// Whether flat index `k` of a grid `w` wide lies in the rectangle at
/// `(x, y)` of size `rw` by `rh`.
pub open spec fn in_rect(w: int, k: int, x: int, y: int, rw: int, rh: int) -> bool {
    x <= k % w < x + rw && y <= k / w < y + rh
}

pub(crate) proof fn lemma_index_in_grid(w: int, h: int, x: int, y: int)
    requires
        0 <= x < w,
        0 <= y < h,
    ensures
        0 <= y * w + x < w * h,
        (y * w + x) % w == x,
        (y * w + x) / w == y,
{
    assert(y * w + x < w * h) by (nonlinear_arith)
        requires
            0 <= x < w,
            0 <= y < h,
    ;
    assert(0 <= y * w) by (nonlinear_arith)
        requires
            0 <= x < w,
            0 <= y,
    ;
    lemma_fundamental_div_mod_converse(y * w + x, w, y, x);
}

/// Replaces each cell of a rectangle by `f(cell, x, y)`.
fn update_rect<F: Fn(Cell, u32, u32) -> Cell>(
    cells: &mut Vec<Cell>,
    width: u32,
    height: u32,
    x: u32,
    y: u32,
    w: u32,
    h: u32,
    f: &F,
)
    requires
        old(cells)@.len() == width as int * height as int,
        x as int + w as int <= width as int,
        y as int + h as int <= height as int,
        forall|c: Cell, i: u32, j: u32| f.requires((c, i, j)),
    ensures
        final(cells)@.len() == old(cells)@.len(),
        forall|k: int|
            0 <= k < old(cells)@.len() ==> if in_rect(width as int, k, x as int, y as int, w as int, h as int) {
                f.ensures((old(cells)@[k], (k % width as int) as u32, (k / width as int) as u32), final(cells)@[k])
            } else {
                final(cells)@[k] == old(cells)@[k]
            },
{
    let ghost old_cells = cells@;
    let ghost wd = width as int;
    let mut yy = y;
    while yy < y + h
        invariant
            y <= yy <= y + h,
            x as int + w as int <= width as int,
            y as int + h as int <= height as int,
            old_cells == old(cells)@,
            wd == width as int,
            cells@.len() == old_cells.len(),
            old_cells.len() == width as int * height as int,
            forall|c: Cell, i: u32, j: u32| f.requires((c, i, j)),
            forall|k: int|
                0 <= k < old_cells.len() ==> if in_rect(wd, k, x as int, y as int, w as int, h as int)
                    && k / wd < yy {
                    f.ensures((old_cells[k], (k % wd) as u32, (k / wd) as u32), cells@[k])
                } else {
                    cells@[k] == old_cells[k]
                },
        decreases y + h - yy,
    {
        let mut xx = x;
        while xx < x + w
            invariant
                y <= yy < y + h,
                x <= xx <= x + w,
                x as int + w as int <= width as int,
                y as int + h as int <= height as int,
                old_cells == old(cells)@,
                wd == width as int,
                cells@.len() == old_cells.len(),
                old_cells.len() == width as int * height as int,
                forall|c: Cell, i: u32, j: u32| f.requires((c, i, j)),
                forall|k: int|
                    0 <= k < old_cells.len() ==> if in_rect(wd, k, x as int, y as int, w as int, h as int)
                        && (k / wd < yy || (k / wd == yy && k % wd < xx)) {
                        f.ensures((old_cells[k], (k % wd) as u32, (k / wd) as u32), cells@[k])
                    } else {
                        cells@[k] == old_cells[k]
                    },
            decreases x + w - xx,
        {
            proof {
                lemma_index_in_grid(wd, height as int, xx as int, yy as int);
            }
            let n = cells.len();
            assert(yy as int * width as int + xx as int <= n as int - 1);
            assert(yy as int * width as int <= n as int);
            let k0: usize = (yy as usize) * (width as usize) + (xx as usize);
            let old_cell = cells[k0];
            let v = f(old_cell, xx, yy);
            cells.set(k0, v);
            proof {
                assert forall|k: int| 0 <= k < old_cells.len() && k != k0 implies !(#[trigger] (k / wd)
                    == yy && k % wd == xx) by {
                    lemma_fundamental_div_mod(k, wd);
                    if k / wd == yy && k % wd == xx {
                        assert(wd * (k / wd) == yy * wd) by (nonlinear_arith)
                            requires
                                k / wd == yy,
                        ;
                    }
                }
            }
            xx = xx + 1;
        }
        yy = yy + 1;
    }
}

/// Relies on `terminal_size::terminal_size`: the terminal's columns and
/// rows, both positive, when standard output, error or input is a terminal.
#[verifier::external_body]
fn terminal_dims() -> (r: Option<(u16, u16)>)
    ensures
        r matches Some(d) ==> d.0 > 0 && d.1 > 0,
{
    terminal_size::terminal_size().map(|(w, h)| (w.0, h.0))
}

/// A rectangular grid of cells, stored row by row.
pub struct Buff {
    pub cells: Vec<Cell>,
    pub width: u32,
    pub height: u32,
}

/// The flat index of column `x`, row `y` in a grid `w` wide.
pub open spec fn flat(w: int, x: int, y: int) -> int {
    y * w + x
}

impl Buff {
    /// One cell per position.
    pub open spec fn wf(&self) -> bool {
        self.cells@.len() == self.width as int * self.height as int
    }

    /// The empty grid, 0 by 0: nothing is known of the screen.
    pub fn null() -> (r: Buff)
        ensures
            r.wf(),
            r.width == 0,
            r.height == 0,
            r.cells@ == Seq::<Cell>::empty(),
    {
        Buff { cells: Vec::new(), width: 0, height: 0 }
    }

    /// A grid of the given size filled with the default cell.
    pub fn blank(width: u32, height: u32) -> (r: Buff)
        requires
            width as int * height as int <= u32::MAX,
        ensures
            r.wf(),
            r.width == width,
            r.height == height,
            forall|k: int| 0 <= k < r.cells@.len() ==> r.cells@[k] == blank_cell(),
    {
        let n: usize = (width as usize) * (height as usize);
        let mut cells: Vec<Cell> = Vec::new();
        let mut i: usize = 0;
        while i < n
            invariant
                i <= n,
                cells@.len() == i,
                forall|k: int| 0 <= k < i ==> cells@[k] == blank_cell(),
            decreases n - i,
        {
            cells.push(Cell::empty());
            i = i + 1;
        }
        Buff { cells, width, height }
    }

    /// A blank grid the size of the terminal, if that size can be had.
    pub fn empty() -> (r: Option<Buff>)
        ensures
            r matches Some(b) ==> b.wf() && b.width > 0 && b.height > 0 && forall|k: int|
                0 <= k < b.cells@.len() ==> b.cells@[k] == blank_cell(),
    {
        match terminal_dims() {
            Some((w, h)) => {
                assert(w as int * h as int <= u32::MAX) by (nonlinear_arith)
                    requires
                        w <= u16::MAX,
                        h <= u16::MAX,
                ;
                Some(Buff::blank(w as u32, h as u32))
            },
            None => None,
        }
    }

    /// A copy of this grid.
    pub fn copy(&self) -> (r: Buff)
        ensures
            r.cells@ == self.cells@,
            r.width == self.width,
            r.height == self.height,
    {
        let mut cells: Vec<Cell> = Vec::new();
        let mut i: usize = 0;
        while i < self.cells.len()
            invariant
                i <= self.cells@.len(),
                cells@ == self.cells@.take(i as int),
            decreases self.cells@.len() - i,
        {
            cells.push(self.cells[i]);
            i = i + 1;
            assert(cells@ =~= self.cells@.take(i as int));
        }
        assert(self.cells@.take(i as int) =~= self.cells@);
        Buff { cells, width: self.width, height: self.height }
    }
}

/// Two grids, the one being drawn (`buffer`) and the one last sent to the
/// terminal (`backbuffer`), and where the terminal cursor should stand.
pub struct Renderer {
    pub backbuffer: Buff,
    pub buffer: Buff,
    pub cursor: Option<(u32, u32)>,
}

impl Renderer {
    /// Both grids hold one cell per position.
    pub open spec fn wf(&self) -> bool {
        self.backbuffer.wf() && self.buffer.wf()
    }

    /// A renderer with a blank grid of the given size and nothing known of
    /// the screen.
    pub fn with_size(width: u32, height: u32) -> (r: Renderer)
        requires
            width as int * height as int <= u32::MAX,
        ensures
            r.wf(),
            r.buffer.width == width,
            r.buffer.height == height,
            forall|k: int| 0 <= k < r.buffer.cells@.len() ==> r.buffer.cells@[k] == blank_cell(),
            r.backbuffer.width == 0 && r.backbuffer.height == 0,
            r.cursor is None,
    {
        Renderer { backbuffer: Buff::null(), buffer: Buff::blank(width, height), cursor: None }
    }

    /// A renderer sized to the terminal, if its size can be had.
    pub fn new() -> (r: Option<Renderer>)
        ensures
            r matches Some(rd) ==> rd.wf() && rd.backbuffer.width == 0 && rd.backbuffer.height == 0
                && rd.cursor is None && forall|k: int|
                0 <= k < rd.buffer.cells@.len() ==> rd.buffer.cells@[k] == blank_cell(),
    {
        match Buff::empty() {
            Some(b) => Some(Renderer { backbuffer: Buff::null(), buffer: b, cursor: None }),
            None => None,
        }
    }

    /// Replaces the grid being drawn by a blank one the size of the terminal;
    /// false, with nothing changed, when the size cannot be had.
    pub fn clear(&mut self) -> (r: bool)
        requires
            old(self).wf(),
        ensures
            final(self).wf(),
            final(self).backbuffer == old(self).backbuffer,
            final(self).cursor == old(self).cursor,
            !r ==> final(self).buffer == old(self).buffer,
            r ==> forall|k: int|
                0 <= k < final(self).buffer.cells@.len() ==> final(self).buffer.cells@[k] == blank_cell(),
    {
        match Buff::empty() {
            Some(b) => {
                self.buffer = b;
                true
            },
            None => false,
        }
    }

    /// Replaces the grid being drawn by a blank one of the given size.
    pub fn clear_to(&mut self, width: u32, height: u32)
        requires
            old(self).wf(),
            width as int * height as int <= u32::MAX,
        ensures
            final(self).wf(),
            final(self).backbuffer == old(self).backbuffer,
            final(self).cursor == old(self).cursor,
            final(self).buffer.width == width,
            final(self).buffer.height == height,
            forall|k: int|
                0 <= k < final(self).buffer.cells@.len() ==> final(self).buffer.cells@[k] == blank_cell(),
    {
        self.buffer = Buff::blank(width, height);
    }

    /// Records the grid being drawn as what the terminal now shows.
    pub fn flip(&mut self)
        requires
            old(self).wf(),
        ensures
            final(self).wf(),
            final(self).buffer == old(self).buffer,
            final(self).cursor == old(self).cursor,
            final(self).backbuffer.cells@ == old(self).buffer.cells@,
            final(self).backbuffer.width == old(self).buffer.width,
            final(self).backbuffer.height == old(self).buffer.height,
    {
        self.backbuffer = self.buffer.copy();
    }

    /// Forgets what the terminal shows, so that the next render repaints
    /// everything.
    pub fn void(&mut self)
        requires
            old(self).wf(),
        ensures
            final(self).wf(),
            final(self).buffer == old(self).buffer,
            final(self).cursor == old(self).cursor,
            final(self).backbuffer.width == 0,
            final(self).backbuffer.height == 0,
    {
        self.backbuffer = Buff::null();
    }

    /// Sets the cell at column `x`, row `y`.
    pub fn set(&mut self, x: u32, y: u32, cell: Cell)
        requires
            old(self).wf(),
            x < old(self).buffer.width,
            y < old(self).buffer.height,
        ensures
            final(self).wf(),
            final(self).buffer.cells@ == old(self).buffer.cells@.update(
                flat(old(self).buffer.width as int, x as int, y as int),
                cell,
            ),
            final(self).buffer.width == old(self).buffer.width,
            final(self).buffer.height == old(self).buffer.height,
            final(self).backbuffer == old(self).backbuffer,
            final(self).cursor == old(self).cursor,
    {
        let k = self.index(x, y);
        self.buffer.cells.set(k, cell);
    }

    /// The flat index of column `x`, row `y` of the grid being drawn.
    fn index(&self, x: u32, y: u32) -> (k: usize)
        requires
            self.wf(),
            x < self.buffer.width,
            y < self.buffer.height,
        ensures
            k == flat(self.buffer.width as int, x as int, y as int),
            k < self.buffer.cells@.len(),
    {
        proof {
            lemma_index_in_grid(self.buffer.width as int, self.buffer.height as int, x as int, y as int);
        }
        let n = self.buffer.cells.len();
        assert(y as int * self.buffer.width as int <= n as int);
        (y as usize) * (self.buffer.width as usize) + (x as usize)
    }

    /// The cell at column `x`, row `y`.
    pub fn get(&self, x: u32, y: u32) -> (r: Cell)
        requires
            self.wf(),
            x < self.buffer.width,
            y < self.buffer.height,
        ensures
            r == self.buffer.cells@[flat(self.buffer.width as int, x as int, y as int)],
    {
        let k = self.index(x, y);
        self.buffer.cells[k]
    }

    /// The cell at column `x`, row `y`, to change in place.
    pub fn get_mut(&mut self, x: u32, y: u32) -> (r: &mut Cell)
        requires
            old(self).wf(),
            x < old(self).buffer.width,
            y < old(self).buffer.height,
        ensures
            *r == old(self).buffer.cells@[flat(old(self).buffer.width as int, x as int, y as int)],
            final(self).buffer.cells@ == old(self).buffer.cells@.update(
                flat(old(self).buffer.width as int, x as int, y as int),
                *final(r),
            ),
            final(self).buffer.width == old(self).buffer.width,
            final(self).buffer.height == old(self).buffer.height,
            final(self).backbuffer == old(self).backbuffer,
            final(self).cursor == old(self).cursor,
    {
        let k = self.index(x, y);
        &mut self.buffer.cells[k]
    }

    /// Overwrites every cell of the rectangle at `(x, y)`, `w` wide and `h`
    /// high, with `cell`.
    pub fn fill(&mut self, x: u32, y: u32, w: u32, h: u32, cell: Cell)
        requires
            old(self).wf(),
            x as int + w as int <= old(self).buffer.width,
            y as int + h as int <= old(self).buffer.height,
        ensures
            final(self).wf(),
            final(self).buffer.width == old(self).buffer.width,
            final(self).buffer.height == old(self).buffer.height,
            final(self).backbuffer == old(self).backbuffer,
            final(self).cursor == old(self).cursor,
            forall|k: int|
                0 <= k < old(self).buffer.cells@.len() ==> final(self).buffer.cells@[k] == if in_rect(
                    old(self).buffer.width as int,
                    k,
                    x as int,
                    y as int,
                    w as int,
                    h as int,
                ) {
                    cell
                } else {
                    old(self).buffer.cells@[k]
                },
    {
        let f = |c: Cell, i: u32, j: u32| -> (r: Cell)
            ensures
                r == cell,
            { cell };
        let width = self.buffer.width;
        let height = self.buffer.height;
        update_rect(&mut self.buffer.cells, width, height, x, y, w, h, &f);
    }

    /// Sets the style of every cell of the rectangle at `(x, y)`, `w` wide
    /// and `h` high, keeping the characters.
    pub fn paint(&mut self, x: u32, y: u32, w: u32, h: u32, style: Style)
        requires
            old(self).wf(),
            x as int + w as int <= old(self).buffer.width,
            y as int + h as int <= old(self).buffer.height,
        ensures
            final(self).wf(),
            final(self).buffer.width == old(self).buffer.width,
            final(self).buffer.height == old(self).buffer.height,
            final(self).backbuffer == old(self).backbuffer,
            final(self).cursor == old(self).cursor,
            forall|k: int|
                0 <= k < old(self).buffer.cells@.len() ==> final(self).buffer.cells@[k] == if in_rect(
                    old(self).buffer.width as int,
                    k,
                    x as int,
                    y as int,
                    w as int,
                    h as int,
                ) {
                    Cell { c: old(self).buffer.cells@[k].c, s: style }
                } else {
                    old(self).buffer.cells@[k]
                },
    {
        let f = |c: Cell, i: u32, j: u32| -> (r: Cell)
            ensures
                r == (Cell { c: c.c, s: style }),
            { Cell { c: c.c, s: style } };
        let width = self.buffer.width;
        let height = self.buffer.height;
        update_rect(&mut self.buffer.cells, width, height, x, y, w, h, &f);
    }

    /// Replaces every cell of the rectangle at `(x, y)`, `w` wide and `h`
    /// high, by `modifier(cell, column, row)`.
    pub fn apply<F: Fn(Cell, u32, u32) -> Cell>(&mut self, x: u32, y: u32, w: u32, h: u32, modifier: &F)
        requires
            old(self).wf(),
            x as int + w as int <= old(self).buffer.width,
            y as int + h as int <= old(self).buffer.height,
            forall|c: Cell, i: u32, j: u32| modifier.requires((c, i, j)),
        ensures
            final(self).wf(),
            final(self).buffer.width == old(self).buffer.width,
            final(self).buffer.height == old(self).buffer.height,
            final(self).backbuffer == old(self).backbuffer,
            final(self).cursor == old(self).cursor,
            forall|k: int|
                0 <= k < old(self).buffer.cells@.len() ==> if in_rect(
                    old(self).buffer.width as int,
                    k,
                    x as int,
                    y as int,
                    w as int,
                    h as int,
                ) {
                    modifier.ensures(
                        (
                            old(self).buffer.cells@[k],
                            (k % old(self).buffer.width as int) as u32,
                            (k / old(self).buffer.width as int) as u32,
                        ),
                        final(self).buffer.cells@[k],
                    )
                } else {
                    final(self).buffer.cells@[k] == old(self).buffer.cells@[k]
                },
    {
        let width = self.buffer.width;
        let height = self.buffer.height;
        update_rect(&mut self.buffer.cells, width, height, x, y, w, h, modifier);
    }

    /// Writes the characters of `text` from column `x` of row `y` onwards,
    /// keeping the styles; it stops at the end of the row.
    pub fn put_text(&mut self, x: u32, y: u32, text: String)
        requires
            old(self).wf(),
            y < old(self).buffer.height,
        ensures
            final(self).wf(),
            final(self).buffer.width == old(self).buffer.width,
            final(self).buffer.height == old(self).buffer.height,
            final(self).backbuffer == old(self).backbuffer,
            final(self).cursor == old(self).cursor,
            forall|k: int|
                0 <= k < old(self).buffer.cells@.len() ==> final(self).buffer.cells@[k] == if in_rect(
                    old(self).buffer.width as int,
                    k,
                    x as int,
                    y as int,
                    text@.len() as int,
                    1,
                ) {
                    Cell {
                        c: text@[k % old(self).buffer.width as int - x as int],
                        s: old(self).buffer.cells@[k].s,
                    }
                } else {
                    old(self).buffer.cells@[k]
                },
    {
        let width = self.buffer.width;
        let height = self.buffer.height;
        if x >= width {
            assert forall|k: int| 0 <= k < old(self).buffer.cells@.len() implies !in_rect(
                width as int,
                k,
                x as int,
                y as int,
                text@.len() as int,
                1,
            ) by {
                assert(k % (width as int) < (width as int)) by {
                    vstd::arithmetic::div_mod::lemma_mod_bound(k, width as int);
                }
            }
            return;
        }
        let chars = chars_of(text.as_str());
        let room: u32 = width - x;
        let n: u32 = if (chars.len() as u64) < (room as u64) { chars.len() as u32 } else { room };
        let f = |c: Cell, i: u32, j: u32| -> (r: Cell)
            ensures
                r == if x <= i && (i - x) < chars@.len() {
                    Cell { c: chars@[i - x], s: c.s }
                } else {
                    c
                },
            {
                if x <= i && ((i - x) as usize) < chars.len() {
                    Cell { c: chars[(i - x) as usize], s: c.s }
                } else {
                    c
                }
            };
        update_rect(&mut self.buffer.cells, width, height, x, y, n, 1, &f);
        assert forall|k: int| 0 <= k < old(self).buffer.cells@.len() implies in_rect(
            width as int,
            k,
            x as int,
            y as int,
            n as int,
            1,
        ) == in_rect(width as int, k, x as int, y as int, text@.len() as int, 1) by {
            vstd::arithmetic::div_mod::lemma_mod_bound(k, width as int);
        }
    }

    /// The terminal output that brings the screen from `backbuffer` to
    /// `buffer`.
    pub fn render(&self) -> (r: String)
        requires
            self.wf(),
        ensures
            r@ == render_seq(self.buffer, self.backbuffer),
    {
        let body = if self.buffer.width != self.backbuffer.width || self.buffer.height
            != self.backbuffer.height {
            let mut s = "\x1b[H".to_owned();
            let full = full_repaint(&self.buffer);
            push_str(&mut s, full.as_str());
            s
        } else {
            diff_repaint(&self.buffer, &self.backbuffer)
        };
        if body.as_str().is_empty() {
            body
        } else {
            let mut s = body;
            push_str(&mut s, "\x1b[m");
            s
        }
    }
}

/// Whether `c` is ASCII.
pub open spec fn ascii_char(c: char) -> bool {
    (c as u32) < 128
}

/// `ESC [`, the number `n`, then `end`.
pub open spec fn csi(n: int, end: Seq<char>) -> Seq<char> {
    "\x1b["@ + dec(n as nat) + end
}

/// Appends `ESC [`, the number `n`, then `end`.
fn push_csi(s: &mut String, n: u64, end: &str)
    ensures
        final(s)@ == old(s)@ + csi(n as int, end@),
{
    push_str(s, "\x1b[");
    push_str(s, dec_string(n).as_str());
    push_str(s, end);
    assert(final(s)@ =~= old(s)@ + csi(n as int, end@));
}

/// Where the diff pass stands: the output so far, the terminal's current
/// style, whether the current row was entered, and the column of the last
/// cell written in an unbroken run (the grid width when there is none).
pub struct DiffState {
    pub out: Seq<char>,
    pub style: Style,
    pub row: bool,
    pub streak: int,
}

/// The diff pass over cell `f` (was `b`) at column `x`, row `y`: a changed
/// cell is written after moving to its row once and to its column when the
/// run was broken.
pub open spec fn diff_cell(f: Cell, b: Cell, w: int, x: int, y: int, st: DiffState) -> DiffState {
    if f == b {
        st
    } else {
        let o1 = if !st.row { st.out + csi(y + 1, ";H"@) } else { st.out };
        let o2 = if st.streak + 1 != x { o1 + csi(x + 1, "G"@) } else { o1 };
        DiffState {
            out: o2 + diff_seq(f.s, st.style) + seq![f.c],
            style: f.s,
            row: true,
            streak: if ascii_char(f.c) { x } else { w },
        }
    }
}

/// The diff pass over the first `x` cells of row `y`.
pub open spec fn diff_row(
    front: Seq<Cell>,
    back: Seq<Cell>,
    w: int,
    y: int,
    x: int,
    st: DiffState,
) -> DiffState
    decreases x,
{
    if x <= 0 {
        st
    } else {
        diff_cell(
            front[y * w + x - 1],
            back[y * w + x - 1],
            w,
            x - 1,
            y,
            diff_row(front, back, w, y, x - 1, st),
        )
    }
}

/// The diff pass over the first `y` rows, starting in the default style.
pub open spec fn diff_rows(front: Seq<Cell>, back: Seq<Cell>, w: int, y: int) -> DiffState
    decreases y,
{
    if y <= 0 {
        DiffState { out: Seq::empty(), style: default_style(), row: false, streak: w }
    } else {
        let p = diff_rows(front, back, w, y - 1);
        diff_row(front, back, w, y - 1, w, DiffState { row: false, streak: w, ..p })
    }
}

/// Where the full repaint stands: the output so far and the current style.
pub struct FullState {
    pub out: Seq<char>,
    pub style: Style,
}

/// The full repaint of cell `c` at column `x`: its style change, its
/// character, and a column jump after a non-ASCII character.
pub open spec fn full_cell(c: Cell, x: int, st: FullState) -> FullState {
    FullState {
        out: st.out + diff_seq(c.s, st.style) + seq![c.c] + if ascii_char(c.c) {
            Seq::empty()
        } else {
            csi(x + 2, "G"@)
        },
        style: c.s,
    }
}

/// The full repaint of the first `x` cells of row `y`.
pub open spec fn full_row(front: Seq<Cell>, w: int, y: int, x: int, st: FullState) -> FullState
    decreases x,
{
    if x <= 0 {
        st
    } else {
        full_cell(front[y * w + x - 1], x - 1, full_row(front, w, y, x - 1, st))
    }
}

/// The full repaint of the first `y` of `h` rows, rows separated by
/// newlines.
pub open spec fn full_rows(front: Seq<Cell>, w: int, h: int, y: int) -> FullState
    decreases y,
{
    if y <= 0 {
        FullState { out: Seq::empty(), style: default_style() }
    } else {
        let r = full_row(front, w, y - 1, w, full_rows(front, w, h, y - 1));
        if y < h {
            FullState { out: r.out.push('\n'), ..r }
        } else {
            r
        }
    }
}

/// The terminal output that turns a screen showing `back` into one showing
/// `front`: a full repaint from the top-left corner when the sizes differ,
/// else only the changed cells; a final attribute reset when anything was
/// written.
pub open spec fn render_seq(front: Buff, back: Buff) -> Seq<char> {
    let w = front.width as int;
    let h = front.height as int;
    let body = if front.width != back.width || front.height != back.height {
        "\x1b[H"@ + full_rows(front.cells@, w, h, h).out
    } else {
        diff_rows(front.cells@, back.cells@, w, h).out
    };
    if body.len() == 0 {
        body
    } else {
        body + "\x1b[m"@
    }
}

/// Every cell of `front`, row by row.
fn full_repaint(front: &Buff) -> (r: String)
    requires
        front.wf(),
    ensures
        r@ == full_rows(front.cells@, front.width as int, front.height as int, front.height as int).out,
{
    let w = front.width;
    let h = front.height;
    let ghost fc = front.cells@;
    let mut out = String::new();
    let mut style = Style::default();
    let mut y: u32 = 0;
    while y < h
        invariant
            y <= h,
            w == front.width,
            h == front.height,
            fc == front.cells@,
            front.wf(),
            (FullState { out: out@, style }) == full_rows(fc, w as int, h as int, y as int),
        decreases h - y,
    {
        let ghost st0 = FullState { out: out@, style };
        let mut x: u32 = 0;
        while x < w
            invariant
                x <= w,
                y < h,
                w == front.width,
                h == front.height,
                fc == front.cells@,
                front.wf(),
                (FullState { out: out@, style }) == full_row(fc, w as int, y as int, x as int, st0),
            decreases w - x,
        {
            proof {
                lemma_index_in_grid(w as int, h as int, x as int, y as int);
            }
            let n = front.cells.len();
            assert(y as int * w as int <= n as int);
            let cell = front.cells[(y as usize) * (w as usize) + (x as usize)];
            let d = cell.s.diff_to_string(style);
            push_str(&mut out, d.as_str());
            out.push(cell.c);
            if !((cell.c as u32) < 128) {
                push_csi(&mut out, x as u64 + 2, "G");
            }
            style = cell.s;
            x = x + 1;
            proof {
                let prev = full_row(fc, w as int, y as int, x - 1, st0);
                assert(fc[y * w + x - 1] == cell);
                if ascii_char(cell.c) {
                    assert(out@ =~= prev.out + diff_seq(cell.s, prev.style) + seq![cell.c] + Seq::empty());
                } else {
                    assert(out@ =~= prev.out + diff_seq(cell.s, prev.style) + seq![cell.c] + csi(x - 1 + 2, "G"@));
                }
            }
        }
        if y + 1 < h {
            out.push('\n');
        }
        y = y + 1;
    }
    out
}

/// The changed cells of `front` against `back`, each run of changed cells
/// written after one cursor jump.
fn diff_repaint(front: &Buff, back: &Buff) -> (r: String)
    requires
        front.wf(),
        back.wf(),
        front.width == back.width,
        front.height == back.height,
    ensures
        r@ == diff_rows(front.cells@, back.cells@, front.width as int, front.height as int).out,
{
    let w = front.width;
    let h = front.height;
    let ghost fc = front.cells@;
    let ghost bc = back.cells@;
    let mut out = String::new();
    let mut style = Style::default();
    let mut y: u32 = 0;
    while y < h
        invariant
            y <= h,
            w == front.width,
            h == front.height,
            w == back.width,
            h == back.height,
            fc == front.cells@,
            bc == back.cells@,
            front.wf(),
            back.wf(),
            out@ == diff_rows(fc, bc, w as int, y as int).out,
            style == diff_rows(fc, bc, w as int, y as int).style,
        decreases h - y,
    {
        let ghost st0 = DiffState { row: false, streak: w as int, ..diff_rows(fc, bc, w as int, y as int) };
        let mut row = false;
        let mut streak: u64 = w as u64;
        let mut x: u32 = 0;
        while x < w
            invariant
                x <= w,
                y < h,
                w == front.width,
                h == front.height,
                w == back.width,
                h == back.height,
                fc == front.cells@,
                bc == back.cells@,
                front.wf(),
                back.wf(),
                streak <= w,
                (DiffState { out: out@, style, row, streak: streak as int }) == diff_row(
                    fc,
                    bc,
                    w as int,
                    y as int,
                    x as int,
                    st0,
                ),
            decreases w - x,
        {
            proof {
                lemma_index_in_grid(w as int, h as int, x as int, y as int);
            }
            let n = front.cells.len();
            assert(y as int * w as int <= n as int);
            let k = (y as usize) * (w as usize) + (x as usize);
            let cell = front.cells[k];
            let bcell = back.cells[k];
            let ghost prev = DiffState { out: out@, style, row, streak: streak as int };
            if cell != bcell {
                if !row {
                    push_csi(&mut out, y as u64 + 1, ";H");
                    row = true;
                }
                if streak + 1 != x as u64 {
                    push_csi(&mut out, x as u64 + 1, "G");
                }
                let d = cell.s.diff_to_string(style);
                push_str(&mut out, d.as_str());
                out.push(cell.c);
                style = cell.s;
                streak = if (cell.c as u32) < 128 { x as u64 } else { w as u64 };
            }
            x = x + 1;
            proof {
                assert(fc[y * w + x - 1] == cell);
                assert(bc[y * w + x - 1] == bcell);
                let o1 = if !prev.row { prev.out + csi(y + 1, ";H"@) } else { prev.out };
                let o2 = if prev.streak + 1 != x - 1 { o1 + csi(x - 1 + 1, "G"@) } else { o1 };
                if cell != bcell {
                    assert(out@ =~= o2 + diff_seq(cell.s, prev.style) + seq![cell.c]);
                }
            }
        }
        y = y + 1;
    }
    out
}

proof fn lemma_diff_row_same(f: Seq<Cell>, w: int, y: int, x: int, st: DiffState)
    ensures
        diff_row(f, f, w, y, x, st) == st,
    decreases x,
{
    if x > 0 {
        lemma_diff_row_same(f, w, y, x - 1, st);
    }
}

proof fn lemma_diff_rows_same(f: Seq<Cell>, w: int, y: int)
    ensures
        diff_rows(f, f, w, y).out == Seq::<char>::empty(),
    decreases y,
{
    if y > 0 {
        lemma_diff_rows_same(f, w, y - 1);
        let p = diff_rows(f, f, w, y - 1);
        lemma_diff_row_same(f, w, y - 1, w, DiffState { row: false, streak: w, ..p });
    }
}

/// Once `flip` has recorded the drawn grid as shown, rendering the same grid
/// again emits nothing at all.
pub proof fn lemma_render_after_flip_is_empty(r: Renderer)
    requires
        r.wf(),
        r.backbuffer.cells@ == r.buffer.cells@,
        r.backbuffer.width == r.buffer.width,
        r.backbuffer.height == r.buffer.height,
    ensures
        render_seq(r.buffer, r.backbuffer) == Seq::<char>::empty(),
{
    lemma_diff_rows_same(r.buffer.cells@, r.buffer.width as int, r.buffer.height as int);
}

} // verus!
