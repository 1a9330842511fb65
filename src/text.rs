//! The document: a flat character sequence split into lines by `'\n'`, a
//! line/column cursor, a scroll offset, and the modal command menu on top.

use vstd::prelude::*;
use crate::strings::{chars_of, control_char, dec, dec_string, is_control, is_white_space, push_str, string_of, white_space};

verus! {

/// The largest document, in characters: cursor coordinates are `i32`.
pub const MAX_TEXT: usize = 0x7fff_ffff;

/// The number of newlines in `t`.
pub open spec fn nl_count(t: Seq<char>) -> nat
    decreases t.len(),
{
    if t.len() == 0 {
        0
    } else {
        nl_count(t.drop_last()) + if t.last() == '\n' { 1nat } else { 0nat }
    }
}

/// The number of lines of `t`: one more than its newlines.
pub open spec fn line_count(t: Seq<char>) -> nat {
    nl_count(t) + 1
}

/// The start of the line that holds index `i`: just after the last newline
/// before `i`, or 0.
pub open spec fn line_start(t: Seq<char>, i: int) -> int
    decreases i,
{
    if i <= 0 {
        0
    } else if t[i - 1] == '\n' {
        i
    } else {
        line_start(t, i - 1)
    }
}

/// The end of the line that holds index `i`: the first newline at or after
/// `i`, or the end of the text.
pub open spec fn line_end(t: Seq<char>, i: int) -> int
    decreases t.len() - i,
{
    if i >= t.len() {
        t.len() as int
    } else if t[i] == '\n' {
        i
    } else {
        line_end(t, i + 1)
    }
}

/// The start of line `r`, found by skipping `r` lines from index `i`.
pub open spec fn seek_row(t: Seq<char>, i: int, r: nat) -> int
    decreases r,
{
    if r == 0 {
        i
    } else {
        seek_row(t, line_end(t, i) + 1, (r - 1) as nat)
    }
}

/// The start of line `r` (for `r < line_count(t)`).
pub open spec fn row_start(t: Seq<char>, r: nat) -> int {
    seek_row(t, 0, r)
}

/// The length of line `r` (for `r < line_count(t)`).
pub open spec fn row_len(t: Seq<char>, r: nat) -> int {
    line_end(t, row_start(t, r)) - row_start(t, r)
}

/// `v` clamped into `[lo, hi]`.
pub open spec fn clamp(v: int, lo: int, hi: int) -> int {
    if v < lo {
        lo
    } else if v > hi {
        hi
    } else {
        v
    }
}

/// The cursor moved into the text: row clamped to the lines, then column
/// clamped to that line's length.
pub open spec fn fix_pos(t: Seq<char>, c: (int, int)) -> (int, int) {
    let row = clamp(c.1, 0, nl_count(t) as int);
    (clamp(c.0, 0, row_len(t, row as nat)), row)
}

/// The flat index of a (possibly out-of-range) cursor.
pub open spec fn index_of(t: Seq<char>, c: (int, int)) -> int {
    let f = fix_pos(t, c);
    row_start(t, f.1 as nat) + f.0
}

/// The line/column position of flat index `i`, clamped into the text.
pub open spec fn pos_of(t: Seq<char>, i: int) -> (int, int) {
    let j = clamp(i, 0, t.len() as int);
    (j - line_start(t, j), nl_count(t.take(j)) as int)
}

/// Whether `s` starts a line of `t`.
pub open spec fn is_line_start(t: Seq<char>, s: int) -> bool {
    0 <= s <= t.len() && (s == 0 || t[s - 1] == '\n')
}

proof fn lemma_take_step(t: Seq<char>, j: int)
    requires
        0 <= j < t.len(),
    ensures
        nl_count(t.take(j + 1)) == nl_count(t.take(j)) + if t[j] == '\n' { 1nat } else { 0nat },
{
    assert(t.take(j + 1).drop_last() =~= t.take(j));
}

proof fn lemma_take_mono(t: Seq<char>, a: int, b: int)
    requires
        0 <= a <= b <= t.len(),
    ensures
        nl_count(t.take(a)) <= nl_count(t.take(b)),
        nl_count(t.take(t.len() as int)) == nl_count(t),
    decreases b - a,
{
    assert(t.take(t.len() as int) =~= t);
    if a < b {
        lemma_take_step(t, b - 1);
        lemma_take_mono(t, a, b - 1);
    }
}

proof fn lemma_line_end(t: Seq<char>, s: int)
    requires
        0 <= s <= t.len(),
    ensures
        s <= line_end(t, s) <= t.len(),
        forall|k: int| s <= k < line_end(t, s) ==> t[k] != '\n',
        line_end(t, s) < t.len() ==> t[line_end(t, s)] == '\n',
    decreases t.len() - s,
{
    if s < t.len() && t[s] != '\n' {
        lemma_line_end(t, s + 1);
    }
}

/// Inside one line the line start and the row do not change.
proof fn lemma_within_line(t: Seq<char>, s: int, j: int)
    requires
        is_line_start(t, s),
        s <= j <= line_end(t, s),
    ensures
        line_start(t, j) == s,
        nl_count(t.take(j)) == nl_count(t.take(s)),
    decreases j - s,
{
    lemma_line_end(t, s);
    if j > s {
        assert(t[j - 1] != '\n');
        lemma_take_step(t, j - 1);
        lemma_within_line(t, s, j - 1);
    }
}

proof fn lemma_line_start(t: Seq<char>, j: int)
    requires
        0 <= j <= t.len(),
    ensures
        is_line_start(t, line_start(t, j)),
        line_start(t, j) <= j <= line_end(t, line_start(t, j)),
    decreases j,
{
    if j > 0 && t[j - 1] != '\n' {
        lemma_line_start(t, j - 1);
        let s = line_start(t, j - 1);
        lemma_line_end(t, s);
        if line_end(t, s) == j - 1 {
            assert(t[j - 1] == '\n');
        }
    } else {
        lemma_line_end(t, j);
    }
}

proof fn lemma_seek_row(t: Seq<char>, i: int, r: nat)
    requires
        is_line_start(t, i),
        nl_count(t.take(i)) + r <= nl_count(t),
    ensures
        is_line_start(t, seek_row(t, i, r)),
        nl_count(t.take(seek_row(t, i, r))) == nl_count(t.take(i)) + r,
    decreases r,
{
    if r > 0 {
        let e = line_end(t, i);
        lemma_line_end(t, i);
        lemma_within_line(t, i, e);
        lemma_take_mono(t, 0, t.len() as int);
        if e == t.len() {
            assert(false);
        }
        lemma_take_step(t, e);
        lemma_seek_row(t, e + 1, (r - 1) as nat);
    }
}

proof fn lemma_row_start(t: Seq<char>, r: nat)
    requires
        r <= nl_count(t),
    ensures
        is_line_start(t, row_start(t, r)),
        nl_count(t.take(row_start(t, r))) == r,
        0 <= row_len(t, r),
        row_start(t, r) + row_len(t, r) <= t.len(),
{
    assert(t.take(0) =~= Seq::<char>::empty());
    lemma_seek_row(t, 0, r);
    lemma_line_end(t, row_start(t, r));
}

proof fn lemma_line_start_unique(t: Seq<char>, a: int, b: int)
    requires
        is_line_start(t, a),
        is_line_start(t, b),
        nl_count(t.take(a)) == nl_count(t.take(b)),
    ensures
        a == b,
{
    if a < b {
        lemma_take_step(t, b - 1);
        lemma_take_mono(t, a, b - 1);
    } else if b < a {
        lemma_take_step(t, a - 1);
        lemma_take_mono(t, b, a - 1);
    }
}

/// A fixed cursor is its own fix, and the row and column of its index are
/// that cursor again.
pub proof fn lemma_index_then_pos(t: Seq<char>, c: (int, int))
    ensures
        fix_pos(t, fix_pos(t, c)) == fix_pos(t, c),
        pos_of(t, index_of(t, fix_pos(t, c))) == fix_pos(t, c),
        0 <= index_of(t, c) <= t.len(),
{
    let f = fix_pos(t, c);
    lemma_row_start(t, f.1 as nat);
    let s = row_start(t, f.1 as nat);
    let i = s + f.0;
    lemma_within_line(t, s, i);
}

/// The row and column of an index lead back to that index.
pub proof fn lemma_pos_then_index(t: Seq<char>, i: int)
    requires
        0 <= i <= t.len(),
    ensures
        index_of(t, pos_of(t, i)) == i,
        fix_pos(t, pos_of(t, i)) == pos_of(t, i),
{
    let ls = line_start(t, i);
    lemma_line_start(t, i);
    lemma_within_line(t, ls, i);
    let r = nl_count(t.take(i));
    lemma_take_mono(t, i, t.len() as int);
    lemma_row_start(t, r);
    lemma_line_start_unique(t, ls, row_start(t, r));
}

/// Counts the newlines among the first `n` characters.
fn newlines_before(t: &Vec<char>, n: usize) -> (r: usize)
    requires
        n <= t@.len(),
    ensures
        r == nl_count(t@.take(n as int)),
        r <= n,
{
    let mut r: usize = 0;
    let mut i: usize = 0;
    assert(t@.take(0) =~= Seq::<char>::empty());
    while i < n
        invariant
            i <= n <= t@.len(),
            r == nl_count(t@.take(i as int)),
            r <= i,
        decreases n - i,
    {
        proof {
            lemma_take_step(t@, i as int);
        }
        if t[i] == '\n' {
            r = r + 1;
        }
        i = i + 1;
    }
    r
}

/// The first newline at or after `i`, or the end of the text.
fn find_line_end(t: &Vec<char>, i: usize) -> (r: usize)
    requires
        i <= t@.len(),
    ensures
        r == line_end(t@, i as int),
{
    let mut j = i;
    while j < t.len() && t[j] != '\n'
        invariant
            i <= j <= t@.len(),
            line_end(t@, j as int) == line_end(t@, i as int),
        decreases t@.len() - j,
    {
        j = j + 1;
    }
    j
}

/// The start of the line that holds index `i`.
fn find_line_start(t: &Vec<char>, i: usize) -> (r: usize)
    requires
        i <= t@.len(),
    ensures
        r == line_start(t@, i as int),
{
    let mut j = i;
    while j > 0 && t[j - 1] != '\n'
        invariant
            j <= i <= t@.len(),
            line_start(t@, j as int) == line_start(t@, i as int),
        decreases j,
    {
        j = j - 1;
    }
    j
}

/// The start of line `r`.
fn find_row_start(t: &Vec<char>, r: usize) -> (s: usize)
    requires
        r <= nl_count(t@),
    ensures
        s == row_start(t@, r as nat),
        s <= t@.len(),
{
    let mut s: usize = 0;
    let mut k: usize = 0;
    assert(t@.take(0) =~= Seq::<char>::empty());
    while k < r
        invariant
            k <= r <= nl_count(t@),
            is_line_start(t@, s as int),
            nl_count(t@.take(s as int)) == k,
            seek_row(t@, s as int, (r - k) as nat) == row_start(t@, r as nat),
        decreases r - k,
    {
        let e = find_line_end(t, s);
        proof {
            lemma_seek_row(t@, s as int, 1);
            lemma_seek_row(t@, s as int, (r - k) as nat);
            assert(seek_row(t@, e + 1, 0) == e + 1);
            assert(seek_row(t@, s as int, 1) == e + 1);
        }
        let n = t.len();
        assert(e < n);
        s = e + 1;
        k = k + 1;
    }
    s
}

/// The number of white-space characters at the start of `t[start..end]`.
pub fn leading_whitespaces(t: &Vec<char>, start: usize, end: usize) -> (r: usize)
    requires
        start <= end <= t@.len(),
    ensures
        r == ws_run(t@, start as int, end as int),
        r <= end - start,
{
    let mut j = start;
    while j < end && is_white_space(t[j])
        invariant
            start <= j <= end <= t@.len(),
            ws_run(t@, start as int, end as int) == (j - start) + ws_run(t@, j as int, end as int),
        decreases end - j,
    {
        j = j + 1;
    }
    j - start
}

/// The length of the longest line.
fn longest_line_len(t: &Vec<char>) -> (r: usize)
    ensures
        r == longest_line(t@),
        r <= t@.len(),
{
    let mut i: usize = 0;
    let mut run: usize = 0;
    let mut best: usize = 0;
    while i < t.len()
        invariant
            i <= t@.len(),
            run <= i,
            best <= i,
            longest_from(t@, i as int, run as int, best as int) == longest_line(t@),
        decreases t@.len() - i,
    {
        if t[i] == '\n' {
            if run > best {
                best = run;
            }
            run = 0;
        } else {
            run = run + 1;
        }
        i = i + 1;
    }
    if run > best {
        run
    } else {
        best
    }
}

/// The number of newlines in `t`.
pub fn count_newlines(t: &Vec<char>) -> (r: usize)
    ensures
        r == nl_count(t@),
        r <= t@.len(),
{
    let r = newlines_before(t, t.len());
    proof {
        lemma_take_mono(t@, 0, t@.len() as int);
    }
    r
}

/// The start of line `r`, and where it lies.
pub fn row_start_of(t: &Vec<char>, r: usize) -> (s: usize)
    requires
        r <= nl_count(t@),
    ensures
        s == row_start(t@, r as nat),
        s <= t@.len(),
{
    find_row_start(t, r)
}

/// The end of the line that holds index `i`.
pub fn line_end_of(t: &Vec<char>, i: usize) -> (e: usize)
    requires
        i <= t@.len(),
    ensures
        e == line_end(t@, i as int),
        i <= e <= t@.len(),
{
    proof {
        lemma_line_end(t@, i as int);
    }
    find_line_end(t, i)
}

/// The menu overlay of a buffer; `Inactive` when plain editing is on.
#[derive(Clone, PartialEq, Eq, Debug)]
pub enum MenuState {
    Inactive,
    Open(String),
    Command(String),
    SaveFailed,
    Save(String),
    Overwrite(String),
    Load(String),
    ForceLoad,
}

/// A copy of `m`.
pub fn copy_menu(m: &MenuState) -> (r: MenuState)
    ensures
        r@ == m@,
{
    match m {
        MenuState::Inactive => MenuState::Inactive,
        MenuState::Open(s) => MenuState::Open(s.clone()),
        MenuState::Command(s) => MenuState::Command(s.clone()),
        MenuState::SaveFailed => MenuState::SaveFailed,
        MenuState::Save(s) => MenuState::Save(s.clone()),
        MenuState::Overwrite(s) => MenuState::Overwrite(s.clone()),
        MenuState::Load(s) => MenuState::Load(s.clone()),
        MenuState::ForceLoad => MenuState::ForceLoad,
    }
}

/// One document being edited.
pub struct Buffer {
    pub body: Vec<char>,
    pub cursor: (i32, i32),
    pub scroll: (i32, i32),
    pub menu: MenuState,
    pub saved: bool,
    pub path: Option<String>,
}

/// A key press as the editor sees it.
#[derive(Clone, PartialEq, Eq, Debug)]
pub enum Key {
    Esc,
    Char(char),
    Backspace,
    Alt(char),
    Up,
    Down,
    Left,
    Right,
    CtrlUp,
    CtrlDown,
    CtrlLeft,
    CtrlRight,
    Home,
    End,
    /// Any other key, by its textual name.
    Unknown(String),
}

/// What the caller must do after a key was handled.
#[derive(Clone, PartialEq, Eq, Debug)]
pub enum Effect {
    Nothing,
    /// Keep the text cursor visible for a moment: the user is typing.
    HoldCursor,
    /// Stop the editor.
    Quit,
    /// Write the document to this path, then report through `write_done`.
    Write(String),
    /// Read this path, then report through `read_done`.
    Read(String),
    /// Look up the working directory, then report through `browse_done`
    /// with `load` false.
    BrowseSave,
    /// Look up the working directory, then report through `browse_done`
    /// with `load` true.
    BrowseLoad,
}

/// `MenuState` with its strings as character sequences.
pub enum MenuView {
    Inactive,
    Open(Seq<char>),
    Command(Seq<char>),
    SaveFailed,
    Save(Seq<char>),
    Overwrite(Seq<char>),
    Load(Seq<char>),
    ForceLoad,
}

/// `Effect` with its strings as character sequences.
pub enum EffectView {
    Nothing,
    HoldCursor,
    Quit,
    Write(Seq<char>),
    Read(Seq<char>),
    BrowseSave,
    BrowseLoad,
}

impl View for MenuState {
    type V = MenuView;

    open spec fn view(&self) -> MenuView {
        match self {
            MenuState::Inactive => MenuView::Inactive,
            MenuState::Open(m) => MenuView::Open(m@),
            MenuState::Command(m) => MenuView::Command(m@),
            MenuState::SaveFailed => MenuView::SaveFailed,
            MenuState::Save(m) => MenuView::Save(m@),
            MenuState::Overwrite(m) => MenuView::Overwrite(m@),
            MenuState::Load(m) => MenuView::Load(m@),
            MenuState::ForceLoad => MenuView::ForceLoad,
        }
    }
}

impl View for Effect {
    type V = EffectView;

    open spec fn view(&self) -> EffectView {
        match self {
            Effect::Nothing => EffectView::Nothing,
            Effect::HoldCursor => EffectView::HoldCursor,
            Effect::Quit => EffectView::Quit,
            Effect::Write(p) => EffectView::Write(p@),
            Effect::Read(p) => EffectView::Read(p@),
            Effect::BrowseSave => EffectView::BrowseSave,
            Effect::BrowseLoad => EffectView::BrowseLoad,
        }
    }
}

/// A buffer's state as mathematical values.
pub struct BufferView {
    pub text: Seq<char>,
    pub cursor: (int, int),
    pub scroll: (int, int),
    pub menu: MenuView,
    pub saved: bool,
    pub path: Option<Seq<char>>,
}

impl View for Buffer {
    type V = BufferView;

    open spec fn view(&self) -> BufferView {
        BufferView {
            text: self.body@,
            cursor: (self.cursor.0 as int, self.cursor.1 as int),
            scroll: (self.scroll.0 as int, self.scroll.1 as int),
            menu: self.menu@,
            saved: self.saved,
            path: match self.path {
                Some(p) => Some(p@),
                None => None,
            },
        }
    }
}

/// `t` with `s` inserted before index `i`.
pub open spec fn insert_at(t: Seq<char>, i: int, s: Seq<char>) -> Seq<char> {
    t.take(i) + s + t.skip(i)
}

/// The number of white-space characters at the start of `t[i..e]`.
pub open spec fn ws_run(t: Seq<char>, i: int, e: int) -> int
    decreases e - i,
{
    if i < e && white_space(t[i]) {
        1 + ws_run(t, i + 1, e)
    } else {
        0
    }
}

/// The length of the longest line, scanning from index `i` where the current
/// line so far is `run` long and the longest finished line is `best`.
pub open spec fn longest_from(t: Seq<char>, i: int, run: int, best: int) -> int
    decreases t.len() - i,
{
    if i >= t.len() {
        if run > best { run } else { best }
    } else if t[i] == '\n' {
        longest_from(t, i + 1, 0, if run > best { run } else { best })
    } else {
        longest_from(t, i + 1, run + 1, best)
    }
}

/// The length of the longest line of `t`.
pub open spec fn longest_line(t: Seq<char>) -> int {
    longest_from(t, 0, 0, 0)
}

/// What a typed character inserts: four spaces for a tab, a newline for a
/// carriage return, else the character itself.
pub open spec fn typed(c: char) -> Seq<char> {
    if c == '\t' {
        seq![' ', ' ', ' ', ' ']
    } else if c == '\r' {
        seq!['\n']
    } else {
        seq![c]
    }
}

/// Inserts `s` at the cursor and moves the cursor past it; a document that
/// would grow beyond `MAX_TEXT` stays as it is.
pub open spec fn insert_view(b: BufferView, s: Seq<char>) -> BufferView {
    let ci = index_of(b.text, b.cursor);
    if b.text.len() + s.len() > MAX_TEXT {
        b
    } else {
        let t = insert_at(b.text, ci, s);
        BufferView { text: t, cursor: pos_of(t, ci + s.len()), saved: false, ..b }
    }
}

/// The buffer after `key` in plain editing (no menu open).
pub open spec fn edit_view(b: BufferView, key: Key, smart_home: bool) -> BufferView {
    let t = b.text;
    let ci = index_of(t, b.cursor);
    let row = fix_pos(t, b.cursor).1;
    match key {
        Key::Esc => BufferView { menu: MenuView::Open(Seq::empty()), ..b },
        Key::Char(c) => insert_view(b, typed(c)),
        Key::Backspace => if ci > 0 {
            let t2 = t.remove(ci - 1);
            BufferView { text: t2, cursor: pos_of(t2, ci - 1), saved: false, ..b }
        } else {
            b
        },
        Key::Alt(_) => b,
        Key::Up => BufferView { cursor: (b.cursor.0, clamp(b.cursor.1 - 1, 0, nl_count(t) as int)), ..b },
        Key::Down => BufferView {
            cursor: (b.cursor.0, clamp(b.cursor.1 + 1, 0, nl_count(t) as int)),
            ..b
        },
        Key::Left => if ci != 0 {
            BufferView { cursor: pos_of(t, ci - 1), ..b }
        } else {
            b
        },
        Key::Right => BufferView { cursor: pos_of(t, ci + 1), ..b },
        Key::CtrlUp => if b.scroll.1 > 0 {
            BufferView { scroll: (b.scroll.0, b.scroll.1 - 1), ..b }
        } else {
            b
        },
        Key::CtrlDown => if b.scroll.1 + 1 < line_count(t) {
            BufferView { scroll: (b.scroll.0, b.scroll.1 + 1), ..b }
        } else {
            b
        },
        Key::CtrlLeft => if b.scroll.0 > 0 {
            BufferView { scroll: (b.scroll.0 - 1, b.scroll.1), ..b }
        } else {
            b
        },
        Key::CtrlRight => if b.scroll.0 + 1 < longest_line(t) {
            BufferView { scroll: (b.scroll.0 + 1, b.scroll.1), ..b }
        } else {
            b
        },
        Key::End => BufferView { cursor: (row_len(t, row as nat), b.cursor.1), ..b },
        Key::Home => if smart_home {
            let s = row_start(t, row as nat);
            let ws = ws_run(t, s, line_end(t, s));
            BufferView { cursor: (if b.cursor.0 == ws { 0 } else { ws }, b.cursor.1), ..b }
        } else {
            BufferView { cursor: (0, b.cursor.1), ..b }
        },
        Key::Unknown(name) => insert_view(b, name@),
    }
}

/// The effect of `key` in plain editing: the cursor is held visible after
/// every key but an unknown one.
pub open spec fn edit_effect(key: Key) -> EffectView {
    match key {
        Key::Unknown(_) => EffectView::Nothing,
        _ => EffectView::HoldCursor,
    }
}

/// A fresh `Open` menu with no message.
pub open spec fn open_blank() -> MenuView {
    MenuView::Open(Seq::empty())
}

/// The menu and effect after character `c` in the open menu of `b`.
pub open spec fn menu_char(b: BufferView, c: char) -> (MenuView, EffectView) {
    let yes = c == 'y' || c == 'Y';
    let no = c == 'n' || c == 'N';
    let enter = c == '\n' || c == '\r';
    match b.menu {
        MenuView::Open(_) => if c == ':' {
            (MenuView::Command(Seq::empty()), EffectView::Nothing)
        } else if c == 'w' {
            match b.path {
                Some(p) => (b.menu, EffectView::Write(p)),
                None => (b.menu, EffectView::BrowseSave),
            }
        } else if c == 'r' {
            if !b.saved {
                (MenuView::ForceLoad, EffectView::Nothing)
            } else {
                match b.path {
                    Some(p) => (b.menu, EffectView::Read(p)),
                    None => (b.menu, EffectView::BrowseLoad),
                }
            }
        } else if c == 'q' {
            if b.saved {
                (b.menu, EffectView::Quit)
            } else {
                (MenuView::SaveFailed, EffectView::Nothing)
            }
        } else {
            (b.menu, EffectView::Nothing)
        },
        MenuView::ForceLoad => if yes {
            match b.path {
                Some(p) => (b.menu, EffectView::Read(p)),
                None => (b.menu, EffectView::BrowseLoad),
            }
        } else if no {
            (open_blank(), EffectView::Nothing)
        } else {
            (b.menu, EffectView::Nothing)
        },
        MenuView::Command(cmd) => if !control_char(c) {
            (MenuView::Command(cmd.push(c)), EffectView::Nothing)
        } else if enter {
            (MenuView::Inactive, EffectView::Nothing)
        } else {
            (b.menu, EffectView::Nothing)
        },
        MenuView::Save(p) => if !control_char(c) {
            (MenuView::Save(p.push(c)), EffectView::Nothing)
        } else if enter {
            match b.path {
                Some(q) => if q != p {
                    (MenuView::Overwrite(p), EffectView::Nothing)
                } else {
                    (b.menu, EffectView::Write(p))
                },
                None => (b.menu, EffectView::Write(p)),
            }
        } else {
            (b.menu, EffectView::Nothing)
        },
        MenuView::Overwrite(p) => if yes {
            (b.menu, EffectView::Write(p))
        } else if no {
            (open_blank(), EffectView::Nothing)
        } else {
            (b.menu, EffectView::Nothing)
        },
        MenuView::Load(p) => if !control_char(c) {
            (MenuView::Load(p.push(c)), EffectView::Nothing)
        } else if c == '\n' {
            (b.menu, EffectView::Read(p))
        } else {
            (b.menu, EffectView::Nothing)
        },
        MenuView::SaveFailed => if yes {
            (b.menu, EffectView::Quit)
        } else if no {
            (open_blank(), EffectView::Nothing)
        } else {
            (b.menu, EffectView::Nothing)
        },
        MenuView::Inactive => (b.menu, EffectView::Nothing),
    }
}

/// The menu and effect after `key` while a menu is open.
pub open spec fn menu_step(b: BufferView, key: Key) -> (MenuView, EffectView) {
    match key {
        Key::Esc => (MenuView::Inactive, EffectView::Nothing),
        Key::Char(c) => menu_char(b, c),
        Key::Backspace => (
            match b.menu {
                MenuView::Command(s) => MenuView::Command(
                    if s.len() > 0 { s.drop_last() } else { s },
                ),
                MenuView::Save(s) => MenuView::Save(if s.len() > 0 { s.drop_last() } else { s }),
                MenuView::Load(s) => MenuView::Load(if s.len() > 0 { s.drop_last() } else { s }),
                _ => b.menu,
            },
            EffectView::Nothing,
        ),
        _ => (b.menu, EffectView::Nothing),
    }
}

/// The number of bytes that `c` takes in UTF-8.
pub open spec fn utf8_width(c: char) -> nat {
    if (c as u32) < 0x80 {
        1
    } else if (c as u32) < 0x800 {
        2
    } else if (c as u32) < 0x10000 {
        3
    } else {
        4
    }
}

/// The number of bytes that `t` takes in UTF-8.
pub open spec fn byte_len(t: Seq<char>) -> nat
    decreases t.len(),
{
    if t.len() == 0 {
        0
    } else {
        byte_len(t.drop_last()) + utf8_width(t.last())
    }
}

/// The number of bytes that `t` takes in UTF-8.
fn byte_count(t: &Vec<char>) -> (r: u64)
    requires
        t@.len() <= MAX_TEXT,
    ensures
        r == byte_len(t@),
{
    let mut r: u64 = 0;
    let mut i: usize = 0;
    assert(t@.take(0) =~= Seq::<char>::empty());
    while i < t.len()
        invariant
            i <= t@.len() <= MAX_TEXT,
            r == byte_len(t@.take(i as int)),
            r <= 4 * i,
        decreases t@.len() - i,
    {
        let u = t[i] as u32;
        let w: u64 = if u < 0x80 {
            1
        } else if u < 0x800 {
            2
        } else if u < 0x10000 {
            3
        } else {
            4
        };
        assert(t@.take(i + 1).drop_last() =~= t@.take(i as int));
        r = r + w;
        i = i + 1;
    }
    assert(t@.take(i as int) =~= t@);
    r
}

/// The message shown after `n` bytes were written.
pub open spec fn wrote_msg(n: nat) -> Seq<char> {
    "Wrote "@ + dec(n) + " bytes"@
}

/// The message shown after `n` bytes were read.
pub open spec fn read_msg(n: nat) -> Seq<char> {
    "Read "@ + dec(n) + " bytes"@
}

impl MenuState {
    /// Whether no menu is open.
    pub fn is_inactive(&self) -> (r: bool)
        ensures
            r == (*self is Inactive),
    {
        match self {
            MenuState::Inactive => true,
            _ => false,
        }
    }
}

impl Buffer {
    /// The document's characters.
    pub open spec fn text(&self) -> Seq<char> {
        self.body@
    }

    /// The cursor as a pair of integers.
    pub open spec fn cursor_pos(&self) -> (int, int) {
        (self.cursor.0 as int, self.cursor.1 as int)
    }

    /// The text fits the coordinate type and cursor and scroll are not
    /// negative.
    pub open spec fn wf(&self) -> bool {
        &&& self.body@.len() <= MAX_TEXT
        &&& self.cursor.0 >= 0
        &&& self.cursor.1 >= 0
        &&& self.scroll.0 >= 0
        &&& self.scroll.1 >= 0
    }

    /// An empty, saved document with no backing path.
    pub fn new() -> (r: Buffer)
        ensures
            r.wf(),
            r.text() == Seq::<char>::empty(),
            r.cursor == (0i32, 0i32),
            r.scroll == (0i32, 0i32),
            r.menu == MenuState::Inactive,
            r.saved,
            r.path is None,
    {
        Buffer {
            body: Vec::new(),
            cursor: (0, 0),
            scroll: (0, 0),
            menu: MenuState::Inactive,
            saved: true,
            path: None,
        }
    }

    /// A document backed by `path`, with the file's contents when they could
    /// be read (and fit `MAX_TEXT`); else empty and not saved.
    pub fn from_file(path: String, contents: Option<String>) -> (r: Buffer)
        ensures
            r.wf(),
            (contents is Some && contents->0@.len() <= MAX_TEXT) ==> r.text() == contents->0@ && r.saved,
            !(contents is Some && contents->0@.len() <= MAX_TEXT) ==> r.text() == Seq::<char>::empty()
                && !r.saved,
            r.cursor == (0i32, 0i32),
            r.scroll == (0i32, 0i32),
            r.menu@ == MenuView::Inactive,
            r.path matches Some(p) && p@ == path@,
    {
        let (body, saved) = match contents {
            Some(text) => {
                let v = chars_of(text.as_str());
                if v.len() <= MAX_TEXT {
                    (v, true)
                } else {
                    (Vec::new(), false)
                }
            },
            None => (Vec::new(), false),
        };
        Buffer { body, cursor: (0, 0), scroll: (0, 0), menu: MenuState::Inactive, saved, path: Some(path) }
    }

    /// The document as a string.
    pub fn text_string(&self) -> (r: String)
        ensures
            r@ == self.text(),
    {
        string_of(&self.body)
    }

    /// The flat index of cursor `c` after clamping it into the text.
    pub fn cur(&self, c: (i32, i32)) -> (r: usize)
        requires
            self.wf(),
        ensures
            r == index_of(self.text(), (c.0 as int, c.1 as int)),
            r <= self.text().len(),
    {
        let f = self.fix(c);
        let s = find_row_start(&self.body, f.1 as usize);
        proof {
            lemma_index_then_pos(self.text(), (c.0 as int, c.1 as int));
        }
        s + f.0 as usize
    }

    /// Cursor `c` with its row clamped to the lines and its column to the
    /// length of that line.
    pub fn fix(&self, c: (i32, i32)) -> (r: (i32, i32))
        requires
            self.wf(),
        ensures
            (r.0 as int, r.1 as int) == fix_pos(self.text(), (c.0 as int, c.1 as int)),
    {
        let t = &self.body;
        let n = newlines_before(t, t.len());
        proof {
            lemma_take_mono(t@, 0, t@.len() as int);
        }
        let row: usize = if c.1 < 0 {
            0
        } else if c.1 as usize > n {
            n
        } else {
            c.1 as usize
        };
        let s = find_row_start(t, row);
        let e = find_line_end(t, s);
        proof {
            lemma_row_start(t@, row as nat);
        }
        let len = e - s;
        let col: usize = if c.0 < 0 {
            0
        } else if c.0 as usize > len {
            len
        } else {
            c.0 as usize
        };
        (col as i32, row as i32)
    }

    /// The line/column position of flat index `i`; an index past the end
    /// gives the end of the last line.
    pub fn ipos(&self, i: usize) -> (r: (i32, i32))
        requires
            self.wf(),
        ensures
            (r.0 as int, r.1 as int) == pos_of(self.text(), i as int),
            r.0 >= 0,
            r.1 >= 0,
    {
        let t = &self.body;
        let j = if i > t.len() { t.len() } else { i };
        let ls = find_line_start(t, j);
        proof {
            lemma_line_start(t@, j as int);
        }
        let row = newlines_before(t, j);
        ((j - ls) as i32, row as i32)
    }

    /// Inserts `s` at the cursor and moves the cursor past it.
    fn insert_seq(&mut self, s: &Vec<char>)
        requires
            old(self).wf(),
        ensures
            final(self).wf(),
            final(self)@ == insert_view(old(self)@, s@),
    {
        if s.len() > MAX_TEXT - self.body.len() {
            return;
        }
        let ci = self.cur(self.cursor);
        let ghost t0 = self.body@;
        let mut k: usize = 0;
        while k < s.len()
            invariant
                k <= s@.len(),
                ci <= t0.len(),
                t0.len() + s@.len() <= MAX_TEXT,
                t0 == old(self).body@,
                self.body@ == t0.take(ci as int) + s@.take(k as int) + t0.skip(ci as int),
                self.cursor == old(self).cursor,
                self.scroll == old(self).scroll,
                self.menu == old(self).menu,
                self.saved == old(self).saved,
                self.path == old(self).path,
            decreases s@.len() - k,
        {
            self.body.insert(ci + k, s[k]);
            k = k + 1;
            assert(self.body@ =~= t0.take(ci as int) + s@.take(k as int) + t0.skip(ci as int));
        }
        assert(s@.take(k as int) =~= s@);
        self.cursor = self.ipos(ci + s.len());
        self.saved = false;
    }

    /// Removes the character before the cursor, if any.
    fn backspace(&mut self)
        requires
            old(self).wf(),
        ensures
            final(self).wf(),
            final(self)@ == edit_view(old(self)@, Key::Backspace, false),
    {
        let ci = self.cur(self.cursor);
        if ci > 0 {
            self.body.remove(ci - 1);
            self.cursor = self.ipos(ci - 1);
            self.saved = false;
        }
    }

    /// The plain-editing reaction to `key`.
    fn edit_key(&mut self, key: Key, smart_home: bool) -> (r: Effect)
        requires
            old(self).wf(),
        ensures
            final(self).wf(),
            final(self)@ == edit_view(old(self)@, key, smart_home),
            r@ == edit_effect(key),
    {
        match key {
            Key::Esc => {
                self.menu = MenuState::Open(String::new());
                Effect::HoldCursor
            },
            Key::Char(c) => {
                let mut v: Vec<char> = Vec::new();
                if c == '\t' {
                    v.push(' ');
                    v.push(' ');
                    v.push(' ');
                    v.push(' ');
                } else if c == '\r' {
                    v.push('\n');
                } else {
                    v.push(c);
                }
                assert(v@ =~= typed(c));
                self.insert_seq(&v);
                Effect::HoldCursor
            },
            Key::Backspace => {
                self.backspace();
                Effect::HoldCursor
            },
            Key::Alt(_) => Effect::HoldCursor,
            Key::Up | Key::Down => {
                let n = count_newlines(&self.body);
                let target: i64 = match key {
                    Key::Up => self.cursor.1 as i64 - 1,
                    _ => self.cursor.1 as i64 + 1,
                };
                let row: i64 = if target < 0 {
                    0
                } else if target > n as i64 {
                    n as i64
                } else {
                    target
                };
                self.cursor = (self.cursor.0, row as i32);
                Effect::HoldCursor
            },
            Key::Left => {
                let ci = self.cur(self.cursor);
                if ci != 0 {
                    self.cursor = self.ipos(ci - 1);
                }
                Effect::HoldCursor
            },
            Key::Right => {
                let ci = self.cur(self.cursor);
                self.cursor = self.ipos(ci + 1);
                Effect::HoldCursor
            },
            Key::CtrlUp => {
                if self.scroll.1 > 0 {
                    self.scroll = (self.scroll.0, self.scroll.1 - 1);
                }
                Effect::HoldCursor
            },
            Key::CtrlDown => {
                let n = newlines_before(&self.body, self.body.len());
                proof {
                    lemma_take_mono(self.body@, 0, self.body@.len() as int);
                }
                if (self.scroll.1 as usize) < n {
                    self.scroll = (self.scroll.0, self.scroll.1 + 1);
                }
                Effect::HoldCursor
            },
            Key::CtrlLeft => {
                if self.scroll.0 > 0 {
                    self.scroll = (self.scroll.0 - 1, self.scroll.1);
                }
                Effect::HoldCursor
            },
            Key::CtrlRight => {
                let m = longest_line_len(&self.body);
                if (self.scroll.0 as usize) + 1 < m {
                    self.scroll = (self.scroll.0 + 1, self.scroll.1);
                }
                Effect::HoldCursor
            },
            Key::End => {
                let f = self.fix(self.cursor);
                let s = find_row_start(&self.body, f.1 as usize);
                let e = find_line_end(&self.body, s);
                proof {
                    lemma_row_start(self.body@, f.1 as nat);
                }
                assert(e - s <= MAX_TEXT);
                self.cursor = ((e - s) as i32, self.cursor.1);
                Effect::HoldCursor
            },
            Key::Home => {
                if smart_home {
                    let f = self.fix(self.cursor);
                    let s = find_row_start(&self.body, f.1 as usize);
                    let e = find_line_end(&self.body, s);
                    proof {
                        lemma_row_start(self.body@, f.1 as nat);
                    }
                    let w = leading_whitespaces(&self.body, s, e);
                    assert(w <= MAX_TEXT);
                    let ws = w as i32;
                    self.cursor = (if self.cursor.0 == ws { 0 } else { ws }, self.cursor.1);
                } else {
                    self.cursor = (0, self.cursor.1);
                }
                Effect::HoldCursor
            },
            Key::Unknown(name) => {
                let v = chars_of(name.as_str());
                self.insert_seq(&v);
                Effect::Nothing
            },
        }
    }

    /// The menu and effect after character `c` while a menu is open.
    fn menu_char_exec(&self, c: char) -> (r: (MenuState, Effect))
        ensures
            r.0@ == menu_char(self@, c).0,
            r.1@ == menu_char(self@, c).1,
    {
        let yes = c == 'y' || c == 'Y';
        let no = c == 'n' || c == 'N';
        let enter = c == '\n' || c == '\r';
        match &self.menu {
            MenuState::Open(m) => {
                if c == ':' {
                    (MenuState::Command(String::new()), Effect::Nothing)
                } else if c == 'w' {
                    match &self.path {
                        Some(p) => (MenuState::Open(m.clone()), Effect::Write(p.clone())),
                        None => (MenuState::Open(m.clone()), Effect::BrowseSave),
                    }
                } else if c == 'r' {
                    if !self.saved {
                        (MenuState::ForceLoad, Effect::Nothing)
                    } else {
                        match &self.path {
                            Some(p) => (MenuState::Open(m.clone()), Effect::Read(p.clone())),
                            None => (MenuState::Open(m.clone()), Effect::BrowseLoad),
                        }
                    }
                } else if c == 'q' {
                    if self.saved {
                        (MenuState::Open(m.clone()), Effect::Quit)
                    } else {
                        (MenuState::SaveFailed, Effect::Nothing)
                    }
                } else {
                    (MenuState::Open(m.clone()), Effect::Nothing)
                }
            },
            MenuState::ForceLoad => {
                if yes {
                    match &self.path {
                        Some(p) => (MenuState::ForceLoad, Effect::Read(p.clone())),
                        None => (MenuState::ForceLoad, Effect::BrowseLoad),
                    }
                } else if no {
                    (MenuState::Open(String::new()), Effect::Nothing)
                } else {
                    (MenuState::ForceLoad, Effect::Nothing)
                }
            },
            MenuState::Command(cmd) => {
                let mut t = cmd.clone();
                if !is_control(c) {
                    t.push(c);
                    (MenuState::Command(t), Effect::Nothing)
                } else if enter {
                    (MenuState::Inactive, Effect::Nothing)
                } else {
                    (MenuState::Command(t), Effect::Nothing)
                }
            },
            MenuState::Save(p) => {
                let mut t = p.clone();
                if !is_control(c) {
                    t.push(c);
                    (MenuState::Save(t), Effect::Nothing)
                } else if enter {
                    match &self.path {
                        Some(q) => {
                            if !q.eq(p) {
                                (MenuState::Overwrite(t), Effect::Nothing)
                            } else {
                                (MenuState::Save(t), Effect::Write(p.clone()))
                            }
                        },
                        None => (MenuState::Save(t), Effect::Write(p.clone())),
                    }
                } else {
                    (MenuState::Save(t), Effect::Nothing)
                }
            },
            MenuState::Overwrite(p) => {
                if yes {
                    (MenuState::Overwrite(p.clone()), Effect::Write(p.clone()))
                } else if no {
                    (MenuState::Open(String::new()), Effect::Nothing)
                } else {
                    (MenuState::Overwrite(p.clone()), Effect::Nothing)
                }
            },
            MenuState::Load(p) => {
                let mut t = p.clone();
                if !is_control(c) {
                    t.push(c);
                    (MenuState::Load(t), Effect::Nothing)
                } else if c == '\n' {
                    (MenuState::Load(t), Effect::Read(p.clone()))
                } else {
                    (MenuState::Load(t), Effect::Nothing)
                }
            },
            MenuState::SaveFailed => {
                if yes {
                    (MenuState::SaveFailed, Effect::Quit)
                } else if no {
                    (MenuState::Open(String::new()), Effect::Nothing)
                } else {
                    (MenuState::SaveFailed, Effect::Nothing)
                }
            },
            MenuState::Inactive => (MenuState::Inactive, Effect::Nothing),
        }
    }

    /// The menu and effect after `key` while a menu is open.
    fn menu_transition(&self, key: &Key) -> (r: (MenuState, Effect))
        ensures
            r.0@ == menu_step(self@, *key).0,
            r.1@ == menu_step(self@, *key).1,
    {
        match key {
            Key::Esc => (MenuState::Inactive, Effect::Nothing),
            Key::Char(c) => self.menu_char_exec(*c),
            Key::Backspace => {
                match &self.menu {
                    MenuState::Command(s) => {
                        let mut t = s.clone();
                        t.pop();
                        (MenuState::Command(t), Effect::Nothing)
                    },
                    MenuState::Save(s) => {
                        let mut t = s.clone();
                        t.pop();
                        (MenuState::Save(t), Effect::Nothing)
                    },
                    MenuState::Load(s) => {
                        let mut t = s.clone();
                        t.pop();
                        (MenuState::Load(t), Effect::Nothing)
                    },
                    _ => (copy_menu(&self.menu), Effect::Nothing),
                }
            },
            _ => (copy_menu(&self.menu), Effect::Nothing),
        }
    }

    /// Handles one key: in plain editing it edits, moves or scrolls; while
    /// a menu is open it drives the menu. The returned effect says what the
    /// caller must do next.
    pub fn key_pressed(&mut self, key: Key, smart_home: bool) -> (r: Effect)
        requires
            old(self).wf(),
        ensures
            final(self).wf(),
            old(self).menu is Inactive ==> final(self)@ == edit_view(old(self)@, key, smart_home)
                && r@ == edit_effect(key),
            !(old(self).menu is Inactive) ==> final(self)@ == (BufferView {
                menu: menu_step(old(self)@, key).0,
                ..old(self)@
            }) && r@ == menu_step(old(self)@, key).1,
    {
        match self.menu {
            MenuState::Inactive => self.edit_key(key, smart_home),
            _ => {
                let (m, e) = self.menu_transition(&key);
                self.menu = m;
                e
            },
        }
    }

    /// Reports the outcome of an `Effect::Write` to `path`: on success the
    /// path becomes the backing path, the document counts as saved and the
    /// menu shows how many bytes were written; on failure only the menu
    /// changes, to a message.
    pub fn write_done(&mut self, path: String, ok: bool)
        requires
            old(self).wf(),
        ensures
            final(self).wf(),
            ok ==> final(self)@ == (BufferView {
                menu: MenuView::Open(wrote_msg(byte_len(old(self)@.text))),
                saved: true,
                path: Some(path@),
                ..old(self)@
            }),
            !ok ==> final(self)@ == (BufferView {
                menu: MenuView::Open("Could not write"@),
                ..old(self)@
            }),
    {
        if ok {
            let n = byte_count(&self.body);
            let mut msg = "Wrote ".to_owned();
            push_str(&mut msg, dec_string(n).as_str());
            push_str(&mut msg, " bytes");
            self.menu = MenuState::Open(msg);
            self.saved = true;
            self.path = Some(path);
        } else {
            self.menu = MenuState::Open("Could not write".to_owned());
        }
    }

    /// Reports the outcome of an `Effect::Read` of `path`: with the file's
    /// contents (that fit `MAX_TEXT`) they replace the document, the path
    /// becomes the backing path, the document counts as saved and the menu
    /// shows how many bytes were read; else only the menu changes.
    pub fn read_done(&mut self, path: String, contents: Option<String>)
        requires
            old(self).wf(),
        ensures
            final(self).wf(),
            (contents is Some && contents->0@.len() <= MAX_TEXT) ==> final(self)@ == (BufferView {
                text: contents->0@,
                menu: MenuView::Open(read_msg(byte_len(contents->0@))),
                saved: true,
                path: Some(path@),
                ..old(self)@
            }),
            !(contents is Some && contents->0@.len() <= MAX_TEXT) ==> final(self)@ == (BufferView {
                menu: MenuView::Open("Could not read"@),
                ..old(self)@
            }),
    {
        match contents {
            Some(text) => {
                let v = chars_of(text.as_str());
                if v.len() <= MAX_TEXT {
                    let n = byte_count(&v);
                    let mut msg = "Read ".to_owned();
                    push_str(&mut msg, dec_string(n).as_str());
                    push_str(&mut msg, " bytes");
                    self.body = v;
                    self.menu = MenuState::Open(msg);
                    self.saved = true;
                    self.path = Some(path);
                } else {
                    self.menu = MenuState::Open("Could not read".to_owned());
                }
            },
            None => {
                self.menu = MenuState::Open("Could not read".to_owned());
            },
        }
    }

    /// Reports the working directory asked for by `Effect::BrowseSave`
    /// (`load` false) or `Effect::BrowseLoad` (`load` true): the save or
    /// load menu opens on that directory, or a message says it could not.
    pub fn browse_done(&mut self, load: bool, dir: Option<String>)
        requires
            old(self).wf(),
        ensures
            final(self).wf(),
            final(self)@ == (BufferView {
                menu: match dir {
                    Some(d) => if load {
                        MenuView::Load(d@ + "/"@)
                    } else {
                        MenuView::Save(d@ + "/"@)
                    },
                    None => if load {
                        MenuView::Open("Could not open load menu"@)
                    } else {
                        MenuView::Open("Could not open write menu"@)
                    },
                },
                ..old(self)@
            }),
    {
        match dir {
            Some(d) => {
                let mut p = d;
                push_str(&mut p, "/");
                if load {
                    self.menu = MenuState::Load(p);
                } else {
                    self.menu = MenuState::Save(p);
                }
            },
            None => {
                if load {
                    self.menu = MenuState::Open("Could not open load menu".to_owned());
                } else {
                    self.menu = MenuState::Open("Could not open write menu".to_owned());
                }
            },
        }
    }
}

/// Typing a character (other than tab) and then pressing backspace gives
/// back the text and the cursor, for a cursor inside the text and a document
/// with room for one more character.
pub proof fn lemma_insert_then_backspace(b: BufferView, c: char, smart_home: bool)
    requires
        b.cursor == fix_pos(b.text, b.cursor),
        b.text.len() + 1 <= MAX_TEXT,
        c != '\t',
    ensures
        edit_view(edit_view(b, Key::Char(c), smart_home), Key::Backspace, smart_home).text
            == b.text,
        edit_view(edit_view(b, Key::Char(c), smart_home), Key::Backspace, smart_home).cursor
            == b.cursor,
{
    let t = b.text;
    let ci = index_of(t, b.cursor);
    lemma_index_then_pos(t, b.cursor);
    let t1 = insert_at(t, ci, typed(c));
    assert(typed(c).len() == 1);
    lemma_pos_then_index(t1, ci + 1);
    let b1 = edit_view(b, Key::Char(c), smart_home);
    assert(b1.text == t1);
    assert(index_of(b1.text, b1.cursor) == ci + 1);
    assert(t1.remove(ci) =~= t);
}

/// A menu closes exactly on `Esc`, or on Enter in the command line; every
/// other key leaves some menu open.
pub proof fn lemma_menu_closes(b: BufferView, key: Key)
    requires
        !(b.menu is Inactive),
    ensures
        (menu_step(b, key).0 is Inactive) <==> (key is Esc || (b.menu is Command && key
            is Char && (key->Char_0 == '\n' || key->Char_0 == '\r'))),
{
}

} // verus!
