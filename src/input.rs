//! Decoding raw terminal input into typed events, and the event queue.

use vstd::prelude::*;
use crate::strings::push_str;

verus! {

/// A mouse report: where it happened (`x` column, `y` row), the raw event
/// code `state`, and the decoded `data` (a button mask for clicks and moves,
/// the direction for scrolls).
#[derive(Clone, Copy, PartialEq, Eq, Structural, Debug)]
pub enum MouseEvent {
    Scroll { x: i32, y: i32, state: i32, data: i32 },
    Click { x: i32, y: i32, state: i32, data: i32 },
    Move { x: i32, y: i32, state: i32, data: i32 },
    Unknown { x: i32, y: i32, state: i32, data: i32 },
}

/// A decoded input event.
#[derive(Clone, Copy, PartialEq, Eq, Structural, Debug)]
pub enum TermEvent {
    Char { char: char },
    Mouse { event: MouseEvent },
    Arrow { x: i32, y: i32, modifiers: i32 },
    Enter {},
    Backspace {},
}

/// One unit of raw input as the terminal reader delivers it.
#[derive(Clone, PartialEq, Eq, Debug)]
pub enum RawKey {
    Char(char),
    /// An escape sequence the reader did not recognise, without its `ESC`.
    UnknownEscSeq(Vec<char>),
    Enter,
    ArrowUp,
    ArrowDown,
    ArrowLeft,
    ArrowRight,
    Backspace,
    /// Any other key; it produces no event.
    Other,
}

/// Whether `c` is an ASCII decimal digit.
pub open spec fn is_digit(c: char) -> bool {
    '0' <= c && c <= '9'
}

/// The value of a string of decimal digits.
pub open spec fn digits_value(d: Seq<char>) -> nat
    decreases d.len(),
{
    if d.len() == 0 {
        0
    } else {
        digits_value(d.drop_last()) * 10 + ((d.last() as nat) - 48) as nat
    }
}

/// The value of a field: some when it is one or more digits whose value fits
/// a `u32`.
pub open spec fn field_value(d: Seq<char>) -> Option<u32> {
    if d.len() > 0 && (forall|i: int| 0 <= i < d.len() ==> is_digit(#[trigger] d[i]))
        && digits_value(d) <= u32::MAX {
        Some(digits_value(d) as u32)
    } else {
        None
    }
}

/// `p` split at each `;`.
pub open spec fn split_fields(p: Seq<char>) -> Seq<Seq<char>>
    decreases p.len(),
{
    if p.len() == 0 {
        seq![Seq::empty()]
    } else {
        let f = split_fields(p.drop_last());
        if p.last() == ';' {
            f.push(Seq::empty())
        } else {
            f.update(f.len() - 1, f.last().push(p.last()))
        }
    }
}

/// The three numbers of a mouse payload `event;column;row`, if it is one.
pub open spec fn mouse_fields(p: Seq<char>) -> Option<(u32, u32, u32)> {
    let f = split_fields(p);
    if f.len() == 3 && field_value(f[0]) is Some && field_value(f[1]) is Some && field_value(
        f[2],
    ) is Some {
        Some((field_value(f[0])->0, field_value(f[1])->0, field_value(f[2])->0))
    } else {
        None
    }
}

/// The button mask of a click or move: none 0, left 1, middle 2, right 4.
pub open spec fn button_mask(ev: u32) -> i32 {
    let b = ev & 3;
    if b == 0 {
        1
    } else if b == 1 {
        2
    } else if b == 2 {
        4
    } else {
        0
    }
}

/// The mouse event of code `ev` at column `x`, row `y`.
pub open spec fn mouse_event(ev: u32, x: u32, y: u32) -> MouseEvent {
    let kind = (ev >> 5u32) & 3;
    if kind == 0 {
        MouseEvent::Unknown { x: x as i32, y: y as i32, state: ev as i32, data: 0 }
    } else if kind == 1 {
        MouseEvent::Click { x: x as i32, y: y as i32, state: ev as i32, data: button_mask(ev) }
    } else if kind == 2 {
        MouseEvent::Move { x: x as i32, y: y as i32, state: ev as i32, data: button_mask(ev) }
    } else {
        MouseEvent::Scroll {
            x: x as i32,
            y: y as i32,
            state: ev as i32,
            data: if ev & 1 == 1 { 1i32 } else { -1i32 },
        }
    }
}

/// Whether `c` is an ASCII capital, the last character of a sequence.
pub open spec fn is_final(c: char) -> bool {
    'A' <= c && c <= 'Z'
}

/// The event of a finished escape sequence `s` (its last character a
/// capital): a mouse report for `M`, an arrow for `A` to `D`, else none.
pub open spec fn sequence_event(s: Seq<char>) -> Option<TermEvent> {
    let l = s.last();
    if l == 'M' {
        match mouse_fields(s.subrange(1, s.len() - 1)) {
            Some(f) => Some(TermEvent::Mouse { event: mouse_event(f.0, f.1, f.2) }),
            None => None,
        }
    } else if l == 'A' {
        Some(TermEvent::Arrow { x: 0, y: -1i32, modifiers: 0 })
    } else if l == 'B' {
        Some(TermEvent::Arrow { x: 0, y: 1, modifiers: 0 })
    } else if l == 'C' {
        Some(TermEvent::Arrow { x: 1, y: 0, modifiers: 0 })
    } else if l == 'D' {
        Some(TermEvent::Arrow { x: -1i32, y: 0, modifiers: 0 })
    } else {
        None
    }
}

/// The pending sequence and the event right after `key` arrives.
pub open spec fn take_key(pending: Seq<char>, key: RawKey) -> (Seq<char>, Option<TermEvent>) {
    match key {
        RawKey::Char(c) => if pending.len() > 0 {
            (pending.push(c), None)
        } else {
            (pending, Some(TermEvent::Char { char: c }))
        },
        RawKey::UnknownEscSeq(v) => (v@, None),
        RawKey::Enter => (pending, Some(TermEvent::Enter {  })),
        RawKey::ArrowUp => (pending, Some(TermEvent::Arrow { x: 0, y: -1i32, modifiers: 0 })),
        RawKey::ArrowDown => (pending, Some(TermEvent::Arrow { x: 0, y: 1, modifiers: 0 })),
        RawKey::ArrowLeft => (pending, Some(TermEvent::Arrow { x: -1i32, y: 0, modifiers: 0 })),
        RawKey::ArrowRight => (pending, Some(TermEvent::Arrow { x: 1, y: 0, modifiers: 0 })),
        RawKey::Backspace => (pending, Some(TermEvent::Backspace {  })),
        RawKey::Other => (pending, None),
    }
}

/// Whether the pending sequence `s` is finished.
pub open spec fn finished(s: Seq<char>) -> bool {
    s.len() > 1 && is_final(s.last())
}

/// The decoder state and the event after `key`: a finished sequence is
/// decoded and cleared, whatever its event.
pub open spec fn feed_spec(pending: Seq<char>, key: RawKey) -> (Seq<char>, Option<TermEvent>) {
    let (p, e) = take_key(pending, key);
    if finished(p) {
        (Seq::empty(), sequence_event(p))
    } else {
        (p, e)
    }
}

proof fn lemma_value_mono(d: Seq<char>, j: int, k: int)
    requires
        0 <= j <= k <= d.len(),
        forall|i: int| 0 <= i < d.len() ==> is_digit(#[trigger] d[i]),
    ensures
        digits_value(d.take(j)) <= digits_value(d.take(k)),
    decreases k - j,
{
    if j < k {
        lemma_value_mono(d, j, k - 1);
        assert(d.take(k).drop_last() =~= d.take(k - 1));
        assert(is_digit(d[k - 1]));
    }
}

/// Parses one decimal field.
fn parse_field(d: &Vec<char>) -> (r: Option<u32>)
    ensures
        r == field_value(d@),
{
    let mut acc: u64 = 0;
    let mut i: usize = 0;
    assert(d@.take(0) =~= Seq::<char>::empty());
    while i < d.len()
        invariant
            i <= d@.len(),
            forall|k: int| 0 <= k < i ==> is_digit(#[trigger] d@[k]),
            acc == digits_value(d@.take(i as int)),
            acc <= u32::MAX,
        decreases d@.len() - i,
    {
        let c = d[i];
        if !('0' <= c && c <= '9') {
            return None;
        }
        let next = acc * 10 + ((c as u32) - 48) as u64;
        assert(d@.take(i + 1).drop_last() =~= d@.take(i as int));
        if next > 0xffff_ffff {
            proof {
                assert forall|k: int| 0 <= k < i + 1 implies is_digit(#[trigger] d@.take(i + 1)[k]) by {
                }
                if forall|k: int| 0 <= k < d@.len() ==> is_digit(#[trigger] d@[k]) {
                    lemma_value_mono(d@, i + 1, d@.len() as int);
                    assert(d@.take(d@.len() as int) =~= d@);
                }
            }
            return None;
        }
        acc = next;
        i = i + 1;
    }
    assert(d@.take(i as int) =~= d@);
    if i == 0 {
        None
    } else {
        Some(acc as u32)
    }
}

/// Splits `p` at each `;`.
fn split_semis(p: &Vec<char>) -> (r: Vec<Vec<char>>)
    ensures
        r@.len() == split_fields(p@).len(),
        forall|k: int| 0 <= k < r@.len() ==> (#[trigger] r@[k])@ == split_fields(p@)[k],
{
    let mut fields: Vec<Vec<char>> = Vec::new();
    let mut cur: Vec<char> = Vec::new();
    let mut i: usize = 0;
    assert(p@.take(0) =~= Seq::<char>::empty());
    while i < p.len()
        invariant
            i <= p@.len(),
            fields@.len() + 1 == split_fields(p@.take(i as int)).len(),
            forall|k: int| 0 <= k < fields@.len() ==> (#[trigger] fields@[k])@ == split_fields(p@.take(i as int))[k],
            cur@ == split_fields(p@.take(i as int)).last(),
        decreases p@.len() - i,
    {
        assert(p@.take(i + 1).drop_last() =~= p@.take(i as int));
        if p[i] == ';' {
            fields.push(cur);
            cur = Vec::new();
        } else {
            cur.push(p[i]);
        }
        i = i + 1;
    }
    assert(p@.take(i as int) =~= p@);
    fields.push(cur);
    fields
}

/// The mouse event of a payload `event;column;row`, if it is one.
fn decode_mouse(payload: &Vec<char>) -> (r: Option<MouseEvent>)
    ensures
        r == (match mouse_fields(payload@) {
            Some(f) => Some(mouse_event(f.0, f.1, f.2)),
            None => None,
        }),
{
    let parts = split_semis(payload);
    if parts.len() != 3 {
        return None;
    }
    let ev = parse_field(&parts[0]);
    let x = parse_field(&parts[1]);
    let y = parse_field(&parts[2]);
    match (ev, x, y) {
        (Some(ev), Some(x), Some(y)) => {
            let kind = (ev >> 5u32) & 3;
            let button = ev & 3;
            let mask: i32 = if button == 0 {
                1
            } else if button == 1 {
                2
            } else if button == 2 {
                4
            } else {
                0
            };
            let (xi, yi, st) = (x as i32, y as i32, ev as i32);
            let e = if kind == 0 {
                MouseEvent::Unknown { x: xi, y: yi, state: st, data: 0 }
            } else if kind == 1 {
                MouseEvent::Click { x: xi, y: yi, state: st, data: mask }
            } else if kind == 2 {
                MouseEvent::Move { x: xi, y: yi, state: st, data: mask }
            } else {
                MouseEvent::Scroll { x: xi, y: yi, state: st, data: if ev & 1 == 1 { 1 } else { -1 } }
            };
            Some(e)
        },
        _ => None,
    }
}

/// The event of a finished escape sequence.
fn decode_sequence(s: &Vec<char>) -> (r: Option<TermEvent>)
    requires
        finished(s@),
    ensures
        r == sequence_event(s@),
{
    let n = s.len();
    let l = s[n - 1];
    if l == 'M' {
        let mut payload: Vec<char> = Vec::new();
        let mut i: usize = 1;
        while i < n - 1
            invariant
                1 <= i <= n - 1,
                n == s@.len(),
                payload@ == s@.subrange(1, i as int),
            decreases n - 1 - i,
        {
            payload.push(s[i]);
            i = i + 1;
            assert(payload@ =~= s@.subrange(1, i as int));
        }
        match decode_mouse(&payload) {
            Some(e) => Some(TermEvent::Mouse { event: e }),
            None => None,
        }
    } else if l == 'A' {
        Some(TermEvent::Arrow { x: 0, y: -1, modifiers: 0 })
    } else if l == 'B' {
        Some(TermEvent::Arrow { x: 0, y: 1, modifiers: 0 })
    } else if l == 'C' {
        Some(TermEvent::Arrow { x: 1, y: 0, modifiers: 0 })
    } else if l == 'D' {
        Some(TermEvent::Arrow { x: -1, y: 0, modifiers: 0 })
    } else {
        None
    }
}

/// The escape-sequence decoder: raw keys in, events out.
pub struct Decoder {
    pub pending: Vec<char>,
}

impl Decoder {
    /// The pending sequence is never a finished one: those are decoded at
    /// once.
    pub open spec fn wf(&self) -> bool {
        !finished(self.pending@)
    }

    /// A decoder with nothing pending.
    pub fn new() -> (r: Decoder)
        ensures
            r.wf(),
            r.pending@ == Seq::<char>::empty(),
    {
        Decoder { pending: Vec::new() }
    }

    /// Takes one raw key and returns the event it completes, if any. A
    /// character typed while a sequence is pending joins it; a finished
    /// sequence is decoded and cleared whether or not it was recognised.
    pub fn feed(&mut self, key: RawKey) -> (r: Option<TermEvent>)
        requires
            old(self).wf(),
        ensures
            final(self).wf(),
            (final(self).pending@, r) == feed_spec(old(self).pending@, key),
            take_key(old(self).pending@, key).1 is Some ==> r == take_key(old(self).pending@, key).1,
    {
        let e = match key {
            RawKey::Char(c) => {
                if self.pending.len() > 0 {
                    self.pending.push(c);
                    None
                } else {
                    Some(TermEvent::Char { char: c })
                }
            },
            RawKey::UnknownEscSeq(v) => {
                self.pending = v;
                None
            },
            RawKey::Enter => Some(TermEvent::Enter {  }),
            RawKey::ArrowUp => Some(TermEvent::Arrow { x: 0, y: -1, modifiers: 0 }),
            RawKey::ArrowDown => Some(TermEvent::Arrow { x: 0, y: 1, modifiers: 0 }),
            RawKey::ArrowLeft => Some(TermEvent::Arrow { x: -1, y: 0, modifiers: 0 }),
            RawKey::ArrowRight => Some(TermEvent::Arrow { x: 1, y: 0, modifiers: 0 }),
            RawKey::Backspace => Some(TermEvent::Backspace {  }),
            RawKey::Other => None,
        };
        let n = self.pending.len();
        if n > 1 && 'A' <= self.pending[n - 1] && self.pending[n - 1] <= 'Z' {
            let r = decode_sequence(&self.pending);
            self.pending = Vec::new();
            r
        } else {
            e
        }
    }
}

/// The event queue between the input reader and the editor, with the
/// terminal mode flags (bit 0: mouse reporting, bit 1: alternate screen).
pub struct Term {
    pub events: Vec<TermEvent>,
    pub flags: u64,
}

impl Term {
    /// An empty queue with no mode set.
    pub fn new() -> (r: Term)
        ensures
            r.events@ == Seq::<TermEvent>::empty(),
            r.flags == 0,
    {
        Term { events: Vec::new(), flags: 0 }
    }

    /// Appends an event at the back of the queue.
    pub fn push_event(&mut self, e: TermEvent)
        ensures
            final(self).events@ == old(self).events@.push(e),
            final(self).flags == old(self).flags,
    {
        self.events.push(e);
    }

    /// Removes and returns the oldest event, if any.
    pub fn consume_event(&mut self) -> (r: Option<TermEvent>)
        ensures
            old(self).events@.len() == 0 ==> r is None && final(self).events@ == old(self).events@,
            old(self).events@.len() > 0 ==> r == Some(old(self).events@[0]) && final(self).events@
                == old(self).events@.drop_first(),
            final(self).flags == old(self).flags,
    {
        if self.events.len() == 0 {
            None
        } else {
            let e = self.events.remove(0);
            assert(self.events@ =~= old(self).events@.drop_first());
            Some(e)
        }
    }

    /// Marks mouse reporting on; returns the sequence that turns it on.
    pub fn enable_mouse(&mut self) -> (r: String)
        ensures
            r@ == "\x1b[?1003h\x1b[?1015h"@,
            final(self).flags == old(self).flags | 1,
            final(self).events == old(self).events,
    {
        self.flags = self.flags | 1;
        "\x1b[?1003h\x1b[?1015h".to_owned()
    }

    /// Marks mouse reporting off; returns the sequence that turns it off.
    pub fn disable_mouse(&mut self) -> (r: String)
        ensures
            r@ == "\x1b[?1015l\x1b[?1003l"@,
            final(self).flags == old(self).flags & !1u64,
            final(self).events == old(self).events,
    {
        self.flags = self.flags & !1u64;
        "\x1b[?1015l\x1b[?1003l".to_owned()
    }

    /// Marks the alternate screen on; returns the sequence that enters it.
    pub fn enable_alternate_buffer(&mut self) -> (r: String)
        ensures
            r@ == "\x1b[?1049h"@,
            final(self).flags == old(self).flags | 2,
            final(self).events == old(self).events,
    {
        self.flags = self.flags | 2;
        "\x1b[?1049h".to_owned()
    }

    /// Marks the alternate screen off; returns the sequence that leaves it.
    pub fn disable_alternate_buffer(&mut self) -> (r: String)
        ensures
            r@ == "\x1b[?1049l"@,
            final(self).flags == old(self).flags & !2u64,
            final(self).events == old(self).events,
    {
        self.flags = self.flags & !2u64;
        "\x1b[?1049l".to_owned()
    }
}

} // verus!
