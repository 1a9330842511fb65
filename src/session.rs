//! The pieces of the main loop that decide: the frame clock and the set of
//! open buffers.

use vstd::prelude::*;
use crate::text::Buffer;

verus! {

/// A clock that fires once per `delay` milliseconds; times are milliseconds
/// on a monotonic clock that the caller reads.
pub struct Clock {
    pub next: u64,
    pub delay: u64,
}

impl Clock {
    /// A clock that first fires `delay` after `now`.
    pub fn new(delay: u64, now: u64) -> (r: Clock)
        requires
            now + delay <= u64::MAX,
        ensures
            r.delay == delay,
            r.next == now + delay,
    {
        Clock { delay, next: now + delay }
    }

    /// Whether the clock fires at `now`; when it does, the next firing is
    /// `delay` after `now`.
    pub fn tick(&mut self, now: u64) -> (r: bool)
        requires
            now + old(self).delay <= u64::MAX,
        ensures
            r == (now >= old(self).next),
            final(self).delay == old(self).delay,
            r ==> final(self).next == now + old(self).delay,
            !r ==> final(self).next == old(self).next,
    {
        if now >= self.next {
            self.next = now + self.delay;
            true
        } else {
            false
        }
    }
}

/// The open buffers and which one has the focus (`usize::MAX` for none).
pub struct Windows {
    pub windows: Vec<Buffer>,
    pub current: usize,
}

impl Windows {
    /// No buffer, no focus.
    pub fn new() -> (r: Windows)
        ensures
            r.windows@.len() == 0,
            r.current == usize::MAX,
    {
        Windows { windows: Vec::new(), current: usize::MAX }
    }

    /// Adds a buffer, giving it the focus when `focus` is set.
    pub fn push(&mut self, win: Buffer, focus: bool)
        ensures
            final(self).windows@ == old(self).windows@.push(win),
            focus ==> final(self).current == old(self).windows@.len(),
            !focus ==> final(self).current == old(self).current,
    {
        self.windows.push(win);
        if focus {
            self.current = self.windows.len() - 1;
        }
    }

    /// The focused buffer.
    pub fn focused(&mut self) -> (r: &mut Buffer)
        requires
            old(self).current < old(self).windows@.len(),
        ensures
            *r == old(self).windows@[old(self).current as int],
            final(self).windows@ == old(self).windows@.update(old(self).current as int, *final(r)),
            final(self).current == old(self).current,
    {
        &mut self.windows[self.current]
    }
}

} // verus!
