//! Sources of timestamps for inode metadata.

use vstd::prelude::*;

verus! {

/// A source of timestamps. Each call may advance the source.
///
/// A source whose timestamps follow from its state (`keeps_time` holds)
/// answers `now` with `next_stamp` and becomes `ticked`; of any other
/// source, such as a wall clock, nothing is promised.
pub trait TimeProvider: Sized {
    /// Whether the source's timestamps follow from its state.
    spec fn keeps_time() -> bool;

    /// The timestamp the next call of `now` returns.
    spec fn next_stamp(&self) -> u64;

    /// The source after one call of `now`.
    spec fn ticked(&self) -> Self;

    fn now(&mut self) -> (t: u64)
        ensures
            Self::keeps_time() ==> t == old(self).next_stamp() && *final(self) == old(self).ticked(),
    ;
}

/// The source after `first` and then `second` calls of `now` (each taken
/// or not).
pub open spec fn ticked_by<T: TimeProvider>(c: T, first: bool, second: bool) -> T {
    let c1 = if first {
        c.ticked()
    } else {
        c
    };
    if second {
        c1.ticked()
    } else {
        c1
    }
}

/// The source after a call of `now` that was taken when `taken` holds.
pub open spec fn ticked_if<T: TimeProvider>(c: T, taken: bool) -> T {
    if taken {
        c.ticked()
    } else {
        c
    }
}

/// A counter that yields 0, 1, 2, ... (wrapping after `u64::MAX`).
pub struct MonotonicCounter {
    counter: u64,
}

impl MonotonicCounter {
    /// The value the next call of `now` returns.
    pub closed spec fn peek(self) -> u64 {
        self.counter
    }

    /// A counter whose first timestamp is 0.
    pub fn new() -> (c: Self)
        ensures
            c.peek() == 0,
    {
        MonotonicCounter { counter: 0 }
    }

    /// The counter's next timestamp is its value, and a tick adds one
    /// (wrapping after `u64::MAX`).
    pub proof fn lemma_counter_stamps(self)
        ensures
            self.next_stamp() == self.peek(),
            self.ticked().peek() == (if self.peek() == u64::MAX {
                0
            } else {
                (self.peek() + 1) as u64
            }),
            forall|c: MonotonicCounter| c.peek() == self.peek() ==> c == self,
    {
    }
}

impl TimeProvider for MonotonicCounter {
    open spec fn keeps_time() -> bool {
        true
    }

    closed spec fn next_stamp(&self) -> u64 {
        self.counter
    }

    closed spec fn ticked(&self) -> Self {
        MonotonicCounter { counter: if self.counter == u64::MAX { 0 } else { (self.counter + 1) as u64 } }
    }

    fn now(&mut self) -> (t: u64)
        ensures
            t == old(self).peek(),
            final(self).peek() == (if old(self).peek() == u64::MAX {
                0
            } else {
                (old(self).peek() + 1) as u64
            }),
    {
        let t = self.counter;
        self.counter = self.counter.wrapping_add(1);
        t
    }
}

impl Default for MonotonicCounter {
    fn default() -> (c: Self)
        ensures
            c.peek() == 0,
    {
        Self::new()
    }
}

} // verus!
