//! Single-slot latest-value mailbox.
//!
//! `signal(v)` overwrites the slot and wakes the waiter; `wait()` takes the
//! latest value, so a slow consumer skips superseded values instead of
//! queueing them. Losing intermediate values is by design (latest wins).

use vstd::prelude::*;

verus! {

/// A one-slot mailbox holding the most recent value sent, if any value sent
/// since the last `wait()` has not yet been taken.
#[derive(Clone, Copy)]
pub struct Signal<T> {
    slot: Option<T>,
}

impl<T: Copy> Signal<T> {
    /// The current slot contents: the latest value signaled and not yet
    /// taken.
    pub closed spec fn slot(&self) -> Option<T> {
        self.slot
    }

    /// A fresh mailbox with an empty slot.
    pub fn new() -> (r: Signal<T>)
        ensures
            r.slot() is None,
    {
        Signal { slot: None }
    }

    /// Store `v`, unconditionally replacing whatever the slot held: the
    /// consumer will observe the latest value only.
    pub fn signal(&mut self, v: T)
        ensures
            final(self).slot() == Some(v),
    {
        self.slot = Some(v);
    }

    /// One polling step of the consumer's wait: take the latest value if one
    /// is present, emptying the slot. The executor re-polls until a value
    /// arrives.
    pub fn wait(&mut self) -> (r: Option<T>)
        ensures
            r == old(self).slot(),
            final(self).slot() is None,
    {
        let r = self.slot;
        self.slot = None;
        r
    }
}

} // verus!
