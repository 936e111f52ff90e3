//! Payload-less, coalescing wakeup signal.
//!
//! `notify()` marks the signal pending; it is idempotent, so any number of
//! producer calls before the consumer looks collapse into a single wakeup.
//! The consumer's `wait()` is a polling step: the executor re-polls it until
//! it reports a wakeup, which consumes the pending mark.

use vstd::prelude::*;

verus! {

/// A coalescing wakeup flag: the shared-notification primitive every other
/// component fans out to.
#[derive(Clone, Copy)]
pub struct Notification {
    pending: bool,
}

impl Notification {
    /// Whether a wakeup is pending (set by `notify`, consumed by `wait`).
    pub closed spec fn pending(&self) -> bool {
        self.pending
    }

    /// The state after one `notify()`: pending, whatever it was before.
    pub closed spec fn spec_notify(self) -> Notification {
        Notification { pending: true }
    }

    /// The result and state after one `wait()` poll: reports a pending
    /// wakeup and clears it.
    pub closed spec fn spec_wait(self) -> (bool, Notification) {
        (self.pending(), Notification { pending: false })
    }

    /// A fresh signal with no wakeup pending.
    pub fn new() -> (r: Notification)
        ensures
            !r.pending(),
    {
        Notification { pending: false }
    }

    /// Mark a wakeup pending. Idempotent: repeated calls leave the same
    /// single pending wakeup.
    pub fn notify(&mut self)
        ensures
            *final(self) == old(self).spec_notify(),
            final(self).pending(),
    {
        self.pending = true;
    }

    /// One polling step of the consumer's wait: if a wakeup is pending,
    /// consume it and report true; otherwise report false. The executor
    /// suspends the task and re-polls after the next `notify`.
    pub fn wait(&mut self) -> (woke: bool)
        ensures
            (woke, *final(self)) == old(self).spec_wait(),
            woke == old(self).pending(),
            !final(self).pending(),
    {
        let woke = self.pending;
        self.pending = false;
        woke
    }
}

/// `notify` drives the signal to the same (pending) state whatever held
/// before: this is what makes repeated notifications coalesce into one.
pub proof fn lemma_notify_absorbs(a: Notification, b: Notification)
    ensures
        a.spec_notify() == b.spec_notify(),
        a.spec_notify().pending(),
{
}

/// The state after `k` successive `notify()` calls.
pub open spec fn notify_n(n: Notification, k: nat) -> Notification
    decreases k,
{
    if k == 0 {
        n
    } else {
        notify_n(n, (k - 1) as nat).spec_notify()
    }
}

/// Coalescing law: any `k >= 1` `notify()` calls before one `wait()` produce
/// exactly one wakeup — the first `wait()` wakes, and a second `wait()`
/// with no `notify` in between does not.
pub proof fn lemma_notify_coalesces(n: Notification, k: nat)
    requires
        k >= 1,
    ensures
        notify_n(n, k) == n.spec_notify(),
        notify_n(n, k).spec_wait().0 == true,
        notify_n(n, k).spec_wait().1.spec_wait().0 == false,
    decreases k,
{
    if k > 1 {
        lemma_notify_coalesces(n, (k - 1) as nat);
    }
}

} // verus!
