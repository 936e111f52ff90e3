//! Channel adapters: Sender/Receiver capability wrappers over the
//! primitives, so task code depends only on "send" and "receive" semantics,
//! independent of which primitive backs them.
//!
//! Shared wiring is expressed with handles: every [`Notification`] lives in
//! one caller-owned pool (`Vec<Notification>`), every [`Signal`] in one pool
//! per value type, and adapters hold indices into those pools, bound once at
//! construction. The executor passes the pools to each polling step.

use vstd::prelude::*;

use crate::notification::Notification;
use crate::signal::Signal;
use crate::state::State;

verus! {

/// Receiver bound to one Notification and one State cell: wakes on the
/// notification, then reads the cell's current value — "read the current
/// value after being told it changed," immune to missed-notify coalescing.
pub struct NotifReceiver {
    notif: usize,
}

impl NotifReceiver {
    /// The handle of the bound notification.
    pub closed spec fn notif(&self) -> usize {
        self.notif
    }

    /// A receiver bound to the notification at handle `notif`.
    pub fn new(notif: usize) -> (r: NotifReceiver)
        ensures
            r.notif() == notif,
    {
        NotifReceiver { notif }
    }

    /// One polling step of `recv()`: if the bound notification is pending,
    /// consume the wakeup and return the cell's current value; otherwise
    /// report not-ready. The executor re-polls after the next update.
    pub fn recv<T: Copy>(&mut self, notifs: &mut Vec<Notification>, state: &State<T>) -> (r: Option<
        T,
    >)
        requires
            self.notif() < old(notifs)@.len(),
        ensures
            *final(self) == *old(self),
            final(notifs)@.len() == old(notifs)@.len(),
            r == (if old(notifs)@[old(self).notif() as int].pending() {
                Some(state.current())
            } else {
                None::<T>
            }),
            final(notifs)@[old(self).notif() as int] == old(notifs)@[old(self).notif() as int].spec_wait().1,
            forall|j: int|
                0 <= j < old(notifs)@.len() && j != old(self).notif() as int ==> final(notifs)@[j]
                    == old(notifs)@[j],
    {
        let mut n = notifs[self.notif];
        let woke = n.wait();
        notifs[self.notif] = n;
        if woke {
            Some(state.get())
        } else {
            None
        }
    }
}

/// Receiver that forwards to a [`Signal`]'s wait.
pub struct SignalReceiver {
    signal: usize,
}

impl SignalReceiver {
    /// The handle of the bound signal.
    pub closed spec fn signal(&self) -> usize {
        self.signal
    }

    /// A receiver bound to the signal at handle `signal`.
    pub fn new(signal: usize) -> (r: SignalReceiver)
        ensures
            r.signal() == signal,
    {
        SignalReceiver { signal }
    }

    /// One polling step of `recv()`: take the latest signaled value, if any.
    pub fn recv<T: Copy>(&mut self, signals: &mut Vec<Signal<T>>) -> (r: Option<T>)
        requires
            self.signal() < old(signals)@.len(),
        ensures
            *final(self) == *old(self),
            final(signals)@.len() == old(signals)@.len(),
            r == old(signals)@[old(self).signal() as int].slot(),
            final(signals)@[old(self).signal() as int].slot() is None,
            forall|j: int|
                0 <= j < old(signals)@.len() && j != old(self).signal() as int ==> final(signals)@[j]
                    == old(signals)@[j],
    {
        let mut s = signals[self.signal];
        let r = s.wait();
        signals[self.signal] = s;
        r
    }
}

/// Sender that wakes a fixed group of Notifications: one producer waking
/// several independently scheduled consumer tasks that share one State cell.
pub struct NotifSender {
    source: &'static str,
    notifs: Vec<usize>,
}

impl NotifSender {
    /// The diagnostic name of the producer.
    pub closed spec fn source(&self) -> &'static str {
        self.source
    }

    /// The handles of the bound notifications.
    pub closed spec fn notifs(&self) -> Seq<usize> {
        self.notifs@
    }

    /// Every bound handle points into a pool of `pool_len` entries.
    pub open spec fn wf(&self, pool_len: nat) -> bool {
        group_wf(self.notifs(), pool_len)
    }

    /// Whether pool slot `j` is one of the bound notifications.
    pub open spec fn targets(&self, j: int) -> bool {
        group_targets(self.notifs(), j)
    }

    /// A sender named `source`, bound to the given notification handles.
    pub fn new(source: &'static str, notifs: Vec<usize>) -> (r: NotifSender)
        ensures
            r.source() == source,
            r.notifs() == notifs@,
    {
        NotifSender { source, notifs }
    }

    /// `send`: wake every bound notification; never blocks. The value being
    /// announced travels through the State cell the consumers read, so the
    /// wakeup itself carries no payload.
    pub fn send(&mut self, notifs: &mut Vec<Notification>)
        requires
            old(self).wf(old(notifs)@.len() as nat),
        ensures
            *final(self) == *old(self),
            final(notifs)@.len() == old(notifs)@.len(),
            forall|j: int|
                0 <= j < old(notifs)@.len() ==> #[trigger] final(notifs)@[j] == (if old(
                    self,
                ).targets(j) {
                    old(notifs)@[j].spec_notify()
                } else {
                    old(notifs)@[j]
                }),
    {
        proof {
            assert(self.notifs() == self.notifs@);
        }
        notify_group(&self.notifs, notifs);
    }
}

/// Sender that wakes two disjointly owned groups of Notifications.
pub struct NotifSender2 {
    source: &'static str,
    notifs1: Vec<usize>,
    notifs2: Vec<usize>,
}

impl NotifSender2 {
    /// The diagnostic name of the producer.
    pub closed spec fn source(&self) -> &'static str {
        self.source
    }

    /// The handles of the first bound group.
    pub closed spec fn notifs1(&self) -> Seq<usize> {
        self.notifs1@
    }

    /// The handles of the second bound group.
    pub closed spec fn notifs2(&self) -> Seq<usize> {
        self.notifs2@
    }

    /// Every bound handle of both groups points into a pool of `pool_len`
    /// entries.
    pub open spec fn wf(&self, pool_len: nat) -> bool {
        group_wf(self.notifs1(), pool_len) && group_wf(self.notifs2(), pool_len)
    }

    /// Whether pool slot `j` is bound in either group.
    pub open spec fn targets(&self, j: int) -> bool {
        group_targets(self.notifs1(), j) || group_targets(self.notifs2(), j)
    }

    /// A sender named `source`, bound to the two given handle groups.
    pub fn new(source: &'static str, notifs1: Vec<usize>, notifs2: Vec<usize>) -> (r: NotifSender2)
        ensures
            r.source() == source,
            r.notifs1() == notifs1@,
            r.notifs2() == notifs2@,
    {
        NotifSender2 { source, notifs1, notifs2 }
    }

    /// `send`: wake every notification of both groups; never blocks.
    pub fn send(&mut self, notifs: &mut Vec<Notification>)
        requires
            old(self).wf(old(notifs)@.len() as nat),
        ensures
            *final(self) == *old(self),
            final(notifs)@.len() == old(notifs)@.len(),
            forall|j: int|
                0 <= j < old(notifs)@.len() ==> #[trigger] final(notifs)@[j] == (if old(
                    self,
                ).targets(j) {
                    old(notifs)@[j].spec_notify()
                } else {
                    old(notifs)@[j]
                }),
    {
        let ghost orig = notifs@;
        proof {
            assert(self.notifs1() == self.notifs1@);
            assert(self.notifs2() == self.notifs2@);
        }
        notify_group(&self.notifs1, notifs);
        notify_group(&self.notifs2, notifs);
        proof {
            assert forall|j: int| 0 <= j < orig.len() implies #[trigger] notifs@[j] == (if self
                .targets(j) {
                orig[j].spec_notify()
            } else {
                orig[j]
            }) by {
                crate::notification::lemma_notify_absorbs(orig[j].spec_notify(), orig[j]);
            }
        }
    }
}

/// Whether some handle in `group` equals `j`.
pub open spec fn group_targets(group: Seq<usize>, j: int) -> bool {
    exists|i: int| 0 <= i < group.len() && (#[trigger] group[i]) as int == j
}

/// Every handle in `group` points into a pool of `pool_len` entries.
pub open spec fn group_wf(group: Seq<usize>, pool_len: nat) -> bool {
    forall|i: int| 0 <= i < group.len() ==> (#[trigger] group[i]) < pool_len
}

/// Wake the notification behind every handle in `group`, in order.
fn notify_group(group: &Vec<usize>, notifs: &mut Vec<Notification>)
    requires
        forall|i: int| 0 <= i < group@.len() ==> (#[trigger] group@[i]) < old(notifs)@.len(),
    ensures
        final(notifs)@.len() == old(notifs)@.len(),
        forall|j: int|
            0 <= j < old(notifs)@.len() ==> #[trigger] final(notifs)@[j] == (if group_targets(
                group@,
                j,
            ) {
                old(notifs)@[j].spec_notify()
            } else {
                old(notifs)@[j]
            }),
{
    let ghost orig = notifs@;
    let len = group.len();
    for i in 0..len
        invariant
            len == group@.len(),
            forall|k: int| 0 <= k < group@.len() ==> (#[trigger] group@[k]) < orig.len(),
            notifs@.len() == orig.len(),
            forall|j: int|
                0 <= j < orig.len() ==> #[trigger] notifs@[j] == (if targeted_within(
                    group@,
                    j,
                    i as int,
                ) {
                    orig[j].spec_notify()
                } else {
                    orig[j]
                }),
    {
        let h = group[i];
        proof {
            assert(group@[i as int] == h);
        }
        let mut n = notifs[h];
        n.notify();
        notifs[h] = n;
        proof {
            crate::notification::lemma_notify_absorbs(orig[h as int].spec_notify(), orig[h as int]);
            assert forall|j: int| 0 <= j < orig.len() implies #[trigger] notifs@[j] == (
            if targeted_within(group@, j, i + 1) {
                orig[j].spec_notify()
            } else {
                orig[j]
            }) by {
                if j == h as int {
                    assert(0 <= i < i + 1 && (i as int) < group@.len() && (group@[i as int]) as int
                        == j);
                    assert(targeted_within(group@, j, i + 1));
                } else {
                    if targeted_within(group@, j, i + 1) {
                        let k = choose|k: int|
                            0 <= k < i + 1 && k < group@.len() && (group@[k]) as int == j;
                        assert(k != i);
                        assert(targeted_within(group@, j, i as int));
                    }
                    if targeted_within(group@, j, i as int) {
                        let k = choose|k: int|
                            0 <= k < i && k < group@.len() && (group@[k]) as int == j;
                        assert(0 <= k < i + 1 && k < group@.len() && (group@[k]) as int == j);
                    }
                }
            }
        }
    }
    proof {
        assert forall|j: int| 0 <= j < orig.len() implies (targeted_within(group@, j, len as int)
            == group_targets(group@, j)) by {
            if targeted_within(group@, j, len as int) {
                let k = choose|k: int| 0 <= k < len && k < group@.len() && (group@[k]) as int == j;
                assert(0 <= k < group@.len() && (group@[k]) as int == j);
            }
            if group_targets(group@, j) {
                let k = choose|k: int| 0 <= k < group@.len() && (#[trigger] group@[k]) as int == j;
                assert(0 <= k < len as int && k < group@.len() && (group@[k]) as int == j);
            }
        }
    }
}

/// Whether some handle among the first `upto` entries of `group` equals `j`.
pub open spec fn targeted_within(group: Seq<usize>, j: int, upto: int) -> bool {
    exists|k: int| 0 <= k < upto && k < group.len() && (#[trigger] group[k]) as int == j
}

/// Sender that pushes a copy of the value into each of a group of Signals.
pub struct SignalSender {
    source: &'static str,
    signals: Vec<usize>,
}

impl SignalSender {
    /// The diagnostic name of the producer.
    pub closed spec fn source(&self) -> &'static str {
        self.source
    }

    /// The handles of the bound signals.
    pub closed spec fn signals(&self) -> Seq<usize> {
        self.signals@
    }

    /// Every bound handle points into a pool of `pool_len` entries.
    pub open spec fn wf(&self, pool_len: nat) -> bool {
        forall|i: int| 0 <= i < self.signals().len() ==> (#[trigger] self.signals()[i]) < pool_len
    }

    /// Whether pool slot `j` is one of the bound signals.
    pub open spec fn targets(&self, j: int) -> bool {
        exists|i: int| 0 <= i < self.signals().len() && (#[trigger] self.signals()[i]) as int == j
    }

    /// A sender named `source`, bound to the given signal handles.
    pub fn new(source: &'static str, signals: Vec<usize>) -> (r: SignalSender)
        ensures
            r.source() == source,
            r.signals() == signals@,
    {
        SignalSender { source, signals }
    }

    /// `send(v)`: overwrite every bound signal's slot with `v`; never
    /// blocks. Consumers observe the latest value only.
    pub fn send<T: Copy>(&mut self, value: T, signals: &mut Vec<Signal<T>>)
        requires
            old(self).wf(old(signals)@.len() as nat),
        ensures
            *final(self) == *old(self),
            final(signals)@.len() == old(signals)@.len(),
            forall|j: int|
                0 <= j < old(signals)@.len() ==> (#[trigger] final(signals)@[j]).slot() == (if old(
                    self,
                ).targets(j) {
                    Some(value)
                } else {
                    old(signals)@[j].slot()
                }),
    {
        let ghost orig = signals@;
        let len = self.signals.len();
        for i in 0..len
            invariant
                len == self.signals@.len(),
                self.wf(orig.len() as nat),
                signals@.len() == orig.len(),
                forall|j: int|
                    0 <= j < orig.len() ==> (#[trigger] signals@[j]).slot() == (if targeted_within(
                        self.signals@,
                        j,
                        i as int,
                    ) {
                        Some(value)
                    } else {
                        orig[j].slot()
                    }),
        {
            let h = self.signals[i];
            proof {
                assert(self.signals()[i as int] == h);
            }
            let mut s = signals[h];
            s.signal(value);
            signals[h] = s;
            proof {
                assert forall|j: int| 0 <= j < orig.len() implies (#[trigger] signals@[j]).slot()
                    == (if targeted_within(self.signals@, j, i + 1) {
                    Some(value)
                } else {
                    orig[j].slot()
                }) by {
                    if j == h as int {
                        assert(0 <= i < i + 1 && (i as int) < self.signals@.len() && (
                        self.signals@[i as int]) as int == j);
                        assert(targeted_within(self.signals@, j, i + 1));
                    } else {
                        if targeted_within(self.signals@, j, i + 1) {
                            let k = choose|k: int|
                                0 <= k < i + 1 && k < self.signals@.len() && (
                                self.signals@[k]) as int == j;
                            assert(k != i);
                            assert(targeted_within(self.signals@, j, i as int));
                        }
                        if targeted_within(self.signals@, j, i as int) {
                            let k = choose|k: int|
                                0 <= k < i && k < self.signals@.len() && (self.signals@[k]) as int
                                    == j;
                            assert(0 <= k < i + 1 && k < self.signals@.len() && (
                            self.signals@[k]) as int == j);
                        }
                    }
                }
            }
        }
        proof {
            assert forall|j: int| 0 <= j < orig.len() implies (targeted_within(
                self.signals@,
                j,
                len as int,
            ) == self.targets(j)) by {
                if targeted_within(self.signals@, j, len as int) {
                    let k = choose|k: int|
                        0 <= k < len && k < self.signals@.len() && (self.signals@[k]) as int == j;
                    assert(0 <= k < self.signals().len() && (self.signals()[k]) as int == j);
                }
                if self.targets(j) {
                    let k = choose|k: int|
                        0 <= k < self.signals().len() && (#[trigger] self.signals()[k]) as int == j;
                    assert(0 <= k < len as int && k < self.signals@.len() && (
                    self.signals@[k]) as int == j);
                }
            }
        }
    }
}

/// Concatenate two fixed groups of handles into one, in order: the combined
/// observer array a cell is constructed with.
pub fn concat_arr<T: Copy>(arr1: Vec<T>, arr2: Vec<T>) -> (r: Vec<T>)
    ensures
        r@ == arr1@ + arr2@,
{
    let mut r = arr1;
    let mut rest = arr2;
    let len = rest.len();
    let ghost orig1 = r@;
    let ghost orig2 = rest@;
    for i in 0..len
        invariant
            len == orig2.len(),
            rest@ == orig2,
            r@ == orig1 + orig2.take(i as int),
    {
        let x = rest[i];
        r.push(x);
        proof {
            assert(orig1 + orig2.take(i + 1) =~= (orig1 + orig2.take(i as int)).push(
                orig2[i as int],
            ));
        }
    }
    proof {
        assert(orig2.take(len as int) =~= orig2);
    }
    r
}

} // verus!
