//! Named process-wide cell holding the current value of one quantity.
//!
//! `update(v)` overwrites the value and then notifies every bound observer,
//! in fixed order; `get()` returns a copy of the current value and never
//! blocks. Observers are a fixed array of handles into a caller-owned pool
//! of [`Notification`]s, bound once at construction — there is no runtime
//! subscriber registry. One task is the intended writer per cell (a design
//! convention, not enforced by the type).

use vstd::prelude::*;

use crate::notification::Notification;

verus! {

/// A latest-value cell with change-notification fan-out.
pub struct State<T> {
    name: &'static str,
    current: T,
    observers: Vec<usize>,
}

impl<T: Copy> State<T> {
    /// The cell's diagnostic name.
    pub closed spec fn name(&self) -> &'static str {
        self.name
    }

    /// The value most recently stored (initially the construction value).
    pub closed spec fn current(&self) -> T {
        self.current
    }

    /// The fixed observer handles, as bound at construction.
    pub closed spec fn observers(&self) -> Seq<usize> {
        self.observers@
    }

    /// Every observer handle points into a notification pool of `pool_len`
    /// entries.
    pub open spec fn wf(&self, pool_len: nat) -> bool {
        forall|i: int| 0 <= i < self.observers().len() ==> (#[trigger] self.observers()[i]) < pool_len
    }

    /// Whether pool slot `j` is one of this cell's observers.
    pub open spec fn observes(&self, j: int) -> bool {
        exists|i: int| 0 <= i < self.observers().len() && (#[trigger] self.observers()[i]) as int == j
    }

    /// A new cell holding `initial`, bound to the given observer handles.
    pub fn new(name: &'static str, initial: T, observers: Vec<usize>) -> (r: State<T>)
        ensures
            r.name() == name,
            r.current() == initial,
            r.observers() == observers@,
    {
        State { name, current: initial, observers }
    }

    /// Return a copy of the current value; never blocks.
    pub fn get(&self) -> (r: T)
        ensures
            r == self.current(),
    {
        self.current
    }

    /// Store `v`, then notify every bound observer in the pool. Pool slots
    /// that are not observers of this cell are left untouched.
    pub fn update(&mut self, v: T, notifs: &mut Vec<Notification>)
        requires
            old(self).wf(old(notifs)@.len() as nat),
        ensures
            *final(self) == spec_apply_updates_one(*old(self), v),
            final(self).current() == v,
            final(self).name() == old(self).name(),
            final(self).observers() == old(self).observers(),
            final(notifs)@.len() == old(notifs)@.len(),
            forall|j: int|
                0 <= j < old(notifs)@.len() ==> #[trigger] final(notifs)@[j] == (if old(
                    self,
                ).observes(j) {
                    old(notifs)@[j].spec_notify()
                } else {
                    old(notifs)@[j]
                }),
    {
        self.current = v;

        let ghost orig = notifs@;
        proof {
            assert(self.observers() == old(self).observers());
            assert(self.wf(orig.len() as nat));
        }
        let n_obs = self.observers.len();
        for i in 0..n_obs
            invariant
                n_obs == self.observers@.len(),
                self.wf(orig.len() as nat),
                notifs@.len() == orig.len(),
                forall|j: int|
                    0 <= j < orig.len() ==> #[trigger] notifs@[j] == (if observed_within(
                        self.observers@,
                        j,
                        i as int,
                    ) {
                        orig[j].spec_notify()
                    } else {
                        orig[j]
                    }),
        {
            let h = self.observers[i];
            proof {
                assert(self.observers()[i as int] == h);
                assert(h < orig.len());
            }
            let mut n = notifs[h];
            n.notify();
            notifs[h] = n;
            proof {
                crate::notification::lemma_notify_absorbs(
                    orig[h as int].spec_notify(),
                    orig[h as int],
                );
                assert forall|j: int| 0 <= j < orig.len() implies #[trigger] notifs@[j] == (
                if observed_within(self.observers@, j, i + 1) {
                    orig[j].spec_notify()
                } else {
                    orig[j]
                }) by {
                    if j == h as int {
                        assert(0 <= i < i + 1 && (i as int) < self.observers@.len() && (
                        self.observers@[i as int]) as int == j);
                        assert(observed_within(self.observers@, j, i + 1));
                    } else {
                        if observed_within(self.observers@, j, i + 1) {
                            let k = choose|k: int|
                                0 <= k < i + 1 && k < self.observers@.len() && (
                                self.observers@[k]) as int == j;
                            assert(k != i);
                            assert(observed_within(self.observers@, j, i as int));
                        }
                        if observed_within(self.observers@, j, i as int) {
                            let k = choose|k: int|
                                0 <= k < i && k < self.observers@.len() && (
                                self.observers@[k]) as int == j;
                            assert(0 <= k < i + 1 && k < self.observers@.len() && (
                            self.observers@[k]) as int == j);
                        }
                    }
                }
            }
        }
        proof {
            assert forall|j: int| 0 <= j < orig.len() implies (observed_within(
                self.observers@,
                j,
                n_obs as int,
            ) == self.observes(j)) by {
                if observed_within(self.observers@, j, n_obs as int) {
                    let k = choose|k: int|
                        0 <= k < n_obs as int && k < self.observers@.len() && (
                        self.observers@[k]) as int == j;
                    assert(0 <= k < self.observers().len() && (self.observers()[k]) as int == j);
                }
                if self.observes(j) {
                    let k = choose|k: int|
                        0 <= k < self.observers().len() && (self.observers()[k]) as int == j;
                    assert(0 <= k < n_obs as int && k < self.observers@.len() && (
                    self.observers@[k]) as int == j);
                }
            }
        }
    }
}

/// Whether some handle among the first `upto` entries of `obs` equals `j`.
pub open spec fn observed_within(obs: Seq<usize>, j: int, upto: int) -> bool {
    exists|k: int| 0 <= k < upto && k < obs.len() && (#[trigger] obs[k]) as int == j
}

/// Latest-write-wins law: after `update(v)` returns, `get()` reads exactly
/// `v`, whatever sequence of earlier updates the cell has seen — a completed
/// write is never stale.
pub proof fn lemma_get_reads_latest_update<T: Copy>(s: State<T>, history: Seq<T>, v: T)
    ensures
        spec_apply_updates(s, history.push(v)).current() == v,
    decreases history.len(),
{
    if history.len() == 0 {
        reveal_with_fuel(spec_apply_updates, 2);
        assert(history.push(v)[0] == v);
        assert(history.push(v).drop_first() =~= Seq::<T>::empty());
    } else {
        lemma_get_reads_latest_update(spec_apply_updates_one(s, history[0]), history.drop_first(), v);
        assert(history.push(v)[0] == history[0]);
        assert(history.push(v).drop_first() =~= history.drop_first().push(v));
    }
}

/// The cell after one `update(v)`, as `update`'s contract fixes it.
pub open spec fn spec_apply_updates_one<T: Copy>(s: State<T>, v: T) -> State<T> {
    spec_with_current(s, v)
}

/// The cell after a whole sequence of `update` calls, applied in order.
pub open spec fn spec_apply_updates<T: Copy>(s: State<T>, vs: Seq<T>) -> State<T>
    decreases vs.len(),
{
    if vs.len() == 0 {
        s
    } else {
        spec_apply_updates(spec_apply_updates_one(s, vs[0]), vs.drop_first())
    }
}

/// `s` with its current value replaced by `v` (name and observers kept).
pub closed spec fn spec_with_current<T: Copy>(s: State<T>, v: T) -> State<T> {
    State { name: s.name, current: v, observers: s.observers }
}

/// `spec_with_current` does what its name says.
pub broadcast proof fn lemma_spec_with_current<T: Copy>(s: State<T>, v: T)
    ensures
        (#[trigger] spec_with_current(s, v)).current() == v,
        spec_with_current(s, v).name() == s.name(),
        spec_with_current(s, v).observers() == s.observers(),
{
}

} // verus!
