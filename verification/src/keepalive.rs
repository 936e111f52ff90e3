//! Keepalive / quit watchdog: a timeout state machine with throttled
//! publication of the remaining time.
//!
//! Each loop iteration the owning task races an activity notification
//! against a short poll timer, reads the powered flag from the battery
//! cell, and hands the outcome to [`Keepalive::step`]. The step resets the
//! countdown on activity or external power, fires the system quit exactly
//! when the deadline passes, and otherwise publishes the remaining time —
//! at most once a second, except that a flip between `Indefinite` and
//! `Duration` is surfaced immediately.

use vstd::prelude::*;

verus! {

/// Inactivity budget: the quit fires this long after the last reset.
pub const TIMEOUT_MS: u64 = 20000;

/// Minimum spacing of two remaining-time publications with an unchanged
/// discriminant.
pub const REMAINING_TIME_TRIGGER_MS: u64 = 1000;

/// Period of the poll timer the activity notification is raced against.
pub const POLL_PERIOD_MS: u64 = 2000;

/// Time left until the system quit, as published for display: indefinite
/// while externally powered, a millisecond countdown on battery.
#[derive(Clone, Copy, Debug, PartialEq, Eq, Structural)]
pub enum RemainingTime {
    Indefinite,
    Duration(u64),
}

impl RemainingTime {
    /// The discriminant the publication throttle keys on: a change between
    /// `Indefinite` and `Duration` must be published immediately.
    pub open spec fn is_indefinite(&self) -> bool {
        self is Indefinite
    }
}

/// Record of the most recent remaining-time publication.
#[derive(Clone, Copy, Debug, PartialEq, Eq, Structural)]
pub struct LastPublish {
    /// When the publication happened, in milliseconds.
    pub at: u64,
    /// Whether `Indefinite` was published.
    pub indefinite: bool,
}

/// What one watchdog step asks the surrounding task to do.
#[derive(Clone, Copy, Debug, PartialEq, Eq, Structural)]
pub struct KeepaliveEffect {
    /// Fire the one-shot system quit notification (idempotent, so firing
    /// it on every late step is safe).
    pub quit: bool,
    /// Publish this value to the remaining-time cell, if any.
    pub publish: Option<RemainingTime>,
}

/// The watchdog's state between steps: where the quit is due, and what
/// was last published. The surrounding task only ever moves it through
/// [`Keepalive::step`].
pub struct Keepalive {
    /// The instant, in milliseconds, at which the quit is due unless the
    /// countdown is reset first.
    pub deadline: u64,
    /// The most recent remaining-time publication, if any yet.
    pub last_publish: Option<LastPublish>,
}

impl Keepalive {
    /// The instant, in milliseconds, at which the quit is due unless the
    /// countdown is reset first.
    pub open spec fn deadline(&self) -> u64 {
        self.deadline
    }

    /// The most recent publication, if any yet.
    pub open spec fn last_publish(&self) -> Option<LastPublish> {
        self.last_publish
    }

    /// The state and effect one step computes from the previous state, the
    /// current time and the two inputs. This is the whole step, as a
    /// mathematical function.
    pub open spec fn spec_step(self, now: u64, activity: bool, powered: bool) -> (
        Keepalive,
        KeepaliveEffect,
    ) {
        let deadline = if activity || powered {
            (now + TIMEOUT_MS) as u64
        } else {
            self.deadline()
        };
        if now >= deadline {
            (
                Keepalive { deadline, last_publish: self.last_publish() },
                KeepaliveEffect { quit: true, publish: None },
            )
        } else {
            let remaining = if powered {
                RemainingTime::Indefinite
            } else {
                RemainingTime::Duration((deadline - now) as u64)
            };
            let due = match self.last_publish() {
                None => true,
                Some(lp) => lp.indefinite != remaining.is_indefinite() || now >= lp.at
                    + REMAINING_TIME_TRIGGER_MS,
            };
            if due {
                (
                    Keepalive {
                        deadline,
                        last_publish: Some(
                            LastPublish { at: now, indefinite: remaining.is_indefinite() },
                        ),
                    },
                    KeepaliveEffect { quit: false, publish: Some(remaining) },
                )
            } else {
                (
                    Keepalive { deadline, last_publish: self.last_publish() },
                    KeepaliveEffect { quit: false, publish: None },
                )
            }
        }
    }

    /// A watchdog whose countdown starts now: nothing published yet, quit
    /// due a full timeout from `now`.
    pub fn new(now: u64) -> (r: Keepalive)
        requires
            now <= u64::MAX - TIMEOUT_MS,
        ensures
            r.deadline() == now + TIMEOUT_MS,
            r.last_publish() is None,
    {
        Keepalive { deadline: now + TIMEOUT_MS, last_publish: None }
    }

    /// One iteration of the watchdog loop. `activity` reports that the
    /// activity notification won the race against the poll timer; `powered`
    /// is the externally observed powered flag. Either one resets the
    /// countdown. Past the deadline the effect asks for the quit; otherwise
    /// it asks for a remaining-time publication when one is due.
    pub fn step(&mut self, now: u64, activity: bool, powered: bool) -> (effect: KeepaliveEffect)
        requires
            now <= u64::MAX - TIMEOUT_MS,
        ensures
            (*final(self), effect) == old(self).spec_step(now, activity, powered),
            effect.quit == (!activity && !powered && now >= old(self).deadline()),
            effect.quit ==> effect.publish is None,
    {
        let deadline = if activity || powered {
            now + TIMEOUT_MS
        } else {
            self.deadline
        };
        self.deadline = deadline;

        if now >= deadline {
            KeepaliveEffect { quit: true, publish: None }
        } else {
            let remaining = if powered {
                RemainingTime::Indefinite
            } else {
                RemainingTime::Duration(deadline - now)
            };
            let is_indef = powered;
            proof {
                assert(is_indef == remaining.is_indefinite());
            }
            let due = match self.last_publish {
                None => true,
                Some(lp) => lp.indefinite != is_indef || (now >= lp.at && now - lp.at
                    >= REMAINING_TIME_TRIGGER_MS),
            };
            if due {
                self.last_publish = Some(LastPublish { at: now, indefinite: is_indef });
                KeepaliveEffect { quit: false, publish: Some(remaining) }
            } else {
                KeepaliveEffect { quit: false, publish: None }
            }
        }
    }
}

/// Throttle law: when a step publishes and the discriminant equals that of
/// the previous publication, at least the trigger interval has passed since
/// that publication — two like-for-like publishes are never less than a
/// second apart.
pub proof fn lemma_publish_throttled(
    s: Keepalive,
    now: u64,
    activity: bool,
    powered: bool,
    lp: LastPublish,
    r: RemainingTime,
)
    requires
        s.last_publish() == Some(lp),
        s.spec_step(now, activity, powered).1.publish == Some(r),
        r.is_indefinite() == lp.indefinite,
    ensures
        now >= lp.at + REMAINING_TIME_TRIGGER_MS,
{
}

/// Flip law: a step that does not quit and whose discriminant differs from
/// the previous publication publishes immediately, however little time has
/// passed.
pub proof fn lemma_discriminant_flip_publishes(
    s: Keepalive,
    now: u64,
    activity: bool,
    powered: bool,
    lp: LastPublish,
)
    requires
        s.last_publish() == Some(lp),
        !s.spec_step(now, activity, powered).1.quit,
        powered != lp.indefinite,
    ensures
        s.spec_step(now, activity, powered).1.publish matches Some(r) && r.is_indefinite()
            == powered,
{
}

/// A step that does not publish keeps the publication record, and one that
/// publishes stamps it with the current time and discriminant: this is what
/// chains the throttle law across iterations.
pub proof fn lemma_publish_record(s: Keepalive, now: u64, activity: bool, powered: bool)
    ensures
        s.spec_step(now, activity, powered).1.publish is None ==> s.spec_step(
            now,
            activity,
            powered,
        ).0.last_publish() == s.last_publish(),
        s.spec_step(now, activity, powered).1.publish matches Some(r) ==> s.spec_step(
            now,
            activity,
            powered,
        ).0.last_publish() == Some(LastPublish { at: now, indefinite: r.is_indefinite() }),
{
}

/// Quit law: with no activity and no external power, the countdown is not
/// reset, and the quit fires exactly when the deadline — a full timeout
/// after the last reset — has passed.
pub proof fn lemma_quit_exact(s: Keepalive, now: u64, last_reset: u64)
    requires
        s.deadline() == last_reset + TIMEOUT_MS,
    ensures
        s.spec_step(now, false, false).1.quit <==> now >= last_reset + TIMEOUT_MS,
        s.spec_step(now, false, false).0.deadline() == s.deadline(),
{
}

} // verus!
