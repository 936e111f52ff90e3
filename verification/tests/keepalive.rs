use ruwm::keepalive::{Keepalive, RemainingTime, POLL_PERIOD_MS, REMAINING_TIME_TRIGGER_MS, TIMEOUT_MS};

#[test]
fn quit_fires_exactly_at_last_reset_plus_timeout() {
    let mut k = Keepalive::new(0);
    let mut t: u64 = 0;
    // Poll every two seconds with no activity and no external power.
    loop {
        t += POLL_PERIOD_MS;
        if t >= TIMEOUT_MS {
            break;
        }
        let effect = k.step(t, false, false);
        assert!(!effect.quit, "quit fired early at {} ms", t);
    }
    assert_eq!(t, TIMEOUT_MS);
    let effect = k.step(t, false, false);
    assert!(effect.quit);
    assert_eq!(effect.publish, None);
}

#[test]
fn quit_does_not_fire_one_instant_early() {
    let mut k = Keepalive::new(0);
    let effect = k.step(TIMEOUT_MS - 1, false, false);
    assert!(!effect.quit);
    let effect = k.step(TIMEOUT_MS, false, false);
    assert!(effect.quit);
}

#[test]
fn activity_resets_the_countdown() {
    let mut k = Keepalive::new(0);
    let effect = k.step(5000, true, false);
    assert!(!effect.quit);
    // Without the reset the quit would be due at 20000.
    let effect = k.step(TIMEOUT_MS, false, false);
    assert!(!effect.quit);
    let effect = k.step(5000 + TIMEOUT_MS, false, false);
    assert!(effect.quit);
}

#[test]
fn external_power_holds_the_countdown_open() {
    let mut k = Keepalive::new(0);
    let mut t: u64 = 0;
    for _ in 0..50 {
        t += POLL_PERIOD_MS;
        let effect = k.step(t, false, true);
        assert!(!effect.quit);
    }
    // Power gone: a full timeout still remains from the last powered step.
    let effect = k.step(t + TIMEOUT_MS - 1, false, false);
    assert!(!effect.quit);
    let effect = k.step(t + TIMEOUT_MS, false, false);
    assert!(effect.quit);
}

#[test]
fn remaining_time_is_published_with_the_countdown() {
    let mut k = Keepalive::new(0);
    let effect = k.step(2000, false, false);
    assert!(!effect.quit);
    assert_eq!(effect.publish, Some(RemainingTime::Duration(TIMEOUT_MS - 2000)));
}

#[test]
fn publishes_with_unchanged_discriminant_are_at_least_a_second_apart() {
    let mut k = Keepalive::new(0);
    let effect = k.step(100, false, false);
    assert!(effect.publish.is_some());
    // Less than the trigger interval later: throttled.
    let effect = k.step(600, false, false);
    assert_eq!(effect.publish, None);
    let effect = k.step(1099, false, false);
    assert_eq!(effect.publish, None);
    // Exactly the trigger interval after the last publish: due again.
    let effect = k.step(1100, false, false);
    assert_eq!(effect.publish, Some(RemainingTime::Duration(TIMEOUT_MS - 1100)));
    assert_eq!(REMAINING_TIME_TRIGGER_MS, 1000);
}

#[test]
fn discriminant_flip_publishes_immediately() {
    let mut k = Keepalive::new(0);
    let effect = k.step(100, false, false);
    assert_eq!(effect.publish, Some(RemainingTime::Duration(TIMEOUT_MS - 100)));
    // 300 ms later, external power appears: Indefinite must surface now,
    // and the powered step resets the countdown to 400 + TIMEOUT_MS.
    let effect = k.step(400, false, true);
    assert_eq!(effect.publish, Some(RemainingTime::Indefinite));
    // And flipping back is also immediate.
    let effect = k.step(700, false, false);
    assert_eq!(effect.publish, Some(RemainingTime::Duration(400 + TIMEOUT_MS - 700)));
}

#[test]
fn indefinite_publishes_are_throttled_too() {
    let mut k = Keepalive::new(0);
    let effect = k.step(0, false, true);
    assert_eq!(effect.publish, Some(RemainingTime::Indefinite));
    let effect = k.step(500, false, true);
    assert_eq!(effect.publish, None);
    let effect = k.step(1000, false, true);
    assert_eq!(effect.publish, Some(RemainingTime::Indefinite));
}
