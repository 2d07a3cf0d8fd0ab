use queuecast::clock::{should_rollover, Timestamp};

const DAY: i64 = 86_400;

fn at(secs: i64, nanos: u32) -> Timestamp {
    Timestamp::new(secs, nanos).expect("valid instant")
}

#[test]
fn timestamp_accepts_valid_parts() {
    let t = at(1_700_000_000, 999_999_999);
    assert_eq!(t.secs, 1_700_000_000);
    assert_eq!(t.nanos, 999_999_999);
    assert!(t.is_valid());
}

#[test]
fn timestamp_rejects_a_full_second_of_nanos() {
    assert_eq!(Timestamp::new(0, 1_000_000_000), None);
}

#[test]
fn timestamp_bounds_are_inclusive() {
    assert!(Timestamp::new(4_000_000_000_000, 0).is_some());
    assert!(Timestamp::new(-4_000_000_000_000, 0).is_some());
    assert_eq!(Timestamp::new(4_000_000_000_001, 0), None);
    assert_eq!(Timestamp::new(-4_000_000_000_001, 0), None);
}

#[test]
fn instants_at_the_bounds_can_be_compared() {
    let low = at(-4_000_000_000_000, 0);
    let high = at(4_000_000_000_000, 999_999_999);
    assert!(should_rollover(Some(low), high));
    assert!(!should_rollover(Some(high), low));
}

#[test]
fn is_valid_tells_of_a_hand_made_instant() {
    let bad = Timestamp { secs: 0, nanos: 2_000_000_000 };
    assert!(!bad.is_valid());
}

#[test]
fn first_rollover_is_always_due() {
    assert!(should_rollover(None, at(0, 0)));
}

#[test]
fn six_days_are_not_enough() {
    let last = at(1_700_000_000, 0);
    let now = at(1_700_000_000 + 6 * DAY, 0);
    assert!(!should_rollover(Some(last), now));
}

#[test]
fn seven_days_are_enough() {
    let last = at(1_700_000_000, 0);
    let now = at(1_700_000_000 + 7 * DAY, 0);
    assert!(should_rollover(Some(last), now));
}

#[test]
fn one_nanosecond_short_of_seven_days_is_not_enough() {
    let last = at(1_700_000_000, 500);
    let now = at(1_700_000_000 + 7 * DAY, 499);
    assert!(!should_rollover(Some(last), now));
    let just = at(1_700_000_000 + 7 * DAY, 500);
    assert!(should_rollover(Some(last), just));
}

#[test]
fn more_than_seven_days_are_enough() {
    let last = at(1_700_000_000, 0);
    let now = at(1_700_000_000 + 30 * DAY, 123);
    assert!(should_rollover(Some(last), now));
}

#[test]
fn a_last_update_in_the_future_closes_the_gate() {
    let last = at(1_700_000_000 + 10 * DAY, 0);
    let now = at(1_700_000_000, 0);
    assert!(!should_rollover(Some(last), now));
}

#[test]
fn the_same_instant_closes_the_gate() {
    let t = at(1_700_000_000, 42);
    assert!(!should_rollover(Some(t), t));
}

#[test]
fn instants_before_the_epoch_are_compared_too() {
    let last = at(-10 * DAY, 0);
    let now = at(-3 * DAY, 0);
    assert!(should_rollover(Some(last), now));
    let sooner = at(-3 * DAY - 1, 999_999_999);
    assert!(!should_rollover(Some(last), sooner));
}
