//! Instants and the weekly cadence gate.

use vstd::prelude::*;

verus! {

/// Nanoseconds in one second.
pub const NANOS_PER_SECOND: u32 = 1_000_000_000;

/// Seconds in one day.
pub const SECONDS_PER_DAY: i64 = 86_400;

/// Largest distance from the epoch, in seconds, that an instant may have.
///
/// It is about 126 thousand years, well inside the calendar that the
/// date library can represent (years -262143 to 262142).
pub const MAX_EPOCH_SECONDS: i64 = 4_000_000_000_000;

/// Days that must have passed since the last rollover before the next one is due.
pub const CADENCE_DAYS: i64 = 7;

/// An absolute instant: seconds and nanoseconds since 1970-01-01T00:00:00Z.
#[derive(Clone, Copy, Debug, PartialEq, Eq, Structural)]
pub struct Timestamp {
    pub secs: i64,
    pub nanos: u32,
}

impl Timestamp {
    /// An instant is valid when its nanoseconds are below one second and its
    /// seconds lie within `MAX_EPOCH_SECONDS` of the epoch.
    pub open spec fn wf(self) -> bool {
        &&& -MAX_EPOCH_SECONDS <= self.secs <= MAX_EPOCH_SECONDS
        &&& self.nanos < NANOS_PER_SECOND
    }

    /// Nanoseconds since the epoch, as a mathematical integer.
    pub open spec fn total_nanos(self) -> int {
        self.secs * (NANOS_PER_SECOND as int) + self.nanos
    }

    /// Builds an instant, or `None` when the parts do not form a valid one.
    pub fn new(secs: i64, nanos: u32) -> (r: Option<Timestamp>)
        ensures
            r == (if (Timestamp { secs, nanos }).wf() {
                Some(Timestamp { secs, nanos })
            } else {
                None
            }),
    {
        if -MAX_EPOCH_SECONDS <= secs && secs <= MAX_EPOCH_SECONDS && nanos < NANOS_PER_SECOND {
            Some(Timestamp { secs, nanos })
        } else {
            None
        }
    }

    /// Tells whether the instant is valid.
    pub fn is_valid(&self) -> (r: bool)
        ensures
            r == self.wf(),
    {
        -MAX_EPOCH_SECONDS <= self.secs && self.secs <= MAX_EPOCH_SECONDS && self.nanos
            < NANOS_PER_SECOND
    }
}

/// Integer division that rounds toward zero.
pub open spec fn div_toward_zero(a: int, b: int) -> int
    recommends
        b > 0,
{
    if a >= 0 {
        a / b
    } else {
        -((-a) / b)
    }
}

/// Whole days from `earlier` to `later`: the difference of the two instants,
/// cut to whole seconds and then to whole days, each time toward zero.
/// Negative when `later` lies before `earlier`.
pub open spec fn whole_days_between(later: Timestamp, earlier: Timestamp) -> int {
    div_toward_zero(
        div_toward_zero(later.total_nanos() - earlier.total_nanos(), NANOS_PER_SECOND as int),
        SECONDS_PER_DAY as int,
    )
}

/// Calls `chrono::DateTime::signed_duration_since` on the two instants and
/// `chrono::TimeDelta::num_days` on the difference.
///
/// Trusted: the result is the difference of the two instants in whole days,
/// rounded toward zero. Both instants are valid, so that
/// `chrono::DateTime::from_timestamp` accepts them.
#[verifier::external_body]
fn days_since(later: Timestamp, earlier: Timestamp) -> (days: i64)
    requires
        later.wf(),
        earlier.wf(),
    ensures
        days == whole_days_between(later, earlier),
{
    let a = chrono::DateTime::from_timestamp(later.secs, later.nanos).unwrap();
    let b = chrono::DateTime::from_timestamp(earlier.secs, earlier.nanos).unwrap();
    a.signed_duration_since(b).num_days()
}

/// The cadence gate on its own: a rollover is due when there was none
/// before, or when at least `CADENCE_DAYS` whole days lie between the last
/// one and `now`.
pub open spec fn cadence_passed(last_update: Option<Timestamp>, now: Timestamp) -> bool {
    match last_update {
        None => true,
        Some(last) => whole_days_between(now, last) >= CADENCE_DAYS,
    }
}

/// Decides whether the cadence allows a rollover at `now`.
pub fn should_rollover(last_update: Option<Timestamp>, now: Timestamp) -> (due: bool)
    requires
        now.wf(),
        last_update matches Some(last) ==> last.wf(),
    ensures
        due == cadence_passed(last_update, now),
{
    match last_update {
        None => true,
        Some(last) => {
            let days: i64 = days_since(now, last);
            days >= CADENCE_DAYS
        },
    }
}

} // verus!
