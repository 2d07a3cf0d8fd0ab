//! What holds of the state machine, whatever the program and the instant.

use vstd::prelude::*;
use crate::clock::{
    cadence_passed, div_toward_zero, whole_days_between, Timestamp, CADENCE_DAYS,
    NANOS_PER_SECOND, SECONDS_PER_DAY,
};
use crate::model::{DatabaseView, Error, ProgramStatus, ProgramView};
use crate::registry::{skipped, stopped};
use crate::rollover::{
    advanced, after_sweep, answers, can_advance, decide, planned, started, Decision,
    RolloverAction,
};

verus! {

/// Nanoseconds in the seven days of the cadence.
pub open spec fn cadence_nanos() -> int {
    CADENCE_DAYS as int * SECONDS_PER_DAY as int * NANOS_PER_SECOND as int
}

/// Two programs are the same entry when they agree on identifier, name,
/// directory and episodes.
pub open spec fn same_entry(p: ProgramView, q: ProgramView) -> bool {
    p.hash == q.hash && p.name == q.name && p.directory == q.directory && p.episodes == q.episodes
}

/// In a valid program the cursor lies within the episode list, and a
/// finished program has its cursor at the end of the list.
pub proof fn law_cursor_in_bounds(p: ProgramView)
    requires
        p.wf(),
    ensures
        0 <= p.current_episode <= p.episodes.len(),
        p.status == ProgramStatus::Finished ==> p.current_episode == p.episodes.len(),
{
}

/// Every transition takes a valid program to a valid program: starting,
/// the rollover decision, the advance after a publish, skipping, stopping.
/// None of them changes the program's identifier, name or episodes.
pub proof fn law_transitions_keep_validity(
    p: ProgramView,
    force: bool,
    now: Timestamp,
    count: nat,
)
    requires
        p.wf(),
        now.wf(),
    ensures
        started(p, now).wf(),
        planned(p, force, now).wf(),
        can_advance(p) ==> advanced(p, now).wf(),
        decide(p, force, now) == Decision::Publish ==> advanced(planned(p, force, now), now).wf(),
        skipped(p, count).wf(),
        stopped(p).wf(),
        same_entry(started(p, now), p),
        same_entry(planned(p, force, now), p),
        same_entry(advanced(p, now), p),
        same_entry(skipped(p, count), p),
        same_entry(stopped(p), p),
{
}

/// The cadence is met exactly when seven days or more lie between the last
/// update and now.
pub proof fn law_cadence_threshold(last: Timestamp, now: Timestamp)
    requires
        last.wf(),
        now.wf(),
    ensures
        cadence_passed(Some(last), now) <==> now.total_nanos() - last.total_nanos()
            >= cadence_nanos(),
        cadence_passed(None, now),
{
    let d = now.total_nanos() - last.total_nanos();
    let secs = div_toward_zero(d, NANOS_PER_SECOND as int);
    assert(whole_days_between(now, last) == div_toward_zero(secs, SECONDS_PER_DAY as int));
    assert(cadence_nanos() == 604_800_000_000_000int);
    if d >= 0 {
        assert(secs == d / 1_000_000_000);
        assert(div_toward_zero(secs, 86_400) == secs / 86_400);
    } else {
        assert(secs <= 0);
        assert(div_toward_zero(secs, 86_400) <= 0);
    }
}

/// An unforced rollover of a running program less than seven days after
/// its last update changes nothing; from seven days on it goes ahead.
pub proof fn law_cadence_gate(p: ProgramView, last: Timestamp, now: Timestamp)
    requires
        p.wf(),
        now.wf(),
        p.status == ProgramStatus::Running,
        p.last_update == Some(last),
    ensures
        now.total_nanos() - last.total_nanos() < cadence_nanos() ==> decide(p, false, now)
            == Decision::Idle && planned(p, false, now) == p,
        now.total_nanos() - last.total_nanos() >= cadence_nanos() ==> decide(p, false, now)
            != Decision::Idle,
{
    law_cadence_threshold(last, now);
}

/// A forced rollover of a ready or running program is never idle, and its
/// decision does not depend on the instant of the last update.
pub proof fn law_forced_rollover_ignores_cadence(
    p: ProgramView,
    other_last_update: Option<Timestamp>,
    now: Timestamp,
)
    requires
        p.status == ProgramStatus::Running || p.status == ProgramStatus::Ready,
    ensures
        decide(p, true, now) != Decision::Idle,
        decide(ProgramView { last_update: other_last_update, ..p }, true, now) == decide(
            p,
            true,
            now,
        ),
{
}

/// A ready or running program at the end of its series finishes at the
/// first forced rollover without a publish, and every later rollover
/// leaves it as it is and publishes nothing.
pub proof fn law_finish_happens_once(
    p: ProgramView,
    symlink_dir: Option<Seq<char>>,
    first: Timestamp,
    later: Timestamp,
    force_later: bool,
    r: Result<RolloverAction, Error>,
)
    requires
        p.wf(),
        p.status == ProgramStatus::Running || p.status == ProgramStatus::Ready,
        p.current_episode == p.episodes.len(),
    ensures
        decide(p, true, first) == Decision::Finish,
        planned(p, true, first).status == ProgramStatus::Finished,
        decide(planned(p, true, first), force_later, later) == Decision::Idle,
        planned(planned(p, true, first), force_later, later) == planned(p, true, first),
        answers(planned(p, true, first), symlink_dir, force_later, later, r) ==> r == Ok::<
            RolloverAction,
            Error,
        >(RolloverAction::Nothing),
{
}

/// Skipping never takes the cursor past the end of the episode list, and
/// changes nothing but the cursor.
pub proof fn law_skip_stays_in_bounds(p: ProgramView, count: nat)
    requires
        p.wf(),
    ensures
        skipped(p, count).current_episode <= p.episodes.len(),
        skipped(p, count).current_episode >= p.current_episode,
        skipped(p, count) == (ProgramView {
            current_episode: skipped(p, count).current_episode,
            ..p
        }),
{
}

/// Stopping takes a program of any status to `Stopped`, and no rollover,
/// forced or not, touches a stopped program.
pub proof fn law_stopped_is_left_alone(p: ProgramView, force: bool, now: Timestamp)
    ensures
        stopped(p).status == ProgramStatus::Stopped,
        decide(stopped(p), force, now) == Decision::Idle,
        planned(stopped(p), force, now) == stopped(p),
{
}

/// A sweep leaves every stopped program of the catalog as it is.
pub proof fn law_sweep_skips_stopped(dbv: DatabaseView, now: Timestamp, i: int)
    requires
        0 <= i < dbv.programs.len(),
        dbv.programs[i].status == ProgramStatus::Stopped,
    ensures
        after_sweep(dbv, now).programs[i] == dbv.programs[i],
{
}

} // verus!
