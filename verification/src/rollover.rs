//! The rollover engine: the state machine of a program, the decision whether
//! its next episode is to be published, and the sweep over the catalog.
//!
//! Publishing a link is the caller's work. `update_program_symlink` decides
//! and says what to publish; once the link stands, `confirm_published`
//! advances the cursor. A failed publish is simply not confirmed, so the
//! cursor never runs ahead of the links.

use vstd::prelude::*;
use vstd::string::StringExecFns;
use crate::clock::{cadence_passed, should_rollover, Timestamp};
use crate::model::{
    lemma_position_is, lemma_update_keeps_wf, Database, DatabaseView, EpisodeView, Error,
    ProgramStatus, ProgramView,
};
use crate::paths::{extension_of_path, path_extension};
use crate::text::{
    chars_of, decimal_two, push_char, push_chars, push_decimal, push_underscored, underscored,
};

verus! {

/// What a rollover attempt on one program comes to.
#[derive(Clone, Copy, Debug, PartialEq, Eq, Structural)]
pub enum Decision {
    /// Nothing happens: the program is stopped or finished, or its cadence
    /// does not allow a rollover yet.
    Idle,
    /// No episode is left: the program finishes.
    Finish,
    /// The episode under the cursor is to be published.
    Publish,
}

/// A program once a rollover has been invoked on it: a ready one starts
/// running at `now`, any other stays as it is.
pub open spec fn started(p: ProgramView, now: Timestamp) -> ProgramView {
    if p.status == ProgramStatus::Ready {
        ProgramView { status: ProgramStatus::Running, start_date: Some(now), ..p }
    } else {
        p
    }
}

/// The decision for the program `p` at `now`. Only a running program (one
/// that was ready counts as running) can roll over; it does so when forced
/// or when its cadence allows it; it finishes when no episode is left.
pub open spec fn decide(p: ProgramView, force: bool, now: Timestamp) -> Decision {
    let q = started(p, now);
    if q.status != ProgramStatus::Running {
        Decision::Idle
    } else if !force && !cadence_passed(q.last_update, now) {
        Decision::Idle
    } else if q.current_episode >= q.episodes.len() {
        Decision::Finish
    } else {
        Decision::Publish
    }
}

/// The program after the decision has been taken, before anything is
/// published: started, and finished where the decision is `Finish`.
pub open spec fn planned(p: ProgramView, force: bool, now: Timestamp) -> ProgramView {
    let q = started(p, now);
    if decide(p, force, now) == Decision::Finish {
        ProgramView { status: ProgramStatus::Finished, ..q }
    } else {
        q
    }
}

/// A program may be advanced when it runs and an episode is left.
pub open spec fn can_advance(p: ProgramView) -> bool {
    p.status == ProgramStatus::Running && p.current_episode < p.episodes.len()
}

/// The program after its current episode has been published at `now`.
pub open spec fn advanced(p: ProgramView, now: Timestamp) -> ProgramView {
    ProgramView { current_episode: p.current_episode + 1, last_update: Some(now), ..p }
}

/// The extension of the file at `path`, empty where it has none.
pub open spec fn extension_or_empty(path: Seq<char>) -> Seq<char> {
    match path_extension(path) {
        Some(ext) => ext,
        None => Seq::empty(),
    }
}

/// The name of the link for an episode: the program's name with
/// underscores for spaces, `_ep`, the episode's number in two digits or
/// more, a dot, and the extension of the episode's file.
pub open spec fn link_name(name: Seq<char>, episode: EpisodeView) -> Seq<char> {
    underscored(name) + seq!['_', 'e', 'p'] + decimal_two(episode.episode_number) + seq!['.']
        + extension_or_empty(episode.path)
}

/// Builds the name of the link for episode `episode_number` of the program
/// `name`, whose file is at `path`.
pub fn make_link_name(name: &str, episode_number: usize, path: &str) -> (r: String)
    ensures
        r@ == link_name(
            name@,
            EpisodeView { path: path@, episode_number: episode_number as nat },
        ),
{
    let mut r = String::new();
    let name_chars = chars_of(name);
    push_underscored(&mut r, &name_chars);
    push_char(&mut r, '_');
    push_char(&mut r, 'e');
    push_char(&mut r, 'p');
    assert(r@ =~= underscored(name@) + seq!['_', 'e', 'p']);
    if episode_number < 10 {
        push_char(&mut r, '0');
    }
    push_decimal(&mut r, episode_number);
    assert(r@ =~= underscored(name@) + seq!['_', 'e', 'p'] + decimal_two(episode_number as nat));
    push_char(&mut r, '.');
    match extension_of_path(path) {
        Some(ext) => {
            let ext_chars = chars_of(ext.as_str());
            push_chars(&mut r, &ext_chars, 0, ext_chars.len());
            assert(ext_chars@.subrange(0, ext_chars@.len() as int) =~= ext_chars@);
        },
        None => {},
    }
    assert(r@ =~= link_name(
        name@,
        EpisodeView { path: path@, episode_number: episode_number as nat },
    ));
    r
}

/// A link that the caller is asked to publish: in `directory`, under the
/// name `link_name`, pointing at `target`. A link of that name that already
/// stands is to be replaced.
#[derive(Clone, Debug, PartialEq, Eq)]
pub struct LinkRequest {
    pub directory: String,
    pub link_name: String,
    pub target: String,
}

/// What the caller has to do after a rollover attempt.
#[derive(Clone, Debug, PartialEq, Eq)]
pub enum RolloverAction {
    /// Nothing is to be published.
    Nothing,
    /// The link is to be published and, once it stands, confirmed with
    /// `confirm_published`.
    Publish(LinkRequest),
}

/// The outcome of a rollover attempt on one program during an update.
#[derive(Debug, PartialEq, Eq)]
pub struct SweepOutcome {
    pub hash: String,
    pub result: Result<RolloverAction, Error>,
}

/// Tells whether `r` is the right answer to a rollover attempt on the
/// program `p` of a catalog with the link directory `symlink_dir`.
pub open spec fn answers(
    p: ProgramView,
    symlink_dir: Option<Seq<char>>,
    force: bool,
    now: Timestamp,
    r: Result<RolloverAction, Error>,
) -> bool {
    match decide(p, force, now) {
        Decision::Idle => r == Ok::<RolloverAction, Error>(RolloverAction::Nothing),
        Decision::Finish => r == Ok::<RolloverAction, Error>(RolloverAction::Nothing),
        Decision::Publish => match symlink_dir {
            None => r == Err::<RolloverAction, Error>(Error::ConfigurationMissing),
            Some(dir) => match r {
                Ok(RolloverAction::Publish(request)) => {
                    &&& request.directory@ == dir
                    &&& request.link_name@ == link_name(
                        p.name,
                        p.episodes[p.current_episode as int],
                    )
                    &&& request.target@ == p.episodes[p.current_episode as int].path
                },
                _ => false,
            },
        },
    }
}

/// Tells whether `r` is the right answer to a rollover attempt on the
/// program with the identifier `hash` in the catalog `before`.
pub open spec fn attempt_answers(
    before: DatabaseView,
    hash: Seq<char>,
    force: bool,
    now: Timestamp,
    r: Result<RolloverAction, Error>,
) -> bool {
    if before.contains(hash) {
        answers(before.programs[before.position(hash)], before.symlink_dir, force, now, r)
    } else {
        r == Err::<RolloverAction, Error>(Error::NotFound)
    }
}

/// The catalog after a rollover attempt on the program with the identifier
/// `hash`: that program is as planned, everything else is as before.
pub open spec fn after_attempt(before: DatabaseView, hash: Seq<char>, force: bool, now: Timestamp)
    -> DatabaseView {
    if before.contains(hash) {
        DatabaseView {
            programs: before.programs.update(
                before.position(hash),
                planned(before.programs[before.position(hash)], force, now),
            ),
            ..before
        }
    } else {
        before
    }
}

/// A rollover attempt on the program at place `i`.
fn attempt_at(db: &mut Database, i: usize, force: bool, now: Timestamp) -> (r: Result<
    RolloverAction,
    Error,
>)
    requires
        old(db).wf(),
        now.wf(),
        i < old(db)@.programs.len(),
    ensures
        final(db).wf(),
        final(db)@.symlink_dir == old(db)@.symlink_dir,
        final(db)@.programs == old(db)@.programs.update(
            i as int,
            planned(old(db)@.programs[i as int], force, now),
        ),
        answers(old(db)@.programs[i as int], old(db)@.symlink_dir, force, now, r),
{
    let ghost before = old(db)@;
    let ghost p = before.programs[i as int];
    proof {
        lemma_planned_wf(p, force, now);
        lemma_update_keeps_wf(before, i as int, planned(p, force, now));
    }
    if db.programs[i].status == ProgramStatus::Ready {
        db.programs[i].status = ProgramStatus::Running;
        db.programs[i].start_date = Some(now);
    }
    assert(db@.programs =~= before.programs.update(i as int, started(p, now)));
    if db.programs[i].status != ProgramStatus::Running {
        return Ok(RolloverAction::Nothing);
    }
    if !force && !should_rollover(db.programs[i].last_update, now) {
        return Ok(RolloverAction::Nothing);
    }
    if db.programs[i].current_episode >= db.programs[i].episodes.len() {
        db.programs[i].status = ProgramStatus::Finished;
        assert(db@.programs =~= before.programs.update(i as int, planned(p, force, now)));
        return Ok(RolloverAction::Nothing);
    }
    match &db.symlink_dir {
        None => Err(Error::ConfigurationMissing),
        Some(dir) => {
            let program = &db.programs[i];
            let episode = &program.episodes[program.current_episode];
            let request = LinkRequest {
                directory: dir.clone(),
                link_name: make_link_name(
                    program.name.as_str(),
                    episode.episode_number,
                    episode.path.as_str(),
                ),
                target: episode.path.clone(),
            };
            assert(p.episodes[p.current_episode as int] == episode@);
            Ok(RolloverAction::Publish(request))
        },
    }
}

/// Attempts a rollover of the program with the identifier `program_hash`
/// at `now`. A ready program starts running. A running program whose gate
/// is open (forced, never rolled over, or last rolled over seven whole days
/// ago or more) finishes when no episode is left, and otherwise asks for
/// the link of its current episode. The cursor does not move here: see
/// `confirm_published`.
pub fn update_program_symlink(
    db: &mut Database,
    program_hash: &str,
    force: bool,
    now: Timestamp,
) -> (r: Result<RolloverAction, Error>)
    requires
        old(db).wf(),
        now.wf(),
    ensures
        final(db).wf(),
        final(db)@ == after_attempt(old(db)@, program_hash@, force, now),
        attempt_answers(old(db)@, program_hash@, force, now, r),
{
    match db.find(program_hash) {
        None => Err(Error::NotFound),
        Some(i) => {
            proof {
                lemma_position_is(old(db)@, program_hash@, i as int);
            }
            attempt_at(db, i, force, now)
        },
    }
}

/// The catalog after the link of the current episode of the program with
/// the identifier `hash` has been published at `now`.
pub open spec fn after_confirm(before: DatabaseView, hash: Seq<char>, now: Timestamp)
    -> DatabaseView {
    if before.contains(hash) && can_advance(before.programs[before.position(hash)]) {
        DatabaseView {
            programs: before.programs.update(
                before.position(hash),
                advanced(before.programs[before.position(hash)], now),
            ),
            ..before
        }
    } else {
        before
    }
}

/// Records that the link of the current episode of the program with the
/// identifier `program_hash` has been published at `now`: the cursor moves
/// to the next episode and `now` becomes the instant of the last update.
/// Fails with `NotFound` for an unknown identifier, and with `InvalidInput`
/// for a program that does not run or has no episode left.
pub fn confirm_published(db: &mut Database, program_hash: &str, now: Timestamp) -> (r: Result<
    (),
    Error,
>)
    requires
        old(db).wf(),
        now.wf(),
    ensures
        final(db).wf(),
        final(db)@ == after_confirm(old(db)@, program_hash@, now),
        r == (if !old(db)@.contains(program_hash@) {
            Err::<(), Error>(Error::NotFound)
        } else if !can_advance(old(db)@.programs[old(db)@.position(program_hash@)]) {
            Err::<(), Error>(Error::InvalidInput)
        } else {
            Ok::<(), Error>(())
        }),
{
    match db.find(program_hash) {
        None => Err(Error::NotFound),
        Some(i) => {
            let ghost before = old(db)@;
            let ghost p = before.programs[i as int];
            proof {
                lemma_position_is(before, program_hash@, i as int);
            }
            if db.programs[i].status != ProgramStatus::Running || db.programs[i].current_episode
                >= db.programs[i].episodes.len() {
                return Err(Error::InvalidInput);
            }
            let next: usize = db.programs[i].current_episode + 1;
            db.programs[i].current_episode = next;
            db.programs[i].last_update = Some(now);
            proof {
                lemma_update_keeps_wf(before, i as int, advanced(p, now));
                assert(db@.programs =~= before.programs.update(i as int, advanced(p, now)));
            }
            Ok(())
        },
    }
}

/// The catalog after a sweep at `now`: every program is as planned by an
/// unforced attempt.
pub open spec fn after_sweep(before: DatabaseView, now: Timestamp) -> DatabaseView {
    DatabaseView {
        programs: Seq::new(
            before.programs.len(),
            |i: int| planned(before.programs[i], false, now),
        ),
        ..before
    }
}

/// Tells whether `outcomes` are the right answers to a sweep over the
/// catalog `before`: one for each program, in the catalog's order.
pub open spec fn sweep_answers(before: DatabaseView, now: Timestamp, outcomes: Seq<SweepOutcome>)
    -> bool {
    &&& outcomes.len() == before.programs.len()
    &&& forall|i: int|
        0 <= i < outcomes.len() ==> (#[trigger] outcomes[i]).hash@ == before.programs[i].hash
            && answers(before.programs[i], before.symlink_dir, false, now, outcomes[i].result)
}

/// Updates one program or all of them at `now`.
///
/// With an identifier, the one program is rolled over by force, and its
/// error, if any, is the result. Without one, every program is attempted
/// in turn, each gated by its own cadence; an error on one program is
/// recorded in its outcome and does not stop the sweep.
///
/// Each `Publish` among the outcomes is to be carried out by the caller and
/// then confirmed with `confirm_published`.
pub fn update_symlinks(db: &mut Database, program_hash: Option<&str>, now: Timestamp) -> (r: Result<
    Vec<SweepOutcome>,
    Error,
>)
    requires
        old(db).wf(),
        now.wf(),
    ensures
        final(db).wf(),
        match program_hash {
            Some(hash) => {
                &&& final(db)@ == after_attempt(old(db)@, hash@, true, now)
                &&& match r {
                    Ok(outcomes) => {
                        &&& outcomes@.len() == 1
                        &&& outcomes@[0].hash@ == hash@
                        &&& outcomes@[0].result.is_ok()
                        &&& attempt_answers(old(db)@, hash@, true, now, outcomes@[0].result)
                    },
                    Err(e) => attempt_answers(
                        old(db)@,
                        hash@,
                        true,
                        now,
                        Err::<RolloverAction, Error>(e),
                    ),
                }
            },
            None => {
                &&& final(db)@ == after_sweep(old(db)@, now)
                &&& r matches Ok(outcomes) && sweep_answers(old(db)@, now, outcomes@)
            },
        },
{
    let mut outcomes: Vec<SweepOutcome> = Vec::new();
    match program_hash {
        Some(hash) => {
            match update_program_symlink(db, hash, true, now) {
                Ok(action) => {
                    outcomes.push(SweepOutcome { hash: String::from_str(hash), result: Ok(action) });
                    Ok(outcomes)
                },
                Err(e) => Err(e),
            }
        },
        None => {
            let ghost before = old(db)@;
            let n: usize = db.programs.len();
            let mut i: usize = 0;
            while i < n
                invariant
                    i <= n,
                    n == before.programs.len(),
                    now.wf(),
                    db.wf(),
                    db@.symlink_dir == before.symlink_dir,
                    db@.programs.len() == n,
                    forall|j: int| 0 <= j < i ==> db@.programs[j] == planned(before.programs[j], false, now),
                    forall|j: int| i <= j < n ==> db@.programs[j] == before.programs[j],
                    outcomes@.len() == i,
                    forall|j: int|
                        0 <= j < i ==> (#[trigger] outcomes@[j]).hash@ == before.programs[j].hash
                            && answers(
                            before.programs[j],
                            before.symlink_dir,
                            false,
                            now,
                            outcomes@[j].result,
                        ),
                decreases n - i,
            {
                let hash = db.programs[i].hash.clone();
                let result = attempt_at(db, i, false, now);
                outcomes.push(SweepOutcome { hash, result });
                i += 1;
            }
            assert(db@.programs =~= after_sweep(before, now).programs);
            Ok(outcomes)
        },
    }
}

/// A valid program stays valid through the decision.
pub proof fn lemma_planned_wf(p: ProgramView, force: bool, now: Timestamp)
    requires
        p.wf(),
        now.wf(),
    ensures
        planned(p, force, now).wf(),
        planned(p, force, now).hash == p.hash,
{
}

} // verus!
