//! Operations on catalog entries: stop, skip, remove, and the link directory.

use vstd::prelude::*;
use vstd::string::StringExecFns;
use crate::ident::{generate_hash, identifier};
use crate::model::{
    lemma_position_is, lemma_push_keeps_wf, lemma_remove_keeps_wf, lemma_update_keeps_wf,
    Database, DatabaseView, EpisodeView, Error, Program, ProgramStatus, ProgramView,
};
use crate::paths::{file_name, final_segment};
use crate::text::{decimal, push_decimal};
use crate::scan::{entry_views, scan_episodes, scanned, FileEntry, FileEntryView};

verus! {

/// A program after it has been stopped: only its status changes.
pub open spec fn stopped(p: ProgramView) -> ProgramView {
    ProgramView { status: ProgramStatus::Stopped, ..p }
}

/// A program after `count` episodes have been skipped: the cursor moves
/// forward by `count` and halts at the end of the episode list.
pub open spec fn skipped(p: ProgramView, count: nat) -> ProgramView {
    ProgramView {
        current_episode: if p.current_episode + count <= p.episodes.len() {
            p.current_episode + count
        } else {
            p.episodes.len()
        },
        ..p
    }
}

/// A program as it is when it enters the catalog: ready, its cursor on the
/// first episode, no instant recorded.
pub open spec fn new_program(
    name: Seq<char>,
    directory: Seq<char>,
    episodes: Seq<EpisodeView>,
) -> ProgramView {
    ProgramView {
        name,
        hash: identifier(name),
        directory,
        episodes,
        current_episode: 0,
        start_date: None,
        last_update: None,
        status: ProgramStatus::Ready,
    }
}

/// The program that adding `directory` with the given listing makes, or
/// the reason why none is made. No listing stands for a directory that is
/// missing or is no directory.
pub open spec fn add_outcome(directory: Seq<char>, listing: Option<Seq<FileEntryView>>) -> Result<
    ProgramView,
    Error,
> {
    match listing {
        None => Err(Error::InvalidInput),
        Some(entries) => match final_segment(directory) {
            None => Err(Error::InvalidInput),
            Some(name) => if scanned(entries).len() == 0 {
                Err(Error::NoMediaFound)
            } else {
                Ok(new_program(name, directory, scanned(entries)))
            },
        },
    }
}

/// The catalog with the program `p` in it: in the place of the program
/// that had its identifier, or at the end where there was none.
pub open spec fn with_program(dbv: DatabaseView, p: ProgramView) -> DatabaseView {
    if dbv.contains(p.hash) {
        DatabaseView { programs: dbv.programs.update(dbv.position(p.hash), p), ..dbv }
    } else {
        DatabaseView { programs: dbv.programs.push(p), ..dbv }
    }
}

/// Registers the directory `directory`, whose entries are `listing`, as a
/// program, and returns the program's identifier. The program is named
/// after the final segment of the directory's path. A program that already
/// has the same identifier is replaced by the new one.
///
/// Fails with `InvalidInput` when there is no listing (the directory is
/// missing or is no directory) or the path has no final segment, and with
/// `NoMediaFound` when the listing holds no media file.
pub fn add_program(db: &mut Database, directory: &str, listing: Option<&Vec<FileEntry>>) -> (r:
    Result<String, Error>)
    requires
        old(db).wf(),
    ensures
        final(db).wf(),
        match add_outcome(
            directory@,
            match listing {
                Some(entries) => Some(entry_views(entries@)),
                None => None,
            },
        ) {
            Ok(p) => final(db)@ == with_program(old(db)@, p) && match r {
                Ok(hash) => hash@ == p.hash,
                Err(_) => false,
            },
            Err(e) => final(db)@ == old(db)@ && r == Err::<String, Error>(e),
        },
{
    let entries = match listing {
        None => {
            return Err(Error::InvalidInput);
        },
        Some(entries) => entries,
    };
    let name = match file_name(directory) {
        None => {
            return Err(Error::InvalidInput);
        },
        Some(name) => name,
    };
    let hash = generate_hash(name.as_str());
    let episodes = scan_episodes(entries);
    if episodes.len() == 0 {
        return Err(Error::NoMediaFound);
    }
    let id = hash.clone();
    let program = Program {
        name,
        hash,
        directory: String::from_str(directory),
        episodes,
        current_episode: 0,
        start_date: None,
        last_update: None,
        status: ProgramStatus::Ready,
    };
    let ghost before = old(db)@;
    let ghost p = program@;
    match db.find(id.as_str()) {
        Some(i) => {
            proof {
                lemma_position_is(before, p.hash, i as int);
                lemma_update_keeps_wf(before, i as int, p);
            }
            db.programs[i] = program;
            assert(db@.programs =~= before.programs.update(i as int, p));
        },
        None => {
            proof {
                lemma_push_keeps_wf(before, p);
            }
            db.programs.push(program);
            assert(db@.programs =~= before.programs.push(p));
        },
    }
    Ok(id)
}

/// Halts the program with the identifier `program_hash`, whatever its status.
pub fn stop_program(db: &mut Database, program_hash: &str) -> (r: Result<(), Error>)
    requires
        old(db).wf(),
    ensures
        final(db).wf(),
        final(db)@.symlink_dir == old(db)@.symlink_dir,
        match r {
            Ok(_) => old(db)@.contains(program_hash@) && final(db)@.programs == old(
                db,
            )@.programs.update(
                old(db)@.position(program_hash@),
                stopped(old(db)@.programs[old(db)@.position(program_hash@)]),
            ),
            Err(e) => e == Error::NotFound && !old(db)@.contains(program_hash@) && final(db)@
                == old(db)@,
        },
{
    match db.find(program_hash) {
        None => Err(Error::NotFound),
        Some(i) => {
            db.programs[i].status = ProgramStatus::Stopped;
            proof {
                let before = old(db)@;
                lemma_position_is(before, program_hash@, i as int);
                lemma_update_keeps_wf(before, i as int, stopped(before.programs[i as int]));
                assert(db@.programs =~= before.programs.update(
                    i as int,
                    stopped(before.programs[i as int]),
                ));
            }
            Ok(())
        },
    }
}

/// Moves the cursor of the program with the identifier `program_hash`
/// forward by `count` episodes, halting at the end of the list. Status and
/// instants stay as they are.
pub fn skip_episodes(db: &mut Database, program_hash: &str, count: usize) -> (r: Result<(), Error>)
    requires
        old(db).wf(),
    ensures
        final(db).wf(),
        final(db)@.symlink_dir == old(db)@.symlink_dir,
        match r {
            Ok(_) => old(db)@.contains(program_hash@) && final(db)@.programs == old(
                db,
            )@.programs.update(
                old(db)@.position(program_hash@),
                skipped(old(db)@.programs[old(db)@.position(program_hash@)], count as nat),
            ),
            Err(e) => e == Error::NotFound && !old(db)@.contains(program_hash@) && final(db)@
                == old(db)@,
        },
{
    match db.find(program_hash) {
        None => Err(Error::NotFound),
        Some(i) => {
            let len: usize = db.programs[i].episodes.len();
            let current: usize = db.programs[i].current_episode;
            let target: usize = if count <= len - current {
                current + count
            } else {
                len
            };
            db.programs[i].current_episode = target;
            proof {
                let before = old(db)@;
                lemma_position_is(before, program_hash@, i as int);
                lemma_update_keeps_wf(
                    before,
                    i as int,
                    skipped(before.programs[i as int], count as nat),
                );
                assert(db@.programs =~= before.programs.update(
                    i as int,
                    skipped(before.programs[i as int], count as nat),
                ));
            }
            Ok(())
        },
    }
}

/// Takes the program with the identifier `program_hash` out of the catalog
/// and hands it back. The others keep their order.
pub fn remove_program(db: &mut Database, program_hash: &str) -> (r: Result<Program, Error>)
    requires
        old(db).wf(),
    ensures
        final(db).wf(),
        final(db)@.symlink_dir == old(db)@.symlink_dir,
        match r {
            Ok(removed) => old(db)@.contains(program_hash@) && removed@ == old(
                db,
            )@.programs[old(db)@.position(program_hash@)] && final(db)@.programs == old(
                db,
            )@.programs.remove(old(db)@.position(program_hash@)) && !final(db)@.contains(
                program_hash@,
            ),
            Err(e) => e == Error::NotFound && !old(db)@.contains(program_hash@) && final(db)@
                == old(db)@,
        },
{
    match db.find(program_hash) {
        None => Err(Error::NotFound),
        Some(i) => {
            let removed = db.programs.remove(i);
            proof {
                let before = old(db)@;
                lemma_position_is(before, program_hash@, i as int);
                lemma_remove_keeps_wf(before, i as int);
                assert(db@.programs =~= before.programs.remove(i as int));
            }
            Ok(removed)
        },
    }
}

/// Makes `path` the one directory in which links are published, in place
/// of any earlier one.
pub fn set_symlink_dir(db: &mut Database, path: &str)
    ensures
        final(db)@.symlink_dir == Some(path@),
        final(db)@.programs == old(db)@.programs,
        old(db).wf() ==> final(db).wf(),
{
    db.symlink_dir = Some(String::from_str(path));
    assert(db@.programs =~= old(db)@.programs);
}

/// The status that a filter word selects: `running`, `ran` (finished),
/// `ready` or `stopped`. Any other word selects every program.
pub open spec fn status_filter(word: Seq<char>) -> Option<ProgramStatus> {
    if word == "running"@ {
        Some(ProgramStatus::Running)
    } else if word == "ran"@ {
        Some(ProgramStatus::Finished)
    } else if word == "ready"@ {
        Some(ProgramStatus::Ready)
    } else if word == "stopped"@ {
        Some(ProgramStatus::Stopped)
    } else {
        None
    }
}

/// Tells whether the program `p` passes the filter.
pub open spec fn passes(p: ProgramView, filter: Option<ProgramStatus>) -> bool {
    match filter {
        Some(status) => p.status == status,
        None => true,
    }
}

/// Reads a filter word.
pub fn parse_filter(word: &str) -> (r: Option<ProgramStatus>)
    ensures
        r == status_filter(word@),
{
    let w = String::from_str(word);
    if w == String::from_str("running") {
        Some(ProgramStatus::Running)
    } else if w == String::from_str("ran") {
        Some(ProgramStatus::Finished)
    } else if w == String::from_str("ready") {
        Some(ProgramStatus::Ready)
    } else if w == String::from_str("stopped") {
        Some(ProgramStatus::Stopped)
    } else {
        None
    }
}

/// The places of the programs that the filter word selects, in the order
/// of the catalog.
pub fn list_programs(db: &Database, filter: &str) -> (places: Vec<usize>)
    ensures
        forall|k: int|
            0 <= k < places@.len() ==> (#[trigger] places@[k]) < db@.programs.len() && passes(
                db@.programs[places@[k] as int],
                status_filter(filter@),
            ),
        forall|k: int, l: int| 0 <= k < l < places@.len() ==> places@[k] < places@[l],
        forall|i: int|
            0 <= i < db@.programs.len() && passes(
                #[trigger] db@.programs[i],
                status_filter(filter@),
            ) ==> places@.contains(i as usize),
{
    let wanted = parse_filter(filter);
    let mut places: Vec<usize> = Vec::new();
    let mut i: usize = 0;
    while i < db.programs.len()
        invariant
            i <= db@.programs.len(),
            wanted == status_filter(filter@),
            forall|k: int|
                0 <= k < places@.len() ==> (#[trigger] places@[k]) < i && passes(
                    db@.programs[places@[k] as int],
                    wanted,
                ),
            forall|k: int, l: int| 0 <= k < l < places@.len() ==> places@[k] < places@[l],
            forall|j: int|
                0 <= j < i && passes(#[trigger] db@.programs[j], wanted) ==> places@.contains(
                    j as usize,
                ),
        decreases db@.programs.len() - i,
    {
        let keep = match wanted {
            Some(status) => db.programs[i].status == status,
            None => true,
        };
        if keep {
            let ghost earlier = places@;
            places.push(i);
            assert(places@[earlier.len() as int] == i);
            assert forall|j: int|
                0 <= j < i + 1 && passes(#[trigger] db@.programs[j], wanted) implies places@.contains(
                j as usize,
            ) by {
                if j < i {
                    let k = choose|k: int| 0 <= k < earlier.len() && earlier[k] == j as usize;
                    assert(places@[k] == j as usize);
                }
            }
        }
        i += 1;
    }
    places
}

/// The name of a status, as it is shown.
pub open spec fn status_name(status: ProgramStatus) -> Seq<char> {
    match status {
        ProgramStatus::Ready => "Ready"@,
        ProgramStatus::Running => "Running"@,
        ProgramStatus::Finished => "Finished"@,
        ProgramStatus::Stopped => "Stopped"@,
    }
}

/// The line that shows a program: its identifier, its name in square
/// brackets, the cursor and the number of episodes in round brackets, and
/// the status.
pub open spec fn description(p: ProgramView) -> Seq<char> {
    p.hash + " ["@ + p.name + "] ("@ + decimal(p.current_episode) + "/"@ + decimal(
        p.episodes.len(),
    ) + " episodes) - "@ + status_name(p.status)
}

/// Writes the line that shows the program.
pub fn describe_program(program: &Program) -> (line: String)
    ensures
        line@ == description(program@),
{
    let mut line = program.hash.clone();
    line.append(" [");
    line.append(program.name.as_str());
    line.append("] (");
    push_decimal(&mut line, program.current_episode);
    line.append("/");
    push_decimal(&mut line, program.episodes.len());
    line.append(" episodes) - ");
    match program.status {
        ProgramStatus::Ready => line.append("Ready"),
        ProgramStatus::Running => line.append("Running"),
        ProgramStatus::Finished => line.append("Finished"),
        ProgramStatus::Stopped => line.append("Stopped"),
    }
    line
}

} // verus!
