//! The catalog's data: episodes, programs, and the catalog itself, each with
//! its mathematical view and its validity predicate.

use vstd::prelude::*;
use vstd::string::StringExecFns;
use crate::clock::Timestamp;

verus! {

/// Where a program stands in its life.
#[derive(Clone, Copy, Debug, PartialEq, Eq, Structural)]
pub enum ProgramStatus {
    /// Registered and never started.
    Ready,
    /// Rolling over on schedule.
    Running,
    /// Every episode has aired.
    Finished,
    /// Halted by hand.
    Stopped,
}

/// What can go wrong in an operation on the catalog.
#[derive(Clone, Copy, Debug, PartialEq, Eq, Structural)]
pub enum Error {
    /// A directory is missing, is no directory, or has no usable name.
    InvalidInput,
    /// No program has the given identifier.
    NotFound,
    /// The directory holds no media file.
    NoMediaFound,
    /// No directory for the links has been set.
    ConfigurationMissing,
    /// Reading, writing or linking failed.
    Filesystem,
    /// The stored catalog could not be read or written as text.
    Serialization,
}

/// One media file of a program.
#[derive(Clone, Debug, PartialEq, Eq)]
pub struct Episode {
    pub path: String,
    pub episode_number: usize,
}

/// The mathematical value of an `Episode`.
pub struct EpisodeView {
    pub path: Seq<char>,
    pub episode_number: nat,
}

impl View for Episode {
    type V = EpisodeView;

    open spec fn view(&self) -> EpisodeView {
        EpisodeView { path: self.path@, episode_number: self.episode_number as nat }
    }
}

/// The views of a sequence of episodes, in order.
pub open spec fn episode_views(episodes: Seq<Episode>) -> Seq<EpisodeView> {
    Seq::new(episodes.len(), |i: int| episodes[i]@)
}

/// A tracked series: its source directory, its episodes in airing order, and
/// the cursor that points at the next episode to air.
#[derive(Clone, Debug, PartialEq, Eq)]
pub struct Program {
    pub name: String,
    pub hash: String,
    pub directory: String,
    pub episodes: Vec<Episode>,
    pub current_episode: usize,
    pub start_date: Option<Timestamp>,
    pub last_update: Option<Timestamp>,
    pub status: ProgramStatus,
}

/// The mathematical value of a `Program`.
pub struct ProgramView {
    pub name: Seq<char>,
    pub hash: Seq<char>,
    pub directory: Seq<char>,
    pub episodes: Seq<EpisodeView>,
    pub current_episode: nat,
    pub start_date: Option<Timestamp>,
    pub last_update: Option<Timestamp>,
    pub status: ProgramStatus,
}

impl ProgramView {
    /// The cursor stays within the episode list, a finished program has its
    /// cursor at the end, and the recorded instants are valid.
    pub open spec fn wf(self) -> bool {
        &&& self.current_episode <= self.episodes.len()
        &&& self.status == ProgramStatus::Finished ==> self.current_episode == self.episodes.len()
        &&& self.start_date matches Some(t) ==> t.wf()
        &&& self.last_update matches Some(t) ==> t.wf()
    }
}

impl View for Program {
    type V = ProgramView;

    open spec fn view(&self) -> ProgramView {
        ProgramView {
            name: self.name@,
            hash: self.hash@,
            directory: self.directory@,
            episodes: episode_views(self.episodes@),
            current_episode: self.current_episode as nat,
            start_date: self.start_date,
            last_update: self.last_update,
            status: self.status,
        }
    }
}

impl Program {
    /// Validity of the program, stated on its view.
    pub open spec fn wf(&self) -> bool {
        self@.wf()
    }

    /// Tells whether the program is valid.
    pub fn is_valid(&self) -> (r: bool)
        ensures
            r == self.wf(),
    {
        let start_ok = match self.start_date {
            Some(t) => t.is_valid(),
            None => true,
        };
        let last_ok = match self.last_update {
            Some(t) => t.is_valid(),
            None => true,
        };
        self.current_episode <= self.episodes.len() && (self.status != ProgramStatus::Finished
            || self.current_episode == self.episodes.len()) && start_ok && last_ok
    }
}

/// The views of a sequence of programs, in order.
pub open spec fn program_views(programs: Seq<Program>) -> Seq<ProgramView> {
    Seq::new(programs.len(), |i: int| programs[i]@)
}

/// The whole persisted state: the programs, each under its identifier, and
/// the directory in which links are published.
#[derive(Clone, Debug, PartialEq, Eq)]
pub struct Database {
    pub programs: Vec<Program>,
    pub symlink_dir: Option<String>,
}

/// The mathematical value of a `Database`.
pub struct DatabaseView {
    pub programs: Seq<ProgramView>,
    pub symlink_dir: Option<Seq<char>>,
}

impl DatabaseView {
    /// Tells whether some program has the identifier `hash`.
    pub open spec fn contains(self, hash: Seq<char>) -> bool {
        exists|i: int| 0 <= i < self.programs.len() && #[trigger] self.programs[i].hash == hash
    }

    /// The place of the program with the identifier `hash`, where there is one.
    pub open spec fn position(self, hash: Seq<char>) -> int {
        choose|i: int| 0 <= i < self.programs.len() && #[trigger] self.programs[i].hash == hash
    }

    /// Every program is valid and no identifier occurs twice.
    pub open spec fn wf(self) -> bool {
        &&& forall|i: int| 0 <= i < self.programs.len() ==> (#[trigger] self.programs[i]).wf()
        &&& forall|i: int, j: int|
            0 <= i < j < self.programs.len() ==> (#[trigger] self.programs[i]).hash != (
            #[trigger] self.programs[j]).hash
    }
}

/// In a valid catalog the program at place `i` is the one that `position`
/// gives for its identifier.
pub proof fn lemma_position_is(dbv: DatabaseView, hash: Seq<char>, i: int)
    requires
        dbv.wf(),
        0 <= i < dbv.programs.len(),
        dbv.programs[i].hash == hash,
    ensures
        dbv.contains(hash),
        dbv.position(hash) == i,
{
    let j = dbv.position(hash);
    assert(0 <= j < dbv.programs.len() && dbv.programs[j].hash == hash);
    if j < i {
        assert(dbv.programs[j].hash != dbv.programs[i].hash);
    } else if i < j {
        assert(dbv.programs[i].hash != dbv.programs[j].hash);
    }
}

/// Replacing one program by a valid one with the same identifier keeps the
/// catalog valid.
pub proof fn lemma_update_keeps_wf(dbv: DatabaseView, i: int, p: ProgramView)
    requires
        dbv.wf(),
        0 <= i < dbv.programs.len(),
        p.wf(),
        p.hash == dbv.programs[i].hash,
    ensures
        (DatabaseView { programs: dbv.programs.update(i, p), ..dbv }).wf(),
{
    let after = dbv.programs.update(i, p);
    assert forall|a: int, b: int| 0 <= a < b < after.len() implies (#[trigger] after[a]).hash != (
    #[trigger] after[b]).hash by {
        assert(dbv.programs[a].hash != dbv.programs[b].hash);
    }
}

/// Adding a valid program whose identifier is new keeps the catalog valid.
pub proof fn lemma_push_keeps_wf(dbv: DatabaseView, p: ProgramView)
    requires
        dbv.wf(),
        p.wf(),
        !dbv.contains(p.hash),
    ensures
        (DatabaseView { programs: dbv.programs.push(p), ..dbv }).wf(),
{
    let after = dbv.programs.push(p);
    assert forall|a: int, b: int| 0 <= a < b < after.len() implies (#[trigger] after[a]).hash != (
    #[trigger] after[b]).hash by {
        if b == dbv.programs.len() {
            assert(dbv.programs[a].hash != p.hash);
        } else {
            assert(dbv.programs[a].hash != dbv.programs[b].hash);
        }
    }
}

/// Taking one program out keeps the catalog valid, and its identifier is
/// then absent.
pub proof fn lemma_remove_keeps_wf(dbv: DatabaseView, i: int)
    requires
        dbv.wf(),
        0 <= i < dbv.programs.len(),
    ensures
        (DatabaseView { programs: dbv.programs.remove(i), ..dbv }).wf(),
        !(DatabaseView { programs: dbv.programs.remove(i), ..dbv }).contains(dbv.programs[i].hash),
{
    let after = dbv.programs.remove(i);
    assert forall|a: int| 0 <= a < after.len() implies (#[trigger] after[a]).wf() && after[a].hash
        != dbv.programs[i].hash by {
        if a < i {
            assert(after[a] == dbv.programs[a]);
            assert(dbv.programs[a].hash != dbv.programs[i].hash);
        } else {
            assert(after[a] == dbv.programs[a + 1]);
            assert(dbv.programs[i].hash != dbv.programs[a + 1].hash);
        }
    }
    assert forall|a: int, b: int| 0 <= a < b < after.len() implies (#[trigger] after[a]).hash != (
    #[trigger] after[b]).hash by {
        let a0 = if a < i { a } else { a + 1 };
        let b0 = if b < i { b } else { b + 1 };
        assert(after[a] == dbv.programs[a0]);
        assert(after[b] == dbv.programs[b0]);
        assert(dbv.programs[a0].hash != dbv.programs[b0].hash);
    }
}

impl View for Database {
    type V = DatabaseView;

    open spec fn view(&self) -> DatabaseView {
        DatabaseView {
            programs: program_views(self.programs@),
            symlink_dir: match self.symlink_dir {
                Some(dir) => Some(dir@),
                None => None,
            },
        }
    }
}

impl Database {
    /// Validity of the catalog, stated on its view.
    pub open spec fn wf(&self) -> bool {
        self@.wf()
    }

    /// The empty catalog: no program, no link directory.
    pub fn new() -> (db: Database)
        ensures
            db@.programs.len() == 0,
            db@.symlink_dir.is_none(),
            db.wf(),
    {
        Database { programs: Vec::new(), symlink_dir: None }
    }

    /// Tells whether the catalog is valid.
    pub fn is_valid(&self) -> (r: bool)
        ensures
            r == self.wf(),
    {
        let n: usize = self.programs.len();
        let mut i: usize = 0;
        while i < n
            invariant
                i <= n,
                n == self@.programs.len(),
                forall|a: int| 0 <= a < i ==> (#[trigger] self@.programs[a]).wf(),
                forall|a: int, b: int|
                    0 <= a < b < i ==> (#[trigger] self@.programs[a]).hash != (
                    #[trigger] self@.programs[b]).hash,
            decreases n - i,
        {
            if !self.programs[i].is_valid() {
                assert(!self@.programs[i as int].wf());
                return false;
            }
            let mut j: usize = 0;
            while j < i
                invariant
                    j <= i < n,
                    n == self@.programs.len(),
                    forall|a: int|
                        0 <= a < j ==> (#[trigger] self@.programs[a]).hash
                            != self@.programs[i as int].hash,
                decreases i - j,
            {
                if self.programs[j].hash == self.programs[i].hash {
                    assert(self@.programs[j as int].hash == self@.programs[i as int].hash);
                    return false;
                }
                j += 1;
            }
            i += 1;
        }
        true
    }

    /// Finds the place of the program with the identifier `hash`.
    pub fn find(&self, hash: &str) -> (r: Option<usize>)
        ensures
            match r {
                Some(i) => i < self@.programs.len() && self@.programs[i as int].hash == hash@
                    && forall|j: int| 0 <= j < i ==> self@.programs[j].hash != hash@,
                None => !self@.contains(hash@),
            },
    {
        let key = String::from_str(hash);
        let mut i: usize = 0;
        while i < self.programs.len()
            invariant
                i <= self.programs.len(),
                key@ == hash@,
                forall|j: int| 0 <= j < i ==> self@.programs[j].hash != hash@,
            decreases self.programs.len() - i,
        {
            if self.programs[i].hash == key {
                return Some(i);
            }
            i += 1;
        }
        None
    }
}

} // verus!
