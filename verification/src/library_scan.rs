//! The scan of a library without a status: every change takes effect at once, and
//! the first failure ends it.
use crate::paths::{is_audio_ext, is_audio_extension, lower_ext, lower_extension};
use crate::scan::{name_text, new_job, Entry, Outcome, ScanAction, ScanEvent, Stage, Status};
use crate::scan_laws::{
    all_changes, law_files_are_the_sound_files, law_job_keeps_its_root, law_scan_is_all_or_nothing,
    law_status_tells_progress, met, ran, sound_files, walked, Change, Database, Met,
};
use crate::text::decimal;
use vstd::prelude::*;

verus! {

/// What a library scan waits for.
#[derive(Clone, Copy, PartialEq, Eq, Structural, Debug)]
pub enum LibraryStage {
    /// Whether the root is a folder.
    Root,
    /// Whether the library was entered.
    Register,
    /// The number of the library.
    Find,
    /// The next entry of the folder tree.
    Walk,
    /// Whether the file that was met last was entered.
    Index,
    /// Whether files that are gone were removed.
    Purge,
    /// Nothing: the scan is over.
    Over,
}

/// A scan of a library.
pub struct LibraryScan {
    pub stage: LibraryStage,
    pub root: String,
    pub stamp: i64,
    pub library: i64,
    pub count: usize,
    pub path: String,
    pub failure: Option<String>,
}

/// The model of a [`LibraryScan`].
#[verifier::ext_equal]
pub struct LibraryJob {
    pub stage: LibraryStage,
    pub root: Seq<char>,
    pub stamp: i64,
    pub library: i64,
    pub count: nat,
    pub path: Seq<char>,
    pub failure: Option<Seq<char>>,
}

impl View for LibraryScan {
    type V = LibraryJob;

    open spec fn view(&self) -> LibraryJob {
        LibraryJob {
            stage: self.stage,
            root: self.root@,
            stamp: self.stamp,
            library: self.library,
            count: self.count as nat,
            path: self.path@,
            failure: name_text(self.failure),
        }
    }
}

/// A library scan before its first step.
pub open spec fn new_library_job(root: Seq<char>, stamp: i64) -> LibraryJob {
    LibraryJob {
        stage: LibraryStage::Root,
        root,
        stamp,
        library: 0,
        count: 0,
        path: Seq::empty(),
        failure: None,
    }
}

/// What a library scan asks for.
pub open spec fn library_asked(job: LibraryJob) -> ScanAction {
    match job.stage {
        LibraryStage::Root => ScanAction::CheckRoot,
        LibraryStage::Register => ScanAction::RegisterLibrary { stamp: job.stamp },
        LibraryStage::Find => ScanAction::FindLibrary,
        LibraryStage::Walk => ScanAction::NextEntry,
        LibraryStage::Index => ScanAction::IndexFile {
            index: job.count as usize,
            library: job.library,
            stamp: job.stamp,
        },
        LibraryStage::Purge => ScanAction::PurgeStale { library: job.library, stamp: job.stamp },
        LibraryStage::Over => ScanAction::Stop,
    }
}

/// A library scan that failed.
pub open spec fn library_failed(job: LibraryJob, message: Seq<char>) -> LibraryJob {
    LibraryJob { stage: LibraryStage::Over, failure: Some(message), ..job }
}

/// A library scan after an event. An event that is no answer to what the scan
/// asks for changes nothing.
pub open spec fn library_stepped(job: LibraryJob, event: ScanEvent) -> LibraryJob {
    match (job.stage, event) {
        (LibraryStage::Root, ScanEvent::Root { is_dir }) => if is_dir {
            LibraryJob { stage: LibraryStage::Register, ..job }
        } else {
            library_failed(job, "Folder does not exist"@)
        },
        (LibraryStage::Register, ScanEvent::Registered(r)) => match r {
            Ok(_) => LibraryJob { stage: LibraryStage::Find, ..job },
            Err(e) => library_failed(job, e@),
        },
        (LibraryStage::Find, ScanEvent::Found(r)) => match r {
            Ok(id) => LibraryJob { stage: LibraryStage::Walk, library: id, ..job },
            Err(e) => library_failed(job, e@),
        },
        (
            LibraryStage::Walk,
            ScanEvent::Entry { cancelled: _, entry: Entry::File { path, name } },
        ) => if is_audio_ext(lower_ext(name_text(name))) {
            LibraryJob { stage: LibraryStage::Index, path: path@, ..job }
        } else {
            job
        },
        (LibraryStage::Walk, ScanEvent::WalkEnded) => LibraryJob {
            stage: LibraryStage::Purge,
            ..job
        },
        (LibraryStage::Index, ScanEvent::Indexed(r)) => match r {
            Ok(_) => LibraryJob { stage: LibraryStage::Walk, count: job.count + 1, ..job },
            Err(e) => library_failed(job, e@),
        },
        (LibraryStage::Purge, ScanEvent::Purged(r)) => match r {
            Ok(_) => LibraryJob { stage: LibraryStage::Over, ..job },
            Err(e) => library_failed(job, e@),
        },
        _ => job,
    }
}

impl LibraryScan {
    /// A scan of the folder `root` that takes place at the time `stamp`.
    pub fn new(root: &str, stamp: i64) -> (job: LibraryScan)
        ensures
            job@ == new_library_job(root@, stamp),
    {
        LibraryScan {
            stage: LibraryStage::Root,
            root: root.to_owned(),
            stamp,
            library: 0,
            count: 0,
            path: String::new(),
            failure: None,
        }
    }

    /// What the scan asks for.
    pub fn action(&self) -> (action: ScanAction)
        ensures
            action == library_asked(self@),
    {
        match self.stage {
            LibraryStage::Root => ScanAction::CheckRoot,
            LibraryStage::Register => ScanAction::RegisterLibrary { stamp: self.stamp },
            LibraryStage::Find => ScanAction::FindLibrary,
            LibraryStage::Walk => ScanAction::NextEntry,
            LibraryStage::Index => ScanAction::IndexFile {
                index: self.count,
                library: self.library,
                stamp: self.stamp,
            },
            LibraryStage::Purge => ScanAction::PurgeStale {
                library: self.library,
                stamp: self.stamp,
            },
            LibraryStage::Over => ScanAction::Stop,
        }
    }

    /// Ends the scan with a failure.
    fn fail(&mut self, message: String)
        ensures
            final(self)@ == library_failed(old(self)@, message@),
    {
        self.stage = LibraryStage::Over;
        self.failure = Some(message);
    }

    /// Goes on to `next`, or fails with a message.
    fn proceed(&mut self, result: Result<(), String>, next: LibraryStage)
        ensures
            final(self)@ == (match result {
                Ok(_) => LibraryJob { stage: next, ..old(self)@ },
                Err(e) => library_failed(old(self)@, e@),
            }),
    {
        match result {
            Ok(_) => {
                self.stage = next;
            },
            Err(e) => {
                self.fail(e);
            },
        }
    }

    /// Takes up what became of the action that the scan asked for.
    pub fn step(&mut self, event: ScanEvent)
        requires
            old(self).count < usize::MAX,
        ensures
            final(self)@ == library_stepped(old(self)@, event),
    {
        match (self.stage, event) {
            (LibraryStage::Root, ScanEvent::Root { is_dir }) => {
                if is_dir {
                    self.stage = LibraryStage::Register;
                } else {
                    self.fail("Folder does not exist".to_owned());
                }
            },
            (LibraryStage::Register, ScanEvent::Registered(r)) => {
                self.proceed(r, LibraryStage::Find);
            },
            (LibraryStage::Find, ScanEvent::Found(r)) => {
                match r {
                    Ok(id) => {
                        self.library = id;
                        self.stage = LibraryStage::Walk;
                    },
                    Err(e) => {
                        self.fail(e);
                    },
                }
            },
            (
                LibraryStage::Walk,
                ScanEvent::Entry { cancelled: _, entry: Entry::File { path, name } },
            ) => {
                let ext = match &name {
                    Some(n) => lower_extension(Some(n.as_str())),
                    None => lower_extension(None),
                };
                if is_audio_extension(ext.as_str()) {
                    self.path = path;
                    self.stage = LibraryStage::Index;
                }
            },
            (LibraryStage::Walk, ScanEvent::WalkEnded) => {
                self.stage = LibraryStage::Purge;
            },
            (LibraryStage::Index, ScanEvent::Indexed(r)) => {
                match r {
                    Ok(_) => {
                        self.count += 1;
                        self.stage = LibraryStage::Walk;
                    },
                    Err(e) => {
                        self.fail(e);
                    },
                }
            },
            (LibraryStage::Purge, ScanEvent::Purged(r)) => {
                self.proceed(r, LibraryStage::Over);
            },
            _ => {},
        }
    }

    /// The result of a scan that is over: how many files were entered, or why it
    /// failed.
    pub fn result(&self) -> (r: Option<Result<usize, String>>)
        ensures
            !(self.stage is Over) ==> r is None,
            self.stage is Over && self@.failure is None ==> r == Some(
                Ok::<usize, String>(self.count),
            ),
            self.stage is Over && self@.failure is Some ==> r is Some && r->0 is Err
                && r->0->Err_0@ == self@.failure->0,
    {
        if self.stage != LibraryStage::Over {
            return None;
        }
        match &self.failure {
            Some(e) => Some(Err(e.clone())),
            None => Some(Ok(self.count)),
        }
    }
}

/// The changes that a library scan has made after its action led to `event`.
pub open spec fn library_changed(
    changes: Seq<Change>,
    job: LibraryJob,
    event: ScanEvent,
) -> Seq<Change> {
    match (job.stage, event) {
        (LibraryStage::Register, ScanEvent::Registered(Ok(_))) => changes.push(
            Change::Library { root: job.root, stamp: job.stamp },
        ),
        (LibraryStage::Index, ScanEvent::Indexed(Ok(_))) => changes.push(
            Change::File { path: job.path, library: job.library, stamp: job.stamp },
        ),
        (LibraryStage::Purge, ScanEvent::Purged(Ok(_))) => changes.push(
            Change::Purge { library: job.library, stamp: job.stamp },
        ),
        _ => changes,
    }
}

/// A library scan and the changes that it has made after a run of events.
pub open spec fn library_ran(job: LibraryJob, events: Seq<ScanEvent>) -> (LibraryJob, Seq<Change>)
    decreases events.len(),
{
    if events.len() == 0 {
        (job, Seq::empty())
    } else {
        let (j, c) = library_ran(job, events.drop_last());
        (library_stepped(j, events.last()), library_changed(c, j, events.last()))
    }
}

/// The entries of the folder tree that a library scan has taken up in a run of
/// events.
pub open spec fn library_walked(job: LibraryJob, events: Seq<ScanEvent>) -> Seq<Met>
    decreases events.len(),
{
    if events.len() == 0 {
        Seq::empty()
    } else {
        let rest = library_walked(job, events.drop_last());
        match (library_ran(job, events.drop_last()).0.stage, events.last()) {
            (LibraryStage::Walk, ScanEvent::Entry { cancelled: _, entry }) => rest.push(met(entry)),
            _ => rest,
        }
    }
}

/// The library is entered first, then as many of the files that were met as the
/// scan has counted, in their order.
pub open spec fn is_counted(job: LibraryJob, files: Seq<Seq<char>>, changes: Seq<Change>) -> bool {
    &&& changes.len() >= 1 + job.count
    &&& job.count <= files.len()
    &&& changes[0] == Change::Library { root: job.root, stamp: job.stamp }
    &&& forall|i: int|
        0 <= i < job.count ==> #[trigger] changes[1 + i] == (Change::File {
            path: files[i],
            library: job.library,
            stamp: job.stamp,
        })
}

/// What a library scan has changed in each of its stages, when it has met the sound
/// files `files`.
pub open spec fn is_library_reached(
    job: LibraryJob,
    files: Seq<Seq<char>>,
    changes: Seq<Change>,
) -> bool {
    match job.stage {
        LibraryStage::Root | LibraryStage::Register => changes.len() == 0 && job.count == 0
            && files.len() == 0 && job.failure is None,
        LibraryStage::Find => is_counted(job, files, changes) && changes.len() == 1 && job.count == 0
            && files.len() == 0 && job.failure is None,
        LibraryStage::Walk | LibraryStage::Purge => is_counted(job, files, changes) && changes.len()
            == 1 + job.count && files.len() == job.count && job.failure is None,
        LibraryStage::Index => is_counted(job, files, changes) && changes.len() == 1 + job.count
            && files.len() == job.count + 1 && files.last() == job.path && job.failure is None,
        LibraryStage::Over => if job.failure is None {
            is_counted(job, files, changes) && changes.len() == 2 + job.count && files.len()
                == job.count && changes.last() == Change::Purge {
                library: job.library,
                stamp: job.stamp,
            }
        } else {
            changes.len() == 0 && job.count == 0 || is_counted(job, files, changes)
                && changes.len() == 1 + job.count
        },
    }
}

/// A library scan enters the library first and then the sound files that it meets,
/// each by its path, in the order in which it meets them, all for that library and
/// at the time of the scan. It counts those that it has entered. When it succeeds it
/// has entered all of them and has then removed the stale files; when it fails, what
/// it has entered stays.
pub proof fn law_library_scan_counts_its_files(
    root: Seq<char>,
    stamp: i64,
    events: Seq<ScanEvent>,
)
    ensures
        ({
            let (j, c) = library_ran(new_library_job(root, stamp), events);
            let files = sound_files(library_walked(new_library_job(root, stamp), events));
            &&& j.root == root
            &&& j.stamp == stamp
            &&& is_library_reached(j, files, c)
        }),
    decreases events.len(),
{
    if events.len() > 0 {
        law_library_scan_counts_its_files(root, stamp, events.drop_last());
        let start = new_library_job(root, stamp);
        let (j, c) = library_ran(start, events.drop_last());
        let before = library_walked(start, events.drop_last());
        let after = library_walked(start, events);
        if after != before {
            assert(after.drop_last() =~= before);
        }
    }
}

/// A change for a library with another number.
pub open spec fn renumbered(change: Change, number: i64) -> Change {
    match change {
        Change::Library { root, stamp } => Change::Library { root, stamp },
        Change::File { path, library, stamp } => Change::File { path, library: number, stamp },
        Change::Purge { library, stamp } => Change::Purge { library: number, stamp },
    }
}

/// Both scans do the same: when a scan job completes and a library scan succeeds,
/// over the same entries of the same folder and at the same time, they make the same
/// changes, but for the number that the database gives to the library, and tell the
/// same count.
pub proof fn law_both_scans_agree(
    root: Seq<char>,
    first: Status,
    db: Database,
    job_events: Seq<ScanEvent>,
    stamp: i64,
    events: Seq<ScanEvent>,
)
    requires
        db.pending is None,
        job_events.len() <= usize::MAX,
        ran(new_job(root), first, db, job_events).0.stage == Stage::Over(Outcome::Completed),
        ran(new_job(root), first, db, job_events).0.stamp == stamp,
        library_ran(new_library_job(root, stamp), events).0.stage is Over,
        library_ran(new_library_job(root, stamp), events).0.failure is None,
        walked(new_job(root), first, db, job_events) == library_walked(
            new_library_job(root, stamp),
            events,
        ),
    ensures
        ({
            let (j, s, d) = ran(new_job(root), first, db, job_events);
            let (l, c) = library_ran(new_library_job(root, stamp), events);
            &&& d.committed == db.committed + c.map_values(|x: Change| renumbered(x, j.library))
            &&& j.library == l.library ==> d.committed == db.committed + c
            &&& s.message == decimal(l.count)
        }),
{
    let (j, s, d) = ran(new_job(root), first, db, job_events);
    let (l, c) = library_ran(new_library_job(root, stamp), events);
    law_scan_is_all_or_nothing(root, first, db, job_events);
    law_status_tells_progress(root, first, db, job_events);
    law_files_are_the_sound_files(root, first, db, job_events);
    law_job_keeps_its_root(root, first, db, job_events);
    law_library_scan_counts_its_files(root, stamp, events);
    let all = all_changes(j);
    let same = c.map_values(|x: Change| renumbered(x, j.library));
    assert(all.len() == c.len());
    assert forall|i: int| 0 <= i < all.len() implies all[i] == same[i] && (j.library == l.library
        ==> all[i] == c[i]) by {
        if 1 <= i < all.len() - 1 {
            assert(c[1 + (i - 1)] == (Change::File {
                path: j.files[i - 1],
                library: l.library,
                stamp,
            }));
        }
    }
    assert(all =~= same);
    if j.library == l.library {
        assert(all =~= c);
    }
}

} // verus!
