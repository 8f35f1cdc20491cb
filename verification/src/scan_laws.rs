//! Laws of a scan job: what it leaves in the database and what its status says.
use crate::paths::{is_audio_ext, lower_ext};
use crate::scan::{
    asked, is_sound, name_text, new_job, stepped, Entry, Job, Outcome, ScanAction, ScanEvent, Stage,
    Status,
};
use crate::text::decimal;
use vstd::prelude::*;

verus! {

/// A change of the database.
pub enum Change {
    /// The library with this path was entered at this time.
    Library { root: Seq<char>, stamp: i64 },
    /// The file with this path was entered for a library at this time.
    File { path: Seq<char>, library: i64, stamp: i64 },
    /// The files of a library that were not entered since this time were removed.
    Purge { library: i64, stamp: i64 },
}

/// The changes that a database has seen: those that are committed and, in a
/// transaction, those that are not.
#[verifier::ext_equal]
pub struct Database {
    pub committed: Seq<Change>,
    pub pending: Option<Seq<Change>>,
}

/// A database with one more change in its transaction.
pub open spec fn changed(db: Database, change: Change) -> Database {
    Database {
        pending: match db.pending {
            Some(p) => Some(p.push(change)),
            None => None,
        },
        ..db
    }
}

/// A database after a job's action was carried out and led to `event`. A
/// transaction takes effect with its commit; when the job is over, one that is
/// still open is rolled back.
pub open spec fn carried_out(db: Database, job: Job, event: ScanEvent) -> Database {
    match (asked(job), event) {
        (ScanAction::BeginTransaction, ScanEvent::Begun(Some(_))) => Database {
            pending: Some(db.committed),
            ..db
        },
        (ScanAction::RegisterLibrary { stamp }, ScanEvent::Registered(Ok(_))) => changed(
            db,
            Change::Library { root: job.root, stamp },
        ),
        (
            ScanAction::IndexFile { index, library, stamp },
            ScanEvent::Indexed(Ok(_)),
        ) => changed(db, Change::File { path: job.files[index as int], library, stamp }),
        (ScanAction::PurgeStale { library, stamp }, ScanEvent::Purged(Ok(_))) => changed(
            db,
            Change::Purge { library, stamp },
        ),
        (ScanAction::Commit, ScanEvent::Committed(Ok(_))) => Database {
            committed: match db.pending {
                Some(p) => p,
                None => db.committed,
            },
            pending: None,
        },
        _ => db,
    }
}

/// A database after a job that is over dropped its transaction.
pub open spec fn dropped(db: Database, job: Job) -> Database {
    if job.stage is Over {
        Database { pending: None, ..db }
    } else {
        db
    }
}

/// A job, its status and its database after a run of events.
pub open spec fn ran(job: Job, status: Status, db: Database, events: Seq<ScanEvent>) -> (
    Job,
    Status,
    Database,
)
    decreases events.len(),
{
    if events.len() == 0 {
        (job, status, db)
    } else {
        let (j, s, d) = ran(job, status, db, events.drop_last());
        let (j2, s2) = stepped(j, s, events.last());
        (j2, s2, dropped(carried_out(d, j, events.last()), j2))
    }
}

/// The changes of the files before `n`.
pub open spec fn file_changes(job: Job, n: nat) -> Seq<Change> {
    Seq::new(
        n,
        |i: int|
            Change::File { path: job.files[i], library: job.library, stamp: job.stamp },
    )
}

/// The changes that a job has made when it waits to enter file `n`.
pub open spec fn changes_upto(job: Job, n: nat) -> Seq<Change> {
    seq![Change::Library { root: job.root, stamp: job.stamp }] + file_changes(job, n)
}

/// Everything that a whole scan changes.
pub open spec fn all_changes(job: Job) -> Seq<Change> {
    changes_upto(job, job.files.len()).push(
        Change::Purge { library: job.library, stamp: job.stamp },
    )
}

/// What a job has done to a database that held `base`.
pub open spec fn is_reached(job: Job, base: Seq<Change>, db: Database) -> bool {
    match job.stage {
        Stage::Root | Stage::Walk | Stage::Open | Stage::Begin => db.committed == base
            && db.pending is None,
        Stage::Register => db.committed == base && db.pending == Some(base),
        Stage::Find => db.committed == base && db.pending == Some(
            base.push(Change::Library { root: job.root, stamp: job.stamp }),
        ),
        Stage::Check(i) => i <= job.files.len() && db.committed == base && db.pending == Some(
            base + changes_upto(job, i as nat),
        ),
        Stage::Index(i) => i < job.files.len() && db.committed == base && db.pending == Some(
            base + changes_upto(job, i as nat),
        ),
        Stage::Purge => db.committed == base && db.pending == Some(
            base + changes_upto(job, job.files.len()),
        ),
        Stage::Commit => db.committed == base && db.pending == Some(base + all_changes(job)),
        Stage::Over(Outcome::Completed) => db.committed == base + all_changes(job) && db.pending
            is None,
        Stage::Over(_) => db.committed == base && db.pending is None,
    }
}

/// What the status of a job that began with the status `first` says in each of its
/// stages. Until a file is found it is the first status.
pub open spec fn is_told(first: Status, job: Job, status: Status) -> bool {
    &&& status.running == (first.running && !(job.stage is Over))
    &&& match job.stage {
        Stage::Root => job.files.len() == 0 && status == first,
        Stage::Walk => if job.files.len() == 0 {
            status == first
        } else {
            status.phase == "counting"@ && status.current == job.files.len() && status.path
                == job.files.last()
        },
        Stage::Open | Stage::Begin | Stage::Register | Stage::Find => status.phase == "scanning"@
            && status.current == 0 && status.total == job.files.len() && status.path == job.root,
        Stage::Check(i) => status.phase == "scanning"@ && status.current == i && status.total
            == job.files.len(),
        Stage::Index(i) => status.phase == "scanning"@ && status.current == i && status.total
            == job.files.len(),
        Stage::Purge | Stage::Commit => status.phase == "scanning"@ && status.current
            == job.files.len() && status.total == job.files.len(),
        Stage::Over(Outcome::Completed) => status.phase == "completed"@ && status.message
            == decimal(job.files.len()) && status.current == job.files.len() && status.total
            == job.files.len(),
        Stage::Over(Outcome::Cancelled) => status.phase == "cancelled"@ && status.message
            == Seq::<char>::empty(),
        Stage::Over(Outcome::Failed) => status.phase == "error"@,
    }
}

/// A step keeps what a job has done in line with its stage.
proof fn lemma_step_reached(
    job: Job,
    status: Status,
    db: Database,
    first: Status,
    base: Seq<Change>,
    event: ScanEvent,
)
    requires
        is_sound(job),
        is_reached(job, base, db),
        is_told(first, job, status),
    ensures
        ({
            let (j, s) = stepped(job, status, event);
            &&& j.files.len() <= usize::MAX ==> is_sound(j)
            &&& is_reached(j, base, dropped(carried_out(db, job, event), j))
            &&& is_told(first, j, s)
        }),
{
    let (j, s) = stepped(job, status, event);
    let d = dropped(carried_out(db, job, event), j);
    match (job.stage, event) {
        (Stage::Find, ScanEvent::Found(Ok(id))) => {
            assert(file_changes(j, 0) =~= Seq::empty());
            assert(base + changes_upto(j, 0) =~= base.push(
                Change::Library { root: job.root, stamp: job.stamp },
            ));
        },
        (Stage::Check(i), ScanEvent::Cancel(false)) => {
            assert(changes_upto(j, i as nat) =~= changes_upto(job, i as nat));
        },
        (Stage::Index(i), ScanEvent::Indexed(Ok(_))) => {
            assert(changes_upto(j, (i + 1) as nat) =~= changes_upto(job, i as nat).push(
                Change::File { path: job.files[i as int], library: job.library, stamp: job.stamp },
            ));
            assert(base + changes_upto(j, (i + 1) as nat) =~= (base + changes_upto(
                job,
                i as nat,
            )).push(
                Change::File { path: job.files[i as int], library: job.library, stamp: job.stamp },
            ));
        },
        (Stage::Purge, ScanEvent::Purged(Ok(_))) => {
            assert(changes_upto(j, j.files.len()) =~= changes_upto(job, job.files.len()));
            assert(base + all_changes(j) =~= (base + changes_upto(job, job.files.len())).push(
                Change::Purge { library: job.library, stamp: job.stamp },
            ));
        },
        (Stage::Commit, ScanEvent::Committed(Ok(_))) => {
            assert(changes_upto(j, j.files.len()) =~= changes_upto(job, job.files.len()));
        },
        (Stage::Over(Outcome::Completed), _) => {},
        _ => {},
    }
}

/// Every run keeps what a job has done in line with its stage.
proof fn lemma_ran_reached(root: Seq<char>, first: Status, db: Database, events: Seq<ScanEvent>)
    requires
        db.pending is None,
        events.len() <= usize::MAX,
    ensures
        ({
            let (j, s, d) = ran(new_job(root), first, db, events);
            &&& j.root == root
            &&& j.files.len() <= events.len()
            &&& is_sound(j)
            &&& is_reached(j, db.committed, d)
            &&& is_told(first, j, s)
        }),
    decreases events.len(),
{
    if events.len() > 0 {
        lemma_ran_reached(root, first, db, events.drop_last());
        let (j, s, d) = ran(new_job(root), first, db, events.drop_last());
        lemma_step_reached(j, s, d, first, db.committed, events.last());
    }
}

/// A scan changes the database completely or not at all, with whatever status it
/// begins: unless it completes, what is committed stays as it was; if it completes,
/// the library, every file that was found, in the order in which they were found,
/// and the removal of stale files have been committed, and nothing else.
pub proof fn law_scan_is_all_or_nothing(
    root: Seq<char>,
    first: Status,
    db: Database,
    events: Seq<ScanEvent>,
)
    requires
        db.pending is None,
        events.len() <= usize::MAX,
    ensures
        ({
            let (j, s, d) = ran(new_job(root), first, db, events);
            &&& j.stage == Stage::Over(Outcome::Completed) ==> d.committed == db.committed
                + all_changes(j)
            &&& j.stage != Stage::Over(Outcome::Completed) ==> d.committed == db.committed
            &&& j.stage is Over ==> d.pending is None
        }),
{
    lemma_ran_reached(root, first, db, events);
}

/// A cancelled scan rolls back every change, and so does one that failed: the
/// database is as it was. The phase of the status tells of either, unless the scan
/// began with a status that told of one already.
pub proof fn law_cancelled_scan_rolls_back_every_change(
    root: Seq<char>,
    first: Status,
    db: Database,
    events: Seq<ScanEvent>,
)
    requires
        db.pending is None,
        events.len() <= usize::MAX,
    ensures
        ({
            let (j, s, d) = ran(new_job(root), first, db, events);
            &&& j.stage == Stage::Over(Outcome::Cancelled) ==> s.phase == "cancelled"@ && d == db
            &&& j.stage == Stage::Over(Outcome::Failed) ==> s.phase == "error"@ && d == db
            &&& first.phase != "cancelled"@ && s.phase == "cancelled"@ ==> j.stage == Stage::Over(
                Outcome::Cancelled,
            )
            &&& first.phase != "error"@ && s.phase == "error"@ ==> j.stage == Stage::Over(
                Outcome::Failed,
            )
        }),
{
    lemma_ran_reached(root, first, db, events);
    let (j, s, d) = ran(new_job(root), first, db, events);
    reveal_strlit("cancelled");
    reveal_strlit("error");
    reveal_strlit("counting");
    reveal_strlit("scanning");
    reveal_strlit("completed");
    assert("completed"@[1] != "cancelled"@[1]);
    assert("counting"@.len() == 8 && "scanning"@.len() == 8 && "completed"@.len() == 9);
    assert("cancelled"@.len() == 9 && "error"@.len() == 5);
    if j.stage is Over && j.stage != Stage::Over(Outcome::Completed) {
        assert(d =~= db);
    }
}

/// The status of a scan tells where the job stands, with whatever status it begins:
/// it runs no longer than the job, its phase names the stage or the outcome, and
/// its counts are those of the files found and entered, which never exceed the
/// total.
pub proof fn law_status_tells_progress(
    root: Seq<char>,
    first: Status,
    db: Database,
    events: Seq<ScanEvent>,
)
    requires
        db.pending is None,
        events.len() <= usize::MAX,
    ensures
        ({
            let (j, s, d) = ran(new_job(root), first, db, events);
            &&& is_told(first, j, s)
            &&& j.stage is Root || j.stage is Walk || j.stage is Over || s.current <= s.total
        }),
{
    lemma_ran_reached(root, first, db, events);
}

/// A job scans the folder that it was made for.
pub proof fn law_job_keeps_its_root(
    root: Seq<char>,
    first: Status,
    db: Database,
    events: Seq<ScanEvent>,
)
    ensures
        ran(new_job(root), first, db, events).0.root == root,
    decreases events.len(),
{
    if events.len() > 0 {
        law_job_keeps_its_root(root, first, db, events.drop_last());
    }
}

/// An entry of a folder tree: the path and the name of a file; `None` for anything
/// else.
pub type Met = Option<(Seq<char>, Option<Seq<char>>)>;

/// What an entry of a folder tree is.
pub open spec fn met(entry: Entry) -> Met {
    match entry {
        Entry::File { path, name } => Some((path@, name_text(name))),
        _ => None,
    }
}

/// The paths of the sound files among the entries of a folder tree, in their order.
pub open spec fn sound_files(entries: Seq<Met>) -> Seq<Seq<char>>
    decreases entries.len(),
{
    if entries.len() == 0 {
        Seq::empty()
    } else {
        let rest = sound_files(entries.drop_last());
        match entries.last() {
            Some((path, name)) => if is_audio_ext(lower_ext(name)) {
                rest.push(path)
            } else {
                rest
            },
            None => rest,
        }
    }
}

/// The entries of the folder tree that a job has taken up in a run of events.
pub open spec fn walked(job: Job, status: Status, db: Database, events: Seq<ScanEvent>) -> Seq<Met>
    decreases events.len(),
{
    if events.len() == 0 {
        Seq::empty()
    } else {
        let rest = walked(job, status, db, events.drop_last());
        match (ran(job, status, db, events.drop_last()).0.stage, events.last()) {
            (Stage::Walk, ScanEvent::Entry { cancelled: false, entry }) => rest.push(met(entry)),
            _ => rest,
        }
    }
}

/// The files of a job are the sound files that it has met.
pub proof fn law_files_are_the_sound_files(
    root: Seq<char>,
    first: Status,
    db: Database,
    events: Seq<ScanEvent>,
)
    ensures
        ran(new_job(root), first, db, events).0.files == sound_files(
            walked(new_job(root), first, db, events),
        ),
    decreases events.len(),
{
    if events.len() > 0 {
        law_files_are_the_sound_files(root, first, db, events.drop_last());
        let before = walked(new_job(root), first, db, events.drop_last());
        let after = walked(new_job(root), first, db, events);
        if after != before {
            assert(after.drop_last() =~= before);
        }
    }
}

/// Nothing changes a job that is over.
pub proof fn law_over_is_final(job: Job, status: Status, event: ScanEvent)
    requires
        job.stage is Over,
    ensures
        stepped(job, status, event) == (job, status),
        asked(job) == ScanAction::Stop,
{
}

/// Whenever the user is seen to cancel, the job is over with its next step.
pub proof fn law_cancel_is_obeyed(job: Job, status: Status, event: ScanEvent)
    requires
        match event {
            ScanEvent::Entry { cancelled, .. } => cancelled && job.stage is Walk,
            ScanEvent::Cancel(stop) => stop && job.stage is Check,
            _ => false,
        },
    ensures
        stepped(job, status, event).0.stage == Stage::Over(Outcome::Cancelled),
        stepped(job, status, event).1.phase == "cancelled"@,
        !stepped(job, status, event).1.running,
{
}

} // verus!
