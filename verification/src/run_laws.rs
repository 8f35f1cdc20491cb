//! Laws of scans, step by step and for a run in which everything goes well.
use crate::library_scan::{
    is_counted, law_library_scan_counts_its_files, library_asked, library_ran, library_stepped,
    library_walked, new_library_job, LibraryJob, LibraryStage,
};
use crate::name_laws::{
    law_extension_follows_the_last_dot, law_name_without_extension,
    law_sound_files_have_these_extensions,
};
use crate::paths::{is_audio_ext, lower_ext};
use crate::scan::{
    asked, finished, idle, name_text, new_job, started, stepped, Entry, Job, Outcome, ScanAction,
    ScanEvent, Stage, Status,
};
use crate::scan_laws::{
    all_changes, file_changes, law_scan_is_all_or_nothing, law_status_tells_progress, met, ran,
    sound_files, Change, Database, Met,
};
use crate::text::{decimal, lower};
use crate::text_laws::is_free_of;
use vstd::prelude::*;

verus! {

/// A status before any scan, at the start of one and at its end: a scan that starts runs,
/// tells its folder and has counted nothing; one that ends does not run, tells how it
/// ended, and keeps its counts and its path.
pub proof fn law_status_at_start_and_end(
    status: Status,
    path: Seq<char>,
    phase: Seq<char>,
    message: Seq<char>,
)
    ensures
        !idle().running && idle().phase == "idle"@ && idle().current == 0 && idle().total == 0,
        idle().path.len() == 0 && idle().message.len() == 0,
        started(path).running && started(path).phase == "counting"@ && started(path).path == path,
        started(path).current == 0 && started(path).total == 0 && started(path).message.len() == 0,
        !finished(status, phase, message).running,
        finished(status, phase, message).phase == phase,
        finished(status, phase, message).message == message,
        finished(status, phase, message).current == status.current,
        finished(status, phase, message).total == status.total,
        finished(status, phase, message).path == status.path,
{
}

/// What a scan job asks for in each of its stages.
pub proof fn law_stages_ask_for_their_actions(job: Job)
    ensures
        job.stage is Root ==> asked(job) is CheckRoot,
        job.stage is Walk ==> asked(job) is NextEntry,
        job.stage is Open ==> asked(job) is OpenDatabase,
        job.stage is Begin ==> asked(job) is BeginTransaction,
        job.stage is Register ==> asked(job) == (ScanAction::RegisterLibrary { stamp: job.stamp }),
        job.stage is Find ==> asked(job) is FindLibrary,
        job.stage is Check ==> asked(job) is ReadCancel,
        job.stage matches Stage::Index(i) ==> asked(job) == (ScanAction::IndexFile {
            index: i,
            library: job.library,
            stamp: job.stamp,
        }),
        job.stage is Purge ==> asked(job) == (ScanAction::PurgeStale {
            library: job.library,
            stamp: job.stamp,
        }),
        job.stage is Commit ==> asked(job) is Commit,
        job.stage is Over ==> asked(job) is Stop,
{
}

/// The list of the extensions of sound files.
pub open spec fn sound_extensions() -> Seq<Seq<char>> {
    seq![
        "wav"@, "wave"@, "mp3"@, "flac"@, "ogg"@, "oga"@, "opus"@, "m4a"@, "mp4"@, "aac"@, "aiff"@,
        "aif"@, "aifc"@, "wma"@, "ape"@, "wv"@, "caf"@, "ac3"@, "amr"@, "mid"@, "midi"@,
    ]
}

/// A file that a scan meets is taken up, and told of, if what follows the last dot of its
/// name is the extension of a sound file in any case; otherwise nothing changes. Either
/// scan tells the same files apart.
pub proof fn law_sound_files_are_taken_up(
    job: Job,
    status: Status,
    library: LibraryJob,
    path: String,
    name: String,
    stem: Seq<char>,
    ext: Seq<char>,
)
    requires
        name@ == stem + seq!['.'] + ext,
        stem.len() > 0,
        is_free_of(ext, '.'),
        job.stage is Walk,
        library.stage is Walk,
    ensures
        ({
            let event = ScanEvent::Entry {
                cancelled: false,
                entry: Entry::File { path, name: Some(name) },
            };
            if sound_extensions().contains(lower(ext)) {
                let (j, s) = stepped(job, status, event);
                &&& j == Job { files: job.files.push(path@), ..job }
                &&& s.phase == "counting"@ && s.current == job.files.len() + 1 && s.path == path@
                &&& s.running == status.running && s.total == status.total && s.message
                    == status.message
                &&& library_stepped(library, event) == LibraryJob {
                    stage: LibraryStage::Index,
                    path: path@,
                    ..library
                }
            } else {
                &&& stepped(job, status, event) == (job, status)
                &&& library_stepped(library, event) == library
            }
        }),
{
    law_extension_follows_the_last_dot(stem, ext);
    law_sound_files_have_these_extensions(lower(ext));
}

/// A file without a name or without an extension is passed over, and so is every entry
/// that is no file or cannot be read.
pub proof fn law_other_entries_are_passed_over(
    job: Job,
    status: Status,
    library: LibraryJob,
    entry: Entry,
)
    requires
        job.stage is Walk,
        library.stage is Walk,
        match entry {
            Entry::File { path, name: Some(name) } => is_free_of(name@, '.') || (name@[0] == '.'
                && is_free_of(name@.skip(1), '.')),
            _ => true,
        },
    ensures
        stepped(job, status, ScanEvent::Entry { cancelled: false, entry }) == (job, status),
        library_stepped(library, ScanEvent::Entry { cancelled: false, entry }) == library,
{
    assert(!is_audio_ext(Seq::empty())) by {
        law_sound_files_have_these_extensions(Seq::empty());
        reveal_strlit("wav");
        reveal_strlit("wave");
        reveal_strlit("mp3");
        reveal_strlit("flac");
        reveal_strlit("ogg");
        reveal_strlit("oga");
        reveal_strlit("opus");
        reveal_strlit("m4a");
        reveal_strlit("mp4");
        reveal_strlit("aac");
        reveal_strlit("aiff");
        reveal_strlit("aif");
        reveal_strlit("aifc");
        reveal_strlit("wma");
        reveal_strlit("ape");
        reveal_strlit("wv");
        reveal_strlit("caf");
        reveal_strlit("ac3");
        reveal_strlit("amr");
        reveal_strlit("mid");
        reveal_strlit("midi");
    }
    assert(lower_ext(None) =~= Seq::empty());
    if let Entry::File { path, name: Some(name) } = entry {
        law_name_without_extension(name@);
        assert(lower_ext(Some(name@)) =~= Seq::empty());
    }
}

/// A job has failed with a message: it is over, and its status tells of the failure and
/// of nothing else that is new.
pub open spec fn has_failed(
    before: (Job, Status),
    after: (Job, Status),
    message: Seq<char>,
) -> bool {
    &&& after.0 == Job { stage: Stage::Over(Outcome::Failed), ..before.0 }
    &&& after.1 == Status { running: false, phase: "error"@, message, ..before.1 }
}

/// Whatever fails ends a scan job, and its message is told: that of the database, or the
/// one for a folder that is missing, a database that cannot be opened and a transaction
/// that cannot be begun.
pub proof fn law_failures_are_told(job: Job, status: Status, e: String)
    ensures
        job.stage is Root ==> has_failed(
            (job, status),
            stepped(job, status, ScanEvent::Root { is_dir: false }),
            "Folder does not exist"@,
        ),
        job.stage is Open ==> has_failed(
            (job, status),
            stepped(job, status, ScanEvent::Opened(false)),
            "Cannot open database"@,
        ),
        job.stage is Begin ==> has_failed(
            (job, status),
            stepped(job, status, ScanEvent::Begun(None)),
            "Cannot begin database transaction"@,
        ),
        job.stage is Register ==> has_failed(
            (job, status),
            stepped(job, status, ScanEvent::Registered(Err(e))),
            e@,
        ),
        job.stage is Find ==> has_failed(
            (job, status),
            stepped(job, status, ScanEvent::Found(Err(e))),
            e@,
        ),
        job.stage is Index ==> has_failed(
            (job, status),
            stepped(job, status, ScanEvent::Indexed(Err(e))),
            e@,
        ),
        job.stage is Purge ==> has_failed(
            (job, status),
            stepped(job, status, ScanEvent::Purged(Err(e))),
            e@,
        ),
        job.stage is Commit ==> has_failed(
            (job, status),
            stepped(job, status, ScanEvent::Committed(Err(e))),
            e@,
        ),
{
}

/// What goes well leads a scan job on, and its status tells of its progress: of the folder
/// and how many files there are when they are counted, of each file when it is entered,
/// and of their number at the end. Nothing else of the status changes.
pub proof fn law_successes_lead_on(job: Job, status: Status, stamp: i64, id: i64, i: usize)
    ensures
        job.stage is Root ==> stepped(job, status, ScanEvent::Root { is_dir: true }) == (
            Job { stage: Stage::Walk, ..job },
            status,
        ),
        job.stage is Walk ==> stepped(job, status, ScanEvent::WalkEnded) == (
            Job { stage: Stage::Open, ..job },
            Status {
                phase: "scanning"@,
                current: 0,
                total: job.files.len(),
                path: job.root,
                ..status
            },
        ),
        job.stage is Open ==> stepped(job, status, ScanEvent::Opened(true)) == (
            Job { stage: Stage::Begin, ..job },
            status,
        ),
        job.stage is Begin ==> stepped(job, status, ScanEvent::Begun(Some(stamp))) == (
            Job { stage: Stage::Register, stamp, ..job },
            status,
        ),
        job.stage is Register ==> stepped(job, status, ScanEvent::Registered(Ok(()))) == (
            Job { stage: Stage::Find, ..job },
            status,
        ),
        job.stage is Find ==> stepped(job, status, ScanEvent::Found(Ok(id))) == (
            Job { stage: Stage::Check(0), library: id, ..job },
            status,
        ),
        job.stage == Stage::Check(i) ==> stepped(job, status, ScanEvent::Cancel(false)) == (
            Job {
                stage: if i < job.files.len() {
                    Stage::Index(i)
                } else {
                    Stage::Purge
                },
                ..job
            },
            status,
        ),
        job.stage == Stage::Index(i) && i < job.files.len() <= usize::MAX ==> stepped(
            job,
            status,
            ScanEvent::Indexed(Ok(())),
        ) == (
            Job { stage: Stage::Check((i + 1) as usize), ..job },
            Status { current: (i + 1) as nat, path: job.files[i as int], ..status },
        ),
        job.stage is Purge ==> stepped(job, status, ScanEvent::Purged(Ok(()))) == (
            Job { stage: Stage::Commit, ..job },
            status,
        ),
        job.stage is Commit ==> stepped(job, status, ScanEvent::Committed(Ok(()))) == (
            Job { stage: Stage::Over(Outcome::Completed), ..job },
            Status {
                running: false,
                phase: "completed"@,
                message: decimal(job.files.len()),
                ..status
            },
        ),
{
}

/// A user who cancels ends a scan job: it does not run, and its status keeps its counts.
pub proof fn law_cancelling_keeps_the_counts(job: Job, status: Status, entry: Entry)
    ensures
        ({
            let cancelled = (
                Job { stage: Stage::Over(Outcome::Cancelled), ..job },
                Status {
                    running: false,
                    phase: "cancelled"@,
                    message: Seq::<char>::empty(),
                    ..status
                },
            );
            &&& job.stage is Walk ==> stepped(
                job,
                status,
                ScanEvent::Entry { cancelled: true, entry },
            ) == cancelled
            &&& job.stage is Check ==> stepped(job, status, ScanEvent::Cancel(true)) == cancelled
        }),
{
}

/// The user is asked before every file and once more before stale files are removed: a
/// job enters a file or removes stale files only after it was seen that the user does not
/// cancel.
pub proof fn law_user_is_asked_before_every_change(job: Job, status: Status, event: ScanEvent)
    ensures
        ({
            let next = stepped(job, status, event).0.stage;
            &&& next is Index && !(job.stage is Index) ==> event == ScanEvent::Cancel(false)
                && job.stage is Check
            &&& next is Purge && !(job.stage is Purge) ==> event == ScanEvent::Cancel(false)
                && job.stage is Check
            &&& job.stage is Index && next != job.stage ==> next is Check || next == Stage::Over(
                Outcome::Failed,
            )
            &&& next == Stage::Over(Outcome::Cancelled) && next != job.stage ==> match event {
                ScanEvent::Entry { cancelled, .. } => cancelled,
                ScanEvent::Cancel(stop) => stop,
                _ => false,
            }
        }),
{
}

/// An event that is no answer to what a job asks for changes nothing.
pub proof fn law_only_answers_count(job: Job, status: Status, event: ScanEvent)
    requires
        !match event {
            ScanEvent::Root { .. } => job.stage is Root,
            ScanEvent::Entry { .. } => job.stage is Walk,
            ScanEvent::WalkEnded => job.stage is Walk,
            ScanEvent::Opened(_) => job.stage is Open,
            ScanEvent::Begun(_) => job.stage is Begin,
            ScanEvent::Registered(_) => job.stage is Register,
            ScanEvent::Found(_) => job.stage is Find,
            ScanEvent::Cancel(_) => job.stage is Check,
            ScanEvent::Indexed(_) => job.stage is Index,
            ScanEvent::Purged(_) => job.stage is Purge,
            ScanEvent::Committed(_) => job.stage is Commit,
        },
    ensures
        stepped(job, status, event) == (job, status),
{
}

/// Two runs of events, one after the other.
proof fn lemma_ran_join(
    job: Job,
    status: Status,
    db: Database,
    a: Seq<ScanEvent>,
    b: Seq<ScanEvent>,
)
    ensures
        ({
            let (j, s, d) = ran(job, status, db, a);
            ran(job, status, db, a + b) == ran(j, s, d, b)
        }),
    decreases b.len(),
{
    if b.len() == 0 {
        assert(a + b =~= a);
    } else {
        lemma_ran_join(job, status, db, a, b.drop_last());
        assert((a + b).drop_last() =~= a + b.drop_last());
        assert((a + b).last() == b.last());
    }
}

/// A run with one more event.
proof fn lemma_ran_next(
    job: Job,
    status: Status,
    db: Database,
    events: Seq<ScanEvent>,
    event: ScanEvent,
)
    ensures
        ({
            let (j, s, d) = ran(job, status, db, events);
            let (j2, s2, d2) = ran(job, status, db, events.push(event));
            (j2, s2) == stepped(j, s, event)
        }),
{
    assert(events.push(event).drop_last() =~= events);
}

/// The entries of a folder tree as a scan meets them.
pub open spec fn met_all(entries: Seq<Entry>) -> Seq<Met> {
    entries.map_values(|e: Entry| met(e))
}

/// The events of a walk over entries.
pub open spec fn walk_events(entries: Seq<Entry>) -> Seq<ScanEvent> {
    entries.map_values(|e: Entry| ScanEvent::Entry { cancelled: false, entry: e })
}

/// The events when `n` files are entered and the user does not cancel.
pub open spec fn index_events(n: nat) -> Seq<ScanEvent>
    decreases n,
{
    if n == 0 {
        Seq::empty()
    } else {
        index_events((n - 1) as nat).push(ScanEvent::Cancel(false)).push(ScanEvent::Indexed(Ok(())))
    }
}

/// The events of a scan in which everything goes well.
pub open spec fn smooth_scan(entries: Seq<Entry>, stamp: i64, id: i64) -> Seq<ScanEvent> {
    (seq![ScanEvent::Root { is_dir: true }] + walk_events(entries)).push(ScanEvent::WalkEnded).push(
        ScanEvent::Opened(true),
    ).push(ScanEvent::Begun(Some(stamp))).push(ScanEvent::Registered(Ok(()))).push(
        ScanEvent::Found(Ok(id)),
    ) + index_events(sound_files(met_all(entries)).len()).push(ScanEvent::Cancel(false)).push(
        ScanEvent::Purged(Ok(())),
    ).push(ScanEvent::Committed(Ok(())))
}

/// A walk over entries collects the sound files among them.
proof fn lemma_walk(root: Seq<char>, first: Status, db: Database, entries: Seq<Entry>)
    ensures
        ({
            let events = seq![ScanEvent::Root { is_dir: true }] + walk_events(entries);
            let (j, s, d) = ran(new_job(root), first, db, events);
            &&& j == Job {
                stage: Stage::Walk,
                files: sound_files(met_all(entries)),
                ..new_job(root)
            }
        }),
    decreases entries.len(),
{
    let start = seq![ScanEvent::Root { is_dir: true }];
    if entries.len() == 0 {
        assert(start + walk_events(entries) =~= Seq::<ScanEvent>::empty().push(
            ScanEvent::Root { is_dir: true },
        ));
        lemma_ran_next(new_job(root), first, db, Seq::empty(), ScanEvent::Root { is_dir: true });
        assert(sound_files(met_all(entries)) =~= Seq::empty());
    } else {
        let less = entries.drop_last();
        let event = ScanEvent::Entry { cancelled: false, entry: entries.last() };
        lemma_walk(root, first, db, less);
        assert(start + walk_events(entries) =~= (start + walk_events(less)).push(event));
        lemma_ran_next(new_job(root), first, db, start + walk_events(less), event);
        assert(met_all(entries).drop_last() =~= met_all(less));
        assert(met_all(entries).last() == met(entries.last()));
    }
}

/// Entering files goes from one to the next.
proof fn lemma_index(job: Job, status: Status, db: Database, n: nat)
    requires
        job.stage == Stage::Check(0),
        n <= job.files.len() <= usize::MAX,
    ensures
        ran(job, status, db, index_events(n)).0 == (Job { stage: Stage::Check(n as usize), ..job }),
    decreases n,
{
    if n > 0 {
        let less = index_events((n - 1) as nat);
        lemma_index(job, status, db, (n - 1) as nat);
        lemma_ran_next(job, status, db, less, ScanEvent::Cancel(false));
        lemma_ran_next(
            job,
            status,
            db,
            less.push(ScanEvent::Cancel(false)),
            ScanEvent::Indexed(Ok(())),
        );
    }
}

/// What a walk over entries has met.
proof fn lemma_smooth_stage(
    root: Seq<char>,
    first: Status,
    db: Database,
    entries: Seq<Entry>,
    stamp: i64,
    id: i64,
)
    requires
        sound_files(met_all(entries)).len() <= usize::MAX,
    ensures
        ran(new_job(root), first, db, smooth_scan(entries, stamp, id)).0 == (Job {
            stage: Stage::Over(Outcome::Completed),
            root,
            files: sound_files(met_all(entries)),
            stamp,
            library: id,
        }),
{
    let job = new_job(root);
    let files = sound_files(met_all(entries));
    let e0 = seq![ScanEvent::Root { is_dir: true }] + walk_events(entries);
    let e1 = e0.push(ScanEvent::WalkEnded);
    let e2 = e1.push(ScanEvent::Opened(true));
    let e3 = e2.push(ScanEvent::Begun(Some(stamp)));
    let e4 = e3.push(ScanEvent::Registered(Ok(())));
    let e5 = e4.push(ScanEvent::Found(Ok(id)));
    lemma_walk(root, first, db, entries);
    lemma_ran_next(job, first, db, e0, ScanEvent::WalkEnded);
    lemma_ran_next(job, first, db, e1, ScanEvent::Opened(true));
    lemma_ran_next(job, first, db, e2, ScanEvent::Begun(Some(stamp)));
    lemma_ran_next(job, first, db, e3, ScanEvent::Registered(Ok(())));
    lemma_ran_next(job, first, db, e4, ScanEvent::Found(Ok(id)));
    let (j, s, d) = ran(job, first, db, e5);
    assert(j == Job { stage: Stage::Check(0), root, files, stamp, library: id });
    let f0 = index_events(files.len());
    let f1 = f0.push(ScanEvent::Cancel(false));
    let f2 = f1.push(ScanEvent::Purged(Ok(())));
    let f3 = f2.push(ScanEvent::Committed(Ok(())));
    lemma_index(j, s, d, files.len());
    lemma_ran_next(j, s, d, f0, ScanEvent::Cancel(false));
    lemma_ran_next(j, s, d, f1, ScanEvent::Purged(Ok(())));
    lemma_ran_next(j, s, d, f2, ScanEvent::Committed(Ok(())));
    lemma_ran_join(job, first, db, e5, f3);
}

/// A scan in which everything goes well completes: it has entered the library at the time
/// at which its transaction was begun, then every sound file among the entries, in their
/// order, for the number that the library has and at that time, and has then removed the
/// files of the library that are older. All of this is committed, and the status tells
/// how many files there are.
pub proof fn law_smooth_scan_completes(
    root: Seq<char>,
    first: Status,
    db: Database,
    entries: Seq<Entry>,
    stamp: i64,
    id: i64,
)
    requires
        db.pending is None,
        smooth_scan(entries, stamp, id).len() <= usize::MAX,
    ensures
        ({
            let files = sound_files(met_all(entries));
            let (j, s, d) = ran(new_job(root), first, db, smooth_scan(entries, stamp, id));
            let n = files.len() as int;
            let base = db.committed.len() as int;
            &&& j.stage == Stage::Over(Outcome::Completed)
            &&& !s.running && s.phase == "completed"@ && s.message == decimal(files.len())
            &&& s.current == files.len() && s.total == files.len()
            &&& d.pending is None
            &&& d.committed.len() == base + n + 2
            &&& d.committed.take(base) == db.committed
            &&& d.committed[base] == (Change::Library { root, stamp })
            &&& forall|i: int|
                0 <= i < n ==> #[trigger] d.committed[base + 1 + i] == (Change::File {
                    path: files[i],
                    library: id,
                    stamp,
                })
            &&& d.committed[base + n + 1] == (Change::Purge { library: id, stamp })
        }),
{
    let events = smooth_scan(entries, stamp, id);
    let files = sound_files(met_all(entries));
    let (j, s, d) = ran(new_job(root), first, db, events);
    let base = db.committed.len() as int;
    lemma_index_count(files.len());
    lemma_smooth_stage(root, first, db, entries, stamp, id);
    law_scan_is_all_or_nothing(root, first, db, events);
    law_status_tells_progress(root, first, db, events);
    assert(d.committed.take(base) =~= db.committed);
    let all = all_changes(j);
    assert(all.len() == files.len() + 2);
    assert forall|i: int| 0 <= i < files.len() implies #[trigger] d.committed[base + 1 + i] == (
    Change::File { path: files[i], library: id, stamp }) by {
        assert(d.committed[base + (1 + i)] == all[1 + i]);
        assert(all[1 + i] == file_changes(j, j.files.len())[i]);
    }
    assert(d.committed[base + 0] == all[0]);
    assert(d.committed[base + (files.len() as int + 1)] == all[files.len() as int + 1]);
}

/// Two events for each file.
proof fn lemma_index_count(n: nat)
    ensures
        index_events(n).len() == 2 * n,
    decreases n,
{
    if n > 0 {
        lemma_index_count((n - 1) as nat);
    }
}

/// What a library scan asks for in each of its stages.
pub proof fn law_library_stages_ask_for_their_actions(job: LibraryJob)
    ensures
        job.stage is Root ==> library_asked(job) is CheckRoot,
        job.stage is Register ==> library_asked(job) == (ScanAction::RegisterLibrary {
            stamp: job.stamp,
        }),
        job.stage is Find ==> library_asked(job) is FindLibrary,
        job.stage is Walk ==> library_asked(job) is NextEntry,
        job.stage is Index ==> library_asked(job) == (ScanAction::IndexFile {
            index: job.count as usize,
            library: job.library,
            stamp: job.stamp,
        }),
        job.stage is Purge ==> library_asked(job) == (ScanAction::PurgeStale {
            library: job.library,
            stamp: job.stamp,
        }),
        job.stage is Over ==> library_asked(job) is Stop,
{
}

/// A library scan has failed with a message, and nothing else of it is new.
pub open spec fn library_has_failed(
    before: LibraryJob,
    after: LibraryJob,
    message: Seq<char>,
) -> bool {
    after == LibraryJob { stage: LibraryStage::Over, failure: Some(message), ..before }
}

/// Whatever fails ends a library scan with its message.
pub proof fn law_library_failures_are_told(job: LibraryJob, e: String)
    ensures
        job.stage is Root ==> library_has_failed(
            job,
            library_stepped(job, ScanEvent::Root { is_dir: false }),
            "Folder does not exist"@,
        ),
        job.stage is Register ==> library_has_failed(
            job,
            library_stepped(job, ScanEvent::Registered(Err(e))),
            e@,
        ),
        job.stage is Find ==> library_has_failed(
            job,
            library_stepped(job, ScanEvent::Found(Err(e))),
            e@,
        ),
        job.stage is Index ==> library_has_failed(
            job,
            library_stepped(job, ScanEvent::Indexed(Err(e))),
            e@,
        ),
        job.stage is Purge ==> library_has_failed(
            job,
            library_stepped(job, ScanEvent::Purged(Err(e))),
            e@,
        ),
{
}

/// An event that is no answer to what a library scan asks for changes nothing, nor does
/// anything change a scan that is over.
pub proof fn law_library_scan_takes_answers_only(job: LibraryJob, event: ScanEvent)
    requires
        !match event {
            ScanEvent::Root { .. } => job.stage is Root,
            ScanEvent::Registered(_) => job.stage is Register,
            ScanEvent::Found(_) => job.stage is Find,
            ScanEvent::Entry { .. } => job.stage is Walk,
            ScanEvent::WalkEnded => job.stage is Walk,
            ScanEvent::Indexed(_) => job.stage is Index,
            ScanEvent::Purged(_) => job.stage is Purge,
            _ => false,
        },
    ensures
        library_stepped(job, event) == job,
{
}

/// What goes well leads a library scan on; whether a user cancels makes no difference to
/// it.
pub proof fn law_library_successes_lead_on(job: LibraryJob, id: i64, entry: Entry)
    ensures
        job.stage is Root ==> library_stepped(job, ScanEvent::Root { is_dir: true }) == (
        LibraryJob { stage: LibraryStage::Register, ..job }),
        job.stage is Register ==> library_stepped(job, ScanEvent::Registered(Ok(()))) == (
        LibraryJob { stage: LibraryStage::Find, ..job }),
        job.stage is Find ==> library_stepped(job, ScanEvent::Found(Ok(id))) == (LibraryJob {
            stage: LibraryStage::Walk,
            library: id,
            ..job
        }),
        job.stage is Walk ==> library_stepped(job, ScanEvent::WalkEnded) == (LibraryJob {
            stage: LibraryStage::Purge,
            ..job
        }),
        job.stage is Index ==> library_stepped(job, ScanEvent::Indexed(Ok(()))) == (LibraryJob {
            stage: LibraryStage::Walk,
            count: job.count + 1,
            ..job
        }),
        job.stage is Purge ==> library_stepped(job, ScanEvent::Purged(Ok(()))) == (LibraryJob {
            stage: LibraryStage::Over,
            ..job
        }),
        library_stepped(job, ScanEvent::Entry { cancelled: true, entry }) == library_stepped(
            job,
            ScanEvent::Entry { cancelled: false, entry },
        ),
{
}

/// The events of a walk over entries in which every sound file is entered at once.
pub open spec fn library_walk_events(entries: Seq<Entry>) -> Seq<ScanEvent>
    decreases entries.len(),
{
    if entries.len() == 0 {
        Seq::empty()
    } else {
        let rest = library_walk_events(entries.drop_last()).push(
            ScanEvent::Entry { cancelled: false, entry: entries.last() },
        );
        match entries.last() {
            Entry::File { path, name } => if is_audio_ext(lower_ext(name_text(name))) {
                rest.push(ScanEvent::Indexed(Ok(())))
            } else {
                rest
            },
            _ => rest,
        }
    }
}

/// The events of a library scan in which everything goes well.
pub open spec fn smooth_library_scan(entries: Seq<Entry>, id: i64) -> Seq<ScanEvent> {
    (seq![
        ScanEvent::Root { is_dir: true },
        ScanEvent::Registered(Ok(())),
        ScanEvent::Found(Ok(id)),
    ] + library_walk_events(entries)).push(ScanEvent::WalkEnded).push(ScanEvent::Purged(Ok(())))
}

/// A library scan with one more event.
proof fn lemma_library_next(job: LibraryJob, events: Seq<ScanEvent>, event: ScanEvent)
    ensures
        library_ran(job, events.push(event)).0 == library_stepped(
            library_ran(job, events).0,
            event,
        ),
        library_walked(job, events.push(event)) == (match (
            library_ran(job, events).0.stage,
            event,
        ) {
            (LibraryStage::Walk, ScanEvent::Entry { cancelled: _, entry }) => library_walked(
                job,
                events,
            ).push(met(entry)),
            _ => library_walked(job, events),
        }),
{
    assert(events.push(event).drop_last() =~= events);
}

/// A library scan on its walk.
proof fn lemma_library_walk(root: Seq<char>, stamp: i64, id: i64, entries: Seq<Entry>)
    ensures
        ({
            let events = seq![
                ScanEvent::Root { is_dir: true },
                ScanEvent::Registered(Ok(())),
                ScanEvent::Found(Ok(id)),
            ] + library_walk_events(entries);
            let start = new_library_job(root, stamp);
            let j = library_ran(start, events).0;
            &&& j.stage is Walk && j.library == id && j.failure is None
            &&& library_walked(start, events) == met_all(entries)
        }),
    decreases entries.len(),
{
    let start = new_library_job(root, stamp);
    let head = seq![
        ScanEvent::Root { is_dir: true },
        ScanEvent::Registered(Ok(())),
        ScanEvent::Found(Ok(id)),
    ];
    if entries.len() == 0 {
        let e0 = Seq::<ScanEvent>::empty();
        let e1 = e0.push(ScanEvent::Root { is_dir: true });
        let e2 = e1.push(ScanEvent::Registered(Ok(())));
        lemma_library_next(start, e0, ScanEvent::Root { is_dir: true });
        lemma_library_next(start, e1, ScanEvent::Registered(Ok(())));
        lemma_library_next(start, e2, ScanEvent::Found(Ok(id)));
        assert(head + library_walk_events(entries) =~= e2.push(ScanEvent::Found(Ok(id))));
        assert(library_walked(start, e0) =~= Seq::empty());
        assert(met_all(entries) =~= Seq::empty());
    } else {
        let less = entries.drop_last();
        let event = ScanEvent::Entry { cancelled: false, entry: entries.last() };
        let before = head + library_walk_events(less);
        lemma_library_walk(root, stamp, id, less);
        lemma_library_next(start, before, event);
        lemma_library_next(start, before.push(event), ScanEvent::Indexed(Ok(())));
        assert(met_all(entries) =~= met_all(less).push(met(entries.last())));
        assert(head + library_walk_events(less).push(event) =~= before.push(event));
        assert(head + library_walk_events(less).push(event).push(ScanEvent::Indexed(Ok(())))
            =~= before.push(event).push(ScanEvent::Indexed(Ok(()))));
    }
}

/// A library scan in which everything goes well succeeds: it has entered the library at
/// the time of the scan, then every sound file among the entries, in their order and for
/// the number that the library has, has then removed the files of the library that are
/// older, and counts the files.
pub proof fn law_smooth_library_scan_succeeds(
    root: Seq<char>,
    stamp: i64,
    id: i64,
    entries: Seq<Entry>,
)
    ensures
        ({
            let files = sound_files(met_all(entries));
            let n = files.len() as int;
            let (j, c) = library_ran(
                new_library_job(root, stamp),
                smooth_library_scan(entries, id),
            );
            &&& j.stage is Over && j.failure is None && j.count == n
            &&& c.len() == n + 2
            &&& c[0] == (Change::Library { root, stamp })
            &&& forall|i: int|
                0 <= i < n ==> #[trigger] c[1 + i] == (Change::File {
                    path: files[i],
                    library: id,
                    stamp,
                })
            &&& c[n + 1] == (Change::Purge { library: id, stamp })
        }),
{
    let start = new_library_job(root, stamp);
    let e0 = seq![
        ScanEvent::Root { is_dir: true },
        ScanEvent::Registered(Ok(())),
        ScanEvent::Found(Ok(id)),
    ] + library_walk_events(entries);
    let e1 = e0.push(ScanEvent::WalkEnded);
    lemma_library_walk(root, stamp, id, entries);
    lemma_library_next(start, e0, ScanEvent::WalkEnded);
    lemma_library_next(start, e1, ScanEvent::Purged(Ok(())));
    law_library_scan_counts_its_files(root, stamp, smooth_library_scan(entries, id));
    let (j, c) = library_ran(start, smooth_library_scan(entries, id));
    assert(is_counted(j, sound_files(met_all(entries)), c));
}

/// The sound files among entries are those with the extension of a sound file, in their
/// order.
pub proof fn law_sound_files_one_by_one(
    entries: Seq<Met>,
    path: Seq<char>,
    stem: Seq<char>,
    ext: Seq<char>,
)
    requires
        stem.len() > 0,
        is_free_of(ext, '.'),
    ensures
        sound_files(Seq::empty()).len() == 0,
        sound_files(entries.push(None)) == sound_files(entries),
        sound_files(entries.push(Some((path, Some(stem + seq!['.'] + ext))))) == (
        if sound_extensions().contains(lower(ext)) {
            sound_files(entries).push(path)
        } else {
            sound_files(entries)
        }),
{
    law_extension_follows_the_last_dot(stem, ext);
    law_sound_files_have_these_extensions(lower(ext));
    assert(entries.push(None).drop_last() =~= entries);
    assert(entries.push(Some((path, Some(stem + seq!['.'] + ext)))).drop_last() =~= entries);
}

} // verus!
