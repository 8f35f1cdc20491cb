//! The scan of a library: its status and the job that carries it out.
use crate::paths::{
    file_name, file_name_fits, is_audio_ext, is_audio_extension, lower_ext, lower_extension,
    path_text, text_path,
};
use crate::text::{decimal, to_decimal};
use std::path::Path;
use vstd::prelude::*;

verus! {

/// What a user sees of a scan.
pub struct ScanStatus {
    pub running: bool,
    pub phase: String,
    pub current: usize,
    pub total: usize,
    pub path: String,
    pub message: String,
}

/// The model of a [`ScanStatus`].
#[verifier::ext_equal]
pub struct Status {
    pub running: bool,
    pub phase: Seq<char>,
    pub current: nat,
    pub total: nat,
    pub path: Seq<char>,
    pub message: Seq<char>,
}

impl View for ScanStatus {
    type V = Status;

    open spec fn view(&self) -> Status {
        Status {
            running: self.running,
            phase: self.phase@,
            current: self.current as nat,
            total: self.total as nat,
            path: self.path@,
            message: self.message@,
        }
    }
}

/// The status before the first scan.
pub open spec fn idle() -> Status {
    Status {
        running: false,
        phase: "idle"@,
        current: 0,
        total: 0,
        path: Seq::empty(),
        message: Seq::empty(),
    }
}

impl Default for ScanStatus {
    fn default() -> (r: Self)
        ensures
            r@ == idle(),
    {
        ScanStatus {
            running: false,
            phase: "idle".to_owned(),
            current: 0,
            total: 0,
            path: String::new(),
            message: String::new(),
        }
    }
}

impl Clone for ScanStatus {
    fn clone(&self) -> (r: Self)
        ensures
            r == *self,
    {
        ScanStatus {
            running: self.running,
            phase: self.phase.clone(),
            current: self.current,
            total: self.total,
            path: self.path.clone(),
            message: self.message.clone(),
        }
    }
}

/// The status at the start of a scan of the folder `path`.
pub open spec fn started(path: Seq<char>) -> Status {
    Status {
        running: true,
        phase: "counting"@,
        current: 0,
        total: 0,
        path,
        message: Seq::empty(),
    }
}

/// Starts a scan of the folder `path`, unless one is running. A wish to cancel that
/// was made before is forgotten.
pub fn start_scan(status: &mut ScanStatus, cancel: &mut bool, path: &str) -> (r: Result<(), String>)
    ensures
        old(status).running ==> r is Err && r->Err_0@ == "A scan is already running"@
            && *final(status) == *old(status) && *final(cancel) == *old(cancel),
        !old(status).running ==> r is Ok && final(status)@ == started(path@) && !*final(cancel),
{
    if status.running {
        return Err("A scan is already running".to_owned());
    }
    *status = ScanStatus {
        running: true,
        phase: "counting".to_owned(),
        current: 0,
        total: 0,
        path: path.to_owned(),
        message: String::new(),
    };
    *cancel = false;
    Ok(())
}

/// A copy of the status.
pub fn get_scan_status(status: &ScanStatus) -> (r: ScanStatus)
    ensures
        r == *status,
{
    status.clone()
}

/// Asks the scan that is running, if there is one, to cancel. Returns whether there
/// is one.
pub fn cancel_scan(status: &ScanStatus, cancel: &mut bool) -> (running: bool)
    ensures
        running == status@.running,
        *final(cancel) == (*old(cancel) || running),
{
    if status.running {
        *cancel = true;
    }
    status.running
}

/// The status after a scan has ended.
pub open spec fn finished(status: Status, phase: Seq<char>, message: Seq<char>) -> Status {
    Status { running: false, phase, message, ..status }
}

/// Ends a scan.
pub fn finish_scan(status: &mut ScanStatus, phase: &str, message: String)
    ensures
        final(status)@ == finished(old(status)@, phase@, message@),
{
    status.running = false;
    status.phase = phase.to_owned();
    status.message = message;
}

/// How a scan ended.
#[derive(Clone, Copy, PartialEq, Eq, Structural, Debug)]
pub enum Outcome {
    Completed,
    Cancelled,
    Failed,
}

/// What a job waits for.
#[derive(Clone, Copy, PartialEq, Eq, Structural, Debug)]
pub enum Stage {
    /// Whether the root is a folder.
    Root,
    /// The next entry of the folder tree.
    Walk,
    /// Whether the database could be opened.
    Open,
    /// Whether a transaction could be begun, and when.
    Begin,
    /// Whether the library was entered.
    Register,
    /// The number of the library.
    Find,
    /// Whether the user cancels before the file with this index.
    Check(usize),
    /// Whether the file with this index was entered.
    Index(usize),
    /// Whether files that are gone were removed.
    Purge,
    /// Whether the transaction was committed.
    Commit,
    /// Nothing: the job is over.
    Over(Outcome),
}

/// What a job asks for.
#[derive(Clone, Copy, PartialEq, Eq, Structural, Debug)]
pub enum ScanAction {
    CheckRoot,
    NextEntry,
    OpenDatabase,
    BeginTransaction,
    RegisterLibrary { stamp: i64 },
    FindLibrary,
    ReadCancel,
    IndexFile { index: usize, library: i64, stamp: i64 },
    PurgeStale { library: i64, stamp: i64 },
    Commit,
    /// Drop what is open: a transaction that is not committed is rolled back.
    Stop,
}

/// An entry of the folder tree.
pub enum Entry {
    Unreadable,
    NotAFile,
    File { path: String, name: Option<String> },
}

/// The entry that the file at `path` is.
pub fn file_entry(path: &Path) -> (entry: Entry)
    ensures
        entry matches Entry::File { path: text, name } && text@ == path_text(path)
            && file_name_fits(path, name_text(name)),
{
    Entry::File { path: text_path(path), name: file_name(path) }
}

/// What became of an action.
pub enum ScanEvent {
    Root { is_dir: bool },
    Entry { cancelled: bool, entry: Entry },
    WalkEnded,
    Opened(bool),
    Begun(Option<i64>),
    Registered(Result<(), String>),
    Found(Result<i64, String>),
    Cancel(bool),
    Indexed(Result<(), String>),
    Purged(Result<(), String>),
    Committed(Result<(), String>),
}

/// A scan of a library. All changes are made in one transaction.
pub struct ScanJob {
    pub stage: Stage,
    pub root: String,
    pub files: Vec<String>,
    pub stamp: i64,
    pub library: i64,
}

/// The model of a [`ScanJob`].
#[verifier::ext_equal]
pub struct Job {
    pub stage: Stage,
    pub root: Seq<char>,
    pub files: Seq<Seq<char>>,
    pub stamp: i64,
    pub library: i64,
}

impl View for ScanJob {
    type V = Job;

    open spec fn view(&self) -> Job {
        Job {
            stage: self.stage,
            root: self.root@,
            files: self.files@.map_values(|f: String| f@),
            stamp: self.stamp,
            library: self.library,
        }
    }
}

/// A job before its first step.
pub open spec fn new_job(root: Seq<char>) -> Job {
    Job { stage: Stage::Root, root, files: Seq::empty(), stamp: 0, library: 0 }
}

/// What a job asks for.
pub open spec fn asked(job: Job) -> ScanAction {
    match job.stage {
        Stage::Root => ScanAction::CheckRoot,
        Stage::Walk => ScanAction::NextEntry,
        Stage::Open => ScanAction::OpenDatabase,
        Stage::Begin => ScanAction::BeginTransaction,
        Stage::Register => ScanAction::RegisterLibrary { stamp: job.stamp },
        Stage::Find => ScanAction::FindLibrary,
        Stage::Check(_) => ScanAction::ReadCancel,
        Stage::Index(i) => ScanAction::IndexFile {
            index: i,
            library: job.library,
            stamp: job.stamp,
        },
        Stage::Purge => ScanAction::PurgeStale { library: job.library, stamp: job.stamp },
        Stage::Commit => ScanAction::Commit,
        Stage::Over(_) => ScanAction::Stop,
    }
}

/// A job and its status after the job has ended.
pub open spec fn over(
    job: Job,
    status: Status,
    outcome: Outcome,
    phase: Seq<char>,
    message: Seq<char>,
) -> (Job, Status) {
    (Job { stage: Stage::Over(outcome), ..job }, finished(status, phase, message))
}

/// A job and its status after a failure.
pub open spec fn failed(job: Job, status: Status, message: Seq<char>) -> (Job, Status) {
    over(job, status, Outcome::Failed, "error"@, message)
}

/// A job and its status after it was cancelled.
pub open spec fn cancelled(job: Job, status: Status) -> (Job, Status) {
    over(job, status, Outcome::Cancelled, "cancelled"@, Seq::empty())
}

/// A job and its status after the next thing went well or failed with a message.
pub open spec fn proceeded(
    job: Job,
    status: Status,
    result: Result<(), String>,
    next: Stage,
) -> (Job, Status) {
    match result {
        Ok(_) => (Job { stage: next, ..job }, status),
        Err(e) => failed(job, status, e@),
    }
}

/// The text of a name, if there is one.
pub open spec fn name_text(name: Option<String>) -> Option<Seq<char>> {
    match name {
        Some(n) => Some(n@),
        None => None,
    }
}

/// A job and its status after an entry of the folder tree. Files with another
/// extension than those of sound files are passed over.
pub open spec fn entered(job: Job, status: Status, entry: Entry) -> (Job, Status) {
    match entry {
        Entry::File { path, name } => if is_audio_ext(lower_ext(name_text(name))) {
            let files = job.files.push(path@);
            (
                Job { files, ..job },
                Status { phase: "counting"@, current: files.len(), path: path@, ..status },
            )
        } else {
            (job, status)
        },
        _ => (job, status),
    }
}

/// A job and its status after an event. An event that is no answer to what the
/// job asks for changes nothing.
pub open spec fn stepped(job: Job, status: Status, event: ScanEvent) -> (Job, Status) {
    match (job.stage, event) {
        (Stage::Root, ScanEvent::Root { is_dir }) => if is_dir {
            (Job { stage: Stage::Walk, ..job }, status)
        } else {
            failed(job, status, "Folder does not exist"@)
        },
        (Stage::Walk, ScanEvent::Entry { cancelled: stop, entry }) => if stop {
            cancelled(job, status)
        } else {
            entered(job, status, entry)
        },
        (Stage::Walk, ScanEvent::WalkEnded) => (
            Job { stage: Stage::Open, ..job },
            Status {
                phase: "scanning"@,
                current: 0,
                total: job.files.len(),
                path: job.root,
                ..status
            },
        ),
        (Stage::Open, ScanEvent::Opened(ok)) => if ok {
            (Job { stage: Stage::Begin, ..job }, status)
        } else {
            failed(job, status, "Cannot open database"@)
        },
        (Stage::Begin, ScanEvent::Begun(stamp)) => match stamp {
            Some(t) => (Job { stage: Stage::Register, stamp: t, ..job }, status),
            None => failed(job, status, "Cannot begin database transaction"@),
        },
        (Stage::Register, ScanEvent::Registered(r)) => proceeded(job, status, r, Stage::Find),
        (Stage::Find, ScanEvent::Found(r)) => match r {
            Ok(id) => (Job { stage: Stage::Check(0), library: id, ..job }, status),
            Err(e) => failed(job, status, e@),
        },
        (Stage::Check(i), ScanEvent::Cancel(stop)) => if stop {
            cancelled(job, status)
        } else if i < job.files.len() {
            (Job { stage: Stage::Index(i), ..job }, status)
        } else {
            (Job { stage: Stage::Purge, ..job }, status)
        },
        (Stage::Index(i), ScanEvent::Indexed(r)) => match r {
            Ok(_) => (
                Job { stage: Stage::Check((i + 1) as usize), ..job },
                Status { current: (i + 1) as nat, path: job.files[i as int], ..status },
            ),
            Err(e) => failed(job, status, e@),
        },
        (Stage::Purge, ScanEvent::Purged(r)) => proceeded(job, status, r, Stage::Commit),
        (Stage::Commit, ScanEvent::Committed(r)) => match r {
            Ok(_) => over(
                job,
                status,
                Outcome::Completed,
                "completed"@,
                decimal(job.files.len()),
            ),
            Err(e) => failed(job, status, e@),
        },
        _ => (job, status),
    }
}

/// The file that a job asks to enter is one that it has found.
pub open spec fn is_sound(job: Job) -> bool {
    job.files.len() <= usize::MAX && (job.stage matches Stage::Index(i) ==> i < job.files.len())
}

impl ScanJob {
    /// Whether the file that the job asks to enter is one that it has found.
    pub open spec fn wf(&self) -> bool {
        is_sound(self@)
    }

    /// A job that scans the folder `root`.
    pub fn new(root: &str) -> (job: ScanJob)
        ensures
            job.wf(),
            job@ == new_job(root@),
    {
        let job = ScanJob {
            stage: Stage::Root,
            root: root.to_owned(),
            files: Vec::new(),
            stamp: 0,
            library: 0,
        };
        assert(job@ =~= new_job(root@));
        job
    }

    /// What the job asks for.
    pub fn action(&self) -> (action: ScanAction)
        ensures
            action == asked(self@),
    {
        match self.stage {
            Stage::Root => ScanAction::CheckRoot,
            Stage::Walk => ScanAction::NextEntry,
            Stage::Open => ScanAction::OpenDatabase,
            Stage::Begin => ScanAction::BeginTransaction,
            Stage::Register => ScanAction::RegisterLibrary { stamp: self.stamp },
            Stage::Find => ScanAction::FindLibrary,
            Stage::Check(_) => ScanAction::ReadCancel,
            Stage::Index(i) => ScanAction::IndexFile {
                index: i,
                library: self.library,
                stamp: self.stamp,
            },
            Stage::Purge => ScanAction::PurgeStale { library: self.library, stamp: self.stamp },
            Stage::Commit => ScanAction::Commit,
            Stage::Over(_) => ScanAction::Stop,
        }
    }

    /// Ends the job.
    fn end(&mut self, status: &mut ScanStatus, outcome: Outcome, phase: &str, message: String)
        requires
            old(self)@.files.len() <= usize::MAX,
        ensures
            final(self).wf(),
            (final(self)@, final(status)@) == over(
                old(self)@,
                old(status)@,
                outcome,
                phase@,
                message@,
            ),
    {
        self.stage = Stage::Over(outcome);
        finish_scan(status, phase, message);
    }

    /// Takes up what became of the action that the job asked for.
    pub fn step(&mut self, status: &mut ScanStatus, event: ScanEvent)
        requires
            old(self).wf(),
        ensures
            final(self).wf(),
            (final(self)@, final(status)@) == stepped(old(self)@, old(status)@, event),
    {
        match (self.stage, event) {
            (Stage::Root, ScanEvent::Root { is_dir }) => {
                if is_dir {
                    self.stage = Stage::Walk;
                } else {
                    self.end(
                        status,
                        Outcome::Failed,
                        "error",
                        "Folder does not exist".to_owned(),
                    );
                }
            },
            (Stage::Walk, ScanEvent::Entry { cancelled, entry }) => {
                if cancelled {
                    self.end(status, Outcome::Cancelled, "cancelled", String::new());
                } else {
                    self.enter(status, entry);
                }
            },
            (Stage::Walk, ScanEvent::WalkEnded) => {
                self.stage = Stage::Open;
                status.phase = "scanning".to_owned();
                status.current = 0;
                status.total = self.files.len();
                status.path = self.root.clone();
            },
            (Stage::Open, ScanEvent::Opened(ok)) => {
                if ok {
                    self.stage = Stage::Begin;
                } else {
                    self.end(status, Outcome::Failed, "error", "Cannot open database".to_owned());
                }
            },
            (Stage::Begin, ScanEvent::Begun(stamp)) => {
                match stamp {
                    Some(t) => {
                        self.stamp = t;
                        self.stage = Stage::Register;
                    },
                    None => {
                        self.end(
                            status,
                            Outcome::Failed,
                            "error",
                            "Cannot begin database transaction".to_owned(),
                        );
                    },
                }
            },
            (Stage::Register, ScanEvent::Registered(r)) => {
                self.proceed(status, r, Stage::Find);
            },
            (Stage::Find, ScanEvent::Found(r)) => {
                match r {
                    Ok(id) => {
                        self.library = id;
                        self.stage = Stage::Check(0);
                    },
                    Err(e) => {
                        self.end(status, Outcome::Failed, "error", e);
                    },
                }
            },
            (Stage::Check(i), ScanEvent::Cancel(stop)) => {
                if stop {
                    self.end(status, Outcome::Cancelled, "cancelled", String::new());
                } else if i < self.files.len() {
                    self.stage = Stage::Index(i);
                } else {
                    self.stage = Stage::Purge;
                }
            },
            (Stage::Index(i), ScanEvent::Indexed(r)) => {
                match r {
                    Ok(_) => {
                        self.stage = Stage::Check(i + 1);
                        status.current = i + 1;
                        status.path = self.files[i].clone();
                    },
                    Err(e) => {
                        self.end(status, Outcome::Failed, "error", e);
                    },
                }
            },
            (Stage::Purge, ScanEvent::Purged(r)) => {
                self.proceed(status, r, Stage::Commit);
            },
            (Stage::Commit, ScanEvent::Committed(r)) => {
                match r {
                    Ok(_) => {
                        let count = to_decimal(self.files.len() as u64);
                        self.end(status, Outcome::Completed, "completed", count);
                    },
                    Err(e) => {
                        self.end(status, Outcome::Failed, "error", e);
                    },
                }
            },
            _ => {},
        }
    }

    /// Goes on to `next`, or fails with a message.
    fn proceed(&mut self, status: &mut ScanStatus, result: Result<(), String>, next: Stage)
        requires
            old(self)@.files.len() <= usize::MAX,
            !(next is Index),
        ensures
            final(self).wf(),
            (final(self)@, final(status)@) == proceeded(old(self)@, old(status)@, result, next),
    {
        match result {
            Ok(_) => {
                self.stage = next;
            },
            Err(e) => {
                self.end(status, Outcome::Failed, "error", e);
            },
        }
    }

    /// Takes up an entry of the folder tree.
    fn enter(&mut self, status: &mut ScanStatus, entry: Entry)
        requires
            old(self).wf(),
            old(self).stage is Walk,
        ensures
            final(self).wf(),
            (final(self)@, final(status)@) == entered(old(self)@, old(status)@, entry),
    {
        let ghost before = self@;
        match entry {
            Entry::File { path, name } => {
                let ext = match &name {
                    Some(n) => lower_extension(Some(n.as_str())),
                    None => lower_extension(None),
                };
                if is_audio_extension(ext.as_str()) {
                    self.files.push(path.clone());
                    status.phase = "counting".to_owned();
                    status.current = self.files.len();
                    status.path = path;
                    assert(self@.files =~= before.files.push(path@));
                }
            },
            _ => {},
        }
    }
}

} // verus!
