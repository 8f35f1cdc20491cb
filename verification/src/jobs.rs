//! The smaller jobs of the application: copying files, changing many files of the
//! index at once, and changing the metadata of one file.
use crate::copies::{is_in_range, new_search, searched, tried, CopyName, Search};
use crate::paths::{file_name, file_name_fits, is_wave_file, is_wave_name};
use crate::scan::name_text;
use std::path::Path;
use vstd::prelude::*;

verus! {

/// The message of a failure, if there is one.
pub open spec fn failure_text(result: Result<(), String>) -> Option<Seq<char>> {
    match result {
        Ok(_) => None,
        Err(e) => Some(e@),
    }
}

/// What a copy job waits for.
pub enum CopyStage {
    /// Whether the folder could be made.
    Folder,
    /// The file name behind the number in turn.
    Locate,
    /// Whether a file with the tried name exists in the folder.
    Probe(CopyName),
    /// Whether the file was copied under the chosen name.
    Copy(CopyName),
    /// Nothing: the job is over.
    Over(Option<String>),
}

/// The model of a [`CopyStage`].
#[verifier::ext_equal]
pub enum CopyPoint {
    Folder,
    Locate,
    Probe(Search),
    Copy(Search),
    Over(Option<Seq<char>>),
}

impl View for CopyStage {
    type V = CopyPoint;

    open spec fn view(&self) -> CopyPoint {
        match self {
            CopyStage::Folder => CopyPoint::Folder,
            CopyStage::Locate => CopyPoint::Locate,
            CopyStage::Probe(s) => CopyPoint::Probe(s@),
            CopyStage::Copy(s) => CopyPoint::Copy(s@),
            CopyStage::Over(e) => CopyPoint::Over(name_text(*e)),
        }
    }
}

/// What a copy job asks for.
pub enum CopyAction {
    MakeFolder,
    /// The path of the file with this number.
    Locate { id: i64 },
    /// Whether a file with this name exists in the folder.
    Probe { name: String },
    /// Copy the file under this name.
    Copy { name: String },
    Stop,
}

/// What became of an action of a copy job.
pub enum CopyEvent {
    MadeFolder(Result<(), String>),
    /// The file name of the file, if the index holds the file and its path has a
    /// file name.
    Located(Result<Option<String>, String>),
    Exists(bool),
    Copied(Result<(), String>),
}

impl CopyEvent {
    /// What was found of a file: its path, if the index holds the file.
    pub fn located(found: Result<Option<&Path>, String>) -> (event: CopyEvent)
        ensures
            event matches CopyEvent::Located(r) && match found {
                Ok(Some(path)) => r matches Ok(name) && file_name_fits(path, name_text(name)),
                Ok(None) => r == Ok::<Option<String>, String>(None),
                Err(e) => r == Err::<Option<String>, String>(e),
            },
    {
        CopyEvent::Located(
            match found {
                Ok(Some(path)) => Ok(file_name(path)),
                Ok(None) => Ok(None),
                Err(e) => Err(e),
            },
        )
    }
}

/// A job that copies files into a folder.
pub struct CopyJob {
    pub ids: Vec<i64>,
    pub next: usize,
    pub copied: usize,
    pub stage: CopyStage,
}

/// The model of a [`CopyJob`].
#[verifier::ext_equal]
pub struct Copying {
    pub ids: Seq<i64>,
    pub next: nat,
    pub copied: nat,
    pub stage: CopyPoint,
}

impl View for CopyJob {
    type V = Copying;

    open spec fn view(&self) -> Copying {
        Copying {
            ids: self.ids@,
            next: self.next as nat,
            copied: self.copied as nat,
            stage: self.stage@,
        }
    }
}

/// A copy job before its first step.
pub open spec fn new_copying(ids: Seq<i64>) -> Copying {
    Copying { ids, next: 0, copied: 0, stage: CopyPoint::Folder }
}

/// A copy job is at one of its numbers, has copied no more files than it has
/// passed, and tries names in range.
pub open spec fn is_copying(job: Copying) -> bool {
    &&& job.copied <= job.next <= job.ids.len()
    &&& match job.stage {
        CopyPoint::Folder => job.next == 0,
        CopyPoint::Locate => true,
        CopyPoint::Probe(s) => job.next < job.ids.len() && is_in_range(s) && !s.chosen,
        CopyPoint::Copy(s) => job.next < job.ids.len() && is_in_range(s) && s.chosen,
        CopyPoint::Over(failure) => failure is None ==> job.next == job.ids.len(),
    }
}

/// A copy job that turns to the next number, or is over.
pub open spec fn turned(job: Copying, next: nat, copied: nat) -> Copying {
    Copying {
        next,
        copied,
        stage: if next < job.ids.len() {
            CopyPoint::Locate
        } else {
            CopyPoint::Over(None)
        },
        ..job
    }
}

/// A copy job after an event. A number that the index does not know is passed
/// over; a failure ends the job.
pub open spec fn copy_stepped(job: Copying, event: CopyEvent) -> Copying {
    match (job.stage, event) {
        (CopyPoint::Folder, CopyEvent::MadeFolder(r)) => match r {
            Ok(_) => turned(job, job.next, job.copied),
            Err(e) => Copying { stage: CopyPoint::Over(Some(e@)), ..job },
        },
        (CopyPoint::Locate, CopyEvent::Located(r)) => match r {
            Ok(Some(name)) => if job.next < job.ids.len() {
                Copying { stage: CopyPoint::Probe(new_search(name@)), ..job }
            } else {
                job
            },
            Ok(None) => if job.next < job.ids.len() {
                turned(job, job.next + 1, job.copied)
            } else {
                job
            },
            Err(e) => Copying { stage: CopyPoint::Over(Some(e@)), ..job },
        },
        (CopyPoint::Probe(s), CopyEvent::Exists(exists)) => {
            let t = searched(s, exists);
            Copying {
                stage: if t.chosen {
                    CopyPoint::Copy(t)
                } else {
                    CopyPoint::Probe(t)
                },
                ..job
            }
        },
        (CopyPoint::Copy(_), CopyEvent::Copied(r)) => match r {
            Ok(_) => turned(job, job.next + 1, job.copied + 1),
            Err(e) => Copying { stage: CopyPoint::Over(Some(e@)), ..job },
        },
        _ => job,
    }
}

impl CopyJob {
    /// Whether the job is at one of its numbers.
    pub open spec fn wf(&self) -> bool {
        is_copying(self@)
    }

    /// A job that copies the files with the given numbers.
    pub fn new(ids: Vec<i64>) -> (job: CopyJob)
        ensures
            job.wf(),
            job@ == new_copying(ids@),
    {
        CopyJob { ids, next: 0, copied: 0, stage: CopyStage::Folder }
    }

    /// What the job asks for.
    pub fn action(&self) -> (action: CopyAction)
        requires
            self.wf(),
        ensures
            match self@.stage {
                CopyPoint::Folder => action is MakeFolder,
                CopyPoint::Locate => if self@.next < self@.ids.len() {
                    action matches CopyAction::Locate { id } && id == self@.ids[self@.next as int]
                } else {
                    action is Stop
                },
                CopyPoint::Probe(s) => action matches CopyAction::Probe { name } && name@
                    == tried(s),
                CopyPoint::Copy(s) => action matches CopyAction::Copy { name } && name@ == tried(s),
                CopyPoint::Over(_) => action is Stop,
            },
    {
        match &self.stage {
            CopyStage::Folder => CopyAction::MakeFolder,
            CopyStage::Locate => if self.next < self.ids.len() {
                CopyAction::Locate { id: self.ids[self.next] }
            } else {
                CopyAction::Stop
            },
            CopyStage::Probe(s) => CopyAction::Probe { name: s.text() },
            CopyStage::Copy(s) => CopyAction::Copy { name: s.text() },
            CopyStage::Over(_) => CopyAction::Stop,
        }
    }

    /// Turns to the next number, or ends the job.
    fn turn(&mut self, next: usize, copied: usize)
        ensures
            final(self)@ == turned(old(self)@, next as nat, copied as nat),
    {
        self.next = next;
        self.copied = copied;
        self.stage = if next < self.ids.len() {
            CopyStage::Locate
        } else {
            CopyStage::Over(None)
        };
    }

    /// Takes up what became of the action that the job asked for.
    pub fn step(&mut self, event: CopyEvent)
        requires
            old(self).wf(),
        ensures
            final(self).wf(),
            final(self)@ == copy_stepped(old(self)@, event),
    {
        let len: usize = self.ids.len();
        match event {
            CopyEvent::MadeFolder(r) => {
                if let CopyStage::Folder = &self.stage {
                    match r {
                        Ok(_) => {
                            let next: usize = self.next;
                            let copied: usize = self.copied;
                            self.turn(next, copied);
                        },
                        Err(e) => {
                            self.stage = CopyStage::Over(Some(e));
                        },
                    }
                }
            },
            CopyEvent::Located(r) => {
                if let CopyStage::Locate = &self.stage {
                    match r {
                        Ok(Some(name)) => {
                            if self.next < len {
                                self.stage = CopyStage::Probe(CopyName::new(name.as_str()));
                            }
                        },
                        Ok(None) => {
                            if self.next < len {
                                let next: usize = self.next;
                                let copied: usize = self.copied;
                                self.turn(next + 1, copied);
                            }
                        },
                        Err(e) => {
                            self.stage = CopyStage::Over(Some(e));
                        },
                    }
                }
            },
            CopyEvent::Exists(exists) => {
                if let CopyStage::Probe(s) = &self.stage {
                    let mut t = CopyName {
                        name: s.name.clone(),
                        number: s.number,
                        chosen: s.chosen,
                    };
                    t.step(exists);
                    self.stage = if t.chosen {
                        CopyStage::Copy(t)
                    } else {
                        CopyStage::Probe(t)
                    };
                }
            },
            CopyEvent::Copied(r) => {
                if let CopyStage::Copy(_) = &self.stage {
                    match r {
                        Ok(_) => {
                            let next: usize = self.next;
                            let copied: usize = self.copied;
                            self.turn(next + 1, copied + 1);
                        },
                        Err(e) => {
                            self.stage = CopyStage::Over(Some(e));
                        },
                    }
                }
            },
        }
    }

    /// The result of a job that is over: how many files were copied, or why it
    /// failed.
    pub fn result(&self) -> (r: Option<Result<usize, String>>)
        ensures
            match self@.stage {
                CopyPoint::Over(None) => r == Some(Ok::<usize, String>(self.copied)),
                CopyPoint::Over(Some(e)) => r is Some && r->0 is Err && r->0->Err_0@ == e,
                _ => r is None,
            },
    {
        match &self.stage {
            CopyStage::Over(Some(e)) => Some(Err(e.clone())),
            CopyStage::Over(None) => Some(Ok(self.copied)),
            _ => None,
        }
    }
}

/// What a batch waits for.
#[derive(Clone, Copy, PartialEq, Eq, Structural, Debug)]
pub enum BatchStage {
    /// Whether a transaction could be begun.
    Begin,
    /// Whether the file with the number in turn was changed.
    Change,
    /// Whether the transaction was committed.
    Commit,
    /// Nothing: the batch is over.
    Over,
}

/// What a batch asks for.
#[derive(Clone, Copy, PartialEq, Eq, Structural, Debug)]
pub enum BatchAction {
    Begin,
    Change { id: i64 },
    Commit,
    /// Drop what is open: a transaction that is not committed is rolled back.
    Stop,
}

/// A change of many files of the index in one transaction, such as putting them
/// into the playlist or removing them.
pub struct Batch {
    pub ids: Vec<i64>,
    pub next: usize,
    pub stage: BatchStage,
    pub failure: Option<String>,
}

/// The model of a [`Batch`].
#[verifier::ext_equal]
pub struct Batching {
    pub ids: Seq<i64>,
    pub next: nat,
    pub stage: BatchStage,
    pub failure: Option<Seq<char>>,
}

impl View for Batch {
    type V = Batching;

    open spec fn view(&self) -> Batching {
        Batching {
            ids: self.ids@,
            next: self.next as nat,
            stage: self.stage,
            failure: name_text(self.failure),
        }
    }
}

/// A batch before its first step.
pub open spec fn new_batching(ids: Seq<i64>) -> Batching {
    Batching { ids, next: 0, stage: BatchStage::Begin, failure: None }
}

/// A batch is at one of its numbers, or past the last.
pub open spec fn is_batching(job: Batching) -> bool {
    &&& job.next <= job.ids.len()
    &&& match job.stage {
        BatchStage::Begin => job.next == 0 && job.failure is None,
        BatchStage::Change => job.next < job.ids.len() && job.failure is None,
        BatchStage::Commit => job.next == job.ids.len() && job.failure is None,
        BatchStage::Over => job.failure is None ==> job.next == job.ids.len(),
    }
}

/// What a batch asks for.
pub open spec fn batch_asked(job: Batching) -> BatchAction {
    match job.stage {
        BatchStage::Begin => BatchAction::Begin,
        BatchStage::Change => BatchAction::Change { id: job.ids[job.next as int] },
        BatchStage::Commit => BatchAction::Commit,
        BatchStage::Over => BatchAction::Stop,
    }
}

/// A batch after its action went well or failed. The first failure ends it.
pub open spec fn batch_stepped(job: Batching, result: Result<(), String>) -> Batching {
    if job.stage is Over {
        job
    } else {
        match result {
            Err(e) => Batching { stage: BatchStage::Over, failure: Some(e@), ..job },
            Ok(_) => {
                let next = if job.stage is Change {
                    job.next + 1
                } else {
                    job.next
                };
                Batching {
                    next,
                    stage: if job.stage is Commit {
                        BatchStage::Over
                    } else if next < job.ids.len() {
                        BatchStage::Change
                    } else {
                        BatchStage::Commit
                    },
                    ..job
                }
            },
        }
    }
}

impl Batch {
    /// Whether the batch is at one of its numbers, or past the last.
    pub open spec fn wf(&self) -> bool {
        is_batching(self@)
    }

    /// A batch for the files with the given numbers.
    pub fn new(ids: Vec<i64>) -> (job: Batch)
        ensures
            job.wf(),
            job@ == new_batching(ids@),
    {
        Batch { ids, next: 0, stage: BatchStage::Begin, failure: None }
    }

    /// What the batch asks for.
    pub fn action(&self) -> (action: BatchAction)
        requires
            self.wf(),
        ensures
            action == batch_asked(self@),
    {
        match self.stage {
            BatchStage::Begin => BatchAction::Begin,
            BatchStage::Change => BatchAction::Change { id: self.ids[self.next] },
            BatchStage::Commit => BatchAction::Commit,
            BatchStage::Over => BatchAction::Stop,
        }
    }

    /// Takes up whether the action that the batch asked for went well.
    pub fn step(&mut self, result: Result<(), String>)
        requires
            old(self).wf(),
        ensures
            final(self).wf(),
            final(self)@ == batch_stepped(old(self)@, result),
    {
        let len: usize = self.ids.len();
        if self.stage == BatchStage::Over {
            return;
        }
        match result {
            Err(e) => {
                self.stage = BatchStage::Over;
                self.failure = Some(e);
            },
            Ok(_) => {
                if self.stage == BatchStage::Change {
                    self.next += 1;
                }
                if self.stage == BatchStage::Commit {
                    self.stage = BatchStage::Over;
                } else if self.next < len {
                    self.stage = BatchStage::Change;
                } else {
                    self.stage = BatchStage::Commit;
                }
            },
        }
    }

    /// The result of a batch that is over.
    pub fn result(&self) -> (r: Option<Result<(), String>>)
        ensures
            !(self.stage is Over) ==> r is None,
            self.stage is Over && self@.failure is None ==> r == Some(Ok::<(), String>(())),
            self.stage is Over && self@.failure is Some ==> r is Some && r->0 is Err
                && r->0->Err_0@ == self@.failure->0,
    {
        if self.stage != BatchStage::Over {
            return None;
        }
        match &self.failure {
            Some(e) => Some(Err(e.clone())),
            None => Some(Ok(())),
        }
    }
}

/// A batch and the files that it has changed after a run of results: those in an
/// open transaction and those that are committed.
pub open spec fn batch_ran(job: Batching, results: Seq<Result<(), String>>) -> (
    Batching,
    Seq<i64>,
    Seq<i64>,
)
    decreases results.len(),
{
    if results.len() == 0 {
        (job, Seq::empty(), Seq::empty())
    } else {
        let (j, open, kept) = batch_ran(job, results.drop_last());
        let next = batch_stepped(j, results.last());
        match (batch_asked(j), results.last()) {
            (BatchAction::Change { id }, Ok(_)) => (next, open.push(id), kept),
            (BatchAction::Commit, Ok(_)) => (next, Seq::empty(), kept + open),
            _ => if next.stage is Over {
                (next, Seq::empty(), kept)
            } else {
                (next, open, kept)
            },
        }
    }
}

/// A batch changes all of its files or none of them.
pub proof fn law_batch_is_all_or_nothing(ids: Seq<i64>, results: Seq<Result<(), String>>)
    ensures
        ({
            let (j, open, kept) = batch_ran(new_batching(ids), results);
            &&& j.ids == ids
            &&& is_batching(j)
            &&& j.stage is Over && j.failure is None ==> kept == ids
            &&& !(j.stage is Over && j.failure is None) ==> kept == Seq::<i64>::empty()
            &&& !(j.stage is Over) ==> open == ids.take(j.next as int)
        }),
    decreases results.len(),
{
    if results.len() > 0 {
        law_batch_is_all_or_nothing(ids, results.drop_last());
        let (j, open, kept) = batch_ran(new_batching(ids), results.drop_last());
        let (j2, open2, kept2) = batch_ran(new_batching(ids), results);
        if j.stage is Change && results.last() is Ok {
            assert(open2 =~= ids.take(j2.next as int));
        }
        if j.stage is Commit && results.last() is Ok {
            assert(ids.take(j.next as int) =~= ids);
            assert(kept2 =~= ids);
        }
    } else {
        assert(ids.take(0) =~= Seq::empty());
    }
}

/// What a change of the metadata of a file waits for.
#[derive(Clone, Copy, PartialEq, Eq, Structural, Debug)]
pub enum UpdateStage {
    /// The file name of the file.
    Locate,
    /// Whether the index was changed.
    Store,
    /// That the tags of the file were changed, as far as that is possible.
    Tag,
    /// Whether the iXML document of the file was changed.
    Chunk,
    /// Nothing: the change is over.
    Over,
}

/// What became of an action of a change of metadata.
pub enum UpdateEvent {
    Located(Result<Option<String>, String>),
    Stored(Result<(), String>),
    Tagged,
    ChunkWritten(Result<(), String>),
}

impl UpdateEvent {
    /// What was found of a file: its path.
    pub fn located(found: Result<&Path, String>) -> (event: UpdateEvent)
        ensures
            event matches UpdateEvent::Located(r) && match found {
                Ok(path) => r matches Ok(name) && file_name_fits(path, name_text(name)),
                Err(e) => r == Err::<Option<String>, String>(e),
            },
    {
        UpdateEvent::Located(
            match found {
                Ok(path) => Ok(file_name(path)),
                Err(e) => Err(e),
            },
        )
    }
}

/// A change of the metadata of a file: in the index, in its tags and, for a wave
/// file, in its iXML document.
pub struct UpdateJob {
    pub stage: UpdateStage,
    pub is_wave: bool,
    pub failure: Option<String>,
}

/// The model of an [`UpdateJob`].
#[verifier::ext_equal]
pub struct Updating {
    pub stage: UpdateStage,
    pub is_wave: bool,
    pub failure: Option<Seq<char>>,
}

impl View for UpdateJob {
    type V = Updating;

    open spec fn view(&self) -> Updating {
        Updating {
            stage: self.stage,
            is_wave: self.is_wave,
            failure: name_text(self.failure),
        }
    }
}

/// A change before its first step.
pub open spec fn new_updating() -> Updating {
    Updating { stage: UpdateStage::Locate, is_wave: false, failure: None }
}

/// A change after a failure, or at its next stage.
pub open spec fn update_proceeded(
    job: Updating,
    result: Result<(), String>,
    next: UpdateStage,
) -> Updating {
    match failure_text(result) {
        None => Updating { stage: next, ..job },
        Some(e) => Updating { stage: UpdateStage::Over, failure: Some(e), ..job },
    }
}

/// A change after an event. Only wave files get an iXML document.
pub open spec fn update_stepped(job: Updating, event: UpdateEvent) -> Updating {
    match (job.stage, event) {
        (UpdateStage::Locate, UpdateEvent::Located(r)) => match r {
            Ok(name) => Updating {
                stage: UpdateStage::Store,
                is_wave: is_wave_name(name_text(name)),
                ..job
            },
            Err(e) => Updating { stage: UpdateStage::Over, failure: Some(e@), ..job },
        },
        (UpdateStage::Store, UpdateEvent::Stored(r)) => update_proceeded(
            job,
            r,
            UpdateStage::Tag,
        ),
        (UpdateStage::Tag, UpdateEvent::Tagged) => Updating {
            stage: if job.is_wave {
                UpdateStage::Chunk
            } else {
                UpdateStage::Over
            },
            ..job
        },
        (UpdateStage::Chunk, UpdateEvent::ChunkWritten(r)) => update_proceeded(
            job,
            r,
            UpdateStage::Over,
        ),
        _ => job,
    }
}

impl UpdateJob {
    /// A change before its first step.
    pub fn new() -> (job: UpdateJob)
        ensures
            job@ == new_updating(),
    {
        UpdateJob { stage: UpdateStage::Locate, is_wave: false, failure: None }
    }

    /// Goes on to `next`, or ends with a failure.
    fn proceed(&mut self, result: Result<(), String>, next: UpdateStage)
        ensures
            final(self)@ == update_proceeded(old(self)@, result, next),
    {
        match result {
            Ok(_) => {
                self.stage = next;
            },
            Err(e) => {
                self.stage = UpdateStage::Over;
                self.failure = Some(e);
            },
        }
    }

    /// Takes up what became of the present stage.
    pub fn step(&mut self, event: UpdateEvent)
        ensures
            final(self)@ == update_stepped(old(self)@, event),
    {
        match (self.stage, event) {
            (UpdateStage::Locate, UpdateEvent::Located(r)) => {
                match r {
                    Ok(name) => {
                        self.is_wave = match &name {
                            Some(n) => is_wave_file(Some(n.as_str())),
                            None => is_wave_file(None),
                        };
                        self.stage = UpdateStage::Store;
                    },
                    Err(e) => {
                        self.stage = UpdateStage::Over;
                        self.failure = Some(e);
                    },
                }
            },
            (UpdateStage::Store, UpdateEvent::Stored(r)) => {
                self.proceed(r, UpdateStage::Tag);
            },
            (UpdateStage::Tag, UpdateEvent::Tagged) => {
                self.stage = if self.is_wave {
                    UpdateStage::Chunk
                } else {
                    UpdateStage::Over
                };
            },
            (UpdateStage::Chunk, UpdateEvent::ChunkWritten(r)) => {
                self.proceed(r, UpdateStage::Over);
            },
            _ => {},
        }
    }

    /// The result of a change that is over.
    pub fn result(&self) -> (r: Option<Result<(), String>>)
        ensures
            !(self.stage is Over) ==> r is None,
            self.stage is Over && self@.failure is None ==> r == Some(Ok::<(), String>(())),
            self.stage is Over && self@.failure is Some ==> r is Some && r->0 is Err
                && r->0->Err_0@ == self@.failure->0,
    {
        if self.stage != UpdateStage::Over {
            return None;
        }
        match &self.failure {
            Some(e) => Some(Err(e.clone())),
            None => Some(Ok(())),
        }
    }
}

/// What a change of metadata has done.
#[verifier::ext_equal]
pub struct Done {
    /// The index was changed.
    pub stored: bool,
    /// The tags were changed, as far as that is possible.
    pub tagged: bool,
    /// The iXML document was changed.
    pub written: bool,
}

/// A change and what it has done after a run of events.
pub open spec fn update_ran(job: Updating, events: Seq<UpdateEvent>) -> (Updating, Done)
    decreases events.len(),
{
    if events.len() == 0 {
        (job, Done { stored: false, tagged: false, written: false })
    } else {
        let (j, done) = update_ran(job, events.drop_last());
        (
            update_stepped(j, events.last()),
            match (j.stage, events.last()) {
                (UpdateStage::Store, UpdateEvent::Stored(Ok(_))) => Done { stored: true, ..done },
                (UpdateStage::Tag, UpdateEvent::Tagged) => Done { tagged: true, ..done },
                (UpdateStage::Chunk, UpdateEvent::ChunkWritten(Ok(_))) => Done {
                    written: true,
                    ..done
                },
                _ => done,
            },
        )
    }
}

/// A change of metadata that succeeds has changed the index, the tags and, of a
/// wave file and of no other, the iXML document. The file is not touched before
/// the index was changed.
pub proof fn law_update_changes_index_then_file(events: Seq<UpdateEvent>)
    ensures
        ({
            let (j, done) = update_ran(new_updating(), events);
            &&& j.stage is Over && j.failure is None ==> done.stored && done.tagged && done.written
                == j.is_wave
            &&& done.tagged ==> done.stored
            &&& done.written ==> done.tagged && j.is_wave
            &&& j.stage is Chunk ==> j.is_wave
        }),
{
    lemma_update_stages(events);
}

/// What a change of metadata has done in each of its stages.
proof fn lemma_update_stages(events: Seq<UpdateEvent>)
    ensures
        ({
            let (j, done) = update_ran(new_updating(), events);
            &&& !(j.stage is Over) ==> j.failure is None && !done.written
            &&& done.tagged ==> done.stored
            &&& done.written ==> done.tagged && j.is_wave
            &&& match j.stage {
                UpdateStage::Locate | UpdateStage::Store => !done.stored && !done.tagged,
                UpdateStage::Tag => done.stored && !done.tagged,
                UpdateStage::Chunk => done.stored && done.tagged && j.is_wave,
                UpdateStage::Over => j.failure is None ==> done.stored && done.tagged
                    && done.written == j.is_wave,
            }
        }),
    decreases events.len(),
{
    if events.len() > 0 {
        lemma_update_stages(events.drop_last());
    }
}

} // verus!
