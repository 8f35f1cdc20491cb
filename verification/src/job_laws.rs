//! Laws of the smaller jobs: what each answer leads to, and runs in which everything goes
//! well.
use crate::copies::{candidate, new_search, searched, tried, Search};
use crate::copy_laws::{work, CopyRun};
use crate::jobs::{
    batch_asked, batch_ran, batch_stepped, copy_stepped, law_batch_is_all_or_nothing, new_batching,
    new_copying, new_updating, update_stepped, BatchAction, BatchStage, Batching, CopyEvent,
    CopyPoint, Copying, UpdateEvent, UpdateStage, Updating,
};
use crate::name_laws::{law_name_without_extension, law_wave_files_are_told_by_their_extension};
use crate::text::lower;
use crate::text_laws::is_free_of;
use vstd::prelude::*;

verus! {

/// A search for the name of a copy starts with the name of the file. While names are
/// taken it goes on to the next number; the first name that is free is chosen; and if the
/// last number, 9999, is taken too, the name of the file is.
pub proof fn law_search_goes_on_while_names_are_taken(name: Seq<char>, n: nat)
    requires
        1 <= n <= 9999,
    ensures
        tried(new_search(name)) == name,
        !new_search(name).chosen && new_search(name).number == 1,
        ({
            let s = Search { name, number: n, chosen: false };
            &&& searched(s, false) == Search { name, number: n, chosen: true }
            &&& n < 9999 ==> searched(s, true) == Search { name, number: n + 1, chosen: false }
            &&& n == 9999 ==> searched(s, true) == Search { name, number: 1, chosen: true }
            &&& tried(s) == candidate(name, n)
        }),
        forall|exists: bool|
            #[trigger] searched(Search { name, number: n, chosen: true }, exists) == (Search {
                name,
                number: n,
                chosen: true,
            }),
{
}

/// A copy job before its first step is at its first number and has copied nothing. It
/// makes its folder first and then turns to its numbers; without any it is over.
pub proof fn law_copy_job_starts(ids: Seq<i64>)
    ensures
        new_copying(ids) == (Copying { ids, next: 0, copied: 0, stage: CopyPoint::Folder }),
        copy_stepped(new_copying(ids), CopyEvent::MadeFolder(Ok(()))) == (Copying {
            ids,
            next: 0,
            copied: 0,
            stage: if ids.len() == 0 {
                CopyPoint::Over(None)
            } else {
                CopyPoint::Locate
            },
        }),
{
}

/// Whatever fails ends a copy job with its message, and nothing else of it changes.
pub proof fn law_copy_failures_are_told(job: Copying, e: String)
    ensures
        ({
            let failed = Copying { stage: CopyPoint::Over(Some(e@)), ..job };
            &&& job.stage is Folder ==> copy_stepped(job, CopyEvent::MadeFolder(Err(e))) == failed
            &&& job.stage is Locate ==> copy_stepped(job, CopyEvent::Located(Err(e))) == failed
            &&& job.stage is Copy ==> copy_stepped(job, CopyEvent::Copied(Err(e))) == failed
        }),
{
}

/// A number that the index does not know, or whose path has no file name, is passed over:
/// nothing is copied for it.
pub proof fn law_unknown_numbers_are_passed_over(job: Copying)
    requires
        job.stage is Locate,
        job.next < job.ids.len(),
    ensures
        copy_stepped(job, CopyEvent::Located(Ok(None))) == (Copying {
            next: job.next + 1,
            stage: if job.next + 1 < job.ids.len() {
                CopyPoint::Locate
            } else {
                CopyPoint::Over(None)
            },
            ..job
        }),
{
}

/// An event that is no answer to what a copy job asks for changes nothing.
pub proof fn law_copy_job_takes_answers_only(job: Copying, event: CopyEvent)
    requires
        !match event {
            CopyEvent::MadeFolder(_) => job.stage is Folder,
            CopyEvent::Located(_) => job.stage is Locate,
            CopyEvent::Exists(_) => job.stage is Probe,
            CopyEvent::Copied(_) => job.stage is Copy,
        },
    ensures
        copy_stepped(job, event) == job,
{
}

/// The events of the search for the name of a copy in which `n` names are taken.
pub open spec fn taken_events(name: String, n: nat) -> Seq<CopyEvent>
    decreases n,
{
    if n == 0 {
        seq![CopyEvent::Located(Ok(Some(name)))]
    } else {
        taken_events(name, (n - 1) as nat).push(CopyEvent::Exists(true))
    }
}

/// A copy job with one more event.
proof fn lemma_work_next<C>(
    run: CopyRun<C>,
    events: Seq<CopyEvent>,
    event: CopyEvent,
    source: spec_fn(i64) -> C,
    leftover: Option<C>,
)
    ensures
        ({
            let before = work(run, events, source, leftover);
            let after = work(run, events.push(event), source, leftover);
            &&& after.job == copy_stepped(before.job, event)
            &&& after.made == (match (before.job.stage, event) {
                (CopyPoint::Copy(s), CopyEvent::Copied(Ok(_))) => before.made.push(
                    (before.job.ids[before.job.next as int], tried(s)),
                ),
                _ => before.made,
            })
        }),
{
    assert(events.push(event).drop_last() =~= events);
}

/// While names are taken, a copy job tries the next.
proof fn lemma_taken<C>(
    run: CopyRun<C>,
    name: String,
    n: nat,
    source: spec_fn(i64) -> C,
    leftover: Option<C>,
)
    requires
        run.job.stage is Locate,
        run.job.next < run.job.ids.len(),
        n < 9999,
    ensures
        ({
            let after = work(run, taken_events(name, n), source, leftover);
            &&& after.made == run.made
            &&& after.job == Copying {
                stage: CopyPoint::Probe(Search { name: name@, number: n + 1, chosen: false }),
                ..run.job
            }
        }),
    decreases n,
{
    if n == 0 {
        let none = Seq::<CopyEvent>::empty();
        let event = CopyEvent::Located(Ok(Some(name)));
        lemma_work_next(run, none, event, source, leftover);
        assert(taken_events(name, 0) =~= none.push(event));
    } else {
        lemma_taken(run, name, (n - 1) as nat, source, leftover);
        lemma_work_next(
            run,
            taken_events(name, (n - 1) as nat),
            CopyEvent::Exists(true),
            source,
            leftover,
        );
        law_search_goes_on_while_names_are_taken(name@, n);
    }
}

/// A file whose name and whose numbered names before `n` are taken in the folder, but not
/// the one with the number `n`, is copied under that one; the first stands for the name
/// itself. The job counts the copy and turns to the next number, or is over.
pub proof fn law_file_is_copied_under_the_first_free_name<C>(
    run: CopyRun<C>,
    name: String,
    n: nat,
    source: spec_fn(i64) -> C,
    leftover: Option<C>,
)
    requires
        run.job.stage is Locate,
        run.job.next < run.job.ids.len(),
        1 <= n <= 9999,
    ensures
        ({
            let events = taken_events(name, (n - 1) as nat).push(CopyEvent::Exists(false)).push(
                CopyEvent::Copied(Ok(())),
            );
            let after = work(run, events, source, leftover);
            &&& after.made == run.made.push(
                (run.job.ids[run.job.next as int], candidate(name@, n)),
            )
            &&& after.job == Copying {
                next: run.job.next + 1,
                copied: run.job.copied + 1,
                stage: if run.job.next + 1 < run.job.ids.len() {
                    CopyPoint::Locate
                } else {
                    CopyPoint::Over(None)
                },
                ..run.job
            }
        }),
{
    let e0 = taken_events(name, (n - 1) as nat);
    lemma_taken(run, name, (n - 1) as nat, source, leftover);
    law_search_goes_on_while_names_are_taken(name@, n);
    lemma_work_next(run, e0, CopyEvent::Exists(false), source, leftover);
    lemma_work_next(
        run,
        e0.push(CopyEvent::Exists(false)),
        CopyEvent::Copied(Ok(())),
        source,
        leftover,
    );
}

/// A file whose name and numbered names are all taken is copied under its own name.
pub proof fn law_file_is_copied_under_its_name_at_last<C>(
    run: CopyRun<C>,
    name: String,
    source: spec_fn(i64) -> C,
    leftover: Option<C>,
)
    requires
        run.job.stage is Locate,
        run.job.next < run.job.ids.len(),
    ensures
        work(
            run,
            taken_events(name, 9999).push(CopyEvent::Copied(Ok(()))),
            source,
            leftover,
        ).made == run.made.push((run.job.ids[run.job.next as int], name@)),
{
    lemma_taken(run, name, 9998, source, leftover);
    law_search_goes_on_while_names_are_taken(name@, 9999);
    lemma_work_next(run, taken_events(name, 9998), CopyEvent::Exists(true), source, leftover);
    lemma_work_next(
        run,
        taken_events(name, 9999),
        CopyEvent::Copied(Ok(())),
        source,
        leftover,
    );
}

/// As many successes as a batch needs to come to its change of file `n`.
pub open spec fn successes(n: nat) -> Seq<Result<(), String>> {
    Seq::new(n, |i: int| Ok::<(), String>(()))
}

proof fn lemma_batch_runs(ids: Seq<i64>, n: nat)
    requires
        n <= ids.len(),
    ensures
        batch_ran(new_batching(ids), successes(n + 1)).0 == (Batching {
            ids,
            next: n,
            stage: if n < ids.len() {
                BatchStage::Change
            } else {
                BatchStage::Commit
            },
            failure: None,
        }),
    decreases n,
{
    assert(successes(n + 1).drop_last() =~= successes(n));
    if n == 0 {
        assert(batch_ran(new_batching(ids), successes(0)).0 == new_batching(ids));
    } else {
        lemma_batch_runs(ids, (n - 1) as nat);
    }
}

/// A batch that meets no failure begins, changes its files one after the other, each by its
/// number, and commits: it is then over without a failure and all of its files are
/// changed.
pub proof fn law_smooth_batch_succeeds(ids: Seq<i64>)
    ensures
        ({
            let (j, open, kept) = batch_ran(new_batching(ids), successes(ids.len() + 2));
            j.stage is Over && j.failure is None && kept == ids
        }),
        forall|n: nat|
            n < ids.len() ==> batch_asked(
                (#[trigger] batch_ran(new_batching(ids), successes(n + 1))).0,
            ) == (BatchAction::Change { id: ids[n as int] }),
        batch_asked(new_batching(ids)) is Begin,
        batch_asked(batch_ran(new_batching(ids), successes(ids.len() + 1)).0) is Commit,
{
    assert forall|n: nat| n < ids.len() implies batch_asked(
        (#[trigger] batch_ran(new_batching(ids), successes(n + 1))).0,
    ) == (BatchAction::Change { id: ids[n as int] }) by {
        lemma_batch_runs(ids, n);
    }
    lemma_batch_runs(ids, ids.len());
    assert(successes(ids.len() + 2).drop_last() =~= successes(ids.len() + 1));
    law_batch_is_all_or_nothing(ids, successes(ids.len() + 2));
}

/// The first failure ends a batch with its message, and nothing changes a batch that is
/// over.
pub proof fn law_batch_failure_is_told(job: Batching, e: String, result: Result<(), String>)
    ensures
        !(job.stage is Over) ==> batch_stepped(job, Err(e)) == (Batching {
            stage: BatchStage::Over,
            failure: Some(e@),
            ..job
        }),
        job.stage is Over ==> batch_stepped(job, result) == job && batch_asked(job) is Stop,
{
}

/// A change of metadata in which everything goes well stores in the index, then in the
/// tags, and then, if the name is that of a wave file, in the iXML document; it is then
/// over without a failure. A file is a wave file by its extension, in any case.
pub proof fn law_smooth_update_succeeds(name: String, stem: Seq<char>, ext: Seq<char>)
    requires
        name@ == stem + seq!['.'] + ext,
        stem.len() > 0,
        is_free_of(ext, '.'),
    ensures
        ({
            let is_wave = lower(ext) == "wav"@ || lower(ext) == "wave"@;
            let located = update_stepped(new_updating(), UpdateEvent::Located(Ok(Some(name))));
            let stored = update_stepped(located, UpdateEvent::Stored(Ok(())));
            let tagged = update_stepped(stored, UpdateEvent::Tagged);
            &&& new_updating().stage is Locate && located.stage is Store && stored.stage is Tag
            &&& !is_wave ==> tagged.stage is Over && tagged.failure is None
            &&& is_wave ==> tagged.stage is Chunk && {
                let done = update_stepped(tagged, UpdateEvent::ChunkWritten(Ok(())));
                done.stage is Over && done.failure is None
            }
        }),
{
    law_wave_files_are_told_by_their_extension(stem, ext);
}

/// A file without a name or without an extension gets no iXML document.
pub proof fn law_update_of_a_bare_name(name: Option<String>)
    requires
        name matches Some(n) ==> is_free_of(n@, '.') || (n@[0] == '.' && is_free_of(
            n@.skip(1),
            '.',
        )),
    ensures
        ({
            let located = update_stepped(new_updating(), UpdateEvent::Located(Ok(name)));
            let stored = update_stepped(located, UpdateEvent::Stored(Ok(())));
            let tagged = update_stepped(stored, UpdateEvent::Tagged);
            tagged.stage is Over && tagged.failure is None
        }),
{
    match name {
        Some(n) => {
            law_name_without_extension(n@);
        },
        None => {
            law_name_without_extension(Seq::empty());
        },
    }
}

/// Whatever fails ends a change of metadata with its message: nothing is stored after
/// that. An event that is no answer changes nothing.
pub proof fn law_update_failures_are_told(job: Updating, e: String, event: UpdateEvent)
    ensures
        ({
            let failed = Updating { stage: UpdateStage::Over, failure: Some(e@), ..job };
            &&& job.stage is Locate ==> update_stepped(job, UpdateEvent::Located(Err(e))) == failed
            &&& job.stage is Store ==> update_stepped(job, UpdateEvent::Stored(Err(e))) == failed
            &&& job.stage is Chunk ==> update_stepped(job, UpdateEvent::ChunkWritten(Err(e)))
                == failed
            &&& !(match event {
                UpdateEvent::Located(_) => job.stage is Locate,
                UpdateEvent::Stored(_) => job.stage is Store,
                UpdateEvent::Tagged => job.stage is Tag,
                UpdateEvent::ChunkWritten(_) => job.stage is Chunk,
            }) ==> update_stepped(job, event) == job
        }),
{
}

} // verus!
