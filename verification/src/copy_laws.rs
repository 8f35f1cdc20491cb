//! Laws of a copy job over the contents of the folder that it copies into.
use crate::copies::{candidate, tried, NUMBER_LIMIT};
use crate::jobs::{copy_stepped, is_copying, new_copying, CopyEvent, CopyPoint, Copying};
use vstd::prelude::*;

verus! {

/// A copy job at work: the files in its folder by their names, whether the folder
/// was made, the numbers that were looked up, how many of them have a file name, and
/// the copies: the number of each file and the name of its copy. `C` is what a file
/// holds.
#[verifier::ext_equal]
#[verifier::reject_recursive_types(C)]
pub struct CopyRun<C> {
    pub job: Copying,
    pub folder: Map<Seq<char>, C>,
    pub made_folder: bool,
    pub asked: Seq<i64>,
    pub found: nat,
    pub made: Seq<(i64, Seq<char>)>,
}

/// A copy job before its first step.
pub open spec fn new_run<C>(ids: Seq<i64>, folder: Map<Seq<char>, C>) -> CopyRun<C> {
    CopyRun {
        job: new_copying(ids),
        folder,
        made_folder: false,
        asked: Seq::empty(),
        found: 0,
        made: Seq::empty(),
    }
}

/// A copy job at work after its action led to `event`. `source` is what the file
/// with a number holds; `leftover` is what a copy that fails leaves under its name,
/// if it leaves anything.
pub open spec fn worked<C>(
    run: CopyRun<C>,
    event: CopyEvent,
    source: spec_fn(i64) -> C,
    leftover: Option<C>,
) -> CopyRun<C> {
    let next = CopyRun { job: copy_stepped(run.job, event), ..run };
    match (run.job.stage, event) {
        (CopyPoint::Folder, CopyEvent::MadeFolder(Ok(_))) => CopyRun { made_folder: true, ..next },
        (CopyPoint::Locate, CopyEvent::Located(Ok(name))) => if run.job.next < run.job.ids.len() {
            CopyRun {
                asked: run.asked.push(run.job.ids[run.job.next as int]),
                found: if name is Some {
                    run.found + 1
                } else {
                    run.found
                },
                ..next
            }
        } else {
            next
        },
        (CopyPoint::Copy(s), CopyEvent::Copied(Ok(_))) => {
            let id = run.job.ids[run.job.next as int];
            CopyRun {
                folder: run.folder.insert(tried(s), source(id)),
                made: run.made.push((id, tried(s))),
                ..next
            }
        },
        (CopyPoint::Copy(s), CopyEvent::Copied(Err(_))) => match leftover {
            Some(c) => CopyRun { folder: run.folder.insert(tried(s), c), ..next },
            None => next,
        },
        _ => next,
    }
}

/// A copy job at work after a run of events.
pub open spec fn work<C>(
    run: CopyRun<C>,
    events: Seq<CopyEvent>,
    source: spec_fn(i64) -> C,
    leftover: Option<C>,
) -> CopyRun<C>
    decreases events.len(),
{
    if events.len() == 0 {
        run
    } else {
        worked(work(run, events.drop_last(), source, leftover), events.last(), source, leftover)
    }
}

/// Whatever the events, a copy job reports as many files as it has copied, and when it
/// is over without a failure it has gone through all numbers.
pub proof fn law_copy_job_counts_its_copies<C>(
    ids: Seq<i64>,
    before: Map<Seq<char>, C>,
    events: Seq<CopyEvent>,
    source: spec_fn(i64) -> C,
    leftover: Option<C>,
)
    ensures
        ({
            let run = work(new_run(ids, before), events, source, leftover);
            &&& run.job.ids == ids
            &&& is_copying(run.job)
            &&& run.job.copied == run.made.len()
            &&& run.job.stage == CopyPoint::Over(None) ==> run.job.next == ids.len()
        }),
    decreases events.len(),
{
    if events.len() > 0 {
        law_copy_job_counts_its_copies(ids, before, events.drop_last(), source, leftover);
    }
}

/// The file name, or the name with one of the numbers, is free.
pub open spec fn has_room(taken: Set<Seq<char>>, name: Seq<char>) -> bool {
    exists|n: nat| 1 <= n < NUMBER_LIMIT && !taken.contains(#[trigger] candidate(name, n))
}

/// An event that is true of the folder: a name exists if the folder holds it, and
/// there is room for a file when its turn comes.
pub open spec fn is_true<C>(run: CopyRun<C>, event: CopyEvent) -> bool {
    match (run.job.stage, event) {
        (CopyPoint::Probe(s), CopyEvent::Exists(exists)) => exists == run.folder.dom().contains(
            tried(s),
        ),
        (CopyPoint::Locate, CopyEvent::Located(Ok(Some(name)))) => has_room(
            run.folder.dom(),
            name@,
        ),
        _ => true,
    }
}

/// Events each of which is true of the folder at its time.
pub open spec fn are_true<C>(
    run: CopyRun<C>,
    events: Seq<CopyEvent>,
    source: spec_fn(i64) -> C,
    leftover: Option<C>,
) -> bool
    decreases events.len(),
{
    events.len() == 0 || (are_true(run, events.drop_last(), source, leftover) && is_true(
        work(run, events.drop_last(), source, leftover),
        events.last(),
    ))
}

/// The names in the folder that were not there before.
pub open spec fn new_names<C>(before: Map<Seq<char>, C>, after: Map<Seq<char>, C>) -> Set<
    Seq<char>,
> {
    after.dom().difference(before.dom())
}

/// Every file that was there before is there and holds what it held.
pub open spec fn is_kept<C>(before: Map<Seq<char>, C>, after: Map<Seq<char>, C>) -> bool {
    forall|name: Seq<char>| #[trigger]
        before.dom().contains(name) ==> after.dom().contains(name) && after[name] == before[name]
}

/// Every copy is there under a name that was not there before, and holds what its
/// source holds.
pub open spec fn are_copies<C>(
    before: Map<Seq<char>, C>,
    run: CopyRun<C>,
    source: spec_fn(i64) -> C,
) -> bool {
    forall|i: int|
        0 <= i < run.made.len() ==> {
            let (id, name) = #[trigger] run.made[i];
            !before.dom().contains(name) && run.folder.dom().contains(name) && run.folder[name]
                == source(id)
        }
}

/// What a copy job has done in each of its stages.
spec fn is_on_course<C>(
    before: Map<Seq<char>, C>,
    ids: Seq<i64>,
    run: CopyRun<C>,
    source: spec_fn(i64) -> C,
) -> bool {
    let job = run.job;
    &&& job.ids == ids
    &&& is_copying(job)
    &&& is_kept(before, run.folder)
    &&& are_copies(before, run, source)
    &&& match job.stage {
        CopyPoint::Over(Some(_)) => true,
        _ => new_names(before, run.folder).finite() && new_names(before, run.folder).len()
            == job.copied,
    }
    &&& match job.stage {
        CopyPoint::Folder => run.folder == before && run.asked.len() == 0 && run.found == 0
            && job.copied == 0,
        CopyPoint::Locate => run.made_folder && run.asked == ids.take(job.next as int) && run.found
            == job.copied,
        CopyPoint::Probe(s) => run.made_folder && run.asked == ids.take(job.next as int + 1) && run.found
            == job.copied + 1 && has_room(run.folder.dom(), s.name) && forall|n: nat|
            1 <= n < s.number ==> run.folder.dom().contains(#[trigger] candidate(s.name, n)),
        CopyPoint::Copy(s) => run.made_folder && run.asked == ids.take(job.next as int + 1) && run.found
            == job.copied + 1 && !run.folder.dom().contains(tried(s)),
        CopyPoint::Over(None) => run.made_folder && run.asked == ids && run.found == job.copied,
        CopyPoint::Over(Some(_)) => true,
    }
}

/// A copy under a free name keeps what is there and adds one name.
proof fn lemma_copied<C>(
    before: Map<Seq<char>, C>,
    run: CopyRun<C>,
    source: spec_fn(i64) -> C,
    name: Seq<char>,
    content: C,
)
    requires
        is_kept(before, run.folder),
        are_copies(before, run, source),
        !run.folder.dom().contains(name),
    ensures
        is_kept(before, run.folder.insert(name, content)),
        are_copies(before, CopyRun { folder: run.folder.insert(name, content), ..run }, source),
        !before.dom().contains(name),
        new_names(before, run.folder).finite() ==> new_names(
            before,
            run.folder.insert(name, content),
        ).finite() && new_names(before, run.folder.insert(name, content)).len() == new_names(
            before,
            run.folder,
        ).len() + 1,
{
    let after = run.folder.insert(name, content);
    assert(!before.dom().contains(name));
    assert(new_names(before, after) =~= new_names(before, run.folder).insert(name));
    let more = CopyRun { folder: after, ..run };
    assert forall|i: int| 0 <= i < more.made.len() implies {
        let (id, n) = #[trigger] more.made[i];
        !before.dom().contains(n) && more.folder.dom().contains(n) && more.folder[n] == source(id)
    } by {
        assert(run.made[i] == more.made[i]);
    }
}

/// A true event keeps a copy job on course.
proof fn lemma_worked<C>(
    before: Map<Seq<char>, C>,
    ids: Seq<i64>,
    run: CopyRun<C>,
    event: CopyEvent,
    source: spec_fn(i64) -> C,
    leftover: Option<C>,
)
    requires
        is_on_course(before, ids, run, source),
        is_true(run, event),
    ensures
        is_on_course(before, ids, worked(run, event, source, leftover), source),
{
    let next = worked(run, event, source, leftover);
    let job = run.job;
    match (job.stage, event) {
        (CopyPoint::Folder, CopyEvent::MadeFolder(Ok(_))) => {
            assert(ids.take(0) =~= run.asked);
            assert(ids.len() == 0 ==> ids =~= run.asked);
        },
        (CopyPoint::Locate, CopyEvent::Located(Ok(name))) => {
            if job.next < ids.len() {
                assert(next.asked =~= ids.take(job.next as int + 1));
                if job.next + 1 == ids.len() {
                    assert(ids.take(job.next as int + 1) =~= ids);
                }
            }
        },
        (CopyPoint::Probe(s), CopyEvent::Exists(exists)) => {
            let taken = run.folder.dom();
            if exists {
                assert(taken.contains(candidate(s.name, s.number)));
                if s.number + 1 >= NUMBER_LIMIT {
                    let n = choose|n: nat|
                        1 <= n < NUMBER_LIMIT && !taken.contains(#[trigger] candidate(s.name, n));
                    assert(n < s.number || n == s.number);
                }
            }
        },
        (CopyPoint::Copy(s), CopyEvent::Copied(Ok(_))) => {
            let id = job.ids[job.next as int];
            lemma_copied(before, run, source, tried(s), source(id));
            let kept = CopyRun { folder: next.folder, ..run };
            assert forall|i: int| 0 <= i < next.made.len() implies {
                let (id, n) = #[trigger] next.made[i];
                !before.dom().contains(n) && next.folder.dom().contains(n) && next.folder[n]
                    == source(id)
            } by {
                if i < kept.made.len() {
                    assert(kept.made[i] == next.made[i]);
                }
            }
            if job.next + 1 == ids.len() {
                assert(ids.take(job.next as int + 1) =~= ids);
            }
        },
        (CopyPoint::Copy(s), CopyEvent::Copied(Err(_))) => {
            if let Some(c) = leftover {
                lemma_copied(before, run, source, tried(s), c);
                let kept = CopyRun { folder: next.folder, ..run };
                assert(kept.made == next.made);
                assert forall|i: int| 0 <= i < next.made.len() implies {
                    let (id, n) = #[trigger] next.made[i];
                    !before.dom().contains(n) && next.folder.dom().contains(n) && next.folder[n]
                        == source(id)
                } by {
                    assert(kept.made[i] == next.made[i]);
                }
            }
        },
        _ => {},
    }
}

/// Every run of true events keeps a copy job on course.
proof fn lemma_work<C>(
    before: Map<Seq<char>, C>,
    ids: Seq<i64>,
    events: Seq<CopyEvent>,
    source: spec_fn(i64) -> C,
    leftover: Option<C>,
)
    requires
        are_true(new_run(ids, before), events, source, leftover),
    ensures
        is_on_course(before, ids, work(new_run(ids, before), events, source, leftover), source),
    decreases events.len(),
{
    let start = new_run(ids, before);
    if events.len() == 0 {
        assert(new_names(before, before) =~= Set::empty());
    } else {
        lemma_work(before, ids, events.drop_last(), source, leftover);
        lemma_worked(
            before,
            ids,
            work(start, events.drop_last(), source, leftover),
            events.last(),
            source,
            leftover,
        );
    }
}

/// A copy job overwrites no file: where there is room for every file that it copies,
/// each file that was in the folder keeps what it holds, whether the job succeeds,
/// fails or is still at work, and every copy that was made stays and holds what its
/// source holds.
pub proof fn law_copy_job_overwrites_nothing<C>(
    ids: Seq<i64>,
    before: Map<Seq<char>, C>,
    events: Seq<CopyEvent>,
    source: spec_fn(i64) -> C,
    leftover: Option<C>,
)
    requires
        are_true(new_run(ids, before), events, source, leftover),
    ensures
        ({
            let run = work(new_run(ids, before), events, source, leftover);
            &&& is_kept(before, run.folder)
            &&& are_copies(before, run, source)
        }),
{
    lemma_work(before, ids, events, source, leftover);
}

/// A copy job that succeeds has made the folder, has looked up every number, repeats
/// included, and has added as many new files to the folder as it reports: one for
/// each number that the index knows with a file name.
pub proof fn law_copy_job_makes_new_files<C>(
    ids: Seq<i64>,
    before: Map<Seq<char>, C>,
    events: Seq<CopyEvent>,
    source: spec_fn(i64) -> C,
    leftover: Option<C>,
)
    requires
        are_true(new_run(ids, before), events, source, leftover),
        work(new_run(ids, before), events, source, leftover).job.stage == CopyPoint::Over(None),
    ensures
        ({
            let run = work(new_run(ids, before), events, source, leftover);
            &&& run.made_folder
            &&& run.asked == ids
            &&& run.job.copied == run.found
            &&& new_names(before, run.folder).finite()
            &&& new_names(before, run.folder).len() == run.job.copied
        }),
{
    lemma_work(before, ids, events, source, leftover);
}

} // verus!
