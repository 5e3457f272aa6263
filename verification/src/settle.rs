//! What a transaction on inline rows does once they are in: steps in turn, up to its
//! commit. A step that fails rolls all of it back.
use crate::stream::WatermarkAdvance;
use crate::types::NewJob;
use vstd::prelude::*;

verus! {

/// What a view commits along with a batch of its output: how far it has read its
/// source in each bucket, and the run that is done with it.
#[derive(Debug)]
pub struct MvCommit {
    pub mv: String,
    pub source_table_id: i64,
    pub advances: Vec<WatermarkAdvance>,
    pub run_id: Option<u128>,
}

/// A step of a transaction.
#[derive(Debug)]
pub enum SettleStep {
    /// Move the view's mark in a bucket of its source, provided that it stands where
    /// the advance begins.
    Advance { advance: WatermarkAdvance },
    /// Mark the run as succeeded with this snapshot, or with the transaction's own.
    MarkRun { run: u128, snapshot: Option<i64> },
    /// Queue this job and arm the table's trigger.
    Queue { job: NewJob },
    /// Mark the table as changed in line.
    MarkShadow,
    /// Record the lineage.
    Emit,
    /// Queue the write's own job of this place, unless the same one is waiting.
    Enqueue { index: usize },
    /// Fire the table's data triggers for this run.
    Fire { run: u128 },
    /// Wake the subscribers.
    Notify,
    /// Commit.
    Commit,
}

/// What a view's commit does: every mark moves, then the run is done.
pub open spec fn mv_marks(mv: MvCommit, snapshot: Option<i64>) -> Seq<SettleStep> {
    let moves = Seq::new(mv.advances@.len(), |i: int| SettleStep::Advance { advance: mv.advances@[i] });
    match mv.run_id {
        Some(run) => moves.push(SettleStep::MarkRun { run, snapshot }),
        None => moves,
    }
}

/// What a view's commit does, where there is one.
pub open spec fn marks_of(mv: Option<MvCommit>) -> Seq<SettleStep> {
    match mv {
        Some(m) => mv_marks(m, None),
        None => Seq::empty(),
    }
}

/// The write's own jobs, in turn.
pub open spec fn enqueues(n: nat) -> Seq<SettleStep> {
    Seq::new(n, |i: int| SettleStep::Enqueue { index: i as usize })
}

/// How an append closes.
pub open spec fn append_close(run: u128, jobs: nat) -> Seq<SettleStep> {
    seq![SettleStep::Emit] + enqueues(jobs) + seq![SettleStep::Fire { run }, SettleStep::Commit]
}

/// How a change closes.
pub open spec fn change_close(run: u128, jobs: nat, wakes: bool) -> Seq<SettleStep> {
    let tail = if wakes {
        seq![SettleStep::Notify, SettleStep::Commit]
    } else {
        seq![SettleStep::Commit]
    };
    seq![SettleStep::MarkShadow, SettleStep::Emit, SettleStep::Fire { run }] + enqueues(jobs) + tail
}

/// The job that the steps begin with, where they do.
pub open spec fn queued_job(steps: Seq<SettleStep>) -> Option<NewJob> {
    if steps.len() > 0 && steps[0] is Queue {
        Some(steps[0]->job)
    } else {
        None
    }
}

/// The steps are `close`, behind a job where there is one.
pub open spec fn closes(steps: Seq<SettleStep>, close: Seq<SettleStep>) -> bool {
    steps == (match queued_job(steps) {
        Some(job) => seq![SettleStep::Queue { job }] + close,
        None => close,
    })
}

/// What a view's commit does.
pub(crate) fn mv_steps(mv: &MvCommit, snapshot: Option<i64>) -> (r: Vec<SettleStep>)
    ensures
        r@ == mv_marks(*mv, snapshot),
{
    let mut out: Vec<SettleStep> = Vec::new();
    let mut i: usize = 0;
    while i < mv.advances.len()
        invariant
            i <= mv.advances@.len(),
            out@ =~= Seq::new(i as nat, |k: int| SettleStep::Advance { advance: mv.advances@[k] }),
        decreases mv.advances@.len() - i,
    {
        out.push(SettleStep::Advance { advance: mv.advances[i] });
        i = i + 1;
    }
    match mv.run_id {
        Some(run) => out.push(SettleStep::MarkRun { run, snapshot }),
        None => {},
    }
    out
}

/// What a view does that has read of its source and has nothing to write: its marks
/// move all the same, or it would read the same again for ever. The run is done with
/// no snapshot of its own.
pub fn advance_mv_watermark_only(mv: &MvCommit) -> (r: Vec<SettleStep>)
    ensures
        r@ == mv_marks(*mv, Some(0i64)).push(SettleStep::Commit),
{
    let mut out: Vec<SettleStep> = mv_steps(mv, Some(0));
    out.push(SettleStep::Commit);
    out
}

fn push_enqueues(steps: &mut Vec<SettleStep>, jobs: usize)
    ensures
        final(steps)@ == old(steps)@ + enqueues(jobs as nat),
{
    let mut i: usize = 0;
    while i < jobs
        invariant
            i <= jobs,
            steps@ =~= old(steps)@ + enqueues(i as nat),
        decreases jobs - i,
    {
        steps.push(SettleStep::Enqueue { index: i });
        i = i + 1;
    }
}

/// How an append ends, with the job that it queues.
pub(crate) fn append_steps(job: Option<NewJob>, run: u128, jobs: usize) -> (r: Vec<SettleStep>)
    ensures
        queued_job(r@) == job,
        closes(r@, append_close(run, jobs as nat)),
{
    let mut out: Vec<SettleStep> = Vec::new();
    let ghost queued = job;
    match job {
        Some(job) => out.push(SettleStep::Queue { job }),
        None => {},
    }
    out.push(SettleStep::Emit);
    push_enqueues(&mut out, jobs);
    out.push(SettleStep::Fire { run });
    out.push(SettleStep::Commit);
    assert(queued is Some ==> out@[0] == (SettleStep::Queue { job: queued->0 }));
    assert(queued is None ==> out@[0] is Emit);
    assert(out@ =~= (match queued_job(out@) {
        Some(j) => seq![SettleStep::Queue { job: j }] + append_close(run, jobs as nat),
        None => append_close(run, jobs as nat),
    }));
    out
}

/// How a change ends, with the job that it queues.
pub(crate) fn change_steps(job: Option<NewJob>, run: u128, jobs: usize, wakes: bool) -> (r: Vec<
    SettleStep,
>)
    ensures
        queued_job(r@) == job,
        closes(r@, change_close(run, jobs as nat, wakes)),
{
    let mut out: Vec<SettleStep> = Vec::new();
    let ghost queued = job;
    match job {
        Some(job) => out.push(SettleStep::Queue { job }),
        None => {},
    }
    out.push(SettleStep::MarkShadow);
    out.push(SettleStep::Emit);
    out.push(SettleStep::Fire { run });
    push_enqueues(&mut out, jobs);
    if wakes {
        out.push(SettleStep::Notify);
    }
    out.push(SettleStep::Commit);
    assert(queued is Some ==> out@[0] == (SettleStep::Queue { job: queued->0 }));
    assert(queued is None ==> out@[0] is MarkShadow);
    assert(out@ =~= (match queued_job(out@) {
        Some(j) => seq![SettleStep::Queue { job: j }] + change_close(run, jobs as nat, wakes),
        None => change_close(run, jobs as nat, wakes),
    }));
    out
}

/// Nothing is done behind the commit: an append ends with it, and has no other.
pub proof fn law_append_commits_last(steps: Seq<SettleStep>, run: u128, jobs: nat)
    requires
        closes(steps, append_close(run, jobs)),
    ensures
        steps.last() is Commit,
        forall|i: int| 0 <= i < steps.len() - 1 ==> !((#[trigger] steps[i]) is Commit),
{
}

/// Nothing is done behind the commit: a change ends with it, and has no other.
pub proof fn law_change_commits_last(steps: Seq<SettleStep>, run: u128, jobs: nat, wakes: bool)
    requires
        closes(steps, change_close(run, jobs, wakes)),
    ensures
        steps.last() is Commit,
        forall|i: int| 0 <= i < steps.len() - 1 ==> !((#[trigger] steps[i]) is Commit),
{
}

/// A view that has nothing to write moves every mark that one with output moves.
pub proof fn law_marks_move_without_output(mv: MvCommit, i: int)
    requires
        0 <= i < mv.advances@.len(),
    ensures
        marks_of(Some(mv))[i] == (SettleStep::Advance { advance: mv.advances@[i] }),
        mv_marks(mv, Some(0i64)).push(SettleStep::Commit)[i] == marks_of(Some(mv))[i],
{
}

} // verus!
