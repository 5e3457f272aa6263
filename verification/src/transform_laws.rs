//! What holds of transforms and their runs: how a run goes through its states, and what
//! its outcome leaves behind.
use crate::error::ControlPlaneError;
use crate::memory::ControlPlaneView;
use crate::transforms::{
    body_types, finished, first_unknown, newer, run_of, runs_listed, started, submitted,
    transform_defined, transform_deleted, with_outcome,
};
use crate::types::{NewJob, RunOutcome, RunState, TransformBody, TransformDef, TransformRun};
use vstd::prelude::*;

verus! {

/// A run that failed is shown as failed, with the error and the instant that were given.
pub proof fn law_failed_run_is_failed(
    pre: ControlPlaneView,
    post: ControlPlaneView,
    run_id: u128,
    error: String,
    now: i128,
    r: Result<(), ControlPlaneError>,
)
    requires
        pre.runs.dom().contains(run_id as int),
        finished(pre, post, run_id, RunOutcome::Failed { error }, now, r),
    ensures
        r is Ok,
        post.runs.dom() == pre.runs.dom(),
        post.runs[run_id as int].state is Failed,
        post.runs[run_id as int].error == Some(error),
        post.runs[run_id as int].finished_at == Some(now),
        post.runs[run_id as int].snapshot_id == pre.runs[run_id as int].snapshot_id,
        post.runs[run_id as int].started_at == pre.runs[run_id as int].started_at,
{
    assert(post.runs.dom() =~= pre.runs.dom());
}

/// A run that succeeded is shown as succeeded, with the snapshot it made and the instant
/// that were given; an error that an earlier attempt left stays.
pub proof fn law_successful_run_has_succeeded(
    pre: ControlPlaneView,
    post: ControlPlaneView,
    run_id: u128,
    snapshot_id: i64,
    now: i128,
    r: Result<(), ControlPlaneError>,
)
    requires
        pre.runs.dom().contains(run_id as int),
        finished(pre, post, run_id, RunOutcome::Succeeded { snapshot_id }, now, r),
    ensures
        r is Ok,
        post.runs.dom() == pre.runs.dom(),
        post.runs[run_id as int].state is Succeeded,
        post.runs[run_id as int].snapshot_id == Some(snapshot_id),
        post.runs[run_id as int].finished_at == Some(now),
        post.runs[run_id as int].error == pre.runs[run_id as int].error,
        post.runs[run_id as int].started_at == pre.runs[run_id as int].started_at,
{
    assert(post.runs.dom() =~= pre.runs.dom());
}

/// A run that is to be tried again is queued once more, with the error of the attempt; it
/// is not over and has made nothing.
pub proof fn law_retried_run_is_queued(
    pre: ControlPlaneView,
    post: ControlPlaneView,
    run_id: u128,
    error: String,
    now: i128,
    r: Result<(), ControlPlaneError>,
)
    requires
        pre.runs.dom().contains(run_id as int),
        finished(pre, post, run_id, RunOutcome::RetryQueued { error }, now, r),
    ensures
        r is Ok,
        post.runs.dom() == pre.runs.dom(),
        post.runs[run_id as int].state is Queued,
        post.runs[run_id as int].error == Some(error),
        post.runs[run_id as int].finished_at == pre.runs[run_id as int].finished_at,
        post.runs[run_id as int].snapshot_id == pre.runs[run_id as int].snapshot_id,
        post.runs[run_id as int].started_at == pre.runs[run_id as int].started_at,
{
    assert(post.runs.dom() =~= pre.runs.dom());
}

/// Only the outcome of success leaves a run in the state of success, only that of failure
/// in the state of failure, and none leaves it running.
pub proof fn law_outcome_decides_the_state(
    pre: ControlPlaneView,
    post: ControlPlaneView,
    run_id: u128,
    o: RunOutcome,
    now: i128,
    r: Result<(), ControlPlaneError>,
)
    requires
        pre.runs.dom().contains(run_id as int),
        finished(pre, post, run_id, o, now, r),
    ensures
        post.runs[run_id as int].state is Succeeded <==> o is Succeeded,
        post.runs[run_id as int].state is Failed <==> o is Failed,
        post.runs[run_id as int].state is Queued <==> o is RetryQueued,
{
}

/// Whatever its outcome, a run keeps its number, its transform, what started it, what it
/// runs and when it was queued; every other run stays as it was, and so does all the rest.
pub proof fn law_outcome_changes_only_the_run(
    pre: ControlPlaneView,
    post: ControlPlaneView,
    run_id: u128,
    o: RunOutcome,
    now: i128,
    r: Result<(), ControlPlaneError>,
    other: int,
)
    requires
        finished(pre, post, run_id, o, now, r),
    ensures
        r is Ok <==> pre.runs.dom().contains(run_id as int),
        r is Err ==> post == pre && r->Err_0@ is NotFound,
        r is Ok ==> {
            let (was, is) = (pre.runs[run_id as int], post.runs[run_id as int]);
            &&& is.run_id == was.run_id
            &&& is.transform == was.transform
            &&& is.trigger == was.trigger
            &&& is.body == was.body
            &&& is.queued_at == was.queued_at
        },
        other != run_id ==> post.runs[other] == pre.runs[other] && post.runs.dom().contains(other)
            == pre.runs.dom().contains(other),
        post == (ControlPlaneView { runs: post.runs, ..pre }),
{
}

/// A run whose start is marked is running, since the instant that was given, and is
/// otherwise as it was; the start of a run that is not there is an error.
pub proof fn law_started_run_is_running(
    pre: ControlPlaneView,
    post: ControlPlaneView,
    run_id: u128,
    now: i128,
    r: Result<(), ControlPlaneError>,
    other: int,
)
    requires
        started(pre, post, run_id, now, r),
    ensures
        r is Ok <==> pre.runs.dom().contains(run_id as int),
        r is Err ==> post == pre && r->Err_0@ is NotFound,
        r is Ok ==> {
            let (was, is) = (pre.runs[run_id as int], post.runs[run_id as int]);
            &&& is.state is Running
            &&& is.started_at == Some(now)
            &&& is.run_id == was.run_id
            &&& is.transform == was.transform
            &&& is.trigger == was.trigger
            &&& is.body == was.body
            &&& is.queued_at == was.queued_at
            &&& is.finished_at == was.finished_at
            &&& is.snapshot_id == was.snapshot_id
            &&& is.error == was.error
        },
        other != run_id ==> post.runs[other] == pre.runs[other] && post.runs.dom().contains(other)
            == pre.runs.dom().contains(other),
        post == (ControlPlaneView { runs: post.runs, ..pre }),
{
}

/// A submitted run is there as it was handed in, and its job waits at the end of the
/// queue under its number; no other run and no other job changes.
pub proof fn law_submitted_run_has_its_job(
    pre: ControlPlaneView,
    post: ControlPlaneView,
    run: TransformRun,
    job: NewJob,
    job_id: u128,
    now: i128,
    other: int,
)
    requires
        submitted(pre, post, run, job, job_id, now),
    ensures
        post.runs.dom().contains(run.run_id as int),
        post.runs[run.run_id as int] == run,
        other != run.run_id ==> post.runs[other] == pre.runs[other] && post.runs.dom().contains(other)
            == pre.runs.dom().contains(other),
        post.rows.len() == pre.rows.len() + 1,
        post.rows.drop_last() == pre.rows,
        post.rows.last().id == job_id,
        post.rows.last().kind == job.kind,
        post.rows.last().payload == job.payload,
        post.rows.last().priority == job.priority,
        post.rows.last().state is Available,
        post == (ControlPlaneView { rows: post.rows, runs: post.runs, ..pre }),
{
    assert(post.rows.drop_last() =~= pre.rows);
}

/// Runs are listed from the last queued to the first, and of two queued at one instant the
/// one with the larger number comes first; a list for a transform holds each of its runs
/// and no other.
pub proof fn law_runs_are_listed_newest_first(
    runs: Map<int, TransformRun>,
    transform: Option<&str>,
    list: Seq<&TransformRun>,
    i: int,
    j: int,
    id: int,
)
    requires
        runs_listed(runs, transform, list),
        0 <= i < j < list.len(),
    ensures
        list[i].queued_at >= list[j].queued_at,
        list[i].queued_at == list[j].queued_at ==> list[i].run_id > list[j].run_id,
        transform matches Some(t) ==> list[i].transform is Some && (list[i].transform->0)@ == t@,
        runs[list[i].run_id as int] == *list[i],
        runs.dom().contains(id) && (transform is None || (runs[id].transform is Some && (
        runs[id].transform->0)@ == (transform->0)@)) ==> exists|k: int|
            0 <= k < list.len() && *(#[trigger] list[k]) == runs[id],
{
    assert(newer(*list[i], *list[j]));
    assert(run_of(*list[i], transform));
    if runs.dom().contains(id) && (transform is None || (runs[id].transform is Some && (
    runs[id].transform->0)@ == (transform->0)@)) {
        assert(run_of(runs[id], transform));
    }
}

/// A transform is kept under its own name where it is valid and every ontology type that
/// it reads or writes is there; otherwise nothing changes, and the caller learns why.
pub proof fn law_transform_names_known_types(
    pre: ControlPlaneView,
    post: ControlPlaneView,
    def: TransformDef,
    valid: Result<(), ControlPlaneError>,
    r: Result<(), ControlPlaneError>,
    other: Seq<char>,
)
    requires
        transform_defined(pre, post, def, valid, r),
    ensures
        valid is Err ==> r == Err::<(), ControlPlaneError>(valid->Err_0),
        r is Err ==> post == pre,
        r is Ok ==> post.defs.dom().contains(def.name@) && post.defs[def.name@] == def,
        r is Ok ==> (def.body matches TransformBody::Typed { inputs, output, text } ==> {
            &&& pre.ontology.types.dom().contains(output@)
            &&& forall|i: int|
                0 <= i < inputs@.len() ==> pre.ontology.types.dom().contains(
                    (#[trigger] inputs@[i])@,
                )
        }),
        valid is Ok && def.body is Physical ==> r is Ok,
        valid is Ok && (def.body matches TransformBody::Typed { inputs, output, text }
            && pre.ontology.types.dom().contains(output@) && (forall|i: int|
            0 <= i < inputs@.len() ==> pre.ontology.types.dom().contains((#[trigger] inputs@[i])@)))
            ==> r is Ok,
        other != def.name@ ==> post.defs[other] == pre.defs[other] && post.defs.dom().contains(other)
            == pre.defs.dom().contains(other),
        post == (ControlPlaneView { defs: post.defs, ..pre }),
{
    let names = body_types(def.body);
    let types = pre.ontology.types;
    lemma_first_unknown(names, types);
    match def.body {
        TransformBody::Typed { inputs, output, .. } => {
            assert(names[names.len() - 1] == output@);
            assert forall|i: int| 0 <= i < inputs@.len() implies #[trigger] inputs@[i]@ == names[i] by {}
            if types.dom().contains(output@) && (forall|i: int|
                0 <= i < inputs@.len() ==> types.dom().contains((#[trigger] inputs@[i])@)) {
                assert forall|k: int| 0 <= k < names.len() implies types.dom().contains(
                    #[trigger] names[k],
                ) by {
                    if k < inputs@.len() {
                        assert(names[k] == inputs@[k]@);
                    }
                }
            }
        },
        TransformBody::Physical { .. } => {},
    }
}

proof fn lemma_first_unknown(names: Seq<Seq<char>>, types: Map<Seq<char>, crate::types::ObjectType>)
    ensures
        first_unknown(names, types) is None <==> forall|k: int|
            0 <= k < names.len() ==> types.dom().contains(#[trigger] names[k]),
    decreases names.len(),
{
    if names.len() > 0 {
        let rest = names.skip(1);
        lemma_first_unknown(rest, types);
        if types.dom().contains(names[0]) {
            if first_unknown(rest, types) is None {
                assert forall|k: int| 0 <= k < names.len() implies types.dom().contains(
                    #[trigger] names[k],
                ) by {
                    if k > 0 {
                        assert(rest[k - 1] == names[k]);
                    }
                }
            } else {
                let k = choose|k: int|
                    0 <= k < rest.len() && !types.dom().contains(#[trigger] rest[k]);
                assert(names[k + 1] == rest[k]);
            }
        }
    }
}

/// A deleted transform is gone, and no other is; its runs stay.
pub proof fn law_deleted_transform_is_gone(
    pre: ControlPlaneView,
    post: ControlPlaneView,
    name: Seq<char>,
    other: Seq<char>,
)
    requires
        transform_deleted(pre, post, name),
    ensures
        !post.defs.dom().contains(name),
        other != name ==> post.defs[other] == pre.defs[other] && post.defs.dom().contains(other)
            == pre.defs.dom().contains(other),
        post.runs == pre.runs,
        post == (ControlPlaneView { defs: post.defs, ..pre }),
{
}

/// The outcome of success is final in what it says: recorded twice, the last snapshot and
/// the last instant stand.
pub proof fn law_last_outcome_stands(run: TransformRun, a: i64, b: i64, first: i128, last: i128)
    ensures
        ({
            let once = with_outcome(run, RunOutcome::Succeeded { snapshot_id: a }, first);
            let twice = with_outcome(once, RunOutcome::Succeeded { snapshot_id: b }, last);
            twice.state == RunState::Succeeded && twice.snapshot_id == Some(b) && twice.finished_at
                == Some(last)
        }),
{
}

} // verus!
