//! What holds of the queue across its operations: which job a worker is handed, what a
//! failure or a heartbeat changes, and when a schedule puts its job in the queue.
use crate::error::ControlPlaneError;
use crate::memory::{ControlPlaneView, MemoryControlPlane};
use crate::queue::{
    beaten, completed, dequeued, due_batch, due_names, eligible, enqueued, failed, fire_first,
    fire_one, fired_list, first_numbered, good_before, is_next, schedule_defined, schedule_deleted,
    schedules_fired, waiting, without_job, Job, JobSchedule, RetryPolicy, Row, ScheduleFired,
    ScheduleFiring,
};
use crate::text::holds;
use crate::types::NewJob;
use vstd::prelude::*;

verus! {

/// An enqueued job stands at the end of the queue as it was handed in: waiting, never
/// tried, due when it says or else at once. Nothing else changes.
pub proof fn law_enqueued_job_waits_at_the_end(
    pre: ControlPlaneView,
    post: ControlPlaneView,
    job: NewJob,
    id: u128,
    now: i128,
)
    requires
        enqueued(pre, post, job, id, now),
    ensures
        post.rows.len() == pre.rows.len() + 1,
        post.rows.drop_last() == pre.rows,
        post.rows.last().id == id,
        post.rows.last().kind == job.kind,
        post.rows.last().payload == job.payload,
        post.rows.last().priority == job.priority,
        post.rows.last().state is Available,
        post.rows.last().attempts == 0,
        post.rows.last().locked_at is None,
        job.run_at is None ==> post.rows.last().run_at == now,
        job.run_at is Some ==> post.rows.last().run_at == job.run_at->0,
        post == (ControlPlaneView { rows: post.rows, ..pre }),
{
    assert(post.rows.drop_last() =~= pre.rows);
}

/// A worker is handed a job of a kind it asks for, that is due, and that waits or was
/// taken by a worker that has been silent for longer than the timeout. No other job that
/// could be handed out has a higher priority; of those with the same priority none is due
/// earlier, and of those due at the same instant none was enqueued earlier.
pub proof fn law_dequeue_takes_the_first(
    pre: ControlPlaneView,
    post: ControlPlaneView,
    kinds: Seq<String>,
    now: i128,
    job: Job,
    j: int,
) -> (i: int)
    requires
        dequeued(pre, post, kinds, now, Some(job)),
    ensures
        0 <= i < pre.rows.len(),
        job.id == pre.rows[i].id,
        job.kind == pre.rows[i].kind,
        job.payload == pre.rows[i].payload,
        job.run_at == pre.rows[i].run_at,
        holds(kinds, pre.rows[i].kind@),
        pre.rows[i].run_at <= now,
        pre.rows[i].state is Available || (pre.rows[i].state is Running && (pre.rows[i].locked_at is None
            || pre.rows[i].locked_at->0 < now - pre.lock_timeout)),
        ({
            let other = pre.rows[j];
            0 <= j < pre.rows.len() && holds(kinds, other.kind@) && other.run_at <= now && (
            other.state is Available || (other.state is Running && (other.locked_at is None
                || other.locked_at->0 < now - pre.lock_timeout))) ==> {
                &&& pre.rows[i].priority >= other.priority
                &&& pre.rows[i].priority == other.priority ==> pre.rows[i].run_at <= other.run_at
                &&& pre.rows[i].priority == other.priority && pre.rows[i].run_at == other.run_at
                    ==> i <= j
            }
        }),
{
    let cutoff = now - pre.lock_timeout;
    let i = choose|i: int|
        {
            &&& #[trigger] is_next(pre.rows, kinds, now as int, cutoff, i)
            &&& job == crate::queue::job_of(crate::queue::taken(pre.rows[i], now))
            &&& post == ControlPlaneView {
                rows: pre.rows.update(i, crate::queue::taken(pre.rows[i], now)),
                ..pre
            }
        };
    assert(is_next(pre.rows, kinds, now as int, cutoff, i));
    if 0 <= j < pre.rows.len() && j != i {
        let other = pre.rows[j];
        if eligible(other, kinds, now as int, cutoff) {
            assert(crate::queue::goes_before(pre.rows, i, j));
        }
    }
    i
}

/// The job that is handed out is taken from then on, and tried once more; every other job
/// stays as it was, and so does all the rest.
pub proof fn law_dequeue_takes_only_it(
    pre: ControlPlaneView,
    post: ControlPlaneView,
    kinds: Seq<String>,
    now: i128,
    job: Job,
) -> (i: int)
    requires
        dequeued(pre, post, kinds, now, Some(job)),
        forall|k: int| 0 <= k < pre.rows.len() ==> (#[trigger] pre.rows[k]).attempts < i32::MAX,
    ensures
        0 <= i < pre.rows.len(),
        post.rows.len() == pre.rows.len(),
        post.rows[i].id == job.id,
        pre.rows[i].id == job.id,
        post.rows[i].state is Running,
        post.rows[i].locked_at == Some(now),
        post.rows[i].attempts == pre.rows[i].attempts + 1,
        job.attempts == pre.rows[i].attempts + 1,
        post.rows[i].kind == pre.rows[i].kind,
        post.rows[i].payload == pre.rows[i].payload,
        post.rows[i].run_at == pre.rows[i].run_at,
        post.rows[i].priority == pre.rows[i].priority,
        forall|k: int| 0 <= k < pre.rows.len() && k != i ==> #[trigger] post.rows[k] == pre.rows[k],
        post == (ControlPlaneView { rows: post.rows, ..pre }),
{
    let cutoff = now - pre.lock_timeout;
    let i = choose|i: int|
        {
            &&& #[trigger] is_next(pre.rows, kinds, now as int, cutoff, i)
            &&& job == crate::queue::job_of(crate::queue::taken(pre.rows[i], now))
            &&& post == ControlPlaneView {
                rows: pre.rows.update(i, crate::queue::taken(pre.rows[i], now)),
                ..pre
            }
        };
    assert(is_next(pre.rows, kinds, now as int, cutoff, i));
    assert(pre.rows[i].attempts < i32::MAX);
    i
}

/// A worker goes away with nothing only where no job of its kinds is due and free, and
/// then nothing changes.
pub proof fn law_due_job_is_not_withheld(
    pre: ControlPlaneView,
    post: ControlPlaneView,
    kinds: Seq<String>,
    now: i128,
    j: int,
)
    requires
        dequeued(pre, post, kinds, now, None),
        0 <= j < pre.rows.len(),
        holds(kinds, pre.rows[j].kind@),
        pre.rows[j].run_at <= now,
    ensures
        post == pre,
        !(pre.rows[j].state is Available),
        pre.rows[j].state is Running ==> pre.rows[j].locked_at is Some && pre.rows[j].locked_at->0
            >= now - pre.lock_timeout,
{
    assert(!eligible(pre.rows[j], kinds, now as int, now - pre.lock_timeout));
}

/// A job that failed and is to be tried again waits once more, free, and due after its
/// delay; one that is given up is marked as failed and free. Its number, its kind, its
/// payload, its priority and how often it was tried stay, and so does every other job.
pub proof fn law_failure_frees_the_job(
    pre: ControlPlaneView,
    post: ControlPlaneView,
    id: u128,
    policy: RetryPolicy,
    now: i128,
    i: int,
)
    requires
        failed(pre, post, id, policy, now),
        0 <= i < pre.rows.len(),
        pre.rows[i].id == id,
        forall|j: int| 0 <= j < i ==> (#[trigger] pre.rows[j]).id != id,
        policy matches RetryPolicy::Retry { delay } ==> i128::MIN <= now + delay <= i128::MAX,
    ensures
        post.rows.len() == pre.rows.len(),
        post.rows[i].locked_at is None,
        policy matches RetryPolicy::Retry { delay } ==> post.rows[i].state is Available
            && post.rows[i].run_at == now + delay,
        policy is Abandon ==> post.rows[i].state is Failed && post.rows[i].run_at
            == pre.rows[i].run_at,
        post.rows[i].id == id,
        post.rows[i].kind == pre.rows[i].kind,
        post.rows[i].payload == pre.rows[i].payload,
        post.rows[i].priority == pre.rows[i].priority,
        post.rows[i].attempts == pre.rows[i].attempts,
        forall|k: int| 0 <= k < pre.rows.len() && k != i ==> #[trigger] post.rows[k] == pre.rows[k],
        post == (ControlPlaneView { rows: post.rows, ..pre }),
{
    assert(first_numbered(pre.rows, id, i));
}

/// A heartbeat moves the instant at which the worker was last heard of to now, and changes
/// nothing else of the job, nor anything of another.
pub proof fn law_heartbeat_renews_the_lease(
    pre: ControlPlaneView,
    post: ControlPlaneView,
    id: u128,
    now: i128,
    i: int,
)
    requires
        beaten(pre, post, id, now),
        0 <= i < pre.rows.len(),
        pre.rows[i].id == id,
        forall|j: int| 0 <= j < i ==> (#[trigger] pre.rows[j]).id != id,
    ensures
        post.rows.len() == pre.rows.len(),
        post.rows[i].locked_at == Some(now),
        post.rows[i].id == id,
        post.rows[i].state == pre.rows[i].state,
        post.rows[i].kind == pre.rows[i].kind,
        post.rows[i].payload == pre.rows[i].payload,
        post.rows[i].run_at == pre.rows[i].run_at,
        post.rows[i].priority == pre.rows[i].priority,
        post.rows[i].attempts == pre.rows[i].attempts,
        forall|k: int| 0 <= k < pre.rows.len() && k != i ==> #[trigger] post.rows[k] == pre.rows[k],
        post == (ControlPlaneView { rows: post.rows, ..pre }),
{
    assert(first_numbered(pre.rows, id, i));
}

/// The failure or the heartbeat of a job that is not there changes nothing.
pub proof fn law_unknown_job_changes_nothing(
    pre: ControlPlaneView,
    post: ControlPlaneView,
    id: u128,
    policy: RetryPolicy,
    now: i128,
)
    requires
        failed(pre, post, id, policy, now) || beaten(pre, post, id, now),
        forall|j: int| 0 <= j < pre.rows.len() ==> (#[trigger] pre.rows[j]).id != id,
    ensures
        post == pre,
{
}

/// Completing a job leaves the jobs with other numbers, in their order, and all the rest.
pub proof fn law_complete_keeps_the_others(pre: ControlPlaneView, post: ControlPlaneView, id: u128)
    requires
        completed(pre, post, id),
    ensures
        post.rows == pre.rows.filter(|row: Row| row.id != id),
        post == (ControlPlaneView { rows: post.rows, ..pre }),
{
    lemma_without_is_filter(pre.rows, id);
}

proof fn lemma_without_is_filter(rows: Seq<Row>, id: u128)
    ensures
        without_job(rows, id) == rows.filter(|row: Row| row.id != id),
    decreases rows.len(),
{
    reveal(Seq::filter);
    if rows.len() > 0 {
        lemma_without_is_filter(rows.drop_last(), id);
    }
}

/// A schedule that is valid stands under its name with when it is next due, in place of
/// one of the same name; one that is not valid changes nothing. No other schedule changes.
pub proof fn law_schedule_is_kept_under_its_name(
    pre: ControlPlaneView,
    post: ControlPlaneView,
    s: JobSchedule,
    next: Result<i128, ControlPlaneError>,
    r: Result<(), ControlPlaneError>,
    other: Seq<char>,
)
    requires
        schedule_defined(pre, post, s, next, r),
    ensures
        r is Ok <==> next is Ok,
        next is Err ==> r == Err::<(), ControlPlaneError>(next->Err_0) && post == pre,
        next is Ok ==> post.schedules.dom().contains(s.name@) && post.schedules[s.name@] == (
            s,
            next->Ok_0,
        ),
        other != s.name@ ==> post.schedules.dom().contains(other) == pre.schedules.dom().contains(
            other,
        ) && post.schedules[other] == pre.schedules[other],
        post == (ControlPlaneView { schedules: post.schedules, ..pre }),
{
}

/// A deleted schedule is gone, and no other is; to delete one that is not there is an
/// error.
pub proof fn law_schedule_is_deleted_by_name(
    pre: ControlPlaneView,
    post: ControlPlaneView,
    name: Seq<char>,
    r: Result<(), ControlPlaneError>,
    other: Seq<char>,
)
    requires
        schedule_deleted(pre, post, name, r),
    ensures
        r is Ok <==> pre.schedules.dom().contains(name),
        r matches Err(e) ==> e@ is NotFound,
        !post.schedules.dom().contains(name),
        other != name ==> post.schedules.dom().contains(other) == pre.schedules.dom().contains(other)
            && post.schedules[other] == pre.schedules[other],
        post == (ControlPlaneView { schedules: post.schedules, ..pre }),
{
}

/// A schedule fires where it is due, and only there; where more are due than the limit
/// allows, those with the earlier names fire.
pub proof fn law_due_schedules_fire(
    entries: Seq<(String, (JobSchedule, i128))>,
    now: int,
    limit: u32,
    i: int,
)
    requires
        0 <= i < entries.len(),
        crate::ordered::sorted_entries(entries),
    ensures
        due_batch(entries, now, limit).len() <= limit,
        due_batch(entries, now, limit).len() <= entries.len(),
        due_batch(entries, now, limit).contains(entries[i].0@) ==> entries[i].1.1 <= now,
        entries[i].1.1 <= now && entries.len() <= limit ==> due_batch(entries, now, limit).contains(
            entries[i].0@,
        ),
        entries[i].1.1 <= now && i < limit ==> due_batch(entries, now, limit).contains(
            entries[i].0@,
        ),
{
    let all = due_names(entries, now);
    lemma_due_count(entries, now);
    if due_batch(entries, now, limit).contains(entries[i].0@) {
        let k = choose|k: int|
            0 <= k < due_batch(entries, now, limit).len() && due_batch(entries, now, limit)[k]
                == entries[i].0@;
        assert(all[k] == entries[i].0@);
        let e = lemma_due_name(entries, now, k);
        crate::ordered::lemma_entry(entries, e);
        crate::ordered::lemma_entry(entries, i);
    }
    if entries[i].1.1 <= now {
        let k = lemma_due_place(entries, now, i);
        if i < limit || entries.len() <= limit {
            assert(due_batch(entries, now, limit)[k] == entries[i].0@);
        }
    }
}

/// The entry at `e` is due and has this name.
spec fn due_entry(entries: Seq<(String, (JobSchedule, i128))>, now: int, e: int, name: Seq<char>) -> bool {
    0 <= e < entries.len() && entries[e].1.1 <= now && entries[e].0@ == name
}

/// A due name is that of a due entry.
proof fn lemma_due_name(entries: Seq<(String, (JobSchedule, i128))>, now: int, k: int) -> (e: int)
    requires
        0 <= k < due_names(entries, now).len(),
    ensures
        k <= e,
        due_entry(entries, now, e, due_names(entries, now)[k]),
    decreases entries.len(),
{
    let before = entries.drop_last();
    if k < due_names(before, now).len() {
        lemma_due_name(before, now, k)
    } else {
        lemma_due_count(before, now);
        entries.len() - 1
    }
}

proof fn lemma_due_count(entries: Seq<(String, (JobSchedule, i128))>, now: int)
    ensures
        due_names(entries, now).len() <= entries.len(),
    decreases entries.len(),
{
    if entries.len() > 0 {
        lemma_due_count(entries.drop_last(), now);
    }
}

/// The name of a due entry is among the due names, not behind the place of the entry.
proof fn lemma_due_place(entries: Seq<(String, (JobSchedule, i128))>, now: int, e: int) -> (k: int)
    requires
        0 <= e < entries.len(),
        entries[e].1.1 <= now,
    ensures
        0 <= k <= e,
        k < due_names(entries, now).len(),
        due_names(entries, now)[k] == entries[e].0@,
    decreases entries.len(),
{
    let before = entries.drop_last();
    if e < before.len() {
        lemma_due_place(before, now, e)
    } else {
        lemma_due_count(before, now);
        due_names(before, now).len() as int
    }
}

/// A schedule that fires puts its own kind and payload in the queue, due at once, unless
/// an equal job waits there already; it says which. It is next due when it was told, and
/// no other schedule changes.
pub proof fn law_schedule_queues_its_job(
    f: ScheduleFiring,
    name: Seq<char>,
    next: i128,
    id: u128,
    clock: i128,
    other: Seq<char>,
)
    requires
        f.schedules.dom().contains(name),
    ensures
        ({
            let s = f.schedules[name].0;
            let after = fire_one(f, name, next, id, clock);
            let equal_waits = exists|i: int|
                0 <= i < f.rows.len() && (#[trigger] f.rows[i]).state is Available && f.rows[i].kind@
                    == s.kind@ && f.rows[i].payload@ == s.payload@;
            &&& equal_waits ==> after.rows == f.rows && after.fired == f.fired.push((name, None))
            &&& !equal_waits ==> {
                &&& after.rows.len() == f.rows.len() + 1
                &&& after.rows.drop_last() == f.rows
                &&& after.rows.last().id == id
                &&& after.rows.last().kind == s.kind
                &&& after.rows.last().payload == s.payload
                &&& after.rows.last().run_at == clock
                &&& after.rows.last().priority == 0
                &&& after.rows.last().attempts == 0
                &&& after.rows.last().state is Available
                &&& after.fired == f.fired.push((name, Some(id)))
            }
            &&& after.schedules[name] == (s, next)
            &&& other != name ==> after.schedules[other] == f.schedules[other]
            &&& after.schedules.dom() == f.schedules.dom()
        }),
{
    let s = f.schedules[name].0;
    let after = fire_one(f, name, next, id, clock);
    assert(after.schedules.dom() =~= f.schedules.dom());
    if !waiting(f.rows, s.kind@, s.payload@) {
        assert(after.rows.drop_last() =~= f.rows);
    }
}

/// Firing the due schedules reports each of them once, in their order, and takes no job
/// out of the queue; a schedule that is not due stays as it was.
pub proof fn law_firing_reports_each_once(
    f: ScheduleFiring,
    names: Seq<Seq<char>>,
    next: Seq<Result<i128, ControlPlaneError>>,
    ids: Seq<u128>,
    clock: i128,
    k: nat,
    other: Seq<char>,
)
    requires
        k <= names.len(),
    ensures
        ({
            let after = fire_first(f, names, next, ids, clock, k);
            &&& after.fired.len() == f.fired.len() + k
            &&& forall|i: int|
                0 <= i < k ==> (#[trigger] after.fired[f.fired.len() + i]).0 == names[i] && (
                after.fired[f.fired.len() + i].1 matches Some(id) ==> id == ids[i])
            &&& f.rows.is_prefix_of(after.rows)
            &&& !names.take(k as int).contains(other) ==> after.schedules[other]
                == f.schedules[other]
        }),
    decreases k,
{
    if k > 0 {
        let p = (k - 1) as nat;
        law_firing_reports_each_once(f, names, next, ids, clock, p, other);
        let mid = fire_first(f, names, next, ids, clock, p);
        let after = fire_first(f, names, next, ids, clock, k);
        assert forall|i: int| 0 <= i < k implies (#[trigger] after.fired[f.fired.len() + i]).0
            == names[i] && (after.fired[f.fired.len() + i].1 matches Some(id) ==> id == ids[i]) by {
            if i < p {
                assert(after.fired[f.fired.len() + i] == mid.fired[f.fired.len() + i]);
            }
        }
        if !names.take(k as int).contains(other) {
            assert(names.take(k as int)[p as int] == names[p as int]);
            if names.take(p as int).contains(other) {
                let j = choose|j: int| 0 <= j < p && names.take(p as int)[j] == other;
                assert(names.take(k as int)[j] == other);
            }
        }
    }
}

/// A call that fires the due schedules answers with one entry per due schedule, and
/// changes nothing but the queue and the schedules; where a cron is not valid it fails
/// with the reason that was given for it.
pub proof fn law_fired_call_answers(
    pre: MemoryControlPlane,
    post: MemoryControlPlane,
    now: i128,
    limit: u32,
    next: Seq<Result<i128, ControlPlaneError>>,
    ids: Seq<u128>,
    clock: i128,
    r: Result<Vec<ScheduleFired>, ControlPlaneError>,
)
    requires
        schedules_fired(pre, post, now, limit, next, ids, clock, r),
    ensures
        r matches Ok(list) ==> {
            let names = due_batch(pre.schedules.entries@, now as int, limit);
            &&& list@.len() == names.len()
            &&& forall|i: int| 0 <= i < names.len() ==> (#[trigger] list@[i]).name@ == names[i]
            &&& forall|i: int|
                0 <= i < names.len() ==> ((#[trigger] list@[i]).job matches Some(id) ==> id == ids[i])
            &&& forall|i: int| 0 <= i < names.len() ==> (#[trigger] next[i]) is Ok
        },
        r matches Err(e) ==> exists|k: int|
            0 <= k < due_batch(pre.schedules.entries@, now as int, limit).len()
                && #[trigger] next[k] == Err::<i128, ControlPlaneError>(e),
        pre@.rows.is_prefix_of(post@.rows),
        post@ == (ControlPlaneView { rows: post@.rows, schedules: post@.schedules, ..pre@ }),
{
    let names = due_batch(pre.schedules.entries@, now as int, limit);
    let start = ScheduleFiring { schedules: pre@.schedules, rows: pre@.rows, fired: Seq::empty() };
    match r {
        Ok(list) => {
            law_firing_reports_each_once(
                start,
                names,
                next,
                ids,
                clock,
                names.len(),
                Seq::empty(),
            );
            let f = fire_first(start, names, next, ids, clock, names.len());
            assert(fired_list(list@).len() == list@.len());
            assert forall|i: int| 0 <= i < names.len() implies (#[trigger] list@[i]).name@ == names[i]
                && (list@[i].job matches Some(id) ==> id == ids[i]) by {
                assert(fired_list(list@)[i] == (list@[i].name@, list@[i].job));
                assert(f.fired[0 + i].0 == names[i]);
            }
        },
        Err(e) => {
            let k = choose|k: int|
                {
                    let f = fire_first(start, names, next, ids, clock, k as nat);
                    &&& 0 <= k < names.len()
                    &&& #[trigger] good_before(next, k)
                    &&& next[k] == Err::<i128, ControlPlaneError>(e)
                    &&& post@ == ControlPlaneView { schedules: f.schedules, rows: f.rows, ..pre@ }
                };
            law_firing_reports_each_once(start, names, next, ids, clock, k as nat, Seq::empty());
        },
    }
}

} // verus!
