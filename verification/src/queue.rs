//! The job queue.
use crate::ambient;
use crate::error::{outcome, ControlPlaneError, Fault};
use crate::key::{str_same, Key};
use crate::memory::{ControlPlaneView, MemoryControlPlane};
use crate::ordered::{lemma_position, position_of};
use crate::text::{concat3, contains_text, holds};
use crate::types::NewJob;
use vstd::prelude::*;

verus! {

/// Where a job stands.
#[derive(Clone, Copy, Debug, PartialEq, Eq, Structural)]
pub enum JobState {
    Available,
    Running,
    Failed,
}

/// A job in the queue. Instants are in nanoseconds since the Unix epoch.
pub struct Row {
    pub id: u128,
    pub kind: String,
    pub payload: String,
    pub state: JobState,
    pub run_at: i128,
    pub priority: i32,
    pub attempts: i32,
    pub locked_at: Option<i128>,
}

/// The row of a job that is enqueued at `now` under the number `id`.
pub open spec fn queued_row(id: u128, job: NewJob, now: i128) -> Row {
    Row {
        id,
        kind: job.kind,
        payload: job.payload,
        state: JobState::Available,
        run_at: match job.run_at {
            Some(t) => t,
            None => now,
        },
        priority: job.priority,
        attempts: 0,
        locked_at: None,
    }
}

/// Puts `job` at the end of the queue under the number `id`.
pub(crate) fn insert_with_id(rows: &mut Vec<Row>, id: u128, job: NewJob, now: i128)
    ensures
        final(rows)@ == old(rows)@.push(queued_row(id, job, now)),
{
    let run_at: i128 = match job.run_at {
        Some(t) => t,
        None => now,
    };
    rows.push(
        Row {
            id,
            kind: job.kind,
            payload: job.payload,
            state: JobState::Available,
            run_at,
            priority: job.priority,
            attempts: 0,
            locked_at: None,
        },
    );
}


/// The longest span of time that is accepted, in nanoseconds.
pub const LONGEST_SPAN: i128 = 18_446_744_073_709_551_615_999_999_999;

/// A job handed to a worker.
#[derive(Debug)]
pub struct Job {
    pub id: u128,
    pub kind: String,
    pub payload: String,
    pub attempts: i32,
    pub run_at: i128,
}

/// What becomes of a job that failed. `delay` is in nanoseconds.
#[derive(Clone, Copy, Debug)]
pub enum RetryPolicy {
    Retry { delay: i128 },
    Abandon,
}

/// A job that is enqueued again and again. `cron` says when; `payload` is JSON text.
#[derive(Debug)]
pub struct JobSchedule {
    pub name: String,
    pub cron: String,
    pub kind: String,
    pub payload: String,
}

/// A schedule that was due: the job it enqueued, or none where an equal job was
/// waiting already.
#[derive(Debug)]
pub struct ScheduleFired {
    pub name: String,
    pub job: Option<u128>,
}

/// A worker that takes jobs of `kinds` may take the row at `now`: it is due, and
/// it waits, or its worker was last heard of before `cutoff`.
pub open spec fn eligible(row: Row, kinds: Seq<String>, now: int, cutoff: int) -> bool {
    &&& holds(kinds, row.kind@)
    &&& row.run_at <= now
    &&& row.state == JobState::Available || (row.state == JobState::Running && (match row.locked_at {
        Some(t) => t < cutoff,
        None => true,
    }))
}

/// The row at `i` goes before the row at `j`: the higher priority first, then the
/// earlier due, then the earlier enqueued.
pub open spec fn goes_before(rows: Seq<Row>, i: int, j: int) -> bool {
    ||| rows[i].priority > rows[j].priority
    ||| rows[i].priority == rows[j].priority && rows[i].run_at < rows[j].run_at
    ||| rows[i].priority == rows[j].priority && rows[i].run_at == rows[j].run_at && i < j
}

/// The row at `i` is the next to be taken.
pub open spec fn is_next(rows: Seq<Row>, kinds: Seq<String>, now: int, cutoff: int, i: int) -> bool {
    &&& 0 <= i < rows.len()
    &&& eligible(rows[i], kinds, now, cutoff)
    &&& forall|j: int|
        0 <= j < rows.len() && j != i && #[trigger] eligible(rows[j], kinds, now, cutoff) ==> goes_before(
            rows,
            i,
            j,
        )
}

/// The row once a worker has taken it at `now`.
pub open spec fn taken(row: Row, now: i128) -> Row {
    Row {
        state: JobState::Running,
        locked_at: Some(now),
        attempts: (row.attempts + 1) as i32,
        ..row
    }
}

/// The job that a row stands for.
pub open spec fn job_of(row: Row) -> Job {
    Job {
        id: row.id,
        kind: row.kind,
        payload: row.payload,
        attempts: row.attempts,
        run_at: row.run_at,
    }
}

/// The rows without those numbered `id`.
pub open spec fn without_job(rows: Seq<Row>, id: u128) -> Seq<Row>
    decreases rows.len(),
{
    if rows.len() == 0 {
        Seq::empty()
    } else if rows.last().id == id {
        without_job(rows.drop_last(), id)
    } else {
        without_job(rows.drop_last(), id).push(rows.last())
    }
}

/// The first row numbered `id` is at `i`.
pub open spec fn first_numbered(rows: Seq<Row>, id: u128, i: int) -> bool {
    0 <= i < rows.len() && rows[i].id == id && forall|j: int| 0 <= j < i ==> (#[trigger] rows[j]).id != id
}

/// The row after its job failed at `now`.
pub open spec fn after_failure(row: Row, policy: RetryPolicy, now: i128) -> Row {
    match policy {
        RetryPolicy::Retry { delay } => Row {
            state: JobState::Available,
            run_at: (now + delay) as i128,
            locked_at: None,
            ..row
        },
        RetryPolicy::Abandon => Row { state: JobState::Failed, locked_at: None, ..row },
    }
}

/// An equal job waits in the queue.
pub open spec fn waiting(rows: Seq<Row>, kind: Seq<char>, payload: Seq<char>) -> bool {
    exists|i: int|
        0 <= i < rows.len() && (#[trigger] rows[i]).state == JobState::Available && rows[i].kind@ == kind
            && rows[i].payload@ == payload
}

/// Where the first row numbered `id` is.
fn find_row(rows: &Vec<Row>, id: u128) -> (r: Option<usize>)
    ensures
        match r {
            Some(i) => first_numbered(rows@, id, i as int),
            None => forall|j: int| 0 <= j < rows@.len() ==> (#[trigger] rows@[j]).id != id,
        },
{
    let mut i: usize = 0;
    while i < rows.len()
        invariant
            i <= rows@.len(),
            forall|j: int| 0 <= j < i ==> (#[trigger] rows@[j]).id != id,
        decreases rows@.len() - i,
    {
        if rows[i].id == id {
            return Some(i);
        }
        i = i + 1;
    }
    None
}

/// Whether an equal job waits in the queue.
fn is_waiting(rows: &Vec<Row>, kind: &str, payload: &str) -> (r: bool)
    ensures
        r == waiting(rows@, kind@, payload@),
{
    let mut i: usize = 0;
    while i < rows.len()
        invariant
            i <= rows@.len(),
            forall|j: int|
                0 <= j < i ==> !((#[trigger] rows@[j]).state == JobState::Available && rows@[j].kind@
                    == kind@ && rows@[j].payload@ == payload@),
        decreases rows@.len() - i,
    {
        if rows[i].state == JobState::Available && str_same(rows[i].kind.as_str(), kind) && str_same(
            rows[i].payload.as_str(),
            payload,
        ) {
            return true;
        }
        i = i + 1;
    }
    false
}

impl Row {
    /// Whether a worker that takes jobs of `kinds` may take the row.
    fn is_eligible(&self, kinds: &Vec<String>, now: i128, cutoff: i128) -> (r: bool)
        ensures
            r == eligible(*self, kinds@, now as int, cutoff as int),
    {
        let free: bool = match self.state {
            JobState::Available => true,
            JobState::Running => match self.locked_at {
                Some(t) => t < cutoff,
                None => true,
            },
            JobState::Failed => false,
        };
        contains_text(kinds, self.kind.as_str()) && self.run_at <= now && free
    }
}

/// The row that comes next can count one attempt more.
pub open spec fn next_fits(rows: Seq<Row>, kinds: Seq<String>, now: int, cutoff: int) -> bool {
    forall|i: int| #[trigger]
        is_next(rows, kinds, now, cutoff, i) ==> rows[i].attempts < i32::MAX
}

/// Every row of one of `kinds` that is not given up, and may so come next at some
/// instant, can count one attempt more.
pub open spec fn attempts_fit(rows: Seq<Row>, kinds: Seq<String>) -> bool {
    forall|i: int|
        0 <= i < rows.len() && holds(kinds, (#[trigger] rows[i]).kind@) && rows[i].state
            != JobState::Failed ==> rows[i].attempts < i32::MAX
}

/// What taking a job at `now` does and hands out.
pub open spec fn dequeued(
    pre: ControlPlaneView,
    post: ControlPlaneView,
    kinds: Seq<String>,
    now: i128,
    r: Option<Job>,
) -> bool {
    match r {
        Some(job) => exists|i: int|
            {
                &&& #[trigger] is_next(pre.rows, kinds, now as int, now - pre.lock_timeout, i)
                &&& job == job_of(taken(pre.rows[i], now))
                &&& post == ControlPlaneView {
                    rows: pre.rows.update(i, taken(pre.rows[i], now)),
                    ..pre
                }
            },
        None => post == pre && forall|i: int|
            0 <= i < pre.rows.len() ==> !eligible(
                #[trigger] pre.rows[i],
                kinds,
                now as int,
                now - pre.lock_timeout,
            ),
    }
}

/// What a failed job at `now` does to the queue.
pub open spec fn failed(
    pre: ControlPlaneView,
    post: ControlPlaneView,
    id: u128,
    policy: RetryPolicy,
    now: i128,
) -> bool {
    &&& forall|i: int| #[trigger]
        first_numbered(pre.rows, id, i) ==> post == (ControlPlaneView {
            rows: pre.rows.update(i, after_failure(pre.rows[i], policy, now)),
            ..pre
        })
    &&& (forall|i: int| 0 <= i < pre.rows.len() ==> (#[trigger] pre.rows[i]).id != id) ==> post == pre
}

/// What a heartbeat at `now` does to the queue.
pub open spec fn beaten(pre: ControlPlaneView, post: ControlPlaneView, id: u128, now: i128) -> bool {
    &&& forall|i: int| #[trigger]
        first_numbered(pre.rows, id, i) ==> post == (ControlPlaneView {
            rows: pre.rows.update(i, Row { locked_at: Some(now), ..pre.rows[i] }),
            ..pre
        })
    &&& (forall|i: int| 0 <= i < pre.rows.len() ==> (#[trigger] pre.rows[i]).id != id) ==> post == pre
}

/// What enqueueing a job under the number `id` at `now` does.
pub open spec fn enqueued(
    pre: ControlPlaneView,
    post: ControlPlaneView,
    job: NewJob,
    id: u128,
    now: i128,
) -> bool {
    post == ControlPlaneView { rows: pre.rows.push(queued_row(id, job, now)), ..pre }
}

/// What completing a job does to the queue.
pub open spec fn completed(pre: ControlPlaneView, post: ControlPlaneView, id: u128) -> bool {
    post == ControlPlaneView { rows: without_job(pre.rows, id), ..pre }
}

/// What defining a schedule does and reports.
pub open spec fn schedule_defined(
    pre: ControlPlaneView,
    post: ControlPlaneView,
    s: JobSchedule,
    next: Result<i128, ControlPlaneError>,
    r: Result<(), ControlPlaneError>,
) -> bool {
    match next {
        Err(e) => r == Err::<(), ControlPlaneError>(e) && post == pre,
        Ok(t) => r is Ok && post == (ControlPlaneView {
            schedules: pre.schedules.insert(s.name@, (s, t)),
            ..pre
        }),
    }
}

/// What deleting a schedule does and reports.
pub open spec fn schedule_deleted(
    pre: ControlPlaneView,
    post: ControlPlaneView,
    name: Seq<char>,
    r: Result<(), ControlPlaneError>,
) -> bool {
    &&& outcome(r) == (if pre.schedules.dom().contains(name) {
        Ok::<(), Fault>(())
    } else {
        Err(Fault::NotFound("job schedule '"@ + name + "'"@))
    })
    &&& post == ControlPlaneView { schedules: pre.schedules.remove(name), ..pre }
}

impl MemoryControlPlane {
    /// Enqueues a job under the number `id`, at `now`.
    pub fn enqueue_as(&mut self, job: NewJob, id: u128, now: i128)
        requires
            old(self).wf(),
        ensures
            final(self).wf(),
            enqueued(old(self)@, final(self)@, job, id, now),
    {
        insert_with_id(&mut self.rows, id, job, now);
    }

    /// Enqueues a job under a fresh number, which it gives.
    pub fn enqueue(&mut self, job: NewJob) -> (r: u128)
        requires
            old(self).wf(),
        ensures
            final(self).wf(),
            ambient::is_random_uuid(r),
            exists|now: i128|
                ambient::in_calendar(now as int) && #[trigger] enqueued(
                    old(self)@,
                    final(self)@,
                    job,
                    r,
                    now,
                ),
    {
        let id: u128 = ambient::fresh_id();
        let now: i128 = ambient::now();
        self.enqueue_as(job, id, now);
        id
    }

    /// Takes the next job of one of `kinds` at `now`, where one is there.
    pub fn dequeue_at(&mut self, kinds: &Vec<String>, now: i128) -> (r: Option<Job>)
        requires
            old(self).wf(),
            ambient::in_calendar(now as int),
            next_fits(
                old(self)@.rows,
                kinds@,
                now as int,
                now - old(self)@.lock_timeout,
            ),
        ensures
            final(self).wf(),
            dequeued(old(self)@, final(self)@, kinds@, now, r),
    {
        let cutoff: i128 = now - self.lock_timeout;
        let mut best: Option<usize> = None;
        let mut i: usize = 0;
        while i < self.rows.len()
            invariant
                *self == *old(self),
                i <= self.rows@.len(),
                cutoff == now - self.lock_timeout,
                match best {
                    Some(b) => b < i && eligible(
                        self.rows@[b as int],
                        kinds@,
                        now as int,
                        cutoff as int,
                    ) && forall|j: int|
                        0 <= j < i && j != b && #[trigger] eligible(
                            self.rows@[j],
                            kinds@,
                            now as int,
                            cutoff as int,
                        ) ==> goes_before(self.rows@, b as int, j),
                    None => forall|j: int|
                        0 <= j < i ==> !#[trigger] eligible(
                            self.rows@[j],
                            kinds@,
                            now as int,
                            cutoff as int,
                        ),
                },
            decreases self.rows@.len() - i,
        {
            if self.rows[i].is_eligible(kinds, now, cutoff) {
                match best {
                    None => {
                        best = Some(i);
                    },
                    Some(b) => {
                        if self.rows[i].priority > self.rows[b].priority || (self.rows[i].priority
                            == self.rows[b].priority && self.rows[i].run_at < self.rows[b].run_at) {
                            best = Some(i);
                        }
                    },
                }
            }
            i = i + 1;
        }
        match best {
            None => None,
            Some(b) => {
                assert(is_next(
                    old(self)@.rows,
                    kinds@,
                    now as int,
                    now - old(self)@.lock_timeout,
                    b as int,
                ));
                assert(old(self)@.rows[b as int].attempts < i32::MAX);
                let attempts: i32 = self.rows[b].attempts + 1;
                self.rows[b].state = JobState::Running;
                self.rows[b].locked_at = Some(now);
                self.rows[b].attempts = attempts;
                assert(self.rows@ =~= old(self)@.rows.update(
                    b as int,
                    taken(old(self)@.rows[b as int], now),
                ));
                let row: &Row = &self.rows[b];
                Some(
                    Job {
                        id: row.id,
                        kind: row.kind.clone(),
                        payload: row.payload.clone(),
                        attempts: row.attempts,
                        run_at: row.run_at,
                    },
                )
            },
        }
    }

    /// Takes the next job of one of `kinds`, where one is there.
    pub fn dequeue(&mut self, kinds: &Vec<String>) -> (r: Option<Job>)
        requires
            old(self).wf(),
            attempts_fit(old(self)@.rows, kinds@),
        ensures
            final(self).wf(),
            exists|now: i128|
                ambient::in_calendar(now as int) && #[trigger] dequeued(
                    old(self)@,
                    final(self)@,
                    kinds@,
                    now,
                    r,
                ),
    {
        let now: i128 = ambient::now();
        self.dequeue_at(kinds, now)
    }

    /// Removes a finished job.
    pub fn complete(&mut self, id: u128)
        requires
            old(self).wf(),
        ensures
            final(self).wf(),
            completed(old(self)@, final(self)@, id),
    {
        let ghost start = self.rows@;
        let ghost mut k: int = 0;
        let mut i: usize = 0;
        assert(start.take(0) =~= Seq::<Row>::empty());
        assert(self.rows@ =~= without_job(start.take(0), id) + start.skip(0));
        while i < self.rows.len()
            invariant
                0 <= k <= start.len(),
                start == old(self)@.rows,
                self.wf(),
                self@ == (ControlPlaneView { rows: self.rows@, ..old(self)@ }),
                i == without_job(start.take(k), id).len(),
                self.rows@ == without_job(start.take(k), id) + start.skip(k),
            decreases start.len() - k,
        {
            assert(start.take(k + 1).drop_last() =~= start.take(k));
            assert(self.rows@[i as int] == start[k]);
            if self.rows[i].id == id {
                let _gone: Row = self.rows.remove(i);
                assert(self.rows@ =~= without_job(start.take(k + 1), id) + start.skip(k + 1));
            } else {
                i = i + 1;
                assert(self.rows@ =~= without_job(start.take(k + 1), id) + start.skip(k + 1));
            }
            proof {
                k = k + 1;
            }
        }
        proof {
            assert(k == start.len());
            assert(start.take(k) =~= start);
            assert(self.rows@ =~= without_job(start, id));
        }
    }

    /// Records the failure of a job at `now`.
    pub fn fail_at(&mut self, id: u128, policy: RetryPolicy, now: i128)
        requires
            old(self).wf(),
            ambient::in_calendar(now as int),
            policy matches RetryPolicy::Retry { delay } ==> 0 <= delay <= LONGEST_SPAN,
        ensures
            final(self).wf(),
            failed(old(self)@, final(self)@, id, policy, now),
    {
        match find_row(&self.rows, id) {
            Some(i) => {
                match policy {
                    RetryPolicy::Retry { delay } => {
                        self.rows[i].state = JobState::Available;
                        self.rows[i].run_at = now + delay;
                        self.rows[i].locked_at = None;
                    },
                    RetryPolicy::Abandon => {
                        self.rows[i].state = JobState::Failed;
                        self.rows[i].locked_at = None;
                    },
                }
                assert(self.rows@ =~= old(self)@.rows.update(
                    i as int,
                    after_failure(old(self)@.rows[i as int], policy, now),
                ));
                proof {
                    assert forall|j: int| #[trigger] first_numbered(old(self)@.rows, id, j) implies j
                        == i by {
                        if j < i {
                            assert(old(self)@.rows[j].id != id);
                        }
                    }
                    assert(old(self)@.rows[i as int].id == id);
                }
            },
            None => {},
        }
    }

    /// Records the failure of a job.
    pub fn fail(&mut self, id: u128, policy: RetryPolicy)
        requires
            old(self).wf(),
            policy matches RetryPolicy::Retry { delay } ==> 0 <= delay <= LONGEST_SPAN,
        ensures
            final(self).wf(),
            exists|now: i128|
                ambient::in_calendar(now as int) && #[trigger] failed(
                    old(self)@,
                    final(self)@,
                    id,
                    policy,
                    now,
                ),
    {
        let now: i128 = ambient::now();
        self.fail_at(id, policy, now);
    }

    /// Records at `now` that the worker of a job is alive.
    pub fn heartbeat_at(&mut self, id: u128, now: i128)
        requires
            old(self).wf(),
        ensures
            final(self).wf(),
            beaten(old(self)@, final(self)@, id, now),
    {
        match find_row(&self.rows, id) {
            Some(i) => {
                self.rows[i].locked_at = Some(now);
                assert(self.rows@ =~= old(self)@.rows.update(
                    i as int,
                    Row { locked_at: Some(now), ..old(self)@.rows[i as int] },
                ));
                proof {
                    assert forall|j: int| #[trigger] first_numbered(old(self)@.rows, id, j) implies j
                        == i by {
                        if j < i {
                            assert(old(self)@.rows[j].id != id);
                        }
                    }
                    assert(old(self)@.rows[i as int].id == id);
                }
            },
            None => {},
        }
    }

    /// Records that the worker of a job is alive.
    pub fn heartbeat(&mut self, id: u128)
        requires
            old(self).wf(),
        ensures
            final(self).wf(),
            exists|now: i128|
                ambient::in_calendar(now as int) && #[trigger] beaten(
                    old(self)@,
                    final(self)@,
                    id,
                    now,
                ),
    {
        let now: i128 = ambient::now();
        self.heartbeat_at(id, now);
    }

    /// Defines a schedule, in place of one of the same name. `next` is when it is
    /// next due, or why it is not valid.
    pub fn define_job_schedule(&mut self, s: JobSchedule, next: Result<i128, ControlPlaneError>) -> (r:
        Result<(), ControlPlaneError>)
        requires
            old(self).wf(),
        ensures
            final(self).wf(),
            next is Err ==> *final(self) == *old(self),
            schedule_defined(old(self)@, final(self)@, s, next, r),
    {
        match next {
            Err(e) => Err(e),
            Ok(t) => {
                self.schedules.insert(s.name.clone(), (s, t));
                Ok(())
            },
        }
    }

    /// The schedules with when they are next due, in order of their names.
    pub fn list_job_schedules(&self) -> (r: Vec<&(JobSchedule, i128)>)
        requires
            self.wf(),
        ensures
            r@.len() == self.schedules.entries@.len(),
            forall|i: int| 0 <= i < r@.len() ==> *(#[trigger] r@[i]) == self.schedules.entries@[i].1,
            crate::ordered::sorted_entries(self.schedules.entries@),
            crate::ordered::entries_map(self.schedules.entries@) == self@.schedules,
    {
        crate::ordered::values_of(&self.schedules)
    }

    /// Deletes a schedule.
    pub fn delete_job_schedule(&mut self, name: &str) -> (r: Result<(), ControlPlaneError>)
        requires
            old(self).wf(),
        ensures
            final(self).wf(),
            schedule_deleted(old(self)@, final(self)@, name@, r),
    {
        let removed: Option<(JobSchedule, i128)> = self.schedules.remove(&name.to_owned());
        match removed {
            Some(_) => Ok(()),
            None => Err(ControlPlaneError::NotFound(concat3("job schedule '", name, "'"))),
        }
    }
}

/// The names of the schedules that are due by `now`, in order.
pub open spec fn due_names(entries: Seq<(String, (JobSchedule, i128))>, now: int) -> Seq<Seq<char>>
    decreases entries.len(),
{
    if entries.len() == 0 {
        Seq::empty()
    } else if entries.last().1.1 <= now {
        due_names(entries.drop_last(), now).push(entries.last().0@)
    } else {
        due_names(entries.drop_last(), now)
    }
}

/// The first `limit` of the due names.
pub open spec fn due_batch(
    entries: Seq<(String, (JobSchedule, i128))>,
    now: int,
    limit: u32,
) -> Seq<Seq<char>> {
    let all = due_names(entries, now);
    if all.len() <= limit {
        all
    } else {
        all.take(limit as int)
    }
}

/// The schedules and the queue while due schedules fire.
#[verifier::ext_equal]
pub struct ScheduleFiring {
    pub schedules: Map<Seq<char>, (JobSchedule, i128)>,
    pub rows: Seq<Row>,
    pub fired: Seq<(Seq<char>, Option<u128>)>,
}

/// The schedule `name` fires: it is next due at `next`, and its job is enqueued
/// under `id` at `clock`, unless an equal job waits.
pub open spec fn fire_one(f: ScheduleFiring, name: Seq<char>, next: i128, id: u128, clock: i128) -> ScheduleFiring {
    let s = f.schedules[name].0;
    let there = waiting(f.rows, s.kind@, s.payload@);
    ScheduleFiring {
        schedules: f.schedules.insert(name, (s, next)),
        rows: if there {
            f.rows
        } else {
            f.rows.push(
                queued_row(
                    id,
                    NewJob { kind: s.kind, payload: s.payload, run_at: None, priority: 0 },
                    clock,
                ),
            )
        },
        fired: f.fired.push(
            (
                name,
                if there {
                    None
                } else {
                    Some(id)
                },
            ),
        ),
    }
}

/// The first `k` of `names` fire, in order.
pub open spec fn fire_first(
    f: ScheduleFiring,
    names: Seq<Seq<char>>,
    next: Seq<Result<i128, ControlPlaneError>>,
    ids: Seq<u128>,
    clock: i128,
    k: nat,
) -> ScheduleFiring
    decreases k,
{
    if k == 0 {
        f
    } else {
        let p = (k - 1) as nat;
        fire_one(
            fire_first(f, names, next, ids, clock, p),
            names[p as int],
            next[p as int]->Ok_0,
            ids[p as int],
            clock,
        )
    }
}

/// The first `k` results are good.
pub open spec fn good_before(next: Seq<Result<i128, ControlPlaneError>>, k: int) -> bool {
    forall|i: int| 0 <= i < k ==> (#[trigger] next[i]) is Ok
}

/// What a list of fired schedules says.
pub open spec fn fired_list(s: Seq<ScheduleFired>) -> Seq<(Seq<char>, Option<u128>)> {
    Seq::new(s.len(), |i: int| (s[i].name@, s[i].job))
}


/// A due name is the name of a schedule.
proof fn lemma_due_names(entries: Seq<(String, (JobSchedule, i128))>, now: int)
    requires
        crate::ordered::sorted_entries(entries),
    ensures
        forall|i: int|
            0 <= i < due_names(entries, now).len() ==> crate::ordered::entries_map(
                entries,
            ).dom().contains(#[trigger] due_names(entries, now)[i]),
    decreases entries.len(),
{
    if entries.len() > 0 {
        let before = entries.drop_last();
        assert forall|i: int, j: int| 0 <= i < j < before.len() implies String::before(
            #[trigger] before[i].0.model(),
            #[trigger] before[j].0.model(),
        ) by {
            assert(entries[i] == before[i] && entries[j] == before[j]);
        }
        lemma_due_names(before, now);
        assert forall|i: int|
            0 <= i < due_names(entries, now).len() implies crate::ordered::entries_map(
            entries,
        ).dom().contains(#[trigger] due_names(entries, now)[i]) by {
            if i < due_names(before, now).len() {
                let m = due_names(before, now)[i];
                assert(crate::ordered::entries_map(before).dom().contains(m));
                lemma_position(before, m);
                let p = position_of(before, m);
                assert(entries[p].0.model() == m);
            } else {
                assert(entries[entries.len() - 1].0.model() == entries.last().0@);
            }
        }
    }
}

/// What firing the due schedules does and reports.
pub open spec fn schedules_fired(
    pre: MemoryControlPlane,
    post: MemoryControlPlane,
    now: i128,
    limit: u32,
    next: Seq<Result<i128, ControlPlaneError>>,
    ids: Seq<u128>,
    clock: i128,
    r: Result<Vec<ScheduleFired>, ControlPlaneError>,
) -> bool {
    let names = due_batch(pre.schedules.entries@, now as int, limit);
    let start = ScheduleFiring {
        schedules: pre@.schedules,
        rows: pre@.rows,
        fired: Seq::empty(),
    };
    match r {
        Ok(list) => {
            let f = fire_first(start, names, next, ids, clock, names.len());
            &&& good_before(next, names.len() as int)
            &&& fired_list(list@) == f.fired
            &&& post@ == ControlPlaneView { schedules: f.schedules, rows: f.rows, ..pre@ }
        },
        Err(e) => exists|k: int|
            {
                let f = fire_first(start, names, next, ids, clock, k as nat);
                &&& 0 <= k < names.len()
                &&& #[trigger] good_before(next, k)
                &&& next[k] == Err::<i128, ControlPlaneError>(e)
                &&& post@ == ControlPlaneView { schedules: f.schedules, rows: f.rows, ..pre@ }
            },
    }
}

impl MemoryControlPlane {
    /// The names of the schedules due by `now`, in order, `limit` at most.
    pub fn due_job_schedules(&self, now: i128, limit: u32) -> (r: Vec<String>)
        requires
            self.wf(),
        ensures
            crate::text::texts(r@) == due_batch(self.schedules.entries@, now as int, limit),
    {
        let entries: &Vec<(String, (JobSchedule, i128))> = &self.schedules.entries;
        let mut out: Vec<String> = Vec::new();
        let mut i: usize = 0;
        while i < entries.len()
            invariant
                i <= entries@.len(),
                crate::text::texts(out@) == due_names(entries@.take(i as int), now as int),
            decreases entries@.len() - i,
        {
            assert(entries@.take(i + 1).drop_last() =~= entries@.take(i as int));
            let ghost before = out@;
            if entries[i].1.1 <= now {
                out.push(entries[i].0.clone());
                assert(crate::text::texts(out@) =~= crate::text::texts(before).push(
                    entries@[i as int].0@,
                ));
            }
            i = i + 1;
        }
        assert(entries@.take(i as int) =~= entries@);
        let ghost all = out@;
        if out.len() > limit as usize {
            out.truncate(limit as usize);
            assert(crate::text::texts(out@) =~= crate::text::texts(all).take(limit as int));
        }
        out
    }

    /// Fires the schedules due by `now`, in order of their names, `limit` at most.
    /// `next` says when each of them is due again, or why its cron is not valid,
    /// and `ids` are the numbers of their jobs, enqueued at `clock`. A cron that is
    /// not valid stops the rest, and what fired before it stays.
    pub fn fire_due_job_schedules_at(
        &mut self,
        now: i128,
        limit: u32,
        next: &Vec<Result<i128, ControlPlaneError>>,
        ids: &Vec<u128>,
        clock: i128,
    ) -> (r: Result<Vec<ScheduleFired>, ControlPlaneError>)
        requires
            old(self).wf(),
            next@.len() == due_batch(old(self).schedules.entries@, now as int, limit).len(),
            ids@.len() == next@.len(),
        ensures
            final(self).wf(),
            schedules_fired(*old(self), *final(self), now, limit, next@, ids@, clock, r),
    {
        let due: Vec<String> = self.due_job_schedules(now, limit);
        let ghost names = due_batch(self.schedules.entries@, now as int, limit);
        let ghost start = ScheduleFiring {
            schedules: self@.schedules,
            rows: self@.rows,
            fired: Seq::empty(),
        };
        proof {
            lemma_due_names(self.schedules.entries@, now as int);
            assert(names.len() == due@.len());
            assert forall|j: int| 0 <= j < names.len() implies self@.schedules.dom().contains(
                #[trigger] names[j],
            ) by {
                assert(names[j] == due_names(self.schedules.entries@, now as int)[j]);
            }
        }
        let mut fired: Vec<ScheduleFired> = Vec::new();
        assert(fired_list(fired@) =~= Seq::empty());
        let mut i: usize = 0;
        while i < due.len()
            invariant
                self.wf(),
                i <= due@.len(),
                names == due_batch(old(self).schedules.entries@, now as int, limit),
                start == (ScheduleFiring {
                    schedules: old(self)@.schedules,
                    rows: old(self)@.rows,
                    fired: Seq::empty(),
                }),
                crate::text::texts(due@) == names,
                next@.len() == names.len(),
                ids@.len() == names.len(),
                good_before(next@, i as int),
                forall|j: int| 0 <= j < names.len() ==> self@.schedules.dom().contains(#[trigger] names[j]),
                self@ == (ControlPlaneView { schedules: self@.schedules, rows: self@.rows, ..old(self)@ }),
                (ScheduleFiring { schedules: self@.schedules, rows: self@.rows, fired: fired_list(fired@) })
                    == fire_first(start, names, next@, ids@, clock, i as nat),
            decreases due@.len() - i,
        {
            let ghost f = ScheduleFiring {
                schedules: self@.schedules,
                rows: self@.rows,
                fired: fired_list(fired@),
            };
            assert(names[i as int] == due@[i as int]@);
            let name: String = due[i].clone();
            match &next[i] {
                Err(e) => {
                    let e: ControlPlaneError = e.duplicate();
                    assert(good_before(next@, i as int));
                    return Err(e);
                },
                Ok(t) => {
                    let ghost old_fired = fired@;
                    match self.schedules.remove(&name) {
                        None => {},
                        Some((schedule, _due)) => {
                            let there: bool = is_waiting(
                                &self.rows,
                                schedule.kind.as_str(),
                                schedule.payload.as_str(),
                            );
                            let kind: String = schedule.kind.clone();
                            let payload: String = schedule.payload.clone();
                            self.schedules.insert(name.clone(), (schedule, *t));
                            assert(self@.schedules =~= f.schedules.insert(
                                names[i as int],
                                (schedule, *t),
                            ));
                            if there {
                                fired.push(ScheduleFired { name, job: None });
                            } else {
                                insert_with_id(
                                    &mut self.rows,
                                    ids[i],
                                    NewJob { kind, payload, run_at: None, priority: 0 },
                                    clock,
                                );
                                fired.push(ScheduleFired { name, job: Some(ids[i]) });
                            }
                            assert((ScheduleFiring {
                                schedules: self@.schedules,
                                rows: self@.rows,
                                fired: fired_list(fired@),
                            }) =~= fire_one(f, names[i as int], *t, ids@[i as int], clock));
                        },
                    }
                },
            }
            i = i + 1;
        }
        Ok(fired)
    }

    /// Fires the due schedules, with fresh numbers for their jobs, at the present
    /// instant.
    pub fn fire_due_job_schedules(
        &mut self,
        now: i128,
        limit: u32,
        next: &Vec<Result<i128, ControlPlaneError>>,
    ) -> (r: Result<Vec<ScheduleFired>, ControlPlaneError>)
        requires
            old(self).wf(),
            next@.len() == due_batch(old(self).schedules.entries@, now as int, limit).len(),
        ensures
            final(self).wf(),
            exists|ids: Seq<u128>, clock: i128|
                ids.len() == next@.len() && (forall|i: int|
                    0 <= i < ids.len() ==> ambient::is_random_uuid(#[trigger] ids[i]))
                    && ambient::in_calendar(clock as int) && #[trigger] schedules_fired(
                    *old(self),
                    *final(self),
                    now,
                    limit,
                    next@,
                    ids,
                    clock,
                    r,
                ),
    {
        let mut ids: Vec<u128> = Vec::new();
        while ids.len() < next.len()
            invariant
                ids@.len() <= next@.len(),
                forall|i: int| 0 <= i < ids@.len() ==> ambient::is_random_uuid(#[trigger] ids@[i]),
            decreases next@.len() - ids@.len(),
        {
            ids.push(ambient::fresh_id());
        }
        let clock: i128 = ambient::now();
        self.fire_due_job_schedules_at(now, limit, next, &ids, clock)
    }
}

/// A job is handed to one worker at a time: while its worker is heard of, no other
/// worker may take it.
pub proof fn law_lease_is_exclusive(row: Row, kinds: Seq<String>, taken_at: i128, now: int, cutoff: int)
    requires
        cutoff <= taken_at,
    ensures
        !eligible(taken(row, taken_at), kinds, now, cutoff),
{
}

/// A job whose worker has been silent past the timeout may be taken again.
pub proof fn law_stale_lease_is_retaken(row: Row, kinds: Seq<String>, taken_at: i128, now: int, cutoff: int)
    requires
        eligible(row, kinds, taken_at as int, cutoff),
        taken_at <= now,
        taken_at < cutoff,
    ensures
        eligible(taken(row, taken_at), kinds, now, cutoff),
{
}

/// A job that was abandoned is handed to nobody.
pub proof fn law_abandoned_job_is_not_handed_out(
    row: Row,
    kinds: Seq<String>,
    failed_at: i128,
    now: int,
    cutoff: int,
)
    ensures
        !eligible(after_failure(row, RetryPolicy::Abandon, failed_at), kinds, now, cutoff),
{
}

/// A job that is to be tried again is handed out from the end of its delay on, and not
/// before.
pub proof fn law_retry_waits_its_delay(
    row: Row,
    kinds: Seq<String>,
    delay: i128,
    failed_at: i128,
    now: int,
    cutoff: int,
)
    requires
        i128::MIN <= failed_at + delay <= i128::MAX,
        holds(kinds, row.kind@),
    ensures
        eligible(after_failure(row, RetryPolicy::Retry { delay }, failed_at), kinds, now, cutoff)
            <==> failed_at + delay <= now,
{
}

/// Once a schedule has fired it is next due when it was told, its job waits in the queue,
/// and no job has left it.
pub proof fn law_fired_schedule_has_a_waiting_job(
    f: ScheduleFiring,
    name: Seq<char>,
    next: i128,
    id: u128,
    clock: i128,
)
    requires
        f.schedules.dom().contains(name),
    ensures
        ({
            let s = f.schedules[name].0;
            let after = fire_one(f, name, next, id, clock);
            &&& after.schedules[name] == (s, next)
            &&& waiting(after.rows, s.kind@, s.payload@)
            &&& f.rows.is_prefix_of(after.rows)
        }),
{
    let s = f.schedules[name].0;
    let after = fire_one(f, name, next, id, clock);
    if !waiting(f.rows, s.kind@, s.payload@) {
        let last = f.rows.len() as int;
        assert(after.rows[last].state == JobState::Available);
    }
}

/// A completed job is gone from the queue, and no other job is.
pub proof fn law_complete_removes_only_it(rows: Seq<Row>, id: u128, row: Row)
    ensures
        without_job(rows, id).contains(row) <==> rows.contains(row) && row.id != id,
    decreases rows.len(),
{
    if rows.len() > 0 {
        law_complete_removes_only_it(rows.drop_last(), id, row);
        let rest = without_job(rows.drop_last(), id);
        assert(rows =~= rows.drop_last().push(rows.last()));
        if rows.contains(row) && row != rows.last() {
            let i = choose|i: int| 0 <= i < rows.len() && rows[i] == row;
            assert(rows.drop_last()[i] == row);
        }
        if rows.drop_last().contains(row) {
            let i = choose|i: int| 0 <= i < rows.drop_last().len() && rows.drop_last()[i] == row;
            assert(rows[i] == row);
        }
        if rows.last().id != id {
            assert(rest.push(rows.last())[rest.len() as int] == rows.last());
            if rest.contains(row) {
                let i = choose|i: int| 0 <= i < rest.len() && rest[i] == row;
                assert(rest.push(rows.last())[i] == row);
            }
            if rest.push(rows.last()).contains(row) && row != rows.last() {
                let i = choose|i: int|
                    0 <= i < rest.push(rows.last()).len() && rest.push(rows.last())[i] == row;
                assert(rest[i] == row);
            }
        }
        assert(rows[rows.len() - 1] == rows.last());
    }
}

} // verus!
