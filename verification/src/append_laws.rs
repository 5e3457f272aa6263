//! What holds of rows that are appended beside the files: the values they take, the places
//! they get, the job that follows, and the order in which the write closes.
use crate::error::Fault;
use crate::framing::{count_of, rank_of, runs_of, starts_of};
use crate::iceberg_inline::{column_names, parameters};
use crate::iceberg_mirror::{ConsolidateState, ProjectedColumn, TriggerState};
use crate::inline_append::{
    append_step, are_append_columns, are_cells, bucket_plan, frames_columns, identity_key,
    AppendAction, AppendEvent, AppendRequest, AppendState,
};
use crate::inline_cells::{bucket_of, cell_of};
use crate::inline_delta::{delta_step, DeltaAction, DeltaEvent, DeltaRequest, DeltaState};
use crate::inline_laws::{hold_row, law_cell_is_the_value};
use crate::jobs::{is_table_job, json_char, json_chars, table_payload};
use crate::settle::{
    append_close, change_close, closes, enqueues, mv_marks, queued_job, MvCommit, SettleStep,
};
use crate::stream::StreamKind;
use crate::text::int_text;
use crate::types::{ColumnSpec, NewJob, TableRef};
use vstd::prelude::*;

verus! {

/// An append inserts every row of the batch, in its order, each with the values that the
/// batch has there under the columns of the write. A table that is no stream gets them
/// without places; a stream gets each with its bucket and its offset.
pub proof fn law_append_inserts_the_batch(
    req: AppendRequest,
    state: AppendState,
    event: AppendEvent,
    next: AppendState,
    action: AppendAction,
    i: int,
)
    requires
        append_step(req, state, event, next, action),
        action is Insert,
        0 <= i < req.rows,
    ensures
        action->Insert_rows@.len() == req.rows,
        hold_row(action->Insert_rows@[i]@, req.batch@, req.columns@, i),
        next is Inserting,
        state matches AppendState::Preparing { tid } ==> action->frames is None && action->sql@
            == "insert into "@ + ("iceberg_mirror.inline_"@ + int_text(tid as int))
            + " (begin_snapshot, "@ + column_names(req.columns@) + ") values ($1, "@ + parameters(
            req.columns@.len(),
            2,
        ) + ")"@,
        state matches AppendState::Reserving { tid, bucket_count, buckets, runs, notify } ==> action->frames is Some
            && action->sql@ == "insert into "@ + ("iceberg_mirror.inline_"@ + int_text(tid as int))
            + " (begin_snapshot, loom_bucket, loom_offset, "@ + column_names(req.columns@)
            + ") values ($1, $2, $3, "@ + parameters(req.columns@.len(), 4) + ")"@,
        state is Preparing || state is Reserving,
{
    let cells = action->Insert_rows@[i]@;
    assert(are_cells(cells, req.batch@, req.columns@, i));
    assert forall|c: int| 0 <= c < req.columns@.len() implies crate::inline_laws::holds_value(
        #[trigger] cells[c],
        req.batch@[c],
        i,
    ) by {
        law_cell_is_the_value(req.batch@[c], c, i, req.columns@[c].ty@, cells[c]);
    }
}

/// In a stream a row goes to the bucket that was planned for it, at the offset where the run
/// reserved for that bucket begins, moved on by as many rows as come before it in the
/// bucket.
pub proof fn law_row_takes_its_place(
    req: AppendRequest,
    tid: i64,
    bucket_count: usize,
    buckets: Vec<usize>,
    runs: Vec<(i32, i64)>,
    notify: bool,
    firsts: Vec<i64>,
    next: AppendState,
    action: AppendAction,
    row: int,
    k: int,
)
    requires
        append_step(
            req,
            AppendState::Reserving { tid, bucket_count, buckets, runs, notify },
            AppendEvent::Reserved { firsts },
            next,
            action,
        ),
        action is Insert,
        0 <= row < buckets@.len(),
        0 <= k < runs@.len(),
        runs@[k].0 == buckets@[row] as i32,
        buckets@[row] < bucket_count,
        forall|r: int| 0 <= r < runs@.len() ==> 0 <= (#[trigger] runs@[r]).0 < bucket_count,
        forall|r: int, q: int|
            0 <= r < q < runs@.len() ==> (#[trigger] runs@[r]).0 != (#[trigger] runs@[q]).0,
        buckets@[row] <= i32::MAX,
        firsts@[k] + row <= i64::MAX,
    ensures
        ({
            let place = (action->frames->0)@[row];
            &&& place.0 == buckets@[row]
            &&& place.1 == firsts@[k] + buckets@.take(row).filter(|b: usize| b == buckets@[row]).len()
        }),
        action->notify == notify,
{
    lemma_start_of_run(bucket_count as nat, runs@, firsts@, k);
    law_rank_counts_the_earlier_rows(buckets@, row);
    lemma_count_below(buckets@.take(row), buckets@[row] as int);
}

proof fn lemma_count_below(buckets: Seq<usize>, b: int)
    ensures
        count_of(buckets, b) <= buckets.len(),
    decreases buckets.len(),
{
    if buckets.len() > 0 {
        lemma_count_below(buckets.drop_last(), b);
    }
}

proof fn lemma_start_of_run(bucket_count: nat, runs: Seq<(i32, i64)>, firsts: Seq<i64>, k: int)
    requires
        0 <= k < runs.len(),
        forall|r: int| 0 <= r < runs.len() ==> 0 <= (#[trigger] runs[r]).0 < bucket_count,
        forall|r: int, q: int| 0 <= r < q < runs.len() ==> (#[trigger] runs[r]).0 != (#[trigger] runs[q]).0,
    ensures
        starts_of(bucket_count, runs, firsts).len() == bucket_count,
        starts_of(bucket_count, runs, firsts)[runs[k].0 as int] == firsts[k],
    decreases runs.len(),
{
    let before = runs.drop_last();
    lemma_starts_len(bucket_count, before, firsts);
    if k < before.len() {
        assert(before[k] == runs[k]);
        assert forall|r: int| 0 <= r < before.len() implies 0 <= (#[trigger] before[r]).0 < bucket_count by {
            assert(before[r] == runs[r]);
        }
        assert forall|r: int, q: int| 0 <= r < q < before.len() implies (#[trigger] before[r]).0 != (
        #[trigger] before[q]).0 by {
            assert(before[r] == runs[r] && before[q] == runs[q]);
        }
        lemma_start_of_run(bucket_count, before, firsts, k);
        assert(runs[k].0 != runs[runs.len() - 1].0);
    }
}

proof fn lemma_starts_len(bucket_count: nat, runs: Seq<(i32, i64)>, firsts: Seq<i64>)
    requires
        forall|r: int| 0 <= r < runs.len() ==> 0 <= (#[trigger] runs[r]).0 < bucket_count,
    ensures
        starts_of(bucket_count, runs, firsts).len() == bucket_count,
    decreases runs.len(),
{
    if runs.len() > 0 {
        assert(0 <= runs[runs.len() - 1].0 < bucket_count);
        lemma_starts_len(bucket_count, runs.drop_last(), firsts);
    }
}

/// The rank of a row is the number of earlier rows in its bucket.
pub proof fn law_rank_counts_the_earlier_rows(buckets: Seq<usize>, row: int)
    requires
        0 <= row < buckets.len(),
    ensures
        rank_of(buckets, row) == buckets.take(row).filter(|b: usize| b == buckets[row]).len(),
{
    law_count_is_how_many(buckets.take(row), buckets[row]);
    lemma_same_count(buckets.take(row), buckets[row], buckets[row]);
    let p = |b: usize| b == buckets[row];
    let bucket = buckets[row];
    let q = |b: usize| b == bucket;
    assert forall|x: usize| #[trigger] p(x) == q(x) by {}
    lemma_filter_len(buckets.take(row), p, q);
}

proof fn lemma_same_count(buckets: Seq<usize>, a: usize, b: usize)
    requires
        a == b,
    ensures
        count_of(buckets, a as int) == count_of(buckets, b as int),
{
}

proof fn lemma_filter_len<T>(s: Seq<T>, p: spec_fn(T) -> bool, q: spec_fn(T) -> bool)
    requires
        forall|x: T| #[trigger] p(x) == q(x),
    ensures
        s.filter(p).len() == s.filter(q).len(),
    decreases s.len(),
{
    reveal(Seq::filter);
    if s.len() > 0 {
        lemma_filter_len(s.drop_last(), p, q);
        assert(p(s.last()) == q(s.last()));
    }
}

/// The count of a bucket is how many of the rows are in it.
pub proof fn law_count_is_how_many(buckets: Seq<usize>, bucket: usize)
    ensures
        count_of(buckets, bucket as int) == buckets.filter(|b: usize| b == bucket).len(),
    decreases buckets.len(),
{
    reveal(Seq::filter);
    if buckets.len() > 0 {
        law_count_is_how_many(buckets.drop_last(), bucket);
    }
}

/// A run of offsets is reserved in each bucket that gets rows, in the order of the buckets,
/// as long as the bucket gets rows, and in no other.
pub proof fn law_runs_cover_the_rows(counts: Seq<i64>, k: int)
    requires
        counts.len() <= i32::MAX,
    ensures
        0 <= k < runs_of(counts).len() ==> {
            let (b, n) = runs_of(counts)[k];
            0 <= b < counts.len() && n == counts[b as int] && n > 0
        },
        forall|b: int| 0 <= b < counts.len() && #[trigger] counts[b] > 0 ==> runs_of(counts).contains(
            (b as i32, counts[b]),
        ),
        0 <= k < runs_of(counts).len() - 1 ==> runs_of(counts)[k].0 < runs_of(counts)[k + 1].0,
{
    crate::framing::lemma_runs(counts);
    let runs = runs_of(counts);
    assert forall|b: int| 0 <= b < counts.len() && #[trigger] counts[b] > 0 implies runs.contains(
        (b as i32, counts[b]),
    ) by {
        let i = choose|i: int| 0 <= i < runs.len() && (#[trigger] runs[i]).0 == b;
        assert(runs[i] == (b as i32, counts[b]));
    }
}

/// In a stream of changes two rows with the same identity go to the same bucket, and every
/// row to one of the table's; in any other stream the rows go to the buckets in turn.
pub proof fn law_rows_find_their_buckets(
    req: AppendRequest,
    bucket_count: i32,
    key: Option<Seq<char>>,
    r: int,
    q: int,
)
    requires
        bucket_plan(req, bucket_count, key) is Ok,
        bucket_count >= 1,
        0 <= r < req.rows,
        0 <= q < req.rows,
    ensures
        ({
            let plan = bucket_plan(req, bucket_count, key)->Ok_0;
            &&& plan.len() == req.rows
            &&& 0 <= plan[r] < bucket_count
            &&& key is None ==> plan[r] == r % (bucket_count as int)
            &&& key matches Some(name) ==> exists|c: int|
                0 <= c < req.columns@.len() && (#[trigger] req.columns@[c]).name@ == name && (cell_of(
                    req.batch@[c],
                    c,
                    r,
                    req.columns@[c].ty@,
                ) == cell_of(req.batch@[c], c, q, req.columns@[c].ty@) ==> plan[r] == plan[q])
        }),
{
    let n = bucket_count as int;
    let plan = bucket_plan(req, bucket_count, key)->Ok_0;
    assert(0 <= r % n < n) by (nonlinear_arith)
        requires
            n >= 1,
    ;
    match key {
        None => {},
        Some(name) => {
            lemma_place(req.columns@, name, 0);
            let c = crate::inline_append::place_of(req.columns@, name, 0)->0;
            lemma_placed(req, c, n, 0, r);
            lemma_placed(req, c, n, 0, q);
            crate::inline_cells::law_bucket_in_range(
                cell_of(req.batch@[c], c, r, req.columns@[c].ty@)->Ok_0,
                n,
            );
            assert(req.columns@[c].name@ == name);
        },
    }
}

proof fn lemma_place(columns: Seq<ColumnSpec>, name: Seq<char>, from: int)
    requires
        from >= 0,
    ensures
        crate::inline_append::place_of(columns, name, from) matches Some(i) ==> from <= i < columns.len()
            && columns[i].name@ == name,
    decreases columns.len() - from,
{
    if from < columns.len() && columns[from].name@ != name {
        lemma_place(columns, name, from + 1);
    }
}

proof fn lemma_placed(req: AppendRequest, idx: int, bucket_count: int, from: int, r: int)
    requires
        crate::inline_append::first_unplaced(req, idx, bucket_count, from) is None,
        0 <= from <= r < req.rows,
        bucket_count >= 1,
    ensures
        cell_of(req.batch@[idx], idx, r, req.columns@[idx].ty@) is Ok,
        crate::inline_append::keyed_bucket(req, idx, bucket_count, r) == Ok::<int, Fault>(
            bucket_of(cell_of(req.batch@[idx], idx, r, req.columns@[idx].ty@)->Ok_0, bucket_count),
        ),
    decreases r - from,
{
    if from < r {
        lemma_placed(req, idx, bucket_count, from + 1, r);
    }
}

/// Rows are placed by identity in a stream of changes alone, and there by the key that is
/// recorded of it.
pub proof fn law_only_changes_are_keyed(kind: Option<StreamKind>, key: String)
    ensures
        kind == Some(StreamKind::Cdc) ==> identity_key(kind, Some(key)) == Some(key@),
        kind != Some(StreamKind::Cdc) ==> identity_key(kind, Some(key)) is None,
        identity_key(kind, None) is None,
{
}

/// The columns of an append are kept in the mirror in their order, under their names and
/// with their nullability; those of a stream have behind them what places its rows.
pub proof fn law_append_columns_are_kept(req: AppendRequest, framed: bool, p: Seq<ProjectedColumn>, i: int)
    requires
        are_append_columns(req, framed, p),
        0 <= i < req.columns@.len(),
    ensures
        p[i].order == i,
        p[i].name@ == req.columns@[i].name@,
        p[i].nullable == req.columns@[i].nullable,
        !framed ==> p.len() == req.columns@.len(),
        framed ==> p.len() == req.columns@.len() + 3 && p[p.len() - 3].name@ == "loom_change_kind"@
            && p[p.len() - 2].name@ == "loom_bucket"@ && p[p.len() - 1].name@ == "loom_offset"@
            && p[p.len() - 3].iceberg_type@ == "string"@ && p[p.len() - 2].iceberg_type@ == "int"@
            && p[p.len() - 1].iceberg_type@ == "long"@,
{
    assert(crate::inline_append::is_user_column(p[i], req.columns@[i], req.resolved@[i], i));
}

/// The rows are those of a stream where the table is one already, and where the write both
/// declares one and makes the table.
pub proof fn law_when_rows_are_framed(existing: Option<i32>, declares: bool, created: bool)
    ensures
        existing is Some ==> frames_columns(existing, declares, created),
        existing is None && declares && created ==> frames_columns(existing, declares, created),
        existing is None && !created ==> !frames_columns(existing, declares, created),
        existing is None && !declares ==> !frames_columns(existing, declares, created),
{
}

/// A flush of the table is queued exactly where the bytes count, there are at least as many
/// as the threshold, none is queued yet, and the table either is a stream of changes or has
/// no inline changes. It is queued first of all, and the commit comes last.
pub proof fn law_flush_is_queued_when_due(
    req: AppendRequest,
    trigger: Option<TriggerState>,
    is_cdc: bool,
    shadowed: bool,
    next: AppendState,
    action: AppendAction,
)
    requires
        append_step(
            req,
            AppendState::Inserting,
            AppendEvent::Inserted { trigger, is_cdc, shadowed },
            next,
            action,
        ),
    ensures
        action is Finish,
        action->steps@.len() >= 3,
        action->steps@[0] is Queue <==> req.accrues && (trigger matches Some(t) && t.live_bytes
            >= t.effective && !t.enqueued && (is_cdc || !shadowed)),
        action->steps@[0] matches SettleStep::Queue { job } ==> {
            &&& job.kind@ == "flush_table"@
            &&& job.payload@ == table_payload(req.table.schema@, req.table.name@)
            &&& job.run_at is None
            &&& job.priority == 0
        },
        action->steps@.last() is Commit,
{
    let steps = action->steps@;
    let close = append_close(req.run, req.jobs as nat);
    assert(close[0] is Emit);
    if queued_job(steps) is Some {
        assert(steps =~= seq![steps[0]] + close);
    }
    crate::settle::law_append_commits_last(steps, req.run, req.jobs as nat);
}

/// A consolidation of the table is queued exactly where the change counts, there are at
/// least as many change rows as the threshold, and none is queued yet.
pub proof fn law_consolidation_is_queued_when_due(
    req: DeltaRequest,
    cdc: bool,
    trigger: Option<ConsolidateState>,
    next: DeltaState,
    action: DeltaAction,
)
    requires
        delta_step(req, DeltaState::Writing { cdc }, DeltaEvent::Written { trigger }, next, action),
    ensures
        action is Finish,
        action->steps@.len() >= 4,
        action->steps@[0] is Queue <==> req.accrues && (trigger matches Some(t) && t.delta_count
            >= t.effective && !t.enqueued),
        action->steps@[0] matches SettleStep::Queue { job } ==> {
            &&& job.kind@ == "stream_consolidate"@
            &&& job.payload@ == table_payload(req.table.schema@, req.table.name@)
            &&& job.run_at is None
            &&& job.priority == 0
        },
        action->steps@.last() is Commit,
        cdc ==> action->steps@[action->steps@.len() - 2] is Notify,
{
    let steps = action->steps@;
    let close = change_close(req.run, req.jobs as nat, cdc);
    assert(close[0] is MarkShadow);
    if queued_job(steps) is Some {
        assert(steps =~= seq![steps[0]] + close);
    }
    crate::settle::law_change_commits_last(steps, req.run, req.jobs as nat, cdc);
}

/// An append that has nothing to queue of its own accord records the lineage, queues the
/// jobs of the write in their order, fires the triggers for the run of the write, and
/// commits, in this order.
pub proof fn law_append_closes_in_order(steps: Seq<SettleStep>, run: u128, jobs: nat, i: int)
    requires
        closes(steps, append_close(run, jobs)),
        queued_job(steps) is None,
        jobs <= usize::MAX,
    ensures
        steps.len() == jobs + 3,
        steps[0] is Emit,
        0 <= i < jobs ==> (steps[i + 1] matches SettleStep::Enqueue { index } && index == i),
        steps[jobs + 1int] == (SettleStep::Fire { run }),
        steps[jobs + 2int] is Commit,
{
    let all = enqueues(jobs);
    assert(steps == seq![SettleStep::Emit] + all + seq![SettleStep::Fire { run }, SettleStep::Commit]);
}

/// A change that has nothing to queue of its own accord marks the table as changed, records
/// the lineage, fires the triggers for the run of the change, queues the jobs of the change
/// in their order, wakes the subscribers where there are any, and commits, in this order.
pub proof fn law_change_closes_in_order(steps: Seq<SettleStep>, run: u128, jobs: nat, wakes: bool, i: int)
    requires
        closes(steps, change_close(run, jobs, wakes)),
        queued_job(steps) is None,
        jobs <= usize::MAX,
    ensures
        steps.len() == jobs + (if wakes {
            5int
        } else {
            4int
        }),
        steps[0] is MarkShadow,
        steps[1] is Emit,
        steps[2] == (SettleStep::Fire { run }),
        0 <= i < jobs ==> (steps[i + 3] matches SettleStep::Enqueue { index } && index == i),
        wakes ==> steps[jobs + 3int] is Notify,
        steps.last() is Commit,
{
}

/// What a view commits moves each of its marks, in their order, and then marks its run,
/// where it has one, with the snapshot that is given.
pub proof fn law_view_moves_its_marks(mv: MvCommit, snapshot: Option<i64>, i: int)
    ensures
        0 <= i < mv.advances@.len() ==> (mv_marks(mv, snapshot)[i] matches SettleStep::Advance { advance }
            && advance == mv.advances@[i]),
        mv.run_id is None ==> mv_marks(mv, snapshot).len() == mv.advances@.len(),
        mv.run_id matches Some(run) ==> mv_marks(mv, snapshot).len() == mv.advances@.len() + 1
            && mv_marks(mv, snapshot).last() == (SettleStep::MarkRun { run, snapshot }),
{
}

/// The job for a table names its kind and holds the table's name and schema as text; it is
/// due at once.
pub proof fn law_job_names_its_table(job: NewJob, kind: Seq<char>, table: TableRef)
    requires
        is_table_job(job, kind, table),
        plain(table.name@),
        plain(table.schema@),
    ensures
        job.kind@ == kind,
        job.payload@ == "{\"name\":"@ + ("\""@ + table.name@ + "\""@) + ",\"schema\":"@ + ("\""@
            + table.schema@ + "\""@) + "}"@,
        job.run_at is None,
{
    law_plain_text_is_not_escaped(table.name@);
    law_plain_text_is_not_escaped(table.schema@);
}

/// No character of the text has to be escaped.
pub open spec fn plain(t: Seq<char>) -> bool {
    forall|i: int| 0 <= i < t.len() ==> (#[trigger] t[i]) != '"' && t[i] != '\\' && t[i] as int >= 32
}

/// A text of which no character has to be escaped stands in JSON as it is.
pub proof fn law_plain_text_is_not_escaped(t: Seq<char>)
    requires
        plain(t),
    ensures
        json_chars(t) == t,
    decreases t.len(),
{
    if t.len() > 0 {
        let before = t.drop_last();
        assert forall|i: int| 0 <= i < before.len() implies (#[trigger] before[i]) != '"' && before[i]
            != '\\' && before[i] as int >= 32 by {
            assert(before[i] == t[i]);
        }
        law_plain_text_is_not_escaped(before);
        assert(json_char(t.last()) == seq![t[t.len() - 1]]);
        assert(before + seq![t.last()] =~= t);
    } else {
        assert(json_chars(t) =~= t);
    }
}

} // verus!
