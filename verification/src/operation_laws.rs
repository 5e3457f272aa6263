//! What holds of a call, whatever it is called on: the law speaks of what went in and what
//! came out.
use crate::auth::LockoutPolicy;
use crate::commit_laws::{law_commit_shows_the_files_compacted, law_commit_shows_the_files_written};
use crate::commit_mirror::CommitExtras;
use crate::error::{ControlPlaneError, Fault};
use crate::iceberg_catalog::read_through;
use crate::iceberg_control_plane::IcebergTx;
use crate::iceberg_flush::{changelog_extras, flush_extras};
use crate::iceberg_inline::{
    column_names, ddl_outcome, end_cap_by_id_sql, end_cap_live_sql, DdlOutcome,
};
use crate::iceberg_landing::{object_data_file, stamp_framing, Stamps};
use crate::iceberg_type::BaseType;
use crate::iceberg_writer::{written_file, WrittenFile};
use crate::inline_delta::{
    write_inline_delta, DeltaAction, DeltaEvent, DeltaRequest, DeltaRow, DeltaState, RowImage,
};
use crate::inline_laws::{
    hold_row, law_full_read_asks_for_every_live_row, law_removal_writes_the_row_as_it_was,
    law_update_writes_both_images,
};
use crate::inline_read::{
    inline_live_batch, inline_live_batch_full, ReadAction, ReadEvent, ReadState,
};
use crate::memory::{ControlPlaneView, MemoryControlPlane};
use crate::mv_bootstrap::{bootstrap_mv_watermarks, lower, prefix_is_gone, BootstrapStep};
use crate::mv_floor::{consults_floor, guard_end_cap, removal_blocked, EndCapIntent, MvFloor};
use crate::ordered::OrderedMap;
use crate::queue::{eligible, goes_before, is_next, job_of, taken, Job, Row};
use crate::s3_storage::{deleted, is_there, Asked};
use crate::signing::bucket_made;
use crate::sql_catalog::{
    blank, create_namespace, drop_namespace, get_namespace, levels_of, list_tables, lists_row,
    namespace_exists, row_table, some_table_row, with_props, CatalogFault, NamespaceInsert,
    SqlCatalogBuilder, SqlCatalogConfig, TableName, TableRow,
};
use crate::stored_lineage::graph_depth;
use crate::stored_rules::{
    conflict_or_backend, notfound_or_backend, record_failed_login, seal_bootstrap, token_seal,
    update_password, FailedLogin,
};
use crate::text::{holds, int_text, texts};
use crate::transaction::{commit_fits, Committed, MemoryTx, StagedWrite, Trigger};
use crate::transform_laws::{
    law_failed_run_is_failed, law_outcome_decides_the_state, law_successful_run_has_succeeded,
};
use crate::types::{
    ColumnSpec, ColumnStat, DataFile, LineageEvent, NewJob, RunOutcome, TableRef, ViewDef,
};
use vstd::prelude::*;

verus! {

/// A row could be handed to a worker that asks for these kinds: it is of one of them, it is
/// due, and it waits or was taken by a worker that has been silent since before an instant.
pub open spec fn could_be_handed(row: Row, kinds: Seq<String>, now: int, silent: int) -> bool {
    &&& holds(kinds, row.kind@)
    &&& row.run_at <= now
    &&& row.state is Available || (row.state is Running && (row.locked_at is None || row.locked_at->0
        < silent))
}

/// The job that a worker is handed is one that could be handed out. Among the rows that could
/// none has a higher priority, none of the same priority is due earlier, and none of the same
/// priority and instant stands before it.
pub proof fn law_dequeue(cp: &mut MemoryControlPlane, kinds: &Vec<String>, now: i128, job: Job)
    requires
        call_ensures(MemoryControlPlane::dequeue_at, (cp, kinds, now), Some(job)),
    ensures
        ({
            let rows = old(cp)@.rows;
            let silent = now - old(cp)@.lock_timeout;
            exists|i: int|
                {
                    &&& 0 <= i < rows.len()
                    &&& could_be_handed(#[trigger] rows[i], kinds@, now as int, silent)
                    &&& job.id == rows[i].id
                    &&& job.kind == rows[i].kind
                    &&& job.payload == rows[i].payload
                    &&& job.run_at == rows[i].run_at
                    &&& forall|j: int|
                        0 <= j < rows.len() && could_be_handed(
                            #[trigger] rows[j],
                            kinds@,
                            now as int,
                            silent,
                        ) ==> {
                            &&& rows[i].priority >= rows[j].priority
                            &&& rows[i].priority == rows[j].priority ==> rows[i].run_at <= rows[j].run_at
                            &&& rows[i].priority == rows[j].priority && rows[i].run_at == rows[j].run_at
                                ==> i <= j
                        }
                }
        }),
{
    let rows = old(cp)@.rows;
    let cutoff = now - old(cp)@.lock_timeout;
    assert(exists|i: int| #[trigger]
        is_next(rows, kinds@, now as int, cutoff, i) && job == job_of(taken(rows[i], now)));
    let i = choose|i: int| #[trigger]
        is_next(rows, kinds@, now as int, cutoff, i) && job == job_of(taken(rows[i], now));
    assert forall|j: int|
        0 <= j < rows.len() && could_be_handed(#[trigger] rows[j], kinds@, now as int, cutoff) implies {
        &&& rows[i].priority >= rows[j].priority
        &&& rows[i].priority == rows[j].priority ==> rows[i].run_at <= rows[j].run_at
        &&& rows[i].priority == rows[j].priority && rows[i].run_at == rows[j].run_at ==> i <= j
    } by {
        if j != i {
            assert(eligible(rows[j], kinds@, now as int, cutoff));
            assert(goes_before(rows, i, j));
        }
    }
    assert(could_be_handed(rows[i], kinds@, now as int, cutoff));
}

/// Where no row could be handed out, a worker is handed none, and nothing changes; where one
/// could, it is handed one.
pub proof fn law_dequeue_of_nothing(
    cp: &mut MemoryControlPlane,
    kinds: &Vec<String>,
    now: i128,
    r: Option<Job>,
)
    requires
        call_ensures(MemoryControlPlane::dequeue_at, (cp, kinds, now), r),
    ensures
        r is Some <==> exists|j: int|
            0 <= j < old(cp)@.rows.len() && could_be_handed(
                #[trigger] old(cp)@.rows[j],
                kinds@,
                now as int,
                now - old(cp)@.lock_timeout,
            ),
        r is None ==> final(cp)@ == old(cp)@,
{
    let rows = old(cp)@.rows;
    let cutoff = now - old(cp)@.lock_timeout;
    if r is Some {
        law_dequeue(cp, kinds, now, r->0);
    } else {
        assert forall|j: int| 0 <= j < rows.len() implies !could_be_handed(
            #[trigger] rows[j],
            kinds@,
            now as int,
            cutoff,
        ) by {
            assert(!eligible(rows[j], kinds@, now as int, cutoff));
        }
    }
}

/// A run that is finished with a failure has failed, with the error and at the instant given.
pub proof fn law_finish_with_a_failure(
    cp: &mut MemoryControlPlane,
    run_id: u128,
    error: String,
    now: i128,
    r: Result<(), ControlPlaneError>,
)
    requires
        old(cp)@.runs.dom().contains(run_id as int),
        call_ensures(MemoryControlPlane::finish_run_at, (cp, run_id, RunOutcome::Failed { error }, now), r),
    ensures
        r is Ok,
        final(cp)@.runs[run_id as int].state is Failed,
        final(cp)@.runs[run_id as int].error == Some(error),
        final(cp)@.runs[run_id as int].finished_at == Some(now),
{
    law_failed_run_is_failed(old(cp)@, final(cp)@, run_id, error, now, r);
}

/// A run that is finished with a success has succeeded, with the snapshot and at the instant
/// given.
pub proof fn law_finish_with_a_success(
    cp: &mut MemoryControlPlane,
    run_id: u128,
    snapshot_id: i64,
    now: i128,
    r: Result<(), ControlPlaneError>,
)
    requires
        old(cp)@.runs.dom().contains(run_id as int),
        call_ensures(
            MemoryControlPlane::finish_run_at,
            (cp, run_id, RunOutcome::Succeeded { snapshot_id }, now),
            r,
        ),
    ensures
        r is Ok,
        final(cp)@.runs[run_id as int].state is Succeeded,
        final(cp)@.runs[run_id as int].snapshot_id == Some(snapshot_id),
        final(cp)@.runs[run_id as int].finished_at == Some(now),
{
    law_successful_run_has_succeeded(old(cp)@, final(cp)@, run_id, snapshot_id, now, r);
}

/// No outcome but a success leaves a run in the state of success, and none but a failure in
/// that of failure.
pub proof fn law_only_success_succeeds(
    cp: &mut MemoryControlPlane,
    run_id: u128,
    o: RunOutcome,
    now: i128,
    r: Result<(), ControlPlaneError>,
)
    requires
        old(cp)@.runs.dom().contains(run_id as int),
        call_ensures(MemoryControlPlane::finish_run_at, (cp, run_id, o, now), r),
    ensures
        final(cp)@.runs[run_id as int].state is Succeeded <==> o is Succeeded,
        final(cp)@.runs[run_id as int].state is Failed <==> o is Failed,
{
    law_outcome_decides_the_state(old(cp)@, final(cp)@, run_id, o, now, r);
}

/// The rows that an update writes: the one of kind `-U` holds the cells of the row as it was,
/// under the columns that it had, and the one of kind `+U` holds the cells of the new batch,
/// under the columns of the request.
pub proof fn law_update_images(
    req: &DeltaRequest,
    image: RowImage,
    tid: i64,
    bucket: i32,
    first: i64,
    r: (DeltaState, DeltaAction),
    k: int,
)
    requires
        !req.tombstone,
        req.before == Some(image),
        r.1 is Write,
        call_ensures(
            write_inline_delta,
            (req, DeltaState::Placing { tid, bucket }, DeltaEvent::Reserved { first }),
            r,
        ),
        0 <= k < r.1->rows@.len(),
    ensures
        r.1->rows@.len() == 2,
        r.1->rows@[k] matches DeltaRow::Change { kind, tombstone, cells, .. } && !tombstone && {
            &&& kind@ == "-U"@ || kind@ == "+U"@
            &&& kind@ == "-U"@ ==> hold_row(cells@, image.batch@, image.columns@, 0)
            &&& kind@ == "+U"@ ==> hold_row(cells@, req.batch@, req.columns@, 0)
        },
        r.1->rows@[0]->Change_kind@ == "-U"@,
        r.1->rows@[1]->Change_kind@ == "+U"@,
{
    law_update_writes_both_images(*req, image, tid, bucket, first, r.0, r.1);
    reveal_strlit("-U");
    reveal_strlit("+U");
    assert("-U"@[0] == '-' && "+U"@[0] == '+');
}

/// The row that a removal writes holds the cells of the row as it was, under the columns that
/// it had.
pub proof fn law_removal_image(
    req: &DeltaRequest,
    image: RowImage,
    tid: i64,
    bucket: i32,
    first: i64,
    r: (DeltaState, DeltaAction),
)
    requires
        req.tombstone,
        req.before == Some(image),
        r.1 is Write,
        call_ensures(
            write_inline_delta,
            (req, DeltaState::Placing { tid, bucket }, DeltaEvent::Reserved { first }),
            r,
        ),
    ensures
        r.1->rows@.len() == 1,
        r.1->rows@[0] matches DeltaRow::Change { kind, tombstone, cells, .. } && tombstone && kind@ == "-D"@
            && hold_row(cells@, image.batch@, image.columns@, 0),
{
    law_removal_writes_the_row_as_it_was(*req, image, tid, bucket, first, r.0, r.1);
}

/// The full read asks for every row that is live at the snapshot; the read of the current
/// state asks, besides, that the kind is not `-U`, and is another statement.
pub proof fn law_full_and_current_reads(
    at: i64,
    tid: i64,
    columns: Vec<ColumnSpec>,
    resolved: Vec<Option<BaseType>>,
    current: (ReadState, ReadAction),
    full: (ReadState, ReadAction),
)
    requires
        call_ensures(
            inline_live_batch,
            (at, ReadState::Describing { tid }, ReadEvent::ColumnsRead { columns, resolved }),
            current,
        ),
        call_ensures(
            inline_live_batch_full,
            (at, ReadState::Describing { tid }, ReadEvent::ColumnsRead { columns, resolved }),
            full,
        ),
    ensures
        ({
            let head = "select loom_row_id, "@ + column_names(columns@) + " from "@ + (
            "iceberg_mirror.inline_"@ + int_text(tid as int)) + " where "@ + ("begin_snapshot <= "@ + int_text(
                at as int,
            ) + " and (end_snapshot is null or end_snapshot > "@ + int_text(at as int) + ")"@);
            &&& full.1 matches ReadAction::Query { sql } && sql@ == head + " order by loom_row_id"@
            &&& current.1 matches ReadAction::Query { sql } && sql@ == head
                + " and (loom_change_kind is null or loom_change_kind <> '-U')"@ + " order by loom_row_id"@
            &&& full.1->sql@ != current.1->sql@
        }),
{
    law_full_read_asks_for_every_live_row(at, tid, columns, resolved, current, full);
}

/// Files staged for an append show, once committed, at the end of what the table shows at the
/// snapshot of the commit, in their order: each with its path, its number of rows and its size
/// in bytes. Files staged for a replacement show alone.
pub proof fn law_staged_files_show(
    tx: &mut MemoryTx,
    cp: &mut MemoryControlPlane,
    triggers: &Vec<Trigger>,
    now: i128,
    r: Result<Committed, ControlPlaneError>,
    table: TableRef,
    files: Vec<DataFile>,
    replace: bool,
    i: int,
)
    requires
        if replace {
            call_ensures(MemoryTx::replace_files, (tx, table, files), ())
        } else {
            call_ensures(MemoryTx::append_files, (tx, table, files), ())
        },
        call_ensures(MemoryTx::commit_at, (*final(tx), cp, triggers, now), r),
        old(cp).wf(),
        commit_fits(old(cp)@, *final(tx)),
        old(tx).staged_compactions@.len() == 0,
        r is Ok,
        0 <= i < files@.len(),
    ensures
        (r->Ok_0).snapshot is Some,
        ({
            let s = ((r->Ok_0).snapshot->0).0;
            let shown = final(cp)@.catalog.files_at(table@, s as int);
            let kept = shown.len() - files@.len();
            &&& kept >= 0
            &&& replace ==> kept == 0
            &&& shown[kept + i].path == files@[i].path
            &&& shown[kept + i].record_count == files@[i].record_count
            &&& shown[kept + i].file_size_bytes == files@[i].file_size_bytes
        }),
{
    law_commit_shows_the_files_written(
        *old(cp),
        *final(cp),
        *final(tx),
        triggers@,
        now,
        r,
        table,
        files,
        i,
    );
}

/// Files staged for a compaction show, once committed, at the end of what the table shows at
/// the snapshot of the commit, in their order: each with its path, its number of rows and its
/// size in bytes.
pub proof fn law_staged_compaction_shows(
    tx: &mut MemoryTx,
    cp: &mut MemoryControlPlane,
    triggers: &Vec<Trigger>,
    now: i128,
    r: Result<Committed, ControlPlaneError>,
    table: TableRef,
    expire: Vec<String>,
    files: Vec<DataFile>,
    i: int,
)
    requires
        call_ensures(MemoryTx::compact_files, (tx, table, expire, files), ()),
        call_ensures(MemoryTx::commit_at, (*final(tx), cp, triggers, now), r),
        old(cp).wf(),
        commit_fits(old(cp)@, *final(tx)),
        r is Ok,
        0 <= i < files@.len(),
    ensures
        (r->Ok_0).snapshot is Some,
        ({
            let s = ((r->Ok_0).snapshot->0).0;
            let shown = final(cp)@.catalog.files_at(table@, s as int);
            let kept = shown.len() - files@.len();
            &&& kept >= 0
            &&& shown[kept + i].path == files@[i].path
            &&& shown[kept + i].record_count == files@[i].record_count
            &&& shown[kept + i].file_size_bytes == files@[i].file_size_bytes
        }),
{
    law_commit_shows_the_files_compacted(*old(cp), *final(cp), *final(tx), triggers@, now, r, i);
}

/// A transaction begins with nothing staged.
pub proof fn law_transaction_begins_empty(cp: &MemoryControlPlane, tx: MemoryTx)
    requires
        call_ensures(MemoryControlPlane::begin_table, (cp,), tx),
    ensures
        tx.staged@.len() == 0,
        tx.staged_events@.len() == 0,
        tx.staged_tables@.len() == 0,
        tx.staged_writes@.len() == 0,
        tx.staged_compactions@.len() == 0,
        tx.staged_run_success is None,
{
}

/// What is staged stands behind what was staged before, as it was handed in; staging one thing
/// leaves the others as they were.
pub proof fn law_staging(
    tx: &mut MemoryTx,
    table: TableRef,
    columns: Vec<ColumnSpec>,
    files: Vec<DataFile>,
    expire: Vec<String>,
    event: LineageEvent,
    job: NewJob,
    id: u128,
)
    ensures
        call_ensures(MemoryTx::create_table, (tx, table, columns), ()) ==> {
            &&& final(tx).staged_tables@ == old(tx).staged_tables@.push((table, columns))
            &&& final(tx).staged_writes == old(tx).staged_writes
            &&& final(tx).staged == old(tx).staged
        },
        call_ensures(MemoryTx::append_files, (tx, table, files), ()) ==> {
            &&& final(tx).staged_writes@ == old(tx).staged_writes@.push(StagedWrite::Append(table, files))
            &&& final(tx).staged_compactions == old(tx).staged_compactions
            &&& final(tx).staged_tables == old(tx).staged_tables
        },
        call_ensures(MemoryTx::replace_files, (tx, table, files), ()) ==> {
            &&& final(tx).staged_writes@ == old(tx).staged_writes@.push(StagedWrite::Replace(table, files))
            &&& final(tx).staged_compactions == old(tx).staged_compactions
            &&& final(tx).staged_tables == old(tx).staged_tables
        },
        call_ensures(MemoryTx::compact_files, (tx, table, expire, files), ()) ==> {
            &&& final(tx).staged_compactions@ == old(tx).staged_compactions@.push((table, expire, files))
            &&& final(tx).staged_writes == old(tx).staged_writes
        },
        call_ensures(MemoryTx::emit, (tx, event), ()) ==> {
            &&& final(tx).staged_events@ == old(tx).staged_events@.push(event)
            &&& final(tx).staged == old(tx).staged
        },
        call_ensures(MemoryTx::enqueue_as, (tx, job, id), ()) ==> {
            &&& final(tx).staged@ == old(tx).staged@.push((id, job))
            &&& final(tx).staged_events == old(tx).staged_events
        },
{
}

/// A transaction marks one run as successful and no second: the second mark is refused and
/// changes nothing.
pub proof fn law_one_run_is_marked(tx: &mut MemoryTx, run_id: u128, r: Result<(), ControlPlaneError>)
    requires
        call_ensures(MemoryTx::mark_run_succeeded, (tx, run_id), r),
    ensures
        r is Ok <==> old(tx).staged_run_success is None,
        r is Ok ==> final(tx).staged_run_success == Some(run_id),
        r is Err ==> *final(tx) == *old(tx) && r->Err_0@ is Validation,
        final(tx).staged_writes == old(tx).staged_writes,
{
}

/// What is rolled back changes nothing.
pub proof fn law_rollback_changes_nothing(tx: MemoryTx, cp: &mut MemoryControlPlane)
    requires
        call_ensures(MemoryTx::rollback, (tx, cp), ()),
    ensures
        *final(cp) == *old(cp),
{
}

/// An event that is emitted is recorded behind those before it.
pub proof fn law_event_is_recorded(cp: &mut MemoryControlPlane, event: LineageEvent)
    requires
        call_ensures(MemoryControlPlane::emit, (cp, event), ()),
    ensures
        final(cp)@.events.len() == old(cp)@.events.len() + 1,
        final(cp)@.events.last() == event,
        final(cp)@.events.drop_last() == old(cp)@.events,
        final(cp)@ == (ControlPlaneView { events: final(cp)@.events, ..old(cp)@ }),
{
    assert(final(cp)@.events.drop_last() =~= old(cp)@.events);
}

/// A subject has a role exactly where it was assigned to it directly.
pub proof fn law_has_role(cp: &MemoryControlPlane, subject: &str, role: &str, r: bool)
    requires
        call_ensures(MemoryControlPlane::has_role, (cp, subject, role), r),
    ensures
        r <==> cp@.acl.members.contains((subject@, role@)),
{
}

/// A retirement consults the readers exactly where it takes rows away, and is refused exactly
/// where, besides, a reader holds it back.
pub proof fn law_guarding(
    table: &TableRef,
    intent: &EndCapIntent,
    blocked: Option<&MvFloor>,
    asks: bool,
    r: Result<(), ControlPlaneError>,
)
    requires
        call_ensures(consults_floor, (intent,), asks),
        call_ensures(guard_end_cap, (table, intent, blocked), r),
    ensures
        asks <==> *intent is Removing,
        r is Err <==> *intent is Removing && blocked is Some,
{
}

/// A removal is held back by the floor exactly where a file, or a row of storage that is there,
/// lies above it.
pub proof fn law_removal_is_blocked(
    floor: Option<MvFloor>,
    file_blocks: bool,
    inline_exists: bool,
    row_blocks: bool,
    r: Option<MvFloor>,
)
    requires
        call_ensures(removal_blocked, (floor, file_blocks, inline_exists, row_blocks), r),
    ensures
        file_blocks ==> r == floor,
        inline_exists && row_blocks ==> r == floor,
        !file_blocks && !inline_exists ==> r is None,
        !file_blocks && !row_blocks ==> r is None,
{
}

/// The statements that retire rows end them at the snapshot given, and only rows that had not
/// ended; by number, only those of the numbers given.
pub proof fn law_retiring_statements(tid: i64, at: i64, all: String, some: String)
    requires
        call_ensures(end_cap_live_sql, (tid, at), all),
        call_ensures(end_cap_by_id_sql, (tid, at), some),
    ensures
        all@ == "update "@ + ("iceberg_mirror.inline_"@ + int_text(tid as int)) + " set end_snapshot = "@
            + int_text(at as int) + " where end_snapshot is null"@,
        some@ == "update "@ + ("iceberg_mirror.inline_"@ + int_text(tid as int)) + " set end_snapshot = "@
            + int_text(at as int) + " where loom_row_id = any($1) and end_snapshot is null"@,
{
}

/// A creation that failed with a code for what is there already lost a race; with any other,
/// it failed.
pub proof fn law_outcome_of_a_creation(failed: bool, code: Option<&str>, r: DdlOutcome)
    requires
        call_ensures(ddl_outcome, (failed, code), r),
    ensures
        r is Done <==> !failed,
        r is LostRace ==> failed && code is Some,
        failed && code is None ==> r is Failed,
        failed && (code matches Some(c) && (c@ == "42P07"@ || c@ == "42701"@ || c@ == "42710"@ || c@
            == "23505"@)) ==> r is LostRace,
{
}

/// A flush commits its event and its jobs, retires the rows that it read as rows that were
/// moved, and neither overwrites nor starts a transform.
pub proof fn law_extras_of_a_flush(
    tid: i64,
    row_ids: Vec<i64>,
    lineage: LineageEvent,
    jobs: Vec<NewJob>,
    r: CommitExtras,
)
    requires
        call_ensures(flush_extras, (tid, row_ids, lineage, jobs), r),
    ensures
        r.lineage == Some(lineage),
        r.end_cap is Some && (r.end_cap->0).table_id == tid && (r.end_cap->0).row_ids == row_ids,
        !r.overwrite,
        r.jobs == jobs,
        r.data_trigger_tables@.len() == 0,
        r.reuse_snapshot is None,
        r.intent is Reframing,
{
}

/// The copy of the changes commits its event alone.
pub proof fn law_extras_of_a_changelog(lineage: LineageEvent, r: CommitExtras)
    requires
        call_ensures(changelog_extras, (lineage,), r),
    ensures
        r.lineage == Some(lineage),
        r.end_cap is None,
        !r.overwrite,
        r.jobs@.len() == 0,
        r.data_trigger_tables@.len() == 0,
        r.reuse_snapshot is None,
{
}

/// A file that was written is described with its path, its number of rows, its size and what
/// is known of its columns.
pub proof fn law_written_files(
    path: String,
    record_count: u64,
    file_size_bytes: u64,
    stats: Vec<ColumnStat>,
    object: DataFile,
    file: WrittenFile,
)
    requires
        call_ensures(object_data_file, (path, record_count, file_size_bytes, stats), object),
        call_ensures(written_file, (path, record_count, file_size_bytes), file),
        record_count <= i64::MAX,
        file_size_bytes <= i64::MAX,
    ensures
        object.path == path,
        object.record_count == record_count,
        object.file_size_bytes == file_size_bytes,
        object.column_stats == stats,
        object.file_format is Parquet,
        !object.path_is_relative,
        file.path == path,
        file.record_count == record_count,
        file.file_size_bytes == file_size_bytes,
{
}

/// Each landed row is stamped as an insertion, with its own bucket and its own offset.
pub proof fn law_stamps(frames: &Vec<(i32, i64)>, r: Stamps, i: int)
    requires
        call_ensures(stamp_framing, (frames,), r),
        0 <= i < frames@.len(),
    ensures
        r.kinds@.len() == frames@.len(),
        r.kinds@[i]@ == "+I"@,
        r.buckets@[i] == frames@[i].0,
        r.offsets@[i] == frames@[i].1,
{
}

/// A read of a view goes to its base, with the columns that the view shows; any other read goes
/// to the table itself, with all of them.
pub proof fn law_reading_through<'a>(
    table: &'a TableRef,
    view: Option<&'a ViewDef>,
    r: (&'a TableRef, Option<&'a Vec<String>>),
)
    requires
        call_ensures(read_through, (table, view), r),
    ensures
        view is None ==> *r.0 == *table && r.1 is None,
        view matches Some(v) ==> *r.0 == v.base && (r.1 is Some <==> v.columns is Some) && (r.1 matches Some(c)
            ==> v.columns == Some(*c)),
{
}

/// The lower of two offsets is kept, and any offset is lower than none.
pub proof fn law_lower_is_kept(slot: &mut Option<i64>, v: i64)
    requires
        call_ensures(lower, (slot, v), ()),
    ensures
        *final(slot) matches Some(kept) && kept <= v && (*old(slot) matches Some(was) ==> kept <= was),
        *final(slot) == Some(v) || *final(slot) == *old(slot),
{
}

/// A prefix is gone exactly where some bucket starts behind its first offset.
pub proof fn law_prefix_is_gone(starts: &OrderedMap<i32, i64>, r: bool, b: int)
    requires
        call_ensures(prefix_is_gone, (starts,), r),
    ensures
        starts@.dom().contains(b) && starts@[b] > 0 ==> r,
        r ==> exists|c: int| #[trigger] starts@.dom().contains(c) && starts@[c] > 0,
{
}

/// Watermarks are seeded for a live stream alone, from where each bucket starts.
pub proof fn law_watermarks_are_seeded(
    tid: Option<i64>,
    bucket_count: Option<Option<i32>>,
    starts: Option<&OrderedMap<i32, i64>>,
    r: BootstrapStep,
)
    requires
        call_ensures(bootstrap_mv_watermarks, (tid, bucket_count, starts), r),
    ensures
        tid is None ==> r is Nothing,
        bucket_count == Some(None::<i32>) ==> r is Nothing,
        tid is Some && bucket_count is None ==> r == (BootstrapStep::AskBuckets { tid: tid->0 }),
        tid is Some && (bucket_count matches Some(Some(n)) ==> {
            &&& starts is None ==> r == (BootstrapStep::AskStarts { tid: tid->0, bucket_count: n })
            &&& starts matches Some(s) ==> (r matches BootstrapStep::Seed { tid: t, starts: listed, .. } && t
                == tid->0 && listed@ == s.entries@)
        }) || tid is None,
{
}

/// An object that is not there is no failure: it is told to be missing, and a deletion of it is
/// done.
pub proof fn law_objects(asked: Asked, there: Option<bool>, gone: bool)
    requires
        call_ensures(is_there, (asked,), there),
        call_ensures(deleted, (asked,), gone),
    ensures
        asked is Found ==> there == Some(true) && gone,
        asked is NotFound ==> there == Some(false) && gone,
        asked is Failed ==> there is None && !gone,
{
}

/// A bucket is there where it was made, and where it was there already.
pub proof fn law_bucket_is_made(status: u16, r: bool)
    requires
        call_ensures(bucket_made, (status,), r),
    ensures
        200 <= status <= 299 ==> r,
        status == 409 ==> r,
        status < 200 ==> !r,
        300 <= status && status != 409 ==> !r,
{
}

/// A namespace with a table is there; one without is there where it has a row of its own.
pub proof fn law_namespace_is_there(has_table: bool, has_row: Option<bool>, r: Option<bool>)
    requires
        call_ensures(namespace_exists, (has_table, has_row), r),
    ensures
        has_table ==> r == Some(true),
        !has_table ==> r == has_row,
{
}

/// A depth is handed on as it is, and at most as the greatest number that the store takes.
pub proof fn law_depth(depth: u32, r: i32)
    requires
        call_ensures(graph_depth, (depth,), r),
    ensures
        depth <= i32::MAX ==> r == depth,
        depth > i32::MAX ==> r == i32::MAX,
{
}

/// Only the code for a duplicate is a conflict, and only the code for a missing reference is
/// something not found; any other failure is one of the store.
pub proof fn law_codes_of_the_store(
    code: Option<&str>,
    failure: String,
    what: &str,
    twice: ControlPlaneError,
    absent: ControlPlaneError,
)
    requires
        call_ensures(conflict_or_backend, (code, failure, what), twice),
        call_ensures(notfound_or_backend, (code, failure, what), absent),
    ensures
        (code matches Some(c) && c@ == "23505"@) ==> twice@ == Fault::Conflict(what@),
        !(code matches Some(c) && c@ == "23505"@) ==> twice@ == Fault::Backend(failure@),
        (code matches Some(c) && c@ == "23503"@) ==> absent@ == Fault::NotFound(what@),
        !(code matches Some(c) && c@ == "23503"@) ==> absent@ == Fault::Backend(failure@),
{
}

/// A statement that changed no row says so: the bootstrap was sealed already, or there is no
/// such credential.
pub proof fn law_rows_that_changed(
    n: u64,
    subject: &str,
    sealed: Result<(), ControlPlaneError>,
    updated: Result<(), ControlPlaneError>,
)
    requires
        call_ensures(seal_bootstrap, (n,), sealed),
        call_ensures(update_password, (subject, n), updated),
    ensures
        sealed is Ok <==> n > 0,
        sealed is Err ==> sealed->Err_0@ is Conflict,
        updated is Ok <==> n > 0,
        updated is Err ==> updated->Err_0@ is NotFound,
{
}

/// A failed login counts failures since the window began, and locks until the span of the
/// policy is over.
pub proof fn law_failed_login_is_stored(now: i128, policy: LockoutPolicy, r: FailedLogin)
    requires
        call_ensures(record_failed_login, (now, policy), r),
    ensures
        r.window_cutoff == now - policy.window,
        r.locked_until == now + policy.lockout_duration,
        policy.threshold <= i32::MAX ==> r.threshold == policy.threshold,
{
}

/// A seal of a token has thirty-two bytes, and is those bytes.
pub proof fn law_seal_of_a_token(bytes: &Vec<u8>, r: Option<[u8; 32]>)
    requires
        call_ensures(token_seal, (bytes,), r),
    ensures
        r is Some <==> bytes@.len() == 32,
        r matches Some(seal) ==> seal@ == bytes@,
{
}

/// What is staged for the lake stands behind what was staged before, as it was handed in and
/// with its mode; staging one thing leaves the others as they were.
pub proof fn law_staging_for_the_lake(
    tx: &mut IcebergTx,
    table: TableRef,
    columns: Vec<ColumnSpec>,
    resolved: Vec<Option<BaseType>>,
    files: Vec<DataFile>,
    expire: Vec<String>,
)
    ensures
        call_ensures(IcebergTx::create_table, (tx, table, columns, resolved), ()) ==> {
            &&& final(tx).staged_creates@.len() == old(tx).staged_creates@.len() + 1
            &&& final(tx).staged_creates@.last().table == table
            &&& final(tx).staged_creates@.last().columns == columns
            &&& final(tx).staged_creates@.last().resolved == resolved
            &&& final(tx).staged_files == old(tx).staged_files
        },
        call_ensures(IcebergTx::append_files, (tx, table, files), ()) ==> {
            &&& final(tx).staged_files@.len() == old(tx).staged_files@.len() + 1
            &&& final(tx).staged_files@.last().table == table
            &&& final(tx).staged_files@.last().files == files
            &&& final(tx).staged_files@.last().mode is Append
            &&& final(tx).staged_compacts == old(tx).staged_compacts
        },
        call_ensures(IcebergTx::replace_files, (tx, table, files), ()) ==> {
            &&& final(tx).staged_files@.len() == old(tx).staged_files@.len() + 1
            &&& final(tx).staged_files@.last().table == table
            &&& final(tx).staged_files@.last().files == files
            &&& final(tx).staged_files@.last().mode is Overwrite
            &&& final(tx).staged_compacts == old(tx).staged_compacts
        },
        call_ensures(IcebergTx::compact_files, (tx, table, expire, files), ()) ==> {
            &&& final(tx).staged_compacts@.len() == old(tx).staged_compacts@.len() + 1
            &&& final(tx).staged_compacts@.last().table == table
            &&& final(tx).staged_compacts@.last().expire == expire
            &&& final(tx).staged_compacts@.last().write == files
            &&& final(tx).staged_files == old(tx).staged_files
        },
{
}

/// A transaction of the lake marks one run as successful and no second.
pub proof fn law_one_run_is_marked_for_the_lake(
    tx: &mut IcebergTx,
    run_id: u128,
    r: Result<(), ControlPlaneError>,
)
    requires
        call_ensures(IcebergTx::mark_run_succeeded, (tx, run_id), r),
    ensures
        r is Ok <==> old(tx).staged_run_success is None,
        r is Ok ==> final(tx).staged_run_success == Some(run_id),
        r is Err ==> final(tx).staged_run_success == old(tx).staged_run_success,
        final(tx).staged_files == old(tx).staged_files,
{
}

/// A namespace is dropped exactly where it is there and has no table.
pub proof fn law_dropping_a_namespace(
    namespace: &Vec<String>,
    exists: bool,
    tables: usize,
    r: Result<(), CatalogFault>,
)
    requires
        call_ensures(drop_namespace, (namespace, exists, tables), r),
    ensures
        r is Ok <==> exists && tables == 0,
        !exists ==> r == Err::<(), CatalogFault>(CatalogFault::NoSuchNamespace),
        exists && tables > 0 ==> (r matches Err(CatalogFault::Unexpected(_))),
{
}

/// A namespace is created exactly where it is not there, and its properties are read exactly
/// where it is.
pub proof fn law_creating_a_namespace(
    catalog: &str,
    namespace: &Vec<String>,
    exists: bool,
    properties: OrderedMap<String, String>,
    made: Result<NamespaceInsert, CatalogFault>,
    pairs: Vec<(String, String)>,
    got: Result<OrderedMap<String, String>, CatalogFault>,
)
    requires
        call_ensures(create_namespace, (catalog, namespace, exists, properties), made),
        call_ensures(get_namespace, (exists, pairs), got),
    ensures
        made is Ok <==> !exists,
        got is Ok <==> exists,
        got matches Err(e) ==> e is NoSuchNamespace,
{
}

/// The tables of a namespace are listed exactly where it is there: each row gives a table,
/// each table comes from a row, and none is listed twice.
pub proof fn law_listing_tables(
    exists: bool,
    rows: &Vec<TableRow>,
    r: Result<Vec<TableName>, CatalogFault>,
    i: int,
)
    requires
        call_ensures(list_tables, (exists, rows), r),
    ensures
        r is Ok <==> exists,
        r matches Err(e) ==> e is NoSuchNamespace,
        exists && 0 <= i < rows@.len() ==> exists|k: int|
            0 <= k < (r->Ok_0)@.len() && (#[trigger] (r->Ok_0)@[k]).name@ == rows@[i].name@ && texts(
                (r->Ok_0)@[k].namespace@,
            ) == levels_of(rows@[i].namespace@),
        exists && 0 <= i < (r->Ok_0)@.len() ==> exists|k: int|
            0 <= k < rows@.len() && (#[trigger] rows@[k]).name@ == (r->Ok_0)@[i].name@ && texts(
                (r->Ok_0)@[i].namespace@,
            ) == levels_of(rows@[k].namespace@),
{
    if exists && 0 <= i < rows@.len() {
        let list = (r->Ok_0)@;
        assert(lists_row(list, rows@[i]));
        let k = choose|k: int| 0 <= k < list.len() && row_table(rows@[i], #[trigger] list[k]);
        assert(list[k].name@ == rows@[i].name@);
    }
    if exists && 0 <= i < (r->Ok_0)@.len() {
        let t = (r->Ok_0)@[i];
        assert(some_table_row(rows@, t));
        let k = choose|k: int| 0 <= k < rows@.len() && row_table(#[trigger] rows@[k], t);
        assert(rows@[k].name@ == t.name@);
    }
}

/// A catalog is loaded where its name is not blank: under that name, with the address and the
/// place that the properties give, or else those set before, and without these properties.
pub proof fn law_loading_a_catalog(
    builder: SqlCatalogBuilder,
    name: String,
    props: Vec<(String, String)>,
    r: Result<SqlCatalogConfig, CatalogFault>,
)
    requires
        call_ensures(SqlCatalogBuilder::load, (builder, name, props), r),
    ensures
        r is Ok <==> !blank(name@),
        r matches Ok(config) ==> {
            let all = with_props(builder.config.props@, props@);
            &&& config.name == name
            &&& all.dom().contains("uri"@) ==> config.uri == all["uri"@]
            &&& !all.dom().contains("uri"@) ==> config.uri == builder.config.uri
            &&& all.dom().contains("warehouse"@) ==> config.warehouse_location == all["warehouse"@]
            &&& !all.dom().contains("warehouse"@) ==> config.warehouse_location
                == builder.config.warehouse_location
            &&& !config.props@.dom().contains("uri"@)
            &&& !config.props@.dom().contains("warehouse"@)
        },
{
}

} // verus!
