//! What holds of collecting what no reader needs any more: what is asked for, what goes, and
//! what is counted.
use crate::iceberg_gc::{
    files_pred, gc_step, is_horizon, GcAction, GcEvent, GcState, GcSummary,
};
use vstd::prelude::*;

verus! {

/// What is taken back ended before the window: so many seconds before now.
pub proof fn law_window_is_the_retention(
    retention: u64,
    now: int,
    tid: i64,
    next: GcState,
    action: GcAction,
)
    requires
        gc_step(retention, now, GcState::Finding, GcEvent::Table { tid: Some(tid) }, next, action),
        retention <= i64::MAX,
    ensures
        action matches GcAction::FindHorizon { cutoff } ==> cutoff == now - retention * 1_000_000_000
            && next == (GcState::Aging { tid }),
        action is FindHorizon || action is Fail,
{
}

/// A table that is not there, or has no snapshot before the window, loses nothing.
pub proof fn law_nothing_to_take_back(
    retention: u64,
    now: int,
    tid: i64,
    absent: (GcState, GcAction),
    young: (GcState, GcAction),
)
    requires
        gc_step(retention, now, GcState::Finding, GcEvent::Table { tid: None }, absent.0, absent.1),
        gc_step(retention, now, GcState::Aging { tid }, GcEvent::Horizon { horizon: None }, young.0, young.1),
    ensures
        absent.1 matches GcAction::Finish { summary } && summary.data_file_rows == 0 && summary.inline_rows
            == 0 && summary.objects_deleted == 0 && summary.held_by_mv_floor == 0,
        young.1 == absent.1,
        absent.0 is Done,
        young.0 is Done,
{
}

/// The files that go are those of the table that ended by the horizon, and, where views read
/// the table, of these only those whose largest offset is known and below the bound.
pub proof fn law_which_files_go()
    ensures
        files_pred(false)
            == "df.table_id = $1 and df.end_snapshot is not null and df.end_snapshot <= $2"@,
        files_pred(true) == files_pred(false)
            + " and coalesce((select cs.max_value from iceberg_mirror.data_file_column_stat cs where cs.data_file_id = df.data_file_id and cs.column_name = 'loom_offset')::bigint < $3::bigint, false)"@,
{
}

/// The rows that were deleted are counted where they were, files with files and inline rows
/// with inline rows; without inline storage there are none of these.
pub proof fn law_deleted_rows_are_counted(
    retention: u64,
    now: int,
    tid: i64,
    paths: Vec<String>,
    slowest: Vec<(i32, String)>,
    data_file_rows: u64,
    inline_rows: Option<u64>,
    next: GcState,
    action: GcAction,
)
    requires
        gc_step(
            retention,
            now,
            GcState::Deleting { tid, paths, slowest },
            GcEvent::Deleted { data_file_rows, inline_rows, held: 0 },
            next,
            action,
        ),
    ensures
        ({
            let counted = |s: GcSummary|
                s.data_file_rows == data_file_rows && s.inline_rows == (if inline_rows is Some {
                    inline_rows->0
                } else {
                    0
                }) && s.objects_deleted == 0 && s.held_by_mv_floor == 0;
            &&& paths@.len() == 0 ==> (action matches GcAction::Finish { summary } && counted(summary))
            &&& paths@.len() > 0 ==> action == (GcAction::DeleteObject { path: paths@[0] }) && (
            next matches GcState::Removing { rest, summary } && rest@ == paths@.skip(1) && counted(summary))
        }),
{
}

/// The objects of the files are deleted one after the other, each once and in their order;
/// one that was deleted is counted, one that was not is passed over.
pub proof fn law_objects_go_one_by_one(
    retention: u64,
    now: int,
    rest: Vec<String>,
    summary: GcSummary,
    deleted: bool,
    next: GcState,
    action: GcAction,
)
    requires
        gc_step(
            retention,
            now,
            GcState::Removing { rest, summary },
            GcEvent::Object { deleted },
            next,
            action,
        ),
        summary.objects_deleted < u64::MAX,
    ensures
        rest@.len() > 0 ==> action == (GcAction::DeleteObject { path: rest@[0] }) && (
        next matches GcState::Removing { rest: left, summary: s } && left@ == rest@.skip(1)
            && s.objects_deleted == summary.objects_deleted + (if deleted {
            1int
        } else {
            0int
        }) && s.data_file_rows == summary.data_file_rows && s.inline_rows == summary.inline_rows
            && s.held_by_mv_floor == summary.held_by_mv_floor),
        rest@.len() == 0 ==> next is Done && (action matches GcAction::Finish { summary: s }
            && s.objects_deleted == summary.objects_deleted + (if deleted {
            1int
        } else {
            0int
        }) && s.data_file_rows == summary.data_file_rows && s.inline_rows == summary.inline_rows
            && s.held_by_mv_floor == summary.held_by_mv_floor),
{
}

/// The horizon is a snapshot older than the cutoff, and the last of these.
pub proof fn law_horizon_is_the_last_old_snapshot(
    snapshots: Set<(i64, i128)>,
    cutoff: i128,
    horizon: i64,
    other: (i64, i128),
)
    requires
        is_horizon(snapshots, cutoff, horizon),
        snapshots.contains(other),
    ensures
        other.1 < cutoff ==> other.0 <= horizon,
        exists|t: i128| t < cutoff && #[trigger] snapshots.contains((horizon, t)),
{
}

} // verus!
