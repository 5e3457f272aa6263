//! Taking back what was retired: the rows of the mirror and the inline rows that no
//! reader inside the window can see, and the files that those rows name. What a view
//! that reads the table has not come to yet is kept.
use crate::ambient::{in_calendar, now, CALENDAR_END, FIRST_INSTANT};
use crate::error::{ControlPlaneError, Fault};
use crate::mv_floor::{
    holds_floor, is_least, is_mv_floor, is_source_floor, law_below_floor_is_read,
    law_clauses_are_those_that_select, law_file_bound_is_conservative,
    law_pred_selects_below_floor, law_source_floor_is_below_all, marks_of, position, pred_selects,
    reclaim_rows_sql, reclaim_text, source_floor, MvFloor,
};
use crate::text::{concat, holds};
use vstd::prelude::*;

verus! {

/// How many nanoseconds a second has.
pub const SECOND: i128 = 1_000_000_000;

/// How much was taken back, and how many rows were kept for views that lag.
#[derive(Clone, Copy, Debug, PartialEq, Eq, Structural)]
pub struct GcSummary {
    pub data_file_rows: u64,
    pub inline_rows: u64,
    pub objects_deleted: u64,
    pub held_by_mv_floor: u64,
}

impl Default for GcSummary {
    fn default() -> (r: Self)
        ensures
            r == (GcSummary {
                data_file_rows: 0,
                inline_rows: 0,
                objects_deleted: 0,
                held_by_mv_floor: 0,
            }),
    {
        GcSummary { data_file_rows: 0, inline_rows: 0, objects_deleted: 0, held_by_mv_floor: 0 }
    }
}

/// A reader at snapshot `at` sees a row that lives from `begin` to before `end`.
pub open spec fn visible(begin: i64, end: Option<i64>, at: i64) -> bool {
    begin <= at && (end is None || end->0 > at)
}

/// A row is taken back once it ended at the horizon or before.
pub open spec fn reclaimable(end: Option<i64>, horizon: i64) -> bool {
    end matches Some(e) && e <= horizon
}

/// `horizon` is the youngest snapshot older than `cutoff`; a snapshot is its number
/// and its instant.
pub open spec fn is_horizon(snapshots: Set<(i64, i128)>, cutoff: i128, horizon: i64) -> bool {
    &&& exists|t: i128| t < cutoff && #[trigger] snapshots.contains((horizon, t))
    &&& forall|s: i64, t: i128| #[trigger]
        snapshots.contains((s, t)) && t < cutoff ==> s <= horizon
}

/// Snapshots that are made later have higher numbers.
pub open spec fn in_order(snapshots: Set<(i64, i128)>) -> bool {
    forall|a: (i64, i128), b: (i64, i128)| #[trigger]
        snapshots.contains(a) && #[trigger] snapshots.contains(b) && a.0 <= b.0 ==> a.1 <= b.1
}

/// No reader at the horizon or behind it sees a row that is taken back.
pub proof fn law_reclaimed_is_invisible(begin: i64, end: Option<i64>, horizon: i64, at: i64)
    requires
        reclaimable(end, horizon),
        at >= horizon,
    ensures
        !visible(begin, end, at),
{
}

/// A live row is never taken back.
pub proof fn law_live_rows_stay(horizon: i64)
    ensures
        !reclaimable(None, horizon),
{
}

/// No reader at a snapshot inside the window sees a row that is taken back, where
/// later snapshots have higher numbers.
pub proof fn law_window_stays_readable(
    snapshots: Set<(i64, i128)>,
    cutoff: i128,
    horizon: i64,
    at: (i64, i128),
    begin: i64,
    end: Option<i64>,
)
    requires
        in_order(snapshots),
        is_horizon(snapshots, cutoff, horizon),
        snapshots.contains(at),
        at.1 >= cutoff,
        reclaimable(end, horizon),
    ensures
        !visible(begin, end, at.0),
{
    let t = choose|t: i128| t < cutoff && #[trigger] snapshots.contains((horizon, t));
    if at.0 <= horizon {
        assert(snapshots.contains((horizon, t)));
    }
}

/// An inline row with this bucket and offset, where it has them, is taken back: it is
/// out of the window, and every view that reads the table has read it.
pub open spec fn row_reclaimable(
    end: Option<i64>,
    horizon: i64,
    floor: Option<MvFloor>,
    place: Option<(int, int)>,
) -> bool {
    reclaimable(end, horizon) && match (floor, place) {
        (None, _) => true,
        (Some(f), Some(p)) => f.below(p.0, p.1),
        (Some(_), None) => false,
    }
}

/// A file whose largest offset is `largest`, where that is known, is taken back:
/// it is out of the window, and it ends below `bound`, where there is one.
pub open spec fn file_reclaimable(
    end: Option<i64>,
    horizon: i64,
    bound: Option<i64>,
    largest: Option<int>,
) -> bool {
    reclaimable(end, horizon) && match (bound, largest) {
        (None, _) => true,
        (Some(b), Some(m)) => m < b,
        (Some(_), None) => false,
    }
}

/// `bound` is the bound of a floor for whole files.
pub open spec fn bounds_files(floor: Option<MvFloor>, bound: Option<i64>) -> bool {
    match (floor, bound) {
        (None, None) => true,
        (Some(f), Some(b)) => is_least(f.per_bucket@, b as int),
        _ => false,
    }
}

/// The predicate that selects the files of the table `$1` that are to go, with the
/// horizon as `$2`. Where there is a bound it is `$3`, and a file whose largest offset is
/// not known stays.
pub open spec fn files_pred(bounded: bool) -> Seq<char> {
    let aged =
        "df.table_id = $1 and df.end_snapshot is not null and df.end_snapshot <= $2"@;
    if bounded {
        aged
            + " and coalesce((select cs.max_value from iceberg_mirror.data_file_column_stat cs where cs.data_file_id = df.data_file_id and cs.column_name = 'loom_offset')::bigint < $3::bigint, false)"@
    } else {
        aged
    }
}

/// The predicate that selects the files that are to go.
pub fn aged_files(bounded: bool) -> (r: String)
    ensures
        r@ == files_pred(bounded),
{
    let aged: &str =
        "df.table_id = $1 and df.end_snapshot is not null and df.end_snapshot <= $2";
    if bounded {
        concat(
            aged,
            " and coalesce((select cs.max_value from iceberg_mirror.data_file_column_stat cs where cs.data_file_id = df.data_file_id and cs.column_name = 'loom_offset')::bigint < $3::bigint, false)",
        )
    } else {
        aged.to_owned()
    }
}

/// An inline row is taken back only once every view that reads the table has read it.
pub proof fn law_reclaimed_rows_were_read(
    f: MvFloor,
    bucket_count: i32,
    readers: Seq<(String, ())>,
    marks: Map<(Seq<char>, int), i64>,
    end: Option<i64>,
    horizon: i64,
    bucket: int,
    offset: int,
    reader: int,
)
    requires
        is_mv_floor(Some(f), Some(bucket_count), readers, marks),
        row_reclaimable(end, horizon, Some(f), Some((bucket, offset))),
        0 <= reader < readers.len(),
    ensures
        offset < position(marks, readers[reader].0@, bucket),
{
    law_below_floor_is_read(f, bucket_count, readers, marks, bucket, offset, reader);
}

/// A file is taken back only once every view that reads the table has read each row in
/// it, whichever bucket the row is in.
pub proof fn law_reclaimed_files_were_read(
    f: MvFloor,
    bound: Option<i64>,
    bucket_count: i32,
    readers: Seq<(String, ())>,
    marks: Map<(Seq<char>, int), i64>,
    end: Option<i64>,
    horizon: i64,
    largest: int,
    bucket: int,
    offset: int,
    reader: int,
)
    requires
        is_mv_floor(Some(f), Some(bucket_count), readers, marks),
        bounds_files(Some(f), bound),
        file_reclaimable(end, horizon, bound, Some(largest)),
        f.per_bucket@.dom().contains(bucket),
        offset <= largest,
        0 <= reader < readers.len(),
    ensures
        offset < position(marks, readers[reader].0@, bucket),
{
    law_file_bound_is_conservative(f, bound->0 as int, bucket, offset);
    law_below_floor_is_read(f, bucket_count, readers, marks, bucket, offset, reader);
}

/// Where no view reads the table, age alone decides.
pub proof fn law_unread_table_ages_out(
    end: Option<i64>,
    horizon: i64,
    place: Option<(int, int)>,
    largest: Option<int>,
)
    ensures
        row_reclaimable(end, horizon, None, place) == reclaimable(end, horizon),
        file_reclaimable(end, horizon, None, largest) == reclaimable(end, horizon),
{
}

/// The instant so many seconds before `now`.
pub open spec fn cutoff_at(now: int, retention: u64) -> int {
    now - (retention as i64) * SECOND
}

/// What has been found out.
pub enum GcEvent {
    Begin,
    /// The number of the table, where it is live.
    Table { tid: Option<i64> },
    /// The youngest snapshot older than the cutoff, where there is one.
    Horizon { horizon: Option<i64> },
    /// The number of buckets, where the table is a stream; the views registered for it
    /// and those with a recorded position in it; and the positions: view, bucket, next
    /// offset.
    Readers {
        bucket_count: Option<i32>,
        registered: Vec<String>,
        recorded: Vec<String>,
        positions: Vec<(String, i32, i64)>,
    },
    /// The paths of the files that are to go.
    Paths { paths: Vec<String> },
    /// The rows are deleted, and that is committed. A table without inline storage
    /// has no count of inline rows. `held` counts the rows that ended at the horizon or
    /// before and are still there.
    Deleted { data_file_rows: u64, inline_rows: Option<u64>, held: u64 },
    /// The warning is given.
    Warned,
    /// Whether the file is gone.
    Object { deleted: bool },
    /// The last action failed.
    Failed { error: ControlPlaneError },
}

/// What is to be done.
pub enum GcAction {
    /// Look for the live table.
    FindTable,
    /// Look for the youngest snapshot older than the cutoff, in nanoseconds since the
    /// Unix epoch.
    FindHorizon { cutoff: i128 },
    /// Find out which views read the table, and how far they have come.
    FindReaders { tid: i64 },
    /// Collect the paths of the table's files that the predicate `files` selects, which
    /// takes the table as `$1`, the horizon as `$2` and the bound, where there is one,
    /// as `$3`: those that ended at the horizon or before and whose largest offset,
    /// where there is a bound, is known and below it.
    CollectPaths { tid: i64, horizon: i64, bound: Option<i64>, files: String },
    /// In one transaction: delete the statistics of those files, their rows, and,
    /// where the table has inline storage, its inline rows by the command; commit.
    DeleteRows { tid: i64, horizon: i64, bound: Option<i64>, files: String, inline_sql: String },
    /// Warn that so many rows are kept for views that lag: in each bucket the one that
    /// has come least far.
    Warn { tid: i64, held: u64, slowest: Vec<(i32, String)> },
    /// Delete the file.
    DeleteObject { path: String },
    /// It is over.
    Finish { summary: GcSummary },
    /// Report.
    Fail { error: ControlPlaneError },
}

/// How far it has come.
pub enum GcState {
    Start,
    Finding,
    Aging { tid: i64 },
    Flooring { tid: i64, horizon: i64 },
    Collecting {
        tid: i64,
        horizon: i64,
        bound: Option<i64>,
        files: String,
        inline_sql: String,
        slowest: Vec<(i32, String)>,
    },
    Deleting { tid: i64, paths: Vec<String>, slowest: Vec<(i32, String)> },
    /// A warning is being given; `paths` are to go.
    Warning { paths: Vec<String>, summary: GcSummary },
    /// One file is being deleted; `rest` are still to go.
    Removing { rest: Vec<String>, summary: GcSummary },
    Done,
}

/// It fails with this error.
pub open spec fn gc_fails(next: GcState, action: GcAction, e: Fault) -> bool {
    &&& next is Done
    &&& action matches GcAction::Fail { error }
    &&& error@ == e
}

/// The refusal of an event that does not belong here.
pub open spec fn gc_out_of_turn(next: GcState, action: GcAction) -> bool {
    gc_fails(next, action, Fault::Backend("gc: event out of turn"@))
}

/// It is over, with this count.
pub open spec fn gc_ends(next: GcState, action: GcAction, summary: GcSummary) -> bool {
    next is Done && action == (GcAction::Finish { summary })
}

/// The next of the files is deleted, or it is over.
pub open spec fn gc_continues(
    paths: Seq<String>,
    summary: GcSummary,
    next: GcState,
    action: GcAction,
) -> bool {
    if paths.len() == 0 {
        gc_ends(next, action, summary)
    } else {
        &&& action == (GcAction::DeleteObject { path: paths[0] })
        &&& next matches GcState::Removing { rest, summary: s }
        &&& rest@ == paths.skip(1)
        &&& s == summary
    }
}

/// The files that are to go are collected, by the horizon and the floor.
pub open spec fn gc_floored(
    tid: i64,
    horizon: i64,
    floor: Option<MvFloor>,
    next: GcState,
    action: GcAction,
) -> bool {
    &&& action matches GcAction::CollectPaths { tid: t, horizon: h, bound, files }
    &&& t == tid
    &&& h == horizon
    &&& bounds_files(floor, bound)
    &&& files@ == files_pred(bound is Some)
    &&& next matches GcState::Collecting {
        tid: kt,
        horizon: kh,
        bound: kb,
        files: kf,
        inline_sql,
        slowest,
    }
    &&& kt == tid
    &&& kh == horizon
    &&& kb == bound
    &&& kf@ == files@
    &&& slowest@ == (match floor {
        None => Seq::empty(),
        Some(f) => f.slowest.entries@,
    })
    &&& inline_sql@ == reclaim_for(floor, tid as int)
}

/// The deletion of the inline rows that are to go.
pub open spec fn reclaim_for(floor: Option<MvFloor>, tid: int) -> Seq<char> {
    match floor {
        None => reclaim_text(None, tid),
        Some(f) => reclaim_text(Some(&f), tid),
    }
}

/// What is done next at the instant `now`, and where it then stands.
pub open spec fn gc_step(
    retention: u64,
    now: int,
    state: GcState,
    event: GcEvent,
    next: GcState,
    action: GcAction,
) -> bool {
    let none = GcSummary {
        data_file_rows: 0,
        inline_rows: 0,
        objects_deleted: 0,
        held_by_mv_floor: 0,
    };
    match event {
        GcEvent::Failed { error } => gc_fails(next, action, error@),
        GcEvent::Begin => if state is Start {
            next is Finding && action is FindTable
        } else {
            gc_out_of_turn(next, action)
        },
        GcEvent::Table { tid } => if state is Finding {
            match tid {
                None => gc_ends(next, action, none),
                Some(tid) => if in_calendar(cutoff_at(now, retention)) {
                    &&& next == (GcState::Aging { tid })
                    &&& action matches GcAction::FindHorizon { cutoff }
                    &&& cutoff == cutoff_at(now, retention)
                } else {
                    gc_fails(
                        next,
                        action,
                        Fault::Backend("gc: the window reaches beyond the calendar"@),
                    )
                },
            }
        } else {
            gc_out_of_turn(next, action)
        },
        GcEvent::Horizon { horizon } => match state {
            GcState::Aging { tid } => match horizon {
                None => gc_ends(next, action, none),
                Some(horizon) => next == (GcState::Flooring { tid, horizon }) && action == (
                GcAction::FindReaders { tid }),
            },
            _ => gc_out_of_turn(next, action),
        },
        GcEvent::Readers { bucket_count, registered, recorded, positions } => match state {
            GcState::Flooring { tid, horizon } => exists|floor: Option<MvFloor>|
                is_source_floor(floor, bucket_count, registered@, recorded@, positions@)
                    && #[trigger] gc_floored(tid, horizon, floor, next, action),
            _ => gc_out_of_turn(next, action),
        },
        GcEvent::Paths { paths } => match state {
            GcState::Collecting { tid, horizon, bound, files, inline_sql, slowest } => {
                &&& next == (GcState::Deleting { tid, paths, slowest })
                &&& action == (GcAction::DeleteRows { tid, horizon, bound, files, inline_sql })
            },
            _ => gc_out_of_turn(next, action),
        },
        GcEvent::Deleted { data_file_rows, inline_rows, held } => match state {
            GcState::Deleting { tid, paths, slowest } => {
                let summary = GcSummary {
                    data_file_rows,
                    inline_rows: match inline_rows {
                        Some(n) => n,
                        None => 0,
                    },
                    objects_deleted: 0,
                    held_by_mv_floor: held,
                };
                if held > 0 {
                    &&& next == (GcState::Warning { paths, summary })
                    &&& action == (GcAction::Warn { tid, held, slowest })
                } else {
                    gc_continues(paths@, summary, next, action)
                }
            },
            _ => gc_out_of_turn(next, action),
        },
        GcEvent::Warned => match state {
            GcState::Warning { paths, summary } => gc_continues(paths@, summary, next, action),
            _ => gc_out_of_turn(next, action),
        },
        GcEvent::Object { deleted } => match state {
            GcState::Removing { rest, summary } => gc_continues(
                rest@,
                if deleted {
                    GcSummary {
                        objects_deleted: (summary.objects_deleted + 1) as u64,
                        ..summary
                    }
                } else {
                    summary
                },
                next,
                action,
            ),
            _ => gc_out_of_turn(next, action),
        },
    }
}

/// No more files were deleted than can be counted with those that are to go.
pub open spec fn gc_state_fits(state: GcState) -> bool {
    match state {
        GcState::Deleting { tid: _, paths, slowest: _ } => paths@.len() <= u64::MAX,
        GcState::Warning { paths, summary } => summary.objects_deleted + paths@.len() <= u64::MAX,
        GcState::Removing { rest, summary } => summary.objects_deleted + 1 + rest@.len()
            <= u64::MAX,
        _ => true,
    }
}

/// What the caller hands back can be counted.
pub open spec fn gc_event_fits(event: GcEvent) -> bool {
    match event {
        GcEvent::Paths { paths } => paths@.len() <= u64::MAX,
        _ => true,
    }
}

/// Collects the files that are to go.
fn gc_collect(tid: i64, horizon: i64, floor: Option<MvFloor>) -> (r: (GcState, GcAction))
    requires
        floor matches Some(f) ==> f.wf(),
    ensures
        gc_floored(tid, horizon, floor, r.0, r.1),
        gc_state_fits(r.0),
{
    match floor {
        None => (
            GcState::Collecting {
                tid,
                horizon,
                bound: None,
                files: aged_files(false),
                inline_sql: reclaim_rows_sql(None, tid),
                slowest: Vec::new(),
            },
            GcAction::CollectPaths { tid, horizon, bound: None, files: aged_files(false) },
        ),
        Some(f) => {
            let bound: Option<i64> = Some(f.min_offset());
            let inline_sql: String = reclaim_rows_sql(Some(&f), tid);
            (
                GcState::Collecting {
                    tid,
                    horizon,
                    bound,
                    files: aged_files(true),
                    inline_sql,
                    slowest: f.slowest.entries,
                },
                GcAction::CollectPaths { tid, horizon, bound, files: aged_files(true) },
            )
        },
    }
}

fn gc_failed(error: ControlPlaneError) -> (r: (GcState, GcAction))
    ensures
        gc_fails(r.0, r.1, error@),
{
    (GcState::Done, GcAction::Fail { error })
}

fn gc_early() -> (r: (GcState, GcAction))
    ensures
        gc_out_of_turn(r.0, r.1),
{
    gc_failed(ControlPlaneError::Backend("gc: event out of turn".to_owned()))
}

fn gc_go_on(paths: Vec<String>, summary: GcSummary) -> (r: (GcState, GcAction))
    requires
        summary.objects_deleted + paths@.len() <= u64::MAX,
    ensures
        gc_continues(paths@, summary, r.0, r.1),
        gc_state_fits(r.0),
{
    let mut rest: Vec<String> = paths;
    if rest.len() == 0 {
        (GcState::Done, GcAction::Finish { summary })
    } else {
        let path: String = rest.remove(0);
        assert(rest@ =~= paths@.skip(1));
        (GcState::Removing { rest, summary }, GcAction::DeleteObject { path })
    }
}

/// What is done next, given what came of the last action, at the instant `now`.
pub fn gc_table_at(retention: u64, now: i128, state: GcState, event: GcEvent) -> (r: (
    GcState,
    GcAction,
))
    requires
        in_calendar(now as int),
        gc_state_fits(state),
        gc_event_fits(event),
    ensures
        gc_step(retention, now as int, state, event, r.0, r.1),
        gc_state_fits(r.0),
{
    match event {
        GcEvent::Failed { error } => gc_failed(error),
        GcEvent::Begin => match state {
            GcState::Start => (GcState::Finding, GcAction::FindTable),
            _ => gc_early(),
        },
        GcEvent::Table { tid } => match state {
            GcState::Finding => match tid {
                None => (GcState::Done, GcAction::Finish { summary: GcSummary::default() }),
                Some(tid) => {
                    let seconds: i128 = (retention as i64) as i128;
                    let cutoff: i128 = now - seconds * SECOND;
                    if FIRST_INSTANT <= cutoff && cutoff < CALENDAR_END {
                        (GcState::Aging { tid }, GcAction::FindHorizon { cutoff })
                    } else {
                        gc_failed(
                            ControlPlaneError::Backend(
                                "gc: the window reaches beyond the calendar".to_owned(),
                            ),
                        )
                    }
                },
            },
            _ => gc_early(),
        },
        GcEvent::Horizon { horizon } => match state {
            GcState::Aging { tid } => match horizon {
                None => (GcState::Done, GcAction::Finish { summary: GcSummary::default() }),
                Some(horizon) => (
                    GcState::Flooring { tid, horizon },
                    GcAction::FindReaders { tid },
                ),
            },
            _ => gc_early(),
        },
        GcEvent::Readers { bucket_count, registered, recorded, positions } => match state {
            GcState::Flooring { tid, horizon } => {
                let floor: Option<MvFloor> = source_floor(
                    bucket_count,
                    &registered,
                    &recorded,
                    &positions,
                );
                let r = gc_collect(tid, horizon, floor);
                assert(gc_floored(tid, horizon, floor, r.0, r.1));
                r
            },
            _ => gc_early(),
        },
        GcEvent::Paths { paths } => match state {
            GcState::Collecting { tid, horizon, bound, files, inline_sql, slowest } => (
                GcState::Deleting { tid, paths, slowest },
                GcAction::DeleteRows { tid, horizon, bound, files, inline_sql },
            ),
            _ => gc_early(),
        },
        GcEvent::Deleted { data_file_rows, inline_rows, held } => match state {
            GcState::Deleting { tid, paths, slowest } => {
                let inline_rows: u64 = match inline_rows {
                    Some(n) => n,
                    None => 0,
                };
                let summary = GcSummary {
                    data_file_rows,
                    inline_rows,
                    objects_deleted: 0,
                    held_by_mv_floor: held,
                };
                if held > 0 {
                    (GcState::Warning { paths, summary }, GcAction::Warn { tid, held, slowest })
                } else {
                    gc_go_on(paths, summary)
                }
            },
            _ => gc_early(),
        },
        GcEvent::Warned => match state {
            GcState::Warning { paths, summary } => gc_go_on(paths, summary),
            _ => gc_early(),
        },
        GcEvent::Object { deleted } => match state {
            GcState::Removing { rest, summary } => {
                if deleted {
                    let counted = GcSummary {
                        data_file_rows: summary.data_file_rows,
                        inline_rows: summary.inline_rows,
                        objects_deleted: summary.objects_deleted + 1,
                        held_by_mv_floor: summary.held_by_mv_floor,
                    };
                    gc_go_on(rest, counted)
                } else {
                    gc_go_on(rest, summary)
                }
            },
            _ => gc_early(),
        },
    }
}

/// What is done next, given what came of the last action, at the present instant.
pub fn gc_table(retention: u64, state: GcState, event: GcEvent) -> (r: (GcState, GcAction))
    requires
        gc_state_fits(state),
        gc_event_fits(event),
    ensures
        exists|t: int|
            in_calendar(t) && #[trigger] gc_step(retention, t, state, event, r.0, r.1),
        gc_state_fits(r.0),
{
    let t: i128 = now();
    let r = gc_table_at(retention, t, state, event);
    assert(gc_step(retention, t as int, state, event, r.0, r.1));
    r
}

/// A file is deleted only once the deletion of the rows that name it is committed, so
/// that no row ever names a file that is gone.
pub proof fn law_rows_go_before_files(
    retention: u64,
    now: int,
    state: GcState,
    event: GcEvent,
    next: GcState,
    action: GcAction,
)
    requires
        gc_step(retention, now, state, event, next, action),
        action is DeleteObject,
    ensures
        (state is Deleting && event is Deleted) || state is Warning || state is Removing,
{
}

/// The collection takes back by one horizon and one floor: what the files are collected
/// by is what the rows are deleted by.
pub proof fn law_one_floor_decides(
    retention: u64,
    now: int,
    tid: i64,
    horizon: i64,
    floor: Option<MvFloor>,
    collecting: GcState,
    collect: GcAction,
    paths: Vec<String>,
    deleting: GcState,
    delete: GcAction,
)
    requires
        gc_floored(tid, horizon, floor, collecting, collect),
        gc_step(retention, now, collecting, GcEvent::Paths { paths }, deleting, delete),
    ensures
        delete matches GcAction::DeleteRows { tid: t, horizon: h, bound, files, inline_sql } && t
            == tid && h == horizon && bounds_files(floor, bound) && files@ == files_pred(
            floor is Some,
        ) && inline_sql@ == reclaim_for(floor, tid as int) && bound
            == collect->CollectPaths_bound && files@ == collect->CollectPaths_files@,
{
}

/// What a view that reads the stream has not come to yet is kept, however old it is. The
/// view is one that is registered for the stream or has a recorded position in it. The
/// bound keeps every file that may hold the row, and every file of which the largest
/// offset is not known; and no clause by which inline rows are deleted selects the row,
/// or one without a place.
pub proof fn law_unread_rows_are_held(
    retention: u64,
    now: int,
    state: GcState,
    bucket_count: i32,
    registered: Vec<String>,
    recorded: Vec<String>,
    positions: Vec<(String, i32, i64)>,
    next: GcState,
    action: GcAction,
    view: Seq<char>,
    end: Option<i64>,
    largest: int,
    bucket: int,
    offset: int,
)
    requires
        state is Flooring,
        gc_step(
            retention,
            now,
            state,
            GcEvent::Readers { bucket_count: Some(bucket_count), registered, recorded, positions },
            next,
            action,
        ),
        holds(registered@, view) || holds(recorded@, view),
        0 <= bucket < bucket_count,
        position(marks_of(positions@), view, bucket) <= offset <= largest,
    ensures
        action is CollectPaths,
        !file_reclaimable(
            end,
            action->CollectPaths_horizon,
            action->CollectPaths_bound,
            Some(largest),
        ),
        !file_reclaimable(
            end,
            action->CollectPaths_horizon,
            action->CollectPaths_bound,
            None,
        ),
        next is Collecting,
        exists|f: MvFloor|
            {
                &&& next->Collecting_inline_sql@ == #[trigger] reclaim_for(
                    Some(f),
                    state->Flooring_tid as int,
                )
                &&& !pred_selects(f.per_bucket.entries@, Some((bucket, offset)))
                &&& !pred_selects(f.per_bucket.entries@, None)
                &&& !row_reclaimable(
                    end,
                    state->Flooring_horizon,
                    Some(f),
                    Some((bucket, offset)),
                )
            },
{
    let tid = state->Flooring_tid;
    let horizon = state->Flooring_horizon;
    let floor = choose|floor: Option<MvFloor>|
        is_source_floor(floor, Some(bucket_count), registered@, recorded@, positions@)
            && #[trigger] gc_floored(tid, horizon, floor, next, action);
    law_source_floor_is_below_all(
        floor,
        bucket_count,
        registered@,
        recorded@,
        positions@,
        view,
        bucket,
        offset,
    );
    let f = floor->0;
    law_pred_selects_below_floor(f, bucket, offset);
    law_clauses_are_those_that_select(f.per_bucket.entries@);
    let bound = action->CollectPaths_bound;
    if file_reclaimable(end, horizon, bound, Some(largest)) {
        law_file_bound_is_conservative(f, bound->0 as int, bucket, offset);
    }
    assert(next->Collecting_inline_sql@ == reclaim_for(Some(f), tid as int));
}

/// What is out of the window and was read by every view does not stay: an inline row
/// whose bucket every reader has passed, and a file that every reader has passed in
/// every bucket.
pub proof fn law_read_rows_go(
    tid: i64,
    horizon: i64,
    f: MvFloor,
    next: GcState,
    action: GcAction,
    bucket_count: i32,
    readers: Seq<(String, ())>,
    marks: Map<(Seq<char>, int), i64>,
    end: Option<i64>,
    bucket: int,
    offset: int,
)
    requires
        gc_floored(tid, horizon, Some(f), next, action),
        is_mv_floor(Some(f), Some(bucket_count), readers, marks),
        0 <= bucket < bucket_count,
        reclaimable(end, horizon),
    ensures
        (forall|i: int|
            0 <= i < readers.len() ==> offset < position(
                marks,
                (#[trigger] readers[i]).0@,
                bucket,
            )) ==> row_reclaimable(end, horizon, Some(f), Some((bucket, offset))),
        (forall|i: int, b: int|
            0 <= i < readers.len() && 0 <= b < bucket_count ==> offset < #[trigger] position(
                marks,
                readers[i].0@,
                b,
            )) ==> file_reclaimable(end, horizon, action->CollectPaths_bound, Some(offset)),
{
    assert(f.per_bucket@.dom().contains(bucket));
    assert(holds_floor(readers, marks, bucket, f.per_bucket@[bucket] as int, f.slowest@[bucket]@));
    let least = action->CollectPaths_bound->0;
    assert(is_least(f.per_bucket@, least as int));
    let b = choose|b: int| #[trigger] f.per_bucket@.dom().contains(b) && f.per_bucket@[b] == least;
    assert(f.per_bucket@.dom().contains(b));
    assert(holds_floor(readers, marks, b, f.per_bucket@[b] as int, f.slowest@[b]@));
}

/// The rows that are kept for views that lag are counted, and where there are any, a
/// warning names in each bucket the view that has come least far.
pub proof fn law_held_rows_are_reported(
    retention: u64,
    now: int,
    state: GcState,
    data_file_rows: u64,
    inline_rows: Option<u64>,
    held: u64,
    next: GcState,
    action: GcAction,
)
    requires
        state is Deleting,
        gc_step(
            retention,
            now,
            state,
            GcEvent::Deleted { data_file_rows, inline_rows, held },
            next,
            action,
        ),
    ensures
        held > 0 ==> action == (GcAction::Warn {
            tid: state->Deleting_tid,
            held,
            slowest: state->Deleting_slowest,
        }),
        counted_held(next, action) == Some(held),
{
}

/// How many rows are counted as kept, where that is known.
pub open spec fn counted_held(state: GcState, action: GcAction) -> Option<u64> {
    match (state, action) {
        (GcState::Warning { paths: _, summary }, _) => Some(summary.held_by_mv_floor),
        (GcState::Removing { rest: _, summary }, _) => Some(summary.held_by_mv_floor),
        (_, GcAction::Finish { summary }) => Some(summary.held_by_mv_floor),
        _ => None,
    }
}

/// The count of the rows that are kept stays as it is to the end.
pub proof fn law_held_count_stays(
    retention: u64,
    now: int,
    state: GcState,
    last: GcAction,
    event: GcEvent,
    next: GcState,
    action: GcAction,
)
    requires
        state is Warning || state is Removing,
        gc_step(retention, now, state, event, next, action),
        !(action is Fail),
    ensures
        counted_held(next, action) == counted_held(state, last),
{
}

/// A file that cannot be deleted ends nothing: the next one is deleted all the same,
/// and only the count differs.
pub proof fn law_stuck_file_is_left(
    retention: u64,
    now: int,
    state: GcState,
    next: GcState,
    action: GcAction,
)
    requires
        state is Removing,
        gc_step(retention, now, state, GcEvent::Object { deleted: false }, next, action),
    ensures
        !(action is Fail),
        state->Removing_rest@.len() > 0 ==> action == (GcAction::DeleteObject {
            path: state->Removing_rest@[0],
        }),
{
}

} // verus!
