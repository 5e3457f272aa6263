//! Changing one row by its identity: a new version or a tombstone beside the files,
//! guarded against a change that came in between, in one transaction that is decided
//! step by step.
use crate::error::{ControlPlaneError, Fault};
use crate::iceberg_inline::{
    change_sql, change_text, ensure_inline_schema, inline_name, max_version_sql, max_version_text, quoted,
    schema_ddl,
    tombstone_sql, version_sql, version_text,
};
use crate::iceberg_mirror::ConsolidateState;
use crate::iceberg_type::{from_iceberg, logical_from_iceberg, BaseType};
use crate::inline_append::{
    are_cells, batch_fits, column_place, dates_fit, first_bad_cell, place_of, row_cells,
};
use crate::inline_cells::{
    advisory_key_for_id, bucket_of, cdc_bucket, cell_from_arrow, cell_of, dated, identity_hash,
    missing, Cell, CellModel, ColumnValues,
};
use crate::jobs::{is_table_job, table_job, STREAM_CONSOLIDATE_JOB_KIND};
use crate::names::{index_of, missing_field, name_place, no_field};
use crate::settle::{change_close, change_steps, closes, queued_job, SettleStep};
use crate::stream::StreamKind;
use crate::text::{concat3, concat4, i64_text, int_text, texts};
use crate::types::{ColumnSpec, NewJob, TableRef};
use crate::words::{debug_of, debug_text};
use vstd::prelude::*;
use vstd::string::StringExecFns;

verus! {

/// A row of values with the columns they stand under, in their order.
pub struct RowImage {
    pub columns: Vec<ColumnSpec>,
    pub batch: Vec<ColumnValues>,
}

/// What is to change. `batch` holds the one row, its columns named by
/// `batch_names`: all of it for a new version, at least the identity for a
/// tombstone. `before` is the row as it was. `accrues` says whether the change counts
/// towards a consolidation. `run` is the run that the lineage names, and `jobs` how
/// many jobs of its own the change queues.
pub struct DeltaRequest {
    pub table: TableRef,
    pub columns: Vec<ColumnSpec>,
    pub id_column: String,
    pub tombstone: bool,
    pub batch_names: Vec<String>,
    pub batch: Vec<ColumnValues>,
    pub before: Option<RowImage>,
    pub expected_version: i64,
    pub accrues: bool,
    pub run: u128,
    pub jobs: usize,
}

impl DeltaRequest {
    /// The batch has a value under each of its names, the row of a new version has
    /// one for each column, and so has the row as it was; dates can be written down.
    pub open spec fn wf(&self) -> bool {
        &&& row_fits(self.batch_names@, self.batch@)
        &&& self.columns@.len() + 6 <= usize::MAX
        &&& !self.tombstone ==> batch_fits(self.batch@, self.columns@, 1)
        &&& self.before matches Some(image) ==> image.columns@.len() + 6
            <= usize::MAX && batch_fits(
            image.batch@,
            image.columns@,
            1,
        )
    }
}

/// A live column of the mirror. `parametric` is what the logical vocabulary makes of
/// its type name.
pub struct MirrorColumn {
    pub name: String,
    pub column_type: String,
    pub nullable: bool,
    pub parametric: Option<BaseType>,
}

/// The column under its logical type.
pub open spec fn is_logical_column(c: ColumnSpec, m: MirrorColumn) -> bool {
    &&& c.name@ == m.name@
    &&& from_iceberg(m.column_type@, m.parametric) matches Some(b)
    &&& c.ty@ == b.name()
    &&& c.nullable == m.nullable
}

/// The columns under their logical types.
pub open spec fn are_logical_columns(columns: Seq<ColumnSpec>, rows: Seq<MirrorColumn>) -> bool {
    &&& columns.len() == rows.len()
    &&& forall|i: int| 0 <= i < rows.len() ==> is_logical_column(#[trigger] columns[i], rows[i])
}

/// The first column from `from` on that has no logical type.
pub open spec fn first_illogical(rows: Seq<MirrorColumn>, from: int) -> Option<int>
    decreases rows.len() - from,
{
    if from < 0 || from >= rows.len() {
        None
    } else if from_iceberg(rows[from].column_type@, rows[from].parametric) is None {
        Some(from)
    } else {
        first_illogical(rows, from + 1)
    }
}

/// That a column of the mirror has no logical type.
pub open spec fn illogical(column_type: Seq<char>) -> Fault {
    Fault::Backend(
        "inline: mirror column type "@ + debug_text(column_type) + " has no loom logical type"@,
    )
}

/// The live columns of a table under their logical types.
pub fn full_live_column_specs(rows: &Vec<MirrorColumn>) -> (r: Result<
    Vec<ColumnSpec>,
    ControlPlaneError,
>)
    ensures
        match r {
            Ok(columns) => first_illogical(rows@, 0) is None && are_logical_columns(columns@, rows@),
            Err(e) => first_illogical(rows@, 0) matches Some(i) && e@ == illogical(
                rows@[i].column_type@,
            ),
        },
{
    let mut out: Vec<ColumnSpec> = Vec::new();
    let mut i: usize = 0;
    while i < rows.len()
        invariant
            i <= rows@.len(),
            out@.len() == i,
            first_illogical(rows@, 0) == first_illogical(rows@, i as int),
            forall|j: int| 0 <= j < i ==> is_logical_column(#[trigger] out@[j], rows@[j]),
        decreases rows@.len() - i,
    {
        let m: &MirrorColumn = &rows[i];
        match logical_from_iceberg(m.column_type.as_str(), m.parametric) {
            None => {
                return Err(
                    ControlPlaneError::Backend(
                        concat3(
                            "inline: mirror column type ",
                            debug_of(m.column_type.as_str()).as_str(),
                            " has no loom logical type",
                        ),
                    ),
                );
            },
            Some(b) => {
                out.push(
                    ColumnSpec { name: m.name.clone(), ty: b.canonical_name(), nullable: m.nullable },
                );
            },
        }
        i = i + 1;
    }
    Ok(out)
}

/// The identity of a row: its type from the columns, its value from the batch, both by
/// the name of the identity.
pub open spec fn identity_in(
    columns: Seq<ColumnSpec>,
    id_column: Seq<char>,
    names: Seq<String>,
    batch: Seq<ColumnValues>,
) -> Result<CellModel, Fault> {
    match place_of(columns, id_column, 0) {
        None => Err(Fault::Backend("id column "@ + id_column + " not in columns"@)),
        Some(i) => match name_place(names, id_column, 0) {
            None => Err(
                Fault::Backend(
                    "id column "@ + id_column + " not in batch: "@ + no_field(id_column, names),
                ),
            ),
            Some(p) => cell_of(batch[p], p, 0, columns[i].ty@),
        },
    }
}

/// The identity of the row that is to change.
pub open spec fn identity_of(req: DeltaRequest) -> Result<CellModel, Fault> {
    identity_in(req.columns@, req.id_column@, req.batch_names@, req.batch@)
}

/// A batch has a value under each of its names, and its dates can be written down.
pub open spec fn row_fits(names: Seq<String>, batch: Seq<ColumnValues>) -> bool {
    &&& batch.len() == names.len()
    &&& forall|c: int|
        0 <= c < batch.len() ==> (#[trigger] batch[c]).count() >= 1 && dates_fit(batch[c], 1)
}

/// The identity of a row, whose values are named by `names`.
pub fn extract_id_cell(
    columns: &Vec<ColumnSpec>,
    id_column: &str,
    names: &Vec<String>,
    batch: &Vec<ColumnValues>,
) -> (r: Result<Cell, ControlPlaneError>)
    requires
        row_fits(names@, batch@),
    ensures
        match r {
            Ok(c) => dated(c@) && identity_in(columns@, id_column@, names@, batch@) == Ok::<
                CellModel,
                Fault,
            >(c@),
            Err(e) => identity_in(columns@, id_column@, names@, batch@) == Err::<CellModel, Fault>(e@),
        },
{
    let i: usize = match column_place(columns, id_column) {
        Some(i) => i,
        None => {
            return Err(
                ControlPlaneError::Backend(concat3("id column ", id_column, " not in columns")),
            );
        },
    };
    let p: usize = match index_of(names, id_column) {
        Some(p) => p,
        None => {
            return Err(
                ControlPlaneError::Backend(
                    concat4(
                        "id column ",
                        id_column,
                        " not in batch: ",
                        missing_field(id_column, names).as_str(),
                    ),
                ),
            );
        },
    };
    assert(dates_fit(batch@[p as int], 1));
    cell_from_arrow(&batch[p], p, 0, columns[i].ty.as_str())
}

/// What has been found out.
pub enum DeltaEvent {
    /// The change is to begin.
    Begin,
    /// The table's number, where it is live.
    Located { tid: Option<i64> },
    /// The live columns of the table, in order.
    ColumnsRead { columns: Vec<MirrorColumn> },
    /// The storage is there and the identity is locked; whether the storage can be
    /// read.
    Locked { readable: bool },
    /// The latest version of the identity.
    VersionRead { version: i64 },
    /// The snapshot is made. What is recorded of the table as a stream.
    Snapshotted { kind: Option<StreamKind>, bucket_count: i32 },
    /// The run of offsets is reserved; it begins here.
    Reserved { first: i64 },
    /// The rows are in. The consolidation trigger, where the change counts.
    Written { trigger: Option<ConsolidateState> },
    /// The last action failed.
    Failed { error: ControlPlaneError },
}

/// A row that is to be inserted.
pub enum DeltaRow {
    /// The identity is gone.
    Tombstone { sql: String, id: Cell },
    /// A new version.
    Version { sql: String, cells: Vec<Cell> },
    /// A row of a change sequence, in its place.
    Change {
        sql: String,
        kind: &'static str,
        tombstone: bool,
        bucket: i32,
        offset: i64,
        cells: Vec<Cell>,
    },
}

/// What is to be done.
pub enum DeltaAction {
    /// Open the transaction and look for the table.
    Locate,
    /// Read the live columns of the table.
    ReadColumns { tid: i64 },
    /// Run these statements, then take the lock of this number.
    Lock { ddl: Vec<String>, key: i64 },
    /// Ask for the latest version of the identity.
    ReadVersion { sql: String, id: Cell },
    /// Make a snapshot, and read what is recorded of the table as a stream.
    Snapshot,
    /// Reserve so many offsets in this bucket.
    Reserve { bucket: i32, count: i64 },
    /// Insert these rows, and add them to the consolidation trigger, where they
    /// count.
    Write { rows: Vec<DeltaRow> },
    /// Do these in turn.
    Finish { steps: Vec<SettleStep> },
    /// Roll back and report.
    Fail { error: ControlPlaneError },
}

/// How far the change has come.
pub enum DeltaState {
    Start,
    Locating,
    Reading { tid: i64 },
    Locking { tid: i64, id: Cell },
    Comparing { tid: i64, id: Cell },
    Making { tid: i64, id: Cell },
    Placing { tid: i64, bucket: i32 },
    Writing { cdc: bool },
    Done,
}

pub open spec fn fails(action: DeltaAction, e: Fault) -> bool {
    action matches DeltaAction::Fail { error } && error@ == e
}

/// The refusal of an event that does not belong here.
pub open spec fn out_of_turn(action: DeltaAction) -> bool {
    fails(action, Fault::Backend("inline change: event out of turn"@))
}

/// That the identity has moved on.
pub open spec fn advanced(expected: int, found: int) -> Fault {
    Fault::Conflict(
        "cow: identity version advanced "@ + int_text(expected) + " -> "@ + int_text(found)
            + " (concurrent mutation)"@,
    )
}

/// The version is the one that the change was made against, or the change fails.
pub open spec fn compares(
    req: DeltaRequest,
    tid: i64,
    id: CellModel,
    version: int,
    next: DeltaState,
    action: DeltaAction,
) -> bool {
    if version != req.expected_version {
        fails(action, advanced(req.expected_version as int, version)) && next is Done
    } else {
        &&& action is Snapshot
        &&& next matches DeltaState::Making { tid: t, id: kept }
        &&& t == tid
        &&& kept@ == id
    }
}

/// A row of a change sequence.
pub open spec fn is_change(
    row: DeltaRow,
    tid: i64,
    kind: Seq<char>,
    tombstone: bool,
    bucket: i32,
    offset: int,
    batch: Seq<ColumnValues>,
    columns: Seq<ColumnSpec>,
) -> bool {
    &&& row matches DeltaRow::Change { sql, kind: k, tombstone: t, bucket: b, offset: o, cells }
    &&& sql@ == change_text(tid as int, columns)
    &&& k@ == kind
    &&& t == tombstone
    &&& b == bucket
    &&& o == offset
    &&& are_cells(cells@, batch, columns, 0)
}

/// The rows of a change to a stream: the row as it was, and behind it, unless it is
/// gone, the row as it is.
pub open spec fn are_changes(req: DeltaRequest, tid: i64, bucket: i32, first: i64, rows: Seq<DeltaRow>) -> bool {
    let image = req.before->0;
    if req.tombstone {
        &&& rows.len() == 1
        &&& is_change(rows[0], tid, "-D"@, true, bucket, first as int, image.batch@, image.columns@)
    } else {
        &&& rows.len() == 2
        &&& is_change(rows[0], tid, "-U"@, false, bucket, first as int, image.batch@, image.columns@)
        &&& is_change(rows[1], tid, "+U"@, false, bucket, first + 1, req.batch@, req.columns@)
    }
}

/// Why the rows of a change to a stream cannot be written.
pub open spec fn change_fault(req: DeltaRequest) -> Option<Fault> {
    let image = req.before->0;
    match first_bad_cell(image.batch@, image.columns@, 1, 0, 0) {
        Some(e) => Some(e),
        None => if req.tombstone {
            None
        } else {
            first_bad_cell(req.batch@, req.columns@, 1, 0, 0)
        },
    }
}

/// What follows once the snapshot is made.
pub open spec fn continues(
    req: DeltaRequest,
    tid: i64,
    id: CellModel,
    kind: Option<StreamKind>,
    bucket_count: i32,
    next: DeltaState,
    action: DeltaAction,
) -> bool {
    if kind == Some(StreamKind::Cdc) {
        if bucket_count < 1 {
            fails(
                action,
                Fault::Validation(
                    "cdc bucket_count must be >= 1, got "@ + int_text(bucket_count as int),
                ),
            ) && next is Done
        } else if req.before is None {
            fails(action, Fault::Backend("cdc mutation requires a before-image"@)) && next is Done
        } else {
            &&& action matches DeltaAction::Reserve { bucket, count }
            &&& bucket == bucket_of(id, bucket_count as int)
            &&& count == (if req.tombstone {
                1int
            } else {
                2int
            })
            &&& next == (DeltaState::Placing { tid, bucket })
        }
    } else if req.tombstone {
        &&& action matches DeltaAction::Write { rows }
        &&& rows@.len() == 1
        &&& rows@[0] matches DeltaRow::Tombstone { sql, id: gone }
        &&& sql@ == "insert into "@ + inline_name(tid as int)
            + " (begin_snapshot, loom_tombstone, loom_change_kind, "@ + quoted(req.id_column@)
            + ") values ($1, true, '-D', $2)"@
        &&& gone@ == id
        &&& next == (DeltaState::Writing { cdc: false })
    } else {
        match first_bad_cell(req.batch@, req.columns@, 1, 0, 0) {
            Some(e) => fails(action, e) && next is Done,
            None => {
                &&& action matches DeltaAction::Write { rows }
                &&& rows@.len() == 1
                &&& rows@[0] matches DeltaRow::Version { sql, cells }
                &&& sql@ == version_text(tid as int, req.columns@)
                &&& are_cells(cells@, req.batch@, req.columns@, 0)
                &&& next == (DeltaState::Writing { cdc: false })
            },
        }
    }
}

/// Whether a consolidation is due.
pub open spec fn consolidation_due(st: ConsolidateState) -> bool {
    st.delta_count >= st.effective && !st.enqueued
}

/// The job that a change queues: a consolidation, where one is due.
pub open spec fn is_consolidation_choice(
    job: Option<NewJob>,
    table: TableRef,
    trigger: Option<ConsolidateState>,
) -> bool {
    match job {
        Some(j) => trigger is Some && consolidation_due(trigger->0) && is_table_job(
            j,
            STREAM_CONSOLIDATE_JOB_KIND@,
            table,
        ),
        None => !(trigger is Some && consolidation_due(trigger->0)),
    }
}

/// What the change does next, and where it then stands.
pub open spec fn delta_step(
    req: DeltaRequest,
    state: DeltaState,
    event: DeltaEvent,
    next: DeltaState,
    action: DeltaAction,
) -> bool {
    match event {
        DeltaEvent::Failed { error } => fails(action, error@) && next is Done,
        DeltaEvent::Begin => if state is Start {
            action is Locate && next is Locating
        } else {
            out_of_turn(action) && next is Done
        },
        DeltaEvent::Located { tid } => if state is Locating {
            match tid {
                None => fails(
                    action,
                    Fault::Backend(
                        "no mirror table for "@ + req.table.schema@ + "."@ + req.table.name@,
                    ),
                ) && next is Done,
                Some(t) => action == (DeltaAction::ReadColumns { tid: t }) && next == (
                DeltaState::Reading { tid: t }),
            }
        } else {
            out_of_turn(action) && next is Done
        },
        DeltaEvent::ColumnsRead { columns } => match state {
            DeltaState::Reading { tid } => locks(req, tid, columns@, next, action),
            _ => out_of_turn(action) && next is Done,
        },
        DeltaEvent::Locked { readable } => match state {
            DeltaState::Locking { tid, id } => if !readable {
                compares(req, tid, id@, 0, next, action)
            } else if missing(id@) {
                fails(action, Fault::Backend("identity value is null"@)) && next is Done
            } else {
                &&& action matches DeltaAction::ReadVersion { sql, id: asked }
                &&& sql@ == max_version_text(tid as int, req.id_column@)
                &&& asked@ == id@
                &&& next matches DeltaState::Comparing { tid: t, id: kept }
                &&& t == tid
                &&& kept@ == id@
            },
            _ => out_of_turn(action) && next is Done,
        },
        DeltaEvent::VersionRead { version } => match state {
            DeltaState::Comparing { tid, id } => compares(req, tid, id@, version as int, next, action),
            _ => out_of_turn(action) && next is Done,
        },
        DeltaEvent::Snapshotted { kind, bucket_count } => match state {
            DeltaState::Making { tid, id } => continues(req, tid, id@, kind, bucket_count, next, action),
            _ => out_of_turn(action) && next is Done,
        },
        DeltaEvent::Reserved { first } => match state {
            DeltaState::Placing { tid, bucket } => match change_fault(req) {
                Some(e) => fails(action, e) && next is Done,
                None => {
                    &&& action matches DeltaAction::Write { rows }
                    &&& are_changes(req, tid, bucket, first, rows@)
                    &&& next == (DeltaState::Writing { cdc: true })
                },
            },
            _ => out_of_turn(action) && next is Done,
        },
        DeltaEvent::Written { trigger } => match state {
            DeltaState::Writing { cdc } => {
                &&& action matches DeltaAction::Finish { steps }
                &&& closes(steps@, change_close(req.run, req.jobs as nat, cdc))
                &&& is_consolidation_choice(
                    queued_job(steps@),
                    req.table,
                    if req.accrues {
                        trigger
                    } else {
                        None
                    },
                )
                &&& next is Done
            },
            _ => out_of_turn(action) && next is Done,
        },
    }
}

/// What follows once the live columns are read.
pub open spec fn locks(
    req: DeltaRequest,
    tid: i64,
    rows: Seq<MirrorColumn>,
    next: DeltaState,
    action: DeltaAction,
) -> bool {
    match first_illogical(rows, 0) {
        Some(i) => fails(action, illogical(rows[i].column_type@)) && next is Done,
        None => exists|columns: Seq<ColumnSpec>| #[trigger]
            are_logical_columns(columns, rows) && match schema_ddl(tid as int, columns) {
                Err(e) => fails(action, e) && next is Done,
                Ok(statements) => match identity_of(req) {
                    Err(e) => fails(action, e) && next is Done,
                    Ok(id) => {
                        &&& action matches DeltaAction::Lock { ddl, key }
                        &&& texts(ddl@) == statements
                        &&& key == identity_hash(tid, id) as i64
                        &&& next matches DeltaState::Locking { tid: t, id: kept }
                        &&& t == tid
                        &&& kept@ == id
                    },
                },
            },
    }
}

/// What the caller hands back belongs to what was asked: a reserved run fits.
pub open spec fn event_fits(event: DeltaEvent) -> bool {
    event matches DeltaEvent::Reserved { first } ==> first < i64::MAX
}

/// The calendar has the identity, and a change that is placed has the row as it was.
pub open spec fn state_fits(req: DeltaRequest, state: DeltaState) -> bool {
    match state {
        DeltaState::Locking { tid: _, id } => dated(id@),
        DeltaState::Comparing { tid: _, id } => dated(id@),
        DeltaState::Making { tid: _, id } => dated(id@),
        DeltaState::Placing { .. } => req.before is Some,
        _ => true,
    }
}

fn early(message: &str) -> (r: DeltaAction)
    ensures
        fails(r, Fault::Backend(message@)),
{
    DeltaAction::Fail { error: ControlPlaneError::Backend(message.to_owned()) }
}

fn compare(req: &DeltaRequest, tid: i64, id: Cell, version: i64) -> (r: (DeltaState, DeltaAction))
    requires
        dated(id@),
    ensures
        compares(*req, tid, id@, version as int, r.0, r.1),
        state_fits(*req, r.0),
{
    if version != req.expected_version {
        let mut s: String = "cow: identity version advanced ".to_owned();
        s.append(i64_text(req.expected_version).as_str());
        s.append(" -> ");
        s.append(i64_text(version).as_str());
        s.append(" (concurrent mutation)");
        (DeltaState::Done, DeltaAction::Fail { error: ControlPlaneError::Conflict(s) })
    } else {
        (DeltaState::Making { tid, id }, DeltaAction::Snapshot)
    }
}

/// The values of the one row of a batch.
fn single_row(batch: &Vec<ColumnValues>, columns: &Vec<ColumnSpec>) -> (r: Result<
    Vec<Cell>,
    ControlPlaneError,
>)
    requires
        batch_fits(batch@, columns@, 1),
    ensures
        match r {
            Ok(cells) => first_bad_cell(batch@, columns@, 1, 0, 0) is None && are_cells(
                cells@,
                batch@,
                columns@,
                0,
            ),
            Err(e) => first_bad_cell(batch@, columns@, 1, 0, 0) == Some(e@),
        },
{
    match row_cells(batch, columns, 1) {
        Ok(mut list) => {
            let ghost all = list@;
            let cells: Vec<Cell> = list.remove(0);
            assert(cells == all[0]);
            Ok(cells)
        },
        Err(e) => Err(e),
    }
}

fn change_rows(req: &DeltaRequest, image: &RowImage, tid: i64, bucket: i32, first: i64) -> (r: Result<
    Vec<DeltaRow>,
    ControlPlaneError,
>)
    requires
        req.wf(),
        req.before == Some(*image),
        first < i64::MAX,
    ensures
        match r {
            Ok(rows) => change_fault(*req) is None && are_changes(*req, tid, bucket, first, rows@),
            Err(e) => change_fault(*req) == Some(e@),
        },
{
    let old_cells: Vec<Cell> = match single_row(&image.batch, &image.columns) {
        Ok(c) => c,
        Err(e) => {
            return Err(e);
        },
    };
    let mut rows: Vec<DeltaRow> = Vec::new();
    if req.tombstone {
        rows.push(
            DeltaRow::Change {
                sql: change_sql(tid, &image.columns),
                kind: "-D",
                tombstone: true,
                bucket,
                offset: first,
                cells: old_cells,
            },
        );
    } else {
        let new_cells: Vec<Cell> = match single_row(&req.batch, &req.columns) {
            Ok(c) => c,
            Err(e) => {
                return Err(e);
            },
        };
        rows.push(
            DeltaRow::Change {
                sql: change_sql(tid, &image.columns),
                kind: "-U",
                tombstone: false,
                bucket,
                offset: first,
                cells: old_cells,
            },
        );
        rows.push(
            DeltaRow::Change {
                sql: change_sql(tid, &req.columns),
                kind: "+U",
                tombstone: false,
                bucket,
                offset: first + 1,
                cells: new_cells,
            },
        );
    }
    Ok(rows)
}

fn after_snapshot(
    req: &DeltaRequest,
    tid: i64,
    id: Cell,
    kind: Option<StreamKind>,
    bucket_count: i32,
) -> (r: (DeltaState, DeltaAction))
    requires
        req.wf(),
        dated(id@),
    ensures
        continues(*req, tid, id@, kind, bucket_count, r.0, r.1),
        state_fits(*req, r.0),
{
    let cdc: bool = match kind {
        Some(StreamKind::Cdc) => true,
        _ => false,
    };
    if cdc {
        let bucket: i32 = match cdc_bucket(&id, bucket_count) {
            Ok(b) => b,
            Err(error) => {
                return (DeltaState::Done, DeltaAction::Fail { error });
            },
        };
        if req.before.is_none() {
            return (DeltaState::Done, early("cdc mutation requires a before-image"));
        }
        let count: i64 = if req.tombstone {
            1
        } else {
            2
        };
        (DeltaState::Placing { tid, bucket }, DeltaAction::Reserve { bucket, count })
    } else {
        let mut rows: Vec<DeltaRow> = Vec::new();
        if req.tombstone {
            rows.push(
                DeltaRow::Tombstone { sql: tombstone_sql(tid, req.id_column.as_str()), id },
            );
        } else {
            match single_row(&req.batch, &req.columns) {
                Ok(cells) => {
                    rows.push(DeltaRow::Version { sql: version_sql(tid, &req.columns), cells });
                },
                Err(error) => {
                    return (DeltaState::Done, DeltaAction::Fail { error });
                },
            }
        }
        (DeltaState::Writing { cdc: false }, DeltaAction::Write { rows })
    }
}

/// What the change does next, given what came of the last action.
pub fn write_inline_delta(req: &DeltaRequest, state: DeltaState, event: DeltaEvent) -> (r: (
    DeltaState,
    DeltaAction,
))
    requires
        req.wf(),
        state_fits(*req, state),
        event_fits(event),
    ensures
        delta_step(*req, state, event, r.0, r.1),
        state_fits(*req, r.0),
{
    match event {
        DeltaEvent::Failed { error } => (DeltaState::Done, DeltaAction::Fail { error }),
        DeltaEvent::Begin => match state {
            DeltaState::Start => (DeltaState::Locating, DeltaAction::Locate),
            _ => (DeltaState::Done, early("inline change: event out of turn")),
        },
        DeltaEvent::Located { tid } => match state {
            DeltaState::Locating => match tid {
                None => (
                    DeltaState::Done,
                    DeltaAction::Fail {
                        error: ControlPlaneError::Backend(
                            concat4(
                                "no mirror table for ",
                                req.table.schema.as_str(),
                                ".",
                                req.table.name.as_str(),
                            ),
                        ),
                    },
                ),
                Some(t) => (DeltaState::Reading { tid: t }, DeltaAction::ReadColumns { tid: t }),
            },
            _ => (DeltaState::Done, early("inline change: event out of turn")),
        },
        DeltaEvent::ColumnsRead { columns } => match state {
            DeltaState::Reading { tid } => {
                let full: Vec<ColumnSpec> = match full_live_column_specs(&columns) {
                    Ok(c) => c,
                    Err(error) => {
                        return (DeltaState::Done, DeltaAction::Fail { error });
                    },
                };
                assert(are_logical_columns(full@, columns@));
                let ddl: Vec<String> = match ensure_inline_schema(tid, &full) {
                    Ok(d) => d,
                    Err(error) => {
                        return (DeltaState::Done, DeltaAction::Fail { error });
                    },
                };
                let id: Cell = match extract_id_cell(
                    &req.columns,
                    req.id_column.as_str(),
                    &req.batch_names,
                    &req.batch,
                ) {
                    Ok(c) => c,
                    Err(error) => {
                        return (DeltaState::Done, DeltaAction::Fail { error });
                    },
                };
                let key: i64 = advisory_key_for_id(tid, &id);
                (DeltaState::Locking { tid, id }, DeltaAction::Lock { ddl, key })
            },
            _ => (DeltaState::Done, early("inline change: event out of turn")),
        },
        DeltaEvent::Locked { readable } => match state {
            DeltaState::Locking { tid, id } => {
                if !readable {
                    compare(req, tid, id, 0)
                } else if id.is_null() {
                    (DeltaState::Done, early("identity value is null"))
                } else {
                    let asked: Cell = id.duplicate();
                    (
                        DeltaState::Comparing { tid, id },
                        DeltaAction::ReadVersion {
                            sql: max_version_sql(tid, req.id_column.as_str()),
                            id: asked,
                        },
                    )
                }
            },
            _ => (DeltaState::Done, early("inline change: event out of turn")),
        },
        DeltaEvent::VersionRead { version } => match state {
            DeltaState::Comparing { tid, id } => compare(req, tid, id, version),
            _ => (DeltaState::Done, early("inline change: event out of turn")),
        },
        DeltaEvent::Snapshotted { kind, bucket_count } => match state {
            DeltaState::Making { tid, id } => after_snapshot(req, tid, id, kind, bucket_count),
            _ => (DeltaState::Done, early("inline change: event out of turn")),
        },
        DeltaEvent::Reserved { first } => match state {
            DeltaState::Placing { tid, bucket } => match &req.before {
                Some(image) => match change_rows(req, image, tid, bucket, first) {
                    Ok(rows) => (DeltaState::Writing { cdc: true }, DeltaAction::Write { rows }),
                    Err(error) => (DeltaState::Done, DeltaAction::Fail { error }),
                },
                None => (DeltaState::Done, early("cdc mutation requires a before-image")),
            },
            _ => (DeltaState::Done, early("inline change: event out of turn")),
        },
        DeltaEvent::Written { trigger } => match state {
            DeltaState::Writing { cdc } => {
                let job: Option<NewJob> = match trigger {
                    Some(st) => {
                        if req.accrues && st.delta_count >= st.effective && !st.enqueued {
                            Some(table_job(STREAM_CONSOLIDATE_JOB_KIND, &req.table))
                        } else {
                            None
                        }
                    },
                    None => None,
                };
                (
                    DeltaState::Done,
                    DeltaAction::Finish { steps: change_steps(job, req.run, req.jobs, cdc) },
                )
            },
            _ => (DeltaState::Done, early("inline change: event out of turn")),
        },
    }
}

/// A change against a version that is not the latest fails, and makes no snapshot.
pub proof fn law_stale_change_fails(
    req: DeltaRequest,
    tid: i64,
    id: Cell,
    version: i64,
    next: DeltaState,
    action: DeltaAction,
)
    requires
        version != req.expected_version,
        delta_step(
            req,
            DeltaState::Comparing { tid, id },
            DeltaEvent::VersionRead { version },
            next,
            action,
        ),
    ensures
        fails(action, advanced(req.expected_version as int, version as int)),
        next is Done,
{
}

/// A snapshot is made only where the latest version is the expected one.
pub proof fn law_snapshot_means_expected_version(
    req: DeltaRequest,
    tid: i64,
    id: Cell,
    version: i64,
    next: DeltaState,
    action: DeltaAction,
)
    requires
        delta_step(
            req,
            DeltaState::Comparing { tid, id },
            DeltaEvent::VersionRead { version },
            next,
            action,
        ),
        action is Snapshot,
    ensures
        version == req.expected_version,
{
}

/// An update of a stream of changes writes the row as it was and the row as it is
/// side by side, in one bucket, the first first.
pub proof fn law_update_is_a_pair(req: DeltaRequest, tid: i64, bucket: i32, first: i64, rows: Seq<DeltaRow>)
    requires
        !req.tombstone,
        are_changes(req, tid, bucket, first, rows),
    ensures
        rows.len() == 2,
        rows[0] matches DeltaRow::Change { bucket: b, offset, .. } && b == bucket && offset == first,
        rows[1] matches DeltaRow::Change { bucket: b, offset, .. } && b == bucket && offset == first + 1,
{
}

/// How the inline version of an identity is found out.
#[derive(Debug)]
pub enum VersionProbe {
    /// It is zero.
    Zero,
    /// Ask this, with the identity.
    Ask { sql: String },
}

/// How the inline version of an identity is found out: it is zero without inline
/// storage. An identity that is missing is an error, for no row could match it.
pub fn read_max_version(tid: i64, stored: bool, id_column: &str, id: &Cell) -> (r: Result<
    VersionProbe,
    ControlPlaneError,
>)
    ensures
        match r {
            Ok(VersionProbe::Zero) => !stored,
            Ok(VersionProbe::Ask { sql }) => stored && !missing(id@) && sql@ == max_version_text(
                tid as int,
                id_column@,
            ),
            Err(e) => stored && missing(id@) && e@ == Fault::Backend("identity value is null"@),
        },
{
    if !stored {
        return Ok(VersionProbe::Zero);
    }
    if id.is_null() {
        return Err(ControlPlaneError::Backend("identity value is null".to_owned()));
    }
    Ok(VersionProbe::Ask { sql: max_version_sql(tid, id_column) })
}

/// What the question for the inline version of an identity comes to next.
#[derive(Debug)]
pub enum VersionStep {
    /// It is zero.
    Zero,
    /// Find out whether the table has inline storage.
    AskStorage,
    /// Ask this, with the identity.
    Ask { sql: String, id: Cell },
}

/// What is done next to find out the inline version of the identity in a batch: a table
/// that is not live has none, nor has one without inline storage. `stored` says whether
/// there is storage, once that is known.
pub open spec fn version_step(
    tid: Option<i64>,
    identity: Result<CellModel, Fault>,
    id_column: Seq<char>,
    stored: Option<bool>,
    r: Result<VersionStep, ControlPlaneError>,
) -> bool {
    match (tid, identity, stored) {
        (None, _, _) => r matches Ok(step) && step is Zero,
        (Some(_), Err(e), _) => r matches Err(error) && error@ == e,
        (Some(_), Ok(_), None) => r matches Ok(step) && step is AskStorage,
        (Some(_), Ok(_), Some(false)) => r matches Ok(step) && step is Zero,
        (Some(t), Ok(c), Some(true)) => if missing(c) {
            r matches Err(error) && error@ == Fault::Backend("identity value is null"@)
        } else {
            r matches Ok(VersionStep::Ask { sql, id }) && id@ == c && sql@ == max_version_text(
                t as int,
                id_column,
            )
        },
    }
}

/// The inline version of the identity in a batch.
pub fn current_inline_version(
    tid: Option<i64>,
    columns: &Vec<ColumnSpec>,
    id_column: &str,
    names: &Vec<String>,
    batch: &Vec<ColumnValues>,
    stored: Option<bool>,
) -> (r: Result<VersionStep, ControlPlaneError>)
    requires
        row_fits(names@, batch@),
    ensures
        version_step(
            tid,
            identity_in(columns@, id_column@, names@, batch@),
            id_column@,
            stored,
            r,
        ),
{
    let t: i64 = match tid {
        Some(t) => t,
        None => {
            return Ok(VersionStep::Zero);
        },
    };
    let id: Cell = match extract_id_cell(columns, id_column, names, batch) {
        Ok(c) => c,
        Err(e) => {
            return Err(e);
        },
    };
    match stored {
        None => Ok(VersionStep::AskStorage),
        Some(s) => match read_max_version(t, s, id_column, &id) {
            Ok(VersionProbe::Zero) => Ok(VersionStep::Zero),
            Ok(VersionProbe::Ask { sql }) => Ok(VersionStep::Ask { sql, id }),
            Err(e) => Err(e),
        },
    }
}

} // verus!
