//! Appending a batch as inline rows: one transaction, decided step by step.
//!
//! The caller performs each action and hands back what came of it; a failed action
//! ends the append and rolls everything back.
use crate::error::{ControlPlaneError, Fault};
use crate::framing::{
    bucket_counts, count_of, frame_rows, frames_of, in_buckets, in_turn, lemma_runs, reserve_runs,
    round_robin, run_starts, runs_fit, runs_of, starts_of,
};
use crate::iceberg_inline::{
    append_sql, append_text, ensure_inline_schema, schema_ddl,
};
use crate::iceberg_mirror::{ProjectedColumn, TriggerState};
use crate::iceberg_schema_evolution::{
    change_message, classify_schema_change, schema_refusal, SchemaPlan,
};
use crate::iceberg_type::{mirror_column_type, mirror_type, BaseType};
use crate::inline_cells::{
    bucket_of, cdc_bucket, cell_from_arrow, cell_of, law_bucket_in_range, Cell, CellModel,
    ColumnValues, FIRST_DAY, LAST_DAY,
};
use crate::jobs::{is_table_job, table_job, FLUSH_JOB_KIND};
use crate::key::str_same;
use crate::settle::{
    append_close, append_steps, closes, marks_of, mv_steps, queued_job, MvCommit, SettleStep,
};
use crate::stream::StreamKind;
use crate::text::{concat, concat3, i64_text, int_text, texts};
use crate::types::{ColumnSpec, NewJob, TableRef};
use crate::words::{debug_of, debug_text};
use vstd::prelude::*;
use vstd::string::StringExecFns;

verus! {

/// What is to be appended. `resolved` is what the logical vocabulary makes of each
/// column's type; `declares` whether the write declares the table a stream;
/// `accrues` whether its bytes count towards a flush. `run` is the run that the
/// lineage names, `jobs` how many jobs of its own the write queues, and `mv` what a
/// view commits along with it.
pub struct AppendRequest {
    pub table: TableRef,
    pub columns: Vec<ColumnSpec>,
    pub resolved: Vec<Option<BaseType>>,
    pub batch: Vec<ColumnValues>,
    pub rows: usize,
    pub declares: bool,
    pub accrues: bool,
    pub run: u128,
    pub jobs: usize,
    pub mv: Option<MvCommit>,
}

impl AppendRequest {
    /// The batch has a column of values for each column, with one value for each
    /// row, and its dates can be written down.
    pub open spec fn wf(&self) -> bool {
        &&& self.resolved@.len() == self.columns@.len()
        &&& self.columns@.len() + 6 <= usize::MAX
        &&& self.columns@.len() + 6 <= i64::MAX
        &&& self.rows <= i64::MAX
        &&& batch_fits(self.batch@, self.columns@, self.rows as int)
    }
}

/// An append that carries nothing along: to a log of so many buckets, where the write
/// declares one.
pub fn inline_append(
    table: TableRef,
    columns: Vec<ColumnSpec>,
    resolved: Vec<Option<BaseType>>,
    batch: Vec<ColumnValues>,
    rows: usize,
    accrues: bool,
    stream_buckets: Option<i32>,
    run: u128,
) -> (r: AppendRequest)
    ensures
        r == (AppendRequest {
            table,
            columns,
            resolved,
            batch,
            rows,
            declares: stream_buckets is Some,
            accrues,
            run,
            jobs: 0,
            mv: None,
        }),
{
    AppendRequest {
        table,
        columns,
        resolved,
        batch,
        rows,
        declares: stream_buckets.is_some(),
        accrues,
        run,
        jobs: 0,
        mv: None,
    }
}

/// An append of a view's output, to a log that the write declares.
pub fn inline_append_mv(
    table: TableRef,
    columns: Vec<ColumnSpec>,
    resolved: Vec<Option<BaseType>>,
    batch: Vec<ColumnValues>,
    rows: usize,
    accrues: bool,
    run: u128,
    mv: MvCommit,
) -> (r: AppendRequest)
    ensures
        r == (AppendRequest {
            table,
            columns,
            resolved,
            batch,
            rows,
            declares: true,
            accrues,
            run,
            jobs: 0,
            mv: Some(mv),
        }),
{
    AppendRequest {
        table,
        columns,
        resolved,
        batch,
        rows,
        declares: true,
        accrues,
        run,
        jobs: 0,
        mv: Some(mv),
    }
}

/// The batch has a column of values for each of `columns`, with a value for each
/// row, and its dates can be written down.
pub open spec fn batch_fits(batch: Seq<ColumnValues>, columns: Seq<ColumnSpec>, rows: int) -> bool {
    &&& columns.len() <= batch.len()
    &&& forall|c: int|
        0 <= c < columns.len() ==> (#[trigger] batch[c]).count() >= rows && dates_fit(batch[c], rows)
}

/// The first `rows` values, where they are dates, can be written down.
pub open spec fn dates_fit(v: ColumnValues, rows: int) -> bool {
    v matches ColumnValues::Date32(d) ==> forall|r: int|
        0 <= r < rows ==> (#[trigger] d@[r] matches Some(day) ==> FIRST_DAY <= day <= LAST_DAY)
}

/// What has been found out.
pub enum AppendEvent {
    /// The append is to begin.
    Begin,
    /// The table's row is there: made by this write or not; as a stream it was
    /// recorded with so many buckets, or not; and its live columns.
    Opened { tid: i64, created: bool, existing: Option<i32>, live: Vec<ProjectedColumn> },
    /// The columns are written, the storage is there, and the table's mode is
    /// settled: a stream with so many buckets, or none. `kind` and `bucket_key` are
    /// what is recorded of the stream.
    Prepared { effective: Option<i32>, kind: Option<StreamKind>, bucket_key: Option<String> },
    /// The runs are reserved; each begins here.
    Reserved { firsts: Vec<i64> },
    /// The rows are in. Where the bytes count: the table's trigger, whether the table
    /// is a stream of changes, and whether it has inline changes.
    Inserted { trigger: Option<TriggerState>, is_cdc: bool, shadowed: bool },
    /// The last action failed.
    Failed { error: ControlPlaneError },
}

/// What is to be done.
pub enum AppendAction {
    /// Open the transaction, make a snapshot, see to the table's row, read its bucket
    /// count and its live columns.
    Open,
    /// Write these columns, run these statements, and settle the table's mode.
    Prepare { project: Vec<ProjectedColumn>, ddl: Vec<String> },
    /// Reserve a run of offsets in each of these buckets.
    Reserve { runs: Vec<(i32, i64)> },
    /// Insert the rows with this statement, each with its place where it has one.
    /// Where `notify` says so, wake the subscribers. Then do `marks` in turn, and add
    /// the bytes to the table's trigger, where they count.
    Insert {
        sql: String,
        frames: Option<Vec<(i32, i64)>>,
        rows: Vec<Vec<Cell>>,
        notify: bool,
        marks: Vec<SettleStep>,
    },
    /// Do these in turn.
    Finish { steps: Vec<SettleStep> },
    /// Roll back and report.
    Fail { error: ControlPlaneError },
}

/// How far the append has come.
pub enum AppendState {
    Start,
    Opening,
    Preparing { tid: i64 },
    Reserving { tid: i64, bucket_count: usize, buckets: Vec<usize>, runs: Vec<(i32, i64)>, notify: bool },
    Inserting,
    Done,
}

/// Whether the rows of the append are those of a stream: the table is one, or the
/// write makes it one and makes the table.
pub open spec fn frames_columns(existing: Option<i32>, declares: bool, created: bool) -> bool {
    existing is Some || (declares && created)
}

/// A column of the append as the mirror keeps it, numbered from 0.
pub open spec fn is_user_column(p: ProjectedColumn, c: ColumnSpec, resolved: Option<BaseType>, i: int) -> bool {
    &&& p.order == i
    &&& p.name@ == c.name@
    &&& mirror_type(c.ty@, resolved) == Some(p.iceberg_type@)
    &&& p.nullable == c.nullable
}

/// A column that places a row of a stream.
pub open spec fn is_framing_column(
    p: ProjectedColumn,
    order: int,
    name: Seq<char>,
    iceberg_type: Seq<char>,
    nullable: bool,
) -> bool {
    &&& p.order == order
    &&& p.name@ == name
    &&& p.iceberg_type@ == iceberg_type
    &&& p.nullable == nullable
}

/// The first column from `from` on whose type the mirror does not have.
pub open spec fn first_unmirrored(columns: Seq<ColumnSpec>, resolved: Seq<Option<BaseType>>, from: int) -> Option<
    int,
>
    decreases columns.len() - from,
{
    if from < 0 || from >= columns.len() {
        None
    } else if mirror_type(columns[from].ty@, resolved[from]) is None {
        Some(from)
    } else {
        first_unmirrored(columns, resolved, from + 1)
    }
}

/// The columns of the append as the mirror keeps them: its own, and behind them
/// those that place the rows of a stream, with one number left out between.
pub open spec fn are_append_columns(req: AppendRequest, framed: bool, p: Seq<ProjectedColumn>) -> bool {
    let n = req.columns@.len() as int;
    &&& p.len() == n + (if framed {
        3int
    } else {
        0int
    })
    &&& forall|i: int| 0 <= i < n ==> is_user_column(#[trigger] p[i], req.columns@[i], req.resolved@[i], i)
    &&& framed ==> is_framing_column(p[n], n + 1, "loom_change_kind"@, "string"@, false)
        && is_framing_column(p[n + 1], n + 2, "loom_bucket"@, "int"@, true) && is_framing_column(
        p[n + 2],
        n + 3,
        "loom_offset"@,
        "long"@,
        true,
    )
}

/// The columns of the append as the mirror keeps them.
pub fn append_columns(req: &AppendRequest, framed: bool) -> (r: Result<
    Vec<ProjectedColumn>,
    ControlPlaneError,
>)
    requires
        req.wf(),
    ensures
        match r {
            Ok(p) => first_unmirrored(req.columns@, req.resolved@, 0) is None && are_append_columns(
                *req,
                framed,
                p@,
            ),
            Err(e) => first_unmirrored(req.columns@, req.resolved@, 0) matches Some(i) && e@
                == Fault::Backend("inline: no iceberg type for "@ + debug_text(req.columns@[i].ty@)),
        },
{
    let mut out: Vec<ProjectedColumn> = Vec::new();
    let mut i: usize = 0;
    while i < req.columns.len()
        invariant
            req.wf(),
            i <= req.columns@.len(),
            out@.len() == i,
            first_unmirrored(req.columns@, req.resolved@, 0) == first_unmirrored(
                req.columns@,
                req.resolved@,
                i as int,
            ),
            forall|j: int|
                0 <= j < i ==> is_user_column(
                    #[trigger] out@[j],
                    req.columns@[j],
                    req.resolved@[j],
                    j,
                ),
        decreases req.columns@.len() - i,
    {
        let c: &ColumnSpec = &req.columns[i];
        match mirror_column_type(c.ty.as_str(), req.resolved[i]) {
            None => {
                return Err(
                    ControlPlaneError::Backend(
                        concat("inline: no iceberg type for ", debug_of(c.ty.as_str()).as_str()),
                    ),
                );
            },
            Some(iceberg_type) => {
                out.push(
                    ProjectedColumn {
                        order: i as i64,
                        name: c.name.clone(),
                        iceberg_type,
                        nullable: c.nullable,
                    },
                );
            },
        }
        i = i + 1;
    }
    if framed {
        let base: i64 = req.columns.len() as i64;
        out.push(
            ProjectedColumn {
                order: base + 1,
                name: "loom_change_kind".to_owned(),
                iceberg_type: "string".to_owned(),
                nullable: false,
            },
        );
        out.push(
            ProjectedColumn {
                order: base + 2,
                name: "loom_bucket".to_owned(),
                iceberg_type: "int".to_owned(),
                nullable: true,
            },
        );
        out.push(
            ProjectedColumn {
                order: base + 3,
                name: "loom_offset".to_owned(),
                iceberg_type: "long".to_owned(),
                nullable: true,
            },
        );
    }
    Ok(out)
}

/// Why the columns of an append are refused, where they are: they must be the live
/// ones, as far as there are any.
pub open spec fn append_refusal(live: Seq<ProjectedColumn>, columns: Seq<ProjectedColumn>) -> Option<Fault> {
    if live.len() == 0 {
        None
    } else {
        match schema_refusal(live, columns) {
            Some(c) => Some(Fault::Validation(change_message(c))),
            None => if columns.len() > live.len() {
                Some(
                    Fault::Validation(
                        "schema evolution unsupported: additive evolution on the inline path is deferred"@,
                    ),
                )
            } else {
                None
            },
        }
    }
}

/// Whether the columns are to be written: all of them where the table has none.
pub fn check_append_columns(live: &Vec<ProjectedColumn>, columns: &Vec<ProjectedColumn>) -> (r: Result<
    bool,
    ControlPlaneError,
>)
    requires
        live@.len() <= i64::MAX,
    ensures
        match r {
            Ok(write) => append_refusal(live@, columns@) is None && write == (live@.len() == 0),
            Err(e) => append_refusal(live@, columns@) == Some(e@),
        },
{
    if live.len() == 0 {
        return Ok(true);
    }
    match classify_schema_change(live, columns) {
        Err(e) => Err(ControlPlaneError::Validation(e.message())),
        Ok(SchemaPlan::Identical) => Ok(false),
        Ok(SchemaPlan::Additive { new_columns: _ }) => Err(
            ControlPlaneError::Validation(
                "schema evolution unsupported: additive evolution on the inline path is deferred".to_owned(),
            ),
        ),
    }
}

/// The place of the column of this name.
pub open spec fn place_of(columns: Seq<ColumnSpec>, name: Seq<char>, from: int) -> Option<int>
    decreases columns.len() - from,
{
    if from < 0 || from >= columns.len() {
        None
    } else if columns[from].name@ == name {
        Some(from)
    } else {
        place_of(columns, name, from + 1)
    }
}

/// The place of the column of this name.
pub fn column_place(columns: &Vec<ColumnSpec>, name: &str) -> (r: Option<usize>)
    ensures
        match r {
            Some(i) => place_of(columns@, name@, 0) == Some(i as int) && i < columns@.len()
                && columns@[i as int].name@ == name@,
            None => place_of(columns@, name@, 0) is None,
        },
{
    let mut i: usize = 0;
    while i < columns.len()
        invariant
            i <= columns@.len(),
            place_of(columns@, name@, 0) == place_of(columns@, name@, i as int),
        decreases columns@.len() - i,
    {
        if str_same(columns[i].name.as_str(), name) {
            return Some(i);
        }
        i = i + 1;
    }
    None
}

/// The bucket of row `r` by its identity in column `idx`, or why it has none.
pub open spec fn keyed_bucket(req: AppendRequest, idx: int, bucket_count: int, r: int) -> Result<int, Fault> {
    match cell_of(req.batch@[idx], idx, r, req.columns@[idx].ty@) {
        Err(e) => Err(e),
        Ok(c) => if bucket_count < 1 {
            Err(Fault::Validation("cdc bucket_count must be >= 1, got "@ + int_text(bucket_count)))
        } else {
            Ok(bucket_of(c, bucket_count))
        },
    }
}

/// Why the first row from `r` on that has no bucket has none.
pub open spec fn first_unplaced(req: AppendRequest, idx: int, bucket_count: int, r: int) -> Option<Fault>
    decreases req.rows - r,
{
    if r < 0 || r >= req.rows {
        None
    } else {
        match keyed_bucket(req, idx, bucket_count, r) {
            Err(e) => Some(e),
            Ok(_) => first_unplaced(req, idx, bucket_count, r + 1),
        }
    }
}

/// The buckets of the rows: by identity in a stream of changes, in turn in any
/// other.
pub open spec fn bucket_plan(req: AppendRequest, bucket_count: i32, key: Option<Seq<char>>) -> Result<
    Seq<usize>,
    Fault,
> {
    if bucket_count < 0 {
        Err(
            Fault::Backend(
                "invalid stream bucket count "@ + int_text(bucket_count as int)
                    + ": out of range integral type conversion attempted"@,
            ),
        )
    } else {
        match key {
            None => Ok(in_turn(req.rows as nat, bucket_count as int)),
            Some(k) => if req.rows == 0 {
                Ok(Seq::empty())
            } else {
                match place_of(req.columns@, k, 0) {
                    None => Err(
                        Fault::Backend("cdc bucket_key `"@ + k + "` not in appended columns"@),
                    ),
                    Some(idx) => match first_unplaced(req, idx, bucket_count as int, 0) {
                        Some(e) => Err(e),
                        None => Ok(
                            Seq::new(
                                req.rows as nat,
                                |r: int|
                                    keyed_bucket(req, idx, bucket_count as int, r)->Ok_0 as usize,
                            ),
                        ),
                    },
                }
            },
        }
    }
}

/// The view of an optional text.
pub open spec fn opt_text(t: Option<String>) -> Option<Seq<char>> {
    match t {
        Some(s) => Some(s@),
        None => None,
    }
}

/// The buckets of the rows.
pub fn row_buckets(req: &AppendRequest, bucket_count: i32, key: &Option<String>) -> (r: Result<
    Vec<usize>,
    ControlPlaneError,
>)
    requires
        req.wf(),
        bucket_count != 0 || key is Some,
    ensures
        match r {
            Ok(b) => bucket_plan(*req, bucket_count, opt_text(*key)) == Ok::<Seq<usize>, Fault>(b@)
                && in_buckets(b@, bucket_count as int) && b@.len() == req.rows && bucket_count >= 0,
            Err(e) => bucket_plan(*req, bucket_count, opt_text(*key)) == Err::<Seq<usize>, Fault>(e@),
        },
{
    if bucket_count < 0 {
        return Err(
            ControlPlaneError::Backend(
                concat3(
                    "invalid stream bucket count ",
                    i64_text(bucket_count as i64).as_str(),
                    ": out of range integral type conversion attempted",
                ),
            ),
        );
    }
    match key {
        None => Ok(round_robin(req.rows, bucket_count as usize)),
        Some(k) => {
            let mut out: Vec<usize> = Vec::new();
            if req.rows == 0 {
                assert(out@ =~= Seq::empty());
                return Ok(out);
            }
            let idx: usize = match column_place(&req.columns, k.as_str()) {
                Some(i) => i,
                None => {
                    return Err(
                        ControlPlaneError::Backend(
                            concat3("cdc bucket_key `", k.as_str(), "` not in appended columns"),
                        ),
                    );
                },
            };
            let mut row: usize = 0;
            while row < req.rows
                invariant
                    req.wf(),
                    idx < req.columns@.len(),
                    bucket_count >= 0,
                    req.rows > 0,
                    *key == Some(*k),
                    place_of(req.columns@, k@, 0) == Some(idx as int),
                    row <= req.rows,
                    out@.len() == row,
                    first_unplaced(*req, idx as int, bucket_count as int, 0) == first_unplaced(
                        *req,
                        idx as int,
                        bucket_count as int,
                        row as int,
                    ),
                    forall|j: int|
                        0 <= j < row ==> #[trigger] out@[j] == (keyed_bucket(
                            *req,
                            idx as int,
                            bucket_count as int,
                            j,
                        )->Ok_0) as usize,
                    in_buckets(out@, bucket_count as int),
                decreases req.rows - row,
            {
                assert(dates_fit(req.batch@[idx as int], req.rows as int));
                let cell: Cell = match cell_from_arrow(
                    &req.batch[idx],
                    idx,
                    row,
                    req.columns[idx].ty.as_str(),
                ) {
                    Ok(c) => c,
                    Err(e) => {
                        return Err(e);
                    },
                };
                let b: i32 = match cdc_bucket(&cell, bucket_count) {
                    Ok(b) => b,
                    Err(e) => {
                        return Err(e);
                    },
                };
                proof {
                    law_bucket_in_range(cell@, bucket_count as int);
                }
                out.push(b as usize);
                row = row + 1;
            }
            assert(out@ =~= Seq::new(
                req.rows as nat,
                |r: int|
                    keyed_bucket(*req, idx as int, bucket_count as int, r)->Ok_0 as usize,
            ));
            Ok(out)
        },
    }
}

/// The first value from row `r` and column `c` on, row by row, that a row cannot
/// take, and why.
pub open spec fn first_bad_cell(
    batch: Seq<ColumnValues>,
    columns: Seq<ColumnSpec>,
    rows: int,
    r: int,
    c: int,
) -> Option<Fault>
    decreases rows - r, columns.len() - c,
{
    if r < 0 || c < 0 || r >= rows {
        None
    } else if c >= columns.len() {
        first_bad_cell(batch, columns, rows, r + 1, 0)
    } else {
        match cell_of(batch[c], c, r, columns[c].ty@) {
            Err(e) => Some(e),
            Ok(_) => first_bad_cell(batch, columns, rows, r, c + 1),
        }
    }
}

/// The values of row `r`, in the order of the columns.
pub open spec fn are_cells(cells: Seq<Cell>, batch: Seq<ColumnValues>, columns: Seq<ColumnSpec>, r: int) -> bool {
    &&& cells.len() == columns.len()
    &&& forall|c: int|
        0 <= c < columns.len() ==> cell_of(batch[c], c, r, columns[c].ty@) == Ok::<CellModel, Fault>(
            (#[trigger] cells[c])@,
        )
}

/// The values of the rows, in the order of the columns.
pub fn row_cells(batch: &Vec<ColumnValues>, columns: &Vec<ColumnSpec>, rows: usize) -> (r: Result<
    Vec<Vec<Cell>>,
    ControlPlaneError,
>)
    requires
        batch_fits(batch@, columns@, rows as int),
    ensures
        match r {
            Ok(list) => first_bad_cell(batch@, columns@, rows as int, 0, 0) is None && list@.len()
                == rows && forall|i: int|
                0 <= i < rows ==> are_cells((#[trigger] list@[i])@, batch@, columns@, i),
            Err(e) => first_bad_cell(batch@, columns@, rows as int, 0, 0) == Some(e@),
        },
{
    let mut out: Vec<Vec<Cell>> = Vec::new();
    let mut i: usize = 0;
    while i < rows
        invariant
            batch_fits(batch@, columns@, rows as int),
            i <= rows,
            out@.len() == i,
            first_bad_cell(batch@, columns@, rows as int, 0, 0) == first_bad_cell(
                batch@,
                columns@,
                rows as int,
                i as int,
                0,
            ),
            forall|j: int| 0 <= j < i ==> are_cells((#[trigger] out@[j])@, batch@, columns@, j),
        decreases rows - i,
    {
        let mut cells: Vec<Cell> = Vec::new();
        let mut c: usize = 0;
        while c < columns.len()
            invariant
                batch_fits(batch@, columns@, rows as int),
                i < rows,
                c <= columns@.len(),
                cells@.len() == c,
                first_bad_cell(batch@, columns@, rows as int, 0, 0) == first_bad_cell(
                    batch@,
                    columns@,
                    rows as int,
                    i as int,
                    c as int,
                ),
                forall|k: int|
                    0 <= k < c ==> cell_of(batch@[k], k, i as int, columns@[k].ty@) == Ok::<
                        CellModel,
                        Fault,
                    >((#[trigger] cells@[k])@),
            decreases columns@.len() - c,
        {
            assert(dates_fit(batch@[c as int], rows as int));
            match cell_from_arrow(&batch[c], c, i, columns[c].ty.as_str()) {
                Ok(cell) => cells.push(cell),
                Err(e) => {
                    return Err(e);
                },
            }
            c = c + 1;
        }
        out.push(cells);
        i = i + 1;
    }
    Ok(out)
}

/// Whether a flush is due: the bytes are as many as the threshold, none is queued,
/// and the table has no inline changes that a flush would tear apart. A stream of
/// changes is flushed with them.
pub open spec fn flush_due(st: TriggerState, is_cdc: bool, shadowed: bool) -> bool {
    st.live_bytes >= st.effective && !st.enqueued && (is_cdc || !shadowed)
}

/// The job that a commit queues for the table: a flush, where one is due.
pub open spec fn is_flush_choice(
    job: Option<NewJob>,
    table: TableRef,
    trigger: Option<TriggerState>,
    is_cdc: bool,
    shadowed: bool,
) -> bool {
    match job {
        Some(j) => trigger is Some && flush_due(trigger->0, is_cdc, shadowed) && is_table_job(
            j,
            FLUSH_JOB_KIND@,
            table,
        ),
        None => !(trigger is Some && flush_due(trigger->0, is_cdc, shadowed)),
    }
}

/// The job that a commit queues for the table.
pub fn flush_job(table: &TableRef, trigger: Option<TriggerState>, is_cdc: bool, shadowed: bool) -> (r: Option<
    NewJob,
>)
    ensures
        is_flush_choice(r, *table, trigger, is_cdc, shadowed),
{
    match trigger {
        Some(st) => {
            if st.live_bytes >= st.effective && !st.enqueued && (is_cdc || !shadowed) {
                Some(table_job(FLUSH_JOB_KIND, table))
            } else {
                None
            }
        },
        None => None,
    }
}

/// The key by which a stream of changes places its rows.
pub open spec fn identity_key(kind: Option<StreamKind>, bucket_key: Option<String>) -> Option<Seq<char>> {
    if kind == Some(StreamKind::Cdc) {
        opt_text(bucket_key)
    } else {
        None
    }
}

/// The error that `e` stands for.
pub open spec fn fails(action: AppendAction, e: Fault) -> bool {
    action matches AppendAction::Fail { error } && error@ == e
}

/// The insertion of the rows, each in its place.
pub open spec fn inserts(
    req: AppendRequest,
    action: AppendAction,
    tid: i64,
    frames: Option<Seq<(i32, i64)>>,
    wakes: bool,
) -> bool {
    match first_bad_cell(req.batch@, req.columns@, req.rows as int, 0, 0) {
        Some(e) => fails(action, e),
        None => action matches AppendAction::Insert { sql, frames: placed, rows, notify, marks } && sql@
            == append_text(tid as int, req.columns@, frames is Some) && notify == wakes && marks@
            == marks_of(req.mv)
            && rows@.len() == req.rows && (forall|i: int|
            0 <= i < req.rows ==> are_cells((#[trigger] rows@[i])@, req.batch@, req.columns@, i))
            && match (placed, frames) {
            (Some(p), Some(f)) => p@ == f,
            (None, None) => true,
            _ => false,
        },
    }
}

/// What the append does next, and where it then stands.
pub open spec fn append_step(
    req: AppendRequest,
    state: AppendState,
    event: AppendEvent,
    next: AppendState,
    action: AppendAction,
) -> bool {
    match event {
        AppendEvent::Failed { error } => fails(action, error@) && next is Done,
        AppendEvent::Begin => if state is Start {
            action is Open && next is Opening
        } else {
            out_of_turn(action) && next is Done
        },
        AppendEvent::Opened { tid, created, existing, live } => if state is Opening {
            opens(req, tid, created, existing, live@, next, action)
        } else {
            out_of_turn(action) && next is Done
        },
        AppendEvent::Prepared { effective, kind, bucket_key } => match state {
            AppendState::Preparing { tid } => places(req, tid, effective, kind, bucket_key, next, action),
            _ => out_of_turn(action) && next is Done,
        },
        AppendEvent::Reserved { firsts } => match state {
            AppendState::Reserving { tid, bucket_count, buckets, runs, notify } => {
                &&& inserts(
                    req,
                    action,
                    tid,
                    Some(
                        frames_of(buckets@, starts_of(bucket_count as nat, runs@, firsts@)),
                    ),
                    notify,
                )
                &&& if action is Fail {
                    next is Done
                } else {
                    next is Inserting
                }
            },
            _ => out_of_turn(action) && next is Done,
        },
        AppendEvent::Inserted { trigger, is_cdc, shadowed } => if state is Inserting {
            &&& action matches AppendAction::Finish { steps }
            &&& closes(steps@, append_close(req.run, req.jobs as nat))
            &&& is_flush_choice(
                queued_job(steps@),
                req.table,
                if req.accrues {
                    trigger
                } else {
                    None
                },
                is_cdc,
                shadowed,
            )
            &&& next is Done
        } else {
            out_of_turn(action) && next is Done
        },
    }
}

/// The refusal of an event that does not belong here.
pub open spec fn out_of_turn(action: AppendAction) -> bool {
    fails(action, Fault::Backend("inline append: event out of turn"@))
}

/// What follows once the table's row is there.
pub open spec fn opens(
    req: AppendRequest,
    tid: i64,
    created: bool,
    existing: Option<i32>,
    live: Seq<ProjectedColumn>,
    next: AppendState,
    action: AppendAction,
) -> bool {
    let framed = frames_columns(existing, req.declares, created);
    match first_unmirrored(req.columns@, req.resolved@, 0) {
        Some(i) => fails(
            action,
            Fault::Backend("inline: no iceberg type for "@ + debug_text(req.columns@[i].ty@)),
        ) && next is Done,
        None => exists|p: Seq<ProjectedColumn>| #[trigger]
            are_append_columns(req, framed, p) && match append_refusal(live, p) {
                Some(e) => fails(action, e) && next is Done,
                None => match schema_ddl(tid as int, req.columns@) {
                    Err(e) => fails(action, e) && next is Done,
                    Ok(ddl) => action matches AppendAction::Prepare { project, ddl: statements }
                        && project@ == (if live.len() == 0 {
                        p
                    } else {
                        Seq::empty()
                    }) && texts(statements@) == ddl && next == (AppendState::Preparing { tid }),
                },
            },
    }
}

/// What follows once the table's mode is settled.
pub open spec fn places(
    req: AppendRequest,
    tid: i64,
    effective: Option<i32>,
    kind: Option<StreamKind>,
    bucket_key: Option<String>,
    next: AppendState,
    action: AppendAction,
) -> bool {
    match effective {
        None => {
            &&& inserts(req, action, tid, None, false)
            &&& if action is Fail {
                next is Done
            } else {
                next is Inserting
            }
        },
        Some(bc) => match bucket_plan(req, bc, identity_key(kind, bucket_key)) {
            Err(e) => fails(action, e) && next is Done,
            Ok(plan) => {
                &&& action matches AppendAction::Reserve { runs }
                &&& runs@ == runs_of(Seq::new(bc as nat, |b: int| count_of(plan, b) as i64))
                &&& next matches AppendState::Reserving {
                    tid: t,
                    bucket_count,
                    buckets,
                    runs: kept,
                    notify,
                }
                &&& t == tid
                &&& bucket_count == bc
                &&& buckets@ == plan
                &&& kept@ == runs@
                &&& notify == (kind is Some)
            },
        },
    }
}

/// What the caller hands back belongs to what was asked: the buckets of a stream are
/// not none, and the reserved runs are those asked for and fit.
pub open spec fn event_fits(state: AppendState, event: AppendEvent) -> bool {
    match event {
        AppendEvent::Opened { live, .. } => live@.len() <= i64::MAX,
        AppendEvent::Prepared { effective, .. } => effective != Some(0i32),
        AppendEvent::Reserved { firsts } => match state {
            AppendState::Reserving { tid, bucket_count, buckets, runs, notify } => {
                &&& firsts@.len() == runs@.len()
                &&& forall|i: int|
                    0 <= i < runs@.len() ==> #[trigger] firsts@[i] + runs@[i].1 <= i64::MAX
            },
            _ => true,
        },
        _ => true,
    }
}

/// What a state promises of itself.
pub open spec fn state_fits(req: AppendRequest, state: AppendState) -> bool {
    match state {
        AppendState::Reserving { tid, bucket_count, buckets, runs, notify } => {
            &&& bucket_count <= i32::MAX
            &&& in_buckets(buckets@, bucket_count as int)
            &&& buckets@.len() == req.rows
            &&& runs@ == runs_of(Seq::new(bucket_count as nat, |b: int| count_of(buckets@, b) as i64))
        },
        _ => true,
    }
}

fn early(message: &str) -> (r: AppendAction)
    ensures
        fails(r, Fault::Backend(message@)),
{
    AppendAction::Fail { error: ControlPlaneError::Backend(message.to_owned()) }
}

fn insert_action(
    req: &AppendRequest,
    tid: i64,
    frames: Option<Vec<(i32, i64)>>,
    notify: bool,
) -> (r: AppendAction)
    requires
        req.wf(),
    ensures
        inserts(
            *req,
            r,
            tid,
            match frames {
                Some(f) => Some(f@),
                None => None,
            },
            notify,
        ),
        r is Fail || r is Insert,
{
    let marks: Vec<SettleStep> = match &req.mv {
        Some(mv) => mv_steps(mv, None),
        None => Vec::new(),
    };
    match row_cells(&req.batch, &req.columns, req.rows) {
        Err(e) => AppendAction::Fail { error: e },
        Ok(rows) => AppendAction::Insert {
            sql: append_sql(tid, &req.columns, frames.is_some()),
            frames,
            rows,
            notify,
            marks,
        },
    }
}

/// The runs fit where the reserved ones do.
pub(crate) proof fn lemma_runs_fit(buckets: Seq<usize>, bucket_count: nat, runs: Seq<(i32, i64)>, firsts: Seq<i64>)
    requires
        bucket_count <= i32::MAX,
        buckets.len() <= i64::MAX,
        runs == runs_of(Seq::new(bucket_count, |b: int| count_of(buckets, b) as i64)),
        firsts.len() == runs.len(),
        forall|i: int| 0 <= i < runs.len() ==> #[trigger] firsts[i] + runs[i].1 <= i64::MAX,
    ensures
        runs_fit(buckets, starts_of(bucket_count, runs, firsts)),
        starts_of(bucket_count, runs, firsts).len() == bucket_count,
{
    let counts = Seq::new(bucket_count, |b: int| count_of(buckets, b) as i64);
    lemma_runs(counts);
    let starts = starts_of(bucket_count, runs, firsts);
    lemma_starts(bucket_count, runs, firsts);
    assert forall|b: int| 0 <= b < starts.len() implies #[trigger] starts[b] + count_of(buckets, b)
        <= i64::MAX by {
        lemma_count_within(buckets, b);
        assert(counts[b] == count_of(buckets, b));
        if counts[b] > 0 {
            let i = choose|i: int| 0 <= i < runs.len() && (#[trigger] runs[i]).0 == b;
            assert(starts[runs[i].0 as int] == firsts[i]);
            assert(firsts[i] + runs[i].1 <= i64::MAX);
        } else {
            assert forall|i: int| 0 <= i < runs.len() implies (#[trigger] runs[i]).0 != b by {}
            lemma_start_unset(bucket_count, runs, firsts, b);
        }
    }
}

pub(crate) proof fn lemma_count_within(buckets: Seq<usize>, b: int)
    ensures
        count_of(buckets, b) <= buckets.len(),
    decreases buckets.len(),
{
    if buckets.len() > 0 {
        lemma_count_within(buckets.drop_last(), b);
    }
}

proof fn lemma_starts(bucket_count: nat, runs: Seq<(i32, i64)>, firsts: Seq<i64>)
    requires
        firsts.len() >= runs.len(),
        forall|i: int| 0 <= i < runs.len() ==> 0 <= (#[trigger] runs[i]).0 < bucket_count,
        forall|i: int, j: int| 0 <= i < j < runs.len() ==> (#[trigger] runs[i]).0 < (#[trigger] runs[j]).0,
    ensures
        starts_of(bucket_count, runs, firsts).len() == bucket_count,
        forall|i: int|
            0 <= i < runs.len() ==> starts_of(bucket_count, runs, firsts)[(#[trigger] runs[i]).0 as int]
                == firsts[i],
    decreases runs.len(),
{
    if runs.len() > 0 {
        let head = runs.drop_last();
        lemma_starts(bucket_count, head, firsts);
        assert forall|i: int| 0 <= i < runs.len() implies starts_of(
            bucket_count,
            runs,
            firsts,
        )[(#[trigger] runs[i]).0 as int] == firsts[i] by {
            if i < head.len() {
                assert(head[i] == runs[i]);
                assert(runs[i].0 < runs[runs.len() - 1].0);
            }
        }
    }
}

proof fn lemma_start_unset(bucket_count: nat, runs: Seq<(i32, i64)>, firsts: Seq<i64>, b: int)
    requires
        0 <= b < bucket_count,
        forall|i: int| 0 <= i < runs.len() ==> (#[trigger] runs[i]).0 != b,
        forall|i: int| 0 <= i < runs.len() ==> 0 <= (#[trigger] runs[i]).0 < bucket_count,
    ensures
        starts_of(bucket_count, runs, firsts).len() == bucket_count,
        starts_of(bucket_count, runs, firsts)[b] == 0,
    decreases runs.len(),
{
    if runs.len() > 0 {
        let head = runs.drop_last();
        assert forall|i: int| 0 <= i < head.len() implies (#[trigger] head[i]).0 != b && 0
            <= head[i].0 < bucket_count by {
            assert(head[i] == runs[i]);
        }
        lemma_start_unset(bucket_count, head, firsts, b);
        assert(runs[runs.len() - 1].0 != b);
    }
}

/// What the append does next, given what came of the last action.
pub fn inline_append_decl(req: &AppendRequest, state: AppendState, event: AppendEvent) -> (r: (
    AppendState,
    AppendAction,
))
    requires
        req.wf(),
        state_fits(*req, state),
        event_fits(state, event),
    ensures
        append_step(*req, state, event, r.0, r.1),
        state_fits(*req, r.0),
{
    match event {
        AppendEvent::Failed { error } => (AppendState::Done, AppendAction::Fail { error }),
        AppendEvent::Begin => match state {
            AppendState::Start => (AppendState::Opening, AppendAction::Open),
            _ => (AppendState::Done, early("inline append: event out of turn")),
        },
        AppendEvent::Opened { tid, created, existing, live } => match state {
            AppendState::Opening => {
                let framed: bool = existing.is_some() || (req.declares && created);
                let columns: Vec<ProjectedColumn> = match append_columns(req, framed) {
                    Ok(p) => p,
                    Err(error) => {
                        return (AppendState::Done, AppendAction::Fail { error });
                    },
                };
                assert(framed == frames_columns(existing, req.declares, created));
                assert(are_append_columns(
                    *req,
                    frames_columns(existing, req.declares, created),
                    columns@,
                ));
                let write: bool = match check_append_columns(&live, &columns) {
                    Ok(w) => w,
                    Err(error) => {
                        return (AppendState::Done, AppendAction::Fail { error });
                    },
                };
                let ddl: Vec<String> = match ensure_inline_schema(tid, &req.columns) {
                    Ok(d) => d,
                    Err(error) => {
                        return (AppendState::Done, AppendAction::Fail { error });
                    },
                };
                let project: Vec<ProjectedColumn> = if write {
                    columns
                } else {
                    Vec::new()
                };
                assert(!write ==> project@ =~= Seq::empty());
                (AppendState::Preparing { tid }, AppendAction::Prepare { project, ddl })
            },
            _ => (AppendState::Done, early("inline append: event out of turn")),
        },
        AppendEvent::Prepared { effective, kind, bucket_key } => match state {
            AppendState::Preparing { tid } => match effective {
                None => {
                    let action: AppendAction = insert_action(req, tid, None, false);
                    match action {
                        AppendAction::Fail { error } => (
                            AppendState::Done,
                            AppendAction::Fail { error },
                        ),
                        _ => (AppendState::Inserting, action),
                    }
                },
                Some(bc) => {
                    let key: Option<String> = match kind {
                        Some(StreamKind::Cdc) => bucket_key,
                        _ => None,
                    };
                    let buckets: Vec<usize> = match row_buckets(req, bc, &key) {
                        Ok(b) => b,
                        Err(error) => {
                            return (AppendState::Done, AppendAction::Fail { error });
                        },
                    };
                    let bucket_count: usize = bc as usize;
                    let counts: Vec<i64> = bucket_counts(&buckets, bucket_count);
                    assert(counts@ =~= Seq::new(bc as nat, |b: int| count_of(buckets@, b) as i64)) by {
                        assert forall|b: int| 0 <= b < bc implies counts@[b] == count_of(buckets@, b) as i64 by {}
                    }
                    let runs: Vec<(i32, i64)> = reserve_runs(&counts);
                    let kept: Vec<(i32, i64)> = reserve_runs(&counts);
                    (
                        AppendState::Reserving {
                            tid,
                            bucket_count,
                            buckets,
                            runs: kept,
                            notify: kind.is_some(),
                        },
                        AppendAction::Reserve { runs },
                    )
                },
            },
            _ => (AppendState::Done, early("inline append: event out of turn")),
        },
        AppendEvent::Reserved { firsts } => match state {
            AppendState::Reserving { tid, bucket_count, buckets, runs, notify } => {
                proof {
                    let counts = Seq::new(
                        bucket_count as nat,
                        |b: int| count_of(buckets@, b) as i64,
                    );
                    lemma_runs(counts);
                    lemma_runs_fit(buckets@, bucket_count as nat, runs@, firsts@);
                }
                let starts: Vec<i64> = run_starts(bucket_count, &runs, &firsts);
                let frames: Vec<(i32, i64)> = frame_rows(&buckets, &starts);
                let action: AppendAction = insert_action(req, tid, Some(frames), notify);
                match action {
                    AppendAction::Fail { error } => (AppendState::Done, AppendAction::Fail { error }),
                    _ => (AppendState::Inserting, action),
                }
            },
            _ => (AppendState::Done, early("inline append: event out of turn")),
        },
        AppendEvent::Inserted { trigger, is_cdc, shadowed } => match state {
            AppendState::Inserting => {
                let counted: Option<TriggerState> = if req.accrues {
                    trigger
                } else {
                    None
                };
                let job: Option<NewJob> = flush_job(&req.table, counted, is_cdc, shadowed);
                (AppendState::Done, AppendAction::Finish { steps: append_steps(job, req.run, req.jobs) })
            },
            _ => (AppendState::Done, early("inline append: event out of turn")),
        },
    }
}

/// An append commits only after its rows are in: nothing but the insertion leads to
/// the commit.
pub proof fn law_commit_follows_rows(
    req: AppendRequest,
    state: AppendState,
    event: AppendEvent,
    next: AppendState,
    action: AppendAction,
)
    requires
        append_step(req, state, event, next, action),
        action is Finish,
    ensures
        state is Inserting,
        event is Inserted,
        next is Done,
{
}

/// The marks of a view move in the transaction that inserts its output, behind the
/// rows and before the commit.
pub proof fn law_view_marks_follow_rows(
    req: AppendRequest,
    state: AppendState,
    event: AppendEvent,
    next: AppendState,
    action: AppendAction,
)
    requires
        append_step(req, state, event, next, action),
        action is Insert,
    ensures
        action->marks@ == marks_of(req.mv),
        next is Inserting,
{
}

/// An append that is over asks for nothing more.
pub proof fn law_finished_append_stays_finished(
    req: AppendRequest,
    event: AppendEvent,
    next: AppendState,
    action: AppendAction,
)
    requires
        append_step(req, AppendState::Done, event, next, action),
    ensures
        action is Fail,
        next is Done,
{
}

/// A table that is no stream gets rows without places, and wakes nobody.
pub proof fn law_batch_rows_have_no_place(
    req: AppendRequest,
    tid: i64,
    kind: Option<StreamKind>,
    bucket_key: Option<String>,
    next: AppendState,
    action: AppendAction,
)
    requires
        append_step(
            req,
            AppendState::Preparing { tid },
            AppendEvent::Prepared { effective: None, kind, bucket_key },
            next,
            action,
        ),
        action is Insert,
    ensures
        action matches AppendAction::Insert { frames, notify, .. } && frames is None && !notify,
{
}

/// A table with inline changes that is no stream of changes is never flushed by its
/// bytes.
pub proof fn law_shadowed_table_is_not_flushed(st: TriggerState)
    ensures
        !flush_due(st, false, true),
{
}

} // verus!
