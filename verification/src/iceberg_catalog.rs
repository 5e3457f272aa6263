//! Reading tables through the mirror: what its rows say of columns, files and
//! snapshots, and when a view may be defined.
use crate::error::{outcome, ControlPlaneError, Fault};
use crate::iceberg_stats::{stat_from_text, stat_of, StatModel, StatValue};
use crate::iceberg_type::{from_iceberg, logical_from_iceberg, BaseType};
use crate::key::str_same;
use crate::text::{begins_with, concat, concat3, concat5, contains_text, holds, i64_text, int_text, starts_with};
use crate::types::{ColumnDef, ColumnStat, Snapshot, TableRef, ViewDef};
use crate::vecs::filtered;
use crate::words::{debug_of, debug_text};
use vstd::prelude::*;

verus! {

/// Columns that are kept for the mirror's own use and never shown.
pub open spec fn reserved(name: Seq<char>) -> bool {
    starts_with(name, "loom_"@) || name == "begin_snapshot"@ || name == "end_snapshot"@
}

/// Whether a column is kept for the mirror's own use.
pub fn is_reserved(name: &str) -> (r: bool)
    ensures
        r == reserved(name@),
{
    begins_with(name, "loom_") || str_same(name, "begin_snapshot") || str_same(name, "end_snapshot")
}

/// A live file with what is known of its columns.
#[derive(Debug)]
pub struct FileWithStats {
    pub path: String,
    pub record_count: i64,
    pub file_size_bytes: i64,
    pub column_stats: Vec<ColumnStat>,
}

/// A row of the question for files: a file, and one of its columns where something is
/// known of one. Whether a bound stands for a floating-point number is said with it.
#[derive(Debug)]
pub struct StatRow {
    pub data_file_id: i64,
    pub path: String,
    pub record_count: i64,
    pub file_size_bytes: i64,
    pub column_name: Option<String>,
    pub null_count: Option<i64>,
    pub column_size_bytes: Option<i64>,
    pub min_value: Option<String>,
    pub min_is_real: bool,
    pub max_value: Option<String>,
    pub max_is_real: bool,
    pub column_type: Option<String>,
}

/// What is known of a column, mathematically.
pub struct StatEntry {
    pub column_name: Seq<char>,
    pub null_count: i64,
    pub column_size_bytes: i64,
    pub min: Option<StatModel>,
    pub max: Option<StatModel>,
}

/// A file with what is known of its columns, mathematically.
pub struct FileEntry {
    pub path: Seq<char>,
    pub record_count: i64,
    pub file_size_bytes: i64,
    pub stats: Seq<StatEntry>,
}

/// A bound read back by the type of its column; none without a text or a type.
pub open spec fn retyped(text: Option<String>, ty: Option<String>, is_real: bool) -> Option<StatModel> {
    match (text, ty) {
        (Some(t), Some(ty)) => stat_of(t@, ty@, is_real),
        _ => None,
    }
}

/// What a row says of a column, where it says anything.
pub open spec fn row_stat(r: StatRow) -> Seq<StatEntry> {
    match (r.column_name, r.null_count, r.column_size_bytes) {
        (Some(name), Some(null_count), Some(column_size_bytes)) => seq![
            StatEntry {
                column_name: name@,
                null_count,
                column_size_bytes,
                min: retyped(r.min_value, r.column_type, r.min_is_real),
                max: retyped(r.max_value, r.column_type, r.max_is_real),
            },
        ],
        _ => Seq::empty(),
    }
}

/// The files of the rows: rows of one file that follow each other are one file.
pub open spec fn grouped(rows: Seq<StatRow>) -> Seq<FileEntry>
    decreases rows.len(),
{
    if rows.len() == 0 {
        Seq::empty()
    } else {
        let before = grouped(rows.drop_last());
        let r = rows.last();
        if rows.len() >= 2 && rows[rows.len() - 2].data_file_id == r.data_file_id {
            before.drop_last().push(
                FileEntry { stats: before.last().stats + row_stat(r), ..before.last() },
            )
        } else {
            before.push(
                FileEntry {
                    path: r.path@,
                    record_count: r.record_count,
                    file_size_bytes: r.file_size_bytes,
                    stats: row_stat(r),
                },
            )
        }
    }
}

/// A value of a bound, mathematically.
pub open spec fn bound_model(v: Option<StatValue>) -> Option<StatModel> {
    match v {
        Some(s) => Some(s@),
        None => None,
    }
}

/// A column's figures are those of an entry.
pub open spec fn is_stat(s: ColumnStat, e: StatEntry) -> bool {
    &&& s.column_name@ == e.column_name
    &&& s.null_count == e.null_count
    &&& s.column_size_bytes == e.column_size_bytes
    &&& bound_model(s.min) == e.min
    &&& bound_model(s.max) == e.max
}

/// A file is that of an entry.
pub open spec fn is_file(f: FileWithStats, e: FileEntry) -> bool {
    &&& f.path@ == e.path
    &&& f.record_count == e.record_count
    &&& f.file_size_bytes == e.file_size_bytes
    &&& f.column_stats@.len() == e.stats.len()
    &&& forall|j: int| 0 <= j < e.stats.len() ==> is_stat(#[trigger] f.column_stats@[j], e.stats[j])
}

/// Files are those of entries.
pub open spec fn are_files(files: Seq<FileWithStats>, entries: Seq<FileEntry>) -> bool {
    files.len() == entries.len() && forall|i: int|
        0 <= i < entries.len() ==> is_file(#[trigger] files[i], entries[i])
}

fn retype(text: &Option<String>, ty: &Option<String>, is_real: bool) -> (r: Option<StatValue>)
    ensures
        bound_model(r) == retyped(*text, *ty, is_real),
{
    match text {
        None => None,
        Some(t) => match ty {
            None => None,
            Some(ty) => stat_from_text(t.as_str(), ty.as_str(), is_real),
        },
    }
}

/// What a row says of a column.
fn stat_of_row(r: &StatRow) -> (s: Option<ColumnStat>)
    ensures
        match s {
            Some(s) => row_stat(*r).len() == 1 && is_stat(s, row_stat(*r)[0]),
            None => row_stat(*r).len() == 0,
        },
{
    match (&r.column_name, r.null_count, r.column_size_bytes) {
        (Some(name), Some(null_count), Some(column_size_bytes)) => Some(
            ColumnStat {
                column_name: name.clone(),
                null_count,
                column_size_bytes,
                min: retype(&r.min_value, &r.column_type, r.min_is_real),
                max: retype(&r.max_value, &r.column_type, r.max_is_real),
            },
        ),
        _ => None,
    }
}

/// The files of the rows, with what is known of their columns. A file of which nothing
/// is known has no figures.
pub fn files_with_stats(rows: &Vec<StatRow>) -> (r: Vec<FileWithStats>)
    ensures
        are_files(r@, grouped(rows@)),
{
    let mut out: Vec<FileWithStats> = Vec::new();
    let mut i: usize = 0;
    assert(rows@.take(0) =~= Seq::empty());
    while i < rows.len()
        invariant
            i <= rows@.len(),
            are_files(out@, grouped(rows@.take(i as int))),
            i > 0 ==> out@.len() > 0,
        decreases rows@.len() - i,
    {
        let row: &StatRow = &rows[i];
        let ghost head = rows@.take(i as int);
        let ghost before = grouped(head);
        let ghost files = out@;
        assert(rows@.take(i + 1).drop_last() =~= head);
        assert(rows@.take(i + 1).last() == *row);
        let stat: Option<ColumnStat> = stat_of_row(row);
        if i > 0 && rows[i - 1].data_file_id == row.data_file_id {
            assert(rows@.take(i + 1)[i - 1] == rows@[i - 1]);
            let mut file: FileWithStats = match out.pop() {
                Some(f) => f,
                None => {
                    assert(false);
                    return out;
                },
            };
            let ghost stats = file.column_stats@;
            assert(file == files.last());
            assert(is_file(files[files.len() - 1], before[before.len() - 1]));
            let ghost entry = before.last();
            let ghost now = FileEntry { stats: entry.stats + row_stat(*row), ..entry };
            match stat {
                Some(s) => {
                    file.column_stats.push(s);
                },
                None => {},
            }
            proof {
                assert forall|j: int| 0 <= j < now.stats.len() implies is_stat(
                    #[trigger] file.column_stats@[j],
                    now.stats[j],
                ) by {
                    if j < stats.len() {
                        assert(file.column_stats@[j] == stats[j]);
                    }
                }
                assert(is_file(file, now));
            }
            out.push(file);
            proof {
                assert(grouped(rows@.take(i + 1)) =~= before.drop_last().push(now));
                assert forall|k: int| 0 <= k < out@.len() implies is_file(
                    #[trigger] out@[k],
                    before.drop_last().push(now)[k],
                ) by {
                    if k < files.len() - 1 {
                        assert(out@[k] == files[k]);
                    }
                }
            }
        } else {
            let mut column_stats: Vec<ColumnStat> = Vec::new();
            match stat {
                Some(s) => column_stats.push(s),
                None => {},
            }
            let file = FileWithStats {
                path: row.path.clone(),
                record_count: row.record_count,
                file_size_bytes: row.file_size_bytes,
                column_stats,
            };
            out.push(file);
            proof {
                if i > 0 {
                    assert(rows@.take(i + 1)[i - 1] == rows@[i - 1]);
                }
                let now = FileEntry {
                    path: row.path@,
                    record_count: row.record_count,
                    file_size_bytes: row.file_size_bytes,
                    stats: row_stat(*row),
                };
                assert(grouped(rows@.take(i + 1)) =~= before.push(now));
                assert forall|k: int| 0 <= k < out@.len() implies is_file(
                    #[trigger] out@[k],
                    before.push(now)[k],
                ) by {
                    if k < files.len() {
                        assert(out@[k] == files[k]);
                    }
                }
            }
        }
        i = i + 1;
    }
    assert(rows@.take(i as int) =~= rows@);
    out
}

/// A column as the mirror keeps it. `parametric` is what the logical vocabulary makes
/// of its type's name.
#[derive(Debug)]
pub struct ColumnRow {
    pub order: i64,
    pub name: String,
    pub column_type: String,
    pub nullable: bool,
    pub parametric: Option<BaseType>,
}

/// The column that a row stands for.
pub open spec fn is_column(c: ColumnDef, row: ColumnRow) -> bool {
    &&& c.order == row.order
    &&& c.name@ == row.name@
    &&& from_iceberg(row.column_type@, row.parametric) matches Some(t)
    &&& c.ty@ == t.name()
    &&& c.nullable == row.nullable
}

/// The first row from `from` on whose type has no logical one.
pub open spec fn first_untyped_row(rows: Seq<ColumnRow>, from: int) -> Option<int>
    decreases rows.len() - from,
{
    if from < 0 || from >= rows.len() {
        None
    } else if from_iceberg(rows[from].column_type@, rows[from].parametric) is None {
        Some(from)
    } else {
        first_untyped_row(rows, from + 1)
    }
}

/// The columns of a table, with those that are never shown.
pub fn physical_columns(rows: &Vec<ColumnRow>) -> (r: Result<Vec<ColumnDef>, ControlPlaneError>)
    ensures
        match r {
            Ok(columns) => first_untyped_row(rows@, 0) is None && columns@.len() == rows@.len()
                && forall|i: int|
                0 <= i < rows@.len() ==> is_column(#[trigger] columns@[i], rows@[i]),
            Err(e) => first_untyped_row(rows@, 0) matches Some(i) && e@ == Fault::Backend(
                "catalog column type "@ + debug_text(rows@[i].column_type@)
                    + " has no loom logical type"@,
            ),
        },
{
    let mut out: Vec<ColumnDef> = Vec::new();
    let mut i: usize = 0;
    while i < rows.len()
        invariant
            i <= rows@.len(),
            out@.len() == i,
            first_untyped_row(rows@, 0) == first_untyped_row(rows@, i as int),
            forall|j: int| 0 <= j < i ==> is_column(#[trigger] out@[j], rows@[j]),
        decreases rows@.len() - i,
    {
        let row: &ColumnRow = &rows[i];
        match logical_from_iceberg(row.column_type.as_str(), row.parametric) {
            None => {
                return Err(
                    ControlPlaneError::Backend(
                        concat3(
                            "catalog column type ",
                            debug_of(row.column_type.as_str()).as_str(),
                            " has no loom logical type",
                        ),
                    ),
                );
            },
            Some(t) => {
                out.push(
                    ColumnDef {
                        order: row.order,
                        name: row.name.clone(),
                        ty: t.canonical_name(),
                        nullable: row.nullable,
                    },
                );
            },
        }
        i = i + 1;
    }
    Ok(out)
}

/// A column is shown: it is not kept for the mirror's own use, and it is among those of
/// a view, where one is read.
pub open spec fn shown(c: ColumnDef, projection: Option<Seq<String>>) -> bool {
    !reserved(c.name@) && (projection matches Some(names) ==> holds(names, c.name@))
}

/// What an optional list holds.
pub open spec fn opt_list(list: Option<&Vec<String>>) -> Option<Seq<String>> {
    match list {
        Some(v) => Some(v@),
        None => None,
    }
}

/// The columns of a table or a view that are shown, in their order.
pub fn schema(columns: Vec<ColumnDef>, projection: Option<&Vec<String>>) -> (r: Vec<ColumnDef>)
    ensures
        r@ == filtered(columns@, |c: ColumnDef| shown(c, opt_list(projection))),
{
    let ghost p = |c: ColumnDef| shown(c, opt_list(projection));
    let mut out: Vec<ColumnDef> = columns;
    crate::vecs::retain(
        &mut out,
        (|c: &ColumnDef| -> (keep: bool)
            ensures
                keep == shown(*c, opt_list(projection)),
            {
                if is_reserved(c.name.as_str()) {
                    false
                } else {
                    match projection {
                        Some(names) => contains_text(names, c.name.as_str()),
                        None => true,
                    }
                }
            }),
        Ghost(p),
    );
    out
}

/// No column that is kept for the mirror's own use is ever shown.
pub proof fn law_reserved_columns_are_hidden(
    columns: Seq<ColumnDef>,
    projection: Option<Seq<String>>,
    c: ColumnDef,
)
    requires
        filtered(columns, |d: ColumnDef| shown(d, projection)).contains(c),
    ensures
        !reserved(c.name@),
        columns.contains(c),
{
    crate::vecs::lemma_filtered(columns, |d: ColumnDef| shown(d, projection), c);
}

/// The snapshot of a table, or that there is none.
pub fn current_snapshot(table: &TableRef, found: Option<Snapshot>) -> (r: Result<
    Snapshot,
    ControlPlaneError,
>)
    ensures
        outcome(r) == (match found {
            Some(s) => Ok(s),
            None => Err(Fault::NotFound(table.schema@ + "."@ + table.name@)),
        }),
{
    match found {
        Some(s) => Ok(s),
        None => Err(
            ControlPlaneError::NotFound(
                concat3(table.schema.as_str(), ".", table.name.as_str()),
            ),
        ),
    }
}

/// The snapshots of a table, or that there are none.
pub fn snapshots(table: &TableRef, found: Vec<Snapshot>) -> (r: Result<
    Vec<Snapshot>,
    ControlPlaneError,
>)
    ensures
        outcome(r) == (if found@.len() == 0 {
            Err(Fault::NotFound(table.schema@ + "."@ + table.name@))
        } else {
            Ok(found)
        }),
{
    if found.len() == 0 {
        Err(
            ControlPlaneError::NotFound(
                concat3(table.schema.as_str(), ".", table.name.as_str()),
            ),
        )
    } else {
        Ok(found)
    }
}

/// The number of the table at a snapshot, or that it was not there.
pub fn resolve_table(table: &TableRef, at: i64, found: Option<i64>) -> (r: Result<
    i64,
    ControlPlaneError,
>)
    ensures
        outcome(r) == (match found {
            Some(t) => Ok(t),
            None => Err(
                Fault::NotFound(table.schema@ + "."@ + table.name@ + " @ "@ + int_text(at as int)),
            ),
        }),
{
    match found {
        Some(t) => Ok(t),
        None => Err(
            ControlPlaneError::NotFound(
                concat5(
                    table.schema.as_str(),
                    ".",
                    table.name.as_str(),
                    " @ ",
                    i64_text(at).as_str(),
                ),
            ),
        ),
    }
}

/// Where a name is read: a view is read at its base, with its columns.
pub fn read_through<'a>(table: &'a TableRef, view: Option<&'a ViewDef>) -> (r: (
    &'a TableRef,
    Option<&'a Vec<String>>,
))
    ensures
        match view {
            Some(v) => *r.0 == v.base && (match r.1 {
                Some(c) => v.columns == Some(*c),
                None => v.columns is None,
            }),
            None => *r.0 == *table && r.1 is None,
        },
{
    match view {
        Some(v) => (
            &v.base,
            match &v.columns {
                Some(c) => Some(c),
                None => None,
            },
        ),
        None => (table, None),
    }
}

/// A row of the question for two snapshots at once: which table it is for, and its
/// snapshot, whose parts are there together or not at all.
#[derive(Debug)]
pub struct PairRow {
    pub tag: String,
    pub snapshot_id: Option<i64>,
    pub snapshot_time: Option<i128>,
    pub schema_version: Option<i64>,
}

/// The snapshot of a row.
pub open spec fn row_snapshot(r: PairRow) -> Option<Snapshot> {
    match (r.snapshot_id, r.snapshot_time, r.schema_version) {
        (Some(id), Some(time), Some(schema_version)) => Some(
            Snapshot { id: crate::types::SnapshotId(id), time, schema_version },
        ),
        _ => None,
    }
}

/// The snapshot of the last row for the base table, or for the other.
pub open spec fn last_snapshot(rows: Seq<PairRow>, base: bool) -> Option<Snapshot>
    decreases rows.len(),
{
    if rows.len() == 0 {
        None
    } else if (rows.last().tag@ == "base"@) == base {
        row_snapshot(rows.last())
    } else {
        last_snapshot(rows.drop_last(), base)
    }
}

/// The snapshots of a table and its changelog, read in one question.
pub fn current_snapshots_pair(rows: &Vec<PairRow>) -> (r: (Option<Snapshot>, Option<Snapshot>))
    ensures
        r.0 == last_snapshot(rows@, true),
        r.1 == last_snapshot(rows@, false),
{
    let mut base: Option<Snapshot> = None;
    let mut clog: Option<Snapshot> = None;
    let mut i: usize = 0;
    assert(rows@.take(0) =~= Seq::empty());
    while i < rows.len()
        invariant
            i <= rows@.len(),
            base == last_snapshot(rows@.take(i as int), true),
            clog == last_snapshot(rows@.take(i as int), false),
        decreases rows@.len() - i,
    {
        assert(rows@.take(i + 1).drop_last() =~= rows@.take(i as int));
        let row: &PairRow = &rows[i];
        let snap: Option<Snapshot> = match (row.snapshot_id, row.snapshot_time, row.schema_version) {
            (Some(id), Some(time), Some(schema_version)) => Some(
                Snapshot { id: crate::types::SnapshotId(id), time, schema_version },
            ),
            _ => None,
        };
        if str_same(row.tag.as_str(), "base") {
            base = snap;
        } else {
            clog = snap;
        }
        i = i + 1;
    }
    assert(rows@.take(i as int) =~= rows@);
    (base, clog)
}

/// What is known when a view is defined, question by question.
#[derive(Debug)]
pub struct ViewFacts {
    /// Whether the base is itself a view.
    pub base_is_view: Option<bool>,
    /// The verdict on the view's shape against the columns of its base.
    pub shape: Option<Result<(), String>>,
    /// Whether a view of the name exists.
    pub view_exists: Option<bool>,
    /// Whether the name is that of a live table.
    pub view_is_table: Option<bool>,
    /// Whether the base is a live table.
    pub base_is_live: Option<bool>,
}

/// What the definition of a view does next.
#[derive(Debug)]
pub enum ViewStep {
    /// Ask whether the base is itself a view.
    AskBaseIsView,
    /// Read the columns of the base at its snapshot, and judge the view's shape.
    JudgeShape,
    /// Open a transaction, and ask whether a view of the name exists.
    AskViewExists,
    /// Ask whether the name is that of a live table.
    AskViewIsTable,
    /// Ask whether the base is a live table.
    AskBaseIsLive,
    /// Store the view, record its lineage, and commit.
    Store,
    /// Refuse it.
    Refuse(ControlPlaneError),
}

/// What the definition of a view does next, with the refusal by its kind and words.
pub enum ViewVerdict {
    AskBaseIsView,
    JudgeShape,
    AskViewExists,
    AskViewIsTable,
    AskBaseIsLive,
    Store,
    Refuse(Fault),
}

impl View for ViewStep {
    type V = ViewVerdict;

    open spec fn view(&self) -> ViewVerdict {
        match self {
            ViewStep::AskBaseIsView => ViewVerdict::AskBaseIsView,
            ViewStep::JudgeShape => ViewVerdict::JudgeShape,
            ViewStep::AskViewExists => ViewVerdict::AskViewExists,
            ViewStep::AskViewIsTable => ViewVerdict::AskViewIsTable,
            ViewStep::AskBaseIsLive => ViewVerdict::AskBaseIsLive,
            ViewStep::Store => ViewVerdict::Store,
            ViewStep::Refuse(e) => ViewVerdict::Refuse(e@),
        }
    }
}

/// What the definition of a view does next: the base must not be a view, the shape must
/// fit, the name must be free of views and of tables, and the base must be live.
pub open spec fn view_step(view: ViewDef, facts: ViewFacts) -> ViewVerdict {
    match facts.base_is_view {
        None => ViewVerdict::AskBaseIsView,
        Some(true) => ViewVerdict::Refuse(Fault::Validation("view-over-view is not supported"@)),
        Some(false) => match facts.shape {
            None => ViewVerdict::JudgeShape,
            Some(Err(m)) => ViewVerdict::Refuse(Fault::Validation(m@)),
            Some(Ok(_)) => match facts.view_exists {
                None => ViewVerdict::AskViewExists,
                Some(true) => ViewVerdict::Refuse(
                    Fault::Conflict(
                        "view "@ + view.view.schema@ + "."@ + view.view.name@ + " already exists"@,
                    ),
                ),
                Some(false) => match facts.view_is_table {
                    None => ViewVerdict::AskViewIsTable,
                    Some(true) => ViewVerdict::Refuse(
                        Fault::Conflict(
                            view.view.schema@ + "."@ + view.view.name@ + " is a physical table"@,
                        ),
                    ),
                    Some(false) => match facts.base_is_live {
                        None => ViewVerdict::AskBaseIsLive,
                        Some(false) => ViewVerdict::Refuse(
                            Fault::NotFound(view.base.schema@ + "."@ + view.base.name@),
                        ),
                        Some(true) => ViewVerdict::Store,
                    },
                },
            },
        },
    }
}

/// What the definition of a view does next.
pub fn define_view(view: &ViewDef, facts: ViewFacts) -> (r: ViewStep)
    ensures
        r@ == view_step(*view, facts),
{
    match facts.base_is_view {
        None => {
            return ViewStep::AskBaseIsView;
        },
        Some(is_view) => {
            if is_view {
                return ViewStep::Refuse(
                    ControlPlaneError::Validation("view-over-view is not supported".to_owned()),
                );
            }
        },
    }
    match facts.shape {
        None => {
            return ViewStep::JudgeShape;
        },
        Some(Err(m)) => {
            return ViewStep::Refuse(ControlPlaneError::Validation(m));
        },
        Some(Ok(_)) => {},
    }
    match facts.view_exists {
        None => {
            return ViewStep::AskViewExists;
        },
        Some(there) => {
            if there {
                return ViewStep::Refuse(
                    ControlPlaneError::Conflict(
                        concat5(
                            "view ",
                            view.view.schema.as_str(),
                            ".",
                            view.view.name.as_str(),
                            " already exists",
                        ),
                    ),
                );
            }
        },
    }
    match facts.view_is_table {
        None => {
            return ViewStep::AskViewIsTable;
        },
        Some(is_table) => {
            if is_table {
                return ViewStep::Refuse(
                    ControlPlaneError::Conflict(
                        concat(
                            concat3(
                                view.view.schema.as_str(),
                                ".",
                                view.view.name.as_str(),
                            ).as_str(),
                            " is a physical table",
                        ),
                    ),
                );
            }
        },
    }
    match facts.base_is_live {
        None => ViewStep::AskBaseIsLive,
        Some(live) => {
            if live {
                ViewStep::Store
            } else {
                ViewStep::Refuse(
                    ControlPlaneError::NotFound(
                        concat3(view.base.schema.as_str(), ".", view.base.name.as_str()),
                    ),
                )
            }
        },
    }
}

/// Whether a view was dropped, or that there was none.
pub fn drop_view(view: &TableRef, deleted: bool) -> (r: Result<(), ControlPlaneError>)
    ensures
        outcome(r) == (if deleted {
            Ok::<(), Fault>(())
        } else {
            Err(Fault::NotFound(view.schema@ + "."@ + view.name@))
        }),
{
    if deleted {
        Ok(())
    } else {
        Err(ControlPlaneError::NotFound(concat3(view.schema.as_str(), ".", view.name.as_str())))
    }
}

} // verus!
