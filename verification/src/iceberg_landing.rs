//! Landing batches in a table: inline or as files, as a batch or a stream, appended
//! or in place of what is there.
use crate::commit_mirror::{CommitExtras, InlineEndCap};
use crate::error::{outcome, ControlPlaneError, Fault};
use crate::framing::{
    count_of, frame_rows, frames_of, in_turn, lemma_runs, reserve_runs, round_robin,
    round_robin_share, run_starts, runs_of, starts_of,
};
use crate::iceberg_mirror::{ProjectedColumn, ProjectedFile};
use crate::iceberg_schema_evolution::{
    change_message, classify_schema_change, schema_refusal, SchemaPlan,
};
use crate::iceberg_type::{
    iceberg_physical_type, mirror_column_type, mirror_type, to_iceberg, BaseType,
};
use crate::inline_append::lemma_runs_fit;
use crate::iceberg_writer::{
    backoff_millis, commit_append_with_retry, AttemptOutcome, RetryStep, COMMIT_MAX_RETRIES,
};
use crate::key::{str_same, Key};
use crate::mv_floor::EndCapIntent;
use crate::names::{index_of, missing_field, name_place, no_field};
use crate::ordered::{elements_of, OrderedSet};
use crate::stream::MergeEngine;
use crate::text::{concat, concat3, concat4, i64_text, int_text, nat_text, u64_text, usize_text};
use crate::types::{
    ColumnSpec, ColumnStat, DataFile, FileFormat, LineageEvent, NewJob, TableKey, TableRef,
};
use crate::words::{debug_of, debug_text};
use vstd::prelude::*;
use vstd::string::StringExecFns;

verus! {

/// That a table is to be a stream of changes: its buckets, the column that places its
/// rows, and how changes of one row are merged.
#[derive(Debug)]
pub struct CdcDecl {
    pub buckets: i32,
    pub bucket_key: String,
    pub merge_engine: MergeEngine,
}

/// What a write declares its table to be.
#[derive(Debug)]
pub enum StreamDecl {
    /// Nothing.
    Batch,
    /// A log of so many buckets.
    Log(i32),
    /// A stream of changes.
    Cdc { buckets: i32, bucket_key: String, merge_engine: MergeEngine },
}

/// Up to how many bytes a write is kept inline, and from how many inline bytes on a
/// table is flushed.
#[derive(Clone, Copy, Debug, PartialEq, Eq, Structural)]
pub struct InlineLimits {
    pub inline_byte_limit: usize,
    pub flush_byte_threshold: i64,
}

/// What a write declares, from the two ways a caller can say it, of which it may use
/// one.
pub open spec fn declared(stream_buckets: Option<i32>, cdc: Option<CdcDecl>) -> Result<
    StreamDecl,
    Fault,
> {
    match (stream_buckets, cdc) {
        (Some(_), Some(_)) => Err(
            Fault::Backend("land: cannot request both a log and a cdc stream declaration"@),
        ),
        (Some(n), None) => Ok(StreamDecl::Log(n)),
        (None, Some(c)) => Ok(
            StreamDecl::Cdc {
                buckets: c.buckets,
                bucket_key: c.bucket_key,
                merge_engine: c.merge_engine,
            },
        ),
        (None, None) => Ok(StreamDecl::Batch),
    }
}

/// What a write declares.
pub fn combine_stream_decl(stream_buckets: Option<i32>, cdc: Option<CdcDecl>) -> (r: Result<
    StreamDecl,
    ControlPlaneError,
>)
    ensures
        outcome(r) == declared(stream_buckets, cdc),
{
    match stream_buckets {
        Some(n) => match cdc {
            Some(_) => Err(
                ControlPlaneError::Backend(
                    "land: cannot request both a log and a cdc stream declaration".to_owned(),
                ),
            ),
            None => Ok(StreamDecl::Log(n)),
        },
        None => match cdc {
            Some(c) => Ok(
                StreamDecl::Cdc {
                    buckets: c.buckets,
                    bucket_key: c.bucket_key,
                    merge_engine: c.merge_engine,
                },
            ),
            None => Ok(StreamDecl::Batch),
        },
    }
}

/// The columns stand in the order of the names, and are as many.
pub open spec fn aligned(names: Seq<String>, columns: Seq<ColumnSpec>) -> bool {
    columns.len() == names.len() && forall|i: int|
        0 <= i < columns.len() ==> (#[trigger] columns[i]).name@ == names[i]@
}

/// The first column from `from` on that the data does not have.
pub open spec fn first_absent(names: Seq<String>, columns: Seq<ColumnSpec>, from: int) -> Option<int>
    decreases columns.len() - from,
{
    if from < 0 || from >= columns.len() {
        None
    } else if name_place(names, columns[from].name@, 0) is None {
        Some(from)
    } else {
        first_absent(names, columns, from + 1)
    }
}

/// That the data does not have a column.
pub open spec fn absent_column(name: Seq<char>, names: Seq<String>) -> Fault {
    Fault::Backend(
        "landing: column "@ + debug_text(name) + " declared but absent from the data: "@ + no_field(
            name,
            names,
        ),
    )
}

/// Where in the data each column is.
pub open spec fn are_places(places: Seq<usize>, names: Seq<String>, columns: Seq<ColumnSpec>) -> bool {
    places.len() == columns.len() && forall|i: int|
        0 <= i < columns.len() ==> name_place(names, columns[i].name@, 0) == Some(
            (#[trigger] places[i]) as int,
        )
}

/// Where in the data each column is, unless they stand in its order already. A column
/// that the data does not have is an error.
pub fn align_to_columns(names: &Vec<String>, columns: &Vec<ColumnSpec>) -> (r: Result<
    Option<Vec<usize>>,
    ControlPlaneError,
>)
    ensures
        if aligned(names@, columns@) {
            r matches Ok(None)
        } else {
            match r {
                Ok(Some(places)) => first_absent(names@, columns@, 0) is None && are_places(
                    places@,
                    names@,
                    columns@,
                ),
                Ok(None) => false,
                Err(e) => first_absent(names@, columns@, 0) matches Some(i) && e@ == absent_column(
                    columns@[i].name@,
                    names@,
                ),
            }
        },
{
    let mut in_order: bool = columns.len() == names.len();
    let mut k: usize = 0;
    while in_order && k < columns.len()
        invariant
            k <= columns@.len(),
            in_order ==> columns@.len() == names@.len() && forall|i: int|
                0 <= i < k ==> (#[trigger] columns@[i]).name@ == names@[i]@,
            !in_order ==> !aligned(names@, columns@),
        decreases columns@.len() - k, (if in_order { 1int } else { 0int }),
    {
        if str_same(columns[k].name.as_str(), names[k].as_str()) {
            k = k + 1;
        } else {
            assert(columns@[k as int].name@ != names@[k as int]@);
            in_order = false;
        }
    }
    if in_order {
        return Ok(None);
    }
    let mut places: Vec<usize> = Vec::new();
    let mut i: usize = 0;
    while i < columns.len()
        invariant
            i <= columns@.len(),
            !aligned(names@, columns@),
            places@.len() == i,
            first_absent(names@, columns@, 0) == first_absent(names@, columns@, i as int),
            forall|j: int|
                0 <= j < i ==> name_place(names@, columns@[j].name@, 0) == Some(
                    (#[trigger] places@[j]) as int,
                ),
        decreases columns@.len() - i,
    {
        let name: &str = columns[i].name.as_str();
        match index_of(names, name) {
            Some(p) => places.push(p),
            None => {
                return Err(
                    ControlPlaneError::Backend(
                        concat4(
                            "landing: column ",
                            debug_of(name).as_str(),
                            " declared but absent from the data: ",
                            missing_field(name, names).as_str(),
                        ),
                    ),
                );
            },
        }
        i = i + 1;
    }
    Ok(Some(places))
}

/// The sum of sizes.
pub open spec fn total(sizes: Seq<usize>) -> int
    decreases sizes.len(),
{
    if sizes.len() == 0 {
        0
    } else {
        total(sizes.drop_last()) + sizes.last()
    }
}

proof fn lemma_total_grows(sizes: Seq<usize>, i: int)
    requires
        0 <= i <= sizes.len(),
    ensures
        0 <= total(sizes.take(i)) <= total(sizes),
    decreases sizes.len(),
{
    if i < sizes.len() {
        lemma_total_grows(sizes.drop_last(), i);
        assert(sizes.drop_last().take(i) =~= sizes.take(i));
    } else {
        assert(sizes.take(i) =~= sizes);
        lemma_total_positive(sizes);
    }
}

proof fn lemma_total_positive(sizes: Seq<usize>)
    ensures
        total(sizes) >= 0,
    decreases sizes.len(),
{
    if sizes.len() > 0 {
        lemma_total_positive(sizes.drop_last());
    }
}

/// Whether a write is kept inline: its batches are together no larger than the
/// limit.
pub fn lands_inline(sizes: &Vec<usize>, limits: InlineLimits) -> (r: bool)
    requires
        total(sizes@) <= usize::MAX,
    ensures
        r == (total(sizes@) <= limits.inline_byte_limit),
{
    let mut sum: usize = 0;
    let mut i: usize = 0;
    assert(sizes@.take(0) =~= Seq::empty());
    while i < sizes.len()
        invariant
            i <= sizes@.len(),
            total(sizes@) <= usize::MAX,
            sum == total(sizes@.take(i as int)),
        decreases sizes@.len() - i,
    {
        assert(sizes@.take(i + 1).drop_last() =~= sizes@.take(i as int));
        proof {
            lemma_total_grows(sizes@, i + 1);
        }
        sum = sum + sizes[i];
        i = i + 1;
    }
    assert(sizes@.take(i as int) =~= sizes@);
    sum <= limits.inline_byte_limit
}

/// The three columns that place a row of a stream.
pub open spec fn is_framing(columns: Seq<ColumnSpec>) -> bool {
    &&& columns.len() == 3
    &&& columns[0].name@ == "loom_change_kind"@ && columns[0].ty@ == "string"@ && !columns[0].nullable
    &&& columns[1].name@ == "loom_bucket"@ && columns[1].ty@ == "integer"@ && columns[1].nullable
    &&& columns[2].name@ == "loom_offset"@ && columns[2].ty@ == "long"@ && columns[2].nullable
}

/// The three columns that place a row of a stream.
pub fn framing_column_specs() -> (r: Vec<ColumnSpec>)
    ensures
        is_framing(r@),
{
    let mut out: Vec<ColumnSpec> = Vec::new();
    out.push(
        ColumnSpec {
            name: "loom_change_kind".to_owned(),
            ty: "string".to_owned(),
            nullable: false,
        },
    );
    out.push(
        ColumnSpec { name: "loom_bucket".to_owned(), ty: "integer".to_owned(), nullable: true },
    );
    out.push(ColumnSpec { name: "loom_offset".to_owned(), ty: "long".to_owned(), nullable: true });
    out
}

/// The physical columns of a table: its own, and behind them, in a stream, those that
/// place its rows.
pub open spec fn are_physical(r: Seq<ColumnSpec>, columns: Seq<ColumnSpec>, framed: bool) -> bool {
    if framed {
        r.len() == columns.len() + 3 && r.take(columns.len() as int) == columns && is_framing(
            r.skip(columns.len() as int),
        )
    } else {
        r == columns
    }
}

/// The physical columns of a table.
pub fn augment_with_framing(columns: &Vec<ColumnSpec>, framed: bool) -> (r: Vec<ColumnSpec>)
    ensures
        are_physical(r@, columns@, framed),
{
    let mut out: Vec<ColumnSpec> = Vec::new();
    let mut i: usize = 0;
    while i < columns.len()
        invariant
            i <= columns@.len(),
            out@ == columns@.take(i as int),
        decreases columns@.len() - i,
    {
        out.push(columns[i].duplicate());
        assert(out@ =~= columns@.take(i + 1));
        i = i + 1;
    }
    assert(columns@.take(i as int) =~= columns@);
    if framed {
        let mut more: Vec<ColumnSpec> = framing_column_specs();
        let ghost added = more@;
        out.append(&mut more);
        assert(out@.take(columns@.len() as int) =~= columns@);
        assert(out@.skip(columns@.len() as int) =~= added);
    }
    out
}

/// The changelog of a stream of changes: a table beside it.
pub fn changelog_table_ref(base: &TableRef) -> (r: TableRef)
    ensures
        r.schema@ == base.schema@,
        r.name@ == base.name@ + "__changelog"@,
{
    TableRef { schema: base.schema.clone(), name: concat(base.name.as_str(), "__changelog") }
}

/// How new files come into a table.
#[derive(Debug)]
pub enum WriteMode {
    /// Beside those that are live.
    Append,
    /// In place of all that are live, and of the live inline rows.
    Overwrite,
    /// In place of the live ones that are named.
    Compact { expire_paths: Vec<String> },
}

/// A column of a write as the mirror keeps it, numbered from 1.
pub open spec fn is_registered(p: ProjectedColumn, c: ColumnSpec, resolved: Option<BaseType>, i: int) -> bool {
    &&& p.order == i + 1
    &&& p.name@ == c.name@
    &&& mirror_type(c.ty@, resolved) == Some(p.iceberg_type@)
    &&& p.nullable == c.nullable
}

/// The columns of a write as the mirror keeps them.
pub open spec fn are_registered(
    p: Seq<ProjectedColumn>,
    columns: Seq<ColumnSpec>,
    resolved: Seq<Option<BaseType>>,
) -> bool {
    p.len() == columns.len() && forall|i: int|
        0 <= i < columns.len() ==> is_registered(#[trigger] p[i], columns[i], resolved[i], i)
}

/// That the mirror does not have a column's type.
pub open spec fn unregistered(ty: Seq<char>) -> Fault {
    Fault::Backend("register: no iceberg type for "@ + debug_text(ty))
}

/// The columns of a write as the mirror keeps them. `resolved` is what the logical
/// vocabulary makes of each type.
pub fn projected_columns(columns: &Vec<ColumnSpec>, resolved: &Vec<Option<BaseType>>) -> (r: Result<
    Vec<ProjectedColumn>,
    ControlPlaneError,
>)
    requires
        columns@.len() == resolved@.len(),
        columns@.len() < i64::MAX,
    ensures
        match r {
            Ok(p) => crate::inline_append::first_unmirrored(columns@, resolved@, 0) is None
                && are_registered(p@, columns@, resolved@),
            Err(e) => crate::inline_append::first_unmirrored(columns@, resolved@, 0) matches Some(i)
                && e@ == unregistered(columns@[i].ty@),
        },
{
    let mut out: Vec<ProjectedColumn> = Vec::new();
    let mut i: usize = 0;
    while i < columns.len()
        invariant
            i <= columns@.len() < i64::MAX,
            columns@.len() == resolved@.len(),
            out@.len() == i,
            crate::inline_append::first_unmirrored(columns@, resolved@, 0)
                == crate::inline_append::first_unmirrored(columns@, resolved@, i as int),
            forall|j: int|
                0 <= j < i ==> is_registered(#[trigger] out@[j], columns@[j], resolved@[j], j),
        decreases columns@.len() - i,
    {
        let c: &ColumnSpec = &columns[i];
        match mirror_column_type(c.ty.as_str(), resolved[i]) {
            None => {
                return Err(
                    ControlPlaneError::Backend(
                        concat("register: no iceberg type for ", debug_of(c.ty.as_str()).as_str()),
                    ),
                );
            },
            Some(iceberg_type) => {
                out.push(
                    ProjectedColumn {
                        order: (i as i64) + 1,
                        name: c.name.clone(),
                        iceberg_type,
                        nullable: c.nullable,
                    },
                );
            },
        }
        i = i + 1;
    }
    Ok(out)
}

/// A file as the mirror takes it in.
pub open spec fn is_projected(p: ProjectedFile, f: DataFile) -> bool {
    &&& p.path == f.path
    &&& p.file_format@ == "parquet"@
    &&& p.record_count == f.record_count
    &&& p.file_size_bytes == f.file_size_bytes
    &&& p.column_stats == f.column_stats
}

/// Every file is of the format that is taken.
pub open spec fn all_parquet(files: Seq<DataFile>) -> bool {
    forall|i: int| 0 <= i < files.len() ==> (#[trigger] files[i]).file_format == FileFormat::Parquet
}

/// The files as the mirror takes them in. Only Parquet is taken.
pub fn projected_files(files: Vec<DataFile>) -> (r: Result<Vec<ProjectedFile>, ControlPlaneError>)
    ensures
        match r {
            Ok(list) => {
                &&& all_parquet(files@)
                &&& list@.len() == files@.len()
                &&& forall|i: int|
                    0 <= i < files@.len() ==> is_projected(#[trigger] list@[i], files@[i])
            },
            Err(e) => !all_parquet(files@) && e@ == Fault::Backend(
                "register: only Parquet files supported, got Other"@,
            ),
        },
{
    let ghost all = files@;
    let mut rest: Vec<DataFile> = files;
    let mut out: Vec<ProjectedFile> = Vec::new();
    assert(all.skip(0) =~= all);
    while rest.len() > 0
        invariant
            all == files@,
            out@.len() + rest@.len() == all.len(),
            rest@ == all.skip(out@.len() as int),
            forall|i: int| 0 <= i < out@.len() ==> is_projected(#[trigger] out@[i], all[i]),
            forall|i: int|
                0 <= i < out@.len() ==> (#[trigger] all[i]).file_format == FileFormat::Parquet,
        decreases rest@.len(),
    {
        let ghost n = out@.len() as int;
        let f: DataFile = rest.remove(0);
        assert(f == all[n]);
        assert(rest@ =~= all.skip(n + 1));
        match f.file_format {
            FileFormat::Parquet => {},
            FileFormat::Other => {
                return Err(
                    ControlPlaneError::Backend(
                        "register: only Parquet files supported, got Other".to_owned(),
                    ),
                );
            },
        }
        out.push(
            ProjectedFile {
                path: f.path,
                file_format: "parquet".to_owned(),
                record_count: f.record_count,
                file_size_bytes: f.file_size_bytes,
                column_stats: f.column_stats,
            },
        );
    }
    Ok(out)
}

/// A step of registering files at a snapshot, in the caller's transaction.
pub enum RegisterStep {
    /// Retire every live file.
    CapFiles { intent: EndCapIntent },
    /// Retire every live inline row.
    CapInline { intent: EndCapIntent },
    /// Retire the live files of these paths; each must be live.
    CapPaths { paths: Vec<String>, intent: EndCapIntent },
    /// Bring the columns into the mirror, as far as the live ones allow.
    Columns { columns: Vec<ProjectedColumn> },
    /// Bring the files into the mirror.
    Files { files: Vec<ProjectedFile> },
    /// Stamp the snapshot with the table's schema version.
    Stamp,
}

/// The steps of registering: what is retired, then the columns unless the schema
/// cannot have changed, then the files, then the stamp.
pub open spec fn are_register_steps(
    steps: Seq<RegisterStep>,
    mode: WriteMode,
    columns: Seq<ColumnSpec>,
    resolved: Seq<Option<BaseType>>,
    files: Seq<DataFile>,
) -> bool {
    match mode {
        WriteMode::Append => {
            &&& steps.len() == 3
            &&& steps[0] matches RegisterStep::Columns { columns: p }
            &&& are_registered(p@, columns, resolved)
            &&& is_files_step(steps[1], files)
            &&& steps[2] is Stamp
        },
        WriteMode::Overwrite => {
            &&& steps.len() == 5
            &&& steps[0] == (RegisterStep::CapFiles { intent: EndCapIntent::Removing })
            &&& steps[1] == (RegisterStep::CapInline { intent: EndCapIntent::Removing })
            &&& steps[2] matches RegisterStep::Columns { columns: p }
            &&& are_registered(p@, columns, resolved)
            &&& is_files_step(steps[3], files)
            &&& steps[4] is Stamp
        },
        WriteMode::Compact { expire_paths } => {
            &&& steps.len() == 3
            &&& steps[0] == (RegisterStep::CapPaths {
                paths: expire_paths,
                intent: EndCapIntent::Reframing,
            })
            &&& is_files_step(steps[1], files)
            &&& steps[2] is Stamp
        },
    }
}

/// The step that brings the files into the mirror.
pub open spec fn is_files_step(step: RegisterStep, files: Seq<DataFile>) -> bool {
    step matches RegisterStep::Files { files: list } && list@.len() == files.len() && forall|i: int|
        0 <= i < files.len() ==> is_projected(#[trigger] list@[i], files[i])
}

/// Why registering is refused, where it is: a column's type, unless the schema cannot
/// have changed, then a file's format.
pub open spec fn register_fault(
    mode: WriteMode,
    columns: Seq<ColumnSpec>,
    resolved: Seq<Option<BaseType>>,
    files: Seq<DataFile>,
) -> Option<Fault> {
    if !(mode is Compact) && crate::inline_append::first_unmirrored(columns, resolved, 0) is Some {
        Some(
            unregistered(
                columns[crate::inline_append::first_unmirrored(columns, resolved, 0)->0].ty@,
            ),
        )
    } else if !all_parquet(files) {
        Some(Fault::Backend("register: only Parquet files supported, got Other"@))
    } else {
        None
    }
}

/// The steps of registering files in a table at a snapshot.
pub fn register_files(
    mode: WriteMode,
    columns: &Vec<ColumnSpec>,
    resolved: &Vec<Option<BaseType>>,
    files: Vec<DataFile>,
) -> (r: Result<Vec<RegisterStep>, ControlPlaneError>)
    requires
        columns@.len() == resolved@.len(),
        columns@.len() < i64::MAX,
    ensures
        match r {
            Ok(steps) => register_fault(mode, columns@, resolved@, files@) is None
                && are_register_steps(steps@, mode, columns@, resolved@, files@),
            Err(e) => register_fault(mode, columns@, resolved@, files@) == Some(e@),
        },
{
    let mut steps: Vec<RegisterStep> = Vec::new();
    match mode {
        WriteMode::Compact { expire_paths } => {
            steps.push(
                RegisterStep::CapPaths { paths: expire_paths, intent: EndCapIntent::Reframing },
            );
        },
        WriteMode::Append => {
            match projected_columns(columns, resolved) {
                Ok(p) => steps.push(RegisterStep::Columns { columns: p }),
                Err(e) => {
                    return Err(e);
                },
            }
        },
        WriteMode::Overwrite => {
            steps.push(RegisterStep::CapFiles { intent: EndCapIntent::Removing });
            steps.push(RegisterStep::CapInline { intent: EndCapIntent::Removing });
            match projected_columns(columns, resolved) {
                Ok(p) => steps.push(RegisterStep::Columns { columns: p }),
                Err(e) => {
                    return Err(e);
                },
            }
        },
    }
    match projected_files(files) {
        Ok(list) => steps.push(RegisterStep::Files { files: list }),
        Err(e) => {
            return Err(e);
        },
    }
    steps.push(RegisterStep::Stamp);
    Ok(steps)
}

/// Where rows or files are retired in registering, they are before the new files come
/// in, so that no new file is retired with the old.
pub proof fn law_old_files_go_first(
    steps: Seq<RegisterStep>,
    mode: WriteMode,
    columns: Seq<ColumnSpec>,
    resolved: Seq<Option<BaseType>>,
    files: Seq<DataFile>,
    i: int,
    j: int,
)
    requires
        are_register_steps(steps, mode, columns, resolved, files),
        0 <= i < steps.len(),
        0 <= j < steps.len(),
        steps[i] is CapFiles || steps[i] is CapInline || steps[i] is CapPaths,
        steps[j] is Files,
    ensures
        i < j,
{
}

/// What is to be done with a write whose columns are compared with the live ones.
#[derive(Clone, Copy, Debug, PartialEq, Eq, Structural)]
pub enum AppendRoute {
    /// Append it as files of the table's schema.
    Plain,
    /// Append it with its new columns, which the mirror alone takes in.
    Additive,
}

/// What is to be done with a write whose columns are compared with the live ones.
pub open spec fn routed(live: Seq<ProjectedColumn>, incoming: Seq<ProjectedColumn>) -> Result<
    AppendRoute,
    Fault,
> {
    if live.len() == 0 {
        Ok(AppendRoute::Plain)
    } else {
        match schema_refusal(live, incoming) {
            Some(c) => Err(Fault::Validation(change_message(c))),
            None => if incoming.len() > live.len() {
                Ok(AppendRoute::Additive)
            } else {
                Ok(AppendRoute::Plain)
            },
        }
    }
}

/// What is to be done with a write whose columns are compared with the live ones.
pub fn append_route(live: &Vec<ProjectedColumn>, incoming: &Vec<ProjectedColumn>) -> (r: Result<
    AppendRoute,
    ControlPlaneError,
>)
    requires
        live@.len() <= i64::MAX,
    ensures
        outcome(r) == routed(live@, incoming@),
{
    if live.len() == 0 {
        return Ok(AppendRoute::Plain);
    }
    match classify_schema_change(live, incoming) {
        Ok(SchemaPlan::Identical) => Ok(AppendRoute::Plain),
        Ok(SchemaPlan::Additive { new_columns: _ }) => Ok(AppendRoute::Additive),
        Err(e) => Err(ControlPlaneError::Validation(e.message())),
    }
}

/// A write as files: the physical columns, what the logical vocabulary makes of
/// each type, and whether the columns are those of a stream.
pub struct SnapshotAppend {
    pub columns: Vec<ColumnSpec>,
    pub resolved: Vec<Option<BaseType>>,
    pub framed: bool,
}

/// What has been found out.
pub enum AppendedEvent {
    Begin,
    /// The Iceberg table is there.
    Ensured,
    /// The live columns of the mirror, and the snapshot that they were read at; none
    /// where the table has no snapshot yet.
    Live { columns: Vec<ProjectedColumn>, current: Option<i64> },
    /// Whether the table has live inline rows.
    Inline { rows: bool },
    /// The files are written, outside any transaction.
    Written { files: Vec<DataFile> },
    /// The write is committed at this snapshot.
    Committed { snapshot: i64 },
    /// The last action failed.
    Failed { error: ControlPlaneError },
}

/// What is to be done.
pub enum AppendedAction {
    /// Create the Iceberg table where it is missing, with or without the columns that
    /// place the rows of a stream.
    Ensure { framed: bool },
    /// Read the live columns at the current snapshot.
    ReadLive,
    /// Look for live inline rows at the snapshot.
    ProbeInline { at: i64 },
    /// Write the batches under the table's schema, commit them to Iceberg with the
    /// mirror, and read the snapshot.
    Append,
    /// Write the batches under the schema of all the columns, and commit nothing.
    WriteObjects,
    /// In one transaction: make a snapshot, see to the table's row, take the steps,
    /// see whether the table is to be compacted, do what the write carries along, and
    /// commit.
    Register { steps: Vec<RegisterStep> },
    /// The write is over, at this snapshot.
    Finish { snapshot: i64 },
    /// Report.
    Fail { error: ControlPlaneError },
}

/// How far the write has come.
pub enum AppendedState {
    Start,
    Ensuring,
    Reading { incoming: Vec<ProjectedColumn> },
    Probing,
    Writing,
    Committing,
    Done,
}

/// The write fails with this error.
pub open spec fn append_fails(next: AppendedState, action: AppendedAction, e: Fault) -> bool {
    &&& next is Done
    &&& action matches AppendedAction::Fail { error }
    &&& error@ == e
}

/// That new columns cannot come in while the table has live inline rows.
pub open spec fn unflushed() -> Fault {
    Fault::Validation("schema evolution unsupported: flush inline rows before an additive land"@)
}

/// The refusal of an event that does not belong here.
pub open spec fn append_out_of_turn(next: AppendedState, action: AppendedAction) -> bool {
    append_fails(next, action, Fault::Backend("land: event out of turn"@))
}

/// What the write does next, and where it then stands.
pub open spec fn append_step(
    req: SnapshotAppend,
    state: AppendedState,
    event: AppendedEvent,
    next: AppendedState,
    action: AppendedAction,
) -> bool {
    match event {
        AppendedEvent::Failed { error } => append_fails(next, action, error@),
        AppendedEvent::Begin => if state is Start {
            next is Ensuring && action == (AppendedAction::Ensure { framed: req.framed })
        } else {
            append_out_of_turn(next, action)
        },
        AppendedEvent::Ensured => if state is Ensuring {
            match crate::inline_append::first_unmirrored(req.columns@, req.resolved@, 0) {
                Some(i) => append_fails(next, action, unregistered(req.columns@[i].ty@)),
                None => {
                    &&& action is ReadLive
                    &&& next matches AppendedState::Reading { incoming }
                    &&& are_registered(incoming@, req.columns@, req.resolved@)
                },
            }
        } else {
            append_out_of_turn(next, action)
        },
        AppendedEvent::Live { columns, current } => match state {
            AppendedState::Reading { incoming } => match routed(columns@, incoming@) {
                Err(e) => append_fails(next, action, e),
                Ok(AppendRoute::Plain) => action is Append && next is Committing,
                Ok(AppendRoute::Additive) => match current {
                    Some(at) => action == (AppendedAction::ProbeInline { at }) && next is Probing,
                    None => action is WriteObjects && next is Writing,
                },
            },
            _ => append_out_of_turn(next, action),
        },
        AppendedEvent::Inline { rows } => if state is Probing {
            if rows {
                append_fails(next, action, unflushed())
            } else {
                action is WriteObjects && next is Writing
            }
        } else {
            append_out_of_turn(next, action)
        },
        AppendedEvent::Written { files } => if state is Writing {
            match register_fault(WriteMode::Append, req.columns@, req.resolved@, files@) {
                Some(e) => append_fails(next, action, e),
                None => {
                    &&& next is Committing
                    &&& action matches AppendedAction::Register { steps }
                    &&& are_register_steps(
                        steps@,
                        WriteMode::Append,
                        req.columns@,
                        req.resolved@,
                        files@,
                    )
                },
            }
        } else {
            append_out_of_turn(next, action)
        },
        AppendedEvent::Committed { snapshot } => if state is Committing {
            next is Done && action == (AppendedAction::Finish { snapshot })
        } else {
            append_out_of_turn(next, action)
        },
    }
}

fn append_early() -> (r: (AppendedState, AppendedAction))
    ensures
        append_out_of_turn(r.0, r.1),
{
    append_failed(ControlPlaneError::Backend("land: event out of turn".to_owned()))
}

fn append_failed(error: ControlPlaneError) -> (r: (AppendedState, AppendedAction))
    ensures
        append_fails(r.0, r.1, error@),
{
    (AppendedState::Done, AppendedAction::Fail { error })
}

/// What the write does next, given what came of the last action. The live columns
/// decide: where the write's columns are the same, it is an ordinary append; where it
/// brings new ones, only the mirror takes them in, and only while no live inline row
/// is stored without them.
pub fn append_parquet_snapshot(
    req: &SnapshotAppend,
    state: AppendedState,
    event: AppendedEvent,
) -> (r: (AppendedState, AppendedAction))
    requires
        req.columns@.len() == req.resolved@.len(),
        req.columns@.len() < i64::MAX,
        event matches AppendedEvent::Live { columns, .. } ==> columns@.len() <= i64::MAX,
    ensures
        append_step(*req, state, event, r.0, r.1),
{
    match event {
        AppendedEvent::Failed { error } => append_failed(error),
        AppendedEvent::Begin => match state {
            AppendedState::Start => (
                AppendedState::Ensuring,
                AppendedAction::Ensure { framed: req.framed },
            ),
            _ => append_early(),
        },
        AppendedEvent::Ensured => match state {
            AppendedState::Ensuring => match projected_columns(&req.columns, &req.resolved) {
                Ok(incoming) => (AppendedState::Reading { incoming }, AppendedAction::ReadLive),
                Err(e) => append_failed(e),
            },
            _ => append_early(),
        },
        AppendedEvent::Live { columns, current } => match state {
            AppendedState::Reading { incoming } => match append_route(&columns, &incoming) {
                Err(e) => append_failed(e),
                Ok(AppendRoute::Plain) => (AppendedState::Committing, AppendedAction::Append),
                Ok(AppendRoute::Additive) => match current {
                    Some(at) => (AppendedState::Probing, AppendedAction::ProbeInline { at }),
                    None => (AppendedState::Writing, AppendedAction::WriteObjects),
                },
            },
            _ => append_early(),
        },
        AppendedEvent::Inline { rows } => match state {
            AppendedState::Probing => {
                if rows {
                    append_failed(
                        ControlPlaneError::Validation(
                            "schema evolution unsupported: flush inline rows before an additive land".to_owned(),
                        ),
                    )
                } else {
                    (AppendedState::Writing, AppendedAction::WriteObjects)
                }
            },
            _ => append_early(),
        },
        AppendedEvent::Written { files } => match state {
            AppendedState::Writing => match land_additive(&req.columns, &req.resolved, files) {
                Ok(steps) => (AppendedState::Committing, AppendedAction::Register { steps }),
                Err(e) => append_failed(e),
            },
            _ => append_early(),
        },
        AppendedEvent::Committed { snapshot } => match state {
            AppendedState::Committing => (
                AppendedState::Done,
                AppendedAction::Finish { snapshot },
            ),
            _ => append_early(),
        },
    }
}

/// The steps of a write that brings new columns: it is always an append, whatever it
/// carries along, and what is live stays live.
pub fn land_additive(
    columns: &Vec<ColumnSpec>,
    resolved: &Vec<Option<BaseType>>,
    files: Vec<DataFile>,
) -> (r: Result<Vec<RegisterStep>, ControlPlaneError>)
    requires
        columns@.len() == resolved@.len(),
        columns@.len() < i64::MAX,
    ensures
        match r {
            Ok(steps) => register_fault(WriteMode::Append, columns@, resolved@, files@) is None
                && are_register_steps(steps@, WriteMode::Append, columns@, resolved@, files@),
            Err(e) => register_fault(WriteMode::Append, columns@, resolved@, files@) == Some(e@),
        },
{
    register_files(WriteMode::Append, columns, resolved, files)
}

/// Nothing is written for a table whose live columns refuse the write, or which has
/// live inline rows that lack its new columns: files are written only behind a
/// comparison that found the write acceptable.
pub proof fn law_refused_columns_write_nothing(
    req: SnapshotAppend,
    state: AppendedState,
    event: AppendedEvent,
    next: AppendedState,
    action: AppendedAction,
)
    requires
        append_step(req, state, event, next, action),
        action is Append || action is WriteObjects,
    ensures
        match event {
            AppendedEvent::Live { columns, current } => state matches AppendedState::Reading {
                incoming,
            } && routed(columns@, incoming@) is Ok,
            AppendedEvent::Inline { rows } => state is Probing && !rows,
            _ => false,
        },
{
}

/// A file of the object store as a data file of the catalog.
pub fn object_data_file(
    path: String,
    record_count: u64,
    file_size_bytes: u64,
    column_stats: Vec<ColumnStat>,
) -> (r: DataFile)
    ensures
        r == (DataFile {
            path,
            path_is_relative: false,
            file_format: FileFormat::Parquet,
            record_count: record_count as i64,
            file_size_bytes: file_size_bytes as i64,
            column_stats,
            parquet_footer_size: None,
        }),
{
    DataFile {
        path,
        path_is_relative: false,
        file_format: FileFormat::Parquet,
        record_count: record_count as i64,
        file_size_bytes: file_size_bytes as i64,
        column_stats,
        parquet_footer_size: None,
    }
}

/// The first vector from `from` on that has not `n` elements. A missing one counts
/// for any number.
pub open spec fn first_misfit(lengths: Seq<Option<i32>>, n: int, from: int) -> Option<int>
    decreases lengths.len() - from,
{
    if from < 0 || from >= lengths.len() {
        None
    } else if lengths[from] is Some && lengths[from]->0 != n {
        Some(from)
    } else {
        first_misfit(lengths, n, from + 1)
    }
}

/// That a vector has not the declared number of elements.
pub open spec fn misfit(name: Seq<char>, row: int, len: int, n: int) -> Fault {
    Fault::Backend(
        "landing: vector "@ + debug_text(name) + " row "@ + nat_text(row as nat) + ": "@ + int_text(
            len,
        ) + " elements, want "@ + nat_text(n as nat),
    )
}

/// Whether every vector of a column has the declared number of elements.
fn check_lengths(name: &str, lengths: &Vec<Option<i32>>, n: u32) -> (r: Result<
    (),
    ControlPlaneError,
>)
    ensures
        match r {
            Ok(_) => first_misfit(lengths@, n as int, 0) is None,
            Err(e) => first_misfit(lengths@, n as int, 0) matches Some(i) && e@ == misfit(
                name@,
                i,
                lengths@[i]->0 as int,
                n as int,
            ),
        },
{
    let mut i: usize = 0;
    while i < lengths.len()
        invariant
            i <= lengths@.len(),
            first_misfit(lengths@, n as int, 0) == first_misfit(lengths@, n as int, i as int),
        decreases lengths@.len() - i,
    {
        match lengths[i] {
            Some(len) => {
                if (len as i64) != (n as i64) {
                    let mut s: String = "landing: vector ".to_owned();
                    s.append(debug_of(name).as_str());
                    s.append(" row ");
                    s.append(usize_text(i).as_str());
                    s.append(": ");
                    s.append(i64_text(len as i64).as_str());
                    s.append(" elements, want ");
                    s.append(u64_text(n as u64).as_str());
                    return Err(ControlPlaneError::Backend(s));
                }
            },
            None => {},
        }
        i = i + 1;
    }
    Ok(())
}

/// A field of the schema that a batch is brought under.
pub struct TargetField {
    pub name: String,
    pub is_list: bool,
}

/// Why a column of a batch cannot be brought under a field, where it cannot.
/// `lengths` are those of a column of lists, row by row.
pub open spec fn column_fault(
    field: TargetField,
    lengths: Option<Vec<Option<i32>>>,
    resolved: Seq<Option<BaseType>>,
    i: int,
) -> Option<Fault> {
    if !field.is_list {
        None
    } else {
        match lengths {
            None => Some(
                Fault::Backend("landing: column "@ + debug_text(field.name@) + " expected a list"@),
            ),
            Some(l) => if i >= resolved.len() {
                Some(Fault::Backend("landing: column index out of range"@))
            } else {
                match resolved[i] {
                    Some(BaseType::Vector(n)) => match first_misfit(l@, n as int, 0) {
                        Some(r) => Some(misfit(field.name@, r, l@[r]->0 as int, n as int)),
                        None => None,
                    },
                    _ => None,
                }
            },
        }
    }
}

/// The first column from `from` on that cannot be brought under its field.
pub open spec fn batch_fault(
    fields: Seq<TargetField>,
    data: Seq<Option<Vec<Option<i32>>>>,
    resolved: Seq<Option<BaseType>>,
    from: int,
) -> Option<Fault>
    decreases fields.len() - from,
{
    if from < 0 || from >= fields.len() {
        None
    } else {
        match column_fault(fields[from], data[from], resolved, from) {
            Some(e) => Some(e),
            None => batch_fault(fields, data, resolved, from + 1),
        }
    }
}

/// Whether a batch can be brought under a schema: a field of lists gets a column of
/// lists, and each vector has the number of elements that its type declares. `data`
/// gives for each column of lists the length of each row that is not null.
pub fn coerce_batch_to_ice(
    fields: &Vec<TargetField>,
    data: &Vec<Option<Vec<Option<i32>>>>,
    resolved: &Vec<Option<BaseType>>,
) -> (r: Result<(), ControlPlaneError>)
    requires
        fields@.len() <= data@.len(),
    ensures
        match r {
            Ok(_) => batch_fault(fields@, data@, resolved@, 0) is None,
            Err(e) => batch_fault(fields@, data@, resolved@, 0) == Some(e@),
        },
{
    let mut i: usize = 0;
    while i < fields.len()
        invariant
            i <= fields@.len() <= data@.len(),
            batch_fault(fields@, data@, resolved@, 0) == batch_fault(
                fields@,
                data@,
                resolved@,
                i as int,
            ),
        decreases fields@.len() - i,
    {
        let field: &TargetField = &fields[i];
        if field.is_list {
            match &data[i] {
                None => {
                    return Err(
                        ControlPlaneError::Backend(
                            concat3(
                                "landing: column ",
                                debug_of(field.name.as_str()).as_str(),
                                " expected a list",
                            ),
                        ),
                    );
                },
                Some(lengths) => {
                    if i >= resolved.len() {
                        return Err(
                            ControlPlaneError::Backend(
                                "landing: column index out of range".to_owned(),
                            ),
                        );
                    }
                    match resolved[i] {
                        Some(BaseType::Vector(n)) => {
                            match check_lengths(field.name.as_str(), lengths, n) {
                                Ok(_) => {},
                                Err(e) => {
                                    return Err(e);
                                },
                            }
                        },
                        _ => {},
                    }
                },
            }
        }
        i = i + 1;
    }
    Ok(())
}

/// The columns that place the rows of a write: each row is an insertion.
pub struct Stamps {
    pub kinds: Vec<String>,
    pub buckets: Vec<i32>,
    pub offsets: Vec<i64>,
}

/// The columns that place the rows of a write, from their places.
pub fn stamp_framing(frames: &Vec<(i32, i64)>) -> (r: Stamps)
    ensures
        r.kinds@.len() == frames@.len(),
        r.buckets@.len() == frames@.len(),
        r.offsets@.len() == frames@.len(),
        forall|i: int|
            0 <= i < frames@.len() ==> (#[trigger] r.kinds@[i])@ == "+I"@,
        forall|i: int| 0 <= i < frames@.len() ==> #[trigger] r.buckets@[i] == frames@[i].0,
        forall|i: int| 0 <= i < frames@.len() ==> #[trigger] r.offsets@[i] == frames@[i].1,
{
    let mut r = Stamps { kinds: Vec::new(), buckets: Vec::new(), offsets: Vec::new() };
    let mut i: usize = 0;
    while i < frames.len()
        invariant
            i <= frames@.len(),
            r.kinds@.len() == i,
            r.buckets@.len() == i,
            r.offsets@.len() == i,
            forall|j: int| 0 <= j < i ==> (#[trigger] r.kinds@[j])@ == "+I"@,
            forall|j: int| 0 <= j < i ==> #[trigger] r.buckets@[j] == frames@[j].0,
            forall|j: int| 0 <= j < i ==> #[trigger] r.offsets@[j] == frames@[j].1,
        decreases frames@.len() - i,
    {
        r.kinds.push("+I".to_owned());
        r.buckets.push(frames[i].0);
        r.offsets.push(frames[i].1);
        i = i + 1;
    }
    r
}

/// What is settled of a write before its size is known: what it declares, where its
/// columns are in the data unless they stand in its order, and the changelog that has
/// to be there first.
pub struct LandPlan {
    pub decl: StreamDecl,
    pub places: Option<Vec<usize>>,
    pub changelog: Option<TableRef>,
}

/// What is settled of a write before its size is known, or why it fails: the write
/// declares two things at once, or else the data lacks a column.
pub open spec fn is_land_plan(
    r: Result<LandPlan, ControlPlaneError>,
    table: TableRef,
    names: Seq<String>,
    columns: Seq<ColumnSpec>,
    stream_buckets: Option<i32>,
    cdc: Option<CdcDecl>,
) -> bool {
    match r {
        Err(e) => {
            ||| stream_buckets is Some && cdc is Some && e@ == Fault::Backend(
                "land: cannot request both a log and a cdc stream declaration"@,
            )
            ||| {
                &&& !(stream_buckets is Some && cdc is Some)
                &&& !aligned(names, columns)
                &&& first_absent(names, columns, 0) matches Some(i)
                &&& e@ == absent_column(columns[i].name@, names)
            }
        },
        Ok(plan) => {
            &&& declared(stream_buckets, cdc) == Ok::<StreamDecl, Fault>(plan.decl)
            &&& match plan.places {
                None => aligned(names, columns),
                Some(places) => !aligned(names, columns) && are_places(places@, names, columns),
            }
            &&& plan.changelog is Some == cdc is Some
            &&& plan.changelog matches Some(c) ==> c.schema@ == table.schema@ && c.name@
                == table.name@ + "__changelog"@
        },
    }
}

/// What is settled of a write before its size is known.
pub fn land_cdc(
    table: &TableRef,
    names: &Vec<String>,
    columns: &Vec<ColumnSpec>,
    stream_buckets: Option<i32>,
    cdc: Option<CdcDecl>,
) -> (r: Result<LandPlan, ControlPlaneError>)
    ensures
        is_land_plan(r, *table, names@, columns@, stream_buckets, cdc),
{
    let declares: bool = cdc.is_some();
    let decl: StreamDecl = match combine_stream_decl(stream_buckets, cdc) {
        Ok(d) => d,
        Err(e) => {
            return Err(e);
        },
    };
    match align_to_columns(names, columns) {
        Err(e) => Err(e),
        Ok(places) => {
            let changelog: Option<TableRef> = if declares {
                Some(changelog_table_ref(table))
            } else {
                None
            };
            Ok(LandPlan { decl, places, changelog })
        },
    }
}

/// What is settled of a write that declares no stream of changes.
pub fn land(
    table: &TableRef,
    names: &Vec<String>,
    columns: &Vec<ColumnSpec>,
    stream_buckets: Option<i32>,
) -> (r: Result<LandPlan, ControlPlaneError>)
    ensures
        is_land_plan(r, *table, names@, columns@, stream_buckets, None),
{
    land_cdc(table, names, columns, stream_buckets, None)
}

/// What the commit of new data carries along: its lineage, its jobs, and the firing of
/// the table's triggers, at a snapshot of its own or at one made before.
pub open spec fn are_write_extras(
    extras: CommitExtras,
    table: TableRef,
    lineage: LineageEvent,
    jobs: Vec<NewJob>,
    at: Option<i64>,
) -> bool {
    &&& extras.lineage == Some(lineage)
    &&& extras.end_cap is None
    &&& !extras.overwrite
    &&& extras.jobs == jobs
    &&& extras.data_trigger_tables@ == seq![table]
    &&& extras.reuse_snapshot == at
    &&& extras.intent is Removing
}

fn write_extras(table: &TableRef, lineage: LineageEvent, jobs: Vec<NewJob>, at: Option<i64>) -> (r:
    CommitExtras)
    ensures
        are_write_extras(r, *table, lineage, jobs, at),
{
    let mut tables: Vec<TableRef> = Vec::new();
    tables.push(table.duplicate());
    assert(tables@ =~= seq![*table]);
    CommitExtras {
        lineage: Some(lineage),
        end_cap: None,
        overwrite: false,
        jobs,
        data_trigger_tables: tables,
        reuse_snapshot: at,
        intent: EndCapIntent::Removing,
    }
}

/// What the commit of a stream write carries along: the whole write is at the snapshot
/// that its offsets were reserved at.
pub fn stream_extras(table: &TableRef, lineage: LineageEvent, jobs: Vec<NewJob>, at: i64) -> (r:
    CommitExtras)
    ensures
        are_write_extras(r, *table, lineage, jobs, Some(at)),
{
    write_extras(table, lineage, jobs, Some(at))
}

/// How a write becomes files.
pub enum ParquetRoute {
    /// As rows of a stream, each in its place.
    Stream { lineage: LineageEvent, jobs: Vec<NewJob> },
    /// As they are, with what the commit carries along.
    Batch { extras: CommitExtras },
}

/// How a write becomes files: `effective` is the claimed mode of the table.
pub fn land_parquet(table: &TableRef, effective: Option<i32>, lineage: LineageEvent, jobs: Vec<NewJob>) -> (r:
    ParquetRoute)
    ensures
        match effective {
            Some(_) => r == (ParquetRoute::Stream { lineage, jobs }),
            None => r matches ParquetRoute::Batch { extras } && are_write_extras(
                extras,
                *table,
                lineage,
                jobs,
                None,
            ),
        },
{
    match effective {
        Some(_) => ParquetRoute::Stream { lineage, jobs },
        None => ParquetRoute::Batch { extras: write_extras(table, lineage, jobs, None) },
    }
}

/// What is known of a table's mode before it is claimed: `recorded` is what is
/// recorded of it as a stream, where it is live. The mode of a live table is for
/// good, but for the attempt to make a stream of it, which must be claimed to be
/// refused.
pub open spec fn known_mode(recorded: Option<Option<i32>>, declares: bool) -> Option<Option<i32>> {
    match recorded {
        Some(buckets) => if buckets is Some || !declares {
            Some(buckets)
        } else {
            None
        },
        None => None,
    }
}

/// What is known of a table's mode before it is claimed.
pub fn claim_stream_mode(recorded: Option<Option<i32>>, declares: bool) -> (r: Option<Option<i32>>)
    ensures
        r == known_mode(recorded, declares),
{
    match recorded {
        Some(buckets) => {
            if buckets.is_some() || !declares {
                Some(buckets)
            } else {
                None
            }
        },
        None => None,
    }
}

/// A table that is recorded as a stream is landed as one, whatever the write
/// declares.
pub proof fn law_recorded_stream_stays_stream(buckets: i32, declares: bool)
    ensures
        known_mode(Some(Some(buckets)), declares) == Some(Some(buckets)),
{
}

/// A stream write: the table, how many batches it has, and how many rows together.
pub struct StreamLand {
    pub table: TableRef,
    pub batches: usize,
    pub rows: usize,
}

/// What has been found out.
pub enum LandEvent {
    Begin,
    /// The table is there, with the columns that place its rows, and is loaded.
    Loaded,
    /// The transaction is open: the snapshot, the table's number, and its mode.
    Opened { at: i64, tid: i64, effective: Option<i32> },
    /// The runs are reserved; each begins here.
    Reserved { firsts: Vec<i64> },
    /// How the attempt came out, and the error that it reported, where it did.
    Attempted { outcome: AttemptOutcome, error: ControlPlaneError },
    /// The transaction is committed.
    Committed,
    /// The wait is over and the table is loaded again.
    Waited,
    /// The last action failed.
    Failed { error: ControlPlaneError },
}

/// What is to be done.
pub enum LandAction {
    /// See to the table and load it.
    Load,
    /// Open a transaction, make a snapshot, see to the table's row, and settle its
    /// mode.
    Open,
    /// Reserve a run of offsets in each of these buckets.
    Reserve { runs: Vec<(i32, i64)> },
    /// Stamp the rows with their places, write them as a file, and commit the table
    /// at the snapshot.
    Write { frames: Vec<(i32, i64)> },
    /// Commit the transaction.
    Commit,
    /// Roll back, wait so many milliseconds, and load the table again.
    Wait { millis: u64 },
    /// The write is over, at this snapshot.
    Finish { snapshot: i64 },
    /// Roll back and report.
    Fail { error: ControlPlaneError },
}

/// How far the write has come.
pub enum LandState {
    Start,
    Loading,
    Opening { attempt: u32 },
    Reserving { attempt: u32, at: i64, bucket_count: usize, runs: Vec<(i32, i64)> },
    Writing { attempt: u32, at: i64 },
    Committing { at: i64 },
    Waiting { attempt: u32 },
    Done,
}

pub open spec fn fails(action: LandAction, e: Fault) -> bool {
    action matches LandAction::Fail { error } && error@ == e
}

/// The refusal of an event that does not belong here.
pub open spec fn out_of_turn(next: LandState, action: LandAction) -> bool {
    fails(action, Fault::Backend("stream land: event out of turn"@)) && next is Done
}

/// How many rows each bucket gets, where they are handed out in turn.
pub open spec fn turn_counts(rows: nat, bucket_count: int) -> Seq<i64> {
    Seq::new(bucket_count as nat, |b: int| count_of(in_turn(rows, bucket_count), b) as i64)
}

/// What the write does next, and where it then stands.
pub open spec fn land_step(
    req: StreamLand,
    state: LandState,
    event: LandEvent,
    next: LandState,
    action: LandAction,
) -> bool {
    match event {
        LandEvent::Failed { error } => fails(action, error@) && next is Done,
        LandEvent::Begin => if state is Start {
            if req.batches == 0 {
                fails(action, Fault::Validation("stream land: no batches"@)) && next is Done
            } else {
                action is Load && next is Loading
            }
        } else {
            out_of_turn(next, action)
        },
        LandEvent::Loaded => if state is Loading {
            action is Open && next == (LandState::Opening { attempt: 0 })
        } else {
            out_of_turn(next, action)
        },
        LandEvent::Opened { at, tid, effective } => match state {
            LandState::Opening { attempt } => match effective {
                None => fails(
                    action,
                    Fault::Backend(
                        "stream land: reconcile returned batch mode for a stream write"@,
                    ),
                ) && next is Done,
                Some(bc) => if bc < 0 {
                    fails(
                        action,
                        Fault::Backend(
                            "invalid stream bucket count "@ + int_text(bc as int)
                                + ": out of range integral type conversion attempted"@,
                        ),
                    ) && next is Done
                } else {
                    &&& action matches LandAction::Reserve { runs }
                    &&& runs@ == runs_of(turn_counts(req.rows as nat, bc as int))
                    &&& next matches LandState::Reserving {
                        attempt: a,
                        at: s,
                        bucket_count,
                        runs: kept,
                    }
                    &&& a == attempt
                    &&& s == at
                    &&& bucket_count == bc
                    &&& kept@ == runs@
                },
            },
            _ => out_of_turn(next, action),
        },
        LandEvent::Reserved { firsts } => match state {
            LandState::Reserving { attempt, at, bucket_count, runs } => {
                &&& action matches LandAction::Write { frames }
                &&& frames@ == frames_of(
                    in_turn(req.rows as nat, bucket_count as int),
                    starts_of(bucket_count as nat, runs@, firsts@),
                )
                &&& next == (LandState::Writing { attempt, at })
            },
            _ => out_of_turn(next, action),
        },
        LandEvent::Attempted { outcome, error } => match state {
            LandState::Writing { attempt, at } => match outcome {
                AttemptOutcome::Committed => action is Commit && next == (LandState::Committing {
                    at,
                }),
                AttemptOutcome::Beaten => if attempt < COMMIT_MAX_RETRIES {
                    &&& action matches LandAction::Wait { millis }
                    &&& millis == backoff_millis(seq![req.table.schema], req.table.name@, attempt)
                    &&& next == (LandState::Waiting { attempt: (attempt + 1) as u32 })
                } else {
                    fails(action, error@) && next is Done
                },
                AttemptOutcome::Failed => fails(action, error@) && next is Done,
            },
            _ => out_of_turn(next, action),
        },
        LandEvent::Committed => match state {
            LandState::Committing { at } => action == (LandAction::Finish { snapshot: at }) && next
                is Done,
            _ => out_of_turn(next, action),
        },
        LandEvent::Waited => match state {
            LandState::Waiting { attempt } => action is Open && next == (LandState::Opening {
                attempt,
            }),
            _ => out_of_turn(next, action),
        },
    }
}

/// What a state promises of itself.
pub open spec fn land_state_fits(req: StreamLand, state: LandState) -> bool {
    match state {
        LandState::Opening { attempt } => attempt <= COMMIT_MAX_RETRIES,
        LandState::Waiting { attempt } => attempt <= COMMIT_MAX_RETRIES,
        LandState::Writing { attempt, at } => attempt <= COMMIT_MAX_RETRIES,
        LandState::Reserving { attempt, at, bucket_count, runs } => {
            &&& attempt <= COMMIT_MAX_RETRIES
            &&& 0 < bucket_count <= i32::MAX
            &&& runs@ == runs_of(turn_counts(req.rows as nat, bucket_count as int))
        },
        _ => true,
    }
}

/// What the caller hands back belongs to what was asked: a stream has at least one
/// bucket, and the reserved runs are those asked for and fit.
pub open spec fn land_event_fits(state: LandState, event: LandEvent) -> bool {
    match event {
        LandEvent::Opened { effective, .. } => effective != Some(0i32),
        LandEvent::Reserved { firsts } => match state {
            LandState::Reserving { attempt, at, bucket_count, runs } => {
                &&& firsts@.len() == runs@.len()
                &&& forall|i: int|
                    0 <= i < runs@.len() ==> #[trigger] firsts@[i] + runs@[i].1 <= i64::MAX
            },
            _ => true,
        },
        _ => true,
    }
}

fn early() -> (r: (LandState, LandAction))
    ensures
        out_of_turn(r.0, r.1),
{
    (
        LandState::Done,
        LandAction::Fail {
            error: ControlPlaneError::Backend("stream land: event out of turn".to_owned()),
        },
    )
}

/// The runs of offsets that a write of so many rows reserves: each bucket its share.
pub fn share_runs(rows: usize, bucket_count: usize) -> (r: Vec<(i32, i64)>)
    requires
        0 < bucket_count <= i32::MAX,
        rows <= i64::MAX,
    ensures
        r@ == runs_of(turn_counts(rows as nat, bucket_count as int)),
{
    let mut counts: Vec<i64> = Vec::new();
    let mut b: usize = 0;
    while b < bucket_count
        invariant
            b <= bucket_count,
            0 < bucket_count <= i32::MAX,
            rows <= i64::MAX,
            counts@ == turn_counts(rows as nat, bucket_count as int).take(b as int),
        decreases bucket_count - b,
    {
        let share: usize = round_robin_share(rows, bucket_count, b);
        proof {
            crate::inline_append::lemma_count_within(
                in_turn(rows as nat, bucket_count as int),
                b as int,
            );
        }
        counts.push(share as i64);
        assert(counts@ =~= turn_counts(rows as nat, bucket_count as int).take(b + 1));
        b = b + 1;
    }
    assert(counts@ =~= turn_counts(rows as nat, bucket_count as int));
    reserve_runs(&counts)
}

/// The places of so many rows, from where the reserved runs begin.
pub fn allocate_row_framing(
    rows: usize,
    bucket_count: usize,
    runs: &Vec<(i32, i64)>,
    firsts: &Vec<i64>,
) -> (r: Vec<(i32, i64)>)
    requires
        0 < bucket_count <= i32::MAX,
        rows <= i64::MAX,
        runs@ == runs_of(turn_counts(rows as nat, bucket_count as int)),
        firsts@.len() == runs@.len(),
        forall|i: int| 0 <= i < runs@.len() ==> #[trigger] firsts@[i] + runs@[i].1 <= i64::MAX,
    ensures
        r@ == frames_of(
            in_turn(rows as nat, bucket_count as int),
            starts_of(bucket_count as nat, runs@, firsts@),
        ),
{
    let buckets: Vec<usize> = round_robin(rows, bucket_count);
    proof {
        lemma_runs(turn_counts(rows as nat, bucket_count as int));
        assert(turn_counts(rows as nat, bucket_count as int) =~= Seq::new(
            bucket_count as nat,
            |b: int| count_of(buckets@, b) as i64,
        ));
        lemma_runs_fit(buckets@, bucket_count as nat, runs@, firsts@);
    }
    let starts: Vec<i64> = run_starts(bucket_count, runs, firsts);
    frame_rows(&buckets, &starts)
}

/// What the write does next, given what came of the last action.
pub fn land_parquet_stream(req: &StreamLand, state: LandState, event: LandEvent) -> (r: (
    LandState,
    LandAction,
))
    requires
        req.rows <= i64::MAX,
        land_state_fits(*req, state),
        land_event_fits(state, event),
    ensures
        land_step(*req, state, event, r.0, r.1),
        land_state_fits(*req, r.0),
{
    match event {
        LandEvent::Failed { error } => (LandState::Done, LandAction::Fail { error }),
        LandEvent::Begin => match state {
            LandState::Start => {
                if req.batches == 0 {
                    (
                        LandState::Done,
                        LandAction::Fail {
                            error: ControlPlaneError::Validation(
                                "stream land: no batches".to_owned(),
                            ),
                        },
                    )
                } else {
                    (LandState::Loading, LandAction::Load)
                }
            },
            _ => early(),
        },
        LandEvent::Loaded => match state {
            LandState::Loading => (LandState::Opening { attempt: 0 }, LandAction::Open),
            _ => early(),
        },
        LandEvent::Opened { at, tid: _, effective } => match state {
            LandState::Opening { attempt } => match effective {
                None => (
                    LandState::Done,
                    LandAction::Fail {
                        error: ControlPlaneError::Backend(
                            "stream land: reconcile returned batch mode for a stream write".to_owned(),
                        ),
                    },
                ),
                Some(bc) => {
                    if bc < 0 {
                        (
                            LandState::Done,
                            LandAction::Fail {
                                error: ControlPlaneError::Backend(
                                    concat3(
                                        "invalid stream bucket count ",
                                        i64_text(bc as i64).as_str(),
                                        ": out of range integral type conversion attempted",
                                    ),
                                ),
                            },
                        )
                    } else {
                        let bucket_count: usize = bc as usize;
                        let runs: Vec<(i32, i64)> = share_runs(req.rows, bucket_count);
                        let kept: Vec<(i32, i64)> = share_runs(req.rows, bucket_count);
                        (
                            LandState::Reserving { attempt, at, bucket_count, runs: kept },
                            LandAction::Reserve { runs },
                        )
                    }
                },
            },
            _ => early(),
        },
        LandEvent::Reserved { firsts } => match state {
            LandState::Reserving { attempt, at, bucket_count, runs } => {
                let frames: Vec<(i32, i64)> = allocate_row_framing(
                    req.rows,
                    bucket_count,
                    &runs,
                    &firsts,
                );
                (LandState::Writing { attempt, at }, LandAction::Write { frames })
            },
            _ => early(),
        },
        LandEvent::Attempted { outcome, error } => match state {
            LandState::Writing { attempt, at } => {
                let mut namespace: Vec<String> = Vec::new();
                namespace.push(req.table.schema.clone());
                assert(namespace@ =~= seq![req.table.schema]);
                match commit_append_with_retry(
                    &namespace,
                    req.table.name.as_str(),
                    attempt,
                    outcome,
                ) {
                    RetryStep::Done => (LandState::Committing { at }, LandAction::Commit),
                    RetryStep::Again { millis } => (
                        LandState::Waiting { attempt: attempt + 1 },
                        LandAction::Wait { millis },
                    ),
                    RetryStep::GiveUp => (LandState::Done, LandAction::Fail { error }),
                }
            },
            _ => early(),
        },
        LandEvent::Committed => match state {
            LandState::Committing { at } => (LandState::Done, LandAction::Finish { snapshot: at }),
            _ => early(),
        },
        LandEvent::Waited => match state {
            LandState::Waiting { attempt } => (LandState::Opening { attempt }, LandAction::Open),
            _ => early(),
        },
    }
}

/// A stream write reserves its offsets anew in each attempt: nothing is written
/// under offsets that an earlier, rolled back attempt reserved.
pub proof fn law_each_attempt_reserves(
    req: StreamLand,
    state: LandState,
    event: LandEvent,
    next: LandState,
    action: LandAction,
)
    requires
        land_step(req, state, event, next, action),
        action is Write,
    ensures
        state is Reserving,
        event is Reserved,
{
}

/// Whether no batch has a row.
pub open spec fn all_empty(rows: Seq<usize>) -> bool {
    forall|i: int| 0 <= i < rows.len() ==> #[trigger] rows[i] == 0
}

/// Whether no batch has a row.
pub fn no_rows(rows: &Vec<usize>) -> (r: bool)
    ensures
        r == all_empty(rows@),
{
    let mut i: usize = 0;
    while i < rows.len()
        invariant
            i <= rows@.len(),
            forall|j: int| 0 <= j < i ==> #[trigger] rows@[j] == 0,
        decreases rows@.len() - i,
    {
        if rows[i] != 0 {
            return false;
        }
        i = i + 1;
    }
    true
}

/// One target of a write to several tables: the table, whether what is there is
/// replaced, and how many rows each batch has.
pub struct StepLand {
    pub table: TableRef,
    pub overwrite: bool,
    pub rows: Vec<usize>,
}

/// What a write to several tables does in its transaction.
pub enum LandStep {
    /// Make the one snapshot of the write.
    Snapshot,
    /// Refuse a table that is a stream, which ends the write.
    RefuseStream { table: TableRef },
    /// Register the files of a target, by its place, in its mode.
    Register { target: usize, mode: WriteMode },
    /// Record the lineage.
    Emit,
    /// Fire the data triggers of the tables that were written, for a run.
    Fire { tables: Vec<TableRef>, run: u128 },
    /// Queue a job, by its place, where it is not queued yet.
    Enqueue { job: usize },
    /// Commit.
    Commit,
}

/// What a write to several tables does. Files are written first, for the targets of
/// which `writes` says so; a replacement by nothing writes none. Then `steps` run in
/// one transaction.
pub struct StepsPlan {
    pub writes: Vec<bool>,
    pub steps: Vec<LandStep>,
}

/// How the files of a target come into its table.
pub open spec fn step_mode(step: StepLand) -> WriteMode {
    if step.overwrite {
        WriteMode::Overwrite
    } else {
        WriteMode::Append
    }
}

/// The steps of a write in its transaction: one snapshot, the refusal of each table of
/// `refused` in turn, the registration of each target in turn, the lineage, the
/// triggers of the targets' tables for the run, `jobs` jobs in turn, and the commit.
pub open spec fn is_step_list(
    list: Seq<LandStep>,
    refused: Seq<TableRef>,
    steps: Seq<StepLand>,
    run: u128,
    jobs: nat,
) -> bool {
    let first = 1 + refused.len() as int;
    let emit = first + steps.len();
    let queue = emit + 2;
    &&& list.len() == queue + jobs + 1
    &&& list[0] is Snapshot
    &&& forall|p: int|
        1 <= p < first ==> #[trigger] list[p] == (LandStep::RefuseStream { table: refused[p - 1] })
    &&& forall|p: int|
        first <= p < emit ==> #[trigger] list[p] == (LandStep::Register {
            target: (p - first) as usize,
            mode: step_mode(steps[p - first]),
        })
    &&& list[emit] is Emit
    &&& list[emit + 1] matches LandStep::Fire { tables, run: r }
    &&& tables@ == Seq::new(steps.len(), |i: int| steps[i].table)
    &&& r == run
    &&& forall|p: int|
        queue <= p < queue + jobs ==> #[trigger] list[p] == (LandStep::Enqueue {
            job: (p - queue) as usize,
        })
    &&& list[queue + jobs] is Commit
}

/// The tables are in order, each once.
pub open spec fn tables_sorted(list: Seq<TableRef>) -> bool {
    forall|i: int, j: int|
        0 <= i < j < list.len() ==> TableRef::before((#[trigger] list[i])@, (#[trigger] list[j])@)
}

/// A write makes its snapshot before anything else and commits after everything else.
/// Every table is asked for a stream before any files are registered, all files are
/// registered before the lineage is recorded, and the lineage is recorded before a
/// trigger fires or a job is queued.
pub proof fn law_steps_are_one_transaction(
    list: Seq<LandStep>,
    refused: Seq<TableRef>,
    steps: Seq<StepLand>,
    run: u128,
    jobs: nat,
    p: int,
    q: int,
)
    requires
        is_step_list(list, refused, steps, run, jobs),
        0 <= p < list.len(),
        0 <= q < list.len(),
    ensures
        list[p] is Snapshot <==> p == 0,
        list[p] is Commit <==> p == list.len() - 1,
        list[p] is RefuseStream && list[q] is Register ==> p < q,
        list[p] is Register && list[q] is Emit ==> p < q,
        list[p] is Emit && list[q] is Fire ==> p < q,
        list[p] is Emit && list[q] is Enqueue ==> p < q,
{
}

/// The tables of the targets.
pub open spec fn step_tables(steps: Seq<StepLand>) -> Set<TableKey> {
    Set::new(|k: TableKey| exists|i: int| 0 <= i < steps.len() && (#[trigger] steps[i]).table@ == k)
}

/// The tables of a set stand in a list, and no others.
pub open spec fn lists_tables(list: Seq<TableRef>, tables: Set<TableKey>) -> bool {
    &&& forall|i: int| 0 <= i < list.len() ==> tables.contains((#[trigger] list[i])@)
    &&& forall|k: TableKey| #[trigger]
        tables.contains(k) ==> exists|i: int| 0 <= i < list.len() && (#[trigger] list[i])@ == k
}

/// The plan of a write to several tables, recorded by `lineage` and with `jobs` behind
/// it. Each of the tables, in order, is refused where it is a stream.
pub fn write_steps(steps: &Vec<StepLand>, lineage: &LineageEvent, jobs: &Vec<NewJob>) -> (r: Result<
    StepsPlan,
    ControlPlaneError,
>)
    ensures
        match r {
            Err(e) => steps@.len() == 0 && e@ == Fault::Validation("write_steps: no targets"@),
            Ok(plan) => {
                &&& steps@.len() > 0
                &&& plan.writes@.len() == steps@.len()
                &&& forall|i: int|
                    0 <= i < steps@.len() ==> #[trigger] plan.writes@[i] == !(steps@[i].overwrite
                        && all_empty(steps@[i].rows@))
                &&& exists|refused: Seq<TableRef>|
                    tables_sorted(refused) && lists_tables(refused, step_tables(steps@))
                        && #[trigger] is_step_list(
                        plan.steps@,
                        refused,
                        steps@,
                        lineage.run_id,
                        jobs@.len(),
                    )
            },
        },
{
    if steps.len() == 0 {
        return Err(ControlPlaneError::Validation("write_steps: no targets".to_owned()));
    }
    let mut writes: Vec<bool> = Vec::new();
    let mut tables: OrderedSet<TableRef> = OrderedSet::new();
    let mut i: usize = 0;
    assert(tables@ =~= step_tables(steps@.take(0)));
    while i < steps.len()
        invariant
            i <= steps@.len(),
            writes@.len() == i,
            tables.wf(),
            tables@ == step_tables(steps@.take(i as int)),
            forall|j: int|
                0 <= j < i ==> #[trigger] writes@[j] == !(steps@[j].overwrite && all_empty(
                    steps@[j].rows@,
                )),
        decreases steps@.len() - i,
    {
        let s: &StepLand = &steps[i];
        writes.push(!(s.overwrite && no_rows(&s.rows)));
        tables.insert(s.table.duplicate());
        proof {
            let a = steps@.take(i as int);
            let b = steps@.take(i + 1);
            assert forall|k: TableKey| #[trigger] tables@.contains(k) == step_tables(b).contains(k) by {
                if step_tables(a).contains(k) {
                    let j = choose|j: int| 0 <= j < a.len() && (#[trigger] a[j]).table@ == k;
                    assert(b[j].table@ == k);
                }
                if step_tables(b).contains(k) && k != s.table@ {
                    let j = choose|j: int| 0 <= j < b.len() && (#[trigger] b[j]).table@ == k;
                    assert(a[j].table@ == k);
                }
                assert(b[i as int].table@ == s.table@);
            }
            assert(tables@ =~= step_tables(b));
        }
        i = i + 1;
    }
    assert(steps@.take(i as int) =~= steps@);
    let list: Vec<&TableRef> = elements_of(&tables);
    let mut refused: Vec<TableRef> = Vec::new();
    let mut k: usize = 0;
    while k < list.len()
        invariant
            k <= list@.len(),
            refused@.len() == k,
            forall|j: int| 0 <= j < k ==> #[trigger] refused@[j] == *list@[j],
        decreases list@.len() - k,
    {
        refused.push(list[k].duplicate());
        k = k + 1;
    }
    proof {
        let all = step_tables(steps@);
        assert(all == tables@);
        assert forall|t: TableKey| #[trigger] all.contains(t) implies exists|j: int|
            0 <= j < refused@.len() && (#[trigger] refused@[j])@ == t by {
            assert(tables@.contains(t));
            let j = choose|j: int| 0 <= j < list@.len() && (#[trigger] list@[j]).model() == t;
            assert(refused@[j]@ == t);
        }
        assert forall|j: int| 0 <= j < refused@.len() implies all.contains((#[trigger] refused@[j])@) by {
            assert(list@[j].model() == refused@[j]@);
        }
    }
    let listed: Vec<LandStep> = list_steps(&refused, steps, lineage.run_id, jobs.len());
    let plan = StepsPlan { writes, steps: listed };
    assert(tables_sorted(refused@) && lists_tables(refused@, step_tables(steps@)));
    assert(is_step_list(plan.steps@, refused@, steps@, lineage.run_id, jobs@.len()));
    Ok(plan)
}

/// The steps of a write in its transaction.
fn list_steps(refused: &Vec<TableRef>, steps: &Vec<StepLand>, run: u128, jobs: usize) -> (r: Vec<
    LandStep,
>)
    ensures
        is_step_list(r@, refused@, steps@, run, jobs as nat),
{
    let mut out: Vec<LandStep> = Vec::new();
    out.push(LandStep::Snapshot);
    let mut i: usize = 0;
    while i < refused.len()
        invariant
            i <= refused@.len(),
            out@.len() == 1 + i,
            out@[0] is Snapshot,
            forall|p: int|
                1 <= p < out@.len() ==> #[trigger] out@[p] == (LandStep::RefuseStream {
                    table: refused@[p - 1],
                }),
        decreases refused@.len() - i,
    {
        out.push(LandStep::RefuseStream { table: refused[i].duplicate() });
        i = i + 1;
    }
    let ghost first = 1 + refused@.len();
    let mut tables: Vec<TableRef> = Vec::new();
    let mut k: usize = 0;
    while k < steps.len()
        invariant
            k <= steps@.len(),
            first == 1 + refused@.len(),
            out@.len() == first + k,
            tables@ == Seq::new(k as nat, |j: int| steps@[j].table),
            out@[0] is Snapshot,
            forall|p: int|
                1 <= p < first ==> #[trigger] out@[p] == (LandStep::RefuseStream {
                    table: refused@[p - 1],
                }),
            forall|p: int|
                first <= p < out@.len() ==> #[trigger] out@[p] == (LandStep::Register {
                    target: (p - first) as usize,
                    mode: step_mode(steps@[p - first]),
                }),
        decreases steps@.len() - k,
    {
        let mode: WriteMode = if steps[k].overwrite {
            WriteMode::Overwrite
        } else {
            WriteMode::Append
        };
        out.push(LandStep::Register { target: k, mode });
        tables.push(steps[k].table.duplicate());
        assert(tables@ =~= Seq::new((k + 1) as nat, |j: int| steps@[j].table));
        k = k + 1;
    }
    out.push(LandStep::Emit);
    out.push(LandStep::Fire { tables, run });
    let ghost before = out@;
    let ghost queue = first + steps@.len() + 2;
    let mut j: usize = 0;
    while j < jobs
        invariant
            j <= jobs,
            before.len() == queue,
            out@.len() == queue + j,
            forall|p: int| 0 <= p < queue ==> #[trigger] out@[p] == before[p],
            forall|p: int|
                queue <= p < out@.len() ==> #[trigger] out@[p] == (LandStep::Enqueue {
                    job: (p - queue) as usize,
                }),
        decreases jobs - j,
    {
        out.push(LandStep::Enqueue { job: j });
        j = j + 1;
    }
    out.push(LandStep::Commit);
    assert(before[0] is Snapshot);
    out
}

/// What replacing a table's contents does. `consumed` says whether the inline rows
/// that go are named; otherwise all live ones go.
pub enum OverwriteStep {
    /// Refuse a table that is a stream.
    RefuseStream,
    /// Make a snapshot and see to the table's row.
    Snapshot,
    /// Retire every live file.
    CapFiles { intent: EndCapIntent },
    /// Retire the named inline rows.
    CapConsumed { intent: EndCapIntent },
    /// Retire every live inline row.
    CapInline { intent: EndCapIntent },
    /// Record the lineage.
    Emit,
    /// Queue the jobs.
    Enqueue,
    /// Fire the data triggers.
    Fire,
    /// Commit.
    Commit,
}

/// The steps of replacing a table's contents by nothing, in one transaction.
pub open spec fn truncate_steps(framed: bool, consumed: bool, lineage: bool) -> Seq<OverwriteStep> {
    (if framed {
        Seq::empty()
    } else {
        seq![OverwriteStep::RefuseStream]
    }) + seq![
        OverwriteStep::Snapshot,
        OverwriteStep::CapFiles { intent: EndCapIntent::Removing },
    ] + (if consumed {
        seq![OverwriteStep::CapConsumed { intent: EndCapIntent::Removing }]
    } else {
        seq![OverwriteStep::CapInline { intent: EndCapIntent::Removing }]
    }) + (if lineage {
        seq![OverwriteStep::Emit]
    } else {
        Seq::empty()
    }) + seq![OverwriteStep::Enqueue, OverwriteStep::Fire, OverwriteStep::Commit]
}

/// The steps of replacing a table's contents by nothing. `framed` says whether the
/// caller may replace the contents of a stream.
pub fn overwrite_truncate(framed: bool, consumed: bool, lineage: bool) -> (r: Vec<OverwriteStep>)
    ensures
        r@ == truncate_steps(framed, consumed, lineage),
{
    let mut out: Vec<OverwriteStep> = Vec::new();
    if !framed {
        out.push(OverwriteStep::RefuseStream);
    }
    out.push(OverwriteStep::Snapshot);
    out.push(OverwriteStep::CapFiles { intent: EndCapIntent::Removing });
    if consumed {
        out.push(OverwriteStep::CapConsumed { intent: EndCapIntent::Removing });
    } else {
        out.push(OverwriteStep::CapInline { intent: EndCapIntent::Removing });
    }
    if lineage {
        out.push(OverwriteStep::Emit);
    }
    out.push(OverwriteStep::Enqueue);
    out.push(OverwriteStep::Fire);
    out.push(OverwriteStep::Commit);
    assert(out@ =~= truncate_steps(framed, consumed, lineage));
    out
}

/// How a table's contents are replaced.
pub enum OverwriteWay {
    /// By nothing: these steps, with what they record, retire and queue.
    Truncate {
        steps: Vec<OverwriteStep>,
        lineage: Option<LineageEvent>,
        consumed: Option<InlineEndCap>,
        jobs: Vec<NewJob>,
    },
    /// By new files, with what their commit carries along.
    Replace { extras: CommitExtras },
}

/// The plan of replacing a table's contents: whether a stream is to be refused first,
/// whether the new rows have places, and how it is done.
pub struct OverwritePlan {
    pub refuse_stream: bool,
    pub framed: bool,
    pub way: OverwriteWay,
}

/// The plan of replacing a table's contents. Rows leave the table for good, so its
/// readers hold back what they have not read. Where the caller consumed certain inline
/// rows, those end and the others stay.
pub open spec fn is_overwrite_plan(
    plan: OverwritePlan,
    table: TableRef,
    framed: bool,
    rows: Seq<usize>,
    jobs: Seq<NewJob>,
    lineage: Option<LineageEvent>,
    consumed: Option<InlineEndCap>,
) -> bool {
    &&& plan.refuse_stream == !framed
    &&& plan.framed == framed
    &&& if all_empty(rows) {
        &&& plan.way matches OverwriteWay::Truncate { steps, lineage: l, consumed: c, jobs: j }
        &&& steps@ == truncate_steps(framed, consumed is Some, lineage is Some)
        &&& l == lineage
        &&& c == consumed
        &&& j@ == jobs
    } else {
        &&& plan.way matches OverwriteWay::Replace { extras }
        &&& extras.lineage == lineage
        &&& extras.end_cap == consumed
        &&& extras.overwrite
        &&& extras.jobs@ == jobs
        &&& extras.data_trigger_tables@ == seq![table]
        &&& extras.reuse_snapshot is None
        &&& extras.intent is Removing
    }
}

/// The plan of replacing a table's contents: the jobs that rebuild its indexes come
/// before the caller's own.
pub fn overwrite_with_cap(
    table: &TableRef,
    framed: bool,
    rows: &Vec<usize>,
    rebuild: Vec<NewJob>,
    jobs: Vec<NewJob>,
    lineage: Option<LineageEvent>,
    consumed: Option<InlineEndCap>,
) -> (r: OverwritePlan)
    ensures
        is_overwrite_plan(r, *table, framed, rows@, rebuild@ + jobs@, lineage, consumed),
{
    let mut all: Vec<NewJob> = rebuild;
    let mut own: Vec<NewJob> = jobs;
    all.append(&mut own);
    let way: OverwriteWay = if no_rows(rows) {
        let steps: Vec<OverwriteStep> = overwrite_truncate(
            framed,
            consumed.is_some(),
            lineage.is_some(),
        );
        OverwriteWay::Truncate { steps, lineage, consumed, jobs: all }
    } else {
        let mut tables: Vec<TableRef> = Vec::new();
        tables.push(table.duplicate());
        assert(tables@ =~= seq![*table]);
        OverwriteWay::Replace {
            extras: CommitExtras {
                lineage,
                end_cap: consumed,
                overwrite: true,
                jobs: all,
                data_trigger_tables: tables,
                reuse_snapshot: None,
                intent: EndCapIntent::Removing,
            },
        }
    };
    OverwritePlan { refuse_stream: !framed, framed, way }
}

/// The plan of replacing all of a table that is no stream: every live inline row ends.
pub fn overwrite_parquet_snapshot(
    table: &TableRef,
    rows: &Vec<usize>,
    rebuild: Vec<NewJob>,
    jobs: Vec<NewJob>,
    lineage: Option<LineageEvent>,
) -> (r: OverwritePlan)
    ensures
        is_overwrite_plan(r, *table, false, rows@, rebuild@ + jobs@, lineage, None),
{
    overwrite_with_cap(table, false, rows, rebuild, jobs, lineage, None)
}

/// The plan of replacing a table that is no stream by what certain inline rows were
/// folded into: those end, and the others stay.
pub fn overwrite_parquet_snapshot_consuming(
    table: &TableRef,
    rows: &Vec<usize>,
    rebuild: Vec<NewJob>,
    lineage: Option<LineageEvent>,
    consumed: InlineEndCap,
) -> (r: OverwritePlan)
    ensures
        is_overwrite_plan(r, *table, false, rows@, rebuild@, lineage, Some(consumed)),
{
    assert(rebuild@ + Seq::<NewJob>::empty() =~= rebuild@);
    overwrite_with_cap(table, false, rows, rebuild, Vec::new(), lineage, Some(consumed))
}

/// The plan of replacing the base of a stream by what its rows were folded into. No
/// other replacement of a stream is let through.
pub fn overwrite_stream_base(
    table: &TableRef,
    rows: &Vec<usize>,
    rebuild: Vec<NewJob>,
    lineage: Option<LineageEvent>,
    consumed: Option<InlineEndCap>,
) -> (r: OverwritePlan)
    ensures
        is_overwrite_plan(r, *table, true, rows@, rebuild@, lineage, consumed),
{
    assert(rebuild@ + Seq::<NewJob>::empty() =~= rebuild@);
    overwrite_with_cap(table, true, rows, rebuild, Vec::new(), lineage, consumed)
}

/// A replacement of a stream by rows without places is refused before it does anything
/// else, even where it is by nothing.
pub proof fn law_unframed_overwrite_refuses_streams(
    plan: OverwritePlan,
    table: TableRef,
    rows: Seq<usize>,
    jobs: Seq<NewJob>,
    lineage: Option<LineageEvent>,
    consumed: Option<InlineEndCap>,
)
    requires
        is_overwrite_plan(plan, table, false, rows, jobs, lineage, consumed),
    ensures
        plan.refuse_stream,
        plan.way matches OverwriteWay::Truncate { steps, .. } ==> steps@[0] is RefuseStream,
{
}

/// A primitive type of Iceberg that columns have.
#[derive(Clone, Copy, Debug, PartialEq, Eq, Structural)]
pub enum Primitive {
    Int,
    Long,
    Double,
    Boolean,
    String,
    Date,
    Timestamp,
}

/// The primitive type of an Iceberg type name.
pub open spec fn primitive_of(name: Seq<char>) -> Option<Primitive> {
    if name == "int"@ {
        Some(Primitive::Int)
    } else if name == "long"@ {
        Some(Primitive::Long)
    } else if name == "double"@ {
        Some(Primitive::Double)
    } else if name == "boolean"@ {
        Some(Primitive::Boolean)
    } else if name == "string"@ {
        Some(Primitive::String)
    } else if name == "date"@ {
        Some(Primitive::Date)
    } else if name == "timestamp"@ {
        Some(Primitive::Timestamp)
    } else {
        None
    }
}

/// The primitive type of a logical type name.
pub fn primitive_from(logical: &str) -> (r: Result<Primitive, ControlPlaneError>)
    ensures
        match r {
            Ok(p) => to_iceberg(logical@) is Some && primitive_of(to_iceberg(logical@)->0) == Some(p),
            Err(e) => to_iceberg(logical@) is None && e@ == Fault::Backend(
                "landing: no iceberg type for "@ + debug_text(logical@),
            ),
        },
{
    match iceberg_physical_type(logical) {
        None => Err(
            ControlPlaneError::Backend(
                concat("landing: no iceberg type for ", debug_of(logical).as_str()),
            ),
        ),
        Some(name) => {
            if str_same(name, "int") {
                Ok(Primitive::Int)
            } else if str_same(name, "long") {
                Ok(Primitive::Long)
            } else if str_same(name, "double") {
                Ok(Primitive::Double)
            } else if str_same(name, "boolean") {
                Ok(Primitive::Boolean)
            } else if str_same(name, "string") {
                Ok(Primitive::String)
            } else if str_same(name, "date") {
                Ok(Primitive::Date)
            } else {
                Ok(Primitive::Timestamp)
            }
        },
    }
}

/// The type of a field of an Iceberg schema.
#[derive(Clone, Copy, Debug, PartialEq, Eq, Structural)]
pub enum IceType {
    Primitive(Primitive),
    /// A list of single-precision numbers, whose elements are the field of this
    /// number; `dimension` is kept in the documentation of the column.
    Vector { element_id: i32, dimension: u32 },
}

/// A field of an Iceberg schema.
#[derive(Debug)]
pub struct IceField {
    pub id: i32,
    pub name: String,
    pub required: bool,
    pub ty: IceType,
}

/// How many field numbers a column takes: a vector one more, for its elements.
pub open spec fn ids_taken(resolved: Seq<Option<BaseType>>) -> int
    decreases resolved.len(),
{
    if resolved.len() == 0 {
        0
    } else {
        ids_taken(resolved.drop_last()) + (if resolved.last() matches Some(BaseType::Vector(n)) {
            2int
        } else {
            1int
        })
    }
}

/// The field of a column, numbered behind those before it.
pub open spec fn is_ice_field(f: IceField, c: ColumnSpec, resolved: Option<BaseType>, id: int) -> bool {
    &&& f.id == id
    &&& f.name@ == c.name@
    &&& f.required == !c.nullable
    &&& match resolved {
        Some(BaseType::Vector(n)) => f.ty == (IceType::Vector {
            element_id: (id + 1) as i32,
            dimension: n,
        }),
        _ => to_iceberg(c.ty@) is Some && (primitive_of(to_iceberg(c.ty@)->0) matches Some(p)
            && f.ty == IceType::Primitive(p)),
    }
}

/// The first column from `from` on that has no Iceberg type.
pub open spec fn first_untyped_field(
    columns: Seq<ColumnSpec>,
    resolved: Seq<Option<BaseType>>,
    from: int,
) -> Option<int>
    decreases columns.len() - from,
{
    if from < 0 || from >= columns.len() {
        None
    } else if !(resolved[from] matches Some(BaseType::Vector(n))) && to_iceberg(columns[from].ty@) is None {
        Some(from)
    } else {
        first_untyped_field(columns, resolved, from + 1)
    }
}

/// The fields of the Iceberg schema of `columns`: numbered from 1 in their order, a
/// vector's elements right behind it.
pub fn ice_schema(columns: &Vec<ColumnSpec>, resolved: &Vec<Option<BaseType>>) -> (r: Result<
    Vec<IceField>,
    ControlPlaneError,
>)
    requires
        columns@.len() == resolved@.len(),
        2 * columns@.len() + 2 <= i32::MAX,
    ensures
        match r {
            Ok(fields) => {
                &&& first_untyped_field(columns@, resolved@, 0) is None
                &&& fields@.len() == columns@.len()
                &&& forall|i: int|
                    0 <= i < columns@.len() ==> is_ice_field(
                        #[trigger] fields@[i],
                        columns@[i],
                        resolved@[i],
                        1 + ids_taken(resolved@.take(i)),
                    )
            },
            Err(e) => first_untyped_field(columns@, resolved@, 0) matches Some(i) && e@
                == Fault::Backend("landing: no iceberg type for "@ + debug_text(columns@[i].ty@)),
        },
{
    let mut next_id: i32 = 1;
    let mut out: Vec<IceField> = Vec::new();
    let mut i: usize = 0;
    assert(resolved@.take(0) =~= Seq::empty());
    while i < columns.len()
        invariant
            i <= columns@.len(),
            2 * columns@.len() + 2 <= i32::MAX,
            columns@.len() == resolved@.len(),
            next_id == 1 + ids_taken(resolved@.take(i as int)),
            next_id <= 1 + 2 * i,
            out@.len() == i,
            first_untyped_field(columns@, resolved@, 0) == first_untyped_field(
                columns@,
                resolved@,
                i as int,
            ),
            forall|j: int|
                0 <= j < i ==> is_ice_field(
                    #[trigger] out@[j],
                    columns@[j],
                    resolved@[j],
                    1 + ids_taken(resolved@.take(j)),
                ),
        decreases columns@.len() - i,
    {
        assert(resolved@.take(i + 1).drop_last() =~= resolved@.take(i as int));
        let c: &ColumnSpec = &columns[i];
        let id: i32 = next_id;
        let ty: IceType = match resolved[i] {
            Some(BaseType::Vector(n)) => {
                next_id = next_id + 2;
                IceType::Vector { element_id: id + 1, dimension: n }
            },
            _ => {
                next_id = next_id + 1;
                match primitive_from(c.ty.as_str()) {
                    Ok(p) => IceType::Primitive(p),
                    Err(e) => {
                        return Err(e);
                    },
                }
            },
        };
        out.push(IceField { id, name: c.name.clone(), required: !c.nullable, ty });
        i = i + 1;
    }
    Ok(out)
}

/// No two fields of a schema, the elements of vectors among them, have one number.
pub proof fn law_field_numbers_are_unique(resolved: Seq<Option<BaseType>>, i: int, j: int)
    requires
        0 <= i < j < resolved.len(),
    ensures
        1 + ids_taken(resolved.take(i)) + (if resolved[i] matches Some(BaseType::Vector(n)) {
            1int
        } else {
            0int
        }) < 1 + ids_taken(resolved.take(j)),
    decreases j - i,
{
    assert(resolved.take(i + 1).drop_last() =~= resolved.take(i));
    if j > i + 1 {
        law_field_numbers_are_unique(resolved, i, j - 1);
        assert(resolved.take(j).drop_last() =~= resolved.take(j - 1));
    }
}

} // verus!
