//! What holds of a write on its way into the files: what it declares, which columns and
//! files come into the mirror and in which steps, and when it is tried again.
use crate::commit_mirror::{CommitExtras, InlineEndCap};
use crate::error::Fault;
use crate::framing::in_turn;
use crate::iceberg_landing::{
    all_empty, append_step, are_physical, are_register_steps, are_registered, are_write_extras,
    batch_fault, column_fault, declared, first_absent, first_misfit, ids_taken, is_ice_field,
    is_land_plan, is_overwrite_plan, is_step_list, known_mode, land_step, primitive_of,
    register_fault, routed, total, turn_counts, AppendRoute, AppendedAction, AppendedEvent,
    AppendedState, CdcDecl, IceField, IceType, LandAction, LandEvent, LandPlan, LandState, LandStep,
    OverwritePlan, OverwriteStep, OverwriteWay, Primitive, RegisterStep, SnapshotAppend, StepLand,
    StreamDecl, StreamLand, TargetField, WriteMode,
};
use crate::error::ControlPlaneError;
use crate::iceberg_mirror::ProjectedColumn;
use crate::iceberg_schema_evolution::{law_accepted_iff_additive, schema_refusal};
use crate::iceberg_type::{mirror_type, BaseType};
use crate::iceberg_writer::AttemptOutcome;
use crate::mv_floor::EndCapIntent;
use crate::names::name_place;
use crate::types::{ColumnSpec, DataFile, FileFormat, LineageEvent, NewJob, TableRef};
use vstd::prelude::*;

verus! {

/// A write may declare a log or a stream of changes, but not both; it then declares just
/// that, with its buckets, its key and its way of merging, and otherwise nothing.
pub proof fn law_write_declares_one_thing(stream_buckets: Option<i32>, cdc: Option<CdcDecl>)
    ensures
        declared(stream_buckets, cdc) is Err <==> stream_buckets is Some && cdc is Some,
        stream_buckets is None && cdc is None ==> declared(stream_buckets, cdc) == Ok::<StreamDecl, Fault>(
            StreamDecl::Batch,
        ),
        stream_buckets is Some && cdc is None ==> declared(stream_buckets, cdc) == Ok::<StreamDecl, Fault>(
            StreamDecl::Log(stream_buckets->0),
        ),
        stream_buckets is None && cdc is Some ==> (declared(stream_buckets, cdc)->Ok_0 matches StreamDecl::Cdc {
            buckets,
            bucket_key,
            merge_engine,
        } && buckets == (cdc->0).buckets && bucket_key == (cdc->0).bucket_key && merge_engine == (
        cdc->0).merge_engine),
{
}

/// A write whose data has every column is taken, and each column is read from the first
/// place of its name; one whose data stands in the order of the columns is read as it is.
/// A stream of changes gets a changelog, named after its table, and no other write does.
pub proof fn law_columns_are_read_by_name(
    r: Result<LandPlan, ControlPlaneError>,
    table: TableRef,
    names: Seq<String>,
    columns: Seq<ColumnSpec>,
    stream_buckets: Option<i32>,
    cdc: Option<CdcDecl>,
    i: int,
)
    requires
        is_land_plan(r, table, names, columns, stream_buckets, cdc),
        0 <= i < columns.len(),
    ensures
        stream_buckets is Some && cdc is Some ==> r is Err,
        r matches Ok(plan) ==> {
            &&& plan.places matches Some(places) ==> {
                &&& places@.len() == columns.len()
                &&& 0 <= places@[i] < names.len()
                &&& names[places@[i] as int]@ == columns[i].name@
                &&& forall|q: int| 0 <= q < places@[i] ==> (#[trigger] names[q])@ != columns[i].name@
            }
            &&& plan.places is None ==> names.len() == columns.len() && names[i]@ == columns[i].name@
            &&& plan.changelog is Some <==> cdc is Some
            &&& plan.changelog matches Some(c) ==> c.schema@ == table.schema@ && c.name@ == table.name@
                + "__changelog"@
        },
        !(stream_buckets is Some && cdc is Some) && (forall|c: int|
            0 <= c < columns.len() ==> exists|p: int|
                0 <= p < names.len() && (#[trigger] names[p])@ == (#[trigger] columns[c]).name@)
            ==> r is Ok,
{
    if r is Ok {
        let plan = r->Ok_0;
        if plan.places is Some {
            lemma_first_place(names, columns[i].name@, 0);
            assert(name_place(names, columns[i].name@, 0) == Some((plan.places->0)@[i] as int));
        }
    }
    if !(stream_buckets is Some && cdc is Some) && (forall|c: int|
        0 <= c < columns.len() ==> exists|p: int|
            0 <= p < names.len() && (#[trigger] names[p])@ == (#[trigger] columns[c]).name@) {
        lemma_none_absent(names, columns, 0);
    }
}

proof fn lemma_first_place(names: Seq<String>, name: Seq<char>, from: int)
    requires
        from >= 0,
    ensures
        match name_place(names, name, from) {
            Some(p) => from <= p < names.len() && names[p]@ == name && forall|q: int|
                from <= q < p ==> (#[trigger] names[q])@ != name,
            None => forall|q: int| from <= q < names.len() ==> (#[trigger] names[q])@ != name,
        },
    decreases names.len() - from,
{
    if from < names.len() && names[from]@ != name {
        lemma_first_place(names, name, from + 1);
    }
}

proof fn lemma_none_absent(names: Seq<String>, columns: Seq<ColumnSpec>, from: int)
    requires
        from >= 0,
        forall|c: int|
            0 <= c < columns.len() ==> exists|p: int|
                0 <= p < names.len() && (#[trigger] names[p])@ == (#[trigger] columns[c]).name@,
    ensures
        first_absent(names, columns, from) is None,
    decreases columns.len() - from,
{
    if from < columns.len() {
        lemma_first_place(names, columns[from].name@, 0);
        let p = choose|p: int| 0 <= p < names.len() && (#[trigger] names[p])@ == columns[from].name@;
        assert(names[p]@ == columns[from].name@);
        lemma_none_absent(names, columns, from + 1);
    }
}

/// A table keeps its own columns as they are; a stream has three more behind them, for the
/// kind of each change, its bucket and its offset.
pub proof fn law_stream_has_three_more_columns(r: Seq<ColumnSpec>, columns: Seq<ColumnSpec>, framed: bool, i: int)
    requires
        are_physical(r, columns, framed),
    ensures
        0 <= i < columns.len() ==> r[i] == columns[i],
        !framed ==> r.len() == columns.len(),
        framed ==> {
            let n = columns.len() as int;
            &&& r.len() == n + 3
            &&& r[n].name@ == "loom_change_kind"@ && r[n].ty@ == "string"@ && !r[n].nullable
            &&& r[n + 1].name@ == "loom_bucket"@ && r[n + 1].ty@ == "integer"@ && r[n + 1].nullable
            &&& r[n + 2].name@ == "loom_offset"@ && r[n + 2].ty@ == "long"@ && r[n + 2].nullable
        },
{
    if framed {
        let n = columns.len() as int;
        assert(r.skip(n)[0] == r[n] && r.skip(n)[1] == r[n + 1] && r.skip(n)[2] == r[n + 2]);
        if 0 <= i < n {
            assert(r.take(n)[i] == r[i]);
        }
    }
}

/// A file comes into the mirror with its path, its number of rows, its size in bytes and
/// its statistics, one for each file that was written and in that order.
pub proof fn law_registered_files_are_those_written(
    steps: Seq<RegisterStep>,
    mode: WriteMode,
    columns: Seq<ColumnSpec>,
    resolved: Seq<Option<BaseType>>,
    files: Seq<DataFile>,
    s: int,
    i: int,
)
    requires
        are_register_steps(steps, mode, columns, resolved, files),
        0 <= s < steps.len(),
        steps[s] is Files,
        0 <= i < files.len(),
    ensures
        ({
            let list = steps[s]->files@;
            &&& list.len() == files.len()
            &&& list[i].path == files[i].path
            &&& list[i].file_format@ == "parquet"@
            &&& list[i].record_count == files[i].record_count
            &&& list[i].file_size_bytes == files[i].file_size_bytes
            &&& list[i].column_stats == files[i].column_stats
        }),
{
    let list = steps[s]->files@;
    assert(crate::iceberg_landing::is_files_step(steps[s], files));
    assert(crate::iceberg_landing::is_projected(list[i], files[i]));
}

/// An append retires nothing; a replacement retires every live file and every live inline
/// row, for good; a compaction retires the files that it names and no others, which come
/// back in another form, and leaves the columns alone.
pub proof fn law_what_registering_retires(
    steps: Seq<RegisterStep>,
    mode: WriteMode,
    columns: Seq<ColumnSpec>,
    resolved: Seq<Option<BaseType>>,
    files: Seq<DataFile>,
)
    requires
        are_register_steps(steps, mode, columns, resolved, files),
    ensures
        mode is Append ==> steps.len() == 3 && steps[0] is Columns && steps[1] is Files && steps[2] is Stamp,
        mode is Overwrite ==> steps.len() == 5 && steps[0] == (RegisterStep::CapFiles {
            intent: EndCapIntent::Removing,
        }) && steps[1] == (RegisterStep::CapInline { intent: EndCapIntent::Removing })
            && steps[2] is Columns && steps[3] is Files && steps[4] is Stamp,
        mode matches WriteMode::Compact { expire_paths } ==> steps.len() == 3 && steps[0] == (
        RegisterStep::CapPaths { paths: expire_paths, intent: EndCapIntent::Reframing }) && steps[1] is Files
            && steps[2] is Stamp,
{
}

/// A column comes into the mirror under its name and its place, counted from one, with the
/// type that the mirror has for it and its nullability.
pub proof fn law_registered_columns_are_those_of_the_write(
    p: Seq<ProjectedColumn>,
    columns: Seq<ColumnSpec>,
    resolved: Seq<Option<BaseType>>,
    i: int,
)
    requires
        are_registered(p, columns, resolved),
        0 <= i < columns.len(),
    ensures
        p.len() == columns.len(),
        p[i].order == i + 1,
        p[i].name@ == columns[i].name@,
        p[i].nullable == columns[i].nullable,
        mirror_type(columns[i].ty@, resolved[i]) == Some(p[i].iceberg_type@),
{
    assert(crate::iceberg_landing::is_registered(p[i], columns[i], resolved[i], i));
}

/// Registering is refused where a file is not Parquet, and, unless it is a compaction,
/// where a column has no type in the mirror; and only there.
pub proof fn law_when_registering_is_refused(
    mode: WriteMode,
    columns: Seq<ColumnSpec>,
    resolved: Seq<Option<BaseType>>,
    files: Seq<DataFile>,
)
    ensures
        register_fault(mode, columns, resolved, files) is Some <==> (exists|f: int|
            0 <= f < files.len() && (#[trigger] files[f]).file_format != FileFormat::Parquet) || (!(
        mode is Compact) && exists|c: int|
            0 <= c < columns.len() && mirror_type((#[trigger] columns[c]).ty@, resolved[c]) is None),
{
    lemma_first_unmirrored(columns, resolved, 0);
    if exists|c: int| 0 <= c < columns.len() && mirror_type((#[trigger] columns[c]).ty@, resolved[c]) is None {
        let c = choose|c: int|
            0 <= c < columns.len() && mirror_type((#[trigger] columns[c]).ty@, resolved[c]) is None;
        assert(mirror_type(columns[c].ty@, resolved[c]) is None);
    }
}

proof fn lemma_first_unmirrored(columns: Seq<ColumnSpec>, resolved: Seq<Option<BaseType>>, from: int)
    requires
        from >= 0,
    ensures
        match crate::inline_append::first_unmirrored(columns, resolved, from) {
            Some(c) => from <= c < columns.len() && mirror_type(columns[c].ty@, resolved[c]) is None,
            None => forall|c: int|
                from <= c < columns.len() ==> mirror_type((#[trigger] columns[c]).ty@, resolved[c]) is Some,
        },
    decreases columns.len() - from,
{
    if from < columns.len() && mirror_type(columns[from].ty@, resolved[from]) is Some {
        lemma_first_unmirrored(columns, resolved, from + 1);
    }
}

/// A write to a table without live columns, or with just those, is appended as it is; one
/// that has nullable columns more behind them brings these in; any other is refused as
/// invalid.
pub proof fn law_new_columns_take_another_way(live: Seq<ProjectedColumn>, incoming: Seq<ProjectedColumn>)
    ensures
        live.len() == 0 ==> routed(live, incoming) == Ok::<AppendRoute, Fault>(AppendRoute::Plain),
        live.len() > 0 ==> (routed(live, incoming) is Err <==> schema_refusal(live, incoming) is Some),
        routed(live, incoming) matches Err(e) ==> e is Validation,
        live.len() > 0 && routed(live, incoming) == Ok::<AppendRoute, Fault>(AppendRoute::Additive)
            ==> incoming.len() > live.len() && (forall|i: int|
            live.len() <= i < incoming.len() ==> (#[trigger] incoming[i]).nullable),
        live.len() > 0 && routed(live, incoming) == Ok::<AppendRoute, Fault>(AppendRoute::Plain)
            ==> incoming.len() == live.len(),
{
    law_accepted_iff_additive(live, incoming);
}

/// New columns come in only while the table has no live inline rows; where it has some, the
/// write is refused and writes nothing.
pub proof fn law_inline_rows_hold_new_columns_back(
    req: SnapshotAppend,
    rows: bool,
    next: AppendedState,
    action: AppendedAction,
)
    requires
        append_step(req, AppendedState::Probing, AppendedEvent::Inline { rows }, next, action),
    ensures
        rows ==> action is Fail && next is Done,
        !rows ==> action is WriteObjects && next is Writing,
{
}

/// A write reports the snapshot that its commit made.
pub proof fn law_write_reports_its_snapshot(
    req: SnapshotAppend,
    snapshot: i64,
    next: AppendedState,
    action: AppendedAction,
)
    requires
        append_step(
            req,
            AppendedState::Committing,
            AppendedEvent::Committed { snapshot },
            next,
            action,
        ),
    ensures
        action == (AppendedAction::Finish { snapshot }),
        next is Done,
{
}

/// A column of vectors fits where each vector that is there has the declared number of
/// elements; a column that is no list is not looked at.
pub proof fn law_vectors_have_their_dimension(
    field: TargetField,
    lengths: Vec<Option<i32>>,
    resolved: Seq<Option<BaseType>>,
    i: int,
    n: u32,
)
    requires
        0 <= i < resolved.len(),
        resolved[i] == Some(BaseType::Vector(n)),
    ensures
        field.is_list ==> (column_fault(field, Some(lengths), resolved, i) is None <==> forall|r: int|
            0 <= r < lengths@.len() ==> (#[trigger] lengths@[r] matches Some(len) ==> len == n)),
        field.is_list ==> column_fault(field, None, resolved, i) is Some,
        !field.is_list ==> column_fault(field, Some(lengths), resolved, i) is None,
{
    lemma_first_misfit(lengths@, n as int, 0);
}

proof fn lemma_first_misfit(lengths: Seq<Option<i32>>, n: int, from: int)
    requires
        from >= 0,
    ensures
        match first_misfit(lengths, n, from) {
            Some(r) => from <= r < lengths.len() && lengths[r] is Some && lengths[r]->0 != n,
            None => forall|r: int|
                from <= r < lengths.len() ==> (#[trigger] lengths[r] matches Some(len) ==> len == n),
        },
    decreases lengths.len() - from,
{
    if from < lengths.len() && !(lengths[from] is Some && lengths[from]->0 != n) {
        lemma_first_misfit(lengths, n, from + 1);
    }
}

/// A batch fits where each of its columns does.
pub proof fn law_batch_fits_column_by_column(
    fields: Seq<TargetField>,
    data: Seq<Option<Vec<Option<i32>>>>,
    resolved: Seq<Option<BaseType>>,
    from: int,
)
    requires
        from >= 0,
    ensures
        batch_fault(fields, data, resolved, from) is None <==> forall|i: int|
            from <= i < fields.len() ==> column_fault(#[trigger] fields[i], data[i], resolved, i) is None,
    decreases fields.len() - from,
{
    if from < fields.len() {
        law_batch_fits_column_by_column(fields, data, resolved, from + 1);
        if column_fault(fields[from], data[from], resolved, from) is None {
            if batch_fault(fields, data, resolved, from + 1) is None {
                assert forall|i: int| from <= i < fields.len() implies column_fault(
                    #[trigger] fields[i],
                    data[i],
                    resolved,
                    i,
                ) is None by {
                    if i > from {
                        assert(column_fault(fields[i], data[i], resolved, i) is None);
                    }
                }
            }
        }
    }
}

/// The sizes of a write are added up, each once.
pub proof fn law_total_adds_up(sizes: Seq<usize>, size: usize)
    ensures
        total(Seq::<usize>::empty()) == 0,
        total(sizes.push(size)) == total(sizes) + size,
{
    assert(sizes.push(size).drop_last() =~= sizes);
}

/// New data is committed with its lineage and its jobs; it fires the triggers of its own
/// table, replaces nothing and retires nothing.
pub proof fn law_new_data_replaces_nothing(
    extras: CommitExtras,
    table: TableRef,
    lineage: LineageEvent,
    jobs: Vec<NewJob>,
    at: Option<i64>,
)
    requires
        are_write_extras(extras, table, lineage, jobs, at),
    ensures
        extras.lineage == Some(lineage),
        extras.jobs == jobs,
        !extras.overwrite,
        extras.end_cap is None,
        extras.data_trigger_tables@.len() == 1,
        extras.data_trigger_tables@[0] == table,
        extras.reuse_snapshot == at,
{
}

/// The mode of a live table is known without a claim, a stream with its buckets and a plain
/// table as such, unless the write would make a stream of a plain one; that of a table that
/// is not live is never known.
pub proof fn law_when_the_mode_is_known(recorded: Option<Option<i32>>, declares: bool)
    ensures
        recorded is None ==> known_mode(recorded, declares) is None,
        recorded matches Some(Some(n)) ==> known_mode(recorded, declares) == Some(Some(n)),
        recorded == Some(None::<i32>) && !declares ==> known_mode(recorded, declares) == Some(None::<i32>),
        recorded == Some(None::<i32>) && declares ==> known_mode(recorded, declares) is None,
{
}

/// A stream write that was beaten waits and tries again, up to five times; an error of any
/// other kind, and a last defeat, is reported. One that went through is committed at the
/// snapshot that it made.
pub proof fn law_beaten_stream_write_tries_again(
    req: StreamLand,
    attempt: u32,
    at: i64,
    outcome: AttemptOutcome,
    error: ControlPlaneError,
    next: LandState,
    action: LandAction,
)
    requires
        land_step(
            req,
            LandState::Writing { attempt, at },
            LandEvent::Attempted { outcome, error },
            next,
            action,
        ),
        attempt <= 5,
    ensures
        outcome is Beaten && attempt < 5 ==> action is Wait && (next matches LandState::Waiting { attempt: a }
            && a == attempt + 1),
        outcome is Beaten && attempt == 5 ==> (action matches LandAction::Fail { error: e } && e@ == error@)
            && next is Done,
        outcome is Failed ==> (action matches LandAction::Fail { error: e } && e@ == error@) && next is Done,
        outcome is Committed ==> action is Commit && next == (LandState::Committing { at }),
{
}

/// A stream write reports the snapshot that it was opened at.
pub proof fn law_stream_write_reports_its_snapshot(
    req: StreamLand,
    at: i64,
    next: LandState,
    action: LandAction,
)
    requires
        land_step(req, LandState::Committing { at }, LandEvent::Committed, next, action),
    ensures
        action == (LandAction::Finish { snapshot: at }),
        next is Done,
{
}

/// The rows of a stream write go to the buckets in turn: a bucket gets as many as there are
/// rows whose number leaves its own when divided by the number of buckets.
pub proof fn law_stream_rows_in_turn(rows: nat, bucket_count: int, r: int)
    requires
        0 < bucket_count <= usize::MAX,
        0 <= r < rows,
    ensures
        in_turn(rows, bucket_count).len() == rows,
        in_turn(rows, bucket_count)[r] == r % bucket_count,
        turn_counts(rows, bucket_count).len() == bucket_count,
{
    assert(0 <= r % bucket_count < bucket_count) by (nonlinear_arith)
        requires
            bucket_count > 0,
    ;
}

/// A write to several tables registers each target in its place and its own mode, fires the
/// triggers of all of them for the run of the write, and queues its jobs in their order.
pub proof fn law_each_target_in_its_mode(
    list: Seq<LandStep>,
    refused: Seq<TableRef>,
    steps: Seq<StepLand>,
    run: u128,
    jobs: nat,
    i: int,
)
    requires
        is_step_list(list, refused, steps, run, jobs),
        steps.len() <= usize::MAX,
        jobs <= usize::MAX,
    ensures
        ({
            let first = 1 + refused.len() as int;
            &&& 0 <= i < refused.len() ==> list[1 + i] == (LandStep::RefuseStream { table: refused[i] })
            &&& 0 <= i < steps.len() ==> (list[first + i] matches LandStep::Register { target, mode }
                && target == i && (mode is Overwrite <==> steps[i].overwrite) && (mode is Append
                <==> !steps[i].overwrite))
            &&& list[first + steps.len() + 1] matches LandStep::Fire { tables, run: r } && r == run
                && tables@.len() == steps.len() && (0 <= i < steps.len() ==> tables@[i] == steps[i].table)
            &&& 0 <= i < jobs ==> (list[first + steps.len() + 2 + i] matches LandStep::Enqueue { job } && job
                == i)
        }),
{
    let first = 1 + refused.len() as int;
    if 0 <= i < refused.len() {
        assert(list[1 + i] == (LandStep::RefuseStream { table: refused[1 + i - 1] }));
    }
}

/// A replacement by nothing retires every file and either the inline rows that were consumed
/// or all of them, records the lineage where there is some, queues its jobs, fires the
/// triggers and commits; one by rows carries all of that with their commit.
pub proof fn law_overwrite_retires_what_was_there(
    plan: OverwritePlan,
    table: TableRef,
    framed: bool,
    rows: Seq<usize>,
    jobs: Seq<NewJob>,
    lineage: Option<LineageEvent>,
    consumed: Option<InlineEndCap>,
)
    requires
        is_overwrite_plan(plan, table, framed, rows, jobs, lineage, consumed),
    ensures
        plan.refuse_stream <==> !framed,
        plan.way is Truncate <==> forall|i: int| 0 <= i < rows.len() ==> #[trigger] rows[i] == 0,
        plan.way matches OverwriteWay::Truncate { steps, lineage: l, consumed: c, jobs: j } ==> {
            let skip = if framed {
                0int
            } else {
                1int
            };
            &&& l == lineage && c == consumed && j@ == jobs
            &&& steps@[skip] is Snapshot
            &&& steps@[skip + 1] == (OverwriteStep::CapFiles { intent: EndCapIntent::Removing })
            &&& consumed is Some ==> steps@[skip + 2] == (OverwriteStep::CapConsumed {
                intent: EndCapIntent::Removing,
            })
            &&& consumed is None ==> steps@[skip + 2] == (OverwriteStep::CapInline {
                intent: EndCapIntent::Removing,
            })
            &&& lineage is Some <==> steps@[skip + 3] is Emit
            &&& steps@.len() >= 3
            &&& steps@[steps@.len() - 3] is Enqueue
            &&& steps@[steps@.len() - 2] is Fire
            &&& steps@.last() is Commit
        },
        plan.way matches OverwriteWay::Replace { extras } ==> {
            &&& extras.overwrite
            &&& extras.lineage == lineage
            &&& extras.end_cap == consumed
            &&& extras.jobs@ == jobs
            &&& extras.data_trigger_tables@.len() == 1 && extras.data_trigger_tables@[0] == table
        },
{
    assert(all_empty(rows) == forall|i: int| 0 <= i < rows.len() ==> #[trigger] rows[i] == 0);
}

/// A field of a schema has the name of its column, is required where the column is not
/// nullable, and is numbered behind the fields before it; a vector takes two numbers.
pub proof fn law_fields_are_the_columns(
    f: IceField,
    c: ColumnSpec,
    resolved: Seq<Option<BaseType>>,
    i: int,
)
    requires
        0 <= i < resolved.len(),
        is_ice_field(f, c, resolved[i], 1 + ids_taken(resolved.take(i))),
    ensures
        f.name@ == c.name@,
        f.required == !c.nullable,
        i == 0 ==> f.id == 1,
        resolved[i] matches Some(BaseType::Vector(n)) ==> (f.ty matches IceType::Vector {
            element_id,
            dimension,
        } && dimension == n),
        !(resolved[i] matches Some(BaseType::Vector(n))) ==> f.ty is Primitive,
        i + 1 < resolved.len() ==> 1 + ids_taken(resolved.take(i + 1)) == f.id + (if resolved[i] matches Some(
            BaseType::Vector(n),
        ) {
            2int
        } else {
            1int
        }),
{
    assert(resolved.take(i + 1).drop_last() =~= resolved.take(i));
    if i == 0 {
        assert(resolved.take(0).len() == 0);
    }
}

/// Each Iceberg name of a primitive type stands for its own type.
pub proof fn law_primitive_names()
    ensures
        primitive_of("int"@) == Some(Primitive::Int),
        primitive_of("long"@) == Some(Primitive::Long),
        primitive_of("double"@) == Some(Primitive::Double),
        primitive_of("boolean"@) == Some(Primitive::Boolean),
        primitive_of("string"@) == Some(Primitive::String),
        primitive_of("date"@) == Some(Primitive::Date),
        primitive_of("timestamp"@) == Some(Primitive::Timestamp),
{
    reveal_strlit("int");
    reveal_strlit("long");
    reveal_strlit("double");
    reveal_strlit("boolean");
    reveal_strlit("string");
    reveal_strlit("date");
    reveal_strlit("timestamp");
    assert("int"@.len() == 3 && "long"@.len() == 4 && "double"@.len() == 6 && "boolean"@.len() == 7);
    assert("string"@.len() == 6 && "date"@.len() == 4 && "timestamp"@.len() == 9);
    assert("long"@[0] == 'l' && "date"@[0] == 'd');
    assert("double"@[0] == 'd' && "string"@[0] == 's');
}

} // verus!
