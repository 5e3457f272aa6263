//! What holds of commits on their way into the mirror: the steps they take and their order,
//! the statistics they bring, and how a beaten commit and a flush go on.
use crate::commit_mirror::{extra_steps, mirror_steps, CommitExtras, CommitStep};
use crate::error::ControlPlaneError;
use crate::iceberg_compact::{due, CompactState, CompactTriggerCfg};
use crate::iceberg_flush::{
    flush_step, is_compaction_event, keeps, FlushAction, FlushEvent, FlushState, KindColumn,
    ReadRows,
};
use crate::iceberg_mirror::{
    all_stat_rows, field_type_name, file_stat_rows, first_unprojectable, is_column_of, projection,
    FieldType, ProjectedColumn, ProjectedFile, SchemaField,
};
use crate::iceberg_stats::{stat_text, StatValue};
use crate::iceberg_writer::{backoff_base, doubled_base, AttemptOutcome};
use crate::text::{int_text, starts_with};
use crate::types::{DatasetRef, EventType, LineageEvent, TableRef};
use vstd::prelude::*;

verus! {

/// A commit goes into the mirror in this order: its snapshot, the one made before where
/// there is one and else a new one; the table's row; what it replaces, if it does; its
/// columns, its files and the stamp; and the look at compaction, where that is watched.
pub proof fn law_mirror_steps_in_order(
    iceberg: Option<i64>,
    columns: Vec<ProjectedColumn>,
    files: Vec<ProjectedFile>,
    extras: CommitExtras,
    watched: bool,
)
    ensures
        ({
            let steps = mirror_steps(iceberg, columns, files, extras, watched);
            let caps = if !extras.overwrite {
                0int
            } else if extras.end_cap is None {
                2int
            } else {
                1int
            };
            &&& extras.reuse_snapshot matches Some(at) ==> steps[0] == (CommitStep::ReuseSnapshot {
                at,
                iceberg,
            })
            &&& extras.reuse_snapshot is None ==> steps[0] == (CommitStep::NewSnapshot { iceberg })
            &&& steps[1] is EnsureTable
            &&& extras.overwrite ==> steps[2] == (CommitStep::CapFiles { intent: extras.intent })
            &&& extras.overwrite && extras.end_cap is None ==> steps[3] == (CommitStep::CapInline {
                intent: extras.intent,
            })
            &&& steps[2 + caps] == (CommitStep::Columns { columns })
            &&& steps[3 + caps] == (CommitStep::Files { files })
            &&& steps[4 + caps] is Stamp
            &&& watched ==> steps[5 + caps] is MaybeCompact
            &&& steps.len() == 5 + caps + (if watched {
                1int
            } else {
                0int
            })
        }),
{
}

/// What a commit carries along is done in this order: the named inline rows are retired,
/// the lineage is recorded, the jobs are queued in their order, and the triggers fire, for
/// the run of the lineage.
pub proof fn law_extras_in_order(extras: CommitExtras, i: int)
    ensures
        ({
            let steps = extra_steps(extras);
            let cap = if extras.end_cap is Some {
                1int
            } else {
                0int
            };
            let emit = cap + (if extras.lineage is Some {
                1int
            } else {
                0int
            });
            &&& extras.end_cap matches Some(rows) ==> steps[0] == (CommitStep::CapRows {
                cap: rows,
                intent: extras.intent,
            })
            &&& extras.lineage matches Some(event) ==> steps[cap] == (CommitStep::Emit { event })
            &&& 0 <= i < extras.jobs@.len() ==> steps[emit + i] == (CommitStep::Enqueue {
                job: extras.jobs@[i],
            })
            &&& steps.len() == emit + extras.jobs@.len() + 1
            &&& steps.last() matches CommitStep::Fire { tables, run } && tables
                == extras.data_trigger_tables && (run is Some <==> extras.lineage is Some) && (
            extras.lineage matches Some(event) ==> run == Some(event.run_id))
        }),
{
}

/// A statistic comes into the mirror under the number of its file and the name of its
/// column, with how many values are missing, its size, and its bounds as text: the least
/// as the least and the greatest as the greatest.
pub proof fn law_statistics_are_kept(files: Seq<ProjectedFile>, ids: Seq<i64>, file: ProjectedFile, id: i64, s: int)
    requires
        0 <= s < file.column_stats@.len(),
        files.len() == ids.len(),
    ensures
        all_stat_rows(files.push(file), ids.push(id)) == all_stat_rows(files, ids) + file_stat_rows(
            id,
            file.column_stats@,
        ),
        ({
            let stat = file.column_stats@[s];
            let row = file_stat_rows(id, file.column_stats@)[s];
            &&& file_stat_rows(id, file.column_stats@).len() == file.column_stats@.len()
            &&& row.file_id == id
            &&& row.column == stat.column_name@
            &&& row.null_count == stat.null_count
            &&& row.size == stat.column_size_bytes
            &&& stat.min matches Some(v) ==> row.min == Some(stat_text(v))
            &&& stat.min is None ==> row.min is None
            &&& stat.max matches Some(v) ==> row.max == Some(stat_text(v))
            &&& stat.max is None ==> row.max is None
        }),
{
    assert(files.push(file).drop_last() =~= files);
    lemma_stat_ids(files, ids, ids.push(id));
}

proof fn lemma_stat_ids(files: Seq<ProjectedFile>, a: Seq<i64>, b: Seq<i64>)
    requires
        files.len() <= a.len(),
        files.len() <= b.len(),
        forall|i: int| 0 <= i < files.len() ==> a[i] == #[trigger] b[i],
    ensures
        all_stat_rows(files, a) == all_stat_rows(files, b),
    decreases files.len(),
{
    if files.len() > 0 {
        lemma_stat_ids(files.drop_last(), a, b);
        assert(a[files.len() - 1] == b[files.len() - 1]);
    }
}

/// A bound is kept as the text of its value.
pub proof fn law_bounds_as_text(n: i32, m: i64, number: String, text: String)
    ensures
        stat_text(StatValue::Bool(true)) == "true"@,
        stat_text(StatValue::Bool(false)) == "false"@,
        stat_text(StatValue::I32(n)) == int_text(n as int),
        stat_text(StatValue::I64(m)) == int_text(m as int),
        stat_text(StatValue::Real(number)) == number@,
        stat_text(StatValue::Str(text)) == text@,
{
}

/// The columns of a write that are new come into the mirror, in their order, and all of
/// them where the table has none; those that are live are not brought in again.
pub proof fn law_only_new_columns_come_in(live: Seq<ProjectedColumn>, incoming: Seq<ProjectedColumn>, i: int)
    requires
        projection(live, incoming) is Ok,
    ensures
        live.len() == 0 ==> projection(live, incoming)->Ok_0 == incoming,
        live.len() > 0 && 0 <= i < projection(live, incoming)->Ok_0.len() ==> projection(
            live,
            incoming,
        )->Ok_0[i] == incoming[live.len() + i],
        live.len() > 0 ==> projection(live, incoming)->Ok_0.len() == incoming.len() - live.len(),
{
    crate::iceberg_schema_evolution::law_accepted_iff_additive(live, incoming);
}

/// A field of an Iceberg schema is a column of the mirror under its name, in its place
/// counted from one, nullable where it is not required. A primitive keeps its type's name;
/// a list is a vector, and its documentation says of which dimension.
pub proof fn law_columns_of_a_schema(c: ProjectedColumn, f: SchemaField, i: int)
    requires
        is_column_of(c, f, i),
    ensures
        c.order == i + 1,
        c.name@ == f.name@,
        c.nullable <==> !f.required,
        f.field_type matches FieldType::Primitive(name) ==> c.iceberg_type@ == name@,
        f.field_type is List ==> (f.doc matches Some(d) && c.iceberg_type@ == d@ && starts_with(
            d@,
            "vector("@,
        )),
        !(f.field_type is Other),
{
}

/// A schema comes into the mirror where each of its fields has a type there.
pub proof fn law_schema_field_by_field(fields: Seq<SchemaField>, from: int)
    requires
        from >= 0,
    ensures
        first_unprojectable(fields, from) is None <==> forall|i: int|
            from <= i < fields.len() ==> field_type_name(#[trigger] fields[i]) is Ok,
    decreases fields.len() - from,
{
    if from < fields.len() {
        law_schema_field_by_field(fields, from + 1);
        if field_type_name(fields[from]) is Ok && first_unprojectable(fields, from + 1) is None {
            assert forall|i: int| from <= i < fields.len() implies field_type_name(
                #[trigger] fields[i],
            ) is Ok by {
                if i > from {
                    assert(field_type_name(fields[i]) is Ok);
                }
            }
        }
    }
}

/// A table is compacted where it has at least as many small files as are configured, is no
/// stream and has no inline changes.
pub proof fn law_when_a_table_is_compacted(state: CompactState, cfg: CompactTriggerCfg)
    ensures
        due(state, cfg) <==> state.small_count >= cfg.min_small_files && !state.is_stream
            && !state.has_shadow,
{
}

/// The wait between attempts doubles with each of them, from five milliseconds on, and
/// never exceeds two hundred.
pub proof fn law_waits_double(attempt: nat)
    ensures
        backoff_base(0) == 5,
        doubled_base(attempt + 1) == 2 * doubled_base(attempt),
        attempt < 16 && backoff_base(attempt + 1) < 200 ==> backoff_base(attempt + 1) == 2 * backoff_base(
            attempt,
        ),
        backoff_base(attempt) <= 200,
{
    assert(doubled_base(0) == 5);
}

/// A flush that was beaten tries again, up to five times; it gives up on any other error.
pub proof fn law_beaten_flush_tries_again(
    table: TableRef,
    tid: i64,
    attempt: u32,
    outcome: AttemptOutcome,
    snapshot: i64,
    error: ControlPlaneError,
    next: FlushState,
    action: FlushAction,
)
    requires
        flush_step(
            table,
            FlushState::Trying { tid, attempt },
            FlushEvent::Attempted { outcome, snapshot, error },
            next,
            action,
        ),
        attempt <= 5,
    ensures
        outcome is Committed ==> action == (FlushAction::Disarm { tid }) && next == (FlushState::Disarming {
            snapshot,
        }),
        outcome is Beaten && attempt < 5 ==> action is Wait && (next matches FlushState::Waiting {
            tid: t,
            attempt: a,
        } && t == tid && a == attempt + 1),
        outcome is Beaten && attempt == 5 ==> (action matches FlushAction::Fail { error: e } && e@ == error@)
            && next is Done,
        outcome is Failed ==> (action matches FlushAction::Fail { error: e } && e@ == error@) && next is Done,
{
}

/// A flush reads a stream of changes with the rows as they were before a change, and any
/// other table without; a table that is marked as changed in line is not flushed.
pub proof fn law_flush_reads_images_of_changes(
    table: TableRef,
    at: i64,
    tid: i64,
    shadowed: bool,
    cdc: (FlushState, FlushAction),
    plain: (FlushState, FlushAction),
)
    requires
        flush_step(
            table,
            FlushState::Kind { at },
            FlushEvent::KindRead { tid: Some(tid), is_cdc: true },
            cdc.0,
            cdc.1,
        ),
        flush_step(
            table,
            FlushState::Shadow { at, tid },
            FlushEvent::ShadowRead { shadowed },
            plain.0,
            plain.1,
        ),
    ensures
        cdc.1 == (FlushAction::ReadRows { at, with_images: true }),
        !shadowed ==> plain.1 == (FlushAction::ReadRows { at, with_images: false }),
        shadowed ==> plain.1 == (FlushAction::StopShadowed { tid, restore: false }),
{
}

/// A flush of a stream of changes appends every row that was read to its changelog, and to
/// its base every one but the rows as they were before a change.
pub proof fn law_flush_of_changes(
    table: TableRef,
    rows: ReadRows,
    kinds: Vec<String>,
    next: FlushState,
    action: FlushAction,
    i: int,
)
    requires
        rows.kinds == (KindColumn::Texts { kinds }),
        flush_step(
            table,
            FlushState::Rows { is_cdc: true },
            FlushEvent::RowsRead { rows: Some(rows) },
            next,
            action,
        ),
        0 <= i < kinds@.len(),
    ensures
        action matches FlushAction::AppendBoth { tid, row_ids, keep } && tid == rows.tid && row_ids
            == rows.row_ids && keep@.len() == kinds@.len() && (keep@[i] <==> kinds@[i]@ != "-U"@),
{
    assert(keeps(kinds@)[i] == (kinds@[i]@ != "-U"@));
}

/// A flush that appended something reports its snapshot; one that found nothing to do, or
/// was stopped, reports none.
pub proof fn law_flush_reports_its_snapshot(
    table: TableRef,
    snapshot: i64,
    done: (FlushState, FlushAction),
    stopped: (FlushState, FlushAction),
    empty: (FlushState, FlushAction),
)
    requires
        flush_step(table, FlushState::Disarming { snapshot }, FlushEvent::Disarmed, done.0, done.1),
        flush_step(table, FlushState::Stopping, FlushEvent::Stopped, stopped.0, stopped.1),
        flush_step(
            table,
            FlushState::Reading,
            FlushEvent::SnapshotRead { current: None },
            empty.0,
            empty.1,
        ),
    ensures
        done.1 == (FlushAction::Finish { snapshot: Some(snapshot) }),
        stopped.1 == (FlushAction::Finish { snapshot: None }),
        empty.1 == (FlushAction::Finish { snapshot: None }),
{
}

/// The lineage of a flush says that the run is complete, and that it read and wrote the
/// table, and nothing else.
pub proof fn law_flush_reads_and_writes_its_table(
    e: LineageEvent,
    dataset: DatasetRef,
    run_id: u128,
    now: i128,
)
    requires
        is_compaction_event(e, dataset, run_id, now),
    ensures
        e.run_id == run_id,
        e.event_type == EventType::Complete,
        e.event_time == now,
        e.inputs@.len() == 1 && e.inputs@[0] == dataset,
        e.outputs@.len() == 1 && e.outputs@[0] == dataset,
{
}

} // verus!
