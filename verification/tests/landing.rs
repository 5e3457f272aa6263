use control_plane::commit_mirror::{commit_mirror_in_tx, CommitExtras, CommitStep, InlineEndCap};
use control_plane::end_caps::{
    end_cap_files_by_path, end_cap_inline_rows_by_id, end_cap_live_inline_rows, CapStep, Readers,
};
use control_plane::error::ControlPlaneError;
use control_plane::iceberg_compact::{
    compact_table, maybe_enqueue_compact, CompactState, CompactTriggerCfg,
};
use control_plane::iceberg_control_plane::IcebergTx;
use control_plane::iceberg_gc::{gc_table, gc_table_at, GcAction, GcEvent, GcState, GcSummary};
use control_plane::iceberg_landing::{
    align_to_columns, allocate_row_framing, append_parquet_snapshot, augment_with_framing,
    changelog_table_ref, claim_stream_mode, coerce_batch_to_ice, combine_stream_decl, ice_schema,
    land, land_cdc, land_parquet, land_parquet_stream, lands_inline, overwrite_parquet_snapshot,
    overwrite_parquet_snapshot_consuming, overwrite_stream_base, overwrite_truncate,
    object_data_file, overwrite_with_cap, stream_extras,
    primitive_from, projected_files, register_files, share_runs, stamp_framing, write_steps,
    AppendedAction, AppendedEvent, AppendedState, CdcDecl, IceType, InlineLimits, LandAction,
    LandEvent, LandState, LandStep, OverwriteStep, OverwriteWay, ParquetRoute, Primitive, RegisterStep, SnapshotAppend, StepLand,
    StreamDecl, StreamLand, TargetField, WriteMode,
};
use control_plane::iceberg_mirror::ProjectedColumn;
use control_plane::iceberg_type::BaseType;
use control_plane::iceberg_writer::AttemptOutcome;
use control_plane::mv_bootstrap::{bootstrap_mv_watermarks, BootstrapStep};
use control_plane::mv_floor::{mv_floor, mv_readers, watermark_marks, EndCapIntent};
use control_plane::ordered::OrderedMap;
use control_plane::stream::MergeEngine;
use control_plane::types::{
    ColumnSpec, DataFile, EventType, FileFormat, LineageEvent, NewJob, TableRef,
};

const NOW: i128 = 1_700_000_000_000_000_000;

fn s(t: &str) -> String {
    t.to_string()
}

fn strings(list: &[&str]) -> Vec<String> {
    list.iter().map(|t| t.to_string()).collect()
}

fn table(name: &str) -> TableRef {
    TableRef { schema: s("main"), name: s(name) }
}

fn column(name: &str, ty: &str) -> ColumnSpec {
    ColumnSpec { name: s(name), ty: s(ty), nullable: true }
}

fn file(path: &str) -> DataFile {
    DataFile {
        path: s(path),
        path_is_relative: false,
        file_format: FileFormat::Parquet,
        record_count: 1,
        file_size_bytes: 2,
        column_stats: Vec::new(),
        parquet_footer_size: None,
    }
}

fn live(order: i64, name: &str, ty: &str) -> ProjectedColumn {
    ProjectedColumn { order, name: s(name), iceberg_type: s(ty), nullable: true }
}

fn job(kind: &str) -> NewJob {
    NewJob { kind: s(kind), payload: s("{}"), run_at: None, priority: 0 }
}

fn backend(e: &ControlPlaneError, text: &str) -> bool {
    matches!(e, ControlPlaneError::Backend(m) if m == text)
}

fn validation(e: &ControlPlaneError, text: &str) -> bool {
    matches!(e, ControlPlaneError::Validation(m) if m == text)
}

fn cdc() -> CdcDecl {
    CdcDecl { buckets: 2, bucket_key: s("id"), merge_engine: MergeEngine::LastRow }
}

#[test]
fn a_write_declares_one_thing() {
    assert!(matches!(combine_stream_decl(None, None), Ok(StreamDecl::Batch)));
    assert!(matches!(combine_stream_decl(Some(3), None), Ok(StreamDecl::Log(3))));
    assert!(matches!(combine_stream_decl(None, Some(cdc())), Ok(StreamDecl::Cdc { buckets: 2, .. })));
    let both = combine_stream_decl(Some(3), Some(cdc())).unwrap_err();
    assert!(backend(&both, "land: cannot request both a log and a cdc stream declaration"));
}

#[test]
fn columns_are_found_by_name() {
    let names = strings(&["b", "a", "c"]);
    let places = align_to_columns(&names, &vec![column("a", "long"), column("b", "long")]).unwrap();
    assert_eq!(places, Some(vec![1, 0]));
    let same = align_to_columns(&names, &vec![column("b", "x"), column("a", "x"), column("c", "x")]).unwrap();
    assert_eq!(same, None);
    let e = align_to_columns(&names, &vec![column("z", "long")]).unwrap_err();
    assert!(backend(
        &e,
        "landing: column \"z\" declared but absent from the data: Schema error: Unable to get field named \"z\". Valid fields: [\"b\", \"a\", \"c\"]"
    ));
    let plan = land_cdc(&table("t"), &names, &vec![column("a", "long")], None, Some(cdc())).unwrap();
    assert_eq!(plan.places, Some(vec![1]));
    assert_eq!(plan.changelog.unwrap().name, "t__changelog");
    assert_eq!(changelog_table_ref(&table("t")).schema, "main");
}

#[test]
fn small_writes_stay_inline() {
    let limits = InlineLimits { inline_byte_limit: 10, flush_byte_threshold: 100 };
    assert!(lands_inline(&vec![4, 6], limits));
    assert!(!lands_inline(&vec![4, 7], limits));
    assert!(lands_inline(&Vec::new(), limits));
}

#[test]
fn a_stream_has_three_more_columns() {
    let framed = augment_with_framing(&vec![column("id", "long")], true);
    let names: Vec<&str> = framed.iter().map(|c| c.name.as_str()).collect();
    assert_eq!(names, vec!["id", "loom_change_kind", "loom_bucket", "loom_offset"]);
    assert_eq!(augment_with_framing(&vec![column("id", "long")], false).len(), 1);
}

#[test]
fn replaced_files_go_before_the_new_ones_come() {
    let columns = vec![column("id", "long")];
    let resolved = vec![Some(BaseType::Long)];
    let steps = register_files(WriteMode::Overwrite, &columns, &resolved, vec![file("a")]).unwrap();
    assert!(matches!(steps[0], RegisterStep::CapFiles { intent: EndCapIntent::Removing }));
    assert!(matches!(steps[1], RegisterStep::CapInline { intent: EndCapIntent::Removing }));
    assert!(matches!(&steps[2], RegisterStep::Columns { columns } if columns[0].iceberg_type == "long"));
    assert!(matches!(&steps[3], RegisterStep::Files { files } if files[0].path == "a"));
    assert!(matches!(steps[4], RegisterStep::Stamp));
    let steps = register_files(
        WriteMode::Compact { expire_paths: strings(&["x"]) },
        &Vec::new(),
        &Vec::new(),
        vec![file("a")],
    )
    .unwrap();
    assert!(matches!(&steps[0], RegisterStep::CapPaths { paths, intent: EndCapIntent::Reframing }
        if paths == &strings(&["x"])));
    assert_eq!(steps.len(), 3);
    let bad = register_files(WriteMode::Append, &vec![column("id", "blob")], &vec![None], Vec::new());
    assert!(backend(&bad.err().unwrap(), "register: no iceberg type for \"blob\""));
    let other = DataFile { file_format: FileFormat::Other, ..file("a") };
    let bad = projected_files(vec![other]).unwrap_err();
    assert!(backend(&bad, "register: only Parquet files supported, got Other"));
}

#[test]
fn new_columns_wait_for_the_flush() {
    let req = SnapshotAppend {
        columns: vec![column("id", "long"), column("name", "string")],
        resolved: vec![Some(BaseType::Long), Some(BaseType::String)],
        framed: false,
    };
    let (state, action) = append_parquet_snapshot(&req, AppendedState::Start, AppendedEvent::Begin);
    assert!(matches!(action, AppendedAction::Ensure { framed: false }));
    let (state, action) = append_parquet_snapshot(&req, state, AppendedEvent::Ensured);
    assert!(matches!(action, AppendedAction::ReadLive));
    let now = AppendedEvent::Live { columns: vec![live(1, "id", "long")], current: Some(4) };
    let (state, action) = append_parquet_snapshot(&req, state, now);
    assert!(matches!(action, AppendedAction::ProbeInline { at: 4 }));
    let (state, action) = append_parquet_snapshot(&req, state, AppendedEvent::Inline { rows: true });
    assert!(matches!(state, AppendedState::Done));
    assert!(matches!(action, AppendedAction::Fail { error }
        if validation(&error, "schema evolution unsupported: flush inline rows before an additive land")));
    let (state, action) =
        append_parquet_snapshot(&req, AppendedState::Probing, AppendedEvent::Inline { rows: false });
    assert!(matches!(action, AppendedAction::WriteObjects));
    let (state, action) =
        append_parquet_snapshot(&req, state, AppendedEvent::Written { files: vec![file("a")] });
    assert!(matches!(action, AppendedAction::Register { steps } if steps.len() == 3));
    let (_, action) = append_parquet_snapshot(&req, state, AppendedEvent::Committed { snapshot: 9 });
    assert!(matches!(action, AppendedAction::Finish { snapshot: 9 }));
    // A dropped column is refused before anything is written.
    let reading = |incoming| AppendedState::Reading { incoming };
    let fewer = AppendedEvent::Live {
        columns: vec![live(1, "id", "long"), live(2, "name", "string")],
        current: Some(4),
    };
    let (_, action) = append_parquet_snapshot(&req, reading(vec![live(1, "id", "long")]), fewer);
    assert!(matches!(action, AppendedAction::Fail { error: ControlPlaneError::Validation(_) }));
}

#[test]
fn a_written_file_is_described() {
    let f = object_data_file(s("s3://b/x"), 3, u64::MAX, Vec::new());
    assert_eq!((f.path.as_str(), f.path_is_relative, f.record_count), ("s3://b/x", false, 3));
    assert_eq!(f.file_size_bytes, u64::MAX as i64);
    assert!(f.file_format == FileFormat::Parquet && f.parquet_footer_size.is_none());
}

#[test]
fn vectors_have_their_length() {
    let fields = vec![
        TargetField { name: s("id"), is_list: false },
        TargetField { name: s("v"), is_list: true },
    ];
    let resolved = vec![Some(BaseType::Long), Some(BaseType::Vector(3))];
    assert!(coerce_batch_to_ice(&fields, &vec![None, Some(vec![Some(3), None])], &resolved).is_ok());
    let e = coerce_batch_to_ice(&fields, &vec![None, Some(vec![Some(3), Some(2)])], &resolved).unwrap_err();
    assert!(backend(&e, "landing: vector \"v\" row 1: 2 elements, want 3"));
    let e = coerce_batch_to_ice(&fields, &vec![None, None], &resolved).unwrap_err();
    assert!(backend(&e, "landing: column \"v\" expected a list"));
    let e = coerce_batch_to_ice(&fields, &vec![None, Some(Vec::new())], &Vec::new()).unwrap_err();
    assert!(backend(&e, "landing: column index out of range"));
}

#[test]
fn a_recorded_stream_stays_one() {
    assert_eq!(claim_stream_mode(Some(Some(4)), false), Some(Some(4)));
    assert_eq!(claim_stream_mode(Some(None), false), Some(None));
    assert_eq!(claim_stream_mode(Some(None), true), None);
    assert_eq!(claim_stream_mode(None, false), None);
}

#[test]
fn a_beaten_stream_write_reserves_anew() {
    let req = StreamLand { table: table("t"), batches: 1, rows: 5 };
    let (state, _) = land_parquet_stream(&req, LandState::Start, LandEvent::Begin);
    let (state, _) = land_parquet_stream(&req, state, LandEvent::Loaded);
    let opened = || LandEvent::Opened { at: 7, tid: 1, effective: Some(2) };
    let (state, action) = land_parquet_stream(&req, state, opened());
    assert!(matches!(&action, LandAction::Reserve { runs } if runs == &vec![(0, 3), (1, 2)]));
    let (state, action) = land_parquet_stream(&req, state, LandEvent::Reserved { firsts: vec![10, 20] });
    match action {
        LandAction::Write { frames } => {
            assert_eq!(frames, vec![(0, 10), (1, 20), (0, 11), (1, 21), (0, 12)]);
            let stamps = stamp_framing(&frames);
            assert_eq!(stamps.kinds, vec!["+I"; 5]);
            assert_eq!(stamps.offsets, vec![10, 20, 11, 21, 12]);
        }
        _ => panic!("no write"),
    }
    let beaten = || LandEvent::Attempted {
        outcome: AttemptOutcome::Beaten,
        error: ControlPlaneError::Backend(s("beaten")),
    };
    let (state, action) = land_parquet_stream(&req, state, beaten());
    assert!(matches!(action, LandAction::Wait { .. }));
    let (state, action) = land_parquet_stream(&req, state, LandEvent::Waited);
    assert!(matches!(action, LandAction::Open));
    assert!(matches!(state, LandState::Opening { attempt: 1 }));
    // After the fifth retry it gives up.
    let (_, action) = land_parquet_stream(&req, LandState::Writing { attempt: 5, at: 7 }, beaten());
    assert!(matches!(action, LandAction::Fail { error } if backend(&error, "beaten")));
    let none = StreamLand { table: table("t"), batches: 0, rows: 0 };
    let (_, action) = land_parquet_stream(&none, LandState::Start, LandEvent::Begin);
    assert!(matches!(action, LandAction::Fail { error } if validation(&error, "stream land: no batches")));
    let batch = LandEvent::Opened { at: 7, tid: 1, effective: None };
    let (_, action) = land_parquet_stream(&req, LandState::Opening { attempt: 0 }, batch);
    assert!(matches!(action, LandAction::Fail { error }
        if backend(&error, "stream land: reconcile returned batch mode for a stream write")));
    let runs = share_runs(1, 3);
    assert_eq!(runs, vec![(0, 1)]);
    assert_eq!(allocate_row_framing(1, 3, &runs, &vec![4]), vec![(0, 4)]);
}

#[test]
fn a_write_to_several_tables_is_planned() {
    let none = write_steps(&Vec::new(), &event(), &Vec::new());
    assert!(validation(&none.err().unwrap(), "write_steps: no targets"));
    let step = |name: &str, overwrite: bool, rows: Vec<usize>| StepLand { table: table(name), overwrite, rows };
    let targets = vec![
        step("b", true, vec![0, 0]),
        step("a", false, vec![0]),
        step("b", true, vec![1]),
    ];
    let plan = write_steps(&targets, &event(), &vec![job("x"), job("y")]).unwrap();
    assert_eq!(plan.writes, vec![false, true, true]);
    let names: Vec<String> = plan
        .steps
        .iter()
        .map(|step| match step {
            LandStep::Snapshot => s("snapshot"),
            LandStep::RefuseStream { table } => format!("refuse {}", table.name),
            LandStep::Register { target, mode } => format!("register {target} {mode:?}"),
            LandStep::Emit => s("emit"),
            LandStep::Fire { tables, run } => {
                assert_eq!(*run, event().run_id);
                format!("fire {}", tables.iter().map(|t| t.name.as_str()).collect::<Vec<_>>().join(" "))
            }
            LandStep::Enqueue { job } => format!("enqueue {job}"),
            LandStep::Commit => s("commit"),
        })
        .collect();
    let expected = [
        "snapshot", "refuse a", "refuse b", "register 0 Overwrite", "register 1 Append",
        "register 2 Overwrite", "emit", "fire b a b", "enqueue 0", "enqueue 1", "commit",
    ];
    assert_eq!(names, strings(&expected));
}

#[test]
fn a_replacement_by_nothing_is_a_truncation() {
    let t = table("t");
    let plan = overwrite_with_cap(&t, false, &vec![0, 0], vec![job("rebuild")], vec![job("own")], None, None);
    assert!(plan.refuse_stream && !plan.framed);
    match plan.way {
        OverwriteWay::Truncate { steps, lineage, consumed, jobs } => {
            assert_eq!(steps.len(), 7);
            assert!(lineage.is_none() && consumed.is_none());
            assert_eq!(jobs.iter().map(|j| j.kind.as_str()).collect::<Vec<_>>(), vec!["rebuild", "own"]);
        }
        _ => panic!("no truncation"),
    }
    let plan = overwrite_stream_base(&t, &vec![1], Vec::new(), None, None);
    assert!(!plan.refuse_stream && plan.framed);
    assert!(matches!(plan.way, OverwriteWay::Replace { extras }
        if extras.overwrite && extras.end_cap.is_none() && extras.data_trigger_tables.len() == 1));
    let plan = overwrite_parquet_snapshot(&t, &vec![1], Vec::new(), vec![job("own")], None);
    assert!(matches!(plan.way, OverwriteWay::Replace { extras } if extras.jobs.len() == 1));
    let cap = InlineEndCap { table_id: 7, row_ids: vec![3] };
    let plan = overwrite_parquet_snapshot_consuming(&t, &vec![1], Vec::new(), None, cap);
    assert!(matches!(plan.way, OverwriteWay::Replace { extras }
        if matches!(&extras.end_cap, Some(c) if c.row_ids == vec![3])));
    let steps = overwrite_truncate(false, true, true);
    assert!(matches!(steps[0], OverwriteStep::RefuseStream));
    assert!(matches!(steps[3], OverwriteStep::CapConsumed { .. }));
    assert!(matches!(steps[4], OverwriteStep::Emit));
    assert_eq!(steps.len(), 8);
    assert_eq!(overwrite_truncate(true, false, false).len(), 6);
}

#[test]
fn fields_are_numbered_with_their_elements() {
    let columns = vec![column("v", "vector(2)"), column("id", "long"), column("t", "timestamp")];
    let resolved = vec![Some(BaseType::Vector(2)), Some(BaseType::Long), Some(BaseType::Timestamp)];
    let fields = ice_schema(&columns, &resolved).unwrap();
    assert_eq!(fields.iter().map(|f| f.id).collect::<Vec<_>>(), vec![1, 3, 4]);
    assert_eq!(fields[0].ty, IceType::Vector { element_id: 2, dimension: 2 });
    assert_eq!(fields[1].ty, IceType::Primitive(Primitive::Long));
    assert!(!fields[1].required);
    let e = ice_schema(&vec![column("x", "blob")], &vec![None]).unwrap_err();
    assert!(backend(&e, "landing: no iceberg type for \"blob\""));
    assert_eq!(primitive_from("integer").unwrap(), Primitive::Int);
}

#[test]
fn a_commit_follows_its_order() {
    let extras = CommitExtras {
        overwrite: true,
        jobs: vec![job("a"), job("b")],
        lineage: Some(LineageEvent {
            run_id: 8,
            event_type: EventType::Complete,
            event_time: NOW,
            inputs: Vec::new(),
            outputs: Vec::new(),
            payload: s("{}"),
        }),
        data_trigger_tables: vec![table("t")],
        ..CommitExtras::default()
    };
    let steps = commit_mirror_in_tx(1, &strings(&["main"]), "t", Some(5), Vec::new(), Vec::new(), extras, true).unwrap();
    let name = |s: &CommitStep| match s {
        CommitStep::NewSnapshot { .. } => "new",
        CommitStep::ReuseSnapshot { .. } => "reuse",
        CommitStep::EnsureTable => "table",
        CommitStep::CapFiles { .. } => "cap files",
        CommitStep::CapInline { .. } => "cap inline",
        CommitStep::Columns { .. } => "columns",
        CommitStep::Files { .. } => "files",
        CommitStep::Stamp => "stamp",
        CommitStep::MaybeCompact => "compact",
        CommitStep::CapRows { .. } => "cap rows",
        CommitStep::Emit { .. } => "emit",
        CommitStep::Enqueue { .. } => "enqueue",
        CommitStep::Fire { .. } => "fire",
    };
    let order: Vec<&str> = steps.iter().map(name).collect();
    assert_eq!(
        order,
        vec![
            "new", "table", "cap files", "cap inline", "columns", "files", "stamp", "compact", "emit",
            "enqueue", "enqueue", "fire"
        ]
    );
    assert!(matches!(steps.last(), Some(CommitStep::Fire { run: Some(8), .. })));
    let consuming = CommitExtras {
        overwrite: true,
        end_cap: Some(InlineEndCap { table_id: 1, row_ids: vec![2] }),
        reuse_snapshot: Some(3),
        ..CommitExtras::default()
    };
    let steps = commit_mirror_in_tx(1, &strings(&["main"]), "t", None, Vec::new(), Vec::new(), consuming, false).unwrap();
    let order: Vec<&str> = steps.iter().map(name).collect();
    assert_eq!(order, vec!["reuse", "table", "cap files", "columns", "files", "stamp", "cap rows", "fire"]);
    let lost = commit_mirror_in_tx(
        0,
        &strings(&["a", "b"]),
        "t",
        None,
        Vec::new(),
        Vec::new(),
        CommitExtras::default(),
        false,
    );
    assert!(matches!(lost, Err(ControlPlaneError::Conflict(m)) if m == "Commit conflicted for table: a.b.t"));
}

#[test]
fn a_unit_of_work_is_planned() {
    assert!(IcebergTx::new().commit().unwrap().is_none());
    let mut tx = IcebergTx::new();
    tx.mark_run_succeeded(1).unwrap();
    assert!(validation(
        &tx.mark_run_succeeded(2).unwrap_err(),
        "a run success mark is already staged on this transaction"
    ));
    assert!(validation(
        &tx.commit().err().unwrap(),
        "mark_run_succeeded staged without a snapshot-producing write"
    ));
    let mut tx = IcebergTx::new();
    tx.create_table(table("b"), vec![column("id", "long")], vec![Some(BaseType::Long)]);
    tx.create_table(table("a"), vec![column("id", "long")], vec![Some(BaseType::Long)]);
    tx.append_files(table("b"), vec![file("x")]);
    tx.replace_files(table("a"), vec![file("y")]);
    tx.compact_files(table("c"), strings(&["old"]), vec![file("z")]);
    let plan = tx.commit().unwrap().unwrap();
    assert_eq!(plan.written.iter().map(|t| t.name.as_str()).collect::<Vec<_>>(), vec!["a", "b"]);
    let regs = plan.registrations.unwrap();
    assert_eq!(regs.iter().map(|r| r.steps.len()).collect::<Vec<_>>(), vec![3, 5, 3]);
    let mut tx = IcebergTx::new();
    tx.append_files(table("b"), vec![file("x")]);
    let plan = tx.commit().unwrap().unwrap();
    assert!(backend(
        &plan.registrations.err().unwrap(),
        "IcebergTx: files staged for TableRef { schema: \"main\", name: \"b\" } without a preceding create_table"
    ));
    let mut tx = IcebergTx::new();
    tx.compact_files(table("c"), strings(&["old"]), vec![file("z")]);
    assert!(tx.commit().unwrap().unwrap().written.is_empty());
}

#[test]
fn a_view_that_never_ran_keeps_everything() {
    let read = GcEvent::Readers {
        bucket_count: Some(1),
        registered: strings(&["new"]),
        recorded: strings(&["old"]),
        positions: vec![(s("old"), 0, 9)],
    };
    let (state, action) = gc_table_at(60, NOW, GcState::Flooring { tid: 3, horizon: 8 }, read);
    assert!(matches!(action, GcAction::CollectPaths { bound: Some(0), .. }));
    let (_, action) = gc_table_at(60, NOW, state, GcEvent::Paths { paths: vec![] });
    assert!(matches!(action, GcAction::DeleteRows { inline_sql, .. } if inline_sql.ends_with(" and false")));
}

#[test]
fn lagging_views_keep_what_they_have_not_read() {
    let read = GcEvent::Readers {
        bucket_count: Some(2),
        registered: strings(&["fast", "slow"]),
        recorded: strings(&["fast", "slow"]),
        positions: vec![(s("fast"), 0, 9), (s("fast"), 1, 9), (s("slow"), 0, 5), (s("slow"), 1, 7)],
    };
    let at = GcState::Flooring { tid: 3, horizon: 8 };
    let (state, action) = gc_table_at(60, NOW, at, read);
    assert!(matches!(action, GcAction::CollectPaths { tid: 3, horizon: 8, bound: Some(5), files }
        if files == "df.table_id = $1 and df.end_snapshot is not null and df.end_snapshot <= $2 and \
            coalesce((select cs.max_value from iceberg_mirror.data_file_column_stat cs where \
            cs.data_file_id = df.data_file_id and cs.column_name = 'loom_offset')::bigint < $3::bigint, false)"));
    let (state, action) = gc_table_at(60, NOW, state, GcEvent::Paths { paths: vec![] });
    assert!(matches!(action, GcAction::DeleteRows { bound: Some(5), inline_sql, .. }
        if inline_sql.ends_with("where end_snapshot is not null and end_snapshot <= $1 and \
            ((loom_bucket = 0 and loom_offset < 5) or (loom_bucket = 1 and loom_offset < 7))")));
    let gone = GcEvent::Deleted { data_file_rows: 0, inline_rows: Some(4), held: 6 };
    let (state, action) = gc_table_at(60, NOW, state, gone);
    assert!(matches!(action, GcAction::Warn { tid: 3, held: 6, slowest }
        if slowest == vec![(0, s("slow")), (1, s("slow"))]));
    let (_, action) = gc_table_at(60, NOW, state, GcEvent::Warned);
    assert!(matches!(action, GcAction::Finish { summary }
        if summary == GcSummary { data_file_rows: 0, inline_rows: 4, objects_deleted: 0, held_by_mv_floor: 6 }));
}

#[test]
fn rows_go_before_files() {
    let step = |state, event| gc_table_at(60, NOW, state, event);
    let (state, action) = step(GcState::Start, GcEvent::Begin);
    assert!(matches!(action, GcAction::FindTable));
    let (state, action) = step(state, GcEvent::Table { tid: Some(3) });
    assert!(matches!(action, GcAction::FindHorizon { cutoff } if cutoff == NOW - 60_000_000_000));
    let (state, action) = step(state, GcEvent::Horizon { horizon: Some(8) });
    assert!(matches!(action, GcAction::FindReaders { tid: 3 }));
    let (state, action) = step(
        state,
        GcEvent::Readers { bucket_count: None, registered: vec![], recorded: vec![], positions: vec![] },
    );
    assert!(matches!(action, GcAction::CollectPaths { tid: 3, horizon: 8, bound: None, files }
        if files == "df.table_id = $1 and df.end_snapshot is not null and df.end_snapshot <= $2"));
    let (state, action) = step(state, GcEvent::Paths { paths: strings(&["a", "b"]) });
    assert!(matches!(action, GcAction::DeleteRows { inline_sql, .. }
        if inline_sql == "delete from iceberg_mirror.inline_3 where end_snapshot is not null and end_snapshot <= $1"));
    let (state, action) = step(state, GcEvent::Deleted { data_file_rows: 2, inline_rows: None, held: 0 });
    assert!(matches!(action, GcAction::DeleteObject { path } if path == "a"));
    let (state, action) = step(state, GcEvent::Object { deleted: false });
    assert!(matches!(action, GcAction::DeleteObject { path } if path == "b"));
    let (_, action) = step(state, GcEvent::Object { deleted: true });
    assert!(matches!(action, GcAction::Finish { summary }
        if summary == GcSummary { data_file_rows: 2, inline_rows: 0, objects_deleted: 1, held_by_mv_floor: 0 }));
    let (_, action) = step(GcState::Finding, GcEvent::Table { tid: None });
    assert!(matches!(action, GcAction::Finish { summary } if summary == GcSummary::default()));
    let (_, action) = step(GcState::Start, GcEvent::Horizon { horizon: None });
    assert!(matches!(action, GcAction::Fail { .. }));
    let (_, action) = gc_table_at(1 << 62, NOW, GcState::Finding, GcEvent::Table { tid: Some(1) });
    assert!(matches!(action, GcAction::Fail { error }
        if backend(&error, "gc: the window reaches beyond the calendar")));
    let (_, action) = gc_table(0, GcState::Finding, GcEvent::Table { tid: Some(1) });
    assert!(matches!(action, GcAction::FindHorizon { cutoff } if cutoff > NOW));
}

#[test]
fn many_small_files_are_compacted() {
    let cfg = CompactTriggerCfg { small_file_bytes: 100, min_small_files: 2 };
    let state = |is_stream, has_shadow, small_count| Some(CompactState { is_stream, has_shadow, small_count });
    assert!(maybe_enqueue_compact(&table("t"), None, cfg).is_none());
    assert!(maybe_enqueue_compact(&table("t"), state(false, false, 1), cfg).is_none());
    assert!(maybe_enqueue_compact(&table("t"), state(true, false, 9), cfg).is_none());
    assert!(maybe_enqueue_compact(&table("t"), state(false, true, 9), cfg).is_none());
    let job = maybe_enqueue_compact(&table("t\"x"), state(false, false, 2), cfg).unwrap();
    assert_eq!(job.kind, "compact_table");
    assert_eq!(job.payload, "{\"name\":\"t\\\"x\",\"schema\":\"main\"}");
    let never = compact_table(Err(ControlPlaneError::NotFound(s("main.t"))), Vec::new(), Vec::new());
    assert!(matches!(never, Ok(None)));
    let broken = compact_table(Err(ControlPlaneError::Backend(s("down"))), Vec::new(), Vec::new());
    assert!(matches!(broken, Err(ControlPlaneError::Backend(_))));
    let steps = compact_table(Ok(4), strings(&["a"]), vec![file("b")]).unwrap().unwrap();
    assert_eq!(steps.len(), 3);
}

fn event() -> LineageEvent {
    LineageEvent {
        run_id: 8,
        event_type: EventType::Complete,
        event_time: NOW,
        inputs: Vec::new(),
        outputs: Vec::new(),
        payload: s("{}"),
    }
}

#[test]
fn a_write_takes_its_route() {
    let names = strings(&["id"]);
    let plan = land(&table("t"), &names, &vec![column("id", "long")], Some(4)).unwrap();
    assert!(matches!(plan.decl, StreamDecl::Log(4)));
    assert!(plan.places.is_none() && plan.changelog.is_none());
    let route = land_parquet(&table("t"), Some(4), event(), vec![job("own")]);
    assert!(matches!(route, ParquetRoute::Stream { jobs, .. } if jobs.len() == 1));
    match land_parquet(&table("t"), None, event(), vec![job("own")]) {
        ParquetRoute::Batch { extras } => {
            assert_eq!(extras.data_trigger_tables[0].name, "t");
            assert_eq!((extras.jobs.len(), extras.reuse_snapshot), (1, None));
            assert!(extras.end_cap.is_none() && !extras.overwrite);
        }
        _ => panic!("no batch"),
    }
    assert_eq!(stream_extras(&table("t"), event(), Vec::new(), 9).reuse_snapshot, Some(9));
}

#[test]
fn retirement_asks_the_readers() {
    let t = table("t");
    let live = |stored: Option<bool>, intent: EndCapIntent, readers: Readers| {
        end_cap_live_inline_rows(&t, 7, 5, stored, &intent, &readers)
    };
    assert!(matches!(live(None, EndCapIntent::Removing, Readers::Unasked), CapStep::AskStorage));
    assert!(matches!(live(Some(false), EndCapIntent::Removing, Readers::Unasked), CapStep::Nothing));
    assert!(matches!(live(Some(true), EndCapIntent::Removing, Readers::Unasked), CapStep::AskReaders));
    assert!(matches!(live(Some(true), EndCapIntent::Reframing, Readers::Unasked), CapStep::Run { sql }
        if sql == "update iceberg_mirror.inline_7 set end_snapshot = 5 where end_snapshot is null"));
    let free = Readers::Asked { blocked: None };
    assert!(matches!(live(Some(true), EndCapIntent::Removing, free), CapStep::Run { .. }));
    let floor = mv_floor(
        Some(1),
        &mv_readers(&strings(&["a"]), &Vec::new()),
        &watermark_marks(&vec![(s("a"), 0, 4)]),
    );
    let held = Readers::Asked { blocked: floor };
    assert!(matches!(end_cap_inline_rows_by_id(&t, 7, 5, &EndCapIntent::Removing, &held), CapStep::Refuse(e)
        if matches!(&e, ControlPlaneError::Validation(m) if m.starts_with("mv-floor refuses end-cap: main.t "))));
    assert!(matches!(end_cap_inline_rows_by_id(&t, 7, 5, &EndCapIntent::Reframing, &held), CapStep::Run { .. }));
    assert!(end_cap_files_by_path(&Vec::new()).is_none());
    assert!(end_cap_files_by_path(&strings(&["a", "a"])).unwrap().contains(&s("a")));
}

#[test]
fn a_view_is_registered_where_its_source_starts() {
    assert!(matches!(bootstrap_mv_watermarks(None, None, None), BootstrapStep::Nothing));
    assert!(matches!(bootstrap_mv_watermarks(Some(7), None, None), BootstrapStep::AskBuckets { tid: 7 }));
    assert!(matches!(bootstrap_mv_watermarks(Some(7), Some(None), None), BootstrapStep::Nothing));
    let asked = bootstrap_mv_watermarks(Some(7), Some(Some(2)), None);
    assert!(matches!(asked, BootstrapStep::AskStarts { tid: 7, bucket_count: 2 }));
    let mut starts = OrderedMap::new();
    starts.insert(1, 5);
    starts.insert(0, 0);
    let seed = bootstrap_mv_watermarks(Some(7), Some(Some(2)), Some(&starts));
    assert!(matches!(seed, BootstrapStep::Seed { tid: 7, starts, gone: true } if starts == vec![(0, 0), (1, 5)]));
}
