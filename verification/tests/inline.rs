use control_plane::error::ControlPlaneError;
use control_plane::iceberg_flush::{
    changelog_extras, compaction_event_at, declared_columns, filter_out_minus_u, flush_extras, flush_table, FlushAction, FlushEvent,
    FlushState, KindColumn, ReadRows,
};
use control_plane::iceberg_mirror::{ConsolidateState, ProjectedColumn, TriggerState};
use control_plane::iceberg_type::BaseType;
use control_plane::iceberg_writer::AttemptOutcome;
use control_plane::inline_append::{
    inline_append, inline_append_decl, inline_append_mv, AppendAction, AppendEvent, AppendRequest,
    AppendState,
};
use control_plane::inline_cells::{Cell, ColumnValues};
use control_plane::inline_delta::{
    current_inline_version, extract_id_cell, full_live_column_specs, read_max_version,
    write_inline_delta, DeltaAction,
    DeltaEvent, DeltaRequest, DeltaRow, DeltaState, MirrorColumn, RowImage, VersionProbe, VersionStep,
};
use control_plane::inline_read::{
    inline_live_batch, inline_live_batch_full, inline_live_batch_shadow, read_fields, ReadAction, ReadEvent, ReadMode, ReadState,
};
use control_plane::mv_floor::EndCapIntent;
use control_plane::settle::{advance_mv_watermark_only, MvCommit, SettleStep};
use control_plane::stream::{StreamKind, WatermarkAdvance};
use control_plane::types::{ColumnDef, ColumnSpec, DatasetRef, EventType, TableRef};

fn s(t: &str) -> String {
    t.to_string()
}

fn strings(list: &[&str]) -> Vec<String> {
    list.iter().map(|t| t.to_string()).collect()
}

fn table() -> TableRef {
    TableRef { schema: s("main"), name: s("t") }
}

fn spec(name: &str, ty: &str) -> ColumnSpec {
    ColumnSpec { name: s(name), ty: s(ty), nullable: true }
}

fn live(name: &str, ty: &str) -> ProjectedColumn {
    ProjectedColumn { order: 1, name: s(name), iceberg_type: s(ty), nullable: true }
}

fn request(declares: bool) -> AppendRequest {
    AppendRequest {
        table: table(),
        columns: vec![spec("id", "long")],
        resolved: vec![Some(BaseType::Long)],
        batch: vec![ColumnValues::Int64(vec![Some(1), Some(2), Some(3)])],
        rows: 3,
        declares,
        accrues: true,
        run: 5,
        jobs: 2,
        mv: None,
    }
}

fn opened(live: Vec<ProjectedColumn>) -> AppendEvent {
    AppendEvent::Opened { tid: 7, created: false, existing: None, live }
}

#[test]
fn a_batch_is_appended() {
    let req = request(false);
    let (state, action) = inline_append_decl(&req, AppendState::Start, AppendEvent::Begin);
    assert!(matches!(action, AppendAction::Open));
    let (state, action) = inline_append_decl(&req, state, opened(Vec::new()));
    match action {
        AppendAction::Prepare { project, ddl } => {
            assert_eq!(project.len(), 1);
            assert_eq!(project[0].iceberg_type, "long");
            assert_eq!(ddl.len(), 5);
        }
        _ => panic!("no preparation"),
    }
    let batch = AppendEvent::Prepared { effective: None, kind: None, bucket_key: None };
    let (state, action) = inline_append_decl(&req, state, batch);
    match action {
        AppendAction::Insert { sql, frames, rows, notify, marks } => {
            assert_eq!(sql, "insert into iceberg_mirror.inline_7 (begin_snapshot, \"id\") values ($1, $2)");
            assert!(frames.is_none() && !notify && marks.is_empty());
            assert_eq!(rows.len(), 3);
            assert!(matches!(rows[2][0], Cell::I64(Some(3))));
        }
        _ => panic!("no insert"),
    }
    let over = Some(TriggerState { live_bytes: 9, effective: 8, enqueued: false });
    let done = AppendEvent::Inserted { trigger: over, is_cdc: false, shadowed: false };
    let (state, action) = inline_append_decl(&req, state, done);
    match action {
        AppendAction::Finish { steps } => {
            assert_eq!(steps.len(), 6);
            assert!(matches!(&steps[0], SettleStep::Queue { job } if job.kind == "flush_table"));
            assert!(matches!(steps[1], SettleStep::Emit));
            assert!(matches!(steps[2], SettleStep::Enqueue { index: 0 }));
            assert!(matches!(steps[3], SettleStep::Enqueue { index: 1 }));
            assert!(matches!(steps[4], SettleStep::Fire { run: 5 }));
            assert!(matches!(steps[5], SettleStep::Commit));
        }
        _ => panic!("not finished"),
    }
    assert!(matches!(state, AppendState::Done));
    let (_, action) = inline_append_decl(&req, state, AppendEvent::Begin);
    assert!(matches!(action, AppendAction::Fail { .. }));
}

#[test]
fn a_stream_append_reserves_offsets() {
    let req = request(true);
    let state = AppendState::Preparing { tid: 7 };
    let log = AppendEvent::Prepared { effective: Some(2), kind: Some(StreamKind::Log), bucket_key: None };
    let (state, action) = inline_append_decl(&req, state, log);
    assert!(matches!(&action, AppendAction::Reserve { runs } if runs == &vec![(0, 2), (1, 1)]));
    let (_, action) = inline_append_decl(&req, state, AppendEvent::Reserved { firsts: vec![10, 20] });
    assert!(matches!(action, AppendAction::Insert { frames: Some(f), notify: true, .. }
        if f == vec![(0, 10), (1, 20), (0, 11)]));
    let state = AppendState::Preparing { tid: 7 };
    let cdc = AppendEvent::Prepared { effective: Some(2), kind: Some(StreamKind::Cdc), bucket_key: Some(s("zz")) };
    let (_, action) = inline_append_decl(&req, state, cdc);
    assert!(matches!(action, AppendAction::Fail { error: ControlPlaneError::Backend(m) }
        if m == "cdc bucket_key `zz` not in appended columns"));
}

#[test]
fn inline_columns_do_not_change() {
    let req = request(false);
    let (_, action) = inline_append_decl(&req, AppendState::Opening, opened(vec![live("x", "long")]));
    assert!(matches!(action, AppendAction::Fail { error: ControlPlaneError::Validation(m) }
        if m == "schema evolution unsupported: column at position 0 changed from \"x\" to \"id\" (rename or reorder)"));
    let mut wider = request(false);
    wider.columns.push(spec("n", "long"));
    wider.resolved.push(Some(BaseType::Long));
    wider.batch.push(ColumnValues::Int64(vec![None, None, None]));
    let (_, action) = inline_append_decl(&wider, AppendState::Opening, opened(vec![live("id", "long")]));
    assert!(matches!(action, AppendAction::Fail { error: ControlPlaneError::Validation(m) }
        if m == "schema evolution unsupported: additive evolution on the inline path is deferred"));
    let mut untyped = request(false);
    untyped.columns[0].ty = s("blob");
    untyped.resolved[0] = None;
    let (_, action) = inline_append_decl(&untyped, AppendState::Opening, opened(Vec::new()));
    assert!(matches!(action, AppendAction::Fail { error: ControlPlaneError::Backend(m) }
        if m == "inline: no iceberg type for \"blob\""));
}

#[test]
fn shadowed_tables_are_not_flushed() {
    let req = request(false);
    let over = Some(TriggerState { live_bytes: 9, effective: 8, enqueued: false });
    for (trigger, is_cdc, shadowed) in [
        (over, false, true),
        (Some(TriggerState { live_bytes: 9, effective: 8, enqueued: true }), false, false),
        (Some(TriggerState { live_bytes: 7, effective: 8, enqueued: false }), false, false),
        (None, false, false),
    ] {
        let event = AppendEvent::Inserted { trigger, is_cdc, shadowed };
        let (_, action) = inline_append_decl(&req, AppendState::Inserting, event);
        assert!(matches!(action, AppendAction::Finish { steps } if matches!(steps[0], SettleStep::Emit)));
    }
    let event = AppendEvent::Inserted { trigger: over, is_cdc: true, shadowed: true };
    let (_, action) = inline_append_decl(&req, AppendState::Inserting, event);
    assert!(matches!(action, AppendAction::Finish { steps } if matches!(steps[0], SettleStep::Queue { .. })));
}

// Single changes.

fn change(tombstone: bool, before: bool) -> DeltaRequest {
    DeltaRequest {
        table: table(),
        columns: vec![spec("id", "long"), spec("n", "string")],
        id_column: s("id"),
        tombstone,
        batch_names: strings(&["id", "n"]),
        batch: vec![ColumnValues::Int64(vec![Some(4)]), ColumnValues::Utf8(vec![Some(s("x"))])],
        before: if before {
            Some(RowImage {
                columns: vec![spec("id", "long"), spec("n", "string")],
                batch: vec![ColumnValues::Int64(vec![Some(4)]), ColumnValues::Utf8(vec![Some(s("w"))])],
            })
        } else {
            None
        },
        expected_version: 3,
        accrues: true,
        run: 5,
        jobs: 1,
    }
}

fn mirrored() -> Vec<MirrorColumn> {
    vec![
        MirrorColumn { name: s("id"), column_type: s("long"), nullable: true, parametric: None },
        MirrorColumn { name: s("n"), column_type: s("string"), nullable: true, parametric: None },
    ]
}

fn to_making(req: &DeltaRequest) -> DeltaState {
    let (state, action) = write_inline_delta(req, DeltaState::Start, DeltaEvent::Begin);
    assert!(matches!(action, DeltaAction::Locate));
    let (state, action) = write_inline_delta(req, state, DeltaEvent::Located { tid: Some(7) });
    assert!(matches!(action, DeltaAction::ReadColumns { tid: 7 }));
    let (state, action) = write_inline_delta(req, state, DeltaEvent::ColumnsRead { columns: mirrored() });
    assert!(matches!(action, DeltaAction::Lock { ddl, .. } if ddl.len() == 5));
    let (state, action) = write_inline_delta(req, state, DeltaEvent::Locked { readable: true });
    assert!(matches!(action, DeltaAction::ReadVersion { id: Cell::I64(Some(4)), .. }));
    let (state, action) = write_inline_delta(req, state, DeltaEvent::VersionRead { version: 3 });
    assert!(matches!(action, DeltaAction::Snapshot));
    state
}

#[test]
fn a_new_version_is_written() {
    let req = change(false, false);
    let state = to_making(&req);
    let plain = DeltaEvent::Snapshotted { kind: None, bucket_count: 0 };
    let (state, action) = write_inline_delta(&req, state, plain);
    match action {
        DeltaAction::Write { rows } => {
            assert_eq!(rows.len(), 1);
            assert!(matches!(&rows[0], DeltaRow::Version { cells, .. } if cells.len() == 2));
        }
        _ => panic!("no write"),
    }
    let due = Some(ConsolidateState { delta_count: 9, effective: 8, enqueued: false });
    let (_, action) = write_inline_delta(&req, state, DeltaEvent::Written { trigger: due });
    match action {
        DeltaAction::Finish { steps } => {
            assert_eq!(steps.len(), 6);
            assert!(matches!(&steps[0], SettleStep::Queue { job } if job.kind == "stream_consolidate"));
            assert!(matches!(steps[1], SettleStep::MarkShadow));
            assert!(matches!(steps[2], SettleStep::Emit));
            assert!(matches!(steps[3], SettleStep::Fire { run: 5 }));
            assert!(matches!(steps[4], SettleStep::Enqueue { index: 0 }));
            assert!(matches!(steps[5], SettleStep::Commit));
        }
        _ => panic!("not finished"),
    }
    let req = change(true, false);
    let (_, action) = write_inline_delta(&req, to_making(&req), DeltaEvent::Snapshotted { kind: None, bucket_count: 0 });
    assert!(matches!(action, DeltaAction::Write { rows }
        if matches!(&rows[0], DeltaRow::Tombstone { id: Cell::I64(Some(4)), .. })));
}

#[test]
fn a_stale_change_is_refused() {
    let req = change(false, false);
    let state = DeltaState::Comparing { tid: 7, id: Cell::I64(Some(4)) };
    let (_, action) = write_inline_delta(&req, state, DeltaEvent::VersionRead { version: 5 });
    assert!(matches!(action, DeltaAction::Fail { error: ControlPlaneError::Conflict(m) }
        if m == "cow: identity version advanced 3 -> 5 (concurrent mutation)"));
    let (_, action) = write_inline_delta(&req, DeltaState::Locating, DeltaEvent::Located { tid: None });
    assert!(matches!(action, DeltaAction::Fail { error: ControlPlaneError::Backend(m) }
        if m == "no mirror table for main.t"));
}

#[test]
fn an_update_of_a_change_stream_is_a_pair() {
    let req = change(false, true);
    let state = to_making(&req);
    let cdc = DeltaEvent::Snapshotted { kind: Some(StreamKind::Cdc), bucket_count: 1 };
    let (state, action) = write_inline_delta(&req, state, cdc);
    assert!(matches!(action, DeltaAction::Reserve { bucket: 0, count: 2 }));
    let (_, action) = write_inline_delta(&req, state, DeltaEvent::Reserved { first: 8 });
    match action {
        DeltaAction::Write { rows } => {
            assert!(matches!(&rows[0], DeltaRow::Change { kind: "-U", offset: 8, tombstone: false, .. }));
            assert!(matches!(&rows[1], DeltaRow::Change { kind: "+U", offset: 9, tombstone: false, .. }));
        }
        _ => panic!("no write"),
    }
    let req = change(true, true);
    let state = to_making(&req);
    let cdc = DeltaEvent::Snapshotted { kind: Some(StreamKind::Cdc), bucket_count: 1 };
    let (state, action) = write_inline_delta(&req, state, cdc);
    assert!(matches!(action, DeltaAction::Reserve { count: 1, .. }));
    let (_, action) = write_inline_delta(&req, state, DeltaEvent::Reserved { first: 8 });
    assert!(matches!(action, DeltaAction::Write { rows }
        if rows.len() == 1 && matches!(&rows[0], DeltaRow::Change { kind: "-D", tombstone: true, .. })));
    let req = change(false, false);
    let cdc = DeltaEvent::Snapshotted { kind: Some(StreamKind::Cdc), bucket_count: 1 };
    let (_, action) = write_inline_delta(&req, to_making(&req), cdc);
    assert!(matches!(action, DeltaAction::Fail { error: ControlPlaneError::Backend(m) }
        if m == "cdc mutation requires a before-image"));
}

fn id_of(req: &DeltaRequest) -> Result<Cell, ControlPlaneError> {
    extract_id_cell(&req.columns, &req.id_column, &req.batch_names, &req.batch)
}

#[test]
fn an_identity_is_found() {
    let req = change(false, false);
    assert!(matches!(id_of(&req), Ok(Cell::I64(Some(4)))));
    let mut other = change(false, false);
    other.id_column = s("zz");
    assert!(matches!(id_of(&other), Err(ControlPlaneError::Backend(m)) if m == "id column zz not in columns"));
    let mut absent = change(false, false);
    absent.batch_names = strings(&["a", "b"]);
    assert!(matches!(id_of(&absent), Err(ControlPlaneError::Backend(m))
        if m == "id column id not in batch: Schema error: Unable to get field named \"id\". Valid fields: [\"a\", \"b\"]"));
    assert!(matches!(read_max_version(7, false, "id", &Cell::I64(None)), Ok(VersionProbe::Zero)));
    assert!(matches!(read_max_version(7, true, "id", &Cell::I64(None)), Err(ControlPlaneError::Backend(m))
        if m == "identity value is null"));
    assert!(matches!(read_max_version(7, true, "id", &Cell::I64(Some(4))), Ok(VersionProbe::Ask { .. })));
    let specs = full_live_column_specs(&mirrored()).unwrap();
    assert_eq!((specs[1].name.as_str(), specs[1].ty.as_str()), ("n", "string"));
    let mut bad = mirrored();
    bad[0].column_type = s("uuid");
    assert!(full_live_column_specs(&bad).is_err());
}

#[test]
fn a_version_is_asked_for() {
    let req = change(false, false);
    let ask = |tid, stored| {
        current_inline_version(tid, &req.columns, "id", &req.batch_names, &req.batch, stored)
    };
    assert!(matches!(ask(None, None), Ok(VersionStep::Zero)));
    assert!(matches!(ask(Some(7), None), Ok(VersionStep::AskStorage)));
    assert!(matches!(ask(Some(7), Some(false)), Ok(VersionStep::Zero)));
    assert!(matches!(ask(Some(7), Some(true)), Ok(VersionStep::Ask { sql, id: Cell::I64(Some(4)) })
        if sql == "select coalesce(max(begin_snapshot), 0) as v from iceberg_mirror.inline_7 \
                   where \"id\" = $1 and end_snapshot is null \
                   and (loom_change_kind is null or loom_change_kind <> '-U')"));
    let unnamed = current_inline_version(Some(7), &req.columns, "zz", &req.batch_names, &req.batch, Some(true));
    assert!(matches!(unnamed, Err(ControlPlaneError::Backend(m)) if m == "id column zz not in columns"));
}

// Reading.

#[test]
fn shadowed_rows_are_read_with_their_framing() {
    let columns = ReadEvent::ColumnsRead { columns: vec![spec("id", "long")], resolved: vec![Some(BaseType::Long)] };
    let (state, action) = inline_live_batch_shadow(5, ReadState::Describing { tid: 7 }, columns);
    assert!(matches!(action, ReadAction::Query { sql }
        if sql.starts_with("select loom_row_id, begin_snapshot, loom_tombstone, \"id\" from ")));
    let (_, action) = inline_live_batch_shadow(5, state, ReadEvent::Queried { rows: 1 });
    match action {
        ReadAction::Decode { tid, fields } => {
            assert_eq!(tid, 7);
            let names: Vec<(&str, usize)> = fields.iter().map(|f| (f.name.as_str(), f.place)).collect();
            assert_eq!(names, vec![("id", 3), ("begin_snapshot", 1), ("loom_tombstone", 2)]);
        }
        _ => panic!("no rows"),
    }
}

#[test]
fn live_rows_are_read() {
    let (state, action) = inline_live_batch(5, ReadState::Start, ReadEvent::Begin);
    assert!(matches!(action, ReadAction::Locate));
    let (state, action) = inline_live_batch(5, state, ReadEvent::Located { tid: Some(7) });
    assert!(matches!(action, ReadAction::CheckStorage { tid: 7 }));
    let (state, action) = inline_live_batch(5, state, ReadEvent::StorageChecked { exists: true });
    assert!(matches!(action, ReadAction::ReadColumns { tid: 7 }));
    let columns = ReadEvent::ColumnsRead { columns: vec![spec("id", "long")], resolved: vec![Some(BaseType::Long)] };
    let (state, action) = inline_live_batch(5, state, columns);
    assert!(matches!(action, ReadAction::Query { sql } if sql.contains("<> '-U'")));
    let (_, action) = inline_live_batch(5, state, ReadEvent::Queried { rows: 2 });
    assert!(matches!(action, ReadAction::Decode { tid: 7, fields } if fields.len() == 1 && fields[0].ty == BaseType::Long));
    let (_, action) = inline_live_batch_full(5, ReadState::Locating, ReadEvent::Located { tid: None });
    assert!(matches!(action, ReadAction::Nothing));
    let gone = ReadEvent::StorageChecked { exists: false };
    let (_, action) = inline_live_batch_full(5, ReadState::Checking { tid: 7 }, gone);
    assert!(matches!(action, ReadAction::Nothing));
    let e = read_fields(ReadMode::Current, &vec![spec("x", "blob")], &vec![None]).unwrap_err();
    assert!(matches!(e, ControlPlaneError::Backend(m) if m == "inline read: unsupported type \"blob\""));
    let e = read_fields(ReadMode::Shadow, &vec![spec("x", "blob")], &vec![None]).unwrap_err();
    assert!(matches!(e, ControlPlaneError::Backend(m) if m == "inline shadow read: unsupported type \"blob\""));
}

// Flushing.

#[test]
fn rows_are_flushed() {
    let t = table();
    let step = |state, event| flush_table(&t, state, event);
    let (state, _) = step(FlushState::Start, FlushEvent::Begin);
    let (state, action) = step(state, FlushEvent::SnapshotRead { current: Some(5) });
    assert!(matches!(action, FlushAction::ReadKind));
    let (state, action) = step(state, FlushEvent::KindRead { tid: Some(7), is_cdc: false });
    assert!(matches!(action, FlushAction::ReadShadow { tid: 7 }));
    let (state, action) = step(state, FlushEvent::ShadowRead { shadowed: false });
    assert!(matches!(action, FlushAction::ReadRows { at: 5, with_images: false }));
    let rows = FlushEvent::RowsRead { rows: Some(ReadRows { tid: 7, row_ids: vec![1, 2], kinds: KindColumn::NotText }) };
    let (state, action) = step(state, rows);
    assert!(matches!(action, FlushAction::CheckRows { tid: 7 }));
    let (state, action) = step(state, FlushEvent::RowsChecked { shadowed: false });
    assert!(matches!(action, FlushAction::Append { tid: 7, row_ids } if row_ids == vec![1, 2]));
    let (state, action) = step(state, FlushEvent::Appended { snapshot: 8 });
    assert!(matches!(action, FlushAction::Disarm { tid: 7 }));
    let (_, action) = step(state, FlushEvent::Disarmed);
    assert!(matches!(action, FlushAction::Finish { snapshot: Some(8) }));
    let (_, action) = step(FlushState::Reading, FlushEvent::SnapshotRead { current: None });
    assert!(matches!(action, FlushAction::Finish { snapshot: None }));
    let (_, action) = step(FlushState::Shadow { at: 5, tid: 7 }, FlushEvent::ShadowRead { shadowed: true });
    assert!(matches!(action, FlushAction::StopShadowed { tid: 7, restore: false }));
    let (_, action) = step(FlushState::Checking { tid: 7, row_ids: vec![1] }, FlushEvent::RowsChecked { shadowed: true });
    assert!(matches!(action, FlushAction::StopShadowed { tid: 7, restore: true }));
    let (_, action) = step(FlushState::Rows { is_cdc: false }, FlushEvent::RowsRead { rows: None });
    assert!(matches!(action, FlushAction::StopEmpty));
}

#[test]
fn a_change_stream_is_flushed_to_both_tables() {
    let t = table();
    let kinds = KindColumn::Texts { kinds: strings(&["+I", "-U", "+U"]) };
    let rows = ReadRows { tid: 7, row_ids: vec![4, 5, 6], kinds };
    let (state, action) =
        flush_table(&t, FlushState::Rows { is_cdc: true }, FlushEvent::RowsRead { rows: Some(rows) });
    assert!(matches!(action, FlushAction::AppendBoth { tid: 7, row_ids, keep }
        if row_ids == vec![4, 5, 6] && keep == vec![true, false, true]));
    let beaten = FlushEvent::Attempted {
        outcome: AttemptOutcome::Beaten,
        snapshot: 0,
        error: ControlPlaneError::Backend(s("beaten")),
    };
    let (state, action) = flush_table(&t, state, beaten);
    assert!(matches!(action, FlushAction::Wait { .. }));
    let (state, action) = flush_table(&t, state, FlushEvent::Waited);
    assert!(matches!(action, FlushAction::AppendAgain));
    let won = FlushEvent::Attempted {
        outcome: AttemptOutcome::Committed,
        snapshot: 9,
        error: ControlPlaneError::Backend(s("")),
    };
    let (_, action) = flush_table(&t, state, won);
    assert!(matches!(action, FlushAction::Disarm { tid: 7 }));
    let none = filter_out_minus_u(&KindColumn::Missing { names: strings(&["id"]) }).unwrap_err();
    assert!(matches!(none, ControlPlaneError::Backend(m) if m == "cdc flush: batch has no loom_change_kind column: Schema error: Unable to get field named \"loom_change_kind\". Valid fields: [\"id\"]"));
    let number = filter_out_minus_u(&KindColumn::NotText).unwrap_err();
    assert!(matches!(number, ControlPlaneError::Backend(m) if m == "cdc flush: loom_change_kind is not a string column"));
}

#[test]
fn a_flush_is_recorded() {
    let e = compaction_event_at(DatasetRef { namespace: s("main"), name: s("t") }, 5, 77);
    assert_eq!((e.run_id, e.event_time, e.payload.as_str()), (5, 77, "{\"source\":\"flush\"}"));
    assert!(e.event_type == EventType::Complete);
    assert_eq!(e.outputs.len() + e.inputs.len(), 2);
    let again = compaction_event_at(DatasetRef { namespace: s("main"), name: s("t") }, 5, 77);
    let extras = flush_extras(7, vec![1, 2], e, Vec::new());
    assert!(matches!(&extras.end_cap, Some(cap) if cap.table_id == 7 && cap.row_ids == vec![1, 2]));
    assert!(matches!(extras.intent, EndCapIntent::Reframing));
    assert!(changelog_extras(again).end_cap.is_none());
    let specs = declared_columns(&vec![ColumnDef { order: 3, name: s("a"), ty: s("long"), nullable: false }]);
    assert_eq!((specs[0].name.as_str(), specs[0].ty.as_str(), specs[0].nullable), ("a", "long", false));
}

#[test]
fn a_view_moves_its_marks() {
    let mv = || MvCommit {
        mv: s("v"),
        source_table_id: 3,
        advances: vec![WatermarkAdvance { bucket: 1, from: 4, to: 9 }],
        run_id: Some(8),
    };
    let steps = advance_mv_watermark_only(&mv());
    assert!(matches!(steps[0], SettleStep::Advance { advance } if advance.bucket == 1 && advance.from == 4 && advance.to == 9));
    assert!(matches!(steps[1], SettleStep::MarkRun { run: 8, snapshot: Some(0) }));
    assert!(matches!(steps[2], SettleStep::Commit));
    let req = inline_append_mv(
        table(),
        vec![spec("id", "long")],
        vec![Some(BaseType::Long)],
        vec![ColumnValues::Int64(vec![Some(1)])],
        1,
        false,
        5,
        mv(),
    );
    assert!(req.declares && req.jobs == 0);
    let plain = AppendEvent::Prepared { effective: None, kind: None, bucket_key: None };
    let (_, action) = inline_append_decl(&req, AppendState::Preparing { tid: 7 }, plain);
    assert!(matches!(action, AppendAction::Insert { marks, .. }
        if marks.len() == 2 && matches!(marks[1], SettleStep::MarkRun { run: 8, snapshot: None })));
    let bare = inline_append(table(), Vec::new(), Vec::new(), Vec::new(), 0, false, Some(4), 5);
    assert!(bare.declares && bare.mv.is_none());
    let batch = inline_append(table(), Vec::new(), Vec::new(), Vec::new(), 0, false, None, 5);
    assert!(!batch.declares);
}
