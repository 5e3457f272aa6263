use control_plane::error::ControlPlaneError;
use control_plane::framing::{
    bucket_counts, frame_rows, reserve_runs, round_robin, round_robin_share, run_starts,
};
use control_plane::iceberg_inline::{
    any_live_sql, append_sql, change_sql, clear_has_shadow_if_quiescent, ddl_outcome,
    end_cap_by_id_sql, end_cap_live_sql, ensure_inline_schema, has_live_inline_rows,
    inline_table_name, is_duplicate_object_race, live_rows_sql, live_shadow_sql, max_version_sql,
    mvcc_live_pred, placeholders, quote_ident, run_idempotent_ddl, shadow_among_sql, tombstone_sql,
    version_sql, DdlOutcome, InlineProbe, ShadowClearing,
};
use control_plane::iceberg_mirror::{
    added_entries, check_capped, columns_of, columns_to_project, stat_rows, unique_paths, FieldType,
    ProjectedColumn, ProjectedFile, SchemaField,
};
use control_plane::iceberg_schema_evolution::{
    classify_schema_change, SchemaEvolutionError, SchemaPlan,
};
use control_plane::iceberg_stats::{stat_from_text, stat_to_text, StatValue};
use control_plane::iceberg_type::{
    ducklake_physical_type, iceberg_physical_type, logical_from_ducklake, logical_from_iceberg,
    mirror_column_type, pg_type_for, to_ducklake_stat_string, BaseType,
};
use control_plane::iceberg_writer::{
    commit_append_with_retry, commit_backoff, written_file, AttemptOutcome, RetryStep,
};
use control_plane::inline_cells::{
    advisory_key_for_id, cdc_bucket, cell_from_arrow, lock_key, timestamp_micros, Cell, ColumnValues,
};
use control_plane::inline_columns::column_array;
use control_plane::jobs::table_job;
use control_plane::mv_bootstrap::{
    earliest_surviving_offsets, prefix_is_gone, FileBounds, Survey, SurveyAnswer, SurveyRead,
};
use control_plane::mv_floor::{
    blocking_row_sql, consults_floor, guard_end_cap, mv_floor, mv_readers, reclaim_rows_sql,
    removal_blocked, stranded_mv_readers, watermark_marks, EndCapIntent,
};
use control_plane::ordered::{OrderedMap, OrderedSet};
use control_plane::types::{ColumnSpec, ColumnStat, TableRef};
use std::collections::hash_map::DefaultHasher;
use std::hash::{Hash, Hasher};

fn s(t: &str) -> String {
    t.to_string()
}

fn strings(list: &[&str]) -> Vec<String> {
    list.iter().map(|t| t.to_string()).collect()
}

fn table() -> TableRef {
    TableRef { schema: s("main"), name: s("t") }
}

fn spec(name: &str, ty: &str) -> ColumnSpec {
    ColumnSpec { name: s(name), ty: s(ty), nullable: true }
}

fn column(name: &str, ty: &str, nullable: bool) -> ProjectedColumn {
    ProjectedColumn { order: 0, name: s(name), iceberg_type: s(ty), nullable }
}

// Types.

const NAMES: [(&str, &str, &str); 7] = [
    ("integer", "int", "integer"),
    ("long", "long", "bigint"),
    ("double", "double", "double precision"),
    ("boolean", "boolean", "boolean"),
    ("string", "string", "text"),
    ("date", "date", "date"),
    ("timestamp", "timestamp", "timestamp"),
];

#[test]
fn names_of_types_read_back() {
    for (logical, physical, pg) in NAMES {
        assert_eq!(iceberg_physical_type(logical), Some(physical));
        assert_eq!(mirror_column_type(logical, None), Some(s(physical)));
        assert_eq!(pg_type_for(logical), Some(pg));
        assert_eq!(logical_from_iceberg(physical, None).unwrap().canonical_name(), logical);
    }
    assert_eq!(iceberg_physical_type(" LONG\t"), Some("long"));
    assert_eq!(iceberg_physical_type("blob"), None);
    assert_eq!(pg_type_for("vector(3)"), Some("real[]"));
    assert_eq!(pg_type_for("uuid"), None);
    assert_eq!(logical_from_iceberg("TimestampTZ", None), Some(BaseType::Timestamp));
    assert_eq!(logical_from_iceberg("decimal", None), None);
    let v = BaseType::Vector(768);
    assert_eq!(mirror_column_type("vector(768)", Some(v)), Some(s("vector(768)")));
    assert_eq!(logical_from_iceberg("vector(768)", Some(v)), Some(v));
    assert_eq!(v.canonical_name(), "vector(768)");
}

#[test]
fn names_of_the_other_catalog_read_back() {
    for base in [
        BaseType::Integer,
        BaseType::Long,
        BaseType::Double,
        BaseType::Boolean,
        BaseType::String,
        BaseType::Date,
        BaseType::Timestamp,
    ] {
        assert_eq!(logical_from_ducklake(ducklake_physical_type(base)), Some(base));
    }
    assert_eq!(logical_from_ducklake("hugeint"), None);
    assert_eq!(to_ducklake_stat_string(&StatValue::I64(-7)), "-7");
}

#[test]
fn statistics_read_back() {
    let back = |v: StatValue, ty: &str| {
        let text = stat_to_text(&v);
        (text.clone(), stat_from_text(&text, ty, true))
    };
    assert!(matches!(back(StatValue::I32(i32::MIN), "int"), (t, Some(StatValue::I32(i32::MIN))) if t == "-2147483648"));
    assert!(matches!(back(StatValue::I64(i64::MAX), "long"), (_, Some(StatValue::I64(i64::MAX)))));
    assert!(matches!(back(StatValue::Bool(true), "boolean"), (t, Some(StatValue::Bool(true))) if t == "true"));
    assert!(matches!(back(StatValue::Str(s("x")), "string"), (_, Some(StatValue::Str(t))) if t == "x"));
    assert!(matches!(back(StatValue::Real(s("1.5")), "double"), (_, Some(StatValue::Real(t))) if t == "1.5"));
    assert!(stat_from_text("1.5", "double", false).is_none());
    assert!(stat_from_text("2147483648", "int", false).is_none());
    assert!(stat_from_text("", "long", false).is_none());
    assert!(matches!(stat_from_text("+5", " INT ", false), Some(StatValue::I32(5))));
    assert!(stat_from_text("19000", "date", false).is_none());
}

// Schema evolution.

#[test]
fn changes_of_columns_are_classified() {
    let live = vec![column("a", "long", true), column("b", "string", false)];
    let plan = classify_schema_change(&live, &live.iter().map(|c| c.duplicate()).collect());
    assert!(matches!(plan, Ok(SchemaPlan::Identical)));
    let more = vec![column("a", "long", true), column("b", "string", false), column("c", "int", true)];
    match classify_schema_change(&live, &more) {
        Ok(SchemaPlan::Additive { new_columns }) => {
            assert_eq!(new_columns.len(), 1);
            assert_eq!(new_columns[0].name, "c");
        }
        _ => panic!("not additive"),
    }
    let dropped = classify_schema_change(&live, &vec![column("a", "long", true)]).unwrap_err();
    assert_eq!(dropped.message(), "schema evolution unsupported: column \"b\" was dropped");
    let renamed = classify_schema_change(&live, &vec![column("x", "long", true)]).unwrap_err();
    assert_eq!(
        renamed.message(),
        "schema evolution unsupported: column at position 0 changed from \"a\" to \"x\" (rename or reorder)"
    );
    let retyped = classify_schema_change(&live, &vec![column("a", "int", true)]).unwrap_err();
    assert_eq!(
        retyped.message(),
        "schema evolution unsupported: column \"a\" type changed from \"long\" to \"int\""
    );
    let nulls = classify_schema_change(&live, &vec![column("a", "long", false)]).unwrap_err();
    assert!(matches!(&nulls, SchemaEvolutionError::ColumnNullabilityChanged { name } if name == "a"));
    assert_eq!(nulls.message(), "schema evolution unsupported: column \"a\" nullability changed");
    let required = vec![column("a", "long", true), column("b", "string", false), column("c", "int", false)];
    let added = classify_schema_change(&live, &required).unwrap_err();
    assert_eq!(added.message(), "schema evolution unsupported: new column \"c\" is not nullable");
}

// The mirror.

#[test]
fn only_new_columns_are_projected() {
    let a = || column("a", "long", true);
    assert_eq!(columns_to_project(&Vec::new(), &vec![a()]).unwrap().len(), 1);
    assert_eq!(columns_to_project(&vec![a()], &vec![a()]).unwrap().len(), 0);
    let new = columns_to_project(&vec![a()], &vec![a(), column("b", "int", true)]).unwrap();
    assert_eq!(new[0].name, "b");
    assert!(matches!(columns_to_project(&vec![a()], &Vec::new()), Err(ControlPlaneError::Validation(m))
        if m == "schema evolution unsupported: column \"a\" was dropped"));
}

#[test]
fn statistics_become_rows() {
    let stat = |name: &str| ColumnStat {
        column_name: s(name),
        null_count: 1,
        column_size_bytes: 8,
        min: Some(StatValue::I64(3)),
        max: None,
    };
    let file = |stats| ProjectedFile {
        path: s("p"),
        file_format: s("parquet"),
        record_count: 1,
        file_size_bytes: 2,
        column_stats: stats,
    };
    let rows = stat_rows(&vec![file(vec![stat("a"), stat("b")]), file(vec![]), file(vec![stat("c")])], &vec![5, 6, 7]).unwrap();
    assert_eq!(rows.file_ids, vec![5, 5, 7]);
    assert_eq!(rows.columns, strings(&["a", "b", "c"]));
    assert_eq!(rows.mins[0], Some(s("3")));
    assert_eq!(rows.maxs[0], None);
    assert!(stat_rows(&vec![file(vec![])], &vec![1]).is_none());
}

#[test]
fn expired_paths_must_be_live() {
    let paths = unique_paths(&strings(&["a", "b", "a"]));
    assert!(paths.contains(&s("a")) && paths.contains(&s("b")) && !paths.contains(&s("c")));
    assert!(check_capped(2, 2).is_ok());
    assert!(matches!(check_capped(3, 1), Err(ControlPlaneError::Conflict(m))
        if m == "compact: 2 of 3 expire paths were not live (raced compaction)"));
    assert_eq!(added_entries(&vec![Some(4), None, Some(3), Some(4)], 4), vec![0, 3]);
}

#[test]
fn fields_become_columns() {
    let field = |name: &str, ty: FieldType, doc: Option<&str>, required: bool| SchemaField {
        name: s(name),
        field_type: ty,
        doc: doc.map(s),
        required,
    };
    let columns = columns_of(&vec![
        field("id", FieldType::Primitive(s("long")), None, true),
        field("v", FieldType::List, Some("vector(3)"), false),
    ])
    .unwrap();
    assert_eq!((columns[0].iceberg_type.as_str(), columns[0].nullable), ("long", false));
    assert_eq!((columns[1].iceberg_type.as_str(), columns[1].nullable), ("vector(3)", true));
    let bare = columns_of(&vec![field("v", FieldType::List, None, false)]).unwrap_err();
    assert!(matches!(bare, ControlPlaneError::Backend(m) if m == "project: list column v lacks a vector(N) doc"));
    let map = columns_of(&vec![field("m", FieldType::Other(s("Map")), None, false)]).unwrap_err();
    assert!(matches!(map, ControlPlaneError::Backend(m) if m == "project: unsupported column type Map"));
}

// Framing.

#[test]
fn rows_are_shared_out() {
    let buckets = round_robin(7, 3);
    assert_eq!(buckets, vec![0, 1, 2, 0, 1, 2, 0]);
    let counts = bucket_counts(&buckets, 3);
    assert_eq!(counts, vec![3, 2, 2]);
    for b in 0..3 {
        assert_eq!(round_robin_share(7, 3, b) as i64, counts[b]);
    }
    assert_eq!(reserve_runs(&vec![2, 0, 1]), vec![(0, 2), (2, 1)]);
    assert_eq!(run_starts(3, &vec![(0, 2), (2, 1)], &vec![10, 30]), vec![10, 0, 30]);
    assert_eq!(
        frame_rows(&vec![0, 1, 0, 1], &vec![5, 9]),
        vec![(0, 5), (1, 9), (0, 6), (1, 10)]
    );
}

// The rows kept in line.

#[test]
fn commands_on_inline_rows() {
    assert_eq!(inline_table_name(7), "iceberg_mirror.inline_7");
    assert_eq!(quote_ident("a\"b"), "\"a\"\"b\"");
    assert_ne!(quote_ident("a\"\"b"), quote_ident("a\"b"));
    assert_eq!(mvcc_live_pred(5), "begin_snapshot <= 5 and (end_snapshot is null or end_snapshot > 5)");
    assert_eq!(end_cap_live_sql(7, 5), "update iceberg_mirror.inline_7 set end_snapshot = 5 where end_snapshot is null");
    assert_eq!(
        end_cap_by_id_sql(7, 5),
        "update iceberg_mirror.inline_7 set end_snapshot = 5 where loom_row_id = any($1) and end_snapshot is null"
    );
    assert_eq!(
        any_live_sql(7, 5),
        "select exists(select 1 from iceberg_mirror.inline_7 where begin_snapshot <= 5 and (end_snapshot is null or end_snapshot > 5))"
    );
    assert!(shadow_among_sql(7).starts_with("select exists(select 1 from iceberg_mirror.inline_7 where loom_row_id = any($1)"));
    assert_eq!(
        max_version_sql(7, "id"),
        "select coalesce(max(begin_snapshot), 0) as v from iceberg_mirror.inline_7 where \"id\" = $1 and end_snapshot is null and (loom_change_kind is null or loom_change_kind <> '-U')"
    );
    assert_eq!(placeholders(3, 4), "$4, $5, $6");
    assert_eq!(placeholders(0, 4), "");
    let columns = vec![spec("id", "long"), spec("n", "string")];
    assert_eq!(
        append_sql(7, &columns, false),
        "insert into iceberg_mirror.inline_7 (begin_snapshot, \"id\", \"n\") values ($1, $2, $3)"
    );
    assert_eq!(
        append_sql(7, &columns, true),
        "insert into iceberg_mirror.inline_7 (begin_snapshot, loom_bucket, loom_offset, \"id\", \"n\") values ($1, $2, $3, $4, $5)"
    );
    assert_eq!(
        tombstone_sql(7, "id"),
        "insert into iceberg_mirror.inline_7 (begin_snapshot, loom_tombstone, loom_change_kind, \"id\") values ($1, true, '-D', $2)"
    );
    assert_eq!(
        version_sql(7, &columns),
        "insert into iceberg_mirror.inline_7 (begin_snapshot, loom_tombstone, loom_change_kind, \"id\", \"n\") values ($1, false, '+U', $2, $3)"
    );
    assert_eq!(
        change_sql(7, &columns),
        "insert into iceberg_mirror.inline_7 (begin_snapshot, loom_tombstone, loom_change_kind, loom_bucket, loom_offset, \"id\", \"n\") values ($1, $2, $3, $4, $5, $6, $7)"
    );
    assert_eq!(
        live_rows_sql(7, &columns, 5, true),
        "select loom_row_id, \"id\", \"n\" from iceberg_mirror.inline_7 where begin_snapshot <= 5 and (end_snapshot is null or end_snapshot > 5) and (loom_change_kind is null or loom_change_kind <> '-U') order by loom_row_id"
    );
    assert!(!live_rows_sql(7, &columns, 5, false).contains("'-U'"));
    assert!(live_shadow_sql(7, &columns, 5).starts_with("select loom_row_id, begin_snapshot, loom_tombstone, \"id\", \"n\" from"));
}

#[test]
fn inline_storage_is_made() {
    let ddl = ensure_inline_schema(7, &vec![spec("id", "long"), spec("v", "vector(2)")]).unwrap();
    assert_eq!(ddl.len(), 5);
    assert!(ddl[0].starts_with("create table if not exists iceberg_mirror.inline_7 (loom_row_id bigserial primary key, "));
    assert!(ddl[0].ends_with(", \"id\" bigint, \"v\" real[])"));
    assert_eq!(ddl[3], "alter table iceberg_mirror.inline_7 add column if not exists loom_bucket int");
    let e = ensure_inline_schema(7, &vec![spec("x", "blob\n")]).unwrap_err();
    assert!(matches!(e, ControlPlaneError::Backend(m) if m == "inline: no pg type for \"blob\\n\""));
    assert!(is_duplicate_object_race(Some("42P07")) && is_duplicate_object_race(Some("23505")));
    assert!(!is_duplicate_object_race(Some("42P01")) && !is_duplicate_object_race(None));
    assert_eq!(ddl_outcome(false, None), DdlOutcome::Done);
    assert_eq!(ddl_outcome(true, Some("42710")), DdlOutcome::LostRace);
    assert_eq!(ddl_outcome(true, Some("0")), DdlOutcome::Failed);
    assert_eq!(
        run_idempotent_ddl(DdlOutcome::LostRace),
        strings(&["rollback to savepoint loom_ddl", "release savepoint loom_ddl"])
    );
}

#[test]
fn inline_rows_are_asked_for() {
    assert!(matches!(has_live_inline_rows(None, None, 5), InlineProbe::Nothing));
    assert!(matches!(has_live_inline_rows(Some(7), None, 5), InlineProbe::AskStorage { tid: 7 }));
    assert!(matches!(has_live_inline_rows(Some(7), Some(false), 5), InlineProbe::Nothing));
    assert!(matches!(has_live_inline_rows(Some(7), Some(true), 5), InlineProbe::Ask { sql } if sql == any_live_sql(7, 5)));
    assert!(matches!(clear_has_shadow_if_quiescent(7, false), ShadowClearing::Whole));
    assert!(matches!(clear_has_shadow_if_quiescent(7, true), ShadowClearing::By { sql }
        if sql.contains("not exists (select 1 from iceberg_mirror.inline_7")));
}

// Cells.

#[test]
fn cells_are_taken_by_type() {
    let ints = ColumnValues::Int64(vec![Some(4), None]);
    assert!(matches!(cell_from_arrow(&ints, 0, 0, "long"), Ok(Cell::I64(Some(4)))));
    assert!(matches!(cell_from_arrow(&ints, 0, 1, "long"), Ok(Cell::I64(None))));
    assert!(matches!(cell_from_arrow(&ints, 2, 0, "integer"), Err(ControlPlaneError::Validation(m))
        if m == "inline: column 2 is not the declared integer (expected Int32Array)"));
    assert!(matches!(cell_from_arrow(&ints, 0, 0, "blob"), Err(ControlPlaneError::Backend(m))
        if m == "inline: unsupported column type \"blob\""));
    let ts = ColumnValues::TimestampMicros(vec![Some(1_700_000_000_000_000), Some(i64::MAX)]);
    assert!(matches!(cell_from_arrow(&ts, 0, 0, "timestamp"), Ok(Cell::Ts(Some(1_700_000_000_000_000)))));
    // An instant outside the calendar reads as the epoch.
    assert!(matches!(cell_from_arrow(&ts, 0, 1, "timestamp"), Ok(Cell::Ts(Some(0)))));
    let vectors = ColumnValues::Float32List(vec![Some(vec![1, 2]), None]);
    assert!(matches!(cell_from_arrow(&vectors, 0, 0, "vector(2)"), Ok(Cell::Vec(Some(v))) if v == vec![1, 2]));
    assert!(matches!(cell_from_arrow(&vectors, 0, 1, "vector(2)"), Ok(Cell::Vec(None))));
    let other = ColumnValues::OtherList(vec![false]);
    assert!(matches!(cell_from_arrow(&other, 0, 0, "vector(2)"), Err(ControlPlaneError::Validation(m))
        if m == "inline vector child is not Float32"));
    assert!(matches!(cell_from_arrow(&ints, 0, 0, "vector(2)"), Err(ControlPlaneError::Validation(_))));
    assert!(matches!(cell_from_arrow(&ints, 0, 1, "vector(2)"), Ok(Cell::Vec(None))));
    assert_eq!(timestamp_micros(-1), 0);
    assert_eq!(timestamp_micros(-1_999), -1);
    assert_eq!(timestamp_micros(1_999), 1);
}

#[test]
fn cells_read_back_as_columns() {
    let cells = vec![Cell::I64(Some(4)), Cell::I64(None)];
    let column = column_array(&cells, BaseType::Long).unwrap();
    assert!(matches!(&column, ColumnValues::Int64(v) if v == &vec![Some(4), None]));
    assert!(matches!(cell_from_arrow(&column, 0, 0, "long"), Ok(Cell::I64(Some(4)))));
    assert!(column_array(&vec![Cell::Bool(None)], BaseType::Long).is_none());
    let dates = column_array(&vec![Cell::Date(Some(-3))], BaseType::Date).unwrap();
    assert!(matches!(cell_from_arrow(&dates, 0, 0, "date"), Ok(Cell::Date(Some(-3)))));
}

#[test]
fn identities_hash_as_tagged_values() {
    let expect = |tid: i64, tag: u8, value: &dyn Fn(&mut DefaultHasher)| {
        let mut h = DefaultHasher::new();
        tid.hash(&mut h);
        "\u{1f}".hash(&mut h);
        tag.hash(&mut h);
        value(&mut h);
        h.finish()
    };
    assert_eq!(advisory_key_for_id(9, &Cell::I32(Some(5))), expect(9, 0, &|h| Some(5i32).hash(h)) as i64);
    assert_eq!(advisory_key_for_id(9, &Cell::I64(Some(-5))), expect(9, 1, &|h| Some(-5i64).hash(h)) as i64);
    assert_eq!(
        advisory_key_for_id(9, &Cell::F64(Some(2.5f64.to_bits()))),
        expect(9, 2, &|h| Some(2.5f64.to_bits()).hash(h)) as i64
    );
    assert_eq!(advisory_key_for_id(9, &Cell::Bool(Some(true))), expect(9, 3, &|h| Some(true).hash(h)) as i64);
    assert_eq!(
        advisory_key_for_id(9, &Cell::Str(Some(s("kéy")))),
        expect(9, 4, &|h| Some(s("kéy")).hash(h)) as i64
    );
    assert_eq!(advisory_key_for_id(9, &Cell::Str(None)), expect(9, 4, &|h| None::<String>.hash(h)) as i64);
    assert_eq!(
        advisory_key_for_id(9, &Cell::Vec(Some(vec![1, 2]))),
        expect(9, 7, &|h| Some(vec![1u32, 2]).hash(h)) as i64
    );
    // Dates and timestamps hash as the calendar's own values do.
    for days in [-4_371_587, -1, 0, 59, 19_723, 2_932_896] {
        let date = time::Date::from_julian_day(2_440_588 + days).unwrap();
        assert_eq!(
            advisory_key_for_id(9, &Cell::Date(Some(days))),
            expect(9, 5, &|h| Some(date).hash(h)) as i64
        );
        let h = expect(0, 5, &|h| Some(date).hash(h));
        assert_eq!(cdc_bucket(&Cell::Date(Some(days)), 7).unwrap(), (h % 7) as i32);
    }
    assert_eq!(advisory_key_for_id(9, &Cell::Date(None)), expect(9, 5, &|h| None::<time::Date>.hash(h)) as i64);
    for micros in [-62_135_596_800_000_001i64, -1, 0, 1_700_000_000_123_456] {
        let t = time::OffsetDateTime::from_unix_timestamp_nanos(i128::from(micros) * 1000).unwrap();
        let moment = time::PrimitiveDateTime::new(t.date(), t.time());
        assert_eq!(
            advisory_key_for_id(9, &Cell::Ts(Some(micros))),
            expect(9, 6, &|h| Some(moment).hash(h)) as i64
        );
        let h = expect(0, 6, &|h| Some(moment).hash(h));
        assert_eq!(cdc_bucket(&Cell::Ts(Some(micros)), 7).unwrap(), (h % 7) as i32);
    }
    assert_ne!(advisory_key_for_id(9, &Cell::I32(Some(5))), advisory_key_for_id(9, &Cell::I64(Some(5))));
    let h = expect(0, 1, &|h| Some(42i64).hash(h));
    assert_eq!(cdc_bucket(&Cell::I64(Some(42)), 7).unwrap(), (h % 7) as i32);
    assert!(matches!(cdc_bucket(&Cell::I64(Some(42)), 0), Err(ControlPlaneError::Validation(m))
        if m == "cdc bucket_count must be >= 1, got 0"));
    let mut h = DefaultHasher::new();
    "main".hash(&mut h);
    "\u{1f}".hash(&mut h);
    "t".hash(&mut h);
    assert_eq!(lock_key("main", "t"), h.finish() as i64);
}

#[test]
fn waits_grow_up_to_a_cap() {
    let ns = strings(&["main"]);
    let wait = |n: u32| commit_backoff(&ns, "t", n);
    for n in 0..20u32 {
        let base = std::cmp::min(200u64, 5u64 << n.min(16));
        assert!(base <= wait(n) && wait(n) < base + 5);
    }
    let mut h = DefaultHasher::new();
    ns.hash(&mut h);
    "t".hash(&mut h);
    0u32.hash(&mut h);
    assert_eq!(wait(0), 5 + h.finish() % 5);
    assert_eq!(commit_append_with_retry(&ns, "t", 0, AttemptOutcome::Committed), RetryStep::Done);
    assert_eq!(commit_append_with_retry(&ns, "t", 1, AttemptOutcome::Beaten), RetryStep::Again { millis: wait(1) });
    assert_eq!(commit_append_with_retry(&ns, "t", 5, AttemptOutcome::Beaten), RetryStep::GiveUp);
    assert_eq!(commit_append_with_retry(&ns, "t", 0, AttemptOutcome::Failed), RetryStep::GiveUp);
    let f = written_file(s("p"), 3, 4);
    assert_eq!((f.path.as_str(), f.record_count, f.file_size_bytes), ("p", 3, 4));
}

#[test]
fn a_job_names_its_table() {
    let job = table_job("flush_table", &TableRef { schema: s("a\\b"), name: s("t\"x\u{1}") });
    assert_eq!(job.kind, "flush_table");
    assert_eq!(job.payload, "{\"name\":\"t\\\"x\\u0001\",\"schema\":\"a\\\\b\"}");
    assert_eq!((job.run_at, job.priority), (None, 0));
    let job = table_job("k", &TableRef { schema: s("\u{8}\t\n\u{c}\r"), name: s("\u{1f}\u{7f}/é ") });
    assert_eq!(job.payload, "{\"name\":\"\\u001f\u{7f}/é \",\"schema\":\"\\b\\t\\n\\f\\r\"}");
}

// What readers have not read.

#[test]
fn the_slowest_reader_sets_the_floor() {
    let marks = watermark_marks(&vec![(s("a"), 0, 10), (s("b"), 0, 4), (s("a"), 1, 7), (s("b"), 1, 9)]);
    let readers = mv_readers(&strings(&["a"]), &strings(&["b", "a"]));
    let floor = mv_floor(Some(2), &readers, &marks).unwrap();
    assert_eq!(floor.per_bucket.get(&0), Some(&4));
    assert_eq!(floor.per_bucket.get(&1), Some(&7));
    assert_eq!(floor.slowest.get(&0), Some(&s("b")));
    assert_eq!(floor.min_offset(), 4);
    assert_eq!(
        floor.below_floor_pred(),
        "((loom_bucket = 0 and loom_offset < 4) or (loom_bucket = 1 and loom_offset < 7))"
    );
    assert!(blocking_row_sql(&floor, 7).starts_with(
        "select exists(select 1 from iceberg_mirror.inline_7 where end_snapshot is null and not coalesce(((loom_bucket = 0"
    ));
    // A reader without a mark holds everything.
    let readers = mv_readers(&strings(&["new"]), &strings(&["a"]));
    assert_eq!(mv_floor(Some(2), &readers, &marks).unwrap().min_offset(), 0);
    assert!(mv_floor(None, &readers, &marks).is_none());
    assert!(mv_floor(Some(2), &OrderedSet::new(), &marks).is_none());
    assert!(reclaim_rows_sql(None, 7).ends_with("where end_snapshot is not null and end_snapshot <= $1"));
    let stranded = stranded_mv_readers(&strings(&["a"]), false, &strings(&["b"]));
    assert!(!stranded.contains(&s("a")) && stranded.contains(&s("b")));
}

#[test]
fn unread_rows_are_not_removed() {
    let marks = watermark_marks(&vec![(s("a"), 0, 4)]);
    let readers = mv_readers(&strings(&["a"]), &Vec::new());
    let floor = || mv_floor(Some(1), &readers, &marks);
    assert!(removal_blocked(floor(), false, true, false).is_none());
    assert!(removal_blocked(floor(), false, false, true).is_none());
    assert!(removal_blocked(None, true, true, true).is_none());
    let blocked = removal_blocked(floor(), true, false, false).unwrap();
    assert!(consults_floor(&EndCapIntent::Removing) && !consults_floor(&EndCapIntent::Reframing));
    assert!(guard_end_cap(&table(), &EndCapIntent::Reframing, Some(&blocked)).is_ok());
    assert!(guard_end_cap(&table(), &EndCapIntent::Destroying { reason: s("drop") }, Some(&blocked)).is_ok());
    assert!(guard_end_cap(&table(), &EndCapIntent::Removing, None).is_ok());
    assert!(matches!(guard_end_cap(&table(), &EndCapIntent::Removing, Some(&blocked)), Err(ControlPlaneError::Validation(m))
        if m == "mv-floor refuses end-cap: main.t carries offsets a micro-batch MV has not read (floor 4, slowest {0: \"a\"}); removing them would leave a hole in its delta"));
}

#[test]
fn offsets_are_peeked_before_rows_are_looked_for() {
    let mut survey = Survey::new(2);
    let mut seen: Vec<&str> = Vec::new();
    loop {
        let answer = match survey.next_read() {
            SurveyRead::Peek { bucket } => {
                seen.push(if bucket == 0 { "peek 0" } else { "peek 1" });
                SurveyAnswer::Peeked(50 + 10 * i64::from(bucket))
            }
            SurveyRead::InlineTable => {
                seen.push("inline table");
                // What was not asked for is not taken.
                survey.answer(SurveyAnswer::Files(Vec::new()));
                SurveyAnswer::InlineTable(true)
            }
            SurveyRead::InlineRows => {
                seen.push("inline rows");
                SurveyAnswer::InlineRows(vec![(0, 9)])
            }
            SurveyRead::Unframed => {
                seen.push("unframed");
                SurveyAnswer::Unframed(false)
            }
            SurveyRead::Files => {
                seen.push("files");
                SurveyAnswer::Files(vec![FileBounds { off_min: Some(5), bkt_min: Some(0), bkt_max: Some(0) }])
            }
            SurveyRead::Done => break,
        };
        survey.answer(answer);
    }
    assert_eq!(seen, vec!["peek 0", "peek 1", "inline table", "inline rows", "unframed", "files"]);
    let starts = survey.starts();
    assert_eq!((starts.get(&0), starts.get(&1)), (Some(&5), Some(&60)));
    assert_eq!(starts.len(), 2);
    // Where there is no place for inline rows, none are looked for.
    let mut bare = Survey::new(0);
    assert!(matches!(bare.next_read(), SurveyRead::InlineTable));
    bare.answer(SurveyAnswer::InlineTable(false));
    assert!(matches!(bare.next_read(), SurveyRead::Files));
    bare.answer(SurveyAnswer::Files(Vec::new()));
    assert_eq!(bare.starts().len(), 0);
}

#[test]
fn a_new_reader_starts_where_rows_survive() {
    let mut peeks = OrderedMap::new();
    peeks.insert(0, 50);
    peeks.insert(1, 60);
    let starts = |inline: Vec<(i32, i64)>, unframed: bool, files: Vec<FileBounds>| {
        earliest_surviving_offsets(&peeks, &inline, unframed, &files)
    };
    let bounds = |off_min, bkt_min, bkt_max| FileBounds { off_min, bkt_min, bkt_max };
    let none = starts(Vec::new(), false, Vec::new());
    assert_eq!((none.get(&0), none.get(&1)), (Some(&50), Some(&60)));
    assert!(prefix_is_gone(&none));
    let one = starts(vec![(0, 9)], false, vec![bounds(Some(5), Some(0), Some(0))]);
    assert_eq!((one.get(&0), one.get(&1)), (Some(&5), Some(&60)));
    let cross = starts(vec![(0, 2)], false, vec![bounds(Some(5), Some(0), Some(1))]);
    assert_eq!((cross.get(&0), cross.get(&1)), (Some(&2), Some(&5)));
    let unframed = starts(Vec::new(), true, Vec::new());
    assert_eq!((unframed.get(&0), unframed.get(&1)), (Some(&0), Some(&0)));
    assert!(!prefix_is_gone(&unframed));
    let unknown = starts(vec![(1, 3)], false, vec![bounds(None, None, None)]);
    assert_eq!(unknown.get(&1), Some(&0));
}
