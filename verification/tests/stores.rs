use control_plane::fixture::{
    boot_throttle, column_array, database_name, drop_sql, iceberg_type, pg_dsn, row_exprs, seed,
    warehouse_location, BootThrottle, Lake, SeedCol, SeedColumn, SlotStep,
};
use control_plane::iceberg_landing::Primitive;
use control_plane::ordered::OrderedMap;
use control_plane::s3_storage::{
    deleted, is_there, raw_key, Asked, S3FileWrite, S3Storage, S3StorageFactory,
};
use control_plane::signing::{bucket_made, create_bucket};
use control_plane::sql_catalog::{
    create_namespace, create_table, drop_namespace, drop_table, get_namespace, list_namespaces,
    list_tables, load_table, namespace_exists, pool_settings, register_table, rename_table,
    replace_placeholders, split_levels, table_location, update_namespace, CatalogFault, CatalogStep,
    DropStep, SqlCatalogBuilder, TableName, TableRow,
};

fn s(t: &str) -> String {
    t.to_string()
}

fn strings(list: &[&str]) -> Vec<String> {
    list.iter().map(|t| t.to_string()).collect()
}

fn props(pairs: &[(&str, &str)]) -> OrderedMap<String, String> {
    let mut m = OrderedMap::new();
    for (k, v) in pairs {
        m.insert(k.to_string(), v.to_string());
    }
    m
}

// The settings of the catalog.

#[test]
fn later_properties_come_first() {
    let config = SqlCatalogBuilder::default()
        .uri(s("old"))
        .warehouse_location(s("w"))
        .prop(s("a"), s("1"))
        .props(vec![(s("a"), s("2")), (s("sql_bind_style"), s("x"))])
        .load(s("loom"), vec![(s("uri"), s("new")), (s("b"), s("3"))])
        .unwrap();
    assert_eq!(config.uri, "new");
    assert_eq!(config.warehouse_location, "w");
    assert_eq!(config.name, "loom");
    assert_eq!(config.props.get(&s("a")), Some(&s("2")));
    assert_eq!(config.props.get(&s("b")), Some(&s("3")));
    assert!(config.props.get(&s("uri")).is_none());
    assert!(config.props.get(&s("sql_bind_style")).is_none());
}

#[test]
fn a_blank_name_is_refused() {
    let r = SqlCatalogBuilder::default().load(s(" \t\u{3000}"), Vec::new());
    assert!(matches!(r, Err(CatalogFault::DataInvalid(m)) if m == "Catalog name cannot be empty"));
}

#[test]
fn the_pool_has_defaults_and_complains() {
    let plain = pool_settings(&props(&[])).unwrap();
    assert_eq!((plain.max_connections, plain.idle_timeout_seconds, plain.test_before_acquire), (10, 10, true));
    let set = pool_settings(&props(&[
        ("pool.max-connections", "+3"),
        ("pool.idle-timeout", "007"),
        ("pool.test-before-acquire", "false"),
    ]))
    .unwrap();
    assert_eq!((set.max_connections, set.idle_timeout_seconds, set.test_before_acquire), (3, 7, false));
    let text = |r: Result<_, CatalogFault>| match r {
        Err(CatalogFault::Unexpected(m)) => m,
        _ => panic!("no complaint"),
    };
    let over = text(pool_settings(&props(&[("pool.max-connections", "4294967296")])));
    assert_eq!(over, format!("invalid pool.max-connections: {}", "4294967296".parse::<u32>().unwrap_err()));
    let word = text(pool_settings(&props(&[("pool.idle-timeout", "ten")])));
    assert_eq!(word, format!("invalid pool.idle-timeout: {}", "ten".parse::<u64>().unwrap_err()));
    let yes = text(pool_settings(&props(&[("pool.test-before-acquire", "yes")])));
    assert_eq!(yes, format!("invalid pool.test-before-acquire: {}", "yes".parse::<bool>().unwrap_err()));
}

// Commands and namespaces.

#[test]
fn question_marks_are_numbered() {
    assert_eq!(replace_placeholders("a = ? and b = ?"), "a = $1 and b = $2");
    assert_eq!(replace_placeholders("?????????? ?"), "$1$2$3$4$5$6$7$8$9$10 $11");
    assert_eq!(replace_placeholders("none"), "none");
}

#[test]
fn levels_are_parted_by_dots() {
    assert_eq!(split_levels("a.b.c"), strings(&["a", "b", "c"]));
    assert_eq!(split_levels(""), strings(&[""]));
    assert_eq!(split_levels("a."), strings(&["a", ""]));
    assert_eq!(split_levels("a.b.c").join("."), "a.b.c");
}

#[test]
fn namespaces_are_listed_once() {
    let rows = strings(&["a", "a.b", "a.c.d", "e", "a.b"]);
    let top = list_namespaces(&rows, None, false).unwrap();
    assert_eq!(top, vec![strings(&["a"]), strings(&["e"])]);
    let below = list_namespaces(&rows, Some(&strings(&["a"])), true).unwrap();
    assert_eq!(below, vec![strings(&["a", "b"]), strings(&["a", "c", "d"])]);
    let missing = list_namespaces(&rows, Some(&strings(&["z"])), false);
    assert!(matches!(missing, Err(CatalogFault::NoSuchNamespace)));
}

#[test]
fn a_parent_lists_what_is_below_its_dot() {
    let rows = strings(&["a", "a.b", "a.c", "ab"]);
    let below = list_namespaces(&rows, Some(&strings(&["a"])), true).unwrap();
    assert_eq!(below, vec![strings(&["a", "b"]), strings(&["a", "c"])]);
    assert!(list_namespaces(&rows, Some(&strings(&["a", "b"])), true).unwrap().is_empty());
}

#[test]
fn a_namespace_is_stored_with_its_mark() {
    let bare = create_namespace("loom", &strings(&["a", "b"]), false, props(&[])).unwrap();
    assert_eq!(
        bare.sql,
        "INSERT INTO iceberg_namespace_properties (catalog_name, namespace, property_key, property_value) VALUES (?, ?, ?, ?)"
    );
    assert_eq!(bare.args, strings(&["loom", "a.b", "exists", "true"]));
    assert_eq!(bare.properties.len(), 0);
    let full = create_namespace("loom", &strings(&["a"]), false, props(&[("owner", "x")])).unwrap();
    assert!(full.sql.ends_with("VALUES (?, ?, ?, ?), (?, ?, ?, ?)"));
    assert_eq!(full.args, strings(&["loom", "a", "exists", "true", "loom", "a", "owner", "x"]));
    assert_eq!(full.properties.len(), 2);
    let there = create_namespace("loom", &strings(&["a", "b"]), true, props(&[]));
    assert!(matches!(there, Err(CatalogFault::Unexpected(m))
        if m == "Namespace NamespaceIdent([\"a\", \"b\"]) already exists"));
}

#[test]
fn an_update_changes_and_adds() {
    let existing = props(&[("a", "1"), ("b", "2"), ("c", "3")]);
    let wanted = props(&[("a", "1"), ("b", "9"), ("d", "4")]);
    let u = update_namespace(true, &existing, &wanted).unwrap();
    assert_eq!(u.updates, vec![(s("b"), s("9"))]);
    assert_eq!(u.inserts, vec![(s("d"), s("4"))]);
    assert!(matches!(update_namespace(false, &existing, &wanted), Err(CatalogFault::NoSuchNamespace)));
    let read = get_namespace(true, vec![(s("a"), s("1")), (s("a"), s("2"))]).unwrap();
    assert_eq!(read.get(&s("a")), Some(&s("2")));
    assert!(matches!(get_namespace(false, Vec::new()), Err(CatalogFault::NoSuchNamespace)));
}

#[test]
fn only_an_empty_namespace_is_dropped() {
    let ns = strings(&["a"]);
    assert!(drop_namespace(&ns, true, 0).is_ok());
    assert!(matches!(drop_namespace(&ns, false, 0), Err(CatalogFault::NoSuchNamespace)));
    assert!(matches!(drop_namespace(&ns, true, 2), Err(CatalogFault::Unexpected(m))
        if m == "Namespace NamespaceIdent([\"a\"]) is not empty. 2 tables exist."));
    assert_eq!(namespace_exists(true, None), Some(true));
    assert_eq!(namespace_exists(false, None), None);
    assert_eq!(namespace_exists(false, Some(false)), Some(false));
}

#[test]
fn a_table_is_kept_below_its_namespace() {
    let ns = strings(&["a", "b"]);
    assert_eq!(table_location(None, None, "s3://w", &ns, "t"), "s3://w/a/b/t");
    assert_eq!(table_location(None, Some(s("s3://n")), "s3://w", &ns, "t"), "s3://n/t");
    assert_eq!(table_location(Some(s("s3://x")), Some(s("s3://n")), "s3://w", &ns, "t"), "s3://x");
}

#[test]
fn tables_are_listed_once() {
    let row = |n: &str, ns: &str| TableRow { name: s(n), namespace: s(ns) };
    let list = list_tables(true, &vec![row("t", "a.b"), row("u", "a.b"), row("t", "a.b")]).unwrap();
    assert_eq!(list.len(), 2);
    assert_eq!((list[0].name.as_str(), list[0].namespace.clone()), ("t", strings(&["a", "b"])));
    assert!(matches!(list_tables(false, &Vec::new()), Err(CatalogFault::NoSuchNamespace)));
}

#[test]
fn table_operations_ask_before_they_act() {
    assert!(matches!(create_table(None, None), CatalogStep::AskNamespace));
    assert!(matches!(create_table(Some(false), None), CatalogStep::Refuse(CatalogFault::NoSuchNamespace)));
    assert!(matches!(create_table(Some(true), None), CatalogStep::AskTable));
    assert!(matches!(
        create_table(Some(true), Some(true)),
        CatalogStep::Refuse(CatalogFault::TableAlreadyExists)
    ));
    assert!(matches!(register_table(Some(false)), CatalogStep::Proceed));
    assert!(matches!(load_table(Some(false)), CatalogStep::Refuse(CatalogFault::NoSuchTable)));
    let name = |n: &str| TableName { namespace: strings(&["a"]), name: s(n) };
    assert!(matches!(rename_table(&name("t"), &name("t"), None, None, None), CatalogStep::Skip));
    assert!(matches!(rename_table(&name("t"), &name("u"), None, None, None), CatalogStep::AskTable));
    assert!(matches!(
        rename_table(&name("t"), &name("u"), Some(true), Some(true), None),
        CatalogStep::AskTarget
    ));
    assert!(matches!(
        rename_table(&name("t"), &name("u"), Some(true), Some(true), Some(false)),
        CatalogStep::Proceed
    ));
    assert!(matches!(drop_table(Some(true), Some(false)), DropStep::Commit));
    assert!(matches!(drop_table(Some(true), Some(true)), DropStep::EndMirror));
    assert!(matches!(drop_table(Some(false), None), DropStep::Refuse(CatalogFault::NoSuchTable)));
}

// The object store.

#[test]
fn a_key_is_behind_its_bucket() {
    assert_eq!(raw_key("s3://b/x/y.parquet"), "x/y.parquet");
    assert_eq!(raw_key("s3://part-0.parquet"), "part-0.parquet");
    assert_eq!(raw_key("s3://b/"), "");
    assert_eq!(raw_key("s3://"), "");
    assert_eq!(raw_key("s3://b///x"), "x");
    assert_eq!(raw_key("/x/y"), "x/y");
    assert_eq!(S3Storage::key_of("s3://b/x/y.parquet"), "x/y.parquet");
    // The store drops empty parts and encodes what a path may not hold.
    assert_eq!(S3Storage::key_of("s3://b/x//y z#"), object_store::path::Path::from("x//y z#").as_ref());
    assert_eq!(S3Storage::key_of("s3://b/x//y"), "x/y");
    assert_eq!(
        S3Storage::key_of("s3://part-0.parquet"),
        object_store::path::Path::from("part-0.parquet").as_ref()
    );
}

#[test]
fn a_file_is_stored_when_it_is_closed() {
    let mut f = S3FileWrite::new();
    f.write(vec![1, 2]).unwrap();
    f.write(vec![3]).unwrap();
    assert_eq!(f.close().unwrap(), vec![1, 2, 3]);
    assert!(matches!(f.write(vec![4]), Err(CatalogFault::DataInvalid(m)) if m == "write after close"));
    assert!(matches!(f.close(), Err(CatalogFault::DataInvalid(m)) if m == "double close"));
    assert_eq!(is_there(Asked::NotFound), Some(false));
    assert_eq!(is_there(Asked::Failed), None);
    assert!(deleted(Asked::NotFound) && deleted(Asked::Found) && !deleted(Asked::Failed));
    let factory = S3StorageFactory::new(s("b"), Some(s("http://e")), s("r"), s("k"), s("x"), true);
    assert!(!factory.settings.virtual_hosted());
    assert!(factory.settings.allows_http());
}

#[test]
fn a_request_is_signed() {
    // 2013-05-24 00:00:00 UTC.
    let at = 1_369_353_600_000_000_000i128;
    let r = create_bucket("bucket", "127.0.0.1:9000", "key", "secret", at);
    assert_eq!(r.stamp, "20130524T000000Z");
    assert_eq!(r.payload_hash, "e3b0c44298fc1c149afbf4c8996fb92427ae41e4649b934ca495991b7852b855");
    let head = "AWS4-HMAC-SHA256 Credential=key/20130524/us-east-1/s3/aws4_request, SignedHeaders=host;x-amz-content-sha256;x-amz-date, Signature=";
    assert!(r.authorization.starts_with(head));
    let signature = &r.authorization[head.len()..];
    assert_eq!(signature.len(), 64);
    assert!(signature.chars().all(|c| c.is_ascii_digit() || ('a'..='f').contains(&c)));
    let other = create_bucket("bucket", "127.0.0.1:9000", "key", "secret2", at);
    assert_ne!(other.authorization, r.authorization);
    let later = create_bucket("bucket", "127.0.0.1:9000", "key", "secret", at + 86_400_000_000_000);
    assert!(later.authorization.contains("/20130525/"));
    assert!(bucket_made(200) && bucket_made(409) && !bucket_made(404) && !bucket_made(300));
}

// The test servers.

#[test]
fn a_free_slot_is_searched_for() {
    assert_eq!(BootThrottle::new(s("d"), 0).slots, 1);
    let t = boot_throttle(Some(2), Some(s("d")));
    assert!(matches!(t.acquire(1, 0), SlotStep::Try { file } if file == "slot-1"));
    assert!(matches!(t.acquire(2, 0), SlotStep::Wait { millis: 25 }));
    assert!(matches!(t.acquire(2, 120_000), SlotStep::GiveUp { .. }));
    assert_eq!(boot_throttle(Some(0), None).slots, 8);
    assert_eq!(boot_throttle(None, None).dir, "/tmp/loom-pg-fixture-slots");
}

#[test]
fn the_commands_fill_a_table() {
    let lake = Lake { extension_dir: s("/ext"), db: s("db"), socket: s("/sock"), data_dir: s("/data") };
    let columns = vec![
        SeedColumn { name: s("id"), ty: s("BIGINT"), nullable: false },
        SeedColumn { name: s("name"), ty: s("VARCHAR"), nullable: true },
    ];
    assert_eq!(row_exprs(&columns), "i, CAST('x' AS VARCHAR)");
    assert_eq!(
        seed(&lake, "main", "t", &columns, &vec![3, 4]),
        "SET extension_directory='/ext';\nLOAD ducklake;\nLOAD postgres_scanner;\nATTACH 'ducklake:postgres:dbname=db host=/sock user=postgres' AS lake (DATA_PATH '/data/', DATA_INLINING_ROW_LIMIT 0);\nCREATE TABLE IF NOT EXISTS lake.main.t (id BIGINT NOT NULL, name VARCHAR);\nINSERT INTO lake.main.t SELECT i, CAST('x' AS VARCHAR) FROM range(3) t(i);\nINSERT INTO lake.main.t SELECT i, CAST('x' AS VARCHAR) FROM range(4) t(i);\n"
    );
    assert!(drop_sql(&lake, "main", "t").ends_with("DROP TABLE lake.main.t;\n"));
    assert_eq!(pg_dsn("db", "/sock"), "postgres://postgres@localhost/db?host=/sock");
    assert_eq!(database_name(12, 3), "loom_test_12_3");
    assert_eq!(warehouse_location("/w", "ns", "t"), "file:///w/ns/t");
}

#[test]
fn columns_are_generated() {
    assert_eq!(iceberg_type("integer"), Some(Primitive::Int));
    assert_eq!(iceberg_type("int"), None);
    assert!(matches!(column_array(Primitive::Long, 3), Some(SeedCol::Long(v)) if v == vec![0, 1, 2]));
    assert!(matches!(column_array(Primitive::String, 2), Some(SeedCol::Str(v)) if v == strings(&["row0", "row1"])));
    assert!(column_array(Primitive::Double, 2).is_none());
}
