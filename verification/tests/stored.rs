use control_plane::auth::LockoutPolicy;
use control_plane::error::ControlPlaneError;
use control_plane::iceberg_catalog::{
    current_snapshot, current_snapshots_pair, define_view, drop_view, files_with_stats, is_reserved,
    physical_columns, read_through, resolve_table, schema, snapshots, ColumnRow, PairRow, StatRow,
    ViewFacts, ViewStep,
};
use control_plane::iceberg_stats::StatValue;
use control_plane::stored_lineage::{
    events_for, graph_closure, graph_depth, runs_for, DatasetRow, EventRow, RunRow,
};
use control_plane::stored_rules::{
    add_role_inheritance, assign_role, check, conflict_or_backend, create_service_account, grant,
    notfound_or_backend, record_failed_login, seal_bootstrap, set_policy, set_user_disabled,
    token_seal, update_password, StoreStep,
};
use control_plane::types::{
    ColumnDef, DatasetRef, Decision, EventType, Policy, PolicyTarget, Snapshot, SnapshotId, TableRef,
    ViewDef,
};

const NOW: i128 = 1_700_000_000_000_000_000;

fn s(t: &str) -> String {
    t.to_string()
}

fn strings(list: &[&str]) -> Vec<String> {
    list.iter().map(|t| t.to_string()).collect()
}

fn table(name: &str) -> TableRef {
    TableRef { schema: s("main"), name: s(name) }
}

// Rules.

#[test]
fn codes_are_told_apart() {
    let failure = || s("it broke");
    assert!(matches!(conflict_or_backend(Some("23505"), failure(), "user u"), ControlPlaneError::Conflict(m) if m == "user u"));
    assert!(matches!(conflict_or_backend(Some("23503"), failure(), "u"), ControlPlaneError::Backend(m) if m == "it broke"));
    assert!(matches!(conflict_or_backend(None, failure(), "u"), ControlPlaneError::Backend(_)));
    assert!(matches!(notfound_or_backend(Some("23503"), failure(), "u"), ControlPlaneError::NotFound(m) if m == "u"));
    assert!(matches!(notfound_or_backend(Some("23505"), failure(), "u"), ControlPlaneError::Backend(_)));
}

#[test]
fn roles_are_assigned_to_what_is_there() {
    assert!(matches!(assign_role("u", "r", None, None), StoreStep::AskSubject));
    assert!(matches!(assign_role("u", "r", Some(false), None), StoreStep::Refuse(ControlPlaneError::NotFound(m)) if m == "subject u"));
    assert!(matches!(assign_role("u", "r", Some(true), None), StoreStep::AskRole));
    assert!(matches!(assign_role("u", "r", Some(true), Some(false)), StoreStep::Refuse(ControlPlaneError::NotFound(m)) if m == "role r"));
    assert!(matches!(assign_role("u", "r", Some(true), Some(true)), StoreStep::Store));
}

#[test]
fn stored_inheritance_has_no_cycle() {
    assert!(matches!(add_role_inheritance("a", "b", None, None, None), StoreStep::AskRole));
    assert!(matches!(add_role_inheritance("a", "b", Some(true), None, None), StoreStep::AskInherited));
    assert!(matches!(add_role_inheritance("a", "b", Some(true), Some(false), None), StoreStep::Refuse(ControlPlaneError::NotFound(m)) if m == "role b"));
    assert!(matches!(add_role_inheritance("a", "b", Some(true), Some(true), None), StoreStep::AskCycle));
    assert!(matches!(add_role_inheritance("a", "b", Some(true), Some(true), Some(true)), StoreStep::Refuse(ControlPlaneError::Conflict(m))
        if m == "role inheritance a -> b would create a cycle"));
    assert!(matches!(add_role_inheritance("a", "b", Some(true), Some(true), Some(false)), StoreStep::Store));
}

#[test]
fn rules_speak_of_known_types() {
    let on = PolicyTarget::Type(s("Person"));
    assert!(matches!(grant("r", &on, Some(true), None), StoreStep::AskType));
    assert!(matches!(grant("r", &on, Some(true), Some(false)), StoreStep::Refuse(ControlPlaneError::Validation(m))
        if m == "grant references unknown type `Person`"));
    assert!(matches!(grant("r", &PolicyTarget::Table(table("t")), Some(true), None), StoreStep::Store));
    let policy = |target: PolicyTarget, row_filter: Option<String>| Policy {
        target,
        row_filter,
        deny_columns: Vec::new(),
        mask_columns: Vec::new(),
    };
    let p = policy(PolicyTarget::Type(s("Person")), Some(s("{}")));
    assert!(matches!(set_policy("r", &p, Some(true), Some(false), None), StoreStep::Refuse(ControlPlaneError::Validation(m))
        if m == "policy references unknown type Person"));
    assert!(matches!(set_policy("r", &p, Some(true), Some(true), None), StoreStep::JudgeFilter));
    assert!(matches!(set_policy("r", &p, Some(true), Some(true), Some(Err(s("bad")))), StoreStep::Refuse(ControlPlaneError::Validation(m)) if m == "bad"));
    assert!(matches!(set_policy("r", &p, Some(true), Some(true), Some(Ok(()))), StoreStep::Store));
    let plain = policy(PolicyTarget::Table(table("t")), None);
    assert!(matches!(set_policy("r", &plain, Some(true), None, None), StoreStep::Store));
}

#[test]
fn a_stored_denial_wins() {
    assert_eq!(check(Some(true), Some(true)), Decision::Deny);
    assert_eq!(check(Some(false), Some(true)), Decision::Allow);
    assert_eq!(check(None, None), Decision::Deny);
    assert_eq!(check(None, Some(true)), Decision::Allow);
}

#[test]
fn accounts_are_stored() {
    assert!(seal_bootstrap(1).is_ok());
    assert!(matches!(seal_bootstrap(0), Err(ControlPlaneError::Conflict(m)) if m == "bootstrap already sealed"));
    assert!(matches!(set_user_disabled("u", false, true), Err(ControlPlaneError::NotFound(m)) if m == "user u"));
    assert_eq!(set_user_disabled("u", true, true).unwrap(), true);
    assert_eq!(set_user_disabled("u", true, false).unwrap(), false);
    assert!(matches!(update_password("x", 0), Err(ControlPlaneError::NotFound(m)) if m == "credential for subject x"));
    assert!(update_password("x", 1).is_ok());
    assert!(matches!(create_service_account("x", None), StoreStep::AskUser));
    assert!(matches!(create_service_account("x", Some(true)), StoreStep::Refuse(ControlPlaneError::Conflict(m))
        if m == "subject x already belongs to a user"));
    assert!(matches!(create_service_account("x", Some(false)), StoreStep::Store));
    assert_eq!(token_seal(&vec![7; 32]), Some([7; 32]));
    assert_eq!(token_seal(&vec![7; 31]), None);
    let policy = LockoutPolicy { threshold: 3, window: 60, lockout_duration: 90 };
    let failed = record_failed_login(NOW, policy);
    assert_eq!((failed.window_cutoff, failed.locked_until, failed.threshold), (NOW - 60, NOW + 90, 3));
}

// Lineage.

#[test]
fn events_come_with_their_datasets() {
    let event = |event_id: i64| EventRow {
        event_id,
        event_type: EventType::Complete,
        event_time: NOW,
        payload: s("{}"),
    };
    let dataset = |event_id: i64, direction: &str, name: &str| DatasetRow {
        event_id,
        direction: s(direction),
        namespace: s("n"),
        name: s(name),
    };
    let rows = vec![event(1), event(2), event(3)];
    let datasets = vec![dataset(1, "input", "a"), dataset(1, "output", "b"), dataset(2, "input", "c")];
    let page = events_for(9, &rows, &datasets, 2).unwrap();
    assert_eq!(page.items.len(), 2);
    assert_eq!(page.next, Some(2));
    assert_eq!(page.items[0].inputs[0].name, "a");
    assert_eq!(page.items[0].outputs[0].name, "b");
    assert_eq!((page.items[1].inputs.len(), page.items[1].outputs.len()), (1, 0));
    assert!(events_for(9, &rows, &datasets, 3).unwrap().next.is_none());
    assert!(events_for(9, &vec![event(1)], &vec![dataset(1, "sideways", "a")], 3).is_err());
}

#[test]
fn runs_are_summed_up() {
    let run = |run_id: u128, latest_event: i64, has_output: bool| RunRow {
        run_id,
        latest_event,
        event_type: EventType::Complete,
        event_time: NOW,
        has_output,
    };
    let page = runs_for(&vec![run(1, 9, true), run(2, 5, false), run(3, 4, true)], 2);
    assert_eq!(page.items.iter().map(|r| r.run_id).collect::<Vec<_>>(), vec![1, 2]);
    assert_eq!(page.next, Some(5));
    assert_eq!(graph_depth(u32::MAX), i32::MAX);
    assert_eq!(graph_depth(4), 4);
    let d = |name: &str| DatasetRef { namespace: s("n"), name: s(name) };
    let page = graph_closure(vec![d("a"), d("b"), d("c")], 2);
    assert_eq!(page.items.len(), 2);
    assert_eq!(page.next.unwrap().name, "b");
}

// The catalog.

#[test]
fn files_are_grouped_with_their_statistics() {
    let row = |id: i64, path: &str, column: Option<&str>, ty: &str, min: Option<&str>| StatRow {
        data_file_id: id,
        path: s(path),
        record_count: 3,
        file_size_bytes: 30,
        column_name: column.map(s),
        null_count: column.map(|_| 1),
        column_size_bytes: column.map(|_| 8),
        min_value: min.map(s),
        min_is_real: false,
        max_value: None,
        max_is_real: false,
        column_type: column.map(|_| s(ty)),
    };
    let files = files_with_stats(&vec![
        row(1, "a", Some("x"), "long", Some("5")),
        row(1, "a", Some("y"), "date", Some("5")),
        row(2, "b", None, "", None),
    ]);
    assert_eq!(files.len(), 2);
    assert_eq!(files[0].column_stats.len(), 2);
    assert!(matches!(files[0].column_stats[0].min, Some(StatValue::I64(5))));
    assert!(files[0].column_stats[1].min.is_none());
    assert!(files[1].column_stats.is_empty());
}

#[test]
fn own_columns_are_hidden() {
    assert!(is_reserved("loom_change_kind") && is_reserved("loom_bucket") && is_reserved("loom_offset"));
    assert!(!is_reserved("id"));
    let row = |order: i64, name: &str, ty: &str| ColumnRow {
        order,
        name: s(name),
        column_type: s(ty),
        nullable: true,
        parametric: None,
    };
    let columns = || physical_columns(&vec![row(1, "id", "int"), row(2, "loom_offset", "long"), row(3, "n", "string")]).unwrap();
    assert_eq!(columns().len(), 3);
    assert_eq!(columns()[0].ty, "integer");
    let names = |c: Vec<ColumnDef>| c.into_iter().map(|c| c.name).collect::<Vec<_>>();
    assert_eq!(names(schema(columns(), None)), strings(&["id", "n"]));
    assert_eq!(names(schema(columns(), Some(&strings(&["n"])))), strings(&["n"]));
    let bad = physical_columns(&vec![row(1, "id", "decimal")]).unwrap_err();
    assert!(matches!(bad, ControlPlaneError::Backend(m) if m == "catalog column type \"decimal\" has no loom logical type"));
}

#[test]
fn a_missing_table_is_reported() {
    let t = table("t");
    let sn = Snapshot { id: SnapshotId(4), time: NOW, schema_version: 1 };
    assert_eq!(current_snapshot(&t, Some(sn)).unwrap().id, SnapshotId(4));
    assert!(matches!(current_snapshot(&t, None), Err(ControlPlaneError::NotFound(m)) if m == "main.t"));
    assert!(matches!(snapshots(&t, Vec::new()), Err(ControlPlaneError::NotFound(m)) if m == "main.t"));
    assert_eq!(snapshots(&t, vec![sn]).unwrap().len(), 1);
    assert_eq!(resolve_table(&t, 4, Some(7)).unwrap(), 7);
    assert!(matches!(resolve_table(&t, 4, None), Err(ControlPlaneError::NotFound(_))));
    let pair = |tag: &str, id: Option<i64>| PairRow {
        tag: s(tag),
        snapshot_id: id,
        snapshot_time: id.map(|_| NOW),
        schema_version: id.map(|_| 0),
    };
    let (a, b) = current_snapshots_pair(&vec![pair("base", Some(3)), pair("clog", None)]);
    assert_eq!(a.map(|x| x.id), Some(SnapshotId(3)));
    assert!(b.is_none());
}

#[test]
fn a_view_stands_on_a_table() {
    let view = ViewDef { view: table("v"), base: table("t"), predicate: None, columns: Some(strings(&["id"])) };
    let (base, columns) = read_through(&view.view, Some(&view));
    assert_eq!((base.name.as_str(), columns), ("t", Some(&strings(&["id"]))));
    let (same, columns) = read_through(&view.base, None);
    assert_eq!((same.name.as_str(), columns), ("t", None));
    let facts = |n: usize, last: bool| ViewFacts {
        base_is_view: if n > 0 { Some(n == 1 && last) } else { None },
        shape: if n > 1 { Some(Ok(())) } else { None },
        view_exists: if n > 2 { Some(false) } else { None },
        view_is_table: if n > 3 { Some(n == 4 && last) } else { None },
        base_is_live: if n > 4 { Some(!last) } else { None },
    };
    assert!(matches!(define_view(&view, facts(0, false)), ViewStep::AskBaseIsView));
    assert!(matches!(define_view(&view, facts(1, true)), ViewStep::Refuse(ControlPlaneError::Validation(_))));
    assert!(matches!(define_view(&view, facts(1, false)), ViewStep::JudgeShape));
    assert!(matches!(define_view(&view, facts(2, false)), ViewStep::AskViewExists));
    assert!(matches!(define_view(&view, facts(3, false)), ViewStep::AskViewIsTable));
    assert!(matches!(define_view(&view, facts(4, true)), ViewStep::Refuse(_)));
    assert!(matches!(define_view(&view, facts(4, false)), ViewStep::AskBaseIsLive));
    assert!(matches!(define_view(&view, facts(5, true)), ViewStep::Refuse(_)));
    assert!(matches!(define_view(&view, facts(5, false)), ViewStep::Store));
    assert!(drop_view(&table("v"), true).is_ok());
    assert!(matches!(drop_view(&table("v"), false), Err(ControlPlaneError::NotFound(_))));
}
