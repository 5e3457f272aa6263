use control_plane::auth::{LockoutPolicy, NewServiceAccount, NewUser};
use control_plane::error::ControlPlaneError;
use control_plane::lineage::{PageReq, RunRole};
use control_plane::memory::MemoryControlPlane;
use control_plane::queue::{JobSchedule, RetryPolicy};
use control_plane::stream::{MergeEngine, StreamKind, WatermarkAdvance};
use control_plane::transaction::Trigger;
use control_plane::types::{
    Action, ActionDef, ActionStep, ColumnSpec, DataFile, DatasetRef, Decision, DerivedDef, Effect,
    EventType, FileFormat, LineageEvent, LinkDef, NewJob, ObjectType, Policy, PolicyTarget,
    PropertyDef, RunOutcome, RunState, RunTrigger, SnapshotId, TableRef, TransformBody,
    TransformDef, TransformRun, VectorIndexDef, ViewDef,
};

const MS: i128 = 1_000_000;
const NOW: i128 = 1_700_000_000_000_000_000;

fn plane() -> MemoryControlPlane {
    MemoryControlPlane::new(300 * MS)
}

fn table(schema: &str, name: &str) -> TableRef {
    TableRef { schema: schema.to_string(), name: name.to_string() }
}

fn dataset(name: &str) -> DatasetRef {
    DatasetRef { namespace: "db".to_string(), name: name.to_string() }
}

fn column(name: &str, ty: &str) -> ColumnSpec {
    ColumnSpec { name: name.to_string(), ty: ty.to_string(), nullable: true }
}

fn file(path: &str, rows: i64) -> DataFile {
    DataFile {
        path: path.to_string(),
        path_is_relative: false,
        file_format: FileFormat::Parquet,
        record_count: rows,
        file_size_bytes: 10 * rows,
        column_stats: Vec::new(),
        parquet_footer_size: None,
    }
}

fn job(kind: &str) -> NewJob {
    NewJob { kind: kind.to_string(), payload: "{}".to_string(), run_at: None, priority: 0 }
}

fn event(run: u128, inputs: Vec<DatasetRef>, outputs: Vec<DatasetRef>) -> LineageEvent {
    LineageEvent {
        run_id: run,
        event_type: EventType::Complete,
        event_time: NOW,
        inputs,
        outputs,
        payload: "{}".to_string(),
    }
}

fn not_found(e: &ControlPlaneError, text: &str) -> bool {
    matches!(e, ControlPlaneError::NotFound(m) if m == text)
}

fn conflict(e: &ControlPlaneError, text: &str) -> bool {
    matches!(e, ControlPlaneError::Conflict(m) if m == text)
}

fn validation(e: &ControlPlaneError, text: &str) -> bool {
    matches!(e, ControlPlaneError::Validation(m) if m == text)
}

// Roles, grants and policies.

#[test]
fn roles_are_assigned_to_known_subjects() {
    let mut cp = plane();
    cp.define_subject("ann");
    assert!(not_found(&cp.assign_role("bob", "reader").unwrap_err(), "subject bob"));
    assert!(not_found(&cp.assign_role("ann", "reader").unwrap_err(), "role reader"));
    cp.define_role("reader");
    assert!(cp.assign_role("ann", "reader").is_ok());
    assert!(cp.has_role("ann", "reader"));
    cp.unassign_role("ann", "reader");
    assert!(!cp.has_role("ann", "reader"));
    assert_eq!(cp.list_roles(), vec![&"reader".to_string()]);
}

#[test]
fn one_denial_outweighs_an_allowance() {
    let mut cp = plane();
    cp.define_subject("ann");
    cp.define_role("reader");
    cp.define_role("barred");
    cp.assign_role("ann", "reader").unwrap();
    let t = PolicyTarget::Table(table("main", "t"));
    assert_eq!(cp.check("ann", Action::Read, &t), Decision::Deny);
    cp.grant("reader", Action::Read, PolicyTarget::Table(table("main", "t")), Effect::Allow).unwrap();
    assert_eq!(cp.check("ann", Action::Read, &t), Decision::Allow);
    assert_eq!(cp.check("ann", Action::Write, &t), Decision::Deny);
    cp.grant("barred", Action::Read, PolicyTarget::Table(table("main", "t")), Effect::Deny).unwrap();
    assert_eq!(cp.check("ann", Action::Read, &t), Decision::Allow);
    cp.add_role_inheritance("reader", "barred").unwrap();
    assert_eq!(cp.check("ann", Action::Read, &t), Decision::Deny);
    cp.revoke("barred", Action::Read, &t);
    assert_eq!(cp.check("ann", Action::Read, &t), Decision::Allow);
    cp.delete_role("reader");
    assert_eq!(cp.check("ann", Action::Read, &t), Decision::Deny);
}

#[test]
fn inheritance_has_no_cycle() {
    let mut cp = plane();
    cp.define_role("a");
    cp.define_role("b");
    cp.define_role("c");
    cp.add_role_inheritance("a", "b").unwrap();
    cp.add_role_inheritance("b", "c").unwrap();
    let e = cp.add_role_inheritance("c", "a").unwrap_err();
    assert!(conflict(&e, "role inheritance c -> a would create a cycle"));
    assert!(matches!(cp.add_role_inheritance("a", "a"), Err(ControlPlaneError::Conflict(_))));
    cp.remove_role_inheritance("b", "c");
    assert!(cp.add_role_inheritance("c", "a").is_ok());
}

#[test]
fn policies_name_known_types() {
    let mut cp = plane();
    cp.define_subject("ann");
    cp.define_role("reader");
    cp.assign_role("ann", "reader").unwrap();
    let policy = Policy {
        target: PolicyTarget::Type("Person".to_string()),
        row_filter: None,
        deny_columns: vec!["ssn".to_string()],
        mask_columns: Vec::new(),
    };
    let e = cp.set_policy("reader", Action::Read, policy, Ok(())).unwrap_err();
    assert!(validation(&e, "policy references unknown type Person"));
    let filtered = Policy {
        target: PolicyTarget::Table(table("main", "t")),
        row_filter: Some("{}".to_string()),
        deny_columns: Vec::new(),
        mask_columns: Vec::new(),
    };
    let e = cp.set_policy("reader", Action::Read, filtered, Err("bad filter".to_string())).unwrap_err();
    assert!(validation(&e, "bad filter"));
    let open = Policy {
        target: PolicyTarget::Table(table("main", "t")),
        row_filter: None,
        deny_columns: vec!["ssn".to_string()],
        mask_columns: Vec::new(),
    };
    cp.set_policy("reader", Action::Read, open, Ok(())).unwrap();
    let t = PolicyTarget::Table(table("main", "t"));
    assert_eq!(cp.policies_for("ann", Action::Read, &t).len(), 1);
    assert_eq!(cp.policies_for("ann", Action::Read, &t)[0].deny_columns, vec!["ssn".to_string()]);
    cp.clear_policy("reader", Action::Read, &t);
    assert_eq!(cp.policies_for("ann", Action::Read, &t).len(), 0);
}

// Users, sessions and service accounts.

fn user(name: &str) -> NewUser {
    NewUser {
        username: name.to_string(),
        subject_id: format!("u-{name}"),
        password_phc: "phc".to_string(),
    }
}

#[test]
fn a_disabled_user_has_no_session() {
    let mut cp = plane();
    assert!(!cp.has_any_user());
    cp.create_user(user("ann")).unwrap();
    assert!(cp.has_any_user());
    let e = cp.create_user(user("ann")).unwrap_err();
    assert!(conflict(&e, "username ann"));
    let token = [7u8; 32];
    cp.create_session("u-ann".to_string(), &token, NOW + 10);
    assert_eq!(cp.resolve_session(&token, NOW), Some("u-ann".to_string()));
    assert_eq!(cp.resolve_session(&token, NOW + 10), None);
    cp.set_user_disabled("ann", true).unwrap();
    assert_eq!(cp.resolve_session(&token, NOW), None);
    assert!(cp.find_password_credential("ann").is_none());
    cp.set_user_disabled("ann", false).unwrap();
    assert_eq!(cp.resolve_session(&token, NOW), None);
    assert!(not_found(&cp.set_user_disabled("bob", true).unwrap_err(), "user bob"));
}

#[test]
fn the_present_instant_marks_a_user() {
    let mut cp = plane();
    cp.create_user(user("ann")).unwrap();
    let made = cp.list_users()[0].created_at;
    // Later than the year 2020, earlier than the year 9999.
    assert!(made > 1_577_836_800_000_000_000);
    assert!(made < 253_402_300_800_000_000_000);
}

#[test]
fn failures_lock_a_user_out() {
    let mut cp = plane();
    cp.create_user(user("ann")).unwrap();
    let policy = LockoutPolicy { threshold: 2, window: 100, lockout_duration: 1_000 };
    assert!(cp.can_record_failure("ann", NOW, &policy) && cp.can_record_failure("nobody", NOW, &policy));
    let endless = LockoutPolicy { threshold: 1, window: 100, lockout_duration: i128::MAX };
    assert!(!cp.can_record_failure("ann", NOW, &endless));
    let lenient = LockoutPolicy { threshold: 2, window: 100, lockout_duration: i128::MAX };
    assert!(cp.can_record_failure("ann", NOW, &lenient));
    cp.record_failed_login("ann", NOW, policy);
    assert_eq!(cp.find_password_credential("ann").unwrap().locked_until, None);
    // The window has passed: the count starts over.
    let policy = LockoutPolicy { threshold: 2, window: 100, lockout_duration: 1_000 };
    cp.record_failed_login("ann", NOW + 500, policy);
    assert_eq!(cp.find_password_credential("ann").unwrap().locked_until, None);
    let policy = LockoutPolicy { threshold: 2, window: 100, lockout_duration: 1_000 };
    cp.record_failed_login("ann", NOW + 550, policy);
    assert_eq!(cp.find_password_credential("ann").unwrap().locked_until, Some(NOW + 1_550));
    cp.reset_failed_logins("ann");
    assert_eq!(cp.find_password_credential("ann").unwrap().locked_until, None);
}

#[test]
fn passwords_change_only_where_there_is_one() {
    let mut cp = plane();
    cp.create_user(user("ann")).unwrap();
    cp.update_password("u-ann", "new".to_string()).unwrap();
    assert_eq!(cp.password_phc_for_subject("u-ann"), Some("new".to_string()));
    let e = cp.update_password("u-bob", "new".to_string()).unwrap_err();
    assert!(not_found(&e, "credential for subject u-bob"));
    let (a, b) = ([1u8; 32], [2u8; 32]);
    cp.create_session("u-ann".to_string(), &a, NOW + 10);
    cp.create_session("u-ann".to_string(), &b, NOW + 10);
    cp.revoke_subject_sessions("u-ann", Some(&a));
    assert_eq!(cp.resolve_session(&a, NOW), Some("u-ann".to_string()));
    assert_eq!(cp.resolve_session(&b, NOW), None);
    cp.revoke_session(&a);
    assert_eq!(cp.resolve_session(&a, NOW), None);
}

#[test]
fn a_revoked_token_is_dead() {
    let mut cp = plane();
    cp.create_user(user("ann")).unwrap();
    let clash = NewServiceAccount { subject_id: "u-ann".to_string(), name: "bot".to_string() };
    let e = cp.create_service_account(clash).unwrap_err();
    assert!(conflict(&e, "subject u-ann already belongs to a user"));
    let bot = NewServiceAccount { subject_id: "bot-1".to_string(), name: "bot".to_string() };
    cp.create_service_account(bot).unwrap();
    let token = [9u8; 32];
    let e = cp.create_service_token("bot-2", &token, "ci", NOW + 10).unwrap_err();
    assert!(not_found(&e, "service account bot-2"));
    cp.create_service_token("bot-1", &token, "ci", NOW + 10).unwrap();
    assert_eq!(cp.resolve_service_token(&token, NOW), Some("bot-1".to_string()));
    assert_eq!(cp.resolve_service_token(&token, NOW + 10), None);
    cp.revoke_service_token(&token);
    assert_eq!(cp.resolve_service_token(&token, NOW), None);
    assert_eq!(cp.list_service_tokens("bot-1").len(), 1);
    assert_eq!(cp.list_service_accounts().len(), 1);
}

#[test]
fn the_start_is_sealed_once() {
    let mut cp = plane();
    assert!(!cp.is_bootstrap_sealed());
    cp.seal_bootstrap().unwrap();
    assert!(cp.is_bootstrap_sealed());
    assert!(conflict(&cp.seal_bootstrap().unwrap_err(), "bootstrap already sealed"));
}

// The queue.

#[test]
fn the_urgent_and_older_job_goes_first() {
    let mut cp = plane();
    let kinds = vec!["work".to_string()];
    assert!(cp.dequeue(&kinds).is_none());
    cp.enqueue_as(job("work"), 1, NOW);
    cp.enqueue_as(job("other"), 2, NOW);
    let urgent = NewJob { priority: 5, ..job("work") };
    cp.enqueue_as(urgent, 3, NOW);
    let first = cp.dequeue_at(&kinds, NOW).unwrap();
    assert_eq!((first.id, first.attempts), (3, 1));
    assert_eq!(cp.dequeue_at(&kinds, NOW).unwrap().id, 1);
    assert!(cp.dequeue_at(&kinds, NOW).is_none());
    // The lock runs out.
    assert!(cp.dequeue_at(&kinds, NOW + 300 * MS).is_none());
    assert_eq!(cp.dequeue_at(&kinds, NOW + 300 * MS + 1).unwrap().id, 3);
}

#[test]
fn a_failed_job_waits_or_is_abandoned() {
    let mut cp = plane();
    let kinds = vec!["work".to_string()];
    cp.enqueue_as(job("work"), 1, NOW);
    assert_eq!(cp.dequeue_at(&kinds, NOW).unwrap().attempts, 1);
    cp.fail_at(1, RetryPolicy::Retry { delay: 50 }, NOW);
    assert!(cp.dequeue_at(&kinds, NOW + 49).is_none());
    assert_eq!(cp.dequeue_at(&kinds, NOW + 50).unwrap().attempts, 2);
    cp.heartbeat_at(1, NOW + 200 * MS);
    assert!(cp.dequeue_at(&kinds, NOW + 400 * MS).is_none());
    cp.fail_at(1, RetryPolicy::Abandon, NOW + 400 * MS);
    assert!(cp.dequeue_at(&kinds, NOW + 4_000 * MS).is_none());
    cp.enqueue_as(job("work"), 2, NOW);
    cp.complete(2);
    assert!(cp.dequeue_at(&kinds, NOW).is_none());
}

#[test]
fn fresh_jobs_have_numbers_of_their_own() {
    let mut cp = plane();
    let a = cp.enqueue(job("work"));
    let b = cp.enqueue(job("work"));
    assert_ne!(a, b);
    for id in [a, b] {
        assert_eq!((id >> 76) & 0xf, 4);
        assert_eq!((id >> 62) & 3, 2);
    }
    let kinds = vec!["work".to_string()];
    assert!(cp.dequeue(&kinds).is_some());
    assert!(cp.dequeue(&kinds).is_some());
    assert!(cp.dequeue(&kinds).is_none());
}

#[test]
fn due_schedules_fire_in_order_of_their_names() {
    let mut cp = plane();
    let schedule = |name: &str| JobSchedule {
        name: name.to_string(),
        cron: "* * * * *".to_string(),
        kind: name.to_string(),
        payload: "{}".to_string(),
    };
    cp.define_job_schedule(schedule("b"), Ok(NOW)).unwrap();
    cp.define_job_schedule(schedule("a"), Ok(NOW - 1)).unwrap();
    cp.define_job_schedule(schedule("c"), Ok(NOW + 100)).unwrap();
    let bad = cp.define_job_schedule(schedule("d"), Err(ControlPlaneError::Validation("cron".to_string())));
    assert!(validation(&bad.unwrap_err(), "cron"));
    assert_eq!(cp.due_job_schedules(NOW, 10), vec!["a".to_string(), "b".to_string()]);
    let fired = cp
        .fire_due_job_schedules_at(NOW, 10, &vec![Ok(NOW + 50), Ok(NOW + 60)], &vec![11, 12], NOW)
        .unwrap();
    assert_eq!(fired.iter().map(|f| f.job).collect::<Vec<_>>(), vec![Some(11), Some(12)]);
    assert!(cp.due_job_schedules(NOW, 10).is_empty());
    assert_eq!(cp.list_job_schedules().len(), 3);
    cp.delete_job_schedule("c").unwrap();
    assert!(matches!(cp.delete_job_schedule("c"), Err(ControlPlaneError::NotFound(_))));
}

// The catalog and its transactions.

#[test]
fn older_snapshots_stay_readable() {
    let mut cp = plane();
    let t = table("main", "t");
    assert!(not_found(&cp.current_snapshot(&t).unwrap_err(), "main.t"));
    let snaps = cp.seed_catalog_at(&t, &vec![column("id", "long")], &vec![10, 20], NOW);
    assert_eq!(snaps.len(), 2);
    assert_eq!(cp.files(&t, snaps[0]).unwrap().len(), 1);
    assert_eq!(cp.files(&t, snaps[1]).unwrap().len(), 2);
    assert_eq!(cp.current_snapshot(&t).unwrap().id, snaps[1]);
    assert_eq!(cp.schema(&t, snaps[1]).unwrap()[0].name, "id");
    let gone = cp.drop_table_catalog_at(&t, NOW + 1);
    assert!(matches!(cp.files(&t, gone), Err(ControlPlaneError::NotFound(_))));
    assert_eq!(cp.files(&t, snaps[1]).unwrap().len(), 2);
    assert!(cp.list_tables().is_empty());
    assert_eq!(cp.snapshot(&t, snaps[0]).unwrap().id, snaps[0]);
    assert!(cp.snapshot_as_of(&t, NOW - 1).is_none());
    assert_eq!(cp.snapshot_as_of(&t, NOW).unwrap().id, snaps[1]);
}

#[test]
fn a_commit_applies_all_and_a_rollback_nothing() {
    let mut cp = plane();
    let t = table("main", "t");
    let mut tx = cp.begin_table();
    tx.create_table(table("main", "t"), vec![column("id", "long")]);
    tx.append_files(table("main", "t"), vec![file("a", 1)]);
    tx.enqueue_as(job("work"), 5);
    tx.emit(event(1, Vec::new(), vec![dataset("t")]));
    tx.rollback(&mut cp);
    assert!(cp.list_tables().is_empty());
    assert!(cp.dequeue_at(&vec!["work".to_string()], NOW).is_none());

    let mut tx = cp.begin_table();
    tx.create_table(table("main", "t"), vec![column("id", "long")]);
    tx.append_files(table("main", "t"), vec![file("a", 1), file("b", 2)]);
    tx.enqueue_as(job("work"), 5);
    tx.emit(event(1, Vec::new(), vec![dataset("t")]));
    let done = tx.commit_at(&mut cp, &Vec::new(), NOW).unwrap();
    let at = done.snapshot.unwrap();
    assert!(done.wake);
    assert_eq!(cp.files(&t, at).unwrap().len(), 2);
    assert_eq!(cp.dequeue_at(&vec!["work".to_string()], NOW).unwrap().id, 5);
    let page = cp.events_for(1, &PageReq { limit: 10, after: None });
    assert_eq!(page.items.len(), 1);

    let mut tx = cp.begin_table();
    tx.replace_files(table("main", "t"), vec![file("c", 3)]);
    let replaced = tx.commit_at(&mut cp, &Vec::new(), NOW + 1).unwrap().snapshot.unwrap();
    assert_eq!(cp.files(&t, replaced).unwrap()[0].path, "c");
    assert_eq!(cp.files(&t, at).unwrap().len(), 2);

    let mut tx = cp.begin_table();
    tx.compact_files(table("main", "t"), vec!["c".to_string()], vec![file("d", 3)]);
    let compacted = tx.commit_at(&mut cp, &Vec::new(), NOW + 2).unwrap().snapshot.unwrap();
    assert_eq!(cp.files(&t, compacted).unwrap()[0].path, "d");
    assert!(cp.snapshot_intact(&t, replaced, at).unwrap());
    assert!(!cp.snapshot_intact(&t, replaced, compacted).unwrap());
    let mut tx = cp.begin_table();
    tx.compact_files(table("main", "t"), vec!["c".to_string()], vec![file("e", 3)]);
    assert!(matches!(tx.commit_at(&mut cp, &Vec::new(), NOW + 3), Err(ControlPlaneError::Conflict(_))));
    assert_eq!(cp.snapshot_horizon(NOW + 2), Some(replaced));
}

#[test]
fn a_compaction_may_name_a_path_twice() {
    let mut cp = plane();
    let t = table("main", "t");
    let names = |list: &[&str]| list.iter().map(|p| p.to_string()).collect::<Vec<String>>();
    let mut tx = cp.begin_table();
    tx.create_table(table("main", "t"), vec![column("id", "long")]);
    tx.append_files(table("main", "t"), vec![file("a", 1), file("b", 2)]);
    tx.commit_at(&mut cp, &Vec::new(), NOW).unwrap();
    let mut tx = cp.begin_table();
    tx.compact_files(table("main", "t"), names(&["a", "a"]), vec![file("c", 1)]);
    let at = tx.commit_at(&mut cp, &Vec::new(), NOW + 1).unwrap().snapshot.unwrap();
    assert_eq!(cp.files(&t, at).unwrap().iter().map(|f| f.path.as_str()).collect::<Vec<_>>(), vec!["b", "c"]);
    let mut tx = cp.begin_table();
    tx.compact_files(table("main", "t"), names(&["b", "a", "b", "x"]), vec![file("d", 1)]);
    let e = tx.commit_at(&mut cp, &Vec::new(), NOW + 2).unwrap_err();
    assert!(conflict(&e, "compact_files: 1 of 3 expire targets live for main.t"));
    assert_eq!(cp.files(&t, at).unwrap().len(), 2);
}

#[test]
fn a_dropped_table_can_be_created_again() {
    let mut cp = plane();
    let t = table("main", "t");
    cp.seed_catalog_at(&t, &Vec::new(), &Vec::new(), NOW);
    assert_eq!(cp.drop_table_catalog_at(&t, NOW + 1), SnapshotId(1));
    let mut tx = cp.begin_table();
    tx.create_table(table("main", "t"), vec![column("id", "long"), column("name", "text")]);
    let done = tx.commit_at(&mut cp, &Vec::new(), NOW + 2).unwrap();
    assert_eq!(done.snapshot, Some(SnapshotId(2)));
    let listed = cp.list_tables();
    assert_eq!(listed.len(), 1);
    assert!(listed[0].schema == "main" && listed[0].name == "t");
    let cols = cp.schema(&t, SnapshotId(2)).unwrap();
    assert_eq!(cols.iter().map(|c| (c.order, c.name.as_str())).collect::<Vec<_>>(), vec![(0, "id"), (1, "name")]);
    // The table of that name that was there before can still be read.
    assert!(cp.schema(&t, SnapshotId(0)).unwrap().is_empty());
    assert!(matches!(cp.schema(&t, SnapshotId(1)), Err(ControlPlaneError::NotFound(_))));
    assert_eq!(cp.snapshots(&t).unwrap().iter().map(|s| s.id.0).collect::<Vec<_>>(), vec![0, 2]);
    // While it is live, another creation changes nothing.
    let mut tx = cp.begin_table();
    tx.create_table(table("main", "t"), Vec::new());
    assert_eq!(tx.commit_at(&mut cp, &Vec::new(), NOW + 3).unwrap().snapshot, None);
    assert_eq!(cp.schema(&t, SnapshotId(2)).unwrap().len(), 2);
    // Its columns go with it, and come back in their order.
    cp.drop_table_catalog_at(&t, NOW + 4);
    let mut tx = cp.begin_table();
    tx.create_table(table("main", "t"), vec![column("only", "long")]);
    assert_eq!(tx.commit_at(&mut cp, &Vec::new(), NOW + 5).unwrap().snapshot, Some(SnapshotId(4)));
    assert_eq!(cp.schema(&t, SnapshotId(4)).unwrap()[0].name, "only");
    assert_eq!(cp.schema(&t, SnapshotId(2)).unwrap().len(), 2);
    assert_eq!(cp.current_snapshot(&t).unwrap().id, SnapshotId(4));
}

#[test]
fn a_run_is_marked_once_and_with_a_write() {
    let mut cp = plane();
    let mut tx = cp.begin_table();
    tx.mark_run_succeeded(7).unwrap();
    let e = tx.mark_run_succeeded(8).unwrap_err();
    assert!(validation(&e, "a run success mark is already staged on this transaction"));
    assert!(matches!(tx.commit(&mut cp, &Vec::new()), Err(ControlPlaneError::Validation(_))));
}

#[test]
fn views_read_their_base() {
    let mut cp = plane();
    let t = table("main", "t");
    let columns = vec![column("id", "long"), column("name", "string")];
    let snaps = cp.seed_catalog_at(&t, &columns, &vec![1], NOW);
    let view = || ViewDef {
        view: table("main", "v"),
        base: table("main", "t"),
        predicate: None,
        columns: Some(vec!["name".to_string()]),
    };
    let e = cp.define_view(view(), Err("no".to_string()), event(1, Vec::new(), Vec::new())).unwrap_err();
    assert!(validation(&e, "no"));
    cp.define_view(view(), Ok(()), event(1, Vec::new(), Vec::new())).unwrap();
    let shown = cp.schema(&table("main", "v"), snaps[0]).unwrap();
    assert_eq!(shown.iter().map(|c| c.name.as_str()).collect::<Vec<_>>(), vec!["name"]);
    assert_eq!(cp.current_snapshot(&table("main", "v")).unwrap().id, snaps[0]);
    assert!(matches!(
        cp.define_view(view(), Ok(()), event(1, Vec::new(), Vec::new())),
        Err(ControlPlaneError::Conflict(_))
    ));
    assert_eq!(cp.list_views().len(), 1);
    assert!(cp.get_view(&table("main", "v")).is_some());
    cp.drop_view(&table("main", "v")).unwrap();
    assert!(not_found(&cp.drop_view(&table("main", "v")).unwrap_err(), "main.v"));
}

// Lineage.

#[test]
fn ancestry_is_walked_to_a_depth() {
    let mut cp = plane();
    cp.emit(event(1, vec![dataset("a")], vec![dataset("b")]));
    cp.emit(event(2, vec![dataset("b")], vec![dataset("c")]));
    cp.emit(event(3, vec![dataset("c")], vec![dataset("a")]));
    let all = PageReq { limit: 10, after: None };
    let up = cp.upstream(&dataset("c"), 1, &all, Ok(())).unwrap();
    assert_eq!(up.items.iter().map(|d| d.name.as_str()).collect::<Vec<_>>(), vec!["b"]);
    let up = cp.upstream(&dataset("c"), 5, &all, Ok(())).unwrap();
    assert_eq!(up.items.iter().map(|d| d.name.as_str()).collect::<Vec<_>>(), vec!["a", "b"]);
    assert!(up.next.is_none());
    let down = cp.downstream(&dataset("a"), 2, &PageReq { limit: 1, after: None }, Ok(())).unwrap();
    assert_eq!(down.items[0].name, "b");
    let rest = PageReq { limit: 1, after: down.next };
    let down = cp.downstream(&dataset("a"), 2, &rest, Ok(())).unwrap();
    assert_eq!(down.items[0].name, "c");
    let deep = Err(ControlPlaneError::Validation("too deep".to_string()));
    assert!(matches!(cp.upstream(&dataset("c"), 99, &all, deep), Err(ControlPlaneError::Validation(_))));
}

#[test]
fn runs_of_a_dataset_are_newest_first() {
    let mut cp = plane();
    cp.emit(event(1, vec![dataset("a")], Vec::new()));
    cp.emit(event(2, Vec::new(), vec![dataset("a")]));
    cp.emit(event(2, vec![dataset("a")], Vec::new()));
    let page = cp.runs_for(&dataset("a"), &PageReq { limit: 1, after: None });
    assert_eq!(page.items[0].run_id, 2);
    assert_eq!(page.items[0].role, RunRole::Output);
    let page = cp.runs_for(&dataset("a"), &PageReq { limit: 1, after: page.next });
    assert_eq!((page.items[0].run_id, page.items[0].role), (1, RunRole::Input));
    assert!(page.next.is_none());
}

// Streams and transforms.

#[test]
fn offsets_are_handed_out_without_gaps() {
    let mut cp = plane();
    assert_eq!(cp.peek_offset(1, 0), 0);
    assert_eq!(cp.allocate_offset(1, 0, 3).unwrap(), 0);
    assert_eq!(cp.allocate_offset(1, 0, 2).unwrap(), 3);
    assert_eq!(cp.peek_offset(1, 0), 5);
    assert_eq!(cp.allocate_offset(1, 1, 1).unwrap(), 0);
    assert!(matches!(cp.allocate_offset(1, 0, 0), Err(ControlPlaneError::Validation(_))));
}

#[test]
fn watermarks_only_advance_from_where_they_are() {
    let mut cp = plane();
    let to = |from: i64, to: i64| vec![WatermarkAdvance { bucket: 0, from, to }];
    cp.advance_mv_watermark("mv", 1, &to(0, 5)).unwrap();
    assert_eq!(cp.mv_watermarks("mv", 1), vec![(0, 5)]);
    assert!(matches!(cp.advance_mv_watermark("mv", 1, &to(0, 9)), Err(ControlPlaneError::Conflict(_))));
    cp.advance_mv_watermark("mv", 1, &to(5, 9)).unwrap();
    assert_eq!(cp.mv_watermarks("mv", 1), vec![(0, 9)]);
}

#[test]
fn streams_are_declared() {
    let mut cp = plane();
    assert_eq!(cp.stream_bucket_count(1), None);
    cp.declare_stream(1, 4);
    assert_eq!(cp.stream_bucket_count(1), Some(4));
    cp.declare_cdc(2, 2, "id".to_string(), MergeEngine::LastRow);
    cp.set_changelog_table_id(2, 3);
    let meta = cp.stream_meta(2).unwrap();
    assert_eq!((meta.kind, meta.changelog_table_id), (StreamKind::Cdc, Some(3)));
    assert_eq!(cp.stream_meta(1).unwrap().kind, StreamKind::Log);
}

fn transform(name: &str) -> TransformDef {
    TransformDef {
        name: name.to_string(),
        body: TransformBody::Physical { text: "select 1".to_string() },
        on_input_commit: true,
    }
}

fn run(id: u128, transform: Option<&str>) -> TransformRun {
    TransformRun {
        run_id: id,
        transform: transform.map(|t| t.to_string()),
        trigger: RunTrigger::Manual,
        state: RunState::Queued,
        body: "{}".to_string(),
        queued_at: NOW,
        started_at: None,
        finished_at: None,
        snapshot_id: None,
        error: None,
    }
}

#[test]
fn runs_go_through_their_states() {
    let mut cp = plane();
    let e = cp.define_transform(transform("f"), Err(ControlPlaneError::Validation("no".to_string())));
    assert!(validation(&e.unwrap_err(), "no"));
    cp.define_transform(transform("f"), Ok(())).unwrap();
    assert_eq!(cp.get_transform("f").unwrap().name, "f");
    assert!(matches!(cp.get_transform("g"), Err(ControlPlaneError::NotFound(_))));
    cp.submit_run_as(run(1, Some("f")), job("run_transform"), 9, NOW);
    assert_eq!(cp.dequeue_at(&vec!["run_transform".to_string()], NOW).unwrap().id, 9);
    cp.mark_run_running_at(1, NOW + 1).unwrap();
    assert_eq!(cp.get_run(1).unwrap().state, RunState::Running);
    cp.finish_run_at(1, RunOutcome::RetryQueued { error: "again".to_string() }, NOW + 2).unwrap();
    assert_eq!(cp.get_run(1).unwrap().state, RunState::Queued);
    cp.finish_run_at(1, RunOutcome::Succeeded { snapshot_id: 4 }, NOW + 3).unwrap();
    let done = cp.get_run(1).unwrap();
    assert_eq!((done.state, done.snapshot_id, done.finished_at), (RunState::Succeeded, Some(4), Some(NOW + 3)));
    assert!(matches!(cp.mark_run_running_at(2, NOW), Err(ControlPlaneError::NotFound(_))));
    assert_eq!(cp.list_runs(Some("f")).len(), 1);
    assert_eq!(cp.list_runs(Some("g")).len(), 0);
    cp.delete_transform("f");
    assert_eq!(cp.list_transforms().len(), 0);
}

#[test]
fn written_tables_fire_their_transforms() {
    let mut cp = plane();
    cp.define_transform(transform("f"), Ok(())).unwrap();
    let mut tx = cp.begin_table();
    tx.create_table(table("main", "t"), vec![column("id", "long")]);
    tx.append_files(table("main", "t"), vec![file("a", 1)]);
    let trigger = |id: u128| Trigger {
        name: "f".to_string(),
        inputs: vec![table("main", "t")],
        run_id: id,
        job_id: id + 1,
        job: job("run_transform"),
    };
    tx.commit_at(&mut cp, &vec![trigger(20)], NOW).unwrap();
    assert_eq!(cp.get_run(20).unwrap().trigger, RunTrigger::DataTrigger);
    assert_eq!(cp.dequeue_at(&vec!["run_transform".to_string()], NOW).unwrap().id, 21);
    // Nothing is written to an input: nothing fires.
    let mut tx = cp.begin_table();
    tx.create_table(table("main", "u"), vec![column("id", "long")]);
    tx.append_files(table("main", "u"), vec![file("b", 1)]);
    tx.commit_at(&mut cp, &vec![trigger(30)], NOW).unwrap();
    assert!(matches!(cp.get_run(30), Err(ControlPlaneError::NotFound(m))
        if m == "run 00000000-0000-0000-0000-00000000001e"));
}

// The ontology.

fn object_type(name: &str, derived: Vec<DerivedDef>) -> ObjectType {
    ObjectType {
        name: name.to_string(),
        table: table("main", &name.to_lowercase()),
        properties: vec![PropertyDef { name: "id".to_string(), ty: "long".to_string() }],
        derived,
        detail: "{}".to_string(),
    }
}

fn define(cp: &mut MemoryControlPlane, ty: ObjectType) -> Result<(), ControlPlaneError> {
    cp.define_type(ty, Ok(()), Ok(()), Ok(()), event(1, Vec::new(), Vec::new()))
}

fn link(name: &str, from: &str, to: &str) -> LinkDef {
    LinkDef {
        name: name.to_string(),
        from: from.to_string(),
        to: to.to_string(),
        detail: "{}".to_string(),
    }
}

#[test]
fn types_links_actions_and_indexes_refer_to_types() {
    let mut cp = plane();
    cp.seed_catalog_at(&table("main", "person"), &vec![column("id", "long")], &vec![1], NOW);
    define(&mut cp, object_type("Person", Vec::new())).unwrap();
    assert_eq!(cp.get_type("Person").unwrap().name, "Person");
    assert!(matches!(cp.get_type("Dog"), Err(ControlPlaneError::NotFound(_))));
    assert_eq!(cp.resolve("Person").unwrap().name, "person");
    assert_eq!(cp.type_properties("Person"), Some(vec!["id".to_string()]));
    assert_eq!(cp.type_properties("Dog"), None);
    assert!(cp.define_link(link("owns", "Person", "Dog")).is_err());
    cp.define_link(link("knows", "Person", "Person")).unwrap();
    assert_eq!(cp.links("Person").unwrap().len(), 1);
    assert_eq!(cp.links_to("Person").unwrap().len(), 1);
    let derived = vec![DerivedDef { name: "friends".to_string(), link: "knows".to_string() }];
    define(&mut cp, object_type("Person", derived)).unwrap();
    assert_eq!(cp.derived_properties_referencing("Person", "knows"), vec!["friends".to_string()]);
    assert!(cp.delete_link("Person", "knows").is_err());
    define(&mut cp, object_type("Person", Vec::new())).unwrap();
    cp.delete_link("Person", "knows").unwrap();
    let action = |target: &str| ActionDef {
        name: "greet".to_string(),
        steps: vec![ActionStep { target: target.to_string(), detail: "{}".to_string() }],
    };
    assert!(cp.define_action(action("Dog")).is_err());
    cp.define_action(action("Person")).unwrap();
    assert_eq!(cp.list_actions().len(), 1);
    assert!(cp.get_action("greet").is_ok());
    cp.delete_action("greet");
    assert!(matches!(cp.get_action("greet"), Err(ControlPlaneError::NotFound(_))));
    let index = |on: &str| VectorIndexDef {
        name: "ix".to_string(),
        on_type: on.to_string(),
        property: "id".to_string(),
        detail: "{}".to_string(),
    };
    assert!(cp.define_vector_index(index("Dog")).is_err());
    let _ = cp.define_vector_index(index("Person"));
    assert!(cp.vector_indexes_for("Dog").is_empty());
    assert_eq!(cp.list_types().len(), 1);
}

#[test]
fn snapshots_are_numbered() {
    let mut cp = plane();
    let snaps = cp.seed_catalog_at(&table("main", "t"), &vec![column("id", "long")], &vec![1, 1, 1], NOW);
    assert!(snaps[0].0 < snaps[1].0 && snaps[1].0 < snaps[2].0);
    assert_eq!(cp.snapshots(&table("main", "t")).unwrap().len(), 4);
    assert!(cp.snapshot(&table("main", "t"), SnapshotId(99)).is_none());
}

// What is read beside the rest.

#[test]
fn grants_and_roles_are_listed() {
    let mut cp = plane();
    cp.define_role("reader");
    cp.define_subject("u");
    cp.assign_role("u", "reader").unwrap();
    let target = || PolicyTarget::Table(table("main", "t"));
    cp.grant("reader", Action::Write, target(), Effect::Deny).unwrap();
    cp.grant("reader", Action::Read, target(), Effect::Allow).unwrap();
    let grants = cp.list_grants("reader").unwrap();
    assert_eq!(grants.len(), 2);
    assert!(grants[0].action == Action::Read && grants[0].effect == Effect::Allow);
    assert!(grants[1].action == Action::Write && grants[1].effect == Effect::Deny);
    assert_eq!(cp.roles_of("u").unwrap(), vec!["reader".to_string()]);
    assert!(cp.list_grants("ghost").is_err());
}

#[test]
fn pages_of_lineage_join() {
    let mut cp = plane();
    for i in 0..5u128 {
        cp.emit(event(1, vec![dataset("a")], vec![dataset(&format!("o{}", i))]));
        cp.emit(event(10 + i, vec![dataset("a")], Vec::new()));
    }
    let mut seen: Vec<String> = Vec::new();
    let mut after: Option<i64> = None;
    loop {
        let page = cp.events_for(1, &PageReq { limit: 2, after });
        seen.extend(page.items.iter().map(|e| e.outputs[0].name.clone()));
        after = page.next;
        if after.is_none() {
            break;
        }
    }
    assert_eq!(seen, vec!["o0", "o1", "o2", "o3", "o4"]);
    let mut runs: Vec<u128> = Vec::new();
    let mut after: Option<i64> = None;
    loop {
        let page = cp.runs_for(&dataset("a"), &PageReq { limit: 2, after });
        runs.extend(page.items.iter().map(|r| r.run_id));
        after = page.next;
        if after.is_none() {
            break;
        }
    }
    assert_eq!(runs, vec![14, 1, 13, 12, 11, 10]);
    let mut reached: Vec<String> = Vec::new();
    let mut after: Option<DatasetRef> = None;
    loop {
        let page = cp.downstream(&dataset("a"), 3, &PageReq { limit: 2, after }, Ok(())).unwrap();
        reached.extend(page.items.iter().map(|d| d.name.clone()));
        after = page.next;
        if after.is_none() {
            break;
        }
    }
    assert_eq!(reached, vec!["o0", "o1", "o2", "o3", "o4"]);
}

#[test]
fn the_base_of_a_view_has_columns() {
    let mut cp = plane();
    let view = || ViewDef { view: table("main", "v"), base: table("main", "t"), predicate: None, columns: None };
    assert!(cp.view_base_columns(&view()).is_none());
    cp.seed_catalog_at(&table("main", "t"), &vec![column("id", "long")], &Vec::new(), NOW);
    assert_eq!(cp.view_base_columns(&view()).unwrap()[0].name, "id");
    assert!(cp.get_vector_index("Person", "ix").is_none());
}
