//! What a read gives back after a write, stated of the two calls.
use crate::acl::{assigned_listed, roles_listed};
use crate::acl_laws::law_allowed_where_granted_and_not_denied;
use crate::auth::{users_listed, NewUser, PasswordCredential, UserSummary};
use crate::catalog::tables_listed;
use crate::error::{ControlPlaneError, Fault};
use crate::key::text_before;
use crate::memory::MemoryControlPlane;
use crate::operation_laws::{could_be_handed, law_dequeue, law_dequeue_of_nothing};
use crate::queue::Job;
use crate::queue_laws::law_enqueued_job_waits_at_the_end;
use crate::stream::{marks_listed, MergeEngine, StreamMeta};
use crate::text::holds;
use crate::types::{
    Action, ActionDef, ColumnDef, Decision, Effect, FileRef, LineageEvent, NewJob, ObjectType,
    PolicyTarget, RunOutcome, Snapshot, SnapshotId, TableKey, TableRef, TransformDef, TransformRun,
    ViewDef,
};
use vstd::prelude::*;

verus! {

/// A role is assigned only where it and the subject are defined, and the subject then has it.
pub proof fn law_assigned_role_is_had(
    cp: &mut MemoryControlPlane,
    subject: &str,
    role: &str,
    r: Result<(), ControlPlaneError>,
    had: bool,
)
    requires
        call_ensures(MemoryControlPlane::assign_role, (cp, subject, role), r),
        call_ensures(MemoryControlPlane::has_role, (&*final(cp), subject, role), had),
    ensures
        r is Ok ==> had,
        r is Ok ==> old(cp)@.acl.subjects.contains(subject@) && old(cp)@.acl.roles.contains(role@),
{
}

/// A role that was taken away is not had any more.
pub proof fn law_unassigned_role_is_not_had(cp: &mut MemoryControlPlane, subject: &str, role: &str, had: bool)
    requires
        call_ensures(MemoryControlPlane::unassign_role, (cp, subject, role), ()),
        call_ensures(MemoryControlPlane::has_role, (&*final(cp), subject, role), had),
    ensures
        !had,
{
}

/// A user that was created is found under the name, with the password and as the subject given,
/// and not locked.
pub proof fn law_created_user_is_found(
    cp: &mut MemoryControlPlane,
    user: NewUser,
    now: i128,
    r: Result<(), ControlPlaneError>,
    username: &str,
    found: Option<PasswordCredential>,
)
    requires
        username@ == user.username@,
        call_ensures(MemoryControlPlane::create_user_at, (cp, user, now), r),
        call_ensures(MemoryControlPlane::find_password_credential, (&*final(cp), username), found),
    ensures
        r is Ok <==> !old(cp)@.auth.users.dom().contains(user.username@),
        r is Ok ==> found is Some && (found->0).subject_id == user.subject_id && (found->0).password_phc
            == user.password_phc && (found->0).locked_until is None,
{
}

/// A user that was disabled is not found, and one that was enabled again is.
pub proof fn law_disabled_user_is_not_found(
    cp: &mut MemoryControlPlane,
    username: &str,
    disabled: bool,
    r: Result<(), ControlPlaneError>,
    found: Option<PasswordCredential>,
)
    requires
        call_ensures(MemoryControlPlane::set_user_disabled, (cp, username, disabled), r),
        call_ensures(MemoryControlPlane::find_password_credential, (&*final(cp), username), found),
    ensures
        r is Ok ==> (found is Some <==> !disabled),
        r is Err ==> found is None,
{
}

/// A session that was opened is resolved to its subject before it expires and not after,
/// unless a user of the subject is disabled.
pub proof fn law_opened_session_is_resolved(
    cp: &mut MemoryControlPlane,
    subject: String,
    token: &[u8; 32],
    expires_at: i128,
    now: i128,
    found: Option<String>,
)
    requires
        call_ensures(MemoryControlPlane::create_session, (cp, subject, token, expires_at), ()),
        call_ensures(MemoryControlPlane::resolve_session, (&*final(cp), token, now), found),
    ensures
        now >= expires_at ==> found is None,
        now < expires_at && !old(cp)@.auth.disabled(subject@) ==> (found matches Some(s) && s@ == subject@),
        old(cp)@.auth.disabled(subject@) ==> found is None,
{
}

/// A session that was revoked is not resolved.
pub proof fn law_revoked_session_is_gone(
    cp: &mut MemoryControlPlane,
    token: &[u8; 32],
    now: i128,
    found: Option<String>,
)
    requires
        call_ensures(MemoryControlPlane::revoke_session, (cp, token), ()),
        call_ensures(MemoryControlPlane::resolve_session, (&*final(cp), token, now), found),
    ensures
        found is None,
{
}

/// A token of a service account is resolved to the account before it expires and not after.
pub proof fn law_created_token_is_resolved(
    cp: &mut MemoryControlPlane,
    subject: &str,
    token: &[u8; 32],
    label: &str,
    expires_at: i128,
    made_at: i128,
    r: Result<(), ControlPlaneError>,
    now: i128,
    found: Option<String>,
)
    requires
        call_ensures(
            MemoryControlPlane::create_service_token_at,
            (cp, subject, token, label, expires_at, made_at),
            r,
        ),
        call_ensures(MemoryControlPlane::resolve_service_token, (&*final(cp), token, now), found),
    ensures
        r is Ok <==> old(cp)@.auth.accounts.dom().contains(subject@),
        r is Ok && now < expires_at ==> (found matches Some(s) && s@ == subject@),
        r is Ok && now >= expires_at ==> found is None,
{
}

/// A token that was revoked is not resolved.
pub proof fn law_revoked_token_is_gone(
    cp: &mut MemoryControlPlane,
    token: &[u8; 32],
    at: i128,
    now: i128,
    found: Option<String>,
)
    requires
        call_ensures(MemoryControlPlane::revoke_service_token_at, (cp, token, at), ()),
        call_ensures(MemoryControlPlane::resolve_service_token, (&*final(cp), token, now), found),
    ensures
        found is None,
{
}

/// The bootstrap is sealed once: the first time goes through, a second is refused.
pub proof fn law_bootstrap_is_sealed_once(
    cp: &mut MemoryControlPlane,
    r: Result<(), ControlPlaneError>,
    sealed: bool,
)
    requires
        call_ensures(MemoryControlPlane::seal_bootstrap, (cp,), r),
        call_ensures(MemoryControlPlane::is_bootstrap_sealed, (&*final(cp),), sealed),
    ensures
        sealed,
        r is Ok <==> !old(cp)@.auth.sealed,
{
}

/// A type that was defined is the one that its name gives, and its table is the one that its
/// name resolves to.
pub proof fn law_defined_type_is_found(
    cp: &mut MemoryControlPlane,
    ty: ObjectType,
    constraints: Result<(), ControlPlaneError>,
    triggers: Result<(), ControlPlaneError>,
    derived: Result<(), ControlPlaneError>,
    event: LineageEvent,
    r: Result<(), ControlPlaneError>,
    name: &str,
    found: Result<&ObjectType, ControlPlaneError>,
    table: Result<&TableRef, ControlPlaneError>,
)
    requires
        name@ == ty.name@,
        call_ensures(
            MemoryControlPlane::define_type,
            (cp, ty, constraints, triggers, derived, event),
            r,
        ),
        call_ensures(MemoryControlPlane::get_type, (&*final(cp), name), found),
        call_ensures(MemoryControlPlane::resolve, (&*final(cp), name), table),
    ensures
        constraints is Err ==> r == constraints,
        r is Ok ==> found is Ok && *(found->Ok_0) == ty,
        r is Ok ==> table is Ok && *(table->Ok_0) == ty.table,
{
}

/// An action that was defined is the one that its name gives.
pub proof fn law_defined_action_is_found(
    cp: &mut MemoryControlPlane,
    action: ActionDef,
    r: Result<(), ControlPlaneError>,
    name: &str,
    found: Result<&ActionDef, ControlPlaneError>,
)
    requires
        name@ == action.name@,
        call_ensures(MemoryControlPlane::define_action, (cp, action), r),
        call_ensures(MemoryControlPlane::get_action, (&*final(cp), name), found),
    ensures
        r is Ok ==> found is Ok && *(found->Ok_0) == action,
        action.steps@.len() == 0 ==> r is Err,
{
}

/// An action that was deleted is not found.
pub proof fn law_deleted_action_is_gone(
    cp: &mut MemoryControlPlane,
    name: &str,
    found: Result<&ActionDef, ControlPlaneError>,
)
    requires
        call_ensures(MemoryControlPlane::delete_action, (cp, name), ()),
        call_ensures(MemoryControlPlane::get_action, (&*final(cp), name), found),
    ensures
        found is Err && found->Err_0@ == Fault::NotFound(name@),
{
}

/// A transform that was defined is the one that its name gives.
pub proof fn law_defined_transform_is_found(
    cp: &mut MemoryControlPlane,
    def: TransformDef,
    valid: Result<(), ControlPlaneError>,
    r: Result<(), ControlPlaneError>,
    name: &str,
    found: Result<&TransformDef, ControlPlaneError>,
)
    requires
        name@ == def.name@,
        call_ensures(MemoryControlPlane::define_transform, (cp, def, valid), r),
        call_ensures(MemoryControlPlane::get_transform, (&*final(cp), name), found),
    ensures
        valid is Err ==> r == valid,
        r is Ok ==> found is Ok && *(found->Ok_0) == def,
{
}

/// A transform that was deleted is not found.
pub proof fn law_deleted_transform_is_gone(
    cp: &mut MemoryControlPlane,
    name: &str,
    found: Result<&TransformDef, ControlPlaneError>,
)
    requires
        call_ensures(MemoryControlPlane::delete_transform, (cp, name), ()),
        call_ensures(MemoryControlPlane::get_transform, (&*final(cp), name), found),
    ensures
        found is Err,
{
}

/// A run that was finished is read with its outcome.
pub proof fn law_finished_run_is_read(
    cp: &mut MemoryControlPlane,
    run_id: u128,
    o: RunOutcome,
    now: i128,
    r: Result<(), ControlPlaneError>,
    found: Result<&TransformRun, ControlPlaneError>,
)
    requires
        call_ensures(MemoryControlPlane::finish_run_at, (cp, run_id, o, now), r),
        call_ensures(MemoryControlPlane::get_run, (&*final(cp), run_id), found),
    ensures
        r is Ok <==> found is Ok,
        found matches Ok(run) ==> {
            &&& run.state is Succeeded <==> o is Succeeded
            &&& run.state is Failed <==> o is Failed
            &&& run.state is Queued <==> o is RetryQueued
            &&& o matches RunOutcome::Failed { error } ==> run.error == Some(error) && run.finished_at == Some(
                now,
            )
            &&& o matches RunOutcome::Succeeded { snapshot_id } ==> run.snapshot_id == Some(snapshot_id)
                && run.finished_at == Some(now)
            &&& o matches RunOutcome::RetryQueued { error } ==> run.error == Some(error)
        },
{
}

/// A stream that is declared has the buckets of its first declaration, and is a plain log.
pub proof fn law_declared_log(
    cp: &mut MemoryControlPlane,
    table_id: i64,
    bucket_count: i32,
    buckets: Option<i32>,
    meta: Option<&StreamMeta>,
)
    requires
        call_ensures(MemoryControlPlane::declare_stream, (cp, table_id, bucket_count), ()),
        call_ensures(MemoryControlPlane::stream_bucket_count, (&*final(cp), table_id), buckets),
        call_ensures(MemoryControlPlane::stream_meta, (&*final(cp), table_id), meta),
    ensures
        buckets is Some && meta is Some,
        !old(cp)@.streams.tables.dom().contains(table_id as int) ==> buckets == Some(bucket_count) && (
        meta->0).kind is Log && (meta->0).bucket_key is None,
        old(cp)@.streams.tables.dom().contains(table_id as int) ==> *(meta->0) == old(
            cp,
        )@.streams.tables[table_id as int],
{
}

/// A stream of changes that is declared has the buckets, the key and the engine of its first
/// declaration.
pub proof fn law_declared_stream_of_changes(
    cp: &mut MemoryControlPlane,
    table_id: i64,
    bucket_count: i32,
    bucket_key: String,
    merge_engine: MergeEngine,
    meta: Option<&StreamMeta>,
)
    requires
        call_ensures(
            MemoryControlPlane::declare_cdc,
            (cp, table_id, bucket_count, bucket_key, merge_engine),
            (),
        ),
        call_ensures(MemoryControlPlane::stream_meta, (&*final(cp), table_id), meta),
    ensures
        meta is Some,
        !old(cp)@.streams.tables.dom().contains(table_id as int) ==> {
            &&& (meta->0).bucket_count == bucket_count
            &&& (meta->0).kind is Cdc
            &&& (meta->0).bucket_key == Some(bucket_key)
            &&& (meta->0).merge_engine == merge_engine
            &&& (meta->0).changelog_table_id is None
        },
{
}

/// Offsets are handed out one behind the other: an allocation starts at the offset that was
/// next, and the next one is as many further as it took.
pub proof fn law_allocated_offsets(
    cp: &mut MemoryControlPlane,
    table_id: i64,
    bucket: i32,
    count: i64,
    before: i64,
    r: Result<i64, ControlPlaneError>,
    after: i64,
)
    requires
        old(cp)@.streams.next_offset(table_id as int, bucket as int) + count <= i64::MAX,
        call_ensures(MemoryControlPlane::peek_offset, (&*old(cp), table_id, bucket), before),
        call_ensures(MemoryControlPlane::allocate_offset, (cp, table_id, bucket, count), r),
        call_ensures(MemoryControlPlane::peek_offset, (&*final(cp), table_id, bucket), after),
    ensures
        r is Ok <==> count > 0,
        r is Ok ==> r->Ok_0 == before && after == before + count,
        r is Err ==> after == before,
{
}

/// A right that is denied to a role is denied to everyone who has the role, whatever else is
/// granted.
pub proof fn law_denied_right_is_denied(
    cp: &mut MemoryControlPlane,
    role: &str,
    action: Action,
    target: PolicyTarget,
    r: Result<(), ControlPlaneError>,
    subject: &str,
    decided: Decision,
)
    requires
        call_ensures(MemoryControlPlane::grant, (cp, role, action, target, Effect::Deny), r),
        call_ensures(MemoryControlPlane::check, (&*final(cp), subject, action, &target), decided),
        final(cp)@.acl.effective(subject@, role@),
        r is Ok,
    ensures
        decided is Deny,
{
    law_allowed_where_granted_and_not_denied(final(cp)@.acl, subject@, action, target@, role@);
}

/// What is allowed was granted to a role that the subject has, and denied to none.
pub proof fn law_allowed_right_was_granted(
    cp: &MemoryControlPlane,
    subject: &str,
    action: Action,
    target: &PolicyTarget,
    decided: Decision,
    role: Seq<char>,
)
    requires
        call_ensures(MemoryControlPlane::check, (cp, subject, action, target), decided),
        decided is Allow,
    ensures
        exists|by: Seq<char>|
            cp@.acl.effective(subject@, by) && #[trigger] cp@.acl.grants.dom().contains((by, (action, target@)))
                && cp@.acl.grants[(by, (action, target@))] is Allow,
        cp@.acl.effective(subject@, role) && cp@.acl.grants.dom().contains((role, (action, target@)))
            ==> cp@.acl.grants[(role, (action, target@))] is Allow,
{
    law_allowed_where_granted_and_not_denied(cp@.acl, subject@, action, target@, role);
}

/// A view that was defined is the one that its name gives, its event is recorded, and it shows
/// the files of its base.
pub proof fn law_defined_view_is_found(
    cp: &mut MemoryControlPlane,
    view: ViewDef,
    shape: Result<(), String>,
    event: LineageEvent,
    r: Result<(), ControlPlaneError>,
    found: Option<&ViewDef>,
    at: SnapshotId,
    files: Result<Vec<FileRef>, ControlPlaneError>,
)
    requires
        call_ensures(MemoryControlPlane::define_view, (cp, view, shape, event), r),
        call_ensures(MemoryControlPlane::get_view, (&*final(cp), &view.view), found),
        call_ensures(MemoryControlPlane::files, (&*final(cp), &view.view, at), files),
    ensures
        r is Ok ==> found is Some && *(found->0) == view,
        r is Ok ==> final(cp)@.events.last() == event,
        r is Ok ==> (files matches Ok(list) ==> list@ == final(cp)@.catalog.files_at(view.base@, at.0 as int)),
        r is Ok ==> !old(cp)@.catalog.live_table(view.view@) && old(cp)@.catalog.live_table(view.base@),
{
}

/// A view that was dropped is not found.
pub proof fn law_dropped_view_is_not_found(
    cp: &mut MemoryControlPlane,
    view: &TableRef,
    r: Result<(), ControlPlaneError>,
    found: Option<&ViewDef>,
)
    requires
        call_ensures(MemoryControlPlane::drop_view, (cp, view), r),
        call_ensures(MemoryControlPlane::get_view, (&*final(cp), view), found),
    ensures
        found is None,
        r is Ok <==> old(cp)@.catalog.views.dom().contains(view@),
{
}

/// A job that was put into the queue waits there, as it was handed in, until it is due; then a
/// worker that asks for its kind is handed a job.
pub proof fn law_enqueued_job_is_handed_out(
    cp: &mut MemoryControlPlane,
    job: NewJob,
    id: u128,
    put_at: i128,
    worker: &mut MemoryControlPlane,
    kinds: &Vec<String>,
    now: i128,
    r: Option<Job>,
)
    requires
        call_ensures(MemoryControlPlane::enqueue_as, (cp, job, id, put_at), ()),
        *old(worker) == *final(cp),
        call_ensures(MemoryControlPlane::dequeue_at, (worker, kinds, now), r),
        holds(kinds@, job.kind@),
        job.run_at is None ==> put_at <= now,
        job.run_at is Some ==> job.run_at->0 <= now,
    ensures
        r is Some,
        final(cp)@.rows.len() == old(cp)@.rows.len() + 1,
        final(cp)@.rows.last().id == id,
        final(cp)@.rows.last().kind == job.kind,
        final(cp)@.rows.last().payload == job.payload,
        final(cp)@.rows.last().priority == job.priority,
        old(cp)@.rows.len() == 0 ==> (r->0).id == id && (r->0).payload == job.payload,
{
    let rows = final(cp)@.rows;
    let last = rows.len() - 1;
    let silent = now - old(worker)@.lock_timeout;
    law_enqueued_job_waits_at_the_end(old(cp)@, final(cp)@, job, id, put_at);
    assert(could_be_handed(rows[last], kinds@, now as int, silent));
    law_dequeue_of_nothing(worker, kinds, now, r);
    law_dequeue(worker, kinds, now, r->0);
}

/// The roles are listed by name, each once, and all of them.
pub proof fn law_listed_roles(cp: &MemoryControlPlane, r: Vec<&String>, i: int, j: int, role: Seq<char>)
    requires
        call_ensures(MemoryControlPlane::list_roles, (cp,), r),
    ensures
        0 <= i < j < r@.len() ==> text_before(r@[i]@, r@[j]@),
        0 <= i < r@.len() ==> cp@.acl.roles.contains(r@[i]@),
        cp@.acl.roles.contains(role) ==> exists|k: int| 0 <= k < r@.len() && #[trigger] r@[k]@ == role,
{
    assert(roles_listed(cp@.acl, r@));
    if 0 <= i < r@.len() {
        assert(r@[i]@ == r@[i]@);
        assert(cp@.acl.roles.contains(r@[i]@));
    }
}

/// The roles of a subject are those that were assigned to it, by name; a subject that was not
/// defined has no list.
pub proof fn law_listed_roles_of_a_subject(
    cp: &MemoryControlPlane,
    subject: &str,
    r: Result<Vec<String>, ControlPlaneError>,
    role: Seq<char>,
)
    requires
        call_ensures(MemoryControlPlane::roles_of, (cp, subject), r),
    ensures
        r is Ok <==> cp@.acl.subjects.contains(subject@),
        r is Err ==> r->Err_0@ is NotFound,
        r matches Ok(list) ==> (holds(list@, role) <==> cp@.acl.members.contains((subject@, role))),
{
    if r is Ok {
        assert(assigned_listed(cp@.acl, subject@, (r->Ok_0)@));
    }
}

/// The users are listed by name, each as it is kept, and all of them.
pub proof fn law_listed_users(cp: &MemoryControlPlane, r: Vec<UserSummary>, i: int, j: int, name: Seq<char>)
    requires
        call_ensures(MemoryControlPlane::list_users, (cp,), r),
    ensures
        0 <= i < j < r@.len() ==> text_before(r@[i].username@, r@[j].username@),
        0 <= i < r@.len() ==> {
            let kept = cp@.auth.users[r@[i].username@];
            &&& cp@.auth.users.dom().contains(r@[i].username@)
            &&& r@[i].subject_id == kept.subject_id
            &&& r@[i].disabled == kept.disabled
            &&& r@[i].created_at == kept.created_at
        },
        cp@.auth.users.dom().contains(name) ==> exists|k: int|
            0 <= k < r@.len() && (#[trigger] r@[k]).username@ == name,
{
    assert(users_listed(cp@.auth, r@));
}

/// The tables that are listed are those that live now.
pub proof fn law_listed_tables(cp: &MemoryControlPlane, r: Vec<TableRef>, i: int, k: TableKey)
    requires
        call_ensures(MemoryControlPlane::list_tables, (cp,), r),
    ensures
        0 <= i < r@.len() ==> cp@.catalog.live_table(r@[i]@),
        cp@.catalog.live_table(k) ==> exists|n: int| 0 <= n < r@.len() && #[trigger] r@[n]@ == k,
{
    assert(tables_listed(cp@.catalog, r@));
    if 0 <= i < r@.len() {
        let shown = r@[i]@;
        assert(cp@.catalog.live_table(shown) <==> exists|n: int| 0 <= n < r@.len() && #[trigger] r@[n]@ == shown);
    }
}

/// The watermarks of a view over a table are listed by bucket, each with where it stands.
pub proof fn law_listed_watermarks(
    cp: &MemoryControlPlane,
    mv: &str,
    source: i64,
    r: Vec<(i32, i64)>,
    i: int,
    j: int,
    b: int,
)
    requires
        call_ensures(MemoryControlPlane::mv_watermarks, (cp, mv, source), r),
    ensures
        0 <= i < j < r@.len() ==> r@[i].0 < r@[j].0,
        0 <= i < r@.len() ==> cp@.streams.watermarks.dom().contains((mv@, (source as int, r@[i].0 as int)))
            && cp@.streams.watermarks[(mv@, (source as int, r@[i].0 as int))] == r@[i].1,
        cp@.streams.watermarks.dom().contains((mv@, (source as int, b))) ==> exists|k: int|
            0 <= k < r@.len() && (#[trigger] r@[k]).0 == b,
{
    assert(marks_listed(cp@.streams.watermarks, mv@, source as int, r@));
}

/// The current snapshot of a table is the last at which it lives, and a table that lives at
/// none has none.
pub proof fn law_current_snapshot(
    cp: &MemoryControlPlane,
    table: &TableRef,
    r: Result<Snapshot, ControlPlaneError>,
    j: int,
)
    requires
        call_ensures(MemoryControlPlane::current_snapshot, (cp, table), r),
        0 <= j < cp@.catalog.next(),
        cp@.catalog.table_live(cp@.catalog.base_of(table@), j),
    ensures
        r is Ok,
        j <= (r->Ok_0).id.0,
        cp@.catalog.table_live(cp@.catalog.base_of(table@), (r->Ok_0).id.0 as int),
        r->Ok_0 == cp@.catalog.snapshots[(r->Ok_0).id.0 as int],
{
}

/// The snapshot of a table as of an instant is the last not after it at which the table lives.
pub proof fn law_snapshot_as_of(
    cp: &MemoryControlPlane,
    table: &TableRef,
    ts: i128,
    r: Option<Snapshot>,
    j: int,
)
    requires
        call_ensures(MemoryControlPlane::snapshot_as_of, (cp, table, ts), r),
    ensures
        ({
            let c = cp@.catalog;
            let k = c.base_of(table@);
            &&& 0 <= j < c.next() && c.table_live(k, j) && c.snapshots[j].time <= ts ==> r is Some && j
                <= (r->0).id.0
            &&& r matches Some(found) ==> found.time <= ts && c.table_live(k, found.id.0 as int) && found
                == c.snapshots[found.id.0 as int]
        }),
{
}

/// The horizon of an instant is the last snapshot before it.
pub proof fn law_snapshot_horizon(cp: &MemoryControlPlane, cutoff: i128, r: Option<SnapshotId>, j: int)
    requires
        call_ensures(MemoryControlPlane::snapshot_horizon, (cp, cutoff), r),
    ensures
        ({
            let c = cp@.catalog;
            &&& 0 <= j < c.next() && c.snapshots[j].time < cutoff ==> r is Some && j <= (r->0).0
            &&& r matches Some(found) ==> c.snapshots[found.0 as int].time < cutoff
        }),
{
}

/// A read of a table at a snapshot gives what shows there, of the base where the name is a
/// view's, and is refused exactly where the table does not live there.
pub proof fn law_reads_at_a_snapshot(
    cp: &MemoryControlPlane,
    table: &TableRef,
    at: SnapshotId,
    files: Result<Vec<FileRef>, ControlPlaneError>,
    columns: Result<Vec<ColumnDef>, ControlPlaneError>,
    one: Option<Snapshot>,
)
    requires
        call_ensures(MemoryControlPlane::files, (cp, table, at), files),
        call_ensures(MemoryControlPlane::schema, (cp, table, at), columns),
        call_ensures(MemoryControlPlane::snapshot, (cp, table, at), one),
    ensures
        ({
            let c = cp@.catalog;
            let k = c.base_of(table@);
            let lives = c.table_live(k, at.0 as int);
            &&& files is Ok <==> lives
            &&& columns is Ok <==> lives
            &&& one is Some <==> lives && 0 <= at.0 < c.next()
            &&& files matches Ok(list) ==> list@ == c.files_at(k, at.0 as int)
            &&& columns matches Ok(list) ==> list@ == c.schema_at(table@, at.0 as int)
            &&& one matches Some(s) ==> s == c.snapshots[at.0 as int]
            &&& files matches Err(e) ==> e@ is NotFound
        }),
{
}

} // verus!
