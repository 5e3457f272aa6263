//! What a commit does with what was staged: the jobs it queues, the events it records, the
//! snapshots it makes, the run it marks and the transforms it starts.
use crate::catalog::CatalogView;
use crate::catalog_laws::{lemma_compactions_past, lemma_tables_past, lemma_writes_past};
use crate::error::ControlPlaneError;
use crate::memory::MemoryControlPlane;
use crate::queue::JobState;
use crate::snapshot_laws::{
    law_appended_files_are_those_handed_in, law_compacted_files_are_those_handed_in,
    law_replacing_files_are_those_handed_in,
};
use crate::transaction::{
    catalog_after, commit_fits, commit_result, compaction_fault, compactions_applied, fired, fires,
    first_compaction_fault, last_made, own_transform, runs_marked, staged_rows, tables_created,
    touches, trigger_for, writes_applied, Committed, Firing, MemoryTx, StagedWrite, Trigger,
};
use crate::types::{
    ColumnSpec, DataFile, RunState, RunTrigger, TableRef, TransformBody, TransformDef,
};
use vstd::prelude::*;

verus! {

/// A commit that goes through reports the last snapshot there is, where it made one, and
/// none where it made none; it keeps the snapshots that were there.
pub proof fn law_commit_reports_its_snapshot(
    pre: MemoryControlPlane,
    post: MemoryControlPlane,
    tx: MemoryTx,
    triggers: Seq<Trigger>,
    now: i128,
    r: Result<Committed, ControlPlaneError>,
)
    requires
        pre.wf(),
        commit_fits(pre@, tx),
        commit_result(pre, post, tx, triggers, now, r),
        r is Ok,
    ensures
        post@.catalog.snapshots.len() >= pre@.catalog.snapshots.len(),
        post@.catalog.snapshots.take(pre@.catalog.snapshots.len() as int) == pre@.catalog.snapshots,
        post@.catalog.snapshots.len() == pre@.catalog.snapshots.len() ==> (r->Ok_0).snapshot is None,
        post@.catalog.snapshots.len() > pre@.catalog.snapshots.len() ==> ((r->Ok_0).snapshot matches Some(s)
            && s.0 == post@.catalog.snapshots.len() - 1 && s == post@.catalog.snapshots.last().id),
        tx.staged_writes@.len() > 0 || tx.staged_compactions@.len() > 0 ==> (r->Ok_0).snapshot is Some,
{
    crate::catalog_laws::law_commit_keeps_past(pre@, tx, now);
    lemma_tables_past(pre@.catalog, tx.staged_tables@, now);
    let a = tables_created(pre@.catalog, tx.staged_tables@, now);
    lemma_writes_past(a, tx.staged_writes@, now);
    let b = writes_applied(a, tx.staged_writes@, now);
    lemma_compactions_past(b, tx.staged_compactions@, now);
}

/// A commit puts the staged jobs behind the queue, in their order and each under its
/// number, as jobs that wait: due when they say, or else at once, and not tried yet. It
/// takes no job out and touches none.
pub proof fn law_commit_queues_the_staged_jobs(
    pre: MemoryControlPlane,
    post: MemoryControlPlane,
    tx: MemoryTx,
    triggers: Seq<Trigger>,
    now: i128,
    r: Result<Committed, ControlPlaneError>,
    i: int,
)
    requires
        commit_result(pre, post, tx, triggers, now, r),
        r is Ok,
        0 <= i < tx.staged@.len(),
    ensures
        ({
            let n = pre@.rows.len();
            let (id, job) = tx.staged@[i];
            &&& post@.rows.len() >= n + tx.staged@.len()
            &&& post@.rows.take(n as int) == pre@.rows
            &&& post@.rows[n + i].id == id
            &&& post@.rows[n + i].kind == job.kind
            &&& post@.rows[n + i].payload == job.payload
            &&& post@.rows[n + i].priority == job.priority
            &&& post@.rows[n + i].state == JobState::Available
            &&& post@.rows[n + i].attempts == 0
            &&& post@.rows[n + i].locked_at is None
            &&& (job.run_at matches Some(t) ==> post@.rows[n + i].run_at == t)
            &&& (job.run_at is None ==> post@.rows[n + i].run_at == now)
        }),
        (r->Ok_0).wake,
{
    let defs = pre.transforms.defs.entries@;
    let made = last_made(pre@.catalog, catalog_after(pre@.catalog, tx, now));
    let runs = runs_marked(pre@.runs, tx.staged_run_success, made, now);
    let rows = pre@.rows + staged_rows(tx.staged@, now);
    lemma_fired_rows(
        Firing { rows, runs, fired: false },
        defs,
        triggers,
        tx.staged_writes@,
        own_transform(runs, tx.staged_run_success),
        now,
    );
    assert(post@.rows.take(rows.len() as int) == rows);
    assert(post@.rows.take(rows.len() as int)[pre@.rows.len() + i] == post@.rows[pre@.rows.len() + i]);
    assert(post@.rows.take(pre@.rows.len() as int) =~= rows.take(pre@.rows.len() as int));
    assert(rows.take(pre@.rows.len() as int) =~= pre@.rows);
}

proof fn lemma_fired_rows(
    f: Firing,
    defs: Seq<(String, TransformDef)>,
    triggers: Seq<Trigger>,
    writes: Seq<StagedWrite>,
    own: Option<String>,
    now: i128,
)
    ensures
        fired(f, defs, triggers, writes, own, now).rows.len() >= f.rows.len(),
        fired(f, defs, triggers, writes, own, now).rows.take(f.rows.len() as int) == f.rows,
        f.fired ==> fired(f, defs, triggers, writes, own, now).fired,
    decreases defs.len(),
{
    if defs.len() > 0 {
        lemma_fired_rows(f, defs.drop_last(), triggers, writes, own, now);
        let g = fired(f, defs.drop_last(), triggers, writes, own, now);
        let h = fired(f, defs, triggers, writes, own, now);
        assert(h.rows.take(f.rows.len() as int) =~= g.rows.take(f.rows.len() as int));
    } else {
        assert(f.rows.take(f.rows.len() as int) =~= f.rows);
    }
}

/// A commit records the staged events behind those that were there, in their order, and
/// changes nothing but the queue, the catalog, the events and the runs.
pub proof fn law_commit_records_the_staged_events(
    pre: MemoryControlPlane,
    post: MemoryControlPlane,
    tx: MemoryTx,
    triggers: Seq<Trigger>,
    now: i128,
    r: Result<Committed, ControlPlaneError>,
)
    requires
        commit_result(pre, post, tx, triggers, now, r),
        r is Ok,
    ensures
        post@.events == pre@.events + tx.staged_events@,
        post@.defs == pre@.defs,
        post@.ontology == pre@.ontology,
        post@.acl == pre@.acl,
        post@.auth == pre@.auth,
        post@.streams == pre@.streams,
        post@.schedules == pre@.schedules,
        post@.lock_timeout == pre@.lock_timeout,
{
}

/// The run that a commit marks has succeeded with the snapshot that the commit reports, at
/// the instant of the commit. The numbers of runs that the commit starts are new ones.
pub proof fn law_commit_marks_its_run(
    pre: MemoryControlPlane,
    post: MemoryControlPlane,
    tx: MemoryTx,
    triggers: Seq<Trigger>,
    now: i128,
    r: Result<Committed, ControlPlaneError>,
    run_id: u128,
)
    requires
        commit_result(pre, post, tx, triggers, now, r),
        r is Ok,
        tx.staged_run_success == Some(run_id),
        forall|i: int| 0 <= i < triggers.len() ==> (#[trigger] triggers[i]).run_id != run_id,
    ensures
        pre@.runs.dom().contains(run_id as int),
        (r->Ok_0).snapshot is Some,
        post@.runs[run_id as int].state == RunState::Succeeded,
        post@.runs[run_id as int].snapshot_id == Some(((r->Ok_0).snapshot->0).0),
        post@.runs[run_id as int].finished_at == Some(now),
        post@.runs[run_id as int].transform == pre@.runs[run_id as int].transform,
{
    let defs = pre.transforms.defs.entries@;
    let made = last_made(pre@.catalog, catalog_after(pre@.catalog, tx, now));
    let runs = runs_marked(pre@.runs, tx.staged_run_success, made, now);
    lemma_fired_runs(
        Firing { rows: pre@.rows + staged_rows(tx.staged@, now), runs, fired: false },
        defs,
        triggers,
        tx.staged_writes@,
        own_transform(runs, tx.staged_run_success),
        now,
        run_id as int,
    );
}

proof fn lemma_trigger_is_one_of_them(triggers: Seq<Trigger>, name: Seq<char>) -> (i: int)
    requires
        trigger_for(triggers, name) is Some,
    ensures
        0 <= i < triggers.len(),
        trigger_for(triggers, name) == Some(triggers[i]),
        triggers[i].name@ == name,
        forall|j: int| 0 <= j < i ==> (#[trigger] triggers[j]).name@ != name,
    decreases triggers.len(),
{
    if triggers[0].name@ == name {
        0
    } else {
        let i = lemma_trigger_is_one_of_them(triggers.skip(1), name);
        assert forall|j: int| 0 <= j < i + 1 implies (#[trigger] triggers[j]).name@ != name by {
            if j > 0 {
                assert(triggers.skip(1)[j - 1] == triggers[j]);
            }
        }
        i + 1
    }
}

proof fn lemma_fired_runs(
    f: Firing,
    defs: Seq<(String, TransformDef)>,
    triggers: Seq<Trigger>,
    writes: Seq<StagedWrite>,
    own: Option<String>,
    now: i128,
    id: int,
)
    requires
        forall|i: int| 0 <= i < triggers.len() ==> (#[trigger] triggers[i]).run_id != id,
    ensures
        fired(f, defs, triggers, writes, own, now).runs[id] == f.runs[id],
        fired(f, defs, triggers, writes, own, now).runs.dom().contains(id) == f.runs.dom().contains(id),
    decreases defs.len(),
{
    if defs.len() > 0 {
        lemma_fired_runs(f, defs.drop_last(), triggers, writes, own, now, id);
        let g = fired(f, defs.drop_last(), triggers, writes, own, now);
        if fires(g, defs.last(), triggers, writes, own) {
            let i = lemma_trigger_is_one_of_them(triggers, defs.last().0@);
            assert(triggers[i].run_id != id);
        }
    }
}

/// A commit leaves alone every run that it neither marks nor starts.
pub proof fn law_commit_leaves_other_runs(
    pre: MemoryControlPlane,
    post: MemoryControlPlane,
    tx: MemoryTx,
    triggers: Seq<Trigger>,
    now: i128,
    r: Result<Committed, ControlPlaneError>,
    id: int,
)
    requires
        commit_result(pre, post, tx, triggers, now, r),
        r is Ok,
        tx.staged_run_success matches Some(marked) ==> marked != id,
        forall|i: int| 0 <= i < triggers.len() ==> (#[trigger] triggers[i]).run_id != id,
    ensures
        post@.runs[id] == pre@.runs[id],
        post@.runs.dom().contains(id) == pre@.runs.dom().contains(id),
{
    let defs = pre.transforms.defs.entries@;
    let made = last_made(pre@.catalog, catalog_after(pre@.catalog, tx, now));
    let runs = runs_marked(pre@.runs, tx.staged_run_success, made, now);
    lemma_fired_runs(
        Firing { rows: pre@.rows + staged_rows(tx.staged@, now), runs, fired: false },
        defs,
        triggers,
        tx.staged_writes@,
        own_transform(runs, tx.staged_run_success),
        now,
        id,
    );
}

/// A transform that listens to commits is started where one of its inputs was written, no
/// run of it waits and it is not the one that commits; and only then. `i` is the first of
/// the triggers that names it.
pub proof fn law_written_input_starts_the_transform(
    f: Firing,
    def: (String, TransformDef),
    triggers: Seq<Trigger>,
    writes: Seq<StagedWrite>,
    own: Option<String>,
    i: int,
)
    requires
        0 <= i < triggers.len(),
        triggers[i].name@ == def.0@,
        forall|j: int| 0 <= j < i ==> (#[trigger] triggers[j]).name@ != def.0@,
    ensures
        fires(f, def, triggers, writes, own) <==> {
            &&& def.1.on_input_commit
            &&& (own is Some ==> (own->0)@ != def.0@)
            &&& exists|a: int, b: int|
                0 <= a < triggers[i].inputs@.len() && 0 <= b < writes.len() && (match #[trigger] writes[b] {
                    StagedWrite::Append(t, _) => (#[trigger] triggers[i].inputs@[a])@ == t@,
                    StagedWrite::Replace(t, _) => triggers[i].inputs@[a]@ == t@,
                })
            &&& forall|id: int| #[trigger]
                f.runs.dom().contains(id) ==> !(f.runs[id].state == RunState::Queued && f.runs[id].transform is Some
                    && (f.runs[id].transform->0)@ == def.0@)
        },
{
    let k = lemma_trigger_found(triggers, def.0@, i);
    let inputs = triggers[i].inputs@;
    if touches(inputs, writes) {
        let (a, b) = choose|a: int, b: int|
            0 <= a < inputs.len() && 0 <= b < writes.len() && (#[trigger] inputs[a])@
                == crate::transaction::write_target(#[trigger] writes[b]);
        assert(0 <= a < triggers[i].inputs@.len() && 0 <= b < writes.len() && (match writes[b] {
            StagedWrite::Append(t, _) => triggers[i].inputs@[a]@ == t@,
            StagedWrite::Replace(t, _) => triggers[i].inputs@[a]@ == t@,
        }));
    }
    if exists|a: int, b: int|
        0 <= a < triggers[i].inputs@.len() && 0 <= b < writes.len() && (match #[trigger] writes[b] {
            StagedWrite::Append(t, _) => (#[trigger] triggers[i].inputs@[a])@ == t@,
            StagedWrite::Replace(t, _) => triggers[i].inputs@[a]@ == t@,
        }) {
        let (a, b) = choose|a: int, b: int|
            0 <= a < triggers[i].inputs@.len() && 0 <= b < writes.len() && (match #[trigger] writes[b] {
                StagedWrite::Append(t, _) => (#[trigger] triggers[i].inputs@[a])@ == t@,
                StagedWrite::Replace(t, _) => triggers[i].inputs@[a]@ == t@,
            });
        assert(inputs[a]@ == crate::transaction::write_target(writes[b]));
        assert(touches(inputs, writes));
    }
}

proof fn lemma_trigger_found(triggers: Seq<Trigger>, name: Seq<char>, i: int)
    requires
        0 <= i < triggers.len(),
        triggers[i].name@ == name,
        forall|j: int| 0 <= j < i ==> (#[trigger] triggers[j]).name@ != name,
    ensures
        trigger_for(triggers, name) == Some(triggers[i]),
    decreases triggers.len(),
{
    if i > 0 {
        assert(triggers[0].name@ != name);
        let rest = triggers.skip(1);
        assert forall|j: int| 0 <= j < i - 1 implies (#[trigger] rest[j]).name@ != name by {
            assert(triggers[j + 1].name@ != name);
        }
        lemma_trigger_found(rest, name, i - 1);
    }
}

/// A transform that is started gets one run that waits, under the number of its trigger,
/// with its own name and text, and the trigger's job behind the queue; one that is not
/// started changes nothing.
pub proof fn law_started_transform_gets_a_run(
    f: Firing,
    defs: Seq<(String, TransformDef)>,
    def: (String, TransformDef),
    triggers: Seq<Trigger>,
    writes: Seq<StagedWrite>,
    own: Option<String>,
    now: i128,
    i: int,
)
    requires
        0 <= i < triggers.len(),
        triggers[i].name@ == def.0@,
        forall|j: int| 0 <= j < i ==> (#[trigger] triggers[j]).name@ != def.0@,
    ensures
        ({
            let g = fired(f, defs, triggers, writes, own, now);
            let h = fired(f, defs.push(def), triggers, writes, own, now);
            if fires(g, def, triggers, writes, own) {
                let run = h.runs[triggers[i].run_id as int];
                let job = triggers[i].job;
                &&& h.fired
                &&& h.runs.dom() == g.runs.dom().insert(triggers[i].run_id as int)
                &&& run.run_id == triggers[i].run_id
                &&& run.transform == Some(def.0)
                &&& run.trigger == RunTrigger::DataTrigger
                &&& run.state == RunState::Queued
                &&& run.queued_at == now
                &&& run.started_at is None && run.finished_at is None
                &&& run.snapshot_id is None && run.error is None
                &&& (def.1.body matches TransformBody::Physical { text, .. } ==> run.body == text)
                &&& (def.1.body matches TransformBody::Typed { text, .. } ==> run.body == text)
                &&& h.rows.drop_last() == g.rows && h.rows.len() == g.rows.len() + 1
                &&& h.rows.last().id == triggers[i].job_id
                &&& h.rows.last().kind == job.kind && h.rows.last().payload == job.payload
                &&& h.rows.last().state == JobState::Available
            } else {
                h == g
            }
        }),
{
    lemma_trigger_found(triggers, def.0@, i);
    let g = fired(f, defs, triggers, writes, own, now);
    let h = fired(f, defs.push(def), triggers, writes, own, now);
    assert(defs.push(def).drop_last() =~= defs);
    if fires(g, def, triggers, writes, own) {
        assert(h.rows.drop_last() =~= g.rows);
        assert(h.runs.dom() =~= g.runs.dom().insert(triggers[i].run_id as int));
    }
}

/// Staging the creation of a table that is live then makes no snapshot and changes
/// nothing; otherwise the table is created behind what was staged before.
pub proof fn law_live_table_is_not_created_again(
    v: CatalogView,
    staged: Seq<(TableRef, Vec<ColumnSpec>)>,
    table: TableRef,
    columns: Vec<ColumnSpec>,
    now: i128,
)
    ensures
        ({
            let before = tables_created(v, staged, now);
            let after = tables_created(v, staged.push((table, columns)), now);
            &&& before.live_table(table@) ==> after == before
            &&& !before.live_table(table@) ==> after == before.created(table@, columns@, now)
        }),
{
    assert(staged.push((table, columns)).drop_last() =~= staged);
}

/// Where the last write that is staged is an append or a replacement, and no compaction is
/// staged, the snapshot that the commit reports shows its files at the end, in their order:
/// each with its path, its number of rows and its size in bytes. A replacement shows no
/// other.
pub proof fn law_commit_shows_the_files_written(
    pre: MemoryControlPlane,
    post: MemoryControlPlane,
    tx: MemoryTx,
    triggers: Seq<Trigger>,
    now: i128,
    r: Result<Committed, ControlPlaneError>,
    table: TableRef,
    files: Vec<DataFile>,
    i: int,
)
    requires
        pre.wf(),
        commit_fits(pre@, tx),
        commit_result(pre, post, tx, triggers, now, r),
        r is Ok,
        tx.staged_compactions@.len() == 0,
        tx.staged_writes@.len() > 0,
        tx.staged_writes@.last() == StagedWrite::Append(table, files) || tx.staged_writes@.last()
            == StagedWrite::Replace(table, files),
        0 <= i < files@.len(),
    ensures
        (r->Ok_0).snapshot is Some,
        ({
            let s = ((r->Ok_0).snapshot->0).0;
            let shown = post@.catalog.files_at(table@, s as int);
            let kept = shown.len() - files@.len();
            &&& kept >= 0
            &&& shown[kept + i].path == files@[i].path
            &&& shown[kept + i].record_count == files@[i].record_count
            &&& shown[kept + i].file_size_bytes == files@[i].file_size_bytes
            &&& tx.staged_writes@.last() is Replace ==> kept == 0
        }),
{
    let writes = tx.staged_writes@;
    lemma_tables_past(pre@.catalog, tx.staged_tables@, now);
    let a = tables_created(pre@.catalog, tx.staged_tables@, now);
    lemma_writes_past(a, writes.drop_last(), now);
    let b = writes_applied(a, writes.drop_last(), now);
    match writes.last() {
        StagedWrite::Append(..) => law_appended_files_are_those_handed_in(b, table@, files@, now, i),
        StagedWrite::Replace(..) => law_replacing_files_are_those_handed_in(b, table@, files@, now, i),
    }
}

/// The last compaction that is staged shows its files at the end of what the snapshot that
/// the commit reports shows, in their order: each with its path, its number of rows and its
/// size in bytes.
pub proof fn law_commit_shows_the_files_compacted(
    pre: MemoryControlPlane,
    post: MemoryControlPlane,
    tx: MemoryTx,
    triggers: Seq<Trigger>,
    now: i128,
    r: Result<Committed, ControlPlaneError>,
    i: int,
)
    requires
        pre.wf(),
        commit_fits(pre@, tx),
        commit_result(pre, post, tx, triggers, now, r),
        r is Ok,
        tx.staged_compactions@.len() > 0,
        0 <= i < tx.staged_compactions@.last().2@.len(),
    ensures
        (r->Ok_0).snapshot is Some,
        ({
            let (table, expire, files) = tx.staged_compactions@.last();
            let s = ((r->Ok_0).snapshot->0).0;
            let shown = post@.catalog.files_at(table@, s as int);
            let kept = shown.len() - files@.len();
            &&& kept >= 0
            &&& shown[kept + i].path == files@[i].path
            &&& shown[kept + i].record_count == files@[i].record_count
            &&& shown[kept + i].file_size_bytes == files@[i].file_size_bytes
        }),
{
    let all = tx.staged_compactions@;
    let (table, expire, files) = all.last();
    lemma_tables_past(pre@.catalog, tx.staged_tables@, now);
    let a = tables_created(pre@.catalog, tx.staged_tables@, now);
    lemma_writes_past(a, tx.staged_writes@, now);
    let b = writes_applied(a, tx.staged_writes@, now);
    lemma_compactions_past(b, all.drop_last(), now);
    let c = compactions_applied(b, all.drop_last(), now);
    law_compacted_files_are_those_handed_in(c, table@, expire@, files@, now, i);
}

/// A commit is refused where a success is staged of a run that is not there, or with
/// nothing that makes a snapshot, or where a compaction names a file that is not open; it
/// goes through where none of these holds and, if it marks a run, it makes a snapshot.
pub proof fn law_commit_goes_through(
    pre: MemoryControlPlane,
    post: MemoryControlPlane,
    tx: MemoryTx,
    triggers: Seq<Trigger>,
    now: i128,
    r: Result<Committed, ControlPlaneError>,
)
    requires
        commit_result(pre, post, tx, triggers, now, r),
    ensures
        tx.staged_run_success matches Some(id) && !pre@.runs.dom().contains(id as int) ==> r is Err
            && post == pre,
        tx.staged_run_success is Some && tx.staged_tables@.len() == 0 && tx.staged_writes@.len() == 0
            && tx.staged_compactions@.len() == 0 ==> r is Err && (r->Err_0)@ is Validation && post == pre,
        tx.staged_run_success is None && tx.staged_compactions@.len() == 0 ==> r is Ok,
        tx.staged_run_success matches Some(id) && pre@.runs.dom().contains(id as int)
            && tx.staged_writes@.len() > 0 && tx.staged_compactions@.len() == 0 && pre.wf() && commit_fits(
            pre@,
            tx,
        ) ==> r is Ok,
{
    if pre.wf() && commit_fits(pre@, tx) {
        lemma_tables_past(pre@.catalog, tx.staged_tables@, now);
        let a = tables_created(pre@.catalog, tx.staged_tables@, now);
        lemma_writes_past(a, tx.staged_writes@, now);
    }
}

/// A commit with a compaction that cannot be applied to what was there before is refused
/// as a conflict, and changes nothing; one without any goes on.
pub proof fn law_one_bad_compaction_refuses_the_commit(
    v: CatalogView,
    staged: Seq<(TableRef, Vec<String>, Vec<DataFile>)>,
)
    ensures
        first_compaction_fault(v, staged) is None <==> forall|i: int|
            0 <= i < staged.len() ==> compaction_fault(v, #[trigger] staged[i]) is None,
        first_compaction_fault(v, staged) matches Some(f) ==> f is Conflict,
    decreases staged.len(),
{
    if staged.len() > 0 {
        law_one_bad_compaction_refuses_the_commit(v, staged.drop_last());
        assert forall|i: int| 0 <= i < staged.len() - 1 implies staged.drop_last()[i]
            == #[trigger] staged[i] by {}
        if first_compaction_fault(v, staged) is None {
            assert forall|i: int| 0 <= i < staged.len() implies compaction_fault(
                v,
                #[trigger] staged[i],
            ) is None by {
                if i < staged.len() - 1 {
                    assert(compaction_fault(v, staged.drop_last()[i]) is None);
                }
            }
        } else if first_compaction_fault(v, staged.drop_last()) is None {
            assert(compaction_fault(v, staged[staged.len() - 1]) is Some);
        } else {
            let i = choose|i: int|
                0 <= i < staged.drop_last().len() && compaction_fault(
                    v,
                    #[trigger] staged.drop_last()[i],
                ) is Some;
            assert(compaction_fault(v, staged[i]) is Some);
        }
    }
}

} // verus!
