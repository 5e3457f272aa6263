//! Transactions: writes staged one by one and applied together on commit.
use crate::ambient;
use crate::catalog::{CatalogState, CatalogView, Versioned};
use crate::error::{outcome, ControlPlaneError, Fault};
use crate::key::{str_same, Key};
use crate::memory::{ControlPlaneView, MemoryControlPlane};
use crate::ordered::{OrderedMap, lemma_entry, lemma_position};
use crate::queue::{insert_with_id, queued_row, Row};
use crate::text::{concat, contains_text, holds, nat_text, usize_text};
use crate::transforms::{apply_outcome, body_text, body_text_of, runs_numbered, with_outcome};
use crate::types::{
    ColumnSpec, DataFile, FileRef, LineageEvent, NewJob, RunOutcome, RunState, RunTrigger, SnapshotId,
    TableKey, TableRef, TransformDef, TransformRun,
};
use vstd::prelude::*;
use vstd::string::StringExecFns;

verus! {

/// A staged file write, in staging order.
pub enum StagedWrite {
    Append(TableRef, Vec<DataFile>),
    Replace(TableRef, Vec<DataFile>),
}

/// The table that a staged write is for.
pub open spec fn write_target(w: StagedWrite) -> TableKey {
    match w {
        StagedWrite::Append(t, _) => t@,
        StagedWrite::Replace(t, _) => t@,
    }
}

/// A transaction: what it will do on commit.
pub struct MemoryTx {
    pub staged: Vec<(u128, NewJob)>,
    pub staged_events: Vec<LineageEvent>,
    pub staged_tables: Vec<(TableRef, Vec<ColumnSpec>)>,
    pub staged_writes: Vec<StagedWrite>,
    pub staged_compactions: Vec<(TableRef, Vec<String>, Vec<DataFile>)>,
    pub staged_run_success: Option<u128>,
}

/// How a data-triggered transform would run: the tables that its inputs resolve
/// to, and the numbers and the job of the run that it would start.
pub struct Trigger {
    pub name: String,
    pub inputs: Vec<TableRef>,
    pub run_id: u128,
    pub job_id: u128,
    pub job: NewJob,
}

/// What a commit reports: the last snapshot it made, where it made one, and
/// whether it put jobs in the queue that a waiting worker should be woken for.
#[derive(Debug)]
pub struct Committed {
    pub snapshot: Option<SnapshotId>,
    pub wake: bool,
}

/// The catalog after the staged tables are created in order. A table that is live
/// already is skipped.
pub open spec fn tables_created(
    v: CatalogView,
    staged: Seq<(TableRef, Vec<ColumnSpec>)>,
    now: i128,
) -> CatalogView
    decreases staged.len(),
{
    if staged.len() == 0 {
        v
    } else {
        let u = tables_created(v, staged.drop_last(), now);
        let (t, cols) = staged.last();
        if u.live_table(t@) {
            u
        } else {
            u.created(t@, cols@, now)
        }
    }
}

/// The catalog after the staged writes are applied in staging order.
pub open spec fn writes_applied(v: CatalogView, staged: Seq<StagedWrite>, now: i128) -> CatalogView
    decreases staged.len(),
{
    if staged.len() == 0 {
        v
    } else {
        let u = writes_applied(v, staged.drop_last(), now);
        match staged.last() {
            StagedWrite::Append(t, files) => u.appended(t@, files@, now),
            StagedWrite::Replace(t, files) => u.replaced(t@, files@, now),
        }
    }
}

/// The catalog after the staged compactions are applied in order.
pub open spec fn compactions_applied(
    v: CatalogView,
    staged: Seq<(TableRef, Vec<String>, Vec<DataFile>)>,
    now: i128,
) -> CatalogView
    decreases staged.len(),
{
    if staged.len() == 0 {
        v
    } else {
        let u = compactions_applied(v, staged.drop_last(), now);
        let (t, expire, files) = staged.last();
        u.compacted(t@, expire@, files@, now)
    }
}

/// How many of `rows` are open and named by `expire`.
pub open spec fn open_named(rows: Seq<Versioned<FileRef>>, expire: Seq<String>) -> nat
    decreases rows.len(),
{
    if rows.len() == 0 {
        0
    } else {
        open_named(rows.drop_last(), expire) + if rows.last().end is None && holds(
            expire,
            rows.last().val.path@,
        ) {
            1nat
        } else {
            0nat
        }
    }
}

/// How many different paths a list names.
pub open spec fn distinct(paths: Seq<String>) -> nat
    decreases paths.len(),
{
    if paths.len() == 0 {
        0
    } else {
        distinct(paths.drop_last()) + if holds(paths.drop_last(), paths.last()@) {
            0nat
        } else {
            1nat
        }
    }
}

/// Why a staged compaction cannot be applied to `v`: not every target that it
/// expires is open. A target that is named twice counts once.
pub open spec fn compaction_fault(
    v: CatalogView,
    c: (TableRef, Vec<String>, Vec<DataFile>),
) -> Option<Fault> {
    let live = open_named(crate::catalog::rows_of(v.files, c.0@), c.1@);
    let named = distinct(c.1@);
    if live == named {
        None
    } else {
        Some(
            Fault::Conflict(
                "compact_files: "@ + nat_text(live) + " of "@ + nat_text(named)
                    + " expire targets live for "@ + c.0@.0 + "."@ + c.0@.1,
            ),
        )
    }
}

/// The first fault of the staged compactions.
pub open spec fn first_compaction_fault(
    v: CatalogView,
    staged: Seq<(TableRef, Vec<String>, Vec<DataFile>)>,
) -> Option<Fault>
    decreases staged.len(),
{
    if staged.len() == 0 {
        None
    } else {
        match first_compaction_fault(v, staged.drop_last()) {
            Some(f) => Some(f),
            None => compaction_fault(v, staged.last()),
        }
    }
}

/// The success mark is staged, and nothing that makes a snapshot is.
pub open spec fn marks_nothing(tx: MemoryTx) -> bool {
    tx.staged_run_success is Some && tx.staged_tables@.len() == 0 && tx.staged_writes@.len() == 0
        && tx.staged_compactions@.len() == 0
}

/// Why the commit is refused before it changes anything.
pub open spec fn commit_refusal(cp: ControlPlaneView, tx: MemoryTx) -> Option<Fault> {
    if marks_nothing(tx) {
        Some(Fault::Validation("mark_run_succeeded staged without a snapshot-producing write"@))
    } else if tx.staged_run_success is Some && !cp.runs.dom().contains(
        tx.staged_run_success->0 as int,
    ) {
        Some(Fault::NotFound("run "@ + ambient::uuid_chars(tx.staged_run_success->0)))
    } else {
        first_compaction_fault(cp.catalog, tx.staged_compactions@)
    }
}

/// The rows of the staged jobs.
pub open spec fn staged_rows(staged: Seq<(u128, NewJob)>, now: i128) -> Seq<Row> {
    Seq::new(staged.len(), |i: int| queued_row(staged[i].0, staged[i].1, now))
}

/// The catalog after everything staged is applied.
pub open spec fn catalog_after(v: CatalogView, tx: MemoryTx, now: i128) -> CatalogView {
    compactions_applied(
        writes_applied(tables_created(v, tx.staged_tables@, now), tx.staged_writes@, now),
        tx.staged_compactions@,
        now,
    )
}

/// The last snapshot that was made between `v` and `u`.
pub open spec fn last_made(v: CatalogView, u: CatalogView) -> Option<SnapshotId> {
    if u.next() > v.next() {
        Some(SnapshotId((u.next() - 1) as i64))
    } else {
        None
    }
}

/// The trigger of the transform `name`: the first that names it.
pub open spec fn trigger_for(triggers: Seq<Trigger>, name: Seq<char>) -> Option<Trigger>
    decreases triggers.len(),
{
    if triggers.len() == 0 {
        None
    } else if triggers[0].name@ == name {
        Some(triggers[0])
    } else {
        trigger_for(triggers.skip(1), name)
    }
}

/// Some staged write is for one of `inputs`.
pub open spec fn touches(inputs: Seq<TableRef>, writes: Seq<StagedWrite>) -> bool {
    exists|i: int, j: int|
        0 <= i < inputs.len() && 0 <= j < writes.len() && (#[trigger] inputs[i])@ == write_target(
            #[trigger] writes[j],
        )
}

/// A run of the transform `name` is waiting to start.
pub open spec fn run_waiting(runs: Map<int, TransformRun>, name: Seq<char>) -> bool {
    exists|id: int| #[trigger]
        runs.dom().contains(id) && runs[id].state == RunState::Queued && (
        runs[id].transform matches Some(t) && t@ == name)
}

/// The run that a data trigger starts.
pub open spec fn triggered_run(def: (String, TransformDef), t: Trigger, now: i128) -> TransformRun {
    TransformRun {
        run_id: t.run_id,
        transform: Some(def.0),
        trigger: RunTrigger::DataTrigger,
        state: RunState::Queued,
        body: body_text(def.1.body),
        queued_at: now,
        started_at: None,
        finished_at: None,
        snapshot_id: None,
        error: None,
    }
}

/// The queue and the runs while the data triggers fire.
#[verifier::ext_equal]
pub struct Firing {
    pub rows: Seq<Row>,
    pub runs: Map<int, TransformRun>,
    pub fired: bool,
}

/// The definition fires: it listens to commits, is not the committing run's own
/// transform, has a trigger whose inputs were written, and no run of it waits.
pub open spec fn fires(
    f: Firing,
    def: (String, TransformDef),
    triggers: Seq<Trigger>,
    writes: Seq<StagedWrite>,
    own: Option<String>,
) -> bool {
    &&& def.1.on_input_commit
    &&& !(own matches Some(o) && o@ == def.0@)
    &&& trigger_for(triggers, def.0@) is Some
    &&& touches((trigger_for(triggers, def.0@)->0).inputs@, writes)
    &&& !run_waiting(f.runs, def.0@)
}

/// The definitions in `defs` fire, in order.
pub open spec fn fired(
    f: Firing,
    defs: Seq<(String, TransformDef)>,
    triggers: Seq<Trigger>,
    writes: Seq<StagedWrite>,
    own: Option<String>,
    now: i128,
) -> Firing
    decreases defs.len(),
{
    if defs.len() == 0 {
        f
    } else {
        let g = fired(f, defs.drop_last(), triggers, writes, own, now);
        if fires(g, defs.last(), triggers, writes, own) {
            let t = trigger_for(triggers, defs.last().0@)->0;
            Firing {
                rows: g.rows.push(queued_row(t.job_id, t.job, now)),
                runs: g.runs.insert(t.run_id as int, triggered_run(defs.last(), t, now)),
                fired: true,
            }
        } else {
            g
        }
    }
}

/// The runs after the staged success mark is applied.
pub open spec fn runs_marked(
    runs: Map<int, TransformRun>,
    mark: Option<u128>,
    s: Option<SnapshotId>,
    now: i128,
) -> Map<int, TransformRun> {
    match mark {
        None => runs,
        Some(rid) => runs.insert(
            rid as int,
            with_outcome(
                runs[rid as int],
                RunOutcome::Succeeded { snapshot_id: (s->0).0 },
                now,
            ),
        ),
    }
}

/// The transform of the committing run.
pub open spec fn own_transform(runs: Map<int, TransformRun>, mark: Option<u128>) -> Option<String> {
    match mark {
        None => None,
        Some(rid) => runs[rid as int].transform,
    }
}

/// The queue and the runs after the commit's data triggers, `defs` being the
/// transform definitions in the order of their names.
pub open spec fn firing_after(
    cp: ControlPlaneView,
    defs: Seq<(String, TransformDef)>,
    tx: MemoryTx,
    triggers: Seq<Trigger>,
    now: i128,
) -> Firing {
    let made = last_made(cp.catalog, catalog_after(cp.catalog, tx, now));
    let runs = runs_marked(cp.runs, tx.staged_run_success, made, now);
    fired(
        Firing { rows: cp.rows + staged_rows(tx.staged@, now), runs, fired: false },
        defs,
        triggers,
        tx.staged_writes@,
        own_transform(runs, tx.staged_run_success),
        now,
    )
}

/// The control plane after the commit, `defs` being the transform definitions in
/// the order of their names.
pub open spec fn committed(
    cp: ControlPlaneView,
    defs: Seq<(String, TransformDef)>,
    tx: MemoryTx,
    triggers: Seq<Trigger>,
    now: i128,
) -> ControlPlaneView {
    let f = firing_after(cp, defs, tx, triggers, now);
    ControlPlaneView {
        rows: f.rows,
        catalog: catalog_after(cp.catalog, tx, now),
        events: cp.events + tx.staged_events@,
        runs: f.runs,
        ..cp
    }
}


/// Creating tables makes at most one snapshot each.
proof fn lemma_tables_created_next(
    v: CatalogView,
    staged: Seq<(TableRef, Vec<ColumnSpec>)>,
    now: i128,
)
    ensures
        v.next() <= tables_created(v, staged, now).next() <= v.next() + staged.len(),
    decreases staged.len(),
{
    if staged.len() > 0 {
        lemma_tables_created_next(v, staged.drop_last(), now);
    }
}

/// Each write makes one snapshot.
proof fn lemma_writes_applied_next(v: CatalogView, staged: Seq<StagedWrite>, now: i128)
    ensures
        writes_applied(v, staged, now).next() == v.next() + staged.len(),
    decreases staged.len(),
{
    if staged.len() > 0 {
        lemma_writes_applied_next(v, staged.drop_last(), now);
    }
}

/// Each compaction makes one snapshot.
proof fn lemma_compactions_applied_next(
    v: CatalogView,
    staged: Seq<(TableRef, Vec<String>, Vec<DataFile>)>,
    now: i128,
)
    ensures
        compactions_applied(v, staged, now).next() == v.next() + staged.len(),
    decreases staged.len(),
{
    if staged.len() > 0 {
        lemma_compactions_applied_next(v, staged.drop_last(), now);
    }
}

/// How many of `rows` are open and named by `expire`.
fn count_open_named(rows: &Vec<Versioned<FileRef>>, expire: &Vec<String>) -> (r: usize)
    ensures
        r == open_named(rows@, expire@),
{
    let mut n: usize = 0;
    let mut i: usize = 0;
    while i < rows.len()
        invariant
            i <= rows@.len(),
            n <= i,
            n == open_named(rows@.take(i as int), expire@),
        decreases rows@.len() - i,
    {
        assert(rows@.take(i + 1).drop_last() =~= rows@.take(i as int));
        if rows[i].end.is_none() && contains_text(expire, rows[i].val.path.as_str()) {
            n = n + 1;
        }
        i = i + 1;
    }
    assert(rows@.take(i as int) =~= rows@);
    n
}

/// Whether a path is named before its place in the list.
fn named_before(paths: &Vec<String>, at: usize) -> (r: bool)
    requires
        at < paths@.len(),
    ensures
        r == holds(paths@.take(at as int), paths@[at as int]@),
{
    let ghost head = paths@.take(at as int);
    let mut i: usize = 0;
    while i < at
        invariant
            i <= at < paths@.len(),
            head == paths@.take(at as int),
            forall|j: int| 0 <= j < i ==> (#[trigger] head[j])@ != paths@[at as int]@,
        decreases at - i,
    {
        if str_same(paths[i].as_str(), paths[at].as_str()) {
            assert(head[i as int]@ == paths@[at as int]@);
            return true;
        }
        i = i + 1;
    }
    false
}

/// How many different paths a list names.
fn count_distinct(paths: &Vec<String>) -> (r: usize)
    ensures
        r == distinct(paths@),
{
    let mut n: usize = 0;
    let mut i: usize = 0;
    while i < paths.len()
        invariant
            i <= paths@.len(),
            n <= i,
            n == distinct(paths@.take(i as int)),
        decreases paths@.len() - i,
    {
        assert(paths@.take(i + 1).drop_last() =~= paths@.take(i as int));
        if !named_before(paths, i) {
            n = n + 1;
        }
        i = i + 1;
    }
    assert(paths@.take(i as int) =~= paths@);
    n
}

/// The fault of the compaction, where it has one.
fn check_compaction(cat: &CatalogState, c: &(TableRef, Vec<String>, Vec<DataFile>)) -> (r: Option<
    ControlPlaneError,
>)
    requires
        cat.wf(),
    ensures
        r is Some <==> compaction_fault(cat@, *c) is Some,
        r matches Some(e) ==> Some(e@) == compaction_fault(cat@, *c),
{
    let live: usize = match cat.files.get(&c.0) {
        Some(rows) => count_open_named(rows, &c.1),
        None => 0,
    };
    let named: usize = count_distinct(&c.1);
    if live == named {
        return None;
    }
    let mut m: String = concat("compact_files: ", usize_text(live).as_str());
    m.append(" of ");
    m.append(usize_text(named).as_str());
    m.append(" expire targets live for ");
    m.append(c.0.schema.as_str());
    m.append(".");
    m.append(c.0.name.as_str());
    Some(ControlPlaneError::Conflict(m))
}

/// The first fault of the staged compactions, where there is one.
fn check_compactions(
    cat: &CatalogState,
    staged: &Vec<(TableRef, Vec<String>, Vec<DataFile>)>,
) -> (r: Option<ControlPlaneError>)
    requires
        cat.wf(),
    ensures
        r is Some <==> first_compaction_fault(cat@, staged@) is Some,
        r matches Some(e) ==> Some(e@) == first_compaction_fault(cat@, staged@),
{
    let mut i: usize = 0;
    while i < staged.len()
        invariant
            cat.wf(),
            i <= staged@.len(),
            first_compaction_fault(cat@, staged@.take(i as int)) is None,
        decreases staged@.len() - i,
    {
        assert(staged@.take(i + 1).drop_last() =~= staged@.take(i as int));
        match check_compaction(cat, &staged[i]) {
            Some(e) => {
                proof {
                    lemma_first_fault_stays(cat@, staged@, i + 1);
                }
                return Some(e);
            },
            None => {},
        }
        i = i + 1;
    }
    assert(staged@.take(i as int) =~= staged@);
    None
}

/// A fault among the first `k` compactions is the fault of them all.
proof fn lemma_first_fault_stays(
    v: CatalogView,
    staged: Seq<(TableRef, Vec<String>, Vec<DataFile>)>,
    k: int,
)
    requires
        0 <= k <= staged.len(),
        first_compaction_fault(v, staged.take(k)) is Some,
    ensures
        first_compaction_fault(v, staged) == first_compaction_fault(v, staged.take(k)),
    decreases staged.len() - k,
{
    if k == staged.len() {
        assert(staged.take(k) =~= staged);
    } else {
        assert(staged.take(k + 1).drop_last() =~= staged.take(k));
        lemma_first_fault_stays(v, staged, k + 1);
    }
}

/// Creates the staged tables.
fn apply_tables(cat: &mut CatalogState, staged: &Vec<(TableRef, Vec<ColumnSpec>)>, now: i128)
    requires
        old(cat).wf(),
        old(cat).next_snapshot + staged@.len() <= i64::MAX,
        forall|i: int| 0 <= i < staged@.len() ==> (#[trigger] staged@[i]).1@.len() <= i64::MAX,
    ensures
        final(cat).wf(),
        final(cat)@ == tables_created(old(cat)@, staged@, now),
{
    let ghost start = cat@;
    let mut i: usize = 0;
    while i < staged.len()
        invariant
            cat.wf(),
            i <= staged@.len(),
            start.next() + staged@.len() <= i64::MAX,
            forall|j: int| 0 <= j < staged@.len() ==> (#[trigger] staged@[j]).1@.len() <= i64::MAX,
            cat@ == tables_created(start, staged@.take(i as int), now),
        decreases staged@.len() - i,
    {
        assert(staged@.take(i + 1).drop_last() =~= staged@.take(i as int));
        proof {
            lemma_tables_created_next(start, staged@.take(i as int), now);
        }
        if !cat.is_live_table(&staged[i].0) {
            let _s: i64 = cat.create(&staged[i].0, &staged[i].1, now);
        }
        i = i + 1;
    }
    assert(staged@.take(i as int) =~= staged@);
}

/// Applies the staged writes, in staging order.
fn apply_writes(cat: &mut CatalogState, staged: &Vec<StagedWrite>, now: i128)
    requires
        old(cat).wf(),
        old(cat).next_snapshot + staged@.len() <= i64::MAX,
    ensures
        final(cat).wf(),
        final(cat)@ == writes_applied(old(cat)@, staged@, now),
{
    let ghost start = cat@;
    let mut i: usize = 0;
    while i < staged.len()
        invariant
            cat.wf(),
            i <= staged@.len(),
            start.next() + staged@.len() <= i64::MAX,
            cat@ == writes_applied(start, staged@.take(i as int), now),
        decreases staged@.len() - i,
    {
        assert(staged@.take(i + 1).drop_last() =~= staged@.take(i as int));
        proof {
            lemma_writes_applied_next(start, staged@.take(i as int), now);
        }
        match &staged[i] {
            StagedWrite::Append(t, files) => {
                let _s: i64 = cat.append(t, files, now);
            },
            StagedWrite::Replace(t, files) => {
                let _s: i64 = cat.replace(t, files, now);
            },
        }
        i = i + 1;
    }
    assert(staged@.take(i as int) =~= staged@);
}

/// Applies the staged compactions.
fn apply_compactions(
    cat: &mut CatalogState,
    staged: &Vec<(TableRef, Vec<String>, Vec<DataFile>)>,
    now: i128,
)
    requires
        old(cat).wf(),
        old(cat).next_snapshot + staged@.len() <= i64::MAX,
    ensures
        final(cat).wf(),
        final(cat)@ == compactions_applied(old(cat)@, staged@, now),
{
    let ghost start = cat@;
    let mut i: usize = 0;
    while i < staged.len()
        invariant
            cat.wf(),
            i <= staged@.len(),
            start.next() + staged@.len() <= i64::MAX,
            cat@ == compactions_applied(start, staged@.take(i as int), now),
        decreases staged@.len() - i,
    {
        assert(staged@.take(i + 1).drop_last() =~= staged@.take(i as int));
        proof {
            lemma_compactions_applied_next(start, staged@.take(i as int), now);
        }
        let c: &(TableRef, Vec<String>, Vec<DataFile>) = &staged[i];
        let _s: i64 = cat.compact(&c.0, &c.1, &c.2, now);
        i = i + 1;
    }
    assert(staged@.take(i as int) =~= staged@);
}

/// Puts the staged jobs in the queue.
fn apply_jobs(rows: &mut Vec<Row>, staged: &Vec<(u128, NewJob)>, now: i128)
    ensures
        final(rows)@ == old(rows)@ + staged_rows(staged@, now),
{
    let ghost start = rows@;
    let mut i: usize = 0;
    while i < staged.len()
        invariant
            i <= staged@.len(),
            rows@ == start + staged_rows(staged@, now).take(i as int),
        decreases staged@.len() - i,
    {
        let job: &NewJob = &staged[i].1;
        insert_with_id(rows, staged[i].0, job.duplicate(), now);
        assert(rows@ =~= start + staged_rows(staged@, now).take(i + 1));
        i = i + 1;
    }
    assert(staged_rows(staged@, now).take(i as int) =~= staged_rows(staged@, now));
}

/// Where the trigger of the transform `name` stands.
fn find_trigger(triggers: &Vec<Trigger>, name: &str) -> (r: Option<usize>)
    ensures
        r is Some <==> trigger_for(triggers@, name@) is Some,
        r matches Some(i) ==> i < triggers@.len() && trigger_for(triggers@, name@) == Some(
            triggers@[i as int],
        ),
{
    assert(triggers@.skip(0) =~= triggers@);
    let mut i: usize = 0;
    while i < triggers.len()
        invariant
            i <= triggers@.len(),
            trigger_for(triggers@, name@) == trigger_for(triggers@.skip(i as int), name@),
        decreases triggers@.len() - i,
    {
        if str_same(triggers[i].name.as_str(), name) {
            return Some(i);
        }
        assert(triggers@.skip(i as int).skip(1) =~= triggers@.skip(i + 1));
        i = i + 1;
    }
    None
}

/// Whether some staged write is for one of `inputs`.
fn inputs_touched(inputs: &Vec<TableRef>, writes: &Vec<StagedWrite>) -> (r: bool)
    ensures
        r == touches(inputs@, writes@),
{
    let mut i: usize = 0;
    while i < inputs.len()
        invariant
            i <= inputs@.len(),
            forall|a: int, b: int|
                0 <= a < i && 0 <= b < writes@.len() ==> (#[trigger] inputs@[a])@ != write_target(
                    #[trigger] writes@[b],
                ),
        decreases inputs@.len() - i,
    {
        let mut j: usize = 0;
        while j < writes.len()
            invariant
                i < inputs@.len(),
                j <= writes@.len(),
                forall|b: int|
                    0 <= b < j ==> inputs@[i as int]@ != write_target(#[trigger] writes@[b]),
            decreases writes@.len() - j,
        {
            let hit: bool = match &writes[j] {
                StagedWrite::Append(t, _) => t.same(&inputs[i]),
                StagedWrite::Replace(t, _) => t.same(&inputs[i]),
            };
            if hit {
                assert(inputs@[i as int]@ == write_target(writes@[j as int]));
                return true;
            }
            j = j + 1;
        }
        i = i + 1;
    }
    false
}

/// Whether a run of the transform `name` is waiting to start.
fn is_run_waiting(runs: &OrderedMap<u128, TransformRun>, name: &str) -> (r: bool)
    requires
        runs.wf(),
    ensures
        r == run_waiting(runs@, name@),
{
    let mut i: usize = 0;
    while i < runs.entries.len()
        invariant
            runs.wf(),
            i <= runs.entries@.len(),
            forall|j: int|
                0 <= j < i ==> !((#[trigger] runs.entries@[j]).1.state == RunState::Queued && (
                runs.entries@[j].1.transform matches Some(t) && t@ == name@)),
        decreases runs.entries@.len() - i,
    {
        let run: &TransformRun = &runs.entries[i].1;
        let named: bool = match &run.transform {
            Some(t) => str_same(t.as_str(), name),
            None => false,
        };
        if named && run.state == RunState::Queued {
            proof {
                lemma_entry(runs.entries@, i as int);
                assert(runs@.dom().contains(runs.entries@[i as int].0.model()));
            }
            return true;
        }
        i = i + 1;
    }
    proof {
        if run_waiting(runs@, name@) {
            let id = choose|id: int| #[trigger]
                runs@.dom().contains(id) && runs@[id].state == RunState::Queued && (
                runs@[id].transform matches Some(t) && t@ == name@);
            lemma_position(runs.entries@, id);
        }
    }
    false
}

/// Starts the data-triggered transforms whose inputs were written.
fn fire_triggers(
    rows: &mut Vec<Row>,
    runs: &mut OrderedMap<u128, TransformRun>,
    defs: &OrderedMap<String, TransformDef>,
    triggers: &Vec<Trigger>,
    writes: &Vec<StagedWrite>,
    own: &Option<String>,
    now: i128,
) -> (r: bool)
    requires
        old(runs).wf(),
        runs_numbered(old(runs)@),
        defs.wf(),
    ensures
        final(runs).wf(),
        runs_numbered(final(runs)@),
        (Firing { rows: final(rows)@, runs: final(runs)@, fired: r }) == fired(
            Firing { rows: old(rows)@, runs: old(runs)@, fired: false },
            defs.entries@,
            triggers@,
            writes@,
            *own,
            now,
        ),
{
    let ghost start = Firing { rows: rows@, runs: runs@, fired: false };
    let mut any: bool = false;
    let mut i: usize = 0;
    while i < defs.entries.len()
        invariant
            runs.wf(),
            runs_numbered(runs@),
            i <= defs.entries@.len(),
            (Firing { rows: rows@, runs: runs@, fired: any }) == fired(
                start,
                defs.entries@.take(i as int),
                triggers@,
                writes@,
                *own,
                now,
            ),
        decreases defs.entries@.len() - i,
    {
        let ghost g = Firing { rows: rows@, runs: runs@, fired: any };
        assert(defs.entries@.take(i + 1).drop_last() =~= defs.entries@.take(i as int));
        assert(defs.entries@.take(i + 1).last() == defs.entries@[i as int]);
        let def: &(String, TransformDef) = &defs.entries[i];
        let skipped: bool = match own {
            Some(o) => str_same(o.as_str(), def.0.as_str()),
            None => false,
        };
        if def.1.on_input_commit && !skipped {
            match find_trigger(triggers, def.0.as_str()) {
                Some(k) => {
                    let t: &Trigger = &triggers[k];
                    if inputs_touched(&t.inputs, writes) && !is_run_waiting(
                        runs,
                        def.0.as_str(),
                    ) {
                        assert(fires(g, *def, triggers@, writes@, *own));
                        insert_with_id(
                            rows,
                            t.job_id,
                            t.job.duplicate(),
                            now,
                        );
                        runs.insert(
                            t.run_id,
                            TransformRun {
                                run_id: t.run_id,
                                transform: Some(def.0.clone()),
                                trigger: RunTrigger::DataTrigger,
                                state: RunState::Queued,
                                body: body_text_of(&def.1.body),
                                queued_at: now,
                                started_at: None,
                                finished_at: None,
                                snapshot_id: None,
                                error: None,
                            },
                        );
                        any = true;
                    }
                },
                None => {},
            }
        }
        i = i + 1;
    }
    assert(defs.entries@.take(i as int) =~= defs.entries@);
    any
}

/// The number of snapshots that a commit makes at most fits the numbering, and
/// so do the places of the columns of the tables that it creates.
pub open spec fn commit_fits(cp: ControlPlaneView, tx: MemoryTx) -> bool {
    &&& cp.catalog.next() + tx.staged_tables@.len() + tx.staged_writes@.len()
        + tx.staged_compactions@.len() <= i64::MAX
    &&& forall|i: int|
        0 <= i < tx.staged_tables@.len() ==> (#[trigger] tx.staged_tables@[i]).1@.len() <= i64::MAX
}

/// What a commit at `now` does and reports.
pub open spec fn commit_result(
    pre: MemoryControlPlane,
    post: MemoryControlPlane,
    tx: MemoryTx,
    triggers: Seq<Trigger>,
    now: i128,
    r: Result<Committed, ControlPlaneError>,
) -> bool {
    let defs = pre.transforms.defs.entries@;
    match commit_refusal(pre@, tx) {
        Some(f) => r is Err && r->Err_0@ == f && post == pre,
        None => {
            let made = last_made(pre@.catalog, catalog_after(pre@.catalog, tx, now));
            if tx.staged_run_success is Some && made is None {
                &&& r is Err
                &&& r->Err_0@ == Fault::Validation(
                    "mark_run_succeeded staged without a snapshot-producing write"@,
                )
                &&& post@ == (ControlPlaneView {
                    rows: pre@.rows + staged_rows(tx.staged@, now),
                    events: pre@.events + tx.staged_events@,
                    ..pre@
                })
            } else {
                &&& r is Ok
                &&& (r->Ok_0).snapshot == made
                &&& (r->Ok_0).wake == (tx.staged@.len() > 0 || firing_after(
                    pre@,
                    defs,
                    tx,
                    triggers,
                    now,
                ).fired)
                &&& post@ == committed(pre@, defs, tx, triggers, now)
            }
        },
    }
}

impl MemoryTx {
    /// A transaction that stages nothing.
    pub fn new() -> (r: Self)
        ensures
            r.staged@.len() == 0,
            r.staged_events@.len() == 0,
            r.staged_tables@.len() == 0,
            r.staged_writes@.len() == 0,
            r.staged_compactions@.len() == 0,
            r.staged_run_success is None,
    {
        MemoryTx {
            staged: Vec::new(),
            staged_events: Vec::new(),
            staged_tables: Vec::new(),
            staged_writes: Vec::new(),
            staged_compactions: Vec::new(),
            staged_run_success: None,
        }
    }

    /// Stages a job under the number `id`.
    pub fn enqueue_as(&mut self, job: NewJob, id: u128)
        ensures
            final(self).staged@ == old(self).staged@.push((id, job)),
            *final(self) == (MemoryTx { staged: final(self).staged, ..*old(self) }),
    {
        self.staged.push((id, job));
    }

    /// Stages a job under a fresh number, which it gives.
    pub fn enqueue(&mut self, job: NewJob) -> (r: u128)
        ensures
            ambient::is_random_uuid(r),
            final(self).staged@ == old(self).staged@.push((r, job)),
            *final(self) == (MemoryTx { staged: final(self).staged, ..*old(self) }),
    {
        let id: u128 = ambient::fresh_id();
        self.enqueue_as(job, id);
        id
    }

    /// Stages a lineage event.
    pub fn emit(&mut self, event: LineageEvent)
        ensures
            final(self).staged_events@ == old(self).staged_events@.push(event),
            *final(self) == (MemoryTx { staged_events: final(self).staged_events, ..*old(self) }),
    {
        self.staged_events.push(event);
    }

    /// Stages the creation of a table.
    pub fn create_table(&mut self, table: TableRef, columns: Vec<ColumnSpec>)
        ensures
            final(self).staged_tables@ == old(self).staged_tables@.push((table, columns)),
            *final(self) == (MemoryTx { staged_tables: final(self).staged_tables, ..*old(self) }),
    {
        self.staged_tables.push((table, columns));
    }

    /// Stages files to add to a table.
    pub fn append_files(&mut self, table: TableRef, files: Vec<DataFile>)
        ensures
            final(self).staged_writes@ == old(self).staged_writes@.push(
                StagedWrite::Append(table, files),
            ),
            *final(self) == (MemoryTx { staged_writes: final(self).staged_writes, ..*old(self) }),
    {
        self.staged_writes.push(StagedWrite::Append(table, files));
    }

    /// Stages files to put in the place of a table's files.
    pub fn replace_files(&mut self, table: TableRef, files: Vec<DataFile>)
        ensures
            final(self).staged_writes@ == old(self).staged_writes@.push(
                StagedWrite::Replace(table, files),
            ),
            *final(self) == (MemoryTx { staged_writes: final(self).staged_writes, ..*old(self) }),
    {
        self.staged_writes.push(StagedWrite::Replace(table, files));
    }

    /// Stages a compaction: `write` in the place of the files that `expire` names.
    pub fn compact_files(&mut self, table: TableRef, expire: Vec<String>, write: Vec<DataFile>)
        ensures
            final(self).staged_compactions@ == old(self).staged_compactions@.push(
                (table, expire, write),
            ),
            *final(self) == (MemoryTx {
                staged_compactions: final(self).staged_compactions,
                ..*old(self)
            }),
    {
        self.staged_compactions.push((table, expire, write));
    }

    /// Stages the mark that a run succeeded. One mark can be staged.
    pub fn mark_run_succeeded(&mut self, run_id: u128) -> (r: Result<(), ControlPlaneError>)
        ensures
            outcome(r) == (if old(self).staged_run_success is Some {
                Err::<(), Fault>(
                    Fault::Validation("a run success mark is already staged on this transaction"@),
                )
            } else {
                Ok(())
            }),
            r is Err ==> *final(self) == *old(self),
            r is Ok ==> *final(self) == (MemoryTx {
                staged_run_success: Some(run_id),
                ..*old(self)
            }),
    {
        if self.staged_run_success.is_some() {
            return Err(
                ControlPlaneError::Validation(
                    "a run success mark is already staged on this transaction".to_owned(),
                ),
            );
        }
        self.staged_run_success = Some(run_id);
        Ok(())
    }

    /// Forgets everything staged. The control plane is as it was.
    pub fn rollback(self, cp: &mut MemoryControlPlane)
        ensures
            *final(cp) == *old(cp),
    {
    }

    /// Applies everything staged, at the present instant.
    pub fn commit(self, cp: &mut MemoryControlPlane, triggers: &Vec<Trigger>) -> (r: Result<
        Committed,
        ControlPlaneError,
    >)
        requires
            old(cp).wf(),
            commit_fits(old(cp)@, self),
        ensures
            final(cp).wf(),
            exists|now: i128|
                ambient::in_calendar(now as int) && #[trigger] commit_result(
                    *old(cp),
                    *final(cp),
                    self,
                    triggers@,
                    now,
                    r,
                ),
    {
        let now: i128 = ambient::now();
        self.commit_at(cp, triggers, now)
    }

    /// Applies everything staged, at `now`.
    ///
    /// A refused commit leaves the control plane as it was. One refusal comes
    /// late: a success mark beside table creations that all turn out to be of
    /// tables that are live already. By then the staged jobs and events are in.
    pub fn commit_at(
        self,
        cp: &mut MemoryControlPlane,
        triggers: &Vec<Trigger>,
        now: i128,
    ) -> (r: Result<Committed, ControlPlaneError>)
        requires
            old(cp).wf(),
            commit_fits(old(cp)@, self),
        ensures
            final(cp).wf(),
            commit_result(*old(cp), *final(cp), self, triggers@, now, r),
    {
        if self.staged_run_success.is_some() && self.staged_tables.len() == 0
            && self.staged_writes.len() == 0 && self.staged_compactions.len() == 0 {
            return Err(
                ControlPlaneError::Validation(
                    "mark_run_succeeded staged without a snapshot-producing write".to_owned(),
                ),
            );
        }
        match self.staged_run_success {
            Some(rid) => {
                if !cp.transforms.runs.contains(&rid) {
                    return Err(
                        ControlPlaneError::NotFound(
                            concat("run ", ambient::uuid_text(rid).as_str()),
                        ),
                    );
                }
            },
            None => {},
        }
        match check_compactions(&cp.catalog, &self.staged_compactions) {
            Some(e) => {
                return Err(e);
            },
            None => {},
        }
        let ghost before = cp@;
        let staged_any: bool = self.staged.len() > 0;
        let first: i64 = cp.catalog.next_snapshot;
        apply_jobs(&mut cp.rows, &self.staged, now);
        let mut staged_events: Vec<LineageEvent> = self.staged_events;
        cp.events.append(&mut staged_events);
        proof {
            lemma_tables_created_next(before.catalog, self.staged_tables@, now);
            let a = tables_created(before.catalog, self.staged_tables@, now);
            lemma_writes_applied_next(a, self.staged_writes@, now);
            let b = writes_applied(a, self.staged_writes@, now);
            lemma_compactions_applied_next(b, self.staged_compactions@, now);
        }
        apply_tables(&mut cp.catalog, &self.staged_tables, now);
        apply_writes(&mut cp.catalog, &self.staged_writes, now);
        apply_compactions(&mut cp.catalog, &self.staged_compactions, now);
        let next: i64 = cp.catalog.next_snapshot;
        let made: Option<SnapshotId> = if next > first {
            Some(SnapshotId(next - 1))
        } else {
            None
        };
        let mut own: Option<String> = None;
        match self.staged_run_success {
            Some(rid) => {
                match made {
                    Some(s) => {
                        let ghost runs = cp.transforms.runs@;
                        match cp.transforms.runs.remove(&rid) {
                            Some(mut run) => {
                                apply_outcome(
                                    &mut run,
                                    RunOutcome::Succeeded { snapshot_id: s.0 },
                                    now,
                                );
                                own = match &run.transform {
                                    Some(t) => Some(t.clone()),
                                    None => None,
                                };
                                cp.transforms.runs.insert(rid, run);
                                assert(cp.transforms.runs@ =~= runs_marked(
                                    runs,
                                    Some(rid),
                                    made,
                                    now,
                                ));
                            },
                            None => {},
                        }
                    },
                    None => {
                        proof {
                            lemma_nothing_made(before.catalog, self.staged_tables@, now);
                            assert(cp@ =~= ControlPlaneView {
                                rows: before.rows + staged_rows(self.staged@, now),
                                events: before.events + self.staged_events@,
                                ..before
                            });
                        }
                        return Err(
                            ControlPlaneError::Validation(
                                "mark_run_succeeded staged without a snapshot-producing write".to_owned(),
                            ),
                        );
                    },
                }
            },
            None => {},
        }
        assert(own == own_transform(cp.transforms.runs@, self.staged_run_success));
        let fired: bool = fire_triggers(
            &mut cp.rows,
            &mut cp.transforms.runs,
            &cp.transforms.defs,
            triggers,
            &self.staged_writes,
            &own,
            now,
        );
        assert(cp@ =~= committed(before, old(cp).transforms.defs.entries@, self, triggers@, now));
        Ok(Committed { snapshot: made, wake: staged_any || fired })
    }
}

/// Creating tables that makes no snapshot changes nothing.
proof fn lemma_nothing_made(v: CatalogView, staged: Seq<(TableRef, Vec<ColumnSpec>)>, now: i128)
    requires
        tables_created(v, staged, now).next() == v.next(),
    ensures
        tables_created(v, staged, now) == v,
    decreases staged.len(),
{
    if staged.len() > 0 {
        lemma_tables_created_next(v, staged.drop_last(), now);
        lemma_nothing_made(v, staged.drop_last(), now);
    }
}

/// Some row with the path `p` is open.
pub open spec fn is_open(rows: Seq<Versioned<FileRef>>, p: Seq<char>) -> bool {
    exists|i: int| 0 <= i < rows.len() && (#[trigger] rows[i]).end is None && rows[i].val.path@ == p
}

/// No two open rows have the same path.
pub open spec fn open_paths_differ(rows: Seq<Versioned<FileRef>>) -> bool {
    forall|i: int, j: int|
        #![trigger rows[i], rows[j]]
        0 <= i < j < rows.len() && rows[i].end is None && rows[j].end is None
            ==> rows[i].val.path@ != rows[j].val.path@
}

/// A compaction is refused if and only if it names the path of a file that is not
/// open, however often it names each path. This holds of a table no two open files of
/// which share a path.
pub proof fn law_compaction_refused_iff_target_gone(
    v: CatalogView,
    c: (TableRef, Vec<String>, Vec<DataFile>),
)
    requires
        open_paths_differ(crate::catalog::rows_of(v.files, c.0@)),
    ensures
        compaction_fault(v, c) is Some <==> exists|i: int|
            0 <= i < c.1@.len() && !is_open(
                crate::catalog::rows_of(v.files, c.0@),
                (#[trigger] c.1@[i])@,
            ),
        compaction_fault(v, c) matches Some(f) ==> f is Conflict,
{
    let rows = crate::catalog::rows_of(v.files, c.0@);
    let expire = c.1@;
    let named = named_set(expire);
    let found = open_set(rows, expire);
    lemma_named_set(expire);
    lemma_open_set(rows, expire);
    assert(found.subset_of(named));
    if found.len() == named.len() {
        vstd::set_lib::lemma_subset_equality(found, named);
        assert forall|i: int| 0 <= i < expire.len() implies is_open(rows, (#[trigger] expire[i])@) by {
            assert(holds(expire, expire[i]@));
            assert(found.contains(expire[i]@));
        }
    } else if forall|i: int| 0 <= i < expire.len() ==> is_open(rows, (#[trigger] expire[i])@) {
        assert(found =~= named) by {
            assert forall|p: Seq<char>| named.contains(p) implies found.contains(p) by {
                let i = choose|i: int| 0 <= i < expire.len() && (#[trigger] expire[i])@ == p;
                assert(is_open(rows, expire[i]@));
            }
        }
    }
}

/// The different paths that a list names.
spec fn named_set(paths: Seq<String>) -> Set<Seq<char>>
    decreases paths.len(),
{
    if paths.len() == 0 {
        Set::empty()
    } else {
        named_set(paths.drop_last()).insert(paths.last()@)
    }
}

proof fn lemma_named_set(paths: Seq<String>)
    ensures
        named_set(paths).finite(),
        named_set(paths).len() == distinct(paths),
        forall|p: Seq<char>| #[trigger] named_set(paths).contains(p) <==> holds(paths, p),
    decreases paths.len(),
{
    if paths.len() > 0 {
        let before = paths.drop_last();
        lemma_named_set(before);
        assert forall|p: Seq<char>| #[trigger] named_set(paths).contains(p) <==> holds(paths, p) by {
            if holds(before, p) {
                let i = choose|i: int| 0 <= i < before.len() && (#[trigger] before[i])@ == p;
                assert(paths[i]@ == p);
            }
            if holds(paths, p) && p != paths.last()@ {
                let i = choose|i: int| 0 <= i < paths.len() && (#[trigger] paths[i])@ == p;
                assert(before[i]@ == p);
            }
            assert(paths[paths.len() - 1]@ == paths.last()@);
        }
    }
}

/// The paths of the open rows that a list names.
spec fn open_set(rows: Seq<Versioned<FileRef>>, expire: Seq<String>) -> Set<Seq<char>>
    decreases rows.len(),
{
    if rows.len() == 0 {
        Set::empty()
    } else if rows.last().end is None && holds(expire, rows.last().val.path@) {
        open_set(rows.drop_last(), expire).insert(rows.last().val.path@)
    } else {
        open_set(rows.drop_last(), expire)
    }
}

proof fn lemma_open_set(rows: Seq<Versioned<FileRef>>, expire: Seq<String>)
    requires
        open_paths_differ(rows),
    ensures
        open_set(rows, expire).finite(),
        open_set(rows, expire).len() == open_named(rows, expire),
        forall|p: Seq<char>| #[trigger]
            open_set(rows, expire).contains(p) <==> is_open(rows, p) && holds(expire, p),
    decreases rows.len(),
{
    if rows.len() > 0 {
        let before = rows.drop_last();
        let last = rows.len() - 1;
        assert(open_paths_differ(before)) by {
            assert forall|i: int, j: int|
                #![trigger before[i], before[j]]
                0 <= i < j < before.len() && before[i].end is None && before[j].end is None implies
            before[i].val.path@ != before[j].val.path@ by {
                assert(rows[i] == before[i] && rows[j] == before[j]);
            }
        }
        lemma_open_set(before, expire);
        assert forall|p: Seq<char>| #[trigger] open_set(rows, expire).contains(p) <==> is_open(
            rows,
            p,
        ) && holds(expire, p) by {
            if is_open(before, p) {
                let i = choose|i: int|
                    0 <= i < before.len() && (#[trigger] before[i]).end is None
                        && before[i].val.path@ == p;
                assert(rows[i] == before[i]);
            }
            if is_open(rows, p) && !(rows[last].end is None && rows[last].val.path@ == p) {
                let i = choose|i: int|
                    0 <= i < rows.len() && (#[trigger] rows[i]).end is None && rows[i].val.path@ == p;
                assert(before[i] == rows[i]);
            }
            assert(rows[last] == rows.last());
        }
        if rows.last().end is None && is_open(before, rows.last().val.path@) {
            let p = rows.last().val.path@;
            let i = choose|i: int|
                0 <= i < before.len() && (#[trigger] before[i]).end is None && before[i].val.path@
                    == p;
            assert(rows[i] == before[i] && rows[last].end is None);
        }
    }
}

/// A commit that is refused for what it stages leaves the control plane as it was.
pub proof fn law_refused_commit_changes_nothing(
    pre: MemoryControlPlane,
    post: MemoryControlPlane,
    tx: MemoryTx,
    triggers: Seq<Trigger>,
    now: i128,
    r: Result<Committed, ControlPlaneError>,
)
    requires
        commit_refusal(pre@, tx) is Some,
        commit_result(pre, post, tx, triggers, now, r),
    ensures
        r is Err,
        post == pre,
{
}

/// A commit that writes no new data starts no transform, whatever it creates or
/// compacts.
pub proof fn law_only_writes_fire(
    f: Firing,
    defs: Seq<(String, TransformDef)>,
    triggers: Seq<Trigger>,
    own: Option<String>,
    now: i128,
)
    ensures
        fired(f, defs, triggers, Seq::empty(), own, now) == f,
    decreases defs.len(),
{
    if defs.len() > 0 {
        law_only_writes_fire(f, defs.drop_last(), triggers, own, now);
    }
}

/// A transform that writes what it reads does not start itself for ever: the run that
/// commits starts no other run of its own transform.
pub proof fn law_own_transform_does_not_fire(
    f: Firing,
    def: (String, TransformDef),
    triggers: Seq<Trigger>,
    writes: Seq<StagedWrite>,
    own: String,
)
    requires
        own@ == def.0@,
    ensures
        !fires(f, def, triggers, writes, Some(own)),
{
}

/// Commits that follow each other quickly start one run: a transform with a run that
/// waits is not started again.
pub proof fn law_waiting_run_stands_for_the_next(
    f: Firing,
    def: (String, TransformDef),
    triggers: Seq<Trigger>,
    writes: Seq<StagedWrite>,
    own: Option<String>,
    id: int,
    name: String,
)
    requires
        f.runs.dom().contains(id),
        f.runs[id].state == RunState::Queued,
        f.runs[id].transform == Some(name),
        name@ == def.0@,
    ensures
        !fires(f, def, triggers, writes, own),
{
    assert(run_waiting(f.runs, def.0@));
}

} // verus!
