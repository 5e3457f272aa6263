//! Moving the live inline rows of a table into files, and retiring them at the same
//! snapshot, decided step by step.
use crate::ambient;
use crate::commit_mirror::{CommitExtras, InlineEndCap};
use crate::error::{ControlPlaneError, Fault};
use crate::iceberg_writer::{
    backoff_millis, commit_append_with_retry, AttemptOutcome, RetryStep, COMMIT_MAX_RETRIES,
};
use crate::key::{str_same, Key};
use crate::mv_floor::EndCapIntent;
use crate::names::{missing_field, no_field};
use crate::text::concat;
use crate::types::{ColumnDef, ColumnSpec, DatasetRef, EventType, LineageEvent, NewJob, TableRef};
use vstd::prelude::*;

verus! {

/// The kinds of the rows that were read, as their column holds them.
pub enum KindColumn {
    /// There is no such column among these.
    Missing { names: Vec<String> },
    /// It holds no texts.
    NotText,
    /// The kind of each row; empty where it is missing.
    Texts { kinds: Vec<String> },
}

/// Which rows the base of a stream of changes keeps: all but the images of rows
/// before they were changed.
pub open spec fn keeps(kinds: Seq<String>) -> Seq<bool> {
    Seq::new(kinds.len(), |i: int| kinds[i]@ != "-U"@)
}

/// Why the rows of a stream of changes cannot be told apart, where they cannot.
pub open spec fn kind_fault(c: KindColumn) -> Option<Fault> {
    match c {
        KindColumn::Missing { names } => Some(
            Fault::Backend(
                "cdc flush: batch has no loom_change_kind column: "@ + no_field(
                    "loom_change_kind"@,
                    names@,
                ),
            ),
        ),
        KindColumn::NotText => Some(
            Fault::Backend("cdc flush: loom_change_kind is not a string column"@),
        ),
        KindColumn::Texts { kinds } => None,
    }
}

/// Which rows the base of a stream of changes keeps.
pub fn filter_out_minus_u(column: &KindColumn) -> (r: Result<Vec<bool>, ControlPlaneError>)
    ensures
        match r {
            Ok(mask) => column matches KindColumn::Texts { kinds } && mask@ == keeps(kinds@),
            Err(e) => kind_fault(*column) == Some(e@),
        },
{
    match column {
        KindColumn::Missing { names } => Err(
            ControlPlaneError::Backend(
                concat(
                    "cdc flush: batch has no loom_change_kind column: ",
                    missing_field("loom_change_kind", names).as_str(),
                ),
            ),
        ),
        KindColumn::NotText => Err(
            ControlPlaneError::Backend(
                "cdc flush: loom_change_kind is not a string column".to_owned(),
            ),
        ),
        KindColumn::Texts { kinds } => {
            let mut mask: Vec<bool> = Vec::new();
            let mut i: usize = 0;
            while i < kinds.len()
                invariant
                    i <= kinds@.len(),
                    mask@ == keeps(kinds@).take(i as int),
                decreases kinds@.len() - i,
            {
                mask.push(!str_same(kinds[i].as_str(), "-U"));
                assert(mask@ =~= keeps(kinds@).take(i + 1));
                i = i + 1;
            }
            assert(keeps(kinds@).take(i as int) =~= keeps(kinds@));
            Ok(mask)
        },
    }
}

/// The lineage of a flush: the table is what it reads and what it writes.
pub open spec fn is_compaction_event(e: LineageEvent, dataset: DatasetRef, run_id: u128, now: i128) -> bool {
    &&& e.run_id == run_id
    &&& e.event_type == EventType::Complete
    &&& e.event_time == now
    &&& e.inputs@ == seq![dataset]
    &&& e.outputs@ == seq![dataset]
    &&& e.payload@ == "{\"source\":\"flush\"}"@
}

/// The lineage of a flush at `now`.
pub fn compaction_event_at(dataset: DatasetRef, run_id: u128, now: i128) -> (r: LineageEvent)
    ensures
        is_compaction_event(r, dataset, run_id, now),
{
    let mut inputs: Vec<DatasetRef> = Vec::new();
    inputs.push(dataset.duplicate());
    let mut outputs: Vec<DatasetRef> = Vec::new();
    outputs.push(dataset);
    assert(inputs@ =~= seq![dataset]);
    assert(outputs@ =~= seq![dataset]);
    LineageEvent {
        run_id,
        event_type: EventType::Complete,
        event_time: now,
        inputs,
        outputs,
        payload: "{\"source\":\"flush\"}".to_owned(),
    }
}

/// The lineage of a flush.
pub fn compaction_event(dataset: DatasetRef, run_id: u128) -> (r: LineageEvent)
    ensures
        exists|now: i128|
            ambient::in_calendar(now as int) && #[trigger] is_compaction_event(
                r,
                dataset,
                run_id,
                now,
            ),
{
    let now: i128 = ambient::now();
    let e: LineageEvent = compaction_event_at(dataset, run_id, now);
    assert(is_compaction_event(e, dataset, run_id, now));
    e
}

/// The columns of a table, as a caller declares them.
pub open spec fn declared(columns: Seq<ColumnDef>) -> Seq<ColumnSpec> {
    Seq::new(
        columns.len(),
        |i: int|
            ColumnSpec { name: columns[i].name, ty: columns[i].ty, nullable: columns[i].nullable },
    )
}

/// The columns of a table, as a caller declares them.
pub fn declared_columns(columns: &Vec<ColumnDef>) -> (r: Vec<ColumnSpec>)
    ensures
        r@ == declared(columns@),
{
    let mut out: Vec<ColumnSpec> = Vec::new();
    let mut i: usize = 0;
    while i < columns.len()
        invariant
            i <= columns@.len(),
            out@ == declared(columns@).take(i as int),
        decreases columns@.len() - i,
    {
        out.push(
            ColumnSpec {
                name: columns[i].name.clone(),
                ty: columns[i].ty.clone(),
                nullable: columns[i].nullable,
            },
        );
        assert(out@ =~= declared(columns@).take(i + 1));
        i = i + 1;
    }
    assert(declared(columns@).take(i as int) =~= declared(columns@));
    out
}

/// The inline rows that were read: the table's number, theirs, and their kinds.
pub struct ReadRows {
    pub tid: i64,
    pub row_ids: Vec<i64>,
    pub kinds: KindColumn,
}

/// What the commit of a flush carries along: its lineage, its rebuilding jobs, and the
/// end of the rows that it read. They stay readable in the file, so no reader holds
/// them back.
pub fn flush_extras(tid: i64, row_ids: Vec<i64>, lineage: LineageEvent, jobs: Vec<NewJob>) -> (r:
    CommitExtras)
    ensures
        r == (CommitExtras {
            lineage: Some(lineage),
            end_cap: Some(InlineEndCap { table_id: tid, row_ids }),
            overwrite: false,
            jobs,
            data_trigger_tables: r.data_trigger_tables,
            reuse_snapshot: None,
            intent: EndCapIntent::Reframing,
        }),
        r.data_trigger_tables@.len() == 0,
{
    CommitExtras {
        lineage: Some(lineage),
        end_cap: Some(InlineEndCap { table_id: tid, row_ids }),
        overwrite: false,
        jobs,
        data_trigger_tables: Vec::new(),
        reuse_snapshot: None,
        intent: EndCapIntent::Reframing,
    }
}

/// What the append to a changelog carries along: the lineage. The rows end with the
/// append to the table itself, and only there.
pub fn changelog_extras(lineage: LineageEvent) -> (r: CommitExtras)
    ensures
        r.lineage == Some(lineage),
        r.end_cap is None,
        !r.overwrite,
        r.jobs@.len() == 0,
        r.data_trigger_tables@.len() == 0,
        r.reuse_snapshot is None,
        r.intent is Removing,
{
    let mut extras: CommitExtras = CommitExtras::default();
    extras.lineage = Some(lineage);
    extras
}

/// What has been found out.
pub enum FlushEvent {
    /// The flush is to begin; the table is locked.
    Begin,
    /// The table's current snapshot, where it was ever written.
    SnapshotRead { current: Option<i64> },
    /// The table's number, where it is live, and whether it is a stream of changes.
    KindRead { tid: Option<i64>, is_cdc: bool },
    /// Whether the table is marked as having inline changes.
    ShadowRead { shadowed: bool },
    /// The live inline rows, where there are any.
    RowsRead { rows: Option<ReadRows> },
    /// Whether one of the rows is a change.
    RowsChecked { shadowed: bool },
    /// Nothing is to be flushed, and the trigger is put right.
    Stopped,
    /// The rows are in a file, at this snapshot.
    Appended { snapshot: i64 },
    /// How an attempt on both tables came out, and the error it reported, where it
    /// did; where it went through, the snapshot it is now.
    Attempted { outcome: AttemptOutcome, snapshot: i64, error: ControlPlaneError },
    /// The wait is over and the tables are loaded again.
    Waited,
    /// The trigger is disarmed.
    Disarmed,
    /// The last action failed.
    Failed { error: ControlPlaneError },
}

/// What is to be done.
pub enum FlushAction {
    /// Read the table's current snapshot.
    ReadSnapshot,
    /// Look for the table, and read what is recorded of it as a stream.
    ReadKind,
    /// Read whether the table is marked as having inline changes.
    ReadShadow { tid: i64 },
    /// Read the live inline rows at this snapshot, with the images of rows before
    /// they were changed or without them.
    ReadRows { at: i64, with_images: bool },
    /// Ask whether one of the rows that were read is a change.
    CheckRows { tid: i64 },
    /// Disarm the trigger of the table, where it is live: there is nothing to flush.
    StopEmpty,
    /// Disarm the trigger of the table, which has inline changes; where `restore`
    /// says so, mark it as having them.
    StopShadowed { tid: i64, restore: bool },
    /// Append the rows as a file, retire those of these numbers, and queue the
    /// rebuilding of the vector indexes, in one commit.
    Append { tid: i64, row_ids: Vec<i64> },
    /// In one transaction append the rows that `keep` says to the table, retiring
    /// those of these numbers, and all of them to its changelog.
    AppendBoth { tid: i64, row_ids: Vec<i64>, keep: Vec<bool> },
    /// Try both tables again.
    AppendAgain,
    /// Roll back, wait so many milliseconds, and load the tables again.
    Wait { millis: u64 },
    /// Disarm the trigger of the table.
    Disarm { tid: i64 },
    /// The flush is over: at this snapshot, or with nothing to do.
    Finish { snapshot: Option<i64> },
    /// Report.
    Fail { error: ControlPlaneError },
}

/// How far the flush has come.
pub enum FlushState {
    Start,
    Reading,
    Kind { at: i64 },
    Shadow { at: i64, tid: i64 },
    Rows { is_cdc: bool },
    Checking { tid: i64, row_ids: Vec<i64> },
    Stopping,
    Appending { tid: i64 },
    Trying { tid: i64, attempt: u32 },
    Waiting { tid: i64, attempt: u32 },
    Disarming { snapshot: i64 },
    Done,
}

pub open spec fn fails(action: FlushAction, e: Fault) -> bool {
    action matches FlushAction::Fail { error } && error@ == e
}

/// The refusal of an event that does not belong here.
pub open spec fn out_of_turn(next: FlushState, action: FlushAction) -> bool {
    fails(action, Fault::Backend("flush: event out of turn"@)) && next is Done
}

/// What follows an attempt on both tables.
pub open spec fn after_attempt(
    table: TableRef,
    tid: i64,
    attempt: u32,
    outcome: AttemptOutcome,
    snapshot: i64,
    error: ControlPlaneError,
    next: FlushState,
    action: FlushAction,
) -> bool {
    match outcome {
        AttemptOutcome::Committed => action == (FlushAction::Disarm { tid }) && next == (
        FlushState::Disarming { snapshot }),
        AttemptOutcome::Beaten => if attempt < COMMIT_MAX_RETRIES {
            &&& action matches FlushAction::Wait { millis }
            &&& millis == backoff_millis(seq![table.schema], table.name@, attempt)
            &&& next == (FlushState::Waiting { tid, attempt: (attempt + 1) as u32 })
        } else {
            fails(action, error@) && next is Done
        },
        AttemptOutcome::Failed => fails(action, error@) && next is Done,
    }
}

/// What the flush does next, and where it then stands.
pub open spec fn flush_step(
    table: TableRef,
    state: FlushState,
    event: FlushEvent,
    next: FlushState,
    action: FlushAction,
) -> bool {
    match event {
        FlushEvent::Failed { error } => fails(action, error@) && next is Done,
        FlushEvent::Begin => if state is Start {
            action is ReadSnapshot && next is Reading
        } else {
            out_of_turn(next, action)
        },
        FlushEvent::SnapshotRead { current } => if state is Reading {
            match current {
                None => action == (FlushAction::Finish { snapshot: None }) && next is Done,
                Some(at) => action is ReadKind && next == (FlushState::Kind { at }),
            }
        } else {
            out_of_turn(next, action)
        },
        FlushEvent::KindRead { tid, is_cdc } => match state {
            FlushState::Kind { at } => if is_cdc && tid is Some {
                action == (FlushAction::ReadRows { at, with_images: true }) && next == (
                FlushState::Rows { is_cdc: true })
            } else {
                match tid {
                    Some(t) => action == (FlushAction::ReadShadow { tid: t }) && next == (
                    FlushState::Shadow { at, tid: t }),
                    None => action == (FlushAction::ReadRows { at, with_images: false }) && next == (
                    FlushState::Rows { is_cdc: false }),
                }
            },
            _ => out_of_turn(next, action),
        },
        FlushEvent::ShadowRead { shadowed } => match state {
            FlushState::Shadow { at, tid } => if shadowed {
                action == (FlushAction::StopShadowed { tid, restore: false }) && next is Stopping
            } else {
                action == (FlushAction::ReadRows { at, with_images: false }) && next == (
                FlushState::Rows { is_cdc: false })
            },
            _ => out_of_turn(next, action),
        },
        FlushEvent::RowsRead { rows } => match state {
            FlushState::Rows { is_cdc } => match rows {
                None => action is StopEmpty && next is Stopping,
                Some(ReadRows { tid, row_ids, kinds }) => if is_cdc {
                    match kind_fault(kinds) {
                        Some(e) => fails(action, e) && next is Done,
                        None => {
                            &&& action matches FlushAction::AppendBoth { tid: t, row_ids: ids, keep }
                            &&& t == tid
                            &&& ids == row_ids
                            &&& keep@ == keeps(kinds->kinds@)
                            &&& next == (FlushState::Trying { tid, attempt: 0 })
                        },
                    }
                } else {
                    action == (FlushAction::CheckRows { tid }) && next == (FlushState::Checking {
                        tid,
                        row_ids,
                    })
                },
            },
            _ => out_of_turn(next, action),
        },
        FlushEvent::RowsChecked { shadowed } => match state {
            FlushState::Checking { tid, row_ids } => if shadowed {
                action == (FlushAction::StopShadowed { tid, restore: true }) && next is Stopping
            } else {
                action == (FlushAction::Append { tid, row_ids }) && next == (FlushState::Appending {
                    tid,
                })
            },
            _ => out_of_turn(next, action),
        },
        FlushEvent::Stopped => if state is Stopping {
            action == (FlushAction::Finish { snapshot: None }) && next is Done
        } else {
            out_of_turn(next, action)
        },
        FlushEvent::Appended { snapshot } => match state {
            FlushState::Appending { tid } => action == (FlushAction::Disarm { tid }) && next == (
            FlushState::Disarming { snapshot }),
            _ => out_of_turn(next, action),
        },
        FlushEvent::Attempted { outcome, snapshot, error } => match state {
            FlushState::Trying { tid, attempt } => after_attempt(
                table,
                tid,
                attempt,
                outcome,
                snapshot,
                error,
                next,
                action,
            ),
            _ => out_of_turn(next, action),
        },
        FlushEvent::Waited => match state {
            FlushState::Waiting { tid, attempt } => action is AppendAgain && next == (
            FlushState::Trying { tid, attempt }),
            _ => out_of_turn(next, action),
        },
        FlushEvent::Disarmed => match state {
            FlushState::Disarming { snapshot } => action == (FlushAction::Finish {
                snapshot: Some(snapshot),
            }) && next is Done,
            _ => out_of_turn(next, action),
        },
    }
}

fn early() -> (r: (FlushState, FlushAction))
    ensures
        out_of_turn(r.0, r.1),
{
    (
        FlushState::Done,
        FlushAction::Fail {
            error: ControlPlaneError::Backend("flush: event out of turn".to_owned()),
        },
    )
}

/// The first look at the table: whether it is a stream of changes, is marked as
/// changed, or is to be read at once.
fn flush_locked(at: i64, tid: Option<i64>, is_cdc: bool) -> (r: (FlushState, FlushAction))
    ensures
        if is_cdc && tid is Some {
            r.1 == (FlushAction::ReadRows { at, with_images: true }) && r.0 == (FlushState::Rows {
                is_cdc: true,
            })
        } else {
            match tid {
                Some(t) => r.1 == (FlushAction::ReadShadow { tid: t }) && r.0 == (
                FlushState::Shadow { at, tid: t }),
                None => r.1 == (FlushAction::ReadRows { at, with_images: false }) && r.0 == (
                FlushState::Rows { is_cdc: false }),
            }
        },
{
    match tid {
        Some(t) => {
            if is_cdc {
                (FlushState::Rows { is_cdc: true }, FlushAction::ReadRows { at, with_images: true })
            } else {
                (FlushState::Shadow { at, tid: t }, FlushAction::ReadShadow { tid: t })
            }
        },
        None => (
            FlushState::Rows { is_cdc: false },
            FlushAction::ReadRows { at, with_images: false },
        ),
    }
}

/// What follows an attempt to append to a stream of changes and its changelog.
fn flush_locked_cdc(
    table: &TableRef,
    tid: i64,
    attempt: u32,
    outcome: AttemptOutcome,
    snapshot: i64,
    error: ControlPlaneError,
) -> (r: (FlushState, FlushAction))
    requires
        attempt <= COMMIT_MAX_RETRIES,
    ensures
        after_attempt(*table, tid, attempt, outcome, snapshot, error, r.0, r.1),
        r.0 matches FlushState::Waiting { attempt: a, .. } ==> a <= COMMIT_MAX_RETRIES,
        !(r.0 is Trying),
{
    let mut namespace: Vec<String> = Vec::new();
    namespace.push(table.schema.clone());
    assert(namespace@ =~= seq![table.schema]);
    match commit_append_with_retry(&namespace, table.name.as_str(), attempt, outcome) {
        RetryStep::Done => (FlushState::Disarming { snapshot }, FlushAction::Disarm { tid }),
        RetryStep::Again { millis } => (
            FlushState::Waiting { tid, attempt: attempt + 1 },
            FlushAction::Wait { millis },
        ),
        RetryStep::GiveUp => (FlushState::Done, FlushAction::Fail { error }),
    }
}

/// The attempts are counted within their limit.
pub open spec fn state_fits(state: FlushState) -> bool {
    match state {
        FlushState::Trying { tid, attempt } => attempt <= COMMIT_MAX_RETRIES,
        FlushState::Waiting { tid, attempt } => attempt <= COMMIT_MAX_RETRIES,
        _ => true,
    }
}

/// What the flush does next, given what came of the last action.
pub fn flush_table(table: &TableRef, state: FlushState, event: FlushEvent) -> (r: (FlushState, FlushAction))
    requires
        state_fits(state),
    ensures
        flush_step(*table, state, event, r.0, r.1),
        state_fits(r.0),
{
    match event {
        FlushEvent::Failed { error } => (FlushState::Done, FlushAction::Fail { error }),
        FlushEvent::Begin => match state {
            FlushState::Start => (FlushState::Reading, FlushAction::ReadSnapshot),
            _ => early(),
        },
        FlushEvent::SnapshotRead { current } => match state {
            FlushState::Reading => match current {
                None => (FlushState::Done, FlushAction::Finish { snapshot: None }),
                Some(at) => (FlushState::Kind { at }, FlushAction::ReadKind),
            },
            _ => early(),
        },
        FlushEvent::KindRead { tid, is_cdc } => match state {
            FlushState::Kind { at } => flush_locked(at, tid, is_cdc),
            _ => early(),
        },
        FlushEvent::ShadowRead { shadowed } => match state {
            FlushState::Shadow { at, tid } => {
                if shadowed {
                    (FlushState::Stopping, FlushAction::StopShadowed { tid, restore: false })
                } else {
                    (
                        FlushState::Rows { is_cdc: false },
                        FlushAction::ReadRows { at, with_images: false },
                    )
                }
            },
            _ => early(),
        },
        FlushEvent::RowsRead { rows } => match state {
            FlushState::Rows { is_cdc } => match rows {
                None => (FlushState::Stopping, FlushAction::StopEmpty),
                Some(ReadRows { tid, row_ids, kinds }) => {
                    if is_cdc {
                        match filter_out_minus_u(&kinds) {
                            Ok(keep) => (
                                FlushState::Trying { tid, attempt: 0 },
                                FlushAction::AppendBoth { tid, row_ids, keep },
                            ),
                            Err(error) => (FlushState::Done, FlushAction::Fail { error }),
                        }
                    } else {
                        (FlushState::Checking { tid, row_ids }, FlushAction::CheckRows { tid })
                    }
                },
            },
            _ => early(),
        },
        FlushEvent::RowsChecked { shadowed } => match state {
            FlushState::Checking { tid, row_ids } => {
                if shadowed {
                    (FlushState::Stopping, FlushAction::StopShadowed { tid, restore: true })
                } else {
                    (FlushState::Appending { tid }, FlushAction::Append { tid, row_ids })
                }
            },
            _ => early(),
        },
        FlushEvent::Stopped => match state {
            FlushState::Stopping => (FlushState::Done, FlushAction::Finish { snapshot: None }),
            _ => early(),
        },
        FlushEvent::Appended { snapshot } => match state {
            FlushState::Appending { tid } => (
                FlushState::Disarming { snapshot },
                FlushAction::Disarm { tid },
            ),
            _ => early(),
        },
        FlushEvent::Attempted { outcome, snapshot, error } => match state {
            FlushState::Trying { tid, attempt } => flush_locked_cdc(
                table,
                tid,
                attempt,
                outcome,
                snapshot,
                error,
            ),
            _ => early(),
        },
        FlushEvent::Waited => match state {
            FlushState::Waiting { tid, attempt } => (
                FlushState::Trying { tid, attempt },
                FlushAction::AppendAgain,
            ),
            _ => early(),
        },
        FlushEvent::Disarmed => match state {
            FlushState::Disarming { snapshot } => (
                FlushState::Done,
                FlushAction::Finish { snapshot: Some(snapshot) },
            ),
            _ => early(),
        },
    }
}

/// Rows of a table that is no stream of changes are appended only after they were
/// found to hold no change.
pub proof fn law_append_follows_check(
    table: TableRef,
    state: FlushState,
    event: FlushEvent,
    next: FlushState,
    action: FlushAction,
)
    requires
        flush_step(table, state, event, next, action),
        action is Append,
    ensures
        state is Checking,
        event matches FlushEvent::RowsChecked { shadowed } && !shadowed,
{
}

/// A table with inline changes among the rows that were read is left as it is, and
/// marked as having them.
pub proof fn law_changes_stop_the_flush(
    table: TableRef,
    tid: i64,
    row_ids: Vec<i64>,
    next: FlushState,
    action: FlushAction,
)
    requires
        flush_step(
            table,
            FlushState::Checking { tid, row_ids },
            FlushEvent::RowsChecked { shadowed: true },
            next,
            action,
        ),
    ensures
        action == (FlushAction::StopShadowed { tid, restore: true }),
{
}

/// A flush retires the rows that it read, and no others: a row that is inserted while
/// it runs stays live.
pub proof fn law_read_rows_are_retired(
    table: TableRef,
    rows: ReadRows,
    checking: FlushState,
    asked: FlushAction,
    next: FlushState,
    action: FlushAction,
)
    requires
        flush_step(
            table,
            FlushState::Rows { is_cdc: false },
            FlushEvent::RowsRead { rows: Some(rows) },
            checking,
            asked,
        ),
        flush_step(table, checking, FlushEvent::RowsChecked { shadowed: false }, next, action),
    ensures
        action == (FlushAction::Append { tid: rows.tid, row_ids: rows.row_ids }),
{
}

/// The base of a stream of changes keeps every row but the images of rows before they
/// were changed.
pub proof fn law_base_drops_only_images(kinds: Seq<String>, i: int)
    requires
        0 <= i < kinds.len(),
    ensures
        keeps(kinds)[i] <==> kinds[i]@ != "-U"@,
{
}

} // verus!
