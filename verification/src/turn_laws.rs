//! What holds of the work that is done in turns: what each answer leads to, what is carried
//! from one turn to the next, and that an answer to what was not asked ends the work.
use crate::error::Fault;
use crate::iceberg_flush::{flush_step, FlushAction, FlushEvent, FlushState, ReadRows};
use crate::iceberg_gc::{gc_step, GcAction, GcEvent, GcState, GcSummary};
use crate::iceberg_landing::{
    append_step as landed_step, land_step, AppendedAction, AppendedEvent, AppendedState, LandAction,
    LandEvent, LandState, SnapshotAppend, StreamLand,
};
use crate::iceberg_writer::AttemptOutcome;
use crate::inline_append::{append_step, AppendAction, AppendEvent, AppendRequest, AppendState};
use crate::inline_cells::missing;
use crate::inline_delta::{delta_step, DeltaAction, DeltaEvent, DeltaRequest, DeltaState};
use crate::inline_read::{read_step, ReadAction, ReadEvent, ReadMode, ReadState};
use crate::stream::StreamKind;
use crate::types::TableRef;
use vstd::prelude::*;

verus! {

/// What a change of one row waits for in a state.
pub open spec fn change_waits_for(state: DeltaState, event: DeltaEvent) -> bool {
    match event {
        DeltaEvent::Begin => state is Start,
        DeltaEvent::Located { .. } => state is Locating,
        DeltaEvent::ColumnsRead { .. } => state is Reading,
        DeltaEvent::Locked { .. } => state is Locking,
        DeltaEvent::VersionRead { .. } => state is Comparing,
        DeltaEvent::Snapshotted { .. } => state is Making,
        DeltaEvent::Reserved { .. } => state is Placing,
        DeltaEvent::Written { .. } => state is Writing,
        DeltaEvent::Failed { .. } => true,
    }
}

/// A change of one row goes on only with the answer that it waits for; any other ends it with
/// an error, and so does a failure, with the error of the failure.
pub proof fn law_turns_of_a_change(
    req: DeltaRequest,
    state: DeltaState,
    event: DeltaEvent,
    next: DeltaState,
    action: DeltaAction,
)
    requires
        delta_step(req, state, event, next, action),
    ensures
        !change_waits_for(state, event) ==> next is Done && (action matches DeltaAction::Fail { error }
            && error@ == Fault::Backend("inline change: event out of turn"@)),
        event matches DeltaEvent::Failed { error } ==> next is Done && (action matches DeltaAction::Fail {
            error: e,
        } && e@ == error@),
        next is Done <==> action is Fail || action is Finish,
        action is Locate <==> state is Start && event is Begin,
        action is Locate ==> next is Locating,
        action is ReadColumns <==> state is Locating && (event matches DeltaEvent::Located { tid: Some(_) }),
        action is Lock ==> state is Reading && event is ColumnsRead && next is Locking,
        action is ReadVersion ==> state is Locking && event == (DeltaEvent::Locked { readable: true })
            && next is Comparing,
        action is Snapshot ==> next is Making && (state is Comparing || (state is Locking && event == (
        DeltaEvent::Locked { readable: false }))),
        action is Reserve ==> state is Making && (event matches DeltaEvent::Snapshotted {
            kind: Some(StreamKind::Cdc),
            ..
        }) && next is Placing,
        action is Write ==> next is Writing && (state is Placing || (state is Making && !(
        event matches DeltaEvent::Snapshotted { kind: Some(StreamKind::Cdc), .. }))),
        action is Finish <==> state is Writing && event is Written,
{
}

/// A change of one row works on the table that was found, and on the identity that was locked:
/// both are carried from turn to turn unchanged.
pub proof fn law_change_keeps_its_row(
    req: DeltaRequest,
    state: DeltaState,
    event: DeltaEvent,
    next: DeltaState,
    action: DeltaAction,
)
    requires
        delta_step(req, state, event, next, action),
    ensures
        event matches DeltaEvent::Located { tid: Some(t) } ==> (state is Locating ==> action == (
        DeltaAction::ReadColumns { tid: t }) && next == (DeltaState::Reading { tid: t })),
        state matches DeltaState::Reading { tid } ==> (next matches DeltaState::Locking { tid: t, .. }
            ==> t == tid),
        state matches DeltaState::Locking { tid, id } ==> (next matches DeltaState::Comparing {
            tid: t,
            id: kept,
        } ==> t == tid && kept@ == id@ && !missing(id@) && (action matches DeltaAction::ReadVersion {
            id: asked,
            ..
        } && asked@ == id@)),
        state matches DeltaState::Locking { tid, id } ==> (next matches DeltaState::Making {
            tid: t,
            id: kept,
        } ==> t == tid && kept@ == id@),
        state matches DeltaState::Comparing { tid, id } ==> (next matches DeltaState::Making {
            tid: t,
            id: kept,
        } ==> t == tid && kept@ == id@),
        state matches DeltaState::Making { tid, .. } ==> (next matches DeltaState::Placing { tid: t, bucket }
            ==> t == tid && (action matches DeltaAction::Reserve { bucket: b, .. } && b == bucket)),
        next matches DeltaState::Writing { cdc } ==> cdc == (state is Placing),
{
}

/// A change is made exactly where the identity still has the version that the caller saw; a
/// table without rows beside its files has the version zero.
pub proof fn law_change_needs_the_version(
    req: DeltaRequest,
    state: DeltaState,
    event: DeltaEvent,
    next: DeltaState,
    action: DeltaAction,
)
    requires
        delta_step(req, state, event, next, action),
    ensures
        state is Comparing ==> (event matches DeltaEvent::VersionRead { version } ==> (action is Snapshot
            <==> version == req.expected_version)),
        state is Locking && event == (DeltaEvent::Locked { readable: false }) ==> (action is Snapshot
            <==> req.expected_version == 0),
        state matches DeltaState::Locking { id, .. } ==> (event == (DeltaEvent::Locked { readable: true })
            ==> (action is ReadVersion <==> !missing(id@))),
{
}

/// A stream of changes needs a bucket and the row as it was; it then reserves one place for a
/// removal and two for an update.
pub proof fn law_change_reserves(
    req: DeltaRequest,
    state: DeltaState,
    bucket_count: i32,
    next: DeltaState,
    action: DeltaAction,
)
    requires
        state is Making,
        delta_step(
            req,
            state,
            DeltaEvent::Snapshotted { kind: Some(StreamKind::Cdc), bucket_count },
            next,
            action,
        ),
    ensures
        action is Reserve <==> bucket_count >= 1 && req.before is Some,
        action is Reserve || action is Fail,
        action is Reserve && req.tombstone ==> action->Reserve_count == 1,
        action is Reserve && !req.tombstone ==> action->Reserve_count == 2,
{
}

/// What an append beside the files waits for in a state.
pub open spec fn append_waits_for(state: AppendState, event: AppendEvent) -> bool {
    match event {
        AppendEvent::Begin => state is Start,
        AppendEvent::Opened { .. } => state is Opening,
        AppendEvent::Prepared { .. } => state is Preparing,
        AppendEvent::Reserved { .. } => state is Reserving,
        AppendEvent::Inserted { .. } => state is Inserting,
        AppendEvent::Failed { .. } => true,
    }
}

/// An append beside the files goes on only with the answer that it waits for, prepares the
/// storage before it places rows, reserves places only in a stream, and is done once its rows
/// are inserted.
pub proof fn law_turns_of_an_append(
    req: AppendRequest,
    state: AppendState,
    event: AppendEvent,
    next: AppendState,
    action: AppendAction,
)
    requires
        append_step(req, state, event, next, action),
    ensures
        !append_waits_for(state, event) ==> next is Done && (action matches AppendAction::Fail { error }
            && error@ == Fault::Backend("inline append: event out of turn"@)),
        event matches AppendEvent::Failed { error } ==> next is Done && (action matches AppendAction::Fail {
            error: e,
        } && e@ == error@),
        next is Done <==> action is Fail || action is Finish,
        action is Open <==> state is Start && event is Begin,
        action is Open ==> next is Opening,
        action is Prepare ==> state is Opening && (event matches AppendEvent::Opened { tid, .. } && next == (
        AppendState::Preparing { tid })),
        action is Reserve ==> state is Preparing && (event matches AppendEvent::Prepared {
            effective: Some(_),
            ..
        }) && next is Reserving,
        action is Insert ==> next is Inserting && (state is Reserving || (state is Preparing && (
        event matches AppendEvent::Prepared { effective: None, .. }))),
        action is Finish <==> state is Inserting && event is Inserted,
{
}

/// An append to a stream keeps the table, the buckets and the places that it reserved, and
/// tells the readers exactly where the table is a declared stream.
pub proof fn law_append_keeps_its_places(
    req: AppendRequest,
    tid: i64,
    effective: Option<i32>,
    kind: Option<StreamKind>,
    bucket_key: Option<String>,
    next: AppendState,
    action: AppendAction,
)
    requires
        append_step(
            req,
            AppendState::Preparing { tid },
            AppendEvent::Prepared { effective, kind, bucket_key },
            next,
            action,
        ),
        next is Reserving,
    ensures
        next->Reserving_tid == tid,
        effective is Some && next->Reserving_bucket_count == effective->0,
        action is Reserve && next->Reserving_runs@ == action->Reserve_runs@,
        next->Reserving_notify == (kind is Some),
{
}

/// What a read of the rows beside the files waits for in a state.
pub open spec fn read_waits_for(state: ReadState, event: ReadEvent) -> bool {
    match event {
        ReadEvent::Begin => state is Start,
        ReadEvent::Located { .. } => state is Locating,
        ReadEvent::StorageChecked { .. } => state is Checking,
        ReadEvent::ColumnsRead { .. } => state is Describing,
        ReadEvent::Queried { .. } => state is Querying,
        ReadEvent::Failed { .. } => true,
    }
}

/// A read of the rows beside the files goes on only with the answer that it waits for, stays
/// with the table that was found, and finds nothing where there is no table, no storage or no
/// row.
pub proof fn law_turns_of_a_read(
    mode: ReadMode,
    at: i64,
    state: ReadState,
    event: ReadEvent,
    next: ReadState,
    action: ReadAction,
)
    requires
        read_step(mode, at, state, event, next, action),
    ensures
        !read_waits_for(state, event) ==> next is Done && (action matches ReadAction::Fail { error }
            && error@ == Fault::Backend("inline read: event out of turn"@)),
        event matches ReadEvent::Failed { error } ==> next is Done && (action matches ReadAction::Fail {
            error: e,
        } && e@ == error@),
        next is Done <==> action is Fail || action is Nothing || action is Decode,
        action is Locate <==> state is Start && event is Begin,
        action is Locate ==> next is Locating,
        action is Nothing <==> (state is Locating && event == (ReadEvent::Located { tid: None })) || (
        state is Checking && event == (ReadEvent::StorageChecked { exists: false })) || (state is Querying
            && event == (ReadEvent::Queried { rows: 0 })),
        state is Locating ==> (event matches ReadEvent::Located { tid: Some(t) } ==> action == (
        ReadAction::CheckStorage { tid: t }) && next == (ReadState::Checking { tid: t })),
        state matches ReadState::Checking { tid } ==> (event == (ReadEvent::StorageChecked { exists: true })
            ==> action == (ReadAction::ReadColumns { tid }) && next == (ReadState::Describing { tid })),
        state matches ReadState::Describing { tid } ==> (event matches ReadEvent::ColumnsRead {
            columns,
            resolved,
        } ==> action is Query && next == (ReadState::Querying { tid, columns, resolved })),
        state matches ReadState::Querying { tid, .. } ==> (action matches ReadAction::Decode { tid: t, .. }
            ==> t == tid),
{
}

/// What a flush waits for in a state.
pub open spec fn flush_waits_for(state: FlushState, event: FlushEvent) -> bool {
    match event {
        FlushEvent::Begin => state is Start,
        FlushEvent::SnapshotRead { .. } => state is Reading,
        FlushEvent::KindRead { .. } => state is Kind,
        FlushEvent::ShadowRead { .. } => state is Shadow,
        FlushEvent::RowsRead { .. } => state is Rows,
        FlushEvent::RowsChecked { .. } => state is Checking,
        FlushEvent::Stopped => state is Stopping,
        FlushEvent::Appended { .. } => state is Appending,
        FlushEvent::Attempted { .. } => state is Trying,
        FlushEvent::Waited => state is Waiting,
        FlushEvent::Disarmed => state is Disarming,
        FlushEvent::Failed { .. } => true,
    }
}

/// A flush goes on only with the answer that it waits for.
pub proof fn law_turns_of_a_flush(
    table: TableRef,
    state: FlushState,
    event: FlushEvent,
    next: FlushState,
    action: FlushAction,
)
    requires
        flush_step(table, state, event, next, action),
    ensures
        !flush_waits_for(state, event) ==> next is Done && (action matches FlushAction::Fail { error }
            && error@ == Fault::Backend("flush: event out of turn"@)),
        event matches FlushEvent::Failed { error } ==> next is Done && (action matches FlushAction::Fail {
            error: e,
        } && e@ == error@),
        next is Done <==> action is Fail || action is Finish,
        action is ReadSnapshot <==> state is Start && event is Begin,
        action is ReadSnapshot ==> next is Reading,
        action is Append ==> state is Checking && event == (FlushEvent::RowsChecked { shadowed: false }),
        action is AppendBoth ==> state == (FlushState::Rows { is_cdc: true }),
        action is AppendAgain <==> state is Waiting && event is Waited,
        action is StopEmpty <==> state is Rows && event == (FlushEvent::RowsRead { rows: None }),
        action is StopShadowed ==> (state is Shadow && event == (FlushEvent::ShadowRead { shadowed: true }))
            || (state is Checking && event == (FlushEvent::RowsChecked { shadowed: true })),
        action is StopEmpty || action is StopShadowed <==> next is Stopping,
{
}

/// A flush stays with the table and the snapshot that it found: what it reads, checks, appends
/// and disarms is of that table, and it takes away the rows that it read.
pub proof fn law_flush_keeps_its_table(
    table: TableRef,
    state: FlushState,
    event: FlushEvent,
    next: FlushState,
    action: FlushAction,
)
    requires
        flush_step(table, state, event, next, action),
    ensures
        state is Reading && event == (FlushEvent::SnapshotRead { current: None }) ==> action == (
        FlushAction::Finish { snapshot: None }),
        state is Reading ==> (event matches FlushEvent::SnapshotRead { current: Some(at) } ==> action
            is ReadKind && next == (FlushState::Kind { at })),
        state matches FlushState::Kind { at } ==> (event matches FlushEvent::KindRead { tid, is_cdc } ==> {
            &&& is_cdc && tid is Some ==> action == (FlushAction::ReadRows { at, with_images: true }) && next
                == (FlushState::Rows { is_cdc: true })
            &&& !is_cdc && tid is Some ==> action == (FlushAction::ReadShadow { tid: tid->0 }) && next == (
            FlushState::Shadow { at, tid: tid->0 })
            &&& tid is None ==> action == (FlushAction::ReadRows { at, with_images: false }) && next == (
            FlushState::Rows { is_cdc: false })
        }),
        state matches FlushState::Shadow { at, tid } ==> (event matches FlushEvent::ShadowRead { shadowed } ==> {
            &&& shadowed ==> action == (FlushAction::StopShadowed { tid, restore: false })
            &&& !shadowed ==> action == (FlushAction::ReadRows { at, with_images: false }) && next == (
            FlushState::Rows { is_cdc: false })
        }),
        state == (FlushState::Rows { is_cdc: false }) ==> (event matches FlushEvent::RowsRead {
            rows: Some(ReadRows { tid, row_ids, kinds }),
        } ==> action == (FlushAction::CheckRows { tid }) && next == (FlushState::Checking { tid, row_ids })),
        state == (FlushState::Rows { is_cdc: true }) ==> (event matches FlushEvent::RowsRead {
            rows: Some(ReadRows { tid, row_ids, kinds }),
        } ==> (action is AppendBoth <==> kinds is Texts) && (action is AppendBoth
            ==> action->AppendBoth_tid == tid && action->AppendBoth_row_ids == row_ids && next == (
        FlushState::Trying { tid, attempt: 0 }))),
        state matches FlushState::Checking { tid, row_ids } ==> (event matches FlushEvent::RowsChecked {
            shadowed,
        } ==> {
            &&& shadowed ==> action == (FlushAction::StopShadowed { tid, restore: true })
            &&& !shadowed ==> action == (FlushAction::Append { tid, row_ids }) && next == (
            FlushState::Appending { tid })
        }),
        state matches FlushState::Appending { tid } ==> (event matches FlushEvent::Appended { snapshot }
            ==> action == (FlushAction::Disarm { tid }) && next == (FlushState::Disarming { snapshot })),
        state matches FlushState::Trying { tid, attempt } ==> (event matches FlushEvent::Attempted {
            outcome: AttemptOutcome::Committed,
            snapshot,
            ..
        } ==> action == (FlushAction::Disarm { tid }) && next == (FlushState::Disarming { snapshot })),
        state matches FlushState::Waiting { tid, attempt } ==> (event is Waited ==> next == (
        FlushState::Trying { tid, attempt })),
{
}

/// What a landing of files that are written first waits for in a state.
pub open spec fn landing_waits_for(state: AppendedState, event: AppendedEvent) -> bool {
    match event {
        AppendedEvent::Begin => state is Start,
        AppendedEvent::Ensured => state is Ensuring,
        AppendedEvent::Live { .. } => state is Reading,
        AppendedEvent::Inline { .. } => state is Probing,
        AppendedEvent::Written { .. } => state is Writing,
        AppendedEvent::Committed { .. } => state is Committing,
        AppendedEvent::Failed { .. } => true,
    }
}

/// A landing goes on only with the answer that it waits for; it writes objects only where
/// columns come in and no row lies beside the files, and it ends with the snapshot that was
/// committed.
pub proof fn law_turns_of_a_landing(
    req: SnapshotAppend,
    state: AppendedState,
    event: AppendedEvent,
    next: AppendedState,
    action: AppendedAction,
)
    requires
        landed_step(req, state, event, next, action),
    ensures
        !landing_waits_for(state, event) ==> next is Done && (action matches AppendedAction::Fail { error }
            && error@ == Fault::Backend("land: event out of turn"@)),
        event matches AppendedEvent::Failed { error } ==> next is Done && (action matches AppendedAction::Fail {
            error: e,
        } && e@ == error@),
        next is Done <==> action is Fail || action is Finish,
        action is Ensure <==> state is Start && event is Begin,
        action is Ensure ==> next is Ensuring && action == (AppendedAction::Ensure { framed: req.framed }),
        action is ReadLive ==> state is Ensuring && next is Reading,
        action is Append ==> state is Reading && next is Committing,
        action is ProbeInline ==> next is Probing && (event matches AppendedEvent::Live {
            current: Some(at),
            ..
        } && action == (AppendedAction::ProbeInline { at })),
        action is WriteObjects ==> next is Writing && ((state is Probing && event == (AppendedEvent::Inline {
            rows: false,
        })) || (event matches AppendedEvent::Live { current: None, .. })),
        state is Probing && event == (AppendedEvent::Inline { rows: true }) ==> action is Fail,
        state is Probing && event == (AppendedEvent::Inline { rows: false }) ==> action is WriteObjects,
        action is Register ==> state is Writing && event is Written && next is Committing,
        state is Committing ==> (event matches AppendedEvent::Committed { snapshot } ==> action == (
        AppendedAction::Finish { snapshot })),
{
}

/// What a landing into a stream waits for in a state.
pub open spec fn stream_waits_for(state: LandState, event: LandEvent) -> bool {
    match event {
        LandEvent::Begin => state is Start,
        LandEvent::Loaded => state is Loading,
        LandEvent::Opened { .. } => state is Opening,
        LandEvent::Reserved { .. } => state is Reserving,
        LandEvent::Attempted { .. } => state is Writing,
        LandEvent::Committed => state is Committing,
        LandEvent::Waited => state is Waiting,
        LandEvent::Failed { .. } => true,
    }
}

/// A landing into a stream goes on only with the answer that it waits for. It needs a batch
/// and a table that is a stream; the snapshot that it opened is the one that it reports; and a
/// landing that was beaten opens again, one attempt further.
pub proof fn law_turns_of_a_stream_landing(
    req: StreamLand,
    state: LandState,
    event: LandEvent,
    next: LandState,
    action: LandAction,
)
    requires
        land_step(req, state, event, next, action),
    ensures
        !stream_waits_for(state, event) ==> next is Done && (action matches LandAction::Fail { error }
            && error@ == Fault::Backend("stream land: event out of turn"@)),
        event matches LandEvent::Failed { error } ==> next is Done && (action matches LandAction::Fail {
            error: e,
        } && e@ == error@),
        next is Done <==> action is Fail || action is Finish,
        state is Start && event is Begin ==> (action is Load <==> req.batches > 0) && (action is Load
            <==> next is Loading),
        state is Loading && event is Loaded ==> action is Open && next == (LandState::Opening { attempt: 0 }),
        state matches LandState::Opening { attempt } ==> (event matches LandEvent::Opened {
            at,
            tid,
            effective,
        } ==> {
            &&& action is Reserve <==> effective is Some && effective->0 >= 0
            &&& action is Reserve ==> (next matches LandState::Reserving { attempt: a, at: s, bucket_count, runs }
                && a == attempt && s == at && bucket_count == effective->0 && runs@ == action->Reserve_runs@)
        }),
        state matches LandState::Reserving { attempt, at, .. } ==> (event is Reserved ==> action is Write
            && next == (LandState::Writing { attempt, at })),
        state matches LandState::Writing { attempt, at } ==> (event matches LandEvent::Attempted {
            outcome,
            error,
        } ==> {
            &&& outcome is Committed ==> action is Commit && next == (LandState::Committing { at })
            &&& outcome is Failed ==> (action matches LandAction::Fail { error: e } && e@ == error@)
            &&& action is Wait ==> outcome is Beaten && (next matches LandState::Waiting { attempt: a } && a
                == attempt + 1)
        }),
        state matches LandState::Committing { at } ==> (event is Committed ==> action == (LandAction::Finish {
            snapshot: at,
        })),
        state matches LandState::Waiting { attempt } ==> (event is Waited ==> action is Open && next == (
        LandState::Opening { attempt })),
{
}

/// What a collection of garbage waits for in a state.
pub open spec fn collection_waits_for(state: GcState, event: GcEvent) -> bool {
    match event {
        GcEvent::Begin => state is Start,
        GcEvent::Table { .. } => state is Finding,
        GcEvent::Horizon { .. } => state is Aging,
        GcEvent::Readers { .. } => state is Flooring,
        GcEvent::Paths { .. } => state is Collecting,
        GcEvent::Deleted { .. } => state is Deleting,
        GcEvent::Warned => state is Warning,
        GcEvent::Object { .. } => state is Removing,
        GcEvent::Failed { .. } => true,
    }
}

/// A collection of garbage goes on only with the answer that it waits for, collects the paths
/// before it deletes the rows, and deletes the rows before it deletes an object.
pub proof fn law_turns_of_a_collection(
    retention: u64,
    now: int,
    state: GcState,
    event: GcEvent,
    next: GcState,
    action: GcAction,
)
    requires
        gc_step(retention, now, state, event, next, action),
    ensures
        !collection_waits_for(state, event) ==> next is Done && (action matches GcAction::Fail { error }
            && error@ == Fault::Backend("gc: event out of turn"@)),
        event matches GcEvent::Failed { error } ==> next is Done && (action matches GcAction::Fail { error: e }
            && e@ == error@),
        next is Done <==> action is Fail || action is Finish,
        action is FindTable <==> state is Start && event is Begin,
        action is FindTable ==> next is Finding,
        action is FindHorizon ==> state is Finding && next is Aging,
        action is FindReaders ==> state is Aging && next is Flooring,
        action is CollectPaths ==> state is Flooring && next is Collecting,
        action is DeleteRows <==> state is Collecting && event is Paths,
        action is Warn ==> state is Deleting && next is Warning,
        action is DeleteObject ==> (state is Deleting || state is Warning || state is Removing) && next
            is Removing,
{
}

/// A collection of garbage carries what it found: the table, the horizon, the bound, the paths
/// and the readers that hold it back. A warning comes exactly where something was held, and
/// the summary counts what was deleted.
pub proof fn law_collection_keeps_what_it_found(
    retention: u64,
    now: int,
    state: GcState,
    event: GcEvent,
    next: GcState,
    action: GcAction,
)
    requires
        gc_step(retention, now, state, event, next, action),
    ensures
        state matches GcState::Aging { tid } ==> (event matches GcEvent::Horizon { horizon: Some(h) }
            ==> action == (GcAction::FindReaders { tid }) && next == (GcState::Flooring { tid, horizon: h })),
        state matches GcState::Flooring { tid, horizon } ==> (event is Readers ==> (
        action matches GcAction::CollectPaths { tid: t, horizon: h, bound, files } && t == tid && h == horizon
            && (next matches GcState::Collecting { tid: kt, horizon: kh, bound: kb, files: kf, .. } && kt == tid
            && kh == horizon && kb == bound && kf@ == files@))),
        state matches GcState::Collecting { tid, horizon, bound, files, inline_sql, slowest } ==> (
        event matches GcEvent::Paths { paths } ==> action == (GcAction::DeleteRows {
            tid,
            horizon,
            bound,
            files,
            inline_sql,
        }) && next == (GcState::Deleting { tid, paths, slowest })),
        state matches GcState::Deleting { tid, paths, slowest } ==> (event matches GcEvent::Deleted {
            data_file_rows,
            inline_rows,
            held,
        } ==> {
            &&& action is Warn <==> held > 0
            &&& action is Warn ==> action == (GcAction::Warn { tid, held, slowest }) && (
            next matches GcState::Warning { paths: p, summary } && p == paths && summary.data_file_rows
                == data_file_rows && summary.held_by_mv_floor == held && summary.objects_deleted == 0 && (
            inline_rows is Some ==> summary.inline_rows == inline_rows->0) && (inline_rows is None
                ==> summary.inline_rows == 0))
            &&& held == 0 && paths@.len() == 0 ==> (action matches GcAction::Finish { summary }
                && summary.data_file_rows == data_file_rows && summary.held_by_mv_floor == 0
                && summary.objects_deleted == 0 && (inline_rows is Some ==> summary.inline_rows
                == inline_rows->0) && (inline_rows is None ==> summary.inline_rows == 0))
            &&& held == 0 && paths@.len() > 0 ==> (action matches GcAction::DeleteObject { path } && path
                == paths@[0]) && (next matches GcState::Removing { rest, summary } && rest@ == paths@.skip(1)
                && summary.data_file_rows == data_file_rows && summary.objects_deleted == 0)
        }),
        state matches GcState::Warning { paths, summary } ==> (event is Warned ==> {
            &&& paths@.len() == 0 ==> action == (GcAction::Finish { summary })
            &&& paths@.len() > 0 ==> action == (GcAction::DeleteObject { path: paths@[0] })
        }),
        state matches GcState::Removing { rest, summary } ==> (event matches GcEvent::Object { deleted } ==> {
            &&& rest@.len() > 0 ==> action == (GcAction::DeleteObject { path: rest@[0] })
            &&& rest@.len() == 0 ==> (action matches GcAction::Finish { summary: s } && s.data_file_rows
                == summary.data_file_rows && s.inline_rows == summary.inline_rows && s.held_by_mv_floor
                == summary.held_by_mv_floor && (deleted && summary.objects_deleted < u64::MAX
                ==> s.objects_deleted == summary.objects_deleted + 1) && (!deleted ==> s.objects_deleted
                == summary.objects_deleted))
        }),
{
}

/// Where there is no such table, or nothing in it is old enough, a collection ends with nothing
/// deleted.
pub proof fn law_collection_of_nothing(
    retention: u64,
    now: int,
    state: GcState,
    event: GcEvent,
    next: GcState,
    action: GcAction,
)
    requires
        gc_step(retention, now, state, event, next, action),
        (state is Finding && event == (GcEvent::Table { tid: None })) || (state is Aging && event == (
        GcEvent::Horizon { horizon: None })),
    ensures
        action == (GcAction::Finish {
            summary: GcSummary { data_file_rows: 0, inline_rows: 0, objects_deleted: 0, held_by_mv_floor: 0 },
        }),
{
}

} // verus!
