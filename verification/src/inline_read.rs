//! Reading the live inline rows of a table, decided step by step.
use crate::error::{ControlPlaneError, Fault};
use crate::iceberg_inline::{
    column_names, inline_name, live_pred, live_rows_sql, live_rows_text, live_shadow_sql,
};
use crate::iceberg_type::BaseType;
use crate::text::concat;
use crate::types::ColumnSpec;
use crate::words::{debug_of, debug_text};
use vstd::prelude::*;

verus! {

/// Which rows are read, and how.
#[derive(Clone, Copy, Debug, PartialEq, Eq, Structural)]
pub enum ReadMode {
    /// The rows as they are now: without the images of rows before they were
    /// changed.
    Current,
    /// Every row.
    Full,
    /// Every row, with the snapshot it began at and whether it is a tombstone.
    Shadow,
}

/// A column of the batch that is read: its name, its type, and its place among the
/// selected columns.
#[derive(Debug)]
pub struct ReadField {
    pub name: String,
    pub ty: BaseType,
    pub nullable: bool,
    pub place: usize,
}

/// The statement that reads the rows.
pub open spec fn read_text(mode: ReadMode, tid: int, columns: Seq<ColumnSpec>, at: int) -> Seq<char> {
    match mode {
        ReadMode::Current => live_rows_text(tid, columns, at, true),
        ReadMode::Full => live_rows_text(tid, columns, at, false),
        ReadMode::Shadow => "select loom_row_id, begin_snapshot, loom_tombstone, "@ + column_names(
            columns,
        ) + " from "@ + inline_name(tid) + " where "@ + live_pred(at) + " order by loom_row_id"@,
    }
}

/// The place of the first column of the table among the selected ones.
pub open spec fn first_place(mode: ReadMode) -> int {
    if mode is Shadow {
        3
    } else {
        1
    }
}

/// The first column from `from` on whose type is not in the logical vocabulary.
pub open spec fn first_unresolved(resolved: Seq<Option<BaseType>>, from: int) -> Option<int>
    decreases resolved.len() - from,
{
    if from < 0 || from >= resolved.len() {
        None
    } else if resolved[from] is None {
        Some(from)
    } else {
        first_unresolved(resolved, from + 1)
    }
}

/// That a column's type is not in the logical vocabulary.
pub open spec fn unreadable(mode: ReadMode, ty: Seq<char>) -> Fault {
    if mode is Shadow {
        Fault::Backend("inline shadow read: unsupported type "@ + debug_text(ty))
    } else {
        Fault::Backend("inline read: unsupported type "@ + debug_text(ty))
    }
}

/// A field of a column of the table.
pub open spec fn is_field(f: ReadField, c: ColumnSpec, ty: Option<BaseType>, place: int) -> bool {
    &&& f.name@ == c.name@
    &&& ty == Some(f.ty)
    &&& f.nullable == c.nullable
    &&& f.place == place
}

/// The fields of the batch: the columns of the table, and behind them, where it is
/// asked for, the snapshot and whether the row is a tombstone.
pub open spec fn are_fields(
    fields: Seq<ReadField>,
    mode: ReadMode,
    columns: Seq<ColumnSpec>,
    resolved: Seq<Option<BaseType>>,
) -> bool {
    let n = columns.len() as int;
    &&& fields.len() == n + (if mode is Shadow {
        2int
    } else {
        0int
    })
    &&& forall|i: int|
        0 <= i < n ==> is_field(#[trigger] fields[i], columns[i], resolved[i], i + first_place(mode))
    &&& mode is Shadow ==> fields[n].name@ == "begin_snapshot"@ && fields[n].ty == BaseType::Long
        && !fields[n].nullable && fields[n].place == 1 && fields[n + 1].name@ == "loom_tombstone"@
        && fields[n + 1].ty == BaseType::Boolean && !fields[n + 1].nullable && fields[n + 1].place
        == 2
}

/// The fields of the batch that is read.
pub fn read_fields(mode: ReadMode, columns: &Vec<ColumnSpec>, resolved: &Vec<Option<BaseType>>) -> (r: Result<
    Vec<ReadField>,
    ControlPlaneError,
>)
    requires
        columns@.len() == resolved@.len(),
        columns@.len() + 3 <= usize::MAX,
    ensures
        match r {
            Ok(fields) => first_unresolved(resolved@, 0) is None && are_fields(
                fields@,
                mode,
                columns@,
                resolved@,
            ),
            Err(e) => first_unresolved(resolved@, 0) matches Some(i) && e@ == unreadable(
                mode,
                columns@[i].ty@,
            ),
        },
{
    let shadow: bool = match mode {
        ReadMode::Shadow => true,
        _ => false,
    };
    let first: usize = if shadow {
        3
    } else {
        1
    };
    let mut out: Vec<ReadField> = Vec::new();
    let mut i: usize = 0;
    while i < columns.len()
        invariant
            i <= columns@.len(),
            columns@.len() == resolved@.len(),
            columns@.len() + 3 <= usize::MAX,
            shadow == (mode is Shadow),
            first == first_place(mode),
            out@.len() == i,
            first_unresolved(resolved@, 0) == first_unresolved(resolved@, i as int),
            forall|j: int|
                0 <= j < i ==> is_field(
                    #[trigger] out@[j],
                    columns@[j],
                    resolved@[j],
                    j + first_place(mode),
                ),
        decreases columns@.len() - i,
    {
        let c: &ColumnSpec = &columns[i];
        match resolved[i] {
            None => {
                let shown: String = debug_of(c.ty.as_str());
                let message: String = if shadow {
                    concat("inline shadow read: unsupported type ", shown.as_str())
                } else {
                    concat("inline read: unsupported type ", shown.as_str())
                };
                return Err(ControlPlaneError::Backend(message));
            },
            Some(ty) => {
                out.push(
                    ReadField { name: c.name.clone(), ty, nullable: c.nullable, place: i + first },
                );
            },
        }
        i = i + 1;
    }
    if shadow {
        out.push(
            ReadField {
                name: "begin_snapshot".to_owned(),
                ty: BaseType::Long,
                nullable: false,
                place: 1,
            },
        );
        out.push(
            ReadField {
                name: "loom_tombstone".to_owned(),
                ty: BaseType::Boolean,
                nullable: false,
                place: 2,
            },
        );
    }
    Ok(out)
}

/// What has been found out.
pub enum ReadEvent {
    Begin,
    /// The table's number, where it is live.
    Located { tid: Option<i64> },
    /// Whether it has inline storage.
    StorageChecked { exists: bool },
    /// Its columns at the snapshot, and what the logical vocabulary makes of their
    /// types.
    ColumnsRead { columns: Vec<ColumnSpec>, resolved: Vec<Option<BaseType>> },
    /// How many rows came back.
    Queried { rows: usize },
    /// The last action failed.
    Failed { error: ControlPlaneError },
}

/// What is to be done.
pub enum ReadAction {
    /// Look for the table.
    Locate,
    /// Ask whether it has inline storage.
    CheckStorage { tid: i64 },
    /// Read its columns at the snapshot.
    ReadColumns { tid: i64 },
    /// Read the rows.
    Query { sql: String },
    /// Decode the rows into these fields; they are the table's.
    Decode { tid: i64, fields: Vec<ReadField> },
    /// There is nothing to read.
    Nothing,
    /// Report.
    Fail { error: ControlPlaneError },
}

/// How far the reading has come.
pub enum ReadState {
    Start,
    Locating,
    Checking { tid: i64 },
    Describing { tid: i64 },
    Querying { tid: i64, columns: Vec<ColumnSpec>, resolved: Vec<Option<BaseType>> },
    Done,
}

pub open spec fn fails(action: ReadAction, e: Fault) -> bool {
    action matches ReadAction::Fail { error } && error@ == e
}

/// The refusal of an event that does not belong here.
pub open spec fn out_of_turn(next: ReadState, action: ReadAction) -> bool {
    fails(action, Fault::Backend("inline read: event out of turn"@)) && next is Done
}

/// What the reading does next, and where it then stands.
pub open spec fn read_step(
    mode: ReadMode,
    at: i64,
    state: ReadState,
    event: ReadEvent,
    next: ReadState,
    action: ReadAction,
) -> bool {
    match event {
        ReadEvent::Failed { error } => fails(action, error@) && next is Done,
        ReadEvent::Begin => if state is Start {
            action is Locate && next is Locating
        } else {
            out_of_turn(next, action)
        },
        ReadEvent::Located { tid } => if state is Locating {
            match tid {
                None => action is Nothing && next is Done,
                Some(t) => action == (ReadAction::CheckStorage { tid: t }) && next == (
                ReadState::Checking { tid: t }),
            }
        } else {
            out_of_turn(next, action)
        },
        ReadEvent::StorageChecked { exists } => match state {
            ReadState::Checking { tid } => if exists {
                action == (ReadAction::ReadColumns { tid }) && next == (ReadState::Describing {
                    tid,
                })
            } else {
                action is Nothing && next is Done
            },
            _ => out_of_turn(next, action),
        },
        ReadEvent::ColumnsRead { columns, resolved } => match state {
            ReadState::Describing { tid } => {
                &&& action matches ReadAction::Query { sql }
                &&& sql@ == read_text(mode, tid as int, columns@, at as int)
                &&& next == (ReadState::Querying { tid, columns, resolved })
            },
            _ => out_of_turn(next, action),
        },
        ReadEvent::Queried { rows } => match state {
            ReadState::Querying { tid, columns, resolved } => {
                &&& next is Done
                &&& if rows == 0 {
                    action is Nothing
                } else {
                    match first_unresolved(resolved@, 0) {
                        Some(i) => fails(action, unreadable(mode, columns@[i].ty@)),
                        None => action matches ReadAction::Decode { tid: t, fields } && t == tid
                            && are_fields(fields@, mode, columns@, resolved@),
                    }
                }
            },
            _ => out_of_turn(next, action),
        },
    }
}

/// The columns come with what is made of their types.
pub open spec fn columns_fit(columns: Seq<ColumnSpec>, resolved: Seq<Option<BaseType>>) -> bool {
    columns.len() == resolved.len() && columns.len() + 3 <= usize::MAX
}

pub open spec fn state_fits(state: ReadState) -> bool {
    state matches ReadState::Querying { tid, columns, resolved } ==> columns_fit(columns@, resolved@)
}

fn early() -> (r: (ReadState, ReadAction))
    ensures
        out_of_turn(r.0, r.1),
{
    (
        ReadState::Done,
        ReadAction::Fail {
            error: ControlPlaneError::Backend("inline read: event out of turn".to_owned()),
        },
    )
}

fn inline_live_batch_impl(mode: ReadMode, at: i64, state: ReadState, event: ReadEvent) -> (r: (
    ReadState,
    ReadAction,
))
    requires
        state_fits(state),
        event matches ReadEvent::ColumnsRead { columns, resolved } ==> columns_fit(
            columns@,
            resolved@,
        ),
    ensures
        read_step(mode, at, state, event, r.0, r.1),
        state_fits(r.0),
{
    match event {
        ReadEvent::Failed { error } => (ReadState::Done, ReadAction::Fail { error }),
        ReadEvent::Begin => match state {
            ReadState::Start => (ReadState::Locating, ReadAction::Locate),
            _ => early(),
        },
        ReadEvent::Located { tid } => match state {
            ReadState::Locating => match tid {
                None => (ReadState::Done, ReadAction::Nothing),
                Some(t) => (ReadState::Checking { tid: t }, ReadAction::CheckStorage { tid: t }),
            },
            _ => early(),
        },
        ReadEvent::StorageChecked { exists } => match state {
            ReadState::Checking { tid } => {
                if exists {
                    (ReadState::Describing { tid }, ReadAction::ReadColumns { tid })
                } else {
                    (ReadState::Done, ReadAction::Nothing)
                }
            },
            _ => early(),
        },
        ReadEvent::ColumnsRead { columns, resolved } => match state {
            ReadState::Describing { tid } => {
                let sql: String = match mode {
                    ReadMode::Current => live_rows_sql(tid, &columns, at, true),
                    ReadMode::Full => live_rows_sql(tid, &columns, at, false),
                    ReadMode::Shadow => live_shadow_sql(tid, &columns, at),
                };
                (ReadState::Querying { tid, columns, resolved }, ReadAction::Query { sql })
            },
            _ => early(),
        },
        ReadEvent::Queried { rows } => match state {
            ReadState::Querying { tid, columns, resolved } => {
                if rows == 0 {
                    (ReadState::Done, ReadAction::Nothing)
                } else {
                    match read_fields(mode, &columns, &resolved) {
                        Ok(fields) => (ReadState::Done, ReadAction::Decode { tid, fields }),
                        Err(error) => (ReadState::Done, ReadAction::Fail { error }),
                    }
                }
            },
            _ => early(),
        },
    }
}

/// What reading the live rows does next, given what came of the last action. Images of
/// rows before they were changed are left out.
pub fn inline_live_batch(at: i64, state: ReadState, event: ReadEvent) -> (r: (ReadState, ReadAction))
    requires
        state_fits(state),
        event matches ReadEvent::ColumnsRead { columns, resolved } ==> columns_fit(
            columns@,
            resolved@,
        ),
    ensures
        read_step(ReadMode::Current, at, state, event, r.0, r.1),
        state_fits(r.0),
{
    inline_live_batch_impl(ReadMode::Current, at, state, event)
}

/// What reading every live row does next, the images of rows before they were changed
/// among them.
pub fn inline_live_batch_full(at: i64, state: ReadState, event: ReadEvent) -> (r: (ReadState, ReadAction))
    requires
        state_fits(state),
        event matches ReadEvent::ColumnsRead { columns, resolved } ==> columns_fit(
            columns@,
            resolved@,
        ),
    ensures
        read_step(ReadMode::Full, at, state, event, r.0, r.1),
        state_fits(r.0),
{
    inline_live_batch_impl(ReadMode::Full, at, state, event)
}

/// What reading the live rows with their framing does next: with the snapshot at which
/// each began, and whether it is a tombstone.
pub fn inline_live_batch_shadow(at: i64, state: ReadState, event: ReadEvent) -> (r: (ReadState, ReadAction))
    requires
        state_fits(state),
        event matches ReadEvent::ColumnsRead { columns, resolved } ==> columns_fit(
            columns@,
            resolved@,
        ),
    ensures
        read_step(ReadMode::Shadow, at, state, event, r.0, r.1),
        state_fits(r.0),
{
    inline_live_batch_impl(ReadMode::Shadow, at, state, event)
}

} // verus!
