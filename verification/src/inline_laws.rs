//! What holds of the rows beside the files: which values a row takes from a batch, what a
//! change of one row writes, and which rows a read asks for.
use crate::ambient::in_calendar;
use crate::error::Fault;
use crate::iceberg_inline::{change_text, column_names, parameters, quoted, quoted_names};
use crate::iceberg_type::BaseType;
use crate::inline_append::{are_cells, first_bad_cell, place_of};
use crate::inline_cells::{cell_of, Cell, CellModel, ColumnValues};
use crate::inline_delta::{
    change_fault, delta_step, identity_in, DeltaAction, DeltaEvent,
    DeltaRequest, DeltaRow, DeltaState, RowImage,
};
use crate::inline_read::{read_step, ReadAction, ReadEvent, ReadMode, ReadState};
use crate::names::name_place;
use crate::stream::StreamKind;
use crate::text::{int_text, joined, nat_text};
use crate::types::ColumnSpec;
use vstd::prelude::*;

verus! {

/// The cell holds the value that the column has at the row. A timestamp that the calendar
/// does not have is held as the first instant of 1970.
pub open spec fn holds_value(cell: Cell, column: ColumnValues, row: int) -> bool {
    match (cell, column) {
        (Cell::I32(x), ColumnValues::Int32(v)) => x == v@[row],
        (Cell::I64(x), ColumnValues::Int64(v)) => x == v@[row],
        (Cell::F64(x), ColumnValues::Float64(v)) => x == v@[row],
        (Cell::Bool(x), ColumnValues::Boolean(v)) => x == v@[row],
        (Cell::Str(Some(x)), ColumnValues::Utf8(v)) => v@[row] matches Some(t) && x@ == t@,
        (Cell::Str(None), ColumnValues::Utf8(v)) => v@[row] is None,
        (Cell::Date(x), ColumnValues::Date32(v)) => x == v@[row],
        (Cell::Ts(Some(x)), ColumnValues::TimestampMicros(v)) => {
            &&& v@[row] matches Some(m)
            &&& in_calendar(m * 1000) ==> x == m
            &&& !in_calendar(m * 1000) ==> x == 0
        },
        (Cell::Ts(None), ColumnValues::TimestampMicros(v)) => v@[row] is None,
        (Cell::Vec(Some(x)), ColumnValues::Float32List(v)) => v@[row] matches Some(l) && x@ == l@,
        (Cell::Vec(None), ColumnValues::Float32List(v)) => v@[row] is None,
        (Cell::Vec(None), ColumnValues::OtherList(v)) => v@[row],
        (Cell::Vec(None), ColumnValues::Other(v)) => v@[row],
        (Cell::Vec(None), ColumnValues::Int32(v)) => v@[row] is None,
        (Cell::Vec(None), ColumnValues::Int64(v)) => v@[row] is None,
        (Cell::Vec(None), ColumnValues::Float64(v)) => v@[row] is None,
        (Cell::Vec(None), ColumnValues::Boolean(v)) => v@[row] is None,
        (Cell::Vec(None), ColumnValues::Utf8(v)) => v@[row] is None,
        (Cell::Vec(None), ColumnValues::Date32(v)) => v@[row] is None,
        (Cell::Vec(None), ColumnValues::TimestampMicros(v)) => v@[row] is None,
        _ => false,
    }
}

/// The cells of a row hold the values of the batch at the row, column by column.
pub open spec fn hold_row(cells: Seq<Cell>, batch: Seq<ColumnValues>, columns: Seq<ColumnSpec>, row: int) -> bool {
    &&& cells.len() == columns.len()
    &&& forall|c: int| 0 <= c < columns.len() ==> holds_value(#[trigger] cells[c], batch[c], row)
}

proof fn lemma_type_names()
    ensures
        "integer"@.len() == 7 && "integer"@[0] == 'i',
        "long"@.len() == 4 && "long"@[0] == 'l',
        "double"@.len() == 6 && "double"@[0] == 'd',
        "boolean"@.len() == 7 && "boolean"@[0] == 'b',
        "string"@.len() == 6 && "string"@[0] == 's',
        "date"@.len() == 4 && "date"@[0] == 'd',
        "timestamp"@.len() == 9 && "timestamp"@[0] == 't',
        "vector("@.len() == 7 && "vector("@[0] == 'v',
{
    reveal_strlit("integer");
    reveal_strlit("long");
    reveal_strlit("double");
    reveal_strlit("boolean");
    reveal_strlit("string");
    reveal_strlit("date");
    reveal_strlit("timestamp");
    reveal_strlit("vector(");
}

/// A value taken from a batch is the value that the batch has there, under the type that
/// its column is declared with.
pub proof fn law_cell_is_the_value(column: ColumnValues, col: int, row: int, logical: Seq<char>, cell: Cell)
    requires
        cell_of(column, col, row, logical) == Ok::<CellModel, Fault>(cell@),
    ensures
        holds_value(cell, column, row),
        logical == "integer"@ ==> cell is I32,
        logical == "long"@ ==> cell is I64,
        logical == "double"@ ==> cell is F64,
        logical == "boolean"@ ==> cell is Bool,
        logical == "string"@ ==> cell is Str,
        logical == "date"@ ==> cell is Date,
        logical == "timestamp"@ ==> cell is Ts,
{
    lemma_type_names();
}

/// A column gives its values exactly to the declared type that it has the values of; every
/// other declared type is refused.
pub proof fn law_declared_type_decides(column: ColumnValues, col: int, row: int)
    ensures
        cell_of(column, col, row, "integer"@) is Ok <==> column is Int32,
        cell_of(column, col, row, "long"@) is Ok <==> column is Int64,
        cell_of(column, col, row, "double"@) is Ok <==> column is Float64,
        cell_of(column, col, row, "boolean"@) is Ok <==> column is Boolean,
        cell_of(column, col, row, "string"@) is Ok <==> column is Utf8,
        cell_of(column, col, row, "date"@) is Ok <==> column is Date32,
        cell_of(column, col, row, "timestamp"@) is Ok <==> column is TimestampMicros,
{
    lemma_type_names();
}

proof fn lemma_cells_hold(cells: Seq<Cell>, batch: Seq<ColumnValues>, columns: Seq<ColumnSpec>, row: int)
    requires
        are_cells(cells, batch, columns, row),
    ensures
        hold_row(cells, batch, columns, row),
{
    assert forall|c: int| 0 <= c < columns.len() implies holds_value(#[trigger] cells[c], batch[c], row) by {
        law_cell_is_the_value(batch[c], c, row, columns[c].ty@, cells[c]);
    }
}

/// An update of a stream of changes writes two rows side by side in one bucket: first the
/// row as it was, under the kind `-U` and its own columns, and behind it the row as it is,
/// under the kind `+U` and the columns of the change. Neither is a tombstone.
pub proof fn law_update_writes_both_images(
    req: DeltaRequest,
    image: RowImage,
    tid: i64,
    bucket: i32,
    first: i64,
    next: DeltaState,
    action: DeltaAction,
)
    requires
        !req.tombstone,
        req.before == Some(image),
        action is Write,
        delta_step(req, DeltaState::Placing { tid, bucket }, DeltaEvent::Reserved { first }, next, action),
    ensures
        action->Write_rows@.len() == 2,
        action->Write_rows@[0] matches DeltaRow::Change { sql, kind, tombstone, bucket: b, offset, cells }
            && kind@ == "-U"@ && !tombstone && b == bucket && offset == first && hold_row(
            cells@,
            image.batch@,
            image.columns@,
            0,
        ) && sql@ == change_text(tid as int, image.columns@),
        action->Write_rows@[1] matches DeltaRow::Change { sql, kind, tombstone, bucket: b, offset, cells }
            && kind@ == "+U"@ && !tombstone && b == bucket && offset == first + 1 && hold_row(
            cells@,
            req.batch@,
            req.columns@,
            0,
        ) && sql@ == change_text(tid as int, req.columns@),
{
    let rows = action->Write_rows@;
    match rows[0] {
        DeltaRow::Change { cells, .. } => {
            lemma_cells_hold(cells@, image.batch@, image.columns@, 0);
        },
        _ => {},
    }
    match rows[1] {
        DeltaRow::Change { cells, .. } => {
            lemma_cells_hold(cells@, req.batch@, req.columns@, 0);
        },
        _ => {},
    }
}

/// A removal from a stream of changes writes one row, the row as it was, under the kind
/// `-D` and as a tombstone.
pub proof fn law_removal_writes_the_row_as_it_was(
    req: DeltaRequest,
    image: RowImage,
    tid: i64,
    bucket: i32,
    first: i64,
    next: DeltaState,
    action: DeltaAction,
)
    requires
        req.tombstone,
        req.before == Some(image),
        action is Write,
        delta_step(req, DeltaState::Placing { tid, bucket }, DeltaEvent::Reserved { first }, next, action),
    ensures
        action->Write_rows@.len() == 1,
        action->Write_rows@[0] matches DeltaRow::Change { sql, kind, tombstone, bucket: b, offset, cells }
            && kind@ == "-D"@ && tombstone && b == bucket && offset == first && hold_row(
            cells@,
            image.batch@,
            image.columns@,
            0,
        ) && sql@ == change_text(tid as int, image.columns@),
{
    match action->Write_rows@[0] {
        DeltaRow::Change { cells, .. } => {
            lemma_cells_hold(cells@, image.batch@, image.columns@, 0);
        },
        _ => {},
    }
}

/// Where the table is no stream of changes, an update writes one new version, the values of
/// the change, and a removal one tombstone of the identity. No offsets are reserved.
pub proof fn law_plain_change_writes_one_row(
    req: DeltaRequest,
    tid: i64,
    id: Cell,
    kind: Option<StreamKind>,
    bucket_count: i32,
    next: DeltaState,
    action: DeltaAction,
)
    requires
        kind != Some(StreamKind::Cdc),
        delta_step(
            req,
            DeltaState::Making { tid, id },
            DeltaEvent::Snapshotted { kind, bucket_count },
            next,
            action,
        ),
    ensures
        req.tombstone ==> (action matches DeltaAction::Write { rows } && rows@.len() == 1 && (
        rows@[0] matches DeltaRow::Tombstone { sql, id: gone } && gone@ == id@)),
        !req.tombstone && action is Write ==> action->Write_rows@.len() == 1 && (
        action->Write_rows@[0] matches DeltaRow::Version { sql, cells } && hold_row(
            cells@,
            req.batch@,
            req.columns@,
            0,
        )),
        action is Write || action is Fail,
        action is Write ==> next == (DeltaState::Writing { cdc: false }),
{
    if !req.tombstone && action is Write {
        match action->Write_rows@[0] {
            DeltaRow::Version { cells, .. } => {
                lemma_cells_hold(cells@, req.batch@, req.columns@, 0);
            },
            _ => {},
        }
    }
}

/// A change of a stream of changes needs the row as it was, and reserves a place for each
/// row that it is going to write, all in one bucket of the table.
pub proof fn law_change_reserves_its_places(
    req: DeltaRequest,
    tid: i64,
    id: Cell,
    bucket_count: i32,
    next: DeltaState,
    action: DeltaAction,
)
    requires
        delta_step(
            req,
            DeltaState::Making { tid, id },
            DeltaEvent::Snapshotted { kind: Some(StreamKind::Cdc), bucket_count },
            next,
            action,
        ),
    ensures
        action is Reserve <==> bucket_count >= 1 && req.before is Some,
        action is Reserve || action is Fail,
        action matches DeltaAction::Reserve { bucket, count } ==> {
            &&& 0 <= bucket < bucket_count
            &&& count == (if req.tombstone {
                1int
            } else {
                2int
            })
            &&& next == (DeltaState::Placing { tid, bucket })
        },
{
    if bucket_count >= 1 && req.before is Some {
        crate::inline_cells::law_bucket_in_range(id@, bucket_count as int);
    }
}

/// The identity of a row is the value that the batch has under the identity's name, the
/// first of that name, and it is there wherever both the columns and the batch know it.
pub proof fn law_identity_is_found_by_name(
    columns: Seq<ColumnSpec>,
    id_column: Seq<char>,
    names: Seq<String>,
    batch: Seq<ColumnValues>,
    p: int,
    cell: Cell,
)
    requires
        identity_in(columns, id_column, names, batch) == Ok::<CellModel, Fault>(cell@),
        0 <= p < names.len(),
        names[p]@ == id_column,
        forall|q: int| 0 <= q < p ==> (#[trigger] names[q])@ != id_column,
    ensures
        holds_value(cell, batch[p], 0),
        exists|i: int| 0 <= i < columns.len() && (#[trigger] columns[i]).name@ == id_column,
{
    lemma_name_place(names, id_column, 0, p);
    lemma_place_of(columns, id_column, 0);
    let i = place_of(columns, id_column, 0)->0;
    law_cell_is_the_value(batch[p], p, 0, columns[i].ty@, cell);
}

proof fn lemma_name_place(names: Seq<String>, name: Seq<char>, from: int, p: int)
    requires
        0 <= from <= p < names.len(),
        names[p]@ == name,
        forall|q: int| from <= q < p ==> (#[trigger] names[q])@ != name,
    ensures
        name_place(names, name, from) == Some(p),
    decreases p - from,
{
    if from < p {
        assert(names[from]@ != name);
        lemma_name_place(names, name, from + 1, p);
    }
}

proof fn lemma_place_of(columns: Seq<ColumnSpec>, name: Seq<char>, from: int)
    requires
        from >= 0,
    ensures
        place_of(columns, name, from) matches Some(i) ==> from <= i < columns.len() && columns[i].name@ == name,
    decreases columns.len() - from,
{
    if from < columns.len() && columns[from].name@ != name {
        lemma_place_of(columns, name, from + 1);
    }
}

/// A change whose rows fit the declared types goes through; one is refused only where some
/// value is not of its declared type.
pub proof fn law_typed_change_is_written(req: DeltaRequest, image: RowImage)
    requires
        req.before == Some(image),
        forall|c: int|
            0 <= c < image.columns@.len() ==> (#[trigger] cell_of(image.batch@[c], c, 0, image.columns@[c].ty@)) is Ok,
        req.tombstone || forall|c: int|
            0 <= c < req.columns@.len() ==> (#[trigger] cell_of(req.batch@[c], c, 0, req.columns@[c].ty@)) is Ok,
    ensures
        change_fault(req) is None,
{
    lemma_no_bad_cell(image.batch@, image.columns@, 0);
    if !req.tombstone {
        lemma_no_bad_cell(req.batch@, req.columns@, 0);
    }
}

proof fn lemma_no_bad_cell(batch: Seq<ColumnValues>, columns: Seq<ColumnSpec>, c: int)
    requires
        0 <= c <= columns.len(),
        forall|i: int| 0 <= i < columns.len() ==> (#[trigger] cell_of(batch[i], i, 0, columns[i].ty@)) is Ok,
    ensures
        first_bad_cell(batch, columns, 1, 0, c) is None,
    decreases columns.len() - c,
{
    if c < columns.len() {
        assert(cell_of(batch[c], c, 0, columns[c].ty@) is Ok);
        lemma_no_bad_cell(batch, columns, c + 1);
    } else {
        assert(first_bad_cell(batch, columns, 1, 1, 0) is None);
    }
}

/// Where the storage is there, a read asks for the columns of the table in their order,
/// from its own storage, for the rows that began at the snapshot or before and had not
/// ended at it, oldest first. The full read asks for nothing less; the read of the current
/// state leaves out, besides, the rows as they were before a change.
pub proof fn law_full_read_asks_for_every_live_row(
    at: i64,
    tid: i64,
    columns: Vec<ColumnSpec>,
    resolved: Vec<Option<BaseType>>,
    current: (ReadState, ReadAction),
    full: (ReadState, ReadAction),
)
    requires
        read_step(
            ReadMode::Current,
            at,
            ReadState::Describing { tid },
            ReadEvent::ColumnsRead { columns, resolved },
            current.0,
            current.1,
        ),
        read_step(
            ReadMode::Full,
            at,
            ReadState::Describing { tid },
            ReadEvent::ColumnsRead { columns, resolved },
            full.0,
            full.1,
        ),
    ensures
        full.1 matches ReadAction::Query { sql } && sql@ == "select loom_row_id, "@ + column_names(
            columns@,
        ) + " from "@ + ("iceberg_mirror.inline_"@ + int_text(tid as int)) + " where "@ + (
        "begin_snapshot <= "@ + int_text(at as int)
            + " and (end_snapshot is null or end_snapshot > "@ + int_text(at as int) + ")"@)
            + " order by loom_row_id"@,
        current.1 matches ReadAction::Query { sql } && sql@ == "select loom_row_id, "@
            + column_names(columns@) + " from "@ + ("iceberg_mirror.inline_"@ + int_text(tid as int))
            + " where "@ + ("begin_snapshot <= "@ + int_text(at as int)
            + " and (end_snapshot is null or end_snapshot > "@ + int_text(at as int) + ")"@)
            + " and (loom_change_kind is null or loom_change_kind <> '-U')"@
            + " order by loom_row_id"@,
        full.1->sql@ != current.1->sql@,
        full.0 == current.0,
{
    reveal_strlit(" and (loom_change_kind is null or loom_change_kind <> '-U')");
    assert(current.1->sql@.len() == full.1->sql@.len()
        + " and (loom_change_kind is null or loom_change_kind <> '-U')"@.len());
}

/// The read for the shadow asks, besides, when each row began and whether it is a
/// tombstone; it leaves out none that is live.
pub proof fn law_shadow_read_asks_for_the_framing(
    at: i64,
    tid: i64,
    columns: Vec<ColumnSpec>,
    resolved: Vec<Option<BaseType>>,
    next: ReadState,
    action: ReadAction,
)
    requires
        read_step(
            ReadMode::Shadow,
            at,
            ReadState::Describing { tid },
            ReadEvent::ColumnsRead { columns, resolved },
            next,
            action,
        ),
    ensures
        action matches ReadAction::Query { sql } && sql@
            == "select loom_row_id, begin_snapshot, loom_tombstone, "@ + column_names(columns@)
            + " from "@ + ("iceberg_mirror.inline_"@ + int_text(tid as int)) + " where "@ + (
        "begin_snapshot <= "@ + int_text(at as int)
            + " and (end_snapshot is null or end_snapshot > "@ + int_text(at as int) + ")"@)
            + " order by loom_row_id"@,
        next == (ReadState::Querying { tid, columns, resolved }),
{
}

/// The rows that come back are decoded under the names, the types and the nullability of
/// the columns, in their order, each from the place where the question asked for it: behind
/// the number of the row, and, for the shadow, behind its framing.
pub proof fn law_fields_are_the_columns(
    mode: ReadMode,
    at: i64,
    tid: i64,
    columns: Vec<ColumnSpec>,
    resolved: Vec<Option<BaseType>>,
    rows: usize,
    next: ReadState,
    action: ReadAction,
    i: int,
)
    requires
        action is Decode,
        0 <= i < columns@.len(),
        read_step(
            mode,
            at,
            ReadState::Querying { tid, columns, resolved },
            ReadEvent::Queried { rows },
            next,
            action,
        ),
    ensures
        rows > 0,
        action->Decode_tid == tid,
        ({
            let f = action->fields@[i];
            &&& f.name@ == columns@[i].name@
            &&& resolved@[i] == Some(f.ty)
            &&& f.nullable == columns@[i].nullable
            &&& f.place == i + (if mode is Shadow {
                3int
            } else {
                1int
            })
        }),
        mode is Shadow ==> action->fields@.len() == columns@.len() + 2,
        !(mode is Shadow) ==> action->fields@.len() == columns@.len(),
        mode is Shadow ==> {
            let (began, gone) = (
                action->fields@[columns@.len() as int],
                action->fields@[columns@.len() + 1int],
            );
            &&& began.name@ == "begin_snapshot"@ && began.ty == BaseType::Long && began.place == 1
            &&& gone.name@ == "loom_tombstone"@ && gone.ty == BaseType::Boolean && gone.place == 2
        },
{
    assert(crate::inline_read::is_field(
        action->fields@[i],
        columns@[i],
        resolved@[i],
        i + crate::inline_read::first_place(mode),
    ));
}

/// A table that is not there, or has no storage, or has no live row, gives nothing to
/// read; none of that is an error.
pub proof fn law_absent_rows_are_no_error(
    mode: ReadMode,
    at: i64,
    state: ReadState,
    event: ReadEvent,
    next: ReadState,
    action: ReadAction,
)
    requires
        read_step(mode, at, state, event, next, action),
        ({
            ||| state is Locating && event == (ReadEvent::Located { tid: None })
            ||| state is Checking && event == (ReadEvent::StorageChecked { exists: false })
            ||| state is Querying && event == (ReadEvent::Queried { rows: 0 })
        }),
    ensures
        action is Nothing,
        next is Done,
{
}

/// Columns are listed in their order, each quoted, with a comma and a space between two.
pub proof fn law_columns_are_listed_in_order(columns: Seq<ColumnSpec>, c: ColumnSpec)
    ensures
        column_names(seq![c]) == quoted(c.name@),
        columns.len() > 0 ==> column_names(columns.push(c)) == column_names(columns) + ", "@ + quoted(
            c.name@,
        ),
{
    let one = quoted_names(seq![c]);
    assert(one =~= seq![quoted(c.name@)]);
    if columns.len() > 0 {
        let all = quoted_names(columns.push(c));
        assert(all.drop_last() =~= quoted_names(columns));
        assert(all.last() == quoted(c.name@));
    }
}

/// The parameters of a statement are numbered one after the other, from the first.
pub proof fn law_parameters_are_consecutive(count: nat, first: nat)
    ensures
        parameters(1, first) == "$"@ + nat_text(first),
        count > 0 ==> parameters(count + 1, first) == parameters(count, first) + ", "@ + ("$"@ + nat_text(
            first + count,
        )),
{
    let part = |i: int| "$"@ + nat_text((i + first) as nat);
    let one = Seq::new(1, part);
    assert(joined(one, ", "@) == one[0]);
    if count > 0 {
        let all = Seq::new(count + 1, part);
        assert(all.drop_last() =~= Seq::new(count, part));
    }
}

} // verus!
