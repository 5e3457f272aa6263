//! Columns of a batch, put together from the typed values of inline rows.
use crate::iceberg_type::BaseType;
use crate::inline_cells::{cell_of, copy_u32s, within_calendar, Cell, CellModel, ColumnValues};
use crate::error::Fault;
use vstd::prelude::*;

verus! {

/// A value is of a type.
pub open spec fn typed(c: CellModel, ty: BaseType) -> bool {
    match ty {
        BaseType::Integer => c is I32,
        BaseType::Long => c is I64,
        BaseType::Double => c is F64,
        BaseType::Boolean => c is Bool,
        BaseType::String => c is Str,
        BaseType::Date => c is Date,
        BaseType::Timestamp => c is Ts,
        BaseType::Vector(_) => c is Vec,
    }
}

/// The value of a column at a row; of a column that no inline row can take, a missing
/// one.
pub open spec fn value_at(column: ColumnValues, row: int) -> CellModel {
    match column {
        ColumnValues::Int32(v) => CellModel::I32(v@[row]),
        ColumnValues::Int64(v) => CellModel::I64(v@[row]),
        ColumnValues::Float64(v) => CellModel::F64(v@[row]),
        ColumnValues::Boolean(v) => CellModel::Bool(v@[row]),
        ColumnValues::Utf8(v) => CellModel::Str(
            match v@[row] {
                Some(s) => Some(s@),
                None => None,
            },
        ),
        ColumnValues::Date32(v) => CellModel::Date(v@[row]),
        ColumnValues::TimestampMicros(v) => CellModel::Ts(v@[row]),
        ColumnValues::Float32List(v) => CellModel::Vec(
            match v@[row] {
                Some(x) => Some(x@),
                None => None,
            },
        ),
        _ => CellModel::Vec(None),
    }
}

/// The column is one that holds values of a type.
pub open spec fn column_typed(column: ColumnValues, ty: BaseType) -> bool {
    match ty {
        BaseType::Integer => column is Int32,
        BaseType::Long => column is Int64,
        BaseType::Double => column is Float64,
        BaseType::Boolean => column is Boolean,
        BaseType::String => column is Utf8,
        BaseType::Date => column is Date32,
        BaseType::Timestamp => column is TimestampMicros,
        BaseType::Vector(_) => column is Float32List,
    }
}

/// A column of a type holds these values.
pub open spec fn column_holds(column: ColumnValues, cells: Seq<Cell>, ty: BaseType) -> bool {
    &&& column_typed(column, ty)
    &&& column.count() == cells.len()
    &&& forall|i: int| 0 <= i < cells.len() ==> value_at(column, i) == (#[trigger] cells[i])@
}

/// Every value is of the type.
pub open spec fn all_typed(cells: Seq<Cell>, ty: BaseType) -> bool {
    forall|i: int| 0 <= i < cells.len() ==> typed((#[trigger] cells[i])@, ty)
}

fn int32s(cells: &Vec<Cell>) -> (r: Option<Vec<Option<i32>>>)
    ensures
        match r {
            Some(v) => column_holds(ColumnValues::Int32(v), cells@, BaseType::Integer),
            None => !all_typed(cells@, BaseType::Integer),
        },
{
    let mut out: Vec<Option<i32>> = Vec::new();
    let mut i: usize = 0;
    while i < cells.len()
        invariant
            i <= cells@.len(),
            out@.len() == i,
            forall|j: int| 0 <= j < i ==> CellModel::I32(out@[j]) == (#[trigger] cells@[j])@,
        decreases cells@.len() - i,
    {
        match &cells[i] {
            Cell::I32(v) => out.push(*v),
            _ => {
                assert(!typed(cells@[i as int]@, BaseType::Integer));
                return None;
            },
        }
        i = i + 1;
    }
    Some(out)
}

fn int64s(cells: &Vec<Cell>) -> (r: Option<Vec<Option<i64>>>)
    ensures
        match r {
            Some(v) => column_holds(ColumnValues::Int64(v), cells@, BaseType::Long),
            None => !all_typed(cells@, BaseType::Long),
        },
{
    let mut out: Vec<Option<i64>> = Vec::new();
    let mut i: usize = 0;
    while i < cells.len()
        invariant
            i <= cells@.len(),
            out@.len() == i,
            forall|j: int| 0 <= j < i ==> CellModel::I64(out@[j]) == (#[trigger] cells@[j])@,
        decreases cells@.len() - i,
    {
        match &cells[i] {
            Cell::I64(v) => out.push(*v),
            _ => {
                assert(!typed(cells@[i as int]@, BaseType::Long));
                return None;
            },
        }
        i = i + 1;
    }
    Some(out)
}

fn float64s(cells: &Vec<Cell>) -> (r: Option<Vec<Option<u64>>>)
    ensures
        match r {
            Some(v) => column_holds(ColumnValues::Float64(v), cells@, BaseType::Double),
            None => !all_typed(cells@, BaseType::Double),
        },
{
    let mut out: Vec<Option<u64>> = Vec::new();
    let mut i: usize = 0;
    while i < cells.len()
        invariant
            i <= cells@.len(),
            out@.len() == i,
            forall|j: int| 0 <= j < i ==> CellModel::F64(out@[j]) == (#[trigger] cells@[j])@,
        decreases cells@.len() - i,
    {
        match &cells[i] {
            Cell::F64(v) => out.push(*v),
            _ => {
                assert(!typed(cells@[i as int]@, BaseType::Double));
                return None;
            },
        }
        i = i + 1;
    }
    Some(out)
}

fn booleans(cells: &Vec<Cell>) -> (r: Option<Vec<Option<bool>>>)
    ensures
        match r {
            Some(v) => column_holds(ColumnValues::Boolean(v), cells@, BaseType::Boolean),
            None => !all_typed(cells@, BaseType::Boolean),
        },
{
    let mut out: Vec<Option<bool>> = Vec::new();
    let mut i: usize = 0;
    while i < cells.len()
        invariant
            i <= cells@.len(),
            out@.len() == i,
            forall|j: int| 0 <= j < i ==> CellModel::Bool(out@[j]) == (#[trigger] cells@[j])@,
        decreases cells@.len() - i,
    {
        match &cells[i] {
            Cell::Bool(v) => out.push(*v),
            _ => {
                assert(!typed(cells@[i as int]@, BaseType::Boolean));
                return None;
            },
        }
        i = i + 1;
    }
    Some(out)
}

fn dates(cells: &Vec<Cell>) -> (r: Option<Vec<Option<i32>>>)
    ensures
        match r {
            Some(v) => column_holds(ColumnValues::Date32(v), cells@, BaseType::Date),
            None => !all_typed(cells@, BaseType::Date),
        },
{
    let mut out: Vec<Option<i32>> = Vec::new();
    let mut i: usize = 0;
    while i < cells.len()
        invariant
            i <= cells@.len(),
            out@.len() == i,
            forall|j: int| 0 <= j < i ==> CellModel::Date(out@[j]) == (#[trigger] cells@[j])@,
        decreases cells@.len() - i,
    {
        match &cells[i] {
            Cell::Date(v) => out.push(*v),
            _ => {
                assert(!typed(cells@[i as int]@, BaseType::Date));
                return None;
            },
        }
        i = i + 1;
    }
    Some(out)
}

fn timestamps(cells: &Vec<Cell>) -> (r: Option<Vec<Option<i64>>>)
    ensures
        match r {
            Some(v) => column_holds(ColumnValues::TimestampMicros(v), cells@, BaseType::Timestamp),
            None => !all_typed(cells@, BaseType::Timestamp),
        },
{
    let mut out: Vec<Option<i64>> = Vec::new();
    let mut i: usize = 0;
    while i < cells.len()
        invariant
            i <= cells@.len(),
            out@.len() == i,
            forall|j: int| 0 <= j < i ==> CellModel::Ts(out@[j]) == (#[trigger] cells@[j])@,
        decreases cells@.len() - i,
    {
        match &cells[i] {
            Cell::Ts(v) => out.push(*v),
            _ => {
                assert(!typed(cells@[i as int]@, BaseType::Timestamp));
                return None;
            },
        }
        i = i + 1;
    }
    Some(out)
}

fn texts_of(cells: &Vec<Cell>) -> (r: Option<Vec<Option<String>>>)
    ensures
        match r {
            Some(v) => column_holds(ColumnValues::Utf8(v), cells@, BaseType::String),
            None => !all_typed(cells@, BaseType::String),
        },
{
    let mut out: Vec<Option<String>> = Vec::new();
    let mut i: usize = 0;
    while i < cells.len()
        invariant
            i <= cells@.len(),
            out@.len() == i,
            forall|j: int|
                0 <= j < i ==> CellModel::Str(
                    match out@[j] {
                        Some(s) => Some(s@),
                        None => None,
                    },
                ) == (#[trigger] cells@[j])@,
        decreases cells@.len() - i,
    {
        match &cells[i] {
            Cell::Str(v) => out.push(
                match v {
                    Some(s) => Some(s.clone()),
                    None => None,
                },
            ),
            _ => {
                assert(!typed(cells@[i as int]@, BaseType::String));
                return None;
            },
        }
        i = i + 1;
    }
    Some(out)
}

fn vectors(cells: &Vec<Cell>, n: u32) -> (r: Option<Vec<Option<Vec<u32>>>>)
    ensures
        match r {
            Some(v) => column_holds(ColumnValues::Float32List(v), cells@, BaseType::Vector(n)),
            None => !all_typed(cells@, BaseType::Vector(n)),
        },
{
    let mut out: Vec<Option<Vec<u32>>> = Vec::new();
    let mut i: usize = 0;
    while i < cells.len()
        invariant
            i <= cells@.len(),
            out@.len() == i,
            forall|j: int|
                0 <= j < i ==> CellModel::Vec(
                    match out@[j] {
                        Some(x) => Some(x@),
                        None => None,
                    },
                ) == (#[trigger] cells@[j])@,
        decreases cells@.len() - i,
    {
        match &cells[i] {
            Cell::Vec(v) => out.push(
                match v {
                    Some(x) => Some(copy_u32s(x)),
                    None => None,
                },
            ),
            _ => {
                assert(!typed(cells@[i as int]@, BaseType::Vector(n)));
                return None;
            },
        }
        i = i + 1;
    }
    Some(out)
}

/// The column of a type that holds these values, row by row; nothing where one of them
/// is of another type.
pub fn column_array(cells: &Vec<Cell>, ty: BaseType) -> (r: Option<ColumnValues>)
    ensures
        match r {
            Some(column) => all_typed(cells@, ty) && column_holds(column, cells@, ty),
            None => !all_typed(cells@, ty),
        },
{
    let column: Option<ColumnValues> = match ty {
        BaseType::Integer => match int32s(cells) {
            Some(v) => Some(ColumnValues::Int32(v)),
            None => None,
        },
        BaseType::Long => match int64s(cells) {
            Some(v) => Some(ColumnValues::Int64(v)),
            None => None,
        },
        BaseType::Double => match float64s(cells) {
            Some(v) => Some(ColumnValues::Float64(v)),
            None => None,
        },
        BaseType::Boolean => match booleans(cells) {
            Some(v) => Some(ColumnValues::Boolean(v)),
            None => None,
        },
        BaseType::String => match texts_of(cells) {
            Some(v) => Some(ColumnValues::Utf8(v)),
            None => None,
        },
        BaseType::Date => match dates(cells) {
            Some(v) => Some(ColumnValues::Date32(v)),
            None => None,
        },
        BaseType::Timestamp => match timestamps(cells) {
            Some(v) => Some(ColumnValues::TimestampMicros(v)),
            None => None,
        },
        BaseType::Vector(n) => match vectors(cells, n) {
            Some(v) => Some(ColumnValues::Float32List(v)),
            None => None,
        },
    };
    proof {
        if column is Some {
            let c = column->0;
            assert forall|i: int| 0 <= i < cells@.len() implies typed((#[trigger] cells@[i])@, ty) by {
                assert(value_at(c, i) == cells@[i]@);
            }
        }
    }
    column
}

/// What is read from inline storage as a column, and written to inline storage again,
/// is the same values, where the timestamps are of the calendar.
pub proof fn law_inline_values_read_back(
    column: ColumnValues,
    cells: Seq<Cell>,
    ty: BaseType,
    col: int,
    row: int,
)
    requires
        column_holds(column, cells, ty),
        0 <= row < cells.len(),
        cells[row]@ matches CellModel::Ts(Some(m)) ==> within_calendar(m) == m,
    ensures
        cell_of(column, col, row, ty.name()) == Ok::<CellModel, Fault>(cells[row]@),
{
    reveal_strlit("integer");
    reveal_strlit("long");
    reveal_strlit("double");
    reveal_strlit("boolean");
    reveal_strlit("string");
    reveal_strlit("date");
    reveal_strlit("timestamp");
    reveal_strlit("vector(");
    reveal_strlit(")");
    assert(value_at(column, row) == cells[row]@);
    let name = ty.name();
    match ty {
        BaseType::Vector(n) => {
            assert(name[0] == 'v');
            assert("integer"@[0] == 'i' && "long"@[0] == 'l' && "double"@[0] == 'd');
            assert("boolean"@[0] == 'b' && "string"@[0] == 's' && "date"@[0] == 'd');
            assert("timestamp"@[0] == 't');
            assert(name.take(7) =~= "vector("@);
        },
        BaseType::Double => {
            assert("double"@.len() != "integer"@.len() && "double"@.len() != "long"@.len());
        },
        BaseType::Boolean => {
            assert("boolean"@[0] != "integer"@[0]);
        },
        BaseType::String => {
            assert("string"@[0] != "double"@[0]);
        },
        BaseType::Date => {
            assert("date"@[0] != "long"@[0]);
        },
        _ => {},
    }
}

} // verus!
