//! The typed values of inline rows, how they are taken from a column of a batch, and
//! the keys and buckets that identities hash to.
use crate::ambient::{in_calendar, CALENDAR_END, FIRST_INSTANT};
use crate::error::{ControlPlaneError, Fault};
use crate::key::str_same;
use crate::text::{begins_with, concat, i64_text, int_text, starts_with, usize_text};
use crate::words::{debug_of, debug_text};
use std::collections::hash_map::DefaultHasher;
use std::hash::{Hash, Hasher};
use vstd::bytes::{spec_u32_to_le_bytes, spec_u64_to_le_bytes, u32_to_le_bytes, u64_to_le_bytes};
use vstd::prelude::*;
use vstd::std_specs::hash::DefaultHasherAdditionalSpecFns;
use vstd::string::StringExecFns;
use vstd::utf8::encode_utf8;

verus! {

/// One typed value of an inline row; nothing where the value is missing. Numbers in
/// floating point are held by their bits, a date as the days and a timestamp as the
/// microseconds since the first of January 1970.
#[derive(Debug)]
pub enum Cell {
    I32(Option<i32>),
    I64(Option<i64>),
    F64(Option<u64>),
    Bool(Option<bool>),
    Str(Option<String>),
    Date(Option<i32>),
    Ts(Option<i64>),
    Vec(Option<Vec<u32>>),
}

/// A value of an inline row, by what it holds.
pub enum CellModel {
    I32(Option<i32>),
    I64(Option<i64>),
    F64(Option<u64>),
    Bool(Option<bool>),
    Str(Option<Seq<char>>),
    Date(Option<i32>),
    Ts(Option<i64>),
    Vec(Option<Seq<u32>>),
}

impl View for Cell {
    type V = CellModel;

    open spec fn view(&self) -> CellModel {
        match self {
            Cell::I32(v) => CellModel::I32(*v),
            Cell::I64(v) => CellModel::I64(*v),
            Cell::F64(v) => CellModel::F64(*v),
            Cell::Bool(v) => CellModel::Bool(*v),
            Cell::Str(v) => CellModel::Str(
                match v {
                    Some(s) => Some(s@),
                    None => None,
                },
            ),
            Cell::Date(v) => CellModel::Date(*v),
            Cell::Ts(v) => CellModel::Ts(*v),
            Cell::Vec(v) => CellModel::Vec(
                match v {
                    Some(x) => Some(x@),
                    None => None,
                },
            ),
        }
    }
}

/// The value is missing.
pub open spec fn missing(c: CellModel) -> bool {
    match c {
        CellModel::I32(v) => v is None,
        CellModel::I64(v) => v is None,
        CellModel::F64(v) => v is None,
        CellModel::Bool(v) => v is None,
        CellModel::Str(v) => v is None,
        CellModel::Date(v) => v is None,
        CellModel::Ts(v) => v is None,
        CellModel::Vec(v) => v is None,
    }
}

impl Cell {
    /// A copy of the value.
    pub fn duplicate(&self) -> (r: Self)
        ensures
            r@ == self@,
    {
        match self {
            Cell::I32(v) => Cell::I32(*v),
            Cell::I64(v) => Cell::I64(*v),
            Cell::F64(v) => Cell::F64(*v),
            Cell::Bool(v) => Cell::Bool(*v),
            Cell::Str(v) => Cell::Str(
                match v {
                    Some(t) => Some(t.clone()),
                    None => None,
                },
            ),
            Cell::Date(v) => Cell::Date(*v),
            Cell::Ts(v) => Cell::Ts(*v),
            Cell::Vec(v) => Cell::Vec(
                match v {
                    Some(x) => Some(copy_u32s(x)),
                    None => None,
                },
            ),
        }
    }

    /// Whether the value is missing.
    pub fn is_null(&self) -> (r: bool)
        ensures
            r == missing(self@),
    {
        match self {
            Cell::I32(v) => v.is_none(),
            Cell::I64(v) => v.is_none(),
            Cell::F64(v) => v.is_none(),
            Cell::Bool(v) => v.is_none(),
            Cell::Str(v) => v.is_none(),
            Cell::Date(v) => v.is_none(),
            Cell::Ts(v) => v.is_none(),
            Cell::Vec(v) => v.is_none(),
        }
    }
}

/// The values of one column of a batch. Numbers in floating point are held by their
/// bits. Of a column that no inline row can take, only which values are missing is
/// held.
#[derive(Debug)]
pub enum ColumnValues {
    Int32(Vec<Option<i32>>),
    Int64(Vec<Option<i64>>),
    Float64(Vec<Option<u64>>),
    Boolean(Vec<Option<bool>>),
    Utf8(Vec<Option<String>>),
    Date32(Vec<Option<i32>>),
    TimestampMicros(Vec<Option<i64>>),
    Float32List(Vec<Option<Vec<u32>>>),
    OtherList(Vec<bool>),
    Other(Vec<bool>),
}

impl ColumnValues {
    /// How many values there are.
    pub open spec fn count(self) -> nat {
        match self {
            ColumnValues::Int32(v) => v@.len(),
            ColumnValues::Int64(v) => v@.len(),
            ColumnValues::Float64(v) => v@.len(),
            ColumnValues::Boolean(v) => v@.len(),
            ColumnValues::Utf8(v) => v@.len(),
            ColumnValues::Date32(v) => v@.len(),
            ColumnValues::TimestampMicros(v) => v@.len(),
            ColumnValues::Float32List(v) => v@.len(),
            ColumnValues::OtherList(v) => v@.len(),
            ColumnValues::Other(v) => v@.len(),
        }
    }

    /// The value at `row` is missing.
    pub open spec fn missing_at(self, row: int) -> bool {
        match self {
            ColumnValues::Int32(v) => v@[row] is None,
            ColumnValues::Int64(v) => v@[row] is None,
            ColumnValues::Float64(v) => v@[row] is None,
            ColumnValues::Boolean(v) => v@[row] is None,
            ColumnValues::Utf8(v) => v@[row] is None,
            ColumnValues::Date32(v) => v@[row] is None,
            ColumnValues::TimestampMicros(v) => v@[row] is None,
            ColumnValues::Float32List(v) => v@[row] is None,
            ColumnValues::OtherList(v) => v@[row],
            ColumnValues::Other(v) => v@[row],
        }
    }

    fn is_missing(&self, row: usize) -> (r: bool)
        requires
            row < self.count(),
        ensures
            r == self.missing_at(row as int),
    {
        match self {
            ColumnValues::Int32(v) => v[row].is_none(),
            ColumnValues::Int64(v) => v[row].is_none(),
            ColumnValues::Float64(v) => v[row].is_none(),
            ColumnValues::Boolean(v) => v[row].is_none(),
            ColumnValues::Utf8(v) => v[row].is_none(),
            ColumnValues::Date32(v) => v[row].is_none(),
            ColumnValues::TimestampMicros(v) => v[row].is_none(),
            ColumnValues::Float32List(v) => v[row].is_none(),
            ColumnValues::OtherList(v) => v[row],
            ColumnValues::Other(v) => v[row],
        }
    }
}

/// The first day that can be written down: the first of January of the year -9999.
pub const FIRST_DAY: i32 = -4_371_587;

/// The last day that can be written down: the last of December of the year 9999.
pub const LAST_DAY: i32 = 2_932_896;

/// The microseconds of a timestamp that the calendar has, or zero.
pub open spec fn within_calendar(micros: i64) -> i64 {
    if in_calendar(micros * 1000) {
        micros
    } else {
        0
    }
}

/// The refusal of a column whose values are not of the declared type.
pub open spec fn mistyped(col: int, logical: Seq<char>, expected: Seq<char>) -> Fault {
    Fault::Validation(
        "inline: column "@ + int_text(col) + " is not the declared "@ + logical + " (expected "@
            + expected + ")"@,
    )
}

/// The value at `row` of the column numbered `col`, declared as `logical`.
pub open spec fn cell_of(column: ColumnValues, col: int, row: int, logical: Seq<char>) -> Result<
    CellModel,
    Fault,
> {
    if logical == "integer"@ {
        match column {
            ColumnValues::Int32(v) => Ok(CellModel::I32(v@[row])),
            _ => Err(mistyped(col, logical, "Int32Array"@)),
        }
    } else if logical == "long"@ {
        match column {
            ColumnValues::Int64(v) => Ok(CellModel::I64(v@[row])),
            _ => Err(mistyped(col, logical, "Int64Array"@)),
        }
    } else if logical == "double"@ {
        match column {
            ColumnValues::Float64(v) => Ok(CellModel::F64(v@[row])),
            _ => Err(mistyped(col, logical, "Float64Array"@)),
        }
    } else if logical == "boolean"@ {
        match column {
            ColumnValues::Boolean(v) => Ok(CellModel::Bool(v@[row])),
            _ => Err(mistyped(col, logical, "BooleanArray"@)),
        }
    } else if logical == "string"@ {
        match column {
            ColumnValues::Utf8(v) => Ok(
                CellModel::Str(
                    match v@[row] {
                        Some(s) => Some(s@),
                        None => None,
                    },
                ),
            ),
            _ => Err(mistyped(col, logical, "StringArray"@)),
        }
    } else if logical == "date"@ {
        match column {
            ColumnValues::Date32(v) => Ok(CellModel::Date(v@[row])),
            _ => Err(mistyped(col, logical, "Date32Array"@)),
        }
    } else if logical == "timestamp"@ {
        match column {
            ColumnValues::TimestampMicros(v) => Ok(
                CellModel::Ts(
                    match v@[row] {
                        Some(m) => Some(within_calendar(m)),
                        None => None,
                    },
                ),
            ),
            _ => Err(mistyped(col, logical, "TimestampMicrosecondArray"@)),
        }
    } else if starts_with(logical, "vector("@) {
        if column.missing_at(row) {
            Ok(CellModel::Vec(None))
        } else {
            match column {
                ColumnValues::Float32List(v) => Ok(
                    CellModel::Vec(
                        match v@[row] {
                            Some(x) => Some(x@),
                            None => None,
                        },
                    ),
                ),
                ColumnValues::OtherList(_) => Err(
                    Fault::Validation("inline vector child is not Float32"@),
                ),
                _ => Err(mistyped(col, logical, "ListArray"@)),
            }
        }
    } else {
        Err(Fault::Backend("inline: unsupported column type "@ + debug_text(logical)))
    }
}

fn mistyped_error(col: usize, logical: &str, expected: &str) -> (r: ControlPlaneError)
    ensures
        r@ == mistyped(col as int, logical@, expected@),
{
    let mut s: String = "inline: column ".to_owned();
    s.append(usize_text(col).as_str());
    s.append(" is not the declared ");
    s.append(logical);
    s.append(" (expected ");
    s.append(expected);
    s.append(")");
    ControlPlaneError::Validation(s)
}

/// A copy of numbers.
pub(crate) fn copy_u32s(v: &Vec<u32>) -> (r: Vec<u32>)
    ensures
        r@ == v@,
{
    let mut out: Vec<u32> = Vec::new();
    let mut i: usize = 0;
    while i < v.len()
        invariant
            i <= v@.len(),
            out@ == v@.take(i as int),
        decreases v@.len() - i,
    {
        out.push(v[i]);
        assert(out@ =~= v@.take(i + 1));
        i = i + 1;
    }
    assert(v@.take(i as int) =~= v@);
    out
}

/// The value at `row` of the column numbered `col`, declared as `logical`. A column
/// whose values are of another type is refused. A timestamp outside the calendar is
/// taken as zero.
pub fn cell_from_arrow(column: &ColumnValues, col: usize, row: usize, logical: &str) -> (r: Result<
    Cell,
    ControlPlaneError,
>)
    requires
        row < column.count(),
        logical@ == "date"@ ==> (*column matches ColumnValues::Date32(v) ==> (v@[row as int] matches Some(
            d,
        ) ==> FIRST_DAY <= d <= LAST_DAY)),
    ensures
        match r {
            Ok(c) => dated(c@) && cell_of(*column, col as int, row as int, logical@) == Ok::<
                CellModel,
                Fault,
            >(c@),
            Err(e) => cell_of(*column, col as int, row as int, logical@) == Err::<CellModel, Fault>(e@),
        },
{
    if str_same(logical, "integer") {
        match column {
            ColumnValues::Int32(v) => Ok(Cell::I32(v[row])),
            _ => Err(mistyped_error(col, logical, "Int32Array")),
        }
    } else if str_same(logical, "long") {
        match column {
            ColumnValues::Int64(v) => Ok(Cell::I64(v[row])),
            _ => Err(mistyped_error(col, logical, "Int64Array")),
        }
    } else if str_same(logical, "double") {
        match column {
            ColumnValues::Float64(v) => Ok(Cell::F64(v[row])),
            _ => Err(mistyped_error(col, logical, "Float64Array")),
        }
    } else if str_same(logical, "boolean") {
        match column {
            ColumnValues::Boolean(v) => Ok(Cell::Bool(v[row])),
            _ => Err(mistyped_error(col, logical, "BooleanArray")),
        }
    } else if str_same(logical, "string") {
        match column {
            ColumnValues::Utf8(v) => Ok(
                Cell::Str(
                    match &v[row] {
                        Some(s) => Some(s.clone()),
                        None => None,
                    },
                ),
            ),
            _ => Err(mistyped_error(col, logical, "StringArray")),
        }
    } else if str_same(logical, "date") {
        match column {
            ColumnValues::Date32(v) => Ok(Cell::Date(v[row])),
            _ => Err(mistyped_error(col, logical, "Date32Array")),
        }
    } else if str_same(logical, "timestamp") {
        match column {
            ColumnValues::TimestampMicros(v) => Ok(
                Cell::Ts(
                    match v[row] {
                        Some(m) => {
                            let nanos: i128 = (m as i128) * 1000;
                            if FIRST_INSTANT <= nanos && nanos < CALENDAR_END {
                                Some(m)
                            } else {
                                Some(0)
                            }
                        },
                        None => None,
                    },
                ),
            ),
            _ => Err(mistyped_error(col, logical, "TimestampMicrosecondArray")),
        }
    } else if begins_with(logical, "vector(") {
        if column.is_missing(row) {
            Ok(Cell::Vec(None))
        } else {
            match column {
                ColumnValues::Float32List(v) => Ok(
                    Cell::Vec(
                        match &v[row] {
                            Some(x) => Some(copy_u32s(x)),
                            None => None,
                        },
                    ),
                ),
                ColumnValues::OtherList(_) => Err(
                    ControlPlaneError::Validation("inline vector child is not Float32".to_owned()),
                ),
                _ => Err(mistyped_error(col, logical, "ListArray")),
            }
        }
    } else {
        Err(
            ControlPlaneError::Backend(
                concat("inline: unsupported column type ", debug_of(logical).as_str()),
            ),
        )
    }
}

/// The microseconds of an instant, in nanoseconds since the first of January 1970,
/// that a column of a batch holds: whole ones, rounded towards zero, and the largest
/// there is where they do not fit.
pub open spec fn column_micros(nanos: int) -> int {
    let micros = if nanos >= 0 {
        nanos / 1000
    } else {
        -((-nanos) / 1000)
    };
    if i64::MIN <= micros <= i64::MAX {
        micros
    } else {
        i64::MAX as int
    }
}

/// The microseconds of an instant that a column of a batch holds.
pub fn timestamp_micros(nanos: i128) -> (r: i64)
    requires
        in_calendar(nanos as int),
    ensures
        r == column_micros(nanos as int),
{
    let micros: i128 = if nanos >= 0 {
        nanos / 1000
    } else {
        -((-nanos) / 1000)
    };
    if -9_223_372_036_854_775_808 <= micros && micros <= 9_223_372_036_854_775_807 {
        micros as i64
    } else {
        9_223_372_036_854_775_807
    }
}

/// A timestamp of the calendar is read back from inline storage as it was written.
pub proof fn law_timestamps_read_back(micros: i64)
    requires
        in_calendar(micros * 1000),
    ensures
        column_micros(within_calendar(micros) * 1000) == micros,
{
    assert((micros * 1000) / 1000 == micros);
    assert((-(micros * 1000)) / 1000 == -micros);
}

/// The bytes that a text adds to a hash: its own, then one that no text has.
pub open spec fn text_writes(t: Seq<char>) -> Seq<Seq<u8>> {
    seq![encode_utf8(t), seq![0xffu8]]
}

/// The bytes of numbers, one behind the other.
pub open spec fn numbers_bytes(v: Seq<u32>) -> Seq<u8>
    decreases v.len(),
{
    if v.len() == 0 {
        Seq::empty()
    } else {
        numbers_bytes(v.drop_last()) + spec_u32_to_le_bytes(v.last())
    }
}

/// The bytes that say whether a value is there.
pub open spec fn presence_writes(present: bool) -> Seq<Seq<u8>> {
    seq![
        spec_u64_to_le_bytes(
            if present {
                1u64
            } else {
                0u64
            },
        ),
    ]
}

/// The Julian day of the first of January 1970.
pub const EPOCH_JULIAN_DAY: i32 = 2_440_588;

/// The bytes that the date with this Julian day adds to a hash.
pub uninterp spec fn date_writes(julian_day: i32) -> Seq<Seq<u8>>;

/// The bytes that the date and the time of day of an instant, in nanoseconds since the
/// first of January 1970, add to a hash.
pub uninterp spec fn moment_writes(nanos: i128) -> Seq<Seq<u8>>;

/// Adds the date with this Julian day to a hash, by the `hash` of `time::Date`, made by
/// `from_julian_day`. Claims that what it adds depends on the day alone; which bytes
/// these are is left unsaid.
#[verifier::external_body]
fn hash_date(h: &mut DefaultHasher, julian_day: i32)
    requires
        FIRST_DAY + EPOCH_JULIAN_DAY <= julian_day <= LAST_DAY + EPOCH_JULIAN_DAY,
    ensures
        final(h)@ == old(h)@ + date_writes(julian_day),
{
    if let Ok(date) = time::Date::from_julian_day(julian_day) {
        date.hash(h);
    }
}

/// Adds the date and the time of day of an instant to a hash, by the `hash` of
/// `time::PrimitiveDateTime`, of the parts of what
/// `time::OffsetDateTime::from_unix_timestamp_nanos` makes. Claims that what it adds
/// depends on the instant alone; which bytes these are is left unsaid.
#[verifier::external_body]
fn hash_moment(h: &mut DefaultHasher, nanos: i128)
    requires
        in_calendar(nanos as int),
    ensures
        final(h)@ == old(h)@ + moment_writes(nanos),
{
    if let Ok(t) = time::OffsetDateTime::from_unix_timestamp_nanos(nanos) {
        time::PrimitiveDateTime::new(t.date(), t.time()).hash(h);
    }
}

/// The calendar has the value, where it is a date or a timestamp.
pub open spec fn dated(c: CellModel) -> bool {
    match c {
        CellModel::Date(Some(d)) => FIRST_DAY <= d <= LAST_DAY,
        CellModel::Ts(Some(m)) => in_calendar(m * 1000),
        _ => true,
    }
}

/// The bytes that an identity adds to a hash: a tag for its type, whether it is
/// there, and its value.
pub open spec fn cell_writes(c: CellModel) -> Seq<Seq<u8>> {
    match c {
        CellModel::I32(v) => seq![seq![0u8]] + presence_writes(v is Some) + (match v {
            Some(n) => seq![spec_u32_to_le_bytes(n as u32)],
            None => Seq::empty(),
        }),
        CellModel::I64(v) => seq![seq![1u8]] + presence_writes(v is Some) + (match v {
            Some(n) => seq![spec_u64_to_le_bytes(n as u64)],
            None => Seq::empty(),
        }),
        CellModel::F64(v) => seq![seq![2u8]] + presence_writes(v is Some) + (match v {
            Some(n) => seq![spec_u64_to_le_bytes(n)],
            None => Seq::empty(),
        }),
        CellModel::Bool(v) => seq![seq![3u8]] + presence_writes(v is Some) + (match v {
            Some(b) => seq![
                seq![
                    if b {
                        1u8
                    } else {
                        0u8
                    },
                ],
            ],
            None => Seq::empty(),
        }),
        CellModel::Str(v) => seq![seq![4u8]] + presence_writes(v is Some) + (match v {
            Some(t) => text_writes(t),
            None => Seq::empty(),
        }),
        CellModel::Date(v) => seq![seq![5u8]] + presence_writes(v is Some) + (match v {
            Some(n) => date_writes((n + EPOCH_JULIAN_DAY) as i32),
            None => Seq::empty(),
        }),
        CellModel::Ts(v) => seq![seq![6u8]] + presence_writes(v is Some) + (match v {
            Some(n) => moment_writes((n * 1000) as i128),
            None => Seq::empty(),
        }),
        CellModel::Vec(v) => seq![seq![7u8]] + presence_writes(v is Some) + (match v {
            Some(x) => seq![spec_u64_to_le_bytes(x.len() as u64), numbers_bytes(x)],
            None => Seq::empty(),
        }),
    }
}

/// What an identity of a table writes into its hash.
pub open spec fn identity_writes(tid: i64, id: CellModel) -> Seq<Seq<u8>> {
    seq![spec_u64_to_le_bytes(tid as u64)] + text_writes("\u{1f}"@) + cell_writes(id)
}

/// Adds a text to a hash.
pub(crate) fn write_text(h: &mut DefaultHasher, t: &str)
    ensures
        final(h)@ == old(h)@ + text_writes(t@),
{
    h.write(t.as_bytes());
    let end: [u8; 1] = [0xffu8];
    h.write(&end);
    assert(end@ =~= seq![0xffu8]);
    assert(h@ =~= old(h)@ + text_writes(t@));
}

fn write_byte(h: &mut DefaultHasher, b: u8)
    ensures
        final(h)@ == old(h)@.push(seq![b]),
{
    let one: [u8; 1] = [b];
    h.write(&one);
    assert(one@ =~= seq![b]);
}

fn write_u64(h: &mut DefaultHasher, n: u64)
    ensures
        final(h)@ == old(h)@.push(spec_u64_to_le_bytes(n)),
{
    let bytes: Vec<u8> = u64_to_le_bytes(n);
    h.write(bytes.as_slice());
}

fn write_u32(h: &mut DefaultHasher, n: u32)
    ensures
        final(h)@ == old(h)@.push(spec_u32_to_le_bytes(n)),
{
    let bytes: Vec<u8> = u32_to_le_bytes(n);
    h.write(bytes.as_slice());
}

fn write_presence(h: &mut DefaultHasher, present: bool)
    ensures
        final(h)@ == old(h)@ + presence_writes(present),
{
    if present {
        write_u64(h, 1);
    } else {
        write_u64(h, 0);
    }
    assert(h@ =~= old(h)@ + presence_writes(present));
}

fn bytes_of_numbers(v: &Vec<u32>) -> (r: Vec<u8>)
    ensures
        r@ == numbers_bytes(v@),
{
    let mut out: Vec<u8> = Vec::new();
    let mut i: usize = 0;
    assert(v@.take(0) =~= Seq::empty());
    while i < v.len()
        invariant
            i <= v@.len(),
            out@ == numbers_bytes(v@.take(i as int)),
        decreases v@.len() - i,
    {
        assert(v@.take(i + 1).drop_last() =~= v@.take(i as int));
        let mut more: Vec<u8> = u32_to_le_bytes(v[i]);
        out.append(&mut more);
        i = i + 1;
    }
    assert(v@.take(i as int) =~= v@);
    out
}

fn write_cell(h: &mut DefaultHasher, id: &Cell)
    requires
        dated(id@),
    ensures
        final(h)@ == old(h)@ + cell_writes(id@),
{
    let ghost start = h@;
    match id {
        Cell::I32(v) => {
            write_byte(h, 0);
            write_presence(h, v.is_some());
            match v {
                Some(n) => write_u32(h, *n as u32),
                None => {},
            }
        },
        Cell::I64(v) => {
            write_byte(h, 1);
            write_presence(h, v.is_some());
            match v {
                Some(n) => write_u64(h, *n as u64),
                None => {},
            }
        },
        Cell::F64(v) => {
            write_byte(h, 2);
            write_presence(h, v.is_some());
            match v {
                Some(n) => write_u64(h, *n),
                None => {},
            }
        },
        Cell::Bool(v) => {
            write_byte(h, 3);
            write_presence(h, v.is_some());
            match v {
                Some(b) => {
                    if *b {
                        write_byte(h, 1);
                    } else {
                        write_byte(h, 0);
                    }
                },
                None => {},
            }
        },
        Cell::Str(v) => {
            write_byte(h, 4);
            write_presence(h, v.is_some());
            match v {
                Some(t) => write_text(h, t.as_str()),
                None => {},
            }
        },
        Cell::Date(v) => {
            write_byte(h, 5);
            write_presence(h, v.is_some());
            match v {
                Some(n) => hash_date(h, *n + EPOCH_JULIAN_DAY),
                None => {},
            }
        },
        Cell::Ts(v) => {
            write_byte(h, 6);
            write_presence(h, v.is_some());
            match v {
                Some(n) => hash_moment(h, (*n as i128) * 1000),
                None => {},
            }
        },
        Cell::Vec(v) => {
            write_byte(h, 7);
            write_presence(h, v.is_some());
            match v {
                Some(x) => {
                    write_u64(h, x.len() as u64);
                    let bytes: Vec<u8> = bytes_of_numbers(x);
                    h.write(bytes.as_slice());
                },
                None => {},
            }
        },
    }
    assert(h@ =~= start + cell_writes(id@));
}

/// The number of the lock that changes of one identity of a table take: a function
/// of the table and the identity.
pub open spec fn identity_hash(tid: i64, id: CellModel) -> u64 {
    DefaultHasher::spec_finish(identity_writes(tid, id))
}

fn hash_identity(tid: i64, id: &Cell) -> (r: u64)
    requires
        dated(id@),
    ensures
        r == identity_hash(tid, id@),
{
    let mut h: DefaultHasher = DefaultHasher::new();
    write_u64(&mut h, tid as u64);
    write_text(&mut h, "\u{1f}");
    write_cell(&mut h, id);
    assert(h@ =~= identity_writes(tid, id@));
    h.finish()
}

/// The number of the lock that changes of one identity of a table take.
pub fn advisory_key_for_id(tid: i64, id: &Cell) -> (r: i64)
    requires
        dated(id@),
    ensures
        r == identity_hash(tid, id@) as i64,
{
    hash_identity(tid, id) as i64
}

/// The bucket of an identity of a table with so many buckets: its whole history is
/// in one bucket.
pub open spec fn bucket_of(id: CellModel, bucket_count: int) -> int {
    (identity_hash(0, id) as int) % bucket_count
}

/// The bucket of an identity. A table has at least one.
pub fn cdc_bucket(id: &Cell, bucket_count: i32) -> (r: Result<i32, ControlPlaneError>)
    requires
        dated(id@),
    ensures
        match r {
            Ok(b) => bucket_count >= 1 && b == bucket_of(id@, bucket_count as int),
            Err(e) => bucket_count < 1 && e@ == Fault::Validation(
                "cdc bucket_count must be >= 1, got "@ + int_text(bucket_count as int),
            ),
        },
{
    if bucket_count < 1 {
        return Err(
            ControlPlaneError::Validation(
                concat(
                    "cdc bucket_count must be >= 1, got ",
                    i64_text(bucket_count as i64).as_str(),
                ),
            ),
        );
    }
    let h: u64 = hash_identity(0, id);
    let b: u64 = h % (bucket_count as u64);
    Ok(b as i32)
}

/// The bucket of an identity is one of the table's.
pub proof fn law_bucket_in_range(id: CellModel, bucket_count: int)
    requires
        bucket_count >= 1,
    ensures
        0 <= bucket_of(id, bucket_count) < bucket_count,
{
    assert(0 <= (identity_hash(0, id) as int) % bucket_count < bucket_count) by (nonlinear_arith)
        requires
            bucket_count >= 1,
    ;
}

/// What a table writes into the hash of its lock.
pub open spec fn table_writes(schema: Seq<char>, name: Seq<char>) -> Seq<Seq<u8>> {
    text_writes(schema) + text_writes("\u{1f}"@) + text_writes(name)
}

/// The number of the lock that flushing, collecting and consolidating a table take.
pub fn lock_key(schema: &str, name: &str) -> (r: i64)
    ensures
        r == DefaultHasher::spec_finish(table_writes(schema@, name@)) as i64,
{
    let mut h: DefaultHasher = DefaultHasher::new();
    write_text(&mut h, schema);
    write_text(&mut h, "\u{1f}");
    write_text(&mut h, name);
    assert(h@ =~= table_writes(schema@, name@));
    h.finish() as i64
}

} // verus!
