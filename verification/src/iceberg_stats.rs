//! Bounds of column values, and the text they are kept as.
use crate::key::str_same;
use crate::text::{i64_text, int_text};
use crate::words::{int_within, lemma_int_text_reads_back, normal_chars, normalized, parse_i32, parse_i64, spells};
use vstd::prelude::*;

verus! {

/// A bound of a column's values. A floating-point bound is held as the text that
/// stands for it.
#[derive(Debug)]
pub enum StatValue {
    Bool(bool),
    I32(i32),
    I64(i64),
    Real(String),
    Str(String),
}

/// A bound by its value.
pub enum StatModel {
    Bool(bool),
    I32(int),
    I64(int),
    Real(Seq<char>),
    Str(Seq<char>),
}

impl View for StatValue {
    type V = StatModel;

    open spec fn view(&self) -> StatModel {
        match self {
            StatValue::Bool(b) => StatModel::Bool(*b),
            StatValue::I32(n) => StatModel::I32(*n as int),
            StatValue::I64(n) => StatModel::I64(*n as int),
            StatValue::Real(t) => StatModel::Real(t@),
            StatValue::Str(t) => StatModel::Str(t@),
        }
    }
}

/// The text that a bound is kept as.
pub open spec fn stat_text(v: StatValue) -> Seq<char> {
    match v {
        StatValue::Bool(b) => if b {
            "true"@
        } else {
            "false"@
        },
        StatValue::I32(n) => int_text(n as int),
        StatValue::I64(n) => int_text(n as int),
        StatValue::Real(t) => t@,
        StatValue::Str(t) => t@,
    }
}

/// The text that a bound is kept as.
pub fn stat_to_text(v: &StatValue) -> (r: String)
    ensures
        r@ == stat_text(*v),
{
    match v {
        StatValue::Bool(b) => if *b {
            "true".to_owned()
        } else {
            "false".to_owned()
        },
        StatValue::I32(n) => i64_text(*n as i64),
        StatValue::I64(n) => i64_text(*n),
        StatValue::Real(t) => t.clone(),
        StatValue::Str(t) => t.clone(),
    }
}

/// The bound that a text stands for in a column of an Iceberg type. `is_real` says
/// whether the text stands for a floating-point number. Types without clean bounds
/// have none.
pub open spec fn stat_of(text: Seq<char>, iceberg_type: Seq<char>, is_real: bool) -> Option<StatModel> {
    let t = normalized(iceberg_type);
    if t == "int"@ {
        match int_within(text, i32::MIN as int, i32::MAX as int) {
            Some(n) => Some(StatModel::I32(n)),
            None => None,
        }
    } else if t == "long"@ {
        match int_within(text, i64::MIN as int, i64::MAX as int) {
            Some(n) => Some(StatModel::I64(n)),
            None => None,
        }
    } else if t == "double"@ {
        if is_real {
            Some(StatModel::Real(text))
        } else {
            None
        }
    } else if t == "boolean"@ {
        if text == "true"@ {
            Some(StatModel::Bool(true))
        } else if text == "false"@ {
            Some(StatModel::Bool(false))
        } else {
            None
        }
    } else if t == "string"@ {
        Some(StatModel::Str(text))
    } else {
        None
    }
}

/// The bound that a text stands for in a column of an Iceberg type. `is_real` says
/// whether the text stands for a floating-point number. Types without clean bounds
/// have none.
pub fn stat_from_text(text: &str, iceberg_type: &str, is_real: bool) -> (r: Option<StatValue>)
    ensures
        match r {
            Some(v) => stat_of(text@, iceberg_type@, is_real) == Some(v@),
            None => stat_of(text@, iceberg_type@, is_real) is None,
        },
{
    let t: Vec<char> = normal_chars(iceberg_type);
    if spells(&t, "int") {
        match parse_i32(text) {
            Some(n) => Some(StatValue::I32(n)),
            None => None,
        }
    } else if spells(&t, "long") {
        match parse_i64(text) {
            Some(n) => Some(StatValue::I64(n)),
            None => None,
        }
    } else if spells(&t, "double") {
        if is_real {
            Some(StatValue::Real(text.to_owned()))
        } else {
            None
        }
    } else if spells(&t, "boolean") {
        if str_same(text, "true") {
            Some(StatValue::Bool(true))
        } else if str_same(text, "false") {
            Some(StatValue::Bool(false))
        } else {
            None
        }
    } else if spells(&t, "string") {
        Some(StatValue::Str(text.to_owned()))
    } else {
        None
    }
}

/// An integer bound is read back as it was kept.
pub proof fn law_integer_bounds_read_back(n: i32, m: i64, is_real: bool, ty: Seq<char>)
    ensures
        normalized(ty) == "int"@ ==> stat_of(stat_text(StatValue::I32(n)), ty, is_real) == Some(
            StatModel::I32(n as int),
        ),
        normalized(ty) == "long"@ ==> stat_of(stat_text(StatValue::I64(m)), ty, is_real) == Some(
            StatModel::I64(m as int),
        ),
{
    lemma_int_text_reads_back(n as int);
    lemma_int_text_reads_back(m as int);
    reveal_strlit("int");
    reveal_strlit("long");
    assert("int"@[0] == 'i' && "long"@[0] == 'l');
}

/// A string bound and a boolean one are read back as they were kept.
pub proof fn law_other_bounds_read_back(s: String, b: bool, is_real: bool, ty: Seq<char>)
    ensures
        normalized(ty) == "string"@ ==> stat_of(stat_text(StatValue::Str(s)), ty, is_real) == Some(
            StatModel::Str(s@),
        ),
        normalized(ty) == "boolean"@ ==> stat_of(stat_text(StatValue::Bool(b)), ty, is_real)
            == Some(StatModel::Bool(b)),
{
    reveal_strlit("int");
    reveal_strlit("long");
    reveal_strlit("double");
    reveal_strlit("boolean");
    reveal_strlit("string");
    reveal_strlit("true");
    reveal_strlit("false");
    assert("int"@[0] == 'i' && "long"@[0] == 'l' && "double"@[0] == 'd' && "boolean"@[0] == 'b'
        && "string"@[0] == 's' && "true"@[0] == 't' && "false"@[0] == 'f');
}

} // verus!
