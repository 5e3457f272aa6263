//! The names of column types: the logical ones, those of Iceberg, of the inline
//! storage and of DuckLake.
use crate::iceberg_stats::{stat_text, stat_to_text, StatValue};
use crate::text::{concat3, nat_text, starts_with, u64_text};
use crate::words::{normal_chars, normalized, spell_start, spells};
use vstd::prelude::*;

verus! {

/// The logical type of a column.
#[derive(Clone, Copy, Debug, PartialEq, Eq, Structural)]
pub enum BaseType {
    Integer,
    Long,
    Double,
    Boolean,
    String,
    Date,
    Timestamp,
    /// A vector of so many single-precision numbers.
    Vector(u32),
}

impl BaseType {
    /// The logical name of the type.
    pub open spec fn name(self) -> Seq<char> {
        match self {
            BaseType::Integer => "integer"@,
            BaseType::Long => "long"@,
            BaseType::Double => "double"@,
            BaseType::Boolean => "boolean"@,
            BaseType::String => "string"@,
            BaseType::Date => "date"@,
            BaseType::Timestamp => "timestamp"@,
            BaseType::Vector(n) => "vector("@ + nat_text(n as nat) + ")"@,
        }
    }

    /// The logical name of the type.
    pub fn canonical_name(self) -> (r: String)
        ensures
            r@ == self.name(),
    {
        match self {
            BaseType::Integer => "integer".to_owned(),
            BaseType::Long => "long".to_owned(),
            BaseType::Double => "double".to_owned(),
            BaseType::Boolean => "boolean".to_owned(),
            BaseType::String => "string".to_owned(),
            BaseType::Date => "date".to_owned(),
            BaseType::Timestamp => "timestamp".to_owned(),
            BaseType::Vector(n) => vector_name(n),
        }
    }
}

/// `vector(n)`.
fn vector_name(n: u32) -> (r: String)
    ensures
        r@ == "vector("@ + nat_text(n as nat) + ")"@,
{
    concat3("vector(", u64_text(n as u64).as_str(), ")")
}

/// The logical type behind an Iceberg type name. `parametric` is what the logical
/// vocabulary makes of the name, which counts where it is that of a vector.
pub open spec fn from_iceberg(physical: Seq<char>, parametric: Option<BaseType>) -> Option<BaseType> {
    let p = normalized(physical);
    if p == "int"@ {
        Some(BaseType::Integer)
    } else if p == "long"@ {
        Some(BaseType::Long)
    } else if p == "double"@ {
        Some(BaseType::Double)
    } else if p == "boolean"@ {
        Some(BaseType::Boolean)
    } else if p == "string"@ {
        Some(BaseType::String)
    } else if p == "date"@ {
        Some(BaseType::Date)
    } else if p == "timestamp"@ || p == "timestamptz"@ {
        Some(BaseType::Timestamp)
    } else if starts_with(p, "vector("@) {
        parametric
    } else {
        None
    }
}

/// The logical type behind an Iceberg type name, where there is one. Both Iceberg
/// timestamps are the one logical timestamp. `parametric` is what the logical
/// vocabulary makes of the name, which counts where it is that of a vector.
pub fn logical_from_iceberg(physical: &str, parametric: Option<BaseType>) -> (r: Option<BaseType>)
    ensures
        r == from_iceberg(physical@, parametric),
{
    let p: Vec<char> = normal_chars(physical);
    if spells(&p, "int") {
        Some(BaseType::Integer)
    } else if spells(&p, "long") {
        Some(BaseType::Long)
    } else if spells(&p, "double") {
        Some(BaseType::Double)
    } else if spells(&p, "boolean") {
        Some(BaseType::Boolean)
    } else if spells(&p, "string") {
        Some(BaseType::String)
    } else if spells(&p, "date") {
        Some(BaseType::Date)
    } else if spells(&p, "timestamp") || spells(&p, "timestamptz") {
        Some(BaseType::Timestamp)
    } else if spell_start(&p, "vector(") {
        parametric
    } else {
        None
    }
}

/// The Iceberg type name of a logical type name.
pub open spec fn to_iceberg(logical: Seq<char>) -> Option<Seq<char>> {
    let l = normalized(logical);
    if l == "integer"@ {
        Some("int"@)
    } else if l == "long"@ {
        Some("long"@)
    } else if l == "double"@ {
        Some("double"@)
    } else if l == "boolean"@ {
        Some("boolean"@)
    } else if l == "string"@ {
        Some("string"@)
    } else if l == "date"@ {
        Some("date"@)
    } else if l == "timestamp"@ {
        Some("timestamp"@)
    } else {
        None
    }
}

/// The view of an optional name.
pub open spec fn name_of(t: Option<&str>) -> Option<Seq<char>> {
    match t {
        Some(s) => Some(s@),
        None => None,
    }
}

/// The Iceberg type name of a logical type name, where there is one.
pub fn iceberg_physical_type(logical: &str) -> (r: Option<&'static str>)
    ensures
        name_of(r) == to_iceberg(logical@),
{
    let l: Vec<char> = normal_chars(logical);
    if spells(&l, "integer") {
        Some("int")
    } else if spells(&l, "long") {
        Some("long")
    } else if spells(&l, "double") {
        Some("double")
    } else if spells(&l, "boolean") {
        Some("boolean")
    } else if spells(&l, "string") {
        Some("string")
    } else if spells(&l, "date") {
        Some("date")
    } else if spells(&l, "timestamp") {
        Some("timestamp")
    } else {
        None
    }
}

/// The type name that the mirror keeps for a column. `resolved` is what the logical
/// vocabulary makes of the name: a vector keeps its dimension.
pub open spec fn mirror_type(logical: Seq<char>, resolved: Option<BaseType>) -> Option<Seq<char>> {
    match resolved {
        Some(BaseType::Vector(n)) => Some("vector("@ + nat_text(n as nat) + ")"@),
        _ => to_iceberg(logical),
    }
}

/// The type name that the mirror keeps for a column, where there is one. `resolved`
/// is what the logical vocabulary makes of the name: a vector keeps its dimension.
pub fn mirror_column_type(logical: &str, resolved: Option<BaseType>) -> (r: Option<String>)
    ensures
        crate::auth::text_of(r) == mirror_type(logical@, resolved),
{
    match resolved {
        Some(BaseType::Vector(n)) => Some(vector_name(n)),
        _ => match iceberg_physical_type(logical) {
            Some(p) => Some(p.to_owned()),
            None => None,
        },
    }
}

/// The column type of the inline storage for a logical type name.
pub open spec fn to_pg(logical: Seq<char>) -> Option<Seq<char>> {
    let l = normalized(logical);
    if l == "integer"@ {
        Some("integer"@)
    } else if l == "long"@ {
        Some("bigint"@)
    } else if l == "double"@ {
        Some("double precision"@)
    } else if l == "boolean"@ {
        Some("boolean"@)
    } else if l == "string"@ {
        Some("text"@)
    } else if l == "date"@ {
        Some("date"@)
    } else if l == "timestamp"@ {
        Some("timestamp"@)
    } else if starts_with(l, "vector("@) {
        Some("real[]"@)
    } else {
        None
    }
}

/// The column type of the inline storage for a logical type name, where there is
/// one. A vector of any dimension is an array of reals.
pub fn pg_type_for(logical: &str) -> (r: Option<&'static str>)
    ensures
        name_of(r) == to_pg(logical@),
{
    let l: Vec<char> = normal_chars(logical);
    if spells(&l, "integer") {
        Some("integer")
    } else if spells(&l, "long") {
        Some("bigint")
    } else if spells(&l, "double") {
        Some("double precision")
    } else if spells(&l, "boolean") {
        Some("boolean")
    } else if spells(&l, "string") {
        Some("text")
    } else if spells(&l, "date") {
        Some("date")
    } else if spells(&l, "timestamp") {
        Some("timestamp")
    } else if spell_start(&l, "vector(") {
        Some("real[]")
    } else {
        None
    }
}

/// The DuckLake name of a type that is no vector.
pub open spec fn to_ducklake(base: BaseType) -> Seq<char> {
    match base {
        BaseType::Integer => "int32"@,
        BaseType::Long => "int64"@,
        BaseType::Double => "float64"@,
        BaseType::Boolean => "boolean"@,
        BaseType::String => "varchar"@,
        BaseType::Date => "date"@,
        BaseType::Timestamp => "timestamp"@,
        BaseType::Vector(_) => ""@,
    }
}

/// The DuckLake name of a type. DuckLake has no vectors.
pub fn ducklake_physical_type(base: BaseType) -> (r: &'static str)
    requires
        !(base is Vector),
    ensures
        r@ == to_ducklake(base),
{
    match base {
        BaseType::Integer => "int32",
        BaseType::Long => "int64",
        BaseType::Double => "float64",
        BaseType::Boolean => "boolean",
        BaseType::String => "varchar",
        BaseType::Date => "date",
        BaseType::Timestamp => "timestamp",
        BaseType::Vector(_) => "",
    }
}

/// The logical type behind a DuckLake type name.
pub open spec fn from_ducklake(physical: Seq<char>) -> Option<BaseType> {
    let p = normalized(physical);
    if p == "int32"@ {
        Some(BaseType::Integer)
    } else if p == "int64"@ {
        Some(BaseType::Long)
    } else if p == "float64"@ {
        Some(BaseType::Double)
    } else if p == "boolean"@ {
        Some(BaseType::Boolean)
    } else if p == "varchar"@ {
        Some(BaseType::String)
    } else if p == "date"@ {
        Some(BaseType::Date)
    } else if p == "timestamp"@ {
        Some(BaseType::Timestamp)
    } else {
        None
    }
}

/// The logical type behind a DuckLake type name, where there is one.
pub fn logical_from_ducklake(physical: &str) -> (r: Option<BaseType>)
    ensures
        r == from_ducklake(physical@),
{
    let p: Vec<char> = normal_chars(physical);
    if spells(&p, "int32") {
        Some(BaseType::Integer)
    } else if spells(&p, "int64") {
        Some(BaseType::Long)
    } else if spells(&p, "float64") {
        Some(BaseType::Double)
    } else if spells(&p, "boolean") {
        Some(BaseType::Boolean)
    } else if spells(&p, "varchar") {
        Some(BaseType::String)
    } else if spells(&p, "date") {
        Some(BaseType::Date)
    } else if spells(&p, "timestamp") {
        Some(BaseType::Timestamp)
    } else {
        None
    }
}

/// A bound as DuckLake keeps it.
pub fn to_ducklake_stat_string(v: &StatValue) -> (r: String)
    ensures
        r@ == stat_text(*v),
{
    stat_to_text(v)
}

/// The names that have no white space around them and no capital letters are their
/// own normal form.
proof fn lemma_plain(t: Seq<char>)
    requires
        t.len() > 0,
        !is_capital_or_white(t[0]),
        !is_capital_or_white(t.last()),
        forall|i: int| 0 <= i < t.len() ==> !('A' <= #[trigger] t[i] && t[i] <= 'Z'),
    ensures
        normalized(t) == t,
{
    assert(normalized(t) =~= t);
}

spec fn is_capital_or_white(c: char) -> bool {
    crate::words::is_white(c) || ('A' <= c && c <= 'Z')
}

proof fn lemma_plain_names()
    ensures
        normalized("int"@) == "int"@,
        normalized("integer"@) == "integer"@,
        normalized("long"@) == "long"@,
        normalized("double"@) == "double"@,
        normalized("boolean"@) == "boolean"@,
        normalized("string"@) == "string"@,
        normalized("date"@) == "date"@,
        normalized("timestamp"@) == "timestamp"@,
        normalized("int32"@) == "int32"@,
        normalized("int64"@) == "int64"@,
        normalized("float64"@) == "float64"@,
        normalized("varchar"@) == "varchar"@,
{
    reveal_strlit("int");
    reveal_strlit("integer");
    reveal_strlit("long");
    reveal_strlit("double");
    reveal_strlit("boolean");
    reveal_strlit("string");
    reveal_strlit("date");
    reveal_strlit("timestamp");
    reveal_strlit("int32");
    reveal_strlit("int64");
    reveal_strlit("float64");
    reveal_strlit("varchar");
    lemma_plain("int"@);
    lemma_plain("integer"@);
    lemma_plain("long"@);
    lemma_plain("double"@);
    lemma_plain("boolean"@);
    lemma_plain("string"@);
    lemma_plain("date"@);
    lemma_plain("timestamp"@);
    lemma_plain("int32"@);
    lemma_plain("int64"@);
    lemma_plain("float64"@);
    lemma_plain("varchar"@);
}

proof fn lemma_names_differ()
    ensures
        "int"@ != "long"@,
        "integer"@ != "long"@,
        "integer"@ != "double"@,
        "integer"@ != "boolean"@,
        "integer"@ != "string"@,
        "integer"@ != "date"@,
        "integer"@ != "timestamp"@,
        "int"@ != "double"@,
        "int"@ != "boolean"@,
        "int"@ != "string"@,
        "int"@ != "date"@,
        "int"@ != "timestamp"@,
        "long"@ != "double"@,
        "long"@ != "boolean"@,
        "long"@ != "string"@,
        "long"@ != "date"@,
        "long"@ != "timestamp"@,
        "double"@ != "boolean"@,
        "double"@ != "string"@,
        "double"@ != "date"@,
        "double"@ != "timestamp"@,
        "boolean"@ != "string"@,
        "boolean"@ != "date"@,
        "boolean"@ != "timestamp"@,
        "string"@ != "date"@,
        "string"@ != "timestamp"@,
        "date"@ != "timestamp"@,
        "int32"@ != "int64"@,
        "int32"@ != "float64"@,
        "int32"@ != "boolean"@,
        "int32"@ != "varchar"@,
        "int32"@ != "date"@,
        "int32"@ != "timestamp"@,
        "int64"@ != "float64"@,
        "int64"@ != "boolean"@,
        "int64"@ != "varchar"@,
        "int64"@ != "date"@,
        "int64"@ != "timestamp"@,
        "float64"@ != "boolean"@,
        "float64"@ != "varchar"@,
        "float64"@ != "date"@,
        "float64"@ != "timestamp"@,
        "boolean"@ != "varchar"@,
        "varchar"@ != "date"@,
        "varchar"@ != "timestamp"@,
{
    reveal_strlit("int");
    reveal_strlit("integer");
    reveal_strlit("long");
    reveal_strlit("double");
    reveal_strlit("boolean");
    reveal_strlit("string");
    reveal_strlit("date");
    reveal_strlit("timestamp");
    reveal_strlit("int32");
    reveal_strlit("int64");
    reveal_strlit("float64");
    reveal_strlit("varchar");
    assert("int"@[0] == 'i' && "long"@[0] == 'l' && "double"@[1] == 'o' && "date"@[1] == 'a');
    assert("integer"@[0] == 'i' && "boolean"@[0] == 'b' && "string"@[0] == 's');
    assert("timestamp"@[0] == 't');
    assert("int32"@[3] == '3' && "int64"@[3] == '6' && "float64"@[0] == 'f' && "varchar"@[0] == 'v');
}

/// A scalar type survives the way through its Iceberg name and back.
pub proof fn law_iceberg_names_read_back(base: BaseType, parametric: Option<BaseType>)
    requires
        !(base is Vector),
    ensures
        to_iceberg(base.name()) is Some,
        from_iceberg(to_iceberg(base.name())->0, parametric) == Some(base),
{
    lemma_plain_names();
    lemma_names_differ();
}

/// A vector keeps its dimension in the mirror: the name kept for it is its logical
/// name.
pub proof fn law_vector_keeps_dimension(logical: Seq<char>, n: u32)
    ensures
        mirror_type(logical, Some(BaseType::Vector(n))) == Some(BaseType::Vector(n).name()),
{
}

/// A scalar type survives the way through its DuckLake name and back.
pub proof fn law_ducklake_names_read_back(base: BaseType)
    requires
        !(base is Vector),
    ensures
        from_ducklake(to_ducklake(base)) == Some(base),
{
    lemma_plain_names();
    lemma_names_differ();
}

/// Each scalar type has its own names: in Iceberg, in the inline storage and in DuckLake.
pub proof fn law_each_type_has_its_names()
    ensures
        to_iceberg("integer"@) == Some("int"@),
        to_iceberg("long"@) == Some("long"@),
        to_iceberg("double"@) == Some("double"@),
        to_iceberg("boolean"@) == Some("boolean"@),
        to_iceberg("string"@) == Some("string"@),
        to_iceberg("date"@) == Some("date"@),
        to_iceberg("timestamp"@) == Some("timestamp"@),
        to_pg("integer"@) == Some("integer"@),
        to_pg("long"@) == Some("bigint"@),
        to_pg("double"@) == Some("double precision"@),
        to_pg("boolean"@) == Some("boolean"@),
        to_pg("string"@) == Some("text"@),
        to_pg("date"@) == Some("date"@),
        to_pg("timestamp"@) == Some("timestamp"@),
        to_ducklake(BaseType::Integer) == "int32"@,
        to_ducklake(BaseType::Long) == "int64"@,
        to_ducklake(BaseType::Double) == "float64"@,
        to_ducklake(BaseType::Boolean) == "boolean"@,
        to_ducklake(BaseType::String) == "varchar"@,
        to_ducklake(BaseType::Date) == "date"@,
        to_ducklake(BaseType::Timestamp) == "timestamp"@,
{
    lemma_plain_names();
    lemma_names_differ();
}

/// The names that types go by are those of the logical vocabulary.
pub proof fn law_logical_names(n: u32)
    ensures
        BaseType::Integer.name() == "integer"@,
        BaseType::Long.name() == "long"@,
        BaseType::Double.name() == "double"@,
        BaseType::Boolean.name() == "boolean"@,
        BaseType::String.name() == "string"@,
        BaseType::Date.name() == "date"@,
        BaseType::Timestamp.name() == "timestamp"@,
        BaseType::Vector(n).name() == "vector("@ + nat_text(n as nat) + ")"@,
{
}

} // verus!
