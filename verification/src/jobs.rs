//! The jobs that commits queue for a table.
use crate::text::concat5;
use crate::types::{NewJob, TableRef};
use vstd::prelude::*;

verus! {

/// The kind of the job that moves a table's inline rows into files.
pub const FLUSH_JOB_KIND: &'static str = "flush_table";

/// The kind of the job that folds a table's inline changes into its files.
pub const STREAM_CONSOLIDATE_JOB_KIND: &'static str = "stream_consolidate";

/// The kind of the job that makes one file of a table's small ones.
pub const COMPACT_JOB_KIND: &'static str = "compact_table";

/// A character inside a JSON string. Quotes, backslashes and the characters below the
/// space are escaped: those with a letter of their own by it, the others by their number.
pub open spec fn json_char(c: char) -> Seq<char> {
    let n = c as int;
    if c == '"' {
        "\\\""@
    } else if c == '\\' {
        "\\\\"@
    } else if n == 8 {
        "\\b"@
    } else if n == 9 {
        "\\t"@
    } else if n == 10 {
        "\\n"@
    } else if n == 12 {
        "\\f"@
    } else if n == 13 {
        "\\r"@
    } else if n < 32 {
        "\\u00"@ + seq!["0123456789abcdef"@[n / 16], "0123456789abcdef"@[n % 16]]
    } else {
        seq![c]
    }
}

/// The characters of a text inside a JSON string.
pub open spec fn json_chars(t: Seq<char>) -> Seq<char>
    decreases t.len(),
{
    if t.len() == 0 {
        Seq::empty()
    } else {
        json_chars(t.drop_last()) + json_char(t.last())
    }
}

/// A text as a JSON string.
pub open spec fn json_text(t: Seq<char>) -> Seq<char> {
    "\""@ + json_chars(t) + "\""@
}

/// A text as a JSON string, by `serde_json::Value`'s `to_string`. Claims that it is in
/// quotes, and how its characters are escaped.
#[verifier::external_body]
pub(crate) fn json_string(t: &str) -> (r: String)
    ensures
        r@ == json_text(t@),
{
    serde_json::Value::String(t.to_owned()).to_string()
}

/// The payload of a job for a table.
pub open spec fn table_payload(schema: Seq<char>, name: Seq<char>) -> Seq<char> {
    "{\"name\":"@ + json_text(name) + ",\"schema\":"@ + json_text(schema) + "}"@
}

/// The job of this kind for the table: due at once, with the lowest urgency.
pub open spec fn is_table_job(job: NewJob, kind: Seq<char>, table: TableRef) -> bool {
    &&& job.kind@ == kind
    &&& job.payload@ == table_payload(table.schema@, table.name@)
    &&& job.run_at is None
    &&& job.priority == 0
}

/// The job of this kind for the table.
pub fn table_job(kind: &str, table: &TableRef) -> (r: NewJob)
    ensures
        is_table_job(r, kind@, *table),
{
    NewJob {
        kind: kind.to_owned(),
        payload: concat5(
            "{\"name\":",
            json_string(table.name.as_str()).as_str(),
            ",\"schema\":",
            json_string(table.schema.as_str()).as_str(),
            "}",
        ),
        run_at: None,
        priority: 0,
    }
}

} // verus!
