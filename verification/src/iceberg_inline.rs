//! Small writes that are kept as typed rows beside the files of a table: the names
//! and the statements of that storage.
use crate::error::{text_outcome, ControlPlaneError, Fault};
use crate::iceberg_type::{pg_type_for, to_pg};
use crate::key::str_same;
use crate::text::{
    concat, concat3, concat4, concat5, i64_text, int_text, join, joined, nat_text, texts, usize_text,
};
use crate::types::ColumnSpec;
use crate::words::{debug_of, debug_text};
use vstd::prelude::*;
use vstd::string::{StrSliceExecFns, StringExecFns};

verus! {

/// The name of a table's inline storage.
pub open spec fn inline_name(table_id: int) -> Seq<char> {
    "iceberg_mirror.inline_"@ + int_text(table_id)
}

/// The name of a table's inline storage.
pub fn inline_table_name(table_id: i64) -> (r: String)
    ensures
        r@ == inline_name(table_id as int),
{
    concat("iceberg_mirror.inline_", i64_text(table_id).as_str())
}

/// The text with every double quote twice.
pub open spec fn doubled(t: Seq<char>) -> Seq<char>
    decreases t.len(),
{
    if t.len() == 0 {
        Seq::empty()
    } else if t[0] == '"' {
        seq!['"', '"'] + doubled(t.skip(1))
    } else {
        seq![t[0]] + doubled(t.skip(1))
    }
}

/// The name as a quoted identifier.
pub open spec fn quoted(name: Seq<char>) -> Seq<char> {
    "\""@ + doubled(name) + "\""@
}

/// The name as a quoted identifier: between double quotes, with those inside it
/// doubled.
pub fn quote_ident(name: &str) -> (r: String)
    ensures
        r@ == quoted(name@),
{
    let n: usize = name.unicode_len();
    let mut out: String = "\"".to_owned();
    let mut i: usize = 0;
    proof {
        reveal_strlit("\"");
        reveal_strlit("\"\"");
        assert(name@.skip(0) =~= name@);
    }
    while i < n
        invariant
            n == name@.len(),
            i <= n,
            "\"\""@ == seq!['"', '"'],
            out@ + doubled(name@.skip(i as int)) == "\""@ + doubled(name@),
        decreases n - i,
    {
        let ghost before = out@;
        let ghost rest = name@.skip(i as int);
        assert(rest.skip(1) =~= name@.skip(i + 1));
        if name.get_char(i) == '"' {
            out.append("\"\"");
            assert(before + (seq!['"', '"'] + doubled(name@.skip(i + 1))) =~= out@ + doubled(
                name@.skip(i + 1),
            ));
        } else {
            let one: &str = name.substring_char(i, i + 1);
            out.append(one);
            assert(one@ =~= seq![rest[0]]);
            assert(before + (seq![rest[0]] + doubled(name@.skip(i + 1))) =~= out@ + doubled(
                name@.skip(i + 1),
            ));
        }
        i = i + 1;
    }
    assert(doubled(name@.skip(i as int)) =~= Seq::empty());
    out.append("\"");
    assert(out@ =~= quoted(name@));
    out
}

/// How a quoted identifier is read, behind its opening quote: the name, and how many
/// characters it took up to and with the closing quote.
pub open spec fn read_quoted(s: Seq<char>) -> Option<(Seq<char>, int)>
    decreases s.len(),
{
    if s.len() == 0 {
        None
    } else if s[0] == '"' {
        if s.len() > 1 && s[1] == '"' {
            match read_quoted(s.skip(2)) {
                Some((t, n)) => Some((seq!['"'] + t, n + 2)),
                None => None,
            }
        } else {
            Some((Seq::empty(), 1))
        }
    } else {
        match read_quoted(s.skip(1)) {
            Some((t, n)) => Some((seq![s[0]] + t, n + 1)),
            None => None,
        }
    }
}

/// A quoted name is inert: whatever it holds, it is read as that name and ends where
/// it was meant to end.
pub proof fn law_quoted_name_is_inert(name: Seq<char>, rest: Seq<char>)
    requires
        rest.len() > 0 ==> rest[0] != '"',
    ensures
        read_quoted(doubled(name) + seq!['"'] + rest) == Some(
            (name, doubled(name).len() as int + 1),
        ),
    decreases name.len(),
{
    let s = doubled(name) + seq!['"'] + rest;
    reveal_with_fuel(doubled, 2);
    if name.len() == 0 {
        assert(s =~= seq!['"'] + rest);
        assert(name =~= Seq::empty());
    } else {
        let tail = name.skip(1);
        law_quoted_name_is_inert(tail, rest);
        let inner = doubled(tail) + seq!['"'] + rest;
        if name[0] == '"' {
            assert(s =~= seq!['"', '"'] + inner);
            assert(s.skip(2) =~= inner);
            assert(seq!['"'] + tail =~= name);
        } else {
            assert(s =~= seq![name[0]] + inner);
            assert(s.skip(1) =~= inner);
            assert(seq![name[0]] + tail =~= name);
        }
    }
}

/// Different names are quoted differently.
pub proof fn law_quoting_is_injective(a: Seq<char>, b: Seq<char>)
    requires
        quoted(a) == quoted(b),
    ensures
        a == b,
{
    reveal_strlit("\"");
    assert(quoted(a).skip(1) =~= doubled(a) + seq!['"'] + Seq::<char>::empty());
    assert(quoted(b).skip(1) =~= doubled(b) + seq!['"'] + Seq::<char>::empty());
    law_quoted_name_is_inert(a, Seq::empty());
    law_quoted_name_is_inert(b, Seq::empty());
}

/// The condition that a row is live at a snapshot.
pub open spec fn live_pred(at: int) -> Seq<char> {
    "begin_snapshot <= "@ + int_text(at) + " and (end_snapshot is null or end_snapshot > "@
        + int_text(at) + ")"@
}

/// The condition that an inline row is live at snapshot `at`.
pub fn mvcc_live_pred(at: i64) -> (r: String)
    ensures
        r@ == live_pred(at as int),
{
    concat5(
        "begin_snapshot <= ",
        i64_text(at).as_str(),
        " and (end_snapshot is null or end_snapshot > ",
        i64_text(at).as_str(),
        ")",
    )
}

/// Retires every live inline row of a table at snapshot `at`.
pub fn end_cap_live_sql(table_id: i64, at: i64) -> (r: String)
    ensures
        r@ == "update "@ + inline_name(table_id as int) + " set end_snapshot = "@ + int_text(at as int)
            + " where end_snapshot is null"@,
{
    concat5(
        "update ",
        inline_table_name(table_id).as_str(),
        " set end_snapshot = ",
        i64_text(at).as_str(),
        " where end_snapshot is null",
    )
}

/// Retires the live inline rows numbered `$1` of a table at snapshot `at`.
pub fn end_cap_by_id_sql(table_id: i64, at: i64) -> (r: String)
    ensures
        r@ == "update "@ + inline_name(table_id as int) + " set end_snapshot = "@ + int_text(at as int)
            + " where loom_row_id = any($1) and end_snapshot is null"@,
{
    concat5(
        "update ",
        inline_table_name(table_id).as_str(),
        " set end_snapshot = ",
        i64_text(at).as_str(),
        " where loom_row_id = any($1) and end_snapshot is null",
    )
}

/// Asks whether a table has a live inline row at snapshot `at`.
pub fn any_live_sql(table_id: i64, at: i64) -> (r: String)
    ensures
        r@ == "select exists(select 1 from "@ + inline_name(table_id as int) + " where "@ + live_pred(
            at as int,
        ) + ")"@,
{
    concat5(
        "select exists(select 1 from ",
        inline_table_name(table_id).as_str(),
        " where ",
        mvcc_live_pred(at).as_str(),
        ")",
    )
}

/// Clears the mark that table `$1` has inline changes, where no live row is one.
pub fn clear_shadow_sql(table_id: i64) -> (r: String)
    ensures
        r@ == "delete from iceberg_mirror.shadow_flag where table_id = $1 and not exists (select 1 from "@
            + inline_name(table_id as int)
            + " where end_snapshot is null and (loom_tombstone or loom_change_kind in ('+U', '-D')))"@,
{
    concat3(
        "delete from iceberg_mirror.shadow_flag where table_id = $1 and not exists (select 1 from ",
        inline_table_name(table_id).as_str(),
        " where end_snapshot is null and (loom_tombstone or loom_change_kind in ('+U', '-D')))",
    )
}

/// Asks whether one of the live inline rows numbered `$1` is a change.
pub fn shadow_among_sql(table_id: i64) -> (r: String)
    ensures
        r@ == "select exists(select 1 from "@ + inline_name(table_id as int)
            + " where loom_row_id = any($1) and end_snapshot is null and (loom_tombstone or loom_change_kind in ('+U', '-D')))"@,
{
    concat3(
        "select exists(select 1 from ",
        inline_table_name(table_id).as_str(),
        " where loom_row_id = any($1) and end_snapshot is null and (loom_tombstone or loom_change_kind in ('+U', '-D')))",
    )
}

/// The question for the latest version of the identity `$1`: the last snapshot at
/// which a live row of it began.
pub open spec fn max_version_text(table_id: int, id_column: Seq<char>) -> Seq<char> {
    "select coalesce(max(begin_snapshot), 0) as v from "@ + inline_name(table_id) + " where "@
        + quoted(id_column)
        + " = $1 and end_snapshot is null and (loom_change_kind is null or loom_change_kind <> '-U')"@
}

/// Asks for the latest version of the identity `$1`.
pub fn max_version_sql(table_id: i64, id_column: &str) -> (r: String)
    ensures
        r@ == max_version_text(table_id as int, id_column@),
{
    concat5(
        "select coalesce(max(begin_snapshot), 0) as v from ",
        inline_table_name(table_id).as_str(),
        " where ",
        quote_ident(id_column).as_str(),
        " = $1 and end_snapshot is null and (loom_change_kind is null or loom_change_kind <> '-U')",
    )
}

/// The quoted names of columns.
pub open spec fn quoted_names(columns: Seq<ColumnSpec>) -> Seq<Seq<char>> {
    Seq::new(columns.len(), |i: int| quoted(columns[i].name@))
}

/// The columns as they are listed in a statement.
pub open spec fn column_names(columns: Seq<ColumnSpec>) -> Seq<char> {
    joined(quoted_names(columns), ", "@)
}

/// The columns as they are listed in a statement.
pub fn column_list(columns: &Vec<ColumnSpec>) -> (r: String)
    ensures
        r@ == column_names(columns@),
{
    let mut names: Vec<String> = Vec::new();
    let mut i: usize = 0;
    while i < columns.len()
        invariant
            i <= columns@.len(),
            names@.len() == i,
            forall|j: int| 0 <= j < i ==> #[trigger] names@[j]@ == quoted(columns@[j].name@),
        decreases columns@.len() - i,
    {
        names.push(quote_ident(columns[i].name.as_str()));
        i = i + 1;
    }
    assert(texts(names@) =~= quoted_names(columns@));
    join(&names, ", ")
}

/// `count` parameters, numbered from `first`.
pub open spec fn parameters(count: nat, first: nat) -> Seq<char> {
    joined(Seq::new(count, |i: int| "$"@ + nat_text((i + first) as nat)), ", "@)
}

/// `count` parameters, numbered from `first`.
pub fn placeholders(count: usize, first: usize) -> (r: String)
    requires
        count + first <= usize::MAX,
    ensures
        r@ == parameters(count as nat, first as nat),
{
    let mut out: Vec<String> = Vec::new();
    let mut i: usize = 0;
    while i < count
        invariant
            i <= count,
            count + first <= usize::MAX,
            out@.len() == i,
            forall|j: int| 0 <= j < i ==> #[trigger] out@[j]@ == "$"@ + nat_text((j + first) as nat),
        decreases count - i,
    {
        out.push(concat("$", usize_text(i + first).as_str()));
        i = i + 1;
    }
    assert(texts(out@) =~= Seq::new(count as nat, |i: int| "$"@ + nat_text((i + first) as nat)));
    join(&out, ", ")
}

/// The columns of inline storage with their types, each behind a comma.
pub open spec fn ddl_columns(columns: Seq<ColumnSpec>) -> Seq<char>
    decreases columns.len(),
{
    if columns.len() == 0 {
        Seq::empty()
    } else {
        let c = columns.last();
        ddl_columns(columns.drop_last()) + ", "@ + quoted(c.name@) + " "@ + to_pg(c.ty@)->0
    }
}

/// The first column from `from` on whose type the inline storage does not have.
pub open spec fn first_untyped(columns: Seq<ColumnSpec>, from: int) -> Option<int>
    decreases columns.len() - from,
{
    if from < 0 || from >= columns.len() {
        None
    } else if to_pg(columns[from].ty@) is None {
        Some(from)
    } else {
        first_untyped(columns, from + 1)
    }
}

/// The statement that creates a table's inline storage where it is not there.
pub open spec fn ddl_text(table_id: int, columns: Seq<ColumnSpec>) -> Result<Seq<char>, Fault> {
    match first_untyped(columns, 0) {
        Some(i) => Err(Fault::Backend("inline: no pg type for "@ + debug_text(columns[i].ty@))),
        None => Ok(
            "create table if not exists "@ + inline_name(table_id)
                + " (loom_row_id bigserial primary key, begin_snapshot bigint not null, end_snapshot bigint, loom_tombstone boolean not null default false, loom_change_kind text not null default '+I', loom_bucket int, loom_offset bigint"@
                + ddl_columns(columns) + ")"@,
        ),
    }
}

/// The statement that creates a table's inline storage where it is not there. Every
/// column must have a type that the storage has.
pub fn inline_ddl(table_id: i64, columns: &Vec<ColumnSpec>) -> (r: Result<String, ControlPlaneError>)
    ensures
        text_outcome(r) == ddl_text(table_id as int, columns@),
{
    let mut cols: String = String::new();
    let mut i: usize = 0;
    assert(columns@.take(0) =~= Seq::empty());
    assert(cols@ =~= ddl_columns(columns@.take(0)));
    while i < columns.len()
        invariant
            i <= columns@.len(),
            first_untyped(columns@, 0) == first_untyped(columns@, i as int),
            cols@ == ddl_columns(columns@.take(i as int)),
        decreases columns@.len() - i,
    {
        let c: &ColumnSpec = &columns[i];
        assert(columns@.take(i + 1).drop_last() =~= columns@.take(i as int));
        match pg_type_for(c.ty.as_str()) {
            None => {
                return Err(
                    ControlPlaneError::Backend(
                        concat("inline: no pg type for ", debug_of(c.ty.as_str()).as_str()),
                    ),
                );
            },
            Some(pg) => {
                cols.append(", ");
                cols.append(quote_ident(c.name.as_str()).as_str());
                cols.append(" ");
                cols.append(pg);
            },
        }
        i = i + 1;
    }
    assert(columns@.take(i as int) =~= columns@);
    Ok(
        concat5(
            "create table if not exists ",
            inline_table_name(table_id).as_str(),
            " (loom_row_id bigserial primary key, begin_snapshot bigint not null, end_snapshot bigint, loom_tombstone boolean not null default false, loom_change_kind text not null default '+I', loom_bucket int, loom_offset bigint",
            cols.as_str(),
            ")",
        ),
    )
}

/// The statement that gives older inline storage a column it lacks.
pub open spec fn alter_text(table_id: int, column: Seq<char>) -> Seq<char> {
    "alter table "@ + inline_name(table_id) + " add column if not exists "@ + column
}

/// The statements that bring a table's inline storage about, in their order.
pub open spec fn schema_ddl(table_id: int, columns: Seq<ColumnSpec>) -> Result<Seq<Seq<char>>, Fault> {
    match ddl_text(table_id, columns) {
        Err(e) => Err(e),
        Ok(create) => Ok(
            seq![
                create,
                alter_text(table_id, "loom_tombstone boolean not null default false"@),
                alter_text(table_id, "loom_change_kind text not null default '+I'"@),
                alter_text(table_id, "loom_bucket int"@),
                alter_text(table_id, "loom_offset bigint"@),
            ],
        ),
    }
}

fn alter_sql(table_id: i64, column: &str) -> (r: String)
    ensures
        r@ == alter_text(table_id as int, column@),
{
    concat4(
        "alter table ",
        inline_table_name(table_id).as_str(),
        " add column if not exists ",
        column,
    )
}

/// The statements that bring a table's inline storage about: its creation, and the
/// columns that storage made long ago lacks.
pub fn ensure_inline_schema(table_id: i64, columns: &Vec<ColumnSpec>) -> (r: Result<
    Vec<String>,
    ControlPlaneError,
>)
    ensures
        match r {
            Ok(list) => schema_ddl(table_id as int, columns@) == Ok::<Seq<Seq<char>>, Fault>(
                texts(list@),
            ),
            Err(e) => schema_ddl(table_id as int, columns@) == Err::<Seq<Seq<char>>, Fault>(e@),
        },
{
    match inline_ddl(table_id, columns) {
        Err(e) => Err(e),
        Ok(create) => {
            let mut out: Vec<String> = Vec::new();
            out.push(create);
            out.push(alter_sql(table_id, "loom_tombstone boolean not null default false"));
            out.push(alter_sql(table_id, "loom_change_kind text not null default '+I'"));
            out.push(alter_sql(table_id, "loom_bucket int"));
            out.push(alter_sql(table_id, "loom_offset bigint"));
            assert(texts(out@) =~= schema_ddl(table_id as int, columns@)->Ok_0);
            Ok(out)
        },
    }
}

/// The codes of a database that says an object is already there.
pub open spec fn duplicate_code(code: Seq<char>) -> bool {
    code == "42P07"@ || code == "42701"@ || code == "42710"@ || code == "23505"@
}

/// Whether a failed creation lost a race against another: the database says that
/// the object is already there.
pub fn is_duplicate_object_race(code: Option<&str>) -> (r: bool)
    ensures
        r == (code matches Some(c) && duplicate_code(c@)),
{
    match code {
        Some(c) => str_same(c, "42P07") || str_same(c, "42701") || str_same(c, "42710") || str_same(
            c,
            "23505",
        ),
        None => false,
    }
}

/// What follows a statement that creates something where it is not there yet.
#[derive(Clone, Copy, Debug, PartialEq, Eq, Structural)]
pub enum DdlOutcome {
    /// It went through.
    Done,
    /// Another creation came first.
    LostRace,
    /// It failed.
    Failed,
}

/// How the statement came out: `code` is the database's, where it reported an error
/// with one.
pub fn ddl_outcome(failed: bool, code: Option<&str>) -> (r: DdlOutcome)
    ensures
        r == (if !failed {
            DdlOutcome::Done
        } else if code matches Some(c) && duplicate_code(c@) {
            DdlOutcome::LostRace
        } else {
            DdlOutcome::Failed
        }),
{
    if !failed {
        DdlOutcome::Done
    } else if is_duplicate_object_race(code) {
        DdlOutcome::LostRace
    } else {
        DdlOutcome::Failed
    }
}

/// The statements that close the savepoint around a creation, so that the
/// transaction around it goes on: a statement that did not go through is undone, and
/// the savepoint is given up unless the failure is passed on.
pub open spec fn savepoint_close(o: DdlOutcome) -> Seq<Seq<char>> {
    match o {
        DdlOutcome::Done => seq!["release savepoint loom_ddl"@],
        DdlOutcome::LostRace => seq![
            "rollback to savepoint loom_ddl"@,
            "release savepoint loom_ddl"@,
        ],
        DdlOutcome::Failed => seq!["rollback to savepoint loom_ddl"@],
    }
}

/// The statements that close the savepoint around a creation.
pub fn run_idempotent_ddl(o: DdlOutcome) -> (r: Vec<String>)
    ensures
        texts(r@) == savepoint_close(o),
{
    let mut out: Vec<String> = Vec::new();
    match o {
        DdlOutcome::Done => {
            out.push("release savepoint loom_ddl".to_owned());
        },
        DdlOutcome::LostRace => {
            out.push("rollback to savepoint loom_ddl".to_owned());
            out.push("release savepoint loom_ddl".to_owned());
        },
        DdlOutcome::Failed => {
            out.push("rollback to savepoint loom_ddl".to_owned());
        },
    }
    assert(texts(out@) =~= savepoint_close(o));
    out
}

/// The insertion of a row that was appended: `$1` its snapshot; of a stream `$2` its
/// bucket and `$3` its offset; then its values.
pub open spec fn append_text(table_id: int, columns: Seq<ColumnSpec>, framed: bool) -> Seq<char> {
    if framed {
        "insert into "@ + inline_name(table_id) + " (begin_snapshot, loom_bucket, loom_offset, "@
            + column_names(columns) + ") values ($1, $2, $3, "@ + parameters(columns.len(), 4) + ")"@
    } else {
        "insert into "@ + inline_name(table_id) + " (begin_snapshot, "@ + column_names(columns)
            + ") values ($1, "@ + parameters(columns.len(), 2) + ")"@
    }
}

/// The insertion of a row that was appended.
pub fn append_sql(table_id: i64, columns: &Vec<ColumnSpec>, framed: bool) -> (r: String)
    requires
        columns@.len() + 6 <= usize::MAX,
    ensures
        r@ == append_text(table_id as int, columns@, framed),
{
    let mut s: String = "insert into ".to_owned();
    s.append(inline_table_name(table_id).as_str());
    if framed {
        s.append(" (begin_snapshot, loom_bucket, loom_offset, ");
        s.append(column_list(columns).as_str());
        s.append(") values ($1, $2, $3, ");
        s.append(placeholders(columns.len(), 4).as_str());
    } else {
        s.append(" (begin_snapshot, ");
        s.append(column_list(columns).as_str());
        s.append(") values ($1, ");
        s.append(placeholders(columns.len(), 2).as_str());
    }
    s.append(")");
    s
}

/// The insertion of the tombstone of the identity `$2` at snapshot `$1`.
pub fn tombstone_sql(table_id: i64, id_column: &str) -> (r: String)
    ensures
        r@ == "insert into "@ + inline_name(table_id as int)
            + " (begin_snapshot, loom_tombstone, loom_change_kind, "@ + quoted(id_column@)
            + ") values ($1, true, '-D', $2)"@,
{
    concat5(
        "insert into ",
        inline_table_name(table_id).as_str(),
        " (begin_snapshot, loom_tombstone, loom_change_kind, ",
        quote_ident(id_column).as_str(),
        ") values ($1, true, '-D', $2)",
    )
}

/// The insertion of a new version of a row at snapshot `$1`.
pub open spec fn version_text(table_id: int, columns: Seq<ColumnSpec>) -> Seq<char> {
    "insert into "@ + inline_name(table_id) + " (begin_snapshot, loom_tombstone, loom_change_kind, "@
        + column_names(columns) + ") values ($1, false, '+U', "@ + parameters(columns.len(), 2) + ")"@
}

/// The insertion of a new version of a row at snapshot `$1`.
pub fn version_sql(table_id: i64, columns: &Vec<ColumnSpec>) -> (r: String)
    requires
        columns@.len() + 6 <= usize::MAX,
    ensures
        r@ == version_text(table_id as int, columns@),
{
    let mut s: String = "insert into ".to_owned();
    s.append(inline_table_name(table_id).as_str());
    s.append(" (begin_snapshot, loom_tombstone, loom_change_kind, ");
    s.append(column_list(columns).as_str());
    s.append(") values ($1, false, '+U', ");
    s.append(placeholders(columns.len(), 2).as_str());
    s.append(")");
    s
}

/// The insertion of a row of a change sequence: `$1` its snapshot, `$2` whether it is
/// a tombstone, `$3` its kind, `$4` its bucket, `$5` its offset, then its values.
pub open spec fn change_text(table_id: int, columns: Seq<ColumnSpec>) -> Seq<char> {
    "insert into "@ + inline_name(table_id)
        + " (begin_snapshot, loom_tombstone, loom_change_kind, loom_bucket, loom_offset, "@
        + column_names(columns) + ") values ($1, $2, $3, $4, $5, "@ + parameters(columns.len(), 6)
        + ")"@
}

/// The insertion of a row of a change sequence.
pub fn change_sql(table_id: i64, columns: &Vec<ColumnSpec>) -> (r: String)
    requires
        columns@.len() + 6 <= usize::MAX,
    ensures
        r@ == change_text(table_id as int, columns@),
{
    let mut s: String = "insert into ".to_owned();
    s.append(inline_table_name(table_id).as_str());
    s.append(" (begin_snapshot, loom_tombstone, loom_change_kind, loom_bucket, loom_offset, ");
    s.append(column_list(columns).as_str());
    s.append(") values ($1, $2, $3, $4, $5, ");
    s.append(placeholders(columns.len(), 6).as_str());
    s.append(")");
    s
}

/// The question for the live inline rows at a snapshot, oldest first, with or
/// without the images of rows before they were changed.
pub open spec fn live_rows_text(table_id: int, columns: Seq<ColumnSpec>, at: int, without_images: bool) -> Seq<
    char,
> {
    let head = "select loom_row_id, "@ + column_names(columns) + " from "@ + inline_name(table_id)
        + " where "@ + live_pred(at);
    if without_images {
        head + " and (loom_change_kind is null or loom_change_kind <> '-U')"@
            + " order by loom_row_id"@
    } else {
        head + " order by loom_row_id"@
    }
}

/// The question for the live inline rows at a snapshot, oldest first.
pub fn live_rows_sql(table_id: i64, columns: &Vec<ColumnSpec>, at: i64, without_images: bool) -> (r: String)
    ensures
        r@ == live_rows_text(table_id as int, columns@, at as int, without_images),
{
    let mut s: String = "select loom_row_id, ".to_owned();
    s.append(column_list(columns).as_str());
    s.append(" from ");
    s.append(inline_table_name(table_id).as_str());
    s.append(" where ");
    s.append(mvcc_live_pred(at).as_str());
    if without_images {
        s.append(" and (loom_change_kind is null or loom_change_kind <> '-U')");
    }
    s.append(" order by loom_row_id");
    s
}

/// The question for every live inline row at a snapshot with its snapshot and
/// whether it is a tombstone, oldest first.
pub fn live_shadow_sql(table_id: i64, columns: &Vec<ColumnSpec>, at: i64) -> (r: String)
    ensures
        r@ == "select loom_row_id, begin_snapshot, loom_tombstone, "@ + column_names(columns@)
            + " from "@ + inline_name(table_id as int) + " where "@ + live_pred(at as int)
            + " order by loom_row_id"@,
{
    let mut s: String = "select loom_row_id, begin_snapshot, loom_tombstone, ".to_owned();
    s.append(column_list(columns).as_str());
    s.append(" from ");
    s.append(inline_table_name(table_id).as_str());
    s.append(" where ");
    s.append(mvcc_live_pred(at).as_str());
    s.append(" order by loom_row_id");
    s
}

/// What a question about the inline rows of a table does next.
#[derive(Debug)]
pub enum InlineProbe {
    /// Nothing is stored inline.
    Nothing,
    /// Ask whether the table has inline storage.
    AskStorage { tid: i64 },
    /// Ask this.
    Ask { sql: String },
}

/// Whether a table has live inline rows at a snapshot: not where it is not live or has
/// no inline storage, else what the store answers.
pub fn has_live_inline_rows(tid: Option<i64>, stored: Option<bool>, at: i64) -> (r: InlineProbe)
    ensures
        match (tid, stored) {
            (None, _) => r is Nothing,
            (Some(t), None) => r == (InlineProbe::AskStorage { tid: t }),
            (Some(_), Some(false)) => r is Nothing,
            (Some(t), Some(true)) => r matches InlineProbe::Ask { sql } && sql@
                == "select exists(select 1 from "@ + inline_name(t as int) + " where "@ + live_pred(
                at as int,
            ) + ")"@,
        },
{
    match tid {
        None => InlineProbe::Nothing,
        Some(t) => match stored {
            None => InlineProbe::AskStorage { tid: t },
            Some(there) => {
                if there {
                    InlineProbe::Ask { sql: any_live_sql(t, at) }
                } else {
                    InlineProbe::Nothing
                }
            },
        },
    }
}

/// How the mark that a table has inline changes is cleared.
#[derive(Debug)]
pub enum ShadowClearing {
    /// There is no inline storage: clear it, and say whether it was set.
    Whole,
    /// Clear it by this command, and say whether a row went.
    By { sql: String },
}

/// How the mark that a table has inline changes is cleared, where no live row is one.
pub fn clear_has_shadow_if_quiescent(tid: i64, stored: bool) -> (r: ShadowClearing)
    ensures
        if stored {
            r matches ShadowClearing::By { sql } && sql@
                == "delete from iceberg_mirror.shadow_flag where table_id = $1 and not exists (select 1 from "@
                + inline_name(tid as int)
                + " where end_snapshot is null and (loom_tombstone or loom_change_kind in ('+U', '-D')))"@
        } else {
            r is Whole
        },
{
    if stored {
        ShadowClearing::By { sql: clear_shadow_sql(tid) }
    } else {
        ShadowClearing::Whole
    }
}

} // verus!
