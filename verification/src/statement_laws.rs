//! What holds of the statements on the rows beside the files, and of the texts that they are
//! made of.
use crate::iceberg_inline::{
    alter_text, append_text, change_text, column_names, ddl_columns, ddl_text, doubled,
    duplicate_code, inline_name, live_pred, max_version_text, parameters, quoted, savepoint_close,
    schema_ddl, version_text, DdlOutcome,
};
use crate::iceberg_type::to_pg;
use crate::text::{holds, int_text, joined, nat_text, starts_with, texts};
use crate::types::ColumnSpec;
use crate::words::{is_white, normalized, small, trimmed_end, trimmed_start};
use vstd::prelude::*;

verus! {

/// Each table has storage of its own, named by its number; a row is live at a snapshot where
/// it began by then and had not ended by then.
pub proof fn law_storage_and_liveness(tid: int, at: int)
    ensures
        inline_name(tid) == "iceberg_mirror.inline_"@ + int_text(tid),
        live_pred(at) == "begin_snapshot <= "@ + int_text(at)
            + " and (end_snapshot is null or end_snapshot > "@ + int_text(at) + ")"@,
{
}

/// An insertion names its columns and gives each a parameter, numbered on from those of the
/// framing: the snapshot first, and behind it what the row says of itself.
pub proof fn law_insertions(tid: int, columns: Seq<ColumnSpec>)
    ensures
        append_text(tid, columns, false) == "insert into "@ + ("iceberg_mirror.inline_"@ + int_text(tid))
            + " (begin_snapshot, "@ + column_names(columns) + ") values ($1, "@ + parameters(
            columns.len(),
            2,
        ) + ")"@,
        append_text(tid, columns, true) == "insert into "@ + ("iceberg_mirror.inline_"@ + int_text(tid))
            + " (begin_snapshot, loom_bucket, loom_offset, "@ + column_names(columns)
            + ") values ($1, $2, $3, "@ + parameters(columns.len(), 4) + ")"@,
        version_text(tid, columns) == "insert into "@ + ("iceberg_mirror.inline_"@ + int_text(tid))
            + " (begin_snapshot, loom_tombstone, loom_change_kind, "@ + column_names(columns)
            + ") values ($1, false, '+U', "@ + parameters(columns.len(), 2) + ")"@,
        change_text(tid, columns) == "insert into "@ + ("iceberg_mirror.inline_"@ + int_text(tid))
            + " (begin_snapshot, loom_tombstone, loom_change_kind, loom_bucket, loom_offset, "@
            + column_names(columns) + ") values ($1, $2, $3, $4, $5, "@ + parameters(columns.len(), 6)
            + ")"@,
{
}

/// The latest version of an identity is that of its live rows, without those as they were
/// before a change, and zero where there is none.
pub proof fn law_latest_version(tid: int, id_column: Seq<char>)
    ensures
        max_version_text(tid, id_column) == "select coalesce(max(begin_snapshot), 0) as v from "@ + (
        "iceberg_mirror.inline_"@ + int_text(tid)) + " where "@ + quoted(id_column)
            + " = $1 and end_snapshot is null and (loom_change_kind is null or loom_change_kind <> '-U')"@,
{
}

/// The storage of a table has each of its columns under its quoted name and with its type
/// there, behind those of the framing; a table with a column that has no type there has no
/// storage.
pub proof fn law_storage_has_the_columns(tid: int, columns: Seq<ColumnSpec>, c: ColumnSpec)
    ensures
        ddl_columns(Seq::empty()).len() == 0,
        ddl_columns(columns.push(c)) == ddl_columns(columns) + ", "@ + quoted(c.name@) + " "@ + to_pg(
            c.ty@,
        )->0,
        ddl_text(tid, columns) matches Ok(t) ==> t == "create table if not exists "@ + (
        "iceberg_mirror.inline_"@ + int_text(tid))
            + " (loom_row_id bigserial primary key, begin_snapshot bigint not null, end_snapshot bigint, loom_tombstone boolean not null default false, loom_change_kind text not null default '+I', loom_bucket int, loom_offset bigint"@
            + ddl_columns(columns) + ")"@,
        ddl_text(tid, columns) is Ok <==> forall|i: int|
            0 <= i < columns.len() ==> to_pg((#[trigger] columns[i]).ty@) is Some,
{
    assert(columns.push(c).drop_last() =~= columns);
    lemma_first_untyped(columns, 0);
}

proof fn lemma_first_untyped(columns: Seq<ColumnSpec>, from: int)
    requires
        from >= 0,
    ensures
        match crate::iceberg_inline::first_untyped(columns, from) {
            Some(i) => from <= i < columns.len() && to_pg(columns[i].ty@) is None,
            None => forall|i: int|
                from <= i < columns.len() ==> to_pg((#[trigger] columns[i]).ty@) is Some,
        },
    decreases columns.len() - from,
{
    if from < columns.len() && to_pg(columns[from].ty@) is Some {
        lemma_first_untyped(columns, from + 1);
    }
}

/// Storage that was made before a column of the framing existed gets it: after the creation
/// the four columns of the framing are added where they are missing.
pub proof fn law_older_storage_is_brought_up(tid: int, columns: Seq<ColumnSpec>)
    requires
        ddl_text(tid, columns) is Ok,
    ensures
        ({
            let name = "iceberg_mirror.inline_"@ + int_text(tid);
            let list = schema_ddl(tid, columns)->Ok_0;
            &&& schema_ddl(tid, columns) is Ok
            &&& list.len() == 5
            &&& list[0] == ddl_text(tid, columns)->Ok_0
            &&& list[1] == "alter table "@ + name + " add column if not exists "@
                + "loom_tombstone boolean not null default false"@
            &&& list[2] == "alter table "@ + name + " add column if not exists "@
                + "loom_change_kind text not null default '+I'"@
            &&& list[3] == "alter table "@ + name + " add column if not exists "@ + "loom_bucket int"@
            &&& list[4] == "alter table "@ + name + " add column if not exists "@ + "loom_offset bigint"@
        }),
{
    assert(alter_text(tid, "loom_bucket int"@) == "alter table "@ + inline_name(tid)
        + " add column if not exists "@ + "loom_bucket int"@);
}

/// A creation that lost a race is told by the codes of the database for what is there
/// already.
pub proof fn law_codes_of_a_lost_race()
    ensures
        duplicate_code("42P07"@),
        duplicate_code("42701"@),
        duplicate_code("42710"@),
        duplicate_code("23505"@),
{
}

/// A creation that went through keeps what it did; one that lost a race, or failed, is
/// undone.
pub proof fn law_savepoint_is_closed()
    ensures
        savepoint_close(DdlOutcome::Done) == seq!["release savepoint loom_ddl"@],
        savepoint_close(DdlOutcome::LostRace).len() == 2,
        savepoint_close(DdlOutcome::LostRace)[0] == "rollback to savepoint loom_ddl"@,
        savepoint_close(DdlOutcome::LostRace)[1] == "release savepoint loom_ddl"@,
        savepoint_close(DdlOutcome::Failed).len() == 1,
        savepoint_close(DdlOutcome::Failed)[0] == "rollback to savepoint loom_ddl"@,
{
}

/// A name without quotes is quoted as it is; a quote inside one is written twice.
pub proof fn law_names_are_quoted(name: Seq<char>, c: char)
    ensures
        doubled(Seq::empty()).len() == 0,
        c == '"' ==> doubled(seq![c] + name) == seq!['"', '"'] + doubled(name),
        c != '"' ==> doubled(seq![c] + name) == seq![c] + doubled(name),
        quoted(name) == "\""@ + doubled(name) + "\""@,
{
    assert((seq![c] + name).skip(1) =~= name);
}

/// Texts are joined with the separator between each and the next, and nowhere else.
pub proof fn law_texts_are_joined(parts: Seq<Seq<char>>, part: Seq<char>, sep: Seq<char>)
    ensures
        joined(Seq::empty(), sep).len() == 0,
        joined(seq![part], sep) == part,
        parts.len() > 0 ==> joined(parts.push(part), sep) == joined(parts, sep) + sep + part,
{
    assert(seq![part][0] == part);
    assert(parts.push(part).drop_last() =~= parts);
}

/// A text begins with another where it is that text and something behind it; a list holds a
/// text where one of its texts is that text.
pub proof fn law_beginnings_and_lists(prefix: Seq<char>, rest: Seq<char>, t: Seq<char>, list: Seq<String>, i: int)
    ensures
        starts_with(prefix + rest, prefix),
        starts_with(t, prefix) ==> t == prefix + t.skip(prefix.len() as int),
        0 <= i < list.len() ==> holds(list, list[i]@) && texts(list)[i] == list[i]@,
        !holds(Seq::empty(), t),
{
    assert((prefix + rest).take(prefix.len() as int) =~= prefix);
    if starts_with(t, prefix) {
        assert(t =~= t.take(prefix.len() as int) + t.skip(prefix.len() as int));
    }
    if 0 <= i < list.len() {
        assert(list[i]@ == list[i]@);
    }
}

/// A number is written with its last digit last: ten times a number and a digit is the text
/// of the number and the digit; a negative number has a minus sign before it.
pub proof fn law_numbers_in_decimal(n: nat, d: nat)
    requires
        d < 10,
    ensures
        nat_text(0) == "0"@,
        nat_text(1) == "1"@,
        nat_text(2) == "2"@,
        nat_text(3) == "3"@,
        nat_text(4) == "4"@,
        nat_text(5) == "5"@,
        nat_text(6) == "6"@,
        nat_text(7) == "7"@,
        nat_text(8) == "8"@,
        nat_text(9) == "9"@,
        n > 0 ==> nat_text(10 * n + d) == nat_text(n) + nat_text(d),
        int_text(n as int) == nat_text(n),
        n > 0 ==> int_text(-(n as int)) == "-"@ + nat_text(n),
{
    reveal_strlit("0");
    reveal_strlit("1");
    reveal_strlit("2");
    reveal_strlit("3");
    reveal_strlit("4");
    reveal_strlit("5");
    reveal_strlit("6");
    reveal_strlit("7");
    reveal_strlit("8");
    reveal_strlit("9");
    reveal_strlit("-");
    assert(nat_text(0) =~= "0"@);
    assert(nat_text(1) =~= "1"@);
    assert(nat_text(2) =~= "2"@);
    assert(nat_text(3) =~= "3"@);
    assert(nat_text(4) =~= "4"@);
    assert(nat_text(5) =~= "5"@);
    assert(nat_text(6) =~= "6"@);
    assert(nat_text(7) =~= "7"@);
    assert(nat_text(8) =~= "8"@);
    assert(nat_text(9) =~= "9"@);
    if n > 0 {
        let m = 10 * n + d;
        assert(m / 10 == n && m % 10 == d);
        assert(nat_text(m) =~= nat_text(n) + nat_text(d));
        assert(int_text(-(n as int)) =~= "-"@ + nat_text(n));
    }
}

/// Trimming takes white space off both ends and nothing else: what is left neither begins
/// nor ends with white space.
pub proof fn law_trimming(t: Seq<char>)
    ensures
        trimmed_start(t).len() > 0 ==> !is_white(trimmed_start(t)[0]),
        trimmed_end(t).len() > 0 ==> !is_white(trimmed_end(t).last()),
        t.len() > 0 && !is_white(t[0]) ==> trimmed_start(t) == t,
        t.len() > 0 && !is_white(t.last()) ==> trimmed_end(t) == t,
        exists|n: int|
            0 <= n <= t.len() && #[trigger] t.skip(n) == trimmed_start(t) && forall|i: int|
                0 <= i < n ==> is_white(#[trigger] t[i]),
    decreases t.len(),
{
    if t.len() > 0 {
        law_trimming(t.skip(1));
        law_trimming(t.drop_last());
        if is_white(t[0]) {
            let rest = t.skip(1);
            let n = choose|n: int|
                0 <= n <= rest.len() && #[trigger] rest.skip(n) == trimmed_start(rest) && forall|i: int|
                    0 <= i < n ==> is_white(#[trigger] rest[i]);
            assert(t.skip(n + 1) =~= rest.skip(n));
            assert forall|i: int| 0 <= i < n + 1 implies is_white(#[trigger] t[i]) by {
                if i > 0 {
                    assert(rest[i - 1] == t[i]);
                }
            }
        } else {
            assert(t.skip(0) =~= t);
        }
    } else {
        assert(t.skip(0) =~= t);
    }
}

/// A name is compared without the white space around it and in small letters; capital
/// letters of ASCII become small, and every other character stays.
pub proof fn law_names_are_compared(t: Seq<char>, i: int, c: char)
    ensures
        ({
            let s = trimmed_end(trimmed_start(t));
            &&& normalized(t).len() == s.len()
            &&& 0 <= i < s.len() ==> normalized(t)[i] == small(s[i])
        }),
        'A' <= c && c <= 'Z' ==> small(c) as int == c as int + 32,
        !('A' <= c && c <= 'Z') ==> small(c) == c,
{
}

/// A space, a tab and an end of a line are white space; a letter, a digit and a sign are
/// not.
pub proof fn law_what_is_white()
    ensures
        is_white(' '),
        is_white('\t'),
        is_white('\n'),
        is_white('\r'),
        !is_white('a'),
        !is_white('Z'),
        !is_white('0'),
        !is_white('-'),
        !is_white('_'),
{
}

} // verus!
