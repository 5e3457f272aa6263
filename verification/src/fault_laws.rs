//! What holds of the errors: which class each is of, what it names and in which order.
use crate::catalog::{dotted, dotted_at};
use crate::commit_mirror::conflict;
use crate::error::Fault;
use crate::iceberg_control_plane::uncreated;
use crate::iceberg_flush::{kind_fault, KindColumn};
use crate::iceberg_landing::{absent_column, misfit, unflushed, unregistered};
use crate::iceberg_schema_evolution::{change_message, SchemaChange};
use crate::inline_cells::mistyped;
use crate::inline_delta::{advanced, illogical};
use crate::inline_read::{unreadable, ReadMode};
use crate::mv_floor::{is_least, refusal, refuses_with, MvFloor};
use crate::names::no_field;
use crate::sql_catalog::shown_namespace;
use crate::stream::{malformed, refused, WatermarkAdvance};
use crate::text::{int_text, joined, nat_text};
use crate::types::{TableKey, TableRef};
use crate::words::debug_text;
use vstd::prelude::*;

verus! {

/// A change of a row that was beaten is a conflict that names the version expected before the
/// version found.
pub proof fn law_beaten_change(expected: int, found: int)
    ensures
        advanced(expected, found) == Fault::Conflict(
            "cow: identity version advanced "@ + int_text(expected) + " -> "@ + int_text(found)
                + " (concurrent mutation)"@,
        ),
{
}

/// A commit that was beaten is a conflict that names the table with its namespace.
pub proof fn law_beaten_commit(namespace: Seq<Seq<char>>, name: Seq<char>)
    ensures
        conflict(namespace, name) == Fault::Conflict(
            "Commit conflicted for table: "@ + joined(namespace, "."@) + "."@ + name,
        ),
{
}

/// An advance of a watermark that does not move forward is invalid; one that does not meet the
/// watermark is a conflict. Both name what it would have moved from and to, and for whom.
pub proof fn law_refused_advances(mv: Seq<char>, source: int, a: WatermarkAdvance, current: Option<i64>)
    ensures
        malformed(mv, source, a) == Fault::Validation(
            "mv watermark advance "@ + int_text(a.from as int) + ".."@ + int_text(a.to as int)
                + " is malformed (must move strictly forward: to > from) : "@ + mv + " source "@
                + int_text(source) + " bucket "@ + int_text(a.bucket as int),
        ),
        refused(mv, source, a, current) is Conflict,
        current is None ==> refused(mv, source, a, current) == Fault::Conflict(
            "mv watermark refused advance "@ + int_text(a.from as int) + ".."@ + int_text(a.to as int)
                + " : "@ + mv + " source "@ + int_text(source) + " bucket "@ + int_text(a.bucket as int)
                + " — the watermark is either ABOVE `from` (a concurrent run already covered this delta) or at/above `to` (the advance is not monotone); found "@
                + "None"@,
        ),
        current matches Some(n) ==> refused(mv, source, a, current) == Fault::Conflict(
            "mv watermark refused advance "@ + int_text(a.from as int) + ".."@ + int_text(a.to as int)
                + " : "@ + mv + " source "@ + int_text(source) + " bucket "@ + int_text(a.bucket as int)
                + " — the watermark is either ABOVE `from` (a concurrent run already covered this delta) or at/above `to` (the advance is not monotone); found "@
                + ("Some("@ + int_text(n as int) + ")"@),
        ),
{
}

/// A change of a schema that is refused is named with the column that changed, what it was and
/// what it would be.
pub proof fn law_refused_changes_of_a_schema(name: Seq<char>, position: int, was: Seq<char>, now: Seq<char>)
    ensures
        change_message(SchemaChange::ColumnDropped { name }) == "schema evolution unsupported: column "@
            + debug_text(name) + " was dropped"@,
        change_message(SchemaChange::ColumnChangedAtPosition { position, was, now })
            == "schema evolution unsupported: column at position "@ + int_text(position) + " changed from "@
            + debug_text(was) + " to "@ + debug_text(now) + " (rename or reorder)"@,
        change_message(SchemaChange::ColumnTypeChanged { name, from: was, to: now })
            == "schema evolution unsupported: column "@ + debug_text(name) + " type changed from "@ + debug_text(
            was,
        ) + " to "@ + debug_text(now),
        change_message(SchemaChange::ColumnNullabilityChanged { name })
            == "schema evolution unsupported: column "@ + debug_text(name) + " nullability changed"@,
        change_message(SchemaChange::NonNullableColumnAdded { name })
            == "schema evolution unsupported: new column "@ + debug_text(name) + " is not nullable"@,
{
}

/// Rows beside the files are in the way of new columns until they are flushed: the request is
/// invalid, and may be made again.
pub proof fn law_rows_in_the_way()
    ensures
        unflushed() == Fault::Validation(
            "schema evolution unsupported: flush inline rows before an additive land"@,
        ),
{
}

/// A type or a column that is not known is named as it was given.
pub proof fn law_unknown_types_and_columns(ty: Seq<char>, name: Seq<char>, names: Seq<String>, col: int)
    ensures
        unregistered(ty) == Fault::Backend("register: no iceberg type for "@ + debug_text(ty)),
        illogical(ty) == Fault::Backend(
            "inline: mirror column type "@ + debug_text(ty) + " has no loom logical type"@,
        ),
        unreadable(ReadMode::Shadow, ty) == Fault::Backend(
            "inline shadow read: unsupported type "@ + debug_text(ty),
        ),
        unreadable(ReadMode::Current, ty) == Fault::Backend("inline read: unsupported type "@ + debug_text(ty)),
        unreadable(ReadMode::Full, ty) == Fault::Backend("inline read: unsupported type "@ + debug_text(ty)),
        mistyped(col, ty, name) == Fault::Validation(
            "inline: column "@ + int_text(col) + " is not the declared "@ + ty + " (expected "@ + name + ")"@,
        ),
        absent_column(name, names) == Fault::Backend(
            "landing: column "@ + debug_text(name) + " declared but absent from the data: "@ + no_field(
                name,
                names,
            ),
        ),
{
}

/// A name that is not among the names is refused with all of them, in their order.
pub proof fn law_name_not_among(name: Seq<char>, a: String, b: String)
    ensures
        no_field(name, seq![a, b]) == "Schema error: Unable to get field named \""@ + name
            + "\". Valid fields: ["@ + (debug_text(a@) + ", "@ + debug_text(b@)) + "]"@,
        no_field(name, seq![a]) == "Schema error: Unable to get field named \""@ + name
            + "\". Valid fields: ["@ + debug_text(a@) + "]"@,
{
    let two = seq![debug_text(a@), debug_text(b@)];
    let one = seq![debug_text(a@)];
    assert(crate::names::shown_names(seq![a, b]) =~= two);
    assert(crate::names::shown_names(seq![a]) =~= one);
    assert(two.drop_last() =~= one);
    assert(joined(one, ", "@) == debug_text(a@));
    assert(joined(two, ", "@) == joined(one, ", "@) + ", "@ + debug_text(b@));
}

/// A vector with another number of elements than its type says is named with its row, the
/// number it has and the number it should have.
pub proof fn law_vector_of_another_length(name: Seq<char>, row: nat, len: int, n: nat)
    ensures
        misfit(name, row as int, len, n as int) == Fault::Backend(
            "landing: vector "@ + debug_text(name) + " row "@ + nat_text(row) + ": "@ + int_text(len)
                + " elements, want "@ + nat_text(n),
        ),
{
}

/// Rows of a stream of changes are flushed only where each says of what kind it is, in words.
pub proof fn law_kinds_must_be_texts(c: KindColumn)
    ensures
        c is Texts <==> kind_fault(c) is None,
        c is NotText ==> kind_fault(c) == Some(
            Fault::Backend("cdc flush: loom_change_kind is not a string column"@),
        ),
        c matches KindColumn::Missing { names } ==> kind_fault(c) == Some(
            Fault::Backend(
                "cdc flush: batch has no loom_change_kind column: "@ + no_field("loom_change_kind"@, names@),
            ),
        ),
{
}

/// Files for a table that the transaction did not create are refused with the table.
pub proof fn law_files_without_a_table(table: TableRef)
    ensures
        uncreated(table) == Fault::Backend(
            "IcebergTx: files staged for TableRef { schema: "@ + debug_text(table.schema@) + ", name: "@
                + debug_text(table.name@) + " } without a preceding create_table"@,
        ),
{
}

/// A removal that a reader holds back is invalid, and is refused with the table, the least
/// offset that a reader waits at, and who waits in each bucket.
pub proof fn law_refused_removal(e: Fault, table: TableRef, floor: MvFloor)
    requires
        refuses_with(e, table, floor),
    ensures
        e is Validation,
        exists|least: int|
            {
                &&& is_least(floor.per_bucket@, least)
                &&& e == #[trigger] refusal(table, least, floor.slowest.entries@)
                &&& forall|b: int| #[trigger]
                    floor.per_bucket@.dom().contains(b) ==> least <= floor.per_bucket@[b]
            },
{
    let least = choose|least: int|
        is_least(floor.per_bucket@, least) && e == #[trigger] refusal(table, least, floor.slowest.entries@);
    assert(e == refusal(table, least, floor.slowest.entries@));
}

/// What the refusal of a removal says.
pub proof fn law_words_of_a_refused_removal(table: TableRef, least: int, bucket: i32, reader: String)
    ensures
        refusal(table, least, seq![(bucket, reader)]) == Fault::Validation(
            "mv-floor refuses end-cap:"@ + " "@ + table.schema@ + "."@ + table.name@
                + " carries offsets a micro-batch MV has not read (floor "@ + int_text(least) + ", slowest {"@
                + (int_text(bucket as int) + ": "@ + debug_text(reader@))
                + "}); removing them would leave a hole in its delta"@,
        ),
{
    let one = seq![(bucket, reader)];
    let shown = crate::mv_floor::shown_holders(one);
    assert(shown =~= seq![int_text(bucket as int) + ": "@ + debug_text(reader@)]);
    assert(joined(shown, ", "@) == shown[0]);
}

/// A table is named with its schema before its name, and a state of it with the snapshot behind.
pub proof fn law_names_of_tables(k: TableKey, s: int)
    ensures
        dotted(k) == k.0 + "."@ + k.1,
        dotted_at(k, s) == k.0 + "."@ + k.1 + " @ "@ + int_text(s),
{
}

/// A namespace of one level is shown with that level.
pub proof fn law_names_of_namespaces(level: String)
    ensures
        shown_namespace(seq![level]) == "NamespaceIdent(["@ + debug_text(level@) + "])"@,
{
    let shown = crate::names::shown_names(seq![level]);
    assert(shown =~= seq![debug_text(level@)]);
    assert(joined(shown, ", "@) == debug_text(level@));
}

} // verus!
