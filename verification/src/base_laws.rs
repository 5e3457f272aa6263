//! What holds of the small parts that the rest is built on: the order of texts, the writing
//! of names and numbers in other forms, the keys of the store, signed requests, retirements,
//! and a control plane before anything was done to it.
use crate::ambient::{hex_digit, nibble, uuid_chars};
use crate::catalog::is_seed_file;
use crate::end_caps::{guarded, CapStep, Readers};
use crate::error::{ControlPlaneError, Fault};
use crate::fixture::{
    column_def, insert_batches, insert_rows, int_at, mentions_int, row_expr, SeedColumn,
};
use crate::iceberg_catalog::{is_stat, StatEntry};
use crate::iceberg_inline::{inline_name, quoted};
use crate::iceberg_landing::is_projected;
use crate::iceberg_mirror::{ConsolidateState, ProjectedColumn, ProjectedFile};
use crate::iceberg_schema_evolution::{column_change, schema_refusal, SchemaChange};
use crate::iceberg_stats::{stat_of, StatModel};
use crate::iceberg_type::from_iceberg;
use crate::inline_append::append_refusal;
use crate::inline_cells::{column_micros, missing, CellModel};
use crate::inline_delta::{
    are_logical_columns, consolidation_due, version_step, MirrorColumn, VersionStep,
};
use crate::jobs::{json_char, json_chars, json_text};
use crate::key::{bytes_before, parts_below};
use crate::memory::empty_control_plane;
use crate::mv_floor::EndCapIntent;
use crate::ontology::property_named;
use crate::signing::{
    canonical_request, hex_text, scope_text, signing_key, text_code, text_digest, text_to_sign,
};
use crate::text::int_text;
use crate::types::{ColumnSpec, ColumnStat, DataFile, FileRef, PropertyDef, TableRef};
use crate::words::{all_digits, digits_value, int_value, is_digit, normalized, unsigned_value};
use vstd::prelude::*;

verus! {

/// Of two texts the one whose first differing byte is the smaller comes first, and a text
/// comes before every longer one that begins with it.
pub proof fn law_order_of_bytes(head: Seq<u8>, a: Seq<u8>, b: Seq<u8>)
    ensures
        a.len() > 0 && b.len() > 0 && a[0] < b[0] ==> bytes_before(head + a, head + b),
        b.len() > 0 ==> bytes_before(head, head + b),
        bytes_before(a, b) ==> a != b && !bytes_before(b, a),
{
    reveal(bytes_before);
    let i = head.len() as int;
    if a.len() > 0 && b.len() > 0 && a[0] < b[0] {
        assert(parts_below(head + a, head + b, i));
    }
    if b.len() > 0 {
        assert(parts_below(head, head + b, i));
    }
    if bytes_before(a, b) {
        let p = choose|p: int| parts_below(a, b, p);
        if bytes_before(b, a) {
            let q = choose|q: int| parts_below(b, a, q);
            lemma_one_order(a, b, p, q);
        }
        if a == b {
            assert(bytes_before(b, a));
        }
    }
}

proof fn lemma_one_order(a: Seq<u8>, b: Seq<u8>, p: int, q: int)
    requires
        parts_below(a, b, p),
    ensures
        !parts_below(b, a, q),
{
    if parts_below(b, a, q) {
        assert(p < q ==> b[p] == a[p]);
        assert(q < p ==> a[q] == b[q]);
    }
}

/// A character that JSON takes as it is stands for itself inside a text of JSON; a quote and
/// a backslash have a backslash before them, and no control character stands there as it is.
pub proof fn law_json_characters(c: char)
    ensures
        c as int >= 32 && c != '"' && c != '\\' ==> json_char(c) == seq![c],
        c == '"' || c == '\\' ==> json_char(c) == seq!['\\', c],
        (c as int) < 32 ==> json_char(c).len() >= 2 && json_char(c)[0] == '\\' && !json_char(c).contains(
            c,
        ),
{
    reveal_strlit("\\\"");
    reveal_strlit("\\\\");
    reveal_strlit("\\b");
    reveal_strlit("\\t");
    reveal_strlit("\\n");
    reveal_strlit("\\f");
    reveal_strlit("\\r");
    reveal_strlit("\\u00");
    reveal_strlit("0123456789abcdef");
    assert(c == '"' ==> json_char(c) =~= seq!['\\', c]);
    assert(c == '\\' ==> json_char(c) =~= seq!['\\', c]);
}

/// A text of JSON is the characters of the text, each in its form, in their order, between
/// quotes.
pub proof fn law_json_text(t: Seq<char>, c: char)
    ensures
        json_text(Seq::empty()) == "\""@ + "\""@,
        json_chars(t.push(c)) == json_chars(t) + json_char(c),
        json_text(t) == "\""@ + json_chars(t) + "\""@,
{
    assert(t.push(c).drop_last() =~= t);
    assert("\""@ + Seq::<char>::empty() =~= "\""@);
}

/// A digit of base sixteen is told by its character: no two digits have the same one.
pub proof fn law_digits_of_base_sixteen(d: int, e: int)
    requires
        0 <= d < 16,
        0 <= e < 16,
    ensures
        d < 10 ==> hex_digit(d) as int == '0' as int + d,
        d >= 10 ==> hex_digit(d) as int == 'a' as int + (d - 10),
        hex_digit(d) == hex_digit(e) ==> d == e,
{
}

/// Bytes are written with two digits each, the higher half first.
pub proof fn law_bytes_in_base_sixteen(bytes: Seq<u8>, i: int)
    requires
        0 <= i < bytes.len(),
    ensures
        hex_text(bytes).len() == 2 * bytes.len(),
        hex_text(bytes)[2 * i] == hex_digit(bytes[i] as int / 16),
        hex_text(bytes)[2 * i + 1] == hex_digit(bytes[i] as int % 16),
{
    assert((2 * i) % 2 == 0 && (2 * i) / 2 == i);
    assert((2 * i + 1) % 2 == 1 && (2 * i + 1) / 2 == i);
}

/// A number is written as a UUID with thirty-two digits, the highest first, in groups of
/// eight, four, four, four and twelve.
pub proof fn law_uuid_groups(id: u128, k: int)
    ensures
        uuid_chars(id).len() == 36,
        uuid_chars(id)[8] == '-',
        uuid_chars(id)[13] == '-',
        uuid_chars(id)[18] == '-',
        uuid_chars(id)[23] == '-',
        0 <= k < 8 ==> uuid_chars(id)[k] == hex_digit(nibble(id, k)),
        8 <= k < 12 ==> uuid_chars(id)[k + 1] == hex_digit(nibble(id, k)),
        12 <= k < 16 ==> uuid_chars(id)[k + 2] == hex_digit(nibble(id, k)),
        16 <= k < 20 ==> uuid_chars(id)[k + 3] == hex_digit(nibble(id, k)),
        20 <= k < 32 ==> uuid_chars(id)[k + 4] == hex_digit(nibble(id, k)),
        nibble(id, 31) == id as int % 16,
{
    vstd::arithmetic::power::lemma_pow0(16);
    assert(id as int / 1 == id as int);
}

/// Digits are read from the left: another digit behind a number makes it ten times as much
/// and the digit.
pub proof fn law_digits_are_read(t: Seq<char>, c: char)
    requires
        is_digit(c),
    ensures
        all_digits(seq![c]),
        digits_value(seq![c]) as int == c as int - '0' as int,
        all_digits(t) ==> all_digits(t.push(c)) && digits_value(t.push(c)) == 10 * digits_value(t) + (
        c as int - '0' as int),
        '0' <= c && c <= '9',
{
    assert(seq![c].drop_last() =~= Seq::<char>::empty());
    assert(digits_value(Seq::<char>::empty()) == 0);
    assert(t.push(c).drop_last() =~= t);
    if all_digits(t) {
        assert forall|i: int| 0 <= i < t.push(c).len() implies is_digit(#[trigger] t.push(c)[i]) by {
            if i < t.len() {
                assert(is_digit(t[i]));
            }
        }
    }
}

/// A whole number may have a sign before its digits, which says what the number is; a number
/// without one may have a plus sign alone.
pub proof fn law_signs_are_read(t: Seq<char>)
    requires
        all_digits(t),
    ensures
        int_value(t) == Some(digits_value(t) as int),
        int_value(seq!['+'] + t) == Some(digits_value(t) as int),
        int_value(seq!['-'] + t) == Some(-(digits_value(t) as int)),
        unsigned_value(t) == Some(digits_value(t)),
        unsigned_value(seq!['+'] + t) == Some(digits_value(t)),
        unsigned_value(seq!['-'] + t) is None,
        int_value(Seq::empty()) is None,
        unsigned_value(Seq::empty()) is None,
{
    assert(is_digit(t[0]));
    assert((seq!['+'] + t).skip(1) =~= t);
    assert((seq!['-'] + t).skip(1) =~= t);
    assert(!is_digit((seq!['-'] + t)[0]));
}

/// A text with anything but digits in it is no number.
pub proof fn law_other_texts_are_no_numbers(t: Seq<char>, i: int)
    requires
        0 < i < t.len(),
        !is_digit(t[i]),
    ensures
        int_value(t) is None,
        unsigned_value(t) is None,
{
    assert(t.skip(1)[i - 1] == t[i]);
}

/// The request that makes a bucket is signed over its method, its path, each of the signed
/// headers with its value, their names and the digest of what it carries.
pub proof fn law_signed_request(bucket: Seq<char>, host: Seq<char>, digest: Seq<char>, stamp: Seq<char>)
    ensures
        canonical_request(bucket, host, digest, stamp) == "PUT\n/"@ + bucket + "\n\nhost:"@ + host
            + "\nx-amz-content-sha256:"@ + digest + "\nx-amz-date:"@ + stamp + "\n\n"@
            + "host;x-amz-content-sha256;x-amz-date"@ + "\n"@ + digest,
{
}

/// What is signed names the way of signing, the instant, the scope and the digest of the
/// request; the key is drawn from the secret by the day, the region, the service and the end
/// mark, in this order.
pub proof fn law_what_is_signed(stamp: Seq<char>, day: Seq<char>, request: Seq<char>, secret: Seq<u8>)
    ensures
        scope_text(day) == day + "/us-east-1/s3/aws4_request"@,
        text_to_sign(stamp, day, request) == "AWS4-HMAC-SHA256\n"@ + stamp + "\n"@ + (day
            + "/us-east-1/s3/aws4_request"@) + "\n"@ + hex_text(text_digest(request)),
        ({
            let by_day = text_code(secret, day);
            let by_region = text_code(by_day, "us-east-1"@);
            let by_service = text_code(by_region, "s3"@);
            signing_key(secret, day) == text_code(by_service, "aws4_request"@)
        }),
{
}

/// A retirement that takes rows away asks the readers first; it is refused where one of them
/// has not read that far, and run where none holds it back. One that only moves rows is run at
/// once.
pub proof fn law_retirements(
    step: CapStep,
    table: TableRef,
    intent: EndCapIntent,
    readers: Readers,
    sql: Seq<char>,
)
    requires
        guarded(step, table, intent, readers, sql),
    ensures
        intent is Removing && readers is Unasked ==> step is AskReaders,
        intent is Removing && (readers matches Readers::Asked { blocked: Some(_) }) ==> step is Refuse,
        intent is Removing && readers == (Readers::Asked { blocked: None }) ==> (
        step matches CapStep::Run { sql: s } && s@ == sql),
        intent is Reframing ==> (step matches CapStep::Run { sql: s } && s@ == sql),
        step is Refuse ==> intent is Removing && readers is Asked,
{
}

/// A control plane that nothing was done to holds nothing: no job, no table, no event, no
/// definition, no run, no object type, no right, no user, no stream and no schedule.
pub proof fn law_nothing_at_first(t: int)
    ensures
        ({
            let cp = empty_control_plane(t);
            &&& cp.lock_timeout == t
            &&& cp.rows.len() == 0
            &&& cp.events.len() == 0
            &&& cp.catalog.snapshots.len() == 0
            &&& cp.ontology.links.len() == 0
            &&& !cp.auth.sealed
            &&& forall|k| !#[trigger] cp.catalog.tables.dom().contains(k)
            &&& forall|k| !#[trigger] cp.catalog.columns.dom().contains(k)
            &&& forall|k| !#[trigger] cp.catalog.files.dom().contains(k)
            &&& forall|k| !#[trigger] cp.catalog.views.dom().contains(k)
            &&& forall|k| !#[trigger] cp.defs.dom().contains(k)
            &&& forall|k| !#[trigger] cp.runs.dom().contains(k)
            &&& forall|k| !#[trigger] cp.schedules.dom().contains(k)
            &&& forall|k| !#[trigger] cp.ontology.types.dom().contains(k)
            &&& forall|k| !#[trigger] cp.ontology.actions.dom().contains(k)
            &&& forall|k| !#[trigger] cp.ontology.vector_indexes.dom().contains(k)
            &&& forall|k| !#[trigger] cp.acl.subjects.contains(k)
            &&& forall|k| !#[trigger] cp.acl.roles.contains(k)
            &&& forall|k| !#[trigger] cp.acl.members.contains(k)
            &&& forall|k| !#[trigger] cp.acl.inherits.contains(k)
            &&& forall|k| !#[trigger] cp.acl.grants.dom().contains(k)
            &&& forall|k| !#[trigger] cp.acl.policies.dom().contains(k)
            &&& forall|k| !#[trigger] cp.auth.users.dom().contains(k)
            &&& forall|k| !#[trigger] cp.auth.sessions.dom().contains(k)
            &&& forall|k| !#[trigger] cp.auth.accounts.dom().contains(k)
            &&& forall|k| !#[trigger] cp.auth.tokens.dom().contains(k)
            &&& forall|k| !#[trigger] cp.streams.offsets.dom().contains(k)
            &&& forall|k| !#[trigger] cp.streams.tables.dom().contains(k)
            &&& forall|k| !#[trigger] cp.streams.watermarks.dom().contains(k)
        }),
{
}

/// A column that keeps its place is refused for the first of these that changed: its name, its
/// type, whether it may be missing; and is accepted where none of them did.
pub proof fn law_change_of_a_column(
    position: int,
    live: ProjectedColumn,
    incoming: ProjectedColumn,
)
    ensures
        column_change(position, live, incoming) is None <==> live.name@ == incoming.name@
            && live.iceberg_type@ == incoming.iceberg_type@ && live.nullable == incoming.nullable,
        live.name@ != incoming.name@ ==> column_change(position, live, incoming) == Some(
            SchemaChange::ColumnChangedAtPosition { position, was: live.name@, now: incoming.name@ },
        ),
        live.name@ == incoming.name@ && live.iceberg_type@ != incoming.iceberg_type@
            ==> column_change(position, live, incoming) == Some(
            SchemaChange::ColumnTypeChanged {
                name: live.name@,
                from: live.iceberg_type@,
                to: incoming.iceberg_type@,
            },
        ),
        live.name@ == incoming.name@ && live.iceberg_type@ == incoming.iceberg_type@ && live.nullable
            != incoming.nullable ==> column_change(position, live, incoming) == Some(
            SchemaChange::ColumnNullabilityChanged { name: live.name@ },
        ),
{
}

/// Rows are taken beside the files of a table without columns yet, and of one whose columns
/// are exactly theirs; a further column is refused there, even one that may be missing.
pub proof fn law_columns_beside_the_files(
    live: Seq<ProjectedColumn>,
    columns: Seq<ProjectedColumn>,
)
    ensures
        live.len() == 0 ==> append_refusal(live, columns) is None,
        live.len() > 0 && schema_refusal(live, columns) is Some ==> (append_refusal(live, columns) matches Some(
            Fault::Validation(_),
        )),
        live.len() > 0 && columns.len() > live.len() ==> append_refusal(live, columns) is Some,
        live.len() > 0 && schema_refusal(live, columns) is None && columns.len() <= live.len()
            ==> append_refusal(live, columns) is None,
{
}

/// The columns of a table as its users name them are those of the mirror, one for one: same
/// name, same answer to whether a value may be missing, and the type that the mirror's stands
/// for.
pub proof fn law_columns_as_users_name_them(
    columns: Seq<ColumnSpec>,
    rows: Seq<MirrorColumn>,
    i: int,
)
    requires
        are_logical_columns(columns, rows),
        0 <= i < rows.len(),
    ensures
        columns.len() == rows.len(),
        columns[i].name@ == rows[i].name@,
        columns[i].nullable == rows[i].nullable,
        from_iceberg(rows[i].column_type@, rows[i].parametric) is Some,
        columns[i].ty@ == (from_iceberg(rows[i].column_type@, rows[i].parametric)->0).name(),
{
}

/// A consolidation is due once as many changes gathered as the threshold says, and none waits
/// already.
pub proof fn law_consolidation_is_due(st: ConsolidateState)
    ensures
        st.enqueued ==> !consolidation_due(st),
        st.delta_count < st.effective ==> !consolidation_due(st),
        st.delta_count >= st.effective && !st.enqueued ==> consolidation_due(st),
{
}

/// The version of an identity is zero where the table is not live or keeps no rows beside its
/// files; where it does, the storage of this table is asked for this identity, which must not
/// be missing.
pub proof fn law_version_of_an_identity(
    tid: Option<i64>,
    identity: Result<CellModel, Fault>,
    id_column: Seq<char>,
    stored: Option<bool>,
    r: Result<VersionStep, ControlPlaneError>,
)
    requires
        version_step(tid, identity, id_column, stored, r),
    ensures
        r matches Ok(VersionStep::Zero) <==> tid is None || (identity is Ok && stored == Some(false)),
        r matches Ok(VersionStep::Ask { sql, id }) ==> {
            &&& tid is Some
            &&& stored == Some(true)
            &&& identity == Ok::<CellModel, Fault>(id@)
            &&& !missing(id@)
            &&& sql@ == "select coalesce(max(begin_snapshot), 0) as v from "@ + inline_name(
                tid->0 as int,
            ) + " where "@ + quoted(id_column)
                + " = $1 and end_snapshot is null and (loom_change_kind is null or loom_change_kind <> '-U')"@
        },
        tid is Some && identity is Err ==> (r matches Err(e) && e@ == identity->Err_0),
        tid is Some && identity is Ok && stored == Some(true) && missing(identity->Ok_0) ==> r is Err,
{
}

/// A file handed on keeps its path, its counts and what is known of its columns, and is said
/// to be Parquet.
pub proof fn law_files_handed_on(
    p: ProjectedFile,
    f: DataFile,
)
    requires
        is_projected(p, f),
    ensures
        p.path == f.path,
        p.record_count == f.record_count,
        p.file_size_bytes == f.file_size_bytes,
        p.column_stats == f.column_stats,
        p.file_format@ == "parquet"@,
{
}

/// What is known of a column is handed on as it was stored: the least value as the least, the
/// greatest as the greatest.
pub proof fn law_stats_handed_on(s: ColumnStat, e: StatEntry)
    requires
        is_stat(s, e),
    ensures
        s.column_name@ == e.column_name,
        s.null_count == e.null_count,
        s.column_size_bytes == e.column_size_bytes,
        s.min is Some <==> e.min is Some,
        s.max is Some <==> e.max is Some,
        s.min is Some ==> e.min == Some((s.min->0)@),
        s.max is Some ==> e.max == Some((s.max->0)@),
{
}

/// The property of a name is the first that has it; there is none only where no property has
/// the name.
pub proof fn law_property_of_a_name(properties: Seq<PropertyDef>, name: Seq<char>)
    ensures
        match property_named(properties, name) {
            Some(p) => exists|i: int|
                0 <= i < properties.len() && #[trigger] properties[i] == p && p.name@ == name && forall|j: int|
                    0 <= j < i ==> (#[trigger] properties[j]).name@ != name,
            None => forall|j: int| 0 <= j < properties.len() ==> (#[trigger] properties[j]).name@ != name,
        },
    decreases properties.len(),
{
    if properties.len() > 0 {
        if properties[0].name@ == name {
            assert(properties[0] == property_named(properties, name)->0);
        } else {
            let rest = properties.skip(1);
            law_property_of_a_name(rest, name);
            match property_named(rest, name) {
                Some(p) => {
                    let i = choose|i: int|
                        0 <= i < rest.len() && #[trigger] rest[i] == p && p.name@ == name && forall|j: int|
                            0 <= j < i ==> (#[trigger] rest[j]).name@ != name;
                    assert(properties[i + 1] == p);
                    assert forall|j: int| 0 <= j < i + 1 implies (#[trigger] properties[j]).name@ != name by {
                        if j > 0 {
                            assert(rest[j - 1] == properties[j]);
                        }
                    }
                },
                None => {
                    assert forall|j: int| 0 <= j < properties.len() implies (
                    #[trigger] properties[j]).name@ != name by {
                        if j > 0 {
                            assert(rest[j - 1] == properties[j]);
                        }
                    }
                },
            }
        }
    }
}

/// A seeded file has its place in its path, the rows of its batch and sixteen bytes for each.
pub proof fn law_seeded_files(f: FileRef, name: Seq<char>, i: int, n: int)
    requires
        is_seed_file(f, name, i, n),
    ensures
        f.path@ == "data/"@ + name + "_"@ + int_text(i) + ".parquet"@,
        f.record_count == n,
        f.file_size_bytes == 16 * n,
{
}

/// The fixture fills a column of whole numbers with the number of the row, and any other with
/// one letter cast to its type.
pub proof fn law_filling_a_column(ty: Seq<char>)
    ensures
        mentions_int(ty) ==> row_expr(ty) == "i"@,
        !mentions_int(ty) ==> row_expr(ty) == "CAST('x' AS "@ + ty + ")"@,
        mentions_int("int"@),
{
    reveal_strlit("int");
    assert(int_at("int"@, 0));
}

/// A column of a fixture is declared with its name and its type, and as one that must not be
/// missing where it must not.
pub proof fn law_declaring_a_column(c: SeedColumn)
    ensures
        c.nullable ==> column_def(c) == c.name@ + " "@ + c.ty@,
        !c.nullable ==> column_def(c) == c.name@ + " "@ + c.ty@ + " NOT NULL"@,
{
    assert(c.nullable ==> column_def(c) =~= c.name@ + " "@ + c.ty@);
}

/// A fixture inserts its batches one after the other, in their order.
pub proof fn law_batches_in_order(
    schema: Seq<char>,
    table: Seq<char>,
    columns: Seq<SeedColumn>,
    batches: Seq<usize>,
    n: usize,
)
    ensures
        insert_batches(schema, table, columns, Seq::empty()).len() == 0,
        insert_batches(schema, table, columns, batches.push(n)) == insert_batches(
            schema,
            table,
            columns,
            batches,
        ) + insert_rows(schema, table, columns, n as nat),
{
    assert(batches.push(n).drop_last() =~= batches);
}

/// The text of a bound is read under the type of its column: a whole number that fits, a
/// number that was told to be one, one of the two words, or any text. What does not read so,
/// and any other type, gives no bound.
pub proof fn law_bounds_are_read(text: Seq<char>, ty: Seq<char>, is_real: bool)
    ensures
        normalized(ty) == "int"@ ==> (match int_value(text) {
            Some(n) => if i32::MIN <= n <= i32::MAX {
                stat_of(text, ty, is_real) == Some(StatModel::I32(n))
            } else {
                stat_of(text, ty, is_real) is None
            },
            None => stat_of(text, ty, is_real) is None,
        }),
        normalized(ty) == "long"@ ==> (match int_value(text) {
            Some(n) => if i64::MIN <= n <= i64::MAX {
                stat_of(text, ty, is_real) == Some(StatModel::I64(n))
            } else {
                stat_of(text, ty, is_real) is None
            },
            None => stat_of(text, ty, is_real) is None,
        }),
        normalized(ty) == "double"@ && is_real ==> stat_of(text, ty, is_real) == Some(StatModel::Real(text)),
        normalized(ty) == "double"@ && !is_real ==> stat_of(text, ty, is_real) is None,
        normalized(ty) == "boolean"@ && text == "true"@ ==> stat_of(text, ty, is_real) == Some(
            StatModel::Bool(true),
        ),
        normalized(ty) == "boolean"@ && text == "false"@ ==> stat_of(text, ty, is_real) == Some(
            StatModel::Bool(false),
        ),
        normalized(ty) == "boolean"@ && text != "true"@ && text != "false"@ ==> stat_of(text, ty, is_real)
            is None,
        normalized(ty) == "string"@ ==> stat_of(text, ty, is_real) == Some(StatModel::Str(text)),
        normalized(ty) != "int"@ && normalized(ty) != "long"@ && normalized(ty) != "double"@ && normalized(
            ty,
        ) != "boolean"@ && normalized(ty) != "string"@ ==> stat_of(text, ty, is_real) is None,
{
    reveal_strlit("int");
    reveal_strlit("long");
    reveal_strlit("double");
    reveal_strlit("boolean");
    reveal_strlit("string");
    reveal_strlit("true");
    reveal_strlit("false");
    assert("int"@.len() == 3 && "long"@.len() == 4 && "double"@.len() == 6 && "boolean"@.len() == 7);
    assert("string"@.len() == 6 && "string"@[0] == 's' && "double"@[0] == 'd');
    assert("true"@.len() == 4 && "false"@.len() == 5);
}

/// An instant in nanoseconds is held in microseconds, rounded towards the first instant of
/// 1970, wherever the microseconds fit.
pub proof fn law_nanoseconds_in_microseconds(nanos: int)
    requires
        i64::MIN * 1000 <= nanos <= i64::MAX * 1000,
    ensures
        nanos >= 0 ==> 0 <= nanos - 1000 * column_micros(nanos) < 1000,
        nanos <= 0 ==> 0 <= 1000 * column_micros(nanos) - nanos < 1000,
{
}

} // verus!
