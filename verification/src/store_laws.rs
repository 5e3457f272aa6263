//! What holds of the tables' registry and of the rules and the lineage that are kept in a
//! database: what is asked before something is stored, and how what is stored is read.
use crate::lineage::RunRole;
use crate::sql_catalog::{
    are_insert_args, create_step, differs, drop_step, insert_sql, is_group, levels_of, load_step,
    location_of, missing, number_prop, numbered, prop_or, register_step, rename_step, row_namespace,
    same_name, stored_properties, with_props, CatalogFault, CatalogStep, DropStep, TableName,
};
use crate::stored_lineage::{
    datasets_of, first_odd, is_event, keys_of, row_summary, DatasetRow, EventRow, RunRow,
};
use crate::stored_rules::{
    account_step, assign_step, grant_step, inherit_step, policy_step, StoreVerdict,
};
use crate::text::{joined, nat_text, texts};
use crate::types::{DatasetKey, LineageEvent, Policy, PolicyTarget};
use vstd::prelude::*;

verus! {

/// Properties are set one after the other: the last value of a property stands, and what
/// is not set stays.
pub proof fn law_last_value_stands(
    m: Map<Seq<char>, String>,
    pairs: Seq<(String, String)>,
    p: (String, String),
    other: Seq<char>,
)
    ensures
        with_props(m, Seq::empty()) == m,
        with_props(m, pairs.push(p)).dom().contains(p.0@),
        with_props(m, pairs.push(p))[p.0@] == p.1,
        other != p.0@ ==> with_props(m, pairs.push(p)).dom().contains(other) == with_props(
            m,
            pairs,
        ).dom().contains(other) && with_props(m, pairs.push(p))[other] == with_props(m, pairs)[other],
{
    assert(pairs.push(p).drop_last() =~= pairs);
}

/// A property that is set counts, and otherwise what is set without it; a number must be
/// one, and within its bounds.
pub proof fn law_properties_come_first(
    m: Map<Seq<char>, String>,
    key: Seq<char>,
    other: String,
    max: nat,
    default: nat,
)
    ensures
        m.dom().contains(key) ==> prop_or(m, key, other) == m[key],
        !m.dom().contains(key) ==> prop_or(m, key, other) == other,
        !m.dom().contains(key) ==> number_prop(m, key, max, default) == Some(default),
        m.dom().contains(key) && number_prop(m, key, max, default) is Some ==> number_prop(
            m,
            key,
            max,
            default,
        )->0 <= max && crate::words::unsigned_value(m[key]@) == number_prop(m, key, max, default),
{
}

/// A command without question marks stays as it is, and the first question mark of a
/// command gets the first number, the others the next ones.
pub proof fn law_question_marks_are_numbered(head: Seq<char>, tail: Seq<char>, count: nat)
    requires
        forall|i: int| 0 <= i < head.len() ==> #[trigger] head[i] != '?',
    ensures
        numbered(head, count) == head,
        numbered(head + seq!['?'] + tail, count) == head + "$"@ + nat_text(count) + numbered(
            tail,
            count + 1,
        ),
    decreases head.len(),
{
    let whole = head + seq!['?'] + tail;
    if head.len() == 0 {
        assert(numbered(head, count) =~= head);
        assert(whole[0] == '?');
        assert(whole.skip(1) =~= tail);
        assert(head + "$"@ + nat_text(count) + numbered(tail, count + 1) =~= "$"@ + nat_text(count)
            + numbered(tail, count + 1));
    } else {
        let rest = head.skip(1);
        assert forall|i: int| 0 <= i < rest.len() implies #[trigger] rest[i] != '?' by {
            assert(rest[i] == head[i + 1]);
        }
        law_question_marks_are_numbered(rest, tail, count);
        assert(head[0] != '?');
        assert(seq![head[0]] + rest =~= head);
        assert(whole[0] == head[0]);
        assert(whole.skip(1) =~= rest + seq!['?'] + tail);
        assert(seq![head[0]] + (rest + "$"@ + nat_text(count) + numbered(tail, count + 1)) =~= head
            + "$"@ + nat_text(count) + numbered(tail, count + 1));
    }
}

/// At the top stands the first level of each namespace; below a parent the whole of each
/// that begins with the parent and a dot.
pub proof fn law_namespaces_of_a_row(row: Seq<char>, parent: Seq<char>)
    ensures
        row_namespace(row, None) == Some(seq![levels_of(row)[0]]),
        crate::text::starts_with(row, parent + "."@) ==> row_namespace(row, Some(parent)) == Some(
            levels_of(row),
        ),
        !crate::text::starts_with(row, parent + "."@) ==> row_namespace(row, Some(parent)) is None,
{
}

/// The insertion of properties has a group of four arguments for each: the catalog, the
/// namespace, the property and its value, in this order.
pub proof fn law_arguments_of_a_property(
    args: Seq<String>,
    catalog: Seq<char>,
    namespace: Seq<char>,
    entries: Seq<(String, String)>,
    i: int,
)
    requires
        are_insert_args(args, catalog, namespace, entries),
        0 <= i < entries.len(),
    ensures
        args.len() == 4 * entries.len(),
        args[4 * i]@ == catalog,
        args[4 * i + 1]@ == namespace,
        args[4 * i + 2] == entries[i].0,
        args[4 * i + 3] == entries[i].1,
        insert_sql(1)
            == "INSERT INTO iceberg_namespace_properties (catalog_name, namespace, property_key, property_value) VALUES (?, ?, ?, ?)"@,
        insert_sql((i + 2) as nat) == insert_sql((i + 1) as nat) + ", (?, ?, ?, ?)"@,
{
    assert(is_group(args, i, catalog, namespace, entries[i]));
}

/// A namespace keeps each property that it is given, and is marked as existing.
pub proof fn law_namespace_is_marked(
    properties: Map<Seq<char>, String>,
    stored: Map<Seq<char>, String>,
    k: Seq<char>,
)
    requires
        stored_properties(properties, stored),
    ensures
        stored.dom().contains("exists"@) && stored["exists"@]@ == "true"@,
        k != "exists"@ ==> (stored.dom().contains(k) <==> properties.dom().contains(k)),
        k != "exists"@ && properties.dom().contains(k) ==> stored[k] == properties[k],
{
}

/// A wanted property is changed where it is there with another value, and added where it is
/// not there.
pub proof fn law_what_an_update_changes(existing: Map<Seq<char>, String>, p: (String, String))
    ensures
        !existing.dom().contains(p.0@) ==> missing(existing, p) && !differs(existing, p),
        existing.dom().contains(p.0@) && existing[p.0@]@ == p.1@ ==> !missing(existing, p) && !differs(
            existing,
            p,
        ),
        existing.dom().contains(p.0@) && existing[p.0@]@ != p.1@ ==> !missing(existing, p) && differs(
            existing,
            p,
        ),
{
}

/// A table is kept where its creation says; else under its name below the place of its
/// namespace; else under its name below the levels of its namespace in the warehouse.
pub proof fn law_where_a_table_is_kept(
    location: Seq<char>,
    namespace_location: Option<Seq<char>>,
    warehouse: Seq<char>,
    namespace: Seq<Seq<char>>,
    name: Seq<char>,
)
    ensures
        location_of(Some(location), namespace_location, warehouse, namespace, name) == location,
        namespace_location matches Some(l) ==> location_of(
            None,
            namespace_location,
            warehouse,
            namespace,
            name,
        ) == l + "/"@ + name,
        location_of(None, None, warehouse, namespace, name) == warehouse + "/"@ + joined(namespace, "/"@)
            + "/"@ + name,
{
}

/// A table is created once it is known that its namespace exists and no table has its
/// name; it is registered once the latter is known, and loaded once it is known to exist.
pub proof fn law_when_a_table_is_made(namespace: Option<bool>, table: Option<bool>)
    ensures
        create_step(namespace, table) == CatalogStep::Proceed <==> namespace == Some(true) && table == Some(
            false,
        ),
        namespace == Some(false) ==> create_step(namespace, table) == CatalogStep::Refuse(
            CatalogFault::NoSuchNamespace,
        ),
        namespace == Some(true) && table == Some(true) ==> create_step(namespace, table)
            == CatalogStep::Refuse(CatalogFault::TableAlreadyExists),
        register_step(table) == CatalogStep::Proceed <==> table == Some(false),
        table == Some(true) ==> register_step(table) == CatalogStep::Refuse(
            CatalogFault::TableAlreadyExists,
        ),
        load_step(table) == CatalogStep::Proceed <==> table == Some(true),
        table == Some(false) ==> load_step(table) == CatalogStep::Refuse(CatalogFault::NoSuchTable),
{
}

/// A table is renamed once it is known to exist, its new namespace to exist and its new name
/// to be free; one that keeps its name is left alone.
pub proof fn law_when_a_table_is_renamed(
    src: TableName,
    dest: TableName,
    table: Option<bool>,
    namespace: Option<bool>,
    target: Option<bool>,
)
    ensures
        ({
            let same = texts(src.namespace@) == texts(dest.namespace@) && src.name@ == dest.name@;
            let step = rename_step(src, dest, table, namespace, target);
            &&& same ==> step == CatalogStep::Skip
            &&& step == CatalogStep::Proceed <==> !same && table == Some(true) && namespace == Some(true)
                && target == Some(false)
            &&& !same && table == Some(false) ==> step == CatalogStep::Refuse(CatalogFault::NoSuchTable)
            &&& !same && table == Some(true) && namespace == Some(false) ==> step == CatalogStep::Refuse(
                CatalogFault::NoSuchNamespace,
            )
            &&& !same && table == Some(true) && namespace == Some(true) && target == Some(true) ==> step
                == CatalogStep::Refuse(CatalogFault::TableAlreadyExists)
        }),
{
    assert(same_name(src, dest) == (texts(src.namespace@) == texts(dest.namespace@) && src.name@
        == dest.name@));
}

/// A table that is dropped must exist; its pointer goes first, and where the mirror has it,
/// its end there comes before the commit.
pub proof fn law_how_a_table_is_dropped()
    ensures
        drop_step(Some(false), None) == DropStep::Refuse(CatalogFault::NoSuchTable),
        drop_step(Some(true), None) == DropStep::DeletePointer,
        drop_step(Some(true), Some(true)) == DropStep::EndMirror,
        drop_step(Some(true), Some(false)) == DropStep::Commit,
{
}

/// A role is assigned once both the subject and the role are known to exist; whichever is
/// missing refuses it.
pub proof fn law_when_a_role_is_assigned(
    subject: Seq<char>,
    role: Seq<char>,
    subject_exists: Option<bool>,
    role_exists: Option<bool>,
)
    ensures
        assign_step(subject, role, subject_exists, role_exists) is Store <==> subject_exists == Some(true)
            && role_exists == Some(true),
        subject_exists == Some(false) ==> (assign_step(
            subject,
            role,
            subject_exists,
            role_exists,
        ) matches StoreVerdict::Refuse(f) && f is NotFound),
        subject_exists == Some(true) && role_exists == Some(false) ==> (assign_step(
            subject,
            role,
            subject_exists,
            role_exists,
        ) matches StoreVerdict::Refuse(f) && f is NotFound),
{
}

/// A role inherits another once both are known to exist and no cycle to come of it.
pub proof fn law_when_a_role_inherits(
    role: Seq<char>,
    inherits: Seq<char>,
    role_exists: Option<bool>,
    inherits_exists: Option<bool>,
    creates_cycle: Option<bool>,
)
    ensures
        ({
            let step = inherit_step(role, inherits, role_exists, inherits_exists, creates_cycle);
            &&& step is Store <==> role_exists == Some(true) && inherits_exists == Some(true)
                && creates_cycle == Some(false)
            &&& role_exists == Some(false) ==> (step matches StoreVerdict::Refuse(f) && f is NotFound)
            &&& role_exists == Some(true) && inherits_exists == Some(false) ==> (
            step matches StoreVerdict::Refuse(f) && f is NotFound)
            &&& role_exists == Some(true) && inherits_exists == Some(true) && creates_cycle == Some(true) ==> (
            step matches StoreVerdict::Refuse(f) && f is Conflict)
        }),
{
}

/// A grant is stored once its role is known to exist and, where it is on a type, its type
/// too; a policy likewise, and once its row filter is accepted where it has one.
pub proof fn law_when_a_rule_is_stored(
    role: Seq<char>,
    target: PolicyTarget,
    policy: Policy,
    role_exists: Option<bool>,
    type_exists: Option<bool>,
    filter: Option<Result<(), String>>,
)
    ensures
        grant_step(role, target, role_exists, type_exists) is Store <==> role_exists == Some(true) && (
        target is Type ==> type_exists == Some(true)),
        policy_step(role, policy, role_exists, type_exists, filter) is Store <==> role_exists == Some(true)
            && (policy.target is Type ==> type_exists == Some(true)) && (policy.row_filter is Some ==> (
        filter matches Some(verdict) && verdict is Ok)),
        role_exists == Some(false) ==> (grant_step(role, target, role_exists, type_exists) matches StoreVerdict::Refuse(
            f,
        ) && f is NotFound),
        role_exists == Some(false) ==> (policy_step(
            role,
            policy,
            role_exists,
            type_exists,
            filter,
        ) matches StoreVerdict::Refuse(f) && f is NotFound),
{
}

/// A service account is stored once its subject is known to be no user.
pub proof fn law_when_an_account_is_stored(subject: Seq<char>, clashes_user: Option<bool>)
    ensures
        account_step(subject, clashes_user) is Store <==> clashes_user == Some(false),
        clashes_user == Some(true) ==> (account_step(subject, clashes_user) matches StoreVerdict::Refuse(f)
            && f is Conflict),
{
}

/// An event is read with its run, its kind, its instant and its payload; its inputs are the
/// datasets of its rows that say `input`, its outputs those that say `output`.
pub proof fn law_event_is_read_as_kept(
    e: LineageEvent,
    run: u128,
    row: EventRow,
    datasets: Seq<DatasetRow>,
)
    requires
        is_event(e, run, row, datasets),
    ensures
        e.run_id == run,
        e.event_type == row.event_type,
        e.event_time == row.event_time,
        e.payload@ == row.payload@,
        keys_of(e.inputs@) == kept_datasets(datasets, row.event_id, "input"@),
        keys_of(e.outputs@) == kept_datasets(datasets, row.event_id, "output"@),
{
    lemma_kept_datasets(datasets, row.event_id, "input"@);
    lemma_kept_datasets(datasets, row.event_id, "output"@);
}

/// The datasets of an event that its rows have in a direction, in their order.
pub open spec fn kept_datasets(rows: Seq<DatasetRow>, event_id: i64, direction: Seq<char>) -> Seq<DatasetKey> {
    rows.filter(|r: DatasetRow| r.event_id == event_id && r.direction@ == direction).map_values(
        |r: DatasetRow| (r.namespace@, r.name@),
    )
}

proof fn lemma_kept_datasets(rows: Seq<DatasetRow>, event_id: i64, direction: Seq<char>)
    ensures
        datasets_of(rows, event_id, direction) == kept_datasets(rows, event_id, direction),
    decreases rows.len(),
{
    let of = |r: DatasetRow| r.event_id == event_id && r.direction@ == direction;
    let key = |r: DatasetRow| (r.namespace@, r.name@);
    reveal(Seq::filter);
    if rows.len() > 0 {
        lemma_kept_datasets(rows.drop_last(), event_id, direction);
        let before = rows.drop_last().filter(of);
        if of(rows.last()) {
            assert(before.push(rows.last()).map_values(key) =~= before.map_values(key).push(
                (rows.last().namespace@, rows.last().name@),
            ));
        }
    } else {
        assert(rows.filter(of).map_values(key) =~= Seq::empty());
    }
}

/// Rows can be read where each says `input` or `output`.
pub proof fn law_rows_have_a_direction(rows: Seq<DatasetRow>, from: int)
    requires
        from >= 0,
    ensures
        first_odd(rows, from) is None <==> forall|i: int|
            from <= i < rows.len() ==> (#[trigger] rows[i]).direction@ == "input"@ || rows[i].direction@
                == "output"@,
    decreases rows.len() - from,
{
    if from < rows.len() {
        law_rows_have_a_direction(rows, from + 1);
        if first_odd(rows, from) is None {
            assert forall|i: int| from <= i < rows.len() implies (#[trigger] rows[i]).direction@ == "input"@
                || rows[i].direction@ == "output"@ by {
                if i > from {
                    assert(rows[i].direction@ == "input"@ || rows[i].direction@ == "output"@);
                }
            }
        } else if rows[from].direction@ == "input"@ || rows[from].direction@ == "output"@ {
            assert(first_odd(rows, from + 1) is Some);
        }
    }
}

/// A run is summed up by its number and its latest event; it is a writer where any of its
/// events writes.
pub proof fn law_stored_run_is_summed_up(row: RunRow)
    ensures
        row_summary(row).run_id == row.run_id,
        row_summary(row).latest_event_time == row.event_time,
        row_summary(row).latest_event_type == row.event_type,
        row.has_output ==> row_summary(row).role == RunRole::Output,
        !row.has_output ==> row_summary(row).role == RunRole::Input,
{
}

} // verus!
