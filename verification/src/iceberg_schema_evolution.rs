//! Which changes of a table's columns a write may bring: new nullable columns at
//! the end, and nothing else.
use crate::iceberg_mirror::ProjectedColumn;
use crate::key::str_same;
use crate::text::{concat3, i64_text, int_text};
use crate::words::{debug_of, debug_text};
use vstd::prelude::*;
use vstd::string::StringExecFns;

verus! {

/// What a write's columns are, against the live ones.
#[derive(Debug)]
pub enum SchemaPlan {
    /// The live columns.
    Identical,
    /// The live columns with new nullable ones behind them.
    Additive { new_columns: Vec<ProjectedColumn> },
}

/// A change of columns that is refused.
#[derive(Debug)]
pub enum SchemaEvolutionError {
    ColumnDropped { name: String },
    ColumnChangedAtPosition { position: i64, was: String, now: String },
    ColumnTypeChanged { name: String, from: String, to: String },
    ColumnNullabilityChanged { name: String },
    NonNullableColumnAdded { name: String },
}

/// A refused change, by its texts.
pub enum SchemaChange {
    ColumnDropped { name: Seq<char> },
    ColumnChangedAtPosition { position: int, was: Seq<char>, now: Seq<char> },
    ColumnTypeChanged { name: Seq<char>, from: Seq<char>, to: Seq<char> },
    ColumnNullabilityChanged { name: Seq<char> },
    NonNullableColumnAdded { name: Seq<char> },
}

impl View for SchemaEvolutionError {
    type V = SchemaChange;

    open spec fn view(&self) -> SchemaChange {
        match self {
            SchemaEvolutionError::ColumnDropped { name } => SchemaChange::ColumnDropped {
                name: name@,
            },
            SchemaEvolutionError::ColumnChangedAtPosition { position, was, now } => {
                SchemaChange::ColumnChangedAtPosition {
                    position: *position as int,
                    was: was@,
                    now: now@,
                }
            },
            SchemaEvolutionError::ColumnTypeChanged { name, from, to } => {
                SchemaChange::ColumnTypeChanged { name: name@, from: from@, to: to@ }
            },
            SchemaEvolutionError::ColumnNullabilityChanged { name } => {
                SchemaChange::ColumnNullabilityChanged { name: name@ }
            },
            SchemaEvolutionError::NonNullableColumnAdded { name } => {
                SchemaChange::NonNullableColumnAdded { name: name@ }
            },
        }
    }
}

/// The message of a refused change. Each begins `schema evolution unsupported:`.
pub open spec fn change_message(c: SchemaChange) -> Seq<char> {
    match c {
        SchemaChange::ColumnDropped { name } => "schema evolution unsupported: column "@ + debug_text(
            name,
        ) + " was dropped"@,
        SchemaChange::ColumnChangedAtPosition { position, was, now } => {
            "schema evolution unsupported: column at position "@ + int_text(position)
                + " changed from "@ + debug_text(was) + " to "@ + debug_text(now)
                + " (rename or reorder)"@
        },
        SchemaChange::ColumnTypeChanged { name, from, to } => {
            "schema evolution unsupported: column "@ + debug_text(name) + " type changed from "@
                + debug_text(from) + " to "@ + debug_text(to)
        },
        SchemaChange::ColumnNullabilityChanged { name } => {
            "schema evolution unsupported: column "@ + debug_text(name) + " nullability changed"@
        },
        SchemaChange::NonNullableColumnAdded { name } => {
            "schema evolution unsupported: new column "@ + debug_text(name) + " is not nullable"@
        },
    }
}

impl SchemaEvolutionError {
    /// The message.
    pub fn message(&self) -> (r: String)
        ensures
            r@ == change_message(self@),
    {
        match self {
            SchemaEvolutionError::ColumnDropped { name } => concat3(
                "schema evolution unsupported: column ",
                debug_of(name.as_str()).as_str(),
                " was dropped",
            ),
            SchemaEvolutionError::ColumnChangedAtPosition { position, was, now } => {
                let mut s: String = "schema evolution unsupported: column at position ".to_owned();
                s.append(i64_text(*position).as_str());
                s.append(" changed from ");
                s.append(debug_of(was.as_str()).as_str());
                s.append(" to ");
                s.append(debug_of(now.as_str()).as_str());
                s.append(" (rename or reorder)");
                s
            },
            SchemaEvolutionError::ColumnTypeChanged { name, from, to } => {
                let mut s: String = "schema evolution unsupported: column ".to_owned();
                s.append(debug_of(name.as_str()).as_str());
                s.append(" type changed from ");
                s.append(debug_of(from.as_str()).as_str());
                s.append(" to ");
                s.append(debug_of(to.as_str()).as_str());
                s
            },
            SchemaEvolutionError::ColumnNullabilityChanged { name } => concat3(
                "schema evolution unsupported: column ",
                debug_of(name.as_str()).as_str(),
                " nullability changed",
            ),
            SchemaEvolutionError::NonNullableColumnAdded { name } => concat3(
                "schema evolution unsupported: new column ",
                debug_of(name.as_str()).as_str(),
                " is not nullable",
            ),
        }
    }
}

/// What two columns at one position disagree on, where they do. Their order numbers
/// do not matter.
pub open spec fn column_change(position: int, live: ProjectedColumn, incoming: ProjectedColumn) -> Option<
    SchemaChange,
> {
    if live.name@ != incoming.name@ {
        Some(
            SchemaChange::ColumnChangedAtPosition { position, was: live.name@, now: incoming.name@ },
        )
    } else if live.iceberg_type@ != incoming.iceberg_type@ {
        Some(
            SchemaChange::ColumnTypeChanged {
                name: live.name@,
                from: live.iceberg_type@,
                to: incoming.iceberg_type@,
            },
        )
    } else if live.nullable != incoming.nullable {
        Some(SchemaChange::ColumnNullabilityChanged { name: live.name@ })
    } else {
        None
    }
}

/// The first column from `from` on that is not nullable.
pub open spec fn first_required(columns: Seq<ProjectedColumn>, from: int) -> Option<int>
    decreases columns.len() - from,
{
    if from >= columns.len() || from < 0 {
        None
    } else if !columns[from].nullable {
        Some(from)
    } else {
        first_required(columns, from + 1)
    }
}

/// The first position from `from` on, of both, where they disagree.
pub open spec fn first_change(
    live: Seq<ProjectedColumn>,
    incoming: Seq<ProjectedColumn>,
    from: int,
) -> Option<SchemaChange>
    decreases live.len() - from,
{
    if from < 0 || from >= live.len() || from >= incoming.len() {
        None
    } else if column_change(from, live[from], incoming[from]) is Some {
        column_change(from, live[from], incoming[from])
    } else {
        first_change(live, incoming, from + 1)
    }
}

/// Why the incoming columns are refused, where they are.
pub open spec fn schema_refusal(live: Seq<ProjectedColumn>, incoming: Seq<ProjectedColumn>) -> Option<
    SchemaChange,
> {
    if first_change(live, incoming, 0) is Some {
        first_change(live, incoming, 0)
    } else if incoming.len() < live.len() {
        Some(SchemaChange::ColumnDropped { name: live[incoming.len() as int].name@ })
    } else {
        match first_required(incoming, live.len() as int) {
            Some(i) => Some(SchemaChange::NonNullableColumnAdded { name: incoming[i].name@ }),
            None => None,
        }
    }
}

/// What the columns of a write are against the live ones, position by position, or
/// the first thing that is refused.
pub fn classify_schema_change(live: &Vec<ProjectedColumn>, incoming: &Vec<ProjectedColumn>) -> (r: Result<
    SchemaPlan,
    SchemaEvolutionError,
>)
    requires
        live@.len() <= i64::MAX,
    ensures
        match r {
            Err(e) => schema_refusal(live@, incoming@) == Some(e@),
            Ok(SchemaPlan::Identical) => schema_refusal(live@, incoming@) is None && incoming@.len()
                == live@.len(),
            Ok(SchemaPlan::Additive { new_columns }) => schema_refusal(live@, incoming@) is None
                && incoming@.len() > live@.len() && new_columns@ == incoming@.skip(
                live@.len() as int,
            ),
        },
{
    let mut i: usize = 0;
    while i < live.len() && i < incoming.len()
        invariant
            i <= live@.len() <= i64::MAX,
            i <= incoming@.len(),
            first_change(live@, incoming@, 0) == first_change(live@, incoming@, i as int),
        decreases live@.len() - i,
    {
        let l: &ProjectedColumn = &live[i];
        let n: &ProjectedColumn = &incoming[i];
        if !str_same(l.name.as_str(), n.name.as_str()) {
            return Err(
                SchemaEvolutionError::ColumnChangedAtPosition {
                    position: i as i64,
                    was: l.name.clone(),
                    now: n.name.clone(),
                },
            );
        }
        if !str_same(l.iceberg_type.as_str(), n.iceberg_type.as_str()) {
            return Err(
                SchemaEvolutionError::ColumnTypeChanged {
                    name: l.name.clone(),
                    from: l.iceberg_type.clone(),
                    to: n.iceberg_type.clone(),
                },
            );
        }
        if l.nullable != n.nullable {
            return Err(
                SchemaEvolutionError::ColumnNullabilityChanged { name: l.name.clone() },
            );
        }
        i = i + 1;
    }
    if incoming.len() < live.len() {
        return Err(SchemaEvolutionError::ColumnDropped { name: live[incoming.len()].name.clone() });
    }
    let mut new_columns: Vec<ProjectedColumn> = Vec::new();
    let mut k: usize = live.len();
    while k < incoming.len()
        invariant
            live@.len() <= k <= incoming@.len(),
            live@.len() <= i64::MAX,
            first_change(live@, incoming@, 0) is None,
            first_required(incoming@, live@.len() as int) == first_required(incoming@, k as int),
            new_columns@ == incoming@.subrange(live@.len() as int, k as int),
        decreases incoming@.len() - k,
    {
        if !incoming[k].nullable {
            return Err(
                SchemaEvolutionError::NonNullableColumnAdded { name: incoming[k].name.clone() },
            );
        }
        new_columns.push(incoming[k].duplicate());
        assert(new_columns@ =~= incoming@.subrange(live@.len() as int, k + 1));
        k = k + 1;
    }
    assert(new_columns@ =~= incoming@.skip(live@.len() as int));
    if new_columns.len() == 0 {
        Ok(SchemaPlan::Identical)
    } else {
        Ok(SchemaPlan::Additive { new_columns })
    }
}

proof fn lemma_first_change(live: Seq<ProjectedColumn>, incoming: Seq<ProjectedColumn>, from: int)
    requires
        0 <= from,
    ensures
        first_change(live, incoming, from) is None <==> forall|i: int|
            from <= i < live.len() && i < incoming.len() ==> column_change(
                i,
                #[trigger] live[i],
                incoming[i],
            ) is None,
    decreases live.len() - from,
{
    if from < live.len() && from < incoming.len() {
        lemma_first_change(live, incoming, from + 1);
    }
}

proof fn lemma_first_required(columns: Seq<ProjectedColumn>, from: int)
    requires
        0 <= from,
    ensures
        first_required(columns, from) is None <==> forall|i: int|
            from <= i < columns.len() ==> (#[trigger] columns[i]).nullable,
    decreases columns.len() - from,
{
    if from < columns.len() {
        lemma_first_required(columns, from + 1);
    }
}

/// A write is accepted exactly where its columns are the live ones, in name, type
/// and nullability, with none but nullable columns behind them.
pub proof fn law_accepted_iff_additive(live: Seq<ProjectedColumn>, incoming: Seq<ProjectedColumn>)
    ensures
        schema_refusal(live, incoming) is None <==> live.len() <= incoming.len() && (forall|i: int|
            0 <= i < live.len() ==> (#[trigger] live[i]).name@ == incoming[i].name@
                && live[i].iceberg_type@ == incoming[i].iceberg_type@ && live[i].nullable
                == incoming[i].nullable) && (forall|i: int|
            live.len() <= i < incoming.len() ==> (#[trigger] incoming[i]).nullable),
{
    lemma_first_change(live, incoming, 0);
    lemma_first_required(incoming, live.len() as int);
    if first_change(live, incoming, 0) is None && live.len() <= incoming.len() {
        assert forall|i: int| 0 <= i < live.len() implies (#[trigger] live[i]).name@
            == incoming[i].name@ && live[i].iceberg_type@ == incoming[i].iceberg_type@
            && live[i].nullable == incoming[i].nullable by {
            assert(column_change(i, live[i], incoming[i]) is None);
        }
    }
}

/// A write with the live columns changes nothing.
pub proof fn law_same_columns_are_identical(live: Seq<ProjectedColumn>)
    ensures
        schema_refusal(live, live) is None,
{
    law_accepted_iff_additive(live, live);
}

} // verus!
