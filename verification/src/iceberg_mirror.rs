//! The rows of the mirror: what a commit writes into it of columns, files and
//! statistics, and what retires files.
use crate::error::{outcome, ControlPlaneError, Fault};
use crate::iceberg_schema_evolution::{
    change_message, classify_schema_change, schema_refusal, SchemaPlan,
};
use crate::iceberg_stats::{stat_text, stat_to_text, StatValue};
use crate::ordered::OrderedSet;
use crate::text::{begins_with, concat, concat3, nat_text, starts_with, usize_text};
use crate::types::ColumnStat;
use vstd::prelude::*;
use vstd::string::StringExecFns;

verus! {

/// A data file as the mirror takes it in.
#[derive(Debug)]
pub struct ProjectedFile {
    pub path: String,
    pub file_format: String,
    pub record_count: i64,
    pub file_size_bytes: i64,
    pub column_stats: Vec<ColumnStat>,
}

/// A column as the mirror takes it in, with the name of its Iceberg type.
#[derive(Debug)]
pub struct ProjectedColumn {
    pub order: i64,
    pub name: String,
    pub iceberg_type: String,
    pub nullable: bool,
}

impl ProjectedColumn {
    pub fn duplicate(&self) -> (r: Self)
        ensures
            r == *self,
    {
        ProjectedColumn {
            order: self.order,
            name: self.name.clone(),
            iceberg_type: self.iceberg_type.clone(),
            nullable: self.nullable,
        }
    }
}

/// Copies of columns.
pub fn duplicate_columns(columns: &Vec<ProjectedColumn>) -> (r: Vec<ProjectedColumn>)
    ensures
        r@ == columns@,
{
    let mut out: Vec<ProjectedColumn> = Vec::new();
    let mut i: usize = 0;
    while i < columns.len()
        invariant
            i <= columns@.len(),
            out@ == columns@.take(i as int),
        decreases columns@.len() - i,
    {
        out.push(columns[i].duplicate());
        assert(out@ =~= columns@.take(i + 1));
        i = i + 1;
    }
    assert(columns@.take(i as int) =~= columns@);
    out
}

/// The trigger of a table after bytes were added to it: the bytes, the threshold
/// that holds for the table, and whether a flush is already queued.
#[derive(Clone, Copy, Debug, PartialEq, Eq, Structural)]
pub struct TriggerState {
    pub live_bytes: i64,
    pub effective: i64,
    pub enqueued: bool,
}

/// The consolidation trigger of a table after change rows were added to it.
#[derive(Clone, Copy, Debug, PartialEq, Eq, Structural)]
pub struct ConsolidateState {
    pub delta_count: i64,
    pub effective: i64,
    pub enqueued: bool,
}

/// A table of some name that was dropped, and the snapshot it was dropped at.
#[derive(Clone, Copy, Debug, PartialEq, Eq, Structural)]
pub struct DroppedIncarnation {
    pub table_id: i64,
    pub drop_snapshot: i64,
}

/// What is projected of the columns of a write, or why the write is refused.
pub open spec fn projection(live: Seq<ProjectedColumn>, incoming: Seq<ProjectedColumn>) -> Result<
    Seq<ProjectedColumn>,
    Fault,
> {
    if live.len() == 0 {
        Ok(incoming)
    } else {
        match schema_refusal(live, incoming) {
            Some(c) => Err(Fault::Validation(change_message(c))),
            None => Ok(incoming.skip(live.len() as int)),
        }
    }
}

/// The columns that a write brings into the mirror: all of them where the table has
/// none yet, the new ones otherwise. A change that is not additive is refused.
pub fn columns_to_project(live: &Vec<ProjectedColumn>, incoming: &Vec<ProjectedColumn>) -> (r: Result<
    Vec<ProjectedColumn>,
    ControlPlaneError,
>)
    requires
        live@.len() <= i64::MAX,
    ensures
        match r {
            Ok(columns) => projection(live@, incoming@) == Ok::<Seq<ProjectedColumn>, Fault>(columns@),
            Err(e) => projection(live@, incoming@) == Err::<Seq<ProjectedColumn>, Fault>(e@),
        },
{
    if live.len() == 0 {
        return Ok(duplicate_columns(incoming));
    }
    match classify_schema_change(live, incoming) {
        Err(e) => Err(ControlPlaneError::Validation(e.message())),
        Ok(SchemaPlan::Identical) => {
            let none: Vec<ProjectedColumn> = Vec::new();
            assert(none@ =~= incoming@.skip(live@.len() as int));
            Ok(none)
        },
        Ok(SchemaPlan::Additive { new_columns }) => Ok(new_columns),
    }
}

/// What an update retires and adds leaves the columns of a table as the write has
/// them: what was live and what is projected are the columns of the write.
pub proof fn law_projection_completes_columns(live: Seq<ProjectedColumn>, incoming: Seq<ProjectedColumn>, i: int)
    requires
        projection(live, incoming) is Ok,
        0 <= i < incoming.len(),
    ensures
        ({
            let after = live + projection(live, incoming)->Ok_0;
            after.len() == incoming.len() && after[i].name@ == incoming[i].name@
                && after[i].iceberg_type@ == incoming[i].iceberg_type@ && after[i].nullable
                == incoming[i].nullable
        }),
{
    if live.len() > 0 {
        crate::iceberg_schema_evolution::law_accepted_iff_additive(live, incoming);
    }
}

/// The statistics of files in the columns of one insertion: row by row, the file's
/// number, the column, its nulls, its size and its bounds in text.
#[derive(Debug)]
pub struct StatRows {
    pub file_ids: Vec<i64>,
    pub columns: Vec<String>,
    pub null_counts: Vec<i64>,
    pub sizes: Vec<i64>,
    pub mins: Vec<Option<String>>,
    pub maxs: Vec<Option<String>>,
}

/// One row of statistics.
pub struct StatRow {
    pub file_id: int,
    pub column: Seq<char>,
    pub null_count: int,
    pub size: int,
    pub min: Option<Seq<char>>,
    pub max: Option<Seq<char>>,
}

/// The text of an optional bound.
pub open spec fn bound_text(v: Option<StatValue>) -> Option<Seq<char>> {
    match v {
        Some(v) => Some(stat_text(v)),
        None => None,
    }
}

/// The row of one statistic of the file numbered `id`.
pub open spec fn stat_row(id: i64, s: ColumnStat) -> StatRow {
    StatRow {
        file_id: id as int,
        column: s.column_name@,
        null_count: s.null_count as int,
        size: s.column_size_bytes as int,
        min: bound_text(s.min),
        max: bound_text(s.max),
    }
}

/// The rows of the statistics of the file numbered `id`.
pub open spec fn file_stat_rows(id: i64, stats: Seq<ColumnStat>) -> Seq<StatRow> {
    Seq::new(stats.len(), |i: int| stat_row(id, stats[i]))
}

/// The rows of the statistics of files, in the order of the files.
pub open spec fn all_stat_rows(files: Seq<ProjectedFile>, ids: Seq<i64>) -> Seq<StatRow>
    decreases files.len(),
{
    if files.len() == 0 {
        Seq::empty()
    } else {
        all_stat_rows(files.drop_last(), ids) + file_stat_rows(
            ids[files.len() - 1],
            files.last().column_stats@,
        )
    }
}

impl StatRows {
    /// The columns are equally long.
    pub open spec fn wf(self) -> bool {
        &&& self.columns@.len() == self.file_ids@.len()
        &&& self.null_counts@.len() == self.file_ids@.len()
        &&& self.sizes@.len() == self.file_ids@.len()
        &&& self.mins@.len() == self.file_ids@.len()
        &&& self.maxs@.len() == self.file_ids@.len()
    }

    /// The rows.
    pub open spec fn rows(self) -> Seq<StatRow> {
        Seq::new(
            self.file_ids@.len(),
            |i: int|
                StatRow {
                    file_id: self.file_ids@[i] as int,
                    column: self.columns@[i]@,
                    null_count: self.null_counts@[i] as int,
                    size: self.sizes@[i] as int,
                    min: crate::auth::text_of(self.mins@[i]),
                    max: crate::auth::text_of(self.maxs@[i]),
                },
        )
    }

    fn push(&mut self, id: i64, s: &ColumnStat)
        requires
            old(self).wf(),
        ensures
            final(self).wf(),
            final(self).rows() == old(self).rows().push(stat_row(id, *s)),
    {
        let min: Option<String> = match &s.min {
            Some(v) => Some(stat_to_text(v)),
            None => None,
        };
        let max: Option<String> = match &s.max {
            Some(v) => Some(stat_to_text(v)),
            None => None,
        };
        self.file_ids.push(id);
        self.columns.push(s.column_name.clone());
        self.null_counts.push(s.null_count);
        self.sizes.push(s.column_size_bytes);
        self.mins.push(min);
        self.maxs.push(max);
        assert(self.rows() =~= old(self).rows().push(stat_row(id, *s)));
    }
}

/// The statistics of `files`, whose numbers are `ids`, for one insertion. Where
/// there are none, nothing is inserted.
pub fn stat_rows(files: &Vec<ProjectedFile>, ids: &Vec<i64>) -> (r: Option<StatRows>)
    requires
        files@.len() == ids@.len(),
    ensures
        match r {
            Some(rows) => rows.wf() && rows.rows() == all_stat_rows(files@, ids@) && rows.rows().len()
                > 0,
            None => all_stat_rows(files@, ids@).len() == 0,
        },
{
    let mut out: StatRows = StatRows {
        file_ids: Vec::new(),
        columns: Vec::new(),
        null_counts: Vec::new(),
        sizes: Vec::new(),
        mins: Vec::new(),
        maxs: Vec::new(),
    };
    assert(out.rows() =~= Seq::empty());
    let mut i: usize = 0;
    while i < files.len()
        invariant
            i <= files@.len(),
            files@.len() == ids@.len(),
            out.wf(),
            out.rows() == all_stat_rows(files@.take(i as int), ids@),
        decreases files@.len() - i,
    {
        assert(files@.take(i + 1).drop_last() =~= files@.take(i as int));
        let ghost before = out.rows();
        let stats: &Vec<ColumnStat> = &files[i].column_stats;
        let mut k: usize = 0;
        assert(out.rows() =~= before + file_stat_rows(ids@[i as int], stats@).take(0));
        while k < stats.len()
            invariant
                i < files@.len(),
                files@.len() == ids@.len(),
                k <= stats@.len(),
                *stats == files@[i as int].column_stats,
                out.wf(),
                out.rows() == before + file_stat_rows(ids@[i as int], stats@).take(k as int),
            decreases stats@.len() - k,
        {
            out.push(ids[i], &stats[k]);
            assert(out.rows() =~= before + file_stat_rows(ids@[i as int], stats@).take(k + 1));
            k = k + 1;
        }
        assert(file_stat_rows(ids@[i as int], stats@).take(k as int) =~= file_stat_rows(
            ids@[i as int],
            stats@,
        ));
        i = i + 1;
    }
    assert(files@.take(i as int) =~= files@);
    if out.file_ids.len() == 0 {
        None
    } else {
        Some(out)
    }
}

/// The paths in order, each once.
pub fn unique_paths(paths: &Vec<String>) -> (r: OrderedSet<String>)
    ensures
        r.wf(),
        r@ == paths_set(paths@),
{
    let mut out: OrderedSet<String> = OrderedSet::new();
    let mut i: usize = 0;
    while i < paths.len()
        invariant
            i <= paths@.len(),
            out.wf(),
            out@ == paths_set(paths@.take(i as int)),
        decreases paths@.len() - i,
    {
        out.insert(paths[i].clone());
        assert(out@ =~= paths_set(paths@.take(i + 1))) by {
            assert forall|p: Seq<char>| out@.contains(p) == paths_set(paths@.take(i + 1)).contains(p) by {
                let a = paths@.take(i as int);
                let b = paths@.take(i + 1);
                if crate::text::holds(a, p) {
                    let k = choose|k: int| 0 <= k < a.len() && #[trigger] a[k]@ == p;
                    assert(b[k]@ == p);
                }
                if crate::text::holds(b, p) && p != paths@[i as int]@ {
                    let k = choose|k: int| 0 <= k < b.len() && #[trigger] b[k]@ == p;
                    assert(a[k]@ == p);
                }
                assert(b[i as int]@ == paths@[i as int]@);
            }
        }
        i = i + 1;
    }
    assert(paths@.take(i as int) =~= paths@);
    out
}

/// The texts of a list, as a set.
pub open spec fn paths_set(paths: Seq<String>) -> Set<Seq<char>> {
    Set::new(|p: Seq<char>| crate::text::holds(paths, p))
}

/// Whether every one of `unique` paths was live: `capped` of them were retired.
/// Where one was not, another compaction came first, and this one fails.
pub fn check_capped(unique: usize, capped: usize) -> (r: Result<(), ControlPlaneError>)
    requires
        capped <= unique,
    ensures
        outcome(r) == (if capped == unique {
            Ok::<(), Fault>(())
        } else {
            Err(
                Fault::Conflict(
                    "compact: "@ + nat_text((unique - capped) as nat) + " of "@ + nat_text(
                        unique as nat,
                    ) + " expire paths were not live (raced compaction)"@,
                ),
            )
        }),
{
    if capped != unique {
        let mut s: String = "compact: ".to_owned();
        s.append(usize_text(unique - capped).as_str());
        s.append(" of ");
        s.append(usize_text(unique).as_str());
        s.append(" expire paths were not live (raced compaction)");
        return Err(ControlPlaneError::Conflict(s));
    }
    Ok(())
}

/// The type of a column of an Iceberg schema.
#[derive(Debug)]
pub enum FieldType {
    /// A primitive type, by its name.
    Primitive(String),
    /// A list.
    List,
    /// Any other, as a developer is shown it.
    Other(String),
}

/// A column of an Iceberg schema.
#[derive(Debug)]
pub struct SchemaField {
    pub name: String,
    pub field_type: FieldType,
    pub doc: Option<String>,
    pub required: bool,
}

/// The type name that the mirror keeps for a field. A list is a vector, whose
/// dimension its documentation gives.
pub open spec fn field_type_name(f: SchemaField) -> Result<Seq<char>, Fault> {
    match f.field_type {
        FieldType::Primitive(name) => Ok(name@),
        FieldType::List => match f.doc {
            Some(d) => if starts_with(d@, "vector("@) {
                Ok(d@)
            } else {
                Err(
                    Fault::Backend(
                        "project: list column "@ + f.name@ + " lacks a vector(N) doc"@,
                    ),
                )
            },
            None => Err(
                Fault::Backend("project: list column "@ + f.name@ + " lacks a vector(N) doc"@),
            ),
        },
        FieldType::Other(shown) => Err(
            Fault::Backend("project: unsupported column type "@ + shown@),
        ),
    }
}

/// The field at place `i` as a column of the mirror, numbered from 1.
pub open spec fn is_column_of(c: ProjectedColumn, f: SchemaField, i: int) -> bool {
    &&& c.order == i + 1
    &&& c.name@ == f.name@
    &&& field_type_name(f) == Ok::<Seq<char>, Fault>(c.iceberg_type@)
    &&& c.nullable == !f.required
}

/// The first field from `from` on that has no column, and why.
pub open spec fn first_unprojectable(fields: Seq<SchemaField>, from: int) -> Option<Fault>
    decreases fields.len() - from,
{
    if from < 0 || from >= fields.len() {
        None
    } else {
        match field_type_name(fields[from]) {
            Err(e) => Some(e),
            Ok(_) => first_unprojectable(fields, from + 1),
        }
    }
}

fn field_type_of(f: &SchemaField) -> (r: Result<String, ControlPlaneError>)
    ensures
        match r {
            Ok(t) => field_type_name(*f) == Ok::<Seq<char>, Fault>(t@),
            Err(e) => field_type_name(*f) == Err::<Seq<char>, Fault>(e@),
        },
{
    match &f.field_type {
        FieldType::Primitive(name) => Ok(name.clone()),
        FieldType::List => {
            match &f.doc {
                Some(d) => {
                    if begins_with(d.as_str(), "vector(") {
                        return Ok(d.clone());
                    }
                },
                None => {},
            }
            Err(
                ControlPlaneError::Backend(
                    concat3("project: list column ", f.name.as_str(), " lacks a vector(N) doc"),
                ),
            )
        },
        FieldType::Other(shown) => Err(
            ControlPlaneError::Backend(
                concat("project: unsupported column type ", shown.as_str()),
            ),
        ),
    }
}

/// The columns that the mirror keeps of an Iceberg schema, in its order.
pub fn columns_of(fields: &Vec<SchemaField>) -> (r: Result<Vec<ProjectedColumn>, ControlPlaneError>)
    requires
        fields@.len() < i64::MAX,
    ensures
        match r {
            Ok(columns) => first_unprojectable(fields@, 0) is None && columns@.len() == fields@.len()
                && forall|i: int|
                0 <= i < columns@.len() ==> is_column_of(#[trigger] columns@[i], fields@[i], i),
            Err(e) => first_unprojectable(fields@, 0) == Some(e@),
        },
{
    let mut out: Vec<ProjectedColumn> = Vec::new();
    let mut i: usize = 0;
    while i < fields.len()
        invariant
            i <= fields@.len() < i64::MAX,
            out@.len() == i,
            first_unprojectable(fields@, 0) == first_unprojectable(fields@, i as int),
            forall|j: int| 0 <= j < i ==> is_column_of(#[trigger] out@[j], fields@[j], j),
        decreases fields@.len() - i,
    {
        let f: &SchemaField = &fields[i];
        match field_type_of(f) {
            Err(e) => {
                return Err(e);
            },
            Ok(iceberg_type) => {
                out.push(
                    ProjectedColumn {
                        order: (i as i64) + 1,
                        name: f.name.clone(),
                        iceberg_type,
                        nullable: !f.required,
                    },
                );
            },
        }
        i = i + 1;
    }
    Ok(out)
}

/// The places of the manifest entries that the snapshot `current` added: those
/// stamped with it.
pub fn added_entries(stamps: &Vec<Option<i64>>, current: i64) -> (r: Vec<usize>)
    ensures
        forall|i: int|
            0 <= i < r@.len() ==> (#[trigger] r@[i]) < stamps@.len() && stamps@[r@[i] as int] == Some(
                current,
            ),
        forall|i: int, j: int| 0 <= i < j < r@.len() ==> #[trigger] r@[i] < #[trigger] r@[j],
        forall|k: usize|
            k < stamps@.len() && stamps@[k as int] == Some(current) ==> #[trigger] r@.contains(k),
{
    let mut out: Vec<usize> = Vec::new();
    let mut i: usize = 0;
    while i < stamps.len()
        invariant
            i <= stamps@.len(),
            forall|a: int|
                0 <= a < out@.len() ==> (#[trigger] out@[a]) < i && stamps@[out@[a] as int] == Some(
                    current,
                ),
            forall|a: int, b: int| 0 <= a < b < out@.len() ==> #[trigger] out@[a] < #[trigger] out@[b],
            forall|k: usize|
                k < i && stamps@[k as int] == Some(current) ==> #[trigger] out@.contains(k),
        decreases stamps@.len() - i,
    {
        let ghost before = out@;
        let added: bool = match stamps[i] {
            Some(s) => s == current,
            None => false,
        };
        if added {
            out.push(i);
            proof {
                assert forall|k: usize|
                    k < i + 1 && stamps@[k as int] == Some(current) implies #[trigger] out@.contains(k) by {
                    if k < i {
                        assert(before.contains(k));
                        let a = choose|a: int| 0 <= a < before.len() && before[a] == k;
                        assert(out@[a] == k);
                    } else {
                        assert(out@[before.len() as int] == k);
                    }
                }
            }
        }
        i = i + 1;
    }
    out
}

} // verus!
