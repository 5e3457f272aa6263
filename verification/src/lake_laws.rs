//! What holds of the lake's catalog: which columns and statistics it shows, what a view
//! needs, and what a unit of work registers.
use crate::iceberg_catalog::{
    are_files, grouped, is_column, is_file, last_snapshot, row_stat, shown, view_step, ColumnRow,
    FileEntry, FileWithStats, PairRow, StatRow, ViewFacts, ViewVerdict,
};
use crate::iceberg_control_plane::{
    are_registrations, created, file_tables, files_fault, first_compact_fault, first_files_fault,
    registers_files, Registration, StagedCompact, StagedCreate, StagedFiles,
};
use crate::iceberg_landing::{all_parquet, are_register_steps, RegisterStep};
use crate::iceberg_type::from_iceberg;
use crate::landing_laws::law_what_registering_retires;
use crate::mv_floor::EndCapIntent;
use crate::text::starts_with;
use crate::types::{ColumnDef, TableKey, ViewDef};
use vstd::prelude::*;

verus! {

/// A column is shown unless it is kept for the mirror's own use, by its name, or a view is
/// read that does not name it.
pub proof fn law_which_columns_are_shown(c: ColumnDef, names: Seq<String>)
    ensures
        starts_with(c.name@, "loom_"@) ==> !shown(c, None) && !shown(c, Some(names)),
        c.name@ == "begin_snapshot"@ ==> !shown(c, None) && !shown(c, Some(names)),
        c.name@ == "end_snapshot"@ ==> !shown(c, None) && !shown(c, Some(names)),
        !starts_with(c.name@, "loom_"@) && c.name@ != "begin_snapshot"@ && c.name@ != "end_snapshot"@
            ==> shown(c, None),
        shown(c, Some(names)) <==> shown(c, None) && exists|i: int|
            0 <= i < names.len() && #[trigger] names[i]@ == c.name@,
{
}

/// A column is read with its place, its name, its nullability and the logical type of its
/// type in the mirror.
pub proof fn law_column_is_read_as_kept(c: ColumnDef, row: ColumnRow)
    requires
        is_column(c, row),
    ensures
        c.order == row.order,
        c.name@ == row.name@,
        c.nullable == row.nullable,
        from_iceberg(row.column_type@, row.parametric) is Some,
        c.ty@ == (from_iceberg(row.column_type@, row.parametric)->0).name(),
{
}

/// A row says something of a column where it has its name, how many values are missing and
/// its size; it then says just that, and its bounds as far as they can be read.
pub proof fn law_what_a_row_says(r: StatRow)
    ensures
        row_stat(r).len() == 1 <==> r.column_name is Some && r.null_count is Some
            && r.column_size_bytes is Some,
        row_stat(r).len() <= 1,
        row_stat(r).len() == 1 ==> {
            &&& row_stat(r)[0].column_name == (r.column_name->0)@
            &&& row_stat(r)[0].null_count == r.null_count->0
            &&& row_stat(r)[0].column_size_bytes == r.column_size_bytes->0
            &&& r.min_value is None ==> row_stat(r)[0].min is None
            &&& r.max_value is None ==> row_stat(r)[0].max is None
            &&& r.column_type is None ==> row_stat(r)[0].min is None && row_stat(r)[0].max is None
            &&& r.min_value is Some && r.column_type is Some ==> row_stat(r)[0].min
                == crate::iceberg_stats::stat_of((r.min_value->0)@, (r.column_type->0)@, r.min_is_real)
            &&& r.max_value is Some && r.column_type is Some ==> row_stat(r)[0].max
                == crate::iceberg_stats::stat_of((r.max_value->0)@, (r.column_type->0)@, r.max_is_real)
        },
{
}

/// A row of another file than the row before it begins a file, with its path, its number of
/// rows and its size; a row of the same file adds what it says to that file.
pub proof fn law_rows_of_one_file_are_one_file(rows: Seq<StatRow>, r: StatRow)
    ensures
        grouped(Seq::<StatRow>::empty()).len() == 0,
        rows.len() == 0 || rows.last().data_file_id != r.data_file_id ==> {
            let after = grouped(rows.push(r));
            &&& after.len() == grouped(rows).len() + 1
            &&& after.drop_last() == grouped(rows)
            &&& after.last().path == r.path@
            &&& after.last().record_count == r.record_count
            &&& after.last().file_size_bytes == r.file_size_bytes
            &&& after.last().stats == row_stat(r)
        },
        rows.len() > 0 && rows.last().data_file_id == r.data_file_id ==> {
            let (before, after) = (grouped(rows), grouped(rows.push(r)));
            &&& after.len() == before.len()
            &&& after.drop_last() == before.drop_last()
            &&& after.last().path == before.last().path
            &&& after.last().record_count == before.last().record_count
            &&& after.last().file_size_bytes == before.last().file_size_bytes
            &&& after.last().stats == before.last().stats + row_stat(r)
        },
{
    let more = rows.push(r);
    assert(more.drop_last() =~= rows);
    lemma_some_file(rows);
    if rows.len() > 0 {
        assert(more[more.len() - 2] == rows.last());
    }
    if rows.len() > 0 && rows.last().data_file_id == r.data_file_id {
        assert(grouped(more).drop_last() =~= grouped(rows).drop_last());
    } else {
        assert(grouped(more).drop_last() =~= grouped(rows));
    }
}

proof fn lemma_some_file(rows: Seq<StatRow>)
    ensures
        rows.len() > 0 ==> grouped(rows).len() > 0,
    decreases rows.len(),
{
    if rows.len() > 0 {
        lemma_some_file(rows.drop_last());
    }
}

/// A file is handed out with the path, the number of rows and the size of its entry, and
/// with the figures of each column.
pub proof fn law_files_are_their_entries(files: Seq<FileWithStats>, entries: Seq<FileEntry>, i: int, j: int)
    requires
        are_files(files, entries),
        0 <= i < entries.len(),
        0 <= j < entries[i].stats.len(),
    ensures
        files.len() == entries.len(),
        files[i].path@ == entries[i].path,
        files[i].record_count == entries[i].record_count,
        files[i].file_size_bytes == entries[i].file_size_bytes,
        files[i].column_stats@.len() == entries[i].stats.len(),
        files[i].column_stats@[j].column_name@ == entries[i].stats[j].column_name,
        files[i].column_stats@[j].null_count == entries[i].stats[j].null_count,
        files[i].column_stats@[j].column_size_bytes == entries[i].stats[j].column_size_bytes,
        files[i].column_stats@[j].min matches Some(v) ==> entries[i].stats[j].min == Some(v@),
        files[i].column_stats@[j].max matches Some(v) ==> entries[i].stats[j].max == Some(v@),
        files[i].column_stats@[j].min is None ==> entries[i].stats[j].min is None,
        files[i].column_stats@[j].max is None ==> entries[i].stats[j].max is None,
{
    assert(is_file(files[i], entries[i]));
    assert(crate::iceberg_catalog::is_stat(files[i].column_stats@[j], entries[i].stats[j]));
}

/// The snapshots of a pair are those of the last row of each side, the base by its tag.
pub proof fn law_last_row_of_each_side(rows: Seq<PairRow>, r: PairRow, id: i64, time: i128, version: i64)
    requires
        r.snapshot_id == Some(id),
        r.snapshot_time == Some(time),
        r.schema_version == Some(version),
    ensures
        r.tag@ == "base"@ ==> (last_snapshot(rows.push(r), true) matches Some(s) && s.id.0 == id && s.time
            == time && s.schema_version == version) && last_snapshot(rows.push(r), false)
            == last_snapshot(rows, false),
        r.tag@ != "base"@ ==> (last_snapshot(rows.push(r), false) matches Some(s) && s.id.0 == id && s.time
            == time && s.schema_version == version) && last_snapshot(rows.push(r), true)
            == last_snapshot(rows, true),
        last_snapshot(Seq::empty(), true) is None,
        last_snapshot(Seq::empty(), false) is None,
{
    assert(rows.push(r).drop_last() =~= rows);
}

/// A view is stored once it is known that its base is no view and is live, that its shape
/// fits, and that its name is that of neither a view nor a table; and only then. Each of
/// these that fails refuses it.
pub proof fn law_when_a_view_is_stored(view: ViewDef, facts: ViewFacts)
    ensures
        ({
            let fits = facts.shape is Some && facts.shape->0 is Ok;
            let free = facts.view_exists == Some(false) && facts.view_is_table == Some(false);
            let verdict = view_step(view, facts);
            &&& verdict is Store <==> facts.base_is_view == Some(false) && fits && free
                && facts.base_is_live == Some(true)
            &&& facts.base_is_view == Some(true) ==> (verdict matches ViewVerdict::Refuse(f) && f is Validation)
            &&& facts.base_is_view == Some(false) && facts.shape is Some && facts.shape->0 is Err ==> (
            verdict matches ViewVerdict::Refuse(f) && f is Validation)
            &&& facts.base_is_view == Some(false) && fits && facts.view_exists == Some(true) ==> (
            verdict matches ViewVerdict::Refuse(f) && f is Conflict)
            &&& facts.base_is_view == Some(false) && fits && facts.view_exists == Some(false)
                && facts.view_is_table == Some(true) ==> (verdict matches ViewVerdict::Refuse(f)
                && f is Conflict)
            &&& facts.base_is_view == Some(false) && fits && free && facts.base_is_live == Some(false) ==> (
            verdict matches ViewVerdict::Refuse(f) && f is NotFound)
        }),
{
}

/// Files are registered for their own table, in the mode that they were staged in, with the
/// columns of the first creation of the table: appended files retire nothing, and replacing
/// ones retire all that is live.
pub proof fn law_staged_files_keep_their_mode(
    r: Seq<Registration>,
    creates: Seq<StagedCreate>,
    files: Seq<StagedFiles>,
    compacts: Seq<StagedCompact>,
    i: int,
)
    requires
        are_registrations(r, creates, files, compacts),
        0 <= i < files.len(),
    ensures
        r.len() == files.len() + compacts.len(),
        r[i].table@ == files[i].table@,
        files[i].mode is Append ==> r[i].steps@.len() == 3 && r[i].steps@[0] is Columns,
        files[i].mode is Overwrite ==> r[i].steps@.len() == 5 && r[i].steps@[0] == (RegisterStep::CapFiles {
            intent: EndCapIntent::Removing,
        }) && r[i].steps@[1] == (RegisterStep::CapInline { intent: EndCapIntent::Removing }),
        exists|c: int|
            0 <= c < creates.len() && (#[trigger] creates[c]).table@ == files[i].table@ && (forall|d: int|
                0 <= d < c ==> (#[trigger] creates[d]).table@ != files[i].table@) && are_register_steps(
                r[i].steps@,
                files[i].mode,
                creates[c].columns@,
                creates[c].resolved@,
                files[i].files@,
            ),
{
    assert(registers_files(r[i], creates, files[i]));
    lemma_created(creates, files[i].table@, 0);
    let c = created(creates, files[i].table@, 0)->0;
    assert(creates[c].table@ == files[i].table@);
    law_what_registering_retires(
        r[i].steps@,
        files[i].mode,
        creates[c].columns@,
        creates[c].resolved@,
        files[i].files@,
    );
}

proof fn lemma_created(creates: Seq<StagedCreate>, table: TableKey, from: int)
    requires
        from >= 0,
    ensures
        match created(creates, table, from) {
            Some(c) => from <= c < creates.len() && creates[c].table@ == table && forall|d: int|
                from <= d < c ==> (#[trigger] creates[d]).table@ != table,
            None => forall|d: int| from <= d < creates.len() ==> (#[trigger] creates[d]).table@ != table,
        },
    decreases creates.len() - from,
{
    if from < creates.len() && creates[from].table@ != table {
        lemma_created(creates, table, from + 1);
    }
}

/// A replacement of files by others is registered for its own table; it retires the files
/// that it names and no others.
pub proof fn law_staged_compaction_retires_what_it_names(
    r: Seq<Registration>,
    creates: Seq<StagedCreate>,
    files: Seq<StagedFiles>,
    compacts: Seq<StagedCompact>,
    i: int,
)
    requires
        are_registrations(r, creates, files, compacts),
        0 <= i < compacts.len(),
    ensures
        r[files.len() + i].table@ == compacts[i].table@,
        r[files.len() + i].steps@.len() == 3,
        r[files.len() + i].steps@[0] == (RegisterStep::CapPaths {
            paths: compacts[i].expire,
            intent: EndCapIntent::Reframing,
        }),
        r[files.len() + i].steps@[1] is Files,
{
    let reg = r[files.len() + i];
    assert(crate::iceberg_control_plane::registers_compact(reg, compacts[files.len() + i - files.len()]));
}

/// Files cannot be registered for a table whose creation is not staged.
pub proof fn law_files_need_a_creation(creates: Seq<StagedCreate>, f: StagedFiles)
    requires
        forall|d: int| 0 <= d < creates.len() ==> (#[trigger] creates[d]).table@ != f.table@,
    ensures
        files_fault(creates, f) is Some,
{
    lemma_created(creates, f.table@, 0);
}

/// A unit of work can be registered where each of its files and each of its replacements
/// can.
pub proof fn law_one_refusal_refuses_all(
    creates: Seq<StagedCreate>,
    files: Seq<StagedFiles>,
    compacts: Seq<StagedCompact>,
    from: int,
    i: int,
)
    requires
        0 <= from <= i,
    ensures
        i < files.len() && files_fault(creates, files[i]) is Some ==> first_files_fault(
            creates,
            files,
            from,
        ) is Some,
        i < compacts.len() && !all_parquet(compacts[i].write@) ==> first_compact_fault(compacts, from)
            is Some,
    decreases i - from,
{
    if from < i {
        law_one_refusal_refuses_all(creates, files, compacts, from + 1, i);
    }
}

/// The triggers that a unit of work fires are those of the tables that files are staged
/// for.
pub proof fn law_written_tables(files: Seq<StagedFiles>, k: TableKey)
    ensures
        file_tables(files).contains(k) <==> exists|i: int|
            0 <= i < files.len() && (#[trigger] files[i]).table@ == k,
{
}

} // verus!
