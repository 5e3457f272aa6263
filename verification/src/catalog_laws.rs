//! What holds of the catalog across its operations: the past stays as it was,
//! and each write shows exactly what it should from its snapshot on.
use crate::catalog::{
    all_ended, column_rows, file_ref, file_rows, in_order, last_ended, lemma_created_wf,
    live_values, named_ended, rows_added, rows_of, CatalogView, Versioned,
};
use crate::text::holds;
use crate::transaction::{
    catalog_after, commit_fits, compactions_applied, tables_created, writes_applied, MemoryTx,
    StagedWrite,
};
use crate::memory::ControlPlaneView;
use crate::types::{ColumnDef, ColumnSpec, DataFile, FileRef, TableKey, TableRef};
use vstd::prelude::*;

verus! {

/// Everything that `v` shows at a snapshot it has, `u` shows at that snapshot
/// too.
pub open spec fn past_kept(v: CatalogView, u: CatalogView) -> bool {
    &&& v.next() <= u.next()
    &&& u.snapshots.take(v.next()) == v.snapshots
    &&& forall|k: TableKey, s: int|
        0 <= s < v.next() ==> #[trigger] u.table_live(k, s) == v.table_live(k, s)
    &&& forall|k: TableKey, s: int|
        0 <= s < v.next() ==> #[trigger] u.files_at(k, s) == v.files_at(k, s)
    &&& forall|k: TableKey, s: int|
        0 <= s < v.next() ==> #[trigger] u.columns_at(k, s) == v.columns_at(k, s)
}

/// The files as the catalog keeps them.
pub open spec fn file_refs(files: Seq<DataFile>) -> Seq<FileRef> {
    Seq::new(files.len(), |i: int| file_ref(files[i]))
}

/// The columns that a table is created with, each in its place.
pub open spec fn column_defs(cols: Seq<ColumnSpec>) -> Seq<ColumnDef> {
    Seq::new(
        cols.len(),
        |i: int|
            ColumnDef {
                order: i as i64,
                name: cols[i].name,
                ty: cols[i].ty,
                nullable: cols[i].nullable,
            },
    )
}

/// The open files of `rows` that `expire` does not name.
pub open spec fn kept_values(rows: Seq<Versioned<FileRef>>, expire: Seq<String>) -> Seq<FileRef>
    decreases rows.len(),
{
    if rows.len() == 0 {
        Seq::empty()
    } else if rows.last().end is None && !holds(expire, rows.last().val.path@) {
        kept_values(rows.drop_last(), expire).push(rows.last().val)
    } else {
        kept_values(rows.drop_last(), expire)
    }
}

proof fn lemma_live_added<T>(rows: Seq<Versioned<T>>, added: Seq<Versioned<T>>, s: int)
    ensures
        live_values(rows + added, s) == live_values(rows, s) + live_values(added, s),
    decreases added.len(),
{
    if added.len() == 0 {
        assert(rows + added =~= rows);
        assert(live_values(rows, s) + live_values(added, s) =~= live_values(rows, s));
    } else {
        assert((rows + added).drop_last() =~= rows + added.drop_last());
        lemma_live_added(rows, added.drop_last(), s);
        if added.last().live(s) {
            assert(live_values(rows + added, s) =~= live_values(rows, s) + live_values(added, s));
        }
    }
}

/// Rows that begin after `s` show nothing at `s`.
proof fn lemma_live_later<T>(rows: Seq<Versioned<T>>, s: int)
    requires
        forall|i: int| 0 <= i < rows.len() ==> (#[trigger] rows[i]).begin > s,
    ensures
        live_values(rows, s) == Seq::<T>::empty(),
    decreases rows.len(),
{
    if rows.len() > 0 {
        lemma_live_later(rows.drop_last(), s);
    }
}

/// Ending rows at `at` does not change what they show before `at`.
proof fn lemma_live_ended<T>(rows: Seq<Versioned<T>>, at: i64, s: int)
    requires
        s < at,
    ensures
        live_values(all_ended(rows, at), s) == live_values(rows, s),
    decreases rows.len(),
{
    if rows.len() > 0 {
        assert(all_ended(rows, at).drop_last() =~= all_ended(rows.drop_last(), at));
        lemma_live_ended(rows.drop_last(), at, s);
    }
}

proof fn lemma_live_named_ended(rows: Seq<Versioned<FileRef>>, expire: Seq<String>, at: i64, s: int)
    requires
        s < at,
    ensures
        live_values(named_ended(rows, expire, at), s) == live_values(rows, s),
    decreases rows.len(),
{
    if rows.len() > 0 {
        assert(named_ended(rows, expire, at).drop_last() =~= named_ended(
            rows.drop_last(),
            expire,
            at,
        ));
        lemma_live_named_ended(rows.drop_last(), expire, at, s);
    }
}

/// Once every open row is ended at `at`, nothing shows at `at`.
proof fn lemma_none_after_end<T>(rows: Seq<Versioned<T>>, at: i64)
    requires
        forall|i: int| 0 <= i < rows.len() ==> (#[trigger] rows[i]).bounded(at as int),
    ensures
        live_values(all_ended(rows, at), at as int) == Seq::<T>::empty(),
    decreases rows.len(),
{
    if rows.len() > 0 {
        assert(all_ended(rows, at).drop_last() =~= all_ended(rows.drop_last(), at));
        lemma_none_after_end(rows.drop_last(), at);
    }
}

proof fn lemma_kept_after_end(rows: Seq<Versioned<FileRef>>, expire: Seq<String>, at: i64)
    requires
        forall|i: int| 0 <= i < rows.len() ==> (#[trigger] rows[i]).bounded(at as int),
    ensures
        live_values(named_ended(rows, expire, at), at as int) == kept_values(rows, expire),
    decreases rows.len(),
{
    if rows.len() > 0 {
        assert(named_ended(rows, expire, at).drop_last() =~= named_ended(
            rows.drop_last(),
            expire,
            at,
        ));
        lemma_kept_after_end(rows.drop_last(), expire, at);
    }
}

/// Files added at `at` all show at `at`.
proof fn lemma_new_files_show(files: Seq<DataFile>, at: i64)
    ensures
        live_values(file_rows(files, at), at as int) == file_refs(files),
    decreases files.len(),
{
    if files.len() == 0 {
        assert(file_refs(files) =~= Seq::empty());
    } else {
        assert(file_rows(files, at).drop_last() =~= file_rows(files.drop_last(), at));
        lemma_new_files_show(files.drop_last(), at);
        assert(file_refs(files) =~= file_refs(files.drop_last()).push(file_ref(files.last())));
    }
}

/// What adding rows does to what a table shows.
proof fn lemma_added_rows<T>(
    m: Map<TableKey, Seq<Versioned<T>>>,
    k: TableKey,
    added: Seq<Versioned<T>>,
    q: TableKey,
    s: int,
)
    ensures
        live_values(rows_of(rows_added(m, k, added), q), s) == (if q == k {
            live_values(rows_of(m, q), s) + live_values(added, s)
        } else {
            live_values(rows_of(m, q), s)
        }),
{
    lemma_live_added(rows_of(m, k), added, s);
    if added.len() == 0 {
        assert(live_values(added, s) =~= Seq::<T>::empty());
        assert(live_values(rows_of(m, q), s) + live_values(added, s) =~= live_values(
            rows_of(m, q),
            s,
        ));
    }
}

/// A created table leaves the past as it was, also that of a table of its name that
/// was dropped.
pub proof fn law_create_keeps_past(v: CatalogView, k: TableKey, cols: Seq<ColumnSpec>, now: i128)
    requires
        v.wf(),
        v.next() < i64::MAX,
    ensures
        past_kept(v, v.created(k, cols, now)),
{
    let u = v.created(k, cols, now);
    let at = v.next() as i64;
    assert(u.snapshots.take(v.next()) =~= v.snapshots);
    assert forall|q: TableKey, s: int| 0 <= s < v.next() implies #[trigger] u.columns_at(q, s)
        == v.columns_at(q, s) by {
        lemma_added_rows(v.columns, k, column_rows(cols, at), q, s);
        lemma_live_later(column_rows(cols, at), s);
        assert(v.columns_at(q, s) + Seq::<ColumnDef>::empty() =~= v.columns_at(q, s));
    }
    assert forall|q: TableKey, s: int| 0 <= s < v.next() implies #[trigger] u.files_at(q, s)
        == v.files_at(q, s) by {}
    assert forall|q: TableKey, s: int| 0 <= s < v.next() implies #[trigger] u.table_live(q, s)
        == v.table_live(q, s) by {
        if q == k {
            let old_rows = rows_of(v.tables, k);
            let new_rows = u.tables[k];
            assert(forall|i: int| 0 <= i < old_rows.len() ==> new_rows[i] == old_rows[i]);
            if v.table_live(k, s) {
                let i = choose|i: int| 0 <= i < old_rows.len() && (#[trigger] old_rows[i]).live(s);
                assert(new_rows[i].live(s));
            }
            if u.table_live(k, s) {
                let i = choose|i: int| 0 <= i < new_rows.len() && (#[trigger] new_rows[i]).live(s);
                assert(i < old_rows.len());
                assert(old_rows[i].live(s));
            }
        }
    }
}

/// A table that is created where none is live, also one that was dropped before, is
/// live from its snapshot on, with the columns it is created with and no files but
/// those that were open.
pub proof fn law_create_shows(v: CatalogView, k: TableKey, cols: Seq<ColumnSpec>, now: i128)
    requires
        v.wf(),
        v.next() < i64::MAX,
        !v.live_table(k),
    ensures
        v.created(k, cols, now).next() == v.next() + 1,
        v.created(k, cols, now).live_table(k),
        v.created(k, cols, now).table_live(k, v.next()),
        v.created(k, cols, now).columns_at(k, v.next()) == column_defs(cols),
        v.created(k, cols, now).files_at(k, v.next()) == v.files_at(k, v.next()),
{
    let u = v.created(k, cols, now);
    let at = v.next() as i64;
    let rows = u.tables[k];
    assert(rows[rows.len() - 1].live(v.next()));
    lemma_added_rows(v.columns, k, column_rows(cols, at), k, v.next());
    lemma_new_columns_show(cols, at);
    let before = rows_of(v.columns, k);
    if v.columns.dom().contains(k) {
        assert forall|i: int| 0 <= i < before.len() implies !(#[trigger] before[i]).live(v.next()) by {
            assert(v.columns[k][i].bounded(v.next()));
            assert(before[i].end is Some);
        }
    }
    lemma_none_live(before, v.next());
    assert(Seq::<ColumnDef>::empty() + column_defs(cols) =~= column_defs(cols));
}

/// Rows none of which is live at `s` show nothing at `s`.
proof fn lemma_none_live<T>(rows: Seq<Versioned<T>>, s: int)
    requires
        forall|i: int| 0 <= i < rows.len() ==> !(#[trigger] rows[i]).live(s),
    ensures
        live_values(rows, s) == Seq::<T>::empty(),
    decreases rows.len(),
{
    if rows.len() > 0 {
        lemma_none_live(rows.drop_last(), s);
    }
}

/// Columns that a table is created with at `at` all show at `at`.
proof fn lemma_new_columns_show(cols: Seq<ColumnSpec>, at: i64)
    ensures
        live_values(column_rows(cols, at), at as int) == column_defs(cols),
    decreases cols.len(),
{
    if cols.len() == 0 {
        assert(column_defs(cols) =~= Seq::empty());
    } else {
        let before = cols.drop_last();
        assert(column_rows(cols, at).drop_last() =~= column_rows(before, at));
        lemma_new_columns_show(before, at);
        assert(column_defs(cols) =~= column_defs(before).push(column_rows(cols, at).last().val));
    }
}

/// What a table shows at a snapshot lists its columns in their order.
pub proof fn law_columns_are_ordered(v: CatalogView, k: TableKey, s: int, i: int, j: int)
    requires
        v.wf(),
        0 <= i < j < v.columns_at(k, s).len(),
    ensures
        v.columns_at(k, s)[i].order < v.columns_at(k, s)[j].order,
{
    assert(v.columns.dom().contains(k));
    lemma_shown_in_order(v.columns[k], s, i, j);
}

proof fn lemma_shown_in_order(rows: Seq<Versioned<ColumnDef>>, s: int, i: int, j: int)
    requires
        in_order(rows),
        0 <= i < j < live_values(rows, s).len(),
    ensures
        live_values(rows, s)[i].order < live_values(rows, s)[j].order,
    decreases rows.len(),
{
    let before = rows.drop_last();
    assert(in_order(before)) by {
        assert forall|a: int, b: int|
            #![trigger before[a], before[b]]
            0 <= a < b < before.len() implies before[a].val.order < before[b].val.order || (
        before[a].end matches Some(e) && e <= before[b].begin) by {
            assert(rows[a] == before[a] && rows[b] == before[b]);
        }
    }
    if j < live_values(before, s).len() {
        lemma_shown_in_order(before, s, i, j);
    } else {
        let a = lemma_shown_from(before, s, i);
        assert(rows[a] == before[a]);
        assert(rows[a].live(s) && rows[rows.len() - 1].live(s));
    }
}

/// What a list of rows shows comes from a live row of it.
proof fn lemma_shown_from<T>(rows: Seq<Versioned<T>>, s: int, i: int) -> (a: int)
    requires
        0 <= i < live_values(rows, s).len(),
    ensures
        0 <= a < rows.len(),
        rows[a].live(s),
        rows[a].val == live_values(rows, s)[i],
    decreases rows.len(),
{
    let before = rows.drop_last();
    if i < live_values(before, s).len() {
        let a = lemma_shown_from(before, s, i);
        assert(rows[a] == before[a]);
        a
    } else {
        rows.len() - 1
    }
}

/// Appended files leave the past as it was.
pub proof fn law_append_keeps_past(v: CatalogView, k: TableKey, files: Seq<DataFile>, now: i128)
    requires
        v.wf(),
        v.next() < i64::MAX,
    ensures
        past_kept(v, v.appended(k, files, now)),
{
    let u = v.appended(k, files, now);
    let at = v.next() as i64;
    assert(u.snapshots.take(v.next()) =~= v.snapshots);
    assert forall|q: TableKey, s: int| 0 <= s < v.next() implies #[trigger] u.files_at(q, s)
        == v.files_at(q, s) by {
        lemma_added_rows(v.files, k, file_rows(files, at), q, s);
        lemma_live_later(file_rows(files, at), s);
        assert(v.files_at(q, s) + Seq::<FileRef>::empty() =~= v.files_at(q, s));
    }
    assert forall|q: TableKey, s: int| 0 <= s < v.next() implies #[trigger] u.columns_at(q, s)
        == v.columns_at(q, s) by {}
}

/// A replacement leaves the past as it was.
pub proof fn law_replace_keeps_past(v: CatalogView, k: TableKey, files: Seq<DataFile>, now: i128)
    requires
        v.wf(),
        v.next() < i64::MAX,
    ensures
        past_kept(v, v.replaced(k, files, now)),
{
    let u = v.replaced(k, files, now);
    let at = v.next() as i64;
    assert(u.snapshots.take(v.next()) =~= v.snapshots);
    let ended = if v.files.dom().contains(k) {
        v.files.insert(k, all_ended(v.files[k], at))
    } else {
        v.files
    };
    assert forall|q: TableKey, s: int| 0 <= s < v.next() implies #[trigger] u.files_at(q, s)
        == v.files_at(q, s) by {
        lemma_added_rows(ended, k, file_rows(files, at), q, s);
        lemma_live_later(file_rows(files, at), s);
        if v.files.dom().contains(k) {
            lemma_live_ended(v.files[k], at, s);
        }
        assert(v.files_at(q, s) + Seq::<FileRef>::empty() =~= v.files_at(q, s));
    }
    assert forall|q: TableKey, s: int| 0 <= s < v.next() implies #[trigger] u.columns_at(q, s)
        == v.columns_at(q, s) by {}
}

/// A compaction leaves the past as it was.
pub proof fn law_compact_keeps_past(
    v: CatalogView,
    k: TableKey,
    expire: Seq<String>,
    files: Seq<DataFile>,
    now: i128,
)
    requires
        v.wf(),
        v.next() < i64::MAX,
    ensures
        past_kept(v, v.compacted(k, expire, files, now)),
{
    let u = v.compacted(k, expire, files, now);
    let at = v.next() as i64;
    assert(u.snapshots.take(v.next()) =~= v.snapshots);
    let ended = if v.files.dom().contains(k) {
        v.files.insert(k, named_ended(v.files[k], expire, at))
    } else {
        v.files
    };
    assert forall|q: TableKey, s: int| 0 <= s < v.next() implies #[trigger] u.files_at(q, s)
        == v.files_at(q, s) by {
        lemma_added_rows(ended, k, file_rows(files, at), q, s);
        lemma_live_later(file_rows(files, at), s);
        if v.files.dom().contains(k) {
            lemma_live_named_ended(v.files[k], expire, at, s);
        }
        assert(v.files_at(q, s) + Seq::<FileRef>::empty() =~= v.files_at(q, s));
    }
    assert forall|q: TableKey, s: int| 0 <= s < v.next() implies #[trigger] u.columns_at(q, s)
        == v.columns_at(q, s) by {}
}

/// A dropped table stays readable at every snapshot before the drop, and is gone
/// from the drop on.
pub proof fn law_drop_keeps_past(v: CatalogView, k: TableKey, now: i128)
    requires
        v.wf(),
        v.next() < i64::MAX,
    ensures
        v.live_table(k) ==> past_kept(v, v.dropped(k, now)),
        !v.dropped(k, now).table_live(k, v.next()),
        v.live_table(k) ==> v.dropped(k, now).files_at(k, v.next()).len() == 0,
        v.live_table(k) ==> v.dropped(k, now).columns_at(k, v.next()).len() == 0,
{
    let u = v.dropped(k, now);
    let at = v.next() as i64;
    assert(u.snapshots.take(v.next()) =~= v.snapshots);
    if v.tables.dom().contains(k) {
        let rows = v.tables[k];
        let ended = last_ended(rows, at);
        let last = rows.len() - 1;
        assert(forall|i: int| 0 <= i < last ==> ended[i] == rows[i]);
        assert(!u.table_live(k, v.next())) by {
            assert forall|i: int| 0 <= i < ended.len() implies !(#[trigger] ended[i]).live(v.next()) by {
                if i < last {
                    assert(rows.drop_last()[i].end is Some);
                    assert(v.tables[k][i].bounded(v.next()));
                }
            }
        }
        if v.live_table(k) {
            assert forall|s: int| 0 <= s < v.next() implies #[trigger] u.table_live(k, s)
                == v.table_live(k, s) by {
                assert(forall|i: int|
                    0 <= i < rows.len() ==> (#[trigger] rows[i]).live(s) == ended[i].live(s));
                if v.table_live(k, s) {
                    let i = choose|i: int| 0 <= i < rows.len() && (#[trigger] rows[i]).live(s);
                    assert(ended[i].live(s));
                }
                if u.table_live(k, s) {
                    let i = choose|i: int| 0 <= i < ended.len() && (#[trigger] ended[i]).live(s);
                    assert(rows[i].live(s));
                }
            }
        }
    }
    if v.live_table(k) {
        assert forall|q: TableKey, s: int| 0 <= s < v.next() implies #[trigger] u.table_live(q, s)
            == v.table_live(q, s) by {}
        assert forall|q: TableKey, s: int| 0 <= s < v.next() implies #[trigger] u.files_at(q, s)
            == v.files_at(q, s) by {
            if v.files.dom().contains(k) {
                lemma_live_ended(v.files[k], at, s);
            }
        }
        assert forall|q: TableKey, s: int| 0 <= s < v.next() implies #[trigger] u.columns_at(q, s)
            == v.columns_at(q, s) by {
            if v.columns.dom().contains(k) {
                lemma_live_ended(v.columns[k], at, s);
            }
        }
        if v.files.dom().contains(k) {
            lemma_none_after_end(v.files[k], at);
        }
        if v.columns.dom().contains(k) {
            lemma_none_after_end(v.columns[k], at);
        }
    }
}

/// From its snapshot on, an append shows what was open before, then its files.
pub proof fn law_append_shows(v: CatalogView, k: TableKey, files: Seq<DataFile>, now: i128)
    requires
        v.wf(),
        v.next() < i64::MAX,
    ensures
        v.appended(k, files, now).files_at(k, v.next()) == v.files_at(k, v.next()) + file_refs(
            files,
        ),
{
    let at = v.next() as i64;
    lemma_added_rows(v.files, k, file_rows(files, at), k, v.next());
    lemma_new_files_show(files, at);
}

/// From its snapshot on, a replacement shows its files and nothing else.
pub proof fn law_replace_shows(v: CatalogView, k: TableKey, files: Seq<DataFile>, now: i128)
    requires
        v.wf(),
        v.next() < i64::MAX,
    ensures
        v.replaced(k, files, now).files_at(k, v.next()) == file_refs(files),
{
    let at = v.next() as i64;
    let ended = if v.files.dom().contains(k) {
        v.files.insert(k, all_ended(v.files[k], at))
    } else {
        v.files
    };
    lemma_added_rows(ended, k, file_rows(files, at), k, v.next());
    lemma_new_files_show(files, at);
    if v.files.dom().contains(k) {
        lemma_none_after_end(v.files[k], at);
    }
    assert(Seq::<FileRef>::empty() + file_refs(files) =~= file_refs(files));
}

/// From its snapshot on, a compaction shows the open files that it does not
/// expire, then its own.
pub proof fn law_compact_shows(
    v: CatalogView,
    k: TableKey,
    expire: Seq<String>,
    files: Seq<DataFile>,
    now: i128,
)
    requires
        v.wf(),
        v.next() < i64::MAX,
    ensures
        v.compacted(k, expire, files, now).files_at(k, v.next()) == kept_values(
            rows_of(v.files, k),
            expire,
        ) + file_refs(files),
{
    let at = v.next() as i64;
    let ended = if v.files.dom().contains(k) {
        v.files.insert(k, named_ended(v.files[k], expire, at))
    } else {
        v.files
    };
    lemma_added_rows(ended, k, file_rows(files, at), k, v.next());
    lemma_new_files_show(files, at);
    if v.files.dom().contains(k) {
        lemma_kept_after_end(v.files[k], expire, at);
    }
}

/// A write to one table changes what no other table shows, at any snapshot.
pub proof fn law_writes_are_local(
    v: CatalogView,
    k: TableKey,
    expire: Seq<String>,
    files: Seq<DataFile>,
    now: i128,
    q: TableKey,
    s: int,
)
    requires
        q != k,
    ensures
        v.appended(k, files, now).files_at(q, s) == v.files_at(q, s),
        v.replaced(k, files, now).files_at(q, s) == v.files_at(q, s),
        v.compacted(k, expire, files, now).files_at(q, s) == v.files_at(q, s),
{
}

proof fn lemma_past_transitive(v: CatalogView, u: CatalogView, w: CatalogView)
    requires
        past_kept(v, u),
        past_kept(u, w),
    ensures
        past_kept(v, w),
{
    assert(w.snapshots.take(v.next()) =~= u.snapshots.take(v.next()));
    assert forall|k: TableKey, s: int| 0 <= s < v.next() implies #[trigger] w.table_live(k, s)
        == v.table_live(k, s) by {
        assert(u.table_live(k, s) == v.table_live(k, s));
    }
    assert forall|k: TableKey, s: int| 0 <= s < v.next() implies #[trigger] w.files_at(k, s)
        == v.files_at(k, s) by {
        assert(u.files_at(k, s) == v.files_at(k, s));
    }
    assert forall|k: TableKey, s: int| 0 <= s < v.next() implies #[trigger] w.columns_at(k, s)
        == v.columns_at(k, s) by {
        assert(u.columns_at(k, s) == v.columns_at(k, s));
    }
}

proof fn lemma_past_reflexive(v: CatalogView)
    ensures
        past_kept(v, v),
{
    assert(v.snapshots.take(v.next()) =~= v.snapshots);
}

pub(crate) proof fn lemma_tables_past(v: CatalogView, staged: Seq<(TableRef, Vec<ColumnSpec>)>, now: i128)
    requires
        v.wf(),
        v.next() + staged.len() <= i64::MAX,
        forall|i: int| 0 <= i < staged.len() ==> (#[trigger] staged[i]).1@.len() <= i64::MAX,
    ensures
        past_kept(v, tables_created(v, staged, now)),
        tables_created(v, staged, now).wf(),
        tables_created(v, staged, now).next() <= v.next() + staged.len(),
    decreases staged.len(),
{
    if staged.len() == 0 {
        lemma_past_reflexive(v);
    } else {
        let before = staged.drop_last();
        lemma_tables_past(v, before, now);
        let u = tables_created(v, before, now);
        let (t, cols) = staged.last();
        assert(staged[staged.len() - 1].1@.len() <= i64::MAX);
        if !u.live_table(t@) {
            lemma_created_wf(u, t@, cols@, now);
            law_create_keeps_past(u, t@, cols@, now);
            lemma_past_transitive(v, u, u.created(t@, cols@, now));
        }
    }
}

pub(crate) proof fn lemma_writes_past(v: CatalogView, staged: Seq<StagedWrite>, now: i128)
    requires
        v.wf(),
        v.next() + staged.len() <= i64::MAX,
    ensures
        past_kept(v, writes_applied(v, staged, now)),
        writes_applied(v, staged, now).wf(),
        writes_applied(v, staged, now).next() == v.next() + staged.len(),
    decreases staged.len(),
{
    if staged.len() == 0 {
        lemma_past_reflexive(v);
    } else {
        lemma_writes_past(v, staged.drop_last(), now);
        let u = writes_applied(v, staged.drop_last(), now);
        match staged.last() {
            StagedWrite::Append(t, files) => {
                law_append_keeps_past(u, t@, files@, now);
            },
            StagedWrite::Replace(t, files) => {
                law_replace_keeps_past(u, t@, files@, now);
            },
        }
        lemma_past_transitive(v, u, writes_applied(v, staged, now));
    }
}

pub(crate) proof fn lemma_compactions_past(
    v: CatalogView,
    staged: Seq<(TableRef, Vec<String>, Vec<DataFile>)>,
    now: i128,
)
    requires
        v.wf(),
        v.next() + staged.len() <= i64::MAX,
    ensures
        past_kept(v, compactions_applied(v, staged, now)),
        compactions_applied(v, staged, now).wf(),
        compactions_applied(v, staged, now).next() == v.next() + staged.len(),
    decreases staged.len(),
{
    if staged.len() == 0 {
        lemma_past_reflexive(v);
    } else {
        lemma_compactions_past(v, staged.drop_last(), now);
        let u = compactions_applied(v, staged.drop_last(), now);
        let (t, expire, files) = staged.last();
        law_compact_keeps_past(u, t@, expire@, files@, now);
        lemma_past_transitive(v, u, compactions_applied(v, staged, now));
    }
}

/// Time travel: whatever a transaction stages, its commit leaves every snapshot
/// that existed before it as it was.
pub proof fn law_commit_keeps_past(cp: ControlPlaneView, tx: MemoryTx, now: i128)
    requires
        cp.catalog.wf(),
        commit_fits(cp, tx),
    ensures
        past_kept(cp.catalog, catalog_after(cp.catalog, tx, now)),
        catalog_after(cp.catalog, tx, now).wf(),
{
    let v = cp.catalog;
    lemma_tables_past(v, tx.staged_tables@, now);
    let a = tables_created(v, tx.staged_tables@, now);
    lemma_writes_past(a, tx.staged_writes@, now);
    let b = writes_applied(a, tx.staged_writes@, now);
    lemma_compactions_past(b, tx.staged_compactions@, now);
    lemma_past_transitive(v, a, b);
    lemma_past_transitive(v, b, catalog_after(v, tx, now));
}

/// A table whose creation is staged is live after the commit, also one that was
/// dropped before.
pub proof fn law_staged_table_is_live(cp: ControlPlaneView, tx: MemoryTx, now: i128, i: int)
    requires
        0 <= i < tx.staged_tables@.len(),
    ensures
        catalog_after(cp.catalog, tx, now).live_table(tx.staged_tables@[i].0@),
{
    let v = cp.catalog;
    lemma_created_live(v, tx.staged_tables@, now, i);
    let a = tables_created(v, tx.staged_tables@, now);
    lemma_writes_keep_tables(a, tx.staged_writes@, now);
    let b = writes_applied(a, tx.staged_writes@, now);
    lemma_compactions_keep_tables(b, tx.staged_compactions@, now);
}

proof fn lemma_created_live(
    v: CatalogView,
    staged: Seq<(TableRef, Vec<ColumnSpec>)>,
    now: i128,
    i: int,
)
    requires
        0 <= i < staged.len(),
    ensures
        tables_created(v, staged, now).live_table(staged[i].0@),
    decreases staged.len(),
{
    if i < staged.len() - 1 {
        lemma_created_live(v, staged.drop_last(), now, i);
    }
}

proof fn lemma_writes_keep_tables(v: CatalogView, staged: Seq<StagedWrite>, now: i128)
    ensures
        writes_applied(v, staged, now).tables == v.tables,
    decreases staged.len(),
{
    if staged.len() > 0 {
        lemma_writes_keep_tables(v, staged.drop_last(), now);
    }
}

proof fn lemma_compactions_keep_tables(
    v: CatalogView,
    staged: Seq<(TableRef, Vec<String>, Vec<DataFile>)>,
    now: i128,
)
    ensures
        compactions_applied(v, staged, now).tables == v.tables,
    decreases staged.len(),
{
    if staged.len() > 0 {
        lemma_compactions_keep_tables(v, staged.drop_last(), now);
    }
}

/// Writes apply in staging order: an append staged behind a replacement of the
/// same table stays live, and one staged before it does not.
pub proof fn law_staging_order(
    v: CatalogView,
    t: TableRef,
    replacement: Vec<DataFile>,
    appended: Vec<DataFile>,
    now: i128,
)
    requires
        v.wf(),
        v.next() + 2 <= i64::MAX,
    ensures
        writes_applied(
            v,
            seq![StagedWrite::Replace(t, replacement), StagedWrite::Append(t, appended)],
            now,
        ).files_at(t@, v.next() + 1) == file_refs(replacement@) + file_refs(appended@),
        writes_applied(
            v,
            seq![StagedWrite::Append(t, appended), StagedWrite::Replace(t, replacement)],
            now,
        ).files_at(t@, v.next() + 1) == file_refs(replacement@),
{
    reveal_with_fuel(writes_applied, 3);
    let replace_first = seq![
        StagedWrite::Replace(t, replacement),
        StagedWrite::Append(t, appended),
    ];
    let append_first = seq![
        StagedWrite::Append(t, appended),
        StagedWrite::Replace(t, replacement),
    ];
    assert(replace_first.drop_last() =~= seq![StagedWrite::Replace(t, replacement)]);
    assert(replace_first.drop_last().drop_last() =~= Seq::<StagedWrite>::empty());
    assert(append_first.drop_last() =~= seq![StagedWrite::Append(t, appended)]);
    assert(append_first.drop_last().drop_last() =~= Seq::<StagedWrite>::empty());
    lemma_writes_past(v, replace_first.drop_last(), now);
    lemma_writes_past(v, append_first.drop_last(), now);
    let r = v.replaced(t@, replacement@, now);
    let a = v.appended(t@, appended@, now);
    assert(writes_applied(v, replace_first.drop_last(), now) == r);
    assert(writes_applied(v, append_first.drop_last(), now) == a);
    law_append_shows(r, t@, appended@, now);
    law_replace_shows(a, t@, replacement@, now);
    law_replace_shows(v, t@, replacement@, now);
    let at = v.next() as i64;
    let ended = if v.files.dom().contains(t@) {
        v.files.insert(t@, all_ended(v.files[t@], at))
    } else {
        v.files
    };
    lemma_added_rows(ended, t@, file_rows(replacement@, at), t@, v.next() + 1);
    lemma_open_rows_show(file_rows(replacement@, at), at);
    if v.files.dom().contains(t@) {
        lemma_none_later(v.files[t@], at, v.next() + 1);
    }
    lemma_new_files_show(replacement@, at);
    assert(Seq::<FileRef>::empty() + file_refs(replacement@) =~= file_refs(replacement@));
}

/// Rows that begin at `at` and stay open show the same at `at` and after it.
proof fn lemma_open_rows_show<T>(rows: Seq<Versioned<T>>, at: i64)
    requires
        forall|i: int|
            0 <= i < rows.len() ==> (#[trigger] rows[i]).begin == at && rows[i].end is None,
    ensures
        live_values(rows, at + 1) == live_values(rows, at as int),
    decreases rows.len(),
{
    if rows.len() > 0 {
        lemma_open_rows_show(rows.drop_last(), at);
    }
}

/// Once every open row is ended at `at`, nothing shows later either.
proof fn lemma_none_later<T>(rows: Seq<Versioned<T>>, at: i64, s: int)
    requires
        forall|i: int| 0 <= i < rows.len() ==> (#[trigger] rows[i]).bounded(at as int),
        at <= s,
    ensures
        live_values(all_ended(rows, at), s) == Seq::<T>::empty(),
    decreases rows.len(),
{
    if rows.len() > 0 {
        assert(all_ended(rows, at).drop_last() =~= all_ended(rows.drop_last(), at));
        lemma_none_later(rows.drop_last(), at, s);
    }
}

} // verus!
