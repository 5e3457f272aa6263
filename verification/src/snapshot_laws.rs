//! What a snapshot shows: which rows of the catalog, under which names, and with what in
//! them.
use crate::catalog::{
    any_live, files_added, is_seed_file, live_snapshots, live_values, projected, rows_of, seed_base,
    seeded, view_defined, view_dropped, CatalogView, Versioned,
};
use crate::catalog_laws::{
    file_refs, kept_values, law_append_shows, law_compact_shows, law_create_shows, law_replace_shows,
};
use crate::error::ControlPlaneError;
use crate::memory::ControlPlaneView;
use crate::text::{holds, int_text};
use crate::types::{
    ColumnDef, ColumnSpec, DataFile, FileRef, LineageEvent, Snapshot, SnapshotId, TableKey, ViewDef,
};
use vstd::prelude::*;

verus! {

/// Every write makes one snapshot: the next number, at the instant of the write. No other
/// snapshot changes.
pub proof fn law_each_write_makes_one_snapshot(
    v: CatalogView,
    k: TableKey,
    cols: Seq<ColumnSpec>,
    expire: Seq<String>,
    files: Seq<DataFile>,
    file: FileRef,
    now: i128,
    u: CatalogView,
)
    requires
        v.next() < i64::MAX,
        ({
            ||| u == v.created(k, cols, now)
            ||| u == v.appended(k, files, now)
            ||| u == v.file_added(k, file, now)
            ||| u == v.replaced(k, files, now)
            ||| u == v.compacted(k, expire, files, now)
            ||| u == v.dropped(k, now)
        }),
    ensures
        u.snapshots.len() == v.snapshots.len() + 1,
        u.snapshots.drop_last() == v.snapshots,
        u.snapshots.last().id.0 == v.snapshots.len(),
        u.snapshots.last().time == now,
        u.views == v.views,
{
    assert(u.snapshots.drop_last() =~= v.snapshots);
}

/// A snapshot shows, in their order, the values of exactly those rows that had begun by
/// then and had not ended by then.
pub proof fn law_snapshot_shows_what_lives<T>(rows: Seq<Versioned<T>>, s: int)
    ensures
        live_values(rows, s) == rows.filter(
            |row: Versioned<T>| row.begin <= s && (row.end is None || s < row.end->0),
        ).map_values(|row: Versioned<T>| row.val),
    decreases rows.len(),
{
    let lives = |row: Versioned<T>| row.begin <= s && (row.end is None || s < row.end->0);
    let value = |row: Versioned<T>| row.val;
    reveal(Seq::filter);
    if rows.len() > 0 {
        law_snapshot_shows_what_lives(rows.drop_last(), s);
        let before = rows.drop_last().filter(lives);
        if lives(rows.last()) {
            assert(before.push(rows.last()).map_values(value) =~= before.map_values(value).push(
                rows.last().val,
            ));
        }
    } else {
        assert(rows.filter(lives).map_values(value) =~= Seq::empty());
    }
}

/// The files and the columns that a table shows are the live ones of its own rows; a table
/// without rows shows none.
pub proof fn law_table_shows_its_own_rows(v: CatalogView, k: TableKey, s: int)
    ensures
        v.files.dom().contains(k) ==> v.files_at(k, s) == v.files[k].filter(
            |row: Versioned<FileRef>| row.begin <= s && (row.end is None || s < row.end->0),
        ).map_values(|row: Versioned<FileRef>| row.val),
        v.columns.dom().contains(k) ==> v.columns_at(k, s) == v.columns[k].filter(
            |row: Versioned<ColumnDef>| row.begin <= s && (row.end is None || s < row.end->0),
        ).map_values(|row: Versioned<ColumnDef>| row.val),
        !v.files.dom().contains(k) ==> v.files_at(k, s).len() == 0,
        !v.columns.dom().contains(k) ==> v.columns_at(k, s).len() == 0,
{
    law_snapshot_shows_what_lives(rows_of(v.files, k), s);
    law_snapshot_shows_what_lives(rows_of(v.columns, k), s);
}

/// A table is there at a snapshot where one of its lives began by then and had not ended
/// by then; it is there now where its last life is open.
pub proof fn law_table_is_there_while_it_lives(v: CatalogView, k: TableKey, s: int, i: int)
    requires
        v.tables.dom().contains(k),
        0 <= i < v.tables[k].len(),
    ensures
        v.tables[k][i].begin <= s && (v.tables[k][i].end is None || s < v.tables[k][i].end->0)
            ==> v.table_live(k, s),
        v.table_live(k, s) ==> exists|j: int|
            0 <= j < v.tables[k].len() && (#[trigger] v.tables[k][j]).begin <= s && (
            v.tables[k][j].end is None || s < v.tables[k][j].end->0),
        v.wf() && v.tables[k][i].end is None ==> v.live_table(k),
        v.wf() && v.live_table(k) ==> v.table_live(k, v.next() - 1),
{
    let rows = v.tables[k];
    assert(rows[i].begin <= s && (rows[i].end is None || s < rows[i].end->0) ==> rows[i].live(s));
    if v.table_live(k, s) {
        let j = choose|j: int| 0 <= j < rows.len() && (#[trigger] rows[j]).live(s);
        assert(rows[j].begin <= s);
    }
    if v.wf() {
        if rows[i].end is None && i < rows.len() - 1 {
            assert(rows.drop_last()[i].end is Some);
        }
        assert(v.tables[k][rows.len() - 1].bounded(v.next()));
        if v.live_table(k) {
            assert(rows[rows.len() - 1].live(v.next() - 1));
        }
    }
}

/// What an append adds shows at its snapshot behind the files that were open, one for each
/// file handed in and in that order: its path, its number of rows and its size in bytes.
pub proof fn law_appended_files_are_those_handed_in(
    v: CatalogView,
    k: TableKey,
    files: Seq<DataFile>,
    now: i128,
    i: int,
)
    requires
        v.wf(),
        v.next() < i64::MAX,
        0 <= i < files.len(),
    ensures
        ({
            let before = v.files_at(k, v.next());
            let shown = v.appended(k, files, now).files_at(k, v.next());
            &&& shown.len() == before.len() + files.len()
            &&& shown.take(before.len() as int) == before
            &&& shown[before.len() + i].path == files[i].path
            &&& shown[before.len() + i].record_count == files[i].record_count
            &&& shown[before.len() + i].file_size_bytes == files[i].file_size_bytes
        }),
{
    law_append_shows(v, k, files, now);
    let before = v.files_at(k, v.next());
    let shown = v.appended(k, files, now).files_at(k, v.next());
    assert(shown.take(before.len() as int) =~= before);
    assert(shown[before.len() + i] == file_refs(files)[i]);
}

/// What a replacement adds is all that shows at its snapshot, one for each file handed in
/// and in that order: its path, its number of rows and its size in bytes.
pub proof fn law_replacing_files_are_those_handed_in(
    v: CatalogView,
    k: TableKey,
    files: Seq<DataFile>,
    now: i128,
    i: int,
)
    requires
        v.wf(),
        v.next() < i64::MAX,
        0 <= i < files.len(),
    ensures
        ({
            let shown = v.replaced(k, files, now).files_at(k, v.next());
            &&& shown.len() == files.len()
            &&& shown[i].path == files[i].path
            &&& shown[i].record_count == files[i].record_count
            &&& shown[i].file_size_bytes == files[i].file_size_bytes
        }),
{
    law_replace_shows(v, k, files, now);
    assert(file_refs(files)[i].path == files[i].path);
}

/// A compaction shows at its snapshot the open files that it does not expire, then one for
/// each file handed in and in that order: its path, its number of rows and its size in
/// bytes. No file that was open and named is shown any more.
pub proof fn law_compacted_files_are_those_handed_in(
    v: CatalogView,
    k: TableKey,
    expire: Seq<String>,
    files: Seq<DataFile>,
    now: i128,
    i: int,
)
    requires
        v.wf(),
        v.next() < i64::MAX,
        0 <= i < files.len(),
    ensures
        ({
            let shown = v.compacted(k, expire, files, now).files_at(k, v.next());
            let kept = shown.len() - files.len();
            &&& kept >= 0
            &&& shown[kept + i].path == files[i].path
            &&& shown[kept + i].record_count == files[i].record_count
            &&& shown[kept + i].file_size_bytes == files[i].file_size_bytes
        }),
{
    law_compact_shows(v, k, expire, files, now);
    let kept = kept_values(rows_of(v.files, k), expire);
    let shown = v.compacted(k, expire, files, now).files_at(k, v.next());
    assert(shown[kept.len() + i] == file_refs(files)[i]);
}

/// What a compaction keeps is every file that was open and that it does not name, in their
/// order, and no other.
pub proof fn law_compaction_keeps_the_unnamed(
    v: CatalogView,
    k: TableKey,
    expire: Seq<String>,
    files: Seq<DataFile>,
    now: i128,
)
    requires
        v.wf(),
        v.next() < i64::MAX,
        v.files.dom().contains(k),
    ensures
        ({
            let shown = v.compacted(k, expire, files, now).files_at(k, v.next());
            &&& shown.len() >= files.len()
            &&& shown.take(shown.len() - files.len()) == v.files[k].filter(
                |row: Versioned<FileRef>|
                    row.end is None && !(exists|e: int|
                        0 <= e < expire.len() && #[trigger] expire[e]@ == row.val.path@),
            ).map_values(|row: Versioned<FileRef>| row.val)
        }),
{
    law_compact_shows(v, k, expire, files, now);
    let rows = v.files[k];
    lemma_kept(rows, expire);
    let kept = kept_values(rows, expire);
    let shown = v.compacted(k, expire, files, now).files_at(k, v.next());
    assert(shown.take(shown.len() - files.len()) =~= kept);
}

proof fn lemma_kept(rows: Seq<Versioned<FileRef>>, expire: Seq<String>)
    ensures
        kept_values(rows, expire) == rows.filter(
            |row: Versioned<FileRef>|
                row.end is None && !(exists|e: int|
                    0 <= e < expire.len() && #[trigger] expire[e]@ == row.val.path@),
        ).map_values(|row: Versioned<FileRef>| row.val),
    decreases rows.len(),
{
    let stays = |row: Versioned<FileRef>|
        row.end is None && !(exists|e: int|
            0 <= e < expire.len() && #[trigger] expire[e]@ == row.val.path@);
    let value = |row: Versioned<FileRef>| row.val;
    reveal(Seq::filter);
    if rows.len() > 0 {
        lemma_kept(rows.drop_last(), expire);
        let before = rows.drop_last().filter(stays);
        assert(stays(rows.last()) == (rows.last().end is None && !holds(expire, rows.last().val.path@)));
        if stays(rows.last()) {
            assert(before.push(rows.last()).map_values(value) =~= before.map_values(value).push(
                rows.last().val,
            ));
        }
    } else {
        assert(rows.filter(stays).map_values(value) =~= Seq::empty());
    }
}

/// A table that is created shows the columns handed in, each in its place, under its name,
/// with its type and its nullability.
pub proof fn law_created_columns_are_those_handed_in(
    v: CatalogView,
    k: TableKey,
    cols: Seq<ColumnSpec>,
    now: i128,
    i: int,
)
    requires
        v.wf(),
        v.next() < i64::MAX,
        cols.len() <= i64::MAX,
        !v.live_table(k),
        0 <= i < cols.len(),
    ensures
        ({
            let shown = v.created(k, cols, now).columns_at(k, v.next());
            &&& shown.len() == cols.len()
            &&& shown[i].order == i
            &&& shown[i].name == cols[i].name
            &&& shown[i].ty == cols[i].ty
            &&& shown[i].nullable == cols[i].nullable
        }),
{
    law_create_shows(v, k, cols, now);
}

/// The past of a table is the snapshots at which it was there, in their order.
pub proof fn law_past_of_a_table(all: Seq<Snapshot>, lives: Seq<Versioned<()>>)
    ensures
        live_snapshots(all, lives) == all.filter(
            |s: Snapshot|
                exists|i: int|
                    0 <= i < lives.len() && (#[trigger] lives[i]).begin <= s.id.0 && (lives[i].end is None
                        || s.id.0 < lives[i].end->0),
        ),
    decreases all.len(),
{
    let there = |s: Snapshot|
        exists|i: int|
            0 <= i < lives.len() && (#[trigger] lives[i]).begin <= s.id.0 && (lives[i].end is None
                || s.id.0 < lives[i].end->0);
    reveal(Seq::filter);
    if all.len() > 0 {
        law_past_of_a_table(all.drop_last(), lives);
        let s = all.last();
        if any_live(lives, s.id.0 as int) {
            let i = choose|i: int| 0 <= i < lives.len() && (#[trigger] lives[i]).live(s.id.0 as int);
            assert(lives[i].begin <= s.id.0);
        }
        if there(s) {
            let i = choose|i: int|
                0 <= i < lives.len() && (#[trigger] lives[i]).begin <= s.id.0 && (lives[i].end is None
                    || s.id.0 < lives[i].end->0);
            assert(lives[i].live(s.id.0 as int));
        }
    } else {
        assert(all.filter(there) =~= all);
    }
}

/// A view shows the columns of its base that it names, in the order of the base, and all
/// of them where it names none; what is no view shows its own.
pub proof fn law_view_shows_its_base(v: CatalogView, k: TableKey, s: int)
    ensures
        !v.views.dom().contains(k) ==> v.base_of(k) == k && v.schema_at(k, s) == v.columns_at(k, s),
        v.views.dom().contains(k) ==> v.base_of(k) == v.views[k].base@,
        v.views.dom().contains(k) && v.views[k].columns is None ==> v.schema_at(k, s)
            == v.columns_at(v.views[k].base@, s),
        v.views.dom().contains(k) && v.views[k].columns is Some ==> v.schema_at(k, s)
            == v.columns_at(v.views[k].base@, s).filter(
            |c: ColumnDef|
                exists|e: int|
                    0 <= e < v.views[k].columns->0@.len() && #[trigger] (v.views[k].columns->0)@[e]@
                        == c.name@,
        ),
{
    if v.views.dom().contains(k) && v.views[k].columns is Some {
        lemma_projected(v.columns_at(v.views[k].base@, s), (v.views[k].columns->0)@);
    }
}

proof fn lemma_projected(cols: Seq<ColumnDef>, keep: Seq<String>)
    ensures
        projected(cols, keep) == cols.filter(
            |c: ColumnDef| exists|e: int| 0 <= e < keep.len() && #[trigger] keep[e]@ == c.name@,
        ),
    decreases cols.len(),
{
    let kept = |c: ColumnDef| exists|e: int| 0 <= e < keep.len() && #[trigger] keep[e]@ == c.name@;
    reveal(Seq::filter);
    if cols.len() > 0 {
        lemma_projected(cols.drop_last(), keep);
        assert(kept(cols.last()) == holds(keep, cols.last().name@));
    } else {
        assert(cols.filter(kept) =~= cols);
    }
}

/// A snapshot can no longer be read in full where a file that it shows had ended by the
/// horizon, and only there.
pub proof fn law_reclaimable_means_a_shown_file_ended(
    v: CatalogView,
    k: TableKey,
    at: int,
    horizon: int,
    i: int,
)
    requires
        v.files.dom().contains(k),
        0 <= i < v.files[k].len(),
    ensures
        v.files[k][i].begin <= at && (v.files[k][i].end matches Some(e) && at < e <= horizon)
            ==> v.reclaimable(k, at, horizon),
        v.reclaimable(k, at, horizon) ==> exists|j: int|
            0 <= j < v.files[k].len() && (#[trigger] v.files[k][j]).begin <= at && (
            v.files[k][j].end matches Some(e) && at < e <= horizon),
{
    let rows = rows_of(v.files, k);
    if rows[i].begin <= at && (rows[i].end matches Some(e) && at < e <= horizon) {
        assert(rows[i].live(at));
    }
    if v.reclaimable(k, at, horizon) {
        let j = choose|j: int|
            0 <= j < rows.len() && (#[trigger] rows[j]).live(at) && (rows[j].end matches Some(e) && e
                <= horizon);
        assert(v.files[k][j].begin <= at);
    }
}

/// A view is defined exactly over a table that is live, under a name that neither a view
/// nor a live table has, where its columns are in order. It is then kept under its name,
/// with its event, and nothing else changes; otherwise nothing does.
pub proof fn law_view_stands_on_a_live_table(
    pre: ControlPlaneView,
    post: ControlPlaneView,
    view: ViewDef,
    shape: Result<(), String>,
    event: LineageEvent,
    r: Result<(), ControlPlaneError>,
    other: TableKey,
)
    requires
        view_defined(pre, post, view, shape, event, r),
    ensures
        r is Ok <==> !pre.catalog.views.dom().contains(view.view@) && !pre.catalog.live_table(
            view.view@,
        ) && !pre.catalog.views.dom().contains(view.base@) && pre.catalog.live_table(view.base@)
            && shape is Ok,
        r is Err ==> post == pre,
        r is Ok ==> {
            &&& post.catalog.views.dom().contains(view.view@)
            &&& post.catalog.views[view.view@] == view
            &&& post.events == pre.events.push(event)
        },
        other != view.view@ ==> post.catalog.views.dom().contains(other)
            == pre.catalog.views.dom().contains(other) && post.catalog.views[other]
            == pre.catalog.views[other],
        pre.catalog.views.dom().contains(view.view@) ==> r->Err_0@ is Conflict,
        !pre.catalog.views.dom().contains(view.view@) && pre.catalog.live_table(view.view@)
            ==> r->Err_0@ is Conflict,
        post.catalog.tables == pre.catalog.tables,
        post.catalog.columns == pre.catalog.columns,
        post.catalog.files == pre.catalog.files,
        post.catalog.snapshots == pre.catalog.snapshots,
        post == (ControlPlaneView { catalog: post.catalog, events: post.events, ..pre }),
{
}

/// A view that is dropped is gone, and no other is; its base stays as it was.
pub proof fn law_dropped_view_is_gone(
    pre: ControlPlaneView,
    post: ControlPlaneView,
    view: TableKey,
    r: Result<(), ControlPlaneError>,
    other: TableKey,
)
    requires
        view_dropped(pre, post, view, r),
    ensures
        r is Ok <==> pre.catalog.views.dom().contains(view),
        r is Err ==> r->Err_0@ is NotFound,
        !post.catalog.views.dom().contains(view),
        other != view ==> post.catalog.views.dom().contains(other) == pre.catalog.views.dom().contains(
            other,
        ) && post.catalog.views[other] == pre.catalog.views[other],
        post.catalog.tables == pre.catalog.tables,
        post.catalog.columns == pre.catalog.columns,
        post.catalog.files == pre.catalog.files,
        post.catalog.snapshots == pre.catalog.snapshots,
        post == (ControlPlaneView { catalog: post.catalog, ..pre }),
{
}

/// Seeding gives a table one file for each batch, at a snapshot of its own: so many rows
/// as the batch has, and sixteen bytes for each row.
pub proof fn law_seed_has_a_file_for_each_batch(
    pre: ControlPlaneView,
    post: ControlPlaneView,
    k: TableKey,
    columns: Seq<ColumnSpec>,
    batches: Seq<usize>,
    made: Seq<SnapshotId>,
    now: i128,
    i: int,
) -> (file: FileRef)
    requires
        seeded(pre, post, k, columns, batches, made, now),
        pre.catalog.next() + 1 + batches.len() <= i64::MAX,
        0 <= i < batches.len(),
    ensures
        made.len() == batches.len(),
        made[i].0 == pre.catalog.next() + i + (if pre.catalog.tables.dom().contains(k) {
            0int
        } else {
            1int
        }),
        file.path@ == "data/"@ + k.1 + "_"@ + int_text(i) + ".parquet"@,
        file.record_count == batches[i],
        file.file_size_bytes == 16 * batches[i],
        ({
            let rows = post.catalog.files[k];
            let start = rows_of(pre.catalog.files, k).len();
            &&& rows.len() == start + batches.len()
            &&& rows[start + i].begin == made[i].0
            &&& rows[start + i].end is None
            &&& rows[start + i].val == file
        }),
        post == (ControlPlaneView { catalog: post.catalog, ..pre }),
{
    let base = seed_base(pre.catalog, k, columns, now);
    let files = choose|files: Seq<FileRef>|
        {
            &&& files.len() == batches.len()
            &&& forall|j: int|
                0 <= j < files.len() ==> is_seed_file(#[trigger] files[j], k.1, j, batches[j] as int)
            &&& post == ControlPlaneView {
                catalog: #[trigger] files_added(base, k, files, now),
                ..pre
            }
        };
    assert(is_seed_file(files[i], k.1, i, batches[i] as int));
    lemma_files_added(base, k, files, now, i);
    assert(base.next() <= pre.catalog.next() + 1);
    files[i]
}

proof fn lemma_files_added(v: CatalogView, k: TableKey, files: Seq<FileRef>, now: i128, i: int)
    requires
        v.next() + files.len() <= i64::MAX,
    ensures
        files_added(v, k, files, now).next() == v.next() + files.len(),
        rows_of(files_added(v, k, files, now).files, k).len() == rows_of(v.files, k).len() + files.len(),
        0 <= i < files.len() ==> {
            let row = rows_of(files_added(v, k, files, now).files, k)[rows_of(v.files, k).len() + i];
            row.begin == v.next() + i && row.end is None && row.val == files[i]
        },
        files.len() > 0 ==> files_added(v, k, files, now).files.dom().contains(k),
    decreases files.len(),
{
    if files.len() > 0 {
        lemma_files_added(v, k, files.drop_last(), now, i);
    }
}

} // verus!
