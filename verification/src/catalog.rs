//! The versioned catalog: tables, columns and files, each live over a range of
//! snapshots, and views over tables.
use crate::ambient;
use crate::error::{outcome, ControlPlaneError, Fault};
use crate::key::Key;
use crate::memory::{ControlPlaneView, MemoryControlPlane};
use crate::ordered::{OrderedMap, lemma_entry, lemma_position, position_of};
use crate::text::{concat, concat3, concat5, contains_text, holds, i64_text, int_text, usize_text};
use crate::types::{
    ColumnDef, ColumnSpec, DataFile, FileRef, LineageEvent, Snapshot, SnapshotId, TableKey, TableRef,
    ViewDef,
};
use vstd::prelude::*;
use vstd::string::StringExecFns;

verus! {

/// A catalog row that is live from snapshot `begin` on, and until `end` where it
/// has one.
pub struct Versioned<T> {
    pub begin: i64,
    pub end: Option<i64>,
    pub val: T,
}

impl<T> Versioned<T> {
    /// Live at snapshot `s`: begun by then, and not ended by then.
    pub open spec fn live(self, s: int) -> bool {
        self.begin <= s && (self.end matches Some(e) ==> s < e)
    }

    /// The row lives only at snapshots below `next`, and not backwards.
    pub open spec fn bounded(self, next: int) -> bool {
        0 <= self.begin < next && (self.end matches Some(e) ==> self.begin <= e < next)
    }

    /// Whether the row is live at snapshot `s`.
    pub fn live_at(&self, s: i64) -> (r: bool)
        ensures
            r == self.live(s as int),
    {
        self.begin <= s && match self.end {
            Some(e) => e > s,
            None => true,
        }
    }
}

/// What the catalog holds. A table has a row for each time that it was created.
#[verifier::ext_equal]
pub struct CatalogView {
    pub snapshots: Seq<Snapshot>,
    pub tables: Map<TableKey, Seq<Versioned<()>>>,
    pub columns: Map<TableKey, Seq<Versioned<ColumnDef>>>,
    pub files: Map<TableKey, Seq<Versioned<FileRef>>>,
    pub views: Map<TableKey, ViewDef>,
}

/// The rows under a key, none where the key is absent.
pub open spec fn rows_of<T>(m: Map<TableKey, Seq<T>>, k: TableKey) -> Seq<T> {
    if m.dom().contains(k) {
        m[k]
    } else {
        Seq::empty()
    }
}

/// `m` with `added` behind the rows of `k`. Nothing added leaves `m` as it is.
pub open spec fn rows_added<T>(m: Map<TableKey, Seq<T>>, k: TableKey, added: Seq<T>) -> Map<
    TableKey,
    Seq<T>,
> {
    if added.len() == 0 {
        m
    } else {
        m.insert(k, rows_of(m, k) + added)
    }
}

/// What a map of vectors holds under each key.
pub open spec fn contents<T>(m: Map<TableKey, Vec<T>>) -> Map<TableKey, Seq<T>> {
    Map::new(|k: TableKey| m.dom().contains(k), |k: TableKey| m[k]@)
}

/// The file as the catalog keeps it.
pub open spec fn file_ref(f: DataFile) -> FileRef {
    FileRef { path: f.path, record_count: f.record_count, file_size_bytes: f.file_size_bytes }
}

/// The rows of files that are added at snapshot `s`.
pub open spec fn file_rows(files: Seq<DataFile>, s: i64) -> Seq<Versioned<FileRef>> {
    Seq::new(
        files.len(),
        |i: int| Versioned { begin: s, end: None, val: file_ref(files[i]) },
    )
}

/// The rows of the columns that a table created at snapshot `s` has.
pub open spec fn column_rows(cols: Seq<ColumnSpec>, s: i64) -> Seq<Versioned<ColumnDef>> {
    Seq::new(
        cols.len(),
        |i: int|
            Versioned {
                begin: s,
                end: None,
                val: ColumnDef {
                    order: i as i64,
                    name: cols[i].name,
                    ty: cols[i].ty,
                    nullable: cols[i].nullable,
                },
            },
    )
}

/// The rows of a table with the last one ended at `s`.
pub open spec fn last_ended(rows: Seq<Versioned<()>>, s: i64) -> Seq<Versioned<()>> {
    rows.drop_last().push(Versioned { begin: rows.last().begin, end: Some(s), val: () })
}

/// Some row is live at snapshot `s`.
pub open spec fn any_live(rows: Seq<Versioned<()>>, s: int) -> bool {
    exists|i: int| 0 <= i < rows.len() && (#[trigger] rows[i]).live(s)
}

/// No row is open.
pub open spec fn none_open<T>(rows: Seq<Versioned<T>>) -> bool {
    forall|i: int| 0 <= i < rows.len() ==> (#[trigger] rows[i]).end is Some
}

/// Two columns that share a snapshot stand in their order.
pub open spec fn in_order(rows: Seq<Versioned<ColumnDef>>) -> bool {
    forall|i: int, j: int|
        #![trigger rows[i], rows[j]]
        0 <= i < j < rows.len() ==> rows[i].val.order < rows[j].val.order || (
        rows[i].end matches Some(e) && e <= rows[j].begin)
}

/// The rows of `files` with every open one ended at `s`.
pub open spec fn all_ended<T>(rows: Seq<Versioned<T>>, s: i64) -> Seq<Versioned<T>> {
    Seq::new(
        rows.len(),
        |i: int|
            if rows[i].end is None {
                Versioned { begin: rows[i].begin, end: Some(s), val: rows[i].val }
            } else {
                rows[i]
            },
    )
}

/// The rows of `files` with every open one whose path is in `expire` ended at `s`.
pub open spec fn named_ended(
    rows: Seq<Versioned<FileRef>>,
    expire: Seq<String>,
    s: i64,
) -> Seq<Versioned<FileRef>> {
    Seq::new(
        rows.len(),
        |i: int|
            if rows[i].end is None && holds(expire, rows[i].val.path@) {
                Versioned { begin: rows[i].begin, end: Some(s), val: rows[i].val }
            } else {
                rows[i]
            },
    )
}

/// Every row of every table is bounded by `next`.
pub open spec fn rows_bounded<T>(m: Map<TableKey, Seq<Versioned<T>>>, next: int) -> bool {
    forall|k: TableKey, i: int|
        #![trigger m[k][i]]
        m.dom().contains(k) && 0 <= i < m[k].len() ==> m[k][i].bounded(next)
}

impl CatalogView {
    /// The number of the next snapshot.
    pub open spec fn next(self) -> int {
        self.snapshots.len() as int
    }

    /// Snapshots are numbered from 0 in the order they were made, every row
    /// begins and ends at a snapshot that exists, of a table's rows only the last
    /// may be open, only tables have columns, only live tables have open columns,
    /// and a table's columns are kept in their order.
    pub open spec fn wf(self) -> bool {
        &&& self.next() <= i64::MAX
        &&& forall|i: int| 0 <= i < self.snapshots.len() ==> (#[trigger] self.snapshots[i]).id.0 == i
        &&& rows_bounded(self.tables, self.next())
        &&& rows_bounded(self.columns, self.next())
        &&& rows_bounded(self.files, self.next())
        &&& forall|k: TableKey| #[trigger]
            self.tables.dom().contains(k) ==> self.tables[k].len() > 0 && none_open(
                self.tables[k].drop_last(),
            )
        &&& self.columns.dom().subset_of(self.tables.dom())
        &&& forall|k: TableKey|
            #![trigger self.columns.dom().contains(k)]
            self.columns.dom().contains(k) ==> in_order(self.columns[k]) && (!self.live_table(k)
                ==> none_open(self.columns[k]))
    }

    /// One snapshot more, made at `now`.
    pub open spec fn with_snapshot(self, now: i128) -> CatalogView {
        CatalogView {
            snapshots: self.snapshots.push(
                Snapshot { id: SnapshotId(self.next() as i64), time: now, schema_version: 0 },
            ),
            ..self
        }
    }

    /// The table `k` is created with `cols` at a snapshot of its own. The rows of
    /// a table of that name that was dropped stay, so that its past can be read.
    pub open spec fn created(self, k: TableKey, cols: Seq<ColumnSpec>, now: i128) -> CatalogView {
        let s = self.next() as i64;
        CatalogView {
            tables: rows_added(
                self.tables,
                k,
                seq![Versioned { begin: s, end: None::<i64>, val: () }],
            ),
            columns: rows_added(self.columns, k, column_rows(cols, s)),
            ..self.with_snapshot(now)
        }
    }

    /// `files` are added to `k` at a snapshot of their own.
    pub open spec fn appended(self, k: TableKey, files: Seq<DataFile>, now: i128) -> CatalogView {
        let s = self.next() as i64;
        CatalogView {
            files: rows_added(self.files, k, file_rows(files, s)),
            ..self.with_snapshot(now)
        }
    }

    /// `file` is added to `k` at a snapshot of its own.
    pub open spec fn file_added(self, k: TableKey, file: FileRef, now: i128) -> CatalogView {
        let s = self.next() as i64;
        CatalogView {
            files: rows_added(
                self.files,
                k,
                seq![Versioned { begin: s, end: None::<i64>, val: file }],
            ),
            ..self.with_snapshot(now)
        }
    }

    /// `files` take the place of every open file of `k`, at one snapshot.
    pub open spec fn replaced(self, k: TableKey, files: Seq<DataFile>, now: i128) -> CatalogView {
        let s = self.next() as i64;
        let ended = if self.files.dom().contains(k) {
            self.files.insert(k, all_ended(self.files[k], s))
        } else {
            self.files
        };
        CatalogView {
            files: rows_added(ended, k, file_rows(files, s)),
            ..self.with_snapshot(now)
        }
    }

    /// `files` take the place of the open files of `k` that `expire` names, at
    /// one snapshot.
    pub open spec fn compacted(
        self,
        k: TableKey,
        expire: Seq<String>,
        files: Seq<DataFile>,
        now: i128,
    ) -> CatalogView {
        let s = self.next() as i64;
        let ended = if self.files.dom().contains(k) {
            self.files.insert(k, named_ended(self.files[k], expire, s))
        } else {
            self.files
        };
        CatalogView {
            files: rows_added(ended, k, file_rows(files, s)),
            ..self.with_snapshot(now)
        }
    }

    /// The table `k`, its columns and its files end at a snapshot of their own.
    pub open spec fn dropped(self, k: TableKey, now: i128) -> CatalogView {
        let s = self.next() as i64;
        CatalogView {
            tables: if self.tables.dom().contains(k) {
                self.tables.insert(k, last_ended(self.tables[k], s))
            } else {
                self.tables
            },
            columns: if self.columns.dom().contains(k) {
                self.columns.insert(k, all_ended(self.columns[k], s))
            } else {
                self.columns
            },
            files: if self.files.dom().contains(k) {
                self.files.insert(k, all_ended(self.files[k], s))
            } else {
                self.files
            },
            ..self.with_snapshot(now)
        }
    }

    /// The table `k` has an open row.
    pub open spec fn live_table(self, k: TableKey) -> bool {
        self.tables.dom().contains(k) && self.tables[k].last().end is None
    }

    /// The table `k` is live at snapshot `s`.
    pub open spec fn table_live(self, k: TableKey, s: int) -> bool {
        self.tables.dom().contains(k) && any_live(self.tables[k], s)
    }

    /// Where `k` is read: the base of the view `k`, or `k` itself.
    pub open spec fn base_of(self, k: TableKey) -> TableKey {
        if self.views.dom().contains(k) {
            self.views[k].base@
        } else {
            k
        }
    }
}

/// The catalog's state.
pub struct CatalogState {
    pub next_snapshot: i64,
    pub snapshots: Vec<Snapshot>,
    pub tables: OrderedMap<TableRef, Vec<Versioned<()>>>,
    pub columns: OrderedMap<TableRef, Vec<Versioned<ColumnDef>>>,
    pub files: OrderedMap<TableRef, Vec<Versioned<FileRef>>>,
    pub views: OrderedMap<TableRef, ViewDef>,
}

impl View for CatalogState {
    type V = CatalogView;

    open spec fn view(&self) -> CatalogView {
        CatalogView {
            snapshots: self.snapshots@,
            tables: contents(self.tables@),
            columns: contents(self.columns@),
            files: contents(self.files@),
            views: self.views@,
        }
    }
}

/// Ends every open row of `rows` at `s`.
fn end_all<T>(rows: &mut Vec<Versioned<T>>, s: i64)
    ensures
        final(rows)@ == all_ended(old(rows)@, s),
{
    let ghost before = rows@;
    let mut i: usize = 0;
    while i < rows.len()
        invariant
            i <= rows@.len(),
            rows@.len() == before.len(),
            forall|j: int| 0 <= j < i ==> rows@[j] == all_ended(before, s)[j],
            forall|j: int| i <= j < rows@.len() ==> rows@[j] == before[j],
        decreases rows@.len() - i,
    {
        if rows[i].end.is_none() {
            rows[i].end = Some(s);
        }
        i = i + 1;
    }
    assert(rows@ =~= all_ended(before, s));
}

/// Ends every open row of `rows` whose path is in `expire`, at `s`.
fn end_named(rows: &mut Vec<Versioned<FileRef>>, expire: &Vec<String>, s: i64)
    ensures
        final(rows)@ == named_ended(old(rows)@, expire@, s),
{
    let ghost before = rows@;
    let mut i: usize = 0;
    while i < rows.len()
        invariant
            i <= rows@.len(),
            rows@.len() == before.len(),
            forall|j: int| 0 <= j < i ==> rows@[j] == named_ended(before, expire@, s)[j],
            forall|j: int| i <= j < rows@.len() ==> rows@[j] == before[j],
        decreases rows@.len() - i,
    {
        if rows[i].end.is_none() && contains_text(expire, rows[i].val.path.as_str()) {
            rows[i].end = Some(s);
        }
        i = i + 1;
    }
    assert(rows@ =~= named_ended(before, expire@, s));
}


/// A map of vectors with another vector under `k`.
proof fn lemma_contents_insert<T>(m: Map<TableKey, Vec<T>>, k: TableKey, v: Vec<T>)
    ensures
        contents(m.insert(k, v)) == contents(m).insert(k, v@),
{
    assert(contents(m.insert(k, v)) =~= contents(m).insert(k, v@));
}

/// Rows that begin at the last snapshot keep a map of rows within its bounds.
proof fn lemma_added_bounded<T>(
    m: Map<TableKey, Seq<Versioned<T>>>,
    k: TableKey,
    added: Seq<Versioned<T>>,
    next: int,
)
    requires
        rows_bounded(m, next),
        forall|i: int| 0 <= i < added.len() ==> (#[trigger] added[i]).bounded(next),
    ensures
        rows_bounded(rows_added(m, k, added), next),
{
    let after = rows_added(m, k, added);
    assert forall|t: TableKey, i: int|
        after.dom().contains(t) && 0 <= i < after[t].len() implies (#[trigger] after[t][i]).bounded(
        next,
    ) by {
        if added.len() > 0 && t == k {
            let start = rows_of(m, k);
            if i < start.len() {
                assert(after[t][i] == m[k][i]);
            } else {
                assert(after[t][i] == added[i - start.len()]);
            }
        } else {
            assert(after[t][i] == m[t][i]);
        }
    }
}

/// Taking a key out and putting it back changes only what is under it.
proof fn lemma_put_back<V>(m: Map<TableKey, V>, k: TableKey, v: V)
    ensures
        m.remove(k).insert(k, v) == m.insert(k, v),
{
    assert(m.remove(k).insert(k, v) =~= m.insert(k, v));
}

/// Creating a table that is not live keeps the catalog's invariant.
pub proof fn lemma_created_wf(v: CatalogView, k: TableKey, cols: Seq<ColumnSpec>, now: i128)
    requires
        v.wf(),
        v.next() < i64::MAX,
        cols.len() <= i64::MAX,
        !v.live_table(k),
    ensures
        v.created(k, cols, now).wf(),
{
    let u = v.created(k, cols, now);
    let s = v.next() as i64;
    let life = seq![Versioned { begin: s, end: None::<i64>, val: () }];
    assert(rows_bounded(v.tables, u.next())) by {
        assert forall|t: TableKey, i: int|
            v.tables.dom().contains(t) && 0 <= i < v.tables[t].len() implies (
        #[trigger] v.tables[t][i]).bounded(u.next()) by {
            assert(v.tables[t][i].bounded(v.next()));
        }
    }
    assert(rows_bounded(v.columns, u.next())) by {
        assert forall|t: TableKey, i: int|
            v.columns.dom().contains(t) && 0 <= i < v.columns[t].len() implies (
        #[trigger] v.columns[t][i]).bounded(u.next()) by {
            assert(v.columns[t][i].bounded(v.next()));
        }
    }
    assert(rows_bounded(v.files, u.next())) by {
        assert forall|t: TableKey, i: int|
            v.files.dom().contains(t) && 0 <= i < v.files[t].len() implies (
        #[trigger] v.files[t][i]).bounded(u.next()) by {
            assert(v.files[t][i].bounded(v.next()));
        }
    }
    lemma_added_bounded(v.tables, k, life, u.next());
    lemma_added_bounded(v.columns, k, column_rows(cols, s), u.next());
    assert(u.tables[k].drop_last() =~= rows_of(v.tables, k));
    assert(none_open(u.tables[k].drop_last())) by {
        if v.tables.dom().contains(k) {
            let rows = v.tables[k];
            assert forall|i: int| 0 <= i < rows.len() implies (#[trigger] rows[i]).end is Some by {
                if i < rows.len() - 1 {
                    assert(rows.drop_last()[i].end is Some);
                }
            }
        }
    }
    assert(u.live_table(k));
    let before = rows_of(v.columns, k);
    let after = rows_of(u.columns, k);
    assert(after =~= before + column_rows(cols, s));
    assert(in_order(after)) by {
        assert(in_order(before) && none_open(before)) by {
            assert(v.columns.dom().contains(k) || before.len() == 0);
        }
        assert forall|i: int, j: int|
            #![trigger after[i], after[j]]
            0 <= i < j < after.len() implies after[i].val.order < after[j].val.order || (
        after[i].end matches Some(e) && e <= after[j].begin) by {
            if j < before.len() {
                assert(after[i] == before[i] && after[j] == before[j]);
            } else if i < before.len() {
                assert(after[i] == before[i]);
                assert(before[i].end is Some);
                assert(v.columns[k][i].bounded(v.next()));
            }
        }
    }
    assert forall|t: TableKey|
        #![trigger u.columns.dom().contains(t)]
        u.columns.dom().contains(t) implies in_order(u.columns[t]) && (!u.live_table(t)
        ==> none_open(u.columns[t])) by {
        if t != k {
            assert(v.columns.dom().contains(t));
        }
    }
    assert forall|t: TableKey| #[trigger] u.tables.dom().contains(t) implies u.tables[t].len() > 0
        && none_open(u.tables[t].drop_last()) by {
        if t != k {
            assert(v.tables.dom().contains(t));
        }
    }
}

/// Dropping a table keeps the catalog's invariant.
proof fn lemma_dropped_wf(v: CatalogView, k: TableKey, now: i128)
    requires
        v.wf(),
        v.next() < i64::MAX,
    ensures
        v.dropped(k, now).wf(),
{
    let u = v.dropped(k, now);
    assert forall|t: TableKey, i: int|
        u.tables.dom().contains(t) && 0 <= i < u.tables[t].len() implies (
    #[trigger] u.tables[t][i]).bounded(u.next()) by {
        assert(v.tables[t][i].bounded(v.next()));
    }
    assert forall|t: TableKey, i: int|
        u.columns.dom().contains(t) && 0 <= i < u.columns[t].len() implies (
    #[trigger] u.columns[t][i]).bounded(u.next()) by {
        assert(v.columns[t][i].bounded(v.next()));
    }
    assert forall|t: TableKey, i: int|
        u.files.dom().contains(t) && 0 <= i < u.files[t].len() implies (
    #[trigger] u.files[t][i]).bounded(u.next()) by {
        assert(v.files[t][i].bounded(v.next()));
    }
    assert forall|t: TableKey| #[trigger] u.tables.dom().contains(t) implies u.tables[t].len() > 0
        && none_open(u.tables[t].drop_last()) by {
        assert(v.tables.dom().contains(t));
        if t == k {
            assert(u.tables[t].drop_last() =~= v.tables[t].drop_last());
        }
    }
    assert forall|t: TableKey|
        #![trigger u.columns.dom().contains(t)]
        u.columns.dom().contains(t) implies in_order(u.columns[t]) && (!u.live_table(t)
        ==> none_open(u.columns[t])) by {
        assert(v.columns.dom().contains(t));
        if t == k {
            let rows = v.columns[k];
            let ended = u.columns[k];
            assert forall|i: int, j: int|
                #![trigger ended[i], ended[j]]
                0 <= i < j < ended.len() implies ended[i].val.order < ended[j].val.order || (
            ended[i].end matches Some(e) && e <= ended[j].begin) by {
                assert(rows[i].val == ended[i].val && rows[j].begin == ended[j].begin);
            }
        }
    }
}

impl CatalogState {
    pub open spec fn wf(&self) -> bool {
        &&& self.tables.wf()
        &&& self.columns.wf()
        &&& self.files.wf()
        &&& self.views.wf()
        &&& self.next_snapshot == self.snapshots@.len()
        &&& self@.wf()
    }

    /// An empty catalog.
    pub fn new() -> (r: Self)
        ensures
            r.wf(),
            r@ == (CatalogView {
                snapshots: Seq::empty(),
                tables: Map::empty(),
                columns: Map::empty(),
                files: Map::empty(),
                views: Map::empty(),
            }),
    {
        let r = CatalogState {
            next_snapshot: 0,
            snapshots: Vec::new(),
            tables: OrderedMap::new(),
            columns: OrderedMap::new(),
            files: OrderedMap::new(),
            views: OrderedMap::new(),
        };
        assert(r@ =~= (CatalogView {
            snapshots: Seq::empty(),
            tables: Map::empty(),
            columns: Map::empty(),
            files: Map::empty(),
            views: Map::empty(),
        }));
        r
    }

    /// Makes the next snapshot, at `now`, and gives its number.
    pub fn new_snapshot(&mut self, now: i128) -> (r: i64)
        requires
            old(self).wf(),
            old(self).next_snapshot < i64::MAX,
        ensures
            final(self).wf(),
            r == old(self)@.next(),
            final(self)@ == old(self)@.with_snapshot(now),
            final(self).tables == old(self).tables,
            final(self).columns == old(self).columns,
            final(self).files == old(self).files,
            final(self).views == old(self).views,
    {
        let id: i64 = self.next_snapshot;
        self.next_snapshot = id + 1;
        self.snapshots.push(Snapshot { id: SnapshotId(id), time: now, schema_version: 0 });
        assert(self@ =~= old(self)@.with_snapshot(now));
        id
    }

    /// Creates the table `table` with `columns`, at a snapshot of its own.
    pub(crate) fn create(&mut self, table: &TableRef, columns: &Vec<ColumnSpec>, now: i128) -> (r: i64)
        requires
            old(self).wf(),
            old(self).next_snapshot < i64::MAX,
            columns@.len() <= i64::MAX,
            !old(self)@.live_table(table@),
        ensures
            final(self).wf(),
            r == old(self)@.next(),
            final(self)@ == old(self)@.created(table@, columns@, now),
    {
        let ghost k = table@;
        let s: i64 = self.new_snapshot(now);
        let ghost mid = *self;
        let mut lives: Vec<Versioned<()>> = match self.tables.remove(table) {
            Some(v) => v,
            None => Vec::new(),
        };
        assert(lives@ == rows_of(contents(mid.tables@), k));
        lives.push(Versioned { begin: s, end: None, val: () });
        assert(lives@ =~= rows_of(old(self)@.tables, k) + seq![
            Versioned { begin: s, end: None::<i64>, val: () },
        ]);
        proof {
            lemma_put_back(mid.tables@, k, lives);
            lemma_contents_insert(mid.tables@, k, lives);
        }
        self.tables.insert(table.duplicate(), lives);
        assert(contents(self.tables@) =~= old(self)@.created(k, columns@, now).tables);
        if columns.len() == 0 {
            proof {
                lemma_created_wf(old(self)@, k, columns@, now);
            }
            assert(self@ =~= old(self)@.created(k, columns@, now));
            return s;
        }
        let mut cols: Vec<Versioned<ColumnDef>> = match self.columns.remove(table) {
            Some(v) => v,
            None => Vec::new(),
        };
        let ghost start = cols@;
        assert(start == rows_of(contents(mid.columns@), k));
        let mut i: usize = 0;
        while i < columns.len()
            invariant
                i <= columns@.len(),
                columns@.len() <= i64::MAX,
                cols@ == start + column_rows(columns@, s).take(i as int),
            decreases columns@.len() - i,
        {
            cols.push(
                Versioned {
                    begin: s,
                    end: None,
                    val: ColumnDef {
                        order: i as i64,
                        name: columns[i].name.clone(),
                        ty: columns[i].ty.clone(),
                        nullable: columns[i].nullable,
                    },
                },
            );
            assert(cols@ =~= start + column_rows(columns@, s).take(i + 1));
            i = i + 1;
        }
        assert(cols@ =~= start + column_rows(columns@, s));
        proof {
            lemma_put_back(mid.columns@, k, cols);
            lemma_contents_insert(mid.columns@, k, cols);
            lemma_created_wf(old(self)@, k, columns@, now);
        }
        self.columns.insert(table.duplicate(), cols);
        assert(self@ =~= old(self)@.created(k, columns@, now));
        s
    }

    /// Adds `files` to `table`, live from snapshot `s` on.
    fn add_files(&mut self, table: &TableRef, files: &Vec<DataFile>, s: i64)
        requires
            old(self).files.wf(),
        ensures
            final(self).files.wf(),
            contents(final(self).files@) == rows_added(
                contents(old(self).files@),
                table@,
                file_rows(files@, s),
            ),
            final(self).next_snapshot == old(self).next_snapshot,
            final(self).snapshots == old(self).snapshots,
            final(self).tables == old(self).tables,
            final(self).columns == old(self).columns,
            final(self).views == old(self).views,
    {
        if files.len() == 0 {
            return;
        }
        let ghost before = self.files@;
        let mut rows: Vec<Versioned<FileRef>> = match self.files.remove(table) {
            Some(v) => v,
            None => Vec::new(),
        };
        let ghost start = rows@;
        assert(start == rows_of(contents(before), table@));
        let mut i: usize = 0;
        while i < files.len()
            invariant
                i <= files@.len(),
                rows@ == start + file_rows(files@, s).take(i as int),
            decreases files@.len() - i,
        {
            rows.push(
                Versioned {
                    begin: s,
                    end: None,
                    val: FileRef {
                        path: files[i].path.clone(),
                        record_count: files[i].record_count,
                        file_size_bytes: files[i].file_size_bytes,
                    },
                },
            );
            assert(rows@ =~= start + file_rows(files@, s).take(i + 1));
            i = i + 1;
        }
        assert(file_rows(files@, s).take(i as int) =~= file_rows(files@, s));
        proof {
            lemma_put_back(before, table@, rows);
            lemma_contents_insert(before, table@, rows);
        }
        self.files.insert(table.duplicate(), rows);
    }

    /// Appends `files` to `table` at a snapshot of their own.
    pub(crate) fn append(&mut self, table: &TableRef, files: &Vec<DataFile>, now: i128) -> (r: i64)
        requires
            old(self).wf(),
            old(self).next_snapshot < i64::MAX,
        ensures
            final(self).wf(),
            r == old(self)@.next(),
            final(self)@ == old(self)@.appended(table@, files@, now),
    {
        let s: i64 = self.new_snapshot(now);
        proof {
            lemma_added_bounded(self@.files, table@, file_rows(files@, s), self@.next());
        }
        self.add_files(table, files, s);
        assert(self@ =~= old(self)@.appended(table@, files@, now));
        s
    }

    /// Adds `file` to `table` at a snapshot of its own.
    fn append_file(&mut self, table: &TableRef, file: FileRef, now: i128) -> (r: i64)
        requires
            old(self).wf(),
            old(self).next_snapshot < i64::MAX,
        ensures
            final(self).wf(),
            r == old(self)@.next(),
            final(self)@ == old(self)@.file_added(table@, file, now),
    {
        let s: i64 = self.new_snapshot(now);
        let ghost before = self.files@;
        let mut rows: Vec<Versioned<FileRef>> = match self.files.remove(table) {
            Some(v) => v,
            None => Vec::new(),
        };
        let ghost start = rows@;
        rows.push(Versioned { begin: s, end: None, val: file });
        proof {
            assert(rows@ =~= start + seq![Versioned { begin: s, end: None::<i64>, val: file }]);
            lemma_put_back(before, table@, rows);
            lemma_contents_insert(before, table@, rows);
        }
        self.files.insert(table.duplicate(), rows);
        assert(self@ =~= old(self)@.file_added(table@, file, now));
        s
    }

    /// Ends every open file of `table` and adds `files`, at one snapshot.
    pub(crate) fn replace(&mut self, table: &TableRef, files: &Vec<DataFile>, now: i128) -> (r: i64)
        requires
            old(self).wf(),
            old(self).next_snapshot < i64::MAX,
        ensures
            final(self).wf(),
            r == old(self)@.next(),
            final(self)@ == old(self)@.replaced(table@, files@, now),
    {
        let s: i64 = self.new_snapshot(now);
        let ghost before = self.files@;
        match self.files.remove(table) {
            Some(mut rows) => {
                end_all(&mut rows, s);
                proof {
                    lemma_put_back(before, table@, rows);
                    lemma_contents_insert(before, table@, rows);
                }
                self.files.insert(table.duplicate(), rows);
            },
            None => {
                assert(before.remove(table@) =~= before);
            },
        }
        self.add_files(table, files, s);
        assert(self@ =~= old(self)@.replaced(table@, files@, now));
        s
    }

    /// Ends the open files of `table` that `expire` names and adds `files`, at
    /// one snapshot.
    pub(crate) fn compact(
        &mut self,
        table: &TableRef,
        expire: &Vec<String>,
        files: &Vec<DataFile>,
        now: i128,
    ) -> (r: i64)
        requires
            old(self).wf(),
            old(self).next_snapshot < i64::MAX,
        ensures
            final(self).wf(),
            r == old(self)@.next(),
            final(self)@ == old(self)@.compacted(table@, expire@, files@, now),
    {
        let s: i64 = self.new_snapshot(now);
        let ghost before = self.files@;
        match self.files.remove(table) {
            Some(mut rows) => {
                end_named(&mut rows, expire, s);
                proof {
                    lemma_put_back(before, table@, rows);
                    lemma_contents_insert(before, table@, rows);
                }
                self.files.insert(table.duplicate(), rows);
            },
            None => {
                assert(before.remove(table@) =~= before);
            },
        }
        self.add_files(table, files, s);
        assert(self@ =~= old(self)@.compacted(table@, expire@, files@, now));
        s
    }

    /// Ends `table`, its columns and its files at a snapshot of their own.
    pub(crate) fn drop_table(&mut self, table: &TableRef, now: i128) -> (r: i64)
        requires
            old(self).wf(),
            old(self).next_snapshot < i64::MAX,
        ensures
            final(self).wf(),
            r == old(self)@.next(),
            final(self)@ == old(self)@.dropped(table@, now),
    {
        let d: i64 = self.new_snapshot(now);
        let ghost tables = self.tables@;
        let ghost columns = self.columns@;
        let ghost files = self.files@;
        match self.tables.remove(table) {
            Some(mut lives) => {
                let ghost rows = lives@;
                assert(old(self)@.tables.dom().contains(table@));
                let n: usize = lives.len();
                lives[n - 1].end = Some(d);
                assert(lives@ =~= last_ended(rows, d));
                proof {
                    lemma_put_back(tables, table@, lives);
                    lemma_contents_insert(tables, table@, lives);
                }
                self.tables.insert(table.duplicate(), lives);
            },
            None => {
                assert(tables.remove(table@) =~= tables);
            },
        }
        match self.files.remove(table) {
            Some(mut rows) => {
                end_all(&mut rows, d);
                proof {
                    lemma_put_back(files, table@, rows);
                    lemma_contents_insert(files, table@, rows);
                }
                self.files.insert(table.duplicate(), rows);
            },
            None => {
                assert(files.remove(table@) =~= files);
            },
        }
        match self.columns.remove(table) {
            Some(mut rows) => {
                end_all(&mut rows, d);
                proof {
                    lemma_put_back(columns, table@, rows);
                    lemma_contents_insert(columns, table@, rows);
                }
                self.columns.insert(table.duplicate(), rows);
            },
            None => {
                assert(columns.remove(table@) =~= columns);
            },
        }
        proof {
            lemma_dropped_wf(old(self)@, table@, now);
        }
        assert(self@ =~= old(self)@.dropped(table@, now));
        d
    }
}


/// The values of the rows that are live at snapshot `s`, in their order.
pub open spec fn live_values<T>(rows: Seq<Versioned<T>>, s: int) -> Seq<T>
    decreases rows.len(),
{
    if rows.len() == 0 {
        Seq::empty()
    } else if rows.last().live(s) {
        live_values(rows.drop_last(), s).push(rows.last().val)
    } else {
        live_values(rows.drop_last(), s)
    }
}

/// The columns whose names a projection keeps, in their order.
pub open spec fn projected(cols: Seq<ColumnDef>, keep: Seq<String>) -> Seq<ColumnDef>
    decreases cols.len(),
{
    if cols.len() == 0 {
        Seq::empty()
    } else if holds(keep, cols.last().name@) {
        projected(cols.drop_last(), keep).push(cols.last())
    } else {
        projected(cols.drop_last(), keep)
    }
}

impl CatalogView {
    /// The files of `k` at snapshot `s`.
    pub open spec fn files_at(self, k: TableKey, s: int) -> Seq<FileRef> {
        live_values(rows_of(self.files, k), s)
    }

    /// The columns of `k` at snapshot `s`.
    pub open spec fn columns_at(self, k: TableKey, s: int) -> Seq<ColumnDef> {
        live_values(rows_of(self.columns, k), s)
    }

    /// The columns that `k` shows at snapshot `s`: those of its base, cut down to
    /// what the view `k` projects.
    pub open spec fn schema_at(self, k: TableKey, s: int) -> Seq<ColumnDef> {
        let all = self.columns_at(self.base_of(k), s);
        if self.views.dom().contains(k) && self.views[k].columns is Some {
            projected(all, self.views[k].columns->0@)
        } else {
            all
        }
    }

    /// Some file of `k` that snapshot `at` sees has ended by `horizon`.
    pub open spec fn reclaimable(self, k: TableKey, at: int, horizon: int) -> bool {
        exists|i: int|
            0 <= i < rows_of(self.files, k).len() && (#[trigger] rows_of(self.files, k)[i]).live(at)
                && (rows_of(self.files, k)[i].end matches Some(e) && e <= horizon)
    }

    /// The last snapshot, not after an instant, at which a table lives; none where there is
    /// none.
    pub open spec fn last_as_of(self, k: TableKey, ts: i128, r: Option<Snapshot>) -> bool {
        match r {
            Some(sn) => 0 <= sn.id.0 < self.next() && sn == self.snapshots[sn.id.0 as int] && sn.time
                <= ts && self.table_live(k, sn.id.0 as int) && forall|j: int|
                sn.id.0 < j < self.next() ==> !(self.table_live(k, j)
                    && #[trigger] self.snapshots[j].time <= ts),
            None => forall|j: int|
                0 <= j < self.next() ==> !(self.table_live(k, j)
                    && #[trigger] self.snapshots[j].time <= ts),
        }
    }

    /// The last snapshot before an instant; none where there is none.
    pub open spec fn last_before(self, cutoff: i128, r: Option<SnapshotId>) -> bool {
        match r {
            Some(s) => 0 <= s.0 < self.next() && self.snapshots[s.0 as int].time < cutoff && forall|j: int|
                s.0 < j < self.next() ==> #[trigger] self.snapshots[j].time >= cutoff,
            None => forall|j: int| 0 <= j < self.next() ==> #[trigger] self.snapshots[j].time >= cutoff,
        }
    }

    /// Why the view cannot be defined, `shape` being the verdict on its columns.
    pub open spec fn view_fault(self, view: ViewDef, shape: Result<(), String>) -> Option<Fault> {
        let v = view.view@;
        let b = view.base@;
        if self.views.dom().contains(v) {
            Some(Fault::Conflict("view "@ + v.0 + "."@ + v.1 + " already exists"@))
        } else if self.live_table(v) {
            Some(Fault::Conflict(v.0 + "."@ + v.1 + " is a physical table"@))
        } else if self.views.dom().contains(b) {
            Some(Fault::Validation("view-over-view is not supported"@))
        } else if !self.live_table(b) {
            Some(Fault::NotFound(b.0 + "."@ + b.1))
        } else {
            match shape {
                Err(m) => Some(Fault::Validation(m@)),
                Ok(_) => None,
            }
        }
    }
}

/// What defining a view does and reports, `shape` being the verdict on its columns.
pub open spec fn view_defined(
    pre: ControlPlaneView,
    post: ControlPlaneView,
    view: ViewDef,
    shape: Result<(), String>,
    event: LineageEvent,
    r: Result<(), ControlPlaneError>,
) -> bool {
    match pre.catalog.view_fault(view, shape) {
        Some(f) => outcome(r) == Err::<(), Fault>(f) && post == pre,
        None => r is Ok && post == (ControlPlaneView {
            catalog: CatalogView { views: pre.catalog.views.insert(view.view@, view), ..pre.catalog },
            events: pre.events.push(event),
            ..pre
        }),
    }
}

/// What dropping a view does and reports.
pub open spec fn view_dropped(
    pre: ControlPlaneView,
    post: ControlPlaneView,
    view: TableKey,
    r: Result<(), ControlPlaneError>,
) -> bool {
    &&& outcome(r) == (if pre.catalog.views.dom().contains(view) {
        Ok::<(), Fault>(())
    } else {
        Err(Fault::NotFound(dotted(view)))
    })
    &&& post == ControlPlaneView {
        catalog: CatalogView { views: pre.catalog.views.remove(view), ..pre.catalog },
        ..pre
    }
}

/// `schema.name`.
pub open spec fn dotted(k: TableKey) -> Seq<char> {
    k.0 + "."@ + k.1
}

/// `schema.name @ snapshot`.
pub open spec fn dotted_at(k: TableKey, s: int) -> Seq<char> {
    dotted(k) + " @ "@ + int_text(s)
}

fn dotted_text(t: &TableRef) -> (r: String)
    ensures
        r@ == dotted(t@),
{
    concat3(t.schema.as_str(), ".", t.name.as_str())
}

fn dotted_at_text(t: &TableRef, s: i64) -> (r: String)
    ensures
        r@ == dotted_at(t@, s as int),
{
    concat3(dotted_text(t).as_str(), " @ ", i64_text(s).as_str())
}

/// Whether some row is live at snapshot `s`.
fn is_any_live(rows: &Vec<Versioned<()>>, s: i64) -> (r: bool)
    ensures
        r == any_live(rows@, s as int),
{
    let mut i: usize = 0;
    while i < rows.len()
        invariant
            i <= rows@.len(),
            forall|j: int| 0 <= j < i ==> !(#[trigger] rows@[j]).live(s as int),
        decreases rows@.len() - i,
    {
        if rows[i].live_at(s) {
            return true;
        }
        i = i + 1;
    }
    false
}

/// The live rows among the first `i` and the next.
proof fn lemma_live_values_step<T>(rows: Seq<Versioned<T>>, s: int, i: int)
    requires
        0 <= i < rows.len(),
    ensures
        live_values(rows.take(i + 1), s) == (if rows[i].live(s) {
            live_values(rows.take(i), s).push(rows[i].val)
        } else {
            live_values(rows.take(i), s)
        }),
{
    assert(rows.take(i + 1).drop_last() =~= rows.take(i));
}

impl CatalogState {
    /// Where `table` is read, and the columns that a view projects.
    fn resolve_view<'a>(&'a self, table: &'a TableRef) -> (r: (&'a TableRef, Option<&'a Vec<String>>))
        requires
            self.wf(),
        ensures
            r.0@ == self@.base_of(table@),
            r.1 is Some <==> self@.views.dom().contains(table@) && self@.views[table@].columns
                is Some,
            r.1 matches Some(c) ==> *c == self@.views[table@].columns->0,
    {
        match self.views.get(table) {
            Some(v) => (
                &v.base,
                match &v.columns {
                    Some(c) => Some(c),
                    None => None,
                },
            ),
            None => (table, None),
        }
    }

    /// Whether `key` is a table with an open row.
    pub fn is_live_table(&self, key: &TableRef) -> (r: bool)
        requires
            self.wf(),
        ensures
            r == self@.live_table(key@),
    {
        match self.tables.get(key) {
            Some(lives) => {
                assert(self@.tables.dom().contains(key@));
                lives[lives.len() - 1].end.is_none()
            },
            None => false,
        }
    }

    /// Whether `key` is live at snapshot `at`.
    fn is_table_live(&self, key: &TableRef, at: i64) -> (r: bool)
        requires
            self.wf(),
        ensures
            r == self@.table_live(key@, at as int),
    {
        match self.tables.get(key) {
            Some(lives) => is_any_live(lives, at),
            None => false,
        }
    }

    /// The latest snapshot at which `key` is live.
    pub fn latest_live(&self, key: &TableRef) -> (r: Option<i64>)
        requires
            self.wf(),
        ensures
            match r {
                Some(s) => 0 <= s < self@.next() && self@.table_live(key@, s as int) && forall|j: int|
                    s < j < self@.next() ==> !self@.table_live(key@, j),
                None => forall|j: int| 0 <= j < self@.next() ==> !self@.table_live(key@, j),
            },
    {
        match self.tables.get(key) {
            Some(lives) => {
                let mut i: usize = self.snapshots.len();
                while i > 0
                    invariant
                        self.wf(),
                        i <= self.snapshots@.len(),
                        self@.tables.dom().contains(key@),
                        lives@ == self@.tables[key@],
                        forall|j: int| i <= j < self@.next() ==> !self@.table_live(key@, j),
                    decreases i,
                {
                    let s: i64 = self.snapshots[i - 1].id.0;
                    if is_any_live(lives, s) {
                        return Some(s);
                    }
                    i = i - 1;
                }
                None
            },
            None => None,
        }
    }

    /// The columns of `table` that are live at snapshot `at`, in their order.
    pub fn live_columns(&self, table: &TableRef, at: i64) -> (r: Vec<ColumnDef>)
        requires
            self.wf(),
        ensures
            r@ == self@.columns_at(table@, at as int),
    {
        let mut out: Vec<ColumnDef> = Vec::new();
        match self.columns.get(table) {
            Some(rows) => {
                let mut i: usize = 0;
                while i < rows.len()
                    invariant
                        i <= rows@.len(),
                        out@ == live_values(rows@.take(i as int), at as int),
                    decreases rows@.len() - i,
                {
                    proof {
                        lemma_live_values_step(rows@, at as int, i as int);
                    }
                    if rows[i].live_at(at) {
                        out.push(rows[i].val.duplicate());
                    }
                    i = i + 1;
                }
                assert(rows@.take(i as int) =~= rows@);
            },
            None => {},
        }
        out
    }
}

impl MemoryControlPlane {
    /// The latest snapshot at which `table` (or the base of that view) is live.
    pub fn current_snapshot(&self, table: &TableRef) -> (r: Result<Snapshot, ControlPlaneError>)
        requires
            self.wf(),
        ensures
            ({
                let c = self@.catalog;
                let k = c.base_of(table@);
                match r {
                    Ok(sn) => 0 <= sn.id.0 < c.next() && sn == c.snapshots[sn.id.0 as int]
                        && c.table_live(k, sn.id.0 as int) && forall|j: int|
                        sn.id.0 < j < c.next() ==> !c.table_live(k, j),
                    Err(e) => e@ == Fault::NotFound(dotted(k)) && forall|j: int|
                        0 <= j < c.next() ==> !c.table_live(k, j),
                }
            }),
    {
        let (base, _projection): (&TableRef, Option<&Vec<String>>) = self.catalog.resolve_view(table);
        match self.catalog.latest_live(base) {
            Some(s) => {
                let n: usize = self.catalog.snapshots.len();
                assert(s < n);
                Ok(self.catalog.snapshots[s as usize])
            },
            None => Err(ControlPlaneError::NotFound(dotted_text(base))),
        }
    }

    /// The latest snapshot made by `ts` at which `table` is live.
    pub fn snapshot_as_of(&self, table: &TableRef, ts: i128) -> (r: Option<Snapshot>)
        requires
            self.wf(),
        ensures
            self@.catalog.last_as_of(self@.catalog.base_of(table@), ts, r),
    {
        let (base, _projection): (&TableRef, Option<&Vec<String>>) = self.catalog.resolve_view(table);
        let mut i: usize = self.catalog.snapshots.len();
        while i > 0
            invariant
                self.wf(),
                i <= self.catalog.snapshots@.len(),
                base@ == self@.catalog.base_of(table@),
                forall|j: int|
                    i <= j < self@.catalog.next() ==> !(self@.catalog.table_live(base@, j)
                        && #[trigger] self@.catalog.snapshots[j].time <= ts),
            decreases i,
        {
            let sn: Snapshot = self.catalog.snapshots[i - 1];
            if sn.time <= ts && self.catalog.is_table_live(base, sn.id.0) {
                return Some(sn);
            }
            i = i - 1;
        }
        None
    }

    /// Snapshot `id`, where `table` is live at it.
    pub fn snapshot(&self, table: &TableRef, id: SnapshotId) -> (r: Option<Snapshot>)
        requires
            self.wf(),
        ensures
            ({
                let c = self@.catalog;
                let there = 0 <= id.0 < c.next() && c.table_live(c.base_of(table@), id.0 as int);
                &&& r is Some <==> there
                &&& r matches Some(sn) ==> sn == c.snapshots[id.0 as int]
            }),
    {
        let (base, _projection): (&TableRef, Option<&Vec<String>>) = self.catalog.resolve_view(table);
        if id.0 >= 0 && id.0 < self.catalog.next_snapshot && self.catalog.is_table_live(base, id.0) {
            let n: usize = self.catalog.snapshots.len();
            assert(id.0 < n);
            Some(self.catalog.snapshots[id.0 as usize])
        } else {
            None
        }
    }

    /// The latest snapshot made before `cutoff`.
    pub fn snapshot_horizon(&self, cutoff: i128) -> (r: Option<SnapshotId>)
        requires
            self.wf(),
        ensures
            self@.catalog.last_before(cutoff, r),
    {
        let mut i: usize = self.catalog.snapshots.len();
        while i > 0
            invariant
                self.wf(),
                i <= self.catalog.snapshots@.len(),
                forall|j: int|
                    i <= j < self@.catalog.next() ==> #[trigger] self@.catalog.snapshots[j].time
                        >= cutoff,
            decreases i,
        {
            if self.catalog.snapshots[i - 1].time < cutoff {
                return Some(self.catalog.snapshots[i - 1].id);
            }
            i = i - 1;
        }
        None
    }

    /// Whether no file that `table` shows at `at` may be reclaimed up to `horizon`.
    pub fn snapshot_intact(&self, table: &TableRef, at: SnapshotId, horizon: SnapshotId) -> (r: Result<
        bool,
        ControlPlaneError,
    >)
        requires
            self.wf(),
        ensures
            ({
                let c = self@.catalog;
                let k = c.base_of(table@);
                outcome(r) == (if c.table_live(k, at.0 as int) {
                    Ok::<bool, Fault>(!c.reclaimable(k, at.0 as int, horizon.0 as int))
                } else {
                    Err(Fault::NotFound(dotted_at(k, at.0 as int)))
                })
            }),
    {
        let (base, _projection): (&TableRef, Option<&Vec<String>>) = self.catalog.resolve_view(table);
        if !self.catalog.is_table_live(base, at.0) {
            return Err(ControlPlaneError::NotFound(dotted_at_text(base, at.0)));
        }
        match self.catalog.files.get(base) {
            Some(rows) => {
                let mut i: usize = 0;
                while i < rows.len()
                    invariant
                        i <= rows@.len(),
                        rows@ == rows_of(self@.catalog.files, base@),
                        base@ == self@.catalog.base_of(table@),
                        self@.catalog.table_live(base@, at.0 as int),
                        forall|j: int|
                            0 <= j < i ==> !((#[trigger] rows@[j]).live(at.0 as int) && (
                            rows@[j].end matches Some(e) && e <= horizon.0)),
                    decreases rows@.len() - i,
                {
                    let ended: bool = match rows[i].end {
                        Some(e) => e <= horizon.0,
                        None => false,
                    };
                    if ended && rows[i].live_at(at.0) {
                        assert(rows_of(self@.catalog.files, base@)[i as int].live(at.0 as int));
                        return Ok(false);
                    }
                    i = i + 1;
                }
                Ok(true)
            },
            None => Ok(true),
        }
    }

    /// The snapshots at which `table` is live, in order.
    pub fn snapshots(&self, table: &TableRef) -> (r: Result<Vec<Snapshot>, ControlPlaneError>)
        requires
            self.wf(),
        ensures
            ({
                let c = self@.catalog;
                let k = c.base_of(table@);
                match r {
                    Ok(list) => c.tables.dom().contains(k) && list@ == live_snapshots(
                        c.snapshots,
                        c.tables[k],
                    ),
                    Err(e) => !c.tables.dom().contains(k) && e@ == Fault::NotFound(dotted(k)),
                }
            }),
    {
        let (base, _projection): (&TableRef, Option<&Vec<String>>) = self.catalog.resolve_view(table);
        match self.catalog.tables.get(base) {
            Some(lives) => {
                let mut out: Vec<Snapshot> = Vec::new();
                let mut i: usize = 0;
                while i < self.catalog.snapshots.len()
                    invariant
                        self.wf(),
                        i <= self.catalog.snapshots@.len(),
                        out@ == live_snapshots(self.catalog.snapshots@.take(i as int), lives@),
                    decreases self.catalog.snapshots@.len() - i,
                {
                    let ghost head = self.catalog.snapshots@.take(i + 1);
                    assert(head.drop_last() =~= self.catalog.snapshots@.take(i as int));
                    let sn: Snapshot = self.catalog.snapshots[i];
                    if is_any_live(lives, sn.id.0) {
                        out.push(sn);
                    }
                    i = i + 1;
                }
                assert(self.catalog.snapshots@.take(i as int) =~= self.catalog.snapshots@);
                Ok(out)
            },
            None => Err(ControlPlaneError::NotFound(dotted_text(base))),
        }
    }

    /// The files of `table` at snapshot `at`, in the order they were added.
    pub fn files(&self, table: &TableRef, at: SnapshotId) -> (r: Result<
        Vec<FileRef>,
        ControlPlaneError,
    >)
        requires
            self.wf(),
        ensures
            ({
                let c = self@.catalog;
                let k = c.base_of(table@);
                match r {
                    Ok(list) => c.table_live(k, at.0 as int) && list@ == c.files_at(k, at.0 as int),
                    Err(e) => !c.table_live(k, at.0 as int) && e@ == Fault::NotFound(
                        dotted_at(k, at.0 as int),
                    ),
                }
            }),
    {
        let (base, _projection): (&TableRef, Option<&Vec<String>>) = self.catalog.resolve_view(table);
        if !self.catalog.is_table_live(base, at.0) {
            return Err(ControlPlaneError::NotFound(dotted_at_text(base, at.0)));
        }
        let mut out: Vec<FileRef> = Vec::new();
        match self.catalog.files.get(base) {
            Some(rows) => {
                let mut i: usize = 0;
                while i < rows.len()
                    invariant
                        i <= rows@.len(),
                        out@ == live_values(rows@.take(i as int), at.0 as int),
                    decreases rows@.len() - i,
                {
                    proof {
                        lemma_live_values_step(rows@, at.0 as int, i as int);
                    }
                    if rows[i].live_at(at.0) {
                        out.push(rows[i].val.duplicate());
                    }
                    i = i + 1;
                }
                assert(rows@.take(i as int) =~= rows@);
            },
            None => {},
        }
        Ok(out)
    }

    /// The columns that `table` shows at snapshot `at`, in their order.
    pub fn schema(&self, table: &TableRef, at: SnapshotId) -> (r: Result<
        Vec<ColumnDef>,
        ControlPlaneError,
    >)
        requires
            self.wf(),
        ensures
            ({
                let c = self@.catalog;
                let k = c.base_of(table@);
                match r {
                    Ok(cols) => c.table_live(k, at.0 as int) && cols@ == c.schema_at(
                        table@,
                        at.0 as int,
                    ),
                    Err(e) => !c.table_live(k, at.0 as int) && e@ == Fault::NotFound(
                        dotted_at(k, at.0 as int),
                    ),
                }
            }),
    {
        let (base, projection): (&TableRef, Option<&Vec<String>>) = self.catalog.resolve_view(table);
        if !self.catalog.is_table_live(base, at.0) {
            return Err(ControlPlaneError::NotFound(dotted_at_text(base, at.0)));
        }
        let cols: Vec<ColumnDef> = self.catalog.live_columns(base, at.0);
        match projection {
            None => Ok(cols),
            Some(keep) => {
                let mut out: Vec<ColumnDef> = Vec::new();
                let mut i: usize = 0;
                while i < cols.len()
                    invariant
                        i <= cols@.len(),
                        out@ == projected(cols@.take(i as int), keep@),
                    decreases cols@.len() - i,
                {
                    assert(cols@.take(i + 1).drop_last() =~= cols@.take(i as int));
                    if contains_text(keep, cols[i].name.as_str()) {
                        out.push(cols[i].duplicate());
                    }
                    i = i + 1;
                }
                assert(cols@.take(i as int) =~= cols@);
                Ok(out)
            },
        }
    }
}

/// The snapshots among `all` at which a table with the rows `lives` is live.
pub open spec fn live_snapshots(all: Seq<Snapshot>, lives: Seq<Versioned<()>>) -> Seq<Snapshot>
    decreases all.len(),
{
    if all.len() == 0 {
        Seq::empty()
    } else if any_live(lives, all.last().id.0 as int) {
        live_snapshots(all.drop_last(), lives).push(all.last())
    } else {
        live_snapshots(all.drop_last(), lives)
    }
}


/// The keys of `list` are strictly increasing, so none occurs twice.
pub open spec fn keys_sorted(list: Seq<TableKey>) -> bool {
    forall|i: int, j: int|
        0 <= i < j < list.len() ==> crate::types::pair_before(#[trigger] list[i], #[trigger] list[j])
}

impl MemoryControlPlane {
    /// The tables with an open row, in order of schema and name.
    pub fn list_tables(&self) -> (r: Vec<TableRef>)
        requires
            self.wf(),
        ensures
            tables_listed(self@.catalog, r@),
    {
        let entries: &Vec<(TableRef, Vec<Versioned<()>>)> = &self.catalog.tables.entries;
        let mut out: Vec<TableRef> = Vec::new();
        let ghost mut at: Seq<int> = Seq::empty();
        let mut i: usize = 0;
        while i < entries.len()
            invariant
                self.wf(),
                *entries == self.catalog.tables.entries,
                i <= entries@.len(),
                at.len() == out@.len(),
                forall|a: int|
                    0 <= a < at.len() ==> 0 <= #[trigger] at[a] < i && out@[a]@ == entries@[at[a]].0@
                        && entries@[at[a]].1@.last().end is None,
                forall|a: int, b: int| 0 <= a < b < at.len() ==> #[trigger] at[a] < #[trigger] at[b],
                forall|e: int|
                    0 <= e < i && (#[trigger] entries@[e]).1@.last().end is None ==> exists|a: int|
                        0 <= a < at.len() && #[trigger] at[a] == e,
            decreases entries@.len() - i,
        {
            let ghost before = at;
            proof {
                lemma_entry(entries@, i as int);
                assert(self@.catalog.tables.dom().contains(entries@[i as int].0@));
            }
            let lives: &Vec<Versioned<()>> = &entries[i].1;
            if lives[lives.len() - 1].end.is_none() {
                out.push(entries[i].0.duplicate());
                proof {
                    at = at.push(i as int);
                    assert(at[at.len() - 1] == i);
                }
            }
            proof {
                assert forall|e: int| 0 <= e < i + 1 && (#[trigger] entries@[e]).1@.last().end is None implies exists|
                    a: int,
                | 0 <= a < at.len() && #[trigger] at[a] == e by {
                    if e < i {
                        let a = choose|a: int| 0 <= a < before.len() && #[trigger] before[a] == e;
                        assert(at[a] == e);
                    }
                }
            }
            i = i + 1;
        }
        proof {
            let list = Seq::new(out@.len(), |i: int| out@[i]@);
            assert forall|a: int, b: int| 0 <= a < b < list.len() implies crate::types::pair_before(
                #[trigger] list[a],
                #[trigger] list[b],
            ) by {
                assert(at[a] < at[b]);
                assert(TableRef::before(
                    entries@[at[a]].0.model(),
                    entries@[at[b]].0.model(),
                ));
            }
            assert forall|k: TableKey| #[trigger] self@.catalog.live_table(k) implies exists|i: int|
                0 <= i < out@.len() && #[trigger] out@[i]@ == k by {
                lemma_position(entries@, k);
                let p = position_of(entries@, k);
                let a = choose|a: int| 0 <= a < at.len() && #[trigger] at[a] == p;
                assert(out@[a]@ == k);
            }
            assert forall|k: TableKey|
                (exists|i: int| 0 <= i < out@.len() && #[trigger] out@[i]@ == k) implies #[trigger] self@.catalog.live_table(
                k,
            ) by {
                let a = choose|i: int| 0 <= i < out@.len() && #[trigger] out@[i]@ == k;
                lemma_entry(entries@, at[a]);
            }
        }
        out
    }

    /// Defines a view, `shape` being the verdict on its columns against the base
    /// schema, and records `event`.
    pub fn define_view(&mut self, view: ViewDef, shape: Result<(), String>, event: LineageEvent) -> (r:
        Result<(), ControlPlaneError>)
        requires
            old(self).wf(),
        ensures
            final(self).wf(),
            r is Err ==> *final(self) == *old(self),
            view_defined(old(self)@, final(self)@, view, shape, event, r),
    {
        if self.catalog.views.contains(&view.view) {
            return Err(
                ControlPlaneError::Conflict(
                    concat5(
                        "view ",
                        view.view.schema.as_str(),
                        ".",
                        view.view.name.as_str(),
                        " already exists",
                    ),
                ),
            );
        }
        if self.catalog.is_live_table(&view.view) {
            return Err(
                ControlPlaneError::Conflict(
                    concat(dotted_text(&view.view).as_str(), " is a physical table"),
                ),
            );
        }
        if self.catalog.views.contains(&view.base) {
            return Err(
                ControlPlaneError::Validation("view-over-view is not supported".to_owned()),
            );
        }
        if !self.catalog.is_live_table(&view.base) {
            return Err(ControlPlaneError::NotFound(dotted_text(&view.base)));
        }
        match shape {
            Err(m) => {
                return Err(ControlPlaneError::Validation(m));
            },
            Ok(_) => {},
        }
        self.catalog.views.insert(view.view.duplicate(), view);
        self.events.push(event);
        assert(self@ =~= ControlPlaneView {
            catalog: CatalogView {
                views: old(self)@.catalog.views.insert(view.view@, view),
                ..old(self)@.catalog
            },
            events: old(self)@.events.push(event),
            ..old(self)@
        });
        Ok(())
    }

    /// The columns of the base of `view` that its projection is checked against:
    /// those at the latest snapshot at which the base is live.
    pub fn view_base_columns(&self, view: &ViewDef) -> (r: Option<Vec<ColumnDef>>)
        requires
            self.wf(),
        ensures
            match r {
                Some(cols) => exists|s: int|
                    0 <= s < self@.catalog.next() && self@.catalog.table_live(view.base@, s) && (
                    forall|j: int|
                        s < j < self@.catalog.next() ==> !self@.catalog.table_live(view.base@, j))
                        && cols@ == #[trigger] self@.catalog.columns_at(view.base@, s),
                None => forall|j: int|
                    0 <= j < self@.catalog.next() ==> !self@.catalog.table_live(view.base@, j),
            },
    {
        match self.catalog.latest_live(&view.base) {
            Some(s) => {
                let cols: Vec<ColumnDef> = self.catalog.live_columns(&view.base, s);
                assert(cols@ == self@.catalog.columns_at(view.base@, s as int));
                Some(cols)
            },
            None => None,
        }
    }

    /// Drops a view.
    pub fn drop_view(&mut self, view: &TableRef) -> (r: Result<(), ControlPlaneError>)
        requires
            old(self).wf(),
        ensures
            final(self).wf(),
            view_dropped(old(self)@, final(self)@, view@, r),
    {
        let removed: Option<ViewDef> = self.catalog.views.remove(view);
        assert(self@ =~= ControlPlaneView {
            catalog: CatalogView {
                views: old(self)@.catalog.views.remove(view@),
                ..old(self)@.catalog
            },
            ..old(self)@
        });
        match removed {
            Some(_) => Ok(()),
            None => Err(ControlPlaneError::NotFound(dotted_text(view))),
        }
    }

    /// The definition of a view.
    pub fn get_view(&self, view: &TableRef) -> (r: Option<&ViewDef>)
        requires
            self.wf(),
        ensures
            r is Some <==> self@.catalog.views.dom().contains(view@),
            r matches Some(v) ==> *v == self@.catalog.views[view@],
    {
        self.catalog.views.get(view)
    }

    /// The views, in order of schema and name.
    pub fn list_views(&self) -> (r: Vec<&ViewDef>)
        requires
            self.wf(),
        ensures
            r@.len() == self.catalog.views.entries@.len(),
            forall|i: int| 0 <= i < r@.len() ==> *(#[trigger] r@[i]) == self.catalog.views.entries@[i].1,
            crate::ordered::sorted_entries(self.catalog.views.entries@),
            crate::ordered::entries_map(self.catalog.views.entries@) == self@.catalog.views,
    {
        crate::ordered::values_of(&self.catalog.views)
    }

    /// Creates `table` with `columns` where the catalog does not know it, then adds
    /// one file per entry of `batches`, of that many rows, each at a snapshot of
    /// its own, all at `now`. Gives the snapshots of the files.
    pub fn seed_catalog_at(
        &mut self,
        table: &TableRef,
        columns: &Vec<ColumnSpec>,
        batches: &Vec<usize>,
        now: i128,
    ) -> (r: Vec<SnapshotId>)
        requires
            old(self).wf(),
            seed_fits(old(self)@.catalog, columns@, batches@),
        ensures
            final(self).wf(),
            seeded(old(self)@, final(self)@, table@, columns@, batches@, r@, now),
    {
        let ghost start = self@;
        if !self.catalog.tables.contains(table) {
            let _s: i64 = self.catalog.create(table, columns, now);
        }
        let ghost mid = self.catalog@;
        let ghost mut files: Seq<FileRef> = Seq::empty();
        let mut out: Vec<SnapshotId> = Vec::new();
        let mut i: usize = 0;
        while i < batches.len()
            invariant
                self.wf(),
                i <= batches@.len(),
                mid.next() + batches@.len() <= i64::MAX,
                forall|j: int| 0 <= j < batches@.len() ==> #[trigger] batches@[j] * 16 <= i64::MAX,
                files.len() == i,
                forall|j: int|
                    0 <= j < i ==> is_seed_file(#[trigger] files[j], table@.1, j, batches@[j] as int),
                self@ == (ControlPlaneView { catalog: files_added(mid, table@, files, now), ..start }),
                self.catalog@.next() == mid.next() + i,
                out@.len() == i,
                forall|j: int| 0 <= j < i ==> (#[trigger] out@[j]).0 == mid.next() + j,
            decreases batches@.len() - i,
        {
            let n: usize = batches[i];
            assert(batches@[i as int] * 16 <= i64::MAX);
            let mut path: String = concat3("data/", table.name.as_str(), "_");
            path.append(usize_text(i).as_str());
            path.append(".parquet");
            let file = FileRef { path, record_count: n as i64, file_size_bytes: (n as i64) * 16 };
            assert(is_seed_file(file, table@.1, i as int, n as int));
            let ghost before = files;
            proof {
                files = files.push(file);
                assert(files.drop_last() =~= before);
            }
            let s: i64 = self.catalog.append_file(table, file, now);
            assert(self@ =~= ControlPlaneView {
                catalog: files_added(mid, table@, files, now),
                ..start
            });
            out.push(SnapshotId(s));
            i = i + 1;
        }
        out
    }

    /// Seeds the catalog at the present instant.
    pub fn seed_catalog(
        &mut self,
        table: &TableRef,
        columns: &Vec<ColumnSpec>,
        batches: &Vec<usize>,
    ) -> (r: Vec<SnapshotId>)
        requires
            old(self).wf(),
            seed_fits(old(self)@.catalog, columns@, batches@),
        ensures
            final(self).wf(),
            exists|now: i128|
                ambient::in_calendar(now as int) && #[trigger] seeded(
                    old(self)@,
                    final(self)@,
                    table@,
                    columns@,
                    batches@,
                    r@,
                    now,
                ),
    {
        let now: i128 = ambient::now();
        self.seed_catalog_at(table, columns, batches, now)
    }

    /// Drops `table`, its open columns and its open files at a snapshot of their
    /// own, made at `now`.
    pub fn drop_table_catalog_at(&mut self, table: &TableRef, now: i128) -> (r: SnapshotId)
        requires
            old(self).wf(),
            old(self)@.catalog.next() < i64::MAX,
        ensures
            final(self).wf(),
            r.0 == old(self)@.catalog.next(),
            final(self)@ == (ControlPlaneView {
                catalog: old(self)@.catalog.dropped(table@, now),
                ..old(self)@
            }),
    {
        let d: i64 = self.catalog.drop_table(table, now);
        assert(self@ =~= ControlPlaneView {
            catalog: old(self)@.catalog.dropped(table@, now),
            ..old(self)@
        });
        SnapshotId(d)
    }

    /// Drops `table` at the present instant.
    pub fn drop_table_catalog(&mut self, table: &TableRef) -> (r: SnapshotId)
        requires
            old(self).wf(),
            old(self)@.catalog.next() < i64::MAX,
        ensures
            final(self).wf(),
            r.0 == old(self)@.catalog.next(),
            exists|now: i128|
                ambient::in_calendar(now as int) && final(self)@ == (ControlPlaneView {
                    catalog: #[trigger] old(self)@.catalog.dropped(table@, now),
                    ..old(self)@
                }),
    {
        let now: i128 = ambient::now();
        self.drop_table_catalog_at(table, now)
    }
}

/// The path of the `i`-th file that seeding gives the table `name`.
pub open spec fn seed_path(name: Seq<char>, i: int) -> Seq<char> {
    "data/"@ + name + "_"@ + int_text(i) + ".parquet"@
}

/// The tables that live now, by schema and name.
pub open spec fn tables_listed(c: CatalogView, list: Seq<TableRef>) -> bool {
    &&& keys_sorted(Seq::new(list.len(), |i: int| list[i]@))
    &&& forall|k: TableKey| #[trigger]
        c.live_table(k) <==> exists|i: int| 0 <= i < list.len() && #[trigger] list[i]@ == k
}

/// `f` is the `i`-th file that seeding gives the table `name`, with `n` rows.
pub open spec fn is_seed_file(f: FileRef, name: Seq<char>, i: int, n: int) -> bool {
    f.path@ == seed_path(name, i) && f.record_count == n && f.file_size_bytes == 16 * n
}

/// `files` are added to `k`, each at a snapshot of its own.
pub open spec fn files_added(v: CatalogView, k: TableKey, files: Seq<FileRef>, now: i128) -> CatalogView
    decreases files.len(),
{
    if files.len() == 0 {
        v
    } else {
        files_added(v, k, files.drop_last(), now).file_added(k, files.last(), now)
    }
}

/// The snapshots that seeding makes, the columns' places and the files' sizes
/// fit their numbers.
pub open spec fn seed_fits(v: CatalogView, columns: Seq<ColumnSpec>, batches: Seq<usize>) -> bool {
    &&& v.next() + 1 + batches.len() <= i64::MAX
    &&& columns.len() <= i64::MAX
    &&& forall|i: int| 0 <= i < batches.len() ==> #[trigger] batches[i] * 16 <= i64::MAX
}

/// The catalog before the files of a seed: with the table, created where it was
/// not known.
pub open spec fn seed_base(
    v: CatalogView,
    k: TableKey,
    columns: Seq<ColumnSpec>,
    now: i128,
) -> CatalogView {
    if v.tables.dom().contains(k) {
        v
    } else {
        v.created(k, columns, now)
    }
}

/// `post` is `pre` seeded at `now`, and `made` are the snapshots of the files.
pub open spec fn seeded(
    pre: ControlPlaneView,
    post: ControlPlaneView,
    k: TableKey,
    columns: Seq<ColumnSpec>,
    batches: Seq<usize>,
    made: Seq<SnapshotId>,
    now: i128,
) -> bool {
    let base = seed_base(pre.catalog, k, columns, now);
    &&& made.len() == batches.len()
    &&& forall|i: int| 0 <= i < made.len() ==> (#[trigger] made[i]).0 == base.next() + i
    &&& exists|files: Seq<FileRef>|
        {
            &&& files.len() == batches.len()
            &&& forall|i: int|
                0 <= i < files.len() ==> is_seed_file(#[trigger] files[i], k.1, i, batches[i] as int)
            &&& post == ControlPlaneView {
                catalog: #[trigger] files_added(base, k, files, now),
                ..pre
            }
        }
}

} // verus!
