//! How far the materialized views that read a stream have come, and what may
//! therefore be retired from it.
use crate::error::{ControlPlaneError, Fault};
use crate::iceberg_inline::{inline_name, inline_table_name};
use crate::ordered::{lemma_entry, lemma_position, position_of, OrderedMap, OrderedSet};
use crate::text::{concat3, concat5, i64_text, int_text, join, joined, texts};
use crate::types::TableRef;
use crate::words::{debug_of, debug_text};
use vstd::prelude::*;
use vstd::string::StringExecFns;

verus! {

/// Below which offset each bucket of a stream may lose rows, and which view holds
/// it there.
pub struct MvFloor {
    pub per_bucket: OrderedMap<i32, i64>,
    pub slowest: OrderedMap<i32, String>,
}

/// The clause that selects the rows of a bucket below its floor.
pub open spec fn clause_text(bucket: i32, offset: i64) -> Seq<char> {
    "(loom_bucket = "@ + int_text(bucket as int) + " and loom_offset < "@ + int_text(offset as int)
        + ")"@
}

/// The clauses of the buckets whose floor is above zero.
pub open spec fn floor_clauses(entries: Seq<(i32, i64)>) -> Seq<Seq<char>>
    decreases entries.len(),
{
    if entries.len() == 0 {
        Seq::empty()
    } else if entries.last().1 > 0 {
        floor_clauses(entries.drop_last()).push(clause_text(entries.last().0, entries.last().1))
    } else {
        floor_clauses(entries.drop_last())
    }
}

/// The predicate that selects the rows below the floor.
pub open spec fn floor_pred(entries: Seq<(i32, i64)>) -> Seq<char> {
    if floor_clauses(entries).len() == 0 {
        "false"@
    } else {
        "("@ + joined(floor_clauses(entries), " or "@) + ")"@
    }
}

/// What a clause says of a row with this bucket and offset, where it has them.
pub open spec fn clause_selects(bucket: i32, offset: i64, place: Option<(int, int)>) -> bool {
    place matches Some(p) && p.0 == bucket && p.1 < offset
}

/// What the predicate says of a row: one of its clauses selects it.
pub open spec fn pred_selects(entries: Seq<(i32, i64)>, place: Option<(int, int)>) -> bool {
    exists|i: int|
        0 <= i < entries.len() && (#[trigger] entries[i]).1 > 0 && clause_selects(
            entries[i].0,
            entries[i].1,
            place,
        )
}

/// The text of the predicate has one clause for each that says something of a row, and
/// no other, so that a row without a place is selected by none.
pub proof fn law_clauses_are_those_that_select(entries: Seq<(i32, i64)>)
    ensures
        forall|i: int|
            0 <= i < entries.len() && (#[trigger] entries[i]).1 > 0 ==> floor_clauses(
                entries,
            ).contains(clause_text(entries[i].0, entries[i].1)),
        forall|c: Seq<char>| #[trigger]
            floor_clauses(entries).contains(c) ==> exists|i: int|
                0 <= i < entries.len() && (#[trigger] entries[i]).1 > 0 && c == clause_text(
                    entries[i].0,
                    entries[i].1,
                ),
        !pred_selects(entries, None),
    decreases entries.len(),
{
    if entries.len() > 0 {
        let before = entries.drop_last();
        let last = entries.len() - 1;
        law_clauses_are_those_that_select(before);
        let clauses = floor_clauses(entries);
        assert forall|i: int| 0 <= i < entries.len() && (#[trigger] entries[i]).1 > 0 implies clauses.contains(
            clause_text(entries[i].0, entries[i].1),
        ) by {
            if i < last {
                assert(before[i] == entries[i]);
                let c = clause_text(before[i].0, before[i].1);
                assert(floor_clauses(before).contains(c));
                let k = choose|k: int|
                    0 <= k < floor_clauses(before).len() && floor_clauses(before)[k] == c;
                assert(clauses[k] == c);
            } else {
                assert(clauses[clauses.len() - 1] == clause_text(entries[i].0, entries[i].1));
            }
        }
        assert forall|c: Seq<char>| #[trigger] clauses.contains(c) implies exists|i: int|
            0 <= i < entries.len() && (#[trigger] entries[i]).1 > 0 && c == clause_text(
                entries[i].0,
                entries[i].1,
            ) by {
            let k = choose|k: int| 0 <= k < clauses.len() && clauses[k] == c;
            if k < floor_clauses(before).len() {
                assert(floor_clauses(before)[k] == c);
                assert(floor_clauses(before).contains(c));
                let i = choose|i: int|
                    0 <= i < before.len() && (#[trigger] before[i]).1 > 0 && c == clause_text(
                        before[i].0,
                        before[i].1,
                    );
                assert(entries[i] == before[i]);
            } else {
                assert(entries[last].1 > 0);
            }
        }
    }
}

/// The predicate selects only rows below the floor, and all of them whose offsets are
/// not negative.
pub proof fn law_pred_selects_below_floor(f: MvFloor, bucket: int, offset: int)
    requires
        f.wf(),
    ensures
        pred_selects(f.per_bucket.entries@, Some((bucket, offset))) ==> f.below(bucket, offset),
        0 <= offset && f.below(bucket, offset) ==> pred_selects(
            f.per_bucket.entries@,
            Some((bucket, offset)),
        ),
{
    let entries = f.per_bucket.entries@;
    if pred_selects(entries, Some((bucket, offset))) {
        let i = choose|i: int|
            0 <= i < entries.len() && (#[trigger] entries[i]).1 > 0 && clause_selects(
                entries[i].0,
                entries[i].1,
                Some((bucket, offset)),
            );
        lemma_entry(entries, i);
    }
    if 0 <= offset && f.below(bucket, offset) {
        lemma_position(entries, bucket);
        let i = position_of(entries, bucket);
        assert(entries[i].1 > 0);
    }
}

/// `m` is the smallest value of the map, or zero where it has none.
pub open spec fn is_least(m: Map<int, i64>, least: int) -> bool {
    if exists|b: int| m.dom().contains(b) {
        &&& exists|b: int| #[trigger] m.dom().contains(b) && m[b] == least
        &&& forall|b: int| #[trigger] m.dom().contains(b) ==> least <= m[b]
    } else {
        least == 0
    }
}

impl MvFloor {
    pub open spec fn wf(&self) -> bool {
        self.per_bucket.wf() && self.slowest.wf()
    }

    /// A row with this bucket and offset is below the floor.
    pub open spec fn below(&self, bucket: int, offset: int) -> bool {
        self.per_bucket@.dom().contains(bucket) && offset < self.per_bucket@[bucket]
    }

    /// The bound for whole files, whose offsets are not told apart by bucket: the
    /// smallest floor. Without buckets it is zero, which keeps every file.
    pub fn min_offset(&self) -> (r: i64)
        requires
            self.wf(),
        ensures
            is_least(self.per_bucket@, r as int),
    {
        let entries: &Vec<(i32, i64)> = &self.per_bucket.entries;
        if entries.len() == 0 {
            proof {
                assert forall|b: int| !(#[trigger] self.per_bucket@.dom().contains(b)) by {
                    if self.per_bucket@.dom().contains(b) {
                        lemma_position(entries@, b);
                    }
                }
            }
            return 0;
        }
        let mut least: i64 = entries[0].1;
        let ghost mut at: int = 0;
        let mut i: usize = 1;
        while i < entries.len()
            invariant
                1 <= i <= entries@.len(),
                0 <= at < i,
                entries@[at].1 == least,
                forall|j: int| 0 <= j < i ==> least <= (#[trigger] entries@[j]).1,
            decreases entries@.len() - i,
        {
            if entries[i].1 < least {
                least = entries[i].1;
                proof {
                    at = i as int;
                }
            }
            i = i + 1;
        }
        proof {
            lemma_entry(entries@, at);
            let b = entries@[at].0 as int;
            assert(self.per_bucket@.dom().contains(b) && self.per_bucket@[b] == least);
            assert forall|b: int| #[trigger] self.per_bucket@.dom().contains(b) implies least
                <= self.per_bucket@[b] by {
                lemma_position(entries@, b);
            }
        }
        least
    }

    /// The predicate that selects the inline rows below the floor, bucket by bucket.
    /// A bucket at zero has none.
    pub fn below_floor_pred(&self) -> (r: String)
        requires
            self.wf(),
        ensures
            r@ == floor_pred(self.per_bucket.entries@),
    {
        let entries: &Vec<(i32, i64)> = &self.per_bucket.entries;
        let mut clauses: Vec<String> = Vec::new();
        assert(texts(clauses@) =~= Seq::empty());
        let mut i: usize = 0;
        while i < entries.len()
            invariant
                i <= entries@.len(),
                texts(clauses@) == floor_clauses(entries@.take(i as int)),
            decreases entries@.len() - i,
        {
            assert(entries@.take(i + 1).drop_last() =~= entries@.take(i as int));
            let ghost before = clauses@;
            if entries[i].1 > 0 {
                clauses.push(
                    concat5(
                        "(loom_bucket = ",
                        i64_text(entries[i].0 as i64).as_str(),
                        " and loom_offset < ",
                        i64_text(entries[i].1).as_str(),
                        ")",
                    ),
                );
                assert(texts(clauses@) =~= texts(before).push(
                    clause_text(entries@[i as int].0, entries@[i as int].1),
                ));
            }
            i = i + 1;
        }
        assert(entries@.take(i as int) =~= entries@);
        assert(texts(clauses@).len() == clauses@.len());
        if clauses.len() == 0 {
            "false".to_owned()
        } else {
            concat3("(", join(&clauses, " or ").as_str(), ")")
        }
    }
}

/// How far a view has come in a bucket: zero where nothing is recorded.
pub open spec fn position(marks: Map<(Seq<char>, int), i64>, mv: Seq<char>, bucket: int) -> int {
    if marks.dom().contains((mv, bucket)) {
        marks[(mv, bucket)] as int
    } else {
        0
    }
}

/// `who` is the first reader, in the order of `readers`, of those that have come
/// least far in the bucket, and `floor` is how far it has come.
pub open spec fn holds_floor(
    readers: Seq<(String, ())>,
    marks: Map<(Seq<char>, int), i64>,
    bucket: int,
    floor: int,
    who: Seq<char>,
) -> bool {
    exists|i: int|
        0 <= i < readers.len() && (#[trigger] readers[i]).0@ == who && position(marks, who, bucket)
            == floor && (forall|j: int|
            0 <= j < readers.len() ==> floor <= position(marks, (#[trigger] readers[j]).0@, bucket))
            && (forall|j: int|
            0 <= j < i ==> floor < position(marks, (#[trigger] readers[j]).0@, bucket))
}

/// The place of the slowest reader of a bucket, and how far it has come.
fn slowest_in(readers: &Vec<(String, ())>, marks: &OrderedMap<(String, i32), i64>, bucket: i32) -> (r: (
    usize,
    i64,
))
    requires
        readers@.len() > 0,
        marks.wf(),
    ensures
        r.0 < readers@.len(),
        holds_floor(readers@, marks@, bucket as int, r.1 as int, readers@[r.0 as int].0@),
{
    let mut who: usize = 0;
    let mut floor: i64 = mark_of(marks, &readers[0].0, bucket);
    let mut i: usize = 1;
    while i < readers.len()
        invariant
            marks.wf(),
            1 <= i <= readers@.len(),
            who < i,
            floor == position(marks@, readers@[who as int].0@, bucket as int),
            forall|j: int|
                0 <= j < i ==> floor <= position(marks@, (#[trigger] readers@[j]).0@, bucket as int),
            forall|j: int|
                0 <= j < who ==> floor < position(marks@, (#[trigger] readers@[j]).0@, bucket as int),
        decreases readers@.len() - i,
    {
        let next: i64 = mark_of(marks, &readers[i].0, bucket);
        if next < floor {
            floor = next;
            who = i;
        }
        i = i + 1;
    }
    assert(readers@[who as int].0@ == readers@[who as int].0@);
    (who, floor)
}

fn mark_of(marks: &OrderedMap<(String, i32), i64>, mv: &String, bucket: i32) -> (r: i64)
    requires
        marks.wf(),
    ensures
        r == position(marks@, mv@, bucket as int),
{
    match marks.get(&(mv.clone(), bucket)) {
        Some(n) => *n,
        None => 0,
    }
}

/// The floor that the readers' positions set for a stream of so many buckets.
/// Something that is no stream, or that nobody reads, has none.
pub open spec fn is_mv_floor(
    f: Option<MvFloor>,
    bucket_count: Option<i32>,
    readers: Seq<(String, ())>,
    marks: Map<(Seq<char>, int), i64>,
) -> bool {
    match f {
        None => bucket_count is None || readers.len() == 0,
        Some(floor) => {
            &&& bucket_count is Some
            &&& readers.len() > 0
            &&& floor.wf()
            &&& forall|b: int| #[trigger]
                floor.per_bucket@.dom().contains(b) <==> 0 <= b < bucket_count->0
            &&& forall|b: int| #[trigger]
                floor.slowest@.dom().contains(b) <==> 0 <= b < bucket_count->0
            &&& forall|b: int|
                0 <= b < bucket_count->0 ==> holds_floor(
                    readers,
                    marks,
                    b,
                    #[trigger] floor.per_bucket@[b] as int,
                    floor.slowest@[b]@,
                )
        },
    }
}

/// The floor of a stream of so many buckets: in each bucket the position of the
/// reader that has come least far, the first by name among equals. Something that
/// is no stream, or that nobody reads, has none.
pub fn mv_floor(
    bucket_count: Option<i32>,
    readers: &OrderedSet<String>,
    marks: &OrderedMap<(String, i32), i64>,
) -> (r: Option<MvFloor>)
    requires
        readers.wf(),
        marks.wf(),
    ensures
        is_mv_floor(r, bucket_count, readers.map.entries@, marks@),
{
    let count: i32 = match bucket_count {
        Some(n) => n,
        None => {
            return None;
        },
    };
    let list: &Vec<(String, ())> = &readers.map.entries;
    if list.len() == 0 {
        return None;
    }
    let mut per_bucket: OrderedMap<i32, i64> = OrderedMap::new();
    let mut slowest: OrderedMap<i32, String> = OrderedMap::new();
    let mut b: i32 = 0;
    while b < count
        invariant
            0 <= b,
            b <= count || (count < 0 && b == 0),
            list@.len() > 0,
            marks.wf(),
            per_bucket.wf(),
            slowest.wf(),
            forall|k: int| #[trigger] per_bucket@.dom().contains(k) <==> 0 <= k < b,
            forall|k: int| #[trigger] slowest@.dom().contains(k) <==> 0 <= k < b,
            forall|k: int|
                0 <= k < b ==> holds_floor(
                    list@,
                    marks@,
                    k,
                    #[trigger] per_bucket@[k] as int,
                    slowest@[k]@,
                ),
        decreases count - b,
    {
        let (who, floor) = slowest_in(list, marks, b);
        let ghost before = per_bucket@;
        let ghost names = slowest@;
        let name: String = list[who].0.clone();
        per_bucket.insert(b, floor);
        slowest.insert(b, name);
        proof {
            assert forall|k: int| 0 <= k < b + 1 implies holds_floor(
                list@,
                marks@,
                k,
                #[trigger] per_bucket@[k] as int,
                slowest@[k]@,
            ) by {
                if k < b {
                    assert(per_bucket@[k] == before[k]);
                    assert(slowest@[k] == names[k]);
                }
            }
        }
        b = b + 1;
    }
    Some(MvFloor { per_bucket, slowest })
}

/// The recorded positions, from the rows that hold them: view, bucket, next offset.
pub open spec fn marks_of(rows: Seq<(String, i32, i64)>) -> Map<(Seq<char>, int), i64>
    decreases rows.len(),
{
    if rows.len() == 0 {
        Map::empty()
    } else {
        marks_of(rows.drop_last()).insert((rows.last().0@, rows.last().1 as int), rows.last().2)
    }
}

/// The recorded positions, from the rows that hold them: view, bucket, next offset.
pub fn watermark_marks(rows: &Vec<(String, i32, i64)>) -> (r: OrderedMap<(String, i32), i64>)
    ensures
        r.wf(),
        r@ == marks_of(rows@),
{
    let mut out: OrderedMap<(String, i32), i64> = OrderedMap::new();
    let mut i: usize = 0;
    assert(rows@.take(0) =~= Seq::empty());
    while i < rows.len()
        invariant
            i <= rows@.len(),
            out.wf(),
            out@ == marks_of(rows@.take(i as int)),
        decreases rows@.len() - i,
    {
        assert(rows@.take(i + 1).drop_last() =~= rows@.take(i as int));
        out.insert((rows[i].0.clone(), rows[i].1), rows[i].2);
        i = i + 1;
    }
    assert(rows@.take(i as int) =~= rows@);
    out
}

/// The views that read a stream: those registered for it and those with a recorded
/// position in it.
pub fn mv_readers(registered: &Vec<String>, recorded: &Vec<String>) -> (r: OrderedSet<String>)
    ensures
        r.wf(),
        r@ == crate::iceberg_mirror::paths_set(registered@) + crate::iceberg_mirror::paths_set(
            recorded@,
        ),
{
    let mut out: OrderedSet<String> = crate::iceberg_mirror::unique_paths(registered);
    let ghost first = out@;
    let mut i: usize = 0;
    assert(out@ =~= first + crate::iceberg_mirror::paths_set(recorded@.take(0)));
    while i < recorded.len()
        invariant
            i <= recorded@.len(),
            out.wf(),
            out@ == first + crate::iceberg_mirror::paths_set(recorded@.take(i as int)),
        decreases recorded@.len() - i,
    {
        out.insert(recorded[i].clone());
        proof {
            let a = recorded@.take(i as int);
            let b = recorded@.take(i + 1);
            assert forall|p: Seq<char>| #[trigger]
                out@.contains(p) == (first + crate::iceberg_mirror::paths_set(b)).contains(p) by {
                if crate::text::holds(a, p) {
                    let k = choose|k: int| 0 <= k < a.len() && #[trigger] a[k]@ == p;
                    assert(b[k]@ == p);
                }
                if crate::text::holds(b, p) && p != recorded@[i as int]@ {
                    let k = choose|k: int| 0 <= k < b.len() && #[trigger] b[k]@ == p;
                    assert(a[k]@ == p);
                }
                assert(b[i as int]@ == recorded@[i as int]@);
            }
            assert(out@ =~= first + crate::iceberg_mirror::paths_set(b));
        }
        i = i + 1;
    }
    assert(recorded@.take(i as int) =~= recorded@);
    out
}

/// The floor of a source: of the views registered for it or with a recorded position in
/// it, at the positions that the rows record.
pub open spec fn is_source_floor(
    floor: Option<MvFloor>,
    bucket_count: Option<i32>,
    registered: Seq<String>,
    recorded: Seq<String>,
    rows: Seq<(String, i32, i64)>,
) -> bool {
    exists|readers: OrderedSet<String>|
        {
            &&& #[trigger] readers.wf()
            &&& readers@ == crate::iceberg_mirror::paths_set(registered)
                + crate::iceberg_mirror::paths_set(recorded)
            &&& is_mv_floor(floor, bucket_count, readers.map.entries@, marks_of(rows))
        }
}

/// The floor of a source, from what is recorded of it and of its readers.
pub fn source_floor(
    bucket_count: Option<i32>,
    registered: &Vec<String>,
    recorded: &Vec<String>,
    rows: &Vec<(String, i32, i64)>,
) -> (r: Option<MvFloor>)
    ensures
        is_source_floor(r, bucket_count, registered@, recorded@, rows@),
        r matches Some(f) ==> f.wf(),
{
    let readers: OrderedSet<String> = mv_readers(registered, recorded);
    let marks: OrderedMap<(String, i32), i64> = watermark_marks(rows);
    let floor: Option<MvFloor> = mv_floor(bucket_count, &readers, &marks);
    assert(readers.wf());
    floor
}

/// A stream that is read has a floor, and what is below it every reader has read:
/// whoever is registered for the source, or has a recorded position in it.
pub proof fn law_source_floor_is_below_all(
    floor: Option<MvFloor>,
    bucket_count: i32,
    registered: Seq<String>,
    recorded: Seq<String>,
    rows: Seq<(String, i32, i64)>,
    view: Seq<char>,
    bucket: int,
    offset: int,
)
    requires
        is_source_floor(floor, Some(bucket_count), registered, recorded, rows),
        crate::text::holds(registered, view) || crate::text::holds(recorded, view),
    ensures
        floor is Some,
        floor->0.wf(),
        0 <= bucket < bucket_count <==> floor->0.per_bucket@.dom().contains(bucket),
        floor->0.below(bucket, offset) ==> offset < position(marks_of(rows), view, bucket),
{
    let readers = choose|readers: OrderedSet<String>|
        {
            &&& #[trigger] readers.wf()
            &&& readers@ == crate::iceberg_mirror::paths_set(registered)
                + crate::iceberg_mirror::paths_set(recorded)
            &&& is_mv_floor(floor, Some(bucket_count), readers.map.entries@, marks_of(rows))
        };
    assert(readers@.contains(view));
    let entries = readers.map.entries@;
    lemma_position(entries, view);
    let i = position_of(entries, view);
    assert(entries[i].0@ == view);
    if floor->0.below(bucket, offset) {
        law_below_floor_is_read(
            floor->0,
            bucket_count,
            entries,
            marks_of(rows),
            bucket,
            offset,
            i,
        );
    }
}

/// The views that reclaiming dropped tables strands: those with a recorded position
/// in one of them, and, where no table of the name lives, those registered for it.
pub fn stranded_mv_readers(registered: &Vec<String>, include_registered: bool, recorded: &Vec<String>) -> (r:
    OrderedSet<String>)
    ensures
        r.wf(),
        r@ == (if include_registered {
            crate::iceberg_mirror::paths_set(registered@) + crate::iceberg_mirror::paths_set(
                recorded@,
            )
        } else {
            crate::iceberg_mirror::paths_set(recorded@)
        }),
{
    if include_registered {
        mv_readers(registered, recorded)
    } else {
        crate::iceberg_mirror::unique_paths(recorded)
    }
}

/// Why rows or files are being retired.
#[derive(Debug)]
pub enum EndCapIntent {
    /// They come back in another form, so that no view loses anything.
    Reframing,
    /// They leave the live rows, which the floor must allow.
    Removing,
    /// They are destroyed on purpose, for this reason.
    Destroying { reason: String },
}

impl Default for EndCapIntent {
    /// Whoever does not say why is held to the floor.
    fn default() -> (r: Self)
        ensures
            r is Removing,
    {
        EndCapIntent::Removing
    }
}

/// Whether retiring with this intent has to ask for the floor.
pub fn consults_floor(intent: &EndCapIntent) -> (r: bool)
    ensures
        r == (*intent is Removing),
{
    match intent {
        EndCapIntent::Removing => true,
        _ => false,
    }
}

/// The question whether an inline row that lives is not below the floor.
pub fn blocking_row_sql(floor: &MvFloor, tid: i64) -> (r: String)
    requires
        floor.wf(),
    ensures
        r@ == "select exists(select 1 from "@ + inline_name(tid as int)
            + " where end_snapshot is null and not coalesce("@ + floor_pred(
            floor.per_bucket.entries@,
        ) + ", false))"@,
{
    concat5(
        "select exists(select 1 from ",
        inline_table_name(tid).as_str(),
        " where end_snapshot is null and not coalesce(",
        floor.below_floor_pred().as_str(),
        ", false))",
    )
}

/// The deletion of the inline rows that were retired up to snapshot `$1` and are
/// below the floor, where there is one.
pub open spec fn reclaim_text(floor: Option<&MvFloor>, tid: int) -> Seq<char> {
    let aged = "delete from "@ + inline_name(tid)
        + " where end_snapshot is not null and end_snapshot <= $1"@;
    match floor {
        None => aged,
        Some(f) => aged + " and "@ + floor_pred(f.per_bucket.entries@),
    }
}

/// Deletes the inline rows that were retired up to snapshot `$1` and are below the
/// floor, where there is one.
pub fn reclaim_rows_sql(floor: Option<&MvFloor>, tid: i64) -> (r: String)
    requires
        floor matches Some(f) ==> f.wf(),
    ensures
        r@ == reclaim_text(floor, tid as int),
{
    let mut s: String = concat3(
        "delete from ",
        inline_table_name(tid).as_str(),
        " where end_snapshot is not null and end_snapshot <= $1",
    );
    match floor {
        None => {},
        Some(f) => {
            s.append(" and ");
            s.append(f.below_floor_pred().as_str());
        },
    }
    s
}

/// Whether a removal is blocked: a live file is not known to be below the floor, or
/// there is inline storage and a live row in it is not below. `file_blocks` and
/// `row_blocks` are the answers of the store.
pub fn removal_blocked(
    floor: Option<MvFloor>,
    file_blocks: bool,
    inline_exists: bool,
    row_blocks: bool,
) -> (r: Option<MvFloor>)
    ensures
        r == (if file_blocks || (inline_exists && row_blocks) {
            floor
        } else {
            None
        }),
{
    if file_blocks || (inline_exists && row_blocks) {
        floor
    } else {
        None
    }
}

/// Who holds each bucket, as it is shown.
pub open spec fn shown_holders(entries: Seq<(i32, String)>) -> Seq<Seq<char>> {
    Seq::new(
        entries.len(),
        |i: int| int_text(entries[i].0 as int) + ": "@ + debug_text(entries[i].1@),
    )
}

/// The refusal to remove offsets that some view has not read.
pub open spec fn refusal(table: TableRef, least: int, holders: Seq<(i32, String)>) -> Fault {
    Fault::Validation(
        MV_FLOOR_REFUSAL_PREFIX@ + " "@ + table.schema@ + "."@ + table.name@
            + " carries offsets a micro-batch MV has not read (floor "@ + int_text(least)
            + ", slowest {"@ + joined(shown_holders(holders), ", "@)
            + "}); removing them would leave a hole in its delta"@,
    )
}

/// `e` refuses to remove what this floor holds back.
pub open spec fn refuses_with(e: Fault, table: TableRef, floor: MvFloor) -> bool {
    exists|least: int|
        is_least(floor.per_bucket@, least) && e == #[trigger] refusal(
            table,
            least,
            floor.slowest.entries@,
        )
}

/// How every refusal to retire offsets begins.
pub const MV_FLOOR_REFUSAL_PREFIX: &'static str = "mv-floor refuses end-cap:";

/// Whether retiring may go on: a removal that a view's position blocks is refused.
/// Reframing and destroying are never blocked.
pub fn guard_end_cap(table: &TableRef, intent: &EndCapIntent, blocked: Option<&MvFloor>) -> (r: Result<
    (),
    ControlPlaneError,
>)
    requires
        blocked matches Some(f) ==> f.wf(),
    ensures
        r is Err <==> *intent is Removing && blocked is Some,
        r matches Err(e) ==> refuses_with(e@, *table, *blocked->0),
{
    match intent {
        EndCapIntent::Reframing => Ok(()),
        EndCapIntent::Destroying { reason: _ } => Ok(()),
        EndCapIntent::Removing => match blocked {
            None => Ok(()),
            Some(floor) => {
                let least: i64 = floor.min_offset();
                let mut s: String = MV_FLOOR_REFUSAL_PREFIX.to_owned();
                s.append(" ");
                s.append(table.schema.as_str());
                s.append(".");
                s.append(table.name.as_str());
                s.append(" carries offsets a micro-batch MV has not read (floor ");
                s.append(i64_text(least).as_str());
                s.append(", slowest {");
                s.append(join(&holders(&floor.slowest.entries), ", ").as_str());
                s.append("}); removing them would leave a hole in its delta");
                assert(s@ == refusal(*table, least as int, floor.slowest.entries@)->Validation_0);
                Err(ControlPlaneError::Validation(s))
            },
        },
    }
}

fn holders(entries: &Vec<(i32, String)>) -> (r: Vec<String>)
    ensures
        texts(r@) == shown_holders(entries@),
{
    let mut out: Vec<String> = Vec::new();
    let mut i: usize = 0;
    while i < entries.len()
        invariant
            i <= entries@.len(),
            out@.len() == i,
            forall|j: int| 0 <= j < i ==> #[trigger] out@[j]@ == shown_holders(entries@)[j],
        decreases entries@.len() - i,
    {
        out.push(
            concat3(
                i64_text(entries[i].0 as i64).as_str(),
                ": ",
                debug_of(entries[i].1.as_str()).as_str(),
            ),
        );
        i = i + 1;
    }
    assert(texts(out@) =~= shown_holders(entries@));
    out
}

/// The bound for files keeps every row that some bucket's floor keeps: an offset
/// below it is below the floor of each bucket.
pub proof fn law_file_bound_is_conservative(f: MvFloor, least: int, bucket: int, offset: int)
    requires
        is_least(f.per_bucket@, least),
        f.per_bucket@.dom().contains(bucket),
        offset < least,
    ensures
        f.below(bucket, offset),
{
}

/// No reader has come less far in a bucket than its floor, so what is below the
/// floor has been read by every one of them.
pub proof fn law_below_floor_is_read(
    f: MvFloor,
    bucket_count: i32,
    readers: Seq<(String, ())>,
    marks: Map<(Seq<char>, int), i64>,
    bucket: int,
    offset: int,
    reader: int,
)
    requires
        is_mv_floor(Some(f), Some(bucket_count), readers, marks),
        f.below(bucket, offset),
        0 <= reader < readers.len(),
    ensures
        offset < position(marks, readers[reader].0@, bucket),
{
    assert(f.per_bucket@.dom().contains(bucket));
    assert(holds_floor(readers, marks, bucket, f.per_bucket@[bucket] as int, f.slowest@[bucket]@));
}

/// A reader without a recorded position in a bucket keeps everything in it, where
/// positions are not negative.
pub proof fn law_new_reader_holds_everything(
    f: MvFloor,
    bucket_count: i32,
    readers: Seq<(String, ())>,
    marks: Map<(Seq<char>, int), i64>,
    bucket: int,
    offset: int,
    reader: int,
)
    requires
        is_mv_floor(Some(f), Some(bucket_count), readers, marks),
        0 <= reader < readers.len(),
        !marks.dom().contains((readers[reader].0@, bucket)),
        0 <= offset,
    ensures
        !f.below(bucket, offset),
{
    if f.below(bucket, offset) {
        law_below_floor_is_read(f, bucket_count, readers, marks, bucket, offset, reader);
    }
}

} // verus!
