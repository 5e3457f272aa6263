//! Stream tables: offsets by bucket, declarations, and the watermarks of
//! materialized views over them.
use crate::error::{outcome, ControlPlaneError, Fault};
use crate::key::{str_same, Key};
use crate::memory::{ControlPlaneView, MemoryControlPlane};
use crate::ordered::{lemma_entry, lemma_position, position_of, OrderedMap};
use crate::text::{concat, concat3, i64_text, int_text};
use vstd::prelude::*;
use vstd::string::StringExecFns;

verus! {

/// Whether a stream table is a log, or carries changes to keyed rows.
#[derive(Clone, Copy, Debug, PartialEq, Eq, Structural)]
pub enum StreamKind {
    Log,
    Cdc,
}

/// How changes to one key are merged.
#[derive(Clone, Copy, Debug, PartialEq, Eq, Structural)]
pub enum MergeEngine {
    LastRow,
    FirstRow,
}

/// The declaration of a stream table.
#[derive(Debug)]
pub struct StreamMeta {
    pub bucket_count: i32,
    pub kind: StreamKind,
    pub bucket_key: Option<String>,
    pub changelog_table_id: Option<i64>,
    pub merge_engine: MergeEngine,
}

/// A move of the watermark of one bucket.
#[derive(Clone, Copy, Debug)]
pub struct WatermarkAdvance {
    pub bucket: i32,
    pub from: i64,
    pub to: i64,
}

/// What a watermark is kept under: view, source table, bucket.
pub type WatermarkKey = (Seq<char>, (int, int));

/// What the streams hold.
#[verifier::ext_equal]
pub struct StreamView {
    /// The next free offset of a bucket of a table.
    pub offsets: Map<(int, int), i64>,
    pub tables: Map<int, StreamMeta>,
    pub watermarks: Map<WatermarkKey, i64>,
}

impl StreamView {
    /// The next free offset of a bucket.
    pub open spec fn next_offset(self, table: int, bucket: int) -> int {
        if self.offsets.dom().contains((table, bucket)) {
            self.offsets[(table, bucket)] as int
        } else {
            0
        }
    }
}

/// The state of the streams.
pub struct StreamState {
    pub offsets: OrderedMap<(i64, i32), i64>,
    pub tables: OrderedMap<i64, StreamMeta>,
    pub watermarks: OrderedMap<(String, (i64, i32)), i64>,
}

impl View for StreamState {
    type V = StreamView;

    open spec fn view(&self) -> StreamView {
        StreamView {
            offsets: self.offsets@,
            tables: self.tables@,
            watermarks: self.watermarks@,
        }
    }
}

impl StreamState {
    pub open spec fn wf(&self) -> bool {
        self.offsets.wf() && self.tables.wf() && self.watermarks.wf()
    }

    /// No streams.
    pub fn new() -> (r: Self)
        ensures
            r.wf(),
            r@ == (StreamView {
                offsets: Map::empty(),
                tables: Map::empty(),
                watermarks: Map::empty(),
            }),
    {
        StreamState {
            offsets: OrderedMap::new(),
            tables: OrderedMap::new(),
            watermarks: OrderedMap::new(),
        }
    }
}

/// The watermarks of a view over a table, by bucket.
pub open spec fn marks_listed(
    m: Map<WatermarkKey, i64>,
    mv: Seq<char>,
    source: int,
    list: Seq<(i32, i64)>,
) -> bool {
    &&& forall|i: int, j: int| 0 <= i < j < list.len() ==> (#[trigger] list[i]).0 < (#[trigger] list[j]).0
    &&& forall|i: int|
        0 <= i < list.len() ==> watermark(m, (mv, (source, (#[trigger] list[i]).0 as int))) == Some(
            list[i].1,
        )
    &&& forall|b: int| #[trigger]
        m.dom().contains((mv, (source, b))) ==> exists|i: int|
            0 <= i < list.len() && (#[trigger] list[i]).0 == b
}

/// The advance does not move forward.
pub open spec fn malformed(mv: Seq<char>, source: int, a: WatermarkAdvance) -> Fault {
    Fault::Validation(
        "mv watermark advance "@ + int_text(a.from as int) + ".."@ + int_text(a.to as int)
            + " is malformed (must move strictly forward: to > from) : "@ + mv + " source "@
            + int_text(source) + " bucket "@ + int_text(a.bucket as int),
    )
}

/// A number that may be absent, as it is printed.
pub open spec fn option_text(n: Option<i64>) -> Seq<char> {
    match n {
        Some(v) => "Some("@ + int_text(v as int) + ")"@,
        None => "None"@,
    }
}

/// The advance does not fit the watermark that is there.
pub open spec fn refused(
    mv: Seq<char>,
    source: int,
    a: WatermarkAdvance,
    current: Option<i64>,
) -> Fault {
    Fault::Conflict(
        "mv watermark refused advance "@ + int_text(a.from as int) + ".."@ + int_text(a.to as int)
            + " : "@ + mv + " source "@ + int_text(source) + " bucket "@ + int_text(
            a.bucket as int,
        )
            + " — the watermark is either ABOVE `from` (a concurrent run already covered this delta) or at/above `to` (the advance is not monotone); found "@
            + option_text(current),
    )
}

/// The watermark of a bucket.
pub open spec fn watermark(m: Map<WatermarkKey, i64>, k: WatermarkKey) -> Option<i64> {
    if m.dom().contains(k) {
        Some(m[k])
    } else {
        None
    }
}

/// Why the advance is refused.
pub open spec fn advance_fault(
    m: Map<WatermarkKey, i64>,
    mv: Seq<char>,
    source: int,
    a: WatermarkAdvance,
) -> Option<Fault> {
    let current = watermark(m, (mv, (source, a.bucket as int)));
    if a.to <= a.from {
        Some(malformed(mv, source, a))
    } else {
        match current {
            Some(c) => if c <= a.from {
                None
            } else {
                Some(refused(mv, source, a, current))
            },
            None => if a.from == 0 {
                None
            } else {
                Some(refused(mv, source, a, current))
            },
        }
    }
}

/// The watermarks after the advances are applied in order, up to the first that
/// is refused.
pub open spec fn advanced(
    m: Map<WatermarkKey, i64>,
    mv: Seq<char>,
    source: int,
    advances: Seq<WatermarkAdvance>,
) -> Map<WatermarkKey, i64>
    decreases advances.len(),
{
    if advances.len() == 0 || advance_fault(m, mv, source, advances[0]) is Some {
        m
    } else {
        advanced(
            m.insert((mv, (source, advances[0].bucket as int)), advances[0].to),
            mv,
            source,
            advances.skip(1),
        )
    }
}

/// The first refusal among the advances, applied in order.
pub open spec fn advances_fault(
    m: Map<WatermarkKey, i64>,
    mv: Seq<char>,
    source: int,
    advances: Seq<WatermarkAdvance>,
) -> Option<Fault>
    decreases advances.len(),
{
    if advances.len() == 0 {
        None
    } else if advance_fault(m, mv, source, advances[0]) is Some {
        advance_fault(m, mv, source, advances[0])
    } else {
        advances_fault(
            m.insert((mv, (source, advances[0].bucket as int)), advances[0].to),
            mv,
            source,
            advances.skip(1),
        )
    }
}

fn option_i64_text(n: Option<i64>) -> (r: String)
    ensures
        r@ == option_text(n),
{
    match n {
        Some(v) => concat3("Some(", i64_text(v).as_str(), ")"),
        None => "None".to_owned(),
    }
}

/// `<head><from>..<to>`.
fn advance_head(head: &str, a: &WatermarkAdvance) -> (r: String)
    ensures
        r@ == head@ + int_text(a.from as int) + ".."@ + int_text(a.to as int),
{
    let mut s: String = concat(head, i64_text(a.from).as_str());
    s.append("..");
    s.append(i64_text(a.to).as_str());
    s
}

impl MemoryControlPlane {
    /// Reserves `count` offsets of a bucket and gives the first.
    pub fn allocate_offset(&mut self, table_id: i64, bucket: i32, count: i64) -> (r: Result<
        i64,
        ControlPlaneError,
    >)
        requires
            old(self).wf(),
            old(self)@.streams.next_offset(table_id as int, bucket as int) + count <= i64::MAX,
        ensures
            final(self).wf(),
            r is Err ==> *final(self) == *old(self),
            offset_allocated(old(self)@, final(self)@, table_id as int, bucket as int, count, r),
    {
        if count <= 0 {
            return Err(
                ControlPlaneError::Validation(
                    concat("allocate_offset requires count > 0, got ", i64_text(count).as_str()),
                ),
            );
        }
        let first: i64 = self.peek_offset(table_id, bucket);
        self.streams.offsets.insert((table_id, bucket), first + count);
        Ok(first)
    }

    /// The next free offset of a bucket.
    pub fn peek_offset(&self, table_id: i64, bucket: i32) -> (r: i64)
        requires
            self.wf(),
        ensures
            r == self@.streams.next_offset(table_id as int, bucket as int),
    {
        match self.streams.offsets.get(&(table_id, bucket)) {
            Some(n) => *n,
            None => 0,
        }
    }

    /// Declares a table a stream, unless it is declared already.
    fn declare(&mut self, table_id: i64, meta: StreamMeta)
        requires
            old(self).wf(),
        ensures
            final(self).wf(),
            final(self)@ == declared(old(self)@, table_id as int, meta),
    {
        if !self.streams.tables.contains(&table_id) {
            self.streams.tables.insert(table_id, meta);
        }
    }

    /// Declares a table a log stream. The first declaration stays.
    pub fn declare_stream(&mut self, table_id: i64, bucket_count: i32)
        requires
            old(self).wf(),
        ensures
            final(self).wf(),
            log_declared(old(self)@, final(self)@, table_id as int, bucket_count),
    {
        self.declare(
            table_id,
            StreamMeta {
                bucket_count,
                kind: StreamKind::Log,
                bucket_key: None,
                changelog_table_id: None,
                merge_engine: MergeEngine::LastRow,
            },
        );
    }

    /// Declares a table a change stream over `bucket_key`. The first declaration
    /// stays.
    pub fn declare_cdc(
        &mut self,
        table_id: i64,
        bucket_count: i32,
        bucket_key: String,
        merge_engine: MergeEngine,
    )
        requires
            old(self).wf(),
        ensures
            final(self).wf(),
            changes_declared(
                old(self)@,
                final(self)@,
                table_id as int,
                bucket_count,
                bucket_key,
                merge_engine,
            ),
    {
        self.declare(
            table_id,
            StreamMeta {
                bucket_count,
                kind: StreamKind::Cdc,
                bucket_key: Some(bucket_key),
                changelog_table_id: None,
                merge_engine,
            },
        );
    }

    /// The number of buckets of a stream table.
    pub fn stream_bucket_count(&self, table_id: i64) -> (r: Option<i32>)
        requires
            self.wf(),
        ensures
            r == (if self@.streams.tables.dom().contains(table_id as int) {
                Some(self@.streams.tables[table_id as int].bucket_count)
            } else {
                None
            }),
    {
        match self.streams.tables.get(&table_id) {
            Some(m) => Some(m.bucket_count),
            None => None,
        }
    }

    /// The declaration of a stream table.
    pub fn stream_meta(&self, table_id: i64) -> (r: Option<&StreamMeta>)
        requires
            self.wf(),
        ensures
            r is Some <==> self@.streams.tables.dom().contains(table_id as int),
            r matches Some(m) ==> *m == self@.streams.tables[table_id as int],
    {
        self.streams.tables.get(&table_id)
    }

    /// Records the changelog table of a stream table. One that is not declared is
    /// left alone.
    pub fn set_changelog_table_id(&mut self, table_id: i64, changelog_table_id: i64)
        requires
            old(self).wf(),
        ensures
            final(self).wf(),
            changelog_recorded(old(self)@, final(self)@, table_id as int, changelog_table_id),
    {
        match self.streams.tables.remove(&table_id) {
            Some(m) => {
                let mut meta: StreamMeta = m;
                meta.changelog_table_id = Some(changelog_table_id);
                self.streams.tables.insert(table_id, meta);
                assert(self.streams@.tables =~= old(self)@.streams.tables.insert(
                    table_id as int,
                    meta,
                ));
            },
            None => {
                assert(self.streams@.tables =~= old(self)@.streams.tables);
            },
        }
    }

    /// The watermarks of a view over a source table, by bucket, in order.
    pub fn mv_watermarks(&self, mv: &str, source_table_id: i64) -> (r: Vec<(i32, i64)>)
        requires
            self.wf(),
        ensures
            marks_listed(self@.streams.watermarks, mv@, source_table_id as int, r@),
    {
        let entries: &Vec<((String, (i64, i32)), i64)> = &self.streams.watermarks.entries;
        let mut out: Vec<(i32, i64)> = Vec::new();
        let ghost mut at: Seq<int> = Seq::empty();
        let mut i: usize = 0;
        while i < entries.len()
            invariant
                self.wf(),
                *entries == self.streams.watermarks.entries,
                i <= entries@.len(),
                at.len() == out@.len(),
                forall|a: int|
                    0 <= a < at.len() ==> 0 <= #[trigger] at[a] < i && entries@[at[a]].0.0@ == mv@
                        && entries@[at[a]].0.1.0 == source_table_id && entries@[at[a]].0.1.1
                        == out@[a].0 && entries@[at[a]].1 == out@[a].1,
                forall|a: int, b: int| 0 <= a < b < at.len() ==> #[trigger] at[a] < #[trigger] at[b],
                forall|e: int|
                    0 <= e < i && (#[trigger] entries@[e]).0.0@ == mv@ && entries@[e].0.1.0
                        == source_table_id ==> exists|a: int|
                        0 <= a < at.len() && #[trigger] at[a] == e,
            decreases entries@.len() - i,
        {
            let ghost before = at;
            if str_same(entries[i].0.0.as_str(), mv) && entries[i].0.1.0 == source_table_id {
                out.push((entries[i].0.1.1, entries[i].1));
                proof {
                    at = at.push(i as int);
                    assert(at[at.len() - 1] == i);
                }
            }
            proof {
                assert forall|e: int|
                    0 <= e < i + 1 && (#[trigger] entries@[e]).0.0@ == mv@ && entries@[e].0.1.0
                        == source_table_id implies exists|a: int|
                    0 <= a < at.len() && #[trigger] at[a] == e by {
                    if e < i {
                        let a = choose|a: int| 0 <= a < before.len() && #[trigger] before[a] == e;
                        assert(at[a] == e);
                    }
                }
            }
            i = i + 1;
        }
        proof {
            assert forall|a: int, b: int| 0 <= a < b < out@.len() implies (#[trigger] out@[a]).0 < (
            #[trigger] out@[b]).0 by {
                assert(at[a] < at[b]);
                assert(<(String, (i64, i32))>::before(
                    entries@[at[a]].0.model(),
                    entries@[at[b]].0.model(),
                ));
                crate::key::lemma_text_irreflexive(mv@);
            }
            assert forall|a: int| 0 <= a < out@.len() implies watermark(
                self@.streams.watermarks,
                (mv@, (source_table_id as int, (#[trigger] out@[a]).0 as int)),
            ) == Some(out@[a].1) by {
                lemma_entry(entries@, at[a]);
            }
            assert forall|b: int| #[trigger]
                self@.streams.watermarks.dom().contains((mv@, (source_table_id as int, b))) implies exists|
                i: int,
            | 0 <= i < out@.len() && (#[trigger] out@[i]).0 == b by {
                lemma_position(entries@, (mv@, (source_table_id as int, b)));
                let p = position_of(entries@, (mv@, (source_table_id as int, b)));
                let a = choose|a: int| 0 <= a < at.len() && #[trigger] at[a] == p;
                assert(out@[a].0 == b);
            }
        }
        out
    }

    /// Advances the watermarks of a view over a source table. The advances apply in
    /// order; the first that is refused stops the rest, and those before it stay.
    pub fn advance_mv_watermark(
        &mut self,
        mv: &str,
        source_table_id: i64,
        advances: &Vec<WatermarkAdvance>,
    ) -> (r: Result<(), ControlPlaneError>)
        requires
            old(self).wf(),
        ensures
            final(self).wf(),
            marks_advanced(old(self)@, final(self)@, mv@, source_table_id as int, advances@, r),
    {
        let ghost start = self@.streams.watermarks;
        let ghost source = source_table_id as int;
        let mut i: usize = 0;
        assert(advances@.skip(0) =~= advances@);
        while i < advances.len()
            invariant
                self.wf(),
                i <= advances@.len(),
                source == source_table_id,
                start == old(self)@.streams.watermarks,
                self@ == (ControlPlaneView {
                    streams: StreamView {
                        watermarks: self@.streams.watermarks,
                        ..old(self)@.streams
                    },
                    ..old(self)@
                }),
                advances_fault(start, mv@, source, advances@) == advances_fault(
                    self@.streams.watermarks,
                    mv@,
                    source,
                    advances@.skip(i as int),
                ),
                advanced(start, mv@, source, advances@) == advanced(
                    self@.streams.watermarks,
                    mv@,
                    source,
                    advances@.skip(i as int),
                ),
            decreases advances@.len() - i,
        {
            let adv: WatermarkAdvance = advances[i];
            assert(advances@.skip(i as int)[0] == adv);
            assert(advances@.skip(i as int).skip(1) =~= advances@.skip(i + 1));
            if adv.to <= adv.from {
                let mut m: String = advance_head("mv watermark advance ", &adv);
                m.append(" is malformed (must move strictly forward: to > from) : ");
                m.append(mv);
                m.append(" source ");
                m.append(i64_text(source_table_id).as_str());
                m.append(" bucket ");
                m.append(i64_text(adv.bucket as i64).as_str());
                return Err(ControlPlaneError::Validation(m));
            }
            let key: (String, (i64, i32)) = (mv.to_owned(), (source_table_id, adv.bucket));
            let current: Option<i64> = match self.streams.watermarks.get(&key) {
                Some(c) => Some(*c),
                None => None,
            };
            let accepted: bool = match current {
                Some(c) => c <= adv.from && c < adv.to,
                None => adv.from == 0,
            };
            if !accepted {
                let mut m: String = advance_head("mv watermark refused advance ", &adv);
                m.append(" : ");
                m.append(mv);
                m.append(" source ");
                m.append(i64_text(source_table_id).as_str());
                m.append(" bucket ");
                m.append(i64_text(adv.bucket as i64).as_str());
                m.append(
                    " — the watermark is either ABOVE `from` (a concurrent run already covered this delta) or at/above `to` (the advance is not monotone); found ",
                );
                m.append(option_i64_text(current).as_str());
                return Err(ControlPlaneError::Conflict(m));
            }
            self.streams.watermarks.insert(key, adv.to);
            i = i + 1;
        }
        Ok(())
    }
}

/// What allocating offsets does and gives.
pub open spec fn offset_allocated(
    pre: ControlPlaneView,
    post: ControlPlaneView,
    table: int,
    bucket: int,
    count: i64,
    r: Result<i64, ControlPlaneError>,
) -> bool {
    &&& outcome(r) == (if count <= 0 {
        Err::<i64, Fault>(
            Fault::Validation("allocate_offset requires count > 0, got "@ + int_text(count as int)),
        )
    } else {
        Ok(pre.streams.next_offset(table, bucket) as i64)
    })
    &&& r is Err ==> post == pre
    &&& r is Ok ==> post == (ControlPlaneView {
        streams: StreamView {
            offsets: pre.streams.offsets.insert(
                (table, bucket),
                (pre.streams.next_offset(table, bucket) + count) as i64,
            ),
            ..pre.streams
        },
        ..pre
    })
}

/// The table is a log of so many buckets, unless it is declared already.
pub open spec fn log_declared(pre: ControlPlaneView, post: ControlPlaneView, table: int, bucket_count: i32) -> bool {
    post == declared(
        pre,
        table,
        StreamMeta {
            bucket_count,
            kind: StreamKind::Log,
            bucket_key: None,
            changelog_table_id: None,
            merge_engine: MergeEngine::LastRow,
        },
    )
}

/// The table is a stream of changes, unless it is declared already.
pub open spec fn changes_declared(
    pre: ControlPlaneView,
    post: ControlPlaneView,
    table: int,
    bucket_count: i32,
    bucket_key: String,
    merge_engine: MergeEngine,
) -> bool {
    post == declared(
        pre,
        table,
        StreamMeta {
            bucket_count,
            kind: StreamKind::Cdc,
            bucket_key: Some(bucket_key),
            changelog_table_id: None,
            merge_engine,
        },
    )
}

/// The changelog of a declared table is recorded.
pub open spec fn changelog_recorded(
    pre: ControlPlaneView,
    post: ControlPlaneView,
    table: int,
    changelog: i64,
) -> bool {
    post == (if pre.streams.tables.dom().contains(table) {
        ControlPlaneView {
            streams: StreamView {
                tables: pre.streams.tables.insert(
                    table,
                    StreamMeta { changelog_table_id: Some(changelog), ..pre.streams.tables[table] },
                ),
                ..pre.streams
            },
            ..pre
        }
    } else {
        pre
    })
}

/// What advancing the watermarks of a view does and gives.
pub open spec fn marks_advanced(
    pre: ControlPlaneView,
    post: ControlPlaneView,
    mv: Seq<char>,
    source: int,
    advances: Seq<WatermarkAdvance>,
    r: Result<(), ControlPlaneError>,
) -> bool {
    &&& outcome(r) == (match advances_fault(pre.streams.watermarks, mv, source, advances) {
        Some(f) => Err::<(), Fault>(f),
        None => Ok(()),
    })
    &&& post == ControlPlaneView {
        streams: StreamView {
            watermarks: advanced(pre.streams.watermarks, mv, source, advances),
            ..pre.streams
        },
        ..pre
    }
}

/// The control plane with a table declared, unless it is declared already.
pub open spec fn declared(cp: ControlPlaneView, table: int, meta: StreamMeta) -> ControlPlaneView {
    if cp.streams.tables.dom().contains(table) {
        cp
    } else {
        ControlPlaneView {
            streams: StreamView {
                tables: cp.streams.tables.insert(table, meta),
                ..cp.streams
            },
            ..cp
        }
    }
}

/// A watermark never moves back, and one that is set stays set.
pub proof fn law_watermark_never_rewinds(
    m: Map<WatermarkKey, i64>,
    mv: Seq<char>,
    source: int,
    advances: Seq<WatermarkAdvance>,
    k: WatermarkKey,
)
    requires
        m.dom().contains(k),
    ensures
        advanced(m, mv, source, advances).dom().contains(k),
        m[k] <= advanced(m, mv, source, advances)[k],
    decreases advances.len(),
{
    if advances.len() > 0 && advance_fault(m, mv, source, advances[0]) is None {
        law_watermark_never_rewinds(
            m.insert((mv, (source, advances[0].bucket as int)), advances[0].to),
            mv,
            source,
            advances.skip(1),
            k,
        );
    }
}

/// An advance that went through is refused when it is replayed.
pub proof fn law_replay_is_refused(
    m: Map<WatermarkKey, i64>,
    mv: Seq<char>,
    source: int,
    a: WatermarkAdvance,
)
    requires
        advance_fault(m, mv, source, a) is None,
    ensures
        advance_fault(advanced(m, mv, source, seq![a]), mv, source, a) is Some,
{
    reveal_with_fuel(advanced, 2);
    let after = m.insert((mv, (source, a.bucket as int)), a.to);
    assert(advanced(m, mv, source, seq![a]) == after);
}

/// Two allocations of one bucket give ranges that follow each other without a gap
/// or an overlap.
pub proof fn law_offsets_are_gapless(s: StreamView, t: StreamView, table: int, bucket: int, count: i64)
    requires
        count > 0,
        s.next_offset(table, bucket) + count <= i64::MAX,
        t == (StreamView {
            offsets: s.offsets.insert(
                (table, bucket),
                (s.next_offset(table, bucket) + count) as i64,
            ),
            ..s
        }),
    ensures
        t.next_offset(table, bucket) == s.next_offset(table, bucket) + count,
        forall|u: int, b: int|
            (u, b) != (table, bucket) ==> #[trigger] t.next_offset(u, b) == s.next_offset(u, b),
{
}

} // verus!
