//! What holds of the streams across operations: how offsets are handed out, what a
//! declaration fixes, and how the marks of a view move.
use crate::error::ControlPlaneError;
use crate::memory::ControlPlaneView;
use crate::stream::{
    advance_fault, advanced, advances_fault, changelog_recorded, changes_declared, log_declared,
    marks_advanced, offset_allocated, watermark, MergeEngine, StreamKind, StreamView, WatermarkAdvance,
    WatermarkKey,
};
use vstd::prelude::*;

verus! {

/// An allocation hands out the offset behind the last one of the bucket, or the first, and
/// as many as were asked for are taken; the next allocation begins where it ended. A bucket
/// is not touched by an allocation in another.
pub proof fn law_allocations_follow_each_other(
    pre: ControlPlaneView,
    mid: ControlPlaneView,
    post: ControlPlaneView,
    table: int,
    bucket: int,
    first: i64,
    second: i64,
    a: Result<i64, ControlPlaneError>,
    b: Result<i64, ControlPlaneError>,
    other: (int, int),
)
    requires
        offset_allocated(pre, mid, table, bucket, first, a),
        offset_allocated(mid, post, table, bucket, second, b),
        first > 0,
        second > 0,
        pre.streams.next_offset(table, bucket) + first + second <= i64::MAX,
        pre.streams.next_offset(table, bucket) >= 0,
    ensures
        a is Ok,
        b is Ok,
        pre.streams.offsets.dom().contains((table, bucket)) ==> a->Ok_0 == pre.streams.offsets[(
            table,
            bucket,
        )],
        !pre.streams.offsets.dom().contains((table, bucket)) ==> a->Ok_0 == 0,
        b->Ok_0 == a->Ok_0 + first,
        post.streams.offsets[(table, bucket)] == b->Ok_0 + second,
        other != (table, bucket) ==> post.streams.offsets.dom().contains(other)
            == pre.streams.offsets.dom().contains(other) && post.streams.offsets[other]
            == pre.streams.offsets[other],
        post.streams == (StreamView { offsets: post.streams.offsets, ..pre.streams }),
        post == (ControlPlaneView { streams: post.streams, ..pre }),
{
}

/// An allocation of nothing, or of less, is refused and takes nothing.
pub proof fn law_empty_allocation_is_refused(
    pre: ControlPlaneView,
    post: ControlPlaneView,
    table: int,
    bucket: int,
    count: i64,
    r: Result<i64, ControlPlaneError>,
)
    requires
        offset_allocated(pre, post, table, bucket, count, r),
        count <= 0,
    ensures
        r is Err && (r->Err_0)@ is Validation,
        post == pre,
{
}

/// The first declaration of a table stands; a later one changes nothing. A log has so many
/// buckets as it is declared with, and no key.
pub proof fn law_first_declaration_stands(
    pre: ControlPlaneView,
    post: ControlPlaneView,
    table: int,
    bucket_count: i32,
    other: int,
)
    requires
        log_declared(pre, post, table, bucket_count),
    ensures
        pre.streams.tables.dom().contains(table) ==> post == pre,
        !pre.streams.tables.dom().contains(table) ==> {
            let meta = post.streams.tables[table];
            &&& post.streams.tables.dom().contains(table)
            &&& meta.bucket_count == bucket_count
            &&& meta.kind == StreamKind::Log
            &&& meta.bucket_key is None
            &&& meta.changelog_table_id is None
            &&& meta.merge_engine == MergeEngine::LastRow
        },
        other != table ==> post.streams.tables.dom().contains(other) == pre.streams.tables.dom().contains(
            other,
        ) && post.streams.tables[other] == pre.streams.tables[other],
        post.streams == (StreamView { tables: post.streams.tables, ..pre.streams }),
        post == (ControlPlaneView { streams: post.streams, ..pre }),
{
}

/// A stream of changes has so many buckets, the key and the way of merging that it is first
/// declared with.
pub proof fn law_stream_of_changes_is_declared(
    pre: ControlPlaneView,
    post: ControlPlaneView,
    table: int,
    bucket_count: i32,
    bucket_key: String,
    merge_engine: MergeEngine,
    other: int,
)
    requires
        changes_declared(pre, post, table, bucket_count, bucket_key, merge_engine),
    ensures
        pre.streams.tables.dom().contains(table) ==> post == pre,
        !pre.streams.tables.dom().contains(table) ==> {
            let meta = post.streams.tables[table];
            &&& post.streams.tables.dom().contains(table)
            &&& meta.bucket_count == bucket_count
            &&& meta.kind == StreamKind::Cdc
            &&& meta.bucket_key == Some(bucket_key)
            &&& meta.changelog_table_id is None
            &&& meta.merge_engine == merge_engine
        },
        other != table ==> post.streams.tables.dom().contains(other) == pre.streams.tables.dom().contains(
            other,
        ) && post.streams.tables[other] == pre.streams.tables[other],
        post.streams == (StreamView { tables: post.streams.tables, ..pre.streams }),
        post == (ControlPlaneView { streams: post.streams, ..pre }),
{
}

/// The changelog is recorded of a declared table and changes nothing else of it; of a table
/// that is not declared nothing is recorded.
pub proof fn law_changelog_is_recorded(
    pre: ControlPlaneView,
    post: ControlPlaneView,
    table: int,
    changelog: i64,
    other: int,
)
    requires
        changelog_recorded(pre, post, table, changelog),
    ensures
        !pre.streams.tables.dom().contains(table) ==> post == pre,
        pre.streams.tables.dom().contains(table) ==> {
            let (was, is) = (pre.streams.tables[table], post.streams.tables[table]);
            &&& is.changelog_table_id == Some(changelog)
            &&& is.bucket_count == was.bucket_count
            &&& is.kind == was.kind
            &&& is.bucket_key == was.bucket_key
            &&& is.merge_engine == was.merge_engine
        },
        post.streams.tables.dom() == pre.streams.tables.dom(),
        other != table ==> post.streams.tables[other] == pre.streams.tables[other],
        post.streams == (StreamView { tables: post.streams.tables, ..pre.streams }),
        post == (ControlPlaneView { streams: post.streams, ..pre }),
{
    assert(post.streams.tables.dom() =~= pre.streams.tables.dom());
}

/// A mark moves where the move goes forward and the mark is there at its beginning or
/// before it, or is not there and the move begins at zero; a move that goes nowhere is
/// invalid, and any other is a conflict.
pub proof fn law_when_a_mark_moves(
    m: Map<WatermarkKey, i64>,
    mv: Seq<char>,
    source: int,
    a: WatermarkAdvance,
)
    ensures
        ({
            let k = (mv, (source, a.bucket as int));
            let fits = if m.dom().contains(k) {
                m[k] <= a.from
            } else {
                a.from == 0
            };
            &&& advance_fault(m, mv, source, a) is None <==> a.to > a.from && fits
            &&& a.to <= a.from ==> (advance_fault(m, mv, source, a) matches Some(f) && f is Validation)
            &&& a.to > a.from && !fits ==> (advance_fault(m, mv, source, a) matches Some(f) && f is Conflict)
            &&& m.dom().contains(k) ==> watermark(m, k) == Some(m[k])
            &&& !m.dom().contains(k) ==> watermark(m, k) is None
        }),
{
}

/// Moves are made in their order: one that is allowed sets the mark of its bucket to its
/// end and the rest follows; one that is not stops them all, and what was moved before
/// stays.
pub proof fn law_marks_move_in_order(
    pre: ControlPlaneView,
    post: ControlPlaneView,
    mv: Seq<char>,
    source: int,
    advances: Seq<WatermarkAdvance>,
    r: Result<(), ControlPlaneError>,
    other: WatermarkKey,
)
    requires
        marks_advanced(pre, post, mv, source, advances, r),
    ensures
        advances.len() == 0 ==> r is Ok && post == pre,
        advances.len() == 1 && r is Ok ==> post.streams.watermarks.dom().contains(
            (mv, (source, advances[0].bucket as int)),
        ) && post.streams.watermarks[(mv, (source, advances[0].bucket as int))] == advances[0].to,
        advances.len() == 1 ==> (r is Ok <==> advance_fault(pre.streams.watermarks, mv, source, advances[0])
            is None),
        advances.len() == 1 && r is Err ==> post == pre,
        other.0 != mv || other.1.0 != source ==> post.streams.watermarks.dom().contains(other)
            == pre.streams.watermarks.dom().contains(other) && post.streams.watermarks[other]
            == pre.streams.watermarks[other],
        post.streams == (StreamView { watermarks: post.streams.watermarks, ..pre.streams }),
        post == (ControlPlaneView { streams: post.streams, ..pre }),
{
    lemma_other_marks_stay(pre.streams.watermarks, mv, source, advances, other);
    if advances.len() == 1 {
        reveal_with_fuel(advanced, 2);
        reveal_with_fuel(advances_fault, 2);
        assert(advances.skip(1).len() == 0);
    }
}

proof fn lemma_other_marks_stay(
    m: Map<WatermarkKey, i64>,
    mv: Seq<char>,
    source: int,
    advances: Seq<WatermarkAdvance>,
    other: WatermarkKey,
)
    ensures
        other.0 != mv || other.1.0 != source ==> advanced(m, mv, source, advances).dom().contains(other)
            == m.dom().contains(other) && advanced(m, mv, source, advances)[other] == m[other],
    decreases advances.len(),
{
    if advances.len() > 0 && advance_fault(m, mv, source, advances[0]) is None {
        lemma_other_marks_stay(
            m.insert((mv, (source, advances[0].bucket as int)), advances[0].to),
            mv,
            source,
            advances.skip(1),
            other,
        );
    }
}

/// Many moves are the first and then the others.
pub proof fn law_moves_one_after_the_other(
    m: Map<WatermarkKey, i64>,
    mv: Seq<char>,
    source: int,
    a: WatermarkAdvance,
    rest: Seq<WatermarkAdvance>,
)
    ensures
        advance_fault(m, mv, source, a) is None ==> advanced(m, mv, source, seq![a] + rest) == advanced(
            m.insert((mv, (source, a.bucket as int)), a.to),
            mv,
            source,
            rest,
        ) && advances_fault(m, mv, source, seq![a] + rest) == advances_fault(
            m.insert((mv, (source, a.bucket as int)), a.to),
            mv,
            source,
            rest,
        ),
        advance_fault(m, mv, source, a) is Some ==> advanced(m, mv, source, seq![a] + rest) == m
            && advances_fault(m, mv, source, seq![a] + rest) == advance_fault(m, mv, source, a),
{
    assert((seq![a] + rest).skip(1) =~= rest);
}

} // verus!
