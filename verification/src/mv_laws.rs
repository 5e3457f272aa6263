//! What holds of the views that read streams: how far they hold a stream's rows, and where a
//! new one starts.
use crate::mv_bootstrap::{
    answered, found_inline, is_start, known_at, lowered, FileBounds, Survey, SurveyAnswer, SurveyRead,
};
use crate::mv_floor::{
    clause_text, floor_clauses, floor_pred, is_least, is_mv_floor, marks_of, position, reclaim_text,
    MvFloor,
};
use crate::text::{int_text, joined};
use vstd::prelude::*;

verus! {

/// The floor of a bucket is where the slowest of its readers has come: no reader is behind
/// it, one is right at it, and that one is named as the slowest. A reader without a record
/// is at zero.
pub proof fn law_floor_is_the_slowest_reader(
    f: MvFloor,
    bucket_count: i32,
    readers: Seq<(String, ())>,
    marks: Map<(Seq<char>, int), i64>,
    bucket: int,
    reader: int,
)
    requires
        is_mv_floor(Some(f), Some(bucket_count), readers, marks),
        0 <= bucket < bucket_count,
        0 <= reader < readers.len(),
    ensures
        f.per_bucket@.dom().contains(bucket),
        f.slowest@.dom().contains(bucket),
        marks.dom().contains((readers[reader].0@, bucket)) ==> f.per_bucket@[bucket] <= marks[(
            readers[reader].0@,
            bucket,
        )],
        !marks.dom().contains((readers[reader].0@, bucket)) ==> f.per_bucket@[bucket] <= 0,
        exists|i: int| 0 <= i < readers.len() && (#[trigger] readers[i]).0@ == f.slowest@[bucket]@,
        marks.dom().contains((f.slowest@[bucket]@, bucket)) ==> f.per_bucket@[bucket] == marks[(
            f.slowest@[bucket]@,
            bucket,
        )],
        !marks.dom().contains((f.slowest@[bucket]@, bucket)) ==> f.per_bucket@[bucket] == 0,
{
    assert(crate::mv_floor::holds_floor(
        readers,
        marks,
        bucket,
        f.per_bucket@[bucket] as int,
        f.slowest@[bucket]@,
    ));
    assert(f.per_bucket@[bucket] <= position(marks, readers[reader].0@, bucket));
}

/// There is a floor exactly where the table is a stream and somebody reads it; it covers
/// each of the stream's buckets and no other.
pub proof fn law_when_there_is_a_floor(
    f: Option<MvFloor>,
    bucket_count: Option<i32>,
    readers: Seq<(String, ())>,
    marks: Map<(Seq<char>, int), i64>,
    bucket: int,
)
    requires
        is_mv_floor(f, bucket_count, readers, marks),
    ensures
        f is Some <==> bucket_count is Some && readers.len() > 0,
        f matches Some(floor) ==> (floor.per_bucket@.dom().contains(bucket) <==> 0 <= bucket
            < bucket_count->0),
{
}

/// The position of a view in a bucket is what the last row of it records.
pub proof fn law_last_record_is_the_position(
    rows: Seq<(String, i32, i64)>,
    row: (String, i32, i64),
    other: (Seq<char>, int),
)
    ensures
        marks_of(rows.push(row)).dom().contains((row.0@, row.1 as int)),
        marks_of(rows.push(row))[(row.0@, row.1 as int)] == row.2,
        other != (row.0@, row.1 as int) ==> marks_of(rows.push(row)).dom().contains(other)
            == marks_of(rows).dom().contains(other) && marks_of(rows.push(row))[other] == marks_of(
            rows,
        )[other],
        marks_of(Seq::empty()).dom().len() == 0,
{
    assert(rows.push(row).drop_last() =~= rows);
}

/// The clause of a bucket names the bucket and the offset that rows must be below.
pub proof fn law_clause_of_a_bucket(bucket: i32, offset: i64)
    ensures
        clause_text(bucket, offset) == "(loom_bucket = "@ + int_text(bucket as int)
            + " and loom_offset < "@ + int_text(offset as int) + ")"@,
{
}

/// The predicate below a floor that holds everything is false; otherwise its clauses are
/// joined by `or`, one for each bucket with a floor above zero, in their order.
pub proof fn law_predicate_joins_its_clauses(entries: Seq<(i32, i64)>, e: (i32, i64))
    ensures
        floor_clauses(Seq::<(i32, i64)>::empty()).len() == 0,
        e.1 > 0 ==> floor_clauses(entries.push(e)) == floor_clauses(entries).push(clause_text(e.0, e.1)),
        e.1 <= 0 ==> floor_clauses(entries.push(e)) == floor_clauses(entries),
        floor_clauses(entries).len() == 0 ==> floor_pred(entries) == "false"@,
        floor_clauses(entries).len() > 0 ==> floor_pred(entries) == "("@ + joined(
            floor_clauses(entries),
            " or "@,
        ) + ")"@,
{
    assert(entries.push(e).drop_last() =~= entries);
}

/// What is reclaimed are rows that had ended by a snapshot, and, where there is a floor,
/// only those below it.
pub proof fn law_reclaiming_spares_the_unread(floor: &MvFloor, tid: int)
    ensures
        reclaim_text(None, tid) == "delete from "@ + ("iceberg_mirror.inline_"@ + int_text(tid))
            + " where end_snapshot is not null and end_snapshot <= $1"@,
        reclaim_text(Some(floor), tid) == reclaim_text(None, tid) + " and "@ + floor_pred(
            floor.per_bucket.entries@,
        ),
{
}

/// The bound for files is the smallest floor of any bucket, and zero without buckets.
pub proof fn law_least_floor(m: Map<int, i64>, least: int, bucket: int)
    requires
        is_least(m, least),
    ensures
        m.dom().contains(bucket) ==> least <= m[bucket] && exists|b: int| #[trigger]
            m.dom().contains(b) && m[b] == least,
        (forall|b: int| !#[trigger] m.dom().contains(b)) ==> least == 0,
{
}

/// A view starts, in a bucket, no later than any inline row of it, no later than any file
/// that may hold rows of it, and at zero or before where something survives that has no
/// place.
pub proof fn law_start_is_before_all_that_survives(
    start: int,
    bucket: int,
    next: int,
    inline: Seq<(i32, i64)>,
    unframed: bool,
    files: Seq<FileBounds>,
    i: int,
)
    requires
        is_start(start, bucket, next, inline, unframed, files),
    ensures
        0 <= i < inline.len() && inline[i].0 == bucket ==> start <= inline[i].1,
        unframed ==> start <= 0,
        0 <= i < files.len() && files[i].off_min is None ==> start <= 0,
        0 <= i < files.len() && files[i].off_min is Some && !(files[i].bkt_min is Some
            && files[i].bkt_max is Some && files[i].bkt_min->0 == files[i].bkt_max->0) ==> start
            <= files[i].off_min->0,
        0 <= i < files.len() && files[i].off_min is Some && files[i].bkt_min == Some(bucket as i32)
            && 0 <= bucket <= i32::MAX ==> start <= files[i].off_min->0,
{
    if 0 <= i < inline.len() && inline[i].0 == bucket {
        assert(known_at(inline[i].1 as int, bucket, inline, unframed, files));
    }
    if unframed {
        assert(known_at(0, bucket, inline, unframed, files));
    }
    if 0 <= i < files.len() {
        let f = files[i];
        if f.off_min is None {
            assert(known_at(0, bucket, inline, unframed, files));
        } else if !(f.bkt_min is Some && f.bkt_max is Some && f.bkt_min->0 == f.bkt_max->0) || (f.bkt_min
            == Some(bucket as i32) && 0 <= bucket <= i32::MAX) {
            assert(known_at(f.off_min->0 as int, bucket, inline, unframed, files));
        }
    }
}

/// A view does not start earlier than it must: it starts at a row that survives, or at zero
/// where something survives that has no place, or else at the offset that comes next.
pub proof fn law_start_is_no_earlier_than_it_must(
    start: int,
    bucket: int,
    next: int,
    inline: Seq<(i32, i64)>,
    unframed: bool,
    files: Seq<FileBounds>,
)
    requires
        is_start(start, bucket, next, inline, unframed, files),
    ensures
        start == next || start == 0 || (exists|i: int|
            0 <= i < inline.len() && (#[trigger] inline[i]).0 == bucket && inline[i].1 == start) || (exists|
            i: int,
        | 0 <= i < files.len() && (#[trigger] files[i]).off_min == Some(start as i64)),
{
    if known_at(start, bucket, inline, unframed, files) {
        if !(exists|i: int| 0 <= i < inline.len() && (#[trigger] inline[i]).0 == bucket && inline[i].1 == start)
            && !(unframed && start == 0) {
            let i = choose|i: int|
                0 <= i < files.len() && match (#[trigger] files[i]).off_min {
                    None => start == 0,
                    Some(off) => off == start && (crate::mv_bootstrap::single_bucket(files[i])
                        ==> files[i].bkt_min->0 == bucket),
                };
            if files[i].off_min is Some {
                assert(files[i].off_min == Some(start as i64));
            }
        }
    }
}

/// A bound is only ever lowered: a bucket gets the smaller of what it had and what is
/// offered, or what is offered where it had none, and no other bucket changes.
pub proof fn law_bounds_are_lowered(m: Map<int, i64>, bucket: int, v: i64, other: int)
    ensures
        lowered(m, bucket, v).dom().contains(bucket),
        !m.dom().contains(bucket) ==> lowered(m, bucket, v)[bucket] == v,
        m.dom().contains(bucket) && m[bucket] <= v ==> lowered(m, bucket, v)[bucket] == m[bucket],
        m.dom().contains(bucket) && m[bucket] > v ==> lowered(m, bucket, v)[bucket] == v,
        other != bucket ==> lowered(m, bucket, v).dom().contains(other) == m.dom().contains(other)
            && lowered(m, bucket, v)[other] == m[other],
{
}

/// A survey asks for the next offset of each bucket in turn, then whether there is inline
/// storage, then, only where there is, for its rows and for rows without a place, and last
/// for the files.
pub proof fn law_what_a_survey_asks(s: Survey)
    requires
        s.wf(),
    ensures
        s.peeks@.len() < s.buckets ==> (s.pending() matches SurveyRead::Peek { bucket } && bucket
            == s.peeks@.len()),
        s.peeks@.len() >= s.buckets && s.stored is None ==> s.pending() is InlineTable,
        s.peeks@.len() >= s.buckets && s.stored == Some(true) && s.inline is None ==> s.pending()
            is InlineRows,
        s.peeks@.len() >= s.buckets && s.stored == Some(true) && s.inline is Some && s.unframed is None
            ==> s.pending() is Unframed,
        s.peeks@.len() >= s.buckets && s.stored == Some(false) && s.files is None ==> s.pending() is Files,
        s.pending() is Done ==> s.files is Some && s.stored is Some && (s.stored == Some(true)
            ==> s.inline is Some && s.unframed is Some),
{
}

/// A survey takes the answer to what it asked, and only that.
pub proof fn law_survey_takes_its_answer(s: Survey, after: Survey, next: i64, rows: Vec<(i32, i64)>)
    ensures
        answered(s, SurveyAnswer::Peeked(next), after) && s.pending() is Peek ==> after.peeks@
            == s.peeks@.push(next) && after.stored == s.stored && after.inline == s.inline
            && after.unframed == s.unframed && after.files == s.files,
        answered(s, SurveyAnswer::Peeked(next), after) && !(s.pending() is Peek) ==> after == s,
        answered(s, SurveyAnswer::InlineRows(rows), after) && s.pending() is InlineRows
            ==> found_inline(after) == rows@ && after.peeks == s.peeks && after.files == s.files,
        answered(s, SurveyAnswer::InlineRows(rows), after) && !(s.pending() is InlineRows) ==> after == s,
{
}

} // verus!
