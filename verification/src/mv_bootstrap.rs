//! Where a newly registered materialized view starts to read a stream: at the
//! earliest offset that may survive, rounded down and never up.
use crate::ordered::{lemma_entry, lemma_position, position_of, OrderedMap};
use vstd::prelude::*;

verus! {

/// The smaller of two integers.
pub open spec fn smaller(a: int, b: int) -> int {
    if a < b {
        a
    } else {
        b
    }
}

/// Lowers a bound to `v`, or sets it.
pub fn lower(slot: &mut Option<i64>, v: i64)
    ensures
        *final(slot) == (match *old(slot) {
            Some(cur) => if cur <= v {
                Some(cur)
            } else {
                Some(v)
            },
            None => Some(v),
        }),
{
    let lowered: i64 = match *slot {
        Some(cur) => if cur <= v {
            cur
        } else {
            v
        },
        None => v,
    };
    *slot = Some(lowered);
}

/// A bucket's bound in `m` lowered to `v`, or set.
pub open spec fn lowered(m: Map<int, i64>, bucket: int, v: i64) -> Map<int, i64> {
    if m.dom().contains(bucket) && m[bucket] <= v {
        m
    } else {
        m.insert(bucket, v)
    }
}

/// Lowers the bound of one bucket to `v`, or sets it.
pub fn lower_exact(map: &mut OrderedMap<i32, i64>, bucket: i32, v: i64)
    requires
        old(map).wf(),
    ensures
        final(map).wf(),
        final(map)@ == lowered(old(map)@, bucket as int, v),
{
    let keep: bool = match map.get(&bucket) {
        Some(cur) => *cur <= v,
        None => false,
    };
    if !keep {
        map.insert(bucket, v);
    }
}

/// What is known of a live file: its smallest offset and the range of its buckets.
#[derive(Clone, Copy, Debug, PartialEq, Eq, Structural)]
pub struct FileBounds {
    pub off_min: Option<i64>,
    pub bkt_min: Option<i32>,
    pub bkt_max: Option<i32>,
}

/// The file's rows are of one bucket, as far as its bounds tell.
pub open spec fn single_bucket(f: FileBounds) -> bool {
    f.bkt_min is Some && f.bkt_max is Some && f.bkt_min->0 == f.bkt_max->0
}

/// `start` is at most every surviving offset of the bucket that is known of: the
/// bucket's inline rows, the files of the bucket, the files across buckets, and zero
/// where something survives that cannot be placed.
pub open spec fn bounded_by_known(
    start: int,
    bucket: int,
    inline: Seq<(i32, i64)>,
    unframed: bool,
    files: Seq<FileBounds>,
) -> bool {
    &&& forall|i: int| 0 <= i < inline.len() && (#[trigger] inline[i]).0 == bucket ==> start <= inline[i].1
    &&& unframed ==> start <= 0
    &&& forall|i: int|
        0 <= i < files.len() ==> match (#[trigger] files[i]).off_min {
            None => start <= 0,
            Some(off) => single_bucket(files[i]) && files[i].bkt_min->0 != bucket || start <= off,
        }
}

/// Something is known to survive in the bucket, or cannot be placed and may be in
/// it, with `start` the offset that it stands for.
pub open spec fn known_at(
    start: int,
    bucket: int,
    inline: Seq<(i32, i64)>,
    unframed: bool,
    files: Seq<FileBounds>,
) -> bool {
    ||| exists|i: int| 0 <= i < inline.len() && (#[trigger] inline[i]).0 == bucket && inline[i].1 == start
    ||| unframed && start == 0
    ||| exists|i: int|
        0 <= i < files.len() && match (#[trigger] files[i]).off_min {
            None => start == 0,
            Some(off) => off == start && (single_bucket(files[i]) ==> files[i].bkt_min->0 == bucket),
        }
}

/// The start of a bucket: the smallest known offset, or, where nothing is known to
/// survive, the offset that comes next.
pub open spec fn is_start(
    start: int,
    bucket: int,
    next: int,
    inline: Seq<(i32, i64)>,
    unframed: bool,
    files: Seq<FileBounds>,
) -> bool {
    if exists|n: int| known_at(n, bucket, inline, unframed, files) {
        known_at(start, bucket, inline, unframed, files) && bounded_by_known(
            start,
            bucket,
            inline,
            unframed,
            files,
        )
    } else {
        start == next
    }
}

/// What the bounds gathered so far say: `exact` for each bucket, `cross` for all.
spec fn gathered(
    exact: Map<int, i64>,
    cross: Option<i64>,
    inline: Seq<(i32, i64)>,
    unframed: bool,
    files: Seq<FileBounds>,
) -> bool {
    forall|b: int| #[trigger] gathered_in(b, exact, cross, inline, unframed, files)
}

spec fn gathered_in(
    b: int,
    exact: Map<int, i64>,
    cross: Option<i64>,
    inline: Seq<(i32, i64)>,
    unframed: bool,
    files: Seq<FileBounds>,
) -> bool {
    &&& exact.dom().contains(b) ==> known_at(exact[b] as int, b, inline, unframed, files)
    &&& cross is Some ==> known_at(cross->0 as int, b, inline, unframed, files)
    &&& forall|n: int| #[trigger]
        known_at(n, b, inline, unframed, files) ==> (exact.dom().contains(b) && exact[b] <= n) || (
        cross is Some && cross->0 <= n)
}

/// Where a view starts in each bucket of a stream. `peeks` holds for each bucket the
/// offset that comes next, read before anything else; `inline` the smallest offset
/// of live inline rows by bucket; `unframed` whether a live inline row has no bucket
/// or no offset; `files` the bounds of the live files.
pub fn earliest_surviving_offsets(
    peeks: &OrderedMap<i32, i64>,
    inline: &Vec<(i32, i64)>,
    unframed: bool,
    files: &Vec<FileBounds>,
) -> (r: OrderedMap<i32, i64>)
    requires
        peeks.wf(),
    ensures
        r.wf(),
        r@.dom() == peeks@.dom(),
        forall|b: int| #[trigger]
            peeks@.dom().contains(b) ==> is_start(
                r@[b] as int,
                b,
                peeks@[b] as int,
                inline@,
                unframed,
                files@,
            ),
{
    let mut exact: OrderedMap<i32, i64> = OrderedMap::new();
    let mut cross: Option<i64> = None;
    let ghost none = Seq::<FileBounds>::empty();
    let mut i: usize = 0;
    assert(gathered(exact@, cross, inline@.take(0), false, none));
    while i < inline.len()
        invariant
            i <= inline@.len(),
            exact.wf(),
            cross is None,
            none == Seq::<FileBounds>::empty(),
            gathered(exact@, cross, inline@.take(i as int), false, none),
        decreases inline@.len() - i,
    {
        let ghost before = exact@;
        let ghost a = inline@.take(i as int);
        let ghost c = inline@.take(i + 1);
        lower_exact(&mut exact, inline[i].0, inline[i].1);
        proof {
            assert forall|b: int| #[trigger] gathered_in(b, exact@, cross, c, false, none) by {
                assert(gathered_in(b, before, cross, a, false, none));
                assert(c[i as int] == inline@[i as int]);
                assert forall|n: int| #[trigger] known_at(n, b, c, false, none) implies (
                exact@.dom().contains(b) && exact@[b] <= n) || (cross is Some && cross->0 <= n) by {
                    let k = choose|k: int| 0 <= k < c.len() && (#[trigger] c[k]).0 == b && c[k].1 == n;
                    if k < i {
                        assert(a[k] == c[k]);
                        assert(known_at(n, b, a, false, none));
                    }
                }
                if before.dom().contains(b) {
                    let n = before[b] as int;
                    assert(known_at(n, b, a, false, none));
                    let k = choose|k: int| 0 <= k < a.len() && (#[trigger] a[k]).0 == b && a[k].1 == n;
                    assert(c[k] == a[k]);
                    assert(known_at(n, b, c, false, none));
                }
                if exact@.dom().contains(b) && !(before.dom().contains(b) && before[b] == exact@[b]) {
                    assert(c[i as int].0 == b && c[i as int].1 == exact@[b]);
                }
            }
        }
        i = i + 1;
    }
    assert(inline@.take(i as int) =~= inline@);
    let ghost framed = exact@;
    if unframed {
        lower(&mut cross, 0);
    }
    proof {
        assert forall|b: int| #[trigger] gathered_in(b, exact@, cross, inline@, unframed, none) by {
            assert(gathered_in(b, framed, None, inline@, false, none));
            assert forall|n: int| #[trigger] known_at(n, b, inline@, unframed, none) implies (
            exact@.dom().contains(b) && exact@[b] <= n) || (cross is Some && cross->0 <= n) by {
                if !(unframed && n == 0) {
                    assert(known_at(n, b, inline@, false, none));
                }
            }
            if exact@.dom().contains(b) {
                assert(known_at(exact@[b] as int, b, inline@, false, none));
                assert(known_at(exact@[b] as int, b, inline@, unframed, none));
            }
        }
    }
    let mut f: usize = 0;
    assert(files@.take(0) =~= none);
    while f < files.len()
        invariant
            f <= files@.len(),
            exact.wf(),
            gathered(exact@, cross, inline@, unframed, files@.take(f as int)),
        decreases files@.len() - f,
    {
        let ghost before = exact@;
        let ghost wide = cross;
        let ghost a = files@.take(f as int);
        let ghost c = files@.take(f + 1);
        let file: FileBounds = files[f];
        match file.off_min {
            None => {
                lower(&mut cross, 0);
            },
            Some(off) => {
                let single: Option<i32> = match (file.bkt_min, file.bkt_max) {
                    (Some(lo), Some(hi)) => if lo == hi {
                        Some(lo)
                    } else {
                        None
                    },
                    _ => None,
                };
                match single {
                    Some(lo) => {
                        lower_exact(&mut exact, lo, off);
                    },
                    None => {
                        lower(&mut cross, off);
                    },
                }
            },
        }
        proof {
            assert(c[f as int] == file);
            assert forall|b: int| #[trigger] gathered_in(b, exact@, cross, inline@, unframed, c) by {
                assert(gathered_in(b, before, wide, inline@, unframed, a));
                lemma_one_more_file(b, inline@, unframed, files@, f as int);
                assert forall|n: int| #[trigger] known_at(n, b, inline@, unframed, c) implies (
                exact@.dom().contains(b) && exact@[b] <= n) || (cross is Some && cross->0 <= n) by {
                    if known_at(n, b, inline@, unframed, a) {
                    }
                }
                if before.dom().contains(b) {
                    assert(known_at(before[b] as int, b, inline@, unframed, c));
                }
                if wide is Some {
                    assert(known_at(wide->0 as int, b, inline@, unframed, c));
                }
            }
        }
        f = f + 1;
    }
    assert(files@.take(f as int) =~= files@);
    let mut out: OrderedMap<i32, i64> = OrderedMap::new();
    let entries: &Vec<(i32, i64)> = &peeks.entries;
    let mut p: usize = 0;
    while p < entries.len()
        invariant
            p <= entries@.len(),
            peeks.wf(),
            *entries == peeks.entries,
            exact.wf(),
            out.wf(),
            gathered(exact@, cross, inline@, unframed, files@),
            forall|b: int| #[trigger]
                out@.dom().contains(b) <==> exists|k: int|
                    0 <= k < p && (#[trigger] entries@[k]).0 == b,
            forall|k: int|
                0 <= k < p ==> is_start(
                    out@[(#[trigger] entries@[k]).0 as int] as int,
                    entries@[k].0 as int,
                    entries@[k].1 as int,
                    inline@,
                    unframed,
                    files@,
                ),
        decreases entries@.len() - p,
    {
        let bucket: i32 = entries[p].0;
        let next: i64 = entries[p].1;
        let mut candidate: Option<i64> = cross;
        match exact.get(&bucket) {
            Some(v) => {
                lower(&mut candidate, *v);
            },
            None => {},
        }
        let start: i64 = match candidate {
            Some(v) => v,
            None => next,
        };
        let ghost before = out@;
        out.insert(bucket, start);
        proof {
            assert(gathered_in(bucket as int, exact@, cross, inline@, unframed, files@));
            lemma_start(start as int, bucket as int, next as int, exact@, cross, inline@, unframed, files@);
            assert forall|k: int| 0 <= k < p + 1 implies is_start(
                out@[(#[trigger] entries@[k]).0 as int] as int,
                entries@[k].0 as int,
                entries@[k].1 as int,
                inline@,
                unframed,
                files@,
            ) by {
                if k < p {
                    lemma_entry(entries@, k);
                    lemma_entry(entries@, p as int);
                    assert(entries@[k].0 != bucket);
                }
            }
            assert forall|b: int| #[trigger]
                out@.dom().contains(b) <==> exists|k: int|
                    0 <= k < p + 1 && (#[trigger] entries@[k]).0 == b by {
                if b == bucket {
                    assert(entries@[p as int].0 == b);
                }
                if before.dom().contains(b) {
                    let k = choose|k: int| 0 <= k < p && (#[trigger] entries@[k]).0 == b;
                    assert(entries@[k].0 == b);
                }
            }
        }
        p = p + 1;
    }
    proof {
        assert forall|b: int| peeks@.dom().contains(b) == out@.dom().contains(b) by {
            if peeks@.dom().contains(b) {
                lemma_position(entries@, b);
                let k = position_of(entries@, b);
                assert(entries@[k].0 == b);
            }
            if out@.dom().contains(b) {
                let k = choose|k: int| 0 <= k < entries@.len() && (#[trigger] entries@[k]).0 == b;
                lemma_entry(entries@, k);
            }
        }
        assert(out@.dom() =~= peeks@.dom());
        assert forall|b: int| #[trigger] peeks@.dom().contains(b) implies is_start(
            out@[b] as int,
            b,
            peeks@[b] as int,
            inline@,
            unframed,
            files@,
        ) by {
            lemma_position(entries@, b);
            let k = position_of(entries@, b);
            assert(entries@[k].0 == b);
        }
    }
    out
}

/// What is known with one more file: what was known, and what that file stands for.
proof fn lemma_one_more_file(b: int, inline: Seq<(i32, i64)>, unframed: bool, files: Seq<FileBounds>, f: int)
    requires
        0 <= f < files.len(),
    ensures
        forall|n: int| #[trigger]
            known_at(n, b, inline, unframed, files.take(f + 1)) <==> known_at(
                n,
                b,
                inline,
                unframed,
                files.take(f),
            ) || match files[f].off_min {
                None => n == 0,
                Some(off) => off == n && (single_bucket(files[f]) ==> files[f].bkt_min->0 == b),
            },
{
    let a = files.take(f);
    let c = files.take(f + 1);
    assert forall|n: int| #[trigger]
        known_at(n, b, inline, unframed, c) <==> known_at(n, b, inline, unframed, a)
            || match files[f].off_min {
            None => n == 0,
            Some(off) => off == n && (single_bucket(files[f]) ==> files[f].bkt_min->0 == b),
        } by {
        assert(c[f] == files[f]);
        if exists|i: int|
            0 <= i < a.len() && match (#[trigger] a[i]).off_min {
                None => n == 0,
                Some(off) => off == n && (single_bucket(a[i]) ==> a[i].bkt_min->0 == b),
            } {
            let i = choose|i: int|
                0 <= i < a.len() && match (#[trigger] a[i]).off_min {
                    None => n == 0,
                    Some(off) => off == n && (single_bucket(a[i]) ==> a[i].bkt_min->0 == b),
                };
            assert(c[i] == a[i]);
        }
        if exists|i: int|
            0 <= i < c.len() && match (#[trigger] c[i]).off_min {
                None => n == 0,
                Some(off) => off == n && (single_bucket(c[i]) ==> c[i].bkt_min->0 == b),
            } {
            let i = choose|i: int|
                0 <= i < c.len() && match (#[trigger] c[i]).off_min {
                    None => n == 0,
                    Some(off) => off == n && (single_bucket(c[i]) ==> c[i].bkt_min->0 == b),
                };
            if i < f {
                assert(a[i] == c[i]);
            }
        }
    }
}

/// The smaller of the gathered bounds is the start.
proof fn lemma_start(
    start: int,
    b: int,
    next: int,
    exact: Map<int, i64>,
    cross: Option<i64>,
    inline: Seq<(i32, i64)>,
    unframed: bool,
    files: Seq<FileBounds>,
)
    requires
        gathered_in(b, exact, cross, inline, unframed, files),
        start == (match cross {
            Some(c) => if exact.dom().contains(b) {
                smaller(c as int, exact[b] as int)
            } else {
                c as int
            },
            None => if exact.dom().contains(b) {
                exact[b] as int
            } else {
                next
            },
        }),
    ensures
        is_start(start, b, next, inline, unframed, files),
{
    if exact.dom().contains(b) || cross is Some {
        assert(known_at(start, b, inline, unframed, files));
        assert forall|i: int| 0 <= i < inline.len() && (#[trigger] inline[i]).0 == b implies start
            <= inline[i].1 by {
            assert(known_at(inline[i].1 as int, b, inline, unframed, files));
        }
        if unframed {
            assert(known_at(0, b, inline, unframed, files));
        }
        assert forall|i: int| 0 <= i < files.len() implies match (#[trigger] files[i]).off_min {
            None => start <= 0,
            Some(off) => single_bucket(files[i]) && files[i].bkt_min->0 != b || start <= off,
        } by {
            match files[i].off_min {
                None => {
                    assert(known_at(0, b, inline, unframed, files));
                },
                Some(off) => {
                    if !(single_bucket(files[i]) && files[i].bkt_min->0 != b) {
                        assert(known_at(off as int, b, inline, unframed, files));
                    }
                },
            }
        }
    }
}

/// A start is never above an offset that is known to survive in its bucket: the
/// view skips no live row.
pub proof fn law_start_skips_nothing(
    start: int,
    bucket: int,
    next: int,
    inline: Seq<(i32, i64)>,
    unframed: bool,
    files: Seq<FileBounds>,
    offset: int,
)
    requires
        is_start(start, bucket, next, inline, unframed, files),
        known_at(offset, bucket, inline, unframed, files),
    ensures
        start <= offset,
{
    if exists|i: int|
        0 <= i < files.len() && match (#[trigger] files[i]).off_min {
            None => offset == 0,
            Some(off) => off == offset && (single_bucket(files[i]) ==> files[i].bkt_min->0 == bucket),
        } {
    }
}

/// Where nothing survives, the view starts at what comes next.
pub proof fn law_empty_bucket_starts_at_next(bucket: int, next: int, start: int)
    requires
        is_start(start, bucket, next, Seq::empty(), false, Seq::empty()),
    ensures
        start == next,
{
    assert(!exists|n: int| known_at(n, bucket, Seq::empty(), false, Seq::empty()));
}

/// Some bucket starts behind its first offset.
pub open spec fn starts_behind(starts: Map<int, i64>) -> bool {
    exists|b: int| #[trigger] starts.dom().contains(b) && starts[b] > 0
}

/// Whether the prefix of a stream is gone for a new view: some bucket starts above
/// zero.
pub fn prefix_is_gone(starts: &OrderedMap<i32, i64>) -> (r: bool)
    requires
        starts.wf(),
    ensures
        r == starts_behind(starts@),
{
    let entries: &Vec<(i32, i64)> = &starts.entries;
    let mut i: usize = 0;
    while i < entries.len()
        invariant
            i <= entries@.len(),
            starts.wf(),
            *entries == starts.entries,
            forall|j: int| 0 <= j < i ==> (#[trigger] entries@[j]).1 <= 0,
        decreases entries@.len() - i,
    {
        if entries[i].1 > 0 {
            proof {
                lemma_entry(entries@, i as int);
                assert(starts@.dom().contains(entries@[i as int].0 as int));
            }
            return true;
        }
        i = i + 1;
    }
    proof {
        assert forall|b: int| #[trigger] starts@.dom().contains(b) implies starts@[b] <= 0 by {
            lemma_position(entries@, b);
        }
    }
    false
}

/// What finding where each bucket of a stream starts reads next.
pub enum SurveyRead {
    /// The offset that comes next in a bucket.
    Peek { bucket: i32 },
    /// Whether the table has a place for inline rows.
    InlineTable,
    /// The smallest offset of the live inline rows of each bucket.
    InlineRows,
    /// Whether a live inline row has no bucket or no offset.
    Unframed,
    /// The bounds of the live files.
    Files,
    /// Nothing: the starts are known.
    Done,
}

/// What a read found.
pub enum SurveyAnswer {
    Peeked(i64),
    InlineTable(bool),
    InlineRows(Vec<(i32, i64)>),
    Unframed(bool),
    Files(Vec<FileBounds>),
}

/// What is known so far of where the buckets of a stream start. Others write while it is
/// found out, so the order of the reads matters. A bucket of which nothing is found
/// starts at the offset that came next in it, which is safe only where that was read
/// before any row that is not found was written. And rows move from the inline tier to
/// files and never back, so they are looked for there first.
pub struct Survey {
    pub buckets: i32,
    pub peeks: Vec<i64>,
    pub stored: Option<bool>,
    pub inline: Option<Vec<(i32, i64)>>,
    pub unframed: Option<bool>,
    pub files: Option<Vec<FileBounds>>,
}

/// The place of a read in the order of the reads: the next offsets of all buckets, the
/// inline tier, the files.
pub open spec fn turn(read: SurveyRead) -> int {
    match read {
        SurveyRead::Peek { .. } => 0,
        SurveyRead::InlineTable => 1,
        SurveyRead::InlineRows => 2,
        SurveyRead::Unframed => 3,
        SurveyRead::Files => 4,
        SurveyRead::Done => 5,
    }
}

/// The inline rows that a survey found.
pub open spec fn found_inline(s: Survey) -> Seq<(i32, i64)> {
    match s.inline {
        Some(rows) => rows@,
        None => Seq::empty(),
    }
}

/// What a survey knows once `answer` has come: an answer to what was asked is taken, any
/// other is not.
pub open spec fn answered(s: Survey, answer: SurveyAnswer, after: Survey) -> bool {
    match (s.pending(), answer) {
        (SurveyRead::Peek { .. }, SurveyAnswer::Peeked(next)) => after.peeks@ == s.peeks@.push(next)
            && after == (Survey { peeks: after.peeks, ..s }),
        (SurveyRead::InlineTable, SurveyAnswer::InlineTable(there)) => after == (Survey {
            stored: Some(there),
            ..s
        }),
        (SurveyRead::InlineRows, SurveyAnswer::InlineRows(rows)) => after == (Survey {
            inline: Some(rows),
            ..s
        }),
        (SurveyRead::Unframed, SurveyAnswer::Unframed(some)) => after == (Survey {
            unframed: Some(some),
            ..s
        }),
        (SurveyRead::Files, SurveyAnswer::Files(files)) => after == (Survey {
            files: Some(files),
            ..s
        }),
        _ => after == s,
    }
}

impl Survey {
    /// No more buckets were asked for than there are.
    pub open spec fn wf(&self) -> bool {
        self.buckets <= 0 && self.peeks@.len() == 0 || self.peeks@.len() <= self.buckets
    }

    /// What is read next.
    pub open spec fn pending(&self) -> SurveyRead {
        if self.peeks@.len() < self.buckets {
            SurveyRead::Peek { bucket: self.peeks@.len() as i32 }
        } else if self.stored is None {
            SurveyRead::InlineTable
        } else if self.stored->0 && self.inline is None {
            SurveyRead::InlineRows
        } else if self.stored->0 && self.unframed is None {
            SurveyRead::Unframed
        } else if self.files is None {
            SurveyRead::Files
        } else {
            SurveyRead::Done
        }
    }

    /// A survey of a stream of which nothing is known yet.
    pub fn new(buckets: i32) -> (r: Self)
        ensures
            r.wf(),
            r.buckets == buckets,
            r.peeks@.len() == 0,
            r.stored is None,
            r.inline is None,
            r.unframed is None,
            r.files is None,
    {
        Survey {
            buckets,
            peeks: Vec::new(),
            stored: None,
            inline: None,
            unframed: None,
            files: None,
        }
    }

    /// What is read next: the next offset of every bucket in turn, then the inline tier,
    /// then the files.
    pub fn next_read(&self) -> (r: SurveyRead)
        requires
            self.wf(),
        ensures
            r == self.pending(),
    {
        if self.buckets > 0 && self.peeks.len() < self.buckets as usize {
            return SurveyRead::Peek { bucket: self.peeks.len() as i32 };
        }
        match self.stored {
            None => SurveyRead::InlineTable,
            Some(there) => {
                if there && self.inline.is_none() {
                    SurveyRead::InlineRows
                } else if there && self.unframed.is_none() {
                    SurveyRead::Unframed
                } else if self.files.is_none() {
                    SurveyRead::Files
                } else {
                    SurveyRead::Done
                }
            },
        }
    }

    /// Takes what the read found.
    pub fn answer(&mut self, answer: SurveyAnswer)
        requires
            old(self).wf(),
        ensures
            final(self).wf(),
            answered(*old(self), answer, *final(self)),
    {
        match (self.next_read(), answer) {
            (SurveyRead::Peek { .. }, SurveyAnswer::Peeked(next)) => {
                self.peeks.push(next);
            },
            (SurveyRead::InlineTable, SurveyAnswer::InlineTable(there)) => {
                self.stored = Some(there);
            },
            (SurveyRead::InlineRows, SurveyAnswer::InlineRows(rows)) => {
                self.inline = Some(rows);
            },
            (SurveyRead::Unframed, SurveyAnswer::Unframed(some)) => {
                self.unframed = Some(some);
            },
            (SurveyRead::Files, SurveyAnswer::Files(files)) => {
                self.files = Some(files);
            },
            _ => {},
        }
    }

    /// Where a view starts in each bucket.
    pub fn starts(&self) -> (r: OrderedMap<i32, i64>)
        requires
            self.wf(),
            self.pending() is Done,
        ensures
            r.wf(),
            forall|b: int| #[trigger] r@.dom().contains(b) <==> 0 <= b < self.buckets,
            forall|b: int|
                0 <= b < self.buckets ==> is_start(
                    #[trigger] r@[b] as int,
                    b,
                    self.peeks@[b] as int,
                    found_inline(*self),
                    self.unframed == Some(true),
                    self.files->0@,
                ),
    {
        let mut peeks: OrderedMap<i32, i64> = OrderedMap::new();
        let mut i: usize = 0;
        while i < self.peeks.len()
            invariant
                self.wf(),
                i <= self.peeks@.len(),
                peeks.wf(),
                forall|b: int| #[trigger] peeks@.dom().contains(b) <==> 0 <= b < i,
                forall|b: int| 0 <= b < i ==> #[trigger] peeks@[b] == self.peeks@[b],
            decreases self.peeks@.len() - i,
        {
            peeks.insert(i as i32, self.peeks[i]);
            i = i + 1;
        }
        let none: Vec<(i32, i64)> = Vec::new();
        let inline: &Vec<(i32, i64)> = match &self.inline {
            Some(rows) => rows,
            None => &none,
        };
        assert(inline@ =~= found_inline(*self));
        let unframed: bool = match self.unframed {
            Some(some) => some,
            None => false,
        };
        match &self.files {
            Some(files) => {
                let starts: OrderedMap<i32, i64> = earliest_surviving_offsets(
                    &peeks,
                    inline,
                    unframed,
                    files,
                );
                assert forall|b: int| 0 <= b < self.buckets implies is_start(
                    #[trigger] starts@[b] as int,
                    b,
                    self.peeks@[b] as int,
                    found_inline(*self),
                    self.unframed == Some(true),
                    self.files->0@,
                ) by {
                    assert(peeks@.dom().contains(b));
                    assert(peeks@[b] == self.peeks@[b]);
                }
                starts
            },
            None => peeks,
        }
    }
}

/// However the answers come, the reads keep their order: once a survey reads something
/// other than the next offset of a bucket it has that of every bucket, and asks for none
/// again, and once it reads the files it does not go back to the inline tier.
pub proof fn law_reads_in_order(
    states: Seq<Survey>,
    answers: Seq<SurveyAnswer>,
    i: int,
    j: int,
)
    requires
        states.len() == answers.len() + 1,
        forall|k: int|
            0 <= k < answers.len() ==> answered(
                states[k],
                #[trigger] answers[k],
                states[k + 1],
            ),
        0 <= i <= j < states.len(),
    ensures
        turn(states[i].pending()) <= turn(states[j].pending()),
        states[i].pending() !is Peek ==> states[i].peeks@.len() >= states[i].buckets,
    decreases j,
{
    if i < j {
        law_reads_in_order(states, answers, i, j - 1);
        assert(answered(states[j - 1], answers[j - 1], states[j - 1 + 1]));
        lemma_turn_grows(states[j - 1], answers[j - 1], states[j]);
    }
}

proof fn lemma_turn_grows(s: Survey, answer: SurveyAnswer, after: Survey)
    requires
        answered(s, answer, after),
    ensures
        turn(s.pending()) <= turn(after.pending()),
{
}

/// Every answer that is taken brings a survey on: by one bucket, or to a later read.
pub proof fn law_answers_bring_on(s: Survey, answer: SurveyAnswer, after: Survey)
    requires
        s.wf(),
        answered(s, answer, after),
        after != s,
    ensures
        s.pending() is Peek && after.pending() is Peek ==> after.peeks@.len() == s.peeks@.len() + 1,
        !(s.pending() is Peek && after.pending() is Peek) ==> turn(s.pending()) < turn(
            after.pending(),
        ),
{
}

/// What registering a view against a source does next.
pub enum BootstrapStep {
    /// There is nothing to record.
    Nothing,
    /// Read how many buckets the source has.
    AskBuckets { tid: i64 },
    /// Find out where each bucket of the source starts, by a [`Survey`].
    AskStarts { tid: i64, bucket_count: i32 },
    /// Record these starts of the view, bucket by bucket, wherever it has no position
    /// yet; `gone` says that the view will not see what came before.
    Seed { tid: i64, starts: Vec<(i32, i64)>, gone: bool },
}

/// What registering a view against a source does next: `tid` is the source's number,
/// where it is live, and `bucket_count` what is recorded of it as a stream, where that
/// is known. A source that is not there, or is no stream, can have lost nothing.
pub fn bootstrap_mv_watermarks(
    tid: Option<i64>,
    bucket_count: Option<Option<i32>>,
    starts: Option<&OrderedMap<i32, i64>>,
) -> (r: BootstrapStep)
    requires
        starts matches Some(s) ==> s.wf(),
    ensures
        match (tid, bucket_count, starts) {
            (None, _, _) => r is Nothing,
            (Some(t), None, _) => r == (BootstrapStep::AskBuckets { tid: t }),
            (Some(_), Some(None), _) => r is Nothing,
            (Some(t), Some(Some(n)), None) => r == (BootstrapStep::AskStarts {
                tid: t,
                bucket_count: n,
            }),
            (Some(t), Some(Some(_)), Some(s)) => r matches BootstrapStep::Seed {
                tid: i,
                starts: listed,
                gone,
            } && i == t && listed@ == s.entries@ && gone == starts_behind(s@),
        },
{
    let t: i64 = match tid {
        None => {
            return BootstrapStep::Nothing;
        },
        Some(t) => t,
    };
    match bucket_count {
        None => BootstrapStep::AskBuckets { tid: t },
        Some(None) => BootstrapStep::Nothing,
        Some(Some(n)) => match starts {
            None => BootstrapStep::AskStarts { tid: t, bucket_count: n },
            Some(s) => {
                let mut listed: Vec<(i32, i64)> = Vec::new();
                let mut i: usize = 0;
                while i < s.entries.len()
                    invariant
                        i <= s.entries@.len(),
                        listed@ == s.entries@.take(i as int),
                    decreases s.entries@.len() - i,
                {
                    listed.push((s.entries[i].0, s.entries[i].1));
                    assert(listed@ =~= s.entries@.take(i + 1));
                    i = i + 1;
                }
                assert(listed@ =~= s.entries@);
                BootstrapStep::Seed { tid: t, starts: listed, gone: prefix_is_gone(s) }
            },
        },
    }
}

} // verus!
