//! The places of stream rows: which bucket a row is in, and which offset of it.
use vstd::arithmetic::div_mod::lemma_fundamental_div_mod_converse;
use vstd::prelude::*;

verus! {

/// How many of `buckets` are `b`.
pub open spec fn count_of(buckets: Seq<usize>, b: int) -> nat
    decreases buckets.len(),
{
    if buckets.len() == 0 {
        0
    } else if buckets.last() == b {
        count_of(buckets.drop_last(), b) + 1
    } else {
        count_of(buckets.drop_last(), b)
    }
}

/// How many rows before `row` are in its bucket.
pub open spec fn rank_of(buckets: Seq<usize>, row: int) -> nat {
    count_of(buckets.take(row), buckets[row] as int)
}

/// Every bucket is one of `bucket_count`.
pub open spec fn in_buckets(buckets: Seq<usize>, bucket_count: int) -> bool {
    forall|r: int| 0 <= r < buckets.len() ==> (#[trigger] buckets[r]) < bucket_count
}

/// Rows handed to the buckets in turn.
pub open spec fn in_turn(n: nat, bucket_count: int) -> Seq<usize> {
    Seq::new(n, |r: int| (r % bucket_count) as usize)
}

/// Rows handed to the buckets in turn.
pub fn round_robin(n: usize, bucket_count: usize) -> (r: Vec<usize>)
    requires
        bucket_count > 0,
    ensures
        r@ == in_turn(n as nat, bucket_count as int),
        in_buckets(r@, bucket_count as int),
{
    let mut out: Vec<usize> = Vec::new();
    let mut i: usize = 0;
    while i < n
        invariant
            i <= n,
            bucket_count > 0,
            out@ == in_turn(i as nat, bucket_count as int),
            in_buckets(out@, bucket_count as int),
        decreases n - i,
    {
        let b: usize = i % bucket_count;
        out.push(b);
        assert(out@ =~= in_turn((i + 1) as nat, bucket_count as int));
        i = i + 1;
    }
    out
}

/// How many rows each bucket gets.
pub fn bucket_counts(buckets: &Vec<usize>, bucket_count: usize) -> (r: Vec<i64>)
    requires
        in_buckets(buckets@, bucket_count as int),
        buckets@.len() <= i64::MAX,
    ensures
        r@.len() == bucket_count,
        forall|b: int| 0 <= b < bucket_count ==> #[trigger] r@[b] == count_of(buckets@, b),
{
    let mut counts: Vec<i64> = Vec::new();
    let mut k: usize = 0;
    while k < bucket_count
        invariant
            k <= bucket_count,
            counts@.len() == k,
            forall|b: int| 0 <= b < k ==> #[trigger] counts@[b] == 0,
        decreases bucket_count - k,
    {
        counts.push(0);
        k = k + 1;
    }
    let mut i: usize = 0;
    assert(buckets@.take(0) =~= Seq::empty());
    while i < buckets.len()
        invariant
            i <= buckets@.len() <= i64::MAX,
            counts@.len() == bucket_count,
            in_buckets(buckets@, bucket_count as int),
            forall|b: int|
                0 <= b < bucket_count ==> #[trigger] counts@[b] == count_of(
                    buckets@.take(i as int),
                    b,
                ),
        decreases buckets@.len() - i,
    {
        let b: usize = buckets[i];
        assert(buckets@.take(i + 1).drop_last() =~= buckets@.take(i as int));
        proof {
            lemma_count_bound(buckets@.take(i as int), b as int);
        }
        let c: i64 = counts[b];
        counts.set(b, c + 1);
        i = i + 1;
    }
    assert(buckets@.take(i as int) =~= buckets@);
    counts
}

proof fn lemma_count_bound(buckets: Seq<usize>, b: int)
    ensures
        count_of(buckets, b) <= buckets.len(),
    decreases buckets.len(),
{
    if buckets.len() > 0 {
        lemma_count_bound(buckets.drop_last(), b);
    }
}

/// The runs of offsets to reserve: for each bucket that gets rows, in order, how
/// many.
pub open spec fn runs_of(counts: Seq<i64>) -> Seq<(i32, i64)>
    decreases counts.len(),
{
    if counts.len() == 0 {
        Seq::empty()
    } else if counts.last() > 0 {
        runs_of(counts.drop_last()).push(((counts.len() - 1) as i32, counts.last()))
    } else {
        runs_of(counts.drop_last())
    }
}

/// The runs of offsets to reserve.
pub fn reserve_runs(counts: &Vec<i64>) -> (r: Vec<(i32, i64)>)
    requires
        counts@.len() <= i32::MAX,
    ensures
        r@ == runs_of(counts@),
{
    let mut out: Vec<(i32, i64)> = Vec::new();
    let mut i: usize = 0;
    assert(counts@.take(0) =~= Seq::empty());
    while i < counts.len()
        invariant
            i <= counts@.len() <= i32::MAX,
            out@ == runs_of(counts@.take(i as int)),
        decreases counts@.len() - i,
    {
        assert(counts@.take(i + 1).drop_last() =~= counts@.take(i as int));
        if counts[i] > 0 {
            out.push((i as i32, counts[i]));
        }
        i = i + 1;
    }
    assert(counts@.take(i as int) =~= counts@);
    out
}

/// A run is of a bucket that gets rows, and of as many as it gets; and every such
/// bucket has one.
pub proof fn lemma_runs(counts: Seq<i64>)
    requires
        counts.len() <= i32::MAX,
    ensures
        forall|i: int|
            0 <= i < runs_of(counts).len() ==> 0 <= (#[trigger] runs_of(counts)[i]).0 < counts.len()
                && runs_of(counts)[i].1 == counts[runs_of(counts)[i].0 as int] && runs_of(counts)[i].1
                > 0,
        forall|i: int, j: int|
            0 <= i < j < runs_of(counts).len() ==> (#[trigger] runs_of(counts)[i]).0 < (
            #[trigger] runs_of(counts)[j]).0,
        forall|b: int|
            0 <= b < counts.len() && #[trigger] counts[b] > 0 ==> exists|i: int|
                0 <= i < runs_of(counts).len() && (#[trigger] runs_of(counts)[i]).0 == b,
    decreases counts.len(),
{
    if counts.len() > 0 {
        let head = counts.drop_last();
        lemma_runs(head);
        let runs = runs_of(counts);
        let before = runs_of(head);
        assert forall|i: int| 0 <= i < runs.len() implies 0 <= (#[trigger] runs[i]).0 < counts.len()
            && runs[i].1 == counts[runs[i].0 as int] && runs[i].1 > 0 by {
            if i < before.len() {
                assert(runs[i] == before[i]);
                assert(head[before[i].0 as int] == counts[before[i].0 as int]);
            }
        }
        assert forall|i: int, j: int| 0 <= i < j < runs.len() implies (#[trigger] runs[i]).0 < (
        #[trigger] runs[j]).0 by {
            assert(runs[i] == before[i]);
            if j < before.len() {
                assert(runs[j] == before[j]);
            }
        }
        assert forall|b: int| 0 <= b < counts.len() && #[trigger] counts[b] > 0 implies exists|i: int|
            0 <= i < runs.len() && (#[trigger] runs[i]).0 == b by {
            if b < head.len() {
                assert(head[b] > 0);
                let i = choose|i: int| 0 <= i < before.len() && (#[trigger] before[i]).0 == b;
                assert(runs[i].0 == b);
            } else {
                assert(runs[runs.len() - 1].0 == b);
            }
        }
    }
}

/// Where each bucket's run begins, from where each reserved run does; zero where
/// none was reserved.
pub open spec fn starts_of(bucket_count: nat, runs: Seq<(i32, i64)>, firsts: Seq<i64>) -> Seq<i64>
    decreases runs.len(),
{
    if runs.len() == 0 {
        Seq::new(bucket_count, |b: int| 0i64)
    } else {
        starts_of(bucket_count, runs.drop_last(), firsts).update(
            runs.last().0 as int,
            firsts[runs.len() - 1],
        )
    }
}

/// Where each bucket's run begins.
pub fn run_starts(bucket_count: usize, runs: &Vec<(i32, i64)>, firsts: &Vec<i64>) -> (r: Vec<i64>)
    requires
        runs@.len() == firsts@.len(),
        forall|i: int| 0 <= i < runs@.len() ==> 0 <= (#[trigger] runs@[i]).0 < bucket_count,
    ensures
        r@ == starts_of(bucket_count as nat, runs@, firsts@),
        r@.len() == bucket_count,
{
    let mut out: Vec<i64> = Vec::new();
    let mut k: usize = 0;
    while k < bucket_count
        invariant
            k <= bucket_count,
            out@ == Seq::new(k as nat, |b: int| 0i64),
        decreases bucket_count - k,
    {
        out.push(0);
        assert(out@ =~= Seq::new((k + 1) as nat, |b: int| 0i64));
        k = k + 1;
    }
    let mut i: usize = 0;
    assert(runs@.take(0) =~= Seq::empty());
    while i < runs.len()
        invariant
            i <= runs@.len(),
            runs@.len() == firsts@.len(),
            out@.len() == bucket_count,
            forall|i: int| 0 <= i < runs@.len() ==> 0 <= (#[trigger] runs@[i]).0 < bucket_count,
            out@ == starts_of(bucket_count as nat, runs@.take(i as int), firsts@),
        decreases runs@.len() - i,
    {
        assert(runs@.take(i + 1).drop_last() =~= runs@.take(i as int));
        assert(runs@[i as int].0 < bucket_count);
        out.set(runs[i].0 as usize, firsts[i]);
        i = i + 1;
    }
    assert(runs@.take(i as int) =~= runs@);
    out
}

/// The place of each row: its bucket, and the offset that its rank in the bucket
/// gives it.
pub open spec fn frames_of(buckets: Seq<usize>, starts: Seq<i64>) -> Seq<(i32, i64)> {
    Seq::new(
        buckets.len(),
        |r: int|
            (buckets[r] as i32, (starts[buckets[r] as int] + rank_of(buckets, r)) as i64),
    )
}

/// Every run fits.
pub open spec fn runs_fit(buckets: Seq<usize>, starts: Seq<i64>) -> bool {
    forall|b: int|
        0 <= b < starts.len() ==> #[trigger] starts[b] + count_of(buckets, b) <= i64::MAX
}

/// The place of each row.
pub fn frame_rows(buckets: &Vec<usize>, starts: &Vec<i64>) -> (r: Vec<(i32, i64)>)
    requires
        in_buckets(buckets@, starts@.len() as int),
        starts@.len() <= i32::MAX,
        runs_fit(buckets@, starts@),
    ensures
        r@ == frames_of(buckets@, starts@),
{
    let mut cursor: Vec<i64> = Vec::new();
    let mut k: usize = 0;
    while k < starts.len()
        invariant
            k <= starts@.len(),
            cursor@ == starts@.take(k as int),
        decreases starts@.len() - k,
    {
        cursor.push(starts[k]);
        assert(cursor@ =~= starts@.take(k + 1));
        k = k + 1;
    }
    assert(cursor@ =~= starts@);
    let mut out: Vec<(i32, i64)> = Vec::new();
    let mut i: usize = 0;
    assert(buckets@.take(0) =~= Seq::empty());
    while i < buckets.len()
        invariant
            i <= buckets@.len(),
            in_buckets(buckets@, starts@.len() as int),
            starts@.len() <= i32::MAX,
            runs_fit(buckets@, starts@),
            cursor@.len() == starts@.len(),
            forall|b: int|
                0 <= b < starts@.len() ==> #[trigger] cursor@[b] == starts@[b] + count_of(
                    buckets@.take(i as int),
                    b,
                ),
            out@ == frames_of(buckets@, starts@).take(i as int),
        decreases buckets@.len() - i,
    {
        let b: usize = buckets[i];
        assert(buckets@.take(i + 1).drop_last() =~= buckets@.take(i as int));
        proof {
            lemma_rank_below_count(buckets@, i as int);
            assert(starts@[b as int] + count_of(buckets@, b as int) <= i64::MAX);
        }
        let offset: i64 = cursor[b];
        cursor.set(b, offset + 1);
        out.push((b as i32, offset));
        assert(out@ =~= frames_of(buckets@, starts@).take(i + 1));
        i = i + 1;
    }
    assert(frames_of(buckets@, starts@).take(i as int) =~= frames_of(buckets@, starts@));
    out
}

proof fn lemma_count_grows(buckets: Seq<usize>, i: int, j: int, b: int)
    requires
        0 <= i <= j <= buckets.len(),
    ensures
        count_of(buckets.take(i), b) <= count_of(buckets.take(j), b),
    decreases j - i,
{
    if i < j {
        assert(buckets.take(j).drop_last() =~= buckets.take(j - 1));
        lemma_count_grows(buckets, i, j - 1, b);
    }
}

proof fn lemma_rank_below_count(buckets: Seq<usize>, row: int)
    requires
        0 <= row < buckets.len(),
    ensures
        rank_of(buckets, row) < count_of(buckets, buckets[row] as int),
{
    assert(buckets.take(row + 1).drop_last() =~= buckets.take(row));
    lemma_count_grows(buckets, row + 1, buckets.len() as int, buckets[row] as int);
    assert(buckets.take(buckets.len() as int) =~= buckets);
}

/// Rows of one bucket get offsets in the order of the rows, no two the same.
pub proof fn law_offsets_ascend(buckets: Seq<usize>, i: int, j: int)
    requires
        0 <= i < j < buckets.len(),
        buckets[i] == buckets[j],
    ensures
        rank_of(buckets, i) < rank_of(buckets, j),
{
    assert(buckets.take(i + 1).drop_last() =~= buckets.take(i));
    lemma_count_grows(buckets, i + 1, j, buckets[i] as int);
}

/// The offsets of a bucket leave no gap: each number of its run is the rank of some
/// row of it.
pub proof fn law_offsets_have_no_gap(buckets: Seq<usize>, b: int, k: int)
    requires
        0 <= k < count_of(buckets, b),
    ensures
        exists|row: int|
            0 <= row < buckets.len() && #[trigger] buckets[row] == b && rank_of(buckets, row) == k,
    decreases buckets.len(),
{
    let head = buckets.drop_last();
    let last = buckets.len() - 1;
    assert(buckets.take(last) =~= head);
    if buckets.last() == b && k == count_of(head, b) {
        assert(buckets[last] == b && rank_of(buckets, last) == k);
    } else {
        law_offsets_have_no_gap(head, b, k);
        let row = choose|row: int|
            0 <= row < head.len() && #[trigger] head[row] == b && rank_of(head, row) == k;
        assert(head.take(row) =~= buckets.take(row));
        assert(buckets[row] == b && rank_of(buckets, row) == k);
    }
}

/// The share of bucket `b` where `n` rows are handed out in turn.
pub open spec fn share_of(n: int, bucket_count: int, b: int) -> int {
    n / bucket_count + (if b < n % bucket_count {
        1int
    } else {
        0int
    })
}

/// The share of bucket `b` where `n` rows are handed out in turn.
pub fn round_robin_share(n: usize, bucket_count: usize, b: usize) -> (r: usize)
    requires
        bucket_count > 0,
        b < bucket_count,
    ensures
        r == share_of(n as int, bucket_count as int, b as int),
        r == count_of(in_turn(n as nat, bucket_count as int), b as int),
{
    proof {
        law_shares_are_counts(n as nat, bucket_count as int, b as int);
        assert(n as int / bucket_count as int <= n as int) by (nonlinear_arith)
            requires
                bucket_count > 0,
        ;
        if n as int / bucket_count as int == n as int {
            assert(n as int % bucket_count as int == 0 || bucket_count > n) by (nonlinear_arith)
                requires
                    bucket_count > 0,
                    n as int / bucket_count as int == n as int,
            ;
            if bucket_count > n {
                lemma_fundamental_div_mod_converse(n as int, bucket_count as int, 0, n as int);
            }
        }
        lemma_count_bound(in_turn(n as nat, bucket_count as int), b as int);
    }
    let per_bucket: usize = n / bucket_count;
    let remainder: usize = n % bucket_count;
    if b < remainder {
        per_bucket + 1
    } else {
        per_bucket
    }
}

/// Handing rows out in turn gives each bucket its share: the same to all, and one
/// more to each of the first as far as rows are left.
pub proof fn law_shares_are_counts(n: nat, bucket_count: int, b: int)
    requires
        0 <= b < bucket_count <= usize::MAX,
    ensures
        count_of(in_turn(n, bucket_count), b) == share_of(n as int, bucket_count, b),
    decreases n,
{
    if n == 0 {
        assert(in_turn(n, bucket_count) =~= Seq::<usize>::empty());
        lemma_fundamental_div_mod_converse(0, bucket_count, 0, 0);
    } else {
        let m: int = n - 1;
        law_shares_are_counts(m as nat, bucket_count, b);
        assert(in_turn(n, bucket_count).drop_last() =~= in_turn(m as nat, bucket_count));
        let q = m / bucket_count;
        let r = m % bucket_count;
        assert(m == bucket_count * q + r && 0 <= r < bucket_count) by (nonlinear_arith)
            requires
                bucket_count > 0,
                q == m / bucket_count,
                r == m % bucket_count,
        ;
        assert(in_turn(n, bucket_count).last() == r as usize);
        if r + 1 < bucket_count {
            lemma_fundamental_div_mod_converse(n as int, bucket_count, q, r + 1);
        } else {
            assert(n == bucket_count * (q + 1)) by (nonlinear_arith)
                requires
                    n == bucket_count * q + r + 1,
                    r + 1 == bucket_count,
            ;
            lemma_fundamental_div_mod_converse(n as int, bucket_count, q + 1, 0);
        }
    }
}

} // verus!
