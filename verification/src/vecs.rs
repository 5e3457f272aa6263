//! Filtering and ordering of vectors.
use vstd::prelude::*;

verus! {

/// The items of `s` that satisfy `p`, in their order.
pub open spec fn filtered<T>(s: Seq<T>, p: spec_fn(T) -> bool) -> Seq<T>
    decreases s.len(),
{
    if s.len() == 0 {
        Seq::empty()
    } else if p(s.last()) {
        filtered(s.drop_last(), p).push(s.last())
    } else {
        filtered(s.drop_last(), p)
    }
}

/// What is kept is what was there and satisfies `p`.
pub proof fn lemma_filtered<T>(s: Seq<T>, p: spec_fn(T) -> bool, x: T)
    ensures
        filtered(s, p).contains(x) <==> s.contains(x) && p(x),
    decreases s.len(),
{
    if s.len() > 0 {
        let rest = filtered(s.drop_last(), p);
        lemma_filtered(s.drop_last(), p, x);
        assert(s[s.len() - 1] == s.last());
        if s.contains(x) && x != s.last() {
            let i = choose|i: int| 0 <= i < s.len() && s[i] == x;
            assert(s.drop_last()[i] == x);
        }
        if s.drop_last().contains(x) {
            let i = choose|i: int| 0 <= i < s.drop_last().len() && s.drop_last()[i] == x;
            assert(s[i] == x);
        }
        if p(s.last()) {
            assert(rest.push(s.last())[rest.len() as int] == s.last());
            if rest.contains(x) {
                let i = choose|i: int| 0 <= i < rest.len() && rest[i] == x;
                assert(rest.push(s.last())[i] == x);
            }
            if rest.push(s.last()).contains(x) && x != s.last() {
                let i = choose|i: int|
                    0 <= i < rest.push(s.last()).len() && rest.push(s.last())[i] == x;
                assert(rest[i] == x);
            }
        }
    }
}

/// Keeps the items for which `keep` says so, which is `p`.
pub(crate) fn retain<T, F: Fn(&T) -> bool>(v: &mut Vec<T>, keep: F, Ghost(p): Ghost<spec_fn(T) -> bool>)
    requires
        forall|x: &T| #[trigger] keep.requires((x,)),
        forall|x: &T, r: bool| #[trigger] keep.ensures((x,), r) ==> r == p(*x),
    ensures
        final(v)@ == filtered(old(v)@, p),
{
    let ghost start = v@;
    let ghost mut k: int = 0;
    let mut i: usize = 0;
    assert(start.take(0) =~= Seq::<T>::empty());
    assert(v@ =~= filtered(start.take(0), p) + start.skip(0));
    while i < v.len()
        invariant
            0 <= k <= start.len(),
            i == filtered(start.take(k), p).len(),
            v@ == filtered(start.take(k), p) + start.skip(k),
            forall|x: &T| #[trigger] keep.requires((x,)),
            forall|x: &T, r: bool| #[trigger] keep.ensures((x,), r) ==> r == p(*x),
        decreases start.len() - k,
    {
        assert(start.take(k + 1).drop_last() =~= start.take(k));
        assert(v@[i as int] == start[k]);
        if keep(&v[i]) {
            i = i + 1;
            assert(v@ =~= filtered(start.take(k + 1), p) + start.skip(k + 1));
        } else {
            let _gone: T = v.remove(i);
            assert(v@ =~= filtered(start.take(k + 1), p) + start.skip(k + 1));
        }
        proof {
            k = k + 1;
        }
    }
    proof {
        assert(k == start.len());
        assert(start.take(k) =~= start);
        assert(v@ =~= filtered(start, p));
    }
}

/// What references point at.
pub open spec fn pointed<T>(s: Seq<&T>) -> Seq<T> {
    Seq::new(s.len(), |i: int| *s[i])
}

/// The items for which `keep` says so, which is `p`, in their order.
pub(crate) fn select<'a, T, F: Fn(&T) -> bool>(v: &'a Vec<T>, keep: F, Ghost(p): Ghost<spec_fn(T) -> bool>) -> (r:
    Vec<&'a T>)
    requires
        forall|x: &T| #[trigger] keep.requires((x,)),
        forall|x: &T, r: bool| #[trigger] keep.ensures((x,), r) ==> r == p(*x),
    ensures
        pointed(r@) == filtered(v@, p),
{
    let mut out: Vec<&'a T> = Vec::new();
    assert(pointed(out@) =~= Seq::empty());
    let mut i: usize = 0;
    while i < v.len()
        invariant
            i <= v@.len(),
            pointed(out@) == filtered(v@.take(i as int), p),
            forall|x: &T| #[trigger] keep.requires((x,)),
            forall|x: &T, r: bool| #[trigger] keep.ensures((x,), r) ==> r == p(*x),
        decreases v@.len() - i,
    {
        assert(v@.take(i + 1).drop_last() =~= v@.take(i as int));
        let ghost before = out@;
        if keep(&v[i]) {
            out.push(&v[i]);
            assert(pointed(out@) =~= pointed(before).push(v@[i as int]));
        }
        i = i + 1;
    }
    assert(v@.take(i as int) =~= v@);
    out
}

/// `a` comes before `b`: it has the smaller key, or an equal one and the smaller
/// place.
pub open spec fn place_before(keys: Seq<i128>, a: usize, b: usize) -> bool {
    keys[a as int] < keys[b as int] || (keys[a as int] == keys[b as int] && a < b)
}

/// The places of `keys` in the order of the keys; equal keys keep their order.
pub fn sorted_places(keys: &Vec<i128>) -> (r: Vec<usize>)
    ensures
        r@.len() == keys@.len(),
        forall|i: int| 0 <= i < r@.len() ==> (#[trigger] r@[i]) < keys@.len(),
        forall|i: int, j: int|
            0 <= i < j < r@.len() ==> place_before(keys@, #[trigger] r@[i], #[trigger] r@[j]),
        forall|k: usize| k < keys@.len() ==> #[trigger] r@.contains(k),
{
    let mut out: Vec<usize> = Vec::new();
    let mut n: usize = 0;
    while n < keys.len()
        invariant
            n <= keys@.len(),
            out@.len() == n,
            forall|i: int| 0 <= i < n ==> (#[trigger] out@[i]) < n,
            forall|i: int, j: int|
                0 <= i < j < n ==> place_before(keys@, #[trigger] out@[i], #[trigger] out@[j]),
            forall|k: usize| k < n ==> #[trigger] out@.contains(k),
        decreases keys@.len() - n,
    {
        let ghost before = out@;
        let mut p: usize = n;
        while p > 0 && keys[out[p - 1]] > keys[n]
            invariant
                p <= n,
                n < keys@.len(),
                out@ == before,
                out@.len() == n,
                forall|i: int| 0 <= i < n ==> (#[trigger] out@[i]) < n,
                forall|i: int| p <= i < n ==> keys@[(#[trigger] out@[i]) as int] > keys@[n as int],
            decreases p,
        {
            p = p - 1;
        }
        out.insert(p, n);
        proof {
            assert forall|i: int, j: int| 0 <= i < j < n + 1 implies place_before(
                keys@,
                #[trigger] out@[i],
                #[trigger] out@[j],
            ) by {
                if i < p && j < p {
                    assert(place_before(keys@, before[i], before[j]));
                } else if i < p && j == p {
                    assert(before[i] < n);
                    if i < p - 1 {
                        assert(place_before(keys@, before[i], before[p - 1]));
                    }
                } else if i < p {
                    assert(place_before(keys@, before[i], before[j - 1]));
                } else if i == p {
                    assert(keys@[before[j - 1] as int] > keys@[n as int]);
                } else {
                    assert(place_before(keys@, before[i - 1], before[j - 1]));
                }
            }
            assert forall|k: usize| k < n + 1 implies #[trigger] out@.contains(k) by {
                if k < n {
                    assert(before.contains(k));
                    let a = choose|a: int| 0 <= a < before.len() && before[a] == k;
                    if a < p {
                        assert(out@[a] == k);
                    } else {
                        assert(out@[a + 1] == k);
                    }
                } else {
                    assert(out@[p as int] == k);
                }
            }
            assert forall|i: int| 0 <= i < n + 1 implies (#[trigger] out@[i]) < n + 1 by {
                if i < p {
                    assert(before[i] < n);
                } else if i > p {
                    assert(before[i - 1] < n);
                }
            }
        }
        n = n + 1;
    }
    out
}

/// `a` comes before `b` in `v`: its key is smaller, or equal with a smaller place.
pub open spec fn keyed_before<T>(v: Seq<T>, c: spec_fn(T) -> i128, a: usize, b: usize) -> bool {
    c(v[a as int]) < c(v[b as int]) || (c(v[a as int]) == c(v[b as int]) && a < b)
}

/// The places of the items for which `keep` says so, which is `p`, in the order of
/// their keys, which `key` gives and `c` is; equal keys keep their order.
pub(crate) fn places_by<T, F: Fn(&T) -> bool, G: Fn(&T) -> i128>(
    v: &Vec<T>,
    keep: F,
    key: G,
    Ghost(p): Ghost<spec_fn(T) -> bool>,
    Ghost(c): Ghost<spec_fn(T) -> i128>,
) -> (r: Vec<usize>)
    requires
        forall|x: &T| #[trigger] keep.requires((x,)),
        forall|x: &T, r: bool| #[trigger] keep.ensures((x,), r) ==> r == p(*x),
        forall|x: &T| #[trigger] key.requires((x,)),
        forall|x: &T, r: i128| #[trigger] key.ensures((x,), r) ==> r == c(*x),
    ensures
        forall|i: int| 0 <= i < r@.len() ==> (#[trigger] r@[i]) < v@.len() && p(v@[r@[i] as int]),
        forall|i: int, j: int|
            0 <= i < j < r@.len() ==> keyed_before(v@, c, #[trigger] r@[i], #[trigger] r@[j]),
        forall|k: usize| k < v@.len() && p(v@[k as int]) ==> #[trigger] r@.contains(k),
{
    let mut among: Vec<usize> = Vec::new();
    let mut keys: Vec<i128> = Vec::new();
    let mut i: usize = 0;
    while i < v.len()
        invariant
            i <= v@.len(),
            among@.len() == keys@.len(),
            forall|a: int|
                0 <= a < among@.len() ==> (#[trigger] among@[a]) < i && p(v@[among@[a] as int])
                    && keys@[a] == c(v@[among@[a] as int]),
            forall|a: int, b: int|
                0 <= a < b < among@.len() ==> #[trigger] among@[a] < #[trigger] among@[b],
            forall|k: usize| k < i && p(v@[k as int]) ==> #[trigger] among@.contains(k),
            forall|x: &T| #[trigger] keep.requires((x,)),
            forall|x: &T, r: bool| #[trigger] keep.ensures((x,), r) ==> r == p(*x),
            forall|x: &T| #[trigger] key.requires((x,)),
            forall|x: &T, r: i128| #[trigger] key.ensures((x,), r) ==> r == c(*x),
        decreases v@.len() - i,
    {
        let ghost before = among@;
        if keep(&v[i]) {
            among.push(i);
            keys.push(key(&v[i]));
            proof {
                assert forall|k: usize| k < i + 1 && p(v@[k as int]) implies #[trigger] among@.contains(
                    k,
                ) by {
                    if k < i {
                        assert(before.contains(k));
                        let a = choose|a: int| 0 <= a < before.len() && before[a] == k;
                        assert(among@[a] == k);
                    } else {
                        assert(among@[before.len() as int] == k);
                    }
                }
            }
        }
        i = i + 1;
    }
    let places: Vec<usize> = sorted_places(&keys);
    let mut out: Vec<usize> = Vec::new();
    let mut n: usize = 0;
    while n < places.len()
        invariant
            n <= places@.len(),
            places@.len() == among@.len(),
            out@.len() == n,
            forall|a: int| 0 <= a < places@.len() ==> (#[trigger] places@[a]) < among@.len(),
            forall|a: int| 0 <= a < n ==> #[trigger] out@[a] == among@[places@[a] as int],
        decreases places@.len() - n,
    {
        out.push(among[places[n]]);
        n = n + 1;
    }
    proof {
        assert forall|a: int, b: int| 0 <= a < b < out@.len() implies keyed_before(
            v@,
            c,
            #[trigger] out@[a],
            #[trigger] out@[b],
        ) by {
            assert(place_before(keys@, places@[a], places@[b]));
            let x = among@[places@[a] as int];
            let y = among@[places@[b] as int];
            assert(out@[a] == x && out@[b] == y);
        }
        assert forall|k: usize| k < v@.len() && p(v@[k as int]) implies #[trigger] out@.contains(k) by {
            assert(among@.contains(k));
            let a = choose|a: int| 0 <= a < among@.len() && among@[a] == k;
            assert(places@.contains(a as usize));
            let b = choose|b: int| 0 <= b < places@.len() && places@[b] == a as usize;
            assert(out@[b] == k);
        }
    }
    out
}

} // verus!
