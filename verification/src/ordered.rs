//! Ordered maps and sets, kept as vectors strictly sorted by key.
use crate::key::Key;
use vstd::prelude::*;

verus! {

/// A map whose entries are kept strictly sorted by key.
pub struct OrderedMap<K: Key, V> {
    pub entries: Vec<(K, V)>,
}

/// The entries are strictly sorted by key, so no key occurs twice.
pub open spec fn sorted_entries<K: Key, V>(s: Seq<(K, V)>) -> bool {
    forall|i: int, j: int|
        0 <= i < j < s.len() ==> K::before(#[trigger] s[i].0.model(), #[trigger] s[j].0.model())
}

/// Some entry of `s` has the key `m`.
pub open spec fn has_key<K: Key, V>(s: Seq<(K, V)>, m: K::Model) -> bool {
    exists|i: int| 0 <= i < s.len() && #[trigger] s[i].0.model() == m
}

/// Where the key `m` stands in `s`.
pub open spec fn position_of<K: Key, V>(s: Seq<(K, V)>, m: K::Model) -> int {
    choose|i: int| 0 <= i < s.len() && #[trigger] s[i].0.model() == m
}

/// What a sequence of entries maps its keys to.
pub open spec fn entries_map<K: Key, V>(s: Seq<(K, V)>) -> Map<K::Model, V> {
    Map::new(|m: K::Model| has_key(s, m), |m: K::Model| s[position_of(s, m)].1)
}

impl<K: Key, V> OrderedMap<K, V> {
    pub open spec fn wf(&self) -> bool {
        sorted_entries(self.entries@)
    }

    /// The map that this collection stands for.
    pub open spec fn view(&self) -> Map<K::Model, V> {
        entries_map(self.entries@)
    }
}

/// In a sorted sequence an entry is found under its key.
pub proof fn lemma_entry<K: Key, V>(s: Seq<(K, V)>, i: int)
    requires
        sorted_entries(s),
        0 <= i < s.len(),
    ensures
        position_of(s, s[i].0.model()) == i,
        has_key(s, s[i].0.model()),
        entries_map(s).dom().contains(s[i].0.model()),
        entries_map(s)[s[i].0.model()] == s[i].1,
{
    let m = s[i].0.model();
    assert(has_key(s, m));
    let p = position_of(s, m);
    assert(0 <= p < s.len() && s[p].0.model() == m);
    if p != i {
        K::order_irreflexive(m);
        if p < i {
            assert(K::before(s[p].0.model(), s[i].0.model()));
        } else {
            assert(K::before(s[i].0.model(), s[p].0.model()));
        }
    }
}

/// A key in the map's domain has a position.
pub proof fn lemma_position<K: Key, V>(s: Seq<(K, V)>, m: K::Model)
    requires
        entries_map(s).dom().contains(m),
    ensures
        0 <= position_of(s, m) < s.len(),
        s[position_of(s, m)].0.model() == m,
        entries_map(s)[m] == s[position_of(s, m)].1,
{
    assert(has_key(s, m));
}

proof fn lemma_insert_at<K: Key, V>(s: Seq<(K, V)>, i: int, e: (K, V))
    requires
        sorted_entries(s),
        0 <= i <= s.len(),
        forall|j: int| 0 <= j < i ==> K::before(#[trigger] s[j].0.model(), e.0.model()),
        forall|j: int| i <= j < s.len() ==> K::before(e.0.model(), #[trigger] s[j].0.model()),
    ensures
        sorted_entries(s.insert(i, e)),
        entries_map(s.insert(i, e)) == entries_map(s).insert(e.0.model(), e.1),
{
    let t = s.insert(i, e);
    assert forall|a: int, b: int| 0 <= a < b < t.len() implies K::before(
        #[trigger] t[a].0.model(),
        #[trigger] t[b].0.model(),
    ) by {
        let sa = if a < i { a } else { a - 1 };
        let sb = if b < i { b } else { b - 1 };
        if a != i && b != i {
            assert(K::before(s[sa].0.model(), s[sb].0.model()));
        } else if a == i {
            assert(t[b] == s[sb]);
        } else {
            assert(t[a] == s[sa]);
        }
    }
    let m1 = entries_map(t);
    let m2 = entries_map(s).insert(e.0.model(), e.1);
    lemma_entry(t, i);
    assert forall|m: K::Model| m1.dom().contains(m) == m2.dom().contains(m) by {
        if has_key(t, m) && m != e.0.model() {
            let p = position_of(t, m);
            if p < i {
                assert(s[p].0.model() == m);
            } else {
                assert(s[p - 1].0.model() == m);
            }
        }
        if has_key(s, m) {
            let p = position_of(s, m);
            if p < i {
                assert(t[p].0.model() == m);
            } else {
                assert(t[p + 1].0.model() == m);
            }
        }
    }
    assert forall|m: K::Model| m1.dom().contains(m) implies m1[m] == m2[m] by {
        if m != e.0.model() {
            let p = position_of(t, m);
            assert(t[p].0.model() == m);
            lemma_entry(t, p);
            if p < i {
                assert(s[p] == t[p]);
                lemma_entry(s, p);
            } else {
                assert(s[p - 1] == t[p]);
                lemma_entry(s, p - 1);
            }
        }
    }
    assert(m1 =~= m2);
}

proof fn lemma_update_at<K: Key, V>(s: Seq<(K, V)>, i: int, e: (K, V))
    requires
        sorted_entries(s),
        0 <= i < s.len(),
        s[i].0.model() == e.0.model(),
    ensures
        sorted_entries(s.update(i, e)),
        entries_map(s.update(i, e)) == entries_map(s).insert(e.0.model(), e.1),
{
    let t = s.update(i, e);
    assert forall|a: int, b: int| 0 <= a < b < t.len() implies K::before(
        #[trigger] t[a].0.model(),
        #[trigger] t[b].0.model(),
    ) by {
        assert(t[a].0.model() == s[a].0.model());
        assert(t[b].0.model() == s[b].0.model());
    }
    let m1 = entries_map(t);
    let m2 = entries_map(s).insert(e.0.model(), e.1);
    lemma_entry(t, i);
    assert forall|m: K::Model| m1.dom().contains(m) == m2.dom().contains(m) by {
        if has_key(t, m) {
            let p = position_of(t, m);
            assert(s[p].0.model() == m);
        }
        if has_key(s, m) {
            let p = position_of(s, m);
            assert(t[p].0.model() == m);
        }
    }
    assert forall|m: K::Model| m1.dom().contains(m) implies m1[m] == m2[m] by {
        if m != e.0.model() {
            let p = position_of(t, m);
            assert(t[p].0.model() == m);
            lemma_entry(t, p);
            lemma_entry(s, p);
        }
    }
    assert(m1 =~= m2);
}

proof fn lemma_remove_at<K: Key, V>(s: Seq<(K, V)>, i: int)
    requires
        sorted_entries(s),
        0 <= i < s.len(),
    ensures
        sorted_entries(s.remove(i)),
        entries_map(s.remove(i)) == entries_map(s).remove(s[i].0.model()),
{
    let t = s.remove(i);
    let key = s[i].0.model();
    assert forall|a: int, b: int| 0 <= a < b < t.len() implies K::before(
        #[trigger] t[a].0.model(),
        #[trigger] t[b].0.model(),
    ) by {
        let sa = if a < i { a } else { a + 1 };
        let sb = if b < i { b } else { b + 1 };
        assert(K::before(s[sa].0.model(), s[sb].0.model()));
    }
    let m1 = entries_map(t);
    let m2 = entries_map(s).remove(key);
    assert forall|m: K::Model| m1.dom().contains(m) == m2.dom().contains(m) by {
        if has_key(t, m) {
            let p = position_of(t, m);
            let q = if p < i { p } else { p + 1 };
            assert(s[q].0.model() == m);
            lemma_entry(s, q);
            lemma_entry(s, i);
        }
        if has_key(s, m) && m != key {
            let p = position_of(s, m);
            if p < i {
                assert(t[p].0.model() == m);
            } else {
                assert(t[p - 1].0.model() == m);
            }
        }
    }
    assert forall|m: K::Model| m1.dom().contains(m) implies m1[m] == m2[m] by {
        let p = position_of(t, m);
        assert(t[p].0.model() == m);
        lemma_entry(t, p);
        let q = if p < i { p } else { p + 1 };
        assert(s[q] == t[p]);
        lemma_entry(s, q);
    }
    assert(m1 =~= m2);
}

impl<K: Key, V> OrderedMap<K, V> {
    pub fn new() -> (r: Self)
        ensures
            r.wf(),
            r@ == Map::<K::Model, V>::empty(),
            r.entries@.len() == 0,
    {
        let r = OrderedMap { entries: Vec::new() };
        assert(r@ =~= Map::<K::Model, V>::empty());
        r
    }

    /// Where `k` stands, or where it would be inserted.
    fn locate(&self, k: &K) -> (r: (bool, usize))
        requires
            self.wf(),
        ensures
            r.1 <= self.entries@.len(),
            r.0 ==> r.1 < self.entries@.len() && self.entries@[r.1 as int].0.model() == k.model(),
            !r.0 ==> (forall|j: int|
                0 <= j < r.1 ==> K::before(#[trigger] self.entries@[j].0.model(), k.model()))
                && (forall|j: int|
                r.1 <= j < self.entries@.len() ==> K::before(
                    k.model(),
                    #[trigger] self.entries@[j].0.model(),
                )),
    {
        let mut i: usize = 0;
        while i < self.entries.len()
            invariant
                self.wf(),
                i <= self.entries@.len(),
                forall|j: int|
                    0 <= j < i ==> K::before(#[trigger] self.entries@[j].0.model(), k.model()),
            decreases self.entries@.len() - i,
        {
            if self.entries[i].0.same(k) {
                return (true, i);
            }
            if k.precedes(&self.entries[i].0) {
                proof {
                    assert forall|j: int| i <= j < self.entries@.len() implies K::before(
                        k.model(),
                        #[trigger] self.entries@[j].0.model(),
                    ) by {
                        if j > i {
                            K::order_transitive(
                                k.model(),
                                self.entries@[i as int].0.model(),
                                self.entries@[j].0.model(),
                            );
                        }
                    }
                }
                return (false, i);
            }
            proof {
                K::order_total(self.entries@[i as int].0.model(), k.model());
            }
            i = i + 1;
        }
        (false, i)
    }

    proof fn lemma_absent(&self, k: K::Model, i: int)
        requires
            self.wf(),
            0 <= i <= self.entries@.len(),
            forall|j: int| 0 <= j < i ==> K::before(#[trigger] self.entries@[j].0.model(), k),
            forall|j: int|
                i <= j < self.entries@.len() ==> K::before(
                    k,
                    #[trigger] self.entries@[j].0.model(),
                ),
        ensures
            !self@.dom().contains(k),
    {
        if has_key(self.entries@, k) {
            let p = position_of(self.entries@, k);
            assert(self.entries@[p].0.model() == k);
            K::order_irreflexive(k);
        }
    }

    pub fn contains(&self, k: &K) -> (r: bool)
        requires
            self.wf(),
        ensures
            r == self@.dom().contains(k.model()),
    {
        let (found, i): (bool, usize) = self.locate(k);
        proof {
            if found {
                lemma_entry(self.entries@, i as int);
            } else {
                self.lemma_absent(k.model(), i as int);
            }
        }
        found
    }

    pub fn get(&self, k: &K) -> (r: Option<&V>)
        requires
            self.wf(),
        ensures
            r is Some <==> self@.dom().contains(k.model()),
            r matches Some(v) ==> *v == self@[k.model()],
    {
        let (found, i): (bool, usize) = self.locate(k);
        if found {
            proof {
                lemma_entry(self.entries@, i as int);
            }
            Some(&self.entries[i].1)
        } else {
            proof {
                self.lemma_absent(k.model(), i as int);
            }
            None
        }
    }

    /// Maps `k` to `v`, in place of what it was mapped to.
    pub fn insert(&mut self, k: K, v: V)
        requires
            old(self).wf(),
        ensures
            final(self).wf(),
            final(self)@ == old(self)@.insert(k.model(), v),
    {
        let (found, i): (bool, usize) = self.locate(&k);
        let ghost before = self.entries@;
        if found {
            proof {
                lemma_update_at(before, i as int, (k, v));
            }
            self.entries.set(i, (k, v));
        } else {
            proof {
                lemma_insert_at(before, i as int, (k, v));
            }
            self.entries.insert(i, (k, v));
        }
    }

    /// Removes `k`, handing out what it was mapped to.
    pub fn remove(&mut self, k: &K) -> (r: Option<V>)
        requires
            old(self).wf(),
        ensures
            final(self).wf(),
            final(self)@ == old(self)@.remove(k.model()),
            r is Some <==> old(self)@.dom().contains(k.model()),
            r matches Some(v) ==> v == old(self)@[k.model()],
    {
        let (found, i): (bool, usize) = self.locate(k);
        if found {
            proof {
                lemma_remove_at(self.entries@, i as int);
                lemma_entry(self.entries@, i as int);
            }
            let e = self.entries.remove(i);
            Some(e.1)
        } else {
            proof {
                self.lemma_absent(k.model(), i as int);
                assert(self@.remove(k.model()) =~= self@);
            }
            None
        }
    }

    pub fn len(&self) -> (r: usize)
        ensures
            r == self.entries@.len(),
    {
        self.entries.len()
    }
}

/// A set whose elements are kept strictly sorted.
pub struct OrderedSet<K: Key> {
    pub map: OrderedMap<K, ()>,
}

impl<K: Key> OrderedSet<K> {
    pub open spec fn wf(&self) -> bool {
        self.map.wf()
    }

    /// The set that this collection stands for.
    pub open spec fn view(&self) -> Set<K::Model> {
        self.map@.dom()
    }

    pub fn new() -> (r: Self)
        ensures
            r.wf(),
            r@ == Set::<K::Model>::empty(),
    {
        let r = OrderedSet { map: OrderedMap::new() };
        assert(r@ =~= Set::<K::Model>::empty());
        r
    }

    pub fn contains(&self, k: &K) -> (r: bool)
        requires
            self.wf(),
        ensures
            r == self@.contains(k.model()),
    {
        self.map.contains(k)
    }

    pub fn insert(&mut self, k: K)
        requires
            old(self).wf(),
        ensures
            final(self).wf(),
            final(self)@ == old(self)@.insert(k.model()),
    {
        self.map.insert(k, ());
        assert(self@ =~= old(self)@.insert(k.model()));
    }

    pub fn remove(&mut self, k: &K)
        requires
            old(self).wf(),
        ensures
            final(self).wf(),
            final(self)@ == old(self)@.remove(k.model()),
    {
        let _removed = self.map.remove(k);
        assert(self@ =~= old(self)@.remove(k.model()));
    }
}


/// The values of a map, in the order of their keys.
pub fn values_of<'a, K: Key, V>(m: &'a OrderedMap<K, V>) -> (r: Vec<&'a V>)
    ensures
        r@.len() == m.entries@.len(),
        forall|i: int| 0 <= i < r@.len() ==> *(#[trigger] r@[i]) == m.entries@[i].1,
{
    let mut out: Vec<&'a V> = Vec::new();
    let mut i: usize = 0;
    while i < m.entries.len()
        invariant
            i <= m.entries@.len(),
            out@.len() == i,
            forall|j: int| 0 <= j < i ==> *(#[trigger] out@[j]) == m.entries@[j].1,
        decreases m.entries@.len() - i,
    {
        out.push(&m.entries[i].1);
        i = i + 1;
    }
    out
}


/// The entries of a map that satisfy `p`.
pub open spec fn kept<M, V>(m: Map<M, V>, p: spec_fn(M, V) -> bool) -> Map<M, V> {
    Map::new(|k: M| m.dom().contains(k) && p(k, m[k]), |k: M| m[k])
}

impl<K: Key, V> OrderedMap<K, V> {
    /// Keeps the entries for which `keep` says so, which is `p`.
    pub(crate) fn retain<F: Fn(&K, &V) -> bool>(
        &mut self,
        keep: F,
        Ghost(p): Ghost<spec_fn(K::Model, V) -> bool>,
    )
        requires
            old(self).wf(),
            forall|k: &K, v: &V| #[trigger] keep.requires((k, v)),
            forall|k: &K, v: &V, r: bool| #[trigger] keep.ensures((k, v), r) ==> r == p(k.model(), *v),
        ensures
            final(self).wf(),
            final(self)@ == kept(old(self)@, p),
    {
        let ghost start = self@;
        let mut i: usize = 0;
        while i < self.entries.len()
            invariant
                self.wf(),
                i <= self.entries@.len(),
                forall|k: &K, v: &V| #[trigger] keep.requires((k, v)),
                forall|k: &K, v: &V, r: bool| #[trigger]
                    keep.ensures((k, v), r) ==> r == p(k.model(), *v),
                forall|j: int|
                    0 <= j < i ==> p((#[trigger] self.entries@[j]).0.model(), self.entries@[j].1),
                forall|m: K::Model| #[trigger]
                    self@.dom().contains(m) ==> start.dom().contains(m) && self@[m] == start[m],
                forall|m: K::Model| #[trigger]
                    start.dom().contains(m) && p(m, start[m]) ==> self@.dom().contains(m),
            decreases self.entries@.len() - i,
        {
            let ghost before = self.entries@;
            proof {
                lemma_entry(before, i as int);
            }
            if keep(&self.entries[i].0, &self.entries[i].1) {
                i = i + 1;
            } else {
                proof {
                    lemma_remove_at(before, i as int);
                }
                let ghost was = self@;
                let _gone = self.entries.remove(i);
                proof {
                    assert(self@ == was.remove(before[i as int].0.model()));
                    assert forall|m: K::Model| #[trigger] self@.dom().contains(m) implies start.dom().contains(
                        m,
                    ) && self@[m] == start[m] by {
                        assert(was.dom().contains(m));
                    }
                }
            }
        }
        proof {
            assert forall|m: K::Model| self@.dom().contains(m) implies p(m, start[m]) by {
                lemma_position(self.entries@, m);
                let j = position_of(self.entries@, m);
                assert(p(self.entries@[j].0.model(), self.entries@[j].1));
            }
            assert(self@ =~= kept(start, p));
        }
    }
}

impl<K: Key> OrderedSet<K> {
    /// Keeps the elements for which `keep` says so, which is `p`.
    pub(crate) fn retain<F: Fn(&K, &()) -> bool>(
        &mut self,
        keep: F,
        Ghost(p): Ghost<spec_fn(K::Model) -> bool>,
    )
        requires
            old(self).wf(),
            forall|k: &K, v: &()| #[trigger] keep.requires((k, v)),
            forall|k: &K, v: &(), r: bool| #[trigger] keep.ensures((k, v), r) ==> r == p(k.model()),
        ensures
            final(self).wf(),
            final(self)@ == old(self)@.filter(p),
    {
        self.map.retain(keep, Ghost(|m: K::Model, v: ()| p(m)));
        assert(self@ =~= old(self)@.filter(p));
    }
}


/// The elements of a set, in order.
pub fn elements_of<'a, K: Key>(s: &'a OrderedSet<K>) -> (r: Vec<&'a K>)
    requires
        s.wf(),
    ensures
        forall|i: int, j: int|
            0 <= i < j < r@.len() ==> K::before(
                (#[trigger] r@[i]).model(),
                (#[trigger] r@[j]).model(),
            ),
        forall|m: K::Model| #[trigger]
            s@.contains(m) <==> exists|i: int| 0 <= i < r@.len() && (#[trigger] r@[i]).model() == m,
{
    let mut out: Vec<&'a K> = Vec::new();
    let mut i: usize = 0;
    while i < s.map.entries.len()
        invariant
            i <= s.map.entries@.len(),
            out@.len() == i,
            forall|j: int| 0 <= j < i ==> *(#[trigger] out@[j]) == s.map.entries@[j].0,
        decreases s.map.entries@.len() - i,
    {
        out.push(&s.map.entries[i].0);
        i = i + 1;
    }
    proof {
        let all = s.map.entries@;
        assert forall|m: K::Model| #[trigger] s@.contains(m) implies exists|i: int|
            0 <= i < out@.len() && (#[trigger] out@[i]).model() == m by {
            lemma_position(all, m);
            assert(out@[position_of(all, m)].model() == m);
        }
        assert forall|m: K::Model|
            (exists|i: int| 0 <= i < out@.len() && (#[trigger] out@[i]).model() == m) implies #[trigger] s@.contains(
            m,
        ) by {
            let i = choose|i: int| 0 <= i < out@.len() && (#[trigger] out@[i]).model() == m;
            lemma_entry(all, i);
        }
        assert forall|i: int, j: int| 0 <= i < j < out@.len() implies K::before(
            (#[trigger] out@[i]).model(),
            (#[trigger] out@[j]).model(),
        ) by {
            assert(K::before(all[i].0.model(), all[j].0.model()));
        }
    }
    out
}

/// A map has no key exactly where it has no entry.
pub proof fn lemma_no_entries<K: Key, V>(m: &OrderedMap<K, V>)
    requires
        m.wf(),
    ensures
        m.entries@.len() == 0 <==> m@ == Map::<K::Model, V>::empty(),
{
    if m.entries@.len() == 0 {
        assert(m@ =~= Map::<K::Model, V>::empty());
    } else {
        lemma_entry(m.entries@, 0);
        assert(m@.dom().contains(m.entries@[0].0.model()));
    }
}

} // verus!
