//! Reachability over named edges.
use crate::key::{str_same, Key};
use crate::ordered::{lemma_entry, lemma_position, position_of, OrderedSet};
use crate::text::{holds, texts};
use vstd::prelude::*;

verus! {

/// A set of edges between names.
pub type Edges = Set<(Seq<char>, Seq<char>)>;

/// Each name of `p` has an edge to the next.
pub open spec fn is_path(edges: Edges, p: Seq<Seq<char>>) -> bool {
    p.len() >= 1 && forall|i: int| 0 <= i < p.len() - 1 ==> edges.contains((#[trigger] p[i], p[i + 1]))
}

/// `b` is `a`, or is reached from `a` along edges.
pub open spec fn reachable(edges: Edges, a: Seq<char>, b: Seq<char>) -> bool {
    exists|p: Seq<Seq<char>>| #[trigger] is_path(edges, p) && p[0] == a && p.last() == b
}

/// No name is reached from itself along an edge.
pub open spec fn acyclic(edges: Edges) -> bool {
    forall|a: Seq<char>, b: Seq<char>| #[trigger] edges.contains((a, b)) ==> !reachable(edges, b, a)
}

pub proof fn lemma_reachable_self(edges: Edges, a: Seq<char>)
    ensures
        reachable(edges, a, a),
{
    let p = seq![a];
    assert(is_path(edges, p) && p[0] == a && p.last() == a);
}

pub proof fn lemma_reachable_step(edges: Edges, a: Seq<char>, b: Seq<char>, c: Seq<char>)
    requires
        reachable(edges, a, b),
        edges.contains((b, c)),
    ensures
        reachable(edges, a, c),
{
    let p = choose|p: Seq<Seq<char>>| #[trigger] is_path(edges, p) && p[0] == a && p.last() == b;
    let q = p.push(c);
    assert forall|i: int| 0 <= i < q.len() - 1 implies edges.contains((#[trigger] q[i], q[i + 1])) by {
        if i < p.len() - 1 {
            assert(edges.contains((p[i], p[i + 1])));
        }
    }
    assert(is_path(edges, q) && q[0] == a && q.last() == c);
}

pub proof fn lemma_reachable_transitive(edges: Edges, a: Seq<char>, b: Seq<char>, c: Seq<char>)
    requires
        reachable(edges, a, b),
        reachable(edges, b, c),
    ensures
        reachable(edges, a, c),
{
    let p = choose|p: Seq<Seq<char>>| #[trigger] is_path(edges, p) && p[0] == b && p.last() == c;
    lemma_reachable_along(edges, a, p);
}

proof fn lemma_reachable_along(edges: Edges, a: Seq<char>, p: Seq<Seq<char>>)
    requires
        is_path(edges, p),
        reachable(edges, a, p[0]),
    ensures
        reachable(edges, a, p.last()),
    decreases p.len(),
{
    if p.len() > 1 {
        let q = p.drop_last();
        assert forall|i: int| 0 <= i < q.len() - 1 implies edges.contains(
            (#[trigger] q[i], q[i + 1]),
        ) by {
            assert(edges.contains((p[i], p[i + 1])));
        }
        lemma_reachable_along(edges, a, q);
        assert(edges.contains((p[p.len() - 2], p[p.len() - 2 + 1])));
        lemma_reachable_step(edges, a, q.last(), p.last());
    }
}

/// A set that holds `a` and whatever its members have edges to holds all that is
/// reachable from `a`.
pub proof fn lemma_closed_holds_reachable(
    edges: Edges,
    s: Set<Seq<char>>,
    a: Seq<char>,
    b: Seq<char>,
)
    requires
        s.contains(a),
        forall|x: Seq<char>, y: Seq<char>| #[trigger]
            edges.contains((x, y)) && s.contains(x) ==> s.contains(y),
        reachable(edges, a, b),
    ensures
        s.contains(b),
{
    let p = choose|p: Seq<Seq<char>>| #[trigger] is_path(edges, p) && p[0] == a && p.last() == b;
    lemma_closed_along(edges, s, p);
}

proof fn lemma_closed_along(edges: Edges, s: Set<Seq<char>>, p: Seq<Seq<char>>)
    requires
        is_path(edges, p),
        s.contains(p[0]),
        forall|x: Seq<char>, y: Seq<char>| #[trigger]
            edges.contains((x, y)) && s.contains(x) ==> s.contains(y),
    ensures
        s.contains(p.last()),
    decreases p.len(),
{
    if p.len() > 1 {
        let q = p.drop_last();
        assert forall|i: int| 0 <= i < q.len() - 1 implies edges.contains(
            (#[trigger] q[i], q[i + 1]),
        ) by {
            assert(edges.contains((p[i], p[i + 1])));
        }
        lemma_closed_along(edges, s, q);
        assert(edges.contains((p[p.len() - 2], p[p.len() - 2 + 1])));
    }
}

/// Fewer edges reach no more.
pub proof fn lemma_reachable_subset(small: Edges, large: Edges, a: Seq<char>, b: Seq<char>)
    requires
        small.subset_of(large),
        reachable(small, a, b),
    ensures
        reachable(large, a, b),
{
    let p = choose|p: Seq<Seq<char>>| #[trigger] is_path(small, p) && p[0] == a && p.last() == b;
    assert forall|i: int| 0 <= i < p.len() - 1 implies large.contains((#[trigger] p[i], p[i + 1])) by {
        assert(small.contains((p[i], p[i + 1])));
    }
    assert(is_path(large, p));
}

/// Taking edges away makes no cycle.
pub proof fn lemma_acyclic_subset(small: Edges, large: Edges)
    requires
        small.subset_of(large),
        acyclic(large),
    ensures
        acyclic(small),
{
    assert forall|a: Seq<char>, b: Seq<char>| #[trigger] small.contains((a, b)) implies !reachable(
        small,
        b,
        a,
    ) by {
        assert(large.contains((a, b)));
        if reachable(small, b, a) {
            lemma_reachable_subset(small, large, b, a);
        }
    }
}

/// What one edge more reaches: what was reached, or what is reached from its
/// head by way of its tail.
proof fn lemma_reachable_insert(
    edges: Edges,
    x: Seq<char>,
    y: Seq<char>,
    p: Seq<Seq<char>>,
)
    requires
        is_path(edges.insert((x, y)), p),
    ensures
        reachable(edges, p[0], p.last()) || (reachable(edges, p[0], x) && reachable(
            edges,
            y,
            p.last(),
        )),
    decreases p.len(),
{
    let more = edges.insert((x, y));
    if p.len() == 1 {
        lemma_reachable_self(edges, p[0]);
    } else {
        let q = p.drop_last();
        assert forall|i: int| 0 <= i < q.len() - 1 implies more.contains((#[trigger] q[i], q[i + 1])) by {
            assert(more.contains((p[i], p[i + 1])));
        }
        lemma_reachable_insert(edges, x, y, q);
        let b = q.last();
        let c = p.last();
        assert(more.contains((p[p.len() - 2], p[p.len() - 2 + 1])));
        if (b, c) == (x, y) {
            lemma_reachable_self(edges, y);
        } else {
            assert(edges.contains((b, c)));
            if reachable(edges, p[0], b) {
                lemma_reachable_step(edges, p[0], b, c);
            } else {
                lemma_reachable_step(edges, y, b, c);
            }
        }
    }
}

/// An edge whose head does not reach its tail makes no cycle.
pub proof fn lemma_acyclic_insert(edges: Edges, x: Seq<char>, y: Seq<char>)
    requires
        acyclic(edges),
        !reachable(edges, y, x),
    ensures
        acyclic(edges.insert((x, y))),
{
    let more = edges.insert((x, y));
    assert forall|a: Seq<char>, b: Seq<char>| #[trigger] more.contains((a, b)) implies !reachable(
        more,
        b,
        a,
    ) by {
        if reachable(more, b, a) {
            let p = choose|p: Seq<Seq<char>>| #[trigger]
                is_path(more, p) && p[0] == b && p.last() == a;
            lemma_reachable_insert(edges, x, y, p);
            if (a, b) == (x, y) {
                assert(false);
            } else {
                assert(edges.contains((a, b)));
                assert(reachable(edges, b, x) && reachable(edges, y, a));
                lemma_reachable_step(edges, y, a, b);
                lemma_reachable_transitive(edges, y, b, x);
            }
        }
    }
}

/// `x` is reachable from one of `starts`.
pub open spec fn reached_from(edges: Edges, starts: Seq<Seq<char>>, x: Seq<char>) -> bool {
    exists|i: int| 0 <= i < starts.len() && reachable(edges, #[trigger] starts[i], x)
}

/// The names that edges lead to.
spec fn heads(entries: Seq<((String, String), ())>) -> Seq<Seq<char>> {
    Seq::new(entries.len(), |i: int| entries[i].0.1@)
}

/// Pushes what `role` has edges to and is not in `seen`.
fn push_heads(
    edges: &OrderedSet<(String, String)>,
    role: &String,
    seen: &OrderedSet<String>,
    stack: &mut Vec<String>,
)
    requires
        edges.wf(),
        seen.wf(),
    ensures
        final(stack)@.len() >= old(stack)@.len(),
        forall|k: int| 0 <= k < old(stack)@.len() ==> final(stack)@[k] == #[trigger] old(stack)@[k],
        forall|k: int|
            old(stack)@.len() <= k < final(stack)@.len() ==> edges@.contains(
                (role@, #[trigger] final(stack)@[k]@),
            ),
        forall|b: Seq<char>| #[trigger]
            edges@.contains((role@, b)) ==> seen@.contains(b) || holds(final(stack)@, b),
{
    let ghost all = edges.map.entries@;
    let ghost base = stack@;
    let mut j: usize = 0;
    while j < edges.map.entries.len()
        invariant
            edges.wf(),
            seen.wf(),
            all == edges.map.entries@,
            j <= all.len(),
            stack@.len() >= base.len(),
            forall|k: int| 0 <= k < base.len() ==> stack@[k] == #[trigger] base[k],
            forall|k: int|
                base.len() <= k < stack@.len() ==> edges@.contains((role@, #[trigger] stack@[k]@)),
            forall|k: int|
                0 <= k < j && (#[trigger] all[k]).0.0@ == role@ ==> seen@.contains(all[k].0.1@)
                    || holds(stack@, all[k].0.1@),
        decreases all.len() - j,
    {
        let e: &((String, String), ()) = &edges.map.entries[j];
        if str_same(e.0.0.as_str(), role.as_str()) && !seen.contains(&e.0.1) {
            let ghost pre = stack@;
            stack.push(e.0.1.clone());
            proof {
                lemma_entry(all, j as int);
                assert(edges@.contains((role@, e.0.1@)));
                assert(stack@[stack@.len() - 1]@ == e.0.1@);
                assert forall|x: Seq<char>| holds(pre, x) implies #[trigger] holds(stack@, x) by {
                    let k = choose|k: int| 0 <= k < pre.len() && #[trigger] pre[k]@ == x;
                    assert(stack@[k]@ == x);
                }
            }
        }
        j = j + 1;
    }
    proof {
        assert forall|b: Seq<char>| #[trigger] edges@.contains((role@, b)) implies seen@.contains(b)
            || holds(stack@, b) by {
            lemma_position(all, (role@, b));
            let k = position_of(all, (role@, b));
            assert(all[k].0.0@ == role@ && all[k].0.1@ == b);
        }
    }
}

/// Everything on the stack lies in `goal`.
spec fn stack_ok(goal: Set<Seq<char>>, stack: Seq<String>) -> bool {
    forall|j: int| 0 <= j < stack.len() ==> goal.contains(#[trigger] stack[j]@)
}

/// Every start is seen or waits, and so is every head of an edge from what is
/// seen.
spec fn frontier_ok(
    edges: Edges,
    starts: Seq<Seq<char>>,
    seen: Set<Seq<char>>,
    stack: Seq<String>,
) -> bool {
    &&& forall|d: int|
        0 <= d < starts.len() ==> seen.contains(#[trigger] starts[d]) || holds(stack, starts[d])
    &&& forall|a: Seq<char>, b: Seq<char>| #[trigger]
        edges.contains((a, b)) && seen.contains(a) ==> seen.contains(b) || holds(stack, b)
}

/// One step of the walk: `role` leaves the stack, is seen, and what it has edges
/// to is seen or waits.
proof fn lemma_walk_step(
    edges: Edges,
    starts: Seq<Seq<char>>,
    goal: Set<Seq<char>>,
    seen: Set<Seq<char>>,
    before: Seq<String>,
    after: Seq<String>,
)
    requires
        before.len() > 0,
        stack_ok(goal, before),
        frontier_ok(edges, starts, seen, before),
        forall|a: Seq<char>, b: Seq<char>| #[trigger]
            edges.contains((a, b)) && goal.contains(a) ==> goal.contains(b),
        after.len() >= before.len() - 1,
        forall|k: int| 0 <= k < before.len() - 1 ==> after[k] == #[trigger] before[k],
        forall|k: int|
            before.len() - 1 <= k < after.len() ==> edges.contains(
                (before.last()@, #[trigger] after[k]@),
            ),
        forall|b: Seq<char>| #[trigger]
            edges.contains((before.last()@, b)) ==> seen.insert(before.last()@).contains(b) || holds(
                after,
                b,
            ),
    ensures
        stack_ok(goal, after),
        frontier_ok(edges, starts, seen.insert(before.last()@), after),
{
    let role = before.last()@;
    assert(before[before.len() - 1]@ == role);
    assert forall|k: int| 0 <= k < after.len() implies goal.contains(#[trigger] after[k]@) by {
        if k < before.len() - 1 {
            assert(after[k] == before[k]);
        } else {
            assert(edges.contains((role, after[k]@)));
        }
    }
    assert forall|x: Seq<char>| holds(before, x) implies x == role || #[trigger] holds(after, x) by {
        let j = choose|j: int| 0 <= j < before.len() && #[trigger] before[j]@ == x;
        if j < before.len() - 1 {
            assert(after[j] == before[j]);
        }
    }
}

/// What is reached from `starts`.
spec fn reached_set(edges: Edges, starts: Seq<Seq<char>>) -> Set<Seq<char>> {
    Set::new(|x: Seq<char>| reached_from(edges, starts, x))
}

proof fn lemma_reached_set(edges: Edges, starts: Seq<Seq<char>>)
    ensures
        forall|d: int|
            0 <= d < starts.len() ==> reached_set(edges, starts).contains(#[trigger] starts[d]),
        forall|a: Seq<char>, b: Seq<char>| #[trigger]
            edges.contains((a, b)) && reached_set(edges, starts).contains(a) ==> reached_set(
                edges,
                starts,
            ).contains(b),
{
    assert forall|d: int| 0 <= d < starts.len() implies reached_set(edges, starts).contains(
        #[trigger] starts[d],
    ) by {
        lemma_reachable_self(edges, starts[d]);
    }
    assert forall|a: Seq<char>, b: Seq<char>| #[trigger]
        edges.contains((a, b)) && reached_set(edges, starts).contains(a) implies reached_set(
        edges,
        starts,
    ).contains(b) by {
        let d = choose|d: int| 0 <= d < starts.len() && reachable(edges, #[trigger] starts[d], a);
        lemma_reachable_step(edges, starts[d], a, b);
    }
}

/// The names that edges lead to, and `starts`.
proof fn lemma_universe(edges: &OrderedSet<(String, String)>, starts: Seq<Seq<char>>) -> (r: Set<
    Seq<char>,
>)
    requires
        edges.wf(),
    ensures
        r.finite(),
        forall|d: int| 0 <= d < starts.len() ==> r.contains(#[trigger] starts[d]),
        forall|a: Seq<char>, b: Seq<char>| #[trigger] edges@.contains((a, b)) ==> r.contains(b),
{
    let all = edges.map.entries@;
    let universe = starts.to_set().union(heads(all).to_set());
    vstd::seq_lib::seq_to_set_is_finite(starts);
    vstd::seq_lib::seq_to_set_is_finite(heads(all));
    assert forall|a: Seq<char>, b: Seq<char>| #[trigger]
        edges@.contains((a, b)) implies universe.contains(b) by {
        lemma_position(all, (a, b));
        let k = position_of(all, (a, b));
        assert(heads(all)[k] == b);
        assert(heads(all).to_set().contains(b));
    }
    assert forall|d: int| 0 <= d < starts.len() implies universe.contains(#[trigger] starts[d]) by {
        assert(starts.to_set().contains(starts[d]));
    }
    universe
}

/// The names reachable from `direct` along `edges`, `direct` itself included.
pub fn effective_roles(edges: &OrderedSet<(String, String)>, direct: &Vec<String>) -> (r: OrderedSet<
    String,
>)
    requires
        edges.wf(),
    ensures
        r.wf(),
        forall|x: Seq<char>| #[trigger]
            r@.contains(x) <==> reached_from(edges@, texts(direct@), x),
{
    let ghost starts = texts(direct@);
    let ghost universe = lemma_universe(edges, starts);
    let ghost goal = reached_set(edges@, starts).intersect(universe);
    proof {
        lemma_reached_set(edges@, starts);
    }
    let mut seen: OrderedSet<String> = OrderedSet::new();
    let mut stack: Vec<String> = Vec::new();
    let mut i: usize = 0;
    while i < direct.len()
        invariant
            i <= direct@.len(),
            stack@.len() == i,
            starts == texts(direct@),
            forall|j: int| 0 <= j < i ==> #[trigger] stack@[j]@ == starts[j],
        decreases direct@.len() - i,
    {
        stack.push(direct[i].clone());
        i = i + 1;
    }
    proof {
        assert forall|j: int| 0 <= j < stack@.len() implies goal.contains(#[trigger] stack@[j]@) by {
            assert(stack@[j]@ == starts[j]);
        }
        assert forall|d: int| 0 <= d < starts.len() implies holds(stack@, #[trigger] starts[d]) by {
            assert(stack@[d]@ == starts[d]);
        }
        assert(stack_ok(goal, stack@));
        assert(frontier_ok(edges@, starts, seen@, stack@));
        assert(forall|a: Seq<char>, b: Seq<char>| #[trigger]
            edges@.contains((a, b)) && goal.contains(a) ==> goal.contains(b));
        assert(goal.finite());
    }
    while stack.len() > 0
        invariant
            edges.wf(),
            seen.wf(),
            goal.finite(),
            seen@.subset_of(goal),
            forall|a: Seq<char>, b: Seq<char>| #[trigger]
                edges@.contains((a, b)) && goal.contains(a) ==> goal.contains(b),
            stack_ok(goal, stack@),
            frontier_ok(edges@, starts, seen@, stack@),
        decreases goal.difference(seen@).len(), stack@.len(),
    {
        let ghost before = stack@;
        let ghost was = seen@;
        match stack.pop() {
            None => {},
            Some(role) => {
                assert(before[before.len() - 1]@ == role@);
                let ghost rest = stack@;
                assert(rest =~= before.drop_last());
                if !seen.contains(&role) {
                    seen.insert(role.clone());
                    push_heads(edges, &role, &seen, &mut stack);
                    proof {
                        assert forall|k: int| 0 <= k < before.len() - 1 implies stack@[k]
                            == #[trigger] before[k] by {
                            assert(rest[k] == before[k]);
                        }
                        lemma_walk_step(edges@, starts, goal, was, before, stack@);
                        let gone = goal.difference(was);
                        assert(goal.difference(seen@) =~= gone.remove(role@));
                        assert(gone.contains(role@));
                    }
                } else {
                    proof {
                        assert forall|x: Seq<char>| holds(before, x) implies x == role@
                            || #[trigger] holds(stack@, x) by {
                            let j = choose|j: int| 0 <= j < before.len() && #[trigger] before[j]@ == x;
                            if j < before.len() - 1 {
                                assert(stack@[j]@ == x);
                            }
                        }
                        assert forall|j: int| 0 <= j < stack@.len() implies goal.contains(
                            #[trigger] stack@[j]@,
                        ) by {
                            assert(before[j]@ == stack@[j]@);
                        }
                    }
                }
            },
        }
    }
    proof {
        assert forall|x: Seq<char>| reached_from(edges@, starts, x) implies #[trigger] seen@.contains(
            x,
        ) by {
            let d = choose|d: int|
                0 <= d < starts.len() && reachable(edges@, #[trigger] starts[d], x);
            assert(seen@.contains(starts[d]));
            lemma_closed_holds_reachable(edges@, seen@, starts[d], x);
        }
        assert forall|x: Seq<char>| #[trigger] seen@.contains(x) implies reached_from(
            edges@,
            starts,
            x,
        ) by {
            assert(reached_set(edges@, starts).contains(x));
        }
    }
    seen
}

/// Whether `target` is `start`, or is reached from it along `edges`.
pub fn reaches(edges: &OrderedSet<(String, String)>, start: &str, target: &str) -> (r: bool)
    requires
        edges.wf(),
    ensures
        r == reachable(edges@, start@, target@),
{
    let mut from: Vec<String> = Vec::new();
    from.push(start.to_owned());
    let reached: OrderedSet<String> = effective_roles(edges, &from);
    let goal: String = target.to_owned();
    proof {
        assert(texts(from@) =~= seq![start@]);
        if reached_from(edges@, texts(from@), target@) {
            assert(reachable(edges@, start@, target@));
        }
        if reachable(edges@, start@, target@) {
            assert(reachable(edges@, texts(from@)[0], target@));
        }
    }
    reached.contains(&goal)
}

} // verus!
