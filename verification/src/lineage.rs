//! Lineage: events that tie runs to the datasets they read and wrote, and the
//! graph between datasets that they span.
use crate::error::ControlPlaneError;
use crate::key::Key;
use crate::memory::{ControlPlaneView, MemoryControlPlane};
use crate::ordered::{lemma_entry, lemma_position, position_of, OrderedSet};
use crate::types::{pair_before, DatasetKey, DatasetRef, EventType, LineageEvent};
use vstd::prelude::*;

verus! {

/// What page of a listing is asked for: at most `limit` items, those behind
/// `after`.
pub struct PageReq<C> {
    pub limit: usize,
    pub after: Option<C>,
}

/// A page of a listing. `next` is where the next page begins behind, where more
/// is left.
pub struct Page<T, C> {
    pub items: Vec<T>,
    pub next: Option<C>,
}

/// How many of `n` items a page shows.
pub open spec fn page_len(n: nat, limit: usize) -> int {
    if n <= limit {
        n as int
    } else {
        limit as int
    }
}

/// Which way to walk the graph.
#[derive(Clone, Copy, Debug, PartialEq, Eq, Structural)]
pub enum Dir {
    /// From what a run wrote to what it read.
    Upstream,
    /// From what a run read to what it wrote.
    Downstream,
}

/// Whether a run reads or writes a dataset.
#[derive(Clone, Copy, Debug, PartialEq, Eq, Structural)]
pub enum RunRole {
    Input,
    Output,
}

/// A run that touches a dataset, by its latest event that does.
#[derive(Clone, Copy, Debug)]
pub struct RunSummary {
    pub run_id: u128,
    pub latest_event_time: i128,
    pub latest_event_type: EventType,
    pub role: RunRole,
}

/// `d` is one of `list`.
pub open spec fn lists(list: Seq<DatasetRef>, d: DatasetKey) -> bool {
    exists|i: int| 0 <= i < list.len() && #[trigger] list[i]@ == d
}

/// What an event yields from a dataset that it has on the other side.
pub open spec fn yields(e: LineageEvent, dir: Dir) -> Seq<DatasetRef> {
    match dir {
        Dir::Upstream => e.inputs@,
        Dir::Downstream => e.outputs@,
    }
}

/// Where an event has to have a dataset to yield from it.
pub open spec fn probes(e: LineageEvent, dir: Dir) -> Seq<DatasetRef> {
    match dir {
        Dir::Upstream => e.outputs@,
        Dir::Downstream => e.inputs@,
    }
}

/// `b` is one step from `a`.
pub open spec fn linked(events: Seq<LineageEvent>, dir: Dir, a: DatasetKey, b: DatasetKey) -> bool {
    exists|i: int|
        0 <= i < events.len() && lists(probes(#[trigger] events[i], dir), a) && lists(
            yields(events[i], dir),
            b,
        )
}

/// What is at most `n` steps from `start`.
pub open spec fn within(
    events: Seq<LineageEvent>,
    dir: Dir,
    start: DatasetKey,
    n: nat,
) -> Set<DatasetKey>
    decreases n,
{
    if n == 0 {
        Set::new(|b: DatasetKey| b == start)
    } else {
        let near = within(events, dir, start, (n - 1) as nat);
        Set::new(
            |b: DatasetKey|
                near.contains(b) || exists|c: DatasetKey| #[trigger]
                    near.contains(c) && linked(events, dir, c, b),
        )
    }
}

/// Whether `d` is one of `list`.
fn listed(list: &Vec<DatasetRef>, d: &DatasetRef) -> (r: bool)
    ensures
        r == lists(list@, d@),
{
    let mut i: usize = 0;
    while i < list.len()
        invariant
            i <= list@.len(),
            forall|j: int| 0 <= j < i ==> #[trigger] list@[j]@ != d@,
        decreases list@.len() - i,
    {
        if list[i].same(d) {
            return true;
        }
        i = i + 1;
    }
    false
}

/// The neighbors that the first `n` events give a dataset, in the order of the
/// events.
pub open spec fn neighbor_list(
    events: Seq<LineageEvent>,
    dir: Dir,
    node: DatasetKey,
    n: nat,
) -> Seq<DatasetRef>
    decreases n,
{
    if n == 0 {
        Seq::empty()
    } else {
        let before = neighbor_list(events, dir, node, (n - 1) as nat);
        if lists(probes(events[n - 1], dir), node) {
            before + yields(events[n - 1], dir)
        } else {
            before
        }
    }
}

/// What is one step from `node`, in the order of the events.
pub fn neighbors(events: &Vec<LineageEvent>, node: &DatasetRef, dir: Dir) -> (r: Vec<DatasetRef>)
    ensures
        r@ == neighbor_list(events@, dir, node@, events@.len()),
{
    let mut out: Vec<DatasetRef> = Vec::new();
    let mut i: usize = 0;
    while i < events.len()
        invariant
            i <= events@.len(),
            out@ == neighbor_list(events@, dir, node@, i as nat),
        decreases events@.len() - i,
    {
        let (probe, give): (&Vec<DatasetRef>, &Vec<DatasetRef>) = match dir {
            Dir::Upstream => (&events[i].outputs, &events[i].inputs),
            Dir::Downstream => (&events[i].inputs, &events[i].outputs),
        };
        if listed(probe, node) {
            let ghost before = out@;
            let mut j: usize = 0;
            while j < give.len()
                invariant
                    j <= give@.len(),
                    out@ == before + give@.take(j as int),
                decreases give@.len() - j,
            {
                out.push(give[j].duplicate());
                assert(out@ =~= before + give@.take(j + 1));
                j = j + 1;
            }
            assert(give@.take(j as int) =~= give@);
        }
        i = i + 1;
    }
    out
}

/// A neighbor is one step away, and what is one step away is a neighbor.
proof fn lemma_neighbors(events: Seq<LineageEvent>, dir: Dir, node: DatasetKey, n: nat, b: DatasetKey)
    requires
        n <= events.len(),
    ensures
        lists(neighbor_list(events, dir, node, n), b) <==> exists|i: int|
            0 <= i < n && lists(probes(#[trigger] events[i], dir), node) && lists(
                yields(events[i], dir),
                b,
            ),
    decreases n,
{
    if n > 0 {
        let m = (n - 1) as nat;
        lemma_neighbors(events, dir, node, m, b);
        let before = neighbor_list(events, dir, node, m);
        let more = yields(events[n - 1], dir);
        if lists(probes(events[n - 1], dir), node) {
            let all = before + more;
            if lists(all, b) {
                let i = choose|i: int| 0 <= i < all.len() && #[trigger] all[i]@ == b;
                if i < before.len() {
                    assert(before[i]@ == b);
                } else {
                    assert(more[i - before.len()]@ == b);
                }
            }
            if lists(before, b) {
                let i = choose|i: int| 0 <= i < before.len() && #[trigger] before[i]@ == b;
                assert(all[i]@ == b);
            }
            if lists(more, b) {
                let i = choose|i: int| 0 <= i < more.len() && #[trigger] more[i]@ == b;
                assert(all[before.len() + i]@ == b);
            }
        }
    }
}

/// Adds to `seen` what is one step from `node`, and to `next` what of it was new.
fn visit_neighbors(
    events: &Vec<LineageEvent>,
    node: &DatasetRef,
    dir: Dir,
    seen: &mut OrderedSet<DatasetRef>,
    next: &mut Vec<DatasetRef>,
)
    requires
        old(seen).wf(),
    ensures
        final(seen).wf(),
        forall|b: DatasetKey| #[trigger]
            final(seen)@.contains(b) <==> old(seen)@.contains(b) || linked(events@, dir, node@, b),
        forall|b: DatasetKey| #[trigger]
            lists(final(next)@, b) <==> lists(old(next)@, b) || (final(seen)@.contains(b)
                && !old(seen)@.contains(b)),
        final(next)@.len() == 0 ==> final(seen)@ == old(seen)@,
        final(next)@.len() >= old(next)@.len(),
{
    let near: Vec<DatasetRef> = neighbors(events, node, dir);
    let ghost was = seen@;
    let ghost waiting = next@;
    let mut i: usize = 0;
    while i < near.len()
        invariant
            seen.wf(),
            i <= near@.len(),
            forall|b: DatasetKey| #[trigger]
                seen@.contains(b) <==> was.contains(b) || lists(near@.take(i as int), b),
            forall|b: DatasetKey| #[trigger]
                lists(next@, b) <==> lists(waiting, b) || (seen@.contains(b) && !was.contains(b)),
            next@.len() == 0 ==> seen@ == was,
            next@.len() >= waiting.len(),
        decreases near@.len() - i,
    {
        let ghost before = next@;
        let ghost head = near@.take(i as int);
        let ghost longer = near@.take(i + 1);
        proof {
            assert(longer =~= head.push(near@[i as int]));
            assert forall|b: DatasetKey| lists(longer, b) <==> lists(head, b) || b == near@[i as int]@ by {
                if lists(longer, b) {
                    let j = choose|j: int| 0 <= j < longer.len() && #[trigger] longer[j]@ == b;
                    if j < i {
                        assert(head[j]@ == b);
                    }
                }
                if lists(head, b) {
                    let j = choose|j: int| 0 <= j < head.len() && #[trigger] head[j]@ == b;
                    assert(longer[j]@ == b);
                }
                assert(longer[i as int]@ == near@[i as int]@);
            }
        }
        if !seen.contains(&near[i]) {
            seen.insert(near[i].duplicate());
            next.push(near[i].duplicate());
            proof {
                assert forall|b: DatasetKey| #[trigger] lists(next@, b) <==> lists(before, b) || b
                    == near@[i as int]@ by {
                    if lists(next@, b) {
                        let j = choose|j: int| 0 <= j < next@.len() && #[trigger] next@[j]@ == b;
                        if j < before.len() {
                            assert(before[j]@ == b);
                        }
                    }
                    if lists(before, b) {
                        let j = choose|j: int| 0 <= j < before.len() && #[trigger] before[j]@ == b;
                        assert(next@[j]@ == b);
                    }
                    assert(next@[before.len() as int]@ == near@[i as int]@);
                }
            }
        }
        i = i + 1;
    }
    proof {
        assert(near@.take(i as int) =~= near@);
        assert forall|b: DatasetKey| #[trigger] seen@.contains(b) <==> was.contains(b) || linked(
            events@,
            dir,
            node@,
            b,
        ) by {
            lemma_neighbors(events@, dir, node@, events@.len(), b);
        }
    }
}

/// `f` holds what is `n` steps from `start` and no nearer.
spec fn is_frontier(
    events: Seq<LineageEvent>,
    dir: Dir,
    start: DatasetKey,
    n: nat,
    f: Seq<DatasetRef>,
) -> bool {
    forall|b: DatasetKey| #[trigger]
        lists(f, b) <==> within(events, dir, start, n).contains(b) && (n == 0 || !within(
            events,
            dir,
            start,
            (n - 1) as nat,
        ).contains(b))
}

/// Once a step reaches nothing new, no further step does.
proof fn lemma_closed(events: Seq<LineageEvent>, dir: Dir, start: DatasetKey, n: nat, m: nat)
    requires
        within(events, dir, start, n + 1) == within(events, dir, start, n),
        n <= m,
    ensures
        within(events, dir, start, m) == within(events, dir, start, n),
    decreases m,
{
    if m > n {
        lemma_closed(events, dir, start, n, (m - 1) as nat);
        assert(within(events, dir, start, m) =~= within(events, dir, start, n + 1));
    }
}

/// Walking one step from the frontier reaches all that is one step further.
proof fn lemma_step_from_frontier(
    events: Seq<LineageEvent>,
    dir: Dir,
    start: DatasetKey,
    n: nat,
    f: Seq<DatasetRef>,
    seen: Set<DatasetKey>,
)
    requires
        is_frontier(events, dir, start, n, f),
        forall|b: DatasetKey| #[trigger]
            seen.contains(b) <==> within(events, dir, start, n).contains(b) || exists|i: int|
                0 <= i < f.len() && linked(events, dir, (#[trigger] f[i])@, b),
    ensures
        seen == within(events, dir, start, n + 1),
{
    let near = within(events, dir, start, n);
    let far = within(events, dir, start, n + 1);
    assert forall|b: DatasetKey| #[trigger] far.contains(b) implies seen.contains(b) by {
        if !near.contains(b) {
            let c = choose|c: DatasetKey| #[trigger]
                near.contains(c) && linked(events, dir, c, b);
            if n > 0 && within(events, dir, start, (n - 1) as nat).contains(c) {
                assert(near.contains(b));
            } else {
                assert(lists(f, c));
                let i = choose|i: int| 0 <= i < f.len() && #[trigger] f[i]@ == c;
                assert(linked(events, dir, f[i]@, b));
            }
        }
    }
    assert forall|b: DatasetKey| #[trigger] seen.contains(b) implies far.contains(b) by {
        if !near.contains(b) {
            let i = choose|i: int| 0 <= i < f.len() && linked(events, dir, (#[trigger] f[i])@, b);
            assert(lists(f, f[i]@));
            assert(near.contains(f[i]@));
        }
    }
    assert(seen =~= far);
}

/// One layer of the walk: adds to `seen` what is one step from `frontier`, and
/// gives what of it is new.
fn visit_layer(
    events: &Vec<LineageEvent>,
    frontier: &Vec<DatasetRef>,
    dir: Dir,
    seen: &mut OrderedSet<DatasetRef>,
) -> (r: Vec<DatasetRef>)
    requires
        old(seen).wf(),
    ensures
        final(seen).wf(),
        forall|b: DatasetKey| #[trigger]
            final(seen)@.contains(b) <==> old(seen)@.contains(b) || exists|i: int|
                0 <= i < frontier@.len() && linked(events@, dir, (#[trigger] frontier@[i])@, b),
        forall|b: DatasetKey| #[trigger]
            lists(r@, b) <==> final(seen)@.contains(b) && !old(seen)@.contains(b),
        r@.len() == 0 ==> final(seen)@ == old(seen)@,
{
    let ghost was = seen@;
    let mut next: Vec<DatasetRef> = Vec::new();
    let mut i: usize = 0;
    while i < frontier.len()
        invariant
            seen.wf(),
            i <= frontier@.len(),
            forall|b: DatasetKey| #[trigger]
                seen@.contains(b) <==> was.contains(b) || exists|j: int|
                    0 <= j < i && linked(events@, dir, (#[trigger] frontier@[j])@, b),
            forall|b: DatasetKey| #[trigger]
                lists(next@, b) <==> seen@.contains(b) && !was.contains(b),
            next@.len() == 0 ==> seen@ == was,
        decreases frontier@.len() - i,
    {
        let ghost mid = seen@;
        visit_neighbors(events, &frontier[i], dir, seen, &mut next);
        proof {
            assert forall|b: DatasetKey| #[trigger] seen@.contains(b) <==> was.contains(b) || exists|
                j: int,
            | 0 <= j < i + 1 && linked(events@, dir, (#[trigger] frontier@[j])@, b) by {
                if linked(events@, dir, frontier@[i as int]@, b) {
                    assert(0 <= i < i + 1);
                }
                if mid.contains(b) && !was.contains(b) {
                    let j = choose|j: int|
                        0 <= j < i && linked(events@, dir, (#[trigger] frontier@[j])@, b);
                    assert(linked(events@, dir, frontier@[j]@, b));
                }
            }
        }
        i = i + 1;
    }
    next
}

/// The datasets at most `depth` steps from `start`, itself left out, in order.
pub fn closure(events: &Vec<LineageEvent>, start: &DatasetRef, depth: u32, dir: Dir) -> (r: Vec<DatasetRef>)
    ensures
        is_closure(events@, dir, start@, depth as nat, r@),
{
    let mut seen: OrderedSet<DatasetRef> = OrderedSet::new();
    seen.insert(start.duplicate());
    let mut frontier: Vec<DatasetRef> = Vec::new();
    frontier.push(start.duplicate());
    let mut n: u32 = 0;
    proof {
        assert(seen@ =~= within(events@, dir, start@, 0));
        assert forall|b: DatasetKey| #[trigger] lists(frontier@, b) <==> within(
            events@,
            dir,
            start@,
            0,
        ).contains(b) by {
            assert(frontier@[0]@ == start@);
        }
    }
    let mut done: bool = false;
    while n < depth && !done
        invariant
            seen.wf(),
            n <= depth,
            !done ==> seen@ == within(events@, dir, start@, n as nat) && is_frontier(
                events@,
                dir,
                start@,
                n as nat,
                frontier@,
            ),
            done ==> seen@ == within(events@, dir, start@, depth as nat),
        decreases (if done { 0int } else { depth - n + 1 }),
    {
        let next: Vec<DatasetRef> = visit_layer(events, &frontier, dir, &mut seen);
        proof {
            lemma_step_from_frontier(events@, dir, start@, n as nat, frontier@, seen@);
        }
        if next.len() == 0 {
            proof {
                lemma_closed(events@, dir, start@, n as nat, depth as nat);
            }
            done = true;
        } else {
            assert(is_frontier(events@, dir, start@, (n + 1) as nat, next@));
            frontier = next;
            n = n + 1;
        }
    }
    let entries: &Vec<(DatasetRef, ())> = &seen.map.entries;
    let mut out: Vec<DatasetRef> = Vec::new();
    let ghost mut at: Seq<int> = Seq::empty();
    let mut i: usize = 0;
    while i < entries.len()
        invariant
            seen.wf(),
            *entries == seen.map.entries,
            i <= entries@.len(),
            at.len() == out@.len(),
            forall|a: int|
                0 <= a < at.len() ==> 0 <= #[trigger] at[a] < i && out@[a]@ == entries@[at[a]].0@
                    && out@[a]@ != start@,
            forall|a: int, b: int| 0 <= a < b < at.len() ==> #[trigger] at[a] < #[trigger] at[b],
            forall|e: int|
                0 <= e < i && (#[trigger] entries@[e]).0@ != start@ ==> at.contains(e),
        decreases entries@.len() - i,
    {
        let ghost before = at;
        if !entries[i].0.same(start) {
            out.push(entries[i].0.duplicate());
            proof {
                at = at.push(i as int);
                assert(at[at.len() - 1] == i);
            }
        }
        proof {
            assert forall|e: int| 0 <= e < i + 1 && (#[trigger] entries@[e]).0@ != start@ implies at.contains(
                e,
            ) by {
                if e < i {
                    let a = choose|a: int| 0 <= a < before.len() && before[a] == e;
                    assert(at[a] == e);
                }
            }
        }
        i = i + 1;
    }
    proof {
        assert forall|a: int, b: int| 0 <= a < b < out@.len() implies pair_before(
            #[trigger] out@[a]@,
            #[trigger] out@[b]@,
        ) by {
            assert(at[a] < at[b]);
            assert(DatasetRef::before(entries@[at[a]].0.model(), entries@[at[b]].0.model()));
        }
        assert forall|b: DatasetKey| lists(out@, b) <==> #[trigger] seen@.contains(b) && b != start@ by {
            if lists(out@, b) {
                let a = choose|a: int| 0 <= a < out@.len() && #[trigger] out@[a]@ == b;
                lemma_entry(entries@, at[a]);
            }
            if seen@.contains(b) && b != start@ {
                lemma_position(entries@, b);
                let p = position_of(entries@, b);
                assert(entries@[p].0@ != start@);
                let a = choose|a: int| 0 <= a < at.len() && at[a] == p;
                assert(out@[a]@ == b);
            }
        }
    }
    out
}

/// `r` lists, in order, what is at most `depth` steps from `start` but for `start`.
pub open spec fn is_closure(
    events: Seq<LineageEvent>,
    dir: Dir,
    start: DatasetKey,
    depth: nat,
    r: Seq<DatasetRef>,
) -> bool {
    &&& forall|a: int, b: int|
        0 <= a < b < r.len() ==> pair_before(#[trigger] r[a]@, #[trigger] r[b]@)
    &&& forall|b: DatasetKey|
        #![trigger lists(r, b)]
        #![trigger within(events, dir, start, depth).contains(b)]
        lists(r, b) <==> within(events, dir, start, depth).contains(b) && b != start
}


/// The datasets of a sorted list behind `after`.
pub open spec fn behind(sorted: Seq<DatasetRef>, after: Option<DatasetRef>) -> Seq<DatasetRef>
    decreases sorted.len(),
{
    if sorted.len() == 0 {
        Seq::empty()
    } else if after matches Some(a) && !pair_before(a@, sorted.last()@) {
        behind(sorted.drop_last(), after)
    } else {
        behind(sorted.drop_last(), after).push(sorted.last())
    }
}

/// `page` shows the first of `all`, as many as `limit` lets, and says where it
/// ends where more is left.
pub open spec fn is_dataset_page(
    page: Page<DatasetRef, DatasetRef>,
    all: Seq<DatasetRef>,
    limit: usize,
) -> bool {
    let n = page_len(all.len(), limit);
    &&& page.items@ == all.take(n)
    &&& page.next is Some <==> all.len() > limit && limit > 0
    &&& page.next matches Some(d) ==> d == all[n - 1]
}

/// The page of a sorted list of datasets.
pub fn paginate_datasets(sorted: Vec<DatasetRef>, page: &PageReq<DatasetRef>) -> (r: Page<
    DatasetRef,
    DatasetRef,
>)
    ensures
        is_dataset_page(r, behind(sorted@, page.after), page.limit),
{
    let mut all: Vec<DatasetRef> = Vec::new();
    let mut i: usize = 0;
    while i < sorted.len()
        invariant
            i <= sorted@.len(),
            all@ == behind(sorted@.take(i as int), page.after),
        decreases sorted@.len() - i,
    {
        assert(sorted@.take(i + 1).drop_last() =~= sorted@.take(i as int));
        let shown: bool = match &page.after {
            Some(a) => a.precedes(&sorted[i]),
            None => true,
        };
        if shown {
            all.push(sorted[i].duplicate());
        }
        i = i + 1;
    }
    assert(sorted@.take(i as int) =~= sorted@);
    let ghost full = all@;
    let mut next: Option<DatasetRef> = None;
    if all.len() > page.limit {
        all.truncate(page.limit);
        if page.limit > 0 {
            next = Some(all[page.limit - 1].duplicate());
        }
    }
    assert(all@ =~= full.take(page_len(full.len(), page.limit)));
    Page { items: all, next }
}

/// The numbers of the events of `run` behind `after`, up to `n`, in order.
pub open spec fn run_events(
    events: Seq<LineageEvent>,
    run: u128,
    after: Option<i64>,
    n: nat,
) -> Seq<int>
    decreases n,
{
    if n == 0 {
        Seq::empty()
    } else {
        let before = run_events(events, run, after, (n - 1) as nat);
        if events[n - 1].run_id == run && (after matches Some(a) ==> a < n - 1) {
            before.push(n - 1)
        } else {
            before
        }
    }
}

proof fn lemma_run_events(events: Seq<LineageEvent>, run: u128, after: Option<i64>, n: nat)
    ensures
        forall|i: int|
            0 <= i < run_events(events, run, after, n).len() ==> 0 <= #[trigger] run_events(
                events,
                run,
                after,
                n,
            )[i] < n,
    decreases n,
{
    if n > 0 {
        let before = run_events(events, run, after, (n - 1) as nat);
        lemma_run_events(events, run, after, (n - 1) as nat);
        assert forall|i: int|
            0 <= i < run_events(events, run, after, n).len() implies 0 <= #[trigger] run_events(
            events,
            run,
            after,
            n,
        )[i] < n by {
            if i < before.len() {
                assert(0 <= before[i] < n - 1);
            }
        }
    }
}

/// The event has the dataset among its inputs or its outputs.
pub open spec fn touched(e: LineageEvent, d: DatasetKey) -> bool {
    lists(e.inputs@, d) || lists(e.outputs@, d)
}

/// Event `i` is the latest of its run that touches the dataset.
pub open spec fn is_latest(events: Seq<LineageEvent>, d: DatasetKey, i: int) -> bool {
    touched(events[i], d) && forall|j: int|
        i < j < events.len() && (#[trigger] events[j]).run_id == events[i].run_id ==> !touched(
            events[j],
            d,
        )
}

/// Some event of the run writes the dataset.
pub open spec fn writes(events: Seq<LineageEvent>, run: u128, d: DatasetKey) -> bool {
    exists|j: int|
        0 <= j < events.len() && (#[trigger] events[j]).run_id == run && lists(events[j].outputs@, d)
}

/// The numbers, from `k` on and below `after`, of the latest events of the runs
/// that touch the dataset, the newest first.
pub open spec fn latest_events(
    events: Seq<LineageEvent>,
    d: DatasetKey,
    after: Option<i64>,
    k: int,
) -> Seq<int>
    decreases events.len() - k,
{
    if k >= events.len() {
        Seq::empty()
    } else {
        let newer = latest_events(events, d, after, k + 1);
        if is_latest(events, d, k) && (after matches Some(a) ==> k < a) {
            newer.push(k)
        } else {
            newer
        }
    }
}

/// What is said of the run whose latest event on the dataset is `i`.
pub open spec fn summary(events: Seq<LineageEvent>, d: DatasetKey, i: int) -> RunSummary {
    RunSummary {
        run_id: events[i].run_id,
        latest_event_time: events[i].event_time,
        latest_event_type: events[i].event_type,
        role: if writes(events, events[i].run_id, d) {
            RunRole::Output
        } else {
            RunRole::Input
        },
    }
}

/// Whether event `i` is the latest of its run that touches the dataset.
fn check_latest(events: &Vec<LineageEvent>, dataset: &DatasetRef, i: usize) -> (r: bool)
    requires
        i < events@.len(),
    ensures
        r == is_latest(events@, dataset@, i as int),
{
    if !listed(&events[i].inputs, dataset) && !listed(&events[i].outputs, dataset) {
        return false;
    }
    let total: usize = events.len();
    let mut j: usize = i + 1;
    while j < total
        invariant
            i < j <= events@.len(),
            total == events@.len(),
            forall|k: int|
                i < k < j && (#[trigger] events@[k]).run_id == events@[i as int].run_id ==> !touched(
                    events@[k],
                    dataset@,
                ),
        decreases events@.len() - j,
    {
        if events[j].run_id == events[i].run_id && (listed(&events[j].inputs, dataset) || listed(
            &events[j].outputs,
            dataset,
        )) {
            assert(touched(events@[j as int], dataset@));
            return false;
        }
        j = j + 1;
    }
    true
}

/// Whether some event of the run writes the dataset.
fn check_writes(events: &Vec<LineageEvent>, run: u128, dataset: &DatasetRef) -> (r: bool)
    ensures
        r == writes(events@, run, dataset@),
{
    let mut j: usize = 0;
    while j < events.len()
        invariant
            j <= events@.len(),
            forall|k: int|
                0 <= k < j && (#[trigger] events@[k]).run_id == run ==> !lists(
                    events@[k].outputs@,
                    dataset@,
                ),
        decreases events@.len() - j,
    {
        if events[j].run_id == run && listed(&events[j].outputs, dataset) {
            return true;
        }
        j = j + 1;
    }
    false
}

impl MemoryControlPlane {
    /// Records a lineage event.
    pub fn emit(&mut self, event: LineageEvent)
        requires
            old(self).wf(),
        ensures
            final(self).wf(),
            final(self)@ == (ControlPlaneView {
                events: old(self)@.events.push(event),
                ..old(self)@
            }),
    {
        self.events.push(event);
    }

    /// A page of the events of a run, in the order they were recorded.
    pub fn events_for(&self, run: u128, page: &PageReq<i64>) -> (r: Page<&LineageEvent, i64>)
        requires
            self.wf(),
            self@.events.len() <= i64::MAX,
        ensures
            ({
                let all = run_events(self@.events, run, page.after, self@.events.len());
                let n = page_len(all.len(), page.limit);
                &&& r.items@.len() == n
                &&& forall|i: int| 0 <= i < n ==> *(#[trigger] r.items@[i]) == self@.events[all[i]]
                &&& r.next == (if all.len() > page.limit && page.limit > 0 {
                    Some(all[n - 1] as i64)
                } else {
                    None
                })
            }),
    {
        let ghost all = run_events(self@.events, run, page.after, self@.events.len());
        let mut items: Vec<&LineageEvent> = Vec::new();
        let mut last: i64 = 0;
        let mut more: bool = false;
        let mut i: usize = 0;
        while i < self.events.len()
            invariant
                i <= self.events@.len(),
                self@.events == self.events@,
                self@.events.len() <= i64::MAX,
                ({
                    let seen = run_events(self@.events, run, page.after, i as nat);
                    let n = page_len(seen.len(), page.limit);
                    &&& items@.len() == n
                    &&& forall|j: int| 0 <= j < n ==> *(#[trigger] items@[j]) == self@.events[seen[j]]
                    &&& more == (seen.len() > page.limit)
                    &&& n > 0 ==> last == seen[n - 1]
                }),
            decreases self.events@.len() - i,
        {
            proof {
                lemma_run_events(self@.events, run, page.after, i as nat);
            }
            let behind: bool = match page.after {
                Some(a) => a < i as i64,
                None => true,
            };
            if self.events[i].run_id == run && behind {
                if items.len() < page.limit {
                    items.push(&self.events[i]);
                    last = i as i64;
                } else {
                    more = true;
                }
            }
            i = i + 1;
        }
        Page {
            items,
            next: if more && page.limit > 0 {
                Some(last)
            } else {
                None
            },
        }
    }

    /// What `dataset` comes from, `depth` steps back at most. `checked` is the
    /// verdict on the depth.
    pub fn upstream(
        &self,
        dataset: &DatasetRef,
        depth: u32,
        page: &PageReq<DatasetRef>,
        checked: Result<(), ControlPlaneError>,
    ) -> (r: Result<Page<DatasetRef, DatasetRef>, ControlPlaneError>)
        requires
            self.wf(),
        ensures
            walked(self@.events, Dir::Upstream, dataset@, depth, *page, checked, r),
    {
        match checked {
            Err(e) => Err(e),
            Ok(_) => {
                let all: Vec<DatasetRef> = closure(&self.events, dataset, depth, Dir::Upstream);
                Ok(paginate_datasets(all, page))
            },
        }
    }

    /// What comes from `dataset`, `depth` steps on at most. `checked` is the verdict
    /// on the depth.
    pub fn downstream(
        &self,
        dataset: &DatasetRef,
        depth: u32,
        page: &PageReq<DatasetRef>,
        checked: Result<(), ControlPlaneError>,
    ) -> (r: Result<Page<DatasetRef, DatasetRef>, ControlPlaneError>)
        requires
            self.wf(),
        ensures
            walked(self@.events, Dir::Downstream, dataset@, depth, *page, checked, r),
    {
        match checked {
            Err(e) => Err(e),
            Ok(_) => {
                let all: Vec<DatasetRef> = closure(&self.events, dataset, depth, Dir::Downstream);
                Ok(paginate_datasets(all, page))
            },
        }
    }

    /// A page of the runs that touch a dataset, the newest first.
    pub fn runs_for(&self, dataset: &DatasetRef, page: &PageReq<i64>) -> (r: Page<RunSummary, i64>)
        requires
            self.wf(),
            self@.events.len() <= i64::MAX,
        ensures
            ({
                let all = latest_events(self@.events, dataset@, page.after, 0);
                let n = page_len(all.len(), page.limit);
                &&& r.items@.len() == n
                &&& forall|i: int|
                    0 <= i < n ==> #[trigger] r.items@[i] == summary(self@.events, dataset@, all[i])
                &&& r.next == (if all.len() > page.limit && page.limit > 0 {
                    Some(all[n - 1] as i64)
                } else {
                    None
                })
            }),
    {
        let mut items: Vec<RunSummary> = Vec::new();
        let mut last: i64 = 0;
        let mut more: bool = false;
        let mut i: usize = self.events.len();
        while i > 0
            invariant
                i <= self.events@.len(),
                self@.events == self.events@,
                self@.events.len() <= i64::MAX,
                ({
                    let seen = latest_events(self@.events, dataset@, page.after, i as int);
                    let n = page_len(seen.len(), page.limit);
                    &&& items@.len() == n
                    &&& forall|j: int|
                        0 <= j < n ==> #[trigger] items@[j] == summary(
                            self@.events,
                            dataset@,
                            seen[j],
                        )
                    &&& more == (seen.len() > page.limit)
                    &&& n > 0 ==> last == seen[n - 1]
                }),
            decreases i,
        {
            i = i - 1;
            let older: bool = match page.after {
                Some(a) => (i as i64) < a,
                None => true,
            };
            if older && check_latest(&self.events, dataset, i) {
                if items.len() < page.limit {
                    let e: &LineageEvent = &self.events[i];
                    items.push(
                        RunSummary {
                            run_id: e.run_id,
                            latest_event_time: e.event_time,
                            latest_event_type: e.event_type,
                            role: if check_writes(&self.events, e.run_id, dataset) {
                                RunRole::Output
                            } else {
                                RunRole::Input
                            },
                        },
                    );
                    last = i as i64;
                } else {
                    more = true;
                }
            }
        }
        Page {
            items,
            next: if more && page.limit > 0 {
                Some(last)
            } else {
                None
            },
        }
    }
}

/// What a walk of the graph gives.
pub open spec fn walked(
    events: Seq<LineageEvent>,
    dir: Dir,
    start: DatasetKey,
    depth: u32,
    page: PageReq<DatasetRef>,
    checked: Result<(), ControlPlaneError>,
    r: Result<Page<DatasetRef, DatasetRef>, ControlPlaneError>,
) -> bool {
    match checked {
        Err(e) => r == Err::<Page<DatasetRef, DatasetRef>, ControlPlaneError>(e),
        Ok(_) => r is Ok && exists|all: Seq<DatasetRef>| #[trigger]
            is_closure(events, dir, start, depth as nat, all) && is_dataset_page(
                r->Ok_0,
                behind(all, page.after),
                page.limit,
            ),
    }
}

/// A walk never comes back with where it started.
pub proof fn law_closure_leaves_start_out(
    events: Seq<LineageEvent>,
    dir: Dir,
    start: DatasetKey,
    depth: nat,
    r: Seq<DatasetRef>,
)
    requires
        is_closure(events, dir, start, depth, r),
    ensures
        !lists(r, start),
{
}

/// A deeper walk finds all that a shallower one does.
pub proof fn law_deeper_finds_more(
    events: Seq<LineageEvent>,
    dir: Dir,
    start: DatasetKey,
    n: nat,
    m: nat,
)
    requires
        n <= m,
    ensures
        within(events, dir, start, n).subset_of(within(events, dir, start, m)),
    decreases m,
{
    if n < m {
        law_deeper_finds_more(events, dir, start, n, (m - 1) as nat);
    }
}

/// Upstream and downstream walk the same links, in opposite directions.
pub proof fn law_directions_mirror(events: Seq<LineageEvent>, a: DatasetKey, b: DatasetKey)
    ensures
        linked(events, Dir::Upstream, a, b) <==> linked(events, Dir::Downstream, b, a),
{
    if linked(events, Dir::Upstream, a, b) {
        let i = choose|i: int|
            0 <= i < events.len() && lists(probes(#[trigger] events[i], Dir::Upstream), a) && lists(
                yields(events[i], Dir::Upstream),
                b,
            );
        assert(lists(probes(events[i], Dir::Downstream), b));
    }
    if linked(events, Dir::Downstream, b, a) {
        let i = choose|i: int|
            0 <= i < events.len() && lists(probes(#[trigger] events[i], Dir::Downstream), b)
                && lists(yields(events[i], Dir::Downstream), a);
        assert(lists(probes(events[i], Dir::Upstream), a));
    }
}

/// Each run that touches a dataset is listed once.
pub proof fn law_runs_collapse(events: Seq<LineageEvent>, d: DatasetKey, i: int, j: int)
    requires
        0 <= i < events.len(),
        0 <= j < events.len(),
        is_latest(events, d, i),
        is_latest(events, d, j),
        events[i].run_id == events[j].run_id,
    ensures
        i == j,
{
    if i < j {
        assert(!touched(events[j], d));
    }
    if j < i {
        assert(!touched(events[i], d));
    }
}

/// The numbers of a run's events ascend.
proof fn lemma_run_events_ascend(events: Seq<LineageEvent>, run: u128, after: Option<i64>, n: nat)
    ensures
        forall|i: int, j: int|
            0 <= i < j < run_events(events, run, after, n).len() ==> #[trigger] run_events(
                events,
                run,
                after,
                n,
            )[i] < #[trigger] run_events(events, run, after, n)[j],
    decreases n,
{
    if n > 0 {
        let before = run_events(events, run, after, (n - 1) as nat);
        lemma_run_events(events, run, after, (n - 1) as nat);
        lemma_run_events_ascend(events, run, after, (n - 1) as nat);
        let now = run_events(events, run, after, n);
        assert forall|i: int, j: int| 0 <= i < j < now.len() implies #[trigger] now[i] < #[trigger] now[j] by {
            assert(now[i] == before[i]);
            if j < before.len() {
                assert(before[i] < before[j]);
            }
        }
    }
}

/// The events behind `c` are what is left of those behind `after`, once those up to
/// `c` are gone.
proof fn lemma_run_events_split(
    events: Seq<LineageEvent>,
    run: u128,
    after: Option<i64>,
    c: i64,
    n: nat,
)
    requires
        0 <= c,
        after matches Some(a) ==> a <= c,
    ensures
        n <= c + 1 ==> run_events(events, run, Some(c), n).len() == 0,
        n > c ==> run_events(events, run, after, n) == run_events(events, run, after, (c + 1) as nat)
            + run_events(events, run, Some(c), n),
    decreases n,
{
    if n > 0 {
        lemma_run_events_split(events, run, after, c, (n - 1) as nat);
        if n > c + 1 {
            assert(run_events(events, run, after, n) =~= run_events(events, run, after, (c + 1) as nat)
                + run_events(events, run, Some(c), n));
        } else if n == c + 1 {
            assert(run_events(events, run, Some(c), n) =~= Seq::empty());
            assert(run_events(events, run, after, n) =~= run_events(events, run, after, (c + 1) as nat)
                + run_events(events, run, Some(c), n));
        }
    }
}

/// The pages of a run's events join: the page that begins where another ends shows
/// what the other left over, all of it and nothing twice.
pub proof fn law_event_pages_join(events: Seq<LineageEvent>, run: u128, after: Option<i64>, limit: usize)
    requires
        events.len() <= i64::MAX,
        0 < limit < run_events(events, run, after, events.len()).len(),
    ensures
        ({
            let all = run_events(events, run, after, events.len());
            run_events(events, run, Some(all[limit - 1] as i64), events.len()) == all.skip(limit as int)
        }),
{
    let n = events.len();
    let all = run_events(events, run, after, n);
    lemma_run_events(events, run, after, n);
    lemma_run_events_ascend(events, run, after, n);
    let c = all[limit - 1] as i64;
    lemma_event_listed(events, run, after, n, limit - 1);
    lemma_run_events_split(events, run, after, c, n);
    let head = run_events(events, run, after, (c + 1) as nat);
    assert(head.last() == c);
    assert(all[head.len() - 1] == c);
    if head.len() < limit {
        assert(all[head.len() - 1] < all[limit - 1]);
    }
    if head.len() > limit {
        assert(all[limit - 1] < all[head.len() - 1]);
    }
    assert(run_events(events, run, Some(c), n) =~= all.skip(limit as int));
}

/// What is listed is an event of the run behind `after`.
proof fn lemma_event_listed(events: Seq<LineageEvent>, run: u128, after: Option<i64>, n: nat, i: int)
    requires
        0 <= i < run_events(events, run, after, n).len(),
    ensures
        ({
            let k = run_events(events, run, after, n)[i];
            0 <= k < n && events[k].run_id == run && (after matches Some(a) ==> a < k)
        }),
    decreases n,
{
    let before = run_events(events, run, after, (n - 1) as nat);
    if i < before.len() {
        lemma_event_listed(events, run, after, (n - 1) as nat, i);
    }
}

/// The numbers of the latest events descend, and each is one.
proof fn lemma_latest_descend(events: Seq<LineageEvent>, d: DatasetKey, after: Option<i64>, k: int)
    ensures
        forall|i: int|
            0 <= i < latest_events(events, d, after, k).len() ==> {
                let e = #[trigger] latest_events(events, d, after, k)[i];
                k <= e < events.len() && is_latest(events, d, e) && (after matches Some(a) ==> e < a)
            },
        forall|i: int, j: int|
            0 <= i < j < latest_events(events, d, after, k).len() ==> #[trigger] latest_events(
                events,
                d,
                after,
                k,
            )[i] > #[trigger] latest_events(events, d, after, k)[j],
    decreases events.len() - k,
{
    if k < events.len() {
        let newer = latest_events(events, d, after, k + 1);
        lemma_latest_descend(events, d, after, k + 1);
        let now = latest_events(events, d, after, k);
        assert forall|i: int| 0 <= i < now.len() implies {
            let e = #[trigger] now[i];
            k <= e < events.len() && is_latest(events, d, e) && (after matches Some(a) ==> e < a)
        } by {
            if i < newer.len() {
                assert(now[i] == newer[i]);
            }
        }
        assert forall|i: int, j: int| 0 <= i < j < now.len() implies #[trigger] now[i] > #[trigger] now[j] by {
            assert(now[i] == newer[i]);
            if j < newer.len() {
                assert(newer[i] > newer[j]);
            }
        }
    }
}

proof fn lemma_latest_split(events: Seq<LineageEvent>, d: DatasetKey, after: Option<i64>, c: i64, k: int)
    requires
        c < events.len(),
        after matches Some(a) ==> c <= a,
    ensures
        k >= c ==> latest_events(events, d, Some(c), k).len() == 0,
        k <= c ==> latest_events(events, d, after, k) == latest_events(events, d, after, c as int)
            + latest_events(events, d, Some(c), k),
    decreases events.len() - k,
{
    if k < events.len() {
        lemma_latest_split(events, d, after, c, k + 1);
        if k <= c {
            assert(latest_events(events, d, after, k) =~= latest_events(events, d, after, c as int)
                + latest_events(events, d, Some(c), k));
        }
    }
}

/// The pages of a dataset's runs join: the page that begins where another ends shows
/// what the other left over, all of it and nothing twice.
pub proof fn law_run_pages_join(events: Seq<LineageEvent>, d: DatasetKey, after: Option<i64>, limit: usize)
    requires
        events.len() <= i64::MAX,
        0 < limit < latest_events(events, d, after, 0).len(),
    ensures
        ({
            let all = latest_events(events, d, after, 0);
            latest_events(events, d, Some(all[limit - 1] as i64), 0) == all.skip(limit as int)
        }),
{
    let all = latest_events(events, d, after, 0);
    lemma_latest_descend(events, d, after, 0);
    let c = all[limit - 1] as i64;
    assert(is_latest(events, d, c as int));
    lemma_latest_split(events, d, after, c, 0);
    let head = latest_events(events, d, after, c as int);
    assert(head.last() == c);
    assert(all[head.len() - 1] == c);
    if head.len() < limit {
        assert(all[head.len() - 1] > all[limit - 1]);
    }
    if head.len() > limit {
        assert(all[limit - 1] > all[head.len() - 1]);
    }
    assert(latest_events(events, d, Some(c), 0) =~= all.skip(limit as int));
}

/// The datasets are in order, each once.
pub open spec fn ascends(sorted: Seq<DatasetRef>) -> bool {
    forall|i: int, j: int|
        0 <= i < j < sorted.len() ==> pair_before(#[trigger] sorted[i]@, #[trigger] sorted[j]@)
}

/// What is behind `after` is of the list and behind `after`.
proof fn lemma_behind(sorted: Seq<DatasetRef>, after: Option<DatasetRef>, i: int)
    requires
        0 <= i < behind(sorted, after).len(),
    ensures
        exists|j: int| 0 <= j < sorted.len() && #[trigger] sorted[j] == behind(sorted, after)[i],
        after matches Some(a) ==> pair_before(a@, behind(sorted, after)[i]@),
    decreases sorted.len(),
{
    let rest = behind(sorted.drop_last(), after);
    if i < rest.len() {
        lemma_behind(sorted.drop_last(), after, i);
        let j = choose|j: int|
            0 <= j < sorted.drop_last().len() && #[trigger] sorted.drop_last()[j] == rest[i];
        assert(sorted[j] == rest[i]);
    } else {
        assert(sorted[sorted.len() - 1] == behind(sorted, after)[i]);
    }
}

proof fn lemma_nothing_behind(sorted: Seq<DatasetRef>, d: DatasetRef)
    requires
        forall|i: int| 0 <= i < sorted.len() ==> !pair_before(d@, #[trigger] sorted[i]@),
    ensures
        behind(sorted, Some(d)).len() == 0,
    decreases sorted.len(),
{
    if sorted.len() > 0 {
        assert forall|i: int| 0 <= i < sorted.drop_last().len() implies !pair_before(
            d@,
            #[trigger] sorted.drop_last()[i]@,
        ) by {
            assert(sorted.drop_last()[i] == sorted[i]);
        }
        lemma_nothing_behind(sorted.drop_last(), d);
    }
}

/// The pages of a list of datasets join: the page that begins where another ends shows
/// what the other left over, all of it and nothing twice.
pub proof fn law_dataset_pages_join(sorted: Seq<DatasetRef>, after: Option<DatasetRef>, limit: int)
    requires
        ascends(sorted),
        0 < limit <= behind(sorted, after).len(),
    ensures
        behind(sorted, Some(behind(sorted, after)[limit - 1])) == behind(sorted, after).skip(limit),
    decreases sorted.len(),
{
    let all = behind(sorted, after);
    let d = all[limit - 1];
    let short = sorted.drop_last();
    let x = sorted.last();
    let rest = behind(short, after);
    assert(ascends(short)) by {
        assert forall|i: int, j: int| 0 <= i < j < short.len() implies pair_before(
            #[trigger] short[i]@,
            #[trigger] short[j]@,
        ) by {
            assert(short[i] == sorted[i] && short[j] == sorted[j]);
        }
    }
    if limit <= rest.len() {
        law_dataset_pages_join(short, after, limit);
        lemma_behind(short, after, limit - 1);
        let j = choose|j: int| 0 <= j < short.len() && #[trigger] short[j] == rest[limit - 1];
        assert(sorted[j] == d);
        assert(pair_before(d@, x@));
        if let Some(a) = after {
            DatasetRef::order_transitive(a@, d@, x@);
        }
        assert(all == rest.push(x));
        assert(all.skip(limit) =~= rest.skip(limit).push(x));
    } else {
        assert(d == x);
        DatasetRef::order_irreflexive(x@);
        assert forall|i: int| 0 <= i < short.len() implies !pair_before(x@, #[trigger] short[i]@) by {
            assert(short[i] == sorted[i]);
            assert(pair_before(sorted[i]@, sorted[sorted.len() - 1]@));
            DatasetRef::order_transitive(x@, short[i]@, x@);
        }
        lemma_nothing_behind(short, x);
        assert(behind(sorted, Some(x)) =~= all.skip(limit));
    }
}

} // verus!
