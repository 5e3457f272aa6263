//! What holds of the lineage: which datasets lie upstream and downstream, which runs touched
//! a dataset, and what a page shows.
use crate::error::ControlPlaneError;
use crate::lineage::{
    behind, is_closure, is_dataset_page, is_latest, latest_events, linked, lists, neighbor_list,
    page_len, probes, run_events, summary, touched, walked, within, yields, Dir, Page, PageReq, RunRole,
};
use crate::types::{pair_before, DatasetKey, DatasetRef, LineageEvent};
use vstd::prelude::*;

verus! {

/// What a run read lies upstream of what it wrote, one step away, and what it wrote lies
/// downstream of what it read.
pub proof fn law_inputs_lie_upstream(events: Seq<LineageEvent>, i: int, x: int, y: int)
    requires
        0 <= i < events.len(),
        0 <= x < events[i].inputs@.len(),
        0 <= y < events[i].outputs@.len(),
    ensures
        linked(events, Dir::Upstream, events[i].outputs@[y]@, events[i].inputs@[x]@),
        linked(events, Dir::Downstream, events[i].inputs@[x]@, events[i].outputs@[y]@),
        within(events, Dir::Upstream, events[i].outputs@[y]@, 1).contains(events[i].inputs@[x]@),
        within(events, Dir::Downstream, events[i].inputs@[x]@, 1).contains(events[i].outputs@[y]@),
{
    let (read, wrote) = (events[i].inputs@[x]@, events[i].outputs@[y]@);
    assert(lists(events[i].inputs@, read));
    assert(lists(events[i].outputs@, wrote));
    assert(lists(probes(events[i], Dir::Upstream), wrote));
    assert(lists(probes(events[i], Dir::Downstream), read));
    reveal_with_fuel(within, 2);
    assert(within(events, Dir::Upstream, wrote, 0).contains(wrote));
    assert(within(events, Dir::Downstream, read, 0).contains(read));
}

/// One dataset lies a step upstream of another only where some run read the one and wrote
/// the other, and a step downstream only where some run wrote the one and read the other.
pub proof fn law_links_come_from_runs(events: Seq<LineageEvent>, a: DatasetKey, b: DatasetKey)
    ensures
        linked(events, Dir::Upstream, a, b) ==> exists|i: int, x: int, y: int|
            0 <= i < events.len() && 0 <= x < events[i].inputs@.len() && 0 <= y < events[i].outputs@.len()
                && (#[trigger] events[i].inputs@[x])@ == b && (#[trigger] events[i].outputs@[y])@ == a,
        linked(events, Dir::Downstream, a, b) ==> exists|i: int, x: int, y: int|
            0 <= i < events.len() && 0 <= x < events[i].inputs@.len() && 0 <= y < events[i].outputs@.len()
                && (#[trigger] events[i].inputs@[x])@ == a && (#[trigger] events[i].outputs@[y])@ == b,
{
    if linked(events, Dir::Upstream, a, b) {
        let i = choose|i: int|
            0 <= i < events.len() && lists(probes(#[trigger] events[i], Dir::Upstream), a) && lists(
                yields(events[i], Dir::Upstream),
                b,
            );
        let y = choose|y: int| 0 <= y < events[i].outputs@.len() && #[trigger] events[i].outputs@[y]@ == a;
        let x = choose|x: int| 0 <= x < events[i].inputs@.len() && #[trigger] events[i].inputs@[x]@ == b;
        assert(events[i].inputs@[x]@ == b && events[i].outputs@[y]@ == a);
    }
    if linked(events, Dir::Downstream, a, b) {
        let i = choose|i: int|
            0 <= i < events.len() && lists(probes(#[trigger] events[i], Dir::Downstream), a) && lists(
                yields(events[i], Dir::Downstream),
                b,
            );
        let x = choose|x: int| 0 <= x < events[i].inputs@.len() && #[trigger] events[i].inputs@[x]@ == a;
        let y = choose|y: int| 0 <= y < events[i].outputs@.len() && #[trigger] events[i].outputs@[y]@ == b;
        assert(events[i].inputs@[x]@ == a && events[i].outputs@[y]@ == b);
    }
}

/// A walk goes as many steps as it is told: nothing but the start without a step, and with
/// one more exactly what it had found and what lies a step from that.
pub proof fn law_walk_goes_step_by_step(
    events: Seq<LineageEvent>,
    dir: Dir,
    start: DatasetKey,
    n: nat,
    b: DatasetKey,
)
    ensures
        within(events, dir, start, 0).contains(b) <==> b == start,
        within(events, dir, start, n + 1).contains(b) <==> within(events, dir, start, n).contains(b)
            || exists|c: DatasetKey| #[trigger]
            within(events, dir, start, n).contains(c) && linked(events, dir, c, b),
{
}

/// What is listed of a walk is what lies within its steps, but for the start, each dataset
/// once and in the order of namespace and name.
pub proof fn law_walk_lists_what_it_finds(
    events: Seq<LineageEvent>,
    dir: Dir,
    start: DatasetKey,
    depth: nat,
    found: Seq<DatasetRef>,
    i: int,
    j: int,
)
    requires
        is_closure(events, dir, start, depth, found),
        0 <= i < found.len(),
    ensures
        within(events, dir, start, depth).contains(found[i]@),
        found[i]@ != start,
        i < j < found.len() ==> pair_before(found[i]@, found[j]@),
        forall|b: DatasetKey|
            #![trigger within(events, dir, start, depth).contains(b)]
            within(events, dir, start, depth).contains(b) && b != start ==> exists|k: int|
                0 <= k < found.len() && #[trigger] found[k]@ == b,
{
    assert(lists(found, found[i]@));
    assert forall|b: DatasetKey|
        #![trigger within(events, dir, start, depth).contains(b)]
        within(events, dir, start, depth).contains(b) && b != start implies exists|k: int|
        0 <= k < found.len() && #[trigger] found[k]@ == b by {
        assert(lists(found, b));
    }
}

/// A page of a walk shows, from where the last one ended, so many as it may: datasets that
/// the walk finds, none of them the start. It says where it ended exactly where more is
/// left, and that is the last dataset that it shows.
pub proof fn law_page_of_a_walk(
    events: Seq<LineageEvent>,
    dir: Dir,
    start: DatasetKey,
    depth: u32,
    page: PageReq<DatasetRef>,
    r: Result<Page<DatasetRef, DatasetRef>, ControlPlaneError>,
    i: int,
)
    requires
        walked(events, dir, start, depth, page, Ok(()), r),
        r is Ok ==> 0 <= i < (r->Ok_0).items@.len(),
    ensures
        r is Ok,
        (r->Ok_0).items@.len() <= page.limit,
        within(events, dir, start, depth as nat).contains((r->Ok_0).items@[i]@),
        (r->Ok_0).items@[i]@ != start,
        page.after matches Some(a) ==> pair_before(a@, (r->Ok_0).items@[i]@),
        (r->Ok_0).next matches Some(d) ==> d == (r->Ok_0).items@.last() && (r->Ok_0).items@.len()
            == page.limit,
{
    let all = choose|all: Seq<DatasetRef>| #[trigger]
        is_closure(events, dir, start, depth as nat, all) && is_dataset_page(
            r->Ok_0,
            behind(all, page.after),
            page.limit,
        );
    law_rest_of_a_listing(all, page.after);
    let rest = behind(all, page.after);
    let shown = (r->Ok_0).items@;
    assert(shown[i] == rest[i]);
    let after = |d: DatasetRef| page.after is None || pair_before((page.after->0)@, d@);
    all.lemma_filter_pred(after, i);
    assert(rest.contains(rest[i]));
    all.lemma_filter_contains_rev(after, rest[i]);
    let k = choose|k: int| 0 <= k < all.len() && all[k] == rest[i];
    assert(lists(all, all[k]@));
}

/// A walk whose checks fail reports why.
pub proof fn law_failed_check_is_reported(
    events: Seq<LineageEvent>,
    dir: Dir,
    start: DatasetKey,
    depth: u32,
    page: PageReq<DatasetRef>,
    e: ControlPlaneError,
    r: Result<Page<DatasetRef, DatasetRef>, ControlPlaneError>,
)
    requires
        walked(events, dir, start, depth, page, Err(e), r),
    ensures
        r == Err::<Page<DatasetRef, DatasetRef>, ControlPlaneError>(e),
{
}

/// The rest of a listing is what comes behind where the last page ended, in its order.
pub proof fn law_rest_of_a_listing(sorted: Seq<DatasetRef>, after: Option<DatasetRef>)
    ensures
        behind(sorted, after) == sorted.filter(
            |d: DatasetRef| after is None || pair_before((after->0)@, d@),
        ),
    decreases sorted.len(),
{
    let rest = |d: DatasetRef| after is None || pair_before((after->0)@, d@);
    reveal(Seq::filter);
    if sorted.len() > 0 {
        law_rest_of_a_listing(sorted.drop_last(), after);
    } else {
        assert(sorted.filter(rest) =~= sorted);
    }
}

/// A page shows the first of what is left, as many as there are and no more than it may,
/// and says where it ended exactly where more is left.
pub proof fn law_page_shows_the_first(
    page: Page<DatasetRef, DatasetRef>,
    all: Seq<DatasetRef>,
    limit: usize,
    i: int,
)
    requires
        is_dataset_page(page, all, limit),
    ensures
        all.len() <= limit ==> page.items@ == all && page.next is None,
        all.len() > limit ==> page.items@.len() == limit,
        0 <= i < page.items@.len() ==> page.items@[i] == all[i],
        all.len() > limit > 0 ==> page.next == Some(all[limit - 1]),
        limit == 0 ==> page.next is None,
        page_len(all.len(), limit) == page.items@.len(),
{
    if all.len() <= limit {
        assert(all.take(all.len() as int) =~= all);
    }
}

/// The neighbors of a dataset are, event by event, what the run read where it wrote the
/// dataset, going upstream, and what it wrote where it read the dataset, going downstream.
pub proof fn law_neighbors_event_by_event(events: Seq<LineageEvent>, node: DatasetKey, e: LineageEvent)
    ensures
        (exists|y: int| 0 <= y < e.outputs@.len() && #[trigger] e.outputs@[y]@ == node) ==> neighbor_list(
            events.push(e),
            Dir::Upstream,
            node,
            events.len() + 1,
        ) == neighbor_list(events, Dir::Upstream, node, events.len()) + e.inputs@,
        !(exists|y: int| 0 <= y < e.outputs@.len() && #[trigger] e.outputs@[y]@ == node)
            ==> neighbor_list(events.push(e), Dir::Upstream, node, events.len() + 1) == neighbor_list(
            events,
            Dir::Upstream,
            node,
            events.len(),
        ),
        (exists|x: int| 0 <= x < e.inputs@.len() && #[trigger] e.inputs@[x]@ == node) ==> neighbor_list(
            events.push(e),
            Dir::Downstream,
            node,
            events.len() + 1,
        ) == neighbor_list(events, Dir::Downstream, node, events.len()) + e.outputs@,
        !(exists|x: int| 0 <= x < e.inputs@.len() && #[trigger] e.inputs@[x]@ == node) ==> neighbor_list(
            events.push(e),
            Dir::Downstream,
            node,
            events.len() + 1,
        ) == neighbor_list(events, Dir::Downstream, node, events.len()),
{
    lemma_neighbors_prefix(events, events.push(e), Dir::Upstream, node, events.len());
    lemma_neighbors_prefix(events, events.push(e), Dir::Downstream, node, events.len());
    assert(lists(e.outputs@, node) == exists|y: int|
        0 <= y < e.outputs@.len() && #[trigger] e.outputs@[y]@ == node);
    assert(lists(e.inputs@, node) == exists|x: int|
        0 <= x < e.inputs@.len() && #[trigger] e.inputs@[x]@ == node);
}

proof fn lemma_neighbors_prefix(
    events: Seq<LineageEvent>,
    more: Seq<LineageEvent>,
    dir: Dir,
    node: DatasetKey,
    n: nat,
)
    requires
        n <= events.len() <= more.len(),
        forall|i: int| 0 <= i < n ==> events[i] == #[trigger] more[i],
    ensures
        neighbor_list(events, dir, node, n) == neighbor_list(more, dir, node, n),
    decreases n,
{
    if n > 0 {
        lemma_neighbors_prefix(events, more, dir, node, (n - 1) as nat);
        assert(events[n - 1] == more[n - 1]);
    }
}

/// The events of a run are exactly those with its number, behind where the last page ended.
pub proof fn law_events_of_a_run(
    events: Seq<LineageEvent>,
    run: u128,
    after: Option<i64>,
    n: nat,
    i: int,
)
    requires
        n <= events.len(),
    ensures
        run_events(events, run, after, n).contains(i) <==> 0 <= i < n && events[i].run_id == run && (
        after is None || after->0 < i),
    decreases n,
{
    if n > 0 {
        law_events_of_a_run(events, run, after, (n - 1) as nat, i);
        let before = run_events(events, run, after, (n - 1) as nat);
        let all = run_events(events, run, after, n);
        if events[n - 1].run_id == run && (after is None || after->0 < n - 1) {
            assert(all == before.push(n - 1));
            if before.contains(i) {
                let k = choose|k: int| 0 <= k < before.len() && before[k] == i;
                assert(all[k] == i);
            }
            if i == n - 1 {
                assert(all[all.len() - 1] == i);
            }
            if all.contains(i) && i != n - 1 {
                let k = choose|k: int| 0 <= k < all.len() && all[k] == i;
                assert(before[k] == i);
            }
        }
    }
}

/// The event has the dataset among what was read or among what was written.
pub open spec fn reads_or_writes(e: LineageEvent, d: DatasetKey) -> bool {
    ||| exists|x: int| 0 <= x < e.inputs@.len() && #[trigger] e.inputs@[x]@ == d
    ||| exists|y: int| 0 <= y < e.outputs@.len() && #[trigger] e.outputs@[y]@ == d
}

/// The runs of a dataset are listed by the latest event of each that reads or writes it,
/// the newest first.
pub proof fn law_runs_by_their_latest_event(
    events: Seq<LineageEvent>,
    d: DatasetKey,
    after: Option<i64>,
    k: int,
    i: int,
)
    requires
        0 <= k <= events.len(),
    ensures
        latest_events(events, d, after, k).contains(i) <==> k <= i < events.len() && (after is None || i
            < after->0) && reads_or_writes(events[i], d) && forall|j: int|
            i < j < events.len() && (#[trigger] events[j]).run_id == events[i].run_id
                ==> !reads_or_writes(events[j], d),
    decreases events.len() - k,
{
    if k < events.len() {
        law_runs_by_their_latest_event(events, d, after, k + 1, i);
        let newer = latest_events(events, d, after, k + 1);
        let all = latest_events(events, d, after, k);
        assert forall|e: LineageEvent| reads_or_writes(e, d) == #[trigger] touched(e, d) by {}
        assert(is_latest(events, d, k) == (reads_or_writes(events[k], d) && forall|j: int|
            k < j < events.len() && (#[trigger] events[j]).run_id == events[k].run_id ==> !reads_or_writes(
                events[j],
                d,
            ))) by {
            assert(reads_or_writes(events[k], d) == touched(events[k], d));
            assert forall|j: int| k < j < events.len() implies reads_or_writes(#[trigger] events[j], d)
                == touched(events[j], d) by {}
        }
        if is_latest(events, d, k) && (after is None || k < after->0) {
            assert(all == newer.push(k));
            if newer.contains(i) {
                let p = choose|p: int| 0 <= p < newer.len() && newer[p] == i;
                assert(all[p] == i);
            }
            if i == k {
                assert(all[all.len() - 1] == i);
            }
            if all.contains(i) && i != k {
                let p = choose|p: int| 0 <= p < all.len() && all[p] == i;
                assert(newer[p] == i);
            }
        }
    }
}

/// What is said of a run is its number and the instant and the kind of its latest event on
/// the dataset; it is the dataset's writer where any of its events writes it, and else its
/// reader.
pub proof fn law_summary_of_a_run(events: Seq<LineageEvent>, d: DatasetKey, i: int)
    requires
        0 <= i < events.len(),
    ensures
        summary(events, d, i).run_id == events[i].run_id,
        summary(events, d, i).latest_event_time == events[i].event_time,
        summary(events, d, i).latest_event_type == events[i].event_type,
        (exists|j: int, y: int|
            0 <= j < events.len() && 0 <= y < events[j].outputs@.len() && events[j].run_id
                == events[i].run_id && #[trigger] events[j].outputs@[y]@ == d) ==> summary(events, d, i).role
            == RunRole::Output,
        !(exists|j: int, y: int|
            0 <= j < events.len() && 0 <= y < events[j].outputs@.len() && events[j].run_id
                == events[i].run_id && #[trigger] events[j].outputs@[y]@ == d) ==> summary(events, d, i).role
            == RunRole::Input,
{
    let run = events[i].run_id;
    if exists|j: int, y: int|
        0 <= j < events.len() && 0 <= y < events[j].outputs@.len() && events[j].run_id == run
            && #[trigger] events[j].outputs@[y]@ == d {
        let (j, y) = choose|j: int, y: int|
            0 <= j < events.len() && 0 <= y < events[j].outputs@.len() && events[j].run_id == run
                && #[trigger] events[j].outputs@[y]@ == d;
        assert(lists(events[j].outputs@, d));
        assert(crate::lineage::writes(events, run, d));
    } else if crate::lineage::writes(events, run, d) {
        let j = choose|j: int|
            0 <= j < events.len() && (#[trigger] events[j]).run_id == run && lists(events[j].outputs@, d);
        let y = choose|y: int| 0 <= y < events[j].outputs@.len() && #[trigger] events[j].outputs@[y]@ == d;
        assert(events[j].outputs@[y]@ == d);
    }
}

} // verus!
