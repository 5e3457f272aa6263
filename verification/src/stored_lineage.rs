//! Lineage in a database: events put together from their rows, and pages of them.
use crate::error::{ControlPlaneError, Fault};
use crate::key::str_same;
use crate::lineage::{page_len, Page, RunRole, RunSummary};
use crate::text::concat3;
use crate::types::{DatasetKey, DatasetRef, EventType, LineageEvent};
use vstd::prelude::*;

verus! {

/// A row of an event.
#[derive(Debug)]
pub struct EventRow {
    pub event_id: i64,
    pub event_type: EventType,
    pub event_time: i128,
    pub payload: String,
}

/// A row of a dataset of an event, in the order of its place there.
#[derive(Debug)]
pub struct DatasetRow {
    pub event_id: i64,
    pub direction: String,
    pub namespace: String,
    pub name: String,
}

/// The first row from `from` on that says neither that it is read nor that it is
/// written.
pub open spec fn first_odd(rows: Seq<DatasetRow>, from: int) -> Option<int>
    decreases rows.len() - from,
{
    if from < 0 || from >= rows.len() {
        None
    } else if rows[from].direction@ != "input"@ && rows[from].direction@ != "output"@ {
        Some(from)
    } else {
        first_odd(rows, from + 1)
    }
}

/// The datasets of an event in a direction.
pub open spec fn datasets_of(rows: Seq<DatasetRow>, event_id: i64, direction: Seq<char>) -> Seq<
    DatasetKey,
>
    decreases rows.len(),
{
    if rows.len() == 0 {
        Seq::empty()
    } else {
        let before = datasets_of(rows.drop_last(), event_id, direction);
        let r = rows.last();
        if r.event_id == event_id && r.direction@ == direction {
            before.push((r.namespace@, r.name@))
        } else {
            before
        }
    }
}

/// What each dataset is.
pub open spec fn keys_of(list: Seq<DatasetRef>) -> Seq<DatasetKey> {
    Seq::new(list.len(), |i: int| list[i]@)
}

fn collect_datasets(rows: &Vec<DatasetRow>, event_id: i64, direction: &str) -> (r: Vec<DatasetRef>)
    ensures
        keys_of(r@) == datasets_of(rows@, event_id, direction@),
{
    let mut out: Vec<DatasetRef> = Vec::new();
    let mut i: usize = 0;
    assert(rows@.take(0) =~= Seq::empty());
    assert(keys_of(out@) =~= Seq::empty());
    while i < rows.len()
        invariant
            i <= rows@.len(),
            keys_of(out@) == datasets_of(rows@.take(i as int), event_id, direction@),
        decreases rows@.len() - i,
    {
        assert(rows@.take(i + 1).drop_last() =~= rows@.take(i as int));
        let row: &DatasetRow = &rows[i];
        if row.event_id == event_id && str_same(row.direction.as_str(), direction) {
            let ghost before = keys_of(out@);
            out.push(DatasetRef { namespace: row.namespace.clone(), name: row.name.clone() });
            assert(keys_of(out@) =~= before.push((row.namespace@, row.name@)));
        }
        i = i + 1;
    }
    assert(rows@.take(i as int) =~= rows@);
    out
}

/// An event put together from its row and the rows of its datasets.
pub open spec fn is_event(e: LineageEvent, run: u128, row: EventRow, datasets: Seq<DatasetRow>) -> bool {
    &&& e.run_id == run
    &&& e.event_type == row.event_type
    &&& e.event_time == row.event_time
    &&& e.payload@ == row.payload@
    &&& keys_of(e.inputs@) == datasets_of(datasets, row.event_id, "input"@)
    &&& keys_of(e.outputs@) == datasets_of(datasets, row.event_id, "output"@)
}

/// A page of the events of a run, from one row more than it shows where there are as
/// many. A row that says neither that it is read nor that it is written is an error.
pub fn events_for(run: u128, rows: &Vec<EventRow>, datasets: &Vec<DatasetRow>, limit: usize) -> (r:
    Result<Page<LineageEvent, i64>, ControlPlaneError>)
    ensures
        match r {
            Err(e) => first_odd(datasets@, 0) matches Some(i) && e@ == Fault::Validation(
                "unknown lineage direction '"@ + datasets@[i].direction@ + "'"@,
            ),
            Ok(page) => {
                let n = page_len(rows@.len(), limit);
                &&& first_odd(datasets@, 0) is None
                &&& page.items@.len() == n
                &&& forall|i: int|
                    0 <= i < n ==> is_event(#[trigger] page.items@[i], run, rows@[i], datasets@)
                &&& page.next == (if rows@.len() > limit && limit > 0 {
                    Some(rows@[n - 1].event_id)
                } else {
                    None
                })
            },
        },
{
    let mut k: usize = 0;
    while k < datasets.len()
        invariant
            k <= datasets@.len(),
            first_odd(datasets@, 0) == first_odd(datasets@, k as int),
        decreases datasets@.len() - k,
    {
        let direction: &str = datasets[k].direction.as_str();
        if !str_same(direction, "input") && !str_same(direction, "output") {
            return Err(
                ControlPlaneError::Validation(
                    concat3("unknown lineage direction '", direction, "'"),
                ),
            );
        }
        k = k + 1;
    }
    let mut items: Vec<LineageEvent> = Vec::new();
    let mut i: usize = 0;
    while i < rows.len() && i < limit
        invariant
            i <= rows@.len(),
            i <= limit,
            items@.len() == i,
            forall|j: int|
                0 <= j < i ==> is_event(#[trigger] items@[j], run, rows@[j], datasets@),
        decreases rows@.len() - i,
    {
        let row: &EventRow = &rows[i];
        items.push(
            LineageEvent {
                run_id: run,
                event_type: row.event_type,
                event_time: row.event_time,
                inputs: collect_datasets(datasets, row.event_id, "input"),
                outputs: collect_datasets(datasets, row.event_id, "output"),
                payload: row.payload.clone(),
            },
        );
        i = i + 1;
    }
    let next: Option<i64> = if rows.len() > limit && limit > 0 {
        Some(rows[limit - 1].event_id)
    } else {
        None
    };
    Ok(Page { items, next })
}

/// A row of a run that touches a dataset.
#[derive(Clone, Copy, Debug)]
pub struct RunRow {
    pub run_id: u128,
    pub latest_event: i64,
    pub event_type: EventType,
    pub event_time: i128,
    pub has_output: bool,
}

/// The run of a row: it writes the dataset where any of its events does.
pub open spec fn row_summary(row: RunRow) -> RunSummary {
    RunSummary {
        run_id: row.run_id,
        latest_event_time: row.event_time,
        latest_event_type: row.event_type,
        role: if row.has_output {
            RunRole::Output
        } else {
            RunRole::Input
        },
    }
}

/// A page of the runs that touch a dataset, from one row more than it shows where there
/// are as many.
pub fn runs_for(rows: &Vec<RunRow>, limit: usize) -> (r: Page<RunSummary, i64>)
    ensures
        ({
            let n = page_len(rows@.len(), limit);
            &&& r.items@.len() == n
            &&& forall|i: int| 0 <= i < n ==> #[trigger] r.items@[i] == row_summary(rows@[i])
            &&& r.next == (if rows@.len() > limit && limit > 0 {
                Some(rows@[n - 1].latest_event)
            } else {
                None
            })
        }),
{
    let mut items: Vec<RunSummary> = Vec::new();
    let mut i: usize = 0;
    while i < rows.len() && i < limit
        invariant
            i <= rows@.len(),
            i <= limit,
            items@.len() == i,
            forall|j: int| 0 <= j < i ==> #[trigger] items@[j] == row_summary(rows@[j]),
        decreases rows@.len() - i,
    {
        let row: RunRow = rows[i];
        items.push(
            RunSummary {
                run_id: row.run_id,
                latest_event_time: row.event_time,
                latest_event_type: row.event_type,
                role: if row.has_output {
                    RunRole::Output
                } else {
                    RunRole::Input
                },
            },
        );
        i = i + 1;
    }
    let next: Option<i64> = if rows.len() > limit && limit > 0 {
        Some(rows[limit - 1].latest_event)
    } else {
        None
    };
    Page { items, next }
}

/// How many steps the question for a closure goes.
pub fn graph_depth(depth: u32) -> (r: i32)
    ensures
        r == (if depth <= i32::MAX {
            depth as int
        } else {
            i32::MAX as int
        }),
{
    if depth <= 2_147_483_647 {
        depth as i32
    } else {
        2_147_483_647
    }
}

/// A page of the datasets that a closure question gave, from one more than it shows
/// where there are as many.
pub fn graph_closure(found: Vec<DatasetRef>, limit: usize) -> (r: Page<DatasetRef, DatasetRef>)
    ensures
        crate::lineage::is_dataset_page(r, found@, limit),
{
    let ghost all = found@;
    let mut items: Vec<DatasetRef> = found;
    let mut next: Option<DatasetRef> = None;
    if items.len() > limit {
        items.truncate(limit);
        if limit > 0 {
            next = Some(crate::key::Key::duplicate(&items[limit - 1]));
        }
    }
    assert(items@ =~= all.take(page_len(all.len(), limit)));
    Page { items, next }
}

} // verus!
