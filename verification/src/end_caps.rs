//! Retiring inline rows and files: what is asked before, and what is run. Every
//! retirement says why it happens, and one that takes rows away from a reader that has
//! not read them is refused before anything is written.
use crate::error::ControlPlaneError;
use crate::iceberg_inline::{end_cap_by_id_sql, end_cap_live_sql, inline_name};
use crate::iceberg_mirror::{paths_set, unique_paths};
use crate::mv_floor::{consults_floor, guard_end_cap, refuses_with, EndCapIntent, MvFloor};
use crate::ordered::OrderedSet;
use crate::text::int_text;
use crate::types::TableRef;
use vstd::prelude::*;

verus! {

/// What the readers of a table say to a retirement.
pub enum Readers {
    /// They were not asked yet.
    Unasked,
    /// None of them holds it back, or one does, at this floor.
    Asked { blocked: Option<MvFloor> },
}

/// The floor that holds a retirement back, where one does.
pub open spec fn blocked_by(readers: Readers) -> Option<MvFloor> {
    match readers {
        Readers::Unasked => None,
        Readers::Asked { blocked } => blocked,
    }
}

/// What a retirement of inline rows does next.
#[derive(Debug)]
pub enum CapStep {
    /// Ask whether the inline storage is there.
    AskStorage,
    /// Ask the readers of the table.
    AskReaders,
    /// There is nothing to retire.
    Nothing,
    /// Run this.
    Run { sql: String },
    /// Refuse.
    Refuse(ControlPlaneError),
}

/// What follows once the storage is known to be there: the readers are asked where the
/// reason calls for it, and then `sql` is run or refused.
pub open spec fn guarded(
    step: CapStep,
    table: TableRef,
    intent: EndCapIntent,
    readers: Readers,
    sql: Seq<char>,
) -> bool {
    if intent is Removing && readers is Unasked {
        step is AskReaders
    } else if intent is Removing && blocked_by(readers) is Some {
        step matches CapStep::Refuse(e) && refuses_with(e@, table, blocked_by(readers)->0)
    } else {
        step matches CapStep::Run { sql: s } && s@ == sql
    }
}

fn guard(table: &TableRef, intent: &EndCapIntent, readers: &Readers, sql: String) -> (r: CapStep)
    requires
        blocked_by(*readers) matches Some(f) ==> f.wf(),
    ensures
        guarded(r, *table, *intent, *readers, sql@),
{
    let asked: Option<&MvFloor> = match readers {
        Readers::Unasked => {
            if consults_floor(intent) {
                return CapStep::AskReaders;
            }
            None
        },
        Readers::Asked { blocked } => match blocked {
            Some(f) => Some(f),
            None => None,
        },
    };
    match guard_end_cap(table, intent, asked) {
        Ok(_) => CapStep::Run { sql },
        Err(e) => CapStep::Refuse(e),
    }
}

/// Retiring every live inline row of a table. Without inline storage there is nothing to
/// do, and nobody is asked.
pub fn end_cap_live_inline_rows(
    table: &TableRef,
    table_id: i64,
    at: i64,
    stored: Option<bool>,
    intent: &EndCapIntent,
    readers: &Readers,
) -> (r: CapStep)
    requires
        blocked_by(*readers) matches Some(f) ==> f.wf(),
    ensures
        match stored {
            None => r is AskStorage,
            Some(false) => r is Nothing,
            Some(true) => guarded(
                r,
                *table,
                *intent,
                *readers,
                "update "@ + inline_name(table_id as int) + " set end_snapshot = "@ + int_text(
                    at as int,
                ) + " where end_snapshot is null"@,
            ),
        },
{
    match stored {
        None => CapStep::AskStorage,
        Some(there) => {
            if there {
                guard(table, intent, readers, end_cap_live_sql(table_id, at))
            } else {
                CapStep::Nothing
            }
        },
    }
}

/// Retiring the inline rows of certain numbers, which the statement takes as its
/// parameter.
pub fn end_cap_inline_rows_by_id(
    table: &TableRef,
    table_id: i64,
    at: i64,
    intent: &EndCapIntent,
    readers: &Readers,
) -> (r: CapStep)
    requires
        blocked_by(*readers) matches Some(f) ==> f.wf(),
    ensures
        guarded(
            r,
            *table,
            *intent,
            *readers,
            "update "@ + inline_name(table_id as int) + " set end_snapshot = "@ + int_text(at as int)
                + " where loom_row_id = any($1) and end_snapshot is null"@,
        ),
{
    guard(table, intent, readers, end_cap_by_id_sql(table_id, at))
}

/// The files that a compaction retires: each of the paths once, in order. Without paths
/// there is nothing to do.
pub fn end_cap_files_by_path(paths: &Vec<String>) -> (r: Option<OrderedSet<String>>)
    ensures
        match r {
            None => paths@.len() == 0,
            Some(unique) => paths@.len() > 0 && unique.wf() && unique@ == paths_set(paths@),
        },
{
    if paths.len() == 0 {
        None
    } else {
        Some(unique_paths(paths))
    }
}

/// Nothing is retired that a reader has not read, where it would be gone for good.
pub proof fn law_unread_rows_stay(
    step: CapStep,
    table: TableRef,
    floor: MvFloor,
    sql: Seq<char>,
)
    requires
        guarded(
            step,
            table,
            EndCapIntent::Removing,
            Readers::Asked { blocked: Some(floor) },
            sql,
        ),
    ensures
        step is Refuse,
{
}

/// Rows that stay readable elsewhere are retired without asking anybody.
pub proof fn law_moved_rows_are_not_held_back(
    step: CapStep,
    table: TableRef,
    readers: Readers,
    sql: Seq<char>,
)
    requires
        guarded(step, table, EndCapIntent::Reframing, readers, sql),
    ensures
        step is Run,
{
}

} // verus!
