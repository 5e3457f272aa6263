//! Making one file of a table's small ones, and seeing when that is due.
use crate::error::{ControlPlaneError, Fault};
use crate::iceberg_landing::{
    are_register_steps, register_fault, register_files, RegisterStep, WriteMode,
};
use crate::iceberg_type::BaseType;
use crate::jobs::{is_table_job, table_job, COMPACT_JOB_KIND};
use crate::types::{ColumnSpec, DataFile, NewJob, TableRef};
use vstd::prelude::*;

verus! {

/// When a table is to be compacted: once it has so many live files smaller than so
/// many bytes.
#[derive(Clone, Copy, Debug, PartialEq, Eq, Structural)]
pub struct CompactTriggerCfg {
    pub small_file_bytes: i64,
    pub min_small_files: i64,
}

/// What is known of a live table in the commit's transaction. A stream and its
/// changelog count as streams.
#[derive(Clone, Copy, Debug, PartialEq, Eq, Structural)]
pub struct CompactState {
    pub is_stream: bool,
    pub has_shadow: bool,
    pub small_count: i64,
}

/// A table is to be compacted.
pub open spec fn due(state: CompactState, cfg: CompactTriggerCfg) -> bool {
    !state.is_stream && !state.has_shadow && state.small_count >= cfg.min_small_files
}

/// The job that a commit queues to compact the table, where it is due. A table that
/// is not live queues none.
pub fn maybe_enqueue_compact(
    table: &TableRef,
    state: Option<CompactState>,
    cfg: CompactTriggerCfg,
) -> (r: Option<NewJob>)
    ensures
        match r {
            Some(job) => (state matches Some(s) && due(s, cfg)) && is_table_job(
                job,
                COMPACT_JOB_KIND@,
                *table,
            ),
            None => state matches Some(s) ==> !due(s, cfg),
        },
{
    match state {
        None => None,
        Some(s) => {
            if s.is_stream || s.has_shadow || s.small_count < cfg.min_small_files {
                None
            } else {
                Some(table_job(COMPACT_JOB_KIND, table))
            }
        },
    }
}

/// The steps of replacing live files of a table by one that holds their rows, in one
/// transaction at a new snapshot: none for a table that was never written. `current`
/// is what came of the question for its snapshot.
pub fn compact_table(
    current: Result<i64, ControlPlaneError>,
    expire: Vec<String>,
    write: Vec<DataFile>,
) -> (r: Result<Option<Vec<RegisterStep>>, ControlPlaneError>)
    ensures
        match current {
            Ok(_) => {
                let mode = WriteMode::Compact { expire_paths: expire };
                let fault = register_fault(mode, Seq::empty(), Seq::empty(), write@);
                match r {
                    Ok(Some(steps)) => fault is None && are_register_steps(
                        steps@,
                        mode,
                        Seq::empty(),
                        Seq::empty(),
                        write@,
                    ),
                    Ok(None) => false,
                    Err(e) => fault == Some(e@),
                }
            },
            Err(e) => match e@ {
                Fault::NotFound(_) => r matches Ok(None),
                other => r matches Err(f) && f@ == other,
            },
        },
{
    match current {
        Ok(_) => {},
        Err(ControlPlaneError::NotFound(_)) => {
            return Ok(None);
        },
        Err(e) => {
            return Err(e);
        },
    }
    let columns: Vec<ColumnSpec> = Vec::new();
    let resolved: Vec<Option<BaseType>> = Vec::new();
    assert(columns@ =~= Seq::empty());
    assert(resolved@ =~= Seq::empty());
    match register_files(WriteMode::Compact { expire_paths: expire }, &columns, &resolved, write) {
        Ok(steps) => Ok(Some(steps)),
        Err(e) => Err(e),
    }
}

/// The trigger never fires for a stream, its changelog, or a table with inline
/// changes: other jobs reorganise their files.
pub proof fn law_streams_are_not_compacted(state: CompactState, cfg: CompactTriggerCfg)
    requires
        state.is_stream || state.has_shadow,
    ensures
        !due(state, cfg),
{
}

} // verus!
