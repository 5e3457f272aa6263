//! The part of a commit that happens in the database: the pointer moves, the mirror
//! follows, and what the commit carries along is done, all or nothing.
use crate::error::{ControlPlaneError, Fault};
use crate::iceberg_mirror::{ProjectedColumn, ProjectedFile};
use crate::mv_floor::EndCapIntent;
use crate::text::{concat, concat3, join, joined, texts};
use crate::types::{LineageEvent, NewJob, TableRef};
use vstd::prelude::*;

verus! {

/// Inline rows that end with a commit: those of this storage with these numbers.
#[derive(Debug)]
pub struct InlineEndCap {
    pub table_id: i64,
    pub row_ids: Vec<i64>,
}

/// What a commit carries along.
#[derive(Debug)]
pub struct CommitExtras {
    /// The lineage to record.
    pub lineage: Option<LineageEvent>,
    /// The inline rows to retire. In a commit that replaces all, they stand in for all
    /// live inline rows: the others stay.
    pub end_cap: Option<InlineEndCap>,
    /// Whether the new files replace all that is live.
    pub overwrite: bool,
    /// The jobs to queue, unless the same one is waiting.
    pub jobs: Vec<NewJob>,
    /// The tables whose triggers fire.
    pub data_trigger_tables: Vec<TableRef>,
    /// The snapshot to use, where it was made before.
    pub reuse_snapshot: Option<i64>,
    /// Why rows and files are retired.
    pub intent: EndCapIntent,
}

impl Default for CommitExtras {
    /// An append that carries nothing along.
    fn default() -> (r: Self)
        ensures
            r.lineage is None,
            r.end_cap is None,
            !r.overwrite,
            r.jobs@.len() == 0,
            r.data_trigger_tables@.len() == 0,
            r.reuse_snapshot is None,
            r.intent is Removing,
    {
        CommitExtras {
            lineage: None,
            end_cap: None,
            overwrite: false,
            jobs: Vec::new(),
            data_trigger_tables: Vec::new(),
            reuse_snapshot: None,
            intent: EndCapIntent::default(),
        }
    }
}

/// A step of a commit, in its transaction.
pub enum CommitStep {
    /// Make a snapshot that names the Iceberg snapshot.
    NewSnapshot { iceberg: Option<i64> },
    /// Take the snapshot made before, and let it name the Iceberg snapshot.
    ReuseSnapshot { at: i64, iceberg: Option<i64> },
    /// See to the table's row.
    EnsureTable,
    /// Retire every live file.
    CapFiles { intent: EndCapIntent },
    /// Retire every live inline row.
    CapInline { intent: EndCapIntent },
    /// Bring the columns into the mirror.
    Columns { columns: Vec<ProjectedColumn> },
    /// Bring the files into the mirror.
    Files { files: Vec<ProjectedFile> },
    /// Stamp the snapshot with the table's schema version.
    Stamp,
    /// See whether the table is to be compacted.
    MaybeCompact,
    /// Retire these inline rows.
    CapRows { cap: InlineEndCap, intent: EndCapIntent },
    /// Record the lineage.
    Emit { event: LineageEvent },
    /// Queue the job, unless the same one is waiting.
    Enqueue { job: NewJob },
    /// Fire the triggers of these tables, on behalf of this run.
    Fire { tables: Vec<TableRef>, run: Option<u128> },
}

impl EndCapIntent {
    /// A copy.
    pub fn duplicate(&self) -> (r: Self)
        ensures
            r == *self,
    {
        match self {
            EndCapIntent::Reframing => EndCapIntent::Reframing,
            EndCapIntent::Removing => EndCapIntent::Removing,
            EndCapIntent::Destroying { reason } => EndCapIntent::Destroying {
                reason: reason.clone(),
            },
        }
    }
}

/// A step or none.
pub open spec fn only_if(holds: bool, step: CommitStep) -> Seq<CommitStep> {
    if holds {
        seq![step]
    } else {
        Seq::empty()
    }
}

/// The steps of bringing a commit into the mirror: a snapshot, the table's row, what is
/// replaced, then the columns, the files and the stamp, and, where that is watched,
/// whether the table is to be compacted. The inline rows are replaced as a whole
/// unless the commit names those that go.
pub open spec fn mirror_steps(
    iceberg: Option<i64>,
    columns: Vec<ProjectedColumn>,
    files: Vec<ProjectedFile>,
    extras: CommitExtras,
    watched: bool,
) -> Seq<CommitStep> {
    seq![
        match extras.reuse_snapshot {
            Some(at) => CommitStep::ReuseSnapshot { at, iceberg },
            None => CommitStep::NewSnapshot { iceberg },
        },
        CommitStep::EnsureTable,
    ] + only_if(extras.overwrite, CommitStep::CapFiles { intent: extras.intent }) + only_if(
        extras.overwrite && extras.end_cap is None,
        CommitStep::CapInline { intent: extras.intent },
    ) + seq![
        CommitStep::Columns { columns },
        CommitStep::Files { files },
        CommitStep::Stamp,
    ] + only_if(watched, CommitStep::MaybeCompact)
}

/// The jobs as steps.
pub open spec fn job_steps(jobs: Seq<NewJob>) -> Seq<CommitStep> {
    Seq::new(jobs.len(), |i: int| CommitStep::Enqueue { job: jobs[i] })
}

/// The steps of what a commit carries along: the named inline rows are retired, then
/// the lineage is recorded, the jobs are queued, and the triggers fire.
pub open spec fn extra_steps(extras: CommitExtras) -> Seq<CommitStep> {
    (match extras.end_cap {
        Some(cap) => seq![CommitStep::CapRows { cap, intent: extras.intent }],
        None => Seq::empty(),
    }) + (match extras.lineage {
        Some(event) => seq![CommitStep::Emit { event }],
        None => Seq::empty(),
    }) + job_steps(extras.jobs@) + seq![
        CommitStep::Fire {
            tables: extras.data_trigger_tables,
            run: match extras.lineage {
                Some(event) => Some(event.run_id),
                None => None,
            },
        },
    ]
}

/// The steps of what a commit carries along.
pub fn apply_commit_extras(extras: CommitExtras) -> (r: Vec<CommitStep>)
    ensures
        r@ == extra_steps(extras),
{
    let mut out: Vec<CommitStep> = Vec::new();
    let intent: EndCapIntent = extras.intent;
    match extras.end_cap {
        Some(cap) => out.push(CommitStep::CapRows { cap, intent }),
        None => {},
    }
    let run: Option<u128> = match &extras.lineage {
        Some(event) => Some(event.run_id),
        None => None,
    };
    match extras.lineage {
        Some(event) => out.push(CommitStep::Emit { event }),
        None => {},
    }
    let ghost all = extras.jobs@;
    let ghost before = out@;
    let mut jobs: Vec<NewJob> = extras.jobs;
    assert(all.skip(0) =~= all);
    assert(job_steps(all).take(0) =~= Seq::empty());
    let ghost mut n: int = 0;
    while jobs.len() > 0
        invariant
            0 <= n <= all.len(),
            jobs@ == all.skip(n),
            out@ == before + job_steps(all).take(n),
        decreases jobs@.len(),
    {
        let job: NewJob = jobs.remove(0);
        out.push(CommitStep::Enqueue { job });
        proof {
            assert(jobs@ =~= all.skip(n + 1));
            assert(out@ =~= before + job_steps(all).take(n + 1));
            n = n + 1;
        }
    }
    assert(n == all.len());
    assert(job_steps(all).take(n) =~= job_steps(all));
    out.push(CommitStep::Fire { tables: extras.data_trigger_tables, run });
    assert(out@ =~= extra_steps(extras));
    out
}

/// The steps of bringing a commit into the mirror.
pub fn write_mirror(
    iceberg: Option<i64>,
    columns: Vec<ProjectedColumn>,
    files: Vec<ProjectedFile>,
    extras: &CommitExtras,
    watched: bool,
) -> (r: Vec<CommitStep>)
    ensures
        r@ == mirror_steps(iceberg, columns, files, *extras, watched),
{
    let mut out: Vec<CommitStep> = Vec::new();
    match extras.reuse_snapshot {
        Some(at) => out.push(CommitStep::ReuseSnapshot { at, iceberg }),
        None => out.push(CommitStep::NewSnapshot { iceberg }),
    }
    out.push(CommitStep::EnsureTable);
    if extras.overwrite {
        out.push(CommitStep::CapFiles { intent: extras.intent.duplicate() });
        if extras.end_cap.is_none() {
            out.push(CommitStep::CapInline { intent: extras.intent.duplicate() });
        }
    }
    out.push(CommitStep::Columns { columns });
    out.push(CommitStep::Files { files });
    out.push(CommitStep::Stamp);
    if watched {
        out.push(CommitStep::MaybeCompact);
    }
    assert(out@ =~= mirror_steps(iceberg, columns, files, *extras, watched));
    out
}

/// That another commit came first. Such a commit may be tried again.
pub open spec fn conflict(namespace: Seq<Seq<char>>, name: Seq<char>) -> Fault {
    Fault::Conflict(
        "Commit conflicted for table: "@ + joined(namespace, "."@) + "."@ + name,
    )
}

/// The steps that follow the move of a table's pointer in the commit's transaction.
/// `moved` is how many pointers moved: none means that another commit came first.
pub fn commit_mirror_in_tx(
    moved: u64,
    namespace: &Vec<String>,
    name: &str,
    iceberg: Option<i64>,
    columns: Vec<ProjectedColumn>,
    files: Vec<ProjectedFile>,
    extras: CommitExtras,
    watched: bool,
) -> (r: Result<Vec<CommitStep>, ControlPlaneError>)
    ensures
        match r {
            Ok(steps) => moved > 0 && steps@ == mirror_steps(iceberg, columns, files, extras, watched)
                + extra_steps(extras),
            Err(e) => moved == 0 && e@ == conflict(texts(namespace@), name@),
        },
{
    if moved == 0 {
        let path: String = join(namespace, ".");
        return Err(
            ControlPlaneError::Conflict(
                concat3(
                    concat("Commit conflicted for table: ", path.as_str()).as_str(),
                    ".",
                    name,
                ),
            ),
        );
    }
    let mut steps: Vec<CommitStep> = write_mirror(iceberg, columns, files, &extras, watched);
    let mut more: Vec<CommitStep> = apply_commit_extras(extras);
    steps.append(&mut more);
    Ok(steps)
}

/// Files are replaced before the new ones come in: a commit never retires its own
/// files.
pub proof fn law_caps_before_files(
    iceberg: Option<i64>,
    columns: Vec<ProjectedColumn>,
    files: Vec<ProjectedFile>,
    extras: CommitExtras,
    watched: bool,
    i: int,
    j: int,
)
    requires
        ({
            let steps = mirror_steps(iceberg, columns, files, extras, watched) + extra_steps(extras);
            &&& 0 <= i < steps.len()
            &&& 0 <= j < steps.len()
            &&& steps[i] is CapFiles || steps[i] is CapInline
            &&& steps[j] is Files
        }),
    ensures
        i < j,
{
    let mirror = mirror_steps(iceberg, columns, files, extras, watched);
    let more = extra_steps(extras);
    let head = (match extras.end_cap {
        Some(cap) => seq![CommitStep::CapRows { cap, intent: extras.intent }],
        None => Seq::empty(),
    }) + (match extras.lineage {
        Some(event) => seq![CommitStep::Emit { event }],
        None => Seq::empty(),
    });
    assert forall|k: int| 0 <= k < more.len() implies !(#[trigger] more[k] is CapFiles) && !(more[k]
        is CapInline) && !(more[k] is Files) by {
        if k < head.len() {
            assert(more[k] == head[k]);
        } else if k < head.len() + extras.jobs@.len() {
            assert(more[k] == job_steps(extras.jobs@)[k - head.len()]);
        }
    }
    if i >= mirror.len() {
        assert((mirror + more)[i] == more[i - mirror.len()]);
    }
    if j >= mirror.len() {
        assert((mirror + more)[j] == more[j - mirror.len()]);
    }
}

/// A commit that replaces all but names the inline rows that go leaves the others:
/// none of its steps retires every live inline row.
pub proof fn law_named_rows_spare_the_others(
    iceberg: Option<i64>,
    columns: Vec<ProjectedColumn>,
    files: Vec<ProjectedFile>,
    extras: CommitExtras,
    watched: bool,
    i: int,
)
    requires
        extras.end_cap is Some,
        0 <= i < (mirror_steps(iceberg, columns, files, extras, watched) + extra_steps(
            extras,
        )).len(),
    ensures
        !((mirror_steps(iceberg, columns, files, extras, watched) + extra_steps(extras))[i] is CapInline),
{
    let mirror = mirror_steps(iceberg, columns, files, extras, watched);
    let more = extra_steps(extras);
    let head = (match extras.end_cap {
        Some(cap) => seq![CommitStep::CapRows { cap, intent: extras.intent }],
        None => Seq::empty(),
    }) + (match extras.lineage {
        Some(event) => seq![CommitStep::Emit { event }],
        None => Seq::empty(),
    });
    if i >= mirror.len() {
        let k = i - mirror.len();
        assert((mirror + more)[i] == more[k]);
        if k < head.len() {
            assert(more[k] == head[k]);
        } else if k < head.len() + extras.jobs@.len() {
            assert(more[k] == job_steps(extras.jobs@)[k - head.len()]);
        }
    }
}

} // verus!
