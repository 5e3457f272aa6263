//! A unit of work on tables: what is staged, and what its commit does.
use crate::error::{outcome, ControlPlaneError, Fault};
use crate::iceberg_landing::{
    are_register_steps, register_fault, register_files, RegisterStep, WriteMode,
};
use crate::iceberg_type::BaseType;
use crate::key::Key;
use crate::ordered::{elements_of, OrderedSet};
use crate::text::concat5;
use crate::types::{ColumnSpec, DataFile, TableKey, TableRef};
use crate::words::{debug_of, debug_text};
use vstd::prelude::*;

verus! {

/// A table to create, with what the logical vocabulary makes of each column's type.
pub struct StagedCreate {
    pub table: TableRef,
    pub columns: Vec<ColumnSpec>,
    pub resolved: Vec<Option<BaseType>>,
}

/// Files to register in a table.
pub struct StagedFiles {
    pub table: TableRef,
    pub files: Vec<DataFile>,
    pub mode: WriteMode,
}

/// Files of a table to replace by others that hold their rows.
pub struct StagedCompact {
    pub table: TableRef,
    pub expire: Vec<String>,
    pub write: Vec<DataFile>,
}

/// A unit of work on tables. Nothing of it happens before the commit.
pub struct IcebergTx {
    pub staged_creates: Vec<StagedCreate>,
    pub staged_files: Vec<StagedFiles>,
    pub staged_compacts: Vec<StagedCompact>,
    pub staged_run_success: Option<u128>,
}

/// The steps of registering files in one table.
pub struct Registration {
    pub table: TableRef,
    pub steps: Vec<RegisterStep>,
}

/// What a commit does, in this order: the Iceberg tables of `creates` are made where
/// they are missing; one snapshot is made; unless a registration was refused, each is
/// done at that snapshot, then the run is marked as succeeded, then the triggers of
/// the written tables fire, and the transaction commits.
pub struct TxPlan {
    pub creates: Vec<StagedCreate>,
    pub registrations: Result<Vec<Registration>, ControlPlaneError>,
    pub run_success: Option<u128>,
    pub written: Vec<TableRef>,
}

/// The first staged creation of a table from `from` on.
pub open spec fn created(creates: Seq<StagedCreate>, table: TableKey, from: int) -> Option<int>
    decreases creates.len() - from,
{
    if from < 0 || from >= creates.len() {
        None
    } else if creates[from].table@ == table {
        Some(from)
    } else {
        created(creates, table, from + 1)
    }
}

/// That files are staged for a table that was not created first.
pub open spec fn uncreated(table: TableRef) -> Fault {
    Fault::Backend(
        "IcebergTx: files staged for TableRef { schema: "@ + debug_text(table.schema@) + ", name: "@
            + debug_text(table.name@) + " } without a preceding create_table"@,
    )
}

/// Why staged files cannot be registered, where they cannot.
pub open spec fn files_fault(creates: Seq<StagedCreate>, f: StagedFiles) -> Option<Fault> {
    match created(creates, f.table@, 0) {
        None => Some(uncreated(f.table)),
        Some(c) => register_fault(f.mode, creates[c].columns@, creates[c].resolved@, f.files@),
    }
}

/// Why a staged replacement cannot be registered, where it cannot.
pub open spec fn compact_fault(c: StagedCompact) -> Option<Fault> {
    register_fault(
        WriteMode::Compact { expire_paths: c.expire },
        Seq::empty(),
        Seq::empty(),
        c.write@,
    )
}

/// The first reason from `from` on why staged files cannot be registered.
pub open spec fn first_files_fault(
    creates: Seq<StagedCreate>,
    files: Seq<StagedFiles>,
    from: int,
) -> Option<Fault>
    decreases files.len() - from,
{
    if from < 0 || from >= files.len() {
        None
    } else {
        match files_fault(creates, files[from]) {
            Some(e) => Some(e),
            None => first_files_fault(creates, files, from + 1),
        }
    }
}

/// The first reason from `from` on why a staged replacement cannot be registered.
pub open spec fn first_compact_fault(compacts: Seq<StagedCompact>, from: int) -> Option<Fault>
    decreases compacts.len() - from,
{
    if from < 0 || from >= compacts.len() {
        None
    } else {
        match compact_fault(compacts[from]) {
            Some(e) => Some(e),
            None => first_compact_fault(compacts, from + 1),
        }
    }
}

/// A registration of staged files, with the columns of the first creation.
pub open spec fn registers_files(
    r: Registration,
    creates: Seq<StagedCreate>,
    f: StagedFiles,
) -> bool {
    r.table@ == f.table@ && (created(creates, f.table@, 0) matches Some(c) && are_register_steps(
        r.steps@,
        f.mode,
        creates[c].columns@,
        creates[c].resolved@,
        f.files@,
    ))
}

/// A registration of a staged replacement.
pub open spec fn registers_compact(r: Registration, c: StagedCompact) -> bool {
    r.table@ == c.table@ && are_register_steps(
        r.steps@,
        WriteMode::Compact { expire_paths: c.expire },
        Seq::empty(),
        Seq::empty(),
        c.write@,
    )
}

/// The registrations of a commit: the staged files, then the replacements.
pub open spec fn are_registrations(
    r: Seq<Registration>,
    creates: Seq<StagedCreate>,
    files: Seq<StagedFiles>,
    compacts: Seq<StagedCompact>,
) -> bool {
    &&& r.len() == files.len() + compacts.len()
    &&& forall|i: int| 0 <= i < files.len() ==> registers_files(#[trigger] r[i], creates, files[i])
    &&& forall|i: int|
        files.len() <= i < r.len() ==> registers_compact(
            #[trigger] r[i],
            compacts[i - files.len()],
        )
}

/// The tables that staged files are for.
pub open spec fn file_tables(files: Seq<StagedFiles>) -> Set<TableKey> {
    Set::new(|k: TableKey| exists|i: int| 0 <= i < files.len() && (#[trigger] files[i]).table@ == k)
}

/// The columns of each creation can be numbered, and each has its type.
pub open spec fn creates_fit(creates: Seq<StagedCreate>) -> bool {
    forall|i: int|
        0 <= i < creates.len() ==> (#[trigger] creates[i]).columns@.len()
            == creates[i].resolved@.len() && creates[i].columns@.len() < i64::MAX
}

impl IcebergTx {
    /// Whether the columns of each creation can be registered.
    pub open spec fn wf(&self) -> bool {
        creates_fit(self.staged_creates@)
    }

    /// A unit of work with nothing staged.
    pub fn new() -> (r: Self)
        ensures
            r.wf(),
            r.staged_creates@.len() == 0,
            r.staged_files@.len() == 0,
            r.staged_compacts@.len() == 0,
            r.staged_run_success is None,
    {
        IcebergTx {
            staged_creates: Vec::new(),
            staged_files: Vec::new(),
            staged_compacts: Vec::new(),
            staged_run_success: None,
        }
    }

    /// Stages the creation of a table.
    pub fn create_table(
        &mut self,
        table: TableRef,
        columns: Vec<ColumnSpec>,
        resolved: Vec<Option<BaseType>>,
    )
        requires
            old(self).wf(),
            columns@.len() == resolved@.len(),
            columns@.len() < i64::MAX,
        ensures
            final(self).wf(),
            final(self).staged_creates@ == old(self).staged_creates@.push(
                (StagedCreate { table, columns, resolved }),
            ),
            final(self).staged_files == old(self).staged_files,
            final(self).staged_compacts == old(self).staged_compacts,
            final(self).staged_run_success == old(self).staged_run_success,
    {
        self.staged_creates.push(StagedCreate { table, columns, resolved });
    }

    /// Stages files that come beside those of the table.
    pub fn append_files(&mut self, table: TableRef, files: Vec<DataFile>)
        requires
            old(self).wf(),
        ensures
            final(self).wf(),
            final(self).staged_files@ == old(self).staged_files@.push(
                (StagedFiles { table, files, mode: WriteMode::Append }),
            ),
            final(self).staged_creates == old(self).staged_creates,
            final(self).staged_compacts == old(self).staged_compacts,
            final(self).staged_run_success == old(self).staged_run_success,
    {
        self.staged_files.push(StagedFiles { table, files, mode: WriteMode::Append });
    }

    /// Stages files that come in place of those of the table.
    pub fn replace_files(&mut self, table: TableRef, files: Vec<DataFile>)
        requires
            old(self).wf(),
        ensures
            final(self).wf(),
            final(self).staged_files@ == old(self).staged_files@.push(
                (StagedFiles { table, files, mode: WriteMode::Overwrite }),
            ),
            final(self).staged_creates == old(self).staged_creates,
            final(self).staged_compacts == old(self).staged_compacts,
            final(self).staged_run_success == old(self).staged_run_success,
    {
        self.staged_files.push(StagedFiles { table, files, mode: WriteMode::Overwrite });
    }

    /// Stages files that come in place of some of the table's that hold the same
    /// rows.
    pub fn compact_files(&mut self, table: TableRef, expire: Vec<String>, write: Vec<DataFile>)
        requires
            old(self).wf(),
        ensures
            final(self).wf(),
            final(self).staged_compacts@ == old(self).staged_compacts@.push(
                (StagedCompact { table, expire, write }),
            ),
            final(self).staged_creates == old(self).staged_creates,
            final(self).staged_files == old(self).staged_files,
            final(self).staged_run_success == old(self).staged_run_success,
    {
        self.staged_compacts.push(StagedCompact { table, expire, write });
    }

    /// Stages the mark that a run succeeded, once.
    pub fn mark_run_succeeded(&mut self, run_id: u128) -> (r: Result<(), ControlPlaneError>)
        requires
            old(self).wf(),
        ensures
            final(self).wf(),
            outcome(r) == (if old(self).staged_run_success is Some {
                Err(
                    Fault::Validation(
                        "a run success mark is already staged on this transaction"@,
                    ),
                )
            } else {
                Ok::<(), Fault>(())
            }),
            final(self).staged_run_success == (if r is Ok {
                Some(run_id)
            } else {
                old(self).staged_run_success
            }),
            final(self).staged_creates == old(self).staged_creates,
            final(self).staged_files == old(self).staged_files,
            final(self).staged_compacts == old(self).staged_compacts,
    {
        if self.staged_run_success.is_some() {
            return Err(
                ControlPlaneError::Validation(
                    "a run success mark is already staged on this transaction".to_owned(),
                ),
            );
        }
        self.staged_run_success = Some(run_id);
        Ok(())
    }

    /// What the commit does. Where no table is touched there is no plan: only what
    /// was done before is committed, and a mark that a run succeeded is refused.
    pub fn commit(self) -> (r: Result<Option<TxPlan>, ControlPlaneError>)
        requires
            self.wf(),
        ensures
            ({
                let idle = self.staged_creates@.len() == 0 && self.staged_files@.len() == 0
                    && self.staged_compacts@.len() == 0;
                match r {
                    Err(e) => idle && self.staged_run_success is Some && e@ == Fault::Validation(
                        "mark_run_succeeded staged without a snapshot-producing write"@,
                    ),
                    Ok(None) => idle && self.staged_run_success is None,
                    Ok(Some(plan)) => {
                        &&& !idle
                        &&& plan.creates == self.staged_creates
                        &&& plan.run_success == self.staged_run_success
                        &&& forall|i: int, j: int|
                            0 <= i < j < plan.written@.len() ==> TableRef::before(
                                (#[trigger] plan.written@[i])@,
                                (#[trigger] plan.written@[j])@,
                            )
                        &&& crate::iceberg_landing::lists_tables(
                            plan.written@,
                            file_tables(self.staged_files@),
                        )
                        &&& match plan.registrations {
                            Ok(list) => {
                                &&& first_files_fault(
                                    self.staged_creates@,
                                    self.staged_files@,
                                    0,
                                ) is None
                                &&& first_compact_fault(self.staged_compacts@, 0) is None
                                &&& are_registrations(
                                    list@,
                                    self.staged_creates@,
                                    self.staged_files@,
                                    self.staged_compacts@,
                                )
                            },
                            Err(e) => match first_files_fault(
                                self.staged_creates@,
                                self.staged_files@,
                                0,
                            ) {
                                Some(f) => e@ == f,
                                None => first_compact_fault(self.staged_compacts@, 0) == Some(e@),
                            },
                        }
                    },
                }
            }),
    {
        let IcebergTx { staged_creates, staged_files, staged_compacts, staged_run_success } = self;
        if staged_creates.len() == 0 && staged_files.len() == 0 && staged_compacts.len() == 0 {
            if staged_run_success.is_some() {
                return Err(
                    ControlPlaneError::Validation(
                        "mark_run_succeeded staged without a snapshot-producing write".to_owned(),
                    ),
                );
            }
            return Ok(None);
        }
        let written: Vec<TableRef> = written_tables(&staged_files);
        let registrations: Result<Vec<Registration>, ControlPlaneError> = registrations_of(
            &staged_creates,
            staged_files,
            staged_compacts,
        );
        Ok(
            Some(
                TxPlan {
                    creates: staged_creates,
                    registrations,
                    run_success: staged_run_success,
                    written,
                },
            ),
        )
    }
}

/// The tables that staged files are for, each once, in order.
fn written_tables(files: &Vec<StagedFiles>) -> (r: Vec<TableRef>)
    ensures
        forall|i: int, j: int|
            0 <= i < j < r@.len() ==> TableRef::before((#[trigger] r@[i])@, (#[trigger] r@[j])@),
        crate::iceberg_landing::lists_tables(r@, file_tables(files@)),
{
    let mut tables: OrderedSet<TableRef> = OrderedSet::new();
    let mut i: usize = 0;
    assert(tables@ =~= file_tables(files@.take(0)));
    while i < files.len()
        invariant
            i <= files@.len(),
            tables.wf(),
            tables@ == file_tables(files@.take(i as int)),
        decreases files@.len() - i,
    {
        let f: &StagedFiles = &files[i];
        tables.insert(f.table.duplicate());
        proof {
            let a = files@.take(i as int);
            let b = files@.take(i + 1);
            assert forall|k: TableKey| #[trigger] tables@.contains(k) == file_tables(b).contains(k) by {
                if file_tables(a).contains(k) {
                    let j = choose|j: int| 0 <= j < a.len() && (#[trigger] a[j]).table@ == k;
                    assert(b[j].table@ == k);
                }
                if file_tables(b).contains(k) && k != f.table@ {
                    let j = choose|j: int| 0 <= j < b.len() && (#[trigger] b[j]).table@ == k;
                    assert(a[j].table@ == k);
                }
                assert(b[i as int].table@ == f.table@);
            }
            assert(tables@ =~= file_tables(b));
        }
        i = i + 1;
    }
    assert(files@.take(i as int) =~= files@);
    let list: Vec<&TableRef> = elements_of(&tables);
    let mut out: Vec<TableRef> = Vec::new();
    let mut k: usize = 0;
    while k < list.len()
        invariant
            k <= list@.len(),
            out@.len() == k,
            forall|j: int| 0 <= j < k ==> #[trigger] out@[j] == *list@[j],
        decreases list@.len() - k,
    {
        out.push(list[k].duplicate());
        k = k + 1;
    }
    proof {
        let all = file_tables(files@);
        assert(all == tables@);
        assert forall|t: TableKey| #[trigger] all.contains(t) implies exists|j: int|
            0 <= j < out@.len() && (#[trigger] out@[j])@ == t by {
            assert(tables@.contains(t));
            let j = choose|j: int| 0 <= j < list@.len() && (#[trigger] list@[j]).model() == t;
            assert(out@[j]@ == t);
        }
        assert forall|j: int| 0 <= j < out@.len() implies all.contains((#[trigger] out@[j])@) by {
            assert(list@[j].model() == out@[j]@);
        }
    }
    out
}

/// The first staged creation of a table.
fn find_created(creates: &Vec<StagedCreate>, table: &TableRef) -> (r: Option<usize>)
    ensures
        match r {
            Some(i) => created(creates@, table@, 0) == Some(i as int) && i < creates@.len(),
            None => created(creates@, table@, 0) is None,
        },
{
    let mut i: usize = 0;
    while i < creates.len()
        invariant
            i <= creates@.len(),
            created(creates@, table@, 0) == created(creates@, table@, i as int),
        decreases creates@.len() - i,
    {
        if creates[i].table.same(table) {
            return Some(i);
        }
        i = i + 1;
    }
    None
}

/// The registration of staged files.
fn register_staged(creates: &Vec<StagedCreate>, f: StagedFiles) -> (r: Result<
    Registration,
    ControlPlaneError,
>)
    requires
        creates_fit(creates@),
    ensures
        match r {
            Ok(reg) => files_fault(creates@, f) is None && registers_files(reg, creates@, f),
            Err(e) => files_fault(creates@, f) == Some(e@),
        },
{
    match find_created(creates, &f.table) {
        None => Err(
            ControlPlaneError::Backend(
                concat5(
                    "IcebergTx: files staged for TableRef { schema: ",
                    debug_of(f.table.schema.as_str()).as_str(),
                    ", name: ",
                    debug_of(f.table.name.as_str()).as_str(),
                    " } without a preceding create_table",
                ),
            ),
        ),
        Some(c) => {
            let StagedFiles { table, files, mode } = f;
            match register_files(mode, &creates[c].columns, &creates[c].resolved, files) {
                Ok(steps) => Ok(Registration { table, steps }),
                Err(e) => Err(e),
            }
        },
    }
}

/// The registration of a staged replacement.
fn register_compact(c: StagedCompact) -> (r: Result<Registration, ControlPlaneError>)
    ensures
        match r {
            Ok(reg) => compact_fault(c) is None && registers_compact(reg, c),
            Err(e) => compact_fault(c) == Some(e@),
        },
{
    let columns: Vec<ColumnSpec> = Vec::new();
    let resolved: Vec<Option<BaseType>> = Vec::new();
    assert(columns@ =~= Seq::empty());
    assert(resolved@ =~= Seq::empty());
    let StagedCompact { table, expire, write } = c;
    match register_files(WriteMode::Compact { expire_paths: expire }, &columns, &resolved, write) {
        Ok(steps) => Ok(Registration { table, steps }),
        Err(e) => Err(e),
    }
}

/// The registrations of a commit.
fn registrations_of(
    creates: &Vec<StagedCreate>,
    staged_files: Vec<StagedFiles>,
    staged_compacts: Vec<StagedCompact>,
) -> (r: Result<Vec<Registration>, ControlPlaneError>)
    requires
        creates_fit(creates@),
    ensures
        match r {
            Ok(list) => {
                &&& first_files_fault(creates@, staged_files@, 0) is None
                &&& first_compact_fault(staged_compacts@, 0) is None
                &&& are_registrations(list@, creates@, staged_files@, staged_compacts@)
            },
            Err(e) => match first_files_fault(creates@, staged_files@, 0) {
                Some(f) => e@ == f,
                None => first_compact_fault(staged_compacts@, 0) == Some(e@),
            },
        },
{
    let ghost all = staged_files@;
    let ghost later = staged_compacts@;
    let mut out: Vec<Registration> = Vec::new();
    let mut files: Vec<StagedFiles> = staged_files;
    assert(all.skip(0) =~= all);
    while files.len() > 0
        invariant
            creates_fit(creates@),
            all == staged_files@,
            out@.len() + files@.len() == all.len(),
            files@ == all.skip(out@.len() as int),
            first_files_fault(creates@, all, 0) == first_files_fault(
                creates@,
                all,
                out@.len() as int,
            ),
            forall|i: int|
                0 <= i < out@.len() ==> registers_files(#[trigger] out@[i], creates@, all[i]),
        decreases files@.len(),
    {
        let ghost n = out@.len() as int;
        let f: StagedFiles = files.remove(0);
        assert(f == all[n]);
        assert(files@ =~= all.skip(n + 1));
        match register_staged(creates, f) {
            Ok(reg) => out.push(reg),
            Err(e) => {
                return Err(e);
            },
        }
    }
    assert(first_files_fault(creates@, all, 0) is None);
    let ghost base = out@;
    let mut compacts: Vec<StagedCompact> = staged_compacts;
    let ghost mut k: int = 0;
    assert(later.skip(0) =~= later);
    while compacts.len() > 0
        invariant
            all == staged_files@,
            later == staged_compacts@,
            base.len() == all.len(),
            0 <= k <= later.len(),
            out@.len() == all.len() + k,
            compacts@ == later.skip(k),
            first_files_fault(creates@, all, 0) is None,
            first_compact_fault(later, 0) == first_compact_fault(later, k),
            forall|i: int|
                0 <= i < all.len() ==> registers_files(#[trigger] out@[i], creates@, all[i]),
            forall|i: int|
                all.len() <= i < out@.len() ==> registers_compact(
                    #[trigger] out@[i],
                    later[i - all.len()],
                ),
        decreases compacts@.len(),
    {
        let c: StagedCompact = compacts.remove(0);
        assert(c == later[k]);
        assert(compacts@ =~= later.skip(k + 1));
        match register_compact(c) {
            Ok(reg) => out.push(reg),
            Err(e) => {
                return Err(e);
            },
        }
        proof {
            k = k + 1;
        }
    }
    Ok(out)
}

/// A commit that only replaces files by others with the same rows fires no trigger.
pub proof fn law_compaction_fires_nothing(files: Seq<StagedFiles>, written: Seq<TableRef>)
    requires
        files.len() == 0,
        crate::iceberg_landing::lists_tables(written, file_tables(files)),
    ensures
        written.len() == 0,
{
    if written.len() > 0 {
        assert(file_tables(files).contains(written[0]@));
    }
}

} // verus!
