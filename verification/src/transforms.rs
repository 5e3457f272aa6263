//! Transforms: definitions and runs.
use crate::ambient;
use crate::error::{outcome, ControlPlaneError, Fault};
use crate::key::{str_same, Key};
use crate::memory::{ControlPlaneView, MemoryControlPlane};
use crate::ordered::{lemma_entry, lemma_position, position_of, OrderedMap};
use crate::queue::{insert_with_id, queued_row};
use crate::text::concat;
use crate::types::{NewJob, RunOutcome, RunState, TransformBody, TransformDef, TransformRun};
use vstd::prelude::*;

verus! {

/// Every run is kept under its own number.
pub open spec fn runs_numbered(runs: Map<int, TransformRun>) -> bool {
    forall|id: int| #[trigger] runs.dom().contains(id) ==> runs[id].run_id == id
}

/// Transform definitions by name, and runs by number.
pub struct TransformsState {
    pub defs: OrderedMap<String, TransformDef>,
    pub runs: OrderedMap<u128, TransformRun>,
}

impl TransformsState {
    /// A run is kept under its own number.
    pub open spec fn wf(&self) -> bool {
        &&& self.defs.wf()
        &&& self.runs.wf()
        &&& runs_numbered(self.runs@)
    }

    /// No transforms.
    pub fn new() -> (r: Self)
        ensures
            r.wf(),
            r.defs@ == Map::<Seq<char>, TransformDef>::empty(),
            r.runs@ == Map::<int, TransformRun>::empty(),
    {
        TransformsState { defs: OrderedMap::new(), runs: OrderedMap::new() }
    }
}

/// The JSON text of a transform body.
pub open spec fn body_text(b: TransformBody) -> String {
    match b {
        TransformBody::Typed { text, .. } => text,
        TransformBody::Physical { text } => text,
    }
}

/// A copy of the body's JSON text.
pub(crate) fn body_text_of(b: &TransformBody) -> (r: String)
    ensures
        r == body_text(*b),
{
    match b {
        TransformBody::Typed { inputs: _, output: _, text } => text.clone(),
        TransformBody::Physical { text } => text.clone(),
    }
}

/// The run after its outcome is recorded at `now`.
pub open spec fn with_outcome(run: TransformRun, outcome: RunOutcome, now: i128) -> TransformRun {
    match outcome {
        RunOutcome::Succeeded { snapshot_id } => TransformRun {
            state: RunState::Succeeded,
            snapshot_id: Some(snapshot_id),
            finished_at: Some(now),
            ..run
        },
        RunOutcome::RetryQueued { error } => TransformRun {
            state: RunState::Queued,
            error: Some(error),
            ..run
        },
        RunOutcome::Failed { error } => TransformRun {
            state: RunState::Failed,
            error: Some(error),
            finished_at: Some(now),
            ..run
        },
    }
}

/// Records the outcome of a run, at `now`.
pub(crate) fn apply_outcome(run: &mut TransformRun, outcome: RunOutcome, now: i128)
    ensures
        *final(run) == with_outcome(*old(run), outcome, now),
{
    match outcome {
        RunOutcome::Succeeded { snapshot_id } => {
            run.state = RunState::Succeeded;
            run.snapshot_id = Some(snapshot_id);
            run.finished_at = Some(now);
        },
        RunOutcome::RetryQueued { error } => {
            run.state = RunState::Queued;
            run.error = Some(error);
        },
        RunOutcome::Failed { error } => {
            run.state = RunState::Failed;
            run.error = Some(error);
            run.finished_at = Some(now);
        },
    }
}


/// The first of `names` that is no ontology type.
pub open spec fn first_unknown(
    names: Seq<Seq<char>>,
    types: Map<Seq<char>, crate::types::ObjectType>,
) -> Option<Seq<char>>
    decreases names.len(),
{
    if names.len() == 0 {
        None
    } else if !types.dom().contains(names[0]) {
        Some(names[0])
    } else {
        first_unknown(names.skip(1), types)
    }
}

/// The ontology types that a body names: its inputs, then its output.
pub open spec fn body_types(b: TransformBody) -> Seq<Seq<char>> {
    match b {
        TransformBody::Typed { inputs, output, .. } => crate::text::texts(inputs@).push(output@),
        TransformBody::Physical { .. } => Seq::empty(),
    }
}

/// `a` was queued after `b`; of two queued at once, it has the larger number.
pub open spec fn newer(a: TransformRun, b: TransformRun) -> bool {
    a.queued_at > b.queued_at || (a.queued_at == b.queued_at && a.run_id > b.run_id)
}

/// The run is one of the transform, or no transform is asked for.
pub open spec fn run_of(run: TransformRun, transform: Option<&str>) -> bool {
    match transform {
        None => true,
        Some(t) => run.transform matches Some(n) && n@ == t@,
    }
}

fn run_missing(run_id: u128) -> (r: ControlPlaneError)
    ensures
        r@ == Fault::NotFound("run "@ + ambient::uuid_chars(run_id)),
{
    ControlPlaneError::NotFound(concat("run ", ambient::uuid_text(run_id).as_str()))
}

/// What submitting a run at `now` does.
pub open spec fn submitted(
    pre: ControlPlaneView,
    post: ControlPlaneView,
    run: TransformRun,
    job: NewJob,
    job_id: u128,
    now: i128,
) -> bool {
    post == ControlPlaneView {
        rows: pre.rows.push(queued_row(job_id, job, now)),
        runs: pre.runs.insert(run.run_id as int, run),
        ..pre
    }
}

/// What marking a run as started at `now` does.
pub open spec fn started(
    pre: ControlPlaneView,
    post: ControlPlaneView,
    run_id: u128,
    now: i128,
    r: Result<(), ControlPlaneError>,
) -> bool {
    if pre.runs.dom().contains(run_id as int) {
        r is Ok && post == (ControlPlaneView {
            runs: pre.runs.insert(
                run_id as int,
                TransformRun {
                    state: RunState::Running,
                    started_at: Some(now),
                    ..pre.runs[run_id as int]
                },
            ),
            ..pre
        })
    } else {
        post == pre && outcome(r) == Err::<(), Fault>(
            Fault::NotFound("run "@ + ambient::uuid_chars(run_id)),
        )
    }
}

/// What recording the outcome of a run at `now` does.
pub open spec fn finished(
    pre: ControlPlaneView,
    post: ControlPlaneView,
    run_id: u128,
    o: RunOutcome,
    now: i128,
    r: Result<(), ControlPlaneError>,
) -> bool {
    if pre.runs.dom().contains(run_id as int) {
        r is Ok && post == (ControlPlaneView {
            runs: pre.runs.insert(
                run_id as int,
                with_outcome(pre.runs[run_id as int], o, now),
            ),
            ..pre
        })
    } else {
        post == pre && outcome(r) == Err::<(), Fault>(
            Fault::NotFound("run "@ + ambient::uuid_chars(run_id)),
        )
    }
}

/// What defining a transform does and reports, `valid` being the verdict on the definition
/// by itself.
pub open spec fn transform_defined(
    pre: ControlPlaneView,
    post: ControlPlaneView,
    def: TransformDef,
    valid: Result<(), ControlPlaneError>,
    r: Result<(), ControlPlaneError>,
) -> bool {
    match valid {
        Err(e) => r == Err::<(), ControlPlaneError>(e) && post == pre,
        Ok(_) => match first_unknown(body_types(def.body), pre.ontology.types) {
            Some(ty) => post == pre && outcome(r) == Err::<(), Fault>(
                Fault::Validation("unknown ontology type in typed transform: "@ + ty),
            ),
            None => r is Ok && post == (ControlPlaneView {
                defs: pre.defs.insert(def.name@, def),
                ..pre
            }),
        },
    }
}

/// What deleting a transform does.
pub open spec fn transform_deleted(pre: ControlPlaneView, post: ControlPlaneView, name: Seq<char>) -> bool {
    post == ControlPlaneView { defs: pre.defs.remove(name), ..pre }
}

/// `list` holds the runs of a transform, or all of them, the newest first.
pub open spec fn runs_listed(
    runs: Map<int, TransformRun>,
    transform: Option<&str>,
    list: Seq<&TransformRun>,
) -> bool {
    &&& forall|i: int, j: int|
        0 <= i < j < list.len() ==> newer(*(#[trigger] list[i]), *(#[trigger] list[j]))
    &&& forall|i: int|
        0 <= i < list.len() ==> run_of(*(#[trigger] list[i]), transform) && runs.dom().contains(
            list[i].run_id as int,
        ) && *list[i] == runs[list[i].run_id as int]
    &&& forall|id: int| #[trigger]
        runs.dom().contains(id) && run_of(runs[id], transform) ==> exists|i: int|
            0 <= i < list.len() && *(#[trigger] list[i]) == runs[id]
}

impl MemoryControlPlane {
    /// Whether the ontology type is not there.
    fn unknown_type(&self, ty: &String) -> (r: Option<ControlPlaneError>)
        requires
            self.wf(),
        ensures
            r is Some <==> !self@.ontology.types.dom().contains(ty@),
            r matches Some(e) ==> e@ == Fault::Validation(
                "unknown ontology type in typed transform: "@ + ty@,
            ),
    {
        if self.ontology.types.contains(ty) {
            None
        } else {
            Some(
                ControlPlaneError::Validation(
                    concat("unknown ontology type in typed transform: ", ty.as_str()),
                ),
            )
        }
    }

    /// The fault of a body that names a type that is not there.
    fn check_body(&self, body: &TransformBody) -> (r: Option<ControlPlaneError>)
        requires
            self.wf(),
        ensures
            match first_unknown(body_types(*body), self@.ontology.types) {
                Some(ty) => r is Some && r->0@ == Fault::Validation(
                    "unknown ontology type in typed transform: "@ + ty,
                ),
                None => r is None,
            },
    {
        match body {
            TransformBody::Physical { text: _ } => None,
            TransformBody::Typed { inputs, output, text: _ } => {
                let ghost names = body_types(*body);
                assert(names.skip(0) =~= names);
                let mut i: usize = 0;
                while i < inputs.len()
                    invariant
                        self.wf(),
                        i <= inputs@.len(),
                        names == crate::text::texts(inputs@).push(output@),
                        names == body_types(*body),
                        first_unknown(names, self@.ontology.types) == first_unknown(
                            names.skip(i as int),
                            self@.ontology.types,
                        ),
                    decreases inputs@.len() - i,
                {
                    assert(names.skip(i as int)[0] == inputs@[i as int]@);
                    assert(names.skip(i as int).skip(1) =~= names.skip(i + 1));
                    match self.unknown_type(&inputs[i]) {
                        Some(e) => {
                            return Some(e);
                        },
                        None => {},
                    }
                    i = i + 1;
                }
                assert(names.skip(i as int)[0] == output@);
                assert(names.skip(i as int).skip(1).len() == 0);
                assert(first_unknown(names.skip(i as int).skip(1), self@.ontology.types) is None);
                self.unknown_type(output)
            },
        }
    }

    /// Defines a transform, in place of one of the same name. `valid` is the
    /// verdict on the definition by itself.
    pub fn define_transform(&mut self, def: TransformDef, valid: Result<(), ControlPlaneError>) -> (r:
        Result<(), ControlPlaneError>)
        requires
            old(self).wf(),
        ensures
            final(self).wf(),
            r is Err ==> *final(self) == *old(self),
            transform_defined(old(self)@, final(self)@, def, valid, r),
    {
        match valid {
            Err(e) => {
                return Err(e);
            },
            Ok(_) => {},
        }
        match self.check_body(&def.body) {
            Some(e) => {
                return Err(e);
            },
            None => {},
        }
        self.transforms.defs.insert(def.name.clone(), def);
        Ok(())
    }

    /// The definition of a transform.
    pub fn get_transform(&self, name: &str) -> (r: Result<&TransformDef, ControlPlaneError>)
        requires
            self.wf(),
        ensures
            match r {
                Ok(d) => self@.defs.dom().contains(name@) && *d == self@.defs[name@],
                Err(e) => !self@.defs.dom().contains(name@) && e@ == Fault::NotFound(
                    "transform "@ + name@,
                ),
            },
    {
        match self.transforms.defs.get(&name.to_owned()) {
            Some(d) => Ok(d),
            None => Err(ControlPlaneError::NotFound(concat("transform ", name))),
        }
    }

    /// The transforms, in order of their names.
    pub fn list_transforms(&self) -> (r: Vec<&TransformDef>)
        requires
            self.wf(),
        ensures
            r@.len() == self.transforms.defs.entries@.len(),
            forall|i: int|
                0 <= i < r@.len() ==> *(#[trigger] r@[i]) == self.transforms.defs.entries@[i].1,
            crate::ordered::sorted_entries(self.transforms.defs.entries@),
            crate::ordered::entries_map(self.transforms.defs.entries@) == self@.defs,
    {
        crate::ordered::values_of(&self.transforms.defs)
    }

    /// Deletes a transform.
    pub fn delete_transform(&mut self, name: &str)
        requires
            old(self).wf(),
        ensures
            final(self).wf(),
            transform_deleted(old(self)@, final(self)@, name@),
    {
        let _gone: Option<TransformDef> = self.transforms.defs.remove(&name.to_owned());
    }

    /// Records a run and enqueues its job, under the number `job_id`, at `now`.
    pub fn submit_run_as(&mut self, run: TransformRun, job: NewJob, job_id: u128, now: i128)
        requires
            old(self).wf(),
        ensures
            final(self).wf(),
            submitted(old(self)@, final(self)@, run, job, job_id, now),
    {
        insert_with_id(&mut self.rows, job_id, job, now);
        self.transforms.runs.insert(run.run_id, run);
    }

    /// Records a run and enqueues its job, whose number it gives.
    pub fn submit_run(&mut self, run: TransformRun, job: NewJob) -> (r: u128)
        requires
            old(self).wf(),
        ensures
            final(self).wf(),
            ambient::is_random_uuid(r),
            exists|now: i128|
                ambient::in_calendar(now as int) && #[trigger] submitted(
                    old(self)@,
                    final(self)@,
                    run,
                    job,
                    r,
                    now,
                ),
    {
        let id: u128 = ambient::fresh_id();
        let now: i128 = ambient::now();
        self.submit_run_as(run, job, id, now);
        id
    }

    /// Marks a run as started at `now`.
    pub fn mark_run_running_at(&mut self, run_id: u128, now: i128) -> (r: Result<(), ControlPlaneError>)
        requires
            old(self).wf(),
        ensures
            final(self).wf(),
            started(old(self)@, final(self)@, run_id, now, r),
    {
        let ghost runs = self.transforms.runs@;
        match self.transforms.runs.remove(&run_id) {
            Some(mut run) => {
                run.state = RunState::Running;
                run.started_at = Some(now);
                self.transforms.runs.insert(run_id, run);
                assert(self.transforms.runs@ =~= runs.insert(run_id as int, run));
                Ok(())
            },
            None => {
                assert(self.transforms.runs@ =~= runs);
                Err(run_missing(run_id))
            },
        }
    }

    /// Marks a run as started.
    pub fn mark_run_running(&mut self, run_id: u128) -> (r: Result<(), ControlPlaneError>)
        requires
            old(self).wf(),
        ensures
            final(self).wf(),
            exists|now: i128|
                ambient::in_calendar(now as int) && #[trigger] started(
                    old(self)@,
                    final(self)@,
                    run_id,
                    now,
                    r,
                ),
    {
        let now: i128 = ambient::now();
        self.mark_run_running_at(run_id, now)
    }

    /// Records the outcome of a run at `now`.
    pub fn finish_run_at(&mut self, run_id: u128, o: RunOutcome, now: i128) -> (r: Result<
        (),
        ControlPlaneError,
    >)
        requires
            old(self).wf(),
        ensures
            final(self).wf(),
            finished(old(self)@, final(self)@, run_id, o, now, r),
    {
        let ghost runs = self.transforms.runs@;
        match self.transforms.runs.remove(&run_id) {
            Some(mut run) => {
                apply_outcome(&mut run, o, now);
                self.transforms.runs.insert(run_id, run);
                assert(self.transforms.runs@ =~= runs.insert(run_id as int, run));
                Ok(())
            },
            None => {
                assert(self.transforms.runs@ =~= runs);
                Err(run_missing(run_id))
            },
        }
    }

    /// Records the outcome of a run.
    pub fn finish_run(&mut self, run_id: u128, o: RunOutcome) -> (r: Result<(), ControlPlaneError>)
        requires
            old(self).wf(),
        ensures
            final(self).wf(),
            exists|now: i128|
                ambient::in_calendar(now as int) && #[trigger] finished(
                    old(self)@,
                    final(self)@,
                    run_id,
                    o,
                    now,
                    r,
                ),
    {
        let now: i128 = ambient::now();
        self.finish_run_at(run_id, o, now)
    }

    /// A run.
    pub fn get_run(&self, run_id: u128) -> (r: Result<&TransformRun, ControlPlaneError>)
        requires
            self.wf(),
        ensures
            match r {
                Ok(run) => self@.runs.dom().contains(run_id as int) && *run
                    == self@.runs[run_id as int],
                Err(e) => !self@.runs.dom().contains(run_id as int) && e@ == Fault::NotFound(
                    "run "@ + ambient::uuid_chars(run_id),
                ),
            },
    {
        match self.transforms.runs.get(&run_id) {
            Some(run) => Ok(run),
            None => Err(run_missing(run_id)),
        }
    }

    /// The runs of a transform, or all of them, the newest first.
    pub fn list_runs(&self, transform: Option<&str>) -> (r: Vec<&TransformRun>)
        requires
            self.wf(),
        ensures
            runs_listed(self@.runs, transform, r@),
    {
        let entries: &Vec<(u128, TransformRun)> = &self.transforms.runs.entries;
        let mut out: Vec<&TransformRun> = Vec::new();
        let ghost mut at: Seq<int> = Seq::empty();
        let mut i: usize = 0;
        while i < entries.len()
            invariant
                self.wf(),
                *entries == self.transforms.runs.entries,
                i <= entries@.len(),
                at.len() == out@.len(),
                forall|a: int, b: int|
                    0 <= a < b < out@.len() ==> newer(*(#[trigger] out@[a]), *(#[trigger] out@[b])),
                forall|a: int|
                    0 <= a < at.len() ==> 0 <= #[trigger] at[a] < i && *out@[a] == entries@[at[a]].1
                        && run_of(entries@[at[a]].1, transform),
                forall|e: int|
                    0 <= e < i && run_of((#[trigger] entries@[e]).1, transform) ==> at.contains(e),
            decreases entries@.len() - i,
        {
            let run: &TransformRun = &entries[i].1;
            let wanted: bool = match transform {
                None => true,
                Some(t) => match &run.transform {
                    Some(n) => str_same(n.as_str(), t),
                    None => false,
                },
            };
            if wanted {
                let ghost before = at;
                let ghost was = out@;
                proof {
                    lemma_numbers(self, i as int);
                    assert forall|a: int| 0 <= a < out@.len() implies (#[trigger] out@[a]).run_id
                        < run.run_id by {
                        assert(0 <= at[a] < i);
                    }
                }
                let k: usize = insert_newest(&mut out, run);
                proof {
                    at = before.insert(k as int, i as int);
                    assert forall|a: int| 0 <= a < at.len() implies 0 <= #[trigger] at[a] < i + 1
                        && *out@[a] == entries@[at[a]].1 && run_of(entries@[at[a]].1, transform) by {
                        if a < k {
                            assert(at[a] == before[a] && out@[a] == was[a]);
                        } else if a > k {
                            assert(at[a] == before[a - 1] && out@[a] == was[a - 1]);
                        }
                    }
                    assert forall|e: int|
                        0 <= e < i + 1 && run_of((#[trigger] entries@[e]).1, transform) implies at.contains(
                        e,
                    ) by {
                        if e < i {
                            let a = choose|a: int| 0 <= a < before.len() && before[a] == e;
                            if a < k {
                                assert(at[a] == e);
                            } else {
                                assert(at[a + 1] == e);
                            }
                        } else {
                            assert(at[k as int] == e);
                        }
                    }
                }
            }
            i = i + 1;
        }
        proof {
            assert forall|a: int| 0 <= a < out@.len() implies run_of(*(#[trigger] out@[a]), transform)
                && self@.runs.dom().contains(out@[a].run_id as int) && *out@[a]
                == self@.runs[out@[a].run_id as int] by {
                assert(0 <= at[a] < i);
                lemma_entry(entries@, at[a]);
                assert(self@.runs.dom().contains(entries@[at[a]].0.model()));
            }
            assert forall|id: int| #[trigger]
                self@.runs.dom().contains(id) && run_of(self@.runs[id], transform) implies exists|i: int|
                0 <= i < out@.len() && *(#[trigger] out@[i]) == self@.runs[id] by {
                lemma_position(entries@, id);
                let p = position_of(entries@, id);
                assert(run_of(entries@[p].1, transform));
                let a = choose|a: int| 0 <= a < at.len() && at[a] == p;
                assert(*out@[a] == self@.runs[id]);
            }
        }
        out
    }
}

/// The runs up to `i` have numbers below that of run `i`.
proof fn lemma_numbers(cp: &MemoryControlPlane, i: int)
    requires
        cp.wf(),
        0 <= i < cp.transforms.runs.entries@.len(),
    ensures
        forall|e: int|
            0 <= e < i ==> (#[trigger] cp.transforms.runs.entries@[e]).1.run_id
                < cp.transforms.runs.entries@[i].1.run_id,
{
    let entries = cp.transforms.runs.entries@;
    lemma_entry(entries, i);
    assert(cp.transforms.runs@.dom().contains(entries[i].0.model()));
    assert forall|e: int| 0 <= e < i implies (#[trigger] entries[e]).1.run_id < entries[i].1.run_id by {
        lemma_entry(entries, e);
        assert(cp.transforms.runs@.dom().contains(entries[e].0.model()));
        assert(u128::before(entries[e].0.model(), entries[i].0.model()));
    }
}

/// Puts `run` in its place among `out`, the newest first, and gives the place.
fn insert_newest<'a>(out: &mut Vec<&'a TransformRun>, run: &'a TransformRun) -> (k: usize)
    requires
        forall|a: int| 0 <= a < old(out)@.len() ==> (#[trigger] old(out)@[a]).run_id < run.run_id,
        forall|a: int, b: int|
            0 <= a < b < old(out)@.len() ==> newer(*(#[trigger] old(out)@[a]), *(#[trigger] old(out)@[b])),
    ensures
        k <= old(out)@.len(),
        final(out)@ == old(out)@.insert(k as int, run),
        forall|a: int, b: int|
            0 <= a < b < final(out)@.len() ==> newer(
                *(#[trigger] final(out)@[a]),
                *(#[trigger] final(out)@[b]),
            ),
{
    let ghost before = out@;
    let mut k: usize = 0;
    while k < out.len() && (out[k].queued_at > run.queued_at)
        invariant
            out@ == before,
            k <= out@.len(),
            forall|a: int| 0 <= a < k ==> (#[trigger] before[a]).queued_at > run.queued_at,
        decreases out@.len() - k,
    {
        k = k + 1;
    }
    out.insert(k, run);
    proof {
        let after = out@;
        assert forall|a: int, b: int| 0 <= a < b < after.len() implies newer(
            *(#[trigger] after[a]),
            *(#[trigger] after[b]),
        ) by {
            if a < k && b < k {
                assert(newer(*before[a], *before[b]));
            } else if a < k && b == k {
                assert(before[a].queued_at > run.queued_at);
            } else if a < k {
                assert(newer(*before[a], *before[b - 1]));
            } else if a == k {
                assert(before[b - 1].run_id < run.run_id);
                if b - 1 > k {
                    assert(newer(*before[k as int], *before[b - 1]));
                }
            } else {
                assert(newer(*before[a - 1], *before[b - 1]));
            }
        }
    }
    k
}

/// A run that succeeded keeps the snapshot it made, and is over.
pub proof fn law_success_records_snapshot(run: TransformRun, snapshot_id: i64, now: i128)
    ensures
        with_outcome(run, RunOutcome::Succeeded { snapshot_id }, now).snapshot_id == Some(
            snapshot_id,
        ),
        with_outcome(run, RunOutcome::Succeeded { snapshot_id }, now).state
            == RunState::Succeeded,
        with_outcome(run, RunOutcome::Succeeded { snapshot_id }, now).finished_at == Some(now),
{
}

} // verus!
