//! The control plane in memory.
use crate::acl::{AclState, AclView};
use crate::auth::{AuthState, AuthView};
use crate::catalog::{CatalogState, CatalogView};
use crate::ontology::{OntologyState, OntologyView};
use crate::ordered::OrderedMap;
use crate::queue::{JobSchedule, Row, LONGEST_SPAN};
use crate::stream::{StreamState, StreamView};
use crate::transaction::MemoryTx;
use crate::transforms::TransformsState;
use crate::types::{LineageEvent, TransformDef, TransformRun};
use vstd::prelude::*;

verus! {

/// What the control plane holds.
#[verifier::ext_equal]
pub struct ControlPlaneView {
    pub rows: Seq<Row>,
    pub catalog: CatalogView,
    pub events: Seq<LineageEvent>,
    pub defs: Map<Seq<char>, TransformDef>,
    pub runs: Map<int, TransformRun>,
    pub ontology: OntologyView,
    pub acl: AclView,
    pub auth: AuthView,
    pub streams: StreamView,
    /// The job schedules, each with when it is next due.
    pub schedules: Map<Seq<char>, (JobSchedule, i128)>,
    /// How long a worker may be silent, in nanoseconds.
    pub lock_timeout: int,
}

/// The control plane, held in memory.
pub struct MemoryControlPlane {
    pub rows: Vec<Row>,
    pub catalog: CatalogState,
    pub events: Vec<LineageEvent>,
    pub transforms: TransformsState,
    pub ontology: OntologyState,
    pub acl: AclState,
    pub auth: AuthState,
    pub streams: StreamState,
    pub schedules: OrderedMap<String, (JobSchedule, i128)>,
    pub lock_timeout: i128,
}

impl View for MemoryControlPlane {
    type V = ControlPlaneView;

    open spec fn view(&self) -> ControlPlaneView {
        ControlPlaneView {
            rows: self.rows@,
            catalog: self.catalog@,
            events: self.events@,
            defs: self.transforms.defs@,
            runs: self.transforms.runs@,
            ontology: self.ontology@,
            acl: self.acl@,
            auth: self.auth@,
            streams: self.streams@,
            schedules: self.schedules@,
            lock_timeout: self.lock_timeout as int,
        }
    }
}

impl MemoryControlPlane {
    pub open spec fn wf(&self) -> bool {
        &&& self.catalog.wf()
        &&& self.transforms.wf()
        &&& self.ontology.wf()
        &&& self.acl.wf()
        &&& self.auth.wf()
        &&& self.streams.wf()
        &&& self.schedules.wf()
        &&& 0 <= self.lock_timeout <= LONGEST_SPAN
    }

    /// A control plane that holds nothing; a worker may be silent for
    /// `lock_timeout` nanoseconds.
    pub fn new(lock_timeout: i128) -> (r: Self)
        requires
            0 <= lock_timeout <= LONGEST_SPAN,
        ensures
            r.wf(),
            r@ == empty_control_plane(lock_timeout as int),
    {
        MemoryControlPlane {
            rows: Vec::new(),
            catalog: CatalogState::new(),
            events: Vec::new(),
            transforms: TransformsState::new(),
            ontology: OntologyState::new(),
            acl: AclState::new(),
            auth: AuthState::new(),
            streams: StreamState::new(),
            schedules: OrderedMap::new(),
            lock_timeout,
        }
    }

    /// A transaction that stages nothing yet.
    pub fn begin_table(&self) -> (r: MemoryTx)
        ensures
            r.staged@.len() == 0,
            r.staged_events@.len() == 0,
            r.staged_tables@.len() == 0,
            r.staged_writes@.len() == 0,
            r.staged_compactions@.len() == 0,
            r.staged_run_success is None,
    {
        MemoryTx::new()
    }
}

/// A control plane that holds nothing.
pub open spec fn empty_control_plane(lock_timeout: int) -> ControlPlaneView {
    ControlPlaneView {
        rows: Seq::empty(),
        catalog: CatalogView {
            snapshots: Seq::empty(),
            tables: Map::empty(),
            columns: Map::empty(),
            files: Map::empty(),
            views: Map::empty(),
        },
        events: Seq::empty(),
        defs: Map::empty(),
        runs: Map::empty(),
        ontology: OntologyView {
            types: Map::empty(),
            links: Seq::empty(),
            actions: Map::empty(),
            vector_indexes: Map::empty(),
        },
        acl: AclView {
            subjects: Set::empty(),
            roles: Set::empty(),
            members: Set::empty(),
            grants: Map::empty(),
            policies: Map::empty(),
            inherits: Set::empty(),
        },
        auth: AuthView {
            users: Map::empty(),
            sessions: Map::empty(),
            accounts: Map::empty(),
            tokens: Map::empty(),
            sealed: false,
        },
        streams: StreamView { offsets: Map::empty(), tables: Map::empty(), watermarks: Map::empty() },
        schedules: Map::empty(),
        lock_timeout,
    }
}

} // verus!
