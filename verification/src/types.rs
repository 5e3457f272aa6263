//! The vocabulary of the control plane.
use crate::iceberg_stats::StatValue;
use crate::key::{str_same, text_before, Key, lemma_text_irreflexive, lemma_text_total, lemma_text_transitive, str_precedes};
use vstd::prelude::*;

verus! {

/// A table (or view) by schema and name.
#[derive(Debug)]
pub struct TableRef {
    pub schema: String,
    pub name: String,
}

/// What a table reference is: its schema and its name.
pub type TableKey = (Seq<char>, Seq<char>);

impl View for TableRef {
    type V = TableKey;

    open spec fn view(&self) -> TableKey {
        (self.schema@, self.name@)
    }
}

/// The order of names in two parts: by the first, then by the second.
pub open spec fn pair_before(a: (Seq<char>, Seq<char>), b: (Seq<char>, Seq<char>)) -> bool {
    text_before(a.0, b.0) || (a.0 == b.0 && text_before(a.1, b.1))
}

impl Key for TableRef {
    type Model = TableKey;

    open spec fn model(&self) -> TableKey {
        self@
    }

    open spec fn before(a: TableKey, b: TableKey) -> bool {
        pair_before(a, b)
    }

    proof fn order_irreflexive(a: TableKey) {
        lemma_text_irreflexive(a.0);
        lemma_text_irreflexive(a.1);
        assert(!pair_before(a, a));
        assert(!Self::before(a, a));
    }

    proof fn order_transitive(a: TableKey, b: TableKey, c: TableKey) {
        if text_before(a.0, b.0) && text_before(b.0, c.0) {
            lemma_text_transitive(a.0, b.0, c.0);
        }
        if text_before(a.1, b.1) && text_before(b.1, c.1) {
            lemma_text_transitive(a.1, b.1, c.1);
        }
    }

    proof fn order_total(a: TableKey, b: TableKey) {
        lemma_text_total(a.0, b.0);
        lemma_text_total(a.1, b.1);
    }

    fn precedes(&self, other: &Self) -> (r: bool) {
        str_precedes(self.schema.as_str(), other.schema.as_str()) || (str_same(
            self.schema.as_str(),
            other.schema.as_str(),
        ) && str_precedes(self.name.as_str(), other.name.as_str()))
    }

    fn same(&self, other: &Self) -> (r: bool) {
        str_same(self.schema.as_str(), other.schema.as_str()) && str_same(
            self.name.as_str(),
            other.name.as_str(),
        )
    }

    fn duplicate(&self) -> (r: Self) {
        TableRef { schema: self.schema.clone(), name: self.name.clone() }
    }
}

/// A dataset in the lineage graph.
#[derive(Debug)]
pub struct DatasetRef {
    pub namespace: String,
    pub name: String,
}

/// What a dataset reference is: its namespace and its name.
pub type DatasetKey = (Seq<char>, Seq<char>);

impl View for DatasetRef {
    type V = DatasetKey;

    open spec fn view(&self) -> DatasetKey {
        (self.namespace@, self.name@)
    }
}

impl Key for DatasetRef {
    type Model = DatasetKey;

    open spec fn model(&self) -> DatasetKey {
        self@
    }

    open spec fn before(a: DatasetKey, b: DatasetKey) -> bool {
        pair_before(a, b)
    }

    proof fn order_irreflexive(a: DatasetKey) {
        TableRef::order_irreflexive(a);
    }

    proof fn order_transitive(a: DatasetKey, b: DatasetKey, c: DatasetKey) {
        TableRef::order_transitive(a, b, c);
    }

    proof fn order_total(a: DatasetKey, b: DatasetKey) {
        TableRef::order_total(a, b);
    }

    fn precedes(&self, other: &Self) -> (r: bool) {
        str_precedes(self.namespace.as_str(), other.namespace.as_str()) || (str_same(
            self.namespace.as_str(),
            other.namespace.as_str(),
        ) && str_precedes(self.name.as_str(), other.name.as_str()))
    }

    fn same(&self, other: &Self) -> (r: bool) {
        str_same(self.namespace.as_str(), other.namespace.as_str()) && str_same(
            self.name.as_str(),
            other.name.as_str(),
        )
    }

    fn duplicate(&self) -> (r: Self) {
        DatasetRef { namespace: self.namespace.clone(), name: self.name.clone() }
    }
}

/// The number of a catalog snapshot. Later snapshots have larger numbers.
#[derive(Clone, Copy, Debug, PartialEq, Eq, Structural)]
pub struct SnapshotId(pub i64);

/// A catalog snapshot. `time` is in nanoseconds since the Unix epoch.
#[derive(Clone, Copy, Debug)]
pub struct Snapshot {
    pub id: SnapshotId,
    pub time: i128,
    pub schema_version: i64,
}

/// A column of a table, by its place in the schema.
#[derive(Debug)]
pub struct ColumnDef {
    pub order: i64,
    pub name: String,
    pub ty: String,
    pub nullable: bool,
}

impl ColumnDef {
    pub fn duplicate(&self) -> (r: Self)
        ensures
            r == *self,
    {
        ColumnDef {
            order: self.order,
            name: self.name.clone(),
            ty: self.ty.clone(),
            nullable: self.nullable,
        }
    }
}

/// A column as a caller declares it.
#[derive(Debug)]
pub struct ColumnSpec {
    pub name: String,
    pub ty: String,
    pub nullable: bool,
}

impl ColumnSpec {
    pub fn duplicate(&self) -> (r: Self)
        ensures
            r == *self,
    {
        ColumnSpec { name: self.name.clone(), ty: self.ty.clone(), nullable: self.nullable }
    }
}

/// A data file of a table.
#[derive(Debug)]
pub struct FileRef {
    pub path: String,
    pub record_count: i64,
    pub file_size_bytes: i64,
}

impl FileRef {
    pub fn duplicate(&self) -> (r: Self)
        ensures
            r == *self,
    {
        FileRef {
            path: self.path.clone(),
            record_count: self.record_count,
            file_size_bytes: self.file_size_bytes,
        }
    }
}

/// The format of a data file.
#[derive(Clone, Copy, Debug, PartialEq, Eq, Structural)]
pub enum FileFormat {
    Parquet,
    Other,
}

/// A statistic of one column of one data file.
#[derive(Debug)]
pub struct ColumnStat {
    pub column_name: String,
    pub null_count: i64,
    pub column_size_bytes: i64,
    pub min: Option<StatValue>,
    pub max: Option<StatValue>,
}

/// A data file as its writer describes it.
#[derive(Debug)]
pub struct DataFile {
    pub path: String,
    pub path_is_relative: bool,
    pub file_format: FileFormat,
    pub record_count: i64,
    pub file_size_bytes: i64,
    pub column_stats: Vec<ColumnStat>,
    pub parquet_footer_size: Option<i64>,
}

/// A job to enqueue. `payload` is JSON text; a job without `run_at` is due at once.
#[derive(Debug)]
pub struct NewJob {
    pub kind: String,
    pub payload: String,
    pub run_at: Option<i128>,
    pub priority: i32,
}

impl NewJob {
    pub fn duplicate(&self) -> (r: Self)
        ensures
            r == *self,
    {
        NewJob {
            kind: self.kind.clone(),
            payload: self.payload.clone(),
            run_at: self.run_at,
            priority: self.priority,
        }
    }
}

/// The kind of a lineage event.
#[derive(Clone, Copy, Debug, PartialEq, Eq, Structural)]
pub enum EventType {
    Start,
    Running,
    Complete,
    Abort,
    Fail,
    Other,
}

/// A lineage event: a run read `inputs` and wrote `outputs`. `payload` is JSON text.
#[derive(Debug)]
pub struct LineageEvent {
    pub run_id: u128,
    pub event_type: EventType,
    pub event_time: i128,
    pub inputs: Vec<DatasetRef>,
    pub outputs: Vec<DatasetRef>,
    pub payload: String,
}

/// A view: some rows and columns of a base table under a name of its own. `predicate`
/// is JSON text.
#[derive(Debug)]
pub struct ViewDef {
    pub view: TableRef,
    pub base: TableRef,
    pub predicate: Option<String>,
    pub columns: Option<Vec<String>>,
}

/// Where a transform run stands.
#[derive(Clone, Copy, Debug, PartialEq, Eq, Structural)]
pub enum RunState {
    Queued,
    Running,
    Succeeded,
    Failed,
}

/// What started a transform run.
#[derive(Clone, Copy, Debug, PartialEq, Eq, Structural)]
pub enum RunTrigger {
    Manual,
    Schedule,
    DataTrigger,
}

/// How a transform run ended.
#[derive(Debug)]
pub enum RunOutcome {
    Succeeded { snapshot_id: i64 },
    RetryQueued { error: String },
    Failed { error: String },
}

/// What a transform computes: over ontology types, or over physical tables.
/// `text` is the JSON text of the whole definition.
#[derive(Debug)]
pub enum TransformBody {
    Typed { inputs: Vec<String>, output: String, text: String },
    Physical { text: String },
}

/// A transform definition.
#[derive(Debug)]
pub struct TransformDef {
    pub name: String,
    pub body: TransformBody,
    pub on_input_commit: bool,
}

/// A run of a transform. `body` is the JSON text of the definition it runs.
#[derive(Debug)]
pub struct TransformRun {
    pub run_id: u128,
    pub transform: Option<String>,
    pub trigger: RunTrigger,
    pub state: RunState,
    pub body: String,
    pub queued_at: i128,
    pub started_at: Option<i128>,
    pub finished_at: Option<i128>,
    pub snapshot_id: Option<i64>,
    pub error: Option<String>,
}


/// A property of an ontology type.
#[derive(Debug)]
pub struct PropertyDef {
    pub name: String,
    pub ty: String,
}

/// A derived property of an ontology type, computed over a link.
#[derive(Debug)]
pub struct DerivedDef {
    pub name: String,
    pub link: String,
}

/// An ontology type, backed by a table. `detail` is JSON text with the rest of
/// the definition.
#[derive(Debug)]
pub struct ObjectType {
    pub name: String,
    pub table: TableRef,
    pub properties: Vec<PropertyDef>,
    pub derived: Vec<DerivedDef>,
    pub detail: String,
}

/// A link from one ontology type to another.
#[derive(Debug)]
pub struct LinkDef {
    pub name: String,
    pub from: String,
    pub to: String,
    pub detail: String,
}

/// A step of an action, on a target type.
#[derive(Debug)]
pub struct ActionStep {
    pub target: String,
    pub detail: String,
}

/// An action: steps that a caller may run.
#[derive(Debug)]
pub struct ActionDef {
    pub name: String,
    pub steps: Vec<ActionStep>,
}

/// A vector index over a property of a type.
#[derive(Debug)]
pub struct VectorIndexDef {
    pub name: String,
    pub on_type: String,
    pub property: String,
    pub detail: String,
}

/// What a grant or a policy is about doing.
#[derive(Clone, Copy, Debug, PartialEq, Eq, Structural)]
pub enum Action {
    Read,
    Write,
}

impl Action {
    /// The name of the action.
    pub open spec fn text(self) -> Seq<char> {
        match self {
            Action::Read => "read"@,
            Action::Write => "write"@,
        }
    }

    /// The name of the action.
    pub fn as_str(&self) -> (r: &'static str)
        ensures
            r@ == self.text(),
    {
        match self {
            Action::Read => "read",
            Action::Write => "write",
        }
    }
}

impl Key for Action {
    type Model = Action;

    open spec fn model(&self) -> Action {
        *self
    }

    open spec fn before(a: Action, b: Action) -> bool {
        a == Action::Read && b == Action::Write
    }

    proof fn order_irreflexive(a: Action) {
    }

    proof fn order_transitive(a: Action, b: Action, c: Action) {
    }

    proof fn order_total(a: Action, b: Action) {
    }

    fn precedes(&self, other: &Self) -> (r: bool) {
        match (self, other) {
            (Action::Read, Action::Write) => true,
            _ => false,
        }
    }

    fn same(&self, other: &Self) -> (r: bool) {
        *self == *other
    }

    fn duplicate(&self) -> (r: Self) {
        *self
    }
}

/// The order of actions is the order of their names.
pub proof fn law_actions_by_name(a: Action, b: Action)
    ensures
        Action::before(a, b) == text_before(a.text(), b.text()),
{
    reveal(crate::key::bytes_before);
    reveal_strlit("read");
    reveal_strlit("write");
    let x = vstd::utf8::encode_utf8("read"@);
    let y = vstd::utf8::encode_utf8("write"@);
    vstd::utf8::is_ascii_chars_encode_utf8("read"@);
    vstd::utf8::is_ascii_chars_encode_utf8("write"@);
    assert(crate::key::parts_below(x, y, 0));
    lemma_text_irreflexive("read"@);
    lemma_text_irreflexive("write"@);
    if text_before("write"@, "read"@) {
        lemma_text_transitive("read"@, "write"@, "read"@);
    }
}

/// What a grant or a policy applies to.
#[derive(Debug)]
pub enum PolicyTarget {
    Type(String),
    Table(TableRef),
}

/// What a target is: its kind, and one or two names.
pub type TargetKey = (Seq<char>, (Seq<char>, Seq<char>));

impl View for PolicyTarget {
    type V = TargetKey;

    open spec fn view(&self) -> TargetKey {
        match self {
            PolicyTarget::Type(name) => ("type"@, (name@, ""@)),
            PolicyTarget::Table(t) => ("table"@, (t.schema@, t.name@)),
        }
    }
}

impl PolicyTarget {
    /// The kind and the names of the target.
    pub fn key_parts(&self) -> (r: (&'static str, String, String))
        ensures
            (r.0@, (r.1@, r.2@)) == self@,
    {
        match self {
            PolicyTarget::Type(name) => ("type", name.clone(), "".to_owned()),
            PolicyTarget::Table(t) => ("table", t.schema.clone(), t.name.clone()),
        }
    }

    /// The kind of the target.
    pub fn kind(&self) -> (r: &'static str)
        ensures
            r@ == self@.0,
    {
        match self {
            PolicyTarget::Type(_) => "type",
            PolicyTarget::Table(_) => "table",
        }
    }
}

/// A rule on a type is never taken for one on a table, whatever their names: the two
/// are told apart by their kinds.
pub proof fn law_types_are_not_tables(t: PolicyTarget, u: PolicyTarget)
    requires
        t@ == u@,
    ensures
        t is Type <==> u is Type,
        t is Table <==> u is Table,
{
    reveal_strlit("type");
    reveal_strlit("table");
    assert("type"@.len() != "table"@.len());
}

impl Key for PolicyTarget {
    type Model = TargetKey;

    open spec fn model(&self) -> TargetKey {
        self@
    }

    open spec fn before(a: TargetKey, b: TargetKey) -> bool {
        text_before(a.0, b.0) || (a.0 == b.0 && pair_before(a.1, b.1))
    }

    proof fn order_irreflexive(a: TargetKey) {
        lemma_text_irreflexive(a.0);
        TableRef::order_irreflexive(a.1);
    }

    proof fn order_transitive(a: TargetKey, b: TargetKey, c: TargetKey) {
        if text_before(a.0, b.0) && text_before(b.0, c.0) {
            lemma_text_transitive(a.0, b.0, c.0);
        }
        if pair_before(a.1, b.1) && pair_before(b.1, c.1) {
            TableRef::order_transitive(a.1, b.1, c.1);
        }
    }

    proof fn order_total(a: TargetKey, b: TargetKey) {
        lemma_text_total(a.0, b.0);
        TableRef::order_total(a.1, b.1);
    }

    fn precedes(&self, other: &Self) -> (r: bool) {
        let (k, a, b): (&'static str, String, String) = self.key_parts();
        let (l, c, d): (&'static str, String, String) = other.key_parts();
        str_precedes(k, l) || (str_same(k, l) && (str_precedes(a.as_str(), c.as_str()) || (str_same(
            a.as_str(),
            c.as_str(),
        ) && str_precedes(b.as_str(), d.as_str()))))
    }

    fn same(&self, other: &Self) -> (r: bool) {
        let (k, a, b): (&'static str, String, String) = self.key_parts();
        let (l, c, d): (&'static str, String, String) = other.key_parts();
        str_same(k, l) && str_same(a.as_str(), c.as_str()) && str_same(b.as_str(), d.as_str())
    }

    fn duplicate(&self) -> (r: Self) {
        match self {
            PolicyTarget::Type(name) => PolicyTarget::Type(name.clone()),
            PolicyTarget::Table(t) => PolicyTarget::Table(t.duplicate()),
        }
    }
}

/// Whether a grant allows or denies.
#[derive(Clone, Copy, Debug, PartialEq, Eq, Structural)]
pub enum Effect {
    Allow,
    Deny,
}

/// What access control decides.
#[derive(Clone, Copy, Debug, PartialEq, Eq, Structural)]
pub enum Decision {
    Allow,
    Deny,
}

/// A grant of a role.
#[derive(Debug)]
pub struct Grant {
    pub action: Action,
    pub target: PolicyTarget,
    pub effect: Effect,
}

/// A row and column policy of a role. `row_filter` is JSON text.
#[derive(Debug)]
pub struct Policy {
    pub target: PolicyTarget,
    pub row_filter: Option<String>,
    pub deny_columns: Vec<String>,
    pub mask_columns: Vec<String>,
}

} // verus!
