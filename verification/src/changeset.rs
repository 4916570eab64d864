//! Changesets: proposed file operations, their hashes and the records of their approval.
use vstd::prelude::*;
use vstd::string::StringExecFns;
use crate::domain::{contains_id, copy_ids, copy_opt_id, has_id, ids, opt_id, EntityId};
use crate::hash::{digest_text, sha256_text};
use crate::json::{json_array, json_id_array, json_ids, json_list, json_opt, json_quote, json_quote_opt, json_string};
use crate::paths::{copy_bytes, join_path, joined};
use crate::text::{decimal, decimal_text, is_digest, join, join_texts, opt_text, texts, utf8};

verus! {

/// Kind of a file operation.
#[derive(Clone, Copy, Debug, PartialEq, Eq, Structural)]
pub enum OperationKind {
    /// Adds a file.
    Create,
    /// Changes the content of a file.
    Replace,
    /// Removes a file.
    Delete,
}

/// One proposed operation on a canon file.
#[derive(Debug)]
pub struct FileOperation {
    /// What is done to the file.
    pub kind: OperationKind,
    /// Project-relative target.
    pub path: String,
    /// Digest of the target before the operation.
    pub before_sha256: Option<String>,
    /// Digest of the target after the operation.
    pub after_sha256: Option<String>,
    /// Project-relative file that holds the new content.
    pub candidate_path: Option<String>,
    /// Entities that the operation touches.
    pub affected_entities: Vec<EntityId>,
}

/// An operation by the views of its fields.
pub struct OperationModel {
    pub kind: OperationKind,
    pub path: Seq<char>,
    pub before_sha256: Option<Seq<char>>,
    pub after_sha256: Option<Seq<char>>,
    pub candidate_path: Option<Seq<char>>,
    pub affected_entities: Seq<Seq<char>>,
}

impl View for FileOperation {
    type V = OperationModel;

    open spec fn view(&self) -> OperationModel {
        OperationModel {
            kind: self.kind,
            path: self.path@,
            before_sha256: opt_text(self.before_sha256),
            after_sha256: opt_text(self.after_sha256),
            candidate_path: opt_text(self.candidate_path),
            affected_entities: ids(self.affected_entities@),
        }
    }
}

/// The views of operations.
pub open spec fn operation_models(ops: Seq<FileOperation>) -> Seq<OperationModel> {
    ops.map_values(|op: FileOperation| op@)
}

fn copy_opt(item: &Option<String>) -> (r: Option<String>)
    ensures
        opt_text(r) == opt_text(*item),
{
    match item {
        Some(text) => Some(text.clone()),
        None => None,
    }
}

impl FileOperation {
    /// Copies the operation.
    pub fn copy(&self) -> (r: FileOperation)
        ensures
            r@ == self@,
    {
        FileOperation {
            kind: self.kind,
            path: self.path.clone(),
            before_sha256: copy_opt(&self.before_sha256),
            after_sha256: copy_opt(&self.after_sha256),
            candidate_path: copy_opt(&self.candidate_path),
            affected_entities: copy_ids(self.affected_entities.as_slice()),
        }
    }
}

/// Copies operations.
pub fn copy_operations(ops: &[FileOperation]) -> (r: Vec<FileOperation>)
    ensures
        operation_models(r@) == operation_models(ops@),
{
    let mut out: Vec<FileOperation> = Vec::new();
    let mut i: usize = 0;
    while i < ops.len()
        invariant
            i <= ops@.len(),
            out@.len() == i,
            forall|k: int| 0 <= k < i ==> #[trigger] out@[k]@ == ops@[k]@,
        decreases ops@.len() - i,
    {
        out.push(ops[i].copy());
        i += 1;
    }
    assert(operation_models(out@) =~= operation_models(ops@));
    out
}

/// Lifecycle of a changeset.
#[derive(Clone, Copy, Debug, PartialEq, Eq, Structural)]
pub enum ChangesetState {
    /// Candidate files exist.
    Candidate,
    /// Critics are at work.
    Reviewing,
    /// A reviser is at work.
    Revising,
    /// Every gate passed; a human may approve.
    Approvable,
    /// A human approved, and the operations were applied.
    Approved,
    /// A human rejected the changeset.
    Rejected,
    /// An upstream change invalidated an unapproved changeset.
    Stale,
    /// Some file is missing.
    Incomplete,
    /// An upstream change invalidated an approved changeset.
    NeedsRevalidation,
}

impl ChangesetState {
    /// Returns whether this state can be handed to the trusted approval boundary.
    pub fn is_approvable(self) -> (r: bool)
        ensures
            r == (self == ChangesetState::Approvable),
    {
        match self {
            ChangesetState::Approvable => true,
            _ => false,
        }
    }
}

/// An approved changeset that another one builds on.
#[derive(Debug)]
pub struct ChangesetDependency {
    /// Identifier of the approved changeset.
    pub id: EntityId,
    /// Digest of its approval record.
    pub approval_record_sha256: String,
    /// Its chapter order.
    pub chapter_order: u32,
}

/// Identifier, proof digest and chapter order of a dependency.
pub type DependencyModel = (Seq<char>, Seq<char>, u32);

impl View for ChangesetDependency {
    type V = DependencyModel;

    open spec fn view(&self) -> DependencyModel {
        (self.id@, self.approval_record_sha256@, self.chapter_order)
    }
}

/// The views of dependencies.
pub open spec fn dependency_models(items: Seq<ChangesetDependency>) -> Seq<DependencyModel> {
    items.map_values(|item: ChangesetDependency| item@)
}

impl ChangesetDependency {
    /// Copies the dependency.
    pub fn copy(&self) -> (r: ChangesetDependency)
        ensures
            r@ == self@,
    {
        ChangesetDependency {
            id: self.id.copy(),
            approval_record_sha256: self.approval_record_sha256.clone(),
            chapter_order: self.chapter_order,
        }
    }
}

/// Copies dependencies.
pub fn copy_dependencies(items: &[ChangesetDependency]) -> (r: Vec<ChangesetDependency>)
    ensures
        dependency_models(r@) == dependency_models(items@),
{
    let mut out: Vec<ChangesetDependency> = Vec::new();
    let mut i: usize = 0;
    while i < items.len()
        invariant
            i <= items@.len(),
            out@.len() == i,
            forall|k: int| 0 <= k < i ==> #[trigger] out@[k]@ == items@[k]@,
        decreases items@.len() - i,
    {
        out.push(items[i].copy());
        i += 1;
    }
    assert(dependency_models(out@) =~= dependency_models(items@));
    out
}

/// Returns whether two lists hold equal dependencies in the same order.
pub fn same_dependencies(a: &[ChangesetDependency], b: &[ChangesetDependency]) -> (r: bool)
    ensures
        r == (dependency_models(a@) == dependency_models(b@)),
{
    let ghost x = dependency_models(a@);
    let ghost y = dependency_models(b@);
    if a.len() != b.len() {
        assert(x.len() != y.len());
        return false;
    }
    let mut i: usize = 0;
    while i < a.len()
        invariant
            i <= a@.len(),
            a@.len() == b@.len(),
            x == dependency_models(a@),
            y == dependency_models(b@),
            forall|k: int| 0 <= k < i ==> #[trigger] a@[k]@ == b@[k]@,
        decreases a@.len() - i,
    {
        let same = a[i].id.same(&b[i].id) && a[i].approval_record_sha256
            == b[i].approval_record_sha256 && a[i].chapter_order == b[i].chapter_order;
        if !same {
            assert(x[i as int] == a@[i as int]@ && y[i as int] == b@[i as int]@);
            return false;
        }
        i += 1;
    }
    assert(x =~= y);
    true
}

/// A proposed set of file operations with everything its approval is bound to.
#[derive(Debug)]
pub struct Changeset {
    /// Identifier of the changeset.
    pub id: EntityId,
    /// Changeset that this one extends.
    pub parent_changeset_id: Option<EntityId>,
    /// Digest of the canon the operations start from.
    pub base_root_hash: String,
    /// Digest of the canon after the operations.
    pub content_result_hash: String,
    /// Digest of the canon after the operations and the approval record.
    pub result_root_hash: String,
    /// Lifecycle state.
    pub state: ChangesetState,
    /// File operations.
    pub operations: Vec<FileOperation>,
    /// Digest of the candidate files.
    pub candidate_hash: String,
    /// Digest of everything that was validated.
    pub validation_hash: Option<String>,
    /// Findings that block approval.
    pub unresolved_blocker_ids: Vec<EntityId>,
    /// Approved changesets that this one builds on.
    pub dependencies: Vec<ChangesetDependency>,
    /// Position in the approval order.
    pub chapter_order: u32,
}

/// A changeset by the views of its fields.
pub struct ChangeModel {
    pub id: Seq<char>,
    pub parent_changeset_id: Option<Seq<char>>,
    pub base_root_hash: Seq<char>,
    pub content_result_hash: Seq<char>,
    pub result_root_hash: Seq<char>,
    pub state: ChangesetState,
    pub operations: Seq<OperationModel>,
    pub candidate_hash: Seq<char>,
    pub validation_hash: Option<Seq<char>>,
    pub unresolved_blocker_ids: Seq<Seq<char>>,
    pub dependencies: Seq<DependencyModel>,
    pub chapter_order: u32,
}

impl View for Changeset {
    type V = ChangeModel;

    open spec fn view(&self) -> ChangeModel {
        ChangeModel {
            id: self.id@,
            parent_changeset_id: opt_id(self.parent_changeset_id),
            base_root_hash: self.base_root_hash@,
            content_result_hash: self.content_result_hash@,
            result_root_hash: self.result_root_hash@,
            state: self.state,
            operations: operation_models(self.operations@),
            candidate_hash: self.candidate_hash@,
            validation_hash: opt_text(self.validation_hash),
            unresolved_blocker_ids: ids(self.unresolved_blocker_ids@),
            dependencies: dependency_models(self.dependencies@),
            chapter_order: self.chapter_order,
        }
    }
}

impl Changeset {
    /// Copies the changeset.
    pub fn copy(&self) -> (r: Changeset)
        ensures
            r@ == self@,
    {
        Changeset {
            id: self.id.copy(),
            parent_changeset_id: copy_opt_id(&self.parent_changeset_id),
            base_root_hash: self.base_root_hash.clone(),
            content_result_hash: self.content_result_hash.clone(),
            result_root_hash: self.result_root_hash.clone(),
            state: self.state,
            operations: copy_operations(self.operations.as_slice()),
            candidate_hash: self.candidate_hash.clone(),
            validation_hash: copy_opt(&self.validation_hash),
            unresolved_blocker_ids: copy_ids(self.unresolved_blocker_ids.as_slice()),
            dependencies: copy_dependencies(self.dependencies.as_slice()),
            chapter_order: self.chapter_order,
        }
    }

    /// Records newly generated candidate files: validation starts over.
    pub fn mark_regenerated(&mut self, candidate_hash: String)
        ensures
            final(self)@ == (ChangeModel {
                candidate_hash: candidate_hash@,
                validation_hash: None,
                state: ChangesetState::Candidate,
                ..old(self)@
            }),
    {
        self.candidate_hash = candidate_hash;
        self.validation_hash = None;
        self.state = ChangesetState::Candidate;
    }

    /// Records a full validation: an approved changeset that needed it is approved again, any
    /// other becomes approvable.
    pub fn mark_fully_revalidated(&mut self, validation_hash: String)
        ensures
            final(self)@ == (ChangeModel {
                validation_hash: Some(validation_hash@),
                state: if old(self).state == ChangesetState::NeedsRevalidation {
                    ChangesetState::Approved
                } else {
                    ChangesetState::Approvable
                },
                ..old(self)@
            }),
    {
        self.validation_hash = Some(validation_hash);
        self.state = if self.state == ChangesetState::NeedsRevalidation {
            ChangesetState::Approved
        } else {
            ChangesetState::Approvable
        };
    }
}

/// Class of a validation failure.
#[derive(Clone, Copy, Debug, PartialEq, Eq, Structural)]
pub enum ValidationErrorKind {
    Stale,
    Incomplete,
    NeedsRevalidation,
    NotApprovable,
    Blockers,
    BaseRoot,
    ResultRoot,
    ValidationHash,
    CandidateHash,
    DependencyHash,
    DependencyOrder,
    InvalidPath,
    CandidatePath,
    HashMismatch,
    InvalidOperation,
    ApprovalNamespace,
    Schema,
    Io,
    MissingChangeset,
}

/// The stable name of a validation failure class.
pub open spec fn error_name(kind: ValidationErrorKind) -> Seq<char> {
    match kind {
        ValidationErrorKind::Stale => "stale"@,
        ValidationErrorKind::Incomplete => "incomplete"@,
        ValidationErrorKind::NeedsRevalidation => "needs-revalidation"@,
        ValidationErrorKind::NotApprovable => "not-approvable"@,
        ValidationErrorKind::Blockers => "blockers"@,
        ValidationErrorKind::BaseRoot => "base-root"@,
        ValidationErrorKind::ResultRoot => "result-root"@,
        ValidationErrorKind::ValidationHash => "validation-hash"@,
        ValidationErrorKind::CandidateHash => "candidate-hash"@,
        ValidationErrorKind::DependencyHash => "dependency-hash"@,
        ValidationErrorKind::DependencyOrder => "dependency-order"@,
        ValidationErrorKind::InvalidPath => "invalid-path"@,
        ValidationErrorKind::CandidatePath => "candidate-path"@,
        ValidationErrorKind::HashMismatch => "hash-mismatch"@,
        ValidationErrorKind::InvalidOperation => "invalid-operation"@,
        ValidationErrorKind::ApprovalNamespace => "approval-namespace"@,
        ValidationErrorKind::Schema => "schema"@,
        ValidationErrorKind::Io => "io"@,
        ValidationErrorKind::MissingChangeset => "missing-changeset"@,
    }
}

impl ValidationErrorKind {
    /// Returns the stable name of this class.
    pub fn as_str(self) -> (r: &'static str)
        ensures
            r@ == error_name(self),
    {
        match self {
            ValidationErrorKind::Stale => "stale",
            ValidationErrorKind::Incomplete => "incomplete",
            ValidationErrorKind::NeedsRevalidation => "needs-revalidation",
            ValidationErrorKind::NotApprovable => "not-approvable",
            ValidationErrorKind::Blockers => "blockers",
            ValidationErrorKind::BaseRoot => "base-root",
            ValidationErrorKind::ResultRoot => "result-root",
            ValidationErrorKind::ValidationHash => "validation-hash",
            ValidationErrorKind::CandidateHash => "candidate-hash",
            ValidationErrorKind::DependencyHash => "dependency-hash",
            ValidationErrorKind::DependencyOrder => "dependency-order",
            ValidationErrorKind::InvalidPath => "invalid-path",
            ValidationErrorKind::CandidatePath => "candidate-path",
            ValidationErrorKind::HashMismatch => "hash-mismatch",
            ValidationErrorKind::InvalidOperation => "invalid-operation",
            ValidationErrorKind::ApprovalNamespace => "approval-namespace",
            ValidationErrorKind::Schema => "schema",
            ValidationErrorKind::Io => "io",
            ValidationErrorKind::MissingChangeset => "missing-changeset",
        }
    }
}

/// Why a changeset was refused.
#[derive(Debug)]
pub struct ValidationError {
    kind: ValidationErrorKind,
    message: String,
}

/// Class and message of a refusal.
pub type Refusal = (ValidationErrorKind, Seq<char>);

impl View for ValidationError {
    type V = Refusal;

    closed spec fn view(&self) -> Refusal {
        (self.kind, self.message@)
    }
}

impl ValidationError {
    /// Builds an error from its class and message.
    pub fn new(kind: ValidationErrorKind, message: String) -> (r: ValidationError)
        ensures
            r@ == (kind, message@),
    {
        ValidationError { kind, message }
    }

    /// Returns the class of the error.
    pub fn kind(&self) -> (r: ValidationErrorKind)
        ensures
            r == self@.0,
    {
        self.kind
    }

    /// Returns the class and the message as one text.
    pub fn to_text(&self) -> (r: String)
        ensures
            r@ == error_name(self@.0) + ": "@ + self@.1,
    {
        let mut out = self.kind.as_str().to_owned();
        out.append(": ");
        out.append(self.message.as_str());
        out
    }
}

/// The outcome of a check, by its view.
pub open spec fn verdict<T>(r: Result<T, ValidationError>) -> Result<T, Refusal> {
    match r {
        Ok(value) => Ok(value),
        Err(error) => Err(error@),
    }
}

/// A check that fails.
pub open spec fn refused(kind: ValidationErrorKind, message: Seq<char>) -> Result<(), Refusal> {
    Err((kind, message))
}

/// Fails a check.
pub(crate) fn refuse<T>(kind: ValidationErrorKind, message: &str) -> (r: Result<T, ValidationError>)
    ensures
        r is Err,
        r->Err_0@ == (kind, message@),
{
    Err(ValidationError::new(kind, message.to_owned()))
}

/// Fails a check with a message that ends in a subject.
pub(crate) fn refuse_at<T>(kind: ValidationErrorKind, message: &str, subject: &str) -> (r: Result<
    T,
    ValidationError,
>)
    ensures
        r is Err,
        r->Err_0@ == (kind, message@ + subject@),
{
    let mut text = message.to_owned();
    text.append(subject);
    Err(ValidationError::new(kind, text))
}

/// Durable proof that a human approved a changeset.
#[derive(Debug)]
pub struct ApprovalRecord {
    /// Approved changeset.
    pub changeset_id: EntityId,
    /// Canon it started from.
    pub base_root_hash: String,
    /// Candidate files it was approved with.
    pub candidate_hash: String,
    /// Digest of its operations.
    pub operations_hash: String,
    /// Canon after its operations.
    pub content_result_hash: String,
    /// Validation it was approved with.
    pub validation_hash: String,
    /// Approvals it builds on.
    pub dependencies: Vec<ChangesetDependency>,
    /// Its position in the approval order.
    pub chapter_order: u32,
}

/// The name of an operation kind in JSON.
pub open spec fn operation_name(kind: OperationKind) -> Seq<char> {
    match kind {
        OperationKind::Create => "create"@,
        OperationKind::Replace => "replace"@,
        OperationKind::Delete => "delete"@,
    }
}

fn operation_str(kind: OperationKind) -> (r: &'static str)
    ensures
        r@ == operation_name(kind),
{
    match kind {
        OperationKind::Create => "create",
        OperationKind::Replace => "replace",
        OperationKind::Delete => "delete",
    }
}

/// The JSON object of an operation.
pub open spec fn operation_json(op: OperationModel) -> Seq<char> {
    "{\"kind\":"@ + json_string(operation_name(op.kind)) + ",\"path\":"@ + json_string(op.path)
        + ",\"before_sha256\":"@ + json_opt(op.before_sha256) + ",\"after_sha256\":"@ + json_opt(
        op.after_sha256,
    ) + ",\"candidate_path\":"@ + json_opt(op.candidate_path) + ",\"affected_entities\":"@
        + json_list(json_ids(op.affected_entities)) + "}"@
}

/// The JSON array of operations.
pub open spec fn operations_json(ops: Seq<OperationModel>) -> Seq<char> {
    json_list(ops.map_values(|op: OperationModel| operation_json(op)))
}

/// The digest of a changeset's operations.
pub open spec fn operations_digest(ops: Seq<OperationModel>) -> Seq<char> {
    digest_text(utf8(operations_json(ops)))
}

fn operation_text(op: &FileOperation) -> (r: String)
    ensures
        r@ == operation_json(op@),
{
    let mut out = "{\"kind\":".to_owned();
    out.append(json_quote(operation_str(op.kind)).as_str());
    out.append(",\"path\":");
    out.append(json_quote(op.path.as_str()).as_str());
    out.append(",\"before_sha256\":");
    out.append(json_quote_opt(&op.before_sha256).as_str());
    out.append(",\"after_sha256\":");
    out.append(json_quote_opt(&op.after_sha256).as_str());
    out.append(",\"candidate_path\":");
    out.append(json_quote_opt(&op.candidate_path).as_str());
    out.append(",\"affected_entities\":");
    out.append(json_id_array(op.affected_entities.as_slice()).as_str());
    out.append("}");
    out
}

fn operations_hash(ops: &[FileOperation]) -> (r: String)
    ensures
        r@ == operations_digest(operation_models(ops@)),
{
    let mut items: Vec<String> = Vec::new();
    let mut i: usize = 0;
    while i < ops.len()
        invariant
            i <= ops@.len(),
            items@.len() == i,
            forall|k: int| 0 <= k < i ==> #[trigger] items@[k]@ == operation_json(ops@[k]@),
        decreases ops@.len() - i,
    {
        items.push(operation_text(&ops[i]));
        i += 1;
    }
    assert(texts(items@) =~= operation_models(ops@).map_values(
        |op: OperationModel| operation_json(op),
    ));
    sha256_text(json_array(items.as_slice()).as_str())
}

/// The JSON object of a dependency.
pub open spec fn dependency_json(dep: DependencyModel) -> Seq<char> {
    "{\"id\":"@ + json_string(dep.0) + ",\"approval_record_sha256\":"@ + json_string(dep.1)
        + ",\"chapter_order\":"@ + decimal(dep.2 as nat) + "}"@
}

/// Everything that a validation hash is computed from.
pub struct MaterialModel {
    pub id: Seq<char>,
    pub base_root_hash: Seq<char>,
    pub content_result_hash: Seq<char>,
    pub operations_hash: Seq<char>,
    pub candidate_hash: Seq<char>,
    pub dependencies: Seq<DependencyModel>,
    pub chapter_order: u32,
}

/// The JSON object of validation material.
pub open spec fn material_json(m: MaterialModel) -> Seq<char> {
    "{\"id\":"@ + json_string(m.id) + ",\"base_root_hash\":"@ + json_string(m.base_root_hash)
        + ",\"content_result_hash\":"@ + json_string(m.content_result_hash)
        + ",\"operations_hash\":"@ + json_string(m.operations_hash) + ",\"candidate_hash\":"@
        + json_string(m.candidate_hash) + ",\"dependencies\":"@ + json_list(
        m.dependencies.map_values(|dep: DependencyModel| dependency_json(dep)),
    ) + ",\"chapter_order\":"@ + decimal(m.chapter_order as nat) + "}"@
}

/// The validation hash of validation material.
pub open spec fn material_digest(m: MaterialModel) -> Seq<char> {
    digest_text(utf8(material_json(m)))
}

/// The validation material of a changeset.
pub open spec fn change_material(change: ChangeModel) -> MaterialModel {
    MaterialModel {
        id: change.id,
        base_root_hash: change.base_root_hash,
        content_result_hash: change.content_result_hash,
        operations_hash: operations_digest(change.operations),
        candidate_hash: change.candidate_hash,
        dependencies: change.dependencies,
        chapter_order: change.chapter_order,
    }
}

/// The validation material of an approval record.
pub open spec fn record_material(record: ApprovalRecord) -> MaterialModel {
    MaterialModel {
        id: record.changeset_id@,
        base_root_hash: record.base_root_hash@,
        content_result_hash: record.content_result_hash@,
        operations_hash: record.operations_hash@,
        candidate_hash: record.candidate_hash@,
        dependencies: dependency_models(record.dependencies@),
        chapter_order: record.chapter_order,
    }
}

fn dependency_texts(items: &[ChangesetDependency]) -> (r: Vec<String>)
    ensures
        texts(r@) == dependency_models(items@).map_values(
            |dep: DependencyModel| dependency_json(dep),
        ),
{
    let mut out: Vec<String> = Vec::new();
    let mut i: usize = 0;
    while i < items.len()
        invariant
            i <= items@.len(),
            out@.len() == i,
            forall|k: int| 0 <= k < i ==> #[trigger] out@[k]@ == dependency_json(items@[k]@),
        decreases items@.len() - i,
    {
        let mut text = "{\"id\":".to_owned();
        text.append(json_quote(items[i].id.as_str()).as_str());
        text.append(",\"approval_record_sha256\":");
        text.append(json_quote(items[i].approval_record_sha256.as_str()).as_str());
        text.append(",\"chapter_order\":");
        text.append(decimal_text(items[i].chapter_order as u64).as_str());
        text.append("}");
        out.push(text);
        i += 1;
    }
    assert(texts(out@) =~= dependency_models(items@).map_values(
        |dep: DependencyModel| dependency_json(dep),
    ));
    out
}

fn material_hash(
    id: &EntityId,
    base_root_hash: &str,
    content_result_hash: &str,
    operations_hash: &str,
    candidate_hash: &str,
    dependencies: &[ChangesetDependency],
    chapter_order: u32,
) -> (r: String)
    ensures
        r@ == material_digest(
            MaterialModel {
                id: id@,
                base_root_hash: base_root_hash@,
                content_result_hash: content_result_hash@,
                operations_hash: operations_hash@,
                candidate_hash: candidate_hash@,
                dependencies: dependency_models(dependencies@),
                chapter_order,
            },
        ),
        is_digest(r@),
{
    let mut out = "{\"id\":".to_owned();
    out.append(json_quote(id.as_str()).as_str());
    out.append(",\"base_root_hash\":");
    out.append(json_quote(base_root_hash).as_str());
    out.append(",\"content_result_hash\":");
    out.append(json_quote(content_result_hash).as_str());
    out.append(",\"operations_hash\":");
    out.append(json_quote(operations_hash).as_str());
    out.append(",\"candidate_hash\":");
    out.append(json_quote(candidate_hash).as_str());
    out.append(",\"dependencies\":");
    let items = dependency_texts(dependencies);
    out.append(json_array(items.as_slice()).as_str());
    out.append(",\"chapter_order\":");
    out.append(decimal_text(chapter_order as u64).as_str());
    out.append("}");
    sha256_text(out.as_str())
}

/// Returns the digest of everything that the validation of a changeset covers.  What the digest
/// binds is stated in `binding::validation_hash_binds_the_changeset`.
pub fn calculate_validation_hash(change: &Changeset) -> (r: String)
    ensures
        r@ == material_digest(change_material(change@)),
        is_digest(r@),
{
    let ops = operations_hash(change.operations.as_slice());
    material_hash(
        &change.id,
        change.base_root_hash.as_str(),
        change.content_result_hash.as_str(),
        ops.as_str(),
        change.candidate_hash.as_str(),
        change.dependencies.as_slice(),
        change.chapter_order,
    )
}

/// Returns the validation hash that the contents of an approval record give.
pub fn approval_validation_hash(record: &ApprovalRecord) -> (r: String)
    ensures
        r@ == material_digest(record_material(*record)),
{
    material_hash(
        &record.changeset_id,
        record.base_root_hash.as_str(),
        record.content_result_hash.as_str(),
        record.operations_hash.as_str(),
        record.candidate_hash.as_str(),
        record.dependencies.as_slice(),
        record.chapter_order,
    )
}

/// Returns the project-relative path of a changeset's approval record.
pub fn approval_record_relative_path(changeset_id: &EntityId) -> (r: String)
    ensures
        r@ == record_path(changeset_id@),
{
    record_name(changeset_id.as_str())
}

pub(crate) fn record_name(changeset_id: &str) -> (r: String)
    ensures
        r@ == record_path(changeset_id@),
{
    let mut out = ".phemius/records/approvals/".to_owned();
    out.append(changeset_id);
    out.append(".json");
    out
}

/// The project-relative path of a changeset's approval record.
pub open spec fn record_path(changeset_id: Seq<char>) -> Seq<char> {
    ".phemius/records/approvals/"@ + changeset_id + ".json"@
}

/// Returns the path of a changeset's approval record under a project root.
pub fn approval_record_path(project_root: &str, changeset_id: &EntityId) -> (r: String)
    ensures
        r@ == joined(project_root@, record_path(changeset_id@)),
{
    join_path(project_root, approval_record_relative_path(changeset_id).as_str())
}

/// One dependency in an approval record.
pub open spec fn pretty_dependency(dep: DependencyModel) -> Seq<char> {
    "{\n      \"id\": "@ + json_string(dep.0) + ",\n      \"approval_record_sha256\": "@
        + json_string(dep.1) + ",\n      \"chapter_order\": "@ + decimal(dep.2 as nat)
        + "\n    }"@
}

/// The dependencies in an approval record.
pub open spec fn pretty_dependencies(deps: Seq<DependencyModel>) -> Seq<char> {
    if deps.len() == 0 {
        "[]"@
    } else {
        "[\n    "@ + join(
            deps.map_values(|dep: DependencyModel| pretty_dependency(dep)),
            ",\n    "@,
        ) + "\n  ]"@
    }
}

/// The text of the approval record of a changeset with the given validation hash.
pub open spec fn record_text(change: ChangeModel, validation_hash: Seq<char>) -> Seq<char> {
    "{\n  \"changeset_id\": "@ + json_string(change.id) + ",\n  \"base_root_hash\": "@
        + json_string(change.base_root_hash) + ",\n  \"candidate_hash\": "@ + json_string(
        change.candidate_hash,
    ) + ",\n  \"operations_hash\": "@ + json_string(operations_digest(change.operations))
        + ",\n  \"content_result_hash\": "@ + json_string(change.content_result_hash)
        + ",\n  \"validation_hash\": "@ + json_string(validation_hash) + ",\n  \"dependencies\": "@
        + pretty_dependencies(change.dependencies)
        + ",\n  \"chapter_order\": "@ + decimal(change.chapter_order as nat) + "\n}\n"@
}

/// The bytes of a changeset's approval record.
pub open spec fn record_bytes(change: ChangeModel) -> Result<Seq<u8>, Refusal> {
    match change.validation_hash {
        None => Err(
            (
                ValidationErrorKind::ValidationHash,
                "approval record requires a validation hash"@,
            ),
        ),
        Some(hash) => Ok(utf8(record_text(change, hash))),
    }
}

fn pretty_dependency_list(items: &[ChangesetDependency]) -> (r: String)
    ensures
        r@ == pretty_dependencies(dependency_models(items@)),
{
    if items.len() == 0 {
        return "[]".to_owned();
    }
    let mut parts: Vec<String> = Vec::new();
    let mut i: usize = 0;
    while i < items.len()
        invariant
            i <= items@.len(),
            parts@.len() == i,
            forall|k: int| 0 <= k < i ==> #[trigger] parts@[k]@ == pretty_dependency(items@[k]@),
        decreases items@.len() - i,
    {
        let mut text = "{\n      \"id\": ".to_owned();
        text.append(json_quote(items[i].id.as_str()).as_str());
        text.append(",\n      \"approval_record_sha256\": ");
        text.append(json_quote(items[i].approval_record_sha256.as_str()).as_str());
        text.append(",\n      \"chapter_order\": ");
        text.append(decimal_text(items[i].chapter_order as u64).as_str());
        text.append("\n    }");
        parts.push(text);
        i += 1;
    }
    assert(texts(parts@) =~= dependency_models(items@).map_values(
        |dep: DependencyModel| pretty_dependency(dep),
    ));
    let mut out = "[\n    ".to_owned();
    out.append(join_texts(parts.as_slice(), ",\n    ").as_str());
    out.append("\n  ]");
    out
}

/// Returns the bytes of a changeset's approval record, which needs a validation hash.
pub fn approval_record_bytes(change: &Changeset) -> (r: Result<Vec<u8>, ValidationError>)
    ensures
        match r {
            Ok(bytes) => record_bytes(change@) == Ok::<Seq<u8>, Refusal>(bytes@),
            Err(error) => record_bytes(change@) == Err::<Seq<u8>, Refusal>(error@),
        },
{
    match &change.validation_hash {
        None => refuse(
            ValidationErrorKind::ValidationHash,
            "approval record requires a validation hash",
        ),
        Some(validation_hash) => {
            let mut out = "{\n  \"changeset_id\": ".to_owned();
            out.append(json_quote(change.id.as_str()).as_str());
            out.append(",\n  \"base_root_hash\": ");
            out.append(json_quote(change.base_root_hash.as_str()).as_str());
            out.append(",\n  \"candidate_hash\": ");
            out.append(json_quote(change.candidate_hash.as_str()).as_str());
            out.append(",\n  \"operations_hash\": ");
            out.append(
                json_quote(operations_hash(change.operations.as_slice()).as_str()).as_str(),
            );
            out.append(",\n  \"content_result_hash\": ");
            out.append(json_quote(change.content_result_hash.as_str()).as_str());
            out.append(",\n  \"validation_hash\": ");
            out.append(json_quote(validation_hash.as_str()).as_str());
            out.append(",\n  \"dependencies\": ");
            out.append(pretty_dependency_list(change.dependencies.as_slice()).as_str());
            out.append(",\n  \"chapter_order\": ");
            out.append(decimal_text(change.chapter_order as u64).as_str());
            out.append("\n}\n");
            Ok(copy_bytes(out.as_str().as_bytes()))
        },
    }
}

/// The record that an approval of a changeset writes validates against the changeset's own hash.
pub proof fn record_keeps_validation_hash(change: ChangeModel, record: ApprovalRecord)
    requires
        record.changeset_id@ == change.id,
        record.base_root_hash@ == change.base_root_hash,
        record.candidate_hash@ == change.candidate_hash,
        record.operations_hash@ == operations_digest(change.operations),
        record.content_result_hash@ == change.content_result_hash,
        dependency_models(record.dependencies@) == change.dependencies,
        record.chapter_order == change.chapter_order,
    ensures
        material_digest(record_material(record)) == material_digest(change_material(change)),
{
}

/// The state that an upstream change leaves a descendant in: an approved one needs revalidation,
/// an unapproved one is stale.
pub open spec fn descendant_state(state: ChangesetState) -> ChangesetState {
    match state {
        ChangesetState::Approved => ChangesetState::NeedsRevalidation,
        ChangesetState::NeedsRevalidation => ChangesetState::NeedsRevalidation,
        _ => ChangesetState::Stale,
    }
}

/// A descendant after an upstream change.
pub open spec fn invalidated(change: ChangeModel) -> ChangeModel {
    ChangeModel { validation_hash: None, state: descendant_state(change.state), ..change }
}

/// The views of changesets.
pub open spec fn change_models(changes: Seq<Changeset>) -> Seq<ChangeModel> {
    changes.map_values(|change: Changeset| change@)
}

/// The identifiers that lie at most `depth` parent links below `id`, `id` among them.
pub open spec fn reached(changes: Seq<ChangeModel>, id: Seq<char>, depth: nat) -> Set<Seq<char>>
    decreases depth,
{
    if depth == 0 {
        set![id]
    } else {
        let above = reached(changes, id, (depth - 1) as nat);
        Set::new(
            |x: Seq<char>|
                above.contains(x) || exists|i: int|
                    0 <= i < changes.len() && (#[trigger] changes[i]).id == x && has_parent_in(
                        changes[i],
                        above,
                    ),
        )
    }
}

/// Whether the parent of a changeset is in a set.
pub open spec fn has_parent_in(change: ChangeModel, set: Set<Seq<char>>) -> bool {
    change.parent_changeset_id is Some && set.contains(change.parent_changeset_id->Some_0)
}

/// Whether a changeset descends from another through parent links.
pub open spec fn descends(changes: Seq<ChangeModel>, id: Seq<char>, change: ChangeModel) -> bool {
    change.id != id && exists|depth: nat|
        has_parent_in(change, #[trigger] reached(changes, id, depth))
}

/// No identifier occurs twice.
pub open spec fn ids_unique(changes: Seq<ChangeModel>) -> bool {
    forall|i: int, j: int|
        0 <= i < j < changes.len() ==> (#[trigger] changes[i]).id != (#[trigger] changes[j]).id
}

/// Whether a changeset with the identifier exists.
pub open spec fn has_change(changes: Seq<ChangeModel>, id: Seq<char>) -> bool {
    exists|i: int| 0 <= i < changes.len() && (#[trigger] changes[i]).id == id
}

/// The number of entries that are still false.
pub open spec fn pending(done: Seq<bool>) -> nat
    decreases done.len(),
{
    if done.len() == 0 {
        0
    } else {
        pending(done.drop_last()) + if done.last() {
            0nat
        } else {
            1nat
        }
    }
}

pub(crate) proof fn lemma_pending_update(done: Seq<bool>, i: int)
    requires
        0 <= i < done.len(),
        !done[i],
    ensures
        pending(done.update(i, true)) + 1 == pending(done),
    decreases done.len(),
{
    let next = done.update(i, true);
    if i == done.len() - 1 {
        assert(next.drop_last() =~= done.drop_last());
    } else {
        lemma_pending_update(done.drop_last(), i);
        assert(next.drop_last() =~= done.drop_last().update(i, true));
    }
}

pub(crate) proof fn lemma_pending_all(done: Seq<bool>)
    requires
        forall|j: int| 0 <= j < done.len() ==> !#[trigger] done[j],
    ensures
        pending(done) == done.len(),
    decreases done.len(),
{
    if done.len() > 0 {
        lemma_pending_all(done.drop_last());
    }
}

pub(crate) proof fn lemma_pending_none(done: Seq<bool>)
    requires
        forall|j: int| 0 <= j < done.len() ==> #[trigger] done[j],
    ensures
        pending(done) == 0,
    decreases done.len(),
{
    if done.len() > 0 {
        lemma_pending_none(done.drop_last());
    }
}

/// The identifiers that count as ancestors so far, and which changesets are marked.
pub struct Sweep {
    pub ancestors: Set<Seq<char>>,
    pub marked: Seq<bool>,
}

/// A sweep over the first `i` changesets: one that is no ancestor itself, but whose parent is, is
/// marked and becomes an ancestor.
pub open spec fn swept(changes: Seq<ChangeModel>, s: Sweep, i: int) -> Sweep
    decreases i,
{
    if i <= 0 {
        s
    } else {
        let t = swept(changes, s, i - 1);
        let change = changes[i - 1];
        if !t.ancestors.contains(change.id) && has_parent_in(change, t.ancestors) {
            Sweep {
                ancestors: t.ancestors.insert(change.id),
                marked: t.marked.update(i - 1, true),
            }
        } else {
            t
        }
    }
}

/// What is marked after some sweeps from a changeset on.
pub open spec fn after_sweeps(changes: Seq<ChangeModel>, id: Seq<char>, k: nat) -> Sweep
    decreases k,
{
    if k == 0 {
        Sweep { ancestors: set![id], marked: Seq::new(changes.len(), |i: int| false) }
    } else {
        swept(changes, after_sweeps(changes, id, (k - 1) as nat), changes.len() as int)
    }
}

/// Whether a further sweep marks nothing.
pub open spec fn is_swept(changes: Seq<ChangeModel>, id: Seq<char>, k: nat) -> bool {
    after_sweeps(changes, id, k + 1) == after_sweeps(changes, id, k)
}

/// Sweeps end in one way: once a sweep marks nothing, no later one does.
pub proof fn sweeps_end_alike(changes: Seq<ChangeModel>, id: Seq<char>, a: nat, b: nat)
    requires
        is_swept(changes, id, a),
        is_swept(changes, id, b),
    ensures
        after_sweeps(changes, id, a) == after_sweeps(changes, id, b),
{
    if a <= b {
        lemma_swept_stays(changes, id, a, b);
    } else {
        lemma_swept_stays(changes, id, b, a);
    }
}

proof fn lemma_swept_stays(changes: Seq<ChangeModel>, id: Seq<char>, a: nat, b: nat)
    requires
        is_swept(changes, id, a),
        a <= b,
    ensures
        after_sweeps(changes, id, b) == after_sweeps(changes, id, a),
    decreases b,
{
    if a < b {
        lemma_swept_stays(changes, id, a, (b - 1) as nat);
    }
}

/// What marking descendants does to a list of changesets: sweeps over the list mark them, until one
/// marks nothing.  Where no identifier occurs twice, these are the descendants.
pub open spec fn descendants_marked(
    before: Seq<ChangeModel>,
    after: Seq<ChangeModel>,
    id: Seq<char>,
) -> bool {
    &&& after.len() == before.len()
    &&& exists|k: nat| #[trigger]
        is_swept(before, id, k) && forall|i: int|
            0 <= i < before.len() ==> (#[trigger] after[i]) == if after_sweeps(
                before,
                id,
                k,
            ).marked[i] {
                invalidated(before[i])
            } else {
                before[i]
            }
    &&& forall|i: int|
        0 <= i < before.len() ==> (#[trigger] after[i]) == before[i] || (after[i] == invalidated(
            before[i],
        ) && descends(before, id, before[i]))
    &&& ids_unique(before) ==> forall|i: int|
        0 <= i < before.len() ==> (#[trigger] after[i]) == if descends(before, id, before[i]) {
            invalidated(before[i])
        } else {
            before[i]
        }
}

/// Whether a list has a changeset with the identifier and the parent of another one.
spec fn has_twin(list: Seq<ChangeModel>, change: ChangeModel) -> bool {
    exists|j: int| 0 <= j < list.len() && is_twin(#[trigger] list[j], change)
}

spec fn is_twin(a: ChangeModel, b: ChangeModel) -> bool {
    a.id == b.id && a.parent_changeset_id == b.parent_changeset_id
}

/// Changesets that agree on identifiers and parents have the same descendants.
proof fn lemma_same_reached(
    a: Seq<ChangeModel>,
    b: Seq<ChangeModel>,
    id: Seq<char>,
    depth: nat,
)
    requires
        forall|i: int| 0 <= i < a.len() ==> has_twin(b, #[trigger] a[i]),
    ensures
        reached(a, id, depth).subset_of(reached(b, id, depth)),
    decreases depth,
{
    if depth > 0 {
        let d = (depth - 1) as nat;
        lemma_same_reached(a, b, id, d);
        assert forall|x: Seq<char>| reached(a, id, depth).contains(x) implies reached(
            b,
            id,
            depth,
        ).contains(x) by {
            if !reached(a, id, d).contains(x) {
                let i = choose|i: int|
                    0 <= i < a.len() && (#[trigger] a[i]).id == x && has_parent_in(
                        a[i],
                        reached(a, id, d),
                    );
                assert(has_twin(b, a[i]));
                let j = choose|j: int| 0 <= j < b.len() && is_twin(#[trigger] b[j], a[i]);
                assert(has_parent_in(b[j], reached(b, id, d)));
            }
        }
    }
}

proof fn lemma_same_descends(
    a: Seq<ChangeModel>,
    b: Seq<ChangeModel>,
    id: Seq<char>,
    x: ChangeModel,
    y: ChangeModel,
)
    requires
        forall|i: int| 0 <= i < a.len() ==> has_twin(b, #[trigger] a[i]),
        x.id == y.id,
        x.parent_changeset_id == y.parent_changeset_id,
        descends(a, id, x),
    ensures
        descends(b, id, y),
{
    let depth = choose|depth: nat| has_parent_in(x, #[trigger] reached(a, id, depth));
    lemma_same_reached(a, b, id, depth);
    assert(has_parent_in(y, reached(b, id, depth)));
}

/// Marking the descendants of a changeset a second time changes nothing.
pub proof fn marking_twice_changes_nothing(
    before: Seq<ChangeModel>,
    after: Seq<ChangeModel>,
    again: Seq<ChangeModel>,
    id: Seq<char>,
)
    requires
        ids_unique(before),
        descendants_marked(before, after, id),
        descendants_marked(after, again, id),
    ensures
        again == after,
{
    assert forall|i: int| 0 <= i < after.len() implies (#[trigger] again[i]) == after[i] by {
        assert forall|k: int| 0 <= k < after.len() implies has_twin(
            before,
            #[trigger] after[k],
        ) by {
            assert(is_twin(before[k], after[k]));
        }
        if descends(after, id, after[i]) {
            lemma_same_descends(after, before, id, after[i], before[i]);
        }
    }
    assert(again =~= after);
}

/// Whether two lists of positions are permutations of the first numbers that undo each other.
pub open spec fn are_inverse(p: Seq<int>, q: Seq<int>, n: nat) -> bool {
    &&& p.len() == n
    &&& q.len() == n
    &&& forall|i: int| 0 <= i < n ==> 0 <= #[trigger] p[i] < n && q[p[i]] == i
    &&& forall|i: int| 0 <= i < n ==> 0 <= #[trigger] q[i] < n && p[q[i]] == i
}

/// The changesets at some positions, in the order of the positions.
pub open spec fn picked(changes: Seq<ChangeModel>, p: Seq<int>) -> Seq<ChangeModel> {
    Seq::new(p.len(), |i: int| changes[p[i]])
}

proof fn lemma_picked(before: Seq<ChangeModel>, p: Seq<int>, q: Seq<int>)
    requires
        ids_unique(before),
        are_inverse(p, q, before.len()),
    ensures
        ids_unique(picked(before, p)),
        forall|i: int| 0 <= i < before.len() ==> has_twin(picked(before, p), #[trigger] before[i]),
        forall|i: int| 0 <= i < p.len() ==> has_twin(before, #[trigger] picked(before, p)[i]),
{
    let other = picked(before, p);
    assert forall|i: int, j: int| 0 <= i < j < other.len() implies (#[trigger] other[i]).id != (
    #[trigger] other[j]).id by {
        assert(q[p[i]] == i && q[p[j]] == j);
        if p[i] < p[j] {
            assert(before[p[i]].id != before[p[j]].id);
        } else {
            assert(before[p[j]].id != before[p[i]].id);
        }
    }
    assert forall|i: int| 0 <= i < other.len() implies has_twin(before, #[trigger] other[i]) by {
        assert(is_twin(before[p[i]], other[i]));
    }
    assert forall|i: int| 0 <= i < before.len() implies has_twin(other, #[trigger] before[i]) by {
        assert(p[q[i]] == i);
        assert(is_twin(other[q[i]], before[i]));
    }
}

/// Marking descendants does not depend on the order of the changesets: in another order, each of
/// them comes out as it does in the first.
pub proof fn marking_ignores_the_order(
    before: Seq<ChangeModel>,
    after: Seq<ChangeModel>,
    result: Seq<ChangeModel>,
    id: Seq<char>,
    p: Seq<int>,
    q: Seq<int>,
)
    requires
        ids_unique(before),
        are_inverse(p, q, before.len()),
        descendants_marked(before, after, id),
        descendants_marked(picked(before, p), result, id),
    ensures
        has_change(picked(before, p), id) == has_change(before, id),
        result == picked(after, p),
{
    let other = picked(before, p);
    lemma_picked(before, p, q);
    assert forall|i: int| 0 <= i < result.len() implies (#[trigger] result[i]) == picked(
        after,
        p,
    )[i] by {
        let x = other[i];
        assert(x == before[p[i]]);
        assert(after[p[i]] == if descends(before, id, x) {
            invalidated(x)
        } else {
            x
        });
        if descends(other, id, x) {
            lemma_same_descends(other, before, id, x, x);
        }
        if descends(before, id, x) {
            lemma_same_descends(before, other, id, x, x);
        }
    }
    assert(result =~= picked(after, p));
    if has_change(before, id) {
        let i = choose|i: int| 0 <= i < before.len() && (#[trigger] before[i]).id == id;
        assert(other[q[i]].id == id);
    }
    if has_change(other, id) {
        let i = choose|i: int| 0 <= i < other.len() && (#[trigger] other[i]).id == id;
        assert(before[p[i]].id == id);
    }
}

proof fn lemma_closed_set_holds_reached(
    changes: Seq<ChangeModel>,
    id: Seq<char>,
    set: Set<Seq<char>>,
    depth: nat,
)
    requires
        set.contains(id),
        forall|i: int|
            0 <= i < changes.len() ==> (has_parent_in(#[trigger] changes[i], set) ==> set.contains(
                changes[i].id,
            )),
    ensures
        reached(changes, id, depth).subset_of(set),
    decreases depth,
{
    if depth > 0 {
        lemma_closed_set_holds_reached(changes, id, set, (depth - 1) as nat);
    }
}

fn find_change(changesets: &Vec<Changeset>, id: &EntityId) -> (r: Option<usize>)
    ensures
        match r {
            Some(i) => i < changesets@.len() && changesets@[i as int]@.id == id@ && forall|k: int|
                0 <= k < i ==> (#[trigger] changesets@[k])@.id != id@,
            None => !has_change(change_models(changesets@), id@),
        },
{
    let mut i: usize = 0;
    while i < changesets.len()
        invariant
            i <= changesets@.len(),
            forall|k: int| 0 <= k < i ==> (#[trigger] changesets@[k])@.id != id@,
        decreases changesets@.len() - i,
    {
        if changesets[i].id.same(id) {
            return Some(i);
        }
        i += 1;
    }
    assert forall|k: int| 0 <= k < changesets@.len() implies (#[trigger] change_models(
        changesets@,
    )[k]).id != id@ by {
        assert(changesets@[k]@.id != id@);
    }
    None
}

fn missing_change(id: &EntityId) -> (r: Result<(), ValidationError>)
    ensures
        verdict(r) == refused(
            ValidationErrorKind::MissingChangeset,
            "changeset "@ + id@ + " was not found"@,
        ),
{
    let mut message = "changeset ".to_owned();
    message.append(id.as_str());
    message.append(" was not found");
    Err(ValidationError::new(ValidationErrorKind::MissingChangeset, message))
}

/// Marks the descendants of a changeset after it changed: approved ones need revalidation,
/// unapproved ones are stale, and their validation is void.
pub fn mark_descendants(changesets: &mut Vec<Changeset>, id: &EntityId) -> (r: Result<
    (),
    ValidationError,
>)
    ensures
        match r {
            Ok(()) => has_change(change_models(old(changesets)@), id@) && descendants_marked(
                change_models(old(changesets)@),
                change_models(final(changesets)@),
                id@,
            ),
            Err(error) => !has_change(change_models(old(changesets)@), id@) && error@ == (
                ValidationErrorKind::MissingChangeset,
                "changeset "@ + id@ + " was not found"@,
            ) && final(changesets)@ == old(changesets)@,
        },
{
    let ghost start = change_models(changesets@);
    match find_change(changesets, id) {
        None => {
            return missing_change(id);
        },
        Some(i) => {
            assert(start[i as int].id == id@);
        },
    }
    let n: usize = changesets.len();
    let mut ancestors: Vec<EntityId> = Vec::new();
    ancestors.push(id.copy());
    let ghost mut set: Set<Seq<char>> = set![id@];
    let mut done: Vec<bool> = Vec::new();
    let mut k: usize = 0;
    while k < n
        invariant
            k <= n,
            done@.len() == k,
            forall|j: int| 0 <= j < k ==> !#[trigger] done@[j],
        decreases n - k,
    {
        done.push(false);
        k += 1;
    }
    assert(reached(start, id@, 0).contains(id@));
    assert(ancestors@[0]@ == id@);
    let ghost mut sweeps: nat = 0;
    assert(done@ =~= after_sweeps(start, id@, 0).marked);
    let mut changed = true;
    while changed
        invariant
            (Sweep { ancestors: set, marked: done@ }) == after_sweeps(start, id@, sweeps),
            !changed ==> is_swept(start, id@, sweeps),
            n == start.len(),
            changesets@.len() == n,
            done@.len() == n,
            start == change_models(old(changesets)@),
            set.contains(id@),
            forall|x: Seq<char>| set.contains(x) <==> has_id(ancestors@, x),
            forall|x: Seq<char>| #[trigger] set.contains(x) ==> exists|d: nat|
                (#[trigger] reached(start, id@, d)).contains(x),
            forall|j: int|
                #![trigger changesets@[j]]
                #![trigger done@[j]]
                0 <= j < n ==> changesets@[j]@ == (if done@[j] {
                    invalidated(start[j])
                } else {
                    start[j]
                }),
            forall|j: int|
                0 <= j < n && #[trigger] done@[j] ==> set.contains(start[j].id) && descends(
                    start,
                    id@,
                    start[j],
                ),
            ids_unique(start) ==> forall|j: int|
                0 <= j < n && set.contains((#[trigger] start[j]).id) && start[j].id != id@
                    ==> done@[j],
            !changed ==> forall|j: int|
                0 <= j < n && has_parent_in(#[trigger] start[j], set) ==> set.contains(
                    start[j].id,
                ),
        decreases pending(done@), changed as int,
    {
        changed = false;
        let ghost before = pending(done@);
        let ghost entry_set = set;
        let ghost entry = Sweep { ancestors: set, marked: done@ };
        let mut i: usize = 0;
        while i < n
            invariant
                entry == after_sweeps(start, id@, sweeps),
                (Sweep { ancestors: set, marked: done@ }) == swept(start, entry, i as int),
                !changed ==> (Sweep { ancestors: set, marked: done@ }) == entry,
                i <= n,
                n == start.len(),
                changesets@.len() == n,
                done@.len() == n,
                start == change_models(old(changesets)@),
                set.contains(id@),
                entry_set.subset_of(set),
                forall|x: Seq<char>| set.contains(x) <==> has_id(ancestors@, x),
                forall|x: Seq<char>| #[trigger] set.contains(x) ==> exists|d: nat|
                    (#[trigger] reached(start, id@, d)).contains(x),
                forall|j: int|
                    #![trigger changesets@[j]]
                    #![trigger done@[j]]
                    0 <= j < n ==> changesets@[j]@ == (if done@[j] {
                        invalidated(start[j])
                    } else {
                        start[j]
                    }),
                forall|j: int|
                    0 <= j < n && #[trigger] done@[j] ==> set.contains(start[j].id) && descends(
                        start,
                        id@,
                        start[j],
                    ),
                ids_unique(start) ==> forall|j: int|
                    0 <= j < n && set.contains((#[trigger] start[j]).id) && start[j].id != id@
                        ==> done@[j],
                changed ==> pending(done@) < before,
                !changed ==> pending(done@) == before && set == entry_set,
                !changed ==> forall|j: int|
                    0 <= j < i && has_parent_in(#[trigger] start[j], set) ==> set.contains(
                        start[j].id,
                    ),
            decreases n - i,
        {
            assert(changesets@[i as int]@ == (if done@[i as int] {
                invalidated(start[i as int])
            } else {
                start[i as int]
            }));
            if !contains_id(ancestors.as_slice(), changesets[i].id.as_str()) {
                let below = match &changesets[i].parent_changeset_id {
                    Some(parent) => contains_id(ancestors.as_slice(), parent.as_str()),
                    None => false,
                };
                if below {
                    proof {
                        let x = start[i as int].parent_changeset_id->Some_0;
                        assert(changesets@[i as int]@.parent_changeset_id == Some(x));
                        assert(has_id(ancestors@, x));
                        assert(set.contains(x));
                        let d = choose|d: nat| (#[trigger] reached(start, id@, d)).contains(x);
                        assert(has_parent_in(start[i as int], reached(start, id@, d)));
                        assert(start[i as int].id != id@);
                        assert(descends(start, id@, start[i as int]));
                        assert(reached(start, id@, d + 1).contains(start[i as int].id));
                        assert(!done@[i as int]);
                        lemma_pending_update(done@, i as int);
                    }
                    let ghost old_ancestors = ancestors@;
                    let ghost new_id = start[i as int].id;
                    ancestors.push(changesets[i].id.copy());
                    proof {
                        set = set.insert(new_id);
                        assert forall|x: Seq<char>| set.contains(x) <==> has_id(
                            ancestors@,
                            x,
                        ) by {
                            if has_id(old_ancestors, x) {
                                let w = choose|w: int|
                                    0 <= w < old_ancestors.len() && #[trigger] old_ancestors[w]@
                                        == x;
                                assert(ancestors@[w]@ == x);
                            }
                            assert(ancestors@[old_ancestors.len() as int]@ == new_id);
                            if has_id(ancestors@, x) {
                                let w = choose|w: int|
                                    0 <= w < ancestors@.len() && #[trigger] ancestors@[w]@ == x;
                                if w < old_ancestors.len() {
                                    assert(old_ancestors[w]@ == x);
                                }
                            }
                        }
                    }
                    let state = match changesets[i].state {
                        ChangesetState::Approved => ChangesetState::NeedsRevalidation,
                        ChangesetState::NeedsRevalidation => ChangesetState::NeedsRevalidation,
                        _ => ChangesetState::Stale,
                    };
                    let change = &mut changesets[i];
                    change.validation_hash = None;
                    change.state = state;
                    done.set(i, true);
                    changed = true;
                }
            }
            i += 1;
        }
        proof {
            if changed {
                sweeps = sweeps + 1;
            }
        }
    }
    proof {
        let end = change_models(changesets@);
        assert(is_swept(start, id@, sweeps));
        assert forall|j: int| 0 <= j < n implies (#[trigger] end[j]) == if after_sweeps(
            start,
            id@,
            sweeps,
        ).marked[j] {
            invalidated(start[j])
        } else {
            start[j]
        } by {
            assert(end[j] == changesets@[j]@);
        }
        assert forall|j: int| 0 <= j < n && ids_unique(start) implies (#[trigger] end[j])
            == if descends(start, id@, start[j]) {
            invalidated(start[j])
        } else {
            start[j]
        } by {
            assert(end[j] == changesets@[j]@);
            if descends(start, id@, start[j]) {
                let d = choose|d: nat| has_parent_in(start[j], #[trigger] reached(start, id@, d));
                lemma_closed_set_holds_reached(start, id@, set, d);
                assert(set.contains(start[j].id));
                assert(done@[j]);
            } else {
                assert(!done@[j]);
            }
        }
        assert forall|j: int| 0 <= j < n implies (#[trigger] end[j]) == start[j] || (end[j]
            == invalidated(start[j]) && descends(start, id@, start[j])) by {
            assert(end[j] == changesets@[j]@);
        }
    }
    Ok(())
}

/// A changeset whose candidate files changed.
pub open spec fn candidate_changed(change: ChangeModel, new_hash: Seq<char>) -> ChangeModel {
    ChangeModel {
        candidate_hash: new_hash,
        validation_hash: None,
        state: ChangesetState::Reviewing,
        ..change
    }
}

/// The index of the first changeset with an identifier.
pub open spec fn first_change(changes: Seq<ChangeModel>, id: Seq<char>, at: int) -> bool {
    0 <= at < changes.len() && changes[at].id == id && forall|k: int|
        0 <= k < at ==> (#[trigger] changes[k]).id != id
}

/// Records changed candidate files of a changeset and marks its descendants.
pub fn mark_candidate_hash_changed(
    changesets: &mut Vec<Changeset>,
    id: &EntityId,
    new_hash: String,
) -> (r: Result<(), ValidationError>)
    ensures
        match r {
            Ok(()) => exists|at: int|
                #[trigger] first_change(change_models(old(changesets)@), id@, at)
                    && descendants_marked(
                    change_models(old(changesets)@).update(
                        at,
                        candidate_changed(change_models(old(changesets)@)[at], new_hash@),
                    ),
                    change_models(final(changesets)@),
                    id@,
                ),
            Err(error) => !has_change(change_models(old(changesets)@), id@) && error@ == (
                ValidationErrorKind::MissingChangeset,
                "changeset "@ + id@ + " was not found"@,
            ) && final(changesets)@ == old(changesets)@,
        },
{
    let ghost start = change_models(changesets@);
    match find_change(changesets, id) {
        None => missing_change(id),
        Some(i) => {
            proof {
                assert forall|k: int| 0 <= k < i implies (#[trigger] start[k]).id != id@ by {
                    assert(changesets@[k]@.id != id@);
                }
                assert(first_change(start, id@, i as int));
            }
            let change = &mut changesets[i];
            change.candidate_hash = new_hash;
            change.validation_hash = None;
            change.state = ChangesetState::Reviewing;
            let ghost middle = change_models(changesets@);
            assert(middle =~= start.update(i as int, candidate_changed(start[i as int], new_hash@)));
            assert(middle[i as int].id == id@);
            mark_descendants(changesets, id)
        },
    }
}

} // verus!
