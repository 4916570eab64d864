//! What a run keeps about its chapters, corrections and costs.
use vstd::prelude::*;
use vstd::string::StringExecFns;
use crate::changeset::{ChangeModel, Changeset, ChangesetState};
use crate::context::{ContextReceipt, ReceiptModel};
use crate::cost::MicroDollars;
use crate::findings::{copy_findings, finding_models, kind_blocks, AgentRole, Finding, FindingModel};
use crate::json::{json_array, json_list, json_quote, json_string};
use crate::table::{Entries, Table};
use crate::text::{concat2, concat3, decimal, decimal_text, join, join_texts, opt_text, texts};

verus! {

/// How a failed approval failed.
#[derive(Debug)]
pub enum ApprovalError {
    /// There is no project.
    ProjectRequired,
    /// The changeset is not valid.
    Validation(String),
    /// The changeset could not be applied.
    Apply(String),
    /// The record of the approval is not durable.
    DurableProof(String),
}

/// The message of a failed approval.
pub open spec fn approval_message(error: ApprovalError) -> Seq<char> {
    match error {
        ApprovalError::ProjectRequired => "approval requires an initialized project"@,
        ApprovalError::Validation(message) => "approval validation failed: "@ + message@,
        ApprovalError::Apply(message) => "approval apply failed: "@ + message@,
        ApprovalError::DurableProof(message) => "approval durable proof failed: "@ + message@,
    }
}

impl ApprovalError {
    /// Returns the message.
    pub fn to_text(&self) -> (r: String)
        ensures
            r@ == approval_message(*self),
    {
        match self {
            ApprovalError::ProjectRequired => "approval requires an initialized project".to_owned(),
            ApprovalError::Validation(message) => concat2(
                "approval validation failed: ",
                message.as_str(),
            ),
            ApprovalError::Apply(message) => concat2("approval apply failed: ", message.as_str()),
            ApprovalError::DurableProof(message) => concat2(
                "approval durable proof failed: ",
                message.as_str(),
            ),
        }
    }
}

/// What a correction applies to.
#[derive(Clone, Copy, Debug, PartialEq, Eq, Structural)]
pub enum CorrectionScope {
    Location,
    Character,
    Scene,
    Chapter,
    Project,
}

/// A correction of a human that later chapters follow.
#[derive(Debug)]
pub struct CorrectionRule {
    /// Identifier.
    pub id: String,
    /// Chapter that was corrected.
    pub source_chapter: String,
    /// What it applies to.
    pub scope: CorrectionScope,
    /// Entity that it applies to.
    pub target: Option<String>,
    /// Text before and after.
    pub diff: String,
    /// Digest of the text.
    pub hash: String,
}

/// A correction by the views of its fields.
pub struct RuleModel {
    pub id: Seq<char>,
    pub source_chapter: Seq<char>,
    pub scope: CorrectionScope,
    pub target: Option<Seq<char>>,
    pub diff: Seq<char>,
    pub hash: Seq<char>,
}

impl View for CorrectionRule {
    type V = RuleModel;

    open spec fn view(&self) -> RuleModel {
        RuleModel {
            id: self.id@,
            source_chapter: self.source_chapter@,
            scope: self.scope,
            target: opt_text(self.target),
            diff: self.diff@,
            hash: self.hash@,
        }
    }
}

/// The views of corrections.
pub open spec fn rule_models(items: Seq<CorrectionRule>) -> Seq<RuleModel> {
    items.map_values(|item: CorrectionRule| item@)
}

impl CorrectionRule {
    /// Returns an equal correction.
    pub fn copy(&self) -> (r: CorrectionRule)
        ensures
            r@ == self@,
    {
        CorrectionRule {
            id: self.id.clone(),
            source_chapter: self.source_chapter.clone(),
            scope: self.scope,
            target: match &self.target {
                Some(target) => Some(target.clone()),
                None => None,
            },
            diff: self.diff.clone(),
            hash: self.hash.clone(),
        }
    }
}

/// A correction as a chapter receives it.
#[derive(Debug)]
pub struct CorrectionReceipt {
    /// Identifier of the correction.
    pub rule_id: String,
    /// Digest of the correction.
    pub hash: String,
    /// Text before and after.
    pub directive: String,
}

/// Identifier, digest and text of a received correction.
pub type Received = (Seq<char>, Seq<char>, Seq<char>);

impl View for CorrectionReceipt {
    type V = Received;

    open spec fn view(&self) -> Received {
        (self.rule_id@, self.hash@, self.directive@)
    }
}

/// The views of received corrections.
pub open spec fn received(items: Seq<CorrectionReceipt>) -> Seq<Received> {
    items.map_values(|item: CorrectionReceipt| item@)
}

/// Copies received corrections.
pub fn copy_receipts(items: &[CorrectionReceipt]) -> (r: Vec<CorrectionReceipt>)
    ensures
        received(r@) == received(items@),
{
    let mut out: Vec<CorrectionReceipt> = Vec::new();
    let mut i: usize = 0;
    while i < items.len()
        invariant
            i <= items@.len(),
            out@.len() == i,
            forall|k: int| 0 <= k < i ==> #[trigger] out@[k]@ == items@[k]@,
        decreases items@.len() - i,
    {
        let item = CorrectionReceipt {
            rule_id: items[i].rule_id.clone(),
            hash: items[i].hash.clone(),
            directive: items[i].directive.clone(),
        };
        out.push(item);
        i += 1;
    }
    assert(received(out@) =~= received(items@));
    out
}

/// Lifecycle of a chapter.
#[derive(Clone, Copy, Debug, PartialEq, Eq, Structural)]
pub enum ChapterState {
    Planned,
    Running,
    Candidate,
    Approvable,
    Approved,
    Rejected,
    Stale,
    NeedsRevalidation,
}

/// A chapter of a run.
#[derive(Debug)]
pub struct ChapterRecord {
    /// Identifier.
    pub id: String,
    /// Position.
    pub order: u32,
    /// Lifecycle state.
    pub state: ChapterState,
}

/// A chapter by the views of its fields.
pub struct ChapterModel {
    pub id: Seq<char>,
    pub order: u32,
    pub state: ChapterState,
}

impl View for ChapterRecord {
    type V = ChapterModel;

    open spec fn view(&self) -> ChapterModel {
        ChapterModel { id: self.id@, order: self.order, state: self.state }
    }
}

/// Which agents worked on a chapter.
#[derive(Debug)]
pub struct WorkflowTrace {
    /// Roles in the order in which they were asked.
    pub roles: Vec<AgentRole>,
    /// Plans.
    pub architect_calls: usize,
    /// Drafts.
    pub writer_calls: usize,
    /// Critics that may work at once.
    pub max_parallel_critics: usize,
    /// Reviews.
    pub critic_calls: usize,
    /// Revisions.
    pub reviser_calls: usize,
    /// Validations.
    pub validator_calls: usize,
}

/// A trace by the views of its fields.
pub struct TraceModel {
    pub roles: Seq<AgentRole>,
    pub architect_calls: int,
    pub writer_calls: int,
    pub max_parallel_critics: int,
    pub critic_calls: int,
    pub reviser_calls: int,
    pub validator_calls: int,
}

impl View for WorkflowTrace {
    type V = TraceModel;

    open spec fn view(&self) -> TraceModel {
        TraceModel {
            roles: self.roles@,
            architect_calls: self.architect_calls as int,
            writer_calls: self.writer_calls as int,
            max_parallel_critics: self.max_parallel_critics as int,
            critic_calls: self.critic_calls as int,
            reviser_calls: self.reviser_calls as int,
            validator_calls: self.validator_calls as int,
        }
    }
}

impl Default for WorkflowTrace {
    fn default() -> (r: WorkflowTrace)
        ensures
            r@ == (TraceModel {
                roles: Seq::empty(),
                architect_calls: 0,
                writer_calls: 0,
                max_parallel_critics: 0,
                critic_calls: 0,
                reviser_calls: 0,
                validator_calls: 0,
            }),
    {
        WorkflowTrace {
            roles: Vec::new(),
            architect_calls: 0,
            writer_calls: 0,
            max_parallel_critics: 0,
            critic_calls: 0,
            reviser_calls: 0,
            validator_calls: 0,
        }
    }
}

fn copy_roles(items: &[AgentRole]) -> (r: Vec<AgentRole>)
    ensures
        r@ == items@,
{
    let mut out: Vec<AgentRole> = Vec::new();
    let mut i: usize = 0;
    while i < items.len()
        invariant
            i <= items@.len(),
            out@ == items@.take(i as int),
        decreases items@.len() - i,
    {
        out.push(items[i]);
        i += 1;
        assert(out@ =~= items@.take(i as int));
    }
    assert(items@.take(i as int) =~= items@);
    out
}

impl WorkflowTrace {
    /// Returns an equal trace.
    pub fn copy(&self) -> (r: WorkflowTrace)
        ensures
            r@ == self@,
    {
        WorkflowTrace {
            roles: copy_roles(self.roles.as_slice()),
            architect_calls: self.architect_calls,
            writer_calls: self.writer_calls,
            max_parallel_critics: self.max_parallel_critics,
            critic_calls: self.critic_calls,
            reviser_calls: self.reviser_calls,
            validator_calls: self.validator_calls,
        }
    }
}

/// Which plans were approved before a chapter is written.
#[derive(Clone, Copy, Debug, PartialEq, Eq, Structural)]
pub struct PreflightReport {
    /// The scene plan.
    pub approved_scene_plan: bool,
    /// The box plan.
    pub approved_box_plan: bool,
    /// The links to the whole.
    pub macro_links: bool,
}

impl Default for PreflightReport {
    fn default() -> (r: PreflightReport)
        ensures
            r == (PreflightReport {
                approved_scene_plan: false,
                approved_box_plan: false,
                macro_links: false,
            }),
    {
        PreflightReport {
            approved_scene_plan: false,
            approved_box_plan: false,
            macro_links: false,
        }
    }
}

/// Whether every plan was approved.
pub open spec fn preflight_ready(report: PreflightReport) -> bool {
    report.approved_scene_plan && report.approved_box_plan && report.macro_links
}

impl PreflightReport {
    /// Returns whether every plan was approved.
    pub fn is_ready(&self) -> (r: bool)
        ensures
            r == preflight_ready(*self),
    {
        self.approved_scene_plan && self.approved_box_plan && self.macro_links
    }
}

/// The views of pairs of texts.
pub open spec fn pairs(items: Seq<(String, String)>) -> Seq<(Seq<char>, Seq<char>)> {
    items.map_values(|item: (String, String)| (item.0@, item.1@))
}

/// Copies pairs of texts.
pub fn copy_pairs(items: &[(String, String)]) -> (r: Vec<(String, String)>)
    ensures
        pairs(r@) == pairs(items@),
{
    let mut out: Vec<(String, String)> = Vec::new();
    let mut i: usize = 0;
    while i < items.len()
        invariant
            i <= items@.len(),
            out@.len() == i,
            forall|k: int|
                0 <= k < i ==> (#[trigger] out@[k]).0@ == items@[k].0@ && out@[k].1@
                    == items@[k].1@,
        decreases items@.len() - i,
    {
        out.push((items[i].0.clone(), items[i].1.clone()));
        i += 1;
    }
    assert(pairs(out@) =~= pairs(items@));
    out
}

/// The view of an optional receipt.
pub open spec fn opt_receipt(item: Option<ContextReceipt>) -> Option<ReceiptModel> {
    match item {
        Some(receipt) => Some(receipt@),
        None => None,
    }
}

/// Copies an optional receipt.
pub fn copy_opt_receipt(item: &Option<ContextReceipt>) -> (r: Option<ContextReceipt>)
    ensures
        opt_receipt(r) == opt_receipt(*item),
{
    match item {
        Some(receipt) => Some(receipt.copy()),
        None => None,
    }
}

/// What came out of writing a chapter.
pub struct ChapterRun {
    /// Chapter.
    pub chapter_id: String,
    /// Proposed operations.
    pub changeset: Changeset,
    /// Lifecycle state.
    pub state: ChapterState,
    /// Agents that worked on it.
    pub trace: WorkflowTrace,
    /// Findings of the critics.
    pub findings: Vec<Finding>,
    /// Corrections that it received.
    pub correction_receipts: Vec<CorrectionReceipt>,
    /// Digests of the earlier candidates of the run.
    pub provisional_canon_hashes: Vec<(String, String)>,
    /// Texts of the earlier candidates of the run.
    pub provisional_canon_texts: Vec<(String, String)>,
    /// Digest of what the writer was given.
    pub context_receipt_hash: String,
    /// What the context of the writer was compiled from.
    pub context_receipt: Option<ContextReceipt>,
    /// What the context of each role was compiled from.
    pub role_context_receipts: Table<ContextReceipt>,
    /// Text of the candidate.
    pub candidate_text: String,
    /// Plans that were approved.
    pub preflight: PreflightReport,
}

/// The outcome of writing a chapter by the views of its fields.
pub struct RunRecord {
    pub chapter_id: Seq<char>,
    pub changeset: ChangeModel,
    pub state: ChapterState,
    pub trace: TraceModel,
    pub findings: Seq<FindingModel>,
    pub correction_receipts: Seq<Received>,
    pub provisional_canon_hashes: Seq<(Seq<char>, Seq<char>)>,
    pub provisional_canon_texts: Seq<(Seq<char>, Seq<char>)>,
    pub context_receipt_hash: Seq<char>,
    pub context_receipt: Option<ReceiptModel>,
    pub role_context_receipts: Entries<ReceiptModel>,
    pub candidate_text: Seq<char>,
    pub preflight: PreflightReport,
}

impl View for ChapterRun {
    type V = RunRecord;

    open spec fn view(&self) -> RunRecord {
        RunRecord {
            chapter_id: self.chapter_id@,
            changeset: self.changeset@,
            state: self.state,
            trace: self.trace@,
            findings: finding_models(self.findings@),
            correction_receipts: received(self.correction_receipts@),
            provisional_canon_hashes: pairs(self.provisional_canon_hashes@),
            provisional_canon_texts: pairs(self.provisional_canon_texts@),
            context_receipt_hash: self.context_receipt_hash@,
            context_receipt: opt_receipt(self.context_receipt),
            role_context_receipts: self.role_context_receipts@,
            candidate_text: self.candidate_text@,
            preflight: self.preflight,
        }
    }
}

/// Whether a chapter may be approved by a human.
pub open spec fn run_approvable(run: RunRecord) -> bool {
    &&& run.state == ChapterState::Approvable
    &&& run.changeset.state == ChangesetState::Approvable
    &&& run.changeset.unresolved_blocker_ids.len() == 0
    &&& forall|i: int|
        0 <= i < run.findings.len() ==> !kind_blocks((#[trigger] run.findings[i]).kind)
            || run.findings[i].resolved is Some
}

/// Copies the receipts of roles.
pub fn copy_role_receipts(table: &Table<ContextReceipt>) -> (r: Table<ContextReceipt>)
    ensures
        r@ == table@,
{
    let mut out: Table<ContextReceipt> = Table::new();
    let mut i: usize = 0;
    while i < table.len()
        invariant
            i <= table@.len(),
            out@ == table@.take(i as int),
        decreases table@.len() - i,
    {
        out.push_last(table.key(i).to_owned(), table.value(i).copy());
        i += 1;
        assert(out@ =~= table@.take(i as int));
    }
    assert(table@.take(i as int) =~= table@);
    out
}

impl ChapterRun {
    /// Returns whether the chapter may be approved by a human.
    pub fn is_approvable(&self) -> (r: bool)
        ensures
            r == run_approvable(self@),
    {
        if self.state != ChapterState::Approvable || !self.changeset.state.is_approvable()
            || self.changeset.unresolved_blocker_ids.len() != 0 {
            return false;
        }
        let ghost all = self@.findings;
        let mut i: usize = 0;
        while i < self.findings.len()
            invariant
                i <= self.findings@.len(),
                all == self@.findings,
                forall|k: int|
                    0 <= k < i ==> !kind_blocks((#[trigger] all[k]).kind) || all[k].resolved
                        is Some,
            decreases self.findings@.len() - i,
        {
            assert(all[i as int] == self.findings@[i as int]@);
            if self.findings[i].kind.is_blocking() && self.findings[i].is_open() {
                return false;
            }
            i += 1;
        }
        true
    }

    /// Returns the digest of the candidate.
    pub fn candidate_hash(&self) -> (r: &str)
        ensures
            r@ == self@.changeset.candidate_hash,
    {
        self.changeset.candidate_hash.as_str()
    }

    /// Returns an equal outcome.
    pub fn copy(&self) -> (r: ChapterRun)
        ensures
            r@ == self@,
    {
        ChapterRun {
            chapter_id: self.chapter_id.clone(),
            changeset: self.changeset.copy(),
            state: self.state,
            trace: self.trace.copy(),
            findings: copy_findings(self.findings.as_slice()),
            correction_receipts: copy_receipts(self.correction_receipts.as_slice()),
            provisional_canon_hashes: copy_pairs(self.provisional_canon_hashes.as_slice()),
            provisional_canon_texts: copy_pairs(self.provisional_canon_texts.as_slice()),
            context_receipt_hash: self.context_receipt_hash.clone(),
            context_receipt: copy_opt_receipt(&self.context_receipt),
            role_context_receipts: copy_role_receipts(&self.role_context_receipts),
            candidate_text: self.candidate_text.clone(),
            preflight: self.preflight,
        }
    }
}

/// What a run has cost.
#[derive(Clone, Copy, Debug, PartialEq, Eq, Structural)]
pub struct CostStatus {
    /// Cost of the chapter at hand.
    pub chapter: MicroDollars,
    /// Cost of the run.
    pub run: MicroDollars,
    /// Whether a reservation passed the warning mark.
    pub warning: bool,
}

/// A chapter may cost more than a human has agreed to.
#[derive(Debug)]
pub struct CostConfirmationRequired {
    chapter_id: String,
    estimated_cost: MicroDollars,
}

impl View for CostConfirmationRequired {
    type V = (Seq<char>, u64);

    closed spec fn view(&self) -> (Seq<char>, u64) {
        (self.chapter_id@, self.estimated_cost@)
    }
}

impl CostConfirmationRequired {
    /// Records what a chapter may cost.
    pub fn new(chapter_id: String, estimated_cost: MicroDollars) -> (r: CostConfirmationRequired)
        ensures
            r@ == (chapter_id@, estimated_cost@),
    {
        CostConfirmationRequired { chapter_id, estimated_cost }
    }

    /// Returns the chapter.
    pub fn chapter_id(&self) -> (r: &str)
        ensures
            r@ == self@.0,
    {
        self.chapter_id.as_str()
    }

    /// Returns what the chapter may cost.
    pub fn estimated_cost(&self) -> (r: MicroDollars)
        ensures
            r@ == self@.1,
    {
        self.estimated_cost
    }

    /// Returns the message.
    pub fn to_text(&self) -> (r: String)
        ensures
            r@ == "estimated chapter cost exceeds $5; explicit confirmation is required before model request ("@
                + decimal(self@.1 as nat) + " microdollars)"@,
    {
        concat3(
            "estimated chapter cost exceeds $5; explicit confirmation is required before model request (",
            decimal_text(self.estimated_cost.as_u64()).as_str(),
            " microdollars)",
        )
    }
}

/// The quoted form of a text with escapes, as the `Debug` implementation of `str` writes it.
pub uninterp spec fn debug_text(text: Seq<char>) -> Seq<char>;

/// Formats a text with the `Debug` implementation of `str`.
#[verifier::external_body]
pub(crate) fn debug_quote(text: &str) -> (r: String)
    ensures
        r@ == debug_text(text@),
{
    format!("{text:?}")
}

/// A list in square brackets.
pub open spec fn bracketed(items: Seq<Seq<char>>) -> Seq<char> {
    "["@ + join(items, ", "@) + "]"@
}

/// The form in which prompts show pairs of texts.
pub open spec fn pairs_text(items: Seq<(Seq<char>, Seq<char>)>) -> Seq<char> {
    bracketed(
        items.map_values(
            |item: (Seq<char>, Seq<char>)|
                "("@ + debug_text(item.0) + ", "@ + debug_text(item.1) + ")"@,
        ),
    )
}

/// Returns the form in which prompts show pairs of texts.
pub fn show_pairs(items: &[(String, String)]) -> (r: String)
    ensures
        r@ == pairs_text(pairs(items@)),
{
    let ghost goal = pairs(items@).map_values(
        |item: (Seq<char>, Seq<char>)|
            "("@ + debug_text(item.0) + ", "@ + debug_text(item.1) + ")"@,
    );
    let mut out: Vec<String> = Vec::new();
    let mut i: usize = 0;
    while i < items.len()
        invariant
            i <= items@.len(),
            out@.len() == i,
            goal.len() == items@.len(),
            forall|k: int|
                0 <= k < items@.len() ==> #[trigger] goal[k] == "("@ + debug_text(items@[k].0@)
                    + ", "@ + debug_text(items@[k].1@) + ")"@,
            forall|k: int| 0 <= k < i ==> #[trigger] out@[k]@ == goal[k],
        decreases items@.len() - i,
    {
        let mut text = concat3("(", debug_quote(items[i].0.as_str()).as_str(), ", ");
        text.append(debug_quote(items[i].1.as_str()).as_str());
        text.append(")");
        out.push(text);
        i += 1;
    }
    assert(texts(out@) =~= goal);
    concat3("[", join_texts(out.as_slice(), ", ").as_str(), "]")
}

/// The form in which prompts show one received correction.
pub open spec fn received_text(item: Received) -> Seq<char> {
    "CorrectionReceipt { rule_id: "@ + debug_text(item.0) + ", hash: "@ + debug_text(item.1)
        + ", directive: "@ + debug_text(item.2) + " }"@
}

/// The form in which prompts show received corrections.
pub open spec fn receipts_text(items: Seq<Received>) -> Seq<char> {
    bracketed(items.map_values(|item: Received| received_text(item)))
}

/// Returns the form in which prompts show received corrections.
pub fn show_receipts(items: &[CorrectionReceipt]) -> (r: String)
    ensures
        r@ == receipts_text(received(items@)),
{
    let ghost goal = received(items@).map_values(|item: Received| received_text(item));
    let mut out: Vec<String> = Vec::new();
    let mut i: usize = 0;
    while i < items.len()
        invariant
            i <= items@.len(),
            out@.len() == i,
            goal.len() == items@.len(),
            forall|k: int|
                0 <= k < items@.len() ==> #[trigger] goal[k] == received_text(items@[k]@),
            forall|k: int| 0 <= k < i ==> #[trigger] out@[k]@ == goal[k],
        decreases items@.len() - i,
    {
        let mut text = "CorrectionReceipt { rule_id: ".to_owned();
        text.append(debug_quote(items[i].rule_id.as_str()).as_str());
        text.append(", hash: ");
        text.append(debug_quote(items[i].hash.as_str()).as_str());
        text.append(", directive: ");
        text.append(debug_quote(items[i].directive.as_str()).as_str());
        text.append(" }");
        out.push(text);
        i += 1;
    }
    assert(texts(out@) =~= goal);
    concat3("[", join_texts(out.as_slice(), ", ").as_str(), "]")
}

/// The JSON object of a received correction.
pub open spec fn received_json(item: Received) -> Seq<char> {
    "{\"rule_id\":"@ + json_string(item.0) + ",\"hash\":"@ + json_string(item.1)
        + ",\"directive\":"@ + json_string(item.2) + "}"@
}

/// The JSON list of received corrections.
pub open spec fn receipts_json(items: Seq<Received>) -> Seq<char> {
    json_list(items.map_values(|item: Received| received_json(item)))
}

/// Returns the JSON list of received corrections.
pub fn corrections_json(items: &[CorrectionReceipt]) -> (r: String)
    ensures
        r@ == receipts_json(received(items@)),
{
    let ghost goal = received(items@).map_values(|item: Received| received_json(item));
    let mut out: Vec<String> = Vec::new();
    let mut i: usize = 0;
    while i < items.len()
        invariant
            i <= items@.len(),
            out@.len() == i,
            goal.len() == items@.len(),
            forall|k: int|
                0 <= k < items@.len() ==> #[trigger] goal[k] == received_json(items@[k]@),
            forall|k: int| 0 <= k < i ==> #[trigger] out@[k]@ == goal[k],
        decreases items@.len() - i,
    {
        let mut text = "{\"rule_id\":".to_owned();
        text.append(json_quote(items[i].rule_id.as_str()).as_str());
        text.append(",\"hash\":");
        text.append(json_quote(items[i].hash.as_str()).as_str());
        text.append(",\"directive\":");
        text.append(json_quote(items[i].directive.as_str()).as_str());
        text.append("}");
        out.push(text);
        i += 1;
    }
    assert(texts(out@) =~= goal);
    json_array(out.as_slice())
}

} // verus!
