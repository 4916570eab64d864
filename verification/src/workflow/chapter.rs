//! Writing a chapter: planning, drafting, reviews and revisions.
use vstd::prelude::*;
use vstd::string::StringExecFns;
use vstd::utf8::valid_utf8;
use crate::candidate::{copy_prepared, first_dependency, parent_of, refusal_text, DraftText, PreparedChange, PreparedModel};
use crate::changeset::{calculate_validation_hash, change_material, copy_dependencies, dependency_models, material_digest, operation_models, ChangeModel, Changeset, ChangesetDependency, ChangesetState, DependencyModel, FileOperation, OperationKind, OperationModel, ValidationErrorKind};
use crate::context::{ContextReceipt, ReceiptModel};
use crate::cost::MicroDollars;
use crate::domain::{ids, is_id_of, is_known_id, prefixed_uuid, EntityId, EntityKind};
use crate::findings::{any_blocks, blocked, copy_findings, critics, finding_blocks, finding_models, findings_of, kind_label, length_error, parse_findings, role_name, text_length, validate_length, AgentRole, AgentSpec, Finding, FindingModel};
use crate::hash::{digest_text, sha256_text};
use crate::model::{ModelFailureClass, ModelResponse, ModelResult, RequestModel};
use crate::plot::{message, structure_error, validate_structure, MacroBeat, StoryBox, StoryChapter, StoryScene, StoryStructure};
use crate::receipt::receipt_json;
use crate::records::{copy_opt_receipt, copy_pairs, copy_receipts, copy_role_receipts, corrections_json, opt_receipt, pairs, pairs_text, preflight_ready, receipts_json, receipts_text, received, show_pairs, show_receipts, ChapterModel, ChapterRecord, ChapterRun, ChapterState, CorrectionReceipt, CostConfirmationRequired, CostStatus, Received, RunRecord, TraceModel, WorkflowTrace};
use crate::session::SessionEvent;
use crate::table::{has_key, lookup, put, Entries, Table};
use crate::text::{concat2, concat3, decimal, decode, join, join_texts, size_text, str_eq, text_of, texts, utf8};
use crate::workflow::{budget_error, is_outdated, model_error, model_error_text, received_by, refreshed_model, request_reserved, role_request, run_wf, state_label, with_chapter, without_findings, PaidRequest, RunController, RunModel, SessionEntry};
use crate::copycheck::{scan_error_text, scan_near_copy, scan_result, source_models, AllowedSource, CopyFinding, CopyPolicy, ScanErrorModel, SourceModel};
use crate::json::{json_quote, json_string};
use crate::paths::{copy_bytes, files, FileEntry, FileModel};
use crate::project::{Project};
use crate::validation::{change_verdict, validate_changeset, ProjectSnapshot};

verus! {

/// The scenes of a chapter, from a position on, added to some.
pub open spec fn chapter_scenes(
    scenes: Seq<StoryScene>,
    chapter_id: Seq<char>,
    i: int,
    found: Entries<Seq<char>>,
) -> Entries<Seq<char>>
    decreases scenes.len() - i,
{
    if i < 0 || i >= scenes.len() {
        found
    } else if scenes[i].chapter_id@ == chapter_id {
        chapter_scenes(scenes, chapter_id, i + 1, put(found, scenes[i].id@, scenes[i].id@))
    } else {
        chapter_scenes(scenes, chapter_id, i + 1, found)
    }
}

/// Whether a scene has a box.
pub open spec fn has_box(boxes: Seq<StoryBox>, scene: Seq<char>) -> bool {
    exists|i: int| 0 <= i < boxes.len() && #[trigger] boxes[i].scene_id@ == scene
}

/// Whether a beat links a scene.
pub open spec fn has_link(beats: Seq<MacroBeat>, scene: Seq<char>) -> bool {
    exists|i: int| 0 <= i < beats.len() && #[trigger] texts(beats[i].scene_ids@).contains(scene)
}

/// What is missing for the scenes of a chapter, from a position on.
pub open spec fn scenes_error(
    structure: StoryStructure,
    scenes: Entries<Seq<char>>,
    i: int,
) -> Option<Seq<char>>
    decreases scenes.len() - i,
{
    if i < 0 || i >= scenes.len() {
        None
    } else if !has_box(structure.boxes@, scenes[i].0) {
        Some("scene "@ + scenes[i].0 + " has no approved box link"@)
    } else if !has_link(structure.macro_beats@, scenes[i].0) {
        Some("scene "@ + scenes[i].0 + " has no approved macro link"@)
    } else {
        scenes_error(structure, scenes, i + 1)
    }
}

/// Whether a structure has a chapter.
pub open spec fn has_chapter(chapters: Seq<StoryChapter>, id: Seq<char>) -> bool {
    exists|i: int| 0 <= i < chapters.len() && #[trigger] chapters[i].id@ == id
}

/// What a structure lacks for a chapter.
pub open spec fn plan_error(structure: StoryStructure, chapter_id: Seq<char>) -> Option<Seq<char>> {
    let scenes = chapter_scenes(structure.scenes@, chapter_id, 0, Seq::empty());
    match structure_error(structure) {
        Some(error) => Some(error),
        None => if structure.scenes@.len() == 0 || structure.boxes@.len() == 0
            || structure.macro_beats@.len() == 0 {
            Some("approved scene, box, and macro structure links are required"@)
        } else if !has_chapter(structure.chapters@, chapter_id) {
            Some("chapter "@ + chapter_id + " is not present in the approved story structure"@)
        } else if scenes.len() == 0 {
            Some("chapter "@ + chapter_id + " has no approved scenes"@)
        } else {
            scenes_error(structure, scenes, 0)
        },
    }
}

/// What is missing before a chapter may be written.
pub open spec fn preflight_error(m: RunModel, chapter_id: Seq<char>) -> Option<Seq<char>> {
    if !m.strict_preflight {
        None
    } else if !preflight_ready(m.preflight) {
        Some("approved scene, box, and macro plans are required"@)
    } else if !m.structure_required {
        None
    } else {
        match m.structure {
            None => Some("an approved story structure is required"@),
            Some(structure) => match plan_error(structure, chapter_id) {
                Some(error) => Some(error),
                None => if m.plot_framework is None {
                    Some("a declarative plot framework is required"@)
                } else {
                    None
                },
            },
        }
    }
}

/// The requests that a chapter may need: plan, draft, reviews, and for each revision the revision
/// and its reviews.
pub open spec fn maximum_calls(max_revisions: usize) -> int {
    let calls = 8 + max_revisions * 7;
    if calls > usize::MAX {
        usize::MAX as int
    } else {
        calls
    }
}

/// Why a chapter is not written.
#[derive(Debug)]
pub enum WriteError {
    /// It may not be written.
    Refused(String),
    /// A human must agree to the cost first.
    Confirm(CostConfirmationRequired),
}

/// Why a chapter is not written, by views.
pub enum WriteRefusal {
    Refused(Seq<char>),
    Confirm(Seq<char>, u64),
}

impl View for WriteError {
    type V = WriteRefusal;

    open spec fn view(&self) -> WriteRefusal {
        match self {
            WriteError::Refused(text) => WriteRefusal::Refused(text@),
            WriteError::Confirm(required) => WriteRefusal::Confirm(required@.0, required@.1),
        }
    }
}

impl WriteError {
    /// Returns the message.
    pub fn to_text(&self) -> (r: String)
        ensures
            match self@ {
                WriteRefusal::Refused(text) => r@ == text,
                WriteRefusal::Confirm(_, cost) => r@
                    == "estimated chapter cost exceeds $5; explicit confirmation is required before model request ("@
                    + decimal(cost as nat) + " microdollars)"@,
            },
    {
        match self {
            WriteError::Refused(text) => text.clone(),
            WriteError::Confirm(required) => required.to_text(),
        }
    }
}

/// Why a chapter is not written: a plan or a price is missing, it may cost more than $10, or more
/// than $5 without the consent of a human.
pub open spec fn write_refusal(m: RunModel, chapter_id: Seq<char>) -> Option<WriteRefusal> {
    match preflight_error(m, chapter_id) {
        Some(error) => Some(WriteRefusal::Refused(error)),
        None => match m.request_maximum {
            None => Some(
                WriteRefusal::Refused("unknown model price; generation is stopped"@),
            ),
            Some(maximum) => {
                let estimated = maximum@ * maximum_calls(m.max_revisions);
                if estimated > u64::MAX {
                    Some(WriteRefusal::Refused("chapter cost arithmetic overflow"@))
                } else if estimated > 10_000_000 {
                    Some(
                        WriteRefusal::Refused(
                            "chapter budget hard stop at $10 before model reservation"@,
                        ),
                    )
                } else if !m.cost_warning_confirmed && estimated > 5_000_000 {
                    Some(WriteRefusal::Confirm(chapter_id, estimated as u64))
                } else {
                    None
                }
            },
        },
    }
}

/// The message about a run whose state must be restored by hand.
pub open spec fn recovery_message() -> Seq<char> {
    "durable checkpoint requires in-memory state reconstruction; manual resolution is required"@
}

/// A run once the consent of a human to the cost of a chapter is used up.
pub open spec fn consent_used(m: RunModel) -> RunModel {
    RunModel { cost_warning_confirmed: false, ..m }
}

fn box_exists(boxes: &[StoryBox], scene: &str) -> (r: bool)
    ensures
        r == has_box(boxes@, scene@),
{
    let mut i: usize = 0;
    while i < boxes.len()
        invariant
            i <= boxes@.len(),
            forall|k: int| 0 <= k < i ==> #[trigger] boxes@[k].scene_id@ != scene@,
        decreases boxes@.len() - i,
    {
        if str_eq(boxes[i].scene_id.as_str(), scene) {
            assert(boxes@[i as int].scene_id@ == scene@);
            return true;
        }
        i += 1;
    }
    false
}

fn link_exists(beats: &[MacroBeat], scene: &str) -> (r: bool)
    ensures
        r == has_link(beats@, scene@),
{
    let mut i: usize = 0;
    while i < beats.len()
        invariant
            i <= beats@.len(),
            forall|k: int|
                0 <= k < i ==> !#[trigger] texts(beats@[k].scene_ids@).contains(scene@),
        decreases beats@.len() - i,
    {
        proof {
            crate::text::lemma_has_text(beats@[i as int].scene_ids@, scene@);
        }
        if crate::text::contains_text(beats[i].scene_ids.as_slice(), scene) {
            assert(texts(beats@[i as int].scene_ids@).contains(scene@));
            return true;
        }
        i += 1;
    }
    false
}

fn chapter_exists(chapters: &[StoryChapter], id: &str) -> (r: bool)
    ensures
        r == has_chapter(chapters@, id@),
{
    let mut i: usize = 0;
    while i < chapters.len()
        invariant
            i <= chapters@.len(),
            forall|k: int| 0 <= k < i ==> #[trigger] chapters@[k].id@ != id@,
        decreases chapters@.len() - i,
    {
        if str_eq(chapters[i].id.as_str(), id) {
            assert(chapters@[i as int].id@ == id@);
            return true;
        }
        i += 1;
    }
    false
}

fn scenes_of(scenes: &[StoryScene], chapter_id: &str) -> (r: Table<String>)
    ensures
        r@ == chapter_scenes(scenes@, chapter_id@, 0, Seq::empty()),
{
    let mut found: Table<String> = Table::new();
    let mut i: usize = 0;
    while i < scenes.len()
        invariant
            i <= scenes@.len(),
            chapter_scenes(scenes@, chapter_id@, 0, Seq::empty()) == chapter_scenes(
                scenes@,
                chapter_id@,
                i as int,
                found@,
            ),
        decreases scenes@.len() - i,
    {
        if str_eq(scenes[i].chapter_id.as_str(), chapter_id) {
            found.insert(scenes[i].id.clone(), scenes[i].id.clone());
        }
        i += 1;
    }
    found
}

fn check_plan(structure: &StoryStructure, chapter_id: &str) -> (r: Result<(), String>)
    ensures
        match plan_error(*structure, chapter_id@) {
            Some(error) => r is Err && r->Err_0@ == error,
            None => r is Ok,
        },
{
    match validate_structure(structure) {
        Err(error) => {
            return Err(error);
        },
        Ok(()) => {},
    }
    if structure.scenes.len() == 0 || structure.boxes.len() == 0 || structure.macro_beats.len()
        == 0 {
        return Err("approved scene, box, and macro structure links are required".to_owned());
    }
    if !chapter_exists(structure.chapters.as_slice(), chapter_id) {
        return Err(
            concat3("chapter ", chapter_id, " is not present in the approved story structure"),
        );
    }
    let scenes = scenes_of(structure.scenes.as_slice(), chapter_id);
    if scenes.len() == 0 {
        return Err(concat3("chapter ", chapter_id, " has no approved scenes"));
    }
    let mut i: usize = 0;
    while i < scenes.len()
        invariant
            i <= scenes@.len(),
            scenes@.len() > 0,
            scenes@ == chapter_scenes(structure.scenes@, chapter_id@, 0, Seq::empty()),
            structure_error(*structure) is None,
            structure.scenes@.len() > 0,
            structure.boxes@.len() > 0,
            structure.macro_beats@.len() > 0,
            has_chapter(structure.chapters@, chapter_id@),
            scenes_error(*structure, scenes@, 0) == scenes_error(*structure, scenes@, i as int),
        decreases scenes@.len() - i,
    {
        let scene = scenes.key(i);
        if !box_exists(structure.boxes.as_slice(), scene) {
            return Err(concat3("scene ", scene, " has no approved box link"));
        }
        if !link_exists(structure.macro_beats.as_slice(), scene) {
            return Err(concat3("scene ", scene, " has no approved macro link"));
        }
        i += 1;
    }
    Ok(())
}

impl RunController {
    fn check_preflight(&self, chapter_id: &str) -> (r: Result<(), String>)
        ensures
            match preflight_error(self@, chapter_id@) {
                Some(error) => r is Err && r->Err_0@ == error,
                None => r is Ok,
            },
    {
        if !self.strict_preflight {
            return Ok(());
        }
        if !self.preflight.is_ready() {
            return Err("approved scene, box, and macro plans are required".to_owned());
        }
        if !self.structure_required {
            return Ok(());
        }
        match &self.structure {
            None => Err("an approved story structure is required".to_owned()),
            Some(structure) => {
                match check_plan(structure, chapter_id) {
                    Err(error) => {
                        return Err(error);
                    },
                    Ok(()) => {},
                }
                if self.plot_framework.is_none() {
                    return Err("a declarative plot framework is required".to_owned());
                }
                Ok(())
            },
        }
    }

    /// Decides whether plans, price and cost let a chapter be written.
    pub fn authorize_chapter(&self, chapter_id: &str) -> (r: Result<(), WriteError>)
        ensures
            match write_refusal(self@, chapter_id@) {
                Some(refusal) => r is Err && r->Err_0@ == refusal,
                None => r is Ok,
            },
    {
        match self.check_preflight(chapter_id) {
            Err(error) => {
                return Err(WriteError::Refused(error));
            },
            Ok(()) => {},
        }
        let maximum: u64 = match self.request_maximum {
            None => {
                return Err(
                    WriteError::Refused("unknown model price; generation is stopped".to_owned()),
                );
            },
            Some(maximum) => maximum.as_u64(),
        };
        let calls: usize = if self.max_revisions > (usize::MAX - 8) / 7 {
            usize::MAX
        } else {
            8 + self.max_revisions * 7
        };
        assert(calls == maximum_calls(self.max_revisions));
        proof {
            assert(maximum as int * calls as int <= 0xffff_ffff_ffff_ffff * 0xffff_ffff_ffff_ffff)
                by (nonlinear_arith)
                requires
                    0 <= maximum <= 0xffff_ffff_ffff_ffff,
                    0 <= calls <= 0xffff_ffff_ffff_ffff,
            ;
        }
        let total: u128 = maximum as u128 * calls as u128;
        if total > u64::MAX as u128 {
            return Err(WriteError::Refused("chapter cost arithmetic overflow".to_owned()));
        }
        let estimated: u64 = total as u64;
        if estimated > 10_000_000 {
            return Err(
                WriteError::Refused(
                    "chapter budget hard stop at $10 before model reservation".to_owned(),
                ),
            );
        }
        if !self.cost_warning_confirmed && estimated > 5_000_000 {
            return Err(
                WriteError::Confirm(
                    CostConfirmationRequired::new(
                        chapter_id.to_owned(),
                        MicroDollars::new(estimated),
                    ),
                ),
            );
        }
        Ok(())
    }

    /// Uses up the consent of a human to the cost of a chapter.
    pub fn use_cost_consent(&mut self)
        ensures
            final(self)@ == consent_used(old(self)@),
    {
        self.cost_warning_confirmed = false;
    }

    /// Returns the event that goes before the writing of a chapter.
    pub fn instruct_chapter(&self, chapter_id: &str) -> (r: Result<SessionEvent, String>)
        ensures
            if self@.recovery_required {
                r is Err && r->Err_0@ == recovery_message()
            } else {
                r is Ok && (r->Ok_0 matches SessionEvent::UserInstruction { text } && text@
                    == "write chapter "@ + chapter_id@)
            },
    {
        if self.recovery_required {
            return Err(
                "durable checkpoint requires in-memory state reconstruction; manual resolution is required".to_owned(),
            );
        }
        Ok(SessionEvent::UserInstruction { text: concat2("write chapter ", chapter_id) })
    }
}

/// Where the work on a chapter stands.
#[derive(Clone, Copy, Debug, PartialEq, Eq, Structural)]
pub enum Phase {
    /// The architect is asked.
    Planning,
    /// The context of the writer is compiled.
    WriterContext,
    /// The writer is asked.
    Writing,
    /// The candidate files are prepared.
    Preparing,
    /// The contexts of some critics are compiled.
    CriticContexts,
    /// Some critics are asked.
    Reviewing,
    /// The context of the reviser is compiled.
    ReviserContext,
    /// The reviser is asked.
    Revising,
    /// The candidate files are brought up to date.
    Updating,
    /// The candidate is done.
    Checked,
}

/// The work on a chapter.
pub struct ChapterWork {
    chapter_id: String,
    order: u32,
    phase: Phase,
    trace: WorkflowTrace,
    plan: String,
    context: String,
    receipt: Option<ContextReceipt>,
    canon_hashes: Vec<(String, String)>,
    canon_texts: Vec<(String, String)>,
    corrections: Vec<CorrectionReceipt>,
    role_receipts: Table<ContextReceipt>,
    changeset_id: EntityId,
    chapter_entity: EntityId,
    dependencies: Vec<ChangesetDependency>,
    prepared: Option<PreparedChange>,
    candidate_hash: String,
    candidate_text: String,
    findings: Vec<Finding>,
    batch: Vec<AgentRole>,
    remaining: Vec<AgentRole>,
    failing: Vec<AgentRole>,
    contexts: Vec<String>,
    rerun: bool,
    revisions_left: usize,
}

/// The work on a chapter by the views of its parts.
pub struct WorkModel {
    pub chapter_id: Seq<char>,
    pub order: u32,
    pub phase: Phase,
    pub trace: TraceModel,
    /// Plan of the architect.
    pub plan: Seq<char>,
    /// Context of the writer.
    pub context: Seq<char>,
    pub receipt: Option<ReceiptModel>,
    pub canon_hashes: Seq<(Seq<char>, Seq<char>)>,
    pub canon_texts: Seq<(Seq<char>, Seq<char>)>,
    pub corrections: Seq<Received>,
    pub role_receipts: Entries<ReceiptModel>,
    pub changeset_id: Seq<char>,
    pub chapter_entity: Seq<char>,
    pub dependencies: Seq<DependencyModel>,
    pub prepared: Option<PreparedModel>,
    pub candidate_hash: Seq<char>,
    pub candidate_text: Seq<char>,
    pub findings: Seq<FindingModel>,
    /// Critics at work.
    pub batch: Seq<AgentRole>,
    /// Critics that come after them.
    pub remaining: Seq<AgentRole>,
    /// Critics that found something that blocks.
    pub failing: Seq<AgentRole>,
    /// Contexts of the agents at work.
    pub contexts: Seq<Seq<char>>,
    /// Whether critics review a revision.
    pub rerun: bool,
    pub revisions_left: usize,
}

/// The view of an optional prepared changeset.
pub open spec fn opt_prepared(item: Option<PreparedChange>) -> Option<PreparedModel> {
    match item {
        Some(prepared) => Some(prepared@),
        None => None,
    }
}

impl View for ChapterWork {
    type V = WorkModel;

    closed spec fn view(&self) -> WorkModel {
        WorkModel {
            chapter_id: self.chapter_id@,
            order: self.order,
            phase: self.phase,
            trace: self.trace@,
            plan: self.plan@,
            context: self.context@,
            receipt: opt_receipt(self.receipt),
            canon_hashes: pairs(self.canon_hashes@),
            canon_texts: pairs(self.canon_texts@),
            corrections: received(self.corrections@),
            role_receipts: self.role_receipts@,
            changeset_id: self.changeset_id@,
            chapter_entity: self.chapter_entity@,
            dependencies: dependency_models(self.dependencies@),
            prepared: opt_prepared(self.prepared),
            candidate_hash: self.candidate_hash@,
            candidate_text: self.candidate_text@,
            findings: finding_models(self.findings@),
            batch: self.batch@,
            remaining: self.remaining@,
            failing: self.failing@,
            contexts: texts(self.contexts@),
            rerun: self.rerun,
            revisions_left: self.revisions_left,
        }
    }
}

/// Bounds on the work on a chapter: at most two revisions, at most three critics at once, and at
/// most three rounds of six reviews.
pub open spec fn work_wf(w: WorkModel) -> bool {
    let waiting = if w.phase == Phase::CriticContexts {
        w.batch.len() as int
    } else {
        0
    };
    let reviewing = if w.phase == Phase::CriticContexts || w.phase == Phase::Reviewing {
        w.batch.len() as int
    } else {
        0
    };
    &&& w.batch.len() <= 3
    &&& w.trace.reviser_calls + w.revisions_left <= 2
    &&& w.trace.reviser_calls >= 0
    &&& w.trace.critic_calls >= 0
    &&& w.trace.critic_calls + waiting + w.remaining.len() + 6 * w.revisions_left <= 18
    &&& w.failing.len() + reviewing + w.remaining.len() <= 6
    &&& w.phase == Phase::Reviewing ==> w.contexts.len() == w.batch.len()
    &&& w.phase == Phase::Revising ==> w.contexts.len() == 1
    &&& w.phase != Phase::CriticContexts && w.phase != Phase::Reviewing ==> w.remaining.len() == 0
    &&& w.phase == Phase::Planning || w.phase == Phase::WriterContext || w.phase == Phase::Writing
        || w.phase == Phase::Preparing ==> w.failing.len() == 0 && w.trace.critic_calls == 0
    &&& w.phase == Phase::ReviserContext || w.phase == Phase::Revising || w.phase
        == Phase::Updating ==> w.trace.critic_calls + 6 + 6 * w.revisions_left <= 18
}

/// The context of an agent and what it was compiled from.
pub struct RoleContext {
    /// Text.
    pub text: String,
    /// What it was compiled from.
    pub receipt: Option<ContextReceipt>,
}

/// The text of a context and what it was compiled from.
pub type ContextModel = (Seq<char>, Option<ReceiptModel>);

impl View for RoleContext {
    type V = ContextModel;

    open spec fn view(&self) -> ContextModel {
        (self.text@, opt_receipt(self.receipt))
    }
}

/// The views of contexts.
pub open spec fn context_models(items: Seq<RoleContext>) -> Seq<ContextModel> {
    items.map_values(|item: RoleContext| item@)
}

/// What happened outside.
pub enum WorkEvent {
    /// Models answered, or failed to, in the order of the requests.
    Replies(Vec<ModelResult<ModelResponse>>),
    /// Contexts were compiled in the order of the roles, or could not be.
    Contexts(Result<Vec<RoleContext>, String>),
    /// The candidate files are in place; without a project there are none.
    Prepared(Vec<ChangesetDependency>, Option<PreparedChange>),
}

/// Whether an event is an answer to what a phase asks for.
pub open spec fn event_fits(w: WorkModel, event: WorkEvent) -> bool {
    match event {
        WorkEvent::Replies(list) => match w.phase {
            Phase::Planning => list@.len() == 1,
            Phase::Writing => list@.len() == 1,
            Phase::Reviewing => list@.len() == w.batch.len(),
            Phase::Revising => list@.len() == 1,
            _ => false,
        },
        WorkEvent::Contexts(Ok(list)) => match w.phase {
            Phase::WriterContext => list@.len() == 1,
            Phase::CriticContexts => list@.len() == w.batch.len(),
            Phase::ReviserContext => list@.len() == 1,
            _ => false,
        },
        WorkEvent::Contexts(Err(_)) => w.phase == Phase::WriterContext || w.phase
            == Phase::CriticContexts || w.phase == Phase::ReviserContext,
        WorkEvent::Prepared(_, _) => w.phase == Phase::Preparing || w.phase == Phase::Updating,
    }
}

/// The text of an answer: nothing where a failure is ignored.
pub open spec fn reply_text(strict: bool, reply: ModelResult<ModelResponse>) -> Result<
    Seq<char>,
    Seq<char>,
> {
    match reply {
        Ok(response) => Ok(response.text@),
        Err(failure) => if !strict && failure@.0 == ModelFailureClass::Stopped {
            Ok(Seq::empty())
        } else {
            Err(model_error_text(failure@))
        },
    }
}

/// The candidates of the chapters before a position, for the first chapters.
pub open spec fn earlier_canon(
    chapters: Entries<ChapterModel>,
    canon: Entries<Seq<char>>,
    order: u32,
    i: int,
) -> Seq<(Seq<char>, Seq<char>)>
    decreases i,
{
    if i <= 0 {
        Seq::empty()
    } else {
        let before = earlier_canon(chapters, canon, order, i - 1);
        let chapter = chapters[i - 1].1;
        match lookup(canon, chapter.id) {
            Some(value) => if chapter.order < order {
                before.push((chapter.id, value))
            } else {
                before
            },
            None => before,
        }
    }
}

/// The work once the plan is there.
pub open spec fn planned(m: RunModel, w: WorkModel, plan: Seq<char>) -> WorkModel {
    let n = m.chapters.len() as int;
    WorkModel {
        plan: plan,
        trace: TraceModel { roles: w.trace.roles.push(AgentRole::Writer), ..w.trace },
        canon_hashes: earlier_canon(m.chapters, m.canon_hashes, w.order, n),
        canon_texts: earlier_canon(m.chapters, m.canon_texts, w.order, n),
        corrections: received_by(m, w.chapter_id),
        phase: Phase::WriterContext,
        ..w
    }
}

/// The receipts of roles with that of one more role.
pub open spec fn with_receipt(
    table: Entries<ReceiptModel>,
    role: AgentRole,
    receipt: Option<ReceiptModel>,
) -> Entries<ReceiptModel> {
    match receipt {
        Some(value) => put(table, role_name(role), value),
        None => table,
    }
}

/// The receipts of roles with those of a batch from a position on.
pub open spec fn with_receipts(
    table: Entries<ReceiptModel>,
    batch: Seq<AgentRole>,
    list: Seq<ContextModel>,
    i: int,
) -> Entries<ReceiptModel>
    decreases batch.len() - i,
{
    if i < 0 || i >= batch.len() {
        table
    } else {
        with_receipts(with_receipt(table, batch[i], list[i].1), batch, list, i + 1)
    }
}

/// The work once the writer has a context.
pub open spec fn writer_ready(w: WorkModel, context: ContextModel) -> WorkModel {
    WorkModel {
        context: context.0,
        receipt: context.1,
        role_receipts: with_receipt(w.role_receipts, AgentRole::Writer, context.1),
        trace: TraceModel { writer_calls: 1, ..w.trace },
        phase: Phase::Writing,
        ..w
    }
}

/// The work once the candidate files are in place.
pub open spec fn draft_prepared(
    w: WorkModel,
    dependencies: Seq<DependencyModel>,
    prepared: Option<PreparedModel>,
) -> WorkModel {
    next_batch(
        WorkModel {
            dependencies: dependencies,
            prepared: prepared,
            candidate_hash: match prepared {
                Some(change) => change.candidate_hash,
                None => digest_text(utf8(w.candidate_text)),
            },
            trace: TraceModel { max_parallel_critics: 3, ..w.trace },
            remaining: critics(),
            ..w
        },
    )
}

/// The work with the next critics, or with a decision where all have answered.
pub open spec fn next_batch(w: WorkModel) -> WorkModel {
    let n = if w.remaining.len() < 3 {
        w.remaining.len() as int
    } else {
        3
    };
    if w.remaining.len() == 0 {
        decided(WorkModel { batch: Seq::empty(), ..w })
    } else {
        WorkModel {
            batch: w.remaining.take(n),
            remaining: w.remaining.skip(n),
            phase: Phase::CriticContexts,
            ..w
        }
    }
}

/// The work with another revision where something blocks and one is left, and else done.
pub open spec fn decided(w: WorkModel) -> WorkModel {
    if w.revisions_left > 0 && any_blocks(w.findings, w.candidate_hash) {
        WorkModel {
            phase: Phase::ReviserContext,
            trace: TraceModel {
                roles: w.trace.roles.push(AgentRole::Reviser),
                reviser_calls: w.trace.reviser_calls + 1,
                ..w.trace
            },
            revisions_left: (w.revisions_left - 1) as usize,
            ..w
        }
    } else {
        done(w)
    }
}

/// The work once the candidate is done.
pub open spec fn done(w: WorkModel) -> WorkModel {
    WorkModel {
        phase: Phase::Checked,
        trace: TraceModel {
            roles: w.trace.roles.push(AgentRole::Validator),
            validator_calls: 1,
            ..w.trace
        },
        ..w
    }
}

/// The work once some critics have their contexts.
pub open spec fn critics_ready(w: WorkModel, list: Seq<ContextModel>) -> WorkModel {
    WorkModel {
        contexts: list.map_values(|context: ContextModel| context.0),
        role_receipts: with_receipts(w.role_receipts, w.batch, list, 0),
        trace: TraceModel {
            roles: w.trace.roles + w.batch,
            critic_calls: w.trace.critic_calls + w.batch.len(),
            ..w.trace
        },
        phase: Phase::Reviewing,
        ..w
    }
}

/// Findings and failing critics once the answers of a batch from a position on were read.
pub open spec fn reviews_read(
    w: WorkModel,
    strict: bool,
    replies: Seq<ModelResult<ModelResponse>>,
    i: int,
) -> Result<WorkModel, Seq<char>>
    decreases replies.len() - i,
{
    if i < 0 || i >= replies.len() {
        Ok(w)
    } else {
        match replies[i] {
            Err(failure) => if !strict && failure@.0 == ModelFailureClass::Stopped {
                reviews_read(w, strict, replies, i + 1)
            } else {
                Err(model_error_text(failure@))
            },
            Ok(response) => match findings_of(
                response.text@,
                w.batch[i],
                w.candidate_hash,
                w.candidate_text,
            ) {
                Err(error) => Err(error),
                Ok(list) => reviews_read(
                    WorkModel {
                        findings: w.findings + list,
                        failing: if any_blocks(list, w.candidate_hash) {
                            w.failing.push(w.batch[i])
                        } else {
                            w.failing
                        },
                        ..w
                    },
                    strict,
                    replies,
                    i + 1,
                ),
            },
        }
    }
}

/// The work once the reviser has a context.
pub open spec fn reviser_ready(w: WorkModel, context: ContextModel) -> WorkModel {
    WorkModel {
        contexts: seq![context.0],
        role_receipts: with_receipt(w.role_receipts, AgentRole::Reviser, context.1),
        phase: Phase::Revising,
        ..w
    }
}

/// The work once the reviser answered: a text replaces the candidate and its findings, an empty
/// one changes nothing, and a failure that is ignored ends the revisions.
pub open spec fn revised(strict: bool, w: WorkModel, reply: ModelResult<ModelResponse>) -> Result<
    WorkModel,
    Seq<char>,
> {
    match reply {
        Ok(response) => if response.text@.len() > 0 {
            Ok(
                WorkModel {
                    candidate_text: response.text@,
                    findings: Seq::empty(),
                    phase: Phase::Updating,
                    ..w
                },
            )
        } else {
            Ok(decided(w))
        },
        Err(failure) => if !strict && failure@.0 == ModelFailureClass::Stopped {
            Ok(done(w))
        } else {
            Err(model_error_text(failure@))
        },
    }
}

/// The work once the revised candidate files are in place: the critics that failed review again.
pub open spec fn revision_prepared(w: WorkModel, prepared: Option<PreparedModel>) -> WorkModel {
    next_batch(
        WorkModel {
            prepared: match prepared {
                Some(change) => Some(change),
                None => w.prepared,
            },
            candidate_hash: match prepared {
                Some(change) => change.candidate_hash,
                None => digest_text(utf8(w.candidate_text)),
            },
            remaining: w.failing,
            failing: Seq::empty(),
            rerun: true,
            ..w
        },
    )
}

/// The work after an event.
pub open spec fn next_work(m: RunModel, w: WorkModel, event: WorkEvent) -> Result<
    WorkModel,
    Seq<char>,
> {
    match event {
        WorkEvent::Replies(list) => match w.phase {
            Phase::Planning => match reply_text(m.strict_backend_errors, list@[0]) {
                Ok(plan) => Ok(planned(m, w, plan)),
                Err(error) => Err(error),
            },
            Phase::Writing => match reply_text(m.strict_backend_errors, list@[0]) {
                Ok(text) => Ok(
                    WorkModel { candidate_text: text, phase: Phase::Preparing, ..w },
                ),
                Err(error) => Err(error),
            },
            Phase::Reviewing => match reviews_read(w, m.strict_backend_errors, list@, 0) {
                Ok(next) => Ok(next_batch(next)),
                Err(error) => Err(error),
            },
            _ => revised(m.strict_backend_errors, w, list@[0]),
        },
        WorkEvent::Contexts(Err(error)) => Err("context compilation stopped: "@ + error@),
        WorkEvent::Contexts(Ok(list)) => Ok(
            match w.phase {
                Phase::WriterContext => writer_ready(w, context_models(list@)[0]),
                Phase::CriticContexts => critics_ready(w, context_models(list@)),
                _ => reviser_ready(w, context_models(list@)[0]),
            },
        ),
        WorkEvent::Prepared(dependencies, prepared) => Ok(
            match w.phase {
                Phase::Preparing => draft_prepared(
                    w,
                    dependency_models(dependencies@),
                    opt_prepared(prepared),
                ),
                _ => revision_prepared(w, opt_prepared(prepared)),
            },
        ),
    }
}

/// The run after an event: a revision removes the findings about the chapter.
pub open spec fn next_run(m: RunModel, w: WorkModel, event: WorkEvent) -> RunModel {
    match event {
        WorkEvent::Replies(list) => if w.phase == Phase::Revising && (list@[0] matches Ok(response)
            && response.text@.len() > 0) {
            without_findings(m, w.chapter_id)
        } else {
            m
        },
        _ => m,
    }
}

fn read_reply(strict: bool, reply: &ModelResult<ModelResponse>) -> (r: Result<String, String>)
    ensures
        match reply_text(strict, *reply) {
            Ok(text) => r is Ok && r->Ok_0@ == text,
            Err(error) => r is Err && r->Err_0@ == error,
        },
{
    match reply {
        Ok(response) => Ok(response.text.clone()),
        Err(failure) => {
            if !strict && failure.class() == ModelFailureClass::Stopped {
                Ok(String::new())
            } else {
                Err(model_error(failure))
            }
        },
    }
}

fn canon_before(
    chapters: &Table<ChapterRecord>,
    canon: &Table<String>,
    order: u32,
) -> (r: Vec<(String, String)>)
    ensures
        pairs(r@) == earlier_canon(chapters@, canon@, order, chapters@.len() as int),
{
    let mut out: Vec<(String, String)> = Vec::new();
    let mut i: usize = 0;
    assert(pairs(out@) =~= earlier_canon(chapters@, canon@, order, 0));
    while i < chapters.len()
        invariant
            i <= chapters@.len(),
            pairs(out@) == earlier_canon(chapters@, canon@, order, i as int),
        decreases chapters@.len() - i,
    {
        let chapter = chapters.value(i);
        if chapter.order < order {
            if let Some(value) = canon.get(chapter.id.as_str()) {
                let ghost before = pairs(out@);
                out.push((chapter.id.clone(), value.clone()));
                assert(pairs(out@) =~= before.push((chapter.id@, value@)));
            }
        }
        i += 1;
    }
    out
}

fn split_batch(remaining: &[AgentRole]) -> (r: (Vec<AgentRole>, Vec<AgentRole>))
    ensures
        ({
            let n = if remaining@.len() < 3 {
                remaining@.len() as int
            } else {
                3
            };
            r.0@ == remaining@.take(n) && r.1@ == remaining@.skip(n)
        }),
{
    let total: usize = remaining.len();
    let n: usize = if total < 3 {
        total
    } else {
        3
    };
    let mut batch: Vec<AgentRole> = Vec::new();
    let mut rest: Vec<AgentRole> = Vec::new();
    let mut i: usize = 0;
    while i < total
        invariant
            i <= total,
            n <= total,
            total == remaining@.len(),
            batch@ == remaining@.take(if i < n {
                i as int
            } else {
                n as int
            }),
            rest@ == remaining@.subrange(n as int, if i < n {
                n as int
            } else {
                i as int
            }),
        decreases total - i,
    {
        if i < n {
            batch.push(remaining[i]);
            assert(batch@ =~= remaining@.take(i + 1));
            assert(rest@ =~= remaining@.subrange(n as int, n as int));
        } else {
            rest.push(remaining[i]);
            assert(rest@ =~= remaining@.subrange(n as int, i + 1));
        }
        i += 1;
    }
    assert(rest@ =~= remaining@.skip(n as int));
    assert(batch@ =~= remaining@.take(n as int));
    (batch, rest)
}

impl ChapterWork {
    /// The bounds that the work keeps.
    pub open spec fn wf(&self) -> bool {
        work_wf(self@)
    }

    /// Returns whether an event is an answer to what the work asks for.
    pub fn accepts(&self, event: &WorkEvent) -> (r: bool)
        ensures
            r == event_fits(self@, *event),
    {
        match event {
            WorkEvent::Replies(list) => match self.phase {
                Phase::Planning => list.len() == 1,
                Phase::Writing => list.len() == 1,
                Phase::Reviewing => list.len() == self.batch.len(),
                Phase::Revising => list.len() == 1,
                _ => false,
            },
            WorkEvent::Contexts(Ok(list)) => match self.phase {
                Phase::WriterContext => list.len() == 1,
                Phase::CriticContexts => list.len() == self.batch.len(),
                Phase::ReviserContext => list.len() == 1,
                _ => false,
            },
            WorkEvent::Contexts(Err(_)) => match self.phase {
                Phase::WriterContext => true,
                Phase::CriticContexts => true,
                Phase::ReviserContext => true,
                _ => false,
            },
            WorkEvent::Prepared(_, _) => match self.phase {
                Phase::Preparing => true,
                Phase::Updating => true,
                _ => false,
            },
        }
    }

    /// Returns where the work stands.
    pub fn phase(&self) -> (r: Phase)
        ensures
            r == self@.phase,
    {
        self.phase
    }

    /// Returns the chapter.
    pub fn chapter_id(&self) -> (r: &str)
        ensures
            r@ == self@.chapter_id,
    {
        self.chapter_id.as_str()
    }

    fn finish_work(&mut self)
        ensures
            final(self)@ == done(old(self)@),
    {
        self.trace.roles.push(AgentRole::Validator);
        self.trace.validator_calls = 1;
        self.phase = Phase::Checked;
    }

    fn decide(&mut self)
        requires
            old(self)@.remaining.len() == 0,
            old(self)@.batch.len() <= 3,
            old(self)@.trace.reviser_calls + old(self)@.revisions_left <= 2,
            old(self)@.trace.reviser_calls >= 0,
            old(self)@.trace.critic_calls >= 0,
            old(self)@.trace.critic_calls + 6 * old(self)@.revisions_left <= 18,
            old(self)@.failing.len() <= 6,
        ensures
            final(self)@ == decided(old(self)@),
            work_wf(final(self)@),
    {
        if self.revisions_left > 0 && blocked(
            self.findings.as_slice(),
            self.candidate_hash.as_str(),
        ) {
            self.trace.roles.push(AgentRole::Reviser);
            self.trace.reviser_calls = self.trace.reviser_calls + 1;
            self.revisions_left = self.revisions_left - 1;
            self.phase = Phase::ReviserContext;
        } else {
            self.finish_work();
        }
    }

    fn start_batch(&mut self)
        requires
            old(self)@.trace.reviser_calls + old(self)@.revisions_left <= 2,
            old(self)@.trace.reviser_calls >= 0,
            old(self)@.trace.critic_calls >= 0,
            old(self)@.trace.critic_calls + old(self)@.remaining.len() + 6
                * old(self)@.revisions_left <= 18,
            old(self)@.failing.len() + old(self)@.remaining.len() <= 6,
        ensures
            final(self)@ == next_batch(old(self)@),
            work_wf(final(self)@),
    {
        if self.remaining.len() == 0 {
            self.batch = Vec::new();
            assert(self@ == (WorkModel { batch: Seq::empty(), ..old(self)@ }));
            self.decide();
        } else {
            let (batch, rest) = split_batch(self.remaining.as_slice());
            self.batch = batch;
            self.remaining = rest;
            self.phase = Phase::CriticContexts;
        }
    }

    fn take_receipt(&mut self, role: AgentRole, receipt: &Option<ContextReceipt>)
        ensures
            final(self)@ == (WorkModel {
                role_receipts: with_receipt(
                    old(self)@.role_receipts,
                    role,
                    opt_receipt(*receipt),
                ),
                ..old(self)@
            }),
    {
        if let Some(value) = receipt {
            self.role_receipts.insert(role.name().to_owned(), value.copy());
        }
    }

    fn take_writer_context(&mut self, context: RoleContext)
        requires
            old(self).wf(),
            old(self)@.phase == Phase::WriterContext,
        ensures
            final(self)@ == writer_ready(old(self)@, context@),
            final(self).wf(),
    {
        self.take_receipt(AgentRole::Writer, &context.receipt);
        self.context = context.text;
        self.receipt = context.receipt;
        self.trace.writer_calls = 1;
        self.phase = Phase::Writing;
    }

    fn take_reviser_context(&mut self, context: RoleContext)
        requires
            old(self).wf(),
            old(self)@.phase == Phase::ReviserContext,
        ensures
            final(self)@ == reviser_ready(old(self)@, context@),
            final(self).wf(),
    {
        self.take_receipt(AgentRole::Reviser, &context.receipt);
        let mut list: Vec<String> = Vec::new();
        let ghost text = context.text@;
        list.push(context.text);
        assert(texts(list@) =~= seq![text]);
        self.contexts = list;
        self.phase = Phase::Revising;
    }

    fn take_critic_contexts(&mut self, list: Vec<RoleContext>)
        requires
            old(self).wf(),
            old(self)@.phase == Phase::CriticContexts,
            list@.len() == old(self)@.batch.len(),
        ensures
            final(self)@ == critics_ready(old(self)@, context_models(list@)),
            final(self).wf(),
    {
        let ghost start = self@;
        let ghost all = context_models(list@);
        let n: usize = list.len();
        let mut given: Vec<String> = Vec::new();
        let mut i: usize = 0;
        assert(start.trace.roles + start.batch.take(0) =~= start.trace.roles);
        while i < n
            invariant
                i <= n,
                n == list@.len(),
                n <= 3,
                n == start.batch.len(),
                all == context_models(list@),
                start.trace.critic_calls >= 0,
                start.trace.critic_calls + n <= 18,
                given@.len() == i,
                forall|k: int| 0 <= k < i ==> #[trigger] given@[k]@ == all[k].0,
                with_receipts(start.role_receipts, start.batch, all, 0) == with_receipts(
                    self@.role_receipts,
                    start.batch,
                    all,
                    i as int,
                ),
                self@ == (WorkModel {
                    role_receipts: self@.role_receipts,
                    trace: TraceModel {
                        roles: start.trace.roles + start.batch.take(i as int),
                        critic_calls: start.trace.critic_calls + i,
                        ..start.trace
                    },
                    ..start
                }),
            decreases n - i,
        {
            let role: AgentRole = self.batch[i];
            assert(all[i as int] == list@[i as int]@);
            self.take_receipt(role, &list[i].receipt);
            self.trace.roles.push(role);
            self.trace.critic_calls = self.trace.critic_calls + 1;
            given.push(list[i].text.clone());
            i += 1;
            assert(self.trace.roles@ =~= start.trace.roles + start.batch.take(i as int));
        }
        assert(start.batch.take(n as int) =~= start.batch);
        assert(texts(given@) =~= all.map_values(|context: ContextModel| context.0));
        self.contexts = given;
        self.phase = Phase::Reviewing;
    }

    fn take_draft_files(
        &mut self,
        dependencies: Vec<ChangesetDependency>,
        prepared: Option<PreparedChange>,
    )
        requires
            old(self).wf(),
            old(self)@.phase == Phase::Preparing,
        ensures
            final(self)@ == draft_prepared(
                old(self)@,
                dependency_models(dependencies@),
                opt_prepared(prepared),
            ),
            final(self).wf(),
    {
        self.candidate_hash = match &prepared {
            Some(change) => change.candidate_hash.clone(),
            None => sha256_text(self.candidate_text.as_str()),
        };
        self.dependencies = dependencies;
        self.prepared = prepared;
        self.trace.max_parallel_critics = 3;
        self.remaining = AgentSpec::critic_roles();
        self.start_batch();
    }

    fn take_revised_files(&mut self, prepared: Option<PreparedChange>)
        requires
            old(self).wf(),
            old(self)@.phase == Phase::Updating,
        ensures
            final(self)@ == revision_prepared(old(self)@, opt_prepared(prepared)),
            final(self).wf(),
    {
        match prepared {
            Some(change) => {
                self.candidate_hash = change.candidate_hash.clone();
                self.prepared = Some(change);
            },
            None => {
                self.candidate_hash = sha256_text(self.candidate_text.as_str());
            },
        }
        let mut failing: Vec<AgentRole> = Vec::new();
        std::mem::swap(&mut self.failing, &mut failing);
        assert(self@.failing =~= Seq::<AgentRole>::empty());
        self.remaining = failing;
        self.rerun = true;
        self.start_batch();
    }

    fn take_reviews(&mut self, strict: bool, replies: &Vec<ModelResult<ModelResponse>>) -> (r: Result<
        (),
        String,
    >)
        requires
            old(self).wf(),
            old(self)@.phase == Phase::Reviewing,
            replies@.len() == old(self)@.batch.len(),
        ensures
            match reviews_read(old(self)@, strict, replies@, 0) {
                Ok(next) => r is Ok && final(self)@ == next_batch(next) && final(self).wf(),
                Err(error) => r is Err && r->Err_0@ == error,
            },
    {
        let ghost start = self@;
        let ghost goal = reviews_read(start, strict, replies@, 0);
        let mut i: usize = 0;
        while i < replies.len()
            invariant
                i <= replies@.len(),
                replies@.len() == start.batch.len(),
                start == old(self)@,
                work_wf(start),
                start.phase == Phase::Reviewing,
                goal == reviews_read(start, strict, replies@, 0),
                goal == reviews_read(self@, strict, replies@, i as int),
                self@ == (WorkModel {
                    findings: self@.findings,
                    failing: self@.failing,
                    ..start
                }),
                self@.failing.len() <= start.failing.len() + i,
            decreases replies@.len() - i,
        {
            match &replies[i] {
                Err(failure) => {
                    if strict || failure.class() != ModelFailureClass::Stopped {
                        return Err(model_error(failure));
                    }
                },
                Ok(response) => {
                    let role: AgentRole = self.batch[i];
                    match parse_findings(
                        response.text.as_str(),
                        role,
                        self.candidate_hash.as_str(),
                        self.candidate_text.as_str(),
                    ) {
                        Err(error) => {
                            return Err(error);
                        },
                        Ok(list) => {
                            let ghost found = finding_models(list@);
                            let ghost before = finding_models(self.findings@);
                            if blocked(list.as_slice(), self.candidate_hash.as_str()) {
                                self.failing.push(role);
                            }
                            let mut list = list;
                            self.findings.append(&mut list);
                            assert(finding_models(self.findings@) =~= before + found);
                        },
                    }
                },
            }
            i += 1;
        }
        self.start_batch();
        Ok(())
    }
}

impl RunController {
    fn take_plan(&self, work: &mut ChapterWork, plan: String)
        requires
            work_wf(old(work)@),
            old(work)@.phase == Phase::Planning,
        ensures
            final(work)@ == planned(self@, old(work)@, plan@),
            work_wf(final(work)@),
    {
        work.canon_hashes = canon_before(&self.chapters, &self.canon_hashes, work.order);
        work.canon_texts = canon_before(&self.chapters, &self.canon_texts, work.order);
        work.corrections = self.correction_receipt(work.chapter_id.as_str());
        work.plan = plan;
        work.trace.roles.push(AgentRole::Writer);
        work.phase = Phase::WriterContext;
    }

    fn take_replies(&mut self, work: ChapterWork, list: Vec<ModelResult<ModelResponse>>) -> (r: Result<
        ChapterWork,
        String,
    >)
        requires
            work.wf(),
            event_fits(work@, WorkEvent::Replies(list)),
        ensures
            final(self)@ == next_run(old(self)@, work@, WorkEvent::Replies(list)),
            match next_work(old(self)@, work@, WorkEvent::Replies(list)) {
                Ok(next) => r is Ok && r->Ok_0@ == next && r->Ok_0.wf(),
                Err(error) => r is Err && r->Err_0@ == error,
            },
    {
        let mut work = work;
        let strict = self.strict_backend_errors;
        match work.phase {
            Phase::Planning => {
                let plan = read_reply(strict, &list[0])?;
                self.take_plan(&mut work, plan);
                Ok(work)
            },
            Phase::Writing => {
                work.candidate_text = read_reply(strict, &list[0])?;
                work.phase = Phase::Preparing;
                Ok(work)
            },
            Phase::Reviewing => {
                match work.take_reviews(strict, &list) {
                    Ok(()) => Ok(work),
                    Err(error) => Err(error),
                }
            },
            _ => {
                match &list[0] {
                    Ok(response) => {
                        proof {
                            reveal_strlit("");
                            assert(response.text@.len() == 0 ==> response.text@ =~= ""@);
                        }
                        if !str_eq(response.text.as_str(), "") {
                            work.candidate_text = response.text.clone();
                            self.invalidate_chapter_findings(work.chapter_id.as_str());
                            work.findings = Vec::new();
                            assert(finding_models(work.findings@) =~= Seq::<FindingModel>::empty());
                            work.phase = Phase::Updating;
                        } else {
                            work.decide();
                        }
                        Ok(work)
                    },
                    Err(failure) => {
                        if !strict && failure.class() == ModelFailureClass::Stopped {
                            work.finish_work();
                            Ok(work)
                        } else {
                            Err(model_error(failure))
                        }
                    },
                }
            },
        }
    }

    fn take_contexts(&self, work: ChapterWork, list: Vec<RoleContext>) -> (r: ChapterWork)
        requires
            work.wf(),
            event_fits(work@, WorkEvent::Contexts(Ok(list))),
        ensures
            next_work(self@, work@, WorkEvent::Contexts(Ok(list))) == Ok::<WorkModel, Seq<char>>(
                r@,
            ),
            r.wf(),
    {
        let mut work = work;
        match work.phase {
            Phase::WriterContext => {
                let mut list = list;
                assert(context_models(list@)[0] == list@[0]@);
                work.take_writer_context(list.remove(0));
            },
            Phase::CriticContexts => {
                work.take_critic_contexts(list);
            },
            _ => {
                let mut list = list;
                assert(context_models(list@)[0] == list@[0]@);
                work.take_reviser_context(list.remove(0));
            },
        }
        work
    }

    /// Carries the work on a chapter on after an event.
    pub fn advance(&mut self, work: ChapterWork, event: WorkEvent) -> (r: Result<ChapterWork, String>)
        requires
            work.wf(),
            event_fits(work@, event),
        ensures
            final(self)@ == next_run(old(self)@, work@, event),
            match next_work(old(self)@, work@, event) {
                Ok(next) => r is Ok && r->Ok_0@ == next && r->Ok_0.wf(),
                Err(error) => r is Err && r->Err_0@ == error,
            },
    {
        match event {
            WorkEvent::Replies(list) => self.take_replies(work, list),
            WorkEvent::Contexts(Err(error)) => Err(
                concat2("context compilation stopped: ", error.as_str()),
            ),
            WorkEvent::Contexts(Ok(list)) => Ok(self.take_contexts(work, list)),
            WorkEvent::Prepared(dependencies, prepared) => {
                let mut work = work;
                if work.phase == Phase::Preparing {
                    work.take_draft_files(dependencies, prepared);
                } else {
                    work.take_revised_files(prepared);
                }
                Ok(work)
            },
        }
    }
}

/// The prompt of the architect.
pub open spec fn plan_prompt(chapter_id: Seq<char>) -> Seq<char> {
    "Plan chapter "@ + chapter_id
        + " from the approved scene, box, and macro structure. Return a plan only."@
}

/// The JSON text of the receipt of a role; nothing where there is none.
pub open spec fn role_receipt_text(table: Entries<ReceiptModel>, role: AgentRole) -> Seq<char> {
    match lookup(table, role_name(role)) {
        Some(receipt) => receipt_json(receipt),
        None => Seq::empty(),
    }
}

/// The JSON text of a receipt; nothing where there is none.
pub open spec fn receipt_text(receipt: Option<ReceiptModel>) -> Seq<char> {
    match receipt {
        Some(value) => receipt_json(value),
        None => Seq::empty(),
    }
}

/// The digests of the earlier candidates in the prompt of the writer.
pub open spec fn hashes_text(list: Seq<(Seq<char>, Seq<char>)>) -> Seq<char> {
    join(list.map_values(|item: (Seq<char>, Seq<char>)| item.0 + "="@ + item.1), ","@)
}

/// The earlier candidates in the prompt of the writer.
pub open spec fn prose_text(list: Seq<(Seq<char>, Seq<char>)>) -> Seq<char> {
    join(
        list.map_values(
            |item: (Seq<char>, Seq<char>)| "--- "@ + item.0 + " ---\n"@ + item.1,
        ),
        "\n"@,
    )
}

/// The directives of corrections in the prompt of the writer.
pub open spec fn directives_text(list: Seq<Received>) -> Seq<char> {
    join(list.map_values(|item: Received| item.2), "\n"@)
}

/// The prompt of the writer.
pub open spec fn writer_prompt(w: WorkModel) -> Seq<char> {
    "Write chapter "@ + w.chapter_id
        + ". Approved scene and box plans are required.\n\nArchitect plan: "@ + w.plan
        + "\n\nCompiled source context (use only as evidence):\n"@ + w.context
        + "\n\nContext receipt: "@ + receipt_text(w.receipt) + "\n\nProvisional canon hashes: "@
        + hashes_text(w.canon_hashes)
        + "\n\nProvisional canon candidate prose (run-local, not approved canon): "@ + prose_text(
        w.canon_texts,
    ) + "\n\nCorrections: "@ + directives_text(w.corrections)
}

/// The prompt of a critic.
pub open spec fn review_prompt(w: WorkModel, role: AgentRole, context: Seq<char>) -> Seq<char> {
    if w.rerun {
        "Re-review this revised immutable candidate chapter "@ + w.chapter_id
            + "; report only current typed evidence as FINDING|kind|artifact|start|end|message.\n\nCandidate:\n"@
            + w.candidate_text + "\n\nRole-specific source context:\n"@ + context
            + "\n\nRole-specific context receipt:\n"@ + role_receipt_text(w.role_receipts, role)
            + "\n\nCorrection directives:\n"@ + receipts_text(w.corrections)
    } else {
        "Review candidate chapter "@ + w.chapter_id
            + " without editing it.\n\nImmutable candidate:\n"@ + w.candidate_text
            + "\n\nRole-specific compiled source context:\n"@ + context
            + "\n\nRole-specific context receipt:\n"@ + role_receipt_text(w.role_receipts, role)
            + "\n\nImmutable context facts: provisional canon hashes="@ + pairs_text(
            w.canon_hashes,
        ) + "; corrections="@ + receipts_text(w.corrections)
            + ". Report typed evidence as FINDING|kind|artifact|start|end|message."@
    }
}

/// A finding in the prompt of the reviser.
pub open spec fn finding_text(finding: FindingModel) -> Seq<char> {
    "kind="@ + kind_label(finding.kind) + "; artifact="@ + finding.artifact + "; range="@
        + decimal(finding.start as nat) + ".."@ + decimal(finding.end as nat) + "; message="@
        + finding.message
}

/// The prompt of the reviser.
pub open spec fn reviser_prompt(w: WorkModel) -> Seq<char> {
    "Revise only this candidate prose and preserve every approved fact.\n\nCandidate:\n"@
        + w.candidate_text + "\n\nTyped findings:\n"@ + join(
        w.findings.map_values(|finding: FindingModel| finding_text(finding)),
        "\n"@,
    ) + "\n\nRequired facts and correction directives:\n"@
        + "role-specific compiled source context:\n"@ + w.contexts[0]
        + "\n\nrole-specific context receipt:\n"@ + role_receipt_text(
        w.role_receipts,
        AgentRole::Reviser,
    ) + "\n\nprovisional canon hashes="@ + pairs_text(w.canon_hashes) + "; correction receipts="@
        + receipts_text(w.corrections)
}

/// The agents that a phase asks.
pub open spec fn asked_roles(w: WorkModel) -> Seq<AgentRole> {
    match w.phase {
        Phase::Planning => seq![AgentRole::StoryArchitect],
        Phase::Writing => seq![AgentRole::Writer],
        Phase::Reviewing => w.batch,
        Phase::Revising => seq![AgentRole::Reviser],
        _ => Seq::empty(),
    }
}

/// The prompt of the agent at a position.
pub open spec fn asked_prompt(w: WorkModel, i: int) -> Seq<char> {
    match w.phase {
        Phase::Planning => plan_prompt(w.chapter_id),
        Phase::Writing => writer_prompt(w),
        Phase::Reviewing => review_prompt(w, w.batch[i], w.contexts[i]),
        _ => reviser_prompt(w),
    }
}

/// The agents whose contexts a phase needs.
pub open spec fn context_roles(w: WorkModel) -> Seq<AgentRole> {
    match w.phase {
        Phase::WriterContext => seq![AgentRole::Writer],
        Phase::CriticContexts => w.batch,
        Phase::ReviserContext => seq![AgentRole::Reviser],
        _ => Seq::empty(),
    }
}

fn show_hashes(list: &[(String, String)]) -> (r: String)
    ensures
        r@ == hashes_text(pairs(list@)),
{
    let ghost goal = pairs(list@).map_values(
        |item: (Seq<char>, Seq<char>)| item.0 + "="@ + item.1,
    );
    let mut out: Vec<String> = Vec::new();
    let mut i: usize = 0;
    while i < list.len()
        invariant
            i <= list@.len(),
            out@.len() == i,
            forall|k: int|
                0 <= k < i ==> #[trigger] out@[k]@ == list@[k].0@ + "="@ + list@[k].1@,
        decreases list@.len() - i,
    {
        out.push(concat3(list[i].0.as_str(), "=", list[i].1.as_str()));
        i += 1;
    }
    assert(texts(out@) =~= goal);
    join_texts(out.as_slice(), ",")
}

fn show_prose(list: &[(String, String)]) -> (r: String)
    ensures
        r@ == prose_text(pairs(list@)),
{
    let ghost goal = pairs(list@).map_values(
        |item: (Seq<char>, Seq<char>)| "--- "@ + item.0 + " ---\n"@ + item.1,
    );
    let mut out: Vec<String> = Vec::new();
    let mut i: usize = 0;
    while i < list.len()
        invariant
            i <= list@.len(),
            out@.len() == i,
            forall|k: int|
                0 <= k < i ==> #[trigger] out@[k]@ == "--- "@ + list@[k].0@ + " ---\n"@
                    + list@[k].1@,
        decreases list@.len() - i,
    {
        let mut text = concat3("--- ", list[i].0.as_str(), " ---\n");
        text.append(list[i].1.as_str());
        out.push(text);
        i += 1;
    }
    assert(texts(out@) =~= goal);
    join_texts(out.as_slice(), "\n")
}

fn show_directives(list: &[CorrectionReceipt]) -> (r: String)
    ensures
        r@ == directives_text(received(list@)),
{
    let ghost goal = received(list@).map_values(|item: Received| item.2);
    let mut out: Vec<String> = Vec::new();
    let mut i: usize = 0;
    while i < list.len()
        invariant
            i <= list@.len(),
            out@.len() == i,
            forall|k: int| 0 <= k < i ==> #[trigger] out@[k]@ == list@[k].directive@,
        decreases list@.len() - i,
    {
        out.push(list[i].directive.clone());
        i += 1;
    }
    assert(texts(out@) =~= goal);
    join_texts(out.as_slice(), "\n")
}

fn show_findings(list: &[Finding]) -> (r: String)
    ensures
        r@ == join(
            finding_models(list@).map_values(|finding: FindingModel| finding_text(finding)),
            "\n"@,
        ),
{
    let ghost goal = finding_models(list@).map_values(
        |finding: FindingModel| finding_text(finding),
    );
    let mut out: Vec<String> = Vec::new();
    let mut i: usize = 0;
    while i < list.len()
        invariant
            i <= list@.len(),
            out@.len() == i,
            forall|k: int| 0 <= k < i ==> #[trigger] out@[k]@ == finding_text(list@[k]@),
        decreases list@.len() - i,
    {
        let mut text = concat3("kind=", list[i].kind.label(), "; artifact=");
        text.append(list[i].artifact.as_str());
        text.append("; range=");
        text.append(size_text(list[i].start).as_str());
        text.append("..");
        text.append(size_text(list[i].end).as_str());
        text.append("; message=");
        text.append(list[i].message.as_str());
        out.push(text);
        i += 1;
    }
    assert(texts(out@) =~= goal);
    join_texts(out.as_slice(), "\n")
}

fn show_receipt(receipt: &Option<ContextReceipt>) -> (r: String)
    ensures
        r@ == receipt_text(opt_receipt(*receipt)),
{
    match receipt {
        Some(value) => value.to_json(),
        None => {
            let none = String::new();
            assert(none@ =~= Seq::<char>::empty());
            none
        },
    }
}

impl ChapterWork {
    fn show_role_receipt(&self, role: AgentRole) -> (r: String)
        ensures
            r@ == role_receipt_text(self@.role_receipts, role),
    {
        match self.role_receipts.get(role.name()) {
            Some(receipt) => receipt.to_json(),
            None => {
                let none = String::new();
                assert(none@ =~= Seq::<char>::empty());
                none
            },
        }
    }

    fn writer_text(&self) -> (r: String)
        ensures
            r@ == writer_prompt(self@),
    {
        let mut out = concat3(
            "Write chapter ",
            self.chapter_id.as_str(),
            ". Approved scene and box plans are required.\n\nArchitect plan: ",
        );
        out.append(self.plan.as_str());
        out.append("\n\nCompiled source context (use only as evidence):\n");
        out.append(self.context.as_str());
        out.append("\n\nContext receipt: ");
        out.append(show_receipt(&self.receipt).as_str());
        out.append("\n\nProvisional canon hashes: ");
        out.append(show_hashes(self.canon_hashes.as_slice()).as_str());
        out.append("\n\nProvisional canon candidate prose (run-local, not approved canon): ");
        out.append(show_prose(self.canon_texts.as_slice()).as_str());
        out.append("\n\nCorrections: ");
        out.append(show_directives(self.corrections.as_slice()).as_str());
        out
    }

    fn review_text(&self, role: AgentRole, context: &str) -> (r: String)
        ensures
            r@ == review_prompt(self@, role, context@),
    {
        if self.rerun {
            let mut out = concat3(
                "Re-review this revised immutable candidate chapter ",
                self.chapter_id.as_str(),
                "; report only current typed evidence as FINDING|kind|artifact|start|end|message.\n\nCandidate:\n",
            );
            out.append(self.candidate_text.as_str());
            out.append("\n\nRole-specific source context:\n");
            out.append(context);
            out.append("\n\nRole-specific context receipt:\n");
            out.append(self.show_role_receipt(role).as_str());
            out.append("\n\nCorrection directives:\n");
            out.append(show_receipts(self.corrections.as_slice()).as_str());
            out
        } else {
            let mut out = concat3(
                "Review candidate chapter ",
                self.chapter_id.as_str(),
                " without editing it.\n\nImmutable candidate:\n",
            );
            out.append(self.candidate_text.as_str());
            out.append("\n\nRole-specific compiled source context:\n");
            out.append(context);
            out.append("\n\nRole-specific context receipt:\n");
            out.append(self.show_role_receipt(role).as_str());
            out.append("\n\nImmutable context facts: provisional canon hashes=");
            out.append(show_pairs(self.canon_hashes.as_slice()).as_str());
            out.append("; corrections=");
            out.append(show_receipts(self.corrections.as_slice()).as_str());
            out.append(". Report typed evidence as FINDING|kind|artifact|start|end|message.");
            out
        }
    }

    fn reviser_text(&self) -> (r: String)
        requires
            self@.contexts.len() == 1,
        ensures
            r@ == reviser_prompt(self@),
    {
        assert(texts(self.contexts@)[0] == self.contexts@[0]@);
        let mut out =
            "Revise only this candidate prose and preserve every approved fact.\n\nCandidate:\n".to_owned();
        out.append(self.candidate_text.as_str());
        out.append("\n\nTyped findings:\n");
        out.append(show_findings(self.findings.as_slice()).as_str());
        out.append("\n\nRequired facts and correction directives:\n");
        out.append("role-specific compiled source context:\n");
        out.append(self.contexts[0].as_str());
        out.append("\n\nrole-specific context receipt:\n");
        out.append(self.show_role_receipt(AgentRole::Reviser).as_str());
        out.append("\n\nprovisional canon hashes=");
        out.append(show_pairs(self.canon_hashes.as_slice()).as_str());
        out.append("; correction receipts=");
        out.append(show_receipts(self.corrections.as_slice()).as_str());
        out
    }

    fn copied_batch(&self) -> (r: Vec<AgentRole>)
        ensures
            r@ == self@.batch,
    {
        let mut out: Vec<AgentRole> = Vec::new();
        let mut i: usize = 0;
        while i < self.batch.len()
            invariant
                i <= self.batch@.len(),
                out@ == self.batch@.take(i as int),
            decreases self.batch@.len() - i,
        {
            out.push(self.batch[i]);
            i += 1;
            assert(out@ =~= self.batch@.take(i as int));
        }
        assert(self.batch@.take(i as int) =~= self.batch@);
        out
    }

    /// Returns the agents whose contexts are needed now.
    pub fn roles_to_compile(&self) -> (r: Vec<AgentRole>)
        ensures
            r@ == context_roles(self@),
    {
        match self.phase {
            Phase::WriterContext => {
                let r = vec![AgentRole::Writer];
                assert(r@ =~= seq![AgentRole::Writer]);
                r
            },
            Phase::CriticContexts => self.copied_batch(),
            Phase::ReviserContext => {
                let r = vec![AgentRole::Reviser];
                assert(r@ =~= seq![AgentRole::Reviser]);
                r
            },
            _ => Vec::new(),
        }
    }

    /// Returns the agents that are asked now.
    pub fn roles_to_ask(&self) -> (r: Vec<AgentRole>)
        ensures
            r@ == asked_roles(self@),
    {
        match self.phase {
            Phase::Planning => {
                let r = vec![AgentRole::StoryArchitect];
                assert(r@ =~= seq![AgentRole::StoryArchitect]);
                r
            },
            Phase::Writing => {
                let r = vec![AgentRole::Writer];
                assert(r@ =~= seq![AgentRole::Writer]);
                r
            },
            Phase::Reviewing => self.copied_batch(),
            Phase::Revising => {
                let r = vec![AgentRole::Reviser];
                assert(r@ =~= seq![AgentRole::Reviser]);
                r
            },
            _ => Vec::new(),
        }
    }

    /// Returns the prompt of the agent at a position.
    pub fn prompt(&self, i: usize) -> (r: String)
        requires
            self.wf(),
            i < asked_roles(self@).len(),
        ensures
            r@ == asked_prompt(self@, i as int),
    {
        match self.phase {
            Phase::Planning => concat3(
                "Plan chapter ",
                self.chapter_id.as_str(),
                " from the approved scene, box, and macro structure. Return a plan only.",
            ),
            Phase::Writing => self.writer_text(),
            Phase::Reviewing => {
                assert(texts(self.contexts@)[i as int] == self.contexts@[i as int]@);
                self.review_text(self.batch[i], self.contexts[i].as_str())
            },
            _ => self.reviser_text(),
        }
    }

    /// Returns what the candidate files are made from.
    pub fn draft(&self) -> (r: DraftText)
        ensures
            r.chapter_id@ == self@.chapter_id,
            r.writer_text@ == self@.candidate_text,
            r.compiled_context@ == self@.context,
            r.context_receipt@ == receipt_text(self@.receipt),
            r.architect_plan@ == self@.plan,
            received(r.corrections@) == self@.corrections,
    {
        DraftText {
            chapter_id: self.chapter_id.clone(),
            writer_text: self.candidate_text.clone(),
            compiled_context: self.context.clone(),
            context_receipt: show_receipt(&self.receipt),
            architect_plan: self.plan.clone(),
            corrections: copy_receipts(self.corrections.as_slice()),
        }
    }

    /// Returns the identifier of the changeset.
    pub fn changeset_id(&self) -> (r: &EntityId)
        ensures
            r@ == self@.changeset_id,
    {
        &self.changeset_id
    }

    /// Returns the position of the chapter.
    pub fn order(&self) -> (r: u32)
        ensures
            r == self@.order,
    {
        self.order
    }

    /// Returns the text of the candidate.
    pub fn candidate_text(&self) -> (r: &str)
        ensures
            r@ == self@.candidate_text,
    {
        self.candidate_text.as_str()
    }

    /// Returns the prepared changeset.
    pub fn prepared(&self) -> (r: Option<&PreparedChange>)
        ensures
            match r {
                Some(prepared) => self@.prepared == Some(prepared@),
                None => self@.prepared is None,
            },
    {
        match &self.prepared {
            Some(prepared) => Some(prepared),
            None => None,
        }
    }

    /// Returns the changesets that the chapter builds on.
    pub fn dependencies(&self) -> (r: &[ChangesetDependency])
        ensures
            dependency_models(r@) == self@.dependencies,
    {
        self.dependencies.as_slice()
    }
}

/// The requests that a phase sends.
pub open spec fn asked_requests(m: RunModel, w: WorkModel) -> Seq<RequestModel> {
    Seq::new(
        asked_roles(w).len(),
        |i: int| role_request(m, asked_roles(w)[i], asked_prompt(w, i)),
    )
}

/// What keeps a chapter from being started.
pub open spec fn start_error(m: RunModel, chapter_id: Seq<char>) -> Option<Seq<char>> {
    match lookup(m.chapters, chapter_id) {
        Some(chapter) => if is_outdated(chapter.state) {
            Some(
                "chapter "@ + chapter_id + " is "@ + state_label(chapter.state)
                    + "; explicit regeneration or revalidation is required"@,
            )
        } else {
            None
        },
        None => None,
    }
}

/// Why the writing of a chapter does not start, with everything that is looked at, in order: plans,
/// price and cost, the state of the run, the state of the chapter.
pub open spec fn first_refusal(m: RunModel, chapter_id: Seq<char>) -> Option<WriteRefusal> {
    match write_refusal(m, chapter_id) {
        Some(refusal) => Some(refusal),
        None => if m.recovery_required {
            Some(WriteRefusal::Refused(recovery_message()))
        } else {
            match start_error(m, chapter_id) {
                Some(error) => Some(WriteRefusal::Refused(error)),
                None => None,
            }
        },
    }
}

/// A run after a chapter was not started: where plans, price and cost allowed it, the consent of a
/// human to the cost is used up nevertheless.
pub open spec fn refused_run(m: RunModel, chapter_id: Seq<char>) -> RunModel {
    if write_refusal(m, chapter_id) is Some {
        m
    } else {
        consent_used(m)
    }
}

/// The last position of the first chapters; zero where there are none.
pub open spec fn last_order(chapters: Entries<ChapterModel>, i: int) -> u32
    decreases i,
{
    if i <= 0 {
        0
    } else {
        let before = last_order(chapters, i - 1);
        if chapters[i - 1].1.order > before {
            chapters[i - 1].1.order
        } else {
            before
        }
    }
}

/// The run that knows a chapter: a new one comes behind all others.
pub open spec fn with_known_chapter(m: RunModel, chapter_id: Seq<char>) -> RunModel {
    if lookup(m.chapters, chapter_id) is Some {
        m
    } else {
        with_chapter(
            m,
            chapter_id,
            (last_order(m.chapters, m.chapters.len() as int) + 1) as u32,
            ChapterState::Planned,
        )
    }
}

/// The run once the writing of a chapter started: its cost starts at zero and its findings are
/// gone.
pub open spec fn started(m: RunModel, chapter_id: Seq<char>, status: CostStatus) -> RunModel {
    let next = without_findings(
        RunModel { cost_status: status, ..with_known_chapter(m, chapter_id) },
        chapter_id,
    );
    let chapter = lookup(next.chapters, chapter_id)->Some_0;
    RunModel {
        chapters: put(
            next.chapters,
            chapter_id,
            ChapterModel { state: ChapterState::Running, ..chapter },
        ),
        ..next
    }
}

/// Whether work on a chapter has just started.
pub open spec fn is_new_work(w: WorkModel, m: RunModel, chapter_id: Seq<char>) -> bool {
    &&& is_id_of(w.changeset_id, EntityKind::Changeset)
    &&& is_id_of(w.chapter_entity, EntityKind::Chapter)
    &&& w == (WorkModel {
        chapter_id: chapter_id,
        order: lookup(with_known_chapter(m, chapter_id).chapters, chapter_id)->Some_0.order,
        phase: Phase::Planning,
        trace: TraceModel {
            roles: seq![AgentRole::StoryArchitect],
            architect_calls: 1,
            writer_calls: 0,
            max_parallel_critics: 0,
            critic_calls: 0,
            reviser_calls: 0,
            validator_calls: 0,
        },
        plan: Seq::empty(),
        context: Seq::empty(),
        receipt: None,
        canon_hashes: Seq::empty(),
        canon_texts: Seq::empty(),
        corrections: Seq::empty(),
        role_receipts: Seq::empty(),
        changeset_id: w.changeset_id,
        chapter_entity: w.chapter_entity,
        dependencies: Seq::empty(),
        prepared: None,
        candidate_hash: Seq::empty(),
        candidate_text: Seq::empty(),
        findings: Seq::empty(),
        batch: Seq::empty(),
        remaining: Seq::empty(),
        failing: Seq::empty(),
        contexts: Seq::empty(),
        rerun: false,
        revisions_left: if m.max_revisions < 2 {
            m.max_revisions
        } else {
            2
        },
    })
}

fn new_work(chapter_id: &str, order: u32, max_revisions: usize) -> (r: ChapterWork)
    ensures
        is_id_of(r@.changeset_id, EntityKind::Changeset),
        is_id_of(r@.chapter_entity, EntityKind::Chapter),
        r@ == (WorkModel {
            chapter_id: chapter_id@,
            order: order,
            phase: Phase::Planning,
            trace: TraceModel {
                roles: seq![AgentRole::StoryArchitect],
                architect_calls: 1,
                writer_calls: 0,
                max_parallel_critics: 0,
                critic_calls: 0,
                reviser_calls: 0,
                validator_calls: 0,
            },
            plan: Seq::empty(),
            context: Seq::empty(),
            receipt: None,
            canon_hashes: Seq::empty(),
            canon_texts: Seq::empty(),
            corrections: Seq::empty(),
            role_receipts: Seq::empty(),
            changeset_id: r@.changeset_id,
            chapter_entity: r@.chapter_entity,
            dependencies: Seq::empty(),
            prepared: None,
            candidate_hash: Seq::empty(),
            candidate_text: Seq::empty(),
            findings: Seq::empty(),
            batch: Seq::empty(),
            remaining: Seq::empty(),
            failing: Seq::empty(),
            contexts: Seq::empty(),
            rerun: false,
            revisions_left: if max_revisions < 2 {
                max_revisions
            } else {
                2
            },
        }),
        r.wf(),
{
    let mut trace = WorkflowTrace::default();
    trace.roles.push(AgentRole::StoryArchitect);
    trace.architect_calls = 1;
    assert(trace.roles@ =~= seq![AgentRole::StoryArchitect]);
    let work = ChapterWork {
        chapter_id: chapter_id.to_owned(),
        order,
        phase: Phase::Planning,
        trace,
        plan: String::new(),
        context: String::new(),
        receipt: None,
        canon_hashes: Vec::new(),
        canon_texts: Vec::new(),
        corrections: Vec::new(),
        role_receipts: Table::new(),
        changeset_id: prefixed_uuid(EntityKind::Changeset),
        chapter_entity: prefixed_uuid(EntityKind::Chapter),
        dependencies: Vec::new(),
        prepared: None,
        candidate_hash: String::new(),
        candidate_text: String::new(),
        findings: Vec::new(),
        batch: Vec::new(),
        remaining: Vec::new(),
        failing: Vec::new(),
        contexts: Vec::new(),
        rerun: false,
        revisions_left: if max_revisions < 2 {
            max_revisions
        } else {
            2
        },
    };
    proof {
        let w = work@;
        assert(w.plan =~= Seq::<char>::empty());
        assert(w.canon_hashes =~= Seq::empty());
        assert(w.canon_texts =~= Seq::empty());
        assert(w.corrections =~= Seq::empty());
        assert(w.dependencies =~= Seq::empty());
        assert(w.findings =~= Seq::empty());
        assert(w.contexts =~= Seq::empty());
        assert(w.batch =~= Seq::empty());
        assert(w.remaining =~= Seq::empty());
        assert(w.failing =~= Seq::empty());
    }
    work
}

impl RunController {
    /// Returns the highest place in the order of chapters.
    pub fn highest_order(&self) -> (r: u32)
        ensures
            r == last_order(self@.chapters, self@.chapters.len() as int),
    {
        let mut last: u32 = 0;
        let mut i: usize = 0;
        while i < self.chapters.len()
            invariant
                i <= self.chapters@.len(),
                last == last_order(self@.chapters, i as int),
            decreases self.chapters@.len() - i,
        {
            let order: u32 = self.chapters.value(i).order;
            if order > last {
                last = order;
            }
            i += 1;
        }
        last
    }

    /// Starts the writing of a chapter, unless plans, price, cost or the state of run or chapter
    /// forbid it.  The consent of a human to the cost counts for one attempt.
    pub fn write_chapter(&mut self, chapter_id: &str) -> (r: Result<ChapterWork, WriteError>)
        requires
            first_refusal(old(self)@, chapter_id@) is None ==> has_key(
                old(self)@.chapters,
                chapter_id@,
            ) || last_order(old(self)@.chapters, old(self)@.chapters.len() as int) < u32::MAX,
        ensures
            match first_refusal(old(self)@, chapter_id@) {
                Some(refusal) => r is Err && r->Err_0@ == refusal && final(self)@ == refused_run(
                    old(self)@,
                    chapter_id@,
                ),
                None => {
                    &&& r is Ok
                    &&& r->Ok_0.wf()
                    &&& is_new_work(r->Ok_0@, old(self)@, chapter_id@)
                    &&& final(self)@.cost_status.chapter@ == 0
                    &&& final(self)@.cost_status.run == old(self)@.cost_status.run
                    &&& !final(self)@.cost_status.warning
                    &&& final(self)@ == started(
                        consent_used(old(self)@),
                        chapter_id@,
                        final(self)@.cost_status,
                    )
                },
            },
    {
        match self.authorize_chapter(chapter_id) {
            Err(error) => {
                return Err(error);
            },
            Ok(()) => {},
        }
        self.use_cost_consent();
        match self.instruct_chapter(chapter_id) {
            Err(error) => {
                return Err(WriteError::Refused(error));
            },
            Ok(_) => {},
        }
        let ghost start = self@;
        let mut order: u32 = 0;
        let known = match self.chapters.get(chapter_id) {
            Some(chapter) => {
                if chapter.state == ChapterState::Stale || chapter.state
                    == ChapterState::NeedsRevalidation {
                    let mut text = concat3("chapter ", chapter_id, " is ");
                    text.append(chapter.state.label());
                    text.append("; explicit regeneration or revalidation is required");
                    return Err(WriteError::Refused(text));
                }
                order = chapter.order;
                true
            },
            None => false,
        };
        if !known {
            order = self.highest_order() + 1;
            self.register_chapter(chapter_id.to_owned(), order, ChapterState::Planned);
            proof {
                crate::workflow::lemma_put_lookup(
                    start.chapters,
                    chapter_id@,
                    ChapterModel { id: chapter_id@, order: order, state: ChapterState::Planned },
                );
            }
        }
        assert(self@ == with_known_chapter(start, chapter_id@));
        self.cost_status = CostStatus {
            chapter: MicroDollars::zero(),
            run: self.cost_status.run,
            warning: false,
        };
        self.invalidate_chapter_findings(chapter_id);
        let record = match self.chapters.get(chapter_id) {
            Some(chapter) => ChapterRecord {
                id: chapter.id.clone(),
                order: chapter.order,
                state: ChapterState::Running,
            },
            None => ChapterRecord {
                id: chapter_id.to_owned(),
                order,
                state: ChapterState::Running,
            },
        };
        self.chapters.insert(chapter_id.to_owned(), record);
        Ok(new_work(chapter_id, order, self.max_revisions))
    }

    /// Gives out a request that the work on a chapter sends now, once its money is held back.
    pub fn begin_request(&mut self, work: &ChapterWork, position: usize) -> (r: Result<
        PaidRequest,
        String,
    >)
        requires
            run_wf(old(self)@),
            work.wf(),
            position < asked_roles(work@).len(),
        ensures
            match r {
                Err(error) => budget_error(old(self)@, work@.chapter_id) == Some(error@)
                    && final(self)@ == old(self)@,
                Ok(paid) => request_reserved(
                    old(self)@,
                    final(self)@,
                    work@.chapter_id,
                    paid@.reservation,
                ) && paid@.request == asked_requests(old(self)@, work@)[position as int],
            },
    {
        let roles = work.roles_to_ask();
        let request = self.request_for(roles[position], work.prompt(position));
        self.pay_for(work.chapter_id.as_str(), request)
    }
}

/// The run with the findings of a list from a position on.
pub open spec fn findings_recorded(
    m: RunModel,
    list: Seq<FindingModel>,
    chapter_id: Seq<char>,
    i: int,
) -> RunModel
    decreases list.len() - i,
{
    if i < 0 || i >= list.len() {
        m
    } else {
        findings_recorded(
            RunModel {
                owners: put(m.owners, list[i].id, chapter_id),
                findings: put(m.findings, list[i].id, list[i]),
                ..m
            },
            list,
            chapter_id,
            i + 1,
        )
    }
}

/// The run with the findings of a chapter instead of those it had.
pub open spec fn sealed_run(m: RunModel, w: WorkModel) -> RunModel {
    findings_recorded(without_findings(m, w.chapter_id), w.findings, w.chapter_id, 0)
}

/// An operation of a chapter without a project.
pub open spec fn synthetic_operation(w: WorkModel, path: Seq<char>) -> OperationModel {
    OperationModel {
        kind: OperationKind::Replace,
        path: path,
        before_sha256: Some(digest_text(utf8("synthetic-base"@))),
        after_sha256: Some(w.candidate_hash),
        candidate_path: Some(
            ".phemius/runtime/candidates/"@ + w.changeset_id + "/"@ + w.chapter_id + ".md"@,
        ),
        affected_entities: seq![w.chapter_entity],
    }
}

/// The prepared changeset of a chapter; one that stands for it where there is no project.
pub open spec fn prepared_of(m: RunModel, w: WorkModel) -> PreparedModel {
    match w.prepared {
        Some(prepared) => prepared,
        None => PreparedModel {
            operations: seq![
                synthetic_operation(w, "本文/"@ + w.chapter_id + ".md"@),
                synthetic_operation(w, "前提/時系列.md"@),
                synthetic_operation(w, "前提/伏線.md"@),
            ],
            base_root_hash: digest_text(utf8(m.run_id)),
            content_result_hash: w.candidate_hash,
            result_root_hash: w.candidate_hash,
            candidate_hash: w.candidate_hash,
        },
    }
}

/// The findings that block a candidate, by identifier, for the first findings.
pub open spec fn blocker_ids(
    list: Seq<FindingModel>,
    candidate_hash: Seq<char>,
    i: int,
) -> Seq<Seq<char>>
    decreases i,
{
    if i <= 0 {
        Seq::empty()
    } else {
        let before = blocker_ids(list, candidate_hash, i - 1);
        if finding_blocks(list[i - 1], candidate_hash) && is_known_id(list[i - 1].id) {
            before.push(list[i - 1].id)
        } else {
            before
        }
    }
}

/// The changeset of a chapter: approvable where nothing blocks it.
pub open spec fn changeset_of(m: RunModel, w: WorkModel) -> ChangeModel {
    let prepared = prepared_of(m, w);
    let change = ChangeModel {
        id: w.changeset_id,
        parent_changeset_id: first_dependency(w.dependencies),
        base_root_hash: prepared.base_root_hash,
        content_result_hash: prepared.content_result_hash,
        result_root_hash: prepared.result_root_hash,
        state: if any_blocks(w.findings, w.candidate_hash) {
            ChangesetState::Reviewing
        } else {
            ChangesetState::Approvable
        },
        operations: prepared.operations,
        candidate_hash: prepared.candidate_hash,
        validation_hash: None,
        unresolved_blocker_ids: blocker_ids(
            w.findings,
            w.candidate_hash,
            w.findings.len() as int,
        ),
        dependencies: w.dependencies,
        chapter_order: w.order,
    };
    ChangeModel { validation_hash: Some(material_digest(change_material(change))), ..change }
}

fn collect_blockers(list: &[Finding], candidate_hash: &str) -> (r: Vec<EntityId>)
    ensures
        ids(r@) == blocker_ids(finding_models(list@), candidate_hash@, list@.len() as int),
{
    let ghost all = finding_models(list@);
    let mut out: Vec<EntityId> = Vec::new();
    let mut i: usize = 0;
    assert(ids(out@) =~= blocker_ids(all, candidate_hash@, 0));
    while i < list.len()
        invariant
            i <= list@.len(),
            all == finding_models(list@),
            ids(out@) == blocker_ids(all, candidate_hash@, i as int),
        decreases list@.len() - i,
    {
        assert(all[i as int] == list@[i as int]@);
        if list[i].blocks(candidate_hash) {
            if let Some(id) = EntityId::from_validated(list[i].id.clone()) {
                let ghost before = ids(out@);
                let ghost item = id@;
                out.push(id);
                assert(ids(out@) =~= before.push(item));
            }
        }
        i += 1;
    }
    out
}

impl ChapterWork {
    fn synthetic(&self, path: String) -> (r: FileOperation)
        ensures
            r@ == synthetic_operation(self@, path@),
    {
        let mut candidate_path = concat3(
            ".phemius/runtime/candidates/",
            self.changeset_id.as_str(),
            "/",
        );
        candidate_path.append(self.chapter_id.as_str());
        candidate_path.append(".md");
        let mut affected_entities: Vec<EntityId> = Vec::new();
        affected_entities.push(self.chapter_entity.copy());
        assert(ids(affected_entities@) =~= seq![self.chapter_entity@]);
        FileOperation {
            kind: OperationKind::Replace,
            path,
            before_sha256: Some(sha256_text("synthetic-base")),
            after_sha256: Some(self.candidate_hash.clone()),
            candidate_path: Some(candidate_path),
            affected_entities,
        }
    }
}

impl RunController {
    fn prepared_change(&self, work: &ChapterWork) -> (r: PreparedChange)
        ensures
            r@ == prepared_of(self@, work@),
    {
        match &work.prepared {
            Some(prepared) => copy_prepared(prepared),
            None => {
                let mut operations: Vec<FileOperation> = Vec::new();
                operations.push(
                    work.synthetic(concat3("本文/", work.chapter_id.as_str(), ".md")),
                );
                operations.push(work.synthetic("前提/時系列.md".to_owned()));
                operations.push(work.synthetic("前提/伏線.md".to_owned()));
                assert(operation_models(operations@) =~= prepared_of(self@, work@).operations);
                PreparedChange {
                    operations,
                    base_root_hash: sha256_text(self.run_id.as_str()),
                    content_result_hash: work.candidate_hash.clone(),
                    result_root_hash: work.candidate_hash.clone(),
                    candidate_hash: work.candidate_hash.clone(),
                }
            },
        }
    }

    fn build_changeset(&self, work: &ChapterWork) -> (r: Changeset)
        ensures
            r@ == changeset_of(self@, work@),
    {
        let prepared = self.prepared_change(work);
        let blocking = blocked(work.findings.as_slice(), work.candidate_hash.as_str());
        let mut change = Changeset {
            id: work.changeset_id.copy(),
            parent_changeset_id: parent_of(work.dependencies.as_slice()),
            base_root_hash: prepared.base_root_hash,
            content_result_hash: prepared.content_result_hash,
            result_root_hash: prepared.result_root_hash,
            state: if blocking {
                ChangesetState::Reviewing
            } else {
                ChangesetState::Approvable
            },
            operations: prepared.operations,
            candidate_hash: prepared.candidate_hash,
            validation_hash: None,
            unresolved_blocker_ids: collect_blockers(
                work.findings.as_slice(),
                work.candidate_hash.as_str(),
            ),
            dependencies: copy_dependencies(work.dependencies.as_slice()),
            chapter_order: work.order,
        };
        change.validation_hash = Some(calculate_validation_hash(&change));
        change
    }

    fn record_findings(&mut self, list: &[Finding], chapter_id: &str)
        ensures
            final(self)@ == findings_recorded(
                old(self)@,
                finding_models(list@),
                chapter_id@,
                0,
            ),
    {
        let ghost all = finding_models(list@);
        let ghost start = self@;
        let mut i: usize = 0;
        while i < list.len()
            invariant
                i <= list@.len(),
                all == finding_models(list@),
                start == old(self)@,
                findings_recorded(start, all, chapter_id@, 0) == findings_recorded(
                    self@,
                    all,
                    chapter_id@,
                    i as int,
                ),
            decreases list@.len() - i,
        {
            assert(all[i as int] == list@[i as int]@);
            self.owners.insert(list[i].id.clone(), chapter_id.to_owned());
            self.findings.insert(list[i].id.clone(), list[i].copy());
            i += 1;
        }
    }

    /// Checks the length of a candidate that is done, records its findings and builds its
    /// changeset.
    pub fn seal_draft(&mut self, work: ChapterWork) -> (r: Result<SealedDraft, String>)
        requires
            work@.phase == Phase::Checked,
        ensures
            match length_error(
                text_length(work@.candidate_text, old(self)@.length_unit),
                old(self)@.min_length,
                old(self)@.max_length,
            ) {
                Some(error) => r is Err && r->Err_0@ == error && final(self)@ == old(self)@,
                None => r is Ok && r->Ok_0@ == (SealedModel {
                    work: work@,
                    change: changeset_of(old(self)@, work@),
                }) && final(self)@ == sealed_run(old(self)@, work@),
            },
    {
        match validate_length(
            work.candidate_text.as_str(),
            self.length_unit,
            self.min_length,
            self.max_length,
        ) {
            Err(error) => {
                return Err(error);
            },
            Ok(()) => {},
        }
        let change = self.build_changeset(&work);
        self.invalidate_chapter_findings(work.chapter_id.as_str());
        self.record_findings(work.findings.as_slice(), work.chapter_id.as_str());
        Ok(SealedDraft { work, change })
    }
}

/// A candidate that is done, with its changeset.  Only a run makes one, from work that is done.
pub struct SealedDraft {
    work: ChapterWork,
    change: Changeset,
}

/// A candidate that is done, by the views of its parts.
pub struct SealedModel {
    pub work: WorkModel,
    pub change: ChangeModel,
}

impl View for SealedDraft {
    type V = SealedModel;

    closed spec fn view(&self) -> SealedModel {
        SealedModel { work: self.work@, change: self.change@ }
    }
}

impl SealedDraft {
    /// Returns the work.
    pub fn work(&self) -> (r: &ChapterWork)
        ensures
            r@ == self@.work,
    {
        &self.work
    }

    /// Returns the changeset.
    pub fn change(&self) -> (r: &Changeset)
        ensures
            r@ == self@.change,
    {
        &self.change
    }
}

/// The digest that stands for what the writer was given.
pub open spec fn context_base(w: WorkModel) -> Seq<char> {
    let known = match w.receipt {
        Some(receipt) => receipt.context_sha256,
        None => None,
    };
    match known {
        Some(digest) => digest,
        None => digest_text(
            utf8(
                w.chapter_id + ":"@ + w.candidate_hash + ":"@ + pairs_text(w.canon_hashes) + ":"@
                    + receipts_text(w.corrections),
            ),
        ),
    }
}

/// The digest of what the writer was given, with the corrections.
pub open spec fn context_digest(w: WorkModel) -> Seq<char> {
    digest_text(
        utf8("["@ + json_string(context_base(w)) + ","@ + receipts_json(w.corrections) + "]"@),
    )
}

/// What came out of writing a chapter.
pub open spec fn outcome(m: RunModel, w: WorkModel, change: ChangeModel) -> RunRecord {
    RunRecord {
        chapter_id: w.chapter_id,
        changeset: change,
        state: if any_blocks(w.findings, w.candidate_hash) {
            ChapterState::Candidate
        } else {
            ChapterState::Approvable
        },
        trace: w.trace,
        findings: w.findings,
        correction_receipts: w.corrections,
        provisional_canon_hashes: w.canon_hashes,
        provisional_canon_texts: w.canon_texts,
        context_receipt_hash: context_digest(w),
        context_receipt: w.receipt,
        role_context_receipts: w.role_receipts,
        candidate_text: w.candidate_text,
        preflight: m.preflight,
    }
}

/// The run once a chapter was written.
pub open spec fn with_outcome(m: RunModel, w: WorkModel, run: RunRecord) -> RunModel {
    let chapter = lookup(m.chapters, w.chapter_id)->Some_0;
    refreshed_model(
        RunModel {
            canon_hashes: put(m.canon_hashes, w.chapter_id, w.candidate_hash),
            canon_texts: put(m.canon_texts, w.chapter_id, w.candidate_text),
            runs: put(m.runs, w.chapter_id, run),
            chapters: put(
                m.chapters,
                w.chapter_id,
                ChapterModel { state: run.state, ..chapter },
            ),
            ..m
        },
    )
}

/// What came out of writing a chapter and the entry for the session journal.
pub struct WrittenChapter {
    /// Outcome.
    pub run: ChapterRun,
    /// Entry for the session journal.
    pub entry: SessionEntry,
}

impl ChapterWork {
    fn context_hash(&self) -> (r: String)
        ensures
            r@ == context_digest(self@),
    {
        let known = match &self.receipt {
            Some(receipt) => match receipt.context_sha256() {
                Some(digest) => Some(digest.to_owned()),
                None => None,
            },
            None => None,
        };
        let base = match known {
            Some(digest) => digest,
            None => {
                let mut text = concat3(
                    self.chapter_id.as_str(),
                    ":",
                    self.candidate_hash.as_str(),
                );
                text.append(":");
                text.append(show_pairs(self.canon_hashes.as_slice()).as_str());
                text.append(":");
                text.append(show_receipts(self.corrections.as_slice()).as_str());
                sha256_text(text.as_str())
            },
        };
        let mut text = concat3("[", json_quote(base.as_str()).as_str(), ",");
        text.append(corrections_json(self.corrections.as_slice()).as_str());
        text.append("]");
        sha256_text(text.as_str())
    }
}

impl RunController {
    /// Records a chapter whose changeset passes the gates.  A run without a project has none.
    pub fn finish_chapter(&mut self, draft: SealedDraft, evidence: Option<GateEvidence>) -> (r: Result<
        WrittenChapter,
        String,
    >)
        requires
            has_key(old(self)@.chapters, draft@.work.chapter_id),
            old(self)@.project is Some ==> evidence is Some,
        ensures
            match finish_error(old(self)@, draft@, evidence) {
                Some(error) => r is Err && r->Err_0@ == error && final(self)@ == old(self)@,
                None => {
                    &&& r is Ok
                    &&& r->Ok_0.run@ == outcome(old(self)@, draft@.work, draft@.change)
                    &&& final(self)@ == with_outcome(old(self)@, draft@.work, r->Ok_0.run@)
                    &&& r->Ok_0.entry.event matches SessionEvent::ChangesetStateChanged { id, state }
                        && id@ == draft@.change.id && state == draft@.change.state
                    &&& r->Ok_0.entry.context_hash@ == context_digest(draft@.work)
                },
            },
    {
        match (&self.project, evidence) {
            (Some(project), Some(seen)) => {
                match check_gates(
                    project,
                    &seen.snapshot,
                    &draft.change,
                    seen.manifest,
                    draft.work.candidate_text.as_str(),
                    seen.sources.as_slice(),
                ) {
                    Err(error) => {
                        return Err(error);
                    },
                    Ok(()) => {},
                }
            },
            _ => {},
        }
        Ok(self.record_chapter(&draft.work, draft.change))
    }

    fn record_chapter(&mut self, work: &ChapterWork, change: Changeset) -> (r: WrittenChapter)
        requires
            has_key(old(self)@.chapters, work@.chapter_id),
        ensures
            r.run@ == outcome(old(self)@, work@, change@),
            final(self)@ == with_outcome(old(self)@, work@, r.run@),
            r.entry.event matches SessionEvent::ChangesetStateChanged { id, state } && id@
                == change@.id && state == change@.state,
            r.entry.context_hash@ == context_digest(work@),
    {
        let blocking = blocked(work.findings.as_slice(), work.candidate_hash.as_str());
        let state = if blocking {
            ChapterState::Candidate
        } else {
            ChapterState::Approvable
        };
        let event = SessionEvent::ChangesetStateChanged {
            id: change.id.copy(),
            state: change.state,
        };
        let context_hash = work.context_hash();
        let run = ChapterRun {
            chapter_id: work.chapter_id.clone(),
            changeset: change,
            state,
            trace: work.trace.copy(),
            findings: copy_findings(work.findings.as_slice()),
            correction_receipts: copy_receipts(work.corrections.as_slice()),
            provisional_canon_hashes: copy_pairs(work.canon_hashes.as_slice()),
            provisional_canon_texts: copy_pairs(work.canon_texts.as_slice()),
            context_receipt_hash: context_hash.clone(),
            context_receipt: copy_opt_receipt(&work.receipt),
            role_context_receipts: copy_role_receipts(&work.role_receipts),
            candidate_text: work.candidate_text.clone(),
            preflight: self.preflight,
        };
        self.canon_hashes.insert(work.chapter_id.clone(), work.candidate_hash.clone());
        self.canon_texts.insert(work.chapter_id.clone(), work.candidate_text.clone());
        self.runs.insert(work.chapter_id.clone(), run.copy());
        let order: u32 = match self.chapters.get(work.chapter_id.as_str()) {
            Some(chapter) => chapter.order,
            None => 0,
        };
        let id = match self.chapters.get(work.chapter_id.as_str()) {
            Some(chapter) => chapter.id.clone(),
            None => String::new(),
        };
        self.chapters.insert(work.chapter_id.clone(), ChapterRecord { id, order, state });
        self.refresh_chapter_states();
        WrittenChapter { run, entry: SessionEntry { event, context_hash } }
    }
}

/// What the gates look at: the project as it is, what is wrong with the source manifest, and the
/// texts that a candidate must not repeat.
pub struct GateEvidence {
    /// Project.
    pub snapshot: ProjectSnapshot,
    /// Whether the source manifest can be read.
    pub manifest: Result<(), String>,
    /// Texts.
    pub sources: Vec<FileEntry>,
}

/// What keeps a candidate that is done from being recorded.
pub open spec fn finish_error(
    m: RunModel,
    draft: SealedModel,
    evidence: Option<GateEvidence>,
) -> Option<Seq<char>> {
    match (m.project, evidence) {
        (Some(project), Some(seen)) => gate_error(
            seen.snapshot,
            project.config.work_id@,
            draft.change,
            message(seen.manifest),
            draft.work.candidate_text,
            files(seen.sources@),
        ),
        _ => None,
    }
}

/// A chapter of a project is recorded only with a candidate that passed the gates: its changeset is
/// valid, but for findings and the order of approvals, the source manifest can be read, and no text
/// that it must not repeat has a copy in it that blocks.
pub proof fn recorded_chapter_passed_the_gates(
    m: RunModel,
    draft: SealedModel,
    evidence: GateEvidence,
)
    requires
        m.project is Some,
        finish_error(m, draft, Some(evidence)) is None,
    ensures
        ({
            let candidate = ChangeModel {
                state: ChangesetState::Approvable,
                unresolved_blocker_ids: Seq::empty(),
                ..draft.change
            };
            let verdict = change_verdict(
                evidence.snapshot,
                m.project->Some_0.config.work_id@,
                candidate,
            );
            &&& match verdict {
                Ok(()) => true,
                Err(refusal) => refusal.0 == ValidationErrorKind::DependencyOrder,
            }
            &&& evidence.manifest is Ok
            &&& quality_error(None, draft.work.candidate_text, files(evidence.sources@)) is None
        }),
{
}

/// What a quality gate says about a candidate, given the result of the near-copy scan.
pub open spec fn copy_gate(
    result: Result<Seq<crate::copycheck::FindingModel>, ScanErrorModel>,
) -> Option<Seq<char>> {
    match result {
        Err(error) => Some("near-copy validator stopped: "@ + scan_error_text(error)),
        Ok(list) => if exists|i: int| 0 <= i < list.len() && (#[trigger] list[i]).blocking {
            Some("near-copy validator found a blocking source match"@)
        } else {
            None
        },
    }
}

/// The sources that a candidate is compared with: files whose content is text.
pub open spec fn gate_sources(list: Seq<FileModel>, i: int) -> Seq<SourceModel>
    decreases i,
{
    if i <= 0 {
        Seq::empty()
    } else {
        let before = gate_sources(list, i - 1);
        if valid_utf8(list[i - 1].1) {
            before.push(
                SourceModel {
                    id: list[i - 1].0,
                    text: text_of(list[i - 1].1),
                    exempt: Seq::empty(),
                },
            )
        } else {
            before
        }
    }
}

fn allowed_sources(list: &[FileEntry]) -> (r: Vec<AllowedSource>)
    ensures
        source_models(r@) == gate_sources(files(list@), list@.len() as int),
{
    let ghost all = files(list@);
    let mut out: Vec<AllowedSource> = Vec::new();
    let mut i: usize = 0;
    assert(source_models(out@) =~= gate_sources(all, 0));
    while i < list.len()
        invariant
            i <= list@.len(),
            all == files(list@),
            source_models(out@) == gate_sources(all, i as int),
        decreases list@.len() - i,
    {
        assert(all[i as int] == list@[i as int]@);
        if let Ok(text) = decode(copy_bytes(list[i].bytes.as_slice())) {
            proof {
                crate::text::decoding_inverts_encoding(text@);
            }
            let ghost before = source_models(out@);
            let source = AllowedSource::plain(list[i].path.clone(), text);
            let ghost item = source@;
            assert(item.exempt =~= Seq::empty());
            out.push(source);
            assert(source_models(out@) =~= before.push(item));
        }
        i += 1;
    }
    out
}

/// What keeps the changeset of a chapter from passing the gates: it must be valid but for the
/// order of approvals, and its text must copy no source.
pub open spec fn gate_error(
    snapshot: ProjectSnapshot,
    work_id: Seq<char>,
    change: ChangeModel,
    manifest: Option<Seq<char>>,
    text: Seq<char>,
    sources: Seq<FileModel>,
) -> Option<Seq<char>> {
    let candidate = ChangeModel {
        state: ChangesetState::Approvable,
        unresolved_blocker_ids: Seq::empty(),
        ..change
    };
    match change_verdict(snapshot, work_id, candidate) {
        Err(refusal) => if refusal.0 != ValidationErrorKind::DependencyOrder {
            Some("validator changeset gate failed: "@ + refusal_text(refusal))
        } else {
            quality_error(manifest, text, sources)
        },
        Ok(()) => quality_error(manifest, text, sources),
    }
}

/// What keeps a candidate from passing the quality gates, given what is wrong with the source
/// manifest.
pub open spec fn quality_error(
    manifest: Option<Seq<char>>,
    text: Seq<char>,
    sources: Seq<FileModel>,
) -> Option<Seq<char>> {
    match manifest {
        Some(error) => Some(error),
        None => copy_gate(
            scan_result(
                text,
                gate_sources(sources, sources.len() as int),
                CopyPolicy {
                    exact_cjk_graphemes: 80,
                    exact_words: 40,
                    ngram_size: 8,
                    ngram_cjk_window: 160,
                    ngram_word_window: 80,
                    ngram_overlap_percent: 85,
                },
            ),
        ),
    }
}

fn any_blocking_copy(list: &[CopyFinding]) -> (r: bool)
    ensures
        r == (exists|i: int|
            0 <= i < list@.len() && (#[trigger] crate::copycheck::finding_models(
                list@,
            )[i]).blocking),
{
    let ghost all = crate::copycheck::finding_models(list@);
    let mut i: usize = 0;
    while i < list.len()
        invariant
            i <= list@.len(),
            all == crate::copycheck::finding_models(list@),
            forall|k: int| 0 <= k < i ==> !(#[trigger] all[k]).blocking,
        decreases list@.len() - i,
    {
        assert(all[i as int] == list@[i as int]@);
        if list[i].blocking {
            return true;
        }
        i += 1;
    }
    false
}

/// Checks a candidate against the quality gates, given what is wrong with the source manifest.
pub fn validate_project_quality_gates(
    manifest: Result<(), String>,
    candidate_text: &str,
    sources: &[FileEntry],
) -> (r: Result<(), String>)
    ensures
        match quality_error(message(manifest), candidate_text@, files(sources@)) {
            Some(error) => r is Err && r->Err_0@ == error,
            None => r is Ok,
        },
{
    match manifest {
        Err(error) => {
            return Err(error);
        },
        Ok(()) => {},
    }
    let allowed = allowed_sources(sources);
    assert(files(sources@).len() == sources@.len());
    match scan_near_copy(candidate_text, allowed.as_slice(), &CopyPolicy::default()) {
        Err(error) => Err(concat2("near-copy validator stopped: ", error.to_text().as_str())),
        Ok(list) => {
            assert(crate::copycheck::finding_models(list@).len() == list@.len());
            if any_blocking_copy(list.as_slice()) {
                Err("near-copy validator found a blocking source match".to_owned())
            } else {
                Ok(())
            }
        },
    }
}

/// Checks the changeset of a chapter against the gates, given what is wrong with the source
/// manifest.
pub fn check_gates(
    project: &Project,
    snapshot: &ProjectSnapshot,
    change: &Changeset,
    manifest: Result<(), String>,
    candidate_text: &str,
    sources: &[FileEntry],
) -> (r: Result<(), String>)
    ensures
        match gate_error(
            *snapshot,
            project.config.work_id@,
            change@,
            message(manifest),
            candidate_text@,
            files(sources@),
        ) {
            Some(error) => r is Err && r->Err_0@ == error,
            None => r is Ok,
        },
{
    let mut candidate = change.copy();
    candidate.state = ChangesetState::Approvable;
    candidate.unresolved_blocker_ids = Vec::new();
    assert(candidate@.unresolved_blocker_ids =~= Seq::<Seq<char>>::empty());
    match validate_changeset(project, snapshot, &candidate) {
        Err(error) => {
            if error.kind() != ValidationErrorKind::DependencyOrder {
                return Err(
                    concat2("validator changeset gate failed: ", error.to_text().as_str()),
                );
            }
        },
        Ok(()) => {},
    }
    validate_project_quality_gates(manifest, candidate_text, sources)
}

/// The writing of a chapter starts exactly where plans, price and cost allow it, the run needs no
/// recovery, and the chapter is not outdated.
pub proof fn started_chapter_is_authorized(m: RunModel, chapter_id: Seq<char>)
    ensures
        first_refusal(m, chapter_id) is None <==> {
            &&& write_refusal(m, chapter_id) is None
            &&& !m.recovery_required
            &&& start_error(m, chapter_id) is None
        },
{
}

/// A consent counts once: after a chapter that may cost more than $5 was started, or refused for the
/// state of run or chapter, no chapter is started at that price before a human agrees again.
pub proof fn consent_counts_once(
    m: RunModel,
    chapter_id: Seq<char>,
    status: CostStatus,
    later: Seq<char>,
)
    requires
        write_refusal(m, chapter_id) is None,
        m.request_maximum->Some_0@ * maximum_calls(m.max_revisions) > 5_000_000,
    ensures
        first_refusal(started(consent_used(m), chapter_id, status), later) is Some,
        first_refusal(refused_run(m, chapter_id), later) is Some,
{
}

/// A chapter that may cost more than $5 is started only with the consent of a human, and none that
/// may cost more than $10 is started at all.
pub proof fn cost_needs_consent(m: RunModel, chapter_id: Seq<char>)
    requires
        first_refusal(m, chapter_id) is None,
    ensures
        m.request_maximum is Some,
        m.request_maximum->Some_0@ * maximum_calls(m.max_revisions) <= 10_000_000,
        m.request_maximum->Some_0@ * maximum_calls(m.max_revisions) > 5_000_000
            ==> m.cost_warning_confirmed,
{
}

/// A chapter takes at most two revisions and at most eighteen reviews, and no more than three
/// critics work at once.
pub proof fn work_is_bounded(w: WorkModel)
    requires
        work_wf(w),
    ensures
        w.trace.reviser_calls <= 2,
        w.trace.critic_calls <= 18,
        w.batch.len() <= 3,
        asked_roles(w).len() <= 3,
{
}

/// Nothing blocks a chapter that comes out approvable, and its changeset names no blocker.
pub proof fn approvable_outcome_is_clean(m: RunModel, w: WorkModel)
    requires
        outcome(m, w, changeset_of(m, w)).state == ChapterState::Approvable,
    ensures
        !any_blocks(w.findings, w.candidate_hash),
        changeset_of(m, w).state == ChangesetState::Approvable,
        changeset_of(m, w).unresolved_blocker_ids.len() == 0,
{
    lemma_no_blockers(w.findings, w.candidate_hash, w.findings.len() as int);
}

proof fn lemma_no_blockers(list: Seq<FindingModel>, candidate_hash: Seq<char>, i: int)
    requires
        !any_blocks(list, candidate_hash),
        0 <= i <= list.len(),
    ensures
        blocker_ids(list, candidate_hash, i).len() == 0,
    decreases i,
{
    if i > 0 {
        lemma_no_blockers(list, candidate_hash, i - 1);
        assert(!finding_blocks(list[i - 1], candidate_hash));
    }
}

/// Work in the phase of revision goes on to reviews of the critics that failed alone.
pub proof fn only_failing_critics_review_again(w: WorkModel, prepared: Option<PreparedModel>)
    requires
        w.failing.len() > 0,
    ensures
        ({
            let next = revision_prepared(w, prepared);
            next.batch + next.remaining == w.failing && next.rerun && next.failing.len() == 0
        }),
{
    let n = if w.failing.len() < 3 {
        w.failing.len() as int
    } else {
        3
    };
    assert(w.failing.take(n) + w.failing.skip(n) =~= w.failing);
}

} // verus!
