//! The state of a run: chapters, findings, corrections and costs.
use vstd::prelude::*;
use vstd::string::StringExecFns;
use crate::candidate::{chapter_dependencies, first_dependency, manuscript_paths, manuscripts, parent_of, project_dependencies, refusal_text, revise_operations, revised_operations};
use crate::changeset::{approval_record_bytes, calculate_validation_hash, change_material, material_digest, record_bytes, same_dependencies, ChangeModel, Changeset, ChangesetState, DependencyModel, Refusal};
use crate::cost::{cancel_undoes_reserve, cancelled, cost_result, holds, new_reservation, reservation_is_held, request_position, reserve_error, reserved, settle_error, settled, unsettled, BudgetLedger, LedgerEvent, LedgerModel, MicroDollars, Price, Reservation, ReservationModel, Usage};
use crate::domain::{contains_id, has_id, ids, is_id_of, is_known_id, prefixed_uuid, EntityId, EntityKind};
use crate::findings::{any_blocks, blocked, finding_models, kind_blocks, new_finding, role_index, role_name, AgentRole, Finding, FindingDisposition, FindingKind, FindingModel, LengthUnit};
use crate::hash::{digest_text, sha256_bytes, sha256_text};
use crate::model::{definitions, messages, DEFAULT_MODEL, Failure, ModelFailure, ModelFailureClass, ModelMessage, ModelRequest, RequestModel, ToolDefinition, ToolDefinitionModel};
use crate::plot::{is_builtin_framework, is_builtin_name, structure_error, validate_structure, FrameworkDefinition, StoryScene, StoryStructure};
use crate::paths::{files, FileEntry, FileModel};
use crate::project::Project;
use crate::records::{approval_message, preflight_ready, received, rule_models, run_approvable, ApprovalError, ChapterModel, ChapterRecord, ChapterRun, ChapterState, CorrectionReceipt, CorrectionRule, CorrectionScope, CostStatus, PreflightReport, Received, RuleModel, RunRecord};
use crate::session::{Checkpoint, ContextEpoch, PRESERVED_RAW_TAIL_TOKENS, SessionEvent, SessionJournal};
use crate::sources::same_bytes;
use crate::table::{has_key, lookup, put, without, Entries, Table};
use crate::text::{blank, concat2, concat3, contains_text, has_prefix, is_blank, lossy, lossy_text, opt_text, parse_u64, parsed_u64, starts_with, str_eq, texts, utf8};
use crate::validation::{calculate_candidate_hash, candidate_digest, change_verdict, projected_root_hash, result_digest, validate_changeset, ProjectSnapshot};

pub mod chapter;

verus! {

/// The state of a run by the views of its parts.
pub struct RunModel {
    pub project: Option<Project>,
    /// Model of each role.
    pub models: Seq<Seq<char>>,
    pub chapters: Entries<ChapterModel>,
    pub runs: Entries<RunRecord>,
    pub findings: Entries<FindingModel>,
    /// Chapter that each finding is about.
    pub owners: Entries<Seq<char>>,
    pub corrections: Seq<RuleModel>,
    pub preflight: PreflightReport,
    pub strict_preflight: bool,
    pub structure_required: bool,
    pub length_unit: LengthUnit,
    pub min_length: usize,
    pub max_length: usize,
    pub max_revisions: usize,
    pub ledger: LedgerModel,
    pub request_maximum: Option<MicroDollars>,
    pub request_price: Option<Price>,
    pub cost_warning_confirmed: bool,
    pub cost_status: CostStatus,
    pub structure: Option<StoryStructure>,
    pub plot_framework: Option<Seq<char>>,
    pub strict_backend_errors: bool,
    /// Digests of the candidates of the run.
    pub canon_hashes: Entries<Seq<char>>,
    /// Texts of the candidates of the run.
    pub canon_texts: Entries<Seq<char>>,
    pub run_id: Seq<char>,
    pub recovery_required: bool,
}

/// The state of a run.
pub struct RunController {
    project: Option<Project>,
    models: Vec<String>,
    chapters: Table<ChapterRecord>,
    runs: Table<ChapterRun>,
    findings: Table<Finding>,
    owners: Table<String>,
    corrections: Vec<CorrectionRule>,
    preflight: PreflightReport,
    strict_preflight: bool,
    structure_required: bool,
    length_unit: LengthUnit,
    min_length: usize,
    max_length: usize,
    max_revisions: usize,
    ledger: BudgetLedger,
    request_maximum: Option<MicroDollars>,
    request_price: Option<Price>,
    cost_warning_confirmed: bool,
    cost_status: CostStatus,
    structure: Option<StoryStructure>,
    plot_framework: Option<String>,
    strict_backend_errors: bool,
    canon_hashes: Table<String>,
    canon_texts: Table<String>,
    run_id: String,
    recovery_required: bool,
}

impl View for RunController {
    type V = RunModel;

    closed spec fn view(&self) -> RunModel {
        RunModel {
            project: self.project,
            models: texts(self.models@),
            chapters: self.chapters@,
            runs: self.runs@,
            findings: self.findings@,
            owners: self.owners@,
            corrections: rule_models(self.corrections@),
            preflight: self.preflight,
            strict_preflight: self.strict_preflight,
            structure_required: self.structure_required,
            length_unit: self.length_unit,
            min_length: self.min_length,
            max_length: self.max_length,
            max_revisions: self.max_revisions,
            ledger: self.ledger@,
            request_maximum: self.request_maximum,
            request_price: self.request_price,
            cost_warning_confirmed: self.cost_warning_confirmed,
            cost_status: self.cost_status,
            structure: self.structure,
            plot_framework: opt_text(self.plot_framework),
            strict_backend_errors: self.strict_backend_errors,
            canon_hashes: self.canon_hashes@,
            canon_texts: self.canon_texts@,
            run_id: self.run_id@,
            recovery_required: self.recovery_required,
        }
    }
}

/// Whether a run knows a model for every role.
pub open spec fn run_wf(m: RunModel) -> bool {
    m.models.len() == 10
}

/// A ledger without any entry.
pub open spec fn empty_ledger() -> LedgerModel {
    LedgerModel {
        chapter_start: 0,
        run_start: 0,
        reservations: Seq::empty(),
        settled: Seq::empty(),
        warnings: Seq::empty(),
    }
}

/// Whether nothing was spent.
pub open spec fn nothing_spent(status: CostStatus) -> bool {
    status.chapter@ == 0 && status.run@ == 0 && !status.warning
}

/// Whether a run is new: strict, without chapters, with the bounds of a chapter and two revisions.
pub open spec fn is_new_run(m: RunModel) -> bool {
    &&& m.project is None
    &&& m.models == Seq::new(10, |i: int| DEFAULT_MODEL@)
    &&& m.chapters == Entries::<ChapterModel>::empty()
    &&& m.runs == Entries::<RunRecord>::empty()
    &&& m.findings == Entries::<FindingModel>::empty()
    &&& m.owners == Entries::<Seq<char>>::empty()
    &&& m.corrections == Seq::<RuleModel>::empty()
    &&& m.preflight == (PreflightReport {
        approved_scene_plan: false,
        approved_box_plan: false,
        macro_links: false,
    })
    &&& m.strict_preflight
    &&& m.structure_required
    &&& m.length_unit == LengthUnit::Graphemes
    &&& m.min_length == 8_000
    &&& m.max_length == 12_000
    &&& m.max_revisions == 2
    &&& m.ledger == empty_ledger()
    &&& m.request_maximum is None
    &&& m.request_price is None
    &&& !m.cost_warning_confirmed
    &&& nothing_spent(m.cost_status)
    &&& m.structure is None
    &&& m.plot_framework is None
    &&& m.strict_backend_errors
    &&& m.canon_hashes == Entries::<Seq<char>>::empty()
    &&& m.canon_texts == Entries::<Seq<char>>::empty()
    &&& is_id_of(m.run_id, EntityKind::Run)
    &&& !m.recovery_required
}

/// A run with a chapter.
pub open spec fn with_chapter(m: RunModel, id: Seq<char>, order: u32, state: ChapterState) -> RunModel {
    RunModel {
        chapters: put(m.chapters, id, ChapterModel { id: id, order: order, state: state }),
        ..m
    }
}

/// The report of plans that were all approved.
pub open spec fn all_plans() -> PreflightReport {
    PreflightReport { approved_scene_plan: true, approved_box_plan: true, macro_links: true }
}

/// A run for tests: every plan approved, no bounds on the length, failures of the model ignored.
pub open spec fn as_fixture(m: RunModel, maximum: Option<MicroDollars>) -> RunModel {
    RunModel {
        preflight: all_plans(),
        structure_required: false,
        min_length: 0,
        max_length: usize::MAX,
        strict_backend_errors: false,
        request_maximum: maximum,
        ..m
    }
}

/// The maximum cost of a request that a setting gives.
pub open spec fn maximum_setting(value: Option<Seq<char>>) -> Option<u64> {
    match value {
        Some(text) => parsed_u64(text),
        None => None,
    }
}

/// The settings of a run that come from outside.
#[derive(Debug)]
pub struct RunSettings {
    /// Maximum cost of a request.
    pub maximum_request: Option<String>,
    /// Price of a million input tokens.
    pub input_price: Option<String>,
    /// Price of a million output tokens.
    pub output_price: Option<String>,
    /// Declared structure.
    pub structure: Option<StoryStructure>,
    /// Declared framework.
    pub framework: Option<FrameworkDefinition>,
}

/// The framework name that a declared framework gives.
pub open spec fn declared_framework(id: Seq<char>) -> Seq<char> {
    if has_prefix(id, "custom:"@) {
        id
    } else {
        "custom:"@ + id
    }
}

fn parse_setting(value: &Option<String>) -> (r: Option<u64>)
    ensures
        r == maximum_setting(opt_text(*value)),
{
    match value {
        Some(text) => parse_u64(text.as_str()),
        None => None,
    }
}

impl RunController {
    /// Starts a run.
    pub fn new() -> (r: RunController)
        ensures
            is_new_run(r@),
            run_wf(r@),
    {
        let mut models: Vec<String> = Vec::new();
        let mut i: usize = 0;
        while i < 10
            invariant
                i <= 10,
                models@.len() == i,
                forall|k: int| 0 <= k < i ==> #[trigger] models@[k]@ == DEFAULT_MODEL@,
            decreases 10 - i,
        {
            models.push(DEFAULT_MODEL.to_owned());
            i += 1;
        }
        assert(texts(models@) =~= Seq::new(10, |i: int| DEFAULT_MODEL@));
        let run_id = prefixed_uuid(EntityKind::Run);
        let controller = RunController {
            project: None,
            models,
            chapters: Table::new(),
            runs: Table::new(),
            findings: Table::new(),
            owners: Table::new(),
            corrections: Vec::new(),
            preflight: PreflightReport::default(),
            strict_preflight: true,
            structure_required: true,
            length_unit: LengthUnit::Graphemes,
            min_length: 8_000,
            max_length: 12_000,
            max_revisions: 2,
            ledger: BudgetLedger::new(MicroDollars::zero(), MicroDollars::zero()),
            request_maximum: None,
            request_price: None,
            cost_warning_confirmed: false,
            cost_status: CostStatus {
                chapter: MicroDollars::zero(),
                run: MicroDollars::zero(),
                warning: false,
            },
            structure: None,
            plot_framework: None,
            strict_backend_errors: true,
            canon_hashes: Table::new(),
            canon_texts: Table::new(),
            run_id: run_id.as_str().to_owned(),
            recovery_required: false,
        };
        assert(controller@.corrections =~= Seq::<RuleModel>::empty());
        controller
    }

    /// Starts a run for tests with one planned chapter.
    pub fn fixture() -> (r: RunController)
        ensures
            exists|start: RunModel, maximum: MicroDollars| #[trigger]
                is_new_run(start) && maximum@ == 100_000 && r@ == with_chapter(
                    #[trigger] as_fixture(start, Some(maximum)),
                    "chapter_1"@,
                    1,
                    ChapterState::Planned,
                ),
            has_key(r@.chapters, "chapter_1"@),
            run_wf(r@),
    {
        let mut controller = RunController::new();
        let ghost start = controller@;
        let maximum = MicroDollars::new(100_000);
        controller.make_fixture(maximum);
        assert(controller@ == as_fixture(start, Some(maximum)));
        controller.register_chapter("chapter_1".to_owned(), 1, ChapterState::Planned);
        controller
    }

    fn make_fixture(&mut self, maximum: MicroDollars)
        ensures
            final(self)@ == as_fixture(old(self)@, Some(maximum)),
    {
        self.preflight = PreflightReport {
            approved_scene_plan: true,
            approved_box_plan: true,
            macro_links: true,
        };
        self.structure_required = false;
        self.min_length = 0;
        self.max_length = usize::MAX;
        self.strict_backend_errors = false;
        self.request_maximum = Some(maximum);
    }

    /// Starts a run for tests in a project.
    pub fn fixture_with_project(project: Project) -> (r: RunController)
        ensures
            exists|start: RunModel, maximum: MicroDollars| #[trigger]
                is_new_run(start) && maximum@ == 100_000 && r@ == (RunModel {
                    project: Some(project),
                    ..#[trigger] as_fixture(start, Some(maximum))
                }),
            run_wf(r@),
    {
        let mut controller = RunController::new();
        let ghost start = controller@;
        let maximum = MicroDollars::new(100_000);
        controller.make_fixture(maximum);
        assert(controller@ == as_fixture(start, Some(maximum)));
        controller.project = Some(project);
        controller
    }

    /// Starts a run for tests with an approved, a candidate and an approved chapter.
    pub fn continuous_fixture() -> (r: RunController)
        ensures
            exists|start: RunModel, maximum: MicroDollars| #[trigger]
                is_new_run(start) && maximum@ == 100_000 && r@ == with_chapter(
                    with_chapter(
                        with_chapter(
                            #[trigger] as_fixture(start, Some(maximum)),
                            "chapter_1"@,
                            1,
                            ChapterState::Approved,
                        ),
                        "chapter_2"@,
                        2,
                        ChapterState::Candidate,
                    ),
                    "chapter_3"@,
                    3,
                    ChapterState::Approved,
                ),
            run_wf(r@),
    {
        let mut controller = RunController::new();
        let ghost start = controller@;
        let maximum = MicroDollars::new(100_000);
        controller.make_fixture(maximum);
        assert(controller@ == as_fixture(start, Some(maximum)));
        controller.register_chapter("chapter_1".to_owned(), 1, ChapterState::Approved);
        controller.register_chapter("chapter_2".to_owned(), 2, ChapterState::Candidate);
        controller.register_chapter("chapter_3".to_owned(), 3, ChapterState::Approved);
        controller
    }

    /// Starts a run in a project with the settings that come from outside.  A maximum or a price
    /// that is no number, and a structure that is not valid, are ignored.
    pub fn with_project(project: Project, settings: RunSettings) -> (r: RunController)
        ensures
            exists|start: RunModel| #[trigger]
                is_new_run(start) && {
                    let declared = settings.structure is Some && structure_error(
                        settings.structure->Some_0,
                    ) is None;
                    let input = maximum_setting(opt_text(settings.input_price));
                    let output = maximum_setting(opt_text(settings.output_price));
                    &&& match maximum_setting(opt_text(settings.maximum_request)) {
                        Some(n) => r@.request_maximum is Some && r@.request_maximum->Some_0@ == n,
                        None => r@.request_maximum is None,
                    }
                    &&& if input is Some && output is Some {
                        r@.request_price is Some && r@.request_price->Some_0.input_per_million@
                            == input->Some_0 && r@.request_price->Some_0.output_per_million@
                            == output->Some_0
                    } else {
                        r@.request_price is None
                    }
                    &&& r@ == (RunModel {
                        project: Some(project),
                        request_maximum: r@.request_maximum,
                        request_price: r@.request_price,
                        structure: if declared {
                            settings.structure
                        } else {
                            None
                        },
                        preflight: if declared {
                            all_plans()
                        } else {
                            start.preflight
                        },
                        plot_framework: match settings.framework {
                            Some(framework) => Some(declared_framework(framework.id@)),
                            None => None,
                        },
                        ..start
                    })
                },
            run_wf(r@),
    {
        let mut controller = RunController::new();
        let ghost start = controller@;
        controller.project = Some(project);
        if let Some(value) = parse_setting(&settings.maximum_request) {
            controller.request_maximum = Some(MicroDollars::new(value));
        }
        if let Some(input) = parse_setting(&settings.input_price) {
            if let Some(output) = parse_setting(&settings.output_price) {
                controller.request_price = Some(
                    Price {
                        input_per_million: MicroDollars::new(input),
                        output_per_million: MicroDollars::new(output),
                    },
                );
            }
        }
        if let Some(structure) = settings.structure {
            if validate_structure(&structure).is_ok() {
                controller.structure = Some(structure);
                controller.preflight = PreflightReport {
                    approved_scene_plan: true,
                    approved_box_plan: true,
                    macro_links: true,
                };
            }
        }
        if let Some(framework) = settings.framework {
            controller.plot_framework = Some(
                if starts_with(framework.id.as_str(), "custom:") {
                    framework.id
                } else {
                    concat2("custom:", framework.id.as_str())
                },
            );
        }
        assert(is_new_run(start));
        controller
    }

    /// Returns the approved story structure.
    pub fn structure(&self) -> (r: Option<&StoryStructure>)
        ensures
            match r {
                Some(structure) => self@.structure == Some(*structure),
                None => self@.structure is None,
            },
    {
        match &self.structure {
            Some(structure) => Some(structure),
            None => None,
        }
    }

    /// Returns the project.
    pub fn project(&self) -> (r: Option<&Project>)
        ensures
            match r {
                Some(project) => self@.project == Some(*project),
                None => self@.project is None,
            },
    {
        match &self.project {
            Some(project) => Some(project),
            None => None,
        }
    }

    /// Enters a chapter into the run.
    pub fn register_chapter(&mut self, id: String, order: u32, state: ChapterState)
        ensures
            final(self)@ == with_chapter(old(self)@, id@, order, state),
            lookup(final(self)@.chapters, id@) == Some(ChapterModel { id: id@, order, state }),
            has_key(final(self)@.chapters, id@),
    {
        let record = ChapterRecord { id: id.clone(), order, state };
        proof {
            lemma_put_lookup(self@.chapters, id@, record@);
        }
        self.chapters.insert(id, record);
    }

    /// Returns a chapter of the run.
    pub fn chapter(&self, id: &str) -> (r: &ChapterRecord)
        requires
            has_key(self@.chapters, id@),
        ensures
            lookup(self@.chapters, id@) == Some(r@),
    {
        self.chapters.get(id).unwrap()
    }

    /// Returns a chapter, where the run has it.
    pub fn chapter_opt(&self, id: &str) -> (r: Option<&ChapterRecord>)
        ensures
            match r {
                Some(chapter) => lookup(self@.chapters, id@) == Some(chapter@),
                None => lookup(self@.chapters, id@) is None,
            },
    {
        self.chapters.get(id)
    }

    /// Returns what came out of writing a chapter.
    pub fn chapter_run(&self, id: &str) -> (r: Option<&ChapterRun>)
        ensures
            match r {
                Some(run) => lookup(self@.runs, id@) == Some(run@),
                None => lookup(self@.runs, id@) is None,
            },
    {
        self.runs.get(id)
    }

    /// Returns a finding.
    pub fn finding(&self, id: &str) -> (r: Option<&Finding>)
        ensures
            match r {
                Some(finding) => lookup(self@.findings, id@) == Some(finding@),
                None => lookup(self@.findings, id@) is None,
            },
    {
        self.findings.get(id)
    }

    /// Records which plans were approved.
    pub fn set_preflight(
        &mut self,
        approved_scene_plan: bool,
        approved_box_plan: bool,
        macro_links: bool,
    )
        ensures
            final(self)@ == (RunModel {
                preflight: PreflightReport {
                    approved_scene_plan: approved_scene_plan,
                    approved_box_plan: approved_box_plan,
                    macro_links: macro_links,
                },
                ..old(self)@
            }),
    {
        self.preflight = PreflightReport { approved_scene_plan, approved_box_plan, macro_links };
    }

    /// Takes a valid structure.
    pub fn set_structure(&mut self, structure: StoryStructure) -> (r: Result<(), String>)
        ensures
            match structure_error(structure) {
                Some(error) => r is Err && r->Err_0@ == error && final(self)@ == old(self)@,
                None => r is Ok && final(self)@ == (RunModel {
                    structure: Some(structure),
                    ..old(self)@
                }),
            },
    {
        match validate_structure(&structure) {
            Err(error) => Err(error),
            Ok(()) => {
                self.structure = Some(structure);
                Ok(())
            },
        }
    }

    /// Takes a framework that comes with the program or that is custom.
    pub fn set_plot_framework(&mut self, framework: String) -> (r: Result<(), String>)
        ensures
            if is_builtin_name(framework@) || has_prefix(framework@, "custom:"@) {
                r is Ok && final(self)@ == (RunModel {
                    plot_framework: Some(framework@),
                    ..old(self)@
                })
            } else {
                r is Err && r->Err_0@ == "unknown plot framework "@ + framework@ && final(self)@
                    == old(self)@
            },
    {
        if is_builtin_framework(framework.as_str()) || starts_with(framework.as_str(), "custom:") {
            self.plot_framework = Some(framework);
            Ok(())
        } else {
            Err(concat2("unknown plot framework ", framework.as_str()))
        }
    }

    /// Sets the bounds on the length of a chapter.
    pub fn set_length_bounds(&mut self, unit: LengthUnit, minimum: usize, maximum: usize) -> (r:
        Result<(), String>)
        ensures
            if minimum <= maximum {
                r is Ok && final(self)@ == (RunModel {
                    length_unit: unit,
                    min_length: minimum,
                    max_length: maximum,
                    ..old(self)@
                })
            } else {
                r is Err && r->Err_0@ == "chapter length minimum exceeds maximum"@
                    && final(self)@ == old(self)@
            },
    {
        if minimum > maximum {
            return Err("chapter length minimum exceeds maximum".to_owned());
        }
        self.length_unit = unit;
        self.min_length = minimum;
        self.max_length = maximum;
        Ok(())
    }

    /// Sets the model of a role, or of all roles.
    pub fn set_model(&mut self, role: Option<AgentRole>, model: String) -> (r: Result<(), String>)
        requires
            run_wf(old(self)@),
        ensures
            run_wf(final(self)@),
            if is_blank(model@) {
                r is Err && r->Err_0@ == "model ID is required"@ && final(self)@ == old(self)@
            } else {
                r is Ok && final(self)@ == (RunModel {
                    models: match role {
                        Some(one) => old(self)@.models.update(role_index(one), model@),
                        None => Seq::new(10, |i: int| model@),
                    },
                    ..old(self)@
                })
            },
    {
        if blank(model.as_str()) {
            return Err("model ID is required".to_owned());
        }
        let ghost before = self@.models;
        match role {
            Some(role) => {
                let i: usize = role.index();
                let ghost text = model@;
                self.models.set(i, model);
                assert(texts(self.models@) =~= before.update(i as int, text));
            },
            None => {
                let mut all: Vec<String> = Vec::new();
                let mut i: usize = 0;
                while i < 10
                    invariant
                        i <= 10,
                        all@.len() == i,
                        forall|k: int| 0 <= k < i ==> #[trigger] all@[k]@ == model@,
                    decreases 10 - i,
                {
                    all.push(model.clone());
                    i += 1;
                }
                assert(texts(all@) =~= Seq::new(10, |i: int| model@));
                self.models = all;
            },
        }
        Ok(())
    }

    /// Returns the model of a role.
    pub fn model(&self, role: AgentRole) -> (r: &str)
        requires
            run_wf(self@),
        ensures
            r@ == self@.models[role_index(role)],
    {
        let i: usize = role.index();
        assert(texts(self.models@)[i as int] == self.models@[i as int]@);
        self.models[i].as_str()
    }

    /// Sets what a request may cost.
    pub fn set_request_maximum_cost(&mut self, maximum: Option<MicroDollars>)
        ensures
            final(self)@ == (RunModel { request_maximum: maximum, ..old(self)@ }),
    {
        self.request_maximum = maximum;
    }

    /// Sets the price of tokens.
    pub fn set_request_price(&mut self, price: Option<Price>)
        ensures
            final(self)@ == (RunModel { request_price: price, ..old(self)@ }),
    {
        self.request_price = price;
    }

    /// Records that a human agreed to the cost of the next chapter.
    pub fn confirm_cost_warning(&mut self)
        ensures
            final(self)@ == (RunModel { cost_warning_confirmed: true, ..old(self)@ }),
    {
        self.cost_warning_confirmed = true;
    }

    /// Returns what the run has cost.
    pub fn cost_status(&self) -> (r: CostStatus)
        ensures
            r == self@.cost_status,
    {
        self.cost_status
    }

    /// Returns the identifier of the run.
    pub fn run_id(&self) -> (r: &str)
        ensures
            r@ == self@.run_id,
    {
        self.run_id.as_str()
    }

    /// Takes up a ledger that was stored.
    pub fn attach_ledger(&mut self, ledger: BudgetLedger)
        ensures
            final(self)@ == (RunModel { ledger: ledger@, ..old(self)@ }),
    {
        self.ledger = ledger;
    }

    /// Records that an unfinished session was found, which a human must resolve.
    pub fn require_recovery(&mut self)
        ensures
            final(self)@ == (RunModel { recovery_required: true, ..old(self)@ }),
    {
        self.recovery_required = true;
    }
}

/// The state of a chapter behind one that was edited.
pub open spec fn demoted(state: ChapterState) -> ChapterState {
    match state {
        ChapterState::Approved | ChapterState::NeedsRevalidation => ChapterState::NeedsRevalidation,
        _ => ChapterState::Stale,
    }
}

/// The state of the changeset of a chapter behind one that was edited.
pub open spec fn demoted_change(state: ChapterState) -> ChangesetState {
    match demoted(state) {
        ChapterState::NeedsRevalidation => ChangesetState::NeedsRevalidation,
        _ => ChangesetState::Stale,
    }
}

/// The chapters after an edit of the chapter at a position.
pub open spec fn chapters_after_edit(
    chapters: Entries<ChapterModel>,
    order: u32,
) -> Entries<ChapterModel> {
    chapters.map_values(
        |entry: (Seq<char>, ChapterModel)|
            if entry.1.order > order {
                (entry.0, ChapterModel { state: demoted(entry.1.state), ..entry.1 })
            } else {
                entry
            },
    )
}

/// The outcomes after an edit of the chapter at a position, for the chapters from `i` on.
pub open spec fn runs_after_edit(
    runs: Entries<RunRecord>,
    chapters: Entries<ChapterModel>,
    order: u32,
    i: int,
) -> Entries<RunRecord>
    decreases chapters.len() - i,
{
    if i < 0 || i >= chapters.len() {
        runs
    } else {
        let chapter = chapters[i].1;
        let next = if chapter.order > order {
            match lookup(runs, chapter.id) {
                Some(run) => put(
                    runs,
                    chapter.id,
                    RunRecord {
                        state: demoted(chapter.state),
                        changeset: ChangeModel {
                            state: demoted_change(chapter.state),
                            ..run.changeset
                        },
                        ..run
                    },
                ),
                None => runs,
            }
        } else {
            runs
        };
        runs_after_edit(next, chapters, order, i + 1)
    }
}

/// The candidates of the run after an edit of the chapter at a position, for the chapters from
/// `i` on.
pub open spec fn canon_after_edit(
    canon: Entries<Seq<char>>,
    chapters: Entries<ChapterModel>,
    order: u32,
    i: int,
) -> Entries<Seq<char>>
    decreases chapters.len() - i,
{
    if i < 0 || i >= chapters.len() {
        canon
    } else if chapters[i].1.order > order {
        canon_after_edit(without(canon, chapters[i].1.id), chapters, order, i + 1)
    } else {
        canon_after_edit(canon, chapters, order, i + 1)
    }
}

/// The findings that are not about a chapter.
pub open spec fn findings_elsewhere(
    findings: Entries<FindingModel>,
    owners: Entries<Seq<char>>,
    chapter_id: Seq<char>,
) -> Entries<FindingModel> {
    findings.filter(
        |entry: (Seq<char>, FindingModel)| lookup(owners, entry.0) != Some(chapter_id),
    )
}

/// The run without the findings about a chapter.
pub open spec fn without_findings(m: RunModel, chapter_id: Seq<char>) -> RunModel {
    RunModel {
        findings: findings_elsewhere(m.findings, m.owners, chapter_id),
        owners: m.owners.filter(|entry: (Seq<char>, Seq<char>)| entry.1 != chapter_id),
        runs: match lookup(m.runs, chapter_id) {
            Some(run) => put(
                m.runs,
                chapter_id,
                RunRecord { findings: Seq::empty(), ..run },
            ),
            None => m.runs,
        },
        ..m
    }
}

/// The run without the findings about the chapters from `i` on that stand behind a position.
pub open spec fn without_later_findings(
    m: RunModel,
    chapters: Entries<ChapterModel>,
    order: u32,
    i: int,
) -> RunModel
    decreases chapters.len() - i,
{
    if i < 0 || i >= chapters.len() {
        m
    } else if chapters[i].1.order > order {
        without_later_findings(without_findings(m, chapters[i].1.id), chapters, order, i + 1)
    } else {
        without_later_findings(m, chapters, order, i + 1)
    }
}

/// The run after an edit of a chapter at a position: approved chapters behind it need
/// revalidation, others are stale, and nothing of them stands in the run's canon or findings.
pub open spec fn after_edit(m: RunModel, order: u32) -> RunModel {
    without_later_findings(
        RunModel {
            chapters: chapters_after_edit(m.chapters, order),
            runs: runs_after_edit(m.runs, m.chapters, order, 0),
            canon_hashes: canon_after_edit(m.canon_hashes, m.chapters, order, 0),
            canon_texts: canon_after_edit(m.canon_texts, m.chapters, order, 0),
            ..m
        },
        m.chapters,
        order,
        0,
    )
}

/// The outcome of writing a chapter once nothing blocks it.
pub open spec fn refreshed(run: RunRecord) -> RunRecord {
    if run.state == ChapterState::Candidate && !any_blocks(
        run.findings,
        run.changeset.candidate_hash,
    ) && preflight_ready(run.preflight) {
        RunRecord {
            state: ChapterState::Approvable,
            changeset: ChangeModel { state: ChangesetState::Approvable, ..run.changeset },
            ..run
        }
    } else {
        run
    }
}

/// The outcomes of writing chapters once nothing blocks them.
pub open spec fn refreshed_runs(runs: Entries<RunRecord>) -> Entries<RunRecord> {
    runs.map_values(|entry: (Seq<char>, RunRecord)| (entry.0, refreshed(entry.1)))
}

/// The chapters with the states of their outcomes from `i` on.
pub open spec fn chapters_of_runs(
    chapters: Entries<ChapterModel>,
    runs: Entries<RunRecord>,
    i: int,
) -> Entries<ChapterModel>
    decreases runs.len() - i,
{
    if i < 0 || i >= runs.len() {
        chapters
    } else {
        let run = runs[i].1;
        let next = match lookup(chapters, run.chapter_id) {
            Some(chapter) => put(
                chapters,
                run.chapter_id,
                ChapterModel { state: run.state, ..chapter },
            ),
            None => chapters,
        };
        chapters_of_runs(next, runs, i + 1)
    }
}

/// The run with every chapter in the state of its outcome.
pub open spec fn refreshed_model(m: RunModel) -> RunModel {
    RunModel {
        runs: refreshed_runs(m.runs),
        chapters: chapters_of_runs(m.chapters, refreshed_runs(m.runs), 0),
        ..m
    }
}

fn demote(state: ChapterState) -> (r: ChapterState)
    ensures
        r == demoted(state),
{
    match state {
        ChapterState::Approved | ChapterState::NeedsRevalidation => ChapterState::NeedsRevalidation,
        _ => ChapterState::Stale,
    }
}

fn demote_change(state: ChapterState) -> (r: ChangesetState)
    ensures
        r == demoted_change(state),
{
    match demote(state) {
        ChapterState::NeedsRevalidation => ChangesetState::NeedsRevalidation,
        _ => ChangesetState::Stale,
    }
}

impl RunController {
    /// Removes the findings about a chapter.
    pub fn invalidate_chapter_findings(&mut self, chapter_id: &str)
        ensures
            final(self)@ == without_findings(old(self)@, chapter_id@),
    {
        let ghost start = self@;
        let mut kept: Table<Finding> = Table::new();
        let mut i: usize = 0;
        let ghost elsewhere = |entry: (Seq<char>, FindingModel)|
            lookup(start.owners, entry.0) != Some(chapter_id@);
        proof {
            reveal(Seq::filter);
            assert(start.findings.take(0) =~= Seq::empty());
        }
        while i < self.findings.len()
            invariant
                i <= self.findings@.len(),
                self@ == start,
                kept@ == start.findings.take(i as int).filter(elsewhere),
                elsewhere == (|entry: (Seq<char>, FindingModel)|
                    lookup(start.owners, entry.0) != Some(chapter_id@)),
            decreases self.findings@.len() - i,
        {
            let ghost t = start.findings.take(i + 1);
            proof {
                reveal(Seq::filter);
                assert(t.drop_last() =~= start.findings.take(i as int));
                assert(t.last() == start.findings[i as int]);
            }
            let key = self.findings.key(i);
            let here = match self.owners.get(key) {
                Some(owner) => str_eq(owner.as_str(), chapter_id),
                None => false,
            };
            if !here {
                kept.push_last(key.to_owned(), self.findings.value(i).copy());
            }
            i += 1;
        }
        assert(start.findings.take(i as int) =~= start.findings);
        let mut owners: Table<String> = Table::new();
        let mut j: usize = 0;
        let ghost other = |entry: (Seq<char>, Seq<char>)| entry.1 != chapter_id@;
        proof {
            reveal(Seq::filter);
            assert(start.owners.take(0) =~= Seq::empty());
        }
        while j < self.owners.len()
            invariant
                j <= self.owners@.len(),
                self@ == start,
                owners@ == start.owners.take(j as int).filter(other),
                other == (|entry: (Seq<char>, Seq<char>)| entry.1 != chapter_id@),
            decreases self.owners@.len() - j,
        {
            let ghost t = start.owners.take(j + 1);
            proof {
                reveal(Seq::filter);
                assert(t.drop_last() =~= start.owners.take(j as int));
                assert(t.last() == start.owners[j as int]);
            }
            if !str_eq(self.owners.value(j).as_str(), chapter_id) {
                owners.push_last(self.owners.key(j).to_owned(), self.owners.value(j).clone());
            }
            j += 1;
        }
        assert(start.owners.take(j as int) =~= start.owners);
        self.findings = kept;
        self.owners = owners;
        let cleared = match self.runs.get(chapter_id) {
            Some(run) => {
                let mut copy = run.copy();
                copy.findings = Vec::new();
                assert(copy@.findings =~= Seq::<FindingModel>::empty());
                Some(copy)
            },
            None => None,
        };
        if let Some(run) = cleared {
            self.runs.insert(chapter_id.to_owned(), run);
        }
    }

    fn demote_runs(&mut self, order: u32)
        ensures
            final(self)@ == (RunModel {
                runs: runs_after_edit(old(self)@.runs, old(self)@.chapters, order, 0),
                canon_hashes: canon_after_edit(
                    old(self)@.canon_hashes,
                    old(self)@.chapters,
                    order,
                    0,
                ),
                canon_texts: canon_after_edit(
                    old(self)@.canon_texts,
                    old(self)@.chapters,
                    order,
                    0,
                ),
                ..old(self)@
            }),
    {
        let ghost start = self@;
        let mut i: usize = 0;
        while i < self.chapters.len()
            invariant
                i <= self.chapters@.len(),
                start == old(self)@,
                self@ == (RunModel {
                    runs: self@.runs,
                    canon_hashes: self@.canon_hashes,
                    canon_texts: self@.canon_texts,
                    ..start
                }),
                runs_after_edit(start.runs, start.chapters, order, 0) == runs_after_edit(
                    self@.runs,
                    start.chapters,
                    order,
                    i as int,
                ),
                canon_after_edit(start.canon_hashes, start.chapters, order, 0) == canon_after_edit(
                    self@.canon_hashes,
                    start.chapters,
                    order,
                    i as int,
                ),
                canon_after_edit(start.canon_texts, start.chapters, order, 0) == canon_after_edit(
                    self@.canon_texts,
                    start.chapters,
                    order,
                    i as int,
                ),
            decreases self.chapters@.len() - i,
        {
            let chapter = self.chapters.value(i);
            if chapter.order > order {
                let id = chapter.id.clone();
                let state = chapter.state;
                let changed = match self.runs.get(id.as_str()) {
                    Some(run) => {
                        let mut copy = run.copy();
                        copy.state = demote(state);
                        copy.changeset.state = demote_change(state);
                        Some(copy)
                    },
                    None => None,
                };
                if let Some(run) = changed {
                    self.runs.insert(id.clone(), run);
                }
                let _ = self.canon_hashes.remove(id.as_str());
                let _ = self.canon_texts.remove(id.as_str());
            }
            i += 1;
        }
    }

    fn demote_chapters(&mut self, order: u32)
        ensures
            final(self)@ == (RunModel {
                chapters: chapters_after_edit(old(self)@.chapters, order),
                ..old(self)@
            }),
    {
        let ghost start = self@;
        let ghost goal = chapters_after_edit(start.chapters, order);
        let mut i: usize = 0;
        while i < self.chapters.len()
            invariant
                i <= self.chapters@.len(),
                start == old(self)@,
                goal == chapters_after_edit(start.chapters, order),
                self@ == (RunModel { chapters: self@.chapters, ..start }),
                self@.chapters.len() == start.chapters.len(),
                forall|k: int| 0 <= k < i ==> #[trigger] self@.chapters[k] == goal[k],
                forall|k: int|
                    i <= k < start.chapters.len() ==> #[trigger] self@.chapters[k]
                        == start.chapters[k],
            decreases self.chapters@.len() - i,
        {
            let chapter = self.chapters.value(i);
            assert(self@.chapters[i as int] == start.chapters[i as int]);
            if chapter.order > order {
                let next = ChapterRecord {
                    id: chapter.id.clone(),
                    order: chapter.order,
                    state: demote(chapter.state),
                };
                self.chapters.replace(i, next);
            }
            i += 1;
        }
        assert(self@.chapters =~= goal);
    }

    fn chapter_list(&self) -> (r: Vec<(String, u32)>)
        ensures
            r@.len() == self@.chapters.len(),
            forall|k: int|
                0 <= k < r@.len() ==> (#[trigger] r@[k]).0@ == self@.chapters[k].1.id && r@[k].1
                    == self@.chapters[k].1.order,
    {
        let mut out: Vec<(String, u32)> = Vec::new();
        let mut i: usize = 0;
        while i < self.chapters.len()
            invariant
                i <= self.chapters@.len(),
                out@.len() == i,
                forall|k: int|
                    0 <= k < i ==> (#[trigger] out@[k]).0@ == self.chapters@[k].1.id && out@[k].1
                        == self.chapters@[k].1.order,
            decreases self.chapters@.len() - i,
        {
            let chapter = self.chapters.value(i);
            out.push((chapter.id.clone(), chapter.order));
            i += 1;
        }
        out
    }

    fn apply_edit(&mut self, order: u32)
        ensures
            final(self)@ == after_edit(old(self)@, order),
    {
        let ghost start = self@;
        let list = self.chapter_list();
        self.demote_runs(order);
        self.demote_chapters(order);
        let ghost middle = self@;
        let mut i: usize = 0;
        while i < list.len()
            invariant
                i <= list@.len(),
                list@.len() == start.chapters.len(),
                forall|k: int|
                    0 <= k < list@.len() ==> (#[trigger] list@[k]).0@ == start.chapters[k].1.id
                        && list@[k].1 == start.chapters[k].1.order,
                without_later_findings(middle, start.chapters, order, 0) == without_later_findings(
                    self@,
                    start.chapters,
                    order,
                    i as int,
                ),
            decreases list@.len() - i,
        {
            assert(list@[i as int].0@ == start.chapters[i as int].1.id);
            if list[i].1 > order {
                self.invalidate_chapter_findings(list[i].0.as_str());
            }
            i += 1;
        }
    }

    /// Marks the chapters behind a chapter that was edited.
    pub fn note_upstream_edit(&mut self, chapter_id: &str) -> (r: Result<(), String>)
        ensures
            match lookup(old(self)@.chapters, chapter_id@) {
                Some(chapter) => r is Ok && final(self)@ == after_edit(old(self)@, chapter.order),
                None => r is Err && r->Err_0@ == "chapter "@ + chapter_id@ + " was not found"@
                    && final(self)@ == old(self)@,
            },
    {
        let order: u32 = match self.chapters.get(chapter_id) {
            None => {
                return Err(concat3("chapter ", chapter_id, " was not found"));
            },
            Some(chapter) => chapter.order,
        };
        self.apply_edit(order);
        Ok(())
    }

    fn refresh_runs(&mut self)
        ensures
            final(self)@ == (RunModel { runs: refreshed_runs(old(self)@.runs), ..old(self)@ }),
    {
        let ghost start = self@;
        let ghost goal = refreshed_runs(start.runs);
        let mut i: usize = 0;
        while i < self.runs.len()
            invariant
                i <= self.runs@.len(),
                start == old(self)@,
                goal == refreshed_runs(start.runs),
                self@ == (RunModel { runs: self@.runs, ..start }),
                self@.runs.len() == start.runs.len(),
                forall|k: int| 0 <= k < i ==> #[trigger] self@.runs[k] == goal[k],
                forall|k: int|
                    i <= k < start.runs.len() ==> #[trigger] self@.runs[k] == start.runs[k],
            decreases self.runs@.len() - i,
        {
            let run = self.runs.value(i);
            assert(self@.runs[i as int] == start.runs[i as int]);
            if run.state == ChapterState::Candidate && !blocked(
                run.findings.as_slice(),
                run.changeset.candidate_hash.as_str(),
            ) && run.preflight.is_ready() {
                let mut copy = run.copy();
                copy.state = ChapterState::Approvable;
                copy.changeset.state = ChangesetState::Approvable;
                self.runs.replace(i, copy);
            }
            i += 1;
        }
        assert(self@.runs =~= goal);
    }

    /// Makes candidates approvable that nothing blocks, and brings every chapter to the state of
    /// its outcome.
    pub fn refresh_chapter_states(&mut self)
        ensures
            final(self)@ == refreshed_model(old(self)@),
    {
        let ghost start = self@;
        self.refresh_runs();
        let ghost runs = self@.runs;
        let mut i: usize = 0;
        while i < self.runs.len()
            invariant
                i <= self.runs@.len(),
                runs == refreshed_runs(start.runs),
                start == old(self)@,
                self@ == (RunModel { runs: runs, chapters: self@.chapters, ..start }),
                chapters_of_runs(start.chapters, runs, 0) == chapters_of_runs(
                    self@.chapters,
                    runs,
                    i as int,
                ),
            decreases self.runs@.len() - i,
        {
            let run = self.runs.value(i);
            let id = run.chapter_id.clone();
            let state = run.state;
            assert(run@ == runs[i as int].1);
            let changed = match self.chapters.get(id.as_str()) {
                Some(chapter) => Some(
                    ChapterRecord { id: chapter.id.clone(), order: chapter.order, state },
                ),
                None => None,
            };
            if let Some(chapter) = changed {
                self.chapters.insert(id, chapter);
            }
            i += 1;
        }
    }
}

/// The digest of the candidate of a chapter; that of nothing where it has none.
pub open spec fn candidate_of(m: RunModel, chapter_id: Seq<char>) -> Seq<char> {
    match lookup(m.runs, chapter_id) {
        Some(run) => run.changeset.candidate_hash,
        None => digest_text(Seq::empty()),
    }
}

/// The outcome of writing a chapter with one more finding.
pub open spec fn run_with_finding(run: RunRecord, finding: FindingModel) -> RunRecord {
    RunRecord {
        findings: run.findings.push(finding),
        state: ChapterState::Candidate,
        changeset: ChangeModel {
            state: ChangesetState::Reviewing,
            unresolved_blocker_ids: if kind_blocks(finding.kind)
                && !run.changeset.unresolved_blocker_ids.contains(finding.id) {
                run.changeset.unresolved_blocker_ids.push(finding.id)
            } else {
                run.changeset.unresolved_blocker_ids
            },
            ..run.changeset
        },
        ..run
    }
}

/// The run with one more finding about a chapter.
pub open spec fn with_finding(m: RunModel, chapter_id: Seq<char>, finding: FindingModel) -> RunModel {
    RunModel {
        owners: put(m.owners, finding.id, chapter_id),
        findings: put(m.findings, finding.id, finding),
        runs: match lookup(m.runs, chapter_id) {
            Some(run) => put(m.runs, chapter_id, run_with_finding(run, finding)),
            None => m.runs,
        },
        ..m
    }
}

/// What keeps a finding from being resolved.
pub open spec fn resolve_error(m: RunModel, finding_id: Seq<char>, reason: Seq<char>) -> Option<
    Seq<char>,
> {
    let owner = lookup(m.owners, finding_id);
    let run = match owner {
        Some(chapter_id) => lookup(m.runs, chapter_id),
        None => None,
    };
    if !is_known_id(finding_id) {
        Some("finding ID is invalid: "@ + finding_id)
    } else if is_blank(reason) {
        Some("false-positive reason is required"@)
    } else {
        match lookup(m.findings, finding_id) {
            None => Some("finding "@ + finding_id + " was not found"@),
            Some(finding) => if run is Some && finding.candidate_hash
                != run->Some_0.changeset.candidate_hash {
                Some("finding "@ + finding_id + " is stale after a candidate edit"@)
            } else if finding.resolved is Some {
                Some("finding "@ + finding_id + " is already resolved"@)
            } else {
                None
            },
        }
    }
}

/// Position of the first finding with an identifier, from a position on; the number of findings
/// where none has it.
pub open spec fn finding_from(list: Seq<FindingModel>, id: Seq<char>, i: int) -> int
    decreases list.len() - i,
{
    if i < 0 || i >= list.len() {
        list.len() as int
    } else if list[i].id == id {
        i
    } else {
        finding_from(list, id, i + 1)
    }
}

/// The texts that differ from one.
pub open spec fn differing(id: Seq<char>) -> spec_fn(Seq<char>) -> bool {
    |other: Seq<char>| other != id
}

/// The identifiers other than one of them.
pub open spec fn others(list: Seq<Seq<char>>, id: Seq<char>) -> Seq<Seq<char>> {
    list.filter(differing(id))
}

/// The outcome of writing a chapter once a finding was resolved.
pub open spec fn run_resolved(run: RunRecord, id: Seq<char>, reason: Seq<char>) -> RunRecord {
    let p = finding_from(run.findings, id, 0);
    if 0 <= p < run.findings.len() {
        RunRecord {
            findings: run.findings.update(
                p,
                FindingModel { resolved: Some(reason), ..run.findings[p] },
            ),
            changeset: ChangeModel {
                unresolved_blocker_ids: others(run.changeset.unresolved_blocker_ids, id),
                ..run.changeset
            },
            ..run
        }
    } else {
        run
    }
}

/// The run once a finding was resolved.
pub open spec fn with_resolution(m: RunModel, id: Seq<char>, reason: Seq<char>) -> RunModel {
    RunModel {
        findings: match lookup(m.findings, id) {
            Some(finding) => put(
                m.findings,
                id,
                FindingModel { resolved: Some(reason), ..finding },
            ),
            None => m.findings,
        },
        runs: match lookup(m.owners, id) {
            Some(chapter_id) => match lookup(m.runs, chapter_id) {
                Some(run) => put(m.runs, chapter_id, run_resolved(run, id, reason)),
                None => m.runs,
            },
            None => m.runs,
        },
        ..m
    }
}

/// An event for the session journal and the digest that the checkpoint behind it is bound to.
#[derive(Debug)]
pub struct SessionEntry {
    /// Event.
    pub event: SessionEvent,
    /// Digest that the checkpoint is bound to.
    pub context_hash: String,
}

fn push_blocker(ids_known: &mut Vec<EntityId>, id: &str)
    requires
        is_known_id(id@),
    ensures
        ids(final(ids_known)@) == (if ids(old(ids_known)@).contains(id@) {
            ids(old(ids_known)@)
        } else {
            ids(old(ids_known)@).push(id@)
        }),
{
    let ghost before = ids(ids_known@);
    proof {
        if has_id(ids_known@, id@) {
            let i = choose|i: int| 0 <= i < ids_known@.len() && #[trigger] ids_known@[i]@ == id@;
            assert(before[i] == id@);
        } else if before.contains(id@) {
            let i = choose|i: int| 0 <= i < before.len() && before[i] == id@;
            assert(ids_known@[i]@ == id@);
        }
    }
    if contains_id(ids_known.as_slice(), id) {
        return ;
    }
    if let Some(entity) = EntityId::from_validated(id.to_owned()) {
        ids_known.push(entity);
        assert(ids(ids_known@) =~= before.push(id@));
    }
}

fn drop_blocker(list: &[EntityId], id: &str) -> (r: Vec<EntityId>)
    ensures
        ids(r@) == others(ids(list@), id@),
{
    let ghost all = ids(list@);
    let ghost differs = differing(id@);
    let mut out: Vec<EntityId> = Vec::new();
    let mut i: usize = 0;
    proof {
        reveal(Seq::filter);
        assert(all.take(0) =~= Seq::empty());
        assert(ids(out@) =~= Seq::empty());
    }
    while i < list.len()
        invariant
            i <= list@.len(),
            all == ids(list@),
            differs == differing(id@),
            ids(out@) == all.take(i as int).filter(differs),
        decreases list@.len() - i,
    {
        let ghost t = all.take(i + 1);
        proof {
            reveal(Seq::filter);
            assert(t.drop_last() =~= all.take(i as int));
            assert(t.last() == list@[i as int]@);
        }
        if !str_eq(list[i].as_str(), id) {
            let ghost before = ids(out@);
            out.push(list[i].copy());
            assert(ids(out@) =~= before.push(list@[i as int]@));
        }
        i += 1;
    }
    assert(all.take(i as int) =~= all);
    out
}

fn resolve_in(run: &ChapterRun, id: &str, reason: &str) -> (r: ChapterRun)
    ensures
        r@ == run_resolved(run@, id@, reason@),
{
    let mut copy = run.copy();
    let ghost all = run@.findings;
    assert(finding_models(copy.findings@) == all);
    let mut i: usize = 0;
    while i < copy.findings.len()
        invariant
            i <= copy.findings@.len(),
            copy@ == run@,
            all == finding_models(copy.findings@),
            all == run@.findings,
            finding_from(all, id@, 0) == finding_from(all, id@, i as int),
        decreases copy.findings@.len() - i,
    {
        assert(all[i as int] == copy.findings@[i as int]@);
        if str_eq(copy.findings[i].id.as_str(), id) {
            let mut found = copy.findings[i].copy();
            found.disposition = FindingDisposition::FalsePositive { reason: reason.to_owned() };
            let ghost item = found@;
            let left = drop_blocker(copy.changeset.unresolved_blocker_ids.as_slice(), id);
            copy.findings.set(i, found);
            assert(finding_models(copy.findings@) =~= all.update(i as int, item));
            copy.changeset.unresolved_blocker_ids = left;
            return copy;
        }
        i += 1;
    }
    copy
}

impl RunController {
    /// Adds a finding about the candidate of a chapter.
    pub fn add_finding(
        &mut self,
        chapter_id: &str,
        kind: FindingKind,
        artifact: String,
        start: usize,
        end: usize,
        text: String,
    ) -> (r: Finding)
        ensures
            r@ == new_finding(
                kind,
                artifact@,
                start,
                end,
                text@,
                candidate_of(old(self)@, chapter_id@),
            ),
            final(self)@ == with_finding(old(self)@, chapter_id@, r@),
    {
        let candidate_hash = match self.runs.get(chapter_id) {
            Some(run) => run.changeset.candidate_hash.clone(),
            None => {
                let none: Vec<u8> = Vec::new();
                assert(none@ =~= Seq::<u8>::empty());
                sha256_bytes(none.as_slice())
            },
        };
        let finding = Finding::new(kind, artifact, start, end, text, candidate_hash);
        self.owners.insert(finding.id.clone(), chapter_id.to_owned());
        self.findings.insert(finding.id.clone(), finding.copy());
        let changed = match self.runs.get(chapter_id) {
            Some(run) => {
                let mut copy = run.copy();
                let ghost before = finding_models(copy.findings@);
                copy.findings.push(finding.copy());
                assert(finding_models(copy.findings@) =~= before.push(finding@));
                copy.state = ChapterState::Candidate;
                copy.changeset.state = ChangesetState::Reviewing;
                if kind.is_blocking() {
                    push_blocker(
                        &mut copy.changeset.unresolved_blocker_ids,
                        finding.id.as_str(),
                    );
                }
                Some(copy)
            },
            None => None,
        };
        if let Some(run) = changed {
            self.runs.insert(chapter_id.to_owned(), run);
        }
        finding
    }

    fn check_resolution(&self, finding_id: &str, reason: &str) -> (r: Result<EntityId, String>)
        ensures
            match resolve_error(self@, finding_id@, reason@) {
                Some(error) => r is Err && r->Err_0@ == error,
                None => r is Ok && r->Ok_0@ == finding_id@,
            },
    {
        let entity = match EntityId::from_validated(finding_id.to_owned()) {
            None => {
                return Err(concat2("finding ID is invalid: ", finding_id));
            },
            Some(entity) => entity,
        };
        if blank(reason) {
            return Err("false-positive reason is required".to_owned());
        }
        let finding = match self.findings.get(finding_id) {
            None => {
                return Err(concat3("finding ", finding_id, " was not found"));
            },
            Some(finding) => finding,
        };
        if let Some(chapter_id) = self.owners.get(finding_id) {
            if let Some(run) = self.runs.get(chapter_id.as_str()) {
                if !finding.is_valid_for(run.changeset.candidate_hash.as_str()) {
                    return Err(
                        concat3("finding ", finding_id, " is stale after a candidate edit"),
                    );
                }
            }
        }
        if !finding.is_open() {
            return Err(concat3("finding ", finding_id, " is already resolved"));
        }
        Ok(entity)
    }

    fn resolve_in_table(&mut self, finding_id: &str, reason: &str)
        ensures
            final(self)@ == (RunModel {
                findings: with_resolution(old(self)@, finding_id@, reason@).findings,
                ..old(self)@
            }),
    {
        let resolved = match self.findings.get(finding_id) {
            Some(finding) => {
                let mut copy = finding.copy();
                copy.disposition = FindingDisposition::FalsePositive { reason: reason.to_owned() };
                Some(copy)
            },
            None => None,
        };
        if let Some(finding) = resolved {
            self.findings.insert(finding_id.to_owned(), finding);
        }
    }

    fn apply_resolution(&mut self, finding_id: &str, reason: &str)
        ensures
            final(self)@ == with_resolution(old(self)@, finding_id@, reason@),
    {
        self.resolve_in_table(finding_id, reason);
        let changed = match self.owners.get(finding_id) {
            Some(chapter_id) => match self.runs.get(chapter_id.as_str()) {
                Some(run) => Some((chapter_id.clone(), resolve_in(run, finding_id, reason))),
                None => None,
            },
            None => None,
        };
        if let Some((chapter_id, run)) = changed {
            self.runs.insert(chapter_id, run);
        }
    }

    /// Resolves a finding that a human judged wrong.  The reason is recorded by its digest.
    pub fn resolve_false_positive(&mut self, finding_id: &str, reason: String) -> (r: Result<
        SessionEntry,
        String,
    >)
        ensures
            match resolve_error(old(self)@, finding_id@, reason@) {
                Some(error) => r is Err && r->Err_0@ == error && final(self)@ == old(self)@,
                None => {
                    &&& r is Ok
                    &&& r->Ok_0.event matches SessionEvent::FindingResolved {
                        finding_id: id,
                        reason_hash,
                    } && id@ == finding_id@ && reason_hash@ == digest_text(utf8(reason@))
                    &&& r->Ok_0.context_hash@ == digest_text(utf8(reason@))
                    &&& final(self)@ == refreshed_model(
                        with_resolution(old(self)@, finding_id@, reason@),
                    )
                },
            },
    {
        let entity = match self.check_resolution(finding_id, reason.as_str()) {
            Err(error) => {
                return Err(error);
            },
            Ok(entity) => entity,
        };
        let reason_hash = sha256_text(reason.as_str());
        self.apply_resolution(finding_id, reason.as_str());
        self.refresh_chapter_states();
        let context_hash = reason_hash.clone();
        Ok(
            SessionEntry {
                event: SessionEvent::FindingResolved { finding_id: entity, reason_hash },
                context_hash,
            },
        )
    }
}

/// What keeps a candidate from being edited.
pub open spec fn edit_error(m: RunModel, chapter_id: Seq<char>) -> Option<Seq<char>> {
    match lookup(m.chapters, chapter_id) {
        Some(chapter) => if chapter.state == ChapterState::Approved {
            Some("approved canon cannot be edited as a candidate"@)
        } else if lookup(m.runs, chapter_id) is None {
            Some("chapter "@ + chapter_id + " has no candidate"@)
        } else {
            None
        },
        None => Some("approved canon cannot be edited as a candidate"@),
    }
}

/// A finding that is open again.
pub open spec fn reopened(finding: FindingModel) -> FindingModel {
    FindingModel { resolved: None, ..finding }
}

/// The outcome of writing a chapter with another candidate: its findings are open again and
/// nothing is validated.
pub open spec fn run_edited(run: RunRecord, candidate: Seq<u8>) -> RunRecord {
    RunRecord {
        candidate_text: lossy(candidate),
        state: ChapterState::Candidate,
        findings: run.findings.map_values(|finding: FindingModel| reopened(finding)),
        changeset: ChangeModel {
            candidate_hash: digest_text(candidate),
            validation_hash: None,
            state: ChangesetState::Reviewing,
            ..run.changeset
        },
        ..run
    }
}

/// The run with another candidate for a chapter.
pub open spec fn candidate_replaced(m: RunModel, chapter_id: Seq<char>, candidate: Seq<u8>) -> RunModel {
    RunModel {
        runs: put(
            m.runs,
            chapter_id,
            run_edited(lookup(m.runs, chapter_id)->Some_0, candidate),
        ),
        findings: m.findings.map_values(
            |entry: (Seq<char>, FindingModel)|
                if lookup(m.owners, entry.1.id) == Some(chapter_id) {
                    (entry.0, reopened(entry.1))
                } else {
                    entry
                },
        ),
        ..m
    }
}

/// The run with the digests of the revised candidate files of a chapter.
pub open spec fn operations_revised(m: RunModel, chapter_id: Seq<char>, list: Seq<FileModel>) -> RunModel {
    let run = lookup(m.runs, chapter_id)->Some_0;
    RunModel {
        runs: put(
            m.runs,
            chapter_id,
            RunRecord {
                changeset: ChangeModel {
                    operations: revised_operations(run.changeset.operations, list),
                    ..run.changeset
                },
                ..run
            },
        ),
        ..m
    }
}

/// The run with another digest for the candidate of a chapter.
pub open spec fn candidate_hashed(m: RunModel, chapter_id: Seq<char>, hash: Seq<char>) -> RunModel {
    let run = lookup(m.runs, chapter_id)->Some_0;
    RunModel {
        runs: put(
            m.runs,
            chapter_id,
            RunRecord {
                changeset: ChangeModel { candidate_hash: hash, ..run.changeset },
                ..run
            },
        ),
        ..m
    }
}

/// The run once an edited candidate entered its canon: the chapters behind it are marked.
pub open spec fn edit_noted(m: RunModel, chapter_id: Seq<char>, hash: Seq<char>, text: Seq<char>) -> RunModel {
    refreshed_model(
        after_edit(
            RunModel {
                canon_hashes: put(m.canon_hashes, chapter_id, hash),
                canon_texts: put(m.canon_texts, chapter_id, text),
                ..m
            },
            lookup(m.chapters, chapter_id)->Some_0.order,
        ),
    )
}

/// The candidate files of an edit as they were written, and what the project holds since then.
#[derive(Debug)]
pub struct EditedFiles {
    /// Revised candidate files.
    pub files: Vec<FileEntry>,
    /// Project.
    pub snapshot: ProjectSnapshot,
}

/// The run after an edit, and whether the edit went through.
pub open spec fn edit_result(
    m: RunModel,
    chapter_id: Seq<char>,
    candidate: Seq<u8>,
    written: Option<EditedFiles>,
) -> (RunModel, Result<(), Seq<char>>) {
    match edit_error(m, chapter_id) {
        Some(error) => (m, Err(error)),
        None => {
            let first = candidate_replaced(m, chapter_id, candidate);
            match written {
                None => (
                    edit_noted(first, chapter_id, digest_text(candidate), lossy(candidate)),
                    Ok(()),
                ),
                Some(edited) => {
                    let second = operations_revised(first, chapter_id, files(edited.files@));
                    match candidate_digest(
                        edited.snapshot,
                        lookup(second.runs, chapter_id)->Some_0.changeset,
                    ) {
                        Err(refusal) => (second, Err(refusal_text(refusal))),
                        Ok(hash) => (
                            edit_noted(
                                candidate_hashed(second, chapter_id, hash),
                                chapter_id,
                                hash,
                                lossy(candidate),
                            ),
                            Ok(()),
                        ),
                    }
                },
            }
        },
    }
}

fn reopen(list: &[Finding]) -> (r: Vec<Finding>)
    ensures
        finding_models(r@) == finding_models(list@).map_values(
            |finding: FindingModel| reopened(finding),
        ),
{
    let ghost goal = finding_models(list@).map_values(|finding: FindingModel| reopened(finding));
    let mut out: Vec<Finding> = Vec::new();
    let mut i: usize = 0;
    while i < list.len()
        invariant
            i <= list@.len(),
            out@.len() == i,
            forall|k: int| 0 <= k < i ==> (#[trigger] out@[k])@ == reopened(list@[k]@),
        decreases list@.len() - i,
    {
        let mut finding = list[i].copy();
        finding.disposition = FindingDisposition::Open;
        out.push(finding);
        i += 1;
    }
    assert(finding_models(out@) =~= goal);
    out
}

pub(crate) proof fn lemma_put_lookup<V>(table: Entries<V>, key: Seq<char>, value: V)
    ensures
        lookup(put(table, key, value), key) == Some(value),
        has_key(put(table, key, value), key),
{
    let p = crate::table::slot(table, key, 0);
    crate::table::lemma_slot(table, key, 0);
    crate::text::text_before_is_strict_order(key, key, key);
    let next = put(table, key, value);
    crate::table::lemma_slot_is(next, key, 0, p);
}

impl RunController {
    fn replace_candidate(&mut self, chapter_id: &str, candidate: &[u8])
        requires
            has_key(old(self)@.runs, chapter_id@),
        ensures
            final(self)@ == candidate_replaced(old(self)@, chapter_id@, candidate@),
    {
        let ghost start = self@;
        let changed = match self.runs.get(chapter_id) {
            Some(run) => {
                let mut copy = run.copy();
                copy.findings = reopen(copy.findings.as_slice());
                copy.candidate_text = lossy_text(candidate);
                copy.changeset.candidate_hash = sha256_bytes(candidate);
                copy.changeset.validation_hash = None;
                copy.changeset.state = ChangesetState::Reviewing;
                copy.state = ChapterState::Candidate;
                Some(copy)
            },
            None => None,
        };
        if let Some(run) = changed {
            self.runs.insert(chapter_id.to_owned(), run);
        }
        let ghost middle = self@;
        let ghost goal = candidate_replaced(start, chapter_id@, candidate@).findings;
        let mut i: usize = 0;
        while i < self.findings.len()
            invariant
                i <= self.findings@.len(),
                goal == candidate_replaced(start, chapter_id@, candidate@).findings,
                middle.findings == start.findings,
                middle.owners == start.owners,
                self@ == (RunModel { findings: self@.findings, ..middle }),
                self@.findings.len() == start.findings.len(),
                forall|k: int| 0 <= k < i ==> #[trigger] self@.findings[k] == goal[k],
                forall|k: int|
                    i <= k < start.findings.len() ==> #[trigger] self@.findings[k]
                        == start.findings[k],
            decreases self.findings@.len() - i,
        {
            let finding = self.findings.value(i);
            assert(self@.findings[i as int] == start.findings[i as int]);
            let here = match self.owners.get(finding.id.as_str()) {
                Some(owner) => str_eq(owner.as_str(), chapter_id),
                None => false,
            };
            if here {
                let mut copy = finding.copy();
                copy.disposition = FindingDisposition::Open;
                self.findings.replace(i, copy);
            }
            i += 1;
        }
        assert(self@.findings =~= goal);
    }

    fn set_operations(&mut self, chapter_id: &str, list: &[FileEntry])
        requires
            has_key(old(self)@.runs, chapter_id@),
        ensures
            final(self)@ == operations_revised(old(self)@, chapter_id@, files(list@)),
    {
        let changed = match self.runs.get(chapter_id) {
            Some(run) => {
                let mut copy = run.copy();
                copy.changeset.operations = revise_operations(
                    copy.changeset.operations.as_slice(),
                    list,
                );
                Some(copy)
            },
            None => None,
        };
        if let Some(run) = changed {
            self.runs.insert(chapter_id.to_owned(), run);
        }
    }

    fn set_candidate_hash(&mut self, chapter_id: &str, hash: String)
        requires
            has_key(old(self)@.runs, chapter_id@),
        ensures
            final(self)@ == candidate_hashed(old(self)@, chapter_id@, hash@),
    {
        let changed = match self.runs.get(chapter_id) {
            Some(run) => {
                let mut copy = run.copy();
                copy.changeset.candidate_hash = hash;
                Some(copy)
            },
            None => None,
        };
        if let Some(run) = changed {
            self.runs.insert(chapter_id.to_owned(), run);
        }
    }

    fn note_edit(&mut self, chapter_id: &str, hash: String, text: String)
        requires
            has_key(old(self)@.chapters, chapter_id@),
        ensures
            final(self)@ == edit_noted(old(self)@, chapter_id@, hash@, text@),
    {
        self.canon_hashes.insert(chapter_id.to_owned(), hash);
        self.canon_texts.insert(chapter_id.to_owned(), text);
        let order: u32 = match self.chapters.get(chapter_id) {
            Some(chapter) => chapter.order,
            None => 0,
        };
        self.apply_edit(order);
        self.refresh_chapter_states();
    }

    fn check_edit(&self, chapter_id: &str) -> (r: Result<(), String>)
        ensures
            match edit_error(self@, chapter_id@) {
                Some(error) => r is Err && r->Err_0@ == error,
                None => r is Ok,
            },
    {
        match self.chapters.get(chapter_id) {
            Some(chapter) => {
                if chapter.state == ChapterState::Approved {
                    return Err("approved canon cannot be edited as a candidate".to_owned());
                }
            },
            None => {
                return Err("approved canon cannot be edited as a candidate".to_owned());
            },
        }
        if !self.runs.contains(chapter_id) {
            return Err(concat3("chapter ", chapter_id, " has no candidate"));
        }
        Ok(())
    }

    /// Returns the candidate files that an edit of a chapter must revise.
    pub fn candidate_paths(&self, chapter_id: &str) -> (r: Result<Vec<String>, String>)
        ensures
            match edit_error(self@, chapter_id@) {
                Some(error) => r is Err && r->Err_0@ == error,
                None => r is Ok && texts(r->Ok_0@) == manuscripts(
                    lookup(self@.runs, chapter_id@)->Some_0.changeset.operations,
                    0,
                ),
            },
    {
        match self.check_edit(chapter_id) {
            Err(error) => {
                return Err(error);
            },
            Ok(()) => {},
        }
        match self.runs.get(chapter_id) {
            Some(run) => Ok(manuscript_paths(run.changeset.operations.as_slice())),
            None => Ok(Vec::new()),
        }
    }

    /// Replaces the candidate of a chapter.  In a project the revised candidate files have been
    /// written before.
    pub fn edit_candidate(&mut self, chapter_id: &str, candidate: &[u8], written: Option<EditedFiles>) -> (r:
        Result<(), String>)
        ensures
            ({
                let result = edit_result(old(self)@, chapter_id@, candidate@, written);
                &&& final(self)@ == result.0
                &&& match result.1 {
                    Ok(()) => r is Ok,
                    Err(error) => r is Err && r->Err_0@ == error,
                }
            }),
    {
        match self.check_edit(chapter_id) {
            Err(error) => {
                return Err(error);
            },
            Ok(()) => {},
        }
        let ghost start = self@;
        self.replace_candidate(chapter_id, candidate);
        let ghost first = self@;
        proof {
            lemma_put_lookup(
                start.runs,
                chapter_id@,
                run_edited(lookup(start.runs, chapter_id@)->Some_0, candidate@),
            );
        }
        let text = lossy_text(candidate);
        match written {
            None => {
                self.note_edit(chapter_id, sha256_bytes(candidate), text);
                Ok(())
            },
            Some(edited) => {
                self.set_operations(chapter_id, edited.files.as_slice());
                proof {
                    let run = lookup(first.runs, chapter_id@)->Some_0;
                    lemma_put_lookup(
                        first.runs,
                        chapter_id@,
                        RunRecord {
                            changeset: ChangeModel {
                                operations: revised_operations(
                                    run.changeset.operations,
                                    files(edited.files@),
                                ),
                                ..run.changeset
                            },
                            ..run
                        },
                    );
                }
                let digest = match self.runs.get(chapter_id) {
                    Some(run) => calculate_candidate_hash(&edited.snapshot, &run.changeset),
                    None => Ok(String::new()),
                };
                match digest {
                    Err(error) => Err(error.to_text()),
                    Ok(hash) => {
                        self.set_candidate_hash(chapter_id, hash.clone());
                        self.note_edit(chapter_id, hash, text);
                        Ok(())
                    },
                }
            },
        }
    }
}

/// The scope that a name denotes.
pub open spec fn scope_of(name: Seq<char>) -> Option<CorrectionScope> {
    if name == "location"@ {
        Some(CorrectionScope::Location)
    } else if name == "character"@ {
        Some(CorrectionScope::Character)
    } else if name == "scene"@ {
        Some(CorrectionScope::Scene)
    } else if name == "chapter"@ {
        Some(CorrectionScope::Chapter)
    } else if name == "project"@ {
        Some(CorrectionScope::Project)
    } else {
        None
    }
}

fn parse_scope(name: &str) -> (r: Option<CorrectionScope>)
    ensures
        r == scope_of(name@),
{
    if str_eq(name, "location") {
        Some(CorrectionScope::Location)
    } else if str_eq(name, "character") {
        Some(CorrectionScope::Character)
    } else if str_eq(name, "scene") {
        Some(CorrectionScope::Scene)
    } else if str_eq(name, "chapter") {
        Some(CorrectionScope::Chapter)
    } else if str_eq(name, "project") {
        Some(CorrectionScope::Project)
    } else {
        None
    }
}

/// Whether a target is an entity of the kind that a scope names.
pub open spec fn target_fits(scope: CorrectionScope, target: Seq<char>) -> bool {
    match scope {
        CorrectionScope::Chapter => has_prefix(target, "chapter_"@),
        CorrectionScope::Scene => has_prefix(target, "scene_"@),
        CorrectionScope::Character => has_prefix(target, "character_"@),
        CorrectionScope::Location => has_prefix(target, "location_"@),
        CorrectionScope::Project => false,
    }
}

/// What is wrong with the target of a correction.
pub open spec fn target_error(
    m: RunModel,
    source_order: u32,
    scope: CorrectionScope,
    target: Option<Seq<char>>,
) -> Option<Seq<char>> {
    if scope == CorrectionScope::Project {
        if target is Some {
            Some("project corrections cannot have a target"@)
        } else {
            None
        }
    } else {
        match target {
            None => Some("scoped corrections require a target"@),
            Some(name) => if is_blank(name) {
                Some("correction target is required"@)
            } else if !target_fits(scope, name) {
                Some("correction target does not match its scope"@)
            } else if lookup(m.chapters, name) is Some && lookup(m.chapters, name)->Some_0.order
                < source_order {
                Some("correction target must not precede its source chapter"@)
            } else {
                None
            },
        }
    }
}

/// What is wrong with a correction.
pub open spec fn correction_error(
    m: RunModel,
    source_chapter: Seq<char>,
    before: Seq<char>,
    after: Seq<char>,
    scope: Seq<char>,
    target: Option<Seq<char>>,
) -> Option<Seq<char>> {
    match lookup(m.chapters, source_chapter) {
        None => Some("source chapter "@ + source_chapter + " was not found"@),
        Some(source) => match scope_of(scope) {
            None => Some("unknown correction scope"@),
            Some(scope) => if is_blank(before) {
                Some("correction before text is required"@)
            } else if is_blank(after) {
                Some("correction after text is required"@)
            } else {
                target_error(m, source.order, scope, target)
            },
        },
    }
}

/// The text of a correction.
pub open spec fn correction_diff(before: Seq<char>, after: Seq<char>) -> Seq<char> {
    "BEFORE:\n"@ + before + "\nAFTER:\n"@ + after
}

/// A correction.
pub open spec fn correction_rule(
    id: Seq<char>,
    source_chapter: Seq<char>,
    before: Seq<char>,
    after: Seq<char>,
    scope: Seq<char>,
    target: Option<Seq<char>>,
) -> RuleModel {
    RuleModel {
        id: id,
        source_chapter: source_chapter,
        scope: scope_of(scope)->Some_0,
        target: target,
        diff: correction_diff(before, after),
        hash: digest_text(utf8(correction_diff(before, after))),
    }
}

/// The run with a correction: the chapters behind the corrected one are marked.
pub open spec fn with_correction(m: RunModel, rule: RuleModel) -> RunModel {
    after_edit(
        RunModel { corrections: m.corrections.push(rule), ..m },
        lookup(m.chapters, rule.source_chapter)->Some_0.order,
    )
}

/// The view of an optional text.
pub open spec fn opt_str(item: Option<&str>) -> Option<Seq<char>> {
    match item {
        Some(text) => Some(text@),
        None => None,
    }
}

/// An accepted correction and the entry for the session journal.
#[derive(Debug)]
pub struct AcceptedCorrection {
    /// Correction.
    pub rule: CorrectionRule,
    /// Entry for the session journal.
    pub entry: SessionEntry,
}

impl RunController {
    fn check_target(&self, source_order: u32, scope: CorrectionScope, target: Option<&str>) -> (r:
        Result<(), &'static str>)
        ensures
            match target_error(self@, source_order, scope, opt_str(target)) {
                Some(error) => r is Err && r->Err_0@ == error,
                None => r is Ok,
            },
    {
        if scope == CorrectionScope::Project {
            if target.is_some() {
                return Err("project corrections cannot have a target");
            }
            return Ok(());
        }
        let name = match target {
            None => {
                return Err("scoped corrections require a target");
            },
            Some(name) => name,
        };
        if blank(name) {
            return Err("correction target is required");
        }
        let fits = match scope {
            CorrectionScope::Chapter => starts_with(name, "chapter_"),
            CorrectionScope::Scene => starts_with(name, "scene_"),
            CorrectionScope::Character => starts_with(name, "character_"),
            CorrectionScope::Location => starts_with(name, "location_"),
            CorrectionScope::Project => false,
        };
        if !fits {
            return Err("correction target does not match its scope");
        }
        if let Some(chapter) = self.chapters.get(name) {
            if chapter.order < source_order {
                return Err("correction target must not precede its source chapter");
            }
        }
        Ok(())
    }

    fn check_correction(
        &self,
        source_chapter: &str,
        before: &str,
        after: &str,
        scope: &str,
        target: Option<&str>,
    ) -> (r: Result<CorrectionScope, String>)
        ensures
            match correction_error(
                self@,
                source_chapter@,
                before@,
                after@,
                scope@,
                opt_str(target),
            ) {
                Some(error) => r is Err && r->Err_0@ == error,
                None => r is Ok && scope_of(scope@) == Some(r->Ok_0) && has_key(
                    self@.chapters,
                    source_chapter@,
                ),
            },
    {
        let order: u32 = match self.chapters.get(source_chapter) {
            None => {
                return Err(concat3("source chapter ", source_chapter, " was not found"));
            },
            Some(chapter) => chapter.order,
        };
        let scope = match parse_scope(scope) {
            None => {
                return Err("unknown correction scope".to_owned());
            },
            Some(scope) => scope,
        };
        if blank(before) {
            return Err("correction before text is required".to_owned());
        }
        if blank(after) {
            return Err("correction after text is required".to_owned());
        }
        match self.check_target(order, scope, target) {
            Err(error) => Err(error.to_owned()),
            Ok(()) => Ok(scope),
        }
    }

    /// Takes a correction of a human under a given identifier.
    pub fn accept_correction_as(
        &mut self,
        id: EntityId,
        source_chapter: &str,
        before: &str,
        after: &str,
        scope: &str,
        target: Option<&str>,
    ) -> (r: Result<AcceptedCorrection, String>)
        ensures
            match correction_error(
                old(self)@,
                source_chapter@,
                before@,
                after@,
                scope@,
                opt_str(target),
            ) {
                Some(error) => r is Err && r->Err_0@ == error && final(self)@ == old(self)@,
                None => {
                    let rule = correction_rule(
                        id@,
                        source_chapter@,
                        before@,
                        after@,
                        scope@,
                        opt_str(target),
                    );
                    &&& r is Ok
                    &&& r->Ok_0.rule@ == rule
                    &&& r->Ok_0.entry.event matches SessionEvent::CorrectionAccepted {
                        rule_id,
                        source_chapter: chapter,
                        hash,
                    } && rule_id@ == id@ && chapter@ == source_chapter@ && hash@ == rule.hash
                    &&& r->Ok_0.entry.context_hash@ == rule.hash
                    &&& final(self)@ == with_correction(old(self)@, rule)
                },
            },
    {
        let kind = match self.check_correction(source_chapter, before, after, scope, target) {
            Err(error) => {
                return Err(error);
            },
            Ok(kind) => kind,
        };
        let mut diff = concat3("BEFORE:\n", before, "\nAFTER:\n");
        diff.append(after);
        let hash = sha256_text(diff.as_str());
        let rule = CorrectionRule {
            id: id.as_str().to_owned(),
            source_chapter: source_chapter.to_owned(),
            scope: kind,
            target: match target {
                Some(name) => Some(name.to_owned()),
                None => None,
            },
            diff,
            hash: hash.clone(),
        };
        let ghost before_rules = rule_models(self.corrections@);
        self.corrections.push(rule.copy());
        assert(rule_models(self.corrections@) =~= before_rules.push(rule@));
        let order: u32 = match self.chapters.get(source_chapter) {
            Some(chapter) => chapter.order,
            None => 0,
        };
        self.apply_edit(order);
        Ok(
            AcceptedCorrection {
                rule,
                entry: SessionEntry {
                    event: SessionEvent::CorrectionAccepted {
                        rule_id: id,
                        source_chapter: source_chapter.to_owned(),
                        hash: hash.clone(),
                    },
                    context_hash: hash,
                },
            },
        )
    }

    /// Takes a correction of a human under a fresh identifier.
    pub fn accept_human_correction(
        &mut self,
        source_chapter: &str,
        before: &str,
        after: &str,
        scope: &str,
        target: Option<&str>,
    ) -> (r: Result<AcceptedCorrection, String>)
        ensures
            match correction_error(
                old(self)@,
                source_chapter@,
                before@,
                after@,
                scope@,
                opt_str(target),
            ) {
                Some(error) => r is Err && r->Err_0@ == error && final(self)@ == old(self)@,
                None => {
                    &&& r is Ok
                    &&& is_id_of(r->Ok_0.rule@.id, EntityKind::Rule)
                    &&& r->Ok_0.rule@ == correction_rule(
                        r->Ok_0.rule@.id,
                        source_chapter@,
                        before@,
                        after@,
                        scope@,
                        opt_str(target),
                    )
                    &&& r->Ok_0.entry.event matches SessionEvent::CorrectionAccepted {
                        rule_id,
                        source_chapter: chapter,
                        hash,
                    } && rule_id@ == r->Ok_0.rule@.id && chapter@ == source_chapter@ && hash@
                        == r->Ok_0.rule@.hash
                    &&& r->Ok_0.entry.context_hash@ == r->Ok_0.rule@.hash
                    &&& final(self)@ == with_correction(old(self)@, r->Ok_0.rule@)
                },
            },
    {
        let id = prefixed_uuid(EntityKind::Rule);
        self.accept_correction_as(id, source_chapter, before, after, scope, target)
    }
}

/// The order of the chapter of a scene, where the structure has the scene and the run the chapter.
pub open spec fn scene_order(m: RunModel, scene: Seq<char>) -> Option<u32> {
    match m.structure {
        None => None,
        Some(structure) => {
            let p = scene_from(structure.scenes@, scene, 0);
            if 0 <= p < structure.scenes@.len() {
                match lookup(m.chapters, structure.scenes@[p].chapter_id@) {
                    Some(chapter) => Some(chapter.order),
                    None => None,
                }
            } else {
                None
            }
        },
    }
}

/// Position of the first scene with an identifier, from a position on; the number of scenes where
/// none has it.
pub open spec fn scene_from(list: Seq<StoryScene>, id: Seq<char>, i: int) -> int
    decreases list.len() - i,
{
    if i < 0 || i >= list.len() {
        list.len() as int
    } else if list[i].id@ == id {
        i
    } else {
        scene_from(list, id, i + 1)
    }
}

/// Whether a correction applies to a chapter.
pub open spec fn applies_to(m: RunModel, rule: RuleModel, chapter_id: Seq<char>) -> bool {
    if rule.scope == CorrectionScope::Project {
        true
    } else {
        match rule.target {
            None => false,
            Some(target) => match rule.scope {
                CorrectionScope::Chapter => target == chapter_id || (lookup(m.chapters, target)
                    is Some && lookup(m.chapters, chapter_id) is Some && lookup(
                    m.chapters,
                    target,
                )->Some_0.order <= lookup(m.chapters, chapter_id)->Some_0.order),
                CorrectionScope::Scene => if scene_order(m, target) is Some && lookup(
                    m.chapters,
                    chapter_id,
                ) is Some {
                    lookup(m.chapters, chapter_id)->Some_0.order >= scene_order(m, target)->Some_0
                } else {
                    has_prefix(target, "scene_"@) || has_prefix(target, "box_"@)
                },
                CorrectionScope::Location => has_prefix(target, "location_"@),
                CorrectionScope::Character => has_prefix(target, "character_"@),
                CorrectionScope::Project => true,
            },
        }
    }
}

/// Whether a chapter receives a correction: only those of earlier chapters.
pub open spec fn receives(m: RunModel, rule: RuleModel, chapter_id: Seq<char>) -> bool {
    let order = match lookup(m.chapters, chapter_id) {
        Some(chapter) => chapter.order,
        None => u32::MAX,
    };
    let source_order = match lookup(m.chapters, rule.source_chapter) {
        Some(chapter) => chapter.order,
        None => 0u32,
    };
    source_order < order && applies_to(m, rule, chapter_id)
}

/// The corrections that a chapter receives.
pub open spec fn received_by(m: RunModel, chapter_id: Seq<char>) -> Seq<Received> {
    m.corrections.filter(|rule: RuleModel| receives(m, rule, chapter_id)).map_values(
        |rule: RuleModel| (rule.id, rule.hash, rule.diff),
    )
}

impl RunController {
    fn order_of_scene(&self, scene: &str) -> (r: Option<u32>)
        ensures
            r == scene_order(self@, scene@),
    {
        match &self.structure {
            None => None,
            Some(structure) => {
                let mut i: usize = 0;
                while i < structure.scenes.len()
                    invariant
                        i <= structure.scenes@.len(),
                        self@.structure == Some(*structure),
                        scene_from(structure.scenes@, scene@, 0) == scene_from(
                            structure.scenes@,
                            scene@,
                            i as int,
                        ),
                    decreases structure.scenes@.len() - i,
                {
                    if str_eq(structure.scenes[i].id.as_str(), scene) {
                        return match self.chapters.get(structure.scenes[i].chapter_id.as_str()) {
                            Some(chapter) => Some(chapter.order),
                            None => None,
                        };
                    }
                    i += 1;
                }
                None
            },
        }
    }

    fn correction_applies(&self, rule: &CorrectionRule, chapter_id: &str) -> (r: bool)
        ensures
            r == applies_to(self@, rule@, chapter_id@),
    {
        if rule.scope == CorrectionScope::Project {
            return true;
        }
        let target = match &rule.target {
            None => {
                return false;
            },
            Some(target) => target.as_str(),
        };
        match rule.scope {
            CorrectionScope::Chapter => {
                if str_eq(target, chapter_id) {
                    return true;
                }
                match (self.chapters.get(target), self.chapters.get(chapter_id)) {
                    (Some(first), Some(second)) => first.order <= second.order,
                    _ => false,
                }
            },
            CorrectionScope::Scene => {
                match (self.order_of_scene(target), self.chapters.get(chapter_id)) {
                    (Some(order), Some(chapter)) => chapter.order >= order,
                    _ => starts_with(target, "scene_") || starts_with(target, "box_"),
                }
            },
            CorrectionScope::Location => starts_with(target, "location_"),
            CorrectionScope::Character => starts_with(target, "character_"),
            CorrectionScope::Project => true,
        }
    }

    /// Returns the corrections that a chapter receives.
    pub fn correction_receipt(&self, chapter_id: &str) -> (r: Vec<CorrectionReceipt>)
        ensures
            received(r@) == received_by(self@, chapter_id@),
    {
        let ghost m = self@;
        let ghost all = m.corrections;
        let ghost wanted = |rule: RuleModel| receives(m, rule, chapter_id@);
        let ghost shown = |rule: RuleModel| (rule.id, rule.hash, rule.diff);
        let order: u32 = match self.chapters.get(chapter_id) {
            Some(chapter) => chapter.order,
            None => u32::MAX,
        };
        let mut out: Vec<CorrectionReceipt> = Vec::new();
        let mut i: usize = 0;
        proof {
            reveal(Seq::filter);
            assert(all.take(0) =~= Seq::empty());
            assert(received(out@) =~= all.take(0).filter(wanted).map_values(shown));
        }
        while i < self.corrections.len()
            invariant
                i <= self.corrections@.len(),
                m == self@,
                all == m.corrections,
                all.len() == self.corrections@.len(),
                wanted == (|rule: RuleModel| receives(m, rule, chapter_id@)),
                shown == (|rule: RuleModel| (rule.id, rule.hash, rule.diff)),
                order == (match lookup(m.chapters, chapter_id@) {
                    Some(chapter) => chapter.order,
                    None => u32::MAX,
                }),
                received(out@) == all.take(i as int).filter(wanted).map_values(shown),
            decreases self.corrections@.len() - i,
        {
            let rule = &self.corrections[i];
            let ghost t = all.take(i + 1);
            proof {
                reveal(Seq::filter);
                assert(t.drop_last() =~= all.take(i as int));
                assert(t.last() == rule@);
            }
            let source: u32 = match self.chapters.get(rule.source_chapter.as_str()) {
                Some(chapter) => chapter.order,
                None => 0,
            };
            if source < order && self.correction_applies(rule, chapter_id) {
                let ghost before = received(out@);
                out.push(
                    CorrectionReceipt {
                        rule_id: rule.id.clone(),
                        hash: rule.hash.clone(),
                        directive: rule.diff.clone(),
                    },
                );
                assert(received(out@) =~= before.push((rule.id@, rule.hash@, rule.diff@)));
                assert(t.filter(wanted) =~= all.take(i as int).filter(wanted).push(rule@));
                assert(received(out@) =~= t.filter(wanted).map_values(shown));
            }
            i += 1;
        }
        assert(all.take(i as int) =~= all);
        out
    }
}

/// The run once a human rejected a chapter.
pub open spec fn rejected(m: RunModel, chapter_id: Seq<char>) -> RunModel {
    let chapter = lookup(m.chapters, chapter_id)->Some_0;
    after_edit(
        RunModel {
            chapters: put(
                m.chapters,
                chapter_id,
                ChapterModel { state: ChapterState::Rejected, ..chapter },
            ),
            runs: match lookup(m.runs, chapter_id) {
                Some(run) => put(
                    m.runs,
                    chapter_id,
                    RunRecord {
                        state: ChapterState::Rejected,
                        changeset: ChangeModel {
                            state: ChangesetState::Rejected,
                            ..run.changeset
                        },
                        ..run
                    },
                ),
                None => m.runs,
            },
            ..m
        },
        chapter.order,
    )
}

/// Whether a chapter may be rejected.
pub open spec fn rejectable(m: RunModel, chapter_id: Seq<char>) -> bool {
    match lookup(m.chapters, chapter_id) {
        Some(chapter) => chapter.state != ChapterState::Approved,
        None => false,
    }
}

/// The chapter whose changeset has an identifier, from a position on.
pub open spec fn chapter_of_change(runs: Entries<RunRecord>, id: Seq<char>, i: int) -> Option<
    Seq<char>,
>
    decreases runs.len() - i,
{
    if i < 0 || i >= runs.len() {
        None
    } else if runs[i].1.changeset.id == id {
        Some(runs[i].0)
    } else {
        chapter_of_change(runs, id, i + 1)
    }
}

/// Why an approval was not carried out.
#[derive(Debug)]
pub enum ApprovalFailure {
    /// The chapter may not be approved.
    Refused(String),
    /// The approval failed.
    Failed(ApprovalError),
}

/// The message of an approval that was not carried out.
pub open spec fn failure_message(failure: ApprovalFailure) -> Seq<char> {
    match failure {
        ApprovalFailure::Refused(text) => text@,
        ApprovalFailure::Failed(error) => approval_message(error),
    }
}

impl ApprovalFailure {
    /// Returns the message.
    pub fn to_text(&self) -> (r: String)
        ensures
            r@ == failure_message(*self),
    {
        match self {
            ApprovalFailure::Refused(text) => text.clone(),
            ApprovalFailure::Failed(error) => error.to_text(),
        }
    }
}

/// Whether every chapter before a position is approved.
pub open spec fn earlier_approved(chapters: Entries<ChapterModel>, order: u32) -> bool {
    forall|i: int|
        0 <= i < chapters.len() ==> (#[trigger] chapters[i]).1.order >= order || chapters[i].1.state
            == ChapterState::Approved
}

/// What keeps a chapter from being approved.
pub open spec fn approval_refusal(m: RunModel, chapter_id: Seq<char>) -> Option<Seq<char>> {
    match lookup(m.runs, chapter_id) {
        None => Some("chapter "@ + chapter_id + " has no candidate"@),
        Some(run) => if !run_approvable(run) {
            Some("chapter "@ + chapter_id + " is not approvable"@)
        } else if !earlier_approved(m.chapters, lookup(m.chapters, chapter_id)->Some_0.order) {
            Some("chapters must be approved in order"@)
        } else {
            None
        },
    }
}

/// A changeset bound to the approvals that exist when it is approved.
pub open spec fn rebound(
    change: ChangeModel,
    dependencies: Seq<DependencyModel>,
    snapshot: ProjectSnapshot,
) -> Result<ChangeModel, Refusal> {
    if change.dependencies == dependencies {
        Ok(change)
    } else {
        let next = ChangeModel {
            dependencies: dependencies,
            parent_changeset_id: first_dependency(dependencies),
            ..change
        };
        let bound = ChangeModel {
            validation_hash: Some(material_digest(change_material(next))),
            ..next
        };
        match result_digest(snapshot, bound) {
            Ok(hash) => Ok(ChangeModel { result_root_hash: hash, ..bound }),
            Err(refusal) => Err(refusal),
        }
    }
}

/// The changeset that an approval applies, or what keeps it from being applied.
pub open spec fn approval_plan(
    m: RunModel,
    chapter_id: Seq<char>,
    directory: Seq<char>,
    snapshot: ProjectSnapshot,
) -> Result<ChangeModel, Seq<char>> {
    match approval_refusal(m, chapter_id) {
        Some(text) => Err(text),
        None => match m.project {
            None => Err("approval requires an initialized project"@),
            Some(project) => {
                let change = lookup(m.runs, chapter_id)->Some_0.changeset;
                match chapter_dependencies(
                    snapshot.approvals@,
                    directory,
                    change.chapter_order,
                ) {
                    Err(text) => Err("approval validation failed: "@ + text),
                    Ok(dependencies) => match rebound(change, dependencies, snapshot) {
                        Err(refusal) => Err(
                            "approval validation failed: "@ + refusal_text(refusal),
                        ),
                        Ok(bound) => match change_verdict(
                            snapshot,
                            project.config.work_id@,
                            bound,
                        ) {
                            Err(refusal) => Err(
                                "approval validation failed: "@ + refusal_text(refusal),
                            ),
                            Ok(()) => Ok(bound),
                        },
                    },
                }
            },
        },
    }
}

/// The run once a chapter was approved with a changeset.
pub open spec fn approved(m: RunModel, chapter_id: Seq<char>, change: ChangeModel) -> RunModel {
    let chapter = lookup(m.chapters, chapter_id)->Some_0;
    let run = lookup(m.runs, chapter_id)->Some_0;
    RunModel {
        chapters: put(
            m.chapters,
            chapter_id,
            ChapterModel { state: ChapterState::Approved, ..chapter },
        ),
        runs: put(
            m.runs,
            chapter_id,
            RunRecord {
                state: ChapterState::Approved,
                changeset: ChangeModel { state: ChangesetState::Approved, ..change },
                ..run
            },
        ),
        ..m
    }
}

/// An approval that may go on: a chapter, and the changeset that is applied for it.  Only a run
/// makes one, where the chapter may be approved and the changeset is valid.
#[derive(Debug)]
pub struct PlannedApproval {
    chapter_id: String,
    change: Changeset,
}

/// A planned approval by the views of its parts.
pub struct PlannedModel {
    pub chapter_id: Seq<char>,
    pub change: ChangeModel,
}

impl View for PlannedApproval {
    type V = PlannedModel;

    closed spec fn view(&self) -> PlannedModel {
        PlannedModel { chapter_id: self.chapter_id@, change: self.change@ }
    }
}

impl PlannedApproval {
    /// Returns the chapter.
    pub fn chapter_id(&self) -> (r: &str)
        ensures
            r@ == self@.chapter_id,
    {
        self.chapter_id.as_str()
    }

    /// Returns the changeset.
    pub fn change(&self) -> (r: &Changeset)
        ensures
            r@ == self@.change,
    {
        &self.change
    }
}

/// What is wrong with the stored record of an approval.
pub open spec fn proof_error(change: ChangeModel, actual: Seq<u8>) -> Option<Seq<char>> {
    match record_bytes(change) {
        Err(refusal) => Some("approval durable proof failed: "@ + refusal_text(refusal)),
        Ok(expected) => if expected == actual {
            None
        } else {
            Some(
                "approval durable proof failed: approval record bytes do not match validated proof"@,
            )
        },
    }
}

/// Checks the stored record of an approval.
pub fn check_proof(change: &Changeset, actual: &[u8]) -> (r: Result<(), ApprovalError>)
    ensures
        match proof_error(change@, actual@) {
            Some(text) => r is Err && approval_message(r->Err_0) == text,
            None => r is Ok,
        },
{
    match approval_record_bytes(change) {
        Err(error) => Err(ApprovalError::DurableProof(error.to_text())),
        Ok(expected) => {
            if same_bytes(expected.as_slice(), actual) {
                Ok(())
            } else {
                proof {
                    reveal_strlit("approval durable proof failed: ");
                    reveal_strlit("approval record bytes do not match validated proof");
                    reveal_strlit(
                        "approval durable proof failed: approval record bytes do not match validated proof",
                    );
                    assert("approval durable proof failed: "@
                        + "approval record bytes do not match validated proof"@
                        =~= "approval durable proof failed: approval record bytes do not match validated proof"@);
                }
                Err(
                    ApprovalError::DurableProof(
                        "approval record bytes do not match validated proof".to_owned(),
                    ),
                )
            }
        },
    }
}

impl RunController {
    /// Refuses to approve a chapter: only a human may, by the trusted command.
    pub fn approve_chapter(&mut self, chapter_id: &str) -> (r: Result<(), String>)
        ensures
            r is Err,
            r->Err_0@ == "chapter approval is human-only; use the trusted /approve command"@,
            final(self)@ == old(self)@,
    {
        Err("chapter approval is human-only; use the trusted /approve command".to_owned())
    }

    /// Rejects a chapter on behalf of a human.
    pub fn reject_chapter_trusted(&mut self, chapter_id: &str) -> (r: Result<(), String>)
        ensures
            if rejectable(old(self)@, chapter_id@) {
                r is Ok && final(self)@ == rejected(old(self)@, chapter_id@)
            } else {
                r is Err && r->Err_0@ == "approved canon cannot be rejected"@ && final(self)@
                    == old(self)@
            },
    {
        let record = match self.chapters.get(chapter_id) {
            Some(chapter) => {
                if chapter.state == ChapterState::Approved {
                    return Err("approved canon cannot be rejected".to_owned());
                }
                ChapterRecord {
                    id: chapter.id.clone(),
                    order: chapter.order,
                    state: ChapterState::Rejected,
                }
            },
            None => {
                return Err("approved canon cannot be rejected".to_owned());
            },
        };
        let order: u32 = record.order;
        self.chapters.insert(chapter_id.to_owned(), record);
        let changed = match self.runs.get(chapter_id) {
            Some(run) => {
                let mut copy = run.copy();
                copy.state = ChapterState::Rejected;
                copy.changeset.state = ChangesetState::Rejected;
                Some(copy)
            },
            None => None,
        };
        if let Some(run) = changed {
            self.runs.insert(chapter_id.to_owned(), run);
        }
        self.apply_edit(order);
        Ok(())
    }

    /// Returns the chapter of a changeset.
    pub fn chapter_of_changeset(&self, changeset_id: &str) -> (r: Result<String, String>)
        ensures
            match chapter_of_change(self@.runs, changeset_id@, 0) {
                Some(chapter_id) => r is Ok && r->Ok_0@ == chapter_id,
                None => r is Err && r->Err_0@ == "changeset "@ + changeset_id@
                    + " was not found"@,
            },
    {
        let ghost all = self@.runs;
        let mut i: usize = 0;
        while i < self.runs.len()
            invariant
                i <= self.runs@.len(),
                all == self@.runs,
                chapter_of_change(all, changeset_id@, 0) == chapter_of_change(
                    all,
                    changeset_id@,
                    i as int,
                ),
            decreases self.runs@.len() - i,
        {
            if str_eq(self.runs.value(i).changeset.id.as_str(), changeset_id) {
                return Ok(self.runs.key(i).to_owned());
            }
            i += 1;
        }
        Err(concat3("changeset ", changeset_id, " was not found"))
    }

    /// Rejects the chapter of a changeset on behalf of a human.
    pub fn reject_changeset_trusted(&mut self, changeset_id: &str) -> (r: Result<(), String>)
        ensures
            match chapter_of_change(old(self)@.runs, changeset_id@, 0) {
                None => r is Err && r->Err_0@ == "changeset "@ + changeset_id@
                    + " was not found"@ && final(self)@ == old(self)@,
                Some(chapter_id) => if rejectable(old(self)@, chapter_id) {
                    r is Ok && final(self)@ == rejected(old(self)@, chapter_id)
                } else {
                    r is Err && r->Err_0@ == "approved canon cannot be rejected"@ && final(self)@
                        == old(self)@
                },
            },
    {
        match self.chapter_of_changeset(changeset_id) {
            Err(error) => Err(error),
            Ok(chapter_id) => self.reject_chapter_trusted(chapter_id.as_str()),
        }
    }

    fn earlier_chapters_approved(&self, order: u32) -> (r: bool)
        ensures
            r == earlier_approved(self@.chapters, order),
    {
        let ghost all = self@.chapters;
        let mut i: usize = 0;
        while i < self.chapters.len()
            invariant
                i <= self.chapters@.len(),
                all == self@.chapters,
                forall|k: int|
                    0 <= k < i ==> (#[trigger] all[k]).1.order >= order || all[k].1.state
                        == ChapterState::Approved,
            decreases self.chapters@.len() - i,
        {
            let chapter = self.chapters.value(i);
            if chapter.order < order && chapter.state != ChapterState::Approved {
                assert(all[i as int].1 == chapter@);
                return false;
            }
            i += 1;
        }
        true
    }

    fn check_approval(&self, chapter_id: &str) -> (r: Result<(), String>)
        requires
            lookup(self@.runs, chapter_id@) is Some ==> has_key(self@.chapters, chapter_id@),
        ensures
            match approval_refusal(self@, chapter_id@) {
                Some(text) => r is Err && r->Err_0@ == text,
                None => r is Ok,
            },
    {
        match self.runs.get(chapter_id) {
            None => {
                return Err(concat3("chapter ", chapter_id, " has no candidate"));
            },
            Some(run) => {
                if !run.is_approvable() {
                    return Err(concat3("chapter ", chapter_id, " is not approvable"));
                }
            },
        }
        let order: u32 = match self.chapters.get(chapter_id) {
            Some(chapter) => chapter.order,
            None => 0,
        };
        if !self.earlier_chapters_approved(order) {
            return Err("chapters must be approved in order".to_owned());
        }
        Ok(())
    }

    /// Returns the changeset that the approval of a chapter applies: that of the chapter, bound
    /// to the approvals that exist now, where it is valid.
    pub fn plan_approval(&self, chapter_id: &str, directory: &str, snapshot: &ProjectSnapshot) -> (r:
        Result<PlannedApproval, ApprovalFailure>)
        requires
            lookup(self@.runs, chapter_id@) is Some ==> has_key(self@.chapters, chapter_id@),
        ensures
            match approval_plan(self@, chapter_id@, directory@, *snapshot) {
                Ok(change) => r is Ok && r->Ok_0@ == (PlannedModel {
                    chapter_id: chapter_id@,
                    change,
                }),
                Err(text) => r is Err && failure_message(r->Err_0) == text,
            },
    {
        match self.check_approval(chapter_id) {
            Err(text) => {
                return Err(ApprovalFailure::Refused(text));
            },
            Ok(()) => {},
        }
        let project = match &self.project {
            None => {
                return Err(ApprovalFailure::Failed(ApprovalError::ProjectRequired));
            },
            Some(project) => project,
        };
        let mut change = match self.runs.get(chapter_id) {
            Some(run) => run.changeset.copy(),
            None => {
                return Err(ApprovalFailure::Failed(ApprovalError::ProjectRequired));
            },
        };
        let dependencies = match project_dependencies(
            snapshot.approvals.as_slice(),
            directory,
            change.chapter_order,
        ) {
            Err(text) => {
                return Err(ApprovalFailure::Failed(ApprovalError::Validation(text)));
            },
            Ok(dependencies) => dependencies,
        };
        if !same_dependencies(change.dependencies.as_slice(), dependencies.as_slice()) {
            change.parent_changeset_id = parent_of(dependencies.as_slice());
            change.dependencies = dependencies;
            change.validation_hash = Some(calculate_validation_hash(&change));
            match projected_root_hash(snapshot, &change) {
                Err(error) => {
                    return Err(
                        ApprovalFailure::Failed(ApprovalError::Validation(error.to_text())),
                    );
                },
                Ok(hash) => {
                    change.result_root_hash = hash;
                },
            }
        }
        match validate_changeset(project, snapshot, &change) {
            Err(error) => Err(ApprovalFailure::Failed(ApprovalError::Validation(error.to_text()))),
            Ok(()) => Ok(PlannedApproval { chapter_id: chapter_id.to_owned(), change }),
        }
    }

    /// Records that a chapter was approved, where the record that was stored of the changeset, read
    /// back, is the one that its validation gives.
    pub fn finish_approval(&mut self, approval: PlannedApproval, stored: &[u8]) -> (r: Result<
        SessionEntry,
        ApprovalError,
    >)
        requires
            has_key(old(self)@.chapters, approval@.chapter_id),
            has_key(old(self)@.runs, approval@.chapter_id),
        ensures
            match proof_error(approval@.change, stored@) {
                Some(text) => r is Err && approval_message(r->Err_0) == text && final(self)@
                    == old(self)@,
                None => {
                    &&& r is Ok
                    &&& final(self)@ == approved(
                        old(self)@,
                        approval@.chapter_id,
                        approval@.change,
                    )
                    &&& r->Ok_0.event matches SessionEvent::ChangesetStateChanged { id, state }
                        && id@ == approval@.change.id && state == ChangesetState::Approved
                    &&& r->Ok_0.context_hash@ == lookup(
                        old(self)@.runs,
                        approval@.chapter_id,
                    )->Some_0.context_receipt_hash
                },
            },
    {
        match check_proof(&approval.change, stored) {
            Err(error) => {
                return Err(error);
            },
            Ok(()) => {},
        }
        Ok(self.approve_with(approval.chapter_id.as_str(), approval.change))
    }

    fn approve_with(&mut self, chapter_id: &str, change: Changeset) -> (r: SessionEntry)
        requires
            has_key(old(self)@.chapters, chapter_id@),
            has_key(old(self)@.runs, chapter_id@),
        ensures
            final(self)@ == approved(old(self)@, chapter_id@, change@),
            r.event matches SessionEvent::ChangesetStateChanged { id, state } && id@ == change@.id
                && state == ChangesetState::Approved,
            r.context_hash@ == lookup(
                old(self)@.runs,
                chapter_id@,
            )->Some_0.context_receipt_hash,
    {
        let id = change.id.copy();
        let mut change = change;
        change.state = ChangesetState::Approved;
        let record = match self.chapters.get(chapter_id) {
            Some(chapter) => ChapterRecord {
                id: chapter.id.clone(),
                order: chapter.order,
                state: ChapterState::Approved,
            },
            None => ChapterRecord {
                id: chapter_id.to_owned(),
                order: 0,
                state: ChapterState::Approved,
            },
        };
        self.chapters.insert(chapter_id.to_owned(), record);
        let mut context_hash = String::new();
        let changed = match self.runs.get(chapter_id) {
            Some(run) => {
                let mut copy = run.copy();
                context_hash = run.context_receipt_hash.clone();
                copy.state = ChapterState::Approved;
                copy.changeset = change;
                Some(copy)
            },
            None => None,
        };
        if let Some(run) = changed {
            self.runs.insert(chapter_id.to_owned(), run);
        }
        SessionEntry {
            event: SessionEvent::ChangesetStateChanged { id, state: ChangesetState::Approved },
            context_hash,
        }
    }
}

/// What keeps a request from being paid for.
pub open spec fn budget_error(m: RunModel, chapter_id: Seq<char>) -> Option<Seq<char>> {
    match m.request_maximum {
        None => Some("unknown model price; generation is stopped"@),
        Some(maximum) => if m.cost_status.chapter@ + maximum@ > u64::MAX {
            Some("chapter cost arithmetic overflow"@)
        } else if m.cost_status.run@ + maximum@ > u64::MAX {
            Some("run cost arithmetic overflow"@)
        } else if m.cost_status.chapter@ + maximum@ > 10_000_000 {
            Some("chapter budget hard stop at $10 before model reservation"@)
        } else if m.cost_status.run@ + maximum@ > 120_000_000 {
            Some("continuous run budget hard stop at $120 before model reservation"@)
        } else {
            reserve_error(m.ledger, chapter_id, maximum@)
        },
    }
}

/// Whether a cost status is another one with an amount added.
pub open spec fn charged(before: CostStatus, after: CostStatus, amount: u64, warning: bool) -> bool {
    &&& after.chapter@ == before.chapter@ + amount
    &&& after.run@ == before.run@ + amount
    &&& after.warning == (before.warning || warning)
}

/// What became of a request that was answered: the events for the session journal and the cost
/// ledger and whether the cost could be settled.
#[derive(Debug)]
pub struct Completion {
    /// Event for the session journal.
    pub event: Option<SessionEvent>,
    /// Event for the cost ledger.
    pub settled: Option<LedgerEvent>,
    /// Whether the cost could be settled.
    pub outcome: Result<(), String>,
}

/// How an answer changes the costs: the reservation stays where usage or price is unknown.
pub open spec fn completion_result(
    m: RunModel,
    reservation: ReservationModel,
    usage: Option<Usage>,
) -> (LedgerModel, u64, u64, Result<(), Seq<char>>) {
    let status = m.cost_status;
    let same = (m.ledger, status.chapter@, status.run@);
    if usage is None || m.request_price is None {
        (
            same.0,
            same.1,
            same.2,
            if request_position(m.ledger.reservations, reservation.request_id, 0) is Some {
                Ok(())
            } else {
                Err("reservation is unknown"@)
            },
        )
    } else {
        match cost_result(m.request_price->Some_0, usage->Some_0) {
            Err(error) => (same.0, same.1, same.2, Err(error)),
            Ok(actual) => match settle_error(m.ledger, reservation.request_id, actual as u64) {
                Some(error) => (same.0, same.1, same.2, Err(error)),
                None => {
                    let ledger = settled(m.ledger, reservation.request_id, actual as u64);
                    let delta = if reservation.reserved_cost >= actual {
                        reservation.reserved_cost - actual
                    } else {
                        0int
                    };
                    if status.chapter@ < delta {
                        (
                            ledger,
                            status.chapter@,
                            status.run@,
                            Err("chapter cost settlement underflow"@),
                        )
                    } else if status.run@ < delta {
                        (
                            ledger,
                            (status.chapter@ - delta) as u64,
                            status.run@,
                            Err("run cost settlement underflow"@),
                        )
                    } else {
                        (
                            ledger,
                            (status.chapter@ - delta) as u64,
                            (status.run@ - delta) as u64,
                            Ok(()),
                        )
                    }
                },
            },
        }
    }
}

/// The cost at which an answer settles its reservation.
pub open spec fn settled_cost(
    m: RunModel,
    reservation: ReservationModel,
    usage: Option<Usage>,
) -> Option<u64> {
    if usage is None || m.request_price is None {
        None
    } else {
        match cost_result(m.request_price->Some_0, usage->Some_0) {
            Err(_) => None,
            Ok(actual) => if settle_error(m.ledger, reservation.request_id, actual as u64) is None {
                Some(actual as u64)
            } else {
                None
            },
        }
    }
}

/// Whether an event for the cost ledger settles a request at a cost.
pub open spec fn settles_at(
    event: Option<LedgerEvent>,
    request_id: Seq<char>,
    cost: Option<u64>,
) -> bool {
    match cost {
        None => event is None,
        Some(amount) => event matches Some(LedgerEvent::Settled { request_id: id, actual_cost })
            && id@ == request_id && actual_cost@ == amount,
    }
}

/// A request to a model, with the money that is held back for it.  Only a run makes one, and it
/// reserves the money first.
#[derive(Debug)]
pub struct PaidRequest {
    reservation: Reservation,
    request: ModelRequest,
}

/// A paid request by the views of its parts.
pub struct PaidModel {
    pub reservation: ReservationModel,
    pub request: RequestModel,
}

impl View for PaidRequest {
    type V = PaidModel;

    closed spec fn view(&self) -> PaidModel {
        PaidModel { reservation: self.reservation@, request: self.request@ }
    }
}

impl PaidRequest {
    /// Returns the money that is held back.
    pub fn reservation(&self) -> (r: &Reservation)
        ensures
            r@ == self@.reservation,
    {
        &self.reservation
    }

    /// Returns the request.
    pub fn request(&self) -> (r: &ModelRequest)
        ensures
            r@ == self@.request,
    {
        &self.request
    }

    /// Returns the event that goes before the request.
    pub fn started(&self) -> (r: SessionEvent)
        ensures
            r matches SessionEvent::ModelCallStarted { request_id, context_hash } && request_id@
                == self@.reservation.request_id && context_hash@ == digest_text(
                request_material(self@.request.messages),
            ),
    {
        SessionEvent::ModelCallStarted {
            request_id: self.reservation.request_id.copy(),
            context_hash: request_context_hash(&self.request),
        }
    }
}

/// Whether a run became another one by a reservation for a request about a chapter, which it holds.
pub open spec fn request_reserved(
    before: RunModel,
    after: RunModel,
    chapter_id: Seq<char>,
    reservation: ReservationModel,
) -> bool {
    let maximum = before.request_maximum->Some_0@;
    &&& budget_error(before, chapter_id) is None
    &&& is_id_of(reservation.request_id, EntityKind::Request)
    &&& reservation == new_reservation(
        before.ledger,
        reservation.request_id,
        chapter_id,
        maximum,
    )
    &&& charged(before.cost_status, after.cost_status, maximum, reservation.warning_required)
    &&& holds(after.ledger, reservation)
    &&& after == (RunModel {
        ledger: reserved(before.ledger, reservation),
        cost_status: after.cost_status,
        ..before
    })
}

impl RunController {
    pub(crate) fn pay_for(&mut self, chapter_id: &str, request: ModelRequest) -> (r: Result<
        PaidRequest,
        String,
    >)
        ensures
            match r {
                Err(error) => budget_error(old(self)@, chapter_id@) == Some(error@) && final(self)@
                    == old(self)@,
                Ok(paid) => request_reserved(
                    old(self)@,
                    final(self)@,
                    chapter_id@,
                    paid@.reservation,
                ) && paid@.request == request@,
            },
    {
        match self.reserve_request(chapter_id) {
            Err(error) => Err(error),
            Ok(reservation) => Ok(PaidRequest { reservation, request }),
        }
    }

    /// Holds money back for a request about a chapter.
    pub fn reserve_request(&mut self, chapter_id: &str) -> (r: Result<Reservation, String>)
        ensures
            match r {
                Err(error) => budget_error(old(self)@, chapter_id@) == Some(error@) && final(self)@
                    == old(self)@,
                Ok(reservation) => request_reserved(
                    old(self)@,
                    final(self)@,
                    chapter_id@,
                    reservation@,
                ),
            },
    {
        let maximum = match self.request_maximum {
            None => {
                return Err("unknown model price; generation is stopped".to_owned());
            },
            Some(maximum) => maximum,
        };
        let chapter: u64 = self.cost_status.chapter.as_u64();
        let run: u64 = self.cost_status.run.as_u64();
        if chapter > u64::MAX - maximum.as_u64() {
            return Err("chapter cost arithmetic overflow".to_owned());
        }
        if run > u64::MAX - maximum.as_u64() {
            return Err("run cost arithmetic overflow".to_owned());
        }
        if chapter + maximum.as_u64() > 10_000_000 {
            return Err("chapter budget hard stop at $10 before model reservation".to_owned());
        }
        if run + maximum.as_u64() > 120_000_000 {
            return Err(
                "continuous run budget hard stop at $120 before model reservation".to_owned(),
            );
        }
        match self.ledger.reserve(chapter_id, maximum) {
            Err(error) => Err(error),
            Ok(reservation) => {
                proof {
                    reservation_is_held(old(self)@.ledger, reservation@);
                }
                self.cost_status = CostStatus {
                    chapter: MicroDollars::new(chapter + maximum.as_u64()),
                    run: MicroDollars::new(run + maximum.as_u64()),
                    warning: self.cost_status.warning || reservation.warning_required,
                };
                Ok(reservation)
            },
        }
    }

    /// Settles the cost of a request that was answered.
    pub fn record_model_completion(&mut self, reservation: &Reservation, usage: Option<Usage>) -> (r:
        Completion)
        ensures
            ({
                let result = completion_result(old(self)@, reservation@, usage);
                &&& final(self)@ == (RunModel {
                    ledger: result.0,
                    cost_status: final(self)@.cost_status,
                    ..old(self)@
                })
                &&& final(self)@.cost_status.chapter@ == result.1
                &&& final(self)@.cost_status.run@ == result.2
                &&& final(self)@.cost_status.warning == old(self)@.cost_status.warning
                &&& match result.3 {
                    Ok(()) => r.outcome is Ok,
                    Err(error) => r.outcome is Err && r.outcome->Err_0@ == error,
                }
                &&& match usage {
                    None => r.event is None,
                    Some(used) => r.event matches Some(SessionEvent::ModelCallCompleted {
                        request_id,
                        usage: reported,
                    }) && request_id@ == reservation@.request_id && reported == used,
                }
                &&& settles_at(
                    r.settled,
                    reservation@.request_id,
                    settled_cost(old(self)@, reservation@, usage),
                )
            }),
    {
        let used = match usage {
            None => {
                return Completion {
                    event: None,
                    settled: None,
                    outcome: self.ledger.retain_ambiguous(reservation),
                };
            },
            Some(used) => used,
        };
        let event = Some(
            SessionEvent::ModelCallCompleted {
                request_id: reservation.request_id.copy(),
                usage: used,
            },
        );
        let (cost, outcome) = self.settle_usage(reservation, used);
        let settled = match cost {
            None => None,
            Some(actual_cost) => Some(
                LedgerEvent::Settled { request_id: reservation.request_id.copy(), actual_cost },
            ),
        };
        Completion { event, settled, outcome }
    }

    /// Takes back a reservation that could not be stored, with the costs as they were before it.
    pub fn cancel_request(&mut self, reservation: &Reservation, before: CostStatus)
        ensures
            final(self)@ == (RunModel {
                ledger: cancelled(old(self)@.ledger, reservation@),
                cost_status: before,
                ..old(self)@
            }),
    {
        self.ledger.cancel(reservation);
        self.cost_status = before;
    }

    /// Takes back a settlement that could not be stored, with the costs as they were before it.
    pub fn unsettle_request(&mut self, reservation: &Reservation, before: CostStatus)
        ensures
            final(self)@ == (RunModel {
                ledger: unsettled(old(self)@.ledger, reservation@),
                cost_status: before,
                ..old(self)@
            }),
    {
        self.ledger.unsettle(reservation);
        self.cost_status = before;
    }

    fn settle_usage(&mut self, reservation: &Reservation, used: Usage) -> (r: (
        Option<MicroDollars>,
        Result<(), String>,
    ))
        ensures
            ({
                let result = completion_result(old(self)@, reservation@, Some(used));
                &&& final(self)@ == (RunModel {
                    ledger: result.0,
                    cost_status: final(self)@.cost_status,
                    ..old(self)@
                })
                &&& final(self)@.cost_status.chapter@ == result.1
                &&& final(self)@.cost_status.run@ == result.2
                &&& final(self)@.cost_status.warning == old(self)@.cost_status.warning
                &&& match result.3 {
                    Ok(()) => r.1 is Ok,
                    Err(error) => r.1 is Err && r.1->Err_0@ == error,
                }
                &&& match settled_cost(old(self)@, reservation@, Some(used)) {
                    None => r.0 is None,
                    Some(amount) => r.0 is Some && r.0->Some_0@ == amount,
                }
            }),
    {
        let price = match self.request_price {
            None => {
                return (None, self.ledger.retain_ambiguous(reservation));
            },
            Some(price) => price,
        };
        let actual = match price.cost_for(used) {
            Err(error) => {
                return (None, Err(error));
            },
            Ok(actual) => actual,
        };
        match self.ledger.settle(&reservation.request_id, actual) {
            Err(error) => {
                return (None, Err(error));
            },
            Ok(_) => {},
        }
        let held: u64 = reservation.reserved_cost.as_u64();
        let delta: u64 = if held >= actual.as_u64() {
            held - actual.as_u64()
        } else {
            0
        };
        let chapter: u64 = self.cost_status.chapter.as_u64();
        let run: u64 = self.cost_status.run.as_u64();
        let warning = self.cost_status.warning;
        if chapter < delta {
            return (Some(actual), Err("chapter cost settlement underflow".to_owned()));
        }
        let left = MicroDollars::new(chapter - delta);
        if run < delta {
            self.cost_status = CostStatus { chapter: left, run: self.cost_status.run, warning };
            return (Some(actual), Err("run cost settlement underflow".to_owned()));
        }
        self.cost_status = CostStatus {
            chapter: left,
            run: MicroDollars::new(run - delta),
            warning,
        };
        (Some(actual), Ok(()))
    }
}

/// Returns the event for a request that failed: an ambiguous one keeps its reservation.
pub fn failure_event(reservation: &Reservation, failure: &ModelFailure) -> (r: Option<SessionEvent>)
    ensures
        match r {
            None => failure@.0 == ModelFailureClass::Stopped,
            Some(event) => {
                &&& failure@.0 == ModelFailureClass::Ambiguous
                &&& event matches SessionEvent::ModelCallAmbiguous { request_id, reserved_cost }
                    && request_id@ == reservation@.request_id && reserved_cost@
                    == reservation@.reserved_cost
            },
        },
{
    match failure.class() {
        ModelFailureClass::Ambiguous => Some(
            SessionEvent::ModelCallAmbiguous {
                request_id: reservation.request_id.copy(),
                reserved_cost: reservation.reserved_cost,
            },
        ),
        ModelFailureClass::Stopped => None,
    }
}

/// The message of a failed request.
pub open spec fn model_error_text(failure: Failure) -> Seq<char> {
    if failure.0 == ModelFailureClass::Ambiguous {
        "ambiguous model request: "@ + failure.1
    } else {
        failure.1
    }
}

/// Returns the message of a failed request.
pub fn model_error(failure: &ModelFailure) -> (r: String)
    ensures
        r@ == model_error_text(failure@),
{
    match failure.class() {
        ModelFailureClass::Ambiguous => concat2(
            "ambiguous model request: ",
            failure.to_text().as_str(),
        ),
        ModelFailureClass::Stopped => failure.to_text(),
    }
}

/// The material of the digest of a request.
pub open spec fn request_material(list: Seq<(Seq<char>, Seq<char>)>) -> Seq<u8>
    decreases list.len(),
{
    if list.len() == 0 {
        Seq::empty()
    } else {
        request_material(list.drop_last()) + utf8(list.last().0) + seq![0u8] + utf8(list.last().1)
            + seq![0xffu8]
    }
}

/// Returns the digest of a request.
pub fn request_context_hash(request: &ModelRequest) -> (r: String)
    ensures
        r@ == digest_text(request_material(request@.messages)),
{
    let ghost all = request@.messages;
    let mut bytes: Vec<u8> = Vec::new();
    let mut i: usize = 0;
    assert(all.take(0) =~= Seq::<(Seq<char>, Seq<char>)>::empty());
    while i < request.messages.len()
        invariant
            i <= request.messages@.len(),
            all == messages(request.messages@),
            bytes@ == request_material(all.take(i as int)),
        decreases request.messages@.len() - i,
    {
        let ghost t = all.take(i + 1);
        let ghost before = bytes@;
        proof {
            assert(t.drop_last() =~= all.take(i as int));
            assert(t.last() == request.messages@[i as int]@);
        }
        bytes.extend_from_slice(request.messages[i].role.as_str().as_bytes());
        bytes.push(0);
        bytes.extend_from_slice(request.messages[i].content.as_str().as_bytes());
        bytes.push(0xff);
        assert(bytes@ =~= before + utf8(t.last().0) + seq![0u8] + utf8(t.last().1)
            + seq![0xffu8]);
        i += 1;
    }
    assert(all.take(i as int) =~= all);
    sha256_bytes(bytes.as_slice())
}

/// The identifiers among texts.
pub open spec fn known(list: Seq<Seq<char>>) -> Seq<Seq<char>> {
    list.filter(|id: Seq<char>| is_known_id(id))
}

fn known_ids(list: &[String]) -> (r: Vec<EntityId>)
    ensures
        ids(r@) == known(texts(list@)),
{
    let ghost all = texts(list@);
    let ghost wanted = |id: Seq<char>| is_known_id(id);
    let mut out: Vec<EntityId> = Vec::new();
    let mut i: usize = 0;
    proof {
        reveal(Seq::filter);
        assert(all.take(0) =~= Seq::empty());
        assert(ids(out@) =~= Seq::empty());
    }
    while i < list.len()
        invariant
            i <= list@.len(),
            all == texts(list@),
            wanted == (|id: Seq<char>| is_known_id(id)),
            ids(out@) == all.take(i as int).filter(wanted),
        decreases list@.len() - i,
    {
        let ghost t = all.take(i + 1);
        proof {
            reveal(Seq::filter);
            assert(t.drop_last() =~= all.take(i as int));
            assert(t.last() == list@[i as int]@);
        }
        if let Some(id) = EntityId::from_validated(list[i].clone()) {
            let ghost before = ids(out@);
            let ghost item = id@;
            out.push(id);
            assert(ids(out@) =~= before.push(item));
        }
        i += 1;
    }
    assert(all.take(i as int) =~= all);
    out
}

/// The open findings that block, by identifier, for the findings from `i` on.
pub open spec fn open_blockers(findings: Entries<FindingModel>, i: int) -> Seq<Seq<char>>
    decreases i,
{
    if i <= 0 {
        Seq::empty()
    } else {
        let before = open_blockers(findings, i - 1);
        let finding = findings[i - 1].1;
        if kind_blocks(finding.kind) && finding.resolved is None {
            before.push(finding.id)
        } else {
            before
        }
    }
}

/// The changesets that need revalidation, for the first outcomes.
pub open spec fn stale_changes(runs: Entries<RunRecord>, i: int) -> Seq<Seq<char>>
    decreases i,
{
    if i <= 0 {
        Seq::empty()
    } else {
        let before = stale_changes(runs, i - 1);
        if runs[i - 1].1.state == ChapterState::NeedsRevalidation {
            before.push(runs[i - 1].1.changeset.id)
        } else {
            before
        }
    }
}

/// Whether a checkpoint holds the facts of a run.
pub open spec fn checkpoint_of(c: Checkpoint, m: RunModel, context_hash: Seq<char>) -> bool {
    &&& c.context_epochs@.len() == 1
    &&& c.context_epochs@[0].model@ == m.models[role_index(AgentRole::Writer)]
    &&& c.context_epochs@[0].checkpoint_hash@ == context_hash
    &&& c.recent_raw_tail_tokens == PRESERVED_RAW_TAIL_TOKENS
    &&& texts(c.canon_fact_hashes@) == m.canon_hashes.map_values(
        |entry: (Seq<char>, Seq<char>)| entry.1,
    )
    &&& c.source_hashes@.len() == 0
    &&& ids(c.correction_ids@) == known(m.corrections.map_values(|rule: RuleModel| rule.id))
    &&& ids(c.blocker_ids@) == known(open_blockers(m.findings, m.findings.len() as int))
    &&& ids(c.stale_changeset_ids@) == stale_changes(m.runs, m.runs.len() as int)
    &&& c.cost == m.cost_status.run
}

impl RunController {
    fn canon_list(&self) -> (r: Vec<String>)
        ensures
            texts(r@) == self@.canon_hashes.map_values(|entry: (Seq<char>, Seq<char>)| entry.1),
    {
        let mut out: Vec<String> = Vec::new();
        let mut i: usize = 0;
        while i < self.canon_hashes.len()
            invariant
                i <= self.canon_hashes@.len(),
                out@.len() == i,
                forall|k: int| 0 <= k < i ==> #[trigger] out@[k]@ == self.canon_hashes@[k].1,
            decreases self.canon_hashes@.len() - i,
        {
            out.push(self.canon_hashes.value(i).clone());
            i += 1;
        }
        assert(texts(out@) =~= self@.canon_hashes.map_values(
            |entry: (Seq<char>, Seq<char>)| entry.1,
        ));
        out
    }

    fn correction_list(&self) -> (r: Vec<String>)
        ensures
            texts(r@) == self@.corrections.map_values(|rule: RuleModel| rule.id),
    {
        let mut out: Vec<String> = Vec::new();
        let mut i: usize = 0;
        while i < self.corrections.len()
            invariant
                i <= self.corrections@.len(),
                out@.len() == i,
                forall|k: int| 0 <= k < i ==> #[trigger] out@[k]@ == self.corrections@[k].id@,
            decreases self.corrections@.len() - i,
        {
            out.push(self.corrections[i].id.clone());
            i += 1;
        }
        assert(texts(out@) =~= self@.corrections.map_values(|rule: RuleModel| rule.id));
        out
    }

    fn blocker_list(&self) -> (r: Vec<String>)
        ensures
            texts(r@) == open_blockers(self@.findings, self@.findings.len() as int),
    {
        let mut out: Vec<String> = Vec::new();
        let mut i: usize = 0;
        assert(texts(out@) =~= open_blockers(self@.findings, 0));
        while i < self.findings.len()
            invariant
                i <= self.findings@.len(),
                texts(out@) == open_blockers(self@.findings, i as int),
            decreases self.findings@.len() - i,
        {
            let finding = self.findings.value(i);
            if finding.kind.is_blocking() && finding.is_open() {
                let ghost before = texts(out@);
                out.push(finding.id.clone());
                assert(texts(out@) =~= before.push(finding.id@));
            }
            i += 1;
        }
        out
    }

    fn stale_list(&self) -> (r: Vec<EntityId>)
        ensures
            ids(r@) == stale_changes(self@.runs, self@.runs.len() as int),
    {
        let mut out: Vec<EntityId> = Vec::new();
        let mut i: usize = 0;
        assert(ids(out@) =~= stale_changes(self@.runs, 0));
        while i < self.runs.len()
            invariant
                i <= self.runs@.len(),
                ids(out@) == stale_changes(self@.runs, i as int),
            decreases self.runs@.len() - i,
        {
            let run = self.runs.value(i);
            if run.state == ChapterState::NeedsRevalidation {
                let ghost before = ids(out@);
                out.push(run.changeset.id.copy());
                assert(ids(out@) =~= before.push(run.changeset.id@));
            }
            i += 1;
        }
        out
    }

    /// Builds a checkpoint of the run that is anchored at the last event of a journal.
    pub fn checkpoint(&self, journal: &SessionJournal, context_hash: &str) -> (r: Result<
        Checkpoint,
        String,
    >)
        requires
            run_wf(self@),
        ensures
            match journal.anchor() {
                None => r is Err && r->Err_0@ == "cannot checkpoint an empty session journal"@,
                Some((offset, digest)) => {
                    &&& r is Ok
                    &&& r->Ok_0.last_event_offset == offset
                    &&& r->Ok_0.last_event_sha256@ == digest
                    &&& checkpoint_of(r->Ok_0, self@, context_hash@)
                },
            },
    {
        let mut epochs: Vec<ContextEpoch> = Vec::new();
        epochs.push(
            ContextEpoch {
                model: self.model(AgentRole::Writer).to_owned(),
                checkpoint_hash: context_hash.to_owned(),
            },
        );
        Checkpoint::from_journal(
            journal,
            epochs,
            self.canon_list(),
            Vec::new(),
            known_ids(self.correction_list().as_slice()),
            known_ids(self.blocker_list().as_slice()),
            self.stale_list(),
            self.cost_status.run,
        )
    }
}

/// What keeps a request from being handed to the coordinator.
pub open spec fn coordinator_error(m: RunModel, request: Seq<char>) -> Option<Seq<char>> {
    if is_blank(request) {
        Some("coordinator request is empty"@)
    } else if m.recovery_required {
        Some(
            "durable checkpoint requires in-memory state reconstruction; manual resolution is required"@,
        )
    } else {
        None
    }
}

/// A recorded request: the entry for the session journal and the answer.
#[derive(Debug)]
pub struct RecordedRequest {
    /// Entry for the session journal.
    pub entry: SessionEntry,
    /// Answer.
    pub reply: String,
}

/// Whether an event records an instruction to the coordinator.
pub open spec fn is_instruction(event: SessionEvent, request: Seq<char>) -> bool {
    event matches SessionEvent::UserInstruction { text } && text@ == "coordinator: "@ + request
}

impl RunController {
    fn check_request(&self, request: &str) -> (r: Result<(), String>)
        ensures
            match coordinator_error(self@, request@) {
                Some(error) => r is Err && r->Err_0@ == error,
                None => r is Ok,
            },
    {
        if blank(request) {
            return Err("coordinator request is empty".to_owned());
        }
        if self.recovery_required {
            return Err(
                "durable checkpoint requires in-memory state reconstruction; manual resolution is required".to_owned(),
            );
        }
        Ok(())
    }

    /// Records a request to the coordinator; the canon stays as it is.
    pub fn record_coordinator_request(&self, request: &str) -> (r: Result<RecordedRequest, String>)
        ensures
            match coordinator_error(self@, request@) {
                Some(error) => r is Err && r->Err_0@ == error,
                None => {
                    &&& r is Ok
                    &&& is_instruction(r->Ok_0.entry.event, request@)
                    &&& r->Ok_0.entry.context_hash@ == digest_text(utf8(request@))
                    &&& r->Ok_0.reply@ == "coordinator request recorded: "@ + request@
                        + "; canon unchanged"@
                },
            },
    {
        match self.check_request(request) {
            Err(error) => Err(error),
            Ok(()) => Ok(
                RecordedRequest {
                    entry: SessionEntry {
                        event: SessionEvent::UserInstruction {
                            text: concat2("coordinator: ", request),
                        },
                        context_hash: sha256_text(request),
                    },
                    reply: concat3("coordinator request recorded: ", request, "; canon unchanged"),
                },
            ),
        }
    }

    /// Returns the event that goes before a request to a model on behalf of the coordinator.
    pub fn plan_coordinator_request(&self, request: &str) -> (r: Result<SessionEvent, String>)
        ensures
            match coordinator_error(self@, request@) {
                Some(error) => r is Err && r->Err_0@ == error,
                None => r is Ok && is_instruction(r->Ok_0, request@),
            },
    {
        match self.check_request(request) {
            Err(error) => Err(error),
            Ok(()) => Ok(SessionEvent::UserInstruction { text: concat2("coordinator: ", request) }),
        }
    }

    /// Gives out a request to a model on behalf of the coordinator, once its money is held back.
    pub fn begin_coordinator_request(&mut self, role: AgentRole, request: &str) -> (r: Result<
        PaidRequest,
        String,
    >)
        requires
            run_wf(old(self)@),
        ensures
            match coordinator_error(old(self)@, request@) {
                Some(error) => r is Err && r->Err_0@ == error && final(self)@ == old(self)@,
                None => match r {
                    Err(error) => budget_error(old(self)@, "coordinator"@) == Some(error@)
                        && final(self)@ == old(self)@,
                    Ok(paid) => request_reserved(
                        old(self)@,
                        final(self)@,
                        "coordinator"@,
                        paid@.reservation,
                    ) && paid@.request == role_request(old(self)@, role, request@),
                },
            },
    {
        match self.check_request(request) {
            Err(error) => {
                return Err(error);
            },
            Ok(()) => {},
        }
        let built = self.request_for(role, request.to_owned());
        self.pay_for("coordinator", built)
    }

    /// Builds the request of a role.
    pub(crate) fn request_for(&self, role: AgentRole, prompt: String) -> (r: ModelRequest)
        requires
            run_wf(self@),
        ensures
            r@ == role_request(self@, role, prompt@),
    {
        let mut list: Vec<ModelMessage> = Vec::new();
        let ghost text = prompt@;
        list.push(ModelMessage::user(prompt));
        assert(messages(list@) =~= seq![("user"@, text)]);
        let none: Vec<ToolDefinition> = Vec::new();
        assert(definitions(none@) =~= Seq::<ToolDefinitionModel>::empty());
        ModelRequest::new(role.name().to_owned(), list, none).with_model(
            self.model(role).to_owned(),
        )
    }
}

/// The request of a role: one message, no tools.
pub open spec fn role_request(m: RunModel, role: AgentRole, prompt: Seq<char>) -> RequestModel {
    RequestModel {
        role: role_name(role),
        model: m.models[role_index(role)],
        messages: seq![("user"@, prompt)],
        tools: Seq::empty(),
    }
}

/// The name of a chapter state in messages.
pub open spec fn state_label(state: ChapterState) -> Seq<char> {
    match state {
        ChapterState::Planned => "Planned"@,
        ChapterState::Running => "Running"@,
        ChapterState::Candidate => "Candidate"@,
        ChapterState::Approvable => "Approvable"@,
        ChapterState::Approved => "Approved"@,
        ChapterState::Rejected => "Rejected"@,
        ChapterState::Stale => "Stale"@,
        ChapterState::NeedsRevalidation => "NeedsRevalidation"@,
    }
}

impl ChapterState {
    /// Returns the name of the state in messages.
    pub fn label(self) -> (r: &'static str)
        ensures
            r@ == state_label(self),
    {
        match self {
            ChapterState::Planned => "Planned",
            ChapterState::Running => "Running",
            ChapterState::Candidate => "Candidate",
            ChapterState::Approvable => "Approvable",
            ChapterState::Approved => "Approved",
            ChapterState::Rejected => "Rejected",
            ChapterState::Stale => "Stale",
            ChapterState::NeedsRevalidation => "NeedsRevalidation",
        }
    }
}

/// Whether a chapter must be revalidated before it is written again.
pub open spec fn is_outdated(state: ChapterState) -> bool {
    state == ChapterState::Stale || state == ChapterState::NeedsRevalidation
}

/// What is wrong with the chapter at a position of a continuous run.
pub open spec fn continuous_error(m: RunModel, chapters: Seq<Seq<char>>, i: int) -> Option<Seq<char>> {
    if chapters.take(i).contains(chapters[i]) {
        Some("duplicate chapter in continuous run"@)
    } else {
        match lookup(m.chapters, chapters[i]) {
            None => None,
            Some(chapter) => if chapter.order != i + 1 {
                Some("chapter order must be explicit and contiguous"@)
            } else if is_outdated(chapter.state) {
                Some(
                    "chapter "@ + chapters[i] + " is "@ + state_label(chapter.state)
                        + "; continuous generation requires explicit revalidation"@,
                )
            } else {
                None
            },
        }
    }
}

/// The run with the chapters of a continuous run from `i` on, and what is wrong with the first
/// bad one.
pub open spec fn continuous_from(m: RunModel, chapters: Seq<Seq<char>>, i: int) -> (
    RunModel,
    Option<Seq<char>>,
)
    decreases chapters.len() - i,
{
    if i < 0 || i >= chapters.len() {
        (m, None)
    } else {
        match continuous_error(m, chapters, i) {
            Some(error) => (m, Some(error)),
            None => if lookup(m.chapters, chapters[i]) is Some {
                continuous_from(m, chapters, i + 1)
            } else {
                continuous_from(
                    with_chapter(m, chapters[i], (i + 1) as u32, ChapterState::Planned),
                    chapters,
                    i + 1,
                )
            },
        }
    }
}

/// The run with the chapters of a continuous run, and what is wrong with them.
pub open spec fn continuous_plan(m: RunModel, chapters: Seq<Seq<char>>) -> (
    RunModel,
    Option<Seq<char>>,
) {
    if chapters.len() < 10 || chapters.len() > 12 {
        (m, Some("continuous runs require 10 to 12 chapters"@))
    } else {
        continuous_from(m, chapters, 0)
    }
}

impl RunController {
    /// Enters the chapters of a continuous run, which are then written one by one.
    pub fn write_continuous(&mut self, chapter_ids: &[String]) -> (r: Result<(), String>)
        ensures
            final(self)@ == continuous_plan(old(self)@, texts(chapter_ids@)).0,
            match continuous_plan(old(self)@, texts(chapter_ids@)).1 {
                Some(error) => r is Err && r->Err_0@ == error,
                None => r is Ok,
            },
    {
        let n: usize = chapter_ids.len();
        let ghost all = texts(chapter_ids@);
        let ghost start = self@;
        if n < 10 || n > 12 {
            return Err("continuous runs require 10 to 12 chapters".to_owned());
        }
        let mut i: usize = 0;
        while i < n
            invariant
                i <= n,
                n == chapter_ids@.len(),
                10 <= n <= 12,
                all == texts(chapter_ids@),
                start == old(self)@,
                continuous_from(start, all, 0) == continuous_from(self@, all, i as int),
            decreases n - i,
        {
            let id = &chapter_ids[i];
            assert(all[i as int] == id@);
            let earlier = vstd::slice::slice_subrange(chapter_ids, 0, i);
            proof {
                assert(texts(earlier@) =~= all.take(i as int));
                crate::text::lemma_has_text(earlier@, id@);
            }
            if contains_text(earlier, id.as_str()) {
                return Err("duplicate chapter in continuous run".to_owned());
            }
            let order: u32 = i as u32 + 1;
            let mut fresh = true;
            if let Some(chapter) = self.chapters.get(id.as_str()) {
                fresh = false;
                if chapter.order != order {
                    return Err("chapter order must be explicit and contiguous".to_owned());
                }
                if chapter.state == ChapterState::Stale || chapter.state
                    == ChapterState::NeedsRevalidation {
                    let mut text = concat3("chapter ", id.as_str(), " is ");
                    text.append(chapter.state.label());
                    text.append("; continuous generation requires explicit revalidation");
                    return Err(text);
                }
            }
            if fresh {
                self.register_chapter(id.clone(), order, ChapterState::Planned);
            }
            i += 1;
        }
        Ok(())
    }
}

proof fn lemma_later_findings_keep_chapters(
    m: RunModel,
    chapters: Entries<ChapterModel>,
    order: u32,
    i: int,
)
    ensures
        without_later_findings(m, chapters, order, i).chapters == m.chapters,
        without_later_findings(m, chapters, order, i).ledger == m.ledger,
        without_later_findings(m, chapters, order, i).cost_status == m.cost_status,
        without_later_findings(m, chapters, order, i).corrections == m.corrections,
        without_later_findings(m, chapters, order, i).canon_hashes == m.canon_hashes,
        without_later_findings(m, chapters, order, i).canon_texts == m.canon_texts,
    decreases chapters.len() - i,
{
    if 0 <= i < chapters.len() {
        if chapters[i].1.order > order {
            lemma_later_findings_keep_chapters(
                without_findings(m, chapters[i].1.id),
                chapters,
                order,
                i + 1,
            );
        } else {
            lemma_later_findings_keep_chapters(m, chapters, order, i + 1);
        }
    }
}

/// An edit leaves the chapters up to it as they are; behind it an approved chapter needs
/// revalidation and any other one is stale.
pub proof fn edit_marks_later_chapters(m: RunModel, order: u32, i: int)
    requires
        0 <= i < m.chapters.len(),
    ensures
        after_edit(m, order).chapters.len() == m.chapters.len(),
        after_edit(m, order).chapters[i].0 == m.chapters[i].0,
        m.chapters[i].1.order <= order ==> after_edit(m, order).chapters[i] == m.chapters[i],
        m.chapters[i].1.order > order && (m.chapters[i].1.state == ChapterState::Approved
            || m.chapters[i].1.state == ChapterState::NeedsRevalidation) ==> after_edit(
            m,
            order,
        ).chapters[i].1.state == ChapterState::NeedsRevalidation,
        m.chapters[i].1.order > order && m.chapters[i].1.state != ChapterState::Approved
            && m.chapters[i].1.state != ChapterState::NeedsRevalidation ==> after_edit(
            m,
            order,
        ).chapters[i].1.state == ChapterState::Stale,
{
    lemma_later_findings_keep_chapters(
        RunModel {
            chapters: chapters_after_edit(m.chapters, order),
            runs: runs_after_edit(m.runs, m.chapters, order, 0),
            canon_hashes: canon_after_edit(m.canon_hashes, m.chapters, order, 0),
            canon_texts: canon_after_edit(m.canon_texts, m.chapters, order, 0),
            ..m
        },
        m.chapters,
        order,
        0,
    );
}

/// No chapter becomes approved by an edit, and none by being refreshed: approval is the work of a
/// human.
pub proof fn only_approval_approves(m: RunModel, order: u32, run: RunRecord, i: int)
    requires
        0 <= i < m.chapters.len(),
    ensures
        after_edit(m, order).chapters[i].1.state == ChapterState::Approved ==> m.chapters[i].1.state
            == ChapterState::Approved,
        refreshed(run).state == ChapterState::Approved ==> run.state == ChapterState::Approved,
{
    edit_marks_later_chapters(m, order, i);
}

/// A chapter that was edited keeps its changeset, with the digest of the edited candidate, and
/// cannot be approved while critics have blocking findings about it, whatever was resolved before.
pub proof fn edit_reopens_blockers(run: RunRecord, candidate: Seq<u8>, i: int)
    requires
        0 <= i < run.findings.len(),
        kind_blocks(run.findings[i].kind),
    ensures
        !run_approvable(refreshed(run_edited(run, candidate))),
        run_edited(run, candidate).changeset.id == run.changeset.id,
        run_edited(run, candidate).changeset.candidate_hash == digest_text(candidate),
{
    let edited = refreshed(run_edited(run, candidate));
    assert(edited.findings[i] == reopened(run.findings[i]));
}

/// A request that is paid for keeps a chapter within $10 and a run within $120.
pub proof fn budget_stops_hold(m: RunModel, chapter_id: Seq<char>)
    requires
        budget_error(m, chapter_id) is None,
    ensures
        m.request_maximum is Some,
        m.cost_status.chapter@ + m.request_maximum->Some_0@ <= 10_000_000,
        m.cost_status.run@ + m.request_maximum->Some_0@ <= 120_000_000,
{
}

/// A reservation that could not be stored leaves no trace once it is taken back.
pub proof fn unstored_request_is_forgotten(
    m: RunModel,
    reservation: ReservationModel,
    charged: CostStatus,
)
    requires
        request_position(m.ledger.reservations, reservation.request_id, 0) is None,
        reservation.warning_required ==> !m.ledger.warnings.contains(reservation.chapter_id),
    ensures
        ({
            let held = RunModel {
                ledger: reserved(m.ledger, reservation),
                cost_status: charged,
                ..m
            };
            RunModel {
                ledger: cancelled(held.ledger, reservation),
                cost_status: m.cost_status,
                ..held
            } == m
        }),
{
    cancel_undoes_reserve(m.ledger, reservation);
}

/// Settling an answer never raises the cost, and an answer without known usage or price keeps the
/// whole reservation.
pub proof fn completion_never_raises_cost(
    m: RunModel,
    reservation: ReservationModel,
    usage: Option<Usage>,
)
    ensures
        completion_result(m, reservation, usage).1 <= m.cost_status.chapter@,
        completion_result(m, reservation, usage).2 <= m.cost_status.run@,
        usage is None || m.request_price is None ==> completion_result(m, reservation, usage).0
            == m.ledger && completion_result(m, reservation, usage).1 == m.cost_status.chapter@
            && completion_result(m, reservation, usage).2 == m.cost_status.run@,
{
}

/// A chapter receives corrections of earlier chapters only.
pub proof fn corrections_flow_forward(m: RunModel, rule: RuleModel, chapter_id: Seq<char>)
    requires
        receives(m, rule, chapter_id),
        lookup(m.chapters, chapter_id) is Some,
        lookup(m.chapters, rule.source_chapter) is Some,
    ensures
        lookup(m.chapters, rule.source_chapter)->Some_0.order < lookup(
            m.chapters,
            chapter_id,
        )->Some_0.order,
{
}

/// A chapter that may be approved has every earlier chapter approved.
pub proof fn approvals_come_in_order(
    m: RunModel,
    chapter_id: Seq<char>,
    directory: Seq<char>,
    snapshot: ProjectSnapshot,
    i: int,
)
    requires
        approval_plan(m, chapter_id, directory, snapshot) is Ok,
        0 <= i < m.chapters.len(),
        m.chapters[i].1.order < lookup(m.chapters, chapter_id)->Some_0.order,
    ensures
        m.chapters[i].1.state == ChapterState::Approved,
{
}

/// A chapter that is approved had every earlier chapter approved, its changeset passed every check
/// of the project, and the record of the approval, as it was read back, is that of the changeset.
pub proof fn approval_has_plan_and_record(
    m: RunModel,
    chapter_id: Seq<char>,
    directory: Seq<char>,
    snapshot: ProjectSnapshot,
    stored: Seq<u8>,
)
    requires
        approval_plan(m, chapter_id, directory, snapshot) is Ok,
        proof_error(approval_plan(m, chapter_id, directory, snapshot)->Ok_0, stored) is None,
    ensures
        ({
            let change = approval_plan(m, chapter_id, directory, snapshot)->Ok_0;
            &&& approval_refusal(m, chapter_id) is None
            &&& m.project is Some
            &&& change_verdict(snapshot, m.project->Some_0.config.work_id@, change) is Ok
            &&& record_bytes(change) == Ok::<Seq<u8>, Refusal>(stored)
            &&& lookup(approved(m, chapter_id, change).chapters, chapter_id) matches Some(chapter)
                && chapter.state == ChapterState::Approved
        }),
{
    let change = approval_plan(m, chapter_id, directory, snapshot)->Ok_0;
    let chapter = lookup(m.chapters, chapter_id)->Some_0;
    lemma_put_lookup(
        m.chapters,
        chapter_id,
        ChapterModel { state: ChapterState::Approved, ..chapter },
    );
}

/// A changeset that an approval applies passed every check of the project as it is then.
pub proof fn approval_rechecks_everything(
    m: RunModel,
    chapter_id: Seq<char>,
    directory: Seq<char>,
    snapshot: ProjectSnapshot,
)
    requires
        approval_plan(m, chapter_id, directory, snapshot) is Ok,
    ensures
        m.project is Some,
        change_verdict(
            snapshot,
            m.project->Some_0.config.work_id@,
            approval_plan(m, chapter_id, directory, snapshot)->Ok_0,
        ) is Ok,
{
}

/// A chapter behind a corrected one receives the correction where it applies.
pub proof fn correction_reaches_later_chapters(m: RunModel, i: int, chapter_id: Seq<char>)
    requires
        0 <= i < m.corrections.len(),
        lookup(m.chapters, m.corrections[i].source_chapter) is Some,
        lookup(m.chapters, chapter_id) is Some,
        lookup(m.chapters, m.corrections[i].source_chapter)->Some_0.order < lookup(
            m.chapters,
            chapter_id,
        )->Some_0.order,
        applies_to(m, m.corrections[i], chapter_id),
    ensures
        received_by(m, chapter_id).contains(
            (m.corrections[i].id, m.corrections[i].hash, m.corrections[i].diff),
        ),
{
    let wanted = |rule: RuleModel| receives(m, rule, chapter_id);
    let kept = m.corrections.filter(wanted);
    let rule = m.corrections[i];
    assert(wanted(rule));
    m.corrections.lemma_filter_contains(wanted, i);
    let k = choose|k: int| 0 <= k < kept.len() && kept[k] == rule;
    assert(received_by(m, chapter_id)[k] == (rule.id, rule.hash, rule.diff));
}

/// A chapter that may be approved has no open finding that blocks.
pub proof fn approval_needs_resolved_blockers(
    m: RunModel,
    chapter_id: Seq<char>,
    directory: Seq<char>,
    snapshot: ProjectSnapshot,
    k: int,
)
    requires
        approval_plan(m, chapter_id, directory, snapshot) is Ok,
        0 <= k < lookup(m.runs, chapter_id)->Some_0.findings.len(),
        kind_blocks(lookup(m.runs, chapter_id)->Some_0.findings[k].kind),
    ensures
        lookup(m.runs, chapter_id)->Some_0.findings[k].resolved is Some,
{
}

} // verus!
