//! Evaluations: tasks, grading and reports.
use vstd::prelude::*;
use vstd::string::StringExecFns;
use crate::paths::{climbs, file_name, has_parent_component, is_absolute, is_absolute_path, join_path, joined, last_name};
use crate::text::{blank, concat2, concat3, contains_part, contains_text, decimal, has_part, is_blank, opt_text, size_text, texts, to_chars};
use crate::value::{field, json_error, lemma_model, parsed_json, read_json, values, Json, JsonModel};

verus! {

/// How an evaluation ended.
#[derive(Clone, Copy, Debug, PartialEq, Eq, Structural)]
pub enum EvalStatus {
    Pass,
    Fail,
    Inconclusive,
}

/// What came of a trial.
#[derive(Debug, PartialEq, Eq)]
pub enum Outcome {
    /// Every gate passed.
    Pass,
    /// A gate failed.
    Failure { reason: String },
    /// The trial could not be carried out.
    ProviderFailure { reason: String },
    /// Judges disagree.
    JudgeDisagreement { reason: String },
}

/// What came of a trial, by views.
pub enum OutcomeModel {
    Pass,
    Failure(Seq<char>),
    ProviderFailure(Seq<char>),
    JudgeDisagreement(Seq<char>),
}

impl View for Outcome {
    type V = OutcomeModel;

    open spec fn view(&self) -> OutcomeModel {
        match self {
            Outcome::Pass => OutcomeModel::Pass,
            Outcome::Failure { reason } => OutcomeModel::Failure(reason@),
            Outcome::ProviderFailure { reason } => OutcomeModel::ProviderFailure(reason@),
            Outcome::JudgeDisagreement { reason } => OutcomeModel::JudgeDisagreement(reason@),
        }
    }
}

impl Outcome {
    /// Returns the outcome of a trial that could not be carried out.
    pub fn provider_failure() -> (r: Outcome)
        ensures
            r@ == OutcomeModel::ProviderFailure("provider or evaluation infrastructure failed"@),
    {
        Outcome::ProviderFailure {
            reason: "provider or evaluation infrastructure failed".to_owned(),
        }
    }

    /// Returns the outcome of a trial that failed.
    pub fn failure(reason: String) -> (r: Outcome)
        ensures
            r@ == OutcomeModel::Failure(reason@),
    {
        Outcome::Failure { reason }
    }

    /// Returns the outcome of a trial that judges disagree about.
    pub fn judge_disagreement(reason: String) -> (r: Outcome)
        ensures
            r@ == OutcomeModel::JudgeDisagreement(reason@),
    {
        Outcome::JudgeDisagreement { reason }
    }
}

/// A task of an evaluation.
#[derive(Debug)]
pub struct EvalTask {
    /// Identifier.
    pub id: String,
    /// File of the instruction.
    pub instruction: String,
    /// File of the expectation, which trials do not see.
    pub expect: String,
    /// File of the scripted answers.
    pub scripted_responses: String,
    /// Trials.
    pub trials: usize,
    /// Directory of the task.
    pub fixture_root: String,
}

/// What is wrong with a path of a task.
pub open spec fn relative_error(path: Seq<char>, label: Seq<char>) -> Option<Seq<char>> {
    if is_absolute_path(path) {
        Some("evaluation "@ + label + " path must be relative"@)
    } else if has_parent_component(path) {
        Some("evaluation "@ + label + " path escapes its fixture"@)
    } else {
        None
    }
}

fn validate_relative(path: &str, label: &str) -> (r: Result<(), String>)
    ensures
        match relative_error(path@, label@) {
            Some(error) => r is Err && r->Err_0@ == error,
            None => r is Ok,
        },
{
    if is_absolute(path) {
        return Err(concat3("evaluation ", label, " path must be relative"));
    }
    if climbs(path) {
        return Err(concat3("evaluation ", label, " path escapes its fixture"));
    }
    Ok(())
}

/// What is wrong with a task, given whether its instruction and its expectation are files.
pub open spec fn task_error(task: EvalTask, instruction_found: bool, expectation_found: bool) -> Option<
    Seq<char>,
> {
    if is_blank(task.id@) {
        Some("evaluation task ID is required"@)
    } else if task.trials == 0 {
        Some("evaluation task must request at least one trial"@)
    } else if relative_error(task.instruction@, "instruction"@) is Some {
        relative_error(task.instruction@, "instruction"@)
    } else if relative_error(task.expect@, "expectation"@) is Some {
        relative_error(task.expect@, "expectation"@)
    } else if relative_error(task.scripted_responses@, "scripted responses"@) is Some {
        relative_error(task.scripted_responses@, "scripted responses"@)
    } else if !instruction_found {
        Some("evaluation instruction is missing"@)
    } else if !expectation_found {
        Some("evaluation expectation is missing"@)
    } else {
        None
    }
}

impl EvalTask {
    /// Accepts a task that was read, given whether its instruction and its expectation are files.
    pub fn load(task: EvalTask, instruction_found: bool, expectation_found: bool) -> (r: Result<
        EvalTask,
        String,
    >)
        ensures
            match task_error(task, instruction_found, expectation_found) {
                Some(error) => r is Err && r->Err_0@ == error,
                None => r == Ok::<EvalTask, String>(task),
            },
    {
        if blank(task.id.as_str()) {
            return Err("evaluation task ID is required".to_owned());
        }
        if task.trials == 0 {
            return Err("evaluation task must request at least one trial".to_owned());
        }
        match validate_relative(task.instruction.as_str(), "instruction") {
            Err(error) => {
                return Err(error);
            },
            Ok(()) => {},
        }
        match validate_relative(task.expect.as_str(), "expectation") {
            Err(error) => {
                return Err(error);
            },
            Ok(()) => {},
        }
        match validate_relative(task.scripted_responses.as_str(), "scripted responses") {
            Err(error) => {
                return Err(error);
            },
            Ok(()) => {},
        }
        if !instruction_found {
            return Err("evaluation instruction is missing".to_owned());
        }
        if !expectation_found {
            return Err("evaluation expectation is missing".to_owned());
        }
        Ok(task)
    }

    /// Returns the path of the expectation.
    pub fn expectation_path(&self) -> (r: String)
        ensures
            r@ == joined(self.fixture_root@, self.expect@),
    {
        join_path(self.fixture_root.as_str(), self.expect.as_str())
    }
}

/// A file that is copied into a trial.
#[derive(Debug)]
pub struct TrialInput {
    /// File of the task.
    pub source: String,
    /// Copy in the trial.
    pub copy: String,
}

/// A workspace with a copy of what a task shows, without its expectation.
#[derive(Debug)]
pub struct Trial {
    /// Directory of the workspace.
    pub root: String,
    /// Identifier of the task.
    pub task_id: String,
    /// Files that are copied, in order.
    pub inputs: Vec<TrialInput>,
}

/// A file that is copied into a trial, by the views of its fields.
pub struct InputModel {
    pub source: Seq<char>,
    pub copy: Seq<char>,
}

impl View for TrialInput {
    type V = InputModel;

    open spec fn view(&self) -> InputModel {
        InputModel { source: self.source@, copy: self.copy@ }
    }
}

/// A trial by the views of its fields.
pub struct TrialModel {
    pub root: Seq<char>,
    pub task_id: Seq<char>,
    pub inputs: Seq<InputModel>,
}

impl View for Trial {
    type V = TrialModel;

    open spec fn view(&self) -> TrialModel {
        TrialModel {
            root: self.root@,
            task_id: self.task_id@,
            inputs: self.inputs@.map_values(|input: TrialInput| input@),
        }
    }
}

/// How a file of a task is copied into a trial.
pub open spec fn copied_input(fixture: Seq<char>, root: Seq<char>, path: Seq<char>) -> Result<
    InputModel,
    Seq<char>,
> {
    match last_name(path) {
        None => Err("evaluation fixture path has no file name: "@ + path),
        Some(name) => Ok(InputModel { source: joined(fixture, path), copy: joined(root, name) }),
    }
}

/// The trial of a task in a directory, given whether its scripted answers are a file.
pub open spec fn trial_of(task: EvalTask, root: Seq<char>, scripted_found: bool) -> Result<
    TrialModel,
    Seq<char>,
> {
    match copied_input(task.fixture_root@, root, task.instruction@) {
        Err(error) => Err(error),
        Ok(first) => if !scripted_found {
            Ok(TrialModel { root: root, task_id: task.id@, inputs: seq![first] })
        } else {
            match copied_input(task.fixture_root@, root, task.scripted_responses@) {
                Err(error) => Err(error),
                Ok(second) => Ok(
                    TrialModel { root: root, task_id: task.id@, inputs: seq![first, second] },
                ),
            }
        },
    }
}

fn copy_input(fixture: &str, root: &str, path: &str) -> (r: Result<TrialInput, String>)
    ensures
        match copied_input(fixture@, root@, path@) {
            Ok(input) => r is Ok && r->Ok_0@ == input,
            Err(error) => r is Err && r->Err_0@ == error,
        },
{
    match file_name(path) {
        None => Err(concat2("evaluation fixture path has no file name: ", path)),
        Some(name) => Ok(
            TrialInput { source: join_path(fixture, path), copy: join_path(root, name.as_str()) },
        ),
    }
}

/// Prepares the trial of a task in a directory, given whether its scripted answers are a file.
pub fn prepare_trial(task: &EvalTask, root: String, scripted_found: bool) -> (r: Result<
    Trial,
    String,
>)
    ensures
        match trial_of(*task, root@, scripted_found) {
            Ok(trial) => r is Ok && r->Ok_0@ == trial,
            Err(error) => r is Err && r->Err_0@ == error,
        },
{
    let fixture = task.fixture_root.as_str();
    let mut inputs: Vec<TrialInput> = Vec::new();
    match copy_input(fixture, root.as_str(), task.instruction.as_str()) {
        Err(error) => {
            return Err(error);
        },
        Ok(input) => inputs.push(input),
    }
    if scripted_found {
        match copy_input(fixture, root.as_str(), task.scripted_responses.as_str()) {
            Err(error) => {
                return Err(error);
            },
            Ok(input) => inputs.push(input),
        }
    }
    let trial = Trial { root, task_id: task.id.clone(), inputs };
    proof {
        match trial_of(*task, root@, scripted_found) {
            Ok(model) => {
                assert(trial@.inputs =~= model.inputs);
            },
            Err(_) => {},
        }
    }
    Ok(trial)
}

impl Trial {
    /// Returns where the copy of a file of the task is, or would be under a default name.
    pub fn input_path(&self, path: &str, default: &str) -> (r: String)
        ensures
            r@ == joined(
                self@.root,
                match last_name(path@) {
                    Some(name) => name,
                    None => default@,
                },
            ),
    {
        match file_name(path) {
            Some(name) => join_path(self.root.as_str(), name.as_str()),
            None => join_path(self.root.as_str(), default),
        }
    }
}

/// A share that a judge reached: as a percentage, and whether it meets its threshold.
#[derive(Clone, Copy, Debug, PartialEq, Eq, Structural)]
pub struct JudgeShare {
    /// The share, rounded to a percentage.
    pub percent: u8,
    /// The share itself meets the threshold.
    pub met: bool,
}

/// How well a judge agrees with humans.
#[derive(Clone, Copy, Debug, PartialEq, Eq, Structural)]
pub struct JudgeCalibration {
    /// Labels that humans gave without seeing the judge's.
    pub labels: usize,
    /// Agreement with humans.
    pub agreement_percent: u8,
    /// Agreement with itself when both sides are swapped.
    pub swap_consistency_percent: u8,
    /// The judge may gate.
    pub gate_enabled: bool,
}

/// Labels that a judge needs before it may gate.
pub const MINIMUM_LABELS: usize = 20;

/// Decides whether a judge may gate: only with enough labels, and where both shares meet their
/// thresholds.
pub fn calibrate_judge(labels: usize, agreement: JudgeShare, swap_consistency: JudgeShare) -> (r:
    JudgeCalibration)
    ensures
        r.labels == labels,
        r.agreement_percent == agreement.percent,
        r.swap_consistency_percent == swap_consistency.percent,
        r.gate_enabled == (labels >= 20 && agreement.met && swap_consistency.met),
{
    JudgeCalibration {
        labels,
        agreement_percent: agreement.percent,
        swap_consistency_percent: swap_consistency.percent,
        gate_enabled: labels >= MINIMUM_LABELS && agreement.met && swap_consistency.met,
    }
}

/// A report about trials.
#[derive(Debug, PartialEq, Eq)]
pub struct EvalReport {
    /// How the evaluation ended.
    pub status: EvalStatus,
    /// Trials.
    pub trials: usize,
    /// Trials that passed.
    pub passed_trials: usize,
    /// One message for each trial.
    pub messages: Vec<String>,
}

/// The name of a status.
pub open spec fn status_text(status: EvalStatus) -> Seq<char> {
    match status {
        EvalStatus::Pass => "pass"@,
        EvalStatus::Fail => "fail"@,
        EvalStatus::Inconclusive => "inconclusive"@,
    }
}

fn status_name(status: EvalStatus) -> (r: &'static str)
    ensures
        r@ == status_text(status),
{
    match status {
        EvalStatus::Pass => "pass",
        EvalStatus::Fail => "fail",
        EvalStatus::Inconclusive => "inconclusive",
    }
}

/// The first messages of a report as a list.
pub open spec fn message_lines(items: Seq<Seq<char>>) -> Seq<char>
    decreases items.len(),
{
    if items.len() == 0 {
        Seq::empty()
    } else {
        message_lines(items.drop_last()) + "- "@ + items.last() + "\n"@
    }
}

impl EvalReport {
    /// Returns the report as Markdown.
    pub fn to_markdown(&self) -> (r: String)
        ensures
            r@ == "## Phemius evaluation\n\n- status: `"@ + status_text(self.status)
                + "`\n- trials: "@ + decimal(self.trials as nat) + "\n- passed: "@ + decimal(
                self.passed_trials as nat,
            ) + "\n"@ + message_lines(texts(self.messages@)),
    {
        let mut out = concat3(
            "## Phemius evaluation\n\n- status: `",
            status_name(self.status),
            "`\n- trials: ",
        );
        out.append(size_text(self.trials).as_str());
        out.append("\n- passed: ");
        out.append(size_text(self.passed_trials).as_str());
        out.append("\n");
        let ghost head = out@;
        let ghost all = texts(self.messages@);
        let mut i: usize = 0;
        proof {
            assert(all.take(0) =~= Seq::<Seq<char>>::empty());
            assert(out@ =~= head + message_lines(all.take(0)));
        }
        while i < self.messages.len()
            invariant
                i <= self.messages@.len(),
                all == texts(self.messages@),
                out@ == head + message_lines(all.take(i as int)),
            decreases self.messages@.len() - i,
        {
            let ghost t = all.take(i + 1);
            let ghost before = message_lines(all.take(i as int));
            assert(t.drop_last() =~= all.take(i as int));
            assert(t.last() == self.messages@[i as int]@);
            out.append("- ");
            out.append(self.messages[i].as_str());
            out.append("\n");
            assert(out@ =~= head + (before + "- "@ + t.last() + "\n"@));
            i += 1;
        }
        assert(all.take(i as int) =~= all);
        out
    }
}

/// Grades trials.
#[derive(Clone, Copy, Debug)]
pub struct Grader;

/// The status of an outcome.
pub open spec fn grade_of(outcome: OutcomeModel) -> EvalStatus {
    match outcome {
        OutcomeModel::Pass => EvalStatus::Pass,
        OutcomeModel::Failure(_) => EvalStatus::Fail,
        _ => EvalStatus::Inconclusive,
    }
}

/// The message about an outcome.
pub open spec fn grade_message(outcome: OutcomeModel) -> Seq<char> {
    match outcome {
        OutcomeModel::Pass => "deterministic gates passed"@,
        OutcomeModel::Failure(reason) => reason,
        OutcomeModel::ProviderFailure(reason) => reason,
        OutcomeModel::JudgeDisagreement(reason) => reason,
    }
}

impl Grader {
    /// Grades one trial: only an outcome that was observed passes or fails.
    pub fn grade(&self, outcome: Outcome) -> (r: EvalReport)
        ensures
            r.status == grade_of(outcome@),
            r.trials == 1,
            r.passed_trials == (if outcome@ is Pass {
                1int
            } else {
                0int
            }),
            texts(r.messages@) == seq![grade_message(outcome@)],
    {
        let (status, text) = match outcome {
            Outcome::Pass => (EvalStatus::Pass, "deterministic gates passed".to_owned()),
            Outcome::Failure { reason } => (EvalStatus::Fail, reason),
            Outcome::ProviderFailure { reason } => (EvalStatus::Inconclusive, reason),
            Outcome::JudgeDisagreement { reason } => (EvalStatus::Inconclusive, reason),
        };
        let mut messages: Vec<String> = Vec::new();
        messages.push(text);
        assert(texts(messages@) =~= seq![grade_message(outcome@)]);
        EvalReport {
            status,
            trials: 1,
            passed_trials: if status == EvalStatus::Pass {
                1
            } else {
                0
            },
            messages,
        }
    }
}

/// The views of outcomes.
pub open spec fn outcome_models(items: Seq<Outcome>) -> Seq<OutcomeModel> {
    items.map_values(|item: Outcome| item@)
}

/// The trials that passed.
pub open spec fn passed_count(items: Seq<OutcomeModel>) -> nat
    decreases items.len(),
{
    if items.len() == 0 {
        0
    } else {
        passed_count(items.drop_last()) + (if items.last() is Pass {
            1nat
        } else {
            0nat
        })
    }
}

/// The status of an evaluation: inconclusive where a trial is, and passed where all trials are.
pub open spec fn overall_status(items: Seq<OutcomeModel>) -> EvalStatus {
    if exists|i: int| 0 <= i < items.len() && grade_of(#[trigger] items[i]) == EvalStatus::Inconclusive {
        EvalStatus::Inconclusive
    } else if forall|i: int| 0 <= i < items.len() ==> (#[trigger] items[i]) is Pass {
        EvalStatus::Pass
    } else {
        EvalStatus::Fail
    }
}

/// Reports about the outcomes of trials.
pub fn report_trials(outcomes: Vec<Outcome>) -> (r: EvalReport)
    ensures
        r.status == overall_status(outcome_models(outcomes@)),
        r.trials == outcomes@.len(),
        r.passed_trials == passed_count(outcome_models(outcomes@)),
        texts(r.messages@) == outcome_models(outcomes@).map_values(
            |outcome: OutcomeModel| grade_message(outcome),
        ),
{
    let ghost all = outcome_models(outcomes@);
    let n: usize = outcomes.len();
    let mut messages: Vec<String> = Vec::new();
    let mut passed: usize = 0;
    let mut inconclusive = false;
    let mut failed = false;
    let mut i: usize = 0;
    let mut rest = outcomes;
    proof {
        assert(all.take(0) =~= Seq::<OutcomeModel>::empty());
        assert(rest@ =~= outcomes@.skip(0));
    }
    while i < n
        invariant
            i <= n,
            n == outcomes@.len(),
            all == outcome_models(outcomes@),
            rest@ == outcomes@.skip(i as int),
            messages@.len() == i,
            forall|k: int| 0 <= k < i ==> #[trigger] messages@[k]@ == grade_message(all[k]),
            passed == passed_count(all.take(i as int)),
            passed <= i,
            inconclusive == (exists|k: int|
                0 <= k < i && grade_of(#[trigger] all[k]) == EvalStatus::Inconclusive),
            failed == (exists|k: int| 0 <= k < i && !((#[trigger] all[k]) is Pass)),
        decreases n - i,
    {
        let outcome = rest.remove(0);
        assert(outcome@ == all[i as int]);
        assert(rest@ =~= outcomes@.skip(i + 1));
        let graded = Grader.grade(outcome);
        let ghost t = all.take(i + 1);
        assert(t.drop_last() =~= all.take(i as int));
        assert(t.last() == all[i as int]);
        assert(texts(graded.messages@).len() == graded.messages@.len());
        assert(texts(graded.messages@)[0] == graded.messages@[0]@);
        messages.push(graded.messages[0].clone());
        passed = passed + graded.passed_trials;
        if graded.status == EvalStatus::Inconclusive {
            inconclusive = true;
        }
        if graded.status != EvalStatus::Pass {
            failed = true;
        }
        i += 1;
    }
    assert(all.take(n as int) =~= all);
    assert(texts(messages@) =~= all.map_values(
        |outcome: OutcomeModel| grade_message(outcome),
    ));
    EvalReport {
        status: if inconclusive {
            EvalStatus::Inconclusive
        } else if !failed {
            EvalStatus::Pass
        } else {
            EvalStatus::Fail
        },
        trials: n,
        passed_trials: passed,
        messages,
    }
}

/// What a trial is expected to do.
#[derive(Debug)]
pub struct EvalExpectation {
    /// Text that the first answer holds.
    pub required_response: Option<String>,
    /// Texts that the first answer does not hold.
    pub forbidden_responses: Vec<String>,
    /// Least characters of the first answer.
    pub min_response_chars: Option<usize>,
    /// Most characters of the first answer.
    pub max_response_chars: Option<usize>,
    /// Most calls of tools.
    pub max_tool_calls: Option<usize>,
    /// Tools that are called.
    pub required_tool_calls: Vec<String>,
}

/// The text of a member, where it is one.
pub open spec fn member_text(value: JsonModel, name: Seq<char>) -> Option<Seq<char>> {
    match field(value, name) {
        Some(JsonModel::Text(text)) => Some(text),
        _ => None,
    }
}

/// The name of the tool that a call names, itself or in its function.
pub open spec fn call_name(call: JsonModel) -> Option<Seq<char>> {
    match member_text(call, "name"@) {
        Some(name) => Some(name),
        None => match field(call, "function"@) {
            Some(function) => member_text(function, "name"@),
            None => None,
        },
    }
}

/// The tools that calls name, from a position on, behind those found before.
pub open spec fn named_calls(calls: Seq<JsonModel>, i: int, found: Seq<Seq<char>>) -> Result<
    Seq<Seq<char>>,
    Seq<char>,
>
    decreases calls.len() - i,
{
    if i < 0 || i >= calls.len() {
        Ok(found)
    } else {
        match call_name(calls[i]) {
            None => Err("scripted tool call has no name"@),
            Some(name) => named_calls(calls, i + 1, found.push(name)),
        }
    }
}

/// The tools that answers name, from a position on, behind those found before.
pub open spec fn named_tools(list: Seq<JsonModel>, i: int, found: Seq<Seq<char>>) -> Result<
    Seq<Seq<char>>,
    Seq<char>,
>
    decreases list.len() - i,
{
    if i < 0 || i >= list.len() {
        Ok(found)
    } else if !(list[i] is Object) {
        Err("scripted response entry is not an object"@)
    } else {
        match field(list[i], "tool_calls"@) {
            None => named_tools(list, i + 1, found),
            Some(JsonModel::Array(calls)) => match named_calls(calls, 0, found) {
                Err(error) => Err(error),
                Ok(next) => named_tools(list, i + 1, next),
            },
            Some(_) => Err("scripted tool_calls is not an array"@),
        }
    }
}

/// The first text of a list, from a position on, that another text holds.
pub open spec fn first_held(list: Seq<Seq<char>>, text: Seq<char>, i: int) -> Option<Seq<char>>
    decreases list.len() - i,
{
    if i < 0 || i >= list.len() {
        None
    } else if has_part(text, list[i]) {
        Some(list[i])
    } else {
        first_held(list, text, i + 1)
    }
}

/// The first text of a list, from a position on, that another list lacks.
pub open spec fn first_missing(list: Seq<Seq<char>>, given: Seq<Seq<char>>, i: int) -> Option<
    Seq<char>,
>
    decreases list.len() - i,
{
    if i < 0 || i >= list.len() {
        None
    } else if !given.contains(list[i]) {
        Some(list[i])
    } else {
        first_missing(list, given, i + 1)
    }
}

/// What an answer and its calls of tools fail to meet.
pub open spec fn expectation_error(
    expected: EvalExpectation,
    answer: Seq<char>,
    tools: Seq<Seq<char>>,
) -> Option<Seq<char>> {
    if is_blank(answer) {
        Some("scripted response is empty"@)
    } else if expected.required_response is Some && !has_part(
        answer,
        expected.required_response->Some_0@,
    ) {
        Some(
            "required deterministic response is missing: "@ + expected.required_response->Some_0@,
        )
    } else if expected.min_response_chars is Some && answer.len()
        < expected.min_response_chars->Some_0 {
        Some(
            "response is shorter than the deterministic minimum: "@ + decimal(
                expected.min_response_chars->Some_0 as nat,
            ),
        )
    } else if expected.max_response_chars is Some && answer.len()
        > expected.max_response_chars->Some_0 {
        Some(
            "response exceeds the deterministic maximum: "@ + decimal(
                expected.max_response_chars->Some_0 as nat,
            ),
        )
    } else if expected.max_tool_calls is Some && tools.len() > expected.max_tool_calls->Some_0 {
        Some(
            "scripted tool calls exceed the deterministic maximum: "@ + decimal(
                expected.max_tool_calls->Some_0 as nat,
            ),
        )
    } else {
        match first_held(texts(expected.forbidden_responses@), answer, 0) {
            Some(text) => Some("forbidden deterministic response is present: "@ + text),
            None => match first_missing(texts(expected.required_tool_calls@), tools, 0) {
                Some(name) => Some("required deterministic tool call is missing: "@ + name),
                None => None,
            },
        }
    }
}

/// The text of the first answer; nothing where it has none.
pub open spec fn first_answer(list: Seq<JsonModel>) -> Seq<char> {
    match member_text(list[0], "text"@) {
        Some(text) => text,
        None => Seq::empty(),
    }
}

/// What came of a trial whose scripted answers were read.
pub open spec fn answers_outcome(
    expected: EvalExpectation,
    instruction: Seq<char>,
    responses: JsonModel,
) -> OutcomeModel {
    match field(responses, "responses"@) {
        Some(JsonModel::Array(list)) => if list.len() == 0 {
            OutcomeModel::Failure("scripted response list is empty"@)
        } else {
            match named_tools(list, 0, Seq::empty()) {
                Err(error) => OutcomeModel::Failure(error),
                Ok(tools) => match expectation_error(expected, first_answer(list), tools) {
                    Some(error) => OutcomeModel::Failure(error),
                    None => if has_part(instruction, "provider_failure"@) {
                        OutcomeModel::ProviderFailure(
                            "provider or evaluation infrastructure failed"@,
                        )
                    } else {
                        OutcomeModel::Pass
                    },
                },
            }
        },
        _ => OutcomeModel::Failure("scripted response list is missing"@),
    }
}

/// What came of a trial, given what was read of its files.
pub open spec fn trial_outcome(
    expected: EvalExpectation,
    instruction: Result<Seq<char>, Seq<char>>,
    scripted: Result<Seq<char>, Seq<char>>,
) -> OutcomeModel {
    match instruction {
        Err(error) => OutcomeModel::ProviderFailure(error),
        Ok(text) => if is_blank(text) {
            OutcomeModel::Failure("instruction is empty"@)
        } else {
            match scripted {
                Err(error) => OutcomeModel::ProviderFailure(error),
                Ok(answers) => match parsed_json(answers) {
                    None => OutcomeModel::ProviderFailure(json_error(answers)),
                    Some(responses) => answers_outcome(expected, text, responses),
                },
            }
        },
    }
}

fn text_in(value: &Json, name: &str) -> (r: Option<String>)
    ensures
        opt_text(r) == member_text(value@, name@),
{
    match value.get(name) {
        Some(Json::Text(text)) => Some(text.clone()),
        _ => None,
    }
}

fn name_of_call(call: &Json) -> (r: Option<String>)
    ensures
        opt_text(r) == call_name(call@),
{
    match text_in(call, "name") {
        Some(name) => Some(name),
        None => match call.get("function") {
            Some(function) => text_in(function, "name"),
            None => None,
        },
    }
}

fn collect_calls(calls: &[Json], found: Vec<String>) -> (r: Result<Vec<String>, &'static str>)
    ensures
        match named_calls(values(calls@), 0, texts(found@)) {
            Ok(list) => r is Ok && texts(r->Ok_0@) == list,
            Err(error) => r is Err && r->Err_0@ == error,
        },
{
    let ghost all = values(calls@);
    let ghost goal = named_calls(all, 0, texts(found@));
    let mut out = found;
    let mut i: usize = 0;
    while i < calls.len()
        invariant
            i <= calls@.len(),
            all == values(calls@),
            goal == named_calls(all, 0, texts(found@)),
            goal == named_calls(all, i as int, texts(out@)),
        decreases calls@.len() - i,
    {
        assert(all[i as int] == calls@[i as int]@);
        match name_of_call(&calls[i]) {
            None => {
                return Err("scripted tool call has no name");
            },
            Some(name) => {
                let ghost before = texts(out@);
                let ghost item = name@;
                out.push(name);
                assert(texts(out@) =~= before.push(item));
            },
        }
        i += 1;
    }
    Ok(out)
}

fn collect_tools(list: &[Json]) -> (r: Result<Vec<String>, &'static str>)
    ensures
        match named_tools(values(list@), 0, Seq::empty()) {
            Ok(names) => r is Ok && texts(r->Ok_0@) == names,
            Err(error) => r is Err && r->Err_0@ == error,
        },
{
    let ghost all = values(list@);
    let ghost goal = named_tools(all, 0, Seq::empty());
    let mut out: Vec<String> = Vec::new();
    let mut i: usize = 0;
    assert(texts(out@) =~= Seq::<Seq<char>>::empty());
    while i < list.len()
        invariant
            i <= list@.len(),
            all == values(list@),
            goal == named_tools(all, 0, Seq::empty()),
            goal == named_tools(all, i as int, texts(out@)),
        decreases list@.len() - i,
    {
        assert(all[i as int] == list@[i as int]@);
        if !matches!(list[i], Json::Object(_)) {
            return Err("scripted response entry is not an object");
        }
        if let Some(value) = list[i].get("tool_calls") {
            proof {
                lemma_model(*value);
            }
            match value {
                Json::Array(calls) => match collect_calls(calls.as_slice(), out) {
                    Err(error) => {
                        return Err(error);
                    },
                    Ok(next) => {
                        out = next;
                    },
                },
                _ => {
                    return Err("scripted tool_calls is not an array");
                },
            }
        }
        i += 1;
    }
    Ok(out)
}

fn find_held<'a>(list: &'a [String], text: &str) -> (r: Option<&'a str>)
    ensures
        first_held(texts(list@), text@, 0) == (match r {
            Some(found) => Some(found@),
            None => None,
        }),
{
    let ghost all = texts(list@);
    let mut i: usize = 0;
    while i < list.len()
        invariant
            i <= list@.len(),
            all == texts(list@),
            first_held(all, text@, 0) == first_held(all, text@, i as int),
        decreases list@.len() - i,
    {
        assert(all[i as int] == list@[i as int]@);
        if contains_part(text, list[i].as_str()) {
            return Some(list[i].as_str());
        }
        i += 1;
    }
    None
}

fn find_missing<'a>(list: &'a [String], given: &[String]) -> (r: Option<&'a str>)
    ensures
        first_missing(texts(list@), texts(given@), 0) == (match r {
            Some(found) => Some(found@),
            None => None,
        }),
{
    let ghost all = texts(list@);
    let mut i: usize = 0;
    while i < list.len()
        invariant
            i <= list@.len(),
            all == texts(list@),
            first_missing(all, texts(given@), 0) == first_missing(all, texts(given@), i as int),
        decreases list@.len() - i,
    {
        assert(all[i as int] == list@[i as int]@);
        proof {
            crate::text::lemma_has_text(given@, list@[i as int]@);
        }
        if !contains_text(given, list[i].as_str()) {
            return Some(list[i].as_str());
        }
        i += 1;
    }
    None
}

fn check_expectation(expected: &EvalExpectation, answer: &str, tools: &[String]) -> (r: Option<
    String,
>)
    ensures
        opt_text(r) == expectation_error(*expected, answer@, texts(tools@)),
{
    if blank(answer) {
        return Some("scripted response is empty".to_owned());
    }
    if let Some(required) = &expected.required_response {
        if !contains_part(answer, required.as_str()) {
            return Some(
                concat2("required deterministic response is missing: ", required.as_str()),
            );
        }
    }
    let length: usize = to_chars(answer).len();
    if let Some(minimum) = expected.min_response_chars {
        if length < minimum {
            return Some(
                concat2(
                    "response is shorter than the deterministic minimum: ",
                    size_text(minimum).as_str(),
                ),
            );
        }
    }
    if let Some(maximum) = expected.max_response_chars {
        if length > maximum {
            return Some(
                concat2(
                    "response exceeds the deterministic maximum: ",
                    size_text(maximum).as_str(),
                ),
            );
        }
    }
    assert(texts(tools@).len() == tools@.len());
    if let Some(maximum) = expected.max_tool_calls {
        if tools.len() > maximum {
            return Some(
                concat2(
                    "scripted tool calls exceed the deterministic maximum: ",
                    size_text(maximum).as_str(),
                ),
            );
        }
    }
    if let Some(text) = find_held(expected.forbidden_responses.as_slice(), answer) {
        return Some(concat2("forbidden deterministic response is present: ", text));
    }
    if let Some(name) = find_missing(expected.required_tool_calls.as_slice(), tools) {
        return Some(concat2("required deterministic tool call is missing: ", name));
    }
    None
}

/// Evaluates a trial whose scripted answers were read.
pub fn evaluate_answers(expected: &EvalExpectation, instruction: &str, responses: &Json) -> (r:
    Outcome)
    ensures
        r@ == answers_outcome(*expected, instruction@, responses@),
{
    let value = match responses.get("responses") {
        None => {
            return Outcome::failure("scripted response list is missing".to_owned());
        },
        Some(value) => value,
    };
    proof {
        lemma_model(*value);
    }
    let list = match value {
        Json::Array(list) => list,
        _ => {
            return Outcome::failure("scripted response list is missing".to_owned());
        },
    };
    if list.len() == 0 {
        return Outcome::failure("scripted response list is empty".to_owned());
    }
    let tools = match collect_tools(list.as_slice()) {
        Err(error) => {
            return Outcome::failure(error.to_owned());
        },
        Ok(tools) => tools,
    };
    assert(values(list@)[0] == list@[0]@);
    let answer = match text_in(&list[0], "text") {
        Some(text) => text,
        None => {
            let none = String::new();
            assert(none@ =~= Seq::<char>::empty());
            none
        },
    };
    match check_expectation(expected, answer.as_str(), tools.as_slice()) {
        Some(error) => Outcome::failure(error),
        None => {
            if contains_part(instruction, "provider_failure") {
                Outcome::provider_failure()
            } else {
                Outcome::Pass
            }
        },
    }
}

/// The view of what was read of a file.
pub open spec fn read_view(r: Result<String, String>) -> Result<Seq<char>, Seq<char>> {
    match r {
        Ok(text) => Ok(text@),
        Err(error) => Err(error@),
    }
}

/// Evaluates a trial, given what was read of its files.
pub fn evaluate_trial(
    expected: &EvalExpectation,
    instruction: Result<String, String>,
    scripted: Result<String, String>,
) -> (r: Outcome)
    ensures
        r@ == trial_outcome(*expected, read_view(instruction), read_view(scripted)),
{
    let text = match instruction {
        Err(error) => {
            return Outcome::ProviderFailure { reason: error };
        },
        Ok(text) => text,
    };
    if blank(text.as_str()) {
        return Outcome::failure("instruction is empty".to_owned());
    }
    let answers = match scripted {
        Err(error) => {
            return Outcome::ProviderFailure { reason: error };
        },
        Ok(answers) => answers,
    };
    match read_json(answers.as_str()) {
        Err(error) => Outcome::ProviderFailure { reason: error },
        Ok(responses) => evaluate_answers(expected, text.as_str(), &responses),
    }
}

/// The expectation of a task stays outside its trials, unless the task gives the same file as an
/// input too.
pub proof fn expectation_stays_hidden(
    task: EvalTask,
    root: Seq<char>,
    scripted_found: bool,
    i: int,
)
    requires
        joined(task.fixture_root@, task.expect@) != joined(task.fixture_root@, task.instruction@),
        joined(task.fixture_root@, task.expect@) != joined(
            task.fixture_root@,
            task.scripted_responses@,
        ),
        trial_of(task, root, scripted_found) is Ok,
        0 <= i < trial_of(task, root, scripted_found)->Ok_0.inputs.len(),
    ensures
        trial_of(task, root, scripted_found)->Ok_0.inputs[i].source != joined(
            task.fixture_root@,
            task.expect@,
        ),
{
}

/// An evaluation passes only where every trial passed, and a failure of the provider makes it
/// inconclusive, never failed.
pub proof fn provider_failure_is_no_failure(items: Seq<OutcomeModel>, i: int)
    requires
        0 <= i < items.len(),
    ensures
        overall_status(items) == EvalStatus::Pass ==> items[i] is Pass,
        items[i] is ProviderFailure ==> overall_status(items) == EvalStatus::Inconclusive,
        items[i] is JudgeDisagreement ==> overall_status(items) == EvalStatus::Inconclusive,
{
    if items[i] is ProviderFailure || items[i] is JudgeDisagreement {
        assert(grade_of(items[i]) == EvalStatus::Inconclusive);
    }
}

} // verus!
