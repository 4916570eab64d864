//! How the trials of an evaluation are graded.
use vstd::prelude::*;
use crate::eval::{answers_outcome, expectation_error, first_answer, first_held, first_missing, grade_of, named_tools, overall_status, passed_count, task_error, EvalExpectation, EvalStatus, EvalTask, OutcomeModel};
use crate::eval::{call_name, named_calls};
use crate::eval::{grade_message, status_text, trial_outcome};
use crate::text::{has_part, is_blank, texts};
use crate::value::{field, JsonModel};

verus! {

/// Trials pass together only where each passed; one whose provider failed or whose judges disagree
/// leaves the whole open, and otherwise one that failed fails the whole.
pub proof fn one_trial_decides_for_all(items: Seq<OutcomeModel>)
    ensures
        overall_status(items) == EvalStatus::Pass <==> forall|i: int|
            0 <= i < items.len() ==> (#[trigger] items[i]) is Pass,
        overall_status(items) == EvalStatus::Inconclusive <==> exists|i: int|
            0 <= i < items.len() && ((#[trigger] items[i]) is ProviderFailure
                || items[i] is JudgeDisagreement),
        overall_status(items) == EvalStatus::Fail ==> exists|i: int|
            0 <= i < items.len() && (#[trigger] items[i]) is Failure,
{
    if exists|i: int|
        0 <= i < items.len() && grade_of(#[trigger] items[i]) == EvalStatus::Inconclusive {
        let i = choose|i: int|
            0 <= i < items.len() && grade_of(#[trigger] items[i]) == EvalStatus::Inconclusive;
        assert(!(items[i] is Pass));
        assert(items[i] is ProviderFailure || items[i] is JudgeDisagreement);
    } else {
        assert forall|i: int| 0 <= i < items.len() implies !((#[trigger] items[i]) is ProviderFailure)
            && !(items[i] is JudgeDisagreement) by {
            assert(grade_of(items[i]) != EvalStatus::Inconclusive);
        }
        if !(forall|i: int| 0 <= i < items.len() ==> (#[trigger] items[i]) is Pass) {
            let i = choose|i: int| 0 <= i < items.len() && !((#[trigger] items[i]) is Pass);
            assert(items[i] is Failure);
        }
    }
}

/// The trials that passed are counted: no more than there are, and all of them exactly where each
/// passed.
pub proof fn passed_trials_are_counted(items: Seq<OutcomeModel>)
    ensures
        passed_count(items) <= items.len(),
        passed_count(items) == items.len() <==> forall|i: int|
            0 <= i < items.len() ==> (#[trigger] items[i]) is Pass,
        passed_count(items.push(OutcomeModel::Pass)) == passed_count(items) + 1,
    decreases items.len(),
{
    assert(items.push(OutcomeModel::Pass).drop_last() =~= items);
    if items.len() > 0 {
        let head = items.drop_last();
        passed_trials_are_counted(head);
        if passed_count(items) == items.len() {
            assert forall|i: int| 0 <= i < items.len() implies (#[trigger] items[i]) is Pass by {
                if i < head.len() {
                    assert(head[i] is Pass);
                }
            }
        }
        if forall|i: int| 0 <= i < items.len() ==> (#[trigger] items[i]) is Pass {
            assert forall|i: int| 0 <= i < head.len() implies (#[trigger] head[i]) is Pass by {
                assert(items[i] is Pass);
            }
            assert(items[items.len() - 1] is Pass);
        }
    }
}

proof fn lemma_held(list: Seq<Seq<char>>, text: Seq<char>, i: int)
    requires
        0 <= i <= list.len(),
    ensures
        first_held(list, text, i) is None <==> forall|k: int|
            i <= k < list.len() ==> !has_part(text, #[trigger] list[k]),
    decreases list.len() - i,
{
    if i < list.len() && !has_part(text, list[i]) {
        lemma_held(list, text, i + 1);
    }
}

proof fn lemma_missing(list: Seq<Seq<char>>, given: Seq<Seq<char>>, i: int)
    requires
        0 <= i <= list.len(),
    ensures
        first_missing(list, given, i) is None <==> forall|k: int|
            i <= k < list.len() ==> given.contains(#[trigger] list[k]),
    decreases list.len() - i,
{
    if i < list.len() && given.contains(list[i]) {
        lemma_missing(list, given, i + 1);
    }
}

/// An answer meets an expectation exactly where it says something, holds what it must hold and
/// nothing that it must not, keeps within its lengths, and calls the tools that it must and not too
/// many.
pub proof fn answer_meets_every_expectation(
    expected: EvalExpectation,
    answer: Seq<char>,
    tools: Seq<Seq<char>>,
)
    ensures
        expectation_error(expected, answer, tools) is None <==> {
            &&& !is_blank(answer)
            &&& expected.required_response matches Some(text) ==> has_part(answer, text@)
            &&& expected.min_response_chars matches Some(n) ==> answer.len() >= n
            &&& expected.max_response_chars matches Some(n) ==> answer.len() <= n
            &&& expected.max_tool_calls matches Some(n) ==> tools.len() <= n
            &&& forall|k: int|
                0 <= k < expected.forbidden_responses@.len() ==> !has_part(
                    answer,
                    #[trigger] texts(expected.forbidden_responses@)[k],
                )
            &&& forall|k: int|
                0 <= k < expected.required_tool_calls@.len() ==> tools.contains(
                    #[trigger] texts(expected.required_tool_calls@)[k],
                )
        },
{
    lemma_held(texts(expected.forbidden_responses@), answer, 0);
    lemma_missing(texts(expected.required_tool_calls@), tools, 0);
}

/// A trial passes only where its first answer, with the calls of all of them, meets the
/// expectation.
pub proof fn passing_trial_meets_the_expectation(
    expected: EvalExpectation,
    instruction: Seq<char>,
    responses: JsonModel,
)
    ensures
        answers_outcome(expected, instruction, responses) is Pass ==> (field(responses, "responses"@)
            matches Some(JsonModel::Array(list)) && list.len() > 0 && (named_tools(
            list,
            0,
            Seq::empty(),
        ) matches Ok(tools) && expectation_error(expected, first_answer(list), tools) is None)),
{
}

/// A task has a name, trials, and files that lie in its fixture and are there.
pub proof fn accepted_task_is_complete(
    task: EvalTask,
    instruction_found: bool,
    expectation_found: bool,
)
    requires
        task_error(task, instruction_found, expectation_found) is None,
    ensures
        !is_blank(task.id@),
        task.trials > 0,
        task.instruction@.len() > 0 ==> task.instruction@[0] != '/',
        task.expect@.len() > 0 ==> task.expect@[0] != '/',
        task.scripted_responses@.len() > 0 ==> task.scripted_responses@[0] != '/',
        instruction_found && expectation_found,
{
}

/// A trial whose files could not be read, or whose answers are no JSON, is nobody's failure but that
/// of the provider; one without an instruction fails.
pub proof fn unread_trial_is_no_failure(
    expected: EvalExpectation,
    instruction: Result<Seq<char>, Seq<char>>,
    scripted: Result<Seq<char>, Seq<char>>,
)
    ensures
        instruction is Err ==> trial_outcome(expected, instruction, scripted) is ProviderFailure,
        instruction matches Ok(text) ==> (is_blank(text) ==> trial_outcome(
            expected,
            instruction,
            scripted,
        ) is Failure) && (!is_blank(text) && scripted is Err ==> trial_outcome(
            expected,
            instruction,
            scripted,
        ) is ProviderFailure),
        trial_outcome(expected, instruction, scripted) is Pass ==> instruction is Ok && scripted
            is Ok,
        !(trial_outcome(expected, instruction, scripted) is JudgeDisagreement),
{
}

/// An outcome is told by its status and by the reason that was given.
pub proof fn outcome_is_told_with_its_reason(reason: Seq<char>)
    ensures
        status_text(EvalStatus::Pass) == "pass"@,
        status_text(EvalStatus::Fail) == "fail"@,
        status_text(EvalStatus::Inconclusive) == "inconclusive"@,
        grade_of(OutcomeModel::Pass) == EvalStatus::Pass,
        grade_of(OutcomeModel::Failure(reason)) == EvalStatus::Fail,
        grade_of(OutcomeModel::ProviderFailure(reason)) == EvalStatus::Inconclusive,
        grade_of(OutcomeModel::JudgeDisagreement(reason)) == EvalStatus::Inconclusive,
        grade_message(OutcomeModel::Failure(reason)) == reason,
        grade_message(OutcomeModel::ProviderFailure(reason)) == reason,
        grade_message(OutcomeModel::JudgeDisagreement(reason)) == reason,
{
}

proof fn lemma_named_calls(calls: Seq<JsonModel>, i: int, found: Seq<Seq<char>>, k: int)
    requires
        0 <= i <= calls.len(),
        named_calls(calls, i, found) is Ok,
    ensures
        named_calls(calls, i, found)->Ok_0.len() == found.len() + (calls.len() - i),
        0 <= k < found.len() ==> named_calls(calls, i, found)->Ok_0[k] == found[k],
        found.len() <= k < found.len() + (calls.len() - i) ==> call_name(
            calls[i + k - found.len()],
        ) == Some(named_calls(calls, i, found)->Ok_0[k]),
    decreases calls.len() - i,
{
    if i < calls.len() {
        let name = call_name(calls[i])->Some_0;
        lemma_named_calls(calls, i + 1, found.push(name), k);
    }
}

/// The tools that an answer calls are those of its `tool_calls`, by their names and in their order; a
/// call without a name is refused.
pub proof fn calls_are_known_by_name(
    list: Seq<JsonModel>,
    calls: Seq<JsonModel>,
    k: int,
)
    requires
        list.len() == 1,
        list[0] is Object,
        field(list[0], "tool_calls"@) == Some(JsonModel::Array(calls)),
    ensures
        named_tools(list, 0, Seq::empty()) matches Ok(tools) ==> tools.len() == calls.len() && (0 <= k
            < calls.len() ==> call_name(calls[k]) == Some(tools[k])),
{
    reveal_with_fuel(named_tools, 3);
    if named_calls(calls, 0, Seq::empty()) is Ok {
        lemma_named_calls(calls, 0, Seq::empty(), k);
    }
}

} // verus!
