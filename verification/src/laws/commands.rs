//! What is typed, and what is done about it.
use vstd::prelude::*;
use crate::cli::{command_result, named_command, CommandModel, ReplMode};
use crate::findings::AgentRole;
use crate::repl::{command_action, coordinator_role, coordinator_text, handled_async, is_command, recent, role_named, sounds_ambiguous, success_text, write_request, write_words, ActionModel, OutcomeKind, ReplModel};
use crate::text::{has_part, join, words};

verus! {

proof fn lemma_names()
    ensures
        "help"@.len() == 4 && "help"@[0] == 'h' && "help"@[1] == 'e' && "help"@[2] == 'l',
        "status"@.len() == 6 && "status"@[0] == 's' && "status"@[1] == 't' && "status"@[2] == 'a' && "status"@[4] == 'u',
        "mode"@.len() == 4 && "mode"@[0] == 'm' && "mode"@[1] == 'o' && "mode"@[2] == 'd',
        "plan"@.len() == 4 && "plan"@[0] == 'p' && "plan"@[1] == 'l' && "plan"@[2] == 'a',
        "write"@.len() == 5 && "write"@[0] == 'w' && "write"@[1] == 'r' && "write"@[2] == 'i' && "write"@[4] == 'e',
        "review"@.len() == 6 && "review"@[0] == 'r' && "review"@[1] == 'e' && "review"@[2] == 'v' && "review"@[4] == 'e',
        "revise"@.len() == 6 && "revise"@[0] == 'r' && "revise"@[1] == 'e' && "revise"@[2] == 'v' && "revise"@[4] == 's',
        "diff"@.len() == 4 && "diff"@[0] == 'd' && "diff"@[1] == 'i' && "diff"@[2] == 'f',
        "approve"@.len() == 7 && "approve"@[0] == 'a' && "approve"@[1] == 'p' && "approve"@[2] == 'p' && "approve"@[4] == 'o',
        "reject"@.len() == 6 && "reject"@[0] == 'r' && "reject"@[1] == 'e' && "reject"@[2] == 'j' && "reject"@[4] == 'c',
        "resolve"@.len() == 7 && "resolve"@[0] == 'r' && "resolve"@[1] == 'e' && "resolve"@[2] == 's' && "resolve"@[4] == 'l',
        "model"@.len() == 5 && "model"@[0] == 'm' && "model"@[1] == 'o' && "model"@[2] == 'd' && "model"@[4] == 'l',
        "cost"@.len() == 4 && "cost"@[0] == 'c' && "cost"@[1] == 'o' && "cost"@[2] == 's',
        "compact"@.len() == 7 && "compact"@[0] == 'c' && "compact"@[1] == 'o' && "compact"@[2] == 'm' && "compact"@[4] == 'a',
        "resume"@.len() == 6 && "resume"@[0] == 'r' && "resume"@[1] == 'e' && "resume"@[2] == 's' && "resume"@[4] == 'm',
        "skills"@.len() == 6 && "skills"@[0] == 's' && "skills"@[1] == 'k' && "skills"@[2] == 'i' && "skills"@[4] == 'l',
        "clean"@.len() == 5 && "clean"@[0] == 'c' && "clean"@[1] == 'l' && "clean"@[2] == 'e' && "clean"@[4] == 'n',
        "quit"@.len() == 4 && "quit"@[0] == 'q' && "quit"@[1] == 'u' && "quit"@[2] == 'i',
{
    reveal_strlit("help");
    reveal_strlit("status");
    reveal_strlit("mode");
    reveal_strlit("plan");
    reveal_strlit("write");
    reveal_strlit("review");
    reveal_strlit("revise");
    reveal_strlit("diff");
    reveal_strlit("approve");
    reveal_strlit("reject");
    reveal_strlit("resolve");
    reveal_strlit("model");
    reveal_strlit("cost");
    reveal_strlit("compact");
    reveal_strlit("resume");
    reveal_strlit("skills");
    reveal_strlit("clean");
    reveal_strlit("quit");
}

/// A command is known by its first word: what approves, approves, what rejects, rejects, and so
/// with every other. Those with one identifier need it, and those with none refuse any.
pub proof fn commands_are_known_by_name(rest: Seq<Seq<char>>, id: Seq<char>)
    ensures
        rest == seq![id] ==> named_command("approve"@, rest) == Ok::<CommandModel, Seq<char>>(
            CommandModel::Approve { id },
        ),
        rest == seq![id] ==> named_command("reject"@, rest) == Ok::<CommandModel, Seq<char>>(
            CommandModel::Reject { id },
        ),
        rest == seq![id] ==> named_command("revise"@, rest) == Ok::<CommandModel, Seq<char>>(
            CommandModel::Revise { id: Some(id) },
        ),
        rest == seq![id] ==> named_command("diff"@, rest) == Ok::<CommandModel, Seq<char>>(
            CommandModel::Diff { id: Some(id) },
        ),
        rest.len() != 1 ==> named_command("approve"@, rest) is Err && named_command(
            "reject"@,
            rest,
        ) is Err,
        rest.len() > 0 ==> named_command("plan"@, rest) == Ok::<CommandModel, Seq<char>>(
            CommandModel::Plan { request: Some(join(rest, " "@)) },
        ) && named_command("write"@, rest) == Ok::<CommandModel, Seq<char>>(
            CommandModel::Write { request: Some(join(rest, " "@)) },
        ) && named_command("review"@, rest) == Ok::<CommandModel, Seq<char>>(
            CommandModel::Review { request: Some(join(rest, " "@)) },
        ),
        rest.len() == 0 ==> named_command("help"@, rest) == Ok::<CommandModel, Seq<char>>(
            CommandModel::Help,
        ) && named_command("status"@, rest) == Ok::<CommandModel, Seq<char>>(
            CommandModel::Status,
        ) && named_command("cost"@, rest) == Ok::<CommandModel, Seq<char>>(CommandModel::Cost)
            && named_command("compact"@, rest) == Ok::<CommandModel, Seq<char>>(
            CommandModel::Compact,
        ) && named_command("resume"@, rest) == Ok::<CommandModel, Seq<char>>(CommandModel::Resume)
            && named_command("skills"@, rest) == Ok::<CommandModel, Seq<char>>(
            CommandModel::Skills,
        ) && named_command("clean"@, rest) == Ok::<CommandModel, Seq<char>>(CommandModel::Clean)
            && named_command("quit"@, rest) == Ok::<CommandModel, Seq<char>>(CommandModel::Quit),
        rest.len() > 0 ==> named_command("help"@, rest) is Err && named_command("status"@, rest)
            is Err && named_command("cost"@, rest) is Err && named_command("compact"@, rest) is Err
            && named_command("resume"@, rest) is Err && named_command("skills"@, rest) is Err
            && named_command("clean"@, rest) is Err && named_command("quit"@, rest) is Err,
{
    lemma_names();
}

/// A finding is resolved by its identifier, as a false positive, with a reason of at least a word.
pub proof fn resolution_needs_a_reason(rest: Seq<Seq<char>>)
    ensures
        rest.len() >= 3 && rest[1] == "false-positive"@ ==> named_command("resolve"@, rest) == Ok::<
            CommandModel,
            Seq<char>,
        >(CommandModel::Resolve { id: rest[0], reason: join(rest.skip(2), " "@) }),
        rest.len() < 3 || rest[1] != "false-positive"@ ==> named_command("resolve"@, rest) is Err,
{
    lemma_names();
}

/// A model is chosen for one role or for all.
pub proof fn model_is_chosen_for_a_role_or_for_all(
    rest: Seq<Seq<char>>,
    role: Seq<char>,
    id: Seq<char>,
)
    ensures
        rest == seq![id] ==> named_command("model"@, rest) == Ok::<CommandModel, Seq<char>>(
            CommandModel::Model { role: None, id: Some(id) },
        ),
        rest == seq![role, id] ==> named_command("model"@, rest) == Ok::<CommandModel, Seq<char>>(
            CommandModel::Model { role: Some(role), id: Some(id) },
        ),
        rest.len() > 2 ==> named_command("model"@, rest) is Err,
{
    lemma_names();
}

/// A line that begins with a slash is read as a command by its words; one that begins with neither a
/// slash nor a dollar sign is read as it stands.
pub proof fn only_a_slash_makes_a_command(input: Seq<char>)
    ensures
        input.len() > 0 && input[0] == '/' && words(input.skip(1)).len() > 0 ==> command_result(input)
            == named_command(words(input.skip(1))[0], words(input.skip(1)).skip(1)),
        input.len() == 0 || (input[0] != '/' && input[0] != '$') ==> command_result(input) == Ok::<
            CommandModel,
            Seq<char>,
        >(CommandModel::NaturalLanguage(input)),
        is_command(input) <==> input.len() > 0 && (input[0] == '/' || input[0] == '$'),
{
    reveal_strlit("/");
    reveal_strlit("$");
    if input.len() > 0 {
        assert(input.take(1)[0] == input[0]);
        if input[0] == '/' {
            assert(input.take(1) =~= "/"@);
        }
        if input[0] == '$' {
            assert(input.take(1) =~= "$"@);
        }
    }
}

/// A human at work approves, rejects and resolves what they name, and nobody else's choice comes in
/// between; without a run to work on, or while consulting, nothing is done.
pub proof fn command_does_what_it_names(s: ReplModel, id: Seq<char>, reason: Seq<char>)
    ensures
        s.mode == ReplMode::Work && s.attached ==> command_action(s, CommandModel::Approve { id })
            == Ok::<ActionModel, Seq<char>>(ActionModel::Approve(id)) && command_action(
            s,
            CommandModel::Reject { id },
        ) == Ok::<ActionModel, Seq<char>>(ActionModel::Reject(id)) && command_action(
            s,
            CommandModel::Resolve { id, reason },
        ) == Ok::<ActionModel, Seq<char>>(ActionModel::Resolve(id, reason)) && command_action(
            s,
            CommandModel::Model { role: None, id: Some(id) },
        ) == Ok::<ActionModel, Seq<char>>(ActionModel::SetModel(None, id)) && command_action(
            s,
            CommandModel::Cost,
        ) == Ok::<ActionModel, Seq<char>>(ActionModel::Cost) && (!s.ambiguous_request
            ==> command_action(s, CommandModel::Resume) == Ok::<ActionModel, Seq<char>>(
            ActionModel::Resume,
        )),
        s.mode == ReplMode::Consult || !s.attached ==> (command_action(
            s,
            CommandModel::Approve { id },
        ) matches Ok(ActionModel::Tell(told)) && told.0 == OutcomeKind::Error) && (command_action(
            s,
            CommandModel::Reject { id },
        ) matches Ok(ActionModel::Tell(said)) && said.0 == OutcomeKind::Error),
        s.ambiguous_request ==> (command_action(s, CommandModel::Resume) matches Ok(
            ActionModel::Tell(_),
        )),
{
}

/// What is not a command is put to the story architect while at work, and nothing else is done with
/// it. Plans go to the architect, reviews to the critic of canon, revisions to the reviser and
/// differences to the validator.
pub proof fn requests_go_to_the_agent_in_charge(s: ReplModel, input: Seq<char>, text: Option<Seq<char>>)
    ensures
        !is_command(input) && s.mode == ReplMode::Work && s.attached ==> handled_async(s, input).1
            == Ok::<ActionModel, Seq<char>>(ActionModel::Ask(AgentRole::StoryArchitect, input)),
        coordinator_role(CommandModel::Plan { request: text }) == Some(AgentRole::StoryArchitect),
        coordinator_role(CommandModel::Review { request: text }) == Some(AgentRole::CanonCritic),
        coordinator_role(CommandModel::Revise { id: text }) == Some(AgentRole::Reviser),
        coordinator_role(CommandModel::Diff { id: text }) == Some(AgentRole::Validator),
        text matches Some(words) ==> coordinator_text(CommandModel::Plan { request: text }) == Some(
            "plan "@ + words,
        ) && coordinator_text(CommandModel::Review { request: text }) == Some("review "@ + words)
            && coordinator_text(CommandModel::Revise { id: text }) == Some("revise "@ + words)
            && coordinator_text(CommandModel::Diff { id: text }) == Some("diff "@ + words),
{
}

/// The history keeps the last 64 lines, in their order.
pub proof fn history_keeps_the_last_lines(history: Seq<Seq<char>>)
    ensures
        recent(history).len() <= 64,
        history.len() <= 64 ==> recent(history) == history,
        history.len() > 64 ==> recent(history).len() == 64,
        recent(history) == history.skip(history.len() - recent(history).len()),
{
    assert(history.skip(0) =~= history);
}

proof fn lemma_write(list: Seq<Seq<char>>, i: int, chapter: Option<Seq<char>>, confirmed: bool)
    requires
        0 <= i <= list.len(),
    ensures
        write_words(list, i, chapter, confirmed) matches Ok(r) ==> (r.1 <==> confirmed
            || list.skip(i).contains("--confirm"@)) && (chapter matches Some(id) ==> r.0 == id),
    decreases list.len() - i,
{
    if i < list.len() {
        let rest = list.skip(i);
        let tail = list.skip(i + 1);
        assert(rest[0] == list[i]);
        assert(forall|k: int| 0 <= k < tail.len() ==> tail[k] == #[trigger] rest[k + 1]);
        assert(rest.contains("--confirm"@) <==> list[i] == "--confirm"@ || tail.contains(
            "--confirm"@,
        )) by {
            if tail.contains("--confirm"@) {
                let k = choose|k: int| 0 <= k < tail.len() && tail[k] == "--confirm"@;
                assert(rest[k + 1] == "--confirm"@);
            }
            if rest.contains("--confirm"@) && list[i] != "--confirm"@ {
                let k = choose|k: int| 0 <= k < rest.len() && rest[k] == "--confirm"@;
                assert(tail[k - 1] == "--confirm"@);
            }
        }
        if list[i] == "--confirm"@ {
            if !confirmed {
                lemma_write(list, i + 1, chapter, true);
            }
        } else if chapter is None {
            lemma_write(list, i + 1, Some(list[i]), confirmed);
        }
    } else {
        assert(list.skip(i).len() == 0);
    }
}

/// The cost of a chapter counts as agreed to exactly where the request says `--confirm`.
pub proof fn only_confirm_confirms(request: Seq<char>)
    ensures
        write_request(Some(request)) matches Ok(r) ==> (r.1 <==> words(request).contains(
            "--confirm"@,
        )),
        words(request).len() == 0 ==> (write_request(Some(request)) matches Ok(r) && r.0
            == "chapter_1"@),
        words(request).len() == 1 && words(request)[0] != "--confirm"@ ==> (write_request(
            Some(request),
        ) matches Ok(r) && r.0 == words(request)[0] && !r.1),
{
    let list = words(request);
    lemma_write(list, 0, None, false);
    assert(list.skip(0) =~= list);
    reveal_with_fuel(write_words, 3);
}

/// Each role that a model can be chosen for goes by these names.
pub proof fn roles_go_by_these_names()
    ensures
        role_named("architect"@) == Some(AgentRole::StoryArchitect),
        role_named("story-architect"@) == Some(AgentRole::StoryArchitect),
        role_named("writer"@) == Some(AgentRole::Writer),
        role_named("reviser"@) == Some(AgentRole::Reviser),
        role_named("validator"@) == Some(AgentRole::Validator),
        role_named("character"@) == Some(AgentRole::CharacterVoiceCritic),
        role_named("character-voice"@) == Some(AgentRole::CharacterVoiceCritic),
        role_named("canon"@) == Some(AgentRole::CanonCritic),
        role_named("canon-critic"@) == Some(AgentRole::CanonCritic),
        role_named("reader-pull"@) == Some(AgentRole::ReaderPullCritic),
        role_named("story-editor"@) == Some(AgentRole::StoryEditorCritic),
        role_named("style"@) == Some(AgentRole::NaturalnessStyleCritic),
        role_named("naturalness-style"@) == Some(AgentRole::NaturalnessStyleCritic),
        role_named("source"@) == Some(AgentRole::SourceAdherenceCritic),
        role_named("source-adherence"@) == Some(AgentRole::SourceAdherenceCritic),
{
    reveal_strlit("architect");
    reveal_strlit("story-architect");
    reveal_strlit("writer");
    reveal_strlit("reviser");
    reveal_strlit("validator");
    reveal_strlit("character");
    reveal_strlit("character-voice");
    reveal_strlit("canon");
    reveal_strlit("canon-critic");
    reveal_strlit("reader-pull");
    reveal_strlit("story-editor");
    reveal_strlit("style");
    reveal_strlit("naturalness-style");
    reveal_strlit("source");
    reveal_strlit("source-adherence");
    assert("architect"@.len() == 9 && "story-architect"@.len() == 15 && "writer"@.len() == 6
        && "reviser"@.len() == 7 && "validator"@.len() == 9 && "character"@.len() == 9);
    assert("character-voice"@.len() == 15 && "canon"@.len() == 5 && "canon-critic"@.len() == 12
        && "reader-pull"@.len() == 11 && "story-editor"@.len() == 12 && "style"@.len() == 5);
    assert("naturalness-style"@.len() == 17 && "source"@.len() == 6 && "source-adherence"@.len()
        == 16);
    assert("architect"@[0] == 'a' && "validator"@[0] == 'v' && "character"@[0] == 'c');
    assert("story-architect"@[0] == 's' && "character-voice"@[0] == 'c' && "writer"@[0] == 'w'
        && "source"@[0] == 's' && "canon"@[0] == 'c' && "style"@[0] == 's' && "canon-critic"@[0]
        == 'c' && "story-editor"@[0] == 's');
}

/// What was done is told by what it was done to.
pub proof fn what_was_done_is_told(id: Seq<char>, reason: Seq<char>, role: Option<AgentRole>)
    ensures
        success_text(ActionModel::Approve(id)) == "approved "@ + id,
        success_text(ActionModel::Reject(id)) == "rejected "@ + id,
        success_text(ActionModel::Resolve(id, reason)) == "resolved "@ + id
            + " as false-positive"@,
        success_text(ActionModel::SetModel(role, id)) == "model set to "@ + id,
        has_part(reason, "ambiguous"@) <==> sounds_ambiguous(reason),
{
}

} // verus!
