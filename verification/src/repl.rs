//! The REPL: what an input asks for, and what a human is told.
use vstd::prelude::*;
use vstd::string::StringExecFns;
use crate::cli::{command_result, mode_name, parse_repl_command, CommandModel, ReplCommand, ReplMode};
use crate::findings::AgentRole;
use crate::records::{ChapterState, CostStatus};
use crate::session::Checkpoint;
use crate::text::{concat2, concat3, contains_part, decimal, decimal_text, has_part, has_prefix, opt_text, size_text, split_words, starts_with, str_eq, texts, words};
use crate::workflow::chapter::{WriteError, WriteRefusal};
use crate::workflow::state_label;

verus! {

/// Inputs that the history keeps.
pub const HISTORY_LIMIT: usize = 64;

/// Where an input goes.
#[derive(Debug, PartialEq, Eq)]
pub enum RoutedInput {
    /// To a command.
    Command(ReplCommand),
    /// To an agent.
    AgentText(String),
}

/// Whether an input is a command.
pub open spec fn is_command(input: Seq<char>) -> bool {
    has_prefix(input, "/"@) || has_prefix(input, "$"@)
}

/// Where an input goes, by views.
pub enum RouteModel {
    Command(CommandModel),
    AgentText(Seq<char>),
}

impl View for RoutedInput {
    type V = RouteModel;

    open spec fn view(&self) -> RouteModel {
        match self {
            RoutedInput::Command(command) => RouteModel::Command(command@),
            RoutedInput::AgentText(text) => RouteModel::AgentText(text@),
        }
    }
}

/// Where an input goes, or the message about a command that cannot be read.
pub open spec fn route_result(input: Seq<char>) -> Result<RouteModel, Seq<char>> {
    if is_command(input) {
        match command_result(input) {
            Ok(command) => Ok(RouteModel::Command(command)),
            Err(error) => Err(error),
        }
    } else {
        Ok(RouteModel::AgentText(input))
    }
}

/// An input that starts with a slash or a dollar sign goes to the command that it is parsed to, or
/// is refused where it cannot be parsed, and is never natural language.  Any other input, the empty
/// line too, goes to an agent as it is, and is parsed to natural language.
pub proof fn commands_are_routed_as_parsed(input: Seq<char>)
    ensures
        is_command(input) <==> input.len() > 0 && (input[0] == '/' || input[0] == '$'),
        is_command(input) ==> {
            &&& forall|command: CommandModel|
                route_result(input) == Ok::<RouteModel, Seq<char>>(RouteModel::Command(command))
                    <==> #[trigger] is_parsed_to(input, command)
            &&& route_result(input) is Err <==> command_result(input) is Err
            &&& !(command_result(input) matches Ok(CommandModel::NaturalLanguage(_)))
        },
        !is_command(input) ==> {
            &&& route_result(input) == Ok::<RouteModel, Seq<char>>(RouteModel::AgentText(input))
            &&& is_parsed_to(input, CommandModel::NaturalLanguage(input))
        },
{
    reveal_strlit("/");
    reveal_strlit("$");
    if input.len() > 0 {
        assert(input.take(1) =~= seq![input[0]]);
        assert("/"@ =~= seq!['/']);
        assert("$"@ =~= seq!['$']);
        assert(seq![input[0]][0] == input[0] && seq!['/'][0] == '/' && seq!['$'][0] == '$');
    }
}

/// Whether an input line denotes a command.
pub open spec fn is_parsed_to(input: Seq<char>, command: CommandModel) -> bool {
    command_result(input) == Ok::<CommandModel, Seq<char>>(command)
}

/// Decides where an input goes: only one that starts with a slash or a dollar sign is a command.
pub fn route_input(input: &str) -> (r: Result<RoutedInput, String>)
    ensures
        match route_result(input@) {
            Ok(route) => r is Ok && r->Ok_0@ == route,
            Err(error) => r is Err && r->Err_0@ == error,
        },
{
    if starts_with(input, "/") || starts_with(input, "$") {
        match parse_repl_command(input) {
            Ok(command) => Ok(RoutedInput::Command(command)),
            Err(error) => Err(error),
        }
    } else {
        Ok(RoutedInput::AgentText(input.to_owned()))
    }
}

/// What the REPL tells a human.
#[derive(Debug, PartialEq, Eq)]
pub enum ReplOutcome {
    /// Nothing.
    Continue,
    /// A message.
    Message(String),
    /// An answer of the coordinator.
    Coordinator(String),
    /// A request that changes nothing.
    ReadOnly(String),
    /// A text for an agent.
    AgentText(String),
    /// A question that only a human can answer.
    AwaitingConfirmation(String),
    /// The end.
    Quit,
    /// An error.
    Error(String),
}

/// Kind of what the REPL tells a human.
#[derive(Clone, Copy, PartialEq, Eq, Structural)]
pub enum OutcomeKind {
    Continue,
    Message,
    Coordinator,
    ReadOnly,
    AgentText,
    AwaitingConfirmation,
    Quit,
    Error,
}

/// Kind and text of what the REPL tells a human.
pub type Told = (OutcomeKind, Seq<char>);

impl View for ReplOutcome {
    type V = Told;

    open spec fn view(&self) -> Told {
        match self {
            ReplOutcome::Continue => (OutcomeKind::Continue, Seq::empty()),
            ReplOutcome::Message(text) => (OutcomeKind::Message, text@),
            ReplOutcome::Coordinator(text) => (OutcomeKind::Coordinator, text@),
            ReplOutcome::ReadOnly(text) => (OutcomeKind::ReadOnly, text@),
            ReplOutcome::AgentText(text) => (OutcomeKind::AgentText, text@),
            ReplOutcome::AwaitingConfirmation(text) => (OutcomeKind::AwaitingConfirmation, text@),
            ReplOutcome::Quit => (OutcomeKind::Quit, Seq::empty()),
            ReplOutcome::Error(text) => (OutcomeKind::Error, text@),
        }
    }
}

/// What an input asks the program to do.
#[derive(Debug)]
pub enum ReplAction {
    /// Tell the human something.
    Tell(ReplOutcome),
    /// Record a request to the coordinator.
    Record(String),
    /// Ask a model on behalf of the coordinator.
    Ask(AgentRole, String),
    /// Write a chapter, with the consent of the human to its cost or without it.
    Write(String, bool),
    /// Approve a changeset.
    Approve(String),
    /// Reject a changeset.
    Reject(String),
    /// Resolve a finding.
    Resolve(String, String),
    /// Set the model of a role, or of all.
    SetModel(Option<AgentRole>, String),
    /// Tell what the run has cost.
    Cost,
    /// Load the latest checkpoint.
    Resume,
}

/// What an input asks the program to do, by views.
pub enum ActionModel {
    Tell(Told),
    Record(Seq<char>),
    Ask(AgentRole, Seq<char>),
    Write(Seq<char>, bool),
    Approve(Seq<char>),
    Reject(Seq<char>),
    Resolve(Seq<char>, Seq<char>),
    SetModel(Option<AgentRole>, Seq<char>),
    Cost,
    Resume,
}

impl View for ReplAction {
    type V = ActionModel;

    open spec fn view(&self) -> ActionModel {
        match self {
            ReplAction::Tell(outcome) => ActionModel::Tell(outcome@),
            ReplAction::Record(text) => ActionModel::Record(text@),
            ReplAction::Ask(role, text) => ActionModel::Ask(*role, text@),
            ReplAction::Write(chapter, confirmed) => ActionModel::Write(chapter@, *confirmed),
            ReplAction::Approve(id) => ActionModel::Approve(id@),
            ReplAction::Reject(id) => ActionModel::Reject(id@),
            ReplAction::Resolve(id, reason) => ActionModel::Resolve(id@, reason@),
            ReplAction::SetModel(role, id) => ActionModel::SetModel(*role, id@),
            ReplAction::Cost => ActionModel::Cost,
            ReplAction::Resume => ActionModel::Resume,
        }
    }
}

/// The state of the REPL by views.
pub struct ReplModel {
    pub mode: ReplMode,
    pub attached: bool,
    pub history: Seq<Seq<char>>,
    pub ambiguous_request: bool,
}

/// The state of the REPL.
#[derive(Debug)]
pub struct Repl {
    mode: ReplMode,
    attached: bool,
    history: Vec<String>,
    ambiguous_request: bool,
}

impl View for Repl {
    type V = ReplModel;

    closed spec fn view(&self) -> ReplModel {
        ReplModel {
            mode: self.mode,
            attached: self.attached,
            history: texts(self.history@),
            ambiguous_request: self.ambiguous_request,
        }
    }
}

impl Default for Repl {
    fn default() -> (r: Repl)
        ensures
            r@ == (ReplModel {
                mode: ReplMode::Work,
                attached: false,
                history: Seq::empty(),
                ambiguous_request: false,
            }),
    {
        Repl::new()
    }
}

/// The last inputs of a history.
pub open spec fn recent(history: Seq<Seq<char>>) -> Seq<Seq<char>> {
    if history.len() > HISTORY_LIMIT {
        history.skip(history.len() - HISTORY_LIMIT)
    } else {
        history
    }
}

/// The REPL after an input.
pub open spec fn remembered(s: ReplModel, input: Seq<char>) -> ReplModel {
    ReplModel { history: recent(s.history.push(input)), ..s }
}

/// The request that a command makes to the coordinator, and the role that answers it.
pub open spec fn coordinator_text(command: CommandModel) -> Option<Seq<char>> {
    match command {
        CommandModel::Plan { request } => Some("plan "@ + or_empty(request)),
        CommandModel::Review { request } => Some("review "@ + or_empty(request)),
        CommandModel::Revise { id } => Some("revise "@ + or_empty(id)),
        CommandModel::Diff { id } => Some("diff "@ + or_empty(id)),
        CommandModel::Skills => Some("skills"@),
        CommandModel::Skill { name } => Some("skill "@ + name),
        CommandModel::Compact => Some("compact"@),
        _ => None,
    }
}

/// A text, or nothing where there is none.
pub open spec fn or_empty(text: Option<Seq<char>>) -> Seq<char> {
    match text {
        Some(value) => value,
        None => Seq::empty(),
    }
}

/// The role that answers a command of the coordinator.
pub open spec fn coordinator_role(command: CommandModel) -> Option<AgentRole> {
    match command {
        CommandModel::Plan { .. } => Some(AgentRole::StoryArchitect),
        CommandModel::Review { .. } => Some(AgentRole::CanonCritic),
        CommandModel::Revise { .. } => Some(AgentRole::Reviser),
        CommandModel::Diff { .. } => Some(AgentRole::Validator),
        _ => None,
    }
}

/// The chapter and the consent that the words of a write command give, from a position on.
pub open spec fn write_words(
    list: Seq<Seq<char>>,
    i: int,
    chapter: Option<Seq<char>>,
    confirmed: bool,
) -> Result<(Seq<char>, bool), Seq<char>>
    decreases list.len() - i,
{
    if i < 0 || i >= list.len() {
        Ok(
            (
                match chapter {
                    Some(id) => id,
                    None => "chapter_1"@,
                },
                confirmed,
            ),
        )
    } else if list[i] == "--confirm"@ {
        if confirmed {
            Err("/write accepts --confirm only once"@)
        } else {
            write_words(list, i + 1, chapter, true)
        }
    } else if chapter is Some {
        Err("/write accepts one chapter ID and optional --confirm"@)
    } else {
        write_words(list, i + 1, Some(list[i]), confirmed)
    }
}

/// The chapter and the consent that a write command gives.
pub open spec fn write_request(request: Option<Seq<char>>) -> Result<(Seq<char>, bool), Seq<char>> {
    write_words(
        words(
            match request {
                Some(text) => text,
                None => "chapter_1"@,
            },
        ),
        0,
        None,
        false,
    )
}

/// The role that a name denotes.
pub open spec fn role_named(name: Seq<char>) -> Option<AgentRole> {
    if name == "architect"@ || name == "story-architect"@ {
        Some(AgentRole::StoryArchitect)
    } else if name == "writer"@ {
        Some(AgentRole::Writer)
    } else if name == "reviser"@ {
        Some(AgentRole::Reviser)
    } else if name == "validator"@ {
        Some(AgentRole::Validator)
    } else if name == "character"@ || name == "character-voice"@ {
        Some(AgentRole::CharacterVoiceCritic)
    } else if name == "canon"@ || name == "canon-critic"@ {
        Some(AgentRole::CanonCritic)
    } else if name == "reader-pull"@ {
        Some(AgentRole::ReaderPullCritic)
    } else if name == "story-editor"@ {
        Some(AgentRole::StoryEditorCritic)
    } else if name == "style"@ || name == "naturalness-style"@ {
        Some(AgentRole::NaturalnessStyleCritic)
    } else if name == "source"@ || name == "source-adherence"@ {
        Some(AgentRole::SourceAdherenceCritic)
    } else {
        None
    }
}

/// Something to tell.
pub open spec fn tell(kind: OutcomeKind, text: Seq<char>) -> Result<ActionModel, Seq<char>> {
    Ok(ActionModel::Tell((kind, text)))
}

/// What a command that changes something asks for: nothing in consult mode or without a run.
pub open spec fn guarded(s: ReplModel, action: ActionModel) -> Result<ActionModel, Seq<char>> {
    if s.mode == ReplMode::Consult {
        tell(OutcomeKind::Error, "consult mode is read-only"@)
    } else if !s.attached {
        tell(OutcomeKind::Error, "no writing controller is attached"@)
    } else {
        Ok(action)
    }
}

/// What a model command asks for.
pub open spec fn model_action(
    s: ReplModel,
    role: Option<Seq<char>>,
    id: Option<Seq<char>>,
) -> Result<ActionModel, Seq<char>> {
    if s.mode == ReplMode::Consult {
        tell(OutcomeKind::Error, "consult mode is read-only"@)
    } else if !s.attached {
        tell(OutcomeKind::Error, "no writing controller is attached"@)
    } else {
        match (role, id) {
            (_, None) => tell(OutcomeKind::Message, "model selection is manual"@),
            (None, Some(model)) => Ok(ActionModel::SetModel(None, model)),
            (Some(name), Some(model)) => match role_named(name) {
                Some(found) => Ok(ActionModel::SetModel(Some(found), model)),
                None => Err("unknown workflow role "@ + name),
            },
        }
    }
}

/// What a resume command asks for.
pub open spec fn resume_action(s: ReplModel) -> Result<ActionModel, Seq<char>> {
    if s.ambiguous_request {
        if s.mode == ReplMode::Consult {
            tell(
                OutcomeKind::ReadOnly,
                "consult mode: choose retry, switch model, or stop; no request was resent"@,
            )
        } else {
            tell(
                OutcomeKind::Message,
                "the previous request is ambiguous; choose retry, switch model, or stop"@,
            )
        }
    } else if !s.attached {
        tell(
            OutcomeKind::Message,
            "no ambiguous request or durable project checkpoint is pending"@,
        )
    } else if s.mode == ReplMode::Consult {
        tell(
            OutcomeKind::ReadOnly,
            "consult mode: latest checkpoint is available only as read-only status"@,
        )
    } else {
        Ok(ActionModel::Resume)
    }
}

/// What a request to the coordinator asks for: nothing in consult mode or without a run.
pub open spec fn coordinator_action(s: ReplModel, action: ActionModel) -> Result<
    ActionModel,
    Seq<char>,
> {
    if s.mode == ReplMode::Consult {
        tell(OutcomeKind::ReadOnly, "consult mode: coordinator request is read-only"@)
    } else if !s.attached {
        tell(
            OutcomeKind::ReadOnly,
            "no writing controller is attached; request was not executed"@,
        )
    } else {
        Ok(action)
    }
}

/// The help.
pub open spec fn help_text() -> Seq<char> {
    "work commands: /plan /write /review /revise /diff /approve /reject /resolve /model /cost /compact /resume /clean /quit"@
}

/// What a command asks for.
pub open spec fn command_action(s: ReplModel, command: CommandModel) -> Result<
    ActionModel,
    Seq<char>,
> {
    match command {
        CommandModel::Help => tell(OutcomeKind::Message, help_text()),
        CommandModel::Status => tell(
            OutcomeKind::Message,
            "mode: "@ + mode_name(s.mode) + "; history: "@ + decimal(s.history.len()),
        ),
        CommandModel::Mode { mode } => tell(
            OutcomeKind::Message,
            "mode: "@ + mode_name(
                match mode {
                    Some(next) => next,
                    None => s.mode,
                },
            ),
        ),
        CommandModel::Write { .. } => guarded(
            s,
            ActionModel::Tell(
                (OutcomeKind::Coordinator, "use the asynchronous REPL runner for /write"@),
            ),
        ),
        CommandModel::Approve { id } => guarded(s, ActionModel::Approve(id)),
        CommandModel::Reject { id } => guarded(s, ActionModel::Reject(id)),
        CommandModel::Resolve { id, reason } => guarded(s, ActionModel::Resolve(id, reason)),
        CommandModel::Model { role, id } => model_action(s, role, id),
        CommandModel::Cost => if s.attached {
            Ok(ActionModel::Cost)
        } else {
            tell(OutcomeKind::Message, "cost: no controller"@)
        },
        CommandModel::Resume => resume_action(s),
        CommandModel::Clean => if s.mode == ReplMode::Consult {
            tell(OutcomeKind::Error, "consult mode is read-only"@)
        } else {
            tell(
                OutcomeKind::AwaitingConfirmation,
                "clean requires an explicit human confirmation"@,
            )
        },
        CommandModel::Quit => Ok(ActionModel::Tell((OutcomeKind::Quit, Seq::empty()))),
        CommandModel::NaturalLanguage(text) => tell(OutcomeKind::AgentText, text),
        _ => coordinator_action(s, ActionModel::Record(coordinator_text(command)->Some_0)),
    }
}

/// The REPL after a command.
pub open spec fn after_command(s: ReplModel, command: CommandModel) -> ReplModel {
    match command {
        CommandModel::Mode { mode: Some(next) } => ReplModel { mode: next, ..s },
        _ => s,
    }
}

/// What a text that is no command asks for.
pub open spec fn text_action(s: ReplModel, text: Seq<char>) -> ActionModel {
    if s.mode == ReplMode::Work && s.attached {
        ActionModel::Record(text)
    } else {
        ActionModel::Tell((OutcomeKind::AgentText, text))
    }
}

/// What an input asks for, and the REPL after it.
pub open spec fn handled(s: ReplModel, input: Seq<char>) -> (
    ReplModel,
    Result<ActionModel, Seq<char>>,
) {
    let next = remembered(s, input);
    if !is_command(input) {
        (next, Ok(text_action(next, input)))
    } else {
        match command_result(input) {
            Err(error) => (next, Err(error)),
            Ok(command) => (after_command(next, command), command_action(next, command)),
        }
    }
}

/// What an input asks for where models can be asked, and the REPL after it.
pub open spec fn handled_async(s: ReplModel, input: Seq<char>) -> (
    ReplModel,
    Result<ActionModel, Seq<char>>,
) {
    if !is_command(input) {
        if s.mode == ReplMode::Work {
            (
                s,
                Ok(
                    if s.attached {
                        ActionModel::Ask(AgentRole::StoryArchitect, input)
                    } else {
                        ActionModel::Tell((OutcomeKind::AgentText, input))
                    },
                ),
            )
        } else {
            handled(s, input)
        }
    } else {
        match command_result(input) {
            Err(error) => (s, Err(error)),
            Ok(command) => match (command, coordinator_role(command)) {
                (CommandModel::Write { request }, _) => (
                    s,
                    if s.mode == ReplMode::Consult {
                        tell(OutcomeKind::Error, "consult mode is read-only"@)
                    } else {
                        match write_request(request) {
                            Err(error) => Err(error),
                            Ok((chapter, confirmed)) => guarded(
                                s,
                                ActionModel::Write(chapter, confirmed),
                            ),
                        }
                    },
                ),
                (_, Some(role)) => (
                    s,
                    coordinator_action(
                        s,
                        ActionModel::Ask(role, coordinator_text(command)->Some_0),
                    ),
                ),
                (_, None) => handled(s, input),
            },
        }
    }
}

fn parse_role(name: &str) -> (r: Option<AgentRole>)
    ensures
        r == role_named(name@),
{
    if str_eq(name, "architect") || str_eq(name, "story-architect") {
        Some(AgentRole::StoryArchitect)
    } else if str_eq(name, "writer") {
        Some(AgentRole::Writer)
    } else if str_eq(name, "reviser") {
        Some(AgentRole::Reviser)
    } else if str_eq(name, "validator") {
        Some(AgentRole::Validator)
    } else if str_eq(name, "character") || str_eq(name, "character-voice") {
        Some(AgentRole::CharacterVoiceCritic)
    } else if str_eq(name, "canon") || str_eq(name, "canon-critic") {
        Some(AgentRole::CanonCritic)
    } else if str_eq(name, "reader-pull") {
        Some(AgentRole::ReaderPullCritic)
    } else if str_eq(name, "story-editor") {
        Some(AgentRole::StoryEditorCritic)
    } else if str_eq(name, "style") || str_eq(name, "naturalness-style") {
        Some(AgentRole::NaturalnessStyleCritic)
    } else if str_eq(name, "source") || str_eq(name, "source-adherence") {
        Some(AgentRole::SourceAdherenceCritic)
    } else {
        None
    }
}

fn parse_write_request(request: &Option<String>) -> (r: Result<(String, bool), String>)
    ensures
        match write_request(opt_text(*request)) {
            Ok((chapter, confirmed)) => r matches Ok((id, flag)) && id@ == chapter && flag
                == confirmed,
            Err(error) => r is Err && r->Err_0@ == error,
        },
{
    let list = match request {
        Some(text) => split_words(text.as_str()),
        None => split_words("chapter_1"),
    };
    let ghost all = texts(list@);
    let ghost goal = write_request(opt_text(*request));
    let mut chapter: Option<String> = None;
    let mut confirmed = false;
    let mut i: usize = 0;
    while i < list.len()
        invariant
            i <= list@.len(),
            all == texts(list@),
            goal == write_request(opt_text(*request)),
            goal == write_words(all, i as int, opt_text(chapter), confirmed),
        decreases list@.len() - i,
    {
        assert(all[i as int] == list@[i as int]@);
        if str_eq(list[i].as_str(), "--confirm") {
            if confirmed {
                return Err("/write accepts --confirm only once".to_owned());
            }
            confirmed = true;
        } else if chapter.is_some() {
            return Err("/write accepts one chapter ID and optional --confirm".to_owned());
        } else {
            chapter = Some(list[i].clone());
        }
        i += 1;
    }
    let id = match chapter {
        Some(id) => id,
        None => "chapter_1".to_owned(),
    };
    Ok((id, confirmed))
}

fn with_rest(head: &str, rest: &Option<String>) -> (r: String)
    ensures
        r@ == head@ + or_empty(opt_text(*rest)),
{
    match rest {
        Some(text) => concat2(head, text.as_str()),
        None => {
            let text = head.to_owned();
            assert(text@ =~= head@ + Seq::<char>::empty());
            text
        },
    }
}

fn coordinator_request(command: &ReplCommand) -> (r: Option<String>)
    ensures
        opt_text(r) == coordinator_text(command@),
{
    match command {
        ReplCommand::Plan { request } => Some(with_rest("plan ", request)),
        ReplCommand::Review { request } => Some(with_rest("review ", request)),
        ReplCommand::Revise { id } => Some(with_rest("revise ", id)),
        ReplCommand::Diff { id } => Some(with_rest("diff ", id)),
        ReplCommand::Skills => Some("skills".to_owned()),
        ReplCommand::Skill { name } => Some(concat2("skill ", name.as_str())),
        ReplCommand::Compact => Some("compact".to_owned()),
        _ => None,
    }
}

fn role_of(command: &ReplCommand) -> (r: Option<AgentRole>)
    ensures
        r == coordinator_role(command@),
{
    match command {
        ReplCommand::Plan { .. } => Some(AgentRole::StoryArchitect),
        ReplCommand::Review { .. } => Some(AgentRole::CanonCritic),
        ReplCommand::Revise { .. } => Some(AgentRole::Reviser),
        ReplCommand::Diff { .. } => Some(AgentRole::Validator),
        _ => None,
    }
}

/// The view of what an input asks for.
pub open spec fn action_view(r: Result<ReplAction, String>) -> Result<ActionModel, Seq<char>> {
    match r {
        Ok(action) => Ok(action@),
        Err(error) => Err(error@),
    }
}

fn told(outcome: ReplOutcome) -> (r: Result<ReplAction, String>)
    ensures
        action_view(r) == Ok::<ActionModel, Seq<char>>(ActionModel::Tell(outcome@)),
{
    Ok(ReplAction::Tell(outcome))
}

impl Repl {
    /// Starts the REPL in work mode without a run.
    pub fn new() -> (r: Repl)
        ensures
            r@ == (ReplModel {
                mode: ReplMode::Work,
                attached: false,
                history: Seq::empty(),
                ambiguous_request: false,
            }),
    {
        let repl = Repl {
            mode: ReplMode::Work,
            attached: false,
            history: Vec::new(),
            ambiguous_request: false,
        };
        assert(repl@.history =~= Seq::empty());
        repl
    }

    /// Starts the REPL in work mode with a run.
    pub fn with_controller() -> (r: Repl)
        ensures
            r@ == (ReplModel {
                mode: ReplMode::Work,
                attached: true,
                history: Seq::empty(),
                ambiguous_request: false,
            }),
    {
        let mut repl = Repl::new();
        repl.attached = true;
        repl
    }

    /// Returns the mode.
    pub fn mode(&self) -> (r: ReplMode)
        ensures
            r == self@.mode,
    {
        self.mode
    }

    /// Returns the number of inputs in the history.
    pub fn history_len(&self) -> (r: usize)
        ensures
            r == self@.history.len(),
    {
        self.history.len()
    }

    /// Returns whether there is a run.
    pub fn has_controller(&self) -> (r: bool)
        ensures
            r == self@.attached,
    {
        self.attached
    }

    /// Returns whether it is unknown if the last request was carried out.
    pub fn has_ambiguous_request(&self) -> (r: bool)
        ensures
            r == self@.ambiguous_request,
    {
        self.ambiguous_request
    }

    fn remember(&mut self, input: &str)
        ensures
            final(self)@ == remembered(old(self)@, input@),
    {
        let ghost before = texts(self.history@);
        self.history.push(input.to_owned());
        let ghost all = before.push(input@);
        assert(texts(self.history@) =~= all);
        let ghost mut dropped: int = 0;
        assert(all.skip(0) =~= all);
        while self.history.len() > HISTORY_LIMIT
            invariant
                0 <= dropped <= all.len(),
                texts(self.history@) == all.skip(dropped),
                dropped > 0 ==> self.history@.len() >= HISTORY_LIMIT,
                self@ == (ReplModel { history: texts(self.history@), ..old(self)@ }),
            decreases self.history@.len(),
        {
            let ghost now = texts(self.history@);
            let _ = self.history.remove(0);
            proof {
                assert(texts(self.history@) =~= now.skip(1));
                assert(now.skip(1) =~= all.skip(dropped + 1));
                dropped = dropped + 1;
            }
        }
        proof {
            assert(texts(self.history@).len() == all.len() - dropped);
            assert(texts(self.history@) =~= recent(all));
        }
    }

    fn guard(&self, action: ReplAction) -> (r: Result<ReplAction, String>)
        ensures
            action_view(r) == guarded(self@, action@),
    {
        if self.mode == ReplMode::Consult {
            return told(ReplOutcome::Error("consult mode is read-only".to_owned()));
        }
        if !self.attached {
            return told(ReplOutcome::Error("no writing controller is attached".to_owned()));
        }
        Ok(action)
    }

    fn guard_coordinator(&self, action: ReplAction) -> (r: Result<ReplAction, String>)
        ensures
            action_view(r) == coordinator_action(self@, action@),
    {
        if self.mode == ReplMode::Consult {
            return told(
                ReplOutcome::ReadOnly("consult mode: coordinator request is read-only".to_owned()),
            );
        }
        if !self.attached {
            return told(
                ReplOutcome::ReadOnly(
                    "no writing controller is attached; request was not executed".to_owned(),
                ),
            );
        }
        Ok(action)
    }

    fn handle_model(&self, role: Option<String>, id: Option<String>) -> (r: Result<
        ReplAction,
        String,
    >)
        ensures
            action_view(r) == model_action(self@, opt_text(role), opt_text(id)),
    {
        if self.mode == ReplMode::Consult {
            return told(ReplOutcome::Error("consult mode is read-only".to_owned()));
        }
        if !self.attached {
            return told(ReplOutcome::Error("no writing controller is attached".to_owned()));
        }
        match (role, id) {
            (_, None) => told(ReplOutcome::Message("model selection is manual".to_owned())),
            (None, Some(id)) => Ok(ReplAction::SetModel(None, id)),
            (Some(name), Some(id)) => match parse_role(name.as_str()) {
                Some(role) => Ok(ReplAction::SetModel(Some(role), id)),
                None => Err(concat2("unknown workflow role ", name.as_str())),
            },
        }
    }

    fn handle_resume(&self) -> (r: Result<ReplAction, String>)
        ensures
            action_view(r) == resume_action(self@),
    {
        let consult = self.mode == ReplMode::Consult;
        if self.ambiguous_request {
            if consult {
                return told(
                    ReplOutcome::ReadOnly(
                        "consult mode: choose retry, switch model, or stop; no request was resent".to_owned(),
                    ),
                );
            }
            return told(
                ReplOutcome::Message(
                    "the previous request is ambiguous; choose retry, switch model, or stop".to_owned(),
                ),
            );
        }
        if !self.attached {
            return told(
                ReplOutcome::Message(
                    "no ambiguous request or durable project checkpoint is pending".to_owned(),
                ),
            );
        }
        if consult {
            return told(
                ReplOutcome::ReadOnly(
                    "consult mode: latest checkpoint is available only as read-only status".to_owned(),
                ),
            );
        }
        Ok(ReplAction::Resume)
    }

    fn status_message(&self) -> (r: String)
        ensures
            r@ == "mode: "@ + mode_name(self@.mode) + "; history: "@ + decimal(
                self@.history.len(),
            ),
    {
        let mut out = concat3("mode: ", self.mode.name(), "; history: ");
        out.append(size_text(self.history.len()).as_str());
        out
    }

    fn handle_command(&mut self, command: ReplCommand) -> (r: Result<ReplAction, String>)
        ensures
            final(self)@ == after_command(old(self)@, command@),
            action_view(r) == command_action(old(self)@, command@),
    {
        let request = coordinator_request(&command);
        match command {
            ReplCommand::Help => told(
                ReplOutcome::Message(
                    "work commands: /plan /write /review /revise /diff /approve /reject /resolve /model /cost /compact /resume /clean /quit".to_owned(),
                ),
            ),
            ReplCommand::Status => told(ReplOutcome::Message(self.status_message())),
            ReplCommand::Mode { mode } => {
                if let Some(next) = mode {
                    self.mode = next;
                }
                told(ReplOutcome::Message(concat2("mode: ", self.mode.name())))
            },
            ReplCommand::Write { .. } => self.guard(
                ReplAction::Tell(
                    ReplOutcome::Coordinator(
                        "use the asynchronous REPL runner for /write".to_owned(),
                    ),
                ),
            ),
            ReplCommand::Approve { id } => self.guard(ReplAction::Approve(id)),
            ReplCommand::Reject { id } => self.guard(ReplAction::Reject(id)),
            ReplCommand::Resolve { id, reason } => self.guard(ReplAction::Resolve(id, reason)),
            ReplCommand::Model { role, id } => self.handle_model(role, id),
            ReplCommand::Cost => {
                if self.attached {
                    Ok(ReplAction::Cost)
                } else {
                    told(ReplOutcome::Message("cost: no controller".to_owned()))
                }
            },
            ReplCommand::Resume => self.handle_resume(),
            ReplCommand::Clean => {
                if self.mode == ReplMode::Consult {
                    told(ReplOutcome::Error("consult mode is read-only".to_owned()))
                } else {
                    told(
                        ReplOutcome::AwaitingConfirmation(
                            "clean requires an explicit human confirmation".to_owned(),
                        ),
                    )
                }
            },
            ReplCommand::Quit => told(ReplOutcome::Quit),
            ReplCommand::NaturalLanguage(text) => told(ReplOutcome::AgentText(text)),
            _ => match request {
                Some(text) => self.guard_coordinator(ReplAction::Record(text)),
                None => told(ReplOutcome::Continue),
            },
        }
    }

    /// Decides what an input asks for.
    pub fn handle(&mut self, input: &str) -> (r: Result<ReplAction, String>)
        ensures
            (final(self)@, action_view(r)) == handled(old(self)@, input@),
    {
        self.remember(input);
        match route_input(input) {
            Err(error) => Err(error),
            Ok(RoutedInput::AgentText(text)) => {
                if self.mode == ReplMode::Work && self.attached {
                    Ok(ReplAction::Record(text))
                } else {
                    told(ReplOutcome::AgentText(text))
                }
            },
            Ok(RoutedInput::Command(command)) => self.handle_command(command),
        }
    }

    /// Decides what an input asks for where models can be asked.
    pub fn handle_async(&mut self, input: &str) -> (r: Result<ReplAction, String>)
        ensures
            (final(self)@, action_view(r)) == handled_async(old(self)@, input@),
    {
        match route_input(input) {
            Err(error) => Err(error),
            Ok(RoutedInput::AgentText(text)) => {
                if self.mode == ReplMode::Work {
                    if self.attached {
                        Ok(ReplAction::Ask(AgentRole::StoryArchitect, text))
                    } else {
                        told(ReplOutcome::AgentText(text))
                    }
                } else {
                    self.handle(input)
                }
            },
            Ok(RoutedInput::Command(command)) => {
                if let ReplCommand::Write { request } = &command {
                    if self.mode == ReplMode::Consult {
                        return told(ReplOutcome::Error("consult mode is read-only".to_owned()));
                    }
                    return match parse_write_request(request) {
                        Err(error) => Err(error),
                        Ok((chapter, confirmed)) => self.guard(
                            ReplAction::Write(chapter, confirmed),
                        ),
                    };
                }
                match (role_of(&command), coordinator_request(&command)) {
                    (Some(role), Some(text)) => self.guard_coordinator(
                        ReplAction::Ask(role, text),
                    ),
                    _ => self.handle(input),
                }
            },
        }
    }
}

/// Whether an error says that it is unknown if a request was carried out.
pub open spec fn sounds_ambiguous(error: Seq<char>) -> bool {
    has_part(error, "ambiguous"@)
}

impl Repl {
    /// Tells what came of a request to a model.
    pub fn answered(&mut self, result: Result<String, String>) -> (r: ReplOutcome)
        ensures
            match result {
                Ok(text) => r@ == (OutcomeKind::Coordinator, text@) && final(self)@ == old(self)@,
                Err(error) => r@ == (OutcomeKind::Error, error@) && final(self)@ == (ReplModel {
                    ambiguous_request: sounds_ambiguous(error@),
                    ..old(self)@
                }),
            },
    {
        match result {
            Ok(text) => ReplOutcome::Coordinator(text),
            Err(error) => {
                self.ambiguous_request = contains_part(error.as_str(), "ambiguous");
                ReplOutcome::Error(error)
            },
        }
    }

    /// Tells that a chapter was written.
    pub fn chapter_written(&self, chapter: &str, state: ChapterState, changeset_id: &str) -> (r:
        ReplOutcome)
        ensures
            r@ == (
                OutcomeKind::Message,
                "candidate "@ + chapter@ + " is "@ + state_label(state) + "; use /approve "@
                    + changeset_id@ + " after review"@,
            ),
    {
        let mut out = concat3("candidate ", chapter, " is ");
        out.append(state.label());
        out.append("; use /approve ");
        out.append(changeset_id);
        out.append(" after review");
        ReplOutcome::Message(out)
    }

    /// Tells why a chapter was not written.
    pub fn chapter_refused(&mut self, chapter: &str, error: &WriteError) -> (r: ReplOutcome)
        ensures
            match error@ {
                WriteRefusal::Refused(text) => r@ == (OutcomeKind::Error, text) && final(self)@
                    == (ReplModel { ambiguous_request: sounds_ambiguous(text), ..old(self)@ }),
                WriteRefusal::Confirm(_, cost) => r@ == (
                    OutcomeKind::AwaitingConfirmation,
                    "estimated chapter cost exceeds $5; explicit confirmation is required before model request ("@
                        + decimal(cost as nat) + " microdollars)"@ + "; repeat /write "@ + chapter@
                        + " --confirm to continue"@,
                ) && final(self)@ == old(self)@,
            },
    {
        match error {
            WriteError::Refused(text) => {
                self.ambiguous_request = contains_part(text.as_str(), "ambiguous");
                ReplOutcome::Error(text.clone())
            },
            WriteError::Confirm(_) => {
                let mut out = error.to_text();
                out.append("; repeat /write ");
                out.append(chapter);
                out.append(" --confirm to continue");
                ReplOutcome::AwaitingConfirmation(out)
            },
        }
    }
}

/// What is said about an action that succeeded.
pub open spec fn success_text(action: ActionModel) -> Seq<char> {
    match action {
        ActionModel::Approve(id) => "approved "@ + id,
        ActionModel::Reject(id) => "rejected "@ + id,
        ActionModel::Resolve(id, _) => "resolved "@ + id + " as false-positive"@,
        ActionModel::SetModel(_, id) => "model set to "@ + id,
        _ => Seq::empty(),
    }
}

/// Tells what came of an approval, a rejection, a resolution or a choice of model.
pub fn told_result(action: &ReplAction, result: Result<(), String>) -> (r: ReplOutcome)
    ensures
        match result {
            Ok(()) => r@ == (OutcomeKind::Message, success_text(action@)),
            Err(error) => r@ == (OutcomeKind::Error, error@),
        },
{
    match result {
        Err(error) => ReplOutcome::Error(error),
        Ok(()) => {
            let text = match action {
                ReplAction::Approve(id) => concat2("approved ", id.as_str()),
                ReplAction::Reject(id) => concat2("rejected ", id.as_str()),
                ReplAction::Resolve(id, _) => concat3(
                    "resolved ",
                    id.as_str(),
                    " as false-positive",
                ),
                ReplAction::SetModel(_, id) => concat2("model set to ", id.as_str()),
                _ => {
                    let none = String::new();
                    assert(none@ =~= Seq::<char>::empty());
                    none
                },
            };
            ReplOutcome::Message(text)
        },
    }
}

/// Tells what a run has cost.
pub fn cost_message(status: CostStatus) -> (r: String)
    ensures
        r@ == "cost chapter="@ + decimal(status.chapter@ as nat) + " microdollars, run="@
            + decimal(status.run@ as nat) + " microdollars, warning="@ + (if status.warning {
            "true"@
        } else {
            "false"@
        }),
{
    let mut out = concat3(
        "cost chapter=",
        decimal_text(status.chapter.as_u64()).as_str(),
        " microdollars, run=",
    );
    out.append(decimal_text(status.run.as_u64()).as_str());
    out.append(" microdollars, warning=");
    if status.warning {
        out.append("true");
    } else {
        out.append("false");
    }
    out
}

/// Tells about the latest checkpoint.
pub fn resumed(result: Result<Option<Checkpoint>, String>) -> (r: ReplOutcome)
    ensures
        match result {
            Ok(Some(checkpoint)) => r@ == (
                OutcomeKind::Message,
                "latest checkpoint loaded at event offset "@ + decimal(
                    checkpoint.last_event_offset as nat,
                ) + " (cost "@ + decimal(checkpoint.cost@ as nat)
                    + " microdollars); state reconstruction is required before generation, manual resolution is required"@,
            ),
            Ok(None) => r@ == (
                OutcomeKind::Message,
                "no durable project checkpoint is pending"@,
            ),
            Err(error) => r@ == (OutcomeKind::Error, error@),
        },
{
    match result {
        Ok(Some(checkpoint)) => {
            let mut out = concat3(
                "latest checkpoint loaded at event offset ",
                decimal_text(checkpoint.last_event_offset).as_str(),
                " (cost ",
            );
            out.append(decimal_text(checkpoint.cost.as_u64()).as_str());
            out.append(
                " microdollars); state reconstruction is required before generation, manual resolution is required",
            );
            ReplOutcome::Message(out)
        },
        Ok(None) => ReplOutcome::Message("no durable project checkpoint is pending".to_owned()),
        Err(error) => ReplOutcome::Error(error),
    }
}

/// Whether an action is the work of a human alone.
pub open spec fn is_trusted(action: ActionModel) -> bool {
    action is Approve || action is Reject || action is Resolve || action is SetModel
}

/// A text that is no command approves, rejects and resolves nothing, sets no model and starts no
/// chapter.
pub proof fn natural_language_is_not_trusted(s: ReplModel, input: Seq<char>, action: ActionModel)
    requires
        !is_command(input),
        handled(s, input).1 == Ok::<ActionModel, Seq<char>>(action) || handled_async(s, input).1
            == Ok::<ActionModel, Seq<char>>(action),
    ensures
        !is_trusted(action),
        !(action is Write),
{
}

/// In consult mode nothing is changed and no model is asked.
pub proof fn consult_mode_is_read_only(s: ReplModel, input: Seq<char>, action: ActionModel)
    requires
        s.mode == ReplMode::Consult,
        handled(s, input).1 == Ok::<ActionModel, Seq<char>>(action) || handled_async(s, input).1
            == Ok::<ActionModel, Seq<char>>(action),
    ensures
        action is Tell || action is Cost,
{
}

/// The history never holds more than its limit.
pub proof fn history_is_bounded(s: ReplModel, input: Seq<char>)
    ensures
        handled(s, input).0.history.len() <= HISTORY_LIMIT,
        handled(s, input).0.history.last() == input,
{
}

} // verus!
