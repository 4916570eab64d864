//! Command line and REPL grammar.
use vstd::prelude::*;
use vstd::string::StringExecFns;
use crate::text::{concat2, from_chars, join, join_texts, opt_text, split_words, str_eq, texts, to_chars, words};

verus! {

/// What the program was started with.
#[derive(Debug)]
pub struct Cli {
    /// Command, if any.
    pub command: Option<TopLevelCommand>,
    /// Project directory.
    pub project: String,
}

/// A command of the program.
#[derive(Debug)]
pub enum TopLevelCommand {
    /// Creates a project.
    Init {
        /// Project directory.
        path: String,
    },
    /// Runs evaluations.
    Eval {
        /// Project directory.
        project: String,
    },
}

/// A command of the REPL.
#[derive(Debug, PartialEq, Eq)]
pub enum ReplCommand {
    Help,
    Status,
    Mode { mode: Option<ReplMode> },
    Plan { request: Option<String> },
    Write { request: Option<String> },
    Review { request: Option<String> },
    Revise { id: Option<String> },
    Diff { id: Option<String> },
    Approve { id: String },
    Reject { id: String },
    Resolve { id: String, reason: String },
    Model { role: Option<String>, id: Option<String> },
    Cost,
    Compact,
    Resume,
    Skills,
    Skill { name: String },
    Clean,
    Quit,
    NaturalLanguage(String),
}

/// A REPL command by the views of its fields.
pub enum CommandModel {
    Help,
    Status,
    Mode { mode: Option<ReplMode> },
    Plan { request: Option<Seq<char>> },
    Write { request: Option<Seq<char>> },
    Review { request: Option<Seq<char>> },
    Revise { id: Option<Seq<char>> },
    Diff { id: Option<Seq<char>> },
    Approve { id: Seq<char> },
    Reject { id: Seq<char> },
    Resolve { id: Seq<char>, reason: Seq<char> },
    Model { role: Option<Seq<char>>, id: Option<Seq<char>> },
    Cost,
    Compact,
    Resume,
    Skills,
    Skill { name: Seq<char> },
    Clean,
    Quit,
    NaturalLanguage(Seq<char>),
}

impl View for ReplCommand {
    type V = CommandModel;

    open spec fn view(&self) -> CommandModel {
        match self {
            ReplCommand::Help => CommandModel::Help,
            ReplCommand::Status => CommandModel::Status,
            ReplCommand::Mode { mode } => CommandModel::Mode { mode: *mode },
            ReplCommand::Plan { request } => CommandModel::Plan { request: opt_text(*request) },
            ReplCommand::Write { request } => CommandModel::Write { request: opt_text(*request) },
            ReplCommand::Review { request } => CommandModel::Review { request: opt_text(*request) },
            ReplCommand::Revise { id } => CommandModel::Revise { id: opt_text(*id) },
            ReplCommand::Diff { id } => CommandModel::Diff { id: opt_text(*id) },
            ReplCommand::Approve { id } => CommandModel::Approve { id: id@ },
            ReplCommand::Reject { id } => CommandModel::Reject { id: id@ },
            ReplCommand::Resolve { id, reason } => CommandModel::Resolve {
                id: id@,
                reason: reason@,
            },
            ReplCommand::Model { role, id } => CommandModel::Model {
                role: opt_text(*role),
                id: opt_text(*id),
            },
            ReplCommand::Cost => CommandModel::Cost,
            ReplCommand::Compact => CommandModel::Compact,
            ReplCommand::Resume => CommandModel::Resume,
            ReplCommand::Skills => CommandModel::Skills,
            ReplCommand::Skill { name } => CommandModel::Skill { name: name@ },
            ReplCommand::Clean => CommandModel::Clean,
            ReplCommand::Quit => CommandModel::Quit,
            ReplCommand::NaturalLanguage(text) => CommandModel::NaturalLanguage(text@),
        }
    }
}

/// Mode of the REPL.
#[derive(Clone, Copy, Debug, PartialEq, Eq, Structural)]
pub enum ReplMode {
    /// Changes are made.
    Work,
    /// Nothing is changed.
    Consult,
}

/// The name of a mode.
pub open spec fn mode_name(mode: ReplMode) -> Seq<char> {
    match mode {
        ReplMode::Work => "work"@,
        ReplMode::Consult => "consult"@,
    }
}

impl ReplMode {
    /// Returns the name of the mode.
    pub fn name(self) -> (r: &'static str)
        ensures
            r@ == mode_name(self),
    {
        match self {
            ReplMode::Work => "work",
            ReplMode::Consult => "consult",
        }
    }
}

/// A command that takes no arguments.
pub open spec fn bare(rest: Seq<Seq<char>>, command: CommandModel) -> Result<CommandModel, Seq<char>> {
    if rest.len() == 0 {
        Ok(command)
    } else {
        Err("command does not accept arguments"@)
    }
}

/// At most one argument.
pub open spec fn at_most_one(rest: Seq<Seq<char>>) -> Result<Option<Seq<char>>, Seq<char>> {
    if rest.len() == 0 {
        Ok(None)
    } else if rest.len() == 1 {
        Ok(Some(rest[0]))
    } else {
        Err("command accepts at most one ID"@)
    }
}

/// Exactly one argument.
pub open spec fn exactly_one(rest: Seq<Seq<char>>) -> Result<Seq<char>, Seq<char>> {
    match at_most_one(rest) {
        Err(message) => Err(message),
        Ok(None) => Err("changeset ID is required"@),
        Ok(Some(id)) => Ok(id),
    }
}

/// Arguments joined by spaces, where there are some.
pub open spec fn joined_words(rest: Seq<Seq<char>>) -> Option<Seq<char>> {
    if rest.len() == 0 {
        None
    } else {
        Some(join(rest, " "@))
    }
}

/// The command that a name and its arguments denote, or the message about why they denote none.
pub open spec fn named_command(name: Seq<char>, rest: Seq<Seq<char>>) -> Result<
    CommandModel,
    Seq<char>,
> {
    if name == "help"@ {
        bare(rest, CommandModel::Help)
    } else if name == "status"@ {
        bare(rest, CommandModel::Status)
    } else if name == "mode"@ {
        mode_command(rest)
    } else if name == "plan"@ {
        Ok(CommandModel::Plan { request: joined_words(rest) })
    } else if name == "write"@ {
        Ok(CommandModel::Write { request: joined_words(rest) })
    } else if name == "review"@ {
        Ok(CommandModel::Review { request: joined_words(rest) })
    } else if name == "revise"@ {
        match at_most_one(rest) {
            Err(message) => Err(message),
            Ok(id) => Ok(CommandModel::Revise { id }),
        }
    } else if name == "diff"@ {
        match at_most_one(rest) {
            Err(message) => Err(message),
            Ok(id) => Ok(CommandModel::Diff { id }),
        }
    } else if name == "approve"@ {
        match exactly_one(rest) {
            Err(message) => Err(message),
            Ok(id) => Ok(CommandModel::Approve { id }),
        }
    } else if name == "reject"@ {
        match exactly_one(rest) {
            Err(message) => Err(message),
            Ok(id) => Ok(CommandModel::Reject { id }),
        }
    } else if name == "resolve"@ {
        resolve_command(rest)
    } else if name == "model"@ {
        model_command(rest)
    } else if name == "cost"@ {
        bare(rest, CommandModel::Cost)
    } else if name == "compact"@ {
        bare(rest, CommandModel::Compact)
    } else if name == "resume"@ {
        bare(rest, CommandModel::Resume)
    } else if name == "skills"@ {
        bare(rest, CommandModel::Skills)
    } else if name == "clean"@ {
        bare(rest, CommandModel::Clean)
    } else if name == "quit"@ {
        bare(rest, CommandModel::Quit)
    } else {
        Err("unknown REPL command: /"@ + name)
    }
}

/// The command that an input line denotes, or the message about why it denotes none.
pub open spec fn command_result(input: Seq<char>) -> Result<CommandModel, Seq<char>> {
    if input.len() > 0 && input[0] == '/' {
        let list = words(input.skip(1));
        if list.len() == 0 {
            Err("REPL command is required"@)
        } else {
            named_command(list[0], list.skip(1))
        }
    } else if input.len() > 0 && input[0] == '$' {
        let name = input.skip(1);
        if name.len() == 0 || words(name).len() != 1 {
            Err("skill name is required"@)
        } else {
            Ok(CommandModel::Skill { name })
        }
    } else {
        Ok(CommandModel::NaturalLanguage(input))
    }
}

/// A parsed command, by its view.
pub open spec fn command_view(r: Result<ReplCommand, String>) -> Result<CommandModel, Seq<char>> {
    match r {
        Ok(command) => Ok(command@),
        Err(message) => Err(message@),
    }
}

fn no_arguments(rest: &[String], command: ReplCommand) -> (r: Result<ReplCommand, String>)
    ensures
        command_view(r) == bare(texts(rest@), command@),
{
    if rest.len() == 0 {
        Ok(command)
    } else {
        Err("command does not accept arguments".to_owned())
    }
}

fn one_optional(rest: &[String]) -> (r: Result<Option<String>, String>)
    ensures
        at_most_one(texts(rest@)) == (match r {
            Ok(id) => Ok::<Option<Seq<char>>, Seq<char>>(opt_text(id)),
            Err(message) => Err(message@),
        }),
{
    if rest.len() == 0 {
        Ok(None)
    } else if rest.len() == 1 {
        assert(texts(rest@)[0] == rest@[0]@);
        Ok(Some(rest[0].clone()))
    } else {
        Err("command accepts at most one ID".to_owned())
    }
}

fn one_required(rest: &[String]) -> (r: Result<String, String>)
    ensures
        exactly_one(texts(rest@)) == (match r {
            Ok(id) => Ok::<Seq<char>, Seq<char>>(id@),
            Err(message) => Err(message@),
        }),
{
    match one_optional(rest) {
        Err(message) => Err(message),
        Ok(None) => Err("changeset ID is required".to_owned()),
        Ok(Some(id)) => Ok(id),
    }
}

fn join_optional(rest: &[String]) -> (r: Option<String>)
    ensures
        opt_text(r) == joined_words(texts(rest@)),
{
    if rest.len() == 0 {
        None
    } else {
        Some(join_texts(rest, " "))
    }
}

fn tail(list: &[String], from: usize) -> (r: Vec<String>)
    requires
        from <= list@.len(),
    ensures
        texts(r@) == texts(list@).skip(from as int),
        r@.len() == list@.len() - from,
{
    let mut out: Vec<String> = Vec::new();
    let mut i: usize = from;
    while i < list.len()
        invariant
            from <= i <= list@.len(),
            out@.len() == i - from,
            forall|k: int| 0 <= k < out@.len() ==> #[trigger] out@[k]@ == list@[k + from]@,
        decreases list@.len() - i,
    {
        out.push(list[i].clone());
        i += 1;
    }
    assert(texts(out@) =~= texts(list@).skip(from as int));
    out
}

/// The command that shows or sets the mode, or the message about a wrong mode.
pub open spec fn mode_command(rest: Seq<Seq<char>>) -> Result<CommandModel, Seq<char>> {
    match at_most_one(rest) {
        Err(message) => Err(message),
        Ok(None) => Ok(CommandModel::Mode { mode: None }),
        Ok(Some(word)) => if word == "work"@ {
            Ok(CommandModel::Mode { mode: Some(ReplMode::Work) })
        } else if word == "consult"@ {
            Ok(CommandModel::Mode { mode: Some(ReplMode::Consult) })
        } else {
            Err("mode must be work or consult"@)
        },
    }
}

fn parse_mode(rest: &[String]) -> (r: Result<ReplCommand, String>)
    ensures
        command_view(r) == mode_command(texts(rest@)),
{
    match one_optional(rest) {
        Err(message) => Err(message),
        Ok(None) => Ok(ReplCommand::Mode { mode: None }),
        Ok(Some(word)) => {
            if str_eq(word.as_str(), "work") {
                Ok(ReplCommand::Mode { mode: Some(ReplMode::Work) })
            } else if str_eq(word.as_str(), "consult") {
                Ok(ReplCommand::Mode { mode: Some(ReplMode::Consult) })
            } else {
                Err("mode must be work or consult".to_owned())
            }
        },
    }
}

/// The command of a false positive, or the message about what is missing.
pub open spec fn resolve_command(rest: Seq<Seq<char>>) -> Result<CommandModel, Seq<char>> {
    if rest.len() < 2 {
        Err("finding ID, false-positive disposition, and reason are required"@)
    } else if rest[1] != "false-positive"@ || rest.len() == 2 {
        Err("resolve requires: /resolve <finding-id> false-positive <reason>"@)
    } else {
        Ok(CommandModel::Resolve { id: rest[0], reason: join(rest.skip(2), " "@) })
    }
}

fn parse_resolve(rest: &[String]) -> (r: Result<ReplCommand, String>)
    ensures
        command_view(r) == resolve_command(texts(rest@)),
{
    if rest.len() < 2 {
        return Err(
            "finding ID, false-positive disposition, and reason are required".to_owned(),
        );
    }
    assert(texts(rest@)[0] == rest@[0]@ && texts(rest@)[1] == rest@[1]@);
    if !str_eq(rest[1].as_str(), "false-positive") || rest.len() == 2 {
        return Err(
            "resolve requires: /resolve <finding-id> false-positive <reason>".to_owned(),
        );
    }
    let reason = tail(rest, 2);
    Ok(
        ReplCommand::Resolve {
            id: rest[0].clone(),
            reason: join_texts(reason.as_slice(), " "),
        },
    )
}

/// The command that selects a model, or the message about too many arguments.
pub open spec fn model_command(rest: Seq<Seq<char>>) -> Result<CommandModel, Seq<char>> {
    if rest.len() == 0 {
        Ok(CommandModel::Model { role: None, id: None })
    } else if rest.len() == 1 {
        Ok(CommandModel::Model { role: None, id: Some(rest[0]) })
    } else if rest.len() == 2 {
        Ok(CommandModel::Model { role: Some(rest[0]), id: Some(rest[1]) })
    } else {
        Err("model accepts an optional role and model ID"@)
    }
}

fn parse_model(rest: &[String]) -> (r: Result<ReplCommand, String>)
    ensures
        command_view(r) == model_command(texts(rest@)),
{
    if rest.len() == 0 {
        Ok(ReplCommand::Model { role: None, id: None })
    } else if rest.len() == 1 {
        assert(texts(rest@)[0] == rest@[0]@);
        Ok(ReplCommand::Model { role: None, id: Some(rest[0].clone()) })
    } else if rest.len() == 2 {
        assert(texts(rest@)[0] == rest@[0]@ && texts(rest@)[1] == rest@[1]@);
        Ok(ReplCommand::Model { role: Some(rest[0].clone()), id: Some(rest[1].clone()) })
    } else {
        Err("model accepts an optional role and model ID".to_owned())
    }
}

fn parse_named(name: &str, rest: &[String]) -> (r: Result<ReplCommand, String>)
    ensures
        command_view(r) == named_command(name@, texts(rest@)),
{
    if str_eq(name, "help") {
        no_arguments(rest, ReplCommand::Help)
    } else if str_eq(name, "status") {
        no_arguments(rest, ReplCommand::Status)
    } else if str_eq(name, "mode") {
        parse_mode(rest)
    } else if str_eq(name, "plan") {
        Ok(ReplCommand::Plan { request: join_optional(rest) })
    } else if str_eq(name, "write") {
        Ok(ReplCommand::Write { request: join_optional(rest) })
    } else if str_eq(name, "review") {
        Ok(ReplCommand::Review { request: join_optional(rest) })
    } else if str_eq(name, "revise") {
        match one_optional(rest) {
            Err(message) => Err(message),
            Ok(id) => Ok(ReplCommand::Revise { id }),
        }
    } else if str_eq(name, "diff") {
        match one_optional(rest) {
            Err(message) => Err(message),
            Ok(id) => Ok(ReplCommand::Diff { id }),
        }
    } else if str_eq(name, "approve") {
        match one_required(rest) {
            Err(message) => Err(message),
            Ok(id) => Ok(ReplCommand::Approve { id }),
        }
    } else if str_eq(name, "reject") {
        match one_required(rest) {
            Err(message) => Err(message),
            Ok(id) => Ok(ReplCommand::Reject { id }),
        }
    } else if str_eq(name, "resolve") {
        parse_resolve(rest)
    } else if str_eq(name, "model") {
        parse_model(rest)
    } else if str_eq(name, "cost") {
        no_arguments(rest, ReplCommand::Cost)
    } else if str_eq(name, "compact") {
        no_arguments(rest, ReplCommand::Compact)
    } else if str_eq(name, "resume") {
        no_arguments(rest, ReplCommand::Resume)
    } else if str_eq(name, "skills") {
        no_arguments(rest, ReplCommand::Skills)
    } else if str_eq(name, "clean") {
        no_arguments(rest, ReplCommand::Clean)
    } else if str_eq(name, "quit") {
        no_arguments(rest, ReplCommand::Quit)
    } else {
        Err(concat2("unknown REPL command: /", name))
    }
}

/// Parses an input line: `/` starts a command, `$` names a skill, and anything else is natural
/// language.
pub fn parse_repl_command(input: &str) -> (r: Result<ReplCommand, String>)
    ensures
        command_view(r) == command_result(input@),
{
    let chars = to_chars(input);
    let n: usize = chars.len();
    if n == 0 || (chars[0] != '/' && chars[0] != '$') {
        return Ok(ReplCommand::NaturalLanguage(input.to_owned()));
    }
    let rest = from_chars(chars.as_slice(), 1, n);
    assert(rest@ =~= input@.skip(1));
    let list = split_words(rest.as_str());
    assert(texts(list@).len() == list@.len());
    if chars[0] == '$' {
        if n == 1 || list.len() != 1 {
            return Err("skill name is required".to_owned());
        }
        return Ok(ReplCommand::Skill { name: rest });
    }
    if list.len() == 0 {
        return Err("REPL command is required".to_owned());
    }
    assert(texts(list@)[0] == list@[0]@);
    let arguments = tail(list.as_slice(), 1);
    parse_named(list[0].as_str(), arguments.as_slice())
}

/// Natural language never denotes a command: only lines that start with `/` or `$` do.
pub proof fn natural_language_is_no_command(input: Seq<char>)
    requires
        input.len() == 0 || (input[0] != '/' && input[0] != '$'),
    ensures
        command_result(input) == Ok::<CommandModel, Seq<char>>(
            CommandModel::NaturalLanguage(input),
        ),
{
}

/// What the program does when it starts.
#[derive(Debug)]
pub enum Startup {
    /// A project is created in a directory, under a title that is asked for.
    Initialize(String),
    /// The REPL runs on a project.
    Interactive(String),
    /// The evaluation in a directory runs.
    Evaluate(String),
}

impl Cli {
    /// Decides what the program does when it starts.
    pub fn startup(self) -> (r: Startup)
        ensures
            match (self.command, r) {
                (Some(TopLevelCommand::Init { path }), Startup::Initialize(directory)) => directory@
                    == path@,
                (Some(TopLevelCommand::Eval { project }), Startup::Evaluate(directory)) =>
                    directory@ == project@,
                (None, Startup::Interactive(directory)) => directory@ == self.project@,
                _ => false,
            },
    {
        match self.command {
            Some(TopLevelCommand::Init { path }) => Startup::Initialize(path),
            Some(TopLevelCommand::Eval { project }) => Startup::Evaluate(project),
            None => Startup::Interactive(self.project),
        }
    }
}

} // verus!
