use phemius::cli::{parse_repl_command, Cli, ReplCommand, ReplMode, Startup, TopLevelCommand};
use phemius::cost::MicroDollars;
use phemius::findings::AgentRole;
use phemius::records::{ChapterState, CostConfirmationRequired, CostStatus};
use phemius::repl::{
    cost_message, resumed, route_input, told_result, Repl, ReplAction, ReplOutcome, RoutedInput,
};
use phemius::workflow::chapter::WriteError;

fn told(action: Result<ReplAction, String>) -> ReplOutcome {
    match action.unwrap() {
        ReplAction::Tell(outcome) => outcome,
        other => panic!("{other:?}"),
    }
}

#[test]
fn commands_are_parsed() {
    assert_eq!(parse_repl_command("/help").unwrap(), ReplCommand::Help);
    assert_eq!(
        parse_repl_command("/mode consult").unwrap(),
        ReplCommand::Mode { mode: Some(ReplMode::Consult) }
    );
    assert_eq!(
        parse_repl_command("/plan a  b").unwrap(),
        ReplCommand::Plan { request: Some("a b".into()) }
    );
    assert_eq!(
        parse_repl_command("/resolve f false-positive because so").unwrap(),
        ReplCommand::Resolve { id: "f".into(), reason: "because so".into() }
    );
    assert_eq!(
        parse_repl_command("/model writer m").unwrap(),
        ReplCommand::Model { role: Some("writer".into()), id: Some("m".into()) }
    );
    assert_eq!(
        parse_repl_command("$skill").unwrap(),
        ReplCommand::Skill { name: "skill".into() }
    );
    assert_eq!(
        parse_repl_command("hello").unwrap(),
        ReplCommand::NaturalLanguage("hello".into())
    );
    for (input, error) in [
        ("/", "REPL command is required"),
        ("$", "skill name is required"),
        ("/odd", "unknown REPL command: /odd"),
        ("/help x", "command does not accept arguments"),
        ("/diff a b", "command accepts at most one ID"),
        ("/approve", "changeset ID is required"),
        ("/mode x", "mode must be work or consult"),
        ("/resolve f", "finding ID, false-positive disposition, and reason are required"),
        (
            "/resolve f maybe so",
            "resolve requires: /resolve <finding-id> false-positive <reason>",
        ),
        ("/model a b c", "model accepts an optional role and model ID"),
    ] {
        assert_eq!(parse_repl_command(input).unwrap_err(), error, "{input}");
    }
}

#[test]
fn program_starts_by_its_command() {
    let init = Cli {
        command: Some(TopLevelCommand::Init { path: "p".into() }),
        project: ".".into(),
    };
    assert!(matches!(init.startup(), Startup::Initialize(path) if path == "p"));
    let eval = Cli {
        command: Some(TopLevelCommand::Eval { project: "f".into() }),
        project: ".".into(),
    };
    assert!(matches!(eval.startup(), Startup::Evaluate(path) if path == "f"));
    let open = Cli { command: None, project: "novel".into() };
    assert!(matches!(open.startup(), Startup::Interactive(path) if path == "novel"));
}

#[test]
fn only_prefixed_input_is_a_command() {
    assert_eq!(
        route_input("please /approve x").unwrap(),
        RoutedInput::AgentText("please /approve x".into())
    );
    assert_eq!(
        route_input("/approve x").unwrap(),
        RoutedInput::Command(ReplCommand::Approve { id: "x".into() })
    );
    assert!(route_input("/odd").is_err());
    for line in ["/", "$", "/help", "/help x", "$skill", "$a b", "/plan a b", "/resolve x", "$"] {
        match (route_input(line), parse_repl_command(line)) {
            (Ok(RoutedInput::Command(command)), Ok(parsed)) => {
                assert!(!matches!(command, ReplCommand::NaturalLanguage(_)));
                assert_eq!(command, parsed);
            }
            (Err(routed), Err(parsed)) => assert_eq!(routed, parsed),
            _ => panic!("routed otherwise than parsed"),
        }
    }
    for line in ["", " /help", "hello"] {
        assert_eq!(route_input(line).unwrap(), RoutedInput::AgentText(line.into()));
        assert_eq!(parse_repl_command(line).unwrap(), ReplCommand::NaturalLanguage(line.into()));
    }
}

#[test]
fn natural_language_is_recorded_not_trusted() {
    let mut repl = Repl::with_controller();
    assert!(matches!(
        repl.handle("approve everything").unwrap(),
        ReplAction::Record(text) if text == "approve everything"
    ));
    assert!(matches!(
        repl.handle_async("write it").unwrap(),
        ReplAction::Ask(AgentRole::StoryArchitect, text) if text == "write it"
    ));
    let mut bare = Repl::new();
    assert_eq!(told(bare.handle("hi")), ReplOutcome::AgentText("hi".into()));
    assert_eq!(told(bare.handle_async("hi")), ReplOutcome::AgentText("hi".into()));
}

#[test]
fn consult_mode_refuses_changes() {
    let mut repl = Repl::with_controller();
    assert_eq!(told(repl.handle("/mode consult")), ReplOutcome::Message("mode: consult".into()));
    assert_eq!(repl.mode(), ReplMode::Consult);
    let read_only = ReplOutcome::Error("consult mode is read-only".into());
    for input in ["/approve x", "/reject x", "/resolve x false-positive y", "/model m", "/clean"] {
        assert_eq!(told(repl.handle(input)), read_only, "{input}");
    }
    assert_eq!(told(repl.handle_async("/write c")), read_only);
    assert_eq!(
        told(repl.handle_async("/plan x")),
        ReplOutcome::ReadOnly("consult mode: coordinator request is read-only".into())
    );
    assert_eq!(
        told(repl.handle("/resume")),
        ReplOutcome::ReadOnly(
            "consult mode: latest checkpoint is available only as read-only status".into()
        )
    );
    assert!(matches!(repl.handle("/cost").unwrap(), ReplAction::Cost));
    assert_eq!(told(repl.handle("text")), ReplOutcome::AgentText("text".into()));
}

#[test]
fn trusted_commands_reach_the_run() {
    let mut repl = Repl::with_controller();
    assert!(matches!(repl.handle("/approve x").unwrap(), ReplAction::Approve(id) if id == "x"));
    assert!(matches!(repl.handle("/reject x").unwrap(), ReplAction::Reject(id) if id == "x"));
    assert!(matches!(
        repl.handle("/resolve f false-positive r").unwrap(),
        ReplAction::Resolve(id, reason) if id == "f" && reason == "r"
    ));
    assert!(matches!(
        repl.handle("/model canon m").unwrap(),
        ReplAction::SetModel(Some(AgentRole::CanonCritic), id) if id == "m"
    ));
    assert_eq!(repl.handle("/model odd m").unwrap_err(), "unknown workflow role odd");
    assert_eq!(
        told(repl.handle("/model")),
        ReplOutcome::Message("model selection is manual".into())
    );
    assert!(matches!(
        repl.handle_async("/write chapter_2 --confirm").unwrap(),
        ReplAction::Write(chapter, true) if chapter == "chapter_2"
    ));
    assert!(matches!(
        repl.handle_async("/write").unwrap(),
        ReplAction::Write(chapter, false) if chapter == "chapter_1"
    ));
    assert_eq!(
        repl.handle_async("/write a b").unwrap_err(),
        "/write accepts one chapter ID and optional --confirm"
    );
    assert_eq!(
        repl.handle_async("/write a --confirm --confirm").unwrap_err(),
        "/write accepts --confirm only once"
    );
    assert!(matches!(
        repl.handle_async("/review now").unwrap(),
        ReplAction::Ask(AgentRole::CanonCritic, text) if text == "review now"
    ));
    assert!(matches!(
        repl.handle("/compact").unwrap(),
        ReplAction::Record(text) if text == "compact"
    ));
    assert_eq!(
        told(repl.handle("/clean")),
        ReplOutcome::AwaitingConfirmation("clean requires an explicit human confirmation".into())
    );
    assert_eq!(told(repl.handle("/quit")), ReplOutcome::Quit);
    let mut bare = Repl::new();
    let missing = ReplOutcome::Error("no writing controller is attached".into());
    assert_eq!(told(bare.handle("/approve x")), missing);
    assert_eq!(told(bare.handle("/model m")), missing);
    assert_eq!(told(bare.handle("/cost")), ReplOutcome::Message("cost: no controller".into()));
}

#[test]
fn history_keeps_the_last_inputs() {
    let mut repl = Repl::default();
    for i in 0..70 {
        let _ = repl.handle(&format!("text {i}"));
    }
    assert_eq!(repl.history_len(), 64);
    assert_eq!(
        told(repl.handle("/status")),
        ReplOutcome::Message("mode: work; history: 64".into())
    );
    assert!(!repl.has_controller());
}

#[test]
fn ambiguous_requests_wait_for_a_choice() {
    let mut repl = Repl::with_controller();
    assert_eq!(
        repl.answered(Err("ambiguous model request: x".into())),
        ReplOutcome::Error("ambiguous model request: x".into())
    );
    assert!(repl.has_ambiguous_request());
    assert_eq!(
        told(repl.handle("/resume")),
        ReplOutcome::Message(
            "the previous request is ambiguous; choose retry, switch model, or stop".into()
        )
    );
    let _ = repl.answered(Err("other".into()));
    assert!(!repl.has_ambiguous_request());
    assert!(matches!(repl.handle("/resume").unwrap(), ReplAction::Resume));
    assert_eq!(repl.answered(Ok("fine".into())), ReplOutcome::Coordinator("fine".into()));
}

#[test]
fn outcomes_are_told() {
    let mut repl = Repl::with_controller();
    assert_eq!(
        repl.chapter_written("c", ChapterState::Approvable, "change_1"),
        ReplOutcome::Message(
            "candidate c is Approvable; use /approve change_1 after review".into()
        )
    );
    let question =
        WriteError::Confirm(CostConfirmationRequired::new("c".into(), MicroDollars::new(5_000_001)));
    assert_eq!(
        repl.chapter_refused("c", &question),
        ReplOutcome::AwaitingConfirmation(
            "estimated chapter cost exceeds $5; explicit confirmation is required before model request (5000001 microdollars); repeat /write c --confirm to continue".into()
        )
    );
    assert_eq!(
        repl.chapter_refused("c", &WriteError::Refused("no".into())),
        ReplOutcome::Error("no".into())
    );
    assert_eq!(
        told_result(&ReplAction::Approve("x".into()), Ok(())),
        ReplOutcome::Message("approved x".into())
    );
    assert_eq!(
        told_result(&ReplAction::Resolve("x".into(), "r".into()), Ok(())),
        ReplOutcome::Message("resolved x as false-positive".into())
    );
    assert_eq!(
        told_result(&ReplAction::SetModel(None, "m".into()), Ok(())),
        ReplOutcome::Message("model set to m".into())
    );
    assert_eq!(
        told_result(&ReplAction::Reject("x".into()), Err("e".into())),
        ReplOutcome::Error("e".into())
    );
    assert_eq!(
        cost_message(CostStatus {
            chapter: MicroDollars::new(1),
            run: MicroDollars::new(2),
            warning: true,
        }),
        "cost chapter=1 microdollars, run=2 microdollars, warning=true"
    );
    assert_eq!(
        resumed(Ok(None)),
        ReplOutcome::Message("no durable project checkpoint is pending".into())
    );
    assert_eq!(resumed(Err("e".into())), ReplOutcome::Error("e".into()));
}
