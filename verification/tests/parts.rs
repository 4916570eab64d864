use phemius::context::ByteRange;
use phemius::copytext::NormalizedText;
use phemius::copycheck::{
    scan_near_copy, AllowedSource, CopyPolicy, CopyRule, CopyScanError,
};
use phemius::cost::{split_ledger, BudgetLedger, LedgerEvent, MicroDollars, Price, Usage};
use phemius::domain::{prefixed_uuid, EntityId, EntityKind};
use phemius::eval::{
    calibrate_judge, evaluate_answers, evaluate_trial, prepare_trial, report_trials,
    EvalExpectation, EvalReport, EvalStatus, EvalTask, Grader, JudgeShare, Outcome,
};
use phemius::hash::{sha256_bytes, sha256_text};
use phemius::plot::{
    builtin_framework, framework_frontmatter, is_builtin_framework, validate_framework,
    validate_structure, FrameworkBeat, FrameworkDefinition, FrameworkStage, MacroBeat, StoryBox,
    StoryChapter, StoryPart, StoryScene, StoryStructure,
};
use phemius::sandbox::{
    run_shell, seatbelt_profile, time_limit_exceeded, ApprovalMode, ChoiceReason, SandboxMode,
    ShellCapture, ShellError, ShellFacts, ShellRequest,
};
use phemius::session::{
    scan_journal, Checkpoint, CheckpointError, CompactionDecision, SessionEvent, SessionJournal,
    TestCheckpointInterruption,
};
use phemius::skills::{
    check_resource, instruction_name, load_hierarchical_instructions, load_instruction,
    read_metadata, validate_relative, SkillCatalog, SkillFile,
};
use phemius::tools::{
    git_arguments, git_environment, search_text, validate_candidate_content, AgentRole, GitQuery, Tool,
    ToolExecutor,
};
use phemius::value::parse_json;

#[test]
fn prices_round_up() {
    let price = Price::parse_per_million("$1.5", "2").unwrap();
    assert_eq!(price.input_per_million.as_u64(), 1_500_000);
    assert_eq!(price.output_per_million.as_u64(), 2_000_000);
    assert_eq!(price.cost_for(Usage::new(1, 1)).unwrap().as_u64(), 4);
    assert_eq!(price.cost_for(Usage::new(1_000_000, 0)).unwrap().as_u64(), 1_500_000);
    let small = Price {
        input_per_million: MicroDollars::new(1),
        output_per_million: MicroDollars::new(1),
    };
    assert_eq!(small.cost_for(Usage::new(0, 0)).unwrap().as_u64(), 0);
    assert_eq!(small.cost_for(Usage::new(1, 1)).unwrap().as_u64(), 1);
    assert_eq!(small.cost_for(Usage::new(500_000, 500_000)).unwrap().as_u64(), 1);
    assert_eq!(small.cost_for(Usage::new(500_000, 500_001)).unwrap().as_u64(), 2);
    let dear = Price {
        input_per_million: MicroDollars::new(u64::MAX),
        output_per_million: MicroDollars::new(u64::MAX),
    };
    assert_eq!(dear.cost_for(Usage::new(1_000_000, 0)).unwrap().as_u64(), u64::MAX);
    assert_eq!(
        dear.cost_for(Usage::new(1_000_000, 1)).unwrap_err(),
        "cost arithmetic overflow"
    );
    assert_eq!(
        dear.cost_for(Usage::new(u64::MAX, u64::MAX)).unwrap_err(),
        "cost arithmetic overflow"
    );
    assert_eq!(
        Price::parse_per_million("0.0000001", "0").unwrap().input_per_million.as_u64(),
        1
    );
    assert_eq!(
        Price::parse_per_million("x", "1").unwrap_err(),
        "price must be a non-negative decimal"
    );
    assert_eq!(
        Price::parse_per_million("99999999999999999999", "1").unwrap_err(),
        "price is too large"
    );
    assert_eq!(
        price.cost_for(Usage::new(u64::MAX, 0)).unwrap_err(),
        "cost arithmetic overflow"
    );
}

#[test]
fn settlements_count_the_actual_cost() {
    let mut ledger = BudgetLedger::new(MicroDollars::zero(), MicroDollars::zero());
    let first = ledger.reserve("c", MicroDollars::new(900)).unwrap();
    let other = ledger.reserve("d", MicroDollars::new(50)).unwrap();
    assert!(ledger.settle(&first.request_id, MicroDollars::new(901)).is_err());
    assert_eq!(ledger.totals("c").unwrap().0.as_u64(), 900);
    ledger.settle(&other.request_id, MicroDollars::new(50)).unwrap();
    ledger.settle(&first.request_id, MicroDollars::new(200)).unwrap();
    assert_eq!(ledger.totals("c").unwrap().0.as_u64(), 200);
    assert_eq!(ledger.totals("d").unwrap().0.as_u64(), 50);
    assert_eq!(ledger.totals("c").unwrap().1.as_u64(), 250);
    let later = ledger.reserve("c", MicroDollars::new(1)).unwrap();
    ledger.settle(&later.request_id, MicroDollars::zero()).unwrap();
    for cost in [0, 200, 900] {
        assert_eq!(
            ledger.settle(&first.request_id, MicroDollars::new(cost)).unwrap_err(),
            "reservation is already settled"
        );
    }
    let mut fresh = BudgetLedger::new(MicroDollars::zero(), MicroDollars::zero());
    assert_eq!(
        fresh.settle(&first.request_id, MicroDollars::zero()).unwrap_err(),
        "reservation is unknown"
    );
}

#[test]
fn ledger_holds_money_back() {
    let mut ledger = BudgetLedger::new(MicroDollars::zero(), MicroDollars::zero());
    let first = ledger.reserve("c", MicroDollars::new(6_000_000)).unwrap();
    assert!(first.warning_required);
    assert_eq!(
        ledger.reserve("c", MicroDollars::new(4_000_001)).unwrap_err(),
        "chapter budget would exceed $10"
    );
    let second = ledger.reserve("c", MicroDollars::new(4_000_000)).unwrap();
    assert!(!second.warning_required);
    ledger.cancel(&second);
    assert_eq!(ledger.totals("c").unwrap().0.as_u64(), 6_000_000);
    assert_eq!(
        ledger.settle(&first.request_id, MicroDollars::new(6_000_001)).unwrap_err(),
        "cost settlement exceeds its reservation"
    );
    ledger.settle(&first.request_id, MicroDollars::new(1)).unwrap();
    assert_eq!(ledger.totals("c").unwrap().1.as_u64(), 1);
    assert_eq!(
        ledger.settle(&first.request_id, MicroDollars::new(1)).unwrap_err(),
        "reservation is already settled"
    );
    assert!(ledger.retain_ambiguous(&first).is_ok());
    assert_eq!(ledger.retain_ambiguous(&second).unwrap_err(), "reservation is unknown");
    assert_eq!(
        ledger.reserve("", MicroDollars::new(1)).unwrap_err(),
        "chapter ID is required"
    );
    let mut full = BudgetLedger::new(MicroDollars::zero(), MicroDollars::new(120_000_000));
    assert_eq!(
        full.reserve("c", MicroDollars::new(1)).unwrap_err(),
        "run budget would exceed $120"
    );
    assert_eq!(
        full.reserve_with_persist_failure_for_test("d", MicroDollars::new(0)).unwrap_err(),
        "simulated cost ledger persistence failure"
    );
}

#[test]
fn ledger_replays_its_lines() {
    let mut ledger = BudgetLedger::new(MicroDollars::zero(), MicroDollars::zero());
    let held = ledger.reserve("c", MicroDollars::new(7)).unwrap();
    let line = LedgerEvent::Reserved { reservation: held.copy() }.to_line();
    assert_eq!(
        line,
        format!(
            "{{\"event\":\"reserved\",\"reservation\":{{\"request_id\":\"{}\",\"chapter_id\":\"c\",\"reserved_cost\":7,\"warning_required\":false}}}}\n",
            held.request_id.as_str()
        )
    );
    assert_eq!(split_ledger(line.as_bytes()).unwrap().len(), 1);
    assert_eq!(
        split_ledger(b"{}\n{").unwrap_err(),
        "cost ledger has a truncated final event"
    );
    let mut again = BudgetLedger::new(MicroDollars::zero(), MicroDollars::zero());
    again.apply(LedgerEvent::Reserved { reservation: held.copy() }).unwrap();
    assert_eq!(
        again.apply(LedgerEvent::Reserved { reservation: held.copy() }).unwrap_err(),
        "duplicate reservation event"
    );
    again
        .apply(LedgerEvent::Settled {
            request_id: held.request_id.copy(),
            actual_cost: MicroDollars::new(3),
        })
        .unwrap();
    assert_eq!(again.totals("c").unwrap().0.as_u64(), 3);
    let unknown = LedgerEvent::Settled {
        request_id: prefixed_uuid(EntityKind::Request),
        actual_cost: MicroDollars::new(3),
    };
    assert_eq!(again.apply(unknown).unwrap_err(), "reservation is unknown");
}

#[test]
fn session_events_are_lines_of_json() {
    let id = EntityId::from_stored("request_1".into());
    assert_eq!(
        SessionEvent::UserInstruction { text: "a\"b\n".into() }.to_json(),
        "{\"event\":\"user-instruction\",\"text\":\"a\\\"b\\n\"}"
    );
    assert_eq!(
        SessionEvent::ModelCallCompleted { request_id: id.copy(), usage: Usage::new(1, 2) }
            .to_json(),
        "{\"event\":\"model-call-completed\",\"request_id\":\"request_1\",\"usage\":{\"input_tokens\":1,\"output_tokens\":2}}"
    );
    assert_eq!(
        SessionEvent::ModelCallAmbiguous { request_id: id, reserved_cost: MicroDollars::new(9) }
            .to_json(),
        "{\"event\":\"model-call-ambiguous\",\"request_id\":\"request_1\",\"reserved_cost\":9}"
    );
}

fn checkpoint(journal: &SessionJournal) -> Result<Checkpoint, String> {
    Checkpoint::from_journal(
        journal,
        Vec::new(),
        vec!["f".into()],
        Vec::new(),
        Vec::new(),
        Vec::new(),
        Vec::new(),
        MicroDollars::new(5),
    )
}

#[test]
fn checkpoints_are_anchored_at_the_last_event() {
    let event = SessionEvent::UserInstruction { text: "x".into() };
    let line = event.to_json();
    let file = format!("{line}\n{line}\n{{\"half");
    let scan = scan_journal(file.as_bytes());
    assert_eq!(scan.lines.len(), 2);
    assert_eq!(scan.complete_len, 2 * (line.len() + 1));
    assert_eq!(scan.last_event(), Some((line.len() as u64 + 1, sha256_text(&line))));
    let mut journal = SessionJournal::create("s.jsonl".into());
    assert!(checkpoint(&journal).is_err());
    journal.append(event, line.len() as u64 + 1);
    assert_eq!(journal.events().len(), 1);
    assert_eq!(journal.path(), "s.jsonl");
    let point = checkpoint(&journal).unwrap();
    let text = journal.write_checkpoint(&scan, &point).unwrap();
    assert_eq!(
        text,
        format!(
            "{{\"last_event_offset\":{},\"last_event_sha256\":\"{}\",\"context_epochs\":[],\"recent_raw_tail_tokens\":15000,\"canon_fact_hashes\":[\"f\"],\"source_hashes\":[],\"correction_ids\":[],\"blocker_ids\":[],\"stale_changeset_ids\":[],\"cost\":5}}",
            line.len() + 1,
            sha256_text(&line)
        )
    );
    match journal.write_checkpoint_with_test_interruption(
        &scan,
        "c.json",
        &point,
        TestCheckpointInterruption::AfterRenameBeforeDirectorySync,
    ) {
        CheckpointError::DurabilityUnknown(unknown) => {
            assert_eq!(unknown.checkpoint_path(), "c.json");
            assert_eq!(
                unknown.to_text(),
                "checkpoint c.json was renamed but directory durability is unknown: simulated checkpoint directory sync failure"
            );
        }
        CheckpointError::Refused(message) => panic!("{message}"),
    }
    let shorter = scan_journal(format!("{line}\n").as_bytes());
    assert_eq!(
        journal.write_checkpoint(&shorter, &point).unwrap_err(),
        "checkpoint does not match the current session journal"
    );
    assert_eq!(
        journal.read_checkpoint(&scan_journal(b""), point).unwrap_err(),
        "checkpoint exists for an empty session journal"
    );
    let restored = SessionJournal::open("s.jsonl".into(), &scan, Vec::new());
    assert_eq!(restored.last_event().unwrap().0, line.len() as u64 + 1);
}

#[test]
fn compaction_keeps_room_for_the_answer() {
    assert!(!CompactionDecision::for_usage(80_000, 100_000, 1).required);
    assert!(CompactionDecision::for_usage(80_001, 100_000, 1).required);
    assert!(CompactionDecision::for_usage(0, 10_000, 1).required);
    assert!(CompactionDecision::for_usage(60_000, 100_000, 50_000).required);
    assert_eq!(CompactionDecision::for_usage(0, 0, 0).preserve_recent_tokens, 15_000);
}

#[test]
fn tools_are_bounded() {
    assert_eq!(Tool::all().len(), 9);
    assert!(!Tool::for_role(AgentRole::StyleCritic).contains(&Tool::Shell));
    assert!(Tool::all().iter().all(|tool| tool.name() != "approve"));
    assert_eq!(git_arguments(GitQuery::Diff), vec!["diff", "--no-ext-diff"]);
    let mut tools = ToolExecutor::new();
    let long = "x".repeat(50_000);
    let result = tools.store(long.clone().into_bytes()).unwrap();
    assert!(result.truncated);
    assert_eq!(result.total_bytes, 50_000);
    assert_eq!(result.sha256, sha256_text(&long));
    assert!(result.visible.len() <= 40_000);
    let part = tools.read_artifact_range(&result.sha256, 1, 4).unwrap();
    assert_eq!(part.visible, "xxx");
    assert_eq!(
        tools.read_artifact_range("none", 0, 0).unwrap_err(),
        "unknown artifact"
    );
    assert_eq!(
        tools.read_artifact_range(&result.sha256, 4, 1).unwrap_err(),
        "invalid artifact range"
    );
    tools.protect_artifact(&result.sha256).unwrap();
    tools.release_artifact(&result.sha256).unwrap();
    assert_eq!(
        tools.release_artifact(&result.sha256).unwrap_err(),
        "artifact is not protected"
    );
    let mut calls = ToolExecutor::new();
    for _ in 0..64 {
        calls.begin_call().unwrap();
    }
    assert_eq!(calls.begin_call().unwrap_err(), "tool invocation exceeds 64 calls");
    assert!(validate_candidate_content(b"x").is_ok());
    assert_eq!(phemius::tools::validate_relative("/x").unwrap_err(), "tool paths must be relative");
    assert_eq!(
        phemius::tools::validate_relative("a/../b").unwrap_err(),
        "unsafe tool path: a/../b"
    );
    assert_eq!(search_text("p", "one\ntwo\ntone", "one"), vec!["p:1:one", "p:3:tone"]);
}

fn story() -> StoryStructure {
    let id = |kind| prefixed_uuid(kind).as_str().to_string();
    let (part, chapter, scene) =
        (id(EntityKind::Part), id(EntityKind::Chapter), id(EntityKind::Scene));
    StoryStructure {
        parts: vec![StoryPart::new(part.clone(), 1)],
        chapters: vec![StoryChapter::new(chapter.clone(), part, 1)],
        scenes: vec![StoryScene::new(scene.clone(), chapter, 1)],
        boxes: vec![StoryBox::new(id(EntityKind::Box), scene.clone(), 1)],
        macro_beats: vec![MacroBeat::new("beat".into(), 1, vec![scene])],
    }
}

#[test]
fn structures_are_connected() {
    assert!(validate_structure(&story()).is_ok());
    let mut lost = story();
    lost.scenes[0].chapter_id = prefixed_uuid(EntityKind::Chapter).as_str().into();
    assert!(validate_structure(&lost).is_err());
    let mut twice = story();
    let copy = twice.chapters[0].clone();
    twice.chapters.push(copy);
    assert!(validate_structure(&twice).is_err());
    let mut wrong = story();
    wrong.parts[0].id = "part_x".into();
    assert!(validate_structure(&wrong).is_err());
}

#[test]
fn frameworks_have_stages_and_beats() {
    let framework = FrameworkDefinition {
        id: "three-act".into(),
        name: "Three acts".into(),
        stages: vec![FrameworkStage { id: "s".into(), name: "S".into(), order: 1 }],
        beats: vec![FrameworkBeat {
            id: "b".into(),
            name: "B".into(),
            stage_id: "s".into(),
            order: 1,
        }],
    };
    assert!(validate_framework(&framework).is_ok());
    assert!(is_builtin_framework("hakogaki"));
    assert!(!is_builtin_framework("other"));
    assert!(builtin_framework("three-act", Some(framework.clone())).is_some());
    assert!(builtin_framework("other", Some(framework.clone())).is_none());
    let mut broken = framework.clone();
    broken.beats[0].stage_id = "t".into();
    assert!(validate_framework(&broken).is_err());
    let mut unnamed = framework;
    unnamed.id = " ".into();
    assert_eq!(validate_framework(&unnamed).unwrap_err(), "framework ID is required");
    assert_eq!(framework_frontmatter("---\na: 1\n---\nx").unwrap(), "a: 1");
    assert_eq!(
        framework_frontmatter("a").unwrap_err(),
        "framework must use YAML frontmatter"
    );
}

fn expectation() -> EvalExpectation {
    EvalExpectation {
        required_response: None,
        forbidden_responses: Vec::new(),
        min_response_chars: None,
        max_response_chars: None,
        max_tool_calls: None,
        required_tool_calls: Vec::new(),
    }
}

fn failed(reason: &str) -> Outcome {
    Outcome::failure(reason.into())
}

#[test]
fn trials_are_evaluated() {
    let answers = "{\"responses\":[{\"text\":\"hello\",\"tool_calls\":[{\"name\":\"a\"},{\"function\":{\"name\":\"b\"}}]}]}";
    let json = parse_json(answers).unwrap();
    let run = |change: &dyn Fn(&mut EvalExpectation)| {
        let mut expected = expectation();
        change(&mut expected);
        evaluate_answers(&expected, "do it", &json)
    };
    assert_eq!(run(&|_| ()), Outcome::Pass);
    assert_eq!(
        run(&|e| e.required_response = Some("bye".into())),
        failed("required deterministic response is missing: bye")
    );
    assert_eq!(
        run(&|e| e.min_response_chars = Some(6)),
        failed("response is shorter than the deterministic minimum: 6")
    );
    assert_eq!(
        run(&|e| e.max_response_chars = Some(4)),
        failed("response exceeds the deterministic maximum: 4")
    );
    assert_eq!(
        run(&|e| e.max_tool_calls = Some(1)),
        failed("scripted tool calls exceed the deterministic maximum: 1")
    );
    assert_eq!(
        run(&|e| e.forbidden_responses = vec!["ell".into()]),
        failed("forbidden deterministic response is present: ell")
    );
    assert_eq!(
        run(&|e| e.required_tool_calls = vec!["a".into(), "c".into()]),
        failed("required deterministic tool call is missing: c")
    );
    assert_eq!(
        evaluate_answers(&expectation(), "provider_failure", &json),
        Outcome::provider_failure()
    );
    let bad = |text: &str| evaluate_answers(&expectation(), "x", &parse_json(text).unwrap());
    assert_eq!(bad("{}"), failed("scripted response list is missing"));
    assert_eq!(bad("{\"responses\":[]}"), failed("scripted response list is empty"));
    assert_eq!(
        bad("{\"responses\":[1]}"),
        failed("scripted response entry is not an object")
    );
    assert_eq!(
        bad("{\"responses\":[{\"tool_calls\":1}]}"),
        failed("scripted tool_calls is not an array")
    );
    assert_eq!(
        bad("{\"responses\":[{\"tool_calls\":[{}]}]}"),
        failed("scripted tool call has no name")
    );
    assert_eq!(bad("{\"responses\":[{}]}"), failed("scripted response is empty"));
    assert_eq!(
        evaluate_trial(&expectation(), Ok(" ".into()), Ok(answers.into())),
        failed("instruction is empty")
    );
    assert_eq!(
        evaluate_trial(&expectation(), Err("io".into()), Ok(answers.into())),
        Outcome::ProviderFailure { reason: "io".into() }
    );
    assert!(matches!(
        evaluate_trial(&expectation(), Ok("x".into()), Ok("{".into())),
        Outcome::ProviderFailure { .. }
    ));
    assert_eq!(
        evaluate_trial(&expectation(), Ok("x".into()), Ok(answers.into())),
        Outcome::Pass
    );
}

#[test]
fn reports_add_trials_up() {
    let report = report_trials(vec![Outcome::Pass, failed("bad"), Outcome::Pass]);
    assert_eq!(
        report,
        EvalReport {
            status: EvalStatus::Fail,
            trials: 3,
            passed_trials: 2,
            messages: vec![
                "deterministic gates passed".into(),
                "bad".into(),
                "deterministic gates passed".into()
            ],
        }
    );
    assert_eq!(
        report.to_markdown(),
        "## Phemius evaluation\n\n- status: `fail`\n- trials: 3\n- passed: 2\n- deterministic gates passed\n- bad\n- deterministic gates passed\n"
    );
    assert_eq!(
        report_trials(vec![failed("x"), Outcome::provider_failure()]).status,
        EvalStatus::Inconclusive
    );
    assert_eq!(
        Grader.grade(Outcome::judge_disagreement("d".into())).status,
        EvalStatus::Inconclusive
    );
}

#[test]
fn tasks_stay_in_their_fixture() {
    let task = |instruction: &str, id: &str, trials: usize| EvalTask {
        id: id.into(),
        instruction: instruction.into(),
        expect: "expect.toml".into(),
        scripted_responses: "r.json".into(),
        trials,
        fixture_root: "/f".into(),
    };
    let good = EvalTask::load(task("i.md", "t", 1), true, true).unwrap();
    assert_eq!(good.expectation_path(), "/f/expect.toml");
    let error = |t: EvalTask, a: bool, b: bool| EvalTask::load(t, a, b).unwrap_err();
    assert_eq!(error(task("i", " ", 1), true, true), "evaluation task ID is required");
    assert_eq!(
        error(task("i", "t", 0), true, true),
        "evaluation task must request at least one trial"
    );
    assert_eq!(
        error(task("/i", "t", 1), true, true),
        "evaluation instruction path must be relative"
    );
    assert_eq!(
        error(task("../i", "t", 1), true, true),
        "evaluation instruction path escapes its fixture"
    );
    assert_eq!(error(task("i", "t", 1), false, true), "evaluation instruction is missing");
    assert_eq!(error(task("i", "t", 1), true, false), "evaluation expectation is missing");
}

fn facts() -> ShellFacts {
    ShellFacts {
        workspace: "/w".into(),
        workspace_is_directory: true,
        executable: "/bin/ls".into(),
        executable_is_file: true,
        allowlist: vec!["/bin/ls".into()],
        seatbelt_available: true,
    }
}

fn reason(request: ShellRequest, facts: &ShellFacts) -> Option<ChoiceReason> {
    match run_shell(&request, facts) {
        Err(ShellError::ChoiceRequired { reason, .. }) => Some(reason),
        _ => None,
    }
}

#[test]
fn shell_requests_need_consent() {
    let ls = || ShellRequest::program("ls".into());
    assert_eq!(reason(ls(), &facts()), Some(ChoiceReason::Approval));
    let allow = || ls().with_approval(ApprovalMode::Allowlist);
    let mut other = facts();
    other.allowlist.clear();
    assert_eq!(reason(allow(), &other), Some(ChoiceReason::Allowlist));
    let free = || ls().with_approval(ApprovalMode::Never);
    assert_eq!(
        reason(free().with_sandbox(SandboxMode::Unrestricted), &facts()),
        Some(ChoiceReason::UntrustedUnrestricted)
    );
    assert_eq!(
        reason(free().with_sandbox(SandboxMode::Container), &facts()),
        Some(ChoiceReason::ContainerUnavailable)
    );
    let mut bare = facts();
    bare.seatbelt_available = false;
    assert_eq!(reason(free(), &bare), Some(ChoiceReason::SandboxUnavailable));
    let placed = ls().in_workspace("/work".into()).allow_executable("/bin/ls".into());
    assert_eq!(placed.workspace(), "/work");
    assert_eq!(placed.allowlist().to_vec(), vec!["/bin/ls".to_string()]);
    let plan = run_shell(&allow().arg("-l".into()), &facts()).unwrap();
    assert_eq!(plan.program, "/usr/bin/sandbox-exec");
    assert_eq!(plan.arguments[0], "-p");
    assert_eq!(plan.arguments[2..], ["/bin/ls".to_string(), "-l".to_string()]);
    assert_eq!(plan.time_limit_millis, 30_000);
    let open = run_shell(
        &ShellRequest::shell("echo".into())
            .with_approval(ApprovalMode::Never)
            .with_sandbox(SandboxMode::Unrestricted)
            .trusted_unrestricted()
            .with_time_limit(5)
            .with_output_limit(7),
        &facts(),
    )
    .unwrap();
    assert_eq!(open.program, "/bin/ls");
    assert_eq!(open.arguments, vec!["-lc", "echo"]);
    assert_eq!(open.output_limit, 7);
    assert_eq!(open.environment, plan.environment);
    let pair = |name: &str, value: &str| (name.to_string(), value.to_string());
    assert_eq!(
        plan.environment,
        vec![
            pair("PATH", "/usr/bin:/bin:/usr/sbin:/sbin"),
            pair("LC_ALL", "C"),
            pair("LANG", "C"),
        ]
    );
    assert_eq!(git_environment(), vec![pair("PATH", "/usr/bin:/bin"), pair("LC_ALL", "C")]);
    let mut file = facts();
    file.workspace_is_directory = false;
    assert!(matches!(run_shell(&free(), &file), Err(ShellError::Invalid(_))));
}

#[test]
fn shell_profile_denies_the_network() {
    let profile = seatbelt_profile("/w").unwrap();
    assert!(profile.starts_with("(version 1) (deny default) (import \"system.sb\")"));
    assert!(profile.ends_with("(allow file-write* (subpath \"/w\")) (deny file-write* (subpath \"/w/.git\")) (deny network*)"));
    assert_eq!(
        seatbelt_profile("/a\"b").unwrap_err().to_text(),
        "invalid shell request: workspace contains unsupported quote"
    );
    assert_eq!(
        ShellRequest::program("ls".into()).executable_candidates(),
        vec!["/usr/bin/ls", "/bin/ls", "/usr/sbin/ls", "/sbin/ls"]
    );
    assert_eq!(
        ShellRequest::program("./ls".into()).executable_candidates(),
        vec!["./ls"]
    );
    assert_eq!(
        ShellRequest::program("x".into()).unknown_executable().to_text(),
        "invalid shell request: executable x is not on the safe PATH"
    );
}

#[test]
fn shell_output_is_limited() {
    let mut capture = ShellCapture::new(3);
    assert!(capture.push(b"ab", b"").is_ok());
    assert!(capture.push(b"", b"c").is_ok());
    assert_eq!(
        capture.push(b"d", b"").unwrap_err().to_text(),
        "invalid shell request: shell output limit exceeded"
    );
    let mut lossy = ShellCapture::new(9);
    lossy.push(&[b'a', 0xff], b"e").unwrap();
    let outcome = lossy.finish(Some(1));
    assert_eq!(outcome.stdout, "a\u{fffd}");
    assert_eq!(outcome.stderr, "e");
    assert_eq!(outcome.exit_code, Some(1));
    assert_eq!(
        time_limit_exceeded().to_text(),
        "invalid shell request: shell time limit exceeded"
    );
}

fn skill(name: &str, path: &str) -> SkillFile {
    SkillFile {
        path: path.into(),
        text: format!("---\nname: \"{name}\"\ndescription: does: things\nother: x\n---\nbody"),
    }
}

#[test]
fn skills_are_found_by_name() {
    let catalog = SkillCatalog::discover(&[skill("a", "1"), skill("b", "2"), skill("a", "3")])
        .unwrap();
    assert_eq!(catalog.get("a").unwrap().description, "does: things");
    assert_eq!(catalog.path("a").unwrap(), "1");
    assert_eq!(catalog.path("c").unwrap_err(), "unknown skill c");
    let loaded = catalog.load("b", b"text").unwrap();
    assert_eq!(loaded.body, "text");
    assert_eq!(loaded.sha256, sha256_bytes(b"text"));
    assert_eq!(catalog.load("b", &[0xff]).unwrap_err(), "SKILL.md must be valid UTF-8");
    assert_eq!(catalog.load_resource("b", "r.md", b"x").unwrap().path, "r.md");
    assert_eq!(
        catalog.load_resource("b", "../r.md", b"x").unwrap_err(),
        "skill resource path escapes the skill directory"
    );
    assert_eq!(
        catalog.load_resource("b", "r", &[0xff]).unwrap_err(),
        "skill resource must be valid UTF-8"
    );
    assert_eq!(
        validate_relative("").unwrap_err(),
        "skill resource path must be relative"
    );
}

#[test]
fn skill_metadata_has_a_grammar() {
    for (text, error) in [
        ("", "SKILL.md metadata must begin with ---"),
        ("x", "SKILL.md metadata must begin with ---"),
        ("---\nname: a", "SKILL.md metadata is not terminated"),
        ("---\nname\n---", "invalid SKILL.md metadata line"),
        ("---\n---", "SKILL.md metadata requires name"),
        ("---\nname: \"\"\n---", "skill name must not be empty"),
        ("---\nname: a\n---", "SKILL.md metadata requires description"),
    ] {
        assert_eq!(read_metadata(text).unwrap_err(), error, "{text}");
    }
}

#[test]
fn instructions_apply_from_the_root_down() {
    assert_eq!(
        load_hierarchical_instructions("/p", "/p/a/b").unwrap(),
        vec!["/p", "/p/a", "/p/a/b"]
    );
    assert_eq!(load_hierarchical_instructions("/p", "/p").unwrap(), vec!["/p"]);
    assert_eq!(
        load_hierarchical_instructions("/p", "/q").unwrap_err(),
        "instruction target escapes project root"
    );
    let names = vec!["AGENTS.md".to_string(), "OTHER.md".to_string()];
    assert_eq!(instruction_name(&names, &[true, true]), Some("AGENTS.md"));
    assert_eq!(instruction_name(&names, &[false, true]), Some("OTHER.md"));
    assert_eq!(instruction_name(&names, &[false, false]), None);
    assert_eq!(load_instruction("p", b"x").unwrap().body, "x");
    assert_eq!(
        load_instruction("p", &[0xff]).unwrap_err(),
        "instruction file must be valid UTF-8"
    );
    assert!(check_resource(true, "/r/a", "/r").is_ok());
    assert_eq!(
        check_resource(true, "/q/a", "/r").unwrap_err(),
        "skill resource escapes its skill root"
    );
    assert!(check_resource(false, "/r/a", "/r").is_err());
}

fn prose(n: usize, tag: &str) -> String {
    (0..n).map(|i| format!("{tag}{i} ")).collect()
}

#[test]
fn exact_copies_are_found() {
    let policy = CopyPolicy::default();
    let source = AllowedSource::plain("s".into(), prose(40, "w"));
    let found = scan_near_copy(&prose(40, "w"), &[source], &policy).unwrap();
    assert!(found.iter().any(|f| f.rule == CopyRule::ContiguousWords && f.blocking));
    let source = AllowedSource::plain("s".into(), prose(39, "w"));
    assert!(scan_near_copy(&prose(39, "w"), &[source], &policy).unwrap().is_empty());
    let cjk: String = (0..80).map(|i| char::from_u32(0x4e00 + i * 7).unwrap()).collect();
    let source = AllowedSource::plain("s".into(), cjk.clone());
    assert!(!scan_near_copy(&cjk, &[source], &policy).unwrap().is_empty());
    let quoted = AllowedSource::declared_quote("s".into(), cjk.clone());
    assert!(scan_near_copy(&cjk, &[quoted], &policy).unwrap().is_empty());
}

#[test]
fn near_copies_are_found() {
    let policy = CopyPolicy::default();
    let words: Vec<String> = (0..80).map(|i| format!("w{i}")).collect();
    let mut changed = words.clone();
    changed[39] = "other".into();
    changed[79] = "another".into();
    let source = AllowedSource::plain("s".into(), words.join(" "));
    let found = scan_near_copy(&changed.join(" "), &[source], &policy).unwrap();
    assert!(found.iter().any(|f| f.rule == CopyRule::NgramOverlap));
    let end = words.join(" ").len();
    let exempt = AllowedSource::with_declared_ranges(
        "s".into(),
        words.join(" "),
        vec![ByteRange::new(0, end)],
    );
    assert!(scan_near_copy(&changed.join(" "), &[exempt], &policy).unwrap().is_empty());
}

#[test]
fn invalid_declared_ranges_exempt_nothing() {
    let policy = CopyPolicy::default();
    let copied = prose(60, "w");
    let plain = AllowedSource::plain("s".into(), copied.clone());
    let found = scan_near_copy(&copied, &[plain], &policy).unwrap();
    let seen: Vec<_> = found.iter().map(|f| (f.rule, f.source_range.start, f.source_range.end)).collect();
    assert!(!seen.is_empty());
    for (start, end) in [(0, copied.len() + 1), (9, 3), (5, 5)] {
        let wrong = AllowedSource::with_declared_ranges(
            "s".into(),
            copied.clone(),
            vec![ByteRange::new(start, end)],
        );
        let found = scan_near_copy(&copied, &[wrong], &policy).unwrap();
        let again: Vec<_> = found.iter().map(|f| (f.rule, f.source_range.start, f.source_range.end)).collect();
        assert_eq!(again, seen);
    }
    let cut = AllowedSource::with_declared_ranges(
        "s".into(),
        copied.clone(),
        vec![ByteRange::new(0, copied.len() / 2)],
    );
    for finding in scan_near_copy(&copied, &[cut], &policy).unwrap() {
        assert!(finding.source_range.end > copied.len() / 2);
    }
}

#[test]
fn tokens_and_findings_cover_parts_of_their_texts() {
    let text = "Caf\u{e9} e\u{301}t \u{1f1ef}\u{1f1f5} \u{672c}\u{6587}, end";
    let normal = NormalizedText::from_text(text);
    let mut starts = 0;
    for token in &normal.characters {
        assert!(token.range.start < token.range.end);
        assert!(token.range.is_valid_for(text));
        assert!(starts <= token.range.start);
        starts = token.range.start;
    }
    let words: Vec<&str> = normal.word_runs[0]
        .iter()
        .map(|token| &text[token.range.start..token.range.end])
        .collect();
    assert_eq!(words, ["Caf\u{e9}", "e\u{301}t"]);
    let copied = prose(60, "w");
    let manuscript = format!("\u{672c} {copied}");
    let source = AllowedSource::plain("s".into(), copied.clone());
    let found = scan_near_copy(&manuscript, &[source], &CopyPolicy::default()).unwrap();
    assert!(!found.is_empty());
    for finding in &found {
        assert!(finding.manuscript_range.start < finding.manuscript_range.end);
        assert!(finding.manuscript_range.is_valid_for(&manuscript));
        assert!(finding.source_range.start < finding.source_range.end);
        assert!(finding.source_range.is_valid_for(&copied));
    }
}

#[test]
fn copy_policies_are_checked() {
    let policy = CopyPolicy { exact_words: 0, ..CopyPolicy::default() };
    match scan_near_copy("x", &[], &policy) {
        Err(CopyScanError::InvalidPolicy(message)) => {
            assert_eq!(message, "near-copy thresholds must be greater than zero");
        }
        _ => panic!("expected a refusal"),
    }
}

#[test]
fn trials_hold_only_what_a_task_shows() {
    let task = EvalTask {
        id: "t".into(),
        instruction: "public/instruction.md".into(),
        expect: "hidden/expect.toml".into(),
        scripted_responses: "public/./answers.json/".into(),
        trials: 1,
        fixture_root: "/fixtures/smoke".into(),
    };
    let trial = prepare_trial(&task, "/tmp/trial".into(), true).unwrap();
    assert_eq!(trial.root, "/tmp/trial");
    assert_eq!(trial.task_id, "t");
    let copies: Vec<(&str, &str)> =
        trial.inputs.iter().map(|input| (input.source.as_str(), input.copy.as_str())).collect();
    assert_eq!(
        copies,
        vec![
            ("/fixtures/smoke/public/instruction.md", "/tmp/trial/instruction.md"),
            ("/fixtures/smoke/public/./answers.json/", "/tmp/trial/answers.json"),
        ]
    );
    assert!(trial.inputs.iter().all(|input| input.source != task.expectation_path()));
    assert_eq!(trial.input_path("a/b.md", "c"), "/tmp/trial/b.md");
    assert_eq!(trial.input_path("a/..", "c"), "/tmp/trial/c");
    assert_eq!(trial.input_path(".", "c"), "/tmp/trial/c");
    assert_eq!(prepare_trial(&task, "/tmp/trial".into(), false).unwrap().inputs.len(), 1);
    let unnamed = EvalTask { instruction: "./".into(), ..task };
    assert_eq!(
        prepare_trial(&unnamed, "/tmp/trial".into(), false).unwrap_err(),
        "evaluation fixture path has no file name: ./"
    );
}

#[test]
fn judges_gate_only_when_calibrated() {
    let met = |percent| JudgeShare { percent, met: true };
    let missed = |percent| JudgeShare { percent, met: false };
    let good = calibrate_judge(20, met(80), met(90));
    assert_eq!((good.labels, good.agreement_percent), (20, 80));
    assert_eq!(good.swap_consistency_percent, 90);
    assert!(good.gate_enabled);
    assert!(!calibrate_judge(19, met(100), met(100)).gate_enabled);
    assert!(!calibrate_judge(20, missed(80), met(90)).gate_enabled);
    assert!(!calibrate_judge(20, met(80), missed(90)).gate_enabled);
}
