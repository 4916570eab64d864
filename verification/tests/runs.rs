use phemius::candidate::PreparedChange;
use phemius::changeset::ChangesetState;
use phemius::cost::{BudgetLedger, MicroDollars, Price, Usage};
use phemius::domain::{is_prefixed_uuid, prefixed_uuid, EntityKind};
use phemius::findings::{
    check_length, parse_findings, validate_finding_evidence, validate_length, AgentRole,
    AgentSpec, Finding, FindingKind, LengthUnit,
};
use phemius::hash::sha256_text;
use phemius::model::{ModelFailure, ModelResponse, ModelResult};
use phemius::plot::{
    MacroBeat, StoryBox, StoryChapter, StoryPart, StoryScene, StoryStructure,
};
use phemius::records::{ChapterState, CorrectionScope};
use phemius::session::{SessionEvent, SessionJournal};
use phemius::tools::Tool;
use phemius::workflow::chapter::{
    validate_project_quality_gates, ChapterWork, Phase, RoleContext, WorkEvent, WriteError,
    WrittenChapter,
};
use phemius::workflow::{
    failure_event, model_error, request_context_hash, RunController,
};
use phemius::paths::FileEntry;

fn text(reply: &str) -> ModelResult<ModelResponse> {
    Ok(ModelResponse { text: reply.into(), tool_calls: Vec::new(), usage: None })
}

fn drive(
    run: &mut RunController,
    chapter: &str,
    answer: &mut dyn FnMut(&str, &ChapterWork, usize) -> ModelResult<ModelResponse>,
) -> Result<WrittenChapter, String> {
    let mut work = run.write_chapter(chapter).map_err(|error| error.to_text())?;
    loop {
        let event = match work.phase() {
            Phase::Checked => break,
            Phase::Planning | Phase::Writing | Phase::Reviewing | Phase::Revising => {
                let mut replies = Vec::new();
                for i in 0..work.roles_to_ask().len() {
                    let paid = run.begin_request(&work, i)?;
                    replies.push(answer(&paid.request().messages[0].content, &work, i));
                }
                WorkEvent::Replies(replies)
            }
            Phase::WriterContext | Phase::CriticContexts | Phase::ReviserContext => {
                WorkEvent::Contexts(Ok(work
                    .roles_to_compile()
                    .iter()
                    .map(|_| RoleContext { text: "ctx".into(), receipt: None })
                    .collect()))
            }
            Phase::Preparing | Phase::Updating => WorkEvent::Prepared(Vec::new(), None),
        };
        assert!(work.accepts(&event));
        work = run.advance(work, event)?;
    }
    let draft = run.seal_draft(work)?;
    run.finish_chapter(draft, None)
}

fn simple(run: &mut RunController, chapter: &str, prose: &str) -> WrittenChapter {
    let prose = prose.to_string();
    drive(run, chapter, &mut |_, work, _| match work.phase() {
        Phase::Writing => text(&prose),
        _ => text(""),
    })
    .unwrap()
}

#[test]
fn roles_have_names_and_tools() {
    assert_eq!(AgentRole::StoryArchitect.name(), "story-architect");
    assert!(AgentRole::CanonCritic.is_critic());
    assert!(!AgentRole::Reviser.is_critic());
    assert_eq!(AgentSpec::critic_roles().len(), 6);
    let critic = AgentSpec::new(AgentRole::CanonCritic, "p".into(), "m".into());
    assert!(!critic.tools.contains(&Tool::EditCandidate));
    let writer = AgentSpec::new(AgentRole::Writer, "p".into(), "m".into());
    assert!(writer.tools.contains(&Tool::EditCandidate));
}

#[test]
fn findings_have_stable_identifiers() {
    let make = |hash: &str| {
        Finding::new(FindingKind::Canon, "本文/a.md".into(), 0, 3, "wrong".into(), hash.into())
    };
    let first = make("h");
    assert!(is_prefixed_uuid(&first.id, EntityKind::Finding));
    assert_eq!(first.id, make("h").id);
    assert_ne!(first.id, make("other").id);
    assert_eq!(
        first.evidence_hash,
        sha256_text("Canon\0本文/a.md\00\03\0wrong")
    );
    assert!(first.blocks("h"));
    assert!(!first.blocks("other"));
    let style = Finding::new(FindingKind::Style, "a".into(), 0, 0, "m".into(), "h".into());
    assert!(!style.blocks("h"));
}

#[test]
fn reports_of_critics_are_read() {
    let report = "intro\nFINDING|canon|本文/a.md|0|3|bad | really\nFINDING|style|b.md|0|0|dull\n";
    let list = parse_findings(report, AgentRole::CanonCritic, "h", "あい").unwrap();
    assert_eq!(list.len(), 2);
    assert_eq!(list[0].kind, FindingKind::Canon);
    assert_eq!(list[0].message, "canon-critic: bad | really");
    let error = |line: &str| {
        parse_findings(line, AgentRole::CanonCritic, "h", "あい").unwrap_err()
    };
    assert_eq!(error("FINDING|canon|a|0|1"), "malformed finding evidence from canon-critic");
    assert_eq!(error("FINDING|odd|a|0|0|m"), "unknown finding kind odd from canon-critic");
    assert_eq!(error("FINDING|canon|a|x|0|m"), "finding start is not an integer");
    assert_eq!(error("FINDING|canon|a|0|x|m"), "finding end is not an integer");
    assert_eq!(error("FINDING|canon|a|0|0| "), "finding message is required");
    assert_eq!(validate_finding_evidence(" ", 0, 0, "x"), Err("finding artifact is required"));
    assert_eq!(
        validate_finding_evidence("/a", 0, 0, "x"),
        Err("finding artifact must be project-relative")
    );
    assert_eq!(validate_finding_evidence("a\0", 0, 0, "x"), Err("finding artifact contains NUL"));
    assert_eq!(
        validate_finding_evidence("../a", 0, 0, "x"),
        Err("finding artifact escapes the project")
    );
    assert_eq!(validate_finding_evidence("a", 1, 0, "x"), Err("finding range is inverted"));
    assert_eq!(
        validate_finding_evidence("a", 0, 2, "x"),
        Err("finding range exceeds candidate bytes")
    );
    assert_eq!(validate_finding_evidence("a", 0, 1, "あ"), Err("finding range splits UTF-8"));
}

#[test]
fn chapter_length_counts_clusters_or_words() {
    assert!(validate_length("e\u{301}x", LengthUnit::Graphemes, 2, 2).is_ok());
    assert_eq!(
        validate_length("one two", LengthUnit::Words, 3, 9).unwrap_err(),
        "chapter length 2 is outside 3..=9"
    );
    assert!(check_length(3, 3, 3).is_ok());
}

#[test]
fn new_runs_are_strict() {
    let mut run = RunController::new();
    assert_eq!(run.model(AgentRole::Writer), "deepseek/deepseek-v4-pro-0813");
    assert!(is_prefixed_uuid(run.run_id(), EntityKind::Run));
    assert!(matches!(
        run.authorize_chapter("chapter_1"),
        Err(WriteError::Refused(message)) if message == "approved scene, box, and macro plans are required"
    ));
    run.set_preflight(true, true, true);
    assert!(matches!(
        run.authorize_chapter("chapter_1"),
        Err(WriteError::Refused(message)) if message == "an approved story structure is required"
    ));
    run.set_model(Some(AgentRole::Writer), "m".into()).unwrap();
    assert_eq!(run.model(AgentRole::Writer), "m");
    assert_ne!(run.model(AgentRole::Reviser), "m");
    run.set_model(None, "n".into()).unwrap();
    assert_eq!(run.model(AgentRole::Reviser), "n");
    assert_eq!(run.set_model(None, " ".into()).unwrap_err(), "model ID is required");
    assert_eq!(
        run.set_length_bounds(LengthUnit::Words, 2, 1).unwrap_err(),
        "chapter length minimum exceeds maximum"
    );
    assert!(run.set_plot_framework("three-act".into()).is_ok());
    assert!(run.set_plot_framework("custom:x".into()).is_ok());
    assert_eq!(
        run.set_plot_framework("x".into()).unwrap_err(),
        "unknown plot framework x"
    );
}

fn structure() -> (StoryStructure, String) {
    let id = |kind| prefixed_uuid(kind).as_str().to_string();
    let (part, chapter, scene) =
        (id(EntityKind::Part), id(EntityKind::Chapter), id(EntityKind::Scene));
    let story = StoryStructure {
        parts: vec![StoryPart::new(part.clone(), 1)],
        chapters: vec![StoryChapter::new(chapter.clone(), part, 1)],
        scenes: vec![StoryScene::new(scene.clone(), chapter.clone(), 1)],
        boxes: vec![StoryBox::new(id(EntityKind::Box), scene.clone(), 1)],
        macro_beats: vec![MacroBeat::new("beat".into(), 1, vec![scene])],
    };
    (story, chapter)
}

#[test]
fn structure_must_cover_the_chapter() {
    let mut run = RunController::new();
    run.set_preflight(true, true, true);
    let (story, chapter) = structure();
    run.set_structure(story).unwrap();
    assert!(matches!(
        run.authorize_chapter("chapter_x"),
        Err(WriteError::Refused(message)) if message == "chapter chapter_x is not present in the approved story structure"
    ));
    assert!(matches!(
        run.authorize_chapter(&chapter),
        Err(WriteError::Refused(message)) if message == "a declarative plot framework is required"
    ));
    run.set_plot_framework("kishotenketsu".into()).unwrap();
    assert!(matches!(
        run.authorize_chapter(&chapter),
        Err(WriteError::Refused(message)) if message == "unknown model price; generation is stopped"
    ));
    run.set_request_maximum_cost(Some(MicroDollars::new(1_000)));
    assert!(run.authorize_chapter(&chapter).is_ok());
    let mut broken = structure().0;
    broken.boxes.clear();
    assert!(run.set_structure(broken).is_ok());
}

#[test]
fn cost_is_estimated_before_the_first_request() {
    let mut run = RunController::fixture();
    run.set_request_maximum_cost(Some(MicroDollars::new(227_273)));
    match run.write_chapter("chapter_1") {
        Err(WriteError::Confirm(required)) => {
            assert_eq!(required.chapter_id(), "chapter_1");
            assert_eq!(required.estimated_cost().as_u64(), 5_000_006);
        }
        _ => panic!("expected a question"),
    }
    run.set_request_maximum_cost(Some(MicroDollars::new(300_000)));
    match run.write_chapter("chapter_1") {
        Err(WriteError::Confirm(required)) => {
            assert_eq!(required.estimated_cost().as_u64(), 6_600_000);
        }
        _ => panic!("expected a question"),
    }
    assert_eq!(run.chapter("chapter_1").state, ChapterState::Planned);
    assert_eq!(run.cost_status().chapter.as_u64(), 0);
    assert_eq!(run.cost_status().run.as_u64(), 0);
    assert!(!run.cost_status().warning);
    run.confirm_cost_warning();
    assert!(run.authorize_chapter("chapter_1").is_ok());
    assert!(run.write_chapter("chapter_1").is_ok());
    assert_eq!(run.chapter("chapter_1").state, ChapterState::Running);
    assert!(matches!(run.write_chapter("chapter_1"), Err(WriteError::Confirm(_))));
    run.confirm_cost_warning();
    run.use_cost_consent();
    assert!(matches!(run.write_chapter("chapter_1"), Err(WriteError::Confirm(_))));
    run.set_request_maximum_cost(Some(MicroDollars::new(454_546)));
    run.confirm_cost_warning();
    assert!(matches!(
        run.write_chapter("chapter_1"),
        Err(WriteError::Refused(message)) if message == "chapter budget hard stop at $10 before model reservation"
    ));
    run.set_request_maximum_cost(Some(MicroDollars::new(u64::MAX)));
    assert!(matches!(
        run.write_chapter("chapter_1"),
        Err(WriteError::Refused(message)) if message == "chapter cost arithmetic overflow"
    ));
    run.set_request_maximum_cost(None);
    assert!(matches!(
        run.write_chapter("chapter_1"),
        Err(WriteError::Refused(message)) if message == "unknown model price; generation is stopped"
    ));
}

#[test]
fn chapter_starts_only_where_everything_allows_it() {
    let mut run = RunController::new();
    assert!(matches!(
        run.write_chapter("chapter_1"),
        Err(WriteError::Refused(message)) if message == "approved scene, box, and macro plans are required"
    ));
    assert!(run.chapter_opt("chapter_1").is_none());
    let mut run = RunController::fixture();
    run.set_request_maximum_cost(Some(MicroDollars::new(300_000)));
    run.confirm_cost_warning();
    run.require_recovery();
    assert!(run.instruct_chapter("chapter_1").is_err());
    assert_eq!(
        run.write_chapter("chapter_1").err().map(|error| error.to_text()),
        Some("durable checkpoint requires in-memory state reconstruction; manual resolution is required".into())
    );
    assert_eq!(run.chapter("chapter_1").state, ChapterState::Planned);
    assert!(matches!(run.write_chapter("chapter_1"), Err(WriteError::Confirm(_))));
    let mut run = RunController::fixture();
    assert!(matches!(
        run.instruct_chapter("chapter_1"),
        Ok(SessionEvent::UserInstruction { text }) if text == "write chapter chapter_1"
    ));
    let work = run.write_chapter("chapter_9").unwrap();
    assert_eq!(work.order(), 2);
    assert_eq!(work.phase(), Phase::Planning);
    assert_eq!(run.chapter("chapter_9").state, ChapterState::Running);
}

#[test]
fn requests_are_given_out_under_a_reservation() {
    let mut run = RunController::fixture();
    let work = run.write_chapter("chapter_1").unwrap();
    let paid = run.begin_request(&work, 0).unwrap();
    assert_eq!(paid.reservation().chapter_id, "chapter_1");
    assert_eq!(paid.reservation().reserved_cost.as_u64(), 100_000);
    assert_eq!(run.cost_status().chapter.as_u64(), 100_000);
    assert_eq!(paid.request().role, "story-architect");
    match paid.started() {
        SessionEvent::ModelCallStarted { request_id, context_hash } => {
            assert_eq!(request_id.as_str(), paid.reservation().request_id.as_str());
            assert_eq!(context_hash, request_context_hash(paid.request()));
        }
        _ => panic!("expected the start of a call"),
    }
    run.set_request_maximum_cost(None);
    assert_eq!(
        run.begin_request(&work, 0).unwrap_err(),
        "unknown model price; generation is stopped"
    );
    assert_eq!(run.cost_status().chapter.as_u64(), 100_000);
}

#[test]
fn chapter_goes_through_every_role() {
    let mut run = RunController::fixture();
    let mut prompts: Vec<String> = Vec::new();
    let mut answer = |prompt: &str, work: &ChapterWork, _: usize| {
        prompts.push(prompt.to_string());
        match work.phase() {
            Phase::Planning => text("the plan"),
            Phase::Writing => text("once upon"),
            _ => text("fine"),
        }
    };
    let written = drive(&mut run, "chapter_1", &mut answer).unwrap();
    assert_eq!(written.run.candidate_text, "once upon");
    assert_eq!(written.run.state, ChapterState::Approvable);
    assert!(written.run.is_approvable());
    assert_eq!(written.run.trace.critic_calls, 6);
    assert_eq!(written.run.trace.reviser_calls, 0);
    assert_eq!(written.run.trace.max_parallel_critics, 3);
    assert_eq!(written.run.trace.roles.len(), 9);
    assert_eq!(written.run.candidate_hash(), sha256_text("once upon"));
    assert_eq!(written.run.changeset.operations[0].path, "本文/chapter_1.md");
    assert_eq!(
        prompts[0],
        "Plan chapter chapter_1 from the approved scene, box, and macro structure. Return a plan only."
    );
    assert_eq!(
        prompts[1],
        "Write chapter chapter_1. Approved scene and box plans are required.\n\nArchitect plan: the plan\n\nCompiled source context (use only as evidence):\nctx\n\nContext receipt: \n\nProvisional canon hashes: \n\nProvisional canon candidate prose (run-local, not approved canon): \n\nCorrections: "
    );
    assert_eq!(
        prompts[2],
        "Review candidate chapter chapter_1 without editing it.\n\nImmutable candidate:\nonce upon\n\nRole-specific compiled source context:\nctx\n\nRole-specific context receipt:\n\n\nImmutable context facts: provisional canon hashes=[]; corrections=[]. Report typed evidence as FINDING|kind|artifact|start|end|message."
    );
    assert_eq!(prompts.len(), 8);
    assert_eq!(run.chapter("chapter_1").state, ChapterState::Approvable);
    assert!(matches!(
        written.entry.event,
        SessionEvent::ChangesetStateChanged { state: ChangesetState::Approvable, .. }
    ));
    let expected = sha256_text(&format!("chapter_1:{}:[]:[]", sha256_text("once upon")));
    assert_eq!(written.run.context_receipt_hash, sha256_text(&format!("[\"{expected}\",[]]")));
}

#[test]
fn blocking_finding_leads_to_a_revision() {
    let mut run = RunController::fixture();
    let mut reviews = 0;
    let mut prompts: Vec<String> = Vec::new();
    let mut answer = |prompt: &str, work: &ChapterWork, i: usize| match work.phase() {
        Phase::Writing => text("draft"),
        Phase::Reviewing => {
            reviews += 1;
            if work.roles_to_ask()[i] == AgentRole::CanonCritic && work.candidate_text() == "draft" {
                text("FINDING|canon|本文/a.md|0|5|wrong")
            } else {
                text("")
            }
        }
        Phase::Revising => {
            prompts.push(prompt.to_string());
            text("better")
        }
        _ => text(""),
    };
    let written = drive(&mut run, "chapter_1", &mut answer).unwrap();
    assert_eq!(written.run.candidate_text, "better");
    assert_eq!(written.run.trace.reviser_calls, 1);
    assert_eq!(written.run.trace.critic_calls, 7);
    assert_eq!(reviews, 7);
    assert!(written.run.findings.is_empty());
    assert!(written.run.is_approvable());
    assert_eq!(
        prompts[0],
        "Revise only this candidate prose and preserve every approved fact.\n\nCandidate:\ndraft\n\nTyped findings:\nkind=Canon; artifact=本文/a.md; range=0..5; message=canon-critic: wrong\n\nRequired facts and correction directives:\nrole-specific compiled source context:\nctx\n\nrole-specific context receipt:\n\n\nprovisional canon hashes=[]; correction receipts=[]"
    );
}

#[test]
fn findings_that_stay_block_the_chapter() {
    let mut run = RunController::fixture();
    let mut answer = |_: &str, work: &ChapterWork, i: usize| match work.phase() {
        Phase::Writing | Phase::Revising => text("draft"),
        Phase::Reviewing if work.roles_to_ask()[i] == AgentRole::CanonCritic => {
            text("FINDING|canon|本文/a.md|0|5|wrong")
        }
        _ => text(""),
    };
    let written = drive(&mut run, "chapter_1", &mut answer).unwrap();
    assert_eq!(written.run.trace.reviser_calls, 2);
    assert_eq!(written.run.trace.critic_calls, 8);
    assert_eq!(written.run.state, ChapterState::Candidate);
    assert!(!written.run.is_approvable());
    let id = written.run.findings[0].id.clone();
    assert_eq!(written.run.changeset.unresolved_blocker_ids[0].as_str(), id);
    assert!(run.finding(&id).is_some());
    assert_eq!(
        run.resolve_false_positive(&id, " ".into()).unwrap_err(),
        "false-positive reason is required"
    );
    assert_eq!(
        run.resolve_false_positive("x", "r".into()).unwrap_err(),
        "finding ID is invalid: x"
    );
    let entry = run.resolve_false_positive(&id, "harmless".into()).unwrap();
    assert!(matches!(
        entry.event,
        SessionEvent::FindingResolved { ref reason_hash, .. } if *reason_hash == sha256_text("harmless")
    ));
    assert!(run.chapter_run("chapter_1").unwrap().is_approvable());
    assert_eq!(run.chapter("chapter_1").state, ChapterState::Approvable);
    assert_eq!(
        run.resolve_false_positive(&id, "again".into()).unwrap_err(),
        format!("finding {id} is already resolved")
    );
    run.edit_candidate("chapter_1", b"edited", None).unwrap();
    let edited = run.chapter_run("chapter_1").unwrap();
    assert_eq!(edited.candidate_text, "edited");
    assert_eq!(edited.candidate_hash(), sha256_text("edited"));
    assert!(!edited.is_approvable());
    assert!(edited.changeset.validation_hash.is_none());
    assert_eq!(
        run.resolve_false_positive(&id, "again".into()).unwrap_err(),
        format!("finding {id} is stale after a candidate edit")
    );
}

#[test]
fn failures_stop_strict_runs_only() {
    let mut run = RunController::new();
    let (story, chapter) = structure();
    run.set_preflight(true, true, true);
    run.set_structure(story).unwrap();
    run.set_plot_framework("three-act".into()).unwrap();
    run.set_request_maximum_cost(Some(MicroDollars::new(1_000)));
    let mut stopped = |_: &str, _: &ChapterWork, _: usize| {
        Err(ModelFailure::stopped("no".into()))
    };
    assert_eq!(drive(&mut run, &chapter, &mut stopped).err(), Some("no".to_string()));
    let mut ambiguous = |_: &str, _: &ChapterWork, _: usize| {
        Err(ModelFailure::ambiguous("lost".into()))
    };
    let mut fixture = RunController::fixture();
    assert_eq!(
        drive(&mut fixture, "chapter_1", &mut ambiguous).err(),
        Some("ambiguous model request: lost".to_string())
    );
    let written = drive(&mut fixture, "chapter_1", &mut stopped).unwrap();
    assert_eq!(written.run.candidate_text, "");
    let mut bounded = RunController::fixture();
    bounded.set_length_bounds(LengthUnit::Words, 3, 4).unwrap();
    let mut short = |_: &str, _: &ChapterWork, _: usize| text("one two");
    assert_eq!(
        drive(&mut bounded, "chapter_1", &mut short).err(),
        Some("chapter length 2 is outside 3..=4".to_string())
    );
    let mut work = bounded.write_chapter("chapter_1").unwrap();
    work = bounded.advance(work, WorkEvent::Replies(vec![text("plan")])).unwrap();
    assert_eq!(
        bounded.advance(work, WorkEvent::Contexts(Err("bad".into()))).err(),
        Some("context compilation stopped: bad".to_string())
    );
}

#[test]
fn prepared_changes_enter_the_changeset() {
    let mut run = RunController::fixture();
    let mut work = run.write_chapter("chapter_1").unwrap();
    assert!(!work.accepts(&WorkEvent::Replies(Vec::new())));
    assert!(!work.accepts(&WorkEvent::Contexts(Ok(Vec::new()))));
    assert!(!work.accepts(&WorkEvent::Prepared(Vec::new(), None)));
    work = run.advance(work, WorkEvent::Replies(vec![text("plan")])).unwrap();
    let context = vec![RoleContext { text: "ctx".into(), receipt: None }];
    work = run.advance(work, WorkEvent::Contexts(Ok(context))).unwrap();
    work = run.advance(work, WorkEvent::Replies(vec![text("prose")])).unwrap();
    assert_eq!(work.draft().architect_plan, "plan");
    assert_eq!(work.draft().writer_text, "prose");
    let change = PreparedChange {
        operations: Vec::new(),
        base_root_hash: "b".into(),
        content_result_hash: "c".into(),
        result_root_hash: "r".into(),
        candidate_hash: "h".into(),
    };
    work = run.advance(work, WorkEvent::Prepared(Vec::new(), Some(change))).unwrap();
    assert_eq!(work.phase(), Phase::CriticContexts);
    assert_eq!(work.roles_to_compile().len(), 3);
    while work.phase() != Phase::Checked {
        let event = match work.phase() {
            Phase::Reviewing => {
                WorkEvent::Replies(work.roles_to_ask().iter().map(|_| text("")).collect())
            }
            _ => WorkEvent::Contexts(Ok(work
                .roles_to_compile()
                .iter()
                .map(|_| RoleContext { text: "ctx".into(), receipt: None })
                .collect())),
        };
        work = run.advance(work, event).unwrap();
    }
    let sealed = run.seal_draft(work).unwrap();
    assert_eq!(sealed.change().candidate_hash, "h");
    assert_eq!(sealed.change().result_root_hash, "r");
    assert_eq!(sealed.work().candidate_text(), "prose");
}

#[test]
fn later_chapters_see_earlier_candidates_and_corrections() {
    let mut run = RunController::fixture();
    simple(&mut run, "chapter_1", "first");
    let accepted = run
        .accept_human_correction("chapter_1", "tea", "coffee", "project", None)
        .unwrap();
    assert!(is_prefixed_uuid(&accepted.rule.id, EntityKind::Rule));
    assert_eq!(accepted.rule.diff, "BEFORE:\ntea\nAFTER:\ncoffee");
    assert_eq!(accepted.rule.hash, sha256_text("BEFORE:\ntea\nAFTER:\ncoffee"));
    assert_eq!(accepted.rule.scope, CorrectionScope::Project);
    assert!(run.correction_receipt("chapter_1").is_empty());
    run.register_chapter("chapter_2".into(), 2, ChapterState::Planned);
    assert_eq!(run.correction_receipt("chapter_2").len(), 1);
    let mut seen = String::new();
    let mut answer = |prompt: &str, work: &ChapterWork, _: usize| match work.phase() {
        Phase::Writing => {
            seen = prompt.to_string();
            text("second")
        }
        _ => text(""),
    };
    let written = drive(&mut run, "chapter_2", &mut answer).unwrap();
    assert!(seen.contains(&format!("chapter_1={}", sha256_text("first"))));
    assert!(seen.contains("--- chapter_1 ---\nfirst"));
    assert!(seen.ends_with("Corrections: BEFORE:\ntea\nAFTER:\ncoffee"));
    assert_eq!(written.run.correction_receipts.len(), 1);
    run.note_upstream_edit("chapter_1").unwrap();
    assert_eq!(run.chapter("chapter_2").state, ChapterState::Stale);
    assert_eq!(
        run.write_chapter("chapter_2").err().map(|error| error.to_text()),
        Some("chapter chapter_2 is Stale; explicit regeneration or revalidation is required".into())
    );
}

#[test]
fn corrections_are_checked() {
    let mut run = RunController::continuous_fixture();
    let error = |run: &mut RunController, scope: &str, target: Option<&str>| {
        run.accept_human_correction("chapter_2", "a", "b", scope, target).unwrap_err()
    };
    assert_eq!(error(&mut run, "world", None), "unknown correction scope");
    assert_eq!(
        error(&mut run, "project", Some("x")),
        "project corrections cannot have a target"
    );
    assert_eq!(error(&mut run, "chapter", None), "scoped corrections require a target");
    assert_eq!(error(&mut run, "chapter", Some(" ")), "correction target is required");
    assert_eq!(
        error(&mut run, "scene", Some("chapter_2")),
        "correction target does not match its scope"
    );
    assert_eq!(
        error(&mut run, "chapter", Some("chapter_1")),
        "correction target must not precede its source chapter"
    );
    assert_eq!(
        run.accept_human_correction("chapter_9", "a", "b", "project", None).unwrap_err(),
        "source chapter chapter_9 was not found"
    );
    assert_eq!(
        run.accept_human_correction("chapter_2", " ", "b", "project", None).unwrap_err(),
        "correction before text is required"
    );
    assert_eq!(
        run.accept_human_correction("chapter_2", "a", " ", "project", None).unwrap_err(),
        "correction after text is required"
    );
    assert!(run
        .accept_human_correction("chapter_2", "a", "b", "chapter", Some("chapter_3"))
        .is_ok());
    assert_eq!(run.correction_receipt("chapter_3").len(), 1);
}

#[test]
fn upstream_edits_mark_later_chapters() {
    let mut run = RunController::continuous_fixture();
    run.note_upstream_edit("chapter_1").unwrap();
    assert_eq!(run.chapter("chapter_1").state, ChapterState::Approved);
    assert_eq!(run.chapter("chapter_2").state, ChapterState::Stale);
    assert_eq!(run.chapter("chapter_3").state, ChapterState::NeedsRevalidation);
    assert_eq!(
        run.note_upstream_edit("chapter_9").unwrap_err(),
        "chapter chapter_9 was not found"
    );
}

#[test]
fn only_a_human_approves() {
    let mut run = RunController::fixture();
    assert_eq!(
        run.approve_chapter("chapter_1").unwrap_err(),
        "chapter approval is human-only; use the trusted /approve command"
    );
    assert_eq!(
        run.edit_candidate("chapter_1", b"x", None).unwrap_err(),
        "chapter chapter_1 has no candidate"
    );
    let written = simple(&mut run, "chapter_1", "prose");
    let id = written.run.changeset.id.as_str().to_string();
    assert_eq!(run.chapter_of_changeset(&id).unwrap(), "chapter_1");
    assert_eq!(run.candidate_paths("chapter_1").unwrap().len(), 1);
    run.register_chapter("chapter_1".into(), 1, ChapterState::Approved);
    assert_eq!(
        run.reject_changeset_trusted(&id).unwrap_err(),
        "approved canon cannot be rejected"
    );
    assert_eq!(
        run.reject_changeset_trusted("change_x").unwrap_err(),
        "changeset change_x was not found"
    );
    assert_eq!(
        run.edit_candidate("chapter_1", b"x", None).unwrap_err(),
        "approved canon cannot be edited as a candidate"
    );
    let mut other = RunController::fixture();
    let written = simple(&mut other, "chapter_1", "prose");
    other.reject_changeset_trusted(written.run.changeset.id.as_str()).unwrap();
    assert_eq!(other.chapter("chapter_1").state, ChapterState::Rejected);
}

#[test]
fn added_findings_block_until_resolved() {
    let mut run = RunController::fixture();
    simple(&mut run, "chapter_1", "prose");
    let finding =
        run.add_finding("chapter_1", FindingKind::Timeline, "本文/a.md".into(), 0, 1, "x".into());
    assert_eq!(finding.candidate_hash, sha256_text("prose"));
    assert!(!run.chapter_run("chapter_1").unwrap().is_approvable());
    run.resolve_false_positive(&finding.id, "ok".into()).unwrap();
    assert!(run.chapter_run("chapter_1").unwrap().is_approvable());
    let loose = run.add_finding("chapter_7", FindingKind::Style, "a".into(), 0, 0, "x".into());
    assert_eq!(loose.candidate_hash, sha256_text(""));
}

#[test]
fn continuous_runs_have_ten_to_twelve_chapters() {
    let ids = |n: usize| -> Vec<String> { (1..=n).map(|i| format!("c{i:02}")).collect() };
    let mut run = RunController::new();
    assert_eq!(
        run.write_continuous(&ids(9)).unwrap_err(),
        "continuous runs require 10 to 12 chapters"
    );
    assert!(run.write_continuous(&ids(10)).is_ok());
    assert_eq!(run.chapter("c10").order, 10);
    let mut twice = ids(10);
    twice[3] = "c01".into();
    assert_eq!(
        run.write_continuous(&twice).unwrap_err(),
        "duplicate chapter in continuous run"
    );
    let mut moved = ids(10);
    moved.swap(0, 1);
    assert_eq!(
        run.write_continuous(&moved).unwrap_err(),
        "chapter order must be explicit and contiguous"
    );
    run.register_chapter("c01".into(), 1, ChapterState::NeedsRevalidation);
    assert_eq!(
        run.write_continuous(&ids(10)).unwrap_err(),
        "chapter c01 is NeedsRevalidation; continuous generation requires explicit revalidation"
    );
}

#[test]
fn requests_are_reserved_and_settled() {
    let mut run = RunController::fixture();
    run.set_request_price(Some(Price {
        input_per_million: MicroDollars::new(1_000_000),
        output_per_million: MicroDollars::new(2_000_000),
    }));
    let reservation = run.reserve_request("chapter_1").unwrap();
    assert_eq!(reservation.reserved_cost.as_u64(), 100_000);
    assert_eq!(run.cost_status().chapter.as_u64(), 100_000);
    let done = run.record_model_completion(&reservation, Some(Usage::new(10, 20)));
    assert!(done.outcome.is_ok());
    assert!(matches!(done.event, Some(SessionEvent::ModelCallCompleted { .. })));
    assert_eq!(run.cost_status().chapter.as_u64(), 50);
    assert_eq!(run.cost_status().run.as_u64(), 50);
    let second = run.reserve_request("chapter_1").unwrap();
    let open = run.record_model_completion(&second, None);
    assert!(open.outcome.is_ok() && open.event.is_none());
    assert_eq!(run.cost_status().chapter.as_u64(), 100_050);
    let again = run.record_model_completion(&reservation, Some(Usage::new(1, 1)));
    assert_eq!(again.outcome.unwrap_err(), "reservation is already settled");
    run.set_request_maximum_cost(None);
    assert_eq!(
        run.reserve_request("chapter_1").unwrap_err(),
        "unknown model price; generation is stopped"
    );
    run.set_request_maximum_cost(Some(MicroDollars::new(10_000_001)));
    assert_eq!(
        run.reserve_request("chapter_1").unwrap_err(),
        "chapter budget hard stop at $10 before model reservation"
    );
    run.attach_ledger(BudgetLedger::new(MicroDollars::zero(), MicroDollars::zero()));
    let lost = ModelFailure::ambiguous("lost".into());
    assert!(matches!(
        failure_event(&second, &lost),
        Some(SessionEvent::ModelCallAmbiguous { reserved_cost, .. }) if reserved_cost.as_u64() == 100_000
    ));
    assert!(failure_event(&second, &ModelFailure::stopped("no".into())).is_none());
    assert_eq!(model_error(&lost), "ambiguous model request: lost");
}

#[test]
fn coordinator_requests_change_no_canon() {
    let mut run = RunController::fixture();
    let recorded = run.record_coordinator_request("hi").unwrap();
    assert_eq!(recorded.reply, "coordinator request recorded: hi; canon unchanged");
    assert_eq!(recorded.entry.context_hash, sha256_text("hi"));
    assert_eq!(
        run.record_coordinator_request(" ").unwrap_err(),
        "coordinator request is empty"
    );
    assert!(matches!(
        run.plan_coordinator_request("fix"),
        Ok(SessionEvent::UserInstruction { text }) if text == "coordinator: fix"
    ));
    assert!(run.begin_coordinator_request(AgentRole::Reviser, " ").is_err());
    let paid = run.begin_coordinator_request(AgentRole::Reviser, "fix").unwrap();
    assert_eq!(paid.request().role, "reviser");
    assert_eq!(paid.reservation().chapter_id, "coordinator");
    assert_eq!(request_context_hash(paid.request()), {
        let mut bytes = b"user\0fix".to_vec();
        bytes.push(0xff);
        phemius::hash::sha256_bytes(&bytes)
    });
    run.require_recovery();
    assert!(run.record_coordinator_request("hi").is_err());
}

#[test]
fn checkpoints_hold_the_facts_of_a_run() {
    let mut run = RunController::fixture();
    simple(&mut run, "chapter_1", "prose");
    let finding =
        run.add_finding("chapter_1", FindingKind::Canon, "a".into(), 0, 0, "x".into());
    let empty = SessionJournal::create("s".into());
    assert_eq!(
        run.checkpoint(&empty, "h").unwrap_err(),
        "cannot checkpoint an empty session journal"
    );
    let mut journal = SessionJournal::create("s".into());
    journal.append(SessionEvent::UserInstruction { text: "x".into() }, 0);
    let point = run.checkpoint(&journal, "h").unwrap();
    assert_eq!(point.canon_fact_hashes, vec![sha256_text("prose")]);
    assert_eq!(point.blocker_ids.len(), 1);
    assert_eq!(point.blocker_ids[0].as_str(), finding.id);
    assert_eq!(point.context_epochs[0].checkpoint_hash, "h");
    assert_eq!(point.recent_raw_tail_tokens, 15_000);
}

#[test]
fn copied_prose_does_not_pass_the_gates() {
    let source: String = (0..60).map(|i| format!("word{i} ")).collect();
    let files = vec![FileEntry { path: "前提/作品.md".into(), bytes: source.clone().into_bytes() }];
    assert_eq!(
        validate_project_quality_gates(Ok(()), &source, &files).unwrap_err(),
        "near-copy validator found a blocking source match"
    );
    assert!(validate_project_quality_gates(Ok(()), "something else", &files).is_ok());
    assert_eq!(
        validate_project_quality_gates(Err("no manifest".into()), "x", &files).unwrap_err(),
        "no manifest"
    );
}
