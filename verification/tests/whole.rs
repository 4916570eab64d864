use phemius::candidate::{
    hash_project_change, parent_of, prepare_project_change, project_dependencies, revise_files,
    update_project_change, ChangeIds,
};
use phemius::changeset::{
    approval_record_bytes, approval_record_relative_path, copy_dependencies, ApprovalRecord,
    Changeset, ChangesetState, FileOperation, OperationKind,
};
use phemius::cost::{BudgetLedger, MicroDollars, Price, Usage};
use phemius::domain::{prefixed_uuid, EntityKind};
use phemius::hash::sha256_bytes;
use phemius::model::{ModelResponse, ModelResult};
use phemius::paths::{find_file, remove_file, write_file, FileEntry};
use phemius::plot::{FrameworkDefinition, StoryStructure};
use phemius::project::{
    initialize_project, parse_markdown, render_markdown, InitAnswers, Project, ProjectConfig,
};
use phemius::records::ChapterState;
use phemius::session::SessionEvent;
use phemius::sources::{ManifestDocument, Snapshot, SourceEntry, SourceKind, SourceScope, SourceTier};
use phemius::validation::{
    canon_root_hash, walk_entry, ApprovalFile, CandidateReport, EntryKind, ProjectSnapshot,
    TargetReport, TargetStatus, WalkStep,
};
use phemius::workflow::chapter::{
    check_gates, GateEvidence, Phase, RoleContext, WorkEvent, WrittenChapter,
};
use phemius::workflow::{check_proof, EditedFiles, RunController, RunSettings};

const APPROVALS: &str = "/work/.phemius/records/approvals";

struct Disk {
    files: Vec<FileEntry>,
    approvals: Vec<ApprovalFile>,
    config: ProjectConfig,
}

impl Disk {
    fn new() -> Disk {
        let plan = initialize_project(
            &InitAnswers::minimal("Title".into()),
            &prefixed_uuid(EntityKind::Work),
            &prefixed_uuid(EntityKind::Changeset),
        )
        .unwrap();
        let mut files = Vec::new();
        for file in plan.files {
            write_file(&mut files, file.path, file.bytes);
        }
        Disk { files, approvals: Vec::new(), config: plan.config }
    }

    fn project(&self) -> Project {
        Project {
            root: "/work".into(),
            config: ProjectConfig {
                format_version: self.config.format_version,
                work_id: self.config.work_id.copy(),
            },
        }
    }

    fn is_canon(path: &str) -> bool {
        let parts: Vec<&str> = path.split('/').collect();
        let mut relative = String::new();
        for (i, part) in parts.iter().enumerate() {
            let last = i + 1 == parts.len();
            let kind = if last { EntryKind::File } else { EntryKind::Directory };
            match walk_entry(&relative, part, kind).unwrap() {
                WalkStep::Skip => return false,
                WalkStep::Descend(next) => relative = next,
                WalkStep::Read(_) => return true,
            }
        }
        false
    }

    fn canon(&self) -> Vec<FileEntry> {
        let canon = self.files.iter().filter(|file| Disk::is_canon(&file.path));
        canon.map(|file| file.copy()).collect()
    }

    fn snapshot(&self, operations: &[FileOperation]) -> ProjectSnapshot {
        let mut targets = Vec::new();
        let mut candidates = Vec::new();
        for operation in operations {
            let status = match find_file(&self.files, &operation.path) {
                Some(_) => TargetStatus::Regular,
                None => TargetStatus::Absent,
            };
            targets.push(TargetReport { path: operation.path.clone(), status });
            if let Some(path) = &operation.candidate_path {
                let content = match find_file(&self.files, path) {
                    Some(file) => Ok(file.bytes.clone()),
                    None => Err("missing".into()),
                };
                candidates.push(CandidateReport { path: path.clone(), content });
            }
        }
        let approvals = self
            .approvals
            .iter()
            .map(|file| ApprovalFile {
                name: file.name.clone(),
                regular: file.regular,
                bytes: file.bytes.clone(),
                record: match &file.record {
                    Ok(record) => Ok(copy_record(record)),
                    Err(error) => Err(error.clone()),
                },
            })
            .collect();
        ProjectSnapshot { canon: self.canon(), targets, candidates, approvals }
    }

    fn apply(&mut self, change: &Changeset) {
        for operation in &change.operations {
            match &operation.candidate_path {
                Some(path) => {
                    let bytes = find_file(&self.files, path).unwrap().bytes.clone();
                    write_file(&mut self.files, operation.path.clone(), bytes);
                }
                None => remove_file(&mut self.files, &operation.path),
            }
        }
        let bytes = approval_record_bytes(change).unwrap();
        let value: serde_json::Value = serde_json::from_slice(&bytes).unwrap();
        let text = |name: &str| value[name].as_str().unwrap().to_string();
        self.approvals.push(ApprovalFile {
            name: format!("{}.json", change.id.as_str()),
            regular: true,
            bytes: bytes.clone(),
            record: Ok(ApprovalRecord {
                changeset_id: change.id.copy(),
                base_root_hash: text("base_root_hash"),
                candidate_hash: text("candidate_hash"),
                operations_hash: text("operations_hash"),
                content_result_hash: text("content_result_hash"),
                validation_hash: text("validation_hash"),
                dependencies: copy_dependencies(&change.dependencies),
                chapter_order: value["chapter_order"].as_u64().unwrap() as u32,
            }),
        });
        let record = approval_record_relative_path(&change.id);
        write_file(&mut self.files, record, bytes);
    }
}

fn copy_record(record: &ApprovalRecord) -> ApprovalRecord {
    ApprovalRecord {
        changeset_id: record.changeset_id.copy(),
        base_root_hash: record.base_root_hash.clone(),
        candidate_hash: record.candidate_hash.clone(),
        operations_hash: record.operations_hash.clone(),
        content_result_hash: record.content_result_hash.clone(),
        validation_hash: record.validation_hash.clone(),
        dependencies: copy_dependencies(&record.dependencies),
        chapter_order: record.chapter_order,
    }
}

fn reply(text: &str) -> ModelResult<ModelResponse> {
    Ok(ModelResponse { text: text.into(), tool_calls: Vec::new(), usage: None })
}

fn write(
    run: &mut RunController,
    disk: &mut Disk,
    chapter: &str,
    critic: &str,
) -> Result<WrittenChapter, String> {
    write_under(run, disk, chapter, critic, Ok(()))
}

fn write_under(
    run: &mut RunController,
    disk: &mut Disk,
    chapter: &str,
    critic: &str,
    manifest: Result<(), String>,
) -> Result<WrittenChapter, String> {
    let mut work = run.write_chapter(chapter).map_err(|error| error.to_text())?;
    let mut critic = critic.to_string();
    while work.phase() != Phase::Checked {
        let event = match work.phase() {
            Phase::Planning => WorkEvent::Replies(vec![reply("plan")]),
            Phase::Writing => WorkEvent::Replies(vec![reply("First draft.")]),
            Phase::Reviewing => {
                let count = work.roles_to_ask().len();
                let replies = (0..count).map(|_| reply(&critic)).collect();
                critic.clear();
                WorkEvent::Replies(replies)
            }
            Phase::Revising => WorkEvent::Replies(vec![reply("Second draft.")]),
            Phase::WriterContext | Phase::CriticContexts | Phase::ReviserContext => {
                WorkEvent::Contexts(Ok(work
                    .roles_to_compile()
                    .iter()
                    .map(|_| RoleContext { text: "ctx".into(), receipt: None })
                    .collect()))
            }
            Phase::Preparing => {
                let deps = project_dependencies(&disk.approvals, APPROVALS, work.order())?;
                let base = canon_root_hash(&disk.snapshot(&[]));
                let planned = prepare_project_change(
                    work.changeset_id(),
                    &work.draft(),
                    &ChangeIds::generate(),
                    &disk.canon(),
                )?;
                for file in planned.files {
                    write_file(&mut disk.files, file.path, file.bytes);
                }
                let now = disk.snapshot(&planned.operations);
                let prepared = hash_project_change(
                    &now,
                    work.changeset_id(),
                    parent_of(&deps),
                    base,
                    planned.operations,
                    copy_dependencies(&deps),
                    work.order(),
                )?;
                WorkEvent::Prepared(deps, Some(prepared))
            }
            Phase::Updating => {
                let previous = work.prepared().unwrap();
                let current = candidate_files(disk, &previous.operations);
                let revised = revise_files(current, work.candidate_text());
                for file in &revised {
                    write_file(&mut disk.files, file.path.clone(), file.bytes.clone());
                }
                let now = disk.snapshot(&previous.operations);
                let prepared = update_project_change(
                    &now,
                    work.changeset_id(),
                    previous,
                    &revised,
                    copy_dependencies(work.dependencies()),
                    work.order(),
                )?;
                WorkEvent::Prepared(copy_dependencies(work.dependencies()), Some(prepared))
            }
            Phase::Checked => unreachable!(),
        };
        assert!(work.accepts(&event));
        work = run.advance(work, event)?;
    }
    let draft = run.seal_draft(work)?;
    let snapshot = disk.snapshot(&draft.change().operations);
    check_gates(
        &disk.project(),
        &snapshot,
        draft.change(),
        Ok(()),
        draft.work().candidate_text(),
        &[],
    )?;
    run.finish_chapter(draft, Some(GateEvidence { snapshot, manifest, sources: Vec::new() }))
}

fn candidate_files(disk: &Disk, operations: &[FileOperation]) -> Vec<FileEntry> {
    phemius::candidate::manuscript_paths(operations)
        .iter()
        .map(|path| find_file(&disk.files, path).unwrap().copy())
        .collect()
}

fn approve(run: &mut RunController, disk: &mut Disk, chapter: &str) -> Result<(), String> {
    let operations = &run.chapter_run(chapter).unwrap().changeset.operations;
    let now = disk.snapshot(operations);
    let unproved =
        run.plan_approval(chapter, APPROVALS, &now).map_err(|error| error.to_text())?;
    let planned =
        run.plan_approval(chapter, APPROVALS, &now).map_err(|error| error.to_text())?;
    let change = planned.change();
    assert_eq!(planned.chapter_id(), chapter);
    disk.apply(change);
    let record = find_file(&disk.files, &approval_record_relative_path(&change.id)).unwrap();
    check_proof(change, &record.bytes).unwrap();
    assert!(check_proof(change, b"other").is_err());
    assert_eq!(canon_root_hash(&disk.snapshot(&[])), change.result_root_hash);
    let before = run.chapter(chapter).state;
    assert_eq!(
        run.finish_approval(unproved, b"other").unwrap_err().to_text(),
        "approval durable proof failed: approval record bytes do not match validated proof"
    );
    assert_eq!(run.chapter(chapter).state, before);
    let entry = run.finish_approval(planned, &record.bytes).unwrap();
    assert!(matches!(
        entry.event,
        SessionEvent::ChangesetStateChanged { state: ChangesetState::Approved, .. }
    ));
    Ok(())
}

#[test]
fn chapters_become_canon_one_after_the_other() {
    let mut disk = Disk::new();
    let mut run = RunController::fixture_with_project(disk.project());
    let missing = Err("required source manifest is missing".to_string());
    assert_eq!(
        write_under(&mut run, &mut disk, "one", "", missing).err(),
        Some("required source manifest is missing".into())
    );
    assert!(run.chapter_run("one").is_none());
    let first = write(&mut run, &mut disk, "one", "").unwrap();
    assert_eq!(first.run.state, ChapterState::Approvable);
    let manuscript = &first.run.changeset.operations[0];
    assert_eq!(manuscript.path, "本文/one.md");
    assert_eq!(manuscript.kind, OperationKind::Create);
    let second = write(&mut run, &mut disk, "two", "").unwrap();
    assert!(second.run.changeset.dependencies.is_empty());
    assert_eq!(
        approve(&mut run, &mut disk, "two").unwrap_err(),
        "chapters must be approved in order"
    );
    approve(&mut run, &mut disk, "one").unwrap();
    assert_eq!(run.chapter_opt("one").unwrap().state, ChapterState::Approved);
    assert!(run.chapter_opt("three").is_none());
    let text = find_file(&disk.files, "本文/one.md").unwrap();
    assert!(String::from_utf8_lossy(&text.bytes).ends_with("First draft."));
    let error = approve(&mut run, &mut disk, "two").unwrap_err();
    assert!(error.contains("validation"), "{error}");
    let again = write(&mut run, &mut disk, "two", "").unwrap();
    assert_eq!(again.run.changeset.dependencies.len(), 1);
    assert_eq!(
        again.run.changeset.dependencies[0].approval_record_sha256,
        sha256_bytes(&disk.approvals[0].bytes)
    );
    approve(&mut run, &mut disk, "two").unwrap();
    assert_eq!(disk.approvals.len(), 2);
}

#[test]
fn revised_candidate_is_what_gets_approved() {
    let mut disk = Disk::new();
    let mut run = RunController::fixture_with_project(disk.project());
    let written =
        write(&mut run, &mut disk, "one", "FINDING|canon|本文/one.md|0|5|wrong").unwrap();
    assert_eq!(written.run.candidate_text, "Second draft.");
    assert_eq!(written.run.trace.reviser_calls, 1);
    approve(&mut run, &mut disk, "one").unwrap();
    let text = find_file(&disk.files, "本文/one.md").unwrap();
    assert!(String::from_utf8_lossy(&text.bytes).ends_with("Second draft."));
}

#[test]
fn edited_candidate_keeps_its_changeset() {
    let mut disk = Disk::new();
    let mut run = RunController::fixture_with_project(disk.project());
    let written = write(&mut run, &mut disk, "one", "").unwrap();
    let id = written.run.changeset.id.as_str().to_string();
    let before = written.run.changeset.candidate_hash.clone();
    let paths = run.candidate_paths("one").unwrap();
    let current: Vec<FileEntry> =
        paths.iter().map(|path| find_file(&disk.files, path).unwrap().copy()).collect();
    let files = revise_files(current, "By hand.");
    for file in &files {
        write_file(&mut disk.files, file.path.clone(), file.bytes.clone());
    }
    let snapshot = disk.snapshot(&run.chapter_run("one").unwrap().changeset.operations);
    run.edit_candidate("one", b"By hand.", Some(EditedFiles { files, snapshot })).unwrap();
    let edited = run.chapter_run("one").unwrap();
    assert_eq!(edited.candidate_text, "By hand.");
    assert_eq!(edited.changeset.id.as_str(), id);
    assert_ne!(edited.changeset.candidate_hash, before);
    assert!(edited.changeset.validation_hash.is_none());
    let error = approve(&mut run, &mut disk, "one").unwrap_err();
    assert!(error.contains("validation"), "{error}");
}

#[test]
fn changed_canon_refuses_the_approval() {
    let mut disk = Disk::new();
    let mut run = RunController::fixture_with_project(disk.project());
    write(&mut run, &mut disk, "one", "").unwrap();
    write_file(&mut disk.files, "前提/伏線.md".into(), b"---\nid: other\n---\n".to_vec());
    assert!(approve(&mut run, &mut disk, "one").is_err());
    assert!(disk.approvals.is_empty());
    assert_eq!(run.chapter_opt("one").unwrap().state, ChapterState::Approvable);
}

#[test]
fn project_settings_are_read_strictly() {
    let disk = Disk::new();
    let settings = |maximum: &str| RunSettings {
        maximum_request: Some(maximum.into()),
        input_price: Some("1000000".into()),
        output_price: Some("2000000".into()),
        structure: Some(StoryStructure {
            parts: Vec::new(),
            chapters: Vec::new(),
            scenes: Vec::new(),
            boxes: Vec::new(),
            macro_beats: Vec::new(),
        }),
        framework: Some(FrameworkDefinition {
            id: "mine".into(),
            name: "Mine".into(),
            stages: Vec::new(),
            beats: Vec::new(),
        }),
    };
    let mut run = RunController::with_project(disk.project(), settings("300000"));
    assert!(run.structure().is_some());
    assert_eq!(run.project().unwrap().root, "/work");
    let reservation = run.reserve_request("c").unwrap();
    assert_eq!(reservation.reserved_cost.as_u64(), 300_000);
    let mut run = RunController::with_project(disk.project(), settings("3 dollars"));
    assert_eq!(
        run.reserve_request("c").unwrap_err(),
        "unknown model price; generation is stopped"
    );
}

#[test]
fn unstored_costs_are_taken_back() {
    let mut run = RunController::fixture();
    run.attach_ledger(BudgetLedger::new(MicroDollars::zero(), MicroDollars::zero()));
    run.set_request_maximum_cost(Some(MicroDollars::new(1_000_000)));
    run.set_request_price(Some(Price {
        input_per_million: MicroDollars::new(1_000_000),
        output_per_million: MicroDollars::new(1_000_000),
    }));
    let before = run.cost_status();
    let reservation = run.reserve_request("c").unwrap();
    assert_eq!(run.cost_status().chapter.as_u64(), 1_000_000);
    run.cancel_request(&reservation, before);
    assert_eq!(run.cost_status(), before);
    let unknown = run.record_model_completion(&reservation, Some(Usage::new(1, 1)));
    assert!(unknown.outcome.is_err());
    assert!(unknown.settled.is_none());

    let reservation = run.reserve_request("c").unwrap();
    let held = run.cost_status();
    let completion = run.record_model_completion(&reservation, Some(Usage::new(100, 100)));
    assert!(completion.outcome.is_ok());
    assert_eq!(
        completion.settled.unwrap().to_line().trim_end(),
        format!(
            "{{\"event\":\"settled\",\"request_id\":\"{}\",\"actual_cost\":200}}",
            reservation.request_id.as_str()
        )
    );
    assert_eq!(run.cost_status().chapter.as_u64(), 200);
    run.unsettle_request(&reservation, held);
    assert_eq!(run.cost_status(), held);
    let settled = run.record_model_completion(&reservation, Some(Usage::new(50, 50)));
    assert!(settled.outcome.is_ok());
    assert_eq!(run.cost_status().chapter.as_u64(), 100);
}

#[test]
fn manifests_are_rendered_in_order() {
    let bytes = b"---\nid: manifest_1\n---\nnotes\n";
    let mut document = ManifestDocument::parse(bytes, Ok(Vec::new())).unwrap_or_else(|_| panic!("bad"));
    let snapshot =
        Snapshot::from_text(SourceKind::Markdown, b"# text", false).unwrap_or_else(|_| panic!("bad"));
    let entry = |id: &str| {
        SourceEntry::from_snapshot(
            phemius::domain::EntityId::from_stored(id.into()),
            SourceScope::Work,
            SourceTier::Optional,
            &snapshot,
        )
    };
    let first = "source_0190a1b2-0000-7000-8000-000000000001";
    let second = "source_0190a1b2-0000-7000-8000-000000000002";
    document.manifest_mut().entries.push(entry(second));
    document.manifest_mut().entries.push(entry(first));
    let (mut artifact, manifest) = document.render().unwrap_or_else(|_| panic!("bad"));
    assert_eq!(manifest.entries()[0].source_id.as_str(), first);
    assert_eq!(manifest.entries()[1].source_id.as_str(), second);
    assert_eq!(render_markdown(&artifact).unwrap(), bytes.to_vec());
    let mut mapping = artifact.frontmatter().clone();
    mapping.insert(
        yaml_serde::Value::String("sources".into()),
        yaml_serde::Value::String("two".into()),
    );
    artifact.set_frontmatter(mapping);
    let text = String::from_utf8(render_markdown(&artifact).unwrap()).unwrap();
    assert_eq!(text, "---\nid: manifest_1\nsources: two\n---\nnotes\n");
    let read = parse_markdown(text.as_bytes()).unwrap();
    assert_eq!(read.text("sources").unwrap(), "two");

    let mut broken = ManifestDocument::parse(bytes, Ok(Vec::new())).unwrap_or_else(|_| panic!("bad"));
    broken.manifest_mut().entries.push(entry("source_x"));
    assert!(broken.render().is_err());
}
