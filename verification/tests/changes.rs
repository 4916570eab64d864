use phemius::candidate::{
    append_candidate, hash_project_change, manuscript_paths, parent_of, prepare_project_change,
    project_dependencies, replace_candidate_body, revise_files, update_project_change, ChangeIds,
    DraftText,
};
use phemius::changeset::{
    approval_record_bytes, approval_record_path, approval_record_relative_path,
    calculate_validation_hash, mark_candidate_hash_changed, mark_descendants, ApprovalRecord,
    Changeset, ChangesetDependency, ChangesetState, FileOperation, OperationKind,
    ValidationErrorKind,
};
use phemius::domain::{is_known_entity_id, is_prefixed_uuid, prefixed_uuid, EntityId, EntityKind};
use phemius::hash::sha256_bytes;
use phemius::paths::{before_path, FileEntry};
use phemius::project::{
    initialize_project, parse_config, parse_markdown, render_markdown, InitAnswers, Project,
};
use phemius::records::CorrectionReceipt;
use phemius::validation::{
    calculate_candidate_hash, canon_root_hash, render_diff, scan_approval_records,
    validate_candidate_lexical, validate_changeset, validate_target_lexical, walk_entry,
    ApprovalFile, CandidateReport, EntryKind, ProjectSnapshot, TargetReport, TargetStatus,
    WalkStep,
};

fn new_project() -> (Project, Vec<FileEntry>) {
    let work = prefixed_uuid(EntityKind::Work);
    let candidate = prefixed_uuid(EntityKind::Changeset);
    let plan = initialize_project(&InitAnswers::minimal("Title".into()), &work, &candidate).unwrap();
    let mut canon: Vec<FileEntry> = plan
        .files
        .into_iter()
        .filter(|file| !file.path.starts_with(".phemius/runtime"))
        .collect();
    canon.sort_by(|a, b| {
        if before_path(&a.path, &b.path) {
            std::cmp::Ordering::Less
        } else if a.path == b.path {
            std::cmp::Ordering::Equal
        } else {
            std::cmp::Ordering::Greater
        }
    });
    (Project { root: "/novel".into(), config: plan.config }, canon)
}

fn copies(list: &[FileEntry]) -> Vec<FileEntry> {
    list.iter().map(|file| file.copy()).collect()
}

fn snapshot(canon: &[FileEntry], candidates: &[FileEntry], ops: &[FileOperation]) -> ProjectSnapshot {
    ProjectSnapshot {
        canon: copies(canon),
        targets: ops
            .iter()
            .map(|op| TargetReport {
                path: op.path.clone(),
                status: if canon.iter().any(|file| file.path == op.path) {
                    TargetStatus::Regular
                } else {
                    TargetStatus::Absent
                },
            })
            .collect(),
        candidates: candidates
            .iter()
            .map(|file| CandidateReport {
                path: file.path.clone(),
                content: Ok(file.bytes.clone()),
            })
            .collect(),
        approvals: Vec::new(),
    }
}

fn draft(text: &str) -> DraftText {
    DraftText {
        chapter_id: "chapter_1".into(),
        writer_text: text.into(),
        compiled_context: "sources".into(),
        context_receipt: "{}".into(),
        architect_plan: "plan".into(),
        corrections: vec![CorrectionReceipt {
            rule_id: "rule".into(),
            hash: "h".into(),
            directive: "say \"x\"".into(),
        }],
    }
}

struct Prepared {
    project: Project,
    canon: Vec<FileEntry>,
    files: Vec<FileEntry>,
    change: Changeset,
}

fn prepared() -> Prepared {
    let (project, canon) = new_project();
    let id = prefixed_uuid(EntityKind::Changeset);
    let plan = prepare_project_change(&id, &draft("once"), &ChangeIds::generate(), &canon).unwrap();
    let before = snapshot(&canon, &plan.files, &plan.operations);
    let base = canon_root_hash(&before);
    let ops: Vec<FileOperation> = plan.operations.iter().map(|op| op.copy()).collect();
    let done =
        hash_project_change(&before, &id, None, base, ops, Vec::new(), 1).unwrap();
    let mut change = Changeset {
        id,
        parent_changeset_id: None,
        base_root_hash: done.base_root_hash,
        content_result_hash: done.content_result_hash,
        result_root_hash: done.result_root_hash,
        state: ChangesetState::Approvable,
        operations: done.operations,
        candidate_hash: done.candidate_hash,
        validation_hash: None,
        unresolved_blocker_ids: Vec::new(),
        dependencies: Vec::new(),
        chapter_order: 1,
    };
    change.validation_hash = Some(calculate_validation_hash(&change));
    Prepared { project, canon, files: plan.files, change }
}

fn refusal(p: &Prepared, change: &Changeset) -> ValidationErrorKind {
    let shot = snapshot(&p.canon, &p.files, &change.operations);
    validate_changeset(&p.project, &shot, change).unwrap_err().kind()
}

#[test]
fn new_project_has_its_files() {
    let (project, canon) = new_project();
    assert!(is_prefixed_uuid(project.config.work_id.as_str(), EntityKind::Work));
    for path in [
        "project.toml",
        "前提/時系列.md",
        "前提/伏線.md",
        "資料/manifest.md",
    ] {
        assert!(canon.iter().any(|file| file.path == path), "{path}");
    }
    let config = canon.iter().find(|file| file.path == "project.toml").unwrap();
    let parsed = parse_config(std::str::from_utf8(&config.bytes).unwrap()).unwrap();
    assert_eq!(parsed.work_id.as_str(), project.config.work_id.as_str());
    assert_eq!(parsed.format_version, 1);
    assert!(parse_config("format_version = \"x\"").is_none());
    let id = prefixed_uuid(EntityKind::Work);
    assert_eq!(
        initialize_project(&InitAnswers::minimal(" ".into()), &id, &id).unwrap_err(),
        "project title is required"
    );
}

#[test]
fn project_paths_stay_inside() {
    let (project, _) = new_project();
    assert_eq!(project.resolve_path("本文/a.md").unwrap(), "/novel/本文/a.md");
    assert_eq!(project.resolve_path("/etc").unwrap_err(), "project path must be relative");
    assert_eq!(
        project.resolve_path("a/../b").unwrap_err(),
        "unsafe project-relative path: a/../b"
    );
    assert!(project.resolve_path("a/.git/b").is_err());
}

#[test]
fn identifiers_have_prefix_and_version() {
    let id = prefixed_uuid(EntityKind::Chapter);
    assert!(id.as_str().starts_with("chapter_"));
    assert!(is_prefixed_uuid(id.as_str(), EntityKind::Chapter));
    assert!(!is_prefixed_uuid(id.as_str(), EntityKind::Scene));
    assert!(is_known_entity_id("world_1"));
    assert!(!is_known_entity_id("chapter_1"));
    assert!(!is_prefixed_uuid(
        "chapter_00000000-0000-4000-8000-000000000000",
        EntityKind::Chapter
    ));
    assert!(EntityId::from_validated("x".into()).is_none());
}

#[test]
fn markdown_keeps_what_was_not_changed() {
    let source = b"---\nid: world_1 # note\n---\nbody\n";
    let artifact = parse_markdown(source).unwrap();
    assert_eq!(artifact.text("id"), Some("world_1".to_string()));
    assert_eq!(artifact.body(), b"body\n".to_vec());
    assert_eq!(render_markdown(&artifact).unwrap(), source.to_vec());
    assert!(parse_markdown(b"no frontmatter").is_err());
}

#[test]
fn prepared_change_is_valid() {
    let p = prepared();
    let shot = snapshot(&p.canon, &p.files, &p.change.operations);
    assert!(validate_changeset(&p.project, &shot, &p.change).is_ok());
    assert_eq!(p.files.len(), 7);
    assert_eq!(p.change.operations[0].kind, OperationKind::Create);
    assert_eq!(p.change.operations[0].path, "本文/chapter_1.md");
    assert_eq!(p.change.operations[1].kind, OperationKind::Replace);
    let manuscript = String::from_utf8(p.files[0].bytes.clone()).unwrap();
    assert!(manuscript.starts_with("---\nid: chapter_"));
    assert!(manuscript.ends_with("\n---\nonce"));
    let timeline = String::from_utf8(p.files[1].bytes.clone()).unwrap();
    assert!(timeline.ends_with("<!-- phemius candidate -->\nonce"));
    let context = String::from_utf8(p.files[4].bytes.clone()).unwrap();
    assert!(context.ends_with(
        "# context receipt\n\n{}\n\n# compiled context\nsources\n\n# correction receipts\n[{\"rule_id\":\"rule\",\"hash\":\"h\",\"directive\":\"say \\\"x\\\"\"}]\n"
    ));
    let diff = render_diff(&p.project, &shot, &p.change).unwrap();
    assert!(diff.contains("+once"));
}

#[test]
fn missing_canon_file_stops_preparation() {
    let (_, canon) = new_project();
    let id = prefixed_uuid(EntityKind::Changeset);
    let without: Vec<FileEntry> =
        canon.iter().filter(|file| file.path != "前提/伏線.md").map(|file| file.copy()).collect();
    assert_eq!(
        prepare_project_change(&id, &draft("x"), &ChangeIds::generate(), &without).unwrap_err(),
        "required canon artifact is missing: 前提/伏線.md"
    );
}

#[test]
fn changed_facts_are_refused() {
    let p = prepared();
    let mut change = p.change.copy();
    change.state = ChangesetState::Stale;
    assert_eq!(refusal(&p, &change), ValidationErrorKind::Stale);
    change.state = ChangesetState::NeedsRevalidation;
    assert_eq!(refusal(&p, &change), ValidationErrorKind::NeedsRevalidation);
    change.state = ChangesetState::Incomplete;
    assert_eq!(refusal(&p, &change), ValidationErrorKind::Incomplete);
    change.state = ChangesetState::Approved;
    assert_eq!(refusal(&p, &change), ValidationErrorKind::NotApprovable);
    let mut change = p.change.copy();
    change.unresolved_blocker_ids.push(prefixed_uuid(EntityKind::Finding));
    assert_eq!(refusal(&p, &change), ValidationErrorKind::Blockers);
    let mut change = p.change.copy();
    change.base_root_hash = sha256_bytes(b"other");
    assert_eq!(refusal(&p, &change), ValidationErrorKind::BaseRoot);
    let mut change = p.change.copy();
    change.candidate_hash = sha256_bytes(b"other");
    assert_eq!(refusal(&p, &change), ValidationErrorKind::CandidateHash);
    let mut change = p.change.copy();
    change.content_result_hash = sha256_bytes(b"other");
    assert_eq!(refusal(&p, &change), ValidationErrorKind::ResultRoot);
    let mut change = p.change.copy();
    change.validation_hash = None;
    assert_eq!(refusal(&p, &change), ValidationErrorKind::ValidationHash);
    let mut change = p.change.copy();
    change.result_root_hash = sha256_bytes(b"other");
    assert_eq!(refusal(&p, &change), ValidationErrorKind::ResultRoot);
    let mut change = p.change.copy();
    change.chapter_order = 2;
    change.validation_hash = Some(calculate_validation_hash(&change));
    assert_eq!(refusal(&p, &change), ValidationErrorKind::DependencyOrder);
    let mut change = p.change.copy();
    change.operations[1].before_sha256 = Some(sha256_bytes(b"other"));
    assert_eq!(refusal(&p, &change), ValidationErrorKind::HashMismatch);
    let mut change = p.change.copy();
    change.operations[0].path = ".phemius/records/approvals/x.json".into();
    assert_eq!(refusal(&p, &change), ValidationErrorKind::ApprovalNamespace);
    let mut change = p.change.copy();
    change.operations[0].affected_entities.clear();
    assert_eq!(refusal(&p, &change), ValidationErrorKind::InvalidOperation);
    let mut change = p.change.copy();
    change.operations[0].candidate_path = Some("本文/chapter_1.md".into());
    assert_eq!(refusal(&p, &change), ValidationErrorKind::CandidatePath);
}

#[test]
fn targets_and_candidates_are_confined() {
    assert!(validate_target_lexical("本文/a.md").is_ok());
    assert_eq!(validate_target_lexical("/a").unwrap_err().kind(), ValidationErrorKind::InvalidPath);
    assert!(validate_target_lexical("a/../b").is_err());
    assert!(validate_target_lexical(".GIT/config").is_err());
    assert!(validate_target_lexical(".phemius/runtime/x").is_err());
    assert!(validate_target_lexical(".phemius/local.toml").is_err());
    let id = prefixed_uuid(EntityKind::Changeset);
    let inside = format!(".phemius/runtime/candidates/{}/a.md", id.as_str());
    assert!(validate_candidate_lexical(&id, &inside).is_ok());
    assert!(validate_candidate_lexical(&id, ".phemius/runtime/candidates/other/a.md").is_err());
    assert_eq!(
        validate_target_lexical("").unwrap_err().to_text(),
        "invalid-path: path must be project-relative: "
    );
}

#[test]
fn walking_skips_runtime_and_refuses_links() {
    assert!(matches!(walk_entry("", "本文", EntryKind::Directory), Ok(WalkStep::Descend(_))));
    assert!(walk_entry("本文", "a.md", EntryKind::Symlink).is_err());
    assert!(walk_entry("本文", "a.md", EntryKind::Special).is_err());
}

#[test]
fn approval_record_is_found_and_chained() {
    let p = prepared();
    let bytes = approval_record_bytes(&p.change).unwrap();
    let text = String::from_utf8(bytes.clone()).unwrap();
    assert!(text.starts_with("{\n  \"changeset_id\": \"change_"));
    assert_eq!(
        approval_record_relative_path(&p.change.id),
        format!(".phemius/records/approvals/{}.json", p.change.id.as_str())
    );
    assert_eq!(
        approval_record_path("/novel", &p.change.id),
        format!("/novel/.phemius/records/approvals/{}.json", p.change.id.as_str())
    );
    let mut bare = p.change.copy();
    bare.validation_hash = None;
    assert!(approval_record_bytes(&bare).is_err());
}

fn approval(id: &EntityId, order: u32, bytes: &[u8]) -> ApprovalFile {
    let digest = sha256_bytes(b"x");
    ApprovalFile {
        name: format!("{}.json", id.as_str()),
        regular: true,
        bytes: bytes.to_vec(),
        record: Ok(ApprovalRecord {
            changeset_id: id.copy(),
            base_root_hash: digest.clone(),
            candidate_hash: digest.clone(),
            operations_hash: digest.clone(),
            content_result_hash: digest.clone(),
            validation_hash: digest,
            dependencies: Vec::new(),
            chapter_order: order,
        }),
    }
}

#[test]
fn dependencies_come_from_the_chapter_before() {
    let first = prefixed_uuid(EntityKind::Changeset);
    let second = prefixed_uuid(EntityKind::Changeset);
    let list = vec![approval(&first, 1, b"one"), approval(&second, 2, b"two")];
    assert!(project_dependencies(&list, "dir", 1).unwrap().is_empty());
    let found = project_dependencies(&list, "dir", 2).unwrap();
    assert_eq!(found.len(), 1);
    assert_eq!(found[0].id.as_str(), first.as_str());
    assert_eq!(found[0].approval_record_sha256, sha256_bytes(b"one"));
    assert_eq!(parent_of(&found).unwrap().as_str(), first.as_str());
    let doubled = vec![approval(&first, 1, b"one"), approval(&second, 1, b"two")];
    assert_eq!(
        project_dependencies(&doubled, "dir", 2).unwrap_err(),
        "multiple durable approvals exist for chapter order 1"
    );
    let mut broken = approval(&first, 1, b"one");
    broken.record = Err("bad".into());
    broken.name = "n.json".into();
    assert_eq!(
        project_dependencies(&[broken], "dir", 2).unwrap_err(),
        "invalid approval record dir/n.json: bad"
    );
    assert!(scan_approval_records(&[]).unwrap().is_empty());
}

#[test]
fn revision_keeps_frontmatter() {
    assert_eq!(
        replace_candidate_body(b"---\nid: a\n---\nold".to_vec(), "new"),
        b"---\nid: a\n---\nnew".to_vec()
    );
    assert_eq!(replace_candidate_body(b"old".to_vec(), "new"), b"new".to_vec());
    assert_eq!(replace_candidate_body(b"---\nid".to_vec(), "new"), b"new".to_vec());
    let once = replace_candidate_body(b"---\nid: a\n---\nold".to_vec(), "first");
    assert_eq!(
        replace_candidate_body(once, "second"),
        b"---\nid: a\n---\nsecond".to_vec()
    );
    assert_eq!(
        append_candidate(b"a".to_vec(), "b"),
        b"a\n<!-- phemius candidate -->\nb".to_vec()
    );
    assert_eq!(
        append_candidate(b"a\n".to_vec(), "b"),
        b"a\n<!-- phemius candidate -->\nb".to_vec()
    );
}

#[test]
fn revised_change_has_new_digests() {
    let p = prepared();
    let paths = manuscript_paths(&p.change.operations);
    assert_eq!(paths.len(), 1);
    let current: Vec<FileEntry> =
        p.files.iter().filter(|file| paths.contains(&file.path)).map(|file| file.copy()).collect();
    let revised = revise_files(current, "twice");
    assert!(revised[0].bytes.ends_with(b"---\ntwice"));
    let mut files = copies(&p.files);
    files[0] = revised[0].copy();
    let shot = snapshot(&p.canon, &files, &p.change.operations);
    let previous = phemius::candidate::PreparedChange {
        operations: p.change.operations.iter().map(|op| op.copy()).collect(),
        base_root_hash: p.change.base_root_hash.clone(),
        content_result_hash: p.change.content_result_hash.clone(),
        result_root_hash: p.change.result_root_hash.clone(),
        candidate_hash: p.change.candidate_hash.clone(),
    };
    let next =
        update_project_change(&shot, &p.change.id, &previous, &revised, Vec::new(), 1).unwrap();
    assert_ne!(next.candidate_hash, previous.candidate_hash);
    assert_eq!(next.operations[0].after_sha256, Some(sha256_bytes(&revised[0].bytes)));
    assert_eq!(next.operations[1].after_sha256, previous.operations[1].after_sha256);
    assert_eq!(
        calculate_candidate_hash(&shot, &p.change).unwrap(),
        next.candidate_hash
    );
}

#[test]
fn descendants_are_marked() {
    let p = prepared();
    let mut child = p.change.copy();
    child.id = prefixed_uuid(EntityKind::Changeset);
    child.parent_changeset_id = Some(p.change.id.copy());
    child.state = ChangesetState::Approved;
    let mut grandchild = p.change.copy();
    grandchild.id = prefixed_uuid(EntityKind::Changeset);
    grandchild.parent_changeset_id = Some(child.id.copy());
    grandchild.state = ChangesetState::Approvable;
    let root = p.change.id.copy();
    let mut list = vec![p.change.copy(), child, grandchild];
    mark_descendants(&mut list, &root).unwrap();
    assert_eq!(list[0].state, ChangesetState::Approvable);
    assert_eq!(list[1].state, ChangesetState::NeedsRevalidation);
    assert_eq!(list[2].state, ChangesetState::Stale);
    mark_candidate_hash_changed(&mut list, &root, sha256_bytes(b"new")).unwrap();
    assert_eq!(list[0].candidate_hash, sha256_bytes(b"new"));
    assert!(list[0].validation_hash.is_none());
    let unknown = prefixed_uuid(EntityKind::Changeset);
    assert_eq!(
        mark_descendants(&mut list, &unknown).unwrap_err().kind(),
        ValidationErrorKind::MissingChangeset
    );
    list[1].mark_fully_revalidated(sha256_bytes(b"v"));
    assert_eq!(list[1].state, ChangesetState::Approved);
    list[2].mark_regenerated(sha256_bytes(b"c"));
    assert_eq!(list[2].state, ChangesetState::Candidate);
}

#[test]
fn validation_hash_covers_the_material_alone() {
    let p = prepared();
    let hash = calculate_validation_hash(&p.change);
    assert_eq!(hash.len(), 64);
    assert!(hash.bytes().all(|b| b.is_ascii_digit() || (b'a'..=b'f').contains(&b)));
    let mut changed: Vec<Changeset> = (0..7).map(|_| p.change.copy()).collect();
    changed[0].id = prefixed_uuid(EntityKind::Changeset);
    changed[1].base_root_hash = sha256_bytes(b"other");
    changed[2].content_result_hash = sha256_bytes(b"other");
    changed[3].operations[0].path.push('x');
    changed[4].candidate_hash = sha256_bytes(b"other");
    changed[5].dependencies.push(ChangesetDependency {
        id: prefixed_uuid(EntityKind::Changeset),
        approval_record_sha256: sha256_bytes(b"other"),
        chapter_order: 0,
    });
    changed[6].chapter_order = 2;
    for change in &changed {
        assert_ne!(calculate_validation_hash(change), hash);
    }
    let mut same = p.change.copy();
    same.parent_changeset_id = Some(prefixed_uuid(EntityKind::Changeset));
    same.result_root_hash = sha256_bytes(b"other");
    same.state = ChangesetState::Stale;
    same.validation_hash = None;
    same.unresolved_blocker_ids.push(prefixed_uuid(EntityKind::Scene));
    assert_eq!(calculate_validation_hash(&same), hash);
}

#[test]
fn approved_changeset_does_not_validate_again() {
    let p = prepared();
    let mut shot = snapshot(&p.canon, &p.files, &p.change.operations);
    validate_changeset(&p.project, &shot, &p.change).unwrap();
    shot.approvals.push(approval(&p.change.id, 1, b"one"));
    assert!(validate_changeset(&p.project, &shot, &p.change).is_err());
}

#[test]
fn marking_is_idempotent_and_ignores_the_order() {
    let p = prepared();
    let family = |order: [usize; 3]| {
        let root = p.change.copy();
        let mut child = p.change.copy();
        child.id = EntityId::from_stored("change_0190d3c4-0000-7000-8000-000000000001".into());
        child.parent_changeset_id = Some(root.id.copy());
        child.state = ChangesetState::Approved;
        let mut grandchild = p.change.copy();
        grandchild.id = EntityId::from_stored("change_0190d3c4-0000-7000-8000-000000000002".into());
        grandchild.parent_changeset_id = Some(child.id.copy());
        let all = [root, child, grandchild];
        order.iter().map(|i| all[*i].copy()).collect::<Vec<_>>()
    };
    let states = |list: &[Changeset]| {
        let mut out: Vec<(String, ChangesetState, bool)> = list
            .iter()
            .map(|one| (one.id.as_str().to_string(), one.state, one.validation_hash.is_some()))
            .collect();
        out.sort_by(|a, b| a.0.cmp(&b.0));
        out
    };
    let mut first = family([0, 1, 2]);
    mark_descendants(&mut first, &p.change.id).unwrap();
    let marked = states(&first);
    assert_eq!(marked.iter().filter(|one| !one.2).count(), 2);
    mark_descendants(&mut first, &p.change.id).unwrap();
    assert_eq!(states(&first), marked);
    for order in [[2, 1, 0], [1, 2, 0], [2, 0, 1]] {
        let mut list = family(order);
        mark_descendants(&mut list, &p.change.id).unwrap();
        assert_eq!(states(&list), marked);
    }
}

#[test]
fn repeated_identifiers_are_marked_once() {
    let p = prepared();
    let twin = |parent: Option<&EntityId>| {
        let mut one = p.change.copy();
        one.id = EntityId::from_stored("change_0190d3c4-0000-7000-8000-000000000003".into());
        one.parent_changeset_id = parent.map(|id| id.copy());
        one
    };
    let root = p.change.id.copy();
    let mut list =
        vec![p.change.copy(), twin(None), twin(Some(&root)), twin(Some(&root))];
    mark_descendants(&mut list, &root).unwrap();
    let marked: Vec<bool> =
        list.iter().map(|one| one.state == ChangesetState::Stale).collect();
    assert_eq!(marked, [false, false, true, false]);
}
