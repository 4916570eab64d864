use phemius::changeset::{
    ApprovalRecord, Changeset, ChangesetState, FileOperation, OperationKind,
};
use phemius::domain::{prefixed_uuid, EntityKind};
use phemius::hash::sha256_bytes;
use phemius::journal::{
    check_applied_root, check_base_root, check_candidate_copy, check_canon_copy,
    check_quarantined, failed_apply, interrupts_after_entry, interrupts_after_preserve,
    load_transaction, numbered, plan_approval, plan_quarantine, progress_name, recover_pending,
    validate_journal, validate_transaction_entry, verify_committed_approval,
    verify_current_committed_head, ApplyJournal, EntryView, FileIdentity, FileSnapshot,
    JournalEntry, JournalState, OperationPhase, RecoveryOutcome, RollbackPlan, TestInterruption,
};

fn digest(text: &str) -> String {
    sha256_bytes(text.as_bytes())
}

fn file(text: &str, inode: u64) -> FileSnapshot {
    FileSnapshot { sha256: digest(text), identity: FileIdentity { device: 1, inode } }
}

fn entry(kind: OperationKind) -> JournalEntry {
    JournalEntry {
        kind,
        target_path: "本文/a.md".into(),
        before_sha256: if kind == OperationKind::Create { None } else { Some(digest("old")) },
        after_sha256: if kind == OperationKind::Delete { None } else { Some(digest("new")) },
    }
}

fn journal(id: &str, state: JournalState) -> ApplyJournal {
    ApplyJournal {
        changeset_id: id.into(),
        state,
        base_root_hash: digest("base"),
        result_root_hash: digest("result"),
        approval_record_sha256: digest("record"),
        chapter_order: 1,
        entries: vec![entry(OperationKind::Replace)],
    }
}

fn change() -> Changeset {
    Changeset {
        id: prefixed_uuid(EntityKind::Changeset),
        parent_changeset_id: None,
        base_root_hash: digest("base"),
        content_result_hash: digest("content"),
        result_root_hash: digest("result"),
        state: ChangesetState::Approvable,
        operations: vec![FileOperation {
            kind: OperationKind::Create,
            path: "本文/a.md".into(),
            before_sha256: None,
            after_sha256: Some(digest("new")),
            candidate_path: Some("c".into()),
            affected_entities: vec![prefixed_uuid(EntityKind::Chapter)],
        }],
        candidate_hash: digest("candidate"),
        validation_hash: Some(digest("validation")),
        unresolved_blocker_ids: Vec::new(),
        dependencies: Vec::new(),
        chapter_order: 3,
    }
}

#[test]
fn journal_records_a_changeset() {
    let made = change();
    let (prepared, record) = ApplyJournal::prepare(&made).unwrap();
    assert_eq!(prepared.changeset_id, made.id.as_str());
    assert_eq!(prepared.state, JournalState::Prepared);
    assert_eq!(prepared.approval_record_sha256, sha256_bytes(&record));
    assert_eq!(prepared.entries.len(), 1);
    assert_eq!(prepared.entries[0].target_path, "本文/a.md");
    assert_eq!(prepared.chapter_order, 3);
    assert!(validate_journal(&prepared).is_ok());
    assert_eq!(prepared.with_state(JournalState::Committed).state, JournalState::Committed);
    let mut bare = change();
    bare.validation_hash = None;
    assert!(ApplyJournal::prepare(&bare).is_err());
    let op = &made.operations[0];
    assert!(check_candidate_copy(op, "c", b"new").is_ok());
    assert_eq!(
        check_candidate_copy(op, "c", b"x").unwrap_err(),
        "candidate changed while snapshotting c"
    );
    assert_eq!(
        check_canon_copy(op, b"x").unwrap_err(),
        "canon changed while snapshotting 本文/a.md"
    );
}

#[test]
fn broken_journals_are_refused() {
    let id = prefixed_uuid(EntityKind::Changeset);
    let error = |change: &dyn Fn(&mut ApplyJournal)| {
        let mut broken = journal(id.as_str(), JournalState::Prepared);
        change(&mut broken);
        validate_journal(&broken).unwrap_err()
    };
    assert_eq!(error(&|j| j.entries.clear()), "journal has no operations");
    assert_eq!(error(&|j| j.chapter_order = 0), "journal has no chapter order");
    assert_eq!(
        error(&|j| j.base_root_hash = "x".into()),
        "journal contains an invalid root or approval hash"
    );
    assert_eq!(
        error(&|j| j.entries[0].target_path = "../x".into()),
        "journal contains an unsafe target"
    );
    assert_eq!(
        error(&|j| j.entries.push(JournalEntry {
            kind: OperationKind::Delete,
            target_path: "本文/A.md".into(),
            before_sha256: Some(digest("old")),
            after_sha256: None,
        })),
        "journal has duplicate target aliases"
    );
    assert_eq!(
        error(&|j| j.entries[0].after_sha256 = Some(digest("old"))),
        "journal contains an invalid operation shape"
    );
    assert_eq!(
        error(&|j| j.entries[0].after_sha256 = Some("x".into())),
        "journal contains an invalid file hash"
    );
}

#[test]
fn journal_files_of_a_transaction_agree() {
    let id = prefixed_uuid(EntityKind::Changeset);
    let name = id.as_str();
    let prepared = || Some(journal(name, JournalState::Prepared));
    let committed = || Some(journal(name, JournalState::Committed));
    let back = || Some(journal(name, JournalState::RolledBack));
    let state = |a, b, c| load_transaction(name, a, b, c).map(|j| j.state);
    assert_eq!(state(prepared(), None, None), Ok(JournalState::Prepared));
    assert_eq!(state(prepared(), committed(), None), Ok(JournalState::Committed));
    assert_eq!(state(prepared(), None, back()), Ok(JournalState::RolledBack));
    assert_eq!(state(None, None, None), Err("journal.prepared.json is missing".into()));
    assert_eq!(
        state(committed(), None, None),
        Err("prepared journal has the wrong state".into())
    );
    assert_eq!(
        state(prepared(), back(), None),
        Err("committed journal has the wrong state".into())
    );
    assert_eq!(
        state(prepared(), None, committed()),
        Err("rolled-back journal has the wrong state".into())
    );
    assert_eq!(
        state(prepared(), committed(), back()),
        Err("transaction has conflicting terminal journals".into())
    );
    let mut other = journal(name, JournalState::Committed);
    other.result_root_hash = digest("other");
    assert_eq!(
        state(prepared(), Some(other), None),
        Err("terminal journal does not match prepared evidence".into())
    );
    assert_eq!(
        load_transaction("x", prepared(), None, None).unwrap_err(),
        "invalid journal transaction name: x"
    );
    let second = prefixed_uuid(EntityKind::Changeset);
    assert_eq!(
        load_transaction(second.as_str(), prepared(), None, None).unwrap_err(),
        "journal identity does not match its transaction directory"
    );
}

#[test]
fn transaction_directories_hold_known_files() {
    let id = prefixed_uuid(EntityKind::Changeset);
    let made = journal(id.as_str(), JournalState::Prepared);
    for name in [
        "journal.prepared.json",
        "approval-record.json",
        "before-0000",
        "old-live-0000",
        "after-0000",
        "quarantine-0000",
        "progress-0000-moved-old.json",
        "progress-0000-installed.json",
    ] {
        assert!(validate_transaction_entry(&made, name, true).is_ok(), "{name}");
    }
    assert_eq!(
        validate_transaction_entry(&made, "before-0001", true).unwrap_err(),
        "unknown transaction entry: before-0001"
    );
    assert_eq!(
        validate_transaction_entry(&made, "before-0000", false).unwrap_err(),
        "transaction entry is not a regular file: before-0000"
    );
    assert_eq!(numbered("after-", 12), "after-0012");
    assert_eq!(numbered("after-", 12_345), "after-12345");
    assert_eq!(progress_name(123, OperationPhase::Installed), "progress-0123-installed.json");
}

fn view<'a>(
    target: Option<&'a FileSnapshot>,
    old: Option<&'a FileSnapshot>,
    quarantine: Option<&'a FileSnapshot>,
) -> EntryView<'a> {
    EntryView { target, old, quarantine, moved: None, installed: None }
}

#[test]
fn replacement_is_recorded_and_taken_back() {
    let made = entry(OperationKind::Replace);
    let old = file("old", 1);
    let new = file("new", 2);
    assert_eq!(made.plan_preserve("t", Some(&old)), Ok(true));
    assert_eq!(made.plan_preserve("t", Some(&new)).unwrap_err(), "canon changed: t");
    assert_eq!(made.plan_preserve("t", None).unwrap_err(), "failed to read t");
    let moved = made.check_preserved(0, &old, &old).unwrap();
    assert_eq!(moved.phase, OperationPhase::MovedOld);
    assert_eq!(
        made.check_preserved(0, &old, &file("old", 9)).unwrap_err(),
        "preserved canon raced: file identity changed for old-live-0000"
    );
    assert!(made.check_staged(0, &new).is_ok());
    assert_eq!(
        made.check_staged(0, &old).unwrap_err(),
        "staged file changed: after-0000"
    );
    let installed = made.check_installed(0, "t", &new, &new).unwrap();
    assert_eq!(installed.identity.inode, 2);
    assert!(made.check_progress(0, OperationPhase::MovedOld, Some(&moved)).is_ok());
    assert_eq!(
        made.check_progress(1, OperationPhase::MovedOld, Some(&moved)).unwrap_err(),
        "operation progress does not match its journal entry"
    );
    let keep = RollbackPlan { quarantine: false, restore: false };
    assert_eq!(made.plan_rollback(0, "t", &view(Some(&old), None, None)), Ok(keep));
    assert_eq!(
        made.plan_rollback(0, "t", &view(None, Some(&old), None)).unwrap_err(),
        "refusing to restore t without durable moved-old progress"
    );
    let mut state = view(None, Some(&old), None);
    state.moved = Some(&moved);
    assert_eq!(
        made.plan_rollback(0, "t", &state),
        Ok(RollbackPlan { quarantine: false, restore: true })
    );
    state.target = Some(&new);
    assert_eq!(
        made.plan_rollback(0, "t", &state).unwrap_err(),
        "refusing to overwrite unowned target t"
    );
    state.installed = Some(&installed);
    assert_eq!(
        made.plan_rollback(0, "t", &state),
        Ok(RollbackPlan { quarantine: true, restore: true })
    );
    let foreign = file("new", 7);
    state.target = Some(&foreign);
    assert!(made.plan_rollback(0, "t", &state).is_err());
    state.target = None;
    assert_eq!(
        made.plan_rollback(0, "t", &state).unwrap_err(),
        "Phemius-owned installed file is missing: t"
    );
    state.quarantine = Some(&new);
    assert_eq!(
        made.plan_rollback(0, "t", &state),
        Ok(RollbackPlan { quarantine: false, restore: true })
    );
    assert!(made.check_restored(moved.identity, "t", &old).is_ok());
    assert!(made.check_restored(moved.identity, "t", &new).is_err());
    assert!(made.validate_evidence(0, &digest("old"), &state).is_ok());
    assert_eq!(
        made.validate_evidence(0, &digest("x"), &state).unwrap_err(),
        "before image changed: before-0000"
    );
}

#[test]
fn created_and_deleted_files_are_taken_back() {
    let create = entry(OperationKind::Create);
    let new = file("new", 2);
    assert_eq!(create.plan_preserve("t", None), Ok(false));
    assert_eq!(
        create.plan_preserve("t", Some(&new)).unwrap_err(),
        "create target appeared: t"
    );
    assert_eq!(
        create.plan_rollback(0, "t", &view(Some(&new), None, None)).unwrap_err(),
        "refusing to quarantine an unowned create target t"
    );
    let installed = create.check_installed(0, "t", &new, &new).unwrap();
    let mut state = view(Some(&new), None, None);
    state.installed = Some(&installed);
    assert_eq!(
        create.plan_rollback(0, "t", &state),
        Ok(RollbackPlan { quarantine: true, restore: false })
    );
    assert_eq!(
        create.progress(0, OperationPhase::MovedOld, &new).unwrap_err(),
        "operation kind cannot enter MovedOld phase"
    );
    let delete = entry(OperationKind::Delete);
    let old = file("old", 1);
    let moved = delete.check_preserved(0, &old, &old).unwrap();
    let mut state = view(None, Some(&old), None);
    state.moved = Some(&moved);
    assert_eq!(
        delete.plan_rollback(0, "t", &state),
        Ok(RollbackPlan { quarantine: false, restore: true })
    );
    state.target = Some(&new);
    assert_eq!(
        delete.plan_rollback(0, "t", &state).unwrap_err(),
        "refusing to overwrite externally created delete target t"
    );
}

#[test]
fn quarantine_moves_only_owned_files() {
    let new = file("new", 2);
    let wanted = digest("new");
    let owned = Some(new.identity);
    assert_eq!(plan_quarantine(&wanted, None, "q", "t", None, None), Ok(false));
    assert_eq!(plan_quarantine(&wanted, owned, "q", "t", None, Some(&new)), Ok(true));
    assert_eq!(
        plan_quarantine(&wanted, owned, "q", "t", None, Some(&file("x", 2))).unwrap_err(),
        "refusing to quarantine externally changed file: t"
    );
    assert_eq!(
        plan_quarantine(&wanted, owned, "q", "t", Some(&new), Some(&new)).unwrap_err(),
        "live file reappeared beside quarantine: t"
    );
    assert!(check_quarantined(&wanted, owned, "q", "t", &new, None).is_ok());
    assert_eq!(
        check_quarantined(&wanted, owned, "q", "t", &new, Some(&new)).unwrap_err(),
        "live file reappeared after quarantine: t"
    );
    assert_eq!(
        check_quarantined(&wanted, owned, "q", "t", &file("x", 2), None).unwrap_err(),
        "quarantined file raced: q"
    );
}

#[test]
fn recovery_takes_back_one_transaction() {
    let id = prefixed_uuid(EntityKind::Changeset);
    let name = id.as_str();
    let list = vec![
        journal(name, JournalState::Committed),
        journal(name, JournalState::Prepared),
        journal(name, JournalState::RolledBack),
    ];
    let plan = recover_pending(&list).unwrap();
    assert_eq!(plan.prepared, Some(1));
    assert_eq!(plan.outcome, RecoveryOutcome { rolled_back: 1, kept_committed: 1 });
    assert_eq!(recover_pending(&[]).unwrap().outcome, RecoveryOutcome::default());
    let two = vec![journal(name, JournalState::Prepared), journal(name, JournalState::Prepared)];
    assert_eq!(recover_pending(&two).unwrap_err(), "multiple prepared journal transactions");
    assert!(verify_current_committed_head(&list, None, "x").is_ok());
    assert!(verify_current_committed_head(&list, Some((name, 1)), &digest("result")).is_ok());
    assert_eq!(
        verify_current_committed_head(&list, Some((name, 2)), &digest("result")).unwrap_err(),
        "committed journal chapter order does not match the approval chain head"
    );
    assert_eq!(
        verify_current_committed_head(&list, Some((name, 1)), "x").unwrap_err(),
        "current committed canon root changed"
    );
    let record = |order: u32| {
        Ok(ApprovalRecord {
            changeset_id: id.copy(),
            base_root_hash: digest("base"),
            candidate_hash: String::new(),
            operations_hash: String::new(),
            content_result_hash: String::new(),
            validation_hash: String::new(),
            dependencies: Vec::new(),
            chapter_order: order,
        })
    };
    assert!(verify_committed_approval(&list[0], b"record", &record(1)).is_ok());
    assert_eq!(
        verify_committed_approval(&list[0], b"x", &record(1)).unwrap_err(),
        "committed approval record changed"
    );
    assert_eq!(
        verify_committed_approval(&list[0], b"record", &record(2)).unwrap_err(),
        "committed journal does not match its approval record"
    );
    assert_eq!(
        verify_committed_approval(&list[0], b"record", &Err("bad".into())).unwrap_err(),
        "committed approval record is invalid"
    );
}

#[test]
fn applied_roots_are_checked() {
    let made = journal("x", JournalState::Prepared);
    assert!(check_applied_root(&made, &digest("result")).is_ok());
    assert_eq!(
        check_applied_root(&made, "a").unwrap_err(),
        format!("applied canon root a does not match {}", digest("result"))
    );
    assert!(check_base_root(&made, &digest("base")).is_ok());
    assert!(check_base_root(&made, "a").is_err());
    assert!(plan_approval(&made, false, &digest("record"), "p").is_ok());
    assert_eq!(
        plan_approval(&made, true, &digest("record"), "p").unwrap_err(),
        "approval record appeared during apply: p"
    );
    assert_eq!(
        plan_approval(&made, false, "x", "p").unwrap_err(),
        "approval stage changed: approval-record.json"
    );
    assert_eq!(failed_apply("e".into(), None), "e");
    assert_eq!(
        failed_apply("e".into(), Some("r".into())),
        "apply failed: e; rollback remains pending: r"
    );
    assert!(interrupts_after_preserve(
        OperationKind::Delete,
        Some(TestInterruption::AfterDeletePreserve)
    ));
    assert!(!interrupts_after_preserve(
        OperationKind::Replace,
        Some(TestInterruption::AfterDeletePreserve)
    ));
    assert!(interrupts_after_entry(
        OperationKind::Create,
        0,
        Some(TestInterruption::AfterFirstRename)
    ));
    assert!(!interrupts_after_entry(
        OperationKind::Create,
        1,
        Some(TestInterruption::AfterFirstRename)
    ));
}
