//! Applies and recoveries over a directory that is held in memory.
use std::collections::BTreeMap;

use phemius::candidate::hash_project_change;
use phemius::changeset::{
    calculate_validation_hash, Changeset, ChangesetState, FileOperation, OperationKind,
};
use phemius::domain::{prefixed_uuid, EntityId, EntityKind};
use phemius::hash::sha256_bytes;
use phemius::journal::{
    numbered, progress_name, ApplyJournal, FileIdentity, FileSnapshot, JournalState,
    OperationPhase, OperationProgress, TestInterruption, TestRecoveryInterruption,
};
use phemius::paths::FileEntry;
use phemius::project::{initialize_project, InitAnswers, Project};
use phemius::transaction::{
    apply_changeset, apply_changeset_for_test, ApplyEvent, ApplyPhase, ApplyRun, EntryFiles,
};
use phemius::validation::{
    canon_root_hash, CandidateReport, ProjectSnapshot, TargetReport, TargetStatus,
};

fn digest(text: &str) -> String {
    sha256_bytes(text.as_bytes())
}

fn file(path: &str, text: &str) -> FileEntry {
    FileEntry { path: path.into(), bytes: text.as_bytes().to_vec() }
}

/// A valid changeset, with the project that it fits, and the journal and record of its apply.
struct Made {
    project: Project,
    snapshot: ProjectSnapshot,
    change: Changeset,
    journal: ApplyJournal,
    record: String,
}

impl Made {
    fn apply(&self, point: Option<TestInterruption>) -> ApplyRun {
        let started = match point {
            None => apply_changeset(&self.project, &self.snapshot, &self.change),
            Some(point) => {
                apply_changeset_for_test(&self.project, &self.snapshot, &self.change, point)
            }
        };
        started.unwrap_or_else(|error| panic!("{}", error.to_text())).run
    }
}

fn operation(kind: OperationKind, id: &EntityId, index: usize) -> FileOperation {
    FileOperation {
        kind,
        path: format!("本文/{index}.txt"),
        before_sha256: if kind == OperationKind::Create { None } else { Some(digest("old")) },
        after_sha256: if kind == OperationKind::Delete { None } else { Some(digest("new")) },
        candidate_path: if kind == OperationKind::Delete {
            None
        } else {
            Some(format!(".phemius/runtime/candidates/{}/{index}.txt", id.as_str()))
        },
        affected_entities: vec![prefixed_uuid(EntityKind::Chapter)],
    }
}

fn make(kinds: &[OperationKind]) -> Made {
    let id = prefixed_uuid(EntityKind::Changeset);
    let work_id = prefixed_uuid(EntityKind::Work);
    let operations: Vec<FileOperation> =
        kinds.iter().enumerate().map(|(index, kind)| operation(*kind, &id, index)).collect();
    let plan =
        initialize_project(&InitAnswers::minimal("Title".into()), &work_id, &id).unwrap();
    let mut canon: Vec<FileEntry> = plan
        .files
        .into_iter()
        .filter(|entry| !entry.path.starts_with(".phemius/runtime"))
        .chain(
            operations
                .iter()
                .filter(|op| op.before_sha256.is_some())
                .map(|op| file(&op.path, "old")),
        )
        .collect();
    canon.sort_by_key(|entry| {
        entry.path.split('/').map(str::to_owned).collect::<Vec<String>>()
    });
    let snapshot = ProjectSnapshot {
        canon,
        targets: operations
            .iter()
            .map(|op| TargetReport {
                path: op.path.clone(),
                status: if op.before_sha256.is_some() {
                    TargetStatus::Regular
                } else {
                    TargetStatus::Absent
                },
            })
            .collect(),
        candidates: operations
            .iter()
            .filter_map(|op| op.candidate_path.clone())
            .map(|path| CandidateReport { path, content: Ok(b"new".to_vec()) })
            .collect(),
        approvals: Vec::new(),
    };
    let base = canon_root_hash(&snapshot);
    let hashed =
        hash_project_change(&snapshot, &id, None, base, operations, Vec::new(), 1).unwrap();
    let mut change = Changeset {
        id,
        parent_changeset_id: None,
        base_root_hash: hashed.base_root_hash,
        content_result_hash: hashed.content_result_hash,
        result_root_hash: hashed.result_root_hash,
        state: ChangesetState::Approvable,
        operations: hashed.operations,
        candidate_hash: hashed.candidate_hash,
        validation_hash: None,
        unresolved_blocker_ids: Vec::new(),
        dependencies: Vec::new(),
        chapter_order: 1,
    };
    change.validation_hash = Some(calculate_validation_hash(&change));
    let project = Project { root: "/novel".into(), config: plan.config };
    let started = apply_changeset(&project, &snapshot, &change)
        .unwrap_or_else(|error| panic!("{}", error.to_text()));
    let journal = started.run.journal().with_state(JournalState::Prepared);
    let record = String::from_utf8(started.record).unwrap();
    assert_eq!(journal.approval_record_sha256, digest(&record));
    assert_eq!(journal.result_root_hash, change.result_root_hash);
    Made { project, snapshot, change, journal, record }
}

/// Files by name, each with its content and its number, and the records of progress.
struct Shelf {
    files: BTreeMap<String, (String, u64)>,
    progress: BTreeMap<String, (OperationPhase, OperationKind, u32, String, FileIdentity)>,
    root: String,
    base: String,
    failing: Option<(&'static str, usize)>,
    log: Vec<String>,
}

impl Shelf {
    fn new(made: &Made) -> Shelf {
        let mut files = BTreeMap::new();
        for (index, entry) in made.journal.entries.iter().enumerate() {
            if entry.before_sha256.is_some() {
                files.insert(entry.target_path.clone(), ("old".to_string(), 10 + index as u64));
            }
            if entry.after_sha256.is_some() {
                files.insert(numbered("after-", index), ("new".to_string(), 50 + index as u64));
            }
        }
        files.insert("approval-record.json".into(), (made.record.clone(), 90));
        Shelf {
            files,
            progress: BTreeMap::new(),
            root: made.change.result_root_hash.clone(),
            base: made.change.base_root_hash.clone(),
            failing: None,
            log: Vec::new(),
        }
    }

    fn see(&self, name: &str) -> Option<FileSnapshot> {
        self.files.get(name).map(|(text, inode)| FileSnapshot {
            sha256: digest(text),
            identity: FileIdentity { device: 1, inode: *inode },
        })
    }

    fn shift(&mut self, from: &str, to: &str) {
        self.log.push(format!("{from} -> {to}"));
        let file = self.files.remove(from).expect(from);
        assert!(self.files.insert(to.to_string(), file).is_none());
    }

    fn record(&mut self, index: usize, made: &OperationProgress) {
        self.log.push(progress_name(index, made.phase));
        self.progress.insert(
            progress_name(index, made.phase),
            (made.phase, made.kind, made.operation_index, made.sha256.clone(), made.identity),
        );
    }

    fn read(&self, index: usize, phase: OperationPhase) -> Option<OperationProgress> {
        self.progress.get(&progress_name(index, phase)).map(
            |(phase, kind, operation_index, sha256, identity)| OperationProgress {
                operation_index: *operation_index,
                kind: *kind,
                phase: *phase,
                sha256: sha256.clone(),
                identity: *identity,
            },
        )
    }

    fn fails(&self, step: &str, index: usize) -> bool {
        self.failing == Some((step_name(step), index))
    }

    fn carry_out(&mut self, run: &ApplyRun) -> ApplyEvent {
        let index = run.index();
        let approval = format!(".phemius/records/approvals/{}.json", run.journal().changeset_id);
        let target = run
            .journal()
            .entries
            .get(index)
            .map(|entry| entry.target_path.clone())
            .unwrap_or_default();
        let old = numbered("old-live-", index);
        let after = numbered("after-", index);
        let aside = numbered("quarantine-", index);
        match run.phase() {
            ApplyPhase::Look => ApplyEvent::Target(self.see(&target)),
            ApplyPhase::Preserve { .. } => {
                self.shift(&target, &old);
                ApplyEvent::Found(self.see(&old).unwrap())
            }
            ApplyPhase::RecordMoved { progress } | ApplyPhase::RecordInstalled { progress } => {
                if self.fails("record", index) {
                    return ApplyEvent::Failed("disk is full".into());
                }
                self.record(index, progress);
                ApplyEvent::Done
            }
            ApplyPhase::LookStaged => ApplyEvent::Found(self.see(&after).unwrap()),
            ApplyPhase::Install { .. } => {
                if self.fails("install", index) {
                    return ApplyEvent::Failed("failed to install".into());
                }
                self.shift(&after, &target);
                ApplyEvent::Found(self.see(&target).unwrap())
            }
            ApplyPhase::LookApproval => ApplyEvent::Approval {
                present: self.see(&approval).is_some(),
                staged_sha256: self.see("approval-record.json").unwrap().sha256,
            },
            ApplyPhase::InstallApproval => {
                self.shift("approval-record.json", &approval);
                ApplyEvent::Done
            }
            ApplyPhase::HashApplied => ApplyEvent::Root(self.root.clone()),
            ApplyPhase::HashRestored => ApplyEvent::Root(self.base.clone()),
            ApplyPhase::Commit if run.doubts_commit() => ApplyEvent::Unknown,
            ApplyPhase::Commit | ApplyPhase::RecordRolledBack => ApplyEvent::Done,
            ApplyPhase::LookQuarantine => ApplyEvent::Sides {
                kept: self.see("approval-quarantine"),
                live: self.see(&approval),
            },
            ApplyPhase::QuarantineApproval => self.set_aside(&approval, "approval-quarantine", run),
            ApplyPhase::QuarantineEntry { .. } => self.set_aside(&target, &aside, run),
            ApplyPhase::Examine => ApplyEvent::Entry(EntryFiles {
                target: self.see(&target),
                old: self.see(&old),
                quarantine: self.see(&aside),
                moved: self.read(index, OperationPhase::MovedOld),
                installed: self.read(index, OperationPhase::Installed),
            }),
            ApplyPhase::Restore { .. } => {
                self.shift(&old, &target);
                ApplyEvent::Found(self.see(&target).unwrap())
            }
            ApplyPhase::Finished { .. } => panic!("nothing is left to do"),
        }
    }

    fn set_aside(&mut self, from: &str, to: &str, run: &ApplyRun) -> ApplyEvent {
        self.shift(from, to);
        if run.spoils_quarantine() {
            self.files.insert(to.to_string(), ("foreign".to_string(), 99));
        }
        ApplyEvent::Kept { kept: self.see(to).unwrap(), live: self.see(from) }
    }

    fn drive(&mut self, mut run: ApplyRun) -> (Result<(), String>, Option<JournalState>) {
        loop {
            if let ApplyPhase::Finished { outcome, state } = run.phase() {
                return (outcome.clone(), *state);
            }
            let event = self.carry_out(&run);
            assert!(run.accepts(&event));
            run = run.advance(event);
        }
    }

    fn text(&self, name: &str) -> Option<&str> {
        self.files.get(name).map(|(text, _)| text.as_str())
    }
}

fn step_name(step: &str) -> &'static str {
    if step == "record" {
        "record"
    } else {
        "install"
    }
}

fn copy(journal: &ApplyJournal) -> ApplyJournal {
    journal.with_state(JournalState::Prepared)
}

fn crash() -> Result<(), String> {
    Err("simulated crash".into())
}

fn recovered(shelf: &mut Shelf, made: &Made) {
    assert_eq!(
        shelf.drive(ApplyRun::recover(copy(&made.journal), None)),
        (Ok(()), Some(JournalState::RolledBack))
    );
    for entry in &made.journal.entries {
        let expected = if entry.before_sha256.is_some() { Some("old") } else { None };
        assert_eq!(shelf.text(&entry.target_path), expected);
    }
    assert!(!shelf.files.keys().any(|name| name.starts_with(".phemius")));
}

const ALL: [OperationKind; 3] =
    [OperationKind::Replace, OperationKind::Create, OperationKind::Delete];

#[test]
fn apply_commits_every_operation() {
    let made = make(&ALL);
    let mut shelf = Shelf::new(&made);
    assert_eq!(
        shelf.drive(made.apply(None)),
        (Ok(()), Some(JournalState::Committed))
    );
    assert_eq!(shelf.text("本文/0.txt"), Some("new"));
    assert_eq!(shelf.text("本文/1.txt"), Some("new"));
    assert_eq!(shelf.text("本文/2.txt"), None);
    let record = format!(".phemius/records/approvals/{}.json", made.journal.changeset_id);
    assert_eq!(shelf.text(&record), Some(made.record.as_str()));
    assert_eq!(
        shelf.log,
        vec![
            "本文/0.txt -> old-live-0000".to_string(),
            "progress-0000-moved-old.json".to_string(),
            "after-0000 -> 本文/0.txt".to_string(),
            "progress-0000-installed.json".to_string(),
            "after-0001 -> 本文/1.txt".to_string(),
            "progress-0001-installed.json".to_string(),
            "本文/2.txt -> old-live-0002".to_string(),
            "progress-0002-moved-old.json".to_string(),
            format!("approval-record.json -> {record}"),
        ]
    );
}

#[test]
fn only_valid_changesets_are_applied() {
    let made = make(&ALL);
    let mut stale = made.change.copy();
    stale.state = ChangesetState::Stale;
    assert!(apply_changeset(&made.project, &made.snapshot, &stale).is_err());
    let mut other = made.change.copy();
    other.chapter_order = 2;
    let refused = apply_changeset_for_test(
        &made.project,
        &made.snapshot,
        &other,
        TestInterruption::AfterCommit,
    );
    assert!(refused.is_err());
}

#[test]
fn failed_step_takes_everything_back() {
    let made = make(&ALL);
    let mut shelf = Shelf::new(&made);
    shelf.failing = Some(("install", 1));
    assert_eq!(
        shelf.drive(made.apply(None)),
        (Err("failed to install".into()), Some(JournalState::RolledBack))
    );
    assert_eq!(shelf.text("本文/0.txt"), Some("old"));
    assert_eq!(shelf.text("本文/1.txt"), None);
    assert_eq!(shelf.text("本文/2.txt"), Some("old"));
    assert_eq!(shelf.text("quarantine-0000"), Some("new"));
}

#[test]
fn wrong_result_is_taken_back() {
    let made = make(&ALL);
    let mut shelf = Shelf::new(&made);
    shelf.root = digest("other");
    let (outcome, state) = shelf.drive(made.apply(None));
    assert_eq!(
        outcome,
        Err(format!(
            "applied canon root {} does not match {}",
            digest("other"),
            made.change.result_root_hash
        ))
    );
    assert_eq!(state, Some(JournalState::RolledBack));
    assert_eq!(shelf.text("本文/1.txt"), None);
    assert_eq!(shelf.text("本文/2.txt"), Some("old"));
    assert_eq!(shelf.text("approval-quarantine"), Some(made.record.as_str()));
}

#[test]
fn unrecorded_step_leaves_the_rollback_pending() {
    let made = make(&[OperationKind::Replace]);
    let mut shelf = Shelf::new(&made);
    shelf.failing = Some(("record", 0));
    assert_eq!(
        shelf.drive(made.apply(None)),
        (
            Err("apply failed: disk is full; rollback remains pending: refusing to restore \
                 本文/0.txt without durable moved-old progress"
                .into()),
            Some(JournalState::Prepared)
        )
    );
    assert_eq!(shelf.text("old-live-0000"), Some("old"));
}

#[test]
fn every_interruption_is_recovered_from() {
    for point in [
        TestInterruption::AfterFirstRename,
        TestInterruption::AfterReplacePreserve,
        TestInterruption::AfterReplaceInstall,
        TestInterruption::AfterDeletePreserve,
        TestInterruption::AfterApprovalInstall,
    ] {
        let made = make(&ALL);
        let mut shelf = Shelf::new(&made);
        assert_eq!(
            shelf.drive(made.apply(Some(point))),
            (crash(), Some(JournalState::Prepared))
        );
        recovered(&mut shelf, &made);
    }
}

#[test]
fn commit_is_not_taken_back() {
    let made = make(&ALL);
    let mut shelf = Shelf::new(&made);
    assert_eq!(
        shelf.drive(made.apply(Some(TestInterruption::AfterCommit))),
        (crash(), Some(JournalState::Committed))
    );
    assert_eq!(shelf.text("本文/1.txt"), Some("new"));
    let mut shelf = Shelf::new(&made);
    assert_eq!(
        shelf.drive(made.apply(Some(TestInterruption::CommitDurabilityUnknown))),
        (Err("commit durability unknown; run recovery, do not retry".into()), None)
    );
    assert_eq!(shelf.text("本文/1.txt"), Some("new"));
}

#[test]
fn interrupted_recovery_is_repeated() {
    let made = make(&ALL);
    let mut shelf = Shelf::new(&made);
    shelf.drive(made.apply(Some(TestInterruption::AfterApprovalInstall)));
    assert_eq!(
        shelf.drive(ApplyRun::recover(
            copy(&made.journal),
            Some(TestRecoveryInterruption::AfterFirstQuarantine)
        )),
        (crash(), Some(JournalState::Prepared))
    );
    assert_eq!(shelf.text("approval-quarantine"), Some(made.record.as_str()));
    recovered(&mut shelf, &made);
}

#[test]
fn replaced_quarantine_stops_a_recovery() {
    let made = make(&[OperationKind::Create]);
    let mut shelf = Shelf::new(&made);
    shelf.drive(made.apply(Some(TestInterruption::AfterFirstRename)));
    assert_eq!(
        shelf.drive(ApplyRun::recover(
            copy(&made.journal),
            Some(TestRecoveryInterruption::CorruptFirstQuarantineBeforeValidation)
        )),
        (
            Err("quarantined file raced: quarantine-0000".into()),
            Some(JournalState::Prepared)
        )
    );
}

#[test]
fn foreign_files_are_left_alone() {
    let made = make(&[OperationKind::Create]);
    let mut shelf = Shelf::new(&made);
    shelf.files.insert("本文/0.txt".into(), ("foreign".into(), 70));
    assert_eq!(
        shelf.drive(made.apply(None)),
        (
            Err("apply failed: create target appeared: 本文/0.txt; rollback remains pending: \
                 refusing to quarantine an unowned create target 本文/0.txt"
                .into()),
            Some(JournalState::Prepared)
        )
    );
    assert_eq!(shelf.text("本文/0.txt"), Some("foreign"));
    let made = make(&[OperationKind::Replace]);
    let mut shelf = Shelf::new(&made);
    let record = format!(".phemius/records/approvals/{}.json", made.journal.changeset_id);
    shelf.files.insert(record.clone(), ("foreign".into(), 71));
    assert_eq!(
        shelf.drive(made.apply(None)).0,
        Err(format!(
            "apply failed: approval record appeared during apply: {record}; rollback remains \
             pending: refusing to quarantine externally changed file: {record}"
        ))
    );
    assert_eq!(shelf.text(&record), Some("foreign"));
}

#[test]
fn results_that_do_not_belong_to_a_step_are_not_accepted() {
    let made = make(&ALL);
    let run = made.apply(None);
    assert!(matches!(run.phase(), ApplyPhase::Look));
    assert!(run.accepts(&ApplyEvent::Target(None)));
    assert!(run.accepts(&ApplyEvent::Failed("x".into())));
    assert!(!run.accepts(&ApplyEvent::Done));
    assert!(!run.accepts(&ApplyEvent::Unknown));
    let run = run.advance(ApplyEvent::Failed("gone".into()));
    assert!(matches!(run.phase(), ApplyPhase::LookQuarantine));
    let run = run.advance(ApplyEvent::Failed("broken".into()));
    assert!(!run.accepts(&ApplyEvent::Failed("x".into())));
}
