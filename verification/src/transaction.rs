//! Applying a changeset step by step: each canon file is moved away, recorded, replaced and
//! recorded before the next one changes, and whatever fails takes everything back.
use vstd::prelude::*;
use crate::changeset::{record_bytes, record_name, record_path, ChangeModel, Changeset, OperationKind, OperationModel, Refusal, ValidationError, ValidationErrorKind};
use crate::hash::digest_text;
use crate::journal::{check_applied_root, check_base_root, check_quarantined, count_state, disk_of, entry_shape, failed_apply, first_prepared, four_digits, hash_error, installed, install_recorded, installed_progress, interrupts_after_entry, interrupts_after_preserve, move_recorded, numbered, opt_identity, opt_seen, plan_approval, plan_quarantine, prepared_journal, preserve_plan, preserved, preserved_progress, quarantine_plan, quarantined, quarantined_error, restored, rollback_plan, rolls_back_to, snapshot_error, untouched, ApplyJournal, EntryDisk, EntryModel, EntryView, FileIdentity, FileSnapshot, JournalModel, JournalState, OperationProgress, ProgressModel, Seen, TestInterruption, TestRecoveryInterruption};
use crate::project::Project;
use crate::validation::{approved_changeset_is_refused, candidate_verdict, change_verdict, operation_verdict, operations_from, valid_changeset_is_bound, validate_changeset, ProjectSnapshot};

verus! {

/// The files of an operation, as they are found on disk.
#[derive(Debug)]
pub struct EntryFiles {
    /// Target.
    pub target: Option<FileSnapshot>,
    /// Old file that was moved away.
    pub old: Option<FileSnapshot>,
    /// New file that was moved to quarantine.
    pub quarantine: Option<FileSnapshot>,
    /// Record that the old file was moved away.
    pub moved: Option<OperationProgress>,
    /// Record that the new file is in place.
    pub installed: Option<OperationProgress>,
}

/// The view of an optional file.
pub open spec fn held_seen(item: Option<FileSnapshot>) -> Option<Seen> {
    match item {
        Some(snapshot) => Some(snapshot@),
        None => None,
    }
}

/// The identity in an optional record of progress.
pub open spec fn held_identity(item: Option<OperationProgress>) -> Option<FileIdentity> {
    match item {
        Some(progress) => Some(progress.identity),
        None => None,
    }
}

impl View for EntryFiles {
    type V = EntryDisk;

    open spec fn view(&self) -> EntryDisk {
        EntryDisk {
            target: held_seen(self.target),
            old: held_seen(self.old),
            staged: None,
            quarantine: held_seen(self.quarantine),
            moved: held_identity(self.moved),
            installed: held_identity(self.installed),
        }
    }
}

fn borrow_file(item: &Option<FileSnapshot>) -> (r: Option<&FileSnapshot>)
    ensures
        opt_seen(r) == held_seen(*item),
{
    match item {
        Some(snapshot) => Some(snapshot),
        None => None,
    }
}

fn borrow_progress(item: &Option<OperationProgress>) -> (r: Option<&OperationProgress>)
    ensures
        opt_identity(r) == held_identity(*item),
{
    match item {
        Some(progress) => Some(progress),
        None => None,
    }
}

fn identity_in(item: &Option<OperationProgress>) -> (r: Option<FileIdentity>)
    ensures
        r == held_identity(*item),
{
    match item {
        Some(progress) => Some(progress.identity),
        None => None,
    }
}

impl EntryFiles {
    fn found(&self) -> (r: EntryView<'_>)
        ensures
            disk_of(r) == self@,
    {
        EntryView {
            target: borrow_file(&self.target),
            old: borrow_file(&self.old),
            quarantine: borrow_file(&self.quarantine),
            moved: borrow_progress(&self.moved),
            installed: borrow_progress(&self.installed),
        }
    }
}

/// What has to be done next.
#[derive(Debug)]
pub enum ApplyPhase {
    /// Look at the target of the operation.
    Look,
    /// Move the target away.
    Preserve { before: FileSnapshot },
    /// Record that the target was moved away.
    RecordMoved { progress: OperationProgress },
    /// Look at the new file.
    LookStaged,
    /// Put the new file in place.
    Install { staged: FileSnapshot },
    /// Record that the new file is in place.
    RecordInstalled { progress: OperationProgress },
    /// Look at the approval record and its place.
    LookApproval,
    /// Put the approval record in place.
    InstallApproval,
    /// Compute the digest of the canon.
    HashApplied,
    /// Write the committed journal.
    Commit,
    /// Look at the approval record and its quarantine.
    LookQuarantine,
    /// Move the approval record to quarantine.
    QuarantineApproval,
    /// Look at every file of the operation.
    Examine,
    /// Move the new file to quarantine, and put the old one back where its identity is given.
    QuarantineEntry {
        expected: String,
        identity: Option<FileIdentity>,
        restore: Option<FileIdentity>,
    },
    /// Put the old file back.
    Restore { identity: FileIdentity },
    /// Compute the digest of the canon.
    HashRestored,
    /// Write the rolled-back journal.
    RecordRolledBack,
    /// Nothing; the journal is in the state that is given, where it is known.
    Finished { outcome: Result<(), String>, state: Option<JournalState> },
}

/// What has to be done next, by views.
pub enum PhaseModel {
    Look,
    Preserve { before: Seen },
    RecordMoved { progress: ProgressModel },
    LookStaged,
    Install { staged: Seen },
    RecordInstalled { progress: ProgressModel },
    LookApproval,
    InstallApproval,
    HashApplied,
    Commit,
    LookQuarantine,
    QuarantineApproval,
    Examine,
    QuarantineEntry {
        expected: Seq<char>,
        identity: Option<FileIdentity>,
        restore: Option<FileIdentity>,
    },
    Restore { identity: FileIdentity },
    HashRestored,
    RecordRolledBack,
    Finished { outcome: Result<(), Seq<char>>, state: Option<JournalState> },
}

/// The view of an outcome.
pub open spec fn outcome_view(outcome: Result<(), String>) -> Result<(), Seq<char>> {
    match outcome {
        Ok(()) => Ok(()),
        Err(error) => Err(error@),
    }
}

impl View for ApplyPhase {
    type V = PhaseModel;

    open spec fn view(&self) -> PhaseModel {
        match *self {
            ApplyPhase::Look => PhaseModel::Look,
            ApplyPhase::Preserve { before } => PhaseModel::Preserve { before: before@ },
            ApplyPhase::RecordMoved { progress } => PhaseModel::RecordMoved {
                progress: progress@,
            },
            ApplyPhase::LookStaged => PhaseModel::LookStaged,
            ApplyPhase::Install { staged } => PhaseModel::Install { staged: staged@ },
            ApplyPhase::RecordInstalled { progress } => PhaseModel::RecordInstalled {
                progress: progress@,
            },
            ApplyPhase::LookApproval => PhaseModel::LookApproval,
            ApplyPhase::InstallApproval => PhaseModel::InstallApproval,
            ApplyPhase::HashApplied => PhaseModel::HashApplied,
            ApplyPhase::Commit => PhaseModel::Commit,
            ApplyPhase::LookQuarantine => PhaseModel::LookQuarantine,
            ApplyPhase::QuarantineApproval => PhaseModel::QuarantineApproval,
            ApplyPhase::Examine => PhaseModel::Examine,
            ApplyPhase::QuarantineEntry { expected, identity, restore } =>
                PhaseModel::QuarantineEntry {
                expected: expected@,
                identity: identity,
                restore: restore,
            },
            ApplyPhase::Restore { identity } => PhaseModel::Restore { identity: identity },
            ApplyPhase::HashRestored => PhaseModel::HashRestored,
            ApplyPhase::RecordRolledBack => PhaseModel::RecordRolledBack,
            ApplyPhase::Finished { outcome, state } => PhaseModel::Finished {
                outcome: outcome_view(outcome),
                state: state,
            },
        }
    }
}

/// What came of a step.
#[derive(Debug)]
pub enum ApplyEvent {
    /// The target of the operation.
    Target(Option<FileSnapshot>),
    /// The file that was looked at or moved, where it is now.
    Found(FileSnapshot),
    /// The record was written, or the approval record is in place.
    Done,
    /// Whether an approval record is in place, and the digest of the one that is staged.
    Approval { present: bool, staged_sha256: String },
    /// Digest of the canon.
    Root(String),
    /// The approval record in quarantine, and the one in place.
    Sides { kept: Option<FileSnapshot>, live: Option<FileSnapshot> },
    /// The file that was moved to quarantine, and what is in its place.
    Kept { kept: FileSnapshot, live: Option<FileSnapshot> },
    /// The files of the operation.
    Entry(EntryFiles),
    /// The step failed.
    Failed(String),
    /// The journal was written, but it may be lost.
    Unknown,
}

/// What came of a step, by views.
pub enum EventModel {
    Target(Option<Seen>),
    Found(Seen),
    Done,
    Approval { present: bool, staged_sha256: Seq<char> },
    Root(Seq<char>),
    Sides { kept: Option<Seen>, live: Option<Seen> },
    Kept { kept: Seen, live: Option<Seen> },
    Entry(EntryDisk),
    Failed(Seq<char>),
    Unknown,
}

impl View for ApplyEvent {
    type V = EventModel;

    open spec fn view(&self) -> EventModel {
        match *self {
            ApplyEvent::Target(current) => EventModel::Target(held_seen(current)),
            ApplyEvent::Found(snapshot) => EventModel::Found(snapshot@),
            ApplyEvent::Done => EventModel::Done,
            ApplyEvent::Approval { present, staged_sha256 } => EventModel::Approval {
                present: present,
                staged_sha256: staged_sha256@,
            },
            ApplyEvent::Root(root) => EventModel::Root(root@),
            ApplyEvent::Sides { kept, live } => EventModel::Sides {
                kept: held_seen(kept),
                live: held_seen(live),
            },
            ApplyEvent::Kept { kept, live } => EventModel::Kept {
                kept: kept@,
                live: held_seen(live),
            },
            ApplyEvent::Entry(files) => EventModel::Entry(files@),
            ApplyEvent::Failed(error) => EventModel::Failed(error@),
            ApplyEvent::Unknown => EventModel::Unknown,
        }
    }
}

/// Whether something can come of a step.
pub open spec fn event_fits(phase: PhaseModel, event: EventModel) -> bool {
    match phase {
        PhaseModel::Finished { .. } => false,
        PhaseModel::Commit | PhaseModel::RecordRolledBack => event is Done || event is Failed
            || event is Unknown,
        PhaseModel::Look => event is Target || event is Failed,
        PhaseModel::Preserve { .. } | PhaseModel::LookStaged | PhaseModel::Install { .. }
        | PhaseModel::Restore { .. } => event is Found || event is Failed,
        PhaseModel::RecordMoved { .. } | PhaseModel::RecordInstalled { .. }
        | PhaseModel::InstallApproval => event is Done || event is Failed,
        PhaseModel::LookApproval => event is Approval || event is Failed,
        PhaseModel::HashApplied | PhaseModel::HashRestored => event is Root || event is Failed,
        PhaseModel::LookQuarantine => event is Sides || event is Failed,
        PhaseModel::QuarantineApproval | PhaseModel::QuarantineEntry { .. } => event is Kept
            || event is Failed,
        PhaseModel::Examine => event is Entry || event is Failed,
    }
}

/// A changeset that is being applied or taken back.
#[derive(Debug)]
pub struct ApplyRun {
    journal: ApplyJournal,
    interruption: Option<TestInterruption>,
    recovery: Option<TestRecoveryInterruption>,
    index: usize,
    quarantined: bool,
    failure: Option<String>,
    phase: ApplyPhase,
}

/// A run by the views of its fields.
pub struct RunModel {
    /// Journal of the transaction.
    pub journal: JournalModel,
    /// Where a test interrupts the apply.
    pub interruption: Option<TestInterruption>,
    /// Where a test interrupts the recovery.
    pub recovery: Option<TestRecoveryInterruption>,
    /// Position of the operation.
    pub index: int,
    /// A file was moved to quarantine.
    pub quarantined: bool,
    /// Why the operations are taken back.
    pub failure: Option<Seq<char>>,
    /// What has to be done next.
    pub phase: PhaseModel,
}

impl View for ApplyRun {
    type V = RunModel;

    closed spec fn view(&self) -> RunModel {
        RunModel {
            journal: self.journal@,
            interruption: self.interruption,
            recovery: self.recovery,
            index: self.index as int,
            quarantined: self.quarantined,
            failure: crate::text::opt_text(self.failure),
            phase: self.phase@,
        }
    }
}

/// Whether a phase is about one operation.
pub open spec fn about_entry(phase: PhaseModel) -> bool {
    match phase {
        PhaseModel::Look | PhaseModel::Preserve { .. } | PhaseModel::RecordMoved { .. }
        | PhaseModel::LookStaged | PhaseModel::Install { .. }
        | PhaseModel::RecordInstalled { .. } | PhaseModel::Examine
        | PhaseModel::QuarantineEntry { .. } | PhaseModel::Restore { .. } => true,
        _ => false,
    }
}

/// Whether a run is at an operation of its journal wherever it is about one.
pub open spec fn run_valid(run: RunModel) -> bool {
    &&& 0 <= run.index <= run.journal.entries.len()
    &&& about_entry(run.phase) ==> run.index < run.journal.entries.len()
}

/// The run in another phase.
pub open spec fn in_phase(run: RunModel, phase: PhaseModel) -> RunModel {
    RunModel { phase: phase, ..run }
}

/// The run at its end.
pub open spec fn ended(
    run: RunModel,
    outcome: Result<(), Seq<char>>,
    state: Option<JournalState>,
) -> RunModel {
    in_phase(run, PhaseModel::Finished { outcome: outcome, state: state })
}

/// The run that a test interrupted.
pub open spec fn crashed(run: RunModel, state: JournalState) -> RunModel {
    ended(run, Err("simulated crash"@), Some(state))
}

/// The run that takes back what was done.
pub open spec fn turned_back(run: RunModel, error: Seq<char>) -> RunModel {
    RunModel { failure: Some(error), phase: PhaseModel::LookQuarantine, ..run }
}

/// The message of a run that could not take back what was done.
pub open spec fn pending_text(failure: Option<Seq<char>>, error: Seq<char>) -> Seq<char> {
    match failure {
        None => error,
        Some(first) => "apply failed: "@ + first + "; rollback remains pending: "@ + error,
    }
}

/// The run that could not take back what was done.
pub open spec fn stuck(run: RunModel, error: Seq<char>) -> RunModel {
    ended(run, Err(pending_text(run.failure, error)), Some(JournalState::Prepared))
}

/// Whether a test interrupts an apply after a file was moved away.
pub open spec fn stops_after_preserve(kind: OperationKind, point: Option<TestInterruption>) -> bool {
    kind == OperationKind::Replace && point == Some(TestInterruption::AfterReplacePreserve) || kind
        == OperationKind::Delete && point == Some(TestInterruption::AfterDeletePreserve)
}

/// Whether a test interrupts an apply after an operation.
pub open spec fn stops_after_entry(
    kind: OperationKind,
    index: int,
    point: Option<TestInterruption>,
) -> bool {
    index == 0 && point == Some(TestInterruption::AfterFirstRename) || kind
        == OperationKind::Replace && point == Some(TestInterruption::AfterReplaceInstall)
}

/// The run at the next operation, or at the approval record after the last one.
pub open spec fn at_entry(run: RunModel, index: int) -> RunModel {
    RunModel {
        index: index,
        phase: if index < run.journal.entries.len() {
            PhaseModel::Look
        } else {
            PhaseModel::LookApproval
        },
        ..run
    }
}

/// The run once its operation is done.
pub open spec fn entry_done(run: RunModel) -> RunModel {
    if stops_after_entry(run.journal.entries[run.index].kind, run.index, run.interruption) {
        crashed(run, JournalState::Prepared)
    } else {
        at_entry(run, run.index + 1)
    }
}

/// The run once nothing is in the way of the new file.
pub open spec fn target_clear(run: RunModel) -> RunModel {
    if run.journal.entries[run.index].after is Some {
        in_phase(run, PhaseModel::LookStaged)
    } else {
        entry_done(run)
    }
}

/// The run at the operation before, or at the digest of the canon after the first one.
pub open spec fn rewound(run: RunModel, index: int) -> RunModel {
    if index == 0 {
        RunModel { index: 0, phase: PhaseModel::HashRestored, ..run }
    } else {
        RunModel { index: index - 1, phase: PhaseModel::Examine, ..run }
    }
}

/// The run once the target was looked at.
pub open spec fn after_look(run: RunModel, current: Option<Seen>) -> RunModel {
    let entry = run.journal.entries[run.index];
    match preserve_plan(entry, entry.target_path, current) {
        Err(error) => turned_back(run, error),
        Ok(moves) => if moves {
            in_phase(run, PhaseModel::Preserve { before: current->Some_0 })
        } else {
            target_clear(run)
        },
    }
}

/// The run once a file was looked at or moved.
pub open spec fn after_found(run: RunModel, seen: Seen) -> RunModel {
    let entry = run.journal.entries[run.index];
    let index = run.index as nat;
    match run.phase {
        PhaseModel::Preserve { before } => match preserved_progress(entry, index, before, seen) {
            Err(error) => turned_back(run, error),
            Ok(progress) => in_phase(run, PhaseModel::RecordMoved { progress: progress }),
        },
        PhaseModel::LookStaged => match hash_error(
            seen.0,
            entry.after,
            "staged file changed"@,
            "after-"@ + four_digits(index),
        ) {
            Some(error) => turned_back(run, error),
            None => in_phase(run, PhaseModel::Install { staged: seen }),
        },
        PhaseModel::Install { staged } => match installed_progress(
            entry,
            index,
            entry.target_path,
            staged,
            seen,
        ) {
            Err(error) => turned_back(run, error),
            Ok(progress) => in_phase(run, PhaseModel::RecordInstalled { progress: progress }),
        },
        PhaseModel::Restore { identity } => match snapshot_error(
            seen,
            entry.before,
            Some(identity),
            "restored target changed"@,
            entry.target_path,
        ) {
            Some(error) => stuck(run, error),
            None => rewound(run, run.index),
        },
        _ => run,
    }
}

/// The run once a record was written or the approval record is in place.
pub open spec fn after_done(run: RunModel) -> RunModel {
    match run.phase {
        PhaseModel::RecordMoved { .. } => if stops_after_preserve(
            run.journal.entries[run.index].kind,
            run.interruption,
        ) {
            crashed(run, JournalState::Prepared)
        } else {
            target_clear(run)
        },
        PhaseModel::RecordInstalled { .. } => entry_done(run),
        PhaseModel::InstallApproval => if run.interruption == Some(
            TestInterruption::AfterApprovalInstall,
        ) {
            crashed(run, JournalState::Prepared)
        } else {
            in_phase(run, PhaseModel::HashApplied)
        },
        PhaseModel::Commit => if run.interruption == Some(TestInterruption::AfterCommit) {
            crashed(run, JournalState::Committed)
        } else {
            ended(run, Ok(()), Some(JournalState::Committed))
        },
        PhaseModel::RecordRolledBack => ended(
            run,
            match run.failure {
                Some(error) => Err(error),
                None => Ok(()),
            },
            Some(JournalState::RolledBack),
        ),
        _ => run,
    }
}

/// The run once the approval record and its place were looked at.
pub open spec fn after_approval(run: RunModel, present: bool, staged_sha256: Seq<char>) -> RunModel {
    if present {
        turned_back(
            run,
            "approval record appeared during apply: "@ + record_path(run.journal.changeset_id),
        )
    } else {
        match hash_error(
            staged_sha256,
            Some(run.journal.approval_record_sha256),
            "approval stage changed"@,
            "approval-record.json"@,
        ) {
            Some(error) => turned_back(run, error),
            None => in_phase(run, PhaseModel::InstallApproval),
        }
    }
}

/// The run once the digest of the canon is known.
pub open spec fn after_root(run: RunModel, root: Seq<char>) -> RunModel {
    match run.phase {
        PhaseModel::HashApplied => if root == run.journal.result_root_hash {
            in_phase(run, PhaseModel::Commit)
        } else {
            turned_back(
                run,
                "applied canon root "@ + root + " does not match "@
                    + run.journal.result_root_hash,
            )
        },
        _ => if root == run.journal.base_root_hash {
            in_phase(run, PhaseModel::RecordRolledBack)
        } else {
            stuck(run, "rolled-back canon does not match the journal base root"@)
        },
    }
}

/// The run once the approval record and its quarantine were looked at.
pub open spec fn after_sides(run: RunModel, kept: Option<Seen>, live: Option<Seen>) -> RunModel {
    match quarantine_plan(
        run.journal.approval_record_sha256,
        None,
        "approval-quarantine"@,
        record_path(run.journal.changeset_id),
        kept,
        live,
    ) {
        Err(error) => stuck(run, error),
        Ok(moves) => if moves {
            in_phase(run, PhaseModel::QuarantineApproval)
        } else {
            rewound(run, run.journal.entries.len() as int)
        },
    }
}

/// The run once a file was moved to quarantine.
pub open spec fn after_kept(run: RunModel, kept: Seen, live: Option<Seen>) -> RunModel {
    let next = RunModel { quarantined: true, ..run };
    if !run.quarantined && run.recovery == Some(TestRecoveryInterruption::AfterFirstQuarantine) {
        crashed(next, JournalState::Prepared)
    } else {
        match run.phase {
            PhaseModel::QuarantineEntry { expected, identity, restore } => {
                let entry = run.journal.entries[run.index];
                match quarantined_error(
                    expected,
                    identity,
                    "quarantine-"@ + four_digits(run.index as nat),
                    entry.target_path,
                    kept,
                    live,
                ) {
                    Some(error) => stuck(next, error),
                    None => match restore {
                        Some(old) => in_phase(next, PhaseModel::Restore { identity: old }),
                        None => rewound(next, run.index),
                    },
                }
            },
            _ => match quarantined_error(
                run.journal.approval_record_sha256,
                None,
                "approval-quarantine"@,
                record_path(run.journal.changeset_id),
                kept,
                live,
            ) {
                Some(error) => stuck(next, error),
                None => rewound(next, run.journal.entries.len() as int),
            },
        }
    }
}

/// The run once every file of the operation was looked at.
pub open spec fn after_entry(run: RunModel, disk: EntryDisk) -> RunModel {
    let entry = run.journal.entries[run.index];
    match rollback_plan(entry, run.index as nat, entry.target_path, disk) {
        Err(error) => stuck(run, error),
        Ok(plan) => {
            let restore = if plan.restore {
                disk.moved
            } else {
                None
            };
            if plan.quarantine {
                in_phase(
                    run,
                    PhaseModel::QuarantineEntry {
                        expected: entry.after->Some_0,
                        identity: disk.installed,
                        restore: restore,
                    },
                )
            } else {
                match restore {
                    Some(old) => in_phase(run, PhaseModel::Restore { identity: old }),
                    None => rewound(run, run.index),
                }
            }
        },
    }
}

/// Whether the operations are being taken back.
pub open spec fn goes_back(phase: PhaseModel) -> bool {
    match phase {
        PhaseModel::LookQuarantine | PhaseModel::QuarantineApproval | PhaseModel::Examine
        | PhaseModel::QuarantineEntry { .. } | PhaseModel::Restore { .. }
        | PhaseModel::HashRestored | PhaseModel::RecordRolledBack => true,
        _ => false,
    }
}

/// The run once a step failed.
pub open spec fn after_failure(run: RunModel, error: Seq<char>) -> RunModel {
    if goes_back(run.phase) {
        stuck(run, error)
    } else {
        turned_back(run, error)
    }
}

/// The run once it is unknown whether a journal stays.
pub open spec fn after_unknown(run: RunModel) -> RunModel {
    match run.phase {
        PhaseModel::Commit => ended(
            run,
            Err("commit durability unknown; run recovery, do not retry"@),
            None,
        ),
        _ => ended(
            run,
            Err(
                pending_text(
                    run.failure,
                    "rollback durability is unknown; run recovery before retrying"@,
                ),
            ),
            None,
        ),
    }
}

/// The run after what came of its step.
pub open spec fn run_after(run: RunModel, event: EventModel) -> RunModel {
    match event {
        EventModel::Target(current) => after_look(run, current),
        EventModel::Found(seen) => after_found(run, seen),
        EventModel::Done => after_done(run),
        EventModel::Approval { present, staged_sha256 } => after_approval(
            run,
            present,
            staged_sha256,
        ),
        EventModel::Root(root) => after_root(run, root),
        EventModel::Sides { kept, live } => after_sides(run, kept, live),
        EventModel::Kept { kept, live } => after_kept(run, kept, live),
        EventModel::Entry(disk) => after_entry(run, disk),
        EventModel::Failed(error) => after_failure(run, error),
        EventModel::Unknown => after_unknown(run),
    }
}

/// The run of a changeset before its first step.
pub open spec fn starting(journal: JournalModel, interruption: Option<TestInterruption>) -> RunModel {
    at_entry(
        RunModel {
            journal: journal,
            interruption: interruption,
            recovery: None,
            index: 0,
            quarantined: false,
            failure: None,
            phase: PhaseModel::Look,
        },
        0,
    )
}

/// The run that takes back an interrupted transaction, before its first step.
pub open spec fn recovering(
    journal: JournalModel,
    recovery: Option<TestRecoveryInterruption>,
) -> RunModel {
    RunModel {
        journal: journal,
        interruption: None,
        recovery: recovery,
        index: 0,
        quarantined: false,
        failure: None,
        phase: PhaseModel::LookQuarantine,
    }
}

/// An apply that may start: its run, and the approval record that is staged for it.
pub struct StartedApply {
    /// Run.
    pub run: ApplyRun,
    /// Bytes of the approval record.
    pub record: Vec<u8>,
}

/// Whether an apply of a changeset starts with its journal and its record.
pub open spec fn starts_apply(
    started: StartedApply,
    change: ChangeModel,
    interruption: Option<TestInterruption>,
) -> bool {
    &&& record_bytes(change) == Ok::<Seq<u8>, Refusal>(started.record@)
    &&& started.run@ == starting(prepared_journal(change, started.record@), interruption)
    &&& run_valid(started.run@)
}

/// Starts to apply a changeset to the project as it is, where it is valid.
pub fn apply_changeset(project: &Project, snapshot: &ProjectSnapshot, change: &Changeset) -> (r:
    Result<StartedApply, ValidationError>)
    ensures
        match change_verdict(*snapshot, project.config.work_id@, change@) {
            Ok(()) => r is Ok && starts_apply(r->Ok_0, change@, None),
            Err(refusal) => r is Err && r->Err_0@ == refusal,
        },
{
    start_apply(project, snapshot, change, None)
}

/// Starts to apply a changeset, where it is valid, and interrupts it at a point.
pub fn apply_changeset_for_test(
    project: &Project,
    snapshot: &ProjectSnapshot,
    change: &Changeset,
    interruption: TestInterruption,
) -> (r: Result<StartedApply, ValidationError>)
    ensures
        match change_verdict(*snapshot, project.config.work_id@, change@) {
            Ok(()) => r is Ok && starts_apply(r->Ok_0, change@, Some(interruption)),
            Err(refusal) => r is Err && r->Err_0@ == refusal,
        },
{
    start_apply(project, snapshot, change, Some(interruption))
}

fn start_apply(
    project: &Project,
    snapshot: &ProjectSnapshot,
    change: &Changeset,
    interruption: Option<TestInterruption>,
) -> (r: Result<StartedApply, ValidationError>)
    ensures
        match change_verdict(*snapshot, project.config.work_id@, change@) {
            Ok(()) => r is Ok && starts_apply(r->Ok_0, change@, interruption),
            Err(refusal) => r is Err && r->Err_0@ == refusal,
        },
{
    match validate_changeset(project, snapshot, change) {
        Err(error) => {
            return Err(error);
        },
        Ok(()) => {},
    }
    proof {
        valid_changeset_is_bound(*snapshot, project.config.work_id@, change@);
    }
    match ApplyJournal::prepare(change) {
        Ok((journal, record)) => Ok(
            StartedApply { run: ApplyRun::apply(journal, interruption), record },
        ),
        Err(message) => Err(ValidationError::new(ValidationErrorKind::ValidationHash, message)),
    }
}

impl ApplyRun {
    /// Starts to apply a changeset whose journal is prepared.
    fn apply(journal: ApplyJournal, interruption: Option<TestInterruption>) -> (r: ApplyRun)
        ensures
            r@ == starting(journal@, interruption),
            run_valid(r@),
    {
        let phase = if journal.entries.len() > 0 {
            ApplyPhase::Look
        } else {
            ApplyPhase::LookApproval
        };
        ApplyRun {
            journal,
            interruption,
            recovery: None,
            index: 0,
            quarantined: false,
            failure: None,
            phase,
        }
    }

    /// Starts to take back an interrupted transaction.
    pub fn recover(journal: ApplyJournal, interruption: Option<TestRecoveryInterruption>) -> (r:
        ApplyRun)
        ensures
            r@ == recovering(journal@, interruption),
            run_valid(r@),
    {
        ApplyRun {
            journal,
            interruption: None,
            recovery: interruption,
            index: 0,
            quarantined: false,
            failure: None,
            phase: ApplyPhase::LookQuarantine,
        }
    }

    /// Returns what has to be done next.
    pub fn phase(&self) -> (r: &ApplyPhase)
        ensures
            r@ == self@.phase,
    {
        &self.phase
    }

    /// Returns the position of the operation.
    pub fn index(&self) -> (r: usize)
        ensures
            r == self@.index,
    {
        self.index
    }

    /// Returns the journal of the transaction.
    pub fn journal(&self) -> (r: &ApplyJournal)
        ensures
            r@ == self@.journal,
    {
        &self.journal
    }

    /// Returns whether a test lets the committed journal be written without being sure that it
    /// stays.
    pub fn doubts_commit(&self) -> (r: bool)
        ensures
            r == (self@.interruption == Some(TestInterruption::CommitDurabilityUnknown)),
    {
        match self.interruption {
            Some(TestInterruption::CommitDurabilityUnknown) => true,
            _ => false,
        }
    }

    /// Returns whether a test replaces the file that is moved to quarantine next.
    pub fn spoils_quarantine(&self) -> (r: bool)
        ensures
            r == (!self@.quarantined && self@.recovery == Some(
                TestRecoveryInterruption::CorruptFirstQuarantineBeforeValidation,
            )),
    {
        match self.recovery {
            Some(TestRecoveryInterruption::CorruptFirstQuarantineBeforeValidation) =>
                !self.quarantined,
            _ => false,
        }
    }

    /// Returns whether something can come of the step.
    pub fn accepts(&self, event: &ApplyEvent) -> (r: bool)
        ensures
            r == event_fits(self@.phase, event@),
    {
        match (&self.phase, event) {
            (ApplyPhase::Finished { .. }, _) => false,
            (_, ApplyEvent::Failed(_)) => true,
            (ApplyPhase::Look, ApplyEvent::Target(_)) => true,
            (ApplyPhase::Preserve { .. }, ApplyEvent::Found(_)) => true,
            (ApplyPhase::LookStaged, ApplyEvent::Found(_)) => true,
            (ApplyPhase::Install { .. }, ApplyEvent::Found(_)) => true,
            (ApplyPhase::Restore { .. }, ApplyEvent::Found(_)) => true,
            (ApplyPhase::RecordMoved { .. }, ApplyEvent::Done) => true,
            (ApplyPhase::RecordInstalled { .. }, ApplyEvent::Done) => true,
            (ApplyPhase::InstallApproval, ApplyEvent::Done) => true,
            (ApplyPhase::Commit, ApplyEvent::Done) => true,
            (ApplyPhase::Commit, ApplyEvent::Unknown) => true,
            (ApplyPhase::RecordRolledBack, ApplyEvent::Done) => true,
            (ApplyPhase::RecordRolledBack, ApplyEvent::Unknown) => true,
            (ApplyPhase::LookApproval, ApplyEvent::Approval { .. }) => true,
            (ApplyPhase::HashApplied, ApplyEvent::Root(_)) => true,
            (ApplyPhase::HashRestored, ApplyEvent::Root(_)) => true,
            (ApplyPhase::LookQuarantine, ApplyEvent::Sides { .. }) => true,
            (ApplyPhase::QuarantineApproval, ApplyEvent::Kept { .. }) => true,
            (ApplyPhase::QuarantineEntry { .. }, ApplyEvent::Kept { .. }) => true,
            (ApplyPhase::Examine, ApplyEvent::Entry(_)) => true,
            _ => false,
        }
    }

    fn into_phase(self, phase: ApplyPhase) -> (r: ApplyRun)
        ensures
            r@ == in_phase(self@, phase@),
    {
        ApplyRun { phase, ..self }
    }

    fn end(self, outcome: Result<(), String>, state: Option<JournalState>) -> (r: ApplyRun)
        ensures
            r@ == ended(self@, outcome_view(outcome), state),
    {
        self.into_phase(ApplyPhase::Finished { outcome, state })
    }

    fn crash(self, state: JournalState) -> (r: ApplyRun)
        ensures
            r@ == crashed(self@, state),
    {
        self.end(Err("simulated crash".to_owned()), Some(state))
    }

    fn turn_back(self, error: String) -> (r: ApplyRun)
        ensures
            r@ == turned_back(self@, error@),
    {
        ApplyRun { failure: Some(error), phase: ApplyPhase::LookQuarantine, ..self }
    }

    fn pending(&self, error: String) -> (r: String)
        ensures
            r@ == pending_text(self@.failure, error@),
    {
        match &self.failure {
            None => error,
            Some(first) => failed_apply(first.clone(), Some(error)),
        }
    }

    fn stay(self, error: String) -> (r: ApplyRun)
        ensures
            r@ == stuck(self@, error@),
    {
        let message = self.pending(error);
        self.end(Err(message), Some(JournalState::Prepared))
    }

    fn rewind(self, index: usize) -> (r: ApplyRun)
        requires
            index <= self@.journal.entries.len(),
        ensures
            r@ == rewound(self@, index as int),
            run_valid(r@),
    {
        if index == 0 {
            ApplyRun { index: 0, phase: ApplyPhase::HashRestored, ..self }
        } else {
            ApplyRun { index: index - 1, phase: ApplyPhase::Examine, ..self }
        }
    }

    fn finish_entry(self) -> (r: ApplyRun)
        requires
            self@.index < self@.journal.entries.len(),
        ensures
            r@ == entry_done(self@),
            run_valid(r@),
    {
        let index = self.index;
        let count = self.journal.entries.len();
        assert(self@.journal.entries[index as int] == self.journal.entries@[index as int]@);
        if interrupts_after_entry(self.journal.entries[index].kind, index, self.interruption) {
            return self.crash(JournalState::Prepared);
        }
        let next: usize = index + 1;
        let phase = if next < count {
            ApplyPhase::Look
        } else {
            ApplyPhase::LookApproval
        };
        ApplyRun { index: next, phase, ..self }
    }

    fn clear_target(self) -> (r: ApplyRun)
        requires
            self@.index < self@.journal.entries.len(),
        ensures
            r@ == target_clear(self@),
            run_valid(r@),
    {
        let index = self.index;
        assert(self@.journal.entries[index as int] == self.journal.entries@[index as int]@);
        if self.journal.entries[index].after_sha256.is_some() {
            self.into_phase(ApplyPhase::LookStaged)
        } else {
            self.finish_entry()
        }
    }

    fn look(self, current: Option<FileSnapshot>) -> (r: ApplyRun)
        requires
            run_valid(self@),
            self@.phase is Look,
        ensures
            r@ == after_look(self@, held_seen(current)),
            run_valid(r@),
    {
        let index = self.index;
        let entry = &self.journal.entries[index];
        assert(self@.journal.entries[index as int] == entry@);
        match entry.plan_preserve(entry.target_path.as_str(), borrow_file(&current)) {
            Err(error) => self.turn_back(error),
            Ok(moves) => match current {
                Some(before) => if moves {
                    self.into_phase(ApplyPhase::Preserve { before })
                } else {
                    self.clear_target()
                },
                None => self.clear_target(),
            },
        }
    }

    fn find(self, seen: FileSnapshot) -> (r: ApplyRun)
        requires
            run_valid(self@),
            event_fits(self@.phase, EventModel::Found(seen@)),
        ensures
            r@ == after_found(self@, seen@),
            run_valid(r@),
    {
        let index = self.index;
        let entry = &self.journal.entries[index];
        assert(self@.journal.entries[index as int] == entry@);
        match &self.phase {
            ApplyPhase::Preserve { before } => match entry.check_preserved(index, before, &seen) {
                Err(error) => self.turn_back(error),
                Ok(progress) => self.into_phase(ApplyPhase::RecordMoved { progress }),
            },
            ApplyPhase::LookStaged => match entry.check_staged(index, &seen) {
                Err(error) => self.turn_back(error),
                Ok(()) => self.into_phase(ApplyPhase::Install { staged: seen }),
            },
            ApplyPhase::Install { staged } => match entry.check_installed(
                index,
                entry.target_path.as_str(),
                staged,
                &seen,
            ) {
                Err(error) => self.turn_back(error),
                Ok(progress) => self.into_phase(ApplyPhase::RecordInstalled { progress }),
            },
            ApplyPhase::Restore { identity } => match entry.check_restored(
                *identity,
                entry.target_path.as_str(),
                &seen,
            ) {
                Err(error) => self.stay(error),
                Ok(()) => self.rewind(index),
            },
            _ => self,
        }
    }

    fn complete(self) -> (r: ApplyRun)
        requires
            run_valid(self@),
            event_fits(self@.phase, EventModel::Done),
        ensures
            r@ == after_done(self@),
            run_valid(r@),
    {
        match &self.phase {
            ApplyPhase::RecordMoved { .. } => {
                let index = self.index;
                assert(self@.journal.entries[index as int]
                    == self.journal.entries@[index as int]@);
                if interrupts_after_preserve(
                    self.journal.entries[index].kind,
                    self.interruption,
                ) {
                    self.crash(JournalState::Prepared)
                } else {
                    self.clear_target()
                }
            },
            ApplyPhase::RecordInstalled { .. } => self.finish_entry(),
            ApplyPhase::InstallApproval => match self.interruption {
                Some(TestInterruption::AfterApprovalInstall) => self.crash(JournalState::Prepared),
                _ => self.into_phase(ApplyPhase::HashApplied),
            },
            ApplyPhase::Commit => match self.interruption {
                Some(TestInterruption::AfterCommit) => self.crash(JournalState::Committed),
                _ => self.end(Ok(()), Some(JournalState::Committed)),
            },
            ApplyPhase::RecordRolledBack => {
                let outcome: Result<(), String> = match &self.failure {
                    Some(error) => Err(error.clone()),
                    None => Ok(()),
                };
                self.end(outcome, Some(JournalState::RolledBack))
            },
            _ => self,
        }
    }

    fn judge_approval(self, present: bool, staged_sha256: String) -> (r: ApplyRun)
        requires
            run_valid(self@),
            self@.phase is LookApproval,
        ensures
            r@ == after_approval(self@, present, staged_sha256@),
            run_valid(r@),
    {
        let display = record_name(self.journal.changeset_id.as_str());
        match plan_approval(&self.journal, present, staged_sha256.as_str(), display.as_str()) {
            Err(error) => self.turn_back(error),
            Ok(()) => self.into_phase(ApplyPhase::InstallApproval),
        }
    }

    fn judge_root(self, root: String) -> (r: ApplyRun)
        requires
            run_valid(self@),
            event_fits(self@.phase, EventModel::Root(root@)),
        ensures
            r@ == after_root(self@, root@),
            run_valid(r@),
    {
        match &self.phase {
            ApplyPhase::HashApplied => match check_applied_root(&self.journal, root.as_str()) {
                Err(error) => self.turn_back(error),
                Ok(()) => self.into_phase(ApplyPhase::Commit),
            },
            _ => match check_base_root(&self.journal, root.as_str()) {
                Err(error) => self.stay(error),
                Ok(()) => self.into_phase(ApplyPhase::RecordRolledBack),
            },
        }
    }

    fn judge_sides(self, kept: Option<FileSnapshot>, live: Option<FileSnapshot>) -> (r: ApplyRun)
        requires
            run_valid(self@),
            self@.phase is LookQuarantine,
        ensures
            r@ == after_sides(self@, held_seen(kept), held_seen(live)),
            run_valid(r@),
    {
        let display = record_name(self.journal.changeset_id.as_str());
        let count = self.journal.entries.len();
        match plan_quarantine(
            self.journal.approval_record_sha256.as_str(),
            None,
            "approval-quarantine",
            display.as_str(),
            borrow_file(&kept),
            borrow_file(&live),
        ) {
            Err(error) => self.stay(error),
            Ok(moves) => if moves {
                self.into_phase(ApplyPhase::QuarantineApproval)
            } else {
                self.rewind(count)
            },
        }
    }

    fn keep(self, kept: FileSnapshot, live: Option<FileSnapshot>) -> (r: ApplyRun)
        requires
            run_valid(self@),
            event_fits(
                self@.phase,
                (EventModel::Kept { kept: kept@, live: held_seen(live) }),
            ),
        ensures
            r@ == after_kept(self@, kept@, held_seen(live)),
            run_valid(r@),
    {
        let first = !self.quarantined;
        let index = self.index;
        let count = self.journal.entries.len();
        let ghost before = self@;
        let run = ApplyRun { quarantined: true, ..self };
        assert(run@ == (RunModel { quarantined: true, ..before }));
        match run.recovery {
            Some(TestRecoveryInterruption::AfterFirstQuarantine) => {
                if first {
                    return run.crash(JournalState::Prepared);
                }
            },
            _ => {},
        }
        match &run.phase {
            ApplyPhase::QuarantineEntry { expected, identity, restore } => {
                let entry = &run.journal.entries[index];
                assert(run@.journal.entries[index as int] == entry@);
                let checked = check_quarantined(
                    expected.as_str(),
                    *identity,
                    numbered("quarantine-", index).as_str(),
                    entry.target_path.as_str(),
                    &kept,
                    borrow_file(&live),
                );
                let old: Option<FileIdentity> = *restore;
                match checked {
                    Err(error) => run.stay(error),
                    Ok(()) => match old {
                        Some(identity) => run.into_phase(ApplyPhase::Restore { identity }),
                        None => run.rewind(index),
                    },
                }
            },
            _ => {
                let display = record_name(run.journal.changeset_id.as_str());
                match check_quarantined(
                    run.journal.approval_record_sha256.as_str(),
                    None,
                    "approval-quarantine",
                    display.as_str(),
                    &kept,
                    borrow_file(&live),
                ) {
                    Err(error) => run.stay(error),
                    Ok(()) => run.rewind(count),
                }
            },
        }
    }

    fn judge_entry(self, files: EntryFiles) -> (r: ApplyRun)
        requires
            run_valid(self@),
            self@.phase is Examine,
        ensures
            r@ == after_entry(self@, files@),
            run_valid(r@),
    {
        let index = self.index;
        let entry = &self.journal.entries[index];
        assert(self@.journal.entries[index as int] == entry@);
        let view = files.found();
        let plan = match entry.plan_rollback(index, entry.target_path.as_str(), &view) {
            Err(error) => {
                return self.stay(error);
            },
            Ok(plan) => plan,
        };
        let restore = if plan.restore {
            identity_in(&files.moved)
        } else {
            None
        };
        if plan.quarantine {
            let expected = match &entry.after_sha256 {
                Some(hash) => hash.clone(),
                None => "".to_owned(),
            };
            let identity = identity_in(&files.installed);
            self.into_phase(ApplyPhase::QuarantineEntry { expected, identity, restore })
        } else {
            match restore {
                Some(identity) => self.into_phase(ApplyPhase::Restore { identity }),
                None => self.rewind(index),
            }
        }
    }

    fn fail(self, error: String) -> (r: ApplyRun)
        requires
            run_valid(self@),
        ensures
            r@ == after_failure(self@, error@),
            run_valid(r@),
    {
        match &self.phase {
            ApplyPhase::LookQuarantine => self.stay(error),
            ApplyPhase::QuarantineApproval => self.stay(error),
            ApplyPhase::Examine => self.stay(error),
            ApplyPhase::QuarantineEntry { .. } => self.stay(error),
            ApplyPhase::Restore { .. } => self.stay(error),
            ApplyPhase::HashRestored => self.stay(error),
            ApplyPhase::RecordRolledBack => self.stay(error),
            _ => self.turn_back(error),
        }
    }

    fn doubt(self) -> (r: ApplyRun)
        requires
            run_valid(self@),
        ensures
            r@ == after_unknown(self@),
            run_valid(r@),
    {
        match &self.phase {
            ApplyPhase::Commit => self.end(
                Err("commit durability unknown; run recovery, do not retry".to_owned()),
                None,
            ),
            _ => {
                let message = self.pending(
                    "rollback durability is unknown; run recovery before retrying".to_owned(),
                );
                self.end(Err(message), None)
            },
        }
    }

    /// Takes in what came of the step and decides what has to be done next.
    pub fn advance(self, event: ApplyEvent) -> (r: ApplyRun)
        requires
            run_valid(self@),
            event_fits(self@.phase, event@),
        ensures
            r@ == run_after(self@, event@),
            run_valid(r@),
    {
        match event {
            ApplyEvent::Target(current) => self.look(current),
            ApplyEvent::Found(seen) => self.find(seen),
            ApplyEvent::Done => self.complete(),
            ApplyEvent::Approval { present, staged_sha256 } => self.judge_approval(
                present,
                staged_sha256,
            ),
            ApplyEvent::Root(root) => self.judge_root(root),
            ApplyEvent::Sides { kept, live } => self.judge_sides(kept, live),
            ApplyEvent::Kept { kept, live } => self.keep(kept, live),
            ApplyEvent::Entry(files) => self.judge_entry(files),
            ApplyEvent::Failed(error) => self.fail(error),
            ApplyEvent::Unknown => self.doubt(),
        }
    }
}

/// The files of a transaction on disk.
pub struct TransactionDisk {
    /// Files of each operation.
    pub entries: Seq<EntryDisk>,
    /// Approval record in place.
    pub approval: Option<Seen>,
    /// Approval record that is staged.
    pub stage: Option<Seen>,
    /// Approval record in quarantine.
    pub kept: Option<Seen>,
}

/// The disk with the files of one operation changed.
pub open spec fn with_entry(disk: TransactionDisk, index: int, files: EntryDisk) -> TransactionDisk {
    TransactionDisk { entries: disk.entries.update(index, files), ..disk }
}

/// The disk once the step of a run was carried out.
pub open spec fn carried_out(run: RunModel, disk: TransactionDisk) -> TransactionDisk {
    let files = disk.entries[run.index];
    match run.phase {
        PhaseModel::Preserve { .. } => with_entry(disk, run.index, preserved(files)),
        PhaseModel::RecordMoved { progress } => with_entry(
            disk,
            run.index,
            EntryDisk { moved: Some(progress.identity), ..files },
        ),
        PhaseModel::Install { .. } => with_entry(disk, run.index, installed(files)),
        PhaseModel::RecordInstalled { progress } => with_entry(
            disk,
            run.index,
            EntryDisk { installed: Some(progress.identity), ..files },
        ),
        PhaseModel::InstallApproval => TransactionDisk {
            approval: disk.stage,
            stage: None,
            ..disk
        },
        PhaseModel::QuarantineApproval => TransactionDisk {
            kept: disk.approval,
            approval: None,
            ..disk
        },
        PhaseModel::QuarantineEntry { .. } => with_entry(disk, run.index, quarantined(files)),
        PhaseModel::Restore { .. } => with_entry(disk, run.index, restored(files)),
        _ => disk,
    }
}

/// Whether what came of a step is what the disk holds after it.
pub open spec fn tells_truth(run: RunModel, disk: TransactionDisk, event: EventModel) -> bool {
    let files = disk.entries[run.index];
    match event {
        EventModel::Target(current) => current == files.target,
        EventModel::Found(seen) => match run.phase {
            PhaseModel::Preserve { .. } => files.old == Some(seen),
            PhaseModel::LookStaged => files.staged == Some(seen),
            _ => files.target == Some(seen),
        },
        EventModel::Approval { present, staged_sha256 } => present == (disk.approval is Some) && (
        present || digest_of(disk.stage) == Some(staged_sha256)),
        EventModel::Sides { kept, live } => kept == disk.kept && live == disk.approval,
        EventModel::Kept { kept, live } => if run.phase is QuarantineApproval {
            disk.kept == Some(kept) && live == disk.approval
        } else {
            files.quarantine == Some(kept) && live == files.target
        },
        EventModel::Entry(found) => found == (EntryDisk { staged: None, ..files }),
        _ => true,
    }
}

/// Whether a step can end on a disk with what came of it: a step that failed may still have been
/// carried out.
pub open spec fn can_follow(
    run: RunModel,
    disk: TransactionDisk,
    event: EventModel,
    next: TransactionDisk,
) -> bool {
    &&& event_fits(run.phase, event)
    &&& next == carried_out(run, disk) || event is Failed && next == disk
    &&& tells_truth(run, next, event)
}

/// Whether steps can follow each other.
pub open spec fn faithful(
    run: RunModel,
    disk: TransactionDisk,
    steps: Seq<(EventModel, TransactionDisk)>,
) -> bool
    decreases steps.len(),
{
    steps.len() > 0 ==> can_follow(run, disk, steps[0].0, steps[0].1) && faithful(
        run_after(run, steps[0].0),
        steps[0].1,
        steps.drop_first(),
    )
}

/// The run and the disk after steps.
pub open spec fn reached(
    run: RunModel,
    disk: TransactionDisk,
    steps: Seq<(EventModel, TransactionDisk)>,
) -> (RunModel, TransactionDisk)
    decreases steps.len(),
{
    if steps.len() == 0 {
        (run, disk)
    } else {
        reached(run_after(run, steps[0].0), steps[0].1, steps.drop_first())
    }
}

/// Digest of a file.
pub open spec fn digest_of(file: Option<Seen>) -> Option<Seq<char>> {
    match file {
        Some(seen) => Some(seen.0),
        None => None,
    }
}

/// Whether every entry of a journal has the digests that its kind asks for.
pub open spec fn entries_shaped(journal: JournalModel) -> bool {
    forall|j: int| 0 <= j < journal.entries.len() ==> entry_shape(#[trigger] journal.entries[j])
}

/// Whether the first operations are applied.
pub open spec fn applied_to(journal: JournalModel, disk: TransactionDisk, n: int) -> bool {
    forall|j: int|
        0 <= j < n ==> digest_of((#[trigger] disk.entries[j]).target) == journal.entries[j].after
}

/// Whether the operations from a position on left no trace in their targets.
pub open spec fn undone_from(journal: JournalModel, disk: TransactionDisk, n: int) -> bool {
    forall|j: int|
        n <= j < journal.entries.len() ==> digest_of((#[trigger] disk.entries[j]).target)
            == journal.entries[j].before
}

/// Whether every operation is applied and the approval record is in place.
pub open spec fn all_applied(journal: JournalModel, disk: TransactionDisk) -> bool {
    applied_to(journal, disk, journal.entries.len() as int) && digest_of(disk.approval) == Some(
        journal.approval_record_sha256,
    )
}

/// Whether every target is as it was and no approval record is in place.
pub open spec fn all_undone(journal: JournalModel, disk: TransactionDisk) -> bool {
    undone_from(journal, disk, 0) && disk.approval is None
}

/// What a run has done so far.
spec fn keeps_up(run: RunModel, disk: TransactionDisk) -> bool {
    let journal = run.journal;
    let n = journal.entries.len() as int;
    &&& run_valid(run)
    &&& entries_shaped(journal)
    &&& disk.entries.len() == n
    &&& match run.phase {
        PhaseModel::Look | PhaseModel::Preserve { .. } | PhaseModel::LookStaged
        | PhaseModel::Install { .. } => applied_to(journal, disk, run.index),
        PhaseModel::RecordMoved { .. } => applied_to(journal, disk, run.index)
            && disk.entries[run.index].target is None,
        PhaseModel::RecordInstalled { .. } => applied_to(journal, disk, run.index + 1),
        PhaseModel::LookApproval => applied_to(journal, disk, n),
        PhaseModel::InstallApproval => applied_to(journal, disk, n) && digest_of(disk.stage)
            == Some(journal.approval_record_sha256),
        PhaseModel::HashApplied | PhaseModel::Commit => all_applied(journal, disk),
        PhaseModel::LookQuarantine | PhaseModel::QuarantineApproval => true,
        PhaseModel::Examine | PhaseModel::Restore { .. } => disk.approval is None && undone_from(
            journal,
            disk,
            run.index + 1,
        ),
        PhaseModel::QuarantineEntry { restore, .. } => disk.approval is None && undone_from(
            journal,
            disk,
            run.index + 1,
        ) && (restore is None ==> journal.entries[run.index].before is None),
        PhaseModel::HashRestored | PhaseModel::RecordRolledBack => all_undone(journal, disk),
        PhaseModel::Finished { state, .. } => {
            &&& state == Some(JournalState::Committed) ==> all_applied(journal, disk)
            &&& state == Some(JournalState::RolledBack) ==> all_undone(journal, disk)
        },
    }
}

proof fn lemma_failed_step_keeps_up(
    run: RunModel,
    disk: TransactionDisk,
    error: Seq<char>,
    next: TransactionDisk,
)
    requires
        keeps_up(run, disk),
        can_follow(run, disk, EventModel::Failed(error), next),
    ensures
        keeps_up(run_after(run, EventModel::Failed(error)), next),
{
}

proof fn lemma_forward_step_keeps_up(
    run: RunModel,
    disk: TransactionDisk,
    event: EventModel,
    next: TransactionDisk,
)
    requires
        keeps_up(run, disk),
        can_follow(run, disk, event, next),
        !(event is Failed),
        !goes_back(run.phase),
    ensures
        keeps_up(run_after(run, event), next),
{
    let entry = run.journal.entries[run.index];
    let before = disk.entries[run.index];
    assert(about_entry(run.phase) ==> entry_shape(entry));
    assert forall|j: int| 0 <= j < disk.entries.len() && j != run.index implies next.entries[j]
        == disk.entries[j] by {}
}

proof fn lemma_backward_step_keeps_up(
    run: RunModel,
    disk: TransactionDisk,
    event: EventModel,
    next: TransactionDisk,
)
    requires
        keeps_up(run, disk),
        can_follow(run, disk, event, next),
        !(event is Failed),
        goes_back(run.phase),
    ensures
        keeps_up(run_after(run, event), next),
{
    let entry = run.journal.entries[run.index];
    assert(about_entry(run.phase) ==> entry_shape(entry));
    assert forall|j: int| 0 <= j < disk.entries.len() && j != run.index implies next.entries[j]
        == disk.entries[j] by {}
}

proof fn lemma_steps_keep_up(
    run: RunModel,
    disk: TransactionDisk,
    steps: Seq<(EventModel, TransactionDisk)>,
)
    requires
        keeps_up(run, disk),
        faithful(run, disk, steps),
    ensures
        keeps_up(reached(run, disk, steps).0, reached(run, disk, steps).1),
        reached(run, disk, steps).0.journal == run.journal,
    decreases steps.len(),
{
    if steps.len() > 0 {
        let (event, next) = steps[0];
        match event {
            EventModel::Failed(error) => lemma_failed_step_keeps_up(run, disk, error, next),
            _ => if goes_back(run.phase) {
                lemma_backward_step_keeps_up(run, disk, event, next);
            } else {
                lemma_forward_step_keeps_up(run, disk, event, next);
            },
        }
        lemma_steps_keep_up(run_after(run, event), next, steps.drop_first());
    }
}

/// Whether a run that takes operations back knows why, and succeeds only where it committed.
spec fn has_reason(run: RunModel) -> bool {
    &&& goes_back(run.phase) ==> run.failure is Some
    &&& match run.phase {
        PhaseModel::Finished { outcome: Ok(()), state } => state == Some(JournalState::Committed),
        _ => true,
    }
}

proof fn lemma_step_has_reason(run: RunModel, event: EventModel)
    requires
        has_reason(run),
        event_fits(run.phase, event),
    ensures
        has_reason(run_after(run, event)),
{
}

proof fn lemma_steps_have_reason(
    run: RunModel,
    disk: TransactionDisk,
    steps: Seq<(EventModel, TransactionDisk)>,
)
    requires
        has_reason(run),
        faithful(run, disk, steps),
    ensures
        has_reason(reached(run, disk, steps).0),
    decreases steps.len(),
{
    if steps.len() > 0 {
        lemma_step_has_reason(run, steps[0].0);
        lemma_steps_have_reason(run_after(run, steps[0].0), steps[0].1, steps.drop_first());
    }
}

/// An apply is all or nothing, whichever of its steps fail: where it succeeds, and once the
/// committed journal is written, every target is new and the approval record is in place; once the
/// rolled-back journal is written every target is as it was and no approval record is in place.
pub proof fn apply_is_all_or_nothing(
    journal: JournalModel,
    interruption: Option<TestInterruption>,
    disk: TransactionDisk,
    steps: Seq<(EventModel, TransactionDisk)>,
)
    requires
        entries_shaped(journal),
        disk.entries.len() == journal.entries.len(),
        faithful(starting(journal, interruption), disk, steps),
    ensures
        ({
            let (run, end) = reached(starting(journal, interruption), disk, steps);
            match run.phase {
                PhaseModel::Finished { outcome, state } => {
                    &&& outcome is Ok ==> all_applied(journal, end)
                    &&& state == Some(JournalState::Committed) ==> all_applied(journal, end)
                    &&& state == Some(JournalState::RolledBack) ==> outcome is Err && all_undone(
                        journal,
                        end,
                    )
                },
                _ => true,
            }
        }),
{
    lemma_steps_keep_up(starting(journal, interruption), disk, steps);
    lemma_steps_have_reason(starting(journal, interruption), disk, steps);
}

/// A recovery that writes the rolled-back journal leaves every target as it was and no approval
/// record in place, whatever it found.
pub proof fn recovery_undoes_everything(
    journal: JournalModel,
    recovery: Option<TestRecoveryInterruption>,
    disk: TransactionDisk,
    steps: Seq<(EventModel, TransactionDisk)>,
)
    requires
        entries_shaped(journal),
        disk.entries.len() == journal.entries.len(),
        faithful(recovering(journal, recovery), disk, steps),
    ensures
        ({
            let (run, end) = reached(recovering(journal, recovery), disk, steps);
            match run.phase {
                PhaseModel::Finished { state: Some(JournalState::RolledBack), .. } => all_undone(
                    journal,
                    end,
                ),
                _ => true,
            }
        }),
{
    lemma_steps_keep_up(recovering(journal, recovery), disk, steps);
}

/// Whether a disk is as it was before the first operation: each target as the journal has it, each
/// new file staged, and the approval record staged.
pub open spec fn undisturbed(journal: JournalModel, disk: TransactionDisk) -> bool {
    &&& disk.approval is None
    &&& digest_of(disk.stage) == Some(journal.approval_record_sha256)
    &&& disk.kept is None
    &&& disk.entries.len() == journal.entries.len()
    &&& forall|j: int|
        #![trigger disk.entries[j]]
        0 <= j < disk.entries.len() ==> {
            &&& disk.entries[j] == untouched(disk.entries[j].target, disk.entries[j].staged)
            &&& digest_of(disk.entries[j].target) == journal.entries[j].before
            &&& digest_of(disk.entries[j].staged) == journal.entries[j].after
        }
}

/// The files of an operation once nothing is in the way of the new file.
spec fn cleared(entry: EntryModel, start: EntryDisk) -> EntryDisk {
    if entry.before is Some {
        move_recorded(preserved(start))
    } else {
        start
    }
}

/// Whether the files of an operation are at a point that is recorded.
spec fn at_rest(entry: EntryModel, start: EntryDisk, files: EntryDisk) -> bool {
    ||| files == start
    ||| files == cleared(entry, start)
    ||| entry.after is Some && files == install_recorded(installed(cleared(entry, start)))
}

/// Where the files of the operation of a run are.
spec fn follows(run: RunModel, start: EntryDisk, files: EntryDisk) -> bool {
    let entry = run.journal.entries[run.index];
    match run.phase {
        PhaseModel::Look => files == start,
        PhaseModel::Preserve { before } => files == start && start.target == Some(before),
        PhaseModel::RecordMoved { progress } => entry.before is Some && files == preserved(start)
            && progress.identity == start.target->Some_0.1,
        PhaseModel::LookStaged => entry.after is Some && files == cleared(entry, start),
        PhaseModel::Install { staged } => entry.after is Some && files == cleared(entry, start)
            && start.staged == Some(staged),
        PhaseModel::RecordInstalled { progress } => entry.after is Some && files == installed(
            cleared(entry, start),
        ) && progress.identity == start.staged->Some_0.1,
        _ => at_rest(entry, start, files),
    }
}

/// Where the files of every operation are, as long as nothing is taken back.
spec fn on_course(run: RunModel, start: TransactionDisk, disk: TransactionDisk) -> bool {
    &&& run_valid(run)
    &&& entries_shaped(run.journal)
    &&& disk.entries.len() == run.journal.entries.len()
    &&& goes_back(run.phase) ==> run.failure is Some
    &&& run.failure is None ==> {
        &&& forall|j: int|
            0 <= j < run.journal.entries.len() && j != run.index ==> at_rest(
                run.journal.entries[j],
                start.entries[j],
                #[trigger] disk.entries[j],
            )
        &&& forall|j: int|
            run.index < j < run.journal.entries.len() ==> #[trigger] disk.entries[j]
                == start.entries[j]
        &&& run.index < run.journal.entries.len() ==> follows(
            run,
            start.entries[run.index],
            disk.entries[run.index],
        )
        &&& disk.kept is None
        &&& disk.approval is None && digest_of(disk.stage) == Some(
            run.journal.approval_record_sha256,
        ) || !about_entry(run.phase) && !(run.phase is LookApproval) && !(
        run.phase is InstallApproval) && digest_of(disk.approval) == Some(
            run.journal.approval_record_sha256,
        )
    }
}

proof fn lemma_step_stays_on_course(
    run: RunModel,
    start: TransactionDisk,
    disk: TransactionDisk,
    event: EventModel,
    next: TransactionDisk,
)
    requires
        undisturbed(run.journal, start),
        on_course(run, start, disk),
        can_follow(run, disk, event, next),
    ensures
        on_course(run_after(run, event), start, next),
{
    let after = run_after(run, event);
    if after.failure is None {
        assert(!goes_back(run.phase) && !(event is Failed));
        let entry = run.journal.entries[run.index];
        if about_entry(run.phase) {
            assert(entry_shape(entry));
            let origin = start.entries[run.index];
            assert(origin == untouched(origin.target, origin.staged));
        }
        assert forall|j: int| 0 <= j < disk.entries.len() && j != run.index implies next.entries[j]
            == disk.entries[j] by {}
    }
}

proof fn lemma_steps_stay_on_course(
    run: RunModel,
    start: TransactionDisk,
    disk: TransactionDisk,
    steps: Seq<(EventModel, TransactionDisk)>,
)
    requires
        undisturbed(run.journal, start),
        on_course(run, start, disk),
        faithful(run, disk, steps),
    ensures
        on_course(reached(run, disk, steps).0, start, reached(run, disk, steps).1),
        reached(run, disk, steps).0.journal == run.journal,
    decreases steps.len(),
{
    if steps.len() > 0 {
        let (event, next) = steps[0];
        lemma_step_stays_on_course(run, start, disk, event, next);
        lemma_steps_stay_on_course(run_after(run, event), start, next, steps.drop_first());
    }
}

proof fn lemma_rest_is_recoverable(entry: EntryModel, index: nat, start: EntryDisk, files: EntryDisk)
    requires
        entry_shape(entry),
        start == untouched(start.target, start.staged),
        digest_of(start.target) == entry.before,
        digest_of(start.staged) == entry.after,
        at_rest(entry, start, files),
    ensures
        rolls_back_to(entry, index, entry.target_path, files, start.target),
{
}

/// A crash between two steps can be recovered from, unless it comes between moving a file and
/// recording that it was moved: taking back each operation gives every target its old file again.
pub proof fn crash_is_recoverable(
    journal: JournalModel,
    interruption: Option<TestInterruption>,
    disk: TransactionDisk,
    steps: Seq<(EventModel, TransactionDisk)>,
)
    requires
        entries_shaped(journal),
        undisturbed(journal, disk),
        faithful(starting(journal, interruption), disk, steps),
    ensures
        ({
            let (run, end) = reached(starting(journal, interruption), disk, steps);
            run.failure is None && !(run.phase is RecordMoved) && !(run.phase is RecordInstalled)
                ==> forall|j: int|
                0 <= j < journal.entries.len() ==> rolls_back_to(
                    journal.entries[j],
                    j as nat,
                    journal.entries[j].target_path,
                    #[trigger] end.entries[j],
                    disk.entries[j].target,
                )
        }),
{
    let first = starting(journal, interruption);
    lemma_steps_stay_on_course(first, disk, disk, steps);
    let (run, end) = reached(first, disk, steps);
    if run.failure is None && !(run.phase is RecordMoved) && !(run.phase is RecordInstalled) {
        assert forall|j: int| 0 <= j < journal.entries.len() implies rolls_back_to(
            journal.entries[j],
            j as nat,
            journal.entries[j].target_path,
            #[trigger] end.entries[j],
            disk.entries[j].target,
        ) by {
            assert(disk.entries[j] == untouched(disk.entries[j].target, disk.entries[j].staged));
            lemma_rest_is_recoverable(
                journal.entries[j],
                j as nat,
                disk.entries[j],
                end.entries[j],
            );
        }
    }
}

/// Whether no step fails, and the canon has the digest that is given wherever it is computed.
pub open spec fn uneventful(steps: Seq<(EventModel, TransactionDisk)>, root: Seq<char>) -> bool {
    forall|k: int|
        0 <= k < steps.len() ==> match (#[trigger] steps[k]).0 {
            EventModel::Failed(_) | EventModel::Unknown => false,
            EventModel::Root(found) => found == root,
            _ => true,
        }
}

/// Whether a run has met nothing that stops it.
spec fn unhindered(run: RunModel) -> bool {
    &&& run.failure is None
    &&& run.interruption is None
    &&& !goes_back(run.phase)
    &&& match run.phase {
        PhaseModel::Finished { outcome, .. } => outcome is Ok,
        _ => true,
    }
}

proof fn lemma_step_is_unhindered(
    run: RunModel,
    start: TransactionDisk,
    disk: TransactionDisk,
    event: EventModel,
    next: TransactionDisk,
)
    requires
        undisturbed(run.journal, start),
        on_course(run, start, disk),
        can_follow(run, disk, event, next),
        unhindered(run),
        run.journal.entries.len() <= u32::MAX,
        !(event is Failed) && !(event is Unknown),
        match event {
            EventModel::Root(found) => found == run.journal.result_root_hash,
            _ => true,
        },
    ensures
        unhindered(run_after(run, event)),
{
    let entry = run.journal.entries[run.index];
    if about_entry(run.phase) {
        assert(entry_shape(entry));
        let origin = start.entries[run.index];
        assert(origin == untouched(origin.target, origin.staged));
        assert(digest_of(origin.target) == entry.before);
        assert(digest_of(origin.staged) == entry.after);
    }
}

proof fn lemma_steps_are_unhindered(
    run: RunModel,
    start: TransactionDisk,
    disk: TransactionDisk,
    steps: Seq<(EventModel, TransactionDisk)>,
)
    requires
        undisturbed(run.journal, start),
        on_course(run, start, disk),
        faithful(run, disk, steps),
        unhindered(run),
        run.journal.entries.len() <= u32::MAX,
        uneventful(steps, run.journal.result_root_hash),
    ensures
        unhindered(reached(run, disk, steps).0),
    decreases steps.len(),
{
    if steps.len() > 0 {
        let (event, next) = steps[0];
        lemma_step_stays_on_course(run, start, disk, event, next);
        lemma_step_is_unhindered(run, start, disk, event, next);
        let rest = steps.drop_first();
        assert forall|k: int| 0 <= k < rest.len() implies match (#[trigger] rest[k]).0 {
            EventModel::Failed(_) | EventModel::Unknown => false,
            EventModel::Root(found) => found == run.journal.result_root_hash,
            _ => true,
        } by {
            assert(rest[k] == steps[k + 1]);
        }
        lemma_steps_are_unhindered(run_after(run, event), start, next, rest);
    }
}

/// An apply that nothing disturbs takes nothing back, and succeeds where it ends.
pub proof fn undisturbed_apply_succeeds(
    journal: JournalModel,
    disk: TransactionDisk,
    steps: Seq<(EventModel, TransactionDisk)>,
)
    requires
        entries_shaped(journal),
        journal.entries.len() <= u32::MAX,
        undisturbed(journal, disk),
        faithful(starting(journal, None), disk, steps),
        uneventful(steps, journal.result_root_hash),
    ensures
        ({
            let run = reached(starting(journal, None), disk, steps).0;
            &&& !goes_back(run.phase)
            &&& match run.phase {
                PhaseModel::Finished { outcome, .. } => outcome is Ok,
                _ => true,
            }
        }),
{
    lemma_steps_are_unhindered(starting(journal, None), disk, disk, steps);
}

/// Whether two disks hold the same targets and the same approval record.
pub open spec fn same_canon(a: TransactionDisk, b: TransactionDisk) -> bool {
    &&& a.entries.len() == b.entries.len()
    &&& forall|j: int|
        0 <= j < a.entries.len() ==> (#[trigger] a.entries[j]).target == b.entries[j].target
    &&& a.approval == b.approval
}

/// Where the files of the operation of a recovery are.
spec fn comes_back(run: RunModel, start: EntryDisk, files: EntryDisk) -> bool {
    let entry = run.journal.entries[run.index];
    match run.phase {
        PhaseModel::Examine => at_rest(entry, start, files),
        PhaseModel::QuarantineEntry { expected, identity, restore } => {
            &&& entry.after == Some(expected)
            &&& files == install_recorded(installed(cleared(entry, start)))
            &&& identity == Some(start.staged->Some_0.1)
            &&& restore == (if entry.before is Some {
                Some(start.target->Some_0.1)
            } else {
                None
            })
        },
        PhaseModel::Restore { identity } => entry.before is Some && files.old == start.target
            && identity == start.target->Some_0.1,
        _ => true,
    }
}

/// Where the files of the operations are that a recovery has still to take back.
spec fn on_return(run: RunModel, start: TransactionDisk, disk: TransactionDisk) -> bool {
    &&& run_valid(run)
    &&& run.recovery is None
    &&& disk.entries.len() == run.journal.entries.len()
    &&& match run.phase {
        PhaseModel::LookQuarantine | PhaseModel::QuarantineApproval => {
            &&& disk.kept is None
            &&& run.phase is LookQuarantine && disk.approval is None || digest_of(disk.approval)
                == Some(run.journal.approval_record_sha256)
            &&& forall|j: int|
                0 <= j < run.journal.entries.len() ==> at_rest(
                    run.journal.entries[j],
                    start.entries[j],
                    #[trigger] disk.entries[j],
                )
        },
        PhaseModel::Examine | PhaseModel::QuarantineEntry { .. } | PhaseModel::Restore { .. } => {
            &&& comes_back(run, start.entries[run.index], disk.entries[run.index])
            &&& disk.approval is None
            &&& forall|j: int|
                run.index < j < run.journal.entries.len() ==> (#[trigger] disk.entries[j]).target
                    == start.entries[j].target
            &&& forall|j: int|
                0 <= j < run.index ==> at_rest(
                    run.journal.entries[j],
                    start.entries[j],
                    #[trigger] disk.entries[j],
                )
        },
        PhaseModel::HashRestored | PhaseModel::RecordRolledBack => same_canon(disk, start),
        PhaseModel::Finished { outcome, state } => {
            &&& outcome is Ok
            &&& state == Some(JournalState::RolledBack)
            &&& same_canon(disk, start)
        },
        _ => false,
    }
}

proof fn lemma_step_returns(
    run: RunModel,
    start: TransactionDisk,
    disk: TransactionDisk,
    event: EventModel,
    next: TransactionDisk,
)
    requires
        entries_shaped(run.journal),
        undisturbed(run.journal, start),
        on_return(run, start, disk),
        run.failure is None,
        can_follow(run, disk, event, next),
        !(event is Failed) && !(event is Unknown),
        match event {
            EventModel::Root(found) => found == run.journal.base_root_hash,
            _ => true,
        },
    ensures
        on_return(run_after(run, event), start, next),
        run_after(run, event).failure is None,
{
    let entry = run.journal.entries[run.index];
    if about_entry(run.phase) {
        assert(entry_shape(entry));
        let origin = start.entries[run.index];
        assert(origin == untouched(origin.target, origin.staged));
        assert(digest_of(origin.target) == entry.before);
        assert(digest_of(origin.staged) == entry.after);
    }
    assert forall|j: int| 0 <= j < disk.entries.len() && j != run.index implies next.entries[j]
        == disk.entries[j] by {}
}

proof fn lemma_steps_return(
    run: RunModel,
    start: TransactionDisk,
    disk: TransactionDisk,
    steps: Seq<(EventModel, TransactionDisk)>,
)
    requires
        entries_shaped(run.journal),
        undisturbed(run.journal, start),
        on_return(run, start, disk),
        run.failure is None,
        faithful(run, disk, steps),
        uneventful(steps, run.journal.base_root_hash),
    ensures
        on_return(reached(run, disk, steps).0, start, reached(run, disk, steps).1),
    decreases steps.len(),
{
    if steps.len() > 0 {
        let (event, next) = steps[0];
        lemma_step_returns(run, start, disk, event, next);
        let rest = steps.drop_first();
        assert forall|k: int| 0 <= k < rest.len() implies match (#[trigger] rest[k]).0 {
            EventModel::Failed(_) | EventModel::Unknown => false,
            EventModel::Root(found) => found == run.journal.base_root_hash,
            _ => true,
        } by {
            assert(rest[k] == steps[k + 1]);
        }
        lemma_steps_return(run_after(run, event), start, next, rest);
    }
}

/// A recovery after such a crash does not get stuck: it succeeds where it ends.
pub proof fn recovery_after_crash_succeeds(
    journal: JournalModel,
    interruption: Option<TestInterruption>,
    disk: TransactionDisk,
    steps: Seq<(EventModel, TransactionDisk)>,
    back: Seq<(EventModel, TransactionDisk)>,
)
    requires
        entries_shaped(journal),
        undisturbed(journal, disk),
        faithful(starting(journal, interruption), disk, steps),
        ({
            let (run, end) = reached(starting(journal, interruption), disk, steps);
            &&& run.failure is None
            &&& !(run.phase is RecordMoved)
            &&& !(run.phase is RecordInstalled)
            &&& faithful(recovering(journal, None), end, back)
        }),
        uneventful(back, journal.base_root_hash),
    ensures
        ({
            let end = reached(starting(journal, interruption), disk, steps).1;
            match reached(recovering(journal, None), end, back).0.phase {
                PhaseModel::Finished { outcome, .. } => outcome is Ok,
                _ => true,
            }
        }),
{
    let first = starting(journal, interruption);
    lemma_steps_stay_on_course(first, disk, disk, steps);
    let (run, end) = reached(first, disk, steps);
    assert forall|j: int| 0 <= j < journal.entries.len() implies at_rest(
        journal.entries[j],
        disk.entries[j],
        #[trigger] end.entries[j],
    ) by {}
    lemma_steps_return(recovering(journal, None), disk, end, back);
}

/// Whether a function that gives the digest of the canon on a disk reads nothing but the targets
/// and the approval record.
pub open spec fn reads_canon(root_of: spec_fn(TransactionDisk) -> Seq<char>) -> bool {
    forall|a: TransactionDisk, b: TransactionDisk|
        #![trigger root_of(a), root_of(b)]
        same_canon(a, b) ==> root_of(a) == root_of(b)
}

/// Whether every digest of the canon that steps report is that of the disk.
pub open spec fn roots_true(
    steps: Seq<(EventModel, TransactionDisk)>,
    root_of: spec_fn(TransactionDisk) -> Seq<char>,
) -> bool {
    forall|k: int|
        0 <= k < steps.len() ==> match (#[trigger] steps[k]).0 {
            EventModel::Root(found) => found == root_of(steps[k].1),
            _ => true,
        }
}

/// Whether no step fails.
pub open spec fn none_fails(steps: Seq<(EventModel, TransactionDisk)>) -> bool {
    forall|k: int|
        0 <= k < steps.len() ==> !((#[trigger] steps[k]).0 is Failed) && !(steps[k].0 is Unknown)
}

/// Whether the canon has the digest that a run has checked.
spec fn root_checked(
    run: RunModel,
    disk: TransactionDisk,
    root_of: spec_fn(TransactionDisk) -> Seq<char>,
) -> bool {
    match run.phase {
        PhaseModel::Commit => root_of(disk) == run.journal.result_root_hash,
        PhaseModel::RecordRolledBack => root_of(disk) == run.journal.base_root_hash,
        PhaseModel::Finished { state, .. } => {
            &&& state == Some(JournalState::Committed) ==> root_of(disk)
                == run.journal.result_root_hash
            &&& state == Some(JournalState::RolledBack) ==> root_of(disk)
                == run.journal.base_root_hash
        },
        _ => true,
    }
}

proof fn lemma_step_checks_root(
    run: RunModel,
    disk: TransactionDisk,
    event: EventModel,
    next: TransactionDisk,
    root_of: spec_fn(TransactionDisk) -> Seq<char>,
)
    requires
        root_checked(run, disk, root_of),
        can_follow(run, disk, event, next),
        match event {
            EventModel::Root(found) => found == root_of(next),
            _ => true,
        },
    ensures
        root_checked(run_after(run, event), next, root_of),
        run_after(run, event).journal == run.journal,
{
}

proof fn lemma_steps_check_root(
    run: RunModel,
    disk: TransactionDisk,
    steps: Seq<(EventModel, TransactionDisk)>,
    root_of: spec_fn(TransactionDisk) -> Seq<char>,
)
    requires
        root_checked(run, disk, root_of),
        faithful(run, disk, steps),
        roots_true(steps, root_of),
    ensures
        root_checked(reached(run, disk, steps).0, reached(run, disk, steps).1, root_of),
        reached(run, disk, steps).0.journal == run.journal,
    decreases steps.len(),
{
    if steps.len() > 0 {
        let (event, next) = steps[0];
        lemma_step_checks_root(run, disk, event, next, root_of);
        let rest = steps.drop_first();
        assert forall|k: int| 0 <= k < rest.len() implies match (#[trigger] rest[k]).0 {
            EventModel::Root(found) => found == root_of(rest[k].1),
            _ => true,
        } by {
            assert(rest[k] == steps[k + 1]);
        }
        lemma_steps_check_root(run_after(run, event), next, rest, root_of);
    }
}

proof fn lemma_valid_operations(
    snapshot: ProjectSnapshot,
    work_id: Seq<char>,
    id: Seq<char>,
    ops: Seq<OperationModel>,
    from: int,
    i: int,
)
    requires
        0 <= from <= i < ops.len(),
        operations_from(snapshot, work_id, id, ops, from) is Ok,
    ensures
        operation_verdict(snapshot, work_id, id, ops, i) is Ok,
    decreases i - from,
{
    if from < i {
        lemma_valid_operations(snapshot, work_id, id, ops, from + 1, i);
    }
}

proof fn lemma_valid_change_is_shaped(
    snapshot: ProjectSnapshot,
    work_id: Seq<char>,
    change: ChangeModel,
    record: Seq<u8>,
)
    requires
        change_verdict(snapshot, work_id, change) is Ok,
    ensures
        entries_shaped(prepared_journal(change, record)),
        prepared_journal(change, record).entries.len() == change.operations.len(),
{
    let journal = prepared_journal(change, record);
    assert forall|j: int| 0 <= j < journal.entries.len() implies entry_shape(
        #[trigger] journal.entries[j],
    ) by {
        lemma_valid_operations(snapshot, work_id, change.id, change.operations, 0, j);
    }
}

/// An apply of a valid changeset that succeeds leaves the canon with the result root of the
/// changeset, its approval record in place, the candidate's content in every file that is created
/// or replaced, and no file that is deleted.  With the record in place the changeset is not valid
/// any more, so it is not applied a second time.
pub proof fn successful_apply_reaches_the_result(
    snapshot: ProjectSnapshot,
    work_id: Seq<char>,
    change: ChangeModel,
    record: Seq<u8>,
    disk: TransactionDisk,
    steps: Seq<(EventModel, TransactionDisk)>,
    root_of: spec_fn(TransactionDisk) -> Seq<char>,
    later: ProjectSnapshot,
    k: int,
)
    requires
        change_verdict(snapshot, work_id, change) is Ok,
        record_bytes(change) == Ok::<Seq<u8>, Refusal>(record),
        disk.entries.len() == change.operations.len(),
        faithful(starting(prepared_journal(change, record), None), disk, steps),
        roots_true(steps, root_of),
        match reached(starting(prepared_journal(change, record), None), disk, steps).0.phase {
            PhaseModel::Finished { outcome, .. } => outcome is Ok,
            _ => false,
        },
        0 <= k < later.approvals@.len(),
        later.approvals@[k].name@ == change.id + ".json"@,
    ensures
        ({
            let end = reached(starting(prepared_journal(change, record), None), disk, steps).1;
            &&& root_of(end) == change.result_root_hash
            &&& digest_of(end.approval) == Some(digest_text(record))
            &&& forall|i: int|
                0 <= i < change.operations.len() ==> match change.operations[i].candidate_path {
                    Some(path) => digest_of((#[trigger] end.entries[i]).target) == Some(
                        digest_text(candidate_verdict(snapshot, change.id, path)->Ok_0),
                    ),
                    None => end.entries[i].target is None,
                }
        }),
        change_verdict(later, work_id, change) is Err,
{
    let journal = prepared_journal(change, record);
    let first = starting(journal, None);
    lemma_valid_change_is_shaped(snapshot, work_id, change, record);
    apply_is_all_or_nothing(journal, None, disk, steps);
    lemma_steps_have_reason(first, disk, steps);
    lemma_steps_check_root(first, disk, steps, root_of);
    let end = reached(first, disk, steps).1;
    assert forall|i: int| 0 <= i < change.operations.len() implies match change.operations[i].candidate_path {
        Some(path) => digest_of((#[trigger] end.entries[i]).target) == Some(
            digest_text(candidate_verdict(snapshot, change.id, path)->Ok_0),
        ),
        None => end.entries[i].target is None,
    } by {
        lemma_valid_operations(snapshot, work_id, change.id, change.operations, 0, i);
        assert(digest_of(end.entries[i].target) == journal.entries[i].after);
    }
    approved_changeset_is_refused(later, work_id, change, k);
}

proof fn lemma_steps_recover(
    run: RunModel,
    start: TransactionDisk,
    disk: TransactionDisk,
    steps: Seq<(EventModel, TransactionDisk)>,
    root_of: spec_fn(TransactionDisk) -> Seq<char>,
)
    requires
        entries_shaped(run.journal),
        undisturbed(run.journal, start),
        on_return(run, start, disk),
        run.failure is None,
        faithful(run, disk, steps),
        none_fails(steps),
        roots_true(steps, root_of),
        reads_canon(root_of),
        root_of(start) == run.journal.base_root_hash,
    ensures
        on_return(reached(run, disk, steps).0, start, reached(run, disk, steps).1),
        reached(run, disk, steps).0.journal == run.journal,
    decreases steps.len(),
{
    if steps.len() > 0 {
        let (event, next) = steps[0];
        assert(!(event is Failed) && !(event is Unknown));
        match event {
            EventModel::Root(found) => {
                assert(same_canon(next, start));
                assert(root_of(next) == root_of(start));
            },
            _ => {},
        }
        lemma_step_returns(run, start, disk, event, next);
        let rest = steps.drop_first();
        assert forall|k: int| 0 <= k < rest.len() implies match (#[trigger] rest[k]).0 {
            EventModel::Root(found) => found == root_of(rest[k].1),
            _ => true,
        } by {
            assert(rest[k] == steps[k + 1]);
        }
        assert forall|k: int| 0 <= k < rest.len() implies !((#[trigger] rest[k]).0 is Failed) && !(
        rest[k].0 is Unknown) by {
            assert(rest[k] == steps[k + 1]);
        }
        lemma_steps_recover(run_after(run, event), start, next, rest, root_of);
    }
}

/// What a recovery reports of some journals: how many it takes back, how many it keeps, and which
/// one it takes back.
pub open spec fn recovery_report(journals: Seq<JournalModel>) -> (nat, nat, Option<int>) {
    let n = journals.len() as int;
    (
        count_state(journals, JournalState::Prepared, n),
        count_state(journals, JournalState::Committed, n),
        first_prepared(journals, 0),
    )
}

/// A recovery after a crash of the only transaction takes that one back: the canon has the base
/// root again, every target is the file that it was, and no approval record is in place.  The next
/// recovery finds nothing to take back.
pub proof fn interrupted_apply_is_taken_back(
    snapshot: ProjectSnapshot,
    work_id: Seq<char>,
    change: ChangeModel,
    record: Seq<u8>,
    interruption: TestInterruption,
    disk: TransactionDisk,
    steps: Seq<(EventModel, TransactionDisk)>,
    back: Seq<(EventModel, TransactionDisk)>,
    root_of: spec_fn(TransactionDisk) -> Seq<char>,
)
    requires
        change_verdict(snapshot, work_id, change) is Ok,
        undisturbed(prepared_journal(change, record), disk),
        reads_canon(root_of),
        root_of(disk) == change.base_root_hash,
        ({
            let journal = prepared_journal(change, record);
            let first = starting(journal, Some(interruption));
            let (run, end) = reached(first, disk, steps);
            let (recovery, _) = reached(recovering(journal, None), end, back);
            &&& faithful(first, disk, steps)
            &&& run.failure is None
            &&& run.phase matches PhaseModel::Finished { state, .. } && state == Some(
                JournalState::Prepared,
            )
            &&& faithful(recovering(journal, None), end, back)
            &&& none_fails(back)
            &&& roots_true(back, root_of)
            &&& recovery.phase is Finished
        }),
    ensures
        ({
            let journal = prepared_journal(change, record);
            let end = reached(starting(journal, Some(interruption)), disk, steps).1;
            let (recovery, last) = reached(recovering(journal, None), end, back);
            let closed = JournalModel { state: JournalState::RolledBack, ..journal };
            &&& recovery_report(seq![journal]) == (1nat, 0nat, Some(0int))
            &&& recovery.phase matches PhaseModel::Finished { outcome, state } && outcome is Ok
                && state == Some(JournalState::RolledBack)
            &&& root_of(last) == change.base_root_hash
            &&& same_canon(last, disk)
            &&& last.approval is None
            &&& recovery_report(seq![closed]) == (0nat, 0nat, None::<int>)
        }),
{
    let journal = prepared_journal(change, record);
    let first = starting(journal, Some(interruption));
    lemma_valid_change_is_shaped(snapshot, work_id, change, record);
    lemma_steps_stay_on_course(first, disk, disk, steps);
    let (run, end) = reached(first, disk, steps);
    assert forall|j: int| 0 <= j < journal.entries.len() implies at_rest(
        journal.entries[j],
        disk.entries[j],
        #[trigger] end.entries[j],
    ) by {}
    lemma_steps_recover(recovering(journal, None), disk, end, back, root_of);
    let last = reached(recovering(journal, None), end, back).1;
    assert(root_of(last) == root_of(disk));
    let closed = JournalModel { state: JournalState::RolledBack, ..journal };
    reveal_with_fuel(count_state, 2);
    reveal_with_fuel(first_prepared, 2);
    assert(seq![journal][0] == journal);
    assert(seq![closed][0] == closed);
}

} // verus!
