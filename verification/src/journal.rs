//! The apply journal: what is recorded before canon files change, and how an interrupted change
//! is taken back.
use vstd::prelude::*;
use vstd::string::StringExecFns;
use crate::changeset::{approval_record_bytes, record_bytes, ApprovalRecord, Changeset, ChangeModel, FileOperation, OperationKind, OperationModel};
use crate::domain::{is_id_of, is_prefixed_uuid, EntityKind};
use crate::hash::{digest_text, sha256_bytes};
use crate::text::{concat2, concat3, contains_text, decimal, is_digest, is_sha256, opt_eq, opt_text, size_text, str_eq};
use crate::unicode::fold_text;
use crate::validation::{alias_key, target_lexical_verdict, validate_target_lexical};

verus! {

/// State of a journal.
#[derive(Clone, Copy, Debug, PartialEq, Eq, Structural)]
pub enum JournalState {
    /// Files may have changed.
    Prepared,
    /// Every file changed.
    Committed,
    /// Every file is as it was.
    RolledBack,
}

/// An operation as a journal records it.
#[derive(Debug)]
pub struct JournalEntry {
    /// What is done to the file.
    pub kind: OperationKind,
    /// Project-relative target.
    pub target_path: String,
    /// Digest of the target before the operation.
    pub before_sha256: Option<String>,
    /// Digest of the target after the operation.
    pub after_sha256: Option<String>,
}

/// A journal entry by the views of its fields.
pub struct EntryModel {
    pub kind: OperationKind,
    pub target_path: Seq<char>,
    pub before: Option<Seq<char>>,
    pub after: Option<Seq<char>>,
}

impl View for JournalEntry {
    type V = EntryModel;

    open spec fn view(&self) -> EntryModel {
        EntryModel {
            kind: self.kind,
            target_path: self.target_path@,
            before: opt_text(self.before_sha256),
            after: opt_text(self.after_sha256),
        }
    }
}

/// The views of journal entries.
pub open spec fn entry_models(items: Seq<JournalEntry>) -> Seq<EntryModel> {
    items.map_values(|item: JournalEntry| item@)
}

/// A journal.
#[derive(Debug)]
pub struct ApplyJournal {
    /// Changeset that is applied.
    pub changeset_id: String,
    /// State.
    pub state: JournalState,
    /// Digest of the canon the operations start from.
    pub base_root_hash: String,
    /// Digest of the canon after the operations and the approval record.
    pub result_root_hash: String,
    /// Digest of the approval record.
    pub approval_record_sha256: String,
    /// Position in the approval order.
    pub chapter_order: u32,
    /// Operations.
    pub entries: Vec<JournalEntry>,
}

/// A journal by the views of its fields.
pub struct JournalModel {
    pub changeset_id: Seq<char>,
    pub state: JournalState,
    pub base_root_hash: Seq<char>,
    pub result_root_hash: Seq<char>,
    pub approval_record_sha256: Seq<char>,
    pub chapter_order: u32,
    pub entries: Seq<EntryModel>,
}

impl View for ApplyJournal {
    type V = JournalModel;

    open spec fn view(&self) -> JournalModel {
        JournalModel {
            changeset_id: self.changeset_id@,
            state: self.state,
            base_root_hash: self.base_root_hash@,
            result_root_hash: self.result_root_hash@,
            approval_record_sha256: self.approval_record_sha256@,
            chapter_order: self.chapter_order,
            entries: entry_models(self.entries@),
        }
    }
}

/// The views of journals.
pub open spec fn journal_models(items: Seq<ApplyJournal>) -> Seq<JournalModel> {
    items.map_values(|item: ApplyJournal| item@)
}

/// A file on disk that was not replaced by another one.
#[derive(Clone, Copy, Debug, PartialEq, Eq, Structural)]
pub struct FileIdentity {
    /// Device.
    pub device: u64,
    /// File on the device.
    pub inode: u64,
}

/// Digest and identity of a file.
#[derive(Debug)]
pub struct FileSnapshot {
    /// Digest of the content.
    pub sha256: String,
    /// Identity.
    pub identity: FileIdentity,
}

/// Digest and identity of a file.
pub type Seen = (Seq<char>, FileIdentity);

impl View for FileSnapshot {
    type V = Seen;

    open spec fn view(&self) -> Seen {
        (self.sha256@, self.identity)
    }
}

/// The view of an optional file.
pub open spec fn opt_seen(item: Option<&FileSnapshot>) -> Option<Seen> {
    match item {
        Some(snapshot) => Some(snapshot@),
        None => None,
    }
}

/// How far an operation has come.
#[derive(Clone, Copy, Debug, PartialEq, Eq, Structural)]
pub enum OperationPhase {
    /// The old file was moved away.
    MovedOld,
    /// The new file is in place.
    Installed,
}

/// A durable record of how far an operation has come.
#[derive(Debug)]
pub struct OperationProgress {
    /// Position of the operation.
    pub operation_index: u32,
    /// What is done to the file.
    pub kind: OperationKind,
    /// How far it has come.
    pub phase: OperationPhase,
    /// Digest of the file.
    pub sha256: String,
    /// Identity of the file.
    pub identity: FileIdentity,
}

/// A record of progress by the views of its fields.
pub struct ProgressModel {
    pub operation_index: u32,
    pub kind: OperationKind,
    pub phase: OperationPhase,
    pub sha256: Seq<char>,
    pub identity: FileIdentity,
}

impl View for OperationProgress {
    type V = ProgressModel;

    open spec fn view(&self) -> ProgressModel {
        ProgressModel {
            operation_index: self.operation_index,
            kind: self.kind,
            phase: self.phase,
            sha256: self.sha256@,
            identity: self.identity,
        }
    }
}

/// The identity in an optional record of progress.
pub open spec fn opt_identity(item: Option<&OperationProgress>) -> Option<FileIdentity> {
    match item {
        Some(progress) => Some(progress.identity),
        None => None,
    }
}

/// Where a test interrupts an apply.
#[derive(Clone, Copy, Debug, PartialEq, Eq, Structural)]
pub enum TestInterruption {
    AfterFirstRename,
    AfterReplacePreserve,
    AfterReplaceInstall,
    AfterDeletePreserve,
    AfterApprovalInstall,
    CommitDurabilityUnknown,
    AfterCommit,
    CleanupPending,
}

/// Where a test interrupts a recovery.
#[derive(Clone, Copy, Debug, PartialEq, Eq, Structural)]
pub enum TestRecoveryInterruption {
    AfterFirstQuarantine,
    CorruptFirstQuarantineBeforeValidation,
}

/// What a recovery did.
#[derive(Clone, Copy, Debug, PartialEq, Eq, Structural)]
pub struct RecoveryOutcome {
    /// Transactions that were taken back.
    pub rolled_back: usize,
    /// Transactions that stay.
    pub kept_committed: usize,
}

impl Default for RecoveryOutcome {
    fn default() -> (r: RecoveryOutcome)
        ensures
            r.rolled_back == 0,
            r.kept_committed == 0,
    {
        RecoveryOutcome { rolled_back: 0, kept_committed: 0 }
    }
}

/// A number with at least four digits.
pub open spec fn four_digits(index: nat) -> Seq<char> {
    if index < 10 {
        "000"@ + decimal(index)
    } else if index < 100 {
        "00"@ + decimal(index)
    } else if index < 1000 {
        "0"@ + decimal(index)
    } else {
        decimal(index)
    }
}

/// The name of the file of an operation in its transaction.
pub fn numbered(prefix: &str, index: usize) -> (r: String)
    ensures
        r@ == prefix@ + four_digits(index as nat),
{
    let number = size_text(index);
    let padding = if index < 10 {
        "000"
    } else if index < 100 {
        "00"
    } else if index < 1000 {
        "0"
    } else {
        ""
    };
    let digits = concat2(padding, number.as_str());
    proof {
        reveal_strlit("");
        assert(""@ + number@ =~= number@);
    }
    concat2(prefix, digits.as_str())
}

/// The name of a phase in file names.
pub open spec fn phase_name(phase: OperationPhase) -> Seq<char> {
    match phase {
        OperationPhase::MovedOld => "moved-old"@,
        OperationPhase::Installed => "installed"@,
    }
}

/// The name of a phase in messages.
pub open spec fn phase_label(phase: OperationPhase) -> Seq<char> {
    match phase {
        OperationPhase::MovedOld => "MovedOld"@,
        OperationPhase::Installed => "Installed"@,
    }
}

fn label_of_phase(phase: OperationPhase) -> (r: &'static str)
    ensures
        r@ == phase_label(phase),
{
    match phase {
        OperationPhase::MovedOld => "MovedOld",
        OperationPhase::Installed => "Installed",
    }
}

/// The name of the record of progress of an operation.
pub open spec fn progress_file(index: nat, phase: OperationPhase) -> Seq<char> {
    "progress-"@ + four_digits(index) + "-"@ + phase_name(phase) + ".json"@
}

/// Returns the name of the record of progress of an operation.
pub fn progress_name(index: usize, phase: OperationPhase) -> (r: String)
    ensures
        r@ == progress_file(index as nat, phase),
{
    let mut out = numbered("progress-", index);
    out.append("-");
    match phase {
        OperationPhase::MovedOld => out.append("moved-old"),
        OperationPhase::Installed => out.append("installed"),
    }
    out.append(".json");
    out
}

/// What is wrong with the content of a file.
pub open spec fn hash_error(
    sha256: Seq<char>,
    expected: Option<Seq<char>>,
    label: Seq<char>,
    display: Seq<char>,
) -> Option<Seq<char>> {
    match expected {
        None => Some(label + ": expected hash is missing"@),
        Some(hash) => if sha256 == hash {
            None
        } else {
            Some(label + ": "@ + display)
        },
    }
}

/// What is wrong with a file: its content, or that it is another file.
pub open spec fn snapshot_error(
    seen: Seen,
    expected: Option<Seq<char>>,
    identity: Option<FileIdentity>,
    label: Seq<char>,
    display: Seq<char>,
) -> Option<Seq<char>> {
    match hash_error(seen.0, expected, label, display) {
        Some(error) => Some(error),
        None => match identity {
            Some(known) => if seen.1 == known {
                None
            } else {
                Some(label + ": file identity changed for "@ + display)
            },
            None => None,
        },
    }
}

/// The message of a check.
pub open spec fn failure_of(r: Result<(), String>) -> Option<Seq<char>> {
    match r {
        Ok(()) => None,
        Err(error) => Some(error@),
    }
}

/// Checks the content of a file.
pub fn ensure_hash(sha256: &str, expected: &Option<String>, label: &str, display: &str) -> (r: Result<
    (),
    String,
>)
    ensures
        failure_of(r) == hash_error(sha256@, opt_text(*expected), label@, display@),
{
    match expected {
        None => Err(concat2(label, ": expected hash is missing")),
        Some(hash) => {
            if str_eq(sha256, hash.as_str()) {
                Ok(())
            } else {
                Err(concat3(label, ": ", display))
            }
        },
    }
}

/// Checks content and identity of a file.
pub fn ensure_snapshot(
    snapshot: &FileSnapshot,
    expected: &Option<String>,
    identity: Option<FileIdentity>,
    label: &str,
    display: &str,
) -> (r: Result<(), String>)
    ensures
        failure_of(r) == snapshot_error(
            snapshot@,
            opt_text(*expected),
            identity,
            label@,
            display@,
        ),
{
    match ensure_hash(snapshot.sha256.as_str(), expected, label, display) {
        Err(error) => {
            return Err(error);
        },
        Ok(()) => {},
    }
    match identity {
        Some(known) => {
            if snapshot.identity == known {
                Ok(())
            } else {
                Err(concat3(label, ": file identity changed for ", display))
            }
        },
        None => Ok(()),
    }
}

/// Whether an operation can come to a phase.
pub open spec fn phase_fits(kind: OperationKind, phase: OperationPhase) -> bool {
    match phase {
        OperationPhase::MovedOld => kind != OperationKind::Create,
        OperationPhase::Installed => kind != OperationKind::Delete,
    }
}

/// The digest that a file has in a phase.
pub open spec fn phase_hash(entry: EntryModel, phase: OperationPhase) -> Option<Seq<char>> {
    match phase {
        OperationPhase::MovedOld => entry.before,
        OperationPhase::Installed => entry.after,
    }
}

/// The record of progress of an operation, or what keeps it from being written.
pub open spec fn progress_of(
    entry: EntryModel,
    index: nat,
    phase: OperationPhase,
    seen: Seen,
) -> Result<ProgressModel, Seq<char>> {
    if !phase_fits(entry.kind, phase) {
        Err("operation kind cannot enter "@ + phase_label(phase) + " phase"@)
    } else {
        match phase_hash(entry, phase) {
            None => Err("operation has no hash for "@ + phase_label(phase) + " progress"@),
            Some(hash) => if seen.0 != hash {
                Err("cannot persist progress for changed file"@)
            } else if index > u32::MAX {
                Err("operation index is too large"@)
            } else {
                Ok(
                    ProgressModel {
                        operation_index: index as u32,
                        kind: entry.kind,
                        phase: phase,
                        sha256: seen.0,
                        identity: seen.1,
                    },
                )
            },
        }
    }
}

/// What is wrong with a stored record of progress.
pub open spec fn progress_error(
    entry: EntryModel,
    index: nat,
    phase: OperationPhase,
    progress: Option<ProgressModel>,
) -> Option<Seq<char>> {
    if !phase_fits(entry.kind, phase) {
        Some("operation kind cannot enter "@ + phase_label(phase) + " phase"@)
    } else {
        match progress {
            None => None,
            Some(stored) => if index > u32::MAX {
                Some("operation index is too large"@)
            } else if stored.operation_index != index || stored.kind != entry.kind || stored.phase
                != phase {
                Some("operation progress does not match its journal entry"@)
            } else {
                match phase_hash(entry, phase) {
                    None => Some(
                        "operation has no hash for "@ + phase_label(phase) + " progress"@,
                    ),
                    Some(hash) => if stored.sha256 == hash {
                        None
                    } else {
                        Some("operation progress does not match its journal entry"@)
                    },
                }
            },
        }
    }
}

impl JournalEntry {
    fn phase_hash(&self, phase: OperationPhase) -> (r: &Option<String>)
        ensures
            opt_text(*r) == phase_hash(self@, phase),
    {
        match phase {
            OperationPhase::MovedOld => &self.before_sha256,
            OperationPhase::Installed => &self.after_sha256,
        }
    }

    fn phase_fits(&self, phase: OperationPhase) -> (r: bool)
        ensures
            r == phase_fits(self@.kind, phase),
    {
        match phase {
            OperationPhase::MovedOld => self.kind != OperationKind::Create,
            OperationPhase::Installed => self.kind != OperationKind::Delete,
        }
    }

    /// Builds the record of progress of the operation.
    pub fn progress(&self, index: usize, phase: OperationPhase, snapshot: &FileSnapshot) -> (r: Result<
        OperationProgress,
        String,
    >)
        ensures
            match progress_of(self@, index as nat, phase, snapshot@) {
                Ok(progress) => r is Ok && r->Ok_0@ == progress,
                Err(error) => r is Err && r->Err_0@ == error,
            },
    {
        if !self.phase_fits(phase) {
            return Err(
                concat3("operation kind cannot enter ", label_of_phase(phase), " phase"),
            );
        }
        match self.phase_hash(phase) {
            None => Err(
                concat3("operation has no hash for ", label_of_phase(phase), " progress"),
            ),
            Some(hash) => {
                if !str_eq(snapshot.sha256.as_str(), hash.as_str()) {
                    return Err("cannot persist progress for changed file".to_owned());
                }
                if index as u64 > u32::MAX as u64 {
                    return Err("operation index is too large".to_owned());
                }
                Ok(
                    OperationProgress {
                        operation_index: index as u32,
                        kind: self.kind,
                        phase,
                        sha256: snapshot.sha256.clone(),
                        identity: snapshot.identity,
                    },
                )
            },
        }
    }

    /// Checks a stored record of progress of the operation.
    pub fn check_progress(
        &self,
        index: usize,
        phase: OperationPhase,
        progress: Option<&OperationProgress>,
    ) -> (r: Result<(), String>)
        ensures
            failure_of(r) == progress_error(
                self@,
                index as nat,
                phase,
                match progress {
                    Some(stored) => Some(stored@),
                    None => None,
                },
            ),
    {
        if !self.phase_fits(phase) {
            return Err(
                concat3("operation kind cannot enter ", label_of_phase(phase), " phase"),
            );
        }
        match progress {
            None => Ok(()),
            Some(stored) => {
                if index as u64 > u32::MAX as u64 {
                    return Err("operation index is too large".to_owned());
                }
                if stored.operation_index as usize != index || stored.kind != self.kind
                    || stored.phase != phase {
                    return Err(
                        "operation progress does not match its journal entry".to_owned(),
                    );
                }
                match self.phase_hash(phase) {
                    None => Err(
                        concat3(
                            "operation has no hash for ",
                            label_of_phase(phase),
                            " progress",
                        ),
                    ),
                    Some(hash) => {
                        if str_eq(stored.sha256.as_str(), hash.as_str()) {
                            Ok(())
                        } else {
                            Err("operation progress does not match its journal entry".to_owned())
                        }
                    },
                }
            },
        }
    }
}

/// The journal entries of operations.
pub open spec fn entries_of(ops: Seq<OperationModel>) -> Seq<EntryModel> {
    ops.map_values(
        |op: OperationModel|
            EntryModel {
                kind: op.kind,
                target_path: op.path,
                before: op.before_sha256,
                after: op.after_sha256,
            },
    )
}

/// The journal of a changeset before its files change.
pub open spec fn prepared_journal(change: ChangeModel, record: Seq<u8>) -> JournalModel {
    JournalModel {
        changeset_id: change.id,
        state: JournalState::Prepared,
        base_root_hash: change.base_root_hash,
        result_root_hash: change.result_root_hash,
        approval_record_sha256: digest_text(record),
        chapter_order: change.chapter_order,
        entries: entries_of(change.operations),
    }
}

fn copy_opt(item: &Option<String>) -> (r: Option<String>)
    ensures
        opt_text(r) == opt_text(*item),
{
    match item {
        Some(text) => Some(text.clone()),
        None => None,
    }
}

fn copy_entries(items: &[JournalEntry]) -> (r: Vec<JournalEntry>)
    ensures
        entry_models(r@) == entry_models(items@),
{
    let mut out: Vec<JournalEntry> = Vec::new();
    let mut i: usize = 0;
    while i < items.len()
        invariant
            i <= items@.len(),
            out@.len() == i,
            forall|k: int| 0 <= k < i ==> #[trigger] out@[k]@ == items@[k]@,
        decreases items@.len() - i,
    {
        let entry = JournalEntry {
            kind: items[i].kind,
            target_path: items[i].target_path.clone(),
            before_sha256: copy_opt(&items[i].before_sha256),
            after_sha256: copy_opt(&items[i].after_sha256),
        };
        out.push(entry);
        i += 1;
    }
    assert(entry_models(out@) =~= entry_models(items@));
    out
}

impl ApplyJournal {
    /// Builds the journal of a changeset before its files change, and the bytes of its approval
    /// record.
    pub fn prepare(change: &Changeset) -> (r: Result<(ApplyJournal, Vec<u8>), String>)
        ensures
            match record_bytes(change@) {
                Ok(record) => r is Ok && r->Ok_0.0@ == prepared_journal(change@, record)
                    && r->Ok_0.1@ == record,
                Err(refusal) => r is Err && r->Err_0@ == crate::candidate::refusal_text(refusal),
            },
    {
        let record = match approval_record_bytes(change) {
            Err(error) => {
                return Err(error.to_text());
            },
            Ok(record) => record,
        };
        let mut entries: Vec<JournalEntry> = Vec::new();
        let mut i: usize = 0;
        while i < change.operations.len()
            invariant
                i <= change.operations@.len(),
                entries@.len() == i,
                forall|k: int|
                    0 <= k < i ==> (#[trigger] entries@[k])@ == (EntryModel {
                        kind: change.operations@[k]@.kind,
                        target_path: change.operations@[k]@.path,
                        before: change.operations@[k]@.before_sha256,
                        after: change.operations@[k]@.after_sha256,
                    }),
            decreases change.operations@.len() - i,
        {
            let op = &change.operations[i];
            entries.push(
                JournalEntry {
                    kind: op.kind,
                    target_path: op.path.clone(),
                    before_sha256: copy_opt(&op.before_sha256),
                    after_sha256: copy_opt(&op.after_sha256),
                },
            );
            i += 1;
        }
        assert(entry_models(entries@) =~= entries_of(change@.operations));
        let journal = ApplyJournal {
            changeset_id: change.id.as_str().to_owned(),
            state: JournalState::Prepared,
            base_root_hash: change.base_root_hash.clone(),
            result_root_hash: change.result_root_hash.clone(),
            approval_record_sha256: sha256_bytes(record.as_slice()),
            chapter_order: change.chapter_order,
            entries,
        };
        Ok((journal, record))
    }

    /// Returns the journal in another state.
    pub fn with_state(&self, state: JournalState) -> (r: ApplyJournal)
        ensures
            r@ == (JournalModel { state: state, ..self@ }),
    {
        ApplyJournal {
            changeset_id: self.changeset_id.clone(),
            state,
            base_root_hash: self.base_root_hash.clone(),
            result_root_hash: self.result_root_hash.clone(),
            approval_record_sha256: self.approval_record_sha256.clone(),
            chapter_order: self.chapter_order,
            entries: copy_entries(self.entries.as_slice()),
        }
    }

    fn same_facts(&self, other: &ApplyJournal) -> (r: bool)
        ensures
            r == (JournalModel { state: other@.state, ..self@ } == other@),
    {
        if !str_eq(self.changeset_id.as_str(), other.changeset_id.as_str()) || !str_eq(
            self.base_root_hash.as_str(),
            other.base_root_hash.as_str(),
        ) || !str_eq(self.result_root_hash.as_str(), other.result_root_hash.as_str()) || !str_eq(
            self.approval_record_sha256.as_str(),
            other.approval_record_sha256.as_str(),
        ) || self.chapter_order != other.chapter_order || self.entries.len()
            != other.entries.len() {
            proof {
                if self.entries@.len() != other.entries@.len() {
                    assert(self@.entries.len() != other@.entries.len());
                }
            }
            return false;
        }
        let ghost a = self@.entries;
        let ghost b = other@.entries;
        let mut i: usize = 0;
        while i < self.entries.len()
            invariant
                i <= self.entries@.len(),
                self.entries@.len() == other.entries@.len(),
                a == entry_models(self.entries@),
                b == entry_models(other.entries@),
                forall|k: int| 0 <= k < i ==> #[trigger] a[k] == b[k],
            decreases self.entries@.len() - i,
        {
            let x = &self.entries[i];
            let y = &other.entries[i];
            assert(a[i as int] == x@ && b[i as int] == y@);
            if x.kind != y.kind || !str_eq(x.target_path.as_str(), y.target_path.as_str())
                || !opt_eq(&x.before_sha256, &y.before_sha256) || !opt_eq(
                &x.after_sha256,
                &y.after_sha256,
            ) {
                return false;
            }
            i += 1;
        }
        assert(a =~= b);
        true
    }
}

/// Whether an entry has the digests that its kind asks for.
pub open spec fn entry_shape(entry: EntryModel) -> bool {
    match entry.kind {
        OperationKind::Create => entry.before is None && entry.after is Some,
        OperationKind::Replace => entry.before is Some && entry.after is Some && entry.before
            != entry.after,
        OperationKind::Delete => entry.before is Some && entry.after is None,
    }
}

/// Whether an optional text is absent or a digest.
pub open spec fn digest_or_absent(text: Option<Seq<char>>) -> bool {
    match text {
        Some(value) => is_digest(value),
        None => true,
    }
}

/// What is wrong with the entries of a journal from a position on.
pub open spec fn entries_error(entries: Seq<EntryModel>, i: int) -> Option<Seq<char>>
    decreases entries.len() - i,
{
    if i < 0 || i >= entries.len() {
        None
    } else if target_lexical_verdict(entries[i].target_path) is Err {
        Some("journal contains an unsafe target"@)
    } else if exists|j: int|
        0 <= j < i && alias_key((#[trigger] entries[j]).target_path) == alias_key(
            entries[i].target_path,
        ) {
        Some("journal has duplicate target aliases"@)
    } else if !entry_shape(entries[i]) {
        Some("journal contains an invalid operation shape"@)
    } else if !digest_or_absent(entries[i].before) || !digest_or_absent(entries[i].after) {
        Some("journal contains an invalid file hash"@)
    } else {
        entries_error(entries, i + 1)
    }
}

/// What is wrong with a journal.
pub open spec fn journal_error(journal: JournalModel) -> Option<Seq<char>> {
    if journal.entries.len() == 0 {
        Some("journal has no operations"@)
    } else if journal.chapter_order == 0 {
        Some("journal has no chapter order"@)
    } else if !is_digest(journal.base_root_hash) || !is_digest(journal.result_root_hash)
        || !is_digest(journal.approval_record_sha256) {
        Some("journal contains an invalid root or approval hash"@)
    } else {
        entries_error(journal.entries, 0)
    }
}

fn is_digest_or_absent(text: &Option<String>) -> (r: bool)
    ensures
        r == digest_or_absent(opt_text(*text)),
{
    match text {
        Some(value) => is_sha256(value.as_str()),
        None => true,
    }
}

fn has_shape(entry: &JournalEntry) -> (r: bool)
    ensures
        r == entry_shape(entry@),
{
    match entry.kind {
        OperationKind::Create => entry.before_sha256.is_none() && entry.after_sha256.is_some(),
        OperationKind::Replace => entry.before_sha256.is_some() && entry.after_sha256.is_some()
            && !opt_eq(&entry.before_sha256, &entry.after_sha256),
        OperationKind::Delete => entry.before_sha256.is_some() && entry.after_sha256.is_none(),
    }
}

fn validate_entries(entries: &[JournalEntry]) -> (r: Result<(), String>)
    ensures
        failure_of(r) == entries_error(entry_models(entries@), 0),
{
    let ghost all = entry_models(entries@);
    let mut keys: Vec<String> = Vec::new();
    let mut i: usize = 0;
    while i < entries.len()
        invariant
            i <= entries@.len(),
            all == entry_models(entries@),
            keys@.len() == i,
            forall|k: int| 0 <= k < i ==> #[trigger] keys@[k]@ == alias_key(all[k].target_path),
            entries_error(all, 0) == entries_error(all, i as int),
        decreases entries@.len() - i,
    {
        let entry = &entries[i];
        assert(all[i as int] == entry@);
        if validate_target_lexical(entry.target_path.as_str()).is_err() {
            return Err("journal contains an unsafe target".to_owned());
        }
        let key = fold_text(entry.target_path.as_str());
        let repeated = contains_text(keys.as_slice(), key.as_str());
        proof {
            if repeated {
                let j = choose|j: int| 0 <= j < keys@.len() && #[trigger] keys@[j]@ == key@;
                assert(alias_key(all[j].target_path) == alias_key(entry@.target_path));
            } else {
                assert forall|j: int| 0 <= j < i implies alias_key((#[trigger] all[j]).target_path)
                    != alias_key(entry@.target_path) by {
                    assert(keys@[j]@ != key@);
                }
            }
        }
        if repeated {
            return Err("journal has duplicate target aliases".to_owned());
        }
        if !has_shape(entry) {
            return Err("journal contains an invalid operation shape".to_owned());
        }
        if !is_digest_or_absent(&entry.before_sha256) || !is_digest_or_absent(
            &entry.after_sha256,
        ) {
            return Err("journal contains an invalid file hash".to_owned());
        }
        keys.push(key);
        i += 1;
    }
    Ok(())
}

/// Checks a journal.
pub fn validate_journal(journal: &ApplyJournal) -> (r: Result<(), String>)
    ensures
        failure_of(r) == journal_error(journal@),
{
    if journal.entries.len() == 0 {
        return Err("journal has no operations".to_owned());
    }
    if journal.chapter_order == 0 {
        return Err("journal has no chapter order".to_owned());
    }
    if !is_sha256(journal.base_root_hash.as_str()) || !is_sha256(journal.result_root_hash.as_str())
        || !is_sha256(journal.approval_record_sha256.as_str()) {
        return Err("journal contains an invalid root or approval hash".to_owned());
    }
    validate_entries(journal.entries.as_slice())
}

/// The view of an optional journal.
pub open spec fn opt_journal(item: Option<ApplyJournal>) -> Option<JournalModel> {
    match item {
        Some(journal) => Some(journal@),
        None => None,
    }
}

/// The journal that a transaction directory holds: the last state that was reached, where all
/// files agree.
pub open spec fn loaded_journal(
    name: Seq<char>,
    prepared: Option<JournalModel>,
    committed: Option<JournalModel>,
    rolled_back: Option<JournalModel>,
) -> Result<JournalModel, Seq<char>> {
    match prepared {
        None => Err("journal.prepared.json is missing"@),
        Some(start) => {
            let journal = match (committed, rolled_back) {
                (Some(end), _) => end,
                (None, Some(end)) => end,
                (None, None) => start,
            };
            if start.state != JournalState::Prepared {
                Err("prepared journal has the wrong state"@)
            } else if committed is Some && committed->Some_0.state != JournalState::Committed {
                Err("committed journal has the wrong state"@)
            } else if rolled_back is Some && rolled_back->Some_0.state != JournalState::RolledBack {
                Err("rolled-back journal has the wrong state"@)
            } else if committed is Some && rolled_back is Some {
                Err("transaction has conflicting terminal journals"@)
            } else if (JournalModel { state: journal.state, ..start }) != journal {
                Err("terminal journal does not match prepared evidence"@)
            } else if journal.changeset_id != name {
                Err("journal identity does not match its transaction directory"@)
            } else {
                match journal_error(journal) {
                    Some(error) => Err(error),
                    None => Ok(journal),
                }
            }
        },
    }
}

/// Accepts the journal files of a transaction directory.
pub fn load_transaction(
    name: &str,
    prepared: Option<ApplyJournal>,
    committed: Option<ApplyJournal>,
    rolled_back: Option<ApplyJournal>,
) -> (r: Result<ApplyJournal, String>)
    ensures
        if !is_id_of(name@, EntityKind::Changeset) {
            r is Err && r->Err_0@ == "invalid journal transaction name: "@ + name@
        } else {
            match loaded_journal(
                name@,
                opt_journal(prepared),
                opt_journal(committed),
                opt_journal(rolled_back),
            ) {
                Ok(journal) => r is Ok && r->Ok_0@ == journal,
                Err(error) => r is Err && r->Err_0@ == error,
            }
        },
{
    if !is_prefixed_uuid(name, EntityKind::Changeset) {
        return Err(concat2("invalid journal transaction name: ", name));
    }
    let start = match prepared {
        None => {
            return Err("journal.prepared.json is missing".to_owned());
        },
        Some(journal) => journal,
    };
    if start.state != JournalState::Prepared {
        return Err("prepared journal has the wrong state".to_owned());
    }
    if let Some(journal) = &committed {
        if journal.state != JournalState::Committed {
            return Err("committed journal has the wrong state".to_owned());
        }
    }
    if let Some(journal) = &rolled_back {
        if journal.state != JournalState::RolledBack {
            return Err("rolled-back journal has the wrong state".to_owned());
        }
    }
    if committed.is_some() && rolled_back.is_some() {
        return Err("transaction has conflicting terminal journals".to_owned());
    }
    let journal = match (committed, rolled_back) {
        (Some(end), _) => end,
        (None, Some(end)) => end,
        (None, None) => start.with_state(JournalState::Prepared),
    };
    if !start.same_facts(&journal) {
        return Err("terminal journal does not match prepared evidence".to_owned());
    }
    if !str_eq(journal.changeset_id.as_str(), name) {
        return Err("journal identity does not match its transaction directory".to_owned());
    }
    match validate_journal(&journal) {
        Err(error) => Err(error),
        Ok(()) => Ok(journal),
    }
}

/// Whether a name is that of a file of the operation at a position.
pub open spec fn is_entry_file(entry: EntryModel, index: nat, name: Seq<char>) -> bool {
    ||| entry.before is Some && (name == "before-"@ + four_digits(index) || name == "old-live-"@
        + four_digits(index) || name == progress_file(index, OperationPhase::MovedOld))
    ||| entry.after is Some && (name == "after-"@ + four_digits(index) || name == "quarantine-"@
        + four_digits(index) || name == progress_file(index, OperationPhase::Installed))
}

/// Whether a transaction directory may hold a name.
pub open spec fn is_transaction_file(entries: Seq<EntryModel>, name: Seq<char>) -> bool {
    ||| name == "journal.prepared.json"@
    ||| name == "journal.committed.json"@
    ||| name == "journal.rolled-back.json"@
    ||| name == "approval-record.json"@
    ||| name == "approval-quarantine"@
    ||| exists|i: int|
        0 <= i < entries.len() && is_entry_file(#[trigger] entries[i], i as nat, name)
}

/// What is wrong with an entry of a transaction directory.
pub open spec fn transaction_file_error(
    entries: Seq<EntryModel>,
    name: Seq<char>,
    regular: bool,
) -> Option<Seq<char>> {
    if !is_transaction_file(entries, name) {
        Some("unknown transaction entry: "@ + name)
    } else if !regular {
        Some("transaction entry is not a regular file: "@ + name)
    } else {
        None
    }
}

fn names_entry_file(entry: &JournalEntry, index: usize, name: &str) -> (r: bool)
    ensures
        r == is_entry_file(entry@, index as nat, name@),
{
    (entry.before_sha256.is_some() && (str_eq(name, numbered("before-", index).as_str()) || str_eq(
        name,
        numbered("old-live-", index).as_str(),
    ) || str_eq(name, progress_name(index, OperationPhase::MovedOld).as_str()))) || (
    entry.after_sha256.is_some() && (str_eq(name, numbered("after-", index).as_str()) || str_eq(
        name,
        numbered("quarantine-", index).as_str(),
    ) || str_eq(name, progress_name(index, OperationPhase::Installed).as_str())))
}

/// Checks an entry of a transaction directory.
pub fn validate_transaction_entry(journal: &ApplyJournal, name: &str, regular: bool) -> (r: Result<
    (),
    String,
>)
    ensures
        failure_of(r) == transaction_file_error(journal@.entries, name@, regular),
{
    let ghost all = journal@.entries;
    let mut known = str_eq(name, "journal.prepared.json") || str_eq(name, "journal.committed.json")
        || str_eq(name, "journal.rolled-back.json") || str_eq(name, "approval-record.json")
        || str_eq(name, "approval-quarantine");
    let mut i: usize = 0;
    while i < journal.entries.len()
        invariant
            i <= journal.entries@.len(),
            all == entry_models(journal.entries@),
            known == (name@ == "journal.prepared.json"@ || name@ == "journal.committed.json"@
                || name@ == "journal.rolled-back.json"@ || name@ == "approval-record.json"@
                || name@ == "approval-quarantine"@ || exists|k: int|
                0 <= k < i && is_entry_file(#[trigger] all[k], k as nat, name@)),
        decreases journal.entries@.len() - i,
    {
        assert(all[i as int] == journal.entries@[i as int]@);
        if names_entry_file(&journal.entries[i], i, name) {
            known = true;
        }
        i += 1;
    }
    if !known {
        return Err(concat2("unknown transaction entry: ", name));
    }
    if !regular {
        return Err(concat2("transaction entry is not a regular file: ", name));
    }
    Ok(())
}

/// Whether a target must be moved away before an operation, or what keeps it from being applied.
pub open spec fn preserve_plan(entry: EntryModel, display: Seq<char>, current: Option<Seen>) -> Result<
    bool,
    Seq<char>,
> {
    match (entry.kind, current) {
        (OperationKind::Create, None) => Ok(false),
        (OperationKind::Create, Some(_)) => Err("create target appeared: "@ + display),
        (_, None) => Err("failed to read "@ + display),
        (_, Some(seen)) => match hash_error(seen.0, entry.before, "canon changed"@, display) {
            Some(error) => Err(error),
            None => Ok(true),
        },
    }
}

/// The record of progress of a file that was moved away, where it is the file that was there.
pub open spec fn preserved_progress(
    entry: EntryModel,
    index: nat,
    before: Seen,
    moved: Seen,
) -> Result<ProgressModel, Seq<char>> {
    match snapshot_error(
        moved,
        entry.before,
        Some(before.1),
        "preserved canon raced"@,
        "old-live-"@ + four_digits(index),
    ) {
        Some(error) => Err(error),
        None => progress_of(entry, index, OperationPhase::MovedOld, moved),
    }
}

/// The record of progress of a file that was put in place, where it is the file that was staged.
pub open spec fn installed_progress(
    entry: EntryModel,
    index: nat,
    display: Seq<char>,
    staged: Seen,
    installed: Seen,
) -> Result<ProgressModel, Seq<char>> {
    match snapshot_error(
        installed,
        entry.after,
        Some(staged.1),
        "installed file changed"@,
        display,
    ) {
        Some(error) => Err(error),
        None => progress_of(entry, index, OperationPhase::Installed, installed),
    }
}

impl JournalEntry {
    /// Decides whether the target must be moved away before the operation.
    pub fn plan_preserve(&self, display: &str, current: Option<&FileSnapshot>) -> (r: Result<
        bool,
        String,
    >)
        ensures
            match preserve_plan(self@, display@, opt_seen(current)) {
                Ok(moves) => r == Ok::<bool, String>(moves),
                Err(error) => r is Err && r->Err_0@ == error,
            },
    {
        match (self.kind, current) {
            (OperationKind::Create, None) => Ok(false),
            (OperationKind::Create, Some(_)) => Err(
                concat2("create target appeared: ", display),
            ),
            (_, None) => Err(concat2("failed to read ", display)),
            (_, Some(snapshot)) => match ensure_hash(
                snapshot.sha256.as_str(),
                &self.before_sha256,
                "canon changed",
                display,
            ) {
                Err(error) => Err(error),
                Ok(()) => Ok(true),
            },
        }
    }

    /// Checks a file that was moved away and returns its record of progress.
    pub fn check_preserved(&self, index: usize, before: &FileSnapshot, moved: &FileSnapshot) -> (r:
        Result<OperationProgress, String>)
        ensures
            match preserved_progress(self@, index as nat, before@, moved@) {
                Ok(progress) => r is Ok && r->Ok_0@ == progress,
                Err(error) => r is Err && r->Err_0@ == error,
            },
    {
        match ensure_snapshot(
            moved,
            &self.before_sha256,
            Some(before.identity),
            "preserved canon raced",
            numbered("old-live-", index).as_str(),
        ) {
            Err(error) => Err(error),
            Ok(()) => self.progress(index, OperationPhase::MovedOld, moved),
        }
    }

    /// Checks a staged file before it is put in place.
    pub fn check_staged(&self, index: usize, staged: &FileSnapshot) -> (r: Result<(), String>)
        ensures
            failure_of(r) == hash_error(
                staged@.0,
                self@.after,
                "staged file changed"@,
                "after-"@ + four_digits(index as nat),
            ),
    {
        ensure_hash(
            staged.sha256.as_str(),
            &self.after_sha256,
            "staged file changed",
            numbered("after-", index).as_str(),
        )
    }

    /// Checks a file that was put in place and returns its record of progress.
    pub fn check_installed(
        &self,
        index: usize,
        display: &str,
        staged: &FileSnapshot,
        installed: &FileSnapshot,
    ) -> (r: Result<OperationProgress, String>)
        ensures
            match installed_progress(self@, index as nat, display@, staged@, installed@) {
                Ok(progress) => r is Ok && r->Ok_0@ == progress,
                Err(error) => r is Err && r->Err_0@ == error,
            },
    {
        match ensure_snapshot(
            installed,
            &self.after_sha256,
            Some(staged.identity),
            "installed file changed",
            display,
        ) {
            Err(error) => Err(error),
            Ok(()) => self.progress(index, OperationPhase::Installed, installed),
        }
    }
}

/// Whether a file that was put in place must be moved to quarantine, or what keeps it from being
/// moved: only the very file that was put in place is moved.
pub open spec fn quarantine_plan(
    expected: Seq<char>,
    identity: Option<FileIdentity>,
    name: Seq<char>,
    display: Seq<char>,
    quarantine: Option<Seen>,
    live: Option<Seen>,
) -> Result<bool, Seq<char>> {
    match (quarantine, live) {
        (Some(seen), _) => match snapshot_error(
            seen,
            Some(expected),
            identity,
            "quarantined file changed"@,
            name,
        ) {
            Some(error) => Err(error),
            None => if live is Some {
                Err("live file reappeared beside quarantine: "@ + display)
            } else {
                Ok(false)
            },
        },
        (None, None) => if identity is Some {
            Err("Phemius-owned installed file is missing: "@ + display)
        } else {
            Ok(false)
        },
        (None, Some(seen)) => match snapshot_error(
            seen,
            Some(expected),
            identity,
            "refusing to quarantine externally changed file"@,
            display,
        ) {
            Some(error) => Err(error),
            None => Ok(true),
        },
    }
}

/// What is wrong after a file was moved to quarantine.
pub open spec fn quarantined_error(
    expected: Seq<char>,
    identity: Option<FileIdentity>,
    name: Seq<char>,
    display: Seq<char>,
    quarantine: Seen,
    live: Option<Seen>,
) -> Option<Seq<char>> {
    match snapshot_error(quarantine, Some(expected), identity, "quarantined file raced"@, name) {
        Some(error) => Some(error),
        None => if live is Some {
            Some("live file reappeared after quarantine: "@ + display)
        } else {
            None
        },
    }
}

/// Decides whether a file that was put in place must be moved to quarantine.
pub fn plan_quarantine(
    expected: &str,
    identity: Option<FileIdentity>,
    name: &str,
    display: &str,
    quarantine: Option<&FileSnapshot>,
    live: Option<&FileSnapshot>,
) -> (r: Result<bool, String>)
    ensures
        match quarantine_plan(
            expected@,
            identity,
            name@,
            display@,
            opt_seen(quarantine),
            opt_seen(live),
        ) {
            Ok(moves) => r == Ok::<bool, String>(moves),
            Err(error) => r is Err && r->Err_0@ == error,
        },
{
    let wanted = Some(expected.to_owned());
    match (quarantine, live) {
        (Some(snapshot), _) => {
            match ensure_snapshot(snapshot, &wanted, identity, "quarantined file changed", name) {
                Err(error) => {
                    return Err(error);
                },
                Ok(()) => {},
            }
            if live.is_some() {
                return Err(concat2("live file reappeared beside quarantine: ", display));
            }
            Ok(false)
        },
        (None, None) => {
            if identity.is_some() {
                return Err(concat2("Phemius-owned installed file is missing: ", display));
            }
            Ok(false)
        },
        (None, Some(snapshot)) => match ensure_snapshot(
            snapshot,
            &wanted,
            identity,
            "refusing to quarantine externally changed file",
            display,
        ) {
            Err(error) => Err(error),
            Ok(()) => Ok(true),
        },
    }
}

/// Checks a file that was moved to quarantine.
pub fn check_quarantined(
    expected: &str,
    identity: Option<FileIdentity>,
    name: &str,
    display: &str,
    quarantine: &FileSnapshot,
    live: Option<&FileSnapshot>,
) -> (r: Result<(), String>)
    ensures
        failure_of(r) == quarantined_error(
            expected@,
            identity,
            name@,
            display@,
            quarantine@,
            opt_seen(live),
        ),
{
    let wanted = Some(expected.to_owned());
    match ensure_snapshot(quarantine, &wanted, identity, "quarantined file raced", name) {
        Err(error) => {
            return Err(error);
        },
        Ok(()) => {},
    }
    if live.is_some() {
        return Err(concat2("live file reappeared after quarantine: ", display));
    }
    Ok(())
}

/// What is found on disk about an operation.
pub struct EntryView<'a> {
    /// Target.
    pub target: Option<&'a FileSnapshot>,
    /// Old file that was moved away.
    pub old: Option<&'a FileSnapshot>,
    /// New file that was moved to quarantine.
    pub quarantine: Option<&'a FileSnapshot>,
    /// Record that the old file was moved away.
    pub moved: Option<&'a OperationProgress>,
    /// Record that the new file is in place.
    pub installed: Option<&'a OperationProgress>,
}

/// The files of an operation on disk, and the identities that are recorded durably.
pub struct EntryDisk {
    pub target: Option<Seen>,
    pub old: Option<Seen>,
    pub staged: Option<Seen>,
    pub quarantine: Option<Seen>,
    pub moved: Option<FileIdentity>,
    pub installed: Option<FileIdentity>,
}

/// What is found on disk, as far as it is looked at.
pub open spec fn disk_of(view: EntryView<'_>) -> EntryDisk {
    EntryDisk {
        target: opt_seen(view.target),
        old: opt_seen(view.old),
        staged: None,
        quarantine: opt_seen(view.quarantine),
        moved: opt_identity(view.moved),
        installed: opt_identity(view.installed),
    }
}

/// What takes an operation back: whether the new file is moved to quarantine, and whether the old
/// one is put back.
#[derive(Clone, Copy, Debug, PartialEq, Eq, Structural)]
pub struct RollbackPlan {
    /// The new file is moved to quarantine.
    pub quarantine: bool,
    /// The old file is put back.
    pub restore: bool,
}

/// What takes back an operation that had no file before.
pub open spec fn create_rollback(
    entry: EntryModel,
    index: nat,
    display: Seq<char>,
    disk: EntryDisk,
) -> Result<RollbackPlan, Seq<char>> {
    if disk.installed is None {
        if disk.target is Some {
            Err("refusing to quarantine an unowned create target "@ + display)
        } else {
            Ok(RollbackPlan { quarantine: false, restore: false })
        }
    } else {
        match entry.after {
            None => Err("create operation has no after hash"@),
            Some(after) => match quarantine_plan(
                after,
                disk.installed,
                "quarantine-"@ + four_digits(index),
                display,
                disk.quarantine,
                disk.target,
            ) {
                Err(error) => Err(error),
                Ok(moves) => Ok(RollbackPlan { quarantine: moves, restore: false }),
            },
        }
    }
}

/// What moves the new file out of the way of the old one.
pub open spec fn replace_rollback(
    entry: EntryModel,
    index: nat,
    display: Seq<char>,
    disk: EntryDisk,
) -> Result<RollbackPlan, Seq<char>> {
    match entry.kind {
        OperationKind::Replace => if disk.installed is Some {
            match entry.after {
                None => Err("replace operation has no after hash"@),
                Some(after) => match quarantine_plan(
                    after,
                    disk.installed,
                    "quarantine-"@ + four_digits(index),
                    display,
                    disk.quarantine,
                    disk.target,
                ) {
                    Err(error) => Err(error),
                    Ok(moves) => Ok(RollbackPlan { quarantine: moves, restore: true }),
                },
            }
        } else if disk.target is Some {
            Err("refusing to overwrite unowned target "@ + display)
        } else if disk.quarantine is Some {
            Err("quarantine has no durable installed progress"@)
        } else {
            Ok(RollbackPlan { quarantine: false, restore: true })
        },
        OperationKind::Delete => if disk.target is Some {
            Err("refusing to overwrite externally created delete target "@ + display)
        } else {
            Ok(RollbackPlan { quarantine: false, restore: true })
        },
        OperationKind::Create => Err("create operation cannot restore a before image"@),
    }
}

/// What takes an operation back, or what keeps it from being taken back: nothing is moved that is
/// not recorded durably as the very file it is.
pub open spec fn rollback_plan(
    entry: EntryModel,
    index: nat,
    display: Seq<char>,
    disk: EntryDisk,
) -> Result<RollbackPlan, Seq<char>> {
    match entry.before {
        None => create_rollback(entry, index, display, disk),
        Some(before) => if disk.target is Some && disk.target->Some_0.0 == before {
            Ok(RollbackPlan { quarantine: false, restore: false })
        } else {
            match (disk.moved, disk.old) {
                (None, _) => Err(
                    "refusing to restore "@ + display + " without durable moved-old progress"@,
                ),
                (Some(_), None) => Err("Phemius-owned old file is missing for "@ + display),
                (Some(identity), Some(old)) => match snapshot_error(
                    old,
                    Some(before),
                    Some(identity),
                    "owned restore evidence changed"@,
                    "old-live-"@ + four_digits(index),
                ) {
                    Some(error) => Err(error),
                    None => replace_rollback(entry, index, display, disk),
                },
            }
        },
    }
}

fn identity_of(progress: Option<&OperationProgress>) -> (r: Option<FileIdentity>)
    ensures
        r == opt_identity(progress),
{
    match progress {
        Some(stored) => Some(stored.identity),
        None => None,
    }
}

/// The view of a plan.
pub open spec fn plan_view(r: Result<RollbackPlan, String>) -> Result<RollbackPlan, Seq<char>> {
    match r {
        Ok(plan) => Ok(plan),
        Err(error) => Err(error@),
    }
}

impl JournalEntry {
    fn plan_create_rollback(&self, index: usize, display: &str, view: &EntryView<'_>) -> (r: Result<
        RollbackPlan,
        String,
    >)
        ensures
            plan_view(r) == create_rollback(self@, index as nat, display@, disk_of(*view)),
    {
        if view.installed.is_none() {
            if view.target.is_some() {
                return Err(
                    concat2("refusing to quarantine an unowned create target ", display),
                );
            }
            return Ok(RollbackPlan { quarantine: false, restore: false });
        }
        match &self.after_sha256 {
            None => Err("create operation has no after hash".to_owned()),
            Some(after) => match plan_quarantine(
                after.as_str(),
                identity_of(view.installed),
                numbered("quarantine-", index).as_str(),
                display,
                view.quarantine,
                view.target,
            ) {
                Err(error) => Err(error),
                Ok(moves) => Ok(RollbackPlan { quarantine: moves, restore: false }),
            },
        }
    }

    fn plan_replace_rollback(&self, index: usize, display: &str, view: &EntryView<'_>) -> (r: Result<
        RollbackPlan,
        String,
    >)
        ensures
            plan_view(r) == replace_rollback(self@, index as nat, display@, disk_of(*view)),
    {
        match self.kind {
            OperationKind::Replace => {
                if view.installed.is_some() {
                    return match &self.after_sha256 {
                        None => Err("replace operation has no after hash".to_owned()),
                        Some(after) => match plan_quarantine(
                            after.as_str(),
                            identity_of(view.installed),
                            numbered("quarantine-", index).as_str(),
                            display,
                            view.quarantine,
                            view.target,
                        ) {
                            Err(error) => Err(error),
                            Ok(moves) => Ok(RollbackPlan { quarantine: moves, restore: true }),
                        },
                    };
                }
                if view.target.is_some() {
                    return Err(concat2("refusing to overwrite unowned target ", display));
                }
                if view.quarantine.is_some() {
                    return Err("quarantine has no durable installed progress".to_owned());
                }
                Ok(RollbackPlan { quarantine: false, restore: true })
            },
            OperationKind::Delete => {
                if view.target.is_some() {
                    return Err(
                        concat2(
                            "refusing to overwrite externally created delete target ",
                            display,
                        ),
                    );
                }
                Ok(RollbackPlan { quarantine: false, restore: true })
            },
            OperationKind::Create => Err(
                "create operation cannot restore a before image".to_owned(),
            ),
        }
    }

    /// Decides what takes the operation back.
    pub fn plan_rollback(&self, index: usize, display: &str, view: &EntryView<'_>) -> (r: Result<
        RollbackPlan,
        String,
    >)
        ensures
            plan_view(r) == rollback_plan(self@, index as nat, display@, disk_of(*view)),
    {
        let before = match &self.before_sha256 {
            None => {
                return self.plan_create_rollback(index, display, view);
            },
            Some(before) => before,
        };
        if let Some(snapshot) = view.target {
            if str_eq(snapshot.sha256.as_str(), before.as_str()) {
                return Ok(RollbackPlan { quarantine: false, restore: false });
            }
        }
        let moved = match view.moved {
            None => {
                return Err(
                    concat3(
                        "refusing to restore ",
                        display,
                        " without durable moved-old progress",
                    ),
                );
            },
            Some(moved) => moved,
        };
        let old = match view.old {
            None => {
                return Err(concat2("Phemius-owned old file is missing for ", display));
            },
            Some(old) => old,
        };
        match ensure_snapshot(
            old,
            &self.before_sha256,
            Some(moved.identity),
            "owned restore evidence changed",
            numbered("old-live-", index).as_str(),
        ) {
            Err(error) => {
                return Err(error);
            },
            Ok(()) => {},
        }
        self.plan_replace_rollback(index, display, view)
    }

    /// Checks a file that was put back.
    pub fn check_restored(&self, identity: FileIdentity, display: &str, restored: &FileSnapshot) -> (r:
        Result<(), String>)
        ensures
            failure_of(r) == snapshot_error(
                restored@,
                self@.before,
                Some(identity),
                "restored target changed"@,
                display@,
            ),
    {
        ensure_snapshot(
            restored,
            &self.before_sha256,
            Some(identity),
            "restored target changed",
            display,
        )
    }
}

/// What is wrong with the stored evidence of an operation, given the digest of the image of its
/// old file.
pub open spec fn evidence_error(
    entry: EntryModel,
    index: nat,
    image: Seq<char>,
    disk: EntryDisk,
) -> Option<Seq<char>> {
    let before_error = match entry.before {
        None => None,
        Some(before) => match hash_error(
            image,
            Some(before),
            "before image changed"@,
            "before-"@ + four_digits(index),
        ) {
            Some(error) => Some(error),
            None => match (disk.old, disk.moved) {
                (None, _) => None,
                (Some(_), None) => Some("preserved canon has no durable moved-old progress"@),
                (Some(old), Some(identity)) => snapshot_error(
                    old,
                    Some(before),
                    Some(identity),
                    "preserved canon changed"@,
                    "old-live-"@ + four_digits(index),
                ),
            },
        },
    };
    match before_error {
        Some(error) => Some(error),
        None => match (disk.quarantine, disk.installed) {
            (None, _) => None,
            (Some(_), None) => Some("quarantined target has no durable installed progress"@),
            (Some(seen), Some(identity)) => snapshot_error(
                seen,
                entry.after,
                Some(identity),
                "quarantined target changed"@,
                "quarantine-"@ + four_digits(index),
            ),
        },
    }
}

impl JournalEntry {
    /// Checks the stored evidence of the operation, given the digest of the image of its old file.
    pub fn validate_evidence(&self, index: usize, image: &str, view: &EntryView<'_>) -> (r: Result<
        (),
        String,
    >)
        ensures
            failure_of(r) == evidence_error(self@, index as nat, image@, disk_of(*view)),
    {
        if self.before_sha256.is_some() {
            match ensure_hash(
                image,
                &self.before_sha256,
                "before image changed",
                numbered("before-", index).as_str(),
            ) {
                Err(error) => {
                    return Err(error);
                },
                Ok(()) => {},
            }
            if let Some(old) = view.old {
                match view.moved {
                    None => {
                        return Err(
                            "preserved canon has no durable moved-old progress".to_owned(),
                        );
                    },
                    Some(moved) => match ensure_snapshot(
                        old,
                        &self.before_sha256,
                        Some(moved.identity),
                        "preserved canon changed",
                        numbered("old-live-", index).as_str(),
                    ) {
                        Err(error) => {
                            return Err(error);
                        },
                        Ok(()) => {},
                    },
                }
            }
        }
        if let Some(snapshot) = view.quarantine {
            match view.installed {
                None => {
                    return Err(
                        "quarantined target has no durable installed progress".to_owned(),
                    );
                },
                Some(installed) => {
                    return ensure_snapshot(
                        snapshot,
                        &self.after_sha256,
                        Some(installed.identity),
                        "quarantined target changed",
                        numbered("quarantine-", index).as_str(),
                    );
                },
            }
        }
        Ok(())
    }
}

/// The journals in a state among the first ones.
pub open spec fn count_state(list: Seq<JournalModel>, state: JournalState, n: int) -> nat
    decreases n,
{
    if n <= 0 {
        0
    } else {
        count_state(list, state, n - 1) + (if list[n - 1].state == state {
            1nat
        } else {
            0nat
        })
    }
}

/// Position of the first prepared journal, from a position on.
pub open spec fn first_prepared(list: Seq<JournalModel>, i: int) -> Option<int>
    decreases list.len() - i,
{
    if i < 0 || i >= list.len() {
        None
    } else if list[i].state == JournalState::Prepared {
        Some(i)
    } else {
        first_prepared(list, i + 1)
    }
}

/// What a recovery does: it takes back the one prepared transaction and keeps the committed ones.
#[derive(Clone, Copy, Debug, PartialEq, Eq, Structural)]
pub struct RecoveryPlan {
    /// Position of the transaction that is taken back.
    pub prepared: Option<usize>,
    /// What the recovery reports.
    pub outcome: RecoveryOutcome,
}

/// Decides what a recovery does.
pub fn recover_pending(journals: &[ApplyJournal]) -> (r: Result<RecoveryPlan, String>)
    ensures
        ({
            let list = journal_models(journals@);
            let n = list.len() as int;
            if count_state(list, JournalState::Prepared, n) > 1 {
                r is Err && r->Err_0@ == "multiple prepared journal transactions"@
            } else {
                &&& r is Ok
                &&& match r->Ok_0.prepared {
                    Some(i) => first_prepared(list, 0) == Some(i as int),
                    None => first_prepared(list, 0) is None,
                }
                &&& r->Ok_0.outcome.rolled_back == count_state(list, JournalState::Prepared, n)
                &&& r->Ok_0.outcome.kept_committed == count_state(
                    list,
                    JournalState::Committed,
                    n,
                )
            }
        }),
{
    let ghost list = journal_models(journals@);
    let mut prepared: Option<usize> = None;
    let mut waiting: usize = 0;
    let mut committed: usize = 0;
    let mut i: usize = 0;
    while i < journals.len()
        invariant
            i <= journals@.len(),
            list == journal_models(journals@),
            waiting == count_state(list, JournalState::Prepared, i as int),
            committed == count_state(list, JournalState::Committed, i as int),
            waiting <= i,
            committed <= i,
            waiting == 0 ==> prepared is None && first_prepared(list, 0) == first_prepared(
                list,
                i as int,
            ),
            waiting > 0 ==> prepared is Some && first_prepared(list, 0) == Some(
                prepared->Some_0 as int,
            ),
        decreases journals@.len() - i,
    {
        assert(list[i as int] == journals@[i as int]@);
        if journals[i].state == JournalState::Prepared {
            if waiting == 0 {
                prepared = Some(i);
            }
            waiting = waiting + 1;
        }
        if journals[i].state == JournalState::Committed {
            committed = committed + 1;
        }
        i += 1;
    }
    if waiting > 1 {
        return Err("multiple prepared journal transactions".to_owned());
    }
    Ok(
        RecoveryPlan {
            prepared,
            outcome: RecoveryOutcome { rolled_back: waiting, kept_committed: committed },
        },
    )
}

/// What is wrong with the approval record of a committed transaction.
pub open spec fn committed_error(
    journal: JournalModel,
    bytes: Seq<u8>,
    record: Result<ApprovalRecord, String>,
) -> Option<Seq<char>> {
    if digest_text(bytes) != journal.approval_record_sha256 {
        Some("committed approval record changed"@)
    } else {
        match record {
            Err(_) => Some("committed approval record is invalid"@),
            Ok(stored) => if stored.changeset_id@ != journal.changeset_id
                || stored.base_root_hash@ != journal.base_root_hash || stored.chapter_order
                != journal.chapter_order {
                Some("committed journal does not match its approval record"@)
            } else {
                None
            },
        }
    }
}

/// Checks the approval record of a committed transaction.
pub fn verify_committed_approval(
    journal: &ApplyJournal,
    bytes: &[u8],
    record: &Result<ApprovalRecord, String>,
) -> (r: Result<(), String>)
    ensures
        failure_of(r) == committed_error(journal@, bytes@, *record),
{
    if !str_eq(sha256_bytes(bytes).as_str(), journal.approval_record_sha256.as_str()) {
        return Err("committed approval record changed".to_owned());
    }
    match record {
        Err(_) => Err("committed approval record is invalid".to_owned()),
        Ok(stored) => {
            if !str_eq(stored.changeset_id.as_str(), journal.changeset_id.as_str()) || !str_eq(
                stored.base_root_hash.as_str(),
                journal.base_root_hash.as_str(),
            ) || stored.chapter_order != journal.chapter_order {
                Err("committed journal does not match its approval record".to_owned())
            } else {
                Ok(())
            }
        },
    }
}

/// Position of the committed journal of a changeset, from a position on.
pub open spec fn committed_from(list: Seq<JournalModel>, id: Seq<char>, i: int) -> Option<int>
    decreases list.len() - i,
{
    if i < 0 || i >= list.len() {
        None
    } else if list[i].state == JournalState::Committed && list[i].changeset_id == id {
        Some(i)
    } else {
        committed_from(list, id, i + 1)
    }
}

/// What is wrong with the canon after the last approval, where its transaction is still there.
pub open spec fn head_error(
    list: Seq<JournalModel>,
    head: Option<(Seq<char>, u32)>,
    canon: Seq<char>,
) -> Option<Seq<char>> {
    match head {
        None => None,
        Some((id, order)) => match committed_from(list, id, 0) {
            None => None,
            Some(i) => if list[i].chapter_order != order {
                Some(
                    "committed journal chapter order does not match the approval chain head"@,
                )
            } else if canon != list[i].result_root_hash {
                Some("current committed canon root changed"@)
            } else {
                None
            },
        },
    }
}

/// Checks the canon after the last approval, where its transaction is still there.
pub fn verify_current_committed_head(
    journals: &[ApplyJournal],
    head: Option<(&str, u32)>,
    canon: &str,
) -> (r: Result<(), String>)
    ensures
        failure_of(r) == head_error(
            journal_models(journals@),
            match head {
                Some((id, order)) => Some((id@, order)),
                None => None,
            },
            canon@,
        ),
{
    let (id, order) = match head {
        None => {
            return Ok(());
        },
        Some(head) => head,
    };
    let ghost list = journal_models(journals@);
    let mut i: usize = 0;
    while i < journals.len()
        invariant
            i <= journals@.len(),
            list == journal_models(journals@),
            head == Some((id, order)),
            committed_from(list, id@, 0) == committed_from(list, id@, i as int),
        decreases journals@.len() - i,
    {
        let journal = &journals[i];
        assert(list[i as int] == journal@);
        if journal.state == JournalState::Committed && str_eq(journal.changeset_id.as_str(), id) {
            if journal.chapter_order != order {
                return Err(
                    "committed journal chapter order does not match the approval chain head".to_owned(),
                );
            }
            if !str_eq(canon, journal.result_root_hash.as_str()) {
                return Err("current committed canon root changed".to_owned());
            }
            return Ok(());
        }
        i += 1;
    }
    Ok(())
}

/// Checks that an approval record can be put in place.
pub fn plan_approval(journal: &ApplyJournal, present: bool, staged_sha256: &str, display: &str) -> (r:
    Result<(), String>)
    ensures
        failure_of(r) == (if present {
            Some("approval record appeared during apply: "@ + display@)
        } else {
            hash_error(
                staged_sha256@,
                Some(journal@.approval_record_sha256),
                "approval stage changed"@,
                "approval-record.json"@,
            )
        }),
{
    if present {
        return Err(concat2("approval record appeared during apply: ", display));
    }
    let expected = Some(journal.approval_record_sha256.clone());
    ensure_hash(staged_sha256, &expected, "approval stage changed", "approval-record.json")
}

/// Checks the canon after every operation was applied.
pub fn check_applied_root(journal: &ApplyJournal, actual: &str) -> (r: Result<(), String>)
    ensures
        failure_of(r) == (if actual@ == journal@.result_root_hash {
            None::<Seq<char>>
        } else {
            Some(
                "applied canon root "@ + actual@ + " does not match "@
                    + journal@.result_root_hash,
            )
        }),
{
    if str_eq(actual, journal.result_root_hash.as_str()) {
        return Ok(());
    }
    let mut text = concat3("applied canon root ", actual, " does not match ");
    text.append(journal.result_root_hash.as_str());
    Err(text)
}

/// Checks the canon after every operation was taken back.
pub fn check_base_root(journal: &ApplyJournal, actual: &str) -> (r: Result<(), String>)
    ensures
        failure_of(r) == (if actual@ == journal@.base_root_hash {
            None::<Seq<char>>
        } else {
            Some("rolled-back canon does not match the journal base root"@)
        }),
{
    if str_eq(actual, journal.base_root_hash.as_str()) {
        Ok(())
    } else {
        Err("rolled-back canon does not match the journal base root".to_owned())
    }
}

/// Returns the message of an apply that failed, given why it could not be taken back.
pub fn failed_apply(error: String, rollback: Option<String>) -> (r: String)
    ensures
        match rollback {
            None => r@ == error@,
            Some(pending) => r@ == "apply failed: "@ + error@ + "; rollback remains pending: "@
                + pending@,
        },
{
    match rollback {
        None => error,
        Some(pending) => {
            let mut text = concat3(
                "apply failed: ",
                error.as_str(),
                "; rollback remains pending: ",
            );
            text.append(pending.as_str());
            text
        },
    }
}

/// What is wrong with a file that is copied into a transaction.
pub open spec fn copy_error(sha256: Seq<char>, expected: Option<Seq<char>>, message: Seq<char>) -> Option<
    Seq<char>,
> {
    if expected == Some(sha256) {
        None
    } else {
        Some(message)
    }
}

/// Checks a canon file that is copied into a transaction.
pub fn check_canon_copy(op: &FileOperation, bytes: &[u8]) -> (r: Result<(), String>)
    ensures
        failure_of(r) == copy_error(
            digest_text(bytes@),
            op@.before_sha256,
            "canon changed while snapshotting "@ + op@.path,
        ),
{
    let digest = Some(sha256_bytes(bytes));
    if opt_eq(&op.before_sha256, &digest) {
        Ok(())
    } else {
        Err(concat2("canon changed while snapshotting ", op.path.as_str()))
    }
}

/// Checks a candidate file that is copied into a transaction.
pub fn check_candidate_copy(op: &FileOperation, candidate_path: &str, bytes: &[u8]) -> (r: Result<
    (),
    String,
>)
    ensures
        failure_of(r) == copy_error(
            digest_text(bytes@),
            op@.after_sha256,
            "candidate changed while snapshotting "@ + candidate_path@,
        ),
{
    let digest = Some(sha256_bytes(bytes));
    if opt_eq(&op.after_sha256, &digest) {
        Ok(())
    } else {
        Err(concat2("candidate changed while snapshotting ", candidate_path))
    }
}

/// Returns whether a test interrupts an apply after a file was moved away.
pub fn interrupts_after_preserve(kind: OperationKind, point: Option<TestInterruption>) -> (r: bool)
    ensures
        r == (kind == OperationKind::Replace && point == Some(
            TestInterruption::AfterReplacePreserve,
        ) || kind == OperationKind::Delete && point == Some(
            TestInterruption::AfterDeletePreserve,
        )),
{
    match point {
        Some(TestInterruption::AfterReplacePreserve) => kind == OperationKind::Replace,
        Some(TestInterruption::AfterDeletePreserve) => kind == OperationKind::Delete,
        _ => false,
    }
}

/// Returns whether a test interrupts an apply after an operation.
pub fn interrupts_after_entry(kind: OperationKind, index: usize, point: Option<TestInterruption>) -> (r:
    bool)
    ensures
        r == (index == 0 && point == Some(TestInterruption::AfterFirstRename) || kind
            == OperationKind::Replace && point == Some(TestInterruption::AfterReplaceInstall)),
{
    match point {
        Some(TestInterruption::AfterFirstRename) => index == 0,
        Some(TestInterruption::AfterReplaceInstall) => kind == OperationKind::Replace,
        _ => false,
    }
}

/// The disk once the target was moved away.
pub open spec fn preserved(disk: EntryDisk) -> EntryDisk {
    EntryDisk { target: None, old: disk.target, ..disk }
}

/// The disk once it is recorded that the target was moved away.
pub open spec fn move_recorded(disk: EntryDisk) -> EntryDisk {
    EntryDisk { moved: Some(disk.old->Some_0.1), ..disk }
}

/// The disk once the staged file is in place.
pub open spec fn installed(disk: EntryDisk) -> EntryDisk {
    EntryDisk { target: disk.staged, staged: None, ..disk }
}

/// The disk once it is recorded that the staged file is in place.
pub open spec fn install_recorded(disk: EntryDisk) -> EntryDisk {
    EntryDisk { installed: Some(disk.target->Some_0.1), ..disk }
}

/// The disk once the target was moved to quarantine.
pub open spec fn quarantined(disk: EntryDisk) -> EntryDisk {
    EntryDisk { target: None, quarantine: disk.target, ..disk }
}

/// The disk once the old file was put back.
pub open spec fn restored(disk: EntryDisk) -> EntryDisk {
    EntryDisk { target: disk.old, old: None, ..disk }
}

/// The disk after a plan was carried out.
pub open spec fn rolled_back(disk: EntryDisk, plan: RollbackPlan) -> EntryDisk {
    let first = if plan.quarantine {
        quarantined(disk)
    } else {
        disk
    };
    if plan.restore {
        restored(first)
    } else {
        first
    }
}

/// The disk before an operation: the target as it was, and the new file staged.
pub open spec fn untouched(target: Option<Seen>, staged: Option<Seen>) -> EntryDisk {
    EntryDisk {
        target: target,
        old: None,
        staged: staged,
        quarantine: None,
        moved: None,
        installed: None,
    }
}

/// Whether taking an operation back succeeds and leaves a target.
pub open spec fn rolls_back_to(
    entry: EntryModel,
    index: nat,
    display: Seq<char>,
    disk: EntryDisk,
    target: Option<Seen>,
) -> bool {
    match rollback_plan(entry, index, display, disk) {
        Ok(plan) => rolled_back(disk, plan).target == target,
        Err(_) => false,
    }
}

/// A replaced file comes back, whichever durable point the replacement had reached: before it,
/// once the old file was moved away, or once the new one was in place.
pub proof fn replaced_file_comes_back(
    entry: EntryModel,
    index: nat,
    display: Seq<char>,
    old: Seen,
    new: Seen,
)
    requires
        entry.kind == OperationKind::Replace,
        entry_shape(entry),
        entry.before == Some(old.0),
        entry.after == Some(new.0),
    ensures
        ({
            let start = untouched(Some(old), Some(new));
            let moved = move_recorded(preserved(start));
            let done = install_recorded(installed(moved));
            &&& rolls_back_to(entry, index, display, start, Some(old))
            &&& rolls_back_to(entry, index, display, moved, Some(old))
            &&& rolls_back_to(entry, index, display, done, Some(old))
        }),
{
}

/// A deleted file comes back, before it was moved away and after.
pub proof fn deleted_file_comes_back(entry: EntryModel, index: nat, display: Seq<char>, old: Seen)
    requires
        entry.kind == OperationKind::Delete,
        entry_shape(entry),
        entry.before == Some(old.0),
    ensures
        ({
            let start = untouched(Some(old), None);
            let moved = move_recorded(preserved(start));
            &&& rolls_back_to(entry, index, display, start, Some(old))
            &&& rolls_back_to(entry, index, display, moved, Some(old))
        }),
{
}

/// A created file goes away, before it was put in place and after.
pub proof fn created_file_goes_away(entry: EntryModel, index: nat, display: Seq<char>, new: Seen)
    requires
        entry.kind == OperationKind::Create,
        entry_shape(entry),
        entry.after == Some(new.0),
    ensures
        ({
            let start = untouched(None, Some(new));
            let done = install_recorded(installed(start));
            &&& rolls_back_to(entry, index, display, start, None)
            &&& rolls_back_to(entry, index, display, done, None)
        }),
{
}

/// A step whose record is not durable is not taken back: the recovery stops and moves nothing.
pub proof fn unrecorded_step_stops_recovery(
    entry: EntryModel,
    index: nat,
    display: Seq<char>,
    old: Seen,
    new: Seen,
)
    requires
        entry.kind == OperationKind::Replace,
        entry_shape(entry),
        entry.before == Some(old.0),
        entry.after == Some(new.0),
    ensures
        ({
            let start = untouched(Some(old), Some(new));
            let moved = preserved(start);
            let placed = installed(move_recorded(moved));
            &&& rollback_plan(entry, index, display, moved) is Err
            &&& rollback_plan(entry, index, display, placed) is Err
        }),
{
}

/// A recovery that was interrupted can be repeated: after the new file was moved to quarantine the
/// old one still comes back, and once it is back nothing moves any more.
pub proof fn recovery_can_be_repeated(
    entry: EntryModel,
    index: nat,
    display: Seq<char>,
    old: Seen,
    new: Seen,
)
    requires
        entry.kind == OperationKind::Replace,
        entry_shape(entry),
        entry.before == Some(old.0),
        entry.after == Some(new.0),
    ensures
        ({
            let done = install_recorded(
                installed(move_recorded(preserved(untouched(Some(old), Some(new))))),
            );
            let halfway = quarantined(done);
            let back = restored(halfway);
            &&& rolls_back_to(entry, index, display, halfway, Some(old))
            &&& rollback_plan(entry, index, display, back) == Ok::<RollbackPlan, Seq<char>>(
                RollbackPlan { quarantine: false, restore: false },
            )
            &&& back.target == Some(old)
        }),
{
}

/// A file that someone else put in place of the new one is not moved.
pub proof fn foreign_file_is_not_moved(
    entry: EntryModel,
    index: nat,
    display: Seq<char>,
    disk: EntryDisk,
)
    requires
        disk.target is Some,
        disk.installed is Some,
        disk.target->Some_0.1 != disk.installed->Some_0,
        rollback_plan(entry, index, display, disk) is Ok,
    ensures
        !rollback_plan(entry, index, display, disk)->Ok_0.quarantine,
{
}

} // verus!
