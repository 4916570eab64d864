//! Compilation of source material into model context.

use vstd::prelude::*;
use vstd::string::StringExecFns;
use vstd::utf8::is_char_boundary;
use crate::domain::{is_known_entity_id, is_known_id, prefixed_uuid, EntityId, EntityKind};
use crate::hash::{digest_text, sha256_text};
use crate::order::{lemma_ordered_keeps, lemma_placed_at, ordered_by, placed_by};
use crate::plot::{box_ids, box_parents, chapter_ids, chapter_parents, part_ids, scene_ids, scene_parents, structure_error, validate_structure, StoryStructure};
use crate::sources::{entries_error, entry_models, fail, fail_with, scope_applies, snapshot_matches, EntryModel, ScopeModel, Snapshot, SnapshotModel, SourceEntry, SourceError, SourceErrorKind, SourceFailure, SourceManifest, SourceScope, SourceTier};
use crate::text::{before, concat2, concat3, lemma_utf8_concat, opt_text, str_eq, text_before, texts, utf8};

verus! {

/// A range of bytes in a text.
#[derive(Clone, Copy, Debug, PartialEq, Eq, Structural)]
pub struct ByteRange {
    /// First byte.
    pub start: usize,
    /// Byte behind the last one.
    pub end: usize,
}

/// Whether a range lies inside a text and splits no character.
pub open spec fn range_fits(range: ByteRange, text: Seq<char>) -> bool {
    &&& range.start <= range.end <= utf8(text).len()
    &&& is_char_boundary(utf8(text), range.start as int)
    &&& is_char_boundary(utf8(text), range.end as int)
}

impl ByteRange {
    /// Builds a range.
    pub fn new(start: usize, end: usize) -> (r: ByteRange)
        ensures
            r.start == start,
            r.end == end,
    {
        ByteRange { start, end }
    }

    /// Returns whether the range lies inside a text and splits no character.
    pub fn is_valid_for(self, text: &str) -> (r: bool)
        ensures
            r == range_fits(self, text@),
    {
        self.start <= self.end && self.end <= text.as_bytes().len() && text.is_char_boundary(
            self.start,
        ) && text.is_char_boundary(self.end)
    }
}

/// How a source entered a context.
#[derive(Clone, Copy, Debug, PartialEq, Eq, Structural)]
pub enum CoverageDisposition {
    /// As a whole.
    Raw,
    /// As a summary.
    Compacted,
    /// Not at all.
    Excluded,
}

/// A summary of a range of a source.
pub struct SourceSummary {
    /// Summarized source.
    pub source_id: EntityId,
    /// Digest of the source that was summarized.
    pub source_sha256: String,
    /// Summarized range.
    pub source_range: ByteRange,
    text: String,
}

/// A summary by the views of its fields.
pub struct SummaryModel {
    pub source_id: Seq<char>,
    pub source_sha256: Seq<char>,
    pub source_range: ByteRange,
    pub text: Seq<char>,
}

impl View for SourceSummary {
    type V = SummaryModel;

    closed spec fn view(&self) -> SummaryModel {
        SummaryModel {
            source_id: self.source_id@,
            source_sha256: self.source_sha256@,
            source_range: self.source_range,
            text: self.text@,
        }
    }
}

/// The views of summaries.
pub open spec fn summary_models(items: Seq<SourceSummary>) -> Seq<SummaryModel> {
    items.map_values(|item: SourceSummary| item@)
}

impl SourceSummary {
    /// Builds a summary of a range of a source.
    pub fn new(source_id: EntityId, source_sha256: String, source_range: ByteRange, text: String) -> (r:
        SourceSummary)
        ensures
            r@ == (SummaryModel {
                source_id: source_id@,
                source_sha256: source_sha256@,
                source_range,
                text: text@,
            }),
    {
        SourceSummary { source_id, source_sha256, source_range, text }
    }

    /// Returns the text of the summary.
    pub fn text(&self) -> (r: &str)
        ensures
            r@ == self@.text,
    {
        self.text.as_str()
    }
}

/// Identifier and digest of a secret source.
pub type KeyModel = (Seq<char>, Seq<char>);

/// A human's permission to transmit a secret source once.
#[derive(Debug)]
pub struct SecretTransmission {
    source_id: EntityId,
    source_sha256: String,
}

impl View for SecretTransmission {
    type V = KeyModel;

    closed spec fn view(&self) -> KeyModel {
        (self.source_id@, self.source_sha256@)
    }
}

impl SecretTransmission {
    /// Records that a human confirmed the transmission.
    pub fn after_human_confirmation(source_id: EntityId, source_sha256: String) -> (r:
        SecretTransmission)
        ensures
            r@ == (source_id@, source_sha256@),
    {
        SecretTransmission { source_id, source_sha256 }
    }
}

/// What a context is compiled for.
#[derive(Debug)]
pub struct ContextRequest {
    /// Entity that is worked on.
    pub target: EntityId,
    /// Role that works on it.
    pub role: String,
    /// Tokens that the context may take.
    pub budget_tokens: u64,
    /// Tokens that are asked for in return.
    pub requested_output_tokens: u64,
}

/// Which secret source a receipt entry stands for; it is never written out.
pub struct SecretReceiptKey {
    source_id: EntityId,
    source_sha256: String,
}

impl View for SecretReceiptKey {
    type V = KeyModel;

    closed spec fn view(&self) -> KeyModel {
        (self.source_id@, self.source_sha256@)
    }
}

impl SecretReceiptKey {
    fn from_entry(entry: &SourceEntry) -> (r: SecretReceiptKey)
        ensures
            r@ == (entry@.source_id, entry@.expected_sha256),
    {
        SecretReceiptKey {
            source_id: entry.source_id.copy(),
            source_sha256: entry.expected_sha256.clone(),
        }
    }

    fn same(&self, other: &SecretReceiptKey) -> (r: bool)
        ensures
            r == (self@ == other@),
    {
        self.source_id.same(&other.source_id) && self.source_sha256 == other.source_sha256
    }

    fn copy(&self) -> (r: SecretReceiptKey)
        ensures
            r@ == self@,
    {
        SecretReceiptKey {
            source_id: self.source_id.copy(),
            source_sha256: self.source_sha256.clone(),
        }
    }
}

/// The views of keys.
pub open spec fn keys(items: Seq<SecretReceiptKey>) -> Seq<KeyModel> {
    items.map_values(|item: SecretReceiptKey| item@)
}

fn find_key(list: &[SecretReceiptKey], key: &SecretReceiptKey) -> (r: Option<usize>)
    ensures
        match r {
            Some(i) => i < list@.len() && keys(list@)[i as int] == key@ && keys(list@).contains(
                key@,
            ),
            None => !keys(list@).contains(key@),
        },
{
    let ghost all = keys(list@);
    let mut i: usize = 0;
    while i < list.len()
        invariant
            i <= list@.len(),
            all == keys(list@),
            forall|k: int| 0 <= k < i ==> #[trigger] all[k] != key@,
        decreases list@.len() - i,
    {
        assert(all[i as int] == list@[i as int]@);
        if list[i].same(key) {
            return Some(i);
        }
        i += 1;
    }
    None
}

/// One line of a context receipt: full coverage of a source, or for a secret source only its
/// digest and whether it was transmitted.
pub enum ContextReceiptEntry {
    /// A source that is not secret.
    Source {
        /// Source.
        source_id: EntityId,
        /// Digest of the source.
        source_sha256: String,
        /// How it entered the context.
        disposition: CoverageDisposition,
        /// Bytes that entered the context.
        source_range: Option<ByteRange>,
        /// Why it was treated so.
        reason: String,
        /// Whether it was cut off.
        truncated: bool,
        /// What went wrong.
        failure: Option<String>,
        /// Always false.
        secret_transmitted: bool,
    },
    /// A secret source.
    Secret {
        /// Digest of the source.
        source_sha256: String,
        /// Whether it was transmitted.
        secret_transmitted: bool,
        /// Source, which stays inside the program.
        secret_key: Option<SecretReceiptKey>,
    },
}

/// A receipt entry by the views of its fields.
pub enum ReceiptLine {
    Source {
        source_id: Seq<char>,
        source_sha256: Seq<char>,
        disposition: CoverageDisposition,
        source_range: Option<ByteRange>,
        reason: Seq<char>,
        truncated: bool,
        failure: Option<Seq<char>>,
        secret_transmitted: bool,
    },
    Secret {
        source_sha256: Seq<char>,
        secret_transmitted: bool,
        key: Option<KeyModel>,
    },
}

impl View for ContextReceiptEntry {
    type V = ReceiptLine;

    open spec fn view(&self) -> ReceiptLine {
        match self {
            ContextReceiptEntry::Source {
                source_id,
                source_sha256,
                disposition,
                source_range,
                reason,
                truncated,
                failure,
                secret_transmitted,
            } => ReceiptLine::Source {
                source_id: source_id@,
                source_sha256: source_sha256@,
                disposition: *disposition,
                source_range: *source_range,
                reason: reason@,
                truncated: *truncated,
                failure: opt_text(*failure),
                secret_transmitted: *secret_transmitted,
            },
            ContextReceiptEntry::Secret { source_sha256, secret_transmitted, secret_key } =>
            ReceiptLine::Secret {
                source_sha256: source_sha256@,
                secret_transmitted: *secret_transmitted,
                key: match secret_key {
                    Some(key) => Some(key@),
                    None => None,
                },
            },
        }
    }
}

/// The views of receipt entries.
pub open spec fn lines(items: Seq<ContextReceiptEntry>) -> Seq<ReceiptLine> {
    items.map_values(|item: ContextReceiptEntry| item@)
}

/// The digest in a receipt entry.
pub open spec fn line_digest(line: ReceiptLine) -> Seq<char> {
    match line {
        ReceiptLine::Source { source_sha256, .. } => source_sha256,
        ReceiptLine::Secret { source_sha256, .. } => source_sha256,
    }
}

/// What a receipt entry is ordered by: the source, or the digest of a secret source.
pub open spec fn line_key(line: ReceiptLine) -> Seq<char> {
    match line {
        ReceiptLine::Source { source_id, .. } => source_id,
        ReceiptLine::Secret { source_sha256, .. } => source_sha256,
    }
}

/// Whether a receipt entry says that a secret source was transmitted.
pub open spec fn line_transmitted(line: ReceiptLine) -> bool {
    match line {
        ReceiptLine::Source { secret_transmitted, .. } => secret_transmitted,
        ReceiptLine::Secret { secret_transmitted, .. } => secret_transmitted,
    }
}

impl ContextReceiptEntry {
    /// Returns the source, unless it is secret.
    pub fn source_id(&self) -> (r: Option<&EntityId>)
        ensures
            match (self@, r) {
                (ReceiptLine::Source { source_id, .. }, Some(id)) => id@ == source_id,
                (ReceiptLine::Secret { .. }, None) => true,
                _ => false,
            },
    {
        match self {
            ContextReceiptEntry::Source { source_id, .. } => Some(source_id),
            ContextReceiptEntry::Secret { .. } => None,
        }
    }

    /// Returns the digest of the source.
    pub fn source_sha256(&self) -> (r: &str)
        ensures
            r@ == line_digest(self@),
    {
        match self {
            ContextReceiptEntry::Source { source_sha256, .. } => source_sha256.as_str(),
            ContextReceiptEntry::Secret { source_sha256, .. } => source_sha256.as_str(),
        }
    }

    /// Returns how the source entered the context, unless it is secret.
    pub fn disposition(&self) -> (r: Option<CoverageDisposition>)
        ensures
            r == (match self@ {
                ReceiptLine::Source { disposition, .. } => Some(disposition),
                ReceiptLine::Secret { .. } => None,
            }),
    {
        match self {
            ContextReceiptEntry::Source { disposition, .. } => Some(*disposition),
            ContextReceiptEntry::Secret { .. } => None,
        }
    }

    /// Returns the bytes that entered the context.
    pub fn source_range(&self) -> (r: Option<ByteRange>)
        ensures
            r == (match self@ {
                ReceiptLine::Source { source_range, .. } => source_range,
                ReceiptLine::Secret { .. } => None,
            }),
    {
        match self {
            ContextReceiptEntry::Source { source_range, .. } => *source_range,
            ContextReceiptEntry::Secret { .. } => None,
        }
    }

    /// Returns why the source was treated so, unless it is secret.
    pub fn reason(&self) -> (r: Option<&str>)
        ensures
            match (self@, r) {
                (ReceiptLine::Source { reason, .. }, Some(text)) => text@ == reason,
                (ReceiptLine::Secret { .. }, None) => true,
                _ => false,
            },
    {
        match self {
            ContextReceiptEntry::Source { reason, .. } => Some(reason.as_str()),
            ContextReceiptEntry::Secret { .. } => None,
        }
    }

    /// Returns whether the source was cut off, unless it is secret.
    pub fn truncated(&self) -> (r: Option<bool>)
        ensures
            r == (match self@ {
                ReceiptLine::Source { truncated, .. } => Some(truncated),
                ReceiptLine::Secret { .. } => None,
            }),
    {
        match self {
            ContextReceiptEntry::Source { truncated, .. } => Some(*truncated),
            ContextReceiptEntry::Secret { .. } => None,
        }
    }

    /// Returns what went wrong.
    pub fn failure(&self) -> (r: Option<&str>)
        ensures
            (match r {
                Some(text) => Some(text@),
                None => None,
            }) == (match self@ {
                ReceiptLine::Source { failure, .. } => failure,
                ReceiptLine::Secret { .. } => None,
            }),
    {
        match self {
            ContextReceiptEntry::Source { failure, .. } => match failure {
                Some(text) => Some(text.as_str()),
                None => None,
            },
            ContextReceiptEntry::Secret { .. } => None,
        }
    }

    /// Returns whether a secret source was transmitted.
    pub fn secret_transmitted(&self) -> (r: bool)
        ensures
            r == line_transmitted(self@),
    {
        match self {
            ContextReceiptEntry::Source { secret_transmitted, .. } => *secret_transmitted,
            ContextReceiptEntry::Secret { secret_transmitted, .. } => *secret_transmitted,
        }
    }

    fn ordering_key(&self) -> (r: &str)
        ensures
            r@ == line_key(self@),
    {
        match self {
            ContextReceiptEntry::Source { source_id, .. } => source_id.as_str(),
            ContextReceiptEntry::Secret { source_sha256, .. } => source_sha256.as_str(),
        }
    }

    /// Copies the entry.
    pub fn copy(&self) -> (r: ContextReceiptEntry)
        ensures
            r@ == self@,
    {
        match self {
            ContextReceiptEntry::Source {
                source_id,
                source_sha256,
                disposition,
                source_range,
                reason,
                truncated,
                failure,
                secret_transmitted,
            } => ContextReceiptEntry::Source {
                source_id: source_id.copy(),
                source_sha256: source_sha256.clone(),
                disposition: *disposition,
                source_range: *source_range,
                reason: reason.clone(),
                truncated: *truncated,
                failure: match failure {
                    Some(text) => Some(text.clone()),
                    None => None,
                },
                secret_transmitted: *secret_transmitted,
            },
            ContextReceiptEntry::Secret { source_sha256, secret_transmitted, secret_key } =>
            ContextReceiptEntry::Secret {
                source_sha256: source_sha256.clone(),
                secret_transmitted: *secret_transmitted,
                secret_key: match secret_key {
                    Some(key) => Some(key.copy()),
                    None => None,
                },
            },
        }
    }
}

/// What a context was compiled from.
pub struct ContextReceipt {
    target: EntityId,
    role: String,
    budget_tokens: u64,
    requested_output_tokens: u64,
    context_sha256: Option<String>,
    entries: Vec<ContextReceiptEntry>,
}

/// A receipt by the views of its fields.
pub struct ReceiptModel {
    pub target: Seq<char>,
    pub role: Seq<char>,
    pub budget_tokens: u64,
    pub requested_output_tokens: u64,
    pub context_sha256: Option<Seq<char>>,
    pub entries: Seq<ReceiptLine>,
}

impl View for ContextReceipt {
    type V = ReceiptModel;

    closed spec fn view(&self) -> ReceiptModel {
        ReceiptModel {
            target: self.target@,
            role: self.role@,
            budget_tokens: self.budget_tokens,
            requested_output_tokens: self.requested_output_tokens,
            context_sha256: opt_text(self.context_sha256),
            entries: lines(self.entries@),
        }
    }
}

impl ContextReceipt {
    /// Returns the entity that is worked on.
    pub fn target(&self) -> (r: &EntityId)
        ensures
            r@ == self@.target,
    {
        &self.target
    }

    /// Returns the role that works on it.
    pub fn role(&self) -> (r: &str)
        ensures
            r@ == self@.role,
    {
        self.role.as_str()
    }

    /// Returns the tokens that the context may take.
    pub fn budget_tokens(&self) -> (r: u64)
        ensures
            r == self@.budget_tokens,
    {
        self.budget_tokens
    }

    /// Returns the tokens that are asked for in return.
    pub fn requested_output_tokens(&self) -> (r: u64)
        ensures
            r == self@.requested_output_tokens,
    {
        self.requested_output_tokens
    }

    /// Returns the digest of the compiled context.
    pub fn context_sha256(&self) -> (r: Option<&str>)
        ensures
            self@.context_sha256 == (match r {
                Some(text) => Some(text@),
                None => None,
            }),
    {
        match &self.context_sha256 {
            Some(text) => Some(text.as_str()),
            None => None,
        }
    }

    /// Returns the entries in order.
    pub fn entries(&self) -> (r: &[ContextReceiptEntry])
        ensures
            lines(r@) == self@.entries,
    {
        self.entries.as_slice()
    }

    /// Copies the receipt.
    pub fn copy(&self) -> (r: ContextReceipt)
        ensures
            r@ == self@,
    {
        let mut entries: Vec<ContextReceiptEntry> = Vec::new();
        let mut i: usize = 0;
        while i < self.entries.len()
            invariant
                i <= self.entries@.len(),
                entries@.len() == i,
                forall|k: int| 0 <= k < i ==> (#[trigger] entries@[k])@ == self.entries@[k]@,
            decreases self.entries@.len() - i,
        {
            entries.push(self.entries[i].copy());
            i += 1;
        }
        assert(lines(entries@) =~= lines(self.entries@));
        ContextReceipt {
            target: self.target.copy(),
            role: self.role.clone(),
            budget_tokens: self.budget_tokens,
            requested_output_tokens: self.requested_output_tokens,
            context_sha256: match &self.context_sha256 {
                Some(text) => Some(text.clone()),
                None => None,
            },
            entries,
        }
    }
}

/// A context that was compiled but not handed over; it holds the secret sources it reserved.
pub struct CompiledContext {
    text: String,
    sha256: String,
    estimated_tokens: u64,
    receipt: ContextReceipt,
    owner: EntityId,
    reserved: Vec<SecretReceiptKey>,
}

/// A compiled context by the views of its fields.
pub struct CompiledModel {
    pub text: Seq<char>,
    pub sha256: Seq<char>,
    pub estimated_tokens: u64,
    pub receipt: ReceiptModel,
    pub owner: Seq<char>,
    pub reserved: Seq<KeyModel>,
}

impl View for CompiledContext {
    type V = CompiledModel;

    closed spec fn view(&self) -> CompiledModel {
        CompiledModel {
            text: self.text@,
            sha256: self.sha256@,
            estimated_tokens: self.estimated_tokens,
            receipt: self.receipt@,
            owner: self.owner@,
            reserved: keys(self.reserved@),
        }
    }
}

impl CompiledContext {
    /// Returns the digest of the text.
    pub fn sha256(&self) -> (r: &str)
        ensures
            r@ == self@.sha256,
    {
        self.sha256.as_str()
    }

    /// Returns the estimated number of tokens.
    pub fn estimated_tokens(&self) -> (r: u64)
        ensures
            r == self@.estimated_tokens,
    {
        self.estimated_tokens
    }

    /// Returns the receipt.
    pub fn receipt(&self) -> (r: &ContextReceipt)
        ensures
            r@ == self@.receipt,
    {
        &self.receipt
    }
}

/// A context that was handed over.
pub struct TransmittedContext {
    text: String,
    sha256: String,
    receipt: ContextReceipt,
}

/// Text, digest and receipt of a context that was handed over.
pub struct TransmittedModel {
    pub text: Seq<char>,
    pub sha256: Seq<char>,
    pub receipt: ReceiptModel,
}

impl View for TransmittedContext {
    type V = TransmittedModel;

    closed spec fn view(&self) -> TransmittedModel {
        TransmittedModel { text: self.text@, sha256: self.sha256@, receipt: self.receipt@ }
    }
}

impl TransmittedContext {
    /// Returns the digest of the text.
    pub fn sha256(&self) -> (r: &str)
        ensures
            r@ == self@.sha256,
    {
        self.sha256.as_str()
    }

    /// Returns the receipt.
    pub fn receipt(&self) -> (r: &ContextReceipt)
        ensures
            r@ == self@.receipt,
    {
        &self.receipt
    }

    /// Takes the context apart.
    pub fn into_parts(self) -> (r: (String, ContextReceipt))
        ensures
            r.0@ == self@.text,
            r.1@ == self@.receipt,
    {
        (self.text, self.receipt)
    }
}

/// Why a context could not be compiled or handed over, with the receipt up to there.  A context
/// that was refused at the handoff is kept, so that its reservations can be released.
pub struct ContextCompileError {
    message: String,
    receipt: ContextReceipt,
    context: Option<CompiledContext>,
}

/// A compilation error by the views of its fields.
pub struct CompileErrorModel {
    pub message: Seq<char>,
    pub receipt: ReceiptModel,
    pub context: Option<CompiledModel>,
}

impl View for ContextCompileError {
    type V = CompileErrorModel;

    closed spec fn view(&self) -> CompileErrorModel {
        CompileErrorModel {
            message: self.message@,
            receipt: self.receipt@,
            context: match self.context {
                Some(context) => Some(context@),
                None => None,
            },
        }
    }
}

impl ContextCompileError {
    /// Returns the receipt.
    pub fn receipt(&self) -> (r: &ContextReceipt)
        ensures
            r@ == self@.receipt,
    {
        &self.receipt
    }

    /// Returns the message.
    pub fn to_text(&self) -> (r: String)
        ensures
            r@ == self@.message,
    {
        self.message.clone()
    }

    /// Returns the context that was refused.
    pub fn into_context(self) -> (r: Option<CompiledContext>)
        ensures
            self@.context == (match r {
                Some(context) => Some(context@),
                None => None,
            }),
    {
        self.context
    }
}

/// Returns an upper estimate of the tokens in a text: one for each byte.
pub fn estimate_tokens(bytes: &[u8]) -> (r: u64)
    ensures
        r == bytes@.len(),
{
    bytes.len() as u64
}

/// The part of a context that holds a source.
pub open spec fn source_block(source_id: Seq<char>, text: Seq<char>) -> Seq<char> {
    "<!-- phemius-source:"@ + source_id + " -->\n"@ + text + "\n"@
}

fn make_block(entry: &SourceEntry, text: &str) -> (r: String)
    ensures
        r@ == source_block(entry@.source_id, text@),
{
    let mut out = concat3("<!-- phemius-source:", entry.source_id.as_str(), " -->\n");
    out.append(text);
    out.append("\n");
    out
}

/// The receipt entry of a source: of a secret source only the digest.
pub open spec fn receipt_line(
    entry: EntryModel,
    disposition: CoverageDisposition,
    source_range: Option<ByteRange>,
    reason: Seq<char>,
    failure: Option<Seq<char>>,
) -> ReceiptLine {
    if entry.snapshot.ephemeral {
        ReceiptLine::Secret {
            source_sha256: entry.expected_sha256,
            secret_transmitted: false,
            key: Some((entry.source_id, entry.expected_sha256)),
        }
    } else {
        ReceiptLine::Source {
            source_id: entry.source_id,
            source_sha256: entry.expected_sha256,
            disposition,
            source_range,
            reason,
            truncated: false,
            failure,
            secret_transmitted: false,
        }
    }
}

fn receipt_entry(
    entry: &SourceEntry,
    disposition: CoverageDisposition,
    source_range: Option<ByteRange>,
    reason: &str,
    failure: Option<String>,
) -> (r: ContextReceiptEntry)
    ensures
        r@ == receipt_line(entry@, disposition, source_range, reason@, opt_text(failure)),
{
    if entry.snapshot.ephemeral {
        ContextReceiptEntry::Secret {
            source_sha256: entry.expected_sha256.clone(),
            secret_transmitted: false,
            secret_key: Some(SecretReceiptKey::from_entry(entry)),
        }
    } else {
        ContextReceiptEntry::Source {
            source_id: entry.source_id.copy(),
            source_sha256: entry.expected_sha256.clone(),
            disposition,
            source_range,
            reason: reason.to_owned(),
            truncated: false,
            failure,
            secret_transmitted: false,
        }
    }
}

/// The receipt entry of a source that stopped a compilation.
pub open spec fn failed_line(entry: EntryModel, message: Seq<char>) -> ReceiptLine {
    receipt_line(
        entry,
        CoverageDisposition::Excluded,
        None,
        "source could not be selected"@,
        Some(message),
    )
}

/// The receipt entry of a source that a stopped compilation did not reach.
pub open spec fn unreached_line(entry: EntryModel, message: Seq<char>) -> ReceiptLine {
    receipt_line(
        entry,
        CoverageDisposition::Excluded,
        None,
        "context compilation stopped before source selection"@,
        Some(message),
    )
}

/// What a compiler works with: the manifest, the snapshot of each entry where there is one, the
/// summaries, the structure of the work and the confirmations of secret sources.
pub struct CompilerModel {
    pub entries: Seq<EntryModel>,
    pub snapshots: Seq<Option<SnapshotModel>>,
    pub summaries: Seq<SummaryModel>,
    pub structure: Option<StoryStructure>,
    pub owner: Seq<char>,
    pub available: Set<KeyModel>,
    pub reserved: Set<KeyModel>,
}

/// The first position of a text in a list.
pub open spec fn position(list: Seq<Seq<char>>, text: Seq<char>, i: int) -> Option<int>
    decreases list.len() - i,
{
    if i < 0 || i >= list.len() {
        None
    } else if list[i] == text {
        Some(i)
    } else {
        position(list, text, i + 1)
    }
}

/// The parent that a list names for an entity.
pub open spec fn parent_of(ids: Seq<Seq<char>>, parents: Seq<Seq<char>>, id: Seq<char>) -> Option<
    Seq<char>,
> {
    match position(ids, id, 0) {
        Some(i) => Some(parents[i]),
        None => None,
    }
}

/// The scene of a target: that of a box, or the target itself.
pub open spec fn scene_of(s: StoryStructure, target: Seq<char>) -> Option<Seq<char>> {
    match parent_of(box_ids(s), box_parents(s), target) {
        Some(scene) => Some(scene),
        None => if position(scene_ids(s), target, 0) is Some {
            Some(target)
        } else {
            None
        },
    }
}

/// The chapter of a target: that of its scene, or the target itself.
pub open spec fn chapter_of(s: StoryStructure, target: Seq<char>) -> Option<Seq<char>> {
    let of_scene = match scene_of(s, target) {
        Some(scene) => parent_of(scene_ids(s), scene_parents(s), scene),
        None => None,
    };
    match of_scene {
        Some(chapter) => Some(chapter),
        None => if position(chapter_ids(s), target, 0) is Some {
            Some(target)
        } else {
            None
        },
    }
}

/// The part of a target: that of its chapter, or the target itself.
pub open spec fn part_of(s: StoryStructure, target: Seq<char>) -> Option<Seq<char>> {
    let of_chapter = match chapter_of(s, target) {
        Some(chapter) => parent_of(chapter_ids(s), chapter_parents(s), chapter),
        None => None,
    };
    match of_chapter {
        Some(part) => Some(part),
        None => if position(part_ids(s), target, 0) is Some {
            Some(target)
        } else {
            None
        },
    }
}

/// Whether some source is scoped to a part, a chapter or a scene.
pub open spec fn hierarchy_scoped(entries: Seq<EntryModel>) -> bool {
    exists|i: int| 0 <= i < entries.len() && is_hierarchy_scope((#[trigger] entries[i]).scope)
}

/// Whether a scope is a part, a chapter or a scene.
pub open spec fn is_hierarchy_scope(scope: ScopeModel) -> bool {
    match scope {
        ScopeModel::Part(_) => true,
        ScopeModel::Chapter(_) => true,
        ScopeModel::Scene(_) => true,
        _ => false,
    }
}

/// A list with an optional last item.
pub open spec fn with_optional(list: Seq<Seq<char>>, item: Option<Seq<char>>) -> Seq<Seq<char>> {
    match item {
        Some(text) => list.push(text),
        None => list,
    }
}

/// The target and its ancestors, or the message about why they are not known.
pub open spec fn ancestry(c: CompilerModel, target: Seq<char>) -> Result<Seq<Seq<char>>, Seq<char>> {
    if !is_known_id(target) {
        Err("context target has an invalid stable entity ID"@)
    } else {
        match c.structure {
            None => if hierarchy_scoped(c.entries) {
                Err(
                    "hierarchy-scoped sources require a validated story structure for context compilation"@,
                )
            } else {
                Ok(seq![target])
            },
            Some(s) => match structure_error(s) {
                Some(message) => Err(
                    "invalid story structure for context scope matching: "@ + message,
                ),
                None => {
                    let scene = scene_of(s, target);
                    let chapter = chapter_of(s, target);
                    let part = part_of(s, target);
                    if hierarchy_scoped(c.entries) && scene is None && chapter is None
                        && part is None {
                        Err("context target is not present in the validated story structure"@)
                    } else {
                        Ok(
                            with_optional(
                                with_optional(with_optional(seq![target], scene), chapter),
                                part,
                            ),
                        )
                    }
                },
            },
        }
    }
}

/// The last summary of a source.
pub open spec fn summary_for(summaries: Seq<SummaryModel>, source_id: Seq<char>) -> Option<
    SummaryModel,
>
    decreases summaries.len(),
{
    if summaries.len() == 0 {
        None
    } else if summaries.last().source_id == source_id {
        Some(summaries.last())
    } else {
        summary_for(summaries.drop_last(), source_id)
    }
}

/// The summary of a source that may stand for it: of the same digest, not empty, of a range of
/// its text.  A secret source has none.
pub open spec fn current_summary(
    summaries: Seq<SummaryModel>,
    entry: EntryModel,
    snapshot: SnapshotModel,
) -> Option<SummaryModel> {
    match summary_for(summaries, entry.source_id) {
        None => None,
        Some(summary) => if !snapshot.secret && summary.source_sha256 == entry.expected_sha256
            && summary.text.len() > 0 && summary.source_range.start < summary.source_range.end
            && range_fits(summary.source_range, snapshot.content) {
            Some(summary)
        } else {
            None
        },
    }
}

/// A context during its compilation: its text, its tokens, its receipt, the confirmations that
/// are left and those that it took.
pub struct Selection {
    pub context: Seq<char>,
    pub used: int,
    pub lines: Seq<ReceiptLine>,
    pub available: Set<KeyModel>,
    pub taken: Seq<KeyModel>,
}

/// What became of a source.
pub enum SelectionStep {
    /// Compilation goes on.
    Continue(Selection),
    /// Compilation stops with a message.
    Stop(Seq<char>, Selection),
}

/// Whether a block fits in what is left of a budget.
pub open spec fn block_fits(s: Selection, block: Seq<char>, budget: u64) -> bool {
    s.used + utf8(block).len() <= budget
}

/// A selection with a block and its receipt entry.
pub open spec fn with_block(s: Selection, block: Seq<char>, line: ReceiptLine) -> Selection {
    Selection {
        context: s.context + block,
        used: s.used + utf8(block).len(),
        lines: s.lines.push(line),
        ..s
    }
}

/// A selection with another receipt entry.
pub open spec fn with_line(s: Selection, line: ReceiptLine) -> Selection {
    Selection { lines: s.lines.push(line), ..s }
}

/// A selection that stops at a source.
pub open spec fn stopped(s: Selection, entry: EntryModel, message: Seq<char>) -> SelectionStep {
    SelectionStep::Stop(message, with_line(s, failed_line(entry, message)))
}

/// The confirmation that a secret source needs.
pub open spec fn entry_key(entry: EntryModel) -> KeyModel {
    (entry.source_id, entry.expected_sha256)
}

/// A selection that took the confirmation of a source; a source that is not secret needs none.
pub open spec fn reserve(s: Selection, entry: EntryModel, snapshot: SnapshotModel) -> Option<
    Selection,
> {
    if !snapshot.secret {
        Some(s)
    } else if s.available.contains(entry_key(entry)) {
        Some(
            Selection {
                available: s.available.remove(entry_key(entry)),
                taken: s.taken.push(entry_key(entry)),
                ..s
            },
        )
    } else {
        None
    }
}

/// The message about a missing confirmation.
pub open spec fn reserve_message(entry: EntryModel) -> Seq<char> {
    "secret source "@ + entry.source_id
        + " requires a one-time confirmation before transmission"@
}

/// The bytes of a whole text.
pub open spec fn whole_range(text: Seq<char>) -> ByteRange {
    ByteRange { start: 0, end: utf8(text).len() as usize }
}

/// A source enters as a whole, or compilation stops.
pub open spec fn raw_step(
    s: Selection,
    entry: EntryModel,
    snapshot: SnapshotModel,
    budget: u64,
    too_large: Seq<char>,
    reason: Seq<char>,
) -> SelectionStep {
    let block = source_block(entry.source_id, snapshot.content);
    if !block_fits(s, block, budget) {
        stopped(s, entry, too_large)
    } else {
        match reserve(s, entry, snapshot) {
            None => stopped(s, entry, reserve_message(entry)),
            Some(t) => SelectionStep::Continue(
                with_block(
                    t,
                    block,
                    receipt_line(
                        entry,
                        CoverageDisposition::Raw,
                        Some(whole_range(snapshot.content)),
                        reason,
                        None,
                    ),
                ),
            ),
        }
    }
}

/// A required source enters as a whole, or compilation stops.
pub open spec fn required_step(
    s: Selection,
    entry: EntryModel,
    snapshot: Option<SnapshotModel>,
    budget: u64,
) -> SelectionStep {
    match snapshot {
        None => stopped(s, entry, "source "@ + entry.source_id + " has no matching snapshot"@),
        Some(shot) => raw_step(
            s,
            entry,
            shot,
            budget,
            "required raw context for "@ + entry.source_id + " exceeds the input budget"@,
            "required raw source"@,
        ),
    }
}

/// A compactable source enters as its summary or as a whole, or compilation stops.
pub open spec fn compactable_step(
    s: Selection,
    entry: EntryModel,
    snapshot: Option<SnapshotModel>,
    summaries: Seq<SummaryModel>,
    budget: u64,
) -> SelectionStep {
    match snapshot {
        None => stopped(s, entry, "source "@ + entry.source_id + " has no matching snapshot"@),
        Some(shot) => match current_summary(summaries, entry, shot) {
            Some(summary) => {
                let block = source_block(entry.source_id, summary.text);
                if !block_fits(s, block, budget) {
                    stopped(
                        s,
                        entry,
                        "compactable context for "@ + entry.source_id
                            + " exceeds the input budget"@,
                    )
                } else {
                    SelectionStep::Continue(
                        with_block(
                            s,
                            block,
                            receipt_line(
                                entry,
                                CoverageDisposition::Compacted,
                                Some(summary.source_range),
                                "current source-anchored summary"@,
                                None,
                            ),
                        ),
                    )
                }
            },
            None => raw_step(
                s,
                entry,
                shot,
                budget,
                "compactable source "@ + entry.source_id
                    + " has no current summary and raw context does not fit"@,
                "complete raw fallback because the summary is missing or stale"@,
            ),
        },
    }
}

/// An optional source enters as its summary or as a whole, or is left out.
pub open spec fn optional_step(
    s: Selection,
    entry: EntryModel,
    snapshot: Option<SnapshotModel>,
    summaries: Seq<SummaryModel>,
    budget: u64,
) -> Selection {
    match snapshot {
        None => with_line(
            s,
            receipt_line(
                entry,
                CoverageDisposition::Excluded,
                None,
                "optional source snapshot is unavailable"@,
                Some("snapshot unavailable"@),
            ),
        ),
        Some(shot) => {
            let summary = current_summary(summaries, entry, shot);
            if summary is Some && block_fits(
                s,
                source_block(entry.source_id, summary->Some_0.text),
                budget,
            ) {
                with_block(
                    s,
                    source_block(entry.source_id, summary->Some_0.text),
                    receipt_line(
                        entry,
                        CoverageDisposition::Compacted,
                        Some(summary->Some_0.source_range),
                        "current optional source summary"@,
                        None,
                    ),
                )
            } else if block_fits(s, source_block(entry.source_id, shot.content), budget) {
                match reserve(s, entry, shot) {
                    None => with_line(
                        s,
                        receipt_line(
                            entry,
                            CoverageDisposition::Excluded,
                            None,
                            "optional secret source lacks a one-time confirmation"@,
                            Some(reserve_message(entry)),
                        ),
                    ),
                    Some(t) => with_block(
                        t,
                        source_block(entry.source_id, shot.content),
                        receipt_line(
                            entry,
                            CoverageDisposition::Raw,
                            Some(whole_range(shot.content)),
                            "complete optional raw fallback"@,
                            None,
                        ),
                    ),
                }
            } else {
                with_line(
                    s,
                    receipt_line(
                        entry,
                        CoverageDisposition::Excluded,
                        None,
                        "optional source exceeds the remaining input budget"@,
                        None,
                    ),
                )
            }
        },
    }
}

/// What becomes of source `i`.
pub open spec fn select_step(c: CompilerModel, s: Selection, i: int, budget: u64) -> SelectionStep {
    match c.entries[i].tier {
        SourceTier::RequiredRaw => required_step(s, c.entries[i], c.snapshots[i], budget),
        SourceTier::Compactable => compactable_step(
            s,
            c.entries[i],
            c.snapshots[i],
            c.summaries,
            budget,
        ),
        SourceTier::Optional => SelectionStep::Continue(
            optional_step(s, c.entries[i], c.snapshots[i], c.summaries, budget),
        ),
    }
}

/// What becomes of the sources from position `k` of an order on.
pub open spec fn select_from(
    c: CompilerModel,
    order: Seq<int>,
    k: int,
    s: Selection,
    budget: u64,
) -> SelectionStep
    decreases order.len() - k,
{
    if k < 0 || k >= order.len() {
        SelectionStep::Continue(s)
    } else {
        match select_step(c, s, order[k], budget) {
            SelectionStep::Stop(message, t) => SelectionStep::Stop(message, t),
            SelectionStep::Continue(t) => select_from(c, order, k + 1, t, budget),
        }
    }
}

/// The order of sources by their identifiers.
pub open spec fn by_source_id(entries: Seq<EntryModel>) -> spec_fn(int, int) -> bool {
    |i: int, j: int| text_before(entries[i].source_id, entries[j].source_id)
}

/// The sources that apply to a target and a role, in the order of their identifiers.
pub open spec fn applicable(entries: Seq<EntryModel>, targets: Seq<Seq<char>>, role: Seq<char>) -> Seq<
    int,
> {
    ordered_by(
        Seq::new(entries.len(), |i: int| i).filter(
            |i: int| scope_applies(entries[i].scope, targets, role),
        ),
        by_source_id(entries),
    )
}

/// The sources of a tier.
pub open spec fn of_tier(entries: Seq<EntryModel>, list: Seq<int>, tier: SourceTier) -> Seq<int> {
    list.filter(|i: int| entries[i].tier == tier)
}

/// The order in which sources are selected: required ones first, optional ones last.
pub open spec fn selection_order(entries: Seq<EntryModel>, list: Seq<int>) -> Seq<int> {
    of_tier(entries, list, SourceTier::RequiredRaw) + of_tier(
        entries,
        list,
        SourceTier::Compactable,
    ) + of_tier(entries, list, SourceTier::Optional)
}

/// All sources in the order of their identifiers.
pub open spec fn all_sources(entries: Seq<EntryModel>) -> Seq<int> {
    ordered_by(Seq::new(entries.len(), |i: int| i), by_source_id(entries))
}

/// The sources that receipt entries name.
pub open spec fn named_sources(list: Seq<ReceiptLine>) -> Seq<Seq<char>>
    decreases list.len(),
{
    if list.len() == 0 {
        Seq::empty()
    } else {
        match list.last() {
            ReceiptLine::Source { source_id, .. } => named_sources(list.drop_last()).push(
                source_id,
            ),
            ReceiptLine::Secret { .. } => named_sources(list.drop_last()),
        }
    }
}

/// The digests of the secret sources in receipt entries.
pub open spec fn secret_digests(list: Seq<ReceiptLine>) -> Seq<Seq<char>>
    decreases list.len(),
{
    if list.len() == 0 {
        Seq::empty()
    } else {
        match list.last() {
            ReceiptLine::Source { .. } => secret_digests(list.drop_last()),
            ReceiptLine::Secret { source_sha256, .. } => secret_digests(list.drop_last()).push(
                source_sha256,
            ),
        }
    }
}

/// A list without the first occurrence of a text.
pub open spec fn without_first(list: Seq<Seq<char>>, text: Seq<char>) -> Seq<Seq<char>> {
    match position(list, text, 0) {
        Some(i) => list.remove(i),
        None => list,
    }
}

/// Receipt entries completed with the sources from position `k` on that have none yet.
pub open spec fn accounted(
    entries: Seq<EntryModel>,
    order: Seq<int>,
    k: int,
    names: Seq<Seq<char>>,
    digests: Seq<Seq<char>>,
    list: Seq<ReceiptLine>,
    message: Seq<char>,
) -> Seq<ReceiptLine>
    decreases order.len() - k,
{
    if k < 0 || k >= order.len() {
        list
    } else {
        let entry = entries[order[k]];
        if entry.snapshot.ephemeral {
            if position(digests, entry.expected_sha256, 0) is Some {
                accounted(
                    entries,
                    order,
                    k + 1,
                    names,
                    without_first(digests, entry.expected_sha256),
                    list,
                    message,
                )
            } else {
                accounted(
                    entries,
                    order,
                    k + 1,
                    names,
                    digests,
                    list.push(unreached_line(entry, message)),
                    message,
                )
            }
        } else if position(names, entry.source_id, 0) is Some {
            accounted(
                entries,
                order,
                k + 1,
                without_first(names, entry.source_id),
                digests,
                list,
                message,
            )
        } else {
            accounted(
                entries,
                order,
                k + 1,
                names,
                digests,
                list.push(unreached_line(entry, message)),
                message,
            )
        }
    }
}

/// The order of receipt entries.
pub open spec fn line_order() -> spec_fn(ReceiptLine, ReceiptLine) -> bool {
    |a: ReceiptLine, b: ReceiptLine| text_before(line_key(a), line_key(b))
}

/// The receipt of a request with the given entries.
pub open spec fn receipt_of(
    request: ContextRequest,
    context_sha256: Option<Seq<char>>,
    list: Seq<ReceiptLine>,
) -> ReceiptModel {
    ReceiptModel {
        target: request.target@,
        role: request.role@,
        budget_tokens: request.budget_tokens,
        requested_output_tokens: request.requested_output_tokens,
        context_sha256,
        entries: ordered_by(list, line_order()),
    }
}

/// The error of a compilation that stopped: every source that was to be selected is accounted
/// for.
pub open spec fn stop_error(
    entries: Seq<EntryModel>,
    order: Seq<int>,
    request: ContextRequest,
    list: Seq<ReceiptLine>,
    message: Seq<char>,
) -> CompileErrorModel {
    CompileErrorModel {
        message,
        receipt: receipt_of(
            request,
            None,
            accounted(
                entries,
                order,
                0,
                named_sources(list),
                secret_digests(list),
                list,
                message,
            ),
        ),
        context: None,
    }
}

/// The selection before the first source.
pub open spec fn initial_selection(c: CompilerModel) -> Selection {
    Selection {
        context: Seq::empty(),
        used: 0,
        lines: Seq::empty(),
        available: c.available,
        taken: Seq::empty(),
    }
}

/// The result of a compilation: the context, or the error.
pub open spec fn compile_result(c: CompilerModel, request: ContextRequest) -> Result<
    CompiledModel,
    CompileErrorModel,
> {
    match ancestry(c, request.target@) {
        Err(message) => Err(
            stop_error(c.entries, all_sources(c.entries), request, Seq::empty(), message),
        ),
        Ok(targets) => {
            let list = applicable(c.entries, targets, request.role@);
            match select_from(
                c,
                selection_order(c.entries, list),
                0,
                initial_selection(c),
                request.budget_tokens,
            ) {
                SelectionStep::Stop(message, s) => Err(
                    stop_error(c.entries, list, request, s.lines, message),
                ),
                SelectionStep::Continue(s) => Ok(
                    CompiledModel {
                        text: s.context,
                        sha256: digest_text(utf8(s.context)),
                        estimated_tokens: s.used as u64,
                        receipt: receipt_of(
                            request,
                            Some(digest_text(utf8(s.context))),
                            s.lines,
                        ),
                        owner: c.owner,
                        reserved: s.taken,
                    },
                ),
            }
        },
    }
}

/// The first snapshot at or after `k` that matches an entry.
pub open spec fn first_matching(snapshots: Seq<SnapshotModel>, entry: EntryModel, k: int) -> Option<
    int,
>
    decreases snapshots.len() - k,
{
    if k < 0 || k >= snapshots.len() {
        None
    } else if snapshot_matches(snapshots[k], entry) {
        Some(k)
    } else {
        first_matching(snapshots, entry, k + 1)
    }
}

/// Whether some snapshot has the digest that an entry expects.
pub open spec fn digest_present(snapshots: Seq<SnapshotModel>, entry: EntryModel) -> bool {
    exists|k: int|
        0 <= k < snapshots.len() && (#[trigger] snapshots[k]).sha256 == entry.expected_sha256
}

/// The snapshot of an entry, where there is one.
pub open spec fn chosen_snapshot(snapshots: Seq<SnapshotModel>, entry: EntryModel) -> Option<
    SnapshotModel,
> {
    match first_matching(snapshots, entry, 0) {
        Some(k) => Some(snapshots[k]),
        None => None,
    }
}

/// The first entry at or after `i` whose digest is present but whose snapshot does not match.
pub open spec fn mismatch(entries: Seq<EntryModel>, snapshots: Seq<SnapshotModel>, i: int) -> Option<
    int,
>
    decreases entries.len() - i,
{
    if i < 0 || i >= entries.len() {
        None
    } else if first_matching(snapshots, entries[i], 0) is None && digest_present(
        snapshots,
        entries[i],
    ) {
        Some(i)
    } else {
        mismatch(entries, snapshots, i + 1)
    }
}

/// The failure of a compiler whose manifest or snapshots do not fit, where there is one.
pub open spec fn compiler_error(entries: Seq<EntryModel>, snapshots: Seq<SnapshotModel>) -> Option<
    SourceFailure,
> {
    match entries_error(entries, 0) {
        Some(error) => Some(error),
        None => match mismatch(entries, snapshots, 0) {
            None => None,
            Some(i) => Some(
                (
                    SourceErrorKind::InvalidManifest,
                    "source "@ + entries[i].source_id
                        + " snapshot metadata does not match the manifest"@,
                ),
            ),
        },
    }
}

/// The views of snapshots.
pub open spec fn snapshot_models(items: Seq<Snapshot>) -> Seq<SnapshotModel> {
    items.map_values(|item: Snapshot| item@)
}

/// Compiles sources into context.
pub struct ContextCompiler {
    manifest: SourceManifest,
    snapshots: Vec<Snapshot>,
    chosen: Vec<Option<usize>>,
    summaries: Vec<SourceSummary>,
    structure: Option<StoryStructure>,
    owner: EntityId,
    available: Vec<SecretReceiptKey>,
    reserved: Vec<SecretReceiptKey>,
}

impl View for ContextCompiler {
    type V = CompilerModel;

    closed spec fn view(&self) -> CompilerModel {
        CompilerModel {
            entries: self.manifest.models(),
            snapshots: self.chosen@.map_values(
                |choice: Option<usize>|
                    match choice {
                        Some(k) => Some(self.snapshots@[k as int]@),
                        None => None,
                    },
            ),
            summaries: summary_models(self.summaries@),
            structure: self.structure,
            owner: self.owner@,
            available: keys(self.available@).to_set(),
            reserved: keys(self.reserved@).to_set(),
        }
    }
}

impl ContextCompiler {
    /// Every entry has a choice of snapshot, and no confirmation is recorded twice.
    pub closed spec fn wf(&self) -> bool {
        &&& self.chosen@.len() == self.manifest.entries@.len()
        &&& forall|i: int|
            0 <= i < self.chosen@.len() && (#[trigger] self.chosen@[i]) is Some
                ==> self.chosen@[i]->Some_0 < self.snapshots@.len()
        &&& keys(self.available@).no_duplicates()
        &&& keys(self.reserved@).no_duplicates()
    }
}

fn find_matching(snapshots: &[Snapshot], entry: &SourceEntry) -> (r: Option<usize>)
    ensures
        match r {
            Some(k) => k < snapshots@.len() && first_matching(
                snapshot_models(snapshots@),
                entry@,
                0,
            ) == Some(k as int),
            None => first_matching(snapshot_models(snapshots@), entry@, 0) is None,
        },
{
    let ghost all = snapshot_models(snapshots@);
    let mut k: usize = 0;
    while k < snapshots.len()
        invariant
            k <= snapshots@.len(),
            all == snapshot_models(snapshots@),
            first_matching(all, entry@, 0) == first_matching(all, entry@, k as int),
        decreases snapshots@.len() - k,
    {
        assert(all[k as int] == snapshots@[k as int]@);
        if snapshots[k].matches_entry(entry) {
            return Some(k);
        }
        k += 1;
    }
    None
}

fn has_digest(snapshots: &[Snapshot], entry: &SourceEntry) -> (r: bool)
    ensures
        r == digest_present(snapshot_models(snapshots@), entry@),
{
    let ghost all = snapshot_models(snapshots@);
    let mut k: usize = 0;
    while k < snapshots.len()
        invariant
            k <= snapshots@.len(),
            all == snapshot_models(snapshots@),
            forall|j: int| 0 <= j < k ==> (#[trigger] all[j]).sha256 != entry@.expected_sha256,
        decreases snapshots@.len() - k,
    {
        assert(all[k as int] == snapshots@[k as int]@);
        if str_eq(snapshots[k].raw_sha256(), entry.expected_sha256.as_str()) {
            return true;
        }
        k += 1;
    }
    false
}

/// The compiler of a valid manifest and its snapshots.
pub open spec fn new_compiler(
    entries: Seq<EntryModel>,
    snapshots: Seq<SnapshotModel>,
    owner: Seq<char>,
) -> CompilerModel {
    CompilerModel {
        entries,
        snapshots: entries.map_values(|entry: EntryModel| chosen_snapshot(snapshots, entry)),
        summaries: Seq::empty(),
        structure: None,
        owner,
        available: Set::empty(),
        reserved: Set::empty(),
    }
}

impl ContextCompiler {
    /// Builds a compiler: the manifest must be valid, and where a snapshot has the digest of an
    /// entry, one must match it in everything.
    pub fn new(manifest: SourceManifest, snapshots: Vec<Snapshot>) -> (r: Result<
        ContextCompiler,
        SourceError,
    >)
        ensures
            match r {
                Ok(compiler) => compiler.wf() && compiler_error(
                    manifest.models(),
                    snapshot_models(snapshots@),
                ) is None && compiler@ == new_compiler(
                    manifest.models(),
                    snapshot_models(snapshots@),
                    compiler@.owner,
                ),
                Err(error) => compiler_error(manifest.models(), snapshot_models(snapshots@))
                    == Some(error@),
            },
    {
        match manifest.validate() {
            Err(error) => {
                return Err(error);
            },
            Ok(()) => {},
        }
        let ghost entries = manifest.models();
        let ghost shots = snapshot_models(snapshots@);
        let mut chosen: Vec<Option<usize>> = Vec::new();
        let mut i: usize = 0;
        while i < manifest.entries.len()
            invariant
                i <= manifest.entries@.len(),
                entries == manifest.models(),
                shots == snapshot_models(snapshots@),
                entries_error(entries, 0) is None,
                mismatch(entries, shots, 0) == mismatch(entries, shots, i as int),
                chosen@.len() == i,
                forall|k: int|
                    0 <= k < i ==> (match #[trigger] chosen@[k] {
                        Some(x) => x < snapshots@.len() && first_matching(shots, entries[k], 0)
                            == Some(x as int),
                        None => first_matching(shots, entries[k], 0) is None,
                    }),
            decreases manifest.entries@.len() - i,
        {
            let entry = &manifest.entries[i];
            assert(entries[i as int] == entry@);
            let found = find_matching(snapshots.as_slice(), entry);
            if found.is_none() && has_digest(snapshots.as_slice(), entry) {
                return fail_with(
                    SourceErrorKind::InvalidManifest,
                    "source ",
                    entry.source_id.as_str(),
                    " snapshot metadata does not match the manifest",
                );
            }
            chosen.push(found);
            i += 1;
        }
        let compiler = ContextCompiler {
            manifest,
            snapshots,
            chosen,
            summaries: Vec::new(),
            structure: None,
            owner: prefixed_uuid(EntityKind::Run),
            available: Vec::new(),
            reserved: Vec::new(),
        };
        proof {
            let c = compiler@;
            assert(c.snapshots =~= entries.map_values(
                |entry: EntryModel| chosen_snapshot(shots, entry),
            ));
            assert(c.summaries =~= Seq::empty());
            assert(c.available =~= Set::empty());
            assert(c.reserved =~= Set::empty());
        }
        Ok(compiler)
    }

    /// Adds a summary; it takes the place of an earlier one of the same source.
    pub fn with_summary(self, summary: SourceSummary) -> (r: ContextCompiler)
        requires
            self.wf(),
        ensures
            r.wf(),
            r@ == (CompilerModel { summaries: self@.summaries.push(summary@), ..self@ }),
    {
        let ghost before = self@;
        let ghost item = summary@;
        let mut compiler = self;
        compiler.summaries.push(summary);
        assert(compiler@.summaries =~= before.summaries.push(item));
        compiler
    }

    /// Sets the structure of the work.
    pub fn with_structure(self, structure: StoryStructure) -> (r: ContextCompiler)
        requires
            self.wf(),
        ensures
            r.wf(),
            r@ == (CompilerModel { structure: Some(structure), ..self@ }),
    {
        let mut compiler = self;
        compiler.structure = Some(structure);
        compiler
    }
}

fn find_text(list: &[String], text: &str) -> (r: Option<usize>)
    ensures
        match r {
            Some(i) => i < list@.len() && position(texts(list@), text@, 0) == Some(i as int),
            None => position(texts(list@), text@, 0) is None,
        },
{
    let ghost all = texts(list@);
    let mut i: usize = 0;
    while i < list.len()
        invariant
            i <= list@.len(),
            all == texts(list@),
            position(all, text@, 0) == position(all, text@, i as int),
        decreases list@.len() - i,
    {
        assert(all[i as int] == list@[i as int]@);
        if str_eq(list[i].as_str(), text) {
            return Some(i);
        }
        i += 1;
    }
    None
}

fn find_scene(s: &StoryStructure, id: &str) -> (r: Option<usize>)
    ensures
        match r {
            Some(i) => i < s.scenes@.len() && position(scene_ids(*s), id@, 0) == Some(i as int),
            None => position(scene_ids(*s), id@, 0) is None,
        },
{
    let ghost all = scene_ids(*s);
    let mut i: usize = 0;
    while i < s.scenes.len()
        invariant
            i <= s.scenes@.len(),
            all == scene_ids(*s),
            position(all, id@, 0) == position(all, id@, i as int),
        decreases s.scenes@.len() - i,
    {
        assert(all[i as int] == s.scenes@[i as int].id@);
        if str_eq(s.scenes[i].id.as_str(), id) {
            return Some(i);
        }
        i += 1;
    }
    None
}

fn find_chapter(s: &StoryStructure, id: &str) -> (r: Option<usize>)
    ensures
        match r {
            Some(i) => i < s.chapters@.len() && position(chapter_ids(*s), id@, 0) == Some(
                i as int,
            ),
            None => position(chapter_ids(*s), id@, 0) is None,
        },
{
    let ghost all = chapter_ids(*s);
    let mut i: usize = 0;
    while i < s.chapters.len()
        invariant
            i <= s.chapters@.len(),
            all == chapter_ids(*s),
            position(all, id@, 0) == position(all, id@, i as int),
        decreases s.chapters@.len() - i,
    {
        assert(all[i as int] == s.chapters@[i as int].id@);
        if str_eq(s.chapters[i].id.as_str(), id) {
            return Some(i);
        }
        i += 1;
    }
    None
}

fn find_box(s: &StoryStructure, id: &str) -> (r: Option<usize>)
    ensures
        match r {
            Some(i) => i < s.boxes@.len() && position(box_ids(*s), id@, 0) == Some(i as int),
            None => position(box_ids(*s), id@, 0) is None,
        },
{
    let ghost all = box_ids(*s);
    let mut i: usize = 0;
    while i < s.boxes.len()
        invariant
            i <= s.boxes@.len(),
            all == box_ids(*s),
            position(all, id@, 0) == position(all, id@, i as int),
        decreases s.boxes@.len() - i,
    {
        assert(all[i as int] == s.boxes@[i as int].id@);
        if str_eq(s.boxes[i].id.as_str(), id) {
            return Some(i);
        }
        i += 1;
    }
    None
}

fn has_part(s: &StoryStructure, id: &str) -> (r: bool)
    ensures
        r == (position(part_ids(*s), id@, 0) is Some),
{
    let ghost all = part_ids(*s);
    let mut i: usize = 0;
    while i < s.parts.len()
        invariant
            i <= s.parts@.len(),
            all == part_ids(*s),
            position(all, id@, 0) == position(all, id@, i as int),
        decreases s.parts@.len() - i,
    {
        assert(all[i as int] == s.parts@[i as int].id@);
        if str_eq(s.parts[i].id.as_str(), id) {
            return true;
        }
        i += 1;
    }
    false
}

fn scene_id_of(s: &StoryStructure, target: &str) -> (r: Option<String>)
    ensures
        opt_text(r) == scene_of(*s, target@),
{
    match find_box(s, target) {
        Some(i) => Some(s.boxes[i].scene_id.clone()),
        None => match find_scene(s, target) {
            Some(_) => Some(target.to_owned()),
            None => None,
        },
    }
}

fn chapter_id_of(s: &StoryStructure, target: &str) -> (r: Option<String>)
    ensures
        opt_text(r) == chapter_of(*s, target@),
{
    let of_scene = match scene_id_of(s, target) {
        Some(scene) => match find_scene(s, scene.as_str()) {
            Some(i) => Some(s.scenes[i].chapter_id.clone()),
            None => None,
        },
        None => None,
    };
    match of_scene {
        Some(chapter) => Some(chapter),
        None => match find_chapter(s, target) {
            Some(_) => Some(target.to_owned()),
            None => None,
        },
    }
}

fn part_id_of(s: &StoryStructure, target: &str) -> (r: Option<String>)
    ensures
        opt_text(r) == part_of(*s, target@),
{
    let of_chapter = match chapter_id_of(s, target) {
        Some(chapter) => match find_chapter(s, chapter.as_str()) {
            Some(i) => Some(s.chapters[i].part_id.clone()),
            None => None,
        },
        None => None,
    };
    match of_chapter {
        Some(part) => Some(part),
        None => if has_part(s, target) {
            Some(target.to_owned())
        } else {
            None
        },
    }
}

fn has_hierarchy_scope(entries: &[SourceEntry]) -> (r: bool)
    ensures
        r == hierarchy_scoped(entry_models(entries@)),
{
    let ghost all = entry_models(entries@);
    let mut i: usize = 0;
    while i < entries.len()
        invariant
            i <= entries@.len(),
            all == entry_models(entries@),
            forall|k: int| 0 <= k < i ==> !is_hierarchy_scope((#[trigger] all[k]).scope),
        decreases entries@.len() - i,
    {
        assert(all[i as int] == entries@[i as int]@);
        match entries[i].scope {
            SourceScope::Part(_) => {
                assert(is_hierarchy_scope(all[i as int].scope));
                return true;
            },
            SourceScope::Chapter(_) => {
                assert(is_hierarchy_scope(all[i as int].scope));
                return true;
            },
            SourceScope::Scene(_) => {
                assert(is_hierarchy_scope(all[i as int].scope));
                return true;
            },
            _ => {},
        }
        i += 1;
    }
    false
}

fn push_optional(list: &mut Vec<String>, item: Option<String>)
    ensures
        texts(final(list)@) == with_optional(texts(old(list)@), opt_text(item)),
{
    let ghost before = texts(list@);
    match item {
        Some(text) => {
            list.push(text);
            assert(texts(list@) =~= before.push(text@));
        },
        None => {},
    }
}

fn place_index(entries: &[SourceEntry], list: &mut Vec<usize>, i: usize)
    requires
        i < entries@.len(),
        forall|k: int| 0 <= k < old(list)@.len() ==> #[trigger] old(list)@[k] < entries@.len(),
    ensures
        indices(final(list)@) == placed_by(
            indices(old(list)@),
            i as int,
            by_source_id(entry_models(entries@)),
        ),
        forall|k: int| 0 <= k < final(list)@.len() ==> #[trigger] final(list)@[k] < entries@.len(),
{
    let ghost models = entry_models(entries@);
    let ghost rule = by_source_id(models);
    let ghost all = indices(list@);
    let mut k: usize = 0;
    assert(models[i as int] == entries@[i as int]@);
    while k < list.len() && !before(
        entries[i].source_id.as_str(),
        entries[list[k]].source_id.as_str(),
    )
        invariant
            k <= list@.len(),
            list@ == old(list)@,
            i < entries@.len(),
            models == entry_models(entries@),
            rule == by_source_id(models),
            models[i as int] == entries@[i as int]@,
            all == indices(list@),
            forall|m: int| 0 <= m < list@.len() ==> #[trigger] list@[m] < entries@.len(),
            forall|j: int| 0 <= j < k ==> !rule(i as int, #[trigger] all[j]),
        decreases list@.len() - k,
    {
        assert(all[k as int] == list@[k as int]);
        assert(models[list@[k as int] as int] == entries@[list@[k as int] as int]@);
        k += 1;
    }
    proof {
        if k < list@.len() {
            assert(all[k as int] == list@[k as int]);
            assert(models[list@[k as int] as int] == entries@[list@[k as int] as int]@);
            assert(rule(i as int, all[k as int]));
        }
        lemma_placed_at(all, i as int, rule, k as int);
    }
    let ghost prior = list@;
    list.insert(k, i);
    assert(indices(list@) =~= all.insert(k as int, i as int));
    assert forall|m: int| 0 <= m < list@.len() implies #[trigger] list@[m] < entries@.len() by {
        if m < k {
            assert(list@[m] == prior[m]);
        } else if m > k {
            assert(list@[m] == prior[m - 1]);
        }
    }
}

/// Positions as numbers.
pub open spec fn indices(list: Seq<usize>) -> Seq<int> {
    list.map_values(|i: usize| i as int)
}

fn order_all(entries: &[SourceEntry]) -> (r: Vec<usize>)
    ensures
        indices(r@) == all_sources(entry_models(entries@)),
        forall|k: int| 0 <= k < r@.len() ==> #[trigger] r@[k] < entries@.len(),
{
    let ghost models = entry_models(entries@);
    let ghost rule = by_source_id(models);
    let ghost all: Seq<int> = Seq::new(models.len(), |i: int| i);
    let mut out: Vec<usize> = Vec::new();
    let mut i: usize = 0;
    assert(indices(out@) =~= ordered_by(all.take(0), rule));
    while i < entries.len()
        invariant
            i <= entries@.len(),
            models == entry_models(entries@),
            rule == by_source_id(models),
            all == Seq::new(models.len(), |i: int| i),
            indices(out@) == ordered_by(all.take(i as int), rule),
            forall|k: int| 0 <= k < out@.len() ==> #[trigger] out@[k] < entries@.len(),
        decreases entries@.len() - i,
    {
        assert(all.take(i + 1).drop_last() =~= all.take(i as int));
        assert(all.take(i + 1).last() == i as int);
        place_index(entries, &mut out, i);
        i += 1;
    }
    assert(all.take(entries@.len() as int) =~= all);
    out
}

fn order_applicable(entries: &[SourceEntry], targets: &[String], role: &str) -> (r: Vec<usize>)
    ensures
        indices(r@) == applicable(entry_models(entries@), texts(targets@), role@),
        forall|k: int| 0 <= k < r@.len() ==> #[trigger] r@[k] < entries@.len(),
{
    let ghost models = entry_models(entries@);
    let ghost rule = by_source_id(models);
    let ghost names = texts(targets@);
    let ghost keep = |i: int| scope_applies(models[i].scope, names, role@);
    let ghost all: Seq<int> = Seq::new(models.len(), |i: int| i);
    let mut out: Vec<usize> = Vec::new();
    let mut i: usize = 0;
    assert(indices(out@) =~= ordered_by(all.take(0).filter(keep), rule)) by {
        reveal(Seq::filter);
    }
    while i < entries.len()
        invariant
            i <= entries@.len(),
            models == entry_models(entries@),
            rule == by_source_id(models),
            names == texts(targets@),
            keep == (|i: int| scope_applies(models[i].scope, names, role@)),
            all == Seq::new(models.len(), |i: int| i),
            indices(out@) == ordered_by(all.take(i as int).filter(keep), rule),
            forall|k: int| 0 <= k < out@.len() ==> #[trigger] out@[k] < entries@.len(),
        decreases entries@.len() - i,
    {
        reveal(Seq::filter);
        let ghost t = all.take(i + 1);
        assert(t.drop_last() =~= all.take(i as int));
        assert(t.last() == i as int);
        assert(models[i as int] == entries@[i as int]@);
        if entries[i].scope.applies_to(targets, role) {
            assert(keep(i as int));
            assert(t.filter(keep).drop_last() =~= all.take(i as int).filter(keep));
            place_index(entries, &mut out, i);
        }
        i += 1;
    }
    assert(all.take(entries@.len() as int) =~= all);
    out
}

fn push_tier(entries: &[SourceEntry], list: &[usize], tier: SourceTier, out: &mut Vec<usize>)
    requires
        forall|k: int| 0 <= k < list@.len() ==> #[trigger] list@[k] < entries@.len(),
        forall|k: int| 0 <= k < old(out)@.len() ==> #[trigger] old(out)@[k] < entries@.len(),
    ensures
        indices(final(out)@) == indices(old(out)@) + of_tier(
            entry_models(entries@),
            indices(list@),
            tier,
        ),
        forall|k: int| 0 <= k < final(out)@.len() ==> #[trigger] final(out)@[k] < entries@.len(),
{
    let ghost models = entry_models(entries@);
    let ghost keep = |i: int| models[i].tier == tier;
    let ghost all = indices(list@);
    let ghost start = indices(out@);
    let mut k: usize = 0;
    assert(all.take(0).filter(keep) =~= Seq::<int>::empty()) by {
        reveal(Seq::filter);
    }
    assert(indices(out@) =~= start + all.take(0).filter(keep));
    while k < list.len()
        invariant
            k <= list@.len(),
            models == entry_models(entries@),
            keep == (|i: int| models[i].tier == tier),
            all == indices(list@),
            forall|m: int| 0 <= m < list@.len() ==> #[trigger] list@[m] < entries@.len(),
            forall|m: int| 0 <= m < out@.len() ==> #[trigger] out@[m] < entries@.len(),
            indices(out@) == start + all.take(k as int).filter(keep),
        decreases list@.len() - k,
    {
        reveal(Seq::filter);
        let i: usize = list[k];
        let ghost t = all.take(k + 1);
        assert(t.drop_last() =~= all.take(k as int));
        assert(t.last() == i as int);
        assert(models[i as int] == entries@[i as int]@);
        if entries[i].tier == tier {
            let ghost prior = indices(out@);
            out.push(i);
            assert(indices(out@) =~= prior.push(i as int));
            assert(start + all.take(k as int).filter(keep).push(i as int) =~= prior.push(
                i as int,
            ));
        }
        k += 1;
    }
    assert(all.take(list@.len() as int) =~= all);
}

fn order_selection(entries: &[SourceEntry], list: &[usize]) -> (r: Vec<usize>)
    requires
        forall|k: int| 0 <= k < list@.len() ==> #[trigger] list@[k] < entries@.len(),
    ensures
        indices(r@) == selection_order(entry_models(entries@), indices(list@)),
        forall|k: int| 0 <= k < r@.len() ==> #[trigger] r@[k] < entries@.len(),
{
    let mut out: Vec<usize> = Vec::new();
    push_tier(entries, list, SourceTier::RequiredRaw, &mut out);
    push_tier(entries, list, SourceTier::Compactable, &mut out);
    push_tier(entries, list, SourceTier::Optional, &mut out);
    assert(indices(out@) =~= selection_order(entry_models(entries@), indices(list@)));
    out
}

fn place_line(list: &mut Vec<ContextReceiptEntry>, entry: ContextReceiptEntry)
    ensures
        lines(final(list)@) == placed_by(lines(old(list)@), entry@, line_order()),
{
    let ghost models = lines(list@);
    let ghost item = entry@;
    let mut k: usize = 0;
    while k < list.len() && !before(entry.ordering_key(), list[k].ordering_key())
        invariant
            k <= list@.len(),
            list@ == old(list)@,
            item == entry@,
            models == lines(list@),
            forall|j: int| 0 <= j < k ==> !line_order()(item, #[trigger] models[j]),
        decreases list@.len() - k,
    {
        assert(models[k as int] == list@[k as int]@);
        k += 1;
    }
    proof {
        if k < list@.len() {
            assert(models[k as int] == list@[k as int]@);
        }
        lemma_placed_at(models, item, line_order(), k as int);
    }
    list.insert(k, entry);
    assert(lines(list@) =~= models.insert(k as int, item));
}

fn order_lines(entries: Vec<ContextReceiptEntry>) -> (r: Vec<ContextReceiptEntry>)
    ensures
        lines(r@) == ordered_by(lines(entries@), line_order()),
{
    let ghost all = lines(entries@);
    let mut rest = entries;
    let mut out: Vec<ContextReceiptEntry> = Vec::new();
    let ghost mut taken: int = 0;
    assert(lines(out@) =~= ordered_by(all.take(0), line_order()));
    assert(lines(rest@) =~= all.skip(0));
    while rest.len() > 0
        invariant
            0 <= taken <= all.len(),
            lines(rest@) == all.skip(taken),
            lines(out@) == ordered_by(all.take(taken), line_order()),
        decreases rest@.len(),
    {
        let ghost prior = rest@;
        assert(lines(rest@).len() == rest@.len());
        let entry = rest.remove(0);
        assert(lines(prior)[0] == entry@);
        assert(all.skip(taken)[0] == all[taken]);
        place_line(&mut out, entry);
        proof {
            assert(all.take(taken + 1).drop_last() =~= all.take(taken));
            assert forall|j: int| 0 <= j < rest@.len() implies #[trigger] lines(rest@)[j]
                == all.skip(taken + 1)[j] by {
                assert(rest@[j] == prior[j + 1]);
                assert(lines(prior)[j + 1] == all.skip(taken)[j + 1]);
            }
            assert(lines(rest@) =~= all.skip(taken + 1));
            taken = taken + 1;
        }
    }
    assert(lines(rest@).len() == 0);
    assert(all.take(taken) =~= all);
    out
}

fn collect_names(list: &[ContextReceiptEntry]) -> (r: Vec<String>)
    ensures
        texts(r@) == named_sources(lines(list@)),
{
    let ghost all = lines(list@);
    let mut out: Vec<String> = Vec::new();
    let mut i: usize = 0;
    assert(texts(out@) =~= named_sources(all.take(0)));
    while i < list.len()
        invariant
            i <= list@.len(),
            all == lines(list@),
            texts(out@) == named_sources(all.take(i as int)),
        decreases list@.len() - i,
    {
        let ghost t = all.take(i + 1);
        assert(t.drop_last() =~= all.take(i as int));
        assert(t.last() == list@[i as int]@);
        let ghost prior = texts(out@);
        match &list[i] {
            ContextReceiptEntry::Source { source_id, .. } => {
                out.push(source_id.as_str().to_owned());
                assert(texts(out@) =~= prior.push(source_id@));
            },
            ContextReceiptEntry::Secret { .. } => {},
        }
        i += 1;
    }
    assert(all.take(list@.len() as int) =~= all);
    out
}

fn collect_digests(list: &[ContextReceiptEntry]) -> (r: Vec<String>)
    ensures
        texts(r@) == secret_digests(lines(list@)),
{
    let ghost all = lines(list@);
    let mut out: Vec<String> = Vec::new();
    let mut i: usize = 0;
    assert(texts(out@) =~= secret_digests(all.take(0)));
    while i < list.len()
        invariant
            i <= list@.len(),
            all == lines(list@),
            texts(out@) == secret_digests(all.take(i as int)),
        decreases list@.len() - i,
    {
        let ghost t = all.take(i + 1);
        assert(t.drop_last() =~= all.take(i as int));
        assert(t.last() == list@[i as int]@);
        let ghost prior = texts(out@);
        match &list[i] {
            ContextReceiptEntry::Source { .. } => {},
            ContextReceiptEntry::Secret { source_sha256, .. } => {
                out.push(source_sha256.clone());
                assert(texts(out@) =~= prior.push(source_sha256@));
            },
        }
        i += 1;
    }
    assert(all.take(list@.len() as int) =~= all);
    out
}

fn remove_first(list: &mut Vec<String>, text: &str) -> (r: bool)
    ensures
        r == (position(texts(old(list)@), text@, 0) is Some),
        texts(final(list)@) == without_first(texts(old(list)@), text@),
{
    let ghost before = texts(list@);
    match find_text(list.as_slice(), text) {
        Some(i) => {
            let _ = list.remove(i);
            assert(texts(list@) =~= before.remove(i as int));
            true
        },
        None => false,
    }
}

fn account(
    entries: &[SourceEntry],
    order: &[usize],
    list: Vec<ContextReceiptEntry>,
    message: &str,
) -> (r: Vec<ContextReceiptEntry>)
    requires
        forall|k: int| 0 <= k < order@.len() ==> #[trigger] order@[k] < entries@.len(),
    ensures
        lines(r@) == accounted(
            entry_models(entries@),
            indices(order@),
            0,
            named_sources(lines(list@)),
            secret_digests(lines(list@)),
            lines(list@),
            message@,
        ),
{
    let ghost models = entry_models(entries@);
    let ghost all = indices(order@);
    let mut names = collect_names(list.as_slice());
    let mut digests = collect_digests(list.as_slice());
    let ghost goal = accounted(
        models,
        all,
        0,
        texts(names@),
        texts(digests@),
        lines(list@),
        message@,
    );
    let mut out = list;
    let mut k: usize = 0;
    while k < order.len()
        invariant
            k <= order@.len(),
            models == entry_models(entries@),
            all == indices(order@),
            forall|m: int| 0 <= m < order@.len() ==> #[trigger] order@[m] < entries@.len(),
            goal == accounted(
                models,
                all,
                k as int,
                texts(names@),
                texts(digests@),
                lines(out@),
                message@,
            ),
        decreases order@.len() - k,
    {
        let entry = &entries[order[k]];
        assert(all[k as int] == order@[k as int]);
        assert(models[order@[k as int] as int] == entry@);
        let known = if entry.snapshot.ephemeral {
            remove_first(&mut digests, entry.expected_sha256.as_str())
        } else {
            remove_first(&mut names, entry.source_id.as_str())
        };
        if !known {
            let ghost prior = lines(out@);
            let line = receipt_entry(
                entry,
                CoverageDisposition::Excluded,
                None,
                "context compilation stopped before source selection",
                Some(message.to_owned()),
            );
            let ghost item = line@;
            out.push(line);
            assert(lines(out@) =~= prior.push(item));
        }
        k += 1;
    }
    out
}

struct Selecting {
    context: String,
    used: u64,
    entries: Vec<ContextReceiptEntry>,
    available: Vec<SecretReceiptKey>,
    taken: Vec<SecretReceiptKey>,
}

impl View for Selecting {
    type V = Selection;

    closed spec fn view(&self) -> Selection {
        Selection {
            context: self.context@,
            used: self.used as int,
            lines: lines(self.entries@),
            available: keys(self.available@).to_set(),
            taken: keys(self.taken@),
        }
    }
}

proof fn lemma_key_removed(list: Seq<KeyModel>, i: int)
    requires
        0 <= i < list.len(),
        list.no_duplicates(),
    ensures
        list.remove(i).to_set() == list.to_set().remove(list[i]),
        list.remove(i).no_duplicates(),
{
    let rest = list.remove(i);
    assert forall|x: KeyModel| #[trigger] rest.to_set().contains(x) == list.to_set().remove(
        list[i],
    ).contains(x) by {
        if rest.contains(x) {
            let k = choose|k: int| 0 <= k < rest.len() && rest[k] == x;
            if k < i {
                assert(list[k] == x);
            } else {
                assert(list[k + 1] == x);
            }
        }
        if list.contains(x) && x != list[i] {
            let k = choose|k: int| 0 <= k < list.len() && list[k] == x;
            if k < i {
                assert(rest[k] == x);
            } else {
                assert(rest[k - 1] == x);
            }
        }
    }
    assert(rest.to_set() =~= list.to_set().remove(list[i]));
}

proof fn lemma_key_pushed(list: Seq<KeyModel>, key: KeyModel)
    ensures
        list.push(key).to_set() == list.to_set().insert(key),
        list.no_duplicates() && !list.contains(key) ==> list.push(key).no_duplicates(),
{
    let next = list.push(key);
    assert forall|x: KeyModel| #[trigger] next.to_set().contains(x) == list.to_set().insert(
        key,
    ).contains(x) by {
        if list.contains(x) {
            let k = choose|k: int| 0 <= k < list.len() && list[k] == x;
            assert(next[k] == x);
        }
        assert(next[list.len() as int] == key);
        if next.contains(x) && x != key {
            let k = choose|k: int| 0 <= k < next.len() && next[k] == x;
            assert(list[k] == x);
        }
    }
    assert(next.to_set() =~= list.to_set().insert(key));
}

impl Selecting {
    spec fn ok(&self) -> bool {
        keys(self.available@).no_duplicates()
    }

    fn add_line(&mut self, line: ContextReceiptEntry)
        requires
            old(self).ok(),
        ensures
            final(self).ok(),
            final(self)@ == with_line(old(self)@, line@),
    {
        let ghost before = lines(self.entries@);
        let ghost item = line@;
        self.entries.push(line);
        assert(lines(self.entries@) =~= before.push(item));
    }

    fn fits(&self, block: &str, budget: u64) -> (r: bool)
        ensures
            r == block_fits(self@, block@, budget),
    {
        let tokens: u64 = estimate_tokens(block.as_bytes());
        tokens <= budget && self.used <= budget - tokens
    }

    fn add_block(&mut self, block: &str, line: ContextReceiptEntry, budget: u64)
        requires
            old(self).ok(),
            block_fits(old(self)@, block@, budget),
        ensures
            final(self).ok(),
            final(self)@ == with_block(old(self)@, block@, line@),
    {
        let tokens: u64 = estimate_tokens(block.as_bytes());
        self.used = self.used + tokens;
        self.context.append(block);
        self.add_line(line);
    }

    fn stop(&mut self, entry: &SourceEntry, message: String) -> (r: Result<(), String>)
        requires
            old(self).ok(),
        ensures
            final(self).ok(),
            r is Err,
            stopped(old(self)@, entry@, message@) == SelectionStep::Stop(
                r->Err_0@,
                final(self)@,
            ),
    {
        let line = receipt_entry(
            entry,
            CoverageDisposition::Excluded,
            None,
            "source could not be selected",
            Some(message.clone()),
        );
        self.add_line(line);
        Err(message)
    }

    fn reserve(&mut self, entry: &SourceEntry, snapshot: &Snapshot) -> (r: Result<(), String>)
        requires
            old(self).ok(),
        ensures
            final(self).ok(),
            match r {
                Ok(()) => reserve(old(self)@, entry@, snapshot@) == Some(final(self)@),
                Err(message) => reserve(old(self)@, entry@, snapshot@) is None && final(self)@
                    == old(self)@ && message@ == reserve_message(entry@),
            },
    {
        if !snapshot.is_secret() {
            return Ok(());
        }
        let key = SecretReceiptKey::from_entry(entry);
        match find_key(self.available.as_slice(), &key) {
            None => Err(
                concat3(
                    "secret source ",
                    entry.source_id.as_str(),
                    " requires a one-time confirmation before transmission",
                ),
            ),
            Some(i) => {
                let ghost free = keys(self.available@);
                let ghost used = keys(self.taken@);
                proof {
                    lemma_key_removed(free, i as int);
                }
                let _ = self.available.remove(i);
                assert(keys(self.available@) =~= free.remove(i as int));
                let ghost k = key@;
                self.taken.push(key);
                assert(keys(self.taken@) =~= used.push(k));
                Ok(())
            },
        }
    }

    fn select_raw(
        &mut self,
        entry: &SourceEntry,
        snapshot: &Snapshot,
        budget: u64,
        too_large: String,
        reason: &str,
    ) -> (r: Result<(), String>)
        requires
            old(self).ok(),
        ensures
            final(self).ok(),
            raw_step(old(self)@, entry@, snapshot@, budget, too_large@, reason@) == (match r {
                Ok(()) => SelectionStep::Continue(final(self)@),
                Err(message) => SelectionStep::Stop(message@, final(self)@),
            }),
    {
        let block = make_block(entry, snapshot.text());
        if !self.fits(block.as_str(), budget) {
            return self.stop(entry, too_large);
        }
        match self.reserve(entry, snapshot) {
            Err(message) => {
                return self.stop(entry, message);
            },
            Ok(()) => {},
        }
        let end: usize = snapshot.text().as_bytes().len();
        let line = receipt_entry(
            entry,
            CoverageDisposition::Raw,
            Some(ByteRange::new(0, end)),
            reason,
            None,
        );
        self.add_block(block.as_str(), line, budget);
        Ok(())
    }
}

/// What became of a source, by the result and the state that is left.
spec fn step_outcome(r: Result<(), String>, after: Selection) -> SelectionStep {
    match r {
        Ok(()) => SelectionStep::Continue(after),
        Err(message) => SelectionStep::Stop(message@, after),
    }
}

impl ContextCompiler {
    fn snapshot_of(&self, i: usize) -> (r: Option<&Snapshot>)
        requires
            self.wf(),
            i < self.manifest.entries@.len(),
        ensures
            self@.snapshots[i as int] == (match r {
                Some(snapshot) => Some(snapshot@),
                None => None,
            }),
    {
        match self.chosen[i] {
            Some(k) => {
                assert(self.chosen@[i as int] is Some);
                Some(&self.snapshots[k])
            },
            None => None,
        }
    }

    fn find_summary(&self, entry: &SourceEntry, snapshot: &Snapshot) -> (r: Option<&SourceSummary>)
        ensures
            current_summary(self@.summaries, entry@, snapshot@) == (match r {
                Some(summary) => Some(summary@),
                None => None,
            }),
    {
        let ghost all = self@.summaries;
        let mut i: usize = self.summaries.len();
        assert(all.take(i as int) =~= all);
        while i > 0
            invariant
                i <= self.summaries@.len(),
                all == self@.summaries,
                summary_for(all, entry@.source_id) == summary_for(
                    all.take(i as int),
                    entry@.source_id,
                ),
            decreases i,
        {
            let summary = &self.summaries[i - 1];
            assert(all.take(i as int).last() == summary@);
            assert(all.take(i as int).drop_last() =~= all.take(i - 1));
            if summary.source_id.same(&entry.source_id) {
                let current = !snapshot.is_secret() && summary.source_sha256
                    == entry.expected_sha256 && !summary.text.as_str().is_empty()
                    && summary.source_range.start < summary.source_range.end
                    && summary.source_range.is_valid_for(snapshot.text());
                if current {
                    return Some(summary);
                } else {
                    return None;
                }
            }
            i -= 1;
        }
        None
    }

    fn select_compactable(&self, s: &mut Selecting, i: usize, budget: u64) -> (r: Result<(), String>)
        requires
            self.wf(),
            i < self.manifest.entries@.len(),
            old(s).ok(),
        ensures
            final(s).ok(),
            compactable_step(
                old(s)@,
                self@.entries[i as int],
                self@.snapshots[i as int],
                self@.summaries,
                budget,
            ) == step_outcome(r, final(s)@),
    {
        let entry = &self.manifest.entries[i];
        assert(self@.entries[i as int] == entry@);
        match self.snapshot_of(i) {
            None => {
                let message = concat3(
                    "source ",
                    entry.source_id.as_str(),
                    " has no matching snapshot",
                );
                s.stop(entry, message)
            },
            Some(snapshot) => match self.find_summary(entry, snapshot) {
                Some(summary) => {
                    let block = make_block(entry, summary.text());
                    if !s.fits(block.as_str(), budget) {
                        let message = concat3(
                            "compactable context for ",
                            entry.source_id.as_str(),
                            " exceeds the input budget",
                        );
                        return s.stop(entry, message);
                    }
                    let line = receipt_entry(
                        entry,
                        CoverageDisposition::Compacted,
                        Some(summary.source_range),
                        "current source-anchored summary",
                        None,
                    );
                    s.add_block(block.as_str(), line, budget);
                    Ok(())
                },
                None => {
                    let too_large = concat3(
                        "compactable source ",
                        entry.source_id.as_str(),
                        " has no current summary and raw context does not fit",
                    );
                    s.select_raw(
                        entry,
                        snapshot,
                        budget,
                        too_large,
                        "complete raw fallback because the summary is missing or stale",
                    )
                },
            },
        }
    }

    fn select_optional(&self, s: &mut Selecting, i: usize, budget: u64)
        requires
            self.wf(),
            i < self.manifest.entries@.len(),
            old(s).ok(),
        ensures
            final(s).ok(),
            final(s)@ == optional_step(
                old(s)@,
                self@.entries[i as int],
                self@.snapshots[i as int],
                self@.summaries,
                budget,
            ),
    {
        let entry = &self.manifest.entries[i];
        assert(self@.entries[i as int] == entry@);
        match self.snapshot_of(i) {
            None => {
                let line = receipt_entry(
                    entry,
                    CoverageDisposition::Excluded,
                    None,
                    "optional source snapshot is unavailable",
                    Some("snapshot unavailable".to_owned()),
                );
                s.add_line(line);
            },
            Some(snapshot) => {
                match self.find_summary(entry, snapshot) {
                    Some(summary) => {
                        let block = make_block(entry, summary.text());
                        if s.fits(block.as_str(), budget) {
                            let line = receipt_entry(
                                entry,
                                CoverageDisposition::Compacted,
                                Some(summary.source_range),
                                "current optional source summary",
                                None,
                            );
                            s.add_block(block.as_str(), line, budget);
                            return ;
                        }
                    },
                    None => {},
                }
                let block = make_block(entry, snapshot.text());
                if !s.fits(block.as_str(), budget) {
                    let line = receipt_entry(
                        entry,
                        CoverageDisposition::Excluded,
                        None,
                        "optional source exceeds the remaining input budget",
                        None,
                    );
                    s.add_line(line);
                    return ;
                }
                match s.reserve(entry, snapshot) {
                    Err(message) => {
                        let line = receipt_entry(
                            entry,
                            CoverageDisposition::Excluded,
                            None,
                            "optional secret source lacks a one-time confirmation",
                            Some(message),
                        );
                        s.add_line(line);
                    },
                    Ok(()) => {
                        let end: usize = snapshot.text().as_bytes().len();
                        let line = receipt_entry(
                            entry,
                            CoverageDisposition::Raw,
                            Some(ByteRange::new(0, end)),
                            "complete optional raw fallback",
                            None,
                        );
                        s.add_block(block.as_str(), line, budget);
                    },
                }
            },
        }
    }

    fn select(&self, s: &mut Selecting, i: usize, budget: u64) -> (r: Result<(), String>)
        requires
            self.wf(),
            i < self.manifest.entries@.len(),
            old(s).ok(),
        ensures
            final(s).ok(),
            select_step(self@, old(s)@, i as int, budget) == step_outcome(r, final(s)@),
    {
        let entry = &self.manifest.entries[i];
        assert(self@.entries[i as int] == entry@);
        match entry.tier {
            SourceTier::RequiredRaw => match self.snapshot_of(i) {
                None => {
                    let message = concat3(
                        "source ",
                        entry.source_id.as_str(),
                        " has no matching snapshot",
                    );
                    s.stop(entry, message)
                },
                Some(snapshot) => {
                    let too_large = concat3(
                        "required raw context for ",
                        entry.source_id.as_str(),
                        " exceeds the input budget",
                    );
                    s.select_raw(entry, snapshot, budget, too_large, "required raw source")
                },
            },
            SourceTier::Compactable => self.select_compactable(s, i, budget),
            SourceTier::Optional => {
                self.select_optional(s, i, budget);
                Ok(())
            },
        }
    }

    fn target_and_ancestors(&self, target: &str) -> (r: Result<Vec<String>, String>)
        ensures
            ancestry(self@, target@) == (match r {
                Ok(list) => Ok::<Seq<Seq<char>>, Seq<char>>(texts(list@)),
                Err(message) => Err(message@),
            }),
    {
        if !is_known_entity_id(target) {
            return Err("context target has an invalid stable entity ID".to_owned());
        }
        let mut ids: Vec<String> = Vec::new();
        ids.push(target.to_owned());
        assert(texts(ids@) =~= seq![target@]);
        let scoped = has_hierarchy_scope(self.manifest.entries.as_slice());
        match &self.structure {
            None => {
                if scoped {
                    return Err(
                        "hierarchy-scoped sources require a validated story structure for context compilation".to_owned(),
                    );
                }
                Ok(ids)
            },
            Some(structure) => {
                match validate_structure(structure) {
                    Err(message) => {
                        return Err(
                            concat2(
                                "invalid story structure for context scope matching: ",
                                message.as_str(),
                            ),
                        );
                    },
                    Ok(()) => {},
                }
                let scene = scene_id_of(structure, target);
                let chapter = chapter_id_of(structure, target);
                let part = part_id_of(structure, target);
                if scoped && scene.is_none() && chapter.is_none() && part.is_none() {
                    return Err(
                        "context target is not present in the validated story structure".to_owned(),
                    );
                }
                push_optional(&mut ids, scene);
                push_optional(&mut ids, chapter);
                push_optional(&mut ids, part);
                Ok(ids)
            },
        }
    }

    fn stopped_error(
        &self,
        order: &[usize],
        request: &ContextRequest,
        list: Vec<ContextReceiptEntry>,
        message: String,
    ) -> (r: ContextCompileError)
        requires
            forall|k: int|
                0 <= k < order@.len() ==> #[trigger] order@[k] < self.manifest.entries@.len(),
        ensures
            r@ == stop_error(
                self@.entries,
                indices(order@),
                *request,
                lines(list@),
                message@,
            ),
    {
        let entries = account(self.manifest.entries.as_slice(), order, list, message.as_str());
        ContextCompileError {
            message,
            receipt: ContextReceipt {
                target: request.target.copy(),
                role: request.role.clone(),
                budget_tokens: request.budget_tokens,
                requested_output_tokens: request.requested_output_tokens,
                context_sha256: None,
                entries: order_lines(entries),
            },
            context: None,
        }
    }

    /// Compiles the sources that apply to a request.  Required sources come first; a source that
    /// cannot be left out and does not fit stops the compilation.  A secret source takes its
    /// one-time confirmation, which a compilation that stops gives back.
    pub fn compile(&mut self, request: &ContextRequest) -> (r: Result<
        CompiledContext,
        ContextCompileError,
    >)
        requires
            old(self).wf(),
        ensures
            final(self).wf(),
            match r {
                Ok(context) => compile_result(old(self)@, *request) == Ok::<
                    CompiledModel,
                    CompileErrorModel,
                >(context@) && final(self)@ == (CompilerModel {
                    available: old(self)@.available.difference(context@.reserved.to_set()),
                    reserved: old(self)@.reserved.union(context@.reserved.to_set()),
                    ..old(self)@
                }),
                Err(error) => compile_result(old(self)@, *request) == Err::<
                    CompiledModel,
                    CompileErrorModel,
                >(error@) && final(self)@ == old(self)@,
            },
    {
        let targets = match self.target_and_ancestors(request.target.as_str()) {
            Err(message) => {
                let order = order_all(self.manifest.entries.as_slice());
                let none: Vec<ContextReceiptEntry> = Vec::new();
                assert(lines(none@) =~= Seq::<ReceiptLine>::empty());
                return Err(self.stopped_error(order.as_slice(), request, none, message));
            },
            Ok(targets) => targets,
        };
        let list = order_applicable(
            self.manifest.entries.as_slice(),
            targets.as_slice(),
            request.role.as_str(),
        );
        let order = order_selection(self.manifest.entries.as_slice(), list.as_slice());
        let ghost all = indices(order@);
        let mut available: Vec<SecretReceiptKey> = Vec::new();
        let mut i: usize = 0;
        while i < self.available.len()
            invariant
                i <= self.available@.len(),
                self.wf(),
                *self == *old(self),
                available@.len() == i,
                forall|k: int|
                    0 <= k < i ==> (#[trigger] available@[k])@ == self.available@[k]@,
            decreases self.available@.len() - i,
        {
            available.push(self.available[i].copy());
            i += 1;
        }
        assert(keys(available@) =~= keys(self.available@));
        let mut s = Selecting {
            context: String::new(),
            used: 0,
            entries: Vec::new(),
            available,
            taken: Vec::new(),
        };
        proof {
            assert(s@.lines =~= Seq::empty());
            assert(s@.taken =~= Seq::empty());
            assert(s@ == initial_selection(self@));
            assert(s@.taken.to_set() =~= Set::empty());
            assert(self@.available.difference(s@.taken.to_set()) =~= self@.available);
        }
        let ghost goal = select_from(self@, all, 0, s@, request.budget_tokens);
        let mut k: usize = 0;
        while k < order.len()
            invariant
                k <= order@.len(),
                self.wf(),
                *self == *old(self),
                all == indices(order@),
                forall|m: int|
                    0 <= m < order@.len() ==> #[trigger] order@[m] < self.manifest.entries@.len(),
                forall|m: int|
                    0 <= m < list@.len() ==> #[trigger] list@[m] < self.manifest.entries@.len(),
                s.ok(),
                s@.taken.to_set().subset_of(self@.available),
                s@.taken.no_duplicates(),
                s@.available == self@.available.difference(s@.taken.to_set()),
                ancestry(self@, request.target@) is Ok,
                indices(list@) == applicable(
                    self@.entries,
                    ancestry(self@, request.target@)->Ok_0,
                    request.role@,
                ),
                all == selection_order(self@.entries, indices(list@)),
                goal == select_from(
                    self@,
                    all,
                    0,
                    initial_selection(self@),
                    request.budget_tokens,
                ),
                goal == select_from(self@, all, k as int, s@, request.budget_tokens),
            decreases order@.len() - k,
        {
            assert(all[k as int] == order@[k as int]);
            let ghost before = s@;
            let outcome = self.select(&mut s, order[k], request.budget_tokens);
            match outcome {
                Err(message) => {
                    return Err(self.stopped_error(list.as_slice(), request, s.entries, message));
                },
                Ok(()) => {},
            }
            proof {
                lemma_step_keys(self@, before, order@[k as int] as int, request.budget_tokens, s@);
            }
            k += 1;
        }
        let sha256 = sha256_text(s.context.as_str());
        let entries = order_lines(s.entries);
        let mut taken: Vec<SecretReceiptKey> = Vec::new();
        let ghost keys_taken = keys(s.taken@);
        let ghost busy = self@.reserved;
        let mut j: usize = 0;
        while j < s.taken.len()
            invariant
                j <= s.taken@.len(),
                taken@.len() == j,
                keys_taken == keys(s.taken@),
                forall|m: int| 0 <= m < j ==> (#[trigger] taken@[m])@ == s.taken@[m]@,
            decreases s.taken@.len() - j,
        {
            taken.push(s.taken[j].copy());
            j += 1;
        }
        assert(keys(taken@) =~= keys_taken);
        let context = CompiledContext {
            text: s.context,
            sha256: sha256.clone(),
            estimated_tokens: s.used,
            receipt: ContextReceipt {
                target: request.target.copy(),
                role: request.role.clone(),
                budget_tokens: request.budget_tokens,
                requested_output_tokens: request.requested_output_tokens,
                context_sha256: Some(sha256),
                entries,
            },
            owner: self.owner.copy(),
            reserved: taken,
        };
        self.available = s.available;
        let mut rest = s.taken;
        let ghost mut moved: int = 0;
        assert(keys_taken.take(0) =~= Seq::<KeyModel>::empty());
        assert(busy.union(Seq::<KeyModel>::empty().to_set()) =~= busy);
        assert(keys(rest@) =~= keys_taken.skip(0));
        while rest.len() > 0
            invariant
                0 <= moved <= keys_taken.len(),
                keys(rest@) == keys_taken.skip(moved),
                keys(self.reserved@).no_duplicates(),
                keys(self.reserved@).to_set() == busy.union(keys_taken.take(moved).to_set()),
                self.manifest == old(self).manifest,
                self.snapshots == old(self).snapshots,
                self.chosen == old(self).chosen,
                self.summaries == old(self).summaries,
                self.structure == old(self).structure,
                self.owner == old(self).owner,
                self.available@ == s.available@,
            decreases rest@.len(),
        {
            let ghost prior = rest@;
            assert(keys(rest@).len() == rest@.len());
            let key = rest.remove(0);
            let ghost item = key@;
            assert(keys(prior)[0] == item);
            assert(keys_taken.skip(moved)[0] == keys_taken[moved]);
            let ghost reserved_keys = keys(self.reserved@);
            let known = find_key(self.reserved.as_slice(), &key).is_some();
            if !known {
                self.reserved.push(key);
                assert(keys(self.reserved@) =~= reserved_keys.push(item));
            }
            proof {
                lemma_key_pushed(reserved_keys, item);
                lemma_key_pushed(keys_taken.take(moved), item);
                assert(keys_taken.take(moved + 1) =~= keys_taken.take(moved).push(item));
                assert forall|m: int| 0 <= m < rest@.len() implies #[trigger] keys(rest@)[m]
                    == keys_taken.skip(moved + 1)[m] by {
                    assert(rest@[m] == prior[m + 1]);
                    assert(keys(prior)[m + 1] == keys_taken.skip(moved)[m + 1]);
                }
                assert(keys(rest@) =~= keys_taken.skip(moved + 1));
                assert(keys(self.reserved@).to_set() =~= busy.union(
                    keys_taken.take(moved + 1).to_set(),
                ));
                moved = moved + 1;
            }
        }
        proof {
            assert(keys(rest@).len() == 0);
            assert(keys_taken.take(moved) =~= keys_taken);
            assert(self@.snapshots =~= old(self)@.snapshots);
        }
        Ok(context)
    }
}

proof fn lemma_step_keys(c: CompilerModel, s: Selection, i: int, budget: u64, t: Selection)
    requires
        select_step(c, s, i, budget) == SelectionStep::Continue(t),
        s.taken.no_duplicates(),
        s.taken.to_set().subset_of(c.available),
        s.available == c.available.difference(s.taken.to_set()),
    ensures
        t.taken.no_duplicates(),
        t.taken.to_set().subset_of(c.available),
        t.available == c.available.difference(t.taken.to_set()),
{
    let key = entry_key(c.entries[i]);
    assert(s.taken.push(key).len() == s.taken.len() + 1);
    if t.taken != s.taken {
        assert(t.taken == s.taken.push(key));
        assert(t.available == s.available.remove(key));
        lemma_key_pushed(s.taken, key);
        assert(s.available.contains(key));
        assert(!s.taken.contains(key)) by {
            if s.taken.contains(key) {
                assert(s.taken.to_set().contains(key));
            }
        }
        assert(c.available.difference(s.taken.to_set()).remove(key) =~= c.available.difference(
            s.taken.to_set().insert(key),
        ));
    }
}

/// A key list is held by a set.
pub open spec fn all_held(list: Seq<KeyModel>, held: Set<KeyModel>) -> bool {
    forall|i: int| 0 <= i < list.len() ==> held.contains(#[trigger] list[i])
}

/// The message about a context that may not be handed over, where there is one.
pub open spec fn handoff_error(c: CompilerModel, context: CompiledModel) -> Option<Seq<char>> {
    let digest = digest_text(utf8(context.text));
    if context.owner != c.owner {
        Some("compiled context was not created by this context compiler"@)
    } else if context.sha256 != digest || context.receipt.context_sha256 != Some(digest) {
        Some("compiled context hash no longer matches its payload"@)
    } else if !all_held(context.reserved, c.reserved) {
        Some("secret transmission reservation is no longer valid"@)
    } else {
        None
    }
}

/// A receipt entry after the handoff of a context that holds the given confirmations.
pub open spec fn transmitted_line(line: ReceiptLine, confirmed: Seq<KeyModel>) -> ReceiptLine {
    match line {
        ReceiptLine::Secret { source_sha256, secret_transmitted, key } => if key is Some
            && confirmed.contains(key->Some_0) {
            ReceiptLine::Secret { source_sha256, secret_transmitted: true, key }
        } else {
            line
        },
        ReceiptLine::Source { .. } => line,
    }
}

/// Receipt entries after the handoff of a context that holds the given confirmations.
pub open spec fn transmitted_lines(list: Seq<ReceiptLine>, confirmed: Seq<KeyModel>) -> Seq<
    ReceiptLine,
> {
    list.map_values(|line: ReceiptLine| transmitted_line(line, confirmed))
}

/// A context after its handoff.
pub open spec fn transmitted(context: CompiledModel) -> TransmittedModel {
    TransmittedModel {
        text: context.text,
        sha256: context.sha256,
        receipt: ReceiptModel {
            entries: transmitted_lines(context.receipt.entries, context.reserved),
            ..context.receipt
        },
    }
}

fn mark_lines(list: Vec<ContextReceiptEntry>, confirmed: &[SecretReceiptKey]) -> (r: Vec<
    ContextReceiptEntry,
>)
    ensures
        lines(r@) == transmitted_lines(lines(list@), keys(confirmed@)),
{
    let ghost all = lines(list@);
    let mut out: Vec<ContextReceiptEntry> = Vec::new();
    let mut i: usize = 0;
    while i < list.len()
        invariant
            i <= list@.len(),
            all == lines(list@),
            out@.len() == i,
            forall|k: int|
                0 <= k < i ==> (#[trigger] out@[k])@ == transmitted_line(all[k], keys(confirmed@)),
        decreases list@.len() - i,
    {
        assert(all[i as int] == list@[i as int]@);
        let line = match &list[i] {
            ContextReceiptEntry::Secret { source_sha256, secret_transmitted, secret_key } => {
                let hit = match secret_key {
                    Some(key) => find_key(confirmed, key).is_some(),
                    None => false,
                };
                ContextReceiptEntry::Secret {
                    source_sha256: source_sha256.clone(),
                    secret_transmitted: *secret_transmitted || hit,
                    secret_key: match secret_key {
                        Some(key) => Some(key.copy()),
                        None => None,
                    },
                }
            },
            ContextReceiptEntry::Source { .. } => list[i].copy(),
        };
        out.push(line);
        i += 1;
    }
    assert(lines(out@) =~= transmitted_lines(all, keys(confirmed@)));
    out
}

fn holds_all(held: &[SecretReceiptKey], list: &[SecretReceiptKey]) -> (r: bool)
    ensures
        r == all_held(keys(list@), keys(held@).to_set()),
{
    let ghost all = keys(list@);
    let mut i: usize = 0;
    while i < list.len()
        invariant
            i <= list@.len(),
            all == keys(list@),
            forall|k: int| 0 <= k < i ==> keys(held@).to_set().contains(#[trigger] all[k]),
        decreases list@.len() - i,
    {
        assert(all[i as int] == list@[i as int]@);
        if find_key(held, &list[i]).is_none() {
            assert(!keys(held@).to_set().contains(all[i as int]));
            return false;
        }
        i += 1;
    }
    true
}

fn remove_keys(held: &mut Vec<SecretReceiptKey>, list: &[SecretReceiptKey])
    requires
        keys(old(held)@).no_duplicates(),
    ensures
        keys(final(held)@).no_duplicates(),
        keys(final(held)@).to_set() == keys(old(held)@).to_set().difference(
            keys(list@).to_set(),
        ),
{
    let ghost start = keys(held@).to_set();
    let ghost all = keys(list@);
    let mut i: usize = 0;
    assert(all.take(0).to_set() =~= Set::empty());
    assert(start.difference(Set::empty()) =~= start);
    while i < list.len()
        invariant
            i <= list@.len(),
            all == keys(list@),
            keys(held@).no_duplicates(),
            keys(held@).to_set() == start.difference(all.take(i as int).to_set()),
        decreases list@.len() - i,
    {
        let ghost before = keys(held@);
        let ghost item = list@[i as int]@;
        assert(all[i as int] == item);
        match find_key(held.as_slice(), &list[i]) {
            Some(k) => {
                proof {
                    lemma_key_removed(before, k as int);
                }
                let _ = held.remove(k);
                assert(keys(held@) =~= before.remove(k as int));
            },
            None => {},
        }
        proof {
            lemma_key_pushed(all.take(i as int), item);
            assert(all.take(i + 1) =~= all.take(i as int).push(item));
            assert(keys(held@).to_set() =~= start.difference(all.take(i + 1).to_set()));
        }
        i += 1;
    }
    assert(all.take(list@.len() as int) =~= all);
}

/// The compiler after a context was released: confirmations that it still held are available
/// again.
pub open spec fn released(c: CompilerModel, context: CompiledModel) -> CompilerModel {
    if context.owner != c.owner {
        c
    } else {
        let back = context.reserved.to_set().intersect(c.reserved);
        CompilerModel {
            available: c.available.union(back),
            reserved: c.reserved.difference(back),
            ..c
        }
    }
}

/// The failure of a confirmation, where there is one.
pub open spec fn confirmation_error(c: CompilerModel, key: KeyModel) -> Option<SourceFailure> {
    match entry_position(c.entries, key.0, 0) {
        None => Some(
            (
                SourceErrorKind::InvalidManifest,
                "secret transmission confirmation names an unknown source"@,
            ),
        ),
        Some(i) => match c.snapshots[i] {
            None => Some(
                (
                    SourceErrorKind::InvalidManifest,
                    "secret transmission confirmation source has no matching snapshot"@,
                ),
            ),
            Some(snapshot) => if !snapshot.secret || key.1 != c.entries[i].expected_sha256 {
                Some(
                    (
                        SourceErrorKind::InvalidManifest,
                        "secret transmission confirmation does not match a secret snapshot"@,
                    ),
                )
            } else if c.available.contains(key) || c.reserved.contains(key) {
                Some(
                    (
                        SourceErrorKind::InvalidManifest,
                        "secret transmission confirmation was already recorded"@,
                    ),
                )
            } else {
                None
            },
        },
    }
}

/// The first entry at or after `i` of a source.
pub open spec fn entry_position(entries: Seq<EntryModel>, source_id: Seq<char>, i: int) -> Option<
    int,
>
    decreases entries.len() - i,
{
    if i < 0 || i >= entries.len() {
        None
    } else if entries[i].source_id == source_id {
        Some(i)
    } else {
        entry_position(entries, source_id, i + 1)
    }
}

impl ContextCompiler {
    /// Records a human's permission to transmit a secret source once.
    pub fn confirm_secret_transmission(&mut self, confirmation: SecretTransmission) -> (r: Result<
        (),
        SourceError,
    >)
        requires
            old(self).wf(),
        ensures
            final(self).wf(),
            match r {
                Ok(()) => confirmation_error(old(self)@, confirmation@) is None && final(self)@ == (
                CompilerModel {
                    available: old(self)@.available.insert(confirmation@),
                    ..old(self)@
                }),
                Err(error) => confirmation_error(old(self)@, confirmation@) == Some(error@)
                    && final(self)@ == old(self)@,
            },
    {
        let ghost all = self@.entries;
        let mut i: usize = 0;
        while i < self.manifest.entries.len() && !self.manifest.entries[i].source_id.same(
            &confirmation.source_id,
        )
            invariant
                i <= self.manifest.entries@.len(),
                self.wf(),
                *self == *old(self),
                all == self@.entries,
                entry_position(all, confirmation@.0, 0) == entry_position(
                    all,
                    confirmation@.0,
                    i as int,
                ),
            decreases self.manifest.entries@.len() - i,
        {
            assert(all[i as int] == self.manifest.entries@[i as int]@);
            i += 1;
        }
        if i == self.manifest.entries.len() {
            return fail(
                SourceErrorKind::InvalidManifest,
                "secret transmission confirmation names an unknown source",
            );
        }
        assert(all[i as int] == self.manifest.entries@[i as int]@);
        let fits = match self.snapshot_of(i) {
            None => {
                return fail(
                    SourceErrorKind::InvalidManifest,
                    "secret transmission confirmation source has no matching snapshot",
                );
            },
            Some(snapshot) => snapshot.is_secret() && confirmation.source_sha256
                == self.manifest.entries[i].expected_sha256,
        };
        if !fits {
            return fail(
                SourceErrorKind::InvalidManifest,
                "secret transmission confirmation does not match a secret snapshot",
            );
        }
        let ghost model = confirmation@;
        let key = SecretReceiptKey {
            source_id: confirmation.source_id,
            source_sha256: confirmation.source_sha256,
        };
        if find_key(self.available.as_slice(), &key).is_some() || find_key(
            self.reserved.as_slice(),
            &key,
        ).is_some() {
            return fail(
                SourceErrorKind::InvalidManifest,
                "secret transmission confirmation was already recorded",
            );
        }
        let ghost free = keys(self.available@);
        self.available.push(key);
        proof {
            assert(keys(self.available@) =~= free.push(model));
            lemma_key_pushed(free, model);
            assert(self@.snapshots =~= old(self)@.snapshots);
        }
        Ok(())
    }

    /// Hands a compiled context over: its confirmations are used up, and its receipt records
    /// which secret sources were transmitted.  A context that is refused comes back in the error.
    pub fn handoff(&mut self, context: CompiledContext) -> (r: Result<
        TransmittedContext,
        ContextCompileError,
    >)
        requires
            old(self).wf(),
        ensures
            final(self).wf(),
            match r {
                Ok(sent) => handoff_error(old(self)@, context@) is None && sent@ == transmitted(
                    context@,
                ) && final(self)@ == (CompilerModel {
                    reserved: old(self)@.reserved.difference(context@.reserved.to_set()),
                    ..old(self)@
                }),
                Err(error) => handoff_error(old(self)@, context@) is Some && error@ == (
                CompileErrorModel {
                    message: handoff_error(old(self)@, context@)->Some_0,
                    receipt: context@.receipt,
                    context: Some(context@),
                }) && final(self)@ == old(self)@,
            },
    {
        let message = if !context.owner.same(&self.owner) {
            Some("compiled context was not created by this context compiler")
        } else {
            let actual = sha256_text(context.text.as_str());
            let receipt_fits = match &context.receipt.context_sha256 {
                Some(digest) => *digest == actual,
                None => false,
            };
            if !(context.sha256 == actual) || !receipt_fits {
                Some("compiled context hash no longer matches its payload")
            } else if !holds_all(self.reserved.as_slice(), context.reserved.as_slice()) {
                Some("secret transmission reservation is no longer valid")
            } else {
                None
            }
        };
        match message {
            Some(text) => Err(
                ContextCompileError {
                    message: text.to_owned(),
                    receipt: context.receipt.copy(),
                    context: Some(context),
                },
            ),
            None => {
                remove_keys(&mut self.reserved, context.reserved.as_slice());
                assert(self@.snapshots =~= old(self)@.snapshots);
                let entries = mark_lines(context.receipt.entries, context.reserved.as_slice());
                Ok(
                    TransmittedContext {
                        text: context.text,
                        sha256: context.sha256,
                        receipt: ContextReceipt {
                            target: context.receipt.target,
                            role: context.receipt.role,
                            budget_tokens: context.receipt.budget_tokens,
                            requested_output_tokens: context.receipt.requested_output_tokens,
                            context_sha256: context.receipt.context_sha256,
                            entries,
                        },
                    },
                )
            },
        }
    }

    /// Gives up a context that was not handed over: its confirmations are available again.
    pub fn release(&mut self, context: CompiledContext)
        requires
            old(self).wf(),
        ensures
            final(self).wf(),
            final(self)@ == released(old(self)@, context@),
    {
        if !context.owner.same(&self.owner) {
            return ;
        }
        let ghost start = self@;
        let ghost all = keys(context.reserved@);
        let ghost back = all.to_set().intersect(start.reserved);
        let mut i: usize = 0;
        assert(start.available.union(all.take(0).to_set().intersect(start.reserved))
            =~= start.available);
        while i < context.reserved.len()
            invariant
                i <= context.reserved@.len(),
                all == keys(context.reserved@),
                start == old(self)@,
                self.manifest == old(self).manifest,
                self.snapshots == old(self).snapshots,
                self.chosen == old(self).chosen,
                self.summaries == old(self).summaries,
                self.structure == old(self).structure,
                self.owner == old(self).owner,
                self.reserved@ == old(self).reserved@,
                keys(self.available@).no_duplicates(),
                keys(self.available@).to_set() == start.available.union(
                    all.take(i as int).to_set().intersect(start.reserved),
                ),
            decreases context.reserved@.len() - i,
        {
            let key = context.reserved[i].copy();
            let ghost item = key@;
            assert(all[i as int] == item);
            let ghost free = keys(self.available@);
            let held = find_key(self.reserved.as_slice(), &key).is_some();
            assert(held == start.reserved.contains(item));
            if held && find_key(self.available.as_slice(), &key).is_none() {
                self.available.push(key);
                assert(keys(self.available@) =~= free.push(item));
            }
            proof {
                lemma_key_pushed(free, item);
                lemma_key_pushed(all.take(i as int), item);
                assert(all.take(i + 1) =~= all.take(i as int).push(item));
                assert(free.contains(item) == free.to_set().contains(item));
                assert(keys(self.available@).to_set() =~= start.available.union(
                    all.take(i + 1).to_set().intersect(start.reserved),
                ));
            }
            i += 1;
        }
        assert(all.take(all.len() as int) =~= all);
        remove_keys(&mut self.reserved, context.reserved.as_slice());
        proof {
            assert(self@.available =~= start.available.union(back));
            assert(self@.reserved =~= start.reserved.difference(back));
            assert(self@.snapshots =~= old(self)@.snapshots);
        }
    }
}

/// A confirmation serves one transmission: after the handoff of a context, none of its
/// confirmations is left.
pub proof fn handoff_uses_confirmations_up(c: CompilerModel, context: CompiledModel, key: KeyModel)
    requires
        handoff_error(c, context) is None,
        context.reserved.contains(key),
        c.available.disjoint(c.reserved),
    ensures
        ({
            let after = CompilerModel {
                reserved: c.reserved.difference(context.reserved.to_set()),
                ..c
            };
            !after.reserved.contains(key) && !after.available.contains(key)
        }),
{
    let i = choose|i: int| 0 <= i < context.reserved.len() && context.reserved[i] == key;
    assert(c.reserved.contains(context.reserved[i]));
}

/// A context that is compiled and released leaves all confirmations as they were.
pub proof fn release_undoes_compile(c: CompilerModel, request: ContextRequest)
    requires
        compile_result(c, request) is Ok,
        c.available.disjoint(c.reserved),
        compile_result(c, request)->Ok_0.reserved.to_set().subset_of(c.available),
    ensures
        ({
            let context = compile_result(c, request)->Ok_0;
            let after = CompilerModel {
                available: c.available.difference(context.reserved.to_set()),
                reserved: c.reserved.union(context.reserved.to_set()),
                ..c
            };
            released(after, context) == c
        }),
{
    let context = compile_result(c, request)->Ok_0;
    let taken = context.reserved.to_set();
    let after = CompilerModel {
        available: c.available.difference(taken),
        reserved: c.reserved.union(taken),
        ..c
    };
    let r = released(after, context);
    assert(r.available =~= c.available);
    assert(r.reserved =~= c.reserved);
}

/// A selection counts the bytes of its text.
proof fn lemma_used_is_size(
    c: CompilerModel,
    order: Seq<int>,
    k: int,
    s: Selection,
    budget: u64,
    t: Selection,
)
    requires
        select_from(c, order, k, s, budget) == SelectionStep::Continue(t),
        s.used == utf8(s.context).len(),
        s.used <= budget,
    ensures
        t.used == utf8(t.context).len(),
        t.used <= budget,
    decreases order.len() - k,
{
    if 0 <= k < order.len() {
        let i = order[k];
        let next = select_step(c, s, i, budget)->Continue_0;
        let raw = source_block(c.entries[i].source_id, c.snapshots[i]->Some_0.content);
        let short = source_block(
            c.entries[i].source_id,
            current_summary(c.summaries, c.entries[i], c.snapshots[i]->Some_0)->Some_0.text,
        );
        lemma_utf8_concat(s.context, raw);
        lemma_utf8_concat(s.context, short);
        assert(next.used == utf8(next.context).len() && next.used <= budget);
        lemma_used_is_size(c, order, k + 1, next, budget, t);
    }
}

/// A context that was compiled and handed over by the same compiler comes apart into the text that
/// was compiled, of as many bytes as its estimate says, and a receipt; both bear its digest.
pub proof fn handed_over_parts_fit(c: CompilerModel, request: ContextRequest, later: CompilerModel)
    requires
        compile_result(c, request) is Ok,
        handoff_error(later, compile_result(c, request)->Ok_0) is None,
    ensures
        ({
            let context = compile_result(c, request)->Ok_0;
            let sent = transmitted(context);
            &&& sent.sha256 == context.sha256
            &&& digest_text(utf8(sent.text)) == sent.sha256
            &&& sent.receipt.context_sha256 == Some(sent.sha256)
            &&& utf8(sent.text).len() == context.estimated_tokens
        }),
{
    let targets = ancestry(c, request.target@)->Ok_0;
    let list = applicable(c.entries, targets, request.role@);
    let order = selection_order(c.entries, list);
    let first = initial_selection(c);
    let last = select_from(c, order, 0, first, request.budget_tokens)->Continue_0;
    lemma_used_is_size(c, order, 0, first, request.budget_tokens, last);
}

/// A context that was just compiled is not refused at the handoff.
pub proof fn compiled_context_is_handed_over(c: CompilerModel, request: ContextRequest)
    requires
        compile_result(c, request) is Ok,
    ensures
        ({
            let context = compile_result(c, request)->Ok_0;
            handoff_error(
                CompilerModel {
                    available: c.available.difference(context.reserved.to_set()),
                    reserved: c.reserved.union(context.reserved.to_set()),
                    ..c
                },
                context,
            ) is None
        }),
{
    let context = compile_result(c, request)->Ok_0;
    assert forall|i: int| 0 <= i < context.reserved.len() implies c.reserved.union(
        context.reserved.to_set(),
    ).contains(#[trigger] context.reserved[i]) by {
        assert(context.reserved.contains(context.reserved[i]));
    }
}

/// Whether a summary does not stand for a source: of another digest, empty, of no range of its
/// text, or of a secret source.
pub open spec fn is_stale(summary: SummaryModel, entry: EntryModel, snapshot: SnapshotModel) -> bool {
    ||| snapshot.secret
    ||| summary.source_sha256 != entry.expected_sha256
    ||| summary.text.len() == 0
    ||| summary.source_range.start >= summary.source_range.end
    ||| !range_fits(summary.source_range, snapshot.content)
}

proof fn lemma_filtered_in_range(list: Seq<int>, keep: spec_fn(int) -> bool, n: int)
    requires
        forall|j: int| 0 <= j < list.len() ==> 0 <= #[trigger] list[j] < n,
    ensures
        forall|j: int| 0 <= j < list.filter(keep).len() ==> 0 <= #[trigger] list.filter(keep)[j] < n,
{
    let kept = list.filter(keep);
    assert forall|j: int| 0 <= j < kept.len() implies 0 <= #[trigger] kept[j] < n by {
        list.lemma_filter_contains_rev(keep, kept[j]);
        let i = choose|i: int| 0 <= i < list.len() && list[i] == kept[j];
        assert(0 <= list[i] < n);
    }
}

/// The sources that are selected are sources of the compiler.
proof fn lemma_order_in_range(entries: Seq<EntryModel>, targets: Seq<Seq<char>>, role: Seq<char>)
    ensures
        ({
            let order = selection_order(entries, applicable(entries, targets, role));
            forall|j: int| 0 <= j < order.len() ==> 0 <= #[trigger] order[j] < entries.len()
        }),
{
    let n = entries.len() as int;
    let every = Seq::new(entries.len(), |i: int| i);
    let fits = |i: int| scope_applies(entries[i].scope, targets, role);
    let inside = |i: int| 0 <= i < n;
    lemma_filtered_in_range(every, fits, n);
    let list = applicable(entries, targets, role);
    lemma_ordered_keeps(every.filter(fits), by_source_id(entries), inside);
    assert forall|j: int| 0 <= j < list.len() implies 0 <= #[trigger] list[j] < n by {
        assert(inside(list[j]));
    }
    lemma_filtered_in_range(list, |i: int| entries[i].tier == SourceTier::RequiredRaw, n);
    lemma_filtered_in_range(list, |i: int| entries[i].tier == SourceTier::Compactable, n);
    lemma_filtered_in_range(list, |i: int| entries[i].tier == SourceTier::Optional, n);
    let a = of_tier(entries, list, SourceTier::RequiredRaw);
    let b = of_tier(entries, list, SourceTier::Compactable);
    let c = of_tier(entries, list, SourceTier::Optional);
    let order = a + b + c;
    assert forall|j: int| 0 <= j < order.len() implies 0 <= #[trigger] order[j] < n by {
        if j < a.len() {
            assert(order[j] == a[j]);
        } else if j < a.len() + b.len() {
            assert(order[j] == b[j - a.len()]);
        } else {
            assert(order[j] == c[j - a.len() - b.len()]);
        }
    }
}

proof fn lemma_same_selection(
    a: CompilerModel,
    b: CompilerModel,
    order: Seq<int>,
    k: int,
    s: Selection,
    budget: u64,
)
    requires
        0 <= k,
        forall|j: int| k <= j < order.len() ==> 0 <= #[trigger] order[j] < a.entries.len(),
        forall|i: int, t: Selection|
            0 <= i < a.entries.len() ==> #[trigger] select_step(a, t, i, budget) == select_step(
                b,
                t,
                i,
                budget,
            ),
    ensures
        select_from(a, order, k, s, budget) == select_from(b, order, k, s, budget),
    decreases order.len() - k,
{
    if k < order.len() {
        match select_step(a, s, order[k], budget) {
            SelectionStep::Stop(_, _) => {},
            SelectionStep::Continue(t) => {
                lemma_same_selection(a, b, order, k + 1, t, budget);
            },
        }
    }
}

/// A stale summary counts as a missing one: with it, a compiler that has no other summary of that
/// source compiles every request as without it.
pub proof fn stale_summary_is_a_missing_one(
    c: CompilerModel,
    summary: SummaryModel,
    request: ContextRequest,
)
    requires
        c.snapshots.len() == c.entries.len(),
        summary_for(c.summaries, summary.source_id) is None,
        forall|i: int|
            0 <= i < c.entries.len() && (#[trigger] c.entries[i]).source_id == summary.source_id
                && c.snapshots[i] is Some ==> is_stale(
                summary,
                c.entries[i],
                c.snapshots[i]->Some_0,
            ),
    ensures
        compile_result(
            CompilerModel { summaries: c.summaries.push(summary), ..c },
            request,
        ) == compile_result(c, request),
{
    let d = CompilerModel { summaries: c.summaries.push(summary), ..c };
    assert(d.summaries.drop_last() =~= c.summaries);
    let budget = request.budget_tokens;
    assert forall|i: int, t: Selection| 0 <= i < c.entries.len() implies #[trigger] select_step(
        c,
        t,
        i,
        budget,
    ) == select_step(d, t, i, budget) by {
        if c.snapshots[i] is Some {
            let shot = c.snapshots[i]->Some_0;
            assert(current_summary(d.summaries, c.entries[i], shot) == current_summary(
                c.summaries,
                c.entries[i],
                shot,
            ));
        }
    }
    assert(ancestry(d, request.target@) == ancestry(c, request.target@));
    if let Ok(targets) = ancestry(c, request.target@) {
        let list = applicable(c.entries, targets, request.role@);
        let order = selection_order(c.entries, list);
        lemma_order_in_range(c.entries, targets, request.role@);
        lemma_same_selection(c, d, order, 0, initial_selection(c), budget);
    }
}

/// Whether a receipt entry is about a source.
pub open spec fn line_covers(line: ReceiptLine, entry: EntryModel) -> bool {
    match line {
        ReceiptLine::Source { source_id, source_sha256, .. } => !entry.snapshot.ephemeral
            && source_id == entry.source_id && source_sha256 == entry.expected_sha256,
        ReceiptLine::Secret { source_sha256, key, .. } => entry.snapshot.ephemeral
            && source_sha256 == entry.expected_sha256 && key == Some(entry_key(entry)),
    }
}

/// A source that is selected, or left out, gets one receipt entry, and the budget holds.
proof fn lemma_step_adds_line(c: CompilerModel, s: Selection, i: int, budget: u64, t: Selection)
    requires
        select_step(c, s, i, budget) == SelectionStep::Continue(t),
        s.used <= budget,
    ensures
        t.lines.len() == s.lines.len() + 1,
        t.lines.drop_last() == s.lines,
        line_covers(t.lines.last(), c.entries[i]),
        t.used <= budget,
        c.entries[i].tier == SourceTier::RequiredRaw ==> c.snapshots[i] is Some && t.context
            == s.context + source_block(
            c.entries[i].source_id,
            c.snapshots[i]->Some_0.content,
        ),
        t.context.len() >= s.context.len() && t.context.take(s.context.len() as int) == s.context,
{
    assert(t.lines.drop_last() =~= s.lines);
    assert(t.context.take(s.context.len() as int) =~= s.context);
}

/// Every source that applies is recorded: a context that was compiled has one receipt entry for
/// each of them, in the order of selection, and stays within its budget.
pub proof fn every_source_is_recorded(
    c: CompilerModel,
    order: Seq<int>,
    k: int,
    s: Selection,
    budget: u64,
    t: Selection,
)
    requires
        select_from(c, order, k, s, budget) == SelectionStep::Continue(t),
        0 <= k <= order.len(),
        s.lines.len() == k,
        s.used <= budget,
        forall|j: int| 0 <= j < k ==> line_covers(#[trigger] s.lines[j], c.entries[order[j]]),
    ensures
        t.lines.len() == order.len(),
        t.used <= budget,
        forall|j: int| 0 <= j < order.len() ==> line_covers(#[trigger] t.lines[j], c.entries[order[j]]),
    decreases order.len() - k,
{
    if k < order.len() {
        let step = select_step(c, s, order[k], budget);
        match step {
            SelectionStep::Stop(message, u) => {},
            SelectionStep::Continue(u) => {
                lemma_step_adds_line(c, s, order[k], budget, u);
                assert forall|j: int| 0 <= j < k + 1 implies line_covers(
                    #[trigger] u.lines[j],
                    c.entries[order[j]],
                ) by {
                    if j < k {
                        assert(u.lines.drop_last()[j] == s.lines[j]);
                    }
                }
                every_source_is_recorded(c, order, k + 1, u, budget, t);
            },
        }
    }
}

/// A required source is never left out or cut: a context that was compiled holds it as a whole.
pub proof fn required_source_is_whole(
    c: CompilerModel,
    order: Seq<int>,
    k: int,
    s: Selection,
    budget: u64,
    t: Selection,
    j: int,
)
    requires
        select_from(c, order, k, s, budget) == SelectionStep::Continue(t),
        0 <= k <= j < order.len(),
        s.used <= budget,
        c.entries[order[j]].tier == SourceTier::RequiredRaw,
    ensures
        c.snapshots[order[j]] is Some,
        exists|at: int|
            0 <= at && at + source_block(
                c.entries[order[j]].source_id,
                c.snapshots[order[j]]->Some_0.content,
            ).len() <= t.context.len() && #[trigger] t.context.subrange(
                at,
                at + source_block(
                    c.entries[order[j]].source_id,
                    c.snapshots[order[j]]->Some_0.content,
                ).len(),
            ) == source_block(
                c.entries[order[j]].source_id,
                c.snapshots[order[j]]->Some_0.content,
            ),
    decreases order.len() - k,
{
    match select_step(c, s, order[k], budget) {
        SelectionStep::Stop(message, u) => {},
        SelectionStep::Continue(u) => {
            lemma_step_adds_line(c, s, order[k], budget, u);
            if k < j {
                required_source_is_whole(c, order, k + 1, u, budget, t, j);
            } else {
                let block = source_block(
                    c.entries[order[j]].source_id,
                    c.snapshots[order[j]]->Some_0.content,
                );
                lemma_context_grows(c, order, k + 1, u, budget, t);
                let at = s.context.len() as int;
                assert(u.context == s.context + block);
                assert(t.context.subrange(at, at + block.len()) =~= block) by {
                    assert forall|x: int| 0 <= x < block.len() implies t.context[at + x]
                        == block[x] by {
                        assert(t.context.take(u.context.len() as int)[at + x] == u.context[at + x]);
                    }
                }
            }
        },
    }
}

proof fn lemma_context_grows(
    c: CompilerModel,
    order: Seq<int>,
    k: int,
    s: Selection,
    budget: u64,
    t: Selection,
)
    requires
        select_from(c, order, k, s, budget) == SelectionStep::Continue(t),
        0 <= k <= order.len(),
        s.used <= budget,
    ensures
        t.context.len() >= s.context.len(),
        t.context.take(s.context.len() as int) == s.context,
    decreases order.len() - k,
{
    if k < order.len() {
        match select_step(c, s, order[k], budget) {
            SelectionStep::Stop(message, u) => {},
            SelectionStep::Continue(u) => {
                lemma_step_adds_line(c, s, order[k], budget, u);
                lemma_context_grows(c, order, k + 1, u, budget, t);
                assert(t.context.take(s.context.len() as int) =~= t.context.take(
                    u.context.len() as int,
                ).take(s.context.len() as int));
            },
        }
    } else {
        assert(t.context.take(s.context.len() as int) =~= s.context);
    }
}

/// A compilation that stops still accounts for every source that is not secret: the completed
/// receipt names each of them.
pub proof fn stopped_receipt_names_every_source(
    entries: Seq<EntryModel>,
    order: Seq<int>,
    k: int,
    names: Seq<Seq<char>>,
    digests: Seq<Seq<char>>,
    list: Seq<ReceiptLine>,
    message: Seq<char>,
    j: int,
)
    requires
        0 <= k <= order.len(),
        forall|x: Seq<char>| names.contains(x) ==> #[trigger] named_sources(list).contains(x),
        k <= j < order.len(),
        !entries[order[j]].snapshot.ephemeral,
    ensures
        named_sources(accounted(entries, order, k, names, digests, list, message)).contains(
            entries[order[j]].source_id,
        ),
    decreases order.len() - k,
{
    let entry = entries[order[k]];
    let id = entry.source_id;
    if entry.snapshot.ephemeral {
        if position(digests, entry.expected_sha256, 0) is Some {
            stopped_receipt_names_every_source(
                entries,
                order,
                k + 1,
                names,
                without_first(digests, entry.expected_sha256),
                list,
                message,
                j,
            );
        } else {
            let next = list.push(unreached_line(entry, message));
            assert(next.drop_last() =~= list);
            assert(next.last() == unreached_line(entry, message));
            assert(named_sources(next) =~= named_sources(list));
            stopped_receipt_names_every_source(
                entries,
                order,
                k + 1,
                names,
                digests,
                next,
                message,
                j,
            );
        }
    } else if position(names, id, 0) is Some {
        lemma_position(names, id, 0);
        let rest = without_first(names, id);
        assert forall|x: Seq<char>| rest.contains(x) implies #[trigger] named_sources(
            list,
        ).contains(x) by {
            let at = position(names, id, 0)->Some_0;
            let w = choose|w: int| 0 <= w < rest.len() && rest[w] == x;
            if w < at {
                assert(names[w] == x);
            } else {
                assert(names[w + 1] == x);
            }
            assert(names.contains(x));
        }
        if j == k {
            assert(names.contains(id));
            assert(named_sources(list).contains(id));
            lemma_accounted_keeps(entries, order, k + 1, rest, digests, list, message, id);
        } else {
            stopped_receipt_names_every_source(
                entries,
                order,
                k + 1,
                rest,
                digests,
                list,
                message,
                j,
            );
        }
    } else {
        let next = list.push(unreached_line(entry, message));
        assert(next.drop_last() =~= list);
        let named = named_sources(list);
        assert(named_sources(next) == named.push(id));
        assert forall|x: Seq<char>| names.contains(x) implies #[trigger] named_sources(
            next,
        ).contains(x) by {
            assert(named_sources(list).contains(x));
            let w = choose|w: int| 0 <= w < named.len() && named[w] == x;
            assert(named_sources(next)[w] == x);
        }
        if j == k {
            assert(named_sources(next)[named.len() as int] == id);
            assert(named_sources(next).contains(id));
            lemma_accounted_keeps(entries, order, k + 1, names, digests, next, message, id);
        } else {
            stopped_receipt_names_every_source(
                entries,
                order,
                k + 1,
                names,
                digests,
                next,
                message,
                j,
            );
        }
    }
}

proof fn lemma_position(list: Seq<Seq<char>>, text: Seq<char>, i: int)
    requires
        0 <= i,
        position(list, text, i) is Some,
    ensures
        i <= position(list, text, i)->Some_0 < list.len(),
        list[position(list, text, i)->Some_0] == text,
    decreases list.len() - i,
{
    if i < list.len() && list[i] != text {
        lemma_position(list, text, i + 1);
    }
}

proof fn lemma_accounted_keeps(
    entries: Seq<EntryModel>,
    order: Seq<int>,
    k: int,
    names: Seq<Seq<char>>,
    digests: Seq<Seq<char>>,
    list: Seq<ReceiptLine>,
    message: Seq<char>,
    id: Seq<char>,
)
    requires
        0 <= k <= order.len(),
        named_sources(list).contains(id),
    ensures
        named_sources(accounted(entries, order, k, names, digests, list, message)).contains(id),
    decreases order.len() - k,
{
    if k < order.len() {
        let entry = entries[order[k]];
        let next = list.push(unreached_line(entry, message));
        assert(next.drop_last() =~= list);
        let named = named_sources(list);
        let w = choose|w: int| 0 <= w < named.len() && named[w] == id;
        assert(named_sources(next)[w] == id);
        assert(named_sources(next).contains(id));
        if entry.snapshot.ephemeral {
            if position(digests, entry.expected_sha256, 0) is Some {
                lemma_accounted_keeps(
                    entries,
                    order,
                    k + 1,
                    names,
                    without_first(digests, entry.expected_sha256),
                    list,
                    message,
                    id,
                );
            } else {
                lemma_accounted_keeps(entries, order, k + 1, names, digests, next, message, id);
            }
        } else if position(names, entry.source_id, 0) is Some {
            lemma_accounted_keeps(
                entries,
                order,
                k + 1,
                without_first(names, entry.source_id),
                digests,
                list,
                message,
                id,
            );
        } else {
            lemma_accounted_keeps(entries, order, k + 1, names, digests, next, message, id);
        }
    }
}

} // verus!
