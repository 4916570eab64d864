//! Session journals and checkpoints.
use vstd::prelude::*;
use vstd::string::StringExecFns;
use crate::changeset::ChangesetState;
use crate::cost::{MicroDollars, Usage};
use crate::domain::{ids, EntityId};
use crate::hash::{digest_text, sha256_bytes, sha256_text};
use crate::json::{lemma_json_one_line, json_array, json_id_array, json_ids, json_list, json_quote, json_string};

use crate::text::{lemma_decimal_one_line, lemma_one_line_bytes, one_line, concat3, decimal, decimal_text, texts, utf8};

verus! {

/// Tokens of the raw tail that a compaction keeps.
pub const PRESERVED_RAW_TAIL_TOKENS: u64 = 15_000;

/// Tokens that are kept free for the answer at least.
pub const MINIMUM_OUTPUT_RESERVE_TOKENS: u64 = 20_000;

/// A checkpoint was put in place, but it is unknown whether that is durable.
#[derive(Debug)]
pub struct CheckpointDurabilityUnknown {
    checkpoint_path: String,
    source: String,
}

impl View for CheckpointDurabilityUnknown {
    type V = (Seq<char>, Seq<char>);

    closed spec fn view(&self) -> (Seq<char>, Seq<char>) {
        (self.checkpoint_path@, self.source@)
    }
}

impl CheckpointDurabilityUnknown {
    /// Records a failure after the checkpoint was renamed.
    pub fn after_rename(checkpoint_path: String, source: String) -> (r: CheckpointDurabilityUnknown)
        ensures
            r@ == (checkpoint_path@, source@),
    {
        CheckpointDurabilityUnknown { checkpoint_path, source }
    }

    /// Returns the path of the checkpoint.
    pub fn checkpoint_path(&self) -> (r: &str)
        ensures
            r@ == self@.0,
    {
        self.checkpoint_path.as_str()
    }

    /// Returns the message.
    pub fn to_text(&self) -> (r: String)
        ensures
            r@ == "checkpoint "@ + self@.0
                + " was renamed but directory durability is unknown: "@ + self@.1,
    {
        let mut out = concat3(
            "checkpoint ",
            self.checkpoint_path.as_str(),
            " was renamed but directory durability is unknown: ",
        );
        out.append(self.source.as_str());
        out
    }
}

/// Where a test interrupts the writing of a checkpoint.
#[derive(Clone, Copy, Debug, PartialEq, Eq, Structural)]
pub enum TestCheckpointInterruption {
    /// Behind the rename, before the directory is made durable.
    AfterRenameBeforeDirectorySync,
}

/// An event of a session.
#[derive(Debug)]
pub enum SessionEvent {
    /// A human gave an instruction.
    UserInstruction { text: String },
    /// A request was sent to a model.
    ModelCallStarted { request_id: EntityId, context_hash: String },
    /// A model answered.
    ModelCallCompleted { request_id: EntityId, usage: Usage },
    /// It is unknown whether a request was carried out.
    ModelCallAmbiguous { request_id: EntityId, reserved_cost: MicroDollars },
    /// A changeset changed its state.
    ChangesetStateChanged { id: EntityId, state: ChangesetState },
    /// A context was started anew.
    ContextEpochChanged { model: String, checkpoint_hash: String },
    /// A human resolved a finding.
    FindingResolved { finding_id: EntityId, reason_hash: String },
    /// A human's correction became a rule.
    CorrectionAccepted { rule_id: EntityId, source_chapter: String, hash: String },
}

/// The name of a changeset state in JSON.
pub open spec fn state_name(state: ChangesetState) -> Seq<char> {
    match state {
        ChangesetState::Candidate => "candidate"@,
        ChangesetState::Reviewing => "reviewing"@,
        ChangesetState::Revising => "revising"@,
        ChangesetState::Approvable => "approvable"@,
        ChangesetState::Approved => "approved"@,
        ChangesetState::Rejected => "rejected"@,
        ChangesetState::Stale => "stale"@,
        ChangesetState::Incomplete => "incomplete"@,
        ChangesetState::NeedsRevalidation => "needs-revalidation"@,
    }
}

fn state_str(state: ChangesetState) -> (r: &'static str)
    ensures
        r@ == state_name(state),
{
    match state {
        ChangesetState::Candidate => "candidate",
        ChangesetState::Reviewing => "reviewing",
        ChangesetState::Revising => "revising",
        ChangesetState::Approvable => "approvable",
        ChangesetState::Approved => "approved",
        ChangesetState::Rejected => "rejected",
        ChangesetState::Stale => "stale",
        ChangesetState::Incomplete => "incomplete",
        ChangesetState::NeedsRevalidation => "needs-revalidation",
    }
}

/// The JSON object of an event.
pub open spec fn event_json(event: SessionEvent) -> Seq<char> {
    match event {
        SessionEvent::UserInstruction { text } => "{\"event\":\"user-instruction\",\"text\":"@
            + json_string(text@) + "}"@,
        SessionEvent::ModelCallStarted { request_id, context_hash } =>
        "{\"event\":\"model-call-started\",\"request_id\":"@ + json_string(request_id@)
            + ",\"context_hash\":"@ + json_string(context_hash@) + "}"@,
        SessionEvent::ModelCallCompleted { request_id, usage } =>
        "{\"event\":\"model-call-completed\",\"request_id\":"@ + json_string(request_id@)
            + ",\"usage\":{\"input_tokens\":"@ + decimal(usage.input_tokens as nat)
            + ",\"output_tokens\":"@ + decimal(usage.output_tokens as nat) + "}}"@,
        SessionEvent::ModelCallAmbiguous { request_id, reserved_cost } =>
        "{\"event\":\"model-call-ambiguous\",\"request_id\":"@ + json_string(request_id@)
            + ",\"reserved_cost\":"@ + decimal(reserved_cost@ as nat) + "}"@,
        SessionEvent::ChangesetStateChanged { id, state } =>
        "{\"event\":\"changeset-state-changed\",\"id\":"@ + json_string(id@) + ",\"state\":"@
            + json_string(state_name(state)) + "}"@,
        SessionEvent::ContextEpochChanged { model, checkpoint_hash } =>
        "{\"event\":\"context-epoch-changed\",\"model\":"@ + json_string(model@)
            + ",\"checkpoint_hash\":"@ + json_string(checkpoint_hash@) + "}"@,
        SessionEvent::FindingResolved { finding_id, reason_hash } =>
        "{\"event\":\"finding-resolved\",\"finding_id\":"@ + json_string(finding_id@)
            + ",\"reason_hash\":"@ + json_string(reason_hash@) + "}"@,
        SessionEvent::CorrectionAccepted { rule_id, source_chapter, hash } =>
        "{\"event\":\"correction-accepted\",\"rule_id\":"@ + json_string(rule_id@)
            + ",\"source_chapter\":"@ + json_string(source_chapter@) + ",\"hash\":"@ + json_string(
            hash@,
        ) + "}"@,
    }
}

fn two_fields(head: &str, first: &str, middle: &str, second: &str) -> (r: String)
    ensures
        r@ == head@ + first@ + middle@ + second@ + "}"@,
{
    let mut out = concat3(head, first, middle);
    out.append(second);
    out.append("}");
    out
}

impl SessionEvent {
    /// Returns the JSON object of the event.
    pub fn to_json(&self) -> (r: String)
        ensures
            r@ == event_json(*self),
    {
        match self {
            SessionEvent::UserInstruction { text } => concat3(
                "{\"event\":\"user-instruction\",\"text\":",
                json_quote(text.as_str()).as_str(),
                "}",
            ),
            SessionEvent::ModelCallStarted { request_id, context_hash } => two_fields(
                "{\"event\":\"model-call-started\",\"request_id\":",
                json_quote(request_id.as_str()).as_str(),
                ",\"context_hash\":",
                json_quote(context_hash.as_str()).as_str(),
            ),
            SessionEvent::ModelCallCompleted { request_id, usage } => {
                let mut out = "{\"event\":\"model-call-completed\",\"request_id\":".to_owned();
                out.append(json_quote(request_id.as_str()).as_str());
                out.append(",\"usage\":{\"input_tokens\":");
                out.append(decimal_text(usage.input_tokens).as_str());
                out.append(",\"output_tokens\":");
                out.append(decimal_text(usage.output_tokens).as_str());
                out.append("}}");
                out
            },
            SessionEvent::ModelCallAmbiguous { request_id, reserved_cost } => two_fields(
                "{\"event\":\"model-call-ambiguous\",\"request_id\":",
                json_quote(request_id.as_str()).as_str(),
                ",\"reserved_cost\":",
                decimal_text(reserved_cost.as_u64()).as_str(),
            ),
            SessionEvent::ChangesetStateChanged { id, state } => two_fields(
                "{\"event\":\"changeset-state-changed\",\"id\":",
                json_quote(id.as_str()).as_str(),
                ",\"state\":",
                json_quote(state_str(*state)).as_str(),
            ),
            SessionEvent::ContextEpochChanged { model, checkpoint_hash } => two_fields(
                "{\"event\":\"context-epoch-changed\",\"model\":",
                json_quote(model.as_str()).as_str(),
                ",\"checkpoint_hash\":",
                json_quote(checkpoint_hash.as_str()).as_str(),
            ),
            SessionEvent::FindingResolved { finding_id, reason_hash } => two_fields(
                "{\"event\":\"finding-resolved\",\"finding_id\":",
                json_quote(finding_id.as_str()).as_str(),
                ",\"reason_hash\":",
                json_quote(reason_hash.as_str()).as_str(),
            ),
            SessionEvent::CorrectionAccepted { rule_id, source_chapter, hash } => {
                let mut out = "{\"event\":\"correction-accepted\",\"rule_id\":".to_owned();
                out.append(json_quote(rule_id.as_str()).as_str());
                out.append(",\"source_chapter\":");
                out.append(json_quote(source_chapter.as_str()).as_str());
                out.append(",\"hash\":");
                out.append(json_quote(hash.as_str()).as_str());
                out.append("}");
                out
            },
        }
    }
}

/// Whether a context must be compacted, and how much of its tail stays.
#[derive(Clone, Copy, Debug, PartialEq, Eq, Structural)]
pub struct CompactionDecision {
    /// Whether compaction is required.
    pub required: bool,
    /// Tokens of the raw tail that stay.
    pub preserve_recent_tokens: u64,
}

/// The tokens that are kept free for the answer.
pub open spec fn output_reserve(requested_output_tokens: u64) -> u64 {
    if requested_output_tokens > MINIMUM_OUTPUT_RESERVE_TOKENS {
        requested_output_tokens
    } else {
        MINIMUM_OUTPUT_RESERVE_TOKENS
    }
}

impl CompactionDecision {
    /// Decides whether the next input fits beside the answer in a model's context.
    pub fn for_usage(
        estimated_next_input_tokens: u64,
        model_context_tokens: u64,
        requested_output_tokens: u64,
    ) -> (r: CompactionDecision)
        ensures
            r.required == (estimated_next_input_tokens + output_reserve(requested_output_tokens)
                > model_context_tokens),
            r.preserve_recent_tokens == PRESERVED_RAW_TAIL_TOKENS,
    {
        let reserve: u64 = if requested_output_tokens > MINIMUM_OUTPUT_RESERVE_TOKENS {
            requested_output_tokens
        } else {
            MINIMUM_OUTPUT_RESERVE_TOKENS
        };
        CompactionDecision {
            required: model_context_tokens < reserve || estimated_next_input_tokens
                > model_context_tokens - reserve,
            preserve_recent_tokens: PRESERVED_RAW_TAIL_TOKENS,
        }
    }
}

/// A context that was started anew.
#[derive(Debug, PartialEq, Eq)]
pub struct ContextEpoch {
    /// Model.
    pub model: String,
    /// Digest of the checkpoint it started from.
    pub checkpoint_hash: String,
}

/// The facts that a session can be continued from.
#[derive(Debug)]
pub struct Checkpoint {
    /// Offset of the last event.
    pub last_event_offset: u64,
    /// Digest of the last event.
    pub last_event_sha256: String,
    /// Contexts.
    pub context_epochs: Vec<ContextEpoch>,
    /// Tokens of the raw tail that stay.
    pub recent_raw_tail_tokens: u64,
    /// Digests of canon facts.
    pub canon_fact_hashes: Vec<String>,
    /// Digests of sources.
    pub source_hashes: Vec<String>,
    /// Corrections.
    pub correction_ids: Vec<EntityId>,
    /// Findings that block.
    pub blocker_ids: Vec<EntityId>,
    /// Changesets that need revalidation.
    pub stale_changeset_ids: Vec<EntityId>,
    /// Cost so far.
    pub cost: MicroDollars,
}

impl Checkpoint {
    /// Builds a checkpoint that is anchored at the last event of a journal.
    pub fn from_journal(
        journal: &SessionJournal,
        context_epochs: Vec<ContextEpoch>,
        canon_fact_hashes: Vec<String>,
        source_hashes: Vec<String>,
        correction_ids: Vec<EntityId>,
        blocker_ids: Vec<EntityId>,
        stale_changeset_ids: Vec<EntityId>,
        cost: MicroDollars,
    ) -> (r: Result<Checkpoint, String>)
        ensures
            match journal.anchor() {
                None => r is Err && r->Err_0@ == "cannot checkpoint an empty session journal"@,
                Some((offset, digest)) => {
                    &&& r is Ok
                    &&& r->Ok_0.last_event_offset == offset
                    &&& r->Ok_0.last_event_sha256@ == digest
                    &&& r->Ok_0.context_epochs == context_epochs
                    &&& r->Ok_0.recent_raw_tail_tokens == PRESERVED_RAW_TAIL_TOKENS
                    &&& r->Ok_0.canon_fact_hashes == canon_fact_hashes
                    &&& r->Ok_0.source_hashes == source_hashes
                    &&& r->Ok_0.correction_ids == correction_ids
                    &&& r->Ok_0.blocker_ids == blocker_ids
                    &&& r->Ok_0.stale_changeset_ids == stale_changeset_ids
                    &&& r->Ok_0.cost == cost
                },
            },
    {
        match &journal.last_event {
            None => Err("cannot checkpoint an empty session journal".to_owned()),
            Some(event) => Ok(
                Checkpoint {
                    last_event_offset: event.0,
                    last_event_sha256: event.1.clone(),
                    context_epochs,
                    recent_raw_tail_tokens: PRESERVED_RAW_TAIL_TOKENS,
                    canon_fact_hashes,
                    source_hashes,
                    correction_ids,
                    blocker_ids,
                    stale_changeset_ids,
                    cost,
                },
            ),
        }
    }
}

/// Offset and digest of an event.
pub type Anchor = Option<(u64, Seq<char>)>;

/// The view of an offset and a digest.
pub open spec fn anchor_of(item: Option<(u64, String)>) -> Anchor {
    match item {
        Some((offset, digest)) => Some((offset, digest@)),
        None => None,
    }
}

/// One stored event: its offset and its JSON text.
#[derive(Debug)]
pub struct JournalLine {
    /// Offset in the file.
    pub offset: u64,
    /// JSON text without the line end.
    pub json: Vec<u8>,
}

/// Offset and text of stored events.
pub open spec fn line_models(items: Seq<JournalLine>) -> Seq<(int, Seq<u8>)> {
    items.map_values(|item: JournalLine| (item.offset as int, item.json@))
}

/// The complete lines of a journal file from an offset on, and the length up to the last line
/// end.
pub open spec fn journal_lines(bytes: Seq<u8>, from: int, lines: Seq<(int, Seq<u8>)>) -> (
    Seq<(int, Seq<u8>)>,
    int,
)
    decreases bytes.len() - from,
    when 0 <= from
{
    match crate::project::line_end_from(bytes, from) {
        None => (lines, from),
        Some(end) => if from < end <= bytes.len() {
            journal_lines(bytes, end, lines.push((from, bytes.subrange(from, end - 1))))
        } else {
            (lines, from)
        },
    }
}

/// The complete lines of a journal file and the length up to the last line end: what follows it
/// is cut off.
#[derive(Debug)]
pub struct JournalScan {
    /// Stored events.
    pub lines: Vec<JournalLine>,
    /// Length of the complete lines.
    pub complete_len: usize,
}

/// Splits a journal file into its complete lines.
pub fn scan_journal(bytes: &[u8]) -> (r: JournalScan)
    ensures
        (line_models(r.lines@), r.complete_len as int) == journal_lines(bytes@, 0, Seq::empty()),
        r.complete_len <= bytes@.len(),
{
    let n: usize = bytes.len();
    let mut lines: Vec<JournalLine> = Vec::new();
    let mut from: usize = 0;
    let ghost goal = journal_lines(bytes@, 0, Seq::empty());
    assert(line_models(lines@) =~= Seq::<(int, Seq<u8>)>::empty());
    loop
        invariant
            from <= n,
            n == bytes@.len(),
            goal == journal_lines(bytes@, 0, Seq::empty()),
            goal == journal_lines(bytes@, from as int, line_models(lines@)),
        decreases n - from,
    {
        let mut i: usize = from;
        let mut json: Vec<u8> = Vec::new();
        while i < n && bytes[i] != 10
            invariant
                from <= i <= n,
                n == bytes@.len(),
                json@ == bytes@.subrange(from as int, i as int),
                crate::project::line_end_from(bytes@, from as int)
                    == crate::project::line_end_from(bytes@, i as int),
            decreases n - i,
        {
            json.push(bytes[i]);
            i += 1;
            assert(json@ =~= bytes@.subrange(from as int, i as int));
        }
        if i == n {
            return JournalScan { lines, complete_len: from };
        }
        let ghost before = line_models(lines@);
        let ghost item = (from as int, json@);
        lines.push(JournalLine { offset: from as u64, json });
        assert(line_models(lines@) =~= before.push(item));
        from = i + 1;
    }
}

/// Offset and digest of the last line of a scan.
pub open spec fn scan_anchor(lines: Seq<(int, Seq<u8>)>) -> Anchor {
    if lines.len() == 0 {
        None
    } else {
        Some((lines.last().0 as u64, digest_text(lines.last().1)))
    }
}

impl JournalScan {
    /// Returns offset and digest of the last event.
    pub fn last_event(&self) -> (r: Option<(u64, String)>)
        ensures
            anchor_of(r) == scan_anchor(line_models(self.lines@)),
    {
        let n: usize = self.lines.len();
        if n == 0 {
            return None;
        }
        let last = &self.lines[n - 1];
        assert(line_models(self.lines@).last() == (last.offset as int, last.json@));
        Some((last.offset, sha256_bytes(last.json.as_slice())))
    }
}

/// An append-only journal of events.
#[derive(Debug)]
pub struct SessionJournal {
    path: String,
    events: Vec<SessionEvent>,
    last_event: Option<(u64, String)>,
}

impl SessionJournal {
    /// The path of the journal.
    pub closed spec fn location(&self) -> Seq<char> {
        self.path@
    }

    /// The events of the journal.
    pub closed spec fn history(&self) -> Seq<SessionEvent> {
        self.events@
    }

    /// Offset and digest of the last event.
    pub closed spec fn anchor(&self) -> Anchor {
        anchor_of(self.last_event)
    }

    /// Starts an empty journal.
    pub fn create(path: String) -> (r: SessionJournal)
        ensures
            r.location() == path@,
            r.history().len() == 0,
            r.anchor() is None,
    {
        SessionJournal { path, events: Vec::new(), last_event: None }
    }

    /// Restores a journal from what its file holds and from the events that the lines denote.
    pub fn open(path: String, scan: &JournalScan, events: Vec<SessionEvent>) -> (r: SessionJournal)
        ensures
            r.location() == path@,
            r.history() == events@,
            r.anchor() == scan_anchor(line_models(scan.lines@)),
    {
        SessionJournal { path, events, last_event: scan.last_event() }
    }

    /// Returns the path of the journal.
    pub fn path(&self) -> (r: &str)
        ensures
            r@ == self.location(),
    {
        self.path.as_str()
    }

    /// Returns the events of the journal.
    pub fn events(&self) -> (r: &[SessionEvent])
        ensures
            r@ == self.history(),
    {
        self.events.as_slice()
    }

    /// Returns offset and digest of the last event.
    pub fn last_event(&self) -> (r: Option<(u64, &str)>)
        ensures
            self.anchor() == (match r {
                Some((offset, digest)) => Some((offset, digest@)),
                None => None,
            }),
    {
        match &self.last_event {
            Some(event) => Some((event.0, event.1.as_str())),
            None => None,
        }
    }

    /// Records an event that was appended to the file at an offset.
    pub fn append(&mut self, event: SessionEvent, offset: u64)
        ensures
            final(self).location() == old(self).location(),
            final(self).history() == old(self).history().push(event),
            final(self).anchor() == Some((offset, digest_text(utf8(event_json(event))))),
    {
        let digest = sha256_text(event.to_json().as_str());
        self.last_event = Some((offset, digest));
        self.events.push(event);
    }
}

/// Whether a checkpoint is anchored at an event.
pub open spec fn anchored(checkpoint: Checkpoint, anchor: Anchor) -> bool {
    anchor == Some((checkpoint.last_event_offset, checkpoint.last_event_sha256@))
}

fn is_anchored(checkpoint: &Checkpoint, last: &Option<(u64, String)>) -> (r: bool)
    ensures
        r == anchored(*checkpoint, anchor_of(*last)),
{
    match last {
        Some(event) => checkpoint.last_event_offset == event.0 && checkpoint.last_event_sha256
            == event.1,
        None => false,
    }
}

/// The JSON objects of contexts.
pub open spec fn epochs_json(items: Seq<ContextEpoch>) -> Seq<Seq<char>> {
    items.map_values(
        |item: ContextEpoch|
            "{\"model\":"@ + json_string(item.model@) + ",\"checkpoint_hash\":"@ + json_string(
                item.checkpoint_hash@,
            ) + "}"@,
    )
}

/// The JSON object of a checkpoint.
pub open spec fn checkpoint_json(c: Checkpoint) -> Seq<char> {
    "{\"last_event_offset\":"@ + decimal(c.last_event_offset as nat)
        + ",\"last_event_sha256\":"@ + json_string(c.last_event_sha256@)
        + ",\"context_epochs\":"@ + json_list(epochs_json(c.context_epochs@))
        + ",\"recent_raw_tail_tokens\":"@ + decimal(c.recent_raw_tail_tokens as nat)
        + ",\"canon_fact_hashes\":"@ + json_list(json_ids(texts(c.canon_fact_hashes@)))
        + ",\"source_hashes\":"@ + json_list(json_ids(texts(c.source_hashes@)))
        + ",\"correction_ids\":"@ + json_list(json_ids(ids(c.correction_ids@)))
        + ",\"blocker_ids\":"@ + json_list(json_ids(ids(c.blocker_ids@)))
        + ",\"stale_changeset_ids\":"@ + json_list(json_ids(ids(c.stale_changeset_ids@)))
        + ",\"cost\":"@ + decimal(c.cost@ as nat) + "}"@
}

fn json_text_array(items: &[String]) -> (r: String)
    ensures
        r@ == json_list(json_ids(texts(items@))),
{
    let mut quoted: Vec<String> = Vec::new();
    let mut i: usize = 0;
    while i < items.len()
        invariant
            i <= items@.len(),
            quoted@.len() == i,
            forall|k: int| 0 <= k < i ==> #[trigger] quoted@[k]@ == json_string(items@[k]@),
        decreases items@.len() - i,
    {
        quoted.push(json_quote(items[i].as_str()));
        i += 1;
    }
    assert(texts(quoted@) =~= json_ids(texts(items@)));
    json_array(quoted.as_slice())
}

fn json_epochs(items: &[ContextEpoch]) -> (r: String)
    ensures
        r@ == json_list(epochs_json(items@)),
{
    let ghost all = epochs_json(items@);
    let mut list: Vec<String> = Vec::new();
    let mut i: usize = 0;
    while i < items.len()
        invariant
            i <= items@.len(),
            all == epochs_json(items@),
            list@.len() == i,
            forall|k: int| 0 <= k < i ==> #[trigger] list@[k]@ == all[k],
        decreases items@.len() - i,
    {
        let text = two_fields(
            "{\"model\":",
            json_quote(items[i].model.as_str()).as_str(),
            ",\"checkpoint_hash\":",
            json_quote(items[i].checkpoint_hash.as_str()).as_str(),
        );
        list.push(text);
        i += 1;
    }
    assert(texts(list@) =~= all);
    json_array(list.as_slice())
}

impl Checkpoint {
    /// Returns the JSON object of the checkpoint.
    pub fn to_json(&self) -> (r: String)
        ensures
            r@ == checkpoint_json(*self),
    {
        let mut out = "{\"last_event_offset\":".to_owned();
        out.append(decimal_text(self.last_event_offset).as_str());
        out.append(",\"last_event_sha256\":");
        out.append(json_quote(self.last_event_sha256.as_str()).as_str());
        out.append(",\"context_epochs\":");
        out.append(json_epochs(self.context_epochs.as_slice()).as_str());
        out.append(",\"recent_raw_tail_tokens\":");
        out.append(decimal_text(self.recent_raw_tail_tokens).as_str());
        out.append(",\"canon_fact_hashes\":");
        out.append(json_text_array(self.canon_fact_hashes.as_slice()).as_str());
        out.append(",\"source_hashes\":");
        out.append(json_text_array(self.source_hashes.as_slice()).as_str());
        out.append(",\"correction_ids\":");
        out.append(json_id_array(self.correction_ids.as_slice()).as_str());
        out.append(",\"blocker_ids\":");
        out.append(json_id_array(self.blocker_ids.as_slice()).as_str());
        out.append(",\"stale_changeset_ids\":");
        out.append(json_id_array(self.stale_changeset_ids.as_slice()).as_str());
        out.append(",\"cost\":");
        out.append(decimal_text(self.cost.as_u64()).as_str());
        out.append("}");
        out
    }
}

/// Why a checkpoint was not written.
#[derive(Debug)]
pub enum CheckpointError {
    /// The checkpoint does not belong to the journal.
    Refused(String),
    /// The checkpoint is in place, but it is unknown whether that is durable.
    DurabilityUnknown(CheckpointDurabilityUnknown),
}

impl SessionJournal {
    /// Decides whether a checkpoint may be written, given what the journal file holds now, and
    /// returns the text of the checkpoint.
    pub fn write_checkpoint(&self, scan: &JournalScan, checkpoint: &Checkpoint) -> (r: Result<
        String,
        String,
    >)
        ensures
            match r {
                Ok(text) => anchored(*checkpoint, scan_anchor(line_models(scan.lines@))) && text@
                    == checkpoint_json(*checkpoint),
                Err(message) => !anchored(*checkpoint, scan_anchor(line_models(scan.lines@)))
                    && message@ == (if scan.lines@.len() == 0 {
                    "cannot checkpoint an empty session journal"@
                } else {
                    "checkpoint does not match the current session journal"@
                }),
            },
    {
        let last = scan.last_event();
        if scan.lines.len() == 0 {
            return Err("cannot checkpoint an empty session journal".to_owned());
        }
        if !is_anchored(checkpoint, &last) {
            return Err("checkpoint does not match the current session journal".to_owned());
        }
        Ok(checkpoint.to_json())
    }

    /// Decides whether a checkpoint may be written, and reports the interruption of a test behind
    /// the rename.
    pub fn write_checkpoint_with_test_interruption(
        &self,
        scan: &JournalScan,
        path: &str,
        checkpoint: &Checkpoint,
        interruption: TestCheckpointInterruption,
    ) -> (r: CheckpointError)
        ensures
            if anchored(*checkpoint, scan_anchor(line_models(scan.lines@))) {
                r matches CheckpointError::DurabilityUnknown(unknown) && unknown@ == (
                    path@,
                    "simulated checkpoint directory sync failure"@,
                )
            } else {
                r matches CheckpointError::Refused(message) && message@ == (
                if scan.lines@.len() == 0 {
                    "cannot checkpoint an empty session journal"@
                } else {
                    "checkpoint does not match the current session journal"@
                })
            },
    {
        match self.write_checkpoint(scan, checkpoint) {
            Err(message) => CheckpointError::Refused(message),
            Ok(_) => CheckpointError::DurabilityUnknown(
                CheckpointDurabilityUnknown::after_rename(
                    path.to_owned(),
                    "simulated checkpoint directory sync failure".to_owned(),
                ),
            ),
        }
    }

    /// Accepts a stored checkpoint that is anchored at the last event of the journal file.
    pub fn read_checkpoint(&self, scan: &JournalScan, checkpoint: Checkpoint) -> (r: Result<
        Checkpoint,
        String,
    >)
        ensures
            match r {
                Ok(accepted) => accepted == checkpoint && anchored(
                    checkpoint,
                    scan_anchor(line_models(scan.lines@)),
                ),
                Err(message) => !anchored(checkpoint, scan_anchor(line_models(scan.lines@)))
                    && message@ == (if scan.lines@.len() == 0 {
                    "checkpoint exists for an empty session journal"@
                } else {
                    "checkpoint does not match the current session journal"@
                }),
            },
    {
        let last = scan.last_event();
        if scan.lines.len() == 0 {
            return Err("checkpoint exists for an empty session journal".to_owned());
        }
        if !is_anchored(&checkpoint, &last) {
            return Err("checkpoint does not match the current session journal".to_owned());
        }
        Ok(checkpoint)
    }
}

/// A file that ends with a line keeps its lines when another line is appended: events are never
/// rewritten.
pub proof fn appending_keeps_lines(bytes: Seq<u8>, json: Seq<u8>, from: int, lines: Seq<(int, Seq<u8>)>)
    requires
        0 <= from <= bytes.len(),
        journal_lines(bytes, from, lines).1 == bytes.len(),
        forall|i: int| 0 <= i < json.len() ==> json[i] != 10,
    ensures
        journal_lines(bytes + json.push(10u8), from, lines) == (
            journal_lines(bytes, from, lines).0.push((bytes.len() as int, json)),
            bytes.len() as int + json.len() as int + 1,
        ),
    decreases bytes.len() - from,
{
    let longer = bytes + json.push(10u8);
    crate::project::lemma_line_end(bytes, from);
    if from < bytes.len() {
        match crate::project::line_end_from(bytes, from) {
            None => {},
            Some(end) => {
                crate::project::lemma_line_end_extends(bytes, json.push(10u8), from);
                assert(longer.subrange(from, end - 1) =~= bytes.subrange(from, end - 1));
                appending_keeps_lines(
                    bytes,
                    json,
                    end,
                    lines.push((from, bytes.subrange(from, end - 1))),
                );
            },
        }
    } else {
        assert(bytes.len() == from);
        crate::project::lemma_last_line(longer, from, from + json.len());
        assert(longer.subrange(from, from + json.len()) =~= json);
        let all = lines.push((from, json));
        assert(crate::project::line_end_from(longer, longer.len() as int) is None);
        assert(journal_lines(longer, longer.len() as int, all) == (all, longer.len() as int));
    }
}

/// Whatever a stored event says, it takes one line.
proof fn lemma_event_one_line(event: SessionEvent)
    ensures
        one_line(event_json(event)),
{
    reveal_strlit("{\"event\":\"user-instruction\",\"text\":");
    reveal_strlit("{\"event\":\"model-call-started\",\"request_id\":");
    reveal_strlit("{\"event\":\"model-call-completed\",\"request_id\":");
    reveal_strlit("{\"event\":\"model-call-ambiguous\",\"request_id\":");
    reveal_strlit("{\"event\":\"changeset-state-changed\",\"id\":");
    reveal_strlit("{\"event\":\"context-epoch-changed\",\"model\":");
    reveal_strlit("{\"event\":\"finding-resolved\",\"finding_id\":");
    reveal_strlit("{\"event\":\"correction-accepted\",\"rule_id\":");
    reveal_strlit(",\"context_hash\":");
    reveal_strlit(",\"usage\":{\"input_tokens\":");
    reveal_strlit(",\"output_tokens\":");
    reveal_strlit(",\"reserved_cost\":");
    reveal_strlit(",\"state\":");
    reveal_strlit(",\"checkpoint_hash\":");
    reveal_strlit(",\"reason_hash\":");
    reveal_strlit(",\"source_chapter\":");
    reveal_strlit(",\"hash\":");
    reveal_strlit("}");
    reveal_strlit("}}");
    match event {
        SessionEvent::UserInstruction { text } => lemma_json_one_line(text@),
        SessionEvent::ModelCallStarted { request_id, context_hash } => {
            lemma_json_one_line(request_id@);
            lemma_json_one_line(context_hash@);
        },
        SessionEvent::ModelCallCompleted { request_id, usage } => {
            lemma_json_one_line(request_id@);
            lemma_decimal_one_line(usage.input_tokens as nat);
            lemma_decimal_one_line(usage.output_tokens as nat);
        },
        SessionEvent::ModelCallAmbiguous { request_id, reserved_cost } => {
            lemma_json_one_line(request_id@);
            lemma_decimal_one_line(reserved_cost@ as nat);
        },
        SessionEvent::ChangesetStateChanged { id, state } => {
            lemma_json_one_line(id@);
            lemma_json_one_line(state_name(state));
        },
        SessionEvent::ContextEpochChanged { model, checkpoint_hash } => {
            lemma_json_one_line(model@);
            lemma_json_one_line(checkpoint_hash@);
        },
        SessionEvent::FindingResolved { finding_id, reason_hash } => {
            lemma_json_one_line(finding_id@);
            lemma_json_one_line(reason_hash@);
        },
        SessionEvent::CorrectionAccepted { rule_id, source_chapter, hash } => {
            lemma_json_one_line(rule_id@);
            lemma_json_one_line(source_chapter@);
            lemma_json_one_line(hash@);
        },
    }
}

/// An event that was appended to a journal is found again as its last line, behind all earlier
/// ones, and anchors checkpoints by the offset and the digest that were recorded for it.
pub proof fn appended_event_is_read_back(bytes: Seq<u8>, event: SessionEvent)
    requires
        bytes.len() <= u64::MAX,
        journal_lines(bytes, 0, Seq::empty()).1 == bytes.len(),
    ensures
        ({
            let json = utf8(event_json(event));
            let after = journal_lines(bytes + json.push(10u8), 0, Seq::empty());
            &&& after.0 == journal_lines(bytes, 0, Seq::empty()).0.push(
                (bytes.len() as int, json),
            )
            &&& after.1 == bytes.len() + json.len() + 1
            &&& scan_anchor(after.0) == Some((bytes.len() as u64, digest_text(json)))
        }),
{
    let json = utf8(event_json(event));
    lemma_event_one_line(event);
    lemma_one_line_bytes(event_json(event));
    appending_keeps_lines(bytes, json, 0, Seq::empty());
}

/// A write that was cut short behind the last line end is dropped, and nothing else is.
pub proof fn torn_write_is_cut_off(
    bytes: Seq<u8>,
    torn: Seq<u8>,
    from: int,
    lines: Seq<(int, Seq<u8>)>,
)
    requires
        0 <= from <= bytes.len(),
        journal_lines(bytes, from, lines).1 == bytes.len(),
        forall|i: int| 0 <= i < torn.len() ==> torn[i] != 10,
    ensures
        journal_lines(bytes + torn, from, lines) == journal_lines(bytes, from, lines),
    decreases bytes.len() - from,
{
    let longer = bytes + torn;
    crate::project::lemma_line_end(bytes, from);
    if from < bytes.len() {
        match crate::project::line_end_from(bytes, from) {
            None => {},
            Some(end) => {
                crate::project::lemma_line_end_extends(bytes, torn, from);
                assert(longer.subrange(from, end - 1) =~= bytes.subrange(from, end - 1));
                torn_write_is_cut_off(
                    bytes,
                    torn,
                    end,
                    lines.push((from, bytes.subrange(from, end - 1))),
                );
            },
        }
    } else {
        crate::project::lemma_no_line(longer, from);
    }
}

/// A checkpoint of a journal is refused as soon as the journal holds a later event.
pub proof fn later_event_outdates_checkpoint(
    checkpoint: Checkpoint,
    lines: Seq<(int, Seq<u8>)>,
    offset: int,
    json: Seq<u8>,
)
    requires
        anchored(checkpoint, scan_anchor(lines)),
        0 <= lines.last().0 < offset <= u64::MAX,
    ensures
        !anchored(checkpoint, scan_anchor(lines.push((offset, json)))),
{
}

} // verus!
