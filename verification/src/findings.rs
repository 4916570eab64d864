//! Agent roles and the findings of critics.
use vstd::prelude::*;
use vstd::string::StringExecFns;
use crate::context::{range_fits, ByteRange};
use crate::domain::{hyphenated, is_id_of, is_known_id, is_v7, kind_prefix, uuid_text, EntityKind};
use crate::hash::{digest_text, sha256, sha256_digest, sha256_text};
use crate::paths::{climbs, has_parent_component, is_absolute, is_absolute_path};
use crate::text::{blank, concat2, concat3, decimal, has_prefix, is_blank, join, join_texts, parse_size, parsed_u64, size_text, split, split_lines, split_text, split_words, str_eq, strip_prefix, text_lines, texts, to_chars, utf8, words};
use crate::tools::{role_tools, Tool};
use crate::unicode::{grapheme_pieces, graphemes};

verus! {

/// The part that an agent plays.
#[derive(Clone, Copy, Debug, PartialEq, Eq, Structural)]
pub enum AgentRole {
    StoryArchitect,
    Writer,
    CharacterVoiceCritic,
    CanonCritic,
    ReaderPullCritic,
    StoryEditorCritic,
    NaturalnessStyleCritic,
    SourceAdherenceCritic,
    Reviser,
    Validator,
}

/// The name of a role.
pub open spec fn role_name(role: AgentRole) -> Seq<char> {
    match role {
        AgentRole::StoryArchitect => "story-architect"@,
        AgentRole::Writer => "writer"@,
        AgentRole::CharacterVoiceCritic => "character-voice-critic"@,
        AgentRole::CanonCritic => "canon-critic"@,
        AgentRole::ReaderPullCritic => "reader-pull-critic"@,
        AgentRole::StoryEditorCritic => "story-editor-critic"@,
        AgentRole::NaturalnessStyleCritic => "naturalness-style-critic"@,
        AgentRole::SourceAdherenceCritic => "source-adherence-critic"@,
        AgentRole::Reviser => "reviser"@,
        AgentRole::Validator => "validator"@,
    }
}

/// The roles of critics, in the order in which they are asked.
pub open spec fn critics() -> Seq<AgentRole> {
    seq![
        AgentRole::CharacterVoiceCritic,
        AgentRole::CanonCritic,
        AgentRole::ReaderPullCritic,
        AgentRole::StoryEditorCritic,
        AgentRole::NaturalnessStyleCritic,
        AgentRole::SourceAdherenceCritic,
    ]
}

/// Position of a role among all roles.
pub open spec fn role_index(role: AgentRole) -> int {
    match role {
        AgentRole::StoryArchitect => 0,
        AgentRole::Writer => 1,
        AgentRole::CharacterVoiceCritic => 2,
        AgentRole::CanonCritic => 3,
        AgentRole::ReaderPullCritic => 4,
        AgentRole::StoryEditorCritic => 5,
        AgentRole::NaturalnessStyleCritic => 6,
        AgentRole::SourceAdherenceCritic => 7,
        AgentRole::Reviser => 8,
        AgentRole::Validator => 9,
    }
}

/// The tool table of a role.
pub open spec fn tool_role_of(role: AgentRole) -> crate::tools::AgentRole {
    match role {
        AgentRole::StoryArchitect | AgentRole::Writer | AgentRole::Reviser =>
        crate::tools::AgentRole::Author,
        AgentRole::Validator => crate::tools::AgentRole::Coordinator,
        _ => crate::tools::AgentRole::ConsistencyCritic,
    }
}

impl AgentRole {
    /// Returns the name of the role.
    pub fn name(self) -> (r: &'static str)
        ensures
            r@ == role_name(self),
    {
        match self {
            AgentRole::StoryArchitect => "story-architect",
            AgentRole::Writer => "writer",
            AgentRole::CharacterVoiceCritic => "character-voice-critic",
            AgentRole::CanonCritic => "canon-critic",
            AgentRole::ReaderPullCritic => "reader-pull-critic",
            AgentRole::StoryEditorCritic => "story-editor-critic",
            AgentRole::NaturalnessStyleCritic => "naturalness-style-critic",
            AgentRole::SourceAdherenceCritic => "source-adherence-critic",
            AgentRole::Reviser => "reviser",
            AgentRole::Validator => "validator",
        }
    }

    /// Returns whether the role is that of a critic.
    pub fn is_critic(self) -> (r: bool)
        ensures
            r == critics().contains(self),
    {
        proof {
            let all = critics();
            assert(all[0] == AgentRole::CharacterVoiceCritic);
            assert(all[1] == AgentRole::CanonCritic);
            assert(all[2] == AgentRole::ReaderPullCritic);
            assert(all[3] == AgentRole::StoryEditorCritic);
            assert(all[4] == AgentRole::NaturalnessStyleCritic);
            assert(all[5] == AgentRole::SourceAdherenceCritic);
        }
        matches!(
            self,
            AgentRole::CharacterVoiceCritic
                | AgentRole::CanonCritic
                | AgentRole::ReaderPullCritic
                | AgentRole::StoryEditorCritic
                | AgentRole::NaturalnessStyleCritic
                | AgentRole::SourceAdherenceCritic
        )
    }

    /// Returns the position of the role among all roles.
    pub fn index(self) -> (r: usize)
        ensures
            r == role_index(self),
            r < 10,
    {
        match self {
            AgentRole::StoryArchitect => 0,
            AgentRole::Writer => 1,
            AgentRole::CharacterVoiceCritic => 2,
            AgentRole::CanonCritic => 3,
            AgentRole::ReaderPullCritic => 4,
            AgentRole::StoryEditorCritic => 5,
            AgentRole::NaturalnessStyleCritic => 6,
            AgentRole::SourceAdherenceCritic => 7,
            AgentRole::Reviser => 8,
            AgentRole::Validator => 9,
        }
    }

    fn tool_role(self) -> (r: crate::tools::AgentRole)
        ensures
            r == tool_role_of(self),
    {
        match self {
            AgentRole::StoryArchitect | AgentRole::Writer | AgentRole::Reviser =>
            crate::tools::AgentRole::Author,
            AgentRole::Validator => crate::tools::AgentRole::Coordinator,
            _ => crate::tools::AgentRole::ConsistencyCritic,
        }
    }
}

/// What an agent is given.
#[derive(Debug)]
pub struct AgentSpec {
    /// Role.
    pub role: AgentRole,
    /// Prompt.
    pub prompt: String,
    /// Model.
    pub model: String,
    /// Tools.
    pub tools: Vec<Tool>,
}

impl AgentSpec {
    /// Builds what an agent of a role is given.
    pub fn new(role: AgentRole, prompt: String, model: String) -> (r: AgentSpec)
        ensures
            r.role == role,
            r.prompt == prompt,
            r.model == model,
            r.tools@ == role_tools(tool_role_of(role)),
    {
        AgentSpec { role, prompt, model, tools: Tool::for_role(role.tool_role()) }
    }

    /// Returns the roles of critics, in the order in which they are asked.
    pub fn critic_roles() -> (r: Vec<AgentRole>)
        ensures
            r@ == critics(),
    {
        let r = vec![
            AgentRole::CharacterVoiceCritic,
            AgentRole::CanonCritic,
            AgentRole::ReaderPullCritic,
            AgentRole::StoryEditorCritic,
            AgentRole::NaturalnessStyleCritic,
            AgentRole::SourceAdherenceCritic,
        ];
        assert(r@ =~= critics());
        r
    }
}

/// What a finding is about.
#[derive(Clone, Copy, Debug, PartialEq, Eq, Structural)]
pub enum FindingKind {
    RequiredSource,
    Canon,
    Timeline,
    Causality,
    NearCopy,
    Character,
    ReaderPull,
    Style,
    SourceAdherence,
    StoryEdit,
    Other,
}

/// The name of a finding kind in the material of identifiers.
pub open spec fn kind_label(kind: FindingKind) -> Seq<char> {
    match kind {
        FindingKind::RequiredSource => "RequiredSource"@,
        FindingKind::Canon => "Canon"@,
        FindingKind::Timeline => "Timeline"@,
        FindingKind::Causality => "Causality"@,
        FindingKind::NearCopy => "NearCopy"@,
        FindingKind::Character => "Character"@,
        FindingKind::ReaderPull => "ReaderPull"@,
        FindingKind::Style => "Style"@,
        FindingKind::SourceAdherence => "SourceAdherence"@,
        FindingKind::StoryEdit => "StoryEdit"@,
        FindingKind::Other => "Other"@,
    }
}

/// Whether an open finding of a kind keeps a chapter from being approved.
pub open spec fn kind_blocks(kind: FindingKind) -> bool {
    kind == FindingKind::RequiredSource || kind == FindingKind::Canon || kind
        == FindingKind::Timeline || kind == FindingKind::Causality || kind == FindingKind::NearCopy
}

/// The kind that a name denotes.
pub open spec fn kind_of(name: Seq<char>) -> Option<FindingKind> {
    if name == "required-source"@ {
        Some(FindingKind::RequiredSource)
    } else if name == "canon"@ {
        Some(FindingKind::Canon)
    } else if name == "timeline"@ {
        Some(FindingKind::Timeline)
    } else if name == "causality"@ {
        Some(FindingKind::Causality)
    } else if name == "near-copy"@ {
        Some(FindingKind::NearCopy)
    } else if name == "character"@ {
        Some(FindingKind::Character)
    } else if name == "reader-pull"@ {
        Some(FindingKind::ReaderPull)
    } else if name == "style"@ {
        Some(FindingKind::Style)
    } else if name == "source-adherence"@ {
        Some(FindingKind::SourceAdherence)
    } else if name == "story-edit"@ {
        Some(FindingKind::StoryEdit)
    } else if name == "other"@ {
        Some(FindingKind::Other)
    } else {
        None
    }
}

fn parse_kind(name: &str) -> (r: Option<FindingKind>)
    ensures
        r == kind_of(name@),
{
    if str_eq(name, "required-source") {
        Some(FindingKind::RequiredSource)
    } else if str_eq(name, "canon") {
        Some(FindingKind::Canon)
    } else if str_eq(name, "timeline") {
        Some(FindingKind::Timeline)
    } else if str_eq(name, "causality") {
        Some(FindingKind::Causality)
    } else if str_eq(name, "near-copy") {
        Some(FindingKind::NearCopy)
    } else if str_eq(name, "character") {
        Some(FindingKind::Character)
    } else if str_eq(name, "reader-pull") {
        Some(FindingKind::ReaderPull)
    } else if str_eq(name, "style") {
        Some(FindingKind::Style)
    } else if str_eq(name, "source-adherence") {
        Some(FindingKind::SourceAdherence)
    } else if str_eq(name, "story-edit") {
        Some(FindingKind::StoryEdit)
    } else if str_eq(name, "other") {
        Some(FindingKind::Other)
    } else {
        None
    }
}

impl FindingKind {
    /// Returns whether an open finding of this kind keeps a chapter from being approved.
    pub fn is_blocking(self) -> (r: bool)
        ensures
            r == kind_blocks(self),
    {
        matches!(
            self,
            FindingKind::RequiredSource | FindingKind::Canon | FindingKind::Timeline
                | FindingKind::Causality | FindingKind::NearCopy
        )
    }

    /// Returns the name of the kind in the material of identifiers.
    pub fn label(self) -> (r: &'static str)
        ensures
            r@ == kind_label(self),
    {
        match self {
            FindingKind::RequiredSource => "RequiredSource",
            FindingKind::Canon => "Canon",
            FindingKind::Timeline => "Timeline",
            FindingKind::Causality => "Causality",
            FindingKind::NearCopy => "NearCopy",
            FindingKind::Character => "Character",
            FindingKind::ReaderPull => "ReaderPull",
            FindingKind::Style => "Style",
            FindingKind::SourceAdherence => "SourceAdherence",
            FindingKind::StoryEdit => "StoryEdit",
            FindingKind::Other => "Other",
        }
    }
}

/// What became of a finding.
#[derive(Debug)]
pub enum FindingDisposition {
    /// Nothing yet.
    Open,
    /// A human judged it wrong.
    FalsePositive { reason: String },
}

/// The reason for which a finding was judged wrong; nothing where it is open.
pub open spec fn disposition_reason(disposition: FindingDisposition) -> Option<Seq<char>> {
    match disposition {
        FindingDisposition::Open => None,
        FindingDisposition::FalsePositive { reason } => Some(reason@),
    }
}

impl FindingDisposition {
    /// Returns an equal disposition.
    pub fn copy(&self) -> (r: FindingDisposition)
        ensures
            disposition_reason(r) == disposition_reason(*self),
    {
        match self {
            FindingDisposition::Open => FindingDisposition::Open,
            FindingDisposition::FalsePositive { reason } => FindingDisposition::FalsePositive {
                reason: reason.clone(),
            },
        }
    }
}

/// A finding of a critic about a candidate.
#[derive(Debug)]
pub struct Finding {
    /// Identifier.
    pub id: String,
    /// What it is about.
    pub kind: FindingKind,
    /// Path of the file it is about.
    pub artifact: String,
    /// First byte of the evidence.
    pub start: usize,
    /// Byte behind the evidence.
    pub end: usize,
    /// Message.
    pub message: String,
    /// Digest of the evidence.
    pub evidence_hash: String,
    /// Digest of the candidate it is about.
    pub candidate_hash: String,
    /// What became of it.
    pub disposition: FindingDisposition,
}

/// A finding by the views of its fields.
pub struct FindingModel {
    pub id: Seq<char>,
    pub kind: FindingKind,
    pub artifact: Seq<char>,
    pub start: usize,
    pub end: usize,
    pub message: Seq<char>,
    pub evidence_hash: Seq<char>,
    pub candidate_hash: Seq<char>,
    pub resolved: Option<Seq<char>>,
}

impl View for Finding {
    type V = FindingModel;

    open spec fn view(&self) -> FindingModel {
        FindingModel {
            id: self.id@,
            kind: self.kind,
            artifact: self.artifact@,
            start: self.start,
            end: self.end,
            message: self.message@,
            evidence_hash: self.evidence_hash@,
            candidate_hash: self.candidate_hash@,
            resolved: disposition_reason(self.disposition),
        }
    }
}

/// The views of findings.
pub open spec fn finding_models(items: Seq<Finding>) -> Seq<FindingModel> {
    items.map_values(|item: Finding| item@)
}

/// The evidence of a finding as text, its parts parted by NUL.
pub open spec fn evidence_text(
    kind: FindingKind,
    artifact: Seq<char>,
    start: usize,
    end: usize,
    message: Seq<char>,
) -> Seq<char> {
    kind_label(kind) + "\0"@ + artifact + "\0"@ + decimal(start as nat) + "\0"@ + decimal(
        end as nat,
    ) + "\0"@ + message
}

/// Sixteen bytes with the version and variant bits of a version 7 UUID set.
pub open spec fn stamped(bytes: Seq<u8>) -> Seq<u8> {
    bytes.update(6, (bytes[6] & 0x0f) | 0x70).update(8, (bytes[8] & 0x3f) | 0x80)
}

/// The identifier of a finding: it depends on the evidence and on the candidate alone.
pub open spec fn finding_id(
    kind: FindingKind,
    artifact: Seq<char>,
    start: usize,
    end: usize,
    message: Seq<char>,
    candidate_hash: Seq<char>,
) -> Seq<char> {
    id_of_digest(
        sha256(utf8(evidence_text(kind, artifact, start, end, message) + "\0"@ + candidate_hash)),
    )
}

/// An open finding.
pub open spec fn new_finding(
    kind: FindingKind,
    artifact: Seq<char>,
    start: usize,
    end: usize,
    message: Seq<char>,
    candidate_hash: Seq<char>,
) -> FindingModel {
    FindingModel {
        id: finding_id(kind, artifact, start, end, message, candidate_hash),
        kind: kind,
        artifact: artifact,
        start: start,
        end: end,
        message: message,
        evidence_hash: digest_text(utf8(evidence_text(kind, artifact, start, end, message))),
        candidate_hash: candidate_hash,
        resolved: None,
    }
}

fn evidence(kind: FindingKind, artifact: &str, start: usize, end: usize, message: &str) -> (r:
    String)
    ensures
        r@ == evidence_text(kind, artifact@, start, end, message@),
{
    let mut out = kind.label().to_owned();
    out.append("\0");
    out.append(artifact);
    out.append("\0");
    out.append(size_text(start).as_str());
    out.append("\0");
    out.append(size_text(end).as_str());
    out.append("\0");
    out.append(message);
    out
}

/// The identifier of a finding whose evidence has the given digest.
pub open spec fn id_of_digest(digest: Seq<u8>) -> Seq<char> {
    "finding"@ + "_"@ + hyphenated(stamped(digest.take(16)))
}

/// Builds the identifier of a finding from the digest of its evidence.
pub fn finding_id_from(digest: &[u8]) -> (r: String)
    requires
        digest@.len() >= 16,
    ensures
        r@ == id_of_digest(digest@),
        is_id_of(r@, EntityKind::Finding),
{
    let mut bytes: Vec<u8> = Vec::new();
    let mut i: usize = 0;
    while i < 16
        invariant
            i <= 16,
            digest@.len() >= 16,
            bytes@ == digest@.take(i as int),
        decreases 16 - i,
    {
        bytes.push(digest[i]);
        i += 1;
        assert(bytes@ =~= digest@.take(i as int));
    }
    let version: u8 = (bytes[6] & 0x0f) | 0x70;
    let variant: u8 = (bytes[8] & 0x3f) | 0x80;
    let ghost first = bytes@;
    bytes.set(6, version);
    bytes.set(8, variant);
    assert(bytes@ =~= stamped(first));
    proof {
        let a = first[6];
        let b = first[8];
        assert(0x70 <= ((a & 0x0f) | 0x70) && ((a & 0x0f) | 0x70) <= 0x7f) by (bit_vector);
        assert(0x80 <= ((b & 0x3f) | 0x80) && ((b & 0x3f) | 0x80) <= 0xbf) by (bit_vector);
        assert(is_v7(bytes@));
    }
    let text = uuid_text(bytes.as_slice());
    let prefix = EntityKind::Finding.prefix();
    let id = concat3(prefix, "_", text.as_str());
    proof {
        let head = kind_prefix(EntityKind::Finding) + "_"@;
        assert(id@ =~= head + text@);
        assert(id@.skip(head.len() as int) =~= text@);
        assert(has_prefix(id@, head)) by {
            assert(id@.subrange(0, head.len() as int) =~= head);
            assert(id@.take(head.len() as int) =~= head);
        }
    }
    id
}

fn stable_finding_id(
    kind: FindingKind,
    artifact: &str,
    start: usize,
    end: usize,
    message: &str,
    candidate_hash: &str,
) -> (r: String)
    ensures
        r@ == finding_id(kind, artifact@, start, end, message@, candidate_hash@),
        is_id_of(r@, EntityKind::Finding),
{
    let mut material = evidence(kind, artifact, start, end, message);
    material.append("\0");
    material.append(candidate_hash);
    let digest = sha256_digest(material.as_str().as_bytes());
    finding_id_from(digest.as_slice())
}

impl Finding {
    /// Builds an open finding.  Its identifier is a valid one of a finding.
    pub fn new(
        kind: FindingKind,
        artifact: String,
        start: usize,
        end: usize,
        message: String,
        candidate_hash: String,
    ) -> (r: Finding)
        ensures
            r@ == new_finding(kind, artifact@, start, end, message@, candidate_hash@),
            is_id_of(r@.id, EntityKind::Finding),
            is_known_id(r@.id),
    {
        let evidence_hash = sha256_text(
            evidence(kind, artifact.as_str(), start, end, message.as_str()).as_str(),
        );
        let id = stable_finding_id(
            kind,
            artifact.as_str(),
            start,
            end,
            message.as_str(),
            candidate_hash.as_str(),
        );
        Finding {
            id,
            kind,
            artifact,
            start,
            end,
            message,
            evidence_hash,
            candidate_hash,
            disposition: FindingDisposition::Open,
        }
    }

    /// Returns whether the finding is about a candidate.
    pub fn is_valid_for(&self, candidate_hash: &str) -> (r: bool)
        ensures
            r == (self@.candidate_hash == candidate_hash@),
    {
        str_eq(self.candidate_hash.as_str(), candidate_hash)
    }

    /// Returns whether the finding is open.
    pub fn is_open(&self) -> (r: bool)
        ensures
            r == (self@.resolved is None),
    {
        matches!(self.disposition, FindingDisposition::Open)
    }

    /// Returns whether the finding keeps a candidate from being approved.
    pub fn blocks(&self, candidate_hash: &str) -> (r: bool)
        ensures
            r == finding_blocks(self@, candidate_hash@),
    {
        self.kind.is_blocking() && self.is_valid_for(candidate_hash) && self.is_open()
    }

    /// Returns an equal finding.
    pub fn copy(&self) -> (r: Finding)
        ensures
            r@ == self@,
    {
        Finding {
            id: self.id.clone(),
            kind: self.kind,
            artifact: self.artifact.clone(),
            start: self.start,
            end: self.end,
            message: self.message.clone(),
            evidence_hash: self.evidence_hash.clone(),
            candidate_hash: self.candidate_hash.clone(),
            disposition: self.disposition.copy(),
        }
    }
}

/// Whether a finding keeps a candidate from being approved.
pub open spec fn finding_blocks(finding: FindingModel, candidate_hash: Seq<char>) -> bool {
    kind_blocks(finding.kind) && finding.candidate_hash == candidate_hash && finding.resolved is None
}

/// Whether some finding keeps a candidate from being approved.
pub open spec fn any_blocks(list: Seq<FindingModel>, candidate_hash: Seq<char>) -> bool {
    exists|i: int| 0 <= i < list.len() && finding_blocks(#[trigger] list[i], candidate_hash)
}

/// Returns whether some finding keeps a candidate from being approved.
pub fn blocked(list: &[Finding], candidate_hash: &str) -> (r: bool)
    ensures
        r == any_blocks(finding_models(list@), candidate_hash@),
{
    let ghost all = finding_models(list@);
    let mut i: usize = 0;
    while i < list.len()
        invariant
            i <= list@.len(),
            all == finding_models(list@),
            forall|k: int| 0 <= k < i ==> !finding_blocks(#[trigger] all[k], candidate_hash@),
        decreases list@.len() - i,
    {
        assert(all[i as int] == list@[i as int]@);
        if list[i].blocks(candidate_hash) {
            return true;
        }
        i += 1;
    }
    false
}

/// Copies findings.
pub fn copy_findings(list: &[Finding]) -> (r: Vec<Finding>)
    ensures
        finding_models(r@) == finding_models(list@),
{
    let mut out: Vec<Finding> = Vec::new();
    let mut i: usize = 0;
    while i < list.len()
        invariant
            i <= list@.len(),
            out@.len() == i,
            forall|k: int| 0 <= k < i ==> #[trigger] out@[k]@ == list@[k]@,
        decreases list@.len() - i,
    {
        out.push(list[i].copy());
        i += 1;
    }
    assert(finding_models(out@) =~= finding_models(list@));
    out
}

/// Unit in which the length of a chapter is measured.
#[derive(Clone, Copy, Debug, PartialEq, Eq, Structural)]
pub enum LengthUnit {
    /// Extended grapheme clusters.
    Graphemes,
    /// Words between white space.
    Words,
}

/// The length of a text.
pub open spec fn text_length(text: Seq<char>, unit: LengthUnit) -> nat {
    match unit {
        LengthUnit::Graphemes => grapheme_pieces(text).len(),
        LengthUnit::Words => words(text).len(),
    }
}

/// What is wrong with a length.
pub open spec fn length_error(count: nat, minimum: usize, maximum: usize) -> Option<Seq<char>> {
    if minimum <= count <= maximum {
        None
    } else {
        Some(
            "chapter length "@ + decimal(count) + " is outside "@ + decimal(minimum as nat)
                + "..="@ + decimal(maximum as nat),
        )
    }
}

/// Checks a length against its bounds.
pub fn check_length(count: usize, minimum: usize, maximum: usize) -> (r: Result<(), String>)
    ensures
        match length_error(count as nat, minimum, maximum) {
            Some(message) => r is Err && r->Err_0@ == message,
            None => r is Ok,
        },
{
    if minimum <= count && count <= maximum {
        return Ok(());
    }
    let mut out = "chapter length ".to_owned();
    out.append(size_text(count).as_str());
    out.append(" is outside ");
    out.append(size_text(minimum).as_str());
    out.append("..=");
    out.append(size_text(maximum).as_str());
    Err(out)
}

/// Checks the length of a text against its bounds.
pub fn validate_length(text: &str, unit: LengthUnit, minimum: usize, maximum: usize) -> (r: Result<
    (),
    String,
>)
    ensures
        match length_error(text_length(text@, unit), minimum, maximum) {
            Some(message) => r is Err && r->Err_0@ == message,
            None => r is Ok,
        },
{
    let count: usize = match unit {
        LengthUnit::Graphemes => {
            let pieces = graphemes(text);
            assert(texts(pieces@).len() == pieces@.len());
            pieces.len()
        },
        LengthUnit::Words => {
            let pieces = split_words(text);
            assert(texts(pieces@).len() == pieces@.len());
            pieces.len()
        },
    };
    check_length(count, minimum, maximum)
}

/// What is wrong with the evidence of a finding.
pub open spec fn evidence_error(
    artifact: Seq<char>,
    start: usize,
    end: usize,
    candidate: Seq<char>,
) -> Option<Seq<char>> {
    if is_blank(artifact) {
        Some("finding artifact is required"@)
    } else if is_absolute_path(artifact) {
        Some("finding artifact must be project-relative"@)
    } else if artifact.contains('\0') {
        Some("finding artifact contains NUL"@)
    } else if has_parent_component(artifact) {
        Some("finding artifact escapes the project"@)
    } else if start > end {
        Some("finding range is inverted"@)
    } else if end > utf8(candidate).len() {
        Some("finding range exceeds candidate bytes"@)
    } else if !range_fits(ByteRange { start: start, end: end }, candidate) {
        Some("finding range splits UTF-8"@)
    } else {
        None
    }
}

fn holds_nul(text: &str) -> (r: bool)
    ensures
        r == text@.contains('\0'),
{
    let chars = to_chars(text);
    let mut i: usize = 0;
    while i < chars.len()
        invariant
            i <= chars@.len(),
            chars@ == text@,
            forall|k: int| 0 <= k < i ==> #[trigger] text@[k] != '\0',
        decreases chars@.len() - i,
    {
        if chars[i] == '\0' {
            assert(text@[i as int] == '\0');
            return true;
        }
        i += 1;
    }
    false
}

/// Checks the evidence of a finding against the candidate it is about.
pub fn validate_finding_evidence(artifact: &str, start: usize, end: usize, candidate: &str) -> (r:
    Result<(), &'static str>)
    ensures
        match evidence_error(artifact@, start, end, candidate@) {
            Some(message) => r is Err && r->Err_0@ == message,
            None => r is Ok,
        },
{
    if blank(artifact) {
        return Err("finding artifact is required");
    }
    if is_absolute(artifact) {
        return Err("finding artifact must be project-relative");
    }
    if holds_nul(artifact) {
        return Err("finding artifact contains NUL");
    }
    if climbs(artifact) {
        return Err("finding artifact escapes the project");
    }
    if start > end {
        return Err("finding range is inverted");
    }
    if end > candidate.as_bytes().len() {
        return Err("finding range exceeds candidate bytes");
    }
    if !ByteRange::new(start, end).is_valid_for(candidate) {
        return Err("finding range splits UTF-8");
    }
    Ok(())
}

/// The size that a text denotes.
pub open spec fn parsed_size(text: Seq<char>) -> Option<usize> {
    match parsed_u64(text) {
        Some(n) => if n <= usize::MAX {
            Some(n as usize)
        } else {
            None
        },
        None => None,
    }
}

/// The finding that the five parts of a report line denote.
pub open spec fn reported_finding(
    parts: Seq<Seq<char>>,
    role: AgentRole,
    candidate_hash: Seq<char>,
    candidate: Seq<char>,
) -> Result<FindingModel, Seq<char>> {
    let message = join(parts.skip(4), "|"@);
    match kind_of(parts[0]) {
        None => Err("unknown finding kind "@ + parts[0] + " from "@ + role_name(role)),
        Some(kind) => match (parsed_size(parts[2]), parsed_size(parts[3])) {
            (None, _) => Err("finding start is not an integer"@),
            (Some(_), None) => Err("finding end is not an integer"@),
            (Some(start), Some(end)) => match evidence_error(parts[1], start, end, candidate) {
                Some(error) => Err(error),
                None => if is_blank(message) {
                    Err("finding message is required"@)
                } else {
                    Ok(
                        FindingModel {
                            message: role_name(role) + ": "@ + message,
                            ..new_finding(kind, parts[1], start, end, message, candidate_hash)
                        },
                    )
                },
            },
        },
    }
}

/// What a line of a report says: nothing, a finding, or what is wrong with it.
pub open spec fn line_finding(
    line: Seq<char>,
    role: AgentRole,
    candidate_hash: Seq<char>,
    candidate: Seq<char>,
) -> Result<Option<FindingModel>, Seq<char>> {
    if !has_prefix(line, "FINDING|"@) {
        Ok(None)
    } else {
        let parts = split(line.skip("FINDING|"@.len() as int), '|');
        if parts.len() < 5 {
            Err("malformed finding evidence from "@ + role_name(role))
        } else {
            match reported_finding(parts, role, candidate_hash, candidate) {
                Ok(finding) => Ok(Some(finding)),
                Err(message) => Err(message),
            }
        }
    }
}

/// The findings of the lines of a report from a position on, behind those found before.
pub open spec fn report_findings(
    lines: Seq<Seq<char>>,
    i: int,
    role: AgentRole,
    candidate_hash: Seq<char>,
    candidate: Seq<char>,
    found: Seq<FindingModel>,
) -> Result<Seq<FindingModel>, Seq<char>>
    decreases lines.len() - i,
{
    if i < 0 || i >= lines.len() {
        Ok(found)
    } else {
        match line_finding(lines[i], role, candidate_hash, candidate) {
            Err(message) => Err(message),
            Ok(None) => report_findings(lines, i + 1, role, candidate_hash, candidate, found),
            Ok(Some(finding)) => report_findings(
                lines,
                i + 1,
                role,
                candidate_hash,
                candidate,
                found.push(finding),
            ),
        }
    }
}

/// The findings that the report of a critic holds.
pub open spec fn findings_of(
    text: Seq<char>,
    role: AgentRole,
    candidate_hash: Seq<char>,
    candidate: Seq<char>,
) -> Result<Seq<FindingModel>, Seq<char>> {
    report_findings(text_lines(text), 0, role, candidate_hash, candidate, Seq::empty())
}

fn rest_of(parts: &[String]) -> (r: String)
    requires
        parts@.len() >= 5,
    ensures
        r@ == join(texts(parts@).skip(4), "|"@),
{
    let rest = vstd::slice::slice_subrange(parts, 4, parts.len());
    assert(texts(rest@) =~= texts(parts@).skip(4));
    join_texts(rest, "|")
}

fn parse_parts(parts: &[String], role: AgentRole, candidate_hash: &str, candidate: &str) -> (r:
    Result<Finding, String>)
    requires
        parts@.len() >= 5,
    ensures
        match reported_finding(texts(parts@), role, candidate_hash@, candidate@) {
            Ok(finding) => r is Ok && r->Ok_0@ == finding,
            Err(message) => r is Err && r->Err_0@ == message,
        },
{
    let message = rest_of(parts);
    assert(texts(parts@)[0] == parts@[0]@);
    assert(texts(parts@)[1] == parts@[1]@);
    assert(texts(parts@)[2] == parts@[2]@);
    assert(texts(parts@)[3] == parts@[3]@);
    let kind = match parse_kind(parts[0].as_str()) {
        None => {
            let mut out = concat3("unknown finding kind ", parts[0].as_str(), " from ");
            out.append(role.name());
            return Err(out);
        },
        Some(kind) => kind,
    };
    let start: usize = match parse_size(parts[2].as_str()) {
        None => {
            return Err("finding start is not an integer".to_owned());
        },
        Some(start) => start,
    };
    let end: usize = match parse_size(parts[3].as_str()) {
        None => {
            return Err("finding end is not an integer".to_owned());
        },
        Some(end) => end,
    };
    match validate_finding_evidence(parts[1].as_str(), start, end, candidate) {
        Err(error) => {
            return Err(error.to_owned());
        },
        Ok(()) => {},
    }
    if blank(message.as_str()) {
        return Err("finding message is required".to_owned());
    }
    let finding = Finding::new(
        kind,
        parts[1].clone(),
        start,
        end,
        message.clone(),
        candidate_hash.to_owned(),
    );
    Ok(
        Finding {
            id: finding.id,
            kind,
            artifact: finding.artifact,
            start,
            end,
            message: concat3(role.name(), ": ", message.as_str()),
            evidence_hash: finding.evidence_hash,
            candidate_hash: finding.candidate_hash,
            disposition: FindingDisposition::Open,
        },
    )
}

/// Reads the findings that the report of a critic holds.
pub fn parse_findings(text: &str, role: AgentRole, candidate_hash: &str, candidate: &str) -> (r:
    Result<Vec<Finding>, String>)
    ensures
        match findings_of(text@, role, candidate_hash@, candidate@) {
            Ok(list) => r is Ok && finding_models(r->Ok_0@) == list,
            Err(message) => r is Err && r->Err_0@ == message,
        },
{
    let lines = split_lines(text);
    let ghost all = text_lines(text@);
    let ghost goal = findings_of(text@, role, candidate_hash@, candidate@);
    let mut findings: Vec<Finding> = Vec::new();
    let mut i: usize = 0;
    assert(finding_models(findings@) =~= Seq::<FindingModel>::empty());
    while i < lines.len()
        invariant
            i <= lines@.len(),
            all == texts(lines@),
            goal == findings_of(text@, role, candidate_hash@, candidate@),
            goal == report_findings(
                all,
                i as int,
                role,
                candidate_hash@,
                candidate@,
                finding_models(findings@),
            ),
        decreases lines@.len() - i,
    {
        assert(all[i as int] == lines@[i as int]@);
        if let Some(body) = strip_prefix(lines[i].as_str(), "FINDING|") {
            let parts = split_text(body.as_str(), '|');
            assert(texts(parts@).len() == parts@.len());
            if parts.len() < 5 {
                return Err(concat2("malformed finding evidence from ", role.name()));
            }
            match parse_parts(parts.as_slice(), role, candidate_hash, candidate) {
                Err(message) => {
                    return Err(message);
                },
                Ok(finding) => {
                    let ghost before = finding_models(findings@);
                    let ghost item = finding@;
                    findings.push(finding);
                    assert(finding_models(findings@) =~= before.push(item));
                },
            }
        }
        i += 1;
    }
    Ok(findings)
}

/// The same evidence about the same candidate is the same finding, whoever reports it.
pub proof fn finding_id_ignores_reporter(
    parts: Seq<Seq<char>>,
    first: AgentRole,
    second: AgentRole,
    candidate_hash: Seq<char>,
    candidate: Seq<char>,
)
    requires
        reported_finding(parts, first, candidate_hash, candidate) is Ok,
    ensures
        reported_finding(parts, second, candidate_hash, candidate) is Ok,
        reported_finding(parts, first, candidate_hash, candidate)->Ok_0.id == reported_finding(
            parts,
            second,
            candidate_hash,
            candidate,
        )->Ok_0.id,
{
}

/// A finding about one candidate does not keep another from being approved.
pub proof fn finding_is_bound_to_its_candidate(finding: FindingModel, candidate_hash: Seq<char>)
    requires
        finding.candidate_hash != candidate_hash,
    ensures
        !finding_blocks(finding, candidate_hash),
{
}

} // verus!
