//! Source manifests and snapshots.
use vstd::prelude::*;
use vstd::string::StringExecFns;
use vstd::utf8::valid_utf8;
use crate::domain::{is_id_of, is_prefixed_uuid, EntityId, EntityKind};
use crate::hash::{digest_text, sha256_bytes, sha256_text};
use crate::order::{lemma_placed_at, ordered_by, placed_by};
use crate::paths::{copy_bytes, paths_agree, same_path};
use crate::project::{mapping_strings, mappings_equal, markdown_of, parse_markdown, MarkdownArtifact};
use crate::text::{before, blank, concat3, decode, decoding_inverts_encoding, is_blank, is_digest, is_sha256, join, join_texts, opt_text, str_eq, text_before, text_of, texts, utf8, utf8_error};
use crate::web::{url_error, validate_web_url};

verus! {

/// Class of a source failure.
#[derive(Clone, Copy, Debug, PartialEq, Eq, Structural)]
pub enum SourceErrorKind {
    /// A path or directory cannot be granted.
    InvalidGrant,
    /// Granted files changed.
    GrantChanged,
    /// The manifest breaks a rule.
    InvalidManifest,
    /// The file format is not supported.
    UnsupportedFormat,
    /// Bytes are not UTF-8.
    InvalidUtf8,
    /// A document has no extractable text.
    OcrRequired,
    /// A URL may not be fetched.
    UnsafeUrl,
    /// A redirect may not be followed.
    Redirect,
    /// A body is too large.
    TooLarge,
    /// A request failed.
    Network,
    /// A file operation failed.
    Io,
}

/// Why a source was refused.
#[derive(Debug)]
pub struct SourceError {
    kind: SourceErrorKind,
    message: String,
}

/// Class and message of a source failure.
pub type SourceFailure = (SourceErrorKind, Seq<char>);

impl View for SourceError {
    type V = SourceFailure;

    closed spec fn view(&self) -> SourceFailure {
        (self.kind, self.message@)
    }
}

impl SourceError {
    /// Builds an error from its class and message.
    pub fn new(kind: SourceErrorKind, message: String) -> (r: SourceError)
        ensures
            r@ == (kind, message@),
    {
        SourceError { kind, message }
    }

    /// Returns the class of the error.
    pub fn kind(&self) -> (r: SourceErrorKind)
        ensures
            r == self@.0,
    {
        self.kind
    }

    /// Returns the message of the error.
    pub fn to_text(&self) -> (r: String)
        ensures
            r@ == self@.1,
    {
        self.message.clone()
    }
}

/// Builds a failed result.
pub(crate) fn fail<T>(kind: SourceErrorKind, message: &str) -> (r: Result<T, SourceError>)
    ensures
        r is Err,
        r->Err_0@ == (kind, message@),
{
    Err(SourceError::new(kind, message.to_owned()))
}

/// Builds a failed result whose message is made of three parts.
pub(crate) fn fail_with<T>(kind: SourceErrorKind, a: &str, b: &str, c: &str) -> (r: Result<
    T,
    SourceError,
>)
    ensures
        r is Err,
        r->Err_0@ == (kind, a@ + b@ + c@),
{
    Err(SourceError::new(kind, concat3(a, b, c)))
}

/// Format of a source.
#[derive(Clone, Copy, Debug, PartialEq, Eq, Structural)]
pub enum SourceKind {
    /// Plain text.
    PlainText,
    /// Markdown.
    Markdown,
    /// PDF.
    Pdf,
    /// A web page.
    Web,
}

/// Where a source applies.
#[derive(Clone, Debug, PartialEq, Eq)]
pub enum SourceScope {
    /// Everywhere.
    Work,
    /// In a part.
    Part(String),
    /// In a chapter.
    Chapter(String),
    /// In a scene.
    Scene(String),
    /// For a role.
    Role(String),
}

/// A scope by its view.
pub enum ScopeModel {
    Work,
    Part(Seq<char>),
    Chapter(Seq<char>),
    Scene(Seq<char>),
    Role(Seq<char>),
}

impl View for SourceScope {
    type V = ScopeModel;

    open spec fn view(&self) -> ScopeModel {
        match self {
            SourceScope::Work => ScopeModel::Work,
            SourceScope::Part(id) => ScopeModel::Part(id@),
            SourceScope::Chapter(id) => ScopeModel::Chapter(id@),
            SourceScope::Scene(id) => ScopeModel::Scene(id@),
            SourceScope::Role(role) => ScopeModel::Role(role@),
        }
    }
}

/// Whether a scope covers a target, given the target and its ancestors, and a role.
pub open spec fn scope_applies(
    scope: ScopeModel,
    target_and_ancestors: Seq<Seq<char>>,
    role: Seq<char>,
) -> bool {
    match scope {
        ScopeModel::Work => true,
        ScopeModel::Part(id) => target_and_ancestors.contains(id),
        ScopeModel::Chapter(id) => target_and_ancestors.contains(id),
        ScopeModel::Scene(id) => target_and_ancestors.contains(id),
        ScopeModel::Role(expected) => expected == role,
    }
}

impl SourceScope {
    /// Returns whether the scope covers a target, given the target and its ancestors, and a role.
    pub fn applies_to(&self, target_and_ancestors: &[String], role: &str) -> (r: bool)
        ensures
            r == scope_applies(self@, texts(target_and_ancestors@), role@),
    {
        proof {
            match self@ {
                ScopeModel::Part(id) => crate::text::lemma_has_text(target_and_ancestors@, id),
                ScopeModel::Chapter(id) => crate::text::lemma_has_text(target_and_ancestors@, id),
                ScopeModel::Scene(id) => crate::text::lemma_has_text(target_and_ancestors@, id),
                _ => {},
            }
        }
        match self {
            SourceScope::Work => true,
            SourceScope::Part(id) => crate::text::contains_text(
                target_and_ancestors,
                id.as_str(),
            ),
            SourceScope::Chapter(id) => crate::text::contains_text(
                target_and_ancestors,
                id.as_str(),
            ),
            SourceScope::Scene(id) => crate::text::contains_text(
                target_and_ancestors,
                id.as_str(),
            ),
            SourceScope::Role(expected) => str_eq(expected.as_str(), role),
        }
    }

    /// Copies the scope.
    pub fn copy(&self) -> (r: SourceScope)
        ensures
            r@ == self@,
    {
        match self {
            SourceScope::Work => SourceScope::Work,
            SourceScope::Part(id) => SourceScope::Part(id.clone()),
            SourceScope::Chapter(id) => SourceScope::Chapter(id.clone()),
            SourceScope::Scene(id) => SourceScope::Scene(id.clone()),
            SourceScope::Role(role) => SourceScope::Role(role.clone()),
        }
    }
}

/// How a source may enter a context.
#[derive(Clone, Copy, Debug, PartialEq, Eq, Structural)]
pub enum SourceTier {
    /// As a whole, or not at all.
    RequiredRaw,
    /// As a whole or as a summary.
    Compactable,
    /// As a whole or left out.
    Optional,
}

impl Default for SourceTier {
    fn default() -> (r: SourceTier)
        ensures
            r == SourceTier::Compactable,
    {
        SourceTier::Compactable
    }
}

/// Durable reference to a snapshot.
#[derive(Clone, Debug, PartialEq, Eq)]
pub struct SnapshotReference {
    /// Digest of the raw bytes.
    pub raw_sha256: String,
    /// Digest of the text content.
    pub content_sha256: String,
    /// File of the raw bytes.
    pub raw_artifact: Option<String>,
    /// File of the text content.
    pub content_artifact: Option<String>,
    /// Whether nothing of the source may be stored.
    pub ephemeral: bool,
}

/// A reference by the views of its fields.
pub struct ReferenceModel {
    pub raw_sha256: Seq<char>,
    pub content_sha256: Seq<char>,
    pub raw_artifact: Option<Seq<char>>,
    pub content_artifact: Option<Seq<char>>,
    pub ephemeral: bool,
}

impl View for SnapshotReference {
    type V = ReferenceModel;

    open spec fn view(&self) -> ReferenceModel {
        ReferenceModel {
            raw_sha256: self.raw_sha256@,
            content_sha256: self.content_sha256@,
            raw_artifact: opt_text(self.raw_artifact),
            content_artifact: opt_text(self.content_artifact),
            ephemeral: self.ephemeral,
        }
    }
}

/// A header of a web response.
#[derive(Clone, Debug, PartialEq, Eq)]
pub struct Header {
    /// Header name.
    pub name: String,
    /// Header value.
    pub value: String,
}

/// The names and values of headers.
pub open spec fn headers(items: Seq<Header>) -> Seq<(Seq<char>, Seq<char>)> {
    items.map_values(|item: Header| (item.name@, item.value@))
}

/// Evidence of how a web page was fetched.
#[derive(Clone, Debug, PartialEq, Eq)]
pub struct WebSnapshotMetadata {
    /// URL that was asked for.
    pub initial_url: String,
    /// URL that answered.
    pub final_url: String,
    /// URLs on the way, the final one last.
    pub redirect_chain: Vec<String>,
    /// Headers of the answer.
    pub selected_headers: Vec<Header>,
    /// Time of the answer.
    pub retrieved_unix_seconds: u64,
    /// Converter that made the text content.
    pub converter_version: String,
    /// Digest of the raw bytes.
    pub raw_sha256: String,
    /// Digest of the text content.
    pub content_sha256: String,
}

/// Web evidence by the views of its fields.
pub struct WebModel {
    pub initial_url: Seq<char>,
    pub final_url: Seq<char>,
    pub redirect_chain: Seq<Seq<char>>,
    pub selected_headers: Seq<(Seq<char>, Seq<char>)>,
    pub retrieved_unix_seconds: u64,
    pub converter_version: Seq<char>,
    pub raw_sha256: Seq<char>,
    pub content_sha256: Seq<char>,
}

impl View for WebSnapshotMetadata {
    type V = WebModel;

    open spec fn view(&self) -> WebModel {
        WebModel {
            initial_url: self.initial_url@,
            final_url: self.final_url@,
            redirect_chain: texts(self.redirect_chain@),
            selected_headers: headers(self.selected_headers@),
            retrieved_unix_seconds: self.retrieved_unix_seconds,
            converter_version: self.converter_version@,
            raw_sha256: self.raw_sha256@,
            content_sha256: self.content_sha256@,
        }
    }
}

/// The view of optional web evidence.
pub open spec fn opt_web(item: Option<WebSnapshotMetadata>) -> Option<WebModel> {
    match item {
        Some(web) => Some(web@),
        None => None,
    }
}

/// Copies texts.
pub fn copy_texts(items: &[String]) -> (r: Vec<String>)
    ensures
        texts(r@) == texts(items@),
{
    let mut out: Vec<String> = Vec::new();
    let mut i: usize = 0;
    while i < items.len()
        invariant
            i <= items@.len(),
            out@.len() == i,
            forall|k: int| 0 <= k < i ==> #[trigger] out@[k]@ == items@[k]@,
        decreases items@.len() - i,
    {
        out.push(items[i].clone());
        i += 1;
    }
    assert(texts(out@) =~= texts(items@));
    out
}

fn same_text_lists(a: &[String], b: &[String]) -> (r: bool)
    ensures
        r == (texts(a@) == texts(b@)),
{
    let ghost x = texts(a@);
    let ghost y = texts(b@);
    if a.len() != b.len() {
        assert(x.len() != y.len());
        return false;
    }
    let mut i: usize = 0;
    while i < a.len()
        invariant
            i <= a@.len(),
            a@.len() == b@.len(),
            x == texts(a@),
            y == texts(b@),
            forall|k: int| 0 <= k < i ==> #[trigger] a@[k]@ == b@[k]@,
        decreases a@.len() - i,
    {
        if !(a[i] == b[i]) {
            assert(x[i as int] == a@[i as int]@ && y[i as int] == b@[i as int]@);
            return false;
        }
        i += 1;
    }
    assert(x =~= y);
    true
}

fn same_headers(a: &[Header], b: &[Header]) -> (r: bool)
    ensures
        r == (headers(a@) == headers(b@)),
{
    let ghost x = headers(a@);
    let ghost y = headers(b@);
    if a.len() != b.len() {
        assert(x.len() != y.len());
        return false;
    }
    let mut i: usize = 0;
    while i < a.len()
        invariant
            i <= a@.len(),
            a@.len() == b@.len(),
            x == headers(a@),
            y == headers(b@),
            forall|k: int| 0 <= k < i ==> #[trigger] x[k] == y[k],
        decreases a@.len() - i,
    {
        assert(x[i as int] == (a@[i as int].name@, a@[i as int].value@));
        assert(y[i as int] == (b@[i as int].name@, b@[i as int].value@));
        if !(a[i].name == b[i].name && a[i].value == b[i].value) {
            return false;
        }
        i += 1;
    }
    assert(x =~= y);
    true
}

fn copy_headers(items: &[Header]) -> (r: Vec<Header>)
    ensures
        headers(r@) == headers(items@),
{
    let mut out: Vec<Header> = Vec::new();
    let mut i: usize = 0;
    while i < items.len()
        invariant
            i <= items@.len(),
            out@.len() == i,
            forall|k: int|
                0 <= k < i ==> (#[trigger] out@[k]).name@ == items@[k].name@ && out@[k].value@
                    == items@[k].value@,
        decreases items@.len() - i,
    {
        out.push(Header { name: items[i].name.clone(), value: items[i].value.clone() });
        i += 1;
    }
    assert(headers(out@) =~= headers(items@));
    out
}

impl WebSnapshotMetadata {
    /// Copies the evidence.
    pub fn copy(&self) -> (r: WebSnapshotMetadata)
        ensures
            r@ == self@,
    {
        WebSnapshotMetadata {
            initial_url: self.initial_url.clone(),
            final_url: self.final_url.clone(),
            redirect_chain: copy_texts(self.redirect_chain.as_slice()),
            selected_headers: copy_headers(self.selected_headers.as_slice()),
            retrieved_unix_seconds: self.retrieved_unix_seconds,
            converter_version: self.converter_version.clone(),
            raw_sha256: self.raw_sha256.clone(),
            content_sha256: self.content_sha256.clone(),
        }
    }

    /// Returns whether two records of evidence are equal.
    pub fn same(&self, other: &WebSnapshotMetadata) -> (r: bool)
        ensures
            r == (self@ == other@),
    {
        self.initial_url == other.initial_url && self.final_url == other.final_url
            && same_text_lists(self.redirect_chain.as_slice(), other.redirect_chain.as_slice())
            && same_headers(self.selected_headers.as_slice(), other.selected_headers.as_slice())
            && self.retrieved_unix_seconds == other.retrieved_unix_seconds
            && self.converter_version == other.converter_version && self.raw_sha256
            == other.raw_sha256 && self.content_sha256 == other.content_sha256
    }
}

/// One source of a work.
#[derive(Clone, Debug, PartialEq, Eq)]
pub struct SourceEntry {
    /// Identifier of the source.
    pub source_id: EntityId,
    /// Format.
    pub kind: SourceKind,
    /// Where it applies.
    pub scope: SourceScope,
    /// How it may enter a context.
    pub tier: SourceTier,
    /// Digest that the source must have.
    pub expected_sha256: String,
    /// Snapshot of the source.
    pub snapshot: SnapshotReference,
    /// Evidence of a web source.
    pub web: Option<WebSnapshotMetadata>,
}

/// A source entry by the views of its fields.
pub struct EntryModel {
    pub source_id: Seq<char>,
    pub kind: SourceKind,
    pub scope: ScopeModel,
    pub tier: SourceTier,
    pub expected_sha256: Seq<char>,
    pub snapshot: ReferenceModel,
    pub web: Option<WebModel>,
}

impl View for SourceEntry {
    type V = EntryModel;

    open spec fn view(&self) -> EntryModel {
        EntryModel {
            source_id: self.source_id@,
            kind: self.kind,
            scope: self.scope@,
            tier: self.tier,
            expected_sha256: self.expected_sha256@,
            snapshot: self.snapshot@,
            web: opt_web(self.web),
        }
    }
}

/// The views of source entries.
pub open spec fn entry_models(items: Seq<SourceEntry>) -> Seq<EntryModel> {
    items.map_values(|item: SourceEntry| item@)
}

/// The entry that records a snapshot.
pub open spec fn snapshot_entry(
    source_id: Seq<char>,
    scope: ScopeModel,
    tier: SourceTier,
    snapshot: SnapshotModel,
) -> EntryModel {
    EntryModel {
        source_id,
        kind: snapshot.kind,
        scope,
        tier,
        expected_sha256: snapshot.sha256,
        snapshot: reference_of(snapshot),
        web: visible_web(snapshot),
    }
}

impl SourceEntry {
    /// Records a snapshot as a source.
    pub fn from_snapshot(
        source_id: EntityId,
        scope: SourceScope,
        tier: SourceTier,
        snapshot: &Snapshot,
    ) -> (r: SourceEntry)
        ensures
            r@ == snapshot_entry(source_id@, scope@, tier, snapshot@),
    {
        let web = match snapshot.web_metadata() {
            Some(web) => Some(web.copy()),
            None => None,
        };
        SourceEntry {
            source_id,
            kind: snapshot.kind,
            scope,
            tier,
            expected_sha256: snapshot.sha256.clone(),
            snapshot: snapshot.reference(),
            web,
        }
    }
}

/// The failure of an entry's scope, where there is one.
pub open spec fn scope_error(scope: ScopeModel) -> Option<SourceFailure> {
    let valid = match scope {
        ScopeModel::Work => true,
        ScopeModel::Part(id) => is_id_of(id, EntityKind::Part),
        ScopeModel::Chapter(id) => is_id_of(id, EntityKind::Chapter),
        ScopeModel::Scene(id) => is_id_of(id, EntityKind::Scene),
        ScopeModel::Role(role) => !is_blank(role),
    };
    if valid {
        None
    } else {
        Some(
            (
                SourceErrorKind::InvalidManifest,
                "source scope has an invalid ID or empty role"@,
            ),
        )
    }
}

/// A result without a value, by its failure.
pub open spec fn failure(r: Result<(), SourceError>) -> Option<SourceFailure> {
    match r {
        Ok(()) => None,
        Err(error) => Some(error@),
    }
}

fn validate_scope(scope: &SourceScope) -> (r: Result<(), SourceError>)
    ensures
        failure(r) == scope_error(scope@),
{
    let valid = match scope {
        SourceScope::Work => true,
        SourceScope::Part(id) => is_prefixed_uuid(id.as_str(), EntityKind::Part),
        SourceScope::Chapter(id) => is_prefixed_uuid(id.as_str(), EntityKind::Chapter),
        SourceScope::Scene(id) => is_prefixed_uuid(id.as_str(), EntityKind::Scene),
        SourceScope::Role(role) => !blank(role.as_str()),
    };
    if valid {
        Ok(())
    } else {
        fail(
            SourceErrorKind::InvalidManifest,
            "source scope has an invalid ID or empty role",
        )
    }
}

/// The file of the raw bytes with a digest.
pub open spec fn raw_path(sha256: Seq<char>) -> Seq<char> {
    "資料/snapshots/"@ + sha256 + ".raw"@
}

/// The file of the text content of the raw bytes with a digest.
pub open spec fn content_path(sha256: Seq<char>) -> Seq<char> {
    "資料/snapshots/"@ + sha256 + ".context.txt"@
}

/// Whether an optional path is there and has the components of another one.
pub open spec fn names_path(path: Option<Seq<char>>, expected: Seq<char>) -> bool {
    match path {
        Some(given) => paths_agree(given, expected),
        None => false,
    }
}

/// Whether a reference names the files that its digests determine.
pub open spec fn paths_expected(reference: ReferenceModel) -> bool {
    &&& names_path(reference.raw_artifact, raw_path(reference.raw_sha256))
    &&& names_path(
        reference.content_artifact,
        if reference.raw_sha256 == reference.content_sha256 {
            raw_path(reference.raw_sha256)
        } else {
            content_path(reference.raw_sha256)
        },
    )
}

fn has_expected_artifact_paths(reference: &SnapshotReference) -> (r: bool)
    ensures
        r == paths_expected(reference@),
{
    let raw = concat3("資料/snapshots/", reference.raw_sha256.as_str(), ".raw");
    let content = if reference.raw_sha256 == reference.content_sha256 {
        raw.clone()
    } else {
        concat3("資料/snapshots/", reference.raw_sha256.as_str(), ".context.txt")
    };
    let raw_fits = match &reference.raw_artifact {
        Some(path) => same_path(path.as_str(), raw.as_str()),
        None => false,
    };
    let content_fits = match &reference.content_artifact {
        Some(path) => same_path(path.as_str(), content.as_str()),
        None => false,
    };
    raw_fits && content_fits
}

/// The failure of a manifest entry with the given message around its identifier.
pub open spec fn entry_failure(before_id: Seq<char>, id: Seq<char>, after_id: Seq<char>) -> Option<
    SourceFailure,
> {
    Some((SourceErrorKind::InvalidManifest, before_id + id + after_id))
}

/// The URLs of web evidence, in the order in which they are checked.
pub open spec fn web_urls(web: WebModel) -> Seq<Seq<char>> {
    seq![web.initial_url, web.final_url] + web.redirect_chain
}

/// The first URL failure from `i` on.
pub open spec fn urls_error(urls: Seq<Seq<char>>, i: int) -> Option<SourceFailure>
    decreases urls.len() - i,
{
    if i < 0 || i >= urls.len() {
        None
    } else {
        match url_error(urls[i]) {
            Some(error) => Some(error),
            None => urls_error(urls, i + 1),
        }
    }
}

/// The failure of entry `i` of a manifest, where there is one.
pub open spec fn entry_error(entries: Seq<EntryModel>, i: int) -> Option<SourceFailure> {
    let entry = entries[i];
    let id = entry.source_id;
    if !is_id_of(id, EntityKind::Source) {
        entry_failure("source entry has an invalid source ID: "@, id, ""@)
    } else if exists|j: int| 0 <= j < i && (#[trigger] entries[j]).source_id == id {
        entry_failure("source manifest repeats "@, id, ""@)
    } else if scope_error(entry.scope) is Some {
        scope_error(entry.scope)
    } else if !is_digest(entry.expected_sha256) || !is_digest(entry.snapshot.raw_sha256)
        || !is_digest(entry.snapshot.content_sha256) {
        entry_failure("source "@, id, " has an invalid SHA-256"@)
    } else if entry.expected_sha256 != entry.snapshot.raw_sha256 {
        entry_failure("source "@, id, " expected hash does not match its snapshot"@)
    } else if entry.snapshot.ephemeral && (entry.snapshot.raw_artifact is Some
        || entry.snapshot.content_artifact is Some || entry.web is Some) {
        entry_failure("secret source "@, id, " names durable source metadata"@)
    } else if !entry.snapshot.ephemeral && !paths_expected(entry.snapshot) {
        entry_failure(
            "source "@,
            id,
            " has unsafe or incomplete snapshot artifact paths"@,
        )
    } else if entry.kind == SourceKind::Web && !entry.snapshot.ephemeral && entry.web is None {
        entry_failure("web source "@, id, " lacks snapshot metadata"@)
    } else if entry.kind != SourceKind::Web && entry.web is Some {
        entry_failure("non-web source "@, id, " has web snapshot metadata"@)
    } else {
        match entry.web {
            None => None,
            Some(web) => {
                if web.raw_sha256 != entry.snapshot.raw_sha256 || web.content_sha256
                    != entry.snapshot.content_sha256 {
                    entry_failure(
                        "web source "@,
                        id,
                        " metadata hashes do not match its snapshot"@,
                    )
                } else {
                    match urls_error(web_urls(web), 0) {
                        None => None,
                        Some(error) => entry_failure(
                            "web source "@,
                            id,
                            " has unsafe metadata: "@ + error.1,
                        ),
                    }
                }
            },
        }
    }
}

/// The failure of the entries from `i` on, where there is one.
pub open spec fn entries_error(entries: Seq<EntryModel>, i: int) -> Option<SourceFailure>
    decreases entries.len() - i,
{
    if i < 0 || i >= entries.len() {
        None
    } else {
        match entry_error(entries, i) {
            Some(error) => Some(error),
            None => entries_error(entries, i + 1),
        }
    }
}

fn validate_urls(web: &WebSnapshotMetadata) -> (r: Result<(), SourceError>)
    ensures
        failure(r) == urls_error(web_urls(web@), 0),
{
    let ghost urls = web_urls(web@);
    assert(urls[0] == web.initial_url@ && urls[1] == web.final_url@);
    match validate_web_url(web.initial_url.as_str()) {
        Err(error) => {
            return Err(error);
        },
        Ok(_) => {},
    }
    match validate_web_url(web.final_url.as_str()) {
        Err(error) => {
            assert(urls_error(urls, 0) == urls_error(urls, 1));
            return Err(error);
        },
        Ok(_) => {},
    }
    assert(urls_error(urls, 0) == urls_error(urls, 1));
    let mut i: usize = 0;
    while i < web.redirect_chain.len()
        invariant
            i <= web.redirect_chain@.len(),
            urls == web_urls(web@),
            urls.len() == web.redirect_chain@.len() + 2,
            urls_error(urls, 0) == urls_error(urls, i + 2),
        decreases web.redirect_chain@.len() - i,
    {
        assert(urls[i + 2] == web.redirect_chain@[i as int]@);
        match validate_web_url(web.redirect_chain[i].as_str()) {
            Err(error) => {
                return Err(error);
            },
            Ok(_) => {},
        }
        i += 1;
    }
    Ok(())
}

fn names_earlier(entries: &[SourceEntry], i: usize) -> (r: bool)
    requires
        i < entries@.len(),
    ensures
        r == exists|j: int|
            0 <= j < i && (#[trigger] entry_models(entries@)[j]).source_id == entry_models(
                entries@,
            )[i as int].source_id,
{
    let ghost all = entry_models(entries@);
    let mut j: usize = 0;
    while j < i
        invariant
            j <= i < entries@.len(),
            all == entry_models(entries@),
            forall|k: int|
                0 <= k < j ==> (#[trigger] all[k]).source_id != all[i as int].source_id,
        decreases i - j,
    {
        assert(all[j as int] == entries@[j as int]@);
        assert(all[i as int] == entries@[i as int]@);
        if entries[j].source_id.same(&entries[i].source_id) {
            return true;
        }
        j += 1;
    }
    false
}

fn validate_entry(entries: &[SourceEntry], i: usize) -> (r: Result<(), SourceError>)
    requires
        i < entries@.len(),
    ensures
        failure(r) == entry_error(entry_models(entries@), i as int),
{
    let entry = &entries[i];
    let id = entry.source_id.as_str();
    assert(entry_models(entries@)[i as int] == entry@);
    let kind = SourceErrorKind::InvalidManifest;
    if !is_prefixed_uuid(id, EntityKind::Source) {
        return fail_with(kind, "source entry has an invalid source ID: ", id, "");
    }
    if names_earlier(entries, i) {
        return fail_with(kind, "source manifest repeats ", id, "");
    }
    match validate_scope(&entry.scope) {
        Err(error) => {
            return Err(error);
        },
        Ok(()) => {},
    }
    if !is_sha256(entry.expected_sha256.as_str()) || !is_sha256(entry.snapshot.raw_sha256.as_str())
        || !is_sha256(entry.snapshot.content_sha256.as_str()) {
        return fail_with(kind, "source ", id, " has an invalid SHA-256");
    }
    if !(entry.expected_sha256 == entry.snapshot.raw_sha256) {
        return fail_with(kind, "source ", id, " expected hash does not match its snapshot");
    }
    if entry.snapshot.ephemeral && (entry.snapshot.raw_artifact.is_some()
        || entry.snapshot.content_artifact.is_some() || entry.web.is_some()) {
        return fail_with(kind, "secret source ", id, " names durable source metadata");
    }
    if !entry.snapshot.ephemeral && !has_expected_artifact_paths(&entry.snapshot) {
        return fail_with(
            kind,
            "source ",
            id,
            " has unsafe or incomplete snapshot artifact paths",
        );
    }
    if entry.kind == SourceKind::Web && !entry.snapshot.ephemeral && entry.web.is_none() {
        return fail_with(kind, "web source ", id, " lacks snapshot metadata");
    }
    if entry.kind != SourceKind::Web && entry.web.is_some() {
        return fail_with(kind, "non-web source ", id, " has web snapshot metadata");
    }
    match &entry.web {
        None => Ok(()),
        Some(web) => {
            if !(web.raw_sha256 == entry.snapshot.raw_sha256) || !(web.content_sha256
                == entry.snapshot.content_sha256) {
                return fail_with(
                    kind,
                    "web source ",
                    id,
                    " metadata hashes do not match its snapshot",
                );
            }
            match validate_urls(web) {
                Ok(()) => Ok(()),
                Err(error) => {
                    let mut tail = " has unsafe metadata: ".to_owned();
                    tail.append(error.to_text().as_str());
                    fail_with(kind, "web source ", id, tail.as_str())
                },
            }
        },
    }
}

/// The sources of a work.
#[derive(Clone, Debug, PartialEq, Eq)]
pub struct SourceManifest {
    /// Entries in the order of their identifiers.
    pub entries: Vec<SourceEntry>,
}

impl Default for SourceManifest {
    fn default() -> (r: SourceManifest)
        ensures
            r.entries@.len() == 0,
    {
        SourceManifest { entries: Vec::new() }
    }
}

/// Whether one entry comes before another.
pub open spec fn entry_order() -> spec_fn(EntryModel, EntryModel) -> bool {
    |a: EntryModel, b: EntryModel| text_before(a.source_id, b.source_id)
}

fn place_entry(list: &mut Vec<SourceEntry>, entry: SourceEntry)
    ensures
        entry_models(final(list)@) == placed_by(entry_models(old(list)@), entry@, entry_order()),
{
    let ghost models = entry_models(list@);
    let ghost item = entry@;
    let mut k: usize = 0;
    while k < list.len() && !before(entry.source_id.as_str(), list[k].source_id.as_str())
        invariant
            k <= list@.len(),
            list@ == old(list)@,
            item == entry@,
            models == entry_models(list@),
            forall|j: int| 0 <= j < k ==> !entry_order()(item, #[trigger] models[j]),
        decreases list@.len() - k,
    {
        assert(models[k as int] == list@[k as int]@);
        k += 1;
    }
    proof {
        if k < list@.len() {
            assert(models[k as int] == list@[k as int]@);
        }
        lemma_placed_at(models, item, entry_order(), k as int);
    }
    list.insert(k, entry);
    assert(entry_models(list@) =~= models.insert(k as int, item));
}

fn order_entries(entries: Vec<SourceEntry>) -> (r: Vec<SourceEntry>)
    ensures
        entry_models(r@) == ordered_by(entry_models(entries@), entry_order()),
{
    let ghost all = entry_models(entries@);
    let mut rest = entries;
    let mut out: Vec<SourceEntry> = Vec::new();
    let ghost mut taken: int = 0;
    assert(entry_models(out@) =~= ordered_by(all.take(0), entry_order()));
    assert(entry_models(rest@) =~= all.skip(0));
    while rest.len() > 0
        invariant
            0 <= taken <= all.len(),
            entry_models(rest@) == all.skip(taken),
            entry_models(out@) == ordered_by(all.take(taken), entry_order()),
        decreases rest@.len(),
    {
        let ghost prior = rest@;
        assert(entry_models(rest@).len() == rest@.len());
        let entry = rest.remove(0);
        assert(entry_models(prior)[0] == entry@);
        assert(all.skip(taken)[0] == all[taken]);
        place_entry(&mut out, entry);
        proof {
            assert(all.take(taken + 1).drop_last() =~= all.take(taken));
            assert forall|j: int| 0 <= j < rest@.len() implies #[trigger] entry_models(rest@)[j]
                == all.skip(taken + 1)[j] by {
                assert(rest@[j] == prior[j + 1]);
                assert(entry_models(prior)[j + 1] == all.skip(taken)[j + 1]);
            }
            assert(entry_models(rest@) =~= all.skip(taken + 1));
            taken = taken + 1;
        }
    }
    assert(entry_models(rest@).len() == 0);
    assert(all.take(taken) =~= all);
    out
}

impl SourceManifest {
    /// The entries by their views.
    pub open spec fn models(&self) -> Seq<EntryModel> {
        entry_models(self.entries@)
    }

    /// Builds a manifest: entries are brought in the order of their identifiers and validated.
    pub fn new(entries: Vec<SourceEntry>) -> (r: Result<SourceManifest, SourceError>)
        ensures
            match r {
                Ok(manifest) => manifest.models() == ordered_by(
                    entry_models(entries@),
                    entry_order(),
                ) && entries_error(manifest.models(), 0) is None,
                Err(error) => entries_error(
                    ordered_by(entry_models(entries@), entry_order()),
                    0,
                ) == Some(error@),
            },
    {
        let manifest = SourceManifest { entries: order_entries(entries) };
        match manifest.validate() {
            Err(error) => Err(error),
            Ok(()) => Ok(manifest),
        }
    }

    /// Returns the entries.
    pub fn entries(&self) -> (r: &[SourceEntry])
        ensures
            r@ == self.entries@,
    {
        self.entries.as_slice()
    }

    /// Checks every entry.
    pub fn validate(&self) -> (r: Result<(), SourceError>)
        ensures
            failure(r) == entries_error(self.models(), 0),
    {
        let ghost all = self.models();
        let mut i: usize = 0;
        while i < self.entries.len()
            invariant
                i <= self.entries@.len(),
                all == self.models(),
                entries_error(all, 0) == entries_error(all, i as int),
            decreases self.entries@.len() - i,
        {
            match validate_entry(self.entries.as_slice(), i) {
                Err(error) => {
                    return Err(error);
                },
                Ok(()) => {},
            }
            i += 1;
        }
        Ok(())
    }
}

/// A manifest file: its Markdown and its entries.
pub struct ManifestDocument {
    artifact: MarkdownArtifact,
    manifest: SourceManifest,
}

impl ManifestDocument {
    /// The Markdown of the document.
    pub closed spec fn markdown(&self) -> MarkdownArtifact {
        self.artifact
    }

    /// The entries of the document.
    pub closed spec fn entries(&self) -> Seq<EntryModel> {
        self.manifest.models()
    }

    /// Builds the document from its bytes and from the entries that its frontmatter holds, or the
    /// message of the failure to read them.
    pub fn parse(bytes: &[u8], entries: Result<Vec<SourceEntry>, String>) -> (r: Result<
        ManifestDocument,
        SourceError,
    >)
        ensures
            match (markdown_of(bytes@), entries) {
                (Err(message), _) => r is Err && r->Err_0@ == (
                    SourceErrorKind::InvalidManifest,
                    "invalid source manifest Markdown: "@ + message,
                ),
                (Ok(_), Err(message)) => r is Err && r->Err_0@ == (
                    SourceErrorKind::InvalidManifest,
                    "invalid source manifest entries: "@ + message@,
                ),
                (Ok(_), Ok(list)) => match r {
                    Ok(document) => {
                        &&& document.markdown().source() == bytes@
                        &&& markdown_of(bytes@) == Ok::<_, Seq<char>>(
                            (
                                mapping_strings(document.markdown().mapping()),
                                document.markdown().offset(),
                            ),
                        )
                        &&& mappings_equal(
                            document.markdown().mapping(),
                            document.markdown().parsed_mapping(),
                        )
                        &&& document.entries() == ordered_by(entry_models(list@), entry_order())
                        &&& entries_error(document.entries(), 0) is None
                    },
                    Err(error) => entries_error(
                        ordered_by(entry_models(list@), entry_order()),
                        0,
                    ) == Some(error@),
                },
            },
    {
        proof {
            reveal_strlit("");
        }
        match parse_markdown(bytes) {
            Err(message) => {
                assert("invalid source manifest Markdown: "@ + message@ + ""@
                    =~= "invalid source manifest Markdown: "@ + message@);
                fail_with(
                    SourceErrorKind::InvalidManifest,
                    "invalid source manifest Markdown: ",
                    message.as_str(),
                    "",
                )
            },
            Ok(artifact) => match entries {
                Err(message) => {
                    assert("invalid source manifest entries: "@ + message@ + ""@
                        =~= "invalid source manifest entries: "@ + message@);
                    fail_with(
                        SourceErrorKind::InvalidManifest,
                        "invalid source manifest entries: ",
                        message.as_str(),
                        "",
                    )
                },
                Ok(list) => match SourceManifest::new(list) {
                    Err(error) => Err(error),
                    Ok(manifest) => Ok(ManifestDocument { artifact, manifest }),
                },
            },
        }
    }

    /// Returns the manifest.
    pub fn manifest(&self) -> (r: &SourceManifest)
        ensures
            r.models() == self.entries(),
    {
        &self.manifest
    }

    /// Returns the manifest for changes.
    pub fn manifest_mut(&mut self) -> (r: &mut SourceManifest)
        ensures
            r.models() == old(self).entries(),
            final(self).entries() == final(r).models(),
            final(self).markdown() == old(self).markdown(),
    {
        &mut self.manifest
    }

    /// Brings the entries in order and validates them, then hands out the Markdown and the
    /// entries that its frontmatter is to hold.
    pub fn render(self) -> (r: Result<(MarkdownArtifact, SourceManifest), SourceError>)
        ensures
            match r {
                Ok((artifact, manifest)) => artifact == self.markdown()
                    && manifest.models() == ordered_by(self.entries(), entry_order())
                    && entries_error(manifest.models(), 0) is None,
                Err(error) => entries_error(ordered_by(self.entries(), entry_order()), 0) == Some(
                    error@,
                ),
            },
    {
        match SourceManifest::new(self.manifest.entries) {
            Err(error) => Err(error),
            Ok(manifest) => Ok((self.artifact, manifest)),
        }
    }
}

/// The content of a source at one moment.
pub struct Snapshot {
    sha256: String,
    content_sha256: String,
    kind: SourceKind,
    byte_len: u64,
    secret: bool,
    web: Option<WebSnapshotMetadata>,
    raw_bytes: Vec<u8>,
    content: String,
}

/// A snapshot by the views of its fields.
pub struct SnapshotModel {
    pub sha256: Seq<char>,
    pub content_sha256: Seq<char>,
    pub kind: SourceKind,
    pub byte_len: u64,
    pub secret: bool,
    pub web: Option<WebModel>,
    pub raw_bytes: Seq<u8>,
    pub content: Seq<char>,
}

impl View for Snapshot {
    type V = SnapshotModel;

    closed spec fn view(&self) -> SnapshotModel {
        SnapshotModel {
            sha256: self.sha256@,
            content_sha256: self.content_sha256@,
            kind: self.kind,
            byte_len: self.byte_len,
            secret: self.secret,
            web: opt_web(self.web),
            raw_bytes: self.raw_bytes@,
            content: self.content@,
        }
    }
}

/// The snapshot of raw bytes and their text content.
pub open spec fn snapshot_of(
    kind: SourceKind,
    raw_bytes: Seq<u8>,
    content: Seq<char>,
    secret: bool,
    web: Option<WebModel>,
) -> SnapshotModel {
    SnapshotModel {
        sha256: digest_text(raw_bytes),
        content_sha256: digest_text(utf8(content)),
        kind,
        byte_len: raw_bytes.len() as u64,
        secret,
        web,
        raw_bytes,
        content,
    }
}

/// The web evidence that a snapshot shows: that of a secret source stays hidden.
pub open spec fn visible_web(snapshot: SnapshotModel) -> Option<WebModel> {
    if snapshot.secret {
        None
    } else {
        snapshot.web
    }
}

/// The durable reference to a snapshot.
pub open spec fn reference_of(snapshot: SnapshotModel) -> ReferenceModel {
    ReferenceModel {
        raw_sha256: snapshot.sha256,
        content_sha256: snapshot.content_sha256,
        raw_artifact: if snapshot.secret {
            None
        } else {
            Some(raw_path(snapshot.sha256))
        },
        content_artifact: if snapshot.secret {
            None
        } else if snapshot.raw_bytes == utf8(snapshot.content) {
            Some(raw_path(snapshot.sha256))
        } else {
            Some(content_path(snapshot.sha256))
        },
        ephemeral: snapshot.secret,
    }
}

/// The files that store a snapshot: none for a secret source, one where the raw bytes are the
/// text content, else two.
pub open spec fn artifacts_of(snapshot: SnapshotModel) -> Seq<(Seq<char>, Seq<char>, Seq<u8>)> {
    let raw = (raw_path(snapshot.sha256), snapshot.sha256, snapshot.raw_bytes);
    if snapshot.secret {
        Seq::empty()
    } else if snapshot.raw_bytes == utf8(snapshot.content) {
        seq![raw]
    } else {
        seq![
            raw,
            (content_path(snapshot.sha256), snapshot.content_sha256, utf8(snapshot.content)),
        ]
    }
}

/// Whether the digests of a snapshot are those of its content.
pub open spec fn hashes_current(snapshot: SnapshotModel) -> bool {
    snapshot.sha256 == digest_text(snapshot.raw_bytes) && snapshot.content_sha256 == digest_text(
        utf8(snapshot.content),
    )
}

/// Whether a snapshot is the one that a manifest entry names.
pub open spec fn snapshot_matches(snapshot: SnapshotModel, entry: EntryModel) -> bool {
    &&& hashes_current(snapshot)
    &&& snapshot.sha256 == entry.expected_sha256
    &&& snapshot.content_sha256 == entry.snapshot.content_sha256
    &&& snapshot.kind == entry.kind
    &&& snapshot.secret == entry.snapshot.ephemeral
    &&& if snapshot.kind == SourceKind::Web {
        if snapshot.secret {
            entry.web is None
        } else {
            snapshot.web == entry.web
        }
    } else {
        snapshot.web is None && entry.web is None
    }
}

pub(crate) fn same_bytes(a: &[u8], b: &[u8]) -> (r: bool)
    ensures
        r == (a@ == b@),
{
    if a.len() != b.len() {
        return false;
    }
    let mut i: usize = 0;
    while i < a.len()
        invariant
            i <= a@.len(),
            a@.len() == b@.len(),
            forall|k: int| 0 <= k < i ==> a@[k] == b@[k],
        decreases a@.len() - i,
    {
        if a[i] != b[i] {
            return false;
        }
        i += 1;
    }
    assert(a@ =~= b@);
    true
}

impl Snapshot {
    /// The digests and the length are those of the content.
    #[verifier::type_invariant]
    spec fn current(self) -> bool {
        hashes_current(self@) && self@.byte_len == self@.raw_bytes.len()
    }

    /// Builds the snapshot of raw bytes and their text content.
    pub(crate) fn from_content(
        kind: SourceKind,
        raw_bytes: Vec<u8>,
        content: String,
        secret: bool,
        web: Option<WebSnapshotMetadata>,
    ) -> (r: Snapshot)
        ensures
            r@ == snapshot_of(kind, raw_bytes@, content@, secret, opt_web(web)),
    {
        let sha256 = sha256_bytes(raw_bytes.as_slice());
        let content_sha256 = sha256_text(content.as_str());
        let byte_len: u64 = raw_bytes.len() as u64;
        Snapshot { sha256, content_sha256, kind, byte_len, secret, web, raw_bytes, content }
    }

    /// Rebuilds a snapshot from its stored files.  A secret source has none.
    pub fn from_artifacts(
        kind: SourceKind,
        raw_bytes: &[u8],
        content_bytes: &[u8],
        secret: bool,
        web: Option<WebSnapshotMetadata>,
    ) -> (r: Result<Snapshot, SourceError>)
        ensures
            match r {
                Ok(snapshot) => valid_utf8(content_bytes@) && !secret && (kind == SourceKind::Web
                    || web is None) && snapshot@ == snapshot_of(
                    kind,
                    raw_bytes@,
                    text_of(content_bytes@),
                    secret,
                    opt_web(web),
                ),
                Err(error) => error@ == (if !valid_utf8(content_bytes@) {
                    (
                        SourceErrorKind::InvalidUtf8,
                        "snapshot content must be UTF-8: "@ + utf8_error(content_bytes@),
                    )
                } else if secret {
                    (
                        SourceErrorKind::InvalidManifest,
                        "secret snapshots cannot be reconstructed from durable artifacts"@,
                    )
                } else {
                    (
                        SourceErrorKind::InvalidManifest,
                        "non-web snapshots cannot carry web metadata"@,
                    )
                }) && (!valid_utf8(content_bytes@) || secret || (kind != SourceKind::Web
                    && web is Some)),
            },
    {
        let content = match decode(copy_bytes(content_bytes)) {
            Err(message) => {
                let mut text = "snapshot content must be UTF-8: ".to_owned();
                text.append(message.as_str());
                return Err(SourceError::new(SourceErrorKind::InvalidUtf8, text));
            },
            Ok(content) => content,
        };
        proof {
            decoding_inverts_encoding(content@);
        }
        if secret {
            return fail(
                SourceErrorKind::InvalidManifest,
                "secret snapshots cannot be reconstructed from durable artifacts",
            );
        }
        if kind != SourceKind::Web && web.is_some() {
            return fail(
                SourceErrorKind::InvalidManifest,
                "non-web snapshots cannot carry web metadata",
            );
        }
        Ok(Snapshot::from_content(kind, copy_bytes(raw_bytes), content, secret, web))
    }

    /// Takes the snapshot of a plain text or Markdown source.
    pub fn from_text(kind: SourceKind, bytes: &[u8], secret: bool) -> (r: Result<
        Snapshot,
        SourceError,
    >)
        ensures
            match r {
                Ok(snapshot) => (kind == SourceKind::PlainText || kind == SourceKind::Markdown)
                    && valid_utf8(bytes@) && snapshot@ == snapshot_of(
                    kind,
                    bytes@,
                    text_of(bytes@),
                    secret,
                    None,
                ),
                Err(error) => if kind == SourceKind::PlainText || kind == SourceKind::Markdown {
                    !valid_utf8(bytes@) && error@ == (
                        SourceErrorKind::InvalidUtf8,
                        "text source must be UTF-8: "@ + utf8_error(bytes@),
                    )
                } else {
                    error@ == (
                        SourceErrorKind::UnsupportedFormat,
                        "from_text only accepts plain text or Markdown"@,
                    )
                },
            },
    {
        if kind != SourceKind::PlainText && kind != SourceKind::Markdown {
            return fail(
                SourceErrorKind::UnsupportedFormat,
                "from_text only accepts plain text or Markdown",
            );
        }
        match decode(copy_bytes(bytes)) {
            Err(message) => {
                let mut text = "text source must be UTF-8: ".to_owned();
                text.append(message.as_str());
                Err(SourceError::new(SourceErrorKind::InvalidUtf8, text))
            },
            Ok(content) => {
                proof {
                    decoding_inverts_encoding(content@);
                }
                Ok(Snapshot::from_content(kind, copy_bytes(bytes), content, secret, None))
            },
        }
    }

    /// Returns the text content.
    pub fn text(&self) -> (r: &str)
        ensures
            r@ == self@.content,
    {
        self.content.as_str()
    }

    /// Returns the digest of the raw bytes.
    pub fn raw_sha256(&self) -> (r: &str)
        ensures
            r@ == self@.sha256,
            hashes_current(self@),
    {
        proof {
            use_type_invariant(self);
        }
        self.sha256.as_str()
    }

    /// Returns the digest of the text content.
    pub fn content_sha256(&self) -> (r: &str)
        ensures
            r@ == self@.content_sha256,
            hashes_current(self@),
    {
        proof {
            use_type_invariant(self);
        }
        self.content_sha256.as_str()
    }

    /// Returns the format.
    pub fn kind(&self) -> (r: SourceKind)
        ensures
            r == self@.kind,
    {
        self.kind
    }

    /// Returns the number of raw bytes.
    pub fn byte_len(&self) -> (r: u64)
        ensures
            r == self@.byte_len,
            r == self@.raw_bytes.len(),
    {
        proof {
            use_type_invariant(self);
        }
        self.byte_len
    }

    /// Returns whether the source is secret.
    pub fn is_secret(&self) -> (r: bool)
        ensures
            r == self@.secret,
    {
        self.secret
    }

    /// Returns the web evidence of a source that is not secret.
    pub fn web_metadata(&self) -> (r: Option<&WebSnapshotMetadata>)
        ensures
            visible_web(self@) == (match r {
                Some(web) => Some(web@),
                None => None,
            }),
    {
        if self.secret {
            None
        } else {
            match &self.web {
                Some(web) => Some(web),
                None => None,
            }
        }
    }

    fn raw_is_content(&self) -> (r: bool)
        ensures
            r == (self@.raw_bytes == utf8(self@.content)),
    {
        same_bytes(self.raw_bytes.as_slice(), self.content.as_str().as_bytes())
    }

    /// Returns the durable reference to the snapshot.
    pub fn reference(&self) -> (r: SnapshotReference)
        ensures
            r@ == reference_of(self@),
            hashes_current(self@),
    {
        proof {
            use_type_invariant(self);
        }
        let raw = concat3("資料/snapshots/", self.sha256.as_str(), ".raw");
        let content_artifact = if self.secret {
            None
        } else if self.raw_is_content() {
            Some(raw.clone())
        } else {
            Some(concat3("資料/snapshots/", self.sha256.as_str(), ".context.txt"))
        };
        let raw_artifact = if self.secret {
            None
        } else {
            Some(raw)
        };
        SnapshotReference {
            raw_sha256: self.sha256.clone(),
            content_sha256: self.content_sha256.clone(),
            raw_artifact,
            content_artifact,
            ephemeral: self.secret,
        }
    }

    /// Returns the files that store the snapshot.
    pub fn candidate_artifacts(&self) -> (r: Vec<SnapshotArtifact>)
        ensures
            artifact_models(r@) == artifacts_of(self@),
            hashes_current(self@),
            forall|i: int|
                0 <= i < r@.len() ==> (#[trigger] r@[i])@.1 == digest_text(r@[i]@.2),
    {
        proof {
            use_type_invariant(self);
        }
        let mut out: Vec<SnapshotArtifact> = Vec::new();
        if !self.secret {
            out.push(
                SnapshotArtifact {
                    path: concat3("資料/snapshots/", self.sha256.as_str(), ".raw"),
                    sha256: self.sha256.clone(),
                    bytes: copy_bytes(self.raw_bytes.as_slice()),
                },
            );
            if !self.raw_is_content() {
                out.push(
                    SnapshotArtifact {
                        path: concat3("資料/snapshots/", self.sha256.as_str(), ".context.txt"),
                        sha256: self.content_sha256.clone(),
                        bytes: copy_bytes(self.content.as_str().as_bytes()),
                    },
                );
            }
        }
        assert(artifact_models(out@) =~= artifacts_of(self@));
        out
    }

    /// Returns whether the snapshot is the one that a manifest entry names.
    pub fn matches_entry(&self, entry: &SourceEntry) -> (r: bool)
        ensures
            r == snapshot_matches(self@, entry@),
    {
        if !(self.sha256 == sha256_bytes(self.raw_bytes.as_slice())) || !(self.content_sha256
            == sha256_text(self.content.as_str())) {
            return false;
        }
        let web_fits = if self.kind == SourceKind::Web {
            if self.secret {
                entry.web.is_none()
            } else {
                match (&self.web, &entry.web) {
                    (Some(a), Some(b)) => a.same(b),
                    (None, None) => true,
                    _ => false,
                }
            }
        } else {
            self.web.is_none() && entry.web.is_none()
        };
        self.sha256 == entry.expected_sha256 && self.content_sha256
            == entry.snapshot.content_sha256 && self.kind == entry.kind && self.secret
            == entry.snapshot.ephemeral && web_fits
    }
}

/// A file that stores part of a snapshot.
pub struct SnapshotArtifact {
    path: String,
    sha256: String,
    bytes: Vec<u8>,
}

impl View for SnapshotArtifact {
    type V = (Seq<char>, Seq<char>, Seq<u8>);

    closed spec fn view(&self) -> (Seq<char>, Seq<char>, Seq<u8>) {
        (self.path@, self.sha256@, self.bytes@)
    }
}

/// The views of snapshot files.
pub open spec fn artifact_models(items: Seq<SnapshotArtifact>) -> Seq<
    (Seq<char>, Seq<char>, Seq<u8>),
> {
    items.map_values(|item: SnapshotArtifact| item@)
}

impl SnapshotArtifact {
    /// Returns the project-relative path.
    pub fn path(&self) -> (r: &str)
        ensures
            r@ == self@.0,
    {
        self.path.as_str()
    }

    /// Returns the digest of the content.
    pub fn sha256(&self) -> (r: &str)
        ensures
            r@ == self@.1,
    {
        self.sha256.as_str()
    }

    /// Returns the content.
    pub fn bytes(&self) -> (r: &[u8])
        ensures
            r@ == self@.2,
    {
        self.bytes.as_slice()
    }
}

/// A snapshot matches the entry that records it, whatever the scope and the tier.
pub proof fn recorded_snapshot_matches(
    snapshot: SnapshotModel,
    source_id: Seq<char>,
    scope: ScopeModel,
    tier: SourceTier,
)
    requires
        hashes_current(snapshot),
        snapshot.kind != SourceKind::Web ==> snapshot.web is None,
    ensures
        snapshot_matches(snapshot, snapshot_entry(source_id, scope, tier, snapshot)),
{
}

/// The files that store a snapshot hold what their digests say.  There is one where the raw bytes
/// are the text content, else there are two; the first is the one that the reference names for the
/// raw bytes, and the last is the one that it names for the text content.
pub proof fn stored_files_are_named(snapshot: SnapshotModel, i: int)
    requires
        hashes_current(snapshot),
        !snapshot.secret,
        0 <= i < artifacts_of(snapshot).len(),
    ensures
        artifacts_of(snapshot)[i].1 == digest_text(artifacts_of(snapshot)[i].2),
        artifacts_of(snapshot).len() == (if snapshot.raw_bytes == utf8(snapshot.content) {
            1int
        } else {
            2
        }),
        reference_of(snapshot).raw_artifact == Some(artifacts_of(snapshot)[0].0),
        artifacts_of(snapshot)[0].1 == snapshot.sha256,
        reference_of(snapshot).content_artifact == Some(artifacts_of(snapshot).last().0),
        artifacts_of(snapshot).last().1 == snapshot.content_sha256,
{
}

/// Nothing of a secret source is stored: its reference names no file, and there is none.
pub proof fn secret_source_stores_nothing(snapshot: SnapshotModel)
    requires
        snapshot.secret,
    ensures
        artifacts_of(snapshot).len() == 0,
        reference_of(snapshot).raw_artifact is None,
        reference_of(snapshot).content_artifact is None,
        visible_web(snapshot) is None,
{
}

/// A snapshot that is read back from the files that store it is the same snapshot.
pub proof fn stored_snapshot_reads_back(
    kind: SourceKind,
    raw_bytes: Seq<u8>,
    content: Seq<char>,
    web: Option<WebModel>,
)
    ensures
        ({
            let snapshot = snapshot_of(kind, raw_bytes, content, false, web);
            let stored = artifacts_of(snapshot);
            &&& stored[0].2 == raw_bytes
            &&& snapshot_of(kind, stored[0].2, text_of(stored.last().2), false, web) == snapshot
        }),
{
    decoding_inverts_encoding(content);
}

/// One page that was extracted from a PDF: its number and its text, or the failure.
#[derive(Debug)]
pub struct PdfPage {
    /// Page number.
    pub number: u32,
    /// Text or failure.
    pub text: Result<String, String>,
}

/// What was read of a PDF.
#[derive(Debug)]
pub struct PdfPages {
    /// Whether the document is encrypted.
    pub encrypted: bool,
    /// Pages in order, up to the first failure.
    pub pages: Vec<PdfPage>,
}

/// Whether a page was read and has text.
pub open spec fn is_readable(page: PdfPage) -> bool {
    page.text matches Ok(text) && !is_blank(text@)
}

impl PdfPage {
    /// Returns whether the page was read and has text; behind one that has none, nothing is read.
    pub fn has_text(&self) -> (r: bool)
        ensures
            r == is_readable(*self),
    {
        match &self.text {
            Ok(text) => !blank(text.as_str()),
            Err(_) => false,
        }
    }
}

/// Pages behind the first one that has no text do not matter: the failure is the same without them.
pub proof fn reading_stops_at_the_first_failure(pages: Seq<PdfPage>, more: Seq<PdfPage>, i: int)
    requires
        0 <= i < pages.len(),
        !is_readable(pages.last()),
    ensures
        page_error(pages, i) is Some,
        page_error(pages + more, i) == page_error(pages, i),
    decreases pages.len() - i,
{
    assert((pages + more)[i] == pages[i]);
    if i + 1 < pages.len() {
        reading_stops_at_the_first_failure(pages, more, i + 1);
    }
}

/// The failure of a page from `i` on, where there is one.
pub open spec fn page_error(pages: Seq<PdfPage>, i: int) -> Option<Seq<char>>
    decreases pages.len() - i,
{
    if i < 0 || i >= pages.len() {
        None
    } else {
        let page = "ocr_required: page "@ + crate::text::decimal(pages[i].number as nat);
        match pages[i].text {
            Err(error) => Some(page + " cannot be extracted: "@ + error@),
            Ok(text) => {
                if is_blank(text@) {
                    Some(page + " has no extractable text"@)
                } else {
                    page_error(pages, i + 1)
                }
            },
        }
    }
}

/// The texts of pages.
pub open spec fn page_texts(pages: Seq<PdfPage>) -> Seq<Seq<char>> {
    pages.map_values(|page: PdfPage| page.text->Ok_0@)
}

/// The text of a PDF, or the message about why it has none.
pub open spec fn pdf_text(document: Result<PdfPages, String>) -> Result<Seq<char>, Seq<char>> {
    match document {
        Err(error) => Err("ocr_required: cannot load PDF: "@ + error@),
        Ok(read) => {
            if read.encrypted {
                Err("ocr_required: encrypted PDFs require OCR or decryption outside Phemius"@)
            } else if read.pages@.len() == 0 {
                Err("ocr_required: PDF contains no extractable pages"@)
            } else {
                match page_error(read.pages@, 0) {
                    Some(message) => Err(message),
                    None => Ok(join(page_texts(read.pages@), "\n\n"@)),
                }
            }
        },
    }
}

/// Takes the snapshot of a PDF from its bytes and from what was extracted of it.  Every page must
/// have text.
pub fn snapshot_pdf(bytes: Vec<u8>, document: Result<PdfPages, String>, secret: bool) -> (r: Result<
    Snapshot,
    SourceError,
>)
    ensures
        match r {
            Ok(snapshot) => pdf_text(document) is Ok && snapshot@ == snapshot_of(
                SourceKind::Pdf,
                bytes@,
                pdf_text(document)->Ok_0,
                secret,
                None,
            ),
            Err(error) => pdf_text(document) is Err && error@ == (
                SourceErrorKind::OcrRequired,
                pdf_text(document)->Err_0,
            ),
        },
{
    match document {
        Err(error) => {
            let mut message = "ocr_required: cannot load PDF: ".to_owned();
            message.append(error.as_str());
            Err(SourceError::new(SourceErrorKind::OcrRequired, message))
        },
        Ok(read) => {
            if read.encrypted {
                return fail(
                    SourceErrorKind::OcrRequired,
                    "ocr_required: encrypted PDFs require OCR or decryption outside Phemius",
                );
            }
            if read.pages.len() == 0 {
                return fail(
                    SourceErrorKind::OcrRequired,
                    "ocr_required: PDF contains no extractable pages",
                );
            }
            let pages = &read.pages;
            let mut parts: Vec<String> = Vec::new();
            let mut i: usize = 0;
            while i < pages.len()
                invariant
                    i <= pages@.len(),
                    pages@ == read.pages@,
                    pages@.len() > 0,
                    !read.encrypted,
                    document == Ok::<PdfPages, String>(read),
                    page_error(pages@, 0) == page_error(pages@, i as int),
                    parts@.len() == i,
                    forall|k: int| 0 <= k < i ==> #[trigger] parts@[k]@ == page_texts(pages@)[k],
                decreases pages@.len() - i,
            {
                let mut message = "ocr_required: page ".to_owned();
                message.append(crate::text::decimal_text(pages[i].number as u64).as_str());
                match &pages[i].text {
                    Err(error) => {
                        message.append(" cannot be extracted: ");
                        message.append(error.as_str());
                        return Err(SourceError::new(SourceErrorKind::OcrRequired, message));
                    },
                    Ok(text) => {
                        if blank(text.as_str()) {
                            message.append(" has no extractable text");
                            return Err(SourceError::new(SourceErrorKind::OcrRequired, message));
                        }
                        parts.push(text.clone());
                    },
                }
                i += 1;
            }
            assert(texts(parts@) =~= page_texts(pages@));
            let content = join_texts(parts.as_slice(), "\n\n");
            Ok(Snapshot::from_content(SourceKind::Pdf, bytes, content, secret, None))
        },
    }
}

} // verus!
