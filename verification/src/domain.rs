//! Stable identifiers of project entities.
use vstd::prelude::*;
use vstd::string::StringExecFns;
use crate::text::{concat3, has_prefix, hex, str_eq, strip_prefix};

verus! {

/// Identifier of one project entity, such as `chapter_<uuid>`.
#[derive(Clone, Debug, PartialEq, Eq, PartialOrd, Ord, Hash)]
pub struct EntityId(String);

impl View for EntityId {
    type V = Seq<char>;

    closed spec fn view(&self) -> Seq<char> {
        self.0@
    }
}

/// Kind of a project entity, which decides the prefix of its identifier.
#[derive(Clone, Copy, Debug, PartialEq, Eq, Structural)]
pub enum EntityKind {
    Work,
    Part,
    Chapter,
    Scene,
    Box,
    Character,
    Source,
    Changeset,
    Finding,
    Run,
    Rule,
    Timeline,
    Foreshadowing,
    Request,
}

/// The prefix of the identifiers of a kind.
pub open spec fn kind_prefix(kind: EntityKind) -> Seq<char> {
    match kind {
        EntityKind::Work => "work"@,
        EntityKind::Part => "part"@,
        EntityKind::Chapter => "chapter"@,
        EntityKind::Scene => "scene"@,
        EntityKind::Box => "box"@,
        EntityKind::Character => "character"@,
        EntityKind::Source => "source"@,
        EntityKind::Changeset => "change"@,
        EntityKind::Finding => "finding"@,
        EntityKind::Run => "run"@,
        EntityKind::Rule => "rule"@,
        EntityKind::Timeline => "timeline"@,
        EntityKind::Foreshadowing => "foreshadowing"@,
        EntityKind::Request => "request"@,
    }
}

impl EntityKind {
    /// Returns the prefix of the identifiers of this kind.
    pub fn prefix(self) -> (r: &'static str)
        ensures
            r@ == kind_prefix(self),
    {
        match self {
            EntityKind::Work => "work",
            EntityKind::Part => "part",
            EntityKind::Chapter => "chapter",
            EntityKind::Scene => "scene",
            EntityKind::Box => "box",
            EntityKind::Character => "character",
            EntityKind::Source => "source",
            EntityKind::Changeset => "change",
            EntityKind::Finding => "finding",
            EntityKind::Run => "run",
            EntityKind::Rule => "rule",
            EntityKind::Timeline => "timeline",
            EntityKind::Foreshadowing => "foreshadowing",
            EntityKind::Request => "request",
        }
    }
}

/// The sixteen bytes that `uuid::Uuid::parse_str` reads from a text, or `None` where it fails.
pub uninterp spec fn parsed_uuid(text: Seq<char>) -> Option<Seq<u8>>;

/// The hyphenated lower-case form of sixteen bytes.
pub open spec fn hyphenated(bytes: Seq<u8>) -> Seq<char> {
    hex(bytes.subrange(0, 4)) + seq!['-'] + hex(bytes.subrange(4, 6)) + seq!['-'] + hex(
        bytes.subrange(6, 8),
    ) + seq!['-'] + hex(bytes.subrange(8, 10)) + seq!['-'] + hex(bytes.subrange(10, 16))
}

/// Sixteen bytes with the version and variant bits of a version 7 UUID.
pub open spec fn is_v7(bytes: Seq<u8>) -> bool {
    bytes.len() == 16 && 0x70 <= bytes[6] && bytes[6] <= 0x7f && 0x80 <= bytes[8] && bytes[8]
        <= 0xbf
}

/// Calls `uuid::Uuid::parse_str` and returns the sixteen bytes of the UUID where it succeeds.
#[verifier::external_body]
fn parse_uuid(text: &str) -> (r: Option<Vec<u8>>)
    ensures
        parsed_uuid(text@) == (match r {
            Some(bytes) => Some(bytes@),
            None => None,
        }),
        r.is_some() ==> r.unwrap()@.len() == 16,
{
    uuid::Uuid::parse_str(text).ok().map(|id| id.as_bytes().to_vec())
}

/// Formats sixteen bytes with `uuid::Uuid::from_slice` and its `Display`.  The text is the
/// hyphenated lower-case form, and parsing it gives the bytes back.
#[verifier::external_body]
pub(crate) fn uuid_text(bytes: &[u8]) -> (r: String)
    requires
        bytes@.len() == 16,
    ensures
        r@ == hyphenated(bytes@),
        parsed_uuid(r@) == Some(bytes@),
{
    uuid::Uuid::from_slice(bytes).expect("sixteen bytes").to_string()
}

/// Calls `uuid::Uuid::now_v7`.  The bytes depend on the clock and on chance; their version and
/// variant bits are those of version 7.
#[verifier::external_body]
fn fresh_uuid() -> (r: Vec<u8>)
    ensures
        is_v7(r@),
{
    uuid::Uuid::now_v7().as_bytes().to_vec()
}

/// Whether a text is the identifier of an entity of the given kind: its prefix, an underscore
/// and a version 7 UUID.
pub open spec fn is_id_of(value: Seq<char>, kind: EntityKind) -> bool {
    let prefix = kind_prefix(kind) + "_"@;
    &&& has_prefix(value, prefix)
    &&& match parsed_uuid(value.skip(prefix.len() as int)) {
        Some(bytes) => is_v7(bytes),
        None => false,
    }
}

/// Identifiers of the singleton documents that every new project holds.
pub open spec fn is_singleton_id(value: Seq<char>) -> bool {
    ||| value == "world_1"@
    ||| value == "timeline_1"@
    ||| value == "foreshadowing_1"@
    ||| value == "style_1"@
    ||| value == "rules_1"@
    ||| value == "structure_1"@
    ||| value == "manifest_1"@
}

/// Whether a text is an identifier of some kind or of a singleton document.
pub open spec fn is_known_id(value: Seq<char>) -> bool {
    is_singleton_id(value) || exists|kind: EntityKind| #[trigger] is_id_of(value, kind)
}

/// Returns whether bytes are a UUID of version 7.
pub fn is_version_seven(bytes: &[u8]) -> (r: bool)
    ensures
        r == is_v7(bytes@),
{
    bytes.len() == 16 && 0x70 <= bytes[6] && bytes[6] <= 0x7f && 0x80 <= bytes[8] && bytes[8]
        <= 0xbf
}

/// Returns whether a text is the identifier of an entity of the given kind.
pub fn is_prefixed_uuid(value: &str, kind: EntityKind) -> (r: bool)
    ensures
        r == is_id_of(value@, kind),
{
    let mut prefix = kind.prefix().to_owned();
    prefix.append("_");
    match strip_prefix(value, prefix.as_str()) {
        Some(rest) => match parse_uuid(rest.as_str()) {
            Some(bytes) => is_version_seven(bytes.as_slice()),
            None => false,
        },
        None => false,
    }
}

/// Returns whether a text is an identifier of some kind or of a singleton document.
pub fn is_known_entity_id(value: &str) -> (r: bool)
    ensures
        r == is_known_id(value@),
{
    if str_eq(value, "world_1") || str_eq(value, "timeline_1") || str_eq(value, "foreshadowing_1")
        || str_eq(value, "style_1") || str_eq(value, "rules_1") || str_eq(value, "structure_1")
        || str_eq(value, "manifest_1") {
        return true;
    }
    let found = is_prefixed_uuid(value, EntityKind::Work) || is_prefixed_uuid(
        value,
        EntityKind::Part,
    ) || is_prefixed_uuid(value, EntityKind::Chapter) || is_prefixed_uuid(value, EntityKind::Scene)
        || is_prefixed_uuid(value, EntityKind::Box) || is_prefixed_uuid(
        value,
        EntityKind::Character,
    ) || is_prefixed_uuid(value, EntityKind::Source) || is_prefixed_uuid(
        value,
        EntityKind::Changeset,
    ) || is_prefixed_uuid(value, EntityKind::Finding) || is_prefixed_uuid(value, EntityKind::Run)
        || is_prefixed_uuid(value, EntityKind::Rule) || is_prefixed_uuid(
        value,
        EntityKind::Timeline,
    ) || is_prefixed_uuid(value, EntityKind::Foreshadowing) || is_prefixed_uuid(
        value,
        EntityKind::Request,
    );
    assert(!found ==> forall|kind: EntityKind| !#[trigger] is_id_of(value@, kind)) by {
        if !found {
            assert forall|kind: EntityKind| !#[trigger] is_id_of(value@, kind) by {
                match kind {
                    EntityKind::Work => {},
                    EntityKind::Part => {},
                    EntityKind::Chapter => {},
                    EntityKind::Scene => {},
                    EntityKind::Box => {},
                    EntityKind::Character => {},
                    EntityKind::Source => {},
                    EntityKind::Changeset => {},
                    EntityKind::Finding => {},
                    EntityKind::Run => {},
                    EntityKind::Rule => {},
                    EntityKind::Timeline => {},
                    EntityKind::Foreshadowing => {},
                    EntityKind::Request => {},
                }
            }
        }
    }
    found
}

impl EntityId {
    /// Returns the identifier's text.
    pub fn as_str(&self) -> (r: &str)
        ensures
            r@ == self@,
    {
        self.0.as_str()
    }

    /// Accepts a text that is a known identifier.
    pub fn from_validated(value: String) -> (r: Option<EntityId>)
        ensures
            match r {
                Some(id) => is_known_id(value@) && id@ == value@,
                None => !is_known_id(value@),
            },
    {
        if is_known_entity_id(value.as_str()) {
            Some(EntityId(value))
        } else {
            None
        }
    }

    /// Takes a text from stored data as an identifier; its use is validated where it matters.
    pub fn from_stored(value: String) -> (r: EntityId)
        ensures
            r@ == value@,
    {
        EntityId(value)
    }

    /// Copies the identifier.
    pub fn copy(&self) -> (r: EntityId)
        ensures
            r@ == self@,
    {
        EntityId(self.0.clone())
    }

    /// Returns whether two identifiers are equal.
    pub fn same(&self, other: &EntityId) -> (r: bool)
        ensures
            r == (self@ == other@),
    {
        self.0 == other.0
    }
}

/// The views of a sequence of identifiers.
pub open spec fn ids(items: Seq<EntityId>) -> Seq<Seq<char>> {
    items.map_values(|item: EntityId| item@)
}

/// The view of an optional identifier.
pub open spec fn opt_id(item: Option<EntityId>) -> Option<Seq<char>> {
    match item {
        Some(id) => Some(id@),
        None => None,
    }
}

/// Copies an optional identifier.
pub fn copy_opt_id(item: &Option<EntityId>) -> (r: Option<EntityId>)
    ensures
        opt_id(r) == opt_id(*item),
{
    match item {
        Some(id) => Some(id.copy()),
        None => None,
    }
}

/// Copies identifiers.
pub fn copy_ids(items: &[EntityId]) -> (r: Vec<EntityId>)
    ensures
        ids(r@) == ids(items@),
{
    let mut out: Vec<EntityId> = Vec::new();
    let mut i: usize = 0;
    while i < items.len()
        invariant
            i <= items@.len(),
            out@.len() == i,
            forall|k: int| 0 <= k < i ==> #[trigger] out@[k]@ == items@[k]@,
        decreases items@.len() - i,
    {
        out.push(items[i].copy());
        i += 1;
    }
    assert(ids(out@) =~= ids(items@));
    out
}

/// Whether an identifier occurs among others.
pub open spec fn has_id(items: Seq<EntityId>, id: Seq<char>) -> bool {
    exists|i: int| 0 <= i < items.len() && #[trigger] items[i]@ == id
}

/// Returns whether an identifier occurs among others.
pub fn contains_id(items: &[EntityId], id: &str) -> (r: bool)
    ensures
        r == has_id(items@, id@),
{
    let mut i: usize = 0;
    while i < items.len()
        invariant
            i <= items@.len(),
            forall|k: int| 0 <= k < i ==> #[trigger] items@[k]@ != id@,
        decreases items@.len() - i,
    {
        if str_eq(items[i].as_str(), id) {
            assert(items@[i as int]@ == id@);
            return true;
        }
        i += 1;
    }
    false
}

/// The identifier text made of a kind's prefix and the hyphenated form of sixteen bytes.
pub open spec fn id_text(kind: EntityKind, bytes: Seq<u8>) -> Seq<char> {
    kind_prefix(kind) + "_"@ + hyphenated(bytes)
}

/// Builds the identifier of a kind from the bytes of a version 7 UUID.
pub(crate) fn id_from_uuid(kind: EntityKind, bytes: &[u8]) -> (r: EntityId)
    requires
        is_v7(bytes@),
    ensures
        r@ == id_text(kind, bytes@),
        is_id_of(r@, kind),
        is_known_id(r@),
{
    let tail = uuid_text(bytes);
    let whole = concat3(kind.prefix(), "_", tail.as_str());
    let ghost prefix = kind_prefix(kind) + "_"@;
    assert(whole@.take(prefix.len() as int) =~= prefix);
    assert(whole@.skip(prefix.len() as int) =~= tail@);
    assert(is_id_of(whole@, kind));
    EntityId(whole)
}

/// Creates a new identifier of the given kind.
pub fn prefixed_uuid(kind: EntityKind) -> (r: EntityId)
    ensures
        is_id_of(r@, kind),
        is_known_id(r@),
        exists|bytes: Seq<u8>| is_v7(bytes) && r@ == #[trigger] id_text(kind, bytes),
{
    let bytes = fresh_uuid();
    id_from_uuid(kind, bytes.as_slice())
}

} // verus!
