//! Story structure and plot frameworks.
use vstd::prelude::*;
use vstd::string::StringExecFns;
use crate::domain::{is_id_of, is_prefixed_uuid, kind_prefix, EntityKind};
use crate::text::{blank, concat3, decimal, decimal_text, has_prefix, is_blank, str_eq, strip_prefix, texts, to_chars, from_chars};

verus! {

/// A plot framework: stages and the beats that belong to them.
#[derive(Clone, Debug, PartialEq, Eq)]
pub struct FrameworkDefinition {
    /// Identifier.
    pub id: String,
    /// Name.
    pub name: String,
    /// Stages.
    pub stages: Vec<FrameworkStage>,
    /// Beats.
    pub beats: Vec<FrameworkBeat>,
}

/// A stage of a framework.
#[derive(Clone, Debug, PartialEq, Eq)]
pub struct FrameworkStage {
    /// Identifier.
    pub id: String,
    /// Name.
    pub name: String,
    /// Position.
    pub order: i64,
}

/// A beat of a framework.
#[derive(Clone, Debug, PartialEq, Eq)]
pub struct FrameworkBeat {
    /// Identifier.
    pub id: String,
    /// Name.
    pub name: String,
    /// Stage that the beat belongs to.
    pub stage_id: String,
    /// Position in the stage.
    pub order: i64,
}

/// The structure of a work.
#[derive(Clone, Debug, PartialEq, Eq)]
pub struct StoryStructure {
    /// Parts.
    pub parts: Vec<StoryPart>,
    /// Chapters.
    pub chapters: Vec<StoryChapter>,
    /// Scenes.
    pub scenes: Vec<StoryScene>,
    /// Boxes of scenes.
    pub boxes: Vec<StoryBox>,
    /// Beats that link scenes.
    pub macro_beats: Vec<MacroBeat>,
}

impl Default for StoryStructure {
    fn default() -> (r: StoryStructure)
        ensures
            r.parts@.len() == 0,
            r.chapters@.len() == 0,
            r.scenes@.len() == 0,
            r.boxes@.len() == 0,
            r.macro_beats@.len() == 0,
    {
        StoryStructure {
            parts: Vec::new(),
            chapters: Vec::new(),
            scenes: Vec::new(),
            boxes: Vec::new(),
            macro_beats: Vec::new(),
        }
    }
}

/// A part of a work.
#[derive(Clone, Debug, PartialEq, Eq)]
pub struct StoryPart {
    /// Identifier.
    pub id: String,
    /// Position in the work.
    pub order: i64,
}

impl StoryPart {
    /// Builds a part.
    pub fn new(id: String, order: i64) -> (r: StoryPart)
        ensures
            r.id@ == id@,
            r.order == order,
    {
        StoryPart { id, order }
    }
}

/// A chapter of a part.
#[derive(Clone, Debug, PartialEq, Eq)]
pub struct StoryChapter {
    /// Identifier.
    pub id: String,
    /// Part that the chapter belongs to.
    pub part_id: String,
    /// Position in the part.
    pub order: i64,
}

impl StoryChapter {
    /// Builds a chapter.
    pub fn new(id: String, part_id: String, order: i64) -> (r: StoryChapter)
        ensures
            r.id@ == id@,
            r.part_id@ == part_id@,
            r.order == order,
    {
        StoryChapter { id, part_id, order }
    }
}

/// A scene of a chapter.
#[derive(Clone, Debug, PartialEq, Eq)]
pub struct StoryScene {
    /// Identifier.
    pub id: String,
    /// Chapter that the scene belongs to.
    pub chapter_id: String,
    /// Position in the chapter.
    pub order: i64,
}

impl StoryScene {
    /// Builds a scene.
    pub fn new(id: String, chapter_id: String, order: i64) -> (r: StoryScene)
        ensures
            r.id@ == id@,
            r.chapter_id@ == chapter_id@,
            r.order == order,
    {
        StoryScene { id, chapter_id, order }
    }
}

/// A box of a scene.
#[derive(Clone, Debug, PartialEq, Eq)]
pub struct StoryBox {
    /// Identifier.
    pub id: String,
    /// Scene that the box belongs to.
    pub scene_id: String,
    /// Position in the scene.
    pub order: i64,
}

impl StoryBox {
    /// Builds a box.
    pub fn new(id: String, scene_id: String, order: i64) -> (r: StoryBox)
        ensures
            r.id@ == id@,
            r.scene_id@ == scene_id@,
            r.order == order,
    {
        StoryBox { id, scene_id, order }
    }
}

/// A beat that links scenes across the work.
#[derive(Clone, Debug, PartialEq, Eq)]
pub struct MacroBeat {
    /// Identifier.
    pub id: String,
    /// Position in the work.
    pub order: i64,
    /// Linked scenes.
    pub scene_ids: Vec<String>,
}

impl MacroBeat {
    /// Builds a beat.
    pub fn new(id: String, order: i64, scene_ids: Vec<String>) -> (r: MacroBeat)
        ensures
            r.id@ == id@,
            r.order == order,
            r.scene_ids@ == scene_ids@,
    {
        MacroBeat { id, order, scene_ids }
    }
}

/// The decimal text of a signed number.
pub open spec fn signed_decimal(n: int) -> Seq<char> {
    if n < 0 {
        "-"@ + decimal((-n) as nat)
    } else {
        decimal(n as nat)
    }
}

fn signed_text(n: i64) -> (r: String)
    ensures
        r@ == signed_decimal(n as int),
{
    if n < 0 {
        let magnitude: u64 = if n == i64::MIN {
            0x8000_0000_0000_0000
        } else {
            (-n) as u64
        };
        let mut out = "-".to_owned();
        out.append(decimal_text(magnitude).as_str());
        out
    } else {
        decimal_text(n as u64)
    }
}

/// Whether a text is one of others before index `end`.
pub open spec fn among(items: Seq<Seq<char>>, end: int, text: Seq<char>) -> bool {
    exists|i: int| 0 <= i < end && #[trigger] items[i] == text
}

fn is_among(items: &[String], end: usize, text: &str) -> (r: bool)
    requires
        end <= items@.len(),
    ensures
        r == among(texts(items@), end as int, text@),
{
    let ghost all = texts(items@);
    let mut i: usize = 0;
    while i < end
        invariant
            i <= end <= items@.len(),
            all == texts(items@),
            forall|k: int| 0 <= k < i ==> #[trigger] all[k] != text@,
        decreases end - i,
    {
        assert(all[i as int] == items@[i as int]@);
        if str_eq(items[i].as_str(), text) {
            return true;
        }
        i += 1;
    }
    false
}

/// The message about entity identifiers from `i` on: each is new and of its kind.
pub open spec fn entity_ids_error(
    kind: EntityKind,
    ids: Seq<Seq<char>>,
    others: Seq<Seq<char>>,
    i: int,
) -> Option<Seq<char>>
    decreases ids.len() - i,
{
    if i < 0 || i >= ids.len() {
        None
    } else if among(others, others.len() as int, ids[i]) || among(ids, i, ids[i]) {
        Some("duplicate entity ID: "@ + ids[i])
    } else if !is_id_of(ids[i], kind) {
        Some("invalid "@ + kind_prefix(kind) + " ID: "@ + ids[i])
    } else {
        entity_ids_error(kind, ids, others, i + 1)
    }
}

/// A check by the message of its failure.
pub open spec fn message(r: Result<(), String>) -> Option<Seq<char>> {
    match r {
        Ok(()) => None,
        Err(text) => Some(text@),
    }
}

fn validate_entity_ids(kind: EntityKind, ids: &[String], others: &[String]) -> (r: Result<
    (),
    String,
>)
    ensures
        message(r) == entity_ids_error(kind, texts(ids@), texts(others@), 0),
{
    let ghost all = texts(ids@);
    let ghost rest = texts(others@);
    let mut i: usize = 0;
    while i < ids.len()
        invariant
            i <= ids@.len(),
            all == texts(ids@),
            rest == texts(others@),
            entity_ids_error(kind, all, rest, 0) == entity_ids_error(kind, all, rest, i as int),
        decreases ids@.len() - i,
    {
        let id = ids[i].as_str();
        assert(all[i as int] == id@);
        if is_among(others, others.len(), id) || is_among(ids, i, id) {
            let mut text = "duplicate entity ID: ".to_owned();
            text.append(id);
            return Err(text);
        }
        if !is_prefixed_uuid(id, kind) {
            let mut text = concat3("invalid ", kind.prefix(), " ID: ");
            text.append(id);
            return Err(text);
        }
        i += 1;
    }
    Ok(())
}

/// The message about identifiers from `i` on: none is blank or occurs twice.
pub open spec fn unique_ids_error(kind: Seq<char>, ids: Seq<Seq<char>>, i: int) -> Option<Seq<char>>
    decreases ids.len() - i,
{
    if i < 0 || i >= ids.len() {
        None
    } else if is_blank(ids[i]) {
        Some(kind + " ID is required"@)
    } else if among(ids, i, ids[i]) {
        Some("duplicate "@ + kind + " ID: "@ + ids[i])
    } else {
        unique_ids_error(kind, ids, i + 1)
    }
}

fn validate_unique_ids(kind: &str, ids: &[String]) -> (r: Result<(), String>)
    ensures
        message(r) == unique_ids_error(kind@, texts(ids@), 0),
{
    let ghost all = texts(ids@);
    let mut i: usize = 0;
    while i < ids.len()
        invariant
            i <= ids@.len(),
            all == texts(ids@),
            unique_ids_error(kind@, all, 0) == unique_ids_error(kind@, all, i as int),
        decreases ids@.len() - i,
    {
        let id = ids[i].as_str();
        assert(all[i as int] == id@);
        if blank(id) {
            let mut text = kind.to_owned();
            text.append(" ID is required");
            return Err(text);
        }
        if is_among(ids, i, id) {
            let mut text = concat3("duplicate ", kind, " ID: ");
            text.append(id);
            return Err(text);
        }
        i += 1;
    }
    Ok(())
}

/// The message about references from `i` on: each names a known entity.
pub open spec fn references_error(
    kind: Seq<char>,
    ids: Seq<Seq<char>>,
    references: Seq<Seq<char>>,
    target: Seq<char>,
    known: Seq<Seq<char>>,
    i: int,
) -> Option<Seq<char>>
    decreases ids.len() - i,
{
    if i < 0 || i >= ids.len() {
        None
    } else if !among(known, known.len() as int, references[i]) {
        Some(kind + " "@ + ids[i] + " references unknown "@ + target + " "@ + references[i])
    } else {
        references_error(kind, ids, references, target, known, i + 1)
    }
}

fn validate_references(
    kind: &str,
    ids: &[String],
    references: &[String],
    target: &str,
    known: &[String],
) -> (r: Result<(), String>)
    requires
        ids@.len() == references@.len(),
    ensures
        message(r) == references_error(
            kind@,
            texts(ids@),
            texts(references@),
            target@,
            texts(known@),
            0,
        ),
{
    let ghost all = texts(ids@);
    let ghost links = texts(references@);
    let ghost targets = texts(known@);
    let mut i: usize = 0;
    while i < ids.len()
        invariant
            i <= ids@.len(),
            ids@.len() == references@.len(),
            all == texts(ids@),
            links == texts(references@),
            targets == texts(known@),
            references_error(kind@, all, links, target@, targets, 0) == references_error(
                kind@,
                all,
                links,
                target@,
                targets,
                i as int,
            ),
        decreases ids@.len() - i,
    {
        assert(all[i as int] == ids@[i as int]@ && links[i as int] == references@[i as int]@);
        if !is_among(known, known.len(), references[i].as_str()) {
            let mut text = concat3(kind, " ", ids[i].as_str());
            text.append(" references unknown ");
            text.append(target);
            text.append(" ");
            text.append(references[i].as_str());
            return Err(text);
        }
        i += 1;
    }
    Ok(())
}

/// The message about positions from `i` on: siblings have different ones.
pub open spec fn siblings_error(
    kind: Seq<char>,
    parents: Seq<Seq<char>>,
    orders: Seq<i64>,
    i: int,
) -> Option<Seq<char>>
    decreases parents.len() - i,
{
    if i < 0 || i >= parents.len() {
        None
    } else if exists|j: int|
        0 <= j < i && #[trigger] parents[j] == parents[i] && orders[j] == orders[i] {
        Some(
            "duplicate "@ + kind + " order "@ + signed_decimal(orders[i] as int) + " under "@
                + parents[i],
        )
    } else {
        siblings_error(kind, parents, orders, i + 1)
    }
}

fn validate_sibling_orders(kind: &str, parents: &[String], orders: &[i64]) -> (r: Result<
    (),
    String,
>)
    requires
        parents@.len() == orders@.len(),
    ensures
        message(r) == siblings_error(kind@, texts(parents@), orders@, 0),
{
    let ghost all = texts(parents@);
    let mut i: usize = 0;
    while i < parents.len()
        invariant
            i <= parents@.len(),
            parents@.len() == orders@.len(),
            all == texts(parents@),
            siblings_error(kind@, all, orders@, 0) == siblings_error(
                kind@,
                all,
                orders@,
                i as int,
            ),
        decreases parents@.len() - i,
    {
        let mut j: usize = 0;
        while j < i
            invariant
                j <= i < parents@.len(),
                parents@.len() == orders@.len(),
                all == texts(parents@),
                siblings_error(kind@, all, orders@, 0) == siblings_error(
                    kind@,
                    all,
                    orders@,
                    i as int,
                ),
                forall|k: int|
                    0 <= k < j ==> !(#[trigger] all[k] == all[i as int] && orders@[k]
                        == orders@[i as int]),
            decreases i - j,
        {
            assert(all[j as int] == parents@[j as int]@ && all[i as int] == parents@[i as int]@);
            if parents[j] == parents[i] && orders[j] == orders[i] {
                let mut text = concat3("duplicate ", kind, " order ");
                text.append(signed_text(orders[i]).as_str());
                text.append(" under ");
                text.append(parents[i].as_str());
                return Err(text);
            }
            j += 1;
        }
        i += 1;
    }
    Ok(())
}

/// The identifiers of parts.
pub open spec fn part_ids(s: StoryStructure) -> Seq<Seq<char>> {
    s.parts@.map_values(|x: StoryPart| x.id@)
}

/// The identifiers of chapters.
pub open spec fn chapter_ids(s: StoryStructure) -> Seq<Seq<char>> {
    s.chapters@.map_values(|x: StoryChapter| x.id@)
}

/// The identifiers of scenes.
pub open spec fn scene_ids(s: StoryStructure) -> Seq<Seq<char>> {
    s.scenes@.map_values(|x: StoryScene| x.id@)
}

/// The identifiers of boxes.
pub open spec fn box_ids(s: StoryStructure) -> Seq<Seq<char>> {
    s.boxes@.map_values(|x: StoryBox| x.id@)
}

/// The identifiers of macro beats.
pub open spec fn beat_ids(s: StoryStructure) -> Seq<Seq<char>> {
    s.macro_beats@.map_values(|x: MacroBeat| x.id@)
}

/// The parents of chapters.
pub open spec fn chapter_parents(s: StoryStructure) -> Seq<Seq<char>> {
    s.chapters@.map_values(|x: StoryChapter| x.part_id@)
}

/// The parents of scenes.
pub open spec fn scene_parents(s: StoryStructure) -> Seq<Seq<char>> {
    s.scenes@.map_values(|x: StoryScene| x.chapter_id@)
}

/// The parents of boxes.
pub open spec fn box_parents(s: StoryStructure) -> Seq<Seq<char>> {
    s.boxes@.map_values(|x: StoryBox| x.scene_id@)
}

/// The first unknown scene that a beat links from `i` on.
pub open spec fn links_error(beat: Seq<char>, links: Seq<Seq<char>>, known: Seq<Seq<char>>, i: int) -> Option<
    Seq<char>,
>
    decreases links.len() - i,
{
    if i < 0 || i >= links.len() {
        None
    } else if !among(known, known.len() as int, links[i]) {
        Some("macro beat "@ + beat + " references unknown scene "@ + links[i])
    } else {
        links_error(beat, links, known, i + 1)
    }
}

/// The message about the scene links of the beats from `i` on.
pub open spec fn beats_error(beats: Seq<MacroBeat>, known: Seq<Seq<char>>, i: int) -> Option<
    Seq<char>,
>
    decreases beats.len() - i,
{
    if i < 0 || i >= beats.len() {
        None
    } else {
        let links = texts(beats[i].scene_ids@);
        if links.len() == 0 {
            Some("macro beat "@ + beats[i].id@ + " must link to one or more scenes"@)
        } else if unique_ids_error("macro beat scene link"@, links, 0) is Some {
            unique_ids_error("macro beat scene link"@, links, 0)
        } else if links_error(beats[i].id@, links, known, 0) is Some {
            links_error(beats[i].id@, links, known, 0)
        } else {
            beats_error(beats, known, i + 1)
        }
    }
}

fn validate_links(beat: &str, links: &[String], known: &[String]) -> (r: Result<(), String>)
    ensures
        message(r) == links_error(beat@, texts(links@), texts(known@), 0),
{
    let ghost all = texts(links@);
    let ghost targets = texts(known@);
    let mut i: usize = 0;
    while i < links.len()
        invariant
            i <= links@.len(),
            all == texts(links@),
            targets == texts(known@),
            links_error(beat@, all, targets, 0) == links_error(beat@, all, targets, i as int),
        decreases links@.len() - i,
    {
        assert(all[i as int] == links@[i as int]@);
        if !is_among(known, known.len(), links[i].as_str()) {
            let mut text = concat3("macro beat ", beat, " references unknown scene ");
            text.append(links[i].as_str());
            return Err(text);
        }
        i += 1;
    }
    Ok(())
}

fn validate_beats(beats: &[MacroBeat], known: &[String]) -> (r: Result<(), String>)
    ensures
        message(r) == beats_error(beats@, texts(known@), 0),
{
    let ghost targets = texts(known@);
    let mut i: usize = 0;
    while i < beats.len()
        invariant
            i <= beats@.len(),
            targets == texts(known@),
            beats_error(beats@, targets, 0) == beats_error(beats@, targets, i as int),
        decreases beats@.len() - i,
    {
        let beat = &beats[i];
        let links = beat.scene_ids.as_slice();
        assert(texts(links@).len() == links@.len());
        if links.len() == 0 {
            return Err(
                concat3("macro beat ", beat.id.as_str(), " must link to one or more scenes"),
            );
        }
        match validate_unique_ids("macro beat scene link", links) {
            Err(text) => {
                return Err(text);
            },
            Ok(()) => {},
        }
        match validate_links(beat.id.as_str(), links, known) {
            Err(text) => {
                return Err(text);
            },
            Ok(()) => {},
        }
        i += 1;
    }
    Ok(())
}

/// The first message, where there is one.
pub open spec fn first_message(a: Option<Seq<char>>, b: Option<Seq<char>>) -> Option<Seq<char>> {
    if a is Some {
        a
    } else {
        b
    }
}

/// The message about identifiers of a structure.
pub open spec fn structure_ids_error(s: StoryStructure) -> Option<Seq<char>> {
    let parts = part_ids(s);
    let chapters = chapter_ids(s);
    let scenes = scene_ids(s);
    first_message(
        entity_ids_error(EntityKind::Part, parts, Seq::empty(), 0),
        first_message(
            entity_ids_error(EntityKind::Chapter, chapters, parts, 0),
            first_message(
                entity_ids_error(EntityKind::Scene, scenes, parts + chapters, 0),
                first_message(
                    entity_ids_error(EntityKind::Box, box_ids(s), parts + chapters + scenes, 0),
                    unique_ids_error("macro beat"@, beat_ids(s), 0),
                ),
            ),
        ),
    )
}

/// The message about references of a structure.
pub open spec fn structure_links_error(s: StoryStructure) -> Option<Seq<char>> {
    first_message(
        references_error(
            "chapter"@,
            chapter_ids(s),
            chapter_parents(s),
            "part"@,
            part_ids(s),
            0,
        ),
        first_message(
            references_error(
                "scene"@,
                scene_ids(s),
                scene_parents(s),
                "chapter"@,
                chapter_ids(s),
                0,
            ),
            first_message(
                references_error(
                    "box"@,
                    box_ids(s),
                    box_parents(s),
                    "scene"@,
                    scene_ids(s),
                    0,
                ),
                beats_error(s.macro_beats@, scene_ids(s), 0),
            ),
        ),
    )
}

/// A parent name for each of so many children.
pub open spec fn same_parent(name: Seq<char>, count: nat) -> Seq<Seq<char>> {
    Seq::new(count, |i: int| name)
}

/// The message about positions in a structure.
pub open spec fn structure_orders_error(s: StoryStructure) -> Option<Seq<char>> {
    first_message(
        siblings_error(
            "part"@,
            same_parent("work"@, s.parts@.len()),
            s.parts@.map_values(|x: StoryPart| x.order),
            0,
        ),
        first_message(
            siblings_error(
                "chapter"@,
                chapter_parents(s),
                s.chapters@.map_values(|x: StoryChapter| x.order),
                0,
            ),
            first_message(
                siblings_error(
                    "scene"@,
                    scene_parents(s),
                    s.scenes@.map_values(|x: StoryScene| x.order),
                    0,
                ),
                first_message(
                    siblings_error(
                        "box"@,
                        box_parents(s),
                        s.boxes@.map_values(|x: StoryBox| x.order),
                        0,
                    ),
                    siblings_error(
                        "macro beat"@,
                        same_parent("macro"@, s.macro_beats@.len()),
                        s.macro_beats@.map_values(|x: MacroBeat| x.order),
                        0,
                    ),
                ),
            ),
        ),
    )
}

/// The message about a structure that breaks a rule: identifiers first, then references, then
/// positions.
pub open spec fn structure_error(s: StoryStructure) -> Option<Seq<char>> {
    first_message(
        structure_ids_error(s),
        first_message(structure_links_error(s), structure_orders_error(s)),
    )
}

struct Columns {
    parts: Vec<String>,
    part_orders: Vec<i64>,
    chapters: Vec<String>,
    chapter_parents: Vec<String>,
    chapter_orders: Vec<i64>,
    scenes: Vec<String>,
    scene_parents: Vec<String>,
    scene_orders: Vec<i64>,
    boxes: Vec<String>,
    box_parents: Vec<String>,
    box_orders: Vec<i64>,
    beats: Vec<String>,
    beat_orders: Vec<i64>,
}

spec fn columns_of(c: Columns, s: StoryStructure) -> bool {
    &&& texts(c.parts@) == part_ids(s)
    &&& c.part_orders@ == s.parts@.map_values(|x: StoryPart| x.order)
    &&& texts(c.chapters@) == chapter_ids(s)
    &&& texts(c.chapter_parents@) == chapter_parents(s)
    &&& c.chapter_orders@ == s.chapters@.map_values(|x: StoryChapter| x.order)
    &&& texts(c.scenes@) == scene_ids(s)
    &&& texts(c.scene_parents@) == scene_parents(s)
    &&& c.scene_orders@ == s.scenes@.map_values(|x: StoryScene| x.order)
    &&& texts(c.boxes@) == box_ids(s)
    &&& texts(c.box_parents@) == box_parents(s)
    &&& c.box_orders@ == s.boxes@.map_values(|x: StoryBox| x.order)
    &&& texts(c.beats@) == beat_ids(s)
    &&& c.beat_orders@ == s.macro_beats@.map_values(|x: MacroBeat| x.order)
}

fn columns(s: &StoryStructure) -> (r: Columns)
    ensures
        columns_of(r, *s),
        r.parts@.len() == s.parts@.len(),
        r.beats@.len() == s.macro_beats@.len(),
        r.part_orders@.len() == s.parts@.len(),
        r.chapters@.len() == s.chapters@.len(),
        r.chapter_parents@.len() == s.chapters@.len(),
        r.chapter_orders@.len() == s.chapters@.len(),
        r.scenes@.len() == s.scenes@.len(),
        r.scene_parents@.len() == s.scenes@.len(),
        r.scene_orders@.len() == s.scenes@.len(),
        r.boxes@.len() == s.boxes@.len(),
        r.box_parents@.len() == s.boxes@.len(),
        r.box_orders@.len() == s.boxes@.len(),
        r.beat_orders@.len() == s.macro_beats@.len(),
{
    let mut parts: Vec<String> = Vec::new();
    let mut part_orders: Vec<i64> = Vec::new();
    let mut i: usize = 0;
    while i < s.parts.len()
        invariant
            i <= s.parts@.len(),
            parts@.len() == i,
            part_orders@.len() == i,
            forall|k: int| 0 <= k < i ==> #[trigger] parts@[k]@ == s.parts@[k].id@,
            forall|k: int| 0 <= k < i ==> #[trigger] part_orders@[k] == s.parts@[k].order,
        decreases s.parts@.len() - i,
    {
        parts.push(s.parts[i].id.clone());
        part_orders.push(s.parts[i].order);
        i += 1;
    }
    let mut chapters: Vec<String> = Vec::new();
    let mut chapter_parents: Vec<String> = Vec::new();
    let mut chapter_orders: Vec<i64> = Vec::new();
    i = 0;
    while i < s.chapters.len()
        invariant
            i <= s.chapters@.len(),
            chapters@.len() == i,
            chapter_parents@.len() == i,
            chapter_orders@.len() == i,
            forall|k: int| 0 <= k < i ==> #[trigger] chapters@[k]@ == s.chapters@[k].id@,
            forall|k: int|
                0 <= k < i ==> #[trigger] chapter_parents@[k]@ == s.chapters@[k].part_id@,
            forall|k: int| 0 <= k < i ==> #[trigger] chapter_orders@[k] == s.chapters@[k].order,
        decreases s.chapters@.len() - i,
    {
        chapters.push(s.chapters[i].id.clone());
        chapter_parents.push(s.chapters[i].part_id.clone());
        chapter_orders.push(s.chapters[i].order);
        i += 1;
    }
    let mut scenes: Vec<String> = Vec::new();
    let mut scene_parents: Vec<String> = Vec::new();
    let mut scene_orders: Vec<i64> = Vec::new();
    i = 0;
    while i < s.scenes.len()
        invariant
            i <= s.scenes@.len(),
            scenes@.len() == i,
            scene_parents@.len() == i,
            scene_orders@.len() == i,
            forall|k: int| 0 <= k < i ==> #[trigger] scenes@[k]@ == s.scenes@[k].id@,
            forall|k: int|
                0 <= k < i ==> #[trigger] scene_parents@[k]@ == s.scenes@[k].chapter_id@,
            forall|k: int| 0 <= k < i ==> #[trigger] scene_orders@[k] == s.scenes@[k].order,
        decreases s.scenes@.len() - i,
    {
        scenes.push(s.scenes[i].id.clone());
        scene_parents.push(s.scenes[i].chapter_id.clone());
        scene_orders.push(s.scenes[i].order);
        i += 1;
    }
    let mut boxes: Vec<String> = Vec::new();
    let mut box_parents: Vec<String> = Vec::new();
    let mut box_orders: Vec<i64> = Vec::new();
    i = 0;
    while i < s.boxes.len()
        invariant
            i <= s.boxes@.len(),
            boxes@.len() == i,
            box_parents@.len() == i,
            box_orders@.len() == i,
            forall|k: int| 0 <= k < i ==> #[trigger] boxes@[k]@ == s.boxes@[k].id@,
            forall|k: int| 0 <= k < i ==> #[trigger] box_parents@[k]@ == s.boxes@[k].scene_id@,
            forall|k: int| 0 <= k < i ==> #[trigger] box_orders@[k] == s.boxes@[k].order,
        decreases s.boxes@.len() - i,
    {
        boxes.push(s.boxes[i].id.clone());
        box_parents.push(s.boxes[i].scene_id.clone());
        box_orders.push(s.boxes[i].order);
        i += 1;
    }
    let mut beats: Vec<String> = Vec::new();
    let mut beat_orders: Vec<i64> = Vec::new();
    i = 0;
    while i < s.macro_beats.len()
        invariant
            i <= s.macro_beats@.len(),
            beats@.len() == i,
            beat_orders@.len() == i,
            forall|k: int| 0 <= k < i ==> #[trigger] beats@[k]@ == s.macro_beats@[k].id@,
            forall|k: int| 0 <= k < i ==> #[trigger] beat_orders@[k] == s.macro_beats@[k].order,
        decreases s.macro_beats@.len() - i,
    {
        beats.push(s.macro_beats[i].id.clone());
        beat_orders.push(s.macro_beats[i].order);
        i += 1;
    }
    let r = Columns {
        parts,
        part_orders,
        chapters,
        chapter_parents,
        chapter_orders,
        scenes,
        scene_parents,
        scene_orders,
        boxes,
        box_parents,
        box_orders,
        beats,
        beat_orders,
    };
    proof {
        assert(texts(r.parts@) =~= part_ids(*s));
        assert(r.part_orders@ =~= s.parts@.map_values(|x: StoryPart| x.order));
        assert(texts(r.chapters@) =~= chapter_ids(*s));
        assert(texts(r.chapter_parents@) =~= self::chapter_parents(*s));
        assert(r.chapter_orders@ =~= s.chapters@.map_values(|x: StoryChapter| x.order));
        assert(texts(r.scenes@) =~= scene_ids(*s));
        assert(texts(r.scene_parents@) =~= self::scene_parents(*s));
        assert(r.scene_orders@ =~= s.scenes@.map_values(|x: StoryScene| x.order));
        assert(texts(r.boxes@) =~= box_ids(*s));
        assert(texts(r.box_parents@) =~= self::box_parents(*s));
        assert(r.box_orders@ =~= s.boxes@.map_values(|x: StoryBox| x.order));
        assert(texts(r.beats@) =~= beat_ids(*s));
        assert(r.beat_orders@ =~= s.macro_beats@.map_values(|x: MacroBeat| x.order));
    }
    r
}

fn joined(a: &[String], b: &[String]) -> (r: Vec<String>)
    ensures
        texts(r@) == texts(a@) + texts(b@),
{
    let mut out: Vec<String> = Vec::new();
    let mut i: usize = 0;
    while i < a.len()
        invariant
            i <= a@.len(),
            out@.len() == i,
            forall|k: int| 0 <= k < i ==> #[trigger] out@[k]@ == a@[k]@,
        decreases a@.len() - i,
    {
        out.push(a[i].clone());
        i += 1;
    }
    i = 0;
    while i < b.len()
        invariant
            i <= b@.len(),
            out@.len() == a@.len() + i,
            forall|k: int| 0 <= k < a@.len() ==> #[trigger] out@[k]@ == a@[k]@,
            forall|k: int|
                a@.len() <= k < out@.len() ==> #[trigger] out@[k]@ == b@[k - a@.len()]@,
        decreases b@.len() - i,
    {
        out.push(b[i].clone());
        i += 1;
    }
    assert(texts(out@) =~= texts(a@) + texts(b@));
    out
}

fn repeated(name: &str, count: usize) -> (r: Vec<String>)
    ensures
        texts(r@) == same_parent(name@, count as nat),
        r@.len() == count,
{
    let mut out: Vec<String> = Vec::new();
    while out.len() < count
        invariant
            out@.len() <= count,
            forall|k: int| 0 <= k < out@.len() ==> #[trigger] out@[k]@ == name@,
        decreases count - out@.len(),
    {
        out.push(name.to_owned());
    }
    assert(texts(out@) =~= same_parent(name@, count as nat));
    out
}

fn validate_structure_ids(c: &Columns, Ghost(s): Ghost<StoryStructure>) -> (r: Result<(), String>)
    requires
        columns_of(*c, s),
    ensures
        message(r) == structure_ids_error(s),
{
    let none: Vec<String> = Vec::new();
    assert(texts(none@) =~= Seq::<Seq<char>>::empty());
    match validate_entity_ids(EntityKind::Part, c.parts.as_slice(), none.as_slice()) {
        Err(text) => {
            return Err(text);
        },
        Ok(()) => {},
    }
    match validate_entity_ids(EntityKind::Chapter, c.chapters.as_slice(), c.parts.as_slice()) {
        Err(text) => {
            return Err(text);
        },
        Ok(()) => {},
    }
    let two = joined(c.parts.as_slice(), c.chapters.as_slice());
    match validate_entity_ids(EntityKind::Scene, c.scenes.as_slice(), two.as_slice()) {
        Err(text) => {
            return Err(text);
        },
        Ok(()) => {},
    }
    let three = joined(two.as_slice(), c.scenes.as_slice());
    match validate_entity_ids(EntityKind::Box, c.boxes.as_slice(), three.as_slice()) {
        Err(text) => {
            return Err(text);
        },
        Ok(()) => {},
    }
    validate_unique_ids("macro beat", c.beats.as_slice())
}

fn validate_structure_links(value: &StoryStructure, c: &Columns) -> (r: Result<(), String>)
    requires
        columns_of(*c, *value),
        c.chapters@.len() == c.chapter_parents@.len(),
        c.scenes@.len() == c.scene_parents@.len(),
        c.boxes@.len() == c.box_parents@.len(),
    ensures
        message(r) == structure_links_error(*value),
{
    match validate_references(
        "chapter",
        c.chapters.as_slice(),
        c.chapter_parents.as_slice(),
        "part",
        c.parts.as_slice(),
    ) {
        Err(text) => {
            return Err(text);
        },
        Ok(()) => {},
    }
    match validate_references(
        "scene",
        c.scenes.as_slice(),
        c.scene_parents.as_slice(),
        "chapter",
        c.chapters.as_slice(),
    ) {
        Err(text) => {
            return Err(text);
        },
        Ok(()) => {},
    }
    match validate_references(
        "box",
        c.boxes.as_slice(),
        c.box_parents.as_slice(),
        "scene",
        c.scenes.as_slice(),
    ) {
        Err(text) => {
            return Err(text);
        },
        Ok(()) => {},
    }
    validate_beats(value.macro_beats.as_slice(), c.scenes.as_slice())
}

/// Checks the identifiers, references and positions of a story structure.
pub fn validate_structure(value: &StoryStructure) -> (r: Result<(), String>)
    ensures
        message(r) == structure_error(*value),
{
    let c = columns(value);
    match validate_structure_ids(&c, Ghost(*value)) {
        Err(text) => {
            return Err(text);
        },
        Ok(()) => {},
    }
    match validate_structure_links(value, &c) {
        Err(text) => {
            return Err(text);
        },
        Ok(()) => {},
    }
    let work = repeated("work", c.parts.len());
    match validate_sibling_orders("part", work.as_slice(), c.part_orders.as_slice()) {
        Err(text) => {
            return Err(text);
        },
        Ok(()) => {},
    }
    match validate_sibling_orders(
        "chapter",
        c.chapter_parents.as_slice(),
        c.chapter_orders.as_slice(),
    ) {
        Err(text) => {
            return Err(text);
        },
        Ok(()) => {},
    }
    match validate_sibling_orders(
        "scene",
        c.scene_parents.as_slice(),
        c.scene_orders.as_slice(),
    ) {
        Err(text) => {
            return Err(text);
        },
        Ok(()) => {},
    }
    match validate_sibling_orders("box", c.box_parents.as_slice(), c.box_orders.as_slice()) {
        Err(text) => {
            return Err(text);
        },
        Ok(()) => {},
    }
    let beats = repeated("macro", c.beats.len());
    validate_sibling_orders("macro beat", beats.as_slice(), c.beat_orders.as_slice())
}

/// In a valid structure every chapter lies in a known part, every scene in a known chapter and
/// every box in a known scene.
pub proof fn valid_structure_is_connected(s: StoryStructure, i: int)
    requires
        structure_error(s) is None,
    ensures
        0 <= i < s.chapters@.len() ==> among(
            part_ids(s),
            part_ids(s).len() as int,
            s.chapters@[i].part_id@,
        ),
        0 <= i < s.scenes@.len() ==> among(
            chapter_ids(s),
            chapter_ids(s).len() as int,
            s.scenes@[i].chapter_id@,
        ),
        0 <= i < s.boxes@.len() ==> among(
            scene_ids(s),
            scene_ids(s).len() as int,
            s.boxes@[i].scene_id@,
        ),
{
    if 0 <= i < s.chapters@.len() {
        lemma_reference_known(
            "chapter"@,
            chapter_ids(s),
            chapter_parents(s),
            "part"@,
            part_ids(s),
            0,
            i,
        );
    }
    if 0 <= i < s.scenes@.len() {
        lemma_reference_known(
            "scene"@,
            scene_ids(s),
            scene_parents(s),
            "chapter"@,
            chapter_ids(s),
            0,
            i,
        );
    }
    if 0 <= i < s.boxes@.len() {
        lemma_reference_known("box"@, box_ids(s), box_parents(s), "scene"@, scene_ids(s), 0, i);
    }
}

proof fn lemma_reference_known(
    kind: Seq<char>,
    ids: Seq<Seq<char>>,
    references: Seq<Seq<char>>,
    target: Seq<char>,
    known: Seq<Seq<char>>,
    from: int,
    i: int,
)
    requires
        0 <= from <= i < ids.len(),
        references_error(kind, ids, references, target, known, from) is None,
    ensures
        among(known, known.len() as int, references[i]),
    decreases i - from,
{
    if from < i {
        lemma_reference_known(kind, ids, references, target, known, from + 1, i);
    }
}

/// Chapters of a valid structure have different identifiers.
pub proof fn valid_structure_has_unique_chapters(s: StoryStructure, i: int, j: int)
    requires
        structure_error(s) is None,
        0 <= i < j < s.chapters@.len(),
    ensures
        s.chapters@[i].id@ != s.chapters@[j].id@,
{
    lemma_entity_unique(EntityKind::Chapter, chapter_ids(s), part_ids(s), 0, j);
    if s.chapters@[i].id@ == s.chapters@[j].id@ {
        assert(chapter_ids(s)[i] == chapter_ids(s)[j]);
        assert(among(chapter_ids(s), j, chapter_ids(s)[j]));
    }
}

proof fn lemma_entity_unique(
    kind: EntityKind,
    ids: Seq<Seq<char>>,
    others: Seq<Seq<char>>,
    from: int,
    i: int,
)
    requires
        0 <= from <= i < ids.len(),
        entity_ids_error(kind, ids, others, from) is None,
    ensures
        !among(ids, i, ids[i]),
        is_id_of(ids[i], kind),
    decreases i - from,
{
    if from < i {
        lemma_entity_unique(kind, ids, others, from + 1, i);
    }
}

/// The stages of a framework.
pub open spec fn stage_ids(f: FrameworkDefinition) -> Seq<Seq<char>> {
    f.stages@.map_values(|x: FrameworkStage| x.id@)
}

/// The message about a framework that breaks a rule.
pub open spec fn framework_error(f: FrameworkDefinition) -> Option<Seq<char>> {
    let beats = f.beats@.map_values(|x: FrameworkBeat| x.id@);
    let parents = f.beats@.map_values(|x: FrameworkBeat| x.stage_id@);
    if is_blank(f.id@) {
        Some("framework ID is required"@)
    } else {
        first_message(
            unique_ids_error("framework stage"@, stage_ids(f), 0),
            first_message(
                unique_ids_error("framework beat"@, beats, 0),
                first_message(
                    siblings_error(
                        "framework stage"@,
                        same_parent("framework"@, f.stages@.len()),
                        f.stages@.map_values(|x: FrameworkStage| x.order),
                        0,
                    ),
                    first_message(
                        references_error(
                            "framework beat"@,
                            beats,
                            parents,
                            "stage"@,
                            stage_ids(f),
                            0,
                        ),
                        siblings_error(
                            "framework beat"@,
                            parents,
                            f.beats@.map_values(|x: FrameworkBeat| x.order),
                            0,
                        ),
                    ),
                ),
            ),
        )
    }
}

/// Checks a framework definition.
pub fn validate_framework(value: &FrameworkDefinition) -> (r: Result<(), String>)
    ensures
        message(r) == framework_error(*value),
{
    if blank(value.id.as_str()) {
        return Err("framework ID is required".to_owned());
    }
    let mut stages: Vec<String> = Vec::new();
    let mut stage_orders: Vec<i64> = Vec::new();
    let mut i: usize = 0;
    while i < value.stages.len()
        invariant
            i <= value.stages@.len(),
            stages@.len() == i,
            stage_orders@.len() == i,
            forall|k: int| 0 <= k < i ==> #[trigger] stages@[k]@ == value.stages@[k].id@,
            forall|k: int| 0 <= k < i ==> #[trigger] stage_orders@[k] == value.stages@[k].order,
        decreases value.stages@.len() - i,
    {
        stages.push(value.stages[i].id.clone());
        stage_orders.push(value.stages[i].order);
        i += 1;
    }
    let mut beats: Vec<String> = Vec::new();
    let mut parents: Vec<String> = Vec::new();
    let mut orders: Vec<i64> = Vec::new();
    i = 0;
    while i < value.beats.len()
        invariant
            i <= value.beats@.len(),
            beats@.len() == i,
            parents@.len() == i,
            orders@.len() == i,
            forall|k: int| 0 <= k < i ==> #[trigger] beats@[k]@ == value.beats@[k].id@,
            forall|k: int| 0 <= k < i ==> #[trigger] parents@[k]@ == value.beats@[k].stage_id@,
            forall|k: int| 0 <= k < i ==> #[trigger] orders@[k] == value.beats@[k].order,
        decreases value.beats@.len() - i,
    {
        beats.push(value.beats[i].id.clone());
        parents.push(value.beats[i].stage_id.clone());
        orders.push(value.beats[i].order);
        i += 1;
    }
    assert(texts(stages@) =~= stage_ids(*value));
    assert(stage_orders@ =~= value.stages@.map_values(|x: FrameworkStage| x.order));
    assert(texts(beats@) =~= value.beats@.map_values(|x: FrameworkBeat| x.id@));
    assert(texts(parents@) =~= value.beats@.map_values(|x: FrameworkBeat| x.stage_id@));
    assert(orders@ =~= value.beats@.map_values(|x: FrameworkBeat| x.order));
    match validate_unique_ids("framework stage", stages.as_slice()) {
        Err(text) => {
            return Err(text);
        },
        Ok(()) => {},
    }
    match validate_unique_ids("framework beat", beats.as_slice()) {
        Err(text) => {
            return Err(text);
        },
        Ok(()) => {},
    }
    let names = repeated("framework", stages.len());
    match validate_sibling_orders("framework stage", names.as_slice(), stage_orders.as_slice()) {
        Err(text) => {
            return Err(text);
        },
        Ok(()) => {},
    }
    match validate_references(
        "framework beat",
        beats.as_slice(),
        parents.as_slice(),
        "stage",
        stages.as_slice(),
    ) {
        Err(text) => {
            return Err(text);
        },
        Ok(()) => {},
    }
    validate_sibling_orders("framework beat", parents.as_slice(), orders.as_slice())
}

/// Names of the frameworks that come with the program.
pub open spec fn is_builtin_name(id: Seq<char>) -> bool {
    id == "save-the-cat"@ || id == "three-act"@ || id == "kishotenketsu"@ || id == "hakogaki"@
}

/// Returns whether a framework comes with the program.
pub fn is_builtin_framework(id: &str) -> (r: bool)
    ensures
        r == is_builtin_name(id@),
{
    str_eq(id, "save-the-cat") || str_eq(id, "three-act") || str_eq(id, "kishotenketsu") || str_eq(
        id,
        "hakogaki",
    )
}

/// The position at or after `i` of a text inside another, or `None`.
pub open spec fn position_of(text: Seq<char>, part: Seq<char>, i: int) -> Option<int>
    decreases text.len() - i,
{
    if i < 0 || i >= text.len() || i + part.len() > text.len() {
        None
    } else if text.subrange(i, i + part.len()) == part {
        Some(i)
    } else {
        position_of(text, part, i + 1)
    }
}

/// The YAML text of a framework file: between a first line `---` and the next line `---`.
pub open spec fn framework_yaml(source: Seq<char>) -> Option<Seq<char>> {
    if !has_prefix(source, "---\n"@) {
        None
    } else {
        let rest = source.skip("---\n"@.len() as int);
        match position_of(rest, "\n---\n"@, 0) {
            None => None,
            Some(at) => Some(rest.take(at)),
        }
    }
}

/// Returns the YAML text of a framework file.
pub fn framework_frontmatter(source: &str) -> (r: Result<String, String>)
    ensures
        match r {
            Ok(yaml) => framework_yaml(source@) == Some(yaml@),
            Err(text) => framework_yaml(source@) is None && text@
                == "framework must use YAML frontmatter"@,
        },
{
    match strip_prefix(source, "---\n") {
        None => Err("framework must use YAML frontmatter".to_owned()),
        Some(rest) => {
            let chars = to_chars(rest.as_str());
            let part = to_chars("\n---\n");
            let n: usize = chars.len();
            let m: usize = part.len();
            let mut i: usize = 0;
            proof {
                reveal_strlit("\n---\n");
            }
            while m <= n && i <= n - m
                invariant
                    m == 5,
                    n == chars@.len(),
                    m == part@.len(),
                    chars@ == rest@,
                    part@ == "\n---\n"@,
                    has_prefix(source@, "---\n"@),
                    rest@ == source@.skip("---\n"@.len() as int),
                    i <= n + 1,
                    m <= n ==> i <= n - m + 1,
                    position_of(rest@, part@, 0) == position_of(rest@, part@, i as int),
                decreases n + 1 - i,
            {
                let mut k: usize = 0;
                while k < m && chars[i + k] == part[k]
                    invariant
                        k <= m,
                        i + m <= n,
                        n == chars@.len(),
                        m == part@.len(),
                        forall|x: int| 0 <= x < k ==> chars@[i + x] == part@[x],
                    decreases m - k,
                {
                    k += 1;
                }
                if k == m {
                    assert(rest@.subrange(i as int, i + m) =~= part@);
                    assert(chars@.subrange(0, i as int) =~= rest@.take(i as int));
                    return Ok(from_chars(chars.as_slice(), 0, i));
                }
                assert(rest@.subrange(i as int, i + m)[k as int] != part@[k as int]);
                i += 1;
            }
            Err("framework must use YAML frontmatter".to_owned())
        },
    }
}

/// Returns the framework that comes with the program under a name, given the definition that its
/// file holds: `None` for other names and for a definition that is missing or breaks a rule.
pub fn builtin_framework(id: &str, definition: Option<FrameworkDefinition>) -> (r: Option<
    FrameworkDefinition,
>)
    ensures
        r == (if is_builtin_name(id@) && definition is Some && framework_error(
            definition->Some_0,
        ) is None {
            definition
        } else {
            None
        }),
{
    if !is_builtin_framework(id) {
        return None;
    }
    match definition {
        None => None,
        Some(framework) => match validate_framework(&framework) {
            Ok(()) => Some(framework),
            Err(_) => None,
        },
    }
}

} // verus!
