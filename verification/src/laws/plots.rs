//! What a valid plan of a story is.
use vstd::prelude::*;
use crate::domain::{is_id_of, EntityKind};
use crate::plot::{among, beats_error, box_ids, box_parents, chapter_ids, chapter_parents, entity_ids_error, framework_error, framework_yaml, part_ids, position_of, references_error, scene_ids, scene_parents, siblings_error, stage_ids, structure_error, unique_ids_error, FrameworkBeat, FrameworkDefinition, FrameworkStage, MacroBeat, StoryBox, StoryChapter, StoryPart, StoryScene, StoryStructure};
use crate::table::{has_key, lookup, put, put_is_found, sorted, Entries};
use crate::text::{is_blank, texts};
use crate::workflow::chapter::{chapter_scenes, has_box, has_link, plan_error, scenes_error};

verus! {

proof fn lemma_siblings(kind: Seq<char>, parents: Seq<Seq<char>>, orders: Seq<i64>, from: int, i: int, j: int)
    requires
        0 <= from <= i < parents.len(),
        siblings_error(kind, parents, orders, from) is None,
        0 <= j < i,
        parents[j] == parents[i],
    ensures
        orders[j] != orders[i],
    decreases i - from,
{
    if from < i {
        lemma_siblings(kind, parents, orders, from + 1, i, j);
    }
}

/// In a valid structure no two parts have the same place, nor two chapters of a part, nor two scenes
/// of a chapter, nor two boxes of a scene.
pub proof fn siblings_have_places_of_their_own(s: StoryStructure, i: int, j: int)
    requires
        structure_error(s) is None,
        0 <= j < i,
    ensures
        i < s.parts@.len() ==> s.parts@[j].order != s.parts@[i].order,
        i < s.chapters@.len() && s.chapters@[j].part_id@ == s.chapters@[i].part_id@
            ==> s.chapters@[j].order != s.chapters@[i].order,
        i < s.scenes@.len() && s.scenes@[j].chapter_id@ == s.scenes@[i].chapter_id@
            ==> s.scenes@[j].order != s.scenes@[i].order,
        i < s.boxes@.len() && s.boxes@[j].scene_id@ == s.boxes@[i].scene_id@ ==> s.boxes@[j].order
            != s.boxes@[i].order,
{
    if i < s.parts@.len() {
        lemma_siblings(
            "part"@,
            crate::plot::same_parent("work"@, s.parts@.len()),
            s.parts@.map_values(|x: StoryPart| x.order),
            0,
            i,
            j,
        );
    }
    if i < s.chapters@.len() && s.chapters@[j].part_id@ == s.chapters@[i].part_id@ {
        lemma_siblings(
            "chapter"@,
            chapter_parents(s),
            s.chapters@.map_values(|x: StoryChapter| x.order),
            0,
            i,
            j,
        );
    }
    if i < s.scenes@.len() && s.scenes@[j].chapter_id@ == s.scenes@[i].chapter_id@ {
        lemma_siblings(
            "scene"@,
            scene_parents(s),
            s.scenes@.map_values(|x: StoryScene| x.order),
            0,
            i,
            j,
        );
    }
    if i < s.boxes@.len() && s.boxes@[j].scene_id@ == s.boxes@[i].scene_id@ {
        lemma_siblings(
            "box"@,
            box_parents(s),
            s.boxes@.map_values(|x: StoryBox| x.order),
            0,
            i,
            j,
        );
    }
}

proof fn lemma_beat(beats: Seq<MacroBeat>, known: Seq<Seq<char>>, from: int, i: int, k: int)
    requires
        0 <= from <= i < beats.len(),
        beats_error(beats, known, from) is None,
    ensures
        beats[i].scene_ids@.len() > 0,
        0 <= k < beats[i].scene_ids@.len() ==> known.contains(beats[i].scene_ids@[k]@),
    decreases i - from,
{
    if from < i {
        lemma_beat(beats, known, from + 1, i, k);
    } else if 0 <= k < beats[i].scene_ids@.len() {
        let links = texts(beats[i].scene_ids@);
        lemma_link(beats[i].id@, links, known, 0, k);
        assert(links[k] == beats[i].scene_ids@[k]@);
        let p = choose|p: int| 0 <= p < known.len() && #[trigger] known[p] == links[k];
        assert(known.contains(known[p]));
    }
}

proof fn lemma_link(beat: Seq<char>, links: Seq<Seq<char>>, known: Seq<Seq<char>>, from: int, k: int)
    requires
        0 <= from <= k < links.len(),
        crate::plot::links_error(beat, links, known, from) is None,
    ensures
        among(known, known.len() as int, links[k]),
    decreases k - from,
{
    if from < k {
        lemma_link(beat, links, known, from + 1, k);
    }
}

/// In a valid structure every beat of the plot links to at least one scene, and to known scenes only.
pub proof fn beats_link_to_known_scenes(s: StoryStructure, i: int, k: int)
    requires
        structure_error(s) is None,
        0 <= i < s.macro_beats@.len(),
    ensures
        s.macro_beats@[i].scene_ids@.len() > 0,
        0 <= k < s.macro_beats@[i].scene_ids@.len() ==> scene_ids(s).contains(
            s.macro_beats@[i].scene_ids@[k]@,
        ),
{
    lemma_beat(s.macro_beats@, scene_ids(s), 0, i, k);
}

proof fn lemma_ids(
    kind: EntityKind,
    ids: Seq<Seq<char>>,
    others: Seq<Seq<char>>,
    from: int,
    i: int,
)
    requires
        0 <= from <= i < ids.len(),
        entity_ids_error(kind, ids, others, from) is None,
    ensures
        is_id_of(ids[i], kind),
        !among(others, others.len() as int, ids[i]),
        !among(ids, i, ids[i]),
    decreases i - from,
{
    if from < i {
        lemma_ids(kind, ids, others, from + 1, i);
    }
}

/// In a valid structure everything has an identifier of its kind, and no two parts, chapters, scenes
/// or boxes share one.
pub proof fn entities_have_identifiers_of_their_own(s: StoryStructure, i: int, j: int)
    requires
        structure_error(s) is None,
    ensures
        0 <= i < s.parts@.len() ==> is_id_of(s.parts@[i].id@, EntityKind::Part),
        0 <= i < s.chapters@.len() ==> is_id_of(s.chapters@[i].id@, EntityKind::Chapter),
        0 <= i < s.scenes@.len() ==> is_id_of(s.scenes@[i].id@, EntityKind::Scene),
        0 <= i < s.boxes@.len() ==> is_id_of(s.boxes@[i].id@, EntityKind::Box),
        0 <= j < i < s.parts@.len() ==> s.parts@[j].id@ != s.parts@[i].id@,
        0 <= j < i < s.scenes@.len() ==> s.scenes@[j].id@ != s.scenes@[i].id@,
        0 <= j < i < s.boxes@.len() ==> s.boxes@[j].id@ != s.boxes@[i].id@,
{
    let before = part_ids(s) + chapter_ids(s);
    if 0 <= i < s.parts@.len() {
        lemma_ids(EntityKind::Part, part_ids(s), Seq::empty(), 0, i);
        if 0 <= j < i {
            assert(part_ids(s)[j] == s.parts@[j].id@);
        }
    }
    if 0 <= i < s.chapters@.len() {
        lemma_ids(EntityKind::Chapter, chapter_ids(s), part_ids(s), 0, i);
    }
    if 0 <= i < s.scenes@.len() {
        lemma_ids(EntityKind::Scene, scene_ids(s), before, 0, i);
        if 0 <= j < i {
            assert(scene_ids(s)[j] == s.scenes@[j].id@);
        }
    }
    if 0 <= i < s.boxes@.len() {
        lemma_ids(EntityKind::Box, box_ids(s), before + scene_ids(s), 0, i);
        if 0 <= j < i {
            assert(box_ids(s)[j] == s.boxes@[j].id@);
        }
    }
}

proof fn lemma_scenes_kept(
    scenes: Seq<StoryScene>,
    id: Seq<char>,
    i: int,
    found: Entries<Seq<char>>,
    key: Seq<char>,
)
    requires
        sorted(found),
        0 <= i <= scenes.len(),
        lookup(found, key) is Some,
    ensures
        sorted(chapter_scenes(scenes, id, i, found)),
        lookup(chapter_scenes(scenes, id, i, found), key) is Some,
    decreases scenes.len() - i,
{
    if i < scenes.len() {
        if scenes[i].chapter_id@ == id {
            put_is_found(found, scenes[i].id@, scenes[i].id@, key);
            lemma_scenes_kept(scenes, id, i + 1, put(found, scenes[i].id@, scenes[i].id@), key);
        } else {
            lemma_scenes_kept(scenes, id, i + 1, found, key);
        }
    }
}

proof fn lemma_scene_found(
    scenes: Seq<StoryScene>,
    id: Seq<char>,
    i: int,
    found: Entries<Seq<char>>,
    k: int,
)
    requires
        sorted(found),
        0 <= i <= k < scenes.len(),
        scenes[k].chapter_id@ == id,
    ensures
        lookup(chapter_scenes(scenes, id, i, found), scenes[k].id@) is Some,
    decreases k - i,
{
    let next = if scenes[i].chapter_id@ == id {
        put(found, scenes[i].id@, scenes[i].id@)
    } else {
        found
    };
    put_is_found(found, scenes[i].id@, scenes[i].id@, scenes[k].id@);
    if i < k {
        lemma_scene_found(scenes, id, i + 1, next, k);
    } else {
        lemma_scenes_kept(scenes, id, i + 1, next, scenes[k].id@);
    }
}

proof fn lemma_scene_linked(s: StoryStructure, scenes: Entries<Seq<char>>, from: int, p: int)
    requires
        0 <= from <= p < scenes.len(),
        scenes_error(s, scenes, from) is None,
    ensures
        has_box(s.boxes@, scenes[p].0),
        has_link(s.macro_beats@, scenes[p].0),
    decreases p - from,
{
    if from < p {
        lemma_scene_linked(s, scenes, from + 1, p);
    }
}

/// A chapter may be written only where the plan knows it, and each of its scenes has a box and is
/// linked to by a beat of the plot.
pub proof fn every_scene_of_a_chapter_is_planned(s: StoryStructure, id: Seq<char>, k: int)
    requires
        plan_error(s, id) is None,
        0 <= k < s.scenes@.len(),
        s.scenes@[k].chapter_id@ == id,
    ensures
        exists|c: int| 0 <= c < s.chapters@.len() && #[trigger] s.chapters@[c].id@ == id,
        exists|b: int| 0 <= b < s.boxes@.len() && #[trigger] s.boxes@[b].scene_id@ == s.scenes@[k].id@,
        exists|b: int|
            0 <= b < s.macro_beats@.len() && #[trigger] texts(
                s.macro_beats@[b].scene_ids@,
            ).contains(s.scenes@[k].id@),
        structure_error(s) is None,
{
    let none = Entries::<Seq<char>>::empty();
    let scenes = chapter_scenes(s.scenes@, id, 0, none);
    lemma_scene_found(s.scenes@, id, 0, none, k);
    let p = crate::table::slot(scenes, s.scenes@[k].id@, 0);
    assert(has_key(scenes, s.scenes@[k].id@));
    lemma_scene_linked(s, scenes, 0, p);
}

proof fn lemma_position_of(text: Seq<char>, part: Seq<char>, i: int, at: int)
    requires
        0 <= i <= at,
        at + part.len() <= text.len(),
        part.len() > 0,
        text.subrange(at, at + part.len()) == part,
        forall|k: int| i <= k < at ==> #[trigger] text.subrange(k, k + part.len()) != part,
    ensures
        position_of(text, part, i) == Some(at),
    decreases at - i,
{
    if i < at {
        assert(text.subrange(i, i + part.len()) != part);
        lemma_position_of(text, part, i + 1, at);
    }
}

/// The front matter of a framework is what stands between its two rules.
pub proof fn front_matter_stands_between_rules(yaml: Seq<char>, rest: Seq<char>)
    requires
        ({
            let end = "\n---\n"@;
            let text = yaml + end + rest;
            forall|k: int|
                0 <= k < yaml.len() ==> #[trigger] text.subrange(k, k + end.len()) != end
        }),
    ensures
        framework_yaml("---\n"@ + (yaml + "\n---\n"@ + rest)) == Some(yaml),
{
    reveal_strlit("---\n");
    reveal_strlit("\n---\n");
    let end = "\n---\n"@;
    let text = yaml + end + rest;
    let source = "---\n"@ + text;
    assert(source.take(4) =~= "---\n"@);
    assert(source.skip(4) =~= text);
    let at: int = yaml.len() as int;
    assert(text.subrange(at, at + end.len()) =~= end);
    lemma_position_of(text, end, 0, at);
    assert(text.take(at) =~= yaml);
}

proof fn lemma_unique(kind: Seq<char>, ids: Seq<Seq<char>>, from: int, i: int, j: int)
    requires
        0 <= from <= i < ids.len(),
        unique_ids_error(kind, ids, from) is None,
    ensures
        !is_blank(ids[i]),
        0 <= j < i ==> ids[j] != ids[i],
    decreases i - from,
{
    if from < i {
        lemma_unique(kind, ids, from + 1, i, j);
    } else if 0 <= j < i && ids[j] == ids[i] {
        assert(among(ids, i, ids[i]));
    }
}

proof fn lemma_reference(
    kind: Seq<char>,
    ids: Seq<Seq<char>>,
    references: Seq<Seq<char>>,
    target: Seq<char>,
    known: Seq<Seq<char>>,
    from: int,
    i: int,
)
    requires
        0 <= from <= i < ids.len(),
        references_error(kind, ids, references, target, known, from) is None,
    ensures
        known.contains(references[i]),
    decreases i - from,
{
    if from < i {
        lemma_reference(kind, ids, references, target, known, from + 1, i);
    } else {
        let p = choose|p: int| 0 <= p < known.len() && #[trigger] known[p] == references[i];
        assert(known.contains(known[p]));
    }
}

/// A framework that is accepted has a name; its stages and its beats have names and places of their
/// own, and every beat belongs to a stage that it has.
pub proof fn accepted_framework_is_sound(f: FrameworkDefinition, i: int, j: int)
    requires
        framework_error(f) is None,
    ensures
        !is_blank(f.id@),
        0 <= i < f.stages@.len() ==> !is_blank(f.stages@[i].id@),
        0 <= j < i < f.stages@.len() ==> f.stages@[j].id@ != f.stages@[i].id@ && f.stages@[j].order
            != f.stages@[i].order,
        0 <= i < f.beats@.len() ==> !is_blank(f.beats@[i].id@) && stage_ids(f).contains(
            f.beats@[i].stage_id@,
        ),
        0 <= j < i < f.beats@.len() ==> f.beats@[j].id@ != f.beats@[i].id@,
        0 <= j < i < f.beats@.len() && f.beats@[j].stage_id@ == f.beats@[i].stage_id@
            ==> f.beats@[j].order != f.beats@[i].order,
{
    let beats = f.beats@.map_values(|x: FrameworkBeat| x.id@);
    let parents = f.beats@.map_values(|x: FrameworkBeat| x.stage_id@);
    if 0 <= i < f.stages@.len() {
        lemma_unique("framework stage"@, stage_ids(f), 0, i, j);
        if 0 <= j < i {
            lemma_siblings(
                "framework stage"@,
                crate::plot::same_parent("framework"@, f.stages@.len()),
                f.stages@.map_values(|x: FrameworkStage| x.order),
                0,
                i,
                j,
            );
        }
    }
    if 0 <= i < f.beats@.len() {
        lemma_unique("framework beat"@, beats, 0, i, j);
        lemma_reference("framework beat"@, beats, parents, "stage"@, stage_ids(f), 0, i);
        if 0 <= j < i && f.beats@[j].stage_id@ == f.beats@[i].stage_id@ {
            lemma_siblings(
                "framework beat"@,
                parents,
                f.beats@.map_values(|x: FrameworkBeat| x.order),
                0,
                i,
                j,
            );
        }
    }
}

} // verus!
