//! Which chapters a correction reaches.
use vstd::prelude::*;
use crate::hash::digest_text;
use crate::plot::StoryStructure;
use crate::records::{ChapterModel, CorrectionScope, RuleModel};
use crate::table::lookup;
use crate::text::{has_prefix, is_blank, utf8};
use crate::workflow::{correction_error, correction_rule, received_by, receives, scene_from, with_correction, without_later_findings, RunModel};

verus! {

/// Whether no other correction of a run has the identifier of one of them.
pub open spec fn is_only_rule(m: RunModel, i: int) -> bool {
    &&& 0 <= i < m.corrections.len()
    &&& forall|j: int|
        0 <= j < m.corrections.len() && j != i ==> (#[trigger] m.corrections[j]).id
            != m.corrections[i].id
}

proof fn lemma_received(m: RunModel, i: int, chapter_id: Seq<char>)
    requires
        is_only_rule(m, i),
    ensures
        received_by(m, chapter_id).contains(
            (m.corrections[i].id, m.corrections[i].hash, m.corrections[i].diff),
        ) <==> receives(m, m.corrections[i], chapter_id),
{
    let wanted = |rule: RuleModel| receives(m, rule, chapter_id);
    let kept = m.corrections.filter(wanted);
    let rule = m.corrections[i];
    let entry = (rule.id, rule.hash, rule.diff);
    let list = received_by(m, chapter_id);
    if wanted(rule) {
        m.corrections.lemma_filter_contains(wanted, i);
        let k = choose|k: int| 0 <= k < kept.len() && kept[k] == rule;
        assert(list[k] == entry);
    }
    if list.contains(entry) {
        let k = choose|k: int| 0 <= k < list.len() && list[k] == entry;
        assert(kept[k].id == rule.id);
        assert(kept.contains(kept[k]));
        m.corrections.lemma_filter_contains_rev(wanted, kept[k]);
        let j = choose|j: int| 0 <= j < m.corrections.len() && m.corrections[j] == kept[k];
        assert(m.corrections[j].id == rule.id);
        assert(j == i);
        assert(wanted(kept[k])) by {
            m.corrections.filter_lemma(wanted);
        }
    }
}

/// A correction of a chapter reaches a chapter behind its source exactly where that chapter is its
/// target or comes no earlier than its target.
pub proof fn correction_of_a_chapter_reaches_it_and_later_ones(
    m: RunModel,
    i: int,
    target_id: Seq<char>,
    chapter_id: Seq<char>,
    source: ChapterModel,
    target: ChapterModel,
    chapter: ChapterModel,
)
    requires
        is_only_rule(m, i),
        m.corrections[i].scope == CorrectionScope::Chapter,
        m.corrections[i].target == Some(target_id),
        lookup(m.chapters, m.corrections[i].source_chapter) == Some(source),
        lookup(m.chapters, target_id) == Some(target),
        lookup(m.chapters, chapter_id) == Some(chapter),
    ensures
        received_by(m, chapter_id).contains(
            (m.corrections[i].id, m.corrections[i].hash, m.corrections[i].diff),
        ) <==> source.order < chapter.order && (chapter_id == target_id || chapter.order
            >= target.order),
{
    lemma_received(m, i, chapter_id);
}

/// A correction of the project reaches every chapter behind its source, and no other.
pub proof fn correction_of_the_project_reaches_every_later_chapter(
    m: RunModel,
    i: int,
    chapter_id: Seq<char>,
    source: ChapterModel,
    chapter: ChapterModel,
)
    requires
        is_only_rule(m, i),
        m.corrections[i].scope == CorrectionScope::Project,
        lookup(m.chapters, m.corrections[i].source_chapter) == Some(source),
        lookup(m.chapters, chapter_id) == Some(chapter),
    ensures
        received_by(m, chapter_id).contains(
            (m.corrections[i].id, m.corrections[i].hash, m.corrections[i].diff),
        ) <==> source.order < chapter.order,
{
    lemma_received(m, i, chapter_id);
}

/// A correction of a character or of a location reaches every chapter behind its source.
pub proof fn correction_of_a_figure_or_a_place_reaches_every_later_chapter(
    m: RunModel,
    i: int,
    chapter_id: Seq<char>,
    source: ChapterModel,
    chapter: ChapterModel,
)
    requires
        is_only_rule(m, i),
        m.corrections[i].target is Some,
        (m.corrections[i].scope == CorrectionScope::Character && has_prefix(
            m.corrections[i].target->Some_0,
            "character_"@,
        )) || (m.corrections[i].scope == CorrectionScope::Location && has_prefix(
            m.corrections[i].target->Some_0,
            "location_"@,
        )),
        lookup(m.chapters, m.corrections[i].source_chapter) == Some(source),
        lookup(m.chapters, chapter_id) == Some(chapter),
    ensures
        received_by(m, chapter_id).contains(
            (m.corrections[i].id, m.corrections[i].hash, m.corrections[i].diff),
        ) <==> source.order < chapter.order,
{
    lemma_received(m, i, chapter_id);
}

proof fn lemma_scene_from(structure: StoryStructure, id: Seq<char>, i: int, p: int)
    requires
        0 <= i <= p < structure.scenes@.len(),
        structure.scenes@[p].id@ == id,
        forall|k: int| i <= k < p ==> (#[trigger] structure.scenes@[k]).id@ != id,
    ensures
        scene_from(structure.scenes@, id, i) == p,
    decreases p - i,
{
    if i < p {
        assert(structure.scenes@[i].id@ != id);
        lemma_scene_from(structure, id, i + 1, p);
    }
}

/// A correction of a scene reaches a chapter behind its source exactly where that chapter comes no
/// earlier than the chapter of the scene.
pub proof fn correction_of_a_scene_reaches_its_chapter_and_later_ones(
    m: RunModel,
    i: int,
    p: int,
    chapter_id: Seq<char>,
    source: ChapterModel,
    home: ChapterModel,
    chapter: ChapterModel,
)
    requires
        is_only_rule(m, i),
        m.corrections[i].scope == CorrectionScope::Scene,
        m.structure is Some,
        0 <= p < m.structure->Some_0.scenes@.len(),
        forall|k: int|
            0 <= k < p ==> (#[trigger] m.structure->Some_0.scenes@[k]).id@
                != m.structure->Some_0.scenes@[p].id@,
        m.corrections[i].target == Some(m.structure->Some_0.scenes@[p].id@),
        lookup(m.chapters, m.structure->Some_0.scenes@[p].chapter_id@) == Some(home),
        lookup(m.chapters, m.corrections[i].source_chapter) == Some(source),
        lookup(m.chapters, chapter_id) == Some(chapter),
    ensures
        received_by(m, chapter_id).contains(
            (m.corrections[i].id, m.corrections[i].hash, m.corrections[i].diff),
        ) <==> source.order < chapter.order && chapter.order >= home.order,
{
    lemma_received(m, i, chapter_id);
    let structure = m.structure->Some_0;
    lemma_scene_from(structure, structure.scenes@[p].id@, 0, p);
}

/// A correction with a scope of its own but no target reaches nothing.
pub proof fn correction_without_a_target_reaches_nothing(m: RunModel, i: int, chapter_id: Seq<char>)
    requires
        is_only_rule(m, i),
        m.corrections[i].scope != CorrectionScope::Project,
        m.corrections[i].target is None,
    ensures
        !received_by(m, chapter_id).contains(
            (m.corrections[i].id, m.corrections[i].hash, m.corrections[i].diff),
        ),
{
    lemma_received(m, i, chapter_id);
}

/// What a chapter receives is a correction of the run: nothing is made up, and the text and its
/// digest are those of one correction.
pub proof fn received_corrections_were_accepted(m: RunModel, chapter_id: Seq<char>, k: int)
    requires
        0 <= k < received_by(m, chapter_id).len(),
    ensures
        exists|i: int|
            0 <= i < m.corrections.len() && received_by(m, chapter_id)[k] == (
                (#[trigger] m.corrections[i]).id,
                m.corrections[i].hash,
                m.corrections[i].diff,
            ),
{
    let wanted = |rule: RuleModel| receives(m, rule, chapter_id);
    let kept = m.corrections.filter(wanted);
    assert(kept.contains(kept[k]));
    m.corrections.lemma_filter_contains_rev(wanted, kept[k]);
    let j = choose|j: int| 0 <= j < m.corrections.len() && m.corrections[j] == kept[k];
    assert(m.corrections[j] == kept[k]);
}

proof fn lemma_later_findings_keep(m: RunModel, from: RunModel, order: u32, i: int)
    ensures
        ({
            let next = without_later_findings(m, from.chapters, order, i);
            next.chapters == m.chapters && next.corrections == m.corrections && next.structure
                == m.structure && next.canon_texts == m.canon_texts && next.canon_hashes
                == m.canon_hashes
        }),
    decreases from.chapters.len() - i,
{
    if 0 <= i < from.chapters.len() {
        if from.chapters[i].1.order > order {
            lemma_later_findings_keep(
                crate::workflow::without_findings(m, from.chapters[i].1.id),
                from,
                order,
                i + 1,
            );
        } else {
            lemma_later_findings_keep(m, from, order, i + 1);
        }
    }
}

/// An accepted correction is kept last, behind all that were accepted before; its text shows what
/// was there and what is to be there instead, and its digest is that of the text.
pub proof fn accepted_correction_is_kept(
    m: RunModel,
    id: Seq<char>,
    source: Seq<char>,
    before: Seq<char>,
    after: Seq<char>,
    scope: Seq<char>,
    target: Option<Seq<char>>,
)
    requires
        correction_error(m, source, before, after, scope, target) is None,
    ensures
        ({
            let next = with_correction(m, correction_rule(id, source, before, after, scope, target));
            let rule = next.corrections.last();
            &&& next.corrections.len() == m.corrections.len() + 1
            &&& next.corrections.drop_last() == m.corrections
            &&& rule.id == id
            &&& rule.source_chapter == source
            &&& rule.target == target
            &&& has_prefix(rule.diff, "BEFORE:\n"@ + before)
            &&& rule.diff.skip(("BEFORE:\n"@ + before).len() as int) == "\nAFTER:\n"@ + after
            &&& rule.hash == digest_text(utf8(rule.diff))
            &&& !is_blank(before) && !is_blank(after)
            &&& scope == "project"@ ==> rule.scope == CorrectionScope::Project && target is None
            &&& scope == "chapter"@ ==> rule.scope == CorrectionScope::Chapter && target is Some
            &&& scope == "scene"@ ==> rule.scope == CorrectionScope::Scene && target is Some
            &&& scope == "character"@ ==> rule.scope == CorrectionScope::Character && target is Some
            &&& scope == "location"@ ==> rule.scope == CorrectionScope::Location && target is Some
        }),
{
    reveal_strlit("project");
    reveal_strlit("chapter");
    reveal_strlit("scene");
    reveal_strlit("character");
    reveal_strlit("location");
    assert("project"@[0] == 'p' && "chapter"@[2] == 'a' && "scene"@[0] == 's' && "character"@.len()
        == 9 && "location"@[0] == 'l' && "chapter"@.len() == 7 && "character"@[0] == 'c'
        && "chapter"@[0] == 'c');
    let rule = correction_rule(id, source, before, after, scope, target);
    let pushed = RunModel { corrections: m.corrections.push(rule), ..m };
    let order = lookup(m.chapters, source)->Some_0.order;
    let first = RunModel {
        chapters: crate::workflow::chapters_after_edit(m.chapters, order),
        runs: crate::workflow::runs_after_edit(m.runs, m.chapters, order, 0),
        canon_hashes: crate::workflow::canon_after_edit(m.canon_hashes, m.chapters, order, 0),
        canon_texts: crate::workflow::canon_after_edit(m.canon_texts, m.chapters, order, 0),
        ..pushed
    };
    lemma_later_findings_keep(first, pushed, order, 0);
    let next = with_correction(m, rule);
    assert(next.corrections == m.corrections.push(rule));
    assert(m.corrections.push(rule).drop_last() =~= m.corrections);
    let head = "BEFORE:\n"@ + before;
    assert(rule.diff.take(head.len() as int) =~= head);
    assert(rule.diff.skip(head.len() as int) =~= "\nAFTER:\n"@ + after);
}

/// A correction that aims before its source, at the wrong kind of thing or at nothing is refused.
pub proof fn misaimed_correction_is_refused(
    m: RunModel,
    source: Seq<char>,
    before: Seq<char>,
    after: Seq<char>,
    scope: Seq<char>,
    target: Option<Seq<char>>,
)
    ensures
        lookup(m.chapters, source) is None ==> correction_error(
            m,
            source,
            before,
            after,
            scope,
            target,
        ) is Some,
        is_blank(before) || is_blank(after) ==> correction_error(
            m,
            source,
            before,
            after,
            scope,
            target,
        ) is Some,
        scope == "project"@ && target is Some ==> correction_error(
            m,
            source,
            before,
            after,
            scope,
            target,
        ) is Some,
        scope != "project"@ && target is None ==> correction_error(
            m,
            source,
            before,
            after,
            scope,
            target,
        ) is Some,
        scope == "chapter"@ && target is Some && (!has_prefix(target->Some_0, "chapter_"@) || (
        lookup(m.chapters, target->Some_0) is Some && lookup(m.chapters, source) is Some && lookup(
            m.chapters,
            target->Some_0,
        )->Some_0.order < lookup(m.chapters, source)->Some_0.order)) ==> correction_error(
            m,
            source,
            before,
            after,
            scope,
            target,
        ) is Some,
        scope == "scene"@ && target is Some && !has_prefix(target->Some_0, "scene_"@)
            ==> correction_error(m, source, before, after, scope, target) is Some,
        scope == "character"@ && target is Some && !has_prefix(target->Some_0, "character_"@)
            ==> correction_error(m, source, before, after, scope, target) is Some,
        scope == "location"@ && target is Some && !has_prefix(target->Some_0, "location_"@)
            ==> correction_error(m, source, before, after, scope, target) is Some,
{
    reveal_strlit("project");
    reveal_strlit("chapter");
    reveal_strlit("scene");
    reveal_strlit("character");
    reveal_strlit("location");
    assert("project"@[0] == 'p' && "chapter"@[2] == 'a' && "scene"@[0] == 's' && "character"@.len()
        == 9 && "location"@[0] == 'l' && "chapter"@.len() == 7 && "character"@[0] == 'c'
        && "chapter"@[0] == 'c');
}

/// A correction is accepted where its source is known, it says what was there and what is to be
/// there, and it aims at nothing for the whole project, or at a thing of its kind that does not come
/// before its source.
pub proof fn well_aimed_correction_is_accepted(
    m: RunModel,
    source: Seq<char>,
    before: Seq<char>,
    after: Seq<char>,
    target: Seq<char>,
)
    requires
        lookup(m.chapters, source) is Some,
        !is_blank(before) && !is_blank(after) && !is_blank(target),
        lookup(m.chapters, target) matches Some(chapter) ==> chapter.order >= lookup(
            m.chapters,
            source,
        )->Some_0.order,
    ensures
        correction_error(m, source, before, after, "project"@, None) is None,
        has_prefix(target, "chapter_"@) ==> correction_error(
            m,
            source,
            before,
            after,
            "chapter"@,
            Some(target),
        ) is None,
        has_prefix(target, "scene_"@) ==> correction_error(
            m,
            source,
            before,
            after,
            "scene"@,
            Some(target),
        ) is None,
        has_prefix(target, "character_"@) ==> correction_error(
            m,
            source,
            before,
            after,
            "character"@,
            Some(target),
        ) is None,
        has_prefix(target, "location_"@) ==> correction_error(
            m,
            source,
            before,
            after,
            "location"@,
            Some(target),
        ) is None,
{
    reveal_strlit("project");
    reveal_strlit("chapter");
    reveal_strlit("scene");
    reveal_strlit("character");
    reveal_strlit("location");
    assert("project"@[0] == 'p' && "chapter"@[2] == 'a' && "scene"@[0] == 's' && "character"@.len()
        == 9 && "location"@[0] == 'l' && "chapter"@.len() == 7 && "character"@[0] == 'c'
        && "chapter"@[0] == 'c');
}

} // verus!
