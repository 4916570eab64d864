//! Which sources a compiled context takes in, and what it shows of each.
use vstd::prelude::*;
use crate::compile::{agent_context, is_chapter_request, stored_snapshot};
use crate::context::{ancestry, applicable, by_source_id, compile_result, confirmation_error, current_summary, entry_key, entry_position, first_matching, handoff_error, initial_selection, line_covers, line_order, new_compiler, of_tier, position, select_from, select_step, selection_order, source_block, transmitted, CompiledModel, CompilerModel, ContextRequest, CoverageDisposition, KeyModel, ReceiptLine, Selection, SelectionStep};
use crate::domain::{is_id_of, is_known_id, EntityKind};
use crate::hash::digest_text;
use crate::laws::pipeline::{lemma_found, lemma_part_of_part};
use crate::order::ordering_keeps_items;
use crate::paths::{content_of, FileModel};
use crate::plot::{among, box_ids, chapter_ids, entity_ids_error, part_ids, scene_ids, structure_error, StoryStructure};
use crate::sources::{scope_applies, snapshot_matches, EntryModel, ScopeModel, SnapshotModel, SourceTier};
use crate::text::{has_part, text_of, utf8};

verus! {

proof fn lemma_ids_differ(
    kind: EntityKind,
    ids: Seq<Seq<char>>,
    others: Seq<Seq<char>>,
    from: int,
    i: int,
)
    requires
        0 <= from <= i < ids.len(),
        entity_ids_error(kind, ids, others, from) is None,
    ensures
        !among(others, others.len() as int, ids[i]),
        !among(ids, i, ids[i]),
        is_id_of(ids[i], kind),
        is_known_id(ids[i]),
    decreases i - from,
{
    if from < i {
        lemma_ids_differ(kind, ids, others, from + 1, i);
    }
}

proof fn lemma_position(list: Seq<Seq<char>>, text: Seq<char>, from: int, i: int)
    requires
        0 <= from <= i < list.len(),
        list[i] == text,
        !among(list, i, text),
    ensures
        position(list, text, from) == Some(i),
    decreases i - from,
{
    if from < i {
        assert(list[from] != text);
        lemma_position(list, text, from + 1, i);
    }
}

proof fn lemma_no_position(list: Seq<Seq<char>>, text: Seq<char>, from: int)
    requires
        0 <= from <= list.len(),
        !among(list, list.len() as int, text),
    ensures
        position(list, text, from) is None,
    decreases list.len() - from,
{
    if from < list.len() {
        assert(list[from] != text);
        lemma_no_position(list, text, from + 1);
    }
}

proof fn lemma_chapter_place(s: StoryStructure, i: int)
    requires
        structure_error(s) is None,
        0 <= i < s.chapters@.len(),
    ensures
        position(chapter_ids(s), s.chapters@[i].id@, 0) == Some(i),
        position(part_ids(s), s.chapters@[i].id@, 0) is None,
        position(scene_ids(s), s.chapters@[i].id@, 0) is None,
        position(box_ids(s), s.chapters@[i].id@, 0) is None,
        is_known_id(s.chapters@[i].id@),
{
    let id = s.chapters@[i].id@;
    let before = part_ids(s) + chapter_ids(s);
    assert(chapter_ids(s)[i] == id);
    assert(before[part_ids(s).len() + i] == id);
    lemma_ids_differ(EntityKind::Chapter, chapter_ids(s), part_ids(s), 0, i);
    lemma_position(chapter_ids(s), id, 0, i);
    lemma_no_position(part_ids(s), id, 0);
    assert(!among(scene_ids(s), scene_ids(s).len() as int, id)) by {
        if among(scene_ids(s), scene_ids(s).len() as int, id) {
            let j = choose|j: int| 0 <= j < scene_ids(s).len() && #[trigger] scene_ids(s)[j] == id;
            lemma_ids_differ(EntityKind::Scene, scene_ids(s), before, 0, j);
        }
    }
    lemma_no_position(scene_ids(s), id, 0);
    let all = before + scene_ids(s);
    assert(all[part_ids(s).len() + i] == id);
    assert(!among(box_ids(s), box_ids(s).len() as int, id)) by {
        if among(box_ids(s), box_ids(s).len() as int, id) {
            let j = choose|j: int| 0 <= j < box_ids(s).len() && #[trigger] box_ids(s)[j] == id;
            lemma_ids_differ(EntityKind::Box, box_ids(s), all, 0, j);
        }
    }
    lemma_no_position(box_ids(s), id, 0);
}

proof fn lemma_scene_place(s: StoryStructure, j: int)
    requires
        structure_error(s) is None,
        0 <= j < s.scenes@.len(),
    ensures
        position(scene_ids(s), s.scenes@[j].id@, 0) == Some(j),
        position(box_ids(s), s.scenes@[j].id@, 0) is None,
        is_known_id(s.scenes@[j].id@),
{
    let id = s.scenes@[j].id@;
    let before = part_ids(s) + chapter_ids(s);
    assert(scene_ids(s)[j] == id);
    lemma_ids_differ(EntityKind::Scene, scene_ids(s), before, 0, j);
    lemma_position(scene_ids(s), id, 0, j);
    let all = before + scene_ids(s);
    assert(all[before.len() + j] == id);
    assert(!among(box_ids(s), box_ids(s).len() as int, id)) by {
        if among(box_ids(s), box_ids(s).len() as int, id) {
            let k = choose|k: int| 0 <= k < box_ids(s).len() && #[trigger] box_ids(s)[k] == id;
            lemma_ids_differ(EntityKind::Box, box_ids(s), all, 0, k);
        }
    }
    lemma_no_position(box_ids(s), id, 0);
}

/// A context for a chapter looks at the chapter and at the part that the chapter names, and at
/// nothing else.
pub proof fn chapter_looks_up_to_its_part(c: CompilerModel, s: StoryStructure, i: int)
    requires
        c.structure == Some(s),
        structure_error(s) is None,
        0 <= i < s.chapters@.len(),
    ensures
        ({
            let list = ancestry(c, s.chapters@[i].id@);
            &&& list is Ok
            &&& list->Ok_0.contains(s.chapters@[i].id@)
            &&& list->Ok_0.contains(s.chapters@[i].part_id@)
            &&& forall|id: Seq<char>| #[trigger]
                list->Ok_0.contains(id) ==> id == s.chapters@[i].id@ || id
                    == s.chapters@[i].part_id@
        }),
{
    let chapter = s.chapters@[i].id@;
    let part = s.chapters@[i].part_id@;
    lemma_chapter_place(s, i);
    let list = ancestry(c, chapter)->Ok_0;
    assert(crate::context::chapter_of(s, chapter) == Some(chapter));
    assert(crate::context::part_of(s, chapter) == Some(part));
    assert(list == seq![chapter].push(chapter).push(part));
    assert(list[0] == chapter && list[2] == part);
}

/// A context for a scene looks at the scene, at the chapter that the scene names and at the part
/// that this chapter names, and at nothing else.
pub proof fn scene_looks_up_to_its_part(c: CompilerModel, s: StoryStructure, j: int, i: int)
    requires
        c.structure == Some(s),
        structure_error(s) is None,
        0 <= j < s.scenes@.len(),
        0 <= i < s.chapters@.len(),
        s.scenes@[j].chapter_id@ == s.chapters@[i].id@,
    ensures
        ({
            let list = ancestry(c, s.scenes@[j].id@);
            &&& list is Ok
            &&& list->Ok_0.contains(s.scenes@[j].id@)
            &&& list->Ok_0.contains(s.chapters@[i].id@)
            &&& list->Ok_0.contains(s.chapters@[i].part_id@)
            &&& forall|id: Seq<char>| #[trigger]
                list->Ok_0.contains(id) ==> id == s.scenes@[j].id@ || id == s.chapters@[i].id@
                    || id == s.chapters@[i].part_id@
        }),
{
    let scene = s.scenes@[j].id@;
    let chapter = s.chapters@[i].id@;
    let part = s.chapters@[i].part_id@;
    lemma_scene_place(s, j);
    lemma_chapter_place(s, i);
    let list = ancestry(c, scene)->Ok_0;
    assert(crate::context::scene_of(s, scene) == Some(scene));
    assert(crate::context::chapter_of(s, scene) == Some(chapter));
    assert(crate::context::part_of(s, scene) == Some(part));
    assert(list == seq![scene].push(scene).push(chapter).push(part));
    assert(list[0] == scene && list[2] == chapter && list[3] == part);
}

/// A context for a box looks at the box, its scene, the chapter of the scene and the part of that
/// chapter, and at nothing else.
pub proof fn box_looks_up_to_its_part(c: CompilerModel, s: StoryStructure, k: int, j: int, i: int)
    requires
        c.structure == Some(s),
        structure_error(s) is None,
        0 <= k < s.boxes@.len(),
        0 <= j < s.scenes@.len(),
        0 <= i < s.chapters@.len(),
        s.boxes@[k].scene_id@ == s.scenes@[j].id@,
        s.scenes@[j].chapter_id@ == s.chapters@[i].id@,
    ensures
        ({
            let list = ancestry(c, s.boxes@[k].id@);
            &&& list is Ok
            &&& list->Ok_0.contains(s.boxes@[k].id@)
            &&& list->Ok_0.contains(s.scenes@[j].id@)
            &&& list->Ok_0.contains(s.chapters@[i].id@)
            &&& list->Ok_0.contains(s.chapters@[i].part_id@)
            &&& list->Ok_0.len() == 4
        }),
{
    let id = s.boxes@[k].id@;
    let scene = s.scenes@[j].id@;
    let chapter = s.chapters@[i].id@;
    let part = s.chapters@[i].part_id@;
    lemma_scene_place(s, j);
    lemma_chapter_place(s, i);
    let all = part_ids(s) + chapter_ids(s) + scene_ids(s);
    assert(box_ids(s)[k] == id);
    lemma_ids_differ(EntityKind::Box, box_ids(s), all, 0, k);
    lemma_position(box_ids(s), id, 0, k);
    let list = ancestry(c, id)->Ok_0;
    assert(crate::context::scene_of(s, id) == Some(scene));
    assert(crate::context::chapter_of(s, id) == Some(chapter));
    assert(crate::context::part_of(s, id) == Some(part));
    assert(list == seq![id].push(scene).push(chapter).push(part));
    assert(list[0] == id && list[1] == scene && list[2] == chapter && list[3] == part);
}

proof fn lemma_applicable(
    entries: Seq<EntryModel>,
    targets: Seq<Seq<char>>,
    role: Seq<char>,
    e: int,
)
    ensures
        applicable(entries, targets, role).contains(e) <==> 0 <= e < entries.len() && scope_applies(
            entries[e].scope,
            targets,
            role,
        ),
{
    let every = Seq::new(entries.len(), |i: int| i);
    let fits = |i: int| scope_applies(entries[i].scope, targets, role);
    ordering_keeps_items(every.filter(fits), by_source_id(entries), e);
    if 0 <= e < entries.len() && fits(e) {
        assert(every[e] == e);
        every.lemma_filter_contains(fits, e);
    }
    if every.filter(fits).contains(e) {
        every.lemma_filter_contains_rev(fits, e);
        let k = choose|k: int| 0 <= k < every.len() && every[k] == e;
        assert(every[k] == k);
        every.filter_lemma(fits);
        let q = choose|q: int| 0 <= q < every.filter(fits).len() && every.filter(fits)[q] == e;
        assert(fits(every.filter(fits)[q]));
    }
}

/// Which sources a context takes in: those of the whole work, those of the target or of anything it
/// lies in, and those of the role that asks.
pub proof fn sources_apply_by_scope(
    entries: Seq<EntryModel>,
    targets: Seq<Seq<char>>,
    role: Seq<char>,
    e: int,
    id: Seq<char>,
)
    requires
        0 <= e < entries.len(),
    ensures
        entries[e].scope == ScopeModel::Work ==> applicable(entries, targets, role).contains(e),
        entries[e].scope == ScopeModel::Part(id) || entries[e].scope == ScopeModel::Chapter(id)
            || entries[e].scope == ScopeModel::Scene(id) ==> (applicable(
            entries,
            targets,
            role,
        ).contains(e) <==> targets.contains(id)),
        entries[e].scope == ScopeModel::Role(id) ==> (applicable(entries, targets, role).contains(e)
            <==> id == role),
{
    lemma_applicable(entries, targets, role, e);
}

proof fn lemma_order_contains(entries: Seq<EntryModel>, list: Seq<int>, e: int)
    ensures
        selection_order(entries, list).contains(e) <==> list.contains(e),
{
    let a = of_tier(entries, list, SourceTier::RequiredRaw);
    let b = of_tier(entries, list, SourceTier::Compactable);
    let c = of_tier(entries, list, SourceTier::Optional);
    let order = selection_order(entries, list);
    lemma_tier_contains(entries, list, SourceTier::RequiredRaw, e);
    lemma_tier_contains(entries, list, SourceTier::Compactable, e);
    lemma_tier_contains(entries, list, SourceTier::Optional, e);
    if a.contains(e) {
        let k = choose|k: int| 0 <= k < a.len() && a[k] == e;
        assert(order[k] == e);
    }
    if b.contains(e) {
        let k = choose|k: int| 0 <= k < b.len() && b[k] == e;
        assert(order[a.len() + k] == e);
    }
    if c.contains(e) {
        let k = choose|k: int| 0 <= k < c.len() && c[k] == e;
        assert(order[a.len() + b.len() + k] == e);
    }
    if order.contains(e) {
        let k = choose|k: int| 0 <= k < order.len() && order[k] == e;
        if k < a.len() {
            assert(a[k] == e);
        } else if k < a.len() + b.len() {
            assert(b[k - a.len()] == e);
        } else {
            assert(c[k - a.len() - b.len()] == e);
        }
    }
}

proof fn lemma_tier_contains(entries: Seq<EntryModel>, list: Seq<int>, tier: SourceTier, e: int)
    ensures
        of_tier(entries, list, tier).contains(e) <==> list.contains(e) && entries[e].tier == tier,
{
    let wanted = |i: int| entries[i].tier == tier;
    let kept = list.filter(wanted);
    if list.contains(e) && entries[e].tier == tier {
        let k = choose|k: int| 0 <= k < list.len() && list[k] == e;
        assert(wanted(list[k]));
        list.lemma_filter_contains(wanted, k);
    }
    if kept.contains(e) {
        list.lemma_filter_contains_rev(wanted, e);
        list.filter_lemma(wanted);
        let k = choose|k: int| 0 <= k < kept.len() && kept[k] == e;
        assert(wanted(kept[k]));
    }
}

/// What a context shows of a source, and what its receipt says of it. A required source is there as
/// a whole. A compactable one is there by its current summary, or as a whole where it has none.
/// What the receipt calls raw is there as a whole, what it calls compacted is there by its summary,
/// and only an optional source is left out.
pub open spec fn is_shown(c: CompilerModel, e: int, line: ReceiptLine, text: Seq<char>) -> bool {
    let entry = c.entries[e];
    let raw = c.snapshots[e] is Some && has_part(
        text,
        "<!-- phemius-source:"@ + entry.source_id + " -->\n"@ + c.snapshots[e]->Some_0.content
            + "\n"@,
    );
    let summary = current_summary(c.summaries, entry, c.snapshots[e]->Some_0);
    let summarized = c.snapshots[e] is Some && summary is Some && has_part(
        text,
        "<!-- phemius-source:"@ + entry.source_id + " -->\n"@ + summary->Some_0.text + "\n"@,
    );
    &&& line_covers(line, entry)
    &&& entry.tier == SourceTier::RequiredRaw ==> raw
    &&& entry.tier == SourceTier::Compactable ==> summarized || (summary is None && raw)
    &&& line matches ReceiptLine::Source { disposition, source_range, truncated, .. } ==> {
        &&& !truncated
        &&& disposition == CoverageDisposition::Raw ==> raw && source_range is Some
            && source_range->Some_0.start == 0 && source_range->Some_0.end == utf8(
            c.snapshots[e]->Some_0.content,
        ).len() as usize
        &&& disposition == CoverageDisposition::Compacted ==> summarized && source_range == Some(
            summary->Some_0.source_range,
        )
        &&& disposition == CoverageDisposition::Excluded ==> entry.tier == SourceTier::Optional
    }
}

spec fn took_whole(c: CompilerModel, s: Selection, i: int, t: Selection) -> bool {
    let entry = c.entries[i];
    let shot = c.snapshots[i]->Some_0;
    &&& c.snapshots[i] is Some
    &&& t.context == s.context + source_block(entry.source_id, shot.content)
    &&& t.used == s.used + utf8(source_block(entry.source_id, shot.content)).len()
    &&& entry.tier == SourceTier::Compactable ==> current_summary(c.summaries, entry, shot) is None
    &&& t.lines.last() matches ReceiptLine::Source { disposition, source_range, truncated, .. } ==> {
        &&& !truncated
        &&& disposition == CoverageDisposition::Raw
        &&& source_range == Some(crate::context::whole_range(shot.content))
    }
    &&& shot.secret ==> s.available.contains(entry_key(entry)) && t.taken == s.taken.push(
        entry_key(entry),
    )
}

spec fn took_summary(c: CompilerModel, s: Selection, i: int, t: Selection) -> bool {
    let entry = c.entries[i];
    let summary = current_summary(c.summaries, entry, c.snapshots[i]->Some_0);
    &&& c.snapshots[i] is Some
    &&& summary is Some
    &&& t.context == s.context + source_block(entry.source_id, summary->Some_0.text)
    &&& t.used == s.used + utf8(source_block(entry.source_id, summary->Some_0.text)).len()
    &&& entry.tier != SourceTier::RequiredRaw
    &&& t.lines.last() matches ReceiptLine::Source { disposition, source_range, truncated, .. } ==> {
        &&& !truncated
        &&& disposition == CoverageDisposition::Compacted
        &&& source_range == Some(summary->Some_0.source_range)
    }
    &&& !c.snapshots[i]->Some_0.secret
}

spec fn took_nothing(c: CompilerModel, s: Selection, i: int, t: Selection) -> bool {
    &&& t.context == s.context
    &&& t.used == s.used
    &&& c.entries[i].tier == SourceTier::Optional
    &&& t.lines.last() matches ReceiptLine::Source { disposition, truncated, .. } ==> !truncated
        && disposition == CoverageDisposition::Excluded
}

proof fn lemma_step_form(c: CompilerModel, s: Selection, i: int, budget: u64, t: Selection)
    requires
        select_step(c, s, i, budget) == SelectionStep::Continue(t),
        s.used <= budget,
    ensures
        t.lines.len() == s.lines.len() + 1,
        t.lines.drop_last() == s.lines,
        line_covers(t.lines.last(), c.entries[i]),
        t.used <= budget,
        took_whole(c, s, i, t) || took_summary(c, s, i, t) || took_nothing(c, s, i, t),
        t.available.subset_of(s.available),
        t.taken == s.taken || t.taken == s.taken.push(entry_key(c.entries[i])),
{
    assert(t.lines.drop_last() =~= s.lines);
}

proof fn lemma_step_shown(c: CompilerModel, s: Selection, i: int, budget: u64, t: Selection)
    requires
        select_step(c, s, i, budget) == SelectionStep::Continue(t),
        s.used <= budget,
        s.used == utf8(s.context).len(),
    ensures
        t.lines.len() == s.lines.len() + 1,
        t.lines.drop_last() == s.lines,
        is_shown(c, i, t.lines.last(), t.context),
        t.used <= budget,
        t.used == utf8(t.context).len(),
        has_part(t.context, s.context),
        c.snapshots[i] is Some && c.snapshots[i]->Some_0.secret && c.entries[i].tier
            != SourceTier::Optional ==> s.available.contains(entry_key(c.entries[i]))
            && t.taken.contains(entry_key(c.entries[i])),
        t.available.subset_of(s.available),
        s.taken.len() <= t.taken.len() && t.taken.take(s.taken.len() as int) == s.taken,
{
    lemma_step_form(c, s, i, budget, t);
    let none = Seq::<char>::empty();
    let added = t.context.skip(s.context.len() as int);
    assert(t.context =~= s.context + added);
    lemma_found(none, s.context, added);
    assert(none + s.context + added =~= t.context);
    lemma_found(s.context, added, none);
    assert(s.context + added + none =~= t.context);
    crate::text::lemma_utf8_concat(s.context, added);
    assert(t.taken.take(s.taken.len() as int) =~= s.taken);
    if took_whole(c, s, i, t) {
        assert(added =~= source_block(c.entries[i].source_id, c.snapshots[i]->Some_0.content));
        if c.snapshots[i]->Some_0.secret {
            assert(t.taken.last() == entry_key(c.entries[i]));
        }
    } else if took_summary(c, s, i, t) {
        let summary = current_summary(c.summaries, c.entries[i], c.snapshots[i]->Some_0)->Some_0;
        assert(added =~= source_block(c.entries[i].source_id, summary.text));
    } else {
        assert(added =~= none);
        lemma_empty_bytes();
    }
}

proof fn lemma_shown_grows(c: CompilerModel, e: int, line: ReceiptLine, text: Seq<char>, more: Seq<char>)
    requires
        is_shown(c, e, line, text),
        has_part(more, text),
    ensures
        is_shown(c, e, line, more),
{
    let entry = c.entries[e];
    if let Some(shot) = c.snapshots[e] {
        let block = source_block(entry.source_id, shot.content);
        if has_part(text, block) {
            lemma_part_of_part(more, text, block);
        }
        let summary = current_summary(c.summaries, entry, shot);
        if summary is Some {
            let short = source_block(entry.source_id, summary->Some_0.text);
            if has_part(text, short) {
                lemma_part_of_part(more, text, short);
            }
        }
    }
}

proof fn lemma_selection(
    c: CompilerModel,
    order: Seq<int>,
    k: int,
    s: Selection,
    budget: u64,
    t: Selection,
)
    requires
        select_from(c, order, k, s, budget) == SelectionStep::Continue(t),
        0 <= k <= order.len(),
        s.lines.len() == k,
        s.used <= budget,
        s.used == utf8(s.context).len(),
        forall|j: int| 0 <= j < k ==> is_shown(c, order[j], #[trigger] s.lines[j], s.context),
    ensures
        t.lines.len() == order.len(),
        t.used <= budget,
        t.used == utf8(t.context).len(),
        forall|j: int|
            0 <= j < order.len() ==> is_shown(c, order[j], #[trigger] t.lines[j], t.context),
    decreases order.len() - k,
{
    if k < order.len() {
        match select_step(c, s, order[k], budget) {
            SelectionStep::Stop(message, u) => {},
            SelectionStep::Continue(u) => {
                lemma_step_shown(c, s, order[k], budget, u);
                assert forall|j: int| 0 <= j < k + 1 implies is_shown(
                    c,
                    order[j],
                    #[trigger] u.lines[j],
                    u.context,
                ) by {
                    if j < k {
                        assert(u.lines.drop_last()[j] == s.lines[j]);
                        lemma_shown_grows(c, order[j], s.lines[j], s.context, u.context);
                    }
                }
                lemma_selection(c, order, k + 1, u, budget, t);
            },
        }
    }
}

proof fn lemma_confirmed(
    c: CompilerModel,
    order: Seq<int>,
    k: int,
    s: Selection,
    budget: u64,
    t: Selection,
    j: int,
)
    requires
        select_from(c, order, k, s, budget) == SelectionStep::Continue(t),
        0 <= k <= order.len(),
        s.used <= budget,
        s.used == utf8(s.context).len(),
        k <= j < order.len() ==> c.snapshots[order[j]] is Some
            && c.snapshots[order[j]]->Some_0.secret && c.entries[order[j]].tier
            != SourceTier::Optional,
    ensures
        s.taken.len() <= t.taken.len() && t.taken.take(s.taken.len() as int) == s.taken,
        k <= j < order.len() ==> s.available.contains(entry_key(c.entries[order[j]]))
            && t.taken.contains(entry_key(c.entries[order[j]])),
    decreases order.len() - k,
{
    assert(s.taken.take(s.taken.len() as int) =~= s.taken);
    if k < order.len() {
        match select_step(c, s, order[k], budget) {
            SelectionStep::Stop(message, u) => {},
            SelectionStep::Continue(u) => {
                lemma_step_shown(c, s, order[k], budget, u);
                if j == k {
                    lemma_confirmed(c, order, k + 1, u, budget, t, order.len() as int);
                    let key = entry_key(c.entries[order[j]]);
                    let q = choose|q: int| 0 <= q < u.taken.len() && u.taken[q] == key;
                    assert(t.taken.take(u.taken.len() as int)[q] == key);
                    assert(t.taken[q] == key);
                } else {
                    lemma_confirmed(c, order, k + 1, u, budget, t, j);
                }
                assert(t.taken.take(s.taken.len() as int) =~= t.taken.take(
                    u.taken.len() as int,
                ).take(s.taken.len() as int));
            },
        }
    }
}

/// Every source that applies to the target and the role is accounted for in a context that was
/// compiled: its receipt has an entry for it that says truly what is shown of it.
pub proof fn applicable_source_is_shown(
    c: CompilerModel,
    request: ContextRequest,
    targets: Seq<Seq<char>>,
    e: int,
)
    requires
        compile_result(c, request) is Ok,
        ancestry(c, request.target@) == Ok::<Seq<Seq<char>>, Seq<char>>(targets),
        applicable(c.entries, targets, request.role@).contains(e),
    ensures
        exists|l: int|
            0 <= l < compile_result(c, request)->Ok_0.receipt.entries.len() && is_shown(
                c,
                e,
                #[trigger] compile_result(c, request)->Ok_0.receipt.entries[l],
                compile_result(c, request)->Ok_0.text,
            ),
{
    let list = applicable(c.entries, targets, request.role@);
    let order = selection_order(c.entries, list);
    let first = initial_selection(c);
    lemma_empty_bytes();
    let step = select_from(c, order, 0, first, request.budget_tokens);
    let t = step->Continue_0;
    lemma_selection(c, order, 0, first, request.budget_tokens, t);
    lemma_order_contains(c.entries, list, e);
    let j = choose|j: int| 0 <= j < order.len() && order[j] == e;
    let result = compile_result(c, request)->Ok_0;
    assert(is_shown(c, order[j], t.lines[j], t.context));
    ordering_keeps_items(t.lines, line_order(), t.lines[j]);
    assert(t.lines.contains(t.lines[j]));
    let l = choose|l: int|
        0 <= l < result.receipt.entries.len() && result.receipt.entries[l] == t.lines[j];
    assert(is_shown(c, e, result.receipt.entries[l], result.text));
}

proof fn lemma_empty_bytes()
    ensures
        utf8(Seq::<char>::empty()).len() == 0,
{
    let none = Seq::<char>::empty();
    crate::text::lemma_utf8_concat(none, none);
    assert(none + none =~= none);
}

/// A source of the part that a chapter names applies to the chapter, and a context that was
/// compiled for the chapter has an entry for it in its receipt. So it is for a source of the chapter
/// itself.
pub proof fn source_of_a_part_reaches_its_chapters(
    c: CompilerModel,
    s: StoryStructure,
    i: int,
    request: ContextRequest,
    e: int,
)
    requires
        c.structure == Some(s),
        structure_error(s) is None,
        0 <= i < s.chapters@.len(),
        request.target@ == s.chapters@[i].id@,
        compile_result(c, request) is Ok,
        0 <= e < c.entries.len(),
        c.entries[e].scope == ScopeModel::Part(s.chapters@[i].part_id@) || c.entries[e].scope
            == ScopeModel::Chapter(s.chapters@[i].id@),
    ensures
        applicable(
            c.entries,
            ancestry(c, request.target@)->Ok_0,
            request.role@,
        ).contains(e),
        exists|l: int|
            0 <= l < compile_result(c, request)->Ok_0.receipt.entries.len() && is_shown(
                c,
                e,
                #[trigger] compile_result(c, request)->Ok_0.receipt.entries[l],
                compile_result(c, request)->Ok_0.text,
            ),
{
    chapter_looks_up_to_its_part(c, s, i);
    let targets = ancestry(c, request.target@)->Ok_0;
    lemma_applicable(c.entries, targets, request.role@, e);
    applicable_source_is_shown(c, request, targets, e);
}

/// A source of the part, of the chapter or of the scene applies to the scene, and a context that was
/// compiled for the scene has an entry for it in its receipt.
pub proof fn source_of_a_part_reaches_its_scenes(
    c: CompilerModel,
    s: StoryStructure,
    j: int,
    i: int,
    request: ContextRequest,
    e: int,
)
    requires
        c.structure == Some(s),
        structure_error(s) is None,
        0 <= j < s.scenes@.len(),
        0 <= i < s.chapters@.len(),
        s.scenes@[j].chapter_id@ == s.chapters@[i].id@,
        request.target@ == s.scenes@[j].id@,
        compile_result(c, request) is Ok,
        0 <= e < c.entries.len(),
        c.entries[e].scope == ScopeModel::Part(s.chapters@[i].part_id@) || c.entries[e].scope
            == ScopeModel::Chapter(s.chapters@[i].id@) || c.entries[e].scope == ScopeModel::Scene(
            s.scenes@[j].id@,
        ),
    ensures
        exists|l: int|
            0 <= l < compile_result(c, request)->Ok_0.receipt.entries.len() && is_shown(
                c,
                e,
                #[trigger] compile_result(c, request)->Ok_0.receipt.entries[l],
                compile_result(c, request)->Ok_0.text,
            ),
{
    scene_looks_up_to_its_part(c, s, j, i);
    let targets = ancestry(c, request.target@)->Ok_0;
    lemma_applicable(c.entries, targets, request.role@, e);
    applicable_source_is_shown(c, request, targets, e);
}

/// A context that was compiled is as long as it says, within its budget, and known by the digest of
/// its text, which its receipt repeats beside what was asked for.
pub proof fn compiled_context_is_measured(c: CompilerModel, request: ContextRequest)
    requires
        compile_result(c, request) is Ok,
    ensures
        ({
            let context = compile_result(c, request)->Ok_0;
            &&& context.estimated_tokens == utf8(context.text).len()
            &&& context.estimated_tokens <= request.budget_tokens
            &&& context.sha256 == digest_text(utf8(context.text))
            &&& context.receipt.context_sha256 == Some(context.sha256)
            &&& context.receipt.target == request.target@
            &&& context.receipt.role == request.role@
            &&& context.receipt.budget_tokens == request.budget_tokens
            &&& context.receipt.requested_output_tokens == request.requested_output_tokens
            &&& context.owner == c.owner
        }),
{
    let targets = ancestry(c, request.target@)->Ok_0;
    let list = applicable(c.entries, targets, request.role@);
    let order = selection_order(c.entries, list);
    let first = initial_selection(c);
    lemma_empty_bytes();
    let t = select_from(c, order, 0, first, request.budget_tokens)->Continue_0;
    lemma_selection(c, order, 0, first, request.budget_tokens, t);
}

/// A secret source that must be shown is shown only where its confirmation is there, and that
/// confirmation is set aside with the context.
pub proof fn secret_source_needs_a_confirmation(
    c: CompilerModel,
    request: ContextRequest,
    targets: Seq<Seq<char>>,
    e: int,
)
    requires
        compile_result(c, request) is Ok,
        ancestry(c, request.target@) == Ok::<Seq<Seq<char>>, Seq<char>>(targets),
        applicable(c.entries, targets, request.role@).contains(e),
        c.snapshots[e] is Some,
        c.snapshots[e]->Some_0.secret,
        c.entries[e].tier != SourceTier::Optional,
    ensures
        c.available.contains((c.entries[e].source_id, c.entries[e].expected_sha256)),
        compile_result(c, request)->Ok_0.reserved.contains(
            (c.entries[e].source_id, c.entries[e].expected_sha256),
        ),
{
    let list = applicable(c.entries, targets, request.role@);
    let order = selection_order(c.entries, list);
    let first = initial_selection(c);
    lemma_empty_bytes();
    let t = select_from(c, order, 0, first, request.budget_tokens)->Continue_0;
    lemma_order_contains(c.entries, list, e);
    let j = choose|j: int| 0 <= j < order.len() && order[j] == e;
    lemma_confirmed(c, order, 0, first, request.budget_tokens, t, j);
}

/// A summary stands in for a source only where it is of that source, was made from its present
/// text, lies within it, says something, and the source is not secret.
pub proof fn summary_in_use_is_current(c: CompilerModel, entry: EntryModel, snapshot: SnapshotModel)
    ensures
        current_summary(c.summaries, entry, snapshot) matches Some(summary) ==> {
            &&& summary.source_id == entry.source_id
            &&& summary.source_sha256 == entry.expected_sha256
            &&& summary.text.len() > 0
            &&& summary.source_range.start < summary.source_range.end
            &&& summary.source_range.end <= utf8(snapshot.content).len()
            &&& !snapshot.secret
            &&& c.summaries.contains(summary)
        },
{
    lemma_summary_found(c, entry.source_id, c.summaries.len() as int);
    assert(c.summaries.take(c.summaries.len() as int) =~= c.summaries);
}

proof fn lemma_summary_found(c: CompilerModel, id: Seq<char>, n: int)
    requires
        0 <= n <= c.summaries.len(),
    ensures
        crate::context::summary_for(c.summaries.take(n), id) matches Some(summary)
            ==> summary.source_id == id && c.summaries.contains(summary),
    decreases n,
{
    if n > 0 {
        let list = c.summaries.take(n);
        assert(list.drop_last() =~= c.summaries.take(n - 1));
        assert(list.last() == c.summaries[n - 1]);
        lemma_summary_found(c, id, n - 1);
    }
}

proof fn lemma_matching(snapshots: Seq<SnapshotModel>, entry: EntryModel, k: int)
    requires
        0 <= k <= snapshots.len(),
    ensures
        first_matching(snapshots, entry, k) matches Some(i) ==> k <= i < snapshots.len()
            && snapshot_matches(snapshots[i], entry),
        first_matching(snapshots, entry, k) is None ==> forall|i: int|
            k <= i < snapshots.len() ==> !snapshot_matches(#[trigger] snapshots[i], entry),
    decreases snapshots.len() - k,
{
    if k < snapshots.len() && !snapshot_matches(snapshots[k], entry) {
        lemma_matching(snapshots, entry, k + 1);
    }
}

/// What a compiler shows of a source is a snapshot that matches the source in every respect; a source
/// has none only where none of those that were read matches. Nothing is confirmed at first.
pub proof fn compiler_takes_matching_snapshots(
    entries: Seq<EntryModel>,
    snapshots: Seq<SnapshotModel>,
    owner: Seq<char>,
    e: int,
    key: KeyModel,
)
    requires
        0 <= e < entries.len(),
    ensures
        ({
            let c = new_compiler(entries, snapshots, owner);
            &&& c.entries == entries && c.owner == owner
            &&& c.snapshots[e] matches Some(snapshot) ==> snapshot_matches(snapshot, entries[e])
                && snapshots.contains(snapshot)
            &&& c.snapshots[e] is None ==> forall|i: int|
                0 <= i < snapshots.len() ==> !snapshot_matches(#[trigger] snapshots[i], entries[e])
            &&& !c.available.contains(key) && !c.reserved.contains(key)
            &&& c.summaries.len() == 0
        }),
{
    lemma_matching(snapshots, entries[e], 0);
}

proof fn lemma_entry_position(entries: Seq<EntryModel>, id: Seq<char>, i: int)
    requires
        0 <= i <= entries.len(),
    ensures
        entry_position(entries, id, i) matches Some(k) ==> i <= k < entries.len()
            && entries[k].source_id == id,
        entry_position(entries, id, i) is None ==> forall|k: int|
            i <= k < entries.len() ==> (#[trigger] entries[k]).source_id != id,
    decreases entries.len() - i,
{
    if i < entries.len() && entries[i].source_id != id {
        lemma_entry_position(entries, id, i + 1);
    }
}

/// A secret may be confirmed for one handing over where it is a source of the compiler, was read, is
/// secret, has the digest that is confirmed, and is not confirmed already.
pub proof fn confirmation_is_for_a_known_secret(c: CompilerModel, key: KeyModel)
    ensures
        confirmation_error(c, key) is None ==> exists|e: int|
            0 <= e < c.entries.len() && (#[trigger] c.entries[e]).source_id == key.0
                && c.entries[e].expected_sha256 == key.1 && (c.snapshots[e] matches Some(snapshot)
                && snapshot.secret),
        confirmation_error(c, key) is None ==> !c.available.contains(key) && !c.reserved.contains(
            key,
        ),
        (forall|e: int| 0 <= e < c.entries.len() ==> (#[trigger] c.entries[e]).source_id != key.0)
            ==> confirmation_error(c, key) is Some,
        c.available.contains(key) || c.reserved.contains(key) ==> confirmation_error(c, key)
            is Some,
{
    lemma_entry_position(c.entries, key.0, 0);
    if confirmation_error(c, key) is None {
        let e = entry_position(c.entries, key.0, 0)->Some_0;
        assert(c.entries[e].source_id == key.0);
    }
}

/// A source that is kept is read back from the files that it names: its bytes, its text, and where
/// it came from. A secret one is not kept.
pub proof fn kept_source_is_read_from_its_files(entry: EntryModel, list: Seq<FileModel>)
    ensures
        entry.snapshot.ephemeral ==> stored_snapshot(entry, list) == Ok::<
            Option<SnapshotModel>,
            Seq<char>,
        >(None),
        stored_snapshot(entry, list) matches Ok(Some(snapshot)) ==> {
            &&& entry.snapshot.raw_artifact matches Some(raw) && content_of(list, raw) == Some(
                snapshot.raw_bytes,
            )
            &&& entry.snapshot.content_artifact matches Some(text) && (content_of(list, text)
                matches Some(bytes) && snapshot.content == text_of(bytes))
            &&& snapshot.sha256 == digest_text(snapshot.raw_bytes)
            &&& snapshot.kind == entry.kind && snapshot.web == entry.web && !snapshot.secret
        },
        !entry.snapshot.ephemeral && (entry.snapshot.raw_artifact is None
            || entry.snapshot.content_artifact is None) ==> stored_snapshot(entry, list) is Err,
{
}

/// An agent is given the text of its context as it was compiled, with a receipt, or the reason why
/// there is none.
pub proof fn agent_is_given_the_compiled_context(c: CompilerModel, request: ContextRequest)
    ensures
        compile_result(c, request) matches Ok(context) ==> (agent_context(c, request) matches Ok(
            given,
        ) && given.0 == context.text && given.1 is Some && given.1->Some_0.target
            == request.target@ && given.1->Some_0.context_sha256 == Some(
            digest_text(utf8(context.text)),
        )),
        compile_result(c, request) matches Err(error) ==> (agent_context(c, request) matches Err(
            message,
        ) && message == error.message),
{
}

/// A context is asked for by the chapter and the name of the role.
pub proof fn context_is_asked_for_by_chapter_and_role(
    request: ContextRequest,
    chapter_id: Seq<char>,
    role: crate::findings::AgentRole,
)
    requires
        is_chapter_request(request, chapter_id, role),
    ensures
        request.target@ == chapter_id,
        request.role@ == crate::findings::role_name(role),
        request.budget_tokens == 1_000_000,
        request.requested_output_tokens == 20_000,
{
}

/// A context is handed over only by the compiler that made it, unchanged, and while the confirmations
/// that it was made with are held.
pub proof fn only_an_unchanged_context_is_handed_over(c: CompilerModel, context: CompiledModel)
    ensures
        handoff_error(c, context) is None <==> {
            &&& context.owner == c.owner
            &&& context.sha256 == digest_text(utf8(context.text))
            &&& context.receipt.context_sha256 == Some(digest_text(utf8(context.text)))
            &&& forall|i: int|
                0 <= i < context.reserved.len() ==> c.reserved.contains(
                    #[trigger] context.reserved[i],
                )
        },
        transmitted(context).text == context.text,
        transmitted(context).receipt.entries.len() == context.receipt.entries.len(),
{
}

/// A source that must be shown is taken in wherever it fits, to the last byte of the budget.
pub proof fn fitting_source_is_taken_in(
    s: Selection,
    entry: EntryModel,
    shot: SnapshotModel,
    budget: u64,
)
    requires
        !shot.secret,
    ensures
        ({
            let block = "<!-- phemius-source:"@ + entry.source_id + " -->\n"@ + shot.content + "\n"@;
            crate::context::required_step(s, entry, Some(shot), budget) is Continue <==> s.used
                + utf8(block).len() <= budget
        }),
        crate::context::required_step(s, entry, None, budget) is Stop,
{
}

} // verus!
