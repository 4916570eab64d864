//! What is left of the work on a chapter once it is done.
use vstd::prelude::*;
use crate::changeset::{change_material, material_digest};
use crate::domain::{ids, is_known_id};
use crate::findings::FindingModel;
use crate::records::{ChapterModel, ChapterState, RunRecord};
use crate::session::Checkpoint;
use crate::table::{lookup, put, put_is_found, sorted, Entries};
use crate::workflow::{checkpoint_of, coordinator_error, refreshed, refreshed_runs, stale_changes, RunModel};
use crate::workflow::chapter::{changeset_of, findings_recorded, is_new_work, last_order, outcome, start_error, with_known_chapter, with_outcome, Phase, WorkModel};

verus! {

/// What is recorded of a chapter is what the work came to: its text, its findings, what it was told,
/// the corrections it received, and its changeset.
pub proof fn outcome_tells_of_the_work(m: RunModel, w: WorkModel)
    ensures
        ({
            let run = outcome(m, w, changeset_of(m, w));
            &&& run.chapter_id == w.chapter_id
            &&& run.candidate_text == w.candidate_text
            &&& run.findings == w.findings
            &&& run.correction_receipts == w.corrections
            &&& run.provisional_canon_hashes == w.canon_hashes
            &&& run.provisional_canon_texts == w.canon_texts
            &&& run.context_receipt == w.receipt
            &&& run.role_context_receipts == w.role_receipts
            &&& run.trace == w.trace
            &&& run.preflight == m.preflight
            &&& run.changeset == changeset_of(m, w)
        }),
{
}

/// The changeset of a chapter is the change that was prepared for it: the same files, from the same
/// root to the same root, for the same candidate, behind what it depends on; it is validated as what
/// it is.
pub proof fn changeset_is_the_prepared_change(m: RunModel, w: WorkModel)
    requires
        w.prepared is Some,
    ensures
        ({
            let change = changeset_of(m, w);
            let prepared = w.prepared->Some_0;
            &&& change.id == w.changeset_id
            &&& change.operations == prepared.operations
            &&& change.base_root_hash == prepared.base_root_hash
            &&& change.content_result_hash == prepared.content_result_hash
            &&& change.result_root_hash == prepared.result_root_hash
            &&& change.candidate_hash == prepared.candidate_hash
            &&& change.dependencies == w.dependencies
            &&& change.chapter_order == w.order
            &&& w.dependencies.len() == 0 ==> change.parent_changeset_id is None
            &&& w.dependencies.len() > 0 ==> change.parent_changeset_id == Some(w.dependencies[0].0)
            &&& change.validation_hash == Some(material_digest(change_material(change)))
        }),
{
}

proof fn lemma_refreshed_lookup(runs: Entries<RunRecord>, id: Seq<char>, run: RunRecord)
    requires
        lookup(runs, id) == Some(run),
    ensures
        lookup(refreshed_runs(runs), id) == Some(refreshed(run)),
{
    let next = refreshed_runs(runs);
    assert forall|k: int| 0 <= k < runs.len() implies (#[trigger] runs[k]).0 == next[k].0 by {}
    lemma_keys(runs, next, id, 0);
    crate::table::lemma_slot(runs, id, 0);
}

proof fn lemma_keys(a: Entries<RunRecord>, b: Entries<RunRecord>, key: Seq<char>, i: int)
    requires
        a.len() == b.len(),
        forall|k: int| 0 <= k < a.len() ==> (#[trigger] a[k]).0 == b[k].0,
        0 <= i <= a.len(),
    ensures
        crate::table::slot(a, key, i) == crate::table::slot(b, key, i),
    decreases a.len() - i,
{
    if i < a.len() {
        assert(a[i].0 == b[i].0);
        lemma_keys(a, b, key, i + 1);
    }
}

/// Once a chapter is done later chapters are told its text and its digest; the record is kept, and
/// what is told of other chapters stays.
pub proof fn finished_chapter_is_told_to_later_ones(
    m: RunModel,
    w: WorkModel,
    run: RunRecord,
    other: Seq<char>,
)
    requires
        sorted(m.canon_texts),
        sorted(m.canon_hashes),
        sorted(m.runs),
        other != w.chapter_id,
    ensures
        ({
            let next = with_outcome(m, w, run);
            &&& lookup(next.canon_texts, w.chapter_id) == Some(w.candidate_text)
            &&& lookup(next.canon_hashes, w.chapter_id) == Some(w.candidate_hash)
            &&& lookup(next.runs, w.chapter_id) == Some(refreshed(run))
            &&& lookup(next.canon_texts, other) == lookup(m.canon_texts, other)
            &&& lookup(next.canon_hashes, other) == lookup(m.canon_hashes, other)
            &&& next.corrections == m.corrections
            &&& next.ledger == m.ledger
        }),
{
    put_is_found(m.canon_texts, w.chapter_id, w.candidate_text, other);
    put_is_found(m.canon_hashes, w.chapter_id, w.candidate_hash, other);
    put_is_found(m.runs, w.chapter_id, run, other);
    lemma_refreshed_lookup(put(m.runs, w.chapter_id, run), w.chapter_id, run);
}

/// Work on a chapter begins with a plan, with nothing found and nothing written, and with at most two
/// revisions, or fewer where fewer are allowed.
pub proof fn work_begins_with_a_plan(w: WorkModel, m: RunModel, chapter_id: Seq<char>)
    requires
        is_new_work(w, m, chapter_id),
    ensures
        w.chapter_id == chapter_id,
        w.phase == Phase::Planning,
        w.findings.len() == 0 && w.candidate_text.len() == 0 && w.batch.len() == 0,
        !w.rerun,
        w.revisions_left <= 2,
        w.revisions_left <= m.max_revisions,
        m.max_revisions >= 2 ==> w.revisions_left == 2,
        m.max_revisions < 2 ==> w.revisions_left == m.max_revisions,
        w.trace.critic_calls == 0 && w.trace.reviser_calls == 0,
{
}

proof fn lemma_last_order(chapters: Entries<ChapterModel>, n: int, k: int)
    requires
        0 <= n <= chapters.len(),
    ensures
        0 <= k < n ==> chapters[k].1.order <= last_order(chapters, n),
    decreases n,
{
    if n > 0 {
        lemma_last_order(chapters, n - 1, k);
    }
}

/// A chapter that is not known yet comes behind all that are.
pub proof fn unknown_chapter_comes_last(m: RunModel, id: Seq<char>, k: int)
    requires
        sorted(m.chapters),
        lookup(m.chapters, id) is None,
        0 <= k < m.chapters.len(),
        last_order(m.chapters, m.chapters.len() as int) < u32::MAX,
    ensures
        lookup(with_known_chapter(m, id).chapters, id) matches Some(chapter) && chapter.order
            > m.chapters[k].1.order && chapter.state == ChapterState::Planned,
{
    lemma_last_order(m.chapters, m.chapters.len() as int, k);
    let order = (last_order(m.chapters, m.chapters.len() as int) + 1) as u32;
    put_is_found(
        m.chapters,
        id,
        ChapterModel { id: id, order: order, state: ChapterState::Planned },
        id,
    );
}

/// A chapter that is stale or needs revalidation is not begun; any other may be.
pub proof fn outdated_chapter_is_not_begun(m: RunModel, id: Seq<char>, chapter: ChapterModel)
    requires
        lookup(m.chapters, id) == Some(chapter),
    ensures
        start_error(m, id) is Some <==> chapter.state == ChapterState::Stale || chapter.state
            == ChapterState::NeedsRevalidation,
{
}

proof fn lemma_recorded(m: RunModel, list: Seq<FindingModel>, chapter_id: Seq<char>, i: int, k: int)
    requires
        0 <= i <= list.len(),
        sorted(m.findings),
        sorted(m.owners),
        0 <= k < list.len(),
        forall|j: int| 0 <= j < list.len() && j != k ==> (#[trigger] list[j]).id != list[k].id,
        k < i ==> lookup(m.findings, list[k].id) == Some(list[k]) && lookup(m.owners, list[k].id)
            == Some(chapter_id),
    ensures
        lookup(findings_recorded(m, list, chapter_id, i).findings, list[k].id) == Some(list[k]),
        lookup(findings_recorded(m, list, chapter_id, i).owners, list[k].id) == Some(chapter_id),
    decreases list.len() - i,
{
    if i < list.len() {
        put_is_found(m.owners, list[i].id, chapter_id, list[k].id);
        put_is_found(m.findings, list[i].id, list[i], list[k].id);
        let next = RunModel {
            owners: put(m.owners, list[i].id, chapter_id),
            findings: put(m.findings, list[i].id, list[i]),
            ..m
        };
        lemma_recorded(next, list, chapter_id, i + 1, k);
    }
}

/// Every finding of a chapter can be found by its identifier, and is known as one of that chapter.
pub proof fn findings_are_found_by_identifier(
    m: RunModel,
    list: Seq<FindingModel>,
    chapter_id: Seq<char>,
    k: int,
)
    requires
        sorted(m.findings),
        sorted(m.owners),
        0 <= k < list.len(),
        forall|j: int| 0 <= j < list.len() && j != k ==> (#[trigger] list[j]).id != list[k].id,
    ensures
        lookup(findings_recorded(m, list, chapter_id, 0).findings, list[k].id) == Some(list[k]),
        lookup(findings_recorded(m, list, chapter_id, 0).owners, list[k].id) == Some(chapter_id),
{
    lemma_recorded(m, list, chapter_id, 0, k);
}

proof fn lemma_stale(runs: Entries<RunRecord>, n: int, k: int)
    requires
        0 <= k < n <= runs.len(),
        runs[k].1.state == ChapterState::NeedsRevalidation,
    ensures
        stale_changes(runs, n).contains(runs[k].1.changeset.id),
    decreases n,
{
    let before = stale_changes(runs, n - 1);
    let after = stale_changes(runs, n);
    if k < n - 1 {
        lemma_stale(runs, n - 1, k);
        let p = choose|p: int| 0 <= p < before.len() && before[p] == runs[k].1.changeset.id;
        assert(after[p] == runs[k].1.changeset.id);
    } else {
        assert(after.last() == runs[k].1.changeset.id);
    }
}

/// A checkpoint names every changeset that needs revalidation, every correction with an identifier of
/// its form, the money that was spent, and the context that it was made with.
pub proof fn checkpoint_tells_of_the_run(
    c: Checkpoint,
    m: RunModel,
    hash: Seq<char>,
    k: int,
    i: int,
)
    requires
        checkpoint_of(c, m, hash),
        m.models.len() == 10,
    ensures
        0 <= k < m.runs.len() && m.runs[k].1.state == ChapterState::NeedsRevalidation ==> ids(
            c.stale_changeset_ids@,
        ).contains(m.runs[k].1.changeset.id),
        0 <= i < m.corrections.len() && is_known_id(m.corrections[i].id) ==> ids(
            c.correction_ids@,
        ).contains(m.corrections[i].id),
        c.cost@ == m.cost_status.run@,
        c.context_epochs@.len() == 1 && c.context_epochs@[0].checkpoint_hash@ == hash
            && c.context_epochs@[0].model@ == m.models[1],
        c.recent_raw_tail_tokens == 15_000,
{
    if 0 <= k < m.runs.len() && m.runs[k].1.state == ChapterState::NeedsRevalidation {
        lemma_stale(m.runs, m.runs.len() as int, k);
    }
    if 0 <= i < m.corrections.len() && is_known_id(m.corrections[i].id) {
        let list = m.corrections.map_values(|rule: crate::records::RuleModel| rule.id);
        let wanted = |id: Seq<char>| is_known_id(id);
        assert(list[i] == m.corrections[i].id);
        list.lemma_filter_contains(wanted, i);
    }
}

/// A request to the coordinator needs words, and a run that needs no recovery.
pub proof fn coordinator_needs_words(m: RunModel, request: Seq<char>)
    ensures
        coordinator_error(m, request) is None <==> !crate::text::is_blank(request)
            && !m.recovery_required,
{
}

} // verus!
