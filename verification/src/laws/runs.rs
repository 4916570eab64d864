//! What approvals, rejections, edits and corrections do to the chapters of a run.
use vstd::prelude::*;
use crate::changeset::{ChangeModel, ChangesetState};
use crate::findings::{FindingKind, FindingModel};
use crate::records::{ChapterModel, ChapterState, RuleModel, RunRecord};
use crate::table::{lemma_slot, lemma_slot_is, lookup, put, put_is_found, removed_is_gone, slot, sorted, without, Entries};
use crate::text::{has_prefix, is_blank, text_before, text_before_is_strict_order};
use crate::workflow::{after_edit, approval_refusal, approved, budget_error, canon_after_edit, chapters_after_edit, continuous_error, continuous_from, continuous_plan, declared_framework, edit_error, edit_result, is_new_run, rejectable, rejected, request_reserved, resolve_error, runs_after_edit, with_chapter, with_correction, with_finding, with_resolution, without_findings, without_later_findings, EditedFiles, RunModel};
use crate::workflow::chapter::{maximum_calls, next_run, preflight_error, started, write_refusal, Phase, WorkEvent, WorkModel, WriteRefusal};

verus! {

/// Whether the tables of a run are in order and every chapter stands under its own name.
pub open spec fn is_filed(m: RunModel) -> bool {
    &&& sorted(m.chapters)
    &&& sorted(m.runs)
    &&& sorted(m.canon_hashes)
    &&& sorted(m.canon_texts)
    &&& forall|i: int| 0 <= i < m.chapters.len() ==> (#[trigger] m.chapters[i]).0 == m.chapters[i].1.id
}

proof fn lemma_at<V>(table: Entries<V>, i: int)
    requires
        sorted(table),
        0 <= i < table.len(),
    ensures
        lookup(table, table[i].0) == Some(table[i].1),
{
    let key = table[i].0;
    text_before_is_strict_order(key, key, key);
    lemma_slot_is(table, key, 0, i);
}

proof fn lemma_same_keys<V, W>(a: Entries<V>, b: Entries<W>, key: Seq<char>, i: int)
    requires
        a.len() == b.len(),
        forall|k: int| 0 <= k < a.len() ==> (#[trigger] a[k]).0 == b[k].0,
        0 <= i <= a.len(),
    ensures
        slot(a, key, i) == slot(b, key, i),
    decreases a.len() - i,
{
    if i < a.len() {
        assert(a[i].0 == b[i].0);
        lemma_same_keys(a, b, key, i + 1);
    }
}

proof fn lemma_chapter_after_edit(chapters: Entries<ChapterModel>, order: u32, id: Seq<char>)
    ensures
        lookup(chapters, id) is None ==> lookup(chapters_after_edit(chapters, order), id) is None,
        lookup(chapters, id) matches Some(chapter) ==> lookup(
            chapters_after_edit(chapters, order),
            id,
        ) == Some(
            if chapter.order > order {
                ChapterModel { state: crate::workflow::demoted(chapter.state), ..chapter }
            } else {
                chapter
            },
        ),
{
    let next = chapters_after_edit(chapters, order);
    assert forall|k: int| 0 <= k < chapters.len() implies (#[trigger] chapters[k]).0 == next[k].0 by {}
    lemma_same_keys(chapters, next, id, 0);
    lemma_slot(chapters, id, 0);
}

proof fn lemma_later(m: RunModel, chapters: Entries<ChapterModel>, order: u32, i: int)
    ensures
        ({
            let next = without_later_findings(m, chapters, order, i);
            next.chapters == m.chapters && next.canon_texts == m.canon_texts && next.canon_hashes
                == m.canon_hashes && next.corrections == m.corrections
        }),
    decreases chapters.len() - i,
{
    if 0 <= i < chapters.len() {
        if chapters[i].1.order > order {
            lemma_later(without_findings(m, chapters[i].1.id), chapters, order, i + 1);
        } else {
            lemma_later(m, chapters, order, i + 1);
        }
    }
}

/// What an edit at a place in the story leaves of a chapter that is behind it, by its state: an
/// approved one must be validated again, and any other is stale. Chapters up to the place stay.
pub proof fn edit_outdates_what_follows(m: RunModel, order: u32, id: Seq<char>, chapter: ChapterModel)
    requires
        lookup(m.chapters, id) == Some(chapter),
    ensures
        lookup(after_edit(m, order).chapters, id) matches Some(next) && {
            &&& next.order == chapter.order && next.id == chapter.id
            &&& chapter.order <= order ==> next.state == chapter.state
            &&& chapter.order > order && (chapter.state == ChapterState::Approved || chapter.state
                == ChapterState::NeedsRevalidation) ==> next.state
                == ChapterState::NeedsRevalidation
            &&& chapter.order > order && chapter.state != ChapterState::Approved && chapter.state
                != ChapterState::NeedsRevalidation ==> next.state == ChapterState::Stale
        },
{
    lemma_chapter_after_edit(m.chapters, order, id);
    let first = edited(m, order);
    lemma_later(first, m.chapters, order, 0);
}

spec fn edited(m: RunModel, order: u32) -> RunModel {
    RunModel {
        chapters: chapters_after_edit(m.chapters, order),
        runs: runs_after_edit(m.runs, m.chapters, order, 0),
        canon_hashes: canon_after_edit(m.canon_hashes, m.chapters, order, 0),
        canon_texts: canon_after_edit(m.canon_texts, m.chapters, order, 0),
        ..m
    }
}

proof fn lemma_canon(
    canon: Entries<Seq<char>>,
    chapters: Entries<ChapterModel>,
    order: u32,
    i: int,
    id: Seq<char>,
)
    requires
        sorted(canon),
        0 <= i <= chapters.len(),
    ensures
        sorted(canon_after_edit(canon, chapters, order, i)),
        (exists|k: int|
            i <= k < chapters.len() && (#[trigger] chapters[k]).1.order > order && chapters[k].1.id
                == id) ==> lookup(canon_after_edit(canon, chapters, order, i), id) is None,
        !(exists|k: int|
            i <= k < chapters.len() && (#[trigger] chapters[k]).1.order > order && chapters[k].1.id
                == id) ==> lookup(canon_after_edit(canon, chapters, order, i), id) == lookup(
            canon,
            id,
        ),
        lookup(canon, id) is None ==> lookup(canon_after_edit(canon, chapters, order, i), id)
            is None,
    decreases chapters.len() - i,
{
    if i < chapters.len() {
        if chapters[i].1.order > order {
            removed_is_gone(canon, chapters[i].1.id, id);
            lemma_canon(without(canon, chapters[i].1.id), chapters, order, i + 1, id);
        } else {
            lemma_canon(canon, chapters, order, i + 1, id);
        }
    }
}

/// The text of a chapter behind an edit is no longer told to later chapters; that of a chapter up to
/// the edit still is.
pub proof fn edit_withdraws_later_prose(m: RunModel, order: u32, id: Seq<char>, chapter: ChapterModel)
    requires
        is_filed(m),
        lookup(m.chapters, id) == Some(chapter),
    ensures
        chapter.order > order ==> lookup(after_edit(m, order).canon_texts, id) is None && lookup(
            after_edit(m, order).canon_hashes,
            id,
        ) is None,
        chapter.order <= order ==> lookup(after_edit(m, order).canon_texts, id) == lookup(
            m.canon_texts,
            id,
        ) && lookup(after_edit(m, order).canon_hashes, id) == lookup(m.canon_hashes, id),
{
    lemma_later(edited(m, order), m.chapters, order, 0);
    lemma_canon(m.canon_texts, m.chapters, order, 0, id);
    lemma_canon(m.canon_hashes, m.chapters, order, 0, id);
    let p = slot(m.chapters, id, 0);
    assert(m.chapters[p].1 == chapter && m.chapters[p].0 == id);
    if exists|k: int|
        0 <= k < m.chapters.len() && (#[trigger] m.chapters[k]).1.order > order
            && m.chapters[k].1.id == id {
        let k = choose|k: int|
            0 <= k < m.chapters.len() && (#[trigger] m.chapters[k]).1.order > order
                && m.chapters[k].1.id == id;
        lemma_at(m.chapters, k);
        assert(m.chapters[k].0 == id);
    }
}

/// An approval marks the chapter and its changeset as approved, and nothing else changes: neither
/// the text of the chapter nor any other chapter.
pub proof fn approval_marks_one_chapter(
    m: RunModel,
    id: Seq<char>,
    change: ChangeModel,
    chapter: ChapterModel,
    run: RunRecord,
    other: Seq<char>,
)
    requires
        is_filed(m),
        lookup(m.chapters, id) == Some(chapter),
        lookup(m.runs, id) == Some(run),
        other != id,
    ensures
        ({
            let next = approved(m, id, change);
            &&& lookup(next.chapters, id) == Some(
                ChapterModel {
                    id: chapter.id,
                    order: chapter.order,
                    state: ChapterState::Approved,
                },
            )
            &&& lookup(next.runs, id) matches Some(done) && done.state == ChapterState::Approved
                && done.changeset.state == ChangesetState::Approved && done.changeset.id == change.id
                && done.changeset.operations == change.operations && done.candidate_text
                == run.candidate_text && done.findings == run.findings
            &&& lookup(next.chapters, other) == lookup(m.chapters, other)
            &&& lookup(next.runs, other) == lookup(m.runs, other)
            &&& next.findings == m.findings && next.corrections == m.corrections
                && next.canon_texts == m.canon_texts && next.ledger == m.ledger
        }),
{
    put_is_found(
        m.chapters,
        id,
        ChapterModel { state: ChapterState::Approved, ..chapter },
        other,
    );
    put_is_found(
        m.runs,
        id,
        RunRecord {
            state: ChapterState::Approved,
            changeset: ChangeModel { state: ChangesetState::Approved, ..change },
            ..run
        },
        other,
    );
}

/// A chapter may be approved exactly where its candidate and its changeset are approvable, no
/// blocker is open, and every earlier chapter is approved.
pub proof fn approval_takes_exactly_this(m: RunModel, id: Seq<char>, run: RunRecord, order: u32)
    requires
        lookup(m.runs, id) == Some(run),
        lookup(m.chapters, id) is Some,
        lookup(m.chapters, id)->Some_0.order == order,
    ensures
        approval_refusal(m, id) is None <==> {
            &&& run.state == ChapterState::Approvable
            &&& run.changeset.state == ChangesetState::Approvable
            &&& run.changeset.unresolved_blocker_ids.len() == 0
            &&& forall|k: int|
                0 <= k < run.findings.len() ==> (#[trigger] run.findings[k]).resolved is Some || (
                run.findings[k].kind != FindingKind::RequiredSource && run.findings[k].kind
                    != FindingKind::Canon && run.findings[k].kind != FindingKind::Timeline
                    && run.findings[k].kind != FindingKind::Causality && run.findings[k].kind
                    != FindingKind::NearCopy)
            &&& forall|k: int|
                0 <= k < m.chapters.len() && (#[trigger] m.chapters[k]).1.order < order
                    ==> m.chapters[k].1.state == ChapterState::Approved
        },
{
}

/// A rejection marks the chapter as rejected; the chapters behind it are outdated by it and the
/// others stay.
pub proof fn rejection_marks_the_chapter(
    m: RunModel,
    id: Seq<char>,
    chapter: ChapterModel,
    other: Seq<char>,
    neighbour: ChapterModel,
)
    requires
        is_filed(m),
        lookup(m.chapters, id) == Some(chapter),
        lookup(m.chapters, other) == Some(neighbour),
        other != id,
    ensures
        lookup(rejected(m, id).chapters, id) == Some(
            ChapterModel { id: chapter.id, order: chapter.order, state: ChapterState::Rejected },
        ),
        lookup(rejected(m, id).chapters, other) matches Some(next) && {
            &&& neighbour.order <= chapter.order ==> next == neighbour
            &&& neighbour.order > chapter.order ==> next.state == (if neighbour.state
                == ChapterState::Approved || neighbour.state == ChapterState::NeedsRevalidation {
                ChapterState::NeedsRevalidation
            } else {
                ChapterState::Stale
            })
        },
        rejectable(m, id) <==> chapter.state != ChapterState::Approved,
{
    let mark = ChapterModel { state: ChapterState::Rejected, ..chapter };
    put_is_found(m.chapters, id, mark, other);
    let first = RunModel {
        chapters: put(m.chapters, id, mark),
        runs: match lookup(m.runs, id) {
            Some(run) => put(
                m.runs,
                id,
                RunRecord {
                    state: ChapterState::Rejected,
                    changeset: ChangeModel { state: ChangesetState::Rejected, ..run.changeset },
                    ..run
                },
            ),
            None => m.runs,
        },
        ..m
    };
    assert(rejected(m, id) == after_edit(first, chapter.order));
    edit_outdates_what_follows(first, chapter.order, id, mark);
    edit_outdates_what_follows(first, chapter.order, other, neighbour);
    lemma_chapter_after_edit(first.chapters, chapter.order, other);
    lemma_chapter_after_edit(first.chapters, chapter.order, id);
    lemma_later(edited(first, chapter.order), first.chapters, chapter.order, 0);
}

/// An accepted correction outdates the chapters behind its source and leaves the others.
pub proof fn correction_outdates_later_chapters(
    m: RunModel,
    rule: RuleModel,
    source: ChapterModel,
    id: Seq<char>,
    chapter: ChapterModel,
)
    requires
        lookup(m.chapters, rule.source_chapter) == Some(source),
        lookup(m.chapters, id) == Some(chapter),
    ensures
        lookup(with_correction(m, rule).chapters, id) matches Some(next) && {
            &&& chapter.order <= source.order ==> next.state == chapter.state
            &&& chapter.order > source.order ==> next.state == (if chapter.state
                == ChapterState::Approved || chapter.state == ChapterState::NeedsRevalidation {
                ChapterState::NeedsRevalidation
            } else {
                ChapterState::Stale
            })
        },
{
    let first = RunModel { corrections: m.corrections.push(rule), ..m };
    edit_outdates_what_follows(first, source.order, id, chapter);
}

proof fn lemma_runs(
    runs: Entries<RunRecord>,
    chapters: Entries<ChapterModel>,
    order: u32,
    i: int,
    id: Seq<char>,
)
    requires
        sorted(runs),
        0 <= i <= chapters.len(),
        !(exists|k: int|
            i <= k < chapters.len() && (#[trigger] chapters[k]).1.order > order && chapters[k].1.id
                == id),
    ensures
        sorted(runs_after_edit(runs, chapters, order, i)),
        lookup(runs_after_edit(runs, chapters, order, i), id) == lookup(runs, id),
    decreases chapters.len() - i,
{
    if i < chapters.len() {
        let chapter = chapters[i].1;
        if chapter.order > order {
            if let Some(run) = lookup(runs, chapter.id) {
                let next = RunRecord {
                    state: crate::workflow::demoted(chapter.state),
                    changeset: ChangeModel {
                        state: crate::workflow::demoted_change(chapter.state),
                        ..run.changeset
                    },
                    ..run
                };
                put_is_found(runs, chapter.id, next, id);
                assert(chapters[i].1.id != id);
                lemma_runs(put(runs, chapter.id, next), chapters, order, i + 1, id);
            } else {
                lemma_runs(runs, chapters, order, i + 1, id);
            }
        } else {
            lemma_runs(runs, chapters, order, i + 1, id);
        }
    }
}

/// The changeset of an approved chapter behind an edit must be validated again; that of any other
/// chapter behind it is stale. Its text stays.
pub proof fn edit_outdates_later_changesets(
    m: RunModel,
    order: u32,
    k: int,
    i: int,
    run: RunRecord,
)
    requires
        is_filed(m),
        0 <= i <= k < m.chapters.len(),
        m.chapters[k].1.order > order,
        lookup(m.runs, m.chapters[k].1.id) == Some(run),
    ensures
        lookup(
            runs_after_edit(m.runs, m.chapters, order, i),
            m.chapters[k].1.id,
        ) matches Some(next) && {
            &&& next.candidate_text == run.candidate_text && next.findings == run.findings
            &&& m.chapters[k].1.state == ChapterState::Approved || m.chapters[k].1.state
                == ChapterState::NeedsRevalidation ==> next.state == ChapterState::NeedsRevalidation
                && next.changeset.state == ChangesetState::NeedsRevalidation
            &&& m.chapters[k].1.state != ChapterState::Approved && m.chapters[k].1.state
                != ChapterState::NeedsRevalidation ==> next.state == ChapterState::Stale
                && next.changeset.state == ChangesetState::Stale
        },
    decreases k - i,
{
    let chapter = m.chapters[i].1;
    let id = m.chapters[k].1.id;
    if i == k {
        let next = RunRecord {
            state: crate::workflow::demoted(chapter.state),
            changeset: ChangeModel {
                state: crate::workflow::demoted_change(chapter.state),
                ..run.changeset
            },
            ..run
        };
        put_is_found(m.runs, id, next, id);
        if exists|j: int|
            i + 1 <= j < m.chapters.len() && (#[trigger] m.chapters[j]).1.order > order
                && m.chapters[j].1.id == id {
            let j = choose|j: int|
                i + 1 <= j < m.chapters.len() && (#[trigger] m.chapters[j]).1.order > order
                    && m.chapters[j].1.id == id;
            lemma_distinct(m, k, j);
        }
        lemma_runs(put(m.runs, id, next), m.chapters, order, i + 1, id);
    } else {
        let step = if chapter.order > order {
            match lookup(m.runs, chapter.id) {
                Some(old_run) => {
                    put(
                        m.runs,
                        chapter.id,
                        RunRecord {
                            state: crate::workflow::demoted(chapter.state),
                            changeset: ChangeModel {
                                state: crate::workflow::demoted_change(chapter.state),
                                ..old_run.changeset
                            },
                            ..old_run
                        },
                    )
                },
                None => m.runs,
            }
        } else {
            m.runs
        };
        lemma_distinct(m, i, k);
        if chapter.order > order {
            if let Some(old_run) = lookup(m.runs, chapter.id) {
                put_is_found(
                    m.runs,
                    chapter.id,
                    RunRecord {
                        state: crate::workflow::demoted(chapter.state),
                        changeset: ChangeModel {
                            state: crate::workflow::demoted_change(chapter.state),
                            ..old_run.changeset
                        },
                        ..old_run
                    },
                    id,
                );
            }
        }
        let n = RunModel { runs: step, ..m };
        assert(is_filed(n));
        edit_outdates_later_changesets(n, order, k, i + 1, run);
    }
}

proof fn lemma_distinct(m: RunModel, i: int, j: int)
    requires
        is_filed(m),
        0 <= i < j < m.chapters.len(),
    ensures
        m.chapters[i].1.id != m.chapters[j].1.id,
{
    let a = m.chapters[i].0;
    let b = m.chapters[j].0;
    assert(text_before(a, b));
    text_before_is_strict_order(a, a, a);
}

/// An approved chapter is not edited, and nothing changes. Neither is one without a candidate.
pub proof fn approved_chapter_is_not_edited(
    m: RunModel,
    id: Seq<char>,
    candidate: Seq<u8>,
    written: Option<EditedFiles>,
)
    requires
        lookup(m.chapters, id) is None || lookup(m.chapters, id)->Some_0.state
            == ChapterState::Approved || lookup(m.runs, id) is None,
    ensures
        edit_result(m, id, candidate, written).1 is Err,
        edit_result(m, id, candidate, written).0 == m,
{
}

/// A finding is resolved exactly where a reason is given, it is known, it is on the present text of
/// its chapter, and it is open.
pub proof fn only_a_present_open_finding_is_resolved(
    m: RunModel,
    id: Seq<char>,
    reason: Seq<char>,
    chapter_id: Seq<char>,
    run: RunRecord,
)
    requires
        crate::domain::is_known_id(id),
        lookup(m.owners, id) == Some(chapter_id),
        lookup(m.runs, chapter_id) == Some(run),
    ensures
        resolve_error(m, id, reason) is None <==> (!is_blank(reason) && (lookup(
            m.findings,
            id,
        ) matches Some(finding) && finding.resolved is None && finding.candidate_hash
            == run.changeset.candidate_hash)),
{
}

proof fn lemma_continuous(m: RunModel, chapters: Seq<Seq<char>>, i: int, k: int)
    requires
        sorted(m.chapters),
        0 <= i <= chapters.len(),
        chapters.len() <= 12,
        continuous_from(m, chapters, i).1 is None,
        i <= k < chapters.len(),
    ensures
        !chapters.take(k).contains(chapters[k]),
        lookup(continuous_from(m, chapters, i).0.chapters, chapters[k]) matches Some(chapter)
            && chapter.order == k + 1 && chapter.state != ChapterState::Stale && chapter.state
            != ChapterState::NeedsRevalidation,
    decreases chapters.len() - i,
{
    let next = if lookup(m.chapters, chapters[i]) is Some {
        m
    } else {
        with_chapter(m, chapters[i], (i + 1) as u32, ChapterState::Planned)
    };
    put_is_found(
        m.chapters,
        chapters[i],
        ChapterModel { id: chapters[i], order: (i + 1) as u32, state: ChapterState::Planned },
        chapters[k],
    );
    if i < k {
        lemma_continuous(next, chapters, i + 1, k);
        assert(chapters.take(k)[i] == chapters[i]);
        assert(chapters[i] != chapters[k]);
    } else {
        lemma_continuous_keeps(next, chapters, i + 1, chapters[k]);
    }
}

proof fn lemma_continuous_keeps(m: RunModel, chapters: Seq<Seq<char>>, i: int, id: Seq<char>)
    requires
        sorted(m.chapters),
        0 <= i <= chapters.len(),
        lookup(m.chapters, id) is Some,
    ensures
        lookup(continuous_from(m, chapters, i).0.chapters, id) == lookup(m.chapters, id),
    decreases chapters.len() - i,
{
    if i < chapters.len() && continuous_error(m, chapters, i) is None {
        if lookup(m.chapters, chapters[i]) is Some {
            lemma_continuous_keeps(m, chapters, i + 1, id);
        } else {
            put_is_found(
                m.chapters,
                chapters[i],
                ChapterModel { id: chapters[i], order: (i + 1) as u32, state: ChapterState::Planned },
                id,
            );
            lemma_continuous_keeps(
                with_chapter(m, chapters[i], (i + 1) as u32, ChapterState::Planned),
                chapters,
                i + 1,
                id,
            );
        }
    }
}

/// A continuous run is taken on only for ten to twelve chapters that differ. Each of them is then
/// known, in the place where it stands in the list, and none is outdated.
pub proof fn continuous_run_is_in_order(m: RunModel, chapters: Seq<Seq<char>>, k: int)
    requires
        sorted(m.chapters),
        continuous_plan(m, chapters).1 is None,
        0 <= k < chapters.len(),
    ensures
        10 <= chapters.len() <= 12,
        forall|j: int| 0 <= j < k ==> #[trigger] chapters[j] != chapters[k],
        lookup(continuous_plan(m, chapters).0.chapters, chapters[k]) matches Some(chapter)
            && chapter.order == k + 1 && chapter.state != ChapterState::Stale && chapter.state
            != ChapterState::NeedsRevalidation,
{
    lemma_continuous(m, chapters, 0, k);
    assert forall|j: int| 0 <= j < k implies #[trigger] chapters[j] != chapters[k] by {
        assert(chapters.take(k)[j] == chapters[j]);
    }
}

/// Each further revision is a request to the reviser and one to each of six critics, on top of those
/// to the architect, the writer and six critics.
pub proof fn estimate_counts_every_request(revisions: usize)
    requires
        revisions < 1000,
    ensures
        maximum_calls(0) == 1 + 1 + 6,
        maximum_calls((revisions + 1) as usize) == maximum_calls(revisions) + 1 + 6,
{
}

/// A chapter that is begun is running, and no finding on an earlier text of it is left.
pub proof fn begun_chapter_starts_afresh(
    m: RunModel,
    id: Seq<char>,
    status: crate::records::CostStatus,
    k: int,
)
    requires
        is_filed(m),
        lookup(m.chapters, id) is Some,
    ensures
        lookup(started(m, id, status).chapters, id) matches Some(chapter) && chapter.state
            == ChapterState::Running && chapter.order == lookup(m.chapters, id)->Some_0.order,
        0 <= k < started(m, id, status).findings.len() ==> lookup(
            m.owners,
            started(m, id, status).findings[k].0,
        ) != Some(id),
        started(m, id, status).cost_status == status,
        started(m, id, status).corrections == m.corrections,
{
    let chapter = lookup(m.chapters, id)->Some_0;
    put_is_found(m.chapters, id, ChapterModel { state: ChapterState::Running, ..chapter }, id);
    let keep = |entry: (Seq<char>, FindingModel)| lookup(m.owners, entry.0) != Some(id);
    if 0 <= k < started(m, id, status).findings.len() {
        m.findings.filter_lemma(keep);
        assert(keep(m.findings.filter(keep)[k]));
    }
}

/// A finding that is added to a chapter is found by its identifier, is known as one of the chapter,
/// and is the last of the findings of the chapter. Other findings and chapters stay.
pub proof fn added_finding_is_filed(
    m: RunModel,
    chapter_id: Seq<char>,
    finding: FindingModel,
    run: RunRecord,
    other: Seq<char>,
)
    requires
        sorted(m.findings),
        sorted(m.owners),
        sorted(m.runs),
        lookup(m.runs, chapter_id) == Some(run),
    ensures
        ({
            let next = with_finding(m, chapter_id, finding);
            &&& lookup(next.findings, finding.id) == Some(finding)
            &&& lookup(next.owners, finding.id) == Some(chapter_id)
            &&& lookup(next.runs, chapter_id) matches Some(after) && after.findings
                == run.findings.push(finding) && after.candidate_text == run.candidate_text
            &&& other != finding.id ==> lookup(next.findings, other) == lookup(m.findings, other)
            &&& other != chapter_id ==> lookup(next.runs, other) == lookup(m.runs, other)
            &&& next.chapters == m.chapters
        }),
{
    put_is_found(m.owners, finding.id, chapter_id, other);
    put_is_found(m.findings, finding.id, finding, other);
    put_is_found(m.runs, chapter_id, crate::workflow::run_with_finding(run, finding), other);
}

/// A finding that is resolved keeps all but its disposition, under its identifier; others stay.
pub proof fn resolved_finding_is_filed(
    m: RunModel,
    id: Seq<char>,
    reason: Seq<char>,
    finding: FindingModel,
    other: Seq<char>,
)
    requires
        sorted(m.findings),
        lookup(m.findings, id) == Some(finding),
        other != id,
    ensures
        ({
            let next = with_resolution(m, id, reason);
            &&& lookup(next.findings, id) matches Some(after) && after.resolved == Some(reason)
                && after.kind == finding.kind && after.message == finding.message
                && after.candidate_hash == finding.candidate_hash && after.id == finding.id
            &&& lookup(next.findings, other) == lookup(m.findings, other)
            &&& next.chapters == m.chapters && next.owners == m.owners
        }),
{
    put_is_found(m.findings, id, FindingModel { resolved: Some(reason), ..finding }, other);
}

/// Money that is held back for a request counts at once for its chapter and for the run, at the most
/// that a request may cost.
pub proof fn reserved_request_is_charged(
    before: RunModel,
    after: RunModel,
    chapter_id: Seq<char>,
    reservation: crate::cost::ReservationModel,
)
    requires
        request_reserved(before, after, chapter_id, reservation),
    ensures
        before.request_maximum is Some,
        reservation.reserved_cost == before.request_maximum->Some_0@,
        reservation.chapter_id == chapter_id,
        after.cost_status.chapter@ == before.cost_status.chapter@ + reservation.reserved_cost,
        after.cost_status.run@ == before.cost_status.run@ + reservation.reserved_cost,
        after.cost_status.run@ <= 120_000_000,
        after.cost_status.chapter@ <= 10_000_000,
        reservation.warning_required ==> after.cost_status.warning,
        before.cost_status.warning ==> after.cost_status.warning,
        after.chapters == before.chapters && after.runs == before.runs,
{
}

/// A run begins with nothing written and nothing spent, asks for every plan, counts chapters of eight
/// to twelve thousand graphemes, and revises at most twice.
pub proof fn run_begins_with_nothing(m: RunModel)
    requires
        is_new_run(m),
    ensures
        m.chapters.len() == 0 && m.runs.len() == 0 && m.findings.len() == 0 && m.corrections.len()
            == 0,
        m.cost_status.chapter@ == 0 && m.cost_status.run@ == 0,
        m.strict_preflight && m.structure_required && m.strict_backend_errors,
        !m.preflight.approved_scene_plan && !m.preflight.approved_box_plan
            && !m.preflight.macro_links,
        m.min_length == 8_000 && m.max_length == 12_000,
        m.length_unit == crate::findings::LengthUnit::Graphemes,
        m.max_revisions == 2,
        m.request_maximum is None && m.project is None && m.structure is None,
        !m.cost_warning_confirmed && !m.recovery_required,
{
}

/// A revision that was written clears the findings on the chapter in the run; anything else leaves
/// the run as it is.
pub proof fn only_a_revision_clears_findings(m: RunModel, w: WorkModel, event: WorkEvent)
    ensures
        w.phase != Phase::Revising ==> next_run(m, w, event) == m,
        !(event is Replies) ==> next_run(m, w, event) == m,
        next_run(m, w, event).chapters == m.chapters,
        next_run(m, w, event).corrections == m.corrections,
        next_run(m, w, event).canon_texts == m.canon_texts,
{
}

/// A custom framework is known by its name behind a prefix, which is added once.
pub proof fn custom_framework_is_named_once(id: Seq<char>)
    ensures
        has_prefix(declared_framework(id), "custom:"@),
        declared_framework(declared_framework(id)) == declared_framework(id),
        !has_prefix(id, "custom:"@) ==> declared_framework(id) == "custom:"@ + id,
{
    let whole = "custom:"@ + id;
    assert(whole.take("custom:"@.len() as int) =~= "custom:"@);
}

/// A chapter is ready to be written only where its scenes, its boxes and its links to the plot are
/// all approved.
pub proof fn all_plans_must_be_approved(report: crate::records::PreflightReport)
    ensures
        crate::records::preflight_ready(report) <==> report.approved_scene_plan
            && report.approved_box_plan && report.macro_links,
{
}

/// A chapter is begun only where the most that it can cost is known, is no more than $10, and is no
/// more than $5 unless that was agreed to.
pub proof fn chapter_may_cost_ten_dollars(
    m: RunModel,
    id: Seq<char>,
    maximum: crate::cost::MicroDollars,
)
    requires
        preflight_error(m, id) is None,
        m.request_maximum == Some(maximum),
    ensures
        ({
            let most = maximum@ * maximum_calls(m.max_revisions);
            &&& most <= 5_000_000 ==> write_refusal(m, id) is None
            &&& 5_000_000 < most <= 10_000_000 && m.cost_warning_confirmed ==> write_refusal(m, id)
                is None
            &&& 5_000_000 < most <= 10_000_000 && !m.cost_warning_confirmed ==> write_refusal(m, id)
                == Some(WriteRefusal::Confirm(id, most as u64))
            &&& most > 10_000_000 ==> (write_refusal(m, id) matches Some(WriteRefusal::Refused(_)))
        }),
{
}

/// A request is paid for exactly where its price is known and the chapter stays within $10 and the
/// run within $120, by what was charged and by what is held back.
pub proof fn request_stays_within_both_budgets(
    m: RunModel,
    id: Seq<char>,
    maximum: crate::cost::MicroDollars,
)
    requires
        m.request_maximum == Some(maximum),
    ensures
        budget_error(m, id) is None <==> m.cost_status.chapter@ + maximum@ <= 10_000_000
            && m.cost_status.run@ + maximum@ <= 120_000_000 && crate::cost::reserve_error(
            m.ledger,
            id,
            maximum@,
        ) is None,
{
}

proof fn lemma_continuous_accepted(m: RunModel, chapters: Seq<Seq<char>>, i: int)
    requires
        sorted(m.chapters),
        0 <= i <= chapters.len(),
        chapters.len() <= 12,
        forall|a: int, b: int|
            0 <= a < b < chapters.len() ==> #[trigger] chapters[a] != #[trigger] chapters[b],
        forall|k: int|
            i <= k < chapters.len() ==> (lookup(m.chapters, #[trigger] chapters[k]) matches Some(
                chapter,
            ) ==> chapter.order == k + 1 && chapter.state != ChapterState::Stale && chapter.state
                != ChapterState::NeedsRevalidation),
    ensures
        continuous_from(m, chapters, i).1 is None,
    decreases chapters.len() - i,
{
    if i < chapters.len() {
        assert(!chapters.take(i).contains(chapters[i])) by {
            if chapters.take(i).contains(chapters[i]) {
                let a = choose|a: int| 0 <= a < i && chapters.take(i)[a] == chapters[i];
                assert(chapters[a] != chapters[i]);
            }
        }
        if lookup(m.chapters, chapters[i]) is Some {
            lemma_continuous_accepted(m, chapters, i + 1);
        } else {
            let fresh = ChapterModel {
                id: chapters[i],
                order: (i + 1) as u32,
                state: ChapterState::Planned,
            };
            let next = with_chapter(m, chapters[i], (i + 1) as u32, ChapterState::Planned);
            put_is_found(m.chapters, chapters[i], fresh, chapters[i]);
            assert forall|k: int| i + 1 <= k < chapters.len() implies (lookup(
                next.chapters,
                #[trigger] chapters[k],
            ) matches Some(chapter) ==> chapter.order == k + 1 && chapter.state
                != ChapterState::Stale && chapter.state != ChapterState::NeedsRevalidation) by {
                assert(chapters[i] != chapters[k]);
                put_is_found(m.chapters, chapters[i], fresh, chapters[k]);
            }
            lemma_continuous_accepted(next, chapters, i + 1);
        }
    }
}

/// A continuous run of ten to twelve chapters that differ is taken on where each of them that is
/// known already stands in its place and is not outdated.
pub proof fn ordered_chapters_are_taken_on(m: RunModel, chapters: Seq<Seq<char>>)
    requires
        sorted(m.chapters),
        10 <= chapters.len() <= 12,
        forall|a: int, b: int|
            0 <= a < b < chapters.len() ==> #[trigger] chapters[a] != #[trigger] chapters[b],
        forall|k: int|
            0 <= k < chapters.len() ==> (lookup(m.chapters, #[trigger] chapters[k]) matches Some(
                chapter,
            ) ==> chapter.order == k + 1 && chapter.state != ChapterState::Stale && chapter.state
                != ChapterState::NeedsRevalidation),
    ensures
        continuous_plan(m, chapters).1 is None,
{
    lemma_continuous_accepted(m, chapters, 0);
}

/// A candidate that is not approved may be edited.
pub proof fn unapproved_candidate_may_be_edited(m: RunModel, id: Seq<char>, chapter: ChapterModel)
    requires
        lookup(m.chapters, id) == Some(chapter),
    ensures
        edit_error(m, id) is None <==> chapter.state != ChapterState::Approved && lookup(m.runs, id)
            is Some,
{
}

} // verus!
