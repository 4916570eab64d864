//! What stands in the way of an approval, and what does not.
use vstd::prelude::*;
use crate::changeset::ChangesetState;
use crate::domain::is_known_id;
use crate::findings::{any_blocks, finding_blocks, kind_blocks, kind_of, FindingKind, FindingModel};
use crate::records::{preflight_ready, run_approvable, ChapterState, RunRecord};
use crate::table::lookup;
use crate::validation::ProjectSnapshot;
use crate::workflow::{approval_plan, approval_refusal, differing, open_blockers, others, refreshed, run_resolved, run_with_finding, RunModel};
use crate::workflow::chapter::{blocker_ids, changeset_of, outcome, WorkModel};

verus! {

/// A finding stands in the way of an approval where it concerns a required source, canon, the
/// timeline, causality or a near copy, and nowhere else.
pub proof fn five_kinds_block(kind: FindingKind)
    ensures
        kind == FindingKind::RequiredSource || kind == FindingKind::Canon || kind
            == FindingKind::Timeline || kind == FindingKind::Causality || kind
            == FindingKind::NearCopy ==> kind_blocks(kind),
        kind == FindingKind::Character || kind == FindingKind::ReaderPull || kind
            == FindingKind::Style || kind == FindingKind::SourceAdherence || kind
            == FindingKind::StoryEdit || kind == FindingKind::Other ==> !kind_blocks(kind),
{
}

/// A chapter that is approved has no open finding on a required source, on canon, on the timeline,
/// on causality or of a near copy.
pub proof fn approved_chapter_has_no_open_blocker(
    m: RunModel,
    chapter_id: Seq<char>,
    directory: Seq<char>,
    snapshot: ProjectSnapshot,
    k: int,
)
    requires
        approval_plan(m, chapter_id, directory, snapshot) is Ok,
        0 <= k < lookup(m.runs, chapter_id)->Some_0.findings.len(),
    ensures
        ({
            let finding = lookup(m.runs, chapter_id)->Some_0.findings[k];
            finding.kind == FindingKind::RequiredSource || finding.kind == FindingKind::Canon
                || finding.kind == FindingKind::Timeline || finding.kind == FindingKind::Causality
                || finding.kind == FindingKind::NearCopy ==> finding.resolved is Some
        }),
{
}

/// An open finding of one of the five kinds on a chapter keeps it from being approved, whatever
/// else holds of the chapter.
pub proof fn open_blocker_refuses_approval(m: RunModel, chapter_id: Seq<char>, k: int)
    requires
        lookup(m.runs, chapter_id) is Some,
        0 <= k < lookup(m.runs, chapter_id)->Some_0.findings.len(),
        lookup(m.runs, chapter_id)->Some_0.findings[k].resolved is None,
        ({
            let kind = lookup(m.runs, chapter_id)->Some_0.findings[k].kind;
            kind == FindingKind::RequiredSource || kind == FindingKind::Canon || kind
                == FindingKind::Timeline || kind == FindingKind::Causality || kind
                == FindingKind::NearCopy
        }),
    ensures
        approval_refusal(m, chapter_id) is Some,
{
    let run = lookup(m.runs, chapter_id)->Some_0;
    assert(kind_blocks(run.findings[k].kind));
    assert(!run_approvable(run));
}

/// Whether a finding speaks of the characters, of what draws a reader on, of style, of adherence to
/// sources, of an edit to the story or of anything else.
pub open spec fn is_advice(kind: FindingKind) -> bool {
    kind == FindingKind::Character || kind == FindingKind::ReaderPull || kind == FindingKind::Style
        || kind == FindingKind::SourceAdherence || kind == FindingKind::StoryEdit || kind
        == FindingKind::Other
}

/// Findings on characters, reader pull, style, source adherence, story edits and other things block
/// nothing: a chapter with none but these comes out approvable, with no blocker.
pub proof fn advice_never_blocks(m: RunModel, w: WorkModel)
    requires
        forall|i: int|
            0 <= i < w.findings.len() ==> ((#[trigger] w.findings[i]).kind
                == FindingKind::Character || w.findings[i].kind == FindingKind::ReaderPull
                || w.findings[i].kind == FindingKind::Style || w.findings[i].kind
                == FindingKind::SourceAdherence || w.findings[i].kind == FindingKind::StoryEdit
                || w.findings[i].kind == FindingKind::Other),
    ensures
        !any_blocks(w.findings, w.candidate_hash),
        changeset_of(m, w).state == ChangesetState::Approvable,
        changeset_of(m, w).unresolved_blocker_ids.len() == 0,
        outcome(m, w, changeset_of(m, w)).state == ChapterState::Approvable,
        run_approvable(outcome(m, w, changeset_of(m, w))),
{
    lemma_no_blocker_ids(w.findings, w.candidate_hash, w.findings.len() as int);
}

proof fn lemma_no_blocker_ids(list: Seq<FindingModel>, hash: Seq<char>, i: int)
    requires
        0 <= i <= list.len(),
        forall|k: int| 0 <= k < list.len() ==> !kind_blocks((#[trigger] list[k]).kind),
    ensures
        blocker_ids(list, hash, i).len() == 0,
    decreases i,
{
    if i > 0 {
        lemma_no_blocker_ids(list, hash, i - 1);
        assert(!kind_blocks(list[i - 1].kind));
    }
}

proof fn lemma_blocker_id(list: Seq<FindingModel>, hash: Seq<char>, i: int, k: int)
    requires
        0 <= k < i <= list.len(),
        finding_blocks(list[k], hash),
        is_known_id(list[k].id),
    ensures
        blocker_ids(list, hash, i).contains(list[k].id),
    decreases i,
{
    let before = blocker_ids(list, hash, i - 1);
    let after = blocker_ids(list, hash, i);
    if k < i - 1 {
        lemma_blocker_id(list, hash, i - 1, k);
        let p = choose|p: int| 0 <= p < before.len() && before[p] == list[k].id;
        assert(after[p] == list[k].id);
    } else {
        assert(after.last() == list[k].id);
    }
}

/// A chapter whose critics left an open finding of one of the five kinds on its text comes out as a
/// candidate that cannot be approved, and its changeset names the finding.
pub proof fn open_blocker_keeps_a_chapter_a_candidate(m: RunModel, w: WorkModel, k: int)
    requires
        0 <= k < w.findings.len(),
        w.findings[k].resolved is None,
        w.findings[k].candidate_hash == w.candidate_hash,
        w.findings[k].kind == FindingKind::RequiredSource || w.findings[k].kind
            == FindingKind::Canon || w.findings[k].kind == FindingKind::Timeline
            || w.findings[k].kind == FindingKind::Causality || w.findings[k].kind
            == FindingKind::NearCopy,
    ensures
        outcome(m, w, changeset_of(m, w)).state == ChapterState::Candidate,
        !run_approvable(outcome(m, w, changeset_of(m, w))),
        changeset_of(m, w).state == ChangesetState::Reviewing,
        is_known_id(w.findings[k].id) ==> changeset_of(m, w).unresolved_blocker_ids.contains(
            w.findings[k].id,
        ),
{
    assert(finding_blocks(w.findings[k], w.candidate_hash));
    if is_known_id(w.findings[k].id) {
        lemma_blocker_id(w.findings, w.candidate_hash, w.findings.len() as int, k);
    }
}

/// A finding of one of the five kinds that is added to a chapter is named by its changeset, and the
/// chapter is not approvable. One of another kind is kept too, and adds no blocker.
pub proof fn added_finding_is_kept(run: RunRecord, finding: FindingModel)
    ensures
        ({
            let next = run_with_finding(run, finding);
            &&& next.findings.drop_last() == run.findings
            &&& next.findings.last() == finding
            &&& next.state == ChapterState::Candidate
            &&& !run_approvable(next)
            &&& finding.kind == FindingKind::RequiredSource || finding.kind == FindingKind::Canon
                || finding.kind == FindingKind::Timeline || finding.kind == FindingKind::Causality
                || finding.kind == FindingKind::NearCopy
                ==> next.changeset.unresolved_blocker_ids.contains(finding.id)
            &&& is_advice(finding.kind) ==> next.changeset.unresolved_blocker_ids
                == run.changeset.unresolved_blocker_ids
            &&& forall|id: Seq<char>| #[trigger]
                run.changeset.unresolved_blocker_ids.contains(id)
                    ==> next.changeset.unresolved_blocker_ids.contains(id)
        }),
{
    let next = run_with_finding(run, finding);
    assert(next.findings.drop_last() =~= run.findings);
    let ids = run.changeset.unresolved_blocker_ids;
    let after = next.changeset.unresolved_blocker_ids;
    if after != ids {
        assert(after.last() == finding.id);
    }
    assert forall|id: Seq<char>| #[trigger] ids.contains(id) implies after.contains(id) by {
        let p = choose|p: int| 0 <= p < ids.len() && ids[p] == id;
        assert(after[p] == id);
    }
}

/// A candidate with no open finding of the five kinds on its text becomes approvable as soon as
/// every plan is approved; one with such a finding stays a candidate.
pub proof fn candidate_becomes_approvable_without_blockers(run: RunRecord)
    requires
        run.state == ChapterState::Candidate,
        preflight_ready(run.preflight),
    ensures
        refreshed(run).state == ChapterState::Approvable || refreshed(run) == run,
        refreshed(run).findings == run.findings,
        refreshed(run).state == ChapterState::Approvable <==> !(exists|i: int|
            0 <= i < run.findings.len() && (#[trigger] run.findings[i]).resolved is None
                && run.findings[i].candidate_hash == run.changeset.candidate_hash && (
            run.findings[i].kind == FindingKind::RequiredSource || run.findings[i].kind
                == FindingKind::Canon || run.findings[i].kind == FindingKind::Timeline
                || run.findings[i].kind == FindingKind::Causality || run.findings[i].kind
                == FindingKind::NearCopy)),
{
    let hash = run.changeset.candidate_hash;
    if any_blocks(run.findings, hash) {
        let i = choose|i: int|
            0 <= i < run.findings.len() && finding_blocks(#[trigger] run.findings[i], hash);
        assert(finding_blocks(run.findings[i], hash));
    } else {
        assert forall|i: int| 0 <= i < run.findings.len() implies !finding_blocks(
            #[trigger] run.findings[i],
            hash,
        ) by {
        }
    }
}

/// A resolved finding keeps its place with the reason that was given, is no blocker any more, and
/// nothing else changes: neither another finding nor another blocker.
pub proof fn resolution_settles_one_finding(run: RunRecord, id: Seq<char>, reason: Seq<char>, p: int)
    requires
        0 <= p < run.findings.len(),
        run.findings[p].id == id,
        forall|k: int| 0 <= k < p ==> (#[trigger] run.findings[k]).id != id,
    ensures
        ({
            let next = run_resolved(run, id, reason);
            &&& next.findings.len() == run.findings.len()
            &&& next.findings[p].resolved == Some(reason)
            &&& next.findings[p].kind == run.findings[p].kind
            &&& forall|k: int|
                0 <= k < run.findings.len() && k != p ==> #[trigger] next.findings[k]
                    == run.findings[k]
            &&& !next.changeset.unresolved_blocker_ids.contains(id)
            &&& forall|other: Seq<char>|
                other != id ==> (#[trigger] next.changeset.unresolved_blocker_ids.contains(other)
                    <==> run.changeset.unresolved_blocker_ids.contains(other))
            &&& next.state == run.state
            &&& next.candidate_text == run.candidate_text
        }),
{
    lemma_finding_from(run.findings, id, 0, p);
    let keep = differing(id);
    let ids = run.changeset.unresolved_blocker_ids;
    let after = others(ids, id);
    ids.filter_lemma(keep);
    assert forall|other: Seq<char>| other != id implies (#[trigger] after.contains(other)
        <==> ids.contains(other)) by {
        if ids.contains(other) {
            let q = choose|q: int| 0 <= q < ids.len() && ids[q] == other;
            assert(keep(ids[q]));
            ids.lemma_filter_contains(keep, q);
        }
        if after.contains(other) {
            ids.lemma_filter_contains_rev(keep, other);
        }
    }
    if after.contains(id) {
        let q = choose|q: int| 0 <= q < after.len() && after[q] == id;
        assert(keep(after[q]));
    }
    let next = run_resolved(run, id, reason);
    assert(next.changeset.unresolved_blocker_ids == after);
}

proof fn lemma_finding_from(list: Seq<FindingModel>, id: Seq<char>, i: int, p: int)
    requires
        0 <= i <= p < list.len(),
        list[p].id == id,
        forall|k: int| i <= k < p ==> (#[trigger] list[k]).id != id,
    ensures
        crate::workflow::finding_from(list, id, i) == p,
    decreases p - i,
{
    if i < p {
        assert(list[i].id != id);
        lemma_finding_from(list, id, i + 1, p);
    }
}

/// Each kind of a finding is reported under a name of its own.
pub proof fn kinds_are_reported_by_name(name: Seq<char>)
    ensures
        kind_of(name) == Some(FindingKind::RequiredSource) <==> name == "required-source"@,
        kind_of(name) == Some(FindingKind::Canon) <==> name == "canon"@,
        kind_of(name) == Some(FindingKind::Timeline) <==> name == "timeline"@,
        kind_of(name) == Some(FindingKind::Causality) <==> name == "causality"@,
        kind_of(name) == Some(FindingKind::NearCopy) <==> name == "near-copy"@,
        kind_of(name) == Some(FindingKind::Character) <==> name == "character"@,
        kind_of(name) == Some(FindingKind::ReaderPull) <==> name == "reader-pull"@,
        kind_of(name) == Some(FindingKind::Style) <==> name == "style"@,
        kind_of(name) == Some(FindingKind::SourceAdherence) <==> name == "source-adherence"@,
        kind_of(name) == Some(FindingKind::StoryEdit) <==> name == "story-edit"@,
        kind_of(name) == Some(FindingKind::Other) <==> name == "other"@,
{
    reveal_strlit("required-source");
    reveal_strlit("canon");
    reveal_strlit("timeline");
    reveal_strlit("causality");
    reveal_strlit("near-copy");
    reveal_strlit("character");
    reveal_strlit("reader-pull");
    reveal_strlit("style");
    reveal_strlit("source-adherence");
    reveal_strlit("story-edit");
    reveal_strlit("other");
    assert("canon"@[0] == 'c' && "style"@[0] == 's' && "other"@[0] == 'o');
    assert("timeline"@.len() == 8 && "required-source"@.len() == 15 && "reader-pull"@.len() == 11
        && "source-adherence"@.len() == 16 && "story-edit"@.len() == 10 && "canon"@.len() == 5);
    assert("causality"@.len() == 9 && "near-copy"@.len() == 9 && "character"@.len() == 9
        && "style"@.len() == 5 && "other"@.len() == 5);
    assert("causality"@[0] == 'c' && "near-copy"@[0] == 'n' && "character"@[0] == 'c'
        && "causality"@[1] == 'a' && "character"@[1] == 'h');
}

proof fn lemma_open_blocker(m: RunModel, i: int, k: int)
    requires
        0 <= k < i <= m.findings.len(),
        kind_blocks(m.findings[k].1.kind),
        m.findings[k].1.resolved is None,
    ensures
        open_blockers(m.findings, i).contains(m.findings[k].1.id),
    decreases i,
{
    let before = open_blockers(m.findings, i - 1);
    let after = open_blockers(m.findings, i);
    if k < i - 1 {
        lemma_open_blocker(m, i - 1, k);
        let p = choose|p: int| 0 <= p < before.len() && before[p] == m.findings[k].1.id;
        assert(after[p] == m.findings[k].1.id);
    } else {
        assert(after.last() == m.findings[k].1.id);
    }
}

/// A checkpoint names every open finding of the five kinds.
pub proof fn checkpoint_names_every_open_blocker(m: RunModel, k: int)
    requires
        0 <= k < m.findings.len(),
        m.findings[k].1.resolved is None,
        m.findings[k].1.kind == FindingKind::RequiredSource || m.findings[k].1.kind
            == FindingKind::Canon || m.findings[k].1.kind == FindingKind::Timeline
            || m.findings[k].1.kind == FindingKind::Causality || m.findings[k].1.kind
            == FindingKind::NearCopy,
    ensures
        open_blockers(m.findings, m.findings.len() as int).contains(m.findings[k].1.id),
{
    lemma_open_blocker(m, m.findings.len() as int, k);
}

} // verus!
