//! What becomes of the answers of the agents of a chapter.
use vstd::prelude::*;
use crate::candidate::PreparedChange;
use crate::changeset::{dependency_models, ChangesetDependency};
use crate::findings::{any_blocks, finding_blocks, findings_of, AgentRole, FindingKind, FindingModel};
use crate::hash::digest_text;
use crate::laws::pipeline::critics_are_shown_the_candidate;
use crate::model::{ModelFailureClass, ModelResponse, ModelResult};
use crate::records::ChapterModel;
use crate::table::{lookup, Entries};
use crate::text::{has_part, utf8};
use crate::workflow::{received_by, RunModel};
use crate::workflow::chapter::{asked_prompt, context_models, context_roles, earlier_canon, next_batch, next_work, opt_prepared, reviews_read, Phase, RoleContext, WorkEvent, WorkModel};

verus! {

/// Whether a finding is open, on the text with a digest, and of a kind that blocks.
pub open spec fn is_open_blocker(finding: FindingModel, hash: Seq<char>) -> bool {
    &&& finding.resolved is None
    &&& finding.candidate_hash == hash
    &&& finding.kind == FindingKind::RequiredSource || finding.kind == FindingKind::Canon
        || finding.kind == FindingKind::Timeline || finding.kind == FindingKind::Causality
        || finding.kind == FindingKind::NearCopy
}

/// What the architect answers is the plan. The writer is then told the corrections that the chapter
/// receives and the prose of earlier chapters.
pub proof fn architect_makes_the_plan(
    m: RunModel,
    w: WorkModel,
    list: Vec<ModelResult<ModelResponse>>,
    response: ModelResponse,
)
    requires
        w.phase == Phase::Planning,
        list@.len() == 1,
        list@[0] == ModelResult::<ModelResponse>::Ok(response),
    ensures
        ({
            let next = next_work(m, w, WorkEvent::Replies(list));
            &&& next is Ok
            &&& next->Ok_0.plan == response.text@
            &&& next->Ok_0.phase == Phase::WriterContext
            &&& context_roles(next->Ok_0) == seq![AgentRole::Writer]
            &&& next->Ok_0.corrections == received_by(m, w.chapter_id)
            &&& next->Ok_0.trace.roles == w.trace.roles.push(AgentRole::Writer)
        }),
{
}

/// What the writer answers is the candidate.
pub proof fn writer_makes_the_candidate(
    m: RunModel,
    w: WorkModel,
    list: Vec<ModelResult<ModelResponse>>,
    response: ModelResponse,
)
    requires
        w.phase == Phase::Writing,
        list@.len() == 1,
        list@[0] == ModelResult::<ModelResponse>::Ok(response),
    ensures
        ({
            let next = next_work(m, w, WorkEvent::Replies(list));
            &&& next is Ok
            &&& next->Ok_0.candidate_text == response.text@
            &&& next->Ok_0.phase == Phase::Preparing
            &&& next->Ok_0.plan == w.plan && next->Ok_0.corrections == w.corrections
        }),
{
}

/// A reviser that answers with a text replaces the candidate by it, and no finding on the earlier
/// text is left. One that answers with nothing leaves the candidate and its findings.
pub proof fn reviser_replaces_the_candidate(
    m: RunModel,
    w: WorkModel,
    list: Vec<ModelResult<ModelResponse>>,
    response: ModelResponse,
)
    requires
        w.phase == Phase::Revising,
        list@.len() == 1,
        list@[0] == ModelResult::<ModelResponse>::Ok(response),
    ensures
        ({
            let next = next_work(m, w, WorkEvent::Replies(list));
            &&& next is Ok
            &&& response.text@.len() > 0 ==> next->Ok_0.candidate_text == response.text@
                && next->Ok_0.findings.len() == 0 && next->Ok_0.phase == Phase::Updating
                && next->Ok_0.failing == w.failing
            &&& response.text@.len() == 0 ==> next->Ok_0.candidate_text == w.candidate_text
                && next->Ok_0.findings == w.findings && (next->Ok_0.phase == Phase::Checked
                || next->Ok_0.phase == Phase::ReviserContext)
        }),
{
}

proof fn lemma_reviews_keep(
    w: WorkModel,
    strict: bool,
    replies: Seq<ModelResult<ModelResponse>>,
    i: int,
)
    requires
        0 <= i <= replies.len(),
        reviews_read(w, strict, replies, i) is Ok,
    ensures
        ({
            let next = reviews_read(w, strict, replies, i)->Ok_0;
            &&& next == WorkModel { findings: next.findings, failing: next.failing, ..w }
            &&& w.findings.len() <= next.findings.len()
            &&& next.findings.take(w.findings.len() as int) == w.findings
            &&& w.failing.len() <= next.failing.len()
            &&& next.failing.take(w.failing.len() as int) == w.failing
        }),
    decreases replies.len() - i,
{
    let next = reviews_read(w, strict, replies, i)->Ok_0;
    if i >= replies.len() {
        assert(w.findings.take(w.findings.len() as int) =~= w.findings);
        assert(w.failing.take(w.failing.len() as int) =~= w.failing);
    } else {
        match replies[i] {
            Err(failure) => {
                lemma_reviews_keep(w, strict, replies, i + 1);
            },
            Ok(response) => {
                let list = findings_of(
                    response.text@,
                    w.batch[i],
                    w.candidate_hash,
                    w.candidate_text,
                )->Ok_0;
                let v = read_one(w, list, i);
                lemma_reviews_keep(v, strict, replies, i + 1);
                assert(next.findings.take(w.findings.len() as int) =~= w.findings) by {
                    assert forall|k: int| 0 <= k < w.findings.len() implies next.findings[k]
                        == w.findings[k] by {
                        assert(next.findings.take(v.findings.len() as int)[k] == v.findings[k]);
                    }
                }
                assert(next.failing.take(w.failing.len() as int) =~= w.failing) by {
                    assert forall|k: int| 0 <= k < w.failing.len() implies next.failing[k]
                        == w.failing[k] by {
                        assert(next.failing.take(v.failing.len() as int)[k] == v.failing[k]);
                    }
                }
            },
        }
    }
}

spec fn read_one(w: WorkModel, list: Seq<FindingModel>, i: int) -> WorkModel {
    WorkModel {
        findings: w.findings + list,
        failing: if any_blocks(list, w.candidate_hash) {
            w.failing.push(w.batch[i])
        } else {
            w.failing
        },
        ..w
    }
}

proof fn lemma_reviews_found(
    w: WorkModel,
    strict: bool,
    replies: Seq<ModelResult<ModelResponse>>,
    i: int,
    k: int,
    response: ModelResponse,
)
    requires
        0 <= i <= k < replies.len(),
        replies[k] == ModelResult::<ModelResponse>::Ok(response),
        reviews_read(w, strict, replies, i) is Ok,
    ensures
        ({
            let next = reviews_read(w, strict, replies, i)->Ok_0;
            let list = findings_of(
                response.text@,
                w.batch[k],
                w.candidate_hash,
                w.candidate_text,
            );
            &&& list is Ok
            &&& forall|f: FindingModel| #[trigger]
                list->Ok_0.contains(f) ==> next.findings.contains(f)
            &&& any_blocks(list->Ok_0, w.candidate_hash) ==> next.failing.contains(w.batch[k])
        }),
    decreases k - i,
{
    let next = reviews_read(w, strict, replies, i)->Ok_0;
    if i < k {
        match replies[i] {
            Err(failure) => {
                lemma_reviews_found(w, strict, replies, i + 1, k, response);
            },
            Ok(other) => {
                let list = findings_of(
                    other.text@,
                    w.batch[i],
                    w.candidate_hash,
                    w.candidate_text,
                )->Ok_0;
                lemma_reviews_found(read_one(w, list, i), strict, replies, i + 1, k, response);
            },
        }
    } else {
        let list = findings_of(
            response.text@,
            w.batch[k],
            w.candidate_hash,
            w.candidate_text,
        )->Ok_0;
        let v = read_one(w, list, i);
        lemma_reviews_keep(v, strict, replies, i + 1);
        assert forall|f: FindingModel| #[trigger] list.contains(f) implies next.findings.contains(
            f,
        ) by {
            let p = choose|p: int| 0 <= p < list.len() && list[p] == f;
            assert(v.findings[w.findings.len() + p] == f);
            assert(next.findings.take(v.findings.len() as int)[w.findings.len() + p] == f);
            assert(next.findings[w.findings.len() + p] == f);
        }
        if any_blocks(list, w.candidate_hash) {
            let q = w.failing.len() as int;
            assert(v.failing[q] == w.batch[k]);
            assert(next.failing.take(v.failing.len() as int)[q] == w.batch[k]);
            assert(next.failing[q] == w.batch[k]);
        }
    }
}

/// Every finding that a critic reports is kept, beside all that were kept before, and a critic with
/// an open finding of the five kinds that block is noted as one that failed.
pub proof fn reported_findings_are_kept(
    m: RunModel,
    w: WorkModel,
    list: Vec<ModelResult<ModelResponse>>,
    i: int,
    response: ModelResponse,
)
    requires
        w.phase == Phase::Reviewing,
        0 <= i < list@.len(),
        list@[i] == ModelResult::<ModelResponse>::Ok(response),
        next_work(m, w, WorkEvent::Replies(list)) is Ok,
    ensures
        ({
            let next = next_work(m, w, WorkEvent::Replies(list))->Ok_0;
            let found = findings_of(
                response.text@,
                w.batch[i],
                w.candidate_hash,
                w.candidate_text,
            );
            &&& found is Ok
            &&& forall|f: FindingModel| #[trigger]
                found->Ok_0.contains(f) ==> next.findings.contains(f)
            &&& next.findings.take(w.findings.len() as int) == w.findings
            &&& next.candidate_text == w.candidate_text
            &&& next.candidate_hash == w.candidate_hash
            &&& (exists|k: int|
                0 <= k < found->Ok_0.len() && is_open_blocker(
                    #[trigger] found->Ok_0[k],
                    w.candidate_hash,
                )) ==> next.failing.contains(w.batch[i])
        }),
{
    lemma_reviews_found(w, m.strict_backend_errors, list@, 0, i, response);
    lemma_reviews_keep(w, m.strict_backend_errors, list@, 0);
    let found = findings_of(response.text@, w.batch[i], w.candidate_hash, w.candidate_text)->Ok_0;
    if exists|k: int| 0 <= k < found.len() && is_open_blocker(#[trigger] found[k], w.candidate_hash) {
        let k = choose|k: int|
            0 <= k < found.len() && is_open_blocker(#[trigger] found[k], w.candidate_hash);
        assert(finding_blocks(found[k], w.candidate_hash));
    }
}

/// A critic that reports what cannot be read stops the work.
pub proof fn unreadable_report_stops_the_work(
    m: RunModel,
    w: WorkModel,
    list: Vec<ModelResult<ModelResponse>>,
    i: int,
    response: ModelResponse,
)
    requires
        w.phase == Phase::Reviewing,
        0 <= i < list@.len(),
        list@[i] == ModelResult::<ModelResponse>::Ok(response),
        findings_of(response.text@, w.batch[i], w.candidate_hash, w.candidate_text) is Err,
    ensures
        next_work(m, w, WorkEvent::Replies(list)) is Err,
{
    if next_work(m, w, WorkEvent::Replies(list)) is Ok {
        lemma_reviews_found(w, m.strict_backend_errors, list@, 0, i, response);
    }
}

/// Once the last critics have answered, a chapter goes to the reviser where a revision is left and
/// an open finding of the five kinds stands against its text, and is checked otherwise.
pub proof fn reviser_comes_where_a_blocker_is_open(w: WorkModel)
    requires
        w.remaining.len() == 0,
    ensures
        next_batch(w).phase == Phase::ReviserContext || next_batch(w).phase == Phase::Checked,
        next_batch(w).phase == Phase::ReviserContext <==> w.revisions_left > 0 && exists|i: int|
            0 <= i < w.findings.len() && is_open_blocker(#[trigger] w.findings[i], w.candidate_hash),
        next_batch(w).phase == Phase::ReviserContext ==> next_batch(w).revisions_left
            == w.revisions_left - 1 && context_roles(next_batch(w)) == seq![AgentRole::Reviser],
        next_batch(w).findings == w.findings,
        next_batch(w).candidate_text == w.candidate_text,
{
    if any_blocks(w.findings, w.candidate_hash) {
        let i = choose|i: int|
            0 <= i < w.findings.len() && finding_blocks(#[trigger] w.findings[i], w.candidate_hash);
        assert(is_open_blocker(w.findings[i], w.candidate_hash));
    }
    if exists|i: int|
        0 <= i < w.findings.len() && is_open_blocker(#[trigger] w.findings[i], w.candidate_hash) {
        let i = choose|i: int|
            0 <= i < w.findings.len() && is_open_blocker(#[trigger] w.findings[i], w.candidate_hash);
        assert(finding_blocks(w.findings[i], w.candidate_hash));
    }
}

/// Critics work three at a time, in their order, and none is left out.
pub proof fn critics_work_in_threes(w: WorkModel)
    requires
        w.remaining.len() > 0,
    ensures
        next_batch(w).phase == Phase::CriticContexts,
        next_batch(w).batch + next_batch(w).remaining == w.remaining,
        0 < next_batch(w).batch.len() <= 3,
        w.remaining.len() >= 3 ==> next_batch(w).batch.len() == 3,
        w.remaining.len() < 3 ==> next_batch(w).remaining.len() == 0,
        context_roles(next_batch(w)) == next_batch(w).batch,
        next_batch(w).candidate_text == w.candidate_text,
        next_batch(w).findings == w.findings,
{
    let n = if w.remaining.len() < 3 {
        w.remaining.len() as int
    } else {
        3
    };
    assert(w.remaining.take(n) + w.remaining.skip(n) =~= w.remaining);
}

/// A draft is reviewed by all six critics, and its digest is the one that its change was made with,
/// or that of its text.
pub proof fn draft_is_reviewed_by_all_critics(
    m: RunModel,
    w: WorkModel,
    dependencies: Vec<ChangesetDependency>,
    prepared: Option<PreparedChange>,
)
    requires
        w.phase == Phase::Preparing,
    ensures
        ({
            let next = next_work(m, w, WorkEvent::Prepared(dependencies, prepared));
            &&& next is Ok
            &&& next->Ok_0.phase == Phase::CriticContexts
            &&& next->Ok_0.batch + next->Ok_0.remaining == seq![
                AgentRole::CharacterVoiceCritic,
                AgentRole::CanonCritic,
                AgentRole::ReaderPullCritic,
                AgentRole::StoryEditorCritic,
                AgentRole::NaturalnessStyleCritic,
                AgentRole::SourceAdherenceCritic,
            ]
            &&& next->Ok_0.candidate_text == w.candidate_text
            &&& next->Ok_0.dependencies == dependency_models(dependencies@)
            &&& next->Ok_0.prepared == opt_prepared(prepared)
            &&& prepared is None ==> next->Ok_0.candidate_hash == digest_text(
                utf8(w.candidate_text),
            )
            &&& prepared matches Some(change) ==> next->Ok_0.candidate_hash
                == change@.candidate_hash
        }),
{
    let next = next_work(m, w, WorkEvent::Prepared(dependencies, prepared))->Ok_0;
    assert(next.batch + next.remaining =~= crate::findings::critics());
}

/// Each agent gets the context that was compiled for it, in the order in which the agents stand.
pub proof fn each_agent_gets_its_context(m: RunModel, w: WorkModel, list: Vec<RoleContext>, i: int)
    requires
        w.phase == Phase::WriterContext || w.phase == Phase::CriticContexts || w.phase
            == Phase::ReviserContext,
        list@.len() == context_roles(w).len(),
        0 <= i < list@.len(),
    ensures
        ({
            let next = next_work(m, w, WorkEvent::Contexts(Ok(list)));
            &&& next is Ok
            &&& w.phase == Phase::WriterContext ==> next->Ok_0.phase == Phase::Writing
                && next->Ok_0.context == list@[i].text@
            &&& w.phase == Phase::CriticContexts ==> next->Ok_0.phase == Phase::Reviewing
                && next->Ok_0.contexts.len() == w.batch.len() && next->Ok_0.contexts[i]
                == list@[i].text@ && next->Ok_0.batch == w.batch
            &&& w.phase == Phase::ReviserContext ==> next->Ok_0.phase == Phase::Revising
                && next->Ok_0.contexts == seq![list@[i].text@]
            &&& next->Ok_0.candidate_text == w.candidate_text
            &&& next->Ok_0.findings == w.findings
            &&& next->Ok_0.plan == w.plan
            &&& next->Ok_0.rerun == w.rerun
        }),
{
    assert(context_models(list@)[i] == list@[i]@);
}

/// The text that a reviser returned is the one that every critic of the next review is shown, and
/// those are the critics that failed.
pub proof fn revised_text_is_reviewed(
    m: RunModel,
    w: WorkModel,
    replies: Vec<ModelResult<ModelResponse>>,
    response: ModelResponse,
    prepared: (Vec<ChangesetDependency>, Option<PreparedChange>),
    list: Vec<RoleContext>,
    i: int,
)
    requires
        w.phase == Phase::Revising,
        w.failing.len() > 0,
        replies@.len() == 1,
        replies@[0] == ModelResult::<ModelResponse>::Ok(response),
        response.text@.len() > 0,
        0 <= i < list@.len(),
        list@.len() == (if w.failing.len() < 3 { w.failing.len() } else { 3 }),
    ensures
        ({
            let revised = next_work(m, w, WorkEvent::Replies(replies))->Ok_0;
            let updated = next_work(m, revised, WorkEvent::Prepared(prepared.0, prepared.1))->Ok_0;
            let next = next_work(m, updated, WorkEvent::Contexts(Ok(list)))->Ok_0;
            &&& next.phase == Phase::Reviewing
            &&& next.candidate_text == response.text@
            &&& next.batch + next.remaining == w.failing
            &&& next.findings.len() == 0
            &&& prepared.1 is None ==> next.candidate_hash == digest_text(utf8(response.text@))
            &&& prepared.1 matches Some(change) ==> next.candidate_hash == change@.candidate_hash
            &&& has_part(
                asked_prompt(next, i),
                "Candidate:\n"@ + response.text@ + "\n\nRole-specific source context:\n"@
                    + list@[i].text@ + "\n\nRole-specific context receipt:\n"@,
            )
        }),
{
    let revised = next_work(m, w, WorkEvent::Replies(replies))->Ok_0;
    let updated = next_work(m, revised, WorkEvent::Prepared(prepared.0, prepared.1))->Ok_0;
    let next = next_work(m, updated, WorkEvent::Contexts(Ok(list)))->Ok_0;
    assert(updated.batch + updated.remaining =~= w.failing);
    assert(context_models(list@)[i] == list@[i]@);
    critics_are_shown_the_candidate(next, i);
}

/// The text that the writer returned is the one that every critic of the first review is shown.
pub proof fn draft_is_reviewed(
    m: RunModel,
    w: WorkModel,
    replies: Vec<ModelResult<ModelResponse>>,
    response: ModelResponse,
    prepared: (Vec<ChangesetDependency>, Option<PreparedChange>),
    list: Vec<RoleContext>,
    i: int,
)
    requires
        w.phase == Phase::Writing,
        !w.rerun,
        replies@.len() == 1,
        replies@[0] == ModelResult::<ModelResponse>::Ok(response),
        0 <= i < list@.len(),
        list@.len() == 3,
    ensures
        ({
            let written = next_work(m, w, WorkEvent::Replies(replies))->Ok_0;
            let updated = next_work(m, written, WorkEvent::Prepared(prepared.0, prepared.1))->Ok_0;
            let next = next_work(m, updated, WorkEvent::Contexts(Ok(list)))->Ok_0;
            &&& next.phase == Phase::Reviewing
            &&& next.candidate_text == response.text@
            &&& has_part(
                asked_prompt(next, i),
                "Immutable candidate:\n"@ + response.text@
                    + "\n\nRole-specific compiled source context:\n"@ + list@[i].text@
                    + "\n\nRole-specific context receipt:\n"@,
            )
        }),
{
    let written = next_work(m, w, WorkEvent::Replies(replies))->Ok_0;
    let updated = next_work(m, written, WorkEvent::Prepared(prepared.0, prepared.1))->Ok_0;
    let next = next_work(m, updated, WorkEvent::Contexts(Ok(list)))->Ok_0;
    assert(context_models(list@)[i] == list@[i]@);
    critics_are_shown_the_candidate(next, i);
}

/// A failed request stops the work, unless failures are tolerated and the request was stopped.
pub proof fn failed_request_stops_the_work(
    m: RunModel,
    w: WorkModel,
    list: Vec<ModelResult<ModelResponse>>,
)
    requires
        w.phase == Phase::Planning || w.phase == Phase::Writing || w.phase == Phase::Revising,
        list@.len() == 1,
        list@[0] is Err,
    ensures
        m.strict_backend_errors ==> next_work(m, w, WorkEvent::Replies(list)) is Err,
        list@[0]->Err_0@.0 != ModelFailureClass::Stopped ==> next_work(
            m,
            w,
            WorkEvent::Replies(list),
        ) is Err,
        !m.strict_backend_errors && list@[0]->Err_0@.0 == ModelFailureClass::Stopped ==> (
        next_work(m, w, WorkEvent::Replies(list)) matches Ok(next) && next.findings == w.findings
            && (w.phase == Phase::Revising ==> next.candidate_text == w.candidate_text
            && next.phase == Phase::Checked)),
{
}

/// The prose that a chapter is told of is that of every chapter of the run that comes before it and
/// has some, and of no other.
pub proof fn earlier_chapters_are_told(
    chapters: Entries<ChapterModel>,
    canon: Entries<Seq<char>>,
    order: u32,
    n: int,
    item: (Seq<char>, Seq<char>),
)
    requires
        0 <= n <= chapters.len(),
    ensures
        earlier_canon(chapters, canon, order, n).contains(item) <==> exists|k: int|
            0 <= k < n && (#[trigger] chapters[k]).1.order < order && chapters[k].1.id == item.0
                && lookup(canon, item.0) == Some(item.1),
    decreases n,
{
    let list = earlier_canon(chapters, canon, order, n);
    if n > 0 {
        earlier_chapters_are_told(chapters, canon, order, n - 1, item);
        let before = earlier_canon(chapters, canon, order, n - 1);
        let chapter = chapters[n - 1].1;
        if before.contains(item) {
            let p = choose|p: int| 0 <= p < before.len() && before[p] == item;
            assert(list[p] == item);
        }
        if chapter.order < order && chapter.id == item.0 && lookup(canon, item.0) == Some(item.1) {
            assert(list.last() == item);
        }
        if list.contains(item) && !before.contains(item) {
            let p = choose|p: int| 0 <= p < list.len() && list[p] == item;
            assert(p == list.len() - 1) by {
                if p < before.len() {
                    assert(before[p] == item);
                }
            }
            assert(chapters[n - 1].1.order < order);
        }
    }
}

} // verus!
