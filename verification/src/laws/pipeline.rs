//! What the agents of a chapter are asked, and what becomes of their answers.
use vstd::prelude::*;
use crate::findings::{kind_label, AgentRole, FindingModel};
use crate::records::Received;
use crate::text::{decimal, has_part, has_prefix, join};
use crate::workflow::RunModel;
use crate::workflow::chapter::{asked_prompt, asked_requests, asked_roles, directives_text, finding_text, hashes_text, prose_text, role_receipt_text, Phase, WorkModel};

verus! {

/// A text that is put between two others lies in what comes out.
pub(crate) proof fn lemma_found(before: Seq<char>, part: Seq<char>, after: Seq<char>)
    ensures
        has_part(before + part + after, part),
{
    let whole = before + part + after;
    let i: int = before.len() as int;
    assert(whole.subrange(i, i + part.len()) =~= part);
}

/// A part of a part is a part.
pub(crate) proof fn lemma_part_of_part(whole: Seq<char>, part: Seq<char>, small: Seq<char>)
    requires
        has_part(whole, part),
        has_part(part, small),
    ensures
        has_part(whole, small),
{
    let i = choose|i: int|
        0 <= i && i + part.len() <= whole.len() && #[trigger] whole.subrange(i, i + part.len())
            == part;
    let j = choose|j: int|
        0 <= j && j + small.len() <= part.len() && #[trigger] part.subrange(j, j + small.len())
            == small;
    assert(whole.subrange(i + j, i + j + small.len()) =~= small);
}

/// Each of the texts that were joined lies in what comes out.
pub(crate) proof fn lemma_joined(parts: Seq<Seq<char>>, separator: Seq<char>, k: int)
    requires
        0 <= k < parts.len(),
    ensures
        has_part(join(parts, separator), parts[k]),
    decreases parts.len(),
{
    let whole = join(parts, separator);
    if parts.len() == 1 {
        let i: int = 0;
        assert(whole.subrange(i, i + parts[k].len()) =~= parts[k]);
    } else if k == parts.len() - 1 {
        let head = join(parts.drop_last(), separator) + separator;
        lemma_found(head, parts[k], Seq::empty());
        assert(head + parts[k] + Seq::<char>::empty() =~= whole);
    } else {
        let head = join(parts.drop_last(), separator);
        lemma_joined(parts.drop_last(), separator, k);
        lemma_found(Seq::empty(), head, separator + parts.last());
        assert(Seq::<char>::empty() + head + (separator + parts.last()) =~= whole);
        lemma_part_of_part(whole, head, parts[k]);
    }
}

/// In every review, the first one and any later one, each critic is shown the text that is the
/// candidate then, right behind the heading that announces it, and behind it the context that was
/// compiled for that critic.
pub proof fn critics_are_shown_the_candidate(w: WorkModel, i: int)
    requires
        w.phase == Phase::Reviewing,
        0 <= i < w.batch.len(),
    ensures
        !w.rerun ==> has_part(
            asked_prompt(w, i),
            "Immutable candidate:\n"@ + w.candidate_text
                + "\n\nRole-specific compiled source context:\n"@ + w.contexts[i]
                + "\n\nRole-specific context receipt:\n"@,
        ),
        w.rerun ==> has_part(
            asked_prompt(w, i),
            "Candidate:\n"@ + w.candidate_text + "\n\nRole-specific source context:\n"@
                + w.contexts[i] + "\n\nRole-specific context receipt:\n"@,
        ),
        !w.rerun ==> has_prefix(asked_prompt(w, i), "Review candidate chapter "@ + w.chapter_id),
        w.rerun ==> has_prefix(
            asked_prompt(w, i),
            "Re-review this revised immutable candidate chapter "@ + w.chapter_id,
        ),
        has_part(
            asked_prompt(w, i),
            "receipt:\n"@ + role_receipt_text(w.role_receipts, w.batch[i]) + "\n\n"@,
        ),
{
    let context = w.contexts[i];
    let prompt = asked_prompt(w, i);
    let receipt = role_receipt_text(w.role_receipts, w.batch[i]);
    let tail = "\n\nRole-specific context receipt:\n"@;
    let tail0 = lemma_tail();
    if w.rerun {
        let head = "Re-review this revised immutable candidate chapter "@ + w.chapter_id;
        let lead =
            "; report only current typed evidence as FINDING|kind|artifact|start|end|message.\n\nCandidate:\n"@;
        let (lead0, close0) = lemma_later_review();
        let last = crate::records::receipts_text(w.corrections);
        lemma_shown(
            (head, lead0, "Candidate:\n"@, w.candidate_text),
            ("\n\nRole-specific source context:\n"@, context),
            (tail0, "receipt:\n"@, receipt),
            ("\n\n"@, close0, last),
        );
    } else {
        let head = "Review candidate chapter "@ + w.chapter_id;
        let (lead0, close0) = lemma_first_review();
        let last = crate::records::pairs_text(w.canon_hashes) + "; corrections="@
            + crate::records::receipts_text(w.corrections)
            + ". Report typed evidence as FINDING|kind|artifact|start|end|message."@;
        lemma_shown(
            (head, lead0, "Immutable candidate:\n"@, w.candidate_text),
            ("\n\nRole-specific compiled source context:\n"@, context),
            (tail0, "receipt:\n"@, receipt),
            ("\n\n"@, close0, last),
        );
        let lead = " without editing it.\n\nImmutable candidate:\n"@;
        let close = "\n\nImmutable context facts: provisional canon hashes="@;
        let front = head + lead + w.candidate_text
            + "\n\nRole-specific compiled source context:\n"@ + context + tail + receipt + close;
        lemma_regroup(
            front,
            crate::records::pairs_text(w.canon_hashes),
            "; corrections="@,
            crate::records::receipts_text(w.corrections),
            ". Report typed evidence as FINDING|kind|artifact|start|end|message."@,
        );
    }
}

proof fn lemma_regroup(a: Seq<char>, b: Seq<char>, c: Seq<char>, d: Seq<char>, e: Seq<char>)
    ensures
        a + b + c + d + e == a + (b + c + d + e),
{
    assert(a + b + c + d + e =~= a + (b + c + d + e));
}

proof fn lemma_tail() -> (front: Seq<char>)
    ensures
        "\n\nRole-specific context receipt:\n"@ == front + "receipt:\n"@,
{
    reveal_strlit("\n\nRole-specific context receipt:\n");
    reveal_strlit("receipt:\n");
    let tail = "\n\nRole-specific context receipt:\n"@;
    let front = tail.take(tail.len() - "receipt:\n"@.len());
    assert(tail =~= front + "receipt:\n"@);
    front
}

proof fn lemma_later_review() -> (r: (Seq<char>, Seq<char>))
    ensures
        "; report only current typed evidence as FINDING|kind|artifact|start|end|message.\n\nCandidate:\n"@
            == r.0 + "Candidate:\n"@,
        "\n\nCorrection directives:\n"@ == "\n\n"@ + r.1,
{
    reveal_strlit(
        "; report only current typed evidence as FINDING|kind|artifact|start|end|message.\n\nCandidate:\n",
    );
    reveal_strlit("Candidate:\n");
    reveal_strlit("\n\nCorrection directives:\n");
    reveal_strlit("\n\n");
    let lead =
        "; report only current typed evidence as FINDING|kind|artifact|start|end|message.\n\nCandidate:\n"@;
    let front = lead.take(lead.len() - "Candidate:\n"@.len());
    assert(lead =~= front + "Candidate:\n"@);
    let close = "\n\nCorrection directives:\n"@;
    assert(close =~= "\n\n"@ + close.skip(2));
    (front, close.skip(2))
}

proof fn lemma_first_review() -> (r: (Seq<char>, Seq<char>))
    ensures
        " without editing it.\n\nImmutable candidate:\n"@ == r.0 + "Immutable candidate:\n"@,
        "\n\nImmutable context facts: provisional canon hashes="@ == "\n\n"@ + r.1,
{
    reveal_strlit(" without editing it.\n\nImmutable candidate:\n");
    reveal_strlit("Immutable candidate:\n");
    reveal_strlit("\n\nImmutable context facts: provisional canon hashes=");
    reveal_strlit("\n\n");
    let lead = " without editing it.\n\nImmutable candidate:\n"@;
    let front = lead.take(lead.len() - "Immutable candidate:\n"@.len());
    assert(lead =~= front + "Immutable candidate:\n"@);
    let close = "\n\nImmutable context facts: provisional canon hashes="@;
    assert(close =~= "\n\n"@ + close.skip(2));
    (front, close.skip(2))
}

proof fn lemma_shown(
    a: (Seq<char>, Seq<char>, Seq<char>, Seq<char>),
    b: (Seq<char>, Seq<char>),
    c: (Seq<char>, Seq<char>, Seq<char>),
    d: (Seq<char>, Seq<char>, Seq<char>),
)
    ensures
        ({
            let whole = a.0 + (a.1 + a.2) + a.3 + b.0 + b.1 + (c.0 + c.1) + c.2 + (d.0 + d.1) + d.2;
            &&& has_part(whole, a.2 + a.3 + b.0 + b.1 + (c.0 + c.1))
            &&& has_part(whole, c.1 + c.2 + d.0)
            &&& has_prefix(whole, a.0)
        }),
{
    let y = a.0 + a.1;
    lemma_assoc(a.0, a.1, a.2);
    lemma_assoc(y, a.2, a.3);
    lemma_assoc(y, a.2 + a.3, b.0);
    lemma_assoc(y, a.2 + a.3 + b.0, b.1);
    lemma_assoc(y, a.2 + a.3 + b.0 + b.1, c.0 + c.1);
    let part = a.2 + a.3 + b.0 + b.1 + (c.0 + c.1);
    let x0 = a.0 + (a.1 + a.2) + a.3 + b.0 + b.1;
    let x1 = x0 + (c.0 + c.1);
    assert(x1 == y + part);
    lemma_behind(y, part);
    lemma_assoc(a.0, a.1, part);
    lemma_front(a.0, a.1 + part);
    lemma_assoc(x0, c.0, c.1);
    lemma_assoc(x0 + c.0, c.1, c.2);
    let seen = c.1 + c.2 + d.0;
    let x2 = x1 + c.2;
    assert(x2 == (x0 + c.0) + (c.1 + c.2));
    lemma_assoc(x2, d.0, d.1);
    lemma_assoc(x0 + c.0, c.1 + c.2, d.0);
    assert(x2 + d.0 == (x0 + c.0) + seen);
    lemma_behind(x0 + c.0, seen);
    lemma_more(x2 + d.0, seen, d.1);
    lemma_more(x2 + d.0 + d.1, seen, d.2);
    lemma_more(x1, part, c.2);
    lemma_more(x2, part, d.0 + d.1);
    lemma_more(x2 + (d.0 + d.1), part, d.2);
    lemma_longer(x1, a.0, c.2);
    lemma_longer(x2, a.0, d.0 + d.1);
    lemma_longer(x2 + (d.0 + d.1), a.0, d.2);
}

/// The writer is shown the plan of the architect, the context that was compiled for it, the prose
/// of every earlier chapter of the run, and every correction that the chapter receives.
pub proof fn writer_is_shown_plan_context_canon_and_corrections(w: WorkModel, k: int)
    requires
        w.phase == Phase::Writing,
    ensures
        has_prefix(asked_prompt(w, 0), "Write chapter "@ + w.chapter_id),
        has_part(
            asked_prompt(w, 0),
            "\n\nArchitect plan: "@ + w.plan
                + "\n\nCompiled source context (use only as evidence):\n"@ + w.context
                + "\n\nContext receipt: "@,
        ),
        0 <= k < w.canon_texts.len() ==> has_part(
            asked_prompt(w, 0),
            "--- "@ + w.canon_texts[k].0 + " ---\n"@ + w.canon_texts[k].1,
        ),
        0 <= k < w.canon_hashes.len() ==> has_part(
            asked_prompt(w, 0),
            w.canon_hashes[k].0 + "="@ + w.canon_hashes[k].1,
        ),
        0 <= k < w.corrections.len() ==> has_part(asked_prompt(w, 0), w.corrections[k].2),
{
    let prompt = asked_prompt(w, 0);
    let lead0 = lemma_plan_lead();
    let hashes = hashes_text(w.canon_hashes);
    let prose = prose_text(w.canon_texts);
    let directives = directives_text(w.corrections);
    lemma_written(
        ("Write chapter "@ + w.chapter_id, lead0, "\n\nArchitect plan: "@, w.plan),
        (
            "\n\nCompiled source context (use only as evidence):\n"@,
            w.context,
            "\n\nContext receipt: "@,
        ),
        (
            crate::workflow::chapter::receipt_text(w.receipt),
            "\n\nProvisional canon hashes: "@,
            hashes,
        ),
        (
            "\n\nProvisional canon candidate prose (run-local, not approved canon): "@,
            prose,
            "\n\nCorrections: "@,
            directives,
        ),
    );
    if 0 <= k < w.canon_texts.len() {
        let list = w.canon_texts.map_values(
            |item: (Seq<char>, Seq<char>)| "--- "@ + item.0 + " ---\n"@ + item.1,
        );
        lemma_joined(list, "\n"@, k);
        lemma_part_of_part(prompt, prose, list[k]);
    }
    if 0 <= k < w.canon_hashes.len() {
        let list = w.canon_hashes.map_values(
            |item: (Seq<char>, Seq<char>)| item.0 + "="@ + item.1,
        );
        lemma_joined(list, ","@, k);
        lemma_part_of_part(prompt, hashes, list[k]);
    }
    if 0 <= k < w.corrections.len() {
        let list = w.corrections.map_values(|item: Received| item.2);
        lemma_joined(list, "\n"@, k);
        lemma_part_of_part(prompt, directives, list[k]);
    }
}

proof fn lemma_plan_lead() -> (r: Seq<char>)
    ensures
        ". Approved scene and box plans are required.\n\nArchitect plan: "@ == r
            + "\n\nArchitect plan: "@,
{
    reveal_strlit(". Approved scene and box plans are required.\n\nArchitect plan: ");
    reveal_strlit("\n\nArchitect plan: ");
    let lead = ". Approved scene and box plans are required.\n\nArchitect plan: "@;
    let r = lead.take(lead.len() - "\n\nArchitect plan: "@.len());
    assert(lead =~= r + "\n\nArchitect plan: "@);
    r
}

proof fn lemma_assoc(a: Seq<char>, b: Seq<char>, c: Seq<char>)
    ensures
        a + b + c == a + (b + c),
{
    assert(a + b + c =~= a + (b + c));
}

proof fn lemma_front(a: Seq<char>, b: Seq<char>)
    ensures
        has_prefix(a + b, a),
{
    assert((a + b).take(a.len() as int) =~= a);
}

proof fn lemma_behind(a: Seq<char>, b: Seq<char>)
    ensures
        has_part(a + b, b),
{
    lemma_found(a, b, Seq::empty());
    assert(a + b + Seq::<char>::empty() =~= a + b);
}

proof fn lemma_more(a: Seq<char>, part: Seq<char>, b: Seq<char>)
    requires
        has_part(a, part),
    ensures
        has_part(a + b, part),
{
    lemma_found(Seq::empty(), a, b);
    assert(Seq::<char>::empty() + a + b =~= a + b);
    lemma_part_of_part(a + b, a, part);
}

proof fn lemma_longer(a: Seq<char>, front: Seq<char>, b: Seq<char>)
    requires
        has_prefix(a, front),
    ensures
        has_prefix(a + b, front),
{
    assert((a + b).take(front.len() as int) =~= a.take(front.len() as int));
}

proof fn lemma_rest(
    a: Seq<char>,
    part: Seq<char>,
    d: (Seq<char>, Seq<char>, Seq<char>, Seq<char>, Seq<char>),
)
    requires
        has_part(a, part),
    ensures
        has_part(a + d.0 + d.1 + d.2 + d.3 + d.4, part),
{
    lemma_more(a, part, d.0);
    lemma_more(a + d.0, part, d.1);
    lemma_more(a + d.0 + d.1, part, d.2);
    lemma_more(a + d.0 + d.1 + d.2, part, d.3);
    lemma_more(a + d.0 + d.1 + d.2 + d.3, part, d.4);
}

proof fn lemma_written(
    a: (Seq<char>, Seq<char>, Seq<char>, Seq<char>),
    b: (Seq<char>, Seq<char>, Seq<char>),
    c: (Seq<char>, Seq<char>, Seq<char>),
    d: (Seq<char>, Seq<char>, Seq<char>, Seq<char>),
)
    ensures
        ({
            let whole = a.0 + (a.1 + a.2) + a.3 + b.0 + b.1 + b.2 + c.0 + c.1 + c.2 + d.0 + d.1
                + d.2 + d.3;
            &&& has_prefix(whole, a.0)
            &&& has_part(whole, a.2 + a.3 + b.0 + b.1 + b.2)
            &&& has_part(whole, c.2)
            &&& has_part(whole, d.1)
            &&& has_part(whole, d.3)
        }),
{
    let y = a.0 + a.1;
    lemma_assoc(a.0, a.1, a.2);
    lemma_assoc(y, a.2, a.3);
    lemma_assoc(y, a.2 + a.3, b.0);
    lemma_assoc(y, a.2 + a.3 + b.0, b.1);
    lemma_assoc(y, a.2 + a.3 + b.0 + b.1, b.2);
    let part = a.2 + a.3 + b.0 + b.1 + b.2;
    let x1 = a.0 + (a.1 + a.2) + a.3 + b.0 + b.1 + b.2;
    assert(x1 == y + part);
    lemma_behind(y, part);
    lemma_assoc(a.0, a.1, part);
    lemma_front(a.0, a.1 + part);
    let x2 = x1 + c.0 + c.1;
    lemma_more(x1, part, c.0);
    lemma_more(x1 + c.0, part, c.1);
    lemma_longer(x1, a.0, c.0);
    lemma_longer(x1 + c.0, a.0, c.1);
    let x3 = x2 + c.2;
    lemma_more(x2, part, c.2);
    lemma_longer(x2, a.0, c.2);
    lemma_behind(x2, c.2);
    let x4 = x3 + d.0;
    lemma_more(x3, part, d.0);
    lemma_more(x3, c.2, d.0);
    lemma_longer(x3, a.0, d.0);
    let x5 = x4 + d.1;
    lemma_more(x4, part, d.1);
    lemma_more(x4, c.2, d.1);
    lemma_longer(x4, a.0, d.1);
    lemma_behind(x4, d.1);
    let x6 = x5 + d.2;
    lemma_more(x5, part, d.2);
    lemma_more(x5, c.2, d.2);
    lemma_more(x5, d.1, d.2);
    lemma_longer(x5, a.0, d.2);
    lemma_more(x6, part, d.3);
    lemma_more(x6, c.2, d.3);
    lemma_more(x6, d.1, d.3);
    lemma_longer(x6, a.0, d.3);
    lemma_behind(x6, d.3);
}

/// The reviser is shown the candidate, the context that was compiled for it, and of every finding
/// its kind, where it lies and what it says.
pub proof fn reviser_is_shown_candidate_and_findings(w: WorkModel, k: int)
    requires
        w.phase == Phase::Revising,
    ensures
        has_part(
            asked_prompt(w, 0),
            "\n\nCandidate:\n"@ + w.candidate_text + "\n\nTyped findings:\n"@,
        ),
        has_part(
            asked_prompt(w, 0),
            "role-specific compiled source context:\n"@ + w.contexts[0]
                + "\n\nrole-specific context receipt:\n"@,
        ),
        0 <= k < w.findings.len() ==> has_part(
            asked_prompt(w, 0),
            "kind="@ + kind_label(w.findings[k].kind) + "; artifact="@ + w.findings[k].artifact
                + "; range="@ + decimal(w.findings[k].start as nat) + ".."@ + decimal(
                w.findings[k].end as nat,
            ) + "; message="@ + w.findings[k].message,
        ),
{
    let prompt = asked_prompt(w, 0);
    let lead0 = lemma_revision_lead();
    let list = w.findings.map_values(|finding: FindingModel| finding_text(finding));
    let shown = join(list, "\n"@);
    lemma_revised(
        (lead0, "\n\nCandidate:\n"@, w.candidate_text, "\n\nTyped findings:\n"@),
        (shown, "\n\nRequired facts and correction directives:\n"@),
        (
            "role-specific compiled source context:\n"@,
            w.contexts[0],
            "\n\nrole-specific context receipt:\n"@,
        ),
        (
            role_receipt_text(w.role_receipts, AgentRole::Reviser),
            "\n\nprovisional canon hashes="@,
            crate::records::pairs_text(w.canon_hashes),
            "; correction receipts="@,
            crate::records::receipts_text(w.corrections),
        ),
    );
    if 0 <= k < w.findings.len() {
        lemma_joined(list, "\n"@, k);
        lemma_part_of_part(prompt, shown, list[k]);
    }
}

proof fn lemma_revision_lead() -> (r: Seq<char>)
    ensures
        "Revise only this candidate prose and preserve every approved fact.\n\nCandidate:\n"@ == r
            + "\n\nCandidate:\n"@,
{
    reveal_strlit(
        "Revise only this candidate prose and preserve every approved fact.\n\nCandidate:\n",
    );
    reveal_strlit("\n\nCandidate:\n");
    let lead = "Revise only this candidate prose and preserve every approved fact.\n\nCandidate:\n"@;
    let r = lead.take(lead.len() - "\n\nCandidate:\n"@.len());
    assert(lead =~= r + "\n\nCandidate:\n"@);
    r
}

proof fn lemma_revised(
    a: (Seq<char>, Seq<char>, Seq<char>, Seq<char>),
    b: (Seq<char>, Seq<char>),
    c: (Seq<char>, Seq<char>, Seq<char>),
    d: (Seq<char>, Seq<char>, Seq<char>, Seq<char>, Seq<char>),
)
    ensures
        ({
            let whole = (a.0 + a.1) + a.2 + a.3 + b.0 + b.1 + c.0 + c.1 + c.2 + d.0 + d.1 + d.2
                + d.3 + d.4;
            &&& has_part(whole, a.1 + a.2 + a.3)
            &&& has_part(whole, b.0)
            &&& has_part(whole, c.0 + c.1 + c.2)
        }),
{
    lemma_assoc(a.0, a.1, a.2);
    lemma_assoc(a.0, a.1 + a.2, a.3);
    let part = a.1 + a.2 + a.3;
    let x1 = (a.0 + a.1) + a.2 + a.3;
    assert(x1 == a.0 + part);
    lemma_behind(a.0, part);
    let x2 = x1 + b.0;
    lemma_more(x1, part, b.0);
    lemma_behind(x1, b.0);
    let x3 = x2 + b.1;
    lemma_more(x2, part, b.1);
    lemma_more(x2, b.0, b.1);
    let context = c.0 + c.1 + c.2;
    lemma_assoc(x3, c.0, c.1);
    lemma_assoc(x3, c.0 + c.1, c.2);
    let x4 = x3 + c.0 + c.1 + c.2;
    assert(x4 == x3 + context);
    lemma_behind(x3, context);
    lemma_more(x3, part, context);
    lemma_more(x3, b.0, context);
    lemma_rest(x4, part, d);
    lemma_rest(x4, b.0, d);
    lemma_rest(x4, context, d);
}

/// The architect is asked for a plan of the chapter by its name.
pub proof fn architect_is_asked_for_the_chapter(w: WorkModel)
    requires
        w.phase == Phase::Planning,
    ensures
        has_prefix(asked_prompt(w, 0), "Plan chapter "@ + w.chapter_id + " "@),
{
    let head = "Plan chapter "@ + w.chapter_id + " "@;
    let rest = " from the approved scene, box, and macro structure. Return a plan only."@;
    reveal_strlit(" from the approved scene, box, and macro structure. Return a plan only.");
    reveal_strlit(" ");
    assert(rest =~= " "@ + rest.skip(1));
    assert(asked_prompt(w, 0).take(head.len() as int) =~= head);
}

/// Each agent at work is asked once, by its own prompt, of the model that was chosen for its role.
pub proof fn each_agent_is_asked_of_its_own_model(m: RunModel, w: WorkModel, i: int)
    requires
        m.models.len() == 10,
        0 <= i < asked_requests(m, w).len(),
    ensures
        ({
            let request = asked_requests(m, w)[i];
            let role = asked_roles(w)[i];
            &&& asked_requests(m, w).len() == asked_roles(w).len()
            &&& request.messages == seq![("user"@, asked_prompt(w, i))]
            &&& request.tools.len() == 0
            &&& role == AgentRole::StoryArchitect ==> request.model == m.models[0] && request.role
                == "story-architect"@
            &&& role == AgentRole::Writer ==> request.model == m.models[1] && request.role
                == "writer"@
            &&& role == AgentRole::CharacterVoiceCritic ==> request.model == m.models[2]
                && request.role == "character-voice-critic"@
            &&& role == AgentRole::CanonCritic ==> request.model == m.models[3] && request.role
                == "canon-critic"@
            &&& role == AgentRole::ReaderPullCritic ==> request.model == m.models[4]
                && request.role == "reader-pull-critic"@
            &&& role == AgentRole::StoryEditorCritic ==> request.model == m.models[5]
                && request.role == "story-editor-critic"@
            &&& role == AgentRole::NaturalnessStyleCritic ==> request.model == m.models[6]
                && request.role == "naturalness-style-critic"@
            &&& role == AgentRole::SourceAdherenceCritic ==> request.model == m.models[7]
                && request.role == "source-adherence-critic"@
            &&& role == AgentRole::Reviser ==> request.model == m.models[8] && request.role
                == "reviser"@
            &&& w.phase == Phase::Planning ==> role == AgentRole::StoryArchitect
            &&& w.phase == Phase::Writing ==> role == AgentRole::Writer
            &&& w.phase == Phase::Reviewing ==> role == w.batch[i]
            &&& w.phase == Phase::Revising ==> role == AgentRole::Reviser
        }),
{
}

} // verus!
