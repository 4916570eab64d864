//! What a draft makes of the files of a project.
use vstd::prelude::*;
use crate::candidate::{artifact_operation, artifacts, candidate_file, chapter_dependencies, fence_at, fence_from, first_dependency, manuscripts, previous_approval, revised_operation, with_body, with_candidate, ArtifactModel, ChangeIds, DraftText};
use crate::candidate::{hashed, revised_files};
use crate::changeset::{DependencyModel, OperationKind, OperationModel};
use crate::changeset::{change_material, material_digest, record_bytes, ChangeModel, Refusal};
use crate::hash::digest_text;
use crate::paths::{content_of, FileModel};
use crate::paths::{files, removed, written};
use crate::text::{has_prefix, utf8};
use crate::validation::ApprovalFile;
use crate::validation::{candidate_digest, candidate_files, candidate_verdict, content_digest, placed, projected, result_digest, ProjectSnapshot};

verus! {

/// A text that is added to a document leaves every byte of the document where it was and stands at
/// its end, behind a line that marks it.
pub proof fn added_text_stands_at_the_end(base: Seq<u8>, text: Seq<char>)
    ensures
        base.len() <= with_candidate(base, text).len(),
        with_candidate(base, text).take(base.len() as int) == base,
        with_candidate(base, text).len() >= utf8(text).len(),
        with_candidate(base, text).skip(with_candidate(base, text).len() - utf8(text).len())
            == utf8(text),
{
    let whole = with_candidate(base, text);
    assert(whole.take(base.len() as int) =~= base);
    assert(whole.skip(whole.len() - utf8(text).len()) =~= utf8(text));
}

/// A text that takes the place of the body of a document leaves its front matter and nothing else.
pub proof fn new_body_keeps_the_front_matter(base: Seq<u8>, text: Seq<char>, end: int)
    requires
        fence_at(base, 0),
        fence_from(base, 4) == Some(end),
    ensures
        with_body(base, text) == base.take(end + 4) + utf8(text),
{
}

/// A document without front matter is replaced as a whole.
pub proof fn bare_document_is_replaced(base: Seq<u8>, text: Seq<char>)
    requires
        !fence_at(base, 0) || fence_from(base, 4) is None,
    ensures
        with_body(base, text) == utf8(text),
{
}

/// A draft writes the manuscript of its chapter: a new one is the text behind the identifier of the
/// chapter, and one that is there already keeps what it has, with the text at its end. The timeline
/// and the foreshadowing keep what they have and get the text at their end. The plan of the
/// architect and the context are noted.
pub proof fn draft_writes_its_chapter(
    draft: DraftText,
    names: ChangeIds,
    existing: Seq<FileModel>,
    timeline: Seq<u8>,
    foreshadowing: Seq<u8>,
)
    requires
        content_of(existing, "前提/時系列.md"@) == Some(timeline),
        content_of(existing, "前提/伏線.md"@) == Some(foreshadowing),
    ensures
        artifacts(draft, names, existing) matches Ok(list) && {
            let target = "本文/"@ + draft.chapter_id@ + ".md"@;
            &&& list.len() == 7
            &&& list[0].target == target && list[0].entity == names.chapter@
            &&& content_of(existing, target) is None ==> list[0].bytes == utf8(
                "---\nid: "@ + names.chapter@ + "\n---\n"@ + draft.writer_text@,
            )
            &&& content_of(existing, target) matches Some(bytes) ==> list[0].bytes == with_candidate(
                bytes,
                draft.writer_text@,
            )
            &&& list[1].target == "前提/時系列.md"@ && list[1].bytes == with_candidate(
                timeline,
                draft.writer_text@,
            ) && list[1].entity == names.timeline@
            &&& list[2].target == "前提/伏線.md"@ && list[2].bytes == with_candidate(
                foreshadowing,
                draft.writer_text@,
            ) && list[2].entity == names.foreshadowing@
            &&& list[3].target == "前提/キャラクター設定/"@ + names.character@ + ".md"@
                && list[3].entity == names.character@
            &&& list[4].target == "メモ/"@ + draft.chapter_id@ + "-"@ + "context.md"@
                && list[4].entity == names.context@
            &&& list[5].target == "メモ/"@ + draft.chapter_id@ + "-"@ + "critique.md"@
                && list[5].entity == names.critique@
            &&& list[6].target == "メモ/"@ + draft.chapter_id@ + "-"@ + "basis.md"@
                && list[6].entity == names.basis@ && list[6].bytes == utf8(
                "---\nid: "@ + names.basis@ + "\n---\n"@ + "# "@ + "generation basis"@ + "\n\n"@
                    + draft.architect_plan@ + "\n"@,
            )
        },
{
}

/// A project without a timeline or without foreshadowing takes no draft.
pub proof fn draft_needs_timeline_and_foreshadowing(
    draft: DraftText,
    names: ChangeIds,
    existing: Seq<FileModel>,
)
    requires
        content_of(existing, "前提/時系列.md"@) is None || content_of(existing, "前提/伏線.md"@)
            is None,
    ensures
        artifacts(draft, names, existing) is Err,
{
}

/// A file of a draft replaces the one that is there, whose digest it names, or is created where there
/// is none. What it writes is a file of the changeset with the bytes whose digest it names.
pub proof fn operation_follows_the_project(
    changeset_id: Seq<char>,
    artifact: ArtifactModel,
    existing: Seq<FileModel>,
)
    ensures
        ({
            let op = artifact_operation(changeset_id, artifact, existing);
            let file = candidate_file(changeset_id, artifact);
            &&& op.path == artifact.target
            &&& content_of(existing, artifact.target) is None ==> op.kind == OperationKind::Create
                && op.before_sha256 is None
            &&& content_of(existing, artifact.target) matches Some(bytes) ==> op.kind
                == OperationKind::Replace && op.before_sha256 == Some(digest_text(bytes))
            &&& op.after_sha256 == Some(digest_text(artifact.bytes))
            &&& op.candidate_path == Some(file.0)
            &&& file.1 == artifact.bytes
            &&& file.0 == ".phemius/runtime/candidates/"@ + changeset_id + "/"@ + artifact.name
            &&& op.affected_entities == seq![artifact.entity]
        }),
{
}

/// An operation whose candidate was revised announces the digest of the revised file; any other
/// stays as it is.
pub proof fn revised_candidate_is_announced(op: OperationModel, list: Seq<FileModel>)
    ensures
        op.candidate_path matches Some(path) ==> (content_of(list, path) matches Some(bytes)
            ==> revised_operation(op, list).after_sha256 == Some(digest_text(bytes))),
        op.candidate_path is None || content_of(list, op.candidate_path->Some_0) is None
            ==> revised_operation(op, list) == op,
        revised_operation(op, list).path == op.path,
        revised_operation(op, list).kind == op.kind,
        revised_operation(op, list).before_sha256 == op.before_sha256,
        revised_operation(op, list).candidate_path == op.candidate_path,
{
}

proof fn lemma_previous(
    list: Seq<ApprovalFile>,
    i: int,
    directory: Seq<char>,
    order: u32,
    found: Option<DependencyModel>,
)
    requires
        0 <= i <= list.len(),
        found matches Some(dependency) ==> dependency.2 + 1 == order,
    ensures
        previous_approval(list, i, directory, order, found) matches Ok(result) ==> (result matches Some(
            dependency,
        ) ==> dependency.2 + 1 == order) && (found is Some ==> result == found) && (result is None
            ==> found is None && forall|k: int|
            i <= k < list.len() && (#[trigger] list[k]).regular ==> list[k].record is Ok
                && list[k].record->Ok_0.chapter_order + 1 != order),
    decreases list.len() - i,
{
    if i < list.len() {
        if list[i].regular && list[i].record is Ok {
            let record = list[i].record->Ok_0;
            if record.chapter_order + 1 == order {
                if found is None {
                    lemma_previous(
                        list,
                        i + 1,
                        directory,
                        order,
                        Some(
                            (
                                record.changeset_id@,
                                digest_text(list[i].bytes@),
                                record.chapter_order,
                            ),
                        ),
                    );
                }
            } else {
                lemma_previous(list, i + 1, directory, order, found);
            }
        } else if !list[i].regular {
            lemma_previous(list, i + 1, directory, order, found);
        }
    }
}

/// A chapter depends on the approval of the chapter right before it and on no other; the first
/// chapter depends on none.
pub proof fn chapter_depends_on_the_one_before(
    list: Seq<ApprovalFile>,
    directory: Seq<char>,
    order: u32,
)
    ensures
        order <= 1 ==> chapter_dependencies(list, directory, order) == Ok::<
            Seq<DependencyModel>,
            Seq<char>,
        >(Seq::empty()),
        chapter_dependencies(list, directory, order) matches Ok(deps) ==> deps.len() <= 1 && (
        deps.len() == 1 ==> deps[0].2 + 1 == order && first_dependency(deps) == Some(deps[0].0)),
        chapter_dependencies(list, directory, order) matches Ok(deps) ==> (order > 1 && deps.len()
            == 0 ==> forall|k: int|
            0 <= k < list.len() && (#[trigger] list[k]).regular ==> list[k].record is Ok
                && list[k].record->Ok_0.chapter_order + 1 != order),
{
    lemma_previous(list, 0, directory, order, None);
}

proof fn lemma_same_candidates(
    snapshot: ProjectSnapshot,
    a: ChangeModel,
    b: ChangeModel,
    i: int,
    list: Seq<FileModel>,
)
    requires
        a.id == b.id,
        a.operations == b.operations,
        0 <= i <= a.operations.len(),
    ensures
        candidate_files(snapshot, a, i, list) == candidate_files(snapshot, b, i, list),
    decreases a.operations.len() - i,
{
    if i < a.operations.len() {
        match a.operations[i].candidate_path {
            None => {
                lemma_same_candidates(snapshot, a, b, i + 1, list);
            },
            Some(path) => {
                if let Ok(bytes) = candidate_verdict(snapshot, a.id, path) {
                    lemma_same_candidates(snapshot, a, b, i + 1, placed(list, (path, bytes)));
                }
            },
        }
    }
}

proof fn lemma_same_projection(
    snapshot: ProjectSnapshot,
    a: ChangeModel,
    b: ChangeModel,
    i: int,
    tree: Seq<FileModel>,
)
    requires
        a.id == b.id,
        a.operations == b.operations,
        0 <= i <= a.operations.len(),
    ensures
        projected(snapshot, a, i, tree) == projected(snapshot, b, i, tree),
    decreases a.operations.len() - i,
{
    if i < a.operations.len() {
        let op = a.operations[i];
        if op.kind == OperationKind::Delete {
            lemma_same_projection(snapshot, a, b, i + 1, removed(tree, op.path));
        } else if let Some(path) = op.candidate_path {
            if let Ok(bytes) = candidate_verdict(snapshot, a.id, path) {
                lemma_same_projection(snapshot, a, b, i + 1, written(tree, op.path, bytes));
            }
        }
    }
}

/// The digests of a change that was prepared are those of its candidates, of the project that it
/// makes, and of that project with the approval: a changeset with these digests is validated by what
/// it is.
pub proof fn prepared_digests_are_those_of_the_change(snapshot: ProjectSnapshot, change: ChangeModel)
    ensures
        hashed(snapshot, change) matches Ok(prepared) ==> {
            let first = ChangeModel {
                candidate_hash: prepared.candidate_hash,
                content_result_hash: prepared.content_result_hash,
                ..change
            };
            let done = ChangeModel {
                validation_hash: Some(material_digest(change_material(first))),
                result_root_hash: prepared.result_root_hash,
                ..first
            };
            &&& prepared.operations == change.operations
            &&& prepared.base_root_hash == change.base_root_hash
            &&& candidate_digest(snapshot, done) == Ok::<Seq<char>, Refusal>(
                prepared.candidate_hash,
            )
            &&& content_digest(snapshot, done) == Ok::<Seq<char>, Refusal>(
                prepared.content_result_hash,
            )
            &&& result_digest(snapshot, done) == Ok::<Seq<char>, Refusal>(
                prepared.result_root_hash,
            )
        },
{
    if let Ok(prepared) = hashed(snapshot, change) {
        let first = ChangeModel {
            candidate_hash: prepared.candidate_hash,
            content_result_hash: prepared.content_result_hash,
            ..change
        };
        let third = ChangeModel {
            validation_hash: Some(material_digest(change_material(first))),
            ..first
        };
        let done = ChangeModel { result_root_hash: prepared.result_root_hash, ..third };
        lemma_same_candidates(snapshot, change, done, 0, Seq::empty());
        let begun = ChangeModel { candidate_hash: prepared.candidate_hash, ..change };
        let canon = files(snapshot.canon@);
        lemma_same_projection(snapshot, begun, done, 0, canon);
        lemma_same_projection(snapshot, third, done, 0, canon);
        assert(record_bytes(third) == record_bytes(done));
    }
}

/// A revision goes to the candidates of manuscripts: those whose target lies with the manuscripts,
/// and no others.
pub proof fn revision_goes_to_the_manuscripts(ops: Seq<OperationModel>, i: int, path: Seq<char>)
    requires
        0 <= i <= ops.len(),
    ensures
        manuscripts(ops, i).contains(path) <==> exists|k: int|
            i <= k < ops.len() && has_prefix((#[trigger] ops[k]).path, "本文/"@)
                && ops[k].candidate_path == Some(path),
    decreases ops.len() - i,
{
    if i < ops.len() {
        revision_goes_to_the_manuscripts(ops, i + 1, path);
        let rest = manuscripts(ops, i + 1);
        let all = manuscripts(ops, i);
        let taken = has_prefix(ops[i].path, "本文/"@) && ops[i].candidate_path is Some;
        if taken {
            assert(all == seq![ops[i].candidate_path->Some_0] + rest);
            if all.contains(path) {
                let p = choose|p: int| 0 <= p < all.len() && all[p] == path;
                if p > 0 {
                    assert(rest[p - 1] == path);
                }
            }
            if rest.contains(path) {
                let p = choose|p: int| 0 <= p < rest.len() && rest[p] == path;
                assert(all[p + 1] == path);
            }
            if ops[i].candidate_path == Some(path) {
                assert(all[0] == path);
            }
        }
    }
}

/// A revision puts the new text into every manuscript, under its front matter, and moves none.
pub proof fn revision_reaches_every_manuscript(list: Seq<FileModel>, text: Seq<char>, i: int)
    requires
        0 <= i < list.len(),
    ensures
        revised_files(list, text).len() == list.len(),
        revised_files(list, text)[i].0 == list[i].0,
        revised_files(list, text)[i].1 == with_body(list[i].1, text),
{
}

proof fn lemma_fence(base: Seq<u8>, i: int, end: int)
    requires
        0 <= i <= end,
        end + 4 <= base.len(),
        base.subrange(end, end + 4) == seq![45u8, 45, 45, 10],
        forall|k: int|
            i <= k < end ==> #[trigger] base.subrange(k, k + 4) != seq![45u8, 45, 45, 10],
    ensures
        fence_from(base, i) == Some(end),
    decreases end - i,
{
    let line = base.subrange(i, i + 4);
    assert(fence_at(base, i) <==> line == seq![45u8, 45, 45, 10]) by {
        if fence_at(base, i) {
            assert(line =~= seq![45u8, 45, 45, 10]);
        }
        if line == seq![45u8, 45, 45, 10] {
            assert(base[i] == line[0] && base[i + 1] == line[1] && base[i + 2] == line[2] && base[i
                + 3] == line[3]);
        }
    }
    if i < end {
        lemma_fence(base, i + 1, end);
    }
}

/// Front matter is what stands between a line of three dashes at the beginning of a document and the
/// next one; a new body comes right behind it.
pub proof fn front_matter_ends_with_dashes(base: Seq<u8>, text: Seq<char>, end: int)
    requires
        4 <= end,
        end + 4 <= base.len(),
        base.subrange(0, 4) == seq![45u8, 45, 45, 10],
        base.subrange(end, end + 4) == seq![45u8, 45, 45, 10],
        forall|k: int|
            4 <= k < end ==> #[trigger] base.subrange(k, k + 4) != seq![45u8, 45, 45, 10],
    ensures
        with_body(base, text) == base.take(end + 4) + utf8(text),
{
    lemma_fence(base, 4, end);
    let line = base.subrange(0, 4);
    assert(base[0] == line[0] && base[1] == line[1] && base[2] == line[2] && base[3] == line[3]);
}

} // verus!
