//! Candidate files of a chapter and the changeset that they make up.
use vstd::prelude::*;
use vstd::string::StringExecFns;
use crate::changeset::{calculate_validation_hash, change_material, copy_operations, dependency_models, error_name, material_digest, operation_models, ChangeModel, Changeset, ChangesetDependency, ChangesetState, DependencyModel, FileOperation, OperationKind, OperationModel, Refusal};
use crate::domain::{ids, is_id_of, opt_id, prefixed_uuid, EntityId, EntityKind};
use crate::hash::{digest_text, sha256_bytes};
use crate::paths::{content_of, copy_bytes, files, find_file, FileEntry, FileModel};
use crate::records::{corrections_json, receipts_json, received, CorrectionReceipt};
use crate::text::{concat2, concat3, decimal, decimal_text, has_prefix, starts_with, texts, utf8};
use crate::validation::{calculate_candidate_hash, candidate_digest, content_digest, content_result_hash, projected_root_hash, result_digest, ApprovalFile, ProjectSnapshot};

verus! {

/// Whether a fence stands at a position.
pub open spec fn fence_at(bytes: Seq<u8>, i: int) -> bool {
    0 <= i && i + 4 <= bytes.len() && bytes[i] == 45 && bytes[i + 1] == 45 && bytes[i + 2] == 45
        && bytes[i + 3] == 10
}

/// The first fence from a position on.
pub open spec fn fence_from(bytes: Seq<u8>, i: int) -> Option<int>
    decreases bytes.len() - i,
{
    if i < 0 || i + 4 > bytes.len() {
        None
    } else if fence_at(bytes, i) {
        Some(i)
    } else {
        fence_from(bytes, i + 1)
    }
}

/// A candidate file with another body: its frontmatter stays.
pub open spec fn with_body(base: Seq<u8>, text: Seq<char>) -> Seq<u8> {
    if fence_at(base, 0) && fence_from(base, 4) is Some {
        base.take(fence_from(base, 4)->Some_0 + 4) + utf8(text)
    } else {
        utf8(text)
    }
}

fn is_fence(bytes: &[u8], i: usize) -> (r: bool)
    ensures
        r == fence_at(bytes@, i as int),
{
    let n: usize = bytes.len();
    n >= 4 && i <= n - 4 && bytes[i] == 45 && bytes[i + 1] == 45 && bytes[i + 2] == 45 && bytes[i
        + 3] == 10
}

/// Replaces the body of a candidate file; its frontmatter stays.
pub fn replace_candidate_body(base: Vec<u8>, text: &str) -> (r: Vec<u8>)
    ensures
        r@ == with_body(base@, text@),
{
    let n: usize = base.len();
    if is_fence(base.as_slice(), 0) {
        let mut i: usize = 4;
        while i <= n - 4 && !is_fence(base.as_slice(), i)
            invariant
                4 <= i,
                n == base@.len(),
                n >= 4,
                i <= n,
                fence_from(base@, 4) == fence_from(base@, i as int),
            decreases n - i,
        {
            i += 1;
        }
        if i <= n - 4 {
            let mut out = copy_bytes(vstd::slice::slice_subrange(base.as_slice(), 0, i + 4));
            out.extend_from_slice(text.as_bytes());
            assert(out@ =~= base@.take(i + 4) + utf8(text@));
            return out;
        }
    }
    copy_bytes(text.as_bytes())
}

/// The line that opens a candidate text in a file.
pub const CANDIDATE_MARK: &'static str = "<!-- phemius candidate -->\n";

/// A file with a candidate text behind its content.
pub open spec fn with_candidate(base: Seq<u8>, text: Seq<char>) -> Seq<u8> {
    let lines = if base.len() > 0 && base.last() == 10 {
        base
    } else {
        base.push(10)
    };
    lines + utf8(CANDIDATE_MARK@) + utf8(text)
}

/// Puts a candidate text behind the content of a file.
pub fn append_candidate(base: Vec<u8>, text: &str) -> (r: Vec<u8>)
    ensures
        r@ == with_candidate(base@, text@),
{
    let mut out = base;
    let n: usize = out.len();
    if n == 0 || out[n - 1] != 10 {
        out.push(10);
    }
    out.extend_from_slice(CANDIDATE_MARK.as_bytes());
    out.extend_from_slice(text.as_bytes());
    assert(out@ =~= with_candidate(base@, text@));
    out
}

/// The directory of manuscripts.
pub const MANUSCRIPTS: &'static str = "本文/";

/// The candidate files of manuscripts, for the operations from `i` on.
pub open spec fn manuscripts(ops: Seq<OperationModel>, i: int) -> Seq<Seq<char>>
    decreases ops.len() - i,
{
    if i < 0 || i >= ops.len() {
        Seq::empty()
    } else if has_prefix(ops[i].path, MANUSCRIPTS@) && ops[i].candidate_path is Some {
        seq![ops[i].candidate_path->Some_0] + manuscripts(ops, i + 1)
    } else {
        manuscripts(ops, i + 1)
    }
}

/// Returns the candidate files of manuscripts.
pub fn manuscript_paths(ops: &[FileOperation]) -> (r: Vec<String>)
    ensures
        texts(r@) == manuscripts(operation_models(ops@), 0),
{
    let ghost all = operation_models(ops@);
    let mut out: Vec<String> = Vec::new();
    let mut i: usize = 0;
    assert(texts(out@) + manuscripts(all, 0) =~= manuscripts(all, 0));
    while i < ops.len()
        invariant
            i <= ops@.len(),
            all == operation_models(ops@),
            texts(out@) + manuscripts(all, i as int) == manuscripts(all, 0),
        decreases ops@.len() - i,
    {
        assert(all[i as int] == ops@[i as int]@);
        if starts_with(ops[i].path.as_str(), MANUSCRIPTS) {
            if let Some(path) = &ops[i].candidate_path {
                let ghost before = texts(out@);
                out.push(path.clone());
                assert(texts(out@) =~= before.push(path@));
                assert(before.push(path@) + manuscripts(all, i + 1) =~= before + (seq![path@]
                    + manuscripts(all, i + 1)));
            }
        }
        i += 1;
    }
    assert(texts(out@) + manuscripts(all, i as int) =~= texts(out@));
    out
}

/// Files with another body each.
pub open spec fn revised_files(list: Seq<FileModel>, text: Seq<char>) -> Seq<FileModel> {
    list.map_values(|file: FileModel| (file.0, with_body(file.1, text)))
}

/// Replaces the body of each candidate file.
pub fn revise_files(list: Vec<FileEntry>, text: &str) -> (r: Vec<FileEntry>)
    ensures
        files(r@) == revised_files(files(list@), text@),
{
    let mut out: Vec<FileEntry> = Vec::new();
    let mut i: usize = 0;
    while i < list.len()
        invariant
            i <= list@.len(),
            out@.len() == i,
            forall|k: int|
                0 <= k < i ==> (#[trigger] out@[k])@ == (
                    list@[k].path@,
                    with_body(list@[k].bytes@, text@),
                ),
        decreases list@.len() - i,
    {
        let bytes = replace_candidate_body(copy_bytes(list[i].bytes.as_slice()), text);
        out.push(FileEntry { path: list[i].path.clone(), bytes });
        i += 1;
    }
    assert(files(out@) =~= revised_files(files(list@), text@));
    out
}

/// An operation with the digest of its candidate file, where the file is among some.
pub open spec fn revised_operation(op: OperationModel, list: Seq<FileModel>) -> OperationModel {
    match op.candidate_path {
        Some(path) => match content_of(list, path) {
            Some(bytes) => OperationModel { after_sha256: Some(digest_text(bytes)), ..op },
            None => op,
        },
        None => op,
    }
}

/// Operations with the digests of the candidate files that are among some.
pub open spec fn revised_operations(
    ops: Seq<OperationModel>,
    list: Seq<FileModel>,
) -> Seq<OperationModel> {
    ops.map_values(|op: OperationModel| revised_operation(op, list))
}

/// Brings the digests of operations up to date with their candidate files.
pub fn revise_operations(ops: &[FileOperation], list: &[FileEntry]) -> (r: Vec<FileOperation>)
    ensures
        operation_models(r@) == revised_operations(operation_models(ops@), files(list@)),
{
    let mut out: Vec<FileOperation> = Vec::new();
    let mut i: usize = 0;
    while i < ops.len()
        invariant
            i <= ops@.len(),
            out@.len() == i,
            forall|k: int|
                0 <= k < i ==> (#[trigger] out@[k])@ == revised_operation(ops@[k]@, files(list@)),
        decreases ops@.len() - i,
    {
        let mut op = ops[i].copy();
        let found = match &ops[i].candidate_path {
            Some(path) => match find_file(list, path.as_str()) {
                Some(file) => Some(sha256_bytes(file.bytes.as_slice())),
                None => None,
            },
            None => None,
        };
        if let Some(digest) = found {
            op.after_sha256 = Some(digest);
        }
        out.push(op);
        i += 1;
    }
    assert(operation_models(out@) =~= revised_operations(operation_models(ops@), files(list@)));
    out
}

/// Fresh identifiers for the files of a chapter.
#[derive(Debug)]
pub struct ChangeIds {
    /// Chapter.
    pub chapter: EntityId,
    /// Timeline.
    pub timeline: EntityId,
    /// Foreshadowing.
    pub foreshadowing: EntityId,
    /// Character.
    pub character: EntityId,
    /// Note on the context.
    pub context: EntityId,
    /// Note on the reviews.
    pub critique: EntityId,
    /// Note on the plan.
    pub basis: EntityId,
}

impl ChangeIds {
    /// Makes fresh identifiers.
    pub fn generate() -> (r: ChangeIds)
        ensures
            is_id_of(r.chapter@, EntityKind::Chapter),
            is_id_of(r.timeline@, EntityKind::Timeline),
            is_id_of(r.foreshadowing@, EntityKind::Foreshadowing),
            is_id_of(r.character@, EntityKind::Character),
            is_id_of(r.context@, EntityKind::Rule),
            is_id_of(r.critique@, EntityKind::Rule),
            is_id_of(r.basis@, EntityKind::Rule),
    {
        ChangeIds {
            chapter: prefixed_uuid(EntityKind::Chapter),
            timeline: prefixed_uuid(EntityKind::Timeline),
            foreshadowing: prefixed_uuid(EntityKind::Foreshadowing),
            character: prefixed_uuid(EntityKind::Character),
            context: prefixed_uuid(EntityKind::Rule),
            critique: prefixed_uuid(EntityKind::Rule),
            basis: prefixed_uuid(EntityKind::Rule),
        }
    }
}

/// What the candidate files of a chapter are made from.
#[derive(Debug)]
pub struct DraftText {
    /// Chapter.
    pub chapter_id: String,
    /// Text of the writer.
    pub writer_text: String,
    /// Context of the writer.
    pub compiled_context: String,
    /// JSON text of the receipt of the context; empty where there is none.
    pub context_receipt: String,
    /// Plan of the architect.
    pub architect_plan: String,
    /// Corrections that the chapter received.
    pub corrections: Vec<CorrectionReceipt>,
}

/// A file of a chapter: target, name of the candidate file, content and entity.
pub struct ArtifactModel {
    pub target: Seq<char>,
    pub name: Seq<char>,
    pub bytes: Seq<u8>,
    pub entity: Seq<char>,
}

/// Frontmatter with an identifier.
pub open spec fn identified(id: Seq<char>) -> Seq<char> {
    "---\nid: "@ + id + "\n---\n"@
}

/// The manuscript: appended to where it exists.
pub open spec fn manuscript_bytes(existing: Option<Seq<u8>>, id: Seq<char>, text: Seq<char>) -> Seq<
    u8,
> {
    match existing {
        Some(bytes) => with_candidate(bytes, text),
        None => utf8(identified(id) + text),
    }
}

/// The path of the manuscript of a chapter.
pub open spec fn manuscript_target(chapter_id: Seq<char>) -> Seq<char> {
    "本文/"@ + chapter_id + ".md"@
}

/// A note of a chapter.
pub open spec fn note(
    chapter_id: Seq<char>,
    name: Seq<char>,
    title: Seq<char>,
    body: Seq<char>,
    id: Seq<char>,
) -> ArtifactModel {
    ArtifactModel {
        target: "メモ/"@ + chapter_id + "-"@ + name,
        name: name,
        bytes: utf8(identified(id) + "# "@ + title + "\n\n"@ + body + "\n"@),
        entity: id,
    }
}

/// The body of the note on the context.
pub open spec fn context_body(draft: DraftText) -> Seq<char> {
    draft.context_receipt@ + "\n\n# compiled context\n"@ + draft.compiled_context@
        + "\n\n# correction receipts\n"@ + receipts_json(received(draft.corrections@))
}

/// The files of a chapter, or the canon file that is missing.
pub open spec fn artifacts(
    draft: DraftText,
    names: ChangeIds,
    existing: Seq<FileModel>,
) -> Result<Seq<ArtifactModel>, Seq<char>> {
    let chapter_id = draft.chapter_id@;
    let text = draft.writer_text@;
    match (
        content_of(existing, "前提/時系列.md"@),
        content_of(existing, "前提/伏線.md"@),
    ) {
        (None, _) => Err("required canon artifact is missing: 前提/時系列.md"@),
        (Some(_), None) => Err("required canon artifact is missing: 前提/伏線.md"@),
        (Some(timeline), Some(foreshadowing)) => Ok(
            seq![
                ArtifactModel {
                    target: manuscript_target(chapter_id),
                    name: "manuscript.md"@,
                    bytes: manuscript_bytes(
                        content_of(existing, manuscript_target(chapter_id)),
                        names.chapter@,
                        text,
                    ),
                    entity: names.chapter@,
                },
                ArtifactModel {
                    target: "前提/時系列.md"@,
                    name: "timeline.md"@,
                    bytes: with_candidate(timeline, text),
                    entity: names.timeline@,
                },
                ArtifactModel {
                    target: "前提/伏線.md"@,
                    name: "foreshadowing.md"@,
                    bytes: with_candidate(foreshadowing, text),
                    entity: names.foreshadowing@,
                },
                ArtifactModel {
                    target: "前提/キャラクター設定/"@ + names.character@ + ".md"@,
                    name: "character.md"@,
                    bytes: utf8(
                        identified(names.character@)
                            + "# character\n\nGenerated character state for "@ + chapter_id
                            + ".\n"@,
                    ),
                    entity: names.character@,
                },
                note(
                    chapter_id,
                    "context.md"@,
                    "context receipt"@,
                    context_body(draft),
                    names.context@,
                ),
                note(
                    chapter_id,
                    "critique.md"@,
                    "critic summary"@,
                    "critics pending"@,
                    names.critique@,
                ),
                note(
                    chapter_id,
                    "basis.md"@,
                    "generation basis"@,
                    draft.architect_plan@,
                    names.basis@,
                ),
            ],
        ),
    }
}

/// The directory of the candidate files of a changeset.
pub open spec fn candidate_root(changeset_id: Seq<char>) -> Seq<char> {
    ".phemius/runtime/candidates/"@ + changeset_id
}

/// The candidate file of an artifact.
pub open spec fn candidate_file(changeset_id: Seq<char>, artifact: ArtifactModel) -> FileModel {
    (candidate_root(changeset_id) + "/"@ + artifact.name, artifact.bytes)
}

/// The operation of an artifact: it replaces a file that exists and creates one that does not.
pub open spec fn artifact_operation(
    changeset_id: Seq<char>,
    artifact: ArtifactModel,
    existing: Seq<FileModel>,
) -> OperationModel {
    let before = content_of(existing, artifact.target);
    OperationModel {
        kind: if before is Some {
            OperationKind::Replace
        } else {
            OperationKind::Create
        },
        path: artifact.target,
        before_sha256: match before {
            Some(bytes) => Some(digest_text(bytes)),
            None => None,
        },
        after_sha256: Some(digest_text(artifact.bytes)),
        candidate_path: Some(candidate_file(changeset_id, artifact).0),
        affected_entities: seq![artifact.entity],
    }
}

/// The candidate files of a chapter and the operations that put them in place.
#[derive(Debug)]
pub struct PlannedChange {
    /// Candidate files.
    pub files: Vec<FileEntry>,
    /// Operations.
    pub operations: Vec<FileOperation>,
}

struct Artifact {
    target: String,
    name: String,
    bytes: Vec<u8>,
    entity: EntityId,
}

impl View for Artifact {
    type V = ArtifactModel;

    closed spec fn view(&self) -> ArtifactModel {
        ArtifactModel {
            target: self.target@,
            name: self.name@,
            bytes: self.bytes@,
            entity: self.entity@,
        }
    }
}

spec fn artifact_models(items: Seq<Artifact>) -> Seq<ArtifactModel> {
    items.map_values(|item: Artifact| item@)
}

fn identify(id: &EntityId) -> (r: String)
    ensures
        r@ == identified(id@),
{
    concat3("---\nid: ", id.as_str(), "\n---\n")
}

fn make_note(chapter_id: &str, name: &str, title: &str, body: &str, id: &EntityId) -> (r: Artifact)
    ensures
        r@ == note(chapter_id@, name@, title@, body@, id@),
{
    let mut target = concat3("メモ/", chapter_id, "-");
    target.append(name);
    let mut text = identify(id);
    text.append("# ");
    text.append(title);
    text.append("\n\n");
    text.append(body);
    text.append("\n");
    Artifact {
        target,
        name: name.to_owned(),
        bytes: copy_bytes(text.as_str().as_bytes()),
        entity: id.copy(),
    }
}

fn make_manuscript(draft: &DraftText, names: &ChangeIds, existing: &[FileEntry]) -> (r: Artifact)
    ensures
        r@ == (ArtifactModel {
            target: manuscript_target(draft.chapter_id@),
            name: "manuscript.md"@,
            bytes: manuscript_bytes(
                content_of(files(existing@), manuscript_target(draft.chapter_id@)),
                names.chapter@,
                draft.writer_text@,
            ),
            entity: names.chapter@,
        }),
{
    let target = concat3("本文/", draft.chapter_id.as_str(), ".md");
    let bytes = match find_file(existing, target.as_str()) {
        Some(file) => append_candidate(
            copy_bytes(file.bytes.as_slice()),
            draft.writer_text.as_str(),
        ),
        None => {
            let mut text = identify(&names.chapter);
            text.append(draft.writer_text.as_str());
            copy_bytes(text.as_str().as_bytes())
        },
    };
    Artifact { target, name: "manuscript.md".to_owned(), bytes, entity: names.chapter.copy() }
}

fn make_character(draft: &DraftText, names: &ChangeIds) -> (r: Artifact)
    ensures
        r@ == (ArtifactModel {
            target: "前提/キャラクター設定/"@ + names.character@ + ".md"@,
            name: "character.md"@,
            bytes: utf8(
                identified(names.character@) + "# character\n\nGenerated character state for "@
                    + draft.chapter_id@ + ".\n"@,
            ),
            entity: names.character@,
        }),
{
    let mut text = identify(&names.character);
    text.append("# character\n\nGenerated character state for ");
    text.append(draft.chapter_id.as_str());
    text.append(".\n");
    Artifact {
        target: concat3("前提/キャラクター設定/", names.character.as_str(), ".md"),
        name: "character.md".to_owned(),
        bytes: copy_bytes(text.as_str().as_bytes()),
        entity: names.character.copy(),
    }
}

fn make_context(draft: &DraftText, names: &ChangeIds) -> (r: Artifact)
    ensures
        r@ == note(
            draft.chapter_id@,
            "context.md"@,
            "context receipt"@,
            context_body(*draft),
            names.context@,
        ),
{
    let mut body = draft.context_receipt.clone();
    body.append("\n\n# compiled context\n");
    body.append(draft.compiled_context.as_str());
    body.append("\n\n# correction receipts\n");
    body.append(corrections_json(draft.corrections.as_slice()).as_str());
    make_note(
        draft.chapter_id.as_str(),
        "context.md",
        "context receipt",
        body.as_str(),
        &names.context,
    )
}

fn make_artifacts(draft: &DraftText, names: &ChangeIds, existing: &[FileEntry]) -> (r: Result<
    Vec<Artifact>,
    String,
>)
    ensures
        match artifacts(*draft, *names, files(existing@)) {
            Ok(list) => r is Ok && artifact_models(r->Ok_0@) == list,
            Err(message) => r is Err && r->Err_0@ == message,
        },
{
    let timeline = match find_file(existing, "前提/時系列.md") {
        None => {
            return Err("required canon artifact is missing: 前提/時系列.md".to_owned());
        },
        Some(file) => file,
    };
    let foreshadowing = match find_file(existing, "前提/伏線.md") {
        None => {
            return Err("required canon artifact is missing: 前提/伏線.md".to_owned());
        },
        Some(file) => file,
    };
    let text = draft.writer_text.as_str();
    let mut out: Vec<Artifact> = Vec::new();
    out.push(make_manuscript(draft, names, existing));
    out.push(
        Artifact {
            target: "前提/時系列.md".to_owned(),
            name: "timeline.md".to_owned(),
            bytes: append_candidate(copy_bytes(timeline.bytes.as_slice()), text),
            entity: names.timeline.copy(),
        },
    );
    out.push(
        Artifact {
            target: "前提/伏線.md".to_owned(),
            name: "foreshadowing.md".to_owned(),
            bytes: append_candidate(copy_bytes(foreshadowing.bytes.as_slice()), text),
            entity: names.foreshadowing.copy(),
        },
    );
    out.push(make_character(draft, names));
    out.push(make_context(draft, names));
    out.push(
        make_note(
            draft.chapter_id.as_str(),
            "critique.md",
            "critic summary",
            "critics pending",
            &names.critique,
        ),
    );
    out.push(
        make_note(
            draft.chapter_id.as_str(),
            "basis.md",
            "generation basis",
            draft.architect_plan.as_str(),
            &names.basis,
        ),
    );
    assert(artifact_models(out@) =~= artifacts(*draft, *names, files(existing@))->Ok_0);
    Ok(out)
}

fn candidate_path(changeset_id: &EntityId, name: &str) -> (r: String)
    ensures
        r@ == candidate_root(changeset_id@) + "/"@ + name@,
{
    let mut out = concat3(".phemius/runtime/candidates/", changeset_id.as_str(), "/");
    out.append(name);
    out
}

fn operation_for(changeset_id: &EntityId, artifact: &Artifact, existing: &[FileEntry]) -> (r:
    FileOperation)
    ensures
        r@ == artifact_operation(changeset_id@, artifact@, files(existing@)),
{
    let (kind, before_sha256) = match find_file(existing, artifact.target.as_str()) {
        Some(file) => (OperationKind::Replace, Some(sha256_bytes(file.bytes.as_slice()))),
        None => (OperationKind::Create, None),
    };
    let mut affected_entities: Vec<EntityId> = Vec::new();
    affected_entities.push(artifact.entity.copy());
    assert(ids(affected_entities@) =~= seq![artifact.entity@]);
    FileOperation {
        kind,
        path: artifact.target.clone(),
        before_sha256,
        after_sha256: Some(sha256_bytes(artifact.bytes.as_slice())),
        candidate_path: Some(candidate_path(changeset_id, artifact.name.as_str())),
        affected_entities,
    }
}

/// Plans the candidate files of a chapter and the operations that put them in place, given the
/// target files that exist.
pub fn prepare_project_change(
    changeset_id: &EntityId,
    draft: &DraftText,
    names: &ChangeIds,
    existing: &[FileEntry],
) -> (r: Result<PlannedChange, String>)
    ensures
        match artifacts(*draft, *names, files(existing@)) {
            Ok(list) => {
                &&& r is Ok
                &&& files(r->Ok_0.files@) == list.map_values(
                    |artifact: ArtifactModel| candidate_file(changeset_id@, artifact),
                )
                &&& operation_models(r->Ok_0.operations@) == list.map_values(
                    |artifact: ArtifactModel|
                        artifact_operation(changeset_id@, artifact, files(existing@)),
                )
            },
            Err(message) => r is Err && r->Err_0@ == message,
        },
{
    let list = match make_artifacts(draft, names, existing) {
        Err(error) => {
            return Err(error);
        },
        Ok(list) => list,
    };
    let ghost all = artifact_models(list@);
    let ghost file_goal = all.map_values(
        |artifact: ArtifactModel| candidate_file(changeset_id@, artifact),
    );
    let ghost op_goal = all.map_values(
        |artifact: ArtifactModel| artifact_operation(changeset_id@, artifact, files(existing@)),
    );
    let mut out: Vec<FileEntry> = Vec::new();
    let mut operations: Vec<FileOperation> = Vec::new();
    let mut i: usize = 0;
    while i < list.len()
        invariant
            i <= list@.len(),
            all == artifact_models(list@),
            out@.len() == i,
            operations@.len() == i,
            forall|k: int|
                0 <= k < i ==> (#[trigger] out@[k])@ == candidate_file(changeset_id@, all[k]),
            forall|k: int|
                0 <= k < i ==> (#[trigger] operations@[k])@ == artifact_operation(
                    changeset_id@,
                    all[k],
                    files(existing@),
                ),
        decreases list@.len() - i,
    {
        assert(all[i as int] == list@[i as int]@);
        out.push(
            FileEntry {
                path: candidate_path(changeset_id, list[i].name.as_str()),
                bytes: copy_bytes(list[i].bytes.as_slice()),
            },
        );
        operations.push(operation_for(changeset_id, &list[i], existing));
        i += 1;
    }
    assert(files(out@) =~= file_goal);
    assert(operation_models(operations@) =~= op_goal);
    Ok(PlannedChange { files: out, operations })
}

/// The digests and operations of a prepared changeset.
#[derive(Debug)]
pub struct PreparedChange {
    /// Operations.
    pub operations: Vec<FileOperation>,
    /// Digest of the canon the operations start from.
    pub base_root_hash: String,
    /// Digest of the canon after the operations.
    pub content_result_hash: String,
    /// Digest of the canon after the operations and the approval record.
    pub result_root_hash: String,
    /// Digest of the candidate files.
    pub candidate_hash: String,
}

/// A prepared changeset by the views of its fields.
pub struct PreparedModel {
    pub operations: Seq<OperationModel>,
    pub base_root_hash: Seq<char>,
    pub content_result_hash: Seq<char>,
    pub result_root_hash: Seq<char>,
    pub candidate_hash: Seq<char>,
}

impl View for PreparedChange {
    type V = PreparedModel;

    open spec fn view(&self) -> PreparedModel {
        PreparedModel {
            operations: operation_models(self.operations@),
            base_root_hash: self.base_root_hash@,
            content_result_hash: self.content_result_hash@,
            result_root_hash: self.result_root_hash@,
            candidate_hash: self.candidate_hash@,
        }
    }
}

/// Returns an equal prepared changeset.
pub fn copy_prepared(prepared: &PreparedChange) -> (r: PreparedChange)
    ensures
        r@ == prepared@,
{
    PreparedChange {
        operations: copy_operations(prepared.operations.as_slice()),
        base_root_hash: prepared.base_root_hash.clone(),
        content_result_hash: prepared.content_result_hash.clone(),
        result_root_hash: prepared.result_root_hash.clone(),
        candidate_hash: prepared.candidate_hash.clone(),
    }
}

/// A changeset whose digests are not known yet.
pub open spec fn unhashed(
    id: Seq<char>,
    parent: Option<Seq<char>>,
    base_root_hash: Seq<char>,
    operations: Seq<OperationModel>,
    dependencies: Seq<DependencyModel>,
    chapter_order: u32,
) -> ChangeModel {
    ChangeModel {
        id: id,
        parent_changeset_id: parent,
        base_root_hash: base_root_hash,
        content_result_hash: Seq::empty(),
        result_root_hash: Seq::empty(),
        state: ChangesetState::Approvable,
        operations: operations,
        candidate_hash: Seq::empty(),
        validation_hash: None,
        unresolved_blocker_ids: Seq::empty(),
        dependencies: dependencies,
        chapter_order: chapter_order,
    }
}

/// The digests of a changeset: of its candidates, of the canon it leads to, of what is validated,
/// and of the canon with its record, in this order.
pub open spec fn hashed(snapshot: ProjectSnapshot, change: ChangeModel) -> Result<
    PreparedModel,
    Refusal,
> {
    match candidate_digest(snapshot, change) {
        Err(refusal) => Err(refusal),
        Ok(candidate_hash) => {
            let first = ChangeModel { candidate_hash: candidate_hash, ..change };
            match content_digest(snapshot, first) {
                Err(refusal) => Err(refusal),
                Ok(content_result_hash) => {
                    let second = ChangeModel { content_result_hash: content_result_hash, ..first };
                    let third = ChangeModel {
                        validation_hash: Some(material_digest(change_material(second))),
                        ..second
                    };
                    match result_digest(snapshot, third) {
                        Err(refusal) => Err(refusal),
                        Ok(result_root_hash) => Ok(
                            PreparedModel {
                                operations: change.operations,
                                base_root_hash: change.base_root_hash,
                                content_result_hash: content_result_hash,
                                result_root_hash: result_root_hash,
                                candidate_hash: candidate_hash,
                            },
                        ),
                    }
                },
            }
        },
    }
}

/// The text of a refusal.
pub open spec fn refusal_text(refusal: Refusal) -> Seq<char> {
    error_name(refusal.0) + ": "@ + refusal.1
}

/// Computes the digests of a changeset whose candidate files are in place.
pub fn hash_project_change(
    snapshot: &ProjectSnapshot,
    id: &EntityId,
    parent: Option<EntityId>,
    base_root_hash: String,
    operations: Vec<FileOperation>,
    dependencies: Vec<ChangesetDependency>,
    chapter_order: u32,
) -> (r: Result<PreparedChange, String>)
    ensures
        match hashed(
            *snapshot,
            unhashed(
                id@,
                opt_id(parent),
                base_root_hash@,
                operation_models(operations@),
                dependency_models(dependencies@),
                chapter_order,
            ),
        ) {
            Ok(prepared) => r is Ok && r->Ok_0@ == prepared,
            Err(refusal) => r is Err && r->Err_0@ == refusal_text(refusal),
        },
{
    let mut change = Changeset {
        id: id.copy(),
        parent_changeset_id: parent,
        base_root_hash,
        content_result_hash: String::new(),
        result_root_hash: String::new(),
        state: ChangesetState::Approvable,
        operations,
        candidate_hash: String::new(),
        validation_hash: None,
        unresolved_blocker_ids: Vec::new(),
        dependencies,
        chapter_order,
    };
    assert(change@.unresolved_blocker_ids =~= Seq::<Seq<char>>::empty());
    assert(change@.content_result_hash =~= Seq::<char>::empty());
    match calculate_candidate_hash(snapshot, &change) {
        Err(error) => {
            return Err(error.to_text());
        },
        Ok(hash) => {
            change.candidate_hash = hash;
        },
    }
    match content_result_hash(snapshot, &change) {
        Err(error) => {
            return Err(error.to_text());
        },
        Ok(hash) => {
            change.content_result_hash = hash;
        },
    }
    change.validation_hash = Some(calculate_validation_hash(&change));
    match projected_root_hash(snapshot, &change) {
        Err(error) => {
            return Err(error.to_text());
        },
        Ok(hash) => {
            change.result_root_hash = hash;
        },
    }
    Ok(
        PreparedChange {
            operations: change.operations,
            base_root_hash: change.base_root_hash,
            content_result_hash: change.content_result_hash,
            result_root_hash: change.result_root_hash,
            candidate_hash: change.candidate_hash,
        },
    )
}

/// The identifier of the first dependency.
pub open spec fn first_dependency(list: Seq<DependencyModel>) -> Option<Seq<char>> {
    if list.len() == 0 {
        None
    } else {
        Some(list[0].0)
    }
}

/// Returns the identifier of the first dependency.
pub fn parent_of(list: &[ChangesetDependency]) -> (r: Option<EntityId>)
    ensures
        opt_id(r) == first_dependency(dependency_models(list@)),
{
    if list.len() == 0 {
        None
    } else {
        assert(dependency_models(list@)[0] == list@[0]@);
        Some(list[0].id.copy())
    }
}

/// Computes the digests of a changeset whose manuscript was revised, given the revised candidate
/// files.
pub fn update_project_change(
    snapshot: &ProjectSnapshot,
    id: &EntityId,
    previous: &PreparedChange,
    revised: &[FileEntry],
    dependencies: Vec<ChangesetDependency>,
    chapter_order: u32,
) -> (r: Result<PreparedChange, String>)
    ensures
        match hashed(
            *snapshot,
            unhashed(
                id@,
                first_dependency(dependency_models(dependencies@)),
                previous@.base_root_hash,
                revised_operations(previous@.operations, files(revised@)),
                dependency_models(dependencies@),
                chapter_order,
            ),
        ) {
            Ok(prepared) => r is Ok && r->Ok_0@ == prepared,
            Err(refusal) => r is Err && r->Err_0@ == refusal_text(refusal),
        },
{
    let operations = revise_operations(previous.operations.as_slice(), revised);
    let parent = parent_of(dependencies.as_slice());
    hash_project_change(
        snapshot,
        id,
        parent,
        previous.base_root_hash.clone(),
        operations,
        dependencies,
        chapter_order,
    )
}

/// The approval of the chapter before one, among the entries of the approval directory from `i`
/// on, with the approval found before.
pub open spec fn previous_approval(
    list: Seq<ApprovalFile>,
    i: int,
    directory: Seq<char>,
    order: u32,
    found: Option<DependencyModel>,
) -> Result<Option<DependencyModel>, Seq<char>>
    decreases list.len() - i,
{
    if i < 0 || i >= list.len() {
        Ok(found)
    } else if !list[i].regular {
        previous_approval(list, i + 1, directory, order, found)
    } else {
        match list[i].record {
            Err(error) => Err(
                "invalid approval record "@ + directory + "/"@ + list[i].name@ + ": "@ + error@,
            ),
            Ok(record) => if record.chapter_order + 1 != order {
                previous_approval(list, i + 1, directory, order, found)
            } else if found is Some {
                Err(
                    "multiple durable approvals exist for chapter order "@ + decimal(
                        record.chapter_order as nat,
                    ),
                )
            } else {
                previous_approval(
                    list,
                    i + 1,
                    directory,
                    order,
                    Some(
                        (
                            record.changeset_id@,
                            digest_text(list[i].bytes@),
                            record.chapter_order,
                        ),
                    ),
                )
            },
        }
    }
}

/// The changesets that the chapter at a position builds on.
pub open spec fn chapter_dependencies(
    list: Seq<ApprovalFile>,
    directory: Seq<char>,
    order: u32,
) -> Result<Seq<DependencyModel>, Seq<char>> {
    if order <= 1 {
        Ok(Seq::empty())
    } else {
        match previous_approval(list, 0, directory, order, None) {
            Err(message) => Err(message),
            Ok(None) => Ok(Seq::empty()),
            Ok(Some(found)) => Ok(seq![found]),
        }
    }
}

spec fn opt_dependency(item: Option<ChangesetDependency>) -> Option<DependencyModel> {
    match item {
        Some(dependency) => Some(dependency@),
        None => None,
    }
}

/// Finds the changesets that the chapter at a position builds on.
pub fn project_dependencies(list: &[ApprovalFile], directory: &str, chapter_order: u32) -> (r:
    Result<Vec<ChangesetDependency>, String>)
    ensures
        match chapter_dependencies(list@, directory@, chapter_order) {
            Ok(found) => r is Ok && dependency_models(r->Ok_0@) == found,
            Err(message) => r is Err && r->Err_0@ == message,
        },
{
    let mut out: Vec<ChangesetDependency> = Vec::new();
    assert(dependency_models(out@) =~= Seq::<DependencyModel>::empty());
    if chapter_order <= 1 {
        return Ok(out);
    }
    let mut found: Option<ChangesetDependency> = None;
    let mut i: usize = 0;
    while i < list.len()
        invariant
            i <= list@.len(),
            chapter_order > 1,
            previous_approval(list@, 0, directory@, chapter_order, None) == previous_approval(
                list@,
                i as int,
                directory@,
                chapter_order,
                opt_dependency(found),
            ),
        decreases list@.len() - i,
    {
        if list[i].regular {
            match &list[i].record {
                Err(error) => {
                    let mut text = concat3("invalid approval record ", directory, "/");
                    text.append(list[i].name.as_str());
                    text.append(": ");
                    text.append(error.as_str());
                    return Err(text);
                },
                Ok(record) => {
                    if record.chapter_order == chapter_order - 1 {
                        if found.is_some() {
                            return Err(
                                concat2(
                                    "multiple durable approvals exist for chapter order ",
                                    decimal_text(record.chapter_order as u64).as_str(),
                                ),
                            );
                        }
                        found = Some(
                            ChangesetDependency {
                                id: record.changeset_id.copy(),
                                approval_record_sha256: sha256_bytes(list[i].bytes.as_slice()),
                                chapter_order: record.chapter_order,
                            },
                        );
                    }
                },
            }
        }
        i += 1;
    }
    if let Some(dependency) = found {
        let ghost item = dependency@;
        out.push(dependency);
        assert(dependency_models(out@) =~= seq![item]);
    }
    Ok(out)
}

/// A revision keeps the frontmatter: revising twice gives what the last revision gives alone.
pub proof fn last_revision_counts(base: Seq<u8>, first: Seq<char>, second: Seq<char>)
    requires
        fence_at(base, 0),
        fence_from(base, 4) is Some,
    ensures
        with_body(with_body(base, first), second) == with_body(base, second),
{
    lemma_fence_from(base, 4);
    let p = fence_from(base, 4)->Some_0;
    let once = with_body(base, first);
    assert(once.len() >= p + 4);
    assert forall|k: int| 0 <= k < p + 4 implies once[k] == base[k] by {}
    assert(fence_at(once, 0));
    lemma_fence_same(base, once, 4, p);
    assert(once.take(p + 4) =~= base.take(p + 4));
}

proof fn lemma_fence_from(bytes: Seq<u8>, i: int)
    requires
        0 <= i,
    ensures
        fence_from(bytes, i) matches Some(p) ==> i <= p && fence_at(bytes, p),
    decreases bytes.len() - i,
{
    if i + 4 <= bytes.len() && !fence_at(bytes, i) {
        lemma_fence_from(bytes, i + 1);
    }
}

proof fn lemma_fence_same(a: Seq<u8>, b: Seq<u8>, i: int, p: int)
    requires
        0 <= i <= p,
        fence_from(a, i) == Some(p),
        p + 4 <= a.len(),
        p + 4 <= b.len(),
        forall|k: int| 0 <= k < p + 4 ==> #[trigger] a[k] == b[k],
    ensures
        fence_from(b, i) == Some(p),
    decreases p - i,
{
    if i < p {
        assert(!fence_at(a, i));
        assert(!fence_at(b, i));
        lemma_fence_same(a, b, i + 1, p);
    } else {
        assert(fence_at(a, i)) by {
            lemma_fence_from(a, i);
        }
    }
}

} // verus!
