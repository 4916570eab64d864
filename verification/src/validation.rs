//! Validation of changesets against what was read from a project.
use vstd::prelude::*;
use vstd::relations::injective_on;
use vstd::set_lib::{lemma_int_range, lemma_len_subset, lemma_map_size, set_int_range};
use vstd::string::StringExecFns;
use vstd::utf8::valid_utf8;
use crate::changeset::{approval_record_bytes, approval_record_relative_path, approval_validation_hash, calculate_validation_hash, change_material, dependency_models, material_digest, operation_models, record_bytes, record_material, record_path, refuse, refuse_at, refused, verdict, ApprovalRecord, ChangeModel, Changeset, ChangesetDependency, ChangesetState, DependencyModel, FileOperation, OperationKind, OperationModel, Refusal, ValidationError, ValidationErrorKind};
use crate::domain::{ids, is_id_of, is_known_entity_id, is_known_id, is_prefixed_uuid, EntityId, EntityKind};
use crate::hash::{digest_text, hash_entries, sha256_bytes, tree_digest};
use crate::paths::{all_plain, before_path, content_of, copy_bytes, copy_files, eq_ignore_case, files, find_file, is_absolute, is_absolute_path, is_under, lies_under, path_before, plain_path, remove_file, removed, same_ignoring_case, write_file, written, FileEntry, FileModel};
use crate::project::{config_of, markdown_of, parse_config, parse_markdown, Project};
use crate::text::{concat3, contains_text, decode, decoding_inverts_encoding, ends_with, has_prefix, has_suffix, has_text, is_digest, is_sha256, split, split_text, starts_with, str_eq, text_of, texts, utf8_error};
use crate::unicode::{fold_text, folded};

verus! {

/// What was found at the target of an operation.
#[derive(Debug)]
pub enum TargetStatus {
    /// Nothing is there.
    Absent,
    /// A regular file is there.
    Regular,
    /// A symbolic link or another special entry is there.
    Special,
    /// The directory of the target could not be opened.
    ParentUnavailable(String),
    /// The target could not be inspected.
    Unreadable(String),
}

/// The inspection of one target path.
#[derive(Debug)]
pub struct TargetReport {
    /// Project-relative target.
    pub path: String,
    /// What was found there.
    pub status: TargetStatus,
}

/// The reading of one candidate file: its content, or the message of the failure.
#[derive(Debug)]
pub struct CandidateReport {
    /// Project-relative candidate file.
    pub path: String,
    /// Content or failure.
    pub content: Result<Vec<u8>, String>,
}

/// One entry of the approval directory: its name, whether it is a regular file, its bytes and
/// the record they hold, or the message of the parse failure.
#[derive(Debug)]
pub struct ApprovalFile {
    /// File name.
    pub name: String,
    /// Whether the entry is a regular file.
    pub regular: bool,
    /// File content.
    pub bytes: Vec<u8>,
    /// Parsed content or failure.
    pub record: Result<ApprovalRecord, String>,
}

/// Everything that a validation reads from a project.
#[derive(Debug)]
pub struct ProjectSnapshot {
    /// Canon files in path order.
    pub canon: Vec<FileEntry>,
    /// Inspected targets.
    pub targets: Vec<TargetReport>,
    /// Candidate files.
    pub candidates: Vec<CandidateReport>,
    /// Entries of the approval directory in name order.
    pub approvals: Vec<ApprovalFile>,
}

/// The key under which paths that a file system may confuse collide.
pub open spec fn alias_key(path: Seq<char>) -> Seq<char> {
    folded(path)
}

/// The verdict on the form of a path: relative, with file names between its slashes.
pub open spec fn lexical_verdict(path: Seq<char>, kind: ValidationErrorKind) -> Result<(), Refusal> {
    if path.len() == 0 || is_absolute_path(path) {
        refused(kind, "path must be project-relative: "@ + path)
    } else if !all_plain(path) {
        refused(kind, "unsafe path: "@ + path)
    } else {
        Ok(())
    }
}

fn validate_lexical_path(path: &str, kind: ValidationErrorKind) -> (r: Result<(), ValidationError>)
    ensures
        verdict(r) == lexical_verdict(path@, kind),
{
    if path.is_empty() || is_absolute(path) {
        return refuse_at(kind, "path must be project-relative: ", path);
    }
    if !plain_path(path) {
        return refuse_at(kind, "unsafe path: ", path);
    }
    Ok(())
}

/// Pieces of a path that belong to version control, to runtime data or to local settings.
pub open spec fn is_outside_canon(pieces: Seq<Seq<char>>) -> bool {
    ||| exists|i: int| 0 <= i < pieces.len() && same_ignoring_case(#[trigger] pieces[i], ".git"@)
    ||| pieces.len() >= 2 && same_ignoring_case(pieces[0], ".phemius"@) && same_ignoring_case(
        pieces[1],
        "runtime"@,
    )
    ||| pieces.len() == 2 && same_ignoring_case(pieces[0], ".phemius"@) && same_ignoring_case(
        pieces[1],
        "local.toml"@,
    )
}

fn outside_canon(path: &str) -> (r: bool)
    ensures
        r == is_outside_canon(split(path@, '/')),
{
    let pieces = split_text(path, '/');
    let ghost s = split(path@, '/');
    assert(s == texts(pieces@));
    let mut i: usize = 0;
    while i < pieces.len()
        invariant
            i <= pieces@.len(),
            s == texts(pieces@),
            s == split(path@, '/'),
            forall|k: int| 0 <= k < i ==> !same_ignoring_case(#[trigger] s[k], ".git"@),
        decreases pieces@.len() - i,
    {
        assert(s[i as int] == pieces@[i as int]@);
        if eq_ignore_case(pieces[i].as_str(), ".git") {
            return true;
        }
        i += 1;
    }
    if pieces.len() >= 2 {
        assert(s[0] == pieces@[0]@ && s[1] == pieces@[1]@);
        if eq_ignore_case(pieces[0].as_str(), ".phemius") {
            return eq_ignore_case(pieces[1].as_str(), "runtime") || (pieces.len() == 2
                && eq_ignore_case(pieces[1].as_str(), "local.toml"));
        }
    }
    false
}

/// Whether a path lies in the directory of approval records.
pub open spec fn is_approval_path(path: Seq<char>) -> bool {
    alias_key(path) == ".phemius/records/approvals"@ || has_prefix(
        alias_key(path),
        ".phemius/records/approvals/"@,
    )
}

/// The verdict on a target path before anything is read.
pub open spec fn target_lexical_verdict(path: Seq<char>) -> Result<(), Refusal> {
    match lexical_verdict(path, ValidationErrorKind::InvalidPath) {
        Err(refusal) => Err(refusal),
        Ok(()) => {
            if is_outside_canon(split(path, '/')) {
                refused(
                    ValidationErrorKind::InvalidPath,
                    "target path is outside canon: "@ + path,
                )
            } else if is_approval_path(path) {
                refused(
                    ValidationErrorKind::ApprovalNamespace,
                    "approval records are controller-owned: "@ + path,
                )
            } else {
                Ok(())
            }
        },
    }
}

/// Checks the form of a target path and that it may hold canon.
pub fn validate_target_lexical(path: &str) -> (r: Result<(), ValidationError>)
    ensures
        verdict(r) == target_lexical_verdict(path@),
{
    match validate_lexical_path(path, ValidationErrorKind::InvalidPath) {
        Err(error) => {
            return Err(error);
        },
        Ok(()) => {},
    }
    if outside_canon(path) {
        return refuse_at(
            ValidationErrorKind::InvalidPath,
            "target path is outside canon: ",
            path,
        );
    }
    let key = fold_text(path);
    if str_eq(key.as_str(), ".phemius/records/approvals") || starts_with(
        key.as_str(),
        ".phemius/records/approvals/",
    ) {
        return refuse_at(
            ValidationErrorKind::ApprovalNamespace,
            "approval records are controller-owned: ",
            path,
        );
    }
    Ok(())
}

/// What the snapshot reports of a target; a target that was not inspected counts as absent.
pub open spec fn target_status(reports: Seq<TargetReport>, path: Seq<char>) -> TargetStatus
    decreases reports.len(),
{
    if reports.len() == 0 {
        TargetStatus::Absent
    } else if reports[0].path@ == path {
        reports[0].status
    } else {
        target_status(reports.skip(1), path)
    }
}

/// The verdict on the target of an operation.
pub open spec fn target_verdict(snapshot: ProjectSnapshot, path: Seq<char>) -> Result<(), Refusal> {
    match target_lexical_verdict(path) {
        Err(refusal) => Err(refusal),
        Ok(()) => match target_status(snapshot.targets@, path) {
            TargetStatus::Absent => Ok(()),
            TargetStatus::Regular => Ok(()),
            TargetStatus::Special => refused(
                ValidationErrorKind::InvalidPath,
                "target is a symlink or special entry: "@ + path,
            ),
            TargetStatus::ParentUnavailable(error) => refused(
                ValidationErrorKind::Io,
                "failed to open target parent "@ + path + ": "@ + error@,
            ),
            TargetStatus::Unreadable(error) => refused(
                ValidationErrorKind::Io,
                "failed to inspect target "@ + path + ": "@ + error@,
            ),
        },
    }
}

fn io_error(message: &str, path: &str, error: &str) -> (r: Result<(), ValidationError>)
    ensures
        verdict(r) == refused(ValidationErrorKind::Io, message@ + path@ + ": "@ + error@),
{
    let mut text = concat3(message, path, ": ");
    text.append(error);
    Err(ValidationError::new(ValidationErrorKind::Io, text))
}

fn validate_target_path(snapshot: &ProjectSnapshot, path: &str) -> (r: Result<(), ValidationError>)
    ensures
        verdict(r) == target_verdict(*snapshot, path@),
{
    match validate_target_lexical(path) {
        Err(error) => {
            return Err(error);
        },
        Ok(()) => {},
    }
    let reports = &snapshot.targets;
    let mut i: usize = 0;
    assert(reports@.skip(0) =~= reports@);
    while i < reports.len()
        invariant
            i <= reports@.len(),
            reports@ == snapshot.targets@,
            target_lexical_verdict(path@) is Ok,
            target_status(reports@, path@) == target_status(reports@.skip(i as int), path@),
        decreases reports@.len() - i,
    {
        assert(reports@.skip(i as int)[0] == reports@[i as int]);
        assert(reports@.skip(i as int).skip(1) =~= reports@.skip(i + 1));
        if str_eq(reports[i].path.as_str(), path) {
            return match &reports[i].status {
                TargetStatus::Absent => Ok(()),
                TargetStatus::Regular => Ok(()),
                TargetStatus::Special => refuse_at(
                    ValidationErrorKind::InvalidPath,
                    "target is a symlink or special entry: ",
                    path,
                ),
                TargetStatus::ParentUnavailable(error) => io_error(
                    "failed to open target parent ",
                    path,
                    error.as_str(),
                ),
                TargetStatus::Unreadable(error) => io_error(
                    "failed to inspect target ",
                    path,
                    error.as_str(),
                ),
            };
        }
        i += 1;
    }
    Ok(())
}

/// The directory that holds the candidate files of a changeset.
pub open spec fn candidate_root(changeset_id: Seq<char>) -> Seq<char> {
    ".phemius/runtime/candidates/"@ + changeset_id
}

/// The content of a candidate file, or the message of the failure to read it.
pub open spec fn candidate_content(reports: Seq<CandidateReport>, path: Seq<char>) -> Result<
    Seq<u8>,
    Seq<char>,
>
    decreases reports.len(),
{
    if reports.len() == 0 {
        Err("failed to read regular file "@ + path + ": not found"@)
    } else if reports[0].path@ == path {
        match reports[0].content {
            Ok(bytes) => Ok(bytes@),
            Err(message) => Err(message@),
        }
    } else {
        candidate_content(reports.skip(1), path)
    }
}

/// The verdict on the form and owner of a candidate path.
pub open spec fn candidate_lexical_verdict(changeset_id: Seq<char>, path: Seq<char>) -> Result<
    (),
    Refusal,
> {
    match lexical_verdict(path, ValidationErrorKind::CandidatePath) {
        Err(refusal) => Err(refusal),
        Ok(()) => {
            if !lies_under(path, candidate_root(changeset_id)) {
                refused(
                    ValidationErrorKind::CandidatePath,
                    "candidate "@ + path + " is not owned by changeset "@ + changeset_id,
                )
            } else {
                Ok(())
            }
        },
    }
}

/// Checks the form of a candidate path and that it lies in the directory of its changeset.
pub fn validate_candidate_lexical(changeset_id: &EntityId, path: &str) -> (r: Result<
    (),
    ValidationError,
>)
    ensures
        verdict(r) == candidate_lexical_verdict(changeset_id@, path@),
{
    match validate_lexical_path(path, ValidationErrorKind::CandidatePath) {
        Err(error) => {
            return Err(error);
        },
        Ok(()) => {},
    }
    let mut root = ".phemius/runtime/candidates/".to_owned();
    root.append(changeset_id.as_str());
    if !is_under(path, root.as_str()) {
        let mut message = concat3("candidate ", path, " is not owned by changeset ");
        message.append(changeset_id.as_str());
        return Err(ValidationError::new(ValidationErrorKind::CandidatePath, message));
    }
    Ok(())
}

/// The content of a changeset's candidate file, or the refusal.
pub open spec fn candidate_verdict(
    snapshot: ProjectSnapshot,
    changeset_id: Seq<char>,
    path: Seq<char>,
) -> Result<Seq<u8>, Refusal> {
    match candidate_lexical_verdict(changeset_id, path) {
        Err(refusal) => Err(refusal),
        Ok(()) => match candidate_content(snapshot.candidates@, path) {
            Ok(bytes) => Ok(bytes),
            Err(message) => Err((ValidationErrorKind::CandidatePath, message)),
        },
    }
}

/// A result that holds bytes, by its view.
pub open spec fn bytes_verdict(r: Result<Vec<u8>, ValidationError>) -> Result<Seq<u8>, Refusal> {
    match r {
        Ok(bytes) => Ok(bytes@),
        Err(error) => Err(error@),
    }
}

fn read_candidate(snapshot: &ProjectSnapshot, changeset_id: &EntityId, path: &str) -> (r: Result<
    Vec<u8>,
    ValidationError,
>)
    ensures
        bytes_verdict(r) == candidate_verdict(*snapshot, changeset_id@, path@),
{
    match validate_candidate_lexical(changeset_id, path) {
        Err(error) => {
            return Err(error);
        },
        Ok(()) => {},
    }
    let reports = &snapshot.candidates;
    let mut i: usize = 0;
    assert(reports@.skip(0) =~= reports@);
    while i < reports.len()
        invariant
            i <= reports@.len(),
            reports@ == snapshot.candidates@,
            candidate_lexical_verdict(changeset_id@, path@) is Ok,
            candidate_content(reports@, path@) == candidate_content(reports@.skip(i as int), path@),
        decreases reports@.len() - i,
    {
        assert(reports@.skip(i as int)[0] == reports@[i as int]);
        assert(reports@.skip(i as int).skip(1) =~= reports@.skip(i + 1));
        if str_eq(reports[i].path.as_str(), path) {
            return match &reports[i].content {
                Ok(bytes) => Ok(copy_bytes(bytes.as_slice())),
                Err(message) => Err(
                    ValidationError::new(ValidationErrorKind::CandidatePath, message.clone()),
                ),
            };
        }
        i += 1;
    }
    let message = concat3("failed to read regular file ", path, ": not found");
    Err(ValidationError::new(ValidationErrorKind::CandidatePath, message))
}

/// A file placed into a list ordered by path, behind those with the same path.
pub open spec fn placed(list: Seq<FileModel>, file: FileModel) -> Seq<FileModel>
    decreases list.len(),
{
    if list.len() == 0 {
        seq![file]
    } else if path_before(file.0, list[0].0) {
        seq![file] + list
    } else {
        seq![list[0]] + placed(list.skip(1), file)
    }
}

proof fn lemma_placed_step(list: Seq<FileModel>, file: FileModel, k: int)
    requires
        0 <= k <= list.len(),
        forall|j: int| 0 <= j < k ==> !path_before(file.0, (#[trigger] list[j]).0),
    ensures
        placed(list, file) == list.take(k) + placed(list.skip(k), file),
    decreases k,
{
    if k == 0 {
        assert(list.skip(0) =~= list);
        assert(list.take(0) + placed(list.skip(0), file) =~= placed(list, file));
    } else {
        let rest = list.skip(1);
        assert forall|j: int| 0 <= j < k - 1 implies !path_before(
            file.0,
            (#[trigger] rest[j]).0,
        ) by {
            assert(rest[j] == list[j + 1]);
        }
        lemma_placed_step(rest, file, k - 1);
        assert(rest.skip(k - 1) =~= list.skip(k));
        assert(!path_before(file.0, list[0].0));
        assert(seq![list[0]] + (rest.take(k - 1) + placed(list.skip(k), file)) =~= list.take(k)
            + placed(list.skip(k), file));
    }
}

fn place_file(list: &mut Vec<FileEntry>, file: FileEntry)
    ensures
        files(final(list)@) == placed(files(old(list)@), file@),
{
    let ghost all = files(list@);
    let mut i: usize = 0;
    while i < list.len() && !before_path(file.path.as_str(), list[i].path.as_str())
        invariant
            i <= list@.len(),
            list@ == old(list)@,
            all == files(list@),
            forall|j: int| 0 <= j < i ==> !path_before(file.path@, (#[trigger] all[j]).0),
        decreases list@.len() - i,
    {
        assert(all[i as int] == list@[i as int]@);
        i += 1;
    }
    proof {
        lemma_placed_step(all, file@, i as int);
        if i < list@.len() {
            assert(all.skip(i as int)[0] == list@[i as int]@);
            assert(placed(all.skip(i as int), file@) == seq![file@] + all.skip(i as int));
        } else {
            assert(all.skip(i as int) =~= Seq::<FileModel>::empty());
        }
    }
    let ghost model = file@;
    list.insert(i, file);
    assert(files(list@) =~= all.take(i as int) + (seq![model] + all.skip(i as int)));
}

/// The candidate files of a changeset in path order, from operation `i` on.
pub open spec fn candidate_files(
    snapshot: ProjectSnapshot,
    change: ChangeModel,
    i: int,
    list: Seq<FileModel>,
) -> Result<Seq<FileModel>, Refusal>
    decreases change.operations.len() - i,
{
    if i < 0 || i >= change.operations.len() {
        Ok(list)
    } else {
        match change.operations[i].candidate_path {
            None => candidate_files(snapshot, change, i + 1, list),
            Some(path) => match candidate_verdict(snapshot, change.id, path) {
                Err(refusal) => Err(refusal),
                Ok(bytes) => candidate_files(snapshot, change, i + 1, placed(list, (path, bytes))),
            },
        }
    }
}

/// The digest of a changeset's candidate files.
pub open spec fn candidate_digest(snapshot: ProjectSnapshot, change: ChangeModel) -> Result<
    Seq<char>,
    Refusal,
> {
    match candidate_files(snapshot, change, 0, Seq::empty()) {
        Err(refusal) => Err(refusal),
        Ok(list) => Ok(tree_digest(list)),
    }
}

/// A result that holds a text, by its view.
pub open spec fn text_verdict(r: Result<String, ValidationError>) -> Result<Seq<char>, Refusal> {
    match r {
        Ok(text) => Ok(text@),
        Err(error) => Err(error@),
    }
}

/// Returns the digest of a changeset's candidate files.
pub fn calculate_candidate_hash(snapshot: &ProjectSnapshot, change: &Changeset) -> (r: Result<
    String,
    ValidationError,
>)
    ensures
        text_verdict(r) == candidate_digest(*snapshot, change@),
{
    let mut list: Vec<FileEntry> = Vec::new();
    let ghost start = candidate_files(*snapshot, change@, 0, Seq::empty());
    assert(files(list@) =~= Seq::<FileModel>::empty());
    let mut i: usize = 0;
    while i < change.operations.len()
        invariant
            i <= change.operations@.len(),
            start == candidate_files(*snapshot, change@, 0, Seq::empty()),
            start == candidate_files(*snapshot, change@, i as int, files(list@)),
        decreases change.operations@.len() - i,
    {
        assert(change@.operations[i as int] == change.operations@[i as int]@);
        match &change.operations[i].candidate_path {
            None => {},
            Some(path) => match read_candidate(snapshot, &change.id, path.as_str()) {
                Err(error) => {
                    return Err(error);
                },
                Ok(bytes) => {
                    place_file(&mut list, FileEntry { path: path.clone(), bytes });
                },
            },
        }
        i += 1;
    }
    Ok(hash_entries(list.as_slice()))
}

/// Returns the digest of the canon.
pub fn canon_root_hash(snapshot: &ProjectSnapshot) -> (r: String)
    ensures
        r@ == tree_digest(files(snapshot.canon@)),
{
    hash_entries(snapshot.canon.as_slice())
}

/// The canon after the operations of a changeset from `i` on.
pub open spec fn projected(
    snapshot: ProjectSnapshot,
    change: ChangeModel,
    i: int,
    tree: Seq<FileModel>,
) -> Result<Seq<FileModel>, Refusal>
    decreases change.operations.len() - i,
{
    if i < 0 || i >= change.operations.len() {
        Ok(tree)
    } else {
        let op = change.operations[i];
        match target_verdict(snapshot, op.path) {
            Err(refusal) => Err(refusal),
            Ok(()) => match op.kind {
                OperationKind::Delete => projected(snapshot, change, i + 1, removed(tree, op.path)),
                _ => match op.candidate_path {
                    None => Err(
                        (
                            ValidationErrorKind::InvalidOperation,
                            "create and replace operations require a candidate file"@,
                        ),
                    ),
                    Some(path) => match candidate_verdict(snapshot, change.id, path) {
                        Err(refusal) => Err(refusal),
                        Ok(bytes) => projected(
                            snapshot,
                            change,
                            i + 1,
                            written(tree, op.path, bytes),
                        ),
                    },
                },
            },
        }
    }
}

/// The canon after all operations of a changeset.
pub open spec fn projected_content(snapshot: ProjectSnapshot, change: ChangeModel) -> Result<
    Seq<FileModel>,
    Refusal,
> {
    projected(snapshot, change, 0, files(snapshot.canon@))
}

/// A result that holds a file tree, by its view.
pub open spec fn tree_verdict(r: Result<Vec<FileEntry>, ValidationError>) -> Result<
    Seq<FileModel>,
    Refusal,
> {
    match r {
        Ok(tree) => Ok(files(tree@)),
        Err(error) => Err(error@),
    }
}

/// Returns the canon after all operations of a changeset.
pub fn project_content(snapshot: &ProjectSnapshot, change: &Changeset) -> (r: Result<
    Vec<FileEntry>,
    ValidationError,
>)
    ensures
        tree_verdict(r) == projected_content(*snapshot, change@),
{
    let mut tree = copy_files(snapshot.canon.as_slice());
    let mut i: usize = 0;
    while i < change.operations.len()
        invariant
            i <= change.operations@.len(),
            projected_content(*snapshot, change@) == projected(
                *snapshot,
                change@,
                i as int,
                files(tree@),
            ),
        decreases change.operations@.len() - i,
    {
        let op = &change.operations[i];
        assert(change@.operations[i as int] == op@);
        match validate_target_path(snapshot, op.path.as_str()) {
            Err(error) => {
                return Err(error);
            },
            Ok(()) => {},
        }
        match op.kind {
            OperationKind::Delete => {
                remove_file(&mut tree, op.path.as_str());
            },
            _ => match &op.candidate_path {
                None => {
                    return refuse(
                        ValidationErrorKind::InvalidOperation,
                        "create and replace operations require a candidate file",
                    );
                },
                Some(path) => match read_candidate(snapshot, &change.id, path.as_str()) {
                    Err(error) => {
                        return Err(error);
                    },
                    Ok(bytes) => {
                        write_file(&mut tree, op.path.clone(), bytes);
                    },
                },
            },
        }
        i += 1;
    }
    Ok(tree)
}

/// The digest of the canon after the operations of a changeset.
pub open spec fn content_digest(snapshot: ProjectSnapshot, change: ChangeModel) -> Result<
    Seq<char>,
    Refusal,
> {
    match projected_content(snapshot, change) {
        Err(refusal) => Err(refusal),
        Ok(tree) => Ok(tree_digest(tree)),
    }
}

/// Returns the digest of the canon after the operations of a changeset.
pub fn content_result_hash(snapshot: &ProjectSnapshot, change: &Changeset) -> (r: Result<
    String,
    ValidationError,
>)
    ensures
        text_verdict(r) == content_digest(*snapshot, change@),
{
    match project_content(snapshot, change) {
        Err(error) => Err(error),
        Ok(tree) => Ok(hash_entries(tree.as_slice())),
    }
}

/// The digest of a tree after the approval record of a changeset was written into it.
pub open spec fn approved_digest(change: ChangeModel, tree: Seq<FileModel>) -> Result<
    Seq<char>,
    Refusal,
> {
    match record_bytes(change) {
        Err(refusal) => Err(refusal),
        Ok(bytes) => Ok(tree_digest(written(tree, record_path(change.id), bytes))),
    }
}

/// The digest of the canon after the operations and the approval record of a changeset.
pub open spec fn result_digest(snapshot: ProjectSnapshot, change: ChangeModel) -> Result<
    Seq<char>,
    Refusal,
> {
    match projected_content(snapshot, change) {
        Err(refusal) => Err(refusal),
        Ok(tree) => approved_digest(change, tree),
    }
}

fn approved_hash(change: &Changeset, tree: Vec<FileEntry>) -> (r: Result<String, ValidationError>)
    ensures
        text_verdict(r) == approved_digest(change@, files(tree@)),
{
    match approval_record_bytes(change) {
        Err(error) => Err(error),
        Ok(bytes) => {
            let mut entries = tree;
            write_file(&mut entries, approval_record_relative_path(&change.id), bytes);
            Ok(hash_entries(entries.as_slice()))
        },
    }
}

/// Returns the digest of the canon after the operations and the approval record of a changeset.
pub fn projected_root_hash(snapshot: &ProjectSnapshot, change: &Changeset) -> (r: Result<
    String,
    ValidationError,
>)
    ensures
        text_verdict(r) == result_digest(*snapshot, change@),
{
    match project_content(snapshot, change) {
        Err(error) => Err(error),
        Ok(tree) => approved_hash(change, tree),
    }
}

/// What kind of entry a directory holds.
#[derive(Clone, Copy, Debug, PartialEq, Eq, Structural)]
pub enum EntryKind {
    /// A regular file.
    File,
    /// A directory.
    Directory,
    /// A symbolic link.
    Symlink,
    /// Anything else.
    Special,
}

/// What the collection of canon files does with a directory entry.
#[derive(Debug)]
pub enum WalkStep {
    /// The entry is not canon.
    Skip,
    /// The directory at the path is collected.
    Descend(String),
    /// The file at the path is read.
    Read(String),
}

/// The step by its view: nothing, a directory or a file.
pub enum WalkModel {
    Skip,
    Descend(Seq<char>),
    Read(Seq<char>),
}

impl View for WalkStep {
    type V = WalkModel;

    open spec fn view(&self) -> WalkModel {
        match self {
            WalkStep::Skip => WalkModel::Skip,
            WalkStep::Descend(path) => WalkModel::Descend(path@),
            WalkStep::Read(path) => WalkModel::Read(path@),
        }
    }
}

/// The path of an entry of a directory.
pub open spec fn child_path(relative: Seq<char>, name: Seq<char>) -> Seq<char> {
    if relative.len() == 0 {
        name
    } else {
        relative + "/"@ + name
    }
}

/// What is done with an entry of a project directory.
pub open spec fn walk_verdict(relative: Seq<char>, name: Seq<char>, kind: EntryKind) -> Result<
    WalkModel,
    Refusal,
> {
    let path = child_path(relative, name);
    if !all_plain(path) {
        Err((ValidationErrorKind::InvalidPath, "unsafe path: "@ + path))
    } else if is_outside_canon(split(path, '/')) {
        Ok(WalkModel::Skip)
    } else {
        match kind {
            EntryKind::Symlink => Err(
                (ValidationErrorKind::InvalidPath, "canon contains a symlink: "@ + path),
            ),
            EntryKind::Directory => Ok(WalkModel::Descend(path)),
            EntryKind::File => Ok(WalkModel::Read(path)),
            EntryKind::Special => Err(
                (ValidationErrorKind::InvalidPath, "canon contains a special file: "@ + path),
            ),
        }
    }
}

/// Decides what the collection of canon files does with an entry of the directory `relative`.
pub fn walk_entry(relative: &str, name: &str, kind: EntryKind) -> (r: Result<
    WalkStep,
    ValidationError,
>)
    ensures
        match r {
            Ok(step) => walk_verdict(relative@, name@, kind) == Ok::<WalkModel, Refusal>(step@),
            Err(error) => walk_verdict(relative@, name@, kind) == Err::<WalkModel, Refusal>(
                error@,
            ),
        },
{
    let path = if relative.is_empty() {
        name.to_owned()
    } else {
        concat3(relative, "/", name)
    };
    if !plain_path(path.as_str()) {
        return refuse_at(ValidationErrorKind::InvalidPath, "unsafe path: ", path.as_str());
    }
    if outside_canon(path.as_str()) {
        return Ok(WalkStep::Skip);
    }
    match kind {
        EntryKind::Symlink => refuse_at(
            ValidationErrorKind::InvalidPath,
            "canon contains a symlink: ",
            path.as_str(),
        ),
        EntryKind::Directory => Ok(WalkStep::Descend(path)),
        EntryKind::File => Ok(WalkStep::Read(path)),
        EntryKind::Special => refuse_at(
            ValidationErrorKind::InvalidPath,
            "canon contains a special file: ",
            path.as_str(),
        ),
    }
}

/// The path of an entry of the approval directory.
pub open spec fn approval_entry_path(name: Seq<char>) -> Seq<char> {
    ".phemius/records/approvals/"@ + name
}

/// Whether an approval record is a sound proof: its file name, identifier and digests have the
/// right form, and its validation hash is that of its contents.
pub open spec fn is_sound_record(name: Seq<char>, record: ApprovalRecord) -> bool {
    &&& name == record.changeset_id@ + ".json"@
    &&& is_id_of(record.changeset_id@, EntityKind::Changeset)
    &&& record.chapter_order != 0
    &&& is_digest(record.base_root_hash@)
    &&& is_digest(record.candidate_hash@)
    &&& is_digest(record.operations_hash@)
    &&& is_digest(record.content_result_hash@)
    &&& is_digest(record.validation_hash@)
    &&& material_digest(record_material(record)) == record.validation_hash@
}

/// The chapter order that an entry of the approval directory claims.
pub open spec fn claims_order(file: ApprovalFile, order: int) -> bool {
    file.record is Ok && file.record->Ok_0.chapter_order == order
}

/// Whether an entry before `i` claims an order.
pub open spec fn order_taken(list: Seq<ApprovalFile>, i: int, order: int) -> bool {
    exists|j: int| 0 <= j < i && claims_order(#[trigger] list[j], order)
}

/// The verdict on the entries of the approval directory, each by itself, from `i` on.
pub open spec fn records_verdict(list: Seq<ApprovalFile>, i: int) -> Result<(), Refusal>
    decreases list.len() - i,
{
    if i < 0 || i >= list.len() {
        Ok(())
    } else if !list[i].regular {
        refused(
            ValidationErrorKind::DependencyHash,
            "unknown approval entry: "@ + approval_entry_path(list[i].name@),
        )
    } else {
        match list[i].record {
            Err(message) => refused(
                ValidationErrorKind::DependencyHash,
                "invalid approval record "@ + approval_entry_path(list[i].name@) + ": "@
                    + message@,
            ),
            Ok(record) => {
                if !is_sound_record(list[i].name@, record) || order_taken(
                    list,
                    i,
                    record.chapter_order as int,
                ) {
                    refused(
                        ValidationErrorKind::DependencyHash,
                        "invalid approval proof: "@ + approval_entry_path(list[i].name@),
                    )
                } else {
                    records_verdict(list, i + 1)
                }
            },
        }
    }
}

fn sound_record(name: &str, record: &ApprovalRecord) -> (r: bool)
    ensures
        r == is_sound_record(name@, *record),
{
    let mut expected = record.changeset_id.as_str().to_owned();
    expected.append(".json");
    str_eq(name, expected.as_str()) && is_prefixed_uuid(
        record.changeset_id.as_str(),
        EntityKind::Changeset,
    ) && record.chapter_order != 0 && is_sha256(record.base_root_hash.as_str()) && is_sha256(
        record.candidate_hash.as_str(),
    ) && is_sha256(record.operations_hash.as_str()) && is_sha256(
        record.content_result_hash.as_str(),
    ) && is_sha256(record.validation_hash.as_str()) && approval_validation_hash(record)
        == record.validation_hash
}

fn find_order(list: &[ApprovalFile], end: usize, order: u64) -> (r: Option<usize>)
    requires
        end <= list@.len(),
    ensures
        match r {
            Some(i) => i < end && claims_order(list@[i as int], order as int) && order_holder(
                list@,
                order as int,
                0,
            ) == Some(i as int),
            None => !order_taken(list@, end as int, order as int) && (end == list@.len()
                ==> order_holder(list@, order as int, 0) is None),
        },
{
    let mut i: usize = 0;
    while i < end
        invariant
            i <= end <= list@.len(),
            order_holder(list@, order as int, 0) == order_holder(list@, order as int, i as int),
            forall|j: int| 0 <= j < i ==> !claims_order(#[trigger] list@[j], order as int),
        decreases end - i,
    {
        if let Ok(record) = &list[i].record {
            if record.chapter_order as u64 == order {
                return Some(i);
            }
        }
        i += 1;
    }
    None
}

fn validate_records(list: &[ApprovalFile]) -> (r: Result<(), ValidationError>)
    ensures
        verdict(r) == records_verdict(list@, 0),
{
    let mut i: usize = 0;
    while i < list.len()
        invariant
            i <= list@.len(),
            records_verdict(list@, 0) == records_verdict(list@, i as int),
        decreases list@.len() - i,
    {
        let path = concat3(".phemius/records/approvals/", list[i].name.as_str(), "");
        proof {
            reveal_strlit("");
            assert(path@ =~= approval_entry_path(list@[i as int].name@));
        }
        if !list[i].regular {
            return refuse_at(
                ValidationErrorKind::DependencyHash,
                "unknown approval entry: ",
                path.as_str(),
            );
        }
        match &list[i].record {
            Err(message) => {
                let mut text = concat3("invalid approval record ", path.as_str(), ": ");
                text.append(message.as_str());
                return Err(ValidationError::new(ValidationErrorKind::DependencyHash, text));
            },
            Ok(record) => {
                let taken = find_order(list, i, record.chapter_order as u64).is_some();
                if !sound_record(list[i].name.as_str(), record) || taken {
                    return refuse_at(
                        ValidationErrorKind::DependencyHash,
                        "invalid approval proof: ",
                        path.as_str(),
                    );
                }
            },
        }
        i += 1;
    }
    Ok(())
}

/// The first entry at or after `i` that claims an order.
pub open spec fn order_holder(list: Seq<ApprovalFile>, order: int, i: int) -> Option<int>
    decreases list.len() - i,
{
    if i < 0 || i >= list.len() {
        None
    } else if claims_order(list[i], order) {
        Some(i)
    } else {
        order_holder(list, order, i + 1)
    }
}

/// An approval as a dependency names it: identifier, digest of the record, chapter order.
pub open spec fn approval_model(file: ApprovalFile) -> DependencyModel {
    (
        file.record->Ok_0.changeset_id@,
        digest_text(file.bytes@),
        file.record->Ok_0.chapter_order,
    )
}

/// The approval chain from `order` on, given the approvals before it: every order up to the
/// number of records is taken, the first record has no dependencies, and every later one names
/// its predecessor and nothing but earlier approvals.
pub open spec fn chain_from(list: Seq<ApprovalFile>, order: int, chain: Seq<DependencyModel>) -> Result<
    Seq<DependencyModel>,
    Refusal,
>
    decreases list.len() - order + 1,
{
    if order < 1 || order > list.len() {
        Ok(chain)
    } else {
        match order_holder(list, order, 0) {
            None => Err(
                (
                    ValidationErrorKind::DependencyOrder,
                    "approval chain contains a chapter-order gap"@,
                ),
            ),
            Some(i) => {
                let deps = dependency_models(list[i].record->Ok_0.dependencies@);
                if order == 1 && deps.len() != 0 {
                    Err(
                        (
                            ValidationErrorKind::DependencyOrder,
                            "first approval record has dependencies"@,
                        ),
                    )
                } else if order > 1 && !deps.contains(chain.last()) {
                    Err(
                        (
                            ValidationErrorKind::DependencyOrder,
                            "approval chain does not reference its previous head"@,
                        ),
                    )
                } else if order > 1 && !all_among(deps, chain) {
                    Err(
                        (
                            ValidationErrorKind::DependencyHash,
                            "approval record has an invalid dependency proof"@,
                        ),
                    )
                } else {
                    chain_from(list, order + 1, chain.push(approval_model(list[i])))
                }
            },
        }
    }
}

/// Whether every dependency is one of the given approvals.
pub open spec fn all_among(deps: Seq<DependencyModel>, chain: Seq<DependencyModel>) -> bool {
    forall|i: int| 0 <= i < deps.len() ==> chain.contains(#[trigger] deps[i])
}

/// The durable approval chain.
pub open spec fn approval_chain(list: Seq<ApprovalFile>) -> Result<Seq<DependencyModel>, Refusal> {
    match records_verdict(list, 0) {
        Err(refusal) => Err(refusal),
        Ok(()) => chain_from(list, 1, Seq::empty()),
    }
}

fn same_dependency(a: &ChangesetDependency, b: &ChangesetDependency) -> (r: bool)
    ensures
        r == (a@ == b@),
{
    a.id.same(&b.id) && a.approval_record_sha256 == b.approval_record_sha256 && a.chapter_order
        == b.chapter_order
}

fn contains_dependency(list: &[ChangesetDependency], item: &ChangesetDependency) -> (r: bool)
    ensures
        r == dependency_models(list@).contains(item@),
{
    let ghost models = dependency_models(list@);
    let mut i: usize = 0;
    while i < list.len()
        invariant
            i <= list@.len(),
            models == dependency_models(list@),
            forall|k: int| 0 <= k < i ==> #[trigger] models[k] != item@,
        decreases list@.len() - i,
    {
        assert(models[i as int] == list@[i as int]@);
        if same_dependency(&list[i], item) {
            assert(models.contains(item@));
            return true;
        }
        i += 1;
    }
    false
}

fn all_contained(deps: &[ChangesetDependency], chain: &[ChangesetDependency]) -> (r: bool)
    ensures
        r == all_among(dependency_models(deps@), dependency_models(chain@)),
{
    let ghost models = dependency_models(deps@);
    let mut i: usize = 0;
    while i < deps.len()
        invariant
            i <= deps@.len(),
            models == dependency_models(deps@),
            forall|k: int|
                0 <= k < i ==> dependency_models(chain@).contains(#[trigger] models[k]),
        decreases deps@.len() - i,
    {
        assert(models[i as int] == deps@[i as int]@);
        if !contains_dependency(chain, &deps[i]) {
            return false;
        }
        i += 1;
    }
    true
}

/// Reads the durable approval chain out of the entries of the approval directory.
pub fn scan_approval_records(list: &[ApprovalFile]) -> (r: Result<
    Vec<ChangesetDependency>,
    ValidationError,
>)
    ensures
        match r {
            Ok(chain) => approval_chain(list@) == Ok::<Seq<DependencyModel>, Refusal>(
                dependency_models(chain@),
            ),
            Err(error) => approval_chain(list@) == Err::<Seq<DependencyModel>, Refusal>(error@),
        },
{
    match validate_records(list) {
        Err(error) => {
            return Err(error);
        },
        Ok(()) => {},
    }
    let n: usize = list.len();
    let mut chain: Vec<ChangesetDependency> = Vec::new();
    assert(dependency_models(chain@) =~= Seq::<DependencyModel>::empty());
    while chain.len() < n
        invariant
            n == list@.len(),
            chain@.len() <= n,
            records_verdict(list@, 0) is Ok,
            approval_chain(list@) == chain_from(
                list@,
                chain@.len() as int + 1,
                dependency_models(chain@),
            ),
        decreases n - chain@.len(),
    {
        let length: usize = chain.len();
        let ghost models = dependency_models(chain@);
        match find_order(list, n, length as u64 + 1) {
            None => {
                return refuse(
                    ValidationErrorKind::DependencyOrder,
                    "approval chain contains a chapter-order gap",
                );
            },
            Some(i) => if let Ok(record) = &list[i].record {
                if length == 0 {
                    if record.dependencies.len() != 0 {
                        return refuse(
                            ValidationErrorKind::DependencyOrder,
                            "first approval record has dependencies",
                        );
                    }
                } else {
                    assert(models.last() == chain@[length - 1]@);
                    if !contains_dependency(record.dependencies.as_slice(), &chain[length - 1]) {
                        return refuse(
                            ValidationErrorKind::DependencyOrder,
                            "approval chain does not reference its previous head",
                        );
                    }
                    if !all_contained(record.dependencies.as_slice(), chain.as_slice()) {
                        return refuse(
                            ValidationErrorKind::DependencyHash,
                            "approval record has an invalid dependency proof",
                        );
                    }
                }
                let approval = ChangesetDependency {
                    id: record.changeset_id.copy(),
                    approval_record_sha256: sha256_bytes(list[i].bytes.as_slice()),
                    chapter_order: record.chapter_order,
                };
                chain.push(approval);
                assert(dependency_models(chain@) =~= models.push(approval_model(list@[i as int])));
            } else {
                proof {
                    assert(false);
                }
            },
        }
    }
    Ok(chain)
}

/// The approval of a changeset in a chain.
pub open spec fn approval_of(chain: Seq<DependencyModel>, id: Seq<char>, i: int) -> Option<
    DependencyModel,
>
    decreases chain.len() - i,
{
    if i < 0 || i >= chain.len() {
        None
    } else if chain[i].0 == id {
        Some(chain[i])
    } else {
        approval_of(chain, id, i + 1)
    }
}

/// The verdict on the dependencies of a changeset from `i` on: no duplicates, all of them
/// earlier, and each durably approved with the proof that the changeset names.
pub open spec fn dependencies_verdict(
    chain: Seq<DependencyModel>,
    deps: Seq<DependencyModel>,
    order: u32,
    i: int,
) -> Result<(), Refusal>
    decreases deps.len() - i,
{
    if i < 0 || i >= deps.len() {
        Ok(())
    } else if exists|j: int| 0 <= j < i && (#[trigger] deps[j]).0 == deps[i].0 {
        refused(ValidationErrorKind::DependencyOrder, "changeset has duplicate dependencies"@)
    } else if deps[i].2 >= order {
        refused(
            ValidationErrorKind::DependencyOrder,
            "dependency is not earlier than the changeset"@,
        )
    } else {
        match approval_of(chain, deps[i].0, 0) {
            None => refused(
                ValidationErrorKind::DependencyHash,
                "dependency "@ + deps[i].0 + " is not durably approved"@,
            ),
            Some(approval) => {
                if approval.1 != deps[i].1 || approval.2 != deps[i].2 {
                    refused(
                        ValidationErrorKind::DependencyHash,
                        "dependency "@ + deps[i].0 + " approval proof changed"@,
                    )
                } else {
                    dependencies_verdict(chain, deps, order, i + 1)
                }
            },
        }
    }
}

/// Whether a changeset extends the head of the approval chain.
pub open spec fn extends_head(chain: Seq<DependencyModel>, change: ChangeModel) -> bool {
    if chain.len() == 0 {
        change.chapter_order == 1 && change.parent_changeset_id is None
            && change.dependencies.len() == 0
    } else {
        let head = chain.last();
        &&& change.chapter_order == (if head.2 == u32::MAX {
            0
        } else {
            head.2 + 1
        })
        &&& change.parent_changeset_id == Some(head.0)
        &&& change.dependencies.contains(head)
    }
}

/// The verdict on the place of a changeset in the approval order.
pub open spec fn order_verdict(chain: Seq<DependencyModel>, change: ChangeModel) -> Result<
    (),
    Refusal,
> {
    if approval_of(chain, change.id, 0) is Some {
        refused(
            ValidationErrorKind::InvalidOperation,
            "changeset already has an approval record"@,
        )
    } else {
        match dependencies_verdict(chain, change.dependencies, change.chapter_order, 0) {
            Err(refusal) => Err(refusal),
            Ok(()) => {
                if extends_head(chain, change) {
                    Ok(())
                } else {
                    refused(
                        ValidationErrorKind::DependencyOrder,
                        "changeset does not extend the durable approval chain head"@,
                    )
                }
            },
        }
    }
}

fn find_approval<'a>(chain: &'a [ChangesetDependency], id: &EntityId) -> (r: Option<
    &'a ChangesetDependency,
>)
    ensures
        match r {
            Some(approval) => approval_of(dependency_models(chain@), id@, 0) == Some(approval@),
            None => approval_of(dependency_models(chain@), id@, 0) is None,
        },
{
    let ghost models = dependency_models(chain@);
    let mut i: usize = 0;
    while i < chain.len()
        invariant
            i <= chain@.len(),
            models == dependency_models(chain@),
            approval_of(models, id@, 0) == approval_of(models, id@, i as int),
        decreases chain@.len() - i,
    {
        assert(models[i as int] == chain@[i as int]@);
        if chain[i].id.same(id) {
            return Some(&chain[i]);
        }
        i += 1;
    }
    None
}

fn names_earlier(deps: &[ChangesetDependency], end: usize) -> (r: bool)
    requires
        end < deps@.len(),
    ensures
        r == exists|j: int|
            0 <= j < end && (#[trigger] dependency_models(deps@)[j]).0 == dependency_models(
                deps@,
            )[end as int].0,
{
    let ghost models = dependency_models(deps@);
    let mut i: usize = 0;
    while i < end
        invariant
            i <= end < deps@.len(),
            models == dependency_models(deps@),
            forall|j: int| 0 <= j < i ==> (#[trigger] models[j]).0 != models[end as int].0,
        decreases end - i,
    {
        assert(models[i as int] == deps@[i as int]@);
        if deps[i].id.same(&deps[end].id) {
            return true;
        }
        i += 1;
    }
    false
}

/// Checks the place of a changeset in the approval order.
pub fn validate_approval_order(chain: &[ChangesetDependency], change: &Changeset) -> (r: Result<
    (),
    ValidationError,
>)
    ensures
        verdict(r) == order_verdict(dependency_models(chain@), change@),
{
    if find_approval(chain, &change.id).is_some() {
        return refuse(
            ValidationErrorKind::InvalidOperation,
            "changeset already has an approval record",
        );
    }
    let ghost models = dependency_models(chain@);
    let deps = &change.dependencies;
    let ghost dm = change@.dependencies;
    let mut i: usize = 0;
    while i < deps.len()
        invariant
            i <= deps@.len(),
            deps@ == change.dependencies@,
            dm == dependency_models(deps@),
            dm == change@.dependencies,
            models == dependency_models(chain@),
            approval_of(models, change@.id, 0) is None,
            dependencies_verdict(models, dm, change.chapter_order, 0) == dependencies_verdict(
                models,
                dm,
                change.chapter_order,
                i as int,
            ),
        decreases deps@.len() - i,
    {
        assert(dm[i as int] == deps@[i as int]@);
        if names_earlier(deps.as_slice(), i) {
            return refuse(
                ValidationErrorKind::DependencyOrder,
                "changeset has duplicate dependencies",
            );
        }
        if deps[i].chapter_order >= change.chapter_order {
            return refuse(
                ValidationErrorKind::DependencyOrder,
                "dependency is not earlier than the changeset",
            );
        }
        match find_approval(chain, &deps[i].id) {
            None => {
                let message = concat3(
                    "dependency ",
                    deps[i].id.as_str(),
                    " is not durably approved",
                );
                return Err(ValidationError::new(ValidationErrorKind::DependencyHash, message));
            },
            Some(approval) => {
                if !(approval.approval_record_sha256 == deps[i].approval_record_sha256)
                    || approval.chapter_order != deps[i].chapter_order {
                    let message = concat3(
                        "dependency ",
                        deps[i].id.as_str(),
                        " approval proof changed",
                    );
                    return Err(ValidationError::new(ValidationErrorKind::DependencyHash, message));
                }
            },
        }
        i += 1;
    }
    let n: usize = chain.len();
    let extends = if n == 0 {
        change.chapter_order == 1 && change.parent_changeset_id.is_none() && deps.len() == 0
    } else {
        let head = &chain[n - 1];
        assert(models.last() == head@);
        let next: u32 = if head.chapter_order == u32::MAX {
            0
        } else {
            head.chapter_order + 1
        };
        let parent_is_head = match &change.parent_changeset_id {
            Some(parent) => parent.same(&head.id),
            None => false,
        };
        change.chapter_order == next && parent_is_head && contains_dependency(
            deps.as_slice(),
            head,
        )
    };
    if extends {
        Ok(())
    } else {
        refuse(
            ValidationErrorKind::DependencyOrder,
            "changeset does not extend the durable approval chain head",
        )
    }
}

/// Whether some two canon paths have the same alias key.
pub open spec fn aliases_collide(canon: Seq<FileModel>) -> bool {
    exists|i: int, j: int|
        0 <= i < j < canon.len() && alias_key((#[trigger] canon[i]).0) == alias_key(
            (#[trigger] canon[j]).0,
        )
}

/// The first canon path at or after `i` with an alias key.
pub open spec fn alias_holder(canon: Seq<FileModel>, key: Seq<char>, i: int) -> Option<Seq<char>>
    decreases canon.len() - i,
{
    if i < 0 || i >= canon.len() {
        None
    } else if alias_key(canon[i].0) == key {
        Some(canon[i].0)
    } else {
        alias_holder(canon, key, i + 1)
    }
}

/// Files that every project holds.
pub open spec fn is_required_path(path: Seq<char>) -> bool {
    let key = alias_key(path);
    ||| key == "project.toml"@
    ||| key == "agents.md"@
    ||| key == "前提/作品.md"@
    ||| key == "前提/世界観設定.md"@
    ||| key == "前提/時系列.md"@
    ||| key == "前提/伏線.md"@
    ||| key == "前提/文章スタイル.md"@
    ||| key == "前提/執筆ルール.md"@
    ||| key == "箱書き/構成.md"@
    ||| key == "資料/manifest.md"@
}

fn required_key(key: &str) -> (r: bool)
    ensures
        forall|path: Seq<char>| alias_key(path) == key@ ==> r == #[trigger] is_required_path(path),
{
    str_eq(key, "project.toml") || str_eq(key, "agents.md") || str_eq(key, "前提/作品.md")
        || str_eq(key, "前提/世界観設定.md") || str_eq(key, "前提/時系列.md") || str_eq(
        key,
        "前提/伏線.md",
    ) || str_eq(key, "前提/文章スタイル.md") || str_eq(key, "前提/執筆ルール.md") || str_eq(
        key,
        "箱書き/構成.md",
    ) || str_eq(key, "資料/manifest.md")
}

/// Entities of an operation are known and named once.
pub open spec fn entities_valid(entities: Seq<Seq<char>>) -> bool {
    &&& forall|i: int| 0 <= i < entities.len() ==> is_known_id(#[trigger] entities[i])
    &&& forall|i: int, j: int|
        0 <= i < j < entities.len() ==> (#[trigger] entities[i]) != (#[trigger] entities[j])
}

fn valid_entities(list: &[EntityId]) -> (r: bool)
    ensures
        r == entities_valid(ids(list@)),
{
    let ghost all = ids(list@);
    let mut i: usize = 0;
    while i < list.len()
        invariant
            i <= list@.len(),
            all == ids(list@),
            forall|k: int| 0 <= k < i ==> is_known_id(#[trigger] all[k]),
            forall|k: int, m: int| 0 <= k < m < i ==> (#[trigger] all[k]) != (#[trigger] all[m]),
        decreases list@.len() - i,
    {
        assert(all[i as int] == list@[i as int]@);
        if !is_known_entity_id(list[i].as_str()) {
            return false;
        }
        let mut j: usize = 0;
        while j < i
            invariant
                j <= i < list@.len(),
                all == ids(list@),
                forall|k: int| 0 <= k < j ==> (#[trigger] all[k]) != all[i as int],
            decreases i - j,
        {
            assert(all[j as int] == list@[j as int]@);
            assert(all[i as int] == list@[i as int]@);
            if list[j].same(&list[i]) {
                return false;
            }
            j += 1;
        }
        i += 1;
    }
    true
}

/// Whether the fields of an operation fit its kind and the canon.
pub open spec fn shape_valid(op: OperationModel, canon: Seq<FileModel>) -> bool {
    let existing = alias_holder(canon, alias_key(op.path), 0);
    match op.kind {
        OperationKind::Create => existing is None && op.before_sha256 is None
            && op.after_sha256 is Some && op.candidate_path is Some,
        OperationKind::Replace => existing == Some(op.path) && op.before_sha256 is Some
            && op.after_sha256 is Some && op.candidate_path is Some && op.before_sha256
            != op.after_sha256,
        OperationKind::Delete => existing == Some(op.path) && op.before_sha256 is Some
            && op.after_sha256 is None && op.candidate_path is None && !is_required_path(op.path),
    }
}

/// The start of the message about an operation with the wrong fields.
pub open spec fn shape_message(kind: OperationKind) -> Seq<char> {
    match kind {
        OperationKind::Create => "invalid create operation for "@,
        OperationKind::Replace => "invalid replace operation for "@,
        OperationKind::Delete => "invalid delete operation for "@,
    }
}

/// The verdict on the digest of an operation's target before the operation.
pub open spec fn before_verdict(op: OperationModel, canon: Seq<FileModel>) -> Result<(), Refusal> {
    match op.before_sha256 {
        None => Ok(()),
        Some(expected) => match content_of(canon, op.path) {
            None => refused(
                ValidationErrorKind::HashMismatch,
                "canon file is missing: "@ + op.path,
            ),
            Some(bytes) => {
                if digest_text(bytes) != expected {
                    refused(
                        ValidationErrorKind::HashMismatch,
                        "canon hash mismatch for "@ + op.path,
                    )
                } else {
                    Ok(())
                }
            },
        },
    }
}

/// The verdict on the digest of an operation's candidate file.
pub open spec fn after_verdict(
    snapshot: ProjectSnapshot,
    changeset_id: Seq<char>,
    op: OperationModel,
) -> Result<(), Refusal> {
    match op.candidate_path {
        None => Ok(()),
        Some(path) => match candidate_verdict(snapshot, changeset_id, path) {
            Err(refusal) => Err(refusal),
            Ok(bytes) => {
                if op.after_sha256 != Some(digest_text(bytes)) {
                    refused(
                        ValidationErrorKind::HashMismatch,
                        "candidate hash mismatch for "@ + op.path,
                    )
                } else {
                    Ok(())
                }
            },
        },
    }
}

/// The verdict on operation `i`.
pub open spec fn operation_verdict(
    snapshot: ProjectSnapshot,
    work_id: Seq<char>,
    changeset_id: Seq<char>,
    ops: Seq<OperationModel>,
    i: int,
) -> Result<(), Refusal> {
    let op = ops[i];
    let key = alias_key(op.path);
    let canon = files(snapshot.canon@);
    match target_verdict(snapshot, op.path) {
        Err(refusal) => Err(refusal),
        Ok(()) => {
            if exists|j: int| 0 <= j < i && alias_key((#[trigger] ops[j]).path) == key {
                refused(
                    ValidationErrorKind::InvalidOperation,
                    "duplicate target path: "@ + op.path,
                )
            } else if op.affected_entities.len() == 0 {
                refused(
                    ValidationErrorKind::InvalidOperation,
                    "every operation requires an affected entity ID"@,
                )
            } else if !entities_valid(op.affected_entities) {
                refused(
                    ValidationErrorKind::InvalidOperation,
                    "affected entity IDs must be valid and unique within each operation"@,
                )
            } else if key == "project.toml"@ && op.affected_entities != seq![work_id] {
                refused(
                    ValidationErrorKind::InvalidOperation,
                    "project.toml must affect only the immutable work ID"@,
                )
            } else if !shape_valid(op, canon) {
                refused(ValidationErrorKind::InvalidOperation, shape_message(op.kind) + op.path)
            } else {
                match before_verdict(op, canon) {
                    Err(refusal) => Err(refusal),
                    Ok(()) => after_verdict(snapshot, changeset_id, op),
                }
            }
        },
    }
}

/// The verdict on the operations from `i` on: that of the first one that fails.
pub open spec fn operations_from(
    snapshot: ProjectSnapshot,
    work_id: Seq<char>,
    changeset_id: Seq<char>,
    ops: Seq<OperationModel>,
    i: int,
) -> Result<(), Refusal>
    decreases ops.len() - i,
{
    if i < 0 || i >= ops.len() {
        Ok(())
    } else {
        match operation_verdict(snapshot, work_id, changeset_id, ops, i) {
            Err(refusal) => Err(refusal),
            Ok(()) => operations_from(snapshot, work_id, changeset_id, ops, i + 1),
        }
    }
}

/// The verdict on the form of the targets from `i` on.
pub open spec fn reserved_verdict(ops: Seq<OperationModel>, i: int) -> Result<(), Refusal>
    decreases ops.len() - i,
{
    if i < 0 || i >= ops.len() {
        Ok(())
    } else {
        match target_lexical_verdict(ops[i].path) {
            Err(refusal) => Err(refusal),
            Ok(()) => reserved_verdict(ops, i + 1),
        }
    }
}

/// The verdict on all operations of a changeset.
pub open spec fn operations_verdict(
    snapshot: ProjectSnapshot,
    work_id: Seq<char>,
    changeset_id: Seq<char>,
    ops: Seq<OperationModel>,
) -> Result<(), Refusal> {
    if ops.len() == 0 {
        refused(ValidationErrorKind::Incomplete, "changeset has no file operations"@)
    } else {
        match reserved_verdict(ops, 0) {
            Err(refusal) => Err(refusal),
            Ok(()) => {
                if aliases_collide(files(snapshot.canon@)) {
                    refused(
                        ValidationErrorKind::InvalidOperation,
                        "canon contains colliding path aliases"@,
                    )
                } else {
                    operations_from(snapshot, work_id, changeset_id, ops, 0)
                }
            },
        }
    }
}

fn validate_reserved_targets(ops: &[FileOperation]) -> (r: Result<(), ValidationError>)
    ensures
        verdict(r) == reserved_verdict(operation_models(ops@), 0),
{
    let ghost all = operation_models(ops@);
    let mut i: usize = 0;
    while i < ops.len()
        invariant
            i <= ops@.len(),
            all == operation_models(ops@),
            reserved_verdict(all, 0) == reserved_verdict(all, i as int),
        decreases ops@.len() - i,
    {
        assert(all[i as int] == ops@[i as int]@);
        match validate_target_lexical(ops[i].path.as_str()) {
            Err(error) => {
                return Err(error);
            },
            Ok(()) => {},
        }
        i += 1;
    }
    Ok(())
}

fn canon_keys(canon: &[FileEntry]) -> (r: Vec<String>)
    ensures
        r@.len() == canon@.len(),
        forall|k: int| 0 <= k < r@.len() ==> #[trigger] r@[k]@ == alias_key(files(canon@)[k].0),
{
    let mut out: Vec<String> = Vec::new();
    let mut i: usize = 0;
    while i < canon.len()
        invariant
            i <= canon@.len(),
            out@.len() == i,
            forall|k: int|
                0 <= k < i ==> #[trigger] out@[k]@ == alias_key(files(canon@)[k].0),
        decreases canon@.len() - i,
    {
        assert(files(canon@)[i as int] == canon@[i as int]@);
        out.push(fold_text(canon[i].path.as_str()));
        i += 1;
    }
    out
}

fn keys_collide(canon: &[FileEntry], keys: &[String]) -> (r: bool)
    requires
        keys@.len() == canon@.len(),
        forall|k: int|
            0 <= k < keys@.len() ==> #[trigger] keys@[k]@ == alias_key(files(canon@)[k].0),
    ensures
        r == aliases_collide(files(canon@)),
{
    let ghost all = files(canon@);
    let mut j: usize = 0;
    while j < keys.len()
        invariant
            j <= keys@.len(),
            all == files(canon@),
            keys@.len() == all.len(),
            forall|k: int| 0 <= k < keys@.len() ==> #[trigger] keys@[k]@ == alias_key(all[k].0),
            forall|a: int, b: int|
                0 <= a < b < j ==> alias_key((#[trigger] all[a]).0) != alias_key(
                    (#[trigger] all[b]).0,
                ),
        decreases keys@.len() - j,
    {
        let mut i: usize = 0;
        while i < j
            invariant
                i <= j < keys@.len(),
                keys@.len() == all.len(),
                all == files(canon@),
                forall|k: int| 0 <= k < keys@.len() ==> #[trigger] keys@[k]@ == alias_key(all[k].0),
                forall|a: int|
                    0 <= a < i ==> alias_key((#[trigger] all[a]).0) != alias_key(all[j as int].0),
            decreases j - i,
        {
            if keys[i] == keys[j] {
                assert(keys@[i as int]@ == alias_key(all[i as int].0));
                assert(keys@[j as int]@ == alias_key(all[j as int].0));
                return true;
            }
            i += 1;
        }
        j += 1;
    }
    false
}

fn find_alias(canon: &[FileEntry], keys: &[String], key: &str) -> (r: Option<usize>)
    requires
        keys@.len() == canon@.len(),
        forall|k: int|
            0 <= k < keys@.len() ==> #[trigger] keys@[k]@ == alias_key(files(canon@)[k].0),
    ensures
        match r {
            Some(i) => i < canon@.len() && alias_holder(files(canon@), key@, 0) == Some(
                canon@[i as int].path@,
            ),
            None => alias_holder(files(canon@), key@, 0) is None,
        },
{
    let ghost all = files(canon@);
    let mut i: usize = 0;
    while i < keys.len()
        invariant
            i <= keys@.len(),
            all == files(canon@),
            keys@.len() == all.len(),
            forall|k: int| 0 <= k < keys@.len() ==> #[trigger] keys@[k]@ == alias_key(all[k].0),
            alias_holder(all, key@, 0) == alias_holder(all, key@, i as int),
        decreases keys@.len() - i,
    {
        assert(keys@[i as int]@ == alias_key(all[i as int].0));
        assert(all[i as int] == canon@[i as int]@);
        if str_eq(keys[i].as_str(), key) {
            return Some(i);
        }
        i += 1;
    }
    None
}

fn valid_shape(op: &FileOperation, canon: &[FileEntry], keys: &[String], key: &str) -> (r: bool)
    requires
        keys@.len() == canon@.len(),
        forall|k: int|
            0 <= k < keys@.len() ==> #[trigger] keys@[k]@ == alias_key(files(canon@)[k].0),
        key@ == alias_key(op.path@),
    ensures
        r == shape_valid(op@, files(canon@)),
{
    let existing = find_alias(canon, keys, key);
    let at_path = match existing {
        Some(i) => canon[i].path == op.path,
        None => false,
    };
    match op.kind {
        OperationKind::Create => existing.is_none() && op.before_sha256.is_none()
            && op.after_sha256.is_some() && op.candidate_path.is_some(),
        OperationKind::Replace => at_path && op.before_sha256.is_some()
            && op.after_sha256.is_some() && op.candidate_path.is_some() && !crate::text::opt_eq(
            &op.before_sha256,
            &op.after_sha256,
        ),
        OperationKind::Delete => {
            let required = required_key(key);
            assert(required == is_required_path(op.path@));
            at_path && op.before_sha256.is_some() && op.after_sha256.is_none()
                && op.candidate_path.is_none() && !required
        },
    }
}

fn key_taken(ops: &[FileOperation], end: usize, key: &str) -> (r: bool)
    requires
        end <= ops@.len(),
    ensures
        r == exists|j: int|
            0 <= j < end && alias_key((#[trigger] operation_models(ops@)[j]).path) == key@,
{
    let ghost all = operation_models(ops@);
    let mut i: usize = 0;
    while i < end
        invariant
            i <= end <= ops@.len(),
            all == operation_models(ops@),
            forall|j: int| 0 <= j < i ==> alias_key((#[trigger] all[j]).path) != key@,
        decreases end - i,
    {
        assert(all[i as int] == ops@[i as int]@);
        if str_eq(fold_text(ops[i].path.as_str()).as_str(), key) {
            return true;
        }
        i += 1;
    }
    false
}

fn validate_before(op: &FileOperation, canon: &[FileEntry]) -> (r: Result<(), ValidationError>)
    ensures
        verdict(r) == before_verdict(op@, files(canon@)),
{
    match &op.before_sha256 {
        None => Ok(()),
        Some(expected) => match find_file(canon, op.path.as_str()) {
            None => refuse_at(
                ValidationErrorKind::HashMismatch,
                "canon file is missing: ",
                op.path.as_str(),
            ),
            Some(entry) => {
                if !(sha256_bytes(entry.bytes.as_slice()) == *expected) {
                    refuse_at(
                        ValidationErrorKind::HashMismatch,
                        "canon hash mismatch for ",
                        op.path.as_str(),
                    )
                } else {
                    Ok(())
                }
            },
        },
    }
}

fn validate_after(snapshot: &ProjectSnapshot, changeset_id: &EntityId, op: &FileOperation) -> (r: Result<
    (),
    ValidationError,
>)
    ensures
        verdict(r) == after_verdict(*snapshot, changeset_id@, op@),
{
    match &op.candidate_path {
        None => Ok(()),
        Some(path) => match read_candidate(snapshot, changeset_id, path.as_str()) {
            Err(error) => Err(error),
            Ok(bytes) => {
                let actual = sha256_bytes(bytes.as_slice());
                let same = match &op.after_sha256 {
                    Some(expected) => *expected == actual,
                    None => false,
                };
                if !same {
                    refuse_at(
                        ValidationErrorKind::HashMismatch,
                        "candidate hash mismatch for ",
                        op.path.as_str(),
                    )
                } else {
                    Ok(())
                }
            },
        },
    }
}

fn validate_operation(
    snapshot: &ProjectSnapshot,
    work_id: &EntityId,
    changeset_id: &EntityId,
    ops: &[FileOperation],
    i: usize,
    keys: &[String],
) -> (r: Result<(), ValidationError>)
    requires
        i < ops@.len(),
        keys@.len() == snapshot.canon@.len(),
        forall|k: int|
            0 <= k < keys@.len() ==> #[trigger] keys@[k]@ == alias_key(
                files(snapshot.canon@)[k].0,
            ),
    ensures
        verdict(r) == operation_verdict(
            *snapshot,
            work_id@,
            changeset_id@,
            operation_models(ops@),
            i as int,
        ),
{
    let op = &ops[i];
    assert(operation_models(ops@)[i as int] == op@);
    match validate_target_path(snapshot, op.path.as_str()) {
        Err(error) => {
            return Err(error);
        },
        Ok(()) => {},
    }
    let key = fold_text(op.path.as_str());
    if key_taken(ops, i, key.as_str()) {
        return refuse_at(
            ValidationErrorKind::InvalidOperation,
            "duplicate target path: ",
            op.path.as_str(),
        );
    }
    if op.affected_entities.len() == 0 {
        return refuse(
            ValidationErrorKind::InvalidOperation,
            "every operation requires an affected entity ID",
        );
    }
    if !valid_entities(op.affected_entities.as_slice()) {
        return refuse(
            ValidationErrorKind::InvalidOperation,
            "affected entity IDs must be valid and unique within each operation",
        );
    }
    let only_work = op.affected_entities.len() == 1 && op.affected_entities[0].same(work_id);
    proof {
        let entities = op@.affected_entities;
        assert(entities[0] == op.affected_entities@[0]@);
        assert(only_work ==> entities =~= seq![work_id@]);
    }
    if str_eq(key.as_str(), "project.toml") && !only_work {
        return refuse(
            ValidationErrorKind::InvalidOperation,
            "project.toml must affect only the immutable work ID",
        );
    }
    if !valid_shape(op, snapshot.canon.as_slice(), keys, key.as_str()) {
        return match op.kind {
            OperationKind::Create => refuse_at(
                ValidationErrorKind::InvalidOperation,
                "invalid create operation for ",
                op.path.as_str(),
            ),
            OperationKind::Replace => refuse_at(
                ValidationErrorKind::InvalidOperation,
                "invalid replace operation for ",
                op.path.as_str(),
            ),
            OperationKind::Delete => refuse_at(
                ValidationErrorKind::InvalidOperation,
                "invalid delete operation for ",
                op.path.as_str(),
            ),
        };
    }
    match validate_before(op, snapshot.canon.as_slice()) {
        Err(error) => Err(error),
        Ok(()) => validate_after(snapshot, changeset_id, op),
    }
}

/// Checks the operations of a changeset against the canon and the candidate files.
pub fn validate_operations(
    snapshot: &ProjectSnapshot,
    work_id: &EntityId,
    changeset_id: &EntityId,
    ops: &[FileOperation],
) -> (r: Result<(), ValidationError>)
    ensures
        verdict(r) == operations_verdict(
            *snapshot,
            work_id@,
            changeset_id@,
            operation_models(ops@),
        ),
{
    let ghost all = operation_models(ops@);
    if ops.len() == 0 {
        return refuse(ValidationErrorKind::Incomplete, "changeset has no file operations");
    }
    match validate_reserved_targets(ops) {
        Err(error) => {
            return Err(error);
        },
        Ok(()) => {},
    }
    let keys = canon_keys(snapshot.canon.as_slice());
    if keys_collide(snapshot.canon.as_slice(), keys.as_slice()) {
        return refuse(
            ValidationErrorKind::InvalidOperation,
            "canon contains colliding path aliases",
        );
    }
    let mut i: usize = 0;
    while i < ops.len()
        invariant
            i <= ops@.len(),
            all == operation_models(ops@),
            keys@.len() == snapshot.canon@.len(),
            forall|k: int|
                0 <= k < keys@.len() ==> #[trigger] keys@[k]@ == alias_key(
                    files(snapshot.canon@)[k].0,
                ),
            operations_verdict(*snapshot, work_id@, changeset_id@, all) == operations_from(
                *snapshot,
                work_id@,
                changeset_id@,
                all,
                i as int,
            ),
        decreases ops@.len() - i,
    {
        match validate_operation(snapshot, work_id, changeset_id, ops, i, keys.as_slice()) {
            Err(error) => {
                return Err(error);
            },
            Ok(()) => {},
        }
        i += 1;
    }
    Ok(())
}

/// Whether a canon file is a Markdown artifact, which needs a semantic identifier.
pub open spec fn is_artifact(path: Seq<char>) -> bool {
    let key = alias_key(path);
    ||| key == "資料/manifest.md"@
    ||| has_suffix(key, ".md"@) && (has_prefix(key, "前提/"@) || has_prefix(key, "箱書き/"@)
        || has_prefix(key, "本文/"@) || has_prefix(key, "メモ/"@))
}

fn is_artifact_markdown(path: &str) -> (r: bool)
    ensures
        r == is_artifact(path@),
{
    let key = fold_text(path);
    let k = key.as_str();
    str_eq(k, "資料/manifest.md") || (ends_with(k, ".md") && (starts_with(k, "前提/")
        || starts_with(k, "箱書き/") || starts_with(k, "本文/") || starts_with(k, "メモ/")))
}

/// The semantic identifier of a Markdown artifact, or the refusal.
pub open spec fn semantic_id(bytes: Seq<u8>, path: Seq<char>) -> Result<Seq<char>, Refusal> {
    match markdown_of(bytes) {
        Err(message) => Err(
            (ValidationErrorKind::Schema, "invalid Markdown "@ + path + ": "@ + message),
        ),
        Ok((entries, _)) => {
            if !entries.contains_key("id"@) {
                Err(
                    (
                        ValidationErrorKind::Schema,
                        "Markdown "@ + path + " has no semantic ID"@,
                    ),
                )
            } else if !is_known_id(entries["id"@]) {
                Err(
                    (
                        ValidationErrorKind::Schema,
                        "Markdown "@ + path + " has an invalid semantic ID"@,
                    ),
                )
            } else {
                Ok(entries["id"@])
            }
        },
    }
}

fn markdown_semantic_id(bytes: &[u8], path: &str) -> (r: Result<String, ValidationError>)
    ensures
        text_verdict(r) == semantic_id(bytes@, path@),
{
    match parse_markdown(bytes) {
        Err(message) => {
            let mut text = concat3("invalid Markdown ", path, ": ");
            text.append(message.as_str());
            Err(ValidationError::new(ValidationErrorKind::Schema, text))
        },
        Ok(artifact) => match artifact.text("id") {
            None => Err(
                ValidationError::new(
                    ValidationErrorKind::Schema,
                    concat3("Markdown ", path, " has no semantic ID"),
                ),
            ),
            Some(id) => {
                if !is_known_entity_id(id.as_str()) {
                    Err(
                        ValidationError::new(
                            ValidationErrorKind::Schema,
                            concat3("Markdown ", path, " has an invalid semantic ID"),
                        ),
                    )
                } else {
                    Ok(id)
                }
            },
        },
    }
}

/// Whether an artifact before `i` has a semantic identifier.
pub open spec fn semantic_id_taken(tree: Seq<FileModel>, i: int, id: Seq<char>) -> bool {
    exists|j: int|
        0 <= j < i && is_artifact((#[trigger] tree[j]).0) && semantic_id(tree[j].1, tree[j].0)
            == Ok::<Seq<char>, Refusal>(id)
}

/// The verdict on the semantic identifiers of a tree from `i` on.
pub open spec fn artifacts_verdict(tree: Seq<FileModel>, i: int) -> Result<(), Refusal>
    decreases tree.len() - i,
{
    if i < 0 || i >= tree.len() {
        Ok(())
    } else if !is_artifact(tree[i].0) {
        artifacts_verdict(tree, i + 1)
    } else {
        match semantic_id(tree[i].1, tree[i].0) {
            Err(refusal) => Err(refusal),
            Ok(id) => {
                if semantic_id_taken(tree, i, id) {
                    refused(
                        ValidationErrorKind::Schema,
                        "duplicate Markdown semantic ID at "@ + tree[i].0,
                    )
                } else {
                    artifacts_verdict(tree, i + 1)
                }
            },
        }
    }
}

fn validate_artifacts(tree: &[FileEntry]) -> (r: Result<(), ValidationError>)
    ensures
        verdict(r) == artifacts_verdict(files(tree@), 0),
{
    let ghost all = files(tree@);
    let mut seen: Vec<String> = Vec::new();
    let mut i: usize = 0;
    while i < tree.len()
        invariant
            i <= tree@.len(),
            all == files(tree@),
            artifacts_verdict(all, 0) == artifacts_verdict(all, i as int),
            forall|id: Seq<char>|
                #[trigger] has_text(seen@, id) == semantic_id_taken(all, i as int, id),
        decreases tree@.len() - i,
    {
        let path = tree[i].path.as_str();
        assert(all[i as int] == tree@[i as int]@);
        if is_artifact_markdown(path) {
            match markdown_semantic_id(tree[i].bytes.as_slice(), path) {
                Err(error) => {
                    return Err(error);
                },
                Ok(id) => {
                    if contains_text(seen.as_slice(), id.as_str()) {
                        return refuse_at(
                            ValidationErrorKind::Schema,
                            "duplicate Markdown semantic ID at ",
                            path,
                        );
                    }
                    let ghost before = seen@;
                    let ghost new_id = id@;
                    seen.push(id);
                    proof {
                        assert forall|x: Seq<char>| #[trigger]
                            has_text(seen@, x) == semantic_id_taken(all, i + 1, x) by {
                            assert(has_text(before, x) == semantic_id_taken(all, i as int, x));
                            assert(seen@[before.len() as int]@ == new_id);
                            if has_text(before, x) {
                                let w = choose|w: int|
                                    0 <= w < before.len() && #[trigger] before[w]@ == x;
                                assert(seen@[w]@ == x);
                            }
                            if has_text(seen@, x) && x != new_id {
                                let w = choose|w: int|
                                    0 <= w < seen@.len() && #[trigger] seen@[w]@ == x;
                                assert(before[w]@ == x);
                            }
                            if semantic_id_taken(all, i as int, x) {
                                let j = choose|j: int|
                                    0 <= j < i && is_artifact((#[trigger] all[j]).0)
                                        && semantic_id(all[j].1, all[j].0) == Ok::<
                                        Seq<char>,
                                        Refusal,
                                    >(x);
                                assert(is_artifact(all[j].0));
                            }
                            assert(is_artifact(all[i as int].0));
                        }
                    }
                },
            }
        } else {
            assert forall|x: Seq<char>| #[trigger] has_text(seen@, x) == semantic_id_taken(
                all,
                i + 1,
                x,
            ) by {
                assert(has_text(seen@, x) == semantic_id_taken(all, i as int, x));
                if semantic_id_taken(all, i as int, x) {
                    let j = choose|j: int|
                        0 <= j < i && is_artifact((#[trigger] all[j]).0) && semantic_id(
                            all[j].1,
                            all[j].0,
                        ) == Ok::<Seq<char>, Refusal>(x);
                    assert(is_artifact(all[j].0));
                }
            }
        }
        i += 1;
    }
    Ok(())
}

/// The verdict on the replaced artifacts from operation `i` on: each keeps its semantic
/// identifier.
pub open spec fn replaced_verdict(
    ops: Seq<OperationModel>,
    base: Seq<FileModel>,
    tree: Seq<FileModel>,
    i: int,
) -> Result<(), Refusal>
    decreases ops.len() - i,
{
    if i < 0 || i >= ops.len() {
        Ok(())
    } else if ops[i].kind != OperationKind::Replace || !is_artifact(ops[i].path) {
        replaced_verdict(ops, base, tree, i + 1)
    } else {
        match (content_of(base, ops[i].path), content_of(tree, ops[i].path)) {
            (None, _) => refused(
                ValidationErrorKind::Schema,
                "base Markdown is missing: "@ + ops[i].path,
            ),
            (_, None) => refused(
                ValidationErrorKind::Schema,
                "projected Markdown is missing: "@ + ops[i].path,
            ),
            (Some(before), Some(after)) => match (
                semantic_id(before, ops[i].path),
                semantic_id(after, ops[i].path),
            ) {
                (Err(refusal), _) => Err(refusal),
                (_, Err(refusal)) => Err(refusal),
                (Ok(old_id), Ok(new_id)) => {
                    if old_id != new_id {
                        refused(
                            ValidationErrorKind::Schema,
                            "replace operation changes Markdown semantic ID: "@ + ops[i].path,
                        )
                    } else {
                        replaced_verdict(ops, base, tree, i + 1)
                    }
                },
            },
        }
    }
}

fn validate_replaced(ops: &[FileOperation], base: &[FileEntry], tree: &[FileEntry]) -> (r: Result<
    (),
    ValidationError,
>)
    ensures
        verdict(r) == replaced_verdict(operation_models(ops@), files(base@), files(tree@), 0),
{
    let ghost all = operation_models(ops@);
    let mut i: usize = 0;
    while i < ops.len()
        invariant
            i <= ops@.len(),
            all == operation_models(ops@),
            replaced_verdict(all, files(base@), files(tree@), 0) == replaced_verdict(
                all,
                files(base@),
                files(tree@),
                i as int,
            ),
        decreases ops@.len() - i,
    {
        assert(all[i as int] == ops@[i as int]@);
        let path = ops[i].path.as_str();
        if ops[i].kind == OperationKind::Replace && is_artifact_markdown(path) {
            match (find_file(base, path), find_file(tree, path)) {
                (None, _) => {
                    return refuse_at(
                        ValidationErrorKind::Schema,
                        "base Markdown is missing: ",
                        path,
                    );
                },
                (_, None) => {
                    return refuse_at(
                        ValidationErrorKind::Schema,
                        "projected Markdown is missing: ",
                        path,
                    );
                },
                (Some(before), Some(after)) => {
                    let old_id = match markdown_semantic_id(before.bytes.as_slice(), path) {
                        Err(error) => {
                            return Err(error);
                        },
                        Ok(id) => id,
                    };
                    let new_id = match markdown_semantic_id(after.bytes.as_slice(), path) {
                        Err(error) => {
                            return Err(error);
                        },
                        Ok(id) => id,
                    };
                    if !(old_id == new_id) {
                        return refuse_at(
                            ValidationErrorKind::Schema,
                            "replace operation changes Markdown semantic ID: ",
                            path,
                        );
                    }
                },
            }
        }
        i += 1;
    }
    Ok(())
}

/// The verdict on the project configuration of a tree: it is present, readable and keeps the
/// work identifier.
pub open spec fn config_verdict(work_id: Seq<char>, tree: Seq<FileModel>) -> Result<(), Refusal> {
    match content_of(tree, "project.toml"@) {
        None => refused(ValidationErrorKind::Schema, "project.toml is missing"@),
        Some(bytes) => {
            if !valid_utf8(bytes) {
                refused(
                    ValidationErrorKind::Schema,
                    "project.toml is not UTF-8: "@ + utf8_error(bytes),
                )
            } else {
                match config_of(text_of(bytes)) {
                    None => refused(ValidationErrorKind::Schema, "project.toml is invalid"@),
                    Some((version, id)) => {
                        if version != 1 || !is_id_of(id, EntityKind::Work) || id != work_id {
                            refused(
                                ValidationErrorKind::Schema,
                                "project.toml has an unsupported format or changed work ID"@,
                            )
                        } else {
                            Ok(())
                        }
                    },
                }
            }
        },
    }
}

fn validate_config(work_id: &EntityId, tree: &[FileEntry]) -> (r: Result<(), ValidationError>)
    ensures
        verdict(r) == config_verdict(work_id@, files(tree@)),
{
    match find_file(tree, "project.toml") {
        None => refuse(ValidationErrorKind::Schema, "project.toml is missing"),
        Some(entry) => match decode(copy_bytes(entry.bytes.as_slice())) {
            Err(message) => refuse_at(
                ValidationErrorKind::Schema,
                "project.toml is not UTF-8: ",
                message.as_str(),
            ),
            Ok(text) => {
                proof {
                    decoding_inverts_encoding(text@);
                }
                match parse_config(text.as_str()) {
                    None => refuse(ValidationErrorKind::Schema, "project.toml is invalid"),
                    Some(config) => {
                        if config.format_version != 1 || !is_prefixed_uuid(
                            config.work_id.as_str(),
                            EntityKind::Work,
                        ) || !config.work_id.same(work_id) {
                            refuse(
                                ValidationErrorKind::Schema,
                                "project.toml has an unsupported format or changed work ID",
                            )
                        } else {
                            Ok(())
                        }
                    },
                }
            },
        },
    }
}

/// The verdict on the documents of the canon after a changeset.
pub open spec fn schema_verdict(
    work_id: Seq<char>,
    ops: Seq<OperationModel>,
    base: Seq<FileModel>,
    tree: Seq<FileModel>,
) -> Result<(), Refusal> {
    match config_verdict(work_id, tree) {
        Err(refusal) => Err(refusal),
        Ok(()) => match artifacts_verdict(tree, 0) {
            Err(refusal) => Err(refusal),
            Ok(()) => replaced_verdict(ops, base, tree, 0),
        },
    }
}

fn validate_projected_schema(
    work_id: &EntityId,
    ops: &[FileOperation],
    base: &[FileEntry],
    tree: &[FileEntry],
) -> (r: Result<(), ValidationError>)
    ensures
        verdict(r) == schema_verdict(
            work_id@,
            operation_models(ops@),
            files(base@),
            files(tree@),
        ),
{
    match validate_config(work_id, tree) {
        Err(error) => Err(error),
        Ok(()) => match validate_artifacts(tree) {
            Err(error) => Err(error),
            Ok(()) => validate_replaced(ops, base, tree),
        },
    }
}

/// Whether the identifiers of a changeset, of its parent and of its dependencies are those of
/// changesets.
pub open spec fn identifiers_valid(change: ChangeModel) -> bool {
    &&& is_id_of(change.id, EntityKind::Changeset)
    &&& change.parent_changeset_id is Some ==> is_id_of(
        change.parent_changeset_id->Some_0,
        EntityKind::Changeset,
    )
    &&& forall|i: int|
        0 <= i < change.dependencies.len() ==> is_id_of(
            (#[trigger] change.dependencies[i]).0,
            EntityKind::Changeset,
        )
}

fn valid_identifiers(change: &Changeset) -> (r: bool)
    ensures
        r == identifiers_valid(change@),
{
    if !is_prefixed_uuid(change.id.as_str(), EntityKind::Changeset) {
        return false;
    }
    match &change.parent_changeset_id {
        Some(parent) => {
            if !is_prefixed_uuid(parent.as_str(), EntityKind::Changeset) {
                return false;
            }
        },
        None => {},
    }
    let ghost deps = change@.dependencies;
    let mut i: usize = 0;
    while i < change.dependencies.len()
        invariant
            i <= change.dependencies@.len(),
            deps == change@.dependencies,
            forall|k: int|
                0 <= k < i ==> is_id_of((#[trigger] deps[k]).0, EntityKind::Changeset),
        decreases change.dependencies@.len() - i,
    {
        assert(deps[i as int] == change.dependencies@[i as int]@);
        if !is_prefixed_uuid(change.dependencies[i].id.as_str(), EntityKind::Changeset) {
            return false;
        }
        i += 1;
    }
    true
}

/// The verdict on a changeset before anything is read from the project.
pub open spec fn static_verdict(change: ChangeModel) -> Result<(), Refusal> {
    if !identifiers_valid(change) {
        refused(ValidationErrorKind::InvalidOperation, "changeset identifiers are invalid"@)
    } else {
        match change.state {
            ChangesetState::Approvable => {
                if change.unresolved_blocker_ids.len() != 0 {
                    refused(
                        ValidationErrorKind::Blockers,
                        "changeset has unresolved blockers"@,
                    )
                } else {
                    reserved_verdict(change.operations, 0)
                }
            },
            ChangesetState::Stale => refused(ValidationErrorKind::Stale, "changeset is stale"@),
            ChangesetState::Incomplete => refused(
                ValidationErrorKind::Incomplete,
                "changeset is incomplete"@,
            ),
            ChangesetState::NeedsRevalidation => refused(
                ValidationErrorKind::NeedsRevalidation,
                "changeset needs revalidation"@,
            ),
            _ => refused(
                ValidationErrorKind::NotApprovable,
                "only an approvable changeset can be approved"@,
            ),
        }
    }
}

fn validate_static(change: &Changeset) -> (r: Result<(), ValidationError>)
    ensures
        verdict(r) == static_verdict(change@),
{
    if !valid_identifiers(change) {
        return refuse(
            ValidationErrorKind::InvalidOperation,
            "changeset identifiers are invalid",
        );
    }
    match change.state {
        ChangesetState::Approvable => {
            if change.unresolved_blocker_ids.len() != 0 {
                refuse(ValidationErrorKind::Blockers, "changeset has unresolved blockers")
            } else {
                validate_reserved_targets(change.operations.as_slice())
            }
        },
        ChangesetState::Stale => refuse(ValidationErrorKind::Stale, "changeset is stale"),
        ChangesetState::Incomplete => refuse(
            ValidationErrorKind::Incomplete,
            "changeset is incomplete",
        ),
        ChangesetState::NeedsRevalidation => refuse(
            ValidationErrorKind::NeedsRevalidation,
            "changeset needs revalidation",
        ),
        _ => refuse(
            ValidationErrorKind::NotApprovable,
            "only an approvable changeset can be approved",
        ),
    }
}

/// The verdict on the files of a changeset: candidate digest, projected content, documents,
/// validation hash and resulting root.
pub open spec fn content_verdict(
    snapshot: ProjectSnapshot,
    work_id: Seq<char>,
    change: ChangeModel,
) -> Result<(), Refusal> {
    match candidate_digest(snapshot, change) {
        Err(refusal) => Err(refusal),
        Ok(candidate) => {
            if candidate != change.candidate_hash {
                refused(
                    ValidationErrorKind::CandidateHash,
                    "candidate files changed after validation"@,
                )
            } else {
                match projected_content(snapshot, change) {
                    Err(refusal) => Err(refusal),
                    Ok(tree) => {
                        if tree_digest(tree) != change.content_result_hash {
                            refused(
                                ValidationErrorKind::ResultRoot,
                                "projected content root does not match the changeset"@,
                            )
                        } else {
                            match schema_verdict(
                                work_id,
                                change.operations,
                                files(snapshot.canon@),
                                tree,
                            ) {
                                Err(refusal) => Err(refusal),
                                Ok(()) => {
                                    if change.validation_hash != Some(
                                        material_digest(change_material(change)),
                                    ) {
                                        refused(
                                            ValidationErrorKind::ValidationHash,
                                            "changeset validation hash is missing or invalid"@,
                                        )
                                    } else {
                                        match approved_digest(change, tree) {
                                            Err(refusal) => Err(refusal),
                                            Ok(root) => {
                                                if root != change.result_root_hash {
                                                    refused(
                                                        ValidationErrorKind::ResultRoot,
                                                        "projected canon root does not match the changeset result"@,
                                                    )
                                                } else {
                                                    Ok(())
                                                }
                                            },
                                        }
                                    }
                                },
                            }
                        }
                    },
                }
            }
        },
    }
}

fn validate_content(snapshot: &ProjectSnapshot, work_id: &EntityId, change: &Changeset) -> (r: Result<
    (),
    ValidationError,
>)
    ensures
        verdict(r) == content_verdict(*snapshot, work_id@, change@),
{
    match calculate_candidate_hash(snapshot, change) {
        Err(error) => {
            return Err(error);
        },
        Ok(candidate) => {
            if !(candidate == change.candidate_hash) {
                return refuse(
                    ValidationErrorKind::CandidateHash,
                    "candidate files changed after validation",
                );
            }
        },
    }
    let tree = match project_content(snapshot, change) {
        Err(error) => {
            return Err(error);
        },
        Ok(tree) => tree,
    };
    if !(hash_entries(tree.as_slice()) == change.content_result_hash) {
        return refuse(
            ValidationErrorKind::ResultRoot,
            "projected content root does not match the changeset",
        );
    }
    match validate_projected_schema(
        work_id,
        change.operations.as_slice(),
        snapshot.canon.as_slice(),
        tree.as_slice(),
    ) {
        Err(error) => {
            return Err(error);
        },
        Ok(()) => {},
    }
    let expected = calculate_validation_hash(change);
    let same = match &change.validation_hash {
        Some(hash) => *hash == expected,
        None => false,
    };
    if !same {
        return refuse(
            ValidationErrorKind::ValidationHash,
            "changeset validation hash is missing or invalid",
        );
    }
    match approved_hash(change, tree) {
        Err(error) => Err(error),
        Ok(root) => {
            if !(root == change.result_root_hash) {
                refuse(
                    ValidationErrorKind::ResultRoot,
                    "projected canon root does not match the changeset result",
                )
            } else {
                Ok(())
            }
        },
    }
}

/// The verdict on a changeset: that of the first check that fails.
pub open spec fn change_verdict(
    snapshot: ProjectSnapshot,
    work_id: Seq<char>,
    change: ChangeModel,
) -> Result<(), Refusal> {
    match static_verdict(change) {
        Err(refusal) => Err(refusal),
        Ok(()) => {
            if tree_digest(files(snapshot.canon@)) != change.base_root_hash {
                refused(
                    ValidationErrorKind::BaseRoot,
                    "canon no longer matches the changeset base root"@,
                )
            } else {
                match approval_chain(snapshot.approvals@) {
                    Err(refusal) => Err(refusal),
                    Ok(chain) => match order_verdict(chain, change) {
                        Err(refusal) => Err(refusal),
                        Ok(()) => match operations_verdict(
                            snapshot,
                            work_id,
                            change.id,
                            change.operations,
                        ) {
                            Err(refusal) => Err(refusal),
                            Ok(()) => content_verdict(snapshot, work_id, change),
                        },
                    },
                }
            }
        },
    }
}

/// Validates a changeset against what was read from a project.
pub fn validate_changeset(project: &Project, snapshot: &ProjectSnapshot, change: &Changeset) -> (r: Result<
    (),
    ValidationError,
>)
    ensures
        verdict(r) == change_verdict(*snapshot, project.config.work_id@, change@),
{
    match validate_static(change) {
        Err(error) => {
            return Err(error);
        },
        Ok(()) => {},
    }
    if !(canon_root_hash(snapshot) == change.base_root_hash) {
        return refuse(
            ValidationErrorKind::BaseRoot,
            "canon no longer matches the changeset base root",
        );
    }
    let chain = match scan_approval_records(snapshot.approvals.as_slice()) {
        Err(error) => {
            return Err(error);
        },
        Ok(chain) => chain,
    };
    match validate_approval_order(chain.as_slice(), change) {
        Err(error) => {
            return Err(error);
        },
        Ok(()) => {},
    }
    match validate_operations(
        snapshot,
        &project.config.work_id,
        &change.id,
        change.operations.as_slice(),
    ) {
        Err(error) => {
            return Err(error);
        },
        Ok(()) => {},
    }
    validate_content(snapshot, &project.config.work_id, change)
}

/// A valid changeset is approvable, unblocked, bound to the current canon, next in the approval
/// order, and all of its hashes are those of what was read.
pub proof fn valid_changeset_is_bound(
    snapshot: ProjectSnapshot,
    work_id: Seq<char>,
    change: ChangeModel,
)
    requires
        change_verdict(snapshot, work_id, change) is Ok,
    ensures
        change.state == ChangesetState::Approvable,
        change.unresolved_blocker_ids.len() == 0,
        change.operations.len() > 0,
        change.base_root_hash == tree_digest(files(snapshot.canon@)),
        approval_chain(snapshot.approvals@) is Ok,
        extends_head(approval_chain(snapshot.approvals@)->Ok_0, change),
        candidate_digest(snapshot, change) == Ok::<Seq<char>, Refusal>(change.candidate_hash),
        content_digest(snapshot, change) == Ok::<Seq<char>, Refusal>(change.content_result_hash),
        result_digest(snapshot, change) == Ok::<Seq<char>, Refusal>(change.result_root_hash),
        change.validation_hash == Some(material_digest(change_material(change))),
{
}

proof fn lemma_records_are_sound(list: Seq<ApprovalFile>, from: int, i: int)
    requires
        0 <= from <= i < list.len(),
        records_verdict(list, from) is Ok,
    ensures
        list[i].record is Ok,
        is_sound_record(list[i].name@, list[i].record->Ok_0),
        !order_taken(list, i, list[i].record->Ok_0.chapter_order as int),
    decreases i - from,
{
    if from < i {
        lemma_records_are_sound(list, from + 1, i);
    }
}

proof fn lemma_order_holder(list: Seq<ApprovalFile>, order: int, i: int)
    requires
        0 <= i,
    ensures
        match order_holder(list, order, i) {
            Some(k) => i <= k < list.len() && claims_order(list[k], order),
            None => true,
        },
    decreases list.len() - i,
{
    if i < list.len() {
        lemma_order_holder(list, order, i + 1);
    }
}

proof fn lemma_chain_holds(
    list: Seq<ApprovalFile>,
    from: int,
    chain: Seq<DependencyModel>,
    order: int,
    kept: int,
)
    requires
        1 <= from,
        chain_from(list, from, chain) is Ok,
    ensures
        from <= order <= list.len() ==> order_holder(list, order, 0) is Some && chain_from(
            list,
            from,
            chain,
        )->Ok_0.contains(approval_model(list[order_holder(list, order, 0)->Some_0])),
        0 <= kept < chain.len() ==> chain_from(list, from, chain)->Ok_0.contains(chain[kept]),
    decreases list.len() - from + 1,
{
    if from <= list.len() {
        let next = chain.push(approval_model(list[order_holder(list, from, 0)->Some_0]));
        lemma_chain_holds(list, from + 1, next, order, chain.len() as int);
        lemma_chain_holds(list, from + 1, next, order, kept);
    }
}

proof fn lemma_not_in_chain(chain: Seq<DependencyModel>, id: Seq<char>, i: int, j: int)
    requires
        0 <= i <= j < chain.len(),
        approval_of(chain, id, i) is None,
    ensures
        chain[j].0 != id,
    decreases j - i,
{
    if i < j {
        lemma_not_in_chain(chain, id, i + 1, j);
    }
}

proof fn lemma_same_stem(a: Seq<char>, b: Seq<char>, end: Seq<char>)
    requires
        a + end == b + end,
    ensures
        a == b,
{
    assert((a + end).len() == (b + end).len());
    assert(a =~= (a + end).take(a.len() as int));
    assert(b =~= (b + end).take(b.len() as int));
}

/// A changeset whose approval record is in place is not valid any more: it cannot be applied a
/// second time.
pub proof fn approved_changeset_is_refused(
    snapshot: ProjectSnapshot,
    work_id: Seq<char>,
    change: ChangeModel,
    k: int,
)
    requires
        0 <= k < snapshot.approvals@.len(),
        snapshot.approvals@[k].name@ == change.id + ".json"@,
    ensures
        change_verdict(snapshot, work_id, change) is Err,
{
    if change_verdict(snapshot, work_id, change) is Ok {
        let list = snapshot.approvals@;
        let n = list.len() as int;
        let chain = approval_chain(list)->Ok_0;
        lemma_records_are_sound(list, 0, k);
        let record = list[k].record->Ok_0;
        lemma_same_stem(record.changeset_id@, change.id, ".json"@);
        let holder = |order: int| order_holder(list, order, 0)->Some_0;
        let orders = set_int_range(1, n + 1);
        let others = set_int_range(0, n).remove(k);
        assert forall|order: int| orders.contains(order) implies claims_order(
            list[#[trigger] holder(order)],
            order,
        ) && others.contains(holder(order)) by {
            lemma_chain_holds(list, 1, Seq::empty(), order, 0);
            lemma_order_holder(list, order, 0);
            if holder(order) == k {
                let j = choose|j: int| 0 <= j < chain.len() && chain[j] == approval_model(list[k]);
                lemma_not_in_chain(chain, change.id, 0, j);
            }
        }
        lemma_int_range(1, n + 1);
        lemma_int_range(0, n);
        let held = orders.map(holder);
        assert(injective_on(holder, orders));
        lemma_map_size(orders, held, holder);
        assert(held.subset_of(others));
        lemma_len_subset(held, others);
    }
}

/// The unified diff of two texts with the given file names, as `similar` writes it.
pub uninterp spec fn unified_diff(
    before: Seq<char>,
    after: Seq<char>,
    old_name: Seq<char>,
    new_name: Seq<char>,
) -> Seq<char>;

/// Calls `similar::TextDiff::from_lines` and formats its `unified_diff` under the given header.
#[verifier::external_body]
fn diff_lines(before: &str, after: &str, old_name: &str, new_name: &str) -> (r: String)
    ensures
        r@ == unified_diff(before@, after@, old_name@, new_name@),
{
    similar::TextDiff::from_lines(before, after).unified_diff().header(old_name, new_name).to_string()
}

/// The text of a file for a diff, or the refusal.
pub open spec fn diff_text(bytes: Seq<u8>, label: Seq<char>, path: Seq<char>) -> Result<
    Seq<char>,
    Refusal,
> {
    if valid_utf8(bytes) {
        Ok(text_of(bytes))
    } else {
        Err(
            (
                ValidationErrorKind::InvalidOperation,
                label + path + " is not UTF-8: "@ + utf8_error(bytes),
            ),
        )
    }
}

fn read_utf8_bytes(bytes: &[u8], label: &str, path: &str) -> (r: Result<String, ValidationError>)
    ensures
        text_verdict(r) == diff_text(bytes@, label@, path@),
{
    match decode(copy_bytes(bytes)) {
        Ok(text) => {
            proof {
                decoding_inverts_encoding(text@);
            }
            Ok(text)
        },
        Err(message) => {
            let mut out = concat3(label, path, " is not UTF-8: ");
            out.append(message.as_str());
            Err(ValidationError::new(ValidationErrorKind::InvalidOperation, out))
        },
    }
}

/// The text of an operation's target before the operation.
pub open spec fn text_before_operation(snapshot: ProjectSnapshot, op: OperationModel) -> Result<
    Seq<char>,
    Refusal,
> {
    match (op.kind, content_of(files(snapshot.canon@), op.path)) {
        (OperationKind::Create, _) => Ok(Seq::empty()),
        (_, None) => Ok(Seq::empty()),
        (_, Some(bytes)) => diff_text(bytes, "canon file "@, op.path),
    }
}

/// The text of an operation's target after the operation.
pub open spec fn text_after_operation(
    snapshot: ProjectSnapshot,
    changeset_id: Seq<char>,
    op: OperationModel,
) -> Result<Seq<char>, Refusal> {
    match (op.kind, op.candidate_path) {
        (OperationKind::Delete, _) => Ok(Seq::empty()),
        (_, None) => Ok(Seq::empty()),
        (_, Some(path)) => match candidate_verdict(snapshot, changeset_id, path) {
            Err(refusal) => Err(refusal),
            Ok(bytes) => diff_text(bytes, "candidate file "@, path),
        },
    }
}

/// The diff of one operation.
pub open spec fn operation_diff(
    snapshot: ProjectSnapshot,
    changeset_id: Seq<char>,
    op: OperationModel,
) -> Result<Seq<char>, Refusal> {
    match (
        text_before_operation(snapshot, op),
        text_after_operation(snapshot, changeset_id, op),
    ) {
        (Err(refusal), _) => Err(refusal),
        (_, Err(refusal)) => Err(refusal),
        (Ok(before), Ok(after)) => Ok(
            unified_diff(before, after, "a/"@ + op.path, "b/"@ + op.path),
        ),
    }
}

fn diff_operation(snapshot: &ProjectSnapshot, changeset_id: &EntityId, op: &FileOperation) -> (r: Result<
    String,
    ValidationError,
>)
    ensures
        text_verdict(r) == operation_diff(*snapshot, changeset_id@, op@),
{
    let before = match op.kind {
        OperationKind::Create => Ok(String::new()),
        _ => match find_file(snapshot.canon.as_slice(), op.path.as_str()) {
            None => Ok(String::new()),
            Some(entry) => read_utf8_bytes(
                entry.bytes.as_slice(),
                "canon file ",
                op.path.as_str(),
            ),
        },
    };
    let before = match before {
        Err(error) => {
            return Err(error);
        },
        Ok(text) => text,
    };
    let after = match (op.kind, &op.candidate_path) {
        (OperationKind::Delete, _) => Ok(String::new()),
        (_, None) => Ok(String::new()),
        (_, Some(path)) => match read_candidate(snapshot, changeset_id, path.as_str()) {
            Err(error) => Err(error),
            Ok(bytes) => read_utf8_bytes(bytes.as_slice(), "candidate file ", path.as_str()),
        },
    };
    let after = match after {
        Err(error) => {
            return Err(error);
        },
        Ok(text) => text,
    };
    let mut old_name = "a/".to_owned();
    old_name.append(op.path.as_str());
    let mut new_name = "b/".to_owned();
    new_name.append(op.path.as_str());
    Ok(diff_lines(before.as_str(), after.as_str(), old_name.as_str(), new_name.as_str()))
}

/// Whether the operation `at` comes first in path order among those that are not done; of equal
/// paths the earlier operation.
pub open spec fn is_next(ops: Seq<OperationModel>, done: Set<int>, at: int) -> bool {
    &&& 0 <= at < ops.len() && !done.contains(at)
    &&& forall|j: int|
        0 <= j < ops.len() && !done.contains(j) && j != at ==> path_before(
            ops[at].path,
            (#[trigger] ops[j]).path,
        ) || (ops[at].path == ops[j].path && at < j)
}

/// Whether a sequence names every operation once, in path order.
pub open spec fn is_path_order(ops: Seq<OperationModel>, order: Seq<int>) -> bool {
    &&& order.len() == ops.len()
    &&& forall|k: int|
        0 <= k < order.len() ==> is_next(ops, order.take(k).to_set(), #[trigger] order[k])
}

/// The diffs of operations in a given order, from `k` on, or the first refusal.
pub open spec fn diffs_from(
    snapshot: ProjectSnapshot,
    changeset_id: Seq<char>,
    ops: Seq<OperationModel>,
    order: Seq<int>,
    k: int,
    text: Seq<char>,
) -> Result<Seq<char>, Refusal>
    decreases order.len() - k,
{
    if k < 0 || k >= order.len() {
        Ok(text)
    } else {
        match operation_diff(snapshot, changeset_id, ops[order[k]]) {
            Err(refusal) => Err(refusal),
            Ok(diff) => diffs_from(snapshot, changeset_id, ops, order, k + 1, text + diff),
        }
    }
}

fn find_next(ops: &[FileOperation], done: &[bool], Ghost(set): Ghost<Set<int>>) -> (r: Option<usize>)
    requires
        done@.len() == ops@.len(),
        forall|j: int| 0 <= j < ops@.len() ==> (#[trigger] done@[j] <==> set.contains(j)),
    ensures
        match r {
            Some(at) => is_next(operation_models(ops@), set, at as int),
            None => forall|j: int| 0 <= j < ops@.len() ==> #[trigger] done@[j],
        },
{
    let ghost all = operation_models(ops@);
    let mut best: Option<usize> = None;
    let mut i: usize = 0;
    while i < ops.len()
        invariant
            i <= ops@.len(),
            all == operation_models(ops@),
            done@.len() == ops@.len(),
            forall|j: int| 0 <= j < ops@.len() ==> (#[trigger] done@[j] <==> set.contains(j)),
            match best {
                Some(at) => at < i && !done@[at as int] && forall|j: int|
                    0 <= j < i && !set.contains(j) && j != at ==> path_before(
                        all[at as int].path,
                        (#[trigger] all[j]).path,
                    ) || (all[at as int].path == all[j].path && at < j),
                None => forall|j: int| 0 <= j < i ==> #[trigger] done@[j],
            },
        decreases ops@.len() - i,
    {
        assert(all[i as int] == ops@[i as int]@);
        if !done[i] {
            match best {
                None => {
                    assert forall|j: int| 0 <= j < i + 1 && !set.contains(j) && j != i implies false
                        by {
                        assert(done@[j]);
                    }
                    best = Some(i);
                },
                Some(at) => {
                    assert(all[at as int] == ops@[at as int]@);
                    if before_path(ops[i].path.as_str(), ops[at].path.as_str()) {
                        assert forall|j: int|
                            0 <= j < i + 1 && !set.contains(j) && j != i implies path_before(
                            all[i as int].path,
                            (#[trigger] all[j]).path,
                        ) || (all[i as int].path == all[j].path && (i as int) < j) by {
                            crate::paths::path_before_is_strict_order(
                                all[i as int].path,
                                all[at as int].path,
                                all[j].path,
                            );
                        }
                        best = Some(i);
                    } else {
                        proof {
                            crate::paths::path_before_is_strict_order(
                                all[i as int].path,
                                all[at as int].path,
                                all[i as int].path,
                            );
                        }
                    }
                },
            }
        }
        i += 1;
    }
    best
}

/// Renders the diffs of a valid set of operations in path order.
pub fn render_diff(project: &Project, snapshot: &ProjectSnapshot, change: &Changeset) -> (r: Result<
    String,
    ValidationError,
>)
    ensures
        match operations_verdict(
            *snapshot,
            project.config.work_id@,
            change@.id,
            change@.operations,
        ) {
            Err(refusal) => text_verdict(r) == Err::<Seq<char>, Refusal>(refusal),
            Ok(()) => exists|order: Seq<int>|
                #[trigger] is_path_order(change@.operations, order) && text_verdict(r)
                    == diffs_from(
                    *snapshot,
                    change@.id,
                    change@.operations,
                    order,
                    0,
                    Seq::empty(),
                ),
        },
{
    match validate_operations(
        snapshot,
        &project.config.work_id,
        &change.id,
        change.operations.as_slice(),
    ) {
        Err(error) => {
            return Err(error);
        },
        Ok(()) => {},
    }
    let ops = &change.operations;
    let order = path_order(ops.as_slice());
    let ghost indices = order@.map_values(|i: usize| i as int);
    let mut out = String::new();
    let mut k: usize = 0;
    while k < order.len()
        invariant
            k <= order@.len(),
            ops@ == change.operations@,
            indices == order@.map_values(|i: usize| i as int),
            is_path_order(change@.operations, indices),
            operations_verdict(
                *snapshot,
                project.config.work_id@,
                change@.id,
                change@.operations,
            ) is Ok,
            forall|m: int| 0 <= m < order@.len() ==> #[trigger] order@[m] < ops@.len(),
            diffs_from(*snapshot, change@.id, change@.operations, indices, 0, Seq::empty())
                == diffs_from(
                *snapshot,
                change@.id,
                change@.operations,
                indices,
                k as int,
                out@,
            ),
        decreases order@.len() - k,
    {
        let at: usize = order[k];
        assert(indices[k as int] == at as int);
        assert(change@.operations[at as int] == ops@[at as int]@);
        match diff_operation(snapshot, &change.id, &ops[at]) {
            Err(error) => {
                return Err(error);
            },
            Ok(diff) => {
                out.append(diff.as_str());
            },
        }
        k += 1;
    }
    Ok(out)
}

fn path_order(ops: &[FileOperation]) -> (r: Vec<usize>)
    ensures
        is_path_order(operation_models(ops@), r@.map_values(|i: usize| i as int)),
        forall|m: int| 0 <= m < r@.len() ==> #[trigger] r@[m] < ops@.len(),
{
    let ghost all = operation_models(ops@);
    let n: usize = ops.len();
    let mut done: Vec<bool> = Vec::new();
    while done.len() < n
        invariant
            done@.len() <= n,
            forall|j: int| 0 <= j < done@.len() ==> !#[trigger] done@[j],
        decreases n - done@.len(),
    {
        done.push(false);
    }
    let mut order: Vec<usize> = Vec::new();
    let ghost mut indices: Seq<int> = Seq::empty();
    proof {
        crate::changeset::lemma_pending_all(done@);
    }
    while order.len() < n
        invariant
            order@.len() <= n,
            n == ops@.len(),
            n == done@.len(),
            all == operation_models(ops@),
            indices == order@.map_values(|i: usize| i as int),
            indices.len() == order@.len(),
            forall|m: int| 0 <= m < order@.len() ==> #[trigger] order@[m] < n,
            forall|j: int|
                0 <= j < n ==> (#[trigger] done@[j] <==> indices.to_set().contains(j)),
            forall|k: int|
                0 <= k < indices.len() ==> is_next(
                    all,
                    indices.take(k).to_set(),
                    #[trigger] indices[k],
                ),
            crate::changeset::pending(done@) + order@.len() == n,
        decreases n - order@.len(),
    {
        match find_next(ops, done.as_slice(), Ghost(indices.to_set())) {
            None => {
                proof {
                    crate::changeset::lemma_pending_none(done@);
                    assert(false);
                }
                return order;
            },
            Some(at) => {
                proof {
                    assert(!done@[at as int]);
                    crate::changeset::lemma_pending_update(done@, at as int);
                }
                let ghost before = indices;
                order.push(at);
                done.set(at, true);
                proof {
                    indices = indices.push(at as int);
                    assert(indices =~= order@.map_values(|i: usize| i as int));
                    assert(indices.take(before.len() as int) =~= before);
                    assert forall|j: int| 0 <= j < n implies (#[trigger] done@[j]
                        <==> indices.to_set().contains(j)) by {
                        assert(indices[before.len() as int] == at as int);
                        if before.to_set().contains(j) {
                            let w = choose|w: int| 0 <= w < before.len() && before[w] == j;
                            assert(indices[w] == j);
                        }
                        if indices.to_set().contains(j) && j != at {
                            let w = choose|w: int| 0 <= w < indices.len() && indices[w] == j;
                            assert(before[w] == j);
                        }
                    }
                    assert forall|k: int| 0 <= k < indices.len() implies is_next(
                        all,
                        indices.take(k).to_set(),
                        #[trigger] indices[k],
                    ) by {
                        if k < before.len() {
                            assert(indices.take(k) =~= before.take(k));
                            assert(indices[k] == before[k]);
                        }
                    }
                }
            },
        }
    }
    order
}

} // verus!
