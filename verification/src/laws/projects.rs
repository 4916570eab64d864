//! What a project is made of, and what is read of it.
use vstd::prelude::*;
use crate::changeset::{OperationKind, OperationModel, Refusal};
use crate::domain::{is_id_of, EntityKind};
use crate::paths::{content_of, files, same_ignoring_case, FileModel};
use crate::project::{config_fields, initial_files, is_delimiter, relative_path_error, yaml_pair_text};
use crate::text::{split, text_of, utf8};
use crate::validation::{config_verdict, operation_diff, text_after_operation, text_before_operation, unified_diff, walk_verdict, EntryKind, ProjectSnapshot, WalkModel};

verus! {

/// A new project has every document that a project must have, each with its identifier, and one
/// candidate that nobody has approved.
pub proof fn new_project_has_every_document(
    title: Seq<char>,
    work_id: Seq<char>,
    candidate_id: Seq<char>,
)
    ensures
        ({
            let list = initial_files(title, work_id, candidate_id);
            let front = |id: Seq<char>| utf8("---\n"@ + yaml_pair_text("id"@, id) + "---\n"@);
            &&& list.len() == 12
            &&& list[0].0 == "project.toml"@
            &&& list[1].0 == ".phemius/local.toml"@
            &&& list[2].0 == "AGENTS.md"@
            &&& list[3] == ("前提/作品.md"@, front(work_id))
            &&& list[4] == ("前提/世界観設定.md"@, front("world_1"@))
            &&& list[5] == ("前提/時系列.md"@, front("timeline_1"@))
            &&& list[6] == ("前提/伏線.md"@, front("foreshadowing_1"@))
            &&& list[7] == ("前提/文章スタイル.md"@, front("style_1"@))
            &&& list[8] == ("前提/執筆ルール.md"@, front("rules_1"@))
            &&& list[9] == ("箱書き/構成.md"@, front("structure_1"@))
            &&& list[10] == ("資料/manifest.md"@, front("manifest_1"@))
            &&& list[11].0 == ".phemius/runtime/candidates/"@ + candidate_id + "/init.toml"@
        }),
{
}

/// A path of a project is relative, does not climb and does not enter a repository.
pub proof fn project_paths_stay_inside(path: Seq<char>, i: int)
    requires
        0 <= i < split(path, '/').len(),
    ensures
        path.len() > 0 && path[0] == '/' ==> relative_path_error(path) is Some,
        split(path, '/')[i] == ".."@ ==> relative_path_error(path) is Some,
        split(path, '/')[i] == ".git"@ ==> relative_path_error(path) is Some,
{
    reveal_strlit("..");
    reveal_strlit(".");
    reveal_strlit(".git");
    let piece = split(path, '/')[i];
    if piece == ".."@ {
        assert(piece.len() == 2);
        assert(!crate::paths::is_skipped_piece(piece, i));
    }
    if piece == ".git"@ {
        assert(piece.len() == 4);
        assert(!crate::paths::is_skipped_piece(piece, i));
    }
}

/// The settings of a project hold a version that fits a byte and a name for the work.
pub proof fn settings_need_version_and_work(version: Option<i64>, work_id: Option<Seq<char>>)
    ensures
        config_fields(version, work_id) is Some <==> version is Some && 0 <= version->Some_0 <= 255
            && work_id is Some,
        config_fields(version, work_id) matches Some(fields) ==> fields.0 as int
            == version->Some_0 && Some(fields.1) == work_id,
{
}

/// A change leaves the settings of a project in the first format and with the name of the work.
pub proof fn settings_keep_the_work(work_id: Seq<char>, tree: Seq<FileModel>)
    ensures
        config_verdict(work_id, tree) is Ok ==> (content_of(tree, "project.toml"@) matches Some(bytes)
            && (crate::project::config_of(text_of(bytes)) matches Some((version, id)) && version == 1
            && id == work_id && is_id_of(id, EntityKind::Work))),
{
}

/// A line of three dashes, however it ends, marks off front matter; no other line does.
pub proof fn three_dashes_mark_front_matter(line: Seq<u8>)
    ensures
        is_delimiter(line) <==> line == seq![45u8, 45, 45] || line == seq![45u8, 45, 45, 10] || line
            == seq![45u8, 45, 45, 13] || line == seq![45u8, 45, 45, 13, 10],
        is_delimiter(line) ==> 3 <= line.len() <= 5 && line[0] == 45 && line[1] == 45 && line[2]
            == 45,
{
}

/// What is read of a project: plain files, and what lies in its directories. Links and devices are
/// refused, and repositories, the runtime directory and the local settings are passed over.
pub proof fn projects_are_read_without_links(
    relative: Seq<char>,
    name: Seq<char>,
    kind: EntryKind,
    path: Seq<char>,
)
    requires
        relative.len() == 0 ==> path == name,
        relative.len() > 0 ==> path == relative + "/"@ + name,
    ensures
        walk_verdict(relative, name, kind) matches Ok(WalkModel::Read(read)) ==> read == path && kind
            == EntryKind::File,
        walk_verdict(relative, name, kind) matches Ok(WalkModel::Descend(into)) ==> into == path
            && kind == EntryKind::Directory,
        walk_verdict(relative, name, kind) is Ok && (kind == EntryKind::Symlink || kind
            == EntryKind::Special) ==> (walk_verdict(relative, name, kind) matches Ok(
            WalkModel::Skip,
        )),
        walk_verdict(relative, name, kind) matches Ok(WalkModel::Skip) ==> names_own_matter(
            split(path, '/'),
        ),
{
    if let Ok(WalkModel::Skip) = walk_verdict(relative, name, kind) {
        assert(crate::validation::is_outside_canon(split(path, '/')));
    }
}

/// Whether a path enters a repository, the runtime directory or the local settings.
pub open spec fn names_own_matter(pieces: Seq<Seq<char>>) -> bool {
    ||| exists|i: int| 0 <= i < pieces.len() && same_ignoring_case(#[trigger] pieces[i], ".git"@)
    ||| pieces.len() >= 2 && same_ignoring_case(pieces[0], ".phemius"@) && same_ignoring_case(
        pieces[1],
        "runtime"@,
    )
    ||| pieces.len() == 2 && same_ignoring_case(pieces[0], ".phemius"@) && same_ignoring_case(
        pieces[1],
        "local.toml"@,
    )
}

/// A difference is shown between what is there and what is to be there: nothing is there before a
/// file is created, and nothing after it is deleted.
pub proof fn difference_is_between_before_and_after(
    snapshot: ProjectSnapshot,
    id: Seq<char>,
    op: OperationModel,
)
    ensures
        op.kind == OperationKind::Create ==> text_before_operation(snapshot, op) == Ok::<
            Seq<char>,
            Refusal,
        >(Seq::empty()),
        op.kind == OperationKind::Delete ==> text_after_operation(snapshot, id, op) == Ok::<
            Seq<char>,
            Refusal,
        >(Seq::empty()),
        op.kind != OperationKind::Create ==> (text_before_operation(snapshot, op) matches Ok(before)
            ==> (content_of(files(snapshot.canon@), op.path) matches Some(bytes) ==> before
            == text_of(bytes))),
        operation_diff(snapshot, id, op) matches Ok(shown) ==> (text_before_operation(snapshot, op)
            matches Ok(before) && (text_after_operation(snapshot, id, op) matches Ok(after) && shown
            == unified_diff(before, after, "a/"@ + op.path, "b/"@ + op.path))),
{
}

} // verus!
