//! Which changes of files are applied, and what they make of the project.
use vstd::prelude::*;
use crate::changeset::{candidate_changed, invalidated, record_path, ChangeModel, ChangesetState, DependencyModel, OperationKind, OperationModel};
use crate::domain::is_known_id;
use crate::hash::digest_text;
use crate::paths::{all_plain, content_of, files, is_ordered, is_plain_name, path_before, read_after_remove, read_after_write, removed, same_ignoring_case, write_keeps_order, written, FileModel};
use crate::text::{has_prefix, split};
use crate::validation::{alias_holder, alias_key, approval_chain, approval_model, approval_of, candidate_verdict, chain_from, change_verdict, dependencies_verdict, is_artifact, is_outside_canon, operation_verdict, operations_from, order_holder, order_verdict, projected, projected_content, replaced_verdict, semantic_id, static_verdict, target_lexical_verdict, ApprovalFile, ProjectSnapshot};

verus! {

proof fn lemma_operation(
    snapshot: ProjectSnapshot,
    work_id: Seq<char>,
    id: Seq<char>,
    ops: Seq<OperationModel>,
    from: int,
    i: int,
)
    requires
        0 <= from <= i < ops.len(),
        operations_from(snapshot, work_id, id, ops, from) is Ok,
    ensures
        operation_verdict(snapshot, work_id, id, ops, i) is Ok,
    decreases i - from,
{
    if from < i {
        lemma_operation(snapshot, work_id, id, ops, from + 1, i);
    }
}

/// A changeset that is valid writes to no path that leaves the project, enters a repository, the
/// runtime directory, the local settings or the approval records, and to none twice.
pub proof fn valid_changeset_keeps_to_canon(
    snapshot: ProjectSnapshot,
    work_id: Seq<char>,
    change: ChangeModel,
    i: int,
    p: int,
    j: int,
)
    requires
        change_verdict(snapshot, work_id, change) is Ok,
        0 <= i < change.operations.len(),
    ensures
        ({
            let path = change.operations[i].path;
            let pieces = split(path, '/');
            &&& path.len() > 0 && path[0] != '/'
            &&& 0 <= p < pieces.len() ==> pieces[p].len() > 0 && pieces[p] != "."@ && pieces[p]
                != ".."@ && !same_ignoring_case(pieces[p], ".git"@)
            &&& !(pieces.len() >= 2 && same_ignoring_case(pieces[0], ".phemius"@)
                && same_ignoring_case(pieces[1], "runtime"@))
            &&& !(pieces.len() == 2 && same_ignoring_case(pieces[0], ".phemius"@)
                && same_ignoring_case(pieces[1], "local.toml"@))
            &&& !has_prefix(alias_key(path), ".phemius/records/approvals/"@)
            &&& alias_key(path) != ".phemius/records/approvals"@
            &&& 0 <= j < i ==> alias_key(change.operations[j].path) != alias_key(path)
        }),
{
    let ops = change.operations;
    lemma_operation(snapshot, work_id, change.id, ops, 0, i);
    let path = ops[i].path;
    let pieces = split(path, '/');
    assert(target_lexical_verdict(path) is Ok);
    assert(all_plain(path));
    assert(!is_outside_canon(pieces));
    if 0 <= p < pieces.len() {
        assert(is_plain_name(pieces[p]));
        assert(!same_ignoring_case(pieces[p], ".git"@));
    }
    if 0 <= j < i {
        assert(alias_key(ops[j].path) != alias_key(path));
    }
}

/// A file that a valid changeset creates was not there, under that name or one that folds to it; one
/// that it replaces or deletes was there with the content that the changeset was made from. What it
/// writes is a file of its own with the content that it announces.
pub proof fn valid_operation_fits_the_project(
    snapshot: ProjectSnapshot,
    work_id: Seq<char>,
    change: ChangeModel,
    i: int,
)
    requires
        change_verdict(snapshot, work_id, change) is Ok,
        0 <= i < change.operations.len(),
    ensures
        ({
            let op = change.operations[i];
            let canon = files(snapshot.canon@);
            &&& op.kind == OperationKind::Create ==> alias_holder(canon, alias_key(op.path), 0)
                is None
            &&& op.kind != OperationKind::Create ==> (content_of(canon, op.path) matches Some(bytes)
                && op.before_sha256 == Some(digest_text(bytes)))
            &&& op.kind == OperationKind::Replace ==> op.before_sha256 != op.after_sha256
            &&& op.kind == OperationKind::Delete ==> op.candidate_path is None && op.after_sha256
                is None
            &&& op.kind != OperationKind::Delete ==> (op.candidate_path matches Some(path)
                && has_prefix(path, ".phemius/runtime/candidates/"@ + change.id + "/"@) && (
            candidate_verdict(snapshot, change.id, path) matches Ok(bytes) && op.after_sha256
                == Some(digest_text(bytes))))
            &&& op.affected_entities.len() > 0
            &&& forall|k: int|
                0 <= k < op.affected_entities.len() ==> is_known_id(
                    #[trigger] op.affected_entities[k],
                )
        }),
{
    lemma_operation(snapshot, work_id, change.id, change.operations, 0, i);
    let op = change.operations[i];
    assert(crate::validation::shape_valid(op, files(snapshot.canon@)));
}

/// No valid changeset deletes a file that every project has.
pub proof fn required_files_are_not_deleted(
    snapshot: ProjectSnapshot,
    work_id: Seq<char>,
    change: ChangeModel,
    i: int,
)
    requires
        change_verdict(snapshot, work_id, change) is Ok,
        0 <= i < change.operations.len(),
        change.operations[i].kind == OperationKind::Delete,
    ensures
        ({
            let key = alias_key(change.operations[i].path);
            key != "project.toml"@ && key != "agents.md"@ && key != "前提/作品.md"@ && key
                != "前提/世界観設定.md"@ && key != "前提/時系列.md"@ && key != "前提/伏線.md"@
                && key != "前提/文章スタイル.md"@ && key != "前提/執筆ルール.md"@ && key
                != "箱書き/構成.md"@ && key != "資料/manifest.md"@
        }),
{
    lemma_operation(snapshot, work_id, change.id, change.operations, 0, i);
}

/// A valid changeset is approvable, has no open blocker, and stands on the project as it is: it is
/// the first chapter of a project without approvals, or the next one behind the last approval, which
/// it names as its parent and among its dependencies.
pub proof fn valid_changeset_is_next(
    snapshot: ProjectSnapshot,
    work_id: Seq<char>,
    change: ChangeModel,
)
    requires
        change_verdict(snapshot, work_id, change) is Ok,
    ensures
        change.state == ChangesetState::Approvable,
        change.unresolved_blocker_ids.len() == 0,
        approval_chain(snapshot.approvals@) matches Ok(chain) && {
            &&& chain.len() == 0 ==> change.chapter_order == 1 && change.parent_changeset_id is None
                && change.dependencies.len() == 0
            &&& chain.len() > 0 && chain.last().2 < u32::MAX ==> change.chapter_order
                == chain.last().2 + 1
            &&& chain.len() > 0 ==> change.parent_changeset_id == Some(chain.last().0)
                && change.dependencies.contains(chain.last())
        },
{
}

proof fn lemma_chain(list: Seq<ApprovalFile>, order: int, chain: Seq<DependencyModel>, k: int)
    requires
        1 <= order,
        chain.len() == order - 1,
        forall|x: int| 0 <= x < chain.len() ==> (#[trigger] chain[x]).2 == x + 1,
        chain_from(list, order, chain) is Ok,
        order - 1 <= list.len(),
    ensures
        chain_from(list, order, chain)->Ok_0.len() == list.len(),
        0 <= k < list.len() ==> chain_from(list, order, chain)->Ok_0[k].2 == k + 1,
    decreases list.len() - order + 1,
{
    if order <= list.len() {
        let i = order_holder(list, order, 0)->Some_0;
        lemma_holder(list, order, 0);
        let next = chain.push(approval_model(list[i]));
        assert forall|x: int| 0 <= x < next.len() implies (#[trigger] next[x]).2 == x + 1 by {
            if x < chain.len() {
                assert(next[x] == chain[x]);
            }
        }
        lemma_chain(list, order + 1, next, k);
    }
}

proof fn lemma_holder(list: Seq<ApprovalFile>, order: int, i: int)
    requires
        0 <= i,
    ensures
        order_holder(list, order, i) matches Some(k) ==> i <= k < list.len() && list[k].record is Ok
            && list[k].record->Ok_0.chapter_order == order,
    decreases list.len() - i,
{
    if i < list.len() {
        lemma_holder(list, order, i + 1);
    }
}

/// The approvals of a project are those of its chapters from the first on, one for each, without a
/// gap.
pub proof fn approvals_have_no_gap(list: Seq<ApprovalFile>, k: int)
    requires
        approval_chain(list) is Ok,
        0 <= k < list.len(),
    ensures
        approval_chain(list)->Ok_0.len() == list.len(),
        approval_chain(list)->Ok_0[k].2 == k + 1,
{
    lemma_chain(list, 1, Seq::empty(), k);
}

proof fn lemma_dependency(
    chain: Seq<DependencyModel>,
    deps: Seq<DependencyModel>,
    order: u32,
    from: int,
    i: int,
)
    requires
        0 <= from <= i < deps.len(),
        dependencies_verdict(chain, deps, order, from) is Ok,
    ensures
        chain.contains(deps[i]),
        deps[i].2 < order,
    decreases i - from,
{
    if from < i {
        lemma_dependency(chain, deps, order, from + 1, i);
    } else {
        lemma_approval(chain, deps[i].0, 0);
        let found = approval_of(chain, deps[i].0, 0)->Some_0;
        assert(found == deps[i]);
    }
}

proof fn lemma_approval(chain: Seq<DependencyModel>, id: Seq<char>, i: int)
    requires
        0 <= i,
    ensures
        approval_of(chain, id, i) matches Some(found) ==> found.0 == id && chain.contains(found),
    decreases chain.len() - i,
{
    if i < chain.len() && chain[i].0 != id {
        lemma_approval(chain, id, i + 1);
    }
}

/// What a valid changeset depends on was approved, is unchanged since, and comes earlier.
pub proof fn dependencies_are_earlier_approvals(
    snapshot: ProjectSnapshot,
    work_id: Seq<char>,
    change: ChangeModel,
    i: int,
)
    requires
        change_verdict(snapshot, work_id, change) is Ok,
        0 <= i < change.dependencies.len(),
    ensures
        approval_chain(snapshot.approvals@) matches Ok(chain) && chain.contains(
            change.dependencies[i],
        ) && change.dependencies[i].2 < change.chapter_order,
{
    let chain = approval_chain(snapshot.approvals@)->Ok_0;
    assert(order_verdict(chain, change) is Ok);
    lemma_dependency(chain, change.dependencies, change.chapter_order, 0, i);
}

spec fn touches(ops: Seq<OperationModel>, from: int, path: Seq<char>) -> bool {
    exists|k: int| from <= k < ops.len() && (#[trigger] ops[k]).path == path
}

proof fn lemma_removed_ordered(tree: Seq<FileModel>, path: Seq<char>)
    requires
        is_ordered(tree),
    ensures
        is_ordered(removed(tree, path)),
        forall|i: int|
            0 <= i < removed(tree, path).len() ==> tree.contains(#[trigger] removed(tree, path)[i]),
    decreases tree.len(),
{
    if tree.len() > 0 {
        let rest = tree.skip(1);
        assert forall|i: int, j: int| 0 <= i < j < rest.len() implies path_before(
            (#[trigger] rest[i]).0,
            (#[trigger] rest[j]).0,
        ) by {
            assert(rest[i] == tree[i + 1] && rest[j] == tree[j + 1]);
        }
        assert forall|i: int| 0 <= i < rest.len() implies tree.contains(#[trigger] rest[i]) by {
            assert(rest[i] == tree[i + 1]);
        }
        if tree[0].0 != path {
            lemma_removed_ordered(rest, path);
            let v = removed(rest, path);
            let w = removed(tree, path);
            assert(w == seq![tree[0]] + v);
            assert forall|i: int| 0 <= i < v.len() implies path_before(
                tree[0].0,
                (#[trigger] v[i]).0,
            ) && tree.contains(v[i]) by {
                let j = choose|j: int| 0 <= j < rest.len() && rest[j] == v[i];
                assert(rest[j] == tree[j + 1]);
                assert(path_before(tree[0].0, tree[j + 1].0));
            }
            assert forall|i: int, j: int| 0 <= i < j < w.len() implies path_before(
                (#[trigger] w[i]).0,
                (#[trigger] w[j]).0,
            ) by {
                assert(w[j] == v[j - 1]);
                if i > 0 {
                    assert(w[i] == v[i - 1]);
                }
            }
            assert forall|i: int| 0 <= i < w.len() implies tree.contains(#[trigger] w[i]) by {
                if i > 0 {
                    assert(w[i] == v[i - 1]);
                } else {
                    assert(w[0] == tree[0]);
                }
            }
        }
    }
}

proof fn lemma_untouched(
    snapshot: ProjectSnapshot,
    change: ChangeModel,
    i: int,
    tree: Seq<FileModel>,
    path: Seq<char>,
)
    requires
        0 <= i <= change.operations.len(),
        projected(snapshot, change, i, tree) is Ok,
        is_ordered(tree),
        !touches(change.operations, i, path),
    ensures
        content_of(projected(snapshot, change, i, tree)->Ok_0, path) == content_of(tree, path),
    decreases change.operations.len() - i,
{
    if i < change.operations.len() {
        let op = change.operations[i];
        assert(op.path != path);
        if op.kind == OperationKind::Delete {
            read_after_remove(tree, op.path, path);
            lemma_removed_ordered(tree, op.path);
            lemma_untouched(snapshot, change, i + 1, removed(tree, op.path), path);
        } else {
            let bytes = candidate_verdict(snapshot, change.id, op.candidate_path->Some_0)->Ok_0;
            read_after_write(tree, op.path, bytes, path);
            write_keeps_order(tree, op.path, bytes);
            lemma_untouched(snapshot, change, i + 1, written(tree, op.path, bytes), path);
        }
    }
}

proof fn lemma_touched(
    snapshot: ProjectSnapshot,
    change: ChangeModel,
    i: int,
    tree: Seq<FileModel>,
    k: int,
)
    requires
        0 <= i <= k < change.operations.len(),
        projected(snapshot, change, i, tree) is Ok,
        is_ordered(tree),
        !touches(change.operations, k + 1, change.operations[k].path),
    ensures
        ({
            let op = change.operations[k];
            let after = content_of(projected(snapshot, change, i, tree)->Ok_0, op.path);
            &&& op.kind == OperationKind::Delete ==> after is None
            &&& op.kind != OperationKind::Delete ==> (op.candidate_path matches Some(path) && (
            candidate_verdict(snapshot, change.id, path) matches Ok(bytes) && after == Some(bytes)))
        }),
    decreases k - i,
{
    let op = change.operations[i];
    let next = if op.kind == OperationKind::Delete {
        removed(tree, op.path)
    } else {
        written(
            tree,
            op.path,
            candidate_verdict(snapshot, change.id, op.candidate_path->Some_0)->Ok_0,
        )
    };
    if op.kind == OperationKind::Delete {
        read_after_remove(tree, op.path, op.path);
        lemma_removed_ordered(tree, op.path);
    } else {
        let bytes = candidate_verdict(snapshot, change.id, op.candidate_path->Some_0)->Ok_0;
        read_after_write(tree, op.path, bytes, op.path);
        write_keeps_order(tree, op.path, bytes);
    }
    if i < k {
        lemma_touched(snapshot, change, i + 1, next, k);
    } else {
        lemma_untouched(snapshot, change, i + 1, next, op.path);
    }
}

/// What a changeset makes of the project: a file that it creates or replaces has the content of its
/// candidate, one that it deletes is gone, and every other file is as it was.
pub proof fn changeset_makes_what_it_says(
    snapshot: ProjectSnapshot,
    change: ChangeModel,
    k: int,
    other: Seq<char>,
)
    requires
        projected_content(snapshot, change) is Ok,
        is_ordered(files(snapshot.canon@)),
        0 <= k < change.operations.len(),
        forall|a: int, b: int|
            0 <= a < b < change.operations.len() ==> (#[trigger] change.operations[a]).path
                != (#[trigger] change.operations[b]).path,
        forall|a: int|
            0 <= a < change.operations.len() ==> (#[trigger] change.operations[a]).path != other,
    ensures
        ({
            let op = change.operations[k];
            let tree = projected_content(snapshot, change)->Ok_0;
            &&& op.kind == OperationKind::Delete ==> content_of(tree, op.path) is None
            &&& op.kind != OperationKind::Delete ==> (op.candidate_path matches Some(path) && (
            candidate_verdict(snapshot, change.id, path) matches Ok(bytes) && content_of(
                tree,
                op.path,
            ) == Some(bytes)))
            &&& content_of(tree, other) == content_of(files(snapshot.canon@), other)
        }),
{
    let tree = files(snapshot.canon@);
    lemma_untouched(snapshot, change, 0, tree, other);
    lemma_touched(snapshot, change, 0, tree, k);
}

proof fn lemma_replaced(
    ops: Seq<OperationModel>,
    base: Seq<FileModel>,
    tree: Seq<FileModel>,
    from: int,
    i: int,
)
    requires
        0 <= from <= i < ops.len(),
        replaced_verdict(ops, base, tree, from) is Ok,
        ops[i].kind == OperationKind::Replace,
        is_artifact(ops[i].path),
    ensures
        content_of(base, ops[i].path) is Some && content_of(tree, ops[i].path) is Some,
        semantic_id(content_of(base, ops[i].path)->Some_0, ops[i].path) is Ok,
        semantic_id(content_of(base, ops[i].path)->Some_0, ops[i].path) == semantic_id(
            content_of(tree, ops[i].path)->Some_0,
            ops[i].path,
        ),
    decreases i - from,
{
    if from < i {
        lemma_replaced(ops, base, tree, from + 1, i);
    }
}

/// A document that a valid changeset replaces keeps its identifier.
pub proof fn replaced_document_keeps_its_identifier(
    snapshot: ProjectSnapshot,
    work_id: Seq<char>,
    change: ChangeModel,
    i: int,
)
    requires
        change_verdict(snapshot, work_id, change) is Ok,
        0 <= i < change.operations.len(),
        change.operations[i].kind == OperationKind::Replace,
        is_artifact(change.operations[i].path),
    ensures
        ({
            let path = change.operations[i].path;
            let before = content_of(files(snapshot.canon@), path);
            let after = content_of(projected_content(snapshot, change)->Ok_0, path);
            before is Some && after is Some && semantic_id(before->Some_0, path) == semantic_id(
                after->Some_0,
                path,
            )
        }),
{
    let tree = projected_content(snapshot, change)->Ok_0;
    lemma_replaced(change.operations, files(snapshot.canon@), tree, 0, i);
}

/// A changeset behind one that changed must be validated anew: an approved one needs revalidation
/// and any other is stale, and neither keeps its validation. Nothing else of it changes.
pub proof fn outdated_changeset_is_not_valid(change: ChangeModel)
    ensures
        invalidated(change).validation_hash is None,
        change.state == ChangesetState::Approved || change.state == ChangesetState::NeedsRevalidation
            ==> invalidated(change).state == ChangesetState::NeedsRevalidation,
        change.state != ChangesetState::Approved && change.state != ChangesetState::NeedsRevalidation
            ==> invalidated(change).state == ChangesetState::Stale,
        invalidated(change).operations == change.operations,
        invalidated(change).id == change.id,
        static_verdict(invalidated(change)) is Err,
{
}

/// A changeset whose candidate changed is under review again, without a validation, and known by the
/// digest of the new candidate.
pub proof fn changed_candidate_is_reviewed_again(change: ChangeModel, hash: Seq<char>)
    ensures
        candidate_changed(change, hash).candidate_hash == hash,
        candidate_changed(change, hash).validation_hash is None,
        candidate_changed(change, hash).state == ChangesetState::Reviewing,
        candidate_changed(change, hash).id == change.id,
        candidate_changed(change, hash).operations == change.operations,
        static_verdict(candidate_changed(change, hash)) is Err,
{
}

/// The approval of a change is kept under its identifier, apart from those of others.
pub proof fn approval_is_kept_under_its_identifier(a: Seq<char>, b: Seq<char>)
    ensures
        record_path(a) == ".phemius/records/approvals/"@ + a + ".json"@,
        record_path(a) == record_path(b) ==> a == b,
{
    let front = ".phemius/records/approvals/"@;
    let end = ".json"@;
    if record_path(a) == record_path(b) {
        assert(record_path(a).len() == front.len() + a.len() + end.len());
        assert(record_path(b).len() == front.len() + b.len() + end.len());
        assert forall|i: int| 0 <= i < a.len() implies a[i] == b[i] by {
            assert(record_path(a)[front.len() + i] == a[i]);
            assert(record_path(b)[front.len() + i] == b[i]);
        }
        assert(a =~= b);
    }
}

} // verus!
