//! How skills and instructions are found.
use vstd::prelude::*;
use crate::paths::is_skipped_piece;
use crate::session::output_reserve;
use crate::skills::{directories, discovered, first_held, instruction_directories, metadata_from, metadata_of, plain_value, resource_error, skill_metadata, SkillFile, SkillModel};
use crate::table::{lookup, put, put_is_found, sorted, Entries};
use crate::text::{index_from, split, trim, trim_end};

verus! {

/// A skill has a name that is not empty and a description; without either it is refused.
pub proof fn skill_has_name_and_description(
    name: Option<Seq<char>>,
    description: Option<Seq<char>>,
)
    ensures
        metadata_of(name, description) is Ok <==> name is Some && name->Some_0.len() > 0
            && description is Some,
        metadata_of(name, description) matches Ok(skill) ==> Some(skill.0) == name && Some(skill.1)
            == description,
{
}

/// The description of a skill is read line by line: a line gives a name or a description, a further
/// one replaces the one before, other keys are passed over, and a line of dashes ends it.
pub proof fn metadata_is_read_by_lines(
    lines: Seq<Seq<char>>,
    i: int,
    name: Option<Seq<char>>,
    description: Option<Seq<char>>,
    colon: int,
)
    requires
        0 <= i < lines.len(),
        colon == index_from(trim_end(lines[i]), ':', 0),
    ensures
        ({
            let line = trim_end(lines[i]);
            let key = trim(line.take(colon));
            let value = plain_value(line.skip(colon + 1));
            &&& line == "---"@ ==> metadata_from(lines, i, name, description) == metadata_of(
                name,
                description,
            )
            &&& line != "---"@ && colon >= line.len() ==> metadata_from(lines, i, name, description)
                is Err
            &&& line != "---"@ && colon < line.len() && key == "name"@ ==> metadata_from(
                lines,
                i,
                name,
                description,
            ) == metadata_from(lines, i + 1, Some(value), description)
            &&& line != "---"@ && colon < line.len() && key == "description"@ && "name"@
                != "description"@ ==> metadata_from(lines, i, name, description) == metadata_from(
                lines,
                i + 1,
                name,
                Some(value),
            )
        }),
        metadata_from(lines, lines.len() as int, name, description) is Err,
{
}

/// A file of a skill is named by a path inside it: not an absolute one, not an empty one, and none
/// that climbs.
pub proof fn skill_files_lie_inside(path: Seq<char>, i: int)
    requires
        0 <= i < split(path, '/').len(),
    ensures
        path.len() == 0 ==> resource_error(path) is Some,
        path.len() > 0 && path[0] == '/' ==> resource_error(path) is Some,
        split(path, '/')[i] == ".."@ ==> resource_error(path) is Some,
{
    reveal_strlit("..");
    reveal_strlit(".");
    let piece = split(path, '/')[i];
    if piece == ".."@ {
        assert(piece.len() == 2);
        assert(!is_skipped_piece(piece, i));
    }
}

proof fn lemma_directories(root: Seq<char>, pieces: Seq<Seq<char>>, n: int, k: int)
    requires
        0 <= n <= pieces.len(),
    ensures
        directories(root, pieces, n).len() > 0,
        directories(root, pieces, n)[0] == root,
        0 < k < directories(root, pieces, n).len() ==> exists|p: int|
            0 <= p < n && directories(root, pieces, n)[k] == directories(root, pieces, n)[k - 1]
                + "/"@ + #[trigger] pieces[p],
    decreases n,
{
    if n > 0 {
        lemma_directories(root, pieces, n - 1, k);
        let before = directories(root, pieces, n - 1);
        let all = directories(root, pieces, n);
        if !is_skipped_piece(pieces[n - 1], n - 1) {
            if 0 < k < before.len() {
                let p = choose|p: int|
                    0 <= p < n - 1 && before[k] == before[k - 1] + "/"@ + #[trigger] pieces[p];
                assert(all[k] == all[k - 1] + "/"@ + pieces[p]);
            } else if k == before.len() {
                assert(all[k] == all[k - 1] + "/"@ + pieces[n - 1]);
            }
        }
    }
}

/// Instructions are looked for from the root of the project down to the target, one directory below
/// the other, and nowhere outside.
pub proof fn instructions_come_from_the_root_down(root: Seq<char>, target: Seq<char>, k: int)
    ensures
        instruction_directories(root, target) matches Ok(list) ==> list.len() > 0 && list[0] == root
            && (0 < k < list.len() ==> exists|name: Seq<char>|
            #[trigger] (list[k - 1] + "/"@ + name) == list[k]),
        target == root ==> instruction_directories(root, target) == Ok::<Seq<Seq<char>>, Seq<char>>(
            seq![root],
        ),
        target != root && !crate::paths::lies_under(target, root) ==> instruction_directories(
            root,
            target,
        ) is Err,
{
    if let Ok(list) = instruction_directories(root, target) {
        if target != root {
            let rest = target.skip((root + "/"@).len() as int);
            let pieces = split(rest, '/');
            lemma_directories(root, pieces, pieces.len() as int, k);
            if 0 < k < list.len() {
                let p = choose|p: int|
                    0 <= p < pieces.len() && list[k] == list[k - 1] + "/"@ + #[trigger] pieces[p];
                assert(list[k - 1] + "/"@ + pieces[p] == list[k]);
            }
        }
    }
}

/// Of the names of instruction files the first that a directory has counts.
pub proof fn first_instruction_file_counts(names: Seq<String>, held: Seq<bool>, i: int, k: int)
    requires
        0 <= i <= k < names.len(),
        names.len() == held.len(),
        held[k],
        forall|j: int| i <= j < k ==> !#[trigger] held[j],
    ensures
        first_held(names, held, i) == Some(names[k]@),
    decreases k - i,
{
    if i < k {
        assert(!held[i]);
        first_instruction_file_counts(names, held, i + 1, k);
    }
}

/// At least twenty thousand tokens are kept free for an answer, and as many as are asked for.
pub proof fn answers_have_room(requested: u64)
    ensures
        output_reserve(requested) >= requested,
        output_reserve(requested) >= 20_000,
        output_reserve(requested) == requested || output_reserve(requested) == 20_000,
{
}

proof fn lemma_discovered(list: Seq<SkillFile>, i: int, found: Entries<SkillModel>, name: Seq<char>)
    requires
        0 <= i <= list.len(),
        sorted(found),
        discovered(list, i, found) is Ok,
        lookup(found, name) is Some,
    ensures
        lookup(discovered(list, i, found)->Ok_0, name) == lookup(found, name),
    decreases list.len() - i,
{
    if i < list.len() {
        if let Ok(metadata) = skill_metadata(list[i].text@) {
            if lookup(found, metadata.0) is Some {
                lemma_discovered(list, i + 1, found, name);
            } else {
                let next = put(found, metadata.0, (metadata, list[i].path@));
                put_is_found(found, metadata.0, (metadata, list[i].path@), name);
                lemma_discovered(list, i + 1, next, name);
            }
        }
    }
}

/// Every skill that is found is known by its name; of those with the same name the first counts.
pub proof fn first_skill_of_a_name_is_known(
    list: Seq<SkillFile>,
    i: int,
    found: Entries<SkillModel>,
    k: int,
    metadata: (Seq<char>, Seq<char>),
)
    requires
        0 <= i <= k < list.len(),
        sorted(found),
        discovered(list, i, found) is Ok,
        skill_metadata(list[k].text@) == Ok::<(Seq<char>, Seq<char>), Seq<char>>(metadata),
        lookup(found, metadata.0) is None,
        forall|j: int|
            i <= j < k ==> (skill_metadata((#[trigger] list[j]).text@) matches Ok(other) && other.0
                != metadata.0),
    ensures
        lookup(discovered(list, i, found)->Ok_0, metadata.0) == Some((metadata, list[k].path@)),
    decreases k - i,
{
    if i < k {
        let other = skill_metadata(list[i].text@)->Ok_0;
        assert(other.0 != metadata.0);
        if lookup(found, other.0) is Some {
            first_skill_of_a_name_is_known(list, i + 1, found, k, metadata);
        } else {
            let next = put(found, other.0, (other, list[i].path@));
            put_is_found(found, other.0, (other, list[i].path@), metadata.0);
            first_skill_of_a_name_is_known(list, i + 1, next, k, metadata);
        }
    } else {
        let next = put(found, metadata.0, (metadata, list[k].path@));
        put_is_found(found, metadata.0, (metadata, list[k].path@), metadata.0);
        lemma_discovered(list, k + 1, next, metadata.0);
    }
}

} // verus!
