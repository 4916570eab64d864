//! Skills and instruction files.
use vstd::prelude::*;
use vstd::string::StringExecFns;
use vstd::utf8::valid_utf8;
use crate::hash::{digest_text, sha256_bytes};
use crate::paths::{components_plain, copy_bytes, is_absolute, is_absolute_path, is_skipped_piece, is_under, lies_under, plain_components};
use crate::table::{lookup, put, Entries, Table};
use crate::text::{concat2, concat3, decode, decoding_inverts_encoding, from_chars, index_from, opt_text, split, split_lines, split_text, str_eq, text_lines, text_of, texts, to_chars, trim, trim_end, trimmed};

verus! {

/// What a skill says about itself.
#[derive(Debug, PartialEq, Eq)]
pub struct SkillMetadata {
    /// Name.
    pub name: String,
    /// Description.
    pub description: String,
}

impl View for SkillMetadata {
    type V = (Seq<char>, Seq<char>);

    open spec fn view(&self) -> (Seq<char>, Seq<char>) {
        (self.name@, self.description@)
    }
}

impl SkillMetadata {
    fn copy(&self) -> (r: SkillMetadata)
        ensures
            r@ == self@,
    {
        SkillMetadata { name: self.name.clone(), description: self.description.clone() }
    }
}

/// A skill that was loaded.
#[derive(Debug, PartialEq, Eq)]
pub struct LoadedSkill {
    /// What it says about itself.
    pub metadata: SkillMetadata,
    /// Text.
    pub body: String,
    /// Digest.
    pub sha256: String,
}

/// A file of a skill, or an instruction file.
#[derive(Debug, PartialEq, Eq)]
pub struct SkillResource {
    /// Path.
    pub path: String,
    /// Text.
    pub body: String,
    /// Digest.
    pub sha256: String,
}

/// A skill file that was found.
#[derive(Debug)]
pub struct SkillFile {
    /// Path.
    pub path: String,
    /// Text.
    pub text: String,
}

/// A text without quotes before it.
pub open spec fn without_leading_quotes(s: Seq<char>) -> Seq<char>
    decreases s.len(),
{
    if s.len() > 0 && s[0] == '"' {
        without_leading_quotes(s.skip(1))
    } else {
        s
    }
}

/// A text without quotes behind it.
pub open spec fn without_trailing_quotes(s: Seq<char>) -> Seq<char>
    decreases s.len(),
{
    if s.len() > 0 && s.last() == '"' {
        without_trailing_quotes(s.drop_last())
    } else {
        s
    }
}

/// A value without white space and quotes around it.
pub open spec fn plain_value(s: Seq<char>) -> Seq<char> {
    without_trailing_quotes(without_leading_quotes(trim(s)))
}

fn unquoted(s: &str) -> (r: String)
    ensures
        r@ == without_trailing_quotes(without_leading_quotes(s@)),
{
    let chars = to_chars(s);
    let n: usize = chars.len();
    let mut a: usize = 0;
    assert(s@.subrange(0, n as int) =~= s@);
    while a < n && chars[a] == '"'
        invariant
            a <= n,
            n == chars@.len(),
            chars@ == s@,
            without_leading_quotes(s@) == without_leading_quotes(s@.subrange(a as int, n as int)),
        decreases n - a,
    {
        assert(s@.subrange(a as int, n as int).skip(1) =~= s@.subrange(a + 1, n as int));
        a += 1;
    }
    let ghost middle = s@.subrange(a as int, n as int);
    assert(without_leading_quotes(middle) == middle);
    let mut b: usize = n;
    while b > a && chars[b - 1] == '"'
        invariant
            a <= b <= n,
            n == chars@.len(),
            chars@ == s@,
            without_trailing_quotes(middle) == without_trailing_quotes(
                s@.subrange(a as int, b as int),
            ),
        decreases b,
    {
        assert(s@.subrange(a as int, b as int).drop_last() =~= s@.subrange(a as int, b - 1));
        b -= 1;
    }
    from_chars(chars.as_slice(), a, b)
}

/// The metadata in the lines of a skill file from a position on, with what was read before.
pub open spec fn metadata_from(
    lines: Seq<Seq<char>>,
    i: int,
    name: Option<Seq<char>>,
    description: Option<Seq<char>>,
) -> Result<(Seq<char>, Seq<char>), Seq<char>>
    decreases lines.len() - i,
{
    if i < 0 || i >= lines.len() {
        Err("SKILL.md metadata is not terminated"@)
    } else {
        let line = trim_end(lines[i]);
        let colon = index_from(line, ':', 0);
        if line == "---"@ {
            metadata_of(name, description)
        } else if colon >= line.len() {
            Err("invalid SKILL.md metadata line"@)
        } else {
            let key = trim(line.take(colon));
            let value = plain_value(line.skip(colon + 1));
            if key == "name"@ {
                metadata_from(lines, i + 1, Some(value), description)
            } else if key == "description"@ {
                metadata_from(lines, i + 1, name, Some(value))
            } else {
                metadata_from(lines, i + 1, name, description)
            }
        }
    }
}

/// The metadata that was read: it has a name that is not empty and a description.
pub open spec fn metadata_of(name: Option<Seq<char>>, description: Option<Seq<char>>) -> Result<
    (Seq<char>, Seq<char>),
    Seq<char>,
> {
    match name {
        None => Err("SKILL.md metadata requires name"@),
        Some(text) => if text.len() == 0 {
            Err("skill name must not be empty"@)
        } else {
            match description {
                None => Err("SKILL.md metadata requires description"@),
                Some(words) => Ok((text, words)),
            }
        },
    }
}

/// The metadata of a skill file.
pub open spec fn skill_metadata(text: Seq<char>) -> Result<(Seq<char>, Seq<char>), Seq<char>> {
    let lines = text_lines(text);
    if lines.len() == 0 || trim_end(lines[0]) != "---"@ {
        Err("SKILL.md metadata must begin with ---"@)
    } else {
        metadata_from(lines, 1, None, None)
    }
}

/// The view of metadata that was read.
pub open spec fn metadata_view(r: Result<SkillMetadata, String>) -> Result<
    (Seq<char>, Seq<char>),
    Seq<char>,
> {
    match r {
        Ok(metadata) => Ok(metadata@),
        Err(error) => Err(error@),
    }
}

fn without_end(s: &str) -> (r: String)
    ensures
        r@ == trim_end(s@),
{
    let chars = to_chars(s);
    let mut b: usize = chars.len();
    assert(s@.take(b as int) =~= s@);
    while b > 0 && crate::text::is_whitespace(chars[b - 1])
        invariant
            b <= chars@.len(),
            chars@ == s@,
            trim_end(s@) == trim_end(s@.take(b as int)),
        decreases b,
    {
        assert(s@.take(b as int).drop_last() =~= s@.take(b - 1));
        b -= 1;
    }
    assert(s@.subrange(0, b as int) =~= s@.take(b as int));
    from_chars(chars.as_slice(), 0, b)
}

fn complete(name: Option<String>, description: Option<String>) -> (r: Result<SkillMetadata, String>)
    ensures
        metadata_view(r) == metadata_of(opt_text(name), opt_text(description)),
{
    match name {
        None => Err("SKILL.md metadata requires name".to_owned()),
        Some(name) => {
            if name.as_str().is_empty() {
                return Err("skill name must not be empty".to_owned());
            }
            match description {
                None => Err("SKILL.md metadata requires description".to_owned()),
                Some(description) => Ok(SkillMetadata { name, description }),
            }
        },
    }
}

/// Reads the metadata of a skill file.
pub fn read_metadata(text: &str) -> (r: Result<SkillMetadata, String>)
    ensures
        metadata_view(r) == skill_metadata(text@),
{
    let lines = split_lines(text);
    let ghost all = text_lines(text@);
    assert(all == texts(lines@));
    if lines.len() == 0 {
        return Err("SKILL.md metadata must begin with ---".to_owned());
    }
    assert(all[0] == lines@[0]@);
    if !str_eq(without_end(lines[0].as_str()).as_str(), "---") {
        return Err("SKILL.md metadata must begin with ---".to_owned());
    }
    let ghost goal = metadata_from(all, 1, None, None);
    let mut name: Option<String> = None;
    let mut description: Option<String> = None;
    let mut i: usize = 1;
    while i < lines.len()
        invariant
            1 <= i <= lines@.len(),
            all == texts(lines@),
            all == text_lines(text@),
            trim_end(all[0]) == "---"@,
            goal == metadata_from(all, 1, None, None),
            goal == metadata_from(all, i as int, opt_text(name), opt_text(description)),
        decreases lines@.len() - i,
    {
        assert(all[i as int] == lines@[i as int]@);
        let line = without_end(lines[i].as_str());
        if str_eq(line.as_str(), "---") {
            return complete(name, description);
        }
        let chars = to_chars(line.as_str());
        let n: usize = chars.len();
        let mut colon: usize = 0;
        while colon < n && chars[colon] != ':'
            invariant
                colon <= n,
                n == chars@.len(),
                chars@ == line@,
                index_from(line@, ':', 0) == index_from(line@, ':', colon as int),
            decreases n - colon,
        {
            colon += 1;
        }
        if colon == n {
            return Err("invalid SKILL.md metadata line".to_owned());
        }
        let head = from_chars(chars.as_slice(), 0, colon);
        let tail = from_chars(chars.as_slice(), colon + 1, n);
        assert(head@ =~= line@.take(colon as int));
        assert(tail@ =~= line@.skip(colon + 1));
        let key = trimmed(head.as_str());
        let value = unquoted(trimmed(tail.as_str()).as_str());
        if str_eq(key.as_str(), "name") {
            name = Some(value);
        } else if str_eq(key.as_str(), "description") {
            description = Some(value);
        }
        i += 1;
    }
    Err("SKILL.md metadata is not terminated".to_owned())
}

/// A skill of a catalog.
#[derive(Debug)]
pub struct SkillEntry {
    metadata: SkillMetadata,
    path: String,
}

/// Name, description and path of a skill.
pub type SkillModel = ((Seq<char>, Seq<char>), Seq<char>);

impl View for SkillEntry {
    type V = SkillModel;

    closed spec fn view(&self) -> SkillModel {
        (self.metadata@, self.path@)
    }
}

/// Skills by name.
#[derive(Debug)]
pub struct SkillCatalog {
    skills: Table<SkillEntry>,
}

impl View for SkillCatalog {
    type V = Entries<SkillModel>;

    closed spec fn view(&self) -> Entries<SkillModel> {
        self.skills@
    }
}

/// The skills of files from a position on, added to some: the first skill of a name stays.
pub open spec fn discovered(list: Seq<SkillFile>, i: int, found: Entries<SkillModel>) -> Result<
    Entries<SkillModel>,
    Seq<char>,
>
    decreases list.len() - i,
{
    if i < 0 || i >= list.len() {
        Ok(found)
    } else {
        match skill_metadata(list[i].text@) {
            Err(error) => Err(error),
            Ok(metadata) => if lookup(found, metadata.0) is Some {
                discovered(list, i + 1, found)
            } else {
                discovered(list, i + 1, put(found, metadata.0, (metadata, list[i].path@)))
            },
        }
    }
}

/// What is wrong with the path of a resource.
pub open spec fn resource_error(path: Seq<char>) -> Option<Seq<char>> {
    if is_absolute_path(path) || path.len() == 0 {
        Some("skill resource path must be relative"@)
    } else if !components_plain(path, Seq::empty()) {
        Some("skill resource path escapes the skill directory"@)
    } else {
        None
    }
}

/// Checks the path of a resource.
pub fn validate_relative(path: &str) -> (r: Result<(), String>)
    ensures
        match resource_error(path@) {
            Some(error) => r is Err && r->Err_0@ == error,
            None => r is Ok,
        },
{
    if is_absolute(path) || path.is_empty() {
        return Err("skill resource path must be relative".to_owned());
    }
    proof {
        reveal_strlit("");
        assert(""@ =~= Seq::<char>::empty());
    }
    if !plain_components(path, "") {
        return Err("skill resource path escapes the skill directory".to_owned());
    }
    Ok(())
}

impl SkillCatalog {
    /// Builds a catalog from skill files in order.
    pub fn discover(list: &[SkillFile]) -> (r: Result<SkillCatalog, String>)
        ensures
            match discovered(list@, 0, Seq::empty()) {
                Ok(found) => r is Ok && r->Ok_0@ == found,
                Err(error) => r is Err && r->Err_0@ == error,
            },
    {
        let mut skills: Table<SkillEntry> = Table::new();
        let mut i: usize = 0;
        while i < list.len()
            invariant
                i <= list@.len(),
                discovered(list@, 0, Seq::empty()) == discovered(list@, i as int, skills@),
            decreases list@.len() - i,
        {
            match read_metadata(list[i].text.as_str()) {
                Err(error) => {
                    return Err(error);
                },
                Ok(metadata) => {
                    if !skills.contains(metadata.name.as_str()) {
                        let name = metadata.name.clone();
                        skills.insert(name, SkillEntry { metadata, path: list[i].path.clone() });
                    }
                },
            }
            i += 1;
        }
        Ok(SkillCatalog { skills })
    }

    /// Returns what a skill says about itself.
    pub fn get(&self, name: &str) -> (r: Option<&SkillMetadata>)
        ensures
            match r {
                Some(metadata) => lookup(self@, name@) is Some && lookup(self@, name@)->Some_0.0
                    == metadata@,
                None => lookup(self@, name@) is None,
            },
    {
        match self.skills.get(name) {
            Some(entry) => Some(&entry.metadata),
            None => None,
        }
    }

    /// Returns the path of a skill.
    pub fn path(&self, name: &str) -> (r: Result<&str, String>)
        ensures
            match lookup(self@, name@) {
                Some(skill) => r is Ok && r->Ok_0@ == skill.1,
                None => r is Err && r->Err_0@ == "unknown skill "@ + name@,
            },
    {
        match self.skills.get(name) {
            Some(entry) => Ok(entry.path.as_str()),
            None => Err(concat2("unknown skill ", name)),
        }
    }

    /// Loads a skill from the bytes of its file.
    pub fn load(&self, name: &str, bytes: &[u8]) -> (r: Result<LoadedSkill, String>)
        ensures
            match lookup(self@, name@) {
                None => r is Err && r->Err_0@ == "unknown skill "@ + name@,
                Some(skill) => if valid_utf8(bytes@) {
                    &&& r is Ok
                    &&& r->Ok_0.metadata@ == skill.0
                    &&& r->Ok_0.body@ == text_of(bytes@)
                    &&& r->Ok_0.sha256@ == digest_text(bytes@)
                } else {
                    r is Err && r->Err_0@ == "SKILL.md must be valid UTF-8"@
                },
            },
    {
        match self.skills.get(name) {
            None => Err(concat2("unknown skill ", name)),
            Some(entry) => match decode(copy_bytes(bytes)) {
                Err(_) => Err("SKILL.md must be valid UTF-8".to_owned()),
                Ok(body) => {
                    proof {
                        decoding_inverts_encoding(body@);
                    }
                    Ok(
                        LoadedSkill {
                            metadata: entry.metadata.copy(),
                            body,
                            sha256: sha256_bytes(bytes),
                        },
                    )
                },
            },
        }
    }

    /// Loads a resource of a skill from the bytes of its file.
    pub fn load_resource(&self, name: &str, relative: &str, bytes: &[u8]) -> (r: Result<
        SkillResource,
        String,
    >)
        ensures
            match resource_error(relative@) {
                Some(error) => r is Err && r->Err_0@ == error,
                None => if lookup(self@, name@) is None {
                    r is Err && r->Err_0@ == "unknown skill "@ + name@
                } else if valid_utf8(bytes@) {
                    &&& r is Ok
                    &&& r->Ok_0.path@ == relative@
                    &&& r->Ok_0.body@ == text_of(bytes@)
                    &&& r->Ok_0.sha256@ == digest_text(bytes@)
                } else {
                    r is Err && r->Err_0@ == "skill resource must be valid UTF-8"@
                },
            },
    {
        match validate_relative(relative) {
            Err(error) => {
                return Err(error);
            },
            Ok(()) => {},
        }
        if !self.skills.contains(name) {
            return Err(concat2("unknown skill ", name));
        }
        resource(relative, bytes, "skill resource must be valid UTF-8")
    }
}

fn resource(path: &str, bytes: &[u8], failure: &str) -> (r: Result<SkillResource, String>)
    ensures
        if valid_utf8(bytes@) {
            &&& r is Ok
            &&& r->Ok_0.path@ == path@
            &&& r->Ok_0.body@ == text_of(bytes@)
            &&& r->Ok_0.sha256@ == digest_text(bytes@)
        } else {
            r is Err && r->Err_0@ == failure@
        },
{
    match decode(copy_bytes(bytes)) {
        Err(_) => Err(failure.to_owned()),
        Ok(body) => {
            proof {
                decoding_inverts_encoding(body@);
            }
            Ok(SkillResource { path: path.to_owned(), body, sha256: sha256_bytes(bytes) })
        },
    }
}

/// Loads an instruction file from its bytes.
pub fn load_instruction(path: &str, bytes: &[u8]) -> (r: Result<SkillResource, String>)
    ensures
        if valid_utf8(bytes@) {
            &&& r is Ok
            &&& r->Ok_0.path@ == path@
            &&& r->Ok_0.body@ == text_of(bytes@)
            &&& r->Ok_0.sha256@ == digest_text(bytes@)
        } else {
            r is Err && r->Err_0@ == "instruction file must be valid UTF-8"@
        },
{
    resource(path, bytes, "instruction file must be valid UTF-8")
}

/// The first name of a list that a directory holds, from a position on.
pub open spec fn first_held(names: Seq<String>, held: Seq<bool>, i: int) -> Option<Seq<char>>
    decreases names.len() - i,
{
    if i < 0 || i >= names.len() {
        None
    } else if held[i] {
        Some(names[i]@)
    } else {
        first_held(names, held, i + 1)
    }
}

/// Returns the instruction file of a directory: the first of some names that the directory holds.
pub fn instruction_name<'a>(names: &'a [String], held: &[bool]) -> (r: Option<&'a str>)
    requires
        held@.len() == names@.len(),
    ensures
        first_held(names@, held@, 0) == (match r {
            Some(name) => Some(name@),
            None => None,
        }),
{
    let mut i: usize = 0;
    while i < names.len()
        invariant
            i <= names@.len(),
            held@.len() == names@.len(),
            first_held(names@, held@, 0) == first_held(names@, held@, i as int),
        decreases names@.len() - i,
    {
        if held[i] {
            return Some(names[i].as_str());
        }
        i += 1;
    }
    None
}

/// The directories from a root down to a path below it, for the first pieces of the path.
pub open spec fn directories(root: Seq<char>, pieces: Seq<Seq<char>>, n: int) -> Seq<Seq<char>>
    decreases n,
{
    if n <= 0 {
        seq![root]
    } else {
        let before = directories(root, pieces, n - 1);
        if is_skipped_piece(pieces[n - 1], n - 1) {
            before
        } else {
            before.push(before.last() + "/"@ + pieces[n - 1])
        }
    }
}

/// The directories whose instructions apply to a target, from the root of the project down.
pub open spec fn instruction_directories(root: Seq<char>, target: Seq<char>) -> Result<
    Seq<Seq<char>>,
    Seq<char>,
> {
    if target == root {
        Ok(seq![root])
    } else if !lies_under(target, root) {
        Err("instruction target escapes project root"@)
    } else {
        let rest = target.skip((root + "/"@).len() as int);
        if !components_plain(rest, Seq::empty()) {
            Err("instruction target has unsafe component"@)
        } else {
            let pieces = split(rest, '/');
            Ok(directories(root, pieces, pieces.len() as int))
        }
    }
}

/// Returns the directories whose instructions apply to a target, from the root of the project
/// down.  Both paths are resolved.
pub fn load_hierarchical_instructions(root: &str, target: &str) -> (r: Result<Vec<String>, String>)
    ensures
        match instruction_directories(root@, target@) {
            Ok(list) => r is Ok && texts(r->Ok_0@) == list,
            Err(error) => r is Err && r->Err_0@ == error,
        },
{
    let mut out: Vec<String> = Vec::new();
    out.push(root.to_owned());
    assert(texts(out@) =~= seq![root@]);
    if str_eq(target, root) {
        return Ok(out);
    }
    if !is_under(target, root) {
        return Err("instruction target escapes project root".to_owned());
    }
    let prefix = concat2(root, "/");
    let chars = to_chars(target);
    let start: usize = to_chars(prefix.as_str()).len();
    let n: usize = chars.len();
    proof {
        reveal_strlit("/");
    }
    let rest = from_chars(chars.as_slice(), start, n);
    assert(rest@ =~= target@.skip(start as int));
    proof {
        reveal_strlit("");
        assert(""@ =~= Seq::<char>::empty());
    }
    if !plain_components(rest.as_str(), "") {
        return Err("instruction target has unsafe component".to_owned());
    }
    let pieces = split_text(rest.as_str(), '/');
    let ghost all = split(rest@, '/');
    let mut i: usize = 0;
    while i < pieces.len()
        invariant
            i <= pieces@.len(),
            all == texts(pieces@),
            out@.len() > 0,
            texts(out@) == directories(root@, all, i as int),
        decreases pieces@.len() - i,
    {
        assert(all[i as int] == pieces@[i as int]@);
        let piece = pieces[i].as_str();
        if !(piece.is_empty() || (str_eq(piece, ".") && i > 0)) {
            let last: usize = out.len() - 1;
            let ghost before = texts(out@);
            let next = concat3(out[last].as_str(), "/", piece);
            let ghost item = next@;
            out.push(next);
            assert(texts(out@) =~= before.push(item));
        }
        i += 1;
    }
    Ok(out)
}

/// What is wrong with the file of a resource.
pub fn check_resource(regular: bool, resolved: &str, root: &str) -> (r: Result<(), String>)
    ensures
        if !regular {
            r is Err && r->Err_0@ == "skill resource must be a regular file"@
        } else if lies_under(resolved@, root@) {
            r is Ok
        } else {
            r is Err && r->Err_0@ == "skill resource escapes its skill root"@
        },
{
    if !regular {
        return Err("skill resource must be a regular file".to_owned());
    }
    if !is_under(resolved, root) {
        return Err("skill resource escapes its skill root".to_owned());
    }
    Ok(())
}

/// A skill that was found first stays: files that come later do not change it.
pub proof fn first_skill_stays(
    list: Seq<SkillFile>,
    i: int,
    found: Entries<SkillModel>,
    name: Seq<char>,
)
    requires
        0 <= i <= list.len(),
        crate::table::sorted(found),
        lookup(found, name) is Some,
        discovered(list, i, found) is Ok,
    ensures
        lookup(discovered(list, i, found)->Ok_0, name) == lookup(found, name),
    decreases list.len() - i,
{
    if i < list.len() {
        let metadata = skill_metadata(list[i].text@)->Ok_0;
        if lookup(found, metadata.0) is Some {
            first_skill_stays(list, i + 1, found, name);
        } else {
            crate::table::put_is_found(found, metadata.0, (metadata, list[i].path@), name);
            first_skill_stays(
                list,
                i + 1,
                put(found, metadata.0, (metadata, list[i].path@)),
                name,
            );
        }
    }
}

} // verus!
