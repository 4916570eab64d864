//! Grants: files and directories that a human allows to be read, frozen as they are.
use vstd::prelude::*;
use vstd::string::StringExecFns;
use vstd::utf8::valid_utf8;
use crate::hash::{digest_text, sha256_bytes};
use crate::paths::{ascii_lower, is_under, join_path, joined, lies_under, lower_ascii};
use crate::sources::{fail, failure, snapshot_of, Snapshot, SourceError, SourceErrorKind, SourceFailure, SourceKind};
use crate::table::{lookup, put, Entries, Table};
use crate::text::{opt_text, concat2, contains_text, from_chars, join, join_texts, split, split_text, str_eq, text_of, texts, to_chars, utf8_error};
use crate::unicode::{fold_text, folded};
use crate::validation::EntryKind;

verus! {

/// What a file system says about a file.
#[derive(Clone, Copy, Debug, PartialEq, Eq, Structural)]
pub struct FileStat {
    /// Length in bytes.
    pub byte_len: u64,
    /// Device.
    pub device: u64,
    /// File on the device.
    pub inode: u64,
    /// Time of the last change of content, in seconds.
    pub modified_seconds: i64,
    /// Nanoseconds of that time.
    pub modified_nanoseconds: i64,
    /// Time of the last change of any kind, in seconds.
    pub changed_seconds: i64,
    /// Nanoseconds of that time.
    pub changed_nanoseconds: i64,
}

/// Content and state of a file.
#[derive(Debug)]
pub struct Fingerprint {
    sha256: String,
    stat: FileStat,
}

/// Digest and state of a file.
pub type Print = (Seq<char>, FileStat);

impl View for Fingerprint {
    type V = Print;

    closed spec fn view(&self) -> Print {
        (self.sha256@, self.stat)
    }
}

/// The fingerprint of a file that did not change while it was read.
pub open spec fn stable_print(before: FileStat, bytes: Seq<u8>, after: FileStat) -> Option<Print> {
    if after.device == before.device && after.inode == before.inode && after.byte_len
        == bytes.len() && after.modified_seconds == before.modified_seconds
        && after.modified_nanoseconds == before.modified_nanoseconds && after.changed_seconds
        == before.changed_seconds && after.changed_nanoseconds == before.changed_nanoseconds {
        Some((digest_text(bytes), after))
    } else {
        None
    }
}

impl Fingerprint {
    /// Takes the fingerprint of a file, given its state before and after it was read.
    pub fn of(before: FileStat, bytes: &[u8], after: FileStat) -> (r: Result<
        Fingerprint,
        SourceError,
    >)
        ensures
            match stable_print(before, bytes@, after) {
                Some(print) => r is Ok && r->Ok_0@ == print,
                None => r is Err && r->Err_0@ == (
                    SourceErrorKind::GrantChanged,
                    "source changed while it was read"@,
                ),
            },
    {
        if after.device != before.device || after.inode != before.inode || after.byte_len
            != bytes.len() as u64 || after.modified_seconds != before.modified_seconds
            || after.modified_nanoseconds != before.modified_nanoseconds || after.changed_seconds
            != before.changed_seconds || after.changed_nanoseconds != before.changed_nanoseconds {
            return fail(SourceErrorKind::GrantChanged, "source changed while it was read");
        }
        Ok(Fingerprint { sha256: sha256_bytes(bytes), stat: after })
    }

    fn same(&self, other: &Fingerprint) -> (r: bool)
        ensures
            r == (self@ == other@),
    {
        str_eq(self.sha256.as_str(), other.sha256.as_str()) && self.stat == other.stat
    }
}

/// The names that a path goes through, for its first pieces: `..` goes back.
pub open spec fn lexical_names(pieces: Seq<Seq<char>>, n: int) -> Seq<Seq<char>>
    decreases n,
{
    if n <= 0 {
        Seq::empty()
    } else {
        let before = lexical_names(pieces, n - 1);
        let piece = pieces[n - 1];
        if piece.len() == 0 || piece == "."@ {
            before
        } else if piece == ".."@ {
            if before.len() == 0 {
                before
            } else {
                before.drop_last()
            }
        } else {
            before.push(piece)
        }
    }
}

/// A path from the root without `.`, `..` and repeated slashes.
pub open spec fn lexical_path(path: Seq<char>, current: Seq<char>) -> Seq<char> {
    let pieces = split(joined(current, path), '/');
    "/"@ + join(lexical_names(pieces, pieces.len() as int), "/"@)
}

/// Brings a path into its form from the root, without `.`, `..` and repeated slashes.
pub fn absolute_lexical_path(path: &str, current: &str) -> (r: String)
    ensures
        r@ == lexical_path(path@, current@),
{
    let pieces = split_text(join_path(current, path).as_str(), '/');
    let ghost all = split(joined(current@, path@), '/');
    let mut names: Vec<String> = Vec::new();
    let mut i: usize = 0;
    assert(all == texts(pieces@));
    assert(texts(names@) =~= Seq::<Seq<char>>::empty());
    while i < pieces.len()
        invariant
            i <= pieces@.len(),
            all == texts(pieces@),
            texts(names@) == lexical_names(all, i as int),
        decreases pieces@.len() - i,
    {
        assert(all[i as int] == pieces@[i as int]@);
        let piece = pieces[i].as_str();
        let ghost before = texts(names@);
        if str_eq(piece, "..") {
            proof {
                reveal_strlit("..");
                reveal_strlit(".");
            }
            if names.len() > 0 {
                let _ = names.pop();
                assert(texts(names@) =~= before.drop_last());
            }
        } else if !piece.is_empty() && !str_eq(piece, ".") {
            names.push(piece.to_owned());
            assert(texts(names@) =~= before.push(piece@));
        }
        i += 1;
    }
    concat2("/", join_texts(names.as_slice(), "/").as_str())
}

/// What is granted.
#[derive(Clone, Copy, Debug, PartialEq, Eq, Structural)]
pub enum GrantKind {
    /// One file.
    File,
    /// A directory with everything below it.
    Directory,
}

/// Files that may be read as long as none of them changes.
#[derive(Debug)]
pub struct PathGrant {
    root: String,
    kind: GrantKind,
    files: Table<Fingerprint>,
}

/// A grant by the views of its parts.
pub struct GrantModel {
    pub root: Seq<char>,
    pub kind: GrantKind,
    pub files: Entries<Print>,
}

impl View for PathGrant {
    type V = GrantModel;

    closed spec fn view(&self) -> GrantModel {
        GrantModel { root: self.root@, kind: self.kind, files: self.files@ }
    }
}

/// What is wrong with the current files of a grant: they must be those that were granted.
pub open spec fn current_error(grant: GrantModel, current: Entries<Print>) -> Option<SourceFailure> {
    if current == grant.files {
        None
    } else {
        Some(
            (
                SourceErrorKind::GrantChanged,
                "the granted source set changed; request a new grant"@,
            ),
        )
    }
}

/// The path of a file inside a grant.
pub open spec fn granted_path(grant: GrantModel, path: Seq<char>) -> Result<
    Seq<char>,
    SourceFailure,
> {
    match grant.kind {
        GrantKind::File => if path == grant.root {
            Ok(Seq::empty())
        } else {
            Err((SourceErrorKind::InvalidGrant, "source path is outside its granted file"@))
        },
        GrantKind::Directory => if path == grant.root {
            Ok(Seq::empty())
        } else if lies_under(path, grant.root) {
            Ok(path.skip((grant.root + "/"@).len() as int))
        } else {
            Err((SourceErrorKind::InvalidGrant, "source path escapes its granted directory"@))
        },
    }
}

/// The path of a granted file, or what keeps it from being read.
pub open spec fn readable_path(
    grant: GrantModel,
    path: Seq<char>,
    directory: Seq<char>,
    current: Entries<Print>,
) -> Result<Seq<char>, SourceFailure> {
    match current_error(grant, current) {
        Some(error) => Err(error),
        None => match granted_path(grant, lexical_path(path, directory)) {
            Err(error) => Err(error),
            Ok(relative) => if lookup(grant.files, relative) is Some {
                Ok(relative)
            } else {
                Err(
                    (
                        SourceErrorKind::GrantChanged,
                        "source was not present in the granted directory snapshot"@,
                    ),
                )
            },
        },
    }
}

impl PathGrant {
    /// Freezes a file or a directory with the files found in it.
    pub fn freeze(root: String, kind: GrantKind, files: Table<Fingerprint>) -> (r: Result<
        PathGrant,
        SourceError,
    >)
        ensures
            if root@ == "/"@ {
                r is Err && r->Err_0@ == (
                    SourceErrorKind::InvalidGrant,
                    "refusing a filesystem-root recursive source grant"@,
                )
            } else {
                r is Ok && r->Ok_0@ == (GrantModel { root: root@, kind: kind, files: files@ })
            },
    {
        if str_eq(root.as_str(), "/") {
            return fail(
                SourceErrorKind::InvalidGrant,
                "refusing a filesystem-root recursive source grant",
            );
        }
        Ok(PathGrant { root, kind, files })
    }

    /// Returns the file or directory that is granted.
    pub fn root(&self) -> (r: &str)
        ensures
            r@ == self@.root,
    {
        self.root.as_str()
    }

    /// Returns what is granted.
    pub fn kind(&self) -> (r: GrantKind)
        ensures
            r == self@.kind,
    {
        self.kind
    }

    /// Checks that the files of the grant are still those that were granted.
    pub fn validate_current_set(&self, current: &Table<Fingerprint>) -> (r: Result<(), SourceError>)
        ensures
            failure(r) == current_error(self@, current@),
    {
        let n: usize = self.files.len();
        if current.len() != n {
            return fail(
                SourceErrorKind::GrantChanged,
                "the granted source set changed; request a new grant",
            );
        }
        let mut i: usize = 0;
        while i < n
            invariant
                i <= n,
                n == self.files@.len(),
                n == current@.len(),
                forall|k: int| 0 <= k < i ==> #[trigger] self.files@[k] == current@[k],
            decreases n - i,
        {
            if !str_eq(self.files.key(i), current.key(i)) || !self.files.value(i).same(
                current.value(i),
            ) {
                assert(self.files@[i as int] != current@[i as int]);
                return fail(
                    SourceErrorKind::GrantChanged,
                    "the granted source set changed; request a new grant",
                );
            }
            i += 1;
        }
        assert(current@ =~= self.files@);
        Ok(())
    }

    fn inner_path(&self, path: &str) -> (r: Result<String, SourceError>)
        ensures
            match granted_path(self@, path@) {
                Ok(relative) => r is Ok && r->Ok_0@ == relative,
                Err(error) => r is Err && r->Err_0@ == error,
            },
    {
        if str_eq(path, self.root.as_str()) {
            let none = String::new();
            assert(none@ =~= Seq::<char>::empty());
            return Ok(none);
        }
        match self.kind {
            GrantKind::File => fail(
                SourceErrorKind::InvalidGrant,
                "source path is outside its granted file",
            ),
            GrantKind::Directory => {
                if !is_under(path, self.root.as_str()) {
                    return fail(
                        SourceErrorKind::InvalidGrant,
                        "source path escapes its granted directory",
                    );
                }
                let prefix = concat2(self.root.as_str(), "/");
                let chars = to_chars(path);
                let n: usize = chars.len();
                let start: usize = to_chars(prefix.as_str()).len();
                proof {
                    reveal_strlit("/");
                }
                let rest = from_chars(chars.as_slice(), start, n);
                assert(rest@ =~= path@.skip(start as int));
                Ok(rest)
            },
        }
    }

    /// Returns the path of a granted file inside the grant, given the files that are there now.
    pub fn validate_path(&self, path: &str, directory: &str, current: &Table<Fingerprint>) -> (r:
        Result<String, SourceError>)
        ensures
            match readable_path(self@, path@, directory@, current@) {
                Ok(relative) => r is Ok && r->Ok_0@ == relative,
                Err(error) => r is Err && r->Err_0@ == error,
            },
    {
        match self.validate_current_set(current) {
            Err(error) => {
                return Err(error);
            },
            Ok(()) => {},
        }
        let normalized = absolute_lexical_path(path, directory);
        let relative = match self.inner_path(normalized.as_str()) {
            Err(error) => {
                return Err(error);
            },
            Ok(relative) => relative,
        };
        if !self.files.contains(relative.as_str()) {
            return fail(
                SourceErrorKind::GrantChanged,
                "source was not present in the granted directory snapshot",
            );
        }
        Ok(relative)
    }

    /// Checks a file that was read, and that the files of the grant are still those that were
    /// granted.
    pub fn read_file(&self, relative: &str, print: &Fingerprint, current: &Table<Fingerprint>) -> (r:
        Result<(), SourceError>)
        ensures
            failure(r) == (if lookup(self@.files, relative@) != Some(print@) {
                Some(
                    (
                        SourceErrorKind::GrantChanged,
                        "source changed while its granted snapshot was read"@,
                    ),
                )
            } else {
                current_error(self@, current@)
            }),
    {
        let same = match self.files.get(relative) {
            Some(granted) => granted.same(print),
            None => false,
        };
        if !same {
            return fail(
                SourceErrorKind::GrantChanged,
                "source changed while its granted snapshot was read",
            );
        }
        self.validate_current_set(current)
    }
}

/// What is done with an entry of a granted directory.
#[derive(Clone, Copy, Debug, PartialEq, Eq, Structural)]
pub enum GrantStep {
    /// Its entries are granted too.
    Descend,
    /// It is read.
    Read,
}

/// What is done with an entry of a granted directory, given the folded names of the entries
/// before it and its own.
pub open spec fn entry_step(
    names: Seq<Seq<char>>,
    name: Option<Seq<char>>,
    kind: EntryKind,
) -> Result<GrantStep, SourceFailure> {
    match name {
        None => Err((SourceErrorKind::InvalidGrant, "source grants require UTF-8 path names"@)),
        Some(alias) => if names.contains(alias) {
            Err(
                (
                    SourceErrorKind::InvalidGrant,
                    "source grant contains Unicode/case-colliding path names"@,
                ),
            )
        } else {
            match kind {
                EntryKind::Symlink => Err(
                    (SourceErrorKind::InvalidGrant, "source grants reject symbolic links"@),
                ),
                EntryKind::Directory => Ok(GrantStep::Descend),
                EntryKind::File => Ok(GrantStep::Read),
                EntryKind::Special => Err(
                    (
                        SourceErrorKind::InvalidGrant,
                        "source grants reject device files, FIFOs, sockets, and other special files"@,
                    ),
                ),
            }
        },
    }
}

/// The folded names of a directory with one more.
pub open spec fn names_with(names: Seq<Seq<char>>, name: Option<Seq<char>>) -> Seq<Seq<char>> {
    match name {
        Some(alias) => if names.contains(alias) {
            names
        } else {
            names.push(alias)
        },
        None => names,
    }
}

/// The entries of a granted directory seen so far.
#[derive(Debug)]
pub struct GrantDirectory {
    names: Vec<String>,
}

impl View for GrantDirectory {
    type V = Seq<Seq<char>>;

    closed spec fn view(&self) -> Seq<Seq<char>> {
        texts(self.names@)
    }
}

impl GrantDirectory {
    /// Starts a directory.
    pub fn new() -> (r: GrantDirectory)
        ensures
            r@ == Seq::<Seq<char>>::empty(),
    {
        let directory = GrantDirectory { names: Vec::new() };
        assert(directory@ =~= Seq::<Seq<char>>::empty());
        directory
    }

    /// Decides what is done with an entry.
    pub fn collect_entry(&mut self, name: Option<&str>, kind: EntryKind) -> (r: Result<
        GrantStep,
        SourceError,
    >)
        ensures
            ({
                let alias = match name {
                    Some(text) => Some(folded(text@)),
                    None => None,
                };
                &&& match entry_step(old(self)@, alias, kind) {
                    Ok(step) => r == Ok::<GrantStep, SourceError>(step),
                    Err(error) => r is Err && r->Err_0@ == error,
                }
                &&& final(self)@ == names_with(old(self)@, alias)
            }),
    {
        let alias = match name {
            None => None,
            Some(text) => Some(fold_text(text)),
        };
        self.collect_folded(alias, kind)
    }

    /// Decides what is done with an entry whose folded name is given.
    pub fn collect_folded(&mut self, alias: Option<String>, kind: EntryKind) -> (r: Result<
        GrantStep,
        SourceError,
    >)
        ensures
            match entry_step(old(self)@, opt_text(alias), kind) {
                Ok(step) => r == Ok::<GrantStep, SourceError>(step),
                Err(error) => r is Err && r->Err_0@ == error,
            },
            final(self)@ == names_with(old(self)@, opt_text(alias)),
    {
        let name = match alias {
            None => {
                return fail(
                    SourceErrorKind::InvalidGrant,
                    "source grants require UTF-8 path names",
                );
            },
            Some(name) => name,
        };
        proof {
            crate::text::lemma_has_text(self.names@, name@);
        }
        if contains_text(self.names.as_slice(), name.as_str()) {
            return fail(
                SourceErrorKind::InvalidGrant,
                "source grant contains Unicode/case-colliding path names",
            );
        }
        let ghost before = texts(self.names@);
        let ghost item = name@;
        self.names.push(name);
        assert(texts(self.names@) =~= before.push(item));
        match kind {
            EntryKind::Symlink => fail(
                SourceErrorKind::InvalidGrant,
                "source grants reject symbolic links",
            ),
            EntryKind::Directory => Ok(GrantStep::Descend),
            EntryKind::File => Ok(GrantStep::Read),
            EntryKind::Special => fail(
                SourceErrorKind::InvalidGrant,
                "source grants reject device files, FIFOs, sockets, and other special files",
            ),
        }
    }
}

/// Adds a file to those of a grant.
pub fn collect_file(files: &mut Table<Fingerprint>, relative: String, print: Fingerprint) -> (r:
    Result<(), SourceError>)
    ensures
        if lookup(old(files)@, relative@) is Some {
            r is Err && r->Err_0@ == (
                SourceErrorKind::InvalidGrant,
                "source grant contains duplicate relative paths"@,
            ) && final(files)@ == old(files)@
        } else {
            r is Ok && final(files)@ == put(old(files)@, relative@, print@)
        },
{
    if files.contains(relative.as_str()) {
        return fail(
            SourceErrorKind::InvalidGrant,
            "source grant contains duplicate relative paths",
        );
    }
    files.insert(relative, print);
    Ok(())
}

/// Position of the last dot of a name, among its first characters; minus one where there is none.
pub open spec fn last_dot(name: Seq<char>, n: int) -> int
    decreases n,
{
    if n <= 0 {
        -1
    } else if name[n - 1] == '.' {
        n - 1
    } else {
        last_dot(name, n - 1)
    }
}

/// The name of a file: the last of the pieces of its path, where it is a name.
pub open spec fn file_name(pieces: Seq<Seq<char>>, n: int) -> Option<Seq<char>>
    decreases n,
{
    if n <= 0 {
        None
    } else if pieces[n - 1].len() == 0 || (pieces[n - 1] == "."@ && n > 1) {
        file_name(pieces, n - 1)
    } else if pieces[n - 1] == "."@ || pieces[n - 1] == ".."@ {
        None
    } else {
        Some(pieces[n - 1])
    }
}

/// The extension of a file in lower case.
pub open spec fn extension(path: Seq<char>) -> Option<Seq<char>> {
    let pieces = split(path, '/');
    match file_name(pieces, pieces.len() as int) {
        None => None,
        Some(name) => {
            let dot = last_dot(name, name.len() as int);
            if dot <= 0 {
                None
            } else {
                Some(name.skip(dot + 1).map_values(|c: char| ascii_lower(c)))
            }
        },
    }
}

/// The format of a text file.
pub open spec fn format_of(path: Seq<char>) -> Option<SourceKind> {
    match extension(path) {
        None => None,
        Some(text) => if text == "txt"@ || text == "text"@ {
            Some(SourceKind::PlainText)
        } else if text == "md"@ || text == "markdown"@ {
            Some(SourceKind::Markdown)
        } else {
            None
        },
    }
}

fn name_of(path: &str) -> (r: Option<String>)
    ensures
        ({
            let pieces = split(path@, '/');
            file_name(pieces, pieces.len() as int) == (match r {
                Some(name) => Some(name@),
                None => None,
            })
        }),
{
    let pieces = split_text(path, '/');
    let ghost all = split(path@, '/');
    let mut n: usize = pieces.len();
    assert(all == texts(pieces@));
    while n > 0
        invariant
            n <= pieces@.len(),
            all == split(path@, '/'),
            all == texts(pieces@),
            file_name(all, all.len() as int) == file_name(all, n as int),
        decreases n,
    {
        assert(all[n - 1] == pieces@[n - 1]@);
        let piece = pieces[n - 1].as_str();
        if !(piece.is_empty() || (str_eq(piece, ".") && n > 1)) {
            if str_eq(piece, ".") || str_eq(piece, "..") {
                return None;
            }
            return Some(piece.to_owned());
        }
        n -= 1;
    }
    None
}

fn extension_of(path: &str) -> (r: Option<String>)
    ensures
        extension(path@) == (match r {
            Some(text) => Some(text@),
            None => None,
        }),
{
    let name = match name_of(path) {
        None => {
            return None;
        },
        Some(name) => name,
    };
    let chars = to_chars(name.as_str());
    let n: usize = chars.len();
    let mut k: usize = n;
    while k > 0 && chars[k - 1] != '.'
        invariant
            k <= n,
            n == chars@.len(),
            chars@ == name@,
            last_dot(name@, n as int) == last_dot(name@, k as int),
        decreases k,
    {
        k -= 1;
    }
    if k <= 1 {
        return None;
    }
    let ghost goal = name@.skip(k as int).map_values(|c: char| ascii_lower(c));
    let mut lower: Vec<char> = Vec::new();
    let mut i: usize = k;
    while i < n
        invariant
            k <= i <= n,
            n == chars@.len(),
            chars@ == name@,
            lower@.len() == i - k,
            forall|j: int| 0 <= j < i - k ==> #[trigger] lower@[j] == ascii_lower(name@[k + j]),
        decreases n - i,
    {
        lower.push(lower_ascii(chars[i]));
        i += 1;
    }
    assert(lower@ =~= goal);
    let m: usize = lower.len();
    let text = from_chars(lower.as_slice(), 0, m);
    assert(text@ =~= goal);
    Some(text)
}

/// Returns the format of a text file.
pub fn text_kind(path: &str) -> (r: Result<SourceKind, SourceError>)
    ensures
        match format_of(path@) {
            Some(kind) => r == Ok::<SourceKind, SourceError>(kind),
            None => r is Err && r->Err_0@ == (
                SourceErrorKind::UnsupportedFormat,
                "only UTF-8 .txt, .text, .md, and .markdown files are supported"@,
            ),
        },
{
    if let Some(text) = extension_of(path) {
        if str_eq(text.as_str(), "txt") || str_eq(text.as_str(), "text") {
            return Ok(SourceKind::PlainText);
        }
        if str_eq(text.as_str(), "md") || str_eq(text.as_str(), "markdown") {
            return Ok(SourceKind::Markdown);
        }
    }
    fail(
        SourceErrorKind::UnsupportedFormat,
        "only UTF-8 .txt, .text, .md, and .markdown files are supported",
    )
}

/// Takes the snapshot of a text file that was read under a grant.
pub fn ingest_path(path: &str, bytes: &[u8], secret: bool) -> (r: Result<Snapshot, SourceError>)
    ensures
        match format_of(path@) {
            None => r is Err && r->Err_0@ == (
                SourceErrorKind::UnsupportedFormat,
                "only UTF-8 .txt, .text, .md, and .markdown files are supported"@,
            ),
            Some(kind) => if valid_utf8(bytes@) {
                r is Ok && r->Ok_0@ == snapshot_of(kind, bytes@, text_of(bytes@), secret, None)
            } else {
                r is Err && r->Err_0@ == (
                    SourceErrorKind::InvalidUtf8,
                    "text source must be UTF-8: "@ + utf8_error(bytes@),
                )
            },
        },
{
    match text_kind(path) {
        Err(error) => Err(error),
        Ok(kind) => Snapshot::from_text(kind, bytes, secret),
    }
}

/// A file can be read under a grant only where it was granted and nothing of the grant changed.
pub proof fn only_frozen_files_are_read(
    grant: GrantModel,
    path: Seq<char>,
    directory: Seq<char>,
    current: Entries<Print>,
)
    requires
        readable_path(grant, path, directory, current) is Ok,
    ensures
        current == grant.files,
        lookup(grant.files, readable_path(grant, path, directory, current)->Ok_0) is Some,
        grant.kind == GrantKind::File ==> lexical_path(path, directory) == grant.root,
        grant.kind == GrantKind::Directory ==> lexical_path(path, directory) == grant.root
            || lies_under(lexical_path(path, directory), grant.root),
{
}

/// A path that was brought into its form holds no name `..` any more.
pub proof fn lexical_names_do_not_climb(pieces: Seq<Seq<char>>, n: int, i: int)
    requires
        0 <= n <= pieces.len(),
        0 <= i < lexical_names(pieces, n).len(),
    ensures
        lexical_names(pieces, n)[i] != ".."@,
        lexical_names(pieces, n)[i] != "."@,
        lexical_names(pieces, n)[i].len() > 0,
    decreases n,
{
    let before = lexical_names(pieces, n - 1);
    if i < before.len() {
        lexical_names_do_not_climb(pieces, n - 1, i);
    }
}

} // verus!
