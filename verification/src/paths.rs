//! Project-relative paths and ordered file trees.
use vstd::prelude::*;
use vstd::string::StringExecFns;
use crate::text::{has_prefix, opt_text, split, split_text, starts_with, str_eq, texts, to_chars};

verus! {

/// Joins a path to a root, as Unix path joining does.
pub open spec fn joined(root: Seq<char>, path: Seq<char>) -> Seq<char> {
    if path.len() > 0 && path[0] == '/' {
        path
    } else if root.len() == 0 || root.last() == '/' {
        root + path
    } else {
        root + "/"@ + path
    }
}

/// Joins a path to a root: an absolute path replaces the root.
pub fn join_path(root: &str, path: &str) -> (r: String)
    ensures
        r@ == joined(root@, path@),
{
    let p = to_chars(path);
    if p.len() > 0 && p[0] == '/' {
        return path.to_owned();
    }
    let q = to_chars(root);
    let mut out = root.to_owned();
    if q.len() > 0 && q[q.len() - 1] != '/' {
        out.append("/");
    }
    out.append(path);
    out
}

/// Whether a path starts at the file-system root.
pub open spec fn is_absolute_path(path: Seq<char>) -> bool {
    path.len() > 0 && path[0] == '/'
}

/// Returns whether a path starts at the file-system root.
pub fn is_absolute(path: &str) -> (r: bool)
    ensures
        r == is_absolute_path(path@),
{
    let chars = to_chars(path);
    chars.len() > 0 && chars[0] == '/'
}

/// A piece between slashes that is a file name: not empty, not the current and not the parent
/// directory.
pub open spec fn is_plain_name(piece: Seq<char>) -> bool {
    piece.len() > 0 && piece != "."@ && piece != ".."@
}

/// Returns whether a piece between slashes is a file name.
pub fn plain_name(piece: &str) -> (r: bool)
    ensures
        r == is_plain_name(piece@),
{
    !piece.is_empty() && !str_eq(piece, ".") && !str_eq(piece, "..")
}

/// A path whose pieces between slashes are all file names.
pub open spec fn all_plain(path: Seq<char>) -> bool {
    forall|i: int|
        0 <= i < split(path, '/').len() ==> is_plain_name(#[trigger] split(path, '/')[i])
}

/// Returns whether the pieces of a path between slashes are all file names.
pub fn plain_path(path: &str) -> (r: bool)
    ensures
        r == all_plain(path@),
{
    let pieces = split_text(path, '/');
    let mut i: usize = 0;
    while i < pieces.len()
        invariant
            i <= pieces@.len(),
            texts(pieces@) == split(path@, '/'),
            forall|k: int| 0 <= k < i ==> is_plain_name(#[trigger] split(path@, '/')[k]),
        decreases pieces@.len() - i,
    {
        assert(texts(pieces@)[i as int] == pieces@[i as int]@);
        if !plain_name(pieces[i].as_str()) {
            assert(!is_plain_name(split(path@, '/')[i as int]));
            return false;
        }
        i += 1;
    }
    true
}

/// A piece that a path component may be when the path is read component by component: repeated
/// slashes and inner `.` pieces denote nothing; a leading `.` and `..` are no file names.
pub open spec fn is_skipped_piece(piece: Seq<char>, index: int) -> bool {
    piece.len() == 0 || (piece == "."@ && index > 0)
}

/// A relative path with no parent component and no leading `.` component, and with none of its
/// file names refused.
pub open spec fn components_plain(path: Seq<char>, refused: Seq<char>) -> bool {
    let pieces = split(path, '/');
    forall|i: int|
        0 <= i < pieces.len() ==> is_skipped_piece(#[trigger] pieces[i], i) || (is_plain_name(
            pieces[i],
        ) && pieces[i] != refused)
}

/// Returns whether every component of a relative path is a file name other than `refused`.
pub fn plain_components(path: &str, refused: &str) -> (r: bool)
    ensures
        r == components_plain(path@, refused@),
{
    let pieces = split_text(path, '/');
    let ghost s = split(path@, '/');
    let mut i: usize = 0;
    while i < pieces.len()
        invariant
            i <= pieces@.len(),
            s == split(path@, '/'),
            texts(pieces@) == s,
            forall|k: int|
                0 <= k < i ==> is_skipped_piece(#[trigger] s[k], k) || (is_plain_name(s[k]) && s[k]
                    != refused@),
        decreases pieces@.len() - i,
    {
        assert(texts(pieces@)[i as int] == pieces@[i as int]@);
        let piece = pieces[i].as_str();
        let skipped = piece.is_empty() || (str_eq(piece, ".") && i > 0);
        if !skipped && !(plain_name(piece) && !str_eq(piece, refused)) {
            assert(!(is_skipped_piece(s[i as int], i as int) || (is_plain_name(s[i as int])
                && s[i as int] != refused@)));
            return false;
        }
        i += 1;
    }
    true
}

/// The pieces of a path that denote anything, from a position on.
pub open spec fn components_from(pieces: Seq<Seq<char>>, i: int) -> Seq<Seq<char>>
    decreases pieces.len() - i,
{
    if i < 0 || i >= pieces.len() {
        Seq::empty()
    } else if is_skipped_piece(pieces[i], i) {
        components_from(pieces, i + 1)
    } else {
        seq![pieces[i]] + components_from(pieces, i + 1)
    }
}

/// The components of a path: repeated slashes and inner `.` pieces denote nothing.
pub open spec fn components(path: Seq<char>) -> Seq<Seq<char>> {
    components_from(split(path, '/'), 0)
}

/// Whether two paths have the same components, and both or neither start at the root.
pub open spec fn paths_agree(a: Seq<char>, b: Seq<char>) -> bool {
    is_absolute_path(a) == is_absolute_path(b) && components(a) == components(b)
}

fn path_components(path: &str) -> (r: Vec<String>)
    ensures
        texts(r@) == components(path@),
{
    let pieces = split_text(path, '/');
    let ghost s = split(path@, '/');
    let mut out: Vec<String> = Vec::new();
    assert(texts(out@) + components_from(s, 0) =~= components(path@));
    let mut i: usize = 0;
    while i < pieces.len()
        invariant
            i <= pieces@.len(),
            s == split(path@, '/'),
            texts(pieces@) == s,
            texts(out@) + components_from(s, i as int) == components(path@),
        decreases pieces@.len() - i,
    {
        assert(texts(pieces@)[i as int] == pieces@[i as int]@);
        let piece = pieces[i].as_str();
        if !(piece.is_empty() || (str_eq(piece, ".") && i > 0)) {
            let ghost before = texts(out@);
            let ghost rest = components_from(s, i + 1);
            out.push(pieces[i].clone());
            assert(texts(out@) =~= before.push(s[i as int]));
            assert(before.push(s[i as int]) + rest =~= before + (seq![s[i as int]] + rest));
        }
        i += 1;
    }
    assert(texts(out@) + components_from(s, i as int) =~= texts(out@));
    out
}

/// Returns whether two paths have the same components, and both or neither start at the root.
pub fn same_path(a: &str, b: &str) -> (r: bool)
    ensures
        r == paths_agree(a@, b@),
{
    if is_absolute(a) != is_absolute(b) {
        return false;
    }
    let x = path_components(a);
    let y = path_components(b);
    if x.len() != y.len() {
        assert(texts(x@).len() != texts(y@).len());
        return false;
    }
    let mut i: usize = 0;
    while i < x.len()
        invariant
            i <= x@.len(),
            x@.len() == y@.len(),
            texts(x@) == components(a@),
            texts(y@) == components(b@),
            forall|k: int| 0 <= k < i ==> #[trigger] texts(x@)[k] == texts(y@)[k],
        decreases x@.len() - i,
    {
        assert(texts(x@)[i as int] == x@[i as int]@);
        assert(texts(y@)[i as int] == y@[i as int]@);
        if !str_eq(x[i].as_str(), y[i].as_str()) {
            return false;
        }
        i += 1;
    }
    assert(texts(x@) =~= texts(y@));
    true
}

/// Whether some component of a path is the parent directory.
pub open spec fn has_parent_component(path: Seq<char>) -> bool {
    exists|i: int| 0 <= i < split(path, '/').len() && #[trigger] split(path, '/')[i] == ".."@
}

/// Returns whether some component of a path is the parent directory.
pub fn climbs(path: &str) -> (r: bool)
    ensures
        r == has_parent_component(path@),
{
    let pieces = split_text(path, '/');
    let mut i: usize = 0;
    while i < pieces.len()
        invariant
            i <= pieces@.len(),
            texts(pieces@) == split(path@, '/'),
            forall|k: int| 0 <= k < i ==> #[trigger] split(path@, '/')[k] != ".."@,
        decreases pieces@.len() - i,
    {
        assert(texts(pieces@)[i as int] == pieces@[i as int]@);
        if str_eq(pieces[i].as_str(), "..") {
            assert(split(path@, '/')[i as int] == ".."@);
            return true;
        }
        i += 1;
    }
    false
}

/// The last of the first pieces of a path that denotes anything, where it is a file name.
pub open spec fn name_before(pieces: Seq<Seq<char>>, n: int) -> Option<Seq<char>>
    decreases n,
{
    if n <= 0 {
        None
    } else if is_skipped_piece(pieces[n - 1], n - 1) {
        name_before(pieces, n - 1)
    } else if is_plain_name(pieces[n - 1]) {
        Some(pieces[n - 1])
    } else {
        None
    }
}

/// The file name at the end of a path.
pub open spec fn last_name(path: Seq<char>) -> Option<Seq<char>> {
    name_before(split(path, '/'), split(path, '/').len() as int)
}

/// Returns the file name at the end of a path.
pub fn file_name(path: &str) -> (r: Option<String>)
    ensures
        opt_text(r) == last_name(path@),
{
    let pieces = split_text(path, '/');
    let ghost s = split(path@, '/');
    let mut n: usize = pieces.len();
    while n > 0
        invariant
            n <= pieces@.len(),
            s == split(path@, '/'),
            texts(pieces@) == s,
            name_before(s, n as int) == name_before(s, s.len() as int),
        decreases n,
    {
        let i: usize = n - 1;
        assert(texts(pieces@)[i as int] == pieces@[i as int]@);
        let piece = pieces[i].as_str();
        if !(piece.is_empty() || (str_eq(piece, ".") && i > 0)) {
            return if plain_name(piece) {
                Some(pieces[i].clone())
            } else {
                None
            };
        }
        n = i;
    }
    None
}

/// A character with the ASCII capitals replaced by small letters.
pub open spec fn ascii_lower(c: char) -> char {
    if 'A' <= c && c <= 'Z' {
        (c as u32 + 32) as u8 as char
    } else {
        c
    }
}

/// Lowers an ASCII capital.
pub fn lower_ascii(c: char) -> (r: char)
    ensures
        r == ascii_lower(c),
{
    if 'A' <= c && c <= 'Z' {
        (c as u32 + 32) as u8 as char
    } else {
        c
    }
}

/// Whether two texts are equal up to the case of ASCII letters.
pub open spec fn same_ignoring_case(a: Seq<char>, b: Seq<char>) -> bool {
    a.len() == b.len() && forall|i: int|
        0 <= i < a.len() ==> ascii_lower(#[trigger] a[i]) == ascii_lower(b[i])
}

/// Returns whether two texts are equal up to the case of ASCII letters.
pub fn eq_ignore_case(a: &str, b: &str) -> (r: bool)
    ensures
        r == same_ignoring_case(a@, b@),
{
    let x = to_chars(a);
    let y = to_chars(b);
    if x.len() != y.len() {
        return false;
    }
    let mut i: usize = 0;
    while i < x.len()
        invariant
            i <= x@.len(),
            x@.len() == y@.len(),
            x@ == a@,
            y@ == b@,
            forall|k: int| 0 <= k < i ==> ascii_lower(#[trigger] a@[k]) == ascii_lower(b@[k]),
        decreases x@.len() - i,
    {
        if lower_ascii(x[i]) != lower_ascii(y[i]) {
            assert(ascii_lower(a@[i as int]) != ascii_lower(b@[i as int]));
            return false;
        }
        i += 1;
    }
    true
}

/// Whether one path comes before another, component by component: a slash ends a component and
/// comes before every other character.
pub open spec fn path_before(a: Seq<char>, b: Seq<char>) -> bool
    decreases a.len(),
{
    if b.len() == 0 {
        false
    } else if a.len() == 0 {
        true
    } else if a[0] == b[0] {
        path_before(a.skip(1), b.skip(1))
    } else {
        b[0] != '/' && (a[0] == '/' || a[0] < b[0])
    }
}

/// Returns whether one path comes before another, component by component.
pub fn before_path(a: &str, b: &str) -> (r: bool)
    ensures
        r == path_before(a@, b@),
{
    let x = to_chars(a);
    let y = to_chars(b);
    let mut i: usize = 0;
    assert(a@.skip(0) =~= a@);
    assert(b@.skip(0) =~= b@);
    while i < x.len() && i < y.len()
        invariant
            i <= x@.len(),
            i <= y@.len(),
            x@ == a@,
            y@ == b@,
            path_before(a@, b@) == path_before(a@.skip(i as int), b@.skip(i as int)),
        decreases x@.len() - i,
    {
        let p = x[i];
        let q = y[i];
        if p != q {
            return q != '/' && (p == '/' || p < q);
        }
        assert(a@.skip(i as int).skip(1) =~= a@.skip(i + 1));
        assert(b@.skip(i as int).skip(1) =~= b@.skip(i + 1));
        i += 1;
    }
    i < y.len()
}

/// The path order is a strict total order.
pub proof fn path_before_is_strict_order(a: Seq<char>, b: Seq<char>, c: Seq<char>)
    ensures
        !path_before(a, a),
        path_before(a, b) && path_before(b, c) ==> path_before(a, c),
        path_before(a, b) || path_before(b, a) || a == b,
    decreases a.len(),
{
    if a.len() > 0 {
        if b.len() > 0 && c.len() > 0 {
            path_before_is_strict_order(a.skip(1), b.skip(1), c.skip(1));
        } else if b.len() > 0 {
            path_before_is_strict_order(a.skip(1), b.skip(1), c);
        } else {
            path_before_is_strict_order(a.skip(1), b, c);
        }
        if b.len() > 0 && a.skip(1) == b.skip(1) && a[0] == b[0] {
            assert(a =~= seq![a[0]] + a.skip(1));
            assert(b =~= seq![b[0]] + b.skip(1));
        }
    } else if b.len() == 0 {
        assert(a =~= b);
    }
}

/// One file of a project tree.
#[derive(Debug)]
pub struct FileEntry {
    /// Project-relative path.
    pub path: String,
    /// File content.
    pub bytes: Vec<u8>,
}

/// The path and content of a file.
pub type FileModel = (Seq<char>, Seq<u8>);

impl View for FileEntry {
    type V = FileModel;

    open spec fn view(&self) -> FileModel {
        (self.path@, self.bytes@)
    }
}

impl FileEntry {
    /// Copies the file.
    pub fn copy(&self) -> (r: FileEntry)
        ensures
            r@ == self@,
    {
        let bytes = copy_bytes(self.bytes.as_slice());
        FileEntry { path: self.path.clone(), bytes }
    }
}

/// Copies bytes.
pub fn copy_bytes(bytes: &[u8]) -> (r: Vec<u8>)
    ensures
        r@ == bytes@,
{
    let mut out: Vec<u8> = Vec::new();
    out.extend_from_slice(bytes);
    assert(out@ =~= bytes@);
    out
}

/// The views of a file tree.
pub open spec fn files(tree: Seq<FileEntry>) -> Seq<FileModel> {
    tree.map_values(|entry: FileEntry| entry@)
}

/// A tree in path order, in which no path occurs twice.
pub open spec fn is_ordered(tree: Seq<FileModel>) -> bool {
    forall|i: int, j: int|
        0 <= i < j < tree.len() ==> path_before((#[trigger] tree[i]).0, (#[trigger] tree[j]).0)
}

/// The content of a path in a tree.
pub open spec fn content_of(tree: Seq<FileModel>, path: Seq<char>) -> Option<Seq<u8>>
    decreases tree.len(),
{
    if tree.len() == 0 {
        None
    } else if tree[0].0 == path {
        Some(tree[0].1)
    } else {
        content_of(tree.skip(1), path)
    }
}

/// A tree after a file was written.
pub open spec fn written(tree: Seq<FileModel>, path: Seq<char>, bytes: Seq<u8>) -> Seq<FileModel>
    decreases tree.len(),
{
    if tree.len() == 0 {
        seq![(path, bytes)]
    } else if tree[0].0 == path {
        seq![(path, bytes)] + tree.skip(1)
    } else if path_before(path, tree[0].0) {
        seq![(path, bytes)] + tree
    } else {
        seq![tree[0]] + written(tree.skip(1), path, bytes)
    }
}

/// A tree after a file was removed.
pub open spec fn removed(tree: Seq<FileModel>, path: Seq<char>) -> Seq<FileModel>
    decreases tree.len(),
{
    if tree.len() == 0 {
        tree
    } else if tree[0].0 == path {
        tree.skip(1)
    } else {
        seq![tree[0]] + removed(tree.skip(1), path)
    }
}

/// Returns the content of a path in a tree.
pub fn find_file<'a>(tree: &'a [FileEntry], path: &str) -> (r: Option<&'a FileEntry>)
    ensures
        match r {
            Some(entry) => content_of(files(tree@), path@) == Some(entry.bytes@) && entry.path@
                == path@,
            None => content_of(files(tree@), path@) is None,
        },
{
    let mut i: usize = 0;
    let ghost all = files(tree@);
    assert(all.skip(0) =~= all);
    while i < tree.len()
        invariant
            i <= tree@.len(),
            all == files(tree@),
            content_of(all, path@) == content_of(all.skip(i as int), path@),
        decreases tree@.len() - i,
    {
        assert(all.skip(i as int)[0] == tree@[i as int]@);
        assert(all.skip(i as int).skip(1) =~= all.skip(i + 1));
        if str_eq(tree[i].path.as_str(), path) {
            return Some(&tree[i]);
        }
        i += 1;
    }
    None
}

proof fn lemma_written_step(tree: Seq<FileModel>, path: Seq<char>, bytes: Seq<u8>, k: int)
    requires
        0 <= k <= tree.len(),
        forall|j: int|
            0 <= j < k ==> (#[trigger] tree[j]).0 != path && !path_before(path, tree[j].0),
    ensures
        written(tree, path, bytes) == tree.take(k) + written(tree.skip(k), path, bytes),
    decreases k,
{
    if k == 0 {
        assert(tree.take(0) + written(tree.skip(0), path, bytes) =~= written(tree, path, bytes))
            by {
            assert(tree.skip(0) =~= tree);
        }
    } else {
        let rest = tree.skip(1);
        assert forall|j: int| 0 <= j < k - 1 implies (#[trigger] rest[j]).0 != path && !path_before(
            path,
            rest[j].0,
        ) by {
            assert(rest[j] == tree[j + 1]);
        }
        lemma_written_step(rest, path, bytes, k - 1);
        assert(rest.skip(k - 1) =~= tree.skip(k));
        assert(seq![tree[0]] + (rest.take(k - 1) + written(tree.skip(k), path, bytes))
            =~= tree.take(k) + written(tree.skip(k), path, bytes));
    }
}

proof fn lemma_removed_step(tree: Seq<FileModel>, path: Seq<char>, k: int)
    requires
        0 <= k <= tree.len(),
        forall|j: int| 0 <= j < k ==> (#[trigger] tree[j]).0 != path,
    ensures
        removed(tree, path) == tree.take(k) + removed(tree.skip(k), path),
    decreases k,
{
    if k == 0 {
        assert(tree.skip(0) =~= tree);
        assert(tree.take(0) + removed(tree.skip(0), path) =~= removed(tree, path));
    } else {
        let rest = tree.skip(1);
        assert forall|j: int| 0 <= j < k - 1 implies (#[trigger] rest[j]).0 != path by {
            assert(rest[j] == tree[j + 1]);
        }
        lemma_removed_step(rest, path, k - 1);
        assert(rest.skip(k - 1) =~= tree.skip(k));
        assert(seq![tree[0]] + (rest.take(k - 1) + removed(tree.skip(k), path)) =~= tree.take(k)
            + removed(tree.skip(k), path));
    }
}

/// Writes a file into an ordered tree.
pub fn write_file(tree: &mut Vec<FileEntry>, path: String, bytes: Vec<u8>)
    ensures
        files(final(tree)@) == written(files(old(tree)@), path@, bytes@),
{
    let ghost all = files(tree@);
    let ghost model = (path@, bytes@);
    let mut i: usize = 0;
    while i < tree.len()
        invariant
            i <= tree@.len(),
            all == files(tree@),
            model == (path@, bytes@),
            tree@ == old(tree)@,
            forall|j: int|
                0 <= j < i ==> (#[trigger] all[j]).0 != path@ && !path_before(path@, all[j].0),
        decreases tree@.len() - i,
    {
        assert(all[i as int] == tree@[i as int]@);
        if tree[i].path == path {
            proof {
                lemma_written_step(all, path@, bytes@, i as int);
                assert(all.skip(i as int)[0] == all[i as int]);
            }
            tree.set(i, FileEntry { path, bytes });
            assert(files(tree@) =~= all.take(i as int) + (seq![model] + all.skip(i as int).skip(
                1,
            )));
            return ;
        }
        if before_path(path.as_str(), tree[i].path.as_str()) {
            proof {
                lemma_written_step(all, path@, bytes@, i as int);
                assert(all.skip(i as int)[0] == all[i as int]);
            }
            tree.insert(i, FileEntry { path, bytes });
            assert(files(tree@) =~= all.take(i as int) + (seq![model] + all.skip(i as int)));
            return ;
        }
        i += 1;
    }
    proof {
        lemma_written_step(all, path@, bytes@, all.len() as int);
    }
    tree.push(FileEntry { path, bytes });
    assert(files(tree@) =~= all.take(all.len() as int) + seq![model]);
    assert(all.skip(all.len() as int) =~= Seq::<FileModel>::empty());
}

/// Removes a file from a tree.
pub fn remove_file(tree: &mut Vec<FileEntry>, path: &str)
    ensures
        files(final(tree)@) == removed(files(old(tree)@), path@),
{
    let ghost all = files(tree@);
    let mut i: usize = 0;
    while i < tree.len()
        invariant
            i <= tree@.len(),
            all == files(tree@),
            tree@ == old(tree)@,
            forall|j: int| 0 <= j < i ==> (#[trigger] all[j]).0 != path@,
        decreases tree@.len() - i,
    {
        assert(all[i as int] == tree@[i as int]@);
        if str_eq(tree[i].path.as_str(), path) {
            proof {
                lemma_removed_step(all, path@, i as int);
                assert(all.skip(i as int)[0] == all[i as int]);
            }
            let _ = tree.remove(i);
            assert(files(tree@) =~= all.take(i as int) + all.skip(i as int).skip(1));
            return ;
        }
        i += 1;
    }
    proof {
        lemma_removed_step(all, path@, all.len() as int);
        assert(all.skip(all.len() as int) =~= Seq::<FileModel>::empty());
        assert(all.take(all.len() as int) + Seq::<FileModel>::empty() =~= all);
    }
}

/// Copies a tree.
pub fn copy_files(tree: &[FileEntry]) -> (r: Vec<FileEntry>)
    ensures
        files(r@) == files(tree@),
{
    let mut out: Vec<FileEntry> = Vec::new();
    let mut i: usize = 0;
    while i < tree.len()
        invariant
            i <= tree@.len(),
            out@.len() == i,
            forall|k: int| 0 <= k < i ==> #[trigger] out@[k]@ == tree@[k]@,
        decreases tree@.len() - i,
    {
        out.push(tree[i].copy());
        i += 1;
    }
    assert(files(out@) =~= files(tree@));
    out
}

/// A file that was written is read back, and every other file reads as before.
pub proof fn read_after_write(tree: Seq<FileModel>, path: Seq<char>, bytes: Seq<u8>, other: Seq<char>)
    ensures
        content_of(written(tree, path, bytes), path) == Some(bytes),
        other != path ==> content_of(written(tree, path, bytes), other) == content_of(tree, other),
    decreases tree.len(),
{
    let w = written(tree, path, bytes);
    if tree.len() == 0 {
        assert(w.skip(1) =~= Seq::<FileModel>::empty());
        assert(content_of(w.skip(1), other) is None);
    } else if tree[0].0 == path {
        assert(w.skip(1) =~= tree.skip(1));
    } else if path_before(path, tree[0].0) {
        assert(w.skip(1) =~= tree);
    } else {
        assert(w.skip(1) =~= written(tree.skip(1), path, bytes));
        read_after_write(tree.skip(1), path, bytes, other);
    }
}

/// A file that was removed from an ordered tree is gone, and every other file reads as before.
pub proof fn read_after_remove(tree: Seq<FileModel>, path: Seq<char>, other: Seq<char>)
    requires
        is_ordered(tree),
    ensures
        content_of(removed(tree, path), path) is None,
        other != path ==> content_of(removed(tree, path), other) == content_of(tree, other),
    decreases tree.len(),
{
    if tree.len() > 0 {
        let rest = tree.skip(1);
        assert forall|i: int, j: int| 0 <= i < j < rest.len() implies path_before(
            (#[trigger] rest[i]).0,
            (#[trigger] rest[j]).0,
        ) by {
            assert(rest[i] == tree[i + 1] && rest[j] == tree[j + 1]);
        }
        if tree[0].0 == path {
            assert forall|j: int| 0 <= j < rest.len() implies (#[trigger] rest[j]).0 != path by {
                assert(rest[j] == tree[j + 1]);
                assert(path_before(tree[0].0, tree[j + 1].0));
                path_before_is_strict_order(path, path, path);
            }
            lemma_absent(rest, path);
        } else {
            assert(removed(tree, path).skip(1) =~= removed(rest, path));
            read_after_remove(rest, path, other);
        }
    }
}

proof fn lemma_absent(tree: Seq<FileModel>, path: Seq<char>)
    requires
        forall|j: int| 0 <= j < tree.len() ==> (#[trigger] tree[j]).0 != path,
    ensures
        content_of(tree, path) is None,
    decreases tree.len(),
{
    if tree.len() > 0 {
        let rest = tree.skip(1);
        assert forall|j: int| 0 <= j < rest.len() implies (#[trigger] rest[j]).0 != path by {
            assert(rest[j] == tree[j + 1]);
        }
        assert(tree[0].0 != path);
        lemma_absent(rest, path);
    }
}

/// Writing into an ordered tree keeps the order and adds no path but the written one.
pub proof fn write_keeps_order(tree: Seq<FileModel>, path: Seq<char>, bytes: Seq<u8>)
    requires
        is_ordered(tree),
    ensures
        is_ordered(written(tree, path, bytes)),
        forall|i: int|
            0 <= i < written(tree, path, bytes).len() ==> (#[trigger] written(
                tree,
                path,
                bytes,
            )[i]).0 == path || exists|j: int|
                0 <= j < tree.len() && (#[trigger] tree[j]).0 == written(tree, path, bytes)[i].0,
    decreases tree.len(),
{
    let w = written(tree, path, bytes);
    if tree.len() == 0 {
    } else if tree[0].0 == path {
        assert forall|i: int| 0 <= i < w.len() implies (#[trigger] w[i]).0 == tree[i].0 by {}
    } else if path_before(path, tree[0].0) {
        assert forall|i: int, j: int| 0 <= i < j < w.len() implies path_before(
            (#[trigger] w[i]).0,
            (#[trigger] w[j]).0,
        ) by {
            if i == 0 {
                assert(w[j] == tree[j - 1]);
                if j > 1 {
                    assert(path_before(tree[0].0, tree[j - 1].0));
                    path_before_is_strict_order(path, tree[0].0, tree[j - 1].0);
                }
            } else {
                assert(w[i] == tree[i - 1] && w[j] == tree[j - 1]);
            }
        }
        assert forall|i: int| 0 <= i < w.len() implies (#[trigger] w[i]).0 == path || exists|j: int|
            0 <= j < tree.len() && (#[trigger] tree[j]).0 == w[i].0 by {
            if i > 0 {
                assert(w[i] == tree[i - 1]);
            }
        }
    } else {
        let rest = tree.skip(1);
        assert forall|i: int, j: int| 0 <= i < j < rest.len() implies path_before(
            (#[trigger] rest[i]).0,
            (#[trigger] rest[j]).0,
        ) by {
            assert(rest[i] == tree[i + 1] && rest[j] == tree[j + 1]);
        }
        write_keeps_order(rest, path, bytes);
        let v = written(rest, path, bytes);
        path_before_is_strict_order(path, tree[0].0, path);
        assert forall|i: int| 0 <= i < v.len() implies path_before(
            tree[0].0,
            (#[trigger] v[i]).0,
        ) by {
            if v[i].0 != path {
                let j = choose|j: int| 0 <= j < rest.len() && (#[trigger] rest[j]).0 == v[i].0;
                assert(rest[j] == tree[j + 1]);
                assert(path_before(tree[0].0, tree[j + 1].0));
            }
        }
        assert forall|i: int, j: int| 0 <= i < j < w.len() implies path_before(
            (#[trigger] w[i]).0,
            (#[trigger] w[j]).0,
        ) by {
            assert(w[j] == v[j - 1]);
            if i > 0 {
                assert(w[i] == v[i - 1]);
            }
        }
        assert forall|i: int| 0 <= i < w.len() implies (#[trigger] w[i]).0 == path || exists|j: int|
            0 <= j < tree.len() && (#[trigger] tree[j]).0 == w[i].0 by {
            if i == 0 {
                assert(w[0] == tree[0]);
            } else {
                assert(w[i] == v[i - 1]);
                if v[i - 1].0 != path {
                    let j = choose|j: int|
                        0 <= j < rest.len() && (#[trigger] rest[j]).0 == v[i - 1].0;
                    assert(rest[j] == tree[j + 1]);
                }
            }
        }
    }
}

/// Whether a path lies strictly under a directory.
pub open spec fn lies_under(path: Seq<char>, directory: Seq<char>) -> bool {
    has_prefix(path, directory + "/"@) && path.len() > directory.len() + 1
}

/// Returns whether a path lies strictly under a directory.
pub fn is_under(path: &str, directory: &str) -> (r: bool)
    ensures
        r == lies_under(path@, directory@),
{
    let mut prefix = directory.to_owned();
    prefix.append("/");
    proof {
        reveal_strlit("/");
    }
    let p = to_chars(path);
    let q = to_chars(prefix.as_str());
    p.len() > q.len() && starts_with(path, prefix.as_str())
}

} // verus!
