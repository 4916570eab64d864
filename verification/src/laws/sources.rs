//! What a manifest may hold, and what is kept of a source.
use vstd::prelude::*;
use crate::domain::{is_id_of, EntityKind};
use crate::grants::{entry_step, extension, file_name, format_of, granted_path, last_dot, stable_print, FileStat, GrantKind, GrantModel, GrantStep};
use crate::hash::digest_text;
use crate::laws::pipeline::lemma_joined;
use crate::laws::texts::first_piece_is_split_off;
use crate::paths::ascii_lower;
use crate::sources::{content_path, entries_error, entry_error, page_error, page_texts, pdf_text, raw_path, snapshot_entry, snapshot_matches, snapshot_of, urls_error, web_urls, EntryModel, PdfPages, ScopeModel, SnapshotModel, SourceKind, SourceTier};
use crate::text::{has_part, is_blank, is_digest, split, utf8};
use crate::validation::EntryKind;
use crate::web::url_error;

verus! {

proof fn lemma_entry(entries: Seq<EntryModel>, from: int, i: int)
    requires
        0 <= from <= i < entries.len(),
        entries_error(entries, from) is None,
    ensures
        entry_error(entries, i) is None,
    decreases i - from,
{
    if from < i {
        lemma_entry(entries, from + 1, i);
    }
}

proof fn lemma_url(urls: Seq<Seq<char>>, from: int, k: int)
    requires
        0 <= from <= k < urls.len(),
        urls_error(urls, from) is None,
    ensures
        url_error(urls[k]) is None,
    decreases k - from,
{
    if from < k {
        lemma_url(urls, from + 1, k);
    }
}

/// In a manifest that is accepted every source has an identifier of its own, a scope that names the
/// right kind of thing, and digests; the digest that is expected is that of what was kept; a secret
/// source keeps nothing, and only a source of the web has an address.
pub proof fn accepted_manifest_is_sound(entries: Seq<EntryModel>, i: int, j: int)
    requires
        entries_error(entries, 0) is None,
        0 <= i < entries.len(),
    ensures
        ({
            let entry = entries[i];
            &&& is_id_of(entry.source_id, EntityKind::Source)
            &&& 0 <= j < i ==> entries[j].source_id != entry.source_id
            &&& entry.scope matches ScopeModel::Part(id) ==> is_id_of(id, EntityKind::Part)
            &&& entry.scope matches ScopeModel::Chapter(id) ==> is_id_of(id, EntityKind::Chapter)
            &&& entry.scope matches ScopeModel::Scene(id) ==> is_id_of(id, EntityKind::Scene)
            &&& entry.scope matches ScopeModel::Role(role) ==> !is_blank(role)
            &&& is_digest(entry.expected_sha256) && is_digest(entry.snapshot.content_sha256)
            &&& entry.expected_sha256 == entry.snapshot.raw_sha256
            &&& entry.snapshot.ephemeral ==> entry.snapshot.raw_artifact is None
                && entry.snapshot.content_artifact is None && entry.web is None
            &&& !entry.snapshot.ephemeral ==> entry.snapshot.raw_artifact is Some
                && entry.snapshot.content_artifact is Some
            &&& entry.kind == SourceKind::Web && !entry.snapshot.ephemeral ==> entry.web is Some
            &&& entry.kind != SourceKind::Web ==> entry.web is None
        }),
{
    lemma_entry(entries, 0, i);
    if 0 <= j < i {
        assert(entries[j].source_id == entries[j].source_id);
    }
}

/// Every address that an accepted manifest names for a source of the web may be fetched from, and
/// the digests of the page are those of the source.
pub proof fn accepted_addresses_are_safe(entries: Seq<EntryModel>, i: int, k: int)
    requires
        entries_error(entries, 0) is None,
        0 <= i < entries.len(),
    ensures
        entries[i].web matches Some(web) ==> {
            &&& url_error(web.initial_url) is None
            &&& url_error(web.final_url) is None
            &&& 0 <= k < web.redirect_chain.len() ==> url_error(web.redirect_chain[k]) is None
            &&& web.raw_sha256 == entries[i].snapshot.raw_sha256
            &&& web.content_sha256 == entries[i].snapshot.content_sha256
        },
{
    lemma_entry(entries, 0, i);
    if let Some(web) = entries[i].web {
        let urls = web_urls(web);
        assert(urls[0] == web.initial_url && urls[1] == web.final_url);
        lemma_url(urls, 0, 0);
        lemma_url(urls, 0, 1);
        if 0 <= k < web.redirect_chain.len() {
            assert(urls[k + 2] == web.redirect_chain[k]);
            lemma_url(urls, 0, k + 2);
        }
    }
}

/// What is kept of a source is named after the digest of its bytes: two names are the same only for
/// the same digest, and the name for its bytes is never one for its text.
pub proof fn kept_files_are_named_apart(a: Seq<char>, b: Seq<char>)
    ensures
        raw_path(a) == raw_path(b) ==> a == b,
        content_path(a) == content_path(b) ==> a == b,
        a.len() == b.len() ==> raw_path(a) != content_path(b),
{
    let front = "資料/snapshots/"@;
    reveal_strlit(".raw");
    reveal_strlit(".context.txt");
    if raw_path(a) == raw_path(b) {
        assert(raw_path(a).len() == front.len() + a.len() + 4);
        assert forall|i: int| 0 <= i < a.len() implies a[i] == b[i] by {
            assert(raw_path(a)[front.len() + i] == a[i]);
            assert(raw_path(b)[front.len() + i] == b[i]);
        }
        assert(a =~= b);
    }
    if content_path(a) == content_path(b) {
        assert(content_path(a).len() == front.len() + a.len() + 12);
        assert forall|i: int| 0 <= i < a.len() implies a[i] == b[i] by {
            assert(content_path(a)[front.len() + i] == a[i]);
            assert(content_path(b)[front.len() + i] == b[i]);
        }
        assert(a =~= b);
    }
    assert(raw_path(a).len() == front.len() + a.len() + 4);
    assert(content_path(b).len() == front.len() + b.len() + 12);
}

/// A source that is entered is the one that was read: its kind, its digests and its scope, and it is
/// known again by them.
pub proof fn entered_source_is_the_one_read(
    id: Seq<char>,
    scope: ScopeModel,
    tier: SourceTier,
    kind: SourceKind,
    bytes: Seq<u8>,
    text: Seq<char>,
    secret: bool,
)
    requires
        kind != SourceKind::Web,
    ensures
        ({
            let snapshot = snapshot_of(kind, bytes, text, secret, None);
            let entry = snapshot_entry(id, scope, tier, snapshot);
            &&& entry.source_id == id && entry.scope == scope && entry.tier == tier && entry.kind
                == kind
            &&& entry.expected_sha256 == digest_text(bytes)
            &&& entry.snapshot.content_sha256 == digest_text(utf8(text))
            &&& entry.snapshot.ephemeral == secret
            &&& snapshot_matches(snapshot, entry)
            &&& snapshot.raw_bytes == bytes && snapshot.content == text
        }),
{
}

/// A source that changed is not taken for the one that was entered.
pub proof fn changed_source_does_not_match(snapshot: SnapshotModel, entry: EntryModel)
    requires
        snapshot_matches(snapshot, entry),
    ensures
        digest_text(snapshot.raw_bytes) == entry.expected_sha256,
        digest_text(utf8(snapshot.content)) == entry.snapshot.content_sha256,
        snapshot.kind == entry.kind,
        snapshot.secret == entry.snapshot.ephemeral,
{
}

proof fn lemma_pages(document: PdfPages, from: int, i: int)
    requires
        0 <= from <= i < document.pages@.len(),
        page_error(document.pages@, from) is None,
    ensures
        document.pages@[i].text matches Ok(text) && !is_blank(text@),
    decreases i - from,
{
    if from < i {
        lemma_pages(document, from + 1, i);
    }
}

/// A PDF that is taken in is not encrypted and has pages, each of them with text, and the text of
/// every page is in what is taken in.
pub proof fn every_page_of_a_pdf_is_taken_in(document: PdfPages, i: int)
    requires
        pdf_text(Ok(document)) is Ok,
        0 <= i < document.pages@.len(),
    ensures
        !document.encrypted,
        document.pages@[i].text matches Ok(text) && !is_blank(text@) && has_part(
            pdf_text(Ok(document))->Ok_0,
            text@,
        ),
{
    lemma_pages(document, 0, i);
    let list = page_texts(document.pages@);
    lemma_joined(list, "\n\n"@, i);
    assert(list[i] == document.pages@[i].text->Ok_0@);
}

proof fn lemma_last_dot(name: Seq<char>, n: int, dot: int)
    requires
        0 <= dot < n <= name.len(),
        name[dot] == '.',
        forall|i: int| dot < i < n ==> #[trigger] name[i] != '.',
    ensures
        last_dot(name, n) == dot,
    decreases n - dot,
{
    if dot < n - 1 {
        assert(name[n - 1] != '.');
        lemma_last_dot(name, n - 1, dot);
    }
}

proof fn lemma_extension(directory: Seq<char>, stem: Seq<char>, ending: Seq<char>)
    requires
        stem.len() > 0,
        ending.len() > 0,
        !stem.contains('/'),
        !ending.contains('/') && !ending.contains('.'),
        !directory.contains('/'),
    ensures
        extension(stem + seq!['.'] + ending) == Some(
            ending.map_values(|c: char| ascii_lower(c)),
        ),
        extension(directory + seq!['/'] + (stem + seq!['.'] + ending)) == Some(
            ending.map_values(|c: char| ascii_lower(c)),
        ),
{
    let name = stem + seq!['.'] + ending;
    assert(!name.contains('/')) by {
        if name.contains('/') {
            let i = choose|i: int| 0 <= i < name.len() && name[i] == '/';
            if i < stem.len() {
                assert(stem[i] == '/');
            } else {
                assert(ending[i - stem.len() - 1] == '/');
            }
        }
    }
    first_piece_is_split_off(name, '/', Seq::empty());
    first_piece_is_split_off(directory, '/', name);
    let one = split(name, '/');
    let two = split(directory + seq!['/'] + name, '/');
    assert(one =~= seq![name]);
    assert(two =~= seq![directory, name]);
    assert(name.len() >= 3);
    reveal_strlit(".");
    reveal_strlit("..");
    assert(name != "."@ && name != ".."@);
    reveal_with_fuel(file_name, 3);
    assert(file_name(one, 1) == Some(name));
    assert(file_name(two, 2) == Some(name));
    assert forall|i: int| stem.len() < i < name.len() implies #[trigger] name[i] != '.' by {
        assert(name[i] == ending[i - stem.len() - 1]);
        assert(ending.contains(ending[i - stem.len() - 1]));
    }
    lemma_last_dot(name, name.len() as int, stem.len() as int);
    let dot: int = stem.len() as int;
    assert(name.skip(dot + 1) =~= ending);
}

/// How a file is read goes by the ending of its name: `txt` and `text` are plain text, `md` and
/// `markdown` are Markdown, in a directory or not.
pub proof fn format_goes_by_the_ending(directory: Seq<char>, stem: Seq<char>)
    requires
        stem.len() > 0,
        !stem.contains('/'),
        !directory.contains('/'),
    ensures
        format_of(directory + seq!['/'] + (stem + seq!['.'] + seq!['t', 'x', 't'])) == Some(
            SourceKind::PlainText,
        ),
        format_of(stem + seq!['.'] + seq!['t', 'x', 't']) == Some(SourceKind::PlainText),
        format_of(stem + seq!['.'] + seq!['T', 'X', 'T']) == Some(SourceKind::PlainText),
        format_of(stem + seq!['.'] + seq!['t', 'e', 'x', 't']) == Some(SourceKind::PlainText),
        format_of(stem + seq!['.'] + seq!['m', 'd']) == Some(SourceKind::Markdown),
        format_of(stem + seq!['.'] + seq!['M', 'D']) == Some(SourceKind::Markdown),
        format_of(stem + seq!['.'] + seq!['m', 'a', 'r', 'k', 'd', 'o', 'w', 'n']) == Some(
            SourceKind::Markdown,
        ),
        format_of(stem + seq!['.'] + seq!['p', 'd', 'f']) is None,
{
    reveal_strlit("txt");
    reveal_strlit("text");
    reveal_strlit("md");
    reveal_strlit("markdown");
    let lower = |c: char| ascii_lower(c);
    let txt = seq!['t', 'x', 't'];
    let capital = seq!['T', 'X', 'T'];
    let text = seq!['t', 'e', 'x', 't'];
    let md = seq!['m', 'd'];
    let capital_md = seq!['M', 'D'];
    let markdown = seq!['m', 'a', 'r', 'k', 'd', 'o', 'w', 'n'];
    let pdf = seq!['p', 'd', 'f'];
    lemma_extension(directory, stem, txt);
    lemma_extension(directory, stem, capital);
    lemma_extension(directory, stem, text);
    lemma_extension(directory, stem, md);
    lemma_extension(directory, stem, capital_md);
    lemma_extension(directory, stem, markdown);
    lemma_extension(directory, stem, pdf);
    assert(txt.map_values(lower) =~= "txt"@);
    assert(capital.map_values(lower) =~= "txt"@);
    assert(text.map_values(lower) =~= "text"@);
    assert(md.map_values(lower) =~= "md"@);
    assert(capital_md.map_values(lower) =~= "md"@);
    assert(markdown.map_values(lower) =~= "markdown"@);
    assert(pdf.map_values(lower)[0] == 'p');
    assert("txt"@.len() == 3 && "txt"@[0] == 't' && "text"@.len() == 4 && "md"@.len() == 2
        && "markdown"@.len() == 8);
    assert(pdf.map_values(lower).len() == 3);
}

/// A file counts as read only where it stayed the same file with the same content throughout.
pub proof fn file_must_stay_the_same(before: FileStat, bytes: Seq<u8>, after: FileStat)
    ensures
        stable_print(before, bytes, after) matches Some(print) ==> print.0 == digest_text(bytes)
            && print.1 == after && after.byte_len == bytes.len() && before.device == after.device
            && before.inode == after.inode && before.modified_seconds == after.modified_seconds
            && before.modified_nanoseconds == after.modified_nanoseconds && before.changed_seconds
            == after.changed_seconds && before.changed_nanoseconds == after.changed_nanoseconds,
        before == after && after.byte_len == bytes.len() ==> stable_print(before, bytes, after)
            is Some,
{
}

/// A granted directory takes in files and what lies in its directories; it has no links, no devices
/// and no two names that fold to the same.
pub proof fn grants_take_in_plain_files(
    names: Seq<Seq<char>>,
    name: Option<Seq<char>>,
    kind: EntryKind,
)
    ensures
        kind == EntryKind::Symlink || kind == EntryKind::Special ==> entry_step(names, name, kind)
            is Err,
        name is None ==> entry_step(names, name, kind) is Err,
        name matches Some(alias) && names.contains(alias) ==> entry_step(names, name, kind) is Err,
        name is Some && !names.contains(name->Some_0) && kind == EntryKind::File ==> (entry_step(
            names,
            name,
            kind,
        ) matches Ok(step) && step == GrantStep::Read),
        name is Some && !names.contains(name->Some_0) && kind == EntryKind::Directory ==> (
        entry_step(names, name, kind) matches Ok(step) && step == GrantStep::Descend),
{
}

/// A path that is granted is the granted one, or lies under the granted directory, and is then known
/// by what comes behind the directory.
pub proof fn granted_path_lies_inside(grant: GrantModel, path: Seq<char>)
    ensures
        granted_path(grant, path) matches Ok(relative) ==> (path == grant.root && relative.len()
            == 0) || (grant.kind == GrantKind::Directory && relative.len() > 0 && path == grant.root
            + "/"@ + relative),
        grant.kind == GrantKind::File && path != grant.root ==> granted_path(grant, path) is Err,
{
    reveal_strlit("/");
    if let Ok(relative) = granted_path(grant, path) {
        if path != grant.root {
            let front = grant.root + "/"@;
            assert(path.take(front.len() as int) == front);
            assert(front + relative =~= path);
        }
    }
}

/// A name that only begins with a dot has no ending, and neither has one without a dot.
pub proof fn hidden_file_has_no_ending(name: Seq<char>)
    requires
        name.len() > 0,
        !name.contains('/') && !name.contains('.'),
    ensures
        extension(seq!['.'] + name) is None,
        extension(name) is None,
        format_of(name) is None,
{
    let hidden = seq!['.'] + name;
    assert(!hidden.contains('/')) by {
        if hidden.contains('/') {
            let i = choose|i: int| 0 <= i < hidden.len() && hidden[i] == '/';
            assert(name[i - 1] == '/');
        }
    }
    first_piece_is_split_off(hidden, '/', Seq::empty());
    first_piece_is_split_off(name, '/', Seq::empty());
    reveal_strlit(".");
    reveal_strlit("..");
    assert(name != "."@) by {
        if name == "."@ {
            assert(name[0] == '.');
        }
    }
    assert(name != ".."@) by {
        if name == ".."@ {
            assert(name[0] == '.');
        }
    }
    assert(hidden != ".."@) by {
        if hidden == ".."@ {
            assert(hidden[1] == '.');
            assert(name[0] == '.');
        }
    }
    reveal_with_fuel(file_name, 2);
    assert forall|i: int| 0 < i < hidden.len() implies #[trigger] hidden[i] != '.' by {
        assert(hidden[i] == name[i - 1]);
        assert(name.contains(name[i - 1]));
    }
    lemma_last_dot(hidden, hidden.len() as int, 0);
    lemma_no_dot(name, name.len() as int);
}

proof fn lemma_no_dot(name: Seq<char>, n: int)
    requires
        0 <= n <= name.len(),
        !name.contains('.'),
    ensures
        last_dot(name, n) == -1,
    decreases n,
{
    if n > 0 {
        assert(name.contains(name[n - 1]));
        lemma_no_dot(name, n - 1);
    }
}

} // verus!
