//! Project configuration, Markdown artifacts and the files of a new project.
use vstd::prelude::*;
use vstd::string::StringExecFns;
use vstd::utf8::valid_utf8;
use crate::domain::EntityId;
use crate::paths::{components_plain, copy_bytes, files, is_absolute, is_absolute_path, join_path, joined, plain_components, FileEntry, FileModel};
use crate::text::{blank, concat3, decode, is_blank, opt_text, texts, utf8};

verus! {

/// Durable project configuration.
#[derive(Debug)]
pub struct ProjectConfig {
    /// Version of the project layout.
    pub format_version: u8,
    /// Identifier of the work, which never changes.
    pub work_id: EntityId,
}

/// Answers given when a project is created.
#[derive(Debug)]
pub struct InitAnswers {
    /// Title of the work.
    pub title: String,
}

impl InitAnswers {
    /// Builds the answers from a title alone.
    pub fn minimal(title: String) -> (r: InitAnswers)
        ensures
            r.title@ == title@,
    {
        InitAnswers { title }
    }
}

/// A project: where it lies and how it is configured.
#[derive(Debug)]
pub struct Project {
    /// Path of the project directory.
    pub root: String,
    /// Project configuration.
    pub config: ProjectConfig,
}

/// The message for a path that must not be resolved, where there is one.
pub open spec fn relative_path_error(path: Seq<char>) -> Option<Seq<char>> {
    if is_absolute_path(path) {
        Some("project path must be relative"@)
    } else if !components_plain(path, ".git"@) {
        Some("unsafe project-relative path: "@ + path)
    } else {
        None
    }
}

fn validate_relative_path(path: &str) -> (r: Result<(), String>)
    ensures
        match r {
            Ok(()) => relative_path_error(path@) is None,
            Err(message) => relative_path_error(path@) == Some(message@),
        },
{
    if is_absolute(path) {
        return Err("project path must be relative".to_owned());
    }
    if !plain_components(path, ".git") {
        let mut message = "unsafe project-relative path: ".to_owned();
        message.append(path);
        return Err(message);
    }
    Ok(())
}

impl Project {
    /// Resolves a relative path whose components are file names, none of them `.git`.
    pub fn resolve_path(&self, relative: &str) -> (r: Result<String, String>)
        ensures
            match r {
                Ok(path) => relative_path_error(relative@) is None && path@ == joined(
                    self.root@,
                    relative@,
                ),
                Err(message) => relative_path_error(relative@) == Some(message@),
            },
    {
        match validate_relative_path(relative) {
            Err(message) => Err(message),
            Ok(()) => Ok(join_path(self.root.as_str(), relative)),
        }
    }
}

/// A YAML mapping of `yaml_serde`.  Nothing is said of its value but what the names below tell.
#[verifier::external_type_specification]
#[verifier::external_body]
pub struct ExMapping(yaml_serde::Mapping);

/// The string values of a YAML mapping under its string keys.
pub uninterp spec fn mapping_strings(mapping: yaml_serde::Mapping) -> Map<Seq<char>, Seq<char>>;

/// The YAML text that `yaml_serde::to_string` gives for a mapping, or `None` where it fails.
pub uninterp spec fn mapping_yaml(mapping: yaml_serde::Mapping) -> Option<Seq<char>>;

/// Whether two YAML mappings are equal values.
pub uninterp spec fn mappings_equal(a: yaml_serde::Mapping, b: yaml_serde::Mapping) -> bool;

/// The string entries of the mapping that `yaml_serde::from_str` reads from a text, or `None`
/// where the text is no YAML mapping.
pub uninterp spec fn yaml_strings(text: Seq<char>) -> Option<Map<Seq<char>, Seq<char>>>;

/// Calls `yaml_serde::from_str` for a mapping.
#[verifier::external_body]
fn read_mapping(source: &str) -> (r: Option<yaml_serde::Mapping>)
    ensures
        yaml_strings(source@) == (match r {
            Some(mapping) => Some(mapping_strings(mapping)),
            None => None,
        }),
{
    yaml_serde::from_str(source).ok()
}

/// Calls `Clone::clone` of a YAML mapping: the copy is equal and holds the same strings.
#[verifier::external_body]
fn copy_mapping(mapping: &yaml_serde::Mapping) -> (r: yaml_serde::Mapping)
    ensures
        mapping_strings(r) == mapping_strings(*mapping),
        mappings_equal(*mapping, r),
        mappings_equal(r, *mapping),
{
    mapping.clone()
}

/// Calls `==` on two YAML mappings.
#[verifier::external_body]
fn same_mapping(a: &yaml_serde::Mapping, b: &yaml_serde::Mapping) -> (r: bool)
    ensures
        r == mappings_equal(*a, *b),
{
    a == b
}

/// Calls `yaml_serde::to_string` on a mapping.
#[verifier::external_body]
fn render_mapping(mapping: &yaml_serde::Mapping) -> (r: Option<String>)
    ensures
        opt_text(r) == mapping_yaml(*mapping),
{
    yaml_serde::to_string(mapping).ok()
}

/// Calls `Mapping::get` with a string key and `Value::as_str` on what it finds.
#[verifier::external_body]
fn mapping_text(mapping: &yaml_serde::Mapping, key: &str) -> (r: Option<String>)
    ensures
        match r {
            Some(value) => mapping_strings(*mapping).contains_key(key@) && mapping_strings(
                *mapping,
            )[key@] == value@,
            None => !mapping_strings(*mapping).contains_key(key@),
        },
{
    mapping.get(key).and_then(yaml_serde::Value::as_str).map(str::to_owned)
}

/// The YAML text of a mapping with one string entry, as `yaml_serde::to_string` writes it.
pub uninterp spec fn yaml_pair_text(key: Seq<char>, value: Seq<char>) -> Seq<char>;

/// Calls `yaml_serde::to_string` on a mapping with one string entry.
#[verifier::external_body]
fn yaml_pair(key: &str, value: &str) -> (r: String)
    ensures
        r@ == yaml_pair_text(key@, value@),
{
    let mut mapping = yaml_serde::Mapping::new();
    mapping.insert(
        yaml_serde::Value::String(key.to_owned()),
        yaml_serde::Value::String(value.to_owned()),
    );
    yaml_serde::to_string(&mapping).expect("a mapping of strings serializes")
}

/// The text that `toml::to_string_pretty` gives for a table with the given integer and string
/// entries.
pub uninterp spec fn toml_document(
    numbers: Seq<(Seq<char>, i64)>,
    entries: Seq<(Seq<char>, Seq<char>)>,
) -> Seq<char>;

/// The keys and values of integer entries.
pub open spec fn entry_numbers(entries: Seq<(String, i64)>) -> Seq<(Seq<char>, i64)> {
    entries.map_values(|entry: (String, i64)| (entry.0@, entry.1))
}

/// The keys and values of string entries.
pub open spec fn entry_texts(entries: Seq<(String, String)>) -> Seq<(Seq<char>, Seq<char>)> {
    entries.map_values(|entry: (String, String)| (entry.0@, entry.1@))
}

/// Calls `toml::to_string_pretty` on a table with the given integer and string entries.
#[verifier::external_body]
fn render_toml(numbers: Vec<(String, i64)>, entries: Vec<(String, String)>) -> (r: String)
    ensures
        r@ == toml_document(entry_numbers(numbers@), entry_texts(entries@)),
{
    let numbers = numbers.into_iter().map(|(key, value)| (key, toml::Value::Integer(value)));
    let texts = entries.into_iter().map(|(key, value)| (key, toml::Value::String(value)));
    let table = numbers.chain(texts).collect::<toml::Table>();
    toml::to_string_pretty(&table).expect("a table of plain values serializes")
}

/// What `toml::from_str` reads from a text: for each top-level key its string value and its
/// integer value, where it has one, or `None` where the text is no TOML document.
pub uninterp spec fn toml_entries(text: Seq<char>) -> Option<
    Map<Seq<char>, (Option<Seq<char>>, Option<i64>)>,
>;

/// Calls `toml::from_str` for a table and looks up a key: the outer `None` stands for a text that
/// is no TOML document, the inner one for a missing key.
#[verifier::external_body]
fn read_toml_entry(text: &str, key: &str) -> (r: Option<Option<(Option<String>, Option<i64>)>>)
    ensures
        match toml_entries(text@) {
            None => r is None,
            Some(entries) => r is Some && match r.unwrap() {
                Some(value) => entries.contains_key(key@) && entries[key@] == (
                    opt_text(value.0),
                    value.1,
                ),
                None => !entries.contains_key(key@),
            },
        },
{
    let table = toml::from_str::<toml::Table>(text).ok()?;
    Some(table.get(key).map(|value| (value.as_str().map(str::to_owned), value.as_integer())))
}

/// The configuration that a TOML text holds: a format version that fits in a byte and a work
/// identifier.
pub open spec fn config_of(text: Seq<char>) -> Option<(u8, Seq<char>)> {
    match toml_entries(text) {
        None => None,
        Some(entries) => {
            if entries.contains_key("format_version"@) && entries.contains_key("work_id"@) {
                config_fields(entries["format_version"@].1, entries["work_id"@].0)
            } else {
                None
            }
        },
    }
}

/// The configuration with the given version and work, where both are there and the version fits.
pub open spec fn config_fields(version: Option<i64>, work_id: Option<Seq<char>>) -> Option<
    (u8, Seq<char>),
> {
    match (version, work_id) {
        (Some(number), Some(id)) => if 0 <= number <= 255 {
            Some((number as u8, id))
        } else {
            None
        },
        _ => None,
    }
}

/// Builds a configuration from the values of a document.
pub fn config_from(version: Option<i64>, work_id: Option<String>) -> (r: Option<ProjectConfig>)
    ensures
        match r {
            Some(config) => config_fields(version, opt_text(work_id)) == Some(
                (config.format_version, config.work_id@),
            ),
            None => config_fields(version, opt_text(work_id)) is None,
        },
{
    match (version, work_id) {
        (Some(version), Some(work_id)) => {
            if version >= 0 && version <= 255 {
                Some(
                    ProjectConfig {
                        format_version: version as u8,
                        work_id: EntityId::from_stored(work_id),
                    },
                )
            } else {
                None
            }
        },
        _ => None,
    }
}

/// Reads a project configuration from TOML.
pub fn parse_config(text: &str) -> (r: Option<ProjectConfig>)
    ensures
        match r {
            Some(config) => config_of(text@) == Some((config.format_version, config.work_id@)),
            None => config_of(text@) is None,
        },
{
    let version = match read_toml_entry(text, "format_version") {
        Some(Some(entry)) => entry.1,
        _ => None,
    };
    let work_id = match read_toml_entry(text, "work_id") {
        Some(Some(entry)) => entry.0,
        _ => None,
    };
    config_from(version, work_id)
}

/// A Markdown file with YAML frontmatter.
#[derive(Debug)]
pub struct MarkdownArtifact {
    frontmatter: yaml_serde::Mapping,
    original_frontmatter: yaml_serde::Mapping,
    original: Vec<u8>,
    body_offset: usize,
}

/// The offset behind the first line feed at or after `start`.
pub open spec fn line_end_from(bytes: Seq<u8>, start: int) -> Option<int>
    decreases bytes.len() - start,
{
    if start < 0 || start >= bytes.len() {
        None
    } else if bytes[start] == 10 {
        Some(start + 1)
    } else {
        line_end_from(bytes, start + 1)
    }
}

/// Whether a line, with or without its line end, is a frontmatter delimiter.
pub open spec fn is_delimiter(line: Seq<u8>) -> bool {
    ||| line == seq![45u8, 45u8, 45u8]
    ||| line == seq![45u8, 45u8, 45u8, 10u8]
    ||| line == seq![45u8, 45u8, 45u8, 13u8]
    ||| line == seq![45u8, 45u8, 45u8, 13u8, 10u8]
}

/// The start and the end of the first delimiter line at or after `cursor`; a file may not end
/// before it.
pub open spec fn closing_line(bytes: Seq<u8>, cursor: int) -> Option<(int, int)>
    decreases bytes.len() - cursor,
    when 0 <= cursor
{
    match line_end_from(bytes, cursor) {
        None => None,
        Some(end) => {
            if is_delimiter(bytes.subrange(cursor, end)) {
                Some((cursor, end))
            } else if cursor < end < bytes.len() {
                closing_line(bytes, end)
            } else {
                None
            }
        },
    }
}

/// The bounds of the frontmatter text and the offset of the body, or the message of the error.
pub open spec fn markdown_layout(bytes: Seq<u8>) -> Result<(int, int, int), Seq<char>> {
    match line_end_from(bytes, 0) {
        None => Err("frontmatter opening delimiter is missing"@),
        Some(opening_end) => {
            if !is_delimiter(bytes.subrange(0, opening_end)) {
                Err("frontmatter must start with a --- delimiter"@)
            } else {
                match closing_line(bytes, opening_end) {
                    None => Err("frontmatter closing delimiter is missing"@),
                    Some((start, end)) => Ok((opening_end, start, end)),
                }
            }
        },
    }
}

/// The string entries of the frontmatter and the offset of the body, or the message of the error.
pub open spec fn markdown_of(bytes: Seq<u8>) -> Result<
    (Map<Seq<char>, Seq<char>>, int),
    Seq<char>,
> {
    match markdown_layout(bytes) {
        Err(message) => Err(message),
        Ok((start, end, body)) => {
            let source = bytes.subrange(start, end);
            if !valid_utf8(source) {
                Err("frontmatter must be valid UTF-8"@)
            } else {
                match yaml_strings(vstd::utf8::decode_utf8(source)) {
                    None => Err("frontmatter must be a YAML mapping"@),
                    Some(entries) => Ok((entries, body)),
                }
            }
        },
    }
}

fn line_end(bytes: &[u8], start: usize) -> (r: Option<usize>)
    requires
        start <= bytes@.len(),
    ensures
        match r {
            Some(end) => line_end_from(bytes@, start as int) == Some(end as int) && start < end
                <= bytes@.len(),
            None => line_end_from(bytes@, start as int) is None,
        },
{
    let mut i: usize = start;
    while i < bytes.len()
        invariant
            start <= i <= bytes@.len(),
            line_end_from(bytes@, start as int) == line_end_from(bytes@, i as int),
        decreases bytes@.len() - i,
    {
        if bytes[i] == 10 {
            return Some(i + 1);
        }
        i += 1;
    }
    None
}

fn delimiter_line(bytes: &[u8], start: usize, end: usize) -> (r: bool)
    requires
        start <= end <= bytes@.len(),
    ensures
        r == is_delimiter(bytes@.subrange(start as int, end as int)),
{
    let ghost line = bytes@.subrange(start as int, end as int);
    let n: usize = end - start;
    if n < 3 || n > 5 || bytes[start] != 45 || bytes[start + 1] != 45 || bytes[start + 2] != 45 {
        assert(line.len() == n);
        assert(n >= 3 ==> line[0] == bytes@[start as int] && line[1] == bytes@[start + 1] && line[2]
            == bytes@[start + 2]);
        return false;
    }
    if n == 3 {
        assert(line =~= seq![45u8, 45u8, 45u8]);
        return true;
    }
    let last = bytes[end - 1];
    let r = if n == 4 {
        last == 10 || last == 13
    } else {
        bytes[start + 3] == 13 && last == 10
    };
    assert(line.len() == n);
    assert(line[3] == bytes@[start + 3]);
    assert(line[n - 1] == last);
    if r {
        if n == 4 {
            assert(last == 10 ==> line =~= seq![45u8, 45u8, 45u8, 10u8]);
            assert(last == 13 ==> line =~= seq![45u8, 45u8, 45u8, 13u8]);
        } else {
            assert(line =~= seq![45u8, 45u8, 45u8, 13u8, 10u8]);
        }
    } else {
        assert(seq![45u8, 45u8, 45u8, 10u8][3] == 10);
        assert(seq![45u8, 45u8, 45u8, 13u8][3] == 13);
        assert(seq![45u8, 45u8, 45u8, 13u8, 10u8][3] == 13);
        assert(seq![45u8, 45u8, 45u8, 13u8, 10u8][4] == 10);
    }
    r
}

fn find_closing(bytes: &[u8], from: usize) -> (r: Option<(usize, usize)>)
    requires
        from <= bytes@.len(),
    ensures
        match r {
            Some((start, end)) => closing_line(bytes@, from as int) == Some(
                (start as int, end as int),
            ) && from <= start <= end <= bytes@.len(),
            None => closing_line(bytes@, from as int) is None,
        },
{
    let mut cursor: usize = from;
    loop
        invariant
            from <= cursor <= bytes@.len(),
            closing_line(bytes@, from as int) == closing_line(bytes@, cursor as int),
        decreases bytes@.len() - cursor,
    {
        match line_end(bytes, cursor) {
            None => {
                return None;
            },
            Some(end) => {
                if delimiter_line(bytes, cursor, end) {
                    return Some((cursor, end));
                }
                if end >= bytes.len() {
                    return None;
                }
                cursor = end;
            },
        }
    }
}

impl MarkdownArtifact {
    /// The body lies inside the original bytes.
    #[verifier::type_invariant]
    pub closed spec fn wf(self) -> bool {
        self.body_offset <= self.original@.len()
    }

    /// The bytes the artifact was parsed from.
    pub closed spec fn source(self) -> Seq<u8> {
        self.original@
    }

    /// The offset of the body in the source.
    pub closed spec fn offset(self) -> int {
        self.body_offset as int
    }

    /// The frontmatter as it stands.
    pub closed spec fn mapping(self) -> yaml_serde::Mapping {
        self.frontmatter
    }

    /// The frontmatter as it was parsed.
    pub closed spec fn parsed_mapping(self) -> yaml_serde::Mapping {
        self.original_frontmatter
    }

    /// Returns the bytes behind the frontmatter.
    pub fn body(&self) -> (r: Vec<u8>)
        ensures
            0 <= self.offset() <= self.source().len(),
            r@ == self.source().skip(self.offset()),
    {
        proof {
            use_type_invariant(self);
        }
        let mut out: Vec<u8> = Vec::new();
        let mut i: usize = self.body_offset;
        while i < self.original.len()
            invariant
                self.body_offset <= i <= self.original@.len(),
                out@ == self.original@.subrange(self.body_offset as int, i as int),
            decreases self.original@.len() - i,
        {
            out.push(self.original[i]);
            i += 1;
            assert(out@ =~= self.original@.subrange(self.body_offset as int, i as int));
        }
        assert(out@ =~= self.source().skip(self.offset()));
        out
    }

    /// Returns the frontmatter.
    pub fn frontmatter(&self) -> (r: &yaml_serde::Mapping)
        ensures
            *r == self.mapping(),
    {
        &self.frontmatter
    }

    /// Replaces the frontmatter.
    pub fn set_frontmatter(&mut self, mapping: yaml_serde::Mapping)
        ensures
            final(self).mapping() == mapping,
            final(self).parsed_mapping() == old(self).parsed_mapping(),
            final(self).source() == old(self).source(),
            final(self).offset() == old(self).offset(),
    {
        proof {
            use_type_invariant(&*self);
        }
        self.frontmatter = mapping;
    }

    /// Returns the string value of a frontmatter key.
    pub fn text(&self, key: &str) -> (r: Option<String>)
        ensures
            match r {
                Some(value) => mapping_strings(self.mapping()).contains_key(key@)
                    && mapping_strings(self.mapping())[key@] == value@,
                None => !mapping_strings(self.mapping()).contains_key(key@),
            },
    {
        mapping_text(&self.frontmatter, key)
    }
}

/// Finds the frontmatter of a Markdown file: where its text starts and ends and where the body
/// starts.
pub fn locate_frontmatter(bytes: &[u8]) -> (r: Result<(usize, usize, usize), String>)
    ensures
        match r {
            Ok((start, end, body)) => markdown_layout(bytes@) == Ok::<_, Seq<char>>(
                (start as int, end as int, body as int),
            ) && start <= end <= body <= bytes@.len(),
            Err(message) => markdown_layout(bytes@) == Err::<(int, int, int), _>(message@),
        },
{
    match line_end(bytes, 0) {
        None => Err("frontmatter opening delimiter is missing".to_owned()),
        Some(opening_end) => {
            if !delimiter_line(bytes, 0, opening_end) {
                return Err("frontmatter must start with a --- delimiter".to_owned());
            }
            match find_closing(bytes, opening_end) {
                None => Err("frontmatter closing delimiter is missing".to_owned()),
                Some((closing_start, closing_end)) => Ok((opening_end, closing_start, closing_end)),
            }
        },
    }
}

/// Parses a Markdown file with YAML frontmatter between `---` lines.
pub fn parse_markdown(bytes: &[u8]) -> (r: Result<MarkdownArtifact, String>)
    ensures
        match r {
            Ok(artifact) => markdown_of(bytes@) == Ok::<_, Seq<char>>(
                (mapping_strings(artifact.mapping()), artifact.offset()),
            ) && artifact.source() == bytes@ && mappings_equal(
                artifact.mapping(),
                artifact.parsed_mapping(),
            ),
            Err(message) => markdown_of(bytes@) == Err::<(Map<Seq<char>, Seq<char>>, int), _>(
                message@,
            ),
        },
{
    let (start, end, body_offset) = match locate_frontmatter(bytes) {
        Err(message) => {
            return Err(message);
        },
        Ok(place) => place,
    };
    let source = vstd::slice::slice_subrange(bytes, start, end);
    let ghost range = bytes@.subrange(start as int, end as int);
    let text = match decode(copy_bytes(source)) {
        Err(_) => {
            return Err("frontmatter must be valid UTF-8".to_owned());
        },
        Ok(text) => text,
    };
    proof {
        vstd::utf8::encode_utf8_decode_utf8(text@);
        assert(vstd::utf8::decode_utf8(range) == text@);
    }
    match read_mapping(text.as_str()) {
        None => Err("frontmatter must be a YAML mapping".to_owned()),
        Some(frontmatter) => {
            let original_frontmatter = copy_mapping(&frontmatter);
            Ok(
                MarkdownArtifact {
                    frontmatter,
                    original_frontmatter,
                    original: copy_bytes(bytes),
                    body_offset,
                },
            )
        },
    }
}

/// The bytes of a Markdown file, or `None` where its frontmatter cannot be written as YAML.
pub open spec fn rendered(artifact: MarkdownArtifact) -> Option<Seq<u8>> {
    if mappings_equal(artifact.mapping(), artifact.parsed_mapping()) {
        Some(artifact.source())
    } else {
        match mapping_yaml(artifact.mapping()) {
            Some(yaml) => Some(
                utf8("---\n"@ + yaml + "---\n"@) + artifact.source().skip(artifact.offset()),
            ),
            None => None,
        }
    }
}

/// Renders a Markdown file: the original bytes where the frontmatter is unchanged, else the new
/// frontmatter between delimiters and the original body.
pub fn render_markdown(artifact: &MarkdownArtifact) -> (r: Result<Vec<u8>, String>)
    ensures
        match r {
            Ok(bytes) => rendered(*artifact) == Some(bytes@),
            Err(message) => rendered(*artifact) is None && message@
                == "failed to serialize frontmatter"@,
        },
{
    if same_mapping(&artifact.frontmatter, &artifact.original_frontmatter) {
        return Ok(copy_bytes(artifact.original.as_slice()));
    }
    match render_mapping(&artifact.frontmatter) {
        None => Err("failed to serialize frontmatter".to_owned()),
        Some(yaml) => {
            let head = concat3("---\n", yaml.as_str(), "---\n");
            let mut out = copy_bytes(head.as_str().as_bytes());
            let mut body = artifact.body();
            out.append(&mut body);
            Ok(out)
        },
    }
}

/// What a new project consists of: directories to create and files to write, in order.
#[derive(Debug)]
pub struct InitPlan {
    /// Directories, relative to the project root.
    pub directories: Vec<String>,
    /// Files, relative to the project root.
    pub files: Vec<FileEntry>,
    /// Configuration of the new project.
    pub config: ProjectConfig,
}

/// The directories of a new project.
pub open spec fn initial_directories(candidate_id: Seq<char>) -> Seq<Seq<char>> {
    seq![
        "前提/キャラクター設定"@,
        "箱書き/章"@,
        "箱書き/構成法"@,
        "本文"@,
        "メモ"@,
        "資料/snapshots"@,
        ".phemius/records"@,
        ".phemius/runtime/candidates"@,
        ".phemius/runtime/candidates/"@ + candidate_id,
    ]
}

/// A Markdown document that holds an identifier and nothing else.
pub open spec fn initial_document(path: Seq<char>, id: Seq<char>) -> FileModel {
    (path, utf8("---\n"@ + yaml_pair_text("id"@, id) + "---\n"@))
}

/// The files of a new project.
pub open spec fn initial_files(
    title: Seq<char>,
    work_id: Seq<char>,
    candidate_id: Seq<char>,
) -> Seq<FileModel> {
    seq![
        ("project.toml"@, utf8(toml_document(seq![("format_version"@, 1i64)], seq![("work_id"@, work_id)]))),
        (".phemius/local.toml"@, utf8("# Machine-local Phemius settings.\n"@)),
        ("AGENTS.md"@, utf8("# Phemius project guidance\n"@)),
        initial_document("前提/作品.md"@, work_id),
        initial_document("前提/世界観設定.md"@, "world_1"@),
        initial_document("前提/時系列.md"@, "timeline_1"@),
        initial_document("前提/伏線.md"@, "foreshadowing_1"@),
        initial_document("前提/文章スタイル.md"@, "style_1"@),
        initial_document("前提/執筆ルール.md"@, "rules_1"@),
        initial_document("箱書き/構成.md"@, "structure_1"@),
        initial_document("資料/manifest.md"@, "manifest_1"@),
        (
            ".phemius/runtime/candidates/"@ + candidate_id + "/init.toml"@,
            utf8(
                toml_document(
                    Seq::empty(),
                    seq![("id"@, candidate_id), ("state"@, "unapproved"@), ("title"@, title)],
                ),
            ),
        ),
    ]
}

fn text_file(path: &str, text: &str) -> (r: FileEntry)
    ensures
        r@ == (path@, utf8(text@)),
{
    FileEntry { path: path.to_owned(), bytes: copy_bytes(text.as_bytes()) }
}

fn document_file(path: &str, id: &str) -> (r: FileEntry)
    ensures
        r@ == initial_document(path@, id@),
{
    let yaml = yaml_pair("id", id);
    text_file(path, concat3("---\n", yaml.as_str(), "---\n").as_str())
}

/// Plans the directories and files of a new project.  A blank title is refused.
pub fn initialize_project(
    answers: &InitAnswers,
    work_id: &EntityId,
    candidate_id: &EntityId,
) -> (r: Result<InitPlan, String>)
    ensures
        match r {
            Ok(plan) => {
                &&& !is_blank(answers.title@)
                &&& texts(plan.directories@) == initial_directories(candidate_id@)
                &&& files(plan.files@) == initial_files(answers.title@, work_id@, candidate_id@)
                &&& plan.config.format_version == 1
                &&& plan.config.work_id@ == work_id@
            },
            Err(message) => is_blank(answers.title@) && message@ == "project title is required"@,
        },
{
    if blank(answers.title.as_str()) {
        return Err("project title is required".to_owned());
    }
    let mut candidate_directory = ".phemius/runtime/candidates/".to_owned();
    candidate_directory.append(candidate_id.as_str());
    let directories = vec![
        "前提/キャラクター設定".to_owned(),
        "箱書き/章".to_owned(),
        "箱書き/構成法".to_owned(),
        "本文".to_owned(),
        "メモ".to_owned(),
        "資料/snapshots".to_owned(),
        ".phemius/records".to_owned(),
        ".phemius/runtime/candidates".to_owned(),
        candidate_directory.clone(),
    ];
    let version: Vec<(String, i64)> = vec![("format_version".to_owned(), 1)];
    assert(entry_numbers(version@) =~= seq![("format_version"@, 1i64)]);
    let no_numbers: Vec<(String, i64)> = Vec::new();
    assert(entry_numbers(no_numbers@) =~= Seq::<(Seq<char>, i64)>::empty());
    let config_entries = vec![("work_id".to_owned(), work_id.as_str().to_owned())];
    assert(entry_texts(config_entries@) =~= seq![("work_id"@, work_id@)]);
    let metadata = vec![
        ("id".to_owned(), candidate_id.as_str().to_owned()),
        ("state".to_owned(), "unapproved".to_owned()),
        ("title".to_owned(), answers.title.clone()),
    ];
    assert(entry_texts(metadata@) =~= seq![
        ("id"@, candidate_id@),
        ("state"@, "unapproved"@),
        ("title"@, answers.title@),
    ]);
    candidate_directory.append("/init.toml");
    let entries = vec![
        text_file("project.toml", render_toml(version, config_entries).as_str()),
        text_file(".phemius/local.toml", "# Machine-local Phemius settings.\n"),
        text_file("AGENTS.md", "# Phemius project guidance\n"),
        document_file("前提/作品.md", work_id.as_str()),
        document_file("前提/世界観設定.md", "world_1"),
        document_file("前提/時系列.md", "timeline_1"),
        document_file("前提/伏線.md", "foreshadowing_1"),
        document_file("前提/文章スタイル.md", "style_1"),
        document_file("前提/執筆ルール.md", "rules_1"),
        document_file("箱書き/構成.md", "structure_1"),
        document_file("資料/manifest.md", "manifest_1"),
        text_file(
            candidate_directory.as_str(),
            render_toml(no_numbers, metadata).as_str(),
        ),
    ];
    assert(texts(directories@) =~= initial_directories(candidate_id@));
    assert(files(entries@) =~= initial_files(answers.title@, work_id@, candidate_id@));
    let config = ProjectConfig { format_version: 1, work_id: work_id.copy() };
    Ok(InitPlan { directories, files: entries, config })
}

/// A parsed file whose frontmatter was not changed renders to the bytes it was parsed from.
pub proof fn unchanged_markdown_round_trips(artifact: MarkdownArtifact, bytes: Seq<u8>)
    requires
        artifact.source() == bytes,
        mappings_equal(artifact.mapping(), artifact.parsed_mapping()),
    ensures
        rendered(artifact) == Some(bytes),
{
}

proof fn lemma_closing_line(bytes: Seq<u8>, cursor: int)
    requires
        0 <= cursor,
        closing_line(bytes, cursor) is Some,
    ensures
        cursor <= closing_line(bytes, cursor)->Some_0.0 <= closing_line(bytes, cursor)->Some_0.1
            <= bytes.len(),
    decreases bytes.len() - cursor,
{
    lemma_line_end(bytes, cursor);
    let end = line_end_from(bytes, cursor)->Some_0;
    if !is_delimiter(bytes.subrange(cursor, end)) {
        lemma_closing_line(bytes, end);
    }
}

/// A parsed file whose frontmatter was changed renders, where the new one can be written, to a text
/// that starts with a delimiter line and ends in the body, byte for byte as it was parsed.
pub proof fn changed_markdown_keeps_the_body(artifact: MarkdownArtifact, bytes: Seq<u8>)
    requires
        artifact.source() == bytes,
        markdown_of(bytes) is Ok,
        artifact.offset() == markdown_of(bytes)->Ok_0.1,
        !mappings_equal(artifact.mapping(), artifact.parsed_mapping()),
    ensures
        rendered(artifact) is Some <==> mapping_yaml(artifact.mapping()) is Some,
        rendered(artifact) is Some ==> {
            let out = rendered(artifact)->Some_0;
            let body = bytes.skip(artifact.offset());
            &&& body.len() == bytes.len() - artifact.offset()
            &&& out.len() >= 4 + body.len()
            &&& out.take(4) == seq![45u8, 45u8, 45u8, 10u8]
            &&& out.skip(out.len() - body.len()) == body
        },
{
    let opening = line_end_from(bytes, 0)->Some_0;
    lemma_line_end(bytes, 0);
    lemma_closing_line(bytes, opening);
    if let Some(yaml) = mapping_yaml(artifact.mapping()) {
        let out = rendered(artifact)->Some_0;
        let body = bytes.skip(artifact.offset());
        let head = "---\n"@;
        let rest = yaml + "---\n"@;
        reveal_strlit("---\n");
        assert("---\n"@ + yaml + "---\n"@ =~= head + rest);
        crate::text::lemma_utf8_concat(head, rest);
        vstd::utf8::is_ascii_chars_encode_utf8(head);
        assert(utf8(head) =~= seq![45u8, 45u8, 45u8, 10u8]);
        assert(out =~= utf8(head) + utf8(rest) + body);
        assert(out.take(4) =~= seq![45u8, 45u8, 45u8, 10u8]);
        assert(out.skip(out.len() - body.len()) =~= body);
    }
}

/// A line ends behind its start and inside the file.
pub proof fn lemma_line_end(bytes: Seq<u8>, from: int)
    requires
        0 <= from,
    ensures
        line_end_from(bytes, from) is Some ==> from
            < line_end_from(bytes, from)->Some_0 <= bytes.len(),
        from >= bytes.len() ==> line_end_from(bytes, from) is None,
    decreases bytes.len() - from,
{
    if from < bytes.len() && bytes[from] != 10 {
        lemma_line_end(bytes, from + 1);
    }
}

/// A line that ends is not moved by what is appended.
pub proof fn lemma_line_end_extends(bytes: Seq<u8>, tail: Seq<u8>, from: int)
    requires
        0 <= from,
        line_end_from(bytes, from) is Some,
    ensures
        line_end_from(bytes + tail, from) == line_end_from(
            bytes,
            from,
        ),
    decreases bytes.len() - from,
{
    assert((bytes + tail)[from] == bytes[from]);
    if bytes[from] != 10 {
        lemma_line_end_extends(bytes, tail, from + 1);
    }
}

/// A line ends at the first line end.
pub proof fn lemma_last_line(bytes: Seq<u8>, from: int, end: int)
    requires
        0 <= from <= end < bytes.len(),
        bytes[end] == 10,
        forall|i: int| from <= i < end ==> bytes[i] != 10,
    ensures
        line_end_from(bytes, from) == Some(end + 1),
    decreases end - from,
{
    if from < end {
        lemma_last_line(bytes, from + 1, end);
    }
}

/// A file without a line end has no complete line.
pub proof fn lemma_no_line(bytes: Seq<u8>, from: int)
    requires
        0 <= from,
        forall|i: int| from <= i < bytes.len() ==> bytes[i] != 10,
    ensures
        line_end_from(bytes, from) is None,
    decreases bytes.len() - from,
{
    if from < bytes.len() {
        lemma_no_line(bytes, from + 1);
    }
}

} // verus!
