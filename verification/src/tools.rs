//! The tool table, tool requests and the store of tool results.
use vstd::prelude::*;
use vstd::string::StringExecFns;
use crate::hash::{digest_text, sha256_bytes};
use crate::paths::{components_plain, copy_bytes, is_absolute, is_absolute_path, plain_components};
use crate::records::pairs;
use crate::text::{concat2, concat3, contains_part, decimal, has_part, lossy, lossy_text, size_text, split_lines, str_eq, text_lines, texts};

verus! {

/// A tool that a role may use.
#[derive(Clone, Copy, Debug, PartialEq, Eq, Structural)]
pub enum Tool {
    /// Reads a file of the workspace.
    ReadFile,
    /// Searches the workspace.
    SearchFiles,
    /// Writes a candidate file.
    EditCandidate,
    /// Shows changes.
    Diff,
    /// Imports a file.
    Import,
    /// Asks version control.
    Git,
    /// Runs a command.
    Shell,
    /// Fetches a web page.
    Web,
    /// Starts another agent.
    Subagent,
}

/// All tools in their fixed order.
pub open spec fn all_tools() -> Seq<Tool> {
    seq![
        Tool::ReadFile,
        Tool::SearchFiles,
        Tool::EditCandidate,
        Tool::Diff,
        Tool::Import,
        Tool::Git,
        Tool::Shell,
        Tool::Web,
        Tool::Subagent,
    ]
}

/// The tools of critics: they change nothing.
pub open spec fn critic_tools() -> Seq<Tool> {
    seq![Tool::ReadFile, Tool::SearchFiles, Tool::Diff, Tool::Import, Tool::Git, Tool::Web]
}

/// The tools of a role.
pub open spec fn role_tools(role: AgentRole) -> Seq<Tool> {
    match role {
        AgentRole::ConsistencyCritic => critic_tools(),
        AgentRole::StyleCritic => critic_tools(),
        AgentRole::FactCritic => critic_tools(),
        AgentRole::Author => all_tools(),
        AgentRole::Coordinator => all_tools(),
    }
}

/// The stable name of a tool.
pub open spec fn tool_name(tool: Tool) -> Seq<char> {
    match tool {
        Tool::ReadFile => "read_file"@,
        Tool::SearchFiles => "search_files"@,
        Tool::EditCandidate => "edit_candidate"@,
        Tool::Diff => "diff"@,
        Tool::Import => "import"@,
        Tool::Git => "git"@,
        Tool::Shell => "shell"@,
        Tool::Web => "web"@,
        Tool::Subagent => "subagent"@,
    }
}

impl Tool {
    /// Returns all tools in their fixed order.
    pub fn all() -> (r: Vec<Tool>)
        ensures
            r@ == all_tools(),
    {
        let r = vec![
            Tool::ReadFile,
            Tool::SearchFiles,
            Tool::EditCandidate,
            Tool::Diff,
            Tool::Import,
            Tool::Git,
            Tool::Shell,
            Tool::Web,
            Tool::Subagent,
        ];
        assert(r@ =~= all_tools());
        r
    }

    /// Returns the stable name of the tool.
    pub fn name(&self) -> (r: &'static str)
        ensures
            r@ == tool_name(*self),
    {
        match self {
            Tool::ReadFile => "read_file",
            Tool::SearchFiles => "search_files",
            Tool::EditCandidate => "edit_candidate",
            Tool::Diff => "diff",
            Tool::Import => "import",
            Tool::Git => "git",
            Tool::Shell => "shell",
            Tool::Web => "web",
            Tool::Subagent => "subagent",
        }
    }

    /// Returns the tools of a role.
    pub fn for_role(role: AgentRole) -> (r: Vec<Tool>)
        ensures
            r@ == role_tools(role),
    {
        match role {
            AgentRole::Author | AgentRole::Coordinator => Tool::all(),
            _ => {
                let r = vec![
                    Tool::ReadFile,
                    Tool::SearchFiles,
                    Tool::Diff,
                    Tool::Import,
                    Tool::Git,
                    Tool::Web,
                ];
                assert(r@ =~= critic_tools());
                r
            },
        }
    }
}

/// A class of agents with the same tools.
#[derive(Clone, Copy, Debug, PartialEq, Eq, Structural)]
pub enum AgentRole {
    /// Writes candidates.
    Author,
    /// Checks consistency.
    ConsistencyCritic,
    /// Checks style.
    StyleCritic,
    /// Checks facts.
    FactCritic,
    /// Coordinates.
    Coordinator,
}

/// Critics have no tool that writes, runs commands or starts agents.
pub proof fn critics_cannot_change_anything(role: AgentRole)
    requires
        role == AgentRole::ConsistencyCritic || role == AgentRole::StyleCritic || role
            == AgentRole::FactCritic,
    ensures
        !role_tools(role).contains(Tool::EditCandidate),
        !role_tools(role).contains(Tool::Shell),
        !role_tools(role).contains(Tool::Subagent),
{
    let list = critic_tools();
    assert(list.len() == 6);
    assert forall|i: int| 0 <= i < list.len() implies list[i] != Tool::EditCandidate && list[i]
        != Tool::Shell && list[i] != Tool::Subagent by {
        assert(list[0] == Tool::ReadFile && list[1] == Tool::SearchFiles && list[2] == Tool::Diff
            && list[3] == Tool::Import && list[4] == Tool::Git && list[5] == Tool::Web);
    }
}

/// A request to a tool.
#[derive(Debug, PartialEq, Eq)]
pub enum ToolRequest {
    ReadFile { path: String },
    SearchFiles { query: String },
    EditCandidate { path: String, contents: Vec<u8> },
    Diff,
    Import { path: String },
    Git { query: GitQuery },
}

impl ToolRequest {
    /// Returns the tool that the request is for.
    pub fn tool(&self) -> (r: Tool)
        ensures
            r == (match self {
                ToolRequest::ReadFile { .. } => Tool::ReadFile,
                ToolRequest::SearchFiles { .. } => Tool::SearchFiles,
                ToolRequest::EditCandidate { .. } => Tool::EditCandidate,
                ToolRequest::Diff => Tool::Diff,
                ToolRequest::Import { .. } => Tool::Import,
                ToolRequest::Git { .. } => Tool::Git,
            }),
    {
        match self {
            ToolRequest::ReadFile { .. } => Tool::ReadFile,
            ToolRequest::SearchFiles { .. } => Tool::SearchFiles,
            ToolRequest::EditCandidate { .. } => Tool::EditCandidate,
            ToolRequest::Diff => Tool::Diff,
            ToolRequest::Import { .. } => Tool::Import,
            ToolRequest::Git { .. } => Tool::Git,
        }
    }
}

/// A question to version control.
#[derive(Clone, Copy, Debug, PartialEq, Eq, Structural)]
pub enum GitQuery {
    /// Changed files.
    Status,
    /// Changed lines.
    Diff,
}

/// The arguments of a read-only question to version control.
pub open spec fn query_arguments(query: GitQuery) -> Seq<Seq<char>> {
    match query {
        GitQuery::Status => seq!["status"@, "--short"@],
        GitQuery::Diff => seq!["diff"@, "--no-ext-diff"@],
    }
}

/// Returns the arguments of a read-only question to version control.
pub fn git_arguments(query: GitQuery) -> (r: Vec<String>)
    ensures
        texts(r@) == query_arguments(query),
{
    let r = match query {
        GitQuery::Status => vec!["status".to_owned(), "--short".to_owned()],
        GitQuery::Diff => vec!["diff".to_owned(), "--no-ext-diff".to_owned()],
    };
    assert(texts(r@) =~= query_arguments(query));
    r
}

/// The environment of version control: nothing is inherited.
pub open spec fn query_environment() -> Seq<(Seq<char>, Seq<char>)> {
    seq![("PATH"@, "/usr/bin:/bin"@), ("LC_ALL"@, "C"@)]
}

/// Returns the whole environment of version control.
pub fn git_environment() -> (r: Vec<(String, String)>)
    ensures
        pairs(r@) == query_environment(),
{
    let mut out: Vec<(String, String)> = Vec::new();
    out.push(("PATH".to_owned(), "/usr/bin:/bin".to_owned()));
    out.push(("LC_ALL".to_owned(), "C".to_owned()));
    assert(pairs(out@) =~= query_environment());
    out
}

/// What a tool gave back: the digest and size of the whole result and its visible part.
#[derive(Debug, PartialEq, Eq)]
pub struct ToolResult {
    /// Digest of the result.
    pub sha256: String,
    /// Size of the result.
    pub total_bytes: u64,
    /// Visible part.
    pub visible: String,
    /// Whether something is not visible.
    pub truncated: bool,
}

/// Bytes of a result that are visible at most.
pub const VISIBLE_LIMIT: usize = 40_000;

/// Bytes of a result at most.
pub const MAX_RESULT_BYTES: u64 = 104_857_600;

/// Bytes of all results of a session at most.
pub const MAX_SESSION_BYTES: u64 = 2_147_483_648;

/// Calls of a session at most.
pub const MAX_CALLS: u64 = 64;

struct Artifact {
    sha256: String,
    bytes: Vec<u8>,
    references: u64,
}

/// A stored result: digest, content and number of holders.
pub type ArtifactModel = (Seq<char>, Seq<u8>, u64);

/// The calls and results of a tool session.
pub struct ToolExecutor {
    artifacts: Vec<Artifact>,
    accounted_bytes: u64,
    calls: u64,
}

/// A tool session by the views of its fields.
pub struct ToolModel {
    pub artifacts: Seq<ArtifactModel>,
    pub accounted_bytes: u64,
    pub calls: u64,
}

impl View for ToolExecutor {
    type V = ToolModel;

    closed spec fn view(&self) -> ToolModel {
        ToolModel {
            artifacts: self.artifacts@.map_values(
                |a: Artifact| (a.sha256@, a.bytes@, a.references),
            ),
            accounted_bytes: self.accounted_bytes,
            calls: self.calls,
        }
    }
}

/// The first result at or after `i` with a digest.
pub open spec fn artifact_position(list: Seq<ArtifactModel>, sha256: Seq<char>, i: int) -> Option<
    int,
>
    decreases list.len() - i,
{
    if i < 0 || i >= list.len() {
        None
    } else if list[i].0 == sha256 {
        Some(i)
    } else {
        artifact_position(list, sha256, i + 1)
    }
}

/// The session after a call, or the message about too many calls.
pub open spec fn call_result(s: ToolModel) -> Result<ToolModel, Seq<char>> {
    if s.calls == u64::MAX {
        Err("tool call counter overflow"@)
    } else if s.calls + 1 > MAX_CALLS {
        Err("tool invocation exceeds 64 calls"@)
    } else {
        Ok(ToolModel { calls: (s.calls + 1) as u64, ..s })
    }
}

/// The session after a call that was refused: the call still counts.
pub open spec fn refused_call(s: ToolModel) -> ToolModel {
    if s.calls == u64::MAX {
        s
    } else {
        ToolModel { calls: (s.calls + 1) as u64, ..s }
    }
}

/// The session after a result that was refused: its bytes still count, unless it is too large by
/// itself.
pub open spec fn refused_store(s: ToolModel, bytes: Seq<u8>) -> ToolModel {
    if bytes.len() > MAX_RESULT_BYTES || s.accounted_bytes + bytes.len() > u64::MAX {
        s
    } else {
        ToolModel { accounted_bytes: (s.accounted_bytes + bytes.len()) as u64, ..s }
    }
}

/// The visible part of a result.
pub open spec fn visible_bytes(bytes: Seq<u8>) -> Seq<u8> {
    if bytes.len() <= VISIBLE_LIMIT {
        bytes
    } else {
        bytes.take(VISIBLE_LIMIT as int)
    }
}

/// The session after a result was stored, or the message about why it was not.
pub open spec fn store_result(s: ToolModel, bytes: Seq<u8>) -> Result<ToolModel, Seq<char>> {
    let digest = digest_text(bytes);
    if bytes.len() > MAX_RESULT_BYTES {
        Err("tool result exceeds 100 MiB"@)
    } else if s.accounted_bytes + bytes.len() > u64::MAX {
        Err("artifact byte counter overflow"@)
    } else if s.accounted_bytes + bytes.len() > MAX_SESSION_BYTES {
        Err("tool session exceeds 2 GiB"@)
    } else {
        Ok(
            ToolModel {
                artifacts: if artifact_position(s.artifacts, digest, 0) is Some {
                    s.artifacts
                } else {
                    s.artifacts.push((digest, bytes, 0u64))
                },
                accounted_bytes: (s.accounted_bytes + bytes.len()) as u64,
                ..s
            },
        )
    }
}

/// Whether a result says what was stored.
pub open spec fn describes(result: ToolResult, bytes: Seq<u8>) -> bool {
    &&& result.sha256@ == digest_text(bytes)
    &&& result.total_bytes == bytes.len()
    &&& result.visible@ == lossy(visible_bytes(bytes))
    &&& result.truncated == (bytes.len() > VISIBLE_LIMIT)
}

/// The range of a stored result, or the message about why there is none.
pub open spec fn range_result(s: ToolModel, sha256: Seq<char>, start: u64, end: u64) -> Result<
    Seq<u8>,
    Seq<char>,
> {
    match artifact_position(s.artifacts, sha256, 0) {
        None => Err("unknown artifact"@),
        Some(i) => if start <= end && end <= s.artifacts[i].1.len() {
            Ok(s.artifacts[i].1.subrange(start as int, end as int))
        } else {
            Err("invalid artifact range"@)
        },
    }
}

fn describe(bytes: &[u8]) -> (r: ToolResult)
    ensures
        describes(r, bytes@),
{
    let n: usize = bytes.len();
    let visible = if n <= VISIBLE_LIMIT {
        lossy_text(bytes)
    } else {
        let head = vstd::slice::slice_subrange(bytes, 0, VISIBLE_LIMIT);
        assert(head@ =~= bytes@.take(VISIBLE_LIMIT as int));
        lossy_text(head)
    };
    ToolResult {
        sha256: sha256_bytes(bytes),
        total_bytes: n as u64,
        visible,
        truncated: n > VISIBLE_LIMIT,
    }
}

impl ToolExecutor {
    /// Starts a session.
    pub fn new() -> (r: ToolExecutor)
        ensures
            r@.artifacts.len() == 0,
            r@.accounted_bytes == 0,
            r@.calls == 0,
    {
        ToolExecutor { artifacts: Vec::new(), accounted_bytes: 0, calls: 0 }
    }

    fn find(&self, sha256: &str) -> (r: Option<usize>)
        ensures
            match r {
                Some(i) => i < self.artifacts@.len() && artifact_position(
                    self@.artifacts,
                    sha256@,
                    0,
                ) == Some(i as int),
                None => artifact_position(self@.artifacts, sha256@, 0) is None,
            },
    {
        let ghost all = self@.artifacts;
        let mut i: usize = 0;
        while i < self.artifacts.len()
            invariant
                i <= self.artifacts@.len(),
                all == self@.artifacts,
                artifact_position(all, sha256@, 0) == artifact_position(all, sha256@, i as int),
            decreases self.artifacts@.len() - i,
        {
            assert(all[i as int].0 == self.artifacts@[i as int].sha256@);
            if str_eq(self.artifacts[i].sha256.as_str(), sha256) {
                return Some(i);
            }
            i += 1;
        }
        None
    }

    /// Counts a call; a session has at most 64.
    pub fn begin_call(&mut self) -> (r: Result<(), String>)
        ensures
            match r {
                Ok(()) => call_result(old(self)@) == Ok::<ToolModel, Seq<char>>(final(self)@),
                Err(message) => call_result(old(self)@) == Err::<ToolModel, Seq<char>>(message@)
                    && final(self)@ == refused_call(old(self)@),
            },
    {
        if self.calls == u64::MAX {
            return Err("tool call counter overflow".to_owned());
        }
        self.calls = self.calls + 1;
        if self.calls > MAX_CALLS {
            return Err("tool invocation exceeds 64 calls".to_owned());
        }
        Ok(())
    }

    /// Stores the result of a call and describes it.
    pub fn store(&mut self, bytes: Vec<u8>) -> (r: Result<ToolResult, String>)
        ensures
            match r {
                Ok(result) => store_result(old(self)@, bytes@) == Ok::<ToolModel, Seq<char>>(
                    final(self)@,
                ) && describes(result, bytes@),
                Err(message) => store_result(old(self)@, bytes@) == Err::<ToolModel, Seq<char>>(
                    message@,
                ) && final(self)@ == refused_store(old(self)@, bytes@),
            },
    {
        let length: u64 = bytes.len() as u64;
        if length > MAX_RESULT_BYTES {
            return Err("tool result exceeds 100 MiB".to_owned());
        }
        if self.accounted_bytes > u64::MAX - length {
            return Err("artifact byte counter overflow".to_owned());
        }
        self.accounted_bytes = self.accounted_bytes + length;
        if self.accounted_bytes > MAX_SESSION_BYTES {
            return Err("tool session exceeds 2 GiB".to_owned());
        }
        let result = describe(bytes.as_slice());
        if self.find(result.sha256.as_str()).is_none() {
            let ghost before = self@.artifacts;
            let sha256 = result.sha256.clone();
            self.artifacts.push(Artifact { sha256, bytes, references: 0 });
            assert(self@.artifacts =~= before.push((digest_text(bytes@), bytes@, 0u64)));
        }
        Ok(result)
    }

    /// Reads a range of a stored result, which counts as a call and as a result of its own.
    pub fn read_artifact_range(&mut self, sha256: &str, start: u64, end: u64) -> (r: Result<
        ToolResult,
        String,
    >)
        ensures
            match call_result(old(self)@) {
                Err(message) => r is Err && r->Err_0@ == message && final(self)@ == refused_call(
                    old(self)@,
                ),
                Ok(counted) => match range_result(counted, sha256@, start, end) {
                    Err(message) => r is Err && r->Err_0@ == message && final(self)@ == counted,
                    Ok(range) => match r {
                        Ok(result) => store_result(counted, range) == Ok::<ToolModel, Seq<char>>(
                            final(self)@,
                        ) && describes(result, range),
                        Err(message) => store_result(counted, range) == Err::<
                            ToolModel,
                            Seq<char>,
                        >(message@) && final(self)@ == refused_store(counted, range),
                    },
                },
            },
    {
        match self.begin_call() {
            Err(message) => {
                return Err(message);
            },
            Ok(()) => {},
        }
        match self.find(sha256) {
            None => Err("unknown artifact".to_owned()),
            Some(i) => {
                let bytes = self.artifacts[i].bytes.as_slice();
                assert(self@.artifacts[i as int].1 == bytes@);
                if !(start <= end && end <= bytes.len() as u64) {
                    return Err("invalid artifact range".to_owned());
                }
                let range = copy_bytes(
                    vstd::slice::slice_subrange(bytes, start as usize, end as usize),
                );
                self.store(range)
            },
        }
    }

    /// Adds a holder of a stored result.
    pub fn protect_artifact(&mut self, sha256: &str) -> (r: Result<(), String>)
        ensures
            match artifact_position(old(self)@.artifacts, sha256@, 0) {
                None => r is Err && r->Err_0@ == "unknown artifact"@ && final(self)@ == old(self)@,
                Some(i) => {
                    let a = old(self)@.artifacts[i];
                    if a.2 == u64::MAX {
                        r is Err && r->Err_0@ == "artifact reference overflow"@ && final(self)@
                            == old(self)@
                    } else {
                        r is Ok && final(self)@ == (ToolModel {
                            artifacts: old(self)@.artifacts.update(
                                i,
                                (a.0, a.1, (a.2 + 1) as u64),
                            ),
                            ..old(self)@
                        })
                    }
                },
            },
    {
        match self.find(sha256) {
            None => Err("unknown artifact".to_owned()),
            Some(i) => {
                let ghost before = self@.artifacts;
                let count: u64 = self.artifacts[i].references;
                assert(before[i as int].2 == count);
                if count == u64::MAX {
                    return Err("artifact reference overflow".to_owned());
                }
                let artifact = &mut self.artifacts[i];
                artifact.references = count + 1;
                assert(self@.artifacts =~= before.update(
                    i as int,
                    (before[i as int].0, before[i as int].1, (count + 1) as u64),
                ));
                Ok(())
            },
        }
    }

    /// Removes a holder of a stored result.
    pub fn release_artifact(&mut self, sha256: &str) -> (r: Result<(), String>)
        ensures
            match artifact_position(old(self)@.artifacts, sha256@, 0) {
                None => r is Err && r->Err_0@ == "unknown artifact"@ && final(self)@ == old(self)@,
                Some(i) => {
                    let a = old(self)@.artifacts[i];
                    if a.2 == 0 {
                        r is Err && r->Err_0@ == "artifact is not protected"@ && final(self)@
                            == old(self)@
                    } else {
                        r is Ok && final(self)@ == (ToolModel {
                            artifacts: old(self)@.artifacts.update(
                                i,
                                (a.0, a.1, (a.2 - 1) as u64),
                            ),
                            ..old(self)@
                        })
                    }
                },
            },
    {
        match self.find(sha256) {
            None => Err("unknown artifact".to_owned()),
            Some(i) => {
                let ghost before = self@.artifacts;
                let count: u64 = self.artifacts[i].references;
                assert(before[i as int].2 == count);
                if count == 0 {
                    return Err("artifact is not protected".to_owned());
                }
                let artifact = &mut self.artifacts[i];
                artifact.references = count - 1;
                assert(self@.artifacts =~= before.update(
                    i as int,
                    (before[i as int].0, before[i as int].1, (count - 1) as u64),
                ));
                Ok(())
            },
        }
    }
}

/// The message about a path that a tool must not touch, where there is one.
pub open spec fn tool_path_error(path: Seq<char>) -> Option<Seq<char>> {
    if is_absolute_path(path) {
        Some("tool paths must be relative"@)
    } else if path.len() == 0 {
        Some("tool path must not be empty"@)
    } else if !components_plain(path, ".git"@) {
        Some("unsafe tool path: "@ + path)
    } else {
        None
    }
}

/// Accepts a relative path whose components are file names, none of them `.git`.
pub fn validate_relative(path: &str) -> (r: Result<(), String>)
    ensures
        tool_path_error(path@) == (match r {
            Ok(()) => None,
            Err(message) => Some(message@),
        }),
{
    if is_absolute(path) {
        return Err("tool paths must be relative".to_owned());
    }
    if path.is_empty() {
        return Err("tool path must not be empty".to_owned());
    }
    if !plain_components(path, ".git") {
        return Err(concat2("unsafe tool path: ", path));
    }
    Ok(())
}

/// Accepts the content of a candidate file up to 100 MiB.
pub fn validate_candidate_content(contents: &[u8]) -> (r: Result<(), String>)
    ensures
        r is Ok == (contents@.len() <= MAX_RESULT_BYTES),
        r is Err ==> r->Err_0@ == "candidate content exceeds 100 MiB"@,
{
    if contents.len() as u64 <= MAX_RESULT_BYTES {
        Ok(())
    } else {
        Err("candidate content exceeds 100 MiB".to_owned())
    }
}

/// The lines of a file from `i` on that hold a query, each with its path and number.
pub open spec fn matching_lines(
    path: Seq<char>,
    lines: Seq<Seq<char>>,
    query: Seq<char>,
    i: int,
) -> Seq<Seq<char>>
    decreases lines.len() - i,
{
    if i < 0 || i >= lines.len() {
        Seq::empty()
    } else if has_part(lines[i], query) {
        seq![path + ":"@ + decimal((i + 1) as nat) + ":"@ + lines[i]] + matching_lines(
            path,
            lines,
            query,
            i + 1,
        )
    } else {
        matching_lines(path, lines, query, i + 1)
    }
}

/// Returns the lines of a file that hold a query, each with its path and number.
pub fn search_text(path: &str, text: &str, query: &str) -> (r: Vec<String>)
    ensures
        texts(r@) == matching_lines(path@, text_lines(text@), query@, 0),
{
    let lines = split_lines(text);
    let ghost all = text_lines(text@);
    let mut out: Vec<String> = Vec::new();
    let mut i: usize = 0;
    assert(texts(out@) + matching_lines(path@, all, query@, 0) =~= matching_lines(
        path@,
        all,
        query@,
        0,
    ));
    while i < lines.len()
        invariant
            i <= lines@.len(),
            all == texts(lines@),
            texts(out@) + matching_lines(path@, all, query@, i as int) == matching_lines(
                path@,
                all,
                query@,
                0,
            ),
        decreases lines@.len() - i,
    {
        let line = lines[i].as_str();
        assert(all[i as int] == line@);
        if contains_part(line, query) {
            let mut text = concat3(path, ":", size_text(i + 1).as_str());
            text.append(":");
            text.append(line);
            let ghost before = texts(out@);
            let ghost item = text@;
            out.push(text);
            assert(texts(out@) =~= before.push(item));
            assert(before + (seq![item] + matching_lines(path@, all, query@, i + 1))
                =~= before.push(item) + matching_lines(path@, all, query@, i + 1));
        }
        i += 1;
    }
    assert(texts(out@) =~= matching_lines(path@, all, query@, 0));
    out
}

/// A session never counts more than 64 calls or 2 GiB of results.
pub proof fn session_stays_within_limits(s: ToolModel, bytes: Seq<u8>)
    ensures
        call_result(s) is Ok ==> call_result(s)->Ok_0.calls <= MAX_CALLS,
        store_result(s, bytes) is Ok ==> store_result(s, bytes)->Ok_0.accounted_bytes
            <= MAX_SESSION_BYTES,
{
}

/// No tool approves anything.
pub proof fn approval_is_no_tool(tool: Tool)
    ensures
        tool_name(tool) != "approve"@,
{
    reveal_strlit("approve");
    reveal_strlit("read_file");
    reveal_strlit("search_files");
    reveal_strlit("edit_candidate");
    reveal_strlit("diff");
    reveal_strlit("import");
    reveal_strlit("git");
    reveal_strlit("shell");
    reveal_strlit("web");
    reveal_strlit("subagent");
    assert("approve"@.len() == 7 && "approve"@[0] == 'a');
    assert(tool_name(tool).len() != 7);
}

} // verus!
