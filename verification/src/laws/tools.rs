//! What agents may do, and what programs that they start may do.
use vstd::prelude::*;
use crate::hash::digest_text;
use crate::laws::pipeline::lemma_found;
use crate::sandbox::{candidates, default_request, over_limit, profile_text, shell_plan, ApprovalMode, Captured, SandboxMode, ShellFacts, ShellModel};
use crate::text::{decimal, has_part, has_prefix, has_suffix, split, texts};
use crate::tools::{artifact_position, call_result, matching_lines, query_arguments, range_result, role_tools, store_result, tool_path_error, visible_bytes, AgentRole, GitQuery, Tool, ToolModel};
use crate::tools::{describes, query_environment, refused_call, refused_store, ToolResult};

verus! {

/// An author and the coordinator have every tool. A critic has those that read and no other.
pub proof fn critics_read_and_authors_do_all(role: AgentRole, tool: Tool)
    ensures
        role == AgentRole::Author || role == AgentRole::Coordinator ==> role_tools(role).contains(
            tool,
        ),
        role == AgentRole::ConsistencyCritic || role == AgentRole::StyleCritic || role
            == AgentRole::FactCritic ==> (role_tools(role).contains(tool) <==> (tool
            == Tool::ReadFile || tool == Tool::SearchFiles || tool == Tool::Diff || tool
            == Tool::Import || tool == Tool::Git || tool == Tool::Web)),
{
    let list = role_tools(role);
    if role == AgentRole::Author || role == AgentRole::Coordinator {
        assert(list[0] == Tool::ReadFile && list[1] == Tool::SearchFiles && list[2]
            == Tool::EditCandidate && list[3] == Tool::Diff && list[4] == Tool::Import && list[5]
            == Tool::Git && list[6] == Tool::Shell && list[7] == Tool::Web && list[8]
            == Tool::Subagent);
    } else {
        assert(list[0] == Tool::ReadFile && list[1] == Tool::SearchFiles && list[2] == Tool::Diff
            && list[3] == Tool::Import && list[4] == Tool::Git && list[5] == Tool::Web);
        assert(list.len() == 6);
    }
}

/// Git is asked for what changed and for nothing that changes anything.
pub proof fn git_is_only_read(query: GitQuery)
    ensures
        query_arguments(query) == seq!["status"@, "--short"@] || query_arguments(query) == seq![
            "diff"@,
            "--no-ext-diff"@,
        ],
        query == GitQuery::Status ==> query_arguments(query)[0] == "status"@,
        query == GitQuery::Diff ==> query_arguments(query)[0] == "diff"@,
{
}

/// A session makes at most 64 calls: the next one is counted, and the one behind the last refused.
pub proof fn sessions_make_sixty_four_calls(s: ToolModel)
    ensures
        call_result(s) is Ok <==> s.calls < 64,
        call_result(s) matches Ok(next) ==> next.calls == s.calls + 1 && next.artifacts
            == s.artifacts && next.accounted_bytes == s.accounted_bytes,
{
}

proof fn lemma_absent(list: Seq<(Seq<char>, Seq<u8>, u64)>, more: (Seq<char>, Seq<u8>, u64), i: int)
    requires
        0 <= i <= list.len(),
        artifact_position(list, more.0, i) is None,
    ensures
        artifact_position(list.push(more), more.0, i) == Some(list.len() as int),
    decreases list.len() - i,
{
    if i < list.len() {
        assert(list.push(more)[i] == list[i]);
        lemma_absent(list, more, i + 1);
    }
}

/// A result that was stored is read back, in whole and in part. One of more than 100 MiB, or one
/// that takes a session beyond 2 GiB, is not stored.
pub proof fn stored_result_is_read_back(s: ToolModel, bytes: Seq<u8>, start: u64, end: u64)
    requires
        artifact_position(s.artifacts, digest_text(bytes), 0) is None,
    ensures
        store_result(s, bytes) is Ok <==> bytes.len() <= 104_857_600 && s.accounted_bytes
            + bytes.len() <= 2_147_483_648,
        store_result(s, bytes) matches Ok(next) ==> {
            &&& range_result(next, digest_text(bytes), 0, bytes.len() as u64) == Ok::<
                Seq<u8>,
                Seq<char>,
            >(bytes)
            &&& start <= end <= bytes.len() ==> range_result(next, digest_text(bytes), start, end)
                == Ok::<Seq<u8>, Seq<char>>(bytes.subrange(start as int, end as int))
            &&& start > end || end > bytes.len() ==> range_result(
                next,
                digest_text(bytes),
                start,
                end,
            ) is Err
            &&& next.accounted_bytes == s.accounted_bytes + bytes.len()
            &&& next.calls == s.calls
        },
{
    let more = (digest_text(bytes), bytes, 0u64);
    lemma_absent(s.artifacts, more, 0);
    assert(bytes.subrange(0, bytes.len() as int) =~= bytes);
    if let Ok(next) = store_result(s, bytes) {
        assert(next.artifacts[s.artifacts.len() as int] == more);
    }
}

/// What is shown of a result is its beginning: all of it up to 40,000 bytes, and no more than that.
pub proof fn shown_result_is_its_beginning(bytes: Seq<u8>)
    ensures
        visible_bytes(bytes).len() <= 40_000,
        bytes.take(visible_bytes(bytes).len() as int) == visible_bytes(bytes),
        bytes.len() <= 40_000 ==> visible_bytes(bytes) == bytes,
        bytes.len() > 40_000 ==> visible_bytes(bytes).len() == 40_000,
{
    assert(bytes.take(bytes.len() as int) =~= bytes);
}

/// A tool takes no path that is empty or absolute, climbs out of the project or goes into `.git`.
pub proof fn tool_paths_stay_in_the_project(path: Seq<char>, i: int)
    requires
        0 <= i < split(path, '/').len(),
    ensures
        path.len() == 0 ==> tool_path_error(path) is Some,
        path.len() > 0 && path[0] == '/' ==> tool_path_error(path) is Some,
        split(path, '/')[i] == ".."@ ==> tool_path_error(path) is Some,
        split(path, '/')[i] == ".git"@ ==> tool_path_error(path) is Some,
{
    reveal_strlit("..");
    reveal_strlit(".");
    reveal_strlit(".git");
    let piece = split(path, '/')[i];
    if piece == ".."@ {
        assert(piece.len() == 2);
        assert(!crate::paths::is_skipped_piece(piece, i));
    }
    if piece == ".git"@ {
        assert(piece.len() == 4);
        assert(!crate::paths::is_skipped_piece(piece, i));
    }
}

/// A search names every line with the text that is looked for, by its path and number, and no other.
pub proof fn search_finds_every_line(
    path: Seq<char>,
    lines: Seq<Seq<char>>,
    query: Seq<char>,
    from: int,
    k: int,
)
    requires
        0 <= from <= k < lines.len(),
    ensures
        has_part(lines[k], query) ==> matching_lines(path, lines, query, from).contains(
            path + ":"@ + decimal((k + 1) as nat) + ":"@ + lines[k],
        ),
    decreases k - from,
{
    let all = matching_lines(path, lines, query, from);
    let rest = matching_lines(path, lines, query, from + 1);
    let wanted = path + ":"@ + decimal((k + 1) as nat) + ":"@ + lines[k];
    if has_part(lines[k], query) {
        if from == k {
            assert(all[0] == wanted);
        } else {
            search_finds_every_line(path, lines, query, from + 1, k);
            let p = choose|p: int| 0 <= p < rest.len() && rest[p] == wanted;
            if has_part(lines[from], query) {
                assert(all[p + 1] == wanted);
            } else {
                assert(all[p] == wanted);
            }
        }
    }
}

/// What a search names has the text that is looked for.
pub proof fn search_finds_nothing_else(
    path: Seq<char>,
    lines: Seq<Seq<char>>,
    query: Seq<char>,
    from: int,
    p: int,
)
    requires
        0 <= from <= lines.len(),
        0 <= p < matching_lines(path, lines, query, from).len(),
    ensures
        exists|k: int|
            from <= k < lines.len() && has_part(#[trigger] lines[k], query) && matching_lines(
                path,
                lines,
                query,
                from,
            )[p] == path + ":"@ + decimal((k + 1) as nat) + ":"@ + lines[k],
    decreases lines.len() - from,
{
    if from < lines.len() {
        if has_part(lines[from], query) {
            if p > 0 {
                search_finds_nothing_else(path, lines, query, from + 1, p - 1);
            }
        } else {
            search_finds_nothing_else(path, lines, query, from + 1, p);
        }
    }
}

proof fn lemma_profile_head() -> (r: Seq<char>)
    ensures
        "(version 1) (deny default) (import \"system.sb\") (allow process*) (allow process-exec) (allow file-read* (subpath \"/usr\") (subpath \"/bin\") (subpath \"/sbin\") (subpath \"/System\") (subpath \""@
            == "(version 1) (deny default) "@ + r,
{
    reveal_strlit(
        "(version 1) (deny default) (import \"system.sb\") (allow process*) (allow process-exec) (allow file-read* (subpath \"/usr\") (subpath \"/bin\") (subpath \"/sbin\") (subpath \"/System\") (subpath \"",
    );
    reveal_strlit("(version 1) (deny default) ");
    let head =
        "(version 1) (deny default) (import \"system.sb\") (allow process*) (allow process-exec) (allow file-read* (subpath \"/usr\") (subpath \"/bin\") (subpath \"/sbin\") (subpath \"/System\") (subpath \""@;
    let r = head.skip("(version 1) (deny default) "@.len() as int);
    assert(head =~= "(version 1) (deny default) "@ + r);
    r
}

proof fn lemma_profile_rest()
    ensures
        "\")) (allow file-write* (subpath \""@ == "\")) "@ + "(allow file-write* (subpath \""@,
        "\")) (deny file-write* (subpath \""@ == "\"))"@ + " "@ + "(deny file-write* (subpath \""@,
        "/.git\")) (deny network*)"@ == "/.git\"))"@ + " (deny network*)"@,
{
    reveal_strlit("\")) (allow file-write* (subpath \"");
    reveal_strlit("\")) ");
    reveal_strlit("\"))");
    reveal_strlit(" ");
    reveal_strlit("(allow file-write* (subpath \"");
    reveal_strlit("\")) (deny file-write* (subpath \"");
    reveal_strlit("(deny file-write* (subpath \"");
    reveal_strlit("/.git\")) (deny network*)");
    reveal_strlit("/.git\"))");
    reveal_strlit(" (deny network*)");
    assert("\")) (allow file-write* (subpath \""@ =~= "\")) "@ + "(allow file-write* (subpath \""@);
    assert("\")) (deny file-write* (subpath \""@ =~= "\"))"@ + " "@
        + "(deny file-write* (subpath \""@);
    assert("/.git\")) (deny network*)"@ =~= "/.git\"))"@ + " (deny network*)"@);
}

/// A confined program may do nothing by default; it may write inside its workspace, but not into
/// the repository there, and it has no network.
pub proof fn confined_program_stays_in_its_workspace(workspace: Seq<char>)
    ensures
        has_prefix(profile_text(workspace), "(version 1) (deny default) "@),
        has_part(
            profile_text(workspace),
            "(allow file-write* (subpath \""@ + workspace + "\"))"@,
        ),
        has_part(
            profile_text(workspace),
            "(deny file-write* (subpath \""@ + workspace + "/.git\"))"@,
        ),
        has_suffix(profile_text(workspace), " (deny network*)"@),
{
    let text = profile_text(workspace);
    let rest = lemma_profile_head();
    lemma_profile_rest();
    let head = "(version 1) (deny default) "@;
    let allow = "(allow file-write* (subpath \""@ + workspace + "\"))"@;
    let deny = "(deny file-write* (subpath \""@ + workspace + "/.git\"))"@;
    let last = " (deny network*)"@;
    let a = head + rest + workspace + "\")) "@;
    assert(text =~= a + allow + (" "@ + deny + last));
    lemma_found(a, allow, " "@ + deny + last);
    assert(text =~= (a + allow + " "@) + deny + last);
    lemma_found(a + allow + " "@, deny, last);
    assert(text.take(head.len() as int) =~= head);
    assert(text.skip(text.len() - last.len()) =~= last);
}

/// What runs is the program that was resolved, with the arguments that were asked for, behind the
/// program that confines it where it is confined; it runs in the workspace, within the limits that
/// were asked for, and in an environment of three variables.
pub proof fn plan_runs_what_was_asked(request: ShellModel, facts: ShellFacts)
    requires
        shell_plan(request, facts) is Ok,
    ensures
        ({
            let plan = shell_plan(request, facts)->Ok_0;
            let own = match request.shell_command {
                Some(command) => seq!["-lc"@, command],
                None => request.arguments,
            };
            &&& request.sandbox == SandboxMode::Unrestricted ==> plan.program == facts.executable@
                && plan.arguments == own
            &&& request.sandbox == SandboxMode::Seatbelt ==> plan.program
                == "/usr/bin/sandbox-exec"@ && plan.arguments[0] == "-p"@ && plan.arguments[1]
                == profile_text(facts.workspace@) && plan.arguments[2] == facts.executable@
                && plan.arguments.skip(3) == own && !facts.workspace@.contains('"')
            &&& plan.workspace == facts.workspace@
            &&& plan.time_limit_millis == request.time_limit_millis
            &&& plan.output_limit == request.output_limit
            &&& plan.environment == seq![
                ("PATH"@, "/usr/bin:/bin:/usr/sbin:/sbin"@),
                ("LC_ALL"@, "C"@),
                ("LANG"@, "C"@),
            ]
            &&& facts.workspace_is_directory && facts.executable_is_file
        }),
{
    let plan = shell_plan(request, facts)->Ok_0;
    if request.sandbox == SandboxMode::Seatbelt {
        let own = match request.shell_command {
            Some(command) => seq!["-lc"@, command],
            None => request.arguments,
        };
        assert(plan.arguments.skip(3) =~= own);
    }
}

/// A program runs exactly where the workspace and the program are there, it was agreed to, and it is
/// confined or trusted.
pub proof fn program_runs_only_by_agreement(request: ShellModel, facts: ShellFacts)
    ensures
        shell_plan(request, facts) is Ok <==> {
            &&& facts.workspace_is_directory && facts.executable_is_file
            &&& request.approval != ApprovalMode::Ask
            &&& request.approval == ApprovalMode::Allowlist ==> texts(facts.allowlist@).contains(
                facts.executable@,
            )
            &&& (request.sandbox == SandboxMode::Seatbelt && facts.seatbelt_available
                && !facts.workspace@.contains('"')) || (request.sandbox
                == SandboxMode::Unrestricted && request.trusted_unrestricted)
        },
{
}

/// A request that says nothing else is asked about, confined, and trusted with nothing.
pub proof fn request_is_careful_by_default(program: Seq<char>, facts: ShellFacts)
    ensures
        default_request(program).approval == ApprovalMode::Ask,
        default_request(program).sandbox == SandboxMode::Seatbelt,
        !default_request(program).trusted_unrestricted,
        default_request(program).program == program,
        shell_plan(default_request(program), facts) is Err,
{
}

/// A program is looked for under the path that is given, or, where only a name is given, in the
/// four directories of the system.
pub proof fn programs_come_from_system_directories(program: Seq<char>, i: int)
    requires
        0 <= i < candidates(program).len(),
    ensures
        candidates(program)[i] == program || candidates(program)[i] == "/usr/bin/"@ + program
            || candidates(program)[i] == "/bin/"@ + program || candidates(program)[i]
            == "/usr/sbin/"@ + program || candidates(program)[i] == "/sbin/"@ + program,
        program.len() > 0 && program[0] == '/' ==> candidates(program) == seq![program],
{
}

/// The output of a program is over its limit where both its streams together are longer.
pub proof fn both_streams_count(captured: Captured)
    ensures
        over_limit(captured) <==> captured.0.len() + captured.1.len() > captured.2,
        captured.0.len() > captured.2 ==> over_limit(captured),
        captured.1.len() > captured.2 ==> over_limit(captured),
{
}

/// What a tool is said to have returned is what it returned: its digest, its length, its beginning,
/// and whether that is all.
pub proof fn result_is_described_truly(result: ToolResult, bytes: Seq<u8>)
    requires
        describes(result, bytes),
    ensures
        result.sha256@ == digest_text(bytes),
        result.total_bytes == bytes.len(),
        result.truncated <==> bytes.len() > 40_000,
        bytes.len() <= 40_000 ==> result.visible@ == crate::text::lossy(bytes),
        bytes.len() > 40_000 ==> result.visible@ == crate::text::lossy(bytes.take(40_000)),
{
}

/// A call that is refused still counts, and so do the bytes of a result that a session has no room
/// for; what is kept does not change.
pub proof fn refused_work_counts(s: ToolModel, bytes: Seq<u8>)
    ensures
        s.calls < u64::MAX ==> refused_call(s).calls == s.calls + 1,
        refused_call(s).artifacts == s.artifacts,
        refused_store(s, bytes).artifacts == s.artifacts,
        refused_store(s, bytes).calls == s.calls,
        bytes.len() <= 104_857_600 && s.accounted_bytes + bytes.len() <= u64::MAX ==> refused_store(
            s,
            bytes,
        ).accounted_bytes == s.accounted_bytes + bytes.len(),
        bytes.len() > 104_857_600 ==> refused_store(s, bytes) == s,
{
}

/// Git is asked in an environment of two variables.
pub proof fn git_inherits_nothing()
    ensures
        query_environment() == seq![("PATH"@, "/usr/bin:/bin"@), ("LC_ALL"@, "C"@)],
{
}

} // verus!
