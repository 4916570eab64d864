//! What is read from the report of a critic.
use vstd::prelude::*;
use crate::findings::{evidence_error, findings_of, kind_of, length_error, line_finding, new_finding, parsed_size, report_findings, role_name, text_length, tool_role_of, AgentRole, FindingKind, FindingModel, LengthUnit};
use crate::laws::texts::{first_piece_is_split_off, splitting_is_undone_by_joining};
use crate::paths::{has_parent_component, is_absolute_path};
use crate::text::{has_prefix, is_blank, join, split, text_lines, utf8, words};

verus! {

proof fn lemma_five_pieces(
    k: Seq<char>,
    a: Seq<char>,
    s: Seq<char>,
    e: Seq<char>,
    message: Seq<char>,
)
    requires
        !k.contains('|') && !a.contains('|') && !s.contains('|') && !e.contains('|'),
    ensures
        ({
            let bar = seq!['|'];
            let parts = split(k + bar + a + bar + s + bar + e + bar + message, '|');
            &&& parts.len() >= 5
            &&& parts[0] == k && parts[1] == a && parts[2] == s && parts[3] == e
            &&& join(parts.skip(4), bar) == message
        }),
{
    let bar = seq!['|'];
    let r3 = e + bar + message;
    let r2 = s + bar + r3;
    let r1 = a + bar + r2;
    first_piece_is_split_off(e, '|', message);
    first_piece_is_split_off(s, '|', r3);
    first_piece_is_split_off(a, '|', r2);
    first_piece_is_split_off(k, '|', r1);
    splitting_is_undone_by_joining(message, '|');
    assert(k + bar + a + bar + s + bar + e + bar + message =~= k + bar + r1);
    let parts = split(k + bar + r1, '|');
    assert(parts =~= seq![k] + (seq![a] + (seq![s] + (seq![e] + split(message, '|')))));
    assert(parts.skip(4) =~= split(message, '|'));
}

/// A line that reports a finding is read as it is written: its kind, the artifact, the range and the
/// message, which may hold the separator itself, behind the name of the critic. The finding is open
/// and belongs to the candidate that was reviewed.
pub proof fn reported_line_is_read(
    k: Seq<char>,
    a: Seq<char>,
    s: Seq<char>,
    e: Seq<char>,
    message: Seq<char>,
    role: AgentRole,
    hash: Seq<char>,
    candidate: Seq<char>,
)
    requires
        !k.contains('|') && !a.contains('|') && !s.contains('|') && !e.contains('|'),
        kind_of(k) is Some,
        parsed_size(s) is Some,
        parsed_size(e) is Some,
        evidence_error(a, parsed_size(s)->Some_0, parsed_size(e)->Some_0, candidate) is None,
        !is_blank(message),
    ensures
        ({
            let bar = "|"@;
            let line = "FINDING|"@ + (k + bar + a + bar + s + bar + e + bar + message);
            &&& line_finding(line, role, hash, candidate) matches Ok(Some(finding)) && {
                &&& Some(finding.kind) == kind_of(k)
                &&& finding.artifact == a
                &&& finding.start == parsed_size(s)->Some_0
                &&& finding.end == parsed_size(e)->Some_0
                &&& finding.message == role_name(role) + ": "@ + message
                &&& finding.candidate_hash == hash
                &&& finding.resolved is None
            }
        }),
{
    reveal_strlit("|");
    reveal_strlit("FINDING|");
    assert("|"@ =~= seq!['|']);
    let bar = seq!['|'];
    let body = k + bar + a + bar + s + bar + e + bar + message;
    let line = "FINDING|"@ + body;
    lemma_five_pieces(k, a, s, e, message);
    assert(line.take(8) =~= "FINDING|"@);
    assert(line.skip(8) =~= body);
}

/// A line that does not begin as a finding does reports none.
pub proof fn other_lines_report_nothing(
    line: Seq<char>,
    role: AgentRole,
    hash: Seq<char>,
    candidate: Seq<char>,
)
    requires
        line.len() < 8 || line.take(8) != seq!['F', 'I', 'N', 'D', 'I', 'N', 'G', '|'],
    ensures
        line_finding(line, role, hash, candidate) == Ok::<Option<FindingModel>, Seq<char>>(None),
{
    reveal_strlit("FINDING|");
    assert("FINDING|"@ =~= seq!['F', 'I', 'N', 'D', 'I', 'N', 'G', '|']);
}

/// A finding of an unknown kind, with a range that is not two numbers, outside the candidate or of
/// an artifact that is not of the project, is refused with the whole line.
pub proof fn bad_finding_is_refused(
    k: Seq<char>,
    a: Seq<char>,
    s: Seq<char>,
    e: Seq<char>,
    message: Seq<char>,
    role: AgentRole,
    hash: Seq<char>,
    candidate: Seq<char>,
)
    requires
        !k.contains('|') && !a.contains('|') && !s.contains('|') && !e.contains('|'),
        kind_of(k) is None || parsed_size(s) is None || parsed_size(e) is None || is_blank(message)
            || is_blank(a) || (a.len() > 0 && a[0] == '/') || a.contains('\0')
            || has_parent_component(a) || parsed_size(s)->Some_0 > parsed_size(e)->Some_0
            || parsed_size(e)->Some_0 > utf8(candidate).len(),
    ensures
        ({
            let bar = "|"@;
            let line = "FINDING|"@ + (k + bar + a + bar + s + bar + e + bar + message);
            line_finding(line, role, hash, candidate) is Err
        }),
{
    reveal_strlit("|");
    reveal_strlit("FINDING|");
    assert("|"@ =~= seq!['|']);
    let bar = seq!['|'];
    let body = k + bar + a + bar + s + bar + e + bar + message;
    let line = "FINDING|"@ + body;
    lemma_five_pieces(k, a, s, e, message);
    assert(line.take(8) =~= "FINDING|"@);
    assert(line.skip(8) =~= body);
}

proof fn lemma_report(
    lines: Seq<Seq<char>>,
    i: int,
    role: AgentRole,
    hash: Seq<char>,
    candidate: Seq<char>,
    found: Seq<FindingModel>,
    l: int,
)
    requires
        0 <= i <= lines.len(),
    ensures
        report_findings(lines, i, role, hash, candidate, found) matches Ok(list) ==> {
            &&& found.len() <= list.len() && list.take(found.len() as int) == found
            &&& i <= l < lines.len() ==> (line_finding(lines[l], role, hash, candidate) matches Ok(
                seen,
            ) && (seen is Some ==> list.contains(seen->Some_0)))
            &&& list.len() <= found.len() + (lines.len() - i)
        },
    decreases lines.len() - i,
{
    if let Ok(list) = report_findings(lines, i, role, hash, candidate, found) {
        if i >= lines.len() {
            assert(found.take(found.len() as int) =~= found);
        } else {
            match line_finding(lines[i], role, hash, candidate) {
                Err(message) => {},
                Ok(None) => {
                    lemma_report(lines, i + 1, role, hash, candidate, found, l);
                },
                Ok(Some(finding)) => {
                    let next = found.push(finding);
                    lemma_report(lines, i + 1, role, hash, candidate, next, l);
                    assert(list.take(next.len() as int)[found.len() as int] == finding);
                    assert(list[found.len() as int] == finding);
                    assert(list.take(found.len() as int) =~= found) by {
                        assert forall|k: int| 0 <= k < found.len() implies list[k] == found[k] by {
                            assert(list.take(next.len() as int)[k] == next[k]);
                        }
                    }
                },
            }
        }
    }
}

/// A report is read line by line: each line that reports a finding adds it, and one line that cannot
/// be read refuses the whole report.
pub proof fn every_reported_line_counts(
    text: Seq<char>,
    role: AgentRole,
    hash: Seq<char>,
    candidate: Seq<char>,
    l: int,
)
    requires
        0 <= l < text_lines(text).len(),
    ensures
        line_finding(text_lines(text)[l], role, hash, candidate) is Err ==> findings_of(
            text,
            role,
            hash,
            candidate,
        ) is Err,
        findings_of(text, role, hash, candidate) matches Ok(list) ==> (line_finding(
            text_lines(text)[l],
            role,
            hash,
            candidate,
        ) matches Ok(Some(finding)) ==> list.contains(finding)),
        findings_of(text, role, hash, candidate) matches Ok(list) ==> list.len() <= text_lines(
            text,
        ).len(),
{
    lemma_report(text_lines(text), 0, role, hash, candidate, Seq::empty(), l);
}

proof fn lemma_only_reported(
    lines: Seq<Seq<char>>,
    i: int,
    role: AgentRole,
    hash: Seq<char>,
    candidate: Seq<char>,
    found: Seq<FindingModel>,
    k: int,
)
    requires
        0 <= i <= lines.len(),
    ensures
        report_findings(lines, i, role, hash, candidate, found) matches Ok(list) ==> (found.len()
            <= k < list.len() ==> exists|l: int|
            i <= l < lines.len() && line_finding(#[trigger] lines[l], role, hash, candidate) == Ok::<
                Option<FindingModel>,
                Seq<char>,
            >(Some(list[k]))),
    decreases lines.len() - i,
{
    if let Ok(list) = report_findings(lines, i, role, hash, candidate, found) {
        if i < lines.len() && found.len() <= k < list.len() {
            match line_finding(lines[i], role, hash, candidate) {
                Err(message) => {},
                Ok(None) => {
                    lemma_only_reported(lines, i + 1, role, hash, candidate, found, k);
                },
                Ok(Some(finding)) => {
                    let next = found.push(finding);
                    lemma_report(lines, i + 1, role, hash, candidate, next, 0);
                    if k == found.len() {
                        assert(list.take(next.len() as int)[k] == finding);
                        assert(list[k] == finding);
                        assert(line_finding(lines[i], role, hash, candidate) == Ok::<
                            Option<FindingModel>,
                            Seq<char>,
                        >(Some(list[k])));
                    } else {
                        lemma_only_reported(lines, i + 1, role, hash, candidate, next, k);
                    }
                },
            }
        }
    }
}

/// Nothing is found that no line reports.
pub proof fn nothing_unreported_is_found(
    text: Seq<char>,
    role: AgentRole,
    hash: Seq<char>,
    candidate: Seq<char>,
    k: int,
)
    requires
        findings_of(text, role, hash, candidate) is Ok,
        0 <= k < findings_of(text, role, hash, candidate)->Ok_0.len(),
    ensures
        exists|l: int|
            0 <= l < text_lines(text).len() && line_finding(
                #[trigger] text_lines(text)[l],
                role,
                hash,
                candidate,
            ) == Ok::<Option<FindingModel>, Seq<char>>(
                Some(findings_of(text, role, hash, candidate)->Ok_0[k]),
            ),
{
    lemma_only_reported(text_lines(text), 0, role, hash, candidate, Seq::empty(), k);
}

/// A chapter may be as short as the least length and as long as the greatest, and neither shorter
/// nor longer.
pub proof fn length_limits_are_inclusive(minimum: usize, maximum: usize, count: nat)
    requires
        minimum <= maximum,
    ensures
        length_error(minimum as nat, minimum, maximum) is None,
        length_error(maximum as nat, minimum, maximum) is None,
        count < minimum || count > maximum ==> length_error(count, minimum, maximum) is Some,
        minimum < count < maximum ==> length_error(count, minimum, maximum) is None,
{
}

/// The architect, the writer and the reviser work with the tools of an author, the validator with
/// those of the coordinator, and each of the six critics with those of a critic.
pub proof fn agents_have_the_tools_of_their_place(role: AgentRole)
    ensures
        role == AgentRole::StoryArchitect || role == AgentRole::Writer || role == AgentRole::Reviser
            ==> tool_role_of(role) == crate::tools::AgentRole::Author,
        role == AgentRole::Validator ==> tool_role_of(role) == crate::tools::AgentRole::Coordinator,
        role == AgentRole::CharacterVoiceCritic || role == AgentRole::CanonCritic || role
            == AgentRole::ReaderPullCritic || role == AgentRole::StoryEditorCritic || role
            == AgentRole::NaturalnessStyleCritic || role == AgentRole::SourceAdherenceCritic
            ==> tool_role_of(role) == crate::tools::AgentRole::ConsistencyCritic,
{
}

/// The length of a chapter in words is the number of its words.
pub proof fn length_in_words_counts_words(text: Seq<char>)
    ensures
        text_length(text, LengthUnit::Words) == words(text).len(),
        text_length(text, LengthUnit::Graphemes) == crate::unicode::grapheme_pieces(text).len(),
{
}

/// A finding is known by an identifier of its form that follows from what it says and from the
/// candidate that it is about.
pub proof fn finding_is_named_after_what_it_says(
    kind: FindingKind,
    artifact: Seq<char>,
    start: usize,
    end: usize,
    message: Seq<char>,
    hash: Seq<char>,
)
    ensures
        ({
            let finding = new_finding(kind, artifact, start, end, message, hash);
            &&& has_prefix(finding.id, "finding_"@)
            &&& finding.kind == kind && finding.artifact == artifact && finding.start == start
                && finding.end == end && finding.message == message && finding.candidate_hash == hash
            &&& finding.resolved is None
        }),
{
    reveal_strlit("finding");
    reveal_strlit("_");
    reveal_strlit("finding_");
    let finding = new_finding(kind, artifact, start, end, message, hash);
    assert("finding"@ + "_"@ =~= "finding_"@);
    assert(finding.id.take(8) =~= "finding_"@);
}

/// Evidence is good where it names a file of the project by a relative path that does not climb, and
/// a range of whole characters of the candidate, up to its very end.
pub proof fn evidence_lies_in_the_candidate(
    artifact: Seq<char>,
    start: usize,
    end: usize,
    candidate: Seq<char>,
)
    ensures
        evidence_error(artifact, start, end, candidate) is None <==> {
            &&& !is_blank(artifact)
            &&& !is_absolute_path(artifact)
            &&& !artifact.contains('\0')
            &&& !has_parent_component(artifact)
            &&& start <= end && end <= utf8(candidate).len()
            &&& vstd::utf8::is_char_boundary(utf8(candidate), start as int)
            &&& vstd::utf8::is_char_boundary(utf8(candidate), end as int)
        },
{
}

} // verus!
