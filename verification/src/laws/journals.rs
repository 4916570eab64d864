//! Which records of an interrupted change are believed.
use vstd::prelude::*;
use crate::changeset::{ApprovalRecord, ChangeModel, OperationKind};
use crate::hash::digest_text;
use crate::journal::{committed_error, committed_from, entries_error, first_prepared, four_digits, head_error, journal_error, loaded_journal, phase_fits, prepared_journal, preserve_plan, progress_error, progress_of, snapshot_error, transaction_file_error, EntryModel, FileIdentity, JournalModel, JournalState, OperationPhase, ProgressModel, Seen};
use crate::laws::texts::lemma_decimal;
use crate::text::{decimal, digits_value, is_digest};
use crate::validation::{alias_key, target_lexical_verdict};

verus! {

proof fn lemma_entry(entries: Seq<EntryModel>, from: int, i: int, j: int)
    requires
        0 <= from <= i < entries.len(),
        entries_error(entries, from) is None,
    ensures
        target_lexical_verdict(entries[i].target_path) is Ok,
        0 <= j < i ==> alias_key(entries[j].target_path) != alias_key(entries[i].target_path),
        entries[i].kind == OperationKind::Create ==> entries[i].before is None && entries[i].after
            is Some,
        entries[i].kind == OperationKind::Replace ==> entries[i].before is Some && entries[i].after
            is Some && entries[i].before != entries[i].after,
        entries[i].kind == OperationKind::Delete ==> entries[i].before is Some && entries[i].after
            is None,
    decreases i - from,
{
    if from < i {
        lemma_entry(entries, from + 1, i, j);
    } else if 0 <= j < i {
        assert(alias_key(entries[j].target_path) != alias_key(entries[i].target_path));
    }
}

/// A journal that is believed writes to safe paths only, to none twice, and knows of each file what
/// was there and what is to be there.
pub proof fn believed_journal_is_sound(journal: JournalModel, i: int, j: int)
    requires
        journal_error(journal) is None,
        0 <= i < journal.entries.len(),
    ensures
        journal.chapter_order > 0,
        is_digest(journal.base_root_hash) && is_digest(journal.result_root_hash) && is_digest(
            journal.approval_record_sha256,
        ),
        target_lexical_verdict(journal.entries[i].target_path) is Ok,
        0 <= j < i ==> alias_key(journal.entries[j].target_path) != alias_key(
            journal.entries[i].target_path,
        ),
        journal.entries[i].kind == OperationKind::Create ==> journal.entries[i].before is None
            && journal.entries[i].after is Some,
        journal.entries[i].kind == OperationKind::Replace ==> journal.entries[i].before is Some
            && journal.entries[i].after is Some && journal.entries[i].before
            != journal.entries[i].after,
        journal.entries[i].kind == OperationKind::Delete ==> journal.entries[i].before is Some
            && journal.entries[i].after is None,
{
    lemma_entry(journal.entries, 0, i, j);
}

/// A transaction is believed by the journal of its beginning; a journal of its end must say the same
/// but for the state, there is at most one, and it names the directory that it lies in.
pub proof fn end_of_a_transaction_matches_its_beginning(
    name: Seq<char>,
    start: JournalModel,
    committed: Option<JournalModel>,
    rolled_back: Option<JournalModel>,
)
    ensures
        loaded_journal(name, None, committed, rolled_back) is Err,
        loaded_journal(name, Some(start), committed, rolled_back) matches Ok(journal) ==> {
            &&& journal.changeset_id == name
            &&& journal.entries == start.entries
            &&& journal.base_root_hash == start.base_root_hash
            &&& journal.result_root_hash == start.result_root_hash
            &&& journal.approval_record_sha256 == start.approval_record_sha256
            &&& start.state == JournalState::Prepared
            &&& committed is Some ==> journal.state == JournalState::Committed
            &&& rolled_back is Some ==> journal.state == JournalState::RolledBack
            &&& committed is None && rolled_back is None ==> journal.state == JournalState::Prepared
            &&& committed is None || rolled_back is None
        },
{
}

/// The journal of a change is that of the change: its identifier, the roots before and after it, the
/// digest of its approval, and of each file what was there and what is to be there.
pub proof fn journal_tells_of_the_change(change: ChangeModel, record: Seq<u8>, i: int)
    ensures
        ({
            let journal = prepared_journal(change, record);
            &&& journal.changeset_id == change.id
            &&& journal.state == JournalState::Prepared
            &&& journal.base_root_hash == change.base_root_hash
            &&& journal.result_root_hash == change.result_root_hash
            &&& journal.approval_record_sha256 == digest_text(record)
            &&& journal.chapter_order == change.chapter_order
            &&& journal.entries.len() == change.operations.len()
            &&& 0 <= i < journal.entries.len() ==> journal.entries[i].kind
                == change.operations[i].kind && journal.entries[i].target_path
                == change.operations[i].path && journal.entries[i].before
                == change.operations[i].before_sha256 && journal.entries[i].after
                == change.operations[i].after_sha256
        }),
{
}

/// An approval counts for a change that was carried out only where its bytes are those of the change
/// and it names the change, the root that it started from and the chapter.
pub proof fn approval_must_match_its_journal(
    journal: JournalModel,
    bytes: Seq<u8>,
    record: ApprovalRecord,
)
    ensures
        committed_error(journal, bytes, Ok(record)) is None <==> digest_text(bytes)
            == journal.approval_record_sha256 && record.changeset_id@ == journal.changeset_id
            && record.base_root_hash@ == journal.base_root_hash && record.chapter_order
            == journal.chapter_order,
        committed_error(journal, bytes, Err::<ApprovalRecord, String>(arbitrary())) is Some,
{
}

proof fn lemma_committed(list: Seq<JournalModel>, id: Seq<char>, i: int)
    requires
        0 <= i <= list.len(),
    ensures
        committed_from(list, id, i) matches Some(k) ==> i <= k < list.len() && list[k].state
            == JournalState::Committed && list[k].changeset_id == id,
        committed_from(list, id, i) is None ==> forall|k: int|
            i <= k < list.len() ==> (#[trigger] list[k]).state != JournalState::Committed
                || list[k].changeset_id != id,
    decreases list.len() - i,
{
    if i < list.len() && !(list[i].state == JournalState::Committed && list[i].changeset_id == id) {
        lemma_committed(list, id, i + 1);
    }
}

/// A project whose files are not those that its last change left is noticed.
pub proof fn changed_project_is_noticed(
    list: Seq<JournalModel>,
    id: Seq<char>,
    order: u32,
    canon: Seq<char>,
    k: int,
)
    requires
        0 <= k < list.len(),
        list[k].state == JournalState::Committed,
        list[k].changeset_id == id,
        list[k].result_root_hash != canon || list[k].chapter_order != order,
        forall|j: int|
            0 <= j < list.len() && j != k ==> (#[trigger] list[j]).changeset_id != id,
    ensures
        head_error(list, Some((id, order)), canon) is Some,
{
    lemma_committed(list, id, 0);
}

/// A file is moved away only where it is what the change was made from; a file that is to be created
/// must not be there.
pub proof fn only_the_known_file_is_moved(entry: EntryModel, display: Seq<char>, seen: Seen)
    ensures
        entry.kind == OperationKind::Create ==> preserve_plan(entry, display, Some(seen)) is Err
            && preserve_plan(entry, display, None) == Ok::<bool, Seq<char>>(false),
        entry.kind != OperationKind::Create ==> preserve_plan(entry, display, None) is Err && (
        preserve_plan(entry, display, Some(seen)) is Ok <==> entry.before == Some(seen.0)),
        entry.kind != OperationKind::Create && entry.before == Some(seen.0) ==> preserve_plan(
            entry,
            display,
            Some(seen),
        ) == Ok::<bool, Seq<char>>(true),
{
}

/// A file is taken for the one that was seen before only where its content and its place on the disk
/// are the same.
pub proof fn file_is_known_by_content_and_place(
    seen: Seen,
    expected: Option<Seq<char>>,
    identity: Option<FileIdentity>,
    label: Seq<char>,
    display: Seq<char>,
)
    ensures
        snapshot_error(seen, expected, identity, label, display) is None <==> expected == Some(
            seen.0,
        ) && (identity matches Some(known) ==> seen.1 == known),
{
}

/// A file that is moved away was there, and one that is put in its place is to be there.
pub proof fn phases_fit_their_operation(kind: OperationKind)
    ensures
        phase_fits(kind, OperationPhase::MovedOld) <==> kind != OperationKind::Create,
        phase_fits(kind, OperationPhase::Installed) <==> kind != OperationKind::Delete,
{
}

/// A step that was noted is believed only where it is of this file, of this kind and phase, and of
/// the content that the journal names.
pub proof fn noted_step_must_match(
    entry: EntryModel,
    index: nat,
    phase: OperationPhase,
    stored: ProgressModel,
)
    ensures
        progress_error(entry, index, phase, Some(stored)) is None ==> stored.operation_index == index
            && stored.kind == entry.kind && stored.phase == phase && phase_fits(entry.kind, phase)
            && (phase == OperationPhase::MovedOld ==> entry.before == Some(stored.sha256)) && (phase
            == OperationPhase::Installed ==> entry.after == Some(stored.sha256)),
        index <= u32::MAX && stored.operation_index == index && stored.kind == entry.kind
            && stored.phase == phase && phase_fits(entry.kind, phase) && (phase
            == OperationPhase::MovedOld && entry.before == Some(stored.sha256) || phase
            == OperationPhase::Installed && entry.after == Some(stored.sha256)) ==> progress_error(
            entry,
            index,
            phase,
            Some(stored),
        ) is None,
{
}

/// A step that is noted tells of the file that was seen, and none is noted of a file that changed.
pub proof fn step_is_noted_of_the_seen_file(
    entry: EntryModel,
    index: nat,
    phase: OperationPhase,
    seen: Seen,
)
    ensures
        progress_of(entry, index, phase, seen) matches Ok(progress) ==> {
            &&& progress.operation_index == index && progress.kind == entry.kind && progress.phase
                == phase
            &&& progress.sha256 == seen.0 && progress.identity == seen.1
            &&& phase == OperationPhase::MovedOld ==> entry.before == Some(seen.0)
            &&& phase == OperationPhase::Installed ==> entry.after == Some(seen.0)
            &&& progress_error(entry, index, phase, Some(progress)) is None
        },
{
}

/// Nothing lies beside a transaction that does not belong to it: its journals, its approval, and the
/// files of its operations.
pub proof fn only_its_own_files_lie_with_a_transaction(
    entries: Seq<EntryModel>,
    name: Seq<char>,
    regular: bool,
    i: int,
)
    ensures
        !regular ==> transaction_file_error(entries, name, regular) is Some,
        regular && (name == "journal.prepared.json"@ || name == "journal.committed.json"@ || name
            == "journal.rolled-back.json"@ || name == "approval-record.json"@ || name
            == "approval-quarantine"@) ==> transaction_file_error(entries, name, regular) is None,
        regular && 0 <= i < entries.len() && entries[i].before is Some && (name == "before-"@
            + four_digits(i as nat) || name == "old-live-"@ + four_digits(i as nat))
            ==> transaction_file_error(entries, name, regular) is None,
        regular && 0 <= i < entries.len() && entries[i].after is Some && (name == "after-"@
            + four_digits(i as nat) || name == "quarantine-"@ + four_digits(i as nat))
            ==> transaction_file_error(entries, name, regular) is None,
        entries.len() == 0 && name != "journal.prepared.json"@ && name != "journal.committed.json"@
            && name != "journal.rolled-back.json"@ && name != "approval-record.json"@ && name
            != "approval-quarantine"@ ==> transaction_file_error(entries, name, regular) is Some,
{
    if 0 <= i < entries.len() {
        assert(crate::journal::is_entry_file(entries[i], i as nat, name)
            || !crate::journal::is_entry_file(entries[i], i as nat, name));
    }
}

/// The number of a file is written with at least four digits and is read back from them, so no two
/// files share a name.
pub proof fn numbered_files_are_told_apart(a: nat, b: nat)
    ensures
        four_digits(a).len() >= 4,
        digits_value(four_digits(a)) == a,
        four_digits(a) == four_digits(b) ==> a == b,
{
    lemma_four_digits(a);
    lemma_four_digits(b);
}

proof fn lemma_four_digits(n: nat)
    ensures
        four_digits(n).len() >= 4,
        digits_value(four_digits(n)) == n,
{
    lemma_decimal(n);
    lemma_decimal_length(n);
    let d = decimal(n);
    reveal_strlit("000");
    reveal_strlit("00");
    reveal_strlit("0");
    assert("000"@ =~= seq!['0', '0', '0']);
    assert("00"@ =~= seq!['0', '0']);
    assert("0"@ =~= seq!['0']);
    lemma_zero(d);
    lemma_zero(seq!['0'] + d);
    lemma_zero(seq!['0'] + (seq!['0'] + d));
    assert("00"@ + d =~= seq!['0'] + (seq!['0'] + d));
    assert("000"@ + d =~= seq!['0'] + (seq!['0'] + (seq!['0'] + d)));
    assert("0"@ + d =~= seq!['0'] + d);
}

proof fn lemma_decimal_length(n: nat)
    ensures
        n >= 1000 ==> decimal(n).len() >= 4,
        n >= 100 ==> decimal(n).len() >= 3,
        n >= 10 ==> decimal(n).len() >= 2,
        decimal(n).len() >= 1,
    decreases n,
{
    if n >= 10 {
        lemma_decimal_length(n / 10);
    }
}

proof fn lemma_zero(d: Seq<char>)
    ensures
        digits_value(seq!['0'] + d) == digits_value(d),
    decreases d.len(),
{
    let s = seq!['0'] + d;
    if d.len() == 0 {
        assert(s.drop_last() =~= Seq::<char>::empty());
        assert(s.last() == '0');
        assert(digits_value(s.drop_last()) == 0);
    } else {
        assert(s.drop_last() =~= seq!['0'] + d.drop_last());
        assert(s.last() == d.last());
        lemma_zero(d.drop_last());
    }
}

/// The change that is taken up again is the first that was not finished.
pub proof fn first_unfinished_change_is_taken_up(list: Seq<JournalModel>, i: int)
    requires
        0 <= i <= list.len(),
    ensures
        first_prepared(list, i) matches Some(k) ==> i <= k < list.len() && list[k].state
            == JournalState::Prepared && forall|j: int|
            i <= j < k ==> (#[trigger] list[j]).state != JournalState::Prepared,
        first_prepared(list, i) is None ==> forall|j: int|
            i <= j < list.len() ==> (#[trigger] list[j]).state != JournalState::Prepared,
    decreases list.len() - i,
{
    if i < list.len() && list[i].state != JournalState::Prepared {
        first_unfinished_change_is_taken_up(list, i + 1);
    }
}

} // verus!
