//! Context of an agent that works on a chapter.
use vstd::prelude::*;
use vstd::string::StringExecFns;
use vstd::utf8::valid_utf8;
use crate::context::{compile_result, compiler_error, handoff_error, new_compiler, snapshot_models, transmitted, CompilerModel, ContextCompiler, ContextReceipt, ContextRequest, ReceiptModel};
use crate::domain::{is_known_id, EntityId};
use crate::findings::{role_name, AgentRole};
use crate::paths::{content_of, files, find_file, FileEntry, FileModel};
use crate::plot::StoryStructure;
use crate::records::opt_receipt;
use crate::sources::{snapshot_of, EntryModel, Snapshot, SnapshotModel, SourceEntry, SourceKind, SourceManifest, WebSnapshotMetadata};
use crate::text::{concat2, concat3, text_of, utf8_error};

verus! {

/// Tokens that the context of an agent may take.
pub const CONTEXT_BUDGET: u64 = 1_000_000;

/// Tokens that are asked for in return.
pub const CONTEXT_OUTPUT: u64 = 20_000;

/// The snapshot of a source whose files exist: nothing for a source that is not stored or whose
/// files are missing.
pub open spec fn stored_snapshot(entry: EntryModel, list: Seq<FileModel>) -> Result<
    Option<SnapshotModel>,
    Seq<char>,
> {
    if entry.snapshot.ephemeral {
        Ok(None)
    } else if entry.snapshot.raw_artifact is None {
        Err("source "@ + entry.source_id + " has no raw artifact"@)
    } else if entry.snapshot.content_artifact is None {
        Err("source "@ + entry.source_id + " has no content artifact"@)
    } else {
        match (
            content_of(list, entry.snapshot.raw_artifact->Some_0),
            content_of(list, entry.snapshot.content_artifact->Some_0),
        ) {
            (Some(raw), Some(content)) => if !valid_utf8(content) {
                Err(
                    "source "@ + entry.source_id + " snapshot is invalid: "@ + (
                    "snapshot content must be UTF-8: "@ + utf8_error(content)),
                )
            } else if entry.kind != SourceKind::Web && entry.web is Some {
                Err(
                    "source "@ + entry.source_id + " snapshot is invalid: "@
                        + "non-web snapshots cannot carry web metadata"@,
                )
            } else {
                Ok(Some(snapshot_of(entry.kind, raw, text_of(content), false, entry.web)))
            },
            _ => Ok(None),
        }
    }
}

/// The snapshots of the first sources whose files exist.
pub open spec fn stored_snapshots(entries: Seq<EntryModel>, list: Seq<FileModel>, i: int) -> Result<
    Seq<SnapshotModel>,
    Seq<char>,
>
    decreases i,
{
    if i <= 0 {
        Ok(Seq::empty())
    } else {
        match stored_snapshots(entries, list, i - 1) {
            Err(error) => Err(error),
            Ok(before) => match stored_snapshot(entries[i - 1], list) {
                Err(error) => Err(error),
                Ok(None) => Ok(before),
                Ok(Some(snapshot)) => Ok(before.push(snapshot)),
            },
        }
    }
}

proof fn lemma_snapshots_stop(entries: Seq<EntryModel>, list: Seq<FileModel>, i: int, n: int)
    requires
        0 <= i <= n,
        stored_snapshots(entries, list, i) is Err,
    ensures
        stored_snapshots(entries, list, n) == stored_snapshots(entries, list, i),
    decreases n - i,
{
    if i < n {
        lemma_snapshots_stop(entries, list, i, n - 1);
    }
}

fn read_snapshot(entry: &SourceEntry, list: &[FileEntry]) -> (r: Result<Option<Snapshot>, String>)
    ensures
        match stored_snapshot(entry@, files(list@)) {
            Err(error) => r is Err && r->Err_0@ == error,
            Ok(None) => r is Ok && r->Ok_0 is None,
            Ok(Some(snapshot)) => r is Ok && r->Ok_0 is Some && r->Ok_0->Some_0@ == snapshot,
        },
{
    if entry.snapshot.ephemeral {
        return Ok(None);
    }
    let raw_path = match &entry.snapshot.raw_artifact {
        None => {
            return Err(concat3("source ", entry.source_id.as_str(), " has no raw artifact"));
        },
        Some(path) => path,
    };
    let content_path = match &entry.snapshot.content_artifact {
        None => {
            return Err(concat3("source ", entry.source_id.as_str(), " has no content artifact"));
        },
        Some(path) => path,
    };
    let raw = match find_file(list, raw_path.as_str()) {
        None => {
            return Ok(None);
        },
        Some(file) => file,
    };
    let content = match find_file(list, content_path.as_str()) {
        None => {
            return Ok(None);
        },
        Some(file) => file,
    };
    let web: Option<WebSnapshotMetadata> = match &entry.web {
        Some(web) => Some(web.copy()),
        None => None,
    };
    match Snapshot::from_artifacts(
        entry.kind,
        raw.bytes.as_slice(),
        content.bytes.as_slice(),
        false,
        web,
    ) {
        Err(error) => {
            let mut text = concat3("source ", entry.source_id.as_str(), " snapshot is invalid: ");
            text.append(error.to_text().as_str());
            Err(text)
        },
        Ok(snapshot) => Ok(Some(snapshot)),
    }
}

fn read_snapshots(manifest: &SourceManifest, list: &[FileEntry]) -> (r: Result<
    Vec<Snapshot>,
    String,
>)
    ensures
        match stored_snapshots(
            manifest.models(),
            files(list@),
            manifest.models().len() as int,
        ) {
            Err(error) => r is Err && r->Err_0@ == error,
            Ok(found) => r is Ok && snapshot_models(r->Ok_0@) == found,
        },
{
    let entries = manifest.entries();
    let ghost all = manifest.models();
    let mut out: Vec<Snapshot> = Vec::new();
    let mut i: usize = 0;
    assert(snapshot_models(out@) =~= Seq::<SnapshotModel>::empty());
    while i < entries.len()
        invariant
            i <= entries@.len(),
            all == manifest.models(),
            all == crate::sources::entry_models(entries@),
            stored_snapshots(all, files(list@), i as int) == Ok::<Seq<SnapshotModel>, Seq<char>>(
                snapshot_models(out@),
            ),
        decreases entries@.len() - i,
    {
        assert(all[i as int] == entries@[i as int]@);
        match read_snapshot(&entries[i], list) {
            Err(error) => {
                proof {
                    lemma_snapshots_stop(all, files(list@), i + 1, all.len() as int);
                }
                return Err(error);
            },
            Ok(None) => {},
            Ok(Some(snapshot)) => {
                let ghost before = snapshot_models(out@);
                let ghost item = snapshot@;
                out.push(snapshot);
                assert(snapshot_models(out@) =~= before.push(item));
            },
        }
        i += 1;
    }
    Ok(out)
}

/// The compiler of a chapter.
pub open spec fn chapter_compiler(
    entries: Seq<EntryModel>,
    snapshots: Seq<SnapshotModel>,
    structure: Option<StoryStructure>,
    owner: Seq<char>,
) -> CompilerModel {
    let compiler = new_compiler(entries, snapshots, owner);
    match structure {
        Some(value) => CompilerModel { structure: Some(value), ..compiler },
        None => compiler,
    }
}

/// What a compiler gives an agent.
pub open spec fn agent_context(c: CompilerModel, request: ContextRequest) -> Result<
    (Seq<char>, Option<ReceiptModel>),
    Seq<char>,
> {
    match compile_result(c, request) {
        Err(error) => Err(error.message),
        Ok(context) => Ok((context.text, Some(transmitted(context).receipt))),
    }
}

/// Whether a request is that of an agent that works on a chapter.
pub open spec fn is_chapter_request(
    request: ContextRequest,
    chapter_id: Seq<char>,
    role: AgentRole,
) -> bool {
    &&& request.target@ == chapter_id
    &&& request.role@ == role_name(role)
    &&& request.budget_tokens == CONTEXT_BUDGET
    &&& request.requested_output_tokens == CONTEXT_OUTPUT
}

/// The view of a compiled context.
pub open spec fn context_view(r: Result<(String, Option<ContextReceipt>), String>) -> Result<
    (Seq<char>, Option<ReceiptModel>),
    Seq<char>,
> {
    match r {
        Ok((text, receipt)) => Ok((text@, opt_receipt(receipt))),
        Err(error) => Err(error@),
    }
}

/// Compiles the context of an agent that works on a chapter, from the source manifest and the
/// stored source files that exist.  A chapter without a known identifier has no context.
pub fn compile_project_context(
    chapter_id: &str,
    role: AgentRole,
    manifest: SourceManifest,
    list: &[FileEntry],
    structure: Option<StoryStructure>,
) -> (r: Result<(String, Option<ContextReceipt>), String>)
    ensures
        if !is_known_id(chapter_id@) {
            context_view(r) == Ok::<(Seq<char>, Option<ReceiptModel>), Seq<char>>(
                (Seq::empty(), None),
            )
        } else {
            match stored_snapshots(
                manifest.models(),
                files(list@),
                manifest.models().len() as int,
            ) {
                Err(error) => r is Err && r->Err_0@ == error,
                Ok(snapshots) => match compiler_error(manifest.models(), snapshots) {
                    Some(error) => r is Err && r->Err_0@ == "source manifest cannot compile: "@
                        + error.1,
                    None => exists|owner: Seq<char>, request: ContextRequest| #[trigger]
                        is_chapter_request(request, chapter_id@, role) && context_view(r)
                            == agent_context(
                            #[trigger] chapter_compiler(
                                manifest.models(),
                                snapshots,
                                structure,
                                owner,
                            ),
                            request,
                        ),
                },
            }
        },
{
    let target = match EntityId::from_validated(chapter_id.to_owned()) {
        None => {
            let none = String::new();
            assert(none@ =~= Seq::<char>::empty());
            return Ok((none, None));
        },
        Some(target) => target,
    };
    let snapshots = match read_snapshots(&manifest, list) {
        Err(error) => {
            return Err(error);
        },
        Ok(snapshots) => snapshots,
    };
    let ghost entries = manifest.models();
    let ghost shots = snapshot_models(snapshots@);
    let mut compiler = match ContextCompiler::new(manifest, snapshots) {
        Err(error) => {
            return Err(concat2("source manifest cannot compile: ", error.to_text().as_str()));
        },
        Ok(compiler) => compiler,
    };
    let ghost owner = compiler@.owner;
    if let Some(value) = structure {
        compiler = compiler.with_structure(value);
    }
    assert(compiler@ == chapter_compiler(entries, shots, structure, owner));
    let request = ContextRequest {
        target,
        role: role.name().to_owned(),
        budget_tokens: CONTEXT_BUDGET,
        requested_output_tokens: CONTEXT_OUTPUT,
    };
    let ghost model = compiler@;
    assert(is_chapter_request(request, chapter_id@, role));
    match compiler.compile(&request) {
        Err(error) => Err(error.to_text()),
        Ok(context) => {
            let ghost compiled = context@;
            proof {
                assert(compile_result(model, request) == Ok::<
                    crate::context::CompiledModel,
                    crate::context::CompileErrorModel,
                >(compiled));
                assert(handoff_error(compiler@, compiled) is None) by {
                    assert forall|i: int| 0 <= i < compiled.reserved.len() implies compiler@.reserved.contains(
                        #[trigger] compiled.reserved[i],
                    ) by {
                        assert(compiled.reserved.to_set().contains(compiled.reserved[i]));
                    }
                }
            }
            match compiler.handoff(context) {
                Err(error) => Err(error.to_text()),
                Ok(sent) => {
                    let (text, receipt) = sent.into_parts();
                    Ok((text, Some(receipt)))
                },
            }
        },
    }
}

} // verus!
