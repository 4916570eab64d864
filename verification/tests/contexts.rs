use phemius::compile::compile_project_context;
use phemius::context::{
    estimate_tokens, ByteRange, ContextCompiler, ContextReceipt, ContextRequest,
    CoverageDisposition, SecretTransmission, SourceSummary,
};
use phemius::domain::{prefixed_uuid, EntityId, EntityKind};
use phemius::findings::AgentRole;
use phemius::grants::{
    absolute_lexical_path, collect_file, ingest_path, text_kind, FileStat, Fingerprint,
    GrantDirectory, GrantKind, GrantStep, PathGrant,
};
use phemius::hash::sha256_bytes;
use phemius::paths::{same_path, FileEntry};
use phemius::sources::{
    snapshot_pdf, Header, ManifestDocument, PdfPage, PdfPages, Snapshot, SourceEntry,
    SourceErrorKind, SourceKind, SourceManifest, SourceScope, SourceTier,
};
use phemius::table::Table;
use phemius::validation::EntryKind;
use phemius::value::{parse_json, Json};
use phemius::web::{
    accept_chunk, is_public_ip, selected_headers, snapshot_web_at, snapshot_web_from_responses,
    validate_dns_addresses, validate_web_url, FetchStep, IpAddress, WebFetch, WebResponse,
    WebSnapshotLimits,
};

fn ok<T, E>(result: Result<T, E>) -> T {
    match result {
        Ok(value) => value,
        Err(_) => panic!("expected success"),
    }
}

fn err<T, E>(result: Result<T, E>) -> E {
    match result {
        Ok(_) => panic!("expected a failure"),
        Err(error) => error,
    }
}

fn text(bytes: &[u8], secret: bool) -> Snapshot {
    ok(Snapshot::from_text(SourceKind::PlainText, bytes, secret))
}

fn entry(id: &EntityId, tier: SourceTier, snapshot: &Snapshot) -> SourceEntry {
    SourceEntry::from_snapshot(id.copy(), SourceScope::Work, tier, snapshot)
}

fn request(target: &EntityId, budget: u64) -> ContextRequest {
    ContextRequest {
        target: target.copy(),
        role: "writer".into(),
        budget_tokens: budget,
        requested_output_tokens: 100,
    }
}

fn secret_lines(receipt: &ContextReceipt) -> Vec<(String, bool, usize)> {
    let value = parse_json(&receipt.to_json()).unwrap();
    let Some(Json::Array(items)) = value.get("entries") else { panic!("entries") };
    items
        .iter()
        .map(|item| {
            let Json::Object(members) = item else { panic!("object") };
            let Some(Json::Text(digest)) = item.get("source_sha256") else { panic!("digest") };
            let Some(Json::Bool(sent)) = item.get("secret_transmitted") else { panic!("flag") };
            (digest.clone(), *sent, members.len())
        })
        .collect()
}

#[test]
fn secret_confirmation_is_consumed_only_by_a_successful_handoff() {
    let secret = text(b"secret reference", true);
    let oversized = text("ordinary reference ".repeat(100).as_bytes(), false);
    let secret_id = prefixed_uuid(EntityKind::Source);
    let other_id = prefixed_uuid(EntityKind::Source);
    let manifest = ok(SourceManifest::new(vec![
        entry(&secret_id, SourceTier::RequiredRaw, &secret),
        entry(&other_id, SourceTier::Compactable, &oversized),
    ]));
    let digest = secret.raw_sha256().to_string();
    let mut compiler = ok(ContextCompiler::new(manifest, vec![secret, oversized]));
    let target = prefixed_uuid(EntityKind::Chapter);
    ok(compiler.confirm_secret_transmission(SecretTransmission::after_human_confirmation(
        secret_id.copy(),
        digest.clone(),
    )));

    let error = err(compiler.compile(&request(&target, 200)));
    assert!(error.receipt().entries().iter().all(|line| !line.secret_transmitted()));

    let compiled = ok(compiler.compile(&request(&target, 4_000)));
    assert!(compiled.receipt().entries().iter().all(|line| !line.secret_transmitted()));
    let transmitted = ok(compiler.handoff(compiled));
    assert!(transmitted.receipt().entries().iter().any(|line| line.secret_transmitted()));
    let lines = secret_lines(transmitted.receipt());
    assert!(lines.contains(&(digest, true, 2)));
    assert!(!transmitted.receipt().to_json().contains(secret_id.as_str()));
    let exhausted = err(compiler.compile(&request(&target, 4_000)));
    assert_eq!(
        exhausted.to_text(),
        format!(
            "secret source {} requires a one-time confirmation before transmission",
            secret_id.as_str()
        )
    );
}

#[test]
fn handoff_marks_only_confirmed_duplicate_secret_sources_as_transmitted() {
    let secret = text(b"same secret", true);
    let confirmed_id = prefixed_uuid(EntityKind::Source);
    let unconfirmed_id = prefixed_uuid(EntityKind::Source);
    let manifest = ok(SourceManifest::new(vec![
        entry(&confirmed_id, SourceTier::RequiredRaw, &secret),
        entry(&unconfirmed_id, SourceTier::Optional, &secret),
    ]));
    let digest = secret.raw_sha256().to_string();
    let mut compiler = ok(ContextCompiler::new(manifest, vec![secret]));
    ok(compiler.confirm_secret_transmission(SecretTransmission::after_human_confirmation(
        confirmed_id,
        digest.clone(),
    )));
    let target = prefixed_uuid(EntityKind::Chapter);

    let compiled = ok(compiler.compile(&request(&target, 1_000)));
    assert_eq!(compiled.receipt().entries().len(), 2);
    assert_eq!(
        compiled.receipt().entries().iter().filter(|line| line.secret_transmitted()).count(),
        0
    );

    let transmitted = ok(compiler.handoff(compiled));

    assert_eq!(
        transmitted.receipt().entries().iter().filter(|line| line.secret_transmitted()).count(),
        1
    );
    assert_eq!(
        secret_lines(transmitted.receipt()),
        vec![(digest.clone(), true, 2), (digest, false, 2)]
    );
}

#[test]
fn handoff_rejects_context_created_by_a_different_compiler() {
    let secret = text(b"secret reference", true);
    let secret_id = prefixed_uuid(EntityKind::Source);
    let manifest =
        ok(SourceManifest::new(vec![entry(&secret_id, SourceTier::RequiredRaw, &secret)]));
    let digest = secret.raw_sha256().to_string();
    let mut compiler = ok(ContextCompiler::new(manifest, vec![secret]));
    let target = prefixed_uuid(EntityKind::Chapter);
    ok(compiler.confirm_secret_transmission(SecretTransmission::after_human_confirmation(
        secret_id, digest,
    )));
    let compiled = ok(compiler.compile(&request(&target, 1_000)));
    let mut other = ok(ContextCompiler::new(ok(SourceManifest::new(Vec::new())), Vec::new()));

    let error = err(other.handoff(compiled));

    assert_eq!(error.to_text(), "compiled context was not created by this context compiler");
    assert!(error.receipt().entries().iter().all(|line| !line.secret_transmitted()));
    compiler.release(error.into_context().unwrap());

    let again = ok(compiler.compile(&request(&target, 1_000)));
    let transmitted = ok(compiler.handoff(again));
    assert!(transmitted.receipt().entries().iter().any(|line| line.secret_transmitted()));
}

#[test]
fn required_sources_stop_a_small_budget() {
    let source = text("word ".repeat(400).as_bytes(), false);
    let id = prefixed_uuid(EntityKind::Source);
    let manifest = ok(SourceManifest::new(vec![entry(&id, SourceTier::RequiredRaw, &source)]));
    let mut compiler = ok(ContextCompiler::new(manifest, vec![source]));
    let target = prefixed_uuid(EntityKind::Chapter);
    let error = err(compiler.compile(&request(&target, 10)));
    assert_eq!(error.receipt().entries().len(), 1);
    assert!(error.receipt().context_sha256().is_none());
    let compiled = ok(compiler.compile(&request(&target, 5_000)));
    assert_eq!(
        compiled.receipt().entries()[0].disposition(),
        Some(CoverageDisposition::Raw)
    );
    assert_eq!(estimate_tokens(b""), 0);
}

#[test]
fn summaries_stand_in_for_long_sources() {
    let long = "word ".repeat(2_000);
    let source = text(long.as_bytes(), false);
    let id = prefixed_uuid(EntityKind::Source);
    let manifest = ok(SourceManifest::new(vec![entry(&id, SourceTier::Compactable, &source)]));
    let digest = source.raw_sha256().to_string();
    let end = long.len();
    let mut compiler = ok(ContextCompiler::new(manifest, vec![source])).with_summary(
        SourceSummary::new(id, digest, ByteRange::new(0, end), "summary".into()),
    );
    let target = prefixed_uuid(EntityKind::Chapter);
    let compiled = ok(compiler.compile(&request(&target, 600)));
    assert_eq!(
        compiled.receipt().entries()[0].disposition(),
        Some(CoverageDisposition::Compacted)
    );
    let size = compiled.estimated_tokens();
    let digest = compiled.sha256().to_string();
    let sent = ok(compiler.handoff(compiled));
    assert_eq!(sent.sha256(), digest);
    let (body, receipt) = sent.into_parts();
    assert!(body.contains("summary"));
    assert!(!body.contains("word word"));
    assert_eq!(body.len() as u64, size);
    assert_eq!(sha256_bytes(body.as_bytes()), digest);
    assert_eq!(receipt.context_sha256(), Some(digest.as_str()));
}

#[test]
fn stale_summaries_count_as_missing_ones() {
    let id = prefixed_uuid(EntityKind::Source);
    let target = prefixed_uuid(EntityKind::Chapter);
    let compiler = |secret: bool| {
        let source = text("本文です".as_bytes(), secret);
        let manifest = ok(SourceManifest::new(vec![entry(&id, SourceTier::Compactable, &source)]));
        ok(ContextCompiler::new(manifest, vec![source]))
    };
    let digest = text("本文です".as_bytes(), false).raw_sha256().to_string();
    let plain = ok(compiler(false).compile(&request(&target, 600)));
    let summary = |digest: &str, start: usize, end: usize, content: &str| {
        SourceSummary::new(id.copy(), digest.into(), ByteRange::new(start, end), content.into())
    };
    let stale = [
        summary("other", 0, 3, "short"),
        summary(&digest, 0, 3, ""),
        summary(&digest, 3, 3, "short"),
        summary(&digest, 0, 1, "short"),
        summary(&digest, 0, 99, "short"),
    ];
    for one in stale {
        let context = ok(compiler(false).with_summary(one).compile(&request(&target, 600)));
        assert_eq!(context.sha256(), plain.sha256());
        assert_eq!(context.estimated_tokens(), plain.estimated_tokens());
        assert_eq!(context.receipt().to_json(), plain.receipt().to_json());
    }
    let current = summary(&digest, 0, 3, "short");
    let context = ok(compiler(false).with_summary(current).compile(&request(&target, 600)));
    assert_ne!(context.sha256(), plain.sha256());
    let hidden = summary(&digest, 0, 3, "short");
    let with = err(compiler(true).with_summary(hidden).compile(&request(&target, 600)));
    let without = err(compiler(true).compile(&request(&target, 600)));
    assert_eq!(with.to_text(), without.to_text());
}

#[test]
fn chapter_context_is_compiled_from_stored_files() {
    let source = text(b"stored fact", false);
    let id = prefixed_uuid(EntityKind::Source);
    let recorded = entry(&id, SourceTier::RequiredRaw, &source);
    let files: Vec<FileEntry> = source
        .candidate_artifacts()
        .iter()
        .map(|file| FileEntry { path: file.path().to_string(), bytes: file.bytes().to_vec() })
        .collect();
    assert_eq!(files.len(), 1);
    let chapter = prefixed_uuid(EntityKind::Chapter);
    let manifest = ok(SourceManifest::new(vec![recorded]));
    let (body, receipt) =
        ok(compile_project_context(chapter.as_str(), AgentRole::Writer, manifest, &files, None));
    assert!(body.contains("stored fact"));
    let receipt = receipt.unwrap();
    assert_eq!(receipt.role(), "writer");
    assert_eq!(receipt.budget_tokens(), 1_000_000);
    assert_eq!(receipt.requested_output_tokens(), 20_000);
    let json = receipt.to_json();
    assert!(json.starts_with(&format!("{{\"target\":\"{}\",\"role\":\"writer\"", chapter.as_str())));
    assert!(json.contains("\"disposition\":\"raw\""));
    let none = ok(SourceManifest::new(Vec::new()));
    let (body, receipt) =
        ok(compile_project_context("chapter_1", AgentRole::Writer, none, &[], None));
    assert_eq!(body, "");
    assert!(receipt.is_none());
}

#[test]
fn stored_snapshot_reads_back_and_secret_is_not_stored() {
    let source = text("本文".as_bytes(), false);
    let files = source.candidate_artifacts();
    let back = ok(Snapshot::from_artifacts(
        SourceKind::PlainText,
        files[0].bytes(),
        files[0].bytes(),
        false,
        None,
    ));
    assert_eq!(back.text(), "本文");
    assert_eq!(back.raw_sha256(), source.raw_sha256());
    assert_eq!(source.raw_sha256(), sha256_bytes("本文".as_bytes()));
    assert_eq!(source.byte_len(), 6);
    let secret = text(b"x", true);
    assert!(secret.candidate_artifacts().is_empty());
    assert!(secret.reference().ephemeral);
    assert_eq!(
        err(Snapshot::from_text(SourceKind::PlainText, &[0xff], false)).kind(),
        SourceErrorKind::InvalidUtf8
    );
    assert_eq!(
        err(Snapshot::from_text(SourceKind::Pdf, b"x", false)).kind(),
        SourceErrorKind::UnsupportedFormat
    );
}

#[test]
fn manifest_refuses_bad_entries() {
    let source = text(b"x", false);
    let id = prefixed_uuid(EntityKind::Source);
    let twice = vec![
        entry(&id, SourceTier::Optional, &source),
        entry(&id, SourceTier::Optional, &source),
    ];
    assert_eq!(err(SourceManifest::new(twice)).kind(), SourceErrorKind::InvalidManifest);
    let wrong = entry(&prefixed_uuid(EntityKind::Scene), SourceTier::Optional, &source);
    assert_eq!(err(SourceManifest::new(vec![wrong])).kind(), SourceErrorKind::InvalidManifest);
    let bytes = b"---\nid: manifest_1\nsources: []\n---\n";
    let document = ok(ManifestDocument::parse(bytes, Ok(Vec::new())));
    assert!(document.manifest().entries().is_empty());
    assert_eq!(
        err(ManifestDocument::parse(bytes, Err("bad".into()))).to_text(),
        "invalid source manifest entries: bad"
    );
    assert_eq!(
        err(ManifestDocument::parse(b"plain", Ok(Vec::new()))).kind(),
        SourceErrorKind::InvalidManifest
    );
}

#[test]
fn manifest_compares_artifact_paths_by_component() {
    let source = text(b"x", false);
    let accepts = |path: String| {
        let mut one = entry(&prefixed_uuid(EntityKind::Source), SourceTier::Optional, &source);
        one.snapshot.raw_artifact = Some(path.clone());
        one.snapshot.content_artifact = Some(path);
        SourceManifest::new(vec![one]).is_ok()
    };
    let file = format!("{}.raw", source.raw_sha256());
    assert!(accepts(format!("資料/snapshots/{file}")));
    assert!(accepts(format!("資料//snapshots/./{file}")));
    assert!(accepts(format!("資料/snapshots/{file}/")));
    assert!(!accepts(format!("./資料/snapshots/{file}")));
    assert!(!accepts(format!("/資料/snapshots/{file}")));
    assert!(!accepts(format!("資料/../資料/snapshots/{file}")));
    assert!(!accepts(format!("資料/snapshots/x{file}")));
    assert!(same_path("/", "//"));
    assert!(!same_path("", "/"));
    assert!(!same_path("a/b", "a/B"));
}

#[test]
fn stored_files_bear_their_digests() {
    let pages = PdfPages {
        encrypted: false,
        pages: vec![PdfPage { number: 1, text: Ok("words".into()) }],
    };
    let snapshot = ok(snapshot_pdf(b"%PDF".to_vec(), Ok(pages), false));
    let stored = snapshot.candidate_artifacts();
    assert_eq!(stored.len(), 2);
    for file in &stored {
        assert_eq!(file.sha256(), sha256_bytes(file.bytes()));
    }
    let named = snapshot.reference();
    assert_eq!(named.raw_artifact.as_deref(), Some(stored[0].path()));
    assert_eq!(named.content_artifact.as_deref(), Some(stored[1].path()));
    assert_eq!(named.raw_sha256, stored[0].sha256());
    assert_eq!(named.content_sha256, stored[1].sha256());
    assert_eq!(stored[0].path(), format!("資料/snapshots/{}.raw", sha256_bytes(b"%PDF")));
    assert_eq!(stored[0].bytes(), b"%PDF");
    assert_eq!(stored[1].bytes(), b"words");
}

#[test]
fn scopes_apply_to_targets_and_roles() {
    let path = vec!["chapter_x".to_string(), "part_y".to_string()];
    assert!(SourceScope::Work.applies_to(&path, "writer"));
    assert!(SourceScope::Part("part_y".into()).applies_to(&path, "writer"));
    assert!(!SourceScope::Scene("scene_z".into()).applies_to(&path, "writer"));
    assert!(SourceScope::Role("writer".into()).applies_to(&path, "writer"));
    assert!(!SourceScope::Role("reviser".into()).applies_to(&path, "writer"));
}

#[test]
fn pdf_pages_need_text() {
    let page = |number: u32, text: &str| PdfPage { number, text: Ok(text.into()) };
    let pages = PdfPages { encrypted: false, pages: vec![page(1, "a"), page(2, "b")] };
    let snapshot = ok(snapshot_pdf(b"%PDF".to_vec(), Ok(pages), false));
    assert_eq!(snapshot.text(), "a\n\nb");
    assert_eq!(snapshot.kind(), SourceKind::Pdf);
    let blank = PdfPages { encrypted: false, pages: vec![page(7, " ")] };
    assert_eq!(
        err(snapshot_pdf(Vec::new(), Ok(blank), false)).to_text(),
        "ocr_required: page 7 has no extractable text"
    );
    let locked = PdfPages { encrypted: true, pages: Vec::new() };
    assert_eq!(
        err(snapshot_pdf(Vec::new(), Ok(locked), false)).kind(),
        SourceErrorKind::OcrRequired
    );
    let none = PdfPages { encrypted: false, pages: Vec::new() };
    assert_eq!(
        err(snapshot_pdf(Vec::new(), Ok(none), false)).to_text(),
        "ocr_required: PDF contains no extractable pages"
    );
    assert!(page(1, "a").has_text());
    assert!(!page(1, " ").has_text());
    assert!(!PdfPage { number: 1, text: Err("bad".into()) }.has_text());
    let behind = PdfPages { encrypted: false, pages: vec![page(1, "a"), page(2, ""), page(3, "c")] };
    assert_eq!(
        err(snapshot_pdf(Vec::new(), Ok(behind), false)).to_text(),
        "ocr_required: page 2 has no extractable text"
    );
    let failed = PdfPages {
        encrypted: false,
        pages: vec![PdfPage { number: 2, text: Err("bad".into()) }],
    };
    assert_eq!(
        err(snapshot_pdf(Vec::new(), Ok(failed), false)).to_text(),
        "ocr_required: page 2 cannot be extracted: bad"
    );
}

#[test]
fn dns_results_reject_a_mixed_public_and_loopback_answer() {
    let addresses =
        [IpAddress::V4(0x0101_0101), IpAddress::V4(0x7f00_0001), IpAddress::V6(0x7f00_0001)];
    assert!(validate_dns_addresses(&addresses).is_err());
}

#[test]
fn only_public_addresses_are_fetched() {
    assert!(is_public_ip(IpAddress::V4(0x0101_0101)));
    assert!(!is_public_ip(IpAddress::V4(0x0a00_0001)));
    assert!(!is_public_ip(IpAddress::V4(0xc0a8_0001)));
    assert!(!is_public_ip(IpAddress::V6(1)));
    assert!(!is_public_ip(IpAddress::V6(0xfe80 << 112)));
    assert!(validate_dns_addresses(&[IpAddress::V4(0x0101_0101)]).is_ok());
    assert!(validate_dns_addresses(&[]).is_err());
    assert_eq!(ok(validate_web_url("https://example.com")), "https://example.com/");
    for url in [
        "http://example.com/",
        "https://user@example.com/",
        "https://127.0.0.1/",
        "https://[::1]/",
        "https://localhost/",
        "nonsense",
    ] {
        assert_eq!(err(validate_web_url(url)).kind(), SourceErrorKind::UnsafeUrl, "{url}");
    }
}

fn html(body: &str) -> WebResponse {
    WebResponse::success(
        200,
        vec![
            Header { name: "Content-Type".into(), value: "text/html".into() },
            Header { name: "Set-Cookie".into(), value: "x".into() },
        ],
        body.as_bytes().to_vec(),
    )
}

#[test]
fn web_pages_become_markdown_snapshots() {
    let limits = WebSnapshotLimits::default();
    let page = html("<html><body><h1>Title</h1><p>Text</p></body></html>");
    let snapshot = ok(snapshot_web_at(
        "https://example.com/a",
        vec![WebResponse::redirect("/b".into()), page],
        &limits,
        false,
        Ok(1_700_000_000),
    ));
    assert!(snapshot.text().contains("# Title"));
    let web = snapshot.web_metadata().unwrap();
    assert_eq!(web.initial_url, "https://example.com/a");
    assert_eq!(web.final_url, "https://example.com/b");
    assert_eq!(web.redirect_chain, vec!["https://example.com/a".to_string(), "https://example.com/b".to_string()]);
    assert!(web.selected_headers.iter().all(|header| header.name != "set-cookie"));
    let stored = snapshot.candidate_artifacts();
    assert_eq!(stored.len(), 2);
    assert_eq!(stored[1].bytes(), snapshot.text().as_bytes());
    let live = ok(snapshot_web_from_responses(
        "https://example.com/a",
        vec![html("<p>x</p>")],
        &limits,
        false,
    ));
    assert!(live.text().contains('x'));
}

#[test]
fn web_limits_hold() {
    let limits = WebSnapshotLimits { max_redirects: 1, max_bytes: 4 };
    let loops = vec![WebResponse::redirect("/b".into()), WebResponse::redirect("/c".into())];
    assert_eq!(
        err(snapshot_web_at("https://example.com/", loops, &limits, false, Ok(0))).kind(),
        SourceErrorKind::Redirect
    );
    assert_eq!(
        err(snapshot_web_at("https://example.com/", vec![html("12345")], &limits, false, Ok(0)))
            .kind(),
        SourceErrorKind::TooLarge
    );
    assert!(accept_chunk(3, 1, &limits).is_ok());
    assert_eq!(err(accept_chunk(3, 2, &limits)).kind(), SourceErrorKind::TooLarge);
    let mut fetch = ok(WebFetch::start("https://example.com/"));
    assert!(matches!(
        ok(fetch.step(302, Some("https://example.org/x"), None, &limits)),
        FetchStep::Follow
    ));
    assert_eq!(fetch.current(), "https://example.org/x");
    let wide = WebSnapshotLimits { max_redirects: 9, max_bytes: 4 };
    let mut round = ok(WebFetch::start("https://example.com/"));
    ok(round.step(302, Some("/b"), None, &wide));
    let back = err(round.step(302, Some("/"), None, &wide));
    assert_eq!(back.to_text(), "web redirect loop detected");
    assert_eq!(round.current(), "https://example.com/b");
    let again = err(round.step(302, Some("/b"), None, &wide));
    assert_eq!(again.to_text(), "web redirect loop detected");
    assert!(matches!(ok(fetch.step(200, None, Some("4"), &limits)), FetchStep::Accept));
    assert_eq!(
        err(fetch.step(200, None, Some("5"), &limits)).kind(),
        SourceErrorKind::TooLarge
    );
    assert_eq!(err(fetch.step(500, None, None, &limits)).kind(), SourceErrorKind::Network);
    let kept = selected_headers(&[
        Header { name: "etag".into(), value: "1".into() },
        Header { name: "cookie".into(), value: "2".into() },
    ]);
    assert!(kept.iter().any(|header| header.name == "etag"));
    assert!(kept.iter().all(|header| header.name != "cookie"));
}

fn stat(inode: u64, len: u64) -> FileStat {
    FileStat {
        byte_len: len,
        device: 1,
        inode,
        modified_seconds: 10,
        modified_nanoseconds: 0,
        changed_seconds: 10,
        changed_nanoseconds: 0,
    }
}

fn frozen(list: &[(&str, &[u8])]) -> Table<Fingerprint> {
    let mut files: Table<Fingerprint> = Table::new();
    for (index, (path, bytes)) in list.iter().enumerate() {
        let seen = stat(index as u64, bytes.len() as u64);
        ok(collect_file(&mut files, path.to_string(), ok(Fingerprint::of(seen, bytes, seen))));
    }
    files
}

#[test]
fn grants_read_only_what_was_frozen() {
    let list: [(&str, &[u8]); 2] = [("a.md", b"one"), ("d/b.txt", b"two")];
    let grant = ok(PathGrant::freeze("/src".into(), GrantKind::Directory, frozen(&list)));
    assert_eq!(ok(grant.validate_path("d/../a.md", "/src", &frozen(&list))), "a.md");
    assert_eq!(ok(grant.validate_path("/src/d/b.txt", "/", &frozen(&list))), "d/b.txt");
    assert_eq!(
        err(grant.validate_path("/other/a.md", "/", &frozen(&list))).to_text(),
        "source path escapes its granted directory"
    );
    assert_eq!(
        err(grant.validate_path("/src/c.md", "/", &frozen(&list))).kind(),
        SourceErrorKind::GrantChanged
    );
    let changed: [(&str, &[u8]); 2] = [("a.md", b"ONE"), ("d/b.txt", b"two")];
    assert_eq!(
        err(grant.validate_path("/src/a.md", "/", &frozen(&changed))).to_text(),
        "the granted source set changed; request a new grant"
    );
    let print = ok(Fingerprint::of(stat(0, 3), b"one", stat(0, 3)));
    assert!(grant.read_file("a.md", &print, &frozen(&list)).is_ok());
    let other = ok(Fingerprint::of(stat(9, 3), b"one", stat(9, 3)));
    assert_eq!(
        err(grant.read_file("a.md", &other, &frozen(&list))).to_text(),
        "source changed while its granted snapshot was read"
    );
    assert_eq!(
        err(PathGrant::freeze("/".into(), GrantKind::Directory, frozen(&[]))).to_text(),
        "refusing a filesystem-root recursive source grant"
    );
    let file = ok(PathGrant::freeze("/src/a.md".into(), GrantKind::File, frozen(&[("", b"one")])));
    assert_eq!(ok(file.validate_path("a.md", "/src", &frozen(&[("", b"one")]))), "");
    assert!(file.validate_path("b.md", "/src", &frozen(&[("", b"one")])).is_err());
}

#[test]
fn files_that_change_while_read_are_refused() {
    assert_eq!(
        err(Fingerprint::of(stat(1, 3), b"one", stat(2, 3))).kind(),
        SourceErrorKind::GrantChanged
    );
    assert!(Fingerprint::of(stat(1, 3), b"four", stat(1, 3)).is_err());
    let mut files = frozen(&[("a", b"one")]);
    let print = ok(Fingerprint::of(stat(1, 3), b"one", stat(1, 3)));
    assert_eq!(
        err(collect_file(&mut files, "a".into(), print)).to_text(),
        "source grant contains duplicate relative paths"
    );
}

#[test]
fn granted_directories_refuse_odd_entries() {
    let mut directory = GrantDirectory::new();
    assert_eq!(ok(directory.collect_entry(Some("A.md"), EntryKind::File)), GrantStep::Read);
    assert_eq!(ok(directory.collect_entry(Some("d"), EntryKind::Directory)), GrantStep::Descend);
    assert_eq!(
        err(directory.collect_entry(Some("ａ.md"), EntryKind::File)).to_text(),
        "source grant contains Unicode/case-colliding path names"
    );
    assert_eq!(
        err(directory.collect_entry(Some("l"), EntryKind::Symlink)).to_text(),
        "source grants reject symbolic links"
    );
    assert_eq!(
        err(directory.collect_entry(None, EntryKind::File)).to_text(),
        "source grants require UTF-8 path names"
    );
    assert!(directory.collect_entry(Some("s"), EntryKind::Special).is_err());
}

#[test]
fn text_formats_are_known_by_extension() {
    assert_eq!(ok(text_kind("a/b.TXT")), SourceKind::PlainText);
    assert_eq!(ok(text_kind("b.markdown")), SourceKind::Markdown);
    assert!(text_kind(".md").is_err());
    assert!(text_kind("a.pdf").is_err());
    assert!(text_kind("a.md/..").is_err());
    assert_eq!(ok(ingest_path("x.md", b"hi", false)).text(), "hi");
    assert_eq!(err(ingest_path("x.md", &[0xff], false)).kind(), SourceErrorKind::InvalidUtf8);
    assert_eq!(absolute_lexical_path("../a/./b", "/x/y"), "/x/a/b");
    assert_eq!(absolute_lexical_path("/../..", "/x"), "/");
}
