use phemius::context::ByteRange;
use phemius::copycheck::{scan_normalized, AllowedSource, CopyPolicy, CopyRule};
use phemius::copytext::{normalize_clusters, read_clusters, Cluster, NormalizedText};
use phemius::cost::{split_ledger, BudgetLedger, LedgerEvent, MicroDollars};
use phemius::domain::{is_version_seven, prefixed_uuid, EntityId, EntityKind};
use phemius::findings::finding_id_from;
use phemius::grants::{GrantDirectory, GrantStep};
use phemius::project::{config_from, locate_frontmatter};
use phemius::session::{scan_journal, Checkpoint, SessionEvent, SessionJournal};
use phemius::sources::{Header, SourceError, SourceErrorKind};
use phemius::validation::EntryKind;
use phemius::web::{accept_url, record_web_snapshot, UrlParts, WebFetch};

fn url(scheme: &str, username: &str, password: Option<&str>, host: Option<&str>) -> UrlParts {
    UrlParts {
        text: "https://example.com/".into(),
        scheme: scheme.into(),
        username: username.into(),
        password: password.map(str::to_string),
        host: host.map(str::to_string),
    }
}

fn message<T>(result: Result<T, SourceError>) -> String {
    match result {
        Ok(_) => panic!("expected a failure"),
        Err(error) => error.to_text(),
    }
}

#[test]
fn parsed_urls_are_judged_by_their_parts() {
    let good = accept_url(url("https", "", None, Some("example.com")));
    assert_eq!(good.unwrap_or_else(|_| panic!("refused")), "https://example.com/");
    let refused = "web sources require HTTPS without userinfo";
    assert_eq!(message(accept_url(url("http", "", None, Some("example.com")))), refused);
    assert_eq!(message(accept_url(url("https", "u", None, Some("example.com")))), refused);
    assert_eq!(message(accept_url(url("https", "", Some("p"), Some("example.com")))), refused);
    assert_eq!(message(accept_url(url("https", "", None, None))), "web source URL has no host");
    let local = message(accept_url(url("https", "", None, Some("LocalHost"))));
    assert_eq!(local, "web source host is not publicly routable");
    let private = message(accept_url(url("https", "", None, Some("10.0.0.1"))));
    assert_eq!(private, "web source IP address is not publicly routable");
}

#[test]
fn converted_pages_become_snapshots() {
    let fetch = || WebFetch::start("https://example.com/a").unwrap_or_else(|_| panic!("refused"));
    let kept = || vec![Header { name: "etag".into(), value: "1".into() }];
    let page = record_web_snapshot(
        fetch(),
        kept(),
        b"<p>x</p>".to_vec(),
        Ok("x".into()),
        false,
        Ok(7),
    )
    .unwrap_or_else(|_| panic!("refused"));
    assert_eq!(page.text(), "x");
    let web = page.web_metadata().unwrap();
    assert_eq!(web.redirect_chain, vec!["https://example.com/a".to_string()]);
    assert_eq!(web.retrieved_unix_seconds, 7);
    let secret =
        record_web_snapshot(fetch(), kept(), Vec::new(), Ok("x".into()), true, Err("no".into()))
            .unwrap_or_else(|_| panic!("refused"));
    assert!(secret.web_metadata().is_none());
    assert_eq!(
        message(record_web_snapshot(
            fetch(),
            kept(),
            Vec::new(),
            Err("odd".into()),
            false,
            Ok(7)
        )),
        "failed to convert web snapshot to Markdown: odd"
    );
    assert_eq!(
        message(record_web_snapshot(
            fetch(),
            kept(),
            Vec::new(),
            Ok("x".into()),
            false,
            Err("early".into())
        )),
        "system clock predates the Unix epoch: early"
    );
}

#[test]
fn version_bits_are_checked() {
    let mut bytes = [0u8; 16];
    assert!(!is_version_seven(&bytes));
    bytes[6] = 0x71;
    bytes[8] = 0xbf;
    assert!(is_version_seven(&bytes));
    bytes[8] = 0xc0;
    assert!(!is_version_seven(&bytes));
    assert!(!is_version_seven(&bytes[..15]));
    assert_eq!(
        finding_id_from(&[0xff; 32]),
        "finding_ffffffff-ffff-7fff-bfff-ffffffffffff"
    );
}

#[test]
fn configuration_needs_both_fields() {
    let config = config_from(Some(255), Some("work".into())).unwrap();
    assert_eq!(config.format_version, 255);
    assert_eq!(config.work_id.as_str(), "work");
    assert!(config_from(Some(256), Some("work".into())).is_none());
    assert!(config_from(Some(-1), Some("work".into())).is_none());
    assert!(config_from(None, Some("work".into())).is_none());
    assert!(config_from(Some(1), None).is_none());
    assert_eq!(locate_frontmatter(b"---\na: 1\n---\nbody"), Ok((4, 9, 13)));
    assert_eq!(
        locate_frontmatter(b"---\na: 1\n").unwrap_err(),
        "frontmatter closing delimiter is missing"
    );
}

#[test]
fn folded_names_collide_once() {
    let mut directory = GrantDirectory::new();
    let mut step = |name: Option<&str>, kind| {
        directory.collect_folded(name.map(str::to_string), kind).map_err(|error| error.kind())
    };
    assert_eq!(step(Some("a"), EntryKind::Directory), Ok(GrantStep::Descend));
    assert_eq!(step(Some("b"), EntryKind::File), Ok(GrantStep::Read));
    assert_eq!(step(Some("a"), EntryKind::File), Err(SourceErrorKind::InvalidGrant));
    assert_eq!(step(Some("c"), EntryKind::Symlink), Err(SourceErrorKind::InvalidGrant));
    assert_eq!(step(Some("d"), EntryKind::Special), Err(SourceErrorKind::InvalidGrant));
    assert_eq!(step(None, EntryKind::File), Err(SourceErrorKind::InvalidGrant));
}

fn cluster(text: &str, start: usize) -> Cluster {
    let space = text == " ";
    Cluster {
        normal: text.into(),
        pieces: if space { Vec::new() } else { vec![text.into()] },
        word: !space,
        range: ByteRange::new(start, start + text.len()),
    }
}

fn words(text: &NormalizedText) -> Vec<Vec<(String, usize, usize)>> {
    text.word_runs
        .iter()
        .map(|run| {
            run.iter()
                .map(|token| (token.normalized.clone(), token.range.start, token.range.end))
                .collect()
        })
        .collect()
}

#[test]
fn clusters_form_words_and_runs() {
    let list = [cluster("a", 0), cluster("b", 1), cluster(" ", 2), cluster("c", 3)];
    let text = normalize_clusters(&list);
    assert_eq!(words(&text), vec![vec![("ab".to_string(), 0, 2), ("c".to_string(), 3, 4)]]);
    assert_eq!(text.characters.len(), 3);
    assert_eq!(text.word_char_runs[0].word_starts, vec![0, 3]);
    assert!(text.cjk_runs.is_empty());
    let mixed = normalize_clusters(&[cluster("あ", 0), cluster("い", 3), cluster("x", 6)]);
    assert_eq!(mixed.cjk_runs.len(), 1);
    assert_eq!(mixed.cjk_runs[0].len(), 2);
    assert_eq!(words(&mixed), vec![vec![("x".to_string(), 6, 7)]]);
    let read = read_clusters("A b");
    assert_eq!(read.len(), 3);
    assert_eq!(read[0].normal, "a");
    assert!(read[1].pieces.is_empty());
    assert_eq!(read[2].range, ByteRange::new(2, 3));
}

#[test]
fn normalized_texts_are_compared() {
    let policy = CopyPolicy { exact_cjk_graphemes: 3, ..CopyPolicy::default() };
    let source = AllowedSource::plain("s".into(), "あいう".into());
    let three = |offset: usize| {
        normalize_clusters(&[
            cluster("あ", offset),
            cluster("い", offset + 3),
            cluster("う", offset + 6),
        ])
    };
    let mut used: usize = 0;
    let found = scan_normalized(&three(10), &three(0), &source, &policy, &mut used).unwrap();
    assert_eq!(found.len(), 1);
    assert_eq!(found[0].rule, CopyRule::ContiguousCjk);
    assert_eq!(found[0].manuscript_range, ByteRange::new(10, 19));
    assert_eq!(found[0].source_range, ByteRange::new(0, 9));
    let other = normalize_clusters(&[cluster("あ", 0), cluster("う", 3), cluster("い", 6)]);
    assert!(scan_normalized(&other, &three(0), &source, &policy, &mut used).unwrap().is_empty());
}

#[test]
fn appended_records_are_read_back() {
    let mut bytes = Vec::new();
    let mut journal = SessionJournal::create("j".into());
    for text in ["first", "second\nline"] {
        let event = SessionEvent::UserInstruction { text: text.into() };
        let offset = bytes.len() as u64;
        bytes.extend_from_slice(event.to_json().as_bytes());
        bytes.push(b'\n');
        journal.append(event, offset);
    }
    let scan = scan_journal(&bytes);
    assert_eq!(scan.lines.len(), 2);
    let (offset, hash) = scan.last_event().unwrap();
    assert_eq!(journal.last_event(), Some((offset, hash.as_str())));
    let checkpoint = |journal: &SessionJournal| {
        Checkpoint::from_journal(
            journal,
            Vec::new(),
            Vec::new(),
            Vec::new(),
            Vec::new(),
            Vec::new(),
            Vec::new(),
            MicroDollars::zero(),
        )
        .unwrap()
    };
    assert!(journal.write_checkpoint(&scan, &checkpoint(&journal)).is_ok());
    let kept = checkpoint(&journal);
    let mut torn = bytes.clone();
    torn.extend_from_slice(b"{\"event\"");
    let cut = scan_journal(&torn);
    assert_eq!(cut.complete_len, bytes.len());
    assert!(journal.read_checkpoint(&cut, checkpoint(&journal)).is_ok());
    bytes.extend_from_slice(b"{}\n");
    assert_eq!(
        journal.read_checkpoint(&scan_journal(&bytes), kept).unwrap_err(),
        "checkpoint does not match the current session journal"
    );
}

#[test]
fn stored_charges_rebuild_the_ledger() {
    let mut ledger = BudgetLedger::new(MicroDollars::zero(), MicroDollars::zero());
    let id = prefixed_uuid(EntityKind::Request);
    let reservation =
        ledger.reserve_for(id.copy(), "chapter\none", MicroDollars::new(6_000_000)).unwrap();
    let mut bytes = LedgerEvent::Reserved { reservation: reservation.copy() }.to_line().into_bytes();
    ledger.settle(&id, MicroDollars::new(5)).unwrap();
    let settled = LedgerEvent::Settled { request_id: id.copy(), actual_cost: MicroDollars::new(5) };
    bytes.extend_from_slice(settled.to_line().as_bytes());
    let lines = split_ledger(&bytes).unwrap();
    assert_eq!(lines.len(), 2);
    let mut again = BudgetLedger::new(MicroDollars::zero(), MicroDollars::zero());
    again.apply(LedgerEvent::Reserved { reservation: reservation.copy() }).unwrap();
    again
        .apply(LedgerEvent::Settled {
            request_id: EntityId::from_stored(id.as_str().into()),
            actual_cost: MicroDollars::new(5),
        })
        .unwrap();
    assert_eq!(again.totals("chapter\none"), ledger.totals("chapter\none"));
    ledger.unsettle(&reservation);
    assert_eq!(ledger.totals("chapter\none").unwrap().0.as_u64(), 6_000_000);
    bytes.extend_from_slice(b"{");
    assert_eq!(split_ledger(&bytes).unwrap_err(), "cost ledger has a truncated final event");
}

#[test]
fn ledgers_are_opened_from_their_events() {
    let mut ledger = BudgetLedger::new(MicroDollars::new(1), MicroDollars::new(2));
    let held = ledger.reserve("c", MicroDollars::new(7)).unwrap();
    let reserved = || Some(LedgerEvent::Reserved { reservation: held.copy() });
    let settled = || {
        Some(LedgerEvent::Settled {
            request_id: held.request_id.copy(),
            actual_cost: MicroDollars::new(3),
        })
    };
    let open = |events| {
        BudgetLedger::open_with_costs(MicroDollars::new(1), MicroDollars::new(2), events)
    };
    let opened = open(vec![reserved(), settled()]).unwrap();
    let (chapter, run) = opened.totals("c").unwrap();
    assert_eq!((chapter.as_u64(), run.as_u64()), (4, 5));
    assert_eq!(
        open(vec![reserved(), None, reserved()]).err(),
        Some("invalid cost ledger event".to_string())
    );
    assert_eq!(
        open(vec![reserved(), reserved(), None]).err(),
        Some("duplicate reservation event".to_string())
    );
    assert_eq!(open(vec![settled()]).err(), Some("reservation is unknown".to_string()));
}
