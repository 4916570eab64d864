//! Copies of a source that a scan finds.
use vstd::prelude::*;
use vstd::utf8::valid_utf8;
use crate::context::ByteRange;
use crate::copycheck::{exact_finding, finding_order, findings_from, fixed_windows, is_exempt_range, no_exact_finding_means_no_exact_copy, open_windows, run_windows, scan_order, scan_result, source_order, source_result, window_range, windows_agree, CopyPolicy, CopyRule, FindingModel, IndexedWindow, SourceModel};
use crate::copytext::{cjk_finished, cjk_of, cluster_added, cluster_of, clusters_of, has_cjk, is_cjk_char, is_ignorable, is_spacing, normal_form, normalized, state_after, tokens_of, words_finished, ClusterModel, NormalModel, NormalState, TokenModel};
use crate::order::{ordered_by, ordering_keeps_items};
use crate::paths::FileModel;
use crate::text::{text_of, utf8};
use crate::unicode::{category_code, folded, grapheme_offsets, grapheme_pieces, lowercase, lowered, nfkc};
use crate::workflow::chapter::{gate_sources, quality_error};

verus! {

/// Every hiragana and katakana letter, the mark of a long vowel, every ideograph of the unified block
/// and of its first extension, and every Hangul syllable counts as Chinese, Japanese or Korean.
pub proof fn kana_ideographs_and_hangul_are_cjk(c: char)
    ensures
        0x3041 <= c as u32 <= 0x3096 ==> is_cjk_char(c),
        0x30a1 <= c as u32 <= 0x30fa ==> is_cjk_char(c),
        c as u32 == 0x30fc ==> is_cjk_char(c),
        0x4e00 <= c as u32 <= 0x9fff ==> is_cjk_char(c),
        0x3400 <= c as u32 <= 0x4dbf ==> is_cjk_char(c),
        0xac00 <= c as u32 <= 0xd7a3 ==> is_cjk_char(c),
{
}

/// So does every Hangul letter, every Bopomofo letter, every half-width katakana letter, every
/// compatibility ideograph and every ideograph of the supplementary planes.
pub proof fn letters_and_rare_ideographs_are_cjk(c: char)
    ensures
        0x1100 <= c as u32 <= 0x11ff ==> is_cjk_char(c),
        0x3105 <= c as u32 <= 0x312f ==> is_cjk_char(c),
        0x3131 <= c as u32 <= 0x318e ==> is_cjk_char(c),
        0xa960 <= c as u32 <= 0xa97c ==> is_cjk_char(c),
        0xd7b0 <= c as u32 <= 0xd7fb ==> is_cjk_char(c),
        0xf900 <= c as u32 <= 0xfaff ==> is_cjk_char(c),
        0xff66 <= c as u32 <= 0xff9d ==> is_cjk_char(c),
        0x20000 <= c as u32 <= 0x2a6df ==> is_cjk_char(c),
        0x2a700 <= c as u32 <= 0x2ebe0 ==> is_cjk_char(c),
        0x2f800 <= c as u32 <= 0x2fa1f ==> is_cjk_char(c),
        0x30000 <= c as u32 <= 0x323af ==> is_cjk_char(c),
{
}

/// Nothing below the Hangul letters counts as Chinese, Japanese or Korean, nor do general
/// punctuation, symbols, the ideographic space and its punctuation, emoji or marks.
pub proof fn other_scripts_are_not_cjk(c: char)
    ensures
        (c as u32) < 0x1100 ==> !is_cjk_char(c),
        0x1200 <= c as u32 <= 0x303f ==> !is_cjk_char(c),
        0x3190 <= c as u32 <= 0x33ff ==> !is_cjk_char(c),
        0x4dc0 <= c as u32 <= 0x4dff ==> !is_cjk_char(c),
        0xa000 <= c as u32 <= 0xa95f ==> !is_cjk_char(c),
        0xa980 <= c as u32 <= 0xabff ==> !is_cjk_char(c),
        0xfb00 <= c as u32 <= 0xff65 ==> !is_cjk_char(c),
        0xff9e <= c as u32 <= 0x1ffff ==> !is_cjk_char(c),
        c as u32 >= 0x323b0 ==> !is_cjk_char(c),
{
}

/// Whether a character is a hiragana or katakana letter, the mark of a long vowel, an ideograph of
/// the unified block or a Hangul syllable.
pub open spec fn is_east_asian_letter(c: char) -> bool {
    ||| 0x3041 <= c as u32 <= 0x3096
    ||| 0x30a1 <= c as u32 <= 0x30fa
    ||| c as u32 == 0x30fc
    ||| 0x4e00 <= c as u32 <= 0x9fff
    ||| 0xac00 <= c as u32 <= 0xd7a3
}

/// Whether a cluster is made of such characters and Unicode leaves it as it is: form KC and lower
/// case do not change it, it is no punctuation, and it is one cluster by itself.
pub open spec fn is_plain(cluster: Seq<char>) -> bool {
    &&& cluster.len() > 0
    &&& forall|i: int|
        0 <= i < cluster.len() ==> is_east_asian_letter(#[trigger] cluster[i]) && lowercase(
            cluster[i],
        ) == seq![cluster[i]] && category_code(cluster[i]) == 0
    &&& nfkc(cluster) == cluster
    &&& grapheme_pieces(cluster) == seq![cluster]
}

pub(crate) proof fn lemma_lowered(text: Seq<char>)
    requires
        forall|i: int| 0 <= i < text.len() ==> lowercase(#[trigger] text[i]) == seq![text[i]],
    ensures
        lowered(text) == text,
    decreases text.len(),
{
    if text.len() == 0 {
        assert(text =~= Seq::<char>::empty());
    } else {
        let head = text.drop_last();
        assert forall|i: int| 0 <= i < head.len() implies lowercase(#[trigger] head[i]) == seq![
            head[i],
        ] by {
            assert(head[i] == text[i]);
        }
        lemma_lowered(head);
        assert(text.last() == text[text.len() - 1]);
        assert(head + seq![text.last()] =~= text);
    }
}

pub(crate) proof fn lemma_all_kept<T>(list: Seq<T>, keep: spec_fn(T) -> bool)
    requires
        forall|i: int| 0 <= i < list.len() ==> keep(#[trigger] list[i]),
    ensures
        list.filter(keep) == list,
    decreases list.len(),
{
    reveal(Seq::filter);
    if list.len() == 0 {
        assert(list.filter(keep) =~= list);
    } else {
        let head = list.drop_last();
        assert forall|i: int| 0 <= i < head.len() implies keep(#[trigger] head[i]) by {
            assert(head[i] == list[i]);
        }
        lemma_all_kept(head, keep);
        assert(keep(list[list.len() - 1]));
        assert(head.push(list.last()) =~= list);
    }
}

proof fn lemma_plain_cluster(start: usize, cluster: Seq<char>)
    requires
        is_plain(cluster),
    ensures
        cluster_of(start, cluster).normal == cluster,
        cluster_of(start, cluster).pieces == seq![cluster],
        cjk_of(seq![cluster]) == seq![cluster],
{
    lemma_lowered(cluster);
    assert(folded(cluster) == cluster);
    let solid = |c: char| !is_ignorable(c);
    assert forall|i: int| 0 <= i < cluster.len() implies solid(#[trigger] cluster[i]) by {
        assert(is_east_asian_letter(cluster[i]));
    }
    lemma_all_kept(cluster, solid);
    assert(normal_form(cluster) == cluster);
    assert(!is_spacing(cluster[0])) by {
        assert(is_east_asian_letter(cluster[0]));
    }
    let one = seq![cluster];
    let shown = |piece: Seq<char>| !crate::copytext::all_spacing(piece);
    assert(shown(one[0]));
    lemma_all_kept(one, shown);
    let written = |piece: Seq<char>| has_cjk(piece);
    assert(is_east_asian_letter(cluster[0]));
    assert(is_cjk_char(cluster[0]));
    assert(written(one[0]));
    lemma_all_kept(one, written);
}

/// Whether a run has some tokens behind each other from a place on.
pub open spec fn run_holds(run: Seq<TokenModel>, part: Seq<TokenModel>, p: int) -> bool {
    &&& 0 <= p && p + part.len() <= run.len()
    &&& forall|t: int| 0 <= t < part.len() ==> #[trigger] run[p + t] == part[t]
}

/// Whether one of some runs has some tokens behind each other.
pub open spec fn runs_hold(all: Seq<Seq<TokenModel>>, part: Seq<TokenModel>) -> bool {
    exists|r: int, p: int| 0 <= r < all.len() && #[trigger] run_holds(all[r], part, p)
}

spec fn state_holds(s: NormalState, part: Seq<TokenModel>) -> bool {
    runs_hold(s.cjk_runs, part) || exists|p: int| #[trigger] run_holds(s.cjk, part, p)
}

pub(crate) proof fn lemma_runs_push(all: Seq<Seq<TokenModel>>, run: Seq<TokenModel>, part: Seq<TokenModel>)
    ensures
        runs_hold(all, part) ==> runs_hold(all.push(run), part),
        (exists|p: int| #[trigger] run_holds(run, part, p)) ==> runs_hold(all.push(run), part),
{
    let more = all.push(run);
    if runs_hold(all, part) {
        let (r, p) = choose|r: int, p: int|
            0 <= r < all.len() && #[trigger] run_holds(all[r], part, p);
        assert(run_holds(more[r], part, p));
    }
    if exists|p: int| #[trigger] run_holds(run, part, p) {
        let p = choose|p: int| #[trigger] run_holds(run, part, p);
        assert(run_holds(more[all.len() as int], part, p));
    }
}

proof fn lemma_finished_holds(s: NormalState, part: Seq<TokenModel>)
    requires
        state_holds(s, part),
        part.len() > 0,
    ensures
        state_holds(cjk_finished(s), part),
        runs_hold(cjk_finished(s).cjk_runs, part),
{
    lemma_runs_push(s.cjk_runs, s.cjk, part);
    if !runs_hold(s.cjk_runs, part) {
        let p = choose|p: int| #[trigger] run_holds(s.cjk, part, p);
        assert(s.cjk.len() > 0);
    }
}

proof fn lemma_added_holds(s: NormalState, cluster: ClusterModel, part: Seq<TokenModel>)
    requires
        state_holds(s, part),
        part.len() > 0,
    ensures
        state_holds(cluster_added(s, cluster), part),
{
    lemma_finished_holds(s, part);
    let next = cluster_added(s, cluster);
    let cjk = cjk_of(cluster.pieces);
    if cluster.normal.len() > 0 && cluster.pieces.len() > 0 {
        if cjk.len() > 0 {
            assert(next.cjk_runs == s.cjk_runs);
            assert(next.cjk == s.cjk + tokens_of(cjk, cluster.range));
            if !runs_hold(s.cjk_runs, part) {
                let p = choose|p: int| #[trigger] run_holds(s.cjk, part, p);
                assert(run_holds(next.cjk, part, p)) by {
                    assert forall|t: int| 0 <= t < part.len() implies #[trigger] next.cjk[p + t]
                        == part[t] by {
                        assert(s.cjk[p + t] == part[t]);
                    }
                }
            }
        } else {
            assert(next.cjk_runs == cjk_finished(s).cjk_runs);
        }
    } else {
        assert(next.cjk_runs == s.cjk_runs && next.cjk == s.cjk);
    }
}

proof fn lemma_later_holds(clusters: Seq<ClusterModel>, from: int, n: int, part: Seq<TokenModel>)
    requires
        0 <= from <= n <= clusters.len(),
        state_holds(state_after(clusters, from), part),
        part.len() > 0,
    ensures
        state_holds(state_after(clusters, n), part),
    decreases n - from,
{
    if from < n {
        lemma_later_holds(clusters, from, n - 1, part);
        lemma_added_holds(state_after(clusters, n - 1), clusters[n - 1], part);
    }
}

/// The tokens of clusters that stand behind each other.
pub open spec fn cluster_tokens(text: Seq<char>, i: int, n: int) -> Seq<TokenModel> {
    Seq::new(
        n as nat,
        |t: int| (grapheme_offsets(text)[i + t].1, clusters_of(text)[i + t].range),
    )
}

proof fn lemma_plain_clusters(text: Seq<char>, i: int, n: int)
    requires
        0 <= i && 0 <= n && i + n <= grapheme_offsets(text).len(),
        forall|t: int| i <= t < i + n ==> is_plain((#[trigger] grapheme_offsets(text)[t]).1),
    ensures
        ({
            let s = state_after(clusters_of(text), i + n);
            run_holds(s.cjk, cluster_tokens(text, i, n), s.cjk.len() - n)
        }),
    decreases n,
{
    let clusters = clusters_of(text);
    let s = state_after(clusters, i + n);
    if n > 0 {
        lemma_plain_clusters(text, i, n - 1);
        let before = state_after(clusters, i + n - 1);
        let item = grapheme_offsets(text)[i + n - 1];
        let cluster = clusters[i + n - 1];
        assert(is_plain(item.1));
        assert(cluster == cluster_of(item.0, item.1));
        lemma_plain_cluster(item.0, item.1);
        assert(s == cluster_added(before, cluster));
        assert(s.cjk == before.cjk + tokens_of(seq![item.1], cluster.range));
        let part = cluster_tokens(text, i, n);
        let less = cluster_tokens(text, i, n - 1);
        let p = s.cjk.len() - n;
        assert forall|t: int| 0 <= t < part.len() implies #[trigger] s.cjk[p + t] == part[t] by {
            if t < n - 1 {
                assert(before.cjk[p + t] == less[t]);
            }
        }
    }
}

proof fn lemma_run_is_found(text: Seq<char>, i: int, n: int)
    requires
        0 <= i && 0 < n && i + n <= grapheme_offsets(text).len(),
        forall|t: int| i <= t < i + n ==> is_plain((#[trigger] grapheme_offsets(text)[t]).1),
    ensures
        runs_hold(normalized(text).cjk_runs, cluster_tokens(text, i, n)),
{
    let clusters = clusters_of(text);
    let part = cluster_tokens(text, i, n);
    lemma_plain_clusters(text, i, n);
    let s = state_after(clusters, i + n);
    assert(run_holds(s.cjk, part, s.cjk.len() - n));
    lemma_later_holds(clusters, i + n, clusters.len() as int, part);
    let last = state_after(clusters, clusters.len() as int);
    let t = words_finished(last);
    assert(t.cjk == last.cjk && t.cjk_runs == last.cjk_runs);
    assert(state_holds(t, part));
    lemma_finished_holds(t, part);
}

/// Whether the runs of a text can be numbered by machine integers.
pub open spec fn is_countable(all: Seq<Seq<TokenModel>>) -> bool {
    all.len() <= usize::MAX && forall|r: int|
        0 <= r < all.len() ==> (#[trigger] all[r]).len() <= usize::MAX
}

proof fn lemma_window(all: Seq<Seq<TokenModel>>, width: int, r: int, p: int) -> (k: int)
    requires
        0 <= r < all.len(),
        0 < width,
        0 <= p && p + width <= all[r].len(),
    ensures
        0 <= k < fixed_windows(all, width).len(),
        fixed_windows(all, width)[k] == (IndexedWindow {
            run: r as usize,
            start: p as usize,
            end: (p + width) as usize,
        }),
    decreases all.len(),
{
    let head = fixed_windows(all.drop_last(), width);
    let tail = run_windows(all.len() - 1, all.last().len() as int, width);
    assert(fixed_windows(all, width) == head + tail);
    if r == all.len() - 1 {
        assert(tail[p] == (IndexedWindow {
            run: r as usize,
            start: p as usize,
            end: (p + width) as usize,
        }));
        head.len() + p
    } else {
        let k = lemma_window(all.drop_last(), width, r, p);
        k
    }
}

pub(crate) proof fn lemma_copy_is_found(
    m_runs: Seq<Seq<TokenModel>>,
    s_runs: Seq<Seq<TokenModel>>,
    source: SourceModel,
    rule: CopyRule,
    a: Seq<TokenModel>,
    b: Seq<TokenModel>,
)
    requires
        a.len() > 0,
        a.len() == b.len(),
        runs_hold(m_runs, a),
        runs_hold(s_runs, b),
        forall|t: int| 0 <= t < a.len() ==> (#[trigger] a[t]).0 == b[t].0,
        is_countable(m_runs),
        is_countable(s_runs),
        !is_exempt_range(
            source.exempt,
            ByteRange { start: b[0].1.start, end: b[b.len() - 1].1.end },
        ),
    ensures
        exact_finding(m_runs, s_runs, source, a.len() as int, rule) matches Some(finding)
            && finding.blocking && finding.rule == rule && finding.source_id == source.id,
{
    let width = a.len() as int;
    let (r, p) = choose|r: int, p: int|
        0 <= r < m_runs.len() && #[trigger] run_holds(m_runs[r], a, p);
    let (q, o) = choose|q: int, o: int|
        0 <= q < s_runs.len() && #[trigger] run_holds(s_runs[q], b, o);
    assert(m_runs[r].len() <= usize::MAX && s_runs[q].len() <= usize::MAX);
    let i = lemma_window(m_runs, width, r, p);
    let j = lemma_window(s_runs, width, q, o);
    let windows = fixed_windows(m_runs, width);
    let theirs = fixed_windows(s_runs, width);
    let w = theirs[j];
    assert(s_runs[q][o + 0] == b[0]);
    assert(s_runs[q][o + (width - 1)] == b[width - 1]);
    assert(window_range(s_runs, w) == (ByteRange {
        start: b[0].1.start,
        end: b[b.len() - 1].1.end,
    }));
    let free = |w: IndexedWindow| !is_exempt_range(source.exempt, window_range(s_runs, w));
    assert(free(theirs[j]));
    theirs.lemma_filter_contains(free, j);
    let sources = open_windows(s_runs, theirs, source.exempt);
    let l = choose|l: int| 0 <= l < sources.len() && sources[l] == w;
    assert(windows_agree(m_runs, windows[i], s_runs, sources[l], width)) by {
        assert forall|k: int| 0 <= k < width implies (#[trigger] m_runs[r][p + k]).0
            == s_runs[q][o + k].0 by {
            assert(m_runs[r][p + k] == a[k]);
            assert(s_runs[q][o + k] == b[k]);
        }
    }
    if exact_finding(m_runs, s_runs, source, width, rule) is None {
        no_exact_finding_means_no_exact_copy(m_runs, s_runs, source, width, rule, i, l);
    }
}

/// Whether two texts share clusters behind each other, each of them a plain East Asian one.
pub open spec fn share_plain_clusters(a: Seq<char>, i: int, b: Seq<char>, j: int, n: int) -> bool {
    &&& 0 <= i && i + n <= grapheme_offsets(a).len()
    &&& 0 <= j && j + n <= grapheme_offsets(b).len()
    &&& forall|t: int|
        i <= t < i + n ==> is_plain((#[trigger] grapheme_offsets(a)[t]).1)
            && grapheme_offsets(a)[t].1 == grapheme_offsets(b)[j + t - i].1
}

/// Where clusters of a text lie, from the first byte of the first to the last byte of the last.
pub open spec fn clusters_range(text: Seq<char>, i: int, n: int) -> ByteRange {
    let last = grapheme_offsets(text)[i + n - 1];
    ByteRange {
        start: grapheme_offsets(text)[i].0,
        end: (last.0 + utf8(last.1).len()) as usize,
    }
}

/// The policy by which chapters are held against their sources.
pub open spec fn chapter_policy() -> CopyPolicy {
    CopyPolicy {
        exact_cjk_graphemes: 80,
        exact_words: 40,
        ngram_size: 8,
        ngram_cjk_window: 160,
        ngram_word_window: 80,
        ngram_overlap_percent: 85,
    }
}

proof fn lemma_pair_finds(m: Seq<char>, source: SourceModel, i: int, j: int, policy: CopyPolicy, used: int)
    requires
        policy.exact_cjk_graphemes > 0,
        share_plain_clusters(m, i, source.text, j, policy.exact_cjk_graphemes as int),
        !is_exempt_range(
            source.exempt,
            clusters_range(source.text, j, policy.exact_cjk_graphemes as int),
        ),
        is_countable(normalized(m).cjk_runs),
        is_countable(normalized(source.text).cjk_runs),
    ensures
        source_result(normalized(m), source, policy, used) matches Ok((list, total)) && total == used
            && list.len() > 0 && list[0].blocking && list[0].rule == CopyRule::ContiguousCjk
            && list[0].source_id == source.id,
{
    let n = policy.exact_cjk_graphemes as int;
    let a = cluster_tokens(m, i, n);
    let b = cluster_tokens(source.text, j, n);
    assert forall|t: int| j <= t < j + n implies is_plain(
        (#[trigger] grapheme_offsets(source.text)[t]).1,
    ) by {
        let u = i + t - j;
        assert(is_plain(grapheme_offsets(m)[u].1));
        assert(grapheme_offsets(m)[u].1 == grapheme_offsets(source.text)[j + u - i].1);
    }
    lemma_run_is_found(m, i, n);
    lemma_run_is_found(source.text, j, n);
    assert forall|t: int| 0 <= t < a.len() implies (#[trigger] a[t]).0 == b[t].0 by {
        let u = i + t;
        assert(is_plain(grapheme_offsets(m)[u].1));
        assert(grapheme_offsets(m)[u].1 == grapheme_offsets(source.text)[j + u - i].1);
    }
    lemma_copy_is_found(
        normalized(m).cjk_runs,
        normalized(source.text).cjk_runs,
        source,
        CopyRule::ContiguousCjk,
        a,
        b,
    );
}

spec fn has_copy(list: Seq<FindingModel>, id: Seq<char>) -> bool {
    exists|k: int|
        0 <= k < list.len() && (#[trigger] list[k]).blocking && list[k].rule
            == CopyRule::ContiguousCjk && list[k].source_id == id
}

proof fn lemma_findings_grow(
    m: NormalModel,
    sources: Seq<SourceModel>,
    policy: CopyPolicy,
    k: int,
    found: Seq<FindingModel>,
    used: int,
    id: Seq<char>,
)
    requires
        0 <= k <= sources.len(),
        has_copy(found, id),
    ensures
        findings_from(m, sources, policy, k, found, used) matches Ok(list) ==> has_copy(list, id),
    decreases sources.len() - k,
{
    if k < sources.len() {
        match source_result(m, sources[scan_order(sources)[k]], policy, used) {
            Err(error) => {},
            Ok((more, total)) => {
                let p = choose|p: int|
                    0 <= p < found.len() && (#[trigger] found[p]).blocking && found[p].rule
                        == CopyRule::ContiguousCjk && found[p].source_id == id;
                assert((found + more)[p] == found[p]);
                lemma_findings_grow(m, sources, policy, k + 1, found + more, total, id);
            },
        }
    }
}

proof fn lemma_findings_reach(
    text: Seq<char>,
    sources: Seq<SourceModel>,
    policy: CopyPolicy,
    k: int,
    found: Seq<FindingModel>,
    used: int,
    q: int,
    i: int,
    j: int,
)
    requires
        0 <= k <= q < sources.len(),
        policy.exact_cjk_graphemes > 0,
        ({
            let source = sources[scan_order(sources)[q]];
            let n = policy.exact_cjk_graphemes as int;
            &&& share_plain_clusters(text, i, source.text, j, n)
            &&& !is_exempt_range(source.exempt, clusters_range(source.text, j, n))
            &&& is_countable(normalized(text).cjk_runs)
            &&& is_countable(normalized(source.text).cjk_runs)
        }),
    ensures
        findings_from(normalized(text), sources, policy, k, found, used) matches Ok(list)
            ==> has_copy(list, sources[scan_order(sources)[q]].id),
    decreases q - k,
{
    let m = normalized(text);
    let source = sources[scan_order(sources)[k]];
    match source_result(m, source, policy, used) {
        Err(error) => {},
        Ok((more, total)) => {
            if k < q {
                lemma_findings_reach(
                    text,
                    sources,
                    policy,
                    k + 1,
                    found + more,
                    total,
                    q,
                    i,
                    j,
                );
            } else {
                lemma_pair_finds(text, source, i, j, policy, used);
                assert((found + more)[found.len() as int] == more[0]);
                lemma_findings_grow(m, sources, policy, k + 1, found + more, total, source.id);
            }
        },
    }
}

/// A manuscript that shares a run of East Asian letters with a source, as long as the policy counts
/// as a copy and outside what the source may be quoted by, never passes: the scan reports a
/// blocking finding against that source, or stops at its limits. Where there is no other source, it
/// reports the finding.
pub proof fn shared_run_is_a_blocking_copy(
    text: Seq<char>,
    sources: Seq<SourceModel>,
    policy: CopyPolicy,
    e: int,
    i: int,
    j: int,
)
    requires
        0 <= e < sources.len(),
        policy.exact_cjk_graphemes > 0,
    ensures
        ({
            let n = policy.exact_cjk_graphemes as int;
            &&& share_plain_clusters(text, i, sources[e].text, j, n)
            &&& !is_exempt_range(sources[e].exempt, clusters_range(sources[e].text, j, n))
            &&& is_countable(normalized(text).cjk_runs)
            &&& is_countable(normalized(sources[e].text).cjk_runs)
        }) ==> {
            &&& scan_result(text, sources, policy) matches Ok(list) ==> exists|k: int|
                0 <= k < list.len() && (#[trigger] list[k]).blocking && list[k].rule
                    == CopyRule::ContiguousCjk && list[k].source_id == sources[e].id
            &&& sources.len() == 1 && crate::copycheck::policy_error(policy) is None ==> scan_result(
                text,
                sources,
                policy,
            ) is Ok
        },
{
    let n = policy.exact_cjk_graphemes as int;
    let order = scan_order(sources);
    let every = Seq::new(sources.len(), |k: int| k);
    if share_plain_clusters(text, i, sources[e].text, j, n) && !is_exempt_range(
        sources[e].exempt,
        clusters_range(sources[e].text, j, n),
    ) && is_countable(normalized(text).cjk_runs) && is_countable(
        normalized(sources[e].text).cjk_runs,
    ) {
        ordering_keeps_items(every, source_order(sources), e);
        assert(every[e] == e);
        let q = choose|q: int| 0 <= q < order.len() && order[q] == e;
        lemma_findings_reach(text, sources, policy, 0, Seq::empty(), 0, q, i, j);
        if let Ok(list) = findings_from(
            normalized(text),
            sources,
            policy,
            0,
            Seq::empty(),
            0,
        ) {
            let id = sources[e].id;
            let k = choose|k: int|
                0 <= k < list.len() && (#[trigger] list[k]).blocking && list[k].rule
                    == CopyRule::ContiguousCjk && list[k].source_id == id;
            ordering_keeps_items(list, finding_order(), list[k]);
            let sorted = ordered_by(list, finding_order());
            assert(list.contains(list[k]));
            let l = choose|l: int| 0 <= l < sorted.len() && sorted[l] == list[k];
            assert(sorted[l].blocking);
            assert(scan_result(text, sources, policy) matches Ok(all) ==> has_copy(all, id));
        }
        if sources.len() == 1 {
            assert(q == 0);
            lemma_pair_finds(text, sources[e], i, j, policy, 0);
            let more = source_result(normalized(text), sources[e], policy, 0)->Ok_0.0;
            let none = Seq::<FindingModel>::empty();
            assert(findings_from(normalized(text), sources, policy, 1, none + more, 0) is Ok);
            assert(findings_from(normalized(text), sources, policy, 0, none, 0) is Ok);
        }
    }
}

proof fn lemma_gate_source(list: Seq<FileModel>, n: int, f: int) -> (e: int)
    requires
        0 <= f < n <= list.len(),
        valid_utf8(list[f].1),
    ensures
        0 <= e < gate_sources(list, n).len(),
        gate_sources(list, n)[e] == (SourceModel {
            id: list[f].0,
            text: text_of(list[f].1),
            exempt: Seq::empty(),
        }),
    decreases n,
{
    if f == n - 1 {
        gate_sources(list, n).len() - 1
    } else {
        let e = lemma_gate_source(list, n - 1, f);
        e
    }
}

/// A chapter is refused where one of its sources has eighty of its clusters in a row, each made of
/// kana, ideographs or Hangul syllables.
pub proof fn copied_chapter_is_refused(
    manifest: Option<Seq<char>>,
    text: Seq<char>,
    list: Seq<FileModel>,
    f: int,
    i: int,
    j: int,
)
    requires
        0 <= f < list.len(),
        valid_utf8(list[f].1),
    ensures
        share_plain_clusters(text, i, text_of(list[f].1), j, 80) && is_countable(
            normalized(text).cjk_runs,
        ) && is_countable(normalized(text_of(list[f].1)).cjk_runs) ==> quality_error(
            manifest,
            text,
            list,
        ) is Some,
{
    let sources = gate_sources(list, list.len() as int);
    let e = lemma_gate_source(list, list.len() as int, f);
    shared_run_is_a_blocking_copy(text, sources, chapter_policy(), e, i, j);
}

} // verus!
