//! Copies of words that a scan finds.
use vstd::prelude::*;
use crate::context::ByteRange;
use crate::copycheck::{is_exempt_range, required_overlap, source_result, CopyPolicy, CopyRule, SourceModel};
use crate::copytext::{cjk_of, cluster_added, cluster_of, clusters_of, has_cjk, is_cjk_char, is_ignorable, is_spacing, normal_form, normalized, state_after, word_finished, words_finished, ClusterModel, NormalState, TokenModel};
use crate::laws::copies::{is_countable, lemma_all_kept, lemma_copy_is_found, lemma_lowered, lemma_runs_push, run_holds, runs_hold};
use crate::text::is_white_space;
use crate::unicode::{category_code, folded, grapheme_offsets, grapheme_pieces, letter_or_number, lowercase, nfkc};

verus! {

/// Whether a cluster is a letter or a number that Unicode leaves as it is, of a script that is
/// written in words.
pub open spec fn is_plain_letter(cluster: Seq<char>) -> bool {
    &&& cluster.len() > 0
    &&& forall|i: int|
        0 <= i < cluster.len() ==> letter_or_number(#[trigger] cluster[i]) && lowercase(cluster[i])
            == seq![cluster[i]] && category_code(cluster[i]) == 0 && !is_white_space(cluster[i])
            && !is_ignorable(cluster[i]) && !is_cjk_char(cluster[i])
    &&& nfkc(cluster) == cluster
    &&& grapheme_pieces(cluster) == seq![cluster]
}

/// Whether a cluster is white space that Unicode leaves as it is.
pub open spec fn is_plain_space(cluster: Seq<char>) -> bool {
    &&& cluster.len() > 0
    &&& forall|i: int|
        0 <= i < cluster.len() ==> is_white_space(#[trigger] cluster[i]) && lowercase(cluster[i])
            == seq![cluster[i]] && !is_ignorable(cluster[i])
    &&& nfkc(cluster) == cluster
}

proof fn lemma_normal(cluster: Seq<char>)
    requires
        forall|i: int|
            0 <= i < cluster.len() ==> lowercase(#[trigger] cluster[i]) == seq![cluster[i]]
                && !is_ignorable(cluster[i]),
        nfkc(cluster) == cluster,
    ensures
        normal_form(cluster) == cluster,
{
    lemma_lowered(cluster);
    assert(folded(cluster) == cluster);
    let solid = |c: char| !is_ignorable(c);
    assert forall|i: int| 0 <= i < cluster.len() implies solid(#[trigger] cluster[i]) by {}
    lemma_all_kept(cluster, solid);
}

proof fn lemma_no_cjk(cluster: Seq<char>)
    requires
        is_plain_letter(cluster),
    ensures
        cjk_of(seq![cluster]).len() == 0,
{
    let written = |piece: Seq<char>| has_cjk(piece);
    let list = seq![cluster];
    if list.filter(written).len() > 0 {
        list.filter_lemma(written);
        let found = list.filter(written)[0];
        assert(written(found));
        assert(list.filter(written).contains(found));
        list.lemma_filter_contains_rev(written, found);
        assert(found == cluster);
        let i = choose|i: int| 0 <= i < cluster.len() && is_cjk_char(#[trigger] cluster[i]);
        assert(!is_cjk_char(cluster[i]));
    }
}

proof fn lemma_letter(start: usize, cluster: Seq<char>)
    requires
        is_plain_letter(cluster),
    ensures
        ({
            let c = cluster_of(start, cluster);
            c.normal == cluster && c.pieces == seq![cluster] && cjk_of(c.pieces).len() == 0 && c.word
        }),
{
    lemma_normal(cluster);
    assert(!is_spacing(cluster[0]));
    let one = seq![cluster];
    let shown = |piece: Seq<char>| !crate::copytext::all_spacing(piece);
    assert(shown(one[0]));
    lemma_all_kept(one, shown);
    lemma_no_cjk(cluster);
}

proof fn lemma_space(start: usize, cluster: Seq<char>)
    requires
        is_plain_space(cluster),
    ensures
        ({
            let c = cluster_of(start, cluster);
            c.normal == cluster && c.pieces.len() == 0
        }),
{
    lemma_normal(cluster);
}

/// The clusters of a text from one place to another, behind each other.
pub open spec fn spelled(text: Seq<char>, a: int, b: int) -> Seq<char>
    decreases b - a,
{
    if b <= a {
        Seq::empty()
    } else {
        spelled(text, a, b - 1) + grapheme_offsets(text)[b - 1].1
    }
}

/// Whether a word of a text reaches from one cluster to another: letters and numbers, and white
/// space behind them.
pub open spec fn is_word(text: Seq<char>, a: int, b: int) -> bool {
    &&& 0 <= a < b < grapheme_offsets(text).len()
    &&& forall|t: int| a <= t < b ==> is_plain_letter((#[trigger] grapheme_offsets(text)[t]).1)
    &&& is_plain_space(grapheme_offsets(text)[b].1)
}

/// Whether words stand behind each other in a text, from their first clusters up to the white space
/// behind each, with one white space between them and white space or nothing before the first.
pub open spec fn are_words(text: Seq<char>, starts: Seq<int>, ends: Seq<int>) -> bool {
    &&& starts.len() == ends.len()
    &&& forall|k: int| 0 <= k < starts.len() ==> is_word(text, #[trigger] starts[k], ends[k])
    &&& forall|k: int| 0 < k < starts.len() ==> #[trigger] starts[k] == ends[k - 1] + 1
    &&& starts.len() > 0 && starts[0] > 0 ==> is_plain_space(
        grapheme_offsets(text)[starts[0] - 1].1,
    )
}

/// The tokens of words.
pub open spec fn word_list(text: Seq<char>, starts: Seq<int>, ends: Seq<int>) -> Seq<TokenModel> {
    Seq::new(
        starts.len(),
        |k: int|
            (
                spelled(text, starts[k], ends[k]),
                ByteRange {
                    start: clusters_of(text)[starts[k]].range.start,
                    end: clusters_of(text)[ends[k] - 1].range.end,
                },
            ),
    )
}

proof fn lemma_word_grows(text: Seq<char>, a: int, b: int)
    requires
        0 <= a < b <= grapheme_offsets(text).len(),
        forall|t: int| a <= t < b ==> is_plain_letter((#[trigger] grapheme_offsets(text)[t]).1),
        state_after(clusters_of(text), a).word is None,
    ensures
        ({
            let before = state_after(clusters_of(text), a);
            let s = state_after(clusters_of(text), b);
            &&& s.words == before.words
            &&& s.word == Some(
                (
                    spelled(text, a, b),
                    ByteRange {
                        start: clusters_of(text)[a].range.start,
                        end: clusters_of(text)[b - 1].range.end,
                    },
                ),
            )
        }),
    decreases b - a,
{
    let clusters = clusters_of(text);
    let item = grapheme_offsets(text)[b - 1];
    assert(is_plain_letter(item.1));
    assert(clusters[b - 1] == cluster_of(item.0, item.1));
    lemma_letter(item.0, item.1);
    let previous = state_after(clusters, b - 1);
    assert(state_after(clusters, b) == cluster_added(previous, clusters[b - 1]));
    if a < b - 1 {
        lemma_word_grows(text, a, b - 1);
    } else {
        assert(spelled(text, a, a) == Seq::<char>::empty());
        assert(spelled(text, a, b) =~= item.1);
    }
}

proof fn lemma_word_ends(text: Seq<char>, a: int, b: int)
    requires
        is_word(text, a, b),
        state_after(clusters_of(text), a).word is None,
    ensures
        ({
            let before = state_after(clusters_of(text), a);
            let s = state_after(clusters_of(text), b + 1);
            &&& s.word is None
            &&& s.words == before.words.push(
                (
                    spelled(text, a, b),
                    ByteRange {
                        start: clusters_of(text)[a].range.start,
                        end: clusters_of(text)[b - 1].range.end,
                    },
                ),
            )
        }),
{
    let clusters = clusters_of(text);
    lemma_word_grows(text, a, b);
    let item = grapheme_offsets(text)[b];
    assert(clusters[b] == cluster_of(item.0, item.1));
    lemma_space(item.0, item.1);
    assert(state_after(clusters, b + 1) == cluster_added(state_after(clusters, b), clusters[b]));
}

proof fn lemma_words(text: Seq<char>, starts: Seq<int>, ends: Seq<int>, n: int)
    requires
        are_words(text, starts, ends),
        0 <= n < starts.len(),
        state_after(clusters_of(text), starts[0]).word is None,
    ensures
        ({
            let s = state_after(clusters_of(text), ends[n] + 1);
            let part = word_list(text, starts, ends).take(n + 1);
            s.word is None && run_holds(s.words, part, s.words.len() - part.len())
        }),
    decreases n,
{
    let all = word_list(text, starts, ends);
    assert(is_word(text, starts[n], ends[n]));
    if n > 0 {
        lemma_words(text, starts, ends, n - 1);
        assert(starts[n] == ends[n - 1] + 1);
    }
    let before = state_after(clusters_of(text), starts[n]);
    lemma_word_ends(text, starts[n], ends[n]);
    let s = state_after(clusters_of(text), ends[n] + 1);
    let part = all.take(n + 1);
    let less = all.take(n);
    let p = s.words.len() - part.len();
    assert forall|t: int| 0 <= t < part.len() implies #[trigger] s.words[p + t] == part[t] by {
        if t < n {
            assert(before.words[p + t] == less[t]);
        }
    }
}

spec fn words_hold(s: NormalState, part: Seq<TokenModel>) -> bool {
    runs_hold(s.word_runs, part) || exists|p: int| #[trigger] run_holds(s.words, part, p)
}

proof fn lemma_word_pushed(s: NormalState, word: TokenModel, part: Seq<TokenModel>)
    requires
        exists|p: int| #[trigger] run_holds(s.words, part, p),
    ensures
        exists|p: int| #[trigger] run_holds(s.words.push(word), part, p),
{
    let p = choose|p: int| #[trigger] run_holds(s.words, part, p);
    let more = s.words.push(word);
    assert forall|t: int| 0 <= t < part.len() implies #[trigger] more[p + t] == part[t] by {
        assert(s.words[p + t] == part[t]);
    }
    assert(run_holds(more, part, p));
}

proof fn lemma_finished(s: NormalState, part: Seq<TokenModel>)
    requires
        words_hold(s, part),
        part.len() > 0,
    ensures
        words_hold(word_finished(s), part),
        words_hold(words_finished(s), part),
        runs_hold(words_finished(s).word_runs, part),
{
    if s.word is Some && !runs_hold(s.word_runs, part) {
        lemma_word_pushed(s, s.word->Some_0, part);
    }
    let t = word_finished(s);
    lemma_runs_push(t.word_runs, t.words, part);
    if !runs_hold(t.word_runs, part) {
        let p = choose|p: int| #[trigger] run_holds(t.words, part, p);
        assert(t.words.len() > 0);
    }
}

proof fn lemma_added(s: NormalState, cluster: ClusterModel, part: Seq<TokenModel>)
    requires
        words_hold(s, part),
        part.len() > 0,
    ensures
        words_hold(cluster_added(s, cluster), part),
{
    lemma_finished(s, part);
    let next = cluster_added(s, cluster);
    if cluster.normal.len() == 0 {
    } else if cluster.pieces.len() == 0 {
        if s.word is Some {
            assert(next.words == word_finished(s).words && next.word_runs == s.word_runs);
        }
    } else {
        let t = NormalState {
            characters: s.characters + crate::copytext::tokens_of(cluster.pieces, cluster.range),
            ..s
        };
        assert(words_hold(t, part));
        if cjk_of(cluster.pieces).len() > 0 {
            lemma_finished(t, part);
            assert(next.words == words_finished(t).words && next.word_runs == words_finished(
                t,
            ).word_runs);
        } else {
            assert(next.words == s.words && next.word_runs == s.word_runs);
        }
    }
}

proof fn lemma_later(clusters: Seq<ClusterModel>, from: int, n: int, part: Seq<TokenModel>)
    requires
        0 <= from <= n <= clusters.len(),
        words_hold(state_after(clusters, from), part),
        part.len() > 0,
    ensures
        words_hold(state_after(clusters, n), part),
    decreases n - from,
{
    if from < n {
        lemma_later(clusters, from, n - 1, part);
        lemma_added(state_after(clusters, n - 1), clusters[n - 1], part);
    }
}

proof fn lemma_words_found(text: Seq<char>, starts: Seq<int>, ends: Seq<int>)
    requires
        are_words(text, starts, ends),
        starts.len() > 0,
    ensures
        runs_hold(normalized(text).word_runs, word_list(text, starts, ends)),
{
    let clusters = clusters_of(text);
    let a = starts[0];
    assert(is_word(text, a, ends[0]));
    assert(state_after(clusters, a).word is None) by {
        if a > 0 {
            let item = grapheme_offsets(text)[a - 1];
            assert(clusters[a - 1] == cluster_of(item.0, item.1));
            lemma_space(item.0, item.1);
            assert(state_after(clusters, a) == cluster_added(
                state_after(clusters, a - 1),
                clusters[a - 1],
            ));
        }
    }
    let n = starts.len() - 1;
    let all = word_list(text, starts, ends);
    lemma_words(text, starts, ends, n);
    assert(all.take(n + 1) =~= all);
    assert(is_word(text, starts[n], ends[n]));
    let s = state_after(clusters, ends[n] + 1);
    assert(run_holds(s.words, all, s.words.len() - all.len()));
    lemma_later(clusters, ends[n] + 1, clusters.len() as int, all);
    lemma_finished(state_after(clusters, clusters.len() as int), all);
}

/// A manuscript that shares words in a row with a source, as many as the policy counts as a copy and
/// outside what the source may be quoted by, has a blocking finding against the source.
pub proof fn shared_words_are_a_blocking_copy(
    text: Seq<char>,
    source: SourceModel,
    policy: CopyPolicy,
    used: int,
    mine: (Seq<int>, Seq<int>),
    theirs: (Seq<int>, Seq<int>),
)
    requires
        policy.exact_words > 0,
        mine.0.len() == policy.exact_words,
        theirs.0.len() == policy.exact_words,
    ensures
        ({
            &&& are_words(text, mine.0, mine.1)
            &&& are_words(source.text, theirs.0, theirs.1)
            &&& forall|k: int|
                0 <= k < mine.0.len() ==> spelled(text, #[trigger] mine.0[k], mine.1[k]) == spelled(
                    source.text,
                    theirs.0[k],
                    theirs.1[k],
                )
            &&& !is_exempt_range(
                source.exempt,
                ByteRange {
                    start: clusters_of(source.text)[theirs.0[0]].range.start,
                    end: clusters_of(source.text)[theirs.1.last() - 1].range.end,
                },
            )
            &&& is_countable(normalized(text).word_runs)
            &&& is_countable(normalized(source.text).word_runs)
        }) ==> (source_result(normalized(text), source, policy, used) matches Ok((list, total))
            && total == used && exists|k: int|
            0 <= k < list.len() && (#[trigger] list[k]).blocking && list[k].rule
                == CopyRule::ContiguousWords && list[k].source_id == source.id),
{
    let a = word_list(text, mine.0, mine.1);
    let b = word_list(source.text, theirs.0, theirs.1);
    if are_words(text, mine.0, mine.1) && are_words(source.text, theirs.0, theirs.1) && (forall|k: int|
        0 <= k < mine.0.len() ==> spelled(text, #[trigger] mine.0[k], mine.1[k]) == spelled(
            source.text,
            theirs.0[k],
            theirs.1[k],
        )) && !is_exempt_range(
        source.exempt,
        ByteRange {
            start: clusters_of(source.text)[theirs.0[0]].range.start,
            end: clusters_of(source.text)[theirs.1.last() - 1].range.end,
        },
    ) && is_countable(normalized(text).word_runs) && is_countable(
        normalized(source.text).word_runs,
    ) {
        lemma_words_found(text, mine.0, mine.1);
        lemma_words_found(source.text, theirs.0, theirs.1);
        assert forall|t: int| 0 <= t < a.len() implies (#[trigger] a[t]).0 == b[t].0 by {
            assert(spelled(text, mine.0[t], mine.1[t]) == spelled(
                source.text,
                theirs.0[t],
                theirs.1[t],
            ));
        }
        lemma_copy_is_found(
            normalized(text).word_runs,
            normalized(source.text).word_runs,
            source,
            CopyRule::ContiguousWords,
            a,
            b,
        );
        let list = source_result(normalized(text), source, policy, used)->Ok_0.0;
        assert(list[0].rule == CopyRule::ContiguousWords || list[1].rule
            == CopyRule::ContiguousWords);
    }
}

/// The part of a window that must be shared is the least count that is no less than the percentage
/// asked for.
pub proof fn required_share_is_rounded_up(count: int, percent: int)
    requires
        0 <= count,
        0 <= percent <= 100,
    ensures
        required_overlap(count, percent) * 100 >= count * percent,
        (required_overlap(count, percent) - 1) * 100 < count * percent,
        required_overlap(count, percent) <= count,
{
    assert(count * percent <= count * 100) by (nonlinear_arith)
        requires
            0 <= count,
            percent <= 100,
    ;
}

} // verus!
