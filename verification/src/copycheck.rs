//! Deterministic near-copy scan of a manuscript against its sources.
use vstd::prelude::*;
use vstd::string::StringExecFns;
use crate::context::{range_fits, ByteRange};
use crate::copyindex::{ascending, equal_windows_hash_equally, gram_at, lemma_first_at, lemma_sort_ascends, multiset_overlap, ngram_fingerprints, poly, rolling_hashes, shared_count, signature, slide, token_hashes, values, window_base, ChainIndex, Gram, Sliding};
use crate::copytext::{is_span, normalized, runs, runs_lie_in, text_fits, text_lies_in, tokens, word_run_models, NormalModel, NormalizedText, Token, TokenModel, WordCharRun, WordRunModel};
use crate::order::{lemma_placed_at, lemma_placed_keeps, ordered_by, placed_by};
use crate::text::{before, decimal, size_text, text_before, utf8};

verus! {

/// Candidate pairs that one scan verifies at most.
pub const MAX_CANDIDATE_VERIFICATIONS: usize = 100_000;

/// Manuscript windows that one n-gram scan indexes at most.
pub const MAX_NGRAM_WINDOW_CLASSES: usize = 20_000;

/// N-grams that the indexed manuscript windows hold at most.
pub const MAX_NGRAM_SIGNATURE_ITEMS: usize = 4_000_000;

/// A source that the manuscript may draw on, with the ranges that may be quoted.
pub struct AllowedSource {
    /// Identifier of the source.
    pub source_id: String,
    text: String,
    exempt_ranges: Vec<ByteRange>,
}

/// Identifier, text and exempt ranges of a source.
pub struct SourceModel {
    pub id: Seq<char>,
    pub text: Seq<char>,
    pub exempt: Seq<ByteRange>,
}

impl View for AllowedSource {
    type V = SourceModel;

    closed spec fn view(&self) -> SourceModel {
        SourceModel { id: self.source_id@, text: self.text@, exempt: self.exempt_ranges@ }
    }
}

/// Whether one of the ranges that may be quoted from a source is its whole text.
pub open spec fn may_be_quoted_whole(source: SourceModel) -> bool {
    exists|j: int|
        0 <= j < source.exempt.len() && (#[trigger] source.exempt[j]).start == 0
            && source.exempt[j].end == utf8(source.text).len()
}

/// A source with ranges that were declared as quotable: those that do not fit the text are
/// dropped.
pub open spec fn declared_source(
    id: Seq<char>,
    text: Seq<char>,
    declared: Seq<ByteRange>,
) -> SourceModel {
    SourceModel { id, text, exempt: declared.filter(|range: ByteRange| range_fits(range, text)) }
}

impl AllowedSource {
    /// Builds a source without exemptions.
    pub fn plain(source_id: String, text: String) -> (r: AllowedSource)
        ensures
            r@.id == source_id@,
            r@.text == text@,
            r@.exempt.len() == 0,
    {
        AllowedSource { source_id, text, exempt_ranges: Vec::new() }
    }

    /// Builds a source that may be quoted as a whole.
    pub fn declared_quote(source_id: String, text: String) -> (r: AllowedSource)
        ensures
            r@.id == source_id@,
            r@.text == text@,
            r@.exempt == seq![ByteRange { start: 0, end: utf8(text@).len() as usize }],
            may_be_quoted_whole(r@),
    {
        let end: usize = text.as_str().as_bytes().len();
        let exempt_ranges = vec![ByteRange::new(0, end)];
        assert(exempt_ranges@ =~= seq![ByteRange { start: 0, end }]);
        assert(exempt_ranges@[0].start == 0 && exempt_ranges@[0].end == utf8(text@).len());
        AllowedSource { source_id, text, exempt_ranges }
    }

    /// Builds a source with ranges that may be quoted; ranges that do not fit the text are
    /// dropped.
    pub fn with_declared_ranges(source_id: String, text: String, exempt_ranges: Vec<ByteRange>) -> (r:
        AllowedSource)
        ensures
            r@ == declared_source(source_id@, text@, exempt_ranges@),
    {
        let ghost keep = |range: ByteRange| range_fits(range, text@);
        let mut kept: Vec<ByteRange> = Vec::new();
        let mut i: usize = 0;
        assert(kept@ =~= exempt_ranges@.take(0).filter(keep)) by {
            reveal(Seq::filter);
        }
        while i < exempt_ranges.len()
            invariant
                i <= exempt_ranges@.len(),
                keep == (|range: ByteRange| range_fits(range, text@)),
                kept@ == exempt_ranges@.take(i as int).filter(keep),
            decreases exempt_ranges@.len() - i,
        {
            reveal(Seq::filter);
            let ghost t = exempt_ranges@.take(i + 1);
            assert(t.drop_last() =~= exempt_ranges@.take(i as int));
            let range = exempt_ranges[i];
            if range.is_valid_for(text.as_str()) {
                kept.push(range);
            }
            i += 1;
        }
        assert(exempt_ranges@.take(exempt_ranges@.len() as int) =~= exempt_ranges@);
        AllowedSource { source_id, text, exempt_ranges: kept }
    }
}

/// Thresholds of the scan.
#[derive(Clone, Debug, PartialEq, Eq, Structural)]
pub struct CopyPolicy {
    /// Contiguous CJK graphemes that count as a copy.
    pub exact_cjk_graphemes: usize,
    /// Contiguous words that count as a copy.
    pub exact_words: usize,
    /// Tokens in an n-gram.
    pub ngram_size: usize,
    /// Characters in a window of the n-gram comparison.
    pub ngram_cjk_window: usize,
    /// Words in a window of the n-gram comparison.
    pub ngram_word_window: usize,
    /// Share of common n-grams that counts as a copy.
    pub ngram_overlap_percent: u8,
}

impl Default for CopyPolicy {
    fn default() -> (r: CopyPolicy)
        ensures
            r == (CopyPolicy {
                exact_cjk_graphemes: 80,
                exact_words: 40,
                ngram_size: 8,
                ngram_cjk_window: 160,
                ngram_word_window: 80,
                ngram_overlap_percent: 85,
            }),
    {
        CopyPolicy {
            exact_cjk_graphemes: 80,
            exact_words: 40,
            ngram_size: 8,
            ngram_cjk_window: 160,
            ngram_word_window: 80,
            ngram_overlap_percent: 85,
        }
    }
}

/// Rule that a finding comes from.
#[derive(Clone, Copy, Debug, PartialEq, Eq, PartialOrd, Ord, Structural)]
pub enum CopyRule {
    /// Contiguous CJK graphemes.
    ContiguousCjk,
    /// Contiguous words.
    ContiguousWords,
    /// Common n-grams.
    NgramOverlap,
}

/// A copied passage.
#[derive(Clone, Debug, PartialEq, Eq)]
pub struct CopyFinding {
    /// Source of the passage.
    pub source_id: String,
    /// Bytes of the manuscript.
    pub manuscript_range: ByteRange,
    /// Bytes of the source.
    pub source_range: ByteRange,
    /// Rule that found the passage.
    pub rule: CopyRule,
    /// Share of the passage that agrees.
    pub score_percent: u8,
    /// Whether the finding blocks approval.
    pub blocking: bool,
}

/// A finding by the views of its fields.
pub struct FindingModel {
    pub source_id: Seq<char>,
    pub manuscript_range: ByteRange,
    pub source_range: ByteRange,
    pub rule: CopyRule,
    pub score_percent: u8,
    pub blocking: bool,
}

impl View for CopyFinding {
    type V = FindingModel;

    open spec fn view(&self) -> FindingModel {
        FindingModel {
            source_id: self.source_id@,
            manuscript_range: self.manuscript_range,
            source_range: self.source_range,
            rule: self.rule,
            score_percent: self.score_percent,
            blocking: self.blocking,
        }
    }
}

/// The views of findings.
pub open spec fn finding_models(items: Seq<CopyFinding>) -> Seq<FindingModel> {
    items.map_values(|item: CopyFinding| item@)
}

/// Limit of the scan.
#[derive(Clone, Copy, Debug, PartialEq, Eq, Structural)]
pub enum CopyScanLimit {
    /// Verified candidate pairs.
    CandidateVerifications,
    /// Indexed manuscript windows.
    NgramWindowClasses,
    /// Indexed n-grams.
    NgramSignatureItems,
}

/// The name of a limit.
pub open spec fn limit_name(limit: CopyScanLimit) -> Seq<char> {
    match limit {
        CopyScanLimit::CandidateVerifications => "CandidateVerifications"@,
        CopyScanLimit::NgramWindowClasses => "NgramWindowClasses"@,
        CopyScanLimit::NgramSignatureItems => "NgramSignatureItems"@,
    }
}

/// Why a scan gave no result.
#[derive(Clone, Debug, PartialEq, Eq)]
pub enum CopyScanError {
    /// The thresholds make no sense.
    InvalidPolicy(String),
    /// The scan would exceed a limit; nothing is known about copies.
    BudgetExceeded {
        /// Limit.
        limit: CopyScanLimit,
        /// Its value.
        maximum: usize,
    },
}

/// A scan error by its view.
pub enum ScanErrorModel {
    InvalidPolicy(Seq<char>),
    BudgetExceeded(CopyScanLimit, usize),
}

impl View for CopyScanError {
    type V = ScanErrorModel;

    open spec fn view(&self) -> ScanErrorModel {
        match self {
            CopyScanError::InvalidPolicy(message) => ScanErrorModel::InvalidPolicy(message@),
            CopyScanError::BudgetExceeded { limit, maximum } => ScanErrorModel::BudgetExceeded(
                *limit,
                *maximum,
            ),
        }
    }
}

/// The message of a scan that failed.
pub open spec fn scan_error_text(error: ScanErrorModel) -> Seq<char> {
    match error {
        ScanErrorModel::InvalidPolicy(message) => message,
        ScanErrorModel::BudgetExceeded(limit, maximum) =>
            "near-copy scan exceeded its fail-closed "@ + limit_name(limit)
            + " budget of "@ + decimal(maximum as nat),
    }
}

impl CopyScanError {
    /// Returns the message of the error.
    pub fn to_text(&self) -> (r: String)
        ensures
            r@ == scan_error_text(self@),
    {
        match self {
            CopyScanError::InvalidPolicy(message) => message.clone(),
            CopyScanError::BudgetExceeded { limit, maximum } => {
                let mut out = "near-copy scan exceeded its fail-closed ".to_owned();
                match limit {
                    CopyScanLimit::CandidateVerifications => out.append("CandidateVerifications"),
                    CopyScanLimit::NgramWindowClasses => out.append("NgramWindowClasses"),
                    CopyScanLimit::NgramSignatureItems => out.append("NgramSignatureItems"),
                }
                out.append(" budget of ");
                out.append(size_text(*maximum).as_str());
                out
            },
        }
    }
}

/// The message about thresholds that make no sense, where there is one.
pub open spec fn policy_error(policy: CopyPolicy) -> Option<Seq<char>> {
    if policy.exact_cjk_graphemes == 0 || policy.exact_words == 0 || policy.ngram_size == 0 {
        Some("near-copy thresholds must be greater than zero"@)
    } else if policy.ngram_cjk_window < policy.ngram_size || policy.ngram_word_window == 0 {
        Some("near-copy windows must contain at least one complete 8-gram candidate"@)
    } else if policy.ngram_overlap_percent > 100 {
        Some("near-copy overlap percentage cannot exceed 100"@)
    } else {
        None
    }
}

fn validate_policy(policy: &CopyPolicy) -> (r: Result<(), CopyScanError>)
    ensures
        match r {
            Ok(()) => policy_error(*policy) is None,
            Err(error) => policy_error(*policy) is Some && error@ == ScanErrorModel::InvalidPolicy(
                policy_error(*policy)->Some_0,
            ),
        },
{
    if policy.exact_cjk_graphemes == 0 || policy.exact_words == 0 || policy.ngram_size == 0 {
        return Err(
            CopyScanError::InvalidPolicy(
                "near-copy thresholds must be greater than zero".to_owned(),
            ),
        );
    }
    if policy.ngram_cjk_window < policy.ngram_size || policy.ngram_word_window == 0 {
        return Err(
            CopyScanError::InvalidPolicy(
                "near-copy windows must contain at least one complete 8-gram candidate".to_owned(),
            ),
        );
    }
    if policy.ngram_overlap_percent > 100 {
        return Err(
            CopyScanError::InvalidPolicy(
                "near-copy overlap percentage cannot exceed 100".to_owned(),
            ),
        );
    }
    Ok(())
}

/// A window of tokens in a run.
#[derive(Clone, Copy, Debug, PartialEq, Eq, Structural)]
pub struct IndexedWindow {
    /// Index of the run.
    pub run: usize,
    /// First token.
    pub start: usize,
    /// Token behind the last one.
    pub end: usize,
}

/// The views of borrowed runs.
pub open spec fn slices(items: Seq<&[Token]>) -> Seq<Seq<TokenModel>> {
    items.map_values(|item: &[Token]| tokens(item@))
}

/// Whether a window lies in its run and is not empty.
pub open spec fn window_fits(all: Seq<Seq<TokenModel>>, w: IndexedWindow) -> bool {
    w.run < all.len() && w.start < w.end <= all[w.run as int].len()
}

/// Whether all windows lie in their runs.
pub open spec fn windows_fit(all: Seq<Seq<TokenModel>>, windows: Seq<IndexedWindow>) -> bool {
    forall|i: int| 0 <= i < windows.len() ==> window_fits(all, #[trigger] windows[i])
}

/// The bytes that a window covers.
pub open spec fn window_range(all: Seq<Seq<TokenModel>>, w: IndexedWindow) -> ByteRange {
    let run = all[w.run as int];
    ByteRange { start: run[w.start as int].1.start, end: run[w.end - 1].1.end }
}

fn token_range(all: &[&[Token]], w: IndexedWindow) -> (r: ByteRange)
    requires
        window_fits(slices(all@), w),
    ensures
        r == window_range(slices(all@), w),
{
    let run = all[w.run];
    assert(slices(all@)[w.run as int] == tokens(run@));
    assert(tokens(run@)[w.start as int] == run@[w.start as int]@);
    assert(tokens(run@)[w.end - 1] == run@[w.end - 1]@);
    ByteRange::new(run[w.start].range.start, run[w.end - 1].range.end)
}

/// Whether a range lies in one that may be quoted.
pub open spec fn is_exempt_range(exempt: Seq<ByteRange>, range: ByteRange) -> bool {
    exists|i: int|
        0 <= i < exempt.len() && (#[trigger] exempt[i]).start <= range.start && range.end
            <= exempt[i].end
}

fn is_exempt(exempt: &[ByteRange], range: ByteRange) -> (r: bool)
    ensures
        r == is_exempt_range(exempt@, range),
{
    let mut i: usize = 0;
    while i < exempt.len()
        invariant
            i <= exempt@.len(),
            forall|k: int|
                0 <= k < i ==> !((#[trigger] exempt@[k]).start <= range.start && range.end
                    <= exempt@[k].end),
        decreases exempt@.len() - i,
    {
        if exempt[i].start <= range.start && range.end <= exempt[i].end {
            return true;
        }
        i += 1;
    }
    false
}

/// All windows of a width in one run.
pub open spec fn run_windows(run: int, length: int, width: int) -> Seq<IndexedWindow> {
    Seq::new(
        (if length >= width {
            length - width + 1
        } else {
            0
        }) as nat,
        |start: int|
            IndexedWindow {
                run: run as usize,
                start: start as usize,
                end: (start + width) as usize,
            },
    )
}

/// All windows of a width, run by run.
pub open spec fn fixed_windows(all: Seq<Seq<TokenModel>>, width: int) -> Seq<IndexedWindow>
    decreases all.len(),
{
    if all.len() == 0 {
        Seq::empty()
    } else {
        fixed_windows(all.drop_last(), width) + run_windows(
            all.len() - 1,
            all.last().len() as int,
            width,
        )
    }
}

proof fn lemma_fixed_windows_fit(all: Seq<Seq<TokenModel>>, width: int)
    requires
        width >= 1,
        all.len() <= usize::MAX,
        forall|r: int| 0 <= r < all.len() ==> (#[trigger] all[r]).len() <= usize::MAX,
    ensures
        windows_fit(all, fixed_windows(all, width)),
        forall|i: int|
            0 <= i < fixed_windows(all, width).len() ==> (#[trigger] fixed_windows(
                all,
                width,
            )[i]).end - fixed_windows(all, width)[i].start == width,
    decreases all.len(),
{
    if all.len() > 0 {
        let head = all.drop_last();
        assert forall|r: int| 0 <= r < head.len() implies (#[trigger] head[r]).len()
            <= usize::MAX by {
            assert(head[r] == all[r]);
        }
        lemma_fixed_windows_fit(head, width);
        let before = fixed_windows(head, width);
        let whole = fixed_windows(all, width);
        let last = run_windows(all.len() - 1, all.last().len() as int, width);
        assert(all[all.len() - 1].len() <= usize::MAX);
        assert forall|i: int| 0 <= i < whole.len() implies window_fits(all, #[trigger] whole[i])
            && whole[i].end - whole[i].start == width by {
            if i < before.len() {
                assert(whole[i] == before[i]);
                assert(window_fits(head, before[i]));
                assert(head[before[i].run as int] == all[before[i].run as int]);
            } else {
                assert(whole[i] == last[i - before.len()]);
            }
        }
    }
}

fn list_fixed_windows(all: &[&[Token]], width: usize) -> (r: Vec<IndexedWindow>)
    requires
        width >= 1,
    ensures
        r@ == fixed_windows(slices(all@), width as int),
        windows_fit(slices(all@), r@),
        forall|i: int| 0 <= i < r@.len() ==> (#[trigger] r@[i]).end - r@[i].start == width,
{
    let ghost models = slices(all@);
    let mut out: Vec<IndexedWindow> = Vec::new();
    let mut run: usize = 0;
    assert(models.take(0) =~= Seq::<Seq<TokenModel>>::empty());
    while run < all.len()
        invariant
            run <= all@.len(),
            width >= 1,
            models == slices(all@),
            out@ == fixed_windows(models.take(run as int), width as int),
        decreases all@.len() - run,
    {
        let length: usize = all[run].len();
        let ghost before = out@;
        let ghost last = run_windows(run as int, length as int, width as int);
        assert(models.take(run + 1).drop_last() =~= models.take(run as int));
        assert(models.take(run + 1).last() == tokens(all@[run as int]@));
        if length >= width {
            let mut start: usize = 0;
            assert(out@ =~= before + last.take(0));
            while start <= length - width
                invariant
                    1 <= width <= length,
                    start <= length - width + 1,
                    run < all@.len(),
                    last == run_windows(run as int, length as int, width as int),
                    out@ == before + last.take(start as int),
                decreases length - start,
            {
                let end: usize = start + width;
                out.push(IndexedWindow { run, start, end });
                assert(last[start as int] == IndexedWindow { run, start, end });
                start += 1;
                assert(out@ =~= before + last.take(start as int));
            }
            assert(last.take(start as int) =~= last);
        } else {
            assert(last =~= Seq::<IndexedWindow>::empty());
            assert(out@ =~= before + last);
        }
        run += 1;
    }
    assert(models.take(all@.len() as int) =~= models);
    proof {
        assert forall|r: int| 0 <= r < models.len() implies (#[trigger] models[r]).len()
            <= usize::MAX by {
            let slice = all@[r];
            assert(models[r] == tokens(slice@));
            assert(slice.len() <= usize::MAX);
        }
        lemma_slice_lengths(all);
        lemma_fixed_windows_fit(models, width as int);
    }
    out
}

proof fn lemma_slice_lengths(all: &[&[Token]])
    ensures
        all@.len() <= usize::MAX,
        forall|r: int| 0 <= r < all@.len() ==> (#[trigger] slices(all@)[r]).len() <= usize::MAX,
{
    assert(all.len() <= usize::MAX);
    assert forall|r: int| 0 <= r < all@.len() implies (#[trigger] slices(all@)[r]).len()
        <= usize::MAX by {
        let slice = all@[r];
        assert(slices(all@)[r] == tokens(slice@));
        assert(slice.len() <= usize::MAX);
    }
}

/// The end of a window of words: the end of the run, or the character before the space in front
/// of the next word.
pub open spec fn word_window_end(run: WordRunModel, first: int, count: int) -> int {
    if first + count == run.1.len() {
        run.0.len() as int
    } else {
        run.1[first + count] - 1
    }
}

/// All windows of a number of words in one run.
pub open spec fn run_word_windows(run: int, model: WordRunModel, count: int) -> Seq<IndexedWindow> {
    Seq::new(
        (if model.1.len() >= count {
            model.1.len() - count + 1
        } else {
            0
        }) as nat,
        |first: int|
            IndexedWindow {
                run: run as usize,
                start: model.1[first],
                end: word_window_end(model, first, count) as usize,
            },
    )
}

/// All windows of a number of words, run by run.
pub open spec fn word_windows(all: Seq<WordRunModel>, count: int) -> Seq<IndexedWindow>
    decreases all.len(),
{
    if all.len() == 0 {
        Seq::empty()
    } else {
        word_windows(all.drop_last(), count) + run_word_windows(all.len() - 1, all.last(), count)
    }
}

/// The tokens of runs of word characters.
pub open spec fn word_tokens(all: Seq<WordRunModel>) -> Seq<Seq<TokenModel>> {
    all.map_values(|run: WordRunModel| run.0)
}

fn list_word_windows(all: &[WordCharRun], count: usize) -> (r: Vec<IndexedWindow>)
    requires
        count >= 1,
        forall|i: int|
            0 <= i < all@.len() ==> crate::copytext::starts_fit(
                (#[trigger] all@[i])@.1,
                all@[i]@.0.len() as int,
            ),
    ensures
        r@ == word_windows(word_run_models(all@), count as int),
        windows_fit(word_tokens(word_run_models(all@)), r@),
{
    let ghost models = word_run_models(all@);
    let mut out: Vec<IndexedWindow> = Vec::new();
    let mut run: usize = 0;
    assert(models.take(0) =~= Seq::<WordRunModel>::empty());
    while run < all.len()
        invariant
            run <= all@.len(),
            count >= 1,
            models == word_run_models(all@),
            forall|i: int|
                0 <= i < all@.len() ==> crate::copytext::starts_fit(
                    (#[trigger] all@[i])@.1,
                    all@[i]@.0.len() as int,
                ),
            out@ == word_windows(models.take(run as int), count as int),
            windows_fit(word_tokens(models), out@),
        decreases all@.len() - run,
    {
        let value = &all[run];
        let words: usize = value.word_starts.len();
        let ghost before = out@;
        let ghost last = run_word_windows(run as int, value@, count as int);
        assert(models.take(run + 1).drop_last() =~= models.take(run as int));
        assert(models.take(run + 1).last() == value@);
        assert(crate::copytext::starts_fit(value@.1, value@.0.len() as int));
        assert(value@.0.len() == value.tokens@.len());
        if words >= count {
            let mut first: usize = 0;
            assert(out@ =~= before + last.take(0));
            while first <= words - count
                invariant
                    1 <= count <= words,
                    first <= words - count + 1,
                    run < all@.len(),
                    words == value.word_starts@.len(),
                    value == all@[run as int],
                    models == word_run_models(all@),
                    value@.0.len() == value.tokens@.len(),
                    crate::copytext::starts_fit(value@.1, value@.0.len() as int),
                    last == run_word_windows(run as int, value@, count as int),
                    out@ == before + last.take(first as int),
                    windows_fit(word_tokens(models), out@),
                decreases words - first,
            {
                let start: usize = value.word_starts[first];
                let next: usize = first + count;
                proof {
                    lemma_starts_gap(value.word_starts@, value@.0.len() as int, first as int, next as int);
                }
                let end: usize = if next == words {
                    value.tokens.len()
                } else {
                    value.word_starts[next] - 1
                };
                let w = IndexedWindow { run, start, end };
                assert(last[first as int] == w);
                assert(word_tokens(models)[run as int] == value@.0);
                assert(window_fits(word_tokens(models), w));
                let ghost prior = out@;
                out.push(w);
                assert forall|i: int| 0 <= i < out@.len() implies window_fits(
                    word_tokens(models),
                    #[trigger] out@[i],
                ) by {
                    if i < prior.len() {
                        assert(out@[i] == prior[i]);
                    }
                }
                first += 1;
                assert(out@ =~= before + last.take(first as int));
            }
            assert(last.take(first as int) =~= last);
        } else {
            assert(last =~= Seq::<IndexedWindow>::empty());
            assert(out@ =~= before + last);
        }
        run += 1;
    }
    assert(models.take(all@.len() as int) =~= models);
    out
}

proof fn lemma_starts_gap(starts: Seq<usize>, length: int, first: int, next: int)
    requires
        crate::copytext::starts_fit(starts, length),
        0 <= first < next <= starts.len(),
    ensures
        starts[first] < length,
        next < starts.len() ==> starts[first] + 2 <= starts[next] < length,
    decreases next - first,
{
    if next < starts.len() {
        assert(starts[next] < length);
        if next > first + 1 {
            lemma_starts_gap(starts, length, first, next - 1);
            assert(starts[next - 1] + 2 <= starts[next - 1 + 1]);
        } else {
            assert(starts[first] + 2 <= starts[first + 1]);
        }
    }
}

/// Whether two windows of a width hold the same texts.
pub open spec fn same_texts(
    a: Seq<TokenModel>,
    a_start: int,
    b: Seq<TokenModel>,
    b_start: int,
    width: int,
) -> bool {
    forall|k: int| 0 <= k < width ==> (#[trigger] a[a_start + k]).0 == b[b_start + k].0
}

/// Whether a manuscript window and a source window of a width hold the same texts.
pub open spec fn windows_agree(
    m_runs: Seq<Seq<TokenModel>>,
    m: IndexedWindow,
    s_runs: Seq<Seq<TokenModel>>,
    s: IndexedWindow,
    width: int,
) -> bool {
    same_texts(
        m_runs[m.run as int],
        m.start as int,
        s_runs[s.run as int],
        s.start as int,
        width,
    )
}

/// The source windows that may not be copied.
pub open spec fn open_windows(
    s_runs: Seq<Seq<TokenModel>>,
    windows: Seq<IndexedWindow>,
    exempt: Seq<ByteRange>,
) -> Seq<IndexedWindow> {
    windows.filter(|w: IndexedWindow| !is_exempt_range(exempt, window_range(s_runs, w)))
}

/// The first source window at or after `j` that agrees with a manuscript window.
pub open spec fn first_agreeing(
    m_runs: Seq<Seq<TokenModel>>,
    m: IndexedWindow,
    s_runs: Seq<Seq<TokenModel>>,
    sources: Seq<IndexedWindow>,
    width: int,
    j: int,
) -> Option<int>
    decreases sources.len() - j,
{
    if j < 0 || j >= sources.len() {
        None
    } else if windows_agree(m_runs, m, s_runs, sources[j], width) {
        Some(j)
    } else {
        first_agreeing(m_runs, m, s_runs, sources, width, j + 1)
    }
}

/// The first manuscript window at or after `i` that agrees with a source window, and the first
/// source window it agrees with.
pub open spec fn first_exact(
    m_runs: Seq<Seq<TokenModel>>,
    windows: Seq<IndexedWindow>,
    s_runs: Seq<Seq<TokenModel>>,
    sources: Seq<IndexedWindow>,
    width: int,
    i: int,
) -> Option<(int, int)>
    decreases windows.len() - i,
{
    if i < 0 || i >= windows.len() {
        None
    } else {
        match first_agreeing(m_runs, windows[i], s_runs, sources, width, 0) {
            Some(j) => Some((i, j)),
            None => first_exact(m_runs, windows, s_runs, sources, width, i + 1),
        }
    }
}

/// The finding of the exact comparison of a width.
pub open spec fn exact_finding(
    m_runs: Seq<Seq<TokenModel>>,
    s_runs: Seq<Seq<TokenModel>>,
    source: SourceModel,
    width: int,
    rule: CopyRule,
) -> Option<FindingModel> {
    let windows = fixed_windows(m_runs, width);
    let sources = open_windows(s_runs, fixed_windows(s_runs, width), source.exempt);
    match first_exact(m_runs, windows, s_runs, sources, width, 0) {
        None => None,
        Some((i, j)) => Some(
            FindingModel {
                source_id: source.id,
                manuscript_range: window_range(m_runs, windows[i]),
                source_range: window_range(s_runs, sources[j]),
                rule,
                score_percent: 100,
                blocking: true,
            },
        ),
    }
}

fn same_tokens(a: &[Token], a_start: usize, b: &[Token], b_start: usize, width: usize) -> (r: bool)
    requires
        a_start + width <= a@.len(),
        b_start + width <= b@.len(),
    ensures
        r == same_texts(
            tokens(a@),
            a_start as int,
            tokens(b@),
            b_start as int,
            width as int,
        ),
{
    let ghost x = tokens(a@);
    let ghost y = tokens(b@);
    let a_length: usize = a.len();
    let b_length: usize = b.len();
    let mut k: usize = 0;
    while k < width
        invariant
            k <= width,
            a_length == a@.len(),
            b_length == b@.len(),
            a_start + width <= a_length,
            b_start + width <= b_length,
            x == tokens(a@),
            y == tokens(b@),
            forall|i: int| 0 <= i < k ==> (#[trigger] x[a_start + i]).0 == y[b_start + i].0,
        decreases width - k,
    {
        assert(x[a_start + k] == a@[a_start + k]@);
        assert(y[b_start + k] == b@[b_start + k]@);
        if !(a[a_start + k].normalized == b[b_start + k].normalized) {
            return false;
        }
        k += 1;
    }
    true
}

/// The hash of a window of a width.
pub open spec fn window_hash(all: Seq<Seq<TokenModel>>, w: IndexedWindow, width: int) -> int {
    poly(token_hashes(all[w.run as int]), w.start as int, width, window_base())
}

fn run_hashes(all: &[&[Token]], width: usize) -> (r: Vec<Vec<u64>>)
    requires
        width >= 1,
    ensures
        r@.len() == all@.len(),
        forall|k: int|
            #![trigger r@[k]]
            0 <= k < r@.len() ==> r@[k]@.len() == (if all@[k]@.len() >= width {
                all@[k]@.len() - width + 1
            } else {
                0
            }) && forall|s: int|
                0 <= s < r@[k]@.len() ==> #[trigger] r@[k]@[s] == poly(
                    token_hashes(slices(all@)[k]),
                    s,
                    width as int,
                    window_base(),
                ),
{
    let mut out: Vec<Vec<u64>> = Vec::new();
    let mut i: usize = 0;
    while i < all.len()
        invariant
            i <= all@.len(),
            width >= 1,
            out@.len() == i,
            forall|k: int|
                #![trigger out@[k]]
                0 <= k < i ==> out@[k]@.len() == (if all@[k]@.len() >= width {
                    all@[k]@.len() - width + 1
                } else {
                    0
                }) && forall|s: int|
                    0 <= s < out@[k]@.len() ==> #[trigger] out@[k]@[s] == poly(
                        token_hashes(slices(all@)[k]),
                        s,
                        width as int,
                        window_base(),
                    ),
        decreases all@.len() - i,
    {
        assert(slices(all@)[i as int] == tokens(all@[i as int]@));
        out.push(rolling_hashes(all[i], width));
        i += 1;
    }
    out
}

proof fn lemma_agreeing_hashes(
    m_runs: Seq<Seq<TokenModel>>,
    m: IndexedWindow,
    s_runs: Seq<Seq<TokenModel>>,
    s: IndexedWindow,
    width: int,
)
    requires
        windows_agree(m_runs, m, s_runs, s, width),
        window_fits(m_runs, m),
        window_fits(s_runs, s),
        m.end - m.start == width,
        s.end - s.start == width,
    ensures
        window_hash(m_runs, m, width) == window_hash(s_runs, s, width),
{
    let a = token_hashes(m_runs[m.run as int]);
    let b = token_hashes(s_runs[s.run as int]);
    assert forall|k: int| 0 <= k < width implies #[trigger] a[m.start + k] == b[s.start + k] by {
        assert(m_runs[m.run as int][m.start + k].0 == s_runs[s.run as int][s.start + k].0);
    }
    equal_windows_hash_equally(a, m.start as int, b, s.start as int, width, window_base());
}

fn find_agreeing(
    m_runs: &[&[Token]],
    m: IndexedWindow,
    m_hash: u64,
    s_runs: &[&[Token]],
    sources: &[IndexedWindow],
    hashes: &[u64],
    index: &ChainIndex,
    width: usize,
) -> (r: Option<usize>)
    requires
        width >= 1,
        window_fits(slices(m_runs@), m),
        m.end - m.start == width,
        m_hash == window_hash(slices(m_runs@), m, width as int),
        windows_fit(slices(s_runs@), sources@),
        forall|j: int|
            0 <= j < sources@.len() ==> (#[trigger] sources@[j]).end - sources@[j].start == width,
        hashes@.len() == sources@.len(),
        forall|j: int|
            0 <= j < hashes@.len() ==> #[trigger] hashes@[j] == window_hash(
                slices(s_runs@),
                sources@[j],
                width as int,
            ),
        index.covers(hashes@),
    ensures
        match r {
            Some(j) => j < sources@.len() && first_agreeing(
                slices(m_runs@),
                m,
                slices(s_runs@),
                sources@,
                width as int,
                0,
            ) == Some(j as int),
            None => first_agreeing(
                slices(m_runs@),
                m,
                slices(s_runs@),
                sources@,
                width as int,
                0,
            ) is None,
        },
{
    let ghost mr = slices(m_runs@);
    let ghost sr = slices(s_runs@);
    let ghost hs = hashes@;
    let n: usize = sources.len();
    let mut j: usize = index.first(m_hash, Ghost(hs));
    proof {
        lemma_first_at(hs, m_hash, 0);
        lemma_skip_agreeing(mr, m, sr, sources@, width as int, hs, m_hash, 0, j as int);
    }
    while j < n
        invariant
            width >= 1,
            n == sources@.len(),
            j <= n,
            mr == slices(m_runs@),
            sr == slices(s_runs@),
            hs == hashes@,
            window_fits(mr, m),
            m.end - m.start == width,
            m_hash == window_hash(mr, m, width as int),
            windows_fit(sr, sources@),
            forall|i: int|
                0 <= i < sources@.len() ==> (#[trigger] sources@[i]).end - sources@[i].start
                    == width,
            hs.len() == sources@.len(),
            forall|i: int|
                0 <= i < hs.len() ==> #[trigger] hs[i] == window_hash(
                    sr,
                    sources@[i],
                    width as int,
                ),
            index.covers(hs),
            j < n ==> hs[j as int] == m_hash,
            first_agreeing(mr, m, sr, sources@, width as int, 0) == first_agreeing(
                mr,
                m,
                sr,
                sources@,
                width as int,
                j as int,
            ),
        decreases n - j,
    {
        let s = sources[j];
        assert(window_fits(sr, sources@[j as int]));
        assert(sources@[j as int].end - sources@[j as int].start == width);
        assert(mr[m.run as int] == tokens(m_runs@[m.run as int]@));
        assert(sr[s.run as int] == tokens(s_runs@[s.run as int]@));
        if same_tokens(m_runs[m.run], m.start, s_runs[s.run], s.start, width) {
            return Some(j);
        }
        let next: usize = index.after(j, Ghost(hs));
        proof {
            lemma_first_at(hs, m_hash, j + 1);
            lemma_skip_agreeing(mr, m, sr, sources@, width as int, hs, m_hash, j + 1, next as int);
        }
        j = next;
    }
    None
}

proof fn lemma_skip_agreeing(
    mr: Seq<Seq<TokenModel>>,
    m: IndexedWindow,
    sr: Seq<Seq<TokenModel>>,
    sources: Seq<IndexedWindow>,
    width: int,
    hashes: Seq<u64>,
    hash: u64,
    from: int,
    to: int,
)
    requires
        0 <= from <= to <= sources.len(),
        window_fits(mr, m),
        m.end - m.start == width,
        hash == window_hash(mr, m, width),
        windows_fit(sr, sources),
        forall|i: int|
            0 <= i < sources.len() ==> (#[trigger] sources[i]).end - sources[i].start == width,
        hashes.len() == sources.len(),
        forall|i: int|
            0 <= i < hashes.len() ==> #[trigger] hashes[i] == window_hash(sr, sources[i], width),
        forall|k: int| from <= k < to ==> #[trigger] hashes[k] != hash,
    ensures
        first_agreeing(mr, m, sr, sources, width, from) == first_agreeing(
            mr,
            m,
            sr,
            sources,
            width,
            to,
        ),
    decreases to - from,
{
    if from < to {
        assert(hashes[from] == window_hash(sr, sources[from], width));
        assert(window_fits(sr, sources[from]));
        if windows_agree(mr, m, sr, sources[from], width) {
            lemma_agreeing_hashes(mr, m, sr, sources[from], width);
            assert(false);
        }
        lemma_skip_agreeing(mr, m, sr, sources, width, hashes, hash, from + 1, to);
    }
}

fn list_open_windows(
    s_runs: &[&[Token]],
    windows: &[IndexedWindow],
    exempt: &[ByteRange],
    width: usize,
) -> (r: Vec<IndexedWindow>)
    requires
        windows_fit(slices(s_runs@), windows@),
        forall|i: int|
            0 <= i < windows@.len() ==> (#[trigger] windows@[i]).end - windows@[i].start == width,
    ensures
        r@ == open_windows(slices(s_runs@), windows@, exempt@),
        windows_fit(slices(s_runs@), r@),
        forall|i: int| 0 <= i < r@.len() ==> (#[trigger] r@[i]).end - r@[i].start == width,
{
    let ghost sr = slices(s_runs@);
    let ghost keep = |w: IndexedWindow| !is_exempt_range(exempt@, window_range(sr, w));
    let mut out: Vec<IndexedWindow> = Vec::new();
    let mut i: usize = 0;
    assert(out@ =~= windows@.take(0).filter(keep)) by {
        reveal(Seq::filter);
    }
    while i < windows.len()
        invariant
            i <= windows@.len(),
            sr == slices(s_runs@),
            keep == (|w: IndexedWindow| !is_exempt_range(exempt@, window_range(sr, w))),
            windows_fit(sr, windows@),
            forall|k: int|
                0 <= k < windows@.len() ==> (#[trigger] windows@[k]).end - windows@[k].start
                    == width,
            out@ == windows@.take(i as int).filter(keep),
            windows_fit(sr, out@),
            forall|k: int| 0 <= k < out@.len() ==> (#[trigger] out@[k]).end - out@[k].start == width,
        decreases windows@.len() - i,
    {
        reveal(Seq::filter);
        let ghost t = windows@.take(i + 1);
        assert(t.drop_last() =~= windows@.take(i as int));
        let w = windows[i];
        assert(window_fits(sr, windows@[i as int]));
        if !is_exempt(exempt, token_range(s_runs, w)) {
            out.push(w);
        }
        i += 1;
    }
    assert(windows@.take(windows@.len() as int) =~= windows@);
    out
}

fn scan_exact_witness(
    m_runs: &[&[Token]],
    s_runs: &[&[Token]],
    source: &AllowedSource,
    width: usize,
    rule: CopyRule,
) -> (r: Option<CopyFinding>)
    requires
        width >= 1,
    ensures
        match r {
            Some(finding) => exact_finding(
                slices(m_runs@),
                slices(s_runs@),
                source@,
                width as int,
                rule,
            ) == Some(finding@),
            None => exact_finding(
                slices(m_runs@),
                slices(s_runs@),
                source@,
                width as int,
                rule,
            ) is None,
        },
{
    let ghost mr = slices(m_runs@);
    let ghost sr = slices(s_runs@);
    let all_sources = list_fixed_windows(s_runs, width);
    let sources = list_open_windows(
        s_runs,
        all_sources.as_slice(),
        source.exempt_ranges.as_slice(),
        width,
    );
    let source_hashes = run_hashes(s_runs, width);
    let mut hashes: Vec<u64> = Vec::new();
    let mut k: usize = 0;
    while k < sources.len()
        invariant
            k <= sources@.len(),
            width >= 1,
            sr == slices(s_runs@),
            windows_fit(sr, sources@),
            forall|i: int|
                0 <= i < sources@.len() ==> (#[trigger] sources@[i]).end - sources@[i].start
                    == width,
            source_hashes@.len() == s_runs@.len(),
            forall|i: int|
                #![trigger source_hashes@[i]]
                0 <= i < source_hashes@.len() ==> source_hashes@[i]@.len() == (if s_runs@[i]@.len()
                    >= width {
                    s_runs@[i]@.len() - width + 1
                } else {
                    0
                }) && forall|s: int|
                    0 <= s < source_hashes@[i]@.len() ==> #[trigger] source_hashes@[i]@[s] == poly(
                        token_hashes(sr[i]),
                        s,
                        width as int,
                        window_base(),
                    ),
            hashes@.len() == k,
            forall|i: int|
                0 <= i < k ==> #[trigger] hashes@[i] == window_hash(sr, sources@[i], width as int),
        decreases sources@.len() - k,
    {
        let w = sources[k];
        assert(window_fits(sr, sources@[k as int]));
        assert(sources@[k as int].end - sources@[k as int].start == width);
        assert(sr[w.run as int].len() == s_runs@[w.run as int]@.len());
        hashes.push(source_hashes[w.run][w.start]);
        k += 1;
    }
    let index = ChainIndex::build(hashes.as_slice());
    let windows = list_fixed_windows(m_runs, width);
    let m_hashes = run_hashes(m_runs, width);
    let mut i: usize = 0;
    while i < windows.len()
        invariant
            i <= windows@.len(),
            width >= 1,
            mr == slices(m_runs@),
            sr == slices(s_runs@),
            windows_fit(mr, windows@),
            windows_fit(sr, sources@),
            windows@ == fixed_windows(mr, width as int),
            sources@ == open_windows(sr, fixed_windows(sr, width as int), source@.exempt),
            forall|x: int|
                0 <= x < windows@.len() ==> (#[trigger] windows@[x]).end - windows@[x].start
                    == width,
            forall|x: int|
                0 <= x < sources@.len() ==> (#[trigger] sources@[x]).end - sources@[x].start
                    == width,
            m_hashes@.len() == m_runs@.len(),
            forall|x: int|
                #![trigger m_hashes@[x]]
                0 <= x < m_hashes@.len() ==> m_hashes@[x]@.len() == (if m_runs@[x]@.len()
                    >= width {
                    m_runs@[x]@.len() - width + 1
                } else {
                    0
                }) && forall|s: int|
                    0 <= s < m_hashes@[x]@.len() ==> #[trigger] m_hashes@[x]@[s] == poly(
                        token_hashes(mr[x]),
                        s,
                        width as int,
                        window_base(),
                    ),
            hashes@.len() == sources@.len(),
            forall|x: int|
                0 <= x < hashes@.len() ==> #[trigger] hashes@[x] == window_hash(
                    sr,
                    sources@[x],
                    width as int,
                ),
            index.covers(hashes@),
            first_exact(mr, windows@, sr, sources@, width as int, 0) == first_exact(
                mr,
                windows@,
                sr,
                sources@,
                width as int,
                i as int,
            ),
        decreases windows@.len() - i,
    {
        let m = windows[i];
        assert(window_fits(mr, windows@[i as int]));
        assert(windows@[i as int].end - windows@[i as int].start == width);
        assert(mr[m.run as int].len() == m_runs@[m.run as int]@.len());
        let m_hash: u64 = m_hashes[m.run][m.start];
        match find_agreeing(
            m_runs,
            m,
            m_hash,
            s_runs,
            sources.as_slice(),
            hashes.as_slice(),
            &index,
            width,
        ) {
            Some(j) => {
                assert(window_fits(sr, sources@[j as int]));
                return Some(
                    CopyFinding {
                        source_id: source.source_id.clone(),
                        manuscript_range: token_range(m_runs, m),
                        source_range: token_range(s_runs, sources[j]),
                        rule,
                        score_percent: 100,
                        blocking: true,
                    },
                );
            },
            None => {},
        }
        i += 1;
    }
    None
}

/// The number of n-grams in a window.
pub open spec fn gram_count(w: IndexedWindow, size: int) -> int {
    if w.end - w.start >= size {
        w.end - w.start - size + 1
    } else {
        0
    }
}

fn ngram_count(w: IndexedWindow, size: usize) -> (r: usize)
    requires
        w.start <= w.end,
        size >= 1,
    ensures
        r == gram_count(w, size as int),
{
    let length: usize = w.end - w.start;
    if length >= size {
        length - size + 1
    } else {
        0
    }
}

/// The fingerprints of all n-grams of a run.
pub open spec fn run_grams(run: Seq<TokenModel>, size: int) -> Seq<int> {
    Seq::new(
        (if run.len() >= size {
            run.len() - size + 1
        } else {
            0
        }) as nat,
        |start: int| gram_at(run, start, size),
    )
}

/// The sorted fingerprints of a window.
pub open spec fn window_signature(all: Seq<Seq<TokenModel>>, w: IndexedWindow, size: int) -> Seq<
    int,
> {
    if gram_count(w, size) == 0 {
        Seq::empty()
    } else {
        signature(run_grams(all[w.run as int], size), w.start as int, gram_count(w, size))
    }
}

fn all_grams(all: &[&[Token]], size: usize) -> (r: Vec<Vec<Gram>>)
    requires
        size >= 1,
    ensures
        r@.len() == all@.len(),
        forall|k: int|
            0 <= k < r@.len() ==> values((#[trigger] r@[k])@) == run_grams(
                slices(all@)[k],
                size as int,
            ),
{
    let mut out: Vec<Vec<Gram>> = Vec::new();
    let mut i: usize = 0;
    while i < all.len()
        invariant
            i <= all@.len(),
            size >= 1,
            out@.len() == i,
            forall|k: int|
                0 <= k < i ==> values((#[trigger] out@[k])@) == run_grams(
                    slices(all@)[k],
                    size as int,
                ),
        decreases all@.len() - i,
    {
        let grams = ngram_fingerprints(all[i], size);
        assert(slices(all@)[i as int] == tokens(all@[i as int]@));
        assert(values(grams@) =~= run_grams(slices(all@)[i as int], size as int));
        out.push(grams);
        i += 1;
    }
    out
}

/// The number of n-grams in all windows.
pub open spec fn total_grams(windows: Seq<IndexedWindow>, size: int) -> int
    decreases windows.len(),
{
    if windows.len() == 0 {
        0
    } else {
        total_grams(windows.drop_last(), size) + gram_count(windows.last(), size)
    }
}

proof fn lemma_total_grows(windows: Seq<IndexedWindow>, size: int, k: int)
    requires
        0 <= k <= windows.len(),
    ensures
        0 <= total_grams(windows.take(k), size) <= total_grams(windows, size),
    decreases windows.len(),
{
    if windows.len() > 0 {
        if k == windows.len() {
            assert(windows.take(k) =~= windows);
            lemma_total_grows(windows.drop_last(), size, 0);
            assert(windows.drop_last().take(0) =~= Seq::<IndexedWindow>::empty());
        } else {
            lemma_total_grows(windows.drop_last(), size, k);
            assert(windows.drop_last().take(k) =~= windows.take(k));
        }
    }
}

fn within_gram_budget(windows: &[IndexedWindow], size: usize) -> (r: bool)
    requires
        size >= 1,
        forall|i: int|
            0 <= i < windows@.len() ==> (#[trigger] windows@[i]).start < windows@[i].end,
    ensures
        r == (total_grams(windows@, size as int) <= MAX_NGRAM_SIGNATURE_ITEMS),
{
    let mut total: usize = 0;
    let mut i: usize = 0;
    while i < windows.len()
        invariant
            i <= windows@.len(),
            size >= 1,
            forall|k: int|
                0 <= k < windows@.len() ==> (#[trigger] windows@[k]).start < windows@[k].end,
            total == total_grams(windows@.take(i as int), size as int),
            total <= MAX_NGRAM_SIGNATURE_ITEMS,
        decreases windows@.len() - i,
    {
        assert(windows@.take(i + 1).drop_last() =~= windows@.take(i as int));
        assert(windows@[i as int].start < windows@[i as int].end);
        let count: usize = ngram_count(windows[i], size);
        if count > MAX_NGRAM_SIGNATURE_ITEMS - total {
            proof {
                lemma_total_grows(windows@, size as int, i + 1);
            }
            return false;
        }
        total += count;
        i += 1;
    }
    assert(windows@.take(windows@.len() as int) =~= windows@);
    true
}

/// The least number of common n-grams that counts as a copy: a percentage, rounded up.
pub open spec fn required_overlap(count: int, percent: int) -> int {
    (count * percent + 99) / 100
}

/// The number of smallest fingerprints that are compared first.
pub open spec fn prefix_length(count: int, percent: int) -> int {
    let length = count - required_overlap(count, percent) + 1;
    if length < count {
        length
    } else {
        count
    }
}

fn overlap_needed(count: usize, percent: u8) -> (r: usize)
    requires
        percent <= 100,
    ensures
        r == required_overlap(count as int, percent as int),
        r <= count,
{
    assert(0 <= count * percent <= count * 100) by (nonlinear_arith)
        requires
            percent <= 100,
            count >= 0,
    ;
    let product: u128 = (count as u128) * (percent as u128);
    assert(product == count * percent) by (nonlinear_arith)
        requires
            product == (count as u128) * (percent as u128),
    ;
    ((product + 99) / 100) as usize
}

fn prefix_needed(count: usize, percent: u8) -> (r: usize)
    requires
        1 <= percent <= 100,
    ensures
        r == prefix_length(count as int, percent as int),
        r <= count,
        count > 0 ==> r > 0,
{
    let needed: usize = overlap_needed(count, percent);
    proof {
        lemma_required_positive(count as int, percent as int);
    }
    if needed == 0 {
        count
    } else {
        count - needed + 1
    }
}

proof fn lemma_required_positive(count: int, percent: int)
    requires
        1 <= percent <= 100,
        count >= 0,
    ensures
        count > 0 ==> 1 <= required_overlap(count, percent) <= count,
        count == 0 ==> required_overlap(count, percent) == 0,
{
    assert(count <= count * percent <= count * 100) by (nonlinear_arith)
        requires
            1 <= percent <= 100,
            count >= 0,
    ;
}

/// An n-gram comparison: sorted fingerprints of manuscript windows (classes) and of source
/// windows, which of the latter are open, and the percentage that counts as a copy.
pub struct NgramScan {
    pub classes: Seq<Seq<int>>,
    pub windows: Seq<Seq<int>>,
    pub open: Seq<bool>,
    pub percent: int,
}

/// How an n-gram comparison ends.
pub enum NgramVisit {
    /// A source window and a class share enough; so many candidates were verified in all.
    Found {
        window: int,
        class: int,
        used: int,
    },
    /// No candidate shares enough; so many were verified in all.
    Clean {
        used: int,
    },
    /// The budget of verifications is exhausted.
    Exceeded,
}

/// The fingerprints of a list that are compared first.
pub open spec fn prefix(list: Seq<int>, percent: int) -> Seq<int> {
    list.take(prefix_length(list.len() as int, percent))
}

/// Whether a source window takes part: it holds an n-gram and is not exempt.
pub open spec fn takes_part(scan: NgramScan, w: int) -> bool {
    scan.windows[w].len() > 0 && scan.open[w]
}

/// Whether a class shares the prefix fingerprint `p` of a source window and none before it.
pub open spec fn first_shared(scan: NgramScan, w: int, p: int, c: int) -> bool {
    let keys = prefix(scan.windows[w], scan.percent);
    let own = prefix(scan.classes[c], scan.percent);
    own.contains(keys[p]) && forall|q: int| 0 <= q < p ==> !own.contains(#[trigger] keys[q])
}

/// Whether a source window and a class share enough fingerprints.
pub open spec fn shares_enough(scan: NgramScan, w: int, c: int) -> bool {
    let a = scan.windows[w];
    let b = scan.classes[c];
    shared_count(a, b) >= required_overlap(
        if a.len() >= b.len() {
            a.len() as int
        } else {
            b.len() as int
        },
        scan.percent,
    )
}

/// The comparison from a position on: source windows in order, for each the fingerprints of its
/// prefix in order, for each of them the classes that share it, each pair verified once.
pub open spec fn visit(scan: NgramScan, w: int, p: int, c: int, used: int) -> NgramVisit
    decreases
            scan.windows.len() - w,
            prefix(scan.windows[w], scan.percent).len() - p,
            scan.classes.len() - c,
    when 0 <= w && 0 <= p && 0 <= c
{
    if w >= scan.windows.len() {
        NgramVisit::Clean { used }
    } else if !takes_part(scan, w) || p >= prefix(scan.windows[w], scan.percent).len() {
        visit(scan, w + 1, 0, 0, used)
    } else if c >= scan.classes.len() {
        visit(scan, w, p + 1, 0, used)
    } else if !first_shared(scan, w, p, c) {
        visit(scan, w, p, c + 1, used)
    } else if used >= MAX_CANDIDATE_VERIFICATIONS {
        NgramVisit::Exceeded
    } else if shares_enough(scan, w, c) {
        NgramVisit::Found { window: w, class: c, used: used + 1 }
    } else {
        visit(scan, w, p, c + 1, used + 1)
    }
}

proof fn lemma_visit_skip(scan: NgramScan, w: int, p: int, from: int, to: int, used: int)
    requires
        0 <= w < scan.windows.len(),
        takes_part(scan, w),
        0 <= p < prefix(scan.windows[w], scan.percent).len(),
        0 <= from <= to <= scan.classes.len(),
        forall|c: int|
            from <= c < to ==> !prefix(#[trigger] scan.classes[c], scan.percent).contains(
                prefix(scan.windows[w], scan.percent)[p],
            ),
    ensures
        visit(scan, w, p, from, used) == visit(scan, w, p, to, used),
    decreases to - from,
{
    if from < to {
        assert(!prefix(scan.classes[from], scan.percent).contains(
            prefix(scan.windows[w], scan.percent)[p],
        ));
        lemma_visit_skip(scan, w, p, from + 1, to, used);
    }
}

struct NgramClass {
    window: IndexedWindow,
    signature: Vec<Gram>,
}

/// The signatures of classes.
spec fn class_signatures(classes: Seq<NgramClass>) -> Seq<Seq<int>> {
    classes.map_values(|class: NgramClass| values(class.signature@))
}

/// The windows of classes.
spec fn class_windows(classes: Seq<NgramClass>) -> Seq<IndexedWindow> {
    classes.map_values(|class: NgramClass| class.window)
}

/// The manuscript windows that hold an n-gram.
pub open spec fn gram_windows(windows: Seq<IndexedWindow>, size: int) -> Seq<IndexedWindow> {
    windows.filter(|w: IndexedWindow| gram_count(w, size) > 0)
}

/// The sorted fingerprints of windows.
pub open spec fn window_signatures(
    all: Seq<Seq<TokenModel>>,
    windows: Seq<IndexedWindow>,
    size: int,
) -> Seq<Seq<int>> {
    windows.map_values(|w: IndexedWindow| window_signature(all, w, size))
}

fn copy_grams(list: &[Gram]) -> (r: Vec<Gram>)
    ensures
        r@ == list@,
{
    let mut out: Vec<Gram> = Vec::new();
    let mut i: usize = 0;
    while i < list.len()
        invariant
            i <= list@.len(),
            out@ == list@.take(i as int),
        decreases list@.len() - i,
    {
        out.push(list[i]);
        i += 1;
        assert(out@ =~= list@.take(i as int));
    }
    assert(list@.take(list@.len() as int) =~= list@);
    out
}

fn empty_sliding(Ghost(grams): Ghost<Seq<int>>) -> (r: Sliding)
    ensures
        r.covers(grams),
{
    let r = Sliding { start: 0, count: 0, list: Vec::new() };
    proof {
        lemma_sort_ascends(grams.subrange(0, 0));
        assert(values(r.list@) =~= signature(grams, 0, 0));
    }
    r
}

/// Moves the sorted fingerprints to a window, in whichever run it lies.
fn move_to(
    sliding: &mut Sliding,
    current: usize,
    all: &[&[Token]],
    grams: &[Vec<Gram>],
    w: IndexedWindow,
    size: usize,
)
    requires
        size >= 1,
        grams@.len() == all@.len(),
        forall|k: int|
            0 <= k < grams@.len() ==> values((#[trigger] grams@[k])@) == run_grams(
                slices(all@)[k],
                size as int,
            ),
        window_fits(slices(all@), w),
        gram_count(w, size as int) > 0,
        current < grams@.len() ==> old(sliding).covers(values(grams@[current as int]@)),
    ensures
        final(sliding).covers(values(grams@[w.run as int]@)),
        values(final(sliding).list@) == window_signature(slices(all@), w, size as int),
        final(sliding).list@.len() == gram_count(w, size as int),
{
    let ghost run = values(grams@[w.run as int]@);
    if current != w.run {
        *sliding = empty_sliding(Ghost(run));
    }
    let count: usize = ngram_count(w, size);
    assert(run.len() == grams@[w.run as int]@.len());
    assert(run == run_grams(slices(all@)[w.run as int], size as int));
    slide(sliding, grams[w.run].as_slice(), w.start, count);
    proof {
        lemma_sort_ascends(run.subrange(w.start as int, w.start + count));
        assert(values(sliding.list@).len() == sliding.list@.len());
    }
}

fn build_ngram_classes(all: &[&[Token]], windows: &[IndexedWindow], size: usize) -> (r: Vec<
    NgramClass,
>)
    requires
        size >= 1,
        windows_fit(slices(all@), windows@),
    ensures
        class_windows(r@) == gram_windows(windows@, size as int),
        class_signatures(r@) == window_signatures(
            slices(all@),
            gram_windows(windows@, size as int),
            size as int,
        ),
        forall|i: int|
            0 <= i < r@.len() ==> window_fits(slices(all@), (#[trigger] r@[i]).window)
                && r@[i].signature@.len() > 0 && ascending(values(r@[i].signature@)),
{
    let ghost runs_model = slices(all@);
    let ghost keep = |w: IndexedWindow| gram_count(w, size as int) > 0;
    let grams = all_grams(all, size);
    let mut sliding = Sliding { start: 0, count: 0, list: Vec::new() };
    let mut current: usize = all.len();
    let mut out: Vec<NgramClass> = Vec::new();
    let mut i: usize = 0;
    assert(class_windows(out@) =~= windows@.take(0).filter(keep)) by {
        reveal(Seq::filter);
    }
    while i < windows.len()
        invariant
            i <= windows@.len(),
            size >= 1,
            runs_model == slices(all@),
            keep == (|w: IndexedWindow| gram_count(w, size as int) > 0),
            windows_fit(runs_model, windows@),
            grams@.len() == all@.len(),
            forall|k: int|
                0 <= k < grams@.len() ==> values((#[trigger] grams@[k])@) == run_grams(
                    runs_model[k],
                    size as int,
                ),
            current < grams@.len() ==> sliding.covers(values(grams@[current as int]@)),
            class_windows(out@) == windows@.take(i as int).filter(keep),
            forall|k: int|
                0 <= k < out@.len() ==> window_fits(runs_model, (#[trigger] out@[k]).window)
                    && out@[k].signature@.len() > 0 && values(out@[k].signature@)
                    == window_signature(runs_model, out@[k].window, size as int) && ascending(
                    values(out@[k].signature@),
                ),
        decreases windows@.len() - i,
    {
        reveal(Seq::filter);
        let ghost t = windows@.take(i + 1);
        assert(t.drop_last() =~= windows@.take(i as int));
        let w = windows[i];
        assert(window_fits(runs_model, windows@[i as int]));
        if ngram_count(w, size) > 0 {
            move_to(&mut sliding, current, all, grams.as_slice(), w, size);
            current = w.run;
            let ghost before = class_windows(out@);
            let class = NgramClass { window: w, signature: copy_grams(sliding.list.as_slice()) };
            proof {
                lemma_sort_ascends(
                    run_grams(runs_model[w.run as int], size as int).subrange(
                        w.start as int,
                        w.start + gram_count(w, size as int),
                    ),
                );
            }
            out.push(class);
            assert(class_windows(out@) =~= before.push(w));
        }
        i += 1;
    }
    assert(windows@.take(windows@.len() as int) =~= windows@);
    proof {
        let sigs = class_signatures(out@);
        let want = window_signatures(
            runs_model,
            gram_windows(windows@, size as int),
            size as int,
        );
        assert forall|k: int| 0 <= k < sigs.len() implies #[trigger] sigs[k] == want[k] by {
            assert(class_windows(out@)[k] == out@[k].window);
            assert(values(out@[k].signature@) == window_signature(
                runs_model,
                out@[k].window,
                size as int,
            ));
        }
        assert(class_windows(out@).len() == out@.len());
        assert(sigs =~= want);
    }
    out
}

struct Posting {
    class: usize,
    key: Gram,
}

spec fn posting_hash(key: Gram) -> u64 {
    key.lo as u64
}

spec fn postings_complete(
    classes: Seq<NgramClass>,
    upto: int,
    postings: Seq<Posting>,
    percent: int,
) -> bool {
    &&& forall|j: int|
        0 <= j < postings.len() ==> (#[trigger] postings[j]).class < upto && prefix(
            values(classes[postings[j].class as int].signature@),
            percent,
        ).contains(postings[j].key@)
    &&& forall|i: int, j: int|
        0 <= i < j < postings.len() ==> (#[trigger] postings[i]).class <= (
        #[trigger] postings[j]).class
    &&& forall|c: int, key: int|
        0 <= c < upto && (#[trigger] prefix(
            values(classes[c].signature@),
            percent,
        ).contains(key)) ==> has_posting(postings, c, key)
}

spec fn has_posting(postings: Seq<Posting>, c: int, key: int) -> bool {
    exists|j: int|
        0 <= j < postings.len() && (#[trigger] postings[j]).class == c && postings[j].key@ == key
}

fn build_postings(classes: &[NgramClass], percent: u8) -> (r: Vec<Posting>)
    requires
        1 <= percent <= 100,
    ensures
        postings_complete(classes@, classes@.len() as int, r@, percent as int),
{
    let mut out: Vec<Posting> = Vec::new();
    let mut c: usize = 0;
    while c < classes.len()
        invariant
            c <= classes@.len(),
            1 <= percent <= 100,
            postings_complete(classes@, c as int, out@, percent as int),
        decreases classes@.len() - c,
    {
        let list = &classes[c].signature;
        let ghost sig = values(list@);
        let ghost own = prefix(sig, percent as int);
        let length: usize = prefix_needed(list.len(), percent);
        assert(sig.len() == list@.len());
        let ghost before = out@;
        let mut k: usize = 0;
        while k < length
            invariant
                k <= length <= list@.len(),
                c < classes@.len(),
                list@ == classes@[c as int].signature@,
                sig == values(list@),
                own == prefix(sig, percent as int),
                own == sig.take(length as int),
                postings_complete(classes@, c as int, before, percent as int),
                out@.len() == before.len() + k,
                forall|j: int| 0 <= j < before.len() ==> #[trigger] out@[j] == before[j],
                forall|j: int|
                    before.len() <= j < out@.len() ==> (#[trigger] out@[j]).class == c
                        && out@[j].key@ == own[j - before.len()],
            decreases length - k,
        {
            assert(own[k as int] == list@[k as int]@);
            out.push(Posting { class: c, key: list[k] });
            k += 1;
        }
        proof {
            let all = out@;
            assert forall|j: int| 0 <= j < all.len() implies (#[trigger] all[j]).class < c + 1
                && prefix(
                values(classes@[all[j].class as int].signature@),
                percent as int,
            ).contains(all[j].key@) by {
                if j < before.len() {
                    assert(all[j] == before[j]);
                } else {
                    assert(own[j - before.len()] == all[j].key@);
                }
            }
            assert forall|i: int, j: int| 0 <= i < j < all.len() implies (#[trigger] all[i]).class
                <= (#[trigger] all[j]).class by {
                if j < before.len() {
                    assert(all[i] == before[i] && all[j] == before[j]);
                } else if i < before.len() {
                    assert(all[i] == before[i]);
                }
            }
            assert forall|d: int, key: int|
                0 <= d < c + 1 && (#[trigger] prefix(
                    values(classes@[d].signature@),
                    percent as int,
                ).contains(key)) implies has_posting(all, d, key) by {
                if d < c {
                    assert(has_posting(before, d, key));
                    let j = choose|j: int|
                        0 <= j < before.len() && (#[trigger] before[j]).class == d
                            && before[j].key@ == key;
                    assert(all[j].class == d);
                } else {
                    let m = choose|m: int| 0 <= m < own.len() && own[m] == key;
                    assert(all[before.len() + m].class == c);
                }
            }
        }
        c += 1;
    }
    out
}

/// What a comparison has seen: a stamp for every class.
spec fn stamps_fit(
    scan: NgramScan,
    w: int,
    p: int,
    next: int,
    stamps: Seq<u64>,
    epoch: u64,
) -> bool {
    let keys = prefix(scan.windows[w], scan.percent);
    &&& stamps.len() == scan.classes.len()
    &&& forall|c: int|
        0 <= c < stamps.len() ==> (#[trigger] stamps[c]) <= epoch && (stamps[c] == epoch <==> (
        exists|q: int|
            0 <= q < p && prefix(scan.classes[c], scan.percent).contains(#[trigger] keys[q]))
            || (c < next && p < keys.len() && prefix(scan.classes[c], scan.percent).contains(
            keys[p],
        )))
}

/// Where a comparison of one source window ended.
enum WindowVisit {
    Found(usize),
    Clean,
    Exceeded,
}

fn visit_window(
    Ghost(scan): Ghost<NgramScan>,
    Ghost(w): Ghost<int>,
    list: &[Gram],
    classes: &[NgramClass],
    postings: &[Posting],
    hashes: &[u64],
    index: &ChainIndex,
    percent: u8,
    stamps: &mut Vec<u64>,
    epoch: u64,
    used: &mut usize,
) -> (r: WindowVisit)
    requires
        1 <= percent <= 100,
        scan.percent == percent,
        0 <= w < scan.windows.len(),
        takes_part(scan, w),
        values(list@) == scan.windows[w],
        ascending(values(list@)),
        class_signatures(classes@) == scan.classes,
        forall|c: int| 0 <= c < classes@.len() ==> ascending(values((#[trigger] classes@[c]).signature@)),
        postings_complete(classes@, classes@.len() as int, postings@, percent as int),
        hashes@.len() == postings@.len(),
        forall|j: int| 0 <= j < hashes@.len() ==> #[trigger] hashes@[j] == posting_hash(postings@[j].key),
        index.covers(hashes@),
        old(stamps)@.len() == classes@.len(),
        forall|c: int| 0 <= c < old(stamps)@.len() ==> (#[trigger] old(stamps)@[c]) < epoch,
        *old(used) <= MAX_CANDIDATE_VERIFICATIONS,
    ensures
        final(stamps)@.len() == classes@.len(),
        forall|c: int| 0 <= c < final(stamps)@.len() ==> (#[trigger] final(stamps)@[c]) <= epoch,
        *final(used) <= MAX_CANDIDATE_VERIFICATIONS,
        match r {
            WindowVisit::Found(c) => c < classes@.len() && visit(
                scan,
                w,
                0,
                0,
                *old(used) as int,
            ) == (NgramVisit::Found { window: w, class: c as int, used: *final(used) as int }),
            WindowVisit::Clean => visit(scan, w, 0, 0, *old(used) as int) == visit(
                scan,
                w + 1,
                0,
                0,
                *final(used) as int,
            ),
            WindowVisit::Exceeded => visit(scan, w, 0, 0, *old(used) as int)
                == NgramVisit::Exceeded,
        },
{
    let ghost keys = prefix(scan.windows[w], scan.percent);
    let ghost start = *used as int;
    let ghost goal = visit(scan, w, 0, 0, start);
    let ghost hs = hashes@;
    let m: usize = classes.len();
    let n: usize = postings.len();
    let length: usize = prefix_needed(list.len(), percent);
    assert(values(list@).len() == list@.len());
    assert(keys.len() == length);
    assert(scan.classes.len() == m);
    let mut p: usize = 0;
    while p < length
        invariant
            1 <= percent <= 100,
            scan.percent == percent,
            0 <= w < scan.windows.len(),
            takes_part(scan, w),
            values(list@) == scan.windows[w],
            ascending(values(list@)),
            m == classes@.len(),
            n == postings@.len(),
            class_signatures(classes@) == scan.classes,
            scan.classes.len() == m,
            forall|c: int|
                0 <= c < classes@.len() ==> ascending(values((#[trigger] classes@[c]).signature@)),
            postings_complete(classes@, m as int, postings@, percent as int),
            hs == hashes@,
            hs.len() == n,
            forall|j: int| 0 <= j < hs.len() ==> #[trigger] hs[j] == posting_hash(postings@[j].key),
            index.covers(hs),
            keys == prefix(scan.windows[w], scan.percent),
            keys.len() == length,
            length == prefix_length(list@.len() as int, percent as int),
            length <= list@.len(),
            values(list@).len() == list@.len(),
            p <= length,
            *used <= MAX_CANDIDATE_VERIFICATIONS,
            stamps_fit(scan, w, p as int, 0, stamps@, epoch),
            start == *old(used),
            goal == visit(scan, w, 0, 0, start),
            goal == visit(scan, w, p as int, 0, *used as int),
        decreases length - p,
    {
        let key = list[p];
        assert(values(list@)[p as int] == list@[p as int]@);
        assert(keys[p as int] == key@);
        let low: u64 = #[verifier::truncate] (key.lo as u64);
        let mut j: usize = index.first(low, Ghost(hs));
        let mut next: usize = 0;
        proof {
            lemma_first_at(hs, low, 0);
            assert forall|i: int|
                0 <= i < j && (#[trigger] postings@[i]).key@ == key@ implies postings@[i].class
                < next by {
                assert(hs[i] != low);
                lemma_gram_injective(postings@[i].key, key);
                assert(hs[i] == posting_hash(postings@[i].key));
            }
        }
        while j < n
            invariant
                1 <= percent <= 100,
                scan.percent == percent,
                0 <= w < scan.windows.len(),
                takes_part(scan, w),
                values(list@) == scan.windows[w],
                ascending(values(list@)),
                m == classes@.len(),
                n == postings@.len(),
                class_signatures(classes@) == scan.classes,
                scan.classes.len() == m,
                forall|c: int|
                    0 <= c < classes@.len() ==> ascending(
                        values((#[trigger] classes@[c]).signature@),
                    ),
                postings_complete(classes@, m as int, postings@, percent as int),
                hs == hashes@,
                hs.len() == n,
                forall|i: int|
                    0 <= i < hs.len() ==> #[trigger] hs[i] == posting_hash(postings@[i].key),
                index.covers(hs),
                keys == prefix(scan.windows[w], scan.percent),
                keys.len() == length,
                p < length,
                keys[p as int] == key@,
                low == posting_hash(key),
                j <= n,
                next <= m,
                j < n ==> hs[j as int] == low,
                forall|i: int|
                    0 <= i < j && (#[trigger] postings@[i]).key@ == key@ ==> postings@[i].class
                        < next,
                *used <= MAX_CANDIDATE_VERIFICATIONS,
                stamps_fit(scan, w, p as int, next as int, stamps@, epoch),
                start == *old(used),
                goal == visit(scan, w, 0, 0, start),
                goal == visit(scan, w, p as int, next as int, *used as int),
            decreases n - j,
        {
            let c: usize = postings[j].class;
            assert(postings@[j as int].class < m);
            if postings[j].key.same(key) && c >= next {
                proof {
                    assert forall|d: int| next <= d < c implies !prefix(
                        #[trigger] scan.classes[d],
                        scan.percent,
                    ).contains(keys[p as int]) by {
                        assert(scan.classes[d] == values(classes@[d].signature@));
                        if prefix(values(classes@[d].signature@), percent as int).contains(
                            key@,
                        ) {
                            assert(has_posting(postings@, d, key@));
                            let x = choose|x: int|
                                0 <= x < postings@.len() && (#[trigger] postings@[x]).class == d
                                    && postings@[x].key@ == key@;
                            if x > j {
                                assert(postings@[j as int].class <= postings@[x].class);
                            }
                            assert(false);
                        }
                    }
                    lemma_visit_skip(scan, w, p as int, next as int, c as int, *used as int);
                    assert(scan.classes[c as int] == values(classes@[c as int].signature@));
                    assert(prefix(scan.classes[c as int], scan.percent).contains(keys[p as int]));
                    assert(stamps@[c as int] <= epoch);
                    lemma_stamps_skip(
                        scan,
                        w,
                        p as int,
                        next as int,
                        c as int,
                        stamps@,
                        epoch,
                    );
                }
                if stamps[c] == epoch {
                    assert(!first_shared(scan, w, p as int, c as int));
                    assert(stamps_fit(scan, w, p as int, c + 1, stamps@, epoch));
                } else {
                    assert(first_shared(scan, w, p as int, c as int));
                    if *used == MAX_CANDIDATE_VERIFICATIONS {
                        return WindowVisit::Exceeded;
                    }
                    let class = &classes[c];
                    let denominator: usize = if list.len() >= class.signature.len() {
                        list.len()
                    } else {
                        class.signature.len()
                    };
                    assert(ascending(values(classes@[c as int].signature@)));
                    assert(values(list@).len() == list@.len());
                    assert(values(class.signature@).len() == class.signature@.len());
                    let shared: usize = multiset_overlap(list, class.signature.as_slice());
                    if shared >= overlap_needed(denominator, percent) {
                        *used += 1;
                        return WindowVisit::Found(c);
                    }
                    let ghost prior = stamps@;
                    stamps.set(c, epoch);
                    *used += 1;
                    proof {
                        assert forall|d: int| 0 <= d < stamps@.len() implies (
                        #[trigger] stamps@[d]) <= epoch && (stamps@[d] == epoch <==> (exists|
                            q: int,
                        |
                            0 <= q < p && prefix(scan.classes[d], scan.percent).contains(
                                #[trigger] keys[q],
                            )) || (d < c + 1 && p < keys.len() && prefix(
                            scan.classes[d],
                            scan.percent,
                        ).contains(keys[p as int]))) by {
                            assert(prior[d] <= epoch);
                        }
                    }
                }
                next = c + 1;
            }
            let ghost old_j = j as int;
            j = index.after(j, Ghost(hs));
            proof {
                lemma_first_at(hs, low, old_j + 1);
                assert forall|i: int|
                    0 <= i < j && (#[trigger] postings@[i]).key@ == key@ implies postings@[i].class
                    < next by {
                    if i > old_j {
                        assert(hs[i] != low);
                        lemma_gram_injective(postings@[i].key, key);
                        assert(hs[i] == posting_hash(postings@[i].key));
                    }
                }
            }
        }
        proof {
            assert forall|d: int| next <= d < m implies !prefix(
                #[trigger] scan.classes[d],
                scan.percent,
            ).contains(keys[p as int]) by {
                assert(scan.classes[d] == values(classes@[d].signature@));
                if prefix(values(classes@[d].signature@), percent as int).contains(key@) {
                    assert(has_posting(postings@, d, key@));
                    let x = choose|x: int|
                        0 <= x < postings@.len() && (#[trigger] postings@[x]).class == d
                            && postings@[x].key@ == key@;
                    assert(postings@[x].class < next);
                    assert(false);
                }
            }
            lemma_visit_skip(scan, w, p as int, next as int, m as int, *used as int);
            lemma_stamps_skip(scan, w, p as int, next as int, m as int, stamps@, epoch);
            assert forall|c: int| 0 <= c < stamps@.len() implies (#[trigger] stamps@[c]) <= epoch
                && (stamps@[c] == epoch <==> (exists|q: int|
                0 <= q < p + 1 && prefix(scan.classes[c], scan.percent).contains(
                    #[trigger] keys[q],
                )) || (c < 0 && p + 1 < keys.len() && prefix(
                scan.classes[c],
                scan.percent,
            ).contains(keys[p + 1]))) by {
                assert(stamps@[c] <= epoch);
                if prefix(scan.classes[c], scan.percent).contains(keys[p as int]) {
                    assert(stamps@[c] == epoch);
                }
                if exists|q: int|
                    0 <= q < p + 1 && prefix(scan.classes[c], scan.percent).contains(
                        #[trigger] keys[q],
                    ) {
                    let q = choose|q: int|
                        0 <= q < p + 1 && prefix(scan.classes[c], scan.percent).contains(
                            #[trigger] keys[q],
                        );
                    if q < p {
                        assert(prefix(scan.classes[c], scan.percent).contains(keys[q]));
                    }
                }
            }
            assert(stamps_fit(scan, w, p + 1, 0, stamps@, epoch));
        }
        p += 1;
    }
    WindowVisit::Clean
}

proof fn lemma_gram_injective(a: Gram, b: Gram)
    requires
        a@ == b@,
    ensures
        a == b,
{
}

proof fn lemma_stamps_skip(
    scan: NgramScan,
    w: int,
    p: int,
    from: int,
    to: int,
    stamps: Seq<u64>,
    epoch: u64,
)
    requires
        from <= to <= scan.classes.len(),
        0 <= p < prefix(scan.windows[w], scan.percent).len(),
        stamps_fit(scan, w, p, from, stamps, epoch),
        forall|c: int|
            from <= c < to ==> !prefix(#[trigger] scan.classes[c], scan.percent).contains(
                prefix(scan.windows[w], scan.percent)[p],
            ),
    ensures
        stamps_fit(scan, w, p, to, stamps, epoch),
{
    let keys = prefix(scan.windows[w], scan.percent);
    assert forall|c: int| 0 <= c < stamps.len() implies (#[trigger] stamps[c]) <= epoch && (
    stamps[c] == epoch <==> (exists|q: int|
        0 <= q < p && prefix(scan.classes[c], scan.percent).contains(#[trigger] keys[q])) || (c < to
        && p < keys.len() && prefix(scan.classes[c], scan.percent).contains(keys[p]))) by {
        assert(stamps[c] <= epoch);
        if from <= c < to {
            assert(!prefix(scan.classes[c], scan.percent).contains(keys[p]));
        }
    }
}

/// Two sorted lists that share enough share a fingerprint of their prefixes: so a pair that the
/// prefixes do not bring together needs no verification.
pub proof fn enough_overlap_meets_in_prefixes(a: Seq<int>, b: Seq<int>, percent: int)
    requires
        ascending(a),
        ascending(b),
        a.len() > 0,
        b.len() > 0,
        1 <= percent <= 100,
        shared_count(a, b) >= required_overlap(
            if a.len() >= b.len() {
                a.len() as int
            } else {
                b.len() as int
            },
            percent,
        ),
    ensures
        exists|p: int|
            0 <= p < prefix(a, percent).len() && prefix(b, percent).contains(
                #[trigger] prefix(a, percent)[p],
            ),
{
    let la = prefix_length(a.len() as int, percent);
    let lb = prefix_length(b.len() as int, percent);
    lemma_required_positive(a.len() as int, percent);
    lemma_required_positive(b.len() as int, percent);
    let pa = prefix(a, percent);
    let pb = prefix(b, percent);
    let bigger = if a.len() >= b.len() {
        a.len() as int
    } else {
        b.len() as int
    };
    assert(required_overlap(a.len() as int, percent) <= required_overlap(bigger, percent)
        && required_overlap(b.len() as int, percent) <= required_overlap(bigger, percent)) by {
        assert(a.len() * percent <= bigger * percent) by (nonlinear_arith)
            requires
                a.len() <= bigger,
                percent >= 1,
        ;
        assert(b.len() * percent <= bigger * percent) by (nonlinear_arith)
            requires
                b.len() <= bigger,
                percent >= 1,
        ;
    }
    if !(exists|p: int| 0 <= p < pa.len() && pb.contains(#[trigger] pa[p])) {
        let last_a = a[la - 1];
        let last_b = b[lb - 1];
        if last_a <= last_b {
            assert forall|x: int| 0 <= x < la implies !b.take(lb).contains(#[trigger] a[x]) by {
                assert(pa[x] == a[x]);
            }
            lemma_disjoint_prefix_bound(a, la, b, lb);
        } else {
            assert forall|x: int| 0 <= x < lb implies !a.take(la).contains(#[trigger] b[x]) by {
                if a.take(la).contains(b[x]) {
                    let p = choose|p: int| 0 <= p < la && a.take(la)[p] == b[x];
                    assert(pa[p] == b[x]);
                    assert(pb[x] == b[x]);
                    assert(pb.contains(pa[p]));
                }
            }
            lemma_disjoint_prefix_bound(b, lb, a, la);
            lemma_shared_symmetric(a, b);
        }
    }
}

proof fn lemma_shared_symmetric(a: Seq<int>, b: Seq<int>)
    ensures
        shared_count(a, b) == shared_count(b, a),
{
    broadcast use vstd::multiset::group_multiset_axioms;
    broadcast use vstd::multiset::lemma_intersection_count;

    assert(a.to_multiset().intersection_with(b.to_multiset())
        =~= b.to_multiset().intersection_with(a.to_multiset()));
}

proof fn lemma_disjoint_prefix_bound(a: Seq<int>, la: int, b: Seq<int>, lb: int)
    requires
        ascending(a),
        ascending(b),
        1 <= la <= a.len(),
        1 <= lb <= b.len(),
        a[la - 1] <= b[lb - 1],
        forall|x: int| 0 <= x < la ==> !b.take(lb).contains(#[trigger] a[x]),
    ensures
        shared_count(a, b) <= a.len() - la,
{
    broadcast use vstd::multiset::group_multiset_axioms;
    broadcast use vstd::multiset::lemma_intersection_count;

    let am = a.to_multiset();
    let bm = b.to_multiset();
    let head = a.take(la);
    let tail = a.skip(la);
    let tm = tail.to_multiset();
    let common = am.intersection_with(bm);
    assert(a =~= head + tail);
    vstd::seq_lib::lemma_multiset_commutative(head, tail);
    assert(am =~= head.to_multiset().add(tm));
    assert forall|v: int| common.count(v) <= tm.count(v) by {
        vstd::seq_lib::to_multiset_contains(head, v);
        vstd::seq_lib::to_multiset_contains(b, v);
        if head.contains(v) {
            let x = choose|x: int| 0 <= x < head.len() && head[x] == v;
            assert(a[x] == v);
            assert(!b.take(lb).contains(a[x]));
            if x < la - 1 {
                assert(a[x] <= a[la - 1]);
            }
            if b.contains(v) {
                let y = choose|y: int| 0 <= y < b.len() && b[y] == v;
                if y < lb {
                    assert(b.take(lb)[y] == v);
                } else {
                    assert(b[lb - 1] <= b[y]);
                    assert(b[lb - 1] == v);
                    assert(b.take(lb)[lb - 1] == v);
                }
            }
            assert(bm.count(v) == 0);
        }
    }
    assert(common.subset_of(tm));
    let rest = tm.sub(common);
    assert(tm =~= rest.add(common));
    vstd::seq_lib::to_multiset_len(tail);
    assert(tm.len() == rest.len() + common.len());
}

/// A comparison that ends clean has looked at every pair that could be a copy: no open source
/// window shares enough with any manuscript window.
pub proof fn clean_visit_has_no_copy(scan: NgramScan, w: int, p: int, c: int, used: int, v: int, d: int)
    requires
        1 <= scan.percent <= 100,
        0 <= w,
        0 <= p,
        0 <= c,
        visit(scan, w, p, c, used) is Clean,
        forall|i: int| 0 <= i < scan.windows.len() ==> ascending(#[trigger] scan.windows[i]),
        forall|i: int|
            0 <= i < scan.classes.len() ==> ascending(#[trigger] scan.classes[i])
                && scan.classes[i].len() > 0,
        w <= v < scan.windows.len(),
        takes_part(scan, v),
        0 <= d < scan.classes.len(),
        v == w ==> forall|q: int|
            0 <= q < p ==> !prefix(scan.classes[d], scan.percent).contains(
                #[trigger] prefix(scan.windows[w], scan.percent)[q],
            ),
        v == w && d < c && p < prefix(scan.windows[w], scan.percent).len() ==> !prefix(
            scan.classes[d],
            scan.percent,
        ).contains(prefix(scan.windows[w], scan.percent)[p]) || !shares_enough(scan, w, d),
    ensures
        !shares_enough(scan, v, d),
    decreases
            scan.windows.len() - w,
            prefix(scan.windows[w], scan.percent).len() - p,
            scan.classes.len() - c,
{
    let keys = prefix(scan.windows[w], scan.percent);
    let own = prefix(scan.classes[d], scan.percent);
    if shares_enough(scan, v, d) {
        if !takes_part(scan, w) || p >= keys.len() {
            if v == w {
                enough_overlap_meets_in_prefixes(scan.windows[w], scan.classes[d], scan.percent);
                let q = choose|q: int| 0 <= q < keys.len() && own.contains(#[trigger] keys[q]);
                assert(!own.contains(keys[q]));
            } else {
                clean_visit_has_no_copy(scan, w + 1, 0, 0, used, v, d);
            }
        } else if c >= scan.classes.len() {
            clean_visit_has_no_copy(scan, w, p + 1, 0, used, v, d);
        } else if !first_shared(scan, w, p, c) {
            clean_visit_has_no_copy(scan, w, p, c + 1, used, v, d);
        } else {
            clean_visit_has_no_copy(scan, w, p, c + 1, used + 1, v, d);
        }
    }
}

/// The first source window at or after `w` that takes part.
pub open spec fn first_taking_part(scan: NgramScan, w: int) -> Option<int>
    decreases scan.windows.len() - w,
{
    if w < 0 || w >= scan.windows.len() {
        None
    } else if takes_part(scan, w) {
        Some(w)
    } else {
        first_taking_part(scan, w + 1)
    }
}

/// The share of common n-grams of a pair of windows.
pub open spec fn pair_score(scan: NgramScan, w: int, c: int) -> int {
    let a = scan.windows[w];
    let b = scan.classes[c];
    (shared_count(a, b) as int * 100) / (if a.len() >= b.len() {
        a.len() as int
    } else {
        b.len() as int
    })
}

/// The comparison of the windows of a manuscript and of a source.
pub open spec fn ngram_scan(
    m_runs: Seq<Seq<TokenModel>>,
    m_windows: Seq<IndexedWindow>,
    s_runs: Seq<Seq<TokenModel>>,
    s_windows: Seq<IndexedWindow>,
    exempt: Seq<ByteRange>,
    size: int,
    percent: int,
) -> NgramScan {
    NgramScan {
        classes: window_signatures(m_runs, gram_windows(m_windows, size), size),
        windows: window_signatures(s_runs, s_windows, size),
        open: s_windows.map_values(
            |w: IndexedWindow| !is_exempt_range(exempt, window_range(s_runs, w)),
        ),
        percent,
    }
}

/// The finding of an n-gram comparison.
pub open spec fn ngram_finding_model(
    m_runs: Seq<Seq<TokenModel>>,
    m: IndexedWindow,
    s_runs: Seq<Seq<TokenModel>>,
    s: IndexedWindow,
    source: SourceModel,
    score: int,
) -> FindingModel {
    FindingModel {
        source_id: source.id,
        manuscript_range: window_range(m_runs, m),
        source_range: window_range(s_runs, s),
        rule: CopyRule::NgramOverlap,
        score_percent: score as u8,
        blocking: true,
    }
}

/// The result of the n-gram comparison of a manuscript with a source: a finding, where there is
/// one, and the number of candidates verified so far; or the limit that is exceeded.
pub open spec fn ngram_result(
    m_runs: Seq<Seq<TokenModel>>,
    m_windows: Seq<IndexedWindow>,
    s_runs: Seq<Seq<TokenModel>>,
    s_windows: Seq<IndexedWindow>,
    source: SourceModel,
    size: int,
    percent: int,
    used: int,
) -> Result<(Option<FindingModel>, int), ScanErrorModel> {
    let classes = gram_windows(m_windows, size);
    let scan = ngram_scan(m_runs, m_windows, s_runs, s_windows, source.exempt, size, percent);
    if m_windows.len() == 0 || s_windows.len() == 0 {
        Ok((None, used))
    } else if m_windows.len() > MAX_NGRAM_WINDOW_CLASSES {
        Err(
            ScanErrorModel::BudgetExceeded(
                CopyScanLimit::NgramWindowClasses,
                MAX_NGRAM_WINDOW_CLASSES,
            ),
        )
    } else if total_grams(m_windows, size) > MAX_NGRAM_SIGNATURE_ITEMS {
        Err(
            ScanErrorModel::BudgetExceeded(
                CopyScanLimit::NgramSignatureItems,
                MAX_NGRAM_SIGNATURE_ITEMS,
            ),
        )
    } else if classes.len() == 0 {
        Ok((None, used))
    } else if percent == 0 {
        match first_taking_part(scan, 0) {
            None => Ok((None, used)),
            Some(w) => Ok(
                (
                    Some(ngram_finding_model(m_runs, classes[0], s_runs, s_windows[w], source, 0)),
                    used,
                ),
            ),
        }
    } else {
        match visit(scan, 0, 0, 0, used) {
            NgramVisit::Found { window, class, used: total } => Ok(
                (
                    Some(
                        ngram_finding_model(
                            m_runs,
                            classes[class],
                            s_runs,
                            s_windows[window],
                            source,
                            pair_score(scan, window, class),
                        ),
                    ),
                    total,
                ),
            ),
            NgramVisit::Clean { used: total } => Ok((None, total)),
            NgramVisit::Exceeded => Err(
                ScanErrorModel::BudgetExceeded(
                    CopyScanLimit::CandidateVerifications,
                    MAX_CANDIDATE_VERIFICATIONS,
                ),
            ),
        }
    }
}

fn make_finding(
    m_runs: &[&[Token]],
    m: IndexedWindow,
    s_runs: &[&[Token]],
    s: IndexedWindow,
    source: &AllowedSource,
    score: u8,
) -> (r: CopyFinding)
    requires
        window_fits(slices(m_runs@), m),
        window_fits(slices(s_runs@), s),
    ensures
        r@ == ngram_finding_model(
            slices(m_runs@),
            m,
            slices(s_runs@),
            s,
            source@,
            score as int,
        ),
{
    CopyFinding {
        source_id: source.source_id.clone(),
        manuscript_range: token_range(m_runs, m),
        source_range: token_range(s_runs, s),
        rule: CopyRule::NgramOverlap,
        score_percent: score,
        blocking: true,
    }
}

fn score_of(list: &[Gram], class: &NgramClass) -> (r: u8)
    requires
        ascending(values(list@)),
        ascending(values(class.signature@)),
        list@.len() > 0,
    ensures
        r == (shared_count(values(list@), values(class.signature@)) as int * 100) / (if values(
            list@,
        ).len() >= values(class.signature@).len() {
            values(list@).len() as int
        } else {
            values(class.signature@).len() as int
        }),
{
    let shared: usize = multiset_overlap(list, class.signature.as_slice());
    let denominator: usize = if list.len() >= class.signature.len() {
        list.len()
    } else {
        class.signature.len()
    };
    assert(values(list@).len() == list@.len());
    assert(values(class.signature@).len() == class.signature@.len());
    let product: u128 = (shared as u128) * 100;
    let score: u128 = product / (denominator as u128);
    assert(score <= 100) by (nonlinear_arith)
        requires
            score == product / (denominator as u128),
            product == shared * 100,
            shared <= denominator,
            denominator > 0,
    ;
    score as u8
}

fn scan_ngram_witness(
    m_runs: &[&[Token]],
    m_windows: &[IndexedWindow],
    s_runs: &[&[Token]],
    s_windows: &[IndexedWindow],
    source: &AllowedSource,
    size: usize,
    percent: u8,
    used: &mut usize,
) -> (r: Result<Option<CopyFinding>, CopyScanError>)
    requires
        size >= 1,
        percent <= 100,
        windows_fit(slices(m_runs@), m_windows@),
        windows_fit(slices(s_runs@), s_windows@),
        *old(used) <= MAX_CANDIDATE_VERIFICATIONS,
    ensures
        *final(used) <= MAX_CANDIDATE_VERIFICATIONS,
        match r {
            Ok(found) => ngram_result(
                slices(m_runs@),
                m_windows@,
                slices(s_runs@),
                s_windows@,
                source@,
                size as int,
                percent as int,
                *old(used) as int,
            ) == Ok::<(Option<FindingModel>, int), ScanErrorModel>(
                (
                    match found {
                        Some(finding) => Some(finding@),
                        None => None,
                    },
                    *final(used) as int,
                ),
            ),
            Err(error) => ngram_result(
                slices(m_runs@),
                m_windows@,
                slices(s_runs@),
                s_windows@,
                source@,
                size as int,
                percent as int,
                *old(used) as int,
            ) == Err::<(Option<FindingModel>, int), ScanErrorModel>(error@),
        },
{
    let ghost mr = slices(m_runs@);
    let ghost sr = slices(s_runs@);
    let ghost scan = ngram_scan(
        mr,
        m_windows@,
        sr,
        s_windows@,
        source@.exempt,
        size as int,
        percent as int,
    );
    if m_windows.len() == 0 || s_windows.len() == 0 {
        return Ok(None);
    }
    if m_windows.len() > MAX_NGRAM_WINDOW_CLASSES {
        return Err(
            CopyScanError::BudgetExceeded {
                limit: CopyScanLimit::NgramWindowClasses,
                maximum: MAX_NGRAM_WINDOW_CLASSES,
            },
        );
    }
    assert forall|i: int| 0 <= i < m_windows@.len() implies (#[trigger] m_windows@[i]).start
        < m_windows@[i].end by {
        assert(window_fits(mr, m_windows@[i]));
    }
    if !within_gram_budget(m_windows, size) {
        return Err(
            CopyScanError::BudgetExceeded {
                limit: CopyScanLimit::NgramSignatureItems,
                maximum: MAX_NGRAM_SIGNATURE_ITEMS,
            },
        );
    }
    let classes = build_ngram_classes(m_runs, m_windows, size);
    let ghost class_list = gram_windows(m_windows@, size as int);
    assert(class_windows(classes@).len() == classes@.len());
    if classes.len() == 0 {
        return Ok(None);
    }
    let n: usize = s_windows.len();
    assert(scan.windows.len() == n);
    assert(scan.classes == class_signatures(classes@));
    if percent == 0 {
        let mut w: usize = 0;
        while w < n
            invariant
                w <= n,
                n == s_windows@.len(),
                n == scan.windows.len(),
                size >= 1,
                mr == slices(m_runs@),
                sr == slices(s_runs@),
                windows_fit(sr, s_windows@),
                scan == ngram_scan(
                    mr,
                    m_windows@,
                    sr,
                    s_windows@,
                    source@.exempt,
                    size as int,
                    percent as int,
                ),
                percent == 0,
                classes@.len() > 0,
                class_list == gram_windows(m_windows@, size as int),
                class_windows(classes@) == class_list,
                class_windows(classes@).len() == classes@.len(),
                forall|i: int|
                    0 <= i < classes@.len() ==> window_fits(mr, (#[trigger] classes@[i]).window),
                *used == *old(used),
                *used <= MAX_CANDIDATE_VERIFICATIONS,
                m_windows@.len() > 0,
                s_windows@.len() > 0,
                m_windows@.len() <= MAX_NGRAM_WINDOW_CLASSES,
                total_grams(m_windows@, size as int) <= MAX_NGRAM_SIGNATURE_ITEMS,
                first_taking_part(scan, 0) == first_taking_part(scan, w as int),
            decreases n - w,
        {
            let s = s_windows[w];
            assert(window_fits(sr, s_windows@[w as int]));
            proof {
                lemma_sort_ascends(
                    run_grams(sr[s.run as int], size as int).subrange(
                        s.start as int,
                        s.start + gram_count(s, size as int),
                    ),
                );
                lemma_signature_length(sr, s, size as int);
            }
            if ngram_count(s, size) > 0 && !is_exempt(
                source.exempt_ranges.as_slice(),
                token_range(s_runs, s),
            ) {
                assert(takes_part(scan, w as int));
                assert(class_windows(classes@)[0] == classes@[0].window);
                assert(window_fits(mr, classes@[0].window));
                return Ok(
                    Some(make_finding(m_runs, classes[0].window, s_runs, s, source, 0)),
                );
            }
            assert(!takes_part(scan, w as int));
            w += 1;
        }
        return Ok(None);
    }
    let postings = build_postings(classes.as_slice(), percent);
    let mut hashes: Vec<u64> = Vec::new();
    let mut k: usize = 0;
    while k < postings.len()
        invariant
            k <= postings@.len(),
            hashes@.len() == k,
            forall|j: int|
                0 <= j < k ==> #[trigger] hashes@[j] == posting_hash(postings@[j].key),
        decreases postings@.len() - k,
    {
        let low: u64 = #[verifier::truncate] (postings[k].key.lo as u64);
        hashes.push(low);
        k += 1;
    }
    let index = ChainIndex::build(hashes.as_slice());
    let mut stamps: Vec<u64> = Vec::new();
    while stamps.len() < classes.len()
        invariant
            stamps@.len() <= classes@.len(),
            forall|c: int| 0 <= c < stamps@.len() ==> #[trigger] stamps@[c] == 0,
        decreases classes@.len() - stamps@.len(),
    {
        stamps.push(0);
    }
    let grams = all_grams(s_runs, size);
    let mut sliding = Sliding { start: 0, count: 0, list: Vec::new() };
    let mut current: usize = s_runs.len();
    let mut w: usize = 0;
    while w < n
        invariant
            w <= n,
            n == s_windows@.len(),
            n == scan.windows.len(),
            size >= 1,
            1 <= percent <= 100,
            mr == slices(m_runs@),
            sr == slices(s_runs@),
            windows_fit(sr, s_windows@),
            scan == ngram_scan(
                mr,
                m_windows@,
                sr,
                s_windows@,
                source@.exempt,
                size as int,
                percent as int,
            ),
            classes@.len() > 0,
            class_list == gram_windows(m_windows@, size as int),
            class_windows(classes@) == class_list,
            class_windows(classes@).len() == classes@.len(),
            scan.classes == class_signatures(classes@),
            forall|i: int|
                0 <= i < classes@.len() ==> window_fits(mr, (#[trigger] classes@[i]).window)
                    && ascending(values(classes@[i].signature@)),
            postings_complete(
                classes@,
                classes@.len() as int,
                postings@,
                percent as int,
            ),
            hashes@.len() == postings@.len(),
            forall|j: int|
                0 <= j < hashes@.len() ==> #[trigger] hashes@[j] == posting_hash(postings@[j].key),
            index.covers(hashes@),
            stamps@.len() == classes@.len(),
            forall|c: int| 0 <= c < stamps@.len() ==> #[trigger] stamps@[c] <= w,
            grams@.len() == s_runs@.len(),
            forall|i: int|
                0 <= i < grams@.len() ==> values((#[trigger] grams@[i])@) == run_grams(
                    sr[i],
                    size as int,
                ),
            current < grams@.len() ==> sliding.covers(values(grams@[current as int]@)),
            *used <= MAX_CANDIDATE_VERIFICATIONS,
            m_windows@.len() > 0,
            s_windows@.len() > 0,
            m_windows@.len() <= MAX_NGRAM_WINDOW_CLASSES,
            total_grams(m_windows@, size as int) <= MAX_NGRAM_SIGNATURE_ITEMS,
            visit(scan, 0, 0, 0, *old(used) as int) == visit(scan, w as int, 0, 0, *used as int),
        decreases n - w,
    {
        let s = s_windows[w];
        assert(window_fits(sr, s_windows@[w as int]));
        assert(scan.windows[w as int] == window_signature(sr, s, size as int));
        proof {
            lemma_signature_length(sr, s, size as int);
        }
        if ngram_count(s, size) > 0 && !is_exempt(
            source.exempt_ranges.as_slice(),
            token_range(s_runs, s),
        ) {
            move_to(&mut sliding, current, s_runs, grams.as_slice(), s, size);
            current = s.run;
            proof {
                lemma_sort_ascends(
                    run_grams(sr[s.run as int], size as int).subrange(
                        s.start as int,
                        s.start + gram_count(s, size as int),
                    ),
                );
            }
            assert(takes_part(scan, w as int));
            let outcome = visit_window(
                Ghost(scan),
                Ghost(w as int),
                sliding.list.as_slice(),
                classes.as_slice(),
                postings.as_slice(),
                hashes.as_slice(),
                &index,
                percent,
                &mut stamps,
                w as u64 + 1,
                used,
            );
            match outcome {
                WindowVisit::Found(c) => {
                    let class = &classes[c];
                    assert(window_fits(mr, classes@[c as int].window));
                    assert(class_windows(classes@)[c as int] == classes@[c as int].window);
                    assert(scan.classes[c as int] == values(classes@[c as int].signature@));
                    let score: u8 = score_of(sliding.list.as_slice(), class);
                    return Ok(Some(make_finding(m_runs, class.window, s_runs, s, source, score)));
                },
                WindowVisit::Exceeded => {
                    return Err(
                        CopyScanError::BudgetExceeded {
                            limit: CopyScanLimit::CandidateVerifications,
                            maximum: MAX_CANDIDATE_VERIFICATIONS,
                        },
                    );
                },
                WindowVisit::Clean => {},
            }
        } else {
            assert(!takes_part(scan, w as int));
        }
        w += 1;
    }
    Ok(None)
}

proof fn lemma_signature_length(all: Seq<Seq<TokenModel>>, w: IndexedWindow, size: int)
    requires
        size >= 1,
        window_fits(all, w),
    ensures
        window_signature(all, w, size).len() == gram_count(w, size),
{
    if gram_count(w, size) > 0 {
        let run = run_grams(all[w.run as int], size);
        lemma_sort_ascends(run.subrange(w.start as int, w.start + gram_count(w, size)));
    }
}

/// The runs of a manuscript or source that the n-gram comparison of characters looks at.
pub open spec fn character_runs(text: NormalModel) -> Seq<Seq<TokenModel>> {
    seq![text.characters]
}

/// The result of the n-gram comparison of characters.
pub open spec fn character_result(
    m: NormalModel,
    s: NormalModel,
    source: SourceModel,
    policy: CopyPolicy,
    used: int,
) -> Result<(Option<FindingModel>, int), ScanErrorModel> {
    ngram_result(
        character_runs(m),
        fixed_windows(character_runs(m), policy.ngram_cjk_window as int),
        character_runs(s),
        fixed_windows(character_runs(s), policy.ngram_cjk_window as int),
        source,
        policy.ngram_size as int,
        policy.ngram_overlap_percent as int,
        used,
    )
}

/// The result of the n-gram comparison of words.
pub open spec fn word_result(
    m: NormalModel,
    s: NormalModel,
    source: SourceModel,
    policy: CopyPolicy,
    used: int,
) -> Result<(Option<FindingModel>, int), ScanErrorModel> {
    ngram_result(
        word_tokens(m.word_char_runs),
        word_windows(m.word_char_runs, policy.ngram_word_window as int),
        word_tokens(s.word_char_runs),
        word_windows(s.word_char_runs, policy.ngram_word_window as int),
        source,
        policy.ngram_size as int,
        policy.ngram_overlap_percent as int,
        used,
    )
}

/// The findings of one source: exact copies of CJK graphemes and of words, or else a copy by
/// common n-grams of characters, or else of words.
pub open spec fn source_result(
    m: NormalModel,
    source: SourceModel,
    policy: CopyPolicy,
    used: int,
) -> Result<(Seq<FindingModel>, int), ScanErrorModel> {
    pair_result(m, normalized(source.text), source, policy, used)
}

/// The findings of one source whose normalized text is given.
pub open spec fn pair_result(
    m: NormalModel,
    s: NormalModel,
    source: SourceModel,
    policy: CopyPolicy,
    used: int,
) -> Result<(Seq<FindingModel>, int), ScanErrorModel> {
    let cjk = exact_finding(
        m.cjk_runs,
        s.cjk_runs,
        source,
        policy.exact_cjk_graphemes as int,
        CopyRule::ContiguousCjk,
    );
    let words = exact_finding(
        m.word_runs,
        s.word_runs,
        source,
        policy.exact_words as int,
        CopyRule::ContiguousWords,
    );
    match (cjk, words) {
        (Some(a), Some(b)) => Ok((seq![a, b], used)),
        (Some(a), None) => Ok((seq![a], used)),
        (None, Some(b)) => Ok((seq![b], used)),
        (None, None) => match character_result(m, s, source, policy, used) {
            Err(error) => Err(error),
            Ok((Some(finding), total)) => Ok((seq![finding], total)),
            Ok((None, total)) => match word_result(m, s, source, policy, total) {
                Err(error) => Err(error),
                Ok((Some(finding), sum)) => Ok((seq![finding], sum)),
                Ok((None, sum)) => Ok((Seq::empty(), sum)),
            },
        },
    }
}

fn run_slices<'a>(all: &'a [Vec<Token>]) -> (r: Vec<&'a [Token]>)
    ensures
        slices(r@) == runs(all@),
{
    let mut out: Vec<&'a [Token]> = Vec::new();
    let mut i: usize = 0;
    while i < all.len()
        invariant
            i <= all@.len(),
            out@.len() == i,
            forall|k: int| 0 <= k < i ==> (#[trigger] out@[k])@ == all@[k]@,
        decreases all@.len() - i,
    {
        out.push(all[i].as_slice());
        i += 1;
    }
    assert(slices(out@) =~= runs(all@));
    out
}

fn word_slices<'a>(all: &'a [WordCharRun]) -> (r: Vec<&'a [Token]>)
    ensures
        slices(r@) == word_tokens(word_run_models(all@)),
{
    let mut out: Vec<&'a [Token]> = Vec::new();
    let mut i: usize = 0;
    while i < all.len()
        invariant
            i <= all@.len(),
            out@.len() == i,
            forall|k: int| 0 <= k < i ==> (#[trigger] out@[k])@ == all@[k].tokens@,
        decreases all@.len() - i,
    {
        out.push(all[i].tokens.as_slice());
        i += 1;
    }
    assert(slices(out@) =~= word_tokens(word_run_models(all@)));
    out
}

/// Whether a finding is about a source and lies in none of its ranges that may be quoted.
pub open spec fn is_rightful(finding: FindingModel, source: SourceModel) -> bool {
    finding.source_id == source.id && !is_exempt_range(source.exempt, finding.source_range)
}

/// Whether a finding is about a source, covers a part of its text and lies in none of its ranges
/// that may be quoted.
pub open spec fn is_about(finding: FindingModel, source: SourceModel) -> bool {
    is_rightful(finding, source) && is_span(finding.source_range, source.text)
}

/// Whether a range covers a part of every text that a normalized text lies in.
pub open spec fn lies_inside(range: ByteRange, normal: NormalModel) -> bool {
    forall|text: Seq<char>| #[trigger] text_lies_in(normal, text) ==> is_span(range, text)
}

proof fn lemma_first_exact_bounds(
    m_runs: Seq<Seq<TokenModel>>,
    windows: Seq<IndexedWindow>,
    s_runs: Seq<Seq<TokenModel>>,
    sources: Seq<IndexedWindow>,
    width: int,
    i: int,
)
    requires
        0 <= i,
    ensures
        match first_exact(m_runs, windows, s_runs, sources, width, i) {
            Some((k, j)) => i <= k < windows.len() && 0 <= j < sources.len(),
            None => true,
        },
    decreases windows.len() - i,
{
    if i < windows.len() {
        lemma_first_agreeing_bounds(m_runs, windows[i], s_runs, sources, width, 0);
        lemma_first_exact_bounds(m_runs, windows, s_runs, sources, width, i + 1);
    }
}

proof fn lemma_first_agreeing_bounds(
    m_runs: Seq<Seq<TokenModel>>,
    m: IndexedWindow,
    s_runs: Seq<Seq<TokenModel>>,
    sources: Seq<IndexedWindow>,
    width: int,
    j: int,
)
    requires
        0 <= j,
    ensures
        match first_agreeing(m_runs, m, s_runs, sources, width, j) {
            Some(k) => j <= k < sources.len(),
            None => true,
        },
    decreases sources.len() - j,
{
    if j < sources.len() {
        lemma_first_agreeing_bounds(m_runs, m, s_runs, sources, width, j + 1);
    }
}

/// Whether a range covers a part of every text that some runs lie in.
spec fn lies_in_runs(range: ByteRange, all: Seq<Seq<TokenModel>>) -> bool {
    forall|text: Seq<char>| #[trigger] runs_lie_in(all, text) ==> is_span(range, text)
}

proof fn lemma_window_lies_in(
    all: Seq<Seq<TokenModel>>,
    windows: Seq<IndexedWindow>,
    w: int,
)
    requires
        windows_fit(all, windows),
        0 <= w < windows.len(),
    ensures
        lies_in_runs(window_range(all, windows[w]), all),
{
    let window = windows[w];
    assert(window_fits(all, window));
    assert forall|text: Seq<char>| #[trigger] runs_lie_in(all, text) implies is_span(
        window_range(all, window),
        text,
    ) by {
        let run = all[window.run as int];
        assert(crate::copytext::run_lies_in(run, text));
        assert(is_span(run[window.start as int].1, text));
        assert(is_span(run[window.end - 1].1, text));
    }
}

proof fn lemma_exact_rightful(
    m_runs: Seq<Seq<TokenModel>>,
    s_runs: Seq<Seq<TokenModel>>,
    source: SourceModel,
    width: int,
    rule: CopyRule,
)
    requires
        windows_fit(m_runs, fixed_windows(m_runs, width)),
        windows_fit(s_runs, fixed_windows(s_runs, width)),
        exact_finding(m_runs, s_runs, source, width, rule) is Some,
    ensures
        ({
            let finding = exact_finding(m_runs, s_runs, source, width, rule)->Some_0;
            &&& is_rightful(finding, source)
            &&& lies_in_runs(finding.source_range, s_runs)
            &&& lies_in_runs(finding.manuscript_range, m_runs)
        }),
{
    let windows = fixed_windows(m_runs, width);
    let all = fixed_windows(s_runs, width);
    let sources = open_windows(s_runs, all, source.exempt);
    lemma_first_exact_bounds(m_runs, windows, s_runs, sources, width, 0);
    let (i, j) = first_exact(m_runs, windows, s_runs, sources, width, 0)->Some_0;
    open_window_is_not_exempt(s_runs, all, source.exempt, j);
    lemma_filter_member(
        all,
        |w: IndexedWindow| !is_exempt_range(source.exempt, window_range(s_runs, w)),
        j,
    );
    let k = choose|k: int| 0 <= k < all.len() && all[k] == sources[j];
    lemma_window_lies_in(s_runs, all, k);
    lemma_window_lies_in(m_runs, windows, i);
}

proof fn lemma_visit_found(scan: NgramScan, w: int, p: int, c: int, used: int)
    requires
        0 <= w,
        0 <= p,
        0 <= c,
    ensures
        match visit(scan, w, p, c, used) {
            NgramVisit::Found { window, class, .. } => 0 <= window < scan.windows.len()
                && takes_part(scan, window) && 0 <= class < scan.classes.len(),
            _ => true,
        },
    decreases
            scan.windows.len() - w,
            prefix(scan.windows[w], scan.percent).len() - p,
            scan.classes.len() - c,
{
    if w >= scan.windows.len() {
    } else if !takes_part(scan, w) || p >= prefix(scan.windows[w], scan.percent).len() {
        lemma_visit_found(scan, w + 1, 0, 0, used);
    } else if c >= scan.classes.len() {
        lemma_visit_found(scan, w, p + 1, 0, used);
    } else if !first_shared(scan, w, p, c) {
        lemma_visit_found(scan, w, p, c + 1, used);
    } else if used < MAX_CANDIDATE_VERIFICATIONS && !shares_enough(scan, w, c) {
        lemma_visit_found(scan, w, p, c + 1, used + 1);
    }
}

proof fn lemma_first_taking_part(scan: NgramScan, w: int)
    requires
        0 <= w,
    ensures
        match first_taking_part(scan, w) {
            Some(k) => w <= k < scan.windows.len() && takes_part(scan, k),
            None => true,
        },
    decreases scan.windows.len() - w,
{
    if w < scan.windows.len() {
        lemma_first_taking_part(scan, w + 1);
    }
}

proof fn lemma_ngram_rightful(
    m_runs: Seq<Seq<TokenModel>>,
    m_windows: Seq<IndexedWindow>,
    s_runs: Seq<Seq<TokenModel>>,
    s_windows: Seq<IndexedWindow>,
    source: SourceModel,
    size: int,
    percent: int,
    used: int,
)
    requires
        windows_fit(m_runs, m_windows),
        windows_fit(s_runs, s_windows),
        ngram_result(m_runs, m_windows, s_runs, s_windows, source, size, percent, used) is Ok,
        ngram_result(
            m_runs,
            m_windows,
            s_runs,
            s_windows,
            source,
            size,
            percent,
            used,
        )->Ok_0.0 is Some,
    ensures
        ({
            let finding = ngram_result(
                m_runs,
                m_windows,
                s_runs,
                s_windows,
                source,
                size,
                percent,
                used,
            )->Ok_0.0->Some_0;
            &&& is_rightful(finding, source)
            &&& lies_in_runs(finding.source_range, s_runs)
            &&& lies_in_runs(finding.manuscript_range, m_runs)
        }),
{
    let scan = ngram_scan(m_runs, m_windows, s_runs, s_windows, source.exempt, size, percent);
    lemma_visit_found(scan, 0, 0, 0, used);
    lemma_first_taking_part(scan, 0);
    let w = if percent == 0 {
        first_taking_part(scan, 0)->Some_0
    } else {
        visit(scan, 0, 0, 0, used)->window
    };
    assert(scan.open[w]);
    lemma_window_lies_in(s_runs, s_windows, w);
    let classes = gram_windows(m_windows, size);
    let c = if percent == 0 {
        0
    } else {
        visit(scan, 0, 0, 0, used)->class
    };
    lemma_filter_member(m_windows, |w: IndexedWindow| gram_count(w, size) > 0, c);
    let k = choose|k: int| 0 <= k < m_windows.len() && m_windows[k] == classes[c];
    lemma_window_lies_in(m_runs, m_windows, k);
}

fn scan_characters(
    m: &NormalizedText,
    s: &NormalizedText,
    source: &AllowedSource,
    policy: &CopyPolicy,
    used: &mut usize,
) -> (r: Result<Option<CopyFinding>, CopyScanError>)
    requires
        policy_error(*policy) is None,
        *old(used) <= MAX_CANDIDATE_VERIFICATIONS,
    ensures
        *final(used) <= MAX_CANDIDATE_VERIFICATIONS,
        match r {
            Ok(found) => character_result(m@, s@, source@, *policy, *old(used) as int) == Ok::<
                (Option<FindingModel>, int),
                ScanErrorModel,
            >(
                (
                    match found {
                        Some(finding) => Some(finding@),
                        None => None,
                    },
                    *final(used) as int,
                ),
            ),
            Err(error) => character_result(m@, s@, source@, *policy, *old(used) as int) == Err::<
                (Option<FindingModel>, int),
                ScanErrorModel,
            >(error@),
        },
        match r {
            Ok(Some(finding)) => is_rightful(finding@, source@) && lies_inside(
                finding@.source_range,
                s@,
            ) && lies_inside(finding@.manuscript_range, m@),
            _ => true,
        },
{
    let mut m_runs: Vec<&[Token]> = Vec::new();
    m_runs.push(m.characters.as_slice());
    let mut s_runs: Vec<&[Token]> = Vec::new();
    s_runs.push(s.characters.as_slice());
    assert(slices(m_runs@) =~= character_runs(m@));
    assert(slices(s_runs@) =~= character_runs(s@));
    let m_windows = list_fixed_windows(m_runs.as_slice(), policy.ngram_cjk_window);
    let s_windows = list_fixed_windows(s_runs.as_slice(), policy.ngram_cjk_window);
    let r = scan_ngram_witness(
        m_runs.as_slice(),
        m_windows.as_slice(),
        s_runs.as_slice(),
        s_windows.as_slice(),
        source,
        policy.ngram_size,
        policy.ngram_overlap_percent,
        used,
    );
    proof {
        match &r {
            Ok(Some(finding)) => {
                lemma_ngram_rightful(
                    slices(m_runs@),
                    m_windows@,
                    slices(s_runs@),
                    s_windows@,
                    source@,
                    policy.ngram_size as int,
                    policy.ngram_overlap_percent as int,
                    *old(used) as int,
                );
                assert forall|text: Seq<char>| #[trigger] text_lies_in(s@, text) implies is_span(
                    finding@.source_range,
                    text,
                ) by {
                    assert(runs_lie_in(slices(s_runs@), text));
                }
                assert forall|text: Seq<char>| #[trigger] text_lies_in(m@, text) implies is_span(
                    finding@.manuscript_range,
                    text,
                ) by {
                    assert(runs_lie_in(slices(m_runs@), text));
                }
            },
            _ => {},
        }
    }
    r
}

fn scan_words(
    m: &NormalizedText,
    s: &NormalizedText,
    source: &AllowedSource,
    policy: &CopyPolicy,
    used: &mut usize,
) -> (r: Result<Option<CopyFinding>, CopyScanError>)
    requires
        policy_error(*policy) is None,
        text_fits(m@),
        text_fits(s@),
        *old(used) <= MAX_CANDIDATE_VERIFICATIONS,
    ensures
        *final(used) <= MAX_CANDIDATE_VERIFICATIONS,
        match r {
            Ok(found) => word_result(m@, s@, source@, *policy, *old(used) as int) == Ok::<
                (Option<FindingModel>, int),
                ScanErrorModel,
            >(
                (
                    match found {
                        Some(finding) => Some(finding@),
                        None => None,
                    },
                    *final(used) as int,
                ),
            ),
            Err(error) => word_result(m@, s@, source@, *policy, *old(used) as int) == Err::<
                (Option<FindingModel>, int),
                ScanErrorModel,
            >(error@),
        },
        match r {
            Ok(Some(finding)) => is_rightful(finding@, source@) && lies_inside(
                finding@.source_range,
                s@,
            ) && lies_inside(finding@.manuscript_range, m@),
            _ => true,
        },
{
    assert forall|i: int| 0 <= i < m.word_char_runs@.len() implies crate::copytext::starts_fit(
        (#[trigger] m.word_char_runs@[i])@.1,
        m.word_char_runs@[i]@.0.len() as int,
    ) by {
        assert(m@.word_char_runs[i] == m.word_char_runs@[i]@);
    }
    assert forall|i: int| 0 <= i < s.word_char_runs@.len() implies crate::copytext::starts_fit(
        (#[trigger] s.word_char_runs@[i])@.1,
        s.word_char_runs@[i]@.0.len() as int,
    ) by {
        assert(s@.word_char_runs[i] == s.word_char_runs@[i]@);
    }
    let m_runs = word_slices(m.word_char_runs.as_slice());
    let s_runs = word_slices(s.word_char_runs.as_slice());
    let m_windows = list_word_windows(m.word_char_runs.as_slice(), policy.ngram_word_window);
    let s_windows = list_word_windows(s.word_char_runs.as_slice(), policy.ngram_word_window);
    let r = scan_ngram_witness(
        m_runs.as_slice(),
        m_windows.as_slice(),
        s_runs.as_slice(),
        s_windows.as_slice(),
        source,
        policy.ngram_size,
        policy.ngram_overlap_percent,
        used,
    );
    proof {
        match &r {
            Ok(Some(finding)) => {
                lemma_ngram_rightful(
                    slices(m_runs@),
                    m_windows@,
                    slices(s_runs@),
                    s_windows@,
                    source@,
                    policy.ngram_size as int,
                    policy.ngram_overlap_percent as int,
                    *old(used) as int,
                );
                assert forall|text: Seq<char>| #[trigger] text_lies_in(s@, text) implies is_span(
                    finding@.source_range,
                    text,
                ) by {
                    assert(runs_lie_in(slices(s_runs@), text));
                }
                assert forall|text: Seq<char>| #[trigger] text_lies_in(m@, text) implies is_span(
                    finding@.manuscript_range,
                    text,
                ) by {
                    assert(runs_lie_in(slices(m_runs@), text));
                }
            },
            _ => {},
        }
    }
    r
}

/// Scans a normalized manuscript for passages copied from one source whose normalized text is
/// given, and counts the comparisons that were made.
pub fn scan_normalized(
    m: &NormalizedText,
    s: &NormalizedText,
    source: &AllowedSource,
    policy: &CopyPolicy,
    used: &mut usize,
) -> (r: Result<Vec<CopyFinding>, CopyScanError>)
    requires
        policy_error(*policy) is None,
        text_fits(m@),
        text_fits(s@),
        *old(used) <= MAX_CANDIDATE_VERIFICATIONS,
    ensures
        *final(used) <= MAX_CANDIDATE_VERIFICATIONS,
        match r {
            Ok(found) => pair_result(m@, s@, source@, *policy, *old(used) as int) == Ok::<
                (Seq<FindingModel>, int),
                ScanErrorModel,
            >((finding_models(found@), *final(used) as int)) && forall|k: int|
                0 <= k < found@.len() ==> is_rightful((#[trigger] found@[k])@, source@)
                    && lies_inside(found@[k]@.source_range, s@) && lies_inside(
                    found@[k]@.manuscript_range,
                    m@,
                ),
            Err(error) => pair_result(m@, s@, source@, *policy, *old(used) as int) == Err::<
                (Seq<FindingModel>, int),
                ScanErrorModel,
            >(error@),
        },
{
    let m_cjk = run_slices(m.cjk_runs.as_slice());
    let s_cjk = run_slices(s.cjk_runs.as_slice());
    let m_words = run_slices(m.word_runs.as_slice());
    let s_words = run_slices(s.word_runs.as_slice());
    let cjk = scan_exact_witness(
        m_cjk.as_slice(),
        s_cjk.as_slice(),
        source,
        policy.exact_cjk_graphemes,
        CopyRule::ContiguousCjk,
    );
    let words = scan_exact_witness(
        m_words.as_slice(),
        s_words.as_slice(),
        source,
        policy.exact_words,
        CopyRule::ContiguousWords,
    );
    let source_cjk = s_cjk.as_slice();
    let source_words = s_words.as_slice();
    let own_cjk = m_cjk.as_slice();
    let own_words = m_words.as_slice();
    proof {
        lemma_slice_lengths(source_cjk);
        lemma_slice_lengths(source_words);
        lemma_slice_lengths(own_cjk);
        lemma_slice_lengths(own_words);
        let cjk_width = policy.exact_cjk_graphemes as int;
        let word_width = policy.exact_words as int;
        lemma_fixed_windows_fit(slices(s_cjk@), cjk_width);
        lemma_fixed_windows_fit(slices(s_words@), word_width);
        lemma_fixed_windows_fit(slices(m_cjk@), cjk_width);
        lemma_fixed_windows_fit(slices(m_words@), word_width);
        if cjk is Some {
            lemma_exact_rightful(
                slices(m_cjk@),
                slices(s_cjk@),
                source@,
                cjk_width,
                CopyRule::ContiguousCjk,
            );
        }
        if words is Some {
            lemma_exact_rightful(
                slices(m_words@),
                slices(s_words@),
                source@,
                word_width,
                CopyRule::ContiguousWords,
            );
        }
    }
    let mut findings: Vec<CopyFinding> = Vec::new();
    let exact = cjk.is_some() || words.is_some();
    match cjk {
        Some(finding) => findings.push(finding),
        None => {},
    }
    match words {
        Some(finding) => findings.push(finding),
        None => {},
    }
    if !exact {
        match scan_characters(m, s, source, policy, used) {
            Err(error) => {
                return Err(error);
            },
            Ok(Some(finding)) => findings.push(finding),
            Ok(None) => match scan_words(m, s, source, policy, used) {
                Err(error) => {
                    return Err(error);
                },
                Ok(Some(finding)) => findings.push(finding),
                Ok(None) => {},
            },
        }
    }
    proof {
        let models = finding_models(findings@);
        let result = pair_result(m@, s@, source@, *policy, *old(used) as int);
        assert(result is Ok);
        assert(models =~= result->Ok_0.0);
    }
    Ok(findings)
}

/// Whether the source at one index is scanned before that at another.
pub open spec fn source_order(sources: Seq<SourceModel>) -> spec_fn(int, int) -> bool {
    |i: int, j: int| text_before(sources[i].id, sources[j].id)
}

/// The indices of the sources in the order of their identifiers.
pub open spec fn scan_order(sources: Seq<SourceModel>) -> Seq<int> {
    ordered_by(Seq::new(sources.len(), |i: int| i), source_order(sources))
}

/// The views of sources.
pub open spec fn source_models(sources: Seq<AllowedSource>) -> Seq<SourceModel> {
    sources.map_values(|source: AllowedSource| source@)
}

fn order_sources(sources: &[AllowedSource]) -> (r: Vec<usize>)
    ensures
        r@.map_values(|i: usize| i as int) == scan_order(source_models(sources@)),
        r@.len() == sources@.len(),
        forall|k: int| 0 <= k < r@.len() ==> #[trigger] r@[k] < sources@.len(),
{
    let ghost models = source_models(sources@);
    let ghost rule = source_order(models);
    let ghost all: Seq<int> = Seq::new(models.len(), |i: int| i);
    let mut out: Vec<usize> = Vec::new();
    let mut i: usize = 0;
    assert(out@.map_values(|i: usize| i as int) =~= ordered_by(all.take(0), rule));
    while i < sources.len()
        invariant
            i <= sources@.len(),
            models == source_models(sources@),
            rule == source_order(models),
            all == Seq::new(models.len(), |i: int| i),
            out@.len() == i,
            forall|k: int| 0 <= k < out@.len() ==> #[trigger] out@[k] < i,
            out@.map_values(|i: usize| i as int) == ordered_by(all.take(i as int), rule),
        decreases sources@.len() - i,
    {
        let ghost list = out@.map_values(|i: usize| i as int);
        let mut k: usize = 0;
        assert(models[i as int] == sources@[i as int]@);
        while k < out.len() && !before(
            sources[i].source_id.as_str(),
            sources[out[k]].source_id.as_str(),
        )
            invariant
                k <= out@.len(),
                i < sources@.len(),
                models == source_models(sources@),
                rule == source_order(models),
                models[i as int] == sources@[i as int]@,
                list == out@.map_values(|i: usize| i as int),
                forall|m: int| 0 <= m < out@.len() ==> #[trigger] out@[m] < i,
                forall|j: int| 0 <= j < k ==> !rule(i as int, #[trigger] list[j]),
            decreases out@.len() - k,
        {
            assert(list[k as int] == out@[k as int]);
            assert(models[out@[k as int] as int] == sources@[out@[k as int] as int]@);
            k += 1;
        }
        proof {
            if k < out@.len() {
                assert(list[k as int] == out@[k as int]);
                assert(models[out@[k as int] as int] == sources@[out@[k as int] as int]@);
                assert(rule(i as int, list[k as int]));
            }
            lemma_placed_at(list, i as int, rule, k as int);
            assert(all.take(i + 1).drop_last() =~= all.take(i as int));
            assert(all.take(i + 1).last() == i as int);
        }
        let ghost prior = out@;
        out.insert(k, i);
        assert(out@.map_values(|i: usize| i as int) =~= list.insert(k as int, i as int));
        assert forall|m: int| 0 <= m < out@.len() implies #[trigger] out@[m] < i + 1 by {
            if m < k {
                assert(out@[m] == prior[m]);
            } else if m > k {
                assert(out@[m] == prior[m - 1]);
            }
        }
        i += 1;
    }
    assert(all.take(sources@.len() as int) =~= all);
    out
}

/// The rank of a rule in the order of findings.
pub open spec fn rule_rank(rule: CopyRule) -> int {
    match rule {
        CopyRule::ContiguousCjk => 0,
        CopyRule::ContiguousWords => 1,
        CopyRule::NgramOverlap => 2,
    }
}

/// Whether one finding comes before another: by source, manuscript range, source range, rule.
pub open spec fn finding_before(a: FindingModel, b: FindingModel) -> bool {
    if a.source_id != b.source_id {
        text_before(a.source_id, b.source_id)
    } else if a.manuscript_range.start != b.manuscript_range.start {
        a.manuscript_range.start < b.manuscript_range.start
    } else if a.manuscript_range.end != b.manuscript_range.end {
        a.manuscript_range.end < b.manuscript_range.end
    } else if a.source_range.start != b.source_range.start {
        a.source_range.start < b.source_range.start
    } else if a.source_range.end != b.source_range.end {
        a.source_range.end < b.source_range.end
    } else {
        rule_rank(a.rule) < rule_rank(b.rule)
    }
}

/// The order of findings.
pub open spec fn finding_order() -> spec_fn(FindingModel, FindingModel) -> bool {
    |a: FindingModel, b: FindingModel| finding_before(a, b)
}

fn rank(rule: CopyRule) -> (r: u8)
    ensures
        r == rule_rank(rule),
{
    match rule {
        CopyRule::ContiguousCjk => 0,
        CopyRule::ContiguousWords => 1,
        CopyRule::NgramOverlap => 2,
    }
}

fn comes_before(a: &CopyFinding, b: &CopyFinding) -> (r: bool)
    ensures
        r == finding_before(a@, b@),
{
    if !(a.source_id == b.source_id) {
        before(a.source_id.as_str(), b.source_id.as_str())
    } else if a.manuscript_range.start != b.manuscript_range.start {
        a.manuscript_range.start < b.manuscript_range.start
    } else if a.manuscript_range.end != b.manuscript_range.end {
        a.manuscript_range.end < b.manuscript_range.end
    } else if a.source_range.start != b.source_range.start {
        a.source_range.start < b.source_range.start
    } else if a.source_range.end != b.source_range.end {
        a.source_range.end < b.source_range.end
    } else {
        rank(a.rule) < rank(b.rule)
    }
}

fn place_finding(list: &mut Vec<CopyFinding>, finding: CopyFinding)
    ensures
        finding_models(final(list)@) == placed_by(
            finding_models(old(list)@),
            finding@,
            finding_order(),
        ),
{
    let ghost models = finding_models(list@);
    let ghost item = finding@;
    let mut k: usize = 0;
    while k < list.len() && !comes_before(&finding, &list[k])
        invariant
            k <= list@.len(),
            list@ == old(list)@,
            item == finding@,
            models == finding_models(list@),
            forall|j: int| 0 <= j < k ==> !finding_order()(item, #[trigger] models[j]),
        decreases list@.len() - k,
    {
        assert(models[k as int] == list@[k as int]@);
        k += 1;
    }
    proof {
        if k < list@.len() {
            assert(models[k as int] == list@[k as int]@);
        }
        lemma_placed_at(models, item, finding_order(), k as int);
    }
    list.insert(k, finding);
    assert(finding_models(list@) =~= models.insert(k as int, item));
}

/// The findings of the sources from position `k` of the scan order on, behind those found so far.
pub open spec fn findings_from(
    m: NormalModel,
    sources: Seq<SourceModel>,
    policy: CopyPolicy,
    k: int,
    found: Seq<FindingModel>,
    used: int,
) -> Result<Seq<FindingModel>, ScanErrorModel>
    decreases sources.len() - k,
{
    if k < 0 || k >= sources.len() {
        Ok(found)
    } else {
        match source_result(m, sources[scan_order(sources)[k]], policy, used) {
            Err(error) => Err(error),
            Ok((more, total)) => findings_from(m, sources, policy, k + 1, found + more, total),
        }
    }
}

/// Whether a finding is about one of some sources.
pub open spec fn is_about_one(finding: FindingModel, sources: Seq<SourceModel>) -> bool {
    exists|i: int| 0 <= i < sources.len() && is_about(finding, #[trigger] sources[i])
}

/// Whether every finding is about a source, outside the ranges that may be quoted from it.
pub open spec fn respects_declarations(
    found: Seq<FindingModel>,
    sources: Seq<SourceModel>,
) -> bool {
    forall|k: int| 0 <= k < found.len() ==> is_about_one(#[trigger] found[k], sources)
}

/// Whether every finding covers a part of a manuscript.
pub open spec fn lie_in_manuscript(found: Seq<FindingModel>, manuscript: Seq<char>) -> bool {
    forall|k: int|
        0 <= k < found.len() ==> is_span((#[trigger] found[k]).manuscript_range, manuscript)
}

/// The result of a near-copy scan.
pub open spec fn scan_result(
    manuscript: Seq<char>,
    sources: Seq<SourceModel>,
    policy: CopyPolicy,
) -> Result<Seq<FindingModel>, ScanErrorModel> {
    match policy_error(policy) {
        Some(message) => Err(ScanErrorModel::InvalidPolicy(message)),
        None => match findings_from(
            normalized(manuscript),
            sources,
            policy,
            0,
            Seq::empty(),
            0,
        ) {
            Err(error) => Err(error),
            Ok(found) => Ok(ordered_by(found, finding_order())),
        },
    }
}

/// Scans a manuscript for passages copied from its sources.  Sources are scanned in the order of
/// their identifiers; a scan that would exceed a limit fails.
pub fn scan_near_copy(manuscript: &str, sources: &[AllowedSource], policy: &CopyPolicy) -> (r: Result<
    Vec<CopyFinding>,
    CopyScanError,
>)
    ensures
        match r {
            Ok(findings) => scan_result(manuscript@, source_models(sources@), *policy) == Ok::<
                Seq<FindingModel>,
                ScanErrorModel,
            >(finding_models(findings@)) && respects_declarations(
                finding_models(findings@),
                source_models(sources@),
            ) && lie_in_manuscript(finding_models(findings@), manuscript@),
            Err(error) => scan_result(manuscript@, source_models(sources@), *policy) == Err::<
                Seq<FindingModel>,
                ScanErrorModel,
            >(error@),
        },
{
    match validate_policy(policy) {
        Err(error) => {
            return Err(error);
        },
        Ok(()) => {},
    }
    let m = NormalizedText::from_text(manuscript);
    let ghost models = source_models(sources@);
    let order = order_sources(sources);
    let ghost goal = findings_from(m@, models, *policy, 0, Seq::empty(), 0);
    let mut sorted: Vec<CopyFinding> = Vec::new();
    let ghost mut found: Seq<FindingModel> = Seq::empty();
    let mut used: usize = 0;
    let mut k: usize = 0;
    assert(finding_models(sorted@) =~= ordered_by(found, finding_order()));
    while k < order.len()
        invariant
            k <= order@.len(),
            order@.len() == sources@.len(),
            models == source_models(sources@),
            models.len() == sources@.len(),
            order@.map_values(|i: usize| i as int) == scan_order(models),
            forall|j: int| 0 <= j < order@.len() ==> #[trigger] order@[j] < sources@.len(),
            policy_error(*policy) is None,
            m@ == normalized(manuscript@),
            text_fits(m@),
            text_lies_in(m@, manuscript@),
            used <= MAX_CANDIDATE_VERIFICATIONS,
            goal == findings_from(m@, models, *policy, 0, Seq::empty(), 0),
            goal == findings_from(m@, models, *policy, k as int, found, used as int),
            finding_models(sorted@) == ordered_by(found, finding_order()),
            respects_declarations(finding_models(sorted@), models),
            lie_in_manuscript(finding_models(sorted@), manuscript@),
        decreases order@.len() - k,
    {
        let at: usize = order[k];
        assert(order@.map_values(|i: usize| i as int)[k as int] == at as int);
        assert(models[at as int] == sources@[at as int]@);
        let s = NormalizedText::from_text(sources[at].text.as_str());
        match scan_normalized(&m, &s, &sources[at], policy, &mut used) {
            Err(error) => {
                return Err(error);
            },
            Ok(more) => {
                let ghost batch = finding_models(more@);
                assert forall|j: int| 0 <= j < batch.len() implies is_about_one(
                    #[trigger] batch[j],
                    models,
                ) && is_span(batch[j].manuscript_range, manuscript@) by {
                    assert(batch[j] == more@[j]@);
                    assert(text_lies_in(s@, models[at as int].text));
                    assert(is_about(batch[j], models[at as int]));
                }
                let ghost start = found;
                let mut rest = more;
                let ghost mut taken: int = 0;
                while rest.len() > 0
                    invariant
                        0 <= taken <= batch.len(),
                        finding_models(rest@) == batch.skip(taken),
                        found == start + batch.take(taken),
                        finding_models(sorted@) == ordered_by(found, finding_order()),
                        respects_declarations(batch, models),
                        respects_declarations(finding_models(sorted@), models),
                        lie_in_manuscript(batch, manuscript@),
                        lie_in_manuscript(finding_models(sorted@), manuscript@),
                    decreases rest@.len(),
                {
                    let ghost before_rest = rest@;
                    assert(finding_models(rest@).len() == rest@.len());
                    let finding = rest.remove(0);
                    assert(finding_models(before_rest)[0] == finding@);
                    assert(batch.skip(taken)[0] == batch[taken]);
                    let ghost next = found.push(finding@);
                    assert(next.drop_last() =~= found);
                    proof {
                        lemma_placed_keeps(
                            finding_models(sorted@),
                            finding@,
                            finding_order(),
                            |one: FindingModel| is_about_one(one, models),
                        );
                        lemma_placed_keeps(
                            finding_models(sorted@),
                            finding@,
                            finding_order(),
                            |one: FindingModel| is_span(one.manuscript_range, manuscript@),
                        );
                    }
                    place_finding(&mut sorted, finding);
                    proof {
                        assert forall|j: int| 0 <= j < rest@.len() implies #[trigger] finding_models(
                            rest@,
                        )[j] == batch.skip(taken + 1)[j] by {
                            assert(rest@[j] == before_rest[j + 1]);
                            assert(finding_models(before_rest)[j + 1] == batch.skip(taken)[j + 1]);
                        }
                        assert(finding_models(rest@) =~= batch.skip(taken + 1));
                        taken = taken + 1;
                        assert(start + batch.take(taken) =~= next);
                        found = next;
                    }
                }
                proof {
                    assert(finding_models(rest@).len() == 0);
                    assert(batch.take(taken) =~= batch);
                }
            },
        }
        k += 1;
    }
    Ok(sorted)
}

/// No exact finding means that no open window of the source agrees with a manuscript window.
pub proof fn no_exact_finding_means_no_exact_copy(
    m_runs: Seq<Seq<TokenModel>>,
    s_runs: Seq<Seq<TokenModel>>,
    source: SourceModel,
    width: int,
    rule: CopyRule,
    i: int,
    j: int,
)
    requires
        exact_finding(m_runs, s_runs, source, width, rule) is None,
        0 <= i < fixed_windows(m_runs, width).len(),
        0 <= j < open_windows(s_runs, fixed_windows(s_runs, width), source.exempt).len(),
    ensures
        !windows_agree(
            m_runs,
            fixed_windows(m_runs, width)[i],
            s_runs,
            open_windows(s_runs, fixed_windows(s_runs, width), source.exempt)[j],
            width,
        ),
{
    let windows = fixed_windows(m_runs, width);
    let sources = open_windows(s_runs, fixed_windows(s_runs, width), source.exempt);
    lemma_first_exact_none(m_runs, windows, s_runs, sources, width, 0, i);
    lemma_first_agreeing_none(m_runs, windows[i], s_runs, sources, width, 0, j);
}

proof fn lemma_first_exact_none(
    m_runs: Seq<Seq<TokenModel>>,
    windows: Seq<IndexedWindow>,
    s_runs: Seq<Seq<TokenModel>>,
    sources: Seq<IndexedWindow>,
    width: int,
    from: int,
    i: int,
)
    requires
        0 <= from <= i < windows.len(),
        first_exact(m_runs, windows, s_runs, sources, width, from) is None,
    ensures
        first_agreeing(m_runs, windows[i], s_runs, sources, width, 0) is None,
    decreases i - from,
{
    if from < i {
        lemma_first_exact_none(m_runs, windows, s_runs, sources, width, from + 1, i);
    }
}

proof fn lemma_first_agreeing_none(
    m_runs: Seq<Seq<TokenModel>>,
    m: IndexedWindow,
    s_runs: Seq<Seq<TokenModel>>,
    sources: Seq<IndexedWindow>,
    width: int,
    from: int,
    j: int,
)
    requires
        0 <= from <= j < sources.len(),
        first_agreeing(m_runs, m, s_runs, sources, width, from) is None,
    ensures
        !windows_agree(m_runs, m, s_runs, sources[j], width),
    decreases j - from,
{
    if from < j {
        lemma_first_agreeing_none(m_runs, m, s_runs, sources, width, from + 1, j);
    }
}

/// A finished n-gram comparison without a finding means that no open source window shares the
/// required part of its n-grams with any manuscript window.
pub proof fn no_ngram_finding_means_no_overlap(
    m_runs: Seq<Seq<TokenModel>>,
    m_windows: Seq<IndexedWindow>,
    s_runs: Seq<Seq<TokenModel>>,
    s_windows: Seq<IndexedWindow>,
    source: SourceModel,
    size: int,
    percent: int,
    used: int,
    w: int,
    c: int,
)
    requires
        size >= 1,
        1 <= percent <= 100,
        windows_fit(m_runs, m_windows),
        windows_fit(s_runs, s_windows),
        ngram_result(m_runs, m_windows, s_runs, s_windows, source, size, percent, used) is Ok,
        ngram_result(
            m_runs,
            m_windows,
            s_runs,
            s_windows,
            source,
            size,
            percent,
            used,
        )->Ok_0.0 is None,
        0 <= w < s_windows.len(),
        0 <= c < gram_windows(m_windows, size).len(),
        takes_part(
            ngram_scan(m_runs, m_windows, s_runs, s_windows, source.exempt, size, percent),
            w,
        ),
    ensures
        !shares_enough(
            ngram_scan(m_runs, m_windows, s_runs, s_windows, source.exempt, size, percent),
            w,
            c,
        ),
{
    let scan = ngram_scan(m_runs, m_windows, s_runs, s_windows, source.exempt, size, percent);
    let classes = gram_windows(m_windows, size);
    let keep = |x: IndexedWindow| gram_count(x, size) > 0;
    assert forall|i: int| 0 <= i < scan.windows.len() implies ascending(
        #[trigger] scan.windows[i],
    ) by {
        lemma_window_signature_ascends(s_runs, s_windows[i], size);
    }
    assert forall|i: int| 0 <= i < scan.classes.len() implies ascending(#[trigger] scan.classes[i])
        && scan.classes[i].len() > 0 by {
        m_windows.lemma_filter_len(keep);
        lemma_filter_member(m_windows, keep, i);
        let k = choose|k: int| 0 <= k < m_windows.len() && m_windows[k] == classes[i];
        assert(window_fits(m_runs, m_windows[k]));
        lemma_window_signature_ascends(m_runs, classes[i], size);
        lemma_signature_length(m_runs, classes[i], size);
    }
    if m_windows.len() == 0 {
        reveal(Seq::filter);
        assert(classes.len() == 0);
    }
    clean_visit_has_no_copy(scan, 0, 0, 0, used, w, c);
}

proof fn lemma_filter_member(windows: Seq<IndexedWindow>, keep: spec_fn(IndexedWindow) -> bool, i: int)
    requires
        0 <= i < windows.filter(keep).len(),
    ensures
        keep(windows.filter(keep)[i]),
        exists|k: int| 0 <= k < windows.len() && windows[k] == windows.filter(keep)[i],
    decreases windows.len(),
{
    reveal(Seq::filter);
    if windows.len() > 0 {
        let head = windows.drop_last();
        if i < head.filter(keep).len() {
            lemma_filter_member(head, keep, i);
            assert(windows.filter(keep)[i] == head.filter(keep)[i]);
            let k = choose|k: int| 0 <= k < head.len() && head[k] == head.filter(keep)[i];
            assert(windows[k] == windows.filter(keep)[i]);
        } else {
            assert(windows[windows.len() - 1] == windows.filter(keep)[i]);
        }
    }
}

proof fn lemma_window_signature_ascends(all: Seq<Seq<TokenModel>>, w: IndexedWindow, size: int)
    ensures
        ascending(window_signature(all, w, size)),
{
    if gram_count(w, size) != 0 {
        lemma_sort_ascends(
            run_grams(all[w.run as int], size).subrange(
                w.start as int,
                w.start + gram_count(w, size),
            ),
        );
    }
}

/// No source window that is looked for in the manuscript lies in a range that may be quoted.
pub proof fn open_window_is_not_exempt(
    s_runs: Seq<Seq<TokenModel>>,
    windows: Seq<IndexedWindow>,
    exempt: Seq<ByteRange>,
    j: int,
)
    requires
        0 <= j < open_windows(s_runs, windows, exempt).len(),
    ensures
        !is_exempt_range(exempt, window_range(s_runs, open_windows(s_runs, windows, exempt)[j])),
{
    lemma_filter_member(
        windows,
        |w: IndexedWindow| !is_exempt_range(exempt, window_range(s_runs, w)),
        j,
    );
}

/// Whether no two sources have the same identifier.
pub open spec fn sources_distinct(sources: Seq<SourceModel>) -> bool {
    forall|i: int, j: int|
        0 <= i < j < sources.len() ==> (#[trigger] sources[i]).id != (#[trigger] sources[j]).id
}

/// No finding of a scan lies in a range that may be quoted from its source.
pub proof fn finding_lies_in_no_declared_range(
    found: Seq<FindingModel>,
    sources: Seq<SourceModel>,
    k: int,
    i: int,
)
    requires
        respects_declarations(found, sources),
        sources_distinct(sources),
        0 <= k < found.len(),
        0 <= i < sources.len(),
        found[k].source_id == sources[i].id,
    ensures
        !is_exempt_range(sources[i].exempt, found[k].source_range),
        found[k].source_range.end <= utf8(sources[i].text).len(),
{
    assert(is_about_one(found[k], sources));
    let at = choose|at: int| 0 <= at < sources.len() && is_about(found[k], #[trigger] sources[at]);
    assert(sources[at].id == sources[i].id);
    assert(at == i);
}

/// A source that may be quoted as a whole has no finding.
pub proof fn quoted_source_has_no_finding(
    found: Seq<FindingModel>,
    sources: Seq<SourceModel>,
    k: int,
    i: int,
)
    requires
        respects_declarations(found, sources),
        sources_distinct(sources),
        0 <= k < found.len(),
        0 <= i < sources.len(),
        may_be_quoted_whole(sources[i]),
    ensures
        found[k].source_id != sources[i].id,
{
    if found[k].source_id == sources[i].id {
        finding_lies_in_no_declared_range(found, sources, k, i);
        let whole = choose|j: int|
            0 <= j < sources[i].exempt.len() && (#[trigger] sources[i].exempt[j]).start == 0
                && sources[i].exempt[j].end == utf8(sources[i].text).len();
        assert(sources[i].exempt[whole].start <= found[k].source_range.start);
    }
}

/// A declared range that does not fit the text of its source exempts nothing: a scan gives the
/// same result without it.
pub proof fn invalid_range_exempts_nothing(
    manuscript: Seq<char>,
    sources: Seq<SourceModel>,
    at: int,
    declared: Seq<ByteRange>,
    bad: int,
    policy: CopyPolicy,
)
    requires
        0 <= at < sources.len(),
        0 <= bad < declared.len(),
        !range_fits(declared[bad], sources[at].text),
    ensures
        ({
            let id = sources[at].id;
            let text = sources[at].text;
            let with = sources.update(at, declared_source(id, text, declared));
            let without = sources.update(at, declared_source(id, text, declared.remove(bad)));
            scan_result(manuscript, with, policy) == scan_result(manuscript, without, policy)
        }),
{
    let text = sources[at].text;
    let keep = |range: ByteRange| range_fits(range, text);
    let head = declared.take(bad);
    let tail = declared.skip(bad + 1);
    let one = seq![declared[bad]];
    assert(declared =~= head + one + tail);
    assert(declared.remove(bad) =~= head + tail);
    Seq::filter_distributes_over_add(head + one, tail, keep);
    Seq::filter_distributes_over_add(head, one, keep);
    Seq::filter_distributes_over_add(head, tail, keep);
    let none = Seq::<ByteRange>::empty();
    assert(none.filter(keep) =~= none) by {
        reveal(Seq::filter);
    }
    assert(one.filter(keep) =~= none) by {
        reveal(Seq::filter);
        assert(one.drop_last() =~= none);
        assert(!keep(one.last()));
    }
    assert(declared.filter(keep) =~= declared.remove(bad).filter(keep));
}

} // verus!
