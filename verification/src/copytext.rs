//! Normalized token runs of texts that are compared for copies.
use vstd::prelude::*;
use vstd::string::StringExecFns;
use vstd::utf8::is_char_boundary;
use crate::context::{range_fits, ByteRange};
use crate::text::{is_white_space, is_whitespace, lemma_boundary_between, lemma_utf8_concat, texts, to_chars, utf8};
use crate::unicode::{category_code, fold_text, folded, general_category, grapheme_indices, grapheme_offsets, grapheme_pieces, graphemes, is_alphanumeric, letter_or_number, make_up, offset_texts, pieces_text};

verus! {

/// Characters that separate words: white space, punctuation and format characters.
pub open spec fn is_spacing(c: char) -> bool {
    is_white_space(c) || 1 <= category_code(c) <= 8
}

fn is_spacing_or_punctuation(c: char) -> (r: bool)
    ensures
        r == is_spacing(c),
{
    if is_whitespace(c) {
        return true;
    }
    let code: u8 = general_category(c);
    1 <= code && code <= 8
}

/// Characters that a comparison ignores: format characters and fixed ranges of invisible ones.
pub open spec fn is_ignorable(c: char) -> bool {
    let u = c as u32;
    ||| category_code(c) == 8
    ||| u == 0x00ad
    ||| u == 0x034f
    ||| 0x115f <= u <= 0x1160
    ||| 0x17b4 <= u <= 0x17b5
    ||| 0x180b <= u <= 0x180e
    ||| u == 0x3164
    ||| 0xfe00 <= u <= 0xfe0f
    ||| u == 0xffa0
    ||| 0xfff0 <= u <= 0xfff8
    ||| 0x1bca0 <= u <= 0x1bca3
    ||| 0x1d173 <= u <= 0x1d17a
    ||| 0xe0000 <= u <= 0xe0fff
}

fn is_default_ignorable(c: char) -> (r: bool)
    ensures
        r == is_ignorable(c),
{
    let u: u32 = c as u32;
    general_category(c) == 8 || u == 0x00ad || u == 0x034f || (0x115f <= u && u <= 0x1160) || (
    0x17b4 <= u && u <= 0x17b5) || (0x180b <= u && u <= 0x180e) || u == 0x3164 || (0xfe00 <= u
        && u <= 0xfe0f) || u == 0xffa0 || (0xfff0 <= u && u <= 0xfff8) || (0x1bca0 <= u && u
        <= 0x1bca3) || (0x1d173 <= u && u <= 0x1d17a) || (0xe0000 <= u && u <= 0xe0fff)
}

/// Chinese, Japanese and Korean characters.
pub open spec fn is_cjk_char(c: char) -> bool {
    let u = c as u32;
    ||| 0x3040 <= u <= 0x30ff
    ||| 0x1100 <= u <= 0x11ff
    ||| 0x3100 <= u <= 0x318f
    ||| 0x3400 <= u <= 0x4dbf
    ||| 0x4e00 <= u <= 0x9fff
    ||| 0xa960 <= u <= 0xa97f
    ||| 0xac00 <= u <= 0xd7ff
    ||| 0xf900 <= u <= 0xfaff
    ||| 0xff66 <= u <= 0xff9d
    ||| 0x20000 <= u <= 0x323af
}

fn is_cjk(c: char) -> (r: bool)
    ensures
        r == is_cjk_char(c),
{
    let u: u32 = c as u32;
    (0x3040 <= u && u <= 0x30ff) || (0x1100 <= u && u <= 0x11ff) || (0x3100 <= u && u <= 0x318f)
        || (0x3400 <= u && u <= 0x4dbf) || (0x4e00 <= u && u <= 0x9fff) || (0xa960 <= u && u
        <= 0xa97f) || (0xac00 <= u && u <= 0xd7ff) || (0xf900 <= u && u <= 0xfaff) || (0xff66 <= u
        && u <= 0xff9d) || (0x20000 <= u && u <= 0x323af)
}

/// A text made of separators only.
pub open spec fn all_spacing(s: Seq<char>) -> bool {
    forall|i: int| 0 <= i < s.len() ==> is_spacing(#[trigger] s[i])
}

/// A text made of letters and numbers only.
pub open spec fn all_alphanumeric(s: Seq<char>) -> bool {
    forall|i: int| 0 <= i < s.len() ==> letter_or_number(#[trigger] s[i])
}

/// A text with a Chinese, Japanese or Korean character.
pub open spec fn has_cjk(s: Seq<char>) -> bool {
    exists|i: int| 0 <= i < s.len() && is_cjk_char(#[trigger] s[i])
}

fn only_spacing(s: &str) -> (r: bool)
    ensures
        r == all_spacing(s@),
{
    let chars = to_chars(s);
    let mut i: usize = 0;
    while i < chars.len()
        invariant
            i <= chars@.len(),
            chars@ == s@,
            forall|k: int| 0 <= k < i ==> is_spacing(#[trigger] s@[k]),
        decreases chars@.len() - i,
    {
        if !is_spacing_or_punctuation(chars[i]) {
            assert(!is_spacing(s@[i as int]));
            return false;
        }
        i += 1;
    }
    true
}

fn only_alphanumeric(s: &str) -> (r: bool)
    ensures
        r == all_alphanumeric(s@),
{
    let chars = to_chars(s);
    let mut i: usize = 0;
    while i < chars.len()
        invariant
            i <= chars@.len(),
            chars@ == s@,
            forall|k: int| 0 <= k < i ==> letter_or_number(#[trigger] s@[k]),
        decreases chars@.len() - i,
    {
        if !is_alphanumeric(chars[i]) {
            assert(!letter_or_number(s@[i as int]));
            return false;
        }
        i += 1;
    }
    true
}

fn contains_cjk(s: &str) -> (r: bool)
    ensures
        r == has_cjk(s@),
{
    let chars = to_chars(s);
    let mut i: usize = 0;
    while i < chars.len()
        invariant
            i <= chars@.len(),
            chars@ == s@,
            forall|k: int| 0 <= k < i ==> !is_cjk_char(#[trigger] s@[k]),
        decreases chars@.len() - i,
    {
        if is_cjk(chars[i]) {
            assert(is_cjk_char(s@[i as int]));
            return true;
        }
        i += 1;
    }
    false
}

/// A grapheme as it is compared: form KC, lower case, without ignorable characters.
pub open spec fn normal_form(grapheme: Seq<char>) -> Seq<char> {
    folded(grapheme).filter(|c: char| !is_ignorable(c))
}

fn normalize(grapheme: &str) -> (r: String)
    ensures
        r@ == normal_form(grapheme@),
{
    let whole = fold_text(grapheme);
    let chars = to_chars(whole.as_str());
    let ghost keep = |c: char| !is_ignorable(c);
    let mut out = String::new();
    let mut i: usize = 0;
    while i < chars.len()
        invariant
            i <= chars@.len(),
            keep == (|c: char| !is_ignorable(c)),
            out@ == chars@.take(i as int).filter(keep),
        decreases chars@.len() - i,
    {
        reveal(Seq::filter);
        let ghost t = chars@.take(i + 1);
        assert(t.drop_last() =~= chars@.take(i as int));
        if !is_default_ignorable(chars[i]) {
            out.push(chars[i]);
        }
        assert(out@ =~= t.filter(keep));
        i += 1;
    }
    assert(chars@.take(chars@.len() as int) =~= chars@);
    out
}

/// The compared pieces of a normalized grapheme: its clusters that are not separators.
pub open spec fn pieces_of(normal: Seq<char>) -> Seq<Seq<char>> {
    grapheme_pieces(normal).filter(|piece: Seq<char>| !all_spacing(piece))
}

/// The pieces that hold a Chinese, Japanese or Korean character.
pub open spec fn cjk_of(pieces: Seq<Seq<char>>) -> Seq<Seq<char>> {
    pieces.filter(|piece: Seq<char>| has_cjk(piece))
}

fn split_pieces(normal: &str) -> (r: Vec<String>)
    ensures
        texts(r@) == pieces_of(normal@),
{
    let all = graphemes(normal);
    let ghost keep = |piece: Seq<char>| !all_spacing(piece);
    let mut out: Vec<String> = Vec::new();
    let mut i: usize = 0;
    assert(texts(out@) =~= texts(all@).take(0).filter(keep)) by {
        reveal(Seq::filter);
    }
    while i < all.len()
        invariant
            i <= all@.len(),
            keep == (|piece: Seq<char>| !all_spacing(piece)),
            texts(out@) == texts(all@).take(i as int).filter(keep),
        decreases all@.len() - i,
    {
        reveal(Seq::filter);
        let ghost t = texts(all@).take(i + 1);
        let ghost before = texts(out@);
        assert(t.drop_last() =~= texts(all@).take(i as int));
        assert(t.last() == all@[i as int]@);
        if !only_spacing(all[i].as_str()) {
            out.push(all[i].clone());
            assert(texts(out@) =~= before.push(t.last()));
        }
        i += 1;
    }
    assert(texts(all@).take(all@.len() as int) =~= texts(all@));
    out
}

fn select_cjk(pieces: &[String]) -> (r: Vec<String>)
    ensures
        texts(r@) == cjk_of(texts(pieces@)),
{
    let ghost keep = |piece: Seq<char>| has_cjk(piece);
    let mut out: Vec<String> = Vec::new();
    let mut i: usize = 0;
    assert(texts(out@) =~= texts(pieces@).take(0).filter(keep)) by {
        reveal(Seq::filter);
    }
    while i < pieces.len()
        invariant
            i <= pieces@.len(),
            keep == (|piece: Seq<char>| has_cjk(piece)),
            texts(out@) == texts(pieces@).take(i as int).filter(keep),
        decreases pieces@.len() - i,
    {
        reveal(Seq::filter);
        let ghost t = texts(pieces@).take(i + 1);
        let ghost before = texts(out@);
        assert(t.drop_last() =~= texts(pieces@).take(i as int));
        assert(t.last() == pieces@[i as int]@);
        if contains_cjk(pieces[i].as_str()) {
            out.push(pieces[i].clone());
            assert(texts(out@) =~= before.push(t.last()));
        }
        i += 1;
    }
    assert(texts(pieces@).take(pieces@.len() as int) =~= texts(pieces@));
    out
}

/// A compared piece of text and the bytes it came from.
#[derive(Debug)]
pub struct Token {
    /// Normalized text.
    pub normalized: String,
    /// Bytes of the original text.
    pub range: ByteRange,
}

/// The text and range of a token.
pub type TokenModel = (Seq<char>, ByteRange);

impl View for Token {
    type V = TokenModel;

    open spec fn view(&self) -> TokenModel {
        (self.normalized@, self.range)
    }
}

/// The views of tokens.
pub open spec fn tokens(items: Seq<Token>) -> Seq<TokenModel> {
    items.map_values(|item: Token| item@)
}

/// The views of runs of tokens.
pub open spec fn runs(items: Seq<Vec<Token>>) -> Seq<Seq<TokenModel>> {
    items.map_values(|item: Vec<Token>| tokens(item@))
}

/// A run of word characters with the positions at which words start.
#[derive(Debug)]
pub struct WordCharRun {
    /// Characters of the words and single spaces between them.
    pub tokens: Vec<Token>,
    /// Position of the first character of each word.
    pub word_starts: Vec<usize>,
}

/// Tokens and word starts of a run of word characters.
pub type WordRunModel = (Seq<TokenModel>, Seq<usize>);

impl View for WordCharRun {
    type V = WordRunModel;

    open spec fn view(&self) -> WordRunModel {
        (tokens(self.tokens@), self.word_starts@)
    }
}

/// The views of runs of word characters.
pub open spec fn word_run_models(items: Seq<WordCharRun>) -> Seq<WordRunModel> {
    items.map_values(|item: WordCharRun| item@)
}

/// A cluster of a text as it is compared.
#[derive(Debug)]
pub struct Cluster {
    /// Normalized text.
    pub normal: String,
    /// Compared pieces of the normalized text; a cluster without any separates words.
    pub pieces: Vec<String>,
    /// Whether the normalized text holds only letters and numbers.
    pub word: bool,
    /// Bytes of the original text.
    pub range: ByteRange,
}

/// A cluster by the views of its fields.
pub struct ClusterModel {
    pub normal: Seq<char>,
    pub pieces: Seq<Seq<char>>,
    pub word: bool,
    pub range: ByteRange,
}

impl View for Cluster {
    type V = ClusterModel;

    open spec fn view(&self) -> ClusterModel {
        ClusterModel {
            normal: self.normal@,
            pieces: texts(self.pieces@),
            word: self.word,
            range: self.range,
        }
    }
}

/// The views of clusters.
pub open spec fn cluster_models(items: Seq<Cluster>) -> Seq<ClusterModel> {
    items.map_values(|item: Cluster| item@)
}

/// A grapheme at a byte offset as it is compared.
pub open spec fn cluster_of(start: usize, grapheme: Seq<char>) -> ClusterModel {
    let normal = normal_form(grapheme);
    ClusterModel {
        normal,
        pieces: if all_spacing(normal) {
            Seq::empty()
        } else {
            pieces_of(normal)
        },
        word: all_alphanumeric(normal),
        range: ByteRange { start, end: (start + utf8(grapheme).len()) as usize },
    }
}

/// The clusters of a text as they are compared.
pub open spec fn clusters_of(text: Seq<char>) -> Seq<ClusterModel> {
    grapheme_offsets(text).map_values(|item: (usize, Seq<char>)| cluster_of(item.0, item.1))
}

fn read_cluster(start: usize, grapheme: &str) -> (r: Cluster)
    requires
        start + utf8(grapheme@).len() <= usize::MAX,
    ensures
        r@ == cluster_of(start, grapheme@),
{
    let end: usize = start + grapheme.as_bytes().len();
    let normal = normalize(grapheme);
    let pieces = if only_spacing(normal.as_str()) {
        Vec::new()
    } else {
        split_pieces(normal.as_str())
    };
    let word = only_alphanumeric(normal.as_str());
    let r = Cluster { normal, pieces, word, range: ByteRange { start, end } };
    assert(r@.pieces =~= cluster_of(start, grapheme@).pieces);
    r
}

/// Splits a text into clusters as they are compared.
pub fn read_clusters(text: &str) -> (r: Vec<Cluster>)
    ensures
        cluster_models(r@) == clusters_of(text@),
        clusters_cover(clusters_of(text@), text@),
{
    let found = grapheme_indices(text);
    let length: usize = text.as_bytes().len();
    let ghost all = clusters_of(text@);
    let mut out: Vec<Cluster> = Vec::new();
    let mut i: usize = 0;
    while i < found.len()
        invariant
            i <= found@.len(),
            length == utf8(text@).len(),
            grapheme_offsets(text@) == offset_texts(found@),
            all == clusters_of(text@),
            make_up(offset_texts(found@), text@),
            out@.len() == i,
            forall|k: int| 0 <= k < i ==> (#[trigger] out@[k])@ == all[k],
        decreases found@.len() - i,
    {
        let start: usize = found[i].0;
        let grapheme = found[i].1.as_str();
        assert(grapheme_offsets(text@)[i as int] == (start, grapheme@));
        proof {
            lemma_piece_lies_in(grapheme_offsets(text@), text@, i as int);
        }
        out.push(read_cluster(start, grapheme));
        i += 1;
    }
    assert(cluster_models(out@) =~= all);
    proof {
        lemma_clusters_cover(text@);
    }
    out
}

/// Tokens with a common range.
pub open spec fn tokens_of(pieces: Seq<Seq<char>>, range: ByteRange) -> Seq<TokenModel> {
    pieces.map_values(|piece: Seq<char>| (piece, range))
}

/// A text during normalization: finished runs and what is still open.
pub struct NormalState {
    pub cjk_runs: Seq<Seq<TokenModel>>,
    pub cjk: Seq<TokenModel>,
    pub word_runs: Seq<Seq<TokenModel>>,
    pub words: Seq<TokenModel>,
    pub word: Option<TokenModel>,
    pub word_char_runs: Seq<WordRunModel>,
    pub word_chars: Seq<TokenModel>,
    pub word_starts: Seq<usize>,
    pub characters: Seq<TokenModel>,
}

/// Nothing was read yet.
pub open spec fn initial_state() -> NormalState {
    NormalState {
        cjk_runs: Seq::empty(),
        cjk: Seq::empty(),
        word_runs: Seq::empty(),
        words: Seq::empty(),
        word: None,
        word_char_runs: Seq::empty(),
        word_chars: Seq::empty(),
        word_starts: Seq::empty(),
        characters: Seq::empty(),
    }
}

/// The open word joins the words of its run.
pub open spec fn word_finished(s: NormalState) -> NormalState {
    match s.word {
        Some(word) => NormalState { words: s.words.push(word), word: None, ..s },
        None => s,
    }
}

/// The open run of words ends.
pub open spec fn word_run_finished(s: NormalState) -> NormalState {
    if s.words.len() > 0 {
        NormalState { word_runs: s.word_runs.push(s.words), words: Seq::empty(), ..s }
    } else {
        s
    }
}

/// The open run of word characters ends.
pub open spec fn word_chars_finished(s: NormalState) -> NormalState {
    if s.word_chars.len() > 0 {
        NormalState {
            word_char_runs: s.word_char_runs.push((s.word_chars, s.word_starts)),
            word_chars: Seq::empty(),
            word_starts: Seq::empty(),
            ..s
        }
    } else {
        s
    }
}

/// The open word and the runs it belongs to end.
pub open spec fn words_finished(s: NormalState) -> NormalState {
    word_chars_finished(word_run_finished(word_finished(s)))
}

/// The open run of CJK tokens ends.
pub open spec fn cjk_finished(s: NormalState) -> NormalState {
    if s.cjk.len() > 0 {
        NormalState { cjk_runs: s.cjk_runs.push(s.cjk), cjk: Seq::empty(), ..s }
    } else {
        s
    }
}

/// The open word after a grapheme of letters and numbers: a new word, or a longer one.
pub open spec fn longer_word(word: Option<TokenModel>, normal: Seq<char>, range: ByteRange) -> TokenModel {
    match word {
        Some(current) => (
            current.0 + normal,
            ByteRange { start: current.1.start, end: range.end },
        ),
        None => (normal, range),
    }
}

/// CJK pieces are read: words end.
pub open spec fn cjk_added(s: NormalState, pieces: Seq<Seq<char>>, range: ByteRange) -> NormalState {
    let t = words_finished(s);
    NormalState { cjk: t.cjk + tokens_of(pieces, range), ..t }
}

/// Other pieces are read: a CJK run ends, and letters and numbers extend the open word.
pub open spec fn letters_added(
    s: NormalState,
    cluster: ClusterModel,
) -> NormalState {
    let t = cjk_finished(s);
    let chars = t.word_chars + tokens_of(cluster.pieces, cluster.range);
    if cluster.word {
        NormalState {
            word_starts: if t.word is None {
                t.word_starts.push(t.word_chars.len() as usize)
            } else {
                t.word_starts
            },
            word_chars: chars,
            word: Some(longer_word(t.word, cluster.normal, cluster.range)),
            ..t
        }
    } else {
        NormalState { word_chars: chars, ..t }
    }
}

/// One cluster is read.
pub open spec fn cluster_added(s: NormalState, cluster: ClusterModel) -> NormalState {
    if cluster.normal.len() == 0 {
        s
    } else if cluster.pieces.len() == 0 {
        if s.word is Some {
            let t = word_finished(s);
            NormalState { word_chars: t.word_chars.push((seq![' '], cluster.range)), ..t }
        } else {
            s
        }
    } else {
        let t = NormalState {
            characters: s.characters + tokens_of(cluster.pieces, cluster.range),
            ..s
        };
        let cjk = cjk_of(cluster.pieces);
        if cjk.len() > 0 {
            cjk_added(t, cjk, cluster.range)
        } else {
            letters_added(t, cluster)
        }
    }
}

/// The state after the first `n` clusters.
pub open spec fn state_after(clusters: Seq<ClusterModel>, n: int) -> NormalState
    decreases n,
{
    if n <= 0 {
        initial_state()
    } else {
        cluster_added(state_after(clusters, n - 1), clusters[n - 1])
    }
}

/// A normalized text: all runs are finished.
pub struct NormalModel {
    pub cjk_runs: Seq<Seq<TokenModel>>,
    pub word_runs: Seq<Seq<TokenModel>>,
    pub word_char_runs: Seq<WordRunModel>,
    pub characters: Seq<TokenModel>,
}

/// The end of the text is reached.
pub open spec fn all_finished(s: NormalState) -> NormalModel {
    let t = cjk_finished(words_finished(s));
    NormalModel {
        cjk_runs: t.cjk_runs,
        word_runs: t.word_runs,
        word_char_runs: t.word_char_runs,
        characters: t.characters,
    }
}

/// The normalized form of a text with the given clusters.
pub open spec fn normal_text(clusters: Seq<ClusterModel>) -> NormalModel {
    all_finished(state_after(clusters, clusters.len() as int))
}

/// The normalized form of a text.
pub open spec fn normalized(text: Seq<char>) -> NormalModel {
    normal_text(clusters_of(text))
}

/// Word starts lie inside the run, and between two of them there is a character and a space.
pub open spec fn starts_fit(starts: Seq<usize>, length: int) -> bool {
    &&& forall|i: int| 0 <= i < starts.len() ==> #[trigger] starts[i] < length
    &&& forall|i: int| 0 <= i < starts.len() - 1 ==> (#[trigger] starts[i]) + 2 <= starts[i + 1]
}

/// Word starts of finished and open runs fit their runs.
pub open spec fn state_fits(s: NormalState) -> bool {
    &&& forall|i: int|
        0 <= i < s.word_char_runs.len() ==> starts_fit(
            (#[trigger] s.word_char_runs[i]).1,
            s.word_char_runs[i].0.len() as int,
        )
    &&& starts_fit(s.word_starts, s.word_chars.len() as int)
    &&& s.word is None && s.word_starts.len() > 0 ==> s.word_starts.last() + 2
        <= s.word_chars.len()
    &&& s.word is Some ==> s.word_starts.len() > 0
}

/// A text in the token runs that copies are looked for in.
#[derive(Debug)]
pub struct NormalizedText {
    /// Runs of CJK tokens.
    pub cjk_runs: Vec<Vec<Token>>,
    /// Runs of words.
    pub word_runs: Vec<Vec<Token>>,
    /// Runs of word characters.
    pub word_char_runs: Vec<WordCharRun>,
    /// All characters.
    pub characters: Vec<Token>,
}

impl View for NormalizedText {
    type V = NormalModel;

    open spec fn view(&self) -> NormalModel {
        NormalModel {
            cjk_runs: runs(self.cjk_runs@),
            word_runs: runs(self.word_runs@),
            word_char_runs: word_run_models(self.word_char_runs@),
            characters: tokens(self.characters@),
        }
    }
}

/// Word starts of all runs fit their runs.
pub open spec fn text_fits(text: NormalModel) -> bool {
    forall|i: int|
        0 <= i < text.word_char_runs.len() ==> starts_fit(
            (#[trigger] text.word_char_runs[i]).1,
            text.word_char_runs[i].0.len() as int,
        )
}

proof fn lemma_letters_fit(s: NormalState, cluster: ClusterModel)
    requires
        state_fits(s),
        cluster.pieces.len() > 0,
        s.word_chars.len() <= usize::MAX,
    ensures
        state_fits(letters_added(s, cluster)),
{
    let t = letters_added(s, cluster);
    assert(t.word_chars.len() == s.word_chars.len() + cluster.pieces.len());
    assert forall|i: int| 0 <= i < t.word_starts.len() implies #[trigger] t.word_starts[i]
        < t.word_chars.len() by {
        if i < s.word_starts.len() {
            assert(t.word_starts[i] == s.word_starts[i]);
        }
    }
    assert forall|i: int| 0 <= i < t.word_starts.len() - 1 implies (#[trigger] t.word_starts[i]) + 2
        <= t.word_starts[i + 1] by {
        if i + 1 < s.word_starts.len() {
            assert(s.word_starts[i] + 2 <= s.word_starts[i + 1]);
        }
    }
}

/// Whether a range covers a part of a text that is not empty and splits no character.
pub open spec fn is_span(range: ByteRange, text: Seq<char>) -> bool {
    range.start < range.end && range_fits(range, text)
}

/// Whether the tokens of a run cover parts of a text, in order.
pub open spec fn run_lies_in(list: Seq<TokenModel>, text: Seq<char>) -> bool {
    &&& forall|i: int| 0 <= i < list.len() ==> is_span((#[trigger] list[i]).1, text)
    &&& forall|i: int, j: int|
        0 <= i <= j < list.len() ==> (#[trigger] list[i]).1.start <= (#[trigger] list[j]).1.start
}

/// Whether the tokens of each run cover parts of a text, in order.
pub open spec fn runs_lie_in(list: Seq<Seq<TokenModel>>, text: Seq<char>) -> bool {
    forall|i: int| 0 <= i < list.len() ==> run_lies_in(#[trigger] list[i], text)
}

/// Whether the tokens of each run of word characters cover parts of a text, in order.
pub open spec fn word_runs_lie_in(list: Seq<WordRunModel>, text: Seq<char>) -> bool {
    forall|i: int| 0 <= i < list.len() ==> run_lies_in((#[trigger] list[i]).0, text)
}

/// Whether the tokens of each run of a normalized text cover parts of a text, in order.
pub open spec fn text_lies_in(normal: NormalModel, text: Seq<char>) -> bool {
    &&& runs_lie_in(normal.cjk_runs, text)
    &&& runs_lie_in(normal.word_runs, text)
    &&& word_runs_lie_in(normal.word_char_runs, text)
    &&& run_lies_in(normal.characters, text)
}

spec fn run_ends_by(list: Seq<TokenModel>, at: int) -> bool {
    forall|i: int| 0 <= i < list.len() ==> (#[trigger] list[i]).1.end <= at
}

/// Whether everything that was read covers parts of a text before an offset.
spec fn state_lies_in(s: NormalState, text: Seq<char>, at: int) -> bool {
    &&& runs_lie_in(s.cjk_runs, text)
    &&& runs_lie_in(s.word_runs, text)
    &&& word_runs_lie_in(s.word_char_runs, text)
    &&& run_lies_in(s.cjk, text) && run_ends_by(s.cjk, at)
    &&& run_lies_in(s.words, text) && run_ends_by(s.words, at)
    &&& run_lies_in(s.word_chars, text) && run_ends_by(s.word_chars, at)
    &&& run_lies_in(s.characters, text) && run_ends_by(s.characters, at)
    &&& match s.word {
        Some(word) => is_span(word.1, text) && word.1.end <= at && run_ends_by(
            s.words,
            word.1.start as int,
        ),
        None => true,
    }
}

proof fn lemma_run_grows(
    list: Seq<TokenModel>,
    more: Seq<TokenModel>,
    range: ByteRange,
    text: Seq<char>,
)
    requires
        run_lies_in(list, text),
        run_ends_by(list, range.start as int),
        is_span(range, text),
        forall|i: int| 0 <= i < more.len() ==> (#[trigger] more[i]).1 == range,
    ensures
        run_lies_in(list + more, text),
        run_ends_by(list + more, range.end as int),
{
    let all = list + more;
    assert forall|i: int| 0 <= i < all.len() implies is_span((#[trigger] all[i]).1, text)
        && all[i].1.end <= range.end by {
        if i < list.len() {
            assert(all[i] == list[i]);
        } else {
            assert(all[i] == more[i - list.len()]);
        }
    }
    assert forall|i: int, j: int| 0 <= i <= j < all.len() implies (#[trigger] all[i]).1.start <= (
    #[trigger] all[j]).1.start by {
        if j < list.len() {
            assert(all[i] == list[i] && all[j] == list[j]);
        } else {
            assert(all[j] == more[j - list.len()]);
            if i < list.len() {
                assert(all[i] == list[i]);
                assert(is_span(list[i].1, text));
            } else {
                assert(all[i] == more[i - list.len()]);
            }
        }
    }
}

proof fn lemma_words_finished_lie_in(s: NormalState, text: Seq<char>, at: int)
    requires
        state_lies_in(s, text, at),
    ensures
        state_lies_in(words_finished(s), text, at),
        words_finished(s).word is None,
        state_lies_in(word_finished(s), text, at),
{
    let t = word_finished(s);
    if let Some(word) = s.word {
        lemma_run_grows(s.words, seq![word], word.1, text);
        assert(t.words =~= s.words + seq![word]);
        assert forall|i: int| 0 <= i < t.words.len() implies (#[trigger] t.words[i]).1.end
            <= at by {
            if i < s.words.len() {
                assert(t.words[i] == s.words[i]);
            }
        }
    }
    assert(state_lies_in(t, text, at));
    let u = word_run_finished(t);
    assert(state_lies_in(u, text, at));
    assert(state_lies_in(word_chars_finished(u), text, at));
}

proof fn lemma_cluster_lies_in(s: NormalState, cluster: ClusterModel, text: Seq<char>, at: int)
    requires
        state_lies_in(s, text, at),
        is_span(cluster.range, text),
        cluster.range.start == at,
    ensures
        state_lies_in(cluster_added(s, cluster), text, cluster.range.end as int),
{
    let range = cluster.range;
    let end = range.end as int;
    let added = tokens_of(cluster.pieces, range);
    assert(state_lies_in(s, text, end));
    if cluster.normal.len() == 0 {
    } else if cluster.pieces.len() == 0 {
        if s.word is Some {
            lemma_words_finished_lie_in(s, text, at);
            let t = word_finished(s);
            lemma_run_grows(t.word_chars, seq![(seq![' '], range)], range, text);
            assert(t.word_chars.push((seq![' '], range)) =~= t.word_chars + seq![(seq![' '], range)]);
            assert(state_lies_in(t, text, end));
        }
    } else {
        lemma_run_grows(s.characters, added, range, text);
        let t = NormalState { characters: s.characters + added, ..s };
        let cjk = cjk_of(cluster.pieces);
        if cjk.len() > 0 {
            lemma_words_finished_lie_in(s, text, at);
            let u = words_finished(s);
            lemma_run_grows(u.cjk, tokens_of(cjk, range), range, text);
            assert(words_finished(t) == NormalState { characters: t.characters, ..u });
            assert(state_lies_in(u, text, end));
        } else {
            let u = cjk_finished(s);
            assert(state_lies_in(u, text, at));
            lemma_run_grows(u.word_chars, added, range, text);
            assert(cjk_finished(t) == NormalState { characters: t.characters, ..u });
            assert(state_lies_in(u, text, end));
            if let Some(word) = u.word {
                assert(is_span(ByteRange { start: word.1.start, end: range.end }, text));
            }
        }
    }
}

/// Whether clusters cover a text: none is empty, each starts where the one before it ends, the
/// first one with the text, and the last one ends with it.
pub open spec fn clusters_cover(list: Seq<ClusterModel>, text: Seq<char>) -> bool {
    &&& forall|i: int| 0 <= i < list.len() ==> is_span((#[trigger] list[i]).range, text)
    &&& list.len() > 0 ==> list[0].range.start == 0
    &&& forall|i: int, j: int|
        0 <= i < j < list.len() && j == i + 1 ==> (#[trigger] list[i]).range.end == (
        #[trigger] list[j]).range.start
    &&& if list.len() == 0 {
        text.len() == 0
    } else {
        list.last().range.end == utf8(text).len()
    }
}

proof fn lemma_state_lies_in(clusters: Seq<ClusterModel>, text: Seq<char>, k: int)
    requires
        clusters_cover(clusters, text),
        0 <= k <= clusters.len(),
    ensures
        state_lies_in(
            state_after(clusters, k),
            text,
            if k == 0 {
                0
            } else {
                clusters[k - 1].range.end as int
            },
        ),
    decreases k,
{
    if k > 0 {
        lemma_state_lies_in(clusters, text, k - 1);
        if k > 1 {
            assert(clusters[k - 2].range.end == clusters[k - 1].range.start);
        }
        lemma_cluster_lies_in(
            state_after(clusters, k - 1),
            clusters[k - 1],
            text,
            clusters[k - 1].range.start as int,
        );
    }
}

/// The tokens of a normalized text cover parts of the text that its clusters cover.
pub proof fn lemma_text_lies_in(clusters: Seq<ClusterModel>, text: Seq<char>)
    requires
        clusters_cover(clusters, text),
    ensures
        text_lies_in(normal_text(clusters), text),
{
    let n = clusters.len() as int;
    let s = state_after(clusters, n);
    let at = if n == 0 {
        0
    } else {
        clusters[n - 1].range.end as int
    };
    lemma_state_lies_in(clusters, text, n);
    lemma_words_finished_lie_in(s, text, at);
}

/// Pieces that make up a text stand in it one behind the other.
proof fn lemma_piece_lies_in(items: Seq<(usize, Seq<char>)>, text: Seq<char>, i: int)
    requires
        make_up(items, text),
        0 <= i < items.len(),
        utf8(text).len() <= usize::MAX,
    ensures
        ({
            let end = utf8(pieces_text(items.take(i + 1))).len();
            &&& end == items[i].0 + utf8(items[i].1).len()
            &&& is_span(ByteRange { start: items[i].0, end: end as usize }, text)
            &&& end <= usize::MAX
        }),
{
    let a = pieces_text(items.take(i));
    assert(items.take(i + 1).drop_last() =~= items.take(i));
    assert(items.take(i + 1).last() == items[i]);
    let rest = lemma_pieces_extend(items, i + 1);
    lemma_part(a, items[i].1, rest);
}

/// A part of a text that is not empty covers bytes, and splits no character at its ends.
proof fn lemma_part(a: Seq<char>, piece: Seq<char>, rest: Seq<char>)
    requires
        piece.len() > 0,
    ensures
        ({
            let text = a + piece + rest;
            let end = utf8(a + piece).len();
            &&& end == utf8(a).len() + utf8(piece).len()
            &&& utf8(piece).len() > 0
            &&& end <= utf8(text).len()
            &&& is_char_boundary(utf8(text), utf8(a).len() as int)
            &&& is_char_boundary(utf8(text), end as int)
        }),
{
    lemma_utf8_concat(a, piece);
    lemma_utf8_concat(a + piece, rest);
    lemma_boundary_between(a + piece, rest);
    assert(a + piece + rest =~= a + (piece + rest));
    lemma_boundary_between(a, piece + rest);
    assert(vstd::utf8::encode_scalar(piece[0] as u32).len() > 0);
}

proof fn lemma_pieces_extend(items: Seq<(usize, Seq<char>)>, k: int) -> (rest: Seq<char>)
    requires
        0 <= k <= items.len(),
    ensures
        pieces_text(items) == pieces_text(items.take(k)) + rest,
    decreases items.len() - k,
{
    if k == items.len() {
        assert(items.take(k) =~= items);
        assert(pieces_text(items) =~= pieces_text(items) + Seq::<char>::empty());
        Seq::empty()
    } else {
        let rest = lemma_pieces_extend(items, k + 1);
        assert(items.take(k + 1).drop_last() =~= items.take(k));
        let head = pieces_text(items.take(k));
        let piece = items[k].1;
        assert(head + piece + rest =~= head + (piece + rest));
        piece + rest
    }
}

proof fn lemma_clusters_cover(text: Seq<char>)
    requires
        make_up(grapheme_offsets(text), text),
        utf8(text).len() <= usize::MAX,
    ensures
        clusters_cover(clusters_of(text), text),
{
    let items = grapheme_offsets(text);
    let list = clusters_of(text);
    assert forall|i: int| 0 <= i < list.len() implies is_span((#[trigger] list[i]).range, text)
        && list[i].range.start == items[i].0 && list[i].range.end == utf8(
        pieces_text(items.take(i + 1)),
    ).len() by {
        lemma_piece_lies_in(items, text, i);
    }
    assert forall|i: int, j: int| 0 <= i < j < list.len() && j == i + 1 implies (
    #[trigger] list[i]).range.end == (#[trigger] list[j]).range.start by {
        assert(items[j].0 == utf8(pieces_text(items.take(j))).len());
    }
    if list.len() > 0 {
        assert(items.take(0) =~= Seq::<(usize, Seq<char>)>::empty());
        assert(items[0].0 == utf8(pieces_text(items.take(0))).len());
        assert(items.take(items.len() as int) =~= items);
        assert(list[list.len() - 1].range.end == utf8(text).len());
    }
}

struct Normalizer {
    cjk_runs: Vec<Vec<Token>>,
    cjk: Vec<Token>,
    word_runs: Vec<Vec<Token>>,
    words: Vec<Token>,
    word: Option<Token>,
    word_char_runs: Vec<WordCharRun>,
    word_chars: Vec<Token>,
    word_starts: Vec<usize>,
    characters: Vec<Token>,
}

impl View for Normalizer {
    type V = NormalState;

    closed spec fn view(&self) -> NormalState {
        NormalState {
            cjk_runs: runs(self.cjk_runs@),
            cjk: tokens(self.cjk@),
            word_runs: runs(self.word_runs@),
            words: tokens(self.words@),
            word: match self.word {
                Some(word) => Some(word@),
                None => None,
            },
            word_char_runs: word_run_models(self.word_char_runs@),
            word_chars: tokens(self.word_chars@),
            word_starts: self.word_starts@,
            characters: tokens(self.characters@),
        }
    }
}

fn push_tokens(list: &mut Vec<Token>, pieces: &[String], range: ByteRange)
    ensures
        tokens(final(list)@) == tokens(old(list)@) + tokens_of(texts(pieces@), range),
{
    let ghost before = tokens(list@);
    let ghost all = tokens_of(texts(pieces@), range);
    let mut i: usize = 0;
    assert(before + all.take(0) =~= before);
    while i < pieces.len()
        invariant
            i <= pieces@.len(),
            all == tokens_of(texts(pieces@), range),
            tokens(list@) == before + all.take(i as int),
        decreases pieces@.len() - i,
    {
        let ghost middle = tokens(list@);
        list.push(Token { normalized: pieces[i].clone(), range });
        assert(tokens(list@) =~= middle.push((pieces@[i as int]@, range)));
        assert(all[i as int] == (pieces@[i as int]@, range));
        assert(tokens(list@) =~= before + all.take(i + 1));
        i += 1;
    }
    assert(all.take(pieces@.len() as int) =~= all);
}

impl Normalizer {
    fn new() -> (r: Normalizer)
        ensures
            r@ == initial_state(),
    {
        let r = Normalizer {
            cjk_runs: Vec::new(),
            cjk: Vec::new(),
            word_runs: Vec::new(),
            words: Vec::new(),
            word: None,
            word_char_runs: Vec::new(),
            word_chars: Vec::new(),
            word_starts: Vec::new(),
            characters: Vec::new(),
        };
        proof {
            let s = r@;
            assert(s.cjk_runs =~= Seq::empty());
            assert(s.cjk =~= Seq::empty());
            assert(s.word_runs =~= Seq::empty());
            assert(s.words =~= Seq::empty());
            assert(s.word_char_runs =~= Seq::empty());
            assert(s.word_chars =~= Seq::empty());
            assert(s.word_starts =~= Seq::empty());
            assert(s.characters =~= Seq::empty());
        }
        r
    }

    fn finish_word(&mut self)
        ensures
            final(self)@ == word_finished(old(self)@),
    {
        let ghost before = self@;
        let mut word: Option<Token> = None;
        std::mem::swap(&mut word, &mut self.word);
        match word {
            Some(word) => {
                let ghost w = word@;
                self.words.push(word);
                assert(self@.words =~= before.words.push(w));
            },
            None => {},
        }
    }

    fn finish_word_run(&mut self)
        ensures
            final(self)@ == word_run_finished(old(self)@),
    {
        let ghost before = self@;
        if self.words.len() > 0 {
            let mut run: Vec<Token> = Vec::new();
            std::mem::swap(&mut run, &mut self.words);
            self.word_runs.push(run);
            assert(self@.word_runs =~= before.word_runs.push(before.words));
            assert(self@.words =~= Seq::empty());
        }
    }

    fn finish_word_chars(&mut self)
        ensures
            final(self)@ == word_chars_finished(old(self)@),
    {
        let ghost before = self@;
        if self.word_chars.len() > 0 {
            let mut run: Vec<Token> = Vec::new();
            let mut word_starts: Vec<usize> = Vec::new();
            std::mem::swap(&mut run, &mut self.word_chars);
            std::mem::swap(&mut word_starts, &mut self.word_starts);
            self.word_char_runs.push(WordCharRun { tokens: run, word_starts });
            assert(self@.word_char_runs =~= before.word_char_runs.push(
                (before.word_chars, before.word_starts),
            ));
            assert(self@.word_chars =~= Seq::empty());
            assert(self@.word_starts =~= Seq::empty());
        }
    }

    fn finish_cjk(&mut self)
        ensures
            final(self)@ == cjk_finished(old(self)@),
    {
        let ghost before = self@;
        if self.cjk.len() > 0 {
            let mut run: Vec<Token> = Vec::new();
            std::mem::swap(&mut run, &mut self.cjk);
            self.cjk_runs.push(run);
            assert(self@.cjk_runs =~= before.cjk_runs.push(before.cjk));
            assert(self@.cjk =~= Seq::empty());
        }
    }

    fn add_space(&mut self, range: ByteRange)
        requires
            state_fits(old(self)@),
            old(self)@.word is Some,
        ensures
            final(self)@ == (NormalState {
                word_chars: word_finished(old(self)@).word_chars.push((seq![' '], range)),
                ..word_finished(old(self)@)
            }),
            state_fits(final(self)@),
    {
        let ghost before = self@;
        self.finish_word();
        let ghost middle = self@;
        proof {
            reveal_strlit(" ");
        }
        let space = " ".to_owned();
        assert(space@ =~= seq![' ']);
        self.word_chars.push(Token { normalized: space, range });
        assert(self@.word_chars =~= middle.word_chars.push((seq![' '], range)));
        assert(self@.word_starts == before.word_starts);
        assert(starts_fit(self@.word_starts, self@.word_chars.len() as int));
        assert(self@.word_starts.last() < before.word_chars.len());
    }

    fn add_cjk(&mut self, pieces: &[String], range: ByteRange)
        requires
            state_fits(old(self)@),
        ensures
            final(self)@ == cjk_added(old(self)@, texts(pieces@), range),
            state_fits(final(self)@),
    {
        self.finish_word();
        self.finish_word_run();
        self.finish_word_chars();
        push_tokens(&mut self.cjk, pieces, range);
    }

    fn add_letters(&mut self, cluster: &Cluster)
        requires
            state_fits(old(self)@),
            cluster.pieces@.len() > 0,
        ensures
            final(self)@ == letters_added(old(self)@, cluster@),
            state_fits(final(self)@),
    {
        let length: usize = self.word_chars.len();
        assert(self@.word_chars.len() == length);
        self.finish_cjk();
        if cluster.word && self.word.is_none() {
            self.word_starts.push(length);
        }
        push_tokens(&mut self.word_chars, cluster.pieces.as_slice(), cluster.range);
        if cluster.word {
            let mut word: Option<Token> = None;
            std::mem::swap(&mut word, &mut self.word);
            self.word = match word {
                Some(current) => {
                    let mut joined = current.normalized;
                    joined.append(cluster.normal.as_str());
                    Some(
                        Token {
                            normalized: joined,
                            range: ByteRange {
                                start: current.range.start,
                                end: cluster.range.end,
                            },
                        },
                    )
                },
                None => Some(Token { normalized: cluster.normal.clone(), range: cluster.range }),
            };
        }
        proof {
            lemma_letters_fit(old(self)@, cluster@);
        }
    }

    fn add_cluster(&mut self, cluster: &Cluster)
        requires
            state_fits(old(self)@),
        ensures
            final(self)@ == cluster_added(old(self)@, cluster@),
            state_fits(final(self)@),
    {
        if cluster.normal.as_str().is_empty() {
            return ;
        }
        assert(texts(cluster.pieces@).len() == cluster.pieces@.len());
        if cluster.pieces.len() == 0 {
            if self.word.is_some() {
                self.add_space(cluster.range);
            }
            return ;
        }
        push_tokens(&mut self.characters, cluster.pieces.as_slice(), cluster.range);
        let cjk = select_cjk(cluster.pieces.as_slice());
        assert(texts(cjk@).len() == cjk@.len());
        if cjk.len() > 0 {
            self.add_cjk(cjk.as_slice(), cluster.range);
        } else {
            self.add_letters(cluster);
        }
    }

    fn finish(self) -> (r: NormalizedText)
        requires
            state_fits(self@),
        ensures
            r@ == all_finished(self@),
            text_fits(r@),
    {
        let mut s = self;
        s.finish_word();
        s.finish_word_run();
        s.finish_word_chars();
        s.finish_cjk();
        NormalizedText {
            cjk_runs: s.cjk_runs,
            word_runs: s.word_runs,
            word_char_runs: s.word_char_runs,
            characters: s.characters,
        }
    }
}

/// Normalizes a text that was split into clusters.
pub fn normalize_clusters(clusters: &[Cluster]) -> (r: NormalizedText)
    ensures
        r@ == normal_text(cluster_models(clusters@)),
        text_fits(r@),
{
    let ghost all = cluster_models(clusters@);
    let mut state = Normalizer::new();
    let mut i: usize = 0;
    while i < clusters.len()
        invariant
            i <= clusters@.len(),
            all == cluster_models(clusters@),
            state@ == state_after(all, i as int),
            state_fits(state@),
        decreases clusters@.len() - i,
    {
        assert(all[i as int] == clusters@[i as int]@);
        state.add_cluster(&clusters[i]);
        i += 1;
    }
    state.finish()
}

impl NormalizedText {
    /// Normalizes a text.
    pub fn from_text(text: &str) -> (r: NormalizedText)
        ensures
            r@ == normalized(text@),
            text_fits(r@),
            text_lies_in(r@, text@),
    {
        let clusters = read_clusters(text);
        proof {
            lemma_text_lies_in(clusters_of(text@), text@);
        }
        normalize_clusters(clusters.as_slice())
    }
}

} // verus!
