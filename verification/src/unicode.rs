//! Unicode algorithms of outside crates.
use unicode_normalization::UnicodeNormalization;
use unicode_segmentation::UnicodeSegmentation;
use vstd::prelude::*;
use crate::text::{from_chars, texts, utf8};

verus! {

/// Unicode normalization form KC of a text, as `unicode_normalization` computes it.
pub uninterp spec fn nfkc(text: Seq<char>) -> Seq<char>;

/// Calls `UnicodeNormalization::nfkc` of the crate `unicode_normalization`.
#[verifier::external_body]
pub(crate) fn nfkc_chars(text: &str) -> (r: Vec<char>)
    ensures
        r@ == nfkc(text@),
{
    text.nfkc().collect()
}

/// The lower-case mapping of a character, as `char::to_lowercase` gives it.
pub uninterp spec fn lowercase(c: char) -> Seq<char>;

/// Calls `char::to_lowercase`.
#[verifier::external_body]
pub(crate) fn lowercase_chars(c: char) -> (r: Vec<char>)
    ensures
        r@ == lowercase(c),
{
    c.to_lowercase().collect()
}

/// A text with every character mapped to lower case.
pub open spec fn lowered(text: Seq<char>) -> Seq<char>
    decreases text.len(),
{
    if text.len() == 0 {
        Seq::empty()
    } else {
        lowered(text.drop_last()) + lowercase(text.last())
    }
}

/// A text in form KC with every character mapped to lower case.
pub open spec fn folded(text: Seq<char>) -> Seq<char> {
    lowered(nfkc(text))
}

/// Brings a text to form KC and maps every character to lower case.
pub fn fold_text(text: &str) -> (r: String)
    ensures
        r@ == folded(text@),
{
    let normal = nfkc_chars(text);
    let mut out: Vec<char> = Vec::new();
    let mut i: usize = 0;
    while i < normal.len()
        invariant
            i <= normal@.len(),
            out@ == lowered(normal@.take(i as int)),
        decreases normal@.len() - i,
    {
        assert(normal@.take(i + 1).drop_last() =~= normal@.take(i as int));
        let mut lower = lowercase_chars(normal[i]);
        out.append(&mut lower);
        i += 1;
    }
    assert(normal@.take(normal@.len() as int) =~= normal@);
    let n: usize = out.len();
    assert(out@.subrange(0, n as int) =~= out@);
    from_chars(out.as_slice(), 0, n)
}

/// The extended grapheme clusters of a text with their byte offsets, as `unicode_segmentation`
/// finds them.
pub uninterp spec fn grapheme_offsets(text: Seq<char>) -> Seq<(usize, Seq<char>)>;

/// The offsets and views of grapheme clusters.
pub open spec fn offset_texts(items: Seq<(usize, String)>) -> Seq<(usize, Seq<char>)> {
    items.map_values(|item: (usize, String)| (item.0, item.1@))
}

/// The texts of pieces behind each other.
pub open spec fn pieces_text(items: Seq<(usize, Seq<char>)>) -> Seq<char>
    decreases items.len(),
{
    if items.len() == 0 {
        Seq::empty()
    } else {
        pieces_text(items.drop_last()) + items.last().1
    }
}

/// Whether pieces make up a text: none is empty, each starts where those before it end, and
/// together they are the text.
pub open spec fn make_up(items: Seq<(usize, Seq<char>)>, text: Seq<char>) -> bool {
    &&& pieces_text(items) == text
    &&& forall|i: int|
        0 <= i < items.len() ==> (#[trigger] items[i]).1.len() > 0 && items[i].0 == utf8(
            pieces_text(items.take(i)),
        ).len()
}

/// Calls `UnicodeSegmentation::grapheme_indices` of the crate `unicode_segmentation` for extended
/// clusters.  The clusters make up the text: the first one starts at its first byte, each goes on
/// from there to the next boundary, at least a character further, and the last one ends with the
/// text.
#[verifier::external_body]
pub(crate) fn grapheme_indices(text: &str) -> (r: Vec<(usize, String)>)
    ensures
        offset_texts(r@) == grapheme_offsets(text@),
        make_up(offset_texts(r@), text@),
{
    text.grapheme_indices(true).map(|(start, cluster)| (start, cluster.to_owned())).collect()
}

/// The extended grapheme clusters of a text, as `unicode_segmentation` finds them.
pub uninterp spec fn grapheme_pieces(text: Seq<char>) -> Seq<Seq<char>>;

/// Calls `UnicodeSegmentation::graphemes` of the crate `unicode_segmentation` for extended
/// clusters.
#[verifier::external_body]
pub(crate) fn graphemes(text: &str) -> (r: Vec<String>)
    ensures
        texts(r@) == grapheme_pieces(text@),
{
    text.graphemes(true).map(str::to_owned).collect()
}

/// A number for the general category of a character: 1 to 7 for connector, dash, close, final,
/// initial, other and open punctuation, 8 for format characters and 0 for anything else.
pub uninterp spec fn category_code(c: char) -> u8;

/// Calls `unicode_general_category::get_general_category` and numbers the category.
#[verifier::external_body]
pub(crate) fn general_category(c: char) -> (r: u8)
    ensures
        r == category_code(c),
{
    match unicode_general_category::get_general_category(c) {
        unicode_general_category::GeneralCategory::ConnectorPunctuation => 1,
        unicode_general_category::GeneralCategory::DashPunctuation => 2,
        unicode_general_category::GeneralCategory::ClosePunctuation => 3,
        unicode_general_category::GeneralCategory::FinalPunctuation => 4,
        unicode_general_category::GeneralCategory::InitialPunctuation => 5,
        unicode_general_category::GeneralCategory::OtherPunctuation => 6,
        unicode_general_category::GeneralCategory::OpenPunctuation => 7,
        unicode_general_category::GeneralCategory::Format => 8,
        _ => 0,
    }
}

/// Whether a character is a letter or a number, as `char::is_alphanumeric` decides.
pub uninterp spec fn letter_or_number(c: char) -> bool;

/// Calls `char::is_alphanumeric`.
#[verifier::external_body]
pub(crate) fn is_alphanumeric(c: char) -> (r: bool)
    ensures
        r == letter_or_number(c),
{
    c.is_alphanumeric()
}

} // verus!
