//! How texts are cut, joined and read as numbers.
use vstd::prelude::*;
use crate::text::{decimal, digit_value, digits_value, index_from, is_blank, is_digit, is_white_space, join, parsed_u64, split, split_from, text_before, text_lines, trim, trim_end, trim_start, unsigned_digits, without_return, word_end, word_start, words, words_from};

verus! {

/// Which characters are white space.
pub proof fn these_are_white_space(c: char)
    ensures
        is_white_space(c) <==> (c == '\t' || c == '\n' || c as u32 == 0x0b || c as u32 == 0x0c || c
            == '\r' || c == ' ' || c as u32 == 0x85 || c as u32 == 0xa0 || c as u32 == 0x1680 || (
        0x2000 <= c as u32 && c as u32 <= 0x200a) || c as u32 == 0x2028 || c as u32 == 0x2029
            || c as u32 == 0x202f || c as u32 == 0x205f || c as u32 == 0x3000),
{
}

proof fn lemma_trim_start(s: Seq<char>) -> (n: int)
    ensures
        0 <= n <= s.len(),
        trim_start(s) == s.skip(n),
        is_blank(s.take(n)),
        n < s.len() ==> !is_white_space(s[n]),
    decreases s.len(),
{
    if s.len() > 0 && is_white_space(s[0]) {
        let m = lemma_trim_start(s.skip(1));
        assert(s.skip(1).skip(m) =~= s.skip(m + 1));
        assert forall|i: int| 0 <= i < m + 1 implies is_white_space(#[trigger] s.take(m + 1)[i]) by {
            if i > 0 {
                assert(s.skip(1).take(m)[i - 1] == s[i]);
            }
        }
        if m + 1 < s.len() {
            assert(s.skip(1)[m] == s[m + 1]);
        }
        m + 1
    } else {
        assert(s.skip(0) =~= s);
        0
    }
}

proof fn lemma_trim_end(s: Seq<char>) -> (n: int)
    ensures
        0 <= n <= s.len(),
        trim_end(s) == s.take(n),
        is_blank(s.skip(n)),
        n > 0 ==> !is_white_space(s[n - 1]),
    decreases s.len(),
{
    if s.len() > 0 && is_white_space(s.last()) {
        let n = lemma_trim_end(s.drop_last());
        assert(s.drop_last().take(n) =~= s.take(n));
        assert forall|i: int| 0 <= i < s.skip(n).len() implies is_white_space(
            #[trigger] s.skip(n)[i],
        ) by {
            if n + i < s.len() - 1 {
                assert(s.drop_last().skip(n)[i] == s[n + i]);
            }
        }
        n
    } else {
        assert(s.take(s.len() as int) =~= s);
        s.len() as int
    }
}

/// Trimming takes white space off both ends, all of it and nothing else.
pub proof fn trimming_takes_white_space_off_both_ends(s: Seq<char>)
    ensures
        trim(s).len() > 0 ==> !is_white_space(trim(s)[0]) && !is_white_space(trim(s).last()),
        exists|a: Seq<char>, b: Seq<char>|
            is_blank(a) && is_blank(b) && #[trigger] (a + trim(s) + b) == s,
        trim(s).len() == 0 <==> is_blank(s),
{
    let n = lemma_trim_start(s);
    let t = trim_start(s);
    let m = lemma_trim_end(t);
    let a = s.take(n);
    let b = t.skip(m);
    assert(trim(s) == t.take(m));
    assert(a + trim(s) + b =~= s);
    if trim(s).len() > 0 {
        assert(t[0] == s[n]);
    } else {
        assert forall|i: int| 0 <= i < s.len() implies is_white_space(#[trigger] s[i]) by {
            if i < n {
                assert(a[i] == s[i]);
            } else {
                assert(b[i - n] == s[i]);
            }
        }
    }
    if is_blank(s) && trim(s).len() > 0 {
        assert(is_white_space(s[n]));
    }
}

proof fn lemma_index(s: Seq<char>, c: char, from: int)
    requires
        0 <= from <= s.len(),
    ensures
        from <= index_from(s, c, from) <= s.len(),
        index_from(s, c, from) < s.len() ==> s[index_from(s, c, from)] == c,
        forall|i: int| from <= i < index_from(s, c, from) ==> #[trigger] s[i] != c,
    decreases s.len() - from,
{
    if from < s.len() && s[from] != c {
        lemma_index(s, c, from + 1);
    }
}

proof fn lemma_index_is(s: Seq<char>, c: char, from: int, at: int)
    requires
        0 <= from <= at < s.len(),
        s[at] == c,
        forall|i: int| from <= i < at ==> #[trigger] s[i] != c,
    ensures
        index_from(s, c, from) == at,
    decreases at - from,
{
    if from < at {
        lemma_index_is(s, c, from + 1, at);
    }
}

proof fn lemma_index_shift(front: Seq<char>, s: Seq<char>, c: char, from: int)
    requires
        0 <= from <= s.len(),
    ensures
        index_from(front + s, c, front.len() + from) == front.len() + index_from(s, c, from),
    decreases s.len() - from,
{
    if from < s.len() {
        assert((front + s)[front.len() + from] == s[from]);
        if s[from] != c {
            lemma_index_shift(front, s, c, from + 1);
        }
    }
}

proof fn lemma_split_shift(front: Seq<char>, s: Seq<char>, c: char, from: int)
    requires
        0 <= from <= s.len(),
    ensures
        split_from(front + s, c, front.len() + from) == split_from(s, c, from),
    decreases s.len() - from,
{
    lemma_index(s, c, from);
    lemma_index_shift(front, s, c, from);
    let end = index_from(s, c, from);
    let whole = front + s;
    assert(whole.subrange(front.len() + from, front.len() + end) =~= s.subrange(from, end));
    if end < s.len() {
        lemma_split_shift(front, s, c, end + 1);
    } else {
        assert(whole.subrange(front.len() + from, whole.len() as int) =~= s.subrange(
            from,
            s.len() as int,
        ));
    }
}

/// A text without the separator that is put before the separator is the first piece, and the others
/// are those of what follows.
pub proof fn first_piece_is_split_off(first: Seq<char>, c: char, rest: Seq<char>)
    requires
        !first.contains(c),
    ensures
        split(first + seq![c] + rest, c) == seq![first] + split(rest, c),
        split(first, c) == seq![first],
{
    let front = first + seq![c];
    let whole = front + rest;
    assert forall|i: int| 0 <= i < first.len() implies #[trigger] whole[i] != c by {
        assert(whole[i] == first[i]);
        assert(first.contains(first[i]));
    }
    lemma_index_is(whole, c, 0, first.len() as int);
    lemma_split_shift(front, rest, c, 0);
    assert(whole.subrange(0, first.len() as int) =~= first);
    lemma_index(first, c, 0);
    let end = index_from(first, c, 0);
    if end < first.len() {
        assert(first.contains(first[end]));
    }
    assert(first.subrange(0, first.len() as int) =~= first);
}

proof fn lemma_pieces(s: Seq<char>, c: char, from: int)
    requires
        0 <= from <= s.len(),
    ensures
        split_from(s, c, from).len() > 0,
        forall|k: int|
            0 <= k < split_from(s, c, from).len() ==> !(#[trigger] split_from(s, c, from)[k]).contains(
                c,
            ),
        join(split_from(s, c, from), seq![c]) == s.skip(from),
    decreases s.len() - from,
{
    lemma_index(s, c, from);
    let end = index_from(s, c, from);
    let all = split_from(s, c, from);
    let piece = s.subrange(from, end);
    assert(!piece.contains(c)) by {
        if piece.contains(c) {
            let k = choose|k: int| 0 <= k < piece.len() && piece[k] == c;
            assert(s[from + k] == c);
        }
    }
    if end < s.len() {
        let rest = split_from(s, c, end + 1);
        lemma_pieces(s, c, end + 1);
        assert(all == seq![piece] + rest);
        lemma_join_first(piece, rest, seq![c]);
        assert(piece + seq![c] + s.skip(end + 1) =~= s.skip(from));
        assert forall|k: int| 0 <= k < all.len() implies !(#[trigger] all[k]).contains(c) by {
            if k > 0 {
                assert(all[k] == rest[k - 1]);
            }
        }
    } else {
        assert(s.subrange(from, s.len() as int) =~= s.skip(from));
    }
}

proof fn lemma_join_first(first: Seq<char>, rest: Seq<Seq<char>>, separator: Seq<char>)
    requires
        rest.len() > 0,
    ensures
        join(seq![first] + rest, separator) == first + separator + join(rest, separator),
    decreases rest.len(),
{
    let all = seq![first] + rest;
    assert(all.last() == rest.last());
    if rest.len() == 1 {
        assert(all.drop_last() =~= seq![first]);
        assert(join(seq![first], separator) == first);
    } else {
        lemma_join_first(first, rest.drop_last(), separator);
        assert(all.drop_last() =~= seq![first] + rest.drop_last());
        assert(join(all, separator) =~= first + separator + join(rest, separator));
    }
}

/// The pieces of a text hold no separator, and joined by it they are the text again.
pub proof fn splitting_is_undone_by_joining(s: Seq<char>, c: char)
    ensures
        split(s, c).len() > 0,
        forall|k: int| 0 <= k < split(s, c).len() ==> !(#[trigger] split(s, c)[k]).contains(c),
        join(split(s, c), seq![c]) == s,
{
    lemma_pieces(s, c, 0);
    assert(s.skip(0) =~= s);
}

/// A line that ends is the first line of a text, without a carriage return at its end.
pub proof fn first_line_is_split_off(line: Seq<char>, rest: Seq<char>)
    requires
        !line.contains('\n'),
    ensures
        text_lines(line + seq!['\n'] + rest) == seq![
            (if line.len() > 0 && line.last() == '\r' {
                line.drop_last()
            } else {
                line
            }),
        ] + text_lines(rest),
{
    first_piece_is_split_off(line, '\n', rest);
    splitting_is_undone_by_joining(rest, '\n');
    let whole = line + seq!['\n'] + rest;
    let pieces = split(whole, '\n');
    let others = split(rest, '\n');
    assert(pieces.last() == others.last());
    assert(pieces.drop_last() =~= seq![line] + others.drop_last());
    assert(text_lines(whole) =~= seq![without_return(line)] + text_lines(rest));
}

/// A last line that does not end is a line, unless it is empty.
pub proof fn last_line_need_not_end(line: Seq<char>)
    requires
        !line.contains('\n'),
    ensures
        line.len() == 0 ==> text_lines(line).len() == 0,
        line.len() > 0 ==> text_lines(line) == seq![
            (if line.last() == '\r' {
                line.drop_last()
            } else {
                line
            }),
        ],
{
    first_piece_is_split_off(line, '\n', Seq::empty());
    let pieces = split(line, '\n');
    assert(pieces.last() == line);
    if line.len() > 0 {
        assert(text_lines(line) =~= seq![without_return(line)]);
    }
}

pub(crate) proof fn lemma_decimal(n: nat)
    ensures
        decimal(n).len() > 0,
        forall|i: int| 0 <= i < decimal(n).len() ==> is_digit(#[trigger] decimal(n)[i]),
        digits_value(decimal(n)) == n,
    decreases n,
{
    if n < 10 {
        let s = decimal(n);
        assert(s.drop_last() =~= Seq::<char>::empty());
        assert(digits_value(s.drop_last()) == 0);
        assert(digits_value(s) == digits_value(s.drop_last()) * 10 + digit_value(s.last()));
    } else {
        lemma_decimal(n / 10);
        let s = decimal(n);
        let head = decimal(n / 10);
        assert(s.drop_last() =~= head);
        assert(digits_value(s) == digits_value(head) * 10 + digit_value(s.last()));
        assert forall|i: int| 0 <= i < s.len() implies is_digit(#[trigger] s[i]) by {
            if i < head.len() {
                assert(s[i] == head[i]);
            }
        }
    }
}

/// A number that is written out is read back, with a plus before it too; a text with anything but
/// digits behind the plus is no number, nor is one that is too large.
pub proof fn written_number_is_read_back(n: u64, s: Seq<char>)
    ensures
        parsed_u64(decimal(n as nat)) == Some(n),
        parsed_u64(seq!['+'] + decimal(n as nat)) == Some(n),
        s.len() == 0 ==> parsed_u64(s) is None,
        s.len() > 0 && s[0] != '+' && (exists|i: int|
            0 <= i < s.len() && !('0' <= #[trigger] s[i] && s[i] <= '9')) ==> parsed_u64(s) is None,
{
    lemma_decimal(n as nat);
    let d = decimal(n as nat);
    assert(is_digit(d[0]));
    assert(unsigned_digits(d) == d);
    assert(unsigned_digits(seq!['+'] + d) =~= d);
    if s.len() > 0 && s[0] != '+' && (exists|i: int|
        0 <= i < s.len() && !('0' <= #[trigger] s[i] && s[i] <= '9')) {
        let i = choose|i: int| 0 <= i < s.len() && !('0' <= #[trigger] s[i] && s[i] <= '9');
        assert(!is_digit(s[i]));
        assert(unsigned_digits(s) == s);
    }
}

proof fn lemma_word_start(s: Seq<char>, i: int)
    requires
        0 <= i <= s.len(),
    ensures
        i <= word_start(s, i) <= s.len(),
        word_start(s, i) < s.len() ==> !is_white_space(s[word_start(s, i)]),
        forall|k: int| i <= k < word_start(s, i) ==> is_white_space(#[trigger] s[k]),
    decreases s.len() - i,
{
    if i < s.len() && is_white_space(s[i]) {
        lemma_word_start(s, i + 1);
    }
}

proof fn lemma_word_end(s: Seq<char>, i: int)
    requires
        0 <= i <= s.len(),
    ensures
        i <= word_end(s, i) <= s.len(),
        word_end(s, i) < s.len() ==> is_white_space(s[word_end(s, i)]),
        forall|k: int| i <= k < word_end(s, i) ==> !is_white_space(#[trigger] s[k]),
    decreases s.len() - i,
{
    if i < s.len() && !is_white_space(s[i]) {
        lemma_word_end(s, i + 1);
    }
}

/// The characters of a text that are not white space, from a place on.
pub open spec fn ink(s: Seq<char>, i: int) -> Seq<char>
    decreases s.len() - i,
{
    if i < 0 || i >= s.len() {
        Seq::empty()
    } else if is_white_space(s[i]) {
        ink(s, i + 1)
    } else {
        seq![s[i]] + ink(s, i + 1)
    }
}

proof fn lemma_ink_blank(s: Seq<char>, i: int, a: int)
    requires
        0 <= i <= a <= s.len(),
        forall|k: int| i <= k < a ==> is_white_space(#[trigger] s[k]),
    ensures
        ink(s, i) == ink(s, a),
    decreases a - i,
{
    if i < a {
        lemma_ink_blank(s, i + 1, a);
    }
}

proof fn lemma_ink_word(s: Seq<char>, a: int, b: int)
    requires
        0 <= a <= b <= s.len(),
        forall|k: int| a <= k < b ==> !is_white_space(#[trigger] s[k]),
    ensures
        ink(s, a) == s.subrange(a, b) + ink(s, b),
    decreases b - a,
{
    if a < b {
        lemma_ink_word(s, a + 1, b);
        assert(seq![s[a]] + s.subrange(a + 1, b) =~= s.subrange(a, b));
        assert(ink(s, a) =~= s.subrange(a, b) + ink(s, b));
    } else {
        assert(s.subrange(a, b) + ink(s, b) =~= ink(s, b));
    }
}

proof fn lemma_words(s: Seq<char>, i: int)
    requires
        0 <= i <= s.len(),
    ensures
        join(words_from(s, i), Seq::empty()) == ink(s, i),
        forall|k: int| 0 <= k < words_from(s, i).len() ==> (#[trigger] words_from(s, i)[k]).len() > 0,
        forall|k: int, t: int|
            0 <= k < words_from(s, i).len() && 0 <= t < words_from(s, i)[k].len()
                ==> !is_white_space(#[trigger] words_from(s, i)[k][t]),
    decreases s.len() - i,
{
    lemma_word_start(s, i);
    let a = word_start(s, i);
    lemma_word_end(s, a);
    let b = word_end(s, a);
    lemma_ink_blank(s, i, a);
    lemma_ink_word(s, a, b);
    let all = words_from(s, i);
    let none = Seq::<char>::empty();
    if a < b {
        lemma_words(s, b);
        let rest = words_from(s, b);
        let word = s.subrange(a, b);
        assert(all == seq![word] + rest);
        if rest.len() > 0 {
            lemma_join_first(word, rest, none);
            assert(word + none + join(rest, none) =~= word + join(rest, none));
        } else {
            assert(all =~= seq![word]);
            assert(join(seq![word], none) == word);
            assert(join(rest, none) == none);
            assert(word + none =~= word);
        }
        assert forall|k: int| 0 <= k < all.len() implies (#[trigger] all[k]).len() > 0 by {
            if k > 0 {
                assert(all[k] == rest[k - 1]);
            }
        }
        assert forall|k: int, t: int|
            0 <= k < all.len() && 0 <= t < all[k].len() implies !is_white_space(
            #[trigger] all[k][t],
        ) by {
            if k > 0 {
                assert(all[k] == rest[k - 1]);
                assert(!is_white_space(rest[k - 1][t]));
            } else {
                assert(all[k][t] == s[a + t]);
            }
        }
    } else {
        assert(a == s.len()) by {
            if a < s.len() {
                assert(!is_white_space(s[a]));
            }
        }
        assert(ink(s, a) == none);
    }
}

/// The words of a text are not empty and hold no white space, and they are all of the text that is
/// not white space, in its order.
pub proof fn words_are_all_but_white_space(s: Seq<char>)
    ensures
        forall|k: int| 0 <= k < words(s).len() ==> (#[trigger] words(s)[k]).len() > 0,
        forall|k: int, t: int|
            0 <= k < words(s).len() && 0 <= t < words(s)[k].len() ==> !is_white_space(
                #[trigger] words(s)[k][t],
            ),
        join(words(s), Seq::empty()) == ink(s, 0),
{
    lemma_words(s, 0);
}

/// Of two texts that differ, one comes before the other.
pub proof fn texts_are_comparable(a: Seq<char>, b: Seq<char>)
    requires
        a != b,
    ensures
        text_before(a, b) || text_before(b, a),
        a.len() > 0 && b.len() > 0 && a[0] < b[0] ==> text_before(a, b),
        a.len() < b.len() && b.take(a.len() as int) == a ==> text_before(a, b),
    decreases a.len(),
{
    if a.len() > 0 && b.len() > 0 && a[0] == b[0] {
        let x = a.skip(1);
        let y = b.skip(1);
        if x == y {
            assert(a =~= seq![a[0]] + x);
            assert(b =~= seq![b[0]] + y);
        }
        texts_are_comparable(x, y);
        if a.len() < b.len() && b.take(a.len() as int) == a {
            assert(y.take(x.len() as int) =~= x) by {
                assert forall|i: int| 0 <= i < x.len() implies y[i] == x[i] by {
                    assert(b.take(a.len() as int)[i + 1] == a[i + 1]);
                }
            }
        }
    } else if a.len() == 0 {
        assert(b.len() > 0) by {
            if b.len() == 0 {
                assert(a =~= b);
            }
        }
    } else if b.len() > 0 && a.len() < b.len() && b.take(a.len() as int) == a {
        assert(b.take(a.len() as int)[0] == a[0]);
    }
}

} // verus!
