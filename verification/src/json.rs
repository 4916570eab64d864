//! JSON text of the records that enter hashes and durable files.
use vstd::prelude::*;
use vstd::string::StringExecFns;
use crate::domain::{ids, EntityId};
use crate::text::{decimal, digit_char, hex_digit, one_line, opt_text, texts};

verus! {

/// How a character is written inside a JSON string.
pub open spec fn json_escape(c: char) -> Seq<char> {
    if c == '"' {
        seq!['\\', '"']
    } else if c == '\\' {
        seq!['\\', '\\']
    } else if c == '\u{8}' {
        seq!['\\', 'b']
    } else if c == '\u{c}' {
        seq!['\\', 'f']
    } else if c == '\n' {
        seq!['\\', 'n']
    } else if c == '\r' {
        seq!['\\', 'r']
    } else if c == '\t' {
        seq!['\\', 't']
    } else if '\u{1f}' >= c {
        seq![
            '\\',
            'u',
            '0',
            '0',
            hex_digit((c as u32 / 16) as int),
            hex_digit((c as u32 % 16) as int),
        ]
    } else {
        seq![c]
    }
}

/// The characters of a text, each escaped.
pub open spec fn json_escaped(text: Seq<char>) -> Seq<char>
    decreases text.len(),
{
    if text.len() == 0 {
        Seq::empty()
    } else {
        json_escaped(text.drop_last()) + json_escape(text.last())
    }
}

/// The JSON string of a text.
pub open spec fn json_string(text: Seq<char>) -> Seq<char> {
    seq!['"'] + json_escaped(text) + seq!['"']
}

/// Quotes a text with `serde_json::to_string`.  The result is the JSON string of the text, with
/// the escapes of `json_escape`.
#[verifier::external_body]
pub(crate) fn json_quote(text: &str) -> (r: String)
    ensures
        r@ == json_string(text@),
{
    serde_json::to_string(text).expect("a text always serializes")
}

/// The JSON value of an optional text.
pub open spec fn json_opt(text: Option<Seq<char>>) -> Seq<char> {
    match text {
        Some(value) => json_string(value),
        None => "null"@,
    }
}

/// Writes the JSON value of an optional text.
pub(crate) fn json_quote_opt(text: &Option<String>) -> (r: String)
    ensures
        r@ == json_opt(opt_text(*text)),
{
    match text {
        Some(value) => json_quote(value.as_str()),
        None => "null".to_owned(),
    }
}

/// Values separated by commas.
pub open spec fn json_items(items: Seq<Seq<char>>) -> Seq<char>
    decreases items.len(),
{
    if items.len() == 0 {
        Seq::empty()
    } else if items.len() == 1 {
        items[0]
    } else {
        json_items(items.drop_last()) + ","@ + items.last()
    }
}

/// The JSON strings of identifiers.
pub open spec fn json_ids(items: Seq<Seq<char>>) -> Seq<Seq<char>> {
    items.map_values(|item: Seq<char>| json_string(item))
}

/// A compact JSON array.
pub open spec fn json_list(items: Seq<Seq<char>>) -> Seq<char> {
    "["@ + json_items(items) + "]"@
}

/// Writes a compact JSON array of values.
pub(crate) fn json_array(items: &[String]) -> (r: String)
    ensures
        r@ == json_list(texts(items@)),
{
    let mut out = "[".to_owned();
    let ghost all = texts(items@);
    let mut i: usize = 0;
    assert(out@ =~= "["@ + json_items(all.take(0)));
    while i < items.len()
        invariant
            i <= items@.len(),
            all == texts(items@),
            out@ == "["@ + json_items(all.take(i as int)),
        decreases items@.len() - i,
    {
        let ghost t = all.take(i + 1);
        assert(t.drop_last() =~= all.take(i as int));
        assert(t.last() == items@[i as int]@);
        if i > 0 {
            out.append(",");
        }
        out.append(items[i].as_str());
        assert(out@ =~= "["@ + json_items(t));
        i += 1;
    }
    assert(all.take(items@.len() as int) =~= all);
    out.append("]");
    out
}

/// Writes a compact JSON array of identifiers.
pub(crate) fn json_id_array(items: &[EntityId]) -> (r: String)
    ensures
        r@ == json_list(json_ids(ids(items@))),
{
    let mut quoted: Vec<String> = Vec::new();
    let mut i: usize = 0;
    while i < items.len()
        invariant
            i <= items@.len(),
            quoted@.len() == i,
            forall|k: int| 0 <= k < i ==> #[trigger] quoted@[k]@ == json_string(items@[k]@),
        decreases items@.len() - i,
    {
        quoted.push(json_quote(items[i].as_str()));
        i += 1;
    }
    assert(texts(quoted@) =~= json_ids(ids(items@)));
    json_array(quoted.as_slice())
}

/// The JSON string of a text takes one line, whatever the text holds.
pub proof fn lemma_json_one_line(text: Seq<char>)
    ensures
        one_line(json_string(text)),
{
    lemma_escaped_one_line(text);
}

proof fn lemma_hex_digit_one_line(d: int)
    requires
        0 <= d < 16,
    ensures
        hex_digit(d) != '\n',
{
}

proof fn lemma_escape_one_line(c: char)
    ensures
        one_line(json_escape(c)),
{
    if '\u{1f}' >= c {
        lemma_hex_digit_one_line((c as u32 / 16) as int);
        lemma_hex_digit_one_line((c as u32 % 16) as int);
    }
}

proof fn lemma_escaped_one_line(text: Seq<char>)
    ensures
        one_line(json_escaped(text)),
    decreases text.len(),
{
    if text.len() > 0 {
        lemma_escaped_one_line(text.drop_last());
        lemma_escape_one_line(text.last());
    }
}

/// Texts behind the same beginning are the same.
pub(crate) proof fn lemma_same_rest(head: Seq<char>, x: Seq<char>, y: Seq<char>)
    requires
        head + x == head + y,
    ensures
        x == y,
{
    assert(x =~= (head + x).skip(head.len() as int));
    assert(y =~= (head + y).skip(head.len() as int));
}

/// Concatenation in two steps.
pub(crate) proof fn lemma_regroup(a: Seq<char>, b: Seq<char>, c: Seq<char>)
    ensures
        a + b + c == a + (b + c),
{
    assert(a + b + c =~= a + (b + c));
}

proof fn lemma_hex_digit_apart(d: int, e: int)
    requires
        0 <= d < 16,
        0 <= e < 16,
        hex_digit(d) == hex_digit(e),
    ensures
        d == e,
{
}

proof fn lemma_escape_apart(c: char, d: char, x: Seq<char>, y: Seq<char>)
    requires
        json_escape(c) + x == json_escape(d) + y,
    ensures
        c == d,
        x == y,
{
    let a = json_escape(c);
    let b = json_escape(d);
    let whole = a + x;
    assert(whole[0] == a[0] && whole[0] == b[0]);
    assert(a.len() > 1 ==> whole[1] == a[1]);
    assert(b.len() > 1 ==> whole[1] == b[1]);
    if a.len() == 6 && b.len() == 6 {
        assert(whole[4] == a[4] && whole[4] == b[4]);
        assert(whole[5] == a[5] && whole[5] == b[5]);
        lemma_hex_digit_apart((c as u32 / 16) as int, (d as u32 / 16) as int);
        lemma_hex_digit_apart((c as u32 % 16) as int, (d as u32 % 16) as int);
    }
    assert(c == d);
    lemma_same_rest(a, x, y);
}

proof fn lemma_escaped_front(text: Seq<char>)
    requires
        text.len() > 0,
    ensures
        json_escaped(text) == json_escape(text[0]) + json_escaped(text.skip(1)),
    decreases text.len(),
{
    if text.len() == 1 {
        reveal_with_fuel(json_escaped, 2);
        assert(text.drop_last() =~= Seq::empty());
        assert(text.skip(1) =~= Seq::empty());
        assert(json_escaped(text) =~= json_escape(text[0]));
    } else {
        let head = text.drop_last();
        lemma_escaped_front(head);
        assert(head.skip(1) =~= text.skip(1).drop_last());
        assert(text.skip(1).last() == text.last());
        lemma_regroup(json_escape(text[0]), json_escaped(head.skip(1)), json_escape(text.last()));
    }
}

proof fn lemma_escaped_apart(t: Seq<char>, u: Seq<char>, x: Seq<char>, y: Seq<char>)
    requires
        json_escaped(t) + (seq!['"'] + x) == json_escaped(u) + (seq!['"'] + y),
    ensures
        t == u,
        x == y,
    decreases t.len(),
{
    let p = seq!['"'] + x;
    let q = seq!['"'] + y;
    if t.len() > 0 {
        lemma_escaped_front(t);
        lemma_regroup(json_escape(t[0]), json_escaped(t.skip(1)), p);
    }
    if u.len() > 0 {
        lemma_escaped_front(u);
        lemma_regroup(json_escape(u[0]), json_escaped(u.skip(1)), q);
    }
    if t.len() > 0 && u.len() > 0 {
        lemma_escape_apart(
            t[0],
            u[0],
            json_escaped(t.skip(1)) + p,
            json_escaped(u.skip(1)) + q,
        );
        lemma_escaped_apart(t.skip(1), u.skip(1), x, y);
        assert(t =~= seq![t[0]] + t.skip(1));
        assert(u =~= seq![u[0]] + u.skip(1));
    } else if t.len() > 0 {
        lemma_escape_opens(t[0]);
        assert((json_escape(t[0]) + (json_escaped(t.skip(1)) + p))[0] != '"');
        assert((json_escaped(u) + q)[0] == '"');
    } else if u.len() > 0 {
        lemma_escape_opens(u[0]);
        assert((json_escape(u[0]) + (json_escaped(u.skip(1)) + q))[0] != '"');
        assert((json_escaped(t) + p)[0] == '"');
    } else {
        assert(t =~= u);
        assert(json_escaped(t) =~= Seq::<char>::empty());
        assert(Seq::<char>::empty() + p =~= p);
        assert(Seq::<char>::empty() + q =~= q);
        lemma_same_rest(seq!['"'], x, y);
    }
}

proof fn lemma_escape_opens(c: char)
    ensures
        json_escape(c).len() > 0,
        json_escape(c)[0] != '"',
{
}

/// A JSON string determines its text, whatever stands behind it.
pub proof fn lemma_json_string_apart(t: Seq<char>, u: Seq<char>, x: Seq<char>, y: Seq<char>)
    requires
        json_string(t) + x == json_string(u) + y,
    ensures
        t == u,
        x == y,
{
    assert(json_string(t) + x =~= seq!['"'] + (json_escaped(t) + (seq!['"'] + x)));
    assert(json_string(u) + y =~= seq!['"'] + (json_escaped(u) + (seq!['"'] + y)));
    lemma_same_rest(
        seq!['"'],
        json_escaped(t) + (seq!['"'] + x),
        json_escaped(u) + (seq!['"'] + y),
    );
    lemma_escaped_apart(t, u, x, y);
}

/// The JSON value of an optional text determines it, whatever stands behind it.
pub proof fn lemma_json_opt_apart(
    t: Option<Seq<char>>,
    u: Option<Seq<char>>,
    x: Seq<char>,
    y: Seq<char>,
)
    requires
        json_opt(t) + x == json_opt(u) + y,
    ensures
        t == u,
        x == y,
{
    reveal_strlit("null");
    match (t, u) {
        (Some(a), Some(b)) => lemma_json_string_apart(a, b, x, y),
        (None, None) => lemma_same_rest("null"@, x, y),
        (Some(a), None) => {
            assert((json_string(a) + x)[0] == '"');
            assert(("null"@ + y)[0] == 'n');
        },
        (None, Some(b)) => {
            assert((json_string(b) + y)[0] == '"');
            assert(("null"@ + x)[0] == 'n');
        },
    }
}

proof fn lemma_decimal_digits(n: nat)
    ensures
        decimal(n).len() > 0,
        forall|i: int| 0 <= i < decimal(n).len() ==> '0' <= #[trigger] decimal(n)[i] <= '9',
    decreases n,
{
    if n >= 10 {
        lemma_decimal_digits(n / 10);
    }
}

proof fn lemma_decimal_injective(n: nat, m: nat)
    requires
        decimal(n) == decimal(m),
    ensures
        n == m,
    decreases n,
{
    lemma_decimal_digits(n / 10);
    lemma_decimal_digits(m / 10);
    assert(decimal(n).last() == digit_char(n % 10));
    assert(decimal(m).last() == digit_char(m % 10));
    assert(n % 10 == m % 10);
    if n >= 10 && m >= 10 {
        assert(decimal(n).drop_last() =~= decimal(n / 10));
        assert(decimal(m).drop_last() =~= decimal(m / 10));
        lemma_decimal_injective(n / 10, m / 10);
    }
}

/// A number in decimal is determined by its digits, where something else follows them.
pub proof fn lemma_decimal_apart(n: nat, m: nat, x: Seq<char>, y: Seq<char>)
    requires
        decimal(n) + x == decimal(m) + y,
        x.len() > 0 && !('0' <= x[0] <= '9'),
        y.len() > 0 && !('0' <= y[0] <= '9'),
    ensures
        n == m,
        x == y,
{
    lemma_decimal_digits(n);
    lemma_decimal_digits(m);
    let a = decimal(n);
    let b = decimal(m);
    let whole = a + x;
    assert(whole[a.len() as int] == x[0]);
    assert((b + y)[b.len() as int] == y[0]);
    if a.len() < b.len() {
        assert((b + y)[a.len() as int] == b[a.len() as int]);
    }
    if b.len() < a.len() {
        assert(whole[b.len() as int] == a[b.len() as int]);
    }
    assert(a =~= whole.take(a.len() as int));
    assert(b =~= (b + y).take(b.len() as int));
    lemma_decimal_injective(n, m);
    lemma_same_rest(a, x, y);
}

/// Whether no text that begins with one of two texts begins with the other, unless both are the
/// same.
pub open spec fn apart(a: Seq<char>, b: Seq<char>) -> bool {
    forall|x: Seq<char>, y: Seq<char>| #![trigger a + x, b + y] a + x == b + y ==> a == b
}

proof fn lemma_items_front(items: Seq<Seq<char>>)
    requires
        items.len() > 1,
    ensures
        json_items(items) == items[0] + (","@ + json_items(items.skip(1))),
    decreases items.len(),
{
    reveal_with_fuel(json_items, 3);
    let head = items.drop_last();
    assert(items.skip(1).last() == items.last());
    assert(items.skip(1).drop_last() =~= head.skip(1));
    if items.len() == 2 {
        assert(json_items(items) =~= items[0] + (","@ + items[1]));
    } else {
        lemma_items_front(head);
        assert(json_items(items) =~= items[0] + (","@ + (json_items(head.skip(1)) + ","@
            + items.last())));
    }
}

proof fn lemma_items_apart(a: Seq<Seq<char>>, b: Seq<Seq<char>>, x: Seq<char>, y: Seq<char>)
    requires
        json_items(a) + ("]"@ + x) == json_items(b) + ("]"@ + y),
        forall|i: int, j: int|
            0 <= i < a.len() && 0 <= j < b.len() ==> apart(#[trigger] a[i], #[trigger] b[j]),
        forall|i: int| 0 <= i < a.len() ==> (#[trigger] a[i]).len() > 0 && a[i][0] != ']',
        forall|i: int| 0 <= i < b.len() ==> (#[trigger] b[i]).len() > 0 && b[i][0] != ']',
    ensures
        a == b,
        x == y,
    decreases a.len(),
{
    reveal_strlit("]");
    reveal_strlit(",");
    let p = "]"@ + x;
    let q = "]"@ + y;
    if a.len() > 1 {
        lemma_items_front(a);
        lemma_regroup(a[0], ","@ + json_items(a.skip(1)), p);
    }
    if b.len() > 1 {
        lemma_items_front(b);
        lemma_regroup(b[0], ","@ + json_items(b.skip(1)), q);
    }
    if a.len() == 0 {
        assert(json_items(a) + p =~= p);
        if b.len() > 0 {
            assert((json_items(b) + q)[0] == b[0][0]);
        } else {
            assert(json_items(b) + q =~= q);
            assert(a =~= b);
            lemma_same_rest("]"@, x, y);
        }
    } else if b.len() == 0 {
        assert(json_items(b) + q =~= q);
        assert((json_items(a) + p)[0] == a[0][0]);
    } else {
        let more_a = if a.len() > 1 {
            ","@ + json_items(a.skip(1)) + p
        } else {
            p
        };
        let more_b = if b.len() > 1 {
            ","@ + json_items(b.skip(1)) + q
        } else {
            q
        };
        assert(a[0] + more_a == b[0] + more_b);
        assert(apart(a[0], b[0]));
        lemma_same_rest(a[0], more_a, more_b);
        assert(more_a[0] == (if a.len() > 1 {
            ','
        } else {
            ']'
        }));
        assert(more_b[0] == (if b.len() > 1 {
            ','
        } else {
            ']'
        }));
        if a.len() > 1 {
            lemma_regroup(","@, json_items(a.skip(1)), p);
            lemma_regroup(","@, json_items(b.skip(1)), q);
            lemma_same_rest(","@, json_items(a.skip(1)) + p, json_items(b.skip(1)) + q);
            assert forall|i: int, j: int|
                0 <= i < a.skip(1).len() && 0 <= j < b.skip(1).len() implies apart(
                #[trigger] a.skip(1)[i],
                #[trigger] b.skip(1)[j],
            ) by {
                assert(apart(a[i + 1], b[j + 1]));
            }
            lemma_items_apart(a.skip(1), b.skip(1), x, y);
            assert(a =~= seq![a[0]] + a.skip(1));
            assert(b =~= seq![b[0]] + b.skip(1));
        } else {
            assert(a =~= b);
            lemma_same_rest("]"@, x, y);
        }
    }
}

/// A JSON array determines its values, where each of them can be told apart from the others.
pub proof fn lemma_json_list_apart(
    a: Seq<Seq<char>>,
    b: Seq<Seq<char>>,
    x: Seq<char>,
    y: Seq<char>,
)
    requires
        json_list(a) + x == json_list(b) + y,
        forall|i: int, j: int|
            0 <= i < a.len() && 0 <= j < b.len() ==> apart(#[trigger] a[i], #[trigger] b[j]),
        forall|i: int| 0 <= i < a.len() ==> (#[trigger] a[i]).len() > 0 && a[i][0] != ']',
        forall|i: int| 0 <= i < b.len() ==> (#[trigger] b[i]).len() > 0 && b[i][0] != ']',
    ensures
        a == b,
        x == y,
{
    assert(json_list(a) + x =~= "["@ + (json_items(a) + ("]"@ + x)));
    assert(json_list(b) + y =~= "["@ + (json_items(b) + ("]"@ + y)));
    lemma_same_rest("["@, json_items(a) + ("]"@ + x), json_items(b) + ("]"@ + y));
    lemma_items_apart(a, b, x, y);
}

/// A JSON array of strings determines them.
pub proof fn lemma_json_ids_apart(
    a: Seq<Seq<char>>,
    b: Seq<Seq<char>>,
    x: Seq<char>,
    y: Seq<char>,
)
    requires
        json_list(json_ids(a)) + x == json_list(json_ids(b)) + y,
    ensures
        a == b,
        x == y,
{
    let s = json_ids(a);
    let t = json_ids(b);
    assert forall|i: int, j: int| 0 <= i < s.len() && 0 <= j < t.len() implies apart(
        #[trigger] s[i],
        #[trigger] t[j],
    ) by {
        assert forall|p: Seq<char>, q: Seq<char>|
            #![trigger s[i] + p, t[j] + q]
            s[i] + p == t[j] + q implies s[i] == t[j] by {
            lemma_json_string_apart(a[i], b[j], p, q);
        }
    }
    assert forall|i: int| 0 <= i < s.len() implies (#[trigger] s[i]).len() > 0 && s[i][0]
        != ']' by {
        assert(s[i][0] == '"');
    }
    assert forall|i: int| 0 <= i < t.len() implies (#[trigger] t[i]).len() > 0 && t[i][0]
        != ']' by {
        assert(t[i][0] == '"');
    }
    lemma_json_list_apart(s, t, x, y);
    assert forall|i: int| 0 <= i < a.len() implies a[i] == b[i] by {
        assert(s[i] == t[i]);
        lemma_json_string_apart(a[i], b[i], Seq::empty(), Seq::empty());
    }
    assert(s.len() == a.len() && t.len() == b.len());
    assert(a =~= b);
}

} // verus!
