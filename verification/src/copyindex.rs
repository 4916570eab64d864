//! Fingerprints of token windows and indexes over them.
use std::collections::HashMap;
use vstd::arithmetic::div_mod::{lemma_add_mod_noop, lemma_mul_mod_noop_left, lemma_mul_mod_noop_right, lemma_small_mod, lemma_sub_mod_noop};
use vstd::bytes::{spec_u128_from_le_bytes, spec_u64_to_le_bytes, u128_from_le_bytes, u64_to_le_bytes};
use vstd::multiset::Multiset;
use vstd::prelude::*;
use vstd::relations::{sorted_by, total_ordering};
use crate::copytext::{tokens, Token, TokenModel};
use crate::hash::{sha256, sha256_digest};
use crate::text::utf8;

verus! {

/// The hash of bytes behind a seed: exclusive or and multiplication, byte by byte.
pub open spec fn fnv(seed: u64, bytes: Seq<u8>) -> u64
    decreases bytes.len(),
{
    if bytes.len() == 0 {
        seed
    } else {
        (fnv(seed, bytes.drop_last()) ^ (bytes.last() as u64)).wrapping_mul(0x0000_0100_0000_01b3)
    }
}

/// The stable hash of a token text.
pub open spec fn text_hash(text: Seq<char>) -> u64 {
    fnv(0xcbf2_9ce4_8422_2325, utf8(text))
}

fn stable_hash(value: &str) -> (r: u64)
    ensures
        r == text_hash(value@),
{
    let bytes = value.as_bytes();
    let mut hash: u64 = 0xcbf2_9ce4_8422_2325;
    let mut i: usize = 0;
    assert(bytes@.take(0) =~= Seq::<u8>::empty());
    while i < bytes.len()
        invariant
            i <= bytes@.len(),
            hash == fnv(0xcbf2_9ce4_8422_2325, bytes@.take(i as int)),
        decreases bytes@.len() - i,
    {
        assert(bytes@.take(i + 1).drop_last() =~= bytes@.take(i as int));
        hash = (hash ^ (bytes[i] as u64)).wrapping_mul(0x0000_0100_0000_01b3);
        i += 1;
    }
    assert(bytes@.take(bytes@.len() as int) =~= bytes@);
    hash
}

/// The number of values of a 64-bit word.
pub open spec fn word_range() -> int {
    0x1_0000_0000_0000_0000
}

/// The value of a polynomial hash over `count` values from `start` on.
pub open spec fn poly(values: Seq<u64>, start: int, count: int, base: int) -> int
    decreases count,
{
    if count <= 0 {
        0
    } else {
        (poly(values, start, count - 1, base) * base + values[start + count - 1]) % word_range()
    }
}

/// A power of the base in 64-bit arithmetic.
pub open spec fn power(base: int, exponent: int) -> int
    decreases exponent,
{
    if exponent <= 0 {
        1
    } else {
        (power(base, exponent - 1) * base) % word_range()
    }
}

proof fn lemma_poly_bounds(values: Seq<u64>, start: int, count: int, base: int)
    ensures
        0 <= poly(values, start, count, base) < word_range(),
{
}

proof fn lemma_mod_step(a: int, b: int, c: int)
    ensures
        ((a % word_range()) * b + c) % word_range() == (a * b + c) % word_range(),
{
    let m = word_range();
    lemma_mul_mod_noop_left(a, b, m);
    lemma_add_mod_noop((a % m) * b, c, m);
    lemma_add_mod_noop(a * b, c, m);
}

/// The first value of a window contributes its value times a power of the base.
proof fn lemma_poly_head(values: Seq<u64>, start: int, count: int, base: int)
    requires
        count >= 1,
    ensures
        poly(values, start, count, base) == (values[start] * power(base, count - 1) + poly(
            values,
            start + 1,
            count - 1,
            base,
        )) % word_range(),
    decreases count,
{
    let m = word_range();
    let head = values[start] as int;
    if count == 1 {
        assert(poly(values, start, 0, base) == 0);
        assert(poly(values, start + 1, 0, base) == 0);
        assert(power(base, 0) == 1);
        assert(values[start] * power(base, 0) == head) by (nonlinear_arith)
            requires
                power(base, 0) == 1,
                head == values[start],
        ;
        assert(poly(values, start, 0, base) * base == 0) by (nonlinear_arith)
            requires
                poly(values, start, 0, base) == 0,
        ;
    } else {
        lemma_poly_head(values, start, count - 1, base);
        let p = power(base, count - 2);
        let q = poly(values, start + 1, count - 2, base);
        let last = values[start + count - 1] as int;
        let whole = head * p + q;
        assert(poly(values, start, count - 1, base) == whole % m);
        lemma_mod_step(whole, base, last);
        assert(poly(values, start, count, base) == (whole * base + last) % m);
        // right-hand side
        assert(power(base, count - 1) == (p * base) % m);
        assert(poly(values, start + 1, count - 1, base) == (q * base + last) % m);
        lemma_mul_mod_noop_right(head, p * base, m);
        lemma_add_mod_noop(head * ((p * base) % m), (q * base + last) % m, m);
        lemma_add_mod_noop(head * (p * base), q * base + last, m);
        vstd::arithmetic::div_mod::lemma_mod_twice(q * base + last, m);
        assert(whole * base + last == head * (p * base) + (q * base + last)) by (nonlinear_arith)
            requires
                whole == head * p + q,
        ;
    }
}

/// Moving a window by one value.
proof fn lemma_poly_slide(values: Seq<u64>, start: int, count: int, base: int)
    requires
        count >= 1,
    ensures
        poly(values, start + 1, count, base) == (((poly(values, start, count, base) - (
        values[start] * power(base, count - 1)) % word_range()) % word_range()) * base
            + values[start + count]) % word_range(),
{
    let m = word_range();
    let x = values[start] * power(base, count - 1);
    let rest = poly(values, start + 1, count - 1, base);
    lemma_poly_head(values, start, count, base);
    lemma_poly_bounds(values, start + 1, count - 1, base);
    assert((x + rest) % m == poly(values, start, count, base));
    lemma_sub_mod_noop(x + rest, x, m);
    lemma_small_mod(rest as nat, m as nat);
    assert(((x + rest) % m - x % m) % m == rest);
}

/// Equal windows have equal hashes.
pub proof fn equal_windows_hash_equally(
    a: Seq<u64>,
    a_start: int,
    b: Seq<u64>,
    b_start: int,
    count: int,
    base: int,
)
    requires
        forall|k: int| 0 <= k < count ==> #[trigger] a[a_start + k] == b[b_start + k],
    ensures
        poly(a, a_start, count, base) == poly(b, b_start, count, base),
    decreases count,
{
    if count > 0 {
        equal_windows_hash_equally(a, a_start, b, b_start, count - 1, base);
        assert(a[a_start + (count - 1)] == b[b_start + (count - 1)]);
    }
}

/// The hashes of the texts of tokens.
pub open spec fn token_hashes(run: Seq<TokenModel>) -> Seq<u64> {
    run.map_values(|token: TokenModel| text_hash(token.0))
}

/// The base of the window hash.
pub open spec fn window_base() -> int {
    1_000_000_007
}

/// Returns the hashes of all windows of a width in a run of tokens.
pub(crate) fn rolling_hashes(run: &[Token], width: usize) -> (r: Vec<u64>)
    requires
        width >= 1,
    ensures
        r@.len() == (if run@.len() >= width {
            run@.len() - width + 1
        } else {
            0
        }),
        forall|s: int|
            0 <= s < r@.len() ==> #[trigger] r@[s] == poly(
                token_hashes(tokens(run@)),
                s,
                width as int,
                window_base(),
            ),
{
    let n: usize = run.len();
    let mut result: Vec<u64> = Vec::new();
    if n < width {
        return result;
    }
    let ghost all = token_hashes(tokens(run@));
    let base: u64 = 1_000_000_007;
    let mut values: Vec<u64> = Vec::new();
    let mut i: usize = 0;
    while i < n
        invariant
            i <= n,
            n == run@.len(),
            values@.len() == i,
            all == token_hashes(tokens(run@)),
            forall|k: int| 0 <= k < i ==> #[trigger] values@[k] == all[k],
        decreases n - i,
    {
        values.push(stable_hash(run[i].normalized.as_str()));
        i += 1;
    }
    assert(values@ =~= all);
    let mut factor: u64 = 1;
    i = 1;
    while i < width
        invariant
            1 <= i <= width,
            base == window_base(),
            factor == power(window_base(), i - 1),
        decreases width - i,
    {
        factor = factor.wrapping_mul(base);
        i += 1;
    }
    let mut hash: u64 = 0;
    i = 0;
    while i < width
        invariant
            i <= width <= n,
            n == all.len(),
            values@ == all,
            base == window_base(),
            hash == poly(all, 0, i as int, window_base()),
        decreases width - i,
    {
        proof {
            lemma_mod_step(hash * base as int, 1, values@[i as int] as int);
            lemma_add_mod_noop((hash * base as int) % word_range(), values@[i as int] as int, word_range());
        }
        hash = hash.wrapping_mul(base).wrapping_add(values[i]);
        i += 1;
    }
    result.push(hash);
    i = width;
    while i < n
        invariant
            1 <= width <= i <= n,
            n == all.len(),
            values@ == all,
            base == window_base(),
            factor == power(window_base(), width - 1),
            hash == poly(all, i - width, width as int, window_base()),
            result@.len() == i - width + 1,
            forall|s: int|
                0 <= s < result@.len() ==> #[trigger] result@[s] == poly(
                    all,
                    s,
                    width as int,
                    window_base(),
                ),
        decreases n - i,
    {
        proof {
            lemma_poly_slide(all, i - width, width as int, window_base());
            let x = (all[i - width] * power(window_base(), width - 1)) % word_range();
            let d = (hash - x) % word_range();
            lemma_mod_step(d * base as int, 1, all[i as int] as int);
        }
        let leaving: u64 = values[i - width].wrapping_mul(factor);
        hash = hash.wrapping_sub(leaving).wrapping_mul(base).wrapping_add(values[i]);
        result.push(hash);
        i += 1;
    }
    result
}

/// The first position at or after `i` that holds a value, or the length.
pub open spec fn first_at(hashes: Seq<u64>, value: u64, i: int) -> int
    decreases hashes.len() - i,
{
    if i < 0 || i >= hashes.len() || hashes[i] == value {
        i
    } else {
        first_at(hashes, value, i + 1)
    }
}

pub(crate) proof fn lemma_first_at(hashes: Seq<u64>, value: u64, i: int)
    requires
        0 <= i <= hashes.len(),
    ensures
        i <= first_at(hashes, value, i) <= hashes.len(),
        first_at(hashes, value, i) < hashes.len() ==> hashes[first_at(hashes, value, i)] == value,
        forall|k: int| i <= k < first_at(hashes, value, i) ==> #[trigger] hashes[k] != value,
    decreases hashes.len() - i,
{
    if i < hashes.len() && hashes[i] != value {
        lemma_first_at(hashes, value, i + 1);
    }
}

/// An index from values to the positions that hold them, in order.
pub struct ChainIndex {
    heads: HashMap<u64, usize>,
    next: Vec<usize>,
}

impl ChainIndex {
    /// The index leads through all positions of the given values.
    pub closed spec fn covers(&self, hashes: Seq<u64>) -> bool {
        &&& self.next@.len() == hashes.len()
        &&& forall|h: u64| #[trigger] self.heads@.contains_key(h) ==> self.heads@[h] == first_at(
            hashes,
            h,
            0,
        ) && first_at(hashes, h, 0) < hashes.len()
        &&& forall|h: u64| !#[trigger] self.heads@.contains_key(h) ==> first_at(hashes, h, 0)
            == hashes.len()
        &&& forall|j: int|
            0 <= j < hashes.len() ==> #[trigger] self.next@[j] == first_at(
                hashes,
                hashes[j],
                j + 1,
            )
    }

    /// Builds the index of a list of values.
    pub(crate) fn build(hashes: &[u64]) -> (r: ChainIndex)
        ensures
            r.covers(hashes@),
    {
        broadcast use vstd::std_specs::hash::group_hash_axioms;

        let n: usize = hashes.len();
        let mut heads: HashMap<u64, usize> = HashMap::new();
        let mut next: Vec<usize> = Vec::new();
        while next.len() < n
            invariant
                next@.len() <= n,
            decreases n - next@.len(),
        {
            next.push(n);
        }
        let mut i: usize = n;
        while i > 0
            invariant
                i <= n,
                n == hashes@.len(),
                next@.len() == n,
                forall|h: u64| #[trigger]
                    heads@.contains_key(h) ==> heads@[h] == first_at(hashes@, h, i as int)
                        && first_at(hashes@, h, i as int) < n,
                forall|h: u64| !#[trigger]
                    heads@.contains_key(h) ==> first_at(hashes@, h, i as int) == n,
                forall|j: int|
                    i <= j < n ==> #[trigger] next@[j] == first_at(hashes@, hashes@[j], j + 1),
            decreases i,
        {
            i -= 1;
            let h = hashes[i];
            let after: usize = match heads.get(&h) {
                Some(position) => *position,
                None => n,
            };
            next.set(i, after);
            heads.insert(h, i);
            assert forall|g: u64| #[trigger] heads@.contains_key(g) implies heads@[g] == first_at(
                hashes@,
                g,
                i as int,
            ) && first_at(hashes@, g, i as int) < n by {}
        }
        ChainIndex { heads, next }
    }

    /// Returns the first position of a value, or the number of positions.
    pub(crate) fn first(&self, value: u64, Ghost(hashes): Ghost<Seq<u64>>) -> (r: usize)
        requires
            self.covers(hashes),
        ensures
            r == first_at(hashes, value, 0),
            r <= hashes.len(),
    {
        broadcast use vstd::std_specs::hash::group_hash_axioms;

        match self.heads.get(&value) {
            Some(position) => *position,
            None => self.next.len(),
        }
    }

    /// Returns the next position of the value at a position, or the number of positions.
    pub(crate) fn after(&self, position: usize, Ghost(hashes): Ghost<Seq<u64>>) -> (r: usize)
        requires
            self.covers(hashes),
            position < hashes.len(),
        ensures
            r == first_at(hashes, hashes[position as int], position + 1),
            position < r <= hashes.len(),
    {
        proof {
            lemma_first_at(hashes, hashes[position as int], position + 1);
        }
        self.next[position]
    }
}

/// A digest as a number, so that the order of digests is that of numbers.
#[derive(Clone, Copy, Debug, PartialEq, Eq, Structural)]
pub struct Gram {
    /// Upper half.
    pub hi: u128,
    /// Lower half.
    pub lo: u128,
}

impl View for Gram {
    type V = int;

    open spec fn view(&self) -> int {
        self.hi * 0x1_0000_0000_0000_0000_0000_0000_0000_0000 + self.lo
    }
}

impl Gram {
    /// Returns whether this digest comes before another.
    pub fn less(self, other: Gram) -> (r: bool)
        ensures
            r == (self@ < other@),
    {
        self.hi < other.hi || (self.hi == other.hi && self.lo < other.lo)
    }

    /// Returns whether two digests are equal.
    pub fn same(self, other: Gram) -> (r: bool)
        ensures
            r == (self@ == other@),
            r == (self == other),
    {
        self.hi == other.hi && self.lo == other.lo
    }
}

/// The number that the bytes of a digest stand for, most significant byte first.
pub open spec fn digest_value(digest: Seq<u8>) -> int {
    spec_u128_from_le_bytes(digest.subrange(0, 16).reverse())
        * 0x1_0000_0000_0000_0000_0000_0000_0000_0000 + spec_u128_from_le_bytes(
        digest.subrange(16, 32).reverse(),
    )
}

/// The material of an n-gram fingerprint: a label, then each token behind its length.
pub open spec fn gram_material(run: Seq<TokenModel>, start: int, size: int) -> Seq<u8>
    decreases size,
{
    if size <= 0 {
        utf8("phemius-ngram-v1"@)
    } else {
        let text = utf8(run[start + size - 1].0);
        gram_material(run, start, size - 1) + spec_u64_to_le_bytes(text.len() as u64).reverse()
            + text
    }
}

/// The fingerprint of the n-gram at a position of a run.
pub open spec fn gram_at(run: Seq<TokenModel>, start: int, size: int) -> int {
    digest_value(sha256(gram_material(run, start, size)))
}

fn reversed(bytes: &[u8], start: usize, end: usize) -> (r: Vec<u8>)
    requires
        start <= end <= bytes@.len(),
    ensures
        r@ == bytes@.subrange(start as int, end as int).reverse(),
{
    let mut out: Vec<u8> = Vec::new();
    let mut i: usize = end;
    while i > start
        invariant
            start <= i <= end <= bytes@.len(),
            out@.len() == end - i,
            forall|k: int| 0 <= k < out@.len() ==> #[trigger] out@[k] == bytes@[end - 1 - k],
        decreases i,
    {
        i -= 1;
        out.push(bytes[i]);
    }
    assert(out@ =~= bytes@.subrange(start as int, end as int).reverse());
    out
}

/// Returns the fingerprints of all n-grams of a size in a run of tokens.
pub(crate) fn ngram_fingerprints(run: &[Token], size: usize) -> (r: Vec<Gram>)
    requires
        size >= 1,
    ensures
        r@.len() == (if run@.len() >= size {
            run@.len() - size + 1
        } else {
            0
        }),
        forall|s: int|
            0 <= s < r@.len() ==> #[trigger] r@[s]@ == gram_at(tokens(run@), s, size as int),
{
    let n: usize = run.len();
    let mut out: Vec<Gram> = Vec::new();
    if n < size {
        return out;
    }
    let ghost all = tokens(run@);
    let mut start: usize = 0;
    while start <= n - size
        invariant
            1 <= size <= n,
            n == run@.len(),
            all == tokens(run@),
            start <= n - size + 1,
            out@.len() == start,
            forall|s: int| 0 <= s < start ==> #[trigger] out@[s]@ == gram_at(all, s, size as int),
        decreases n - start,
    {
        let mut material: Vec<u8> = Vec::new();
        material.extend_from_slice("phemius-ngram-v1".as_bytes());
        let mut k: usize = 0;
        assert(material@ =~= gram_material(all, start as int, 0));
        while k < size
            invariant
                k <= size,
                start + size <= n,
                n == run@.len(),
                all == tokens(run@),
                material@ == gram_material(all, start as int, k as int),
            decreases size - k,
        {
            let text = run[start + k].normalized.as_str().as_bytes();
            assert(all[start + k] == run@[start + k]@);
            let length = u64_to_le_bytes(text.len() as u64);
            let big_endian = reversed(length.as_slice(), 0, 8);
            assert(length@.subrange(0, 8) =~= length@);
            let ghost before = material@;
            material.extend_from_slice(big_endian.as_slice());
            material.extend_from_slice(text);
            k += 1;
            assert(material@ =~= before + big_endian@ + text@);
        }
        let digest = sha256_digest(material.as_slice());
        let upper = reversed(digest.as_slice(), 0, 16);
        let lower = reversed(digest.as_slice(), 16, 32);
        let gram = Gram {
            hi: u128_from_le_bytes(upper.as_slice()),
            lo: u128_from_le_bytes(lower.as_slice()),
        };
        out.push(gram);
        start += 1;
    }
    out
}

/// The values of fingerprints.
pub open spec fn values(grams: Seq<Gram>) -> Seq<int> {
    grams.map_values(|gram: Gram| gram@)
}

/// Numbers in ascending order.
pub open spec fn ascending(s: Seq<int>) -> bool {
    forall|i: int, j: int| 0 <= i < j < s.len() ==> #[trigger] s[i] <= #[trigger] s[j]
}

/// A sequence in ascending order is the sorted form of any sequence with the same elements.
pub(crate) proof fn lemma_sorted_form(s: Seq<int>, t: Seq<int>)
    requires
        ascending(s),
        s.to_multiset() == t.to_multiset(),
    ensures
        s == t.sort(),
{
    let leq = |x: int, y: int| x <= y;
    t.lemma_sort_ensures();
    assert(sorted_by(s, leq));
    assert(total_ordering(leq));
    vstd::seq_lib::lemma_sorted_unique(s, t.sort(), leq);
}

pub(crate) proof fn lemma_sort_ascends(t: Seq<int>)
    ensures
        ascending(t.sort()),
        t.sort().to_multiset() == t.to_multiset(),
        t.sort().len() == t.len(),
{
    broadcast use vstd::seq_lib::group_to_multiset_ensures;

    t.lemma_sort_ensures();
    let leq = |x: int, y: int| x <= y;
    let s = t.sort();
    assert forall|i: int, j: int| 0 <= i < j < s.len() implies #[trigger] s[i] <= #[trigger] s[j] by {
        assert(leq(s[i], s[j]));
    }
    assert(t.len() == t.to_multiset().len());
    assert(s.len() == s.to_multiset().len());
}

/// Returns the first position whose fingerprint is not below the given one.
pub(crate) fn lower_bound(list: &[Gram], gram: Gram) -> (r: usize)
    requires
        ascending(values(list@)),
    ensures
        r <= list@.len(),
        forall|k: int| 0 <= k < r ==> (#[trigger] values(list@)[k]) < gram@,
        forall|k: int| r <= k < list@.len() ==> (#[trigger] values(list@)[k]) >= gram@,
{
    let ghost all = values(list@);
    let mut low: usize = 0;
    let mut high: usize = list.len();
    while low < high
        invariant
            low <= high <= list@.len(),
            all == values(list@),
            ascending(all),
            forall|k: int| 0 <= k < low ==> (#[trigger] all[k]) < gram@,
            forall|k: int| high <= k < list@.len() ==> (#[trigger] all[k]) >= gram@,
        decreases high - low,
    {
        let middle: usize = low + (high - low) / 2;
        assert(all[middle as int] == list@[middle as int]@);
        if list[middle].less(gram) {
            assert forall|k: int| 0 <= k < middle + 1 implies (#[trigger] all[k]) < gram@ by {
                assert(all[k] <= all[middle as int]);
            }
            low = middle + 1;
        } else {
            assert forall|k: int| middle <= k < list@.len() implies (#[trigger] all[k]) >= gram@ by {
                assert(all[middle as int] <= all[k]);
            }
            high = middle;
        }
    }
    low
}

fn sorted_insert(list: &mut Vec<Gram>, gram: Gram)
    requires
        ascending(values(old(list)@)),
    ensures
        ascending(values(final(list)@)),
        values(final(list)@).to_multiset() == values(old(list)@).to_multiset().insert(gram@),
{
    let ghost before = values(list@);
    let at: usize = lower_bound(list.as_slice(), gram);
    list.insert(at, gram);
    proof {
        let after = values(list@);
        assert(after =~= before.insert(at as int, gram@));
        vstd::seq_lib::to_multiset_insert(before, at as int, gram@);
        assert forall|i: int, j: int| 0 <= i < j < after.len() implies #[trigger] after[i]
            <= #[trigger] after[j] by {
            let x = if i < at {
                i
            } else {
                i - 1
            };
            let y = if j < at {
                j
            } else {
                j - 1
            };
            if i != at && j != at {
                assert(after[i] == before[x] && after[j] == before[y]);
            } else if i == at {
                assert(after[j] == before[j - 1]);
            } else {
                assert(after[i] == before[i]);
            }
        }
    }
}

fn sorted_remove(list: &mut Vec<Gram>, gram: Gram)
    requires
        ascending(values(old(list)@)),
        values(old(list)@).to_multiset().count(gram@) > 0,
    ensures
        ascending(values(final(list)@)),
        values(final(list)@).to_multiset() == values(old(list)@).to_multiset().remove(gram@),
{
    let ghost before = values(list@);
    let at: usize = lower_bound(list.as_slice(), gram);
    proof {
        vstd::seq_lib::to_multiset_contains(before, gram@);
        let w = choose|w: int| 0 <= w < before.len() && before[w] == gram@;
        assert(before.contains(gram@));
        assert(w >= at);
        assert(before[at as int] <= before[w]);
        assert(before[at as int] == gram@);
    }
    let _ = list.remove(at);
    proof {
        let after = values(list@);
        assert(after =~= before.remove(at as int));
        vstd::seq_lib::to_multiset_remove(before, at as int);
        assert forall|i: int, j: int| 0 <= i < j < after.len() implies #[trigger] after[i]
            <= #[trigger] after[j] by {
            let x = if i < at {
                i
            } else {
                i + 1
            };
            let y = if j < at {
                j
            } else {
                j + 1
            };
            assert(after[i] == before[x] && after[j] == before[y]);
        }
    }
}

/// The sorted fingerprints of `count` n-grams from `start` on.
pub open spec fn signature(grams: Seq<int>, start: int, count: int) -> Seq<int> {
    grams.subrange(start, start + count).sort()
}

/// Sorted fingerprints of a window that slides over a run.
pub struct Sliding {
    pub start: usize,
    pub count: usize,
    pub list: Vec<Gram>,
}

impl Sliding {
    /// The list holds the sorted fingerprints of the window.
    pub open spec fn covers(&self, grams: Seq<int>) -> bool {
        &&& self.start + self.count <= grams.len()
        &&& values(self.list@) == signature(grams, self.start as int, self.count as int)
    }
}

proof fn lemma_subrange_head(grams: Seq<int>, start: int, end: int)
    requires
        0 <= start < end <= grams.len(),
    ensures
        grams.subrange(start, end).to_multiset() == grams.subrange(
            start + 1,
            end,
        ).to_multiset().insert(grams[start]),
{
    let tail = grams.subrange(start + 1, end);
    assert(grams.subrange(start, end) =~= tail.insert(0, grams[start]));
    vstd::seq_lib::to_multiset_insert(tail, 0, grams[start]);
}

proof fn lemma_subrange_last(grams: Seq<int>, start: int, end: int)
    requires
        0 <= start <= end < grams.len(),
    ensures
        grams.subrange(start, end + 1).to_multiset() == grams.subrange(
            start,
            end,
        ).to_multiset().insert(grams[end]),
{
    let head = grams.subrange(start, end);
    assert(grams.subrange(start, end + 1) =~= head.insert(head.len() as int, grams[end]));
    vstd::seq_lib::to_multiset_insert(head, head.len() as int, grams[end]);
}

/// Moves the window: fingerprints that leave are removed, new ones inserted.  A window that does
/// not overlap the old one is built anew.
pub(crate) fn slide(window: &mut Sliding, grams: &[Gram], start: usize, count: usize)
    requires
        old(window).covers(values(grams@)),
        start + count <= grams@.len(),
    ensures
        final(window).covers(values(grams@)),
        final(window).start == start,
        final(window).count == count,
{
    broadcast use vstd::multiset::group_multiset_axioms;

    let ghost all = values(grams@);
    let length: usize = grams.len();
    assert(all.len() == length);
    let mut from: usize = window.start;
    let mut to: usize = window.start + window.count;
    let end: usize = start + count;
    proof {
        lemma_sort_ascends(all.subrange(from as int, to as int));
    }
    if !(from <= start && start <= to && to <= end) {
        window.list.clear();
        from = start;
        to = start;
        assert(values(window.list@) =~= Seq::<int>::empty());
        assert(all.subrange(from as int, to as int) =~= Seq::<int>::empty());
    }
    while from < start
        invariant
            from <= start <= to <= end <= grams@.len(),
            all == values(grams@),
            ascending(values(window.list@)),
            values(window.list@).to_multiset() == all.subrange(
                from as int,
                to as int,
            ).to_multiset(),
        decreases start - from,
    {
        broadcast use vstd::multiset::group_multiset_axioms;

        proof {
            lemma_subrange_head(all, from as int, to as int);
            assert(all[from as int] == grams@[from as int]@);
        }
        let ghost rest = all.subrange(from + 1, to as int).to_multiset();
        assert(rest.insert(all[from as int]).count(all[from as int]) > 0);
        sorted_remove(&mut window.list, grams[from]);
        assert(rest.insert(all[from as int]).remove(all[from as int]) =~= rest);
        from += 1;
    }
    while to < end
        invariant
            from == start <= to <= end <= grams@.len(),
            all == values(grams@),
            ascending(values(window.list@)),
            values(window.list@).to_multiset() == all.subrange(
                from as int,
                to as int,
            ).to_multiset(),
        decreases end - to,
    {
        proof {
            lemma_subrange_last(all, from as int, to as int);
            assert(all[to as int] == grams@[to as int]@);
        }
        sorted_insert(&mut window.list, grams[to]);
        to += 1;
    }
    proof {
        lemma_sorted_form(values(window.list@), all.subrange(start as int, end as int));
    }
    window.start = start;
    window.count = count;
}

/// The number of elements that two multisets share.
pub open spec fn shared_count(a: Seq<int>, b: Seq<int>) -> nat {
    a.to_multiset().intersection_with(b.to_multiset()).len()
}

proof fn lemma_absent(s: Seq<int>, x: int, i: int)
    requires
        ascending(s),
        0 <= i <= s.len(),
        i < s.len() ==> x < s[i],
    ensures
        s.skip(i).to_multiset().count(x) == 0,
{
    vstd::seq_lib::to_multiset_contains(s.skip(i), x);
    if s.skip(i).contains(x) {
        let k = choose|k: int| 0 <= k < s.skip(i).len() && s.skip(i)[k] == x;
        assert(s[i + k] == x);
        if k > 0 {
            assert(s[i] <= s[i + k]);
        }
    }
}

proof fn lemma_skip_step(s: Seq<int>, i: int)
    requires
        0 <= i < s.len(),
    ensures
        s.skip(i).to_multiset() == s.skip(i + 1).to_multiset().insert(s[i]),
{
    let tail = s.skip(i + 1);
    assert(s.skip(i) =~= tail.insert(0, s[i]));
    vstd::seq_lib::to_multiset_insert(tail, 0, s[i]);
}

/// Returns the number of fingerprints that two sorted lists share.
pub(crate) fn multiset_overlap(a: &[Gram], b: &[Gram]) -> (r: usize)
    requires
        ascending(values(a@)),
        ascending(values(b@)),
    ensures
        r == shared_count(values(a@), values(b@)),
        r <= a@.len(),
        r <= b@.len(),
{
    let ghost x = values(a@);
    let ghost y = values(b@);
    let mut i: usize = 0;
    let mut j: usize = 0;
    let mut shared: usize = 0;
    assert(x.skip(0) =~= x);
    assert(y.skip(0) =~= y);
    while i < a.len() && j < b.len()
        invariant
            i <= a@.len(),
            j <= b@.len(),
            shared <= i,
            shared <= j,
            x == values(a@),
            y == values(b@),
            ascending(x),
            ascending(y),
            shared_count(x, y) == shared + x.skip(i as int).to_multiset().intersection_with(
                y.skip(j as int).to_multiset(),
            ).len(),
        decreases a@.len() - i + b@.len() - j,
    {
        broadcast use vstd::multiset::group_multiset_axioms;
        broadcast use vstd::multiset::lemma_intersection_count;

        let p = a[i];
        let q = b[j];
        assert(x[i as int] == p@ && y[j as int] == q@);
        let ghost xs = x.skip(i as int).to_multiset();
        let ghost ys = y.skip(j as int).to_multiset();
        let ghost xt = x.skip(i + 1).to_multiset();
        let ghost yt = y.skip(j + 1).to_multiset();
        proof {
            lemma_skip_step(x, i as int);
            lemma_skip_step(y, j as int);
        }
        if p.less(q) {
            proof {
                lemma_absent(y, p@, j as int);
                assert(xs.intersection_with(ys) =~= xt.intersection_with(ys));
            }
            i += 1;
        } else if q.less(p) {
            proof {
                lemma_absent(x, q@, i as int);
                assert(xs.intersection_with(ys) =~= xs.intersection_with(yt));
            }
            j += 1;
        } else {
            proof {
                assert(p@ == q@);
                assert(xs.intersection_with(ys) =~= xt.intersection_with(yt).insert(p@));
                vstd::multiset::lemma_insert_len(xt.intersection_with(yt), p@);
            }
            i += 1;
            j += 1;
            shared += 1;
        }
    }
    proof {
        let xs = x.skip(i as int).to_multiset();
        let ys = y.skip(j as int).to_multiset();
        assert(xs.intersection_with(ys) =~= Multiset::empty()) by {
            broadcast use vstd::multiset::group_multiset_axioms;
            broadcast use vstd::multiset::lemma_intersection_count;

            assert forall|v: int| xs.intersection_with(ys).count(v) == 0 by {
                vstd::seq_lib::to_multiset_contains(x.skip(i as int), v);
                vstd::seq_lib::to_multiset_contains(y.skip(j as int), v);
            }
        }
        assert(xs.intersection_with(ys).len() == 0) by {
            broadcast use vstd::multiset::group_multiset_axioms;

        }
    }
    shared
}

} // verus!
