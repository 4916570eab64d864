//! What requests cost and how far spending may go.
use vstd::prelude::*;
use crate::cost::{all_digits, chapter_sum, chapter_total, cost_result, fraction_micros, fraction_part, kept_digits, kept_micros, new_reservation, price_result, request_position, reserve_error, reserved, rounds_up, run_sum, run_total, settle_error, settled, ten_to, whole_part, without_dollar, LedgerModel, Price, ReservationModel, Usage};
use crate::text::{digit_value, digits_value, index_from, is_digit};

verus! {

/// The cost of a request is the price of its tokens, rounded up to a whole millionth of a dollar:
/// never less than the price, and less than a millionth more.
pub proof fn cost_is_rounded_up(price: Price, usage: Usage)
    ensures
        cost_result(price, usage) matches Ok(cost) ==> {
            let exact = usage.input_tokens * price.input_per_million@ + usage.output_tokens
                * price.output_per_million@;
            cost * 1_000_000 >= exact && cost * 1_000_000 < exact + 1_000_000
        },
        cost_result(price, usage) is Err ==> usage.input_tokens * price.input_per_million@
            + usage.output_tokens * price.output_per_million@ > u64::MAX * 1_000_000,
{
}

/// More tokens never cost less.
pub proof fn more_tokens_cost_no_less(price: Price, less: Usage, more: Usage)
    requires
        less.input_tokens <= more.input_tokens,
        less.output_tokens <= more.output_tokens,
        cost_result(price, more) is Ok,
    ensures
        cost_result(price, less) is Ok,
        cost_result(price, less)->Ok_0 <= cost_result(price, more)->Ok_0,
{
    let a = price.input_per_million@ as int;
    let b = price.output_per_million@ as int;
    assert(less.input_tokens * a <= more.input_tokens * a) by (nonlinear_arith)
        requires
            less.input_tokens <= more.input_tokens,
            a >= 0,
    ;
    assert(less.output_tokens * b <= more.output_tokens * b) by (nonlinear_arith)
        requires
            less.output_tokens <= more.output_tokens,
            b >= 0,
    ;
}

/// A reservation is made exactly where the chapter stays within $10 and the run within $120.
pub proof fn caps_are_ten_and_a_hundred_and_twenty_dollars(
    l: LedgerModel,
    chapter_id: Seq<char>,
    cost: u64,
)
    ensures
        reserve_error(l, chapter_id, cost) is None <==> chapter_id.len() > 0 && l.chapter_start
            + chapter_sum(l.reservations, chapter_id) + cost <= 10_000_000 && l.run_start + run_sum(
            l.reservations,
        ) + cost <= 120_000_000,
{
}

/// A chapter is warned of once, when it goes beyond $5.
pub proof fn warning_comes_once_beyond_five_dollars(
    l: LedgerModel,
    request_id: Seq<char>,
    chapter_id: Seq<char>,
    cost: u64,
)
    ensures
        ({
            let r = new_reservation(l, request_id, chapter_id, cost);
            &&& r.warning_required <==> l.chapter_start + chapter_sum(l.reservations, chapter_id)
                + cost > 5_000_000 && !l.warnings.contains(chapter_id)
            &&& r.warning_required ==> reserved(l, r).warnings.contains(chapter_id)
            &&& r.reserved_cost == cost && r.chapter_id == chapter_id && r.request_id == request_id
        }),
{
    let r = new_reservation(l, request_id, chapter_id, cost);
    if r.warning_required {
        assert(reserved(l, r).warnings.last() == chapter_id);
    }
}

proof fn lemma_sum_bounds(list: Seq<ReservationModel>, chapter_id: Seq<char>)
    ensures
        0 <= chapter_sum(list, chapter_id) <= run_sum(list),
    decreases list.len(),
{
    if list.len() > 0 {
        lemma_sum_bounds(list.drop_last(), chapter_id);
    }
}

/// A reservation counts in full toward its chapter and toward the run, and toward no other chapter.
pub proof fn reservation_counts_in_full(l: LedgerModel, r: ReservationModel, other: Seq<char>)
    requires
        request_position(l.reservations, r.request_id, 0) is None,
        other != r.chapter_id,
    ensures
        chapter_total(reserved(l, r), r.chapter_id) == chapter_total(l, r.chapter_id)
            + r.reserved_cost,
        run_total(reserved(l, r)) == run_total(l) + r.reserved_cost,
        chapter_total(reserved(l, r), other) == chapter_total(l, other),
        chapter_total(l, other) - l.chapter_start <= run_total(l) - l.run_start,
{
    let after = reserved(l, r).reservations;
    assert(after.drop_last() =~= l.reservations);
    assert(after.last() == r);
    lemma_sum_bounds(l.reservations, other);
}

/// A request is settled once, at no more than was reserved for it.
pub proof fn settlement_stays_within_its_reservation(
    l: LedgerModel,
    request_id: Seq<char>,
    cost: u64,
    i: int,
)
    requires
        request_position(l.reservations, request_id, 0) == Some(i),
    ensures
        settle_error(l, request_id, cost) is None <==> !l.settled.contains(request_id) && cost
            <= l.reservations[i].reserved_cost,
        settled(l, request_id, cost).settled.contains(request_id),
        settle_error(settled(l, request_id, cost), request_id, cost) is Some,
{
    assert(settled(l, request_id, cost).settled.last() == request_id);
}

proof fn lemma_ten_to(n: int, m: int)
    requires
        0 <= n,
        0 <= m,
    ensures
        ten_to(n + m) == ten_to(n) * ten_to(m),
        ten_to(n) >= 1,
    decreases n,
{
    if n > 0 {
        lemma_ten_to(n - 1, m);
        assert(10 * (ten_to(n - 1) * ten_to(m)) == (10 * ten_to(n - 1)) * ten_to(m))
            by (nonlinear_arith);
    } else {
        assert(1 * ten_to(m) == ten_to(m));
    }
}

proof fn lemma_digits(s: Seq<char>)
    requires
        all_digits(s),
    ensures
        0 <= digits_value(s) < ten_to(s.len() as int),
    decreases s.len(),
{
    if s.len() > 0 {
        assert(all_digits(s.drop_last())) by {
            assert forall|i: int| 0 <= i < s.drop_last().len() implies is_digit(
                #[trigger] s.drop_last()[i],
            ) by {
                assert(is_digit(s[i]));
            }
        }
        lemma_digits(s.drop_last());
        assert(is_digit(s[s.len() - 1]));
        assert(digit_value(s.last()) <= 9);
    }
}

proof fn lemma_digits_concat(a: Seq<char>, b: Seq<char>)
    requires
        all_digits(a),
        all_digits(b),
    ensures
        digits_value(a + b) == digits_value(a) * ten_to(b.len() as int) + digits_value(b),
    decreases b.len(),
{
    if b.len() == 0 {
        assert(a + b =~= a);
        assert(digits_value(a) * 1 == digits_value(a));
    } else {
        let c = b.drop_last();
        assert(all_digits(c)) by {
            assert forall|i: int| 0 <= i < c.len() implies is_digit(#[trigger] c[i]) by {
                assert(is_digit(b[i]));
            }
        }
        lemma_digits_concat(a, c);
        let whole = a + b;
        assert(whole.drop_last() =~= a + c);
        assert(whole.last() == b.last());
        let t = ten_to(c.len() as int);
        let x = digits_value(a) as int;
        let y = digits_value(c) as int;
        assert((x * t + y) * 10 == x * (10 * t) + y * 10) by (nonlinear_arith);
    }
}

proof fn lemma_nonzero(s: Seq<char>)
    requires
        all_digits(s),
    ensures
        digits_value(s) > 0 <==> exists|i: int| 0 <= i < s.len() && #[trigger] s[i] != '0',
    decreases s.len(),
{
    if s.len() > 0 {
        let head = s.drop_last();
        assert(all_digits(head)) by {
            assert forall|i: int| 0 <= i < head.len() implies is_digit(#[trigger] head[i]) by {
                assert(is_digit(s[i]));
            }
        }
        lemma_nonzero(head);
        assert(is_digit(s[s.len() - 1]));
        if exists|i: int| 0 <= i < s.len() && #[trigger] s[i] != '0' {
            let i = choose|i: int| 0 <= i < s.len() && #[trigger] s[i] != '0';
            if i < head.len() {
                assert(head[i] != '0');
            }
        }
        if digits_value(head) > 0 {
            let i = choose|i: int| 0 <= i < head.len() && #[trigger] head[i] != '0';
            assert(s[i] != '0');
        } else if digits_value(s) > 0 {
            assert(s[s.len() - 1] != '0');
        }
    }
}

proof fn lemma_fraction(f: Seq<char>)
    requires
        all_digits(f),
    ensures
        ({
            let k = ten_to(f.len() as int);
            &&& fraction_micros(f) * k >= digits_value(f) * 1_000_000
            &&& fraction_micros(f) * k < digits_value(f) * 1_000_000 + k
            &&& fraction_micros(f) >= 0
        }),
{
    reveal(fraction_micros);
    let n = f.len() as int;
    let k = ten_to(n);
    assert(ten_to(6) == 1_000_000) by {
        reveal_with_fuel(ten_to, 7);
    }
    if n <= 6 {
        assert(!rounds_up(f));
        assert(kept_digits(f) == f);
        lemma_ten_to(6 - n, n);
        let v = digits_value(f) as int;
        let t = ten_to(6 - n);
        assert(kept_micros(f) == digits_value(kept_digits(f)) * ten_to(
            6 - kept_digits(f).len(),
        ));
        assert(fraction_micros(f) == kept_micros(f));
        assert(fraction_micros(f) == v * t);
        assert((v * t) * k == v * (t * k)) by (nonlinear_arith);
        assert(v * t >= 0) by (nonlinear_arith)
            requires
                v >= 0,
                t >= 1,
        ;
        assert(v * (t * k) == v * 1_000_000);
        lemma_ten_to(n, 0);
    } else {
        let a = f.take(6);
        let b = f.skip(6);
        assert(f =~= a + b);
        assert(all_digits(a)) by {
            assert forall|i: int| 0 <= i < a.len() implies is_digit(#[trigger] a[i]) by {
                assert(is_digit(f[i]));
            }
        }
        assert(all_digits(b)) by {
            assert forall|i: int| 0 <= i < b.len() implies is_digit(#[trigger] b[i]) by {
                assert(is_digit(f[i + 6]));
            }
        }
        lemma_digits_concat(a, b);
        lemma_digits(b);
        lemma_nonzero(b);
        lemma_ten_to(6, n - 6);
        let x = digits_value(a) as int;
        let y = digits_value(b) as int;
        let t = ten_to(n - 6);
        assert(kept_micros(f) == x) by {
            assert(kept_digits(f) == a);
            assert(ten_to(0) == 1);
            assert(x * 1 == x);
        }
        assert(rounds_up(f) <==> y > 0) by {
            if rounds_up(f) {
                let i = choose|i: int| 6 <= i < f.len() && #[trigger] f[i] != '0';
                assert(b[i - 6] != '0');
            }
            if y > 0 {
                let i = choose|i: int| 0 <= i < b.len() && #[trigger] b[i] != '0';
                assert(f[i + 6] != '0');
            }
        }
        lemma_round(x, y, t, k);
        assert(fraction_micros(f) == if y > 0 {
            x + 1
        } else {
            x
        });
        assert(digits_value(f) as int == x * t + y);
        assert(k == 1_000_000 * t);
    }
}

proof fn lemma_round(x: int, y: int, t: int, k: int)
    requires
        k == 1_000_000 * t,
        0 <= y < t,
    ensures
        y == 0 ==> x * k == (x * t + y) * 1_000_000,
        y > 0 ==> (x + 1) * k >= (x * t + y) * 1_000_000 && (x + 1) * k < (x * t + y) * 1_000_000
            + k,
{
    let z = x * t;
    assert(x * k == 1_000_000 * z) by (nonlinear_arith)
        requires
            k == 1_000_000 * t,
            z == x * t,
    ;
    assert((x + 1) * k == x * k + k) by (nonlinear_arith);
}

/// A price that is written as a whole number of dollars and a fraction is read as that many
/// millionths, rounded up where the fraction is finer: never less than what is written, and less
/// than a millionth more.
pub proof fn written_price_is_rounded_up(whole: Seq<char>, fraction: Seq<char>)
    requires
        whole.len() > 0,
        all_digits(whole),
        all_digits(fraction),
    ensures
        ({
            let k = ten_to(fraction.len() as int);
            let exact = (digits_value(whole) * k + digits_value(fraction)) * 1_000_000;
            price_result(whole + seq!['.'] + fraction) matches Ok(price) ==> price * k >= exact
                && price * k < exact + k
        }),
        price_result(seq!['$'] + (whole + seq!['.'] + fraction)) == price_result(
            whole + seq!['.'] + fraction,
        ),
{
    lemma_price_parts(whole, fraction);
    lemma_fraction(fraction);
    let k = ten_to(fraction.len() as int);
    let w = digits_value(whole) as int;
    let m = fraction_micros(fraction);
    let v = digits_value(fraction) as int;
    assert((w * 1_000_000 + m) * k == (w * k) * 1_000_000 + m * k) by (nonlinear_arith);
    assert((w * k + v) * 1_000_000 == (w * k) * 1_000_000 + v * 1_000_000);
    let text = whole + seq!['.'] + fraction;
    if let Ok(price) = price_result(text) {
        assert(price as int == w * 1_000_000 + m);
    }
}

proof fn lemma_price_parts(whole: Seq<char>, fraction: Seq<char>)
    requires
        whole.len() > 0,
        all_digits(whole),
    ensures
        ({
            let text = whole + seq!['.'] + fraction;
            &&& without_dollar(text) == text
            &&& without_dollar(seq!['$'] + text) == text
            &&& whole_part(text) == whole
            &&& fraction_part(text) == fraction
        }),
{
    let text = whole + seq!['.'] + fraction;
    let at = whole.len() as int;
    assert(text[at] == '.');
    assert(is_digit(whole[0]));
    assert(text[0] == whole[0]);
    assert forall|i: int| 0 <= i < at implies #[trigger] text[i] != '.' by {
        assert(is_digit(whole[i]));
        assert(text[i] == whole[i]);
    }
    lemma_point(text, 0, at);
    assert(without_dollar(seq!['$'] + text) =~= text);
    assert(whole_part(text) =~= whole);
    assert(fraction_part(text) =~= fraction);
}

proof fn lemma_point(s: Seq<char>, from: int, at: int)
    requires
        0 <= from <= at < s.len(),
        s[at] == '.',
        forall|i: int| from <= i < at ==> #[trigger] s[i] != '.',
    ensures
        index_from(s, '.', from) == at,
    decreases at - from,
{
    if from < at {
        lemma_point(s, from + 1, at);
    }
}

} // verus!
