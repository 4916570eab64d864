//! Prices, usage and the budget ledger.
use vstd::prelude::*;
use vstd::string::StringExecFns;
use crate::domain::{is_id_of, prefixed_uuid, EntityId, EntityKind};
use crate::json::{json_quote, json_string};
use crate::text::{one_line, utf8, contains_text, decimal, decimal_text, digits_value, from_chars, index_from, is_digit, parse_u64, parsed_u64, str_eq, texts, to_chars};

verus! {

/// An amount of money in millionths of a dollar.
#[derive(Clone, Copy, Debug, PartialEq, Eq, PartialOrd, Ord, Structural)]
pub struct MicroDollars(u64);

impl View for MicroDollars {
    type V = u64;

    closed spec fn view(&self) -> u64 {
        self.0
    }
}

impl Default for MicroDollars {
    fn default() -> (r: MicroDollars)
        ensures
            r@ == 0,
    {
        MicroDollars(0)
    }
}

impl MicroDollars {
    /// Builds an amount.
    pub fn new(value: u64) -> (r: MicroDollars)
        ensures
            r@ == value,
    {
        MicroDollars(value)
    }

    /// Returns no money.
    pub fn zero() -> (r: MicroDollars)
        ensures
            r@ == 0,
    {
        MicroDollars(0)
    }

    /// Returns the amount.
    pub fn as_u64(self) -> (r: u64)
        ensures
            r == self@,
    {
        self.0
    }
}

/// Price of a million tokens.
#[derive(Clone, Copy, Debug, PartialEq, Eq, Structural)]
pub struct Price {
    /// Price of a million input tokens.
    pub input_per_million: MicroDollars,
    /// Price of a million output tokens.
    pub output_per_million: MicroDollars,
}

/// Tokens that a request used.
#[derive(Clone, Copy, Debug, PartialEq, Eq, Structural)]
pub struct Usage {
    /// Input tokens.
    pub input_tokens: u64,
    /// Output tokens.
    pub output_tokens: u64,
}

impl Default for Usage {
    fn default() -> (r: Usage)
        ensures
            r.input_tokens == 0,
            r.output_tokens == 0,
    {
        Usage { input_tokens: 0, output_tokens: 0 }
    }
}

impl Usage {
    /// Builds a usage record.
    pub fn new(input_tokens: u64, output_tokens: u64) -> (r: Usage)
        ensures
            r.input_tokens == input_tokens,
            r.output_tokens == output_tokens,
    {
        Usage { input_tokens, output_tokens }
    }
}

/// A text made of decimal digits only.
pub open spec fn all_digits(s: Seq<char>) -> bool {
    forall|i: int| 0 <= i < s.len() ==> is_digit(#[trigger] s[i])
}

/// A price text without its dollar sign.
pub open spec fn without_dollar(s: Seq<char>) -> Seq<char> {
    if s.len() > 0 && s[0] == '$' {
        s.skip(1)
    } else {
        s
    }
}

/// The digits before the point.
pub open spec fn whole_part(s: Seq<char>) -> Seq<char> {
    s.take(index_from(s, '.', 0))
}

/// The digits behind the point.
pub open spec fn fraction_part(s: Seq<char>) -> Seq<char> {
    let at = index_from(s, '.', 0);
    if at < s.len() {
        s.skip(at + 1)
    } else {
        Seq::empty()
    }
}

/// A power of ten.
pub open spec fn ten_to(n: int) -> int
    decreases n,
{
    if n <= 0 {
        1
    } else {
        10 * ten_to(n - 1)
    }
}

/// The fraction digits that count: at most six.
pub open spec fn kept_digits(fraction: Seq<char>) -> Seq<char> {
    if fraction.len() <= 6 {
        fraction
    } else {
        fraction.take(6)
    }
}

/// Whether a digit other than zero follows those that count.
pub open spec fn rounds_up(fraction: Seq<char>) -> bool {
    exists|i: int| 6 <= i < fraction.len() && #[trigger] fraction[i] != '0'
}

/// The millionths that the counting fraction digits stand for.
pub open spec fn kept_micros(fraction: Seq<char>) -> int {
    digits_value(kept_digits(fraction)) * ten_to(6 - kept_digits(fraction).len())
}

/// The millionths that fraction digits stand for: six digits count, further ones round up.
#[verifier::opaque]
pub open spec fn fraction_micros(fraction: Seq<char>) -> int {
    if rounds_up(fraction) {
        kept_micros(fraction) + 1
    } else {
        kept_micros(fraction)
    }
}

/// The amount that a price text denotes, rounded up to a millionth of a dollar, or the message
/// about why it denotes none.
pub open spec fn price_result(text: Seq<char>) -> Result<u64, Seq<char>> {
    let s = without_dollar(text);
    let whole = whole_part(s);
    let fraction = fraction_part(s);
    if whole.len() == 0 || !all_digits(whole) || !all_digits(fraction) {
        Err("price must be a non-negative decimal"@)
    } else if digits_value(whole) > u64::MAX {
        Err("price is too large"@)
    } else if digits_value(whole) * 1_000_000 + fraction_micros(fraction) > u64::MAX {
        Err("price arithmetic overflow"@)
    } else {
        Ok((digits_value(whole) * 1_000_000 + fraction_micros(fraction)) as u64)
    }
}

fn only_digits(chars: &[char], start: usize, end: usize) -> (r: bool)
    requires
        start <= end <= chars@.len(),
    ensures
        r == all_digits(chars@.subrange(start as int, end as int)),
{
    let ghost s = chars@.subrange(start as int, end as int);
    let mut i: usize = start;
    while i < end
        invariant
            start <= i <= end <= chars@.len(),
            s == chars@.subrange(start as int, end as int),
            forall|k: int| 0 <= k < i - start ==> is_digit(#[trigger] s[k]),
        decreases end - i,
    {
        let c = chars[i];
        assert(s[i - start] == c);
        if !('0' <= c && c <= '9') {
            return false;
        }
        i += 1;
    }
    true
}

fn fraction_value(chars: &[char], start: usize) -> (r: u64)
    requires
        start <= chars@.len(),
        all_digits(chars@.skip(start as int)),
    ensures
        r == fraction_micros(chars@.skip(start as int)),
        r <= 1_000_000,
{
    let n: usize = chars.len();
    let ghost fraction = chars@.skip(start as int);
    let kept_length: usize = if n - start <= 6 {
        n - start
    } else {
        6
    };
    let ghost kept = kept_digits(fraction);
    assert(kept =~= fraction.take(kept_length as int));
    let mut value: u64 = 0;
    let mut i: usize = 0;
    while i < kept_length
        invariant
            i <= kept_length <= 6,
            start + kept_length <= n,
            n == chars@.len(),
            fraction == chars@.skip(start as int),
            all_digits(fraction),
            kept == fraction.take(kept_length as int),
            value == digits_value(kept.take(i as int)),
            value < ten_to(i as int),
        decreases kept_length - i,
    {
        let c = chars[start + i];
        assert(fraction[i as int] == c);
        assert(is_digit(fraction[i as int]));
        assert(kept.take(i + 1).drop_last() =~= kept.take(i as int));
        assert(ten_to(i as int) <= 100_000) by {
            reveal_with_fuel(ten_to, 8);
        }
        value = value * 10 + (c as u32 - 48) as u64;
        i += 1;
    }
    assert(kept.take(kept_length as int) =~= kept);
    let mut k: usize = kept_length;
    assert(ten_to(0) == 1);
    assert(digits_value(kept) * ten_to(0) == digits_value(kept)) by (nonlinear_arith)
        requires
            ten_to(0) == 1,
    ;
    assert(ten_to(k as int) <= 1_000_000) by {
        reveal_with_fuel(ten_to, 8);
    }
    while k < 6
        invariant
            kept_length <= k <= 6,
            value == digits_value(kept) * ten_to(k - kept_length),
            value < ten_to(k as int),
            ten_to(k as int) <= 1_000_000,
        decreases 6 - k,
    {
        assert(ten_to(k as int + 1) == 10 * ten_to(k as int));
        assert(ten_to(k as int) <= 100_000) by {
            reveal_with_fuel(ten_to, 8);
        }
        assert(digits_value(kept) * ten_to(k - kept_length) * 10 == digits_value(kept) * ten_to(
            k - kept_length + 1,
        )) by (nonlinear_arith)
            requires
                ten_to(k - kept_length + 1) == 10 * ten_to(k - kept_length),
        ;
        value = value * 10;
        k += 1;
    }
    assert(ten_to(6) == 1_000_000) by {
        reveal_with_fuel(ten_to, 8);
    }
    assert(value == kept_micros(fraction));
    let mut j: usize = start + kept_length;
    while j < n
        invariant
            start + kept_length <= j <= n,
            kept_length == 6 || start + kept_length == n,
            n == chars@.len(),
            fraction == chars@.skip(start as int),
            value == kept_micros(fraction),
            value < 1_000_000,
            forall|x: int| 6 <= x < j - start ==> #[trigger] fraction[x] == '0',
        decreases n - j,
    {
        assert(fraction[j - start] == chars@[j as int]);
        if chars[j] != '0' {
            assert(rounds_up(fraction));
            reveal(fraction_micros);
            return value + 1;
        }
        j += 1;
    }
    assert(!rounds_up(fraction));
    reveal(fraction_micros);
    value
}

fn split_price(chars: &[char], start: usize) -> (r: (usize, usize))
    requires
        start <= chars@.len(),
    ensures
        start <= r.0 <= r.1 <= chars@.len(),
        whole_part(chars@.skip(start as int)) == chars@.subrange(start as int, r.0 as int),
        fraction_part(chars@.skip(start as int)) == chars@.skip(r.1 as int),
{
    let n: usize = chars.len();
    let ghost s = chars@.skip(start as int);
    let mut point: usize = start;
    while point < n && chars[point] != '.'
        invariant
            start <= point <= n,
            n == chars@.len(),
            s == chars@.skip(start as int),
            index_from(s, '.', 0) == index_from(s, '.', point - start),
        decreases n - point,
    {
        assert(s[point - start] == chars@[point as int]);
        point += 1;
    }
    if point < n {
        assert(s[point - start] == chars@[point as int]);
    }
    assert(index_from(s, '.', 0) == point - start);
    assert(whole_part(s) =~= chars@.subrange(start as int, point as int));
    let after: usize = if point < n {
        point + 1
    } else {
        n
    };
    assert(fraction_part(s) =~= chars@.skip(after as int));
    (point, after)
}

/// Reads a price in dollars.
fn parse_dollar_micros(text: &str) -> (r: Result<MicroDollars, String>)
    ensures
        price_result(text@) == (match r {
            Ok(amount) => Ok::<u64, Seq<char>>(amount@),
            Err(message) => Err(message@),
        }),
{
    let chars = to_chars(text);
    let n: usize = chars.len();
    let start: usize = if n > 0 && chars[0] == '$' {
        1
    } else {
        0
    };
    let ghost s = without_dollar(text@);
    assert(s =~= chars@.skip(start as int));
    let (point, after) = split_price(chars.as_slice(), start);
    let ghost whole = whole_part(s);
    let ghost fraction = fraction_part(s);
    assert(chars@.subrange(after as int, n as int) =~= fraction);
    if point == start || !only_digits(chars.as_slice(), start, point) || !only_digits(
        chars.as_slice(),
        after,
        n,
    ) {
        return Err("price must be a non-negative decimal".to_owned());
    }
    let whole_text = from_chars(chars.as_slice(), start, point);
    assert(whole_text@ == whole);
    proof {
        lemma_plain_number(whole);
    }
    match parse_u64(whole_text.as_str()) {
        None => Err("price is too large".to_owned()),
        Some(dollars) => {
            let micros: u64 = fraction_value(chars.as_slice(), after);
            if dollars > (u64::MAX - micros) / 1_000_000 {
                Err("price arithmetic overflow".to_owned())
            } else {
                Ok(MicroDollars(dollars * 1_000_000 + micros))
            }
        },
    }
}

proof fn lemma_plain_number(s: Seq<char>)
    requires
        s.len() > 0,
        all_digits(s),
    ensures
        parsed_u64(s) == (if digits_value(s) <= u64::MAX {
            Some(digits_value(s) as u64)
        } else {
            None
        }),
{
    assert(is_digit(s[0]));
    assert(crate::text::unsigned_digits(s) == s);
}

/// The exact price of a usage in millionths of a microdollar.
pub open spec fn exact_price(price: Price, usage: Usage) -> int {
    usage.input_tokens * price.input_per_million@ + usage.output_tokens
        * price.output_per_million@
}

/// The exact price of a usage rounded up to whole microdollars, or the message about an overflow.
pub open spec fn cost_result(price: Price, usage: Usage) -> Result<int, Seq<char>> {
    let cost = (exact_price(price, usage) + 999_999) / 1_000_000;
    if cost > u64::MAX {
        Err("cost arithmetic overflow"@)
    } else {
        Ok(cost)
    }
}

fn charge(tokens: u64, price: MicroDollars) -> (r: u128)
    ensures
        r == tokens * price@,
        r <= 0xffff_ffff_ffff_ffff * 0xffff_ffff_ffff_ffff,
{
    assert(0 <= tokens * price.0 <= 0xffff_ffff_ffff_ffff * 0xffff_ffff_ffff_ffff)
        by (nonlinear_arith)
        requires
            0 <= tokens <= 0xffff_ffff_ffff_ffff,
            0 <= price.0 <= 0xffff_ffff_ffff_ffff,
    ;
    (tokens as u128) * (price.0 as u128)
}

impl Price {
    /// Reads the prices of a million input and output tokens in dollars.
    pub fn parse_per_million(input: &str, output: &str) -> (r: Result<Price, String>)
        ensures
            match (price_result(input@), price_result(output@)) {
                (Err(message), _) => r is Err && r->Err_0@ == message,
                (Ok(_), Err(message)) => r is Err && r->Err_0@ == message,
                (Ok(a), Ok(b)) => r is Ok && r->Ok_0.input_per_million@ == a
                    && r->Ok_0.output_per_million@ == b,
            },
    {
        match parse_dollar_micros(input) {
            Err(message) => Err(message),
            Ok(input_per_million) => match parse_dollar_micros(output) {
                Err(message) => Err(message),
                Ok(output_per_million) => Ok(Price { input_per_million, output_per_million }),
            },
        }
    }

    /// Returns the exact price of a usage, rounded up to whole microdollars.
    pub fn cost_for(&self, usage: Usage) -> (r: Result<MicroDollars, String>)
        ensures
            cost_result(*self, usage) == (match r {
                Ok(amount) => Ok::<int, Seq<char>>(amount@ as int),
                Err(message) => Err(message@),
            }),
    {
        let input = charge(usage.input_tokens, self.input_per_million);
        let output = charge(usage.output_tokens, self.output_per_million);
        if input > u128::MAX - 999_999 - output {
            return Err("cost arithmetic overflow".to_owned());
        }
        let cost: u128 = (input + output + 999_999) / 1_000_000;
        if cost > u64::MAX as u128 {
            return Err("cost arithmetic overflow".to_owned());
        }
        Ok(MicroDollars(cost as u64))
    }
}

/// Money that is held back for a request.
#[derive(Debug, PartialEq, Eq)]
pub struct Reservation {
    /// Request.
    pub request_id: EntityId,
    /// Chapter that pays.
    pub chapter_id: String,
    /// Amount.
    pub reserved_cost: MicroDollars,
    /// Whether the chapter crossed the warning threshold with it.
    pub warning_required: bool,
}

/// A reservation by the views of its fields.
pub struct ReservationModel {
    pub request_id: Seq<char>,
    pub chapter_id: Seq<char>,
    pub reserved_cost: u64,
    pub warning_required: bool,
}

impl View for Reservation {
    type V = ReservationModel;

    open spec fn view(&self) -> ReservationModel {
        ReservationModel {
            request_id: self.request_id@,
            chapter_id: self.chapter_id@,
            reserved_cost: self.reserved_cost@,
            warning_required: self.warning_required,
        }
    }
}

/// The views of reservations.
pub open spec fn reservation_models(items: Seq<Reservation>) -> Seq<ReservationModel> {
    items.map_values(|item: Reservation| item@)
}

impl Reservation {
    /// Copies the reservation.
    pub fn copy(&self) -> (r: Reservation)
        ensures
            r@ == self@,
    {
        Reservation {
            request_id: self.request_id.copy(),
            chapter_id: self.chapter_id.clone(),
            reserved_cost: self.reserved_cost,
            warning_required: self.warning_required,
        }
    }
}

/// What a ledger stores durably.
#[derive(Debug)]
pub enum LedgerEvent {
    /// Money was held back.
    Reserved {
        /// Reservation.
        reservation: Reservation,
    },
    /// A request was settled.
    Settled {
        /// Request.
        request_id: EntityId,
        /// Actual cost.
        actual_cost: MicroDollars,
    },
}

/// The JSON object of a reservation.
pub open spec fn reservation_json(r: ReservationModel) -> Seq<char> {
    "{\"request_id\":"@ + json_string(r.request_id) + ",\"chapter_id\":"@ + json_string(
        r.chapter_id,
    ) + ",\"reserved_cost\":"@ + decimal(r.reserved_cost as nat) + ",\"warning_required\":"@ + (
    if r.warning_required {
        "true"@
    } else {
        "false"@
    }) + "}"@
}

/// The line that stores an event.
pub open spec fn event_line(event: LedgerEvent) -> Seq<char> {
    match event {
        LedgerEvent::Reserved { reservation } => "{\"event\":\"reserved\",\"reservation\":"@
            + reservation_json(reservation@) + "}\n"@,
        LedgerEvent::Settled { request_id, actual_cost } =>
        "{\"event\":\"settled\",\"request_id\":"@ + json_string(request_id@)
            + ",\"actual_cost\":"@ + decimal(actual_cost@ as nat) + "}\n"@,
    }
}

impl LedgerEvent {
    /// Returns the line that stores the event.
    pub fn to_line(&self) -> (r: String)
        ensures
            r@ == event_line(*self),
    {
        match self {
            LedgerEvent::Reserved { reservation } => {
                let mut out = "{\"event\":\"reserved\",\"reservation\":".to_owned();
                let mut body = "{\"request_id\":".to_owned();
                body.append(json_quote(reservation.request_id.as_str()).as_str());
                body.append(",\"chapter_id\":");
                body.append(json_quote(reservation.chapter_id.as_str()).as_str());
                body.append(",\"reserved_cost\":");
                body.append(decimal_text(reservation.reserved_cost.0).as_str());
                body.append(",\"warning_required\":");
                if reservation.warning_required {
                    body.append("true");
                } else {
                    body.append("false");
                }
                body.append("}");
                out.append(body.as_str());
                out.append("}\n");
                out
            },
            LedgerEvent::Settled { request_id, actual_cost } => {
                let mut out = "{\"event\":\"settled\",\"request_id\":".to_owned();
                out.append(json_quote(request_id.as_str()).as_str());
                out.append(",\"actual_cost\":");
                out.append(decimal_text(actual_cost.0).as_str());
                out.append("}\n");
                out
            },
        }
    }
}

/// A ledger by the views of its fields.
pub struct LedgerModel {
    pub chapter_start: u64,
    pub run_start: u64,
    pub reservations: Seq<ReservationModel>,
    pub settled: Seq<Seq<char>>,
    pub warnings: Seq<Seq<char>>,
}

/// Money that is held back or spent, by request.
pub struct BudgetLedger {
    chapter_start: MicroDollars,
    run_start: MicroDollars,
    reservations: Vec<Reservation>,
    settled: Vec<String>,
    warnings: Vec<String>,
}

impl View for BudgetLedger {
    type V = LedgerModel;

    closed spec fn view(&self) -> LedgerModel {
        LedgerModel {
            chapter_start: self.chapter_start@,
            run_start: self.run_start@,
            reservations: reservation_models(self.reservations@),
            settled: texts(self.settled@),
            warnings: texts(self.warnings@),
        }
    }
}

/// The sum of reservations of a chapter.
pub open spec fn chapter_sum(list: Seq<ReservationModel>, chapter_id: Seq<char>) -> int
    decreases list.len(),
{
    if list.len() == 0 {
        0
    } else {
        chapter_sum(list.drop_last(), chapter_id) + if list.last().chapter_id == chapter_id {
            list.last().reserved_cost as int
        } else {
            0int
        }
    }
}

/// The sum of all reservations.
pub open spec fn run_sum(list: Seq<ReservationModel>) -> int
    decreases list.len(),
{
    if list.len() == 0 {
        0
    } else {
        run_sum(list.drop_last()) + list.last().reserved_cost
    }
}

/// What a chapter cost so far.
pub open spec fn chapter_total(l: LedgerModel, chapter_id: Seq<char>) -> int {
    l.chapter_start + chapter_sum(l.reservations, chapter_id)
}

/// What the run cost so far.
pub open spec fn run_total(l: LedgerModel) -> int {
    l.run_start + run_sum(l.reservations)
}

/// The most that a chapter may cost.
pub const CHAPTER_CAP: u64 = 10_000_000;

/// The cost of a chapter beyond which a human is warned.
pub const CHAPTER_WARNING: u64 = 5_000_000;

/// The most that a run may cost.
pub const RUN_CAP: u64 = 120_000_000;

proof fn lemma_chapter_sum_grows(list: Seq<ReservationModel>, chapter_id: Seq<char>, k: int)
    requires
        0 <= k <= list.len(),
    ensures
        0 <= chapter_sum(list.take(k), chapter_id) <= chapter_sum(list, chapter_id),
    decreases list.len(),
{
    if list.len() > 0 {
        if k == list.len() {
            assert(list.take(k) =~= list);
            lemma_chapter_sum_grows(list.drop_last(), chapter_id, 0);
            assert(list.drop_last().take(0) =~= Seq::<ReservationModel>::empty());
        } else {
            lemma_chapter_sum_grows(list.drop_last(), chapter_id, k);
            assert(list.drop_last().take(k) =~= list.take(k));
        }
    }
}

proof fn lemma_run_sum_grows(list: Seq<ReservationModel>, k: int)
    requires
        0 <= k <= list.len(),
    ensures
        0 <= run_sum(list.take(k)) <= run_sum(list),
    decreases list.len(),
{
    if list.len() > 0 {
        if k == list.len() {
            assert(list.take(k) =~= list);
            lemma_run_sum_grows(list.drop_last(), 0);
            assert(list.drop_last().take(0) =~= Seq::<ReservationModel>::empty());
        } else {
            lemma_run_sum_grows(list.drop_last(), k);
            assert(list.drop_last().take(k) =~= list.take(k));
        }
    }
}

/// The position of a request among reservations.
pub open spec fn request_position(list: Seq<ReservationModel>, request_id: Seq<char>, i: int) -> Option<
    int,
>
    decreases list.len() - i,
{
    if i < 0 || i >= list.len() {
        None
    } else if list[i].request_id == request_id {
        Some(i)
    } else {
        request_position(list, request_id, i + 1)
    }
}

/// The message about a reservation that may not be made, where there is one.
pub open spec fn reserve_error(l: LedgerModel, chapter_id: Seq<char>, cost: u64) -> Option<
    Seq<char>,
> {
    if chapter_id.len() == 0 {
        Some("chapter ID is required"@)
    } else if chapter_total(l, chapter_id) + cost > u64::MAX {
        Some("microdollar arithmetic overflow"@)
    } else if chapter_total(l, chapter_id) + cost > CHAPTER_CAP {
        Some("chapter budget would exceed $10"@)
    } else if run_total(l) + cost > u64::MAX {
        Some("microdollar arithmetic overflow"@)
    } else if run_total(l) + cost > RUN_CAP {
        Some("run budget would exceed $120"@)
    } else {
        None
    }
}

/// The reservation for a request: the first one beyond the warning threshold of a chapter warns.
pub open spec fn new_reservation(
    l: LedgerModel,
    request_id: Seq<char>,
    chapter_id: Seq<char>,
    cost: u64,
) -> ReservationModel {
    ReservationModel {
        request_id,
        chapter_id,
        reserved_cost: cost,
        warning_required: chapter_total(l, chapter_id) + cost > CHAPTER_WARNING
            && !l.warnings.contains(chapter_id),
    }
}

/// The reservations with one more, or with the one of the same request replaced.
pub open spec fn with_reservation(list: Seq<ReservationModel>, r: ReservationModel) -> Seq<
    ReservationModel,
> {
    match request_position(list, r.request_id, 0) {
        Some(i) => list.update(i, r),
        None => list.push(r),
    }
}

/// A ledger after a reservation.
pub open spec fn reserved(l: LedgerModel, r: ReservationModel) -> LedgerModel {
    LedgerModel {
        reservations: with_reservation(l.reservations, r),
        warnings: if r.warning_required {
            l.warnings.push(r.chapter_id)
        } else {
            l.warnings
        },
        ..l
    }
}

/// The message about a settlement that may not be made, where there is one.
pub open spec fn settle_error(l: LedgerModel, request_id: Seq<char>, cost: u64) -> Option<Seq<char>> {
    match request_position(l.reservations, request_id, 0) {
        None => if l.settled.contains(request_id) {
            Some("reservation is already settled"@)
        } else {
            Some("reservation is unknown"@)
        },
        Some(i) => if l.settled.contains(request_id) {
            Some("reservation is already settled"@)
        } else if cost > l.reservations[i].reserved_cost {
            Some("cost settlement exceeds its reservation"@)
        } else {
            None
        },
    }
}

/// A ledger after a settlement.
pub open spec fn settled(l: LedgerModel, request_id: Seq<char>, cost: u64) -> LedgerModel {
    let i = request_position(l.reservations, request_id, 0)->Some_0;
    LedgerModel {
        reservations: l.reservations.update(
            i,
            ReservationModel { reserved_cost: cost, ..l.reservations[i] },
        ),
        settled: l.settled.push(request_id),
        ..l
    }
}

impl BudgetLedger {
    /// Starts a ledger with what was spent before.
    pub fn new(chapter_cost: MicroDollars, run_cost: MicroDollars) -> (r: BudgetLedger)
        ensures
            r@ == empty_ledger(chapter_cost@, run_cost@),
    {
        let r = BudgetLedger {
            chapter_start: chapter_cost,
            run_start: run_cost,
            reservations: Vec::new(),
            settled: Vec::new(),
            warnings: Vec::new(),
        };
        proof {
            assert(r@.reservations =~= Seq::empty());
            assert(r@.settled =~= Seq::empty());
            assert(r@.warnings =~= Seq::empty());
        }
        r
    }

    /// Opens a ledger with the costs that a checkpoint holds and the events that were stored since;
    /// an event that cannot be read is absent.
    pub fn open_with_costs(
        chapter_cost: MicroDollars,
        run_cost: MicroDollars,
        events: Vec<Option<LedgerEvent>>,
    ) -> (r: Result<BudgetLedger, String>)
        ensures
            match replayed(empty_ledger(chapter_cost@, run_cost@), events@, 0) {
                Ok(ledger) => r is Ok && r->Ok_0@ == ledger,
                Err(error) => r is Err && r->Err_0@ == error,
            },
    {
        let mut ledger = BudgetLedger::new(chapter_cost, run_cost);
        let ghost start = ledger@;
        let ghost all = events@;
        let count: usize = events.len();
        let mut rest = events;
        assert(all.skip(0) =~= all);
        let mut i: usize = 0;
        while i < count
            invariant
                i <= count,
                count == all.len(),
                all == events@,
                rest@ == all.skip(i as int),
                start == empty_ledger(chapter_cost@, run_cost@),
                replayed(start, all, 0) == replayed(ledger@, all, i as int),
            decreases count - i,
        {
            match rest.remove(0) {
                Some(event) => match ledger.apply(event) {
                    Err(error) => {
                        return Err(error);
                    },
                    Ok(()) => {},
                },
                None => {
                    return Err("invalid cost ledger event".to_owned());
                },
            }
            assert(all.skip(i as int).remove(0) =~= all.skip(i + 1));
            i += 1;
        }
        Ok(ledger)
    }

    fn chapter_cost(&self, chapter_id: &str) -> (r: Option<u64>)
        ensures
            match r {
                Some(total) => total == chapter_total(self@, chapter_id@),
                None => chapter_total(self@, chapter_id@) > u64::MAX,
            },
    {
        let ghost all = self@.reservations;
        let mut total: u64 = self.chapter_start.0;
        let mut i: usize = 0;
        assert(all.take(0) =~= Seq::<ReservationModel>::empty());
        while i < self.reservations.len()
            invariant
                i <= self.reservations@.len(),
                all == self@.reservations,
                total == self@.chapter_start + chapter_sum(all.take(i as int), chapter_id@),
            decreases self.reservations@.len() - i,
        {
            let item = &self.reservations[i];
            assert(all.take(i + 1).drop_last() =~= all.take(i as int));
            assert(all.take(i + 1).last() == item@);
            proof {
                lemma_chapter_sum_grows(all, chapter_id@, i + 1);
            }
            if str_eq(item.chapter_id.as_str(), chapter_id) {
                if total > u64::MAX - item.reserved_cost.0 {
                    return None;
                }
                total = total + item.reserved_cost.0;
            }
            i += 1;
        }
        assert(all.take(all.len() as int) =~= all);
        Some(total)
    }

    fn run_cost(&self) -> (r: Option<u64>)
        ensures
            match r {
                Some(total) => total == run_total(self@),
                None => run_total(self@) > u64::MAX,
            },
    {
        let ghost all = self@.reservations;
        let mut total: u64 = self.run_start.0;
        let mut i: usize = 0;
        assert(all.take(0) =~= Seq::<ReservationModel>::empty());
        while i < self.reservations.len()
            invariant
                i <= self.reservations@.len(),
                all == self@.reservations,
                total == self@.run_start + run_sum(all.take(i as int)),
            decreases self.reservations@.len() - i,
        {
            let item = &self.reservations[i];
            assert(all.take(i + 1).drop_last() =~= all.take(i as int));
            assert(all.take(i + 1).last() == item@);
            proof {
                lemma_run_sum_grows(all, i + 1);
            }
            if total > u64::MAX - item.reserved_cost.0 {
                return None;
            }
            total = total + item.reserved_cost.0;
            i += 1;
        }
        assert(all.take(all.len() as int) =~= all);
        Some(total)
    }

    fn find_request(&self, request_id: &EntityId) -> (r: Option<usize>)
        ensures
            match r {
                Some(i) => i < self.reservations@.len() && request_position(
                    self@.reservations,
                    request_id@,
                    0,
                ) == Some(i as int),
                None => request_position(self@.reservations, request_id@, 0) is None,
            },
    {
        let ghost all = self@.reservations;
        let mut i: usize = 0;
        while i < self.reservations.len()
            invariant
                i <= self.reservations@.len(),
                all == self@.reservations,
                request_position(all, request_id@, 0) == request_position(
                    all,
                    request_id@,
                    i as int,
                ),
            decreases self.reservations@.len() - i,
        {
            assert(all[i as int] == self.reservations@[i as int]@);
            if self.reservations[i].request_id.same(request_id) {
                return Some(i);
            }
            i += 1;
        }
        None
    }

    fn record(&mut self, reservation: Reservation)
        ensures
            final(self)@ == (LedgerModel {
                reservations: with_reservation(old(self)@.reservations, reservation@),
                ..old(self)@
            }),
    {
        let ghost before = self@.reservations;
        let ghost item = reservation@;
        match self.find_request(&reservation.request_id) {
            Some(i) => {
                self.reservations.set(i, reservation);
                assert(self@.reservations =~= before.update(i as int, item));
            },
            None => {
                self.reservations.push(reservation);
                assert(self@.reservations =~= before.push(item));
            },
        }
    }

    /// Holds money back for a given request, as long as the chapter stays within $10 and the run
    /// within $120.
    pub fn reserve_for(&mut self, request_id: EntityId, chapter_id: &str, maximum_cost: MicroDollars) -> (r:
        Result<Reservation, String>)
        ensures
            match r {
                Ok(reservation) => reserve_error(old(self)@, chapter_id@, maximum_cost@) is None
                    && reservation@ == new_reservation(
                    old(self)@,
                    request_id@,
                    chapter_id@,
                    maximum_cost@,
                ) && final(self)@ == reserved(old(self)@, reservation@),
                Err(message) => reserve_error(old(self)@, chapter_id@, maximum_cost@) == Some(
                    message@,
                ) && final(self)@ == old(self)@,
            },
    {
        if chapter_id.is_empty() {
            return Err("chapter ID is required".to_owned());
        }
        let chapter = match self.chapter_cost(chapter_id) {
            None => {
                return Err("microdollar arithmetic overflow".to_owned());
            },
            Some(total) => total,
        };
        if chapter > u64::MAX - maximum_cost.0 {
            return Err("microdollar arithmetic overflow".to_owned());
        }
        let chapter_after: u64 = chapter + maximum_cost.0;
        if chapter_after > CHAPTER_CAP {
            return Err("chapter budget would exceed $10".to_owned());
        }
        let run = match self.run_cost() {
            None => {
                return Err("microdollar arithmetic overflow".to_owned());
            },
            Some(total) => total,
        };
        if run > u64::MAX - maximum_cost.0 {
            return Err("microdollar arithmetic overflow".to_owned());
        }
        if run + maximum_cost.0 > RUN_CAP {
            return Err("run budget would exceed $120".to_owned());
        }
        proof {
            crate::text::lemma_has_text(self.warnings@, chapter_id@);
        }
        let warning_required = chapter_after > CHAPTER_WARNING && !contains_text(
            self.warnings.as_slice(),
            chapter_id,
        );
        let reservation = Reservation {
            request_id,
            chapter_id: chapter_id.to_owned(),
            reserved_cost: maximum_cost,
            warning_required,
        };
        let ghost warned = texts(self.warnings@);
        if warning_required {
            self.warnings.push(chapter_id.to_owned());
            assert(texts(self.warnings@) =~= warned.push(chapter_id@));
        }
        self.record(reservation.copy());
        Ok(reservation)
    }

    /// Holds money back for a new request.
    pub fn reserve(&mut self, chapter_id: &str, maximum_cost: MicroDollars) -> (r: Result<
        Reservation,
        String,
    >)
        ensures
            match r {
                Ok(reservation) => reserve_error(old(self)@, chapter_id@, maximum_cost@) is None
                    && is_id_of(reservation@.request_id, EntityKind::Request) && reservation@
                    == new_reservation(
                    old(self)@,
                    reservation@.request_id,
                    chapter_id@,
                    maximum_cost@,
                ) && final(self)@ == reserved(old(self)@, reservation@),
                Err(message) => reserve_error(old(self)@, chapter_id@, maximum_cost@) == Some(
                    message@,
                ) && final(self)@ == old(self)@,
            },
    {
        let request_id = prefixed_uuid(EntityKind::Request);
        self.reserve_for(request_id, chapter_id, maximum_cost)
    }

    /// Takes back a reservation that could not be stored.
    pub fn cancel(&mut self, reservation: &Reservation)
        ensures
            final(self)@ == cancelled(old(self)@, reservation@),
    {
        match self.find_request(&reservation.request_id) {
            Some(i) => {
                let ghost before = self@.reservations;
                let _ = self.reservations.remove(i);
                assert(self@.reservations =~= before.remove(i as int));
            },
            None => {},
        }
        if reservation.warning_required {
            let ghost warned = texts(self.warnings@);
            let mut i: usize = 0;
            while i < self.warnings.len() && !(self.warnings[i] == reservation.chapter_id)
                invariant
                    i <= self.warnings@.len(),
                    warned == texts(self.warnings@),
                    crate::context::position(warned, reservation.chapter_id@, 0)
                        == crate::context::position(warned, reservation.chapter_id@, i as int),
                decreases self.warnings@.len() - i,
            {
                assert(warned[i as int] == self.warnings@[i as int]@);
                i += 1;
            }
            if i < self.warnings.len() {
                assert(warned[i as int] == self.warnings@[i as int]@);
                let _ = self.warnings.remove(i);
                assert(texts(self.warnings@) =~= warned.remove(i as int));
            }
        }
    }

    /// Tries a reservation whose storage fails: nothing is held back.
    pub fn reserve_with_persist_failure_for_test(
        &mut self,
        chapter_id: &str,
        maximum_cost: MicroDollars,
    ) -> (r: Result<Reservation, String>)
        ensures
            r is Err,
            match reserve_error(old(self)@, chapter_id@, maximum_cost@) {
                Some(message) => r->Err_0@ == message && final(self)@ == old(self)@,
                None => r->Err_0@ == "simulated cost ledger persistence failure"@ && exists|
                    id: Seq<char>,
                |
                    is_id_of(id, EntityKind::Request) && final(self)@ == #[trigger] unstored(
                        old(self)@,
                        id,
                        chapter_id@,
                        maximum_cost@,
                    ),
            },
    {
        match self.reserve(chapter_id, maximum_cost) {
            Err(message) => Err(message),
            Ok(reservation) => {
                self.cancel(&reservation);
                assert(self@ == unstored(
                    old(self)@,
                    reservation@.request_id,
                    chapter_id@,
                    maximum_cost@,
                ));
                Err("simulated cost ledger persistence failure".to_owned())
            },
        }
    }

    /// Replaces a reservation by the actual cost, which may not exceed it.  Returns the
    /// reservation as it was.
    pub fn settle(&mut self, request_id: &EntityId, actual_cost: MicroDollars) -> (r: Result<
        Reservation,
        String,
    >)
        ensures
            match r {
                Ok(original) => settle_error(old(self)@, request_id@, actual_cost@) is None
                    && final(self)@ == settled(old(self)@, request_id@, actual_cost@) && original@
                    == old(self)@.reservations[request_position(
                    old(self)@.reservations,
                    request_id@,
                    0,
                )->Some_0],
                Err(message) => settle_error(old(self)@, request_id@, actual_cost@) == Some(
                    message@,
                ) && final(self)@ == old(self)@,
            },
    {
        proof {
            crate::text::lemma_has_text(self.settled@, request_id@);
        }
        if contains_text(self.settled.as_slice(), request_id.as_str()) {
            return Err("reservation is already settled".to_owned());
        }
        match self.find_request(request_id) {
            None => Err("reservation is unknown".to_owned()),
            Some(i) => {
                let ghost before = self@.reservations;
                let ghost done = texts(self.settled@);
                assert(before[i as int] == self.reservations@[i as int]@);
                let original = self.reservations[i].copy();
                if actual_cost.0 > original.reserved_cost.0 {
                    return Err("cost settlement exceeds its reservation".to_owned());
                }
                let mut updated = original.copy();
                updated.reserved_cost = actual_cost;
                self.reservations.set(i, updated);
                assert(self@.reservations =~= before.update(
                    i as int,
                    ReservationModel { reserved_cost: actual_cost@, ..before[i as int] },
                ));
                self.settled.push(request_id.as_str().to_owned());
                assert(texts(self.settled@) =~= done.push(request_id@));
                Ok(original)
            },
        }
    }

    /// Takes back a settlement that could not be stored, given the reservation as it was.
    pub fn unsettle(&mut self, original: &Reservation)
        ensures
            final(self)@ == unsettled(old(self)@, original@),
    {
        self.record(original.copy());
        let ghost done = texts(self.settled@);
        let mut i: usize = 0;
        while i < self.settled.len() && !str_eq(
            self.settled[i].as_str(),
            original.request_id.as_str(),
        )
            invariant
                i <= self.settled@.len(),
                done == texts(self.settled@),
                crate::context::position(done, original.request_id@, 0)
                    == crate::context::position(done, original.request_id@, i as int),
            decreases self.settled@.len() - i,
        {
            assert(done[i as int] == self.settled@[i as int]@);
            i += 1;
        }
        if i < self.settled.len() {
            assert(done[i as int] == self.settled@[i as int]@);
            let _ = self.settled.remove(i);
            assert(texts(self.settled@) =~= done.remove(i as int));
        }
    }

    /// Keeps the reservation of a request whose outcome is unknown: it must be on record, and
    /// nothing changes.
    pub fn retain_ambiguous(&self, reservation: &Reservation) -> (r: Result<(), String>)
        ensures
            match r {
                Ok(()) => request_position(self@.reservations, reservation@.request_id, 0) is Some,
                Err(message) => message@ == "reservation is unknown"@ && request_position(
                    self@.reservations,
                    reservation@.request_id,
                    0,
                ) is None,
            },
    {
        match self.find_request(&reservation.request_id) {
            Some(_) => Ok(()),
            None => Err("reservation is unknown".to_owned()),
        }
    }

    /// Replays a stored event.
    pub fn apply(&mut self, event: LedgerEvent) -> (r: Result<(), String>)
        ensures
            match r {
                Ok(()) => replay_result(old(self)@, event) == Ok::<LedgerModel, Seq<char>>(
                    final(self)@,
                ),
                Err(message) => replay_result(old(self)@, event) == Err::<LedgerModel, Seq<char>>(
                    message@,
                ) && final(self)@ == old(self)@,
            },
    {
        match event {
            LedgerEvent::Reserved { reservation } => {
                if self.find_request(&reservation.request_id).is_some() {
                    return Err("duplicate reservation event".to_owned());
                }
                let ghost warned = texts(self.warnings@);
                proof {
                    crate::text::lemma_has_text(self.warnings@, reservation.chapter_id@);
                }
                if reservation.warning_required && !contains_text(
                    self.warnings.as_slice(),
                    reservation.chapter_id.as_str(),
                ) {
                    self.warnings.push(reservation.chapter_id.clone());
                    assert(texts(self.warnings@) =~= warned.push(reservation.chapter_id@));
                }
                self.record(reservation);
                Ok(())
            },
            LedgerEvent::Settled { request_id, actual_cost } => match self.settle(
                &request_id,
                actual_cost,
            ) {
                Err(message) => Err(message),
                Ok(_) => Ok(()),
            },
        }
    }

    /// Returns what a chapter and the run cost so far, unless a sum overflows.
    pub fn totals(&self, chapter_id: &str) -> (r: Option<(MicroDollars, MicroDollars)>)
        ensures
            match r {
                Some(pair) => pair.0@ == chapter_total(self@, chapter_id@) && pair.1@ == run_total(
                    self@,
                ),
                None => chapter_total(self@, chapter_id@) > u64::MAX || run_total(self@)
                    > u64::MAX,
            },
    {
        match (self.chapter_cost(chapter_id), self.run_cost()) {
            (Some(chapter), Some(run)) => Some((MicroDollars(chapter), MicroDollars(run))),
            _ => None,
        }
    }
}

/// A ledger after a reservation was taken back.
pub open spec fn cancelled(l: LedgerModel, r: ReservationModel) -> LedgerModel {
    LedgerModel {
        reservations: match request_position(l.reservations, r.request_id, 0) {
            Some(i) => l.reservations.remove(i),
            None => l.reservations,
        },
        warnings: if r.warning_required {
            crate::context::without_first(l.warnings, r.chapter_id)
        } else {
            l.warnings
        },
        ..l
    }
}

/// A ledger after a reservation under an identifier was made and cancelled.
pub open spec fn unstored(
    l: LedgerModel,
    request_id: Seq<char>,
    chapter_id: Seq<char>,
    maximum_cost: u64,
) -> LedgerModel {
    let reservation = new_reservation(l, request_id, chapter_id, maximum_cost);
    cancelled(reserved(l, reservation), reservation)
}

/// A ledger after a settlement was taken back.
pub open spec fn unsettled(l: LedgerModel, original: ReservationModel) -> LedgerModel {
    LedgerModel {
        reservations: with_reservation(l.reservations, original),
        settled: crate::context::without_first(l.settled, original.request_id),
        ..l
    }
}

/// A ledger after a stored event, or the message about why it cannot have happened.
pub open spec fn replay_result(l: LedgerModel, event: LedgerEvent) -> Result<LedgerModel, Seq<char>> {
    match event {
        LedgerEvent::Reserved { reservation } => if request_position(
            l.reservations,
            reservation@.request_id,
            0,
        ) is Some {
            Err("duplicate reservation event"@)
        } else {
            Ok(
                LedgerModel {
                    reservations: with_reservation(l.reservations, reservation@),
                    warnings: if reservation@.warning_required && !l.warnings.contains(
                        reservation@.chapter_id,
                    ) {
                        l.warnings.push(reservation@.chapter_id)
                    } else {
                        l.warnings
                    },
                    ..l
                },
            )
        },
        LedgerEvent::Settled { request_id, actual_cost } => match settle_error(
            l,
            request_id@,
            actual_cost@,
        ) {
            Some(message) => Err(message),
            None => Ok(settled(l, request_id@, actual_cost@)),
        },
    }
}

/// A ledger after stored events from a position on, or the message of the first one that cannot be
/// read or cannot have happened.
pub open spec fn replayed(l: LedgerModel, events: Seq<Option<LedgerEvent>>, i: int) -> Result<
    LedgerModel,
    Seq<char>,
>
    decreases events.len() - i,
{
    if i < 0 || i >= events.len() {
        Ok(l)
    } else {
        match events[i] {
            None => Err("invalid cost ledger event"@),
            Some(event) => match replay_result(l, event) {
                Err(error) => Err(error),
                Ok(next) => replayed(next, events, i + 1),
            },
        }
    }
}

/// A ledger in which nothing is held back.
pub open spec fn empty_ledger(chapter_cost: u64, run_cost: u64) -> LedgerModel {
    LedgerModel {
        chapter_start: chapter_cost,
        run_start: run_cost,
        reservations: Seq::empty(),
        settled: Seq::empty(),
        warnings: Seq::empty(),
    }
}

/// The lines of a ledger file: it is empty or ends with a line end; empty lines count for
/// nothing.
pub open spec fn ledger_lines(bytes: Seq<u8>, from: int, lines: Seq<Seq<u8>>) -> Option<Seq<Seq<u8>>>
    decreases bytes.len() - from,
    when 0 <= from
{
    if from >= bytes.len() {
        Some(lines)
    } else {
        match crate::project::line_end_from(bytes, from) {
            None => None,
            Some(end) => if from < end <= bytes.len() {
                ledger_lines(
                    bytes,
                    end,
                    if end == from + 1 {
                        lines
                    } else {
                        lines.push(bytes.subrange(from, end - 1))
                    },
                )
            } else {
                None
            },
        }
    }
}

/// The views of byte strings.
pub open spec fn byte_lines(items: Seq<Vec<u8>>) -> Seq<Seq<u8>> {
    items.map_values(|item: Vec<u8>| item@)
}

/// Splits a ledger file into its lines.
pub fn split_ledger(bytes: &[u8]) -> (r: Result<Vec<Vec<u8>>, String>)
    ensures
        match r {
            Ok(lines) => ledger_lines(bytes@, 0, Seq::empty()) == Some(byte_lines(lines@)),
            Err(message) => ledger_lines(bytes@, 0, Seq::empty()) is None && message@
                == "cost ledger has a truncated final event"@,
        },
{
    let n: usize = bytes.len();
    let mut out: Vec<Vec<u8>> = Vec::new();
    let mut from: usize = 0;
    let ghost goal = ledger_lines(bytes@, 0, Seq::empty());
    assert(byte_lines(out@) =~= Seq::<Seq<u8>>::empty());
    while from < n
        invariant
            from <= n,
            n == bytes@.len(),
            goal == ledger_lines(bytes@, 0, Seq::empty()),
            goal == ledger_lines(bytes@, from as int, byte_lines(out@)),
        decreases n - from,
    {
        let mut i: usize = from;
        let mut line: Vec<u8> = Vec::new();
        while i < n && bytes[i] != 10
            invariant
                from <= i <= n,
                n == bytes@.len(),
                line@ == bytes@.subrange(from as int, i as int),
                crate::project::line_end_from(bytes@, from as int)
                    == crate::project::line_end_from(bytes@, i as int),
            decreases n - i,
        {
            line.push(bytes[i]);
            i += 1;
            assert(line@ =~= bytes@.subrange(from as int, i as int));
        }
        if i == n {
            return Err("cost ledger has a truncated final event".to_owned());
        }
        if i > from {
            let ghost before = byte_lines(out@);
            let ghost item = line@;
            out.push(line);
            assert(byte_lines(out@) =~= before.push(item));
        }
        from = i + 1;
    }
    Ok(out)
}

/// No reservation takes a chapter beyond $10 or the run beyond $120.
pub proof fn reservations_keep_caps(l: LedgerModel, r: ReservationModel)
    requires
        reserve_error(l, r.chapter_id, r.reserved_cost) is None,
        request_position(l.reservations, r.request_id, 0) is None,
    ensures
        chapter_total(reserved(l, r), r.chapter_id) <= CHAPTER_CAP,
        run_total(reserved(l, r)) <= RUN_CAP,
{
    let after = reserved(l, r).reservations;
    assert(after.drop_last() =~= l.reservations);
    assert(after.last() == r);
}

proof fn lemma_update_sums(
    list: Seq<ReservationModel>,
    i: int,
    cost: u64,
    chapter_id: Seq<char>,
)
    requires
        0 <= i < list.len(),
    ensures
        ({
            let after = list.update(i, ReservationModel { reserved_cost: cost, ..list[i] });
            &&& chapter_sum(after, chapter_id) == if list[i].chapter_id == chapter_id {
                chapter_sum(list, chapter_id) - list[i].reserved_cost + cost
            } else {
                chapter_sum(list, chapter_id)
            }
            &&& run_sum(after) == run_sum(list) - list[i].reserved_cost + cost
        }),
    decreases list.len(),
{
    let item = ReservationModel { reserved_cost: cost, ..list[i] };
    let after = list.update(i, item);
    if i == list.len() - 1 {
        assert(after.drop_last() =~= list.drop_last());
    } else {
        lemma_update_sums(list.drop_last(), i, cost, chapter_id);
        assert(after.drop_last() =~= list.drop_last().update(i, item));
    }
}

proof fn lemma_request_position(list: Seq<ReservationModel>, request_id: Seq<char>, i: int)
    requires
        0 <= i,
        request_position(list, request_id, i) is Some,
    ensures
        i <= request_position(list, request_id, i)->Some_0 < list.len(),
        list[request_position(list, request_id, i)->Some_0].request_id == request_id,
    decreases list.len() - i,
{
    if i < list.len() && list[i].request_id != request_id {
        lemma_request_position(list, request_id, i + 1);
    }
}

/// Whether a ledger holds a reservation.
pub open spec fn holds(l: LedgerModel, r: ReservationModel) -> bool {
    request_position(l.reservations, r.request_id, 0) matches Some(i) && l.reservations[i] == r
}

/// A ledger holds a reservation that was made.
pub proof fn reservation_is_held(l: LedgerModel, r: ReservationModel)
    ensures
        holds(reserved(l, r), r),
{
    match request_position(l.reservations, r.request_id, 0) {
        Some(i) => {
            lemma_request_position(l.reservations, r.request_id, 0);
            lemma_same_position(
                l.reservations,
                reserved(l, r).reservations,
                r.request_id,
                0,
            );
        },
        None => {
            lemma_push_position(l.reservations, r, 0);
        },
    }
}

/// Reservations and settlements of other requests change nothing about a reservation: it is held
/// as before, and settled exactly where it was.
pub proof fn other_requests_keep_a_reservation(
    l: LedgerModel,
    r: ReservationModel,
    other: ReservationModel,
    cost: u64,
)
    requires
        holds(l, r),
        other.request_id != r.request_id,
    ensures
        holds(reserved(l, other), r),
        reserved(l, other).settled == l.settled,
        settle_error(l, other.request_id, cost) is None ==> {
            let next = settled(l, other.request_id, cost);
            holds(next, r) && next.settled.contains(r.request_id) == l.settled.contains(
                r.request_id,
            )
        },
{
    lemma_request_position(l.reservations, r.request_id, 0);
    match request_position(l.reservations, other.request_id, 0) {
        Some(j) => {
            lemma_request_position(l.reservations, other.request_id, 0);
            let list = l.reservations;
            lemma_same_position(list, list.update(j, other), r.request_id, 0);
            let item = ReservationModel { reserved_cost: cost, ..list[j] };
            lemma_same_position(list, list.update(j, item), r.request_id, 0);
            let next = l.settled.push(other.request_id);
            if l.settled.contains(r.request_id) {
                let k = choose|k: int| 0 <= k < l.settled.len() && l.settled[k] == r.request_id;
                assert(next[k] == r.request_id);
            }
            if next.contains(r.request_id) {
                let k = choose|k: int| 0 <= k < next.len() && next[k] == r.request_id;
                assert(l.settled[k] == r.request_id);
            }
        },
        None => {
            lemma_pushed_other_position(l.reservations, other, r.request_id, 0);
        },
    }
}

proof fn lemma_pushed_other_position(
    list: Seq<ReservationModel>,
    other: ReservationModel,
    request_id: Seq<char>,
    i: int,
)
    requires
        0 <= i,
        request_position(list, request_id, i) is Some,
    ensures
        request_position(list.push(other), request_id, i) == request_position(list, request_id, i),
    decreases list.len() - i,
{
    if i < list.len() && list[i].request_id != request_id {
        lemma_pushed_other_position(list, other, request_id, i + 1);
    }
}

/// An open reservation is settled exactly at costs that it covers.  From then on it counts at the
/// actual cost, for its chapter and for the run, and cannot be settled again; a cost beyond it is
/// refused, and the reservation can still be settled at what was held back.
pub proof fn settlement_counts_the_actual_cost(
    l: LedgerModel,
    r: ReservationModel,
    cost: u64,
    other: Seq<char>,
    again: u64,
)
    requires
        holds(l, r),
        !l.settled.contains(r.request_id),
    ensures
        settle_error(l, r.request_id, cost) is None <==> cost <= r.reserved_cost,
        settle_error(l, r.request_id, r.reserved_cost) is None,
        ({
            let next = settled(l, r.request_id, cost);
            &&& chapter_total(next, r.chapter_id) == chapter_total(l, r.chapter_id)
                - r.reserved_cost + cost
            &&& run_total(next) == run_total(l) - r.reserved_cost + cost
            &&& other != r.chapter_id ==> chapter_total(next, other) == chapter_total(l, other)
            &&& settle_error(next, r.request_id, again) == Some("reservation is already settled"@)
        }),
{
    let i = request_position(l.reservations, r.request_id, 0)->Some_0;
    lemma_request_position(l.reservations, r.request_id, 0);
    lemma_update_sums(l.reservations, i, cost, r.chapter_id);
    lemma_update_sums(l.reservations, i, cost, other);
    let next = settled(l, r.request_id, cost);
    assert(next.settled.last() == r.request_id);
}

/// A new reservation counts at what it holds back until it is settled, and at the actual cost from
/// then on: what was not needed is free again, for its chapter and for the run.  A settlement beyond
/// what it holds back is refused.
pub proof fn reserved_request_is_settled(
    l: LedgerModel,
    request_id: Seq<char>,
    chapter_id: Seq<char>,
    maximum: u64,
    actual: u64,
)
    requires
        reserve_error(l, chapter_id, maximum) is None,
        request_position(l.reservations, request_id, 0) is None,
        !l.settled.contains(request_id),
    ensures
        ({
            let held = reserved(l, new_reservation(l, request_id, chapter_id, maximum));
            let done = settled(held, request_id, actual);
            &&& chapter_total(held, chapter_id) == chapter_total(l, chapter_id) + maximum
            &&& run_total(held) == run_total(l) + maximum
            &&& settle_error(held, request_id, actual) is None <==> actual <= maximum
            &&& chapter_total(done, chapter_id) == chapter_total(l, chapter_id) + actual
            &&& run_total(done) == run_total(l) + actual
        }),
{
    let r = new_reservation(l, request_id, chapter_id, maximum);
    let held = reserved(l, r);
    assert(held.reservations.drop_last() =~= l.reservations);
    reservation_is_held(l, r);
    settlement_counts_the_actual_cost(held, r, actual, chapter_id, actual);
}

/// A reservation that was settled stays settled, whatever is reserved or settled after it, and one
/// that a ledger does not know is not settled.
pub proof fn settled_stays_settled(
    l: LedgerModel,
    request_id: Seq<char>,
    r: ReservationModel,
    cost: u64,
)
    ensures
        l.settled.contains(request_id) ==> {
            &&& settle_error(l, request_id, cost) == Some("reservation is already settled"@)
            &&& reserved(l, r).settled.contains(request_id)
            &&& settled(l, r.request_id, cost).settled.contains(request_id)
        },
        request_position(l.reservations, request_id, 0) is None && !l.settled.contains(request_id)
            ==> settle_error(l, request_id, cost) == Some("reservation is unknown"@),
{
    if l.settled.contains(request_id) {
        let k = choose|k: int| 0 <= k < l.settled.len() && l.settled[k] == request_id;
        assert(l.settled.push(r.request_id)[k] == request_id);
    }
}

/// A settlement never raises the cost of a chapter or of the run.
pub proof fn settlement_never_raises_cost(
    l: LedgerModel,
    request_id: Seq<char>,
    cost: u64,
    chapter_id: Seq<char>,
)
    requires
        settle_error(l, request_id, cost) is None,
    ensures
        chapter_total(settled(l, request_id, cost), chapter_id) <= chapter_total(l, chapter_id),
        run_total(settled(l, request_id, cost)) <= run_total(l),
{
    lemma_request_position(l.reservations, request_id, 0);
    let i = request_position(l.reservations, request_id, 0)->Some_0;
    lemma_update_sums(l.reservations, i, cost, chapter_id);
}

/// A reservation of a new request that is taken back leaves the ledger as it was.
pub proof fn cancel_undoes_reserve(l: LedgerModel, r: ReservationModel)
    requires
        request_position(l.reservations, r.request_id, 0) is None,
        r.warning_required ==> !l.warnings.contains(r.chapter_id),
    ensures
        cancelled(reserved(l, r), r) == l,
{
    let after = reserved(l, r);
    lemma_push_position(l.reservations, r, 0);
    assert(after.reservations.remove(l.reservations.len() as int) =~= l.reservations);
    if r.warning_required {
        lemma_push_text_position(l.warnings, r.chapter_id, 0);
        assert(after.warnings.remove(l.warnings.len() as int) =~= l.warnings);
    }
}

proof fn lemma_push_position(list: Seq<ReservationModel>, r: ReservationModel, i: int)
    requires
        0 <= i <= list.len(),
        request_position(list, r.request_id, i) is None,
    ensures
        request_position(list.push(r), r.request_id, i) == Some(list.len() as int),
    decreases list.len() - i,
{
    if i < list.len() {
        lemma_push_position(list, r, i + 1);
    }
}

proof fn lemma_push_text_position(list: Seq<Seq<char>>, text: Seq<char>, i: int)
    requires
        0 <= i <= list.len(),
        !list.contains(text),
    ensures
        crate::context::position(list.push(text), text, i) == Some(list.len() as int),
    decreases list.len() - i,
{
    if i < list.len() {
        assert(list[i] != text);
        lemma_push_text_position(list, text, i + 1);
    }
}

/// A settlement that is taken back leaves the ledger as it was.
pub proof fn unsettle_undoes_settle(l: LedgerModel, r: ReservationModel, cost: u64)
    requires
        settle_error(l, r.request_id, cost) is None,
        l.reservations[request_position(l.reservations, r.request_id, 0)->Some_0] == r,
    ensures
        unsettled(settled(l, r.request_id, cost), r) == l,
{
    let i = request_position(l.reservations, r.request_id, 0)->Some_0;
    lemma_request_position(l.reservations, r.request_id, 0);
    let after = settled(l, r.request_id, cost);
    lemma_same_position(l.reservations, after.reservations, r.request_id, 0);
    assert(after.reservations.update(i, r) =~= l.reservations);
    lemma_push_text_position(l.settled, r.request_id, 0);
    assert(after.settled.remove(l.settled.len() as int) =~= l.settled);
}

proof fn lemma_same_position(
    a: Seq<ReservationModel>,
    b: Seq<ReservationModel>,
    request_id: Seq<char>,
    i: int,
)
    requires
        0 <= i,
        a.len() == b.len(),
        forall|k: int| 0 <= k < a.len() ==> (#[trigger] a[k]).request_id == b[k].request_id,
    ensures
        request_position(a, request_id, i) == request_position(b, request_id, i),
    decreases a.len() - i,
{
    if i < a.len() {
        lemma_same_position(a, b, request_id, i + 1);
    }
}

/// What is stored rebuilds the ledger: a reservation and a settlement that were stored have the
/// same effect when they are replayed.
pub proof fn replay_rebuilds_the_ledger(
    l: LedgerModel,
    reservation: Reservation,
    request_id: EntityId,
    cost: MicroDollars,
)
    requires
        request_position(l.reservations, reservation@.request_id, 0) is None,
        reservation@ == new_reservation(
            l,
            reservation@.request_id,
            reservation@.chapter_id,
            reservation@.reserved_cost,
        ),
    ensures
        replay_result(l, LedgerEvent::Reserved { reservation }) == Ok::<LedgerModel, Seq<char>>(
            reserved(l, reservation@),
        ),
        settle_error(l, request_id@, cost@) is None ==> replay_result(
            l,
            LedgerEvent::Settled { request_id, actual_cost: cost },
        ) == Ok::<LedgerModel, Seq<char>>(settled(l, request_id@, cost@)),
{
}

/// The line of a stored event, without its line end.
pub open spec fn event_text(event: LedgerEvent) -> Seq<char> {
    event_line(event).drop_last()
}

proof fn lemma_event_text(event: LedgerEvent)
    ensures
        event_line(event) == event_text(event).push('\n'),
        event_text(event).len() > 0,
        one_line(event_text(event)),
{
    reveal_strlit("{\"event\":\"reserved\",\"reservation\":");
    reveal_strlit("{\"event\":\"settled\",\"request_id\":");
    reveal_strlit(",\"actual_cost\":");
    reveal_strlit("}\n");
    match event {
        LedgerEvent::Reserved { reservation } => {
            lemma_reservation_one_line(reservation@);
            let text = "{\"event\":\"reserved\",\"reservation\":"@ + reservation_json(
                reservation@,
            ) + seq!['}'];
            assert(event_line(event) =~= text.push('\n'));
            assert(event_text(event) =~= text);
        },
        LedgerEvent::Settled { request_id, actual_cost } => {
            crate::json::lemma_json_one_line(request_id@);
            crate::text::lemma_decimal_one_line(actual_cost@ as nat);
            let text = "{\"event\":\"settled\",\"request_id\":"@ + json_string(request_id@)
                + ",\"actual_cost\":"@ + decimal(actual_cost@ as nat) + seq!['}'];
            assert(event_line(event) =~= text.push('\n'));
            assert(event_text(event) =~= text);
        },
    }
}

proof fn lemma_reservation_one_line(r: ReservationModel)
    ensures
        one_line(reservation_json(r)),
{
    reveal_strlit("{\"request_id\":");
    reveal_strlit(",\"chapter_id\":");
    reveal_strlit(",\"reserved_cost\":");
    reveal_strlit(",\"warning_required\":");
    reveal_strlit("true");
    reveal_strlit("false");
    reveal_strlit("}");
    crate::json::lemma_json_one_line(r.request_id);
    crate::json::lemma_json_one_line(r.chapter_id);
    crate::text::lemma_decimal_one_line(r.reserved_cost as nat);
}

/// An event that was appended to a ledger file is found again as its last line, behind all
/// earlier ones.
pub proof fn appended_charge_is_read_back(bytes: Seq<u8>, event: LedgerEvent)
    requires
        ledger_lines(bytes, 0, Seq::empty()) is Some,
    ensures
        ledger_lines(bytes + utf8(event_line(event)), 0, Seq::empty()) == Some(
            ledger_lines(bytes, 0, Seq::empty())->Some_0.push(utf8(event_text(event))),
        ),
{
    let line = utf8(event_text(event));
    lemma_event_text(event);
    crate::text::lemma_one_line_bytes(event_text(event));
    crate::text::lemma_utf8_push(event_text(event), '\n');
    assert(vstd::utf8::encode_scalar(10u32) =~= seq![10u8]) by {
        assert((10u32 & 0x7f) as u8 == 10u8) by (bit_vector);
    }
    assert(utf8(event_line(event)) =~= line.push(10u8));
    assert(event_text(event) =~= seq![event_text(event)[0]] + event_text(event).drop_first());
    assert(line.len() > 0);
    lemma_line_appended(bytes, line, 0, Seq::empty());
}

proof fn lemma_line_appended(bytes: Seq<u8>, line: Seq<u8>, from: int, lines: Seq<Seq<u8>>)
    requires
        0 <= from <= bytes.len(),
        line.len() > 0,
        forall|i: int| 0 <= i < line.len() ==> line[i] != 10,
        ledger_lines(bytes, from, lines) is Some,
    ensures
        ledger_lines(bytes + line.push(10u8), from, lines) == Some(
            ledger_lines(bytes, from, lines)->Some_0.push(line),
        ),
    decreases bytes.len() - from,
{
    let longer = bytes + line.push(10u8);
    if from < bytes.len() {
        let end = crate::project::line_end_from(bytes, from)->Some_0;
        crate::project::lemma_line_end_extends(bytes, line.push(10u8), from);
        assert(longer.subrange(from, end - 1) =~= bytes.subrange(from, end - 1));
        lemma_line_appended(
            bytes,
            line,
            end,
            if end == from + 1 {
                lines
            } else {
                lines.push(bytes.subrange(from, end - 1))
            },
        );
    } else {
        crate::project::lemma_last_line(longer, from, from + line.len());
        assert(longer.subrange(from, from + line.len()) =~= line);
        assert(ledger_lines(longer, longer.len() as int, lines.push(line)) == Some(
            lines.push(line),
        ));
    }
}

/// A ledger whose last write was cut short is refused: nothing is guessed.
pub proof fn torn_ledger_is_refused(bytes: Seq<u8>, torn: Seq<u8>, from: int, lines: Seq<Seq<u8>>)
    requires
        0 <= from <= bytes.len(),
        torn.len() > 0,
        forall|i: int| 0 <= i < torn.len() ==> torn[i] != 10,
        ledger_lines(bytes, from, lines) is Some,
    ensures
        ledger_lines(bytes + torn, from, lines) is None,
    decreases bytes.len() - from,
{
    let longer = bytes + torn;
    if from < bytes.len() {
        let end = crate::project::line_end_from(bytes, from)->Some_0;
        crate::project::lemma_line_end_extends(bytes, torn, from);
        assert(longer.subrange(from, end - 1) =~= bytes.subrange(from, end - 1));
        torn_ledger_is_refused(
            bytes,
            torn,
            end,
            if end == from + 1 {
                lines
            } else {
                lines.push(bytes.subrange(from, end - 1))
            },
        );
    } else {
        crate::project::lemma_no_line(longer, from);
    }
}

} // verus!
