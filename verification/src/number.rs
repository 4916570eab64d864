//! Decimal numbers as JSON writes them.
use vstd::prelude::*;
use crate::text::{digit_value, digits_value, from_chars, is_digit, parse_u64, parsed_u64, str_eq, to_chars};

verus! {

/// No finite number of double precision is written with more characters, or with an exponent
/// above this.
pub const NUMBER_LIMIT: usize = 400;

/// A decimal number: its digits, scaled by a power of ten.
pub struct DecimalModel {
    /// Whether the number has a minus sign.
    pub negative: bool,
    /// Digits.
    pub digits: Seq<char>,
    /// Power of ten that scales the digits.
    pub exponent: int,
    /// Whether the number is written without a fraction and an exponent.
    pub integral: bool,
}

/// Where a run of digits ends.
pub open spec fn digits_end(text: Seq<char>, i: int) -> int
    decreases text.len() - i,
{
    if 0 <= i < text.len() && is_digit(text[i]) {
        digits_end(text, i + 1)
    } else {
        i
    }
}

/// Where the digits of the whole part start.
pub open spec fn whole_start(text: Seq<char>) -> int {
    if text.len() > 0 && text[0] == '-' {
        1
    } else {
        0
    }
}

/// Where the fraction ends: at `whole`, where there is none, and nowhere where it has no digit.
pub open spec fn fraction_end(text: Seq<char>, whole: int) -> Option<int> {
    if 0 <= whole < text.len() && text[whole] == '.' {
        if digits_end(text, whole + 1) > whole + 1 {
            Some(digits_end(text, whole + 1))
        } else {
            None
        }
    } else {
        Some(whole)
    }
}

/// The value of an exponent part: zero where the text ends.
pub open spec fn exponent_value(part: Seq<char>) -> Option<int> {
    if part.len() == 0 {
        Some(0)
    } else if part[0] != 'e' && part[0] != 'E' {
        None
    } else {
        let negative = part.len() > 1 && part[1] == '-';
        match parsed_u64(part.skip(if negative { 2 } else { 1 })) {
            Some(value) => if value > NUMBER_LIMIT || (negative && part.len() > 2 && part[2]
                == '+') {
                None
            } else if negative {
                Some(-(value as int))
            } else {
                Some(value as int)
            },
            None => None,
        }
    }
}

/// The number that a text denotes.
pub open spec fn number_of(text: Seq<char>) -> Option<DecimalModel> {
    let start = whole_start(text);
    let whole = digits_end(text, start);
    if text.len() > NUMBER_LIMIT || whole == start {
        None
    } else {
        match fraction_end(text, whole) {
            None => None,
            Some(end) => match exponent_value(text.skip(end)) {
                None => None,
                Some(exponent) => Some(
                    DecimalModel {
                        negative: start == 1,
                        digits: if end > whole {
                            text.subrange(start, whole) + text.subrange(whole + 1, end)
                        } else {
                            text.subrange(start, whole)
                        },
                        exponent: if end > whole {
                            exponent - (end - whole - 1)
                        } else {
                            exponent
                        },
                        integral: whole == text.len(),
                    },
                ),
            },
        }
    }
}

/// A power of ten.
pub open spec fn power_of_ten(n: nat) -> nat
    decreases n,
{
    if n == 0 {
        1
    } else {
        10 * power_of_ten((n - 1) as nat)
    }
}

/// The value of a number in units of a power of ten.
pub open spec fn in_units(number: DecimalModel, unit: int) -> int
    recommends
        unit <= number.exponent,
{
    let magnitude = digits_value(number.digits) * power_of_ten((number.exponent - unit) as nat);
    if number.negative {
        -(magnitude as int)
    } else {
        magnitude as int
    }
}

/// The smaller exponent of two numbers.
pub open spec fn common_unit(a: DecimalModel, b: DecimalModel) -> int {
    if a.exponent <= b.exponent {
        a.exponent
    } else {
        b.exponent
    }
}

/// Whether a number is less than another.
pub open spec fn number_below(a: DecimalModel, b: DecimalModel) -> bool {
    in_units(a, common_unit(a, b)) < in_units(b, common_unit(a, b))
}

/// Whether two numbers have the same value.
pub open spec fn number_equal(a: DecimalModel, b: DecimalModel) -> bool {
    in_units(a, common_unit(a, b)) == in_units(b, common_unit(a, b))
}

/// A decimal number.
#[derive(Debug)]
pub struct Decimal {
    negative: bool,
    digits: Vec<char>,
    exponent: i64,
    integral: bool,
}

impl View for Decimal {
    type V = DecimalModel;

    closed spec fn view(&self) -> DecimalModel {
        DecimalModel {
            negative: self.negative,
            digits: self.digits@,
            exponent: self.exponent as int,
            integral: self.integral,
        }
    }
}

fn end_of_digits(chars: &[char], from: usize) -> (r: usize)
    requires
        from <= chars@.len(),
    ensures
        r == digits_end(chars@, from as int),
        from <= r <= chars@.len(),
        forall|k: int| from <= k < r ==> is_digit(#[trigger] chars@[k]),
{
    let mut i: usize = from;
    while i < chars.len() && '0' <= chars[i] && chars[i] <= '9'
        invariant
            from <= i <= chars@.len(),
            digits_end(chars@, from as int) == digits_end(chars@, i as int),
            forall|k: int| from <= k < i ==> is_digit(#[trigger] chars@[k]),
        decreases chars@.len() - i,
    {
        i += 1;
    }
    i
}

fn read_exponent(chars: &[char], from: usize) -> (r: Option<i64>)
    requires
        from <= chars@.len(),
    ensures
        match r {
            Some(value) => exponent_value(chars@.skip(from as int)) == Some(value as int)
                && -NUMBER_LIMIT <= value <= NUMBER_LIMIT,
            None => exponent_value(chars@.skip(from as int)) is None,
        },
{
    let n: usize = chars.len();
    let ghost part = chars@.skip(from as int);
    if from == n {
        return Some(0);
    }
    assert(part[0] == chars@[from as int]);
    if chars[from] != 'e' && chars[from] != 'E' {
        return None;
    }
    assert(part.len() > 1 ==> part[1] == chars@[from + 1]);
    assert(part.len() > 2 ==> part[2] == chars@[from + 2]);
    let negative = n - from > 1 && chars[from + 1] == '-';
    if negative && n - from > 2 && chars[from + 2] == '+' {
        return None;
    }
    let start: usize = if negative {
        from + 2
    } else {
        from + 1
    };
    let text = from_chars(chars, start, n);
    assert(text@ =~= part.skip(start - from));
    match parse_u64(text.as_str()) {
        None => None,
        Some(value) => {
            if value > NUMBER_LIMIT as u64 {
                None
            } else if negative {
                Some(-(value as i64))
            } else {
                Some(value as i64)
            }
        },
    }
}

fn push_range(digits: &mut Vec<char>, chars: &[char], from: usize, to: usize)
    requires
        from <= to <= chars@.len(),
    ensures
        final(digits)@ == old(digits)@ + chars@.subrange(from as int, to as int),
{
    let ghost start = digits@;
    let mut i: usize = from;
    assert(digits@ =~= start + chars@.subrange(from as int, i as int));
    while i < to
        invariant
            from <= i <= to <= chars@.len(),
            digits@ == start + chars@.subrange(from as int, i as int),
        decreases to - i,
    {
        digits.push(chars[i]);
        i += 1;
        assert(digits@ =~= start + chars@.subrange(from as int, i as int));
    }
}

impl Decimal {
    /// The limits within which numbers are compared.
    pub closed spec fn wf(&self) -> bool {
        &&& self.digits@.len() <= NUMBER_LIMIT
        &&& -2 * NUMBER_LIMIT <= self.exponent <= NUMBER_LIMIT
        &&& forall|i: int| 0 <= i < self.digits@.len() ==> is_digit(#[trigger] self.digits@[i])
    }

    /// Reads a number.
    pub fn parse(text: &str) -> (r: Option<Decimal>)
        ensures
            match r {
                Some(number) => number_of(text@) == Some(number@) && number.wf(),
                None => number_of(text@) is None,
            },
    {
        let all = to_chars(text);
        let chars = all.as_slice();
        let n: usize = chars.len();
        if n > NUMBER_LIMIT {
            return None;
        }
        let start: usize = if n > 0 && chars[0] == '-' {
            1
        } else {
            0
        };
        let whole: usize = end_of_digits(chars, start);
        if whole == start {
            return None;
        }
        let mut digits: Vec<char> = Vec::new();
        push_range(&mut digits, chars, start, whole);
        assert(digits@ =~= text@.subrange(start as int, whole as int));
        let mut end: usize = whole;
        let mut places: i64 = 0;
        if whole < n && chars[whole] == '.' {
            end = end_of_digits(chars, whole + 1);
            if end == whole + 1 {
                return None;
            }
            push_range(&mut digits, chars, whole + 1, end);
            places = (end - whole - 1) as i64;
        }
        match read_exponent(chars, end) {
            None => None,
            Some(exponent) => Some(
                Decimal { negative: start == 1, digits, exponent: exponent - places, integral: whole == n },
            ),
        }
    }

    /// Returns whether the number is written without a fraction and an exponent.
    pub fn integral(&self) -> (r: bool)
        ensures
            r == self@.integral,
    {
        self.integral
    }

    /// Returns whether the number is less than another.
    pub fn below(&self, other: &Decimal) -> (r: bool)
        requires
            self.wf(),
            other.wf(),
        ensures
            r == number_below(self@, other@),
    {
        let (less, greater) = magnitudes(self, other);
        if self.negative && other.negative {
            greater
        } else if self.negative {
            !self.is_zero() || !other.is_zero()
        } else if other.negative {
            false
        } else {
            less
        }
    }

    /// Returns whether two numbers have the same value.
    pub fn equals(&self, other: &Decimal) -> (r: bool)
        requires
            self.wf(),
            other.wf(),
        ensures
            r == number_equal(self@, other@),
    {
        !self.below(other) && !other.below(self)
    }

    fn is_zero(&self) -> (r: bool)
        requires
            self.wf(),
        ensures
            r == (digits_value(self@.digits) == 0),
            forall|unit: int|
                unit <= self@.exponent ==> (r == (#[trigger] in_units(self@, unit) == 0)),
    {
        let mut i: usize = 0;
        let mut zero = true;
        while i < self.digits.len()
            invariant
                i <= self.digits@.len(),
                self.wf(),
                zero == (digits_value(self.digits@.take(i as int)) == 0),
            decreases self.digits@.len() - i,
        {
            assert(self.digits@.take(i + 1).drop_last() =~= self.digits@.take(i as int));
            assert(is_digit(self.digits@[i as int]));
            if self.digits[i] != '0' {
                zero = false;
            }
            i += 1;
        }
        assert(self.digits@.take(i as int) =~= self.digits@);
        proof {
            assert forall|unit: int| unit <= self@.exponent implies zero == (#[trigger] in_units(
                self@,
                unit,
            ) == 0) by {
                let scale = power_of_ten((self@.exponent - unit) as nat);
                let value = digits_value(self@.digits);
                lemma_power_positive((self@.exponent - unit) as nat);
                assert(value == 0 ==> value * scale == 0) by (nonlinear_arith);
                assert(value > 0 && scale > 0 ==> value * scale > 0) by (nonlinear_arith);
            }
        }
        zero
    }

    /// Returns the digits in units of a power of ten.
    fn scaled(&self, unit: i64) -> (r: Vec<char>)
        requires
            self.wf(),
            -2 * NUMBER_LIMIT <= unit <= self@.exponent,
        ensures
            digits_value(r@) == digits_value(self@.digits) * power_of_ten(
                (self@.exponent - unit) as nat,
            ),
            forall|i: int| 0 <= i < r@.len() ==> is_digit(#[trigger] r@[i]),
            r@.len() <= 4 * NUMBER_LIMIT,
    {
        let mut out: Vec<char> = Vec::new();
        push_range(&mut out, self.digits.as_slice(), 0, self.digits.len());
        assert(out@ =~= self.digits@);
        let mut k: i64 = unit;
        proof {
            assert(power_of_ten((k - unit) as nat) == 1);
            let a = digits_value(self@.digits);
            assert(a * 1 == a) by (nonlinear_arith);
        }
        while k < self.exponent
            invariant
                self.wf(),
                -2 * NUMBER_LIMIT <= unit <= k <= self.exponent,
                digits_value(out@) == digits_value(self@.digits) * power_of_ten((k - unit) as nat),
                forall|i: int| 0 <= i < out@.len() ==> is_digit(#[trigger] out@[i]),
                out@.len() == self.digits@.len() + (k - unit),
            decreases self.exponent - k,
        {
            let ghost before = out@;
            out.push('0');
            k += 1;
            proof {
                assert(out@.drop_last() =~= before);
                assert(digit_value('0') == 0);
                let a = digits_value(self@.digits);
                let p = power_of_ten((k - 1 - unit) as nat);
                assert(power_of_ten((k - unit) as nat) == 10 * p);
                assert((a * p) * 10 == a * (10 * p)) by (nonlinear_arith);
            }
        }
        out
    }
}

proof fn lemma_power_positive(n: nat)
    ensures
        power_of_ten(n) > 0,
    decreases n,
{
    if n > 0 {
        lemma_power_positive((n - 1) as nat);
    }
}

/// Whether the magnitude of a number is below, and whether it is above, that of another.
fn magnitudes(a: &Decimal, b: &Decimal) -> (r: (bool, bool))
    requires
        a.wf(),
        b.wf(),
    ensures
        ({
            let unit = common_unit(a@, b@);
            let x = digits_value(a@.digits) * power_of_ten((a@.exponent - unit) as nat);
            let y = digits_value(b@.digits) * power_of_ten((b@.exponent - unit) as nat);
            r == (x < y, x > y)
        }),
{
    let unit: i64 = if a.exponent <= b.exponent {
        a.exponent
    } else {
        b.exponent
    };
    let x = a.scaled(unit);
    let y = b.scaled(unit);
    let n: usize = x.len();
    let m: usize = y.len();
    let total: usize = if n > m {
        n
    } else {
        m
    };
    let mut less = false;
    let mut greater = false;
    let mut i: usize = 0;
    while i < total
        invariant
            i <= total,
            n == x@.len(),
            m == y@.len(),
            n <= total,
            m <= total,
            n == total || m == total,
            total <= 4 * NUMBER_LIMIT,
            forall|k: int| 0 <= k < x@.len() ==> is_digit(#[trigger] x@[k]),
            forall|k: int| 0 <= k < y@.len() ==> is_digit(#[trigger] y@[k]),
            less == (leading(x@, i - (total - n)) < leading(y@, i - (total - m))),
            greater == (leading(x@, i - (total - n)) > leading(y@, i - (total - m))),
        decreases total - i,
    {
        let p: char = if i >= total - n {
            x[i - (total - n)]
        } else {
            '0'
        };
        let q: char = if i >= total - m {
            y[i - (total - m)]
        } else {
            '0'
        };
        proof {
            lemma_leading(x@, i - (total - n), p);
            lemma_leading(y@, i - (total - m), q);
            assert(is_digit(p) && is_digit(q));
        }
        if !less && !greater {
            less = p < q;
            greater = q < p;
        }
        i += 1;
    }
    proof {
        assert(x@.take(n as int) =~= x@);
        assert(y@.take(m as int) =~= y@);
    }
    (less, greater)
}

/// The value of the first digits.
spec fn leading(digits: Seq<char>, count: int) -> nat {
    if count <= 0 {
        0
    } else {
        digits_value(digits.take(count))
    }
}

proof fn lemma_leading(digits: Seq<char>, count: int, next: char)
    requires
        count < digits.len(),
        next == (if count >= 0 {
            digits[count]
        } else {
            '0'
        }),
    ensures
        leading(digits, count + 1) == leading(digits, count) * 10 + digit_value(next),
{
    assert(digit_value('0') == 0);
    if count >= 0 {
        assert(digits.take(count + 1).drop_last() =~= digits.take(count));
        assert(digits.take(count + 1).last() == next);
        assert(digits_value(digits.take(count + 1)) == digits_value(digits.take(count)) * 10
            + digit_value(next));
        if count == 0 {
            assert(digits_value(digits.take(count)) == 0);
        }
    }
}


/// The number that a text denotes, where double precision holds it exactly or it is no integer.
pub open spec fn safe_number(text: Seq<char>) -> Option<DecimalModel> {
    match number_of(text) {
        Some(number) => if number.integral && digits_value(number.digits) > 9007199254740992 {
            None
        } else {
            Some(number)
        },
        None => None,
    }
}

/// Reads a number that double precision holds exactly, or that is no integer.
pub fn parse_safe_number(text: &str) -> (r: Option<Decimal>)
    ensures
        match r {
            Some(number) => safe_number(text@) == Some(number@) && number.wf(),
            None => safe_number(text@) is None,
        },
{
    match Decimal::parse(text) {
        None => None,
        Some(number) => {
            if number.integral && exceeds(number.digits.as_slice()) {
                None
            } else {
                Some(number)
            }
        },
    }
}

fn exceeds(digits: &[char]) -> (r: bool)
    requires
        forall|i: int| 0 <= i < digits@.len() ==> is_digit(#[trigger] digits@[i]),
    ensures
        r == (digits_value(digits@) > 9007199254740992),
{
    let mut value: u64 = 0;
    let mut over = false;
    let mut i: usize = 0;
    while i < digits.len()
        invariant
            i <= digits@.len(),
            forall|k: int| 0 <= k < digits@.len() ==> is_digit(#[trigger] digits@[k]),
            over == (digits_value(digits@.take(i as int)) > 9007199254740992),
            !over ==> value == digits_value(digits@.take(i as int)),
        decreases digits@.len() - i,
    {
        assert(digits@.take(i + 1).drop_last() =~= digits@.take(i as int));
        assert(is_digit(digits@[i as int]));
        if !over {
            value = value * 10 + (digits[i] as u32 - 48) as u64;
            over = value > 9007199254740992;
        }
        i += 1;
    }
    assert(digits@.take(i as int) =~= digits@);
    over
}

/// The value of a text that is written as an unsigned integer of 64 bits.
pub open spec fn unsigned_number(text: Seq<char>) -> Option<u64> {
    if text.len() > 0 && is_digit(text[0]) {
        parsed_u64(text)
    } else {
        None
    }
}

/// Reads an unsigned integer of 64 bits.
pub fn parse_unsigned(text: &str) -> (r: Option<u64>)
    ensures
        r == unsigned_number(text@),
{
    let chars = to_chars(text);
    if chars.len() > 0 && '0' <= chars[0] && chars[0] <= '9' {
        parse_u64(text)
    } else {
        None
    }
}

/// Whether two texts denote the same number: both integers, or neither.
pub open spec fn same_number(a: Seq<char>, b: Seq<char>) -> bool {
    a == b || match (number_of(a), number_of(b)) {
        (Some(x), Some(y)) => x.integral == y.integral && number_equal(x, y),
        _ => false,
    }
}

/// Returns whether two texts denote the same number: both integers, or neither.
pub fn numbers_agree(a: &str, b: &str) -> (r: bool)
    ensures
        r == same_number(a@, b@),
{
    if str_eq(a, b) {
        return true;
    }
    match (Decimal::parse(a), Decimal::parse(b)) {
        (Some(x), Some(y)) => x.integral == y.integral && x.equals(&y),
        _ => false,
    }
}

} // verus!
