//! Candle intervals such as "5m" or "4h".
use crate::text::{concat, same_text};
use vstd::prelude::*;
use vstd::string::*;

verus! {

/// Why a text is not an interval.
#[derive(Clone, Debug)]
pub enum IntervalError {
    /// The text holds no number, or one too large.
    Invalid { interval: String },
    /// What is left of the text beside its digits is no known unit.
    UnknownUnit { unit: String },
}

pub open spec fn is_digit(c: char) -> bool {
    '0' <= c <= '9'
}

/// The digits of a text, in order.
pub open spec fn digits_of(text: Seq<char>) -> Seq<char> {
    text.filter(|c: char| is_digit(c))
}

/// The other characters of a text, in order.
pub open spec fn unit_of(text: Seq<char>) -> Seq<char> {
    text.filter(|c: char| !is_digit(c))
}

/// The number that decimal digits stand for.
pub open spec fn decimal(digits: Seq<char>) -> int
    decreases digits.len(),
{
    if digits.len() == 0 {
        0
    } else {
        10 * decimal(digits.drop_last()) + (digits.last() as int - '0' as int)
    }
}

/// The milliseconds of one unit; 0 for an unknown one.
pub open spec fn unit_ms(unit: Seq<char>) -> int {
    if unit == "m"@ {
        60_000
    } else if unit == "h"@ {
        3_600_000
    } else if unit == "d"@ {
        86_400_000
    } else if unit == "w"@ {
        604_800_000
    } else {
        0
    }
}

/// The text holds digits, and their number fits the machine's integers.
pub open spec fn has_count(text: Seq<char>) -> bool {
    digits_of(text).len() > 0 && decimal(digits_of(text)) <= i64::MAX
}

/// The text is an interval: a count and a known unit.
pub open spec fn is_interval(text: Seq<char>) -> bool {
    has_count(text) && unit_ms(unit_of(text)) > 0
}

/// The length of an interval in milliseconds.
pub open spec fn interval_ms(text: Seq<char>) -> int {
    decimal(digits_of(text)) * unit_ms(unit_of(text))
}

/// If the text is an interval, its length fits the machine's integers.
pub open spec fn interval_fits(text: Seq<char>) -> bool {
    is_interval(text) ==> interval_ms(text) <= i64::MAX
}

proof fn decimal_grows(digits: Seq<char>, k: int)
    requires
        0 <= k <= digits.len(),
        forall|i: int| 0 <= i < digits.len() ==> is_digit(#[trigger] digits[i]),
    ensures
        0 <= decimal(digits.take(k)) <= decimal(digits),
    decreases digits.len(),
{
    if k < digits.len() {
        decimal_grows(digits.drop_last(), k);
        assert(digits.drop_last().take(k) =~= digits.take(k));
        assert(is_digit(digits[digits.len() - 1]));
    } else {
        assert(digits.take(k) =~= digits);
        if digits.len() > 0 {
            decimal_grows(digits.drop_last(), digits.len() - 1);
            assert(digits.drop_last().take(digits.len() - 1) =~= digits.drop_last());
            assert(is_digit(digits[digits.len() - 1]));
        }
    }
}

/// The number that the digits stand for, where there are any and it fits.
fn parse_count(digits: &Vec<char>) -> (r: Option<i64>)
    requires
        forall|i: int| 0 <= i < digits.len() ==> is_digit(#[trigger] digits[i]),
    ensures
        r is Some <==> digits.len() > 0 && decimal(digits@) <= i64::MAX,
        r matches Some(n) ==> n == decimal(digits@),
{
    if digits.len() == 0 {
        return None;
    }
    let mut n: i64 = 0;
    let mut i: usize = 0;
    while i < digits.len()
        invariant
            i <= digits.len(),
            forall|j: int| 0 <= j < digits.len() ==> is_digit(#[trigger] digits[j]),
            n == decimal(digits@.take(i as int)),
            0 <= n,
        decreases digits.len() - i,
    {
        assert(is_digit(digits[i as int]));
        let d: i64 = (digits[i] as u32 - 48) as i64;
        proof {
            assert(digits@.take(i + 1).drop_last() =~= digits@.take(i as int));
            decimal_grows(digits@, i + 1);
        }
        if n > (i64::MAX - d) / 10 {
            return None;
        }
        n = n * 10 + d;
        i = i + 1;
    }
    assert(digits@.take(i as int) =~= digits@);
    Some(n)
}

/// Splits an interval into its count and the milliseconds of its unit.
pub fn split_interval(interval: &str) -> (r: Result<(i64, i64), IntervalError>)
    ensures
        r is Ok <==> is_interval(interval@),
        r matches Ok((count, unit)) ==> count == decimal(digits_of(interval@)) && count >= 0 && unit
            == unit_ms(unit_of(interval@)),
        r matches Err(IntervalError::Invalid { interval: text }) ==> !has_count(interval@) && text@
            == interval@,
        r matches Err(IntervalError::UnknownUnit { unit }) ==> has_count(interval@) && unit@
            == unit_of(interval@),
{
    let mut digits: Vec<char> = Vec::new();
    let mut unit = String::new();
    let len: usize = interval.unicode_len();
    let mut i: usize = 0;
    assert(interval@.take(0) =~= Seq::empty());
    proof {
        reveal(Seq::filter);
    }
    while i < len
        invariant
            i <= len,
            len == interval@.len(),
            digits@ == digits_of(interval@.take(i as int)),
            unit@ == unit_of(interval@.take(i as int)),
            forall|j: int| 0 <= j < digits.len() ==> is_digit(#[trigger] digits[j]),
        decreases len - i,
    {
        let c = interval.get_char(i);
        proof {
            reveal(Seq::filter);
            assert(interval@.take(i + 1).drop_last() =~= interval@.take(i as int));
        }
        if '0' <= c && c <= '9' {
            digits.push(c);
        } else {
            unit.append(interval.substring_char(i, i + 1));
            assert(interval@.subrange(i as int, i + 1) =~= seq![c]);
            assert(unit_of(interval@.take(i as int)) + seq![c] =~= unit_of(
                interval@.take(i as int),
            ).push(c));
        }
        i = i + 1;
    }
    assert(interval@.take(i as int) =~= interval@);
    let n: i64 = match parse_count(&digits) {
        None => return Err(IntervalError::Invalid { interval: interval.to_owned() }),
        Some(n) => n,
    };
    proof {
        decimal_grows(digits@, 0);
        reveal_strlit("m");
        reveal_strlit("h");
        reveal_strlit("d");
        reveal_strlit("w");
    }
    let u = unit.as_str();
    let one: i64 = if same_text(u, "m") {
        60_000
    } else if same_text(u, "h") {
        3_600_000
    } else if same_text(u, "d") {
        86_400_000
    } else if same_text(u, "w") {
        604_800_000
    } else {
        return Err(IntervalError::UnknownUnit { unit });
    };
    Ok((n, one))
}

/// Parse interval string (e.g., "1m", "5m", "15m", "1h", "4h", "1d") to milliseconds.
pub fn parse_interval_ms(interval: &str) -> (r: Result<i64, IntervalError>)
    requires
        interval_fits(interval@),
    ensures
        r is Ok <==> is_interval(interval@),
        r matches Ok(ms) ==> ms == interval_ms(interval@) && ms >= 0,
        r matches Err(IntervalError::Invalid { interval: text }) ==> !has_count(interval@) && text@
            == interval@,
        r matches Err(IntervalError::UnknownUnit { unit }) ==> has_count(interval@) && unit@
            == unit_of(interval@),
{
    match split_interval(interval) {
        Err(e) => Err(e),
        Ok((count, unit)) => {
            assert(0 <= count * unit) by (nonlinear_arith)
                requires
                    0 <= count,
                    0 <= unit,
            ;
            Ok(count * unit)
        },
    }
}

impl IntervalError {
    /// The error in words.
    pub open spec fn words(self) -> Seq<char> {
        match self {
            IntervalError::Invalid { interval } => "Invalid interval: "@ + interval@,
            IntervalError::UnknownUnit { unit } => "Unknown interval unit: "@ + unit@
                + " (use m, h, d, w)"@,
        }
    }

    /// The error in words.
    pub fn message(&self) -> (r: String)
        ensures
            r@ == self.words(),
    {
        match self {
            IntervalError::Invalid { interval } => concat("Invalid interval: ", interval.as_str()),
            IntervalError::UnknownUnit { unit } => {
                let head = concat("Unknown interval unit: ", unit.as_str());
                concat(head.as_str(), " (use m, h, d, w)")
            },
        }
    }
}

/// Decimal digits followed by one other character make that many of that unit.
pub proof fn count_before_unit(digits: Seq<char>, unit: char)
    requires
        forall|i: int| 0 <= i < digits.len() ==> is_digit(#[trigger] digits[i]),
        !is_digit(unit),
    ensures
        digits_of(digits.push(unit)) == digits,
        unit_of(digits.push(unit)) == seq![unit],
        interval_ms(digits.push(unit)) == decimal(digits) * unit_ms(seq![unit]),
{
    reveal(Seq::filter);
    assert(digits.push(unit).drop_last() =~= digits);
    digits_filter(digits);
    assert(unit_of(digits.push(unit)) =~= seq![unit]);
}

proof fn digits_filter(digits: Seq<char>)
    requires
        forall|i: int| 0 <= i < digits.len() ==> is_digit(#[trigger] digits[i]),
    ensures
        digits_of(digits) == digits,
        unit_of(digits) == Seq::<char>::empty(),
    decreases digits.len(),
{
    reveal(Seq::filter);
    if digits.len() > 0 {
        assert(is_digit(digits[digits.len() - 1]));
        assert forall|i: int| 0 <= i < digits.drop_last().len() implies is_digit(
            #[trigger] digits.drop_last()[i],
        ) by {
            assert(is_digit(digits[i]));
        }
        digits_filter(digits.drop_last());
        assert(digits.drop_last().push(digits.last()) =~= digits);
    } else {
        assert(digits =~= Seq::empty());
    }
}

/// Units are told apart, and are worth what their names say: an hour is sixty minutes, a
/// day twenty-four hours, and a week seven days.  There are no others.
pub proof fn units_follow_the_clock(unit: Seq<char>)
    ensures
        unit_ms("m"@) == 60 * 1000,
        unit_ms("h"@) == 60 * unit_ms("m"@),
        unit_ms("d"@) == 24 * unit_ms("h"@),
        unit_ms("w"@) == 7 * unit_ms("d"@),
        unit_ms(unit) > 0 <==> unit == "m"@ || unit == "h"@ || unit == "d"@ || unit == "w"@,
{
    reveal_strlit("m");
    reveal_strlit("h");
    reveal_strlit("d");
    reveal_strlit("w");
    assert("m"@[0] == 'm' && "h"@[0] == 'h' && "d"@[0] == 'd' && "w"@[0] == 'w');
}

/// Ten to a power.
pub open spec fn ten_to(power: nat) -> int
    decreases power,
{
    if power == 0 {
        1
    } else {
        10 * ten_to((power - 1) as nat)
    }
}

/// Digits in front of others count ten times as much for each digit behind them, and a
/// digit alone counts what it says.
pub proof fn digits_count_by_their_place(high: Seq<char>, low: Seq<char>)
    ensures
        decimal(high + low) == decimal(high) * ten_to(low.len()) + decimal(low),
        low.len() == 0 ==> decimal(low) == 0,
        low.len() == 1 ==> decimal(low) == low[0] as int - '0' as int,
    decreases low.len(),
{
    if low.len() == 0 {
        assert(high + low =~= high);
        assert(decimal(high) * 1 == decimal(high));
    } else {
        digits_count_by_their_place(high, low.drop_last());
        assert((high + low).drop_last() =~= high + low.drop_last());
        let (h, t) = (decimal(high), ten_to((low.len() - 1) as nat));
        assert(10 * (h * t) == h * (10 * t)) by (nonlinear_arith);
        if low.len() == 1 {
            assert(decimal(low.drop_last()) == 0);
        }
    }
}

/// The digits of a text, and the rest of it, are those of its first part and those of its
/// second; a character alone is the one or the other.
pub proof fn texts_are_parted_character_by_character(first: Seq<char>, second: Seq<char>)
    ensures
        digits_of(first + second) == digits_of(first) + digits_of(second),
        unit_of(first + second) == unit_of(first) + unit_of(second),
        second.len() == 1 && '0' <= second[0] <= '9' ==> digits_of(second) == second && unit_of(
            second,
        ).len() == 0,
        second.len() == 1 && !('0' <= second[0] <= '9') ==> unit_of(second) == second && digits_of(
            second,
        ).len() == 0,
    decreases second.len(),
{
    reveal(Seq::filter);
    if second.len() == 0 {
        assert(first + second =~= first);
        assert(digits_of(first) + digits_of(second) =~= digits_of(first));
        assert(unit_of(first) + unit_of(second) =~= unit_of(first));
    } else {
        texts_are_parted_character_by_character(first, second.drop_last());
        assert((first + second).drop_last() =~= first + second.drop_last());
        assert(digits_of(first + second) =~= digits_of(first) + digits_of(second));
        assert(unit_of(first + second) =~= unit_of(first) + unit_of(second));
        if second.len() == 1 {
            assert(second.drop_last() =~= Seq::empty());
            assert(digits_of(second.drop_last()) =~= Seq::empty());
            assert(unit_of(second.drop_last()) =~= Seq::empty());
            if '0' <= second[0] <= '9' {
                assert(digits_of(second) =~= second);
            } else {
                assert(unit_of(second) =~= second);
            }
        }
    }
}

/// A text is an interval just where it holds a digit, its digits make an integer of the
/// machine, and what is left of it is a unit; its length is that many units.
pub proof fn intervals_are_counts_of_units(text: Seq<char>)
    ensures
        is_interval(text) <==> digits_of(text).len() > 0 && decimal(digits_of(text)) <= i64::MAX
            && unit_ms(unit_of(text)) > 0,
        interval_ms(text) == decimal(digits_of(text)) * unit_ms(unit_of(text)),
        has_count(text) <==> digits_of(text).len() > 0 && decimal(digits_of(text)) <= i64::MAX,
{
}

} // verus!
