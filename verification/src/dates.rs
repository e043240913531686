//! Calendar dates, and the two calls into chrono that read and print them.

use vstd::prelude::*;
use crate::text::decimal_digits;
#[allow(unused_imports)]
use chrono::Datelike;

verus! {

/// A calendar date (proleptic Gregorian), held as plain numbers.
#[derive(Clone, Copy, PartialEq, Eq, Debug)]
pub struct Date {
    pub year: i32,
    pub month: u32,
    pub day: u32,
}

/// Whether `y` is a leap year of the proleptic Gregorian calendar.
pub open spec fn is_leap_year(y: int) -> bool {
    y % 4 == 0 && (y % 100 != 0 || y % 400 == 0)
}

/// The number of days of month `m` (1 to 12) of year `y`.
pub open spec fn days_in_month(y: int, m: int) -> int {
    if m == 2 {
        if is_leap_year(y) { 29 } else { 28 }
    } else if m == 4 || m == 6 || m == 9 || m == 11 {
        30
    } else {
        31
    }
}

/// Whether `d` is a date that chrono's `NaiveDate` can hold: an existing
/// day of a year between -262143 and 262142.
pub open spec fn valid_date(d: Date) -> bool {
    &&& -262143 <= d.year <= 262142
    &&& 1 <= d.month <= 12
    &&& 1 <= d.day <= days_in_month(d.year as int, d.month as int)
}

/// Whether `d` is a date that chrono's `NaiveDate` can hold.
pub fn is_valid_date(d: &Date) -> (r: bool)
    ensures
        r == valid_date(*d),
{
    if d.year < -262143 || d.year > 262142 || d.month < 1 || d.month > 12 || d.day < 1 {
        return false;
    }
    let leap = d.year % 4 == 0 && (d.year % 100 != 0 || d.year % 400 == 0);
    let days: u32 = if d.month == 2 {
        if leap { 29 } else { 28 }
    } else if d.month == 4 || d.month == 6 || d.month == 9 || d.month == 11 {
        30
    } else {
        31
    };
    d.day <= days
}

/// Chronological order: `a` is on or before `b`.
pub open spec fn date_le(a: Date, b: Date) -> bool {
    a.year < b.year || (a.year == b.year && (a.month < b.month || (a.month == b.month && a.day <= b.day)))
}

/// Whether `a` is on or before `b`.
pub fn date_on_or_before(a: &Date, b: &Date) -> (r: bool)
    ensures
        r == date_le(*a, *b),
{
    a.year < b.year || (a.year == b.year && (a.month < b.month || (a.month == b.month && a.day <= b.day)))
}

/// Order law: `date_le` is the calendar order. It is reflexive, total,
/// antisymmetric and transitive; a different year decides by the year, then
/// a different month by the month, and within a month the day decides.
pub proof fn lemma_date_order_is_calendar_order(a: Date, b: Date, c: Date)
    ensures
        date_le(a, a),
        date_le(a, b) || date_le(b, a),
        (date_le(a, b) && date_le(b, a)) ==> a == b,
        (date_le(a, b) && date_le(b, c)) ==> date_le(a, c),
        a.year != b.year ==> (date_le(a, b) <==> a.year < b.year),
        (a.year == b.year && a.month != b.month) ==> (date_le(a, b) <==> a.month < b.month),
        (a.year == b.year && a.month == b.month) ==> (date_le(a, b) <==> a.day <= b.day),
{
}

/// The decimal digits of `n`, padded with zeros on the left to `width` characters.
pub open spec fn zero_padded(n: nat, width: nat) -> Seq<char> {
    let digits = decimal_digits(n);
    if digits.len() < width {
        Seq::new((width - digits.len()) as nat, |i: int| '0') + digits
    } else {
        digits
    }
}

/// How chrono prints a date (`%Y-%m-%d`): the year with at least four digits,
/// signed when outside 0 to 9999, then the month and the day with two digits.
pub open spec fn date_text(d: Date) -> Seq<char> {
    let year = if 0 <= d.year <= 9999 {
        zero_padded(d.year as nat, 4)
    } else if d.year < 0 {
        seq!['-'] + zero_padded((-d.year) as nat, 4)
    } else {
        seq!['+'] + zero_padded(d.year as nat, 4)
    };
    year + seq!['-'] + zero_padded(d.month as nat, 2) + seq!['-'] + zero_padded(d.day as nat, 2)
}

/// What `chrono::NaiveDate::parse_from_str(text, fmt)` makes of `text`: the
/// date, or the `Display` text of the error and the `Debug` text of its kind.
pub uninterp spec fn chrono_parse_date(text: Seq<char>, fmt: Seq<char>) -> Result<Date, (Seq<char>, Seq<char>)>;

/// Calls `chrono::NaiveDate::parse_from_str`. The contract ties the outcome to
/// the named result of that call, and states that a parsed date is one that
/// `NaiveDate` can hold; chrono's format grammar is not restated.
#[verifier::external_body]
pub(crate) fn parse_from_str(text: &str, fmt: &str) -> (r: Result<Date, (String, String)>)
    ensures
        match r {
            Ok(d) => chrono_parse_date(text@, fmt@) == Ok::<Date, (Seq<char>, Seq<char>)>(d) && valid_date(d),
            Err((e, k)) => chrono_parse_date(text@, fmt@) == Err::<Date, (Seq<char>, Seq<char>)>((e@, k@)),
        },
{
    match chrono::NaiveDate::parse_from_str(text, fmt) {
        Ok(d) => Ok(Date { year: d.year(), month: d.month(), day: d.day() }),
        Err(e) => Err((e.to_string(), format!("{:?}", e.kind()))),
    }
}

/// Prints a date with chrono (`NaiveDate::from_ymd_opt` and `Display`); the
/// contract states chrono's documented format for every date it can hold.
#[verifier::external_body]
pub(crate) fn date_to_string(d: Date) -> (r: String)
    requires
        valid_date(d),
    ensures
        r@ == date_text(d),
{
    chrono::NaiveDate::from_ymd_opt(d.year, d.month, d.day).expect("a date that NaiveDate holds").to_string()
}

} // verus!
