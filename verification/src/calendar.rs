//! Calendar dates and timestamp text, read and written by the `chrono` crate.

use crate::text::{all_digits, decimal_value, is_digit};
use chrono::Datelike;
use vstd::prelude::*;

verus! {

/// The error that `chrono` reports for a text that it cannot read.
#[verifier::external_type_specification]
#[verifier::external_body]
pub struct ExParseError(chrono::format::ParseError);

/// The last year that four digits write.
pub const MAX_YEAR: i32 = 9999;

/// Whether `year` has a 29th of February in the proleptic Gregorian calendar.
pub open spec fn is_leap_year(year: int) -> bool {
    year % 4 == 0 && (year % 100 != 0 || year % 400 == 0)
}

/// The number of days of `month` in `year`, and 0 where `month` is no month.
pub open spec fn days_in_month(year: int, month: int) -> int {
    if month == 4 || month == 6 || month == 9 || month == 11 {
        30
    } else if month == 2 {
        if is_leap_year(year) {
            29
        } else {
            28
        }
    } else if 1 <= month <= 12 {
        31
    } else {
        0
    }
}

/// Whether the three numbers name a day that exists, in a year that four
/// digits write.
pub open spec fn is_calendar_date(year: int, month: int, day: int) -> bool {
    &&& 0 <= year <= MAX_YEAR
    &&& 1 <= month <= 12
    &&& 1 <= day <= days_in_month(year, month)
}

/// A day of the proleptic Gregorian calendar.
#[derive(Clone, Copy, Debug, PartialEq, Eq, Structural)]
pub struct CalendarDate {
    pub year: i32,
    pub month: u32,
    pub day: u32,
}

impl CalendarDate {
    /// The date as year, month and day.
    pub open spec fn parts(self) -> (int, int, int) {
        (self.year as int, self.month as int, self.day as int)
    }

    /// Whether the date exists, in a year that four digits write.
    pub open spec fn wf(self) -> bool {
        is_calendar_date(self.year as int, self.month as int, self.day as int)
    }

    /// Whether the date exists, in a year that four digits write.
    pub fn is_valid(&self) -> (b: bool)
        ensures
            b == self.wf(),
    {
        if self.year < 0 || self.year > MAX_YEAR || self.month < 1 || self.month > 12 || self.day
            < 1 {
            return false;
        }
        let y = self.year;
        let m = self.month;
        let leap = y % 4 == 0 && (y % 100 != 0 || y % 400 == 0);
        let days: u32 = if m == 4 || m == 6 || m == 9 || m == 11 {
            30
        } else if m == 2 {
            if leap {
                29
            } else {
                28
            }
        } else {
            31
        };
        self.day <= days
    }
}

/// The date that eight digits `YYYYMMDD` write, where that day exists.
pub open spec fn digits_date(text: Seq<char>) -> Option<(int, int, int)> {
    let year = decimal_value(text.subrange(0, 4)) as int;
    let month = decimal_value(text.subrange(4, 6)) as int;
    let day = decimal_value(text.subrange(6, 8)) as int;
    if is_calendar_date(year, month, day) {
        Some((year, month, day))
    } else {
        None
    }
}

/// What a reading of a date came to, without the reason for a failure.
pub open spec fn reading(r: Result<CalendarDate, chrono::format::ParseError>) -> Option<
    (int, int, int),
> {
    match r {
        Ok(date) => Some(date.parts()),
        Err(_) => None,
    }
}

/// Calls `chrono::NaiveDate::parse_from_str` with the format `%Y%m%d` on
/// eight digits, and hands out the year, month and day of the date it
/// returns.
///
/// Trusted: on eight ASCII digits the parser takes four for the year, two
/// for the month and two for the day, gives that day where it exists, and
/// fails where it does not.
#[verifier::external_body]
pub(crate) fn parse_compact_date(text: &str) -> (r: Result<
    CalendarDate,
    chrono::format::ParseError,
>)
    requires
        text@.len() == 8,
        all_digits(text@),
    ensures
        reading(r) == digits_date(text@),
{
    match chrono::NaiveDate::parse_from_str(text, "%Y%m%d") {
        Ok(date) => Ok(CalendarDate { year: date.year(), month: date.month(), day: date.day() }),
        Err(e) => Err(e),
    }
}

/// The character that writes the digit `d`.
pub open spec fn digit_char(d: int) -> char {
    if d == 0 {
        '0'
    } else if d == 1 {
        '1'
    } else if d == 2 {
        '2'
    } else if d == 3 {
        '3'
    } else if d == 4 {
        '4'
    } else if d == 5 {
        '5'
    } else if d == 6 {
        '6'
    } else if d == 7 {
        '7'
    } else if d == 8 {
        '8'
    } else {
        '9'
    }
}

/// A number below 100 in two digits.
pub open spec fn two_digits(n: int) -> Seq<char> {
    seq![digit_char(n / 10 % 10), digit_char(n % 10)]
}

/// A number below 10000 in four digits.
pub open spec fn four_digits(n: int) -> Seq<char> {
    two_digits(n / 100) + two_digits(n % 100)
}

/// The timestamp `YYYY-MM-DDTHH:MM:SS` of a second of a day, in a year
/// that four digits write.
pub open spec fn timestamp_text(
    year: int,
    month: int,
    day: int,
    hour: int,
    minute: int,
    second: int,
) -> Seq<char> {
    four_digits(year) + seq!['-'] + two_digits(month) + seq!['-'] + two_digits(day) + seq!['T']
        + two_digits(hour) + seq![':'] + two_digits(minute) + seq![':'] + two_digits(second)
}

/// Builds the moment with `chrono::NaiveDate::from_ymd_opt` and
/// `chrono::NaiveDate::and_hms_opt`, and writes it with
/// `chrono::NaiveDateTime::format` under `%Y-%m-%dT%H:%M:%S`.
///
/// Trusted: for a day that exists in a year from 0 to 9999, an hour below
/// 24, and a minute and a second below 60, both constructors give a value,
/// and the text is `timestamp_text` of the six numbers.
#[verifier::external_body]
pub(crate) fn format_timestamp(date: CalendarDate, hour: u32, minute: u32, second: u32) -> (s:
    String)
    requires
        date.wf(),
        hour < 24,
        minute < 60,
        second < 60,
    ensures
        s@ == timestamp_text(
            date.year as int,
            date.month as int,
            date.day as int,
            hour as int,
            minute as int,
            second as int,
        ),
{
    let day = chrono::NaiveDate::from_ymd_opt(date.year, date.month, date.day).unwrap();
    let moment = day.and_hms_opt(hour, minute, second).unwrap();
    moment.format("%Y-%m-%dT%H:%M:%S").to_string()
}

/// Two digits are digits, and write the number they were made from.
pub proof fn lemma_two_digits(n: int)
    requires
        0 <= n < 100,
    ensures
        two_digits(n).len() == 2,
        all_digits(two_digits(n)),
        decimal_value(two_digits(n)) == n,
{
    let s = two_digits(n);
    assert(is_digit(s[0]) && is_digit(s[1]));
    assert(s.drop_last() =~= seq![digit_char(n / 10 % 10)]);
    assert(s.drop_last().drop_last() =~= Seq::<char>::empty());
    reveal_with_fuel(decimal_value, 3);
}

/// Four digits are digits, and write the number they were made from.
pub proof fn lemma_four_digits(n: int)
    requires
        0 <= n < 10000,
    ensures
        four_digits(n).len() == 4,
        all_digits(four_digits(n)),
        decimal_value(four_digits(n)) == n,
{
    let s = four_digits(n);
    let high = two_digits(n / 100);
    let low = two_digits(n % 100);
    lemma_two_digits(n / 100);
    lemma_two_digits(n % 100);
    assert(is_digit(s[0]) && is_digit(s[1]) && is_digit(s[2]) && is_digit(s[3]));
    assert(s.drop_last() =~= high.push(low[0]));
    assert(s.drop_last().drop_last() =~= high);
    reveal_with_fuel(decimal_value, 3);
}

} // verus!
