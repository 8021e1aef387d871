//! Calendar dates: strict `MM/DD/YYYY` parsing and `MM/YYYY` rendering.

use crate::text::{digit_char, digit_value, is_digit, is_digit_char, lemma_digit_round_trip};
use vstd::arithmetic::div_mod::lemma_fundamental_div_mod_converse;
use vstd::prelude::*;
use vstd::string::*;

verus! {

/// The mathematical model of a calendar date.
pub struct YearMonthDay {
    pub year: int,
    pub month: int,
    pub day: int,
}

impl YearMonthDay {
    /// Strict chronological order: `self` falls on a later day than `other`.
    pub open spec fn is_after(self, other: YearMonthDay) -> bool {
        self.year > other.year || (self.year == other.year && (self.month > other.month || (
        self.month == other.month && self.day > other.day)))
    }
}

/// A year of 366 days in the Gregorian calendar.
pub open spec fn is_leap_year(year: int) -> bool {
    year % 4 == 0 && (year % 100 != 0 || year % 400 == 0)
}

/// The number of days of a month, for months from 1 to 12.
pub open spec fn days_in_month(year: int, month: int) -> int {
    if month == 2 {
        if is_leap_year(year) {
            29
        } else {
            28
        }
    } else if month == 4 || month == 6 || month == 9 || month == 11 {
        30
    } else {
        31
    }
}

/// A day that exists in the proleptic Gregorian calendar, with a year that
/// four decimal digits can write.
pub open spec fn is_calendar_day(d: YearMonthDay) -> bool {
    &&& 0 <= d.year <= 9999
    &&& 1 <= d.month <= 12
    &&& 1 <= d.day <= days_in_month(d.year, d.month)
}

/// The text has the literal layout `MM/DD/YYYY`: ten characters, two
/// slashes, digits everywhere else.
pub open spec fn has_date_shape(text: Seq<char>) -> bool {
    &&& text.len() == 10
    &&& is_digit(text[0])
    &&& is_digit(text[1])
    &&& text[2] == '/'
    &&& is_digit(text[3])
    &&& is_digit(text[4])
    &&& text[5] == '/'
    &&& is_digit(text[6])
    &&& is_digit(text[7])
    &&& is_digit(text[8])
    &&& is_digit(text[9])
}

/// The numbers written in a text of the shape `MM/DD/YYYY`.
pub open spec fn shaped_fields(text: Seq<char>) -> YearMonthDay {
    YearMonthDay {
        month: 10 * digit_value(text[0]) + digit_value(text[1]),
        day: 10 * digit_value(text[3]) + digit_value(text[4]),
        year: 1000 * digit_value(text[6]) + 100 * digit_value(text[7]) + 10 * digit_value(
            text[8],
        ) + digit_value(text[9]),
    }
}

/// What a date text means: the day it names, if it has the required shape
/// and that day exists.
pub open spec fn parse_date_spec(text: Seq<char>) -> Option<YearMonthDay> {
    if has_date_shape(text) && is_calendar_day(shaped_fields(text)) {
        Some(shaped_fields(text))
    } else {
        None
    }
}

/// The rendering `MM/YYYY` of a date: zero-padded month, a slash, and the
/// year in four digits.
pub open spec fn month_year_text(d: YearMonthDay) -> Seq<char> {
    seq![
        digit_char(d.month / 10),
        digit_char(d.month % 10),
        '/',
        digit_char(d.year / 1000),
        digit_char((d.year / 100) % 10),
        digit_char((d.year / 10) % 10),
        digit_char(d.year % 10),
    ]
}

/// A day of the calendar, without time of day or time zone.
#[derive(Clone, Copy, Debug, PartialEq, Eq)]
pub struct CalendarDate {
    year: i32,
    month: u32,
    day: u32,
}

impl View for CalendarDate {
    type V = YearMonthDay;

    closed spec fn view(&self) -> YearMonthDay {
        YearMonthDay { year: self.year as int, month: self.month as int, day: self.day as int }
    }
}

/// A date text that does not name a day in the layout `MM/DD/YYYY`.
#[derive(Debug)]
pub struct DateFormatError {
    pub text: String,
}

impl CalendarDate {
    #[verifier::type_invariant]
    spec fn exists_in_calendar(self) -> bool {
        is_calendar_day(self@)
    }

    pub fn year(&self) -> (y: i32)
        ensures
            y == self@.year,
            is_calendar_day(self@),
    {
        proof {
            use_type_invariant(self);
        }
        self.year
    }

    pub fn month(&self) -> (m: u32)
        ensures
            m == self@.month,
            is_calendar_day(self@),
    {
        proof {
            use_type_invariant(self);
        }
        self.month
    }

    pub fn day(&self) -> (d: u32)
        ensures
            d == self@.day,
            is_calendar_day(self@),
    {
        proof {
            use_type_invariant(self);
        }
        self.day
    }

    /// Decides whether `self` falls on a later day than `other`.
    pub fn is_after(&self, other: &CalendarDate) -> (later: bool)
        ensures
            later == self@.is_after(other@),
    {
        self.year > other.year || (self.year == other.year && (self.month > other.month || (
        self.month == other.month && self.day > other.day)))
    }
}

/// Calls chrono's `NaiveDate::parse_from_str` with the format `%m/%d/%Y` and
/// reads the parsed date back through `Datelike`. On a text of the exact
/// shape `MM/DD/YYYY` chrono reads the three numbers digit by digit and
/// accepts them exactly when they name a day that exists; the contract
/// claims that, and that the date handed back carries those numbers.
#[verifier::external_body]
fn chrono_parse_month_day_year(text: &str) -> (parsed: Option<(i32, u32, u32)>)
    requires
        has_date_shape(text@),
    ensures
        parsed is Some <==> is_calendar_day(shaped_fields(text@)),
        parsed matches Some(ymd) ==> ymd.0 == shaped_fields(text@).year && ymd.1 == shaped_fields(
            text@,
        ).month && ymd.2 == shaped_fields(text@).day,
{
    match chrono::NaiveDate::parse_from_str(text, "%m/%d/%Y") {
        Ok(date) => Some(
            (
                chrono::Datelike::year(&date),
                chrono::Datelike::month(&date),
                chrono::Datelike::day(&date),
            ),
        ),
        Err(_) => None,
    }
}

/// Calls chrono's `NaiveDate::from_ymd_opt` and `NaiveDate::format` with the
/// format `%m/%Y`. For a day that exists and a year from 0 to 9999 chrono
/// writes the month in two digits and the year in four, both padded with
/// zeros; the contract claims exactly that text.
#[verifier::external_body]
fn chrono_format_month_year(year: i32, month: u32, day: u32) -> (text: String)
    requires
        is_calendar_day(YearMonthDay { year: year as int, month: month as int, day: day as int }),
    ensures
        text@ == month_year_text(
            YearMonthDay { year: year as int, month: month as int, day: day as int },
        ),
{
    chrono::NaiveDate::from_ymd_opt(year, month, day).unwrap().format("%m/%Y").to_string()
}

/// Decides whether a text has the literal layout `MM/DD/YYYY`.
pub fn check_date_shape(text: &str) -> (shaped: bool)
    ensures
        shaped == has_date_shape(text@),
{
    let n: usize = text.unicode_len();
    if n != 10 {
        return false;
    }
    is_digit_char(text.get_char(0)) && is_digit_char(text.get_char(1)) && text.get_char(2) == '/'
        && is_digit_char(text.get_char(3)) && is_digit_char(text.get_char(4)) && text.get_char(5)
        == '/' && is_digit_char(text.get_char(6)) && is_digit_char(text.get_char(7))
        && is_digit_char(text.get_char(8)) && is_digit_char(text.get_char(9))
}

/// Parses a date written as `MM/DD/YYYY`.
///
/// Succeeds exactly on texts of that literal shape that name a day which
/// exists; every other text is handed back inside the error.
pub fn parse_date(text: &str) -> (parsed: Result<CalendarDate, DateFormatError>)
    ensures
        match parsed {
            Ok(date) => parse_date_spec(text@) == Some(date@),
            Err(e) => parse_date_spec(text@) is None && e.text@ == text@,
        },
{
    if !check_date_shape(text) {
        return Err(DateFormatError { text: String::from_str(text) });
    }
    match chrono_parse_month_day_year(text) {
        Some((year, month, day)) => Ok(CalendarDate { year, month, day }),
        None => Err(DateFormatError { text: String::from_str(text) }),
    }
}

/// Renders a date as `MM/YYYY`.
pub fn format_date(date: CalendarDate) -> (text: String)
    ensures
        text@ == month_year_text(date@),
{
    proof {
        use_type_invariant(&date);
    }
    chrono_format_month_year(date.year, date.month, date.day)
}

/// Rendering a parsed date drops the day and keeps the month and the year as
/// they were written: the result is the first three characters of the date
/// text followed by its last four.
pub proof fn lemma_render_keeps_month_and_year(text: Seq<char>)
    requires
        parse_date_spec(text) is Some,
    ensures
        month_year_text(parse_date_spec(text).unwrap()) == text.subrange(0, 3) + text.subrange(
            6,
            10,
        ),
{
    let m1 = digit_value(text[0]);
    let m0 = digit_value(text[1]);
    let y3 = digit_value(text[6]);
    let y2 = digit_value(text[7]);
    let y1 = digit_value(text[8]);
    let y0 = digit_value(text[9]);
    lemma_digit_round_trip(text[0]);
    lemma_digit_round_trip(text[1]);
    lemma_digit_round_trip(text[6]);
    lemma_digit_round_trip(text[7]);
    lemma_digit_round_trip(text[8]);
    lemma_digit_round_trip(text[9]);
    lemma_decimal_places(0, 0, m1, m0);
    assert((10 * m1 + m0) / 10 == m1 && (10 * m1 + m0) % 10 == m0);
    lemma_decimal_places(y3, y2, y1, y0);
    let date = parse_date_spec(text).unwrap();
    assert(date.month == 10 * m1 + m0);
    assert(date.year == 1000 * y3 + 100 * y2 + 10 * y1 + y0);
    let rendered = month_year_text(date);
    let kept = text.subrange(0, 3) + text.subrange(6, 10);
    assert(rendered.len() == kept.len());
    assert(rendered[0] == text[0]);
    assert(rendered[1] == text[1]);
    assert(rendered[3] == text[6]);
    assert(rendered[4] == text[7]);
    assert(rendered[5] == text[8]);
    assert(rendered[6] == text[9]);
    assert(rendered =~= kept);
}

/// The decimal places of a number written with four digits.
proof fn lemma_decimal_places(d3: int, d2: int, d1: int, d0: int)
    requires
        0 <= d3 <= 9,
        0 <= d2 <= 9,
        0 <= d1 <= 9,
        0 <= d0 <= 9,
    ensures
        (1000 * d3 + 100 * d2 + 10 * d1 + d0) / 1000 == d3,
        ((1000 * d3 + 100 * d2 + 10 * d1 + d0) / 100) % 10 == d2,
        ((1000 * d3 + 100 * d2 + 10 * d1 + d0) / 10) % 10 == d1,
        (1000 * d3 + 100 * d2 + 10 * d1 + d0) % 10 == d0,
{
    let n = 1000 * d3 + 100 * d2 + 10 * d1 + d0;
    lemma_fundamental_div_mod_converse(n, 1000, d3, 100 * d2 + 10 * d1 + d0);
    lemma_fundamental_div_mod_converse(n, 100, 10 * d3 + d2, 10 * d1 + d0);
    lemma_fundamental_div_mod_converse(10 * d3 + d2, 10, d3, d2);
    lemma_fundamental_div_mod_converse(n, 10, 100 * d3 + 10 * d2 + d1, d0);
    lemma_fundamental_div_mod_converse(100 * d3 + 10 * d2 + d1, 10, 10 * d3 + d2, d1);
}

} // verus!
