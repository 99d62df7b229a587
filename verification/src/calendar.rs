//! Days of the proleptic Gregorian calendar.

use crate::text::decimal;
use vstd::prelude::*;

verus! {

/// The first year that a day can lie in.
pub const MIN_YEAR: i32 = -262143;

/// The last year that a day can lie in.
pub const MAX_YEAR: i32 = 262142;

pub open spec fn is_leap_year(year: int) -> bool {
    year % 4 == 0 && (year % 100 != 0 || year % 400 == 0)
}

pub open spec fn days_in_month(year: int, month: int) -> int {
    if month == 2 {
        if is_leap_year(year) {
            29
        } else {
            28
        }
    } else if month == 4 || month == 6 || month == 9 || month == 11 {
        30
    } else {
        31
    }
}

/// The day `day` of the month `month` of the year `year` exists.
pub open spec fn is_calendar_date(year: int, month: int, day: int) -> bool {
    1 <= month <= 12 && 1 <= day <= days_in_month(year, month)
}

/// Asks `chrono::NaiveDate::from_ymd_opt` whether a calendar date exists.
///
/// For a year that `NaiveDate` can hold, chrono gives a date exactly when
/// the month is one of the twelve and the day is one of that month, with
/// 29 days in the February of a leap year. That is what is claimed here.
#[verifier::external_body]
fn date_exists(year: i32, month: u32, day: u32) -> (b: bool)
    requires
        MIN_YEAR <= year <= MAX_YEAR,
    ensures
        b == is_calendar_date(year as int, month as int, day as int),
{
    chrono::NaiveDate::from_ymd_opt(year, month, day).is_some()
}

/// `n` in decimal, with zeros in front where it has fewer digits than
/// `width`.
pub open spec fn padded(n: nat, width: nat) -> Seq<char> {
    Seq::new(
        if decimal(n).len() < width {
            (width - decimal(n).len()) as nat
        } else {
            0
        },
        |i: int| '0',
    ) + decimal(n)
}

/// A year as text: four digits at least; a year before 0 or after 9999
/// has its sign in front.
pub open spec fn year_text(year: int) -> Seq<char> {
    if 0 <= year <= 9999 {
        padded(year as nat, 4)
    } else if year < 0 {
        seq!['-'] + padded((-year) as nat, 4)
    } else {
        seq!['+'] + padded(year as nat, 4)
    }
}

/// A date as text: the year, the month and the day of the month, the last
/// two with two digits each, with hyphens between.
pub open spec fn iso_date(year: int, month: int, day: int) -> Seq<char> {
    year_text(year) + seq!['-'] + padded(month as nat, 2) + seq!['-'] + padded(day as nat, 2)
}

/// Has `chrono` write a date with the format `%Y-%m-%d`. chrono writes the
/// year with zeros in front up to four digits, and with its sign where it
/// lies before 0 or after 9999; then the month and the day of the month
/// with two digits each; with hyphens between. That is what is claimed
/// here. The date must exist, so that there is something to write.
#[verifier::external_body]
fn format_date(year: i32, month: u32, day: u32) -> (text: String)
    requires
        MIN_YEAR <= year <= MAX_YEAR,
        is_calendar_date(year as int, month as int, day as int),
    ensures
        text@ == iso_date(year as int, month as int, day as int),
{
    match chrono::NaiveDate::from_ymd_opt(year, month, day) {
        Some(date) => date.format("%Y-%m-%d").to_string(),
        None => String::new(),
    }
}

/// `a` is an earlier day than `b`.
pub open spec fn day_before(a: (int, int, int), b: (int, int, int)) -> bool {
    a.0 < b.0 || (a.0 == b.0 && (a.1 < b.1 || (a.1 == b.1 && a.2 < b.2)))
}

/// A day that exists: a year, a month and a day of that month.
#[derive(Clone, Copy, Debug, PartialEq, Eq)]
pub struct Day {
    year: i32,
    month: u32,
    day: u32,
}

impl View for Day {
    type V = (int, int, int);

    closed spec fn view(&self) -> (int, int, int) {
        (self.year as int, self.month as int, self.day as int)
    }
}

impl Day {
    #[verifier::type_invariant]
    spec fn on_calendar(self) -> bool {
        MIN_YEAR <= self.year <= MAX_YEAR && is_calendar_date(
            self.year as int,
            self.month as int,
            self.day as int,
        )
    }

    /// The day with the given year, month and day of the month, if there
    /// is such a day.
    pub fn from_ymd_opt(year: i32, month: u32, day: u32) -> (r: Option<Day>)
        ensures
            r is Some <==> MIN_YEAR <= year <= MAX_YEAR && is_calendar_date(
                year as int,
                month as int,
                day as int,
            ),
            r matches Some(d) ==> d@ == (year as int, month as int, day as int),
    {
        if year < MIN_YEAR || year > MAX_YEAR {
            return None;
        }
        if date_exists(year, month, day) {
            Some(Day { year, month, day })
        } else {
            None
        }
    }

    pub fn year(&self) -> (year: i32)
        ensures
            year == self@.0,
            MIN_YEAR <= year <= MAX_YEAR,
    {
        proof {
            use_type_invariant(self);
        }
        self.year
    }

    pub fn month(&self) -> (month: u32)
        ensures
            month == self@.1,
            1 <= month <= 12,
    {
        proof {
            use_type_invariant(self);
        }
        self.month
    }

    pub fn day(&self) -> (day: u32)
        ensures
            day == self@.2,
            is_calendar_date(self@.0, self@.1, self@.2),
    {
        proof {
            use_type_invariant(self);
        }
        self.day
    }

    /// The day as text: year, month and day of the month, with hyphens
    /// between.
    pub fn to_string(&self) -> (text: String)
        ensures
            text@ == iso_date(self@.0, self@.1, self@.2),
    {
        proof {
            use_type_invariant(self);
        }
        format_date(self.year, self.month, self.day)
    }

    /// Whether this day is earlier than `other`.
    pub fn before(&self, other: &Day) -> (b: bool)
        ensures
            b == day_before(self@, other@),
    {
        self.year < other.year || (self.year == other.year && (self.month < other.month || (
        self.month == other.month && self.day < other.day)))
    }
}

} // verus!
