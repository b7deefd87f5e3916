//! Calendar dates as day numbers, and weekdays.
use vstd::prelude::*;

verus! {

/// Day numbers stay within this distance of 1970-01-01: chrono's dates span fewer than
/// 96 million days on either side of it.
pub const DAY_LIMIT: i32 = 100_000_000;

/// A day of the week.
#[derive(Clone, Copy, Debug, PartialEq, Eq, Structural)]
pub enum Weekday {
    Mon,
    Tue,
    Wed,
    Thu,
    Fri,
    Sat,
    Sun,
}

impl Weekday {
    /// Position in the week, Monday being 0.
    pub open spec fn index(self) -> int {
        match self {
            Weekday::Mon => 0,
            Weekday::Tue => 1,
            Weekday::Wed => 2,
            Weekday::Thu => 3,
            Weekday::Fri => 4,
            Weekday::Sat => 5,
            Weekday::Sun => 6,
        }
    }
}

/// The weekday index (Monday being 0) of a day number; 1970-01-01 was a Thursday.
pub open spec fn weekday_index_of(day: int) -> int {
    (day + 3) % 7
}

/// A calendar date in the proleptic Gregorian calendar, as its number of days after
/// 1970-01-01 (earlier dates are negative).
#[derive(Clone, Copy, Debug, PartialEq, Eq, Structural)]
pub struct Date {
    pub days: i32,
}

/// The years that chrono's dates span.
pub const MIN_YEAR: i32 = -262_143;

pub const MAX_YEAR: i32 = 262_142;

/// A leap year of the proleptic Gregorian calendar.
pub open spec fn is_leap_year(year: int) -> bool {
    year % 4 == 0 && (year % 100 != 0 || year % 400 == 0)
}

pub open spec fn days_in_month(year: int, month: int) -> int {
    if month == 2 {
        if is_leap_year(year) {
            29
        } else {
            28
        }
    } else if month == 4 || month == 6 || month == 9 || month == 11 {
        30
    } else {
        31
    }
}

/// A calendar date that exists, in a year that chrono's dates span.
pub open spec fn is_civil_date(year: int, month: int, day: int) -> bool {
    &&& MIN_YEAR <= year <= MAX_YEAR
    &&& 1 <= month <= 12
    &&& 1 <= day <= days_in_month(year, month)
}

/// The day number of a date of the proleptic Gregorian calendar: years counted from March, so
/// that the leap day ends a year, in cycles of 400 years of 146097 days.
pub open spec fn days_from_civil(year: int, month: int, day: int) -> int {
    let y = if month <= 2 {
        year - 1
    } else {
        year
    };
    let era = y / 400;
    let year_of_era = y - era * 400;
    let month_from_march = (month + 9) % 12;
    let day_of_year = (153 * month_from_march + 2) / 5 + day - 1;
    let day_of_era = year_of_era * 365 + year_of_era / 4 - year_of_era / 100 + day_of_year;
    era * 146_097 + day_of_era - 719_468
}

/// Relies on chrono's `NaiveDate::from_ymd_opt` and `NaiveDate::to_epoch_days`: `None` for a
/// month or day that does not exist or a year beyond chrono's range, else the date's day number
/// in the proleptic Gregorian calendar. Any `NaiveDate` lies within `DAY_LIMIT` days of
/// 1970-01-01.
#[verifier::external_body]
fn day_from_ymd(year: i32, month: u32, day: u32) -> (r: Option<i32>)
    ensures
        r is Some <==> is_civil_date(year as int, month as int, day as int),
        r matches Some(n) ==> n == days_from_civil(year as int, month as int, day as int) && -DAY_LIMIT
            < n < DAY_LIMIT,
{
    match chrono::NaiveDate::from_ymd_opt(year, month, day) {
        Some(date) => Some(date.to_epoch_days()),
        None => None,
    }
}

impl Date {
    pub open spec fn in_range(self) -> bool {
        -DAY_LIMIT < self.days < DAY_LIMIT
    }

    /// The date with the given year, month (1 to 12) and day of month, if it exists.
    pub fn from_ymd(year: i32, month: u32, day: u32) -> (r: Option<Date>)
        ensures
            r is Some <==> is_civil_date(year as int, month as int, day as int),
            r matches Some(d) ==> d.days == days_from_civil(year as int, month as int, day as int)
                && d.in_range(),
    {
        match day_from_ymd(year, month, day) {
            Some(n) => Some(Date { days: n }),
            None => None,
        }
    }

    /// The day of the week of this date.
    pub fn weekday(self) -> (r: Weekday)
        ensures
            r.index() == weekday_index_of(self.days as int),
    {
        // Shift by a multiple of 7 so that the remainder is taken of a non-negative number.
        let shifted: i64 = self.days as i64 + 3 + 7 * 400_000_000;
        let k: i64 = shifted % 7;
        assert(k == (self.days as int + 3) % 7) by (nonlinear_arith)
            requires
                shifted == self.days as int + 3 + 7 * 400_000_000,
                shifted >= 0,
                k == shifted % 7,
        ;
        match k {
            0 => Weekday::Mon,
            1 => Weekday::Tue,
            2 => Weekday::Wed,
            3 => Weekday::Thu,
            4 => Weekday::Fri,
            5 => Weekday::Sat,
            _ => Weekday::Sun,
        }
    }
}

} // verus!
