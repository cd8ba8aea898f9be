//! Dates of the proleptic Gregorian calendar, as chrono's `NaiveDate` knows them.
use chrono::Datelike;
use vstd::prelude::*;

verus! {

/// A day of the week.
#[derive(Clone, Copy, Debug, PartialEq, Eq, Structural)]
pub enum Weekday {
    Mon,
    Tue,
    Wed,
    Thu,
    Fri,
    Sat,
    Sun,
}

/// A calendar date held as plain numbers.
#[derive(Clone, Copy, Debug, PartialEq, Eq, Structural)]
pub struct CalendarDate {
    pub year: i32,
    pub month: u32,
    pub day: u32,
}

/// The first year that chrono's `NaiveDate` can hold.
pub open spec fn min_year() -> int {
    -262143
}

/// The last year that chrono's `NaiveDate` can hold.
pub open spec fn max_year() -> int {
    262142
}

pub open spec fn is_leap_year(y: int) -> bool {
    y % 4 == 0 && (y % 100 != 0 || y % 400 == 0)
}

/// Number of days of month `m` (1 to 12) in year `y`; 0 for any other `m`.
pub open spec fn days_in_month(y: int, m: int) -> int {
    if m == 1 || m == 3 || m == 5 || m == 7 || m == 8 || m == 10 || m == 12 {
        31
    } else if m == 4 || m == 6 || m == 9 || m == 11 {
        30
    } else if m == 2 {
        if is_leap_year(y) {
            29
        } else {
            28
        }
    } else {
        0
    }
}

/// The date exists and lies in the range of chrono's `NaiveDate`.
pub open spec fn is_valid_ymd(y: int, m: int, d: int) -> bool {
    &&& min_year() <= y <= max_year()
    &&& 1 <= m <= 12
    &&& 1 <= d <= days_in_month(y, m)
}

/// Days of the years before year `y`, counted from 0001-01-01.
pub open spec fn days_before_year(y: int) -> int {
    365 * (y - 1) + (y - 1) / 4 - (y - 1) / 100 + (y - 1) / 400
}

/// Days of the months of year `y` before month `m`.
pub open spec fn days_before_month(y: int, m: int) -> int
    decreases m,
{
    if m <= 1 {
        0
    } else {
        days_before_month(y, m - 1) + days_in_month(y, m - 1)
    }
}

/// The number of the day, 0001-01-01 being day 1.
pub open spec fn day_number(y: int, m: int, d: int) -> int {
    days_before_year(y) + days_before_month(y, m) + d
}

pub open spec fn weekday_from_index(i: int) -> Weekday {
    if i == 0 {
        Weekday::Mon
    } else if i == 1 {
        Weekday::Tue
    } else if i == 2 {
        Weekday::Wed
    } else if i == 3 {
        Weekday::Thu
    } else if i == 4 {
        Weekday::Fri
    } else if i == 5 {
        Weekday::Sat
    } else {
        Weekday::Sun
    }
}

/// The day of the week of a date; 0001-01-01 was a Monday.
pub open spec fn weekday_of(y: int, m: int, d: int) -> Weekday {
    weekday_from_index((day_number(y, m, d) - 1) % 7)
}

/// The calendar day after a date.
pub open spec fn next_date(y: int, m: int, d: int) -> (int, int, int) {
    if d < days_in_month(y, m) {
        (y, m, d + 1)
    } else if m < 12 {
        (y, m + 1, 1)
    } else {
        (y + 1, 1, 1)
    }
}

impl CalendarDate {
    pub open spec fn is_valid(self) -> bool {
        is_valid_ymd(self.year as int, self.month as int, self.day as int)
    }

    /// The last date that chrono's `NaiveDate` can hold.
    pub open spec fn is_last(self) -> bool {
        self.year == max_year() && self.month == 12 && self.day == 31
    }

    pub open spec fn weekday_spec(self) -> Weekday {
        weekday_of(self.year as int, self.month as int, self.day as int)
    }

    pub open spec fn next_spec(self) -> CalendarDate {
        let n = next_date(self.year as int, self.month as int, self.day as int);
        CalendarDate { year: n.0 as i32, month: n.1 as u32, day: n.2 as u32 }
    }
}

/// Calls chrono's `NaiveDate::from_ymd_opt`: claims that it returns a date
/// exactly when the year, month and day name an existing day of the
/// proleptic Gregorian calendar within the years that `NaiveDate` holds.
#[verifier::external_body]
pub(crate) fn chrono_date_exists(year: i32, month: u32, day: u32) -> (exists: bool)
    ensures
        exists == is_valid_ymd(year as int, month as int, day as int),
{
    chrono::NaiveDate::from_ymd_opt(year, month, day).is_some()
}

/// Calls chrono's `NaiveDate::succ_opt` on the date (built with
/// `from_ymd_opt`, read back with `year`, `month` and `day`): claims that it
/// returns the next calendar day, and nothing for the last date `NaiveDate`
/// can hold.
#[verifier::external_body]
pub(crate) fn chrono_succ(date: CalendarDate) -> (next: Option<CalendarDate>)
    requires
        date.is_valid(),
    ensures
        date.is_last() ==> next is None,
        !date.is_last() ==> next == Some(date.next_spec()),
{
    let nd = chrono::NaiveDate::from_ymd_opt(date.year, date.month, date.day).unwrap();
    match nd.succ_opt() {
        Some(n) => Some(CalendarDate { year: n.year(), month: n.month(), day: n.day() }),
        None => None,
    }
}

/// Calls chrono's `Datelike::weekday` on the date (built with
/// `from_ymd_opt`): claims that it returns the day of the week of the
/// proleptic Gregorian calendar.
#[verifier::external_body]
pub(crate) fn chrono_weekday(date: CalendarDate) -> (w: Weekday)
    requires
        date.is_valid(),
    ensures
        w == date.weekday_spec(),
{
    match chrono::NaiveDate::from_ymd_opt(date.year, date.month, date.day).unwrap().weekday() {
        chrono::Weekday::Mon => Weekday::Mon,
        chrono::Weekday::Tue => Weekday::Tue,
        chrono::Weekday::Wed => Weekday::Wed,
        chrono::Weekday::Thu => Weekday::Thu,
        chrono::Weekday::Fri => Weekday::Fri,
        chrono::Weekday::Sat => Weekday::Sat,
        chrono::Weekday::Sun => Weekday::Sun,
    }
}

/// Calls chrono's `Local::now` and takes its calendar date with
/// `date_naive`. The result depends on the clock and the local time zone;
/// all that is claimed is that it is a date that `NaiveDate` can hold.
/// `Local::now` panics when the system clock reads a time before
/// 1970-01-01; that depends on the machine, not on any argument.
#[verifier::external_body]
pub(crate) fn chrono_today() -> (today: CalendarDate)
    ensures
        today.is_valid(),
{
    let d = chrono::Local::now().date_naive();
    CalendarDate { year: d.year(), month: d.month(), day: d.day() }
}

} // verus!
