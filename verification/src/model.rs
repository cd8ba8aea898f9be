//! A month of the calendar: its weeks, and in them its days.
use crate::date::{days_in_month, next_date};
use vstd::prelude::*;

verus! {

/// One day of the calendar.
#[derive(Clone, Debug)]
pub struct Day {
    pub day: u32,
    pub weekday: String,
    pub event: String,
    pub is_non_workday: bool,
    pub is_current_day: bool,
}

/// What a `Day` holds, with its strings as character sequences.
pub struct DayView {
    pub day: u32,
    pub weekday: Seq<char>,
    pub event: Seq<char>,
    pub is_non_workday: bool,
    pub is_current_day: bool,
}

impl View for Day {
    type V = DayView;

    open spec fn view(&self) -> DayView {
        DayView {
            day: self.day,
            weekday: self.weekday@,
            event: self.event@,
            is_non_workday: self.is_non_workday,
            is_current_day: self.is_current_day,
        }
    }
}

/// The days of one week of a month, in order.
#[derive(Clone, Debug)]
pub struct Week {
    pub days: Vec<Day>,
}

impl View for Week {
    type V = Seq<DayView>;

    open spec fn view(&self) -> Seq<DayView> {
        self.days@.map_values(|d: Day| d@)
    }
}

/// A month of a year with its name and its weeks.
#[derive(Clone, Debug)]
pub struct Month {
    pub month: u32,
    pub year: u32,
    pub name: String,
    pub weeks: Vec<Week>,
}

/// What a `Month` holds, with strings as character sequences and weeks as
/// sequences of days.
pub struct MonthView {
    pub month: u32,
    pub year: u32,
    pub name: Seq<char>,
    pub weeks: Seq<Seq<DayView>>,
}

impl View for Month {
    type V = MonthView;

    open spec fn view(&self) -> MonthView {
        MonthView {
            month: self.month,
            year: self.year,
            name: self.name@,
            weeks: self.weeks@.map_values(|w: Week| w@),
        }
    }
}

impl MonthView {
    /// All days of the month, week after week.
    pub open spec fn days(self) -> Seq<DayView> {
        self.weeks.flatten()
    }
}

/// The month after `month` of `year`, as (month, year).
pub open spec fn next_month(month: u32, year: u32) -> (u32, u32) {
    if month == 12 {
        (1, (year + 1) as u32)
    } else {
        ((month + 1) as u32, year)
    }
}

/// The month before `month` of `year`, as (month, year).
pub open spec fn previous_month(month: u32, year: u32) -> (u32, u32) {
    if month == 1 {
        (12, (year - 1) as u32)
    } else {
        ((month - 1) as u32, year)
    }
}

/// `next_month` stays within the numbers that a `u32` holds.
pub open spec fn has_next_month(month: u32, year: u32) -> bool {
    if month == 12 {
        year < u32::MAX
    } else {
        month < u32::MAX
    }
}

/// `previous_month` stays within the numbers that a `u32` holds.
pub open spec fn has_previous_month(month: u32, year: u32) -> bool {
    if month == 1 {
        year > 0
    } else {
        month > 0
    }
}

impl Month {
    /// Get previous month as tuple (month, year).
    pub fn previous(&self) -> (r: (u32, u32))
        requires
            has_previous_month(self.month, self.year),
        ensures
            r == previous_month(self.month, self.year),
            self.month == 1 ==> r.0 == 12 && r.1 == self.year - 1,
            self.month != 1 ==> r.0 == self.month - 1 && r.1 == self.year,
    {
        if self.month == 1 {
            (12, self.year - 1)
        } else {
            (self.month - 1, self.year)
        }
    }

    /// Get next month as tuple (month, year).
    pub fn next(&self) -> (r: (u32, u32))
        requires
            has_next_month(self.month, self.year),
        ensures
            r == next_month(self.month, self.year),
            self.month == 12 ==> r.0 == 1 && r.1 == self.year + 1,
            self.month != 12 ==> r.0 == self.month + 1 && r.1 == self.year,
    {
        if self.month == 12 {
            (1, self.year + 1)
        } else {
            (self.month + 1, self.year)
        }
    }

    /// The placeholder month: month and year 0, no name, no weeks.
    pub fn empty() -> (m: Month)
        ensures
            m@.month == 0,
            m@.year == 0,
            m@.name == Seq::<char>::empty(),
            m@.weeks == Seq::<Seq<DayView>>::empty(),
    {
        let m = Month { month: 0, year: 0, name: String::new(), weeks: Vec::new() };
        assert(m@.weeks =~= Seq::<Seq<DayView>>::empty());
        m
    }
}

/// Going forward one month and then back one month returns to the month
/// one started from, for every month from January to December.
pub proof fn lemma_previous_undoes_next(month: u32, year: u32)
    requires
        1 <= month <= 12,
        has_next_month(month, year),
    ensures
        has_previous_month(next_month(month, year).0, next_month(month, year).1),
        previous_month(next_month(month, year).0, next_month(month, year).1) == (month, year),
{
}

/// Going back one month and then forward one month returns to the month
/// one started from, for every month from January to December.
pub proof fn lemma_next_undoes_previous(month: u32, year: u32)
    requires
        1 <= month <= 12,
        has_previous_month(month, year),
    ensures
        has_next_month(previous_month(month, year).0, previous_month(month, year).1),
        next_month(previous_month(month, year).0, previous_month(month, year).1) == (month, year),
{
}

/// The month after, and the month before, a month from January to December
/// is again a month from January to December.
pub proof fn lemma_neighbour_months_are_months(month: u32, year: u32)
    requires
        1 <= month <= 12,
    ensures
        has_next_month(month, year) ==> 1 <= next_month(month, year).0 <= 12,
        has_previous_month(month, year) ==> 1 <= previous_month(month, year).0 <= 12,
{
}


/// The month after a month is the one that holds the day after its last
/// day: December is followed by January of the next year, every other
/// month by the month numbered one more in the same year.
pub proof fn lemma_next_month_follows_last_day(month: u32, year: u32)
    requires
        1 <= month <= 12,
        has_next_month(month, year),
    ensures
        month < 12 ==> next_month(month, year) == ((month + 1) as u32, year),
        month == 12 ==> next_month(month, year) == (1u32, (year + 1) as u32),
        next_date(year as int, month as int, days_in_month(year as int, month as int)) == (
            next_month(month, year).1 as int,
            next_month(month, year).0 as int,
            1int,
        ),
{
}

/// The month before a month is the one whose last day comes just before
/// its first day: January is preceded by December of the year before, every
/// other month by the month numbered one less in the same year.
pub proof fn lemma_previous_month_precedes_first_day(month: u32, year: u32)
    requires
        1 <= month <= 12,
        has_previous_month(month, year),
    ensures
        month > 1 ==> previous_month(month, year) == ((month - 1) as u32, year),
        month == 1 ==> previous_month(month, year) == (12u32, (year - 1) as u32),
        next_date(
            previous_month(month, year).1 as int,
            previous_month(month, year).0 as int,
            days_in_month(previous_month(month, year).1 as int, previous_month(month, year).0 as int),
        ) == (year as int, month as int, 1int),
{
}

} // verus!
