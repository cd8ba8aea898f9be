//! Laying out a month: its days, grouped into weeks that end on Sunday,
//! each day with its name, its saved event or holiday name, and whether it
//! is a working day.
use crate::date::{
    chrono_date_exists, chrono_succ, chrono_today, chrono_weekday, day_number, days_in_month,
    is_valid_ymd, max_year, min_year, weekday_from_index, weekday_of, CalendarDate, Weekday,
};
use crate::model::{Day, DayView, Month, MonthView, Week};
use crate::names::{get_month_name, get_weekday_name, month_name, weekday_name};
use std::collections::HashMap;
use vstd::prelude::*;
use vstd::string::*;

verus! {

broadcast use vstd::std_specs::hash::group_hash_axioms;

/// A month that the calendar can lay out: its first day exists, and its last
/// day is not the last day that chrono can hold.
pub open spec fn is_listable_month(month: u32, year: u32) -> bool {
    &&& is_valid_ymd(year as i32 as int, month as int, 1)
    &&& !(year as i32 == max_year() && month == 12)
}

/// Number of days of `month` in `year`.
pub open spec fn month_length(month: u32, year: u32) -> int {
    days_in_month(year as i32 as int, month as int)
}

/// The `d`-th day of `month` in `year`.
pub open spec fn date_of(month: u32, year: u32, d: int) -> CalendarDate {
    CalendarDate { year: year as i32, month, day: d as u32 }
}

/// The months the calendar can lay out are exactly the months 1 to 12 of
/// the years chrono holds, except December of the last one: whether a month
/// can be laid out does not depend on its length.
pub proof fn lemma_listable_months(month: u32, year: u32)
    ensures
        is_listable_month(month, year) == (1 <= month <= 12 && min_year() <= year as i32 <= max_year()
            && !(year as i32 == max_year() && month == 12)),
{
}

/// Tells whether the calendar can lay out `month` of `year`.
pub fn can_list_month(month: u32, year: u32) -> (ok: bool)
    ensures
        ok == is_listable_month(month, year),
        ok == (1 <= month <= 12 && min_year() <= year as i32 <= max_year() && !(year as i32
            == max_year() && month == 12)),
{
    let y = year as i32;
    if !chrono_date_exists(y, month, 1) {
        return false;
    }
    if month == 12 {
        chrono_date_exists(y + 1, 1, 1)
    } else {
        true
    }
}

/// All days of `month` in `year`, from the first to the last.
pub fn get_month_days(month: u32, year: u32) -> (days: Vec<CalendarDate>)
    requires
        is_listable_month(month, year),
    ensures
        days@.len() == month_length(month, year),
        forall|i: int| 0 <= i < days@.len() ==> #[trigger] days@[i] == date_of(month, year, i + 1),
{
    let y = year as i32;
    let ghost len = month_length(month, year);
    let mut days: Vec<CalendarDate> = Vec::new();
    let mut dt = CalendarDate { year: y, month, day: 1 };
    loop
        invariant_except_break
            dt == date_of(month, year, days@.len() as int + 1),
            days@.len() < len,
        invariant
            is_listable_month(month, year),
            y == year as i32,
            len == month_length(month, year),
            28 <= len <= 31,
            forall|i: int| 0 <= i < days@.len() ==> #[trigger] days@[i] == date_of(month, year, i + 1),
        ensures
            days@.len() == len,
        decreases len - days@.len(),
    {
        days.push(dt);
        assert(dt.is_valid());
        let next = chrono_succ(dt);
        dt = next.unwrap();
        if dt.month != month {
            break;
        }
    }
    days
}


/// A table from day to text, with its texts as character sequences.
pub open spec fn text_table(table: Map<u32, String>) -> Map<u32, Seq<char>> {
    table.map_values(|s: String| s@)
}

/// The saved event of day `d`, or the empty text.
pub open spec fn saved_event(events: Map<u32, Seq<char>>, d: u32) -> Seq<char> {
    if events.contains_key(d) {
        events[d]
    } else {
        Seq::empty()
    }
}

/// Day `d` of `month` in `year` as the calendar shows it: its Czech weekday
/// name; its saved event, or the holiday's name where the day is a holiday
/// and nothing is saved; non-working on Saturday, Sunday and holidays;
/// current when it is `today`.
pub open spec fn expected_day(
    month: u32,
    year: u32,
    d: u32,
    events: Map<u32, Seq<char>>,
    holidays: Map<u32, Seq<char>>,
    today: CalendarDate,
) -> DayView {
    let w = weekday_of(year as i32 as int, month as int, d as int);
    let saved = saved_event(events, d);
    let is_holiday = holidays.contains_key(d);
    DayView {
        day: d,
        weekday: weekday_name(w),
        event: if is_holiday && saved.len() == 0 {
            holidays[d]
        } else {
            saved
        },
        is_non_workday: w == Weekday::Sat || w == Weekday::Sun || is_holiday,
        is_current_day: d == today.day && month == today.month && year == today.year as u32,
    }
}

/// All days of `month` in `year` as the calendar shows them, in order.
pub open spec fn expected_days(
    month: u32,
    year: u32,
    events: Map<u32, Seq<char>>,
    holidays: Map<u32, Seq<char>>,
    today: CalendarDate,
) -> Seq<DayView> {
    Seq::new(
        month_length(month, year) as nat,
        |i: int| expected_day(month, year, (i + 1) as u32, events, holidays, today),
    )
}

/// The shown day is a Sunday, the last day of a week.
pub open spec fn ends_week(month: u32, year: u32, d: DayView) -> bool {
    weekday_of(year as i32 as int, month as int, d.day as int) == Weekday::Sun
}

/// `weeks` cuts `days` into weeks: together they hold the days in order,
/// none is empty, every week but the last ends on a Sunday and no week has
/// a Sunday before its last day.
pub open spec fn is_split_into_weeks(
    weeks: Seq<Seq<DayView>>,
    days: Seq<DayView>,
    month: u32,
    year: u32,
) -> bool {
    &&& weeks.flatten() == days
    &&& forall|k: int| 0 <= k < weeks.len() ==> #[trigger] weeks[k].len() > 0
    &&& forall|k: int, j: int|
        0 <= k < weeks.len() && 0 <= j < weeks[k].len() - 1 ==> !ends_week(
            month,
            year,
            #[trigger] weeks[k][j],
        )
    &&& forall|k: int| 0 <= k < weeks.len() - 1 ==> ends_week(month, year, #[trigger] weeks[k].last())
}

/// `m` is `month` of `year` laid out with the given events, holidays and
/// current day.
pub open spec fn is_month_layout(
    m: MonthView,
    month: u32,
    year: u32,
    events: Map<u32, Seq<char>>,
    holidays: Map<u32, Seq<char>>,
    today: CalendarDate,
) -> bool {
    &&& m.month == month
    &&& m.year == year
    &&& m.name == month_name(month)
    &&& is_split_into_weeks(m.weeks, expected_days(month, year, events, holidays, today), month, year)
}

/// Lays out `month` of `year`: `events` maps a day of the month to its saved
/// event, `holidays` maps a day to the name of its public holiday, and the
/// day that is `today` is marked as current.
pub fn build_month(
    month: u32,
    year: u32,
    events: HashMap<u32, String>,
    holidays: &HashMap<u32, String>,
    today: CalendarDate,
) -> (m: Month)
    requires
        is_listable_month(month, year),
    ensures
        is_month_layout(m@, month, year, text_table(events@), text_table(holidays@), today),
{
    let ghost events0 = events@;
    let mut events = events;
    let ghost expected = expected_days(month, year, text_table(events0), text_table(holidays@), today);
    let name = get_month_name(month);
    let days = get_month_days(month, year);
    let mut weeks: Vec<Week> = Vec::new();
    let mut week: Vec<Day> = Vec::new();
    let mut i: usize = 0;
    while i < days.len()
        invariant
            is_listable_month(month, year),
            days@.len() == month_length(month, year),
            forall|k: int| 0 <= k < days@.len() ==> #[trigger] days@[k] == date_of(month, year, k + 1),
            expected == expected_days(month, year, text_table(events0), text_table(holidays@), today),
            0 <= i <= days@.len(),
            forall|d: u32|
                d > i ==> (#[trigger] events@.contains_key(d) == events0.contains_key(d) && (
                events0.contains_key(d) ==> events@[d] == events0[d])),
            weeks@.map_values(|w: Week| w@).flatten() + week@.map_values(|d: Day| d@)
                == expected.take(i as int),
            forall|k: int| 0 <= k < weeks@.len() ==> #[trigger] weeks@[k]@.len() > 0,
            forall|k: int, j: int|
                0 <= k < weeks@.len() && 0 <= j < weeks@[k]@.len() - 1 ==> !ends_week(
                    month,
                    year,
                    #[trigger] weeks@[k]@[j],
                ),
            forall|k: int| 0 <= k < weeks@.len() ==> ends_week(month, year, #[trigger] weeks@[k]@.last()),
            forall|j: int| 0 <= j < week@.len() ==> !ends_week(month, year, #[trigger] week@[j]@),
        decreases days@.len() - i,
    {
        let date = days[i];
        let wd = chrono_weekday(date);
        let mut non_workday = wd == Weekday::Sat || wd == Weekday::Sun;
        let weekday = get_weekday_name(wd);
        let day_number = date.day;
        let mut event = match events.remove(&day_number) {
            Some(e) => e,
            None => String::new(),
        };
        match holidays.get(&day_number) {
            Some(holiday) => {
                non_workday = true;
                if event.as_str().is_empty() {
                    event = holiday.clone();
                }
            },
            None => {},
        }
        let is_current_day = day_number == today.day && month == today.month && year
            == today.year as u32;
        let entry = Day { day: day_number, weekday, event, is_non_workday: non_workday, is_current_day };
        assert(entry@ == expected[i as int]);
        let ghost old_week = week@.map_values(|d: Day| d@);
        week.push(entry);
        assert(week@.map_values(|d: Day| d@) =~= old_week.push(entry@));
        assert(expected.take(i + 1) =~= expected.take(i as int).push(expected[i as int]));
        if wd == Weekday::Sun {
            let ghost old_weeks = weeks@.map_values(|w: Week| w@);
            let full = Week { days: week };
            weeks.push(full);
            assert(weeks@.map_values(|w: Week| w@) =~= old_weeks.push(full@));
            assert(old_weeks.push(full@).flatten() =~= old_weeks.flatten() + full@) by {
                old_weeks.lemma_flatten_push(full@);
            }
            week = Vec::new();
            assert(week@.map_values(|d: Day| d@) =~= Seq::<DayView>::empty());
        }
        i = i + 1;
    }
    if week.len() > 0 {
        let ghost old_weeks = weeks@.map_values(|w: Week| w@);
        let last = Week { days: week };
        weeks.push(last);
        assert(weeks@.map_values(|w: Week| w@) =~= old_weeks.push(last@));
        assert(old_weeks.push(last@).flatten() =~= old_weeks.flatten() + last@) by {
            old_weeks.lemma_flatten_push(last@);
        }
    } else {
        assert(week@.map_values(|d: Day| d@) =~= Seq::<DayView>::empty());
    }
    assert(expected.take(days@.len() as int) =~= expected);
    Month { month, year, name, weeks }
}


/// Lays out `month` of `year` as `build_month` does, marking the current
/// day of the local clock.
pub fn read_month(
    month: u32,
    year: u32,
    events: HashMap<u32, String>,
    holidays: &HashMap<u32, String>,
) -> (m: Month)
    requires
        is_listable_month(month, year),
    ensures
        exists|today: CalendarDate|
            today.is_valid() && is_month_layout(m@, month, year, text_table(events@), text_table(holidays@), today),
{
    let today = chrono_today();
    let m = build_month(month, year, events, holidays, today);
    assert(today.is_valid() && is_month_layout(m@, month, year, text_table(events@), text_table(holidays@), today));
    m
}

/// The current (month, year) of the local clock; the year is the date's
/// year taken as a `u32`.
pub fn current_month() -> (r: (u32, u32))
    ensures
        exists|today: CalendarDate| today.is_valid() && r == (today.month, today.year as u32),
        1 <= r.0 <= 12,
{
    let today = chrono_today();
    month_and_year(today)
}

/// The (month, year) of a date; the year is taken as a `u32`.
pub fn month_and_year(date: CalendarDate) -> (r: (u32, u32))
    ensures
        r == (date.month, date.year as u32),
{
    (date.month, date.year as u32)
}


/// The (day, event) pairs of a sequence of shown days.
pub open spec fn day_entries(days: Seq<DayView>) -> Seq<(u32, Seq<char>)> {
    days.map_values(|d: DayView| (d.day, d.event))
}

/// The shown days that carry an event.
pub open spec fn filled_days(days: Seq<DayView>) -> Seq<DayView> {
    days.filter(|d: DayView| d.event.len() > 0)
}

/// (day, event) pairs with their events as character sequences.
pub open spec fn entries_view(v: Seq<(u32, String)>) -> Seq<(u32, Seq<char>)> {
    v.map_values(|p: (u32, String)| (p.0, p.1@))
}

proof fn lemma_filled_days_push(days: Seq<DayView>, d: DayView)
    ensures
        filled_days(days.push(d)) == (if d.event.len() > 0 {
            filled_days(days).push(d)
        } else {
            filled_days(days)
        }),
{
    reveal_with_fuel(Seq::filter, 1);
    assert(days.push(d).drop_last() =~= days);
}

/// The (day, event) pairs of all days of `month`, or only of those with an
/// event when `only_filled` holds, in calendar order.
fn collect_entries(month: &Month, only_filled: bool) -> (entries: Vec<(u32, String)>)
    ensures
        entries_view(entries@) == day_entries(
            if only_filled {
                filled_days(month@.days())
            } else {
                month@.days()
            },
        ),
{
    let ghost weeks = month@.weeks;
    let ghost select = |x: Seq<DayView>|
        if only_filled {
            filled_days(x)
        } else {
            x
        };
    let mut entries: Vec<(u32, String)> = Vec::new();
    let ghost mut seen: Seq<DayView> = Seq::empty();
    assert(weeks.take(0) =~= Seq::<Seq<DayView>>::empty());
    assert(entries_view(entries@) =~= day_entries(select(seen))) by {
        reveal_with_fuel(Seq::filter, 1);
    }
    let mut i: usize = 0;
    while i < month.weeks.len()
        invariant
            weeks == month@.weeks,
            0 <= i <= weeks.len(),
            weeks.len() == month.weeks@.len(),
            seen == weeks.take(i as int).flatten(),
            entries_view(entries@) == day_entries(select(seen)),
            select == (|x: Seq<DayView>|
                if only_filled {
                    filled_days(x)
                } else {
                    x
                }),
        decreases weeks.len() - i,
    {
        let week = &month.weeks[i];
        let ghost wv = weeks[i as int];
        assert(wv == week@);
        let mut j: usize = 0;
        assert(wv.take(0) =~= Seq::<DayView>::empty());
        assert(seen + wv.take(0) =~= seen);
        while j < week.days.len()
            invariant
                weeks == month@.weeks,
                0 <= i < weeks.len(),
                weeks.len() == month.weeks@.len(),
                wv == weeks[i as int],
                wv == week@,
                0 <= j <= week.days@.len(),
                seen + wv.take(j as int) == weeks.take(i as int).flatten() + wv.take(j as int),
                entries_view(entries@) == day_entries(select(seen + wv.take(j as int))),
                select == (|x: Seq<DayView>|
                    if only_filled {
                        filled_days(x)
                    } else {
                        x
                    }),
            decreases week.days@.len() - j,
        {
            let d = &week.days[j];
            let ghost before = seen + wv.take(j as int);
            assert(before.push(d@) =~= seen + wv.take(j + 1));
            proof {
                lemma_filled_days_push(before, d@);
            }
            if !only_filled || !d.event.as_str().is_empty() {
                let ghost old_entries = entries@;
                entries.push((d.day, d.event.clone()));
                assert(entries_view(entries@) =~= entries_view(old_entries).push((d@.day, d@.event)));
                assert(day_entries(select(before.push(d@))) =~= day_entries(select(before)).push(
                    (d@.day, d@.event),
                ));
            } else {
                assert(select(before.push(d@)) == select(before));
            }
            j = j + 1;
        }
        proof {
            assert(wv.take(week.days@.len() as int) =~= wv);
            assert(weeks.take(i + 1) =~= weeks.take(i as int).push(wv));
            weeks.take(i as int).lemma_flatten_push(wv);
            seen = seen + wv;
        }
        i = i + 1;
    }
    assert(weeks.take(weeks.len() as int) =~= weeks);
    entries
}

/// The (day, event) pair of every day of `month`, in calendar order: what
/// is stored when a month is saved.
pub fn month_events(month: &Month) -> (entries: Vec<(u32, String)>)
    ensures
        entries_view(entries@) == day_entries(month@.days()),
{
    collect_entries(month, false)
}

/// The (day, event) pair of every day of `month` whose event is not empty,
/// in calendar order.
pub fn filled_month_events(month: &Month) -> (entries: Vec<(u32, String)>)
    ensures
        entries_view(entries@) == day_entries(filled_days(month@.days())),
{
    collect_entries(month, true)
}


/// The date that saving a month gives to its day `day`: month and day
/// are taken as bytes (`as u8`), the year as an `i32`.
pub open spec fn event_date(month: u32, year: u32, day: u32) -> CalendarDate {
    CalendarDate { year: year as i32, month: month as u8 as u32, day: day as u8 as u32 }
}

/// Some shown day of `m` is not a date of its month and year.
pub open spec fn has_dateless_day(m: MonthView) -> bool {
    exists|i: int|
        0 <= i < m.days().len() && !(#[trigger] event_date(m.month, m.year, m.days()[i].day)).is_valid()
}

/// The (date, event) pair of every day of `month`, in calendar order, as
/// saving the month stores them, with month and day numbers taken as bytes;
/// `None` when such a day is not a date.
pub fn month_event_dates(month: &Month) -> (r: Option<Vec<(CalendarDate, String)>>)
    ensures
        r is None <==> has_dateless_day(month@),
        r matches Some(v) ==> {
            &&& v@.len() == month@.days().len()
            &&& forall|i: int|
                0 <= i < v@.len() ==> {
                    &&& (#[trigger] v@[i]).0 == event_date(month.month, month.year, month@.days()[i].day)
                    &&& v@[i].1@ == month@.days()[i].event
                }
        },
{
    let entries = month_events(month);
    let ghost days = month@.days();
    assert(entries@.len() == days.len()) by {
        assert(entries_view(entries@).len() == day_entries(days).len());
    }
    let year = month.year as i32;
    let mut dated: Vec<(CalendarDate, String)> = Vec::new();
    let mut i: usize = 0;
    while i < entries.len()
        invariant
            entries_view(entries@) == day_entries(days),
            entries@.len() == days.len(),
            days == month@.days(),
            year == month.year as i32,
            0 <= i <= entries@.len(),
            dated@.len() == i,
            forall|k: int|
                0 <= k < i ==> {
                    &&& (#[trigger] dated@[k]).0 == event_date(month.month, month.year, days[k].day)
                    &&& dated@[k].1@ == days[k].event
                    &&& dated@[k].0.is_valid()
                },
        decreases entries@.len() - i,
    {
        let day = entries[i].0;
        assert(entries_view(entries@)[i as int] == day_entries(days)[i as int]);
        let month_number = month.month as u8 as u32;
        let day_number = day as u8 as u32;
        if !chrono_date_exists(year, month_number, day_number) {
            assert(entries@[i as int].0 == days[i as int].day);
            assert(!event_date(month@.month, month@.year, month@.days()[i as int].day).is_valid());
            return None;
        }
        assert(entries@[i as int].0 == days[i as int].day);
        assert(entries@[i as int].1@ == days[i as int].event);
        let date = CalendarDate { year, month: month_number, day: day_number };
        dated.push((date, entries[i].1.clone()));
        i = i + 1;
    }
    assert forall|k: int| 0 <= k < days.len() implies (#[trigger] event_date(
        month@.month,
        month@.year,
        month@.days()[k].day,
    )).is_valid() by {
        assert(dated@[k].0.is_valid());
    }
    Some(dated)
}

/// The table that saving (day, event) pairs in order leaves behind: a later
/// pair for the same day replaces an earlier one.
pub open spec fn entry_table(entries: Seq<(u32, Seq<char>)>) -> Map<u32, Seq<char>>
    decreases entries.len(),
{
    if entries.len() == 0 {
        Map::empty()
    } else {
        entry_table(entries.drop_last()).insert(entries.last().0, entries.last().1)
    }
}

/// A laid-out month lists every day of the month exactly once, in order:
/// its days are numbered 1 to the length of the month.
pub proof fn lemma_layout_lists_each_day(
    m: MonthView,
    month: u32,
    year: u32,
    events: Map<u32, Seq<char>>,
    holidays: Map<u32, Seq<char>>,
    today: CalendarDate,
)
    requires
        is_listable_month(month, year),
        is_month_layout(m, month, year, events, holidays, today),
    ensures
        m.days().len() == month_length(month, year),
        28 <= m.days().len() <= 31,
        forall|i: int| 0 <= i < m.days().len() ==> #[trigger] m.days()[i].day == i + 1,
{
}

/// In a laid-out month a day is non-working exactly when it is a Saturday,
/// a Sunday or a public holiday; it is shown as current exactly when it is
/// today's date.
pub proof fn lemma_non_working_days(
    m: MonthView,
    month: u32,
    year: u32,
    events: Map<u32, Seq<char>>,
    holidays: Map<u32, Seq<char>>,
    today: CalendarDate,
)
    requires
        is_listable_month(month, year),
        is_month_layout(m, month, year, events, holidays, today),
    ensures
        forall|i: int|
            0 <= i < m.days().len() ==> {
                let d = #[trigger] m.days()[i];
                let w = weekday_of(year as i32 as int, month as int, d.day as int);
                &&& d.is_non_workday == (w == Weekday::Sat || w == Weekday::Sun
                    || holidays.contains_key(d.day))
                &&& d.is_current_day == (d.day == today.day && month == today.month && year
                    == today.year as u32)
                &&& d.weekday == weekday_name(w)
            },
{
}

/// A laid-out month shows the saved event of a day; on a holiday with no
/// saved event it shows the holiday's name instead.
pub proof fn lemma_holiday_name_fills_empty_day(
    m: MonthView,
    month: u32,
    year: u32,
    events: Map<u32, Seq<char>>,
    holidays: Map<u32, Seq<char>>,
    today: CalendarDate,
)
    requires
        is_listable_month(month, year),
        is_month_layout(m, month, year, events, holidays, today),
    ensures
        forall|i: int|
            0 <= i < m.days().len() ==> {
                let d = #[trigger] m.days()[i];
                let saved = saved_event(events, d.day);
                &&& saved.len() > 0 ==> d.event == saved
                &&& saved.len() == 0 && holidays.contains_key(d.day) ==> d.event == holidays[d.day]
                &&& saved.len() == 0 && !holidays.contains_key(d.day) ==> d.event.len() == 0
            },
{
}

proof fn lemma_entry_table_prefix(days: Seq<DayView>, k: int)
    requires
        0 <= k <= days.len(),
        days.len() <= 31,
        forall|i: int| 0 <= i < days.len() ==> #[trigger] days[i].day == i + 1,
    ensures
        forall|d: u32| #[trigger]
            entry_table(day_entries(days.take(k))).contains_key(d) <==> 1 <= d <= k,
        forall|d: u32|
            1 <= d <= k ==> #[trigger] entry_table(day_entries(days.take(k)))[d] == days[d - 1].event,
    decreases k,
{
    if k == 0 {
        assert(day_entries(days.take(0)) =~= Seq::<(u32, Seq<char>)>::empty());
        assert(entry_table(day_entries(days.take(0))) == Map::<u32, Seq<char>>::empty());
    } else {
        lemma_entry_table_prefix(days, k - 1);
        let e = day_entries(days.take(k));
        assert(e.drop_last() =~= day_entries(days.take(k - 1)));
        assert(e.last() == (days[k - 1].day, days[k - 1].event));
        assert(entry_table(e) == entry_table(e.drop_last()).insert(e.last().0, e.last().1));
        assert(days[k - 1].day == k);
    }
}

/// Saving every shown day of a laid-out month and laying the month out
/// again from what was saved shows the same month: a holiday name that
/// filled an empty day is saved as that day's event and shown as before.
pub proof fn lemma_saved_month_reads_back(
    m: MonthView,
    month: u32,
    year: u32,
    events: Map<u32, Seq<char>>,
    holidays: Map<u32, Seq<char>>,
    today: CalendarDate,
)
    requires
        is_listable_month(month, year),
        is_month_layout(m, month, year, events, holidays, today),
    ensures
        is_month_layout(m, month, year, entry_table(day_entries(m.days())), holidays, today),
{
    let days = m.days();
    let saved = entry_table(day_entries(days));
    lemma_entry_table_prefix(days, days.len() as int);
    assert(days.take(days.len() as int) =~= days);
    let before = expected_days(month, year, events, holidays, today);
    let after = expected_days(month, year, saved, holidays, today);
    assert forall|i: int| 0 <= i < after.len() implies #[trigger] after[i] == before[i] by {
        let d = (i + 1) as u32;
        assert(saved.contains_key(d));
        assert(saved[d] == days[i].event);
    }
    assert(after =~= before);
}


proof fn lemma_entry_table_lookup(entries: Seq<(u32, Seq<char>)>, i: int)
    requires
        0 <= i < entries.len(),
        forall|a: int, b: int| 0 <= a < b < entries.len() ==> entries[a].0 != entries[b].0,
    ensures
        entry_table(entries).contains_key(entries[i].0),
        entry_table(entries)[entries[i].0] == entries[i].1,
    decreases entries.len(),
{
    let last = entries.last();
    assert(entry_table(entries) == entry_table(entries.drop_last()).insert(last.0, last.1));
    if i < entries.len() - 1 {
        assert(entries.drop_last()[i] == entries[i]);
        assert forall|a: int, b: int|
            0 <= a < b < entries.drop_last().len() implies entries.drop_last()[a].0
            != entries.drop_last()[b].0 by {
            assert(entries.drop_last()[a] == entries[a]);
            assert(entries.drop_last()[b] == entries[b]);
        }
        lemma_entry_table_lookup(entries.drop_last(), i);
        assert(entries[i].0 != last.0);
    }
}

/// Whatever month is saved, as long as its days are distinct days of the
/// month, laying the month out from what was saved shows every non-empty
/// saved text on its day, whatever the holidays and the current day are.
pub proof fn lemma_saved_events_read_back(
    saved: MonthView,
    month: u32,
    year: u32,
    holidays: Map<u32, Seq<char>>,
    today: CalendarDate,
    shown: MonthView,
)
    requires
        is_listable_month(month, year),
        forall|i: int|
            0 <= i < saved.days().len() ==> 1 <= #[trigger] saved.days()[i].day <= month_length(
                month,
                year,
            ),
        forall|i: int, j: int|
            0 <= i < j < saved.days().len() ==> saved.days()[i].day != saved.days()[j].day,
        is_month_layout(shown, month, year, entry_table(day_entries(saved.days())), holidays, today),
    ensures
        forall|i: int|
            0 <= i < saved.days().len() && saved.days()[i].event.len() > 0 ==> shown.days()[saved.days()[i].day
                - 1].event == saved.days()[i].event,
{
    let days = saved.days();
    let entries = day_entries(days);
    let table = entry_table(entries);
    assert forall|i: int|
        0 <= i < days.len() && days[i].event.len() > 0 implies shown.days()[days[i].day
        - 1].event == days[i].event by {
        assert forall|a: int, b: int|
            0 <= a < b < entries.len() implies entries[a].0 != entries[b].0 by {
            assert(entries[a].0 == days[a].day);
            assert(entries[b].0 == days[b].day);
        }
        lemma_entry_table_lookup(entries, i);
        assert(entries[i] == (days[i].day, days[i].event));
        let k = days[i].day - 1;
        assert(shown.days()[k] == expected_day(
            month,
            year,
            (k + 1) as u32,
            table,
            holidays,
            today,
        ));
    }
}

/// The position of a day in the week, Monday being 0.
pub open spec fn weekday_index(y: int, m: int, d: int) -> int {
    (day_number(y, m, d) - 1) % 7
}

proof fn lemma_weekday_index_step(y: int, m: int, d: int, j: int)
    requires
        j >= 0,
    ensures
        weekday_index(y, m, d + j) == (weekday_index(y, m, d) + j) % 7,
        weekday_of(y, m, d) == weekday_from_index(weekday_index(y, m, d)),
        weekday_of(y, m, d) == Weekday::Sun <==> weekday_index(y, m, d) == 6,
        weekday_of(y, m, d) == Weekday::Mon <==> weekday_index(y, m, d) == 0,
{
    assert(day_number(y, m, d + j) == day_number(y, m, d) + j);
    let a = day_number(y, m, d) - 1;
    assert((a + j) % 7 == (a % 7 + j) % 7) by {
        vstd::arithmetic::div_mod::lemma_add_mod_noop(a, j, 7);
        vstd::arithmetic::div_mod::lemma_mod_twice(j, 7);
        vstd::arithmetic::div_mod::lemma_add_mod_noop(a % 7, j, 7);
    }
}

proof fn lemma_flatten_index<A>(w: Seq<Seq<A>>, k: int, j: int)
    requires
        0 <= k < w.len(),
        0 <= j < w[k].len(),
    ensures
        w.take(k).flatten().len() + j < w.flatten().len(),
        w.flatten()[w.take(k).flatten().len() + j] == w[k][j],
{
    assert(w =~= w.take(k) + w.skip(k));
    vstd::seq_lib::lemma_flatten_concat(w.take(k), w.skip(k));
    assert(w.skip(k).drop_first() =~= w.skip(k + 1));
    assert(w.skip(k).flatten() == w[k] + w.skip(k + 1).flatten());
}

proof fn lemma_flatten_take_step<A>(w: Seq<Seq<A>>, k: int)
    requires
        0 <= k < w.len(),
    ensures
        w.take(k + 1).flatten().len() == w.take(k).flatten().len() + w[k].len(),
{
    assert(w.take(k + 1) =~= w.take(k).push(w[k]));
    w.take(k).lemma_flatten_push(w[k]);
}

/// A laid-out month is cut into calendar weeks: no week holds more than
/// seven days, every week after the first begins on a Monday, every week
/// between the first and the last holds all seven days, and a month spans
/// four to six weeks.
pub proof fn lemma_weeks_are_calendar_weeks(
    m: MonthView,
    month: u32,
    year: u32,
    events: Map<u32, Seq<char>>,
    holidays: Map<u32, Seq<char>>,
    today: CalendarDate,
)
    requires
        is_listable_month(month, year),
        is_month_layout(m, month, year, events, holidays, today),
    ensures
        forall|k: int| 0 <= k < m.weeks.len() ==> #[trigger] m.weeks[k].len() <= 7,
        forall|k: int|
            0 < k < m.weeks.len() ==> weekday_of(
                year as i32 as int,
                month as int,
                #[trigger] m.weeks[k][0].day as int,
            ) == Weekday::Mon,
        forall|k: int| 0 < k < m.weeks.len() - 1 ==> #[trigger] m.weeks[k].len() == 7,
        4 <= m.weeks.len() <= 6,
{
    let w = m.weeks;
    let days = m.days();
    let y = year as i32 as int;
    let mo = month as int;
    assert forall|k: int| 0 <= k < w.len() implies #[trigger] w[k].len() <= 7 by {
        let s = w.take(k).flatten().len();
        if w[k].len() > 7 {
            lemma_flatten_index(w, k, 0);
            let d0 = w[k][0].day as int;
            assert(d0 == s + 1);
            let j = (6 - weekday_index(y, mo, d0)) % 7;
            assert(0 <= j < 7);
            lemma_flatten_index(w, k, j);
            assert(w[k][j].day as int == d0 + j);
            lemma_weekday_index_step(y, mo, d0, j);
            lemma_weekday_index_step(y, mo, d0 + j, 0);
            assert(weekday_index(y, mo, d0 + j) == 6);
            assert(!ends_week(month, year, w[k][j]));
        }
    }
    assert forall|k: int| 0 < k < w.len() implies weekday_of(
        y,
        mo,
        #[trigger] w[k][0].day as int,
    ) == Weekday::Mon by {
        let p = k - 1;
        lemma_flatten_index(w, p, w[p].len() - 1);
        lemma_flatten_index(w, k, 0);
        lemma_flatten_take_step(w, p);
        let sun = w[p].last().day as int;
        assert(ends_week(month, year, w[p].last()));
        assert(w[k][0].day as int == sun + 1);
        lemma_weekday_index_step(y, mo, sun, 1);
        lemma_weekday_index_step(y, mo, sun + 1, 0);
    }
    assert forall|k: int| 0 < k < w.len() - 1 implies #[trigger] w[k].len() == 7 by {
        let p = k - 1;
        let n = w[k].len() as int;
        lemma_flatten_index(w, p, w[p].len() - 1);
        lemma_flatten_index(w, k, 0);
        lemma_flatten_index(w, k, n - 1);
        lemma_flatten_take_step(w, p);
        let sun = w[p].last().day as int;
        assert(ends_week(month, year, w[p].last()));
        assert(ends_week(month, year, w[k].last()));
        assert(w[k][0].day as int == sun + 1);
        assert(w[k][n - 1].day as int == sun + n);
        lemma_weekday_index_step(y, mo, sun, n);
        lemma_weekday_index_step(y, mo, sun + n, 0);
        assert(w[k].len() <= 7);
    }
    let len = w.len() as int;
    assert(w.flatten().len() == month_length(month, year));
    if len == 0 {
        assert(w.flatten() =~= Seq::<DayView>::empty());
    } else {
        lemma_flatten_take_step(w, len - 1);
        assert(w.take(len) =~= w);
        if len >= 2 {
            lemma_full_weeks_length(w, len - 1);
        } else {
            assert(w.take(0) =~= Seq::<Seq<DayView>>::empty());
            assert(w.take(0).flatten() =~= Seq::<DayView>::empty());
        }
    }
}

proof fn lemma_full_weeks_length(w: Seq<Seq<DayView>>, k: int)
    requires
        1 <= k < w.len(),
        forall|i: int| 0 < i < w.len() - 1 ==> #[trigger] w[i].len() == 7,
    ensures
        w.take(k).flatten().len() == w[0].len() + 7 * (k - 1),
    decreases k,
{
    lemma_flatten_take_step(w, k - 1);
    if k == 1 {
        assert(w.take(0) =~= Seq::<Seq<DayView>>::empty());
        assert(w.take(0).flatten() =~= Seq::<DayView>::empty());
    } else {
        lemma_full_weeks_length(w, k - 1);
    }
}

} // verus!
