use std::collections::HashMap;

use mcalendar::calendar::{
    build_month, current_month, filled_month_events, month_and_year, month_event_dates, month_events, read_month,
};
use mcalendar::date::CalendarDate;
use mcalendar::model::{Day, Month};

fn no_day() -> CalendarDate {
    CalendarDate { year: 1, month: 1, day: 1 }
}

fn all_days(m: &Month) -> Vec<&Day> {
    m.weeks.iter().flat_map(|w| w.days.iter()).collect()
}

#[test]
fn november_2018_is_laid_out_in_calendar_weeks() {
    let m = build_month(11, 2018, HashMap::new(), &HashMap::new(), no_day());
    assert_eq!(m.month, 11);
    assert_eq!(m.year, 2018);
    assert_eq!(m.name, "Listopad");
    let lens: Vec<usize> = m.weeks.iter().map(|w| w.days.len()).collect();
    assert_eq!(lens, vec![4, 7, 7, 7, 5]);
    let days = all_days(&m);
    assert_eq!(days.len(), 30);
    for (i, d) in days.iter().enumerate() {
        assert_eq!(d.day, i as u32 + 1);
        assert_eq!(d.event, "");
        assert!(!d.is_current_day);
    }
    // 1 November 2018 was a Thursday
    assert_eq!(days[0].weekday, "Čtvrtek");
    assert_eq!(days[3].weekday, "Neděle");
    assert_eq!(days[4].weekday, "Pondělí");
    assert!(days[2].is_non_workday && days[3].is_non_workday);
    assert!(!days[0].is_non_workday && !days[4].is_non_workday);
    for w in &m.weeks[..m.weeks.len() - 1] {
        assert_eq!(w.days.last().unwrap().weekday, "Neděle");
    }
}

#[test]
fn weekday_names_follow_the_calendar() {
    // 8 September 2015 was a Tuesday
    let m = build_month(9, 2015, HashMap::new(), &HashMap::new(), no_day());
    assert_eq!(all_days(&m)[7].weekday, "Úterý");
    // 14 March 308 BCE (year -308) was a Friday
    let m = build_month(3, (-308i32) as u32, HashMap::new(), &HashMap::new(), no_day());
    assert_eq!(all_days(&m)[13].weekday, "Pátek");
    // 1 January of year 1 was a Monday
    let m = build_month(1, 1, HashMap::new(), &HashMap::new(), no_day());
    assert_eq!(all_days(&m)[0].weekday, "Pondělí");
    assert_eq!(m.weeks[0].days.len(), 7);
}

#[test]
fn month_starting_on_monday_with_full_weeks() {
    // February 2021 starts on a Monday and has exactly four weeks
    let m = build_month(2, 2021, HashMap::new(), &HashMap::new(), no_day());
    let lens: Vec<usize> = m.weeks.iter().map(|w| w.days.len()).collect();
    assert_eq!(lens, vec![7, 7, 7, 7]);
    // August 2021 starts on a Sunday
    let m = build_month(8, 2021, HashMap::new(), &HashMap::new(), no_day());
    let lens: Vec<usize> = m.weeks.iter().map(|w| w.days.len()).collect();
    assert_eq!(lens, vec![1, 7, 7, 7, 7, 2]);
}

#[test]
fn saved_events_and_holidays() {
    let mut events = HashMap::new();
    events.insert(5, "Zubař".to_string());
    events.insert(1, "Porada".to_string());
    events.insert(40, "mimo měsíc".to_string());
    let mut holidays = HashMap::new();
    holidays.insert(28, "Den vzniku samostatného československého státu".to_string());
    holidays.insert(1, "Svátek".to_string());
    let m = build_month(10, 2021, events, &holidays, no_day());
    let days = all_days(&m);
    assert_eq!(days.len(), 31);
    assert_eq!(days[4].event, "Zubař");
    // a saved event wins over the holiday name
    assert_eq!(days[0].event, "Porada");
    assert!(days[0].is_non_workday);
    // 28 October 2021 was a Thursday and a holiday with nothing saved
    assert_eq!(days[27].weekday, "Čtvrtek");
    assert_eq!(days[27].event, "Den vzniku samostatného československého státu");
    assert!(days[27].is_non_workday);
    assert!(!days[26].is_non_workday);
}

#[test]
fn empty_saved_event_on_holiday_shows_holiday_name() {
    let mut events = HashMap::new();
    events.insert(28, String::new());
    let mut holidays = HashMap::new();
    holidays.insert(28, "Státní svátek".to_string());
    let m = build_month(10, 2021, events, &holidays, no_day());
    assert_eq!(all_days(&m)[27].event, "Státní svátek");
}

#[test]
fn current_day_is_marked() {
    let today = CalendarDate { year: 2021, month: 10, day: 13 };
    let m = build_month(10, 2021, HashMap::new(), &HashMap::new(), today);
    let current: Vec<u32> = all_days(&m).iter().filter(|d| d.is_current_day).map(|d| d.day).collect();
    assert_eq!(current, vec![13]);
    let m = build_month(11, 2021, HashMap::new(), &HashMap::new(), today);
    assert!(all_days(&m).iter().all(|d| !d.is_current_day));
}

#[test]
fn read_month_marks_today_in_current_month() {
    let (month, year) = current_month();
    assert!((1..=12).contains(&month));
    let m = read_month(month, year, HashMap::new(), &HashMap::new());
    let current = all_days(&m).iter().filter(|d| d.is_current_day).count();
    assert_eq!(current, 1);
}

#[test]
fn month_events_lists_every_day() {
    let mut events = HashMap::new();
    events.insert(3, "Výlet".to_string());
    let mut holidays = HashMap::new();
    holidays.insert(1, "Nový rok".to_string());
    let m = build_month(1, 2022, events, &holidays, no_day());
    let all = month_events(&m);
    assert_eq!(all.len(), 31);
    assert_eq!(all[0], (1, "Nový rok".to_string()));
    assert_eq!(all[1], (2, String::new()));
    assert_eq!(all[2], (3, "Výlet".to_string()));
    let filled = filled_month_events(&m);
    assert_eq!(filled, vec![(1, "Nový rok".to_string()), (3, "Výlet".to_string())]);
}

#[test]
fn saved_month_reads_back_the_same() {
    let mut events = HashMap::new();
    events.insert(3, "Výlet".to_string());
    let mut holidays = HashMap::new();
    holidays.insert(1, "Nový rok".to_string());
    let first = build_month(1, 2022, events, &holidays, no_day());
    let saved: HashMap<u32, String> = month_events(&first).into_iter().collect();
    let second = build_month(1, 2022, saved, &holidays, no_day());
    let a: Vec<(u32, String, String, bool)> = all_days(&first)
        .iter()
        .map(|d| (d.day, d.weekday.clone(), d.event.clone(), d.is_non_workday))
        .collect();
    let b: Vec<(u32, String, String, bool)> = all_days(&second)
        .iter()
        .map(|d| (d.day, d.weekday.clone(), d.event.clone(), d.is_non_workday))
        .collect();
    assert_eq!(a, b);
}

#[test]
fn month_event_dates_give_each_day_its_date() {
    let mut events = HashMap::new();
    events.insert(3, "Výlet".to_string());
    let m = build_month(1, 2022, events, &HashMap::new(), no_day());
    let dated = month_event_dates(&m).unwrap();
    assert_eq!(dated.len(), 31);
    assert_eq!(dated[2], (CalendarDate { year: 2022, month: 1, day: 3 }, "Výlet".to_string()));
    assert_eq!(dated[30].0, CalendarDate { year: 2022, month: 1, day: 31 });
    let mut bad = build_month(2, 2022, HashMap::new(), &HashMap::new(), no_day());
    bad.weeks[0].days[0].day = 30;
    assert!(month_event_dates(&bad).is_none());
    let mut bad_month = build_month(2, 2022, HashMap::new(), &HashMap::new(), no_day());
    bad_month.month = 13;
    assert!(month_event_dates(&bad_month).is_none());
    assert_eq!(month_event_dates(&mcalendar::model::Month::empty()).unwrap().len(), 0);
}

#[test]
fn month_and_year_of_a_date() {
    assert_eq!(month_and_year(CalendarDate { year: 2021, month: 10, day: 13 }), (10, 2021));
    assert_eq!(month_and_year(CalendarDate { year: -1, month: 1, day: 1 }), (1, u32::MAX));
}

#[test]
fn months_span_four_to_six_weeks() {
    for year in [2020u32, 2021, 2022, 2023, 2024] {
        for month in 1..=12 {
            let m = build_month(month, year, HashMap::new(), &HashMap::new(), no_day());
            assert!((4..=6).contains(&m.weeks.len()));
            for w in &m.weeks[1..m.weeks.len() - 1] {
                assert_eq!(w.days.len(), 7);
            }
        }
    }
}

#[test]
fn posted_month_text_reads_back_whatever_the_holidays() {
    // a month posted by a client, with a holiday text cleared
    let mut posted = build_month(5, 2021, HashMap::new(), &HashMap::new(), no_day());
    posted.weeks[1].days[0].event = "Schůzka".to_string();
    let saved: HashMap<u32, String> = month_events(&posted).into_iter().collect();
    let mut holidays = HashMap::new();
    holidays.insert(1, "Svátek práce".to_string());
    holidays.insert(3, "Jiný svátek".to_string());
    let shown = build_month(5, 2021, saved, &holidays, CalendarDate { year: 2021, month: 5, day: 4 });
    let day = &shown.weeks[1].days[0];
    assert_eq!(day.event, "Schůzka");
    assert_eq!(shown.weeks[0].days[0].event, "Svátek práce");
}

#[test]
fn month_event_dates_take_numbers_as_bytes() {
    let mut m = build_month(2, 2022, HashMap::new(), &HashMap::new(), no_day());
    m.weeks[0].days[0].day = 257;
    m.month = 258;
    let dated = month_event_dates(&m).unwrap();
    assert_eq!(dated[0].0, CalendarDate { year: 2022, month: 2, day: 1 });
    assert_eq!(dated[1].0, CalendarDate { year: 2022, month: 2, day: 2 });
}
