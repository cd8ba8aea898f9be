use mcalendar::calendar::{can_list_month, get_month_days};
use mcalendar::date::CalendarDate;
use mcalendar::names::{get_month_name, get_weekday_name};
use mcalendar::date::Weekday;

#[test]
fn month_lengths_follow_the_gregorian_calendar() {
    assert_eq!(get_month_days(2, 2000).len(), 29);
    assert_eq!(get_month_days(2, 1900).len(), 28);
    assert_eq!(get_month_days(2, 2024).len(), 29);
    assert_eq!(get_month_days(2, 2023).len(), 28);
    assert_eq!(get_month_days(2, (-4i32) as u32).len(), 29);
    let lengths: Vec<usize> = (1..=12).map(|m| get_month_days(m, 2021).len()).collect();
    assert_eq!(lengths, vec![31, 28, 31, 30, 31, 30, 31, 31, 30, 31, 30, 31]);
}

#[test]
fn listable_months_stay_within_chrono_years() {
    assert!(can_list_month(11, 262142));
    assert_eq!(get_month_days(11, 262142).len(), 30);
    assert!(!can_list_month(12, 262142));
    assert!(!can_list_month(1, 262143));
    assert!(!can_list_month(1, 400000));
    assert!(can_list_month(1, (-262143i32) as u32));
    assert!(!can_list_month(12, (-262144i32) as u32));
    assert!(!can_list_month(1, (-400000i32) as u32));
}

#[test]
fn month_days_are_listed_from_first_to_last() {
    let feb_leap = get_month_days(2, 2024);
    assert_eq!(feb_leap.len(), 29);
    assert_eq!(feb_leap[0], CalendarDate { year: 2024, month: 2, day: 1 });
    assert_eq!(feb_leap[28], CalendarDate { year: 2024, month: 2, day: 29 });
    assert_eq!(get_month_days(2, 2023).len(), 28);
    assert_eq!(get_month_days(2, 1900).len(), 28);
    assert_eq!(get_month_days(4, 2021).len(), 30);
    let dec = get_month_days(12, 2018);
    assert_eq!(dec.len(), 31);
    for (i, d) in dec.iter().enumerate() {
        assert_eq!(*d, CalendarDate { year: 2018, month: 12, day: i as u32 + 1 });
    }
}

#[test]
fn listable_months() {
    assert!(can_list_month(1, 2020));
    assert!(can_list_month(12, 2020));
    assert!(!can_list_month(0, 2020));
    assert!(!can_list_month(13, 2020));
    assert!(can_list_month(11, 262142));
    assert!(!can_list_month(12, 262142));
    assert!(!can_list_month(1, 262143));
    // a year beyond i32 is taken as the i32 it truncates to
    assert!(can_list_month(1, u32::MAX));
    assert_eq!(get_month_days(1, u32::MAX)[0], CalendarDate { year: -1, month: 1, day: 1 });
}

#[test]
fn czech_month_names() {
    assert_eq!(get_month_name(1), "Leden");
    assert_eq!(get_month_name(2), "Únor");
    assert_eq!(get_month_name(3), "Březen");
    assert_eq!(get_month_name(4), "Duben");
    assert_eq!(get_month_name(5), "Květen");
    assert_eq!(get_month_name(6), "Červen");
    assert_eq!(get_month_name(7), "Červenec");
    assert_eq!(get_month_name(8), "Srpen");
    assert_eq!(get_month_name(9), "Zaří");
    assert_eq!(get_month_name(10), "Říjen");
    assert_eq!(get_month_name(11), "Listopad");
    assert_eq!(get_month_name(12), "Prosinec");
    assert_eq!(get_month_name(0), "");
    assert_eq!(get_month_name(13), "");
}

#[test]
fn czech_weekday_names() {
    assert_eq!(get_weekday_name(Weekday::Mon), "Pondělí");
    assert_eq!(get_weekday_name(Weekday::Tue), "Úterý");
    assert_eq!(get_weekday_name(Weekday::Wed), "Středa");
    assert_eq!(get_weekday_name(Weekday::Thu), "Čtvrtek");
    assert_eq!(get_weekday_name(Weekday::Fri), "Pátek");
    assert_eq!(get_weekday_name(Weekday::Sat), "Sobota");
    assert_eq!(get_weekday_name(Weekday::Sun), "Neděle");
}
