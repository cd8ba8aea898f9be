use std::collections::HashMap;

use mcalendar::calendar::build_month;
use mcalendar::client::{color, day_label, month_path, day_style, heading_label, key_message, update, Command, Effect, Model, Msg};
use mcalendar::date::CalendarDate;
use mcalendar::holidays::{asks_for_holidays, czech_name_of, holiday_names, Holiday, HolidayDate, LocalizedText};
use mcalendar::model::{Day, Month};

fn month(m: u32, y: u32) -> Month {
    Month { month: m, year: y, name: String::new(), weeks: vec![] }
}

fn day(current: bool, non_workday: bool) -> Day {
    Day { day: 1, weekday: String::new(), event: String::new(), is_non_workday: non_workday, is_current_day: current }
}

#[test]
fn previous_and_next_months() {
    assert_eq!(month(1, 2020).previous(), (12, 2019));
    assert_eq!(month(5, 2020).previous(), (4, 2020));
    assert_eq!(month(12, 2019).next(), (1, 2020));
    assert_eq!(month(5, 2020).next(), (6, 2020));
    for m in 1..=12 {
        let (nm, ny) = month(m, 2020).next();
        assert_eq!(month(nm, ny).previous(), (m, 2020));
        let (pm, py) = month(m, 2020).previous();
        assert_eq!(month(pm, py).next(), (m, 2020));
    }
}

#[test]
fn empty_month() {
    let m = Month::empty();
    assert_eq!(m.month, 0);
    assert_eq!(m.year, 0);
    assert_eq!(m.name, "");
    assert!(m.weeks.is_empty());
}

#[test]
fn day_colors() {
    assert_eq!(color(&day(true, true)), "#ffa600");
    assert_eq!(color(&day(true, false)), "#999");
    assert_eq!(color(&day(false, true)), "#a86600");
    assert_eq!(color(&day(false, false)), "#555");
}

fn text(lang: &str, t: &str) -> LocalizedText {
    LocalizedText { lang: lang.to_string(), text: t.to_string() }
}

fn holiday(d: u32, names: Vec<LocalizedText>) -> Holiday {
    Holiday {
        date: HolidayDate { day: d, month: 5, year: 2021, day_of_week: 1 },
        name: names,
        note: None,
        flags: None,
        holiday_type: "public_holiday".to_string(),
    }
}

#[test]
fn czech_holiday_names() {
    assert_eq!(czech_name_of(&vec![text("en", "Labour Day"), text("cs", "Svátek práce")]), "Svátek práce");
    assert_eq!(czech_name_of(&vec![text("en", "Labour Day")]), "");
    assert_eq!(czech_name_of(&vec![text("cs", "první"), text("cs", "druhý")]), "první");
    let table = holiday_names(&vec![
        holiday(1, vec![text("en", "Labour Day"), text("cs", "Svátek práce")]),
        holiday(8, vec![text("en", "Liberation Day")]),
        holiday(1, vec![text("cs", "Později")]),
    ]);
    let mut expected = HashMap::new();
    expected.insert(1, "Později".to_string());
    expected.insert(8, String::new());
    assert_eq!(table, expected);
    assert!(holiday_names(&vec![]).is_empty());
}

#[test]
fn holidays_asked_from_1900_on() {
    assert!(!asks_for_holidays(1899));
    assert!(asks_for_holidays(1900));
    assert!(asks_for_holidays(2021));
    assert!(!asks_for_holidays(0));
}

#[test]
fn holiday_table_feeds_the_month() {
    let table = holiday_names(&vec![holiday(1, vec![text("cs", "Svátek práce")])]);
    let m = build_month(5, 2021, HashMap::new(), &table, CalendarDate { year: 1, month: 1, day: 1 });
    assert_eq!(m.weeks[0].days[0].event, "Svátek práce");
    assert!(m.weeks[0].days[0].is_non_workday);
}

fn model() -> Model {
    let m = build_month(10, 2021, HashMap::new(), &HashMap::new(), CalendarDate { year: 1, month: 1, day: 1 });
    Model { month: m }
}

#[test]
fn page_fetches_months() {
    let mut md = model();
    assert_eq!(update(Msg::FetchCurrentMonth, &mut md), Effect { skip_render: true, command: Some(Command::FetchCurrentMonth) });
    assert_eq!(update(Msg::FetchNextMonth, &mut md), Effect { skip_render: true, command: Some(Command::FetchMonth(11, 2021)) });
    assert_eq!(update(Msg::FetchPreviousMonth, &mut md), Effect { skip_render: true, command: Some(Command::FetchMonth(9, 2021)) });
    assert_eq!(md.month.month, 10);
    let mut dec = Model { month: month(12, 2021) };
    assert_eq!(update(Msg::FetchNextMonth, &mut dec).command, Some(Command::FetchMonth(1, 2022)));
    let mut jan = Model { month: month(1, 2021) };
    assert_eq!(update(Msg::FetchPreviousMonth, &mut jan).command, Some(Command::FetchMonth(12, 2020)));
}

#[test]
fn page_receives_edits_and_submits() {
    let mut md = model();
    let e = update(Msg::ChangeDay(1, 2, "Schůzka".to_string()), &mut md);
    assert_eq!(e, Effect { skip_render: false, command: None });
    assert_eq!(md.month.weeks[1].days[2].event, "Schůzka");
    assert_eq!(md.month.weeks[1].days[1].event, "");
    assert_eq!(md.month.weeks[1].days.len(), 7);
    let e = update(Msg::SubmitChanges, &mut md);
    assert_eq!(e, Effect { skip_render: false, command: Some(Command::SubmitMonth(2021, 10)) });
    let e = update(Msg::Received(month(3, 2000)), &mut md);
    assert_eq!(e, Effect { skip_render: false, command: None });
    assert_eq!((md.month.month, md.month.year), (3, 2000));
}

#[test]
fn page_texts() {
    assert_eq!(heading_label("Říjen", 2021), "Říjen 2021");
    assert_eq!(heading_label("", 0), " 0");
    assert_eq!(heading_label("Leden", u32::MAX), "Leden 4294967295");
    assert_eq!(day_label(7, 10), "7. 10.");
    assert_eq!(day_label(31, 1), "31. 1.");
    assert_eq!(day_style(&day(true, true)), "color:#ffa600");
    assert_eq!(day_style(&day(false, false)), "color:#555");
    assert!(matches!(key_message("Enter"), Some(Msg::SubmitChanges)));
    assert!(key_message("a").is_none());
    assert!(key_message("enter").is_none());
    assert!(key_message("").is_none());
}

#[test]
fn month_paths() {
    assert_eq!(month_path(2021, 10), "/api/2021/10");
    assert_eq!(month_path(0, 1), "/api/0/1");
}
