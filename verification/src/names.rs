//! Czech names of the days of the week and of the months.
use crate::date::Weekday;
use vstd::prelude::*;
use vstd::string::*;

verus! {

/// The Czech name of a day of the week.
pub open spec fn weekday_name(w: Weekday) -> Seq<char> {
    match w {
        Weekday::Mon => "Pondělí"@,
        Weekday::Tue => "Úterý"@,
        Weekday::Wed => "Středa"@,
        Weekday::Thu => "Čtvrtek"@,
        Weekday::Fri => "Pátek"@,
        Weekday::Sat => "Sobota"@,
        Weekday::Sun => "Neděle"@,
    }
}

/// The Czech name of month `m` (1 is January); empty for any other number.
pub open spec fn month_name(m: u32) -> Seq<char> {
    if m == 1 {
        "Leden"@
    } else if m == 2 {
        "Únor"@
    } else if m == 3 {
        "Březen"@
    } else if m == 4 {
        "Duben"@
    } else if m == 5 {
        "Květen"@
    } else if m == 6 {
        "Červen"@
    } else if m == 7 {
        "Červenec"@
    } else if m == 8 {
        "Srpen"@
    } else if m == 9 {
        "Zaří"@
    } else if m == 10 {
        "Říjen"@
    } else if m == 11 {
        "Listopad"@
    } else if m == 12 {
        "Prosinec"@
    } else {
        ""@
    }
}

/// The Czech name of a day of the week.
pub fn get_weekday_name(i: Weekday) -> (name: String)
    ensures
        name@ == weekday_name(i),
{
    match i {
        Weekday::Mon => String::from_str("Pondělí"),
        Weekday::Tue => String::from_str("Úterý"),
        Weekday::Wed => String::from_str("Středa"),
        Weekday::Thu => String::from_str("Čtvrtek"),
        Weekday::Fri => String::from_str("Pátek"),
        Weekday::Sat => String::from_str("Sobota"),
        Weekday::Sun => String::from_str("Neděle"),
    }
}

/// The Czech name of month `m`; the empty string for a number that names no month.
pub fn get_month_name(m: u32) -> (name: String)
    ensures
        name@ == month_name(m),
{
    match m {
        1 => String::from_str("Leden"),
        2 => String::from_str("Únor"),
        3 => String::from_str("Březen"),
        4 => String::from_str("Duben"),
        5 => String::from_str("Květen"),
        6 => String::from_str("Červen"),
        7 => String::from_str("Červenec"),
        8 => String::from_str("Srpen"),
        9 => String::from_str("Zaří"),
        10 => String::from_str("Říjen"),
        11 => String::from_str("Listopad"),
        12 => String::from_str("Prosinec"),
        _ => String::from_str(""),
    }
}

} // verus!
