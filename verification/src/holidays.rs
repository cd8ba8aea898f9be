//! Public holidays as the holiday service describes them, and the table
//! from day of the month to the Czech name of its holiday.
use std::collections::HashMap;
use vstd::prelude::*;
use vstd::string::*;

verus! {

broadcast use vstd::std_specs::hash::group_hash_axioms;

/// A text in one language.
#[derive(Clone, Debug)]
pub struct LocalizedText {
    pub lang: String,
    pub text: String,
}

/// The date of a holiday.
#[derive(Clone, Copy, Debug, PartialEq, Eq, Structural)]
pub struct HolidayDate {
    pub day: u32,
    pub month: u32,
    pub year: u32,
    pub day_of_week: u32,
}

/// One public holiday: its date, its name in several languages, notes,
/// flags and kind.
#[derive(Clone, Debug)]
pub struct Holiday {
    pub date: HolidayDate,
    pub name: Vec<LocalizedText>,
    pub note: Option<Vec<LocalizedText>>,
    pub flags: Option<Vec<String>>,
    pub holiday_type: String,
}

/// The first year for which holidays are asked for.
pub open spec fn first_holiday_year() -> u32 {
    1900
}

/// The Czech text of the first entry in language "cs"; empty if there is none.
pub open spec fn czech_name(names: Seq<LocalizedText>) -> Seq<char>
    decreases names.len(),
{
    if names.len() == 0 {
        Seq::empty()
    } else if names[0].lang@ == "cs"@ {
        names[0].text@
    } else {
        czech_name(names.drop_first())
    }
}

/// The day of the month of each holiday, mapped to its Czech name; where two
/// holidays fall on the same day, the later one in the list wins.
pub open spec fn holiday_table(holidays: Seq<Holiday>) -> Map<u32, Seq<char>>
    decreases holidays.len(),
{
    if holidays.len() == 0 {
        Map::empty()
    } else {
        holiday_table(holidays.drop_last()).insert(
            holidays.last().date.day,
            czech_name(holidays.last().name@),
        )
    }
}

/// Every listed holiday has its day in the table, whatever day of the week
/// it falls on, and every day in the table is the day of a listed holiday.
pub proof fn lemma_holiday_table_keys(holidays: Seq<Holiday>)
    ensures
        forall|i: int|
            0 <= i < holidays.len() ==> holiday_table(holidays).contains_key(
                #[trigger] holidays[i].date.day,
            ),
        forall|d: u32|
            #[trigger] holiday_table(holidays).contains_key(d) ==> exists|i: int|
                0 <= i < holidays.len() && #[trigger] holidays[i].date.day == d,
    decreases holidays.len(),
{
    if holidays.len() > 0 {
        let rest = holidays.drop_last();
        lemma_holiday_table_keys(rest);
        assert(holiday_table(holidays) == holiday_table(rest).insert(
            holidays.last().date.day,
            czech_name(holidays.last().name@),
        ));
        assert forall|i: int| 0 <= i < holidays.len() implies holiday_table(holidays).contains_key(
            #[trigger] holidays[i].date.day,
        ) by {
            if i < holidays.len() - 1 {
                assert(rest[i] == holidays[i]);
            }
        }
        assert forall|d: u32| #[trigger]
            holiday_table(holidays).contains_key(d) implies exists|i: int|
                0 <= i < holidays.len() && #[trigger] holidays[i].date.day == d by {
            if d != holidays.last().date.day {
                assert(holiday_table(rest).contains_key(d));
                let i = choose|i: int| 0 <= i < rest.len() && #[trigger] rest[i].date.day == d;
                assert(holidays[i] == rest[i]);
            } else {
                assert(holidays[holidays.len() - 1].date.day == d);
            }
        }
    }
}

/// A day's name in the table is the Czech name of the last listed holiday
/// on that day.
pub proof fn lemma_holiday_table_values(holidays: Seq<Holiday>)
    ensures
        forall|i: int|
            0 <= i < holidays.len() && (forall|j: int|
                i < j < holidays.len() ==> #[trigger] holidays[j].date.day != holidays[i].date.day)
                ==> holiday_table(holidays)[#[trigger] holidays[i].date.day] == czech_name(
                holidays[i].name@,
            ),
    decreases holidays.len(),
{
    if holidays.len() > 0 {
        let rest = holidays.drop_last();
        lemma_holiday_table_values(rest);
        assert forall|i: int|
            0 <= i < holidays.len() && (forall|j: int|
                i < j < holidays.len() ==> #[trigger] holidays[j].date.day != holidays[i].date.day)
                implies holiday_table(holidays)[#[trigger] holidays[i].date.day] == czech_name(
            holidays[i].name@,
        ) by {
            if i < holidays.len() - 1 {
                assert(rest[i] == holidays[i]);
                assert(holidays[holidays.len() - 1].date.day != holidays[i].date.day);
                assert forall|j: int| i < j < rest.len() implies #[trigger] rest[j].date.day
                    != rest[i].date.day by {
                    assert(rest[j] == holidays[j]);
                }
            }
        }
    }
}

/// The Czech name of a holiday is the text of its first entry in language
/// "cs", and empty when no entry is in that language.
pub proof fn lemma_czech_name_is_first_cs(names: Seq<LocalizedText>)
    ensures
        forall|i: int|
            0 <= i < names.len() && (#[trigger] names[i]).lang@ == "cs"@ && (forall|j: int|
                0 <= j < i ==> names[j].lang@ != "cs"@) ==> czech_name(names) == names[i].text@,
        (forall|i: int| 0 <= i < names.len() ==> (#[trigger] names[i]).lang@ != "cs"@) ==> czech_name(
            names,
        ).len() == 0,
    decreases names.len(),
{
    if names.len() > 0 {
        let rest = names.drop_first();
        lemma_czech_name_is_first_cs(rest);
        assert forall|i: int|
            0 <= i < names.len() && (#[trigger] names[i]).lang@ == "cs"@ && (forall|j: int|
                0 <= j < i ==> names[j].lang@ != "cs"@) implies czech_name(names) == names[i].text@ by {
            if i > 0 {
                assert(names[0].lang@ != "cs"@);
                assert(rest[i - 1] == names[i]);
                assert forall|j: int| 0 <= j < i - 1 implies rest[j].lang@ != "cs"@ by {
                    assert(rest[j] == names[j + 1]);
                }
            }
        }
        if forall|i: int| 0 <= i < names.len() ==> (#[trigger] names[i]).lang@ != "cs"@ {
            assert(names[0].lang@ != "cs"@);
            assert forall|i: int| 0 <= i < rest.len() implies (#[trigger] rest[i]).lang@ != "cs"@ by {
                assert(rest[i] == names[i + 1]);
            }
        }
    }
}

/// Holidays are looked up only for the years from 1900 on.
pub fn asks_for_holidays(year: u32) -> (ask: bool)
    ensures
        ask == (year >= first_holiday_year()),
{
    year >= 1900
}

/// The Czech name among the names of a holiday; empty if there is none.
pub fn czech_name_of(names: &Vec<LocalizedText>) -> (name: String)
    ensures
        name@ == czech_name(names@),
        forall|i: int|
            0 <= i < names@.len() && (#[trigger] names@[i]).lang@ == "cs"@ && (forall|j: int|
                0 <= j < i ==> names@[j].lang@ != "cs"@) ==> name@ == names@[i].text@,
        (forall|i: int| 0 <= i < names@.len() ==> (#[trigger] names@[i]).lang@ != "cs"@)
            ==> name@.len() == 0,
{
    proof {
        lemma_czech_name_is_first_cs(names@);
    }
    let cs = String::from_str("cs");
    let mut k: usize = 0;
    assert(names@.skip(0) =~= names@);
    while k < names.len()
        invariant
            cs@ == "cs"@,
            0 <= k <= names@.len(),
            czech_name(names@) == czech_name(names@.skip(k as int)),
        decreases names@.len() - k,
    {
        if names[k].lang == cs {
            proof {
                lemma_czech_name_is_first_cs(names@);
            }
            return names[k].text.clone();
        }
        assert(names@.skip(k as int).drop_first() =~= names@.skip(k + 1));
        k = k + 1;
    }
    assert(names@.skip(k as int) =~= Seq::<LocalizedText>::empty());
    String::new()
}

/// Maps the day of the month of each holiday to its Czech name.
pub fn holiday_names(holidays: &Vec<Holiday>) -> (table: HashMap<u32, String>)
    ensures
        table@.dom() == holiday_table(holidays@).dom(),
        forall|d: u32| #[trigger] table@.contains_key(d) ==> table@[d]@ == holiday_table(holidays@)[d],
        table@.map_values(|s: String| s@) == holiday_table(holidays@),
        forall|i: int|
            0 <= i < holidays@.len() ==> table@.contains_key(#[trigger] holidays@[i].date.day),
        forall|d: u32|
            #[trigger] table@.contains_key(d) ==> exists|i: int|
                0 <= i < holidays@.len() && #[trigger] holidays@[i].date.day == d,
        forall|i: int|
            0 <= i < holidays@.len() && (forall|j: int|
                i < j < holidays@.len() ==> #[trigger] holidays@[j].date.day
                    != holidays@[i].date.day) ==> table@[#[trigger] holidays@[i].date.day]@
                == czech_name(holidays@[i].name@),
{
    let mut table: HashMap<u32, String> = HashMap::new();
    let mut k: usize = 0;
    assert(holidays@.take(0) =~= Seq::<Holiday>::empty());
    while k < holidays.len()
        invariant
            0 <= k <= holidays@.len(),
            table@.dom() == holiday_table(holidays@.take(k as int)).dom(),
            forall|d: u32| #[trigger]
                table@.contains_key(d) ==> table@[d]@ == holiday_table(holidays@.take(k as int))[d],
        decreases holidays@.len() - k,
    {
        let holiday = &holidays[k];
        let name = czech_name_of(&holiday.name);
        table.insert(holiday.date.day, name);
        assert(holidays@.take(k + 1).drop_last() =~= holidays@.take(k as int));
        k = k + 1;
    }
    assert(holidays@.take(holidays@.len() as int) =~= holidays@);
    assert(table@.map_values(|s: String| s@) =~= holiday_table(holidays@));
    proof {
        lemma_holiday_table_keys(holidays@);
        lemma_holiday_table_values(holidays@);
    }
    table
}

} // verus!
