//! The decisions of the calendar page: the colour of a day, and how each
//! message changes the shown month and what the page asks of the server.
use crate::model::{
    has_next_month, has_previous_month, next_month, previous_month, Day, DayView, Month, MonthView,
};
use vstd::prelude::*;
use vstd::string::*;

verus! {

/// The text colour of a day: bright for the current day, orange for
/// non-working days, grey otherwise.
pub open spec fn day_color(is_current_day: bool, is_non_workday: bool) -> Seq<char> {
    if is_current_day {
        if is_non_workday {
            "#ffa600"@
        } else {
            "#999"@
        }
    } else {
        if is_non_workday {
            "#a86600"@
        } else {
            "#555"@
        }
    }
}

/// The text colour of a day.
pub fn color(day: &Day) -> (c: String)
    ensures
        c@ == day_color(day.is_current_day, day.is_non_workday),
{
    if day.is_current_day {
        if day.is_non_workday {
            String::from_str("#ffa600")
        } else {
            String::from_str("#999")
        }
    } else {
        if day.is_non_workday {
            String::from_str("#a86600")
        } else {
            String::from_str("#555")
        }
    }
}

/// The state of the page: the month it shows.
pub struct Model {
    pub month: Month,
}

/// What happens on the page.
pub enum Msg {
    FetchCurrentMonth,
    FetchNextMonth,
    FetchPreviousMonth,
    Received(Month),
    /// The text of day `.1` of week `.0` was edited.
    ChangeDay(usize, usize, String),
    SubmitChanges,
}

/// What the page asks of the server.
#[derive(Clone, Copy, Debug, PartialEq, Eq, Structural)]
pub enum Command {
    /// Fetch the current month.
    FetchCurrentMonth,
    /// Fetch the given (month, year).
    FetchMonth(u32, u32),
    /// Send the shown month of the given (year, month), then fetch the current month.
    SubmitMonth(u32, u32),
}

/// The outcome of a message: whether the page skips redrawing, and what it
/// asks of the server.
#[derive(Clone, Copy, Debug, PartialEq, Eq, Structural)]
pub struct Effect {
    pub skip_render: bool,
    pub command: Option<Command>,
}

/// The shown month with the event of day `d` of week `w` set to `text`.
pub open spec fn with_event(m: MonthView, w: int, d: int, text: Seq<char>) -> MonthView {
    let day = m.weeks[w][d];
    MonthView {
        weeks: m.weeks.update(w, m.weeks[w].update(d, DayView { event: text, ..day })),
        ..m
    }
}

/// `after` is `before` with the text of day `d` of week `w` replaced by
/// `text`: that day keeps its number, weekday and flags, every other day and
/// the month's number, year, name and week sizes stay as they were.
pub open spec fn sets_only_event(before: MonthView, after: MonthView, w: int, d: int, text: Seq<char>) -> bool {
    &&& after.month == before.month
    &&& after.year == before.year
    &&& after.name == before.name
    &&& after.weeks.len() == before.weeks.len()
    &&& forall|k: int| 0 <= k < after.weeks.len() ==> #[trigger] after.weeks[k].len() == before.weeks[k].len()
    &&& after.weeks[w][d].event == text
    &&& after.weeks[w][d].day == before.weeks[w][d].day
    &&& after.weeks[w][d].weekday == before.weeks[w][d].weekday
    &&& after.weeks[w][d].is_non_workday == before.weeks[w][d].is_non_workday
    &&& after.weeks[w][d].is_current_day == before.weeks[w][d].is_current_day
    &&& forall|k: int, j: int|
        0 <= k < after.weeks.len() && 0 <= j < after.weeks[k].len() && (k != w || j != d)
            ==> #[trigger] after.weeks[k][j] == before.weeks[k][j]
}

/// Editing a day's text replaces that text with the new one, whatever it
/// was, and changes nothing else in the month.
pub proof fn lemma_edit_sets_only_that_event(m: MonthView, w: int, d: int, text: Seq<char>)
    requires
        0 <= w < m.weeks.len(),
        0 <= d < m.weeks[w].len(),
    ensures
        sets_only_event(m, with_event(m, w, d, text), w, d, text),
{
}

/// The message can be handled: moving to the next or previous month stays
/// within the numbers a `u32` holds, and an edited day exists.
pub open spec fn can_update(msg: &Msg, m: MonthView) -> bool {
    match msg {
        Msg::FetchNextMonth => has_next_month(m.month, m.year),
        Msg::FetchPreviousMonth => has_previous_month(m.month, m.year),
        Msg::ChangeDay(w, d, _) => *w < m.weeks.len() && *d < m.weeks[*w as int].len(),
        _ => true,
    }
}

/// Handles one message: changes the shown month and says what to ask of
/// the server.
pub fn update(msg: Msg, model: &mut Model) -> (effect: Effect)
    requires
        can_update(&msg, old(model).month@),
    ensures
        match msg {
            Msg::FetchCurrentMonth => {
                &&& final(model).month == old(model).month
                &&& effect == Effect {
                    skip_render: true,
                    command: Some(Command::FetchCurrentMonth),
                }
            },
            Msg::FetchNextMonth => {
                let n = next_month(old(model).month.month, old(model).month.year);
                &&& final(model).month == old(model).month
                &&& effect == Effect { skip_render: true, command: Some(Command::FetchMonth(n.0, n.1)) }
            },
            Msg::FetchPreviousMonth => {
                let p = previous_month(old(model).month.month, old(model).month.year);
                &&& final(model).month == old(model).month
                &&& effect == Effect { skip_render: true, command: Some(Command::FetchMonth(p.0, p.1)) }
            },
            Msg::Received(received) => {
                &&& final(model).month == received
                &&& effect == Effect { skip_render: false, command: None }
            },
            Msg::ChangeDay(w, d, text) => {
                &&& final(model).month@ == with_event(old(model).month@, w as int, d as int, text@)
                &&& sets_only_event(old(model).month@, final(model).month@, w as int, d as int, text@)
                &&& effect == Effect { skip_render: false, command: None }
            },
            Msg::SubmitChanges => {
                &&& final(model).month == old(model).month
                &&& effect == Effect {
                    skip_render: false,
                    command: Some(Command::SubmitMonth(old(model).month.year, old(model).month.month)),
                }
            },
        },
{
    match msg {
        Msg::FetchCurrentMonth => Effect { skip_render: true, command: Some(Command::FetchCurrentMonth) },
        Msg::FetchNextMonth => {
            let next = model.month.next();
            Effect { skip_render: true, command: Some(Command::FetchMonth(next.0, next.1)) }
        },
        Msg::FetchPreviousMonth => {
            let previous = model.month.previous();
            Effect { skip_render: true, command: Some(Command::FetchMonth(previous.0, previous.1)) }
        },
        Msg::Received(received) => {
            model.month = received;
            Effect { skip_render: false, command: None }
        },
        Msg::ChangeDay(week_id, day_id, text) => {
            let ghost before = model.month@;
            let mut weeks = Vec::new();
            std::mem::swap(&mut weeks, &mut model.month.weeks);
            let mut week = weeks.remove(week_id);
            let mut day = week.days.remove(day_id);
            day.event = text;
            week.days.insert(day_id, day);
            weeks.insert(week_id, week);
            model.month.weeks = weeks;
            assert(model.month@.weeks =~= with_event(before, week_id as int, day_id as int, text@).weeks) by {
                assert(week@ =~= before.weeks[week_id as int].update(
                    day_id as int,
                    DayView { event: text@, ..before.weeks[week_id as int][day_id as int] },
                ));
            }
            proof {
                lemma_edit_sets_only_that_event(before, week_id as int, day_id as int, text@);
            }
            Effect { skip_render: false, command: None }
        },
        Msg::SubmitChanges => Effect {
            skip_render: false,
            command: Some(Command::SubmitMonth(model.month.year, model.month.month)),
        },
    }
}


/// The decimal digits of `n`, without leading zeros.
pub open spec fn decimal(n: nat) -> Seq<char>
    decreases n,
{
    if n < 10 {
        seq![((n + 48) as u8) as char]
    } else {
        decimal(n / 10).push((((n % 10) + 48) as u8) as char)
    }
}

/// The digit `d` (0 to 9) as a one-character string.
fn digit_string(d: u32) -> (s: String)
    requires
        d < 10,
    ensures
        s@ == seq![((d + 48) as u8) as char],
{
    match d {
        0 => {
            proof {
                reveal_strlit("0");
            }
            String::from_str("0")
        },
        1 => {
            proof {
                reveal_strlit("1");
            }
            String::from_str("1")
        },
        2 => {
            proof {
                reveal_strlit("2");
            }
            String::from_str("2")
        },
        3 => {
            proof {
                reveal_strlit("3");
            }
            String::from_str("3")
        },
        4 => {
            proof {
                reveal_strlit("4");
            }
            String::from_str("4")
        },
        5 => {
            proof {
                reveal_strlit("5");
            }
            String::from_str("5")
        },
        6 => {
            proof {
                reveal_strlit("6");
            }
            String::from_str("6")
        },
        7 => {
            proof {
                reveal_strlit("7");
            }
            String::from_str("7")
        },
        8 => {
            proof {
                reveal_strlit("8");
            }
            String::from_str("8")
        },
        _ => {
            proof {
                reveal_strlit("9");
            }
            String::from_str("9")
        },
    }
}

/// The decimal digits of `n`, without leading zeros.
fn u32_to_string(n: u32) -> (s: String)
    ensures
        s@ == decimal(n as nat),
    decreases n,
{
    if n < 10 {
        digit_string(n)
    } else {
        let mut s = u32_to_string(n / 10);
        let last = digit_string(n % 10);
        s.append(last.as_str());
        assert(s@ =~= decimal(n as nat));
        s
    }
}

/// The heading of the page: the month's name and the year.
pub fn heading_label(month_name: &str, year: u32) -> (label: String)
    ensures
        label@ == month_name@ + " "@ + decimal(year as nat),
{
    let mut label = String::from_str(month_name);
    label.append(" ");
    let digits = u32_to_string(year);
    label.append(digits.as_str());
    label
}

/// The date shown in a day's row: "day. month.".
pub fn day_label(day: u32, month: u32) -> (label: String)
    ensures
        label@ == decimal(day as nat) + ". "@ + decimal(month as nat) + "."@,
{
    let mut label = u32_to_string(day);
    label.append(". ");
    let digits = u32_to_string(month);
    label.append(digits.as_str());
    label.append(".");
    label
}

/// The style of a day's date and weekday: its text colour.
pub fn day_style(day: &Day) -> (style: String)
    ensures
        style@ == "color:"@ + day_color(day.is_current_day, day.is_non_workday),
{
    let mut style = String::from_str("color:");
    let c = color(day);
    style.append(c.as_str());
    style
}

/// The server path of a month: "/api/year/month".
pub fn month_path(year: u32, month: u32) -> (path: String)
    ensures
        path@ == "/api/"@ + decimal(year as nat) + "/"@ + decimal(month as nat),
{
    let mut path = String::from_str("/api/");
    let y = u32_to_string(year);
    path.append(y.as_str());
    path.append("/");
    let m = u32_to_string(month);
    path.append(m.as_str());
    path
}

/// The message of a key pressed in a day's text: Enter submits the changes.
pub fn key_message(key: &str) -> (msg: Option<Msg>)
    ensures
        msg is Some <==> key@ == "Enter"@,
        msg matches Some(m) ==> m is SubmitChanges,
{
    let pressed = String::from_str(key);
    let enter = String::from_str("Enter");
    if pressed == enter {
        Some(Msg::SubmitChanges)
    } else {
        None
    }
}

/// Each kind of day has a colour of its own: the current day is told apart
/// from the others, and non-working days (weekends and holidays) from
/// working days.
pub proof fn lemma_colors_tell_days_apart(
    current1: bool,
    non_workday1: bool,
    current2: bool,
    non_workday2: bool,
)
    ensures
        (current1, non_workday1) != (current2, non_workday2) ==> day_color(current1, non_workday1)
            != day_color(current2, non_workday2),
{
    reveal_strlit("#ffa600");
    reveal_strlit("#999");
    reveal_strlit("#a86600");
    reveal_strlit("#555");
    assert("#ffa600"@[1] != "#999"@[1]);
    assert("#ffa600"@[1] != "#a86600"@[1]);
    assert("#ffa600"@[1] != "#555"@[1]);
    assert("#999"@[1] != "#a86600"@[1]);
    assert("#999"@[1] != "#555"@[1]);
    assert("#a86600"@[1] != "#555"@[1]);
}

} // verus!
