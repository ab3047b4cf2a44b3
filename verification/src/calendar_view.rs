//! What the month view shows: the events that start in a month, in the order
//! of their start, and the grid of the month's days.

use vstd::prelude::*;
use crate::calendar::{
    ui_views, CalendarController, CalendarEvent, CalendarEventView, DateInfo, DateTimeValueView,
    EventTime, TimeKind, UICalendarEvent, UICalendarEventView,
};
use crate::datetime::{
    date_and_previous_exist, date_exists, days_in_month, dotted_date, dotted_moment, two_digit, year_text, day_before, format_date,
    format_moment, inner_year, parse_moment, parsed_moment, utc_to_local, valid_moment, within_a_day,
    weekday_from_sunday, weekday_of, Moment,
};
use crate::ics::{ical_time, read_event_time};
use crate::order::{is_stable_sort_of, lemma_stable_sort_of_values, stable_sort_by, total_preorder};
use crate::text::{concat3, contains, contains_text, decimal, decimal_text, digit_char, occurs_at, pad_left, pad_left_text};

verus! {

/// How a possibly missing date-time value reads.
pub open spec fn reading(v: Option<DateTimeValueView>) -> Option<EventTime> {
    match v {
        Some(x) => ical_time(x.text, x.tzid, x.date_only),
        None => None,
    }
}

/// The answer `r` is, if any, a real date and time less than a day from `m`.
pub open spec fn near(r: Option<Moment>, m: Moment) -> bool {
    match r {
        Some(x) => valid_moment(x) && within_a_day(x, m),
        None => true,
    }
}

/// What this machine answers for the wall-clock time of a value: for a UTC
/// time, its local time, which exists whenever its year lies inside
/// `chrono`'s range and is less than a day from it; nothing for other
/// values.
pub open spec fn local_answer_fits(v: Option<DateTimeValueView>, r: Option<Moment>) -> bool {
    match reading(v) {
        Some(t) => if t.kind == TimeKind::Utc {
            &&& (valid_moment(t.at) && inner_year(t.at.year) ==> r is Some)
            &&& near(r, t.at)
        } else {
            r is None
        },
        None => r is None,
    }
}

/// `locals` holds, for each event, what this machine answers for the
/// wall-clock times of its start and end (see `local_answer_fits`).
pub open spec fn machine_locals(
    events: Seq<CalendarEventView>,
    locals: Seq<(Option<Moment>, Option<Moment>)>,
) -> bool {
    &&& locals.len() == events.len()
    &&& forall|i: int|
        0 <= i < events.len() ==> local_answer_fits(#[trigger] events[i].begin, locals[i].0)
            && local_answer_fits(events[i].end, locals[i].1)
}

/// How the month view writes a time: `dd.mm.YYYY HH:MM` (the date alone for a
/// whole day). A UTC time is written as this machine's wall-clock time
/// `local` for it.
pub open spec fn shown_time(t: EventTime, local: Option<Moment>) -> Option<Seq<char>> {
    match t.kind {
        TimeKind::Utc => match local {
            Some(l) => if valid_moment(l) {
                Some(dotted_moment(l))
            } else {
                None
            },
            None => None,
        },
        TimeKind::Date => if date_exists(t.at.year as int, t.at.month as int, t.at.day as int) {
            Some(dotted_date(t.at.year, t.at.month, t.at.day))
        } else {
            None
        },
        _ => if valid_moment(t.at) {
            Some(dotted_moment(t.at))
        } else {
            None
        },
    }
}

/// The text an event's written start must contain to be listed for the
/// month: the month with two digits, a dot, and the year (`{:02}.{}`).
pub open spec fn month_needle(month: u32, year: u32) -> Seq<char> {
    pad_left(decimal(month as nat), 2, '0') + "."@ + decimal(year as nat)
}

/// One of the ten decimal digits.
pub open spec fn is_digit(c: char) -> bool {
    c == '0' || c == '1' || c == '2' || c == '3' || c == '4' || c == '5' || c == '6' || c == '7'
        || c == '8' || c == '9'
}

proof fn lemma_digit_char(d: nat)
    ensures
        is_digit(digit_char(d)),
{
}

proof fn lemma_digit_char_injective(a: nat, b: nat)
    requires
        a < 10,
        b < 10,
        digit_char(a) == digit_char(b),
    ensures
        a == b,
{
}

proof fn lemma_two_digit(n: nat)
    requires
        n < 100,
    ensures
        two_digit(n) == seq![digit_char(n / 10), digit_char(n % 10)],
{
    reveal_with_fuel(decimal, 2);
    if n < 10 {
        assert(decimal(n) == seq![digit_char(n)]);
        assert(two_digit(n) =~= seq![digit_char(0), digit_char(n)]);
    } else {
        assert(decimal(n / 10) == seq![digit_char(n / 10)]);
        assert(decimal(n) =~= seq![digit_char(n / 10), digit_char(n % 10)]);
    }
}

proof fn lemma_decimal_four(y: nat)
    requires
        1000 <= y <= 9999,
    ensures
        decimal(y) == seq![digit_char(y / 1000), digit_char(y / 100 % 10), digit_char(y / 10 % 10), digit_char(y % 10)],
{
    reveal_with_fuel(decimal, 4);
    assert(decimal(y / 1000) == seq![digit_char(y / 1000)]);
    assert((y / 10) / 10 == y / 100);
    assert((y / 100) / 10 == y / 1000);
    assert(decimal(y / 100) =~= seq![digit_char(y / 1000), digit_char(y / 100 % 10)]);
    assert(decimal(y / 10) =~= seq![digit_char(y / 1000), digit_char(y / 100 % 10), digit_char(y / 10 % 10)]);
    assert(decimal(y) =~= seq![digit_char(y / 1000), digit_char(y / 100 % 10), digit_char(y / 10 % 10), digit_char(y % 10)]);
}

proof fn lemma_year_four(y: nat)
    requires
        y <= 9999,
    ensures
        year_text(y as int) == seq![digit_char(y / 1000), digit_char(y / 100 % 10), digit_char(y / 10 % 10), digit_char(y % 10)],
{
    reveal_with_fuel(decimal, 4);
    let s = seq![digit_char(y / 1000), digit_char(y / 100 % 10), digit_char(y / 10 % 10), digit_char(y % 10)];
    assert((y / 10) / 10 == y / 100);
    assert((y / 100) / 10 == y / 1000);
    if y >= 1000 {
        lemma_decimal_four(y);
    } else if y >= 100 {
        assert(decimal(y / 100) == seq![digit_char(y / 100)]);
        assert(decimal(y / 10) =~= seq![digit_char(y / 100), digit_char(y / 10 % 10)]);
        assert(decimal(y) =~= seq![digit_char(y / 100), digit_char(y / 10 % 10), digit_char(y % 10)]);
        assert(year_text(y as int) =~= s);
    } else if y >= 10 {
        assert(decimal(y / 10) == seq![digit_char(y / 10)]);
        assert(decimal(y) =~= seq![digit_char(y / 10), digit_char(y % 10)]);
        assert(year_text(y as int) =~= s);
    } else {
        assert(decimal(y) == seq![digit_char(y)]);
        assert(year_text(y as int) =~= s);
    }
}

proof fn lemma_decimal_digits(n: nat)
    ensures
        decimal(n).len() >= 1,
        forall|k: int| 0 <= k < decimal(n).len() ==> is_digit(#[trigger] decimal(n)[k]),
    decreases n,
{
    if n >= 10 {
        lemma_decimal_digits(n / 10);
    }
}

/// A year's text has no dot, and starts with a digit only for the years 0
/// to 9999.
proof fn lemma_year_text_shape(y: int)
    ensures
        year_text(y).len() >= 4,
        forall|k: int| 0 <= k < year_text(y).len() ==> #[trigger] year_text(y)[k] != '.',
        is_digit(year_text(y)[0]) ==> 0 <= y <= 9999,
{
    let n: nat = if y < 0 { (-y) as nat } else { y as nat };
    lemma_decimal_digits(n);
    let p = pad_left(decimal(n), 4, '0');
    assert forall|k: int| 0 <= k < p.len() implies is_digit(#[trigger] p[k]) by {
        if decimal(n).len() < 4 {
            let z = (4 - decimal(n).len()) as int;
            if k >= z {
                assert(p[k] == decimal(n)[k - z]);
            }
        }
    }
    if !(0 <= y <= 9999) {
        reveal_strlit("-");
        reveal_strlit("+");
        let sign = if y < 0 { "-"@ } else { "+"@ };
        assert(year_text(y) == sign + p);
        assert forall|k: int| 0 <= k < year_text(y).len() implies #[trigger] year_text(y)[k] != '.' by {
            if k >= 1 {
                assert(year_text(y)[k] == p[k - 1]);
            }
        }
    }
}

/// Where the dots of a text `dd.mm.Y HH:MM` stand, and where its month and
/// year are.
proof fn lemma_dotted_layout(d: Seq<char>, m: Seq<char>, y: Seq<char>, h: Seq<char>, mi: Seq<char>)
    requires
        d.len() == 2,
        m.len() == 2,
        h.len() == 2,
        mi.len() == 2,
        y.len() >= 4,
        forall|k: int| 0 <= k < d.len() ==> is_digit(#[trigger] d[k]),
        forall|k: int| 0 <= k < h.len() ==> is_digit(#[trigger] h[k]),
        forall|k: int| 0 <= k < mi.len() ==> is_digit(#[trigger] mi[k]),
        forall|k: int| 0 <= k < m.len() ==> is_digit(#[trigger] m[k]),
        forall|k: int| 0 <= k < y.len() ==> #[trigger] y[k] != '.',
    ensures
        ({
            let t = d + "."@ + m + "."@ + y + " "@ + h + ":"@ + mi;
            &&& t.len() == 12 + y.len()
            &&& t[2] == '.' && t[5] == '.'
            &&& forall|p: int| 0 <= p < t.len() && p != 2 && p != 5 ==> #[trigger] t[p] != '.'
            &&& t[3] == m[0] && t[4] == m[1]
            &&& t[6] == y[0] && t[7] == y[1] && t[8] == y[2] && t[9] == y[3]
        }),
{
    reveal_strlit(".");
    reveal_strlit(" ");
    reveal_strlit(":");
    let t = d + "."@ + m + "."@ + y + " "@ + h + ":"@ + mi;
    let yl = y.len() as int;
    assert forall|p: int| 0 <= p < t.len() && p != 2 && p != 5 implies #[trigger] t[p] != '.' by {
        if p < 2 {
            assert(t[p] == d[p]);
        } else if p < 5 {
            assert(t[p] == m[p - 3]);
        } else if p < 6 + yl {
            assert(t[p] == y[p - 6]);
        } else if p == 6 + yl {
            assert(t[p] == ' ');
        } else if p < 9 + yl {
            assert(t[p] == h[p - 7 - yl]);
        } else if p == 9 + yl {
            assert(t[p] == ':');
        } else {
            assert(t[p] == mi[p - 10 - yl]);
        }
    }
}

/// The month's text `mm.YYYY` of a four-digit year occurs in a start written
/// `dd.mm.YYYY HH:MM` only where the start is in that month of that year.
proof fn lemma_month_text_in_moment(w: Moment, month: u32, year: u32)
    requires
        valid_moment(w),
        1 <= month <= 12,
        1000 <= year <= 9999,
        contains_text(dotted_moment(w), month_needle(month, year)),
    ensures
        w.month == month,
        w.year == year,
{
    reveal_strlit(".");
    let d = two_digit(w.day as nat);
    let m = two_digit(w.month as nat);
    let y = year_text(w.year as int);
    let h = two_digit(w.hour as nat);
    let mi = two_digit(w.minute as nat);
    lemma_two_digit(w.day as nat);
    lemma_two_digit(w.month as nat);
    lemma_two_digit(w.hour as nat);
    lemma_two_digit(w.minute as nat);
    lemma_two_digit(month as nat);
    lemma_decimal_four(year as nat);
    lemma_year_text_shape(w.year as int);
    lemma_digit_char(w.day as nat / 10);
    lemma_digit_char(w.day as nat % 10);
    lemma_digit_char(w.month as nat / 10);
    lemma_digit_char(w.month as nat % 10);
    lemma_digit_char(w.hour as nat / 10);
    lemma_digit_char(w.hour as nat % 10);
    lemma_digit_char(w.minute as nat / 10);
    lemma_digit_char(w.minute as nat % 10);
    assert forall|k: int| 0 <= k < d.len() implies is_digit(#[trigger] d[k]) by {}
    assert forall|k: int| 0 <= k < m.len() implies is_digit(#[trigger] m[k]) by {}
    assert forall|k: int| 0 <= k < h.len() implies is_digit(#[trigger] h[k]) by {}
    assert forall|k: int| 0 <= k < mi.len() implies is_digit(#[trigger] mi[k]) by {}
    lemma_dotted_layout(d, m, y, h, mi);
    let t = dotted_moment(w);
    assert(t == d + "."@ + m + "."@ + y + " "@ + h + ":"@ + mi);
    let nd = month_needle(month, year);
    let dm = digit_char(month as nat / 10);
    let um = digit_char(month as nat % 10);
    let y0 = digit_char(year as nat / 1000);
    let y1 = digit_char(year as nat / 100 % 10);
    let y2 = digit_char(year as nat / 10 % 10);
    let y3 = digit_char(year as nat % 10);
    assert(nd =~= seq![dm, um, '.', y0, y1, y2, y3]);
    let i = choose|i: int| occurs_at(t, nd, i);
    assert(occurs_at(t, nd, i));
    assert(t.subrange(i, i + 7) == nd);
    assert(t[i + 2] == nd[2]);
    assert(i == 0 || i == 3);
    if i == 0 {
        assert(t[5] == nd[5]);
        lemma_digit_char(year as nat / 10 % 10);
    } else {
        assert(t[3] == nd[0] && t[4] == nd[1]);
        lemma_digit_char_injective(w.month as nat / 10, month as nat / 10);
        lemma_digit_char_injective(w.month as nat % 10, month as nat % 10);
        assert(t[6] == nd[3]);
        lemma_digit_char(year as nat / 1000);
        assert(0 <= w.year <= 9999);
        lemma_year_four(w.year as nat);
        let wy = w.year as nat;
        assert(t[7] == nd[4] && t[8] == nd[5] && t[9] == nd[6]);
        lemma_digit_char_injective(wy / 1000, year as nat / 1000);
        lemma_digit_char_injective(wy / 100 % 10, year as nat / 100 % 10);
        lemma_digit_char_injective(wy / 10 % 10, year as nat / 10 % 10);
        lemma_digit_char_injective(wy % 10, year as nat % 10);
    }
}

/// A month and a four-digit year, whose text `mm.YYYY` the month view can
/// find only in the starts of that month.
pub open spec fn month_known(month: u32, year: u32) -> bool {
    1 <= month <= 12 && 1000 <= year <= 9999
}

/// The listed event lies in the month of the year.
pub open spec fn lies_in(u: UICalendarEventView, month: u32, year: u32) -> bool {
    u.month == month && u.year == year
}

/// The listed event, from its start and end as read back from their written
/// form.
pub open spec fn ui_event(e: CalendarEventView, start: Moment, end: Moment) -> UICalendarEventView {
    UICalendarEventView {
        uid: crate::calendar::or_default(e.uid, Seq::empty()),
        title: crate::calendar::or_default(e.title, "No name"@),
        day: start.day as u8,
        month: start.month as u8,
        year: start.year as u32,
        begin_hour: start.hour as u8,
        begin_mins: start.minute as u8,
        end_hour: end.hour as u8,
        end_mins: end.minute as u8,
    }
}

/// How the month view lists an event, if at all: its start must read and its
/// written form contain the month's text; its start and end (an empty text
/// when it has none) must read back as date-times. `local` holds this
/// machine's wall-clock times for a UTC start and end.
pub open spec fn listed_event(
    e: CalendarEventView,
    month: u32,
    year: u32,
    local: (Option<Moment>, Option<Moment>),
) -> Option<UICalendarEventView> {
    match reading(e.begin) {
        None => None,
        Some(st) => match shown_time(st, local.0) {
            None => None,
            Some(s) => if !contains_text(s, month_needle(month, year)) {
                None
            } else {
                let end_shown = match reading(e.end) {
                    None => Some(Seq::<char>::empty()),
                    Some(et) => shown_time(et, local.1),
                };
                match end_shown {
                    None => None,
                    Some(es) => match (
                        parsed_moment(s, "%d.%m.%Y %H:%M"@),
                        parsed_moment(es, "%d.%m.%Y %H:%M"@),
                    ) {
                        (Some(ps), Some(pe)) => Some(ui_event(e, ps, pe)),
                        _ => None,
                    },
                }
            },
        },
    }
}

/// The listing of the first `n` events, in order.
pub open spec fn month_listing(
    events: Seq<CalendarEventView>,
    month: u32,
    year: u32,
    locals: Seq<(Option<Moment>, Option<Moment>)>,
    n: nat,
) -> Seq<UICalendarEventView>
    decreases n,
{
    if n == 0 {
        Seq::empty()
    } else {
        let rest = month_listing(events, month, year, locals, (n - 1) as nat);
        match listed_event(events[n - 1], month, year, locals[n - 1]) {
            Some(u) => rest.push(u),
            None => rest,
        }
    }
}

/// Listed events by start: day, then hour, then minute.
pub open spec fn start_order(a: UICalendarEventView, b: UICalendarEventView) -> bool {
    if a.day != b.day {
        a.day < b.day
    } else if a.begin_hour != b.begin_hour {
        a.begin_hour < b.begin_hour
    } else {
        a.begin_mins <= b.begin_mins
    }
}

/// The row of the grid for the place `idx` counted from the Sunday before
/// the first of the month: the month is shown in five rows of weeks, and a
/// day that would fall in a sixth row shares the fifth row's cell with the
/// day a week before it, as on a printed calendar (`24/31`).
pub open spec fn grid_row(idx: int) -> int {
    if idx / 7 > 4 {
        4
    } else {
        idx / 7
    }
}

/// The cell of day `day` of month `m` of year `y` in a five-row grid of
/// weeks that start on Sunday (see `grid_row`).
pub open spec fn grid_cell(y: int, m: int, day: int, events: Seq<UICalendarEventView>) -> DateInfo {
    let idx = day + weekday_of(y, m, 1) - 1;
    DateInfo {
        row_idx: grid_row(idx) as i32,
        col_idx: (idx % 7) as i32,
        day_of_month: day as i32,
        has_event: exists|k: int| 0 <= k < events.len() && #[trigger] events[k].day == day as u8,
    }
}

/// The grid of the month: one cell per day, in order.
pub open spec fn month_grid(y: int, m: int, events: Seq<UICalendarEventView>) -> Seq<DateInfo> {
    Seq::new(days_in_month(y, m) as nat, |i: int| grid_cell(y, m, i + 1, events))
}

/// The month after `month`, in the same year (January after December).
pub open spec fn following_month(month: u32) -> u32 {
    if month == 12 {
        1
    } else {
        (month + 1) as u32
    }
}

/// The first day of the month exists, and so do the first day of the
/// following month of the same year and the day before it.
pub open spec fn grid_dates_exist(y: int, month: u32) -> bool {
    &&& date_exists(y, month as int, 1)
    &&& date_and_previous_exist(y, following_month(month) as int, 1)
}

/// How a time is written in the month view (see `shown_time`).
fn show_time(t: EventTime, local: Option<Moment>) -> (r: Option<String>)
    ensures
        crate::tasks::opt_text(r) == shown_time(t, local),
{
    match t.kind {
        TimeKind::Utc => match local {
            Some(l) => format_moment(l, "%d.%m.%Y %H:%M"),
            None => None,
        },
        TimeKind::Date => format_date(t.at, "%d.%m.%Y"),
        _ => format_moment(t.at, "%d.%m.%Y %H:%M"),
    }
}

/// How the month view lists an event (see `listed_event`).
fn list_event(
    e: &CalendarEvent,
    month: u32,
    year: u32,
    needle: &str,
    local: (Option<Moment>, Option<Moment>),
) -> (r: Option<UICalendarEvent>)
    requires
        needle@ == month_needle(month, year),
    ensures
        match r {
            Some(u) => listed_event(e@, month, year, local) == Some(u@),
            None => listed_event(e@, month, year, local) is None,
        },
        month_known(month, year) && r is Some ==> lies_in(r->0@, month, year),
{
    let st = match &e.begin {
        Some(v) => read_event_time(v),
        None => None,
    };
    let st = match st {
        Some(t) => t,
        None => return None,
    };
    let s = match show_time(st, local.0) {
        Some(s) => s,
        None => return None,
    };
    if !contains(s.as_str(), needle) {
        return None;
    }
    let et = match &e.end {
        Some(v) => read_event_time(v),
        None => None,
    };
    let es = match et {
        None => String::new(),
        Some(t) => match show_time(t, local.1) {
            Some(x) => x,
            None => return None,
        },
    };
    let ps = parse_moment(s.as_str(), "%d.%m.%Y %H:%M");
    let pe = parse_moment(es.as_str(), "%d.%m.%Y %H:%M");
    proof {
        if ps is Some && 1 <= month <= 12 && 1000 <= year <= 9999 {
            if st.kind == TimeKind::Date {
                assert(s@ == dotted_date(st.at.year, st.at.month, st.at.day));
            } else {
                let w = if st.kind == TimeKind::Utc {
                    local.0->0
                } else {
                    st.at
                };
                assert(s@ == dotted_moment(w));
                lemma_month_text_in_moment(w, month, year);
                assert(ps == Some(Moment { second: 0, ..w }));
            }
        }
    }
    match (ps, pe) {
        (Some(ps), Some(pe)) => {
            let uid = match &e.uid {
                Some(u) => u.clone(),
                None => String::new(),
            };
            let title = match &e.title {
                Some(t) => t.clone(),
                None => String::from_str("No name"),
            };
            Some(
                UICalendarEvent {
                    uid,
                    title,
                    day: ps.day as u8,
                    month: ps.month as u8,
                    year: ps.year as u32,
                    begin_hour: ps.hour as u8,
                    begin_mins: ps.minute as u8,
                    end_hour: pe.hour as u8,
                    end_mins: pe.minute as u8,
                },
            )
        },
        _ => None,
    }
}

/// This machine's wall-clock time for a UTC time; nothing for other times.
fn machine_time(v: &Option<crate::calendar::DateTimeValue>) -> (r: Option<Moment>)
    ensures
        local_answer_fits(crate::calendar::opt_value(*v), r),
{
    match v {
        Some(x) => match read_event_time(x) {
            Some(t) => match t.kind {
                TimeKind::Utc => utc_to_local(t.at),
                _ => None,
            },
            None => None,
        },
        None => None,
    }
}

/// The month's text `{:02}.{}`.
pub fn month_text(month: u32, year: u32) -> (r: String)
    ensures
        r@ == month_needle(month, year),
{
    proof {
        reveal_strlit("0");
    }
    let m = pad_left_text(decimal_text(month as u64), 2, "0");
    let y = decimal_text(year as u64);
    concat3(m.as_str(), ".", y.as_str())
}

/// Whether `a` starts no later than `b` (see `start_order`).
fn starts_no_later(a: &UICalendarEvent, b: &UICalendarEvent) -> (r: bool)
    ensures
        r == start_order(a@, b@),
{
    if a.day != b.day {
        a.day < b.day
    } else if a.begin_hour != b.begin_hour {
        a.begin_hour < b.begin_hour
    } else {
        a.begin_mins <= b.begin_mins
    }
}

impl CalendarController {
    /// This machine's wall-clock times for the UTC starts and ends of the
    /// events (nothing for other times).
    pub fn local_times(&self) -> (r: Vec<(Option<Moment>, Option<Moment>)>)
        ensures
            r@.len() == self.events@.len(),
            machine_locals(self.spec_events(), r@),
    {
        let mut r: Vec<(Option<Moment>, Option<Moment>)> = Vec::new();
        let mut i: usize = 0;
        while i < self.events.len()
            invariant
                i <= self.events@.len(),
                r@.len() == i,
                forall|j: int|
                    0 <= j < i ==> local_answer_fits(#[trigger] self.spec_events()[j].begin, r@[j].0)
                        && local_answer_fits(self.spec_events()[j].end, r@[j].1),
            decreases self.events@.len() - i,
        {
            let e = &self.events[i];
            r.push((machine_time(&e.begin), machine_time(&e.end)));
            proof {
                assert(self.spec_events()[i as int] == self.events@[i as int]@);
            }
            i = i + 1;
        }
        r
    }

    /// The events listed for the month, in calendar order, given the
    /// machine's wall-clock times for UTC starts and ends (see
    /// `listed_event`).
    pub fn month_events_with(
        &self,
        month: u32,
        year: u32,
        local_times: &Vec<(Option<Moment>, Option<Moment>)>,
    ) -> (r: Vec<UICalendarEvent>)
        requires
            local_times@.len() == self.events@.len(),
        ensures
            ui_views(r@) == month_listing(
                self.spec_events(),
                month,
                year,
                local_times@,
                self.events@.len() as nat,
            ),
            month_known(month, year) ==> forall|k: int| 0 <= k < r@.len() ==> lies_in(#[trigger] r@[k]@, month, year),
    {
        let needle = month_text(month, year);
        let mut res: Vec<UICalendarEvent> = Vec::new();
        let mut i: usize = 0;
        while i < self.events.len()
            invariant
                i <= self.events@.len(),
                local_times@.len() == self.events@.len(),
                needle@ == month_needle(month, year),
                ui_views(res@) == month_listing(
                    self.spec_events(),
                    month,
                    year,
                    local_times@,
                    i as nat,
                ),
                month_known(month, year) ==> forall|k: int| 0 <= k < res@.len() ==> lies_in(#[trigger] res@[k]@, month, year),
            decreases self.events@.len() - i,
        {
            let ghost before = res@;
            match list_event(&self.events[i], month, year, needle.as_str(), local_times[i]) {
                Some(u) => {
                    res.push(u);
                    proof {
                        assert(ui_views(res@) =~= ui_views(before).push(u@));
                    }
                },
                None => {},
            }
            i = i + 1;
        }
        res
    }

    /// The events listed for the month (see `listed_event`), in calendar
    /// order. UTC times are shown as this machine's wall-clock time.
    pub fn get_month(&self, month: u32, year: u32) -> (r: Vec<UICalendarEvent>)
        ensures
            exists|locals: Seq<(Option<Moment>, Option<Moment>)>|
                machine_locals(self.spec_events(), locals) && ui_views(r@) == month_listing(
                    self.spec_events(),
                    month,
                    year,
                    locals,
                    self.events@.len() as nat,
                ),
            month_known(month, year) ==> forall|k: int| 0 <= k < r@.len() ==> lies_in(#[trigger] r@[k]@, month, year),
    {
        let locals = self.local_times();
        self.month_events_with(month, year, &locals)
    }

    /// The events of the month sorted stably by start, and the grid of the
    /// month's days.
    pub fn get_calendar_data(&self, month: u32, year: u32) -> (r: (Vec<UICalendarEvent>, Vec<DateInfo>))
        requires
            1 <= month <= 12,
            grid_dates_exist((year as i32) as int, month),
        ensures
            exists|locals: Seq<(Option<Moment>, Option<Moment>)>|
                machine_locals(self.spec_events(), locals) && is_stable_sort_of(
                    month_listing(
                        self.spec_events(),
                        month,
                        year,
                        locals,
                        self.events@.len() as nat,
                    ),
                    ui_views(r.0@),
                    |a: UICalendarEventView, b: UICalendarEventView| start_order(a, b),
                ),
            r.1@ == month_grid((year as i32) as int, month as int, ui_views(r.0@)),
            month_known(month, year) ==> forall|k: int| 0 <= k < r.0@.len() ==> lies_in(#[trigger] r.0@[k]@, month, year),
    {
        let locals = self.local_times();
        self.calendar_data_with(month, year, &locals)
    }

    /// The events of the month, given the machine's wall-clock times for
    /// UTC starts and ends, sorted stably by start: the stable sort of what
    /// `month_events_with` lists for the same times; and the grid of the
    /// month's days.
    pub fn calendar_data_with(
        &self,
        month: u32,
        year: u32,
        local_times: &Vec<(Option<Moment>, Option<Moment>)>,
    ) -> (r: (Vec<UICalendarEvent>, Vec<DateInfo>))
        requires
            1 <= month <= 12,
            grid_dates_exist((year as i32) as int, month),
            local_times@.len() == self.events@.len(),
        ensures
            is_stable_sort_of(
                month_listing(self.spec_events(), month, year, local_times@, self.events@.len() as nat),
                ui_views(r.0@),
                |a: UICalendarEventView, b: UICalendarEventView| start_order(a, b),
            ),
            r.1@ == month_grid((year as i32) as int, month as int, ui_views(r.0@)),
            month_known(month, year) ==> forall|k: int| 0 <= k < r.0@.len() ==> lies_in(#[trigger] r.0@[k]@, month, year),
    {
        let events = self.month_events_with(month, year, local_times);
        let ghost listed = events@;
        proof {
            let leq = |a: UICalendarEvent, b: UICalendarEvent| start_order(a@, b@);
            assert forall|a: UICalendarEvent, b: UICalendarEvent| #[trigger] leq(a, b) || leq(b, a) by {}
            assert forall|a: UICalendarEvent, b: UICalendarEvent, c: UICalendarEvent|
                #[trigger] leq(a, b) && #[trigger] leq(b, c) implies leq(a, c) by {}
            assert(total_preorder(leq));
        }
        let events = stable_sort_by(
            events,
            starts_no_later,
            Ghost(|a: UICalendarEvent, b: UICalendarEvent| start_order(a@, b@)),
        );
        proof {
            lemma_stable_sort_of_values(
                listed,
                events@,
                |e: UICalendarEvent| e@,
                |a: UICalendarEventView, b: UICalendarEventView| start_order(a, b),
                |a: UICalendarEvent, b: UICalendarEvent| start_order(a@, b@),
            );
            assert(listed.map_values(|e: UICalendarEvent| e@) == ui_views(listed));
            assert(events@.map_values(|e: UICalendarEvent| e@) == ui_views(events@));
            if month_known(month, year) {
                crate::order::lemma_stable_sort_keeps_items(
                    listed,
                    events@,
                    |a: UICalendarEvent, b: UICalendarEvent| start_order(a@, b@),
                );
                assert forall|k: int| 0 <= k < events@.len() implies lies_in(#[trigger] events@[k]@, month, year) by {
                    assert(listed.contains(events@[k]));
                    let j = choose|j: int| 0 <= j < listed.len() && listed[j] == events@[k];
                    assert(lies_in(listed[j]@, month, year));
                }
            }
        }
        let y = #[verifier::truncate] (year as i32);
        let start_weekday = weekday_from_sunday(y, month, 1).unwrap();
        let next = if month == 12 {
            1
        } else {
            month + 1
        };
        let days = day_before(y, next, 1).unwrap();
        proof {
            assert(days == days_in_month(y as int, month as int));
        }
        let ghost views = ui_views(events@);
        let mut grid: Vec<DateInfo> = Vec::new();
        let mut day: u32 = 1;
        while day <= days
            invariant
                1 <= day <= days + 1,
                days == days_in_month(y as int, month as int),
                days <= 31,
                start_weekday < 7,
                start_weekday == weekday_of(y as int, month as int, 1),
                views == ui_views(events@),
                grid@ == Seq::new((day - 1) as nat, |i: int| grid_cell(y as int, month as int, i + 1, views)),
            decreases days + 1 - day,
        {
            let mut has_event = false;
            let mut k: usize = 0;
            while k < events.len()
                invariant
                    k <= events@.len(),
                    day <= 31,
                    views == ui_views(events@),
                    has_event == exists|j: int| 0 <= j < k && #[trigger] views[j].day == day as u8,
                decreases events@.len() - k,
            {
                assert(views[k as int].day == events@[k as int].day);
                if events[k].day == day as u8 {
                    has_event = true;
                }
                k = k + 1;
            }
            let idx = (day + start_weekday - 1) as i32;
            let row = if idx / 7 > 4 {
                4
            } else {
                idx / 7
            };
            grid.push(DateInfo { row_idx: row, col_idx: idx % 7, day_of_month: day as i32, has_event });
            proof {
                assert(grid@ =~= Seq::new(day as nat, |i: int| grid_cell(y as int, month as int, i + 1, views)));
            }
            day = day + 1;
        }
        (events, grid)
    }
}

} // verus!
