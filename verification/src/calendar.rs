//! The calendar: events with a title and a start and an end as iCalendar
//! date-time values, the month listing and month grid shown to the user,
//! and the rescheduling rules.

use vstd::prelude::*;
use crate::datetime::Moment;
use crate::order::text_le;
use crate::text::{concat3, remove_char, slice_bytes, utf8_slice, without_char};

verus! {

/// An iCalendar date-time property value: its text and the parameters that
/// decide how it is read (`TZID`, and `VALUE=DATE` for a date without time).
#[derive(Debug)]
pub struct DateTimeValue {
    pub text: String,
    pub tzid: Option<String>,
    pub date_only: bool,
}

pub struct DateTimeValueView {
    pub text: Seq<char>,
    pub tzid: Option<Seq<char>>,
    pub date_only: bool,
}

impl View for DateTimeValue {
    type V = DateTimeValueView;

    open spec fn view(&self) -> DateTimeValueView {
        DateTimeValueView {
            text: self.text@,
            tzid: crate::tasks::opt_text(self.tzid),
            date_only: self.date_only,
        }
    }
}

/// The value of an optional date-time value.
pub open spec fn opt_value(v: Option<DateTimeValue>) -> Option<DateTimeValueView> {
    match v {
        Some(x) => Some(x@),
        None => None,
    }
}

/// An event of the calendar: its `UID`, its `SUMMARY` (title), and its
/// `DTSTART` and `DTEND` values, each of which may be missing.
#[derive(Debug)]
pub struct CalendarEvent {
    pub uid: Option<String>,
    pub title: Option<String>,
    pub begin: Option<DateTimeValue>,
    pub end: Option<DateTimeValue>,
}

pub struct CalendarEventView {
    pub uid: Option<Seq<char>>,
    pub title: Option<Seq<char>>,
    pub begin: Option<DateTimeValueView>,
    pub end: Option<DateTimeValueView>,
}

impl View for CalendarEvent {
    type V = CalendarEventView;

    open spec fn view(&self) -> CalendarEventView {
        CalendarEventView {
            uid: crate::tasks::opt_text(self.uid),
            title: crate::tasks::opt_text(self.title),
            begin: opt_value(self.begin),
            end: opt_value(self.end),
        }
    }
}

/// The values of a sequence of events.
pub open spec fn event_views(s: Seq<CalendarEvent>) -> Seq<CalendarEventView> {
    s.map_values(|e: CalendarEvent| e@)
}

/// How a date-time value is anchored in time.
#[derive(Clone, Copy, Debug, PartialEq, Eq, Structural)]
pub enum TimeKind {
    /// Wall-clock time wherever the reader is.
    Floating,
    /// A moment in UTC.
    Utc,
    /// Wall-clock time in a named time zone.
    Zoned,
    /// A whole day; the moment is its midnight.
    Date,
}

/// A date-time value as read: its kind and its date and time.
#[derive(Clone, Copy, Debug, PartialEq, Eq, Structural)]
pub struct EventTime {
    pub kind: TimeKind,
    pub at: Moment,
}

/// A cell of the month grid: its row and column (Sunday first), the day of
/// the month, and whether any listed event starts that day.
#[derive(Clone, Copy, Debug, PartialEq, Eq, Structural)]
pub struct DateInfo {
    pub row_idx: i32,
    pub col_idx: i32,
    pub day_of_month: i32,
    pub has_event: bool,
}

/// An event as the month view shows it.
#[derive(Debug, PartialEq)]
pub struct UICalendarEvent {
    pub uid: String,
    pub title: String,
    pub day: u8,
    pub month: u8,
    pub year: u32,
    pub begin_hour: u8,
    pub begin_mins: u8,
    pub end_hour: u8,
    pub end_mins: u8,
}

pub struct UICalendarEventView {
    pub uid: Seq<char>,
    pub title: Seq<char>,
    pub day: u8,
    pub month: u8,
    pub year: u32,
    pub begin_hour: u8,
    pub begin_mins: u8,
    pub end_hour: u8,
    pub end_mins: u8,
}

impl View for UICalendarEvent {
    type V = UICalendarEventView;

    open spec fn view(&self) -> UICalendarEventView {
        UICalendarEventView {
            uid: self.uid@,
            title: self.title@,
            day: self.day,
            month: self.month,
            year: self.year,
            begin_hour: self.begin_hour,
            begin_mins: self.begin_mins,
            end_hour: self.end_hour,
            end_mins: self.end_mins,
        }
    }
}

/// The values of a sequence of shown events.
pub open spec fn ui_views(s: Seq<UICalendarEvent>) -> Seq<UICalendarEventView> {
    s.map_values(|e: UICalendarEvent| e@)
}

/// Some event in `s` has the UID `uid`.
pub open spec fn has_event(s: Seq<CalendarEventView>, uid: Seq<char>) -> bool {
    exists|i: int| 0 <= i < s.len() && #[trigger] s[i].uid == Some(uid)
}

/// `i` is the position of the first event in `s` with the UID `uid`.
pub open spec fn is_first_event(s: Seq<CalendarEventView>, uid: Seq<char>, i: int) -> bool {
    &&& 0 <= i < s.len()
    &&& s[i].uid == Some(uid)
    &&& forall|j: int| 0 <= j < i ==> #[trigger] s[j].uid != Some(uid)
}

/// The position of the first event in `s` with the UID `uid`.
pub open spec fn first_event(s: Seq<CalendarEventView>, uid: Seq<char>) -> int {
    choose|i: int| is_first_event(s, uid, i)
}

pub proof fn lemma_first_event(s: Seq<CalendarEventView>, uid: Seq<char>, i: int)
    requires
        is_first_event(s, uid, i),
    ensures
        first_event(s, uid) == i,
        has_event(s, uid),
{
    let k = first_event(s, uid);
    assert(is_first_event(s, uid, k));
    if k < i {
        assert(s[k].uid != Some(uid));
    } else if k > i {
        assert(s[i].uid != Some(uid));
    }
}

/// `x` if present, `default` otherwise.
pub open spec fn or_default(x: Option<Seq<char>>, default: Seq<char>) -> Seq<char> {
    match x {
        Some(v) => v,
        None => default,
    }
}

/// The new start and end texts when an event is rescheduled.
///
/// The old texts (with `Z` removed) are the start point; a missing start
/// counts as `20260101T000000` and a missing end as `20260101T235900`. A new
/// date replaces both dates, with the new times or midnight. Without a new
/// date the old date (the first 8 bytes of the start, or `20260101`) stays: a
/// new start time replaces the start, and a new end time replaces the end
/// when it is later than the old start time (the bytes 9 to 15 of the start,
/// or `000000`); otherwise the end takes the new start time, if one is given.
pub open spec fn rescheduled(
    begin: Option<Seq<char>>,
    end: Option<Seq<char>>,
    new_date: Option<Seq<char>>,
    new_begin: Option<Seq<char>>,
    new_end: Option<Seq<char>>,
) -> (Seq<char>, Seq<char>) {
    let clean_start = without_char(or_default(begin, "20260101T000000"@), 'Z');
    let clean_end = without_char(or_default(end, "20260101T235900"@), 'Z');
    let old_date = or_default(utf8_slice(clean_start, 0, 8), "20260101"@);
    let old_start_time = or_default(utf8_slice(clean_start, 9, 15), "000000"@);
    match new_date {
        Some(nd) => (
            nd + "T"@ + or_default(new_begin, "000000"@),
            nd + "T"@ + or_default(new_end, "000000"@),
        ),
        None => {
            let start = match new_begin {
                Some(ns) => old_date + "T"@ + ns,
                None => clean_start,
            };
            let finish = match new_end {
                Some(ne) => if !text_le(ne, old_start_time) {
                    old_date + "T"@ + ne
                } else {
                    match new_begin {
                        Some(ns) => old_date + "T"@ + ns,
                        None => clean_end,
                    }
                },
                None => clean_end,
            };
            (start, finish)
        },
    }
}

/// A plain date-time value with the given text.
pub open spec fn plain_value(text: Seq<char>) -> DateTimeValueView {
    DateTimeValueView { text, tzid: None, date_only: false }
}

/// The event after `change_event`: the new title where one is given, and the
/// rescheduled start and end as plain values.
pub open spec fn changed_event(
    e: CalendarEventView,
    new_title: Option<Seq<char>>,
    new_date: Option<Seq<char>>,
    new_begin: Option<Seq<char>>,
    new_end: Option<Seq<char>>,
) -> CalendarEventView {
    let times = rescheduled(
        match e.begin {
            Some(v) => Some(v.text),
            None => None,
        },
        match e.end {
            Some(v) => Some(v.text),
            None => None,
        },
        new_date,
        new_begin,
        new_end,
    );
    CalendarEventView {
        title: match new_title {
            Some(t) => Some(t),
            None => e.title,
        },
        begin: Some(plain_value(times.0)),
        end: Some(plain_value(times.1)),
        ..e
    }
}

/// The calendar's events, in order.
#[derive(Debug, Default)]
pub struct CalendarController {
    pub events: Vec<CalendarEvent>,
}

/// `old` or `fallback` as a string.
fn text_or(old: &Option<DateTimeValue>, fallback: &str) -> (r: String)
    ensures
        r@ == or_default(
            match opt_value(*old) {
                Some(v) => Some(v.text),
                None => None,
            },
            fallback@,
        ),
{
    match old {
        Some(v) => v.text.clone(),
        None => String::from_str(fallback),
    }
}

/// The rescheduled start and end texts (see `rescheduled`).
pub fn reschedule(
    begin: &Option<DateTimeValue>,
    end: &Option<DateTimeValue>,
    new_date: &Option<String>,
    new_begin: &Option<String>,
    new_end: &Option<String>,
) -> (r: (String, String))
    ensures
        (r.0@, r.1@) == rescheduled(
            match opt_value(*begin) {
                Some(v) => Some(v.text),
                None => None,
            },
            match opt_value(*end) {
                Some(v) => Some(v.text),
                None => None,
            },
            crate::tasks::opt_text(*new_date),
            crate::tasks::opt_text(*new_begin),
            crate::tasks::opt_text(*new_end),
        ),
{
    let old_start = text_or(begin, "20260101T000000");
    let old_end = text_or(end, "20260101T235900");
    let clean_start = remove_char(old_start.as_str(), 'Z');
    let clean_end = remove_char(old_end.as_str(), 'Z');
    let old_date = match slice_bytes(clean_start.as_str(), 0, 8) {
        Some(d) => d,
        None => String::from_str("20260101"),
    };
    let old_start_time = match slice_bytes(clean_start.as_str(), 9, 15) {
        Some(t) => t,
        None => String::from_str("000000"),
    };
    match new_date {
        Some(nd) => {
            let start = match new_begin {
                Some(ns) => concat3(nd.as_str(), "T", ns.as_str()),
                None => concat3(nd.as_str(), "T", "000000"),
            };
            let finish = match new_end {
                Some(ne) => concat3(nd.as_str(), "T", ne.as_str()),
                None => concat3(nd.as_str(), "T", "000000"),
            };
            (start, finish)
        },
        None => {
            let start = match new_begin {
                Some(ns) => concat3(old_date.as_str(), "T", ns.as_str()),
                None => clean_start.clone(),
            };
            let finish = match new_end {
                Some(ne) => {
                    if !crate::order::str_le(ne.as_str(), old_start_time.as_str()) {
                        concat3(old_date.as_str(), "T", ne.as_str())
                    } else {
                        match new_begin {
                            Some(ns) => concat3(old_date.as_str(), "T", ns.as_str()),
                            None => clean_end,
                        }
                    }
                },
                None => clean_end,
            };
            (start, finish)
        },
    }
}

impl CalendarController {
    /// The values of the events, in order.
    pub open spec fn spec_events(&self) -> Seq<CalendarEventView> {
        event_views(self.events@)
    }

    /// An empty calendar.
    pub fn new() -> (r: Self)
        ensures
            r.spec_events() == Seq::<CalendarEventView>::empty(),
    {
        CalendarController { events: Vec::new() }
    }

    /// The position of the first event with the UID `uid`, if any.
    fn position_of(&self, uid: &str) -> (r: Option<usize>)
        ensures
            match r {
                Some(i) => is_first_event(self.spec_events(), uid@, i as int) && first_event(
                    self.spec_events(),
                    uid@,
                ) == i && has_event(self.spec_events(), uid@),
                None => !has_event(self.spec_events(), uid@),
            },
    {
        let key = String::from_str(uid);
        let mut i: usize = 0;
        while i < self.events.len()
            invariant
                key@ == uid@,
                i <= self.events@.len(),
                forall|j: int| 0 <= j < i ==> #[trigger] self.spec_events()[j].uid != Some(uid@),
            decreases self.events@.len() - i,
        {
            let same = match &self.events[i].uid {
                Some(u) => *u == key,
                None => false,
            };
            if same {
                proof {
                    lemma_first_event(self.spec_events(), uid@, i as int);
                }
                return Some(i);
            }
            i = i + 1;
        }
        proof {
            if has_event(self.spec_events(), uid@) {
                let k = choose|k: int| 0 <= k < self.spec_events().len() && #[trigger] self.spec_events()[k].uid == Some(uid@);
                assert(self.spec_events()[k].uid != Some(uid@));
            }
        }
        None
    }

    /// Changes the first event with the UID `uid`: its title, where a new one
    /// is given, and its start and end as `rescheduled` says. Says whether
    /// there was such an event.
    pub fn change_event(
        &mut self,
        uid: &str,
        new_title: Option<String>,
        new_date: Option<String>,
        new_begin: Option<String>,
        new_end: Option<String>,
    ) -> (r: bool)
        ensures
            r == has_event(old(self).spec_events(), uid@),
            r ==> final(self).spec_events() == old(self).spec_events().update(
                first_event(old(self).spec_events(), uid@),
                changed_event(
                    old(self).spec_events()[first_event(old(self).spec_events(), uid@)],
                    crate::tasks::opt_text(new_title),
                    crate::tasks::opt_text(new_date),
                    crate::tasks::opt_text(new_begin),
                    crate::tasks::opt_text(new_end),
                ),
            ),
            !r ==> final(self).spec_events() == old(self).spec_events(),
    {
        match self.position_of(uid) {
            Some(i) => {
                let ghost before = self.events@;
                let mut event = self.events.remove(i);
                let times = reschedule(&event.begin, &event.end, &new_date, &new_begin, &new_end);
                if let Some(t) = new_title {
                    event.title = Some(t);
                }
                let (start, finish) = times;
                event.begin = Some(DateTimeValue { text: start, tzid: None, date_only: false });
                event.end = Some(DateTimeValue { text: finish, tzid: None, date_only: false });
                self.events.insert(i, event);
                proof {
                    assert(self.events@ =~= before.update(i as int, event));
                    assert(event_views(self.events@) =~= event_views(before).update(i as int, event@));
                }
                true
            },
            None => false,
        }
    }

    /// Appends an event with a fresh random UID, the title, and the start and
    /// end texts as plain values; returns the UID.
    pub fn add_event(&mut self, title: String, begin_date: String, end_date: String) -> (r: String)
        ensures
            exists|u: u128| r@ == crate::ids::uuid_hyphenated(u),
            final(self).spec_events() == old(self).spec_events().push(
                CalendarEventView {
                    uid: Some(r@),
                    title: Some(title@),
                    begin: Some(plain_value(begin_date@)),
                    end: Some(plain_value(end_date@)),
                },
            ),
    {
        let u = crate::ids::new_uuid();
        let uid = crate::ids::uuid_text(u);
        let event = CalendarEvent {
            uid: Some(uid.clone()),
            title: Some(title),
            begin: Some(DateTimeValue { text: begin_date, tzid: None, date_only: false }),
            end: Some(DateTimeValue { text: end_date, tzid: None, date_only: false }),
        };
        let ghost before = self.events@;
        self.events.push(event);
        proof {
            assert(event_views(self.events@) =~= event_views(before).push(event@));
        }
        uid
    }

    /// Removes every event with the UID `uid`.
    pub fn delete_event(&mut self, uid: &str)
        ensures
            final(self).spec_events() == old(self).spec_events().filter(
                |e: CalendarEventView| e.uid != Some(uid@),
            ),
    {
        let key = String::from_str(uid);
        let n = self.events.len();
        let mut old_events: Vec<CalendarEvent> = Vec::new();
        std::mem::swap(&mut old_events, &mut self.events);
        let ghost src = old_events@;
        let mut rest = old_events;
        let mut kept: Vec<CalendarEvent> = Vec::new();
        let mut i: usize = 0;
        while i < n
            invariant
                key@ == uid@,
                n == src.len(),
                i <= n,
                rest@ == src.subrange(i as int, n as int),
                event_views(kept@) == event_views(src.subrange(0, i as int)).filter(
                    |e: CalendarEventView| e.uid != Some(uid@),
                ),
            decreases n - i,
        {
            let e = rest.remove(0);
            let ghost before = kept@;
            proof {
                let pre = src.subrange(0, i as int);
                let pre1 = src.subrange(0, i + 1);
                assert(pre1 =~= pre.push(e));
                assert(event_views(pre1) =~= event_views(pre).push(e@));
                reveal(Seq::filter);
                assert(event_views(pre1).drop_last() =~= event_views(pre));
            }
            let matches = match &e.uid {
                Some(u) => *u == key,
                None => false,
            };
            if !matches {
                kept.push(e);
                proof {
                    assert(event_views(kept@) =~= event_views(before).push(e@));
                }
            }
            i = i + 1;
        }
        proof {
            assert(src.subrange(0, n as int) =~= src);
        }
        self.events = kept;
    }
}

} // verus!
