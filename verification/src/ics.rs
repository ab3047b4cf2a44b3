//! The services of the `icalendar` crate that the calendar uses: reading
//! iCalendar text into event values, reading a date-time value, and writing
//! events back out as iCalendar text.

use vstd::prelude::*;
use chrono::{Datelike, NaiveTime, TimeZone, Timelike};
use icalendar::{CalendarDateTime as Cdt, Component, DatePerhapsTime as Dpt, EventLike};
use crate::calendar::{opt_value, plain_value, CalendarEventView, DateTimeValue, EventTime, TimeKind};
use crate::calendar::TimeKind::{Date, Floating, Utc, Zoned};
use crate::datetime::{compact_moment, valid_moment, Moment};
use crate::tasks::opt_text;

verus! {

#[verifier::external_type_specification]
#[verifier::external_body]
pub struct ExCalendar(icalendar::Calendar);

#[verifier::external_type_specification]
#[verifier::external_body]
pub struct ExEvent(icalendar::Event);

#[verifier::external_type_specification]
#[verifier::external_body]
pub struct ExCalendarComponent(icalendar::CalendarComponent);

/// The components of a calendar, in order: the values of its events, and
/// `None` for the components that are not events.
pub uninterp spec fn ics_components(c: icalendar::Calendar) -> Seq<Option<CalendarEventView>>;

/// The value of an event: its `UID`, its `SUMMARY`, and its `DTSTART` and
/// `DTEND` properties, read as `ics_components` reads those of a calendar's
/// events.
pub uninterp spec fn ics_event(e: icalendar::Event) -> CalendarEventView;

/// The components that `icalendar` reads from the text, if it can read it.
pub uninterp spec fn ics_reading(text: Seq<char>) -> Option<Seq<Option<CalendarEventView>>>;

/// How `icalendar::DatePerhapsTime::from_property` reads a `DTSTART` value
/// with the text, the `TZID` parameter and, when `date_only`, `VALUE=DATE`.
pub uninterp spec fn ical_time(text: Seq<char>, tzid: Option<Seq<char>>, date_only: bool) -> Option<EventTime>;

/// Reads iCalendar text with `icalendar`'s parser (`str::parse`).
#[verifier::external_body]
pub fn parse_ics(text: &str) -> (r: Result<icalendar::Calendar, String>)
    ensures
        r is Ok <==> ics_reading(text@) is Some,
        r matches Ok(c) ==> ics_reading(text@) == Some(ics_components(c)),
{
    text.parse::<icalendar::Calendar>()
}

/// The number of components of the calendar.
#[verifier::external_body]
pub fn component_count(c: &icalendar::Calendar) -> (r: usize)
    ensures
        r == ics_components(*c).len(),
{
    c.components.len()
}

/// Whether component `i` is an event.
#[verifier::external_body]
pub fn component_is_event(c: &icalendar::Calendar, i: usize) -> (r: bool)
    requires
        i < ics_components(*c).len(),
    ensures
        r == ics_components(*c)[i as int] is Some,
{
    c.components[i].as_event().is_some()
}

/// The `UID` of event `i`.
#[verifier::external_body]
pub fn component_uid(c: &icalendar::Calendar, i: usize) -> (r: Option<String>)
    requires
        i < ics_components(*c).len(),
        ics_components(*c)[i as int] is Some,
    ensures
        opt_text(r) == ics_components(*c)[i as int]->0.uid,
{
    c.components[i].as_event()?.get_uid().map(|u| u.to_string())
}

/// The `SUMMARY` of event `i`.
#[verifier::external_body]
pub fn component_title(c: &icalendar::Calendar, i: usize) -> (r: Option<String>)
    requires
        i < ics_components(*c).len(),
        ics_components(*c)[i as int] is Some,
    ensures
        opt_text(r) == ics_components(*c)[i as int]->0.title,
{
    c.components[i].as_event()?.get_summary().map(|s| s.to_string())
}

/// The `DTSTART` value of event `i`.
#[verifier::external_body]
pub fn component_begin(c: &icalendar::Calendar, i: usize) -> (r: Option<DateTimeValue>)
    requires
        i < ics_components(*c).len(),
        ics_components(*c)[i as int] is Some,
    ensures
        opt_value(r) == ics_components(*c)[i as int]->0.begin,
{
    let p = c.components[i].as_event()?.properties().get("DTSTART")?;
    let tzid = p.params().get("TZID").map(|t| t.value().to_string());
    let date_only = p.value_type() == Some(icalendar::ValueType::Date);
    Some(DateTimeValue { text: p.value().to_string(), tzid, date_only })
}

/// The `DTEND` value of event `i`.
#[verifier::external_body]
pub fn component_end(c: &icalendar::Calendar, i: usize) -> (r: Option<DateTimeValue>)
    requires
        i < ics_components(*c).len(),
        ics_components(*c)[i as int] is Some,
    ensures
        opt_value(r) == ics_components(*c)[i as int]->0.end,
{
    let p = c.components[i].as_event()?.properties().get("DTEND")?;
    let tzid = p.params().get("TZID").map(|t| t.value().to_string());
    let date_only = p.value_type() == Some(icalendar::ValueType::Date);
    Some(DateTimeValue { text: p.value().to_string(), tzid, date_only })
}

/// Reads a date-time value as `icalendar` reads an event's start
/// (`DatePerhapsTime::from_property`). What it reads is a real date and
/// time, and a date alone reads as its midnight.
#[verifier::external_body]
pub fn read_event_time(v: &DateTimeValue) -> (r: Option<EventTime>)
    ensures
        r == ical_time(v.text@, opt_text(v.tzid), v.date_only),
        r matches Some(t) ==> valid_moment(t.at),
        r matches Some(t) ==> (t.kind == TimeKind::Date ==> t.at.hour == 0 && t.at.minute == 0 && t.at.second == 0),
{
    let mut p = icalendar::Property::new("DTSTART", &v.text);
    if let Some(t) = &v.tzid { p.add_parameter("TZID", t); }
    if v.date_only { p.add_parameter("VALUE", "DATE"); }
    let (kind, n) = match Dpt::from_property(&p)? {
        Dpt::DateTime(Cdt::Floating(n)) => (Floating, n),
        Dpt::DateTime(Cdt::Utc(u)) => (Utc, u.naive_utc()),
        Dpt::DateTime(Cdt::WithTimezone { date_time, .. }) => (Zoned, date_time),
        Dpt::Date(d) => (Date, d.and_time(NaiveTime::MIN)),
    };
    Some(EventTime { kind, at: Moment::new(n.year(), n.month(), n.day(), n.hour(), n.minute(), n.second()) })
}

/// A new calendar (`icalendar::Calendar::new`): it has no components.
#[verifier::external_body]
pub fn new_calendar() -> (r: icalendar::Calendar)
    ensures
        ics_components(r) == Seq::<Option<CalendarEventView>>::empty(),
{
    icalendar::Calendar::new()
}

/// A new event (`icalendar::Event::new`): it has no properties.
#[verifier::external_body]
pub fn new_event() -> (r: icalendar::Event)
    ensures
        ics_event(r) == (CalendarEventView { uid: None, title: None, begin: None, end: None }),
{
    icalendar::Event::new()
}

/// Sets the event's `UID` (`Component::uid`), replacing any earlier one.
#[verifier::external_body]
pub fn set_event_uid(e: &mut icalendar::Event, uid: &str)
    ensures
        ics_event(*final(e)) == (CalendarEventView { uid: Some(uid@), ..ics_event(*old(e)) }),
{
    e.uid(uid);
}

/// Sets the event's `SUMMARY` (`Component::summary`), replacing any earlier
/// one.
#[verifier::external_body]
pub fn set_event_summary(e: &mut icalendar::Event, summary: &str)
    ensures
        ics_event(*final(e)) == (CalendarEventView { title: Some(summary@), ..ics_event(*old(e)) }),
{
    e.summary(summary);
}

/// Sets the event's `DTSTART` to the UTC moment `m` (`EventLike::starts`):
/// a property without parameters whose text is `m` written
/// `YYYYMMDDTHHMMSSZ` (`format_utc_date_time`, the pattern `%Y%m%dT%H%M%SZ`).
#[verifier::external_body]
pub fn set_event_start(e: &mut icalendar::Event, m: Moment)
    requires
        valid_moment(m),
    ensures
        ics_event(*final(e)) == (CalendarEventView {
            begin: Some(plain_value(compact_moment(m) + "Z"@)),
            ..ics_event(*old(e))
        }),
{
    let n = chrono::NaiveDate::from_ymd_opt(m.year, m.month, m.day).unwrap().and_hms_opt(m.hour, m.minute, m.second).unwrap();
    e.starts(chrono::Utc.from_utc_datetime(&n));
}

/// Sets the event's `DTEND` to the UTC moment `m` (`EventLike::ends`), as
/// `set_event_start` sets its start.
#[verifier::external_body]
pub fn set_event_end(e: &mut icalendar::Event, m: Moment)
    requires
        valid_moment(m),
    ensures
        ics_event(*final(e)) == (CalendarEventView {
            end: Some(plain_value(compact_moment(m) + "Z"@)),
            ..ics_event(*old(e))
        }),
{
    let n = chrono::NaiveDate::from_ymd_opt(m.year, m.month, m.day).unwrap().and_hms_opt(m.hour, m.minute, m.second).unwrap();
    e.ends(chrono::Utc.from_utc_datetime(&n));
}

/// Appends the event to the calendar (`Calendar::push`).
#[verifier::external_body]
pub fn push_event(c: &mut icalendar::Calendar, e: icalendar::Event)
    ensures
        ics_components(*final(c)) == ics_components(*old(c)).push(Some(ics_event(e))),
{
    c.push(e);
}

/// The text `icalendar` writes for the calendar (its `Display`) when the
/// components lacking a `DTSTAMP` are stamped with `stamps[i]` and those
/// lacking a `UID` get `uids[i]`, `i` being the component's place.
pub uninterp spec fn ics_written(c: icalendar::Calendar, stamps: Seq<Seq<char>>, uids: Seq<Seq<char>>) -> Seq<char>;

/// The calendar as iCalendar text (its `Display`): a document from
/// `BEGIN:VCALENDAR` to `END:VCALENDAR`. The writer stamps each component
/// that has no `DTSTAMP` with the current time and gives each that has no
/// `UID` a random one, so the text is the calendar written with some stamps
/// and some UIDs.
#[verifier::external_body]
pub fn calendar_text(c: &icalendar::Calendar) -> (r: String)
    ensures
        exists|stamps: Seq<Seq<char>>, uids: Seq<Seq<char>>| r@ == ics_written(*c, stamps, uids),
        r@.len() >= 17 && r@.subrange(0, 17) == "BEGIN:VCALENDAR\r\n"@,
        r@.len() >= 15 && r@.subrange(r@.len() - 15, r@.len() as int) == "END:VCALENDAR\r\n"@,
{
    c.to_string()
}

} // verus!
