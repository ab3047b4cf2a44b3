//! Reading a calendar from iCalendar text and writing it back: on reading,
//! every start and end that reads as a date-time is rewritten as a floating
//! local time; on writing, each becomes the UTC moment of that local time.

use vstd::prelude::*;
use crate::calendar::{
    event_views, plain_value, CalendarController, CalendarEvent, CalendarEventView,
    DateTimeValue, DateTimeValueView, EventTime, TimeKind,
};
use crate::calendar_view::{near, reading};
use crate::datetime::{compact_moment, epoch_seconds, format_moment, inner_year, within_a_day, local_to_utc, utc_to_local, valid_moment, Moment};
use crate::ics::{
    calendar_text, ics_event, ics_written, component_begin, component_count, component_end, component_is_event,
    component_title, component_uid, ics_components, ics_reading, new_calendar, new_event,
    parse_ics, push_event, read_event_time, set_event_end, set_event_start, set_event_summary,
    set_event_uid,
};

verus! {

/// The events among the first `n` components, in order.
pub open spec fn events_among(comps: Seq<Option<CalendarEventView>>, n: nat) -> Seq<CalendarEventView>
    decreases n,
{
    if n == 0 {
        Seq::empty()
    } else {
        let rest = events_among(comps, (n - 1) as nat);
        match comps[n - 1] {
            Some(e) => rest.push(e),
            None => rest,
        }
    }
}

/// The wall-clock time of a time on this machine, given `local`: a floating
/// time or a day is its own, a UTC time is `local` (this machine's
/// wall-clock time for it), and a zoned time is its own when `local` is
/// present (the time occurs exactly once on this machine's clock).
pub open spec fn wall_clock(t: EventTime, local: Option<Moment>) -> Option<Moment> {
    match t.kind {
        TimeKind::Utc => local,
        TimeKind::Zoned => match local {
            Some(_) => Some(t.at),
            None => None,
        },
        _ => Some(t.at),
    }
}

/// A value rewritten as floating local time in the form `%Y%m%dT%H%M%S`:
/// unchanged if it does not read as a date-time; `None` if its wall-clock
/// time cannot be had.
pub open spec fn floating_value(v: Option<DateTimeValueView>, local: Option<Moment>) -> Option<
    Option<DateTimeValueView>,
> {
    match reading(v) {
        None => Some(v),
        Some(t) => match wall_clock(t, local) {
            None => None,
            Some(n) => {
                if valid_moment(n) {
                    Some(Some(plain_value(compact_moment(n))))
                } else {
                    None
                }
            },
        },
    }
}

/// The events with their starts and ends rewritten as floating local times,
/// if every one can be; `locals[i]` holds the machine's answers for the
/// start and end of event `i`.
pub open spec fn floating_events(
    events: Seq<CalendarEventView>,
    locals: Seq<(Option<Moment>, Option<Moment>)>,
    n: nat,
) -> Option<Seq<CalendarEventView>>
    decreases n,
{
    if n == 0 {
        Some(Seq::empty())
    } else {
        match floating_events(events, locals, (n - 1) as nat) {
            None => None,
            Some(rest) => {
                let e = events[n - 1];
                match (floating_value(e.begin, locals[n - 1].0), floating_value(e.end, locals[n - 1].1)) {
                    (Some(b), Some(f)) => Some(rest.push(CalendarEventView { begin: b, end: f, ..e })),
                    _ => None,
                }
            },
        }
    }
}

pub proof fn lemma_floating_failure_stays(
    events: Seq<CalendarEventView>,
    l: Seq<(Option<Moment>, Option<Moment>)>,
    k: nat,
    n: nat,
)
    requires
        k <= n,
        floating_events(events, l, k) is None,
    ensures
        floating_events(events, l, n) is None,
    decreases n,
{
    if n > k {
        lemma_floating_failure_stays(events, l, k, (n - 1) as nat);
    }
}

/// What this machine answers for a value when it is read in: for a UTC
/// time its local time, which exists whenever its year lies inside
/// `chrono`'s range; for a zoned time the UTC moment at which the clock
/// shows it, when it shows it exactly once; each less than a day from the
/// time; nothing for other values.
pub open spec fn answer_fits(v: Option<DateTimeValueView>, r: Option<Moment>) -> bool {
    match reading(v) {
        Some(t) => if t.kind == TimeKind::Utc {
            &&& (valid_moment(t.at) && inner_year(t.at.year) ==> r is Some)
            &&& near(r, t.at)
        } else if t.kind == TimeKind::Zoned {
            near(r, t.at)
        } else {
            r is None
        },
        None => r is None,
    }
}

/// `locals` holds, for each event, what this machine answers for its start
/// and end (see `answer_fits`).
pub open spec fn machine_answers(
    events: Seq<CalendarEventView>,
    locals: Seq<(Option<Moment>, Option<Moment>)>,
) -> bool {
    forall|i: int|
        0 <= i < events.len() && i < locals.len() ==> answer_fits(#[trigger] events[i].begin, locals[i].0)
            && answer_fits(events[i].end, locals[i].1)
}

/// The value's wall-clock time can be had on every machine: it does not
/// read as a date-time, or reads as a floating time or a day, or as a UTC
/// time whose year lies inside `chrono`'s range.
pub open spec fn surely_local(v: Option<DateTimeValueView>) -> bool {
    match reading(v) {
        Some(t) => t.kind == TimeKind::Floating || t.kind == TimeKind::Date || (t.kind
            == TimeKind::Utc && inner_year(t.at.year)),
        None => true,
    }
}

/// Every start and end of the events can be read in on every machine.
pub open spec fn all_surely_local(events: Seq<CalendarEventView>) -> bool {
    forall|i: int| 0 <= i < events.len() ==> surely_local(#[trigger] events[i].begin) && surely_local(events[i].end)
}

/// Reading the components `comps` with the machine's answers `locals` ends
/// in `outcome`, with the events `result` on success.
pub open spec fn imported_as(
    comps: Seq<Option<CalendarEventView>>,
    locals: Seq<(Option<Moment>, Option<Moment>)>,
    outcome: Result<(), String>,
    result: Seq<CalendarEventView>,
) -> bool {
    let events = events_among(comps, comps.len());
    &&& locals.len() == events.len()
    &&& machine_answers(events, locals)
    &&& match floating_events(events, locals, events.len()) {
        Some(f) => outcome is Ok && result == f,
        None => outcome is Err,
    }
}

/// The machine's answer that `wall_clock` needs for a value: for a UTC time
/// the local time, for a zoned time its UTC moment if the time occurs
/// exactly once on this machine's clock; nothing otherwise.
fn machine_answer(v: &Option<DateTimeValue>) -> (r: Option<Moment>)
    ensures
        answer_fits(crate::calendar::opt_value(*v), r),
{
    match v {
        Some(x) => match read_event_time(x) {
            Some(t) => match t.kind {
                TimeKind::Utc => utc_to_local(t.at),
                TimeKind::Zoned => local_to_utc(t.at),
                _ => None,
            },
            None => None,
        },
        None => None,
    }
}

/// The wall-clock time of a value that reads, given the machine's answer
/// (see `wall_clock`).
fn wall_clock_of(v: &Option<DateTimeValue>, local: Option<Moment>) -> (r: Option<Option<Moment>>)
    ensures
        match r {
            None => reading(crate::calendar::opt_value(*v)) is None,
            Some(w) => reading(crate::calendar::opt_value(*v)) matches Some(t) && valid_moment(t.at) && w
                == wall_clock(t, local),
        },
{
    let t = match v {
        Some(x) => read_event_time(x),
        None => None,
    };
    match t {
        None => None,
        Some(t) => Some(
            match t.kind {
                TimeKind::Utc => local,
                TimeKind::Zoned => match local {
                    Some(_) => Some(t.at),
                    None => None,
                },
                _ => Some(t.at),
            },
        ),
    }
}

/// The value rewritten as floating local time (see `floating_value`).
fn to_floating(v: Option<DateTimeValue>, local: Option<Moment>) -> (r: Option<Option<DateTimeValue>>)
    ensures
        match r {
            None => floating_value(crate::calendar::opt_value(v), local) is None,
            Some(x) => floating_value(crate::calendar::opt_value(v), local) == Some(
                crate::calendar::opt_value(x),
            ),
        },
        surely_local(crate::calendar::opt_value(v)) && answer_fits(crate::calendar::opt_value(v), local)
            ==> r is Some,
{
    proof {
        crate::datetime::lemma_patterns_differ();
    }
    match wall_clock_of(&v, local) {
        None => Some(v),
        Some(None) => None,
        Some(Some(n)) => match format_moment(n, "%Y%m%dT%H%M%S") {
            Some(text) => Some(Some(DateTimeValue { text, tzid: None, date_only: false })),
            None => None,
        },
    }
}

/// The components of the calendar written out, or the error's text.
pub open spec fn export_outcome(r: Result<icalendar::Calendar, String>) -> Result<Seq<Option<CalendarEventView>>, Seq<char>> {
    match r {
        Ok(c) => Ok(ics_components(c)),
        Err(e) => Err(e@),
    }
}

/// The outcome of writing out, with `c` the calendar that was written.
pub open spec fn written_outcome(r: Result<String, String>, c: icalendar::Calendar) -> Result<Seq<Option<CalendarEventView>>, Seq<char>> {
    match r {
        Ok(_) => Ok(ics_components(c)),
        Err(e) => Err(e@),
    }
}

/// `t` is what `icalendar` writes for the calendar `c`, with some stamps
/// and some UIDs for the components that lack them (see `calendar_text`).
pub open spec fn written_from(t: Seq<char>, c: icalendar::Calendar) -> bool {
    exists|stamps: Seq<Seq<char>>, uids: Seq<Seq<char>>| t == #[trigger] ics_written(c, stamps, uids)
}

/// `t` is an iCalendar document: it runs from `BEGIN:VCALENDAR` to
/// `END:VCALENDAR`, each on a line of its own.
pub open spec fn ics_document(t: Seq<char>) -> bool {
    &&& t.len() >= 17 && t.subrange(0, 17) == "BEGIN:VCALENDAR\r\n"@
    &&& t.len() >= 15 && t.subrange(t.len() - 15, t.len() as int) == "END:VCALENDAR\r\n"@
}

/// The moment, if there is one, is a real date and time.
pub open spec fn valid_if_some(m: Option<Moment>) -> bool {
    match m {
        Some(u) => valid_moment(u),
        None => true,
    }
}

/// The UTC moment `u` given for a time `t` is a real date and time within a
/// day of the time's wall-clock time, which for a UTC time lies within a
/// day of `t` itself.
pub open spec fn utc_fits(t: EventTime, u: Moment) -> bool {
    &&& valid_moment(u)
    &&& if t.kind == TimeKind::Utc {
        -172800 < epoch_seconds(u) - epoch_seconds(t.at) < 172800
    } else {
        within_a_day(u, t.at)
    }
}

/// The UTC moment given for a value, if both are there, fits it (see
/// `utc_fits`).
pub open spec fn utc_answer_fits(v: Option<DateTimeValueView>, u: Option<Moment>) -> bool {
    match (reading(v), u) {
        (Some(t), Some(x)) => utc_fits(t, x),
        _ => true,
    }
}

/// A start or end as it is written out, given its UTC moment `utc` on this
/// machine: nothing when it does not read as a date-time, else `utc` as
/// `icalendar` writes a UTC moment, `YYYYMMDDTHHMMSSZ`.
pub open spec fn exported_value(v: Option<DateTimeValueView>, utc: Option<Moment>) -> Option<DateTimeValueView> {
    match reading(v) {
        None => None,
        Some(_) => match utc {
            Some(u) => Some(plain_value(compact_moment(u) + "Z"@)),
            None => None,
        },
    }
}

/// A start or end can be written out: it does not read as a date-time, or
/// its UTC moment is known.
pub open spec fn exportable(v: Option<DateTimeValueView>, utc: Option<Moment>) -> bool {
    reading(v) is None || utc is Some
}

/// An event as it is written out: its UID and title, and its start and end
/// as `exported_value` writes them.
pub open spec fn exported_event(e: CalendarEventView, utcs: (Option<Moment>, Option<Moment>)) -> CalendarEventView {
    CalendarEventView {
        uid: e.uid,
        title: e.title,
        begin: exported_value(e.begin, utcs.0),
        end: exported_value(e.end, utcs.1),
    }
}

/// What writing out `events` gives, with `utcs[i]` the UTC moments of the
/// wall-clock start and end of event `i`: each event in order (see
/// `exported_event`) when every start and end can be written, else the
/// error `Local time out of range`.
pub open spec fn export_from(
    events: Seq<CalendarEventView>,
    utcs: Seq<(Option<Moment>, Option<Moment>)>,
) -> Result<Seq<Option<CalendarEventView>>, Seq<char>> {
    if forall|i: int|
        0 <= i < events.len() ==> exportable(#[trigger] events[i].begin, utcs[i].0) && exportable(
            events[i].end,
            utcs[i].1,
        ) {
        Ok(Seq::new(events.len(), |i: int| Some(exported_event(events[i], utcs[i]))))
    } else {
        Err("Local time out of range"@)
    }
}

/// Writing out `events`, with `utcs[i]` the UTC moments of the wall-clock
/// start and end of event `i` on this machine, ends in `outcome`: the
/// calendar's components when every start and end can be written, each
/// event in order; otherwise the error `Local time out of range`.
pub open spec fn exported_as(
    events: Seq<CalendarEventView>,
    utcs: Seq<(Option<Moment>, Option<Moment>)>,
    outcome: Result<Seq<Option<CalendarEventView>>, Seq<char>>,
) -> bool {
    &&& utcs.len() == events.len()
    &&& forall|i: int| 0 <= i < utcs.len() ==> valid_if_some((#[trigger] utcs[i]).0)
    &&& forall|i: int| 0 <= i < utcs.len() ==> valid_if_some((#[trigger] utcs[i]).1)
    &&& forall|i: int|
        0 <= i < utcs.len() ==> utc_answer_fits(events[i].begin, (#[trigger] utcs[i]).0) && utc_answer_fits(
            events[i].end,
            utcs[i].1,
        )
    &&& (outcome is Ok <==> forall|i: int|
        0 <= i < events.len() ==> exportable(#[trigger] events[i].begin, utcs[i].0) && exportable(
            events[i].end,
            utcs[i].1,
        ))
    &&& outcome matches Ok(comps) ==> comps == Seq::new(
        events.len(),
        |i: int| Some(exported_event(events[i], utcs[i])),
    )
    &&& outcome matches Err(msg) ==> msg == "Local time out of range"@
}

/// Whether the value reads as a date-time.
fn reads(v: &Option<DateTimeValue>) -> (r: bool)
    ensures
        r == reading(crate::calendar::opt_value(*v)) is Some,
{
    match v {
        Some(x) => read_event_time(x).is_some(),
        None => false,
    }
}

/// The UTC moment of a value's wall-clock time on this machine, if it reads;
/// `Err` when a wall-clock time cannot be had.
fn utc_of(v: &Option<DateTimeValue>) -> (r: Result<Option<Moment>, ()>)
    ensures
        (r matches Ok(None)) <==> reading(crate::calendar::opt_value(*v)) is None,
        r matches Ok(Some(m)) ==> valid_moment(m),
        r matches Ok(u) ==> utc_answer_fits(crate::calendar::opt_value(*v), u),
{
    let t = match v {
        Some(x) => read_event_time(x),
        None => None,
    };
    match t {
        None => Ok(None),
        Some(t) => {
            let wall = match t.kind {
                TimeKind::Utc => utc_to_local(t.at),
                _ => Some(t.at),
            };
            match wall {
                Some(w) => match local_to_utc(w) {
                    Some(u) => Ok(Some(u)),
                    None => Err(()),
                },
                None => Err(()),
            }
        },
    }
}

/// The events with their starts and ends rewritten as floating local times
/// given the machine's answers `locals` (see `floating_events`); `None`
/// when one of them cannot be. It never fails when the answers fit and
/// every start and end can be had on every machine.
pub fn floating_events_with(
    events: Vec<CalendarEvent>,
    locals: &Vec<(Option<Moment>, Option<Moment>)>,
) -> (r: Option<Vec<CalendarEvent>>)
    requires
        locals@.len() == events@.len(),
    ensures
        match r {
            Some(v) => floating_events(event_views(events@), locals@, events@.len() as nat) == Some(
                event_views(v@),
            ),
            None => floating_events(event_views(events@), locals@, events@.len() as nat) is None,
        },
        machine_answers(event_views(events@), locals@) && all_surely_local(event_views(events@)) ==> r is Some,
{
    let ghost read = event_views(events@);
    let m = events.len();
    let mut rest = events;
    let mut out: Vec<CalendarEvent> = Vec::new();
    let mut j: usize = 0;
    while j < m
        invariant
            m == read.len(),
            read == event_views(events@),
            j <= m,
            locals@.len() == m,
            event_views(rest@) == read.subrange(j as int, m as int),
            floating_events(read, locals@, j as nat) == Some(event_views(out@)),
        decreases m - j,
    {
        let ghost rest_before = rest@;
        proof {
            assert(event_views(rest@).len() == rest@.len());
        }
        let e = rest.remove(0);
        proof {
            assert(event_views(rest_before)[0] == e@);
            assert(read.subrange(j as int, m as int)[0] == read[j as int]);
            assert(read[j as int] == e@);
            assert forall|k: int| 0 <= k < rest@.len() implies event_views(rest@)[k] == read.subrange(j + 1, m as int)[k] by {
                assert(rest@[k] == rest_before[k + 1]);
                assert(event_views(rest_before)[k + 1] == read.subrange(j as int, m as int)[k + 1]);
            }
            assert(event_views(rest@) =~= read.subrange(j + 1, m as int));
        }
        let (lb, le) = locals[j];
        let b = to_floating(e.begin, lb);
        let f = to_floating(e.end, le);
        match (b, f) {
            (Some(b), Some(f)) => {
                let ghost before = out@;
                let ne = CalendarEvent { uid: e.uid, title: e.title, begin: b, end: f };
                out.push(ne);
                proof {
                    assert(event_views(out@) =~= event_views(before).push(ne@));
                }
            },
            _ => {
                proof {
                    assert(floating_events(read, locals@, (j + 1) as nat) is None);
                    lemma_floating_failure_stays(read, locals@, (j + 1) as nat, m as nat);
                    if machine_answers(read, locals@) && all_surely_local(read) {
                        assert(surely_local(read[j as int].begin) && surely_local(read[j as int].end));
                        assert(answer_fits(read[j as int].begin, locals@[j as int].0));
                    }
                }
                return None;
            },
        }
        j = j + 1;
    }
    Some(out)
}

impl CalendarController {
    /// Replaces the events by those that `icalendar` reads from `contents`,
    /// with every start and end that reads as a date-time rewritten as a
    /// floating local time, using this machine's answers (see
    /// `answer_fits`). Unreadable text gives `Parsing error: ` and the
    /// reader's message; a time whose wall-clock time cannot be had on this
    /// machine gives an error too, which never happens when every start and
    /// end is floating, a day, or a UTC time inside `chrono`'s range. On an
    /// error the events stay as they were.
    pub fn import_calendar(&mut self, contents: &str) -> (r: Result<(), String>)
        ensures
            ics_reading(contents@) is None ==> r is Err,
            r is Err ==> final(self).spec_events() == old(self).spec_events(),
            ics_reading(contents@) matches Some(comps) ==> exists|
                locals: Seq<(Option<Moment>, Option<Moment>)>,
            | #[trigger] imported_as(comps, locals, r, final(self).spec_events()),
            ics_reading(contents@) matches Some(comps) && all_surely_local(events_among(comps, comps.len()))
                ==> r is Ok,
    {
        let cal = match parse_ics(contents) {
            Ok(c) => c,
            Err(e) => {
                return Err(crate::text::concat3("Parsing error: ", e.as_str(), ""));
            },
        };
        let ghost comps = ics_components(cal);
        let n = component_count(&cal);
        let mut events: Vec<CalendarEvent> = Vec::new();
        let mut i: usize = 0;
        while i < n
            invariant
                n == comps.len(),
                comps == ics_components(cal),
                ics_reading(contents@) == Some(comps),
                self.events@ == old(self).events@,
                i <= n,
                event_views(events@) == events_among(comps, i as nat),
            decreases n - i,
        {
            if component_is_event(&cal, i) {
                let e = CalendarEvent {
                    uid: component_uid(&cal, i),
                    title: component_title(&cal, i),
                    begin: component_begin(&cal, i),
                    end: component_end(&cal, i),
                };
                let ghost before = events@;
                events.push(e);
                proof {
                    assert(event_views(events@) =~= event_views(before).push(e@));
                }
            }
            i = i + 1;
        }
        let ghost read = event_views(events@);
        assert(read == events_among(comps, comps.len()));
        let mut locals: Vec<(Option<Moment>, Option<Moment>)> = Vec::new();
        let mut j: usize = 0;
        while j < events.len()
            invariant
                j <= events@.len(),
                read == event_views(events@),
                locals@.len() == j,
                machine_answers(read, locals@),
            decreases events@.len() - j,
        {
            let e = &events[j];
            proof {
                assert(read[j as int] == e@);
            }
            let lb = machine_answer(&e.begin);
            let le = machine_answer(&e.end);
            let ghost before = locals@;
            locals.push((lb, le));
            proof {
                assert forall|k: int| 0 <= k < read.len() && k < locals@.len() implies answer_fits(
                    #[trigger] read[k].begin,
                    locals@[k].0,
                ) && answer_fits(read[k].end, locals@[k].1) by {
                    if k < j {
                        assert(locals@[k] == before[k]);
                    }
                }
            }
            j = j + 1;
        }
        match floating_events_with(events, &locals) {
            Some(out) => {
                self.events = out;
                let res = Ok(());
                proof {
                    assert(imported_as(comps, locals@, res, self.spec_events()));
                    assert(ics_reading(contents@)->0 == comps);
                }
                res
            },
            None => {
                let res = Err(String::from_str("Local time out of range"));
                proof {
                    assert(imported_as(comps, locals@, res, self.spec_events()));
                    assert(ics_reading(contents@)->0 == comps);
                }
                res
            },
        }
    }

    /// The calendar to write out given the UTC moments `utcs` of the events'
    /// wall-clock starts and ends: for each event its `UID` and `SUMMARY`
    /// where present, and its start and end, when they read as date-times,
    /// as those moments; the error `Local time out of range` when a start or
    /// end that reads has no moment (see `export_from`).
    pub fn exported_calendar_with(&self, utcs: &Vec<(Option<Moment>, Option<Moment>)>) -> (r: Result<
        icalendar::Calendar,
        String,
    >)
        requires
            utcs@.len() == self.events@.len(),
            forall|i: int| 0 <= i < utcs@.len() ==> valid_if_some((#[trigger] utcs@[i]).0),
            forall|i: int| 0 <= i < utcs@.len() ==> valid_if_some((#[trigger] utcs@[i]).1),
        ensures
            export_outcome(r) == export_from(self.spec_events(), utcs@),
    {
        let ghost events = self.spec_events();
        let mut cal = new_calendar();
        let mut i: usize = 0;
        while i < self.events.len()
            invariant
                i <= self.events@.len(),
                events == self.spec_events(),
                utcs@.len() == self.events@.len(),
                forall|j: int| 0 <= j < utcs@.len() ==> valid_if_some((#[trigger] utcs@[j]).0),
                forall|j: int| 0 <= j < utcs@.len() ==> valid_if_some((#[trigger] utcs@[j]).1),
                forall|j: int|
                    0 <= j < i ==> exportable(#[trigger] events[j].begin, utcs@[j].0) && exportable(
                        events[j].end,
                        utcs@[j].1,
                    ),
                ics_components(cal) == Seq::new(i as nat, |j: int| Some(exported_event(events[j], utcs@[j]))),
            decreases self.events@.len() - i,
        {
            let e = &self.events[i];
            proof {
                assert(events[i as int] == e@);
            }
            let mut out = new_event();
            if let Some(u) = &e.uid {
                set_event_uid(&mut out, u.as_str());
            }
            if let Some(t) = &e.title {
                set_event_summary(&mut out, t.as_str());
            }
            let (ub, uf) = utcs[i];
            if reads(&e.begin) {
                match ub {
                    Some(m) => set_event_start(&mut out, m),
                    None => {
                        let r = Err(String::from_str("Local time out of range"));
                        proof {
                            reveal_strlit("Local time out of range");
                            assert(!exportable(events[i as int].begin, utcs@[i as int].0));
                        }
                        return r;
                    },
                }
            }
            if reads(&e.end) {
                match uf {
                    Some(m) => set_event_end(&mut out, m),
                    None => {
                        let r = Err(String::from_str("Local time out of range"));
                        proof {
                            reveal_strlit("Local time out of range");
                            assert(!exportable(events[i as int].end, utcs@[i as int].1));
                        }
                        return r;
                    },
                }
            }
            proof {
                assert(ics_event(out) == exported_event(events[i as int], utcs@[i as int]));
            }
            push_event(&mut cal, out);
            proof {
                assert(ics_components(cal) =~= Seq::new((i + 1) as nat, |j: int| Some(exported_event(events[j], utcs@[j]))));
            }
            i = i + 1;
        }
        Ok(cal)
    }

    /// The calendar to write out (see `exported_calendar_with`), with this
    /// machine's UTC moments for the wall-clock starts and ends (see
    /// `exported_as`).
    pub fn exported_calendar(&self) -> (r: Result<icalendar::Calendar, String>)
        ensures
            exists|utcs: Seq<(Option<Moment>, Option<Moment>)>|
                #[trigger] exported_as(self.spec_events(), utcs, export_outcome(r)),
    {
        let ghost events = self.spec_events();
        let mut utcs: Vec<(Option<Moment>, Option<Moment>)> = Vec::new();
        let mut i: usize = 0;
        while i < self.events.len()
            invariant
                i <= self.events@.len(),
                events == self.spec_events(),
                utcs@.len() == i,
                forall|j: int| 0 <= j < i ==> valid_if_some((#[trigger] utcs@[j]).0),
                forall|j: int| 0 <= j < i ==> valid_if_some((#[trigger] utcs@[j]).1),
                forall|j: int|
                    0 <= j < i ==> utc_answer_fits(events[j].begin, (#[trigger] utcs@[j]).0) && utc_answer_fits(
                        events[j].end,
                        utcs@[j].1,
                    ),
            decreases self.events@.len() - i,
        {
            let e = &self.events[i];
            proof {
                assert(events[i as int] == e@);
            }
            let b = match utc_of(&e.begin) {
                Ok(x) => x,
                Err(()) => None,
            };
            let f = match utc_of(&e.end) {
                Ok(x) => x,
                Err(()) => None,
            };
            utcs.push((b, f));
            i = i + 1;
        }
        let r = self.exported_calendar_with(&utcs);
        proof {
            reveal_strlit("Local time out of range");
            assert(exported_as(events, utcs@, export_outcome(r)));
        }
        r
    }

    /// The calendar as iCalendar text: `icalendar`'s writing, with some
    /// stamps and some UIDs for events without one (see `calendar_text`), of
    /// the calendar of `exported_calendar`; the error `Local time out of
    /// range` exactly when that calendar cannot be built, which never
    /// happens when no start or end reads as a date-time.
    pub fn export_calendar(&self) -> (r: Result<String, String>)
        ensures
            exists|utcs: Seq<(Option<Moment>, Option<Moment>)>, c: icalendar::Calendar|
                #[trigger] exported_as(self.spec_events(), utcs, written_outcome(r, c)) && (r matches Ok(t)
                    ==> written_from(t@, c)),
            r matches Ok(t) ==> ics_document(t@),
            r matches Err(e) ==> e@ == "Local time out of range"@,
            (forall|i: int|
                0 <= i < self.spec_events().len() ==> reading(#[trigger] self.spec_events()[i].begin) is None
                    && reading(self.spec_events()[i].end) is None) ==> r is Ok,
    {
        match self.exported_calendar() {
            Ok(cal) => {
                let t = calendar_text(&cal);
                let r = Ok(t);
                proof {
                    let utcs = choose|utcs: Seq<(Option<Moment>, Option<Moment>)>|
                        #[trigger] exported_as(self.spec_events(), utcs, export_outcome(Ok(cal)));
                    assert(written_outcome(r, cal) == export_outcome(Ok(cal)));
                    assert(exported_as(self.spec_events(), utcs, written_outcome(r, cal)));
                }
                r
            },
            Err(e) => {
                let r = Err(e);
                proof {
                    let ghost_cal = vstd::pervasive::arbitrary::<icalendar::Calendar>();
                    let utcs = choose|utcs: Seq<(Option<Moment>, Option<Moment>)>|
                        #[trigger] exported_as(self.spec_events(), utcs, export_outcome(Err(e)));
                    assert(written_outcome(r, ghost_cal) == export_outcome(Err(e)));
                    assert(exported_as(self.spec_events(), utcs, written_outcome(r, ghost_cal)));
                }
                r
            },
        }
    }
}

} // verus!
