//! The organizer's state: its tasks, its calendar and its notes, and the
//! operations the user interface asks of them.

use vstd::prelude::*;
use crate::calendar::{
    changed_event, first_event, has_event, plain_value, CalendarController, CalendarEventView,
    DateInfo, UICalendarEvent, UICalendarEventView,
};
use crate::calendar_view::{grid_dates_exist, lies_in, machine_locals, month_known, month_grid, month_listing, start_order};
use crate::datetime::{current_year_month, compact_moment, format_moment, local_to_utc, valid_moment, within_a_day, Moment};
use crate::notes::{
    by_name, category_views, enumerates, listed_in_category, latest_first, note_views, Category, CategoryView, Note,
    NoteView, NotesController,
};
use crate::order::is_stable_sort_of;
use crate::calendar_io::valid_if_some;
use crate::tasks::{
    opt_text, add_time_fits, changed_task, finished_task, first_with_id, has_task, opt_str, task_order,
    task_views, updates_first, with_time_added, Task, TaskController, TaskView, NOT_STARTED,
};
use crate::text::{decimal, decimal_text, pad_left, pad_left_text};

verus! {

/// `n` with at least two digits (`{:02}`).
pub open spec fn two_digits(n: nat) -> Seq<char> {
    pad_left(decimal(n), 2, '0')
}

/// The start or end text `add_event` gives an event: the year right-aligned
/// in four places (`{:4}`), month, day, hour and minute with two digits
/// each, and zero seconds: `YYYYMMDDTHHMM00`.
pub open spec fn event_stamp(year: u32, month: u8, day: u8, hour: u8, mins: u8) -> Seq<char> {
    pad_left(decimal(year as nat), 4, ' ') + two_digits(month as nat) + two_digits(day as nat) + "T"@
        + two_digits(hour as nat) + two_digits(mins as nat) + "00"@
}

/// The date text `change_event` passes on: `{:04}{:02}{:02}`.
pub open spec fn date_stamp(year: u32, month: u8, day: u8) -> Seq<char> {
    pad_left(decimal(year as nat), 4, '0') + two_digits(month as nat) + two_digits(day as nat)
}

/// The time text `change_event` passes on: `{:02}{:02}00`.
pub open spec fn time_stamp(hour: u8, mins: u8) -> Seq<char> {
    two_digits(hour as nat) + two_digits(mins as nat) + "00"@
}

/// A new date when year, month and day are all given.
pub open spec fn new_date_text(year: Option<u32>, month: Option<u8>, day: Option<u8>) -> Option<Seq<char>> {
    match (year, month, day) {
        (Some(y), Some(m), Some(d)) => Some(date_stamp(y, m, d)),
        _ => None,
    }
}

/// A new time when hour and minute are both given.
pub open spec fn new_time_text(hour: Option<u8>, mins: Option<u8>) -> Option<Seq<char>> {
    match (hour, mins) {
        (Some(h), Some(m)) => Some(time_stamp(h, m)),
        _ => None,
    }
}

/// A new title when one is given and it is not empty.
pub open spec fn new_title_text(title: Option<String>) -> Option<Seq<char>> {
    match title {
        Some(t) => if t@.len() > 0 {
            Some(t@)
        } else {
            None
        },
        None => None,
    }
}

pub(crate) fn two_digit_text(n: u64) -> (r: String)
    ensures
        r@ == two_digits(n as nat),
{
    proof {
        reveal_strlit("0");
    }
    pad_left_text(decimal_text(n), 2, "0")
}

/// The text `YYYYMMDDTHHMM00` (see `event_stamp`).
pub fn event_stamp_text(year: u32, month: u8, day: u8, hour: u8, mins: u8) -> (r: String)
    ensures
        r@ == event_stamp(year, month, day, hour, mins),
{
    proof {
        reveal_strlit(" ");
    }
    let mut r = pad_left_text(decimal_text(year as u64), 4, " ");
    r.append(two_digit_text(month as u64).as_str());
    r.append(two_digit_text(day as u64).as_str());
    r.append("T");
    r.append(two_digit_text(hour as u64).as_str());
    r.append(two_digit_text(mins as u64).as_str());
    r.append("00");
    r
}

/// The text `{:04}{:02}{:02}` (see `date_stamp`).
pub fn date_stamp_text(year: u32, month: u8, day: u8) -> (r: String)
    ensures
        r@ == date_stamp(year, month, day),
{
    proof {
        reveal_strlit("0");
    }
    let mut r = pad_left_text(decimal_text(year as u64), 4, "0");
    r.append(two_digit_text(month as u64).as_str());
    r.append(two_digit_text(day as u64).as_str());
    r
}

/// The text `{:02}{:02}00` (see `time_stamp`).
pub fn time_stamp_text(hour: u8, mins: u8) -> (r: String)
    ensures
        r@ == time_stamp(hour, mins),
{
    let mut r = two_digit_text(hour as u64);
    r.append(two_digit_text(mins as u64).as_str());
    r.append("00");
    r
}

/// A UTC moment, if there is one, as the stamp `YYYYMMDDTHHMMSSZ` that
/// `chrono` writes for it.
pub open spec fn utc_stamp_of(utc: Option<Moment>) -> Option<Seq<char>> {
    match utc {
        Some(u) => if valid_moment(u) {
            Some(compact_moment(u) + "Z"@)
        } else {
            None
        },
        None => None,
    }
}

/// The stamp of a UTC moment (see `utc_stamp_of`); `None` for no moment.
pub fn utc_stamp(utc: Option<Moment>) -> (r: Option<String>)
    requires
        valid_if_some(utc),
    ensures
        opt_text(r) == utc_stamp_of(utc),
        r is Some <==> utc is Some,
{
    match utc {
        Some(u) => {
            let r = format_moment(u, "%Y%m%dT%H%M%SZ");
            proof {
                crate::datetime::lemma_patterns_differ();
            }
            r
        },
        None => None,
    }
}

/// The tasks, the calendar and the notes.
#[derive(Debug, Default)]
pub struct AppState {
    pub calendar_controller: CalendarController,
    pub task_controller: TaskController,
    pub notes_controller: NotesController,
}

impl AppState {
    /// No tasks (the first gets the id 1), no events, no notes, no categories.
    pub fn new() -> (r: Self)
        ensures
            r.task_controller.next_id == 1,
            r.task_controller.spec_tasks() == Seq::<TaskView>::empty(),
            r.calendar_controller.spec_events() == Seq::<CalendarEventView>::empty(),
            r.notes_controller.spec_notes() == Map::<u128, NoteView>::empty(),
            r.notes_controller.spec_categories() == Map::<u128, CategoryView>::empty(),
            r.task_controller.wf(),
            r.notes_controller.wf(),
    {
        AppState {
            calendar_controller: CalendarController::new(),
            task_controller: TaskController::new(),
            notes_controller: NotesController::new(),
        }
    }

    /// With `id` 0, adds a task (priority 1 and title `New Task` unless
    /// given); otherwise changes the task `id` if `id` was ever handed out.
    /// Says whether a task was added or changed.
    pub fn modify_tasks(
        &mut self,
        id: u32,
        new_priority: Option<u8>,
        new_title: Option<&str>,
        new_deadline: Option<&str>,
    ) -> (r: bool)
        requires
            id == 0 ==> old(self).task_controller.next_id < u32::MAX,
        ensures
            id == 0 ==> r && final(self).task_controller.next_id == old(self).task_controller.next_id + 1
                && final(self).task_controller.spec_tasks() == old(self).task_controller.spec_tasks().push(
                TaskView {
                    id: old(self).task_controller.next_id,
                    title: match new_title {
                        Some(t) => t@,
                        None => "New Task"@,
                    },
                    status: NOT_STARTED,
                    priority: match new_priority {
                        Some(p) => p,
                        None => 1,
                    },
                    total_time_days: 0,
                    total_time_hours: 0,
                    total_time_mins: 0,
                    deadline: opt_str(new_deadline),
                },
            ),
            id != 0 && id >= old(self).task_controller.next_id ==> !r && final(self).task_controller
                == old(self).task_controller,
            id != 0 && id < old(self).task_controller.next_id ==> updates_first(
                old(self).task_controller.spec_tasks(),
                final(self).task_controller.spec_tasks(),
                id,
                r,
                |x: TaskView| changed_task(x, new_priority, opt_str(new_title), opt_str(new_deadline)),
            ) && final(self).task_controller.next_id == old(self).task_controller.next_id,
            final(self).calendar_controller == old(self).calendar_controller,
            final(self).notes_controller == old(self).notes_controller,
            old(self).task_controller.wf() ==> final(self).task_controller.wf(),
    {
        if id == 0 {
            let title = match new_title {
                Some(t) => t,
                None => "New Task",
            };
            let priority = match new_priority {
                Some(p) => p,
                None => 1,
            };
            self.task_controller.add_task(priority, title, new_deadline)
        } else {
            if id >= self.task_controller.next_id {
                return false;
            }
            let t = match new_title {
                Some(t) => Some(String::from_str(t)),
                None => None,
            };
            let d = match new_deadline {
                Some(d) => Some(String::from_str(d)),
                None => None,
            };
            self.task_controller.change_task(id, new_priority, t, d)
        }
    }

    /// Adds time to the task `id` (see `TaskController::add_time`).
    pub fn add_time(&mut self, id: u32, hours: u8, mins: u8)
        requires
            has_task(old(self).task_controller.spec_tasks(), id) ==> add_time_fits(
                old(self).task_controller.spec_tasks()[first_with_id(
                    old(self).task_controller.spec_tasks(),
                    id,
                )],
                hours,
                mins,
            ),
        ensures
            updates_first(
                old(self).task_controller.spec_tasks(),
                final(self).task_controller.spec_tasks(),
                id,
                has_task(old(self).task_controller.spec_tasks(), id),
                |x: TaskView| with_time_added(x, hours, mins),
            ),
            final(self).task_controller.next_id == old(self).task_controller.next_id,
            final(self).calendar_controller == old(self).calendar_controller,
            final(self).notes_controller == old(self).notes_controller,
    {
        self.task_controller.add_time(id, hours, mins);
    }

    /// Marks the task `id` finished; always says `true`.
    pub fn finish_task(&mut self, id: u32) -> (r: bool)
        ensures
            r,
            updates_first(
                old(self).task_controller.spec_tasks(),
                final(self).task_controller.spec_tasks(),
                id,
                has_task(old(self).task_controller.spec_tasks(), id),
                |x: TaskView| finished_task(x),
            ),
            final(self).task_controller.next_id == old(self).task_controller.next_id,
            final(self).calendar_controller == old(self).calendar_controller,
            final(self).notes_controller == old(self).notes_controller,
    {
        self.task_controller.finish_task(id);
        true
    }

    /// The tasks, sorted in place by `sort_by` (see `TaskController::get_tasks`).
    pub fn get_tasks(&mut self, sort_by: u8) -> (r: Vec<Task>)
        ensures
            1 <= sort_by <= 3 ==> is_stable_sort_of(
                old(self).task_controller.tasks@,
                final(self).task_controller.tasks@,
                task_order(sort_by),
            ),
            !(1 <= sort_by <= 3) ==> final(self).task_controller.tasks@ == old(
                self,
            ).task_controller.tasks@,
            final(self).task_controller.next_id == old(self).task_controller.next_id,
            task_views(r@) == final(self).task_controller.spec_tasks(),
            final(self).calendar_controller == old(self).calendar_controller,
            final(self).notes_controller == old(self).notes_controller,
    {
        self.task_controller.get_tasks(sort_by)
    }

    /// Removes every task `id`; always says `true`.
    pub fn delete_task(&mut self, id: u32) -> (r: bool)
        ensures
            r,
            final(self).task_controller.spec_tasks() == old(self).task_controller.spec_tasks().filter(
                |t: TaskView| t.id != id,
            ),
            final(self).task_controller.next_id == old(self).task_controller.next_id,
            final(self).calendar_controller == old(self).calendar_controller,
            final(self).notes_controller == old(self).notes_controller,
    {
        self.task_controller.delete_task(id);
        true
    }

    /// Adds an event on the given day, from the begin time to the end time;
    /// returns its new UID.
    pub fn add_event(
        &mut self,
        title: &str,
        day: u8,
        month: u8,
        year: u32,
        begin_hour: u8,
        begin_mins: u8,
        end_hour: u8,
        end_mins: u8,
    ) -> (r: String)
        ensures
            exists|u: u128| r@ == crate::ids::uuid_hyphenated(u),
            final(self).calendar_controller.spec_events() == old(
                self,
            ).calendar_controller.spec_events().push(
                CalendarEventView {
                    uid: Some(r@),
                    title: Some(title@),
                    begin: Some(plain_value(event_stamp(year, month, day, begin_hour, begin_mins))),
                    end: Some(plain_value(event_stamp(year, month, day, end_hour, end_mins))),
                },
            ),
            final(self).task_controller == old(self).task_controller,
            final(self).notes_controller == old(self).notes_controller,
    {
        let start = event_stamp_text(year, month, day, begin_hour, begin_mins);
        let end = event_stamp_text(year, month, day, end_hour, end_mins);
        self.calendar_controller.add_event(String::from_str(title), start, end)
    }

    /// Changes the event `uid`: a non-empty new title; a new date when year,
    /// month and day are all given; a new begin or end time when its hour and
    /// minute are both given (see `CalendarController::change_event`).
    pub fn change_event(
        &mut self,
        uid: &str,
        new_title: Option<String>,
        new_day: Option<u8>,
        new_month: Option<u8>,
        new_year: Option<u32>,
        new_begin_hour: Option<u8>,
        new_begin_mins: Option<u8>,
        new_end_hour: Option<u8>,
        new_end_mins: Option<u8>,
    ) -> (r: bool)
        ensures
            r == has_event(old(self).calendar_controller.spec_events(), uid@),
            r ==> final(self).calendar_controller.spec_events() == old(
                self,
            ).calendar_controller.spec_events().update(
                first_event(old(self).calendar_controller.spec_events(), uid@),
                changed_event(
                    old(self).calendar_controller.spec_events()[first_event(
                        old(self).calendar_controller.spec_events(),
                        uid@,
                    )],
                    new_title_text(new_title),
                    new_date_text(new_year, new_month, new_day),
                    new_time_text(new_begin_hour, new_begin_mins),
                    new_time_text(new_end_hour, new_end_mins),
                ),
            ),
            !r ==> final(self).calendar_controller.spec_events() == old(
                self,
            ).calendar_controller.spec_events(),
            final(self).task_controller == old(self).task_controller,
            final(self).notes_controller == old(self).notes_controller,
    {
        let title = match new_title {
            Some(t) => if t.as_str().unicode_len() > 0 {
                Some(t)
            } else {
                None
            },
            None => None,
        };
        let new_date = match (new_year, new_month, new_day) {
            (Some(y), Some(m), Some(d)) => Some(date_stamp_text(y, m, d)),
            _ => None,
        };
        let new_beg = match (new_begin_hour, new_begin_mins) {
            (Some(h), Some(m)) => Some(time_stamp_text(h, m)),
            _ => None,
        };
        let new_end = match (new_end_hour, new_end_mins) {
            (Some(h), Some(m)) => Some(time_stamp_text(h, m)),
            _ => None,
        };
        self.calendar_controller.change_event(uid, title, new_date, new_beg, new_end)
    }

    /// Removes every event with the UID; always says `true`.
    pub fn delete_event(&mut self, uid: &str) -> (r: bool)
        ensures
            r,
            final(self).calendar_controller.spec_events() == old(
                self,
            ).calendar_controller.spec_events().filter(|e: CalendarEventView| e.uid != Some(uid@)),
            final(self).task_controller == old(self).task_controller,
            final(self).notes_controller == old(self).notes_controller,
    {
        self.calendar_controller.delete_event(uid);
        true
    }

    /// The events and the grid of a month, given today's year and month;
    /// nothing for an invalid month or a month before the current one.
    pub fn events_for(&self, month: u32, year: u32, now_year: u32, now_month: u32) -> (r: (
        Vec<UICalendarEvent>,
        Vec<DateInfo>,
    ))
        requires
            1 <= month <= 12 && now_year <= year && !(now_year == year && month < now_month)
                ==> grid_dates_exist((year as i32) as int, month),
        ensures
            self.shows_month(month, year, now_year, now_month, r.0@, r.1@),
    {
        if month > 12 || month == 0 {
            return (Vec::new(), Vec::new());
        }
        if now_year > year {
            return (Vec::new(), Vec::new());
        }
        if now_year == year && month < now_month {
            return (Vec::new(), Vec::new());
        }
        self.calendar_controller.get_calendar_data(month, year)
    }

    /// What the month view shows for `month` of `year` when today is in
    /// `now_month` of `now_year`: nothing for an invalid month or a past
    /// month; otherwise the month's listed events sorted by start (with
    /// this machine's wall-clock times for UTC times, see `machine_locals`), and the month grid; with a four-digit year every listed
    /// event lies in the month.
    pub open spec fn shows_month(
        &self,
        month: u32,
        year: u32,
        now_year: u32,
        now_month: u32,
        events: Seq<UICalendarEvent>,
        grid: Seq<DateInfo>,
    ) -> bool {
        if month > 12 || month == 0 || now_year > year || (now_year == year && month < now_month) {
            events.len() == 0 && grid.len() == 0
        } else {
            &&& exists|locals: Seq<(Option<Moment>, Option<Moment>)>|
                #![trigger month_listing(self.calendar_controller.spec_events(), month, year, locals, self.calendar_controller.events@.len() as nat)]
                machine_locals(self.calendar_controller.spec_events(), locals) && is_stable_sort_of(
                    month_listing(
                        self.calendar_controller.spec_events(),
                        month,
                        year,
                        locals,
                        self.calendar_controller.events@.len() as nat,
                    ),
                    crate::calendar::ui_views(events),
                    |a: UICalendarEventView, b: UICalendarEventView| start_order(a, b),
                )
            &&& grid == month_grid((year as i32) as int, month as int, crate::calendar::ui_views(events))
            &&& month_known(month, year) ==> forall|k: int|
                0 <= k < events.len() ==> lies_in(#[trigger] events[k]@, month, year)
        }
    }

    /// The events and the grid of a month (see `shows_month`), with today's
    /// year and month from this machine's clock.
    pub fn get_events(&self, month: u32, year: u32) -> (r: (Vec<UICalendarEvent>, Vec<DateInfo>))
        requires
            1 <= month <= 12 ==> grid_dates_exist((year as i32) as int, month),
        ensures
            exists|now_year: u32, now_month: u32|
                #![trigger self.shows_month(month, year, now_year, now_month, r.0@, r.1@)]
                1 <= now_month <= 12 && self.shows_month(month, year, now_year, now_month, r.0@, r.1@),
    {
        let (now_year, now_month) = current_year_month();
        self.events_for(month, year, #[verifier::truncate] (now_year as u32), now_month)
    }

    /// The given local date and time as a UTC time `YYYYMMDDTHHMMSSZ`; `None`
    /// when that wall-clock time is skipped or repeated on this machine.
    pub fn make_date(&self, year: u32, month: u8, day: u8, hour: u8, mins: u8) -> (r: Option<String>)
        requires
            valid_moment(
                Moment {
                    year: (year as i32),
                    month: month as u32,
                    day: day as u32,
                    hour: hour as u32,
                    minute: mins as u32,
                    second: 0,
                },
            ),
        ensures
            r matches Some(t) ==> exists|u: Moment|
                valid_moment(u) && within_a_day(
                    u,
                    Moment {
                        year: (year as i32),
                        month: month as u32,
                        day: day as u32,
                        hour: hour as u32,
                        minute: mins as u32,
                        second: 0,
                    },
                ) && t@ == compact_moment(u) + "Z"@,
    {
        let local = Moment {
            year: #[verifier::truncate] (year as i32),
            month: month as u32,
            day: day as u32,
            hour: hour as u32,
            minute: mins as u32,
            second: 0,
        };
        let utc = local_to_utc(local);
        let r = utc_stamp(utc);
        proof {
            if r is Some {
                let u = utc->0;
                assert(valid_moment(u) && within_a_day(u, local) && r->0@ == compact_moment(u) + "Z"@);
            }
        }
        r
    }

    /// Adds a note with the title and no content.
    pub fn create_note(&mut self, title: &str)
        ensures
            exists|n: NoteView|
                #![trigger final(self).notes_controller.spec_notes().insert(n.id, n)]
                n.title == title@ && n.content.len() == 0 && n.categories == Set::<u128>::empty()
                    && final(self).notes_controller.spec_notes() == old(
                    self,
                ).notes_controller.spec_notes().insert(n.id, n),
            final(self).notes_controller.spec_categories() == old(
                self,
            ).notes_controller.spec_categories(),
            final(self).task_controller == old(self).task_controller,
            final(self).calendar_controller == old(self).calendar_controller,
    {
        proof {
            reveal_strlit("");
        }
        let n = self.notes_controller.create_note(title, "");
        proof {
            assert(final(self).notes_controller.spec_notes().insert(n@.id, n@) == final(self).notes_controller.spec_notes().insert(n@.id, n@));
        }
    }

    /// See `NotesController::edit_note_content`.
    pub fn edit_note_content(&mut self, id: u128, content: &str) -> (r: Result<(), String>)
        ensures
            r is Ok <==> old(self).notes_controller.spec_notes().contains_key(id),
            r matches Err(e) ==> e@ == "Note not found"@,
            r is Err ==> final(self).notes_controller.spec_notes() == old(self).notes_controller.spec_notes(),
            r is Ok ==> final(self).notes_controller.spec_notes() == old(
                self,
            ).notes_controller.spec_notes().insert(
                id,
                NoteView {
                    content: content@,
                    last_update: final(self).notes_controller.spec_notes()[id].last_update,
                    ..old(self).notes_controller.spec_notes()[id]
                },
            ),
            final(self).notes_controller.spec_categories() == old(
                self,
            ).notes_controller.spec_categories(),
            final(self).task_controller == old(self).task_controller,
            final(self).calendar_controller == old(self).calendar_controller,
    {
        self.notes_controller.edit_note_content(id, content)
    }

    /// See `NotesController::edit_note_title`.
    pub fn edit_note_title(&mut self, id: u128, title: &str) -> (r: Result<(), String>)
        ensures
            r is Ok <==> old(self).notes_controller.spec_notes().contains_key(id),
            r matches Err(e) ==> e@ == "Note not found"@,
            r is Err ==> final(self).notes_controller.spec_notes() == old(self).notes_controller.spec_notes(),
            r is Ok ==> final(self).notes_controller.spec_notes() == old(
                self,
            ).notes_controller.spec_notes().insert(
                id,
                NoteView {
                    title: title@,
                    last_update: final(self).notes_controller.spec_notes()[id].last_update,
                    ..old(self).notes_controller.spec_notes()[id]
                },
            ),
            final(self).notes_controller.spec_categories() == old(
                self,
            ).notes_controller.spec_categories(),
            final(self).task_controller == old(self).task_controller,
            final(self).calendar_controller == old(self).calendar_controller,
    {
        self.notes_controller.edit_note_title(id, title)
    }

    /// The note `id`, if there is one.
    pub fn get_note(&self, id: u128) -> (r: Option<&Note>)
        ensures
            match r {
                Some(n) => self.notes_controller.spec_notes().contains_key(id) && n@
                    == self.notes_controller.spec_notes()[id],
                None => !self.notes_controller.spec_notes().contains_key(id),
            },
    {
        self.notes_controller.get_note(id)
    }

    /// All notes, most recently changed first (see `NotesController::get_notes`).
    pub fn get_notes(&self) -> (r: Vec<Note>)
        ensures
            exists|keys: Seq<u128>|
                #![trigger enumerates(keys, self.notes_controller.notes@.dom())]
                enumerates(keys, self.notes_controller.notes@.dom()) && is_stable_sort_of(
                    keys.map_values(|k: u128| self.notes_controller.spec_notes()[k]),
                    note_views(r@),
                    |a: NoteView, b: NoteView| latest_first(a, b),
                ),
    {
        self.notes_controller.get_notes()
    }

    /// See `NotesController::delete_note`.
    pub fn delete_note(&mut self, id: u128) -> (r: Result<Note, String>)
        ensures
            r is Ok <==> old(self).notes_controller.spec_notes().contains_key(id),
            r matches Ok(n) ==> n@ == old(self).notes_controller.spec_notes()[id],
            r matches Err(e) ==> e@ == "Note not found"@,
            final(self).notes_controller.spec_notes() == old(self).notes_controller.spec_notes().remove(id),
            final(self).notes_controller.spec_categories() == old(
                self,
            ).notes_controller.spec_categories(),
            final(self).task_controller == old(self).task_controller,
            final(self).calendar_controller == old(self).calendar_controller,
    {
        self.notes_controller.delete_note(id)
    }

    /// Adds a category with the name and colour.
    pub fn create_category(&mut self, name: &str, color: Option<&str>)
        ensures
            exists|c: CategoryView|
                #![trigger final(self).notes_controller.spec_categories().insert(c.id, c)]
                c.name == name@ && c.color == opt_str(color)
                    && final(self).notes_controller.spec_categories() == old(
                    self,
                ).notes_controller.spec_categories().insert(c.id, c),
            final(self).notes_controller.spec_notes() == old(self).notes_controller.spec_notes(),
            final(self).task_controller == old(self).task_controller,
            final(self).calendar_controller == old(self).calendar_controller,
    {
        let c = self.notes_controller.create_category(name, color);
        proof {
            assert(final(self).notes_controller.spec_categories().insert(c@.id, c@) == final(self).notes_controller.spec_categories().insert(c@.id, c@));
        }
    }

    /// See `NotesController::assign_category`.
    pub fn assign_category(&mut self, note_id: u128, category_id: u128) -> (r: Result<(), String>)
        ensures
            !old(self).notes_controller.spec_categories().contains_key(category_id) ==> (r matches Err(
                e,
            ) && e@ == "Category does not exist"@),
            old(self).notes_controller.spec_categories().contains_key(category_id) && !old(
                self,
            ).notes_controller.spec_notes().contains_key(note_id) ==> (r matches Err(e) && e@
                == "Note not found"@),
            r is Err ==> final(self).notes_controller.spec_notes() == old(self).notes_controller.spec_notes(),
            r is Ok <==> old(self).notes_controller.spec_categories().contains_key(category_id) && old(
                self,
            ).notes_controller.spec_notes().contains_key(note_id),
            r is Ok ==> final(self).notes_controller.spec_notes() == old(
                self,
            ).notes_controller.spec_notes().insert(
                note_id,
                NoteView {
                    categories: old(self).notes_controller.spec_notes()[note_id].categories.insert(
                        category_id,
                    ),
                    ..old(self).notes_controller.spec_notes()[note_id]
                },
            ),
            final(self).notes_controller.spec_categories() == old(
                self,
            ).notes_controller.spec_categories(),
            final(self).task_controller == old(self).task_controller,
            final(self).calendar_controller == old(self).calendar_controller,
    {
        self.notes_controller.assign_category(note_id, category_id)
    }

    /// See `NotesController::remove_category`.
    pub fn remove_category(&mut self, note_id: u128, category_id: u128) -> (r: Result<(), String>)
        ensures
            !old(self).notes_controller.spec_categories().contains_key(category_id) ==> (r matches Err(
                e,
            ) && e@ == "Category does not exist"@),
            old(self).notes_controller.spec_categories().contains_key(category_id) && !old(
                self,
            ).notes_controller.spec_notes().contains_key(note_id) ==> (r matches Err(e) && e@
                == "Note not found"@),
            r is Err ==> final(self).notes_controller.spec_notes() == old(self).notes_controller.spec_notes(),
            r is Ok <==> old(self).notes_controller.spec_categories().contains_key(category_id) && old(
                self,
            ).notes_controller.spec_notes().contains_key(note_id),
            r is Ok ==> final(self).notes_controller.spec_notes() == old(
                self,
            ).notes_controller.spec_notes().insert(
                note_id,
                NoteView {
                    categories: old(self).notes_controller.spec_notes()[note_id].categories.remove(
                        category_id,
                    ),
                    ..old(self).notes_controller.spec_notes()[note_id]
                },
            ),
            final(self).notes_controller.spec_categories() == old(
                self,
            ).notes_controller.spec_categories(),
            final(self).task_controller == old(self).task_controller,
            final(self).calendar_controller == old(self).calendar_controller,
    {
        self.notes_controller.remove_category(note_id, category_id)
    }

    /// Whether the note exists and is in the category.
    pub fn has_category(&self, note_id: u128, category_id: u128) -> (r: bool)
        ensures
            r == (self.notes_controller.spec_notes().contains_key(note_id)
                && self.notes_controller.spec_notes()[note_id].categories.contains(category_id)),
    {
        self.notes_controller.has_category(note_id, category_id)
    }

    /// The notes in the category (see `NotesController::filter_by_category`).
    pub fn filter_by_category(&self, category_id: u128) -> (r: Vec<Note>)
        ensures
            exists|keys: Seq<u128>|
                #![trigger enumerates(keys, self.notes_controller.notes@.dom())]
                enumerates(keys, self.notes_controller.notes@.dom()) && note_views(r@)
                    == listed_in_category(self.notes_controller.spec_notes(), keys, category_id),
    {
        self.notes_controller.filter_by_category(category_id)
    }

    /// All categories by name (see `NotesController::get_categories`).
    pub fn get_categories(&self) -> (r: Vec<Category>)
        ensures
            exists|keys: Seq<u128>|
                #![trigger enumerates(keys, self.notes_controller.categories@.dom())]
                enumerates(keys, self.notes_controller.categories@.dom()) && is_stable_sort_of(
                    keys.map_values(|k: u128| self.notes_controller.spec_categories()[k]),
                    category_views(r@),
                    |a: CategoryView, b: CategoryView| by_name(a, b),
                ),
    {
        self.notes_controller.get_categories()
    }
}

} // verus!
