//! Properties of the organizer that relate several operations or hold of
//! every state, stated over the values the operations' contracts use.

use vstd::prelude::*;
use crate::calendar::{changed_event, has_event, or_default, rescheduled, CalendarEventView};
use crate::calendar_view::{grid_cell, listed_event, month_grid, reading, shown_time};
use crate::calendar::{plain_value, DateInfo, UICalendarEvent, UICalendarEventView};
use crate::app_state::AppState;
use crate::calendar_io::{export_from, exportable};
use crate::datetime::compact_moment;
use crate::datetime::{parsed_moment, Moment};
use crate::datetime::{days_in_month, weekday_of};
use crate::notes::{enumerates, latest_first, listed_in_category, NoteView};
use crate::order::{is_stable_sort_of, lemma_stable_sort_of_sorted, sorted_by};
use crate::tasks::{
    add_time_fits, changed_task, finished_task, has_task, is_done, task_in_range, task_order,
    task_views, tasks_in_range, total_minutes, updates_first, with_time_added, Task, TaskView,
    NOT_STARTED,
};
use crate::order::stable_permutation;

verus! {

proof fn lemma_filter_keeps_all<A>(s: Seq<A>, pred: spec_fn(A) -> bool)
    requires
        forall|i: int| 0 <= i < s.len() ==> pred(#[trigger] s[i]),
    ensures
        s.filter(pred) == s,
    decreases s.len(),
{
    reveal(Seq::filter);
    if s.len() > 0 {
        lemma_filter_keeps_all(s.drop_last(), pred);
        assert(s.drop_last().push(s.last()) =~= s);
    }
}

proof fn lemma_filter_drops_all<A>(s: Seq<A>, pred: spec_fn(A) -> bool, i: int)
    requires
        0 <= i < s.filter(pred).len(),
    ensures
        pred(s.filter(pred)[i]),
{
    s.lemma_filter_pred(pred, i);
}

/// Sorting the tasks a second time by the same key changes nothing: two
/// `get_tasks` calls with the same `sort_by` give the same order.
pub proof fn law_sorting_tasks_twice_is_sorting_once(
    before: Seq<Task>,
    once: Seq<Task>,
    twice: Seq<Task>,
    sort_by: u8,
)
    requires
        1 <= sort_by <= 3,
        is_stable_sort_of(before, once, task_order(sort_by)),
        is_stable_sort_of(once, twice, task_order(sort_by)),
    ensures
        twice == once,
{
    lemma_stable_sort_of_sorted(once, twice, task_order(sort_by));
}

/// Sorted by priority or by deadline, the finished tasks come after all the
/// unfinished ones.
pub proof fn law_finished_tasks_come_last(before: Seq<Task>, out: Seq<Task>, sort_by: u8)
    requires
        sort_by == 2 || sort_by == 3,
        is_stable_sort_of(before, out, task_order(sort_by)),
    ensures
        forall|i: int, j: int|
            0 <= i < j < out.len() && is_done(#[trigger] out[i]@) ==> is_done(#[trigger] out[j]@),
{
    assert forall|i: int, j: int|
        0 <= i < j < out.len() && is_done(#[trigger] out[i]@) implies is_done(#[trigger] out[j]@) by {
        assert(task_order(sort_by)(out[i], out[j]));
    }
}

/// The id the controller hands out next is carried by no task.
pub proof fn law_next_id_is_new(tasks: Seq<TaskView>, next_id: u32)
    requires
        forall|i: int| 0 <= i < tasks.len() ==> #[trigger] tasks[i].id < next_id,
    ensures
        !has_task(tasks, next_id),
{
}

/// Deleting by the id of a task just added, when no other task has that
/// id, removes just that task and leaves the others as they were.
pub proof fn law_deleting_a_new_task_restores_the_tasks(tasks: Seq<TaskView>, added: TaskView)
    requires
        !has_task(tasks, added.id),
    ensures
        has_task(tasks.push(added), added.id),
        tasks.push(added).filter(|t: TaskView| t.id != added.id) == tasks,
{
    let pred = |t: TaskView| t.id != added.id;
    assert forall|i: int| 0 <= i < tasks.len() implies pred(#[trigger] tasks[i]) by {
        if tasks[i].id == added.id {
            assert(has_task(tasks, added.id));
        }
    }
    lemma_filter_keeps_all(tasks, pred);
    reveal(Seq::filter);
    assert(tasks.push(added).drop_last() =~= tasks);
    assert(tasks.push(added)[tasks.len() as int] == added);
}

/// Deleting the tasks with an id a second time changes nothing.
pub proof fn law_deleting_tasks_twice_is_deleting_once(tasks: Seq<TaskView>, id: u32)
    ensures
        tasks.filter(|t: TaskView| t.id != id).filter(|t: TaskView| t.id != id) == tasks.filter(
            |t: TaskView| t.id != id,
        ),
{
    let pred = |t: TaskView| t.id != id;
    let kept = tasks.filter(pred);
    assert forall|i: int| 0 <= i < kept.len() implies pred(#[trigger] kept[i]) by {
        lemma_filter_drops_all(tasks, pred, i);
    }
    lemma_filter_keeps_all(kept, pred);
}

/// After deleting by an id no task has that id.
pub proof fn law_deleted_tasks_are_gone(tasks: Seq<TaskView>, id: u32)
    ensures
        !has_task(tasks.filter(|t: TaskView| t.id != id), id),
{
    let pred = |t: TaskView| t.id != id;
    let kept = tasks.filter(pred);
    assert forall|i: int| 0 <= i < kept.len() implies #[trigger] kept[i].id != id by {
        lemma_filter_drops_all(tasks, pred, i);
    }
}

/// Adding less than a day and an hour to a task whose clock shows less
/// than an hour and a day adds exactly that many minutes to its total, and
/// the clock again shows less than an hour and a day.
pub proof fn law_add_time_adds_the_minutes(t: TaskView, hours: u8, mins: u8)
    requires
        t.total_time_mins < 60,
        t.total_time_hours < 24,
        mins < 60,
        hours < 24,
        add_time_fits(t, hours, mins),
    ensures
        total_minutes(with_time_added(t, hours, mins)) == total_minutes(t) + 60 * hours + mins,
        with_time_added(t, hours, mins).total_time_mins < 60,
        with_time_added(t, hours, mins).total_time_hours < 24,
{
}

/// A new task controller (no tasks, next id 1) is in range.
pub proof fn law_new_tasks_are_in_range()
    ensures
        tasks_in_range(Seq::<TaskView>::empty(), 1),
{
}

/// Adding a task under the next id keeps the tasks in range.
pub proof fn law_adding_a_task_keeps_tasks_in_range(
    ts: Seq<TaskView>,
    next_id: u32,
    title: Seq<char>,
    priority: u8,
    deadline: Option<Seq<char>>,
)
    requires
        tasks_in_range(ts, next_id),
        next_id < u32::MAX,
    ensures
        tasks_in_range(
            ts.push(
                TaskView {
                    id: next_id,
                    title,
                    status: NOT_STARTED,
                    priority,
                    total_time_days: 0,
                    total_time_hours: 0,
                    total_time_mins: 0,
                    deadline,
                },
            ),
            (next_id + 1) as u32,
        ),
{
    let added = TaskView {
        id: next_id,
        title,
        status: NOT_STARTED,
        priority,
        total_time_days: 0,
        total_time_hours: 0,
        total_time_mins: 0,
        deadline,
    };
    let n2 = (next_id + 1) as u32;
    assert forall|i: int| 0 <= i < ts.push(added).len() implies task_in_range(#[trigger] ts.push(added)[i], n2) by {
        if i < ts.len() {
            assert(task_in_range(ts[i], next_id));
        }
    }
}

proof fn lemma_first_exists(s: Seq<TaskView>, id: u32, j: int)
    requires
        0 <= j < s.len(),
        s[j].id == id,
    ensures
        crate::tasks::is_first_with_id(s, id, crate::tasks::first_with_id(s, id)),
    decreases j,
{
    if exists|k: int| 0 <= k < j && #[trigger] s[k].id == id {
        let k = choose|k: int| 0 <= k < j && #[trigger] s[k].id == id;
        lemma_first_exists(s, id, k);
    } else {
        assert(crate::tasks::is_first_with_id(s, id, j));
    }
}

/// Changing the first task with an id by a change that keeps a task in
/// range keeps the tasks in range.
pub proof fn law_updating_a_task_keeps_tasks_in_range(
    before: Seq<TaskView>,
    after: Seq<TaskView>,
    next_id: u32,
    id: u32,
    found: bool,
    f: spec_fn(TaskView) -> TaskView,
)
    requires
        tasks_in_range(before, next_id),
        updates_first(before, after, id, found, f),
        forall|t: TaskView| task_in_range(t, next_id) ==> #[trigger] task_in_range(f(t), next_id),
    ensures
        tasks_in_range(after, next_id),
{
    if found {
        let k = crate::tasks::first_with_id(before, id);
        let j = choose|j: int| 0 <= j < before.len() && #[trigger] before[j].id == id;
        lemma_first_exists(before, id, j);
        assert(task_in_range(before[k], next_id));
        assert(task_in_range(f(before[k]), next_id));
        assert forall|i: int| 0 <= i < after.len() implies task_in_range(#[trigger] after[i], next_id) by {
            if i != k {
                assert(task_in_range(before[i], next_id));
            }
        }
    }
}

/// Changing a task's priority, title or deadline, or finishing it, keeps
/// it in range; so does adding less than a day and an hour to its time.
pub proof fn law_task_changes_keep_a_task_in_range(
    t: TaskView,
    next_id: u32,
    priority: Option<u8>,
    title: Option<Seq<char>>,
    deadline: Option<Seq<char>>,
    hours: u8,
    mins: u8,
)
    requires
        task_in_range(t, next_id),
    ensures
        task_in_range(changed_task(t, priority, title, deadline), next_id),
        task_in_range(finished_task(t), next_id),
        hours < 24 && mins < 60 ==> task_in_range(with_time_added(t, hours, mins), next_id),
{
}

/// Deleting tasks keeps the rest in range.
pub proof fn law_deleting_tasks_keeps_tasks_in_range(ts: Seq<TaskView>, next_id: u32, id: u32)
    requires
        tasks_in_range(ts, next_id),
    ensures
        tasks_in_range(ts.filter(|t: TaskView| t.id != id), next_id),
{
    let pred = |t: TaskView| t.id != id;
    let kept = ts.filter(pred);
    assert forall|i: int| 0 <= i < kept.len() implies task_in_range(#[trigger] kept[i], next_id) by {
        assert(kept.contains(kept[i]));
        ts.lemma_filter_contains_rev(pred, kept[i]);
        let j = choose|j: int| 0 <= j < ts.len() && ts[j] == kept[i];
        assert(task_in_range(ts[j], next_id));
    }
}

/// Sorting the tasks keeps them in range.
pub proof fn law_sorting_tasks_keeps_tasks_in_range(before: Seq<Task>, out: Seq<Task>, sort_by: u8, next_id: u32)
    requires
        tasks_in_range(task_views(before), next_id),
        is_stable_sort_of(before, out, task_order(sort_by)),
    ensures
        tasks_in_range(task_views(out), next_id),
{
    let p = choose|p: Seq<int>| stable_permutation(before, out, p, task_order(sort_by));
    assert forall|i: int| 0 <= i < task_views(out).len() implies task_in_range(#[trigger] task_views(out)[i], next_id) by {
        assert(out[i] == before[p[i]]);
        assert(task_in_range(task_views(before)[p[i]], next_id));
    }
}

/// An event just added can be found by its UID.
pub proof fn law_added_event_is_found(events: Seq<CalendarEventView>, added: CalendarEventView)
    requires
        added.uid is Some,
    ensures
        has_event(events.push(added), added.uid->0),
{
    assert(events.push(added)[events.len() as int] == added);
}

/// After `delete_event` no event has the UID.
pub proof fn law_deleted_events_are_gone(events: Seq<CalendarEventView>, uid: Seq<char>)
    ensures
        !has_event(events.filter(|e: CalendarEventView| e.uid != Some(uid)), uid),
{
    let pred = |e: CalendarEventView| e.uid != Some(uid);
    let kept = events.filter(pred);
    assert forall|i: int| 0 <= i < kept.len() implies #[trigger] kept[i].uid != Some(uid) by {
        lemma_filter_drops_all(events, pred, i);
    }
}

/// Deleting an event right after adding it, under a UID no other event
/// has, leaves the events as they were.
pub proof fn law_deleting_a_new_event_restores_the_events(
    events: Seq<CalendarEventView>,
    added: CalendarEventView,
)
    requires
        added.uid is Some,
        !has_event(events, added.uid->0),
    ensures
        events.push(added).filter(|e: CalendarEventView| e.uid != added.uid) == events,
{
    let pred = |e: CalendarEventView| e.uid != added.uid;
    assert forall|i: int| 0 <= i < events.len() implies pred(#[trigger] events[i]) by {
        if events[i].uid == added.uid {
            assert(events[i].uid == Some(added.uid->0));
        }
    }
    lemma_filter_keeps_all(events, pred);
    reveal(Seq::filter);
    assert(events.push(added).drop_last() =~= events);
}

/// Deleting the events with a UID a second time changes nothing.
pub proof fn law_deleting_events_twice_is_deleting_once(events: Seq<CalendarEventView>, uid: Seq<char>)
    ensures
        events.filter(|e: CalendarEventView| e.uid != Some(uid)).filter(
            |e: CalendarEventView| e.uid != Some(uid),
        ) == events.filter(|e: CalendarEventView| e.uid != Some(uid)),
{
    let pred = |e: CalendarEventView| e.uid != Some(uid);
    let kept = events.filter(pred);
    assert forall|i: int| 0 <= i < kept.len() implies pred(#[trigger] kept[i]) by {
        lemma_filter_drops_all(events, pred, i);
    }
    lemma_filter_keeps_all(kept, pred);
}

/// A changed event keeps its UID, so later changes find it again.
pub proof fn law_changed_event_keeps_its_uid(
    e: CalendarEventView,
    new_title: Option<Seq<char>>,
    new_date: Option<Seq<char>>,
    new_begin: Option<Seq<char>>,
    new_end: Option<Seq<char>>,
)
    ensures
        changed_event(e, new_title, new_date, new_begin, new_end).uid == e.uid,
{
}

/// A new date moves both the start and the end to that date.
pub proof fn law_new_date_moves_start_and_end(
    begin: Option<Seq<char>>,
    end: Option<Seq<char>>,
    new_date: Seq<char>,
    new_begin: Option<Seq<char>>,
    new_end: Option<Seq<char>>,
)
    ensures
        rescheduled(begin, end, Some(new_date), new_begin, new_end).0.subrange(0, new_date.len() as int)
            == new_date,
        rescheduled(begin, end, Some(new_date), new_begin, new_end).1.subrange(0, new_date.len() as int)
            == new_date,
{
    let r = rescheduled(begin, end, Some(new_date), new_begin, new_end);
    assert(r.0.subrange(0, new_date.len() as int) =~= new_date);
    assert(r.1.subrange(0, new_date.len() as int) =~= new_date);
}

/// The month grid has a cell for each day of the month in order, in five
/// rows of weeks: the first day is in the column of its weekday in the
/// first row; the cell of day `d` sits `d - 1` places after it, except that
/// a day that would fall in a sixth row takes the fifth row's cell of the
/// day a week before it; and a day is marked exactly when a listed event
/// falls on it.
pub proof fn law_month_grid_lays_out_the_days(
    y: int,
    m: int,
    events: Seq<crate::calendar::UICalendarEventView>,
    k: int,
)
    requires
        1 <= m <= 12,
        0 <= k < days_in_month(y, m),
    ensures
        month_grid(y, m, events).len() == days_in_month(y, m),
        month_grid(y, m, events)[k].day_of_month == k + 1,
        k + weekday_of(y, m, 1) < 35 ==> month_grid(y, m, events)[k].row_idx * 7 + month_grid(
            y,
            m,
            events,
        )[k].col_idx == k + weekday_of(y, m, 1),
        k + weekday_of(y, m, 1) >= 35 ==> month_grid(y, m, events)[k].row_idx == 4 && month_grid(
            y,
            m,
            events,
        )[k].col_idx == k + weekday_of(y, m, 1) - 35,
        0 <= month_grid(y, m, events)[k].col_idx < 7,
        month_grid(y, m, events)[0].row_idx == 0,
        month_grid(y, m, events)[0].col_idx == weekday_of(y, m, 1),
        month_grid(y, m, events)[k].has_event <==> exists|j: int|
            0 <= j < events.len() && #[trigger] events[j].day == (k + 1) as u8,
{
    let w = weekday_of(y, m, 1);
    assert(0 <= w < 7);
    let idx = k + w;
    assert(idx == (idx / 7) * 7 + idx % 7);
    assert(days_in_month(y, m) <= 31);
    assert(month_grid(y, m, events)[k] == grid_cell(y, m, k + 1, events));
    assert(month_grid(y, m, events)[0] == grid_cell(y, m, 1, events));
}

/// Listed notes come most recently changed first.
pub proof fn law_notes_come_newest_first(listed: Seq<NoteView>, out: Seq<NoteView>)
    requires
        is_stable_sort_of(listed, out, |a: NoteView, b: NoteView| latest_first(a, b)),
    ensures
        forall|i: int, j: int|
            0 <= i < j < out.len() ==> #[trigger] out[i].last_update >= #[trigger] out[j].last_update,
{
    assert forall|i: int, j: int| 0 <= i < j < out.len() implies #[trigger] out[i].last_update
        >= #[trigger] out[j].last_update by {
        assert((|a: NoteView, b: NoteView| latest_first(a, b))(out[i], out[j]));
    }
}

/// A note just created is found under its id as it was created, and the
/// other notes stay as they were.
pub proof fn law_created_note_is_found(notes: Map<u128, NoteView>, created: NoteView, other: u128)
    requires
        other != created.id,
    ensures
        notes.insert(created.id, created).contains_key(created.id),
        notes.insert(created.id, created)[created.id] == created,
        notes.insert(created.id, created).contains_key(other) == notes.contains_key(other),
        notes.contains_key(other) ==> notes.insert(created.id, created)[other] == notes[other],
{
}

/// A deleted note is gone.
pub proof fn law_deleted_note_is_gone(notes: Map<u128, NoteView>, id: u128)
    ensures
        !notes.remove(id).contains_key(id),
{
}

/// After a category is assigned to a note the note has it; after it is
/// removed the note has it no more; assigning twice is assigning once.
pub proof fn law_assigning_and_removing_categories(note: NoteView, category: u128)
    ensures
        (NoteView { categories: note.categories.insert(category), ..note }).categories.contains(
            category,
        ),
        !(NoteView { categories: note.categories.remove(category), ..note }).categories.contains(
            category,
        ),
        note.categories.insert(category).insert(category) == note.categories.insert(category),
{
    assert(note.categories.insert(category).insert(category) =~= note.categories.insert(category));
}

/// Assigning a note to a category it is not in and then removing it again
/// leaves the notes as they were.
pub proof fn law_assigning_then_removing_a_category_restores_the_notes(
    notes: Map<u128, NoteView>,
    id: u128,
    category: u128,
)
    requires
        notes.contains_key(id),
        !notes[id].categories.contains(category),
    ensures
        ({
            let assigned = notes.insert(
                id,
                NoteView { categories: notes[id].categories.insert(category), ..notes[id] },
            );
            assigned.insert(
                id,
                NoteView { categories: assigned[id].categories.remove(category), ..assigned[id] },
            ) == notes
        }),
{
    let assigned = notes.insert(
        id,
        NoteView { categories: notes[id].categories.insert(category), ..notes[id] },
    );
    assert(assigned[id].categories.remove(category) =~= notes[id].categories);
    assert(assigned.insert(
        id,
        NoteView { categories: assigned[id].categories.remove(category), ..assigned[id] },
    ) =~= notes);
}

/// The notes listed for a category are exactly the notes in it.
pub proof fn law_filter_lists_exactly_the_notes_in_the_category(
    notes: Map<u128, NoteView>,
    keys: Seq<u128>,
    category: u128,
)
    requires
        enumerates(keys, notes.dom()),
    ensures
        forall|i: int|
            0 <= i < listed_in_category(notes, keys, category).len() ==> (
            #[trigger] listed_in_category(notes, keys, category)[i]).categories.contains(category),
        forall|k: u128|
            notes.contains_key(k) && #[trigger] notes[k].categories.contains(category)
                ==> listed_in_category(notes, keys, category).contains(notes[k]),
{
    let all = keys.map_values(|k: u128| notes[k]);
    let pred = |n: NoteView| n.categories.contains(category);
    assert forall|i: int| 0 <= i < all.filter(pred).len() implies (
    #[trigger] all.filter(pred)[i]).categories.contains(category) by {
        lemma_filter_drops_all(all, pred, i);
    }
    assert forall|k: u128|
        notes.contains_key(k) && #[trigger] notes[k].categories.contains(
            category,
        ) implies all.filter(pred).contains(notes[k]) by {
        assert(keys.to_set().contains(k));
        let i = choose|i: int| 0 <= i < keys.len() && keys[i] == k;
        assert(all[i] == notes[k]);
        all.lemma_filter_contains_rev(pred, notes[k]);
    }
}


/// Without a new date, a new end time that is later than the event's old
/// start time (bytes 9 to 15 of its start) becomes the event's end, on the
/// old date, whatever the old end was; a new start time becomes its start.
pub proof fn law_new_end_after_old_start_becomes_the_end(
    begin: Seq<char>,
    end: Option<Seq<char>>,
    new_begin: Option<Seq<char>>,
    new_end: Seq<char>,
    date: Seq<char>,
    start_time: Seq<char>,
)
    requires
        !begin.contains('Z'),
        crate::text::utf8_slice(begin, 0, 8) == Some(date),
        crate::text::utf8_slice(begin, 9, 15) == Some(start_time),
        !crate::order::text_le(new_end, start_time),
    ensures
        rescheduled(Some(begin), end, None, new_begin, Some(new_end)).1 == date + "T"@ + new_end,
        new_begin matches Some(nb) ==> rescheduled(Some(begin), end, None, new_begin, Some(new_end)).0
            == date + "T"@ + nb,
{
    crate::text::lemma_without_absent_char(begin, 'Z');
}

/// A listed event's start fields are those of its start as written and read
/// back, and its end hour and minute those of its end as written and read
/// back (the empty text for an event without an end).
pub proof fn law_listed_event_times_are_its_own(
    e: CalendarEventView,
    month: u32,
    year: u32,
    local: (Option<Moment>, Option<Moment>),
    u: UICalendarEventView,
)
    requires
        listed_event(e, month, year, local) == Some(u),
    ensures
        reading(e.begin) is Some,
        shown_time(reading(e.begin)->0, local.0) is Some,
        parsed_moment(shown_time(reading(e.begin)->0, local.0)->0, "%d.%m.%Y %H:%M"@) matches Some(ps)
            && u.day == ps.day as u8 && u.month == ps.month as u8 && u.year == ps.year as u32
            && u.begin_hour == ps.hour as u8 && u.begin_mins == ps.minute as u8,
        ({
            let t = match reading(e.end) {
                None => Seq::<char>::empty(),
                Some(et) => shown_time(et, local.1)->0,
            };
            parsed_moment(t, "%d.%m.%Y %H:%M"@) matches Some(pe) && u.end_hour == pe.hour as u8
                && u.end_mins == pe.minute as u8
        }),
{
}


/// The month view shows a full grid for the current month and every later
/// one: for a month from 1 to 12 that is not before today's, the grid has a
/// cell for each day of the month; months before today's show nothing.
pub proof fn law_current_and_later_months_are_shown(
    app: AppState,
    month: u32,
    year: u32,
    now_year: u32,
    now_month: u32,
    events: Seq<UICalendarEvent>,
    grid: Seq<DateInfo>,
)
    requires
        app.shows_month(month, year, now_year, now_month, events, grid),
    ensures
        1 <= month <= 12 && (year > now_year || (year == now_year && month >= now_month)) ==> grid.len()
            == days_in_month((year as i32) as int, month as int),
        1 <= month <= 12 && year == now_year && month == now_month ==> grid.len() == days_in_month(
            (year as i32) as int,
            month as int,
        ),
        (year < now_year || (year == now_year && month < now_month)) ==> events.len() == 0 && grid.len()
            == 0,
{
}

/// Changing a task changes only what is given: a field with no new value
/// keeps its old value, and the id, status and time are never changed.
pub proof fn law_change_keeps_what_is_not_given(
    t: TaskView,
    priority: Option<u8>,
    title: Option<Seq<char>>,
    deadline: Option<Seq<char>>,
)
    ensures
        priority is None ==> changed_task(t, priority, title, deadline).priority == t.priority,
        priority matches Some(p) ==> changed_task(t, priority, title, deadline).priority == p,
        title is None ==> changed_task(t, priority, title, deadline).title == t.title,
        title matches Some(n) ==> changed_task(t, priority, title, deadline).title == n,
        deadline is None ==> changed_task(t, priority, title, deadline).deadline == t.deadline,
        deadline is Some ==> changed_task(t, priority, title, deadline).deadline == deadline,
        changed_task(t, priority, title, deadline).id == t.id,
        changed_task(t, priority, title, deadline).status == t.status,
        changed_task(t, priority, title, deadline).total_time_days == t.total_time_days,
        changed_task(t, priority, title, deadline).total_time_hours == t.total_time_hours,
        changed_task(t, priority, title, deadline).total_time_mins == t.total_time_mins,
{
}

/// After `change_task` with no new priority, the changed task keeps its
/// priority.
pub proof fn law_renaming_a_task_keeps_its_priority(
    before: Seq<TaskView>,
    after: Seq<TaskView>,
    id: u32,
    title: Option<Seq<char>>,
    deadline: Option<Seq<char>>,
)
    requires
        has_task(before, id),
        updates_first(before, after, id, true, |x: TaskView| changed_task(x, None, title, deadline)),
    ensures
        after[crate::tasks::first_with_id(before, id)].priority == before[crate::tasks::first_with_id(
            before,
            id,
        )].priority,
        after.len() == before.len(),
{
    let j = choose|j: int| 0 <= j < before.len() && #[trigger] before[j].id == id;
    lemma_first_exists(before, id, j);
}

/// Each exported event is written with its own UID and title, its start as
/// the UTC moment given for its start and its end as the UTC moment given
/// for its end, each `YYYYMMDDTHHMMSSZ`, where they read as date-times.
pub proof fn law_exported_events_keep_their_own_times(
    events: Seq<CalendarEventView>,
    utcs: Seq<(Option<Moment>, Option<Moment>)>,
    i: int,
)
    requires
        utcs.len() == events.len(),
        export_from(events, utcs) is Ok,
        0 <= i < events.len(),
    ensures
        export_from(events, utcs)->Ok_0.len() == events.len(),
        export_from(events, utcs)->Ok_0[i] is Some,
        export_from(events, utcs)->Ok_0[i]->0.uid == events[i].uid,
        export_from(events, utcs)->Ok_0[i]->0.title == events[i].title,
        reading(events[i].begin) is Some ==> utcs[i].0 is Some && export_from(events, utcs)->Ok_0[i]->0.begin
            == Some(plain_value(compact_moment(utcs[i].0->0) + "Z"@)),
        reading(events[i].begin) is None ==> export_from(events, utcs)->Ok_0[i]->0.begin is None,
        reading(events[i].end) is Some ==> utcs[i].1 is Some && export_from(events, utcs)->Ok_0[i]->0.end
            == Some(plain_value(compact_moment(utcs[i].1->0) + "Z"@)),
        reading(events[i].end) is None ==> export_from(events, utcs)->Ok_0[i]->0.end is None,
{
    assert(exportable(events[i].begin, utcs[i].0) && exportable(events[i].end, utcs[i].1));
}

} // verus!
