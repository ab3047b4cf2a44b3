//! Tasks: a list of to-dos, each with a priority, an optional deadline, a
//! status and the time spent on it so far.

use vstd::prelude::*;
use crate::order::{
    bytes_le, is_stable_sort_of, lemma_bytes_le_total, lemma_bytes_le_transitive,
    stable_sort_by, str_le, text_le, total_preorder,
};

verus! {

/// Status of a task that has not been started.
pub const NOT_STARTED: u8 = 0;

/// Status of a task on which time has been spent.
pub const IN_PROGRESS: u8 = 1;

/// Status of a finished task.
pub const DONE: u8 = 2;

/// A task. Its time is kept as days, hours and minutes (`ddd:hh:mm`).
#[derive(Debug, Default)]
pub struct Task {
    pub id: u32,
    pub title: String,
    pub status: u8,
    pub priority: u8,
    pub total_time_days: u32,
    pub total_time_hours: u8,
    pub total_time_mins: u8,
    pub deadline: Option<String>,
}

/// The mathematical value of a task: its strings as sequences of characters.
pub struct TaskView {
    pub id: u32,
    pub title: Seq<char>,
    pub status: u8,
    pub priority: u8,
    pub total_time_days: u32,
    pub total_time_hours: u8,
    pub total_time_mins: u8,
    pub deadline: Option<Seq<char>>,
}

/// The characters of an optional string.
pub open spec fn opt_text(s: Option<String>) -> Option<Seq<char>> {
    match s {
        Some(t) => Some(t@),
        None => None,
    }
}

/// The characters of an optional string slice.
pub open spec fn opt_str(s: Option<&str>) -> Option<Seq<char>> {
    match s {
        Some(t) => Some(t@),
        None => None,
    }
}

impl View for Task {
    type V = TaskView;

    open spec fn view(&self) -> TaskView {
        TaskView {
            id: self.id,
            title: self.title@,
            status: self.status,
            priority: self.priority,
            total_time_days: self.total_time_days,
            total_time_hours: self.total_time_hours,
            total_time_mins: self.total_time_mins,
            deadline: opt_text(self.deadline),
        }
    }
}

/// The values of a sequence of tasks.
pub open spec fn task_views(s: Seq<Task>) -> Seq<TaskView> {
    s.map_values(|t: Task| t@)
}

/// Some task in `s` has the id `id`.
pub open spec fn has_task(s: Seq<TaskView>, id: u32) -> bool {
    exists|i: int| 0 <= i < s.len() && #[trigger] s[i].id == id
}

/// `i` is the position of the first task in `s` with the id `id`.
pub open spec fn is_first_with_id(s: Seq<TaskView>, id: u32, i: int) -> bool {
    &&& 0 <= i < s.len()
    &&& s[i].id == id
    &&& forall|j: int| 0 <= j < i ==> #[trigger] s[j].id != id
}

/// The position of the first task in `s` with the id `id` (meaningful when
/// there is one).
pub open spec fn first_with_id(s: Seq<TaskView>, id: u32) -> int {
    choose|i: int| is_first_with_id(s, id, i)
}

pub proof fn lemma_first_with_id(s: Seq<TaskView>, id: u32, i: int)
    requires
        is_first_with_id(s, id, i),
    ensures
        first_with_id(s, id) == i,
        has_task(s, id),
{
    let k = first_with_id(s, id);
    assert(is_first_with_id(s, id, k));
    if k < i {
        assert(s[k].id != id);
    } else if k > i {
        assert(s[i].id != id);
    }
}

/// `new` is `old` with the task at position `i` replaced by `t`, when `old`
/// holds a task with `id`, and `old` itself otherwise; `found` tells which.
pub open spec fn updates_first(
    old: Seq<TaskView>,
    new: Seq<TaskView>,
    id: u32,
    found: bool,
    f: spec_fn(TaskView) -> TaskView,
) -> bool {
    &&& found == has_task(old, id)
    &&& found ==> new == old.update(first_with_id(old, id), f(old[first_with_id(old, id)]))
    &&& !found ==> new == old
}

/// The task with its priority, title and deadline replaced by those given.
pub open spec fn changed_task(
    t: TaskView,
    priority: Option<u8>,
    title: Option<Seq<char>>,
    deadline: Option<Seq<char>>,
) -> TaskView {
    TaskView {
        priority: match priority {
            Some(p) => p,
            None => t.priority,
        },
        title: match title {
            Some(s) => s,
            None => t.title,
        },
        deadline: match deadline {
            Some(d) => Some(d),
            None => t.deadline,
        },
        ..t
    }
}

/// The task marked as finished.
pub open spec fn finished_task(t: TaskView) -> TaskView {
    TaskView { status: DONE, ..t }
}

/// Adding the time does not overflow the task's counters: the minutes stay
/// within a `u8`, the hours (with the carry from the minutes) too, and the
/// day counter can take its carry.
pub open spec fn add_time_fits(t: TaskView, hours: u8, mins: u8) -> bool {
    let m = t.total_time_mins + mins;
    let h = if m >= 60 { t.total_time_hours + 1 } else { t.total_time_hours as int };
    &&& m <= u8::MAX
    &&& h + hours <= u8::MAX
    &&& h + hours >= 24 ==> t.total_time_days < u32::MAX
}

/// The task after `hours` and `mins` are added to its time: the minutes
/// carry at most one hour into the hours, the hours at most one day into the
/// days, and the task is in progress.
pub open spec fn with_time_added(t: TaskView, hours: u8, mins: u8) -> TaskView {
    let m = t.total_time_mins + mins;
    let h = if m >= 60 { t.total_time_hours + 1 } else { t.total_time_hours as int };
    let m2 = if m >= 60 { m % 60 } else { m };
    let h2 = h + hours;
    let d = if h2 >= 24 { t.total_time_days + 1 } else { t.total_time_days as int };
    let h3 = if h2 >= 24 { h2 % 24 } else { h2 };
    TaskView {
        total_time_days: d as u32,
        total_time_hours: h3 as u8,
        total_time_mins: m2 as u8,
        status: IN_PROGRESS,
        ..t
    }
}

/// A task's fields are in range: an id of at least 1 and below `next_id`,
/// a known status, and a clock that shows less than an hour and a day.
pub open spec fn task_in_range(t: TaskView, next_id: u32) -> bool {
    &&& 1 <= t.id < next_id
    &&& t.status <= DONE
    &&& t.total_time_mins < 60
    &&& t.total_time_hours < 24
}

/// The next id is at least 1 and every task is in range.
pub open spec fn tasks_in_range(ts: Seq<TaskView>, next_id: u32) -> bool {
    &&& next_id >= 1
    &&& forall|i: int| 0 <= i < ts.len() ==> task_in_range(#[trigger] ts[i], next_id)
}

/// The total time of a task in minutes.
pub open spec fn total_minutes(t: TaskView) -> int {
    t.total_time_days * 1440 + t.total_time_hours * 60 + t.total_time_mins
}

/// Whether a task counts as finished when tasks are ordered.
pub open spec fn is_done(t: TaskView) -> bool {
    t.status == DONE
}

/// Order by title (UTF-8 byte order).
pub open spec fn title_order(a: TaskView, b: TaskView) -> bool {
    text_le(a.title, b.title)
}

/// Unfinished tasks first; among them and among finished ones, higher
/// priorities first.
pub open spec fn priority_order(a: TaskView, b: TaskView) -> bool {
    if is_done(a) != is_done(b) {
        !is_done(a)
    } else {
        a.priority >= b.priority
    }
}

/// Order of optional deadlines: tasks with a deadline come first, earlier
/// (in byte order of the deadline text) before later.
pub open spec fn deadline_le(a: Option<Seq<char>>, b: Option<Seq<char>>) -> bool {
    match (a, b) {
        (Some(x), Some(y)) => text_le(x, y),
        (Some(_), None) => true,
        (None, Some(_)) => false,
        (None, None) => true,
    }
}

/// Unfinished tasks first; then by deadline.
pub open spec fn deadline_order(a: TaskView, b: TaskView) -> bool {
    if is_done(a) != is_done(b) {
        !is_done(a)
    } else {
        deadline_le(a.deadline, b.deadline)
    }
}

/// The order that `get_tasks` applies for `sort_by`: 1 by title, 2 by
/// priority, 3 by deadline.
pub open spec fn task_order(sort_by: u8) -> spec_fn(Task, Task) -> bool {
    if sort_by == 1 {
        |a: Task, b: Task| title_order(a@, b@)
    } else if sort_by == 2 {
        |a: Task, b: Task| priority_order(a@, b@)
    } else {
        |a: Task, b: Task| deadline_order(a@, b@)
    }
}

pub proof fn lemma_task_orders_are_total_preorders(sort_by: u8)
    ensures
        total_preorder(task_order(sort_by)),
{
    let leq = task_order(sort_by);
    assert forall|a: Task, b: Task| #[trigger] leq(a, b) || leq(b, a) by {
        lemma_bytes_le_total(vstd::utf8::encode_utf8(a.title@), vstd::utf8::encode_utf8(b.title@));
        if a.deadline is Some && b.deadline is Some {
            lemma_bytes_le_total(
                vstd::utf8::encode_utf8(a.deadline->0@),
                vstd::utf8::encode_utf8(b.deadline->0@),
            );
        }
    }
    assert forall|a: Task, b: Task, c: Task|
        #[trigger] leq(a, b) && #[trigger] leq(b, c) implies leq(a, c) by {
        if sort_by == 1 {
            lemma_bytes_le_transitive(
                vstd::utf8::encode_utf8(a.title@),
                vstd::utf8::encode_utf8(b.title@),
                vstd::utf8::encode_utf8(c.title@),
            );
        } else if sort_by != 2 {
            if a.deadline is Some && b.deadline is Some && c.deadline is Some && is_done(a@)
                == is_done(b@) && is_done(b@) == is_done(c@) {
                lemma_bytes_le_transitive(
                    vstd::utf8::encode_utf8(a.deadline->0@),
                    vstd::utf8::encode_utf8(b.deadline->0@),
                    vstd::utf8::encode_utf8(c.deadline->0@),
                );
            }
        }
    }
}

impl Task {
    /// A copy of the task.
    pub fn duplicate(&self) -> (r: Task)
        ensures
            r@ == self@,
    {
        let deadline = match &self.deadline {
            Some(d) => Some(d.clone()),
            None => None,
        };
        Task {
            id: self.id,
            title: self.title.clone(),
            status: self.status,
            priority: self.priority,
            total_time_days: self.total_time_days,
            total_time_hours: self.total_time_hours,
            total_time_mins: self.total_time_mins,
            deadline,
        }
    }
}

/// Whether `a` comes no later than `b` by title.
fn title_precedes(a: &Task, b: &Task) -> (r: bool)
    ensures
        r == title_order(a@, b@),
{
    str_le(a.title.as_str(), b.title.as_str())
}

/// Whether `a` comes no later than `b` by status and priority.
fn priority_precedes(a: &Task, b: &Task) -> (r: bool)
    ensures
        r == priority_order(a@, b@),
{
    let done_a = a.status == DONE;
    let done_b = b.status == DONE;
    if done_a != done_b {
        !done_a
    } else {
        a.priority >= b.priority
    }
}

/// Whether `a` comes no later than `b` by status and deadline.
fn deadline_precedes(a: &Task, b: &Task) -> (r: bool)
    ensures
        r == deadline_order(a@, b@),
{
    let done_a = a.status == DONE;
    let done_b = b.status == DONE;
    if done_a != done_b {
        !done_a
    } else {
        match (&a.deadline, &b.deadline) {
            (Some(x), Some(y)) => str_le(x.as_str(), y.as_str()),
            (Some(_), None) => true,
            (None, Some(_)) => false,
            (None, None) => true,
        }
    }
}

/// The tasks and the id the next new task gets.
#[derive(Debug, Default)]
pub struct TaskController {
    pub next_id: u32,
    pub tasks: Vec<Task>,
}

impl TaskController {
    /// The values of the tasks, in order.
    pub open spec fn spec_tasks(&self) -> Seq<TaskView> {
        task_views(self.tasks@)
    }

    /// Every task has an id below `next_id`, and no two tasks share an id.
    pub open spec fn wf(&self) -> bool {
        &&& forall|i: int| 0 <= i < self.tasks@.len() ==> #[trigger] self.tasks@[i].id < self.next_id
        &&& forall|i: int, j: int|
            0 <= i < j < self.tasks@.len() ==> #[trigger] self.tasks@[i].id
                != #[trigger] self.tasks@[j].id
    }

    /// No tasks; the first task gets the id 1.
    pub fn new() -> (r: Self)
        ensures
            r.next_id == 1,
            r.spec_tasks() == Seq::<TaskView>::empty(),
            r.wf(),
    {
        TaskController { next_id: 1, tasks: Vec::new() }
    }

    /// Hands out the next id.
    pub fn get_next_id(&mut self) -> (id: u32)
        requires
            old(self).next_id < u32::MAX,
        ensures
            id == old(self).next_id,
            final(self).next_id == old(self).next_id + 1,
            final(self).tasks@ == old(self).tasks@,
            old(self).wf() ==> final(self).wf(),
    {
        let id = self.next_id;
        self.next_id = self.next_id + 1;
        id
    }

    /// Appends a new, unstarted task with no time spent, under the next id.
    pub fn add_task(&mut self, priority: u8, title: &str, deadline: Option<&str>) -> (r: bool)
        requires
            old(self).next_id < u32::MAX,
        ensures
            r,
            final(self).next_id == old(self).next_id + 1,
            final(self).spec_tasks() == old(self).spec_tasks().push(
                TaskView {
                    id: old(self).next_id,
                    title: title@,
                    status: NOT_STARTED,
                    priority,
                    total_time_days: 0,
                    total_time_hours: 0,
                    total_time_mins: 0,
                    deadline: opt_str(deadline),
                },
            ),
            old(self).wf() ==> final(self).wf(),
    {
        let id = self.get_next_id();
        let deadline = match deadline {
            Some(d) => Some(String::from_str(d)),
            None => None,
        };
        let tmp = Task {
            id,
            title: String::from_str(title),
            status: NOT_STARTED,
            total_time_days: 0,
            total_time_hours: 0,
            total_time_mins: 0,
            deadline,
            priority,
        };
        let ghost before = self.tasks@;
        self.tasks.push(tmp);
        proof {
            assert(task_views(self.tasks@) =~= task_views(before).push(tmp@));
        }
        true
    }

    /// The position of the first task with the id `id`, if any.
    fn position_of(&self, id: u32) -> (r: Option<usize>)
        ensures
            match r {
                Some(i) => is_first_with_id(self.spec_tasks(), id, i as int) && first_with_id(
                    self.spec_tasks(),
                    id,
                ) == i && has_task(self.spec_tasks(), id),
                None => !has_task(self.spec_tasks(), id),
            },
    {
        let mut i: usize = 0;
        while i < self.tasks.len()
            invariant
                i <= self.tasks@.len(),
                forall|j: int| 0 <= j < i ==> #[trigger] self.spec_tasks()[j].id != id,
            decreases self.tasks@.len() - i,
        {
            if self.tasks[i].id == id {
                proof {
                    lemma_first_with_id(self.spec_tasks(), id, i as int);
                }
                return Some(i);
            }
            i = i + 1;
        }
        proof {
            if has_task(self.spec_tasks(), id) {
                let k = choose|k: int| 0 <= k < self.spec_tasks().len() && #[trigger] self.spec_tasks()[k].id == id;
                assert(self.spec_tasks()[k].id != id);
            }
        }
        None
    }

    /// Changes the priority, title and deadline (each where given) of the
    /// first task with the id `id`; says whether there was one.
    pub fn change_task(
        &mut self,
        id: u32,
        p: Option<u8>,
        t: Option<String>,
        d: Option<String>,
    ) -> (r: bool)
        ensures
            updates_first(
                old(self).spec_tasks(),
                final(self).spec_tasks(),
                id,
                r,
                |x: TaskView| changed_task(x, p, opt_text(t), opt_text(d)),
            ),
            final(self).next_id == old(self).next_id,
            old(self).wf() ==> final(self).wf(),
    {
        match self.position_of(id) {
            Some(i) => {
                let ghost before = self.tasks@;
                let mut task = self.tasks.remove(i);
                if let Some(p) = p {
                    task.priority = p;
                }
                if let Some(t) = t {
                    task.title = t;
                }
                if d.is_some() {
                    task.deadline = d;
                }
                self.tasks.insert(i, task);
                proof {
                    assert(self.tasks@ =~= before.update(i as int, task));
                    assert(task_views(self.tasks@) =~= task_views(before).update(i as int, task@));
                    assert(self.wf() || !old(self).wf()) by {
                        if old(self).wf() {
                            assert forall|a: int| 0 <= a < self.tasks@.len() implies #[trigger] self.tasks@[a].id < self.next_id by {
                                assert(self.tasks@[a].id == before[a].id);
                            }
                            assert forall|a: int, b: int| 0 <= a < b < self.tasks@.len() implies #[trigger] self.tasks@[a].id != #[trigger] self.tasks@[b].id by {
                                assert(self.tasks@[a].id == before[a].id);
                                assert(self.tasks@[b].id == before[b].id);
                            }
                        }
                    }
                }
                true
            },
            None => false,
        }
    }

    /// Marks the first task with the id `id` as finished.
    pub fn finish_task(&mut self, id: u32)
        ensures
            updates_first(
                old(self).spec_tasks(),
                final(self).spec_tasks(),
                id,
                has_task(old(self).spec_tasks(), id),
                |x: TaskView| finished_task(x),
            ),
            final(self).next_id == old(self).next_id,
            old(self).wf() ==> final(self).wf(),
    {
        if let Some(i) = self.position_of(id) {
            let ghost before = self.tasks@;
            let mut task = self.tasks.remove(i);
            task.status = DONE;
            self.tasks.insert(i, task);
            proof {
                assert(self.tasks@ =~= before.update(i as int, task));
                assert(task_views(self.tasks@) =~= task_views(before).update(i as int, task@));
                if old(self).wf() {
                    assert forall|a: int| 0 <= a < self.tasks@.len() implies #[trigger] self.tasks@[a].id < self.next_id by {
                        assert(self.tasks@[a].id == before[a].id);
                    }
                    assert forall|a: int, b: int| 0 <= a < b < self.tasks@.len() implies #[trigger] self.tasks@[a].id != #[trigger] self.tasks@[b].id by {
                        assert(self.tasks@[a].id == before[a].id);
                        assert(self.tasks@[b].id == before[b].id);
                    }
                }
            }
        }
    }

    /// Adds `time_hours` hours and `time_mins` minutes to the time of the
    /// first task with the id `id` and marks it in progress.
    pub fn add_time(&mut self, id: u32, time_hours: u8, time_mins: u8)
        requires
            has_task(old(self).spec_tasks(), id) ==> add_time_fits(
                old(self).spec_tasks()[first_with_id(old(self).spec_tasks(), id)],
                time_hours,
                time_mins,
            ),
        ensures
            updates_first(
                old(self).spec_tasks(),
                final(self).spec_tasks(),
                id,
                has_task(old(self).spec_tasks(), id),
                |x: TaskView| with_time_added(x, time_hours, time_mins),
            ),
            final(self).next_id == old(self).next_id,
            old(self).wf() ==> final(self).wf(),
    {
        if let Some(i) = self.position_of(id) {
            let ghost before = self.tasks@;
            let mut task = self.tasks.remove(i);
            task.total_time_mins = task.total_time_mins + time_mins;
            if task.total_time_mins >= 60 {
                task.total_time_hours = task.total_time_hours + 1;
                task.total_time_mins = task.total_time_mins % 60;
            }
            task.total_time_hours = task.total_time_hours + time_hours;
            if task.total_time_hours >= 24 {
                task.total_time_days = task.total_time_days + 1;
                task.total_time_hours = task.total_time_hours % 24;
            }
            task.status = IN_PROGRESS;
            self.tasks.insert(i, task);
            proof {
                assert(self.tasks@ =~= before.update(i as int, task));
                assert(task_views(self.tasks@) =~= task_views(before).update(i as int, task@));
                if old(self).wf() {
                    assert forall|a: int| 0 <= a < self.tasks@.len() implies #[trigger] self.tasks@[a].id < self.next_id by {
                        assert(self.tasks@[a].id == before[a].id);
                    }
                    assert forall|a: int, b: int| 0 <= a < b < self.tasks@.len() implies #[trigger] self.tasks@[a].id != #[trigger] self.tasks@[b].id by {
                        assert(self.tasks@[a].id == before[a].id);
                        assert(self.tasks@[b].id == before[b].id);
                    }
                }
            }
        }
    }

    /// Copies of the tasks, in order.
    fn copies(&self) -> (r: Vec<Task>)
        ensures
            task_views(r@) == self.spec_tasks(),
    {
        let mut r: Vec<Task> = Vec::new();
        let mut i: usize = 0;
        while i < self.tasks.len()
            invariant
                i <= self.tasks@.len(),
                task_views(r@) == self.spec_tasks().subrange(0, i as int),
            decreases self.tasks@.len() - i,
        {
            let ghost before = r@;
            r.push(self.tasks[i].duplicate());
            proof {
                assert(task_views(r@) =~= task_views(before).push(self.tasks@[i as int]@));
                assert(self.spec_tasks().subrange(0, i + 1) =~= self.spec_tasks().subrange(
                    0,
                    i as int,
                ).push(self.tasks@[i as int]@));
            }
            i = i + 1;
        }
        proof {
            assert(self.spec_tasks().subrange(0, self.tasks@.len() as int) =~= self.spec_tasks());
        }
        r
    }

    /// Sorts the tasks in place, stably, by title (`sort_by` 1), by priority
    /// (2) or by deadline (3), unfinished tasks first for 2 and 3; any other
    /// value leaves them as they are. Returns copies of the tasks.
    pub fn get_tasks(&mut self, sort_by: u8) -> (r: Vec<Task>)
        ensures
            1 <= sort_by <= 3 ==> is_stable_sort_of(
                old(self).tasks@,
                final(self).tasks@,
                task_order(sort_by),
            ),
            !(1 <= sort_by <= 3) ==> final(self).tasks@ == old(self).tasks@,
            final(self).next_id == old(self).next_id,
            task_views(r@) == final(self).spec_tasks(),
            old(self).wf() ==> final(self).wf(),
    {
        if 1 <= sort_by && sort_by <= 3 {
            let mut tasks: Vec<Task> = Vec::new();
            std::mem::swap(&mut tasks, &mut self.tasks);
            proof {
                lemma_task_orders_are_total_preorders(sort_by);
            }
            let sorted = if sort_by == 1 {
                stable_sort_by(tasks, title_precedes, Ghost(task_order(1)))
            } else if sort_by == 2 {
                stable_sort_by(tasks, priority_precedes, Ghost(task_order(2)))
            } else {
                stable_sort_by(tasks, deadline_precedes, Ghost(task_order(3)))
            };
            self.tasks = sorted;
            proof {
                if old(self).wf() {
                    let p = choose|p: Seq<int>| crate::order::stable_permutation(old(self).tasks@, self.tasks@, p, task_order(sort_by));
                    assert forall|a: int, b: int| 0 <= a < b < self.tasks@.len() implies #[trigger] self.tasks@[a].id != #[trigger] self.tasks@[b].id by {
                        assert(p[a] != p[b]);
                        if p[a] < p[b] {
                            assert(old(self).tasks@[p[a]].id != old(self).tasks@[p[b]].id);
                        } else {
                            assert(old(self).tasks@[p[b]].id != old(self).tasks@[p[a]].id);
                        }
                    }
                    assert forall|a: int| 0 <= a < self.tasks@.len() implies #[trigger] self.tasks@[a].id < self.next_id by {
                        assert(self.tasks@[a] == old(self).tasks@[p[a]]);
                    }
                }
            }
        }
        self.copies()
    }

    /// Removes every task with the id `id`; says whether any was removed.
    pub fn delete_task(&mut self, id: u32) -> (r: bool)
        ensures
            final(self).spec_tasks() == old(self).spec_tasks().filter(|t: TaskView| t.id != id),
            r == has_task(old(self).spec_tasks(), id),
            final(self).next_id == old(self).next_id,
            old(self).wf() ==> final(self).wf(),
    {
        let initial_len = self.tasks.len();
        let mut old_tasks: Vec<Task> = Vec::new();
        std::mem::swap(&mut old_tasks, &mut self.tasks);
        let ghost src = old_tasks@;
        let mut rest = old_tasks;
        let mut kept: Vec<Task> = Vec::new();
        let mut i: usize = 0;
        while i < initial_len
            invariant
                initial_len == src.len(),
                i <= initial_len,
                rest@ == src.subrange(i as int, initial_len as int),
                task_views(kept@) == task_views(src.subrange(0, i as int)).filter(|t: TaskView| t.id != id),
                kept@.len() <= i,
                kept@.len() == i <==> !has_task(task_views(src.subrange(0, i as int)), id),
                forall|a: int| 0 <= a < kept@.len() ==> exists|b: int| 0 <= b < i && #[trigger] kept@[a] == src[b],
                forall|a: int, b: int| 0 <= a < b < kept@.len() ==> exists|c: int, e: int| 0 <= c < e < i && #[trigger] kept@[a] == src[c] && #[trigger] kept@[b] == src[e],
            decreases initial_len - i,
        {
            let t = rest.remove(0);
            let ghost before = kept@;
            let ghost pre = src.subrange(0, i as int);
            let ghost pre1 = src.subrange(0, i + 1);
            proof {
                assert(pre1 =~= pre.push(t));
                assert(task_views(pre1) =~= task_views(pre).push(t@));
                reveal(Seq::filter);
                assert(task_views(pre1).drop_last() =~= task_views(pre));
            }
            if t.id != id {
                kept.push(t);
                proof {
                    assert(task_views(kept@) =~= task_views(before).push(t@));
                    assert forall|a: int| 0 <= a < kept@.len() implies exists|b: int| 0 <= b < i + 1 && #[trigger] kept@[a] == src[b] by {
                        if a == before.len() {
                            assert(kept@[a] == src[i as int]);
                        } else {
                            assert(kept@[a] == before[a]);
                        }
                    }
                    assert forall|a: int, b: int| 0 <= a < b < kept@.len() implies exists|c: int, e: int| 0 <= c < e < i + 1 && #[trigger] kept@[a] == src[c] && #[trigger] kept@[b] == src[e] by {
                        assert(kept@[a] == before[a]);
                        if b == before.len() {
                            let c = choose|c: int| 0 <= c < i && #[trigger] before[a] == src[c];
                            assert(kept@[b] == src[i as int]);
                        } else {
                            assert(kept@[b] == before[b]);
                        }
                    }
                    if has_task(task_views(pre1), id) {
                        let k = choose|k: int| 0 <= k < task_views(pre1).len() && #[trigger] task_views(pre1)[k].id == id;
                        assert(k < i);
                        assert(task_views(pre)[k].id == id);
                    }
                }
            } else {
                proof {
                    assert(task_views(pre1)[i as int].id == id);
                }
            }
            i = i + 1;
        }
        proof {
            assert(src.subrange(0, initial_len as int) =~= src);
        }
        self.tasks = kept;
        proof {
            if old(self).wf() {
                assert forall|a: int| 0 <= a < self.tasks@.len() implies #[trigger] self.tasks@[a].id < self.next_id by {
                    let b = choose|b: int| 0 <= b < initial_len && #[trigger] self.tasks@[a] == src[b];
                    assert(src[b].id < self.next_id);
                }
                assert forall|a: int, b: int| 0 <= a < b < self.tasks@.len() implies #[trigger] self.tasks@[a].id != #[trigger] self.tasks@[b].id by {
                    let (c, e) = choose|c: int, e: int| 0 <= c < e < initial_len && #[trigger] self.tasks@[a] == src[c] && #[trigger] self.tasks@[b] == src[e];
                    assert(src[c].id != src[e].id);
                }
            }
        }
        self.tasks.len() < initial_len
    }
}

} // verus!
