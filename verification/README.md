# planner

A personal organizer: tasks with tracked time, a calendar of events kept as
iCalendar, and notes sorted into categories. The library is written in Verus;
each operation states what it does in its `requires` / `ensures`, and Verus
proves it. Where an answer rests on the clock, on random ids or on this
machine's time zone, the contract states what holds of every answer.

- `src/tasks.rs`: tasks, their ids, time tracking and stable sorting.
- `src/calendar.rs`, `src/calendar_view.rs`: events, rescheduling, the month
  listing and the month grid.
- `src/calendar_io.rs`, `src/ics.rs`: reading and writing iCalendar text
  through the `icalendar` crate.
- `src/datetime.rs`, `src/ids.rs`, `src/text.rs`, `src/order.rs`: calendar
  arithmetic and `chrono` services, UUIDs, string building, orders and a
  verified stable sort.
- `src/notes.rs`: notes and categories.
- `src/app_state.rs`, `src/display.rs`: the operations the user interface
  calls and how it names and writes what it shows.
- `src/laws.rs`: properties that relate several operations.
- `app/`: the program, which keeps the data in a folder (JSON and `.ics`
  files) and prints the tasks, this month's events and the notes.
