//! A personal organizer: tasks with tracked time, a calendar of events and
//! categorised notes, with the bookkeeping of each stated and proved.

pub mod order;
pub mod tasks;
pub mod text;
pub mod datetime;
pub mod ids;
pub mod calendar;
pub mod ics;
pub mod calendar_view;
pub mod calendar_io;
pub mod notes;
pub mod app_state;
pub mod display;
pub mod laws;
