use icalendar::{Component, EventLike};
use planner::calendar::CalendarController;

#[test]
fn test_event_sorting() {
    let mut controller = CalendarController::new();
    // Add events out of order
    controller.add_event("Late".to_string(), "20260525T150000".to_string(), "20260525T160000".to_string());
    controller.add_event("Early".to_string(), "20260525T080000".to_string(), "20260525T090000".to_string());

    let (events, _) = controller.get_calendar_data(5, 2026);

    // Check if "Early" comes before "Late"
    assert_eq!(events[0].title, "Early");
    assert_eq!(events[1].title, "Late");
}

use planner::app_state::AppState;
use planner::calendar::{CalendarEvent, DateTimeValue};

fn plain(text: &str) -> Option<DateTimeValue> {
    Some(DateTimeValue { text: text.to_string(), tzid: None, date_only: false })
}

fn begin_text(c: &CalendarController, i: usize) -> String {
    c.events[i].begin.as_ref().unwrap().text.clone()
}

fn end_text(c: &CalendarController, i: usize) -> String {
    c.events[i].end.as_ref().unwrap().text.clone()
}

#[test]
fn test_uid_is_a_hyphenated_uuid() {
    let mut c = CalendarController::new();
    let uid = c.add_event("T".to_string(), "20260525T100000".to_string(), "20260525T110000".to_string());
    assert_eq!(uid.len(), 36);
    for (i, ch) in uid.chars().enumerate() {
        if i == 8 || i == 13 || i == 18 || i == 23 {
            assert_eq!(ch, '-');
        } else {
            assert!(ch.is_ascii_hexdigit() && !ch.is_ascii_uppercase());
        }
    }
    assert_eq!(c.events[0].uid.as_deref(), Some(uid.as_str()));
}

#[test]
fn test_change_event_new_date_moves_both_times() {
    let mut c = CalendarController::new();
    let uid = c.add_event("Meeting".to_string(), "20260525T100000".to_string(), "20260525T110000".to_string());
    assert!(c.change_event(&uid, Some("Renamed".to_string()), Some("20260601".to_string()), Some("090000".to_string()), None));
    assert_eq!(c.events[0].title.as_deref(), Some("Renamed"));
    assert_eq!(begin_text(&c, 0), "20260601T090000");
    assert_eq!(end_text(&c, 0), "20260601T000000");
}

#[test]
fn test_change_event_new_times_keep_date() {
    let mut c = CalendarController::new();
    let uid = c.add_event("M".to_string(), "20260525T100000Z".to_string(), "20260525T110000Z".to_string());
    assert!(c.change_event(&uid, None, None, Some("120000".to_string()), Some("130000".to_string())));
    assert_eq!(begin_text(&c, 0), "20260525T120000");
    assert_eq!(end_text(&c, 0), "20260525T130000");
    assert_eq!(c.events[0].title.as_deref(), Some("M"));
}

#[test]
fn test_change_event_end_not_after_old_start() {
    let mut c = CalendarController::new();
    let uid = c.add_event("M".to_string(), "20260525T100000".to_string(), "20260525T110000".to_string());
    // the new end is not later than the old start time: the end takes the new start
    assert!(c.change_event(&uid, None, None, Some("070000".to_string()), Some("080000".to_string())));
    assert_eq!(begin_text(&c, 0), "20260525T070000");
    assert_eq!(end_text(&c, 0), "20260525T070000");
    // without a new start the old end stays
    assert!(c.change_event(&uid, None, None, None, Some("060000".to_string())));
    assert_eq!(end_text(&c, 0), "20260525T070000");
}

#[test]
fn test_change_event_missing_times_use_defaults() {
    let mut c = CalendarController::new();
    c.events.push(CalendarEvent { uid: Some("x".to_string()), title: None, begin: None, end: None });
    assert!(c.change_event("x", None, None, None, None));
    assert_eq!(begin_text(&c, 0), "20260101T000000");
    assert_eq!(end_text(&c, 0), "20260101T235900");
}

#[test]
fn test_change_event_short_start_uses_default_date() {
    let mut c = CalendarController::new();
    c.events.push(CalendarEvent { uid: Some("x".to_string()), title: None, begin: plain("2026"), end: plain("e") });
    assert!(c.change_event("x", None, None, Some("101010".to_string()), None));
    assert_eq!(begin_text(&c, 0), "20260101T101010");
    assert_eq!(end_text(&c, 0), "e");
}

#[test]
fn test_change_event_unknown_uid() {
    let mut c = CalendarController::new();
    c.add_event("A".to_string(), "20260525T100000".to_string(), "20260525T110000".to_string());
    assert!(!c.change_event("nope", Some("B".to_string()), None, None, None));
    assert_eq!(c.events[0].title.as_deref(), Some("A"));
}

#[test]
fn test_delete_event() {
    let mut c = CalendarController::new();
    let a = c.add_event("A".to_string(), "20260525T100000".to_string(), "20260525T110000".to_string());
    c.add_event("B".to_string(), "20260525T100000".to_string(), "20260525T110000".to_string());
    c.delete_event(&a);
    assert_eq!(c.events.len(), 1);
    assert_eq!(c.events[0].title.as_deref(), Some("B"));
    c.delete_event("unknown");
    assert_eq!(c.events.len(), 1);
}

#[test]
fn test_grid_generation() {
    let controller = CalendarController::new();
    // May 2026: 1st is a Friday (index 5)
    let (_, grid) = controller.get_calendar_data(5, 2026);

    // 1st of May should be at row 0, col 5
    let first = grid.iter().find(|d| d.day_of_month == 1).unwrap();
    assert_eq!(first.row_idx, 0);
    assert_eq!(first.col_idx, 5);

    // 31st of May should be at row 4, col 0
    let last = grid.iter().find(|d| d.day_of_month == 31).unwrap();
    assert_eq!(last.row_idx, 4);
    assert_eq!(last.col_idx, 0);
}

#[test]
fn test_grid_of_may_2026_shares_the_last_cell() {
    let controller = CalendarController::new();
    let (_, grid) = controller.get_calendar_data(5, 2026);
    assert_eq!(grid.len(), 31);
    let d24 = grid.iter().find(|d| d.day_of_month == 24).unwrap();
    assert_eq!((d24.row_idx, d24.col_idx), (4, 0));
    let d30 = grid.iter().find(|d| d.day_of_month == 30).unwrap();
    assert_eq!((d30.row_idx, d30.col_idx), (4, 6));
    // February 2026 starts on a Sunday and fits in four rows
    let (_, feb) = controller.get_calendar_data(2, 2026);
    assert_eq!((feb[27].row_idx, feb[27].col_idx), (3, 6));
}

#[test]
fn test_grid_lengths() {
    let controller = CalendarController::new();
    assert_eq!(controller.get_calendar_data(2, 2024).1.len(), 29);
    assert_eq!(controller.get_calendar_data(2, 2100).1.len(), 28);
    assert_eq!(controller.get_calendar_data(12, 2025).1.len(), 31);
    assert_eq!(controller.get_calendar_data(4, 2026).1.len(), 30);
}

#[test]
fn test_grid_marks_event_days() {
    let mut c = CalendarController::new();
    c.add_event("A".to_string(), "20260507T100000".to_string(), "20260507T110000".to_string());
    c.add_event("B".to_string(), "20260607T100000".to_string(), "20260607T110000".to_string());
    let (events, grid) = c.get_calendar_data(5, 2026);
    assert_eq!(events.len(), 1);
    assert_eq!(events[0].title, "A");
    assert_eq!(events[0].day, 7);
    assert_eq!(events[0].month, 5);
    assert_eq!(events[0].year, 2026);
    assert_eq!((events[0].begin_hour, events[0].begin_mins, events[0].end_hour, events[0].end_mins), (10, 0, 11, 0));
    for cell in &grid {
        assert_eq!(cell.has_event, cell.day_of_month == 7);
    }
}

#[test]
fn test_month_listing_skips_unreadable_and_date_only() {
    let mut c = CalendarController::new();
    c.events.push(CalendarEvent { uid: None, title: None, begin: plain("20260510T083000"), end: None });
    c.events.push(CalendarEvent { uid: Some("d".to_string()), title: Some("Day".to_string()), begin: plain("20260511"), end: plain("20260512") });
    c.events.push(CalendarEvent { uid: Some("g".to_string()), title: Some("Garbage".to_string()), begin: plain("soon"), end: plain("later") });
    c.events.push(CalendarEvent { uid: None, title: None, begin: plain("20260512T083000"), end: plain("20260512T093000") });
    let listed = c.get_month(5, 2026);
    assert_eq!(listed.len(), 1);
    assert_eq!(listed[0].uid, "");
    assert_eq!(listed[0].title, "No name");
    assert_eq!(listed[0].day, 12);
}

#[test]
fn test_import_calendar() {
    let text = "BEGIN:VCALENDAR\r\nVERSION:2.0\r\nBEGIN:VEVENT\r\nUID:abc\r\nSUMMARY:Lunch\r\nDTSTART:20260525T120000\r\nDTEND:20260525T130000\r\nEND:VEVENT\r\nBEGIN:VEVENT\r\nUID:day\r\nSUMMARY:Holiday\r\nDTSTART;VALUE=DATE:20260526\r\nEND:VEVENT\r\nEND:VCALENDAR\r\n";
    let mut c = CalendarController::new();
    assert!(c.import_calendar(text).is_ok());
    assert_eq!(c.events.len(), 2);
    assert_eq!(c.events[0].uid.as_deref(), Some("abc"));
    assert_eq!(c.events[0].title.as_deref(), Some("Lunch"));
    assert_eq!(begin_text(&c, 0), "20260525T120000");
    // a whole day becomes its midnight as a floating time
    assert_eq!(begin_text(&c, 1), "20260526T000000");
    assert!(!c.events[1].begin.as_ref().unwrap().date_only);
    let listed = c.get_month(5, 2026);
    assert_eq!(listed.len(), 1);
    assert_eq!(listed[0].begin_hour, 12);
}

#[test]
fn test_import_calendar_error_keeps_events() {
    let mut c = CalendarController::new();
    c.add_event("Keep".to_string(), "20260525T100000".to_string(), "20260525T110000".to_string());
    let r = c.import_calendar("BEGIN:VCALENDAR\r\nBEGIN:VEVENT\r\n");
    assert!(r.unwrap_err().starts_with("Parsing error: "));
    assert_eq!(c.events.len(), 1);
}

#[test]
fn test_export_calendar() {
    let mut c = CalendarController::new();
    c.add_event("Party".to_string(), "20260525T180000".to_string(), "20260525T230000".to_string());
    let text = c.export_calendar().unwrap();
    assert!(text.contains("BEGIN:VCALENDAR"));
    assert!(text.contains("SUMMARY:Party"));
    assert!(text.contains("DTSTART:"));
    let mut back = CalendarController::new();
    assert!(back.import_calendar(&text).is_ok());
    assert_eq!(back.events.len(), 1);
    assert_eq!(back.events[0].title.as_deref(), Some("Party"));
    assert_eq!(back.events[0].uid, c.events[0].uid);
}

#[test]
fn test_app_add_and_change_event() {
    let mut app = AppState::new();
    let uid = app.add_event("Dentist", 5, 6, 2026, 9, 5, 9, 45);
    assert_eq!(begin_text(&app.calendar_controller, 0), "20260605T090500");
    assert_eq!(end_text(&app.calendar_controller, 0), "20260605T094500");
    assert!(app.change_event(&uid, Some(String::new()), Some(7), Some(6), Some(2026), Some(8), Some(0), None, None));
    assert_eq!(app.calendar_controller.events[0].title.as_deref(), Some("Dentist"));
    assert_eq!(begin_text(&app.calendar_controller, 0), "20260607T080000");
    assert_eq!(end_text(&app.calendar_controller, 0), "20260607T000000");
    assert!(app.delete_event(&uid));
    assert_eq!(app.calendar_controller.events.len(), 0);
}

#[test]
fn test_app_add_event_pads_short_year_with_spaces() {
    let mut app = AppState::new();
    app.add_event("Old", 1, 2, 999, 3, 4, 5, 6);
    assert_eq!(begin_text(&app.calendar_controller, 0), " 9990201T030400");
}

#[test]
fn test_app_get_events_rejects_bad_and_past_months() {
    let app = AppState::new();
    let (e, g) = app.get_events(13, 2030);
    assert!(e.is_empty() && g.is_empty());
    let (e, g) = app.get_events(0, 2030);
    assert!(e.is_empty() && g.is_empty());
    let (e, g) = app.get_events(5, 2000);
    assert!(e.is_empty() && g.is_empty());
    let (_, g) = app.events_for(5, 2026, 2026, 4);
    assert_eq!(g.len(), 31);
    let (_, g) = app.events_for(3, 2026, 2026, 4);
    assert!(g.is_empty());
}

#[test]
fn test_app_make_date_is_a_utc_stamp() {
    let app = AppState::new();
    let stamp = app.make_date(2026, 5, 25, 10, 30).unwrap();
    assert_eq!(stamp.len(), 16);
    assert!(stamp.ends_with('Z'));
    assert_eq!(&stamp[8..9], "T");
}

#[test]
fn test_change_event() {
    let mut controller = CalendarController::new();

    // 1. Add an event and capture the UID
    let uid = controller.add_event(
        "Original Title".to_string(),
        "20260525T100000".to_string(),
        "20260525T110000".to_string(),
    );

    // 2. Attempt to change it: new title, and the new begin 20260525T120000
    //    given as its date and its time
    let success = controller.change_event(
        &uid,
        Some("Updated Title".to_string()),
        Some("20260525".to_string()),
        Some("120000".to_string()),
        None,
    );

    // 3. Verify success
    assert!(success, "change_event should return true for existing UID");

    // 4. Verify the change by re-fetching the month data
    let (events, _) = controller.get_calendar_data(5, 2026);
    let updated_event = events.iter().find(|e| e.uid == uid).unwrap();

    assert_eq!(updated_event.title, "Updated Title");
    assert_eq!(updated_event.begin_hour, 12);
}

#[test]
fn test_change_event_title_and_begin_shown_in_month() {
    let mut controller = CalendarController::new();
    let uid = controller.add_event(
        "Original Title".to_string(),
        "20260525T100000".to_string(),
        "20260525T110000".to_string(),
    );
    let success = controller.change_event(
        &uid,
        Some("Updated Title".to_string()),
        Some("20260525".to_string()),
        Some("120000".to_string()),
        Some("130000".to_string()),
    );
    assert!(success, "change_event should return true for existing UID");
    let (events, _) = controller.get_calendar_data(5, 2026);
    let updated_event = events.iter().find(|e| e.uid == uid).unwrap();
    assert_eq!(updated_event.title, "Updated Title");
    assert_eq!(updated_event.begin_hour, 12);
    assert_eq!(updated_event.end_hour, 13);
}

#[test]
fn test_exported_calendar_components() {
    let mut c = CalendarController::new();
    c.events.push(CalendarEvent { uid: Some("u1".to_string()), title: Some("Talk".to_string()), begin: plain("20260525T100000"), end: plain("later") });
    c.events.push(CalendarEvent { uid: None, title: None, begin: None, end: None });
    let cal = c.exported_calendar().unwrap();
    assert_eq!(cal.components.len(), 2);
    let first = cal.components[0].as_event().unwrap();
    assert_eq!(first.get_uid(), Some("u1"));
    assert_eq!(first.get_summary(), Some("Talk"));
    let start = first.property_value("DTSTART").unwrap();
    assert_eq!(start.len(), 16);
    assert!(start.ends_with('Z'));
    assert!(first.get_end().is_none());
    assert!(first.property_value("DTEND").is_none());
    let second = cal.components[1].as_event().unwrap();
    assert_eq!(second.get_uid(), None);
    assert_eq!(second.get_summary(), None);
    assert!(second.get_start().is_none());
}

#[test]
fn test_export_without_readable_times_succeeds() {
    let mut c = CalendarController::new();
    c.events.push(CalendarEvent { uid: Some("x".to_string()), title: Some("Someday".to_string()), begin: plain("soon"), end: None });
    let text = c.export_calendar().unwrap();
    assert!(text.contains("UID:x"));
    assert!(text.contains("SUMMARY:Someday"));
    assert!(!text.contains("DTSTART"));
}

#[test]
fn test_export_text_is_a_calendar_document() {
    let mut c = CalendarController::new();
    c.add_event("Party".to_string(), "20260525T180000".to_string(), "20260525T230000".to_string());
    let text = c.export_calendar().unwrap();
    assert!(text.starts_with("BEGIN:VCALENDAR\r\n"));
    assert!(text.ends_with("END:VCALENDAR\r\n"));
    assert_eq!(text.matches("BEGIN:VEVENT").count(), 1);
}

#[test]
fn test_import_utc_event_succeeds() {
    let text = "BEGIN:VCALENDAR\r\nVERSION:2.0\r\nBEGIN:VEVENT\r\nUID:u\r\nSUMMARY:Call\r\nDTSTART:20260525T120000Z\r\nDTEND:20260525T130000Z\r\nEND:VEVENT\r\nEND:VCALENDAR\r\n";
    let mut c = CalendarController::new();
    assert!(c.import_calendar(text).is_ok());
    assert_eq!(c.events.len(), 1);
    assert_eq!(begin_text(&c, 0).len(), 15);
    assert!(c.events[0].begin.as_ref().unwrap().tzid.is_none());
}

#[test]
fn test_month_listing_keeps_to_its_month() {
    let mut c = CalendarController::new();
    c.add_event("Jan".to_string(), "20260105T100000".to_string(), "20260105T110000".to_string());
    c.add_event("May".to_string(), "20260520T100000".to_string(), "20260520T110000".to_string());
    c.add_event("May 2025".to_string(), "20250520T100000".to_string(), "20250520T110000".to_string());
    let listed = c.get_month(5, 2026);
    assert_eq!(listed.len(), 1);
    assert_eq!(listed[0].title, "May");
    assert!(listed.iter().all(|u| u.month == 5 && u.year == 2026));
    assert!(c.get_month(1, 2026).iter().all(|u| u.month == 1 && u.year == 2026));
    assert_eq!(c.get_month(1, 2026).len(), 1);
}

#[test]
fn test_functions_given_machine_answers() {
    let mut c = CalendarController::new();
    c.events.push(CalendarEvent { uid: Some("u".to_string()), title: Some("Call".to_string()), begin: plain("20260525T120000Z"), end: plain("20260525T130000Z") });
    // with the local time 14:00 given for the UTC start
    let locals = vec![(Some(planner::datetime::Moment::new(2026, 5, 25, 14, 0, 0)), Some(planner::datetime::Moment::new(2026, 5, 25, 15, 0, 0)))];
    let listed = c.month_events_with(5, 2026, &locals);
    assert_eq!(listed.len(), 1);
    assert_eq!(listed[0].begin_hour, 14);
    assert_eq!(listed[0].end_hour, 15);
    let (sorted, grid) = c.calendar_data_with(5, 2026, &locals);
    assert_eq!(sorted.len(), 1);
    assert!(grid[24].has_event);
    // without an answer the UTC start cannot be read in
    let copy = vec![CalendarEvent { uid: None, title: None, begin: plain("20260525T120000Z"), end: None }];
    assert!(planner::calendar_io::floating_events_with(copy, &vec![(None, None)]).is_none());
    let copy = vec![CalendarEvent { uid: None, title: None, begin: plain("20260525T120000Z"), end: None }];
    let read = planner::calendar_io::floating_events_with(copy, &vec![(Some(planner::datetime::Moment::new(2026, 5, 25, 14, 0, 0)), None)]).unwrap();
    assert_eq!(read[0].begin.as_ref().unwrap().text, "20260525T140000");
    // the UTC moments given are written as they are
    let cal = c.exported_calendar_with(&vec![(Some(planner::datetime::Moment::new(2026, 5, 25, 12, 0, 0)), Some(planner::datetime::Moment::new(2026, 5, 25, 13, 0, 0)))]).unwrap();
    assert_eq!(cal.components[0].as_event().unwrap().property_value("DTSTART"), Some("20260525T120000Z"));
    assert!(c.exported_calendar_with(&vec![(None, None)]).is_err());
}
