use planner::display::{clock_text, is_valid_date, month_name, weekday_name};

#[test]
fn month_names_cover_the_year() {
    assert_eq!(month_name(1), "January");
    assert_eq!(month_name(5), "May");
    assert_eq!(month_name(12), "December");
}

#[test]
fn month_name_outside_the_year_is_unknown() {
    assert_eq!(month_name(0), "Unknown");
    assert_eq!(month_name(13), "Unknown");
    assert_eq!(month_name(-3), "Unknown");
}

#[test]
fn weekday_name_of_existing_dates() {
    assert_eq!(weekday_name(2026, 5, 31), "Sun");
    assert_eq!(weekday_name(2026, 6, 1), "Mon");
    assert_eq!(weekday_name(2024, 2, 29), "Thu");
    assert_eq!(weekday_name(2000, 1, 1), "Sat");
}

#[test]
fn weekday_name_of_missing_date_is_that_of_1970() {
    assert_eq!(weekday_name(2026, 2, 30), "Thu");
    assert_eq!(weekday_name(2026, 13, 1), "Thu");
}

#[test]
fn clock_text_pads_to_two_digits() {
    assert_eq!(clock_text(9, 5), "09:05");
    assert_eq!(clock_text(23, 59), "23:59");
    assert_eq!(clock_text(123, 7), "123:07");
}

#[test]
fn valid_dates_are_year_month_day_with_dots() {
    assert!(is_valid_date("2026.05.31"));
    assert!(is_valid_date("2024.02.29"));
    assert!(!is_valid_date("2026.02.30"));
    assert!(!is_valid_date("31.05.2026"));
    assert!(!is_valid_date(""));
}
