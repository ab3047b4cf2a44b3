use planner::datetime::{day_before, format_moment, parse_moment, weekday_from_sunday, Moment};
use planner::ids::uuid_text;
use planner::order::str_le;
use planner::text::{contains, decimal_text, pad_left_text, remove_char, slice_bytes};

#[test]
fn test_decimal_and_padding() {
    assert_eq!(decimal_text(0), "0");
    assert_eq!(decimal_text(2026), "2026");
    assert_eq!(pad_left_text(decimal_text(5), 2, "0"), "05");
    assert_eq!(pad_left_text(decimal_text(123), 2, "0"), "123");
    assert_eq!(pad_left_text(decimal_text(7), 4, " "), "   7");
}

#[test]
fn test_remove_char_and_contains() {
    assert_eq!(remove_char("20260525T100000Z", 'Z'), "20260525T100000");
    assert_eq!(remove_char("ZaZ", 'Z'), "a");
    assert!(contains("25.05.2026 10:00", "05.2026"));
    assert!(!contains("25.05.2026 10:00", "06.2026"));
    assert!(contains("abc", ""));
    assert!(!contains("ab", "abc"));
}

#[test]
fn test_slice_bytes() {
    assert_eq!(slice_bytes("20260525T100000", 0, 8), Some("20260525".to_string()));
    assert_eq!(slice_bytes("20260525T100000", 9, 15), Some("100000".to_string()));
    assert_eq!(slice_bytes("2026", 0, 8), None);
    assert_eq!(slice_bytes("é", 0, 1), None);
    assert_eq!(slice_bytes("é", 0, 2), Some("é".to_string()));
}

#[test]
fn test_str_le_is_byte_order() {
    assert!(str_le("Apple", "apple"));
    assert!(!str_le("b", "a"));
    assert!(str_le("ab", "abc"));
    assert!(str_le("z", "é"));
}

#[test]
fn test_uuid_text() {
    assert_eq!(uuid_text(0), "00000000-0000-0000-0000-000000000000");
    assert_eq!(
        uuid_text(0x0123456789abcdef0123456789abcdef),
        "01234567-89ab-cdef-0123-456789abcdef"
    );
}

#[test]
fn test_chrono_services() {
    assert_eq!(weekday_from_sunday(2026, 5, 1), Some(5));
    assert_eq!(weekday_from_sunday(2026, 2, 30), None);
    assert_eq!(day_before(2026, 3, 1), Some(28));
    assert_eq!(day_before(2024, 3, 1), Some(29));
    assert_eq!(day_before(2026, 1, 1), Some(31));
    let m = Moment { year: 2026, month: 5, day: 25, hour: 15, minute: 4, second: 0 };
    assert_eq!(format_moment(m, "%d.%m.%Y %H:%M"), Some("25.05.2026 15:04".to_string()));
    assert_eq!(parse_moment("25.05.2026 15:04", "%d.%m.%Y %H:%M"), Some(m));
    assert_eq!(parse_moment("25.05.2026", "%d.%m.%Y %H:%M"), None);
    let bad = Moment { year: 2026, month: 2, day: 30, hour: 0, minute: 0, second: 0 };
    assert_eq!(format_moment(bad, "%Y"), None);
}

#[test]
fn test_utc_stamp() {
    assert_eq!(planner::app_state::utc_stamp(Some(Moment::new(2026, 5, 25, 10, 30, 0))).as_deref(), Some("20260525T103000Z"));
    assert_eq!(planner::app_state::utc_stamp(Some(Moment::new(1999, 12, 31, 23, 59, 59))).as_deref(), Some("19991231T235959Z"));
    assert_eq!(planner::app_state::utc_stamp(None), None);
}

#[test]
fn test_utc_to_local_and_back_stay_within_a_day() {
    let m = Moment::new(2026, 5, 25, 12, 0, 0);
    let local = planner::datetime::utc_to_local(m).unwrap();
    let back = planner::datetime::local_to_utc(local);
    assert!(local.year == 2026 && local.month == 5 && (24..=26).contains(&local.day));
    if let Some(b) = back {
        assert!(b.year == 2026 && b.month == 5 && (24..=26).contains(&b.day));
    }
    assert_eq!(planner::datetime::local_to_utc(Moment::new(2026, 2, 30, 0, 0, 0)), None);
}

#[test]
fn test_format_patterns_give_padded_fields() {
    let m = Moment::new(2026, 5, 25, 9, 5, 7);
    assert_eq!(format_moment(m, "%d.%m.%Y %H:%M").as_deref(), Some("25.05.2026 09:05"));
    assert_eq!(format_moment(m, "%Y%m%dT%H%M%S").as_deref(), Some("20260525T090507"));
    assert_eq!(format_moment(m, "%Y%m%dT%H%M%SZ").as_deref(), Some("20260525T090507Z"));
    assert_eq!(format_moment(Moment::new(999, 1, 2, 3, 4, 5), "%d.%m.%Y %H:%M").as_deref(), Some("02.01.0999 03:04"));
    assert_eq!(format_moment(Moment::new(10000, 1, 2, 3, 4, 5), "%d.%m.%Y %H:%M").as_deref(), Some("02.01.+10000 03:04"));
    assert_eq!(format_moment(Moment::new(-1, 1, 2, 3, 4, 5), "%Y%m%dT%H%M%S").as_deref(), Some("-00010102T030405"));
    assert_eq!(planner::datetime::format_date(m, "%d.%m.%Y").as_deref(), Some("25.05.2026"));
}

#[test]
fn test_parse_reads_back_the_dotted_form() {
    assert_eq!(parse_moment("25.05.2026 09:05", "%d.%m.%Y %H:%M"), Some(Moment::new(2026, 5, 25, 9, 5, 0)));
    assert_eq!(parse_moment("25.05.2026", "%d.%m.%Y %H:%M"), None);
}
