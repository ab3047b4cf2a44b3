//! How the window names and writes what it shows: month and weekday names,
//! clock times, and which typed dates it accepts.

use vstd::prelude::*;
use crate::app_state::{two_digit_text, two_digits};
use crate::datetime::{parse_date, parsed_date, weekday_from_sunday, weekday_of, date_exists};

verus! {

/// The English name of month `m`, `Unknown` outside 1 to 12.
pub open spec fn month_name_of(m: int) -> Seq<char> {
    if m == 1 {
        "January"@
    } else if m == 2 {
        "February"@
    } else if m == 3 {
        "March"@
    } else if m == 4 {
        "April"@
    } else if m == 5 {
        "May"@
    } else if m == 6 {
        "June"@
    } else if m == 7 {
        "July"@
    } else if m == 8 {
        "August"@
    } else if m == 9 {
        "September"@
    } else if m == 10 {
        "October"@
    } else if m == 11 {
        "November"@
    } else if m == 12 {
        "December"@
    } else {
        "Unknown"@
    }
}

/// The short name of weekday `w` (0 for Sunday to 6 for Saturday).
pub open spec fn weekday_abbrev(w: int) -> Seq<char> {
    if w == 0 {
        "Sun"@
    } else if w == 1 {
        "Mon"@
    } else if w == 2 {
        "Tue"@
    } else if w == 3 {
        "Wed"@
    } else if w == 4 {
        "Thu"@
    } else if w == 5 {
        "Fri"@
    } else {
        "Sat"@
    }
}

/// The weekday shown for an event on `(year, month, day)`: that of the date
/// when it exists, else that of 1 January 1970, a Thursday.
pub open spec fn shown_weekday(year: u32, month: u8, day: u8) -> Seq<char> {
    let y = (year as i32) as int;
    if date_exists(y, month as int, day as int) {
        weekday_abbrev(weekday_of(y, month as int, day as int))
    } else {
        "Thu"@
    }
}

/// A clock time written `HH:MM` (`{:02}:{:02}`).
pub open spec fn clock(hour: u8, mins: u8) -> Seq<char> {
    two_digits(hour as nat) + ":"@ + two_digits(mins as nat)
}

/// The name of month `month` (see `month_name_of`).
pub fn month_name(month: i32) -> (r: &'static str)
    ensures
        r@ == month_name_of(month as int),
{
    match month {
        1 => "January",
        2 => "February",
        3 => "March",
        4 => "April",
        5 => "May",
        6 => "June",
        7 => "July",
        8 => "August",
        9 => "September",
        10 => "October",
        11 => "November",
        12 => "December",
        _ => "Unknown",
    }
}

/// The short weekday name shown for an event on the date (see
/// `shown_weekday`).
pub fn weekday_name(year: u32, month: u8, day: u8) -> (r: &'static str)
    ensures
        r@ == shown_weekday(year, month, day),
{
    let w = weekday_from_sunday(#[verifier::truncate] (year as i32), month as u32, day as u32);
    match w {
        Some(0) => "Sun",
        Some(1) => "Mon",
        Some(2) => "Tue",
        Some(3) => "Wed",
        Some(4) => "Thu",
        Some(5) => "Fri",
        Some(_) => "Sat",
        None => "Thu",
    }
}

/// The clock time `HH:MM` (see `clock`).
pub fn clock_text(hour: u8, mins: u8) -> (r: String)
    ensures
        r@ == clock(hour, mins),
{
    let mut r = two_digit_text(hour as u64);
    r.append(":");
    r.append(two_digit_text(mins as u64).as_str());
    r
}

/// Whether `chrono` reads a date `YYYY.MM.DD` from `text`.
pub fn is_valid_date(text: &str) -> (r: bool)
    ensures
        r == parsed_date(text@, "%Y.%m.%d"@) is Some,
{
    parse_date(text, "%Y.%m.%d").is_some()
}

} // verus!
