//! Calendar arithmetic and the date-time services of `chrono` that the
//! calendar uses, over plain date-time values.

use vstd::prelude::*;
use chrono::{Datelike, TimeZone, Timelike};
use std::fmt::Write;
use crate::text::{decimal, pad_left};

verus! {

/// The earliest year a `chrono` date can have.
pub const MIN_YEAR: i32 = -262143;

/// The latest year a `chrono` date can have.
pub const MAX_YEAR: i32 = 262142;

/// A date and a time of day, in the proleptic Gregorian calendar.
#[derive(Clone, Copy, Debug, PartialEq, Eq, Structural)]
pub struct Moment {
    pub year: i32,
    pub month: u32,
    pub day: u32,
    pub hour: u32,
    pub minute: u32,
    pub second: u32,
}

impl Moment {
    /// The moment with the given fields.
    pub fn new(year: i32, month: u32, day: u32, hour: u32, minute: u32, second: u32) -> (r: Moment)
        ensures
            r == (Moment { year, month, day, hour, minute, second }),
    {
        Moment { year, month, day, hour, minute, second }
    }
}

pub open spec fn is_leap_year(y: int) -> bool {
    (y % 4 == 0 && y % 100 != 0) || y % 400 == 0
}

/// Number of days of month `m` (1 to 12) of year `y`.
pub open spec fn days_in_month(y: int, m: int) -> int {
    if m == 2 {
        if is_leap_year(y) {
            29
        } else {
            28
        }
    } else if m == 4 || m == 6 || m == 9 || m == 11 {
        30
    } else {
        31
    }
}

/// The day exists, and `chrono` can represent it.
pub open spec fn date_exists(y: int, m: int, d: int) -> bool {
    &&& MIN_YEAR <= y <= MAX_YEAR
    &&& 1 <= m <= 12
    &&& 1 <= d <= days_in_month(y, m)
}

/// The moment is a real date and time of day that `chrono` can represent.
pub open spec fn valid_moment(m: Moment) -> bool {
    &&& date_exists(m.year as int, m.month as int, m.day as int)
    &&& m.hour < 24
    &&& m.minute < 60
    &&& m.second < 60
}

/// Day of the week of a date, 0 for Sunday to 6 for Saturday.
pub open spec fn weekday_of(y: int, m: int, d: int) -> int {
    let t = if m == 1 {
        0int
    } else if m == 2 {
        3int
    } else if m == 3 {
        2int
    } else if m == 4 {
        5int
    } else if m == 5 {
        0int
    } else if m == 6 {
        3int
    } else if m == 7 {
        5int
    } else if m == 8 {
        1int
    } else if m == 9 {
        4int
    } else if m == 10 {
        6int
    } else if m == 11 {
        2int
    } else {
        4int
    };
    let yy = if m < 3 {
        y - 1
    } else {
        y
    };
    (yy + yy / 4 - yy / 100 + yy / 400 + t + d) % 7
}

/// The number of days from 1 January 1970 to the date `(y, m, d)`.
pub open spec fn days_from_epoch(y: int, m: int, d: int) -> int {
    let yy = if m <= 2 { y - 1 } else { y };
    let era = yy / 400;
    let yoe = yy - era * 400;
    let mp = (m + 9) % 12;
    let doy = (153 * mp + 2) / 5 + d - 1;
    let doe = yoe * 365 + yoe / 4 - yoe / 100 + doy;
    era * 146097 + doe - 719468
}

/// The moment as seconds since 1970-01-01 00:00:00.
pub open spec fn epoch_seconds(m: Moment) -> int {
    days_from_epoch(m.year as int, m.month as int, m.day as int) * 86400 + m.hour * 3600 + m.minute * 60
        + m.second
}

/// The two moments are less than a day apart: one is the other shifted by
/// a UTC offset, which `chrono` keeps below a day.
pub open spec fn within_a_day(a: Moment, b: Moment) -> bool {
    -86400 < epoch_seconds(a) - epoch_seconds(b) < 86400
}

/// The year lies strictly inside `chrono`'s range, so that shifting a moment
/// of it by less than a day stays representable.
pub open spec fn inner_year(y: i32) -> bool {
    MIN_YEAR < y < MAX_YEAR
}

/// The day before `(y, m, d)`.
pub open spec fn previous_day(y: int, m: int, d: int) -> (int, int, int) {
    if d > 1 {
        (y, m, d - 1)
    } else if m > 1 {
        (y, m - 1, days_in_month(y, m - 1))
    } else {
        (y - 1, 12, 31)
    }
}

/// The day before `(y, m, d)` exists and `chrono` can represent it.
pub open spec fn previous_day_exists(y: int, m: int, d: int) -> bool {
    let p = previous_day(y, m, d);
    date_exists(p.0, p.1, p.2)
}

/// The day `(y, m, d)` and the day before it both exist.
pub open spec fn date_and_previous_exist(y: int, m: int, d: int) -> bool {
    date_exists(y, m, d) && previous_day_exists(y, m, d)
}

/// The day of the month of the day before `(y, m, d)`.
pub open spec fn day_of_previous_day(y: int, m: int, d: int) -> int {
    previous_day(y, m, d).2
}

/// The day of the week (0 for Sunday) of the date, if the date exists.
#[verifier::external_body]
pub fn weekday_from_sunday(y: i32, m: u32, d: u32) -> (r: Option<u32>)
    ensures
        r is Some <==> date_exists(y as int, m as int, d as int),
        r matches Some(w) ==> w == weekday_of(y as int, m as int, d as int),
{
    match chrono::NaiveDate::from_ymd_opt(y, m, d) {
        Some(date) => Some(date.weekday().num_days_from_sunday()),
        None => None,
    }
}

/// The day of the month of the day before the date, if both days exist.
#[verifier::external_body]
pub fn day_before(y: i32, m: u32, d: u32) -> (r: Option<u32>)
    ensures
        r is Some <==> date_and_previous_exist(y as int, m as int, d as int),
        r matches Some(x) ==> x == day_of_previous_day(y as int, m as int, d as int),
{
    match chrono::NaiveDate::from_ymd_opt(y, m, d) {
        Some(date) => date.checked_sub_signed(chrono::Duration::days(1)).map(|p| p.day()),
        None => None,
    }
}

/// What `chrono` writes for the date and time `m` under the strftime
/// `pattern`, or `None` where the pattern cannot be rendered.
pub uninterp spec fn moment_text(m: Moment, pattern: Seq<char>) -> Option<Seq<char>>;

/// What `chrono` writes for the date of `m` under the strftime `pattern`,
/// or `None` where the pattern cannot be rendered.
pub uninterp spec fn date_text(year: i32, month: u32, day: u32, pattern: Seq<char>) -> Option<Seq<char>>;

/// The date and time that `chrono` reads from `s` under the strftime
/// `pattern`, if it reads one.
pub uninterp spec fn parsed_moment(s: Seq<char>, pattern: Seq<char>) -> Option<Moment>;

/// `n` with at least two digits, zero-padded (`%d`, `%m`, `%H`, `%M`, `%S`).
pub open spec fn two_digit(n: nat) -> Seq<char> {
    pad_left(decimal(n), 2, '0')
}

/// A year as `%Y` writes it: the years 0 to 9999 with four digits,
/// zero-padded; other years with their sign and at least four digits.
pub open spec fn year_text(y: int) -> Seq<char> {
    if 0 <= y <= 9999 {
        pad_left(decimal(y as nat), 4, '0')
    } else if y < 0 {
        "-"@ + pad_left(decimal((-y) as nat), 4, '0')
    } else {
        "+"@ + pad_left(decimal(y as nat), 4, '0')
    }
}

/// The date written `dd.mm.YYYY` (`%d.%m.%Y`).
pub open spec fn dotted_date(y: i32, m: u32, d: u32) -> Seq<char> {
    two_digit(d as nat) + "."@ + two_digit(m as nat) + "."@ + year_text(y as int)
}

/// The moment written `dd.mm.YYYY HH:MM` (`%d.%m.%Y %H:%M`).
pub open spec fn dotted_moment(m: Moment) -> Seq<char> {
    dotted_date(m.year, m.month, m.day) + " "@ + two_digit(m.hour as nat) + ":"@ + two_digit(m.minute as nat)
}

/// The moment written `YYYYMMDDTHHMMSS` (`%Y%m%dT%H%M%S`).
pub open spec fn compact_moment(m: Moment) -> Seq<char> {
    year_text(m.year as int) + two_digit(m.month as nat) + two_digit(m.day as nat) + "T"@
        + two_digit(m.hour as nat) + two_digit(m.minute as nat) + two_digit(m.second as nat)
}

/// What `chrono` writes for a moment under the patterns the organizer
/// uses; `None` for other patterns, of which nothing is stated here.
pub open spec fn known_text(m: Moment, pattern: Seq<char>) -> Option<Seq<char>> {
    if pattern == "%d.%m.%Y %H:%M"@ {
        Some(dotted_moment(m))
    } else if pattern == "%Y%m%dT%H%M%S"@ {
        Some(compact_moment(m))
    } else if pattern == "%Y%m%dT%H%M%SZ"@ {
        Some(compact_moment(m) + "Z"@)
    } else {
        None
    }
}

/// The organizer's date-time patterns are different texts.
pub proof fn lemma_patterns_differ()
    ensures
        "%Y%m%dT%H%M%SZ"@ != "%d.%m.%Y %H:%M"@,
        "%Y%m%dT%H%M%S"@ != "%d.%m.%Y %H:%M"@,
        "%Y%m%dT%H%M%SZ"@ != "%Y%m%dT%H%M%S"@,
{
    reveal_strlit("%Y%m%dT%H%M%SZ");
    reveal_strlit("%Y%m%dT%H%M%S");
    reveal_strlit("%d.%m.%Y %H:%M");
    assert("%Y%m%dT%H%M%SZ"@[1] != "%d.%m.%Y %H:%M"@[1]);
    assert("%Y%m%dT%H%M%S"@[1] != "%d.%m.%Y %H:%M"@[1]);
    assert("%Y%m%dT%H%M%SZ"@.len() != "%Y%m%dT%H%M%S"@.len());
}

/// The date-time patterns the organizer writes with: they hold only the
/// specifiers `%Y %m %d %H %M %S` and plain characters, so `chrono` renders
/// them for every real date and time.
pub open spec fn plain_pattern(p: Seq<char>) -> bool {
    p == "%Y%m%dT%H%M%S"@ || p == "%Y%m%dT%H%M%SZ"@ || p == "%d.%m.%Y %H:%M"@
}

/// The date pattern the organizer writes with (`%d.%m.%Y`), which `chrono`
/// renders for every real date.
pub open spec fn plain_date_pattern(p: Seq<char>) -> bool {
    p == "%d.%m.%Y"@
}

/// `m` written by `chrono::NaiveDateTime::format` with `pattern`.
#[verifier::external_body]
pub fn format_moment(m: Moment, pattern: &str) -> (r: Option<String>)
    ensures
        valid_moment(m) ==> match r {
            Some(t) => moment_text(m, pattern@) == Some(t@),
            None => moment_text(m, pattern@) is None,
        },
        !valid_moment(m) ==> r is None,
        valid_moment(m) && plain_pattern(pattern@) ==> r is Some,
        valid_moment(m) && known_text(m, pattern@) is Some ==> crate::tasks::opt_text(r) == known_text(
            m,
            pattern@,
        ),
{
    let dt = chrono::NaiveDate::from_ymd_opt(m.year, m.month, m.day)?.and_hms_opt(m.hour, m.minute, m.second)?;
    let mut out = String::new();
    write!(out, "{}", dt.format(pattern)).ok()?;
    Some(out)
}

/// The date of `m` written by `chrono::NaiveDate::format` with `pattern`.
#[verifier::external_body]
pub fn format_date(m: Moment, pattern: &str) -> (r: Option<String>)
    ensures
        date_exists(m.year as int, m.month as int, m.day as int) ==> match r {
            Some(t) => date_text(m.year, m.month, m.day, pattern@) == Some(t@),
            None => date_text(m.year, m.month, m.day, pattern@) is None,
        },
        !date_exists(m.year as int, m.month as int, m.day as int) ==> r is None,
        date_exists(m.year as int, m.month as int, m.day as int) && plain_date_pattern(pattern@) ==> r is Some,
        date_exists(m.year as int, m.month as int, m.day as int) && pattern@ == "%d.%m.%Y"@
            ==> crate::tasks::opt_text(r) == Some(dotted_date(m.year, m.month, m.day)),
{
    let date = chrono::NaiveDate::from_ymd_opt(m.year, m.month, m.day)?;
    let mut out = String::new();
    write!(out, "{}", date.format(pattern)).ok()?;
    Some(out)
}

/// The date and time that `chrono::NaiveDateTime::parse_from_str` reads
/// from `s` with `pattern`.
#[verifier::external_body]
pub fn parse_moment(s: &str, pattern: &str) -> (r: Option<Moment>)
    ensures
        r == parsed_moment(s@, pattern@),
        r matches Some(x) ==> valid_moment(x),
        forall|m: Moment|
            #![trigger dotted_moment(m)]
            valid_moment(m) && 0 <= m.year <= 9999 && s@ == dotted_moment(m) && pattern@
                == "%d.%m.%Y %H:%M"@ ==> r == Some(Moment { second: 0, ..m }),
        forall|y: i32, mo: u32, d: u32|
            #![trigger dotted_date(y, mo, d)]
            s@ == dotted_date(y, mo, d) && pattern@ == "%d.%m.%Y %H:%M"@ ==> r is None,
{
    let dt = chrono::NaiveDateTime::parse_from_str(s, pattern).ok()?;
    Some(Moment::new(dt.year(), dt.month(), dt.day(), dt.hour(), dt.minute(), dt.second()))
}

/// The date `(year, month, day)` that `chrono` reads from `s` under the
/// strftime `pattern`, if it reads one.
pub uninterp spec fn parsed_date(s: Seq<char>, pattern: Seq<char>) -> Option<(i32, u32, u32)>;

/// The date that `chrono::NaiveDate::parse_from_str` reads from `s` with
/// `pattern`.
#[verifier::external_body]
pub fn parse_date(s: &str, pattern: &str) -> (r: Option<(i32, u32, u32)>)
    ensures
        r == parsed_date(s@, pattern@),
        r matches Some(d) ==> date_exists(d.0 as int, d.1 as int, d.2 as int),
{
    let date = chrono::NaiveDate::parse_from_str(s, pattern).ok()?;
    Some((date.year(), date.month(), date.day()))
}

/// The wall-clock time on this machine at the UTC moment `m`: `m` shifted
/// by the machine's UTC offset there (`Utc` to `Local` with
/// `with_timezone`, then `checked_add_offset`). The offset is below a day,
/// so the time exists whenever the year of `m` lies inside `chrono`'s
/// range; which offset applies depends on the machine's time zone.
#[verifier::external_body]
pub fn utc_to_local(m: Moment) -> (r: Option<Moment>)
    ensures
        valid_moment(m) && inner_year(m.year) ==> r is Some,
        r matches Some(x) ==> valid_moment(x),
        r matches Some(x) ==> within_a_day(x, m),
{
    let naive = chrono::NaiveDate::from_ymd_opt(m.year, m.month, m.day)?.and_hms_opt(m.hour, m.minute, m.second)?;
    let local = chrono::Utc.from_utc_datetime(&naive).with_timezone(&chrono::Local);
    let dt = naive.checked_add_offset(*local.offset())?;
    Some(Moment::new(dt.year(), dt.month(), dt.day(), dt.hour(), dt.minute(), dt.second()))
}

/// The UTC moment at which this machine's clock shows `m`, when it shows
/// it exactly once: `m` shifted back by the machine's UTC offset, which is
/// below a day. `None` when the wall-clock time is skipped or repeated
/// there; both depend on the machine's time zone.
#[verifier::external_body]
pub fn local_to_utc(m: Moment) -> (r: Option<Moment>)
    ensures
        r matches Some(x) ==> valid_moment(x),
        r matches Some(x) ==> within_a_day(x, m),
        !valid_moment(m) ==> r is None,
{
    let naive = chrono::NaiveDate::from_ymd_opt(m.year, m.month, m.day)?.and_hms_opt(m.hour, m.minute, m.second)?;
    let dt = chrono::Local.from_local_datetime(&naive).single()?.naive_utc();
    Some(Moment::new(dt.year(), dt.month(), dt.day(), dt.hour(), dt.minute(), dt.second()))
}

/// Today's year and month on this machine's clock.
#[verifier::external_body]
pub fn current_year_month() -> (r: (i32, u32))
    ensures
        1 <= r.1 <= 12,
{
    let today = chrono::Local::now().date_naive();
    (today.year(), today.month())
}

} // verus!
