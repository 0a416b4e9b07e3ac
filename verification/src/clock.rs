//! UTC calendar times, checked and converted by `chrono`.
//!
//! The agent logs timestamps without a year; the triage code needs calendar
//! validity (is there a 02-29 this year?) and the distance between two times
//! in seconds. Both come from `chrono`; the library holds the calendar fields
//! as plain integers together with chrono's Unix timestamp for them.

use vstd::prelude::*;
use crate::num::{decimal, push_decimal};
use crate::text::push_char;

verus! {

/// Earliest year chrono's `NaiveDate` represents.
pub const MIN_YEAR: i32 = -262143;

/// Latest year chrono's `NaiveDate` represents.
pub const MAX_YEAR: i32 = 262142;

/// Unix timestamp of `-262143-01-01 00:00:00`, chrono's earliest date-time.
pub const EARLIEST_UTC_SECONDS: i64 = -8334601228800;

/// Unix timestamp of `262142-12-31 23:59:59`, chrono's latest whole second.
pub const LATEST_UTC_SECONDS: i64 = 8210266876799;

/// Gregorian leap year (proleptic, so year 0 and negative years count).
pub open spec fn is_leap(year: int) -> bool {
    year % 4 == 0 && (year % 100 != 0 || year % 400 == 0)
}

/// Days in a month of the Gregorian calendar.
pub open spec fn days_in_month(year: int, month: int) -> int {
    if month == 2 {
        if is_leap(year) {
            29
        } else {
            28
        }
    } else if month == 4 || month == 6 || month == 9 || month == 11 {
        30
    } else {
        31
    }
}

/// A calendar date and time of day that chrono accepts
/// (`NaiveDate::from_ymd_opt` then `and_hms_opt`).
pub open spec fn valid_civil(year: int, month: int, day: int, hour: int, minute: int, second: int) -> bool {
    &&& MIN_YEAR <= year <= MAX_YEAR
    &&& 1 <= month <= 12
    &&& 1 <= day <= days_in_month(year, month)
    &&& 0 <= hour < 24
    &&& 0 <= minute < 60
    &&& 0 <= second < 60
}

/// Days from 1970-01-01 to a date of the proleptic Gregorian calendar
/// (negative before it): the civil-from-days count over 400-year eras, with
/// years starting in March so that the leap day comes last.
pub open spec fn days_from_civil(year: int, month: int, day: int) -> int {
    let y = if month <= 2 {
        year - 1
    } else {
        year
    };
    let era = y / 400;
    let yoe = y - era * 400;
    let mp = if month > 2 {
        month - 3
    } else {
        month + 9
    };
    let doy = (153 * mp + 2) / 5 + day - 1;
    let doe = yoe * 365 + yoe / 4 - yoe / 100 + doy;
    era * 146097 + doe - 719468
}

/// chrono's Unix timestamp (`NaiveDateTime::and_utc().timestamp()`) for a
/// valid calendar date-time: the non-leap seconds since 1970-01-01 00:00:00.
#[verifier::opaque]
pub open spec fn utc_seconds(year: i32, month: u32, day: u32, hour: u32, minute: u32, second: u32) -> i64 {
    (days_from_civil(year as int, month as int, day as int) * 86400 + hour * 3600 + minute * 60
        + second) as i64
}

/// `NaiveDate::from_ymd_opt(year, month, day)`, then `and_hms_opt(hour,
/// minute, second)`, then `and_utc().timestamp()`, the number of non-leap
/// seconds since the Unix epoch. chrono documents that
/// `from_ymd_opt` refuses days that do not exist, invalid months and days,
/// and years out of its range, and `and_hms_opt` refuses hours >= 24,
/// minutes >= 60 and seconds >= 60; the timestamp of a date-time in range
/// lies between those of chrono's first and last date-times.
#[verifier::external_body]
fn chrono_timestamp(year: i32, month: u32, day: u32, hour: u32, minute: u32, second: u32) -> (r:
    Option<i64>)
    ensures
        r is Some <==> valid_civil(
            year as int,
            month as int,
            day as int,
            hour as int,
            minute as int,
            second as int,
        ),
        r matches Some(t) ==> t == utc_seconds(year, month, day, hour, minute, second)
            && EARLIEST_UTC_SECONDS <= t <= LATEST_UTC_SECONDS,
{
    match chrono::NaiveDate::from_ymd_opt(year, month, day) {
        Some(date) => match date.and_hms_opt(hour, minute, second) {
            Some(dt) => Some(dt.and_utc().timestamp()),
            None => None,
        },
        None => None,
    }
}

/// A UTC date and time to the second, valid for chrono, with its Unix
/// timestamp.
#[derive(Debug, Clone, Copy, PartialEq, Eq)]
pub struct UtcStamp {
    year: i32,
    month: u32,
    day: u32,
    hour: u32,
    minute: u32,
    second: u32,
    secs: i64,
}

impl UtcStamp {
    /// Fields are a valid calendar date-time and `secs` is its timestamp.
    pub closed spec fn wf(&self) -> bool {
        &&& valid_civil(
            self.year as int,
            self.month as int,
            self.day as int,
            self.hour as int,
            self.minute as int,
            self.second as int,
        )
        &&& self.secs == utc_seconds(
            self.year,
            self.month,
            self.day,
            self.hour,
            self.minute,
            self.second,
        )
        &&& EARLIEST_UTC_SECONDS <= self.secs <= LATEST_UTC_SECONDS
    }

    /// The calendar fields `(year, month, day, hour, minute, second)`.
    pub closed spec fn fields(&self) -> (i32, u32, u32, u32, u32, u32) {
        (self.year, self.month, self.day, self.hour, self.minute, self.second)
    }

    /// The Unix timestamp.
    pub closed spec fn spec_secs(&self) -> i64 {
        self.secs
    }

    /// What well-formedness says about the fields and the timestamp.
    pub proof fn lemma_wf(&self)
        requires
            self.wf(),
        ensures
            valid_civil(
                self.fields().0 as int,
                self.fields().1 as int,
                self.fields().2 as int,
                self.fields().3 as int,
                self.fields().4 as int,
                self.fields().5 as int,
            ),
            self.spec_secs() == utc_seconds(
                self.fields().0,
                self.fields().1,
                self.fields().2,
                self.fields().3,
                self.fields().4,
                self.fields().5,
            ),
            EARLIEST_UTC_SECONDS <= self.spec_secs() <= LATEST_UTC_SECONDS,
    {
    }

    /// The stamp for a calendar date-time, or `None` when chrono refuses it.
    pub fn new(year: i32, month: u32, day: u32, hour: u32, minute: u32, second: u32) -> (r: Option<
        UtcStamp,
    >)
        ensures
            r is Some <==> valid_civil(
                year as int,
                month as int,
                day as int,
                hour as int,
                minute as int,
                second as int,
            ),
            r matches Some(st) ==> st.wf() && st.fields() == (year, month, day, hour, minute, second),
    {
        match chrono_timestamp(year, month, day, hour, minute, second) {
            Some(secs) => Some(UtcStamp { year, month, day, hour, minute, second, secs }),
            None => None,
        }
    }

    /// The year.
    pub fn year(&self) -> (r: i32)
        ensures
            r == self.fields().0,
    {
        self.year
    }

    /// The month, 1..=12.
    pub fn month(&self) -> (r: u32)
        ensures
            r == self.fields().1,
    {
        self.month
    }

    /// The day of the month.
    pub fn day(&self) -> (r: u32)
        ensures
            r == self.fields().2,
    {
        self.day
    }

    /// The hour, 0..=23.
    pub fn hour(&self) -> (r: u32)
        ensures
            r == self.fields().3,
    {
        self.hour
    }

    /// The minute, 0..=59.
    pub fn minute(&self) -> (r: u32)
        ensures
            r == self.fields().4,
    {
        self.minute
    }

    /// The second, 0..=59.
    pub fn second(&self) -> (r: u32)
        ensures
            r == self.fields().5,
    {
        self.second
    }

    /// The Unix timestamp.
    pub fn seconds(&self) -> (r: i64)
        ensures
            r == self.spec_secs(),
    {
        self.secs
    }

    /// `MM-DD HH:MM:SS`, the agent's own timestamp layout
    /// (chrono format `%m-%d %H:%M:%S`).
    pub fn short_text(&self) -> (r: String)
        requires
            self.wf(),
        ensures
            r@ == short_text_spec(
                self.fields().1,
                self.fields().2,
                self.fields().3,
                self.fields().4,
                self.fields().5,
            ),
    {
        let mut s = String::new();
        push_two_digits(&mut s, self.month);
        push_char(&mut s, '-');
        push_two_digits(&mut s, self.day);
        push_char(&mut s, ' ');
        push_two_digits(&mut s, self.hour);
        push_char(&mut s, ':');
        push_two_digits(&mut s, self.minute);
        push_char(&mut s, ':');
        push_two_digits(&mut s, self.second);
        s
    }

    /// `YYYY-MM-DD HH:MM:SS UTC` (chrono format `%Y-%m-%d %H:%M:%S UTC`).
    pub fn report_text(&self) -> (r: String)
        requires
            self.wf(),
        ensures
            r@ == report_text_spec(self.fields()),
    {
        let mut s = String::new();
        push_year(&mut s, self.year);
        push_char(&mut s, '-');
        push_two_digits(&mut s, self.month);
        push_char(&mut s, '-');
        push_two_digits(&mut s, self.day);
        push_char(&mut s, ' ');
        push_two_digits(&mut s, self.hour);
        push_char(&mut s, ':');
        push_two_digits(&mut s, self.minute);
        push_char(&mut s, ':');
        push_two_digits(&mut s, self.second);
        push_char(&mut s, ' ');
        push_char(&mut s, 'U');
        push_char(&mut s, 'T');
        push_char(&mut s, 'C');
        s
    }

    /// `YYYYMMDD-HHMMSSZ` (chrono format `%Y%m%d-%H%M%SZ`).
    pub fn compact_text(&self) -> (r: String)
        requires
            self.wf(),
        ensures
            r@ == compact_text_spec(self.fields()),
    {
        let mut s = String::new();
        push_year(&mut s, self.year);
        push_two_digits(&mut s, self.month);
        push_two_digits(&mut s, self.day);
        push_char(&mut s, '-');
        push_two_digits(&mut s, self.hour);
        push_two_digits(&mut s, self.minute);
        push_two_digits(&mut s, self.second);
        push_char(&mut s, 'Z');
        s
    }
}

/// A number below 10000 as exactly four digits, zero-padded.
pub open spec fn four_digits(n: nat) -> Seq<char> {
    seq![
        crate::num::digit_char((n / 1000) as int),
        crate::num::digit_char(((n / 100) % 10) as int),
        crate::num::digit_char(((n / 10) % 10) as int),
        crate::num::digit_char((n % 10) as int),
    ]
}

/// A year as chrono's `%Y` writes it: four digits for 0..=9999, else with
/// its sign and at least four digits.
pub open spec fn year_text(y: int) -> Seq<char> {
    if 0 <= y <= 9999 {
        four_digits(y as nat)
    } else if y > 9999 {
        seq!['+'] + decimal(y as nat)
    } else if -y <= 9999 {
        seq!['-'] + four_digits((-y) as nat)
    } else {
        seq!['-'] + decimal((-y) as nat)
    }
}

/// `YYYY-MM-DD HH:MM:SS UTC`.
pub open spec fn report_text_spec(f: (i32, u32, u32, u32, u32, u32)) -> Seq<char> {
    year_text(f.0 as int) + seq!['-'] + two_digits(f.1 as nat) + seq!['-'] + two_digits(f.2 as nat)
        + seq![' '] + two_digits(f.3 as nat) + seq![':'] + two_digits(f.4 as nat) + seq![':']
        + two_digits(f.5 as nat) + seq![' ', 'U', 'T', 'C']
}

/// `YYYYMMDD-HHMMSSZ`.
pub open spec fn compact_text_spec(f: (i32, u32, u32, u32, u32, u32)) -> Seq<char> {
    year_text(f.0 as int) + two_digits(f.1 as nat) + two_digits(f.2 as nat) + seq!['-']
        + two_digits(f.3 as nat) + two_digits(f.4 as nat) + two_digits(f.5 as nat) + seq!['Z']
}

fn push_four_digits(s: &mut String, n: u32)
    requires
        n < 10000,
    ensures
        final(s)@ == old(s)@ + four_digits(n as nat),
{
    push_char(s, (((n / 1000) as u8) + 48u8) as char);
    push_char(s, ((((n / 100) % 10) as u8) + 48u8) as char);
    push_char(s, ((((n / 10) % 10) as u8) + 48u8) as char);
    push_char(s, (((n % 10) as u8) + 48u8) as char);
    assert(final(s)@ =~= old(s)@ + four_digits(n as nat));
}

fn push_year(s: &mut String, y: i32)
    requires
        MIN_YEAR <= y <= MAX_YEAR,
    ensures
        final(s)@ == old(s)@ + year_text(y as int),
{
    if 0 <= y && y <= 9999 {
        push_four_digits(s, y as u32);
    } else if y > 9999 {
        push_char(s, '+');
        push_decimal(s, y as u64);
        assert(final(s)@ =~= old(s)@ + year_text(y as int));
    } else {
        push_char(s, '-');
        let m = (0 - (y as i64)) as u64;
        if m <= 9999 {
            push_four_digits(s, m as u32);
        } else {
            push_decimal(s, m);
        }
        assert(final(s)@ =~= old(s)@ + year_text(y as int));
    }
}

/// A number below 100 as exactly two digits, zero-padded.
pub open spec fn two_digits(n: nat) -> Seq<char> {
    seq![crate::num::digit_char((n / 10) as int), crate::num::digit_char((n % 10) as int)]
}

/// `MM-DD HH:MM:SS`.
pub open spec fn short_text_spec(month: u32, day: u32, hour: u32, minute: u32, second: u32) -> Seq<
    char,
> {
    two_digits(month as nat) + seq!['-'] + two_digits(day as nat) + seq![' '] + two_digits(
        hour as nat,
    ) + seq![':'] + two_digits(minute as nat) + seq![':'] + two_digits(second as nat)
}

fn push_two_digits(s: &mut String, n: u32)
    requires
        n < 100,
    ensures
        final(s)@ == old(s)@ + two_digits(n as nat),
{
    push_char(s, (((n / 10) as u8) + 48u8) as char);
    push_char(s, (((n % 10) as u8) + 48u8) as char);
    assert(final(s)@ =~= old(s)@ + two_digits(n as nat));
}

} // verus!
