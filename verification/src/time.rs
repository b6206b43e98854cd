//! Instants, and what the calendar says about them.
//!
//! An instant is a whole number of seconds since 1970-01-01T00:00:00Z, always
//! in UTC. Minutes and hours follow from that number by arithmetic; the date a
//! day falls on, the textual RFC 3339 form and its parsing come from `chrono`.
use vstd::prelude::*;

use chrono::{Datelike, DateTime, Utc};

verus! {

/// Instants are kept within this many seconds of 1970, about 260,000 years
/// either way: inside what `chrono` can represent, with room to add a year
/// and a quarter to any of them.
pub const CALENDAR_LIMIT: i64 = 8_210_226_000_000;

/// The widest instant the day arithmetic accepts: the calendar, and a little
/// over a year beyond it, still inside what `chrono` can represent.
pub const REACH_LIMIT: i64 = 8_210_266_000_000;

/// The widest day, counted from 1970-01-01, the calendar is asked about: the
/// day of any instant within reach.
pub const DAY_LIMIT: i64 = 95_026_227;

pub const SECS_PER_MINUTE: i64 = 60;
pub const SECS_PER_HOUR: i64 = 3_600;
pub const SECS_PER_DAY: i64 = 86_400;

/// An instant the calendar functions accept.
pub open spec fn in_calendar(t: int) -> bool {
    -CALENDAR_LIMIT <= t <= CALENDAR_LIMIT
}

/// An instant the day arithmetic below accepts: the calendar, and a little
/// over a year beyond it.
pub open spec fn within_reach(t: int) -> bool {
    -REACH_LIMIT <= t <= REACH_LIMIT
}

/// An instant `chrono` represents: from the first second of year -262143 to
/// the last of year 262142.
pub open spec fn representable(t: int) -> bool {
    -8_334_601_228_800 <= t <= 8_210_266_876_799
}

/// The day an instant falls on, counted from 1970-01-01.
pub open spec fn day_index(t: int) -> int {
    t / 86_400
}

pub open spec fn hour_of(t: int) -> int {
    (t % 86_400) / 3_600
}

pub open spec fn minute_of(t: int) -> int {
    (t % 3_600) / 60
}

/// The start of the minute containing `t`.
pub open spec fn minute_floor(t: int) -> int {
    t - t % 60
}

/// Month (1 to 12), day of the month (1 to 31) and day of the week counted
/// from Sunday (0 to 6) of the `day`-th day after 1970-01-01, in the
/// proleptic Gregorian calendar: the days are counted from 0000-03-01 in
/// eras of 400 years, so that a leap day falls at the end of each year
/// counted from March. 1970-01-01 was a Thursday.
pub open spec fn gregorian_date(day: int) -> (u8, u8, u8) {
    let z = day + 719_468;
    let era = z / 146_097;
    let doe = z - era * 146_097;
    let yoe = (doe - doe / 1_460 + doe / 36_524 - doe / 146_096) / 365;
    let doy = doe - (365 * yoe + yoe / 4 - yoe / 100);
    let mp = (5 * doy + 2) / 153;
    let dom = doy - (153 * mp + 2) / 5 + 1;
    let month = if mp < 10 {
        mp + 3
    } else {
        mp - 9
    };
    (month as u8, dom as u8, ((day + 4) % 7) as u8)
}

/// The date of the `day`-th day after 1970-01-01, as the calendar functions
/// give it: the proleptic Gregorian date (see `lemma_calendar_day`). Kept
/// closed so that proofs about schedules reason about dates without
/// unfolding the arithmetic.
pub closed spec fn calendar_day(day: int) -> (u8, u8, u8) {
    gregorian_date(day)
}

/// The calendar's date of a day is its proleptic Gregorian date.
pub proof fn lemma_calendar_day(day: int)
    ensures
        calendar_day(day) == gregorian_date(day),
{
}

/// The RFC 3339 text `chrono` writes for an instant.
pub uninterp spec fn rfc3339_of(t: int) -> Seq<char>;

/// The instant `chrono` reads from RFC 3339 text, in whole seconds, if it reads one.
pub uninterp spec fn rfc3339_instant(text: Seq<char>) -> Option<int>;

/// The date of an instant, from `DateTime::<Utc>::from_timestamp` and
/// `Datelike::{month, day, weekday}`.
///
/// Claims what `chrono` computes: the proleptic Gregorian date of the day the
/// instant falls on (`calendar_day` of the seconds divided by 86,400, rounded
/// down), whose month lies in 1..=12, day in 1..=31 and
/// `num_days_from_sunday` in 0..=6.
#[verifier::external_body]
fn calendar_of_instant(t: i64) -> (r: (u8, u8, u8))
    requires
        representable(t as int),
    ensures
        r == calendar_day(t as int / 86_400),
        1 <= r.0 <= 12,
        1 <= r.1 <= 31,
        r.2 <= 6,
{
    let at: DateTime<Utc> = DateTime::from_timestamp(t, 0).unwrap();
    (at.month() as u8, at.day() as u8, at.weekday().num_days_from_sunday() as u8)
}

/// The date of a day counted from 1970-01-01: that of the day's first second.
pub fn calendar_of_day(day: i64) -> (r: (u8, u8, u8))
    requires
        -DAY_LIMIT <= day <= DAY_LIMIT,
    ensures
        r == calendar_day(day as int),
        1 <= r.0 <= 12,
        1 <= r.1 <= 31,
        r.2 <= 6,
{
    let first_second = day * SECS_PER_DAY;
    assert(first_second as int / 86_400 == day as int) by (nonlinear_arith)
        requires
            first_second == day * 86_400,
    ;
    calendar_of_instant(first_second)
}

/// `DateTime::<Utc>::to_rfc3339` for an instant; the text itself is left to `chrono`.
#[verifier::external_body]
pub fn rfc3339_text(t: i64) -> (r: String)
    requires
        within_reach(t as int),
    ensures
        r@ == rfc3339_of(t as int),
{
    DateTime::from_timestamp(t, 0).unwrap().to_rfc3339()
}

/// `DateTime::parse_from_rfc3339` followed by `timestamp`.
///
/// RFC 3339 years have four digits, so any instant read lies within the
/// calendar; which instant a text names is left to `chrono`.
#[verifier::external_body]
pub fn parse_rfc3339(text: &str) -> (r: Option<i64>)
    ensures
        r matches Some(t) ==> rfc3339_instant(text@) == Some(t as int) && in_calendar(t as int),
        r is None ==> rfc3339_instant(text@) is None,
{
    match DateTime::parse_from_rfc3339(text) {
        Ok(at) => Some(at.timestamp()),
        Err(_) => None,
    }
}

/// The start of the minute containing `t`.
pub fn floor_minute(t: i64) -> (r: i64)
    requires
        within_reach(t as int),
    ensures
        r == minute_floor(t as int),
{
    let m = t % 60;
    if m < 0 {
        t - (m + 60)
    } else {
        t - m
    }
}

/// The day containing `t`, counted from 1970-01-01.
pub fn day_of(t: i64) -> (r: i64)
    requires
        within_reach(t as int),
    ensures
        r == day_index(t as int),
        -DAY_LIMIT <= r <= DAY_LIMIT,
{
    let d = t / 86_400;
    if t % 86_400 < 0 {
        d - 1
    } else {
        d
    }
}

/// The hour (0 to 23) of `t`.
pub fn hour_in_day(t: i64) -> (r: i64)
    requires
        within_reach(t as int),
    ensures
        r == hour_of(t as int),
        0 <= r < 24,
{
    let m = t % 86_400;
    let m = if m < 0 {
        m + 86_400
    } else {
        m
    };
    m / 3_600
}

/// The minute (0 to 59) of `t`.
pub fn minute_in_hour(t: i64) -> (r: i64)
    requires
        within_reach(t as int),
    ensures
        r == minute_of(t as int),
        0 <= r < 60,
{
    let m = t % 3_600;
    let m = if m < 0 {
        m + 3_600
    } else {
        m
    };
    m / 60
}

} // verus!
