//! The day and the time of day in a workspace's own timezone.
use crate::errors::{ApiError, bad_request_of, internal_of};
use crate::history::day_or_error;
use crate::models::Moment;
use chrono::{Datelike, Offset, TimeZone, Timelike};
use vstd::prelude::*;
use vstd::string::*;

verus! {

/// The first day that the calendar holds, counted from the first day of the
/// year 1, which is 1: January 1 of the year -262143.
pub const FIRST_DAY: i32 = -95746129;

/// The last day that the calendar holds: December 31 of the year 262142.
pub const LAST_DAY: i32 = 95745399;

/// The day that it is at a moment in a timezone, counted from the first day of
/// the year 1, which is 1; none where the timezone is not known, and none for a
/// moment or a day outside the calendar.
pub uninterp spec fn local_day(seconds: i64, nanos: u32, timezone: Seq<char>) -> Option<i32>;

/// `Tz::from_str` and `offset_from_utc_datetime` of chrono-tz, and of chrono
/// `DateTime::from_timestamp`, `checked_add_offset` and `num_days_from_ce`: the
/// day is a function of the moment and of the timezone's name alone, read from
/// the table of timezones that chrono-tz was built with.
#[verifier::external_body]
fn day_in_timezone(seconds: i64, nanos: u32, timezone: &str) -> (r: Option<i32>)
    ensures
        r == local_day(seconds, nanos, timezone@),
{
    let zone: chrono_tz::Tz = timezone.parse().ok()?;
    let moment = chrono::DateTime::from_timestamp(seconds, nanos)?.naive_utc();
    let offset = zone.offset_from_utc_datetime(&moment).fix();
    moment.checked_add_offset(offset).map(|local| local.num_days_from_ce())
}

/// The hour and the minute that a text names in a format; none where it names no
/// time of day.
pub uninterp spec fn clock_time(text: Seq<char>, format: Seq<char>) -> Option<(u32, u32)>;

/// `NaiveTime::parse_from_str` of chrono, and the `hour` and `minute` of what it
/// read.
#[verifier::external_body]
fn parse_time(text: &str, format: &str) -> (r: Option<(u32, u32)>)
    ensures
        r == clock_time(text@, format@),
{
    chrono::NaiveTime::parse_from_str(text, format).ok().map(|time| (time.hour(), time.minute()))
}

/// What a round of the schedule goes by: the day that it is in the workspace,
/// and the time of day at which the day before is prepared.
#[derive(Debug, Clone, Copy, PartialEq, Eq, Structural)]
pub struct ScheduleClock {
    pub today: i32,
    pub hour: u32,
    pub minute: u32,
}

/// The clock for a day and a time, or the error for the first that is missing.
pub fn clock_of(today: Option<i32>, time: Option<(u32, u32)>) -> (r: Result<ScheduleClock, ApiError>)
    ensures
        match (today, time) {
            (None, _) => r is Err && r->Err_0@ == internal_of(
                "saved workspace timezone is invalid"@,
            ),
            (Some(_), None) => r is Err && r->Err_0@ == internal_of(
                "saved generation time is invalid"@,
            ),
            (Some(day), Some((hour, minute))) => r == Ok::<ScheduleClock, ApiError>(
                (ScheduleClock { today: day, hour, minute }),
            ),
        },
{
    match today {
        None => Err(ApiError::internal("saved workspace timezone is invalid")),
        Some(today) => match time {
            None => Err(ApiError::internal("saved generation time is invalid")),
            Some((hour, minute)) => Ok(ScheduleClock { today, hour, minute }),
        },
    }
}

/// The clock of a workspace at a moment. `generation_time` is the time of day at
/// which a day's candidate is prepared, such as `06:30`.
pub fn schedule_clock(now: &Moment, timezone: &str, generation_time: &str) -> (r: Result<
    ScheduleClock,
    ApiError,
>)
    ensures
        match (
            local_day(now.seconds, now.nanos, timezone@),
            clock_time(generation_time@, "%H:%M"@),
        ) {
            (None, _) => r is Err && r->Err_0@ == internal_of(
                "saved workspace timezone is invalid"@,
            ),
            (Some(_), None) => r is Err && r->Err_0@ == internal_of(
                "saved generation time is invalid"@,
            ),
            (Some(day), Some((hour, minute))) => r == Ok::<ScheduleClock, ApiError>(
                (ScheduleClock { today: day, hour, minute }),
            ),
        },
{
    clock_of(
        day_in_timezone(now.seconds, now.nanos, timezone),
        parse_time(generation_time, "%H:%M"),
    )
}

/// A day that the schedule looks at, and the day on which it falls due.
#[derive(Debug, Clone, Copy, PartialEq, Eq, Structural)]
pub struct ScheduledDay {
    pub day: i32,
    pub due_day: i32,
}

impl ScheduleClock {
    /// The day so many days ago. It falls due on the day after it.
    pub fn scheduled_day(&self, days_ago: u16) -> (r: Result<ScheduledDay, ApiError>)
        ensures
            ({
                let day = self.today - days_ago;
                if day < FIRST_DAY || day > LAST_DAY {
                    r is Err && r->Err_0@ == internal_of(
                        "catch-up date is outside the supported range"@,
                    )
                } else if day == LAST_DAY {
                    r is Err && r->Err_0@ == internal_of("scheduled date has no following day"@)
                } else {
                    r is Ok && r->Ok_0.day == day && r->Ok_0.due_day == day + 1
                }
            }),
    {
        let day: i64 = self.today as i64 - days_ago as i64;
        if day < FIRST_DAY as i64 || day > LAST_DAY as i64 {
            return Err(ApiError::internal("catch-up date is outside the supported range"));
        }
        let day: i32 = day as i32;
        if day == LAST_DAY {
            return Err(ApiError::internal("scheduled date has no following day"));
        }
        Ok(ScheduledDay { day, due_day: day + 1 })
    }
}

/// The day that the overview counts from, or why there is none.
pub fn today_or_error(today: Option<i32>) -> (r: Result<i32, ApiError>)
    ensures
        match today {
            Some(day) => r is Ok && r->Ok_0 == day,
            None => r is Err && r->Err_0@ == internal_of(
                "the saved workspace timezone is invalid"@,
            ),
        },
{
    match today {
        Some(day) => Ok(day),
        None => Err(ApiError::internal("the saved workspace timezone is invalid")),
    }
}

/// Today in the timezone of the workspace, as the overview of the days needs it.
pub fn overview_today(now: &Moment, timezone: &str) -> (r: Result<i32, ApiError>)
    ensures
        match local_day(now.seconds, now.nanos, timezone@) {
            Some(day) => r is Ok && r->Ok_0 == day,
            None => r is Err && r->Err_0@ == internal_of(
                "the saved workspace timezone is invalid"@,
            ),
        },
{
    today_or_error(day_in_timezone(now.seconds, now.nanos, timezone))
}

/// The days that the overview goes through, today first.
pub fn overview_days(today: i32, count: usize) -> (r: Vec<i32>)
    requires
        today - count >= FIRST_DAY,
    ensures
        r@ == Seq::new(count as nat, |i: int| (today - i) as i32),
{
    let mut days: Vec<i32> = Vec::new();
    let mut i: usize = 0;
    let mut day: i32 = today;
    while i < count
        invariant
            i <= count,
            today - count >= FIRST_DAY,
            day == today - i,
            days@ =~= Seq::new(i as nat, |i: int| (today - i) as i32),
        decreases count - i,
    {
        days.push(day);
        day = day - 1;
        i += 1;
    }
    days
}

/// Today in a timezone that is to be saved; the timezone has to be known.
pub fn example_day(now: &Moment, timezone: &str) -> (r: Result<i32, ApiError>)
    ensures
        match local_day(now.seconds, now.nanos, timezone@) {
            Some(day) => r is Ok && r->Ok_0 == day,
            None => r is Err && r->Err_0@ == bad_request_of("timezone must be a valid IANA name"@),
        },
{
    day_or_error(
        day_in_timezone(now.seconds, now.nanos, timezone),
        "timezone must be a valid IANA name",
    )
}

} // verus!
