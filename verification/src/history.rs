//! Requests for days, for what was found in them, and for preferences.
use crate::errors::{ApiError, bad_request_of, not_found_of};
use crate::json::{Json, JsonView, json_parsed, lemma_list_view, parse_json};
use crate::models::{Moment, StoredLogEvent};
use crate::requests::str_view;
use crate::text::{byte_len, bytes_in, chars_of, lemma_take_step, trim, trimmed};
use chrono::Datelike;
use vstd::prelude::*;
use vstd::string::*;

verus! {

/// The day that a text names in a format, counted from the first day of the
/// year 1, which is 1; none where it names none.
pub uninterp spec fn day_number(text: Seq<char>, format: Seq<char>) -> Option<i32>;

/// `NaiveDate::parse_from_str` and `num_days_from_ce` of chrono.
#[verifier::external_body]
fn parse_day(text: &str, format: &str) -> (r: Option<i32>)
    ensures
        r == day_number(text@, format@),
{
    chrono::NaiveDate::parse_from_str(text, format).ok().map(|date| date.num_days_from_ce())
}

/// The day that was asked for, or why there is none.
pub fn day_or_error(day: Option<i32>, message: &str) -> (r: Result<i32, ApiError>)
    ensures
        match day {
            Some(n) => r is Ok && r->Ok_0 == n,
            None => r is Err && r->Err_0@ == bad_request_of(message@),
        },
{
    match day {
        Some(n) => Ok(n),
        None => Err(ApiError::bad_request(message)),
    }
}

/// The day that a request for a Daily names.
pub fn requested_day(date: &str) -> (r: Result<i32, ApiError>)
    ensures
        match day_number(date@, "%Y-%m-%d"@) {
            Some(n) => r is Ok && r->Ok_0 == n,
            None => r is Err && r->Err_0@ == bad_request_of("date must use YYYY-MM-DD"@),
        },
{
    day_or_error(parse_day(date, "%Y-%m-%d"), "date must use YYYY-MM-DD")
}

/// The day that a request for a past activity names.
pub fn activity_day(date: &str) -> (r: Result<i32, ApiError>)
    ensures
        match day_number(date@, "%Y-%m-%d"@) {
            Some(n) => r is Ok && r->Ok_0 == n,
            None => r is Err && r->Err_0@ == bad_request_of("Invalid date"@),
        },
{
    day_or_error(parse_day(date, "%Y-%m-%d"), "Invalid date")
}

/// Whether a text is a date.
pub uninterp spec fn is_date(text: Seq<char>) -> bool;

/// `NaiveDate::from_str` of chrono, where it gives a date.
#[verifier::external_body]
fn date_is_valid(text: &str) -> (r: bool)
    ensures
        r == is_date(text@),
{
    text.parse::<chrono::NaiveDate>().is_ok()
}

/// Whether a cursor says where a search goes on: a date and three texts.
pub open spec fn is_cursor(value: JsonView) -> bool {
    match value.items() {
        Some(items) => {
            &&& items.len() == 4
            &&& items[0].text() is Some
            &&& is_date(items[0].text()->0)
            &&& items[1].text() is Some
            &&& items[2].text() is Some
            &&& items[3].text() is Some
        },
        None => false,
    }
}

fn cursor_is_valid(value: &Json) -> (r: bool)
    ensures
        r == is_cursor(value@),
{
    match value.as_list() {
        None => false,
        Some(items) => {
            proof {
                lemma_list_view(items@);
            }
            if items.len() != 4 || items[1].as_text().is_none() || items[2].as_text().is_none()
                || items[3].as_text().is_none() {
                return false;
            }
            match items[0].as_text() {
                Some(date) => date_is_valid(date),
                None => false,
            }
        },
    }
}

/// Whether a search of the history may go on.
pub open spec fn is_history_query(query: Seq<char>, cursor: Option<Seq<char>>) -> bool {
    &&& trimmed(query).len() > 0
    &&& query.len() <= 200
    &&& match cursor {
        Some(text) => byte_len(text) <= 2048 && json_parsed(text) is Some && is_cursor(
            json_parsed(text)->0,
        ),
        None => true,
    }
}

pub fn check_history_query(query: &str, cursor: Option<&str>) -> (r: Result<(), ApiError>)
    ensures
        r is Ok == is_history_query(query@, str_view(cursor)),
        r is Err ==> r->Err_0@ == bad_request_of(
            "Enter 1–200 characters and a valid search cursor"@,
        ),
{
    let size: usize = chars_of(query).len();
    let good_cursor: bool = match cursor {
        None => true,
        Some(text) => bytes_in(text) <= 2048 && match parse_json(text) {
            Ok(value) => cursor_is_valid(&value),
            Err(_) => false,
        },
    };
    if trim(query).as_str().is_empty() || size > 200 || !good_cursor {
        Err(ApiError::bad_request("Enter 1–200 characters and a valid search cursor"))
    } else {
        Ok(())
    }
}

/// Whether that many days may be shown at once.
pub fn check_recent_days(days: usize) -> (r: Result<(), ApiError>)
    ensures
        r is Ok == (days == 7 || days == 10 || days == 14 || days == 30),
        r is Err ==> r->Err_0@ == bad_request_of("Recent days must be 7, 10, 14, or 30"@),
{
    if days == 7 || days == 10 || days == 14 || days == 30 {
        Ok(())
    } else {
        Err(ApiError::bad_request("Recent days must be 7, 10, 14, or 30"))
    }
}

/// Whether a moment lies in a window, which ends before its last moment.
pub open spec fn lies_in(at: Moment, start: Moment, end: Moment) -> bool {
    !at.is_before(start) && at.is_before(end)
}

/// The first of some events that lies in a window.
pub open spec fn first_in_window(events: Seq<StoredLogEvent>, start: Moment, end: Moment) -> Option<
    int,
>
    decreases events.len(),
{
    if events.len() == 0 {
        None
    } else {
        match first_in_window(events.drop_last(), start, end) {
            Some(i) => Some(i),
            None => if lies_in(events.last().timestamp, start, end) {
                Some(events.len() - 1)
            } else {
                None
            },
        }
    }
}

/// The activity that was asked for, where it lies in the window of its day.
pub fn activity_in_window<'a>(events: &'a Vec<StoredLogEvent>, start: &Moment, end: &Moment) -> (r:
    Result<&'a StoredLogEvent, ApiError>)
    ensures
        match first_in_window(events@, *start, *end) {
            Some(i) => r is Ok && *r->Ok_0 == events@[i],
            None => r is Err && r->Err_0@ == not_found_of(
                "This activity is no longer available on this day"@,
            ),
        },
{
    let mut i: usize = 0;
    assert(events@.take(0) =~= Seq::<StoredLogEvent>::empty());
    while i < events.len()
        invariant
            i <= events@.len(),
            first_in_window(events@.take(i as int), *start, *end) is None,
        decreases events@.len() - i,
    {
        proof {
            lemma_take_step(events@, i as int);
        }
        let at: &Moment = &events[i].timestamp;
        if !at.before(start) && at.before(end) {
            proof {
                lemma_first_in_window(events@, *start, *end, i as int);
            }
            return Ok(&events[i]);
        }
        i += 1;
    }
    assert(events@.take(i as int) =~= events@);
    Err(ApiError::not_found("This activity is no longer available on this day"))
}

proof fn lemma_first_in_window(events: Seq<StoredLogEvent>, start: Moment, end: Moment, i: int)
    requires
        0 <= i < events.len(),
        first_in_window(events.take(i + 1), start, end) == Some(i),
    ensures
        first_in_window(events, start, end) == Some(i),
    decreases events.len() - i,
{
    lemma_first_in_prefix(events, start, end, i + 1, i);
}

proof fn lemma_first_in_prefix(
    events: Seq<StoredLogEvent>,
    start: Moment,
    end: Moment,
    n: int,
    i: int,
)
    requires
        0 <= n <= events.len(),
        first_in_window(events.take(n), start, end) == Some(i),
    ensures
        first_in_window(events, start, end) == Some(i),
    decreases events.len() - n,
{
    if n == events.len() {
        assert(events.take(n) =~= events);
    } else {
        lemma_take_step(events, n);
        lemma_first_in_prefix(events, start, end, n + 1, i);
    }
}

} // verus!
