//! The time-window calculator: turns the selected mode into an absolute
//! `[since, until)` range of unix timestamps. The civil-calendar arithmetic
//! (month starts, the previous month, the year rollover) is computed and
//! verified here; only the resolution of a local civil midnight to an
//! instant is left to the timezone library.

use vstd::prelude::*;
use vstd::string::StringExecFns;
use crate::numfmt::{i64_to_string, spec_idec};
use crate::options::{day_mode, ScanFlags};

verus! {

/// The injected "now": the current instant together with its local civil
/// date, so that window calculations are a pure function of this value.
#[derive(Clone, Copy, Debug)]
pub struct LocalStamp {
    /// Seconds since the unix epoch.
    pub ts: i64,
    /// Local calendar year.
    pub year: i32,
    /// Local calendar month, 1 to 12.
    pub month: u32,
    /// Local calendar day of month, 1 to 31.
    pub day: u32,
}

/// A civil date as a triple (year, month, day).
pub open spec fn civil_le(a: (int, int, int), b: (int, int, int)) -> bool {
    a.0 < b.0 || (a.0 == b.0 && (a.1 < b.1 || (a.1 == b.1 && a.2 <= b.2)))
}

pub open spec fn civil_lt(a: (int, int, int), b: (int, int, int)) -> bool {
    civil_le(a, b) && a != b
}

/// The month before (y, m), rolling January back to December of the
/// previous year.
pub open spec fn spec_prev_month(y: int, m: int) -> (int, int) {
    if m <= 1 {
        (y - 1, 12)
    } else {
        (y, m - 1)
    }
}

/// The civil date whose local midnight opens the "today" window.
pub open spec fn spec_day_start_civil(now: LocalStamp) -> (int, int, int) {
    (now.year as int, now.month as int, now.day as int)
}

/// The civil date whose local midnight opens the "this month" window.
pub open spec fn spec_month_start_civil(now: LocalStamp) -> (int, int, int) {
    (now.year as int, now.month as int, 1)
}

/// The civil date whose local midnight opens the "last month" window.
pub open spec fn spec_last_month_start_civil(now: LocalStamp) -> (int, int, int) {
    (spec_prev_month(now.year as int, now.month as int).0,
     spec_prev_month(now.year as int, now.month as int).1,
     1)
}

/// The civil date whose local midnight closes the "last month" window
/// (exclusive). It is the very date that opens the "this month" window.
pub open spec fn spec_last_month_end_civil(now: LocalStamp) -> (int, int, int) {
    spec_month_start_civil(now)
}

/// `v` clamped to the representable range of `i64`.
pub open spec fn clamp_i64(v: int) -> int {
    if v > i64::MAX {
        i64::MAX as int
    } else if v < i64::MIN {
        i64::MIN as int
    } else {
        v
    }
}

/// The opening instant of the day-count window: `days` days of seconds
/// before `now`, with both the multiplication and the subtraction
/// saturating at the ends of the `i64` range.
pub open spec fn spec_days_since(now_ts: int, days: int) -> int {
    clamp_i64(now_ts - clamp_i64(days * 86400))
}

/// A failure to resolve a local civil midnight to an instant.
#[derive(Clone, Copy, Debug, PartialEq, Eq, Structural)]
pub enum TimeError {
    DayStart,
    MonthStart,
    LastMonthStart,
}

pub open spec fn spec_time_error_message(e: TimeError) -> Seq<char> {
    match e {
        TimeError::DayStart => "Failed to resolve local midnight"@,
        TimeError::MonthStart => "Failed to resolve local month start"@,
        TimeError::LastMonthStart => "Failed to resolve last month start"@,
    }
}

impl TimeError {
    /// The user-visible description of the failure.
    pub fn message(&self) -> (r: String)
        ensures
            r@ == spec_time_error_message(*self),
    {
        match self {
            TimeError::DayStart => String::from_str("Failed to resolve local midnight"),
            TimeError::MonthStart => String::from_str("Failed to resolve local month start"),
            TimeError::LastMonthStart => String::from_str("Failed to resolve last month start"),
        }
    }
}

/// Relies on chrono: `NaiveDate::from_ymd_opt` and `NaiveDate::and_hms_opt`
/// build the civil date's midnight, and `TimeZone::from_local_datetime` on
/// `Local` resolves it in the caller's local timezone. Returns that
/// instant's unix timestamp, or None when the date is invalid or the local
/// midnight is ambiguous or nonexistent (daylight-saving transitions).
#[verifier::external_body]
fn local_midnight_ts(year: i32, month: u32, day: u32) -> (r: Option<i64>) {
    let date = chrono::NaiveDate::from_ymd_opt(year, month, day)?;
    let dt = date.and_hms_opt(0, 0, 0)?;
    chrono::TimeZone::from_local_datetime(&chrono::Local, &dt).single().map(|t| t.timestamp())
}

/// Relies on chrono: `Local.timestamp_opt(ts, 0)` and formatting with
/// `"%Y-%m-%d %H:%M"`. Returns the local calendar rendering of the instant
/// (at least 16 characters: four-digit-or-wider year, two digits for each
/// other field, four separators), or None when the instant cannot be
/// represented.
#[verifier::external_body]
fn fmt_local_time(ts: i64) -> (r: Option<String>)
    ensures
        r matches Some(s) ==> s@.len() >= 16,
{
    let dt = chrono::TimeZone::timestamp_opt(&chrono::Local, ts, 0).single()?;
    Some(dt.format("%Y-%m-%d %H:%M").to_string())
}

/// The local-time rendering of a commit timestamp; an instant the timezone
/// library cannot represent falls back to the bare decimal timestamp.
/// Either the calendar rendering came back (at least 16 characters), or
/// the result is exactly the decimal timestamp.
pub fn format_time_local(ts: i64) -> (r: String)
    ensures
        r@.len() >= 16 || r@ == spec_idec(ts as int),
{
    match fmt_local_time(ts) {
        Some(s) => s,
        None => i64_to_string(ts),
    }
}

/// Relies on chrono's `Local::now` and the `Datelike` accessors `year`,
/// `month` and `day`: the current instant and its local civil date.
/// chrono's calendar years lie well inside the `i32` range, months in
/// 1..=12 and days of month in 1..=31.
#[verifier::external_body]
fn now_parts() -> (r: (i64, i32, u32, u32))
    ensures
        r.1 > i32::MIN,
        1 <= r.2 <= 12,
        1 <= r.3 <= 31,
{
    let now = chrono::Local::now();
    (
        now.timestamp(),
        chrono::Datelike::year(&now),
        chrono::Datelike::month(&now),
        chrono::Datelike::day(&now),
    )
}

/// The current instant with its local civil date, as the window
/// calculations expect it. Resolved once per run and passed explicitly.
pub fn local_now() -> (r: LocalStamp)
    ensures
        r.year > i32::MIN,
        1 <= r.month <= 12,
        1 <= r.day <= 31,
{
    let (ts, year, month, day) = now_parts();
    LocalStamp { ts, year, month, day }
}

/// The month before the one `now` lies in, rolling over the year boundary.
pub fn prev_month_of(year: i32, month: u32) -> (r: (i32, u32))
    requires
        year > i32::MIN,
    ensures
        (r.0 as int, r.1 as int) == spec_prev_month(year as int, month as int),
{
    if month <= 1 {
        (year - 1, 12)
    } else {
        (year, month - 1)
    }
}

/// The instant of local midnight of the current day.
pub fn start_of_local_day(now: &LocalStamp) -> (r: Result<i64, TimeError>)
    ensures
        r is Err ==> r == Err::<i64, TimeError>(TimeError::DayStart),
{
    match local_midnight_ts(now.year, now.month, now.day) {
        Some(t) => Ok(t),
        None => Err(TimeError::DayStart),
    }
}

/// The instant of local midnight of the first day of the current month.
pub fn start_of_local_month(now: &LocalStamp) -> (r: Result<i64, TimeError>)
    ensures
        r is Err ==> r == Err::<i64, TimeError>(TimeError::MonthStart),
{
    match local_midnight_ts(now.year, now.month, 1) {
        Some(t) => Ok(t),
        None => Err(TimeError::MonthStart),
    }
}

/// The instant of local midnight of the first day of the previous month.
pub fn start_of_local_last_month(now: &LocalStamp) -> (r: Result<i64, TimeError>)
    requires
        now.year > i32::MIN,
    ensures
        r is Err ==> r == Err::<i64, TimeError>(TimeError::LastMonthStart),
{
    let (py, pm) = prev_month_of(now.year, now.month);
    match local_midnight_ts(py, pm, 1) {
        Some(t) => Ok(t),
        None => Err(TimeError::LastMonthStart),
    }
}

/// The exclusive end of the "last month" window: the same local midnight
/// that opens the current month.
pub fn end_of_local_last_month(now: &LocalStamp) -> (r: Result<i64, TimeError>)
    ensures
        r is Err ==> r == Err::<i64, TimeError>(TimeError::MonthStart),
{
    start_of_local_month(now)
}

/// `days * 86400`, saturating at the ends of the `i64` range.
fn day_window_seconds(days: i64) -> (r: i64)
    ensures
        r as int == clamp_i64(days as int * 86400),
{
    match days.checked_mul(86400) {
        Some(v) => v,
        None => {
            if days > 0 {
                proof {
                    assert(days as int * 86400 > 86400) by (nonlinear_arith)
                        requires
                            days > 1,
                    ;
                }
                i64::MAX
            } else {
                proof {
                    assert(days as int * 86400 <= 0) by (nonlinear_arith)
                        requires
                            days <= 0,
                    ;
                }
                i64::MIN
            }
        },
    }
}

/// The `[since, until)` range selected by the flags: the chosen calendar
/// shortcut's local midnight, or `now` minus the day count, open-ended
/// above except in last-month mode.
pub fn since_timestamp(flags: &ScanFlags, now: &LocalStamp) -> (r: Result<
    (i64, Option<i64>),
    TimeError,
>)
    requires
        now.year > i32::MIN,
    ensures
        day_mode(*flags) ==> (r matches Ok(v) && v.1 is None && v.0 as int == spec_days_since(
            now.ts as int,
            flags.days as int,
        )),
        flags.today ==> (r matches Ok(v) ==> v.1 is None) && (r is Err ==> r->Err_0
            == TimeError::DayStart),
        !flags.today && flags.month ==> (r matches Ok(v) ==> v.1 is None) && (r is Err ==> r->Err_0
            == TimeError::MonthStart),
        !flags.today && !flags.month && flags.last_month ==> (r matches Ok(v) ==> v.1 is Some) && (
        r is Err ==> (r->Err_0 == TimeError::LastMonthStart || r->Err_0 == TimeError::MonthStart)),
{
    if flags.today {
        match start_of_local_day(now) {
            Ok(t) => Ok((t, None)),
            Err(e) => Err(e),
        }
    } else if flags.month {
        match start_of_local_month(now) {
            Ok(t) => Ok((t, None)),
            Err(e) => Err(e),
        }
    } else if flags.last_month {
        let since = match start_of_local_last_month(now) {
            Ok(t) => t,
            Err(e) => {
                return Err(e);
            },
        };
        let until = match end_of_local_last_month(now) {
            Ok(t) => t,
            Err(e) => {
                return Err(e);
            },
        };
        Ok((since, Some(until)))
    } else {
        let window = day_window_seconds(flags.days);
        match now.ts.checked_sub(window) {
            Some(t) => Ok((t, None)),
            None => {
                if window < 0 {
                    Ok((i64::MAX, None))
                } else {
                    Ok((i64::MIN, None))
                }
            },
        }
    }
}

/// In day-count mode with a nonnegative day count, the window never opens
/// after `now`.
pub proof fn lemma_day_window_not_after_now(now_ts: int, days: int)
    requires
        i64::MIN <= now_ts <= i64::MAX,
        days >= 0,
    ensures
        spec_days_since(now_ts, days) <= now_ts,
{
    assert(days * 86400 >= 0) by (nonlinear_arith)
        requires
            days >= 0,
    ;
}

/// The calendar windows agree with the calendar: each window opens no
/// later than `now`'s own civil date; the "last month" window opens
/// strictly before it closes; it closes exactly where the "this month"
/// window opens; and in January the previous month is December of the
/// prior year.
pub proof fn lemma_calendar_windows(now: LocalStamp)
    requires
        1 <= now.month <= 12,
        1 <= now.day,
    ensures
        civil_le(spec_month_start_civil(now), spec_day_start_civil(now)),
        civil_lt(spec_last_month_start_civil(now), spec_last_month_end_civil(now)),
        spec_last_month_end_civil(now) == spec_month_start_civil(now),
        now.month == 1 ==> spec_last_month_start_civil(now) == ((now.year - 1) as int, 12int, 1int),
{
}

} // verus!
