use chrono::{Local, LocalResult, TimeZone};
use work::options::ScanFlags;
use work::timewin::{
    end_of_local_last_month, format_time_local, local_now, prev_month_of, since_timestamp,
    start_of_local_day, start_of_local_last_month, start_of_local_month, LocalStamp, TimeError,
};

fn local_datetime(
    year: i32,
    month: u32,
    day: u32,
    hour: u32,
    minute: u32,
    second: u32,
) -> chrono::DateTime<Local> {
    match Local.with_ymd_and_hms(year, month, day, hour, minute, second) {
        LocalResult::Single(dt) => dt,
        LocalResult::Ambiguous(dt, _) => dt,
        LocalResult::None => panic!("invalid local datetime"),
    }
}

fn stamp(year: i32, month: u32, day: u32, hour: u32, minute: u32) -> LocalStamp {
    let dt = local_datetime(year, month, day, hour, minute, 0);
    LocalStamp { ts: dt.timestamp(), year, month, day }
}

fn flags_days(days: i64) -> ScanFlags {
    ScanFlags {
        depth: 3,
        days,
        today: false,
        month: false,
        last_month: false,
        limit: 50,
        all: false,
        merges: false,
        raw: false,
    }
}

#[test]
fn computes_month_shortcut_from_local_month_start() {
    let now = stamp(2026, 2, 28, 14, 30);
    let got = start_of_local_month(&now).unwrap();
    let expected = local_datetime(2026, 2, 1, 0, 0, 0).timestamp();
    assert_eq!(got, expected);
}

#[test]
fn computes_last_month_shortcut_from_previous_local_month_start() {
    let now = stamp(2026, 3, 2, 14, 30);
    let got = start_of_local_last_month(&now).unwrap();
    let expected = local_datetime(2026, 2, 1, 0, 0, 0).timestamp();
    assert_eq!(got, expected);

    // Year boundary
    let now = stamp(2026, 1, 10, 14, 30);
    let got = start_of_local_last_month(&now).unwrap();
    let expected = local_datetime(2025, 12, 1, 0, 0, 0).timestamp();
    assert_eq!(got, expected);
}

#[test]
fn end_of_last_month_is_start_of_current_month() {
    let now = stamp(2026, 3, 15, 14, 30);
    let got = end_of_local_last_month(&now).unwrap();
    let expected = local_datetime(2026, 3, 1, 0, 0, 0).timestamp();
    assert_eq!(got, expected);

    let now = stamp(2026, 1, 10, 14, 30);
    let got = end_of_local_last_month(&now).unwrap();
    let expected = local_datetime(2026, 1, 1, 0, 0, 0).timestamp();
    assert_eq!(got, expected);
}

#[test]
fn day_start_is_local_midnight() {
    let now = stamp(2026, 6, 17, 23, 59);
    let got = start_of_local_day(&now).unwrap();
    let expected = local_datetime(2026, 6, 17, 0, 0, 0).timestamp();
    assert_eq!(got, expected);
}

#[test]
fn prev_month_rolls_over_january() {
    assert_eq!(prev_month_of(2026, 1), (2025, 12));
    assert_eq!(prev_month_of(2026, 7), (2026, 6));
    assert_eq!(prev_month_of(2026, 12), (2026, 11));
}

#[test]
fn day_count_window_subtracts_seconds_and_stays_before_now() {
    let now = stamp(2026, 5, 5, 12, 0);
    let (since, until) = since_timestamp(&flags_days(7), &now).unwrap();
    assert_eq!(since, now.ts - 7 * 24 * 60 * 60);
    assert!(until.is_none());
    assert!(since <= now.ts);

    let (since0, _) = since_timestamp(&flags_days(0), &now).unwrap();
    assert_eq!(since0, now.ts);

    // Extreme day counts saturate instead of overflowing.
    let (since_sat, _) = since_timestamp(&flags_days(i64::MAX), &now).unwrap();
    assert_eq!(since_sat, now.ts - i64::MAX);
    let (since_neg, _) = since_timestamp(&flags_days(i64::MIN), &now).unwrap();
    assert_eq!(since_neg, i64::MAX);
}

#[test]
fn last_month_window_has_both_ends() {
    let mut flags = flags_days(7);
    flags.last_month = true;
    let now = stamp(2026, 3, 15, 9, 0);
    let (since, until) = since_timestamp(&flags, &now).unwrap();
    assert_eq!(since, local_datetime(2026, 2, 1, 0, 0, 0).timestamp());
    assert_eq!(until, Some(local_datetime(2026, 3, 1, 0, 0, 0).timestamp()));
    assert!(since < until.unwrap());

    // Last month's end is exactly this month's start.
    let mut month_flags = flags_days(7);
    month_flags.month = true;
    let (month_since, _) = since_timestamp(&month_flags, &now).unwrap();
    assert_eq!(until, Some(month_since));
}

#[test]
fn time_error_messages_are_exact() {
    assert_eq!(TimeError::DayStart.message(), "Failed to resolve local midnight");
    assert_eq!(TimeError::MonthStart.message(), "Failed to resolve local month start");
    assert_eq!(TimeError::LastMonthStart.message(), "Failed to resolve last month start");
}

#[test]
fn local_time_rendering_matches_the_calendar() {
    let dt = local_datetime(2026, 4, 3, 7, 5, 0);
    let rendered = format_time_local(dt.timestamp());
    assert_eq!(rendered, dt.format("%Y-%m-%d %H:%M").to_string());
    assert_eq!(rendered.len(), 16);
}

#[test]
fn the_clock_reports_a_sane_local_date() {
    let now = local_now();
    let reference = chrono::Local::now().timestamp();
    assert!((now.ts - reference).abs() < 60);
    assert!((1..=12).contains(&now.month));
    assert!((1..=31).contains(&now.day));
    assert!(now.year > i32::MIN);
}

#[test]
fn an_unrepresentable_instant_falls_back_to_the_decimal_timestamp() {
    assert_eq!(format_time_local(i64::MAX), "9223372036854775807");
}
