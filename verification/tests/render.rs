use autod::date::Instant;
use autod::errors::ErrorCause;
use autod::render_at;
use autod::timer::Timer;

fn at(year: u32, month: u32, day: u32, hour: u32, minute: u32, second: u32) -> Instant {
    Instant { year, month, day, hour, minute, second }
}

fn reference() -> Instant {
    at(2023, 6, 15, 10, 0, 0)
}

#[test]
fn one_hour() {
    let out = render_at("in 1h", &reference()).unwrap();
    assert_eq!(out, "OnCalendar=2023-06-15 11:00:00");
}

#[test]
fn ninety_minutes() {
    let out = render_at("in 90m", &reference()).unwrap();
    assert_eq!(out, "OnCalendar=2023-06-15 11:30:00");
}

#[test]
fn two_days_at_nine() {
    let out = render_at("in 2d at 9", &reference()).unwrap();
    assert_eq!(out, "OnCalendar=2023-06-17 09:00:00");
}

#[test]
fn one_week_at_monday_eight() {
    let out = render_at("in 1w at Monday 8", &reference()).unwrap();
    assert_eq!(out, "OnCalendar=2023-06-19 08:00:00");
}

#[test]
fn one_month_at_last_friday() {
    let out = render_at("in 1M at 1. -1 Friday", &reference()).unwrap();
    assert_eq!(out, "OnCalendar=2023-07-28 00:00:00");
}

#[test]
fn seconds_reject_at_clause() {
    let err = render_at("in 1s at :30", &reference()).unwrap_err();
    assert_eq!(err.cause, ErrorCause::MalformedClause);
}

#[test]
fn compound_offset_either_order() {
    let a = render_at("in 1h 30m", &reference()).unwrap();
    let b = render_at("in 30m 1h", &reference()).unwrap();
    assert_eq!(a, "OnCalendar=2023-06-15 11:30:00");
    assert_eq!(a, b);
}

#[test]
fn weeks_and_months_incompatible() {
    let err = render_at("in 2w 3M", &reference()).unwrap_err();
    assert_eq!(err.cause, ErrorCause::IncompatibleUnits);
    let err2 = render_at("in 1M 1w", &reference()).unwrap_err();
    assert_eq!(err2.cause, ErrorCause::IncompatibleUnits);
}

#[test]
fn year_folds_into_months() {
    let out = render_at("in 1y 1M", &reference()).unwrap();
    assert_eq!(out, "OnCalendar=2024-07-15 10:00:00");
}

#[test]
fn bare_years_unsupported() {
    let err = render_at("in 1y", &reference()).unwrap_err();
    assert_eq!(err.cause, ErrorCause::Unsupported);
}

#[test]
fn unknown_unit() {
    let err = render_at("in 5q", &reference()).unwrap_err();
    assert_eq!(err.cause, ErrorCause::UnrecognizedUnit);
}

#[test]
fn empty_offset() {
    let err = render_at("in ", &reference()).unwrap_err();
    assert_eq!(err.cause, ErrorCause::NoTimeSpecified);
}

#[test]
fn offset_too_large_for_fold() {
    let err = render_at("in 4294967295h 1h", &reference()).unwrap_err();
    assert_eq!(err.cause, ErrorCause::OutOfRange);
}

#[test]
fn count_too_large_to_scan() {
    let err = render_at("in 5000000000s", &reference()).unwrap_err();
    assert_eq!(err.cause, ErrorCause::MalformedClause);
}

#[test]
fn month_offset_beyond_calendar() {
    let err = render_at("in 120000M", &reference()).unwrap_err();
    assert_eq!(err.cause, ErrorCause::OutOfRange);
}

#[test]
fn day_out_of_range_in_february() {
    let start = at(2021, 1, 15, 0, 0, 0);
    let err = render_at("in 1M at 31.", &start).unwrap_err();
    assert_eq!(err.cause, ErrorCause::DayOutOfRange);
}

#[test]
fn month_end_clamps() {
    let start = at(2021, 1, 31, 0, 0, 0);
    let out = render_at("in 1M", &start).unwrap();
    assert_eq!(out, "OnCalendar=2021-02-28 00:00:00");
}

#[test]
fn month_end_clamps_in_leap_year() {
    let start = at(2020, 1, 31, 12, 30, 5);
    let out = render_at("in 1M", &start).unwrap();
    assert_eq!(out, "OnCalendar=2020-02-29 12:30:05");
}

#[test]
fn short_keyword_accepted() {
    let out = render_at("i 5m", &reference()).unwrap();
    assert_eq!(out, "OnCalendar=2023-06-15 10:05:00");
}

#[test]
fn compact_compound() {
    let out = render_at("in 1h30m", &reference()).unwrap();
    assert_eq!(out, "OnCalendar=2023-06-15 11:30:00");
}

#[test]
fn compound_timer_renders_each_segment() {
    let out = render_at("in 1h; in 2d at 9", &reference()).unwrap();
    assert_eq!(
        out,
        "OnCalendar=2023-06-15 11:00:00\nOnCalendar=2023-06-17 09:00:00"
    );
}

#[test]
fn compound_timer_fails_on_bad_segment() {
    let err = render_at("in 1h; in 5q", &reference()).unwrap_err();
    assert_eq!(err.cause, ErrorCause::UnrecognizedUnit);
}

#[test]
fn minute_offset_with_second_anchor() {
    let out = render_at("in 5m at :30", &reference()).unwrap();
    assert_eq!(out, "OnCalendar=2023-06-15 10:05:30");
}

#[test]
fn hour_offset_with_minute_and_second_anchor() {
    let out = render_at("in 2h at :15:45", &reference()).unwrap();
    assert_eq!(out, "OnCalendar=2023-06-15 12:15:45");
}

#[test]
fn day_offset_with_full_time_anchor() {
    let out = render_at("in 3d at 7:08:09", &reference()).unwrap();
    assert_eq!(out, "OnCalendar=2023-06-18 07:08:09");
}

#[test]
fn week_offset_plain_keeps_time() {
    let out = render_at("in 2w", &reference()).unwrap();
    assert_eq!(out, "OnCalendar=2023-06-29 10:00:00");
}

#[test]
fn week_offset_with_hour_anchor() {
    let out = render_at("in 1w at 6", &reference()).unwrap();
    assert_eq!(out, "OnCalendar=2023-06-22 06:00:00");
}

#[test]
fn month_offset_with_day_anchor() {
    let out = render_at("in 2M at 5. 14", &reference()).unwrap();
    assert_eq!(out, "OnCalendar=2023-08-05 14:00:00");
}

#[test]
fn month_offset_with_hour_anchor() {
    let out = render_at("in 1M at 9", &reference()).unwrap();
    assert_eq!(out, "OnCalendar=2023-07-15 09:00:00");
}

#[test]
fn timer_tree_parses_to_leaf() {
    let t = Timer::from_str("in 1h").unwrap();
    let out = t.timer(&reference()).unwrap();
    assert_eq!(out, "OnCalendar=2023-06-15 11:00:00");
}

#[test]
fn malformed_keyword() {
    let err = render_at("after 5m", &reference()).unwrap_err();
    assert_eq!(err.cause, ErrorCause::MalformedClause);
}

#[test]
fn seconds_offset_rolls_over_days() {
    let out = render_at("in 90000s", &at(2023, 12, 31, 23, 0, 0)).unwrap();
    assert_eq!(out, "OnCalendar=2024-01-02 00:00:00");
}
