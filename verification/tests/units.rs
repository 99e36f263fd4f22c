use autod::anchors::{AtNthWeekDay, AtWeekDay};
use autod::date::{add_months, days_in_month, weekday_of, Instant};
use autod::errors::{ErrorCause, ParseError};
use autod::inexpr::In;
use autod::timer::{DurationKind, InDuration, Timer};
use autod::unit::Unit;

fn at(year: u32, month: u32, day: u32, hour: u32, minute: u32, second: u32) -> Instant {
    Instant { year, month, day, hour, minute, second }
}

#[test]
fn unit_tokens() {
    assert_eq!(Unit::from_str("s").unwrap(), Unit::Sec);
    assert_eq!(Unit::from_str("SEC").unwrap(), Unit::Sec);
    assert_eq!(Unit::from_str("m").unwrap(), Unit::Min);
    assert_eq!(Unit::from_str("minutes").unwrap(), Unit::Min);
    assert_eq!(Unit::from_str("hr").unwrap(), Unit::Hour);
    assert_eq!(Unit::from_str("days").unwrap(), Unit::Day);
    assert_eq!(Unit::from_str("w").unwrap(), Unit::Week);
    assert_eq!(Unit::from_str("M").unwrap(), Unit::Month);
    assert_eq!(Unit::from_str("Months").unwrap(), Unit::Month);
    assert_eq!(Unit::from_str("year").unwrap(), Unit::Year);
    assert_eq!(
        Unit::from_str("fortnight").unwrap_err().cause,
        ErrorCause::UnrecognizedUnit
    );
}

#[test]
fn unit_conversion_factors() {
    assert_eq!(Unit::Hour.to_lower_or_equal(&Unit::Sec, 2), Some(7200));
    assert_eq!(Unit::Min.to_lower_or_equal(&Unit::Sec, 90), Some(5400));
    assert_eq!(Unit::Week.to_lower_or_equal(&Unit::Hour, 1), Some(168));
    assert_eq!(Unit::Year.to_lower_or_equal(&Unit::Month, 1), Some(12));
    assert_eq!(Unit::Day.to_lower_or_equal(&Unit::Day, 5), Some(5));
    assert_eq!(Unit::Week.to_lower_or_equal(&Unit::Month, 1), None);
    assert_eq!(Unit::Month.to_lower_or_equal(&Unit::Week, 1), None);
    assert_eq!(Unit::Year.to_lower_or_equal(&Unit::Week, 1), None);
    assert_eq!(Unit::Sec.to_lower_or_equal(&Unit::Min, 60), None);
}

#[test]
fn month_lengths() {
    assert_eq!(days_in_month(2021, 2), 28);
    assert_eq!(days_in_month(2020, 2), 29);
    assert_eq!(days_in_month(1900, 2), 28);
    assert_eq!(days_in_month(2000, 2), 29);
    assert_eq!(days_in_month(2023, 6), 30);
    assert_eq!(days_in_month(2023, 7), 31);
}

#[test]
fn weekday_numbers() {
    // 2023-06-15 was a Thursday, 2021-01-31 a Sunday.
    assert_eq!(weekday_of(&at(2023, 6, 15, 0, 0, 0)), 4);
    assert_eq!(weekday_of(&at(2021, 1, 31, 0, 0, 0)), 7);
    assert_eq!(weekday_of(&at(2023, 6, 19, 0, 0, 0)), 1);
}

#[test]
fn month_shift_clamps_day() {
    let moved = add_months(&at(2021, 1, 31, 0, 0, 0), 1).unwrap();
    assert_eq!((moved.year, moved.month, moved.day), (2021, 2, 28));
    let far = add_months(&at(2021, 1, 31, 0, 0, 0), 13).unwrap();
    assert_eq!((far.year, far.month, far.day), (2022, 2, 28));
}

#[test]
fn weekday_anchor_lands_on_weekday() {
    for wd in 1..=7u32 {
        let a = AtWeekDay(wd, None);
        let moved = a.at(&at(2023, 6, 15, 10, 0, 0)).unwrap();
        assert_eq!(weekday_of(&moved), wd);
        assert_eq!((moved.hour, moved.minute, moved.second), (0, 0, 0));
    }
}

#[test]
fn first_and_last_occurrence() {
    // June 2023 starts on a Thursday and ends on a Friday.
    let base = at(2023, 6, 15, 0, 0, 0);
    let first_monday = AtNthWeekDay(1, 1, None).at(&base).unwrap();
    assert_eq!(first_monday.day, 5);
    let last_friday = AtNthWeekDay(-1, 5, None).at(&base).unwrap();
    assert_eq!(last_friday.day, 30);
    let last_sat = AtNthWeekDay(-1, 6, None).at(&base).unwrap();
    assert_eq!(last_sat.day, 24);
}

#[test]
fn sixth_occurrence_never_exists() {
    for wd in 1..=7u32 {
        let err = AtNthWeekDay(6, wd, None)
            .at(&at(2023, 6, 15, 0, 0, 0))
            .unwrap_err();
        assert_eq!(err.cause, ErrorCause::NoSuchOccurrence);
    }
}

#[test]
fn zeroth_occurrence_rejected() {
    let err = AtNthWeekDay(0, 1, None)
        .at(&at(2023, 6, 15, 0, 0, 0))
        .unwrap_err();
    assert_eq!(err.cause, ErrorCause::NoSuchOccurrence);
}

#[test]
fn nth_weekday_from_text() {
    let a = AtNthWeekDay::from_str("-1. Friday").unwrap();
    assert_eq!((a.0, a.1), (-1, 5));
    let b = AtNthWeekDay::from_str("2. Tue 9").unwrap();
    assert_eq!((b.0, b.1), (2, 2));
}

#[test]
fn expression_round_trips_to_text() {
    let x = In::from_str("in 1h 30m").unwrap();
    assert_eq!(x.to_text(), "in 90m");
    let y = In::from_str("in 2d at 9").unwrap();
    assert_eq!(y.to_text(), "in 2d at 09:00:00");
    let z = In::from_str("in 1M at 1. -1 Friday").unwrap();
    assert_eq!(z.to_text(), "in 1M at -1. Fri 00:00:00");
}

#[test]
fn duration_microseconds_exact() {
    let mut d = InDuration::empty();
    d.years = Some(1);
    assert_eq!(d.to_microseconds(), 31_557_600_000_000u128);
    let mut e = InDuration::empty();
    e.secs = Some(1);
    e.millis = Some(2);
    e.micros = Some(3);
    assert_eq!(e.to_microseconds(), 1_002_003u128);
    let mut f = InDuration::empty();
    f.months = Some(2);
    assert_eq!(f.to_microseconds(), 5_260_032_000_000u128);
}

#[test]
fn duration_relative_text() {
    let mut d = InDuration::empty();
    d.years = Some(1);
    d.hours = Some(3);
    assert_eq!(d.to_text(), "1y 0M 0w 0d 3h 0m 0s 0ms 0µs");
}

#[test]
fn duration_directives() {
    let mut d = InDuration::empty();
    d.mins = Some(5);
    let t = Timer::Duration { kind: DurationKind::SinceBoot, duration: d };
    let out = t.timer(&at(2023, 6, 15, 10, 0, 0)).unwrap();
    assert_eq!(out, "OnBootSec=0y 0M 0w 0d 0h 5m 0s 0ms 0µs");
    let t2 = Timer::Duration { kind: DurationKind::IN, duration: d };
    let out2 = t2.timer(&at(2023, 6, 15, 10, 0, 0)).unwrap();
    assert_eq!(out2, "OnCalendar=2023-06-15 10:05:00");
}

#[test]
fn error_messages_name_their_cause() {
    let e = ParseError::new(ErrorCause::IncompatibleUnits);
    assert_eq!(e.message(), "the units are not compatible");
    let f = ParseError::new(ErrorCause::NoTimeSpecified);
    assert_eq!(f.message(), "there was no time provided");
}

#[test]
fn clock_renders_a_line() {
    // The wall clock read must produce a well-formed instant; rendering
    // a one-second offset against it yields a calendar directive.
    let now = autod::clock::now_instant().unwrap();
    assert!(1 <= now.month && now.month <= 12);
    assert!(1 <= now.day && now.day <= 31);
    assert!(now.hour < 24 && now.minute < 60 && now.second < 60);
    let line = autod::render_now("in 1s").unwrap();
    assert!(line.starts_with("OnCalendar="));
    assert_eq!(line.len(), "OnCalendar=".len() + 19);
}
