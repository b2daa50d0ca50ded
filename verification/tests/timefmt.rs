use chrono::{DateTime, Datelike, Local, TimeZone};
use statusline::timefmt::{
    label_for, normalize_epoch, reset_label, LocalTime, MAX_UNIX_SECS, MIN_UNIX_SECS,
};

#[test]
fn today_renders_as_clock_time() {
    let label = reset_label(Local::now().timestamp()).unwrap();
    assert!(label.contains(':'), "expected HH:MM, got {label}");
}

#[test]
fn far_future_renders_as_weekday() {
    let label = reset_label(Local::now().timestamp() + 3 * 86_400).unwrap();
    assert!(!label.contains(':'), "expected weekday, got {label}");
    assert!((2..=3).contains(&label.chars().count()));
}

#[test]
fn invalid_epoch_is_none() {
    assert!(reset_label(i64::MAX).is_none());
}

#[test]
fn millisecond_epochs_are_normalized() {
    let secs = Local::now().timestamp();
    assert_eq!(reset_label(secs), reset_label(secs * 1000));
}

// ---- further cases ------------------------------------------------------

#[test]
fn epochs_after_the_threshold_are_milliseconds() {
    assert_eq!(normalize_epoch(4_102_444_800), 4_102_444_800);
    assert_eq!(normalize_epoch(4_102_444_801), 4_102_444);
    assert_eq!(normalize_epoch(1_700_000_000_123), 1_700_000_000);
}

#[test]
fn labels_for_fixed_times() {
    let t = LocalTime {
        year: 2025,
        month: 3,
        day: 14,
        hour: 9,
        minute: 5,
        weekday: 4,
    };
    assert_eq!(label_for(&t, (2025, 3, 14)), "09:05");
    assert_eq!(label_for(&t, (2025, 3, 13)), "Fri");
}

#[test]
fn weekday_label_matches_the_local_calendar() {
    let in_three_days = Local::now().timestamp() + 3 * 86_400;
    let expected = Local
        .timestamp_opt(in_three_days, 0)
        .unwrap()
        .weekday()
        .to_string();
    assert_eq!(reset_label(in_three_days).unwrap(), expected);
}

#[test]
fn representable_range_matches_chrono() {
    assert!(DateTime::from_timestamp(MIN_UNIX_SECS, 0).is_some());
    assert!(DateTime::from_timestamp(MIN_UNIX_SECS - 1, 0).is_none());
    assert!(DateTime::from_timestamp(MAX_UNIX_SECS, 0).is_some());
    assert!(DateTime::from_timestamp(MAX_UNIX_SECS + 1, 0).is_none());
}

#[test]
fn reset_label_exists_exactly_in_the_representable_range() {
    assert!(reset_label(0).is_some());
    assert!(reset_label(MIN_UNIX_SECS - 1).is_none());
    assert!(reset_label(MAX_UNIX_SECS * 1000 + 999).is_some());
    assert!(reset_label((MAX_UNIX_SECS + 1) * 1000).is_none());
}
