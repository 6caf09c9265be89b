use chrono::DateTime;
use epd_photoframe_server::clock::{seconds_until, Duration, UtcTime, MAX_SECS, MIN_SECS};

#[test]
fn calendar_limits() {
    let first = DateTime::from_timestamp(MIN_SECS, 0).unwrap();
    assert!(DateTime::from_timestamp(MIN_SECS - 1, 0).is_none());
    assert_eq!(first, chrono::DateTime::<chrono::Utc>::MIN_UTC);
    assert!(DateTime::from_timestamp(MAX_SECS + 1, 999_999_999).is_some());
    assert!(DateTime::from_timestamp(MAX_SECS + 2, 0).is_none());
    assert!(UtcTime::from_timestamp(MIN_SECS, 0).is_some());
    assert!(UtcTime::from_timestamp(MIN_SECS - 1, 0).is_none());
    assert!(UtcTime::from_timestamp(MAX_SECS, 999_999_999).is_some());
    assert!(UtcTime::from_timestamp(MAX_SECS + 1, 0).is_none());
    assert!(UtcTime::from_timestamp(0, 1_000_000_000).is_none());
}

#[test]
fn adding_carries_nanoseconds() {
    let t = UtcTime::from_timestamp(-1, 600_000_000).unwrap();
    let sum = t.plus(Duration::new(1, 500_000_000).unwrap()).unwrap();
    assert_eq!((sum.timestamp(), sum.subsec_nanos()), (1, 100_000_000));
    let last = UtcTime::from_timestamp(MAX_SECS, 999_999_999).unwrap();
    assert!(last.plus(Duration::new(0, 1).unwrap()).is_none());
    assert!(last.plus(Duration::from_secs(u64::MAX)).is_none());
    assert_eq!(last.plus(Duration::zero()), Some(last));
    assert_eq!(t.plus_days(2).unwrap().timestamp(), 2 * 86_400 - 1);
    assert!(last.plus_days(1).is_none());
    assert!(t.plus_days(u64::MAX).is_none());
}

#[test]
fn fractions_count_as_a_second() {
    let now = UtcTime::from_timestamp(100, 999_999_999).unwrap();
    let next = UtcTime::from_timestamp(101, 0).unwrap();
    assert_eq!(seconds_until(next, now), 1);
    assert_eq!(seconds_until(now, next), 0);
    let far = UtcTime::from_timestamp(MAX_SECS, 0).unwrap();
    let early = UtcTime::from_timestamp(MIN_SECS, 1).unwrap();
    assert_eq!(seconds_until(far, early), MAX_SECS - MIN_SECS);
}

#[test]
fn spans_too_long_to_add_count_as_none() {
    let longest = Duration::new(9_223_372_036_854_775, 807_000_000).unwrap();
    assert_eq!(longest.addable(), longest);
    let longer = Duration::new(9_223_372_036_854_775, 807_000_001).unwrap();
    assert_eq!(longer.addable(), Duration::zero());
    for d in [longest, longer, Duration::from_secs(u64::MAX), Duration::from_secs(60)] {
        let span = std::time::Duration::new(d.as_secs(), d.subsec_nanos());
        let kept = chrono::Duration::from_std(span).unwrap_or_default().to_std().unwrap();
        assert_eq!(
            (d.addable().as_secs(), d.addable().subsec_nanos()),
            (kept.as_secs(), kept.subsec_nanos())
        );
    }
    assert!(Duration::new(0, 1_000_000_000).is_none());
}
