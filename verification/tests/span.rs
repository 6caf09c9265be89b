use epd_photoframe_server::clock::Duration;
use epd_photoframe_server::span::{parse_duration, SpanError};

#[test]
fn spans_as_people_write_them() {
    let secs = |text: &str| parse_duration(text).unwrap();
    assert_eq!(secs("30s"), Duration::from_secs(30));
    assert_eq!(secs("15m"), Duration::from_secs(900));
    assert_eq!(secs("1h 30m"), Duration::from_secs(5400));
    assert_eq!(secs("0"), Duration::zero());
    assert_eq!(secs("1.5s"), Duration::new(1, 500_000_000).unwrap());
    assert_eq!(secs("1000ms"), Duration::from_secs(1));
    assert_eq!(secs("2months"), Duration::from_secs(2 * 2_630_016));
    assert_eq!(secs("1y 1M 1w 1d"), Duration::from_secs(31_557_600 + 2_630_016 + 604_800 + 86_400));
    assert_eq!(secs("584542046090y"), Duration::from_secs(584_542_046_090 * 31_557_600));
    assert_eq!(secs("18446744073709551614s"), Duration::from_secs(u64::MAX - 1));
    assert_eq!(secs("18446744073709551615s"), Duration::from_secs(u64::MAX));
    assert_eq!(secs("307445734561825860m 15 sec"), Duration::from_secs(u64::MAX));
    assert_eq!(
        secs("18446744073709551614ns"),
        Duration::new(18_446_744_073, 709_551_614).unwrap()
    );
    assert_eq!(secs("123456789012.123456789s"), Duration::new(123_456_789_012, 123_456_789).unwrap());
    assert_eq!(secs("3millis"), Duration::new(0, 3_000_000).unwrap());
    assert_eq!(secs("2\u{b5}s"), Duration::new(0, 2_000).unwrap());
}

#[test]
fn what_is_no_span() {
    let message = |text: &str| match parse_duration(text) {
        Err(SpanError::Invalid(m)) => m,
        other => format!("{other:?}"),
    };
    assert_eq!(message(""), "value was empty");
    assert_eq!(message("x"), "expected number at 0");
    assert_eq!(message("5"), "time unit needed, for example 5sec or 5ms");
    assert!(message("5 parsecs").starts_with("unknown time unit \"parsecs\""));
    assert_eq!(message("5s!"), "invalid character at 2");
    for text in ["400000000000000000ms", "999999999999y", "99999999999999999999999999s"] {
        assert!(message(text).starts_with("number is too large"));
    }
}

#[test]
fn longest_spans() {
    let secs = |text: &str| parse_duration(text).unwrap();
    let longest = Duration::new(u64::MAX, 999_999_999).unwrap();
    assert_eq!(secs("18446744073709551615s 999999999ns"), longest);
    assert_eq!(secs("18446744073709551615.999999999s"), longest);
    assert_eq!(secs("1ms 18446744073709551614s"), Duration::new(u64::MAX - 1, 1_000_000).unwrap());
    assert_eq!(
        secs("18446744073709551614.2s 0.2s 0.2s"),
        Duration::new(u64::MAX - 1, 600_000_000).unwrap()
    );
    assert_eq!(
        secs("18446744073709551615s 0.5ms 0.0000000010s"),
        Duration::new(u64::MAX, 500_001).unwrap()
    );
}

#[test]
fn spans_that_may_not_fit() {
    for text in [
        "18446744073709551615s 1000000000ns",
        "18446744073709551615s 1000ms",
        "18446744073709551615s 1000000\u{b5}s",
        "1ns 18446744073709551615s 999999999ns",
        "500ms 500ms 18446744073709551615s",
        "18446744073709551615.5s 0.5s",
    ] {
        assert!(matches!(parse_duration(text), Err(SpanError::TooLong)), "{text}");
    }
}
