use timer::duration::{format_duration, parse_duration, Duration};
use timer::AtError;

fn parsed(s: &str) -> Duration {
    parse_duration(s).expect("should parse")
}

fn is_parse_error(r: Result<Duration, AtError>) -> bool {
    matches!(r, Err(AtError::ParseError(_)))
}

#[test]
fn parse_canonical() {
    let d = parsed("01:02:03");
    assert_eq!(d, Duration { hours: 1, minutes: 2, seconds: 3 });
}

#[test]
fn parse_unpadded() {
    let d = parsed("1:2:3");
    assert_eq!(d, Duration { hours: 1, minutes: 2, seconds: 3 });
}

#[test]
fn format_is_zero_padded_canonical() {
    let d = Duration { hours: 1, minutes: 2, seconds: 3 };
    assert_eq!(format_duration(&d), "01:02:03");
    let d = Duration { hours: 0, minutes: 0, seconds: 0 };
    assert_eq!(format_duration(&d), "00:00:00");
    let d = Duration { hours: 123, minutes: 4, seconds: 5 };
    assert_eq!(format_duration(&d), "123:04:05");
}

#[test]
fn parse_format_round_trip() {
    for s in ["01:02:03", "00:00:00", "25:00:00", "123:59:59", "1:2:3", "0:0:0"] {
        let once = format_duration(&parsed(s));
        let twice = format_duration(&parsed(&once));
        assert_eq!(once, twice);
    }
    assert_eq!(format_duration(&parsed("1:2:3")), "01:02:03");
}

#[test]
fn parse_rejects_out_of_range_minutes() {
    assert!(is_parse_error(parse_duration("00:60:00")));
}

#[test]
fn parse_rejects_out_of_range_seconds() {
    assert!(is_parse_error(parse_duration("00:00:60")));
}

#[test]
fn parse_accepts_unbounded_hours() {
    let d = parsed("25:00:00");
    assert_eq!(d.hours, 25);
    let d = parsed("9999:59:59");
    assert_eq!(d.total_seconds(), 9999 * 3600 + 59 * 60 + 59);
}

#[test]
fn parse_rejects_malformed_strings() {
    for s in ["", ":", "::", "1:2", "1:2:", ":2:3", "1:2:3:4", "aa:bb:cc", "01:02:03 ", " 01:02:03", "01-02-03", "1:2:x"] {
        assert!(is_parse_error(parse_duration(s)), "{s:?} should be rejected");
    }
}

#[test]
fn parse_rejects_overflowing_hours() {
    // More seconds than a u64 can carry.
    assert!(is_parse_error(parse_duration("99999999999999999999:00:00")));
}

#[test]
fn total_seconds_decomposition() {
    let d = Duration::from_total_seconds(3723);
    assert_eq!(d, Duration { hours: 1, minutes: 2, seconds: 3 });
    assert_eq!(d.total_seconds(), 3723);
    let d = Duration::from_total_seconds(0);
    assert_eq!(d, Duration { hours: 0, minutes: 0, seconds: 0 });
    let d = Duration::from_total_seconds(86399);
    assert_eq!(d, Duration { hours: 23, minutes: 59, seconds: 59 });
}

#[test]
fn error_message_text() {
    match parse_duration("not a duration") {
        Err(e) => assert!(e.message().starts_with("Parse error: ")),
        Ok(_) => panic!("should not parse"),
    }
}
