use petit::base::duration::{duration_text_fits, format_duration, parse_duration, DurationParseError};
use std::time::Duration;

#[test]
fn test_parse_seconds() {
    assert_eq!(parse_duration("0s").unwrap(), Duration::from_secs(0));
    assert_eq!(parse_duration("30s").unwrap(), Duration::from_secs(30));
    assert_eq!(parse_duration("5400s").unwrap(), Duration::from_secs(5400));
}

#[test]
fn test_parse_minutes() {
    assert_eq!(parse_duration("1m").unwrap(), Duration::from_secs(60));
    assert_eq!(parse_duration("5m").unwrap(), Duration::from_secs(300));
    assert_eq!(parse_duration("90m").unwrap(), Duration::from_secs(5400));
}

#[test]
fn test_parse_hours() {
    assert_eq!(parse_duration("1h").unwrap(), Duration::from_secs(3600));
    assert_eq!(parse_duration("2h").unwrap(), Duration::from_secs(7200));
    assert_eq!(parse_duration("24h").unwrap(), Duration::from_secs(86400));
}

#[test]
fn test_parse_days() {
    assert_eq!(parse_duration("1d").unwrap(), Duration::from_secs(86400));
    assert_eq!(parse_duration("7d").unwrap(), Duration::from_secs(604800));
    assert_eq!(parse_duration("30d").unwrap(), Duration::from_secs(2592000));
}

#[test]
fn test_parse_combined() {
    assert_eq!(parse_duration("1h30m").unwrap(), Duration::from_secs(5400));
    assert_eq!(parse_duration("2h30m45s").unwrap(), Duration::from_secs(9045));
    assert_eq!(parse_duration("1d12h").unwrap(), Duration::from_secs(129600));
    assert_eq!(parse_duration("1d2h3m4s").unwrap(), Duration::from_secs(93784));
}

#[test]
fn test_parse_with_whitespace() {
    assert_eq!(parse_duration("1h 30m").unwrap(), Duration::from_secs(5400));
    assert_eq!(parse_duration("2d 12h 30m").unwrap(), Duration::from_secs(217800));
}

#[test]
fn test_parse_empty() {
    assert_eq!(parse_duration(""), Err(DurationParseError::Empty));
}

#[test]
fn test_parse_invalid_format() {
    assert!(parse_duration("h").is_err());
    assert!(parse_duration("30").is_err());
    assert!(parse_duration("30x").is_err());
    assert!(parse_duration("1h30").is_err());
}

#[test]
fn test_format_seconds() {
    assert_eq!(format_duration(Duration::from_secs(0)), "0s");
    assert_eq!(format_duration(Duration::from_secs(30)), "30s");
    assert_eq!(format_duration(Duration::from_secs(59)), "59s");
}

#[test]
fn test_format_minutes() {
    assert_eq!(format_duration(Duration::from_secs(60)), "1m");
    assert_eq!(format_duration(Duration::from_secs(300)), "5m");
    assert_eq!(format_duration(Duration::from_secs(3540)), "59m");
}

#[test]
fn test_format_hours() {
    assert_eq!(format_duration(Duration::from_secs(3600)), "1h");
    assert_eq!(format_duration(Duration::from_secs(7200)), "2h");
}

#[test]
fn test_format_days() {
    assert_eq!(format_duration(Duration::from_secs(86400)), "1d");
    assert_eq!(format_duration(Duration::from_secs(604800)), "7d");
}

#[test]
fn test_format_combined() {
    assert_eq!(format_duration(Duration::from_secs(5400)), "1h30m");
    assert_eq!(format_duration(Duration::from_secs(9045)), "2h30m45s");
    assert_eq!(format_duration(Duration::from_secs(129600)), "1d12h");
    assert_eq!(format_duration(Duration::from_secs(93784)), "1d2h3m4s");
}

#[test]
fn test_roundtrip() {
    let durations = vec![
        Duration::from_secs(30),
        Duration::from_secs(300),
        Duration::from_secs(3600),
        Duration::from_secs(5400),
        Duration::from_secs(86400),
        Duration::from_secs(93784),
    ];

    for duration in durations {
        let formatted = format_duration(duration);
        let parsed = parse_duration(&formatted).unwrap();
        assert_eq!(parsed, duration);
    }
}

#[test]
fn parse_reports_each_error() {
    assert_eq!(
        parse_duration("h"),
        Err(DurationParseError::InvalidFormat("unit without preceding number".to_string()))
    );
    assert_eq!(
        parse_duration("30"),
        Err(DurationParseError::InvalidFormat("number without unit".to_string()))
    );
    assert_eq!(
        parse_duration("30x"),
        Err(DurationParseError::UnknownUnit("x".to_string()))
    );
    assert_eq!(
        parse_duration("1h-"),
        Err(DurationParseError::InvalidFormat("unexpected character: -".to_string()))
    );
    assert_eq!(
        parse_duration("99999999999999999999s"),
        Err(DurationParseError::InvalidNumber("99999999999999999999".to_string()))
    );
}

#[test]
fn parse_accepts_the_largest_total() {
    assert!(duration_text_fits("18446744073709551615s"));
    assert_eq!(
        parse_duration("18446744073709551615s").unwrap(),
        Duration::from_secs(u64::MAX)
    );
    assert!(!duration_text_fits("18446744073709551615s1s"));
    assert!(!duration_text_fits("300000000000000000d"));
    assert!(duration_text_fits("1h30m"));
}

#[test]
fn parse_of_concatenation_adds_up() {
    let a = parse_duration("1d2h").unwrap();
    let b = parse_duration("3m4s").unwrap();
    assert_eq!(parse_duration("1d2h3m4s").unwrap(), a + b);
}

#[test]
fn parse_skips_inserted_spaces() {
    assert_eq!(parse_duration("1\t0 s").unwrap(), parse_duration("10s").unwrap());
    assert_eq!(parse_duration(" 5m\n").unwrap(), Duration::from_secs(300));
    assert_eq!(parse_duration("   ").unwrap(), Duration::from_secs(0));
}

#[test]
fn format_then_parse_gives_back_large_values() {
    for secs in [1u64, 59, 61, 3599, 3601, 86399, 90061, u64::MAX] {
        let d = Duration::from_secs(secs);
        assert_eq!(parse_duration(&format_duration(d)).unwrap(), d);
    }
    assert_eq!(format_duration(Duration::from_secs(90061)), "1d1h1m1s");
}
