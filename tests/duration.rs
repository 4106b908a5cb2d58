use jb::duration::{parse_duration, parse_pid};

#[test]
fn test_parse_duration_seconds() {
    assert_eq!(parse_duration("30s").unwrap(), 30);
    assert_eq!(parse_duration("1s").unwrap(), 1);
    assert_eq!(parse_duration("0s").unwrap(), 0);
}

#[test]
fn test_parse_duration_minutes() {
    assert_eq!(parse_duration("5m").unwrap(), 300);
    assert_eq!(parse_duration("1m").unwrap(), 60);
}

#[test]
fn test_parse_duration_hours() {
    assert_eq!(parse_duration("1h").unwrap(), 3600);
    assert_eq!(parse_duration("2h").unwrap(), 7200);
}

#[test]
fn test_parse_duration_days() {
    assert_eq!(parse_duration("1d").unwrap(), 86400);
    assert_eq!(parse_duration("7d").unwrap(), 604_800);
}

#[test]
fn test_parse_duration_with_whitespace() {
    assert_eq!(parse_duration("  30s  ").unwrap(), 30);
}

#[test]
fn test_parse_duration_invalid_format() {
    assert!(parse_duration("30").is_err());
    assert!(parse_duration("30x").is_err());
    assert!(parse_duration("abc").is_err());
}

#[test]
fn test_parse_duration_invalid_number() {
    assert!(parse_duration("abcs").is_err());
}

#[test]
fn parse_duration_edge_cases() {
    assert!(parse_duration("").is_err());
    assert!(parse_duration("s").is_err());
    assert!(parse_duration("+s").is_err());
    assert!(parse_duration("-5s").is_err());
    assert_eq!(parse_duration("+5m").unwrap(), 300);
    assert_eq!(parse_duration("\t10d\n").unwrap(), 864_000);
    assert_eq!(parse_duration("18446744073709551615s").unwrap(), u64::MAX);
    assert!(parse_duration("18446744073709551616s").is_err());
    assert!(parse_duration("18446744073709551615m").is_err());
    assert!(parse_duration("5 m").is_err());
}

#[test]
fn pid_file_contents() {
    assert_eq!(parse_pid("4242\n"), Some(4242));
    assert_eq!(parse_pid("  17  "), Some(17));
    assert_eq!(parse_pid("+9"), Some(9));
    assert_eq!(parse_pid("4294967295"), Some(u32::MAX));
    assert_eq!(parse_pid("4294967296"), None);
    assert_eq!(parse_pid(""), None);
    assert_eq!(parse_pid("12a"), None);
    assert_eq!(parse_pid("-1"), None);
}
