use rail2ban::time::{TimeValue, Timestamp};

#[test]
fn parses_plain_int() {
    assert_eq!(TimeValue::parse("3600").unwrap().seconds, Some(3600));
}

#[test]
fn parses_negative_as_permanent() {
    let v = TimeValue::parse("-1").unwrap();
    assert!(v.permanent);
    assert_eq!(v.seconds, None);
}

#[test]
fn parses_permanent_keyword() {
    let v = TimeValue::parse("permanent").unwrap();
    assert!(v.permanent);
}

#[test]
fn parses_units() {
    assert_eq!(TimeValue::parse("1y").unwrap().seconds, Some(365 * 86400));
    assert_eq!(TimeValue::parse("12mo").unwrap().seconds, Some(12 * 30 * 86400));
    assert_eq!(TimeValue::parse("4w").unwrap().seconds, Some(4 * 7 * 86400));
    assert_eq!(TimeValue::parse("30d").unwrap().seconds, Some(30 * 86400));
    assert_eq!(TimeValue::parse("1h").unwrap().seconds, Some(3600));
    assert_eq!(TimeValue::parse("10m").unwrap().seconds, Some(600));
    assert_eq!(TimeValue::parse("30s").unwrap().seconds, Some(30));
}

#[test]
fn parses_combinations() {
    assert_eq!(TimeValue::parse("1d12h").unwrap().seconds, Some(86400 + 12 * 3600));
    assert_eq!(
        TimeValue::parse("1w 2d 3h 4m 5s").unwrap().seconds,
        Some(7 * 86400 + 2 * 86400 + 3 * 3600 + 4 * 60 + 5)
    );
}

#[test]
fn rejects_invalid() {
    assert!(TimeValue::parse("").is_err());
    assert!(TimeValue::parse("abc").is_err());
    assert!(TimeValue::parse("1x").is_err());
}

#[test]
fn empty_time_is_an_error_in_words() {
    let e = TimeValue::parse("").unwrap_err();
    assert!(e.message().starts_with("time parse error: "));
}

#[test]
fn a_permanent_duration_has_no_seconds() {
    let v = TimeValue::parse("permanent").unwrap();
    assert_eq!(v.to_duration(), None);
    assert_eq!(v.to_seconds_or_max(), u64::MAX);
    assert_eq!(TimeValue::from(90).to_seconds_or_max(), 90);
    assert_eq!(TimeValue::from(90).to_duration(), Some(90));
}

#[test]
fn a_sum_of_spans_is_cut_off() {
    let v = TimeValue::parse("18446744073709551615y").unwrap();
    assert_eq!(v.seconds, Some(u64::MAX));
}

#[test]
fn moments_are_compared() {
    let a = Timestamp::at(10);
    let b = Timestamp { secs: 10, nanos: 1 };
    assert!(a.is_before(b));
    assert!(!b.is_before(a));
    assert!(!a.is_before(a));
    assert!(b.reaches(a, 0));
    assert!(!a.reaches(b, 0));
    assert!(Timestamp::at(20).reaches(a, 10));
    assert!(!Timestamp::at(19).reaches(a, 10));
    assert!(a.reaches(Timestamp::at(70), -60));
}
