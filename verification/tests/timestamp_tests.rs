use cltodo::Timestamp;

fn ts(year: i64, month: i64, day: i64, hour: i64, minute: i64, second: i64, offset: i64) -> Timestamp {
    Timestamp { year, month, day, hour, minute, second, offset }
}

#[test]
fn new_accepts_a_well_formed_time() {
    let t = Timestamp::new(2024, 2, 29, 23, 59, 59, -19800);
    assert_eq!(t, Some(ts(2024, 2, 29, 23, 59, 59, -19800)));
}

#[test]
fn new_rejects_bad_calendar_times() {
    assert_eq!(Timestamp::new(2023, 2, 29, 0, 0, 0, 0), None);
    assert_eq!(Timestamp::new(2024, 13, 1, 0, 0, 0, 0), None);
    assert_eq!(Timestamp::new(2024, 0, 1, 0, 0, 0, 0), None);
    assert_eq!(Timestamp::new(2024, 4, 31, 0, 0, 0, 0), None);
    assert_eq!(Timestamp::new(2024, 1, 1, 24, 0, 0, 0), None);
    assert_eq!(Timestamp::new(2024, 1, 1, 0, 60, 0, 0), None);
    assert_eq!(Timestamp::new(2024, 1, 1, 0, 0, 60, 0), None);
    assert_eq!(Timestamp::new(-1, 1, 1, 0, 0, 0, 0), None);
    assert_eq!(Timestamp::new(10000, 1, 1, 0, 0, 0, 0), None);
    assert_eq!(Timestamp::new(2024, 1, 1, 0, 0, 0, 86400), None);
    assert_eq!(Timestamp::new(2024, 1, 1, 0, 0, 0, 90), None);
}

#[test]
fn instant_of_the_unix_epoch() {
    // 719528 days from 0000-01-01 to 1970-01-01.
    let t = ts(1970, 1, 1, 0, 0, 0, 0);
    assert_eq!(t.instant_seconds(), 719528 * 86400);
}

#[test]
fn instant_agrees_with_chrono() {
    let cases = [
        ("2024-06-15T12:34:56+02:00", ts(2024, 6, 15, 12, 34, 56, 7200)),
        ("1999-12-31T23:59:59-05:30", ts(1999, 12, 31, 23, 59, 59, -19800)),
        ("2000-02-29T00:00:00+00:00", ts(2000, 2, 29, 0, 0, 0, 0)),
    ];
    for (text, t) in cases {
        let c = chrono::DateTime::parse_from_rfc3339(text).unwrap();
        assert_eq!(t.instant_seconds() - 719528 * 86400, c.timestamp());
    }
}

#[test]
fn offsets_shift_the_instant() {
    // The same wall-clock time one hour further east denotes an earlier
    // instant.
    let east = ts(2024, 1, 1, 12, 0, 0, 3600);
    let west = ts(2024, 1, 1, 12, 0, 0, 0);
    assert_eq!(east.instant_seconds() + 3600, west.instant_seconds());
    assert!(east.is_at_or_before(&west));
    assert!(!west.is_at_or_before(&east));
}

#[test]
fn ordering_is_inclusive_of_equals() {
    let a = ts(2024, 1, 1, 0, 0, 0, 0);
    let b = ts(2024, 1, 1, 1, 0, 0, 3600);
    assert!(a.is_at_or_before(&b));
    assert!(b.is_at_or_before(&a));
}
