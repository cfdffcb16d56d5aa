use cltodo::parse::{parse_date, parse_rfc3339, to_datetime_from, to_datetime_to};
use cltodo::render::format_rfc3339;
use cltodo::Timestamp;

fn ts(year: i64, month: i64, day: i64, hour: i64, minute: i64, second: i64, offset: i64) -> Timestamp {
    Timestamp { year, month, day, hour, minute, second, offset }
}

#[test]
fn parses_a_full_timestamp_with_offset() {
    let t = parse_rfc3339("2024-06-05T07:08:09+05:30").unwrap();
    assert_eq!(t, ts(2024, 6, 5, 7, 8, 9, 19800));
    let t = parse_rfc3339("2024-06-05T07:08:09-05:30").unwrap();
    assert_eq!(t, ts(2024, 6, 5, 7, 8, 9, -19800));
}

#[test]
fn parses_a_zulu_timestamp() {
    let t = parse_rfc3339("2024-12-31T23:59:59Z").unwrap();
    assert_eq!(t, ts(2024, 12, 31, 23, 59, 59, 0));
}

#[test]
fn rejects_malformed_timestamps() {
    assert_eq!(parse_rfc3339(""), None);
    assert_eq!(parse_rfc3339("2024-06-05"), None);
    assert_eq!(parse_rfc3339("2024-06-05 07:08:09+05:30"), None);
    assert_eq!(parse_rfc3339("2024-13-05T07:08:09Z"), None);
    assert_eq!(parse_rfc3339("2024-02-30T07:08:09Z"), None);
    assert_eq!(parse_rfc3339("2023-02-29T07:08:09Z"), None);
    assert_eq!(parse_rfc3339("2024-06-05T24:08:09Z"), None);
    assert_eq!(parse_rfc3339("2024-06-05T07:60:09Z"), None);
    assert_eq!(parse_rfc3339("2024-06-05T07:08:60Z"), None);
    assert_eq!(parse_rfc3339("2024-06-05T07:08:09+24:00"), None);
    assert_eq!(parse_rfc3339("2024-06-05T07:08:09?05:30"), None);
}

#[test]
fn parses_a_bare_date() {
    assert_eq!(parse_date("2024-02-29"), Some((2024, 2, 29)));
    assert_eq!(parse_date("0000-01-01"), Some((0, 1, 1)));
    assert_eq!(parse_date("9999-12-31"), Some((9999, 12, 31)));
}

#[test]
fn rejects_malformed_dates() {
    assert_eq!(parse_date(""), None);
    assert_eq!(parse_date("2024-2-29"), None);
    assert_eq!(parse_date("2023-02-29"), None);
    assert_eq!(parse_date("2024-00-10"), None);
    assert_eq!(parse_date("2024-13-10"), None);
    assert_eq!(parse_date("2024-04-31"), None);
    assert_eq!(parse_date("2024-04-00"), None);
    assert_eq!(parse_date("2024/04/01"), None);
    assert_eq!(parse_date("2024-04-01T"), None);
}

#[test]
fn from_bound_takes_a_full_timestamp_as_it_stands() {
    let t = to_datetime_from("2024-06-05T07:08:09+05:30").unwrap();
    assert_eq!(t, ts(2024, 6, 5, 7, 8, 9, 19800));
}

#[test]
fn from_bound_normalizes_a_bare_date_to_start_of_day() {
    let t = to_datetime_from("2024-06-05").unwrap();
    assert_eq!(t.year, 2024);
    assert_eq!(t.month, 6);
    assert_eq!(t.day, 5);
    assert_eq!(t.hour, 0);
    assert_eq!(t.minute, 0);
    assert_eq!(t.second, 0);
    assert!(-86400 < t.offset && t.offset < 86400);
}

#[test]
fn to_bound_normalizes_a_bare_date_to_end_of_day() {
    let t = to_datetime_to("2024-06-05").unwrap();
    assert_eq!(t.year, 2024);
    assert_eq!(t.month, 6);
    assert_eq!(t.day, 5);
    assert_eq!(t.hour, 23);
    assert_eq!(t.minute, 59);
    assert_eq!(t.second, 59);
    assert!(-86400 < t.offset && t.offset < 86400);
}

#[test]
fn bounds_reject_garbage_before_any_storage_access() {
    assert!(to_datetime_from("garbage").is_err());
    assert!(to_datetime_to("garbage").is_err());
    assert!(to_datetime_from("2024-02-30").is_err());
    assert!(to_datetime_to("05/06/2024").is_err());
}

#[test]
fn whole_day_lies_between_the_bare_date_bounds() {
    let from = to_datetime_from("2024-06-05").unwrap();
    let to = to_datetime_to("2024-06-05").unwrap();
    let noon = ts(2024, 6, 5, 12, 0, 0, from.offset);
    assert!(from.is_at_or_before(&noon));
    assert!(noon.is_at_or_before(&to));
    let first = ts(2024, 6, 5, 0, 0, 0, from.offset);
    let last = ts(2024, 6, 5, 23, 59, 59, to.offset);
    assert!(from.is_at_or_before(&first));
    assert!(last.is_at_or_before(&to));
}

#[test]
fn rendering_then_parsing_gives_the_timestamp_back() {
    let cases = [
        ts(2024, 6, 5, 7, 8, 9, 19800),
        ts(0, 1, 1, 0, 0, 0, 0),
        ts(9999, 12, 31, 23, 59, 59, -86340),
        ts(1970, 1, 1, 12, 30, 0, -3600),
    ];
    for t in cases {
        let stored = format_rfc3339(&t);
        assert_eq!(parse_rfc3339(stored.as_str()), Some(t));
    }
}
