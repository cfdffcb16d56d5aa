use cltodo::render::{format_date, format_line, format_rfc3339};
use cltodo::{Priority, Timestamp, Todo};

fn ts(year: i64, month: i64, day: i64, hour: i64, minute: i64, second: i64, offset: i64) -> Timestamp {
    Timestamp { year, month, day, hour, minute, second, offset }
}

#[test]
fn compact_date_form() {
    assert_eq!(format_date(&ts(2024, 6, 5, 7, 8, 9, 19800)), "2024-06-05");
    assert_eq!(format_date(&ts(0, 1, 1, 0, 0, 0, 0)), "0000-01-01");
    assert_eq!(format_date(&ts(987, 12, 31, 0, 0, 0, 0)), "0987-12-31");
}

#[test]
fn full_timestamp_form() {
    assert_eq!(format_rfc3339(&ts(2024, 6, 5, 7, 8, 9, 19800)), "2024-06-05T07:08:09+05:30");
    assert_eq!(format_rfc3339(&ts(1999, 12, 31, 23, 59, 59, -19800)), "1999-12-31T23:59:59-05:30");
    assert_eq!(format_rfc3339(&ts(2024, 1, 1, 0, 0, 0, 0)), "2024-01-01T00:00:00+00:00");
}

#[test]
fn line_in_compact_mode() {
    let t = Todo {
        id: 3,
        date: ts(2024, 6, 5, 7, 8, 9, 0),
        text: "buy milk".to_string(),
        priority: Priority::Critical,
    };
    assert_eq!(format_line(&t, false), "#3: CRITICAL : 2024-06-05: buy milk");
}

#[test]
fn line_in_extended_mode() {
    let t = Todo {
        id: 12,
        date: ts(2024, 6, 5, 7, 8, 9, 19800),
        text: "fix server".to_string(),
        priority: Priority::Important,
    };
    assert_eq!(format_line(&t, true), "#12: IMPORTANT: 2024-06-05T07:08:09+05:30: fix server");
}

#[test]
fn priority_column_is_padded_to_nine() {
    let t = Todo {
        id: 1,
        date: ts(2024, 1, 1, 0, 0, 0, 0),
        text: "x".to_string(),
        priority: Priority::Normal,
    };
    assert_eq!(format_line(&t, false), "#1: NORMAL   : 2024-01-01: x");
}
