use cltodo::{DataError, Priority, Timestamp, Todo, TodoEntry};

fn ts(year: i64, month: i64, day: i64, hour: i64, minute: i64, second: i64, offset: i64) -> Timestamp {
    Timestamp { year, month, day, hour, minute, second, offset }
}

#[test]
fn a_clean_row_decodes() {
    let entry = TodoEntry {
        id: 7,
        date: "2024-06-05T07:08:09+05:30".to_string(),
        text: "buy milk".to_string(),
        priority: 2,
    };
    let t = Todo::from_entry(&entry).unwrap();
    assert_eq!(t.id, 7);
    assert_eq!(t.date, ts(2024, 6, 5, 7, 8, 9, 19800));
    assert_eq!(t.text, "buy milk");
    assert_eq!(t.priority, Priority::Critical);
}

#[test]
fn a_bad_priority_tag_is_fatal_corruption() {
    let entry = TodoEntry {
        id: 1,
        date: "2024-06-05T07:08:09Z".to_string(),
        text: "x".to_string(),
        priority: 3,
    };
    assert_eq!(Todo::from_entry(&entry).unwrap_err(), DataError::BadPriority);
    let entry = TodoEntry {
        id: 1,
        date: "2024-06-05T07:08:09Z".to_string(),
        text: "x".to_string(),
        priority: -1,
    };
    assert_eq!(Todo::from_entry(&entry).unwrap_err(), DataError::BadPriority);
}

#[test]
fn an_unparsable_date_is_fatal_corruption() {
    let entry = TodoEntry {
        id: 1,
        date: "yesterday".to_string(),
        text: "x".to_string(),
        priority: 0,
    };
    assert_eq!(Todo::from_entry(&entry).unwrap_err(), DataError::BadDate);
}

#[test]
fn encoding_then_decoding_gives_the_entry_back() {
    let t = Todo {
        id: 5,
        date: ts(2024, 6, 5, 7, 8, 9, -19800),
        text: "fix server".to_string(),
        priority: Priority::Important,
    };
    let entry = t.to_entry();
    assert_eq!(entry.id, 5);
    assert_eq!(entry.date, "2024-06-05T07:08:09-05:30");
    assert_eq!(entry.text, "fix server");
    assert_eq!(entry.priority, 1);
    let back = Todo::from_entry(&entry).unwrap();
    assert_eq!(back.id, t.id);
    assert_eq!(back.date, t.date);
    assert_eq!(back.text, t.text);
    assert_eq!(back.priority, t.priority);
}
