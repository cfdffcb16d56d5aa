use cltodo::{Priority, Timestamp, TodoTable};

fn ts(year: i64, month: i64, day: i64, hour: i64, minute: i64, second: i64, offset: i64) -> Timestamp {
    Timestamp { year, month, day, hour, minute, second, offset }
}

#[test]
fn add_assigns_sequential_ids_from_one() {
    let mut table = TodoTable::new();
    let a = table.add("a".to_string(), Priority::Normal, ts(2024, 1, 1, 0, 0, 0, 0));
    let b = table.add("b".to_string(), Priority::Critical, ts(2024, 1, 2, 0, 0, 0, 0));
    let c = table.add("c".to_string(), Priority::Important, ts(2024, 1, 3, 0, 0, 0, 0));
    assert_eq!((a, b, c), (1, 2, 3));
    assert_eq!(table.rows.len(), 3);
}

#[test]
fn delete_removes_exactly_the_given_id() {
    let mut table = TodoTable::new();
    table.add("a".to_string(), Priority::Normal, ts(2024, 1, 1, 0, 0, 0, 0));
    table.add("b".to_string(), Priority::Normal, ts(2024, 1, 2, 0, 0, 0, 0));
    table.add("c".to_string(), Priority::Normal, ts(2024, 1, 3, 0, 0, 0, 0));
    table.delete(2);
    assert_eq!(table.rows.len(), 2);
    assert_eq!(table.rows[0].id, 1);
    assert_eq!(table.rows[1].id, 3);
    // Ids are not reused after a delete.
    let d = table.add("d".to_string(), Priority::Normal, ts(2024, 1, 4, 0, 0, 0, 0));
    assert_eq!(d, 4);
}

#[test]
fn deleting_a_missing_id_is_a_silent_no_op() {
    let mut table = TodoTable::new();
    table.add("a".to_string(), Priority::Normal, ts(2024, 1, 1, 0, 0, 0, 0));
    table.add("b".to_string(), Priority::Critical, ts(2024, 1, 2, 0, 0, 0, 0));
    table.delete(999);
    assert_eq!(table.rows.len(), 2);
    assert_eq!(table.rows[0].id, 1);
    assert_eq!(table.rows[0].text, "a");
    assert_eq!(table.rows[1].id, 2);
    assert_eq!(table.rows[1].text, "b");
}

#[test]
fn deleting_from_an_empty_table_is_a_no_op() {
    let mut table = TodoTable::new();
    table.delete(1);
    assert_eq!(table.rows.len(), 0);
}

#[test]
fn prune_empties_the_table_and_resets_ids() {
    let mut table = TodoTable::new();
    table.add("a".to_string(), Priority::Normal, ts(2024, 1, 1, 0, 0, 0, 0));
    table.add("b".to_string(), Priority::Normal, ts(2024, 1, 2, 0, 0, 0, 0));
    table.prune();
    assert_eq!(table.rows.len(), 0);
    let id = table.add("fresh".to_string(), Priority::Important, ts(2024, 2, 1, 0, 0, 0, 0));
    assert_eq!(id, 1);
    assert_eq!(table.rows.len(), 1);
    assert_eq!(table.rows[0].id, 1);
    assert_eq!(table.rows[0].text, "fresh");
}

#[test]
fn an_added_entry_fetches_back_identical() {
    let mut table = TodoTable::new();
    let when = ts(2024, 6, 5, 7, 8, 9, 3600);
    let id = table.add("buy milk".to_string(), Priority::Important, when);
    let got = table.get_by_id(id).unwrap();
    assert_eq!(got.id, id);
    assert_eq!(got.text, "buy milk");
    assert_eq!(got.priority, Priority::Important);
    assert_eq!(got.date, when);
}

#[test]
fn fetching_a_missing_id_finds_nothing() {
    let mut table = TodoTable::new();
    table.add("a".to_string(), Priority::Normal, ts(2024, 1, 1, 0, 0, 0, 0));
    assert!(table.get_by_id(2).is_none());
}
