use chrono::{Datelike, Timelike};
use cltodo::clock::now_timestamp;

#[test]
fn the_clock_reads_as_a_well_formed_timestamp() {
    let t = now_timestamp().unwrap();
    assert!(t.year >= 2020 && t.year <= 9999);
    assert!((1..=12).contains(&t.month));
    assert!((1..=31).contains(&t.day));
    assert!((0..=23).contains(&t.hour));
    assert!((0..=59).contains(&t.minute));
    assert!((0..=59).contains(&t.second));
    assert!(-86400 < t.offset && t.offset < 86400);
    assert_eq!(t.offset % 60, 0);
}

#[test]
fn the_clock_agrees_with_chrono() {
    let t = now_timestamp().unwrap();
    let now = chrono::Local::now();
    // Same day unless the test straddles midnight; allow either of two
    // consecutive readings by comparing instants loosely.
    let here = t.instant_seconds() - 719528 * 86400;
    let there = now.timestamp();
    assert!((here - there).abs() < 120, "clock drifted: {here} vs {there}");
    assert!(t.year == now.year() as i64 || (now.hour() == 0 && now.minute() == 0));
}
