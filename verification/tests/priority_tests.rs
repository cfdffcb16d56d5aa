use cltodo::Priority;

#[test]
fn from_i64_accepts_the_three_tags() {
    assert_eq!(Priority::from_i64(0), Ok(Priority::Normal));
    assert_eq!(Priority::from_i64(1), Ok(Priority::Important));
    assert_eq!(Priority::from_i64(2), Ok(Priority::Critical));
}

#[test]
fn from_i64_rejects_everything_else() {
    assert_eq!(Priority::from_i64(-1), Err(()));
    assert_eq!(Priority::from_i64(3), Err(()));
    assert_eq!(Priority::from_i64(i64::MAX), Err(()));
    assert_eq!(Priority::from_i64(i64::MIN), Err(()));
}

#[test]
fn to_i64_gives_the_stored_tag() {
    assert_eq!(Priority::Normal.to_i64(), 0);
    assert_eq!(Priority::Important.to_i64(), 1);
    assert_eq!(Priority::Critical.to_i64(), 2);
}

#[test]
fn tags_round_trip() {
    for tag in 0..3i64 {
        let p = Priority::from_i64(tag).unwrap();
        assert_eq!(p.to_i64(), tag);
    }
}

#[test]
fn display_names() {
    assert_eq!(Priority::Normal.to_string(), "NORMAL");
    assert_eq!(Priority::Important.to_string(), "IMPORTANT");
    assert_eq!(Priority::Critical.to_string(), "CRITICAL");
}
