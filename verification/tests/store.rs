use ulid_service::errors::ServiceError;
use ulid_service::store::TimestampStore;

#[test]
fn unrecorded_key_is_not_found() {
    let store = TimestampStore::new();
    let key = String::from("never-stored");
    assert_eq!(store.elapsed(&key, 12_345), Err(ServiceError::NotFound));
}

#[test]
fn other_keys_stay_not_found_after_a_record() {
    let mut store = TimestampStore::new();
    store.record(String::from("present"), 500);
    assert_eq!(
        store.elapsed(&String::from("absent"), 500),
        Err(ServiceError::NotFound)
    );
    assert!(store.elapsed(&String::from("present"), 500).is_ok());
}

#[test]
fn elapsed_is_zero_immediately_after_record() {
    let mut store = TimestampStore::new();
    store.record(String::from("k"), 1_000);
    assert_eq!(store.elapsed(&String::from("k"), 1_000), Ok(0));
}

#[test]
fn elapsed_reports_whole_seconds() {
    let mut store = TimestampStore::new();
    store.record(String::from("k"), 1_000);
    assert_eq!(store.elapsed(&String::from("k"), 4_000), Ok(3));
    // truncation toward zero: 2999 ms is still 2 whole seconds
    assert_eq!(store.elapsed(&String::from("k"), 3_999), Ok(2));
}

#[test]
fn elapsed_is_monotone_between_calls() {
    let mut store = TimestampStore::new();
    store.record(String::from("k"), 0);
    let mut last: u64 = 0;
    for now in [100u64, 999, 1_000, 1_500, 10_000, 10_001] {
        let cur = store.elapsed(&String::from("k"), now).unwrap();
        assert!(cur >= last);
        last = cur;
    }
}

#[test]
fn recording_again_resets_the_clock() {
    let mut store = TimestampStore::new();
    store.record(String::from("k"), 1_000);
    assert_eq!(store.elapsed(&String::from("k"), 6_000), Ok(5));
    store.record(String::from("k"), 6_000);
    assert_eq!(store.elapsed(&String::from("k"), 6_000), Ok(0));
    assert_eq!(store.elapsed(&String::from("k"), 8_200), Ok(2));
}

#[test]
fn packet_scenario() {
    // store the key, wait two seconds, read twice, store again, read again
    let key = String::from("packet20231212");
    let mut store = TimestampStore::new();
    store.record(key.clone(), 0);
    assert_eq!(store.elapsed(&key, 2_000), Ok(2));
    assert_eq!(store.elapsed(&key, 4_000), Ok(4));
    store.record(key.clone(), 4_000);
    assert_eq!(store.elapsed(&key, 4_000), Ok(0));
}

#[test]
fn keys_are_independent() {
    let mut store = TimestampStore::new();
    store.record(String::from("a"), 1_000);
    store.record(String::from("b"), 5_000);
    assert_eq!(store.elapsed(&String::from("a"), 9_000), Ok(8));
    assert_eq!(store.elapsed(&String::from("b"), 9_000), Ok(4));
}
