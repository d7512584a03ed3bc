use ulid_service::analytics::{batch_stats, batch_stats_at, convert_reversed, UlidsResponse};
use ulid_service::errors::ServiceError;

fn strings(xs: &[&str]) -> Vec<String> {
    xs.iter().map(|s| s.to_string()).collect()
}

// 2024-01-01T00:00:00Z in milliseconds since the epoch.
const REFERENCE_NOW_MS: i64 = 1_704_067_200_000;

fn reference_batch() -> Vec<String> {
    strings(&[
        "00WEGGF0G0J5HEYXS3D7RWZGV8",
        "76EP4G39R8JD1N8AQNYDVJBRCF",
        "018CJ7KMG0051CDCS3B7BFJ3AK",
        "00Y986KPG0AMGB78RD45E9109K",
        "010451HTG0NYWMPWCEXG6AJ8F2",
        "01HH9SJEG0KY16H81S3N1BMXM4",
        "01HH9SJEG0P9M22Z9VGHH9C8CX",
        "017F8YY0G0NQA16HHC2QT5JD6X",
        "03QCPC7P003V1NND3B3QJW72QJ",
    ])
}

#[test]
fn convert_reversed_all_valid() {
    let ids = strings(&[
        "01BJQ0E1C3Z56ABCD0E11HYX4M",
        "01BJQ0E1C3Z56ABCD0E11HYX5N",
        "01BJQ0E1C3Z56ABCD0E11HYX6Q",
        "01BJQ0E1C3Z56ABCD0E11HYX7R",
        "01BJQ0E1C3Z56ABCD0E11HYX8P",
    ]);
    let out = convert_reversed(&ids);
    assert_eq!(
        out,
        strings(&[
            "015cae07-0583-f94c-a5b1-a070431f7516",
            "015cae07-0583-f94c-a5b1-a070431f74f8",
            "015cae07-0583-f94c-a5b1-a070431f74d7",
            "015cae07-0583-f94c-a5b1-a070431f74b5",
            "015cae07-0583-f94c-a5b1-a070431f7494",
        ])
    );
}

#[test]
fn convert_reversed_two_identifiers() {
    let ids = strings(&["01BJQ0E1C3Z56ABCD0E11HYX4M", "01BJQ0E1C3Z56ABCD0E11HYX5N"]);
    let out = convert_reversed(&ids);
    assert_eq!(
        out,
        strings(&[
            "015cae07-0583-f94c-a5b1-a070431f74b5",
            "015cae07-0583-f94c-a5b1-a070431f7494",
        ])
    );
}

#[test]
fn convert_reversed_drops_malformed_entries() {
    let ids = strings(&[
        "01BJQ0E1C3Z56ABCD0E11HYX4M",
        "not an identifier",
        "01BJQ0E1C3Z56ABCD0E11HYXIL", // I and L are not in the alphabet
        "01BJQ0E1C3Z56ABCD0E11HYX5N",
        "01BJQ0E1C3Z56ABCD0E11HYX5",  // too short
    ]);
    let out = convert_reversed(&ids);
    assert_eq!(
        out,
        strings(&[
            "015cae07-0583-f94c-a5b1-a070431f74b5",
            "015cae07-0583-f94c-a5b1-a070431f7494",
        ])
    );
}

#[test]
fn convert_reversed_empty_and_all_invalid() {
    assert_eq!(convert_reversed(&Vec::new()), Vec::<String>::new());
    let ids = strings(&["", "xyz", "????"]);
    assert_eq!(convert_reversed(&ids), Vec::<String>::new());
}

#[test]
fn batch_stats_rejects_weekday_out_of_range() {
    let ids = reference_batch();
    for w in [7u8, 8, 100, 255] {
        assert_eq!(
            batch_stats_at(w, &ids, REFERENCE_NOW_MS),
            Err(ServiceError::InvalidWeekday)
        );
        assert_eq!(batch_stats(w, &ids), Err(ServiceError::InvalidWeekday));
    }
    for w in 0u8..=6 {
        assert!(batch_stats_at(w, &ids, REFERENCE_NOW_MS).is_ok());
    }
}

#[test]
fn batch_stats_rejects_malformed_identifiers() {
    let ids = strings(&["01BJQ0E1C3Z56ABCD0E11HYX4M", "oops"]);
    assert_eq!(
        batch_stats_at(3, &ids, REFERENCE_NOW_MS),
        Err(ServiceError::MalformedIdentifier)
    );
}

#[test]
fn batch_stats_reference_values() {
    let ids = reference_batch();
    let stats = batch_stats_at(5, &ids, REFERENCE_NOW_MS).unwrap();
    assert_eq!(
        stats,
        UlidsResponse {
            christmas_eve: 3,
            weekday: 1,
            in_the_future: 2,
            lsb_is_1: 5,
        }
    );
}

#[test]
fn batch_stats_with_wall_clock() {
    // the two future-dated identifiers lie in 2074 and far beyond, so the
    // wall clock agrees with the fixed reference instant for decades
    let ids = reference_batch();
    let stats = batch_stats(5, &ids).unwrap();
    assert_eq!(
        stats,
        UlidsResponse {
            christmas_eve: 3,
            weekday: 1,
            in_the_future: 2,
            lsb_is_1: 5,
        }
    );
}

#[test]
fn weekday_choice_changes_only_the_weekday_count() {
    let ids = reference_batch();
    let base = batch_stats_at(5, &ids, REFERENCE_NOW_MS).unwrap();
    for w in 0u8..=6 {
        let other = batch_stats_at(w, &ids, REFERENCE_NOW_MS).unwrap();
        assert_eq!(other.christmas_eve, base.christmas_eve);
        assert_eq!(other.in_the_future, base.in_the_future);
        assert_eq!(other.lsb_is_1, base.lsb_is_1);
    }
}

#[test]
fn batch_stats_empty_batch() {
    let stats = batch_stats_at(0, &Vec::new(), REFERENCE_NOW_MS).unwrap();
    assert_eq!(
        stats,
        UlidsResponse {
            christmas_eve: 0,
            weekday: 0,
            in_the_future: 0,
            lsb_is_1: 0,
        }
    );
}

#[test]
fn lowercase_identifiers_decode_too() {
    // the Crockford alphabet is case-insensitive on decode
    let ids = strings(&["01bjq0e1c3z56abcd0e11hyx4m"]);
    let out = convert_reversed(&ids);
    assert_eq!(out, strings(&["015cae07-0583-f94c-a5b1-a070431f7494"]));
}
