//! Store behaviour: idempotent insertion and checkpoint derivation.

use wpbl::record::Row;
use wpbl::store::Store;
use wpbl::store::resolve_checkpoint;

fn row(id: u64, timestamp: &str) -> Row {
    Row {
        id,
        timestamp: String::from(timestamp),
        expiry: String::from("infinity"),
        range_start: String::from("00000001"),
        range_end: String::from("00000005"),
    }
}

#[test]
fn insert_same_id_twice_keeps_one_row_with_original_values() {
    let mut st = Store::new();
    assert!(st.insert(row(7, "2021-05-01T12:00:00Z")));
    let mut replay = row(7, "2022-01-01T00:00:00Z");
    replay.expiry = String::from("2030-01-01T00:00:00Z");
    assert!(!st.insert(replay));
    assert_eq!(st.len(), 1);
    let kept = st.get(0);
    assert_eq!(kept.id, 7);
    assert_eq!(kept.timestamp, "2021-05-01T12:00:00Z");
    assert_eq!(kept.expiry, "infinity");
}

#[test]
fn insert_distinct_ids_keeps_both() {
    let mut st = Store::new();
    assert!(st.insert(row(1, "2021-05-01T12:00:00Z")));
    assert!(st.insert(row(2, "2021-05-02T12:00:00Z")));
    assert_eq!(st.len(), 2);
    assert!(st.contains(1));
    assert!(st.contains(2));
    assert!(!st.contains(3));
}

#[test]
fn checkpoint_of_empty_store_is_epoch_sentinel() {
    let st = Store::new();
    assert_eq!(st.checkpoint(), "1970-01-01T00:00:00Z");
    assert!(st.max_timestamp().is_none());
}

#[test]
fn checkpoint_of_non_empty_store_is_max_timestamp() {
    let mut st = Store::new();
    st.insert(row(1, "2021-05-01T12:00:00Z"));
    st.insert(row(2, "2023-02-03T04:05:06Z"));
    st.insert(row(3, "2022-12-31T23:59:59Z"));
    assert_eq!(st.max_timestamp().unwrap(), "2023-02-03T04:05:06Z");
    assert_eq!(st.checkpoint(), "2023-02-03T04:05:06Z");
}

#[test]
fn resolve_checkpoint_passes_timestamp_through() {
    let t = String::from("2020-06-07T08:09:10Z");
    assert_eq!(resolve_checkpoint(Some(t.clone())), t);
    assert_eq!(resolve_checkpoint(None), "1970-01-01T00:00:00Z");
}
