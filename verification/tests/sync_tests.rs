//! Sync driver behaviour: filtering, pagination, resumption, and the
//! end-to-end scenario.

use wpbl::addr::Addr;
use wpbl::record::Record;
use wpbl::record::Row;
use wpbl::store::Store;
use wpbl::strorder::str_le;
use wpbl::sync::Page;
use wpbl::sync::SyncState;
use wpbl::sync::build_params;
use wpbl::sync::process_page;
use wpbl::sync::run_pages;

fn v4(a: u8, b: u8, c: u8, d: u8) -> Addr {
    Addr { bytes: vec![a, b, c, d] }
}

fn record(id: u64, timestamp: &str, start: Option<Addr>, end: Option<Addr>) -> Record {
    Record {
        id,
        timestamp: String::from(timestamp),
        expiry: String::from("infinity"),
        range_start: start,
        range_end: end,
    }
}

fn stored_row(id: u64, timestamp: &str) -> Row {
    Row {
        id,
        timestamp: String::from(timestamp),
        expiry: String::from("infinity"),
        range_start: String::from("0A000001"),
        range_end: String::from("0A0000FF"),
    }
}

#[test]
fn record_without_range_is_not_persisted() {
    let rec = record(1, "2020-01-01T00:00:00Z", None, None);
    assert!(rec.to_row().is_none());
    let half = record(2, "2020-01-01T00:00:00Z", Some(v4(1, 2, 3, 4)), None);
    assert!(half.to_row().is_none());
}

#[test]
fn record_with_zero_range_start_is_not_persisted() {
    let rec = record(3, "2020-01-01T00:00:00Z", Some(v4(0, 0, 0, 0)), Some(v4(0, 0, 0, 9)));
    assert!(rec.to_row().is_none());
}

#[test]
fn record_with_valid_range_is_persisted_encoded() {
    let rec = record(4, "2020-01-01T00:00:00Z", Some(v4(10, 0, 0, 1)), Some(v4(10, 0, 0, 255)));
    let row = rec.to_row().unwrap();
    assert_eq!(row.id, 4);
    assert_eq!(row.timestamp, "2020-01-01T00:00:00Z");
    assert_eq!(row.expiry, "infinity");
    assert_eq!(row.range_start, "0A000001");
    assert_eq!(row.range_end, "0A0000FF");
}

#[test]
fn zero_sixteen_byte_range_start_is_persisted() {
    let start = Addr { bytes: vec![0u8; 16] };
    let end = Addr { bytes: vec![0xffu8; 16] };
    let rec = record(5, "2020-01-01T00:00:00Z", Some(start), Some(end));
    assert!(rec.to_row().is_some(), "only the 4-byte all-zero sentinel is filtered");
}

fn page(records: Vec<Record>, next: Option<&str>) -> Page {
    Page { records, next: next.map(String::from) }
}

#[test]
fn driver_fetches_each_page_until_one_without_token() {
    let mut st = Store::new();
    let pages = vec![
        page(
            vec![record(1, "2020-01-01T00:00:00Z", Some(v4(1, 1, 1, 1)), Some(v4(1, 1, 1, 9)))],
            Some("tok1"),
        ),
        page(
            vec![record(2, "2020-01-02T00:00:00Z", Some(v4(2, 2, 2, 2)), Some(v4(2, 2, 2, 9)))],
            Some("tok2"),
        ),
        page(
            vec![record(3, "2020-01-03T00:00:00Z", Some(v4(3, 3, 3, 3)), Some(v4(3, 3, 3, 9)))],
            None,
        ),
    ];
    assert_eq!(run_pages(&mut st, &pages), Some(3));
    assert_eq!(st.len(), 3);
}

#[test]
fn driver_stops_at_first_page_without_token() {
    let mut st = Store::new();
    let pages = vec![
        page(vec![record(1, "2020-01-01T00:00:00Z", Some(v4(1, 1, 1, 1)), Some(v4(1, 1, 1, 9)))], None),
        page(vec![record(2, "2020-01-02T00:00:00Z", Some(v4(2, 2, 2, 2)), Some(v4(2, 2, 2, 9)))], None),
    ];
    assert_eq!(run_pages(&mut st, &pages), Some(1));
    assert_eq!(st.len(), 1);
    assert!(st.contains(1));
    assert!(!st.contains(2));
}

#[test]
fn driver_reports_exhaustion_when_every_page_has_a_token() {
    let mut st = Store::new();
    let pages = vec![
        page(vec![], Some("tok1")),
        page(vec![], Some("tok2")),
    ];
    assert_eq!(run_pages(&mut st, &pages), None);
}

#[test]
fn page_count_reports_in_scope_records_even_when_redelivered() {
    let mut st = Store::new();
    let one = page(
        vec![
            record(1, "2020-01-01T00:00:00Z", Some(v4(1, 1, 1, 1)), Some(v4(1, 1, 1, 9))),
            record(2, "2020-01-01T00:00:01Z", None, None),
        ],
        None,
    );
    assert_eq!(process_page(&mut st, &one), 1);
    // The same page again: the insert is a no-op but the record is in scope.
    assert_eq!(process_page(&mut st, &one), 1);
    assert_eq!(st.len(), 1);
}

#[test]
fn resumption_requests_start_at_stored_maximum_and_do_not_duplicate() {
    let mut st = Store::new();
    st.insert(stored_row(1, "2021-01-01T00:00:00Z"));
    st.insert(stored_row(2, "2021-06-01T00:00:00Z"));
    let cursor = st.checkpoint();
    assert_eq!(cursor, "2021-06-01T00:00:00Z");

    let params = build_params(cursor.as_str(), &None);
    assert_eq!(params[6].0, "bkstart");
    assert_eq!(params[6].1, "2021-06-01T00:00:00Z");

    // The feed redelivers the record exactly at the checkpoint.
    let redelivered = page(
        vec![record(2, "2021-06-01T00:00:00Z", Some(v4(10, 0, 0, 1)), Some(v4(10, 0, 0, 255)))],
        None,
    );
    assert_eq!(run_pages(&mut st, &vec![redelivered]), Some(1));
    assert_eq!(st.len(), 2);
}

#[test]
fn build_params_lists_the_fixed_query_and_cursor() {
    let params = build_params("1970-01-01T00:00:00Z", &None);
    let expect = [
        ("action", "query"),
        ("format", "json"),
        ("list", "blocks"),
        ("bkdir", "newer"),
        ("bklimit", "max"),
        ("bkprop", "id|timestamp|expiry|range"),
        ("bkstart", "1970-01-01T00:00:00Z"),
    ];
    assert_eq!(params.len(), 7);
    for (i, (k, v)) in expect.iter().enumerate() {
        assert_eq!(params[i].0, *k);
        assert_eq!(params[i].1, *v);
    }
}

#[test]
fn build_params_appends_continuation_token() {
    let token = Some(String::from("2021-06-01T00:00:00Z|12345"));
    let params = build_params("1970-01-01T00:00:00Z", &token);
    assert_eq!(params.len(), 8);
    assert_eq!(params[7].0, "bkcontinue");
    assert_eq!(params[7].1, "2021-06-01T00:00:00Z|12345");
}

#[test]
fn sync_state_follows_the_continuation() {
    assert!(matches!(SyncState::start(), SyncState::Fetching { token: None }));
    match SyncState::advance(Some(String::from("tok"))) {
        SyncState::Fetching { token } => assert_eq!(token.unwrap(), "tok"),
        SyncState::Done => panic!("a token must keep the driver fetching"),
    }
    assert!(matches!(SyncState::advance(None), SyncState::Done));
}

#[test]
fn end_to_end_single_page_scenario() {
    let mut st = Store::new();
    let rec_a = record(1, "2020-01-01T00:00:00Z", Some(v4(0, 0, 0, 1)), Some(v4(0, 0, 0, 5)));
    let rec_b = record(2, "2020-01-02T00:00:00Z", None, None);
    let feed = vec![page(vec![rec_a, rec_b], None)];
    assert_eq!(run_pages(&mut st, &feed), Some(1));
    assert_eq!(st.len(), 1);
    assert_eq!(st.get(0).id, 1);
    assert_eq!(st.checkpoint(), "2020-01-01T00:00:00Z");
}

#[test]
fn timestamp_order_is_lexicographic() {
    assert!(str_le("2020-01-01T00:00:00Z", "2020-01-02T00:00:00Z"));
    assert!(!str_le("2021-01-01T00:00:00Z", "2020-12-31T23:59:59Z"));
    assert!(str_le("", "2020-01-01T00:00:00Z"));
    assert!(str_le("abc", "abc"));
    assert!(str_le("ab", "abc"));
    assert!(!str_le("abd", "abc"));
}
