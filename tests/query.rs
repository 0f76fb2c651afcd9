use gpu_bench::query::{checked_elapsed, hardware_elapsed, measured_ticks, COMPUTE_PER_QUERY};
use gpu_bench::{QueryCursor, QueryError, QueryPair, MAX_QUERIES};

#[test]
pub fn pair_size() {
    let query = QueryPair::first();
    assert_eq!(query.size(), 16);
}

#[test]
fn pair_addresses() {
    let pair = QueryPair { start: 4, end: 5 };
    assert_eq!(pair.start_address(), 32);
    assert_eq!(pair.end_address(), 48);
    assert_eq!(pair.size(), 16);
    let range = pair.range();
    assert_eq!(range.start, 4);
    assert_eq!(range.end, 6);
    let window = QueryPair { start: 0, end: 9 };
    assert_eq!(window.size(), 80);
}

#[test]
fn cursor_advances_by_two() {
    let mut cursor = QueryCursor::new();
    assert_eq!(cursor.current_query(), QueryPair { start: 0, end: 1 });
    assert_eq!(cursor.increment_query(), Ok(()));
    assert_eq!(cursor.current_query(), QueryPair { start: 2, end: 3 });
    cursor.reset();
    assert_eq!(cursor.current_query(), QueryPair::first());
}

#[test]
fn ring_capacity_boundary() {
    let mut cursor = QueryCursor::new();
    let allowed = MAX_QUERIES / 2 - 1;
    for _ in 0..allowed {
        assert_eq!(cursor.increment_query(), Ok(()));
    }
    let last = cursor.current_query();
    assert_eq!(last, QueryPair { start: MAX_QUERIES - 2, end: MAX_QUERIES - 1 });
    assert_eq!(cursor.increment_query(), Err(QueryError::CapacityExceeded));
    assert_eq!(cursor.current_query(), last);
}

#[test]
fn pass_window_ends_before_cursor() {
    let mut cursor = QueryCursor::new();
    for _ in 0..3 {
        cursor.increment_query().unwrap();
    }
    let window = cursor.pass_window(0);
    assert_eq!(window, QueryPair { start: 0, end: 5 });
    assert_eq!(window.end_address() - window.start_address(), 48);
}

#[test]
fn elapsed_sums_pair_deltas() {
    assert_eq!(hardware_elapsed(&[]), 0);
    assert_eq!(hardware_elapsed(&[10, 25]), 15);
    assert_eq!(hardware_elapsed(&[10, 25, 100, 100, 7, 9]), 17);
}

#[test]
fn measured_ticks_divides_by_batch() {
    assert_eq!(COMPUTE_PER_QUERY, 100);
    assert_eq!(measured_ticks(&[1000, 3500]), Some(25));
    assert_eq!(measured_ticks(&[0, 150, 200, 300]), Some(2));
    assert_eq!(measured_ticks(&[5]), None);
    assert_eq!(measured_ticks(&[9, 3]), None);
    assert_eq!(measured_ticks(&[0, u64::MAX, 0, 1]), None);
}

#[test]
fn measured_ticks_non_negative_for_each_iteration() {
    let mut cursor = QueryCursor::new();
    let mut values = Vec::new();
    for i in 0..10u64 {
        cursor.increment_query().unwrap();
        let start = i * 1000;
        values.push(measured_ticks(&[start, start + 400 + i]).unwrap());
    }
    assert_eq!(values.len(), 10);
    assert_eq!(values[0], 4);
    assert_eq!(values[9], 4);
}

#[test]
fn checked_elapsed_reports_bad_windows() {
    assert_eq!(checked_elapsed(&[3, 10, 20, 21]), Some(8));
    assert_eq!(checked_elapsed(&[3]), None);
    assert_eq!(checked_elapsed(&[10, 3]), None);
    assert_eq!(checked_elapsed(&[0, u64::MAX, 5, 6]), None);
    assert_eq!(checked_elapsed(&[0, u64::MAX]), Some(u64::MAX));
}
