use otlp_ingest::traces::{
    check_times, clamp_query_range, merge_span, next_page, parse_i64_or, seed_trace,
    sort_traces_desc, widen_window, TraceQueryError,
};
use otlp_ingest::value::Record;

#[test]
fn query_parameters_parse_with_defaults() {
    assert_eq!(parse_i64_or("123", 0), 123);
    assert_eq!(parse_i64_or("-45", 0), -45);
    assert_eq!(parse_i64_or("", 10), 10);
    assert_eq!(parse_i64_or("x7", 10), 10);
    assert_eq!(parse_i64_or("9223372036854775807", 0), i64::MAX);
    assert_eq!(parse_i64_or("-9223372036854775808", 0), i64::MIN);
    assert_eq!(parse_i64_or("9223372036854775808", 7), 7);
    assert_eq!(parse_i64_or("-", 7), 7);
}

#[test]
fn empty_window_ends_are_refused() {
    assert_eq!(check_times(0, 5), Err(TraceQueryError::EmptyStartTime));
    assert_eq!(check_times(5, 0), Err(TraceQueryError::EmptyEndTime));
    assert!(check_times(1, 2).is_ok());
}

#[test]
fn long_windows_are_cut_back_from_the_end() {
    // 3 hours allowed, window of 4 hours: the start moves forward.
    let hour = 3_600_000_000i64;
    let (start, warned) = clamp_query_range(0, 4 * hour, 3);
    assert_eq!(start, hour);
    assert!(warned);
    let (start, warned) = clamp_query_range(0, 2 * hour, 3);
    assert_eq!(start, 0);
    assert!(!warned);
    let (start, warned) = clamp_query_range(0, 4 * hour, 0);
    assert_eq!(start, 0);
    assert!(!warned);
}

#[test]
fn window_widens_to_cover_the_trace() {
    // Trace times are nanoseconds; the window is microseconds.
    let (s, e) = widen_window(1_000, 2_000, 500_000, 3_000_000);
    assert_eq!(s, 500);
    assert_eq!(e, 3_000);
    let (s, e) = widen_window(1_000, 2_000, 1_500_000, 1_800_000);
    assert_eq!(s, 1_000);
    assert_eq!(e, 2_000);
}

#[test]
fn spans_fold_into_their_trace() {
    let t = seed_trace("t1".to_string(), 0, 0);
    let t = merge_span(t, 100, 200, 50, "api".to_string(), false, Record::new());
    let t = merge_span(t, 50, 400, 80, "api".to_string(), true, Record::new());
    let t = merge_span(t, 120, 150, 10, "db".to_string(), false, Record::new());
    assert_eq!(t.spans, 3);
    assert_eq!(t.error_spans, 1);
    assert_eq!(t.duration, 80);
    assert_eq!(t.start_time, 50);
    assert_eq!(t.end_time, 400);
    assert_eq!(t.service_name.len(), 2);
    assert!(t.first_event.is_some());
}

#[test]
fn pagination_stops_on_a_short_page() {
    assert_eq!(next_page(0, 9999, 9999), Some(9999));
    assert_eq!(next_page(9999, 9999, 120), None);
}

#[test]
fn traces_sort_newest_first() {
    let mut input = Vec::new();
    for (id, st) in [("a", 5i64), ("b", 9), ("c", 1), ("d", 9)] {
        input.push(seed_trace(id.to_string(), st, st));
    }
    let sorted = sort_traces_desc(input);
    assert_eq!(sorted.len(), 4);
    for w in sorted.windows(2) {
        assert!(w[0].start_time >= w[1].start_time);
    }
    let ids: Vec<&str> = sorted.iter().map(|t| t.trace_id.as_str()).collect();
    assert!(ids.contains(&"a") && ids.contains(&"b") && ids.contains(&"c") && ids.contains(&"d"));
}
