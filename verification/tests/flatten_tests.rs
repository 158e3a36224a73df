use otlp_ingest::flatten::{flatten_metric, flatten_request, process_hist_data_point};
use otlp_ingest::model::{
    Attribute, ExpBuckets, ExpHistogramPoint, FloatVal, HistogramPoint, MetricData, MetricFamily,
    MetricType, MetricsRequest, NumberPoint, ResourceGroup, Scope, ScopeGroup,
};
use otlp_ingest::signature::default_exclude_labels;
use otlp_ingest::value::{Record, RecordValue, ScalarValue};

fn attr(key: &str, value: &str) -> Attribute {
    Attribute { key: key.to_string(), value: ScalarValue::Str(value.to_string()) }
}

fn get_str(rec: &Record, key: &str) -> Option<String> {
    match rec.get(key) {
        Some(RecordValue::Scalar(ScalarValue::Str(s))) => Some(s.clone()),
        _ => None,
    }
}

fn get_uint(rec: &Record, key: &str) -> Option<u64> {
    match rec.get(key) {
        Some(RecordValue::Scalar(ScalarValue::Uint(n))) => Some(*n),
        _ => None,
    }
}

fn number_point(t: u64, v: f64) -> NumberPoint {
    NumberPoint {
        attributes: vec![],
        start_time_unix_nano: 7,
        time_unix_nano: t,
        value: ScalarValue::Float { bits: v.to_bits(), text: v.to_string() },
        exemplars: vec![],
        flags: 0,
    }
}

#[test]
fn gauge_timestamp_truncates_to_micros() {
    let metric = MetricFamily {
        name: "g".to_string(),
        description: String::new(),
        unit: String::new(),
        data: Some(MetricData::Gauge { data_points: vec![number_point(1_234_567_999, 1.0)] }),
    };
    let excl = default_exclude_labels();
    let (_meta, rows) = flatten_metric(&vec![], &None, &metric, &excl);
    assert_eq!(rows.len(), 1);
    assert_eq!(get_uint(&rows[0], "_timestamp"), Some(1_234_567));
    assert_eq!(get_str(&rows[0], "start_time"), Some("7".to_string()));
    assert_eq!(get_str(&rows[0], "flag"), Some("DATA_POINT_FLAGS_DO_NOT_USE".to_string()));
}

#[test]
fn gauge_rows_are_independent_per_point() {
    // Two data points; only the first carries label k.  Each row is built
    // from the base record alone, so the second row must not carry k.
    let mut p1 = number_point(1_000, 1.0);
    p1.attributes = vec![attr("k", "v")];
    let p2 = number_point(2_000, 2.0);
    let metric = MetricFamily {
        name: "g".to_string(),
        description: String::new(),
        unit: String::new(),
        data: Some(MetricData::Gauge { data_points: vec![p1, p2] }),
    };
    let excl = default_exclude_labels();
    let (_meta, rows) = flatten_metric(&vec![], &None, &metric, &excl);
    assert_eq!(rows.len(), 2);
    assert_eq!(get_str(&rows[0], "k"), Some("v".to_string()));
    assert!(rows[1].get("k").is_none());
}

#[test]
fn gauge_no_recorded_value_flag() {
    let mut p = number_point(1000, 2.0);
    p.flags = 1;
    let metric = MetricFamily {
        name: "g".to_string(),
        description: String::new(),
        unit: String::new(),
        data: Some(MetricData::Gauge { data_points: vec![p] }),
    };
    let excl = default_exclude_labels();
    let (_meta, rows) = flatten_metric(&vec![], &None, &metric, &excl);
    assert_eq!(
        get_str(&rows[0], "flag"),
        Some("DATA_POINT_FLAGS_NO_RECORDED_VALUE_MASK".to_string())
    );
}

fn hist_point() -> HistogramPoint {
    HistogramPoint {
        attributes: vec![],
        start_time_unix_nano: 1,
        time_unix_nano: 2_000,
        count: 10,
        sum: Some(FloatVal { bits: 3.5f64.to_bits(), text: 3.5f64.to_string() }),
        bucket_counts: vec![2, 3, 5],
        explicit_bounds: vec![
            FloatVal { bits: 0.5f64.to_bits(), text: 0.5f64.to_string() },
            FloatVal { bits: 1.0f64.to_bits(), text: 1.0f64.to_string() },
        ],
        exemplars: vec![],
        flags: 0,
        min: None,
        max: None,
    }
}

#[test]
fn histogram_point_produces_exactly_bounds_plus_four_rows() {
    // Bucket counts [2,3,5] with 2 explicit bounds: _count, _sum, _min, _max,
    // then exactly 2 bucket rows with cumulative values 2 and 5 and the two
    // bounds as le; no extra row for the overflow count.
    let mut base = Record::new();
    base.set(
        "__name__".to_string(),
        RecordValue::Scalar(ScalarValue::Str("h".to_string())),
    );
    let rows = process_hist_data_point(base, &hist_point());
    assert_eq!(rows.len(), 6);
    assert_eq!(get_str(&rows[0], "__name__"), Some("h_count".to_string()));
    assert_eq!(get_uint(&rows[0], "value"), Some(10));
    assert_eq!(get_str(&rows[1], "__name__"), Some("h_sum".to_string()));
    assert_eq!(get_str(&rows[4], "__name__"), Some("h_bucket".to_string()));
    assert_eq!(get_uint(&rows[4], "value"), Some(2));
    assert_eq!(get_str(&rows[4], "le"), Some("0.5".to_string()));
    assert_eq!(get_str(&rows[5], "__name__"), Some("h_bucket".to_string()));
    assert_eq!(get_uint(&rows[5], "value"), Some(5));
    assert_eq!(get_str(&rows[5], "le"), Some("1".to_string()));
}

#[test]
fn histogram_min_max_rows_null_when_absent() {
    let mut base = Record::new();
    base.set(
        "__name__".to_string(),
        RecordValue::Scalar(ScalarValue::Str("h".to_string())),
    );
    let rows = process_hist_data_point(base, &hist_point());
    assert_eq!(get_str(&rows[2], "__name__"), Some("h_min".to_string()));
    assert!(matches!(
        rows[2].get("value"),
        Some(RecordValue::Scalar(ScalarValue::Null))
    ));
    assert_eq!(get_str(&rows[3], "__name__"), Some("h_max".to_string()));
}

#[test]
fn sum_end_to_end_single_row() {
    // One resource with one scope with one cumulative, non-monotonic sum
    // named http_requests with two attributes: exactly one row in stream
    // http_requests carrying both attributes and a computed hash.
    let mut p = number_point(5_000_000, 9.5);
    p.attributes = vec![attr("method", "GET"), attr("status", "200")];
    let req = MetricsRequest {
        resource_metrics: vec![ResourceGroup {
            resource_attributes: vec![],
            scope_metrics: vec![ScopeGroup {
                scope: Some(Scope { name: "lib".to_string(), version: "1".to_string() }),
                metrics: vec![MetricFamily {
                    name: "http_requests".to_string(),
                    description: "reqs".to_string(),
                    unit: "1".to_string(),
                    data: Some(MetricData::Sum {
                        data_points: vec![p],
                        aggregation_temporality: 2,
                        is_monotonic: false,
                    }),
                }],
            }],
        }],
    };
    let excl = default_exclude_labels();
    let (metas, rows) = flatten_request(&req, &excl);
    assert_eq!(metas.len(), 1);
    assert_eq!(metas[0].family_name, "http_requests");
    assert!(metas[0].metric_type == MetricType::Counter);
    assert_eq!(rows.len(), 1);
    assert_eq!(rows[0].stream, "http_requests");
    let row = &rows[0].row;
    assert_eq!(get_str(row, "__name__"), Some("http_requests".to_string()));
    assert_eq!(
        get_str(row, "aggregation_temporality"),
        Some("AGGREGATION_TEMPORALITY_CUMULATIVE".to_string())
    );
    assert_eq!(get_str(row, "is_monotonic"), Some("false".to_string()));
    assert_eq!(get_str(row, "method"), Some("GET".to_string()));
    assert_eq!(get_str(row, "status"), Some("200".to_string()));
    assert_eq!(get_str(row, "instrumentation_library_name"), Some("lib".to_string()));
    assert!(get_uint(row, "__hash__").is_some());
}

#[test]
fn derived_histogram_rows_route_to_their_own_streams() {
    let req = MetricsRequest {
        resource_metrics: vec![ResourceGroup {
            resource_attributes: vec![],
            scope_metrics: vec![ScopeGroup {
                scope: None,
                metrics: vec![MetricFamily {
                    name: "lat".to_string(),
                    description: String::new(),
                    unit: String::new(),
                    data: Some(MetricData::Histogram {
                        data_points: vec![hist_point()],
                        aggregation_temporality: 1,
                    }),
                }],
            }],
        }],
    };
    let excl = default_exclude_labels();
    let (_metas, rows) = flatten_request(&req, &excl);
    assert_eq!(rows.len(), 6);
    assert_eq!(rows[0].stream, "lat_count");
    assert_eq!(rows[1].stream, "lat_sum");
    assert_eq!(rows[4].stream, "lat_bucket");
}

#[test]
fn exponential_histogram_boundary_uses_true_exponentiation() {
    // scale 0: base = 2^(2^0) = 2; first positive bucket with offset 0 has
    // le = 2^(0+0+1) = 2.
    let p = ExpHistogramPoint {
        attributes: vec![],
        start_time_unix_nano: 0,
        time_unix_nano: 0,
        count: 1,
        sum: None,
        scale: 0,
        positive: Some(ExpBuckets { offset: 0, bucket_counts: vec![4, 9] }),
        negative: None,
        flags: 0,
        exemplars: vec![],
    };
    let metric = MetricFamily {
        name: "e".to_string(),
        description: String::new(),
        unit: String::new(),
        data: Some(MetricData::ExponentialHistogram {
            data_points: vec![p],
            aggregation_temporality: 1,
        }),
    };
    let excl = default_exclude_labels();
    let (_meta, rows) = flatten_metric(&vec![], &None, &metric, &excl);
    // _count, _sum, two positive buckets
    assert_eq!(rows.len(), 4);
    assert_eq!(get_str(&rows[2], "le"), Some("2".to_string()));
    assert_eq!(get_uint(&rows[2], "value"), Some(4));
    assert_eq!(get_str(&rows[3], "le"), Some("4".to_string()));
    assert_eq!(get_uint(&rows[3], "value"), Some(9));
}

#[test]
fn label_names_are_sanitized() {
    let mut p = number_point(1000, 1.0);
    p.attributes = vec![attr("service.name", "x")];
    let metric = MetricFamily {
        name: "my metric!".to_string(),
        description: String::new(),
        unit: String::new(),
        data: Some(MetricData::Gauge { data_points: vec![p] }),
    };
    let excl = default_exclude_labels();
    let (meta, rows) = flatten_metric(&vec![], &None, &metric, &excl);
    assert_eq!(meta.family_name, "my_metric_");
    assert_eq!(get_str(&rows[0], "service_name"), Some("x".to_string()));
}
