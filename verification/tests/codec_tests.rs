use otlp_ingest::codec::{decode_json_request, decode_proto_request, exp_bucket_le};
use otlp_ingest::model::MetricData;
use otlp_ingest::value::ScalarValue;

use opentelemetry_proto::tonic::collector::metrics::v1::ExportMetricsServiceRequest;
use opentelemetry_proto::tonic::common::v1::{any_value, AnyValue, KeyValue};
use opentelemetry_proto::tonic::metrics::v1::{
    metric, number_data_point, Gauge, Metric, NumberDataPoint, ResourceMetrics, ScopeMetrics,
};
use opentelemetry_proto::tonic::resource::v1::Resource;
use prost::Message;

fn sample_request() -> ExportMetricsServiceRequest {
    ExportMetricsServiceRequest {
        resource_metrics: vec![ResourceMetrics {
            resource: Some(Resource {
                attributes: vec![KeyValue {
                    key: "host".to_string(),
                    value: Some(AnyValue {
                        value: Some(any_value::Value::StringValue("a".to_string())),
                    }),
                    ..Default::default()
                }],
                ..Default::default()
            }),
            scope_metrics: vec![ScopeMetrics {
                scope: None,
                metrics: vec![Metric {
                    name: "m".to_string(),
                    description: "d".to_string(),
                    unit: "1".to_string(),
                    data: Some(metric::Data::Gauge(Gauge {
                        data_points: vec![NumberDataPoint {
                            time_unix_nano: 1_500,
                            start_time_unix_nano: 1_000,
                            value: Some(number_data_point::Value::AsDouble(2.5)),
                            ..Default::default()
                        }],
                    })),
                    ..Default::default()
                }],
                ..Default::default()
            }],
            ..Default::default()
        }],
    }
}

#[test]
fn proto_decode_builds_the_model() {
    let req = sample_request();
    let mut bytes = Vec::new();
    req.encode(&mut bytes).unwrap();
    let model = decode_proto_request(&bytes).expect("valid proto");
    assert_eq!(model.resource_metrics.len(), 1);
    let rm = &model.resource_metrics[0];
    assert_eq!(rm.resource_attributes.len(), 1);
    assert_eq!(rm.resource_attributes[0].key, "host");
    match &rm.resource_attributes[0].value {
        ScalarValue::Str(s) => assert_eq!(s, "a"),
        other => panic!("unexpected value {:?}", std::mem::discriminant(other)),
    }
    let m = &rm.scope_metrics[0].metrics[0];
    assert_eq!(m.name, "m");
    match &m.data {
        Some(MetricData::Gauge { data_points }) => {
            assert_eq!(data_points.len(), 1);
            assert_eq!(data_points[0].time_unix_nano, 1_500);
            match &data_points[0].value {
                ScalarValue::Float { bits, text } => {
                    assert_eq!(*bits, 2.5f64.to_bits());
                    assert_eq!(text, "2.5");
                }
                _ => panic!("expected a float value"),
            }
        }
        _ => panic!("expected a gauge"),
    }
}

#[test]
fn proto_decode_refuses_garbage() {
    let garbage = vec![0xffu8; 7];
    assert!(decode_proto_request(&garbage).is_err());
}

#[test]
fn json_decode_builds_the_model() {
    let req = sample_request();
    let bytes = serde_json::to_vec(&req).unwrap();
    let model = decode_json_request(&bytes).expect("valid json");
    assert_eq!(model.resource_metrics.len(), 1);
    assert_eq!(
        model.resource_metrics[0].scope_metrics[0].metrics[0].name,
        "m"
    );
}

#[test]
fn json_decode_refuses_garbage() {
    let garbage = b"{not json".to_vec();
    assert!(decode_json_request(&garbage).is_err());
}

#[test]
fn exponential_boundaries_are_powers() {
    // neg_scale 0: base = 2^(2^0) = 2.
    assert_eq!(exp_bucket_le(0, 1), "2");
    assert_eq!(exp_bucket_le(0, 3), "8");
    // neg_scale 1: base = 2^2 = 4.
    assert_eq!(exp_bucket_le(1, 2), "16");
    // neg_scale -1: base = 2^(1/2) = sqrt(2); squaring it reconstructs 2 up
    // to floating-point rounding.
    assert!(exp_bucket_le(-1, 2).starts_with("2.000000000000000"));
}
