//! The trusted boundary to the outside crates: decoding a metrics-export
//! request from its binary or JSON encoding, the exponential-histogram
//! bucket boundary, and the clock.  Everything here is believed, not
//! proved; each item names the outside function it relies on.
//!
//! Decoding is a pure function of the request bytes: the wire decoder (or
//! the JSON parser) produces the typed protocol message, and a fixed
//! conversion turns it into the library's own model — floating-point
//! fields become their bit pattern plus their decimal rendering, nested
//! attribute values become their JSON text.  The two compositions are
//! named `proto_request_of` and `json_request_of`, and the decode
//! functions promise exactly that their result is that function of the
//! bytes: success and failure included.

use vstd::prelude::*;

verus! {

use crate::model::{
    Attribute, ExemplarData, ExpBuckets, ExpHistogramPoint, FloatVal, HistogramPoint, MetricFamily,
    MetricData, MetricsRequest, NumberPoint, QuantileValue, ResourceGroup, Scope, ScopeGroup,
    SummaryPoint,
};
use crate::value::ScalarValue;

use opentelemetry_proto::tonic::collector::metrics::v1::ExportMetricsServiceRequest;
use opentelemetry_proto::tonic::common::v1::any_value::Value as AnyVal;
use opentelemetry_proto::tonic::metrics::v1::exemplar::Value as ExemplarVal;
use opentelemetry_proto::tonic::metrics::v1::metric::Data;
use opentelemetry_proto::tonic::metrics::v1::number_data_point::Value as NumberVal;

#[verifier::external_type_specification]
#[verifier::external_body]
pub struct ExExportReq(ExportMetricsServiceRequest);

#[verifier::external_type_specification]
#[verifier::external_body]
pub struct ExResourceMetrics(opentelemetry_proto::tonic::metrics::v1::ResourceMetrics);

#[verifier::external_type_specification]
#[verifier::external_body]
pub struct ExScopeMetrics(opentelemetry_proto::tonic::metrics::v1::ScopeMetrics);

#[verifier::external_type_specification]
#[verifier::external_body]
pub struct ExMetric(opentelemetry_proto::tonic::metrics::v1::Metric);

#[verifier::external_type_specification]
#[verifier::external_body]
pub struct ExMetricData(opentelemetry_proto::tonic::metrics::v1::metric::Data);

#[verifier::external_type_specification]
#[verifier::external_body]
pub struct ExNumberDataPoint(opentelemetry_proto::tonic::metrics::v1::NumberDataPoint);

#[verifier::external_type_specification]
#[verifier::external_body]
pub struct ExHistogramDataPoint(opentelemetry_proto::tonic::metrics::v1::HistogramDataPoint);

#[verifier::external_type_specification]
#[verifier::external_body]
pub struct ExExpHistogramDataPoint(
    opentelemetry_proto::tonic::metrics::v1::ExponentialHistogramDataPoint,
);

#[verifier::external_type_specification]
#[verifier::external_body]
pub struct ExExpBuckets(
    opentelemetry_proto::tonic::metrics::v1::exponential_histogram_data_point::Buckets,
);

#[verifier::external_type_specification]
#[verifier::external_body]
pub struct ExSummaryDataPoint(opentelemetry_proto::tonic::metrics::v1::SummaryDataPoint);

#[verifier::external_type_specification]
#[verifier::external_body]
pub struct ExValueAtQuantile(
    opentelemetry_proto::tonic::metrics::v1::summary_data_point::ValueAtQuantile,
);

#[verifier::external_type_specification]
#[verifier::external_body]
pub struct ExExemplar(opentelemetry_proto::tonic::metrics::v1::Exemplar);

#[verifier::external_type_specification]
#[verifier::external_body]
pub struct ExKeyValue(opentelemetry_proto::tonic::common::v1::KeyValue);

#[verifier::external_type_specification]
#[verifier::external_body]
pub struct ExAnyValue(opentelemetry_proto::tonic::common::v1::AnyValue);

/// What a metrics-export request's bytes decode to under the binary wire
/// decoder followed by the fixed model conversion, or nothing when the
/// bytes are malformed.  A pure function of the bytes.
pub uninterp spec fn proto_request_of(b: Seq<u8>) -> Option<MetricsRequest>;

/// What a metrics-export request's bytes decode to under the JSON parser
/// followed by the fixed model conversion, or nothing when the bytes are
/// malformed.  A pure function of the bytes.
pub uninterp spec fn json_request_of(b: Seq<u8>) -> Option<MetricsRequest>;

/// Relies on prost's Message::decode for the export request: the whole
/// payload is accepted or rejected atomically, and the result is a function
/// of the bytes alone; the error carries the parser's message.
#[verifier::external_body]
pub fn decode_proto_request(body: &Vec<u8>) -> (r: Result<MetricsRequest, String>)
    ensures
        match r {
            Ok(m) => proto_request_of(body@) == Some(m),
            Err(_) => proto_request_of(body@) is None,
        },
{
    match <ExportMetricsServiceRequest as prost::Message>::decode(body.as_slice()) {
        Ok(req) => Ok(conv_request(req)),
        Err(e) => Err(format!("Invalid proto: {}", e)),
    }
}

/// Relies on serde_json::from_slice for the export request's JSON encoding:
/// the whole payload is accepted or rejected atomically, and the result is a
/// function of the bytes alone; the error carries the parser's message.
#[verifier::external_body]
pub fn decode_json_request(body: &Vec<u8>) -> (r: Result<MetricsRequest, String>)
    ensures
        match r {
            Ok(m) => json_request_of(body@) == Some(m),
            Err(_) => json_request_of(body@) is None,
        },
{
    match serde_json::from_slice::<ExportMetricsServiceRequest>(body.as_slice()) {
        Ok(req) => Ok(conv_request(req)),
        Err(e) => Err(format!("Invalid json: {}", e)),
    }
}

/// Converts the decoded protocol message into the library's model.
#[verifier::external_body]
fn conv_request(req: ExportMetricsServiceRequest) -> MetricsRequest {
    MetricsRequest {
        resource_metrics: req.resource_metrics.into_iter().map(conv_resource).collect(),
    }
}

/// Converts one resource: its attributes and its scopes.
#[verifier::external_body]
fn conv_resource(rm: opentelemetry_proto::tonic::metrics::v1::ResourceMetrics) -> ResourceGroup {
    ResourceGroup {
        resource_attributes: rm.resource.map_or_else(Vec::new, |r| conv_attrs(r.attributes)),
        scope_metrics: rm.scope_metrics.into_iter().map(conv_scope_metrics).collect(),
    }
}

/// Converts one scope: its identifying fields and its metrics.
#[verifier::external_body]
fn conv_scope_metrics(sm: opentelemetry_proto::tonic::metrics::v1::ScopeMetrics) -> ScopeGroup {
    ScopeGroup {
        scope: sm.scope.map(|sc| Scope { name: sc.name, version: sc.version }),
        metrics: sm.metrics.into_iter().map(conv_metric).collect(),
    }
}

/// Converts one metric family: name, documentation, shape.
#[verifier::external_body]
fn conv_metric(m: opentelemetry_proto::tonic::metrics::v1::Metric) -> MetricFamily {
    MetricFamily { name: m.name, description: m.description, unit: m.unit, data: m.data.map(conv_data) }
}

/// Converts one metric shape, one arm per variant.
#[verifier::external_body]
fn conv_data(d: opentelemetry_proto::tonic::metrics::v1::metric::Data) -> MetricData {
    match d {
        Data::Gauge(g) => MetricData::Gauge { data_points: g.data_points.into_iter().map(conv_number_point).collect() },
        Data::Sum(s) => MetricData::Sum { data_points: s.data_points.into_iter().map(conv_number_point).collect(), aggregation_temporality: s.aggregation_temporality, is_monotonic: s.is_monotonic },
        Data::Histogram(h) => MetricData::Histogram { data_points: h.data_points.into_iter().map(conv_hist_point).collect(), aggregation_temporality: h.aggregation_temporality },
        Data::ExponentialHistogram(h) => MetricData::ExponentialHistogram { data_points: h.data_points.into_iter().map(conv_exp_point).collect(), aggregation_temporality: h.aggregation_temporality },
        Data::Summary(s) => MetricData::Summary { data_points: s.data_points.into_iter().map(conv_summary_point).collect() },
    }
}

/// Converts one gauge or sum data point.
#[verifier::external_body]
fn conv_number_point(p: opentelemetry_proto::tonic::metrics::v1::NumberDataPoint) -> NumberPoint {
    NumberPoint {
        attributes: conv_attrs(p.attributes),
        start_time_unix_nano: p.start_time_unix_nano,
        time_unix_nano: p.time_unix_nano,
        value: match p.value {
            Some(NumberVal::AsDouble(d)) => ScalarValue::Float { bits: d.to_bits(), text: d.to_string() },
            Some(NumberVal::AsInt(i)) => ScalarValue::Int(i),
            None => ScalarValue::Null,
        },
        exemplars: p.exemplars.into_iter().map(conv_exemplar).collect(),
        flags: p.flags,
    }
}

/// Converts one histogram data point.
#[verifier::external_body]
fn conv_hist_point(
    p: opentelemetry_proto::tonic::metrics::v1::HistogramDataPoint,
) -> HistogramPoint {
    HistogramPoint {
        attributes: conv_attrs(p.attributes),
        start_time_unix_nano: p.start_time_unix_nano, time_unix_nano: p.time_unix_nano,
        count: p.count, bucket_counts: p.bucket_counts, flags: p.flags,
        sum: p.sum.map(|v| FloatVal { bits: v.to_bits(), text: v.to_string() }),
        min: p.min.map(|v| FloatVal { bits: v.to_bits(), text: v.to_string() }),
        max: p.max.map(|v| FloatVal { bits: v.to_bits(), text: v.to_string() }),
        explicit_bounds: p.explicit_bounds.iter().map(|v| FloatVal { bits: v.to_bits(), text: v.to_string() }).collect(),
        exemplars: p.exemplars.into_iter().map(conv_exemplar).collect(),
    }
}

/// Converts one exponential-histogram data point.
#[verifier::external_body]
fn conv_exp_point(
    p: opentelemetry_proto::tonic::metrics::v1::ExponentialHistogramDataPoint,
) -> ExpHistogramPoint {
    ExpHistogramPoint {
        attributes: conv_attrs(p.attributes),
        start_time_unix_nano: p.start_time_unix_nano, time_unix_nano: p.time_unix_nano,
        count: p.count, scale: p.scale, flags: p.flags,
        sum: p.sum.map(|v| FloatVal { bits: v.to_bits(), text: v.to_string() }),
        positive: p.positive.map(conv_buckets), negative: p.negative.map(conv_buckets),
        exemplars: p.exemplars.into_iter().map(conv_exemplar).collect(),
    }
}

/// Converts one side of an exponential histogram's buckets.
#[verifier::external_body]
fn conv_buckets(
    b: opentelemetry_proto::tonic::metrics::v1::exponential_histogram_data_point::Buckets,
) -> ExpBuckets {
    ExpBuckets { offset: b.offset, bucket_counts: b.bucket_counts }
}

/// Converts one summary data point.
#[verifier::external_body]
fn conv_summary_point(
    p: opentelemetry_proto::tonic::metrics::v1::SummaryDataPoint,
) -> SummaryPoint {
    SummaryPoint {
        attributes: conv_attrs(p.attributes),
        start_time_unix_nano: p.start_time_unix_nano, time_unix_nano: p.time_unix_nano,
        count: p.count, flags: p.flags,
        sum: FloatVal { bits: p.sum.to_bits(), text: p.sum.to_string() },
        quantile_values: p.quantile_values.iter().map(
            |q| QuantileValue {
                quantile: FloatVal { bits: q.quantile.to_bits(), text: q.quantile.to_string() },
                value: FloatVal { bits: q.value.to_bits(), text: q.value.to_string() },
            },
        ).collect(),
    }
}

/// Converts one exemplar, keeping the raw identifier bytes.
#[verifier::external_body]
fn conv_exemplar(x: opentelemetry_proto::tonic::metrics::v1::Exemplar) -> ExemplarData {
    ExemplarData {
        filtered_attributes: conv_attrs(x.filtered_attributes),
        value: match x.value {
            Some(ExemplarVal::AsDouble(d)) => ScalarValue::Float { bits: d.to_bits(), text: d.to_string() },
            Some(ExemplarVal::AsInt(i)) => ScalarValue::Int(i),
            None => ScalarValue::Null,
        },
        time_unix_nano: x.time_unix_nano, trace_id: x.trace_id, span_id: x.span_id,
    }
}

/// Converts an attribute list.
#[verifier::external_body]
fn conv_attrs(v: Vec<opentelemetry_proto::tonic::common::v1::KeyValue>) -> Vec<Attribute> {
    v.into_iter().map(|kv| Attribute { key: kv.key, value: conv_any_value(kv.value) }).collect()
}

/// Converts one attribute value: scalars stay scalars; arrays, maps and
/// byte strings arrive as their JSON text, relying on serde_json::to_string.
#[verifier::external_body]
fn conv_any_value(
    v: Option<opentelemetry_proto::tonic::common::v1::AnyValue>,
) -> ScalarValue {
    match v.and_then(|a| a.value) {
        None => ScalarValue::Null,
        Some(AnyVal::StringValue(s)) => ScalarValue::Str(s),
        Some(AnyVal::BoolValue(b)) => ScalarValue::Bool(b),
        Some(AnyVal::IntValue(i)) => ScalarValue::Int(i),
        Some(AnyVal::DoubleValue(d)) => ScalarValue::Float { bits: d.to_bits(), text: d.to_string() },
        Some(other) => ScalarValue::Str(
            serde_json::to_string(&opentelemetry_proto::tonic::common::v1::AnyValue { value: Some(other) }).unwrap_or_default(),
        ),
    }
}

/// The decimal rendering of the exponential-histogram bucket boundary
/// `base ^ index` with `base = 2 ^ (2 ^ neg_scale)`, where `neg_scale` is the
/// negated scale.  A pure function of its two arguments.
pub uninterp spec fn exp_le_text(neg_scale: int, index: int) -> Seq<char>;

/// Relies on libm::exp2 and libm::pow, composed as
/// `pow(exp2(exp2(neg_scale)), index)`, and on Rust's floating-point
/// formatter: the result depends on the two arguments alone.
#[verifier::external_body]
pub fn exp_bucket_le(neg_scale: i32, index: i32) -> (r: String)
    ensures
        r@ == exp_le_text(neg_scale as int, index as int),
{
    libm::pow(libm::exp2(libm::exp2(neg_scale.into())), index.into()).to_string()
}

/// Relies on chrono::Utc::now().timestamp_micros(): the current time in
/// microseconds.  Nothing is promised of the value; callers state what holds
/// of every outcome.
#[verifier::external_body]
pub fn now_micros() -> i64 {
    chrono::Utc::now().timestamp_micros()
}

} // verus!
