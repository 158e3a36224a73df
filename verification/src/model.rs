//! The typed form of a decoded metrics-export message, holding as plain
//! values everything the flattener reads.  Floating-point fields are carried
//! as their IEEE-754 bit pattern plus their decimal rendering, both produced
//! at the decoding boundary; nested attribute values arrive already rendered
//! as text.

use vstd::prelude::*;

verus! {

use crate::value::ScalarValue;

/// A floating-point value carried opaquely: its bit pattern and its decimal
/// rendering.
pub struct FloatVal {
    pub bits: u64,
    pub text: String,
}

impl FloatVal {
    pub fn duplicate(&self) -> (r: FloatVal)
        ensures
            r.bits == self.bits,
            r.text@ == self.text@,
    {
        FloatVal { bits: self.bits, text: self.text.clone() }
    }
}

/// One resource, scope or data-point attribute, converted to a scalar.
pub struct Attribute {
    pub key: String,
    pub value: ScalarValue,
}

/// One exemplar as decoded: filtered attributes, a value, a timestamp and
/// raw trace/span identifier bytes.
pub struct ExemplarData {
    pub filtered_attributes: Vec<Attribute>,
    pub value: ScalarValue,
    pub time_unix_nano: u64,
    pub trace_id: Vec<u8>,
    pub span_id: Vec<u8>,
}

/// A gauge or sum data point.
pub struct NumberPoint {
    pub attributes: Vec<Attribute>,
    pub start_time_unix_nano: u64,
    pub time_unix_nano: u64,
    pub value: ScalarValue,
    pub exemplars: Vec<ExemplarData>,
    pub flags: u32,
}

/// A histogram data point.
pub struct HistogramPoint {
    pub attributes: Vec<Attribute>,
    pub start_time_unix_nano: u64,
    pub time_unix_nano: u64,
    pub count: u64,
    pub sum: Option<FloatVal>,
    pub bucket_counts: Vec<u64>,
    pub explicit_bounds: Vec<FloatVal>,
    pub exemplars: Vec<ExemplarData>,
    pub flags: u32,
    pub min: Option<FloatVal>,
    pub max: Option<FloatVal>,
}

/// One side (negative or positive) of an exponential histogram's buckets.
pub struct ExpBuckets {
    pub offset: i32,
    pub bucket_counts: Vec<u64>,
}

/// An exponential-histogram data point.
pub struct ExpHistogramPoint {
    pub attributes: Vec<Attribute>,
    pub start_time_unix_nano: u64,
    pub time_unix_nano: u64,
    pub count: u64,
    pub sum: Option<FloatVal>,
    pub scale: i32,
    pub positive: Option<ExpBuckets>,
    pub negative: Option<ExpBuckets>,
    pub flags: u32,
    pub exemplars: Vec<ExemplarData>,
}

/// One reported quantile of a summary data point.
pub struct QuantileValue {
    pub quantile: FloatVal,
    pub value: FloatVal,
}

/// A summary data point.
pub struct SummaryPoint {
    pub attributes: Vec<Attribute>,
    pub start_time_unix_nano: u64,
    pub time_unix_nano: u64,
    pub count: u64,
    pub sum: FloatVal,
    pub quantile_values: Vec<QuantileValue>,
    pub flags: u32,
}

/// The five metric shapes: a closed set, one flattening rule per shape.
#[allow(inconsistent_fields)]
pub enum MetricData {
    Gauge { data_points: Vec<NumberPoint> },
    Sum { data_points: Vec<NumberPoint>, aggregation_temporality: i32, is_monotonic: bool },
    Histogram { data_points: Vec<HistogramPoint>, aggregation_temporality: i32 },
    ExponentialHistogram { data_points: Vec<ExpHistogramPoint>, aggregation_temporality: i32 },
    Summary { data_points: Vec<SummaryPoint> },
}

/// One metric family: name, documentation and its data points.
pub struct MetricFamily {
    pub name: String,
    pub description: String,
    pub unit: String,
    pub data: Option<MetricData>,
}

/// The instrumentation scope identifying fields.
pub struct Scope {
    pub name: String,
    pub version: String,
}

/// The metrics of one instrumentation scope.
pub struct ScopeGroup {
    pub scope: Option<Scope>,
    pub metrics: Vec<MetricFamily>,
}

/// The metrics of one resource.
pub struct ResourceGroup {
    pub resource_attributes: Vec<Attribute>,
    pub scope_metrics: Vec<ScopeGroup>,
}

/// A whole decoded metrics-export request.
pub struct MetricsRequest {
    pub resource_metrics: Vec<ResourceGroup>,
}

/// The metric-family type recorded as stream metadata.
#[derive(Clone, Copy, PartialEq, Eq, Structural)]
pub enum MetricType {
    Unknown,
    Gauge,
    Counter,
    Histogram,
    ExponentialHistogram,
    Summary,
}

/// Per-family metadata, persisted once per stream when the stream has none.
pub struct FamilyMetadata {
    pub family_name: String,
    pub metric_type: MetricType,
    pub help: String,
    pub unit: String,
}

} // verus!
