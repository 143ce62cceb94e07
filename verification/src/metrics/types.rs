//! Metric points as they are stored and exported.

use crate::collector::lag_calculator::RetentionShare;
use crate::keymap::OrderMap;
use crate::views::views;
use vstd::prelude::*;

verus! {

/// A measured value, kept exactly; how it is shown as a number is up to the exporter.
#[derive(Debug, Clone, Copy, PartialEq, Eq, Structural)]
pub enum Reading {
    /// A whole number.
    Whole(i64),
    /// A count.
    Count(u64),
    /// Milliseconds, shown in seconds.
    Millis(i64),
    /// Elapsed milliseconds, shown in seconds.
    Elapsed(u64),
    /// A share, shown in percent.
    Percent(RetentionShare),
}

/// The value of a metric point.
#[derive(Debug, Clone, Copy, PartialEq, Eq, Structural)]
pub enum MetricValue {
    Gauge(Reading),
    Counter(Reading),
}

impl MetricValue {
    /// The reading behind the value.
    pub open spec fn spec_reading(self) -> Reading {
        match self {
            MetricValue::Gauge(r) => r,
            MetricValue::Counter(r) => r,
        }
    }

    /// The reading behind the value.
    pub fn reading(&self) -> (reading: Reading)
        ensures
            reading == self.spec_reading(),
    {
        match self {
            MetricValue::Gauge(r) => *r,
            MetricValue::Counter(r) => *r,
        }
    }
}

/// Label names and values.
pub type Labels = OrderMap<String, String>;

/// Label names and values, in contracts.
pub type LabelsView = Seq<(Seq<char>, Seq<char>)>;

/// What kind of metric a point belongs to.
#[derive(Debug, Clone, Copy, PartialEq, Eq, Structural)]
pub enum MetricType {
    Gauge,
    Counter,
}

/// The word for a metric type in the text format.
pub open spec fn type_word(t: MetricType) -> Seq<char> {
    match t {
        MetricType::Gauge => "gauge"@,
        MetricType::Counter => "counter"@,
    }
}

impl MetricType {
    /// The word for this type in the text format.
    pub fn as_str(&self) -> (word: &'static str)
        ensures
            word@ == type_word(*self),
    {
        match self {
            MetricType::Gauge => "gauge",
            MetricType::Counter => "counter",
        }
    }
}

/// One labelled value of a metric.
pub struct MetricPoint {
    pub name: String,
    pub labels: Labels,
    pub value: MetricValue,
    pub help: &'static str,
    pub metric_type: MetricType,
}

/// What a `MetricPoint` holds.
#[verifier::ext_equal]
pub struct PointView {
    pub name: Seq<char>,
    pub labels: LabelsView,
    pub value: MetricValue,
    pub help: Seq<char>,
    pub metric_type: MetricType,
}

impl View for MetricPoint {
    type V = PointView;

    open spec fn view(&self) -> PointView {
        PointView {
            name: self.name@,
            labels: self.labels@,
            value: self.value,
            help: self.help@,
            metric_type: self.metric_type,
        }
    }
}

/// A gauge point, in contracts.
pub open spec fn gauge_point(
    name: Seq<char>,
    labels: LabelsView,
    reading: Reading,
    help: Seq<char>,
) -> PointView {
    PointView {
        name,
        labels,
        value: MetricValue::Gauge(reading),
        help,
        metric_type: MetricType::Gauge,
    }
}

impl MetricPoint {
    /// A gauge point.
    pub fn gauge(name: &str, labels: Labels, value: Reading, help: &'static str) -> (point: Self)
        ensures
            point@ == gauge_point(name@, labels@, value, help@),
    {
        MetricPoint {
            name: name.to_owned(),
            labels,
            value: MetricValue::Gauge(value),
            help,
            metric_type: MetricType::Gauge,
        }
    }

    /// A counter point.
    pub fn counter(name: &str, labels: Labels, value: Reading, help: &'static str) -> (point: Self)
        ensures
            point@ == (PointView {
                name: name@,
                labels: labels@,
                value: MetricValue::Counter(value),
                help: help@,
                metric_type: MetricType::Counter,
            }),
    {
        MetricPoint {
            name: name.to_owned(),
            labels,
            value: MetricValue::Counter(value),
            help,
            metric_type: MetricType::Counter,
        }
    }
}

/// A value with its attributes, for OpenTelemetry.
pub struct OtelDataPoint {
    pub attributes: Labels,
    pub value: Reading,
    pub timestamp_ms: i64,
}

/// What an `OtelDataPoint` holds.
#[verifier::ext_equal]
pub struct OtelDataView {
    pub attributes: LabelsView,
    pub value: Reading,
    pub timestamp_ms: i64,
}

impl View for OtelDataPoint {
    type V = OtelDataView;

    open spec fn view(&self) -> OtelDataView {
        OtelDataView {
            attributes: self.attributes@,
            value: self.value,
            timestamp_ms: self.timestamp_ms,
        }
    }
}

/// A metric with all its values, for OpenTelemetry.
pub struct OtelMetric {
    pub name: String,
    pub description: String,
    pub unit: String,
    pub data_points: Vec<OtelDataPoint>,
}

/// What an `OtelMetric` holds.
#[verifier::ext_equal]
pub struct OtelMetricView {
    pub name: Seq<char>,
    pub description: Seq<char>,
    pub unit: Seq<char>,
    pub data_points: Seq<OtelDataView>,
}

impl View for OtelMetric {
    type V = OtelMetricView;

    open spec fn view(&self) -> OtelMetricView {
        OtelMetricView {
            name: self.name@,
            description: self.description@,
            unit: self.unit@,
            data_points: views(self.data_points@),
        }
    }
}

} // verus!
