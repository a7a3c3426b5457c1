//! The metric data model shared by every category handler: a metric is a
//! typed, named, labelled sample.  Values are carried in thousandths of the
//! metric's unit, so that the scrape path can render decimal gauges while
//! the verified core stays on integers.

use vstd::prelude::*;

verus! {

/// The kind of a metric as exposed to the scrape path.
#[derive(Clone, Copy, PartialEq, Eq, Structural, Debug)]
pub enum MetricType {
    Counter,
    Gauge,
    Histogram,
}

/// Identity of one metric: its kind, its name, and its label set
/// (constant labels and variable labels, in order of appearance).
pub struct MetricKey {
    /// Metric type
    pub metric_type: MetricType,
    /// Metric name
    pub name: String,
    /// Metric label set, as `(label name, label value)` pairs
    pub labels: Vec<(String, String)>,
}

/// One metric sample: a key plus its value in thousandths of the unit.
pub struct Metric {
    pub key: MetricKey,
    /// The sample value, scaled by 1000.
    pub value_milli: i128,
}

/// Mathematical model of a `MetricKey`.
#[verifier::ext_equal]
pub struct MetricKeyModel {
    pub metric_type: MetricType,
    pub name: Seq<char>,
    pub labels: Seq<(Seq<char>, Seq<char>)>,
}

/// Mathematical model of a `Metric`.
#[verifier::ext_equal]
pub struct MetricModel {
    pub key: MetricKeyModel,
    pub value_milli: int,
}

impl View for MetricKey {
    type V = MetricKeyModel;

    open spec fn view(&self) -> MetricKeyModel {
        MetricKeyModel {
            metric_type: self.metric_type,
            name: self.name@,
            labels: self.labels.deep_view(),
        }
    }
}

impl DeepView for MetricKey {
    type V = MetricKeyModel;

    open spec fn deep_view(&self) -> MetricKeyModel {
        self.view()
    }
}

impl View for Metric {
    type V = MetricModel;

    open spec fn view(&self) -> MetricModel {
        MetricModel { key: self.key@, value_milli: self.value_milli as int }
    }
}

impl DeepView for Metric {
    type V = MetricModel;

    open spec fn deep_view(&self) -> MetricModel {
        self.view()
    }
}

} // verus!
