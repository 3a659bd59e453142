//! Value types of a metrics library: instants and intervals, percentiles,
//! metric metadata, metric kinds and the errors of metric operations.

pub mod error;
pub mod instant;
pub mod metadata;
pub mod percentile;
pub mod registry;
pub mod value;

use vstd::prelude::*;

verus! {

/// The kinds of metric.
#[derive(Copy, Clone, Debug, PartialEq, Eq, Structural, Hash)]
pub enum MetricType {
    Counter,
    Gauge,
    Summary,
}

impl MetricType {
    /// The name of the kind, in lower case.
    pub open spec fn spec_name(self) -> Seq<char> {
        match self {
            MetricType::Counter => "counter"@,
            MetricType::Gauge => "gauge"@,
            MetricType::Summary => "summary"@,
        }
    }

    /// The name of the kind, in lower case.
    pub fn name(&self) -> (r: &'static str)
        ensures
            r@ == self.spec_name(),
    {
        match self {
            MetricType::Counter => "counter",
            MetricType::Gauge => "gauge",
            MetricType::Summary => "summary",
        }
    }
}

} // verus!
