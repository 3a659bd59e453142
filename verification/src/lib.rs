//! Verified building blocks of an RPC load generator: counters and
//! histograms for recording latencies, parsers that classify protocol
//! responses, builders for protocol requests, and small metric value types.

pub mod bucket;
pub mod bucketing;
pub mod buffer;
pub mod circular;
pub mod counter;
pub mod ddsketch;
pub mod flag;
pub mod heatmap;
pub mod histogram;
pub mod latched;
pub mod metrics;
pub mod moving;
pub mod protocol;
pub mod request;
pub mod saturating;
pub mod stats;
pub mod text;
mod trusted;
pub mod wire;
pub mod workload;
pub mod wrapper;

