//! A value written to a metric: signed or unsigned, converted to the kind
//! of number the metric holds.

use vstd::prelude::*;

verus! {

/// A value written to a metric.
#[derive(Copy, Clone, Debug, PartialEq, Eq, Structural)]
pub enum MetricValue {
    Signed(i64),
    Unsigned(u64),
}

impl MetricValue {
    /// The value as a `u64`, when it is not negative.
    pub open spec fn spec_as_u64(self) -> Option<u64> {
        match self {
            MetricValue::Signed(v) => if v >= 0 {
                Some(v as u64)
            } else {
                None
            },
            MetricValue::Unsigned(v) => Some(v),
        }
    }

    /// The value as an `i64`, when it fits in one.
    pub open spec fn spec_as_i64(self) -> Option<i64> {
        match self {
            MetricValue::Signed(v) => Some(v),
            MetricValue::Unsigned(v) => if v <= i64::MAX {
                Some(v as i64)
            } else {
                None
            },
        }
    }

    /// The bits of the value read as a `u64`.
    pub open spec fn spec_as_u64_unchecked(self) -> u64 {
        match self {
            MetricValue::Signed(v) => v as u64,
            MetricValue::Unsigned(v) => v,
        }
    }

    /// The bits of the value read as an `i64`.
    pub open spec fn spec_as_i64_unchecked(self) -> i64 {
        match self {
            MetricValue::Signed(v) => v,
            MetricValue::Unsigned(v) => v as i64,
        }
    }

    /// The value as a `u64`, when it is not negative.
    pub fn as_u64(&self) -> (r: Option<u64>)
        ensures
            r == self.spec_as_u64(),
    {
        match *self {
            MetricValue::Signed(v) => if v >= 0 {
                Some(v as u64)
            } else {
                None
            },
            MetricValue::Unsigned(v) => Some(v),
        }
    }

    /// The value as an `i64`, when it fits in one.
    pub fn as_i64(&self) -> (r: Option<i64>)
        ensures
            r == self.spec_as_i64(),
    {
        match *self {
            MetricValue::Signed(v) => Some(v),
            MetricValue::Unsigned(v) => if v <= i64::MAX as u64 {
                Some(v as i64)
            } else {
                None
            },
        }
    }

    /// The bits of the value read as a `u64`.
    pub fn as_u64_unchecked(&self) -> (r: u64)
        ensures
            r == self.spec_as_u64_unchecked(),
    {
        match *self {
            MetricValue::Signed(v) => v as u64,
            MetricValue::Unsigned(v) => v,
        }
    }

    /// The bits of the value read as an `i64`.
    pub fn as_i64_unchecked(&self) -> (r: i64)
        ensures
            r == self.spec_as_i64_unchecked(),
    {
        match *self {
            MetricValue::Signed(v) => v,
            MetricValue::Unsigned(v) => v as i64,
        }
    }
}

} // verus!
