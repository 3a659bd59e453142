//! Errors of metric registration and recording.

use vstd::prelude::*;

use crate::metrics::MetricType;
use crate::request::{decimal, push_decimal, push_signed_decimal, signed_decimal};

verus! {

/// A type that no code outside this library can build, which keeps the
/// error enums open to new variants.
#[derive(Copy, Clone, Debug, Eq, Hash, PartialEq)]
pub struct Empty {
    unconstructible: (),
}

/// Why a summary could not answer.
#[derive(Debug)]
pub enum SummaryError {
    /// The summary does not support the requested operation.
    Unsupported,
    /// An error of the summary's own, held by its message.
    Custom(String),
    /// Never constructed; reserves room for further variants.
    __Nonexhaustive(Empty),
}

impl SummaryError {
    /// The sentence that describes the error.
    pub fn message(&self) -> (r: String)
        ensures
            r@ == match self {
                SummaryError::Unsupported => "operation not supported"@,
                SummaryError::Custom(m) => m@,
                SummaryError::__Nonexhaustive(_) => Seq::<char>::empty(),
            },
    {
        match self {
            SummaryError::Unsupported => "operation not supported".to_owned(),
            SummaryError::Custom(m) => m.clone(),
            SummaryError::__Nonexhaustive(_) => String::new(),
        }
    }
}

/// Why a metric could not be registered.
#[derive(Copy, Clone, Debug)]
pub enum RegisterError {
    /// A metric of that name exists already.
    MetricAlreadyExists,
    /// The metrics library has been shut down.
    LibraryShutdown,
    /// Never constructed; reserves room for further variants.
    __Nonexhaustive(Empty),
}

/// Why a metric could not be removed.
#[derive(Copy, Clone, Debug)]
pub enum UnregisterError {
    /// No metric of that name exists.
    NoSuchMetric,
    /// The metrics library has been shut down.
    LibraryShutdown,
    /// Never constructed; reserves room for further variants.
    __Nonexhaustive(Empty),
}

/// What went wrong when recording to a metric.
#[derive(Copy, Clone, Debug)]
pub enum MetricErrorData {
    /// A negative value was given where an unsigned one was expected.
    InvalidUnsignedValue(i64),
    /// An unsigned value too large for a signed one was given.
    InvalidSignedValue(u64),
    /// The metric cannot be incremented.
    InvalidIncrement { ty: MetricType },
    /// The metric cannot be decremented.
    InvalidDecrement { ty: MetricType },
    /// The metric is of another kind than the operation expects.
    WrongType { expected: MetricType, found: MetricType },
    /// Never constructed; reserves room for further variants.
    __Nonexhaustive(Empty),
}

/// An error while recording to the metric named `metric`.
#[derive(Copy, Clone, Debug)]
pub struct MetricError<'m> {
    /// The metric written to.
    pub metric: &'m str,
    /// What went wrong.
    pub data: MetricErrorData,
}

/// The sentence that describes an error on the metric `metric`.
pub open spec fn metric_error_text(metric: Seq<char>, data: MetricErrorData) -> Seq<char> {
    match data {
        MetricErrorData::InvalidUnsignedValue(val) => "Attempted to write a value '"@
            + signed_decimal(val as int) + "' to the metric '"@ + metric
            + "' \\\n                     but it could not be converted to a u64"@,
        MetricErrorData::InvalidSignedValue(val) => "Attempted to write a value '"@ + decimal(
            val as nat,
        ) + "' to the metric '"@ + metric
            + "' \\\n                       but it could not be converted to a i64"@,
        MetricErrorData::InvalidIncrement { ty } => "Attempted to increment metric '"@ + metric
            + "' but it \\\n                       is a "@ + ty.spec_name()
            + " which does not support being incremented"@,
        MetricErrorData::InvalidDecrement { ty } => "Attempted to decrement metric '"@ + metric
            + "' but it \\\n                       is a "@ + ty.spec_name()
            + " which does not support being decrement"@,
        MetricErrorData::WrongType { expected, found } => "Expected metric '"@ + metric
            + "' to be a "@ + expected.spec_name() + " but it was actually a "@ + found.spec_name(),
        MetricErrorData::__Nonexhaustive(_) => Seq::empty(),
    }
}

impl<'m> MetricError<'m> {
    /// The sentence that describes the error.
    pub fn message(&self) -> (r: String)
        ensures
            r@ == metric_error_text(self.metric@, self.data),
    {
        let mut s = String::new();
        match self.data {
            MetricErrorData::InvalidUnsignedValue(val) => {
                s.append("Attempted to write a value '");
                push_signed_decimal(&mut s, val);
                s.append("' to the metric '");
                s.append(self.metric);
                s.append("' \\\n                     but it could not be converted to a u64");
            },
            MetricErrorData::InvalidSignedValue(val) => {
                s.append("Attempted to write a value '");
                push_decimal(&mut s, val);
                s.append("' to the metric '");
                s.append(self.metric);
                s.append("' \\\n                       but it could not be converted to a i64");
            },
            MetricErrorData::InvalidIncrement { ty } => {
                s.append("Attempted to increment metric '");
                s.append(self.metric);
                s.append("' but it \\\n                       is a ");
                s.append(ty.name());
                s.append(" which does not support being incremented");
            },
            MetricErrorData::InvalidDecrement { ty } => {
                s.append("Attempted to decrement metric '");
                s.append(self.metric);
                s.append("' but it \\\n                       is a ");
                s.append(ty.name());
                s.append(" which does not support being decrement");
            },
            MetricErrorData::WrongType { expected, found } => {
                s.append("Expected metric '");
                s.append(self.metric);
                s.append("' to be a ");
                s.append(expected.name());
                s.append(" but it was actually a ");
                s.append(found.name());
            },
            MetricErrorData::__Nonexhaustive(_) => {},
        }
        s
    }

    /// A negative value `val` was given to an unsigned metric.
    pub fn invalid_unsigned(metric: &'m str, val: i64) -> (e: Self)
        ensures
            e.metric == metric,
            e.data == MetricErrorData::InvalidUnsignedValue(val),
    {
        MetricError { metric, data: MetricErrorData::InvalidUnsignedValue(val) }
    }

    /// A value `val` too large for a signed metric was given.
    pub fn invalid_signed(metric: &'m str, val: u64) -> (e: Self)
        ensures
            e.metric == metric,
            e.data == MetricErrorData::InvalidSignedValue(val),
    {
        MetricError { metric, data: MetricErrorData::InvalidSignedValue(val) }
    }

    /// A metric of kind `ty` was incremented.
    pub fn invalid_increment(metric: &'m str, ty: MetricType) -> (e: Self)
        ensures
            e.metric == metric,
            e.data == (MetricErrorData::InvalidIncrement { ty }),
    {
        MetricError { metric, data: MetricErrorData::InvalidIncrement { ty } }
    }

    /// A metric of kind `ty` was decremented.
    pub fn invalid_decrement(metric: &'m str, ty: MetricType) -> (e: Self)
        ensures
            e.metric == metric,
            e.data == (MetricErrorData::InvalidDecrement { ty }),
    {
        MetricError { metric, data: MetricErrorData::InvalidDecrement { ty } }
    }

    /// A metric of kind `found` was used as one of kind `expected`.
    pub fn wrong_type(metric: &'m str, expected: MetricType, found: MetricType) -> (e:
        Self)
        ensures
            e.metric == metric,
            e.data == (MetricErrorData::WrongType { expected, found }),
    {
        MetricError { metric, data: MetricErrorData::WrongType { expected, found } }
    }
}

} // verus!
