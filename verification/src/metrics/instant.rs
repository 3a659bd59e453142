//! Points in time and the intervals between them, in nanoseconds.

use vstd::prelude::*;

use core::cmp::Ordering;
use vstd::std_specs::cmp::PartialOrdSpecImpl;

use crate::trusted::precise_time_ns;

verus! {

/// A point in time: nanoseconds since an epoch that is fixed within the
/// process.
#[derive(Copy, Clone, Debug, Default, PartialEq, Eq, PartialOrd, Ord, Hash)]
pub struct Instant {
    ns_since_epoch: u64,
}

/// A length of time in nanoseconds, ordered by its nanoseconds.
#[derive(Copy, Clone, Debug, PartialEq, Eq, Structural, Ord, Hash)]
pub struct Interval {
    duration_ns: u64,
}

impl View for Instant {
    type V = u64;

    closed spec fn view(&self) -> u64 {
        self.ns_since_epoch
    }
}

impl View for Interval {
    type V = u64;

    closed spec fn view(&self) -> u64 {
        self.duration_ns
    }
}

impl PartialOrd for Interval {
    fn partial_cmp(&self, other: &Interval) -> (r: Option<Ordering>) {
        if self.duration_ns < other.duration_ns {
            Some(Ordering::Less)
        } else if self.duration_ns > other.duration_ns {
            Some(Ordering::Greater)
        } else {
            Some(Ordering::Equal)
        }
    }
}

impl PartialOrdSpecImpl for Interval {
    open spec fn obeys_partial_cmp_spec() -> bool {
        true
    }

    open spec fn partial_cmp_spec(&self, other: &Interval) -> Option<Ordering> {
        if self@ < other@ {
            Some(Ordering::Less)
        } else if self@ > other@ {
            Some(Ordering::Greater)
        } else {
            Some(Ordering::Equal)
        }
    }
}

/// Intervals are ordered as their nanoseconds are, and two intervals are
/// equal exactly when their nanoseconds are.
pub proof fn lemma_interval_order(a: Interval, b: Interval)
    ensures
        (vstd::std_specs::cmp::PartialOrdSpec::partial_cmp_spec(&a, &b) == Some(Ordering::Less)) <==> a@ < b@,
        (vstd::std_specs::cmp::PartialOrdSpec::partial_cmp_spec(&a, &b) matches Some(Ordering::Less | Ordering::Equal)) <==> a@ <= b@,
        (vstd::std_specs::cmp::PartialOrdSpec::partial_cmp_spec(&a, &b) == Some(Ordering::Equal)) <==> a@ == b@,
        (a == b) <==> a@ == b@,
{
}

/// `a * b`, or `u64::MAX` where the product does not fit.
pub open spec fn saturating_product(a: u64, b: u64) -> u64 {
    if a * b > u64::MAX {
        u64::MAX
    } else {
        (a * b) as u64
    }
}

fn saturating_mul(a: u64, b: u64) -> (r: u64)
    requires
        b > 0,
    ensures
        r == saturating_product(a, b),
{
    if a > u64::MAX / b {
        proof {
            assert(a * b > u64::MAX) by (nonlinear_arith)
                requires
                    a > u64::MAX / b,
                    b > 0,
            ;
        }
        u64::MAX
    } else {
        proof {
            assert(a * b <= u64::MAX) by (nonlinear_arith)
                requires
                    a <= u64::MAX / b,
                    b > 0,
            ;
        }
        a * b
    }
}

/// The current time, for recording a metric; what the clock gives is
/// left open.
pub fn current_time() -> (r: Instant) {
    Instant::now()
}

impl Instant {
    /// The current time.
    pub fn now() -> (r: Self) {
        Instant { ns_since_epoch: precise_time_ns() }
    }

    /// The instant `ns` nanoseconds after the epoch.
    pub fn from_nanos(ns: u64) -> (r: Self)
        ensures
            r@ == ns,
    {
        Instant { ns_since_epoch: ns }
    }
}

impl core::ops::Sub<Instant> for Instant {
    type Output = Interval;

    /// The time from `other` to `self`, or zero when `other` is later.
    fn sub(self, other: Instant) -> (r: Interval)
        ensures
            r@ == (if self@ >= other@ {
                self@ - other@
            } else {
                0
            }),
    {
        Interval { duration_ns: self.ns_since_epoch.saturating_sub(other.ns_since_epoch) }
    }
}

impl vstd::std_specs::ops::SubSpecImpl<Instant> for Instant {
    open spec fn obeys_sub_spec() -> bool {
        true
    }

    open spec fn sub_req(self, rhs: Instant) -> bool {
        true
    }

    closed spec fn sub_spec(self, rhs: Instant) -> Interval {
        Interval {
            duration_ns: if self@ >= rhs@ {
                (self@ - rhs@) as u64
            } else {
                0
            },
        }
    }
}

impl Interval {
    /// An interval of `secs` seconds, or the longest interval where that
    /// many nanoseconds do not fit.
    pub fn from_seconds(secs: u64) -> (r: Self)
        ensures
            r@ == saturating_product(secs, 1_000_000_000),
    {
        Interval { duration_ns: saturating_mul(secs, 1_000_000_000) }
    }

    /// An interval of `millis` milliseconds, saturating like
    /// `from_seconds`.
    pub fn from_millis(millis: u64) -> (r: Self)
        ensures
            r@ == saturating_product(millis, 1_000_000),
    {
        Interval { duration_ns: saturating_mul(millis, 1_000_000) }
    }

    /// An interval of `micros` microseconds, saturating like
    /// `from_seconds`.
    pub fn from_micros(micros: u64) -> (r: Self)
        ensures
            r@ == saturating_product(micros, 1_000),
    {
        Interval { duration_ns: saturating_mul(micros, 1_000) }
    }

    /// An interval of `nanos` nanoseconds.
    pub fn from_nanos(nanos: u64) -> (r: Self)
        ensures
            r@ == nanos,
    {
        Interval { duration_ns: nanos }
    }

    /// The whole seconds in the interval.
    pub fn as_seconds(self) -> (r: u64)
        ensures
            r == self@ / 1_000_000_000,
    {
        self.duration_ns / 1_000_000_000
    }

    /// The whole milliseconds in the interval.
    pub fn as_millis(self) -> (r: u64)
        ensures
            r == self@ / 1_000_000,
    {
        self.duration_ns / 1_000_000
    }

    /// The whole microseconds in the interval.
    pub fn as_micros(self) -> (r: u64)
        ensures
            r == self@ / 1_000,
    {
        self.duration_ns / 1_000
    }

    /// The nanoseconds in the interval.
    pub fn as_nanos(self) -> (r: u64)
        ensures
            r == self@,
    {
        self.duration_ns
    }
}

} // verus!
