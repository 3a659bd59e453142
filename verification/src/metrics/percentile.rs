//! Percentiles as fixed-point numbers.

use vstd::prelude::*;

use core::cmp::Ordering;
use vstd::std_specs::cmp::PartialOrdSpecImpl;

verus! {

/// The fixed-point representation of one (the hundredth percentile).
pub const MAX_PERCENTILE: u32 = 1_000_000_000u32;

/// A percentile: a fixed-point number from 0 to 1 in steps of one
/// billionth, held as the number of billionths.
#[derive(Copy, Clone, Debug, PartialEq, Eq, Structural, Ord)]
pub struct Percentile {
    val: u32,
}

impl PartialOrd for Percentile {
    fn partial_cmp(&self, other: &Percentile) -> (r: Option<Ordering>) {
        if self.val < other.val {
            Some(Ordering::Less)
        } else if self.val > other.val {
            Some(Ordering::Greater)
        } else {
            Some(Ordering::Equal)
        }
    }
}

impl PartialOrdSpecImpl for Percentile {
    open spec fn obeys_partial_cmp_spec() -> bool {
        true
    }

    open spec fn partial_cmp_spec(&self, other: &Percentile) -> Option<Ordering> {
        if self.value() < other.value() {
            Some(Ordering::Less)
        } else if self.value() > other.value() {
            Some(Ordering::Greater)
        } else {
            Some(Ordering::Equal)
        }
    }
}

/// Percentiles are ordered as their numbers of billionths are, and two
/// percentiles are equal exactly when those numbers are.
pub proof fn lemma_percentile_order(p: Percentile, q: Percentile)
    ensures
        (vstd::std_specs::cmp::PartialOrdSpec::partial_cmp_spec(&p, &q) == Some(Ordering::Less)) <==> p.value() < q.value(),
        (vstd::std_specs::cmp::PartialOrdSpec::partial_cmp_spec(&p, &q) matches Some(Ordering::Less | Ordering::Equal)) <==> p.value()
            <= q.value(),
        (vstd::std_specs::cmp::PartialOrdSpec::partial_cmp_spec(&p, &q) == Some(Ordering::Equal)) <==> p.value() == q.value(),
        (p == q) <==> p.value() == q.value(),
{
}

impl Percentile {
    /// A percentile never exceeds one.
    #[verifier::type_invariant]
    spec fn in_range(self) -> bool {
        self.val <= MAX_PERCENTILE
    }

    /// The number of billionths.
    pub closed spec fn value(self) -> u32 {
        self.val
    }

    /// The percentile of `val` billionths, or `None` when `val` exceeds one
    /// billion.
    pub fn new(val: u32) -> (r: Option<Self>)
        ensures
            r is Some <==> val <= MAX_PERCENTILE,
            r matches Some(p) ==> p.value() == val,
    {
        if val > MAX_PERCENTILE {
            return None;
        }
        Some(Percentile { val })
    }

    /// The number of billionths.
    pub fn into_inner(self) -> (r: u32)
        ensures
            r == self.value(),
            r <= MAX_PERCENTILE,
    {
        proof {
            use_type_invariant(&self);
        }
        self.val
    }

    /// The 0th percentile, the least value of a sample.
    pub fn minimum() -> (r: Self)
        ensures
            r.value() == 0,
    {
        Percentile { val: 0 }
    }

    /// The 100th percentile, the greatest value of a sample.
    pub fn maximum() -> (r: Self)
        ensures
            r.value() == MAX_PERCENTILE,
    {
        Percentile { val: MAX_PERCENTILE }
    }

    /// The 0.01th percentile.
    pub fn p001() -> (r: Self)
        ensures
            r.value() == MAX_PERCENTILE / 10000,
    {
        Percentile { val: Self::maximum().val / 10000 }
    }

    /// The 0.1th percentile.
    pub fn p01() -> (r: Self)
        ensures
            r.value() == MAX_PERCENTILE / 1000,
    {
        Percentile { val: Self::maximum().val / 1000 }
    }

    /// The 1st percentile.
    pub fn p1() -> (r: Self)
        ensures
            r.value() == MAX_PERCENTILE / 100,
    {
        Percentile { val: Self::maximum().val / 100 }
    }

    /// The 5th percentile.
    pub fn p5() -> (r: Self)
        ensures
            r.value() == MAX_PERCENTILE / 20,
    {
        Percentile { val: Self::maximum().val / 20 }
    }

    /// The 10th percentile.
    pub fn p10() -> (r: Self)
        ensures
            r.value() == MAX_PERCENTILE / 10,
    {
        Percentile { val: Self::maximum().val / 10 }
    }

    /// The 25th percentile.
    pub fn p25() -> (r: Self)
        ensures
            r.value() == MAX_PERCENTILE / 4,
    {
        Percentile { val: Self::maximum().val / 4 }
    }

    /// The 50th percentile, the median.
    pub fn p50() -> (r: Self)
        ensures
            r.value() == MAX_PERCENTILE / 2,
    {
        Percentile { val: Self::maximum().val / 2 }
    }

    /// The 75th percentile.
    pub fn p75() -> (r: Self)
        ensures
            r.value() == MAX_PERCENTILE / 4 * 3,
    {
        Percentile { val: Self::p25().val * 3 }
    }

    /// The 90th percentile.
    pub fn p90() -> (r: Self)
        ensures
            r.value() == MAX_PERCENTILE / 10 * 9,
    {
        Percentile { val: Self::p10().val * 9 }
    }

    /// The 95th percentile.
    pub fn p95() -> (r: Self)
        ensures
            r.value() == MAX_PERCENTILE - MAX_PERCENTILE / 20,
    {
        Percentile { val: Self::maximum().val - Self::p5().val }
    }

    /// The 99th percentile.
    pub fn p99() -> (r: Self)
        ensures
            r.value() == MAX_PERCENTILE - MAX_PERCENTILE / 100,
    {
        Percentile { val: Self::maximum().val - Self::p1().val }
    }

    /// The 99.9th percentile.
    pub fn p999() -> (r: Self)
        ensures
            r.value() == MAX_PERCENTILE - MAX_PERCENTILE / 1000,
    {
        Percentile { val: Self::maximum().val - Self::p01().val }
    }

    /// The 99.99th percentile.
    pub fn p9999() -> (r: Self)
        ensures
            r.value() == MAX_PERCENTILE - MAX_PERCENTILE / 10000,
    {
        Percentile { val: Self::maximum().val - Self::p001().val }
    }
}

} // verus!
