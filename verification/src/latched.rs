use vstd::prelude::*;

pub mod simple;

use crate::bucketing::{
    bucket_index, bucket_lower, lemma_index_decomposed, lemma_index_mono, lemma_lower_of_index, lemma_next_lower, lemma_mul_le, log10_floor, lemma_index_of_lower,
    lemma_log10_floor, lemma_lower_below, lemma_lower_strict, lemma_pow10_bounded_exponent, lemma_pow10_fits, lemma_pow10_mono, lemma_pow10_pos, log10_floor_u64, pow10, pow10_u64,
};
use crate::counter::{wrap_add_u64, wrap_sub_u64};

verus! {

/// One bucket of a histogram: a count of samples and the half-open range
/// `[min, max)` of values the bucket stands for.
pub struct Bucket {
    count: u64,
    min: u64,
    max: u64,
}

impl Bucket {
    pub closed spec fn spec_count(&self) -> u64 {
        self.count
    }

    pub closed spec fn spec_min(&self) -> u64 {
        self.min
    }

    pub closed spec fn spec_max(&self) -> u64 {
        self.max
    }

    /// Create an empty bucket covering `[min, max)`.
    pub fn new(min: u64, max: u64) -> (b: Self)
        ensures
            b.spec_count() == 0,
            b.spec_min() == min,
            b.spec_max() == max,
    {
        Bucket { count: 0, min, max }
    }

    /// Add `count` samples, wrapping on overflow.
    pub fn increment(&mut self, count: u64)
        ensures
            final(self).spec_count() == wrap_add_u64(old(self).spec_count(), count),
            final(self).spec_min() == old(self).spec_min(),
            final(self).spec_max() == old(self).spec_max(),
    {
        self.count = self.count.wrapping_add(count);
    }

    /// Remove `count` samples, wrapping on underflow.
    pub fn decrement(&mut self, count: u64)
        ensures
            final(self).spec_count() == wrap_sub_u64(old(self).spec_count(), count),
            final(self).spec_min() == old(self).spec_min(),
            final(self).spec_max() == old(self).spec_max(),
    {
        self.count = self.count.wrapping_sub(count);
    }

    /// Forget all samples.
    pub fn reset(&mut self)
        ensures
            final(self).spec_count() == 0,
            final(self).spec_min() == old(self).spec_min(),
            final(self).spec_max() == old(self).spec_max(),
    {
        self.count = 0;
    }

    pub fn count(&self) -> (r: u64)
        ensures
            r == self.spec_count(),
    {
        self.count
    }

    pub fn min(&self) -> (r: u64)
        ensures
            r == self.spec_min(),
    {
        self.min
    }

    pub fn max(&self) -> (r: u64)
        ensures
            r == self.spec_max(),
    {
        self.max
    }

    /// The value that stands for the whole bucket: its largest member.
    pub fn nominal(&self) -> (r: u64)
        requires
            self.spec_max() >= 1,
        ensures
            r == self.spec_max() - 1,
    {
        self.max - 1
    }

    /// The value the bucket is reported at: its largest member, as
    /// `nominal` gives it.
    pub fn value(&self) -> (r: u64)
        requires
            self.spec_max() >= 1,
        ensures
            r == self.spec_max() - 1,
    {
        self.nominal()
    }

    /// Number of distinct values the bucket covers.
    pub fn width(&self) -> (r: u64)
        requires
            self.spec_max() >= self.spec_min(),
        ensures
            r == self.spec_max() - self.spec_min(),
    {
        self.max - self.min
    }

    /// Samples per covered value, rounded down.
    pub fn weighted_count(&self) -> (r: u64)
        requires
            self.spec_max() > self.spec_min(),
        ensures
            r == self.spec_count() / ((self.spec_max() - self.spec_min()) as u64),
    {
        self.count / self.width()
    }
}

/// Parameters for which a `Latched` histogram can be built: the precision
/// keeps `10^precision` within `u64`, a precision of zero is only usable with
/// a maximum of at most one, and the number of buckets fits in memory.
pub open spec fn latched_params_ok(max: u64, precision: nat) -> bool {
    &&& precision <= 19
    &&& (precision >= 1 || max <= 1)
    &&& bucket_index(precision, max as nat) < usize::MAX
}

/// A fixed-size histogram of `u64` values between 0 and a maximum, exact for
/// values up to `10^precision` and keeping `precision` significant digits
/// above that. Values beyond the maximum are counted as too high.
pub struct Latched {
    max: u64,
    buckets: Vec<u64>,
    too_high: u64,
    exact_max: u64,
    precision: usize,
}

impl Latched {
    pub closed spec fn spec_max(&self) -> u64 {
        self.max
    }

    pub closed spec fn spec_precision(&self) -> nat {
        self.precision as nat
    }

    /// The per-bucket counts.
    pub closed spec fn counts(&self) -> Seq<u64> {
        self.buckets@
    }

    pub closed spec fn spec_too_high(&self) -> u64 {
        self.too_high
    }

    pub closed spec fn exact_ok(&self) -> bool {
        self.exact_max == pow10(self.precision as nat)
    }

    pub open spec fn wf(&self) -> bool {
        &&& latched_params_ok(self.spec_max(), self.spec_precision())
        &&& self.counts().len() == bucket_index(self.spec_precision(), self.spec_max() as nat) + 1
        &&& self.exact_ok()
    }

    /// Index of the bucket that holds `v`.
    pub open spec fn slot(&self, v: u64) -> nat {
        bucket_index(self.spec_precision(), v as nat)
    }

    /// The lower bound reported for bucket `i`.
    pub open spec fn min_value_spec(&self, i: nat) -> nat {
        if i <= pow10(self.spec_precision()) {
            i
        } else if i + 1 == self.counts().len() {
            self.spec_max() as nat
        } else {
            bucket_lower(self.spec_precision(), i)
        }
    }

    /// The (exclusive) upper bound reported for bucket `i`.
    pub open spec fn max_value_spec(&self, i: nat) -> nat {
        if i + 1 == self.counts().len() {
            (self.spec_max() + 1) as nat
        } else {
            self.min_value_spec(i + 1)
        }
    }

    /// Create a histogram which stores values between 0 and `max` while
    /// retaining `precision` significant digits.
    pub fn new(max: u64, precision: usize) -> (h: Self)
        requires
            latched_params_ok(max, precision as nat),
        ensures
            h.wf(),
            h.spec_max() == max,
            h.spec_precision() == precision,
            h.counts() == Seq::new(h.counts().len(), |i: int| 0u64),
            h.spec_too_high() == 0,
    {
        proof {
            lemma_pow10_fits(precision as nat);
        }
        let exact_max = pow10_u64(precision as u32);
        let mut histogram = Latched {
            max,
            buckets: Vec::new(),
            too_high: 0,
            exact_max,
            precision,
        };
        let last = match histogram.get_index(max) {
            Ok(i) => i,
            Err(_) => 0,
        };
        let mut i: usize = 0;
        while i <= last
            invariant
                i <= last + 1,
                last == bucket_index(precision as nat, max as nat),
                last < usize::MAX,
                histogram.buckets@ == Seq::new(i as nat, |k: int| 0u64),
                histogram.max == max,
                histogram.precision == precision,
                histogram.exact_max == pow10(precision as nat),
                histogram.too_high == 0,
            decreases last + 1 - i,
        {
            histogram.buckets.push(0);
            i = i + 1;
        }
        histogram
    }

    /// The bucket index of `value`, or an error when it exceeds the maximum.
    pub fn get_index(&self, value: u64) -> (r: Result<usize, ()>)
        requires
            latched_params_ok(self.spec_max(), self.spec_precision()),
            self.exact_ok(),
        ensures
            value > self.spec_max() ==> r is Err,
            value <= self.spec_max() ==> r == Ok::<usize, ()>(self.slot(value) as usize),
    {
        let ghost p = self.precision as nat;
        if value > self.max {
            return Err(());
        }
        proof {
            lemma_index_mono(p, value as nat, self.max as nat);
        }
        if value <= self.exact_max {
            return Ok(value as usize);
        }
        let e = log10_floor_u64(value);
        let prec = self.precision as u32;
        proof {
            lemma_index_decomposed(p, value as nat);
            lemma_log10_floor(value as nat);
            lemma_pow10_mono((e - p + 1) as nat, e as nat);
            lemma_pow10_mono((p - 1) as nat, p);
            lemma_pow10_pos((e - p + 1) as nat);
        }
        let divisor = pow10_u64(e - prec + 1);
        let shift = pow10_u64(prec - 1);
        let remainder = value / divisor;
        let width = 9 * shift;
        let ghost idx = bucket_index(p, value as nat);
        proof {
            assert(width * ((e - prec) as u64) <= idx);
        }
        let power_offset = width * ((e - prec) as u64);
        let index = self.exact_max + power_offset + (remainder - shift);
        Ok(index as usize)
    }

    /// The lower bound of bucket `index`, or an error past the last bucket.
    pub fn get_min_value(&self, index: usize) -> (r: Result<u64, ()>)
        requires
            self.wf(),
        ensures
            index >= self.counts().len() ==> r is Err,
            index < self.counts().len() ==> r == Ok::<u64, ()>(self.min_value_spec(index as nat) as u64),
            index < self.counts().len() ==> self.min_value_spec(index as nat) <= self.spec_max(),
    {
        let ghost p = self.precision as nat;
        let len = self.buckets.len();
        if index >= len {
            return Err(());
        }
        if (index as u64) <= self.exact_max {
            proof {
                lemma_exact_below_max(p, index as nat, self.max as nat);
            }
            return Ok(index as u64);
        }
        if index == len - 1 {
            return Ok(self.max);
        }
        proof {
            lemma_lower_below(p, index as nat, self.max as nat);
            lemma_index_of_lower(p, index as nat);
            lemma_pow10_mono((p - 1) as nat, p);
            lemma_pow10_pos((p - 1) as nat);
            lemma_pow10_fits(p);
        }
        let prec = self.precision as u32;
        let shift = pow10_u64(prec - 1);
        let width = 9 * shift;
        let offset = index as u64 - self.exact_max;
        let k = offset / width;
        proof {
            vstd::arithmetic::div_mod::lemma_fundamental_div_mod(offset as int, width as int);
            assert(width * k <= offset) by (nonlinear_arith)
                requires
                    width > 0,
                    k == offset / width,
                    offset == width * (offset / width) + offset % width,
                    offset % width >= 0,
            ;
        }
        let j = offset - width * k;
        let ghost lw = bucket_lower(p, index as nat);
        proof {
            vstd::arithmetic::div_mod::lemma_fundamental_div_mod(offset as int, width as int);
            assert(j == offset as int % width as int);
            assert(lw == (j + shift) * pow10((k + 1) as nat));
            lemma_pow10_pos((k + 1) as nat);
            assert(pow10((k + 1) as nat) <= lw) by (nonlinear_arith)
                requires
                    lw == (j + shift) * pow10((k + 1) as nat),
                    j + shift >= 1,
            ;
            lemma_pow10_bounded_exponent((k + 1) as nat);
        }
        let scale = pow10_u64((k + 1) as u32);
        let value = (j + shift) * scale;
        Ok(value)
    }

    /// The exclusive upper bound of bucket `index`.
    pub fn get_max_value(&self, index: usize) -> (r: Result<u64, ()>)
        requires
            self.wf(),
            index < self.counts().len(),
            index + 1 < self.counts().len() || self.spec_max() < u64::MAX,
        ensures
            r == Ok::<u64, ()>(self.max_value_spec(index as nat) as u64),
            self.max_value_spec(index as nat) <= u64::MAX,
    {
        if index == self.buckets.len() - 1 {
            Ok(self.max + 1)
        } else {
            match self.get_min_value(index + 1) {
                Ok(v) => Ok(v),
                Err(_) => Err(()),
            }
        }
    }

    /// The largest value held by bucket `index`.
    pub fn get_value(&self, index: usize) -> (r: Result<u64, ()>)
        requires
            self.wf(),
            index < self.counts().len(),
            index + 1 < self.counts().len() || self.spec_max() < u64::MAX,
        ensures
            r == Ok::<u64, ()>((self.max_value_spec(index as nat) - 1) as u64),
            self.max_value_spec(index as nat) >= 1,
    {
        proof {
            self.lemma_bucket_nonempty(index as nat);
        }
        match self.get_max_value(index) {
            Ok(v) => Ok(v - 1),
            Err(_) => Err(()),
        }
    }
}

impl Latched {
    /// Every bucket covers a non-empty range of values: its lower bound is
    /// below its upper bound.
    pub proof fn lemma_bucket_nonempty(&self, i: nat)
        requires
            self.wf(),
            i < self.counts().len(),
        ensures
            self.min_value_spec(i) < self.max_value_spec(i),
            self.max_value_spec(i) >= 1,
    {
        let p = self.spec_precision();
        let max = self.spec_max() as nat;
        let len = self.counts().len();
        let e = pow10(p);
        if i + 1 == len {
            if i <= e {
                lemma_exact_below_max(p, i, max);
            }
        } else if i + 1 <= e {
        } else {
            if max <= e {
                assert(bucket_index(p, max) == max);
            }
            assert(p >= 1);
            if i + 2 == len {
                if i > e {
                    lemma_lower_below(p, i, max);
                }
            } else {
                if i <= e {
                    lemma_index_of_lower(p, i + 1);
                } else {
                    lemma_lower_strict(p, i);
                }
            }
        }
    }
}

impl Latched {
    /// Record `count` samples of `value`; values above the maximum are counted
    /// as too high. Counts wrap on overflow.
    pub fn increment(&mut self, value: u64, count: u64)
        requires
            old(self).wf(),
        ensures
            final(self).wf(),
            final(self).spec_max() == old(self).spec_max(),
            final(self).spec_precision() == old(self).spec_precision(),
            (final(self).counts(), final(self).spec_too_high()) == add_sample(
                old(self).spec_precision(),
                old(self).spec_max(),
                old(self).counts(),
                old(self).spec_too_high(),
                value,
                count,
            ),
    {
        match self.get_index(value) {
            Ok(index) => {
                proof {
                    lemma_index_mono(self.precision as nat, value as nat, self.max as nat);
                }
                let c = self.buckets[index].wrapping_add(count);
                self.buckets.set(index, c);
            },
            Err(_) => {
                self.too_high = self.too_high.wrapping_add(count);
            },
        }
    }

    /// Remove `count` samples of `value`; counts wrap on underflow.
    pub fn decrement(&mut self, value: u64, count: u64)
        requires
            old(self).wf(),
        ensures
            final(self).wf(),
            final(self).spec_max() == old(self).spec_max(),
            final(self).spec_precision() == old(self).spec_precision(),
            (final(self).counts(), final(self).spec_too_high()) == remove_sample(
                old(self).spec_precision(),
                old(self).spec_max(),
                old(self).counts(),
                old(self).spec_too_high(),
                value,
                count,
            ),
    {
        match self.get_index(value) {
            Ok(index) => {
                proof {
                    lemma_index_mono(self.precision as nat, value as nat, self.max as nat);
                }
                let c = self.buckets[index].wrapping_sub(count);
                self.buckets.set(index, c);
            },
            Err(_) => {
                self.too_high = self.too_high.wrapping_sub(count);
            },
        }
    }

    /// Adds `count` to the bucket of `value`, or to the too-high count,
    /// stopping at `u64::MAX`.
    pub(crate) fn saturating_increment(&mut self, value: u64, count: u64)
        requires
            old(self).wf(),
        ensures
            final(self).wf(),
            final(self).spec_max() == old(self).spec_max(),
            final(self).spec_precision() == old(self).spec_precision(),
            (final(self).counts(), final(self).spec_too_high()) == saturating_add_sample(
                old(self).spec_precision(),
                old(self).spec_max(),
                old(self).counts(),
                old(self).spec_too_high(),
                value,
                count,
            ),
    {
        match self.get_index(value) {
            Ok(index) => {
                proof {
                    lemma_index_mono(self.precision as nat, value as nat, self.max as nat);
                }
                let c = self.buckets[index].saturating_add(count);
                self.buckets.set(index, c);
            },
            Err(_) => {
                self.too_high = self.too_high.saturating_add(count);
            },
        }
    }

    /// Takes `count` from the bucket of `value`, or from the too-high count,
    /// stopping at zero.
    pub(crate) fn saturating_decrement(&mut self, value: u64, count: u64)
        requires
            old(self).wf(),
        ensures
            final(self).wf(),
            final(self).spec_max() == old(self).spec_max(),
            final(self).spec_precision() == old(self).spec_precision(),
            (final(self).counts(), final(self).spec_too_high()) == saturating_remove_sample(
                old(self).spec_precision(),
                old(self).spec_max(),
                old(self).counts(),
                old(self).spec_too_high(),
                value,
                count,
            ),
    {
        match self.get_index(value) {
            Ok(index) => {
                proof {
                    lemma_index_mono(self.precision as nat, value as nat, self.max as nat);
                }
                let c = self.buckets[index].saturating_sub(count);
                self.buckets.set(index, c);
            },
            Err(_) => {
                self.too_high = self.too_high.saturating_sub(count);
            },
        }
    }

    /// Forget all samples.
    pub fn reset(&mut self)
        requires
            old(self).wf(),
        ensures
            final(self).wf(),
            final(self).spec_max() == old(self).spec_max(),
            final(self).spec_precision() == old(self).spec_precision(),
            final(self).counts() == Seq::new(old(self).counts().len(), |i: int| 0u64),
            final(self).spec_too_high() == 0,
    {
        let mut i: usize = 0;
        let len = self.buckets.len();
        while i < len
            invariant
                self.wf(),
                len == self.counts().len(),
                i <= len,
                self.spec_max() == old(self).spec_max(),
                self.spec_precision() == old(self).spec_precision(),
                forall|k: int| 0 <= k < i ==> self.counts()[k] == 0,
            decreases len - i,
        {
            self.buckets.set(i, 0);
            i = i + 1;
        }
        self.too_high = 0;
        assert(self.counts() =~= Seq::new(old(self).counts().len(), |i: int| 0u64));
    }

    /// The bucket at `index` with its bounds and count, if it exists.
    pub fn get_bucket(&self, index: usize) -> (r: Option<Bucket>)
        requires
            self.wf(),
            index >= self.counts().len() || index + 1 < self.counts().len() || self.spec_max()
                < u64::MAX,
        ensures
            index >= self.counts().len() ==> r is None,
            index < self.counts().len() ==> r is Some && r->0.spec_count() == self.counts()[index as int]
                && r->0.spec_min() == self.min_value_spec(index as nat) && r->0.spec_max()
                == self.max_value_spec(index as nat),
    {
        if index < self.buckets.len() {
            let min = match self.get_min_value(index) {
                Ok(v) => v,
                Err(_) => 0,
            };
            let max = match self.get_max_value(index) {
                Ok(v) => v,
                Err(_) => 0,
            };
            let mut bucket = Bucket::new(min, max);
            bucket.increment(self.buckets[index]);
            Some(bucket)
        } else {
            None
        }
    }

    /// The count of bucket `index`.
    pub fn bucket_count(&self, index: usize) -> (r: u64)
        requires
            index < self.counts().len(),
        ensures
            r == self.counts()[index as int],
    {
        self.buckets[index]
    }

    /// Number of samples recorded in the bucket that holds `value`; zero for
    /// values above the maximum.
    pub fn count(&self, value: u64) -> (r: u64)
        requires
            self.wf(),
            value > self.spec_max() || self.slot(value) + 1 < self.counts().len()
                || self.spec_max() < u64::MAX,
        ensures
            r == (if value <= self.spec_max() {
                self.counts()[self.slot(value) as int]
            } else {
                0
            }),
    {
        match self.get_index(value) {
            Ok(index) => {
                proof {
                    lemma_index_mono(self.precision as nat, value as nat, self.max as nat);
                }
                match self.get_bucket(index) {
                    Some(bucket) => bucket.count(),
                    None => 0,
                }
            },
            Err(_) => 0,
        }
    }

    /// The largest value stored in the buckets.
    pub fn max(&self) -> (r: u64)
        ensures
            r == self.spec_max(),
    {
        self.max
    }

    /// Number of significant digits kept.
    pub fn precision(&self) -> (r: usize)
        ensures
            r == self.spec_precision(),
    {
        self.precision
    }

    /// Number of samples that were above the maximum.
    pub fn too_high(&self) -> (r: u64)
        ensures
            r == self.spec_too_high(),
    {
        self.too_high
    }

    /// Number of buckets.
    pub fn buckets(&self) -> (r: usize)
        ensures
            r == self.counts().len(),
    {
        self.buckets.len()
    }

    /// Total number of samples, including those above the maximum.
    pub fn samples(&self) -> (r: u64)
        requires
            self.spec_too_high() + seq_sum(self.counts()) <= u64::MAX,
        ensures
            r == self.spec_too_high() + seq_sum(self.counts()),
    {
        let mut total = self.too_high;
        let mut i: usize = 0;
        while i < self.buckets.len()
            invariant
                i <= self.counts().len(),
                total == self.spec_too_high() + seq_sum(self.counts().take(i as int)),
                self.spec_too_high() + seq_sum(self.counts()) <= u64::MAX,
            decreases self.counts().len() - i,
        {
            proof {
                lemma_seq_sum_prefix(self.counts(), i as int);
                lemma_seq_sum_take_le(self.counts(), i + 1);
            }
            total = total + self.buckets[i];
            i = i + 1;
        }
        assert(self.counts().take(i as int) =~= self.counts());
        total
    }

    /// Total number of samples, including those above the maximum, or
    /// `None` when it does not fit in a `u64`.
    pub fn checked_samples(&self) -> (r: Option<u64>)
        ensures
            r == (if self.spec_too_high() + seq_sum(self.counts()) <= u64::MAX {
                Some((self.spec_too_high() + seq_sum(self.counts())) as u64)
            } else {
                None::<u64>
            }),
    {
        let mut total = self.too_high;
        let mut i: usize = 0;
        while i < self.buckets.len()
            invariant
                i <= self.counts().len(),
                total == self.spec_too_high() + seq_sum(self.counts().take(i as int)),
            decreases self.counts().len() - i,
        {
            proof {
                lemma_seq_sum_prefix(self.counts(), i as int);
                lemma_seq_sum_take_le(self.counts(), i + 1);
            }
            match total.checked_add(self.buckets[i]) {
                Some(t) => total = t,
                None => return None,
            }
            i = i + 1;
        }
        assert(self.counts().take(i as int) =~= self.counts());
        Some(total)
    }

    /// The sum of each bucket's count times its nominal value, or `None`
    /// when it does not fit in a `u64`.
    pub fn checked_weighted_sum(&self) -> (r: Option<u64>)
        requires
            self.wf(),
            self.spec_max() < u64::MAX,
        ensures
            r == (if self.weighted_sum(self.counts().len()) <= u64::MAX {
                Some(self.weighted_sum(self.counts().len()) as u64)
            } else {
                None::<u64>
            }),
    {
        let mut sum: u64 = 0;
        let mut i: usize = 0;
        let len = self.buckets.len();
        while i < len
            invariant
                self.wf(),
                len == self.counts().len(),
                i <= len,
                sum == self.weighted_sum(i as nat),
                self.spec_max() < u64::MAX,
            decreases len - i,
        {
            proof {
                self.lemma_weighted_sum_mono((i + 1) as nat, len as nat);
                self.lemma_bucket_nonempty(i as nat);
            }
            let bucket = match self.get_bucket(i) {
                Some(b) => b,
                None => Bucket::new(0, 1),
            };
            let term = match bucket.count().checked_mul(bucket.nominal()) {
                Some(t) => t,
                None => return None,
            };
            match sum.checked_add(term) {
                Some(t) => sum = t,
                None => return None,
            }
            i = i + 1;
        }
        Some(sum)
    }

    /// Sum over the first `n` buckets of count times the bucket's nominal
    /// value (its largest member).
    pub open spec fn weighted_sum(&self, n: nat) -> nat
        decreases n,
    {
        if n == 0 {
            0
        } else {
            self.weighted_sum((n - 1) as nat) + (self.counts()[n - 1] as nat) * ((self.max_value_spec(
                (n - 1) as nat,
            ) - 1) as nat)
        }
    }

    /// Without samples in the buckets, the weighted sum is zero.
    pub proof fn lemma_weighted_sum_zero(&self)
        requires
            self.spec_too_high() + seq_sum(self.counts()) == 0,
        ensures
            self.weighted_sum(self.counts().len()) == 0,
    {
        self.lemma_weighted_sum_zero_upto(self.counts().len());
    }

    proof fn lemma_weighted_sum_zero_upto(&self, n: nat)
        requires
            n <= self.counts().len(),
            seq_sum(self.counts()) == 0,
        ensures
            self.weighted_sum(n) == 0,
        decreases n,
    {
        if n > 0 {
            self.lemma_weighted_sum_zero_upto((n - 1) as nat);
            lemma_seq_sum_zero_entries(self.counts());
            assert(self.counts()[n - 1] == 0);
        }
    }

    /// Width of bucket `i`: the number of values it covers.
    pub open spec fn width_spec(&self, i: nat) -> nat {
        (self.max_value_spec(i) - self.min_value_spec(i)) as nat
    }

    /// Scan of the first `n` buckets for the largest count per covered value:
    /// the largest such density seen and the raw count of the first bucket
    /// that reached it.
    pub open spec fn density_scan(&self, n: nat) -> (nat, nat)
        decreases n,
    {
        if n == 0 {
            (0, 0)
        } else {
            let (best, mode) = self.density_scan((n - 1) as nat);
            let density = self.counts()[n - 1] as nat / self.width_spec((n - 1) as nat);
            if density > best {
                (density, self.counts()[n - 1] as nat)
            } else {
                (best, mode)
            }
        }
    }

    /// The rank query from bucket `i` on, when no bucket before `i` has a
    /// running total that reaches `need`, finds the first bucket whose
    /// running total does.
    proof fn lemma_rank_index_from(&self, need: nat, i: nat)
        requires
            i <= self.counts().len(),
            forall|j: int| 0 <= j < i ==> #[trigger] seq_sum(self.counts().take(j + 1)) < need,
        ensures
            self.rank_index(need, i) matches Some(k) ==> {
                &&& k < self.counts().len()
                &&& seq_sum(self.counts().take(k + 1 as int)) >= need
                &&& forall|j: int| 0 <= j < k ==> #[trigger] seq_sum(self.counts().take(j + 1)) < need
            },
            self.rank_index(need, i) is None ==> forall|j: int|
                0 <= j < self.counts().len() ==> #[trigger] seq_sum(self.counts().take(j + 1)) < need,
        decreases self.counts().len() - i,
    {
        if i < self.counts().len() && seq_sum(self.counts().take(i + 1 as int)) < need {
            self.lemma_rank_index_from(need, i + 1);
        }
    }

    /// The rank query finds the first bucket whose running total of counts
    /// reaches `need`; there is none only when the buckets together hold
    /// fewer than `need` samples (or there are no buckets).
    pub proof fn lemma_rank_index_is_first(&self, need: nat)
        ensures
            self.rank_index(need, 0) matches Some(k) ==> {
                &&& k < self.counts().len()
                &&& seq_sum(self.counts().take(k + 1 as int)) >= need
                &&& forall|j: int| 0 <= j < k ==> #[trigger] seq_sum(self.counts().take(j + 1)) < need
            },
            self.rank_index(need, 0) is None ==> seq_sum(self.counts()) < need || need == 0,
    {
        self.lemma_rank_index_from(need, 0);
        let n = self.counts().len();
        if self.rank_index(need, 0) is None {
            if n == 0 {
                assert(self.counts() =~= Seq::<u64>::empty());
            } else {
                let last = n - 1;
                assert(seq_sum(self.counts().take(last + 1)) < need);
                assert(self.counts().take(n as int) =~= self.counts());
            }
        }
    }

    /// The count of bucket `i` per value it covers.
    pub open spec fn density(&self, i: nat) -> nat {
        self.counts()[i as int] as nat / self.width_spec(i)
    }

    /// The scan for the mode finds the highest count per covered value
    /// among the first `n` buckets and reports the raw count of the first
    /// bucket that has it; when no bucket reaches one sample per value, both
    /// are zero.
    pub proof fn lemma_density_scan_finds_highest(&self, n: nat)
        requires
            n <= self.counts().len(),
        ensures
            forall|j: nat| j < n ==> #[trigger] self.density(j) <= self.density_scan(n).0,
            self.density_scan(n).0 == 0 ==> self.density_scan(n).1 == 0,
            self.density_scan(n).0 > 0 ==> exists|i: nat|
                i < n && #[trigger] self.density(i) == self.density_scan(n).0
                    && self.counts()[i as int] == self.density_scan(n).1 && forall|j: nat|
                    j < i ==> #[trigger] self.density(j) < self.density_scan(n).0,
        decreases n,
    {
        if n > 0 {
            let m = (n - 1) as nat;
            self.lemma_density_scan_finds_highest(m);
            let prev = self.density_scan(m);
            if self.density(m) > prev.0 {
                assert forall|j: nat| j < m implies #[trigger] self.density(j) < self.density_scan(
                    n,
                ).0 by {}
            } else if prev.0 > 0 {
                let i = choose|i: nat|
                    i < m && #[trigger] self.density(i) == prev.0 && self.counts()[i as int]
                        == prev.1 && forall|j: nat| j < i ==> #[trigger] self.density(j) < prev.0;
                assert(i < n && self.density(i) == self.density_scan(n).0);
            }
        }
    }

    /// Index of the first bucket at or after `i` whose running total of
    /// counts reaches `need`.
    pub open spec fn rank_index(&self, need: nat, i: nat) -> Option<nat>
        decreases self.counts().len() - i,
    {
        if i >= self.counts().len() {
            None
        } else if seq_sum(self.counts().take(i + 1 as int)) >= need {
            Some(i)
        } else {
            self.rank_index(need, i + 1)
        }
    }

    proof fn lemma_weighted_sum_mono(&self, i: nat, n: nat)
        requires
            self.wf(),
            i <= n <= self.counts().len(),
        ensures
            self.weighted_sum(i) <= self.weighted_sum(n),
        decreases n - i,
    {
        if i < n {
            self.lemma_weighted_sum_mono(i, (n - 1) as nat);
            self.lemma_bucket_nonempty((n - 1) as nat);
            let c = self.counts()[n - 1];
            let m = (self.max_value_spec((n - 1) as nat) - 1) as nat;
            assert(c * m >= 0) by (nonlinear_arith)
                requires
                    c >= 0,
                    m >= 0,
            ;
        }
    }

    /// Sum of all samples weighted by their buckets' nominal values, or
    /// `None` when the histogram is empty.
    pub fn sum(&self) -> (r: Option<u64>)
        requires
            self.wf(),
            self.spec_too_high() + seq_sum(self.counts()) <= u64::MAX,
            self.spec_max() < u64::MAX,
            self.weighted_sum(self.counts().len()) <= u64::MAX,
        ensures
            self.spec_too_high() + seq_sum(self.counts()) == 0 ==> r is None,
            self.spec_too_high() + seq_sum(self.counts()) != 0 ==> r == Some(
                self.weighted_sum(self.counts().len()) as u64,
            ),
    {
        if self.samples() == 0 {
            return None;
        }
        let mut sum: u64 = 0;
        let mut i: usize = 0;
        let len = self.buckets.len();
        while i < len
            invariant
                self.wf(),
                len == self.counts().len(),
                i <= len,
                sum == self.weighted_sum(i as nat),
                self.spec_max() < u64::MAX,
                self.weighted_sum(len as nat) <= u64::MAX,
            decreases len - i,
        {
            proof {
                self.lemma_weighted_sum_mono((i + 1) as nat, len as nat);
                self.lemma_bucket_nonempty(i as nat);
            }
            let bucket = match self.get_bucket(i) {
                Some(b) => b,
                None => Bucket::new(0, 1),
            };
            let term = bucket.count() * bucket.nominal();
            sum = sum + term;
            i = i + 1;
        }
        Some(sum)
    }

    /// The raw count of the bucket with the highest count per covered value,
    /// or `None` when the histogram is empty.
    pub fn mode(&self) -> (r: Option<u64>)
        requires
            self.wf(),
            self.spec_too_high() + seq_sum(self.counts()) <= u64::MAX,
            self.spec_max() < u64::MAX,
        ensures
            self.spec_too_high() + seq_sum(self.counts()) == 0 ==> r is None,
            self.spec_too_high() + seq_sum(self.counts()) != 0 ==> r == Some(
                self.density_scan(self.counts().len()).1 as u64,
            ),
    {
        if self.samples() == 0 {
            return None;
        }
        let (_, mode) = self.scan_density();
        Some(mode)
    }

    /// The highest count per covered value over all buckets, or `None` when
    /// the histogram is empty.
    pub fn highest_count(&self) -> (r: Option<u64>)
        requires
            self.wf(),
            self.spec_too_high() + seq_sum(self.counts()) <= u64::MAX,
            self.spec_max() < u64::MAX,
        ensures
            self.spec_too_high() + seq_sum(self.counts()) == 0 ==> r is None,
            self.spec_too_high() + seq_sum(self.counts()) != 0 ==> r == Some(
                self.density_scan(self.counts().len()).0 as u64,
            ),
    {
        if self.samples() == 0 {
            return None;
        }
        let (best, _) = self.scan_density();
        Some(best)
    }

    fn scan_density(&self) -> (r: (u64, u64))
        requires
            self.wf(),
            self.spec_max() < u64::MAX,
        ensures
            r.0 == self.density_scan(self.counts().len()).0,
            r.1 == self.density_scan(self.counts().len()).1,
    {
        let mut best: u64 = 0;
        let mut mode: u64 = 0;
        let mut i: usize = 0;
        let len = self.buckets.len();
        while i < len
            invariant
                self.wf(),
                len == self.counts().len(),
                i <= len,
                best == self.density_scan(i as nat).0,
                mode == self.density_scan(i as nat).1,
                self.spec_max() < u64::MAX,
            decreases len - i,
        {
            proof {
                self.lemma_bucket_nonempty(i as nat);
            }
            let bucket = match self.get_bucket(i) {
                Some(b) => b,
                None => Bucket::new(0, 1),
            };
            let density = bucket.weighted_count();
            if density > best {
                best = density;
                mode = bucket.count();
            }
            i = i + 1;
        }
        (best, mode)
    }

    /// The nominal value of the first bucket at which the running total of
    /// counts reaches `need`, the maximum when no bucket does, and `None`
    /// for an empty histogram. This is the integer core of a percentile
    /// query, with `need` the number of samples the percentile covers.
    pub fn value_at_rank(&self, need: u64) -> (r: Option<u64>)
        requires
            self.wf(),
            self.spec_too_high() + seq_sum(self.counts()) <= u64::MAX,
            self.spec_max() < u64::MAX || self.rank_index(need as nat, 0) != Some(
                (self.counts().len() - 1) as nat,
            ),
        ensures
            self.spec_too_high() + seq_sum(self.counts()) == 0 ==> r is None,
            self.spec_too_high() + seq_sum(self.counts()) != 0 ==> r == (match self.rank_index(
                need as nat,
                0,
            ) {
                Some(i) => Some((self.max_value_spec(i) - 1) as u64),
                None => Some(self.spec_max()),
            }),
    {
        if self.samples() == 0 {
            return None;
        }
        let mut have: u64 = 0;
        let mut i: usize = 0;
        let len = self.buckets.len();
        while i < len
            invariant
                self.wf(),
                len == self.counts().len(),
                i <= len,
                have == seq_sum(self.counts().take(i as int)),
                self.spec_too_high() + seq_sum(self.counts()) <= u64::MAX,
                self.spec_too_high() + seq_sum(self.counts()) != 0,
                self.rank_index(need as nat, 0) == self.rank_index(need as nat, i as nat),
                self.spec_max() < u64::MAX || self.rank_index(need as nat, 0) != Some(
                    (self.counts().len() - 1) as nat,
                ),
            decreases len - i,
        {
            proof {
                lemma_seq_sum_prefix(self.counts(), i as int);
                lemma_seq_sum_take_le(self.counts(), i + 1);
            }
            have = have + self.buckets[i];
            if have >= need {
                return match self.get_value(i) {
                    Ok(v) => Some(v),
                    Err(_) => None,
                };
            }
            i = i + 1;
        }
        Some(self.max)
    }

    /// Every value up to the maximum falls in a bucket: its bucket exists, the
    /// value lies below the bucket's upper bound and, unless it is the last
    /// bucket (whose reported lower bound is the maximum), at or above the
    /// bucket's lower bound.
    pub proof fn lemma_value_in_bucket(&self, v: u64)
        requires
            self.wf(),
            v <= self.spec_max(),
        ensures
            self.slot(v) < self.counts().len(),
            v < self.max_value_spec(self.slot(v)),
            self.slot(v) + 1 < self.counts().len() ==> self.min_value_spec(self.slot(v)) <= v,
    {
        let p = self.spec_precision();
        let max = self.spec_max() as nat;
        let len = self.counts().len();
        let e = pow10(p);
        let i = self.slot(v);
        lemma_index_mono(p, v as nat, max);
        if i + 1 < len {
            if v as nat > e {
                lemma_lower_of_index(p, v as nat);
                lemma_index_decomposed(p, v as nat);
                lemma_mul_le(9 * pow10((p - 1) as nat) as int, 0, log10_floor(v as nat) - p);
                assert(i >= e);
            }
            if i + 1 > e {
                if i + 2 == len {
                    if v as nat == max {
                    }
                } else {
                    if v as nat <= e {
                        assert(i == v);
                        assert(i == e);
                        assert(p >= 1) by {
                            if p == 0 {
                                assert(max <= 1);
                                assert(bucket_index(p, max) == max);
                            }
                        }
                    }
                    lemma_next_lower(p, v as nat);
                }
            }
        }
    }

    /// Bucket indices are ordered like the values they hold.
    pub proof fn lemma_slot_monotone(&self, v1: u64, v2: u64)
        requires
            self.wf(),
            v1 <= v2 <= self.spec_max(),
        ensures
            self.slot(v1) <= self.slot(v2),
    {
        lemma_index_mono(self.spec_precision(), v1 as nat, v2 as nat);
    }
}

/// Sum of a sequence of counts.
pub open spec fn seq_sum(s: Seq<u64>) -> nat
    decreases s.len(),
{
    if s.len() == 0 {
        0
    } else {
        seq_sum(s.drop_last()) + s.last() as nat
    }
}

pub proof fn lemma_seq_sum_prefix(s: Seq<u64>, i: int)
    requires
        0 <= i < s.len(),
    ensures
        seq_sum(s.take(i + 1)) == seq_sum(s.take(i)) + s[i],
        seq_sum(s.take(i)) <= seq_sum(s),
{
    assert(s.take(i + 1).drop_last() =~= s.take(i));
    lemma_seq_sum_take_le(s, i + 1);
}

pub proof fn lemma_seq_sum_take_le(s: Seq<u64>, i: int)
    requires
        0 <= i <= s.len(),
    ensures
        seq_sum(s.take(i)) <= seq_sum(s),
    decreases s.len() - i,
{
    if i < s.len() {
        lemma_seq_sum_take_le(s, i + 1);
        assert(s.take(i + 1).drop_last() =~= s.take(i));
    } else {
        assert(s.take(i) =~= s);
    }
}

pub proof fn lemma_seq_sum_zeros(n: nat)
    ensures
        seq_sum(Seq::new(n, |i: int| 0u64)) == 0,
    decreases n,
{
    if n > 0 {
        lemma_seq_sum_zeros((n - 1) as nat);
        assert(Seq::new(n, |i: int| 0u64).drop_last() =~= Seq::new((n - 1) as nat, |i: int| 0u64));
    }
}

pub proof fn lemma_seq_sum_update(s: Seq<u64>, i: int, x: u64)
    requires
        0 <= i < s.len(),
    ensures
        seq_sum(s.update(i, x)) + s[i] == seq_sum(s) + x,
    decreases s.len(),
{
    let t = s.update(i, x);
    if i == s.len() - 1 {
        assert(t.drop_last() =~= s.drop_last());
    } else {
        lemma_seq_sum_update(s.drop_last(), i, x);
        assert(t.drop_last() =~= s.drop_last().update(i, x));
    }
}

/// Recording samples without wrapping any counter raises the total number
/// of samples by exactly the number recorded.
pub proof fn lemma_add_sample_total(
    p: nat,
    max: u64,
    counts: Seq<u64>,
    too_high: u64,
    value: u64,
    count: u64,
)
    requires
        counts.len() == bucket_index(p, max as nat) + 1,
        p >= 1 || max <= pow10(p),
        value <= max ==> counts[bucket_index(p, value as nat) as int] + count <= u64::MAX,
        value > max ==> too_high + count <= u64::MAX,
    ensures
        ({
            let (c1, t1) = add_sample(p, max, counts, too_high, value, count);
            t1 + seq_sum(c1) == too_high + seq_sum(counts) + count
        }),
{
    if value <= max {
        lemma_index_mono(p, value as nat, max as nat);
        let i = bucket_index(p, value as nat) as int;
        lemma_seq_sum_update(counts, i, (counts[i] + count) as u64);
    }
}

/// Counts and too-high count after recording `count` samples of `value`.
pub open spec fn add_sample(
    p: nat,
    max: u64,
    counts: Seq<u64>,
    too_high: u64,
    value: u64,
    count: u64,
) -> (Seq<u64>, u64) {
    if value <= max {
        let i = bucket_index(p, value as nat) as int;
        (counts.update(i, wrap_add_u64(counts[i], count)), too_high)
    } else {
        (counts, wrap_add_u64(too_high, count))
    }
}

/// `a + b`, stopping at `u64::MAX`.
pub open spec fn sat_add_u64(a: u64, b: u64) -> u64 {
    if a + b > u64::MAX {
        u64::MAX
    } else {
        (a + b) as u64
    }
}

/// `a - b`, stopping at zero.
pub open spec fn sat_sub_u64(a: u64, b: u64) -> u64 {
    if a < b {
        0
    } else {
        (a - b) as u64
    }
}

/// Counts and too-high count after adding `count` samples of `value` with
/// saturating arithmetic.
pub open spec fn saturating_add_sample(
    p: nat,
    max: u64,
    counts: Seq<u64>,
    too_high: u64,
    value: u64,
    count: u64,
) -> (Seq<u64>, u64) {
    if value <= max {
        let i = bucket_index(p, value as nat) as int;
        (counts.update(i, sat_add_u64(counts[i], count)), too_high)
    } else {
        (counts, sat_add_u64(too_high, count))
    }
}

/// Counts and too-high count after removing `count` samples of `value` with
/// saturating arithmetic.
pub open spec fn saturating_remove_sample(
    p: nat,
    max: u64,
    counts: Seq<u64>,
    too_high: u64,
    value: u64,
    count: u64,
) -> (Seq<u64>, u64) {
    if value <= max {
        let i = bucket_index(p, value as nat) as int;
        (counts.update(i, sat_sub_u64(counts[i], count)), too_high)
    } else {
        (counts, sat_sub_u64(too_high, count))
    }
}

/// A sum of zero has zero entries.
pub proof fn lemma_seq_sum_zero_entries(s: Seq<u64>)
    requires
        seq_sum(s) == 0,
    ensures
        forall|i: int| 0 <= i < s.len() ==> s[i] == 0,
    decreases s.len(),
{
    if s.len() > 0 {
        lemma_seq_sum_zero_entries(s.drop_last());
        assert forall|i: int| 0 <= i < s.len() implies s[i] == 0 by {
            if i < s.len() - 1 {
                assert(s.drop_last()[i] == s[i]);
            }
        }
    }
}

/// Counts and too-high count after removing `count` samples of `value`.
pub open spec fn remove_sample(
    p: nat,
    max: u64,
    counts: Seq<u64>,
    too_high: u64,
    value: u64,
    count: u64,
) -> (Seq<u64>, u64) {
    if value <= max {
        let i = bucket_index(p, value as nat) as int;
        (counts.update(i, wrap_sub_u64(counts[i], count)), too_high)
    } else {
        (counts, wrap_sub_u64(too_high, count))
    }
}

/// Removing samples undoes adding the same samples.
pub proof fn lemma_remove_undoes_add(
    p: nat,
    max: u64,
    counts: Seq<u64>,
    too_high: u64,
    value: u64,
    count: u64,
)
    requires
        counts.len() == bucket_index(p, max as nat) + 1,
        p >= 1 || max <= pow10(p),
    ensures
        ({
            let (c1, t1) = add_sample(p, max, counts, too_high, value, count);
            remove_sample(p, max, c1, t1, value, count) == (counts, too_high)
        }),
{
    if value <= max {
        lemma_index_mono(p, value as nat, max as nat);
        let i = bucket_index(p, value as nat) as int;
        let (c1, t1) = add_sample(p, max, counts, too_high, value, count);
        assert(c1.update(i, wrap_sub_u64(c1[i], count)) =~= counts);
    }
}

/// Values of the exact range that do not exceed the maximum have an index
/// that does not exceed the maximum either.
proof fn lemma_exact_below_max(p: nat, i: nat, max: nat)
    requires
        i <= pow10(p),
        i <= bucket_index(p, max),
    ensures
        i <= max,
{
    if max < i {
        assert(max <= pow10(p));
    }
}

} // verus!
