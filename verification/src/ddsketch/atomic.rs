//! The bucket logic of the sketch meant for concurrent writers, whose
//! counters are shared. It lays out its buckets as the dense sketch does;
//! its contract differs in that clearing sets the largest value to
//! `u64::MAX` and merging sketches of different sizes is not allowed.

use vstd::prelude::*;

use crate::ddsketch::dense::{first_above, lemma_seq_sum_bound, sat_add, saturating_inc, scan_fits};
use crate::latched::seq_sum;

verus! {

/// Raises `*atomic` to `value` when `value` is larger.
pub fn atomic_max(atomic: &mut u64, value: u64)
    ensures
        *final(atomic) == if value > *old(atomic) {
            value
        } else {
            *old(atomic)
        },
{
    if *atomic < value {
        *atomic = value;
    }
}

/// Lowers `*atomic` to `value` when `value` is smaller.
pub fn atomic_min(atomic: &mut u64, value: u64)
    ensures
        *final(atomic) == if value < *old(atomic) {
            value
        } else {
            *old(atomic)
        },
{
    if *atomic > value {
        *atomic = value;
    }
}

/// A sketch of `u64` values for concurrent writers: exact buckets below the
/// cutoff, buckets of logarithmic width up to the limit, and one last bucket
/// for the values above the limit.
pub struct AtomicDDSketch {
    buckets: Vec<u64>,
    gamma_bits: u64,
    cutoff: usize,
    min: u64,
    max: u64,
    count: u64,
    limit: u64,
}

impl AtomicDDSketch {
    /// The bucket counts.
    pub closed spec fn spec_buckets(&self) -> Seq<u64> {
        self.buckets@
    }

    /// The bits of the floating-point ratio between bucket bounds.
    pub closed spec fn spec_gamma_bits(&self) -> u64 {
        self.gamma_bits
    }

    /// The first value that gets a bucket of logarithmic width.
    pub closed spec fn spec_cutoff(&self) -> usize {
        self.cutoff
    }

    /// The smallest value recorded, or `u64::MAX` when there is none.
    pub closed spec fn spec_min(&self) -> u64 {
        self.min
    }

    /// The largest value recorded, or zero when there is none.
    pub closed spec fn spec_max(&self) -> u64 {
        self.max
    }

    /// The number of samples, stopping at `u64::MAX`.
    pub closed spec fn spec_count(&self) -> u64 {
        self.count
    }

    /// The largest value the sketch is sized for.
    pub closed spec fn spec_limit(&self) -> u64 {
        self.limit
    }

    /// There is at least one bucket and the cutoff is at least one.
    pub open spec fn wf(&self) -> bool {
        &&& self.spec_buckets().len() >= 1
        &&& self.spec_cutoff() >= 1
    }

    /// The bucket of `value`, given `log_index`, the logarithm of `value` to
    /// the base of the sketch rounded up.
    pub open spec fn index_spec(&self, value: u64, log_index: usize) -> int {
        if value > self.spec_limit() {
            self.spec_buckets().len() - 1
        } else if value < self.spec_cutoff() {
            value as int
        } else {
            log_index + 1
        }
    }

    /// The bucket of `value` exists.
    pub open spec fn index_ok(&self, value: u64, log_index: usize) -> bool {
        0 <= self.index_spec(value, log_index) < self.spec_buckets().len()
    }

    /// An empty sketch for values up to `limit`, with the ratio `gamma_bits`
    /// between bucket bounds, exact buckets below `cutoff + 1`, and
    /// `num_buckets` buckets.
    pub fn from_layout(limit: u64, gamma_bits: u64, cutoff: usize, num_buckets: usize) -> (s: Self)
        requires
            num_buckets >= 1,
            cutoff < usize::MAX,
        ensures
            s.wf(),
            s.spec_buckets() == Seq::new(num_buckets as nat, |i: int| 0u64),
            s.spec_gamma_bits() == gamma_bits,
            s.spec_cutoff() == cutoff + 1,
            s.spec_limit() == limit,
            s.spec_count() == 0,
            s.spec_min() == u64::MAX,
            s.spec_max() == 0,
    {
        let mut buckets: Vec<u64> = Vec::new();
        let mut i: usize = 0;
        while i < num_buckets
            invariant
                i <= num_buckets,
                buckets@ == Seq::new(i as nat, |k: int| 0u64),
            decreases num_buckets - i,
        {
            buckets.push(0);
            i = i + 1;
            assert(buckets@ =~= Seq::new(i as nat, |k: int| 0u64));
        }
        AtomicDDSketch {
            buckets,
            gamma_bits,
            cutoff: cutoff + 1,
            count: 0,
            limit,
            min: u64::MAX,
            max: u64::MIN,
        }
    }

    /// The bucket of `value`, given `log_index`, the logarithm of `value` to
    /// the base of the sketch rounded up, which only values from the cutoff
    /// to the limit use.
    pub fn index_of(&self, value: u64, log_index: usize) -> (r: usize)
        requires
            self.wf(),
            self.index_ok(value, log_index),
        ensures
            r == self.index_spec(value, log_index),
    {
        let n = self.buckets.len();
        if value > self.limit {
            n - 1
        } else if value < self.cutoff as u64 {
            value as usize
        } else {
            log_index + 1
        }
    }

    /// The number of samples.
    pub fn count(&self) -> (r: u64)
        ensures
            r == self.spec_count(),
    {
        self.count
    }

    /// The number of buckets.
    pub fn num_buckets(&self) -> (r: usize)
        ensures
            r == self.spec_buckets().len(),
    {
        self.buckets.len()
    }

    /// The largest value recorded, or zero when there is none.
    pub fn max(&self) -> (r: u64)
        ensures
            r == self.spec_max(),
    {
        self.max
    }

    /// The smallest value recorded, or `u64::MAX` when there is none.
    pub fn min(&self) -> (r: u64)
        ensures
            r == self.spec_min(),
    {
        self.min
    }

    /// The largest value the sketch is sized for; larger values share the
    /// last bucket.
    pub fn limit(&self) -> (r: u64)
        ensures
            r == self.spec_limit(),
    {
        self.limit
    }

    /// The bits of the ratio between bucket bounds.
    pub fn gamma_bits(&self) -> (r: u64)
        ensures
            r == self.spec_gamma_bits(),
    {
        self.gamma_bits
    }

    /// The first value that gets a bucket of logarithmic width.
    pub fn cutoff(&self) -> (r: usize)
        ensures
            r == self.spec_cutoff(),
    {
        self.cutoff
    }

    /// Records `count` samples of `value` in its bucket, where `log_index`
    /// is the logarithm of `value` to the base of the sketch rounded up.
    pub fn increment(&mut self, value: u64, count: u64, log_index: usize)
        requires
            old(self).wf(),
            old(self).index_ok(value, log_index),
        ensures
            final(self).wf(),
            final(self).spec_min() == if value < old(self).spec_min() {
                value
            } else {
                old(self).spec_min()
            },
            final(self).spec_max() == if value > old(self).spec_max() {
                value
            } else {
                old(self).spec_max()
            },
            final(self).spec_count() == sat_add(old(self).spec_count(), count),
            final(self).spec_buckets() == old(self).spec_buckets().update(
                old(self).index_spec(value, log_index),
                sat_add(old(self).spec_buckets()[old(self).index_spec(value, log_index)], count),
            ),
            final(self).spec_limit() == old(self).spec_limit(),
            final(self).spec_cutoff() == old(self).spec_cutoff(),
            final(self).spec_gamma_bits() == old(self).spec_gamma_bits(),
    {
        atomic_max(&mut self.max, value);
        atomic_min(&mut self.min, value);
        self.count = self.count.saturating_add(count);
        let index = self.index_of(value, log_index);
        saturating_inc(&mut self.buckets[index], count);
    }

    /// Forgets every sample; the smallest and the largest value recorded
    /// are both set to `u64::MAX`.
    pub fn clear(&mut self)
        requires
            old(self).wf(),
        ensures
            final(self).wf(),
            final(self).spec_min() == u64::MAX,
            final(self).spec_max() == u64::MAX,
            final(self).spec_count() == 0,
            final(self).spec_buckets() == Seq::new(old(self).spec_buckets().len(), |i: int| 0u64),
            final(self).spec_limit() == old(self).spec_limit(),
            final(self).spec_cutoff() == old(self).spec_cutoff(),
            final(self).spec_gamma_bits() == old(self).spec_gamma_bits(),
    {
        self.min = u64::MAX;
        self.max = u64::MAX;
        self.count = 0;
        let n = self.buckets.len();
        let mut i: usize = 0;
        while i < n
            invariant
                n == self.buckets@.len(),
                n == old(self).buckets@.len(),
                i <= n,
                self.max == u64::MAX,
                self.min == u64::MAX,
                self.count == 0,
                self.limit == old(self).limit,
                self.cutoff == old(self).cutoff,
                self.gamma_bits == old(self).gamma_bits,
                forall|k: int| 0 <= k < i ==> self.buckets@[k] == 0,
            decreases n - i,
        {
            self.buckets.set(i, 0);
            i = i + 1;
        }
        assert(self.buckets@ =~= Seq::new(n as nat, |i: int| 0u64));
    }

    /// Adds the samples of `other`, bucket by bucket, stopping each count at
    /// `u64::MAX`; both sketches have the same number of buckets.
    pub fn merge(&mut self, other: &Self)
        requires
            old(self).wf(),
            old(self).spec_buckets().len() == other.spec_buckets().len(),
        ensures
            final(self).wf(),
            final(self).spec_limit() == old(self).spec_limit(),
            final(self).spec_cutoff() == old(self).spec_cutoff(),
            final(self).spec_gamma_bits() == old(self).spec_gamma_bits(),
            final(self).spec_count() == sat_add(old(self).spec_count(), other.spec_count()),
            final(self).spec_min() == if other.spec_min() < old(self).spec_min() {
                other.spec_min()
            } else {
                old(self).spec_min()
            },
            final(self).spec_max() == if other.spec_max() > old(self).spec_max() {
                other.spec_max()
            } else {
                old(self).spec_max()
            },
            final(self).spec_buckets().len() == old(self).spec_buckets().len(),
            forall|i: int|
                0 <= i < old(self).spec_buckets().len() ==> #[trigger] final(self).spec_buckets()[i]
                    == sat_add(old(self).spec_buckets()[i], other.spec_buckets()[i]),
    {
        self.count = self.count.saturating_add(other.count);
        atomic_min(&mut self.min, other.min);
        atomic_max(&mut self.max, other.max);
        let n = self.buckets.len();
        let mut i: usize = 0;
        while i < n
            invariant
                n == self.buckets@.len(),
                n == old(self).buckets@.len(),
                n == other.buckets@.len(),
                i <= n,
                self.count == sat_add(old(self).count, other.count),
                self.min == (if other.min < old(self).min {
                    other.min
                } else {
                    old(self).min
                }),
                self.max == (if other.max > old(self).max {
                    other.max
                } else {
                    old(self).max
                }),
                self.limit == old(self).limit,
                self.cutoff == old(self).cutoff,
                self.gamma_bits == old(self).gamma_bits,
                forall|k: int|
                    0 <= k < i ==> self.buckets@[k] == sat_add(old(self).buckets@[k], other.buckets@[k]),
                forall|k: int| i <= k < n ==> self.buckets@[k] == old(self).buckets@[k],
            decreases n - i,
        {
            let y = other.buckets[i];
            saturating_inc(&mut self.buckets[i], y);
            i = i + 1;
        }
    }

    /// Where the search for `rank` ends: the bucket whose exponent gives the
    /// quantile, or none when the quantile is the largest value recorded.
    pub open spec fn quantile_index_spec(&self, rank: u64) -> Option<nat> {
        match first_above(self.spec_buckets(), rank, 0, 0) {
            Some(i) => if i < self.spec_cutoff() {
                Some(i)
            } else if i + 1 == self.spec_buckets().len() {
                None
            } else {
                Some((i - 1) as nat)
            },
            None => None,
        }
    }

    /// Finds the first bucket at which the running count goes past `rank`,
    /// and gives the exponent of the quantile for it: the bucket itself in
    /// the exact range, the one below it past the cutoff, and none when the
    /// quantile is the largest value recorded (the last bucket, or no bucket
    /// at all).
    pub fn quantile_index(&self, rank: u64) -> (r: Option<usize>)
        requires
            self.wf(),
            scan_fits(self.spec_buckets(), rank),
        ensures
            r == match self.quantile_index_spec(rank) {
                Some(i) => Some(i as usize),
                None => None::<usize>,
            },
    {
        let n = self.buckets.len();
        let mut total: u64 = 0;
        let mut i: usize = 0;
        while i < n
            invariant
                self.wf(),
                n == self.buckets@.len(),
                i <= n,
                total == seq_sum(self.buckets@.take(i as int)),
                total <= rank,
                first_above(self.buckets@, rank, 0, 0) == first_above(
                    self.buckets@,
                    rank,
                    i as nat,
                    total as nat,
                ),
                scan_fits(self.buckets@, rank),
            decreases n - i,
        {
            proof {
                crate::latched::lemma_seq_sum_prefix(self.buckets@, i as int);
                assert(seq_sum(self.buckets@.take(i as int)) <= rank);
                assert(seq_sum(self.buckets@.take(i + 1)) <= u64::MAX);
            }
            total = total + self.buckets[i];
            if total > rank {
                if i < self.cutoff {
                    return Some(i);
                } else if i == n - 1 {
                    return None;
                } else {
                    return Some(i - 1);
                }
            }
            i = i + 1;
        }
        None
    }

    /// `value` brought within the smallest and the largest value recorded.
    pub fn bounded(&self, value: u64) -> (r: u64)
        ensures
            r == (if value > self.spec_max() {
                if self.spec_max() < self.spec_min() {
                    self.spec_min()
                } else {
                    self.spec_max()
                }
            } else if value < self.spec_min() {
                self.spec_min()
            } else {
                value
            }),
    {
        let v = if value > self.max {
            self.max
        } else {
            value
        };
        if v < self.min {
            self.min
        } else {
            v
        }
    }

    /// The number of samples too high for the limit: those in the last
    /// bucket, or none when the sketch covers every value.
    pub fn too_high(&self) -> (r: u64)
        requires
            self.wf(),
        ensures
            r == (if self.spec_limit() == u64::MAX {
                0
            } else {
                self.spec_buckets().last()
            }),
    {
        if self.limit == u64::MAX {
            return 0;
        }
        self.buckets[self.buckets.len() - 1]
    }

    /// The number of samples in the buckets below the one of `value`, where
    /// `log_index` is the logarithm of `value` to the base of the sketch
    /// rounded up.
    pub fn rank(&self, value: u64, log_index: usize) -> (r: u64)
        requires
            self.wf(),
            self.index_ok(value, log_index),
            seq_sum(self.spec_buckets().take(self.index_spec(value, log_index))) <= u64::MAX,
        ensures
            r == seq_sum(self.spec_buckets().take(self.index_spec(value, log_index))),
    {
        let index = self.index_of(value, log_index);
        let mut total: u64 = 0;
        let mut i: usize = 0;
        while i < index
            invariant
                index < self.buckets@.len(),
                i <= index,
                total == seq_sum(self.buckets@.take(i as int)),
                seq_sum(self.buckets@.take(index as int)) <= u64::MAX,
            decreases index - i,
        {
            proof {
                crate::latched::lemma_seq_sum_prefix(self.buckets@, i as int);
                assert(self.buckets@.take(index as int).take(i + 1) =~= self.buckets@.take(i + 1));
                crate::latched::lemma_seq_sum_take_le(self.buckets@.take(index as int), i + 1);
            }
            total = total + self.buckets[i];
            i = i + 1;
        }
        total
    }

    /// The number of samples in the buckets before `end`, counted without
    /// any limit.
    pub fn prefix_sum(&self, end: usize) -> (r: u128)
        requires
            end <= self.spec_buckets().len(),
        ensures
            r == seq_sum(self.spec_buckets().take(end as int)),
    {
        let mut total: u128 = 0;
        let mut i: usize = 0;
        while i < end
            invariant
                end <= self.buckets@.len(),
                i <= end,
                total == seq_sum(self.buckets@.take(i as int)),
            decreases end - i,
        {
            proof {
                crate::latched::lemma_seq_sum_prefix(self.buckets@, i as int);
                lemma_seq_sum_bound(self.buckets@.take(i + 1));
                assert((i + 1) * u64::MAX <= usize::MAX * u64::MAX) by (nonlinear_arith)
                    requires
                        i + 1 <= usize::MAX,
                ;
            }
            total = total + self.buckets[i] as u128;
            i = i + 1;
        }
        total
    }
}

} // verus!
