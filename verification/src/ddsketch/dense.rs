//! The bucket logic of a dense sketch with bounded relative error. Bucket
//! `i` past the linear range holds the values whose logarithm to the base
//! `gamma` rounds up to `i - 1`; that logarithm, and the value a bucket
//! stands for, are floating-point results computed outside the library and
//! handed in, while the counts, the bounds and the search for a rank are
//! kept here.

use vstd::prelude::*;

use crate::ddsketch::error::{DDSketchError, DDSketchErrorKind};
use crate::latched::seq_sum;

verus! {

/// Addition that stops at `u64::MAX`.
pub open spec fn sat_add(a: u64, b: u64) -> u64 {
    if a + b > u64::MAX {
        u64::MAX
    } else {
        (a + b) as u64
    }
}

/// Adds `val` to `*loc`, stopping at `u64::MAX`.
pub fn saturating_inc(loc: &mut u64, val: u64)
    ensures
        *final(loc) == sat_add(*old(loc), val),
{
    *loc = loc.saturating_add(val);
}

/// The first bucket from `i` on at which the running count, starting from
/// `total`, goes past `rank`.
pub open spec fn first_above(b: Seq<u64>, rank: u64, i: nat, total: nat) -> Option<nat>
    decreases b.len() - i,
{
    if i >= b.len() {
        None
    } else if total + b[i as int] > rank {
        Some(i)
    } else {
        first_above(b, rank, i + 1, total + b[i as int] as nat)
    }
}

/// Scanning from bucket `i` with the running count of the buckets before
/// it, when that count has not passed `rank`, finds the first bucket at
/// which it does.
proof fn lemma_first_above_from(b: Seq<u64>, rank: u64, i: nat)
    requires
        i <= b.len(),
        seq_sum(b.take(i as int)) <= rank,
    ensures
        first_above(b, rank, i, seq_sum(b.take(i as int))) matches Some(k) ==> {
            &&& i <= k < b.len()
            &&& seq_sum(b.take(k + 1 as int)) > rank
            &&& forall|j: int| i <= j < k ==> #[trigger] seq_sum(b.take(j + 1)) <= rank
        },
        first_above(b, rank, i, seq_sum(b.take(i as int))) is None ==> seq_sum(b) <= rank,
    decreases b.len() - i,
{
    if i >= b.len() {
        assert(b.take(i as int) =~= b);
    } else {
        crate::latched::lemma_seq_sum_prefix(b, i as int);
        if seq_sum(b.take(i as int)) + b[i as int] <= rank {
            lemma_first_above_from(b, rank, i + 1);
        }
    }
}

/// The bucket at which the running count first goes past `rank`: the
/// buckets up to it hold more than `rank` samples, those before it no
/// more; there is none only when all the buckets hold no more than `rank`.
pub proof fn lemma_first_above_is_first(b: Seq<u64>, rank: u64)
    ensures
        first_above(b, rank, 0, 0) matches Some(k) ==> {
            &&& k < b.len()
            &&& seq_sum(b.take(k + 1 as int)) > rank
            &&& forall|j: int| 0 <= j < k ==> #[trigger] seq_sum(b.take(j + 1)) <= rank
        },
        first_above(b, rank, 0, 0) is None ==> seq_sum(b) <= rank,
{
    assert(b.take(0) =~= Seq::<u64>::empty());
    lemma_first_above_from(b, rank, 0);
}

/// The running count never passes `u64::MAX` before it passes `rank`.
pub open spec fn scan_fits(b: Seq<u64>, rank: u64) -> bool {
    forall|i: int|
        0 <= i < b.len() && #[trigger] seq_sum(b.take(i)) <= rank ==> seq_sum(b.take(i + 1))
            <= u64::MAX
}

/// A sequence of counts sums to at most its length times `u64::MAX`.
pub proof fn lemma_seq_sum_bound(s: Seq<u64>)
    ensures
        seq_sum(s) <= s.len() * u64::MAX,
    decreases s.len(),
{
    if s.len() > 0 {
        lemma_seq_sum_bound(s.drop_last());
        assert(s.len() * u64::MAX == (s.len() - 1) * u64::MAX + u64::MAX) by (nonlinear_arith)
            requires
                s.len() >= 1,
        ;
    }
}

/// A dense sketch of `u64` values: exact buckets below the cutoff, buckets
/// of logarithmic width up to the limit, and one last bucket for the values
/// above the limit.
pub struct DenseDDSketch {
    buckets: Vec<u64>,
    gamma_bits: u64,
    cutoff: usize,
    min: u64,
    max: u64,
    count: u64,
    limit: u64,
}

impl DenseDDSketch {
    /// The bucket counts.
    pub closed spec fn spec_buckets(&self) -> Seq<u64> {
        self.buckets@
    }

    /// The bits of the floating-point ratio between bucket bounds.
    pub closed spec fn spec_gamma_bits(&self) -> u64 {
        self.gamma_bits
    }

    /// The first value that gets a bucket of logarithmic width.
    pub closed spec fn spec_cutoff(&self) -> usize {
        self.cutoff
    }

    /// The smallest value recorded, or `u64::MAX` when there is none.
    pub closed spec fn spec_min(&self) -> u64 {
        self.min
    }

    /// The largest value recorded, or zero when there is none.
    pub closed spec fn spec_max(&self) -> u64 {
        self.max
    }

    /// The number of samples, stopping at `u64::MAX`.
    pub closed spec fn spec_count(&self) -> u64 {
        self.count
    }

    /// The largest value the sketch is sized for.
    pub closed spec fn spec_limit(&self) -> u64 {
        self.limit
    }

    /// There is at least one bucket and the cutoff is at least one.
    pub open spec fn wf(&self) -> bool {
        &&& self.spec_buckets().len() >= 1
        &&& self.spec_cutoff() >= 1
    }

    /// The bucket of `value`, given `log_index`, the logarithm of `value` to
    /// the base of the sketch rounded up.
    pub open spec fn index_spec(&self, value: u64, log_index: usize) -> int {
        if value > self.spec_limit() {
            self.spec_buckets().len() - 1
        } else if value < self.spec_cutoff() {
            value as int
        } else {
            log_index + 1
        }
    }

    /// The bucket of `value` exists.
    pub open spec fn index_ok(&self, value: u64, log_index: usize) -> bool {
        0 <= self.index_spec(value, log_index) < self.spec_buckets().len()
    }

    /// An empty sketch for values up to `limit`, with the ratio `gamma_bits`
    /// between bucket bounds, exact buckets below `cutoff + 1`, and
    /// `num_buckets` buckets.
    pub fn from_layout(limit: u64, gamma_bits: u64, cutoff: usize, num_buckets: usize) -> (s: Self)
        requires
            num_buckets >= 1,
            cutoff < usize::MAX,
        ensures
            s.wf(),
            s.spec_buckets() == Seq::new(num_buckets as nat, |i: int| 0u64),
            s.spec_gamma_bits() == gamma_bits,
            s.spec_cutoff() == cutoff + 1,
            s.spec_limit() == limit,
            s.spec_count() == 0,
            s.spec_min() == u64::MAX,
            s.spec_max() == 0,
    {
        let mut buckets: Vec<u64> = Vec::new();
        let mut i: usize = 0;
        while i < num_buckets
            invariant
                i <= num_buckets,
                buckets@ == Seq::new(i as nat, |k: int| 0u64),
            decreases num_buckets - i,
        {
            buckets.push(0);
            i = i + 1;
            assert(buckets@ =~= Seq::new(i as nat, |k: int| 0u64));
        }
        DenseDDSketch {
            buckets,
            gamma_bits,
            cutoff: cutoff + 1,
            count: 0,
            limit,
            min: u64::MAX,
            max: u64::MIN,
        }
    }

    /// The bucket of `value`, given `log_index`, the logarithm of `value` to
    /// the base of the sketch rounded up, which only values from the cutoff
    /// to the limit use.
    pub fn index_of(&self, value: u64, log_index: usize) -> (r: usize)
        requires
            self.wf(),
            self.index_ok(value, log_index),
        ensures
            r == self.index_spec(value, log_index),
    {
        let n = self.buckets.len();
        if value > self.limit {
            n - 1
        } else if value < self.cutoff as u64 {
            value as usize
        } else {
            log_index + 1
        }
    }

    /// The number of samples.
    pub fn count(&self) -> (r: u64)
        ensures
            r == self.spec_count(),
    {
        self.count
    }

    /// The number of buckets.
    pub fn num_buckets(&self) -> (r: usize)
        ensures
            r == self.spec_buckets().len(),
    {
        self.buckets.len()
    }

    /// The largest value recorded, or zero when there is none.
    pub fn max(&self) -> (r: u64)
        ensures
            r == self.spec_max(),
    {
        self.max
    }

    /// The smallest value recorded, or `u64::MAX` when there is none.
    pub fn min(&self) -> (r: u64)
        ensures
            r == self.spec_min(),
    {
        self.min
    }

    /// The largest value the sketch is sized for; larger values share the
    /// last bucket.
    pub fn limit(&self) -> (r: u64)
        ensures
            r == self.spec_limit(),
    {
        self.limit
    }

    /// The bits of the ratio between bucket bounds.
    pub fn gamma_bits(&self) -> (r: u64)
        ensures
            r == self.spec_gamma_bits(),
    {
        self.gamma_bits
    }

    /// The first value that gets a bucket of logarithmic width.
    pub fn cutoff(&self) -> (r: usize)
        ensures
            r == self.spec_cutoff(),
    {
        self.cutoff
    }

    /// Whether the sketch holds no samples.
    pub fn is_empty(&self) -> (r: bool)
        ensures
            r == (self.spec_count() == 0),
    {
        self.count() == 0
    }

    /// Records `count` samples of `value` in its bucket, where `log_index`
    /// is the logarithm of `value` to the base of the sketch rounded up.
    pub fn increment(&mut self, value: u64, count: u64, log_index: usize)
        requires
            old(self).wf(),
            old(self).index_ok(value, log_index),
        ensures
            final(self).wf(),
            final(self).spec_min() == if value < old(self).spec_min() {
                value
            } else {
                old(self).spec_min()
            },
            final(self).spec_max() == if value > old(self).spec_max() {
                value
            } else {
                old(self).spec_max()
            },
            final(self).spec_count() == sat_add(old(self).spec_count(), count),
            final(self).spec_buckets() == old(self).spec_buckets().update(
                old(self).index_spec(value, log_index),
                sat_add(old(self).spec_buckets()[old(self).index_spec(value, log_index)], count),
            ),
            final(self).spec_limit() == old(self).spec_limit(),
            final(self).spec_cutoff() == old(self).spec_cutoff(),
            final(self).spec_gamma_bits() == old(self).spec_gamma_bits(),
    {
        if value < self.min {
            self.min = value;
        }
        if value > self.max {
            self.max = value;
        }
        self.count = self.count.saturating_add(count);
        let index = self.index_of(value, log_index);
        saturating_inc(&mut self.buckets[index], count);
    }

    /// Forgets every sample.
    pub fn clear(&mut self)
        requires
            old(self).wf(),
        ensures
            final(self).wf(),
            final(self).spec_min() == u64::MAX,
            final(self).spec_max() == 0,
            final(self).spec_count() == 0,
            final(self).spec_buckets() == Seq::new(old(self).spec_buckets().len(), |i: int| 0u64),
            final(self).spec_limit() == old(self).spec_limit(),
            final(self).spec_cutoff() == old(self).spec_cutoff(),
            final(self).spec_gamma_bits() == old(self).spec_gamma_bits(),
    {
        self.max = u64::MIN;
        self.min = u64::MAX;
        self.count = 0;
        let n = self.buckets.len();
        let mut i: usize = 0;
        while i < n
            invariant
                n == self.buckets@.len(),
                n == old(self).buckets@.len(),
                i <= n,
                self.max == 0,
                self.min == u64::MAX,
                self.count == 0,
                self.limit == old(self).limit,
                self.cutoff == old(self).cutoff,
                self.gamma_bits == old(self).gamma_bits,
                forall|k: int| 0 <= k < i ==> self.buckets@[k] == 0,
            decreases n - i,
        {
            self.buckets.set(i, 0);
            i = i + 1;
        }
        assert(self.buckets@ =~= Seq::new(n as nat, |i: int| 0u64));
    }

    /// Adds the samples of `other`, bucket by bucket, stopping each count at
    /// `u64::MAX`; sketches with different numbers of buckets are refused.
    pub fn merge(&mut self, other: &Self) -> (r: Result<(), DDSketchError>)
        requires
            old(self).wf(),
        ensures
            final(self).wf(),
            final(self).spec_limit() == old(self).spec_limit(),
            final(self).spec_cutoff() == old(self).spec_cutoff(),
            final(self).spec_gamma_bits() == old(self).spec_gamma_bits(),
            r is Err <==> old(self).spec_buckets().len() != other.spec_buckets().len(),
            r matches Err(e) ==> e.spec_kind() == DDSketchErrorKind::Unmergeable,
            r is Err ==> *final(self) == *old(self),
            r is Ok ==> {
                &&& final(self).spec_count() == sat_add(old(self).spec_count(), other.spec_count())
                &&& final(self).spec_min() == if other.spec_min() < old(self).spec_min() {
                    other.spec_min()
                } else {
                    old(self).spec_min()
                }
                &&& final(self).spec_max() == if other.spec_max() > old(self).spec_max() {
                    other.spec_max()
                } else {
                    old(self).spec_max()
                }
                &&& final(self).spec_buckets().len() == old(self).spec_buckets().len()
                &&& forall|i: int|
                    0 <= i < old(self).spec_buckets().len() ==> #[trigger] final(self).spec_buckets()[i]
                        == sat_add(old(self).spec_buckets()[i], other.spec_buckets()[i])
            },
    {
        if self.num_buckets() != other.num_buckets() {
            return Err(DDSketchError::new(DDSketchErrorKind::Unmergeable));
        }
        self.count = self.count.saturating_add(other.count);
        if other.min < self.min {
            self.min = other.min;
        }
        if other.max > self.max {
            self.max = other.max;
        }
        let n = self.buckets.len();
        let mut i: usize = 0;
        while i < n
            invariant
                n == self.buckets@.len(),
                n == old(self).buckets@.len(),
                n == other.buckets@.len(),
                i <= n,
                self.count == sat_add(old(self).count, other.count),
                self.min == (if other.min < old(self).min {
                    other.min
                } else {
                    old(self).min
                }),
                self.max == (if other.max > old(self).max {
                    other.max
                } else {
                    old(self).max
                }),
                self.limit == old(self).limit,
                self.cutoff == old(self).cutoff,
                self.gamma_bits == old(self).gamma_bits,
                forall|k: int|
                    0 <= k < i ==> self.buckets@[k] == sat_add(old(self).buckets@[k], other.buckets@[k]),
                forall|k: int| i <= k < n ==> self.buckets@[k] == old(self).buckets@[k],
            decreases n - i,
        {
            let y = other.buckets[i];
            saturating_inc(&mut self.buckets[i], y);
            i = i + 1;
        }
        Ok(())
    }

    /// Where the search for `rank` ends: the bucket whose exponent gives the
    /// quantile, or none when the quantile is the largest value recorded.
    pub open spec fn quantile_index_spec(&self, rank: u64) -> Option<nat> {
        match first_above(self.spec_buckets(), rank, 0, 0) {
            Some(i) => if i < self.spec_cutoff() {
                Some(i)
            } else if i + 1 == self.spec_buckets().len() {
                None
            } else {
                Some((i - 1) as nat)
            },
            None => None,
        }
    }

    /// Finds the first bucket at which the running count goes past `rank`,
    /// and gives the exponent of the quantile for it: the bucket itself in
    /// the exact range, the one below it past the cutoff, and none when the
    /// quantile is the largest value recorded (the last bucket, or no bucket
    /// at all).
    pub fn quantile_index(&self, rank: u64) -> (r: Option<usize>)
        requires
            self.wf(),
            scan_fits(self.spec_buckets(), rank),
        ensures
            r == match self.quantile_index_spec(rank) {
                Some(i) => Some(i as usize),
                None => None::<usize>,
            },
    {
        let n = self.buckets.len();
        let mut total: u64 = 0;
        let mut i: usize = 0;
        while i < n
            invariant
                self.wf(),
                n == self.buckets@.len(),
                i <= n,
                total == seq_sum(self.buckets@.take(i as int)),
                total <= rank,
                first_above(self.buckets@, rank, 0, 0) == first_above(
                    self.buckets@,
                    rank,
                    i as nat,
                    total as nat,
                ),
                scan_fits(self.buckets@, rank),
            decreases n - i,
        {
            proof {
                crate::latched::lemma_seq_sum_prefix(self.buckets@, i as int);
                assert(seq_sum(self.buckets@.take(i as int)) <= rank);
                assert(seq_sum(self.buckets@.take(i + 1)) <= u64::MAX);
            }
            total = total + self.buckets[i];
            if total > rank {
                if i < self.cutoff {
                    return Some(i);
                } else if i == n - 1 {
                    return None;
                } else {
                    return Some(i - 1);
                }
            }
            i = i + 1;
        }
        None
    }

    /// `value` brought within the smallest and the largest value recorded.
    pub fn bounded(&self, value: u64) -> (r: u64)
        ensures
            r == (if value > self.spec_max() {
                if self.spec_max() < self.spec_min() {
                    self.spec_min()
                } else {
                    self.spec_max()
                }
            } else if value < self.spec_min() {
                self.spec_min()
            } else {
                value
            }),
    {
        let v = if value > self.max {
            self.max
        } else {
            value
        };
        if v < self.min {
            self.min
        } else {
            v
        }
    }

    /// The number of samples too high for the limit: those in the last
    /// bucket, or none when the sketch covers every value.
    pub fn too_high(&self) -> (r: u64)
        requires
            self.wf(),
        ensures
            r == (if self.spec_limit() == u64::MAX {
                0
            } else {
                self.spec_buckets().last()
            }),
    {
        if self.limit == u64::MAX {
            return 0;
        }
        self.buckets[self.buckets.len() - 1]
    }

    /// The number of samples in the buckets below the one of `value`, where
    /// `log_index` is the logarithm of `value` to the base of the sketch
    /// rounded up.
    pub fn rank(&self, value: u64, log_index: usize) -> (r: u64)
        requires
            self.wf(),
            self.index_ok(value, log_index),
            seq_sum(self.spec_buckets().take(self.index_spec(value, log_index))) <= u64::MAX,
        ensures
            r == seq_sum(self.spec_buckets().take(self.index_spec(value, log_index))),
    {
        let index = self.index_of(value, log_index);
        let mut total: u64 = 0;
        let mut i: usize = 0;
        while i < index
            invariant
                index < self.buckets@.len(),
                i <= index,
                total == seq_sum(self.buckets@.take(i as int)),
                seq_sum(self.buckets@.take(index as int)) <= u64::MAX,
            decreases index - i,
        {
            proof {
                crate::latched::lemma_seq_sum_prefix(self.buckets@, i as int);
                assert(self.buckets@.take(index as int).take(i + 1) =~= self.buckets@.take(i + 1));
                crate::latched::lemma_seq_sum_take_le(self.buckets@.take(index as int), i + 1);
            }
            total = total + self.buckets[i];
            i = i + 1;
        }
        total
    }

    /// The number of samples in the buckets before `end`, counted without
    /// any limit.
    pub fn prefix_sum(&self, end: usize) -> (r: u128)
        requires
            end <= self.spec_buckets().len(),
        ensures
            r == seq_sum(self.spec_buckets().take(end as int)),
    {
        let mut total: u128 = 0;
        let mut i: usize = 0;
        while i < end
            invariant
                end <= self.buckets@.len(),
                i <= end,
                total == seq_sum(self.buckets@.take(i as int)),
            decreases end - i,
        {
            proof {
                crate::latched::lemma_seq_sum_prefix(self.buckets@, i as int);
                lemma_seq_sum_bound(self.buckets@.take(i + 1));
                assert((i + 1) * u64::MAX <= usize::MAX * u64::MAX) by (nonlinear_arith)
                    requires
                        i + 1 <= usize::MAX,
                ;
            }
            total = total + self.buckets[i] as u128;
            i = i + 1;
        }
        total
    }
}

} // verus!
