//! A small fixed-size histogram of `usize` values below a maximum, whose
//! counts wrap around at the ends of the `usize` range.

use vstd::prelude::*;

use crate::bucket::Bucket;
use crate::bucketing::{
    bucket_index, bucket_lower, index_above, lemma_index_decomposed, lemma_index_mono,
    lemma_index_of_lower, lemma_log10_floor, lemma_log10_floor_unique, lemma_lower_below,
    lemma_lower_strict, lemma_pow10_add, lemma_pow10_fits, lemma_pow10_mono, lemma_pow10_pos,
    lemma_pow10_strict, log10_floor, log10_floor_u64, lower_above, pow10, pow10_u64,
};
use crate::counter::{wrap_add, wrap_sub, Counter};

verus! {

/// The number of buckets of a simple histogram of precision `p` for values
/// below `max`: one for each value up to the maximum when the exact range
/// reaches it, else the exact range and one run of buckets for each decade
/// below the one that holds the maximum.
pub open spec fn simple_total(p: nat, max: nat) -> nat {
    if pow10(p) >= max {
        max + 1
    } else {
        (pow10(p) + (log10_floor(max) - p) * 9 * pow10((p - 1) as nat)) as nat
    }
}

/// Parameters for which a simple histogram can be built: `10^precision`
/// fits in a `usize`, a precision of zero only goes with a maximum of at
/// most one, and the bucket indexes and the number of buckets fit in a
/// `usize`.
pub open spec fn simple_params_ok(max: usize, p: nat) -> bool {
    &&& p <= 19
    &&& pow10(p) <= usize::MAX
    &&& (p >= 1 || max <= 1)
    &&& bucket_index(p, max as nat) < usize::MAX
    &&& simple_total(p, max as nat) < usize::MAX
}

/// The sum of a sequence of counts.
pub open spec fn usize_sum(s: Seq<usize>) -> nat
    decreases s.len(),
{
    if s.len() == 0 {
        0
    } else {
        usize_sum(s.drop_last()) + s.last() as nat
    }
}

/// The sum of a prefix grows by the next count.
pub proof fn lemma_usize_sum_step(s: Seq<usize>, i: int)
    requires
        0 <= i < s.len(),
    ensures
        usize_sum(s.take(i + 1)) == usize_sum(s.take(i)) + s[i],
{
    assert(s.take(i + 1).drop_last() =~= s.take(i));
}

/// A prefix sums to no more than the whole.
pub proof fn lemma_usize_sum_take_le(s: Seq<usize>, i: int)
    requires
        0 <= i <= s.len(),
    ensures
        usize_sum(s.take(i)) <= usize_sum(s),
    decreases s.len() - i,
{
    if i < s.len() {
        lemma_usize_sum_step(s, i);
        lemma_usize_sum_take_le(s, i + 1);
    } else {
        assert(s.take(i) =~= s);
    }
}

/// When the maximum lies past the exact range, the buckets are those of
/// the values below the decade that holds the maximum.
pub proof fn lemma_simple_total(p: nat, max: nat)
    requires
        p >= 1,
        pow10(p) < max,
    ensures
        log10_floor(max) >= p,
        pow10(log10_floor(max)) <= max,
        simple_total(p, max) == bucket_index(p, pow10(log10_floor(max))),
{
    let e = log10_floor(max);
    lemma_log10_floor(max);
    if e < p {
        lemma_pow10_mono(e + 1, p);
    }
    if e == p {
        let s = pow10((p - 1) as nat);
        assert((e - p) * 9 * s == 0) by (nonlinear_arith)
            requires
                e == p,
        ;
    }
    if e > p {
        let v = pow10(e);
        let s = pow10((p - 1) as nat);
        let d = pow10((e - p + 1) as nat);
        lemma_pow10_strict(p, e);
        lemma_pow10_strict(e, e + 1);
        lemma_log10_floor_unique(v, e);
        lemma_index_decomposed(p, v);
        lemma_pow10_add((p - 1) as nat, (e - p + 1) as nat);
        lemma_pow10_pos(d);
        assert((p - 1) as nat + (e - p + 1) as nat == e);
        assert(v == s * d);
        vstd::arithmetic::div_mod::lemma_div_multiples_vanish(s as int, d as int);
        assert(d * s == s * d) by (nonlinear_arith);
        assert(v / d == s);
        assert((e - p) * 9 * s == 9 * s * (e - p)) by (nonlinear_arith);
    }
}

/// The counts and the too-high count after `count` samples of `value` are
/// added, wrapping above `usize::MAX`: to the value's bucket when it is below
/// the maximum and has one, else to the too-high count.
pub open spec fn simple_add(
    p: nat,
    max: usize,
    st: (Seq<usize>, usize),
    value: usize,
    count: usize,
) -> (Seq<usize>, usize) {
    let i = bucket_index(p, value as nat);
    if value < max && i < st.0.len() {
        (st.0.update(i as int, wrap_add(st.0[i as int], count)), st.1)
    } else {
        (st.0, wrap_add(st.1, count))
    }
}

/// The counts and the too-high count after `count` samples of `value` are
/// taken away, wrapping below zero.
pub open spec fn simple_sub(
    p: nat,
    max: usize,
    st: (Seq<usize>, usize),
    value: usize,
    count: usize,
) -> (Seq<usize>, usize) {
    let i = bucket_index(p, value as nat);
    if value < max && i < st.0.len() {
        (st.0.update(i as int, wrap_sub(st.0[i as int], count)), st.1)
    } else {
        (st.0, wrap_sub(st.1, count))
    }
}

/// Taking away what was added leaves the counts as they were.
pub proof fn lemma_sub_undoes_add(
    p: nat,
    max: usize,
    st: (Seq<usize>, usize),
    value: usize,
    count: usize,
)
    ensures
        simple_sub(p, max, simple_add(p, max, st, value, count), value, count) == st,
        simple_add(p, max, simple_sub(p, max, st, value, count), value, count) == st,
{
    let i = bucket_index(p, value as nat);
    if value < max && i < st.0.len() {
        assert(simple_sub(p, max, simple_add(p, max, st, value, count), value, count).0 =~= st.0);
        assert(simple_add(p, max, simple_sub(p, max, st, value, count), value, count).0 =~= st.0);
    }
}

/// Changing one count changes the sum by the difference.
pub proof fn lemma_usize_sum_update(s: Seq<usize>, i: int, x: usize)
    requires
        0 <= i < s.len(),
    ensures
        usize_sum(s.update(i, x)) + s[i] == usize_sum(s) + x,
    decreases s.len(),
{
    let t = s.update(i, x);
    if i == s.len() - 1 {
        assert(t.drop_last() =~= s.drop_last());
    } else {
        lemma_usize_sum_update(s.drop_last(), i, x);
        assert(t.drop_last() =~= s.drop_last().update(i, x));
    }
}

/// Adding samples without wrapping any count raises the number of samples
/// by exactly the number added.
pub proof fn lemma_add_total(
    p: nat,
    max: usize,
    st: (Seq<usize>, usize),
    value: usize,
    count: usize,
)
    requires
        ({
            let i = bucket_index(p, value as nat);
            if value < max && i < st.0.len() {
                st.0[i as int] + count <= usize::MAX
            } else {
                st.1 + count <= usize::MAX
            }
        }),
    ensures
        ({
            let after = simple_add(p, max, st, value, count);
            usize_sum(after.0) + after.1 == usize_sum(st.0) + st.1 + count
        }),
{
    let i = bucket_index(p, value as nat);
    if value < max && i < st.0.len() {
        lemma_usize_sum_update(st.0, i as int, (st.0[i as int] + count) as usize);
    }
}

/// A fixed-size histogram of values below a maximum: exact for values up
/// to `10^precision`, keeping `precision` significant digits above that.
/// Values at or above the maximum, and values in the decade that holds the
/// maximum past the exact range, are counted as too high.
pub struct Simple {
    max: usize,
    buckets: Vec<Counter>,
    too_high: Counter,
    exact_max: usize,
    precision: usize,
}

impl Simple {
    /// The values are below this.
    pub closed spec fn spec_max(&self) -> usize {
        self.max
    }

    /// The number of significant digits kept.
    pub closed spec fn spec_precision(&self) -> nat {
        self.precision as nat
    }

    /// The per-bucket counts.
    pub closed spec fn counts(&self) -> Seq<usize> {
        self.buckets@.map_values(|c: Counter| c@)
    }

    /// The count of samples too high for any bucket.
    pub closed spec fn spec_too_high(&self) -> usize {
        self.too_high@
    }

    /// The end of the exact range is `10^precision`.
    pub closed spec fn exact_ok(&self) -> bool {
        self.exact_max == pow10(self.precision as nat)
    }

    /// The parameters are usable, there is one count for each bucket, and
    /// the exact range is known.
    pub open spec fn wf(&self) -> bool {
        &&& simple_params_ok(self.spec_max(), self.spec_precision())
        &&& self.counts().len() == simple_total(self.spec_precision(), self.spec_max() as nat)
        &&& self.exact_ok()
    }

    /// The bucket index of a value below the maximum.
    pub open spec fn slot(&self, v: usize) -> nat {
        bucket_index(self.spec_precision(), v as nat)
    }

    /// The largest value bucket `i` stands for, as reported.
    pub open spec fn value_spec(&self, i: nat) -> nat {
        if i < pow10(self.spec_precision()) {
            i
        } else if i + 1 == self.counts().len() {
            (self.spec_max() - 1) as nat
        } else {
            (bucket_lower(self.spec_precision(), i + 1) - 1) as nat
        }
    }

    /// The lower bound reported for bucket `i`.
    pub open spec fn bucket_min_spec(&self, i: nat) -> nat {
        if i < pow10(self.spec_precision()) {
            if i == 0 {
                0
            } else {
                (i - 1) as nat
            }
        } else {
            self.value_spec((i - 1) as nat)
        }
    }

    /// The upper bound reported for bucket `i`.
    pub open spec fn bucket_max_spec(&self, i: nat) -> nat {
        if i + 1 == self.counts().len() {
            self.spec_max() as nat
        } else {
            self.value_spec(i)
        }
    }

    /// The counts and the too-high count.
    pub open spec fn state(&self) -> (Seq<usize>, usize) {
        (self.counts(), self.spec_too_high())
    }

    /// `new` is `self` with `count` samples of `value` added.
    pub open spec fn incremented(&self, new: &Simple, value: usize, count: usize) -> bool {
        &&& new.wf()
        &&& new.spec_max() == self.spec_max()
        &&& new.spec_precision() == self.spec_precision()
        &&& new.state() == simple_add(self.spec_precision(), self.spec_max(), self.state(), value, count)
    }

    /// `new` is `self` with `count` samples of `value` taken away.
    pub open spec fn decremented(&self, new: &Simple, value: usize, count: usize) -> bool {
        &&& new.wf()
        &&& new.spec_max() == self.spec_max()
        &&& new.spec_precision() == self.spec_precision()
        &&& new.state() == simple_sub(self.spec_precision(), self.spec_max(), self.state(), value, count)
    }

    /// Taking back samples just added leaves every count as it was, even
    /// where a count wrapped around.
    pub proof fn lemma_decr_undoes_incr(a: &Simple, b: &Simple, c: &Simple, value: usize, count: usize)
        requires
            a.wf(),
            a.incremented(b, value, count),
            b.decremented(c, value, count),
        ensures
            c.counts() == a.counts(),
            c.spec_too_high() == a.spec_too_high(),
    {
        lemma_sub_undoes_add(a.spec_precision(), a.spec_max(), a.state(), value, count);
    }

    /// A histogram of values below `max` keeping `precision` significant
    /// digits, with every count at zero.
    pub fn new(max: usize, precision: usize) -> (h: Self)
        requires
            simple_params_ok(max, precision as nat),
        ensures
            h.wf(),
            h.spec_max() == max,
            h.spec_precision() == precision,
            h.counts() == Seq::new(h.counts().len(), |i: int| 0usize),
            h.spec_too_high() == 0,
    {
        proof {
            lemma_pow10_fits(precision as nat);
        }
        let exact_max = pow10_u64(precision as u32) as usize;
        let ghost total = simple_total(precision as nat, max as nat);
        let total: usize = if exact_max >= max {
            max + 1
        } else {
            proof {
                lemma_simple_total(precision as nat, max as nat);
                lemma_pow10_mono((precision - 1) as nat, precision as nat);
            }
            let e = log10_floor_u64(max as u64) as usize;
            let shift = pow10_u64((precision - 1) as u32) as usize;
            proof {
                assert(0 <= (e - precision) * 9 * shift <= total);
            }
            exact_max + (e - precision) * 9 * shift
        };
        let mut buckets: Vec<Counter> = Vec::new();
        let mut i: usize = 0;
        while i < total
            invariant
                i <= total,
                buckets@.len() == i,
                forall|k: int| 0 <= k < i ==> (#[trigger] buckets@[k])@ == 0,
            decreases total - i,
        {
            buckets.push(Counter::new(0));
            i = i + 1;
        }
        let h = Simple { max, buckets, too_high: Counter::new(0), exact_max, precision };
        assert(h.counts() =~= Seq::new(h.counts().len(), |i: int| 0usize));
        h
    }

    /// The bucket index of `value`, or an error when it is not below the
    /// maximum.
    pub fn get_index(&self, value: usize) -> (r: Result<usize, ()>)
        requires
            self.wf(),
        ensures
            value >= self.spec_max() ==> r is Err,
            value < self.spec_max() ==> r == Ok::<usize, ()>(self.slot(value) as usize),
            value < self.spec_max() ==> self.slot(value) < usize::MAX,
    {
        let ghost p = self.precision as nat;
        if value >= self.max {
            return Err(());
        }
        proof {
            lemma_index_mono(p, value as nat, self.max as nat);
        }
        if value <= self.exact_max {
            return Ok(value);
        }
        proof {
            lemma_pow10_fits(p);
        }
        let index = index_above(self.precision as u32, value as u64);
        Ok(index as usize)
    }

    /// The largest value bucket `index` stands for, or an error past the
    /// last bucket.
    pub fn get_value(&self, index: usize) -> (r: Result<usize, ()>)
        requires
            self.wf(),
        ensures
            index >= self.counts().len() ==> r is Err,
            index < self.counts().len() ==> r == Ok::<usize, ()>(self.value_spec(index as nat) as usize)
                && self.value_spec(index as nat) <= self.spec_max(),
    {
        let ghost p = self.precision as nat;
        let len = self.buckets.len();
        if index >= len {
            return Err(());
        }
        proof {
            lemma_pow10_pos(p);
        }
        if index < self.exact_max {
            return Ok(index);
        }
        if index == len - 1 {
            return Ok(self.max - 1);
        }
        proof {
            lemma_pow10_fits(p);
            lemma_simple_total(p, self.max as nat);
            let e = log10_floor(self.max as nat);
            lemma_lower_below(p, (index + 1) as nat, pow10(e));
            lemma_index_of_lower(p, (index + 1) as nat);
        }
        let lower = lower_above(self.precision as u32, (index + 1) as u64);
        Ok((lower - 1) as usize)
    }

    /// The bucket at `index` with its bounds and count, if it exists.
    pub fn get_bucket(&self, index: usize) -> (r: Option<Bucket>)
        requires
            self.wf(),
        ensures
            index >= self.counts().len() ==> r is None,
            index < self.counts().len() ==> (r matches Some(b) && {
                &&& b.spec_count() == self.counts()[index as int]
                &&& b.spec_min() == self.bucket_min_spec(index as nat)
                &&& b.spec_max() == self.bucket_max_spec(index as nat)
            }),
    {
        let len = self.buckets.len();
        if index >= len {
            return None;
        }
        let count = self.buckets[index].get();
        proof {
            lemma_pow10_pos(self.precision as nat);
        }
        let min = if index < self.exact_max {
            if index == 0 {
                0
            } else {
                index - 1
            }
        } else {
            match self.get_value(index - 1) {
                Ok(v) => v,
                Err(_) => 0,
            }
        };
        let max = if index == len - 1 {
            self.max
        } else {
            match self.get_value(index) {
                Ok(v) => v,
                Err(_) => 0,
            }
        };
        let mut bucket = Bucket::new(min, max);
        bucket.incr(count);
        Some(bucket)
    }

    /// The count of the bucket that holds `value`; zero for a value that no
    /// bucket holds.
    pub fn count(&self, value: usize) -> (r: usize)
        requires
            self.wf(),
        ensures
            r == (if value < self.spec_max() && self.slot(value) < self.counts().len() {
                self.counts()[self.slot(value) as int]
            } else {
                0
            }),
    {
        match self.get_index(value) {
            Ok(index) => match self.get_bucket(index) {
                Some(bucket) => bucket.count(),
                None => 0,
            },
            Err(_) => 0,
        }
    }

    /// Removes `count` samples of `value`, from its bucket or from the count
    /// of samples too high; counts wrap below zero.
    pub fn decr(&mut self, value: usize, count: usize)
        requires
            old(self).wf(),
        ensures
            old(self).decremented(final(self), value, count),
    {
        match self.get_index(value) {
            Ok(index) => {
                if index < self.buckets.len() {
                    self.buckets[index].decr(count);
                    proof {
                        assert(self.counts() =~= old(self).counts().update(
                            index as int,
                            wrap_sub(old(self).counts()[index as int], count),
                        ));
                    }
                } else {
                    self.too_high.decr(count);
                }
            },
            Err(_) => {
                self.too_high.decr(count);
            },
        }
    }

    /// Adds `count` samples of `value`, to its bucket or to the count of
    /// samples too high; counts wrap above `usize::MAX`.
    pub fn incr(&mut self, value: usize, count: usize)
        requires
            old(self).wf(),
        ensures
            old(self).incremented(final(self), value, count),
    {
        match self.get_index(value) {
            Ok(index) => {
                if index < self.buckets.len() {
                    self.buckets[index].incr(count);
                    proof {
                        assert(self.counts() =~= old(self).counts().update(
                            index as int,
                            wrap_add(old(self).counts()[index as int], count),
                        ));
                    }
                } else {
                    self.too_high.incr(count);
                }
            },
            Err(_) => {
                self.too_high.incr(count);
            },
        }
    }

    /// Sets every count back to zero.
    pub fn clear(&mut self)
        requires
            old(self).wf(),
        ensures
            final(self).wf(),
            final(self).spec_max() == old(self).spec_max(),
            final(self).spec_precision() == old(self).spec_precision(),
            final(self).counts() == Seq::new(old(self).counts().len(), |i: int| 0usize),
            final(self).spec_too_high() == 0,
    {
        let n = self.buckets.len();
        let mut i: usize = 0;
        while i < n
            invariant
                n == self.buckets@.len(),
                n == old(self).buckets@.len(),
                i <= n,
                self.max == old(self).max,
                self.precision == old(self).precision,
                self.exact_max == old(self).exact_max,
                self.too_high == old(self).too_high,
                forall|k: int| 0 <= k < i ==> (#[trigger] self.buckets@[k])@ == 0,
            decreases n - i,
        {
            self.buckets[i].clear();
            i = i + 1;
        }
        self.too_high.clear();
        assert(self.counts() =~= Seq::new(old(self).counts().len(), |i: int| 0usize));
    }

    /// The values are below this.
    pub fn max(&self) -> (r: usize)
        ensures
            r == self.spec_max(),
    {
        self.max
    }

    /// The smallest value: zero.
    pub fn min(&self) -> (r: usize)
        ensures
            r == 0,
    {
        0
    }

    /// The number of significant digits kept.
    pub fn precision(&self) -> (r: usize)
        ensures
            r == self.spec_precision(),
    {
        self.precision
    }

    /// The count of samples too low: none can be.
    pub fn too_low(&self) -> (r: usize)
        ensures
            r == 0,
    {
        0
    }

    /// The count of samples too high for any bucket.
    pub fn too_high(&self) -> (r: usize)
        ensures
            r == self.spec_too_high(),
    {
        self.too_high.get()
    }

    /// The number of buckets.
    pub fn buckets(&self) -> (r: usize)
        ensures
            r == self.counts().len(),
    {
        self.buckets.len()
    }

    /// The number of samples: those in the buckets and those too high.
    pub open spec fn total(&self) -> nat {
        usize_sum(self.counts()) + self.spec_too_high() as nat
    }

    /// The sum, over the first `n` buckets, of each bucket's value times its
    /// count.
    pub open spec fn weighted(&self, n: nat) -> nat
        decreases n,
    {
        if n == 0 {
            0
        } else {
            self.weighted((n - 1) as nat) + self.value_spec((n - 1) as nat) * self.counts()[n - 1] as nat
        }
    }

    /// The width a bucket is taken to have when weighing its count.
    pub open spec fn width_spec(&self, i: nat) -> int {
        if i < pow10(self.spec_precision()) {
            1
        } else {
            self.value_spec(i) - self.value_spec((i - 1) as nat)
        }
    }

    /// Over the first `n` buckets, the highest count divided by width, and
    /// the count of the first bucket that reaches it (zeros when none is
    /// above zero).
    pub open spec fn density_scan(&self, n: nat) -> (nat, nat)
        decreases n,
    {
        if n == 0 {
            (0, 0)
        } else {
            let prev = self.density_scan((n - 1) as nat);
            let mag = self.counts()[n - 1] as nat / self.width_spec((n - 1) as nat) as nat;
            if mag > prev.0 {
                (mag, self.counts()[n - 1] as nat)
            } else {
                prev
            }
        }
    }

    /// The count of bucket `i` divided by the width it is weighed with.
    pub open spec fn density(&self, i: nat) -> nat {
        self.counts()[i as int] as nat / self.width_spec(i) as nat
    }

    /// The scan for the mode finds the highest count per width among the
    /// first `n` buckets and reports the raw count of the first bucket that
    /// has it; when every bucket's count is below its width, both are zero.
    pub proof fn lemma_density_scan_finds_highest(&self, n: nat)
        requires
            n <= self.counts().len(),
        ensures
            forall|j: nat| j < n ==> #[trigger] self.density(j) <= self.density_scan(n).0,
            self.density_scan(n).0 == 0 ==> self.density_scan(n).1 == 0,
            self.density_scan(n).0 > 0 ==> exists|i: nat|
                i < n && #[trigger] self.density(i) == self.density_scan(n).0
                    && self.counts()[i as int] == self.density_scan(n).1 && forall|j: nat|
                    j < i ==> #[trigger] self.density(j) < self.density_scan(n).0,
        decreases n,
    {
        if n > 0 {
            let m = (n - 1) as nat;
            self.lemma_density_scan_finds_highest(m);
            let prev = self.density_scan(m);
            if self.density(m) > prev.0 {
                assert forall|j: nat| j < m implies #[trigger] self.density(j) < self.density_scan(
                    n,
                ).0 by {}
            } else if prev.0 > 0 {
                let i = choose|i: nat|
                    i < m && #[trigger] self.density(i) == prev.0 && self.counts()[i as int]
                        == prev.1 && forall|j: nat| j < i ==> #[trigger] self.density(j) < prev.0;
                assert(i < n && self.density(i) == self.density_scan(n).0);
            }
        }
    }

    /// The value of the first bucket from `i` on at which the running count,
    /// starting from `have`, reaches `need`; the maximum when none does.
    pub open spec fn rank_from(&self, need: nat, i: nat, have: nat) -> nat
        decreases self.counts().len() - i,
    {
        if i >= self.counts().len() {
            self.spec_max() as nat
        } else if have + self.counts()[i as int] >= need {
            self.value_spec(i)
        } else {
            self.rank_from(need, i + 1, have + self.counts()[i as int] as nat)
        }
    }

    /// The rank query from bucket `i` on, with the running count of the
    /// buckets before it, gives the value of the first bucket whose running
    /// total reaches `need`, or the maximum when none does.
    proof fn lemma_rank_from_first(&self, need: nat, i: nat)
        requires
            i <= self.counts().len(),
            usize_sum(self.counts().take(i as int)) < need,
        ensures
            (exists|k: int|
                i <= k < self.counts().len() && #[trigger] usize_sum(self.counts().take(k + 1)) >= need
                    && (forall|j: int|
                    i <= j < k ==> #[trigger] usize_sum(self.counts().take(j + 1)) < need)
                    && self.rank_from(need, i, usize_sum(self.counts().take(i as int)))
                    == self.value_spec(k as nat)) || (usize_sum(self.counts()) < need
                && self.rank_from(need, i, usize_sum(self.counts().take(i as int)))
                == self.spec_max()),
        decreases self.counts().len() - i,
    {
        let c = self.counts();
        if i >= c.len() {
            assert(c.take(i as int) =~= c);
        } else {
            lemma_usize_sum_step(c, i as int);
            if usize_sum(c.take(i as int)) + c[i as int] < need {
                self.lemma_rank_from_first(need, i + 1);
                if exists|k: int|
                    i + 1 <= k < c.len() && #[trigger] usize_sum(c.take(k + 1)) >= need && (forall|
                        j: int,
                    |
                        i + 1 <= j < k ==> #[trigger] usize_sum(c.take(j + 1)) < need)
                        && self.rank_from(need, i + 1, usize_sum(c.take(i + 1 as int)))
                        == self.value_spec(k as nat) {
                    let k = choose|k: int|
                        i + 1 <= k < c.len() && #[trigger] usize_sum(c.take(k + 1)) >= need && (forall|
                            j: int,
                        |
                            i + 1 <= j < k ==> #[trigger] usize_sum(c.take(j + 1)) < need)
                            && self.rank_from(need, i + 1, usize_sum(c.take(i + 1 as int)))
                            == self.value_spec(k as nat);
                    assert(i <= k < c.len() && usize_sum(c.take(k + 1)) >= need);
                }
            } else {
                assert(usize_sum(c.take(i + 1 as int)) >= need);
            }
        }
    }

    /// For a positive `need`, the rank query gives the value of the first
    /// bucket at which the running total of counts reaches `need`: the
    /// buckets up to it hold at least `need` samples and those before it
    /// fewer; when all the buckets together hold fewer, it gives the
    /// maximum.
    pub proof fn lemma_rank_from_is_first(&self, need: nat)
        requires
            need > 0,
        ensures
            (exists|k: int|
                0 <= k < self.counts().len() && #[trigger] usize_sum(self.counts().take(k + 1))
                    >= need && (forall|j: int|
                    0 <= j < k ==> #[trigger] usize_sum(self.counts().take(j + 1)) < need)
                    && self.rank_from(need, 0, 0) == self.value_spec(k as nat)) || (usize_sum(
                self.counts(),
            ) < need && self.rank_from(need, 0, 0) == self.spec_max()),
    {
        assert(self.counts().take(0) =~= Seq::<usize>::empty());
        assert(usize_sum(self.counts().take(0)) == 0);
        self.lemma_rank_from_first(need, 0);
    }

    /// Every bucket has a width of at least one, unless the maximum is the
    /// end of the exact range, where the last bucket has none.
    pub proof fn lemma_width_positive(&self, i: nat)
        requires
            self.wf(),
            i < self.counts().len(),
            self.spec_max() != pow10(self.spec_precision()),
        ensures
            self.width_spec(i) >= 1,
    {
        let p = self.spec_precision();
        let max = self.spec_max() as nat;
        lemma_pow10_pos(p);
        if i >= pow10(p) {
            lemma_simple_total(p, max);
            let e = log10_floor(max);
            if i == pow10(p) {
                lemma_index_of_lower(p, i + 1);
            } else {
                lemma_lower_below(p, i, pow10(e));
                lemma_index_of_lower(p, i);
                if i + 1 < self.counts().len() {
                    lemma_lower_strict(p, i);
                }
            }
        }
    }

    /// The weighted sum over fewer buckets is no larger.
    pub proof fn lemma_weighted_mono(&self, a: nat, b: nat)
        requires
            a <= b,
        ensures
            self.weighted(a) <= self.weighted(b),
        decreases b,
    {
        if a < b {
            self.lemma_weighted_mono(a, (b - 1) as nat);
            assert(self.value_spec((b - 1) as nat) * self.counts()[b - 1] >= 0) by (nonlinear_arith);
        }
    }

    /// The number of samples, counting those too high.
    pub fn samples(&self) -> (r: usize)
        requires
            self.wf(),
            self.total() <= usize::MAX,
        ensures
            r == self.total(),
    {
        let mut total = self.too_low() + self.too_high();
        let mut i: usize = 0;
        while i < self.buckets.len()
            invariant
                i <= self.counts().len(),
                self.counts().len() == self.buckets@.len(),
                total == usize_sum(self.counts().take(i as int)) + self.spec_too_high(),
                self.total() <= usize::MAX,
            decreases self.buckets@.len() - i,
        {
            proof {
                lemma_usize_sum_step(self.counts(), i as int);
                lemma_usize_sum_take_le(self.counts(), i + 1);
            }
            total = total + self.buckets[i].get();
            i = i + 1;
        }
        assert(self.counts().take(i as int) =~= self.counts());
        total
    }

    /// The number of samples, counting those too high, or `None` when it
    /// does not fit in a `usize`.
    pub fn checked_samples(&self) -> (r: Option<usize>)
        requires
            self.wf(),
        ensures
            r == (if self.total() <= usize::MAX {
                Some(self.total() as usize)
            } else {
                None::<usize>
            }),
    {
        let mut total = self.too_low() + self.too_high();
        let mut i: usize = 0;
        while i < self.buckets.len()
            invariant
                i <= self.counts().len(),
                self.counts().len() == self.buckets@.len(),
                total == usize_sum(self.counts().take(i as int)) + self.spec_too_high(),
            decreases self.buckets@.len() - i,
        {
            proof {
                lemma_usize_sum_step(self.counts(), i as int);
                lemma_usize_sum_take_le(self.counts(), i + 1);
            }
            match total.checked_add(self.buckets[i].get()) {
                Some(t) => total = t,
                None => return None,
            }
            i = i + 1;
        }
        assert(self.counts().take(i as int) =~= self.counts());
        Some(total)
    }

    /// The sum of each bucket's value times its count, or `None` when it
    /// does not fit in a `usize`.
    pub fn checked_weighted_sum(&self) -> (r: Option<usize>)
        requires
            self.wf(),
        ensures
            r == (if self.weighted(self.counts().len()) <= usize::MAX {
                Some(self.weighted(self.counts().len()) as usize)
            } else {
                None::<usize>
            }),
    {
        let mut sum: usize = 0;
        let mut i: usize = 0;
        let len = self.buckets.len();
        while i < len
            invariant
                self.wf(),
                len == self.counts().len(),
                i <= len,
                sum == self.weighted(i as nat),
            decreases len - i,
        {
            proof {
                self.lemma_weighted_mono((i + 1) as nat, len as nat);
            }
            let value = match self.get_value(i) {
                Ok(v) => v,
                Err(_) => 0,
            };
            let term = match value.checked_mul(self.buckets[i].get()) {
                Some(t) => t,
                None => return None,
            };
            match sum.checked_add(term) {
                Some(t) => sum = t,
                None => return None,
            }
            i = i + 1;
        }
        Some(sum)
    }

    /// The sum of each bucket's value times its count, or none when there
    /// are no samples.
    pub fn sum(&self) -> (r: Option<usize>)
        requires
            self.wf(),
            self.total() <= usize::MAX,
            self.weighted(self.counts().len()) <= usize::MAX,
        ensures
            r == (if self.total() == 0 {
                None
            } else {
                Some(self.weighted(self.counts().len()) as usize)
            }),
    {
        if self.samples() == 0 {
            return None;
        }
        let mut sum: usize = 0;
        let mut i: usize = 0;
        let len = self.buckets.len();
        while i < len
            invariant
                self.wf(),
                len == self.counts().len(),
                i <= len,
                sum == self.weighted(i as nat),
                self.weighted(len as nat) <= usize::MAX,
            decreases len - i,
        {
            proof {
                self.lemma_weighted_mono((i + 1) as nat, len as nat);
            }
            let value = match self.get_value(i) {
                Ok(v) => v,
                Err(_) => 0,
            };
            sum = sum + value * self.buckets[i].get();
            i = i + 1;
        }
        Some(sum)
    }

    /// The width of bucket `index` when weighing its count.
    fn width(&self, index: usize) -> (r: usize)
        requires
            self.wf(),
            index < self.counts().len(),
            self.spec_max() != pow10(self.spec_precision()),
        ensures
            r == self.width_spec(index as nat),
            r >= 1,
    {
        proof {
            self.lemma_width_positive(index as nat);
            lemma_pow10_pos(self.spec_precision());
        }
        if index < self.exact_max {
            1
        } else {
            let hi = match self.get_value(index) {
                Ok(v) => v,
                Err(_) => 1,
            };
            let lo = match self.get_value(index - 1) {
                Ok(v) => v,
                Err(_) => 0,
            };
            hi - lo
        }
    }

    /// The count of the bucket with the highest count for its width, or
    /// none when there are no samples.
    pub fn mode(&self) -> (r: Option<usize>)
        requires
            self.wf(),
            self.total() <= usize::MAX,
            self.total() > 0 ==> self.spec_max() != pow10(self.spec_precision()),
        ensures
            r == (if self.total() == 0 {
                None
            } else {
                Some(self.density_scan(self.counts().len()).1 as usize)
            }),
    {
        if self.samples() == 0 {
            return None;
        }
        let (_, mode) = self.scan_density();
        Some(mode)
    }

    /// The highest count of a bucket for its width, or zero when there are
    /// no samples.
    pub fn highest_count(&self) -> (r: usize)
        requires
            self.wf(),
            self.total() <= usize::MAX,
            self.total() > 0 ==> self.spec_max() != pow10(self.spec_precision()),
        ensures
            r == (if self.total() == 0 {
                0
            } else {
                self.density_scan(self.counts().len()).0
            }),
    {
        if self.samples() == 0 {
            return 0;
        }
        let (count, _) = self.scan_density();
        count
    }

    /// The highest count for its width over all buckets, with the count of
    /// the first bucket that reaches it.
    fn scan_density(&self) -> (r: (usize, usize))
        requires
            self.wf(),
            self.spec_max() != pow10(self.spec_precision()),
        ensures
            r.0 == self.density_scan(self.counts().len()).0,
            r.1 == self.density_scan(self.counts().len()).1,
    {
        let mut count: usize = 0;
        let mut mode: usize = 0;
        let mut i: usize = 0;
        let len = self.buckets.len();
        while i < len
            invariant
                self.wf(),
                self.spec_max() != pow10(self.spec_precision()),
                len == self.counts().len(),
                i <= len,
                count == self.density_scan(i as nat).0,
                mode == self.density_scan(i as nat).1,
            decreases len - i,
        {
            let width = self.width(i);
            let c = self.buckets[i].get();
            let magnitude = c / width;
            if magnitude > count {
                count = magnitude;
                mode = c;
            }
            i = i + 1;
        }
        (count, mode)
    }

    /// The value of the first bucket at which the running count of samples
    /// reaches `need`, zero when `need` is zero, and the maximum when no
    /// bucket's running count reaches it.
    pub fn value_at_rank(&self, need: usize) -> (r: usize)
        requires
            self.wf(),
            self.total() <= usize::MAX,
        ensures
            r == (if need == 0 {
                0
            } else {
                self.rank_from(need as nat, 0, 0)
            }),
    {
        let mut have: usize = self.too_low();
        if have >= need {
            return self.min();
        }
        let len = self.buckets.len();
        let mut i: usize = 0;
        while i < len
            invariant
                self.wf(),
                len == self.counts().len(),
                i <= len,
                have == usize_sum(self.counts().take(i as int)),
                have < need,
                self.rank_from(need as nat, 0, 0) == self.rank_from(need as nat, i as nat, have as nat),
                self.total() <= usize::MAX,
            decreases len - i,
        {
            proof {
                lemma_usize_sum_step(self.counts(), i as int);
                lemma_usize_sum_take_le(self.counts(), i + 1);
            }
            let c = self.buckets[i].get();
            if have + c >= need {
                return match self.get_value(i) {
                    Ok(v) => v,
                    Err(_) => 0,
                };
            }
            have = have + c;
            i = i + 1;
        }
        self.max
    }
}

} // verus!
