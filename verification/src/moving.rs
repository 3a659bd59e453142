//! A histogram over a sliding window of time: every sample is remembered
//! with the time it was recorded, and samples older than the window are
//! taken out again.

use std::collections::VecDeque;
use vstd::prelude::*;

pub mod simple;

use crate::bucketing::bucket_index;
use crate::latched::{add_sample, latched_params_ok, remove_sample, seq_sum, Latched};
use crate::metrics::instant::{Instant, Interval};

verus! {

/// Whether a sample added or removed its count.
#[derive(Copy, Clone, Debug, PartialEq, Eq)]
pub enum Direction {
    Decrement,
    Increment,
}

/// One recorded change: `count` samples of `value` added or removed at
/// `time`.
#[derive(Copy, Clone, Debug)]
pub struct Sample {
    pub value: u64,
    pub count: u64,
    pub time: Instant,
    pub direction: Direction,
}

/// Bucket counts and the too-high count of a histogram.
pub type Counts = (Seq<u64>, u64);

/// The counts of a histogram of `n` buckets without samples.
pub open spec fn no_counts(n: nat) -> Counts {
    (Seq::new(n, |i: int| 0u64), 0u64)
}

/// The counts after a change is applied.
pub open spec fn apply_sample(p: nat, max: u64, st: Counts, s: Sample) -> Counts {
    match s.direction {
        Direction::Increment => add_sample(p, max, st.0, st.1, s.value, s.count),
        Direction::Decrement => remove_sample(p, max, st.0, st.1, s.value, s.count),
    }
}

/// The counts after a change is taken back.
pub open spec fn undo_sample(p: nat, max: u64, st: Counts, s: Sample) -> Counts {
    match s.direction {
        Direction::Increment => remove_sample(p, max, st.0, st.1, s.value, s.count),
        Direction::Decrement => add_sample(p, max, st.0, st.1, s.value, s.count),
    }
}

/// The counts after a sequence of changes is applied, oldest first.
pub open spec fn apply_samples(p: nat, max: u64, st: Counts, ss: Seq<Sample>) -> Counts
    decreases ss.len(),
{
    if ss.len() == 0 {
        st
    } else {
        apply_sample(p, max, apply_samples(p, max, st, ss.drop_last()), ss.last())
    }
}

/// The age of a sample at `now`, in nanoseconds; zero for a sample from the
/// future.
pub open spec fn age(s: Sample, now: u64) -> nat {
    if now >= s.time@ {
        (now - s.time@) as nat
    } else {
        0
    }
}

/// The number of leading samples older than the window at `now`.
pub open spec fn expired_prefix(ss: Seq<Sample>, now: u64, window: u64) -> nat
    decreases ss.len(),
{
    if ss.len() > 0 && age(ss[0], now) > window {
        1 + expired_prefix(ss.drop_first(), now, window)
    } else {
        0
    }
}

/// The samples kept at `now`: all but the leading ones older than the
/// window.
pub open spec fn kept(ss: Seq<Sample>, now: u64, window: u64) -> Seq<Sample> {
    ss.skip(expired_prefix(ss, now, window) as int)
}

/// The number of samples counted by a histogram's counts.
pub open spec fn total(st: Counts) -> nat {
    st.1 as nat + seq_sum(st.0)
}

/// A histogram of the samples recorded within a window of time.
pub struct Moving {
    data: Latched,
    samples: VecDeque<Sample>,
    window: Interval,
}

impl Moving {
    /// The underlying histogram.
    pub closed spec fn histogram(&self) -> Latched {
        self.data
    }

    /// The samples still in the window, oldest first.
    pub closed spec fn spec_samples(&self) -> Seq<Sample> {
        self.samples@
    }

    /// The length of the window in nanoseconds.
    pub closed spec fn spec_window(&self) -> u64 {
        self.window@
    }

    /// The counts of the underlying histogram.
    pub open spec fn counts(&self) -> Counts {
        (self.histogram().counts(), self.histogram().spec_too_high())
    }

    /// The counts of a histogram that holds just the samples `ss`.
    pub open spec fn counts_of(&self, ss: Seq<Sample>) -> Counts {
        apply_samples(
            self.histogram().spec_precision(),
            self.histogram().spec_max(),
            no_counts(self.histogram().counts().len()),
            ss,
        )
    }

    /// The histogram holds exactly the effect of the samples in the window.
    pub open spec fn wf(&self) -> bool {
        &&& self.histogram().wf()
        &&& self.counts() == self.counts_of(self.spec_samples())
    }

    /// Every set of samples the window may come to hold has a total that
    /// fits in a `u64`.
    pub open spec fn totals_fit(&self) -> bool {
        forall|k: int|
            0 <= k <= self.spec_samples().len() ==> total(
                #[trigger] self.counts_of(self.spec_samples().skip(k)),
            ) <= u64::MAX
    }

    /// A histogram of values up to `max` with `precision` significant
    /// digits over a window of `window`.
    pub fn new(max: u64, precision: usize, window: Interval) -> (h: Self)
        requires
            latched_params_ok(max, precision as nat),
        ensures
            h.wf(),
            h.histogram().spec_max() == max,
            h.histogram().spec_precision() == precision,
            h.spec_samples() == Seq::<Sample>::empty(),
            h.spec_window() == window@,
    {
        let data = Latched::new(max, precision);
        Moving { data, samples: VecDeque::new(), window }
    }

    /// Takes out the samples at the front of the window that are older than
    /// the window at `time`.
    pub fn trim(&mut self, time: Instant)
        requires
            old(self).wf(),
        ensures
            final(self).wf(),
            final(self).histogram().spec_max() == old(self).histogram().spec_max(),
            final(self).histogram().spec_precision() == old(self).histogram().spec_precision(),
            final(self).spec_window() == old(self).spec_window(),
            final(self).spec_samples() == kept(
                old(self).spec_samples(),
                time@,
                old(self).spec_window(),
            ),
    {
        let ghost old_samples = self.samples@;
        let ghost w = self.window@;
        let ghost mut k: int = 0;
        loop
            invariant_except_break
                self.wf(),
                self.histogram().spec_max() == old(self).histogram().spec_max(),
                self.histogram().spec_precision() == old(self).histogram().spec_precision(),
                self.histogram().counts().len() == old(self).histogram().counts().len(),
                self.window@ == w,
                0 <= k <= old_samples.len(),
                self.samples@ == old_samples.skip(k),
                expired_prefix(old_samples, time@, w) == k + expired_prefix(
                    self.samples@,
                    time@,
                    w,
                ),
            ensures
                self.wf(),
                self.histogram().spec_max() == old(self).histogram().spec_max(),
                self.histogram().spec_precision() == old(self).histogram().spec_precision(),
                self.window@ == w,
                self.samples@ == kept(old_samples, time@, w),
            decreases self.samples@.len(),
        {
            let ghost before = self.samples@;
            match self.samples.pop_front() {
                Some(sample) => {
                    let age = time - sample.time;
                    if age.as_nanos() > self.window.as_nanos() {
                        proof {
                            self.lemma_take_out_first(before);
                            assert(before.drop_first() =~= old_samples.skip(k + 1));
                            k = k + 1;
                        }
                        match sample.direction {
                            Direction::Decrement => self.data.increment(sample.value, sample.count),
                            Direction::Increment => self.data.decrement(sample.value, sample.count),
                        }
                    } else {
                        self.samples.push_front(sample);
                        proof {
                            assert(self.samples@ =~= before);
                            assert(expired_prefix(before, time@, w) == 0);
                        }
                        break ;
                    }
                },
                None => {
                    proof {
                        assert(before.len() == 0);
                    }
                    break ;
                },
            }
        }
    }

    /// Applies a change and remembers it, after taking out the samples that
    /// expired by `time`.
    fn record(&mut self, value: u64, count: u64, time: Instant, direction: Direction)
        requires
            old(self).wf(),
        ensures
            final(self).wf(),
            final(self).histogram().spec_max() == old(self).histogram().spec_max(),
            final(self).histogram().spec_precision() == old(self).histogram().spec_precision(),
            final(self).spec_window() == old(self).spec_window(),
            final(self).spec_samples() == kept(
                old(self).spec_samples(),
                time@,
                old(self).spec_window(),
            ).push(Sample { value, count, time, direction }),
    {
        self.trim(time);
        let ghost before = self.samples@;
        match direction {
            Direction::Increment => self.data.increment(value, count),
            Direction::Decrement => self.data.decrement(value, count),
        }
        let sample = Sample { value, count, time, direction };
        self.samples.push_back(sample);
        proof {
            assert(self.samples@.drop_last() =~= before);
        }
    }

    /// Records `count` samples of `value` at `time`.
    pub fn increment_at(&mut self, value: u64, count: u64, time: Instant)
        requires
            old(self).wf(),
        ensures
            final(self).wf(),
            final(self).histogram().spec_max() == old(self).histogram().spec_max(),
            final(self).histogram().spec_precision() == old(self).histogram().spec_precision(),
            final(self).spec_window() == old(self).spec_window(),
            final(self).spec_samples() == kept(
                old(self).spec_samples(),
                time@,
                old(self).spec_window(),
            ).push(Sample { value, count, time, direction: Direction::Increment }),
    {
        self.record(value, count, time, Direction::Increment)
    }

    /// Removes `count` samples of `value` at `time`.
    pub fn decrement_at(&mut self, value: u64, count: u64, time: Instant)
        requires
            old(self).wf(),
        ensures
            final(self).wf(),
            final(self).histogram().spec_max() == old(self).histogram().spec_max(),
            final(self).histogram().spec_precision() == old(self).histogram().spec_precision(),
            final(self).spec_window() == old(self).spec_window(),
            final(self).spec_samples() == kept(
                old(self).spec_samples(),
                time@,
                old(self).spec_window(),
            ).push(Sample { value, count, time, direction: Direction::Decrement }),
    {
        self.record(value, count, time, Direction::Decrement)
    }

    /// Records `count` samples of `value` now.
    pub fn increment(&mut self, value: u64, count: u64)
        requires
            old(self).wf(),
        ensures
            final(self).wf(),
            final(self).histogram().spec_max() == old(self).histogram().spec_max(),
            final(self).histogram().spec_precision() == old(self).histogram().spec_precision(),
            final(self).spec_window() == old(self).spec_window(),
            exists|t: Instant|
                final(self).spec_samples() == #[trigger] kept(
                    old(self).spec_samples(),
                    t@,
                    old(self).spec_window(),
                ).push(Sample { value, count, time: t, direction: Direction::Increment }),
    {
        let time = Instant::now();
        self.increment_at(value, count, time)
    }

    /// Removes `count` samples of `value` now.
    pub fn decrement(&mut self, value: u64, count: u64)
        requires
            old(self).wf(),
        ensures
            final(self).wf(),
            final(self).histogram().spec_max() == old(self).histogram().spec_max(),
            final(self).histogram().spec_precision() == old(self).histogram().spec_precision(),
            final(self).spec_window() == old(self).spec_window(),
            exists|t: Instant|
                final(self).spec_samples() == #[trigger] kept(
                    old(self).spec_samples(),
                    t@,
                    old(self).spec_window(),
                ).push(Sample { value, count, time: t, direction: Direction::Decrement }),
    {
        let time = Instant::now();
        self.decrement_at(value, count, time)
    }

    /// Forgets every sample.
    pub fn reset(&mut self)
        requires
            old(self).wf(),
        ensures
            final(self).wf(),
            final(self).histogram().spec_max() == old(self).histogram().spec_max(),
            final(self).histogram().spec_precision() == old(self).histogram().spec_precision(),
            final(self).spec_window() == old(self).spec_window(),
            final(self).spec_samples() == Seq::<Sample>::empty(),
    {
        self.data.reset();
        self.samples.clear();
    }

    /// Takes out the samples that expired by now and gives the histogram of
    /// the rest.
    pub fn current(&mut self) -> (h: &Latched)
        requires
            old(self).wf(),
        ensures
            final(self).wf(),
            *h == final(self).histogram(),
            final(self).histogram().spec_max() == old(self).histogram().spec_max(),
            final(self).histogram().spec_precision() == old(self).histogram().spec_precision(),
            final(self).spec_window() == old(self).spec_window(),
            exists|t: Instant|
                final(self).spec_samples() == #[trigger] kept(
                    old(self).spec_samples(),
                    t@,
                    old(self).spec_window(),
                ),
    {
        let time = Instant::now();
        self.trim(time);
        &self.data
    }

    /// The number of samples in the window now.
    pub fn samples(&mut self) -> (r: u64)
        requires
            old(self).wf(),
            old(self).totals_fit(),
        ensures
            final(self).wf(),
            final(self).histogram().spec_max() == old(self).histogram().spec_max(),
            final(self).histogram().spec_precision() == old(self).histogram().spec_precision(),
            final(self).spec_window() == old(self).spec_window(),
            exists|t: Instant|
                final(self).spec_samples() == #[trigger] kept(
                    old(self).spec_samples(),
                    t@,
                    old(self).spec_window(),
                ),
            r == total(final(self).counts()),
    {
        let ghost before = *self;
        let time = Instant::now();
        self.trim(time);
        proof {
            lemma_expired_prefix_le(before.spec_samples(), time@, before.spec_window());
            let k = expired_prefix(before.spec_samples(), time@, before.spec_window()) as int;
            assert(total(before.counts_of(before.spec_samples().skip(k))) <= u64::MAX);
            assert(self.counts_of(self.spec_samples()) == before.counts_of(before.spec_samples().skip(k)));
        }
        self.data.samples()
    }

    /// The count of the bucket that holds `value` now; zero for values
    /// above the maximum.
    pub fn count(&mut self, value: u64) -> (r: u64)
        requires
            old(self).wf(),
            value > old(self).histogram().spec_max() || old(self).histogram().slot(value) + 1
                < old(self).histogram().counts().len() || old(self).histogram().spec_max() < u64::MAX,
        ensures
            final(self).wf(),
            final(self).histogram().spec_max() == old(self).histogram().spec_max(),
            final(self).histogram().spec_precision() == old(self).histogram().spec_precision(),
            final(self).spec_window() == old(self).spec_window(),
            exists|t: Instant|
                final(self).spec_samples() == #[trigger] kept(
                    old(self).spec_samples(),
                    t@,
                    old(self).spec_window(),
                ),
            r == (if value <= final(self).histogram().spec_max() {
                final(self).histogram().counts()[final(self).histogram().slot(value) as int]
            } else {
                0
            }),
    {
        let ghost before = *self;
        let time = Instant::now();
        self.trim(time);
        proof {
            lemma_apply_all_len(
                before.histogram().spec_precision(),
                before.histogram().spec_max(),
                no_counts(before.histogram().counts().len()),
                self.spec_samples(),
            );
        }
        self.data.count(value)
    }

    /// The number of samples above the maximum in the window now.
    pub fn too_high(&mut self) -> (r: u64)
        requires
            old(self).wf(),
        ensures
            final(self).wf(),
            final(self).histogram().spec_max() == old(self).histogram().spec_max(),
            final(self).histogram().spec_precision() == old(self).histogram().spec_precision(),
            final(self).spec_window() == old(self).spec_window(),
            exists|t: Instant|
                final(self).spec_samples() == #[trigger] kept(
                    old(self).spec_samples(),
                    t@,
                    old(self).spec_window(),
                ),
            r == final(self).histogram().spec_too_high(),
    {
        let time = Instant::now();
        self.trim(time);
        self.data.too_high()
    }

    /// The histogram of the samples remembered, without taking out expired
    /// ones first.
    pub fn latched(&self) -> (h: &Latched)
        ensures
            *h == self.histogram(),
    {
        &self.data
    }

    /// With no sample remembered, every count is zero.
    pub proof fn lemma_no_samples_no_counts(&self)
        requires
            self.wf(),
            self.spec_samples().len() == 0,
        ensures
            self.counts() == no_counts(self.histogram().counts().len()),
    {
    }

    /// The largest value stored in the buckets.
    pub fn max(&self) -> (r: u64)
        ensures
            r == self.histogram().spec_max(),
    {
        self.data.max()
    }

    /// The number of significant digits kept.
    pub fn precision(&self) -> (r: usize)
        ensures
            r == self.histogram().spec_precision(),
    {
        self.data.precision()
    }

    /// The number of buckets.
    pub fn buckets(&self) -> (r: usize)
        ensures
            r == self.histogram().counts().len(),
    {
        self.data.buckets()
    }

    /// Taking the first sample back from counts that hold `ss` leaves the
    /// counts of the rest.
    proof fn lemma_take_out_first(&self, ss: Seq<Sample>)
        requires
            self.histogram().wf(),
            ss.len() > 0,
        ensures
            undo_sample(
                self.histogram().spec_precision(),
                self.histogram().spec_max(),
                self.counts_of(ss),
                ss[0],
            ) == self.counts_of(ss.drop_first()),
    {
        let p = self.histogram().spec_precision();
        let max = self.histogram().spec_max();
        let z = no_counts(self.histogram().counts().len());
        crate::bucketing::lemma_pow10_pos(p);
        lemma_apply_first(p, max, z, ss);
        lemma_apply_commutes_with_all(p, max, z, ss[0], ss.drop_first());
        lemma_apply_all_len(p, max, z, ss.drop_first());
        lemma_undo_apply(p, max, apply_samples(p, max, z, ss.drop_first()), ss[0]);
    }
}

/// Once every remembered sample is older than the window, none is kept.
pub proof fn lemma_all_expired(ss: Seq<Sample>, now: u64, window: u64)
    requires
        forall|i: int| 0 <= i < ss.len() ==> age(#[trigger] ss[i], now) > window,
    ensures
        kept(ss, now, window) == Seq::<Sample>::empty(),
    decreases ss.len(),
{
    if ss.len() > 0 {
        assert forall|i: int| 0 <= i < ss.drop_first().len() implies age(
            #[trigger] ss.drop_first()[i],
            now,
        ) > window by {
            assert(ss.drop_first()[i] == ss[i + 1]);
        }
        lemma_all_expired(ss.drop_first(), now, window);
        lemma_expired_prefix_le(ss, now, window);
        assert(ss.skip(ss.len() as int) =~= Seq::<Sample>::empty());
    }
}

/// While the oldest remembered sample is within the window, every sample is
/// kept.
pub proof fn lemma_oldest_within_window(ss: Seq<Sample>, now: u64, window: u64)
    requires
        ss.len() > 0,
        age(ss[0], now) <= window,
    ensures
        kept(ss, now, window) == ss,
{
    assert(ss.skip(0) =~= ss);
}

/// No more samples expire than there are.
pub proof fn lemma_expired_prefix_le(ss: Seq<Sample>, now: u64, window: u64)
    ensures
        expired_prefix(ss, now, window) <= ss.len(),
    decreases ss.len(),
{
    if ss.len() > 0 {
        lemma_expired_prefix_le(ss.drop_first(), now, window);
    }
}

/// Applying a change keeps the number of buckets.
pub proof fn lemma_apply_len(p: nat, max: u64, st: Counts, s: Sample)
    requires
        st.0.len() == bucket_index(p, max as nat) + 1,
        p >= 1 || max <= crate::bucketing::pow10(p),
    ensures
        apply_sample(p, max, st, s).0.len() == st.0.len(),
        undo_sample(p, max, st, s).0.len() == st.0.len(),
{
    if s.value <= max {
        crate::bucketing::lemma_index_mono(p, s.value as nat, max as nat);
    }
}

/// Applying changes keeps the number of buckets.
pub proof fn lemma_apply_all_len(p: nat, max: u64, st: Counts, ss: Seq<Sample>)
    requires
        st.0.len() == bucket_index(p, max as nat) + 1,
        p >= 1 || max <= crate::bucketing::pow10(p),
    ensures
        apply_samples(p, max, st, ss).0.len() == st.0.len(),
    decreases ss.len(),
{
    if ss.len() > 0 {
        lemma_apply_all_len(p, max, st, ss.drop_last());
        lemma_apply_len(p, max, apply_samples(p, max, st, ss.drop_last()), ss.last());
    }
}

/// Taking a change back after applying it restores the counts.
pub proof fn lemma_undo_apply(p: nat, max: u64, st: Counts, s: Sample)
    requires
        st.0.len() == bucket_index(p, max as nat) + 1,
        p >= 1 || max <= crate::bucketing::pow10(p),
    ensures
        undo_sample(p, max, apply_sample(p, max, st, s), s) == st,
{
    if s.value <= max {
        crate::bucketing::lemma_index_mono(p, s.value as nat, max as nat);
        let i = bucket_index(p, s.value as nat) as int;
        let a = apply_sample(p, max, st, s);
        assert(a.0.update(i, undo_sample(p, max, a, s).0[i]) =~= undo_sample(p, max, a, s).0);
        assert(undo_sample(p, max, a, s).0 =~= st.0);
    }
}

/// A change's effect on one count.
pub open spec fn change(x: u64, s: Sample) -> u64 {
    match s.direction {
        Direction::Increment => crate::counter::wrap_add_u64(x, s.count),
        Direction::Decrement => crate::counter::wrap_sub_u64(x, s.count),
    }
}

/// Two changes to one count commute.
proof fn lemma_change_commutes(x: u64, a: Sample, b: Sample)
    ensures
        change(change(x, a), b) == change(change(x, b), a),
{
}

/// Two changes applied in either order give the same counts.
#[verifier::rlimit(50)]
pub proof fn lemma_apply_commutes(p: nat, max: u64, st: Counts, a: Sample, b: Sample)
    requires
        st.0.len() == bucket_index(p, max as nat) + 1,
        p >= 1 || max <= crate::bucketing::pow10(p),
    ensures
        apply_sample(p, max, apply_sample(p, max, st, a), b) == apply_sample(
            p,
            max,
            apply_sample(p, max, st, b),
            a,
        ),
{
    let ab = apply_sample(p, max, apply_sample(p, max, st, a), b);
    let ba = apply_sample(p, max, apply_sample(p, max, st, b), a);
    if a.value <= max && b.value <= max {
        crate::bucketing::lemma_index_mono(p, a.value as nat, max as nat);
        crate::bucketing::lemma_index_mono(p, b.value as nat, max as nat);
        let ia = bucket_index(p, a.value as nat) as int;
        let ib = bucket_index(p, b.value as nat) as int;
        if ia == ib {
            lemma_change_commutes(st.0[ia], a, b);
        }
        assert(ab.0 =~= ba.0);
    } else if a.value <= max {
        crate::bucketing::lemma_index_mono(p, a.value as nat, max as nat);
        assert(ab.0 =~= ba.0);
    } else if b.value <= max {
        crate::bucketing::lemma_index_mono(p, b.value as nat, max as nat);
        assert(ab.0 =~= ba.0);
    } else {
        lemma_change_commutes(st.1, a, b);
    }
}

/// Applying one change before a sequence of changes is the same as applying
/// it after them.
pub proof fn lemma_apply_commutes_with_all(
    p: nat,
    max: u64,
    st: Counts,
    a: Sample,
    ss: Seq<Sample>,
)
    requires
        st.0.len() == bucket_index(p, max as nat) + 1,
        p >= 1 || max <= crate::bucketing::pow10(p),
    ensures
        apply_samples(p, max, apply_sample(p, max, st, a), ss) == apply_sample(
            p,
            max,
            apply_samples(p, max, st, ss),
            a,
        ),
    decreases ss.len(),
{
    if ss.len() > 0 {
        lemma_apply_len(p, max, st, a);
        lemma_apply_commutes_with_all(p, max, st, a, ss.drop_last());
        lemma_apply_all_len(p, max, st, ss.drop_last());
        lemma_apply_commutes(p, max, apply_samples(p, max, st, ss.drop_last()), a, ss.last());
    }
}

/// Applying a sequence of changes is applying its first change, then the
/// rest.
pub proof fn lemma_apply_first(p: nat, max: u64, st: Counts, ss: Seq<Sample>)
    requires
        ss.len() > 0,
    ensures
        apply_samples(p, max, st, ss) == apply_samples(
            p,
            max,
            apply_sample(p, max, st, ss[0]),
            ss.drop_first(),
        ),
    decreases ss.len(),
{
    if ss.len() == 1 {
        assert(ss.drop_last() =~= Seq::<Sample>::empty());
        assert(ss.drop_first() =~= Seq::<Sample>::empty());
        assert(ss.last() == ss[0]);
        assert(apply_samples(p, max, st, ss.drop_last()) == st);
        assert(apply_samples(p, max, apply_sample(p, max, st, ss[0]), ss.drop_first())
            == apply_sample(p, max, st, ss[0]));
    } else {
        lemma_apply_first(p, max, st, ss.drop_last());
        assert(ss.drop_last()[0] == ss[0]);
        assert(ss.drop_last().drop_first() =~= ss.drop_first().drop_last());
        assert(ss.drop_first().last() == ss.last());
    }
}

} // verus!
