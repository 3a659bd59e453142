//! A simple histogram over a sliding window of time, built on the simple
//! fixed-size histogram: every change is remembered with its time, and the
//! changes older than the window are taken back.

use std::collections::VecDeque;
use vstd::prelude::*;

use crate::latched::simple::{simple_add, simple_sub, usize_sum, Simple as Latched};
use crate::metrics::instant::{Instant, Interval};

verus! {

/// Whether a change added or removed samples.
#[derive(Copy, Clone, Debug, PartialEq, Eq)]
pub enum Direction {
    Decrement,
    Increment,
}

/// One remembered change: `count` samples of `value` added or removed at
/// `time`.
#[derive(Copy, Clone, Debug)]
pub struct Sample {
    pub value: usize,
    pub count: usize,
    pub time: Instant,
    pub direction: Direction,
}

/// The counts and the too-high count of a histogram.
pub type Counts = (Seq<usize>, usize);

/// The counts of a histogram of `n` buckets without samples.
pub open spec fn no_counts(n: nat) -> Counts {
    (Seq::new(n, |i: int| 0usize), 0usize)
}

/// The counts after a change is applied.
pub open spec fn apply_sample(p: nat, max: usize, st: Counts, s: Sample) -> Counts {
    match s.direction {
        Direction::Increment => simple_add(p, max, st, s.value, s.count),
        Direction::Decrement => simple_sub(p, max, st, s.value, s.count),
    }
}

/// The counts after a change is taken back.
pub open spec fn undo_sample(p: nat, max: usize, st: Counts, s: Sample) -> Counts {
    match s.direction {
        Direction::Increment => simple_sub(p, max, st, s.value, s.count),
        Direction::Decrement => simple_add(p, max, st, s.value, s.count),
    }
}

/// The counts after a sequence of changes is applied, oldest first.
pub open spec fn apply_samples(p: nat, max: usize, st: Counts, ss: Seq<Sample>) -> Counts
    decreases ss.len(),
{
    if ss.len() == 0 {
        st
    } else {
        apply_sample(p, max, apply_samples(p, max, st, ss.drop_last()), ss.last())
    }
}

/// The age of a change at `now`, in nanoseconds; zero for one from the
/// future.
pub open spec fn age(s: Sample, now: u64) -> nat {
    if now >= s.time@ {
        (now - s.time@) as nat
    } else {
        0
    }
}

/// The number of leading changes older than the window at `now`.
pub open spec fn expired_prefix(ss: Seq<Sample>, now: u64, window: u64) -> nat
    decreases ss.len(),
{
    if ss.len() > 0 && age(ss[0], now) > window {
        1 + expired_prefix(ss.drop_first(), now, window)
    } else {
        0
    }
}

/// The changes kept at `now`: all but the leading ones older than the
/// window.
pub open spec fn kept(ss: Seq<Sample>, now: u64, window: u64) -> Seq<Sample> {
    ss.skip(expired_prefix(ss, now, window) as int)
}

/// The number of samples a histogram's counts hold.
pub open spec fn total(st: Counts) -> nat {
    usize_sum(st.0) + st.1 as nat
}

/// No more changes expire than there are.
pub proof fn lemma_expired_prefix_le(ss: Seq<Sample>, now: u64, window: u64)
    ensures
        expired_prefix(ss, now, window) <= ss.len(),
    decreases ss.len(),
{
    if ss.len() > 0 {
        lemma_expired_prefix_le(ss.drop_first(), now, window);
    }
}

/// Once every remembered change is older than the window, none is kept.
pub proof fn lemma_all_expired(ss: Seq<Sample>, now: u64, window: u64)
    requires
        forall|i: int| 0 <= i < ss.len() ==> age(#[trigger] ss[i], now) > window,
    ensures
        kept(ss, now, window) == Seq::<Sample>::empty(),
    decreases ss.len(),
{
    if ss.len() > 0 {
        assert forall|i: int| 0 <= i < ss.drop_first().len() implies age(
            #[trigger] ss.drop_first()[i],
            now,
        ) > window by {
            assert(ss.drop_first()[i] == ss[i + 1]);
        }
        lemma_all_expired(ss.drop_first(), now, window);
        lemma_expired_prefix_le(ss, now, window);
        assert(ss.skip(ss.len() as int) =~= Seq::<Sample>::empty());
    }
}

/// Changes keep the number of buckets.
pub proof fn lemma_apply_all_len(p: nat, max: usize, st: Counts, ss: Seq<Sample>)
    ensures
        apply_samples(p, max, st, ss).0.len() == st.0.len(),
    decreases ss.len(),
{
    if ss.len() > 0 {
        lemma_apply_all_len(p, max, st, ss.drop_last());
    }
}

/// Taking a change back after applying it restores the counts.
pub proof fn lemma_undo_apply(p: nat, max: usize, st: Counts, s: Sample)
    ensures
        undo_sample(p, max, apply_sample(p, max, st, s), s) == st,
{
    crate::latched::simple::lemma_sub_undoes_add(p, max, st, s.value, s.count);
}

/// A change's effect on one count.
pub open spec fn change(x: usize, s: Sample) -> usize {
    match s.direction {
        Direction::Increment => crate::counter::wrap_add(x, s.count),
        Direction::Decrement => crate::counter::wrap_sub(x, s.count),
    }
}

/// Two changes to one count commute.
proof fn lemma_change_commutes(x: usize, a: Sample, b: Sample)
    ensures
        change(change(x, a), b) == change(change(x, b), a),
{
}

/// Two changes applied in either order give the same counts.
#[verifier::rlimit(50)]
pub proof fn lemma_apply_commutes(p: nat, max: usize, st: Counts, a: Sample, b: Sample)
    ensures
        apply_sample(p, max, apply_sample(p, max, st, a), b) == apply_sample(
            p,
            max,
            apply_sample(p, max, st, b),
            a,
        ),
{
    let ab = apply_sample(p, max, apply_sample(p, max, st, a), b);
    let ba = apply_sample(p, max, apply_sample(p, max, st, b), a);
    let ia = crate::bucketing::bucket_index(p, a.value as nat);
    let ib = crate::bucketing::bucket_index(p, b.value as nat);
    let in_a = a.value < max && ia < st.0.len();
    let in_b = b.value < max && ib < st.0.len();
    if in_a && in_b {
        if ia == ib {
            lemma_change_commutes(st.0[ia as int], a, b);
        }
        assert(ab.0 =~= ba.0);
    } else if in_a {
        lemma_change_commutes(st.1, a, b);
        assert(ab.0 =~= ba.0);
    } else if in_b {
        lemma_change_commutes(st.1, a, b);
        assert(ab.0 =~= ba.0);
    } else {
        lemma_change_commutes(st.1, a, b);
    }
}

/// Applying one change before a sequence of changes is the same as applying
/// it after them.
pub proof fn lemma_apply_commutes_with_all(
    p: nat,
    max: usize,
    st: Counts,
    a: Sample,
    ss: Seq<Sample>,
)
    ensures
        apply_samples(p, max, apply_sample(p, max, st, a), ss) == apply_sample(
            p,
            max,
            apply_samples(p, max, st, ss),
            a,
        ),
    decreases ss.len(),
{
    if ss.len() > 0 {
        lemma_apply_commutes_with_all(p, max, st, a, ss.drop_last());
        lemma_apply_commutes(p, max, apply_samples(p, max, st, ss.drop_last()), a, ss.last());
    }
}

/// Applying a sequence of changes is applying its first change, then the
/// rest.
pub proof fn lemma_apply_first(p: nat, max: usize, st: Counts, ss: Seq<Sample>)
    requires
        ss.len() > 0,
    ensures
        apply_samples(p, max, st, ss) == apply_samples(
            p,
            max,
            apply_sample(p, max, st, ss[0]),
            ss.drop_first(),
        ),
    decreases ss.len(),
{
    if ss.len() == 1 {
        assert(ss.drop_last() =~= Seq::<Sample>::empty());
        assert(ss.drop_first() =~= Seq::<Sample>::empty());
        assert(ss.last() == ss[0]);
        assert(apply_samples(p, max, st, ss.drop_last()) == st);
        assert(apply_samples(p, max, apply_sample(p, max, st, ss[0]), ss.drop_first())
            == apply_sample(p, max, st, ss[0]));
    } else {
        lemma_apply_first(p, max, st, ss.drop_last());
        assert(ss.drop_last()[0] == ss[0]);
        assert(ss.drop_last().drop_first() =~= ss.drop_first().drop_last());
        assert(ss.drop_first().last() == ss.last());
    }
}

/// A simple histogram of the changes recorded within a window of time.
pub struct Simple {
    data: Latched,
    samples: VecDeque<Sample>,
    window: Interval,
}

impl Simple {
    /// The underlying histogram.
    pub closed spec fn histogram(&self) -> Latched {
        self.data
    }

    /// The changes still in the window, oldest first.
    pub closed spec fn spec_samples(&self) -> Seq<Sample> {
        self.samples@
    }

    /// The length of the window in nanoseconds.
    pub closed spec fn spec_window(&self) -> u64 {
        self.window@
    }

    /// The counts of a histogram that holds just the changes `ss`.
    pub open spec fn counts_of(&self, ss: Seq<Sample>) -> Counts {
        apply_samples(
            self.histogram().spec_precision(),
            self.histogram().spec_max(),
            no_counts(self.histogram().counts().len()),
            ss,
        )
    }

    /// The histogram holds exactly the effect of the changes in the window.
    pub open spec fn wf(&self) -> bool {
        &&& self.histogram().wf()
        &&& self.histogram().state() == self.counts_of(self.spec_samples())
    }

    /// Every set of changes the window may come to hold has a total that
    /// fits in a `usize`.
    pub open spec fn totals_fit(&self) -> bool {
        forall|k: int|
            0 <= k <= self.spec_samples().len() ==> total(
                #[trigger] self.counts_of(self.spec_samples().skip(k)),
            ) <= usize::MAX
    }

    /// The parts of two histograms that changes leave alone are the same.
    pub open spec fn same_frame(&self, other: &Simple) -> bool {
        &&& other.histogram().spec_max() == self.histogram().spec_max()
        &&& other.histogram().spec_precision() == self.histogram().spec_precision()
        &&& other.histogram().counts().len() == self.histogram().counts().len()
        &&& other.spec_window() == self.spec_window()
    }

    /// A histogram of values below `max` with `precision` significant digits
    /// over a window of `window`.
    pub fn new(max: usize, precision: usize, window: Interval) -> (h: Self)
        requires
            crate::latched::simple::simple_params_ok(max, precision as nat),
        ensures
            h.wf(),
            h.histogram().spec_max() == max,
            h.histogram().spec_precision() == precision,
            h.spec_samples() == Seq::<Sample>::empty(),
            h.spec_window() == window@,
    {
        let data = Latched::new(max, precision);
        Simple { data, samples: VecDeque::new(), window }
    }

    /// Taking back the oldest change of a window that holds `ss` leaves the
    /// counts of the rest.
    proof fn lemma_take_out_first(&self, ss: Seq<Sample>)
        requires
            ss.len() > 0,
        ensures
            undo_sample(
                self.histogram().spec_precision(),
                self.histogram().spec_max(),
                self.counts_of(ss),
                ss[0],
            ) == self.counts_of(ss.drop_first()),
    {
        let p = self.histogram().spec_precision();
        let max = self.histogram().spec_max();
        let z = no_counts(self.histogram().counts().len());
        lemma_apply_first(p, max, z, ss);
        lemma_apply_commutes_with_all(p, max, z, ss[0], ss.drop_first());
        lemma_undo_apply(p, max, apply_samples(p, max, z, ss.drop_first()), ss[0]);
    }

    /// Takes back the changes at the front of the window that are older
    /// than the window at `time`.
    pub fn trim(&mut self, time: Instant)
        requires
            old(self).wf(),
        ensures
            final(self).wf(),
            old(self).same_frame(final(self)),
            final(self).spec_samples() == kept(
                old(self).spec_samples(),
                time@,
                old(self).spec_window(),
            ),
    {
        let ghost old_samples = self.samples@;
        let ghost w = self.window@;
        let ghost mut k: int = 0;
        loop
            invariant_except_break
                self.wf(),
                old(self).same_frame(self),
                self.window@ == w,
                0 <= k <= old_samples.len(),
                self.samples@ == old_samples.skip(k),
                expired_prefix(old_samples, time@, w) == k + expired_prefix(
                    self.samples@,
                    time@,
                    w,
                ),
            ensures
                self.wf(),
                old(self).same_frame(self),
                self.samples@ == kept(old_samples, time@, w),
            decreases self.samples@.len(),
        {
            let ghost before = self.samples@;
            match self.samples.pop_front() {
                Some(sample) => {
                    let age = time - sample.time;
                    if age.as_nanos() > self.window.as_nanos() {
                        proof {
                            self.lemma_take_out_first(before);
                            assert(before.drop_first() =~= old_samples.skip(k + 1));
                            k = k + 1;
                        }
                        match sample.direction {
                            Direction::Decrement => self.data.incr(sample.value, sample.count),
                            Direction::Increment => self.data.decr(sample.value, sample.count),
                        }
                    } else {
                        self.samples.push_front(sample);
                        proof {
                            assert(self.samples@ =~= before);
                            assert(expired_prefix(before, time@, w) == 0);
                        }
                        break ;
                    }
                },
                None => {
                    proof {
                        assert(before.len() == 0);
                    }
                    break ;
                },
            }
        }
    }

    /// Records a change after taking back the changes expired by `time`.
    fn record(&mut self, value: usize, count: usize, time: Instant, direction: Direction)
        requires
            old(self).wf(),
        ensures
            final(self).wf(),
            old(self).same_frame(final(self)),
            final(self).spec_samples() == kept(
                old(self).spec_samples(),
                time@,
                old(self).spec_window(),
            ).push(Sample { value, count, time, direction }),
    {
        self.trim(time);
        let ghost before = self.samples@;
        match direction {
            Direction::Increment => self.data.incr(value, count),
            Direction::Decrement => self.data.decr(value, count),
        }
        let sample = Sample { value, count, time, direction };
        self.samples.push_back(sample);
        proof {
            assert(self.samples@.drop_last() =~= before);
        }
    }

    /// Adds `count` samples of `value` at `time`.
    pub fn incr_at(&mut self, value: usize, count: usize, time: Instant)
        requires
            old(self).wf(),
        ensures
            final(self).wf(),
            old(self).same_frame(final(self)),
            final(self).spec_samples() == kept(
                old(self).spec_samples(),
                time@,
                old(self).spec_window(),
            ).push(Sample { value, count, time, direction: Direction::Increment }),
    {
        self.record(value, count, time, Direction::Increment)
    }

    /// Removes `count` samples of `value` at `time`.
    pub fn decr_at(&mut self, value: usize, count: usize, time: Instant)
        requires
            old(self).wf(),
        ensures
            final(self).wf(),
            old(self).same_frame(final(self)),
            final(self).spec_samples() == kept(
                old(self).spec_samples(),
                time@,
                old(self).spec_window(),
            ).push(Sample { value, count, time, direction: Direction::Decrement }),
    {
        self.record(value, count, time, Direction::Decrement)
    }

    /// Adds `count` samples of `value` now.
    pub fn incr(&mut self, value: usize, count: usize)
        requires
            old(self).wf(),
        ensures
            final(self).wf(),
            old(self).same_frame(final(self)),
            exists|t: Instant|
                final(self).spec_samples() == #[trigger] kept(
                    old(self).spec_samples(),
                    t@,
                    old(self).spec_window(),
                ).push(Sample { value, count, time: t, direction: Direction::Increment }),
    {
        let time = Instant::now();
        self.incr_at(value, count, time)
    }

    /// Removes `count` samples of `value` now.
    pub fn decr(&mut self, value: usize, count: usize)
        requires
            old(self).wf(),
        ensures
            final(self).wf(),
            old(self).same_frame(final(self)),
            exists|t: Instant|
                final(self).spec_samples() == #[trigger] kept(
                    old(self).spec_samples(),
                    t@,
                    old(self).spec_window(),
                ).push(Sample { value, count, time: t, direction: Direction::Decrement }),
    {
        let time = Instant::now();
        self.decr_at(value, count, time)
    }

    /// Forgets every change.
    pub fn clear(&mut self)
        requires
            old(self).wf(),
        ensures
            final(self).wf(),
            old(self).same_frame(final(self)),
            final(self).spec_samples() == Seq::<Sample>::empty(),
    {
        self.data.clear();
        self.samples.clear();
        proof {
            assert(self.histogram().state() =~= self.counts_of(self.spec_samples()));
        }
    }

    /// After trimming at `time`, the window's total fits in a `usize`.
    proof fn lemma_trimmed_total_fits(&self, before: Simple, time: Instant)
        requires
            before.wf(),
            before.totals_fit(),
            self.wf(),
            before.same_frame(self),
            self.spec_samples() == kept(before.spec_samples(), time@, before.spec_window()),
        ensures
            self.histogram().total() <= usize::MAX,
    {
        lemma_expired_prefix_le(before.spec_samples(), time@, before.spec_window());
        let k = expired_prefix(before.spec_samples(), time@, before.spec_window()) as int;
        assert(total(before.counts_of(before.spec_samples().skip(k))) <= usize::MAX);
        assert(self.counts_of(self.spec_samples()) == before.counts_of(before.spec_samples().skip(k)));
    }

    /// The number of samples in the window at `time`, after taking back the
    /// changes expired by then.
    pub fn samples_at(&mut self, time: Instant) -> (r: usize)
        requires
            old(self).wf(),
            old(self).totals_fit(),
        ensures
            final(self).wf(),
            old(self).same_frame(final(self)),
            final(self).spec_samples() == kept(
                old(self).spec_samples(),
                time@,
                old(self).spec_window(),
            ),
            r == total(final(self).histogram().state()),
    {
        let ghost before = *self;
        self.trim(time);
        proof {
            self.lemma_trimmed_total_fits(before, time);
        }
        self.data.samples()
    }

    /// The number of samples in the window now.
    pub fn samples(&mut self) -> (r: usize)
        requires
            old(self).wf(),
            old(self).totals_fit(),
        ensures
            final(self).wf(),
            old(self).same_frame(final(self)),
            exists|t: Instant|
                final(self).spec_samples() == #[trigger] kept(
                    old(self).spec_samples(),
                    t@,
                    old(self).spec_window(),
                ),
            r == total(final(self).histogram().state()),
    {
        let time = Instant::now();
        self.samples_at(time)
    }

    /// Takes back the changes that have left the window now and gives the
    /// histogram of the rest.
    pub fn current(&mut self) -> (h: &Latched)
        requires
            old(self).wf(),
        ensures
            final(self).wf(),
            old(self).same_frame(final(self)),
            exists|t: Instant|
                final(self).spec_samples() == #[trigger] kept(
                    old(self).spec_samples(),
                    t@,
                    old(self).spec_window(),
                ),
            *h == final(self).histogram(),
    {
        let time = Instant::now();
        self.trim(time);
        &self.data
    }

    /// The value at which the running count of the samples in the window
    /// now reaches `need`, as the underlying histogram gives it.
    pub fn value_at_rank(&mut self, need: usize) -> (r: usize)
        requires
            old(self).wf(),
            old(self).totals_fit(),
        ensures
            final(self).wf(),
            old(self).same_frame(final(self)),
            exists|t: Instant|
                final(self).spec_samples() == #[trigger] kept(
                    old(self).spec_samples(),
                    t@,
                    old(self).spec_window(),
                ),
            r == (if need == 0 {
                0
            } else {
                final(self).histogram().rank_from(need as nat, 0, 0)
            }),
    {
        let ghost before = *self;
        let time = Instant::now();
        self.trim(time);
        proof {
            self.lemma_trimmed_total_fits(before, time);
        }
        self.data.value_at_rank(need)
    }

    /// The count of the bucket that holds `value` now.
    pub fn count(&mut self, value: usize) -> (r: usize)
        requires
            old(self).wf(),
        ensures
            final(self).wf(),
            old(self).same_frame(final(self)),
            exists|t: Instant|
                final(self).spec_samples() == #[trigger] kept(
                    old(self).spec_samples(),
                    t@,
                    old(self).spec_window(),
                ),
            r == (if value < final(self).histogram().spec_max() && final(self).histogram().slot(
                value,
            ) < final(self).histogram().counts().len() {
                final(self).histogram().counts()[final(self).histogram().slot(value) as int]
            } else {
                0
            }),
    {
        let time = Instant::now();
        self.trim(time);
        self.data.count(value)
    }

    /// The count of samples too high for any bucket now.
    pub fn too_high(&mut self) -> (r: usize)
        requires
            old(self).wf(),
        ensures
            final(self).wf(),
            old(self).same_frame(final(self)),
            exists|t: Instant|
                final(self).spec_samples() == #[trigger] kept(
                    old(self).spec_samples(),
                    t@,
                    old(self).spec_window(),
                ),
            r == final(self).histogram().spec_too_high(),
    {
        let time = Instant::now();
        self.trim(time);
        self.data.too_high()
    }

    /// The count of samples too low: none can be.
    pub fn too_low(&mut self) -> (r: usize)
        requires
            old(self).wf(),
        ensures
            final(self).wf(),
            old(self).same_frame(final(self)),
            exists|t: Instant|
                final(self).spec_samples() == #[trigger] kept(
                    old(self).spec_samples(),
                    t@,
                    old(self).spec_window(),
                ),
            r == 0,
    {
        let time = Instant::now();
        self.trim(time);
        self.data.too_low()
    }

    /// The values are below this.
    pub fn max(&self) -> (r: usize)
        ensures
            r == self.histogram().spec_max(),
    {
        self.data.max()
    }

    /// The smallest value: zero.
    pub fn min(&self) -> (r: usize)
        ensures
            r == 0,
    {
        self.data.min()
    }

    /// The number of significant digits kept.
    pub fn precision(&self) -> (r: usize)
        ensures
            r == self.histogram().spec_precision(),
    {
        self.data.precision()
    }

    /// The sum of each bucket's value times its count, as the underlying
    /// histogram gives it.
    pub fn sum(&self) -> (r: Option<usize>)
        requires
            self.wf(),
            self.histogram().total() <= usize::MAX,
            self.histogram().weighted(self.histogram().counts().len()) <= usize::MAX,
        ensures
            r == (if self.histogram().total() == 0 {
                None
            } else {
                Some(self.histogram().weighted(self.histogram().counts().len()) as usize)
            }),
    {
        self.data.sum()
    }

    /// The mode as the underlying histogram gives it.
    pub fn mode(&self) -> (r: Option<usize>)
        requires
            self.wf(),
            self.histogram().total() <= usize::MAX,
            self.histogram().total() > 0 ==> self.histogram().spec_max()
                != crate::bucketing::pow10(self.histogram().spec_precision()),
        ensures
            r == (if self.histogram().total() == 0 {
                None
            } else {
                Some(self.histogram().density_scan(self.histogram().counts().len()).1 as usize)
            }),
    {
        self.data.mode()
    }

    /// The highest count for its width as the underlying histogram gives it.
    pub fn highest_count(&self) -> (r: usize)
        requires
            self.wf(),
            self.histogram().total() <= usize::MAX,
            self.histogram().total() > 0 ==> self.histogram().spec_max()
                != crate::bucketing::pow10(self.histogram().spec_precision()),
        ensures
            r == (if self.histogram().total() == 0 {
                0
            } else {
                self.histogram().density_scan(self.histogram().counts().len()).0
            }),
    {
        self.data.highest_count()
    }

    /// The number of buckets.
    pub fn buckets(&self) -> (r: usize)
        ensures
            r == self.histogram().counts().len(),
    {
        self.data.buckets()
    }

    /// Once every remembered change is older than the window at `time`,
    /// trimming at `time` leaves a histogram that counts nothing.
    pub proof fn lemma_all_expired_counts_nothing(&self, time: Instant)
        requires
            self.wf(),
            forall|i: int|
                0 <= i < self.spec_samples().len() ==> age(#[trigger] self.spec_samples()[i], time@)
                    > self.spec_window(),
        ensures
            kept(self.spec_samples(), time@, self.spec_window()) == Seq::<Sample>::empty(),
            self.counts_of(Seq::<Sample>::empty()) == no_counts(self.histogram().counts().len()),
            total(no_counts(self.histogram().counts().len())) == 0,
    {
        lemma_all_expired(self.spec_samples(), time@, self.spec_window());
        lemma_usize_sum_zeros(self.histogram().counts().len());
    }
}

/// Counts that are all zero add up to zero.
pub proof fn lemma_usize_sum_zeros(n: nat)
    ensures
        usize_sum(Seq::new(n, |i: int| 0usize)) == 0,
    decreases n,
{
    if n > 0 {
        lemma_usize_sum_zeros((n - 1) as nat);
        assert(Seq::new(n, |i: int| 0usize).drop_last() =~= Seq::new((n - 1) as nat, |i: int| 0usize));
    }
}

impl Default for Simple {
    /// A histogram of values below a million with three significant digits
    /// over a window of a minute.
    fn default() -> (h: Self)
        ensures
            h.wf(),
            h.histogram().spec_max() == 1_000_000,
            h.histogram().spec_precision() == 3,
            h.spec_samples() == Seq::<Sample>::empty(),
            h.spec_window() == 60_000_000_000,
    {
        proof {
            reveal_with_fuel(crate::bucketing::pow10, 5);
            reveal_with_fuel(crate::bucketing::log10_floor, 8);
            assert(crate::bucketing::pow10(3) == 1000);
            assert(crate::bucketing::pow10(2) == 100);
            assert(crate::bucketing::pow10(4) == 10000);
            assert(crate::bucketing::log10_floor(1_000_000) == 6);
            assert(crate::bucketing::pow10((6 - 3 + 1) as nat) == 10000);
            assert(crate::bucketing::pow10((3 - 1) as nat) == 100);
            assert(1_000_000nat / 10000nat == 100);
            assert(crate::bucketing::bucket_index(3, 1_000_000) == 3700);
            assert(crate::latched::simple::simple_total(3, 1_000_000) == 3700);
        }
        let window = Interval::from_seconds(60);
        Simple::new(1_000_000, 3, window)
    }
}

} // verus!
