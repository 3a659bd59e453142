//! A histogram that can forget: it optionally remembers its samples with
//! their times, and takes back those older than a window of time or beyond
//! a capacity. Counts saturate instead of wrapping, and each hundred
//! buckets keep a running total that speeds up rank queries.

use std::collections::VecDeque;
use vstd::prelude::*;

use crate::bucketing::{bucket_index, lemma_index_mono};
use crate::latched::{
    latched_params_ok, sat_add_u64, sat_sub_u64, saturating_add_sample, saturating_remove_sample,
    seq_sum, Bucket, Latched,
};
use crate::metrics::instant::{Instant, Interval};
use crate::moving::{expired_prefix, lemma_expired_prefix_le, Direction, Sample};

verus! {

/// Bucket counts, running totals of each hundred buckets, and the count of
/// values above the maximum.
pub type State = (Seq<u64>, Seq<u64>, u64);

/// The state after adding `count` samples of `value`, saturating.
pub open spec fn state_add(p: nat, max: u64, st: State, value: u64, count: u64) -> State {
    let (c, t) = saturating_add_sample(p, max, st.0, st.2, value, count);
    if value <= max {
        let b = bucket_index(p, value as nat) as int / 100;
        (c, st.1.update(b, sat_add_u64(st.1[b], count)), t)
    } else {
        (c, st.1, t)
    }
}

/// The state after removing `count` samples of `value`, saturating.
pub open spec fn state_sub(p: nat, max: u64, st: State, value: u64, count: u64) -> State {
    let (c, t) = saturating_remove_sample(p, max, st.0, st.2, value, count);
    if value <= max {
        let b = bucket_index(p, value as nat) as int / 100;
        (c, st.1.update(b, sat_sub_u64(st.1[b], count)), t)
    } else {
        (c, st.1, t)
    }
}

/// The state after a remembered change is taken back.
pub open spec fn state_undo(p: nat, max: u64, st: State, s: Sample) -> State {
    match s.direction {
        Direction::Increment => state_sub(p, max, st, s.value, s.count),
        Direction::Decrement => state_add(p, max, st, s.value, s.count),
    }
}

/// The state after remembered changes are taken back, oldest first.
pub open spec fn state_undo_all(p: nat, max: u64, st: State, ss: Seq<Sample>) -> State
    decreases ss.len(),
{
    if ss.len() == 0 {
        st
    } else {
        state_undo(p, max, state_undo_all(p, max, st, ss.drop_last()), ss.last())
    }
}

/// How many remembered samples the window lets go at `now`.
pub open spec fn window_drop(ss: Seq<Sample>, now: u64, window: Option<Interval>) -> nat {
    match window {
        Some(w) => expired_prefix(ss, now, w@),
        None => 0,
    }
}

/// How many further samples the capacity lets go.
pub open spec fn capacity_drop(ss: Seq<Sample>, capacity: Option<usize>) -> nat {
    match capacity {
        Some(c) => if ss.len() > c {
            (ss.len() - c) as nat
        } else {
            0
        },
        None => 0,
    }
}

/// The samples kept at `now`: those left after the expired ones at the
/// front, and then the oldest beyond the capacity, are let go.
pub open spec fn trim_samples(
    ss: Seq<Sample>,
    now: u64,
    window: Option<Interval>,
    capacity: Option<usize>,
) -> Seq<Sample> {
    let r = ss.skip(window_drop(ss, now, window) as int);
    r.skip(capacity_drop(r, capacity) as int)
}

/// The counts after the samples let go at `now` are taken back.
pub open spec fn trim_state(
    p: nat,
    max: u64,
    st: State,
    ss: Seq<Sample>,
    now: u64,
    window: Option<Interval>,
    capacity: Option<usize>,
) -> State {
    let k1 = window_drop(ss, now, window) as int;
    let r = ss.skip(k1);
    let s1 = state_undo_all(p, max, st, ss.take(k1));
    state_undo_all(p, max, s1, r.take(capacity_drop(r, capacity) as int))
}

/// The outcome of a rank query: the bucket where the running count reaches
/// the rank, none, or an input on which the query would fail (an index past
/// the buckets or an overflowing count).
pub enum Scan {
    Found(nat),
    NotFound(nat),
    Fails,
}

/// The scan of buckets `j..end` of a block for the rank `need`, starting
/// from the running count `have`: the bucket where it reaches `need`, or the
/// running count after the block.
pub open spec fn scan_block(c: Seq<u64>, need: nat, j: nat, end: nat, have: nat) -> Scan
    decreases end - j,
{
    if j >= end {
        Scan::NotFound(have)
    } else if j >= c.len() || have + c[j as int] > u64::MAX {
        Scan::Fails
    } else if have + c[j as int] >= need {
        Scan::Found(j)
    } else {
        scan_block(c, need, (j + 1) as nat, end, (have + c[j as int]) as nat)
    }
}

/// The scan over blocks `i..` for the rank `need`: a block whose running
/// total reaches the rank is searched bucket by bucket; if the search runs
/// through, both the block's buckets and its total are counted.
pub open spec fn scan_blocks(c: Seq<u64>, idx: Seq<u64>, need: nat, i: nat, have: nat) -> Scan
    decreases idx.len() - i,
{
    if i >= idx.len() {
        Scan::NotFound(have)
    } else if have + idx[i as int] > u64::MAX {
        Scan::Fails
    } else if have + idx[i as int] >= need {
        match scan_block(c, need, i * 100, (i * 100 + 100) as nat, have) {
            Scan::Found(j) => Scan::Found(j),
            Scan::Fails => Scan::Fails,
            Scan::NotFound(h) => if h + idx[i as int] > u64::MAX {
                Scan::Fails
            } else {
                scan_blocks(c, idx, need, (i + 1) as nat, (h + idx[i as int]) as nat)
            },
        }
    } else {
        scan_blocks(c, idx, need, (i + 1) as nat, (have + idx[i as int]) as nat)
    }
}

/// The first of the buckets `0..n` with the highest count, if any count is
/// above zero.
pub open spec fn mode_index(c: Seq<u64>, n: nat) -> Option<nat>
    decreases n,
{
    if n == 0 {
        None
    } else {
        let prev = mode_index(c, (n - 1) as nat);
        let best = match prev {
            Some(i) => c[i as int],
            None => 0,
        };
        if c[n - 1] > best {
            Some((n - 1) as nat)
        } else {
            prev
        }
    }
}

/// The mode's bucket among the first `n` has a count above zero and at
/// least that of each of them, and no earlier bucket has as high a count;
/// there is none only when all of them are empty.
pub proof fn lemma_mode_index_is_highest(c: Seq<u64>, n: nat)
    requires
        n <= c.len(),
    ensures
        mode_index(c, n) is None ==> forall|j: int| 0 <= j < n ==> #[trigger] c[j] == 0,
        mode_index(c, n) matches Some(i) ==> {
            &&& i < n
            &&& c[i as int] > 0
            &&& forall|j: int| 0 <= j < n ==> #[trigger] c[j] <= c[i as int]
            &&& forall|j: int| 0 <= j < i ==> #[trigger] c[j] < c[i as int]
        },
    decreases n,
{
    if n > 0 {
        lemma_mode_index_is_highest(c, (n - 1) as nat);
    }
}

/// `new` is `old` after a change of `count` samples of `value` at `time`
/// in `direction` is recorded: the counts change first; then, when the
/// value has a bucket and samples are remembered, the samples let go at
/// `time` are taken back and the change is remembered.
pub open spec fn recorded_at(
    old: &Histogram,
    new: &Histogram,
    value: u64,
    count: u64,
    time: Instant,
    direction: Direction,
) -> bool {
    let st1 = match direction {
        Direction::Increment => state_add(old.p(), old.m(), old.state(), value, count),
        Direction::Decrement => state_sub(old.p(), old.m(), old.state(), value, count),
    };
    match old.remembered() {
        Some(ss) => if value <= old.m() {
            &&& new.state() == trim_state(
                old.p(),
                old.m(),
                st1,
                ss,
                time@,
                old.spec_window(),
                old.spec_capacity(),
            )
            &&& new.remembered() == Some(
                trim_samples(ss, time@, old.spec_window(), old.spec_capacity()).push(
                    Sample { value, count, time, direction },
                ),
            )
        } else {
            new.state() == st1 && new.remembered() == old.remembered()
        },
        None => new.state() == st1 && new.remembered() is None,
    }
}

/// A histogram that may remember its samples for a window or up to a
/// capacity.
pub struct Histogram {
    data: Latched,
    index: Vec<u64>,
    samples: Option<VecDeque<Sample>>,
    window: Option<Interval>,
    capacity: Option<usize>,
}

impl Histogram {
    /// The buckets and their bounds.
    pub closed spec fn layout(&self) -> Latched {
        self.data
    }

    /// The current counts.
    pub closed spec fn state(&self) -> State {
        (self.data.counts(), self.index@, self.data.spec_too_high())
    }

    /// The remembered samples, oldest first, when samples are remembered.
    pub closed spec fn remembered(&self) -> Option<Seq<Sample>> {
        match self.samples {
            Some(q) => Some(q@),
            None => None,
        }
    }

    /// The window, if any.
    pub closed spec fn spec_window(&self) -> Option<Interval> {
        self.window
    }

    /// The capacity, if any.
    pub closed spec fn spec_capacity(&self) -> Option<usize> {
        self.capacity
    }

    /// The precision of the buckets.
    pub open spec fn p(&self) -> nat {
        self.layout().spec_precision()
    }

    /// The largest value with a bucket.
    pub open spec fn m(&self) -> u64 {
        self.layout().spec_max()
    }

    /// The bucket layout is sound, there is one running total for each
    /// hundred buckets, and samples are remembered exactly when a window or
    /// a capacity is set.
    pub open spec fn wf(&self) -> bool {
        &&& self.counts_ok()
        &&& (self.remembered() is Some <==> (self.spec_window() is Some
            || self.spec_capacity() is Some))
    }

    /// The bucket layout is sound and there is one running total for each
    /// hundred buckets.
    pub open spec fn counts_ok(&self) -> bool {
        &&& self.layout().wf()
        &&& self.state().0 == self.layout().counts()
        &&& self.state().1.len() == (self.layout().counts().len() - 1) / 100 + 1
    }

    /// The samples remembered after trimming at `now`.
    pub open spec fn trimmed_samples(&self, now: u64) -> Option<Seq<Sample>> {
        match self.remembered() {
            Some(ss) => Some(trim_samples(ss, now, self.spec_window(), self.spec_capacity())),
            None => None,
        }
    }

    /// The counts after trimming at `now`.
    pub open spec fn trimmed_state(&self, now: u64) -> State {
        match self.remembered() {
            Some(ss) => trim_state(
                self.p(),
                self.m(),
                self.state(),
                ss,
                now,
                self.spec_window(),
                self.spec_capacity(),
            ),
            None => self.state(),
        }
    }

    /// A histogram of values up to `max` with `precision` significant
    /// digits, remembering samples for `window` and at most `capacity` of
    /// them when either is given.
    pub fn new(max: u64, precision: u32, window: Option<Interval>, capacity: Option<usize>) -> (h:
        Self)
        requires
            latched_params_ok(max, precision as nat),
        ensures
            h.wf(),
            h.m() == max,
            h.p() == precision,
            h.state().0 == Seq::new(h.state().0.len(), |i: int| 0u64),
            h.state().1 == Seq::new(h.state().1.len(), |i: int| 0u64),
            h.state().2 == 0,
            h.remembered() == (if window is Some || capacity is Some {
                Some(Seq::<Sample>::empty())
            } else {
                None
            }),
            h.spec_window() == window,
            h.spec_capacity() == capacity,
    {
        let data = Latched::new(max, precision as usize);
        let n = data.buckets();
        let blocks = (n - 1) / 100 + 1;
        let mut index: Vec<u64> = Vec::new();
        let mut i: usize = 0;
        while i < blocks
            invariant
                i <= blocks,
                index@ == Seq::new(i as nat, |k: int| 0u64),
            decreases blocks - i,
        {
            index.push(0);
            i = i + 1;
        }
        let samples = if window.is_some() || capacity.is_some() {
            Some(VecDeque::new())
        } else {
            None
        };
        Histogram { data, index, samples, window, capacity }
    }

    /// Adds `count` samples of `value` to the counts.
    fn add_counts(&mut self, value: u64, count: u64)
        requires
            old(self).counts_ok(),
        ensures
            final(self).counts_ok(),
            final(self).layout().spec_max() == old(self).layout().spec_max(),
            final(self).layout().spec_precision() == old(self).layout().spec_precision(),
            final(self).remembered() == old(self).remembered(),
            final(self).spec_window() == old(self).spec_window(),
            final(self).spec_capacity() == old(self).spec_capacity(),
            final(self).state() == state_add(old(self).p(), old(self).m(), old(self).state(), value, count),
    {
        let slot = self.data.get_index(value);
        self.data.saturating_increment(value, count);
        match slot {
            Ok(i) => {
                proof {
                    lemma_index_mono(old(self).p(), value as nat, old(self).m() as nat);
                    vstd::arithmetic::div_mod::lemma_div_is_ordered(
                        i as int,
                        (old(self).layout().counts().len() - 1) as int,
                        100,
                    );
                }
                let b = i / 100;
                let t = self.index[b].saturating_add(count);
                self.index.set(b, t);
            },
            Err(_) => {},
        }
    }

    /// Removes `count` samples of `value` from the counts.
    fn sub_counts(&mut self, value: u64, count: u64)
        requires
            old(self).counts_ok(),
        ensures
            final(self).counts_ok(),
            final(self).layout().spec_max() == old(self).layout().spec_max(),
            final(self).layout().spec_precision() == old(self).layout().spec_precision(),
            final(self).remembered() == old(self).remembered(),
            final(self).spec_window() == old(self).spec_window(),
            final(self).spec_capacity() == old(self).spec_capacity(),
            final(self).state() == state_sub(old(self).p(), old(self).m(), old(self).state(), value, count),
    {
        let slot = self.data.get_index(value);
        self.data.saturating_decrement(value, count);
        match slot {
            Ok(i) => {
                proof {
                    lemma_index_mono(old(self).p(), value as nat, old(self).m() as nat);
                    vstd::arithmetic::div_mod::lemma_div_is_ordered(
                        i as int,
                        (old(self).layout().counts().len() - 1) as int,
                        100,
                    );
                }
                let b = i / 100;
                let t = self.index[b].saturating_sub(count);
                self.index.set(b, t);
            },
            Err(_) => {},
        }
    }

    /// Takes a remembered change back from the counts.
    fn undo(&mut self, s: Sample)
        requires
            old(self).counts_ok(),
        ensures
            final(self).counts_ok(),
            final(self).layout().spec_max() == old(self).layout().spec_max(),
            final(self).layout().spec_precision() == old(self).layout().spec_precision(),
            final(self).remembered() == old(self).remembered(),
            final(self).spec_window() == old(self).spec_window(),
            final(self).spec_capacity() == old(self).spec_capacity(),
            final(self).state() == state_undo(old(self).p(), old(self).m(), old(self).state(), s),
    {
        match s.direction {
            Direction::Decrement => self.add_counts(s.value, s.count),
            Direction::Increment => self.sub_counts(s.value, s.count),
        }
    }

    /// Takes back the remembered samples that are older than the window at
    /// `time`, then the oldest ones beyond the capacity.
    pub fn trim(&mut self, time: Instant)
        requires
            old(self).wf(),
        ensures
            final(self).wf(),
            final(self).layout().spec_max() == old(self).layout().spec_max(),
            final(self).layout().spec_precision() == old(self).layout().spec_precision(),
            final(self).spec_window() == old(self).spec_window(),
            final(self).spec_capacity() == old(self).spec_capacity(),
            final(self).remembered() == old(self).trimmed_samples(time@),
            final(self).state() == old(self).trimmed_state(time@),
    {
        if self.samples.is_none() {
            return;
        }
        let taken = self.samples.take();
        match taken {
            None => {},
            Some(mut q) => {
                let ghost ss = q@;
                let ghost st0 = self.state();
                let ghost p = self.p();
                let ghost m = self.m();
                let ghost mut k: int = 0;
                match self.window {
                    Some(w) => {
                        loop
                            invariant_except_break
                                self.counts_ok(),
                                self.p() == p,
                                self.m() == m,
                                self.samples is None,
                                self.window == Some(w),
                                self.window == old(self).window,
                                self.capacity == old(self).capacity,
                                0 <= k <= ss.len(),
                                q@ == ss.skip(k),
                                self.state() == state_undo_all(p, m, st0, ss.take(k)),
                                expired_prefix(ss, time@, w@) == k + expired_prefix(q@, time@, w@),
                            ensures
                                self.counts_ok(),
                                self.p() == p,
                                self.m() == m,
                                self.samples is None,
                                self.window == Some(w),
                                self.capacity == old(self).capacity,
                                k == expired_prefix(ss, time@, w@),
                                q@ == ss.skip(k),
                                self.state() == state_undo_all(p, m, st0, ss.take(k)),
                            decreases q@.len(),
                        {
                            let ghost before = q@;
                            match q.pop_front() {
                                Some(sample) => {
                                    let age = time - sample.time;
                                    if age.as_nanos() > w.as_nanos() {
                                        self.undo(sample);
                                        proof {
                                            assert(ss.take(k + 1).drop_last() =~= ss.take(k));
                                            assert(ss.take(k + 1).last() == ss[k]);
                                            assert(before.drop_first() =~= ss.skip(k + 1));
                                            k = k + 1;
                                        }
                                    } else {
                                        q.push_front(sample);
                                        proof {
                                            assert(q@ =~= before);
                                        }
                                        break ;
                                    }
                                },
                                None => {
                                    break ;
                                },
                            }
                        }
                    },
                    None => {
                        assert(ss.take(0) =~= Seq::<Sample>::empty());
                        assert(ss.skip(0) =~= ss);
                    },
                }
                let ghost r = q@;
                let ghost st1 = self.state();
                let ghost mut j: int = 0;
                match self.capacity {
                    Some(c) => {
                        while q.len() > c
                            invariant
                                self.counts_ok(),
                                self.p() == p,
                                self.m() == m,
                                self.samples is None,
                                self.window == old(self).window,
                                self.capacity == Some(c),
                                0 <= j <= r.len(),
                                j <= capacity_drop(r, Some(c)),
                                q@ == r.skip(j),
                                self.state() == state_undo_all(p, m, st1, r.take(j)),
                            decreases q@.len(),
                        {
                            let ghost before = q@;
                            match q.pop_front() {
                                Some(sample) => {
                                    self.undo(sample);
                                    proof {
                                        assert(r.take(j + 1).drop_last() =~= r.take(j));
                                        assert(r.take(j + 1).last() == r[j]);
                                        assert(before.drop_first() =~= r.skip(j + 1));
                                        j = j + 1;
                                    }
                                },
                                None => {},
                            }
                        }
                    },
                    None => {
                        assert(r.take(0) =~= Seq::<Sample>::empty());
                        assert(r.skip(0) =~= r);
                    },
                }
                proof {
                    assert(k == window_drop(ss, time@, self.window));
                    assert(r == ss.skip(k));
                    assert(j == capacity_drop(r, self.capacity));
                    assert(st0 == old(self).state());
                    assert(ss == old(self).remembered()->0);
                }
                self.samples = Some(q);
            },
        }
    }

    /// Applies a change at `time`: the counts change first; then, when the
    /// value has a bucket and samples are remembered, expired samples are
    /// taken back and the change is remembered.
    fn record(&mut self, value: u64, count: u64, time: Instant, direction: Direction)
        requires
            old(self).wf(),
        ensures
            final(self).wf(),
            final(self).layout().spec_max() == old(self).layout().spec_max(),
            final(self).layout().spec_precision() == old(self).layout().spec_precision(),
            final(self).spec_window() == old(self).spec_window(),
            final(self).spec_capacity() == old(self).spec_capacity(),
            recorded_at(old(self), final(self), value, count, time, direction),
    {
        let slot = self.data.get_index(value);
        match direction {
            Direction::Increment => self.add_counts(value, count),
            Direction::Decrement => self.sub_counts(value, count),
        }
        match slot {
            Ok(_) => {
                if self.samples.is_some() {
                    self.trim(time);
                    let sample = Sample { value, count, time, direction };
                    let taken = self.samples.take();
                    match taken {
                        Some(mut q) => {
                            q.push_back(sample);
                            self.samples = Some(q);
                        },
                        None => {},
                    }
                }
            },
            Err(_) => {},
        }
    }

    /// Records `count` samples of `value` at `time`.
    pub fn increment_at(&mut self, value: u64, count: u64, time: Instant)
        requires
            old(self).wf(),
        ensures
            final(self).wf(),
            final(self).layout().spec_max() == old(self).layout().spec_max(),
            final(self).layout().spec_precision() == old(self).layout().spec_precision(),
            final(self).spec_window() == old(self).spec_window(),
            final(self).spec_capacity() == old(self).spec_capacity(),
            recorded_at(old(self), final(self), value, count, time, Direction::Increment),
    {
        self.record(value, count, time, Direction::Increment)
    }

    /// Removes `count` samples of `value` at `time`.
    pub fn decrement_at(&mut self, value: u64, count: u64, time: Instant)
        requires
            old(self).wf(),
        ensures
            final(self).wf(),
            final(self).layout().spec_max() == old(self).layout().spec_max(),
            final(self).layout().spec_precision() == old(self).layout().spec_precision(),
            final(self).spec_window() == old(self).spec_window(),
            final(self).spec_capacity() == old(self).spec_capacity(),
            recorded_at(old(self), final(self), value, count, time, Direction::Decrement),
    {
        self.record(value, count, time, Direction::Decrement)
    }

    /// Records `count` samples of `value` now; the counts change as
    /// `increment_at` says for the time the clock gives.
    pub fn increment(&mut self, value: u64, count: u64)
        requires
            old(self).wf(),
        ensures
            final(self).wf(),
            final(self).layout().spec_max() == old(self).layout().spec_max(),
            final(self).layout().spec_precision() == old(self).layout().spec_precision(),
            final(self).spec_window() == old(self).spec_window(),
            final(self).spec_capacity() == old(self).spec_capacity(),
            old(self).remembered() is None || value > old(self).m() ==> final(self).state() == state_add(
                old(self).p(),
                old(self).m(),
                old(self).state(),
                value,
                count,
            ) && final(self).remembered() == old(self).remembered(),
            old(self).remembered() is Some && value <= old(self).m() ==> exists|t: Instant|
                final(self).state() == #[trigger] trim_state(
                    old(self).p(),
                    old(self).m(),
                    state_add(old(self).p(), old(self).m(), old(self).state(), value, count),
                    old(self).remembered()->0,
                    t@,
                    old(self).spec_window(),
                    old(self).spec_capacity(),
                ) && final(self).remembered() == Some(
                    trim_samples(
                        old(self).remembered()->0,
                        t@,
                        old(self).spec_window(),
                        old(self).spec_capacity(),
                    ).push(Sample { value, count, time: t, direction: Direction::Increment }),
                ),
    {
        let time = Instant::now();
        self.increment_at(value, count, time)
    }

    /// Removes `count` samples of `value` now; the counts change as
    /// `decrement_at` says for the time the clock gives.
    pub fn decrement(&mut self, value: u64, count: u64)
        requires
            old(self).wf(),
        ensures
            final(self).wf(),
            final(self).layout().spec_max() == old(self).layout().spec_max(),
            final(self).layout().spec_precision() == old(self).layout().spec_precision(),
            final(self).spec_window() == old(self).spec_window(),
            final(self).spec_capacity() == old(self).spec_capacity(),
            old(self).remembered() is None || value > old(self).m() ==> final(self).state() == state_sub(
                old(self).p(),
                old(self).m(),
                old(self).state(),
                value,
                count,
            ) && final(self).remembered() == old(self).remembered(),
            old(self).remembered() is Some && value <= old(self).m() ==> exists|t: Instant|
                final(self).state() == #[trigger] trim_state(
                    old(self).p(),
                    old(self).m(),
                    state_sub(old(self).p(), old(self).m(), old(self).state(), value, count),
                    old(self).remembered()->0,
                    t@,
                    old(self).spec_window(),
                    old(self).spec_capacity(),
                ) && final(self).remembered() == Some(
                    trim_samples(
                        old(self).remembered()->0,
                        t@,
                        old(self).spec_window(),
                        old(self).spec_capacity(),
                    ).push(Sample { value, count, time: t, direction: Direction::Decrement }),
                ),
    {
        let time = Instant::now();
        self.decrement_at(value, count, time)
    }

    /// Forgets every sample and zeroes every count.
    pub fn clear(&mut self)
        requires
            old(self).wf(),
        ensures
            final(self).wf(),
            final(self).layout().spec_max() == old(self).layout().spec_max(),
            final(self).layout().spec_precision() == old(self).layout().spec_precision(),
            final(self).spec_window() == old(self).spec_window(),
            final(self).spec_capacity() == old(self).spec_capacity(),
            final(self).state().0 == Seq::new(old(self).state().0.len(), |i: int| 0u64),
            final(self).state().1 == Seq::new(old(self).state().1.len(), |i: int| 0u64),
            final(self).state().2 == 0,
            final(self).remembered() == (if old(self).remembered() is Some {
                Some(Seq::<Sample>::empty())
            } else {
                None
            }),
    {
        if self.samples.is_some() {
            let taken = self.samples.take();
            match taken {
                Some(mut q) => {
                    q.clear();
                    self.samples = Some(q);
                },
                None => {},
            }
        }
        self.data.reset();
        let n = self.index.len();
        let mut i: usize = 0;
        let ghost d = self.data;
        let ghost q = self.samples;
        while i < n
            invariant
                n == self.index@.len(),
                i <= n,
                self.data == d,
                self.samples == q,
                self.window == old(self).window,
                self.capacity == old(self).capacity,
                forall|k: int| 0 <= k < i ==> self.index@[k] == 0,
            decreases n - i,
        {
            self.index.set(i, 0);
            i = i + 1;
        }
        assert(self.index@ =~= Seq::new(n as nat, |i: int| 0u64));
    }

    /// The number of samples above the maximum.
    pub fn too_high(&self) -> (r: u64)
        ensures
            r == self.state().2,
    {
        self.data.too_high()
    }

    /// The bucket at `index` with its bounds and count, if it exists.
    pub fn get_bucket(&self, index: usize) -> (r: Option<Bucket>)
        requires
            self.wf(),
            index >= self.state().0.len() || index + 1 < self.state().0.len() || self.m() < u64::MAX,
        ensures
            index >= self.state().0.len() ==> r is None,
            index < self.state().0.len() ==> r is Some && r->0.spec_count() == self.state().0[index as int]
                && r->0.spec_min() == self.layout().min_value_spec(index as nat)
                && r->0.spec_max() == self.layout().max_value_spec(index as nat),
    {
        self.data.get_bucket(index)
    }

    /// The count of bucket `index`.
    pub fn bucket_count(&self, index: usize) -> (r: u64)
        requires
            self.wf(),
            index < self.state().0.len(),
        ensures
            r == self.state().0[index as int],
    {
        self.data.bucket_count(index)
    }

    /// The number of buckets.
    pub fn buckets(&self) -> (r: usize)
        requires
            self.wf(),
        ensures
            r == self.state().0.len(),
    {
        self.data.buckets()
    }

    /// The number of samples counted, without taking back any remembered
    /// sample first.
    pub fn counted(&self) -> (r: u64)
        requires
            seq_sum(self.state().1) + self.state().2 <= u64::MAX,
        ensures
            r == seq_sum(self.state().1) + self.state().2,
    {
        self.sum_totals()
    }

    /// The number of samples counted, after the samples let go at `time`
    /// are taken back.
    pub fn total_count_at(&mut self, time: Instant) -> (r: u64)
        requires
            old(self).wf(),
            seq_sum(old(self).trimmed_state(time@).1) + old(self).trimmed_state(time@).2 <= u64::MAX,
        ensures
            final(self).wf(),
            final(self).layout().spec_max() == old(self).layout().spec_max(),
            final(self).layout().spec_precision() == old(self).layout().spec_precision(),
            final(self).spec_window() == old(self).spec_window(),
            final(self).spec_capacity() == old(self).spec_capacity(),
            final(self).remembered() == old(self).trimmed_samples(time@),
            final(self).state() == old(self).trimmed_state(time@),
            r == seq_sum(final(self).state().1) + final(self).state().2,
    {
        if self.samples.is_some() {
            self.trim(time);
        }
        self.sum_totals()
    }

    /// The number of samples counted now, after the samples let go by the
    /// clock's time are taken back.
    pub fn total_count(&mut self) -> (r: u64)
        requires
            old(self).wf(),
            forall|t: u64|
                seq_sum(#[trigger] old(self).trimmed_state(t).1) + old(self).trimmed_state(t).2
                    <= u64::MAX,
        ensures
            final(self).wf(),
            final(self).layout().spec_max() == old(self).layout().spec_max(),
            final(self).layout().spec_precision() == old(self).layout().spec_precision(),
            final(self).spec_window() == old(self).spec_window(),
            final(self).spec_capacity() == old(self).spec_capacity(),
            exists|t: u64|
                final(self).remembered() == old(self).trimmed_samples(t) && final(self).state()
                    == #[trigger] old(self).trimmed_state(t),
            r == seq_sum(final(self).state().1) + final(self).state().2,
    {
        if self.samples.is_some() {
            let time = Instant::now();
            let ghost t = time@;
            assert(seq_sum(old(self).trimmed_state(t).1) + old(self).trimmed_state(t).2 <= u64::MAX);
            self.trim(time);
        } else {
            assert(old(self).trimmed_state(0) == old(self).state());
        }
        self.sum_totals()
    }

    /// The number of samples counted now, after the samples let go by the
    /// clock's time are taken back; `None` when it does not fit in a `u64`.
    pub fn checked_total_count(&mut self) -> (r: Option<u64>)
        requires
            old(self).wf(),
        ensures
            final(self).wf(),
            final(self).layout().spec_max() == old(self).layout().spec_max(),
            final(self).layout().spec_precision() == old(self).layout().spec_precision(),
            final(self).spec_window() == old(self).spec_window(),
            final(self).spec_capacity() == old(self).spec_capacity(),
            exists|t: u64|
                final(self).remembered() == old(self).trimmed_samples(t) && final(self).state()
                    == #[trigger] old(self).trimmed_state(t),
            r == (if seq_sum(final(self).state().1) + final(self).state().2 <= u64::MAX {
                Some((seq_sum(final(self).state().1) + final(self).state().2) as u64)
            } else {
                None::<u64>
            }),
    {
        if self.samples.is_some() {
            let time = Instant::now();
            self.trim(time);
        } else {
            assert(old(self).trimmed_state(0) == old(self).state());
        }
        self.checked_sum_totals()
    }

    /// The running totals plus the count above the maximum, or `None` when
    /// they do not fit in a `u64`.
    fn checked_sum_totals(&self) -> (r: Option<u64>)
        ensures
            r == (if seq_sum(self.state().1) + self.state().2 <= u64::MAX {
                Some((seq_sum(self.state().1) + self.state().2) as u64)
            } else {
                None::<u64>
            }),
    {
        let mut total: u64 = 0;
        let mut i: usize = 0;
        while i < self.index.len()
            invariant
                i <= self.index@.len(),
                total == seq_sum(self.index@.take(i as int)),
            decreases self.index@.len() - i,
        {
            proof {
                crate::latched::lemma_seq_sum_prefix(self.index@, i as int);
                crate::latched::lemma_seq_sum_take_le(self.index@, i + 1);
            }
            match total.checked_add(self.index[i]) {
                Some(t) => total = t,
                None => return None,
            }
            i = i + 1;
        }
        assert(self.index@.take(i as int) =~= self.index@);
        total.checked_add(self.data.too_high())
    }

    /// The running totals plus the count above the maximum.
    fn sum_totals(&self) -> (r: u64)
        requires
            seq_sum(self.state().1) + self.state().2 <= u64::MAX,
        ensures
            r == seq_sum(self.state().1) + self.state().2,
    {
        let mut total: u64 = 0;
        let mut i: usize = 0;
        while i < self.index.len()
            invariant
                i <= self.index@.len(),
                total == seq_sum(self.index@.take(i as int)),
                seq_sum(self.index@) + self.data.spec_too_high() <= u64::MAX,
            decreases self.index@.len() - i,
        {
            proof {
                crate::latched::lemma_seq_sum_prefix(self.index@, i as int);
                crate::latched::lemma_seq_sum_take_le(self.index@, i + 1);
            }
            total = total + self.index[i];
            i = i + 1;
        }
        assert(self.index@.take(i as int) =~= self.index@);
        total + self.data.too_high()
    }

    /// The value of the bucket where the running count, scanned a block of
    /// a hundred buckets at a time, reaches `need`; the maximum when it never
    /// does. This is the integer core of a percentile query.
    pub fn value_at_rank(&self, need: u64) -> (r: u64)
        requires
            self.wf(),
            self.state().0.len() + 100 <= usize::MAX,
            scan_blocks(self.state().0, self.state().1, need as nat, 0, 0) != Scan::Fails,
            scan_blocks(self.state().0, self.state().1, need as nat, 0, 0) matches Scan::Found(j)
                ==> j + 1 < self.state().0.len() || self.m() < u64::MAX,
        ensures
            r == match scan_blocks(self.state().0, self.state().1, need as nat, 0, 0) {
                Scan::Found(j) => (self.layout().max_value_spec(j) - 1) as u64,
                _ => self.m(),
            },
    {
        match self.checked_value_at_rank(need) {
            Some(v) => v,
            None => self.data.max(),
        }
    }

    /// The value of the bucket where the running count, scanned a block of
    /// a hundred buckets at a time, reaches `need`; the maximum when it never
    /// does; `None` when the query cannot be answered: the scan runs past
    /// the buckets or its running count past `u64::MAX`, or it ends in the
    /// top bucket while the maximum is `u64::MAX`, so that the bucket's
    /// bound does not fit.
    pub fn checked_value_at_rank(&self, need: u64) -> (r: Option<u64>)
        requires
            self.wf(),
            self.state().0.len() + 100 <= usize::MAX,
        ensures
            r == match scan_blocks(self.state().0, self.state().1, need as nat, 0, 0) {
                Scan::Found(j) => if j + 1 < self.state().0.len() || self.m() < u64::MAX {
                    Some((self.layout().max_value_spec(j) - 1) as u64)
                } else {
                    None::<u64>
                },
                Scan::NotFound(_) => Some(self.m()),
                Scan::Fails => None::<u64>,
            },
    {
        let ghost c = self.state().0;
        let ghost idx = self.state().1;
        let ghost res = scan_blocks(c, idx, need as nat, 0, 0);
        let mut have: u64 = 0;
        let mut i: usize = 0;
        while i < self.index.len()
            invariant
                self.wf(),
                c == self.state().0,
                idx == self.state().1,
                i <= idx.len(),
                c.len() + 100 <= usize::MAX,
                res == scan_blocks(c, idx, need as nat, 0, 0),
                res == scan_blocks(c, idx, need as nat, i as nat, have as nat),
            decreases idx.len() - i,
        {
            let count = self.index[i];
            if have as u128 + count as u128 > u64::MAX as u128 {
                return None;
            }
            if have + count >= need {
                proof {
                    let n = self.state().0.len();
                    assert(i * 100 <= n - 1) by (nonlinear_arith)
                        requires
                            i < (n - 1) / 100 + 1,
                            n >= 1,
                    ;
                }
                let start = i * 100;
                let ghost block_res = scan_block(c, need as nat, start as nat, (start + 100) as nat, have as nat);
                let mut j = start;
                while j < start + 100
                    invariant
                        self.wf(),
                        c == self.state().0,
                        idx == self.state().1,
                        c.len() + 100 <= usize::MAX,
                        i < idx.len(),
                        start == i * 100,
                        start + 100 <= usize::MAX,
                        start <= j <= start + 100,
                        count == idx[i as int],
                        block_res == scan_block(c, need as nat, j as nat, (start + 100) as nat, have as nat),
                        res == scan_blocks(c, idx, need as nat, 0, 0),
                        res == (match block_res {
                            Scan::Found(jj) => Scan::Found(jj),
                            Scan::Fails => Scan::Fails,
                            Scan::NotFound(h) => if h + idx[i as int] > u64::MAX {
                                Scan::Fails
                            } else {
                                scan_blocks(c, idx, need as nat, (i + 1) as nat, (h + idx[i as int]) as nat)
                            },
                        }),
                    decreases start + 100 - j,
                {
                    if j >= self.data.buckets() {
                        return None;
                    }
                    let b = self.data.bucket_count(j);
                    if have as u128 + b as u128 > u64::MAX as u128 {
                        return None;
                    }
                    let ghost have0 = have;
                    have = have + b;
                    if have >= need {
                        proof {
                            assert(b == c[j as int]);
                        }
                        if j + 1 >= self.data.buckets() && self.data.max() == u64::MAX {
                            return None;
                        }
                        let v = match self.data.get_value(j) {
                            Ok(v) => v,
                            Err(_) => 0,
                        };
                        return Some(v);
                    }
                    j = j + 1;
                }
                if have as u128 + count as u128 > u64::MAX as u128 {
                    return None;
                }
            }
            have = have + count;
            i = i + 1;
        }
        Some(self.data.max())
    }

    /// The value of the first bucket with the highest count; zero when every
    /// count is zero.
    pub fn mode(&self) -> (r: u64)
        requires
            self.wf(),
            self.m() < u64::MAX,
        ensures
            r == match mode_index(self.state().0, self.state().0.len()) {
                Some(i) => (self.layout().max_value_spec(i) - 1) as u64,
                None => 0,
            },
    {
        let ghost c = self.state().0;
        let n = self.data.buckets();
        let mut count: u64 = 0;
        let mut value: u64 = 0;
        let mut i: usize = 0;
        while i < n
            invariant
                self.wf(),
                self.m() < u64::MAX,
                c == self.state().0,
                n == c.len(),
                i <= n,
                count == match mode_index(c, i as nat) {
                    Some(k) => c[k as int],
                    None => 0,
                },
                value == match mode_index(c, i as nat) {
                    Some(k) => (self.layout().max_value_spec(k) - 1) as u64,
                    None => 0,
                },
            decreases n - i,
        {
            let b = self.data.bucket_count(i);
            if b > count {
                count = b;
                value = match self.data.get_value(i) {
                    Ok(v) => v,
                    Err(_) => 0,
                };
            }
            i = i + 1;
        }
        value
    }

    /// The sum of the counts weighted by their buckets' values, divided by
    /// the number of samples counted now.
    pub fn mean(&mut self) -> (r: u64)
        requires
            old(self).wf(),
            old(self).m() < u64::MAX,
            old(self).layout().spec_too_high() + seq_sum(old(self).layout().counts()) <= u64::MAX,
            old(self).layout().weighted_sum(old(self).layout().counts().len()) <= u64::MAX,
            forall|t: u64|
                0 < seq_sum(#[trigger] old(self).trimmed_state(t).1) + old(self).trimmed_state(t).2
                    <= u64::MAX,
        ensures
            final(self).wf(),
            exists|t: u64|
                final(self).remembered() == old(self).trimmed_samples(t) && final(self).state()
                    == #[trigger] old(self).trimmed_state(t),
            r as int == old(self).layout().weighted_sum(old(self).layout().counts().len()) as int / (
            seq_sum(final(self).state().1) + final(self).state().2),
    {
        let sum = match self.data.sum() {
            Some(s) => s,
            None => 0,
        };
        proof {
            if old(self).layout().spec_too_high() + seq_sum(old(self).layout().counts()) == 0 {
                self.data.lemma_weighted_sum_zero();
            }
        }
        let total = self.total_count();
        sum / total
    }
}

} // verus!

verus! {

/// After trimming, at most `capacity` samples stay remembered.
pub proof fn lemma_trim_respects_capacity(
    ss: Seq<Sample>,
    now: u64,
    window: Option<Interval>,
    capacity: usize,
)
    ensures
        trim_samples(ss, now, window, Some(capacity)).len() <= capacity,
{
    lemma_window_drop_le(ss, now, window);
}

/// After trimming with a window and no capacity, the oldest sample still
/// remembered, if any, is no older than the window at the time of the trim.
pub proof fn lemma_trim_respects_window(ss: Seq<Sample>, now: u64, window: Interval)
    ensures
        ({
            let kept = trim_samples(ss, now, Some(window), None);
            kept.len() > 0 ==> crate::moving::age(kept[0], now) <= window@
        }),
{
    lemma_window_drop_le(ss, now, Some(window));
    lemma_first_kept_within_window(ss, now, window@);
    let k = window_drop(ss, now, Some(window)) as int;
    assert(ss.skip(k).skip(0) =~= ss.skip(k));
}

/// The first sample after the expired ones is within the window.
proof fn lemma_first_kept_within_window(ss: Seq<Sample>, now: u64, w: u64)
    ensures
        expired_prefix(ss, now, w) < ss.len() ==> crate::moving::age(
            ss[expired_prefix(ss, now, w) as int],
            now,
        ) <= w,
    decreases ss.len(),
{
    if ss.len() > 0 && crate::moving::age(ss[0], now) > w {
        lemma_first_kept_within_window(ss.drop_first(), now, w);
        let k = expired_prefix(ss.drop_first(), now, w);
        if k < ss.drop_first().len() {
            assert(ss.drop_first()[k as int] == ss[k as int + 1]);
        }
    }
}

/// The window lets go no more samples than there are.
proof fn lemma_window_drop_le(ss: Seq<Sample>, now: u64, window: Option<Interval>)
    ensures
        window_drop(ss, now, window) <= ss.len(),
{
    match window {
        Some(w) => lemma_expired_prefix_le(ss, now, w@),
        None => {},
    }
}

/// Taking back an added sample restores the counts, provided neither the
/// bucket, its block total nor the too-high count saturated when it was
/// added.
pub proof fn lemma_sub_undoes_add(p: nat, max: u64, st: State, value: u64, count: u64)
    requires
        st.0.len() == bucket_index(p, max as nat) + 1,
        st.1.len() == (st.0.len() - 1) / 100 + 1,
        p >= 1 || max <= crate::bucketing::pow10(p),
        value <= max ==> st.0[bucket_index(p, value as nat) as int] + count <= u64::MAX
            && st.1[bucket_index(p, value as nat) as int / 100] + count <= u64::MAX,
        value > max ==> st.2 + count <= u64::MAX,
    ensures
        state_sub(p, max, state_add(p, max, st, value, count), value, count) == st,
{
    if value <= max {
        lemma_index_mono(p, value as nat, max as nat);
        let i = bucket_index(p, value as nat) as int;
        let b = i / 100;
        vstd::arithmetic::div_mod::lemma_div_is_ordered(i, (st.0.len() - 1) as int, 100);
        let a = state_add(p, max, st, value, count);
        let r = state_sub(p, max, a, value, count);
        assert(r.0 =~= st.0);
        assert(r.1 =~= st.1);
    }
}

} // verus!

verus! {

/// The counts and the running totals have the lengths a histogram of
/// precision `p` and maximum `max` gives them.
pub open spec fn state_shape(p: nat, max: u64, st: State) -> bool {
    &&& st.0.len() == bucket_index(p, max as nat) + 1
    &&& st.1.len() == (st.0.len() - 1) / 100 + 1
    &&& (p >= 1 || max <= crate::bucketing::pow10(p))
}

/// Every count, running total and the too-high count is at most `k`.
pub open spec fn state_bounded(st: State, k: nat) -> bool {
    &&& forall|i: int| 0 <= i < st.0.len() ==> #[trigger] st.0[i] <= k
    &&& forall|i: int| 0 <= i < st.1.len() ==> #[trigger] st.1[i] <= k
    &&& st.2 <= k
}

/// The state after the samples `ss` are added, oldest first.
pub open spec fn state_add_all(p: nat, max: u64, st: State, ss: Seq<Sample>) -> State
    decreases ss.len(),
{
    if ss.len() == 0 {
        st
    } else {
        state_add(p, max, state_add_all(p, max, st, ss.drop_last()), ss.last().value, ss.last().count)
    }
}

/// The number of samples the changes `ss` carry.
pub open spec fn samples_total(ss: Seq<Sample>) -> nat
    decreases ss.len(),
{
    if ss.len() == 0 {
        0
    } else {
        ss[0].count as nat + samples_total(ss.drop_first())
    }
}

/// Adding a sample keeps the shape of a state.
proof fn lemma_add_shape(p: nat, max: u64, st: State, value: u64, count: u64)
    requires
        state_shape(p, max, st),
    ensures
        state_shape(p, max, state_add(p, max, st, value, count)),
{
    if value <= max {
        lemma_index_mono(p, value as nat, max as nat);
        let i = bucket_index(p, value as nat) as int;
        vstd::arithmetic::div_mod::lemma_div_is_ordered(i, (st.0.len() - 1) as int, 100);
    }
}

/// Adding samples keeps the shape of a state.
proof fn lemma_add_all_shape(p: nat, max: u64, st: State, ss: Seq<Sample>)
    requires
        state_shape(p, max, st),
    ensures
        state_shape(p, max, state_add_all(p, max, st, ss)),
    decreases ss.len(),
{
    if ss.len() > 0 {
        lemma_add_all_shape(p, max, st, ss.drop_last());
        lemma_add_shape(p, max, state_add_all(p, max, st, ss.drop_last()), ss.last().value, ss.last().count);
    }
}

/// Adding `count` samples to a state bounded by `k` gives one bounded by
/// `k + count`.
proof fn lemma_add_bounded(p: nat, max: u64, st: State, value: u64, count: u64, k: nat)
    requires
        state_shape(p, max, st),
        state_bounded(st, k),
    ensures
        state_bounded(state_add(p, max, st, value, count), k + count as nat),
{
    if value <= max {
        lemma_index_mono(p, value as nat, max as nat);
        let i = bucket_index(p, value as nat) as int;
        vstd::arithmetic::div_mod::lemma_div_is_ordered(i, (st.0.len() - 1) as int, 100);
    }
}

/// Two additions in either order give the same state.
#[verifier::rlimit(50)]
proof fn lemma_add_commutes(p: nat, max: u64, st: State, a: Sample, b: Sample)
    requires
        state_shape(p, max, st),
    ensures
        state_add(p, max, state_add(p, max, st, a.value, a.count), b.value, b.count) == state_add(
            p,
            max,
            state_add(p, max, st, b.value, b.count),
            a.value,
            a.count,
        ),
{
    let ab = state_add(p, max, state_add(p, max, st, a.value, a.count), b.value, b.count);
    let ba = state_add(p, max, state_add(p, max, st, b.value, b.count), a.value, a.count);
    if a.value <= max {
        lemma_index_mono(p, a.value as nat, max as nat);
        vstd::arithmetic::div_mod::lemma_div_is_ordered(
            bucket_index(p, a.value as nat) as int,
            (st.0.len() - 1) as int,
            100,
        );
    }
    if b.value <= max {
        lemma_index_mono(p, b.value as nat, max as nat);
        vstd::arithmetic::div_mod::lemma_div_is_ordered(
            bucket_index(p, b.value as nat) as int,
            (st.0.len() - 1) as int,
            100,
        );
    }
    assert(ab.0 =~= ba.0);
    assert(ab.1 =~= ba.1);
}

/// Adding one sample before a sequence of samples is the same as adding it
/// after them.
proof fn lemma_add_commutes_with_all(p: nat, max: u64, st: State, a: Sample, ss: Seq<Sample>)
    requires
        state_shape(p, max, st),
    ensures
        state_add_all(p, max, state_add(p, max, st, a.value, a.count), ss) == state_add(
            p,
            max,
            state_add_all(p, max, st, ss),
            a.value,
            a.count,
        ),
    decreases ss.len(),
{
    if ss.len() > 0 {
        lemma_add_shape(p, max, st, a.value, a.count);
        lemma_add_commutes_with_all(p, max, st, a, ss.drop_last());
        lemma_add_all_shape(p, max, st, ss.drop_last());
        lemma_add_commutes(p, max, state_add_all(p, max, st, ss.drop_last()), a, ss.last());
    }
}

/// Adding a sequence of samples is adding its first, then the rest.
proof fn lemma_add_all_first(p: nat, max: u64, st: State, ss: Seq<Sample>)
    requires
        ss.len() > 0,
    ensures
        state_add_all(p, max, st, ss) == state_add_all(
            p,
            max,
            state_add(p, max, st, ss[0].value, ss[0].count),
            ss.drop_first(),
        ),
    decreases ss.len(),
{
    if ss.len() == 1 {
        assert(ss.drop_last() =~= Seq::<Sample>::empty());
        assert(ss.drop_first() =~= Seq::<Sample>::empty());
        assert(ss.last() == ss[0]);
        assert(state_add_all(p, max, st, ss.drop_last()) == st);
        assert(state_add_all(p, max, state_add(p, max, st, ss[0].value, ss[0].count), ss.drop_first())
            == state_add(p, max, st, ss[0].value, ss[0].count));
    } else {
        lemma_add_all_first(p, max, st, ss.drop_last());
        assert(ss.drop_last()[0] == ss[0]);
        assert(ss.drop_last().drop_first() =~= ss.drop_first().drop_last());
        assert(ss.drop_first().last() == ss.last());
    }
}

/// Adding samples to a state bounded by `k` gives one bounded by `k` plus
/// the samples they carry.
proof fn lemma_add_all_bounded(p: nat, max: u64, st: State, ss: Seq<Sample>, k: nat)
    requires
        state_shape(p, max, st),
        state_bounded(st, k),
    ensures
        state_bounded(state_add_all(p, max, st, ss), k + samples_total(ss)),
    decreases ss.len(),
{
    if ss.len() > 0 {
        lemma_add_all_first(p, max, st, ss);
        lemma_add_bounded(p, max, st, ss[0].value, ss[0].count, k);
        lemma_add_shape(p, max, st, ss[0].value, ss[0].count);
        lemma_add_all_bounded(
            p,
            max,
            state_add(p, max, st, ss[0].value, ss[0].count),
            ss.drop_first(),
            k + ss[0].count as nat,
        );
    }
}

/// Taking back the first of the added samples leaves the state of the rest,
/// when nothing saturated.
proof fn lemma_undo_first_added(p: nat, max: u64, z: State, ss: Seq<Sample>)
    requires
        state_shape(p, max, z),
        state_bounded(z, 0),
        ss.len() > 0,
        ss[0].direction == Direction::Increment,
        samples_total(ss) <= u64::MAX,
    ensures
        state_undo(p, max, state_add_all(p, max, z, ss), ss[0]) == state_add_all(
            p,
            max,
            z,
            ss.drop_first(),
        ),
{
    let rest = ss.drop_first();
    let a = ss[0];
    lemma_add_all_first(p, max, z, ss);
    lemma_add_commutes_with_all(p, max, z, a, rest);
    lemma_add_all_shape(p, max, z, rest);
    lemma_add_all_bounded(p, max, z, rest, 0);
    let mid = state_add_all(p, max, z, rest);
    if a.value <= max {
        lemma_index_mono(p, a.value as nat, max as nat);
        let i = bucket_index(p, a.value as nat) as int;
        vstd::arithmetic::div_mod::lemma_div_is_ordered(i, (mid.0.len() - 1) as int, 100);
        assert(mid.0[i] <= samples_total(rest));
        assert(mid.1[i / 100] <= samples_total(rest));
    }
    lemma_sub_undoes_add(p, max, mid, a.value, a.count);
}

/// Taking back the first `k` of the added samples leaves the state of the
/// others, when nothing saturated.
proof fn lemma_undo_prefix_added(p: nat, max: u64, z: State, ss: Seq<Sample>, k: nat)
    requires
        state_shape(p, max, z),
        state_bounded(z, 0),
        k <= ss.len(),
        forall|i: int| 0 <= i < ss.len() ==> (#[trigger] ss[i]).direction == Direction::Increment,
        samples_total(ss) <= u64::MAX,
    ensures
        state_undo_all(p, max, state_add_all(p, max, z, ss), ss.take(k as int)) == state_add_all(
            p,
            max,
            z,
            ss.skip(k as int),
        ),
        samples_total(ss.skip(k as int)) <= samples_total(ss),
    decreases k,
{
    if k == 0 {
        assert(ss.take(0) =~= Seq::<Sample>::empty());
        assert(ss.skip(0) =~= ss);
    } else {
        let j = (k - 1) as nat;
        lemma_undo_prefix_added(p, max, z, ss, j);
        assert(ss.take(k as int).drop_last() =~= ss.take(j as int));
        assert(ss.take(k as int).last() == ss[j as int]);
        let r = ss.skip(j as int);
        assert(r[0] == ss[j as int]);
        assert(r.drop_first() =~= ss.skip(k as int));
        assert(samples_total(r) == r[0].count + samples_total(r.drop_first()));
        lemma_undo_first_added(p, max, z, r);
    }
}

/// With a capacity and no window, a histogram whose counts are those of
/// the increments it remembers, none of which saturated a counter, keeps
/// after trimming exactly the counts of its last `capacity` increments (all
/// of them when there are fewer), and remembers just those.
pub proof fn lemma_capacity_keeps_last(
    p: nat,
    max: u64,
    z: State,
    ss: Seq<Sample>,
    now: u64,
    capacity: usize,
)
    requires
        state_shape(p, max, z),
        state_bounded(z, 0),
        forall|i: int| 0 <= i < ss.len() ==> (#[trigger] ss[i]).direction == Direction::Increment,
        samples_total(ss) <= u64::MAX,
    ensures
        ({
            let keep = if ss.len() > capacity {
                capacity as int
            } else {
                ss.len() as int
            };
            let last = ss.skip(ss.len() - keep);
            &&& trim_samples(ss, now, None, Some(capacity)) == last
            &&& trim_state(p, max, state_add_all(p, max, z, ss), ss, now, None, Some(capacity))
                == state_add_all(p, max, z, last)
        }),
{
    let st = state_add_all(p, max, z, ss);
    assert(ss.skip(0) =~= ss);
    assert(ss.take(0) =~= Seq::<Sample>::empty());
    let d = capacity_drop(ss, Some(capacity));
    lemma_undo_prefix_added(p, max, z, ss, d);
}

/// Recording an increment in a histogram with a capacity and no window,
/// whose counts are those of the increments it remembers, keeps its counts
/// those of the increments it then remembers: the last `capacity` before
/// it, and the new one.
pub proof fn lemma_capacity_increment_keeps_counts(
    p: nat,
    max: u64,
    z: State,
    ss: Seq<Sample>,
    now: Instant,
    capacity: usize,
    value: u64,
    count: u64,
)
    requires
        state_shape(p, max, z),
        state_bounded(z, 0),
        forall|i: int| 0 <= i < ss.len() ==> (#[trigger] ss[i]).direction == Direction::Increment,
        samples_total(ss) <= u64::MAX,
    ensures
        ({
            let kept = trim_samples(ss, now@, None, Some(capacity));
            let s = Sample { value, count, time: now, direction: Direction::Increment };
            state_add(
                p,
                max,
                trim_state(p, max, state_add_all(p, max, z, ss), ss, now@, None, Some(capacity)),
                value,
                count,
            ) == state_add_all(p, max, z, kept.push(s))
        }),
{
    lemma_capacity_keeps_last(p, max, z, ss, now@, capacity);
    let kept = trim_samples(ss, now@, None, Some(capacity));
    let s = Sample { value, count, time: now, direction: Direction::Increment };
    assert(kept.push(s).drop_last() =~= kept);
}

/// The counts and the remembered samples of a histogram with a capacity and
/// no window after the increments `steps` are recorded one after another, as
/// `increment_at` records each one whose value has a bucket: the counts
/// change, then the samples beyond the capacity are taken back, and the
/// increment is remembered.
pub open spec fn record_increments(
    p: nat,
    max: u64,
    st: State,
    ss: Seq<Sample>,
    steps: Seq<Sample>,
    capacity: usize,
) -> (State, Seq<Sample>)
    decreases steps.len(),
{
    if steps.len() == 0 {
        (st, ss)
    } else {
        let prev = record_increments(p, max, st, ss, steps.drop_last(), capacity);
        let s = steps.last();
        (
            trim_state(
                p,
                max,
                state_add(p, max, prev.0, s.value, s.count),
                prev.1,
                s.time@,
                None,
                Some(capacity),
            ),
            trim_samples(prev.1, s.time@, None, Some(capacity)).push(s),
        )
    }
}

/// The samples two sequences carry together.
proof fn lemma_samples_total_append(a: Seq<Sample>, b: Seq<Sample>)
    ensures
        samples_total(a + b) == samples_total(a) + samples_total(b),
    decreases a.len(),
{
    if a.len() == 0 {
        assert(a + b =~= b);
    } else {
        assert((a + b).drop_first() =~= a.drop_first() + b);
        assert((a + b)[0] == a[0]);
        lemma_samples_total_append(a.drop_first(), b);
    }
}

/// A stretch of samples carries no more than the whole.
proof fn lemma_samples_total_subrange(s: Seq<Sample>, i: int, j: int)
    requires
        0 <= i <= j <= s.len(),
    ensures
        samples_total(s.subrange(i, j)) <= samples_total(s),
{
    let a = s.subrange(0, i);
    let b = s.subrange(i, j);
    let c = s.subrange(j, s.len() as int);
    assert(s =~= a + b + c);
    lemma_samples_total_append(a + b, c);
    lemma_samples_total_append(a, b);
}

/// The samples carried by all but the last, plus the last.
proof fn lemma_samples_total_last(s: Seq<Sample>)
    requires
        s.len() > 0,
    ensures
        samples_total(s) == samples_total(s.drop_last()) + s.last().count,
{
    let l = seq![s.last()];
    assert(s =~= s.drop_last() + l);
    lemma_samples_total_append(s.drop_last(), l);
    assert(l.drop_first() =~= Seq::<Sample>::empty());
    assert(samples_total(l.drop_first()) == 0);
    assert(samples_total(l) == l[0].count + samples_total(l.drop_first()));
}

/// Recording increments one after another in an empty histogram with a
/// capacity and no window leaves it remembering the last `capacity + 1` of
/// them (all when there are fewer), with their counts, when nothing
/// saturated.
proof fn lemma_record_increments(p: nat, max: u64, z: State, steps: Seq<Sample>, capacity: usize)
    requires
        state_shape(p, max, z),
        state_bounded(z, 0),
        forall|i: int|
            0 <= i < steps.len() ==> (#[trigger] steps[i]).direction == Direction::Increment,
        samples_total(steps) <= u64::MAX,
    ensures
        ({
            let n = steps.len();
            let keep = if n > capacity + 1 {
                capacity + 1
            } else {
                n as int
            };
            let kept = steps.skip(n - keep);
            record_increments(p, max, z, Seq::empty(), steps, capacity) == (
                state_add_all(p, max, z, kept),
                kept,
            )
        }),
    decreases steps.len(),
{
    let n = steps.len() as int;
    if n == 0 {
        assert(steps.skip(0) =~= steps);
        assert(steps =~= Seq::<Sample>::empty());
    } else {
        let prev = steps.drop_last();
        assert(prev =~= steps.subrange(0, n - 1));
        lemma_samples_total_subrange(steps, 0, n - 1);
        lemma_record_increments(p, max, z, prev, capacity);
        let m = n - 1;
        let keepm = if m > capacity + 1 {
            capacity + 1
        } else {
            m
        };
        let l = prev.skip(m - keepm);
        let s = steps.last();
        let lp = l.push(s);
        assert(lp =~= steps.subrange(m - keepm, n));
        lemma_samples_total_subrange(steps, m - keepm, n);
        let d = capacity_drop(l, Some(capacity));
        assert forall|i: int| 0 <= i < lp.len() implies (#[trigger] lp[i]).direction
            == Direction::Increment by {
            assert(lp[i] == steps[m - keepm + i]);
        }
        lemma_undo_prefix_added(p, max, z, lp, d);
        assert(lp.take(d as int) =~= l.take(d as int));
        assert(lp.drop_last() =~= l);
        assert(state_add_all(p, max, z, lp) == state_add(
            p,
            max,
            state_add_all(p, max, z, l),
            s.value,
            s.count,
        ));
        assert(l.take(0) =~= Seq::<Sample>::empty());
        assert(l.skip(0) =~= l);
        assert(lp.skip(d as int) =~= l.skip(d as int).push(s));
        let keep = if n > capacity + 1 {
            capacity + 1
        } else {
            n
        };
        assert(lp.skip(d as int) =~= steps.skip(n - keep));
    }
}

/// The samples counted after samples are added to an empty state are the
/// samples they carry, when nothing saturated.
proof fn lemma_add_all_total(p: nat, max: u64, z: State, ss: Seq<Sample>)
    requires
        state_shape(p, max, z),
        state_bounded(z, 0),
        samples_total(ss) <= u64::MAX,
    ensures
        seq_sum(state_add_all(p, max, z, ss).1) + state_add_all(p, max, z, ss).2 == samples_total(
            ss,
        ),
    decreases ss.len(),
{
    if ss.len() == 0 {
        assert(z.1 =~= Seq::new(z.1.len(), |i: int| 0u64));
        crate::latched::lemma_seq_sum_zeros(z.1.len());
        assert(samples_total(ss) == 0);
    } else {
        lemma_samples_total_last(ss);
        let prev = ss.drop_last();
        lemma_add_all_total(p, max, z, prev);
        lemma_add_all_shape(p, max, z, prev);
        let st = state_add_all(p, max, z, prev);
        let s = ss.last();
        if s.value <= max {
            lemma_index_mono(p, s.value as nat, max as nat);
            let i = bucket_index(p, s.value as nat) as int;
            vstd::arithmetic::div_mod::lemma_div_is_ordered(i, (st.0.len() - 1) as int, 100);
            let b = i / 100;
            crate::latched::lemma_seq_sum_update(st.1, b, 0);
            crate::latched::lemma_seq_sum_update(st.1, b, (st.1[b] + s.count) as u64);
        }
    }
}

/// With a capacity and no window, once increments are recorded one after
/// another with `increment_at` in a histogram fresh from `new`, trimming at
/// any time keeps exactly the last `capacity` of them (all when there are
/// fewer), when nothing saturated: those are the samples it remembers, its
/// counts are theirs, and it counts as many samples as they carry.
pub proof fn lemma_capacity_over_increments(
    p: nat,
    max: u64,
    z: State,
    steps: Seq<Sample>,
    capacity: usize,
    now: u64,
)
    requires
        state_shape(p, max, z),
        state_bounded(z, 0),
        forall|i: int|
            0 <= i < steps.len() ==> (#[trigger] steps[i]).direction == Direction::Increment,
        samples_total(steps) <= u64::MAX,
    ensures
        ({
            let n = steps.len();
            let keep = if n > capacity {
                capacity as int
            } else {
                n as int
            };
            let last = steps.skip(n - keep);
            let (st, ss) = record_increments(p, max, z, Seq::empty(), steps, capacity);
            &&& trim_samples(ss, now, None, Some(capacity)) == last
            &&& trim_state(p, max, st, ss, now, None, Some(capacity)) == state_add_all(p, max, z, last)
            &&& seq_sum(state_add_all(p, max, z, last).1) + state_add_all(p, max, z, last).2
                == samples_total(last)
        }),
{
    lemma_record_increments(p, max, z, steps, capacity);
    let n = steps.len() as int;
    let keep1 = if n > capacity + 1 {
        capacity + 1
    } else {
        n
    };
    let kept = steps.skip(n - keep1);
    assert(kept =~= steps.subrange(n - keep1, n));
    lemma_samples_total_subrange(steps, n - keep1, n);
    assert forall|i: int| 0 <= i < kept.len() implies (#[trigger] kept[i]).direction
        == Direction::Increment by {
        assert(kept[i] == steps[n - keep1 + i]);
    }
    lemma_capacity_keeps_last(p, max, z, kept, now, capacity);
    let keep = if n > capacity {
        capacity as int
    } else {
        n
    };
    assert(kept.skip(kept.len() - (if kept.len() > capacity {
        capacity as int
    } else {
        kept.len() as int
    })) =~= steps.skip(n - keep));
    let last = steps.skip(n - keep);
    assert(last =~= steps.subrange(n - keep, n));
    lemma_samples_total_subrange(steps, n - keep, n);
    lemma_add_all_total(p, max, z, last);
}

/// `h` has a capacity and no window, and its counts and remembered samples
/// are those that recording the increments `steps` one after another gives,
/// starting from the counts `z` with nothing remembered.
pub open spec fn holds_increments(h: &Histogram, z: State, steps: Seq<Sample>) -> bool {
    &&& h.spec_window() is None
    &&& h.spec_capacity() is Some
    &&& h.remembered() is Some
    &&& (h.state(), h.remembered()->0) == record_increments(
        h.p(),
        h.m(),
        z,
        Seq::empty(),
        steps,
        h.spec_capacity()->0,
    )
}

/// A histogram as `new` gives it, with a capacity and no window, holds no
/// increments yet, from counts that are all zero.
pub proof fn lemma_fresh_holds_no_increments(h: &Histogram)
    requires
        h.wf(),
        h.spec_window() is None,
        h.spec_capacity() is Some,
        h.remembered() == Some(Seq::<Sample>::empty()),
        h.state().0 == Seq::new(h.state().0.len(), |i: int| 0u64),
        h.state().1 == Seq::new(h.state().1.len(), |i: int| 0u64),
        h.state().2 == 0,
    ensures
        holds_increments(h, h.state(), Seq::empty()),
        state_shape(h.p(), h.m(), h.state()),
        state_bounded(h.state(), 0),
{
    assert(crate::bucketing::pow10(0) == 1) by {
        reveal_with_fuel(crate::bucketing::pow10, 1);
    }
}

/// Recording an increment with `increment_at`, of a value that has a
/// bucket, in a histogram that holds the increments `steps`, leaves it
/// holding them followed by the new one.
pub proof fn lemma_increment_at_holds(
    h0: &Histogram,
    h1: &Histogram,
    z: State,
    steps: Seq<Sample>,
    value: u64,
    count: u64,
    time: Instant,
)
    requires
        holds_increments(h0, z, steps),
        value <= h0.m(),
        recorded_at(h0, h1, value, count, time, Direction::Increment),
        h1.p() == h0.p(),
        h1.m() == h0.m(),
        h1.spec_window() == h0.spec_window(),
        h1.spec_capacity() == h0.spec_capacity(),
    ensures
        holds_increments(
            h1,
            z,
            steps.push(Sample { value, count, time, direction: Direction::Increment }),
        ),
{
    let s = Sample { value, count, time, direction: Direction::Increment };
    assert(steps.push(s).drop_last() =~= steps);
    assert(steps.push(s).last() == s);
}

/// The capacity law on a histogram: once a histogram with a capacity and
/// no window holds the increments `steps` recorded one after another from
/// empty counts, and nothing saturated, trimming at any time keeps exactly
/// the last `capacity` of them (all when there are fewer): those are the
/// samples it remembers, its counts are theirs, and it counts as many
/// samples as they carry.
pub proof fn lemma_capacity_keeps_last_increments(
    h: &Histogram,
    z: State,
    steps: Seq<Sample>,
    now: u64,
)
    requires
        holds_increments(h, z, steps),
        state_shape(h.p(), h.m(), z),
        state_bounded(z, 0),
        forall|i: int|
            0 <= i < steps.len() ==> (#[trigger] steps[i]).direction == Direction::Increment,
        samples_total(steps) <= u64::MAX,
    ensures
        ({
            let c = h.spec_capacity()->0;
            let n = steps.len();
            let keep = if n > c {
                c as int
            } else {
                n as int
            };
            let last = steps.skip(n - keep);
            &&& h.trimmed_samples(now) == Some(last)
            &&& h.trimmed_state(now) == state_add_all(h.p(), h.m(), z, last)
            &&& seq_sum(h.trimmed_state(now).1) + h.trimmed_state(now).2 == samples_total(last)
        }),
{
    lemma_capacity_over_increments(h.p(), h.m(), z, steps, h.spec_capacity()->0, now);
}

/// The end of block `b` of a hundred buckets among `len`.
pub open spec fn block_end(b: int, len: int) -> int {
    if b * 100 + 100 <= len {
        b * 100 + 100
    } else {
        len
    }
}

/// Each running total is the sum of the counts of its block of a hundred
/// buckets, and there is one total for each block: the running totals of a
/// histogram none of whose counters saturated.
pub open spec fn blocks_consistent(c: Seq<u64>, idx: Seq<u64>) -> bool {
    &&& c.len() >= 1
    &&& idx.len() == (c.len() - 1) / 100 + 1
    &&& forall|b: int|
        0 <= b < idx.len() ==> #[trigger] idx[b] + seq_sum(c.take(b * 100)) == seq_sum(
            c.take(block_end(b, c.len() as int)),
        )
}

/// A longer prefix sums to at least as much.
proof fn lemma_prefix_mono(c: Seq<u64>, a: int, b: int)
    requires
        0 <= a <= b <= c.len(),
    ensures
        seq_sum(c.take(a)) <= seq_sum(c.take(b)),
{
    crate::latched::lemma_seq_sum_take_le(c.take(b), a);
    assert(c.take(b).take(a) =~= c.take(a));
}

/// Scanning the buckets `j..end` from the running count of the buckets
/// before `j`, when it is below `need`, finds the first bucket at which it
/// reaches `need`; it runs through only when the count stays below `need`
/// up to `end`, and it fails only past the buckets or past `u64::MAX`.
proof fn lemma_scan_block_prefix(c: Seq<u64>, need: nat, j: nat, end: nat)
    requires
        j <= end,
        j <= c.len(),
        seq_sum(c.take(j as int)) < need,
    ensures
        scan_block(c, need, j, end, seq_sum(c.take(j as int))) matches Scan::Found(k) ==> {
            &&& j <= k < end
            &&& k < c.len()
            &&& seq_sum(c.take(k + 1 as int)) >= need
            &&& forall|m: int| j <= m < k ==> #[trigger] seq_sum(c.take(m + 1)) < need
        },
        scan_block(c, need, j, end, seq_sum(c.take(j as int))) matches Scan::NotFound(h) ==> end
            <= c.len() && h == seq_sum(c.take(end as int)) && h < need,
        scan_block(c, need, j, end, seq_sum(c.take(j as int))) is Fails ==> (end > c.len()
            && seq_sum(c) < need) || seq_sum(c.take(if end <= c.len() {
            end as int
        } else {
            c.len() as int
        })) > u64::MAX,
    decreases end - j,
{
    if j < end {
        if j >= c.len() {
            assert(c.take(j as int) =~= c);
        } else {
            crate::latched::lemma_seq_sum_prefix(c, j as int);
            let e = if end <= c.len() {
                end as int
            } else {
                c.len() as int
            };
            lemma_prefix_mono(c, j + 1 as int, e);
            if seq_sum(c.take(j as int)) + c[j as int] < need {
                lemma_scan_block_prefix(c, need, j + 1, end);
            }
        }
    }
}

/// Scanning the blocks from block `i`, with the running count of the
/// buckets before it below `need`, finds the first bucket at which the
/// running count reaches `need`, when the running totals are those of
/// their blocks; it runs through only when all the buckets hold fewer than
/// `need`, and it fails only when they hold more than `u64::MAX`.
proof fn lemma_scan_blocks_prefix(c: Seq<u64>, idx: Seq<u64>, need: nat, i: nat)
    requires
        blocks_consistent(c, idx),
        i <= idx.len(),
        seq_sum(c.take(block_end(i - 1, c.len() as int))) < need || i == 0,
        need > 0,
    ensures
        ({
            let have = if i == 0 {
                0
            } else {
                seq_sum(c.take(block_end(i - 1, c.len() as int)))
            };
            &&& scan_blocks(c, idx, need, i, have) matches Scan::Found(j) ==> {
                &&& j < c.len()
                &&& seq_sum(c.take(j + 1 as int)) >= need
                &&& forall|m: int| 0 <= m < j ==> #[trigger] seq_sum(c.take(m + 1)) < need
            }
            &&& scan_blocks(c, idx, need, i, have) matches Scan::NotFound(h) ==> h == seq_sum(c)
                && seq_sum(c) < need
            &&& scan_blocks(c, idx, need, i, have) is Fails ==> seq_sum(c) > u64::MAX
        }),
    decreases idx.len() - i,
{
    let len = c.len() as int;
    let d = (len - 1) / 100;
    vstd::arithmetic::div_mod::lemma_fundamental_div_mod(len - 1, 100);
    assert(c.take(0) =~= Seq::<u64>::empty());
    let start: int = (i * 100) as int;
    let have = if i == 0 {
        0
    } else {
        seq_sum(c.take(block_end(i - 1, len)))
    };
    if i < idx.len() {
        assert(start < len) by (nonlinear_arith)
            requires
                i <= d,
                len - 1 == 100 * d + (len - 1) % 100,
                (len - 1) % 100 >= 0,
                start == i * 100,
        ;
        if i > 0 {
            assert((i - 1) * 100 + 100 == start);
            assert(block_end(i - 1, len) == start);
        }
        assert(have == seq_sum(c.take(start)));
        let e = block_end(i as int, len);
        assert(idx[i as int] + have == seq_sum(c.take(e)));
        crate::latched::lemma_seq_sum_take_le(c, e);
        lemma_prefix_mono(c, start, e);
        if have + idx[i as int] <= u64::MAX {
            if have + idx[i as int] >= need {
                lemma_scan_block_prefix(c, need, start as nat, (start + 100) as nat);
                assert forall|m: int| 0 <= m < start implies #[trigger] seq_sum(c.take(m + 1))
                    < need by {
                    lemma_prefix_mono(c, m + 1, start);
                }
            } else {
                lemma_scan_blocks_prefix(c, idx, need, i + 1);
            }
        }
    } else {
        assert(start >= len) by (nonlinear_arith)
            requires
                i == d + 1,
                len - 1 == 100 * d + (len - 1) % 100,
                (len - 1) % 100 < 100,
                start == i * 100,
        ;
        if i == 0 {
            assert(false);
        }
        assert(block_end(i - 1, len) == len);
        assert(c.take(len) =~= c);
    }
}

/// The rank query over blocks finds the first bucket at which the running
/// count reaches `need`: the buckets up to it hold at least `need` samples
/// and those before it fewer. It finds none only when all the buckets hold
/// fewer than `need`, and fails only when they hold more than `u64::MAX`.
/// This holds when each running total is the sum of its block, as in a
/// histogram none of whose counters saturated.
pub proof fn lemma_scan_blocks_finds_first(c: Seq<u64>, idx: Seq<u64>, need: nat)
    requires
        blocks_consistent(c, idx),
        need > 0,
    ensures
        scan_blocks(c, idx, need, 0, 0) matches Scan::Found(j) ==> {
            &&& j < c.len()
            &&& seq_sum(c.take(j + 1 as int)) >= need
            &&& forall|m: int| 0 <= m < j ==> #[trigger] seq_sum(c.take(m + 1)) < need
        },
        scan_blocks(c, idx, need, 0, 0) matches Scan::NotFound(h) ==> h == seq_sum(c) && seq_sum(c)
            < need,
        scan_blocks(c, idx, need, 0, 0) is Fails ==> seq_sum(c) > u64::MAX,
{
    lemma_scan_blocks_prefix(c, idx, need, 0);
}

} // verus!
