//! A heatmap: a ring of histograms, one for each slice of time, covering a
//! span of time that moves forward as the clock does.

use vstd::prelude::*;

pub mod simple;

use crate::histogram::{state_add, state_sub, Histogram, State};
use crate::bucketing::{bucket_index, lemma_index_mono};
use crate::latched::{latched_params_ok, seq_sum};
use crate::trusted::{precise_time_ns, utc_now};
use vstd::arithmetic::div_mod::{
    lemma_add_mod_noop_right, lemma_mod_add_multiples_vanish, lemma_mod_bound,
    lemma_small_mod,
};

verus! {

/// Nanoseconds in a second.
pub const SECOND: u64 = 1_000_000_000;

/// `now` held to at most `limit`.
pub open spec fn clamp_to(now: u64, limit: u64) -> u64 {
    if now > limit {
        limit
    } else {
        now
    }
}

/// Where a span of `span` nanoseconds starts on the precise clock that
/// reads `now` (held to at most `limit`), when the wall clock is `second`
/// seconds and `nsec` nanoseconds past the top of its minute: that top of
/// the minute on the precise clock, or zero where the precise clock reads
/// less than the time since it; and no later than leaves room for the
/// span before `limit`.
pub open spec fn span_start_spec(now: u64, nsec: i32, second: i32, span: u64, limit: u64) -> u64 {
    let n = clamp_to(now, limit);
    let back = nsec + second * SECOND;
    let b = if n >= back {
        n - back
    } else {
        0
    };
    if b > limit - span {
        (limit - span) as u64
    } else {
        b as u64
    }
}

/// Where a span of `span` nanoseconds starts on the precise clock, from
/// the clock readings: see `span_start_spec`.
pub fn span_start(now: u64, nsec: i32, second: i32, span: u64, limit: u64) -> (r: u64)
    requires
        0 <= nsec < 1_000_000_000,
        0 <= second <= 60,
        span <= limit,
    ensures
        r == span_start_spec(now, nsec, second, span, limit),
        r + span <= limit,
        r <= clamp_to(now, limit),
{
    let n = if now > limit {
        limit
    } else {
        now
    };
    let back = nsec as u64 + second as u64 * SECOND;
    let b = n.saturating_sub(back);
    if b > limit - span {
        limit - span
    } else {
        b
    }
}

/// The wall clock minus the precise clock, from a wall-clock reading of
/// `sec` seconds and `nsec` nanoseconds since the Unix epoch taken with the
/// precise clock reading `now`.
pub open spec fn utc_offset_spec(sec: i64, nsec: i32, now: u64) -> int {
    sec * 1_000_000_000 + nsec - now
}

/// The number of samples a histogram's counts hold.
pub open spec fn counted(st: State) -> nat {
    seq_sum(st.1) + st.2 as nat
}

/// The sum of the counted samples of the first `n` histograms.
pub open spec fn sum_counted(hs: Seq<Histogram>, n: nat) -> nat
    decreases n,
{
    if n == 0 {
        0
    } else {
        sum_counted(hs, (n - 1) as nat) + counted(hs[n - 1].state())
    }
}

/// The highest bucket count among the first `n` buckets of `c`, or `init`
/// if that is higher.
pub open spec fn highest_in(c: Seq<u64>, n: nat, init: nat) -> nat
    decreases n,
{
    if n == 0 {
        init
    } else {
        let h = highest_in(c, (n - 1) as nat, init);
        if c[n - 1] > h {
            c[n - 1] as nat
        } else {
            h
        }
    }
}

/// The highest bucket count among the first `n` histograms.
pub open spec fn highest_over(hs: Seq<Histogram>, n: nat) -> nat
    decreases n,
{
    if n == 0 {
        0
    } else {
        let prev = highest_over(hs, (n - 1) as nat);
        highest_in(hs[n - 1].state().0, hs[n - 1].state().0.len(), prev)
    }
}

/// The highest count among the first `n` buckets of `c` and `init` is at
/// least `init` and each of those counts, and it is `init` or one of them.
pub proof fn lemma_highest_in_is_highest(c: Seq<u64>, n: nat, init: nat)
    requires
        n <= c.len(),
    ensures
        highest_in(c, n, init) >= init,
        forall|j: int| 0 <= j < n ==> #[trigger] c[j] <= highest_in(c, n, init),
        highest_in(c, n, init) == init || exists|j: int|
            0 <= j < n && #[trigger] c[j] == highest_in(c, n, init),
    decreases n,
{
    if n > 0 {
        lemma_highest_in_is_highest(c, (n - 1) as nat, init);
        let h = highest_in(c, (n - 1) as nat, init);
        if h != init && c[n - 1] <= h {
            let j = choose|j: int| 0 <= j < n - 1 && #[trigger] c[j] == h;
            assert(0 <= j < n && c[j] == highest_in(c, n, init));
        }
    }
}

/// The highest count of the first `n` histograms is at least the count of
/// every bucket of each of them, and it is zero or the count of one of
/// their buckets.
pub proof fn lemma_highest_over_is_highest(hs: Seq<Histogram>, n: nat)
    requires
        n <= hs.len(),
    ensures
        forall|k: int, j: int|
            0 <= k < n && 0 <= j < hs[k].state().0.len() ==> #[trigger] hs[k].state().0[j]
                <= highest_over(hs, n),
        highest_over(hs, n) == 0 || exists|k: int, j: int|
            0 <= k < n && 0 <= j < hs[k].state().0.len() && #[trigger] hs[k].state().0[j]
                == highest_over(hs, n),
    decreases n,
{
    if n > 0 {
        let m = (n - 1) as nat;
        lemma_highest_over_is_highest(hs, m);
        let prev = highest_over(hs, m);
        let c = hs[m as int].state().0;
        lemma_highest_in_is_highest(c, c.len(), prev);
        let h = highest_over(hs, n);
        assert(h == highest_in(c, c.len(), prev));
        assert forall|k: int, j: int|
            0 <= k < n && 0 <= j < hs[k].state().0.len() implies #[trigger] hs[k].state().0[j]
            <= h by {
            if k < m {
                assert(hs[k].state().0[j] <= prev);
            } else {
                assert(c[j] <= h);
            }
        }
        if h != 0 {
            if h == prev {
                let (k, j) = choose|k: int, j: int|
                    0 <= k < m && 0 <= j < hs[k].state().0.len() && #[trigger] hs[k].state().0[j]
                        == prev;
                assert(0 <= k < n && hs[k].state().0[j] == h);
            } else {
                let j = choose|j: int| 0 <= j < c.len() && #[trigger] c[j] == h;
                assert(hs[m as int].state().0[j] == h);
            }
        }
    }
}

/// The bound on the distance between the wall clock and the precise clock.
pub const UTC_OFFSET_LIMIT: i128 = 1_267_650_600_228_229_401_496_703_205_376;

/// How far ring position `j` lies after position `off` in a ring of `len`.
pub open spec fn age(j: int, off: int, len: int) -> int {
    if j >= off {
        j - off
    } else {
        j + len - off
    }
}

/// The number of slices a heatmap whose newest slice starts at
/// `newest_begin` moves forward to cover `time`.
pub open spec fn ticks(newest_begin: u64, time: u64, resolution: u64) -> nat {
    if time < newest_begin {
        0
    } else {
        ((time - newest_begin) / (resolution as int) + 1) as nat
    }
}

/// `new` is `old` with all its counts at zero and the same layout.
pub open spec fn emptied(new: Histogram, old: Histogram) -> bool {
    &&& new.wf()
    &&& new.m() == old.m()
    &&& new.p() == old.p()
    &&& new.spec_window() == old.spec_window()
    &&& new.spec_capacity() == old.spec_capacity()
    &&& new.state().0 == Seq::new(old.state().0.len(), |i: int| 0u64)
    &&& new.state().1 == Seq::new(old.state().1.len(), |i: int| 0u64)
    &&& new.state().2 == 0
    &&& new.remembered() == old.remembered()
}

/// Stepping `i` places forward from `off` in a ring of `len` lands on the
/// position whose age is `i` modulo `len`, and a position is reached from
/// `off` by stepping its age.
pub proof fn lemma_age_of_step(off: int, i: int, len: int)
    requires
        0 <= off < len,
        0 <= i,
    ensures
        0 <= (off + i) % len < len,
        age((off + i) % len, off, len) == i % len,
        forall|j: int| 0 <= j < len ==> (off + age(j, off, len)) % len == j,
        forall|j: int| 0 <= j < len ==> 0 <= #[trigger] age(j, off, len) < len,
{
    lemma_mod_bound(i, len);
    lemma_add_mod_noop_right(off, i, len);
    let k = i % len;
    if off + k < len {
        lemma_small_mod((off + k) as nat, len as nat);
    } else {
        lemma_mod_add_multiples_vanish(off + k - len, len);
        lemma_small_mod((off + k - len) as nat, len as nat);
    }
    assert forall|j: int| 0 <= j < len implies (off + age(j, off, len)) % len == j by {
        if j >= off {
            lemma_small_mod(j as nat, len as nat);
        } else {
            lemma_mod_add_multiples_vanish(j, len);
            lemma_small_mod(j as nat, len as nat);
        }
    }
}

/// Counting over more histograms counts no fewer samples.
pub proof fn lemma_sum_counted_mono(hs: Seq<Histogram>, a: nat, b: nat)
    requires
        a <= b,
    ensures
        sum_counted(hs, a) <= sum_counted(hs, b),
    decreases b,
{
    if a < b {
        lemma_sum_counted_mono(hs, a, (b - 1) as nat);
    }
}

/// Histograms that count nothing add up to nothing.
pub proof fn lemma_sum_counted_zeros(hs: Seq<Histogram>, n: nat)
    requires
        n <= hs.len(),
        forall|j: int| 0 <= j < n ==> counted(#[trigger] hs[j].state()) == 0,
    ensures
        sum_counted(hs, n) == 0,
    decreases n,
{
    if n > 0 {
        lemma_sum_counted_zeros(hs, (n - 1) as nat);
    }
}

/// Histogram sequences that agree everywhere count the same.
pub proof fn lemma_sum_counted_same(a: Seq<Histogram>, b: Seq<Histogram>, n: nat)
    requires
        n <= a.len(),
        n <= b.len(),
        forall|j: int| 0 <= j < n ==> #[trigger] b[j] == a[j],
    ensures
        sum_counted(b, n) == sum_counted(a, n),
    decreases n,
{
    if n > 0 {
        lemma_sum_counted_same(a, b, (n - 1) as nat);
    }
}

/// Changing the histogram at `k` changes the count by the difference.
pub proof fn lemma_sum_counted_change(a: Seq<Histogram>, b: Seq<Histogram>, k: int, n: nat)
    requires
        n <= a.len(),
        n <= b.len(),
        0 <= k < n,
        forall|j: int| 0 <= j < n && j != k ==> #[trigger] b[j] == a[j],
    ensures
        sum_counted(b, n) + counted(a[k].state()) == sum_counted(a, n) + counted(b[k].state()),
    decreases n,
{
    if k < n - 1 {
        lemma_sum_counted_change(a, b, k, (n - 1) as nat);
    } else {
        lemma_sum_counted_same(a, b, (n - 1) as nat);
    }
}

/// Emptying a histogram twice empties it with respect to the first.
pub proof fn lemma_emptied_twice(a: Histogram, b: Histogram, c: Histogram)
    requires
        emptied(b, a),
        emptied(c, b),
    ensures
        emptied(c, a),
{
}

/// One slice of a heatmap: its times and its histogram.
pub struct Slice<'a> {
    begin_utc: i128,
    end_utc: i128,
    begin_precise: u64,
    end_precise: u64,
    histogram: &'a Histogram,
}

impl<'a> Slice<'a> {
    /// The start of the slice on the wall clock.
    pub closed spec fn spec_begin_utc(&self) -> i128 {
        self.begin_utc
    }

    /// The end of the slice on the wall clock.
    pub closed spec fn spec_end_utc(&self) -> i128 {
        self.end_utc
    }

    /// The start of the slice on the precise clock.
    pub closed spec fn spec_begin_precise(&self) -> u64 {
        self.begin_precise
    }

    /// The end of the slice on the precise clock.
    pub closed spec fn spec_end_precise(&self) -> u64 {
        self.end_precise
    }

    /// The histogram of the slice.
    pub closed spec fn spec_histogram(&self) -> Histogram {
        *self.histogram
    }

    /// The start of the slice, in nanoseconds of wall-clock time since the
    /// Unix epoch.
    pub fn begin_utc(&self) -> (r: i128)
        ensures
            r == self.spec_begin_utc(),
    {
        self.begin_utc
    }

    /// The end of the slice, in nanoseconds of wall-clock time since the
    /// Unix epoch.
    pub fn end_utc(&self) -> (r: i128)
        ensures
            r == self.spec_end_utc(),
    {
        self.end_utc
    }

    /// The start of the slice on the precise clock.
    pub fn begin_precise(&self) -> (r: u64)
        ensures
            r == self.spec_begin_precise(),
    {
        self.begin_precise
    }

    /// The end of the slice on the precise clock.
    pub fn end_precise(&self) -> (r: u64)
        ensures
            r == self.spec_end_precise(),
    {
        self.end_precise
    }

    /// The histogram of the slice.
    pub fn histogram(&self) -> (r: &'a Histogram)
        ensures
            *r == self.spec_histogram(),
    {
        self.histogram
    }
}

/// Histograms of values for consecutive slices of time, kept in a ring: the
/// slice at the offset is the oldest, and the ones after it, wrapping
/// around, are younger.
pub struct Heatmap {
    oldest_begin_precise: u64,
    newest_begin_precise: u64,
    newest_end_precise: u64,
    utc_offset: i128,
    resolution: u64,
    slices: Vec<Histogram>,
    offset: usize,
}

impl Heatmap {
    /// The start of the oldest slice on the precise clock.
    pub closed spec fn oldest(&self) -> u64 {
        self.oldest_begin_precise
    }

    /// The start of the newest slice on the precise clock.
    pub closed spec fn newest_begin(&self) -> u64 {
        self.newest_begin_precise
    }

    /// The end of the newest slice on the precise clock.
    pub closed spec fn newest_end(&self) -> u64 {
        self.newest_end_precise
    }

    /// Wall-clock nanoseconds minus precise-clock nanoseconds.
    pub closed spec fn spec_utc_offset(&self) -> i128 {
        self.utc_offset
    }

    /// The nanoseconds of each slice.
    pub closed spec fn spec_resolution(&self) -> u64 {
        self.resolution
    }

    /// The histograms, in the order of the ring.
    pub closed spec fn histograms(&self) -> Seq<Histogram> {
        self.slices@
    }

    /// The position in the ring of the oldest slice.
    pub closed spec fn spec_offset(&self) -> usize {
        self.offset
    }

    /// The span, from the start of the oldest slice to the end of the
    /// newest, holds one slice of the resolution for each histogram and
    /// less than one more (a time in that last part falls in the oldest
    /// slice's place in the ring, as the index wraps round), the offset
    /// lies in the ring, the clocks lie within a bounded distance,
    /// and every histogram is sound and keeps no samples.
    pub open spec fn wf(&self) -> bool {
        &&& self.spec_resolution() > 0
        &&& self.newest_begin() + self.spec_resolution() == self.newest_end()
        &&& self.oldest() + self.histograms().len() * self.spec_resolution() <= self.newest_end()
        &&& self.newest_end() < self.oldest() + (self.histograms().len() + 1) * self.spec_resolution()
        &&& self.histograms().len() >= 1
        &&& self.spec_offset() < self.histograms().len()
        &&& -UTC_OFFSET_LIMIT <= self.spec_utc_offset() <= UTC_OFFSET_LIMIT
        &&& forall|i: int|
            0 <= i < self.histograms().len() ==> (#[trigger] self.histograms()[i]).wf()
                && self.histograms()[i].remembered() is None
    }

    /// The ring position of the slice that holds `time`, if any slice does.
    pub open spec fn slot(&self, time: u64) -> Option<nat> {
        if self.oldest() < time && time < self.newest_end() {
            let k = (time - self.oldest()) / (self.spec_resolution() as int) + self.spec_offset();
            Some(
                if k >= self.histograms().len() {
                    (k - self.histograms().len()) as nat
                } else {
                    k as nat
                },
            )
        } else {
            None
        }
    }

    /// The times and offset of `new` are those of `old`, moved forward by
    /// `n` slices, and the histograms of the `n` oldest slices, all of them
    /// if `n` reaches the number of slices, are emptied while the others
    /// stay as they were.
    pub open spec fn moved_forward(old: &Heatmap, new: &Heatmap, n: nat) -> bool {
        let res = old.spec_resolution() as int;
        let len = old.histograms().len() as int;
        &&& new.wf()
        &&& new.spec_resolution() == old.spec_resolution()
        &&& new.spec_utc_offset() == old.spec_utc_offset()
        &&& new.oldest() == old.oldest() + n * res
        &&& new.newest_begin() == old.newest_begin() + n * res
        &&& new.newest_end() == old.newest_end() + n * res
        &&& new.spec_offset() == (old.spec_offset() + n) % len
        &&& new.histograms().len() == len
        &&& forall|j: int|
            0 <= j < len ==> if age(j, old.spec_offset() as int, len) < n {
                emptied(#[trigger] new.histograms()[j], old.histograms()[j])
            } else {
                new.histograms()[j] == old.histograms()[j]
            }
    }

    /// `new` is `old` with `count` samples of `value` added (`add`) or
    /// taken away at `time`, in the slice that holds that time, saturating;
    /// a time outside the span changes nothing.
    pub open spec fn recorded(
        old: &Heatmap,
        new: &Heatmap,
        time: u64,
        add: bool,
        value: u64,
        count: u64,
    ) -> bool {
        &&& new.wf()
        &&& new.oldest() == old.oldest()
        &&& new.newest_begin() == old.newest_begin()
        &&& new.newest_end() == old.newest_end()
        &&& new.spec_resolution() == old.spec_resolution()
        &&& new.spec_utc_offset() == old.spec_utc_offset()
        &&& new.spec_offset() == old.spec_offset()
        &&& new.histograms().len() == old.histograms().len()
        &&& forall|j: int|
            0 <= j < old.histograms().len() && old.slot(time) != Some(j as nat)
                ==> #[trigger] new.histograms()[j] == old.histograms()[j]
        &&& old.slot(time) matches Some(k) ==> {
            let h0 = old.histograms()[k as int];
            let h1 = new.histograms()[k as int];
            &&& h1.m() == h0.m()
            &&& h1.p() == h0.p()
            &&& h1.state() == if add {
                state_add(h0.p(), h0.m(), h0.state(), value, count)
            } else {
                state_sub(h0.p(), h0.m(), h0.state(), value, count)
            }
        }
    }

    /// The slot of a time within the span lies in the ring.
    pub proof fn lemma_slot_bound(&self, time: u64)
        requires
            self.wf(),
        ensures
            self.slot(time) matches Some(k) ==> k < self.histograms().len(),
    {
        if self.oldest() < time && time < self.newest_end() {
            let d = (time - self.oldest()) as int;
            let res = self.spec_resolution() as int;
            let len = self.histograms().len() as int;
            let q = d / res;
            vstd::arithmetic::div_mod::lemma_fundamental_div_mod(d, res);
            lemma_mod_bound(d, res);
            assert(q <= len) by (nonlinear_arith)
                requires
                    d == res * q + d % res,
                    0 <= d % res,
                    d < (len + 1) * res,
                    res > 0,
            ;
            assert(q >= 0) by (nonlinear_arith)
                requires
                    d >= 0,
                    res > 0,
                    q == d / res,
            ;
        }
    }

    /// Recording `count` samples at a time within the span raises the number
    /// of samples the heatmap counts by `count`, as long as no counter it
    /// touches passes `u64::MAX`; a time outside the span leaves it as it
    /// was.
    pub proof fn lemma_recorded_total(
        old: &Heatmap,
        new: &Heatmap,
        time: u64,
        value: u64,
        count: u64,
    )
        requires
            old.wf(),
            Heatmap::recorded(old, new, time, true, value, count),
            old.slot(time) matches Some(k) ==> {
                let h = old.histograms()[k as int];
                let b = bucket_index(h.p(), value as nat) as int / 100;
                &&& value <= h.m() ==> h.state().1[b] + count <= u64::MAX
                &&& value > h.m() ==> h.state().2 + count <= u64::MAX
            },
        ensures
            sum_counted(new.histograms(), new.histograms().len()) == sum_counted(
                old.histograms(),
                old.histograms().len(),
            ) + if old.slot(time) is Some {
                count as int
            } else {
                0
            },
    {
        let len = old.histograms().len();
        old.lemma_slot_bound(time);
        match old.slot(time) {
            Some(k) => {
                let h = old.histograms()[k as int];
                assert(h.wf());
                let b = bucket_index(h.p(), value as nat) as int / 100;
                if value <= h.m() {
                    lemma_index_mono(h.p(), value as nat, h.m() as nat);
                    crate::latched::lemma_seq_sum_update(h.state().1, b, (h.state().1[b] + count) as u64);
                }
                lemma_sum_counted_change(old.histograms(), new.histograms(), k as int, len);
            },
            None => {
                lemma_sum_counted_same(old.histograms(), new.histograms(), len);
            },
        }
    }

    /// A heatmap of values up to `max` with `precision` significant digits,
    /// with slices of `resolution` nanoseconds covering `span` nanoseconds
    /// from `begin_precise` on the precise clock,
    /// which is `begin_utc` nanoseconds since the Unix epoch on the wall
    /// clock.
    pub fn starting_at(
        max: u64,
        precision: u32,
        resolution: u64,
        span: u64,
        begin_precise: u64,
        begin_utc: i128,
    ) -> (h: Self)
        requires
            latched_params_ok(max, precision as nat),
            resolution > 0,
            span >= resolution,
            begin_precise + span <= u64::MAX,
            -UTC_OFFSET_LIMIT <= begin_utc - begin_precise <= UTC_OFFSET_LIMIT,
        ensures
            h.wf(),
            h.oldest() == begin_precise,
            h.newest_end() == begin_precise + span,
            h.spec_resolution() == resolution,
            h.spec_utc_offset() == begin_utc - begin_precise,
            h.spec_offset() == 0,
            h.histograms().len() == span / resolution,
            forall|i: int|
                0 <= i < h.histograms().len() ==> {
                    &&& (#[trigger] h.histograms()[i]).m() == max
                    &&& h.histograms()[i].p() == precision
                    &&& counted(h.histograms()[i].state()) == 0
                    &&& h.histograms()[i].state().0 == Seq::new(
                        h.histograms()[i].state().0.len(),
                        |k: int| 0u64,
                    )
                    &&& h.histograms()[i].state().2 == 0
                },
    {
        let num_slices = span / resolution;
        let mut slices: Vec<Histogram> = Vec::new();
        let mut i: u64 = 0;
        while i < num_slices
            invariant
                i <= num_slices,
                slices@.len() == i,
                latched_params_ok(max, precision as nat),
                forall|k: int|
                    0 <= k < i ==> {
                        &&& (#[trigger] slices@[k]).wf()
                        &&& slices@[k].remembered() is None
                        &&& slices@[k].m() == max
                        &&& slices@[k].p() == precision
                        &&& counted(slices@[k].state()) == 0
                        &&& slices@[k].state().0 == Seq::new(
                            slices@[k].state().0.len(),
                            |j: int| 0u64,
                        )
                        &&& slices@[k].state().2 == 0
                    },
            decreases num_slices - i,
        {
            let h = Histogram::new(max, precision, None, None);
            proof {
                crate::latched::lemma_seq_sum_zeros(h.state().1.len());
                assert(h.state().1 =~= Seq::new(h.state().1.len(), |k: int| 0u64));
            }
            slices.push(h);
            i = i + 1;
        }
        proof {
            vstd::arithmetic::div_mod::lemma_fundamental_div_mod(span as int, resolution as int);
            vstd::arithmetic::mul::lemma_mul_is_commutative(resolution as int, num_slices as int);
            vstd::arithmetic::div_mod::lemma_mod_bound(span as int, resolution as int);
            assert(num_slices >= 1) by (nonlinear_arith)
                requires
                    span == resolution * num_slices + span % resolution,
                    span % resolution < resolution,
                    span >= resolution,
            ;
            assert(num_slices * resolution >= resolution) by (nonlinear_arith)
                requires
                    num_slices >= 1,
            ;
        }
        proof {
            assert(span < (num_slices + 1) * resolution) by (nonlinear_arith)
                requires
                    span == resolution * num_slices + span % resolution,
                    span % resolution < resolution,
            ;
            assert(num_slices * resolution <= span) by (nonlinear_arith)
                requires
                    span == resolution * num_slices + span % resolution,
                    span % resolution >= 0,
            ;
        }
        Heatmap {
            oldest_begin_precise: begin_precise,
            newest_begin_precise: begin_precise + span - resolution,
            newest_end_precise: begin_precise + span,
            utc_offset: begin_utc - begin_precise as i128,
            resolution,
            slices,
            offset: 0,
        }
    }

    /// The ring position of the slice that holds `time`, if any slice does.
    fn index_of(&self, time: u64) -> (r: Option<usize>)
        requires
            self.wf(),
        ensures
            r matches Some(k) ==> self.slot(time) == Some(k as nat) && k < self.histograms().len(),
            r is None ==> self.slot(time) is None,
    {
        if self.oldest_begin_precise < time && time < self.newest_end_precise {
            let q = (time - self.oldest_begin_precise) / self.resolution;
            let len = self.slices.len();
            proof {
                let d = (time - self.oldest_begin_precise) as int;
                let res = self.resolution as int;
                vstd::arithmetic::div_mod::lemma_fundamental_div_mod(d, res);
                vstd::arithmetic::div_mod::lemma_mod_bound(d, res);
                assert(q <= len) by (nonlinear_arith)
                    requires
                        d == res * q + d % res,
                        0 <= d % res,
                        d < (len + 1) * res,
                        res > 0,
                        q >= 0,
                ;
            }
            let q = q as usize;
            let room = len - self.offset;
            let index = if q >= room {
                q - room
            } else {
                q + self.offset
            };
            Some(index)
        } else {
            None
        }
    }

    /// Records `count` samples of `value` at `time` in the slice that holds
    /// that time; a time outside the span is ignored.
    pub fn increment(&mut self, time: u64, value: u64, count: u64)
        requires
            old(self).wf(),
        ensures
            Heatmap::recorded(old(self), final(self), time, true, value, count),
    {
        match self.index_of(time) {
            Some(index) => {
                proof {
                    assert(self.slices@[index as int].wf());
                }
                self.slices[index].increment(value, count);
            },
            None => {},
        }
    }

    /// Removes `count` samples of `value` at `time` from the slice that
    /// holds that time; a time outside the span is ignored.
    pub fn decrement(&mut self, time: u64, value: u64, count: u64)
        requires
            old(self).wf(),
        ensures
            Heatmap::recorded(old(self), final(self), time, false, value, count),
    {
        match self.index_of(time) {
            Some(index) => {
                proof {
                    assert(self.slices@[index as int].wf());
                }
                self.slices[index].decrement(value, count);
            },
            None => {},
        }
    }

    /// Once the span has moved forward by at least as many slices as it
    /// has, every sample recorded before has aged out: the heatmap counts
    /// none.
    pub proof fn lemma_aged_out_counts_nothing(old: &Heatmap, new: &Heatmap, n: nat)
        requires
            old.wf(),
            Heatmap::moved_forward(old, new, n),
            n >= old.histograms().len(),
        ensures
            sum_counted(new.histograms(), new.histograms().len()) == 0,
    {
        let hs = new.histograms();
        let len = hs.len();
        lemma_age_of_step(old.spec_offset() as int, 0, len as int);
        assert forall|j: int| 0 <= j < len implies counted(#[trigger] hs[j].state()) == 0 by {
            assert(age(j, old.spec_offset() as int, len as int) < n);
            crate::latched::lemma_seq_sum_zeros(hs[j].state().1.len());
        }
        lemma_sum_counted_zeros(hs, len);
    }

    /// Moving forward by no slice leaves a heatmap as it is.
    pub proof fn lemma_moved_zero(h: &Heatmap)
        requires
            h.wf(),
        ensures
            Heatmap::moved_forward(h, h, 0),
    {
        vstd::arithmetic::div_mod::lemma_small_mod(
            h.spec_offset() as nat,
            h.histograms().len() as nat,
        );
    }

    /// Moving forward by `i` slices and then by one is moving forward by
    /// `i + 1`.
    pub proof fn lemma_moved_step(orig: &Heatmap, cur: &Heatmap, next: &Heatmap, i: nat)
        requires
            orig.wf(),
            Heatmap::moved_forward(orig, cur, i),
            Heatmap::moved_forward(cur, next, 1),
        ensures
            Heatmap::moved_forward(orig, next, i + 1),
    {
            let len = orig.histograms().len() as int;
        let o = orig.spec_offset() as int;
        let res = orig.spec_resolution() as int;
        assert((i + 1) * res == i * res + res) by (nonlinear_arith);
        lemma_add_mod_noop_right(1, o + i, len);
        lemma_mod_bound(o + i, len);
        lemma_age_of_step(o, i as int, len);
        let c = cur.spec_offset() as int;
        assert forall|j: int| 0 <= j < len implies if age(j, o, len) < i + 1 {
            emptied(#[trigger] next.histograms()[j], orig.histograms()[j])
        } else {
            next.histograms()[j] == orig.histograms()[j]
        } by {
            let a = age(j, o, len);
            if a < i {
                if j == c {
                    lemma_emptied_twice(orig.histograms()[j], cur.histograms()[j], next.histograms()[j]);
                }
            } else if a == i {
                lemma_small_mod(i, len as nat);
                assert(j == c);
            } else {
                lemma_small_mod(i, len as nat);
                assert(j != c);
            }
        }
    }

    /// Empties the oldest slice and makes it the newest, moving the span
    /// forward by one slice.
    fn tick(&mut self)
        requires
            old(self).wf(),
            old(self).newest_end() + old(self).spec_resolution() <= u64::MAX,
        ensures
            Heatmap::moved_forward(old(self), final(self), 1),
    {
        let off = self.offset;
        let len = self.slices.len();
        proof {
            assert(self.slices@[off as int].wf());
        }
        self.slices[off].clear();
        self.offset = if off + 1 == len {
            0
        } else {
            off + 1
        };
        let res = self.resolution;
        self.oldest_begin_precise = self.oldest_begin_precise + res;
        self.newest_begin_precise = self.newest_begin_precise + res;
        self.newest_end_precise = self.newest_end_precise + res;
        proof {
            if off + 1 == len {
                vstd::arithmetic::div_mod::lemma_mod_self_0(len as int);
            } else {
                vstd::arithmetic::div_mod::lemma_small_mod((off + 1) as nat, len as nat);
            }
            assert forall|i: int| 0 <= i < self.histograms().len() implies (
            #[trigger] self.histograms()[i]).wf() && self.histograms()[i].remembered() is None by {
                assert(old(self).histograms()[i].wf());
            }
        }
    }

    /// Moves the span forward, a slice at a time, until the newest slice
    /// starts after `time`; each slice let go is emptied and reused as the
    /// newest.
    pub fn latch_at(&mut self, time: u64)
        requires
            old(self).wf(),
            time + 2 * old(self).spec_resolution() <= u64::MAX,
        ensures
            Heatmap::moved_forward(
                old(self),
                final(self),
                ticks(old(self).newest_begin(), time, old(self).spec_resolution()),
            ),
            final(self).newest_begin() > time,
    {
        let res = self.resolution;
        let ghost orig = *self;
        let ghost mut i: nat = 0;
        proof {
            Heatmap::lemma_moved_zero(&orig);
        }
        while time >= self.newest_begin_precise
            invariant
                orig.wf(),
                res == orig.spec_resolution(),
                time + 2 * res <= u64::MAX,
                Heatmap::moved_forward(&orig, &*self, i),
                i > 0 ==> orig.newest_begin() + (i - 1) * res <= time,
            decreases time + res - self.newest_begin_precise,
        {
            let ghost prev = *self;
            self.tick();
            proof {
                Heatmap::lemma_moved_step(&orig, &prev, &*self, i);
                assert(orig.newest_begin() + i * res <= time) by {
                    assert(prev.newest_begin() == orig.newest_begin() + i * res);
                }
                i = i + 1;
            }
        }
        proof {
            let nb = orig.newest_begin() as int;
            if i == 0 {
                assert(self.newest_begin() == nb);
            } else {
                assert(i * res == (i - 1) * res + res) by (nonlinear_arith);
                vstd::arithmetic::div_mod::lemma_fundamental_div_mod_converse(
                    time - nb,
                    res as int,
                    i - 1,
                    time - nb - (i - 1) * res,
                );
            }
        }
    }

    /// A heatmap of values up to `max` with `precision` significant digits,
    /// with slices of `resolution` nanoseconds covering `span` nanoseconds
    /// starting at the top of the current minute of the wall clock
    /// (`span_start_spec` of the two clocks' readings). Where the precise
    /// clock reads less than the time since that minute began, the span
    /// starts at zero on it, and where the span would reach past the end of
    /// the precise clock it ends there.
    pub fn new(max: u64, precision: u32, resolution: u64, span: u64) -> (h: Self)
        requires
            latched_params_ok(max, precision as nat),
            resolution > 0,
            span >= resolution,
        ensures
            h.wf(),
            h.newest_end() == h.oldest() + span,
            h.spec_resolution() == resolution,
            h.spec_offset() == 0,
            exists|now: u64, sec: i64, nsec: i32, second: i32|
                0 <= nsec < 1_000_000_000 && 0 <= second <= 60 && h.oldest()
                    == #[trigger] span_start_spec(now, nsec, second, span, u64::MAX)
                    && h.spec_utc_offset() == #[trigger] utc_offset_spec(sec, nsec, now),
            h.histograms().len() == span / resolution,
            forall|i: int|
                0 <= i < h.histograms().len() ==> {
                    &&& (#[trigger] h.histograms()[i]).m() == max
                    &&& h.histograms()[i].p() == precision
                    &&& counted(h.histograms()[i].state()) == 0
                    &&& h.histograms()[i].state().0 == Seq::new(
                        h.histograms()[i].state().0.len(),
                        |k: int| 0u64,
                    )
                    &&& h.histograms()[i].state().2 == 0
                },
    {
        let (sec, nsec, second) = utc_now();
        let now_precise = precise_time_ns();
        let begin_precise = span_start(now_precise, nsec, second, span, u64::MAX);
        let elapsed = now_precise - begin_precise;
        proof {
            assert(-9_223_372_036_854_775_808_000_000_000 <= sec * 1_000_000_000
                <= 9_223_372_036_854_775_807_000_000_000) by (nonlinear_arith)
                requires
                    i64::MIN <= sec <= i64::MAX,
            ;
        }
        let begin_utc = sec as i128 * 1_000_000_000 + nsec as i128 - elapsed as i128;
        let h = Heatmap::starting_at(max, precision, resolution, span, begin_precise, begin_utc);
        assert(h.oldest() == span_start_spec(now_precise, nsec, second, span, u64::MAX));
        assert(h.spec_utc_offset() == utc_offset_spec(sec, nsec, now_precise));
        h
    }

    /// `new` is `old` latched to the time `t`: moved forward as `latch_at`
    /// moves it, or left as it is where `t` is within two slices of the end
    /// of the clock.
    pub open spec fn latched_to(old: &Heatmap, new: &Heatmap, t: u64) -> bool {
        if t + 2 * old.spec_resolution() <= u64::MAX {
            &&& Heatmap::moved_forward(
                old,
                new,
                ticks(old.newest_begin(), t, old.spec_resolution()),
            )
            &&& new.newest_begin() > t
        } else {
            *new == *old
        }
    }

    /// Moves the span forward, as `latch_at` does, to the time `t` the
    /// precise clock gives; where `t` is within two slices of the end of the
    /// clock, the heatmap is left as it is.
    pub fn latch(&mut self)
        requires
            old(self).wf(),
        ensures
            final(self).wf(),
            exists|t: u64| #[trigger] Heatmap::latched_to(old(self), final(self), t),
    {
        let time = precise_time_ns();
        if (u64::MAX - time) / 2 >= self.resolution {
            self.latch_at(time);
        }
        assert(Heatmap::latched_to(old(self), self, time));
    }

    /// The number of samples in all slices.
    pub fn total_count(&self) -> (r: u64)
        requires
            self.wf(),
            sum_counted(self.histograms(), self.histograms().len()) <= u64::MAX,
        ensures
            r == sum_counted(self.histograms(), self.histograms().len()),
    {
        let mut count: u64 = 0;
        let mut i: usize = 0;
        while i < self.slices.len()
            invariant
                self.wf(),
                i <= self.slices@.len(),
                count == sum_counted(self.slices@, i as nat),
                sum_counted(self.slices@, self.slices@.len()) <= u64::MAX,
            decreases self.slices@.len() - i,
        {
            proof {
                lemma_sum_counted_mono(self.slices@, (i + 1) as nat, self.slices@.len());
            }
            count = count + self.slices[i].counted();
            i = i + 1;
        }
        count
    }

    /// The highest count of any bucket in any slice.
    pub fn highest_count(&self) -> (r: u64)
        requires
            self.wf(),
        ensures
            r == highest_over(self.histograms(), self.histograms().len()),
    {
        let mut highest: u64 = 0;
        let mut i: usize = 0;
        while i < self.slices.len()
            invariant
                self.wf(),
                i <= self.slices@.len(),
                highest == highest_over(self.slices@, i as nat),
            decreases self.slices@.len() - i,
        {
            let h = &self.slices[i];
            proof {
                assert(self.histograms()[i as int].wf());
            }
            let n = h.buckets();
            let ghost prev = highest as nat;
            let mut j: usize = 0;
            while j < n
                invariant
                    h.wf(),
                    n == h.state().0.len(),
                    j <= n,
                    highest == highest_in(h.state().0, j as nat, prev),
                decreases n - j,
            {
                let c = h.bucket_count(j);
                if c > highest {
                    highest = c;
                }
                j = j + 1;
            }
            i = i + 1;
        }
        highest
    }

    /// The number of slices.
    pub fn slices(&self) -> (r: usize)
        ensures
            r == self.histograms().len(),
    {
        self.slices.len()
    }

    /// The number of buckets in each slice's histogram.
    pub fn buckets(&self) -> (r: usize)
        requires
            self.wf(),
        ensures
            r == self.histograms()[0].state().0.len(),
    {
        proof {
            assert(self.histograms()[0].wf());
        }
        self.slices[0].buckets()
    }

    /// The start of the oldest slice, in nanoseconds of wall-clock time
    /// since the Unix epoch.
    pub fn begin_utc(&self) -> (r: i128)
        requires
            self.wf(),
        ensures
            r == self.oldest() + self.spec_utc_offset(),
    {
        self.oldest_begin_precise as i128 + self.utc_offset
    }

    /// The start of the oldest slice on the precise clock.
    pub fn begin_precise(&self) -> (r: u64)
        ensures
            r == self.oldest(),
    {
        self.oldest_begin_precise
    }

    /// The nanoseconds of each slice.
    pub fn resolution(&self) -> (r: u64)
        ensures
            r == self.spec_resolution(),
    {
        self.resolution
    }

    /// The `i`-th slice from the oldest, with its times on both clocks and
    /// its histogram, if there are that many.
    pub fn slice(&self, i: usize) -> (r: Option<Slice<'_>>)
        requires
            self.wf(),
        ensures
            i >= self.histograms().len() ==> r is None,
            i < self.histograms().len() ==> (r matches Some(s) && {
                let len = self.histograms().len() as int;
                let k = self.spec_offset() + i;
                let begin = self.oldest() + i * self.spec_resolution();
                &&& s.spec_begin_precise() == begin
                &&& s.spec_end_precise() == begin + self.spec_resolution()
                &&& s.spec_begin_utc() == begin + self.spec_utc_offset()
                &&& s.spec_end_utc() == begin + self.spec_resolution() + self.spec_utc_offset()
                &&& s.spec_histogram() == self.histograms()[if k >= len { k - len } else { k }]
            }),
    {
        let len = self.slices.len();
        if i >= len {
            return None;
        }
        let room = len - self.offset;
        let index = if i >= room {
            i - room
        } else {
            i + self.offset
        };
        let res = self.resolution;
        proof {
            assert(i * res + res <= len * res) by (nonlinear_arith)
                requires
                    i < len,
            ;
        }
        let begin_precise = self.oldest_begin_precise + i as u64 * res;
        let end_precise = begin_precise + res;
        Some(
            Slice {
                begin_utc: begin_precise as i128 + self.utc_offset,
                end_utc: end_precise as i128 + self.utc_offset,
                begin_precise,
                end_precise,
                histogram: &self.slices[index],
            },
        )
    }
}

} // verus!
