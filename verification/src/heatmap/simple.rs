//! A simple heatmap: a ring of simple histograms, one for each slice of
//! time, covering a span of time that moves forward as the clock does.

use vstd::prelude::*;

use crate::bucketing::pow10;
use crate::heatmap::{
    age, clamp_to, lemma_age_of_step, span_start, span_start_spec, ticks, utc_offset_spec,
    UTC_OFFSET_LIMIT,
};
use crate::latched::simple::{simple_params_ok, Simple as Histogram};
use crate::trusted::{precise_time_ns, utc_now};
use vstd::arithmetic::div_mod::{lemma_add_mod_noop_right, lemma_mod_bound, lemma_small_mod};

verus! {

/// `new` is `old` with all its counts at zero.
pub open spec fn emptied(new: Histogram, old: Histogram) -> bool {
    &&& new.wf()
    &&& new.spec_max() == old.spec_max()
    &&& new.spec_precision() == old.spec_precision()
    &&& new.counts() == Seq::new(old.counts().len(), |i: int| 0usize)
    &&& new.spec_too_high() == 0
}

/// The sum of the samples of the first `n` histograms.
pub open spec fn sum_totals(hs: Seq<Histogram>, n: nat) -> nat
    decreases n,
{
    if n == 0 {
        0
    } else {
        sum_totals(hs, (n - 1) as nat) + hs[n - 1].total()
    }
}

/// The highest count a histogram reports for its width: zero when it holds
/// no samples.
pub open spec fn highest_of(h: Histogram) -> nat {
    if h.total() == 0 {
        0
    } else {
        h.density_scan(h.counts().len()).0
    }
}

/// The highest of `highest_of` over the first `n` histograms.
pub open spec fn highest_over(hs: Seq<Histogram>, n: nat) -> nat
    decreases n,
{
    if n == 0 {
        0
    } else {
        let prev = highest_over(hs, (n - 1) as nat);
        if highest_of(hs[n - 1]) > prev {
            highest_of(hs[n - 1])
        } else {
            prev
        }
    }
}

/// The highest count per width of the first `n` histograms is at least
/// that of each of them, and it is zero or that of one of them; the highest
/// of a histogram holding samples is at least the count per width of each
/// of its buckets.
pub proof fn lemma_highest_over_is_highest(hs: Seq<Histogram>, n: nat)
    requires
        n <= hs.len(),
    ensures
        forall|k: int| 0 <= k < n ==> #[trigger] highest_of(hs[k]) <= highest_over(hs, n),
        highest_over(hs, n) == 0 || exists|k: int|
            0 <= k < n && #[trigger] highest_of(hs[k]) == highest_over(hs, n),
        forall|k: int, b: nat|
            0 <= k < n && hs[k].total() > 0 && b < hs[k].counts().len() ==> #[trigger] hs[k].density(
                b,
            ) <= highest_over(hs, n),
    decreases n,
{
    if n > 0 {
        let m = (n - 1) as nat;
        lemma_highest_over_is_highest(hs, m);
        assert forall|k: int, b: nat|
            0 <= k < n && hs[k].total() > 0 && b < hs[k].counts().len() implies #[trigger] hs[k].density(
            b,
        ) <= highest_over(hs, n) by {
            hs[k].lemma_density_scan_finds_highest(hs[k].counts().len());
            assert(hs[k].density(b) <= highest_of(hs[k]));
        }
        if highest_over(hs, n) != 0 && highest_over(hs, n) == highest_over(hs, m) && highest_of(
            hs[m as int],
        ) <= highest_over(hs, m) {
            let k = choose|k: int|
                0 <= k < m && #[trigger] highest_of(hs[k]) == highest_over(hs, m);
            assert(0 <= k < n && highest_of(hs[k]) == highest_over(hs, n));
        }
    }
}

/// Counting over more histograms counts no fewer samples.
pub proof fn lemma_sum_totals_mono(hs: Seq<Histogram>, a: nat, b: nat)
    requires
        a <= b,
    ensures
        sum_totals(hs, a) <= sum_totals(hs, b),
    decreases b,
{
    if a < b {
        lemma_sum_totals_mono(hs, a, (b - 1) as nat);
    }
}

/// Histograms that hold nothing add up to nothing.
pub proof fn lemma_sum_totals_zeros(hs: Seq<Histogram>, n: nat)
    requires
        n <= hs.len(),
        forall|j: int| 0 <= j < n ==> (#[trigger] hs[j]).total() == 0,
    ensures
        sum_totals(hs, n) == 0,
    decreases n,
{
    if n > 0 {
        lemma_sum_totals_zeros(hs, (n - 1) as nat);
    }
}

/// Emptying a histogram twice empties it with respect to the first.
pub proof fn lemma_emptied_twice(a: Histogram, b: Histogram, c: Histogram)
    requires
        emptied(b, a),
        emptied(c, b),
    ensures
        emptied(c, a),
{
}

/// One slice of a simple heatmap: its times and its histogram.
pub struct Slice<'a> {
    begin_utc: i128,
    end_utc: i128,
    begin_precise: usize,
    end_precise: usize,
    histogram: &'a Histogram,
}

impl<'a> Slice<'a> {
    /// The start of the slice on the wall clock.
    pub closed spec fn spec_begin_utc(&self) -> i128 {
        self.begin_utc
    }

    /// The end of the slice on the wall clock.
    pub closed spec fn spec_end_utc(&self) -> i128 {
        self.end_utc
    }

    /// The start of the slice on the precise clock.
    pub closed spec fn spec_begin_precise(&self) -> usize {
        self.begin_precise
    }

    /// The end of the slice on the precise clock.
    pub closed spec fn spec_end_precise(&self) -> usize {
        self.end_precise
    }

    /// The histogram of the slice.
    pub closed spec fn spec_histogram(&self) -> Histogram {
        *self.histogram
    }

    /// The start of the slice, in nanoseconds of wall-clock time since the
    /// Unix epoch.
    pub fn begin_utc(&self) -> (r: i128)
        ensures
            r == self.spec_begin_utc(),
    {
        self.begin_utc
    }

    /// The end of the slice, in nanoseconds of wall-clock time since the
    /// Unix epoch.
    pub fn end_utc(&self) -> (r: i128)
        ensures
            r == self.spec_end_utc(),
    {
        self.end_utc
    }

    /// The start of the slice on the precise clock.
    pub fn begin_precise(&self) -> (r: usize)
        ensures
            r == self.spec_begin_precise(),
    {
        self.begin_precise
    }

    /// The end of the slice on the precise clock.
    pub fn end_precise(&self) -> (r: usize)
        ensures
            r == self.spec_end_precise(),
    {
        self.end_precise
    }

    /// The histogram of the slice.
    pub fn histogram(&self) -> (r: &'a Histogram)
        ensures
            *r == self.spec_histogram(),
    {
        self.histogram
    }
}

/// Simple histograms of values for consecutive slices of time, kept in a
/// ring: the slice at the offset is the oldest, and the ones after it,
/// wrapping around, are younger.
pub struct Simple {
    oldest_begin_precise: usize,
    newest_begin_precise: usize,
    newest_end_precise: usize,
    utc_offset: i128,
    resolution: usize,
    slices: Vec<Histogram>,
    offset: usize,
}

impl Simple {
    /// The start of the oldest slice on the precise clock.
    pub closed spec fn oldest(&self) -> usize {
        self.oldest_begin_precise
    }

    /// The start of the newest slice on the precise clock.
    pub closed spec fn newest_begin(&self) -> usize {
        self.newest_begin_precise
    }

    /// The end of the newest slice on the precise clock.
    pub closed spec fn newest_end(&self) -> usize {
        self.newest_end_precise
    }

    /// Wall-clock nanoseconds minus precise-clock nanoseconds.
    pub closed spec fn spec_utc_offset(&self) -> i128 {
        self.utc_offset
    }

    /// The nanoseconds of each slice.
    pub closed spec fn spec_resolution(&self) -> usize {
        self.resolution
    }

    /// The histograms, in the order of the ring.
    pub closed spec fn histograms(&self) -> Seq<Histogram> {
        self.slices@
    }

    /// The position in the ring of the oldest slice.
    pub closed spec fn spec_offset(&self) -> usize {
        self.offset
    }

    /// The span holds one slice of the resolution for each histogram and
    /// less than one more (a time in that last part falls in the oldest
    /// slice's place in the ring, as the index wraps round), the offset
    /// lies in the ring, the clocks lie within a bounded
    /// distance, and every histogram is sound.
    pub open spec fn wf(&self) -> bool {
        &&& self.spec_resolution() > 0
        &&& self.newest_begin() + self.spec_resolution() == self.newest_end()
        &&& self.oldest() + self.histograms().len() * self.spec_resolution() <= self.newest_end()
        &&& self.newest_end() < self.oldest() + (self.histograms().len() + 1) * self.spec_resolution()
        &&& self.histograms().len() >= 1
        &&& self.spec_offset() < self.histograms().len()
        &&& -UTC_OFFSET_LIMIT <= self.spec_utc_offset() <= UTC_OFFSET_LIMIT
        &&& forall|i: int| 0 <= i < self.histograms().len() ==> (#[trigger] self.histograms()[i]).wf()
    }

    /// The ring position of the slice that holds `time`, if any slice does.
    pub open spec fn slot(&self, time: usize) -> Option<nat> {
        if self.oldest() < time && time < self.newest_end() {
            let k = (time - self.oldest()) / (self.spec_resolution() as int) + self.spec_offset();
            Some(
                if k >= self.histograms().len() {
                    (k - self.histograms().len()) as nat
                } else {
                    k as nat
                },
            )
        } else {
            None
        }
    }

    /// The times and offset of `new` are those of `old`, moved forward by
    /// `n` slices, and the histograms of the `n` oldest slices, all of them
    /// if `n` reaches the number of slices, are emptied while the others
    /// stay as they were.
    pub open spec fn moved_forward(old: &Simple, new: &Simple, n: nat) -> bool {
        let res = old.spec_resolution() as int;
        let len = old.histograms().len() as int;
        &&& new.wf()
        &&& new.spec_resolution() == old.spec_resolution()
        &&& new.spec_utc_offset() == old.spec_utc_offset()
        &&& new.oldest() == old.oldest() + n * res
        &&& new.newest_begin() == old.newest_begin() + n * res
        &&& new.newest_end() == old.newest_end() + n * res
        &&& new.spec_offset() == (old.spec_offset() + n) % len
        &&& new.histograms().len() == len
        &&& forall|j: int|
            0 <= j < len ==> if age(j, old.spec_offset() as int, len) < n {
                emptied(#[trigger] new.histograms()[j], old.histograms()[j])
            } else {
                new.histograms()[j] == old.histograms()[j]
            }
    }

    /// A heatmap of values below `max` with `precision` significant digits,
    /// with slices of `resolution` nanoseconds covering `span` nanoseconds
    /// from `begin_precise` on the precise clock,
    /// which is `begin_utc` nanoseconds since the Unix epoch on the wall
    /// clock.
    pub fn starting_at(
        max: usize,
        precision: usize,
        resolution: usize,
        span: usize,
        begin_precise: usize,
        begin_utc: i128,
    ) -> (h: Self)
        requires
            simple_params_ok(max, precision as nat),
            resolution > 0,
            span >= resolution,
            begin_precise + span <= usize::MAX,
            -UTC_OFFSET_LIMIT <= begin_utc - begin_precise <= UTC_OFFSET_LIMIT,
        ensures
            h.wf(),
            h.oldest() == begin_precise,
            h.newest_end() == begin_precise + span,
            h.spec_resolution() == resolution,
            h.spec_utc_offset() == begin_utc - begin_precise,
            h.spec_offset() == 0,
            h.histograms().len() == span / resolution,
            forall|i: int|
                0 <= i < h.histograms().len() ==> {
                    &&& (#[trigger] h.histograms()[i]).spec_max() == max
                    &&& h.histograms()[i].spec_precision() == precision
                    &&& h.histograms()[i].counts() == Seq::new(
                        h.histograms()[i].counts().len(),
                        |k: int| 0usize,
                    )
                    &&& h.histograms()[i].spec_too_high() == 0
                },
    {
        let num_slices = span / resolution;
        let mut slices: Vec<Histogram> = Vec::new();
        let mut i: usize = 0;
        while i < num_slices
            invariant
                i <= num_slices,
                slices@.len() == i,
                simple_params_ok(max, precision as nat),
                forall|k: int|
                    0 <= k < i ==> {
                        &&& (#[trigger] slices@[k]).wf()
                        &&& slices@[k].spec_max() == max
                        &&& slices@[k].spec_precision() == precision
                        &&& slices@[k].counts() == Seq::new(
                            slices@[k].counts().len(),
                            |j: int| 0usize,
                        )
                        &&& slices@[k].spec_too_high() == 0
                    },
            decreases num_slices - i,
        {
            slices.push(Histogram::new(max, precision));
            i = i + 1;
        }
        proof {
            vstd::arithmetic::div_mod::lemma_fundamental_div_mod(span as int, resolution as int);
            vstd::arithmetic::mul::lemma_mul_is_commutative(resolution as int, num_slices as int);
            lemma_mod_bound(span as int, resolution as int);
            assert(num_slices >= 1) by (nonlinear_arith)
                requires
                    span == resolution * num_slices + span % resolution,
                    span % resolution < resolution,
                    span >= resolution,
            ;
            assert(num_slices * resolution >= resolution) by (nonlinear_arith)
                requires
                    num_slices >= 1,
            ;
        }
        proof {
            assert(span < (num_slices + 1) * resolution) by (nonlinear_arith)
                requires
                    span == resolution * num_slices + span % resolution,
                    span % resolution < resolution,
            ;
            assert(num_slices * resolution <= span) by (nonlinear_arith)
                requires
                    span == resolution * num_slices + span % resolution,
                    span % resolution >= 0,
            ;
        }
        Simple {
            oldest_begin_precise: begin_precise,
            newest_begin_precise: begin_precise + span - resolution,
            newest_end_precise: begin_precise + span,
            utc_offset: begin_utc - begin_precise as i128,
            resolution,
            slices,
            offset: 0,
        }
    }

    /// A heatmap of values below `max` with `precision` significant digits,
    /// with slices of `resolution` nanoseconds covering `span` nanoseconds
    /// starting at the top of the current minute of the wall clock
    /// (`span_start_spec` of the two clocks' readings, the precise one held
    /// to the `usize` range). Where the precise clock reads less than the time
    /// since that minute began, the span starts at zero on it, and where the
    /// span would reach past the end of the `usize` range it ends there.
    pub fn new(max: usize, precision: usize, resolution: usize, span: usize) -> (h: Self)
        requires
            simple_params_ok(max, precision as nat),
            resolution > 0,
            span >= resolution,
        ensures
            h.wf(),
            h.newest_end() == h.oldest() + span,
            h.spec_resolution() == resolution,
            h.spec_offset() == 0,
            exists|now: u64, sec: i64, nsec: i32, second: i32|
                0 <= nsec < 1_000_000_000 && 0 <= second <= 60 && h.oldest()
                    == #[trigger] span_start_spec(now, nsec, second, span as u64, usize::MAX as u64)
                    && h.spec_utc_offset() == #[trigger] utc_offset_spec(
                    sec,
                    nsec,
                    clamp_to(now, usize::MAX as u64),
                ),
            h.histograms().len() == span / resolution,
            forall|i: int|
                0 <= i < h.histograms().len() ==> {
                    &&& (#[trigger] h.histograms()[i]).spec_max() == max
                    &&& h.histograms()[i].spec_precision() == precision
                    &&& h.histograms()[i].counts() == Seq::new(
                        h.histograms()[i].counts().len(),
                        |k: int| 0usize,
                    )
                    &&& h.histograms()[i].spec_too_high() == 0
                },
    {
        let (sec, nsec, second) = utc_now();
        let now_precise = precise_time_ns();
        let now = if now_precise > usize::MAX as u64 {
            usize::MAX
        } else {
            now_precise as usize
        };
        let begin_precise = span_start(now_precise, nsec, second, span as u64, usize::MAX as u64) as usize;
        let elapsed = now - begin_precise;
        proof {
            assert(-9_223_372_036_854_775_808_000_000_000 <= sec * 1_000_000_000
                <= 9_223_372_036_854_775_807_000_000_000) by (nonlinear_arith)
                requires
                    i64::MIN <= sec <= i64::MAX,
            ;
        }
        let begin_utc = sec as i128 * 1_000_000_000 + nsec as i128 - elapsed as i128;
        let h = Simple::starting_at(max, precision, resolution, span, begin_precise, begin_utc);
        assert(h.oldest() == span_start_spec(now_precise, nsec, second, span as u64, usize::MAX as u64));
        assert(h.spec_utc_offset() == utc_offset_spec(
            sec,
            nsec,
            clamp_to(now_precise, usize::MAX as u64),
        ));
        h
    }

    /// The ring position of the slice that holds `time`, if any slice does.
    fn get_index(&self, time: usize) -> (r: Option<usize>)
        requires
            self.wf(),
        ensures
            r matches Some(k) ==> self.slot(time) == Some(k as nat) && k < self.histograms().len(),
            r is None ==> self.slot(time) is None,
    {
        if self.oldest_begin_precise < time && time < self.newest_end_precise {
            let q = (time - self.oldest_begin_precise) / self.resolution;
            let len = self.slices.len();
            proof {
                let d = (time - self.oldest_begin_precise) as int;
                let res = self.resolution as int;
                vstd::arithmetic::div_mod::lemma_fundamental_div_mod(d, res);
                lemma_mod_bound(d, res);
                assert(q <= len) by (nonlinear_arith)
                    requires
                        d == res * q + d % res,
                        0 <= d % res,
                        d < (len + 1) * res,
                        res > 0,
                        q >= 0,
                ;
            }
            let room = len - self.offset;
            let index = if q >= room {
                q - room
            } else {
                q + self.offset
            };
            Some(index)
        } else {
            None
        }
    }

    /// Adds `count` samples of `value` at `time` to the slice that holds
    /// that time; a time outside the span is ignored.
    pub fn incr(&mut self, time: usize, value: usize, count: usize)
        requires
            old(self).wf(),
        ensures
            final(self).wf(),
            final(self).oldest() == old(self).oldest(),
            final(self).newest_begin() == old(self).newest_begin(),
            final(self).newest_end() == old(self).newest_end(),
            final(self).spec_resolution() == old(self).spec_resolution(),
            final(self).spec_utc_offset() == old(self).spec_utc_offset(),
            final(self).spec_offset() == old(self).spec_offset(),
            final(self).histograms().len() == old(self).histograms().len(),
            forall|j: int|
                0 <= j < old(self).histograms().len() && old(self).slot(time) != Some(j as nat)
                    ==> #[trigger] final(self).histograms()[j] == old(self).histograms()[j],
            old(self).slot(time) matches Some(k) ==> old(self).histograms()[k as int].incremented(
                &final(self).histograms()[k as int],
                value,
                count,
            ),
    {
        match self.get_index(time) {
            Some(index) => {
                proof {
                    assert(self.slices@[index as int].wf());
                }
                self.slices[index].incr(value, count);
            },
            None => {},
        }
    }

    /// Removes `count` samples of `value` at `time` from the slice that
    /// holds that time; a time outside the span is ignored.
    pub fn decr(&mut self, time: usize, value: usize, count: usize)
        requires
            old(self).wf(),
        ensures
            final(self).wf(),
            final(self).oldest() == old(self).oldest(),
            final(self).newest_begin() == old(self).newest_begin(),
            final(self).newest_end() == old(self).newest_end(),
            final(self).spec_resolution() == old(self).spec_resolution(),
            final(self).spec_utc_offset() == old(self).spec_utc_offset(),
            final(self).spec_offset() == old(self).spec_offset(),
            final(self).histograms().len() == old(self).histograms().len(),
            forall|j: int|
                0 <= j < old(self).histograms().len() && old(self).slot(time) != Some(j as nat)
                    ==> #[trigger] final(self).histograms()[j] == old(self).histograms()[j],
            old(self).slot(time) matches Some(k) ==> old(self).histograms()[k as int].decremented(
                &final(self).histograms()[k as int],
                value,
                count,
            ),
    {
        match self.get_index(time) {
            Some(index) => {
                proof {
                    assert(self.slices@[index as int].wf());
                }
                self.slices[index].decr(value, count);
            },
            None => {},
        }
    }

    /// Moving forward by no slice leaves a heatmap as it is.
    pub proof fn lemma_moved_zero(h: &Simple)
        requires
            h.wf(),
        ensures
            Simple::moved_forward(h, h, 0),
    {
        lemma_small_mod(h.spec_offset() as nat, h.histograms().len() as nat);
    }

    /// Moving forward by `i` slices and then by one is moving forward by
    /// `i + 1`.
    pub proof fn lemma_moved_step(orig: &Simple, cur: &Simple, next: &Simple, i: nat)
        requires
            orig.wf(),
            Simple::moved_forward(orig, cur, i),
            Simple::moved_forward(cur, next, 1),
        ensures
            Simple::moved_forward(orig, next, i + 1),
    {
        let len = orig.histograms().len() as int;
        let o = orig.spec_offset() as int;
        let res = orig.spec_resolution() as int;
        assert((i + 1) * res == i * res + res) by (nonlinear_arith);
        lemma_add_mod_noop_right(1, o + i, len);
        lemma_mod_bound(o + i, len);
        lemma_age_of_step(o, i as int, len);
        let c = cur.spec_offset() as int;
        assert forall|j: int| 0 <= j < len implies if age(j, o, len) < i + 1 {
            emptied(#[trigger] next.histograms()[j], orig.histograms()[j])
        } else {
            next.histograms()[j] == orig.histograms()[j]
        } by {
            let a = age(j, o, len);
            if a < i {
                if j == c {
                    lemma_emptied_twice(orig.histograms()[j], cur.histograms()[j], next.histograms()[j]);
                }
            } else if a == i {
                lemma_small_mod(i, len as nat);
                assert(j == c);
            } else {
                lemma_small_mod(i, len as nat);
                assert(j != c);
            }
        }
    }

    /// Once the span has moved forward by at least as many slices as it
    /// has, every sample recorded before has aged out: the heatmap holds
    /// none.
    pub proof fn lemma_aged_out_holds_nothing(old: &Simple, new: &Simple, n: nat)
        requires
            old.wf(),
            Simple::moved_forward(old, new, n),
            n >= old.histograms().len(),
        ensures
            sum_totals(new.histograms(), new.histograms().len()) == 0,
    {
        let hs = new.histograms();
        let len = hs.len();
        lemma_age_of_step(old.spec_offset() as int, 0, len as int);
        assert forall|j: int| 0 <= j < len implies (#[trigger] hs[j]).total() == 0 by {
            assert(age(j, old.spec_offset() as int, len as int) < n);
            crate::moving::simple::lemma_usize_sum_zeros(hs[j].counts().len());
        }
        lemma_sum_totals_zeros(hs, len);
    }

    /// Empties the oldest slice and makes it the newest, moving the span
    /// forward by one slice.
    fn tick(&mut self)
        requires
            old(self).wf(),
            old(self).newest_end() + old(self).spec_resolution() <= usize::MAX,
        ensures
            Simple::moved_forward(old(self), final(self), 1),
    {
        let off = self.offset;
        let len = self.slices.len();
        proof {
            assert(self.slices@[off as int].wf());
        }
        self.slices[off].clear();
        self.offset = if off + 1 == len {
            0
        } else {
            off + 1
        };
        let res = self.resolution;
        self.oldest_begin_precise = self.oldest_begin_precise + res;
        self.newest_begin_precise = self.newest_begin_precise + res;
        self.newest_end_precise = self.newest_end_precise + res;
        proof {
            if off + 1 == len {
                vstd::arithmetic::div_mod::lemma_mod_self_0(len as int);
            } else {
                lemma_small_mod((off + 1) as nat, len as nat);
            }
            assert forall|i: int| 0 <= i < self.histograms().len() implies (
            #[trigger] self.histograms()[i]).wf() by {
                assert(old(self).histograms()[i].wf());
            }
        }
    }

    /// Moves the span forward by as many slices as it takes for the newest
    /// slice to start after `time`; each slice let go is emptied and reused
    /// as the newest.
    pub fn latch_at(&mut self, time: usize)
        requires
            old(self).wf(),
            time + 2 * old(self).spec_resolution() <= usize::MAX,
        ensures
            Simple::moved_forward(
                old(self),
                final(self),
                ticks(old(self).newest_begin() as u64, time as u64, old(self).spec_resolution() as u64),
            ),
            final(self).newest_begin() > time,
    {
        let ghost orig = *self;
        proof {
            Simple::lemma_moved_zero(&orig);
        }
        if time >= self.newest_begin_precise {
            let res = self.resolution;
            let nb = self.newest_begin_precise;
            let n = (time - nb) / res + 1;
            proof {
                let d = (time - nb) as int;
                let r = res as int;
                let q = (n - 1) as int;
                vstd::arithmetic::div_mod::lemma_fundamental_div_mod(d, r);
                lemma_mod_bound(d, r);
                assert(q * r <= d) by (nonlinear_arith)
                    requires
                        d == r * q + d % r,
                        0 <= d % r,
                ;
                assert((q + 1) * r > d) by (nonlinear_arith)
                    requires
                        d == r * q + d % r,
                        d % r < r,
                ;
            }
            let mut i: usize = 0;
            while i < n
                invariant
                    orig.wf(),
                    res == orig.spec_resolution(),
                    nb == orig.newest_begin(),
                    time + 2 * res <= usize::MAX,
                    (n - 1) * res <= time - nb,
                    i <= n,
                    Simple::moved_forward(&orig, &*self, i as nat),
                decreases n - i,
            {
                proof {
                    assert(i * res <= (n - 1) * res) by (nonlinear_arith)
                        requires
                            i < n,
                            res > 0,
                    ;
                }
                let ghost prev = *self;
                self.tick();
                proof {
                    Simple::lemma_moved_step(&orig, &prev, &*self, i as nat);
                }
                i = i + 1;
            }
        }
    }

    /// `new` is `old` latched to the time `t`: moved forward as `latch_at`
    /// moves it, or left as it is where `t` is within two slices of the end
    /// of the `usize` range, or beyond it.
    pub open spec fn latched_to(old: &Simple, new: &Simple, t: u64) -> bool {
        if t + 2 * old.spec_resolution() <= usize::MAX {
            &&& Simple::moved_forward(
                old,
                new,
                ticks(old.newest_begin() as u64, t, old.spec_resolution() as u64),
            )
            &&& new.newest_begin() > t
        } else {
            *new == *old
        }
    }

    /// Moves the span forward, as `latch_at` does, to the time `t` the
    /// precise clock gives; where `t` is within two slices of the end of the
    /// `usize` range, or beyond it, the heatmap is left as it is.
    pub fn latch(&mut self)
        requires
            old(self).wf(),
        ensures
            final(self).wf(),
            exists|t: u64| #[trigger] Simple::latched_to(old(self), final(self), t),
    {
        let now = precise_time_ns();
        if now <= usize::MAX as u64 {
            let time = now as usize;
            if (usize::MAX - time) / 2 >= self.resolution {
                self.latch_at(time);
            }
        }
        assert(Simple::latched_to(old(self), self, now));
    }

    /// The number of samples in all slices.
    pub fn samples(&self) -> (r: usize)
        requires
            self.wf(),
            sum_totals(self.histograms(), self.histograms().len()) <= usize::MAX,
        ensures
            r == sum_totals(self.histograms(), self.histograms().len()),
    {
        let mut count: usize = 0;
        let mut i: usize = 0;
        while i < self.slices.len()
            invariant
                self.wf(),
                i <= self.slices@.len(),
                count == sum_totals(self.slices@, i as nat),
                sum_totals(self.slices@, self.slices@.len()) <= usize::MAX,
            decreases self.slices@.len() - i,
        {
            proof {
                lemma_sum_totals_mono(self.slices@, (i + 1) as nat, self.slices@.len());
                assert(self.slices@[i as int].wf());
            }
            count = count + self.slices[i].samples();
            i = i + 1;
        }
        count
    }

    /// The highest count for its width of any bucket in any slice.
    pub fn highest_count(&self) -> (r: usize)
        requires
            self.wf(),
            forall|i: int|
                0 <= i < self.histograms().len() ==> (#[trigger] self.histograms()[i]).total()
                    <= usize::MAX && (self.histograms()[i].total() > 0 ==> self.histograms()[i].spec_max()
                    != pow10(self.histograms()[i].spec_precision())),
        ensures
            r == highest_over(self.histograms(), self.histograms().len()),
    {
        let mut count: usize = 0;
        let mut i: usize = 0;
        while i < self.slices.len()
            invariant
                self.wf(),
                i <= self.slices@.len(),
                count == highest_over(self.slices@, i as nat),
                forall|k: int|
                    0 <= k < self.histograms().len() ==> (#[trigger] self.histograms()[k]).total()
                        <= usize::MAX && (self.histograms()[k].total() > 0
                        ==> self.histograms()[k].spec_max() != pow10(
                        self.histograms()[k].spec_precision(),
                    )),
            decreases self.slices@.len() - i,
        {
            proof {
                assert(self.histograms()[i as int].wf());
                assert(self.histograms()[i as int].total() <= usize::MAX);
            }
            let c = self.slices[i].highest_count();
            if c > count {
                count = c;
            }
            i = i + 1;
        }
        count
    }

    /// The number of slices.
    pub fn slices(&self) -> (r: usize)
        ensures
            r == self.histograms().len(),
    {
        self.slices.len()
    }

    /// The number of buckets in each slice's histogram.
    pub fn buckets(&self) -> (r: usize)
        requires
            self.wf(),
        ensures
            r == self.histograms()[0].counts().len(),
    {
        self.slices[0].buckets()
    }

    /// The start of the oldest slice, in nanoseconds of wall-clock time
    /// since the Unix epoch.
    pub fn begin_utc(&self) -> (r: i128)
        requires
            self.wf(),
        ensures
            r == self.oldest() + self.spec_utc_offset(),
    {
        self.oldest_begin_precise as i128 + self.utc_offset
    }

    /// The start of the oldest slice on the precise clock.
    pub fn begin_precise(&self) -> (r: usize)
        ensures
            r == self.oldest(),
    {
        self.oldest_begin_precise
    }

    /// The nanoseconds of each slice.
    pub fn resolution(&self) -> (r: usize)
        ensures
            r == self.spec_resolution(),
    {
        self.resolution
    }

    /// The `i`-th slice from the oldest, with its times on both clocks and
    /// its histogram, if there are that many.
    pub fn slice(&self, i: usize) -> (r: Option<Slice<'_>>)
        requires
            self.wf(),
        ensures
            i >= self.histograms().len() ==> r is None,
            i < self.histograms().len() ==> (r matches Some(s) && {
                let len = self.histograms().len() as int;
                let k = self.spec_offset() + i;
                let begin = self.oldest() + i * self.spec_resolution();
                &&& s.spec_begin_precise() == begin
                &&& s.spec_end_precise() == begin + self.spec_resolution()
                &&& s.spec_begin_utc() == begin + self.spec_utc_offset()
                &&& s.spec_end_utc() == begin + self.spec_resolution() + self.spec_utc_offset()
                &&& s.spec_histogram() == self.histograms()[if k >= len { k - len } else { k }]
            }),
    {
        let len = self.slices.len();
        if i >= len {
            return None;
        }
        let room = len - self.offset;
        let index = if i >= room {
            i - room
        } else {
            i + self.offset
        };
        let res = self.resolution;
        proof {
            assert(i * res + res <= len * res) by (nonlinear_arith)
                requires
                    i < len,
            ;
        }
        let begin_precise = self.oldest_begin_precise + i * res;
        let end_precise = begin_precise + res;
        Some(
            Slice {
                begin_utc: begin_precise as i128 + self.utc_offset,
                end_utc: end_precise as i128 + self.utc_offset,
                begin_precise,
                end_precise,
                histogram: &self.slices[index],
            },
        )
    }
}

} // verus!
