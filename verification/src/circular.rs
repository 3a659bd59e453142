//! A histogram over a sliding window whose samples live in a fixed ring of
//! slots: the oldest slot is overwritten once the ring is full.

use vstd::prelude::*;

use crate::latched::{add_sample, latched_params_ok, remove_sample, Latched};
use crate::moving::Counts;
use crate::trusted::precise_time_ns;

verus! {

/// One slot of the ring: `count` samples of `value` recorded at `time`
/// (nanoseconds), added or, when `decrement` holds, removed.
#[derive(Copy, Clone, Debug)]
pub struct Slot {
    pub value: u64,
    pub count: u64,
    pub time: u64,
    pub decrement: bool,
}

/// The state of the ring: the counts of the histogram, the slots, and the
/// positions of the oldest and newest slot and the number in use.
pub struct RingState {
    pub counts: Counts,
    pub slots: Seq<Slot>,
    pub oldest: u32,
    pub newest: u32,
    pub used: u32,
}

/// The position after `i` in a ring of `len` slots.
pub open spec fn next_slot(i: u32, len: nat) -> u32 {
    if i + 1 >= len {
        0
    } else {
        (i + 1) as u32
    }
}

/// The counts after a slot's change is taken back: an addition is removed
/// and a removal is added back.
pub open spec fn undo_slot(p: nat, max: u64, counts: Counts, s: Slot) -> Counts {
    if s.decrement {
        add_sample(p, max, counts.0, counts.1, s.value, s.count)
    } else {
        remove_sample(p, max, counts.0, counts.1, s.value, s.count)
    }
}

/// The counts after a slot's change is applied.
pub open spec fn apply_slot(p: nat, max: u64, counts: Counts, s: Slot) -> Counts {
    if s.decrement {
        remove_sample(p, max, counts.0, counts.1, s.value, s.count)
    } else {
        add_sample(p, max, counts.0, counts.1, s.value, s.count)
    }
}

/// Taking back a change that leaves the window, in either direction,
/// restores the counts it found: an expired removal is added back.
pub proof fn lemma_undo_slot_restores(p: nat, max: u64, counts: Counts, s: Slot)
    requires
        counts.0.len() == crate::bucketing::bucket_index(p, max as nat) + 1,
        p >= 1 || max <= crate::bucketing::pow10(p),
    ensures
        undo_slot(p, max, apply_slot(p, max, counts, s), s) == counts,
{
    if s.decrement {
        if s.value <= max {
            crate::bucketing::lemma_index_mono(p, s.value as nat, max as nat);
            let i = crate::bucketing::bucket_index(p, s.value as nat) as int;
            let c1 = apply_slot(p, max, counts, s);
            assert(undo_slot(p, max, c1, s).0 =~= counts.0);
        }
    } else {
        crate::latched::lemma_remove_undoes_add(p, max, counts.0, counts.1, s.value, s.count);
    }
}

/// Expiring the slots `i..end` whose time is before `expired`, stopping at
/// the first that is not: each expired slot's change is taken back, so the
/// histogram keeps only the changes within the window. The flag tells
/// whether the scan stopped early.
pub open spec fn expire_range(
    p: nat,
    max: u64,
    st: RingState,
    i: nat,
    end: nat,
    expired: u64,
) -> (RingState, bool)
    decreases end - i,
{
    if i >= end {
        (st, false)
    } else if st.slots[i as int].time < expired {
        let s = st.slots[i as int];
        let next = RingState {
            counts: undo_slot(p, max, st.counts, s),
            slots: st.slots,
            oldest: next_slot(st.oldest, st.slots.len()),
            newest: st.newest,
            used: st.used.wrapping_sub(1),
        };
        expire_range(p, max, next, i + 1, end, expired)
    } else {
        (st, true)
    }
}

/// The time before which slots have expired at `now`: `now - window`, or
/// zero when less than the window has passed since the epoch.
pub open spec fn expiry(now: u64, window: u64) -> u64 {
    if now >= window {
        (now - window) as u64
    } else {
        0
    }
}

/// Expiring slots changes neither the slots nor the newest position.
pub proof fn lemma_expire_range_keeps(
    p: nat,
    max: u64,
    st: RingState,
    i: nat,
    end: nat,
    expired: u64,
)
    ensures
        expire_range(p, max, st, i, end, expired).0.slots == st.slots,
        expire_range(p, max, st, i, end, expired).0.newest == st.newest,
    decreases end - i,
{
    if i < end && st.slots[i as int].time < expired {
        let s = st.slots[i as int];
        let next = RingState {
            counts: undo_slot(p, max, st.counts, s),
            slots: st.slots,
            oldest: next_slot(st.oldest, st.slots.len()),
            newest: st.newest,
            used: st.used.wrapping_sub(1),
        };
        lemma_expire_range_keeps(p, max, next, i + 1, end, expired);
    }
}

/// Expiring changes neither the slots nor the newest position.
pub proof fn lemma_expire_keeps(p: nat, max: u64, st: RingState, now: u64, window: u64)
    ensures
        expire(p, max, st, now, window).slots == st.slots,
        expire(p, max, st, now, window).newest == st.newest,
{
    let e = expiry(now, window);
    lemma_expire_range_keeps(p, max, st, st.oldest as nat, st.newest as nat, e);
    lemma_expire_range_keeps(p, max, st, st.oldest as nat, st.slots.len(), e);
    let (s1, _) = expire_range(p, max, st, st.oldest as nat, st.slots.len(), e);
    lemma_expire_range_keeps(p, max, s1, 0, st.newest as nat, e);
}

/// The state after the slots that expired at `now` are taken out.
pub open spec fn expire(p: nat, max: u64, st: RingState, now: u64, window: u64) -> RingState {
    let expired = expiry(now, window);
    if st.used == 0 {
        st
    } else if st.oldest < st.newest {
        expire_range(p, max, st, st.oldest as nat, st.newest as nat, expired).0
    } else {
        let (s1, stopped) = expire_range(
            p,
            max,
            st,
            st.oldest as nat,
            st.slots.len(),
            expired,
        );
        if stopped {
            s1
        } else {
            expire_range(p, max, s1, 0, st.newest as nat, expired).0
        }
    }
}

/// The state after a change of `count` samples of `value` at `time` is
/// recorded: the histogram changes; a full ring first takes back its
/// oldest slot; the change is written to the newest slot, which at the end
/// of the ring goes back to the start.
pub open spec fn record(
    p: nat,
    max: u64,
    st: RingState,
    value: u64,
    count: u64,
    time: u64,
    decrement: bool,
) -> RingState {
    let c1 = if decrement {
        remove_sample(p, max, st.counts.0, st.counts.1, value, count)
    } else {
        add_sample(p, max, st.counts.0, st.counts.1, value, count)
    };
    let len = st.slots.len();
    let full = st.used as nat == len;
    let o = st.slots[st.oldest as int];
    let c2 = if full {
        if o.decrement {
            add_sample(p, max, c1.0, c1.1, o.value, o.count)
        } else {
            remove_sample(p, max, c1.0, c1.1, o.value, o.count)
        }
    } else {
        c1
    };
    let oldest = if full {
        next_slot(st.oldest, len)
    } else {
        st.oldest
    };
    let used = if full {
        st.used.wrapping_sub(1)
    } else {
        st.used
    };
    let slot = Slot { value, count, time, decrement };
    let (newest, at) = if st.newest + 1 >= len {
        (0u32, 0int)
    } else {
        ((st.newest + 1) as u32, st.newest as int)
    };
    RingState {
        counts: c2,
        slots: st.slots.update(at, slot),
        oldest,
        newest,
        used: used.wrapping_add(1),
    }
}

/// The case of `lemma_window_takes_back_pair` where the increment has left
/// the window by the time the decrement is recorded.
proof fn lemma_window_takes_back_each(
    p: nat,
    max: u64,
    st0: RingState,
    v1: u64,
    a: u64,
    t1: u64,
    v2: u64,
    b: u64,
    t2: u64,
    t: u64,
    window: u64,
)
    requires
        st0.used == 0,
        st0.oldest == 0,
        st0.newest == 0,
        st0.slots.len() >= 3,
        st0.slots.len() <= u32::MAX,
        st0.counts.0.len() == crate::bucketing::bucket_index(p, max as nat) + 1,
        p >= 1 || max <= crate::bucketing::pow10(p),
        t1 < expiry(t2, window),
        t2 < expiry(t, window),
    ensures
        ({
            let st1 = record(p, max, expire(p, max, st0, t1, window), v1, a, t1, false);
            let st2 = record(p, max, expire(p, max, st1, t2, window), v2, b, t2, true);
            &&& expire(p, max, st2, t, window).counts == st0.counts
            &&& expire(p, max, st2, t, window).used == 0
        }),
{
    let c0 = st0.counts;
    let st1 = record(p, max, expire(p, max, st0, t1, window), v1, a, t1, false);
    let sa = Slot { value: v1, count: a, time: t1, decrement: false };
    assert(st1.slots[0] == sa);
    assert(st1.oldest == 0 && st1.newest == 1 && st1.used == 1);
    assert(st1.counts == apply_slot(p, max, c0, sa));
    lemma_undo_slot_restores(p, max, c0, sa);
    let e2 = expiry(t2, window);
    let n1 = RingState {
        counts: undo_slot(p, max, st1.counts, sa),
        slots: st1.slots,
        oldest: next_slot(st1.oldest, st1.slots.len()),
        newest: st1.newest,
        used: st1.used.wrapping_sub(1),
    };
    assert(expire_range(p, max, n1, 1, 1, e2) == (n1, false));
    assert(expire_range(p, max, st1, 0, 1, e2) == (n1, false));
    assert(expire(p, max, st1, t2, window) == n1);
    assert(n1.counts == c0 && n1.oldest == 1 && n1.newest == 1 && n1.used == 0);
    let st2 = record(p, max, n1, v2, b, t2, true);
    let sb = Slot { value: v2, count: b, time: t2, decrement: true };
    assert(st2.oldest == 1 && st2.newest == 2 && st2.used == 1);
    assert(st2.slots[1] == sb);
    assert(st2.counts == apply_slot(p, max, c0, sb));
    lemma_undo_slot_restores(p, max, c0, sb);
    let e = expiry(t, window);
    let n2 = RingState {
        counts: undo_slot(p, max, st2.counts, sb),
        slots: st2.slots,
        oldest: next_slot(st2.oldest, st2.slots.len()),
        newest: st2.newest,
        used: st2.used.wrapping_sub(1),
    };
    assert(expire_range(p, max, n2, 2, 2, e) == (n2, false));
    assert(expire_range(p, max, st2, 1, 2, e) == (n2, false));
    assert(n2.counts == c0);
}

/// Once the window has passed both of them, an increment and a later
/// decrement recorded in an empty ring of at least three slots both stop
/// counting: the increment is taken away and the decrement added back, so
/// the counts are those the ring started with and no slot is in use. Each
/// recording first takes out what expired by its time, as `increment_at`
/// and `decrement_at` do, whether or not the increment is still in the
/// window when the decrement comes.
pub proof fn lemma_window_takes_back_pair(
    p: nat,
    max: u64,
    st0: RingState,
    v1: u64,
    a: u64,
    t1: u64,
    v2: u64,
    b: u64,
    t2: u64,
    t: u64,
    window: u64,
)
    requires
        st0.used == 0,
        st0.oldest == 0,
        st0.newest == 0,
        st0.slots.len() >= 3,
        st0.slots.len() <= u32::MAX,
        st0.counts.0.len() == crate::bucketing::bucket_index(p, max as nat) + 1,
        p >= 1 || max <= crate::bucketing::pow10(p),
        t1 < expiry(t, window),
        t2 < expiry(t, window),
    ensures
        ({
            let st1 = record(p, max, expire(p, max, st0, t1, window), v1, a, t1, false);
            let st2 = record(p, max, expire(p, max, st1, t2, window), v2, b, t2, true);
            &&& expire(p, max, st2, t, window).counts == st0.counts
            &&& expire(p, max, st2, t, window).used == 0
        }),
{
    let e2 = expiry(t2, window);
    if t1 < e2 {
        lemma_window_takes_back_each(p, max, st0, v1, a, t1, v2, b, t2, t, window);
    } else {
        lemma_window_takes_back_both(p, max, st0, v1, a, t1, v2, b, t2, t, window);
    }
}

/// The case of `lemma_window_takes_back_pair` where the increment is still
/// in the window when the decrement is recorded.
proof fn lemma_window_takes_back_both(
    p: nat,
    max: u64,
    st0: RingState,
    v1: u64,
    a: u64,
    t1: u64,
    v2: u64,
    b: u64,
    t2: u64,
    t: u64,
    window: u64,
)
    requires
        st0.used == 0,
        st0.oldest == 0,
        st0.newest == 0,
        st0.slots.len() >= 3,
        st0.slots.len() <= u32::MAX,
        st0.counts.0.len() == crate::bucketing::bucket_index(p, max as nat) + 1,
        p >= 1 || max <= crate::bucketing::pow10(p),
        expiry(t2, window) <= t1,
        t1 < expiry(t, window),
        t2 < expiry(t, window),
    ensures
        ({
            let st1 = record(p, max, expire(p, max, st0, t1, window), v1, a, t1, false);
            let st2 = record(p, max, expire(p, max, st1, t2, window), v2, b, t2, true);
            &&& expire(p, max, st2, t, window).counts == st0.counts
            &&& expire(p, max, st2, t, window).used == 0
        }),
{
    let e2 = expiry(t2, window);
    let st1 = record(p, max, expire(p, max, st0, t1, window), v1, a, t1, false);
    assert(st1.slots[0].time == t1);
    assert(st1.oldest == 0 && st1.newest == 1 && st1.used == 1);
    assert(expire_range(p, max, st1, 0, 1, e2) == (st1, true));
    assert(expire(p, max, st1, t2, window) == st1);
    let st2 = record(p, max, st1, v2, b, t2, true);
    assert(st2.oldest == 0 && st2.newest == 2 && st2.used == 2);
    assert(st2.slots[0] == Slot { value: v1, count: a, time: t1, decrement: false });
    assert(st2.slots[1] == Slot { value: v2, count: b, time: t2, decrement: true });
    let e = expiry(t, window);
    let ta: crate::metrics::instant::Instant = arbitrary();
    let sa = crate::moving::Sample {
        value: v1,
        count: a,
        time: ta,
        direction: crate::moving::Direction::Increment,
    };
    let sb = crate::moving::Sample {
        value: v2,
        count: b,
        time: ta,
        direction: crate::moving::Direction::Decrement,
    };
    let c0 = st0.counts;
    let ca = crate::moving::apply_sample(p, max, c0, sa);
    let cab = crate::moving::apply_sample(p, max, ca, sb);
    assert(st2.counts == cab);
    crate::moving::lemma_apply_commutes(p, max, c0, sa, sb);
    let cb = crate::moving::apply_sample(p, max, c0, sb);
    crate::moving::lemma_apply_len(p, max, c0, sb);
    crate::moving::lemma_undo_apply(p, max, cb, sa);
    crate::moving::lemma_undo_apply(p, max, c0, sb);
    let u1 = undo_slot(p, max, st2.counts, st2.slots[0]);
    assert(u1 == cb);
    let r1 = RingState {
        counts: u1,
        slots: st2.slots,
        oldest: next_slot(st2.oldest, st2.slots.len()),
        newest: st2.newest,
        used: st2.used.wrapping_sub(1),
    };
    let r2 = RingState {
        counts: undo_slot(p, max, r1.counts, r1.slots[1]),
        slots: r1.slots,
        oldest: next_slot(r1.oldest, r1.slots.len()),
        newest: r1.newest,
        used: r1.used.wrapping_sub(1),
    };
    assert(expire_range(p, max, r2, 2, 2, e) == (r2, false));
    assert(expire_range(p, max, r1, 1, 2, e) == (r2, false));
    assert(expire_range(p, max, st2, 0, 2, e) == (r2, false));
    assert(r2.counts == c0);
}

/// A windowed histogram whose samples are kept in a ring of slots.
pub struct Circular {
    data: Latched,
    samples: Vec<Slot>,
    oldest: u32,
    newest: u32,
    used: u32,
    window: u64,
}

impl Circular {
    /// The histogram of the samples.
    pub closed spec fn histogram(&self) -> Latched {
        self.data
    }

    /// The window in nanoseconds.
    pub closed spec fn spec_window(&self) -> u64 {
        self.window
    }

    /// The ring and the histogram's counts.
    pub closed spec fn ring(&self) -> RingState {
        RingState {
            counts: (self.data.counts(), self.data.spec_too_high()),
            slots: self.samples@,
            oldest: self.oldest,
            newest: self.newest,
            used: self.used,
        }
    }

    /// The precision of the histogram.
    pub open spec fn p(&self) -> nat {
        self.histogram().spec_precision()
    }

    /// The largest value with a bucket.
    pub open spec fn m(&self) -> u64 {
        self.histogram().spec_max()
    }

    /// The histogram is sound, the ring has at most `u32::MAX` slots, and
    /// the oldest and newest positions lie in it.
    pub open spec fn wf(&self) -> bool {
        &&& self.histogram().wf()
        &&& self.ring().counts == (self.histogram().counts(), self.histogram().spec_too_high())
        &&& self.ring().slots.len() <= u32::MAX
        &&& (self.ring().slots.len() == 0 ==> self.ring().oldest == 0 && self.ring().newest == 0)
        &&& (self.ring().slots.len() > 0 ==> self.ring().oldest < self.ring().slots.len()
            && self.ring().newest < self.ring().slots.len())
    }

    /// A histogram of values up to `max` with `precision` significant
    /// digits, a window of `window` nanoseconds and `capacity` slots.
    pub fn new(max: u64, precision: usize, window: u64, capacity: u32) -> (h: Self)
        requires
            latched_params_ok(max, precision as nat),
        ensures
            h.wf(),
            h.m() == max,
            h.p() == precision,
            h.spec_window() == window,
            h.ring().slots.len() == capacity,
            h.ring().oldest == 0,
            h.ring().newest == 0,
            h.ring().used == 0,
            h.ring().counts.0 == Seq::new(h.ring().counts.0.len(), |i: int| 0u64),
            h.ring().counts.1 == 0,
    {
        let mut samples: Vec<Slot> = Vec::new();
        let mut i: u32 = 0;
        while i < capacity
            invariant
                i <= capacity,
                samples@.len() == i,
            decreases capacity - i,
        {
            samples.push(Slot { value: 0, count: 0, time: 0, decrement: false });
            i = i + 1;
        }
        Circular {
            data: Latched::new(max, precision),
            samples,
            oldest: 0,
            newest: 0,
            used: 0,
            window,
        }
    }

    /// Takes out the slots `start..end` whose time is before `expired`,
    /// stopping at the first that is not; tells whether it stopped early.
    fn expire_slots(&mut self, start: usize, end: usize, expired: u64) -> (stopped: bool)
        requires
            old(self).wf(),
            end <= old(self).ring().slots.len(),
        ensures
            final(self).wf(),
            final(self).m() == old(self).m(),
            final(self).p() == old(self).p(),
            final(self).spec_window() == old(self).spec_window(),
            (final(self).ring(), stopped) == expire_range(
                old(self).p(),
                old(self).m(),
                old(self).ring(),
                start as nat,
                end as nat,
                expired,
            ),
            final(self).ring().slots == old(self).ring().slots,
            final(self).ring().newest == old(self).ring().newest,
    {
        proof {
            lemma_expire_range_keeps(
                old(self).p(),
                old(self).m(),
                old(self).ring(),
                start as nat,
                end as nat,
                expired,
            );
        }
        let ghost p = self.p();
        let ghost m = self.m();
        let ghost goal = expire_range(p, m, self.ring(), start as nat, end as nat, expired);
        let mut i = start;
        while i < end
            invariant
                self.wf(),
                self.p() == p,
                self.m() == m,
                p == old(self).p(),
                m == old(self).m(),
                self.spec_window() == old(self).spec_window(),
                self.ring().slots == old(self).ring().slots,
                self.ring().newest == old(self).ring().newest,
                goal == expire_range(
                    old(self).p(),
                    old(self).m(),
                    old(self).ring(),
                    start as nat,
                    end as nat,
                    expired,
                ),
                end <= self.ring().slots.len(),
                goal == expire_range(p, m, self.ring(), i as nat, end as nat, expired),
            decreases end - i,
        {
            let s = self.samples[i];
            if s.time < expired {
                if s.decrement {
                    self.data.increment(s.value, s.count);
                } else {
                    self.data.decrement(s.value, s.count);
                }
                let len = self.samples.len();
                if self.oldest as usize + 1 >= len {
                    self.oldest = 0;
                } else {
                    self.oldest = self.oldest + 1;
                }
                self.used = self.used.wrapping_sub(1);
            } else {
                return true;
            }
            i = i + 1;
        }
        false
    }

    /// Takes out the slots that expired at `time`: starting from the oldest
    /// and going round the ring to the newest, each slot older than the
    /// window has its change taken back (an addition removed, a removal
    /// added back), until the first that is not.
    pub fn trim(&mut self, time: u64)
        requires
            old(self).wf(),
        ensures
            final(self).wf(),
            final(self).m() == old(self).m(),
            final(self).p() == old(self).p(),
            final(self).spec_window() == old(self).spec_window(),
            final(self).ring() == expire(
                old(self).p(),
                old(self).m(),
                old(self).ring(),
                time,
                old(self).spec_window(),
            ),
            final(self).ring().slots == old(self).ring().slots,
            final(self).ring().newest == old(self).ring().newest,
    {
        proof {
            lemma_expire_keeps(old(self).p(), old(self).m(), old(self).ring(), time, old(self).spec_window());
        }
        let expired = time.saturating_sub(self.window);
        if self.used == 0 {
            return;
        }
        let oldest = self.oldest as usize;
        let newest = self.newest as usize;
        if oldest < newest {
            let _ = self.expire_slots(oldest, newest, expired);
        } else {
            let len = self.samples.len();
            let stopped = self.expire_slots(oldest, len, expired);
            if !stopped {
                let _ = self.expire_slots(0, newest, expired);
            }
        }
    }

    /// Records a change at `time` after taking out the expired slots.
    fn record(&mut self, value: u64, count: u64, time: u64, decrement: bool)
        requires
            old(self).wf(),
            old(self).ring().slots.len() >= 1,
        ensures
            final(self).wf(),
            final(self).m() == old(self).m(),
            final(self).p() == old(self).p(),
            final(self).spec_window() == old(self).spec_window(),
            final(self).ring() == record(
                old(self).p(),
                old(self).m(),
                expire(old(self).p(), old(self).m(), old(self).ring(), time, old(self).spec_window()),
                value,
                count,
                time,
                decrement,
            ),
    {
        self.trim(time);
        if decrement {
            self.data.decrement(value, count);
        } else {
            self.data.increment(value, count);
        }
        let len = self.samples.len();
        if self.used as usize == len {
            let o = self.samples[self.oldest as usize];
            if o.decrement {
                self.data.increment(o.value, o.count);
            } else {
                self.data.decrement(o.value, o.count);
            }
            if self.oldest as usize + 1 >= len {
                self.oldest = 0;
            } else {
                self.oldest = self.oldest + 1;
            }
            self.used = self.used.wrapping_sub(1);
        }
        let slot = Slot { value, count, time, decrement };
        let newest = self.newest as usize;
        if newest >= len - 1 {
            self.newest = 0;
            self.samples.set(0, slot);
        } else {
            self.newest = self.newest + 1;
            self.samples.set(newest, slot);
        }
        self.used = self.used.wrapping_add(1);
    }

    /// Records `count` samples of `value` at `time` nanoseconds.
    pub fn increment_at(&mut self, value: u64, count: u64, time: u64)
        requires
            old(self).wf(),
            old(self).ring().slots.len() >= 1,
        ensures
            final(self).wf(),
            final(self).m() == old(self).m(),
            final(self).p() == old(self).p(),
            final(self).spec_window() == old(self).spec_window(),
            final(self).ring() == record(
                old(self).p(),
                old(self).m(),
                expire(old(self).p(), old(self).m(), old(self).ring(), time, old(self).spec_window()),
                value,
                count,
                time,
                false,
            ),
    {
        self.record(value, count, time, false)
    }

    /// Removes `count` samples of `value` at `time` nanoseconds.
    pub fn decrement_at(&mut self, value: u64, count: u64, time: u64)
        requires
            old(self).wf(),
            old(self).ring().slots.len() >= 1,
        ensures
            final(self).wf(),
            final(self).m() == old(self).m(),
            final(self).p() == old(self).p(),
            final(self).spec_window() == old(self).spec_window(),
            final(self).ring() == record(
                old(self).p(),
                old(self).m(),
                expire(old(self).p(), old(self).m(), old(self).ring(), time, old(self).spec_window()),
                value,
                count,
                time,
                true,
            ),
    {
        self.record(value, count, time, true)
    }

    /// Records `count` samples of `value` now.
    pub fn increment(&mut self, value: u64, count: u64)
        requires
            old(self).wf(),
            old(self).ring().slots.len() >= 1,
        ensures
            final(self).wf(),
            final(self).m() == old(self).m(),
            final(self).p() == old(self).p(),
            final(self).spec_window() == old(self).spec_window(),
            exists|t: u64|
                final(self).ring() == #[trigger] record(
                    old(self).p(),
                    old(self).m(),
                    expire(old(self).p(), old(self).m(), old(self).ring(), t, old(self).spec_window()),
                    value,
                    count,
                    t,
                    false,
                ),
    {
        let time = precise_time_ns();
        self.increment_at(value, count, time)
    }

    /// Removes `count` samples of `value` now.
    pub fn decrement(&mut self, value: u64, count: u64)
        requires
            old(self).wf(),
            old(self).ring().slots.len() >= 1,
        ensures
            final(self).wf(),
            final(self).m() == old(self).m(),
            final(self).p() == old(self).p(),
            final(self).spec_window() == old(self).spec_window(),
            exists|t: u64|
                final(self).ring() == #[trigger] record(
                    old(self).p(),
                    old(self).m(),
                    expire(old(self).p(), old(self).m(), old(self).ring(), t, old(self).spec_window()),
                    value,
                    count,
                    t,
                    true,
                ),
    {
        let time = precise_time_ns();
        self.decrement_at(value, count, time)
    }

    /// Forgets every sample: the counts go to zero and the ring is empty.
    pub fn reset(&mut self)
        requires
            old(self).wf(),
        ensures
            final(self).wf(),
            final(self).m() == old(self).m(),
            final(self).p() == old(self).p(),
            final(self).spec_window() == old(self).spec_window(),
            final(self).ring().counts.0 == Seq::new(old(self).ring().counts.0.len(), |i: int| 0u64),
            final(self).ring().counts.1 == 0,
            final(self).ring().slots == old(self).ring().slots,
            final(self).ring().used == 0,
            final(self).ring().oldest == 0,
            final(self).ring().newest == 0,
    {
        self.data.reset();
        self.used = 0;
        self.oldest = 0;
        self.newest = 0;
    }

    /// Takes out the slots expired now and gives the histogram.
    pub fn current(&mut self) -> (h: &Latched)
        requires
            old(self).wf(),
        ensures
            final(self).wf(),
            *h == final(self).histogram(),
            final(self).m() == old(self).m(),
            final(self).p() == old(self).p(),
            final(self).spec_window() == old(self).spec_window(),
            exists|t: u64|
                final(self).ring() == #[trigger] expire(
                    old(self).p(),
                    old(self).m(),
                    old(self).ring(),
                    t,
                    old(self).spec_window(),
                ),
    {
        let time = precise_time_ns();
        self.trim(time);
        &self.data
    }

    /// The histogram, without taking out expired slots first.
    pub fn latched(&self) -> (h: &Latched)
        ensures
            *h == self.histogram(),
    {
        &self.data
    }

    /// The largest value stored in the buckets.
    pub fn max(&self) -> (r: u64)
        ensures
            r == self.m(),
    {
        self.data.max()
    }

    /// The number of significant digits kept.
    pub fn precision(&self) -> (r: usize)
        ensures
            r == self.p(),
    {
        self.data.precision()
    }

    /// The number of buckets.
    pub fn buckets(&self) -> (r: usize)
        ensures
            r == self.histogram().counts().len(),
    {
        self.data.buckets()
    }

    /// The number of samples counted once the slots expired now are taken
    /// out.
    pub fn samples(&mut self) -> (r: u64)
        requires
            old(self).wf(),
            forall|t: u64|
                crate::moving::total(
                    #[trigger] expire(
                        old(self).p(),
                        old(self).m(),
                        old(self).ring(),
                        t,
                        old(self).spec_window(),
                    ).counts,
                ) <= u64::MAX,
        ensures
            final(self).wf(),
            final(self).m() == old(self).m(),
            final(self).p() == old(self).p(),
            final(self).spec_window() == old(self).spec_window(),
            exists|t: u64|
                final(self).ring() == #[trigger] expire(
                    old(self).p(),
                    old(self).m(),
                    old(self).ring(),
                    t,
                    old(self).spec_window(),
                ),
            r == crate::moving::total(final(self).ring().counts),
    {
        let time = precise_time_ns();
        self.trim(time);
        self.data.samples()
    }

    /// The count of the bucket that holds `value` once the slots expired now
    /// are taken out; zero for values above the maximum.
    pub fn count(&mut self, value: u64) -> (r: u64)
        requires
            old(self).wf(),
            value > old(self).m() || old(self).histogram().slot(value) + 1
                < old(self).histogram().counts().len() || old(self).m() < u64::MAX,
        ensures
            final(self).wf(),
            final(self).m() == old(self).m(),
            final(self).p() == old(self).p(),
            final(self).spec_window() == old(self).spec_window(),
            exists|t: u64|
                final(self).ring() == #[trigger] expire(
                    old(self).p(),
                    old(self).m(),
                    old(self).ring(),
                    t,
                    old(self).spec_window(),
                ),
            r == (if value <= final(self).m() {
                final(self).histogram().counts()[final(self).histogram().slot(value) as int]
            } else {
                0
            }),
    {
        let time = precise_time_ns();
        self.trim(time);
        self.data.count(value)
    }

    /// The number of samples above the maximum once the slots expired now are
    /// taken out.
    pub fn too_high(&mut self) -> (r: u64)
        requires
            old(self).wf(),
        ensures
            final(self).wf(),
            final(self).m() == old(self).m(),
            final(self).p() == old(self).p(),
            final(self).spec_window() == old(self).spec_window(),
            exists|t: u64|
                final(self).ring() == #[trigger] expire(
                    old(self).p(),
                    old(self).m(),
                    old(self).ring(),
                    t,
                    old(self).spec_window(),
                ),
            r == final(self).histogram().spec_too_high(),
    {
        let time = precise_time_ns();
        self.trim(time);
        self.data.too_high()
    }
}

} // verus!
