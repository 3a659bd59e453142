use vstd::prelude::*;

verus! {

/// Addition that wraps around at the end of the `usize` range.
pub open spec fn wrap_add(a: usize, b: usize) -> usize {
    if a + b > usize::MAX {
        (a + b - usize::MAX - 1) as usize
    } else {
        (a + b) as usize
    }
}

/// Subtraction that wraps around at the start of the `usize` range.
pub open spec fn wrap_sub(a: usize, b: usize) -> usize {
    if a < b {
        (a - b + usize::MAX + 1) as usize
    } else {
        (a - b) as usize
    }
}

/// Addition that wraps around at the end of the `u64` range.
pub open spec fn wrap_add_u64(a: u64, b: u64) -> u64 {
    if a + b > u64::MAX {
        (a + b - u64::MAX - 1) as u64
    } else {
        (a + b) as u64
    }
}

/// Subtraction that wraps around at the start of the `u64` range.
pub open spec fn wrap_sub_u64(a: u64, b: u64) -> u64 {
    if a < b {
        (a - b + u64::MAX + 1) as u64
    } else {
        (a - b) as u64
    }
}

/// A simple counter which wraps on overflow and underflow.
pub struct Counter {
    value: usize,
}

impl View for Counter {
    type V = usize;

    closed spec fn view(&self) -> usize {
        self.value
    }
}

impl Default for Counter {
    fn default() -> (c: Self)
        ensures
            c@ == 0,
    {
        Counter::new(0)
    }
}

impl Counter {
    /// Create a new counter holding `value`.
    pub fn new(value: usize) -> (c: Self)
        ensures
            c@ == value,
    {
        Counter { value }
    }

    /// Clear the counter by resetting the value to zero.
    pub fn clear(&mut self)
        ensures
            final(self)@ == 0,
    {
        self.set(0);
    }

    /// Return the count stored in the counter.
    pub fn get(&self) -> (v: usize)
        ensures
            v == self@,
    {
        self.value
    }

    /// Decrement the counter by `count`, wrapping below zero.
    pub fn decr(&mut self, count: usize)
        ensures
            final(self)@ == wrap_sub(old(self)@, count),
    {
        self.value = self.value.wrapping_sub(count);
    }

    /// Increment the counter by `count`, wrapping above `usize::MAX`.
    pub fn incr(&mut self, count: usize)
        ensures
            final(self)@ == wrap_add(old(self)@, count),
    {
        self.value = self.value.wrapping_add(count);
    }

    /// Store `count` as the new value.
    pub fn set(&mut self, count: usize)
        ensures
            final(self)@ == count,
    {
        self.value = count;
    }

    /// Subtract `count` unless that would go below zero, in which case the
    /// counter is left unchanged and an error is returned.
    pub fn saturating_sub(&mut self, count: usize) -> (r: Result<(), ()>)
        ensures
            r is Ok <==> count <= old(self)@,
            r is Ok ==> final(self)@ == old(self)@ - count,
            r is Err ==> final(self)@ == old(self)@,
    {
        let current = self.get();
        if count > current {
            return Err(());
        }
        self.value = current - count;
        Ok(())
    }
}

} // verus!
