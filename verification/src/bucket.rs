//! A bucket of a simple histogram: a wrapping count of samples and the
//! bounds of the values it stands for.

use vstd::prelude::*;

use crate::counter::{wrap_add, wrap_sub, Counter};

verus! {

/// A count of samples for the values from `min` to `max`; the count wraps
/// around at the ends of the `usize` range.
pub struct Bucket {
    count: Counter,
    min: usize,
    max: usize,
}

impl Bucket {
    /// The count of samples.
    pub closed spec fn spec_count(&self) -> usize {
        self.count@
    }

    /// The lower bound.
    pub closed spec fn spec_min(&self) -> usize {
        self.min
    }

    /// The upper bound.
    pub closed spec fn spec_max(&self) -> usize {
        self.max
    }

    /// An empty bucket for the values from `min` to `max`.
    pub fn new(min: usize, max: usize) -> (b: Self)
        ensures
            b.spec_count() == 0,
            b.spec_min() == min,
            b.spec_max() == max,
    {
        Bucket { count: Counter::default(), min, max }
    }

    /// Adds `count` samples, wrapping above `usize::MAX`.
    pub fn incr(&mut self, count: usize)
        ensures
            final(self).spec_count() == wrap_add(old(self).spec_count(), count),
            final(self).spec_min() == old(self).spec_min(),
            final(self).spec_max() == old(self).spec_max(),
    {
        self.count.incr(count)
    }

    /// Removes `count` samples, wrapping below zero.
    pub fn decr(&mut self, count: usize)
        ensures
            final(self).spec_count() == wrap_sub(old(self).spec_count(), count),
            final(self).spec_min() == old(self).spec_min(),
            final(self).spec_max() == old(self).spec_max(),
    {
        self.count.decr(count)
    }

    /// Sets the count back to zero.
    pub fn clear(&mut self)
        ensures
            final(self).spec_count() == 0,
            final(self).spec_min() == old(self).spec_min(),
            final(self).spec_max() == old(self).spec_max(),
    {
        self.count.clear()
    }

    /// The count of samples.
    pub fn count(&self) -> (r: usize)
        ensures
            r == self.spec_count(),
    {
        self.count.get()
    }

    /// The lower bound.
    pub fn min(&self) -> (r: usize)
        ensures
            r == self.spec_min(),
    {
        self.min
    }

    /// The upper bound.
    pub fn max(&self) -> (r: usize)
        ensures
            r == self.spec_max(),
    {
        self.max
    }

    /// The distance between the bounds.
    pub fn width(&self) -> (r: usize)
        requires
            self.spec_min() <= self.spec_max(),
        ensures
            r == self.spec_max() - self.spec_min(),
    {
        self.max - self.min
    }
}

} // verus!
