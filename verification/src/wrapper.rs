//! A container that owns one value and hands out access to it.

use vstd::prelude::*;

verus! {

/// Owns a value of type `T`.
pub struct Wrapper<T> {
    value: T,
}

impl<T> View for Wrapper<T> {
    type V = T;

    closed spec fn view(&self) -> T {
        self.value
    }
}

impl<T> Wrapper<T> {
    /// A wrapper holding `value`.
    pub fn new(value: T) -> (w: Self)
        ensures
            w@ == value,
    {
        Wrapper { value }
    }

    /// The value held.
    pub fn get(&self) -> (v: &T)
        ensures
            *v == self@,
    {
        &self.value
    }

    /// Mutable access to the value held.
    pub fn get_mut(&mut self) -> (v: &mut T)
        ensures
            *v == old(self)@,
            final(self)@ == *final(v),
    {
        &mut self.value
    }
}

} // verus!
