//! A boolean flag that can be read and replaced.

use vstd::prelude::*;

use crate::wrapper::Wrapper;

verus! {

/// A boolean flag.
pub struct Bool {
    inner: Wrapper<bool>,
}

impl View for Bool {
    type V = bool;

    closed spec fn view(&self) -> bool {
        self.inner@
    }
}

impl Bool {
    /// A flag holding `value`.
    pub fn new(value: bool) -> (b: Self)
        ensures
            b@ == value,
    {
        Bool { inner: Wrapper::new(value) }
    }

    /// The value the flag holds.
    pub fn get(&self) -> (v: bool)
        ensures
            v == self@,
    {
        *self.inner.get()
    }

    /// Replaces the value the flag holds.
    pub fn set(&mut self, value: bool)
        ensures
            final(self)@ == value,
    {
        let v = self.inner.get_mut();
        *v = value;
    }
}

} // verus!
