//! Key-value metadata attached to a metric.

use vstd::prelude::*;

use crate::text::str_eq;

verus! {

/// The value of the first attribute whose key is `key`, if any.
pub open spec fn lookup(attrs: Seq<(&'static str, &'static str)>, key: Seq<char>) -> Option<
    &'static str,
>
    decreases attrs.len(),
{
    if attrs.len() == 0 {
        None
    } else if attrs[0].0@ == key {
        Some(attrs[0].1)
    } else {
        lookup(attrs.drop_first(), key)
    }
}

/// Metadata: a fixed list of key-value attributes.
#[derive(Copy, Clone, Debug, PartialEq, Eq)]
pub struct Metadata {
    attributes: &'static [(&'static str, &'static str)],
}

impl View for Metadata {
    type V = Seq<(&'static str, &'static str)>;

    closed spec fn view(&self) -> Seq<(&'static str, &'static str)> {
        self.attributes@
    }
}

impl Metadata {
    /// Metadata holding `attributes`.
    pub(crate) fn new(attributes: &'static [(&'static str, &'static str)]) -> (m: Self)
        ensures
            m@ == attributes@,
    {
        Metadata { attributes }
    }

    /// The key-value pairs, in order.
    pub fn iter(&self) -> (r: Vec<(&'static str, &'static str)>)
        ensures
            r@ == self@,
    {
        let mut r: Vec<(&'static str, &'static str)> = Vec::new();
        let mut i: usize = 0;
        while i < self.attributes.len()
            invariant
                i <= self@.len(),
                r@ == self@.take(i as int),
            decreases self@.len() - i,
        {
            r.push(self.attributes[i]);
            assert(self@.take(i + 1) =~= self@.take(i as int).push(self@[i as int]));
            i = i + 1;
        }
        assert(self@.take(self@.len() as int) =~= self@);
        r
    }

    /// The value of the first attribute whose key is `val`, or `None`.
    pub fn get(&self, val: &str) -> (r: Option<&'static str>)
        ensures
            r == lookup(self@, val@),
    {
        let mut i: usize = 0;
        assert(self@.skip(0) =~= self@);
        while i < self.attributes.len()
            invariant
                i <= self@.len(),
                lookup(self@, val@) == lookup(self@.skip(i as int), val@),
            decreases self@.len() - i,
        {
            let (k, v) = self.attributes[i];
            assert(self@.skip(i as int).drop_first() =~= self@.skip(i + 1));
            if str_eq(k, val) {
                return Some(v);
            }
            i = i + 1;
        }
        None
    }

    /// Metadata without attributes.
    pub fn empty() -> (m: Self)
        ensures
            m@ == Seq::<(&'static str, &'static str)>::empty(),
    {
        let attributes: &'static [(&'static str, &'static str)] = &[];
        Metadata { attributes }
    }
}

impl<'a> core::ops::Index<&'a str> for Metadata {
    type Output = str;

    /// The value of the first attribute whose key is `key`; the key must be
    /// present.
    fn index(&self, key: &'a str) -> (r: &str)
        ensures
            lookup(self@, key@) == Some(r),
    {
        match self.get(key) {
            Some(x) => x,
            None => {
                proof {
                    assert(false);
                }
                ""
            },
        }
    }
}

impl<'a> vstd::std_specs::core::IndexSpecImpl<&'a str> for Metadata {
    open spec fn index_req(&self, key: &&'a str) -> bool {
        lookup(self@, key@) is Some
    }
}

impl Default for Metadata {
    fn default() -> (m: Self)
        ensures
            m@ == Seq::<(&'static str, &'static str)>::empty(),
    {
        Metadata::empty()
    }
}

/// Metadata holding `attributes`.
pub fn create_metadata(attributes: &'static [(&'static str, &'static str)]) -> (m: Metadata)
    ensures
        m@ == attributes@,
{
    Metadata::new(attributes)
}

} // verus!
