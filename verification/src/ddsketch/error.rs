//! What can go wrong when building or merging a sketch.

use vstd::prelude::*;

verus! {

/// A type that no code outside this library can build, which keeps the
/// error kinds open to new variants.
#[derive(Copy, Clone, Eq, PartialEq, Debug)]
pub struct Empty {
    unconstructible: (),
}

/// The kinds of sketch error.
#[derive(Copy, Clone, Eq, PartialEq, Debug)]
pub enum DDSketchErrorKind {
    /// The relative error bound lies outside `(0, 1)`.
    InvalidAlpha,
    /// The sketch would need too many buckets.
    TooManyBuckets,
    /// Sketches with different numbers of buckets cannot be merged.
    Unmergeable,
    /// Never constructed; reserves room for further variants.
    __Nonexhaustive(Empty),
}

/// A sketch error.
#[derive(Debug)]
pub struct DDSketchError {
    kind: DDSketchErrorKind,
}

impl DDSketchError {
    /// An error of kind `kind`.
    pub fn new(kind: DDSketchErrorKind) -> (e: Self)
        ensures
            e.spec_kind() == kind,
    {
        DDSketchError { kind }
    }

    /// The kind of the error.
    pub fn kind(&self) -> (k: DDSketchErrorKind)
        ensures
            k == self.spec_kind(),
    {
        self.kind
    }

    /// The kind of the error, as contracts see it.
    pub closed spec fn spec_kind(&self) -> DDSketchErrorKind {
        self.kind
    }

    /// A sentence that describes the error.
    pub fn message(&self) -> (m: &'static str)
        ensures
            m@ == match self.spec_kind() {
                DDSketchErrorKind::InvalidAlpha => "Relative error bound outside the range (0, 1)"@,
                DDSketchErrorKind::TooManyBuckets => "DDSketch would use too many buckets"@,
                DDSketchErrorKind::Unmergeable =>
                    "Cannot merge sketches with different numbers of buckets"@,
                DDSketchErrorKind::__Nonexhaustive(_) => ""@,
            },
    {
        match self.kind {
            DDSketchErrorKind::InvalidAlpha => "Relative error bound outside the range (0, 1)",
            DDSketchErrorKind::TooManyBuckets => "DDSketch would use too many buckets",
            DDSketchErrorKind::Unmergeable =>
                "Cannot merge sketches with different numbers of buckets",
            DDSketchErrorKind::__Nonexhaustive(_) => "",
        }
    }
}

} // verus!
