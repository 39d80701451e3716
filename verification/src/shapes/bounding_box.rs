use vstd::prelude::*;

verus! {

/// The capability of an axis-aligned shape to test overlap and containment
/// against an item shape `Self::T`.
///
/// `spec_intersects` and `spec_includes` are the mathematical meaning of the
/// two executable tests; every implementation must return exactly them.
pub trait BoundingBox: Sized + Clone {
    /// The item shape this bounding shape is tested against.
    type T;

    /// What `intersects` returns: whether the open interiors overlap.
    spec fn spec_intersects(&self, other: &Self::T) -> bool;

    /// What `includes` returns: whether `other` lies strictly inside `self`.
    spec fn spec_includes(&self, other: &Self::T) -> bool;

    /// True iff the open interiors of `self` and `bounds` overlap on both
    /// axes; shapes sharing only an edge do not intersect.
    fn intersects(&self, bounds: &Self::T) -> (r: bool)
        ensures
            r == self.spec_intersects(bounds),
    ;

    /// True iff `bounds` lies strictly inside `self` on all four boundary
    /// comparisons; edge-touching containment is false.
    fn includes(&self, bounds: &Self::T) -> (r: bool)
        ensures
            r == self.spec_includes(bounds),
    ;
}

} // verus!
