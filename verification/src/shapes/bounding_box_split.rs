use vstd::prelude::*;

use crate::error::QuadError;
use crate::shapes::bounding_box::BoundingBox;

verus! {

/// An alternative splitting interface in which classification failure is
/// reported as an error value rather than an `Option`.
///
/// No shape in this library implements it; it is offered for callers who
/// prefer an error-propagating style.
pub trait BoundingBoxSplit: BoundingBox {
    /// Quarters `self` into sub-regions.
    fn split(&self) -> Vec<Self>;

    /// The index of the quadrant containing `item`, or an error when no
    /// single quadrant does.
    fn get_bounds(&self, item: &Self::T) -> Result<usize, QuadError>;
}

} // verus!
