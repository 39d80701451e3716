use vstd::prelude::*;

use crate::error::QuadError;
use crate::shapes::bounding_box::BoundingBox;

verus! {

/// An alternative node interface for trees whose nodes are themselves
/// bounding shapes.
///
/// No type in this library implements it; the concrete tree exposes the same
/// operations inherently, with full contracts.
pub trait BoundingTreeNode: BoundingBox {
    /// A conservative superset of the stored items that could intersect
    /// `item`.
    fn retrieve(&self, item: &Self::T) -> Vec<Self::T>;

    /// Stores `item`, or reports why it cannot be placed.
    fn insert(&mut self, item: Self::T) -> Result<(), QuadError>;
}

} // verus!
