use vstd::prelude::*;

use crate::error::QuadError;

verus! {

/// A shape-agnostic spatial index node over items of type `T`.
///
/// No type in this library implements it; the concrete tree exposes the same
/// operations inherently, with full contracts.
pub trait TreeNode<T> {
    /// A conservative superset of the stored items that could intersect
    /// `item`.
    fn retrieve(&self, item: &T) -> Vec<T>;

    /// Stores `item`, or reports why it cannot be placed.
    fn insert(&mut self, item: T) -> Result<(), QuadError>;
}

} // verus!
