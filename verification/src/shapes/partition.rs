use vstd::prelude::*;

use crate::shapes::bounding_box::BoundingBox;

verus! {

/// The capability of a region to be quartered at its midpoint and to
/// classify an item into exactly one quadrant or none.
///
/// This is the abstract contract that decouples the quadtree from a specific
/// shape implementation: any region offering `split` and `get_partition` can
/// drive the tree.
pub trait Partition: BoundingBox {
    /// What `split` returns: the four sub-regions quartering `self`, in the
    /// fixed order top-right, top-left, bottom-left, bottom-right.
    spec fn spec_split(&self) -> Seq<Self>;

    /// What `get_partition` returns: the index of the single quadrant that
    /// fully contains `item`, or `None` if `item` straddles a midline or is
    /// not contained in `self`.
    spec fn spec_classify(&self, item: &Self::T) -> Option<usize>;

    /// Quarters `self` at its midpoint into four sub-regions.
    fn split(&self) -> (quads: Vec<Self>)
        ensures
            quads@ == self.spec_split(),
            quads@.len() == 4,
    ;

    /// Classifies `item` into the one quadrant of `self.split()` that fully
    /// contains it, or `None` when no single quadrant does.
    fn get_partition(&self, item: &Self::T) -> (r: Option<usize>)
        ensures
            r == self.spec_classify(item),
    ;
}

} // verus!
