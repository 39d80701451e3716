use vstd::prelude::*;

use crate::error::QuadError;
use crate::shapes::bounding_box::BoundingBox;
use crate::shapes::rectangle::Rectangle;
use crate::tree::quad_node::QuadNode;

verus! {

/// The root wrapper of the quadtree: it owns the root node, whose region is
/// the tree's fixed overall bounds. The tree is built once with fixed
/// bounds and never resizes them; every accepted item lies within them.
pub struct QuadTree {
    root: QuadNode,
}

impl QuadTree {
    /// The tree invariant: the root subtree satisfies the node invariant.
    pub closed spec fn inv(self) -> bool {
        self.root.inv()
    }

    /// The tree's fixed overall bounds.
    pub closed spec fn spec_bounds(self) -> Rectangle {
        self.root.spec_bounds()
    }

    /// Every item stored in the tree.
    pub closed spec fn spec_items(self) -> Seq<Rectangle> {
        self.root.spec_items()
    }

    /// The exact candidate sequence `retrieve` returns for query `q`.
    pub closed spec fn spec_candidates(self, q: Rectangle) -> Seq<Rectangle> {
        self.root.spec_candidates(q)
    }

    /// Builds a tree over the given fixed bounds, with an empty root leaf
    /// at depth 0.
    pub fn new(bounds: Rectangle) -> (tree: QuadTree)
        ensures
            tree.spec_bounds() == bounds,
            tree.spec_items() =~= Seq::<Rectangle>::empty(),
            bounds.wf() ==> tree.inv(),
    {
        QuadTree { root: QuadNode::new(0, bounds) }
    }

    /// Stores `item` if the tree's overall bounds include it, and rejects
    /// it with `OutOfBounds` otherwise, leaving the tree unmodified on
    /// failure.
    pub fn insert(&mut self, item: Rectangle) -> (r: Result<(), QuadError>)
        requires
            old(self).inv(),
        ensures
            final(self).inv(),
            final(self).spec_bounds() == old(self).spec_bounds(),
            r is Ok <==> old(self).spec_bounds().spec_includes(&item),
            r is Err ==> r == Result::<(), QuadError>::Err(QuadError::OutOfBounds) && *final(self)
                == *old(self),
            r is Ok ==> final(self).spec_items().to_multiset() == old(
                self,
            ).spec_items().to_multiset().insert(item),
    {
        if !self.includes(&item) {
            return Err(QuadError::OutOfBounds);
        }
        proof {
            crate::shapes::rectangle::lemma_includes_fits(self.spec_bounds(), item);
        }
        self.root.insert(item)
    }

    /// Collects a conservative superset of the stored items that could
    /// intersect `item`: every truly intersecting stored item is returned,
    /// possibly along with non-intersecting extras, and nothing that is not
    /// stored. Callers must re-filter the candidates with a precise
    /// `intersects` test. Never fails.
    pub fn retrieve(&self, item: &Rectangle) -> (found: Vec<Rectangle>)
        requires
            self.inv(),
        ensures
            found@ == self.spec_candidates(*item),
            forall|x: Rectangle| #[trigger] found@.contains(x) ==> self.spec_items().contains(x),
            forall|x: Rectangle|
                #[trigger] self.spec_items().contains(x) && item.spec_intersects(&x)
                    ==> found@.contains(x),
    {
        self.root.retrieve(item)
    }
}

/// The candidates for any query are drawn from storage without
/// duplication: counted with multiplicity, they are a sub-multiset of the
/// tree's stored items.
pub proof fn lemma_candidates_within(tree: QuadTree, q: Rectangle)
    ensures
        tree.spec_candidates(q).to_multiset().subset_of(tree.spec_items().to_multiset()),
{
    crate::tree::quad_node::lemma_candidates_within(tree.root, q);
}

/// The tree's data-model invariant, as a consequence of the structural one:
/// every accepted item lies within the overall bounds, in the half-open
/// sense used to file items under regions.
pub proof fn lemma_items_within_bounds(tree: QuadTree)
    requires
        tree.inv(),
    ensures
        forall|x: Rectangle| #[trigger] tree.spec_items().contains(x)
            ==> crate::shapes::rectangle::spec_fits(x, tree.spec_bounds()),
{
    crate::tree::quad_node::lemma_all_items_fit(tree.root);
}

impl Clone for QuadTree {
    /// A deep copy: the clone stores the same items over the same bounds.
    fn clone(&self) -> (res: Self)
        ensures
            res.spec_items() == self.spec_items(),
            res.spec_bounds() == self.spec_bounds(),
            res.inv() <==> self.inv(),
    {
        QuadTree { root: self.root.clone() }
    }
}

impl BoundingBox for QuadTree {
    type T = Rectangle;

    open spec fn spec_intersects(&self, other: &Rectangle) -> bool {
        self.spec_bounds().spec_intersects(other)
    }

    open spec fn spec_includes(&self, other: &Rectangle) -> bool {
        self.spec_bounds().spec_includes(other)
    }

    fn intersects(&self, bounds: &Rectangle) -> bool {
        self.root.intersects(bounds)
    }

    fn includes(&self, bounds: &Rectangle) -> bool {
        self.root.includes(bounds)
    }
}

} // verus!
