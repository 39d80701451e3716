use vstd::prelude::*;

use crate::error::QuadError;
use crate::shapes::bounding_box::BoundingBox;
use crate::shapes::partition::Partition;
use crate::shapes::rectangle::Rectangle;
use crate::shapes::rectangle::spec_fits;

verus! {

broadcast use
    vstd::seq_lib::lemma_multiset_commutative,
    vstd::seq_lib::group_to_multiset_ensures,
    vstd::multiset::group_multiset_axioms,
    vstd::seq_lib::lemma_seq_concat_contains_all_elements;

/// A node splits once its direct item count exceeds this capacity.
pub const MAX_ITEMS: usize = 20;

/// The items of `items` that classify into no single quadrant of `region`
/// (straddlers), in their original order: what a capacity split leaves in
/// the node's own list.
pub open spec fn spec_straddlers(region: Rectangle, items: Seq<Rectangle>) -> Seq<Rectangle> {
    items.filter(|x: Rectangle| region.spec_classify(&x) is None)
}

/// The items of `items` that classify into quadrant `i` of `region`, in
/// their original order: what a capacity split files under child `i`.
pub open spec fn spec_filed_to(region: Rectangle, items: Seq<Rectangle>, i: int) -> Seq<Rectangle> {
    items.filter(|x: Rectangle| region.spec_classify(&x) == Some(i as usize))
}

/// The depth of a node's children: one deeper, stopping at the type's
/// limit rather than wrapping.
pub open spec fn spec_next_level(level: u16) -> u16 {
    if level < u16::MAX {
        (level + 1) as u16
    } else {
        u16::MAX
    }
}

/// The four children of an internal node, one per quadrant, in the fixed
/// split order: top-right, top-left, bottom-left, bottom-right.
struct Children {
    ne: QuadNode,
    nw: QuadNode,
    sw: QuadNode,
    se: QuadNode,
}

/// The recursive structural unit of the quadtree: a region of coverage, an
/// ordered list of items held directly (straddlers, or pre-split overflow),
/// and an optional fixed set of 4 children, present iff the node has split.
pub struct QuadNode {
    level: u16,
    bounds: Rectangle,
    items: Vec<Rectangle>,
    nodes: Option<Box<Children>>,
}

impl QuadNode {
    /// The region this node covers.
    pub closed spec fn spec_bounds(self) -> Rectangle {
        self.bounds
    }

    /// The node's depth below the root, informational only.
    pub closed spec fn spec_level(self) -> u16 {
        self.level
    }

    /// Whether the node has split: internal nodes have 4 children, leaves
    /// none.
    pub closed spec fn spec_is_internal(self) -> bool {
        self.nodes is Some
    }

    /// The items this node holds directly, not those of its descendants.
    pub closed spec fn spec_direct_items(self) -> Seq<Rectangle> {
        self.items@
    }

    /// Every item stored in this node's subtree: the four child subtrees in
    /// quadrant order, then the node's own list.
    pub closed spec fn spec_items(self) -> Seq<Rectangle>
        decreases self,
    {
        match self.nodes {
            Some(ch) => ch.ne.spec_items() + ch.nw.spec_items() + ch.sw.spec_items()
                + ch.se.spec_items() + self.items@,
            None => self.items@,
        }
    }

    /// The structural invariant: the region is well-formed, every directly
    /// held item fits it, once the node has split its own list holds only
    /// items that fail to classify into a single child, and each child
    /// covers exactly one quadrant of the region and satisfies the same
    /// invariant.
    pub closed spec fn inv(self) -> bool
        decreases self,
    {
        &&& self.bounds.wf()
        &&& (forall|i: int|
            0 <= i < self.items@.len() ==> spec_fits(#[trigger] self.items@[i], self.bounds))
        &&& match self.nodes {
            Some(ch) => {
                &&& (forall|i: int|
                    0 <= i < self.items@.len() ==> self.bounds.spec_classify(
                        &(#[trigger] self.items@[i]),
                    ) is None)
                &&& ch.ne.bounds == self.bounds.spec_split()[0]
                &&& ch.nw.bounds == self.bounds.spec_split()[1]
                &&& ch.sw.bounds == self.bounds.spec_split()[2]
                &&& ch.se.bounds == self.bounds.spec_split()[3]
                &&& ch.ne.inv()
                &&& ch.nw.inv()
                &&& ch.sw.inv()
                &&& ch.se.inv()
            },
            None => true,
        }
    }

    /// The child covering quadrant `i` of an internal node; meaningful only
    /// when the node is internal and `0 <= i < 4`.
    pub closed spec fn spec_child(self, i: int) -> QuadNode {
        match self.nodes {
            Some(ch) => if i == 0 {
                ch.ne
            } else if i == 1 {
                ch.nw
            } else if i == 2 {
                ch.sw
            } else {
                ch.se
            },
            None => self,
        }
    }

    /// What `size` reports: the node's direct item count plus the direct
    /// item counts of its immediate children, without deeper descendants.
    pub closed spec fn spec_shallow_count(self) -> int {
        self.items@.len() as int + (match self.nodes {
            Some(ch) => ch.ne.items@.len() as int + ch.nw.items@.len() as int
                + ch.sw.items@.len() as int + ch.se.items@.len() as int,
            None => 0int,
        })
    }

    /// The exact candidate sequence `retrieve` returns for query `q`: at an
    /// internal node, the matching child's candidates when `q` classifies
    /// to a single quadrant, or every descendant's items when it does not,
    /// followed in either case by the node's own list; at a leaf, the own
    /// list alone.
    pub closed spec fn spec_candidates(self, q: Rectangle) -> Seq<Rectangle>
        decreases self,
    {
        match self.nodes {
            Some(ch) => (match self.bounds.spec_classify(&q) {
                Some(i) => if i == 0 {
                    ch.ne.spec_candidates(q)
                } else if i == 1 {
                    ch.nw.spec_candidates(q)
                } else if i == 2 {
                    ch.sw.spec_candidates(q)
                } else {
                    ch.se.spec_candidates(q)
                },
                None => ch.ne.spec_items() + ch.nw.spec_items() + ch.sw.spec_items()
                    + ch.se.spec_items(),
            }) + self.items@,
            None => self.items@,
        }
    }

    /// Whether two nodes carry the same content: equal region, depth and
    /// direct items at every position of both subtrees.
    pub closed spec fn spec_same_content(self, o: QuadNode) -> bool
        decreases self,
    {
        &&& self.bounds == o.bounds
        &&& self.level == o.level
        &&& self.items@ == o.items@
        &&& match (self.nodes, o.nodes) {
            (None, None) => true,
            (Some(a), Some(b)) => {
                &&& a.ne.spec_same_content(b.ne)
                &&& a.nw.spec_same_content(b.nw)
                &&& a.sw.spec_same_content(b.sw)
                &&& a.se.spec_same_content(b.se)
            },
            _ => false,
        }
    }

    /// How a cleared node relates to its pre-clear value: every item list in
    /// the subtree is empty, while region, depth and leaf/internal shape are
    /// unchanged at every node.
    pub closed spec fn spec_cleared_from(self, o: QuadNode) -> bool
        decreases self,
    {
        &&& self.bounds == o.bounds
        &&& self.level == o.level
        &&& self.items@.len() == 0
        &&& match (self.nodes, o.nodes) {
            (None, None) => true,
            (Some(a), Some(b)) => {
                &&& a.ne.spec_cleared_from(b.ne)
                &&& a.nw.spec_cleared_from(b.nw)
                &&& a.sw.spec_cleared_from(b.sw)
                &&& a.se.spec_cleared_from(b.se)
            },
            _ => false,
        }
    }

    /// Builds a leaf node covering `bounds` at the given depth, holding
    /// nothing.
    pub fn new(level: u16, bounds: Rectangle) -> (n: QuadNode)
        ensures
            n.spec_bounds() == bounds,
            n.spec_level() == level,
            !n.spec_is_internal(),
            n.spec_items() =~= Seq::<Rectangle>::empty(),
            n.spec_direct_items() =~= Seq::<Rectangle>::empty(),
            bounds.wf() ==> n.inv(),
    {
        QuadNode { level, bounds, items: Vec::new(), nodes: None }
    }

    /// Whether the node has split into four children.
    pub fn is_internal(&self) -> (r: bool)
        ensures
            r == self.spec_is_internal(),
    {
        self.nodes.is_some()
    }

    /// How many items the node holds directly.
    pub fn direct_len(&self) -> (n: usize)
        ensures
            n == self.spec_direct_items().len(),
    {
        self.items.len()
    }

    /// How many items the child at quadrant `index` holds directly, or
    /// `None` when the node is a leaf or the index is out of range.
    pub fn child_direct_len(&self, index: usize) -> (r: Option<usize>)
        ensures
            self.spec_is_internal() && index < 4 ==> r == Some(
                self.spec_child(index as int).spec_direct_items().len() as usize,
            ),
            !(self.spec_is_internal() && index < 4) ==> r is None,
    {
        match &self.nodes {
            Some(ch) => {
                if index == 0 {
                    Some(ch.ne.items.len())
                } else if index == 1 {
                    Some(ch.nw.items.len())
                } else if index == 2 {
                    Some(ch.sw.items.len())
                } else if index == 3 {
                    Some(ch.se.items.len())
                } else {
                    None
                }
            },
            None => None,
        }
    }

    /// The node's direct item count plus its immediate children's direct
    /// item counts, saturating at the machine limit.
    pub fn size(&self) -> (total: usize)
        ensures
            total == if self.spec_shallow_count() <= usize::MAX {
                self.spec_shallow_count()
            } else {
                usize::MAX as int
            },
    {
        match &self.nodes {
            Some(ch) => {
                let mut total = self.items.len();
                total = sat_add(total, ch.ne.items.len());
                total = sat_add(total, ch.nw.items.len());
                total = sat_add(total, ch.sw.items.len());
                total = sat_add(total, ch.se.items.len());
                total
            },
            None => self.items.len(),
        }
    }

    /// Quarters a leaf node: creates 4 children one level deeper over the
    /// region's split, moves each directly held item that classifies to a
    /// single quadrant into that child, and keeps the straddlers. Runs
    /// exactly once per node, when its capacity is first exceeded.
    fn split(&mut self)
        requires
            old(self).inv(),
            !old(self).spec_is_internal(),
        ensures
            final(self).inv(),
            final(self).spec_is_internal(),
            final(self).spec_items().to_multiset() == old(self).spec_items().to_multiset(),
            final(self).spec_bounds() == old(self).spec_bounds(),
            final(self).spec_level() == old(self).spec_level(),
            final(self).spec_direct_items() == spec_straddlers(
                old(self).spec_bounds(),
                old(self).spec_direct_items(),
            ),
            forall|i: int|
                0 <= i < 4 ==> (#[trigger] final(self).spec_child(i)).spec_direct_items()
                    == spec_filed_to(old(self).spec_bounds(), old(self).spec_direct_items(), i),
            forall|i: int|
                0 <= i < 4 ==> {
                    let child = #[trigger] final(self).spec_child(i);
                    &&& !child.spec_is_internal()
                    &&& child.spec_level() == spec_next_level(old(self).spec_level())
                    &&& child.spec_bounds() == old(self).spec_bounds().spec_split()[i]
                },
    {
        proof {
            crate::shapes::rectangle::lemma_split_tiles(self.bounds);
        }
        let level = if self.level < u16::MAX {
            self.level + 1
        } else {
            u16::MAX
        };
        let quads = self.bounds.split();
        let mut ne = QuadNode::new(level, quads[0]);
        let mut nw = QuadNode::new(level, quads[1]);
        let mut sw = QuadNode::new(level, quads[2]);
        let mut se = QuadNode::new(level, quads[3]);
        let mut remaining: Vec<Rectangle> = Vec::new();
        let ghost orig = self.items@;
        proof {
            lemma_filing_empty(self.bounds);
            assert(orig.take(0) =~= Seq::<Rectangle>::empty());
        }
        let n = self.items.len();
        let mut i: usize = 0;
        while i < n
            invariant
                *self == *old(self),
                old(self).inv(),
                !old(self).spec_is_internal(),
                n == orig.len(),
                orig == self.items@,
                i <= n,
                ne.bounds == self.bounds.spec_split()[0],
                nw.bounds == self.bounds.spec_split()[1],
                sw.bounds == self.bounds.spec_split()[2],
                se.bounds == self.bounds.spec_split()[3],
                ne.nodes is None && nw.nodes is None && sw.nodes is None && se.nodes is None,
                ne.level == level && nw.level == level && sw.level == level && se.level == level,
                ne.inv() && nw.inv() && sw.inv() && se.inv(),
                forall|k: int|
                    0 <= k < remaining@.len() ==> spec_fits(#[trigger] remaining@[k], self.bounds),
                forall|k: int|
                    0 <= k < remaining@.len() ==> self.bounds.spec_classify(
                        &(#[trigger] remaining@[k]),
                    ) is None,
                ne.items@ == spec_filed_to(self.bounds, orig.take(i as int), 0),
                nw.items@ == spec_filed_to(self.bounds, orig.take(i as int), 1),
                sw.items@ == spec_filed_to(self.bounds, orig.take(i as int), 2),
                se.items@ == spec_filed_to(self.bounds, orig.take(i as int), 3),
                remaining@ == spec_straddlers(self.bounds, orig.take(i as int)),
                orig.take(i as int).to_multiset() == ne.items@.to_multiset().add(
                    nw.items@.to_multiset(),
                ).add(sw.items@.to_multiset()).add(se.items@.to_multiset()).add(
                    remaining@.to_multiset(),
                ),
            decreases n - i,
        {
            let it = self.items[i];
            proof {
                assert(orig.take(i + 1) =~= orig.take(i as int).push(orig[i as int]));
            }
            match self.bounds.get_partition(&it) {
                Some(index) => {
                    proof {
                        crate::shapes::rectangle::lemma_classify_fits(self.bounds, it);
                    }
                    if index == 0 {
                        ne.items.push(it);
                    } else if index == 1 {
                        nw.items.push(it);
                    } else if index == 2 {
                        sw.items.push(it);
                    } else {
                        se.items.push(it);
                    }
                },
                None => {
                    remaining.push(it);
                },
            }
            i = i + 1;
            proof {
                lemma_filing_step(self.bounds, orig.take(i - 1), it);
                assert(orig.take(i as int) =~= orig.take(i - 1).push(it));
                assert(orig.take(i as int).to_multiset() =~= ne.items@.to_multiset().add(
                    nw.items@.to_multiset(),
                ).add(sw.items@.to_multiset()).add(se.items@.to_multiset()).add(
                    remaining@.to_multiset(),
                ));
            }
        }
        self.items = remaining;
        self.nodes = Some(Box::new(Children { ne, nw, sw, se }));
        proof {
            assert(orig.take(n as int) =~= orig);
            let ch = self.nodes->Some_0;
            let own = self.items@;
            assert(ch.ne.spec_items() == ch.ne.items@);
            assert(ch.nw.spec_items() == ch.nw.items@);
            assert(ch.sw.spec_items() == ch.sw.items@);
            assert(ch.se.spec_items() == ch.se.items@);
            vstd::seq_lib::lemma_multiset_commutative(ch.ne.items@, ch.nw.items@);
            vstd::seq_lib::lemma_multiset_commutative(ch.ne.items@ + ch.nw.items@, ch.sw.items@);
            vstd::seq_lib::lemma_multiset_commutative(
                ch.ne.items@ + ch.nw.items@ + ch.sw.items@,
                ch.se.items@,
            );
            vstd::seq_lib::lemma_multiset_commutative(
                ch.ne.items@ + ch.nw.items@ + ch.sw.items@ + ch.se.items@,
                own,
            );
            assert(self.spec_items() == ch.ne.items@ + ch.nw.items@ + ch.sw.items@ + ch.se.items@
                + own);
            assert(self.spec_items().to_multiset() =~= old(self).spec_items().to_multiset());
            assert(self.spec_child(0) == ch.ne && self.spec_child(1) == ch.nw && self.spec_child(2)
                == ch.sw && self.spec_child(3) == ch.se);
            assert(level == spec_next_level(old(self).spec_level()));
        }
    }

    /// Stores `item` in the subtree. An internal node files it under the
    /// single child quadrant that fully contains it, or keeps it directly
    /// when it straddles a midline, touching no sibling; a leaf appends it
    /// directly, and splits exactly when its capacity is exceeded. Never
    /// fails, never disturbs any item already stored, and never reverts an
    /// internal node to a leaf.
    pub fn insert(&mut self, item: Rectangle) -> (r: Result<(), QuadError>)
        requires
            old(self).inv(),
            spec_fits(item, old(self).spec_bounds()),
        ensures
            final(self).inv(),
            r is Ok,
            final(self).spec_items().to_multiset() == old(self).spec_items().to_multiset().insert(
                item,
            ),
            final(self).spec_bounds() == old(self).spec_bounds(),
            final(self).spec_level() == old(self).spec_level(),
            old(self).spec_is_internal() ==> final(self).spec_is_internal(),
            old(self).spec_is_internal() && old(self).spec_bounds().spec_classify(&item) is Some
                ==> {
                let i = old(self).spec_bounds().spec_classify(&item)->Some_0 as int;
                &&& final(self).spec_direct_items() == old(self).spec_direct_items()
                &&& (forall|j: int|
                    0 <= j < 4 && j != i ==> #[trigger] final(self).spec_child(j) == old(
                        self,
                    ).spec_child(j))
                &&& final(self).spec_child(i).spec_items().to_multiset() == old(self).spec_child(
                    i,
                ).spec_items().to_multiset().insert(item)
            },
            old(self).spec_is_internal() && old(self).spec_bounds().spec_classify(&item) is None
                ==> {
                &&& final(self).spec_direct_items() == old(self).spec_direct_items().push(item)
                &&& (forall|j: int|
                    0 <= j < 4 ==> #[trigger] final(self).spec_child(j) == old(self).spec_child(j))
            },
            !old(self).spec_is_internal() && old(self).spec_direct_items().len() < MAX_ITEMS ==> {
                &&& !final(self).spec_is_internal()
                &&& final(self).spec_direct_items() == old(self).spec_direct_items().push(item)
            },
            !old(self).spec_is_internal() && old(self).spec_direct_items().len() >= MAX_ITEMS
                ==> {
                let filled = old(self).spec_direct_items().push(item);
                &&& final(self).spec_is_internal()
                &&& final(self).spec_direct_items() == spec_straddlers(
                    old(self).spec_bounds(),
                    filled,
                )
                &&& (forall|i: int|
                    0 <= i < 4 ==> (#[trigger] final(self).spec_child(i)).spec_direct_items()
                        == spec_filed_to(old(self).spec_bounds(), filled, i))
                &&& (forall|i: int|
                    0 <= i < 4 ==> !(#[trigger] final(self).spec_child(i)).spec_is_internal()
                        && final(self).spec_child(i).spec_level() == spec_next_level(
                        old(self).spec_level(),
                    ))
            },
        decreases *old(self),
    {
        match self.nodes.take() {
            Some(mut ch) => {
                let result = match self.bounds.get_partition(&item) {
                    Some(index) => {
                        proof {
                            crate::shapes::rectangle::lemma_classify_fits(self.bounds, item);
                        }
                        if index == 0 {
                            ch.ne.insert(item)
                        } else if index == 1 {
                            ch.nw.insert(item)
                        } else if index == 2 {
                            ch.sw.insert(item)
                        } else {
                            ch.se.insert(item)
                        }
                    },
                    None => {
                        self.items.push(item);
                        Ok(())
                    },
                };
                self.nodes = Some(ch);
                proof {
                    assert(self.spec_items().to_multiset() =~= old(
                        self,
                    ).spec_items().to_multiset().insert(item));
                }
                result
            },
            None => {
                self.items.push(item);
                proof {
                    assert(self.spec_items().to_multiset() =~= old(
                        self,
                    ).spec_items().to_multiset().insert(item));
                }
                if self.items.len() > MAX_ITEMS {
                    self.split();
                }
                Ok(())
            },
        }
    }

    /// Empties the item list of this node and of every descendant, while
    /// keeping the tree shape: no child is discarded and no internal node
    /// reverts to a leaf.
    pub fn clear(&mut self)
        ensures
            final(self).spec_cleared_from(*old(self)),
            final(self).spec_items() =~= Seq::<Rectangle>::empty(),
            final(self).spec_bounds() == old(self).spec_bounds(),
            final(self).spec_level() == old(self).spec_level(),
            final(self).spec_is_internal() == old(self).spec_is_internal(),
            old(self).inv() ==> final(self).inv(),
        decreases *old(self),
    {
        self.items.clear();
        match self.nodes.take() {
            Some(mut ch) => {
                ch.ne.clear();
                ch.nw.clear();
                ch.sw.clear();
                ch.se.clear();
                self.nodes = Some(ch);
            },
            None => {},
        }
    }

    /// Collects a conservative superset of the stored items that could
    /// intersect `item`: every truly intersecting stored item is returned
    /// (no false negatives), possibly along with non-intersecting extras,
    /// and nothing that is not stored. Callers must re-filter the
    /// candidates with a precise `intersects` test; `retrieve` itself never
    /// filters by true overlap.
    ///
    /// This node's own list is always included. When `item` classifies to a
    /// single quadrant, only that child is visited — safe because items
    /// filed under the other quadrants cannot intersect `item`; otherwise
    /// every descendant's items are collected.
    pub fn retrieve(&self, item: &Rectangle) -> (found: Vec<Rectangle>)
        requires
            self.inv(),
        ensures
            found@ == self.spec_candidates(*item),
            forall|x: Rectangle| #[trigger] found@.contains(x) ==> self.spec_items().contains(x),
            forall|x: Rectangle|
                #[trigger] self.spec_items().contains(x) && item.spec_intersects(&x)
                    ==> found@.contains(x),
        decreases self,
    {
        let mut accumulator: Vec<Rectangle> = Vec::new();
        match &self.nodes {
            Some(ch) => {
                match self.bounds.get_partition(item) {
                    Some(index) => {
                        proof {
                            crate::shapes::rectangle::lemma_classify_fits(self.bounds, *item);
                            lemma_all_items_fit(ch.ne);
                            lemma_all_items_fit(ch.nw);
                            lemma_all_items_fit(ch.sw);
                            lemma_all_items_fit(ch.se);
                        }
                        let mut sub = if index == 0 {
                            ch.ne.retrieve(item)
                        } else if index == 1 {
                            ch.nw.retrieve(item)
                        } else if index == 2 {
                            ch.sw.retrieve(item)
                        } else {
                            ch.se.retrieve(item)
                        };
                        let ghost subview = sub@;
                        accumulator.append(&mut sub);
                        proof {
                            assert(accumulator@ =~= subview);
                            assert forall|x: Rectangle| #[trigger]
                                self.spec_items().contains(x) && item.spec_intersects(
                                    &x,
                                ) implies accumulator@.contains(x) || self.items@.contains(x) by {
                                let sne = ch.ne.spec_items();
                                let snw = ch.nw.spec_items();
                                let ssw = ch.sw.spec_items();
                                let sse = ch.se.spec_items();
                                let sown = self.items@;
                                assert(self.spec_items() == sne + snw + ssw + sse + sown);
                                vstd::seq_lib::lemma_seq_concat_contains_all_elements(
                                    sne + snw + ssw + sse,
                                    sown,
                                    x,
                                );
                                vstd::seq_lib::lemma_seq_concat_contains_all_elements(
                                    sne + snw + ssw,
                                    sse,
                                    x,
                                );
                                vstd::seq_lib::lemma_seq_concat_contains_all_elements(
                                    sne + snw,
                                    ssw,
                                    x,
                                );
                                vstd::seq_lib::lemma_seq_concat_contains_all_elements(sne, snw, x);
                                if ch.ne.spec_items().contains(x) && index != 0 {
                                    crate::shapes::rectangle::lemma_quadrants_separate(
                                        self.bounds,
                                        *item,
                                        x,
                                        index as int,
                                        0,
                                    );
                                }
                                if ch.nw.spec_items().contains(x) && index != 1 {
                                    crate::shapes::rectangle::lemma_quadrants_separate(
                                        self.bounds,
                                        *item,
                                        x,
                                        index as int,
                                        1,
                                    );
                                }
                                if ch.sw.spec_items().contains(x) && index != 2 {
                                    crate::shapes::rectangle::lemma_quadrants_separate(
                                        self.bounds,
                                        *item,
                                        x,
                                        index as int,
                                        2,
                                    );
                                }
                                if ch.se.spec_items().contains(x) && index != 3 {
                                    crate::shapes::rectangle::lemma_quadrants_separate(
                                        self.bounds,
                                        *item,
                                        x,
                                        index as int,
                                        3,
                                    );
                                }
                            }
                        }
                    },
                    None => {
                        let mut sub = ch.ne.retrieve_all();
                        accumulator.append(&mut sub);
                        let mut sub = ch.nw.retrieve_all();
                        accumulator.append(&mut sub);
                        let mut sub = ch.sw.retrieve_all();
                        accumulator.append(&mut sub);
                        let mut sub = ch.se.retrieve_all();
                        accumulator.append(&mut sub);
                        proof {
                            assert(accumulator@ =~= ch.ne.spec_items() + ch.nw.spec_items()
                                + ch.sw.spec_items() + ch.se.spec_items());
                        }
                    },
                }
            },
            None => {},
        }
        proof {
            assert(forall|x: Rectangle| #[trigger]
                accumulator@.contains(x) ==> self.spec_items().contains(x));
            assert(forall|x: Rectangle| #[trigger]
                self.spec_items().contains(x) && item.spec_intersects(&x)
                    ==> accumulator@.contains(x) || self.items@.contains(x));
        }
        let ghost base = accumulator@;
        let n = self.items.len();
        let mut i: usize = 0;
        while i < n
            invariant
                n == self.items@.len(),
                i <= n,
                accumulator@ == base + self.items@.take(i as int),
            decreases n - i,
        {
            accumulator.push(self.items[i]);
            i = i + 1;
            proof {
                assert(self.items@.take(i as int) =~= self.items@.take(i - 1).push(
                    self.items@[i - 1],
                ));
            }
        }
        proof {
            assert(self.items@.take(n as int) =~= self.items@);
            assert(accumulator@ == base + self.items@);
            assert(accumulator@ =~= self.spec_candidates(*item));
        }
        accumulator
    }

    /// Collects every item of the subtree, children first in quadrant
    /// order, then this node's own list.
    pub fn retrieve_all(&self) -> (all: Vec<Rectangle>)
        ensures
            all@ == self.spec_items(),
        decreases self,
    {
        let mut accumulator: Vec<Rectangle> = Vec::new();
        match &self.nodes {
            Some(ch) => {
                let mut sub = ch.ne.retrieve_all();
                accumulator.append(&mut sub);
                let mut sub = ch.nw.retrieve_all();
                accumulator.append(&mut sub);
                let mut sub = ch.sw.retrieve_all();
                accumulator.append(&mut sub);
                let mut sub = ch.se.retrieve_all();
                accumulator.append(&mut sub);
            },
            None => {},
        }
        let ghost base = accumulator@;
        let n = self.items.len();
        let mut i: usize = 0;
        while i < n
            invariant
                n == self.items@.len(),
                i <= n,
                accumulator@ == base + self.items@.take(i as int),
            decreases n - i,
        {
            accumulator.push(self.items[i]);
            i = i + 1;
            proof {
                assert(self.items@.take(i as int) =~= self.items@.take(i - 1).push(
                    self.items@[i - 1],
                ));
            }
        }
        proof {
            assert(self.items@.take(n as int) =~= self.items@);
            assert(accumulator@ =~= self.spec_items());
        }
        accumulator
    }
}

/// Filing nothing files nothing: over an empty list every filing bucket is
/// empty.
proof fn lemma_filing_empty(region: Rectangle)
    ensures
        spec_straddlers(region, Seq::<Rectangle>::empty()) == Seq::<Rectangle>::empty(),
        forall|i: int| #[trigger] spec_filed_to(region, Seq::<Rectangle>::empty(), i)
            == Seq::<Rectangle>::empty(),
{
    reveal(Seq::filter);
}

/// Filing one more item appends it to exactly the bucket its
/// classification names — the straddler list for `None`, quadrant `i`'s
/// list for `Some(i)` — and leaves every other bucket unchanged.
proof fn lemma_filing_step(region: Rectangle, s: Seq<Rectangle>, x: Rectangle)
    ensures
        spec_straddlers(region, s.push(x)) == if region.spec_classify(&x) is None {
            spec_straddlers(region, s).push(x)
        } else {
            spec_straddlers(region, s)
        },
        forall|i: int|
            #[trigger] spec_filed_to(region, s.push(x), i) == if region.spec_classify(&x) == Some(
                i as usize,
            ) {
                spec_filed_to(region, s, i).push(x)
            } else {
                spec_filed_to(region, s, i)
            },
{
    reveal(Seq::filter);
    assert(s.push(x).drop_last() =~= s);
    assert forall|i: int| #[trigger]
        spec_filed_to(region, s.push(x), i) == (if region.spec_classify(&x) == Some(i as usize) {
            spec_filed_to(region, s, i).push(x)
        } else {
            spec_filed_to(region, s, i)
        }) by {
        assert(s.push(x).last() == x);
    }
}

/// Addition on counters that stops at the machine limit instead of
/// overflowing.
fn sat_add(a: usize, b: usize) -> (r: usize)
    ensures
        r == if a + b <= usize::MAX {
            a + b
        } else {
            usize::MAX as int
        },
{
    if a <= usize::MAX - b {
        a + b
    } else {
        usize::MAX
    }
}

/// Every item stored anywhere in a subtree satisfying the invariant fits
/// the subtree's region: items move only downward, into regions nested in
/// their ancestors'.
pub proof fn lemma_all_items_fit(n: QuadNode)
    requires
        n.inv(),
    ensures
        forall|x: Rectangle| #[trigger] n.spec_items().contains(x) ==> spec_fits(
            x,
            n.spec_bounds(),
        ),
    decreases n,
{
    broadcast use vstd::seq_lib::lemma_seq_concat_contains_all_elements;

    match n.nodes {
        Some(ch) => {
            lemma_all_items_fit(ch.ne);
            lemma_all_items_fit(ch.nw);
            lemma_all_items_fit(ch.sw);
            lemma_all_items_fit(ch.se);
            assert forall|x: Rectangle| #[trigger]
                n.spec_items().contains(x) implies spec_fits(x, n.spec_bounds()) by {
                if ch.ne.spec_items().contains(x) {
                    crate::shapes::rectangle::lemma_fits_nested(n.bounds, x, 0);
                } else if ch.nw.spec_items().contains(x) {
                    crate::shapes::rectangle::lemma_fits_nested(n.bounds, x, 1);
                } else if ch.sw.spec_items().contains(x) {
                    crate::shapes::rectangle::lemma_fits_nested(n.bounds, x, 2);
                } else if ch.se.spec_items().contains(x) {
                    crate::shapes::rectangle::lemma_fits_nested(n.bounds, x, 3);
                } else {
                    let i = choose|i: int| 0 <= i < n.items@.len() && n.items@[i] == x;
                    assert(spec_fits(n.items@[i], n.bounds));
                }
            }
        },
        None => {
            assert forall|x: Rectangle| #[trigger]
                n.spec_items().contains(x) implies spec_fits(x, n.spec_bounds()) by {
                let i = choose|i: int| 0 <= i < n.items@.len() && n.items@[i] == x;
                assert(spec_fits(n.items@[i], n.bounds));
            }
        },
    }
}

/// The candidates for any query are drawn from storage without
/// duplication: counted with multiplicity, they are a sub-multiset of the
/// subtree's stored items.
pub proof fn lemma_candidates_within(n: QuadNode, q: Rectangle)
    ensures
        n.spec_candidates(q).to_multiset().subset_of(n.spec_items().to_multiset()),
    decreases n,
{
    match n.nodes {
        Some(ch) => {
            vstd::seq_lib::lemma_multiset_commutative(ch.ne.spec_items(), ch.nw.spec_items());
            vstd::seq_lib::lemma_multiset_commutative(
                ch.ne.spec_items() + ch.nw.spec_items(),
                ch.sw.spec_items(),
            );
            vstd::seq_lib::lemma_multiset_commutative(
                ch.ne.spec_items() + ch.nw.spec_items() + ch.sw.spec_items(),
                ch.se.spec_items(),
            );
            vstd::seq_lib::lemma_multiset_commutative(
                ch.ne.spec_items() + ch.nw.spec_items() + ch.sw.spec_items() + ch.se.spec_items(),
                n.items@,
            );
            match n.bounds.spec_classify(&q) {
                Some(i) => {
                    if i == 0 {
                        lemma_candidates_within(ch.ne, q);
                        vstd::seq_lib::lemma_multiset_commutative(
                            ch.ne.spec_candidates(q),
                            n.items@,
                        );
                    } else if i == 1 {
                        lemma_candidates_within(ch.nw, q);
                        vstd::seq_lib::lemma_multiset_commutative(
                            ch.nw.spec_candidates(q),
                            n.items@,
                        );
                    } else if i == 2 {
                        lemma_candidates_within(ch.sw, q);
                        vstd::seq_lib::lemma_multiset_commutative(
                            ch.sw.spec_candidates(q),
                            n.items@,
                        );
                    } else {
                        lemma_candidates_within(ch.se, q);
                        vstd::seq_lib::lemma_multiset_commutative(
                            ch.se.spec_candidates(q),
                            n.items@,
                        );
                    }
                },
                None => {},
            }
        },
        None => {},
    }
}

/// An element-wise copy of an item list.
fn copy_items(v: &Vec<Rectangle>) -> (r: Vec<Rectangle>)
    ensures
        r@ == v@,
{
    let mut r: Vec<Rectangle> = Vec::new();
    let n = v.len();
    let mut i: usize = 0;
    while i < n
        invariant
            n == v@.len(),
            i <= n,
            r@ == v@.take(i as int),
        decreases n - i,
    {
        r.push(v[i]);
        i = i + 1;
        proof {
            assert(v@.take(i as int) =~= v@.take(i - 1).push(v@[i - 1]));
        }
    }
    proof {
        assert(v@.take(n as int) =~= v@);
    }
    r
}

/// Nodes with the same content agree on every observation this library
/// makes of them: stored items, invariant, region, depth and shape.
pub proof fn lemma_same_content(a: QuadNode, b: QuadNode)
    requires
        a.spec_same_content(b),
    ensures
        a.spec_items() == b.spec_items(),
        a.inv() <==> b.inv(),
        a.spec_bounds() == b.spec_bounds(),
        a.spec_level() == b.spec_level(),
        a.spec_is_internal() == b.spec_is_internal(),
    decreases a,
{
    match (a.nodes, b.nodes) {
        (Some(x), Some(y)) => {
            lemma_same_content(x.ne, y.ne);
            lemma_same_content(x.nw, y.nw);
            lemma_same_content(x.sw, y.sw);
            lemma_same_content(x.se, y.se);
        },
        _ => {},
    }
}

impl Clone for QuadNode {
    /// A deep copy: the clone carries the same content as the original,
    /// subtree and all.
    fn clone(&self) -> (res: Self)
        ensures
            res.spec_same_content(*self),
            res.spec_items() == self.spec_items(),
            res.inv() <==> self.inv(),
            res.spec_bounds() == self.spec_bounds(),
            res.spec_level() == self.spec_level(),
            res.spec_is_internal() == self.spec_is_internal(),
        decreases self,
    {
        let res = QuadNode {
            level: self.level,
            bounds: self.bounds,
            items: copy_items(&self.items),
            nodes: match &self.nodes {
                Some(ch) => Some(
                    Box::new(
                        Children {
                            ne: ch.ne.clone(),
                            nw: ch.nw.clone(),
                            sw: ch.sw.clone(),
                            se: ch.se.clone(),
                        },
                    ),
                ),
                None => None,
            },
        };
        proof {
            lemma_same_content(res, *self);
        }
        res
    }
}

impl BoundingBox for QuadNode {
    type T = Rectangle;

    open spec fn spec_intersects(&self, other: &Rectangle) -> bool {
        self.spec_bounds().spec_intersects(other)
    }

    open spec fn spec_includes(&self, other: &Rectangle) -> bool {
        self.spec_bounds().spec_includes(other)
    }

    fn intersects(&self, bounds: &Rectangle) -> bool {
        self.bounds.intersects(bounds)
    }

    fn includes(&self, bounds: &Rectangle) -> bool {
        self.bounds.includes(bounds)
    }
}

} // verus!
