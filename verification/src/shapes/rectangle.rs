use vstd::prelude::*;

use crate::error::QuadError;
use crate::shapes::bounding_box::BoundingBox;
use crate::shapes::partition::Partition;
use crate::shapes::vec2::Vec2;

verus! {

/// An axis-aligned rectangle between a low corner `p1` and a high corner
/// `p2`, serving both as the indexed item shape and as a node's coverage
/// area.
///
/// A rectangle built by `new` or `from_points` always satisfies `wf()`:
/// `p1.x <= p2.x` and `p1.y <= p2.y`.
#[derive(Clone, Copy, Debug, PartialEq, Eq, Structural)]
pub struct Rectangle {
    pub p1: Vec2,
    pub p2: Vec2,
}

/// The smaller of two coordinates.
pub open spec fn min32(a: i32, b: i32) -> i32 {
    if a <= b { a } else { b }
}

/// The larger of two coordinates.
pub open spec fn max32(a: i32, b: i32) -> i32 {
    if a <= b { b } else { a }
}

/// The midpoint of the span from `a` to `b`, rounded toward `a`.
/// Meaningful when `a <= b`; see `lemma_mid32_bounds`.
pub open spec fn spec_mid32(a: i32, b: i32) -> i32 {
    (a + (b - a) / 2) as i32
}

/// When `a <= b` the midpoint lies between them and halves the span.
pub broadcast proof fn lemma_mid32_bounds(a: i32, b: i32)
    requires
        a <= b,
    ensures
        a <= #[trigger] spec_mid32(a, b) <= b,
        spec_mid32(a, b) - a == (b - a) / 2,
{
    assert(0 <= (b - a) / 2 <= b - a);
}

/// Half-open interval containment on one axis: the target span `[t1, t2]`
/// lies in the bound span `(lo, hi]`, strictly past the low bound.
pub open spec fn spec_between(lo: i32, hi: i32, t1: i32, t2: i32) -> bool {
    lo < t1 && hi >= t2
}

/// The half-open containment used to file an item under a region: `item`
/// lies strictly past `outer`'s low corner and not past its high corner, on
/// both axes. This is exactly the test that classification applies per axis.
pub open spec fn spec_fits(item: Rectangle, outer: Rectangle) -> bool {
    &&& spec_between(outer.p1.x, outer.p2.x, item.p1.x, item.p2.x)
    &&& spec_between(outer.p1.y, outer.p2.y, item.p1.y, item.p2.y)
}

impl Rectangle {
    /// The rectangle invariant: the corners are ordered per axis.
    pub open spec fn wf(self) -> bool {
        self.p1.x <= self.p2.x && self.p1.y <= self.p2.y
    }

    /// What `from_points` returns: the canonical rectangle over two
    /// arbitrary corners, with per-axis minima in `p1` and maxima in `p2`.
    pub open spec fn spec_from_points(p1: Vec2, p2: Vec2) -> Rectangle {
        Rectangle {
            p1: Vec2 { x: min32(p1.x, p2.x), y: min32(p1.y, p2.y) },
            p2: Vec2 { x: max32(p1.x, p2.x), y: max32(p1.y, p2.y) },
        }
    }

    /// The canonical form of this rectangle; equal to `self` whenever
    /// `self.wf()`.
    pub open spec fn norm(self) -> Rectangle {
        Self::spec_from_points(self.p1, self.p2)
    }

    /// Membership of an integer point in the half-open area
    /// `[p1.x, p2.x) x [p1.y, p2.y)`; used to state that a split tiles its
    /// region exactly.
    pub open spec fn spec_contains_pt(self, x: int, y: int) -> bool {
        &&& self.p1.x <= x < self.p2.x
        &&& self.p1.y <= y < self.p2.y
    }

    /// Builds the rectangle with low corner (x, y) and the given extent,
    /// rejecting a negative width or height with `InvalidGeometry`.
    pub fn new(x: i32, y: i32, width: i32, height: i32) -> (r: Result<Rectangle, QuadError>)
        requires
            width >= 0 ==> x + width <= i32::MAX,
            height >= 0 ==> y + height <= i32::MAX,
        ensures
            r is Err <==> (width < 0 || height < 0),
            r is Err ==> r == Result::<Rectangle, QuadError>::Err(QuadError::InvalidGeometry),
            r matches Ok(rect) ==> {
                &&& rect.p1 == (Vec2 { x, y })
                &&& rect.p2.x == x + width
                &&& rect.p2.y == y + height
                &&& rect.wf()
            },
    {
        if width < 0 || height < 0 {
            Err(QuadError::InvalidGeometry)
        } else {
            Ok(Rectangle { p1: Vec2::new(x, y), p2: Vec2::new(x + width, y + height) })
        }
    }

    /// Builds the canonical rectangle over two arbitrary corners; corners
    /// from either diagonal pair yield an identical region.
    pub fn from_points(p1: &Vec2, p2: &Vec2) -> (r: Rectangle)
        ensures
            r == Self::spec_from_points(*p1, *p2),
            r.wf(),
    {
        if is_ordered(p1, p2) {
            Rectangle { p1: *p1, p2: *p2 }
        } else {
            let lx = if p1.x <= p2.x { p1.x } else { p2.x };
            let ly = if p1.y <= p2.y { p1.y } else { p2.y };
            let hx = if p1.x <= p2.x { p2.x } else { p1.x };
            let hy = if p1.y <= p2.y { p2.y } else { p1.y };
            Rectangle { p1: Vec2::new(lx, ly), p2: Vec2::new(hx, hy) }
        }
    }

    /// The horizontal extent of the rectangle, as a magnitude.
    pub fn width(&self) -> (w: i64)
        ensures
            w == if self.p2.x >= self.p1.x { self.p2.x - self.p1.x } else { self.p1.x - self.p2.x },
    {
        let d: i64 = self.p2.x as i64 - self.p1.x as i64;
        if d >= 0 { d } else { -d }
    }

    /// The vertical extent of the rectangle, as a magnitude.
    pub fn height(&self) -> (h: i64)
        ensures
            h == if self.p2.y >= self.p1.y { self.p2.y - self.p1.y } else { self.p1.y - self.p2.y },
    {
        let d: i64 = self.p2.y as i64 - self.p1.y as i64;
        if d >= 0 { d } else { -d }
    }
}

/// Whether the corner pair is already strictly ordered on both axes.
fn is_ordered(p1: &Vec2, p2: &Vec2) -> (r: bool)
    ensures
        r == (p1.x < p2.x && p1.y < p2.y),
{
    p1.x < p2.x && p1.y < p2.y
}

/// The midpoint of the span from `a` to `b`, rounded toward `a`.
fn mid_coord(a: i32, b: i32) -> (m: i32)
    requires
        a <= b,
    ensures
        m == spec_mid32(a, b),
{
    proof {
        lemma_mid32_bounds(a, b);
    }
    let d: i64 = b as i64 - a as i64;
    let h: i64 = ((d as u64) / 2) as i64;
    (a as i64 + h) as i32
}

/// One-axis half-open containment of the target span in the bound span,
/// measured on x.
fn horizontal_between(
    bound_left: &Vec2,
    bound_right: &Vec2,
    target_left: &Vec2,
    target_right: &Vec2,
) -> (r: bool)
    ensures
        r == spec_between(bound_left.x, bound_right.x, target_left.x, target_right.x),
{
    bound_left.x < target_left.x && bound_right.x >= target_right.x
}

/// One-axis half-open containment of the target span in the bound span,
/// measured on y.
fn vertical_between(
    bound_bot: &Vec2,
    bound_top: &Vec2,
    target_bot: &Vec2,
    target_top: &Vec2,
) -> (r: bool)
    ensures
        r == spec_between(bound_bot.y, bound_top.y, target_bot.y, target_top.y),
{
    bound_bot.y < target_bot.y && bound_top.y >= target_top.y
}

impl BoundingBox for Rectangle {
    type T = Rectangle;

    open spec fn spec_intersects(&self, other: &Rectangle) -> bool {
        &&& self.p1.x < other.p2.x
        &&& self.p2.x > other.p1.x
        &&& self.p1.y < other.p2.y
        &&& self.p2.y > other.p1.y
    }

    open spec fn spec_includes(&self, other: &Rectangle) -> bool {
        &&& self.p1.x < other.p1.x
        &&& self.p2.x > other.p2.x
        &&& self.p1.y < other.p1.y
        &&& self.p2.y > other.p2.y
    }

    fn intersects(&self, bounds: &Rectangle) -> bool {
        if self.p1.x >= bounds.p2.x || self.p2.x <= bounds.p1.x {
            return false;
        }
        if self.p1.y >= bounds.p2.y || self.p2.y <= bounds.p1.y {
            return false;
        }
        true
    }

    fn includes(&self, bounds: &Rectangle) -> bool {
        if self.p1.x >= bounds.p1.x || self.p2.x <= bounds.p2.x {
            return false;
        }
        if self.p1.y >= bounds.p1.y || self.p2.y <= bounds.p2.y {
            return false;
        }
        true
    }
}

impl Partition for Rectangle {
    open spec fn spec_split(&self) -> Seq<Rectangle> {
        let n = self.norm();
        let mx = spec_mid32(n.p1.x, n.p2.x);
        let my = spec_mid32(n.p1.y, n.p2.y);
        seq![
            Rectangle { p1: Vec2 { x: mx, y: my }, p2: n.p2 },
            Rectangle { p1: Vec2 { x: n.p1.x, y: my }, p2: Vec2 { x: mx, y: n.p2.y } },
            Rectangle { p1: n.p1, p2: Vec2 { x: mx, y: my } },
            Rectangle { p1: Vec2 { x: mx, y: n.p1.y }, p2: Vec2 { x: n.p2.x, y: my } },
        ]
    }

    open spec fn spec_classify(&self, item: &Rectangle) -> Option<usize> {
        let n = self.norm();
        let mx = spec_mid32(n.p1.x, n.p2.x);
        let my = spec_mid32(n.p1.y, n.p2.y);
        if spec_between(my, n.p2.y, item.p1.y, item.p2.y) {
            if spec_between(mx, n.p2.x, item.p1.x, item.p2.x) {
                Some(0usize)
            } else if spec_between(n.p1.x, mx, item.p1.x, item.p2.x) {
                Some(1usize)
            } else {
                None
            }
        } else if spec_between(n.p1.y, my, item.p1.y, item.p2.y) {
            if spec_between(mx, n.p2.x, item.p1.x, item.p2.x) {
                Some(3usize)
            } else if spec_between(n.p1.x, mx, item.p1.x, item.p2.x) {
                Some(2usize)
            } else {
                None
            }
        } else {
            None
        }
    }

    fn split(&self) -> (quads: Vec<Rectangle>) {
        let n = Rectangle::from_points(&self.p1, &self.p2);
        let mx = mid_coord(n.p1.x, n.p2.x);
        let my = mid_coord(n.p1.y, n.p2.y);
        let mut quads: Vec<Rectangle> = Vec::new();
        quads.push(Rectangle { p1: Vec2::new(mx, my), p2: n.p2 });
        quads.push(Rectangle { p1: Vec2::new(n.p1.x, my), p2: Vec2::new(mx, n.p2.y) });
        quads.push(Rectangle { p1: n.p1, p2: Vec2::new(mx, my) });
        quads.push(Rectangle { p1: Vec2::new(mx, n.p1.y), p2: Vec2::new(n.p2.x, my) });
        proof {
            assert(quads@ =~= self.spec_split());
        }
        quads
    }

    fn get_partition(&self, item: &Rectangle) -> (r: Option<usize>) {
        let n = Rectangle::from_points(&self.p1, &self.p2);
        let mid = Vec2::new(mid_coord(n.p1.x, n.p2.x), mid_coord(n.p1.y, n.p2.y));
        if vertical_between(&mid, &n.p2, &item.p1, &item.p2) {
            if horizontal_between(&mid, &n.p2, &item.p1, &item.p2) {
                return Some(0);
            } else if horizontal_between(&n.p1, &mid, &item.p1, &item.p2) {
                return Some(1);
            }
        } else if vertical_between(&n.p1, &mid, &item.p1, &item.p2) {
            if horizontal_between(&mid, &n.p2, &item.p1, &item.p2) {
                return Some(3);
            } else if horizontal_between(&n.p1, &mid, &item.p1, &item.p2) {
                return Some(2);
            }
        }
        None
    }
}

/// Construction from two corners is symmetric: either diagonal pair of a
/// rectangle yields the same canonical region.
pub proof fn lemma_from_points_symmetric(a: Vec2, b: Vec2)
    ensures
        Rectangle::spec_from_points(a, b) == Rectangle::spec_from_points(b, a),
{
}

/// The four split outputs of a well-formed region are themselves
/// well-formed, tile the region exactly (every point of the region lies in
/// exactly one quadrant and no quadrant reaches outside), and have pairwise
/// non-intersecting interiors.
pub proof fn lemma_split_tiles(r: Rectangle)
    requires
        r.wf(),
    ensures
        r.spec_split().len() == 4,
        forall|i: int| 0 <= i < 4 ==> (#[trigger] r.spec_split()[i]).wf(),
        forall|x: int, y: int|
            #[trigger] r.spec_contains_pt(x, y) <==> exists|i: int|
                0 <= i < 4 && (#[trigger] r.spec_split()[i]).spec_contains_pt(x, y),
        forall|i: int, j: int, x: int, y: int|
            #![trigger r.spec_split()[i].spec_contains_pt(x, y), r.spec_split()[j].spec_contains_pt(x, y)]
            0 <= i < 4 && 0 <= j < 4 && i != j && r.spec_split()[i].spec_contains_pt(x, y)
                ==> !r.spec_split()[j].spec_contains_pt(x, y),
        forall|i: int, j: int|
            #![trigger r.spec_split()[i].spec_intersects(&r.spec_split()[j])]
            0 <= i < 4 && 0 <= j < 4 && i != j ==> !r.spec_split()[i].spec_intersects(
                &r.spec_split()[j]),
{
    lemma_mid32_bounds(r.p1.x, r.p2.x);
    lemma_mid32_bounds(r.p1.y, r.p2.y);
    let q = r.spec_split();
    let mx = spec_mid32(r.p1.x, r.p2.x);
    let my = spec_mid32(r.p1.y, r.p2.y);
    assert(r.norm() == r);
    assert forall|x: int, y: int| #[trigger]
        r.spec_contains_pt(x, y) implies exists|i: int|
        0 <= i < 4 && (#[trigger] r.spec_split()[i]).spec_contains_pt(x, y) by {
        if x >= mx && y >= my {
            assert(q[0].spec_contains_pt(x, y));
        } else if x < mx && y >= my {
            assert(q[1].spec_contains_pt(x, y));
        } else if x < mx && y < my {
            assert(q[2].spec_contains_pt(x, y));
        } else {
            assert(q[3].spec_contains_pt(x, y));
        }
    }
}

/// The exact extents of the four split outputs of any well-formed region:
/// the lower half of each axis gets the floor of half the span, the upper
/// half the rest. For even spans the two agree, so each quadrant has
/// exactly half the region's width and height; an odd span splits one unit
/// short on the low side.
pub proof fn lemma_split_extents(r: Rectangle)
    requires
        r.wf(),
    ensures
        forall|i: int|
            0 <= i < 4 ==> (#[trigger] r.spec_split()[i]).p2.x - r.spec_split()[i].p1.x == (
            if i == 1 || i == 2 {
                (r.p2.x - r.p1.x) / 2
            } else {
                (r.p2.x - r.p1.x) - (r.p2.x - r.p1.x) / 2
            }),
        forall|i: int|
            0 <= i < 4 ==> (#[trigger] r.spec_split()[i]).p2.y - r.spec_split()[i].p1.y == (
            if i == 2 || i == 3 {
                (r.p2.y - r.p1.y) / 2
            } else {
                (r.p2.y - r.p1.y) - (r.p2.y - r.p1.y) / 2
            }),
{
    lemma_mid32_bounds(r.p1.x, r.p2.x);
    lemma_mid32_bounds(r.p1.y, r.p2.y);
    assert(r.norm() == r);
}

/// When the region's width and height are even, each split output has
/// exactly half the region's width and half its height.
pub proof fn lemma_split_halves(r: Rectangle)
    requires
        r.wf(),
        (r.p2.x - r.p1.x) % 2 == 0,
        (r.p2.y - r.p1.y) % 2 == 0,
    ensures
        forall|i: int|
            0 <= i < 4 ==> (#[trigger] r.spec_split()[i]).p2.x - r.spec_split()[i].p1.x == (r.p2.x
                - r.p1.x) / 2,
        forall|i: int|
            0 <= i < 4 ==> (#[trigger] r.spec_split()[i]).p2.y - r.spec_split()[i].p1.y == (r.p2.y
                - r.p1.y) / 2,
{
    lemma_mid32_bounds(r.p1.x, r.p2.x);
    lemma_mid32_bounds(r.p1.y, r.p2.y);
    assert(r.norm() == r);
}

/// Whatever classification returns, it returns a quadrant the item fits:
/// a classified index is in range and the item lies inside that split
/// output, for any item, well-formed or not.
pub proof fn lemma_classify_fits(r: Rectangle, item: Rectangle)
    requires
        r.wf(),
    ensures
        r.spec_classify(&item) matches Some(i) ==> 0 <= i < 4 && spec_fits(
            item,
            r.spec_split()[i as int],
        ),
{
    lemma_mid32_bounds(r.p1.x, r.p2.x);
    lemma_mid32_bounds(r.p1.y, r.p2.y);
    assert(r.norm() == r);
}

/// Classification agrees with quadrant containment: a well-formed region
/// classifies a well-formed item to index `i` exactly when the item fits
/// the `i`-th split output, and to no index otherwise (the item straddles a
/// midline or lies outside the region). At most one quadrant can fit the
/// item, so the classified index is exclusive.
pub proof fn lemma_classify_iff_fits(r: Rectangle, item: Rectangle)
    requires
        r.wf(),
        item.wf(),
    ensures
        forall|i: int|
            0 <= i < 4 ==> (spec_fits(item, #[trigger] r.spec_split()[i]) <==> r.spec_classify(
                &item,
            ) == Some(i as usize)),
        r.spec_classify(&item) is Some ==> 0 <= r.spec_classify(&item)->0 < 4,
        r.spec_classify(&item) is None ==> forall|i: int|
            0 <= i < 4 ==> !spec_fits(item, #[trigger] r.spec_split()[i]),
{
    lemma_mid32_bounds(r.p1.x, r.p2.x);
    lemma_mid32_bounds(r.p1.y, r.p2.y);
    assert(r.norm() == r);
}

/// Items filed under two different quadrants of the same well-formed region
/// cannot intersect each other: the quadrants' interiors are disjoint and
/// each item lies inside its own quadrant.
pub proof fn lemma_quadrants_separate(r: Rectangle, a: Rectangle, b: Rectangle, i: int, j: int)
    requires
        r.wf(),
        0 <= i < 4,
        0 <= j < 4,
        i != j,
        spec_fits(a, r.spec_split()[i]),
        spec_fits(b, r.spec_split()[j]),
    ensures
        !a.spec_intersects(&b),
        !b.spec_intersects(&a),
{
    lemma_mid32_bounds(r.p1.x, r.p2.x);
    lemma_mid32_bounds(r.p1.y, r.p2.y);
    assert(r.norm() == r);
}

/// Fitting a quadrant of a well-formed region implies fitting the region
/// itself.
pub proof fn lemma_fits_nested(r: Rectangle, x: Rectangle, i: int)
    requires
        r.wf(),
        0 <= i < 4,
        spec_fits(x, r.spec_split()[i]),
    ensures
        spec_fits(x, r),
{
    lemma_mid32_bounds(r.p1.x, r.p2.x);
    lemma_mid32_bounds(r.p1.y, r.p2.y);
    assert(r.norm() == r);
}

/// Strict containment implies the half-open containment used for filing.
pub proof fn lemma_includes_fits(outer: Rectangle, item: Rectangle)
    requires
        outer.spec_includes(&item),
    ensures
        spec_fits(item, outer),
{
}

} // verus!
