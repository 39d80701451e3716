use quad_tree::shapes::bounding_box::BoundingBox;
use quad_tree::shapes::partition::Partition;
use quad_tree::shapes::rectangle::Rectangle;
use quad_tree::tree::quad_node::QuadNode;
use quad_tree::tree::quad_tree::QuadTree;
use quad_tree::QuadError;

#[test]
fn invalid_geometry_kind() {
    assert!(matches!(
        Rectangle::new(0, 0, -1, 0),
        Err(QuadError::InvalidGeometry)
    ));
    assert!(matches!(
        Rectangle::new(3, 4, 2, -7),
        Err(QuadError::InvalidGeometry)
    ));
}

#[test]
fn out_of_bounds_insert() {
    let bounds = Rectangle::new(0, 0, 10, 10).unwrap();
    let mut tree = QuadTree::new(bounds);

    let outside = Rectangle::new(-1, -1, 1, 1).unwrap();
    assert!(matches!(tree.insert(outside), Err(QuadError::OutOfBounds)));

    let inside = Rectangle::new(2, 2, 3, 3).unwrap();
    assert!(tree.insert(inside).is_ok());
}

#[test]
fn shared_edge_not_intersecting() {
    let left = Rectangle::new(0, 0, 10, 10).unwrap();
    let right = Rectangle::new(10, 0, 10, 10).unwrap();

    assert!(!left.intersects(&right));
    assert!(!right.intersects(&left));

    let overlapping = Rectangle::new(9, 0, 10, 10).unwrap();
    assert!(left.intersects(&overlapping));
}

#[test]
fn classification_exclusive() {
    let region = Rectangle::new(0, 0, 16, 16).unwrap();
    let quads = region.split();

    let in_ne = Rectangle::new(9, 9, 2, 2).unwrap();
    let in_nw = Rectangle::new(1, 9, 2, 2).unwrap();
    let in_sw = Rectangle::new(1, 1, 2, 2).unwrap();
    let in_se = Rectangle::new(9, 1, 2, 2).unwrap();

    assert_eq!(region.get_partition(&in_ne), Some(0));
    assert_eq!(region.get_partition(&in_nw), Some(1));
    assert_eq!(region.get_partition(&in_sw), Some(2));
    assert_eq!(region.get_partition(&in_se), Some(3));

    // Each item is included in exactly its own quadrant.
    for (index, item) in [in_ne, in_nw, in_sw, in_se].iter().enumerate() {
        for (other, quad) in quads.iter().enumerate() {
            assert_eq!(quad.includes(item), index == other);
        }
    }

    // A straddler of the vertical midline and an item outside classify to none.
    let straddler = Rectangle::new(6, 6, 4, 4).unwrap();
    assert_eq!(region.get_partition(&straddler), None);
    let outside = Rectangle::new(20, 20, 1, 1).unwrap();
    assert_eq!(region.get_partition(&outside), None);
}

#[test]
fn split_tiles_and_halves() {
    let region = Rectangle::new(2, 4, 10, 6).unwrap();
    let quads = region.split();

    assert_eq!(quads.len(), 4);
    for quad in &quads {
        assert_eq!(quad.width(), 5);
        assert_eq!(quad.height(), 3);
        assert!(quad.p1.x >= region.p1.x && quad.p2.x <= region.p2.x);
        assert!(quad.p1.y >= region.p1.y && quad.p2.y <= region.p2.y);
    }
    // Pairwise non-intersecting interiors.
    for i in 0..4 {
        for j in 0..4 {
            assert_eq!(quads[i].intersects(&quads[j]), i == j);
        }
    }
}

#[test]
fn split_odd_extent() {
    // An odd span cannot halve exactly: the quarters still tile the region,
    // with the low half one unit narrower.
    let region = Rectangle::new(0, 0, 5, 5).unwrap();
    let quads = region.split();

    assert_eq!(quads[2], Rectangle::new(0, 0, 2, 2).unwrap());
    assert_eq!(quads[0], Rectangle::new(2, 2, 3, 3).unwrap());
    assert_eq!(quads[2].width() + quads[0].width(), region.width());
}

fn distinct_quadrant_items() -> [Rectangle; 4] {
    [
        Rectangle::new(9, 9, 2, 2).unwrap(),
        Rectangle::new(1, 9, 2, 2).unwrap(),
        Rectangle::new(1, 1, 2, 2).unwrap(),
        Rectangle::new(9, 1, 2, 2).unwrap(),
    ]
}

#[test]
fn capacity_split_distinct_quadrants() {
    let bounds = Rectangle::new(0, 0, 16, 16).unwrap();
    let mut node = QuadNode::new(0, bounds);
    let items = distinct_quadrant_items();

    // 20 items keep the leaf a leaf; the 21st exceeds capacity and splits it.
    for _ in 0..5 {
        for item in &items {
            assert!(node.insert(*item).is_ok());
        }
    }
    assert!(!node.is_internal());
    assert_eq!(node.direct_len(), 20);

    assert!(node.insert(items[0]).is_ok());
    assert!(node.is_internal());
    assert_eq!(node.direct_len(), 0);
    assert_eq!(node.child_direct_len(0), Some(6));
    assert_eq!(node.child_direct_len(1), Some(5));
    assert_eq!(node.child_direct_len(2), Some(5));
    assert_eq!(node.child_direct_len(3), Some(5));
    assert_eq!(node.child_direct_len(4), None);
    assert_eq!(node.size(), 21);
}

#[test]
fn capacity_split_straddlers() {
    let bounds = Rectangle::new(0, 0, 16, 16).unwrap();
    let mut node = QuadNode::new(0, bounds);
    let straddler = Rectangle::new(6, 6, 4, 4).unwrap();

    for _ in 0..21 {
        assert!(node.insert(straddler).is_ok());
    }
    // The capacity split ran, but every item straddles the midlines, so all
    // of them stay in the node's own list.
    assert!(node.is_internal());
    assert_eq!(node.direct_len(), 21);
    for child in 0..4 {
        assert_eq!(node.child_direct_len(child), Some(0));
    }
}

#[test]
fn retrieve_soundness() {
    let bounds = Rectangle::new(0, 0, 100, 100).unwrap();
    let mut tree = QuadTree::new(bounds);

    // More than 20 items, forcing at least one split; all strictly inside.
    let mut inserted = Vec::new();
    for i in 0..30i32 {
        let item = Rectangle::new(
            1 + (i * 3) % 80,
            1 + (i * 7) % 80,
            1 + i % 5,
            1 + i % 3,
        )
        .unwrap();
        assert!(tree.insert(item).is_ok());
        inserted.push(item);
    }

    let query = Rectangle::new(10, 10, 30, 30).unwrap();
    let found = tree.retrieve(&query);

    // No false negatives: every truly intersecting item is among the
    // candidates. The candidates may hold non-intersecting extras, but
    // nothing that was never inserted.
    for item in &inserted {
        if item.intersects(&query) {
            assert!(found.contains(item));
        }
    }
    for candidate in &found {
        assert!(inserted.contains(candidate));
    }
}

#[test]
fn retrieve_straddling_query_visits_all() {
    let bounds = Rectangle::new(0, 0, 16, 16).unwrap();
    let mut node = QuadNode::new(0, bounds);
    let items = distinct_quadrant_items();
    for _ in 0..6 {
        for item in &items {
            assert!(node.insert(*item).is_ok());
        }
    }
    assert!(node.is_internal());

    // A query that straddles the midpoint classifies to no quadrant, so the
    // whole subtree is collected.
    let query = Rectangle::new(6, 6, 4, 4).unwrap();
    let found = node.retrieve(&query);
    assert_eq!(found.len(), 24);

    assert_eq!(node.retrieve_all().len(), 24);
}

#[test]
fn clear_keeps_shape() {
    let bounds = Rectangle::new(0, 0, 16, 16).unwrap();
    let mut node = QuadNode::new(0, bounds);
    let items = distinct_quadrant_items();
    for _ in 0..6 {
        for item in &items {
            assert!(node.insert(*item).is_ok());
        }
    }
    assert!(node.is_internal());
    assert_eq!(node.size(), 24);

    node.clear();

    // Everything is gone, but the internal shape is kept: the node did not
    // revert to a leaf and its children are still present, just empty.
    assert!(node.is_internal());
    assert_eq!(node.direct_len(), 0);
    for child in 0..4 {
        assert_eq!(node.child_direct_len(child), Some(0));
    }
    assert_eq!(node.size(), 0);
    let anything = Rectangle::new(1, 1, 2, 2).unwrap();
    assert!(node.retrieve(&anything).is_empty());
    assert!(node.retrieve_all().is_empty());
}

#[test]
fn tree_forwards_region_tests() {
    let bounds = Rectangle::new(0, 0, 10, 10).unwrap();
    let tree = QuadTree::new(bounds);

    let inner = Rectangle::new(2, 2, 3, 3).unwrap();
    assert!(tree.includes(&inner));
    assert!(tree.intersects(&inner));

    let edge = Rectangle::new(10, 0, 10, 10).unwrap();
    assert!(!tree.intersects(&edge));
    assert!(!tree.includes(&edge));

    // Edge-touching containment is false even though the item overlaps.
    let touching = Rectangle::new(0, 0, 5, 5).unwrap();
    assert!(tree.intersects(&touching));
    assert!(!tree.includes(&touching));
}

#[test]
fn clone_preserves_content() {
    let bounds = Rectangle::new(0, 0, 16, 16).unwrap();
    let mut tree = QuadTree::new(bounds);
    for item in distinct_quadrant_items() {
        assert!(tree.insert(item).is_ok());
    }
    let copy = tree.clone();
    let query = Rectangle::new(0, 0, 16, 16).unwrap();
    let found = copy.retrieve(&query);
    assert_eq!(found.len(), 4);
}

#[test]
fn retrieve_leaf_exact_order() {
    // On a leaf, the candidates are exactly the node's own list, in
    // insertion order.
    let bounds = Rectangle::new(0, 0, 16, 16).unwrap();
    let mut node = QuadNode::new(0, bounds);
    let a = Rectangle::new(1, 1, 2, 2).unwrap();
    let b = Rectangle::new(9, 9, 2, 2).unwrap();
    let c = Rectangle::new(6, 6, 4, 4).unwrap();
    for item in [a, b, c] {
        assert!(node.insert(item).is_ok());
    }

    assert_eq!(node.retrieve(&a), vec![a, b, c]);
    assert_eq!(node.retrieve(&c), vec![a, b, c]);
}

#[test]
fn retrieve_single_quadrant_composition() {
    // Once split, a query that classifies to one quadrant returns exactly
    // that child's candidates followed by the node's own straddlers.
    let bounds = Rectangle::new(0, 0, 16, 16).unwrap();
    let mut node = QuadNode::new(0, bounds);
    let items = distinct_quadrant_items();
    for _ in 0..5 {
        for item in &items {
            assert!(node.insert(*item).is_ok());
        }
    }
    let straddler = Rectangle::new(6, 6, 4, 4).unwrap();
    assert!(node.insert(straddler).is_ok());
    assert!(node.is_internal());

    // The top-left query item sees the 5 copies filed under its quadrant,
    // then the straddler kept in the node's own list.
    let got = node.retrieve(&items[1]);
    assert_eq!(got, vec![items[1], items[1], items[1], items[1], items[1], straddler]);
}
