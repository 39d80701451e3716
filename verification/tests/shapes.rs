use quad_tree::shapes::bounding_box::BoundingBox;
use quad_tree::shapes::partition::Partition;
use quad_tree::shapes::rectangle::Rectangle;
use quad_tree::shapes::vec2::Vec2;

#[test]
fn not() {
    assert!(true);
}

#[test]
fn vec2_constructor() {
    let x = 1;
    let y = 2;

    let a: Vec2 = Vec2::new(x, y);
    assert_eq!(a.x, x);
    assert_eq!(a.y, y);
}

#[test]
fn vec2_add() {
    let a = Vec2::new(0, 5);
    let b = Vec2::new(10, 15);

    assert_eq!(Vec2 { x: 10, y: 20 }, a.add(b));
}

#[test]
fn vec2_display() {
    let a = Vec2::new(0, 10);

    assert_eq!(a.to_display(), "(0, 10)")
}

#[test]
fn constructor() {
    let x = 1;
    let y = 2;

    let width = 20;
    let height = 10;

    let rec = Rectangle::new(x, y, width, height).unwrap();
    assert_eq!(rec.p1.x, x);
    assert_eq!(rec.p1.y, y);
    assert_eq!(rec.p2.x, x + width);
    assert_eq!(rec.p2.y, y + height);
}

#[test]
fn invalid_constructor() {
    let x = 0;
    let y = 0;

    let width = -10;
    let height = 5;

    let rec = Rectangle::new(x, y, width, height);
    assert!(rec.is_err());

    match rec {
        Ok(_) => assert!(false),
        Err(_) => assert!(true),
    }
}

#[test]
fn dimension() {
    let x = 1;
    let y = 2;

    let width = 20;
    let height = 10;

    let rec = Rectangle::new(x, y, width, height).unwrap();
    assert_eq!(rec.width(), width as i64);
    assert_eq!(rec.height(), height as i64);
}

#[test]
fn check_order() {
    let p1 = Vec2::new(0, 0);
    let p2 = Vec2::new(5, 5);

    let rec1 = Rectangle::from_points(&p1, &p2);
    let rec2 = Rectangle::from_points(&p2, &p1);

    assert_eq!(rec1, rec2)
}

#[test]
fn intersection() {
    let p1 = Vec2::new(0, 0);
    let p2 = Vec2::new(5, 5);

    let p3 = Vec2::new(2, 3);
    let p4 = Vec2::new(10, 4);

    let rec1 = Rectangle::from_points(&p1, &p2);
    let rec2 = Rectangle::from_points(&p1, &p2);
    let rec3 = Rectangle::from_points(&p3, &p4);

    let rec4 = Rectangle::from_points(&p2, &p4);
    let rec5 = Rectangle::from_points(&p1, &p3);

    assert!(rec1.intersects(&rec2));
    assert!(rec2.intersects(&rec1));

    assert!(rec1.intersects(&rec3));
    assert!(rec3.intersects(&rec1));

    assert!(!rec4.intersects(&rec5));
    assert!(!rec5.intersects(&rec4));
}

#[test]
fn inclusion() {
    let rec1 = Rectangle::new(0, 0, 10, 10).unwrap();
    let rec2 = Rectangle::new(1, 1, 5, 5).unwrap();

    let rec3 = Rectangle::new(4, 4, 5, 5).unwrap();

    assert!(rec1.includes(&rec2));
    assert!(!rec2.includes(&rec1));

    assert!(!rec2.includes(&rec3));
    assert!(!rec3.includes(&rec2));

    assert!(rec1.includes(&rec3));
    assert!(!rec3.includes(&rec1));
}

#[test]
fn split() {
    let rec = Rectangle::new(0, 0, 10, 10).unwrap();

    let sub_recs = rec.split();
    assert_eq!(sub_recs[0], Rectangle::new(5, 5, 5, 5).unwrap());
    assert_eq!(sub_recs[1], Rectangle::new(0, 5, 5, 5).unwrap());
    assert_eq!(sub_recs[2], Rectangle::new(0, 0, 5, 5).unwrap());
    assert_eq!(sub_recs[3], Rectangle::new(5, 0, 5, 5).unwrap());
}

#[test]
fn get_bounds() {
    let rec = Rectangle::new(0, 0, 10, 10).unwrap();
    let big_rec = Rectangle::new(-5, -5, 20, 20).unwrap();

    let offset_rec = Rectangle::new(6, 6, 4, 6).unwrap();

    assert_eq!(rec.get_partition(&big_rec), None);
    assert_eq!(rec.get_partition(&offset_rec), None);
}

#[test]
fn vec2_display_negative() {
    let a = Vec2::new(-3, 7);

    assert_eq!(a.to_display(), "(-3, 7)")
}

#[test]
fn degenerate_region() {
    // A zero extent is not negative, so construction succeeds, but the
    // region has no interior: it intersects nothing, includes nothing, and
    // classifies nothing.
    let point_like = Rectangle::new(5, 5, 0, 0).unwrap();
    assert_eq!(point_like.width(), 0);
    assert!(!point_like.intersects(&point_like));
    assert!(!point_like.includes(&point_like));

    let around = Rectangle::new(0, 0, 10, 10).unwrap();
    assert_eq!(around.get_partition(&point_like), Some(2));
    assert_eq!(point_like.get_partition(&around), None);
}
