use rusty_roguelike::components::{manhattan_dist, range, Position};
use rusty_roguelike::rect::Rect;

#[test]
fn rect_new_sets_corners_and_dimensions() {
    let r = Rect::new(2, 3, 6, 7);
    assert_eq!(r.min, Position { x: 2, y: 3 });
    assert_eq!(r.max, Position { x: 8, y: 10 });
    assert_eq!(r.width(), 6);
    assert_eq!(r.height(), 7);
    assert_eq!(r.area(), 42);
}

#[test]
fn rect_contains_is_half_open() {
    let r = Rect::new(1, 1, 4, 4);
    assert!(r.contains(&Position { x: 1, y: 1 }));
    assert!(r.contains(&Position { x: 4, y: 4 }));
    assert!(!r.contains(&Position { x: 5, y: 4 }));
    assert!(!r.contains(&Position { x: 1, y: 5 }));
    assert!(!r.contains(&Position { x: 0, y: 2 }));
}

#[test]
fn rect_intersect_is_corner_containment() {
    let a = Rect::new(0, 0, 10, 10);
    let b = Rect::new(5, 5, 10, 10);
    // b's min corner falls inside a
    assert!(a.intersect(&b));
    // two rectangles can overlap along an axis without either checked corner
    // being contained: the approximate policy tolerates this
    let c = Rect::new(4, 0, 2, 20);
    let d = Rect::new(0, 4, 20, 2);
    assert!(!c.intersect(&d));
}

#[test]
fn rect_center_lies_inside() {
    let r = Rect::new(10, 20, 6, 8);
    let (cx, cy) = r.center();
    assert_eq!((cx, cy), (13, 24));
    assert!(r.contains(&Position { x: cx, y: cy }));
}

#[test]
fn idx_position_round_trip() {
    let size = Rect::new(0, 0, 80, 43);
    for &(x, y) in &[(0, 0), (79, 0), (0, 42), (79, 42), (17, 23)] {
        let idx = size.xy_idx(x, y);
        let p = size.idx_position(idx);
        assert_eq!(p, Position { x, y });
    }
}

#[test]
fn xy_idx_is_row_major() {
    let size = Rect::new(0, 0, 80, 43);
    assert_eq!(size.xy_idx(0, 0), 0);
    assert_eq!(size.xy_idx(5, 0), 5);
    assert_eq!(size.xy_idx(0, 1), 80);
    assert_eq!(size.xy_idx(3, 2), 163);
}

#[test]
fn manhattan_dist_sums_absolute_deltas() {
    let p = Position { x: 2, y: 3 };
    let q = Position { x: -1, y: 7 };
    assert_eq!(manhattan_dist(&p, &q), 7);
    assert_eq!(manhattan_dist(&q, &p), 7);
    assert_eq!(manhattan_dist(&p, &p), 0);
}

#[test]
fn range_clamps_inclusively() {
    assert_eq!(range(1, 5, 10), 5);
    assert_eq!(range(1, 0, 10), 1);
    assert_eq!(range(1, 11, 10), 10);
    assert_eq!(range(1, 1, 10), 1);
    assert_eq!(range(1, 10, 10), 10);
}
