use game_core::geometry::{PositionComponent, Rect};
use game_core::num::{cadd, csub, dist_exec, scale_frac, scale_ms, sin_milli, COORD_LIMIT};
use game_core::vector::Vector;

#[test]
fn footprint_is_bottom_depth_units() {
    // hitbox (0,0,10,20) at the origin with depth 5 gives footprint (0,15,10,5)
    let hitbox = Rect::new(0, 0, 10, 20);
    let fp = hitbox.after_position(&PositionComponent::new(0, 0)).after_depth(5);
    assert_eq!(fp.x, 0);
    assert_eq!(fp.y, 15);
    assert_eq!(fp.w, 10);
    assert_eq!(fp.h, 5);
}

#[test]
fn footprint_follows_position() {
    let hitbox = Rect::new(2, 3, 8, 12);
    let fp = hitbox.after_position(&PositionComponent::new(100, 200)).after_depth(4);
    assert_eq!(fp.x, 102);
    assert_eq!(fp.y, 203 + 12 - 4);
    assert_eq!(fp.h, 4);
}

#[test]
fn rect_intersection_open_at_edges() {
    let a = Rect::new(0, 0, 10, 10);
    assert!(a.has_intersection(Rect::new(5, 5, 10, 10)));
    // touching edges do not count as intersecting
    assert!(!a.has_intersection(Rect::new(10, 0, 10, 10)));
    assert!(!a.has_intersection(Rect::new(0, 10, 10, 10)));
    assert!(!a.has_intersection(Rect::new(30, 30, 1, 1)));
}

#[test]
fn segment_test_hits_and_misses() {
    let r = Rect::new(4, 0, 2, 2);
    // horizontal segment through the rectangle
    assert!(r.intersects_line(0, 1, 11, 1));
    // segment passing well below
    assert!(!r.intersects_line(0, 10, 11, 10));
    // degenerate segment inside the rectangle
    assert!(r.intersects_line(5, 1, 5, 1));
    // segment ending exactly on the boundary counts as hitting
    assert!(r.intersects_line(0, 1, 4, 1));
}

#[test]
fn vector_component_arithmetic() {
    let v = Vector::new(3, -4);
    assert_eq!(v.x(), 3);
    assert_eq!(v.y(), -4);
    assert_eq!(v.plus(Vector::new(1, 1)), Vector::new(4, -3));
    assert_eq!(v.minus(Vector::new(1, 1)), Vector::new(2, -5));
    assert_eq!(v.negated(), Vector::new(-3, 4));
    assert_eq!(v.times(10), Vector::new(30, -40));
    assert_eq!(Vector::zero(), Vector::new(0, 0));
    assert_eq!(Vector::from_components(7, 8), Vector::new(7, 8));
}

#[test]
fn velocity_scaling_truncates_toward_zero() {
    // 1500 units/second over 500 ms is 750 units
    assert_eq!(scale_ms(1500, 500), 750);
    assert_eq!(scale_ms(-1500, 500), -750);
    // 1 unit/second over 999 ms rounds down to 0
    assert_eq!(scale_ms(1, 999), 0);
    assert_eq!(scale_ms(-1, 999), 0);
    assert_eq!(scale_frac(10, 60, 10), 60);
    assert_eq!(scale_frac(-10, 60, 10), -60);
}

#[test]
fn clamped_arithmetic_saturates() {
    assert_eq!(cadd(1, 2), 3);
    assert_eq!(cadd(COORD_LIMIT, COORD_LIMIT), COORD_LIMIT);
    assert_eq!(csub(-COORD_LIMIT, COORD_LIMIT), -COORD_LIMIT);
    assert_eq!(csub(5, 7), -2);
}

#[test]
fn distances_round_down() {
    assert_eq!(dist_exec(0, 0, 3, 4), 5);
    assert_eq!(dist_exec(0, 0, 1, 1), 1);
    assert_eq!(dist_exec(2, 2, 2, 2), 0);
    assert_eq!(dist_exec(-3, 0, 0, -4), 5);
}

#[test]
fn fixed_point_sine_quarter_points() {
    assert_eq!(sin_milli(0), 0);
    // close to one at a quarter period
    let quarter = sin_milli(1570);
    assert!(quarter > 990 && quarter <= 1000);
    // antisymmetric in the second half period
    assert_eq!(sin_milli(3141 + 1570), -quarter);
    // back near zero after a full period
    assert_eq!(sin_milli(2 * 3141), 0);
}
