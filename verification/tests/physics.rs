use game_core::geometry::{PositionComponent, Rect};
use game_core::physics::{PhysicsComponent, PhysicsSystem};
use game_core::vector::Vector;
use game_core::world::World;

fn body(x: i64, y: i64, physical: bool) -> (Option<PositionComponent>, Option<PhysicsComponent>) {
    (
        Some(PositionComponent::new(x, y)),
        Some(PhysicsComponent::new(Rect::new(0, 0, 10, 10), 10, physical)),
    )
}

#[test]
fn head_on_approach_is_blocked_on_the_hit_axis() {
    // A at the origin moving right toward stationary B at (15, 0); after one
    // second the speculative x-footprint of A meets B, so A must not move:
    // its x stays at most B.x - A.w.
    let mut w = World::new();
    let (pa, fa) = body(0, 0, true);
    w.add_entity(pa, fa, None, None);
    let (pb, fb) = body(15, 0, true);
    w.add_entity(pb, fb, None, None);
    w.physics[0].as_mut().unwrap().velocity = Vector::new(10, 0);

    let mut physics = PhysicsSystem::new(0);
    physics.run(&mut w, 1000);

    let a = w.positions[0].as_ref().unwrap();
    assert_eq!(a.x, 0);
    assert_eq!(a.y, 0);
    assert!(a.x <= 15 - 10);
    let b = w.positions[1].as_ref().unwrap();
    assert_eq!((b.x, b.y), (15, 0));
    assert!(w.get_entity_states(0).contains(&String::from("colliding")));
    assert!(!w.get_entity_states(1).contains(&String::from("colliding")));
}

#[test]
fn free_motion_applies_scaled_velocity() {
    let mut w = World::new();
    let (pa, fa) = body(0, 0, true);
    w.add_entity(pa, fa, None, None);
    w.physics[0].as_mut().unwrap().velocity = Vector::new(30, -10);
    let mut physics = PhysicsSystem::new(1000);
    physics.run(&mut w, 1500);
    let a = w.positions[0].as_ref().unwrap();
    assert_eq!((a.x, a.y), (15, -5));
    assert!(!w.get_entity_states(0).contains(&String::from("colliding")));
}

#[test]
fn non_physical_entities_report_but_do_not_block() {
    let mut w = World::new();
    let (pa, fa) = body(0, 0, true);
    w.add_entity(pa, fa, None, None);
    let (pb, fb) = body(15, 0, false);
    w.add_entity(pb, fb, None, None);
    w.physics[0].as_mut().unwrap().velocity = Vector::new(10, 0);
    let mut physics = PhysicsSystem::new(0);
    physics.run(&mut w, 1000);
    let a = w.positions[0].as_ref().unwrap();
    // the ghost-like B does not stop A, but the touch is still reported
    assert_eq!((a.x, a.y), (10, 0));
    assert!(w.get_entity_states(0).contains(&String::from("colliding")));
}

#[test]
fn diagonal_motion_slides_along_the_free_axis() {
    // A moves diagonally; only the x-shifted footprint meets B, so the x
    // component is discarded and the y component survives.
    let mut w = World::new();
    let (pa, fa) = body(0, 0, true);
    w.add_entity(pa, fa, None, None);
    let (pb, fb) = body(15, 0, true);
    w.add_entity(pb, fb, None, None);
    w.physics[0].as_mut().unwrap().velocity = Vector::new(10, 3);
    let mut physics = PhysicsSystem::new(0);
    physics.run(&mut w, 1000);
    let a = w.positions[0].as_ref().unwrap();
    assert_eq!((a.x, a.y), (0, 3));
}

#[test]
fn entities_without_both_components_are_skipped() {
    let mut w = World::new();
    w.add_entity(Some(PositionComponent::new(5, 5)), None, None, None);
    w.add_entity(None, Some(PhysicsComponent::new(Rect::new(0, 0, 2, 2), 2, true)), None, None);
    let mut physics = PhysicsSystem::new(0);
    physics.run(&mut w, 1000);
    let p = w.positions[0].as_ref().unwrap();
    assert_eq!((p.x, p.y), (5, 5));
    assert!(!w.get_entity_states(0).contains(&String::from("colliding")));
    assert!(!w.get_entity_states(1).contains(&String::from("colliding")));
}

#[test]
fn mutual_head_on_approach_stops_both() {
    let mut w = World::new();
    let (pa, fa) = body(0, 0, true);
    w.add_entity(pa, fa, None, None);
    let (pb, fb) = body(15, 0, true);
    w.add_entity(pb, fb, None, None);
    w.physics[0].as_mut().unwrap().velocity = Vector::new(10, 0);
    w.physics[1].as_mut().unwrap().velocity = Vector::new(-10, 0);
    let mut physics = PhysicsSystem::new(0);
    physics.run(&mut w, 1000);
    let a = w.positions[0].as_ref().unwrap();
    let b = w.positions[1].as_ref().unwrap();
    // both end the tick with zero net displacement along the blocked axis
    assert_eq!((a.x, a.y), (0, 0));
    assert_eq!((b.x, b.y), (15, 0));
    assert!(a.x <= b.x - 10);
}
