use game_core::effect::Effect;
use game_core::geometry::{PositionComponent, Rect};
use game_core::physics::PhysicsComponent;
use game_core::world::World;

fn two_entity_world() -> World {
    let mut w = World::new();
    w.add_entity(
        Some(PositionComponent::new(0, 0)),
        Some(PhysicsComponent::new(Rect::new(0, 0, 10, 10), 10, true)),
        None,
        None,
    );
    w.add_entity(
        Some(PositionComponent::new(15, 0)),
        Some(PhysicsComponent::new(Rect::new(0, 0, 10, 10), 10, true)),
        None,
        None,
    );
    w
}

#[test]
fn add_entity_keeps_containers_parallel() {
    let mut w = World::new();
    assert_eq!(w.entity_count(), 0);
    let a = w.add_entity(None, None, None, None);
    assert_eq!(a, 0);
    let b = w.add_entity(Some(PositionComponent::new(3, 4)), None, None, None);
    assert_eq!(b, 1);
    let c = w.add_entity(
        Some(PositionComponent::new(0, 0)),
        Some(PhysicsComponent::new(Rect::new(0, 0, 5, 5), 5, false)),
        None,
        None,
    );
    assert_eq!(c, 2);
    assert_eq!(w.entity_count(), 3);
    assert_eq!(w.states.len(), 3);
    assert_eq!(w.positions.len(), 3);
    assert_eq!(w.physics.len(), 3);
    assert_eq!(w.graphics.len(), 3);
    assert_eq!(w.actions.len(), 3);
}

#[test]
fn add_state_twice_same_as_once() {
    let mut w = World::new();
    w.add_entity(None, None, None, None);
    let tag = String::from("colliding");
    w.add_entity_state(0, tag.clone());
    w.add_entity_state(0, tag.clone());
    assert!(w.get_entity_states(0).contains(&tag));
    // one removal undoes both insertions: the set held a single copy
    w.remove_entity_state(0, &tag);
    assert!(!w.get_entity_states(0).contains(&tag));
}

#[test]
fn remove_state_twice_same_as_once() {
    let mut w = World::new();
    w.add_entity(None, None, None, None);
    let tag = String::from("walking");
    w.add_entity_state(0, tag.clone());
    w.remove_entity_state(0, &tag);
    w.remove_entity_state(0, &tag);
    assert!(!w.get_entity_states(0).contains(&tag));
    let other = String::from("idle");
    w.add_entity_state(0, other.clone());
    w.remove_entity_state(0, &tag);
    assert!(w.get_entity_states(0).contains(&other));
}

#[test]
fn deload_keeps_first_entity_only() {
    let mut w = two_entity_world();
    w.add_entity(None, None, None, None);
    assert_eq!(w.entity_count(), 3);
    w.deload();
    assert_eq!(w.entity_count(), 1);
    assert_eq!(w.effects.len(), 0);
    assert_eq!(w.dialogs.len(), 0);
}

#[test]
fn accessors_return_components() {
    let w = two_entity_world();
    let (p, ph) = w.get_entity_physics(1);
    assert_eq!(p.as_ref().unwrap().x, 15);
    assert_eq!(ph.as_ref().unwrap().depth, 10);
    assert!(w.get_entity_positions(0).is_some());
    let (gp, gg) = w.get_entity_graphics(0);
    assert!(gp.is_some());
    assert!(gg.is_none());
}

#[test]
fn apply_effects_adds_and_removes_tags_inside_rect() {
    let mut w = two_entity_world();
    w.add_entity_state(0, String::from("dry"));
    w.effects.push(Effect::new(
        vec![String::from("wet")],
        vec![String::from("dry")],
        Rect::new(0, 0, 5, 5),
        None,
        0,
    ));
    w.apply_effects();
    // entity 0's footprint (0,0,10,10) meets the effect; entity 1's does not
    assert!(w.get_entity_states(0).contains(&String::from("wet")));
    assert!(!w.get_entity_states(0).contains(&String::from("dry")));
    assert!(!w.get_entity_states(1).contains(&String::from("wet")));
}

#[test]
fn effect_finished_only_after_ttl() {
    let e = Effect::new(Vec::new(), Vec::new(), Rect::new(0, 0, 1, 1), Some(100), 50);
    assert!(!e.finished(50));
    assert!(!e.finished(150));
    assert!(e.finished(151));
    let forever = Effect::new(Vec::new(), Vec::new(), Rect::new(0, 0, 1, 1), None, 0);
    assert!(!forever.finished(u64::MAX));
}

#[test]
fn filtered_index_lists_match_components() {
    let mut w = World::new();
    w.add_entity(Some(PositionComponent::new(0, 0)), None, None, None);
    w.add_entity(None, None, None, None);
    let (p, f) = (
        Some(PositionComponent::new(1, 1)),
        Some(PhysicsComponent::new(Rect::new(0, 0, 2, 2), 2, true)),
    );
    w.add_entity(p, f, None, None);
    w.add_entity(None, Some(PhysicsComponent::new(Rect::new(0, 0, 2, 2), 2, true)), None, None);
    assert_eq!(w.positions_ids(), vec![0, 2]);
    assert_eq!(w.physics_ids(), vec![2]);
}
