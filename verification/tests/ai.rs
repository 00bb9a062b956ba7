use game_core::ai::AISystem;
use game_core::geometry::{PositionComponent, Rect};
use game_core::graphics::GraphicsComponent;
use game_core::physics::PhysicsComponent;
use game_core::vector::Vector;
use game_core::world::World;

/// A scene whose entity 0 is the player and entity 1 the monster, both with
/// unit hitboxes so footprint corners coincide with positions.
fn scene(player: (i64, i64), monster: (i64, i64)) -> World {
    let mut w = World::new();
    w.current_world = String::from("lake");
    w.add_entity(
        Some(PositionComponent::new(player.0, player.1)),
        Some(PhysicsComponent::new(Rect::new(0, 0, 1, 1), 1, true)),
        Some(GraphicsComponent::new(false)),
        None,
    );
    w.add_entity(
        Some(PositionComponent::new(monster.0, monster.1)),
        Some(PhysicsComponent::new(Rect::new(0, 0, 1, 1), 1, true)),
        Some(GraphicsComponent::new(false)),
        None,
    );
    w
}

fn block_sight(w: &mut World) -> usize {
    // a footprint lying on the segment between the two unit footprints
    w.add_entity(
        Some(PositionComponent::new(40, 0)),
        Some(PhysicsComponent::new(Rect::new(0, 0, 2, 2), 2, true)),
        None,
        None,
    )
}

#[test]
fn idle_path_index_cycles_forever() {
    let mut w = scene((500, 500), (0, 0));
    w.add_entity_state(1, String::from("idle"));
    // two waypoints; aggro can never trigger with a zero aggro distance
    let mut ai = AISystem::new(vec![(0, 0, 1000), (10, 0, 1000)], 0, 1000, 0);
    assert_eq!(ai.next_idle, 0);

    // standing on the first waypoint: arrive, advance to 1, no movement yet
    ai.run(&mut w, 100);
    assert_eq!(ai.next_idle, 1);

    // far from waypoint 1: walk toward it at the idle speed
    ai.run(&mut w, 200);
    assert_eq!(ai.next_idle, 1);
    let vel = w.physics[1].as_ref().unwrap().velocity;
    assert_eq!(vel, Vector::new(60, 0));
    assert!(w.get_entity_states(1).contains(&String::from("walking")));
    assert!(!w.graphics[1].as_ref().unwrap().flipped);

    // arriving at waypoint 1 wraps the index back to 0: monotone modulo 2
    w.positions[1] = Some(PositionComponent::new(10, 0));
    ai.run(&mut w, 300);
    assert_eq!(ai.next_idle, 0);

    // and on around again
    w.positions[1] = Some(PositionComponent::new(0, 0));
    ai.run(&mut w, 400);
    assert_eq!(ai.next_idle, 1);
}

#[test]
fn aggro_when_player_visible_and_near() {
    let mut w = scene((50, 0), (0, 0));
    w.add_entity_state(1, String::from("idle"));
    let mut ai = AISystem::new(vec![(0, 0, 1000)], 100, 1000, 0);
    ai.run(&mut w, 100);
    let tags = w.get_entity_states(1);
    assert!(tags.contains(&String::from("aggro")));
    assert!(!tags.contains(&String::from("idle")));
    assert!(!tags.contains(&String::from("lost")));
    // pursuing the player: moving right, facing right
    let vel = w.physics[1].as_ref().unwrap().velocity;
    assert!(vel.x > 0);
    assert!(!w.graphics[1].as_ref().unwrap().flipped);
}

#[test]
fn no_aggro_when_player_too_far() {
    let mut w = scene((50, 0), (0, 0));
    w.add_entity_state(1, String::from("idle"));
    let mut ai = AISystem::new(vec![(0, 0, 1000)], 10, 1000, 0);
    ai.run(&mut w, 100);
    assert!(!w.get_entity_states(1).contains(&String::from("aggro")));
    assert!(w.get_entity_states(1).contains(&String::from("idle")));
}

#[test]
fn blocking_footprint_breaks_line_of_sight() {
    let mut w = scene((100, 0), (0, 0));
    let ai = AISystem::new(vec![(0, 0, 1000)], 200, 1000, 0);
    assert!(ai.player_visible(&w));
    let obstacle = block_sight(&mut w);
    assert!(!ai.player_visible(&w));
    // taking the obstacle's physics away restores sight
    w.physics[obstacle] = None;
    assert!(ai.player_visible(&w));
}

#[test]
fn lost_after_exactly_the_delay_not_before() {
    let mut w = scene((50, 0), (0, 0));
    w.add_entity_state(1, String::from("idle"));
    let mut ai = AISystem::new(vec![(0, 0, 1000), (10, 0, 1000)], 100, 500, 0);

    // sight established: aggro
    ai.run(&mut w, 100);
    assert!(w.get_entity_states(1).contains(&String::from("aggro")));

    // sight broken: lost, halted, and the loss time recorded
    block_sight(&mut w);
    ai.run(&mut w, 200);
    let tags = w.get_entity_states(1);
    assert!(tags.contains(&String::from("lost")));
    assert!(!tags.contains(&String::from("aggro")));
    assert_eq!(ai.last_aggro, 200);
    assert_eq!(w.physics[1].as_ref().unwrap().velocity, Vector::new(0, 0));

    // exactly the delay later: not yet back to idle
    ai.run(&mut w, 700);
    assert!(w.get_entity_states(1).contains(&String::from("lost")));
    assert!(!w.get_entity_states(1).contains(&String::from("idle")));

    // one tick past the delay: idle again, replanned to the nearest waypoint
    ai.run(&mut w, 701);
    assert!(w.get_entity_states(1).contains(&String::from("idle")));
    assert!(!w.get_entity_states(1).contains(&String::from("lost")));
    assert_eq!(ai.next_idle, 1);
    assert_eq!(ai.last_idle_time, 701);
}

#[test]
fn facing_follows_horizontal_velocity_sign() {
    let mut w = scene((500, 500), (20, 0));
    w.add_entity_state(1, String::from("idle"));
    let mut ai = AISystem::new(vec![(0, 0, 1000)], 0, 1000, 0);
    // waypoint lies to the left of the monster: walk left, flip the sprite
    ai.run(&mut w, 100);
    let vel = w.physics[1].as_ref().unwrap().velocity;
    assert!(vel.x < 0);
    assert!(w.graphics[1].as_ref().unwrap().flipped);
}
