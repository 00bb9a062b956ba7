use game_core::ai::AISystem;
use game_core::geometry::{PositionComponent, Rect};
use game_core::graphics::GraphicsComponent;
use game_core::physics::PhysicsComponent;
use game_core::vector::Vector;
use game_core::world::World;

fn scene(player: (i64, i64), monster: (i64, i64)) -> World {
    let mut w = World::new();
    w.current_world = String::from("lake");
    w.add_entity(
        Some(PositionComponent::new(player.0, player.1)),
        Some(PhysicsComponent::new(Rect::new(0, 0, 1, 1), 1, true)),
        Some(GraphicsComponent::new(false)),
        None,
    );
    w.add_entity(
        Some(PositionComponent::new(monster.0, monster.1)),
        Some(PhysicsComponent::new(Rect::new(0, 0, 1, 1), 1, true)),
        Some(GraphicsComponent::new(false)),
        None,
    );
    w
}

#[test]
fn aggroed_monster_teleports_after_the_player() {
    let mut w = scene((10, 0), (0, 0));
    w.add_entity_state(1, String::from("idle"));
    let mut ai = AISystem::new(vec![(0, 0, 1000)], 100, 1000, 0);

    ai.run(&mut w, 100);
    assert!(w.get_entity_states(1).contains(&String::from("aggro")));

    // the player moves to another scene while the monster is in pursuit
    w.current_world = String::from("cave");
    ai.run(&mut w, 200);
    assert!(ai.awaiting_teleport);
    assert!(w.positions[1].is_none());
    assert_eq!(ai.monster_world, String::from("cave"));
    assert_eq!(ai.teleport_location, (10, 0));

    // the teleport delay has not passed: still absent
    ai.run(&mut w, 5000);
    assert!(w.positions[1].is_none());
    assert!(ai.awaiting_teleport);

    // past the delay the monster appears at the stored spot, raised by its
    // hitbox height
    ai.run(&mut w, 5300);
    assert!(!ai.awaiting_teleport);
    let p = w.positions[1].as_ref().unwrap();
    assert_eq!((p.x, p.y), (10, -1));
}

#[test]
fn unaggroed_monster_parks_at_home_and_idles_in_simulation() {
    let mut w = scene((10, 0), (3, 4));
    w.add_entity_state(1, String::from("idle"));
    let mut ai = AISystem::new(vec![(0, 0, 1000), (40, 0, 1000)], 0, 1000, 0);

    // the player leaves while the monster idles: park at the nearest
    // waypoint and leave the arrays
    w.current_world = String::from("cave");
    ai.run(&mut w, 100);
    assert!(w.positions[1].is_none());
    assert!(!ai.awaiting_teleport);
    assert_eq!(ai.monster_world, String::from("lake"));
    assert_eq!(ai.monster_lake_pos, (0, 0));
    assert_eq!(ai.next_idle, 1);

    // while the player is away, idling is simulated by interpolation toward
    // the next waypoint: half the wait duration covers half the leg
    ai.run(&mut w, 600);
    assert!(w.positions[1].is_none());
    assert_eq!(ai.monster_lake_pos, (20, 0));

    // back home the monster is restored at its simulated position and walks
    // the real loop again
    w.current_world = String::from("lake");
    ai.run(&mut w, 700);
    let p = w.positions[1].as_ref().unwrap();
    assert_eq!((p.x, p.y), (20, 0));
    assert_eq!(w.physics[1].as_ref().unwrap().velocity, Vector::new(60, 0));
    assert!(w.get_entity_states(1).contains(&String::from("walking")));
}
