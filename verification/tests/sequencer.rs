use game_core::actions::{Action, AddEffect, AddState, RemoveState, ShowDialog};
use game_core::dialog::Dialog;
use game_core::effect::{Effect, EffectSpawner, EffectSystem};
use game_core::geometry::{PositionComponent, Rect};
use game_core::physics::PhysicsComponent;
use game_core::state::{ActionComponent, Sequence, StateSystem};
use game_core::tags::TagSet;
use game_core::world::World;

fn add_state(tag: &str) -> Action {
    Action::AddState(AddState { state: String::from(tag) })
}

fn remove_state(tag: &str) -> Action {
    Action::RemoveState(RemoveState { state: String::from(tag) })
}

#[test]
fn actions_mutate_their_targets() {
    let mut tags = TagSet::new();
    let mut effects: Vec<Effect> = Vec::new();
    let mut dialog: Option<String> = None;

    add_state("hot").tick(&mut tags, &mut effects, &mut dialog);
    assert!(tags.contains(&String::from("hot")));

    remove_state("hot").tick(&mut tags, &mut effects, &mut dialog);
    assert!(!tags.contains(&String::from("hot")));

    let spawned = Effect::new(vec![String::from("burn")], Vec::new(), Rect::new(0, 0, 2, 2), None, 7);
    Action::AddEffect(AddEffect { effect: spawned }).tick(&mut tags, &mut effects, &mut dialog);
    assert_eq!(effects.len(), 1);
    assert_eq!(effects[0].adds[0], String::from("burn"));
    assert_eq!(effects[0].created, 7);

    Action::ShowDialog(ShowDialog { dialog: String::from("intro") }).tick(
        &mut tags,
        &mut effects,
        &mut dialog,
    );
    assert_eq!(dialog, Some(String::from("intro")));
}

#[test]
fn sequence_walks_and_wraps() {
    let mut s = Sequence::new(vec![(0, add_state("a")), (100, add_state("b"))], 0);
    assert!(s.ready(0));
    s.tick();
    assert_eq!(s.curr_index, 1);
    assert!(!s.ready(50));
    assert!(s.ready(100));
    s.tick();
    assert_eq!(s.curr_index, 0);
}

#[test]
fn run_all_applies_every_action_in_order() {
    let s = Sequence::new(vec![(0, add_state("x")), (0, remove_state("x")), (0, add_state("y"))], 0);
    let mut tags = TagSet::new();
    let mut effects: Vec<Effect> = Vec::new();
    let mut dialog: Option<String> = None;
    s.run_all(&mut tags, &mut effects, &mut dialog);
    assert!(!tags.contains(&String::from("x")));
    assert!(tags.contains(&String::from("y")));
}

#[test]
fn state_system_runs_triggered_sequences_only() {
    let mut w = World::new();
    let seq_hit = Sequence::new(vec![(0, add_state("hit"))], 0);
    let seq_missed = Sequence::new(vec![(0, add_state("missed"))], 0);
    let comp = ActionComponent::new(vec![
        (vec![String::from("go")], seq_hit),
        (vec![String::from("absent")], seq_missed),
    ]);
    w.add_entity(None, None, None, Some(comp));
    w.add_entity_state(0, String::from("go"));

    let mut sys = StateSystem::new();
    sys.run(&mut w, 50);

    assert!(w.get_entity_states(0).contains(&String::from("hit")));
    assert!(!w.get_entity_states(0).contains(&String::from("missed")));
}

#[test]
fn state_system_stops_at_unexpired_delay() {
    let mut w = World::new();
    let seq = Sequence::new(vec![(0, add_state("first")), (1000, add_state("second"))], 0);
    let comp = ActionComponent::new(vec![(Vec::new(), seq)]);
    w.add_entity(None, None, None, Some(comp));

    let mut sys = StateSystem::new();
    sys.run(&mut w, 10);
    // the first action's delay has passed, the second one's has not
    assert!(w.get_entity_states(0).contains(&String::from("first")));
    assert!(!w.get_entity_states(0).contains(&String::from("second")));

    sys.run(&mut w, 1000);
    assert!(w.get_entity_states(0).contains(&String::from("second")));
}

#[test]
fn dialog_cycles_messages() {
    let mut d = Dialog::new(vec![String::from("hello"), String::from("bye")], None);
    assert_eq!(d.msg(), String::from("hello"));
    assert!(!d.finished());
    assert_eq!(d.next(), String::from("hello"));
    assert_eq!(d.msg(), String::from("bye"));
    assert!(d.finished());
    assert_eq!(d.next(), String::from("bye"));
    assert_eq!(d.msg(), String::from("hello"));
}

#[test]
fn dialog_run_after_spawns_effects() {
    let eff = Effect::new(vec![String::from("done")], Vec::new(), Rect::new(0, 0, 1, 1), None, 0);
    let after = Sequence::new(vec![(0, Action::AddEffect(AddEffect { effect: eff }))], 0);
    let d = Dialog::new(vec![String::from("hi")], Some(after));
    let mut effects: Vec<Effect> = Vec::new();
    let mut dialog: Option<String> = None;
    d.run_after(&mut effects, &mut dialog);
    assert_eq!(effects.len(), 1);
}

#[test]
fn effect_system_applies_then_expires() {
    let mut w = World::new();
    w.add_entity(
        Some(PositionComponent::new(0, 0)),
        Some(PhysicsComponent::new(Rect::new(0, 0, 4, 4), 4, true)),
        None,
        None,
    );
    let spawner = EffectSpawner::new(
        vec![String::from("wet")],
        Vec::new(),
        Rect::new(0, 0, 8, 8),
        Some(100),
    );
    w.effects.push(spawner.spawn(0));
    let mut sys = EffectSystem::new();

    sys.run(&mut w, 50);
    assert!(w.get_entity_states(0).contains(&String::from("wet")));
    assert_eq!(w.effects.len(), 1);

    // past its time to live the effect is dropped
    sys.run(&mut w, 151);
    assert_eq!(w.effects.len(), 0);
}

#[test]
fn dialogs_are_stored_by_name() {
    let mut w = World::new();
    w.add_dialog(
        String::from("intro"),
        Dialog::new(vec![String::from("hello")], None),
    );
    assert_eq!(w.dialogs.len(), 1);
    assert_eq!(w.dialogs[0].0, String::from("intro"));
    assert_eq!(w.dialogs[0].1.msg(), String::from("hello"));
}
