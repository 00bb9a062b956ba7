//! Scripted actions: the closed set of operations a tag-triggered sequence
//! can perform on the world. An action mutates the tag set of the entity
//! that owns the sequence, the world's effect list, or the current dialog.

use vstd::prelude::*;
use crate::effect::Effect;
use crate::model::{ActionM, EffM};
use crate::tags::TagSet;

verus! {

/// An action which adds a state to the entity who spawned it.
#[derive(Debug)]
pub struct AddState {
    /// State to add.
    pub state: String,
}

/// An action which removes a state from the entity who spawned it.
#[derive(Debug)]
pub struct RemoveState {
    /// State to remove.
    pub state: String,
}

/// An action which adds an effect to the world.
#[derive(Debug)]
pub struct AddEffect {
    /// Effect to add.
    pub effect: Effect,
}

/// An action which shows a dialog box.
#[derive(Debug)]
pub struct ShowDialog {
    /// Name of dialog to display.
    pub dialog: String,
}

/// An action caused by a change in state or a world event: a closed,
/// discriminated set of operations rather than open trait objects, since the
/// operation set is fixed and small.
#[derive(Debug)]
pub enum Action {
    AddState(AddState),
    RemoveState(RemoveState),
    AddEffect(AddEffect),
    ShowDialog(ShowDialog),
}

impl View for Action {
    type V = ActionM;

    open spec fn view(&self) -> ActionM {
        match self {
            Action::AddState(a) => ActionM::AddState { state: a.state@ },
            Action::RemoveState(a) => ActionM::RemoveState { state: a.state@ },
            Action::AddEffect(a) => ActionM::AddEffect { effect: a.effect@ },
            Action::ShowDialog(a) => ActionM::ShowDialog { dialog: a.dialog@ },
        }
    }
}

/// What one action does to an entity's tag set, the world's effects, and the
/// current dialog.
pub open spec fn apply_action(
    a: ActionM,
    tags: Set<Seq<char>>,
    effects: Seq<EffM>,
    dialog: Option<Seq<char>>,
) -> (Set<Seq<char>>, Seq<EffM>, Option<Seq<char>>) {
    match a {
        ActionM::AddState { state } => (tags.insert(state), effects, dialog),
        ActionM::RemoveState { state } => (tags.remove(state), effects, dialog),
        ActionM::AddEffect { effect } => (tags, effects.push(effect), dialog),
        ActionM::ShowDialog { dialog: d } => (tags, effects, Some(d)),
    }
}

impl Action {
    /// Run the action, modifying entity state, world effects, or the current
    /// dialog.
    pub fn tick(&self, states: &mut TagSet, effects: &mut Vec<Effect>, dialog: &mut Option<String>)
        requires
            old(states).wf(),
        ensures
            final(states).wf(),
            (final(states)@, final(effects)@.map_values(|e: Effect| e@), dialog_view(*final(dialog)))
                == apply_action(self@, old(states)@, old(effects)@.map_values(|e: Effect| e@),
            dialog_view(*old(dialog))),
    {
        match self {
            Action::AddState(a) => {
                states.insert(a.state.clone());
            },
            Action::RemoveState(a) => {
                states.remove(&a.state);
            },
            Action::AddEffect(a) => {
                effects.push(a.effect.duplicate());
                proof {
                    assert(effects@.map_values(|e: Effect| e@) =~= old(effects)@.map_values(
                        |e: Effect| e@).push(a.effect@));
                }
            },
            Action::ShowDialog(a) => {
                *dialog = Some(a.dialog.clone());
            },
        }
    }
}

/// The view of an optional dialog name.
pub open spec fn dialog_view(d: Option<String>) -> Option<Seq<char>> {
    match d {
        Some(s) => Some(s@),
        None => None,
    }
}

} // verus!
