//! Tag-triggered action sequences: each entity may pair sets of required
//! tags with a sequence of delayed actions, and the state system runs the
//! sequences whose requirements its current tags meet.

use vstd::prelude::*;
use crate::actions::{Action, apply_action, dialog_view};
use crate::effect::Effect;
use crate::model::{ActionM, EffM, EntM, SequenceM, WorldM};
use crate::tags::TagSet;
use crate::world::{ent_model, World};

verus! {

/// A sequence of actions, to be run in order after specified delays.
#[derive(Debug)]
pub struct Sequence {
    /// Clock value, in milliseconds, of the last time the index switched.
    pub last_switch: u64,
    /// List of (delay, action) pairs: each action runs only once its delay
    /// has passed since the sequence last switched.
    pub actions: Vec<(u64, Action)>,
    /// Currently selected action.
    pub curr_index: usize,
}

impl View for Sequence {
    type V = SequenceM;

    open spec fn view(&self) -> SequenceM {
        SequenceM {
            last_switch: self.last_switch as int,
            steps: self.actions@.map_values(|p: (u64, Action)| (p.0 as int, p.1@)),
            curr: self.curr_index as int,
        }
    }
}

/// A sequence is well formed when its index points at one of its actions.
pub open spec fn seq_wf(s: SequenceM) -> bool {
    0 <= s.curr < s.steps.len()
}

impl Sequence {
    /// Create a new sequence at clock value `now_ms`; a sequence holds at
    /// least one action.
    pub fn new(actions: Vec<(u64, Action)>, now_ms: u64) -> (r: Sequence)
        requires
            actions@.len() > 0,
        ensures
            r@ == (SequenceM {
                last_switch: now_ms as int,
                steps: actions@.map_values(|p: (u64, Action)| (p.0 as int, p.1@)),
                curr: 0,
            }),
            seq_wf(r@),
    {
        Sequence { last_switch: now_ms, actions, curr_index: 0 }
    }

    /// Get the current action.
    pub fn current(&self) -> (r: &Action)
        requires
            seq_wf(self@),
        ensures
            r@ == self@.steps[self@.curr].1,
    {
        &self.actions[self.curr_index].1
    }

    /// Move the index to the next action, wrapping back to the start.
    pub fn tick(&mut self)
        requires
            seq_wf(old(self)@),
        ensures
            final(self)@ == (SequenceM {
                curr: if old(self)@.curr == old(self)@.steps.len() - 1 {
                    0
                } else {
                    old(self)@.curr + 1
                },
                ..old(self)@
            }),
            seq_wf(final(self)@),
    {
        if self.curr_index == self.actions.len() - 1 {
            self.curr_index = 0;
        } else {
            self.curr_index = self.curr_index + 1;
        }
    }

    /// Whether the current action's delay has passed at clock value `now_ms`.
    pub fn ready(&self, now_ms: u64) -> (r: bool)
        requires
            seq_wf(self@),
        ensures
            r == seq_ready(self@, now_ms as int),
    {
        let delay = self.actions[self.curr_index].0;
        now_ms >= self.last_switch && now_ms - self.last_switch >= delay
    }

    /// Run every action of the sequence once, in order, from the start.
    pub fn run_all(&self, states: &mut TagSet, effects: &mut Vec<Effect>, dialog: &mut Option<
        String>)
        requires
            old(states).wf(),
        ensures
            final(states).wf(),
            (final(states)@, final(effects)@.map_values(|e: Effect| e@), dialog_view(*final(dialog)))
                == run_all_from(self@.steps, 0, old(states)@, old(effects)@.map_values(
                |e: Effect| e@,
            ), dialog_view(*old(dialog))),
    {
        let n = self.actions.len();
        let mut i: usize = 0;
        while i < n
            invariant
                n == self.actions@.len(),
                0 <= i <= n,
                states.wf(),
                run_all_from(self@.steps, 0, old(states)@, old(effects)@.map_values(|e: Effect| e@),
                    dialog_view(*old(dialog))) == run_all_from(self@.steps, i as int, states@,
                    effects@.map_values(|e: Effect| e@), dialog_view(*dialog)),
            decreases n - i,
        {
            self.actions[i].1.tick(states, effects, dialog);
            i = i + 1;
        }
    }
}

/// Whether a sequence's current delay has passed at clock value `now`.
pub open spec fn seq_ready(s: SequenceM, now: int) -> bool {
    now - s.last_switch >= s.steps[s.curr].0
}

/// Apply the actions of `steps` from index `i` on, in order.
pub open spec fn run_all_from(
    steps: Seq<(int, ActionM)>,
    i: int,
    tags: Set<Seq<char>>,
    effects: Seq<EffM>,
    dialog: Option<Seq<char>>,
) -> (Set<Seq<char>>, Seq<EffM>, Option<Seq<char>>)
    decreases steps.len() - i,
{
    if i < 0 || i >= steps.len() {
        (tags, effects, dialog)
    } else {
        let (t2, e2, d2) = apply_action(steps[i].1, tags, effects, dialog);
        run_all_from(steps, i + 1, t2, e2, d2)
    }
}

/// Data about triggers and actions for a specific entity: each entry pairs
/// the list of tags that must all be present with the sequence to run.
#[derive(Debug)]
pub struct ActionComponent {
    /// Pairs of required states and the sequence of actions to run while the
    /// entity holds all of them.
    pub actions: Vec<(Vec<String>, Sequence)>,
}

/// Model of an action component.
pub open spec fn acts_view(a: ActionComponent) -> Seq<(Seq<Seq<char>>, SequenceM)> {
    a.actions@.map_values(|p: (Vec<String>, Sequence)| (crate::effect::strings_view(p.0@), p.1@))
}

impl View for ActionComponent {
    type V = Seq<(Seq<Seq<char>>, SequenceM)>;

    open spec fn view(&self) -> Seq<(Seq<Seq<char>>, SequenceM)> {
        acts_view(*self)
    }
}

/// An action component is well formed when every sequence in it is.
pub open spec fn acts_wf(a: Seq<(Seq<Seq<char>>, SequenceM)>) -> bool {
    forall|k: int| 0 <= k < a.len() ==> seq_wf(#[trigger] a[k].1)
}

impl ActionComponent {
    /// Create a new action component.
    pub fn new(actions: Vec<(Vec<String>, Sequence)>) -> (r: ActionComponent)
        ensures
            r.actions@ == actions@,
    {
        ActionComponent { actions }
    }

    /// Whether the entry at `k` is triggered: all its required states are
    /// held by the given tag set.
    pub fn triggered(&self, k: usize, states: &TagSet) -> (r: bool)
        requires
            k < self.actions@.len(),
        ensures
            r == requires_met(self@[k as int].0, states@),
    {
        let ghost kk: int = k as int;
        let req = &self.actions[k].0;
        proof {
            assert(self@[kk].0 == crate::effect::strings_view(self.actions@[kk].0@));
        }
        let n = req.len();
        let mut i: usize = 0;
        while i < n
            invariant
                n == req@.len(),
                0 <= i <= n,
                kk == k as int,
                0 <= kk < self.actions@.len(),
                req@ == self.actions@[kk].0@,
                self@[kk].0 == crate::effect::strings_view(req@),
                forall|j: int| 0 <= j < i ==> states@.contains(#[trigger] req@[j]@),
            decreases n - i,
        {
            if !states.contains(&req[i]) {
                assert(self@[kk].0[i as int] == req@[i as int]@);
                assert(!requires_met(self@[kk].0, states@));
                return false;
            }
            i = i + 1;
        }
        assert forall|j: int| 0 <= j < self@[kk].0.len() implies states@.contains(
            #[trigger] self@[kk].0[j]) by {
            assert(self@[kk].0[j] == req@[j]@);
        }
        true
    }
}

/// Whether every required tag is present in a tag set.
pub open spec fn requires_met(req: Seq<Seq<char>>, tags: Set<Seq<char>>) -> bool {
    forall|j: int| 0 <= j < req.len() ==> tags.contains(#[trigger] req[j])
}

/// Run one sequence as far as its delays allow at clock value `now`: apply
/// the current action and advance while the current delay has passed,
/// stopping after the index wraps back to the start.
pub open spec fn run_seq_steps(
    s: SequenceM,
    tags: Set<Seq<char>>,
    effects: Seq<EffM>,
    dialog: Option<Seq<char>>,
    now: int,
) -> (SequenceM, Set<Seq<char>>, Seq<EffM>, Option<Seq<char>>)
    decreases s.steps.len() - s.curr,
{
    if !seq_wf(s) || !seq_ready(s, now) {
        (s, tags, effects, dialog)
    } else {
        let applied = apply_action(s.steps[s.curr].1, tags, effects, dialog);
        let curr2: int = if s.curr == s.steps.len() - 1 {
            0
        } else {
            s.curr + 1
        };
        let s2 = SequenceM { curr: curr2, ..s };
        if curr2 == 0 {
            (s2, applied.0, applied.1, applied.2)
        } else {
            run_seq_steps(s2, applied.0, applied.1, applied.2, now)
        }
    }
}

/// Run the sequences of one action component from entry `k` on: a sequence
/// runs when the tags the entity held on entry (`tags0`) meet its
/// requirements, and the tag, effect and dialog changes thread through.
pub open spec fn run_acts(
    acts: Seq<(Seq<Seq<char>>, SequenceM)>,
    tags0: Set<Seq<char>>,
    k: int,
    tags: Set<Seq<char>>,
    effects: Seq<EffM>,
    dialog: Option<Seq<char>>,
    now: int,
) -> (Seq<(Seq<Seq<char>>, SequenceM)>, Set<Seq<char>>, Seq<EffM>, Option<Seq<char>>)
    decreases acts.len() - k,
{
    if k < 0 || k >= acts.len() {
        (acts, tags, effects, dialog)
    } else if requires_met(acts[k].0, tags0) {
        let r = run_seq_steps(acts[k].1, tags, effects, dialog, now);
        run_acts(acts.update(k, (acts[k].0, r.0)), tags0, k + 1, r.1, r.2, r.3, now)
    } else {
        run_acts(acts, tags0, k + 1, tags, effects, dialog, now)
    }
}

/// One pass of the state system from entity `i` on: each entity with an
/// action component runs its triggered sequences against its own tags and
/// the world's effects and dialog.
pub open spec fn state_pass(w: WorldM, now: int, i: int) -> WorldM
    decreases w.ents.len() - i,
{
    if i < 0 || i >= w.ents.len() {
        w
    } else {
        let e = w.ents[i];
        match e.acts {
            Some(acts) => {
                let r = run_acts(acts, e.tags, 0, e.tags, w.effects, w.curr_dialog, now);
                let w2 = WorldM {
                    ents: w.ents.update(i, EntM { tags: r.1, acts: Some(r.0), ..e }),
                    effects: r.2,
                    curr_dialog: r.3,
                    ..w
                };
                state_pass(w2, now, i + 1)
            },
            None => state_pass(w, now, i + 1),
        }
    }
}

/// Handles pairing specific states to triggers.
pub struct StateSystem {}

impl ActionComponent {
    /// Run one step of the sequence at `k`: when its current delay has
    /// passed, apply the current action and advance the index. The result
    /// says whether the walk must stop — because the delay has not passed,
    /// or because the index wrapped back to the start.
    pub fn step_sequence(
        &mut self,
        k: usize,
        states: &mut TagSet,
        effects: &mut Vec<Effect>,
        dialog: &mut Option<String>,
        now_ms: u64,
    ) -> (stop: bool)
        requires
            k < old(self)@.len(),
            seq_wf(old(self)@[k as int].1),
            old(states).wf(),
        ensures
            final(states).wf(),
            final(self)@.len() == old(self)@.len(),
            seq_wf(final(self)@[k as int].1),
            ({
                let s0 = old(self)@[k as int].1;
                if !seq_ready(s0, now_ms as int) {
                    &&& stop
                    &&& final(self)@ == old(self)@
                    &&& final(states)@ == old(states)@
                    &&& final(effects)@ == old(effects)@
                    &&& *final(dialog) == *old(dialog)
                } else {
                    let applied = apply_action(s0.steps[s0.curr].1, old(states)@, old(
                        effects,
                    )@.map_values(|e: Effect| e@), dialog_view(*old(dialog)));
                    let s2 = SequenceM {
                        curr: if s0.curr == s0.steps.len() - 1 {
                            0
                        } else {
                            s0.curr + 1
                        },
                        ..s0
                    };
                    &&& final(self)@ == old(self)@.update(k as int, (old(self)@[k as int].0, s2))
                    &&& (final(states)@, final(effects)@.map_values(|e: Effect| e@), dialog_view(
                        *final(dialog),
                    )) == applied
                    &&& stop == (s2.curr == 0)
                }
            }),
    {
        let ghost a0 = self@;
        let ready = self.actions[k].1.ready(now_ms);
        if !ready {
            proof {
                assert(self@ =~= a0);
            }
            return true;
        }
        let sq = &mut self.actions[k].1;
        let ci = sq.curr_index;
        let act = &sq.actions[ci].1;
        proof {
            assert(act@ == a0[k as int].1.steps[a0[k as int].1.curr].1);
        }
        act.tick(states, effects, dialog);
        sq.tick();
        let stop = sq.curr_index == 0;
        proof {
            assert(self@ =~= a0.update(
                k as int,
                (
                    a0[k as int].0,
                    SequenceM {
                        curr: if a0[k as int].1.curr == a0[k as int].1.steps.len() - 1 {
                            0int
                        } else {
                            a0[k as int].1.curr + 1
                        },
                        ..a0[k as int].1
                    },
                ),
            ));
        }
        stop
    }
}

impl StateSystem {
    /// Create a new state system.
    pub fn new() -> StateSystem {
        StateSystem {  }
    }

    /// For each entity in the world, run the sequences whose required
    /// states the entity held at the start of its turn, at clock value
    /// `now_ms`.
    pub fn run(&mut self, world: &mut World, now_ms: u64)
        requires
            old(world).wf(),
        ensures
            final(world).wf(),
            final(world)@ == state_pass(old(world)@, now_ms as int, 0),
    {
        let ghost w0 = world@;
        let n = world.states.len();
        let mut i: usize = 0;
        while i < n
            invariant
                world.wf(),
                n == world.states@.len(),
                0 <= i <= n,
                w0 == old(world)@,
                w0.ents.len() == n,
                world.positions@ == old(world).positions@,
                world.physics@ == old(world).physics@,
                world.graphics@ == old(world).graphics@,
                world.current_world == old(world).current_world,
                world.dialogs@ == old(world).dialogs@,
                state_pass(w0, now_ms as int, 0) == state_pass(world@, now_ms as int, i as int),
            decreases n - i,
        {
            let ghost ww_i = *world;
            let ghost w_i = world@;
            let ghost states_i = world.states@;
            let ghost actions_i = world.actions@;
            let has_acts = world.actions[i].is_some();
            if has_acts {
                let ghost tags0 = world@.ents[i as int].tags;
                let ghost acts0 = world@.ents[i as int].acts->Some_0;
                proof {
                    assert(w_i.ents[i as int] == ent_model(world, i as int));
                }
                let m = match &world.actions[i] {
                    Some(ac) => ac.actions.len(),
                    None => 0,
                };
                let mut trig: Vec<bool> = Vec::new();
                let mut k: usize = 0;
                while k < m
                    invariant
                        world.wf(),
                        world@ == w_i,
                        world.states@ == states_i,
                        world.actions@ == actions_i,
                        n == world.states@.len(),
                        0 <= i < n,
                        0 <= k <= m,
                        world.actions@[i as int] is Some,
                        m == world.actions@[i as int]->Some_0.actions@.len(),
                        tags0 == world@.ents[i as int].tags,
                        acts0 == world@.ents[i as int].acts->Some_0,
                        acts0.len() == m,
                        trig@.len() == k,
                        forall|q: int|
                            0 <= q < k ==> trig@[q] == requires_met((#[trigger] acts0[q]).0,
                                tags0),
                    decreases m - k,
                {
                    proof {
                        assert(w_i.ents[i as int] == ent_model(world, i as int));
                        assert(world.states@[i as int]@ == tags0);
                    }
                    let t = match &world.actions[i] {
                        Some(ac) => ac.triggered(k, &world.states[i]),
                        None => false,
                    };
                    trig.push(t);
                    k = k + 1;
                }
                let ghost effs_i = world@.effects;
                let ghost dlg_i = world@.curr_dialog;
                let mut k: usize = 0;
                while k < m
                    invariant
                        world.wf(),
                        n == world.states@.len(),
                        0 <= i < n,
                        0 <= k <= m,
                        n == states_i.len(),
                        n == actions_i.len(),
                        world.positions@ == old(world).positions@,
                        world.physics@ == old(world).physics@,
                        world.graphics@ == old(world).graphics@,
                        world.current_world == old(world).current_world,
                        world.dialogs@ == old(world).dialogs@,
                        forall|idx: int|
                            0 <= idx < n && idx != i ==> world.states@[idx] == states_i[idx],
                        forall|idx: int|
                            0 <= idx < n && idx != i ==> world.actions@[idx] == actions_i[idx],
                        world.actions@[i as int] is Some,
                        world.actions@[i as int]->Some_0@.len() == m,
                        forall|q: int|
                            0 <= q < m ==> (#[trigger] world.actions@[i as int]->Some_0@[q]).0
                                == acts0[q].0,
                        acts0.len() == m,
                        trig@.len() == m,
                        forall|q: int|
                            0 <= q < m ==> trig@[q] == requires_met((#[trigger] acts0[q]).0,
                                tags0),
                        run_acts(acts0, tags0, 0, tags0, effs_i, dlg_i, now_ms as int)
                            == run_acts(world.actions@[i as int]->Some_0@, tags0, k as int,
                            world.states@[i as int]@, world@.effects, world@.curr_dialog,
                            now_ms as int),
                    decreases m - k,
                {
                    if trig[k] {
                        let ghost acts_pre = world.actions@[i as int]->Some_0@;
                        let ghost seq_s = acts_pre[k as int].1;
                        let ghost tags_s = world.states@[i as int]@;
                        let ghost effs_s = world@.effects;
                        let ghost dlg_s = world@.curr_dialog;
                        loop
                            invariant_except_break
                                run_seq_steps(seq_s, tags_s, effs_s, dlg_s, now_ms as int)
                                    == run_seq_steps(world.actions@[i as int]->Some_0@[
                                    k as int].1, world.states@[i as int]@, world@.effects,
                                    world@.curr_dialog, now_ms as int),
                            invariant
                                world.wf(),
                                n == world.states@.len(),
                                0 <= i < n,
                                0 <= k < m,
                                n == states_i.len(),
                                n == actions_i.len(),
                                world.positions@ == old(world).positions@,
                                world.physics@ == old(world).physics@,
                                world.graphics@ == old(world).graphics@,
                                world.current_world == old(world).current_world,
                                world.dialogs@ == old(world).dialogs@,
                                forall|idx: int|
                                    0 <= idx < n && idx != i ==> world.states@[idx] == states_i[
                                        idx],
                                forall|idx: int|
                                    0 <= idx < n && idx != i ==> world.actions@[idx]
                                        == actions_i[idx],
                                world.actions@[i as int] is Some,
                                world.actions@[i as int]->Some_0@.len() == m,
                                forall|q: int|
                                    0 <= q < m ==> (#[trigger] world.actions@[
                                    i as int]->Some_0@[q]).0 == acts0[q].0,
                                forall|q: int|
                                    0 <= q < m && q != k ==> (#[trigger] world.actions@[
                                    i as int]->Some_0@[q]).1 == acts_pre[q].1,
                            ensures
                                world.wf(),
                                n == world.states@.len(),
                                world.positions@ == old(world).positions@,
                                world.physics@ == old(world).physics@,
                                world.graphics@ == old(world).graphics@,
                                world.current_world == old(world).current_world,
                                world.dialogs@ == old(world).dialogs@,
                                forall|idx: int|
                                    0 <= idx < n && idx != i ==> world.states@[idx] == states_i[
                                        idx],
                                forall|idx: int|
                                    0 <= idx < n && idx != i ==> world.actions@[idx]
                                        == actions_i[idx],
                                world.actions@[i as int] is Some,
                                world.actions@[i as int]->Some_0@.len() == m,
                                forall|q: int|
                                    0 <= q < m ==> (#[trigger] world.actions@[
                                    i as int]->Some_0@[q]).0 == acts0[q].0,
                                forall|q: int|
                                    0 <= q < m && q != k ==> (#[trigger] world.actions@[
                                    i as int]->Some_0@[q]).1 == acts_pre[q].1,
                                run_seq_steps(seq_s, tags_s, effs_s, dlg_s, now_ms as int) == (
                                world.actions@[i as int]->Some_0@[k as int].1,
                                world.states@[i as int]@, world@.effects, world@.curr_dialog),
                            decreases world.actions@[i as int]->Some_0@[k as int].1.steps.len()
                                - world.actions@[i as int]->Some_0@[k as int].1.curr,
                        {
                            let ghost wp = *world;
                            let stop = match (&mut world.actions[i]) {
                                Some(ac) => {
                                    ac.step_sequence(
                                        k,
                                        &mut world.states[i],
                                        &mut world.effects,
                                        &mut world.curr_dialog,
                                        now_ms,
                                    )
                                },
                                None => true,
                            };
                            proof {
                                crate::world::lemma_ents_updated(&wp, world, i as int);
                            }
                            if stop {
                                break ;
                            }
                        }
                        proof {
                            let cur_acts = world.actions@[i as int]->Some_0@;
                            assert(cur_acts =~= acts_pre.update(
                                k as int,
                                (acts_pre[k as int].0, cur_acts[k as int].1),
                            ));
                            assert(requires_met(acts_pre[k as int].0, tags0));
                        }
                    } else {
                        proof {
                            assert(!requires_met(
                                world.actions@[i as int]->Some_0@[k as int].0,
                                tags0,
                            ));
                        }
                    }
                    k = k + 1;
                }
                proof {
                    let cur_acts = world.actions@[i as int]->Some_0@;
                    let r = run_acts(acts0, tags0, 0, tags0, effs_i, dlg_i, now_ms as int);
                    assert(r == (cur_acts, world.states@[i as int]@, world@.effects,
                        world@.curr_dialog));
                    let w2 = WorldM {
                        ents: w_i.ents.update(
                            i as int,
                            EntM { tags: r.1, acts: Some(r.0), ..w_i.ents[i as int] },
                        ),
                        effects: r.2,
                        curr_dialog: r.3,
                        ..w_i
                    };
                    assert(world@.ents[i as int] == ent_model(world, i as int));
                    assert(world@.ents[i as int] =~= w2.ents[i as int]);
                    assert forall|idx: int| 0 <= idx < n && idx != i implies #[trigger] world@.ents[idx] == w2.ents[idx] by {
                        assert(world@.ents[idx] == ent_model(world, idx));
                        assert(w_i.ents[idx] == ent_model(&ww_i, idx));
                        assert(world.states@[idx] == ww_i.states@[idx]);
                        assert(world.actions@[idx] == ww_i.actions@[idx]);
                        assert(world.positions@[idx] == ww_i.positions@[idx]);
                        assert(world.physics@[idx] == ww_i.physics@[idx]);
                        assert(world.graphics@[idx] == ww_i.graphics@[idx]);
                        assert(ent_model(world, idx) == ent_model(&ww_i, idx));
                    }
                    assert(world@.ents =~= w2.ents);
                    assert(world@ =~= w2);
                    assert(state_pass(w_i, now_ms as int, i as int) == state_pass(world@,
                        now_ms as int, i as int + 1));
                }
            } else {
                proof {
                    assert(w_i.ents[i as int] == ent_model(world, i as int));
                    assert(w_i.ents[i as int].acts is None);
                }
            }
            i = i + 1;
        }
    }
}

} // verus!
