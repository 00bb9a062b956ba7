//! The entity-component world store.
//!
//! An entity is an integer index valid across all component containers; the
//! containers are parallel arrays that always have identical length. Tag
//! sets are the only channel by which systems communicate behavioural facts.

use vstd::prelude::*;
use crate::actions::dialog_view;
use crate::dialog::Dialog;
use crate::effect::Effect;
use crate::geometry::PositionComponent;
use crate::graphics::GraphicsComponent;
use crate::model::{EffM, EntM, RectM, WorldM, ent_footprint, overlap_m, participates};
use crate::physics::PhysicsComponent;
use crate::state::{acts_wf, ActionComponent};
use crate::tags::TagSet;

verus! {

/// Struct containing all game data and current state.
pub struct World {
    /// Name of the scene that is currently loaded.
    pub current_world: String,
    /// All effects in the game world.
    pub effects: Vec<Effect>,
    /// All dialogs, by name; a later entry shadows an earlier one.
    pub dialogs: Vec<(String, Dialog)>,
    /// Currently selected dialog name.
    pub curr_dialog: Option<String>,
    /// Array of the current active states for each entity.
    pub states: Vec<TagSet>,
    /// Array of optional position data for each entity.
    pub positions: Vec<Option<PositionComponent>>,
    /// Array of optional physics data for each entity.
    pub physics: Vec<Option<PhysicsComponent>>,
    /// Array of optional graphics data for each entity.
    pub graphics: Vec<Option<GraphicsComponent>>,
    /// Array of optional actions data for each entity.
    pub actions: Vec<Option<ActionComponent>>,
}

/// The model of one entity assembled from the parallel containers.
pub open spec fn ent_model(w: &World, i: int) -> EntM {
    EntM {
        tags: w.states@[i]@,
        pos: match w.positions@[i] {
            Some(p) => Some(p@),
            None => None,
        },
        phys: match w.physics@[i] {
            Some(p) => Some(p@),
            None => None,
        },
        flip: match w.graphics@[i] {
            Some(g) => Some(g@),
            None => None,
        },
        acts: match w.actions@[i] {
            Some(a) => Some(a@),
            None => None,
        },
    }
}

impl View for World {
    type V = WorldM;

    open spec fn view(&self) -> WorldM {
        WorldM {
            current_world: self.current_world@,
            ents: Seq::new(self.states@.len(), |i: int| ent_model(self, i)),
            effects: self.effects@.map_values(|e: Effect| e@),
            dialogs: self.dialogs@.map_values(|p: (String, Dialog)| (p.0@, p.1@)),
            curr_dialog: dialog_view(self.curr_dialog),
        }
    }
}

impl World {
    /// The parallel-array invariant: every component container has the same
    /// length as the tag-set container, and every tag set is well formed.
    pub open spec fn wf(&self) -> bool {
        &&& self.positions@.len() == self.states@.len()
        &&& self.physics@.len() == self.states@.len()
        &&& self.graphics@.len() == self.states@.len()
        &&& self.actions@.len() == self.states@.len()
        &&& forall|i: int| 0 <= i < self.states@.len() ==> (#[trigger] self.states@[i]).wf()
        &&& forall|i: int|
            0 <= i < self.actions@.len() ==> match #[trigger] self.actions@[i] {
                Some(a) => acts_wf(a@),
                None => true,
            }
    }

    /// Create a new, empty world.
    pub fn new() -> (w: World)
        ensures
            w.wf(),
            w@.ents =~= Seq::<EntM>::empty(),
            w@.effects =~= Seq::<EffM>::empty(),
            w@.dialogs.len() == 0,
            w@.curr_dialog is None,
            w@.current_world == Seq::<char>::empty(),
    {
        World {
            current_world: String::new(),
            effects: Vec::new(),
            dialogs: Vec::new(),
            curr_dialog: None,
            states: Vec::new(),
            positions: Vec::new(),
            physics: Vec::new(),
            graphics: Vec::new(),
            actions: Vec::new(),
        }
    }

    /// How many entities the world holds.
    pub fn entity_count(&self) -> (n: usize)
        ensures
            n == self@.ents.len(),
    {
        self.states.len()
    }

    /// Add an entity: append a default-empty tag set and the given optional
    /// components to all parallel containers and return the new index.
    /// Afterwards every component container again has the same length.
    pub fn add_entity(
        &mut self,
        position: Option<PositionComponent>,
        physics: Option<PhysicsComponent>,
        graphics: Option<GraphicsComponent>,
        actions: Option<ActionComponent>,
    ) -> (id: usize)
        requires
            old(self).wf(),
            match actions {
                Some(a) => acts_wf(a@),
                None => true,
            },
        ensures
            final(self).wf(),
            id == old(self)@.ents.len(),
            final(self).states@.len() == old(self).states@.len() + 1,
            final(self).positions@.len() == final(self).states@.len(),
            final(self).physics@.len() == final(self).states@.len(),
            final(self).graphics@.len() == final(self).states@.len(),
            final(self).actions@.len() == final(self).states@.len(),
            final(self)@ == (WorldM {
                ents: old(self)@.ents.push(
                    EntM {
                        tags: Set::empty(),
                        pos: match position {
                            Some(p) => Some(p@),
                            None => None,
                        },
                        phys: match physics {
                            Some(p) => Some(p@),
                            None => None,
                        },
                        flip: match graphics {
                            Some(g) => Some(g@),
                            None => None,
                        },
                        acts: match actions {
                            Some(a) => Some(a@),
                            None => None,
                        },
                    },
                ),
                ..old(self)@
            }),
    {
        let id = self.states.len();
        self.states.push(TagSet::new());
        self.positions.push(position);
        self.physics.push(physics);
        self.graphics.push(graphics);
        self.actions.push(actions);
        proof {
            assert forall|i: int| 0 <= i < self.states@.len() implies (
            #[trigger] self.states@[i]).wf() by {
                if i < id {
                    assert(self.states@[i] == old(self).states@[i]);
                }
            }
            assert(self@.ents =~= old(self)@.ents.push(ent_model(self, id as int)));
        }
        id
    }

    /// Truncate the world back to its first entity (the fixed prefix a scene
    /// reload keeps) and drop all dialogs and effects.
    pub fn deload(&mut self)
        requires
            old(self).wf(),
        ensures
            final(self).wf(),
            final(self)@ == (WorldM {
                ents: old(self)@.ents.subrange(
                    0,
                    if old(self)@.ents.len() < 1 {
                        old(self)@.ents.len() as int
                    } else {
                        1
                    },
                ),
                effects: Seq::empty(),
                dialogs: Seq::empty(),
                ..old(self)@
            }),
    {
        self.states.truncate(1);
        self.positions.truncate(1);
        self.physics.truncate(1);
        self.graphics.truncate(1);
        self.actions.truncate(1);
        self.dialogs.truncate(0);
        self.effects.truncate(0);
        proof {
            let keep: int = if old(self)@.ents.len() < 1 {
                old(self)@.ents.len() as int
            } else {
                1
            };
            assert(self@.ents =~= old(self)@.ents.subrange(0, keep));
            assert(self@.effects =~= Seq::<EffM>::empty());
            assert(self@.dialogs =~= Seq::<(Seq<char>, crate::model::DialogM)>::empty());
        }
    }

    /// Add a new dialog to display; the new entry shadows any earlier dialog
    /// of the same name.
    pub fn add_dialog(&mut self, name: String, dialog: Dialog)
        ensures
            final(self)@ == (WorldM {
                dialogs: old(self)@.dialogs.push((name@, dialog@)),
                ..old(self)@
            }),
            final(self).wf() == old(self).wf(),
    {
        self.dialogs.push((name, dialog));
        proof {
            assert(self@.dialogs =~= old(self)@.dialogs.push((name@, dialog@)));
            assert(self@.ents =~= old(self)@.ents);
        }
    }

    /// Get the set of states of a single entity.
    pub fn get_entity_states(&self, id: usize) -> (r: &TagSet)
        requires
            id < self@.ents.len(),
        ensures
            r@ == self@.ents[id as int].tags,
            r.wf() == self.states@[id as int].wf(),
    {
        &self.states[id]
    }

    /// Get the position data of a single entity.
    pub fn get_entity_positions(&self, id: usize) -> (r: &Option<PositionComponent>)
        requires
            self.wf(),
            id < self@.ents.len(),
        ensures
            *r == self.positions@[id as int],
    {
        &self.positions[id]
    }

    /// Get the position and physics data of a single entity.
    pub fn get_entity_physics(&self, id: usize) -> (r: (&Option<PositionComponent>, &Option<
        PhysicsComponent>))
        requires
            self.wf(),
            id < self@.ents.len(),
        ensures
            *r.0 == self.positions@[id as int],
            *r.1 == self.physics@[id as int],
    {
        (&self.positions[id], &self.physics[id])
    }

    /// Get the position and graphics data of a single entity.
    pub fn get_entity_graphics(&self, id: usize) -> (r: (&Option<PositionComponent>, &Option<
        GraphicsComponent>))
        requires
            self.wf(),
            id < self@.ents.len(),
        ensures
            *r.0 == self.positions@[id as int],
            *r.1 == self.graphics@[id as int],
    {
        (&self.positions[id], &self.graphics[id])
    }

    /// The indices of the entities that have a position component, in
    /// ascending order: the read-only filtered iteration over positions.
    pub fn positions_ids(&self) -> (r: Vec<usize>)
        requires
            self.wf(),
        ensures
            forall|k: int|
                0 <= k < r@.len() ==> (#[trigger] r@[k]) < self@.ents.len()
                    && self@.ents[r@[k] as int].pos is Some,
            forall|i: int|
                0 <= i < self@.ents.len() ==> (self@.ents[i].pos is Some <==> r@.contains(
                    #[trigger] (i as usize),
                )),
            forall|k1: int, k2: int| 0 <= k1 < k2 < r@.len() ==> r@[k1] < r@[k2],
    {
        let n = self.states.len();
        let mut r: Vec<usize> = Vec::new();
        let mut i: usize = 0;
        while i < n
            invariant
                self.wf(),
                n == self.states@.len(),
                0 <= i <= n,
                forall|k: int|
                    0 <= k < r@.len() ==> (#[trigger] r@[k]) < i && self@.ents[r@[k] as int].pos
                        is Some,
                forall|idx: int|
                    0 <= idx < i ==> (self@.ents[idx].pos is Some <==> r@.contains(
                        #[trigger] (idx as usize),
                    )),
                forall|k1: int, k2: int| 0 <= k1 < k2 < r@.len() ==> r@[k1] < r@[k2],
            decreases n - i,
        {
            proof {
                assert(self@.ents[i as int] == ent_model(self, i as int));
            }
            if self.positions[i].is_some() {
                let ghost rpre = r@;
                r.push(i);
                proof {
                    assert(r@[r@.len() - 1] == i);
                    assert forall|idx: int|
                        0 <= idx < i + 1 implies (self@.ents[idx].pos is Some <==> r@.contains(
                        #[trigger] (idx as usize),
                    )) by {
                        if idx < i {
                            if rpre.contains(idx as usize) {
                                let k = choose|k: int|
                                    0 <= k < rpre.len() && rpre[k] == idx as usize;
                                assert(r@[k] == idx as usize);
                            } else if r@.contains(idx as usize) {
                                let k = choose|k: int|
                                    0 <= k < r@.len() && r@[k] == idx as usize;
                                assert(k < r@.len() - 1);
                                assert(rpre[k] == idx as usize);
                            }
                        } else {
                            assert(r@.contains(i as usize));
                        }
                    }
                }
            } else {
                proof {
                    assert forall|idx: int|
                        0 <= idx < i + 1 implies (self@.ents[idx].pos is Some <==> r@.contains(
                        #[trigger] (idx as usize),
                    )) by {
                        if idx == i && r@.contains(idx as usize) {
                            let k = choose|k: int| 0 <= k < r@.len() && r@[k] == idx as usize;
                            assert(r@[k] < i);
                        }
                    }
                }
            }
            i = i + 1;
        }
        r
    }

    /// The indices of the entities that have both a position and a physics
    /// component, in ascending order: the read-only filtered iteration the
    /// physics pass works through.
    pub fn physics_ids(&self) -> (r: Vec<usize>)
        requires
            self.wf(),
        ensures
            forall|k: int|
                0 <= k < r@.len() ==> (#[trigger] r@[k]) < self@.ents.len() && participates(
                    self@.ents[r@[k] as int],
                ),
            forall|i: int|
                0 <= i < self@.ents.len() ==> (participates(self@.ents[i]) <==> r@.contains(
                    #[trigger] (i as usize),
                )),
            forall|k1: int, k2: int| 0 <= k1 < k2 < r@.len() ==> r@[k1] < r@[k2],
    {
        let n = self.states.len();
        let mut r: Vec<usize> = Vec::new();
        let mut i: usize = 0;
        while i < n
            invariant
                self.wf(),
                n == self.states@.len(),
                0 <= i <= n,
                forall|k: int|
                    0 <= k < r@.len() ==> (#[trigger] r@[k]) < i && participates(
                        self@.ents[r@[k] as int],
                    ),
                forall|idx: int|
                    0 <= idx < i ==> (participates(self@.ents[idx]) <==> r@.contains(
                        #[trigger] (idx as usize),
                    )),
                forall|k1: int, k2: int| 0 <= k1 < k2 < r@.len() ==> r@[k1] < r@[k2],
            decreases n - i,
        {
            proof {
                assert(self@.ents[i as int] == ent_model(self, i as int));
            }
            if self.positions[i].is_some() && self.physics[i].is_some() {
                let ghost rpre = r@;
                r.push(i);
                proof {
                    assert(r@[r@.len() - 1] == i);
                    assert forall|idx: int|
                        0 <= idx < i + 1 implies (participates(self@.ents[idx]) <==> r@.contains(
                        #[trigger] (idx as usize),
                    )) by {
                        if idx < i {
                            if rpre.contains(idx as usize) {
                                let k = choose|k: int|
                                    0 <= k < rpre.len() && rpre[k] == idx as usize;
                                assert(r@[k] == idx as usize);
                            } else if r@.contains(idx as usize) {
                                let k = choose|k: int|
                                    0 <= k < r@.len() && r@[k] == idx as usize;
                                assert(k < r@.len() - 1);
                                assert(rpre[k] == idx as usize);
                            }
                        } else {
                            assert(r@.contains(i as usize));
                        }
                    }
                }
            } else {
                proof {
                    assert forall|idx: int|
                        0 <= idx < i + 1 implies (participates(self@.ents[idx]) <==> r@.contains(
                        #[trigger] (idx as usize),
                    )) by {
                        if idx == i && r@.contains(idx as usize) {
                            let k = choose|k: int| 0 <= k < r@.len() && r@[k] == idx as usize;
                            assert(r@[k] < i);
                        }
                    }
                }
            }
            i = i + 1;
        }
        r
    }

    /// Add a state to a single entity.
    pub fn add_entity_state(&mut self, id: usize, state: String)
        requires
            old(self).wf(),
            id < old(self)@.ents.len(),
        ensures
            final(self).wf(),
            final(self)@ == add_state_m(old(self)@, id as int, state@),
    {
        self.states[id].insert(state);
        proof {
            lemma_one_tagset_changed(old(self), self, id as int);
            assert(self@.ents =~= add_state_m(old(self)@, id as int, state@).ents);
        }
    }

    /// Remove a state from a single entity.
    pub fn remove_entity_state(&mut self, id: usize, state: &String)
        requires
            old(self).wf(),
            id < old(self)@.ents.len(),
        ensures
            final(self).wf(),
            final(self)@ == remove_state_m(old(self)@, id as int, state@),
    {
        self.states[id].remove(state);
        proof {
            lemma_one_tagset_changed(old(self), self, id as int);
            assert(self@.ents =~= remove_state_m(old(self)@, id as int, state@).ents);
        }
    }

    /// Apply all effects to the entities who lie inside them: every entity
    /// with both a position and a physics component whose footprint meets an
    /// effect's rectangle gains that effect's `adds` tags and loses its
    /// `removes` tags, effects taken in order.
    pub fn apply_effects(&mut self)
        requires
            old(self).wf(),
        ensures
            final(self).wf(),
            final(self)@ == (WorldM { ents: effects_pass(old(self)@), ..old(self)@ }),
    {
        let ghost w0 = *old(self);
        let n = self.states.len();
        let mut i: usize = 0;
        while i < n
            invariant
                self.wf(),
                n == self.states@.len(),
                0 <= i <= n,
                w0.wf(),
                n == w0.states@.len(),
                self.positions@ == w0.positions@,
                self.physics@ == w0.physics@,
                self.graphics@ == w0.graphics@,
                self.actions@ == w0.actions@,
                self.effects@ == w0.effects@,
                self.dialogs@ == w0.dialogs@,
                self.curr_dialog == w0.curr_dialog,
                self.current_world == w0.current_world,
                forall|idx: int| i <= idx < n ==> self.states@[idx] == w0.states@[idx],
                forall|idx: int|
                    0 <= idx < i ==> (#[trigger] self.states@[idx])@ == effects_pass(w0@)[idx].tags,
            decreases n - i,
        {
            let ghost states_snap = self.states@;
            let popt = self.positions[i];
            let phopt = self.physics[i];
            match (popt, phopt) {
                (Some(p), Some(ph)) => {
                    let footprint = ph.hitbox.after_position(&p).after_depth(ph.depth);
                    let ghost fpm = ent_footprint(w0@.ents[i as int]);
                    proof {
                        assert(w0@.ents[i as int] == ent_model(&w0, i as int));
                        assert(footprint@ =~= fpm);
                    }
                    let ghost effsm = w0@.effects;
                    let ghost tags0 = self.states@[i as int]@;
                    let m = self.effects.len();
                    let mut j: usize = 0;
                    while j < m
                        invariant
                            self.wf(),
                            n == self.states@.len(),
                            0 <= i < n,
                            0 <= j <= m,
                            m == self.effects@.len(),
                            w0.wf(),
                            n == w0.states@.len(),
                            self.positions@ == w0.positions@,
                            self.physics@ == w0.physics@,
                            self.graphics@ == w0.graphics@,
                            self.actions@ == w0.actions@,
                            self.effects@ == w0.effects@,
                            self.dialogs@ == w0.dialogs@,
                            self.curr_dialog == w0.curr_dialog,
                            self.current_world == w0.current_world,
                            effsm == w0@.effects,
                            effsm.len() == m,
                            footprint@ == fpm,
                            states_snap.len() == n,
                            forall|idx: int|
                                0 <= idx < n && idx != i ==> self.states@[idx]
                                    == states_snap[idx],
                            forall|idx: int| i <= idx < n ==> states_snap[idx] == w0.states@[idx],
                            forall|idx: int|
                                0 <= idx < i ==> (#[trigger] states_snap[idx])@ == effects_pass(
                                w0@)[idx].tags,
                            tags0 == states_snap[i as int]@,
                            tags_after_effects(tags0, fpm, effsm, 0) == tags_after_effects(
                                self.states@[i as int]@, fpm, effsm, j as int),
                        decreases m - j,
                    {
                        let erect = self.effects[j].rect;
                        proof {
                            assert(effsm[j as int] == self.effects@[j as int]@);
                            assert(erect@ =~= effsm[j as int].rect);
                        }
                        if footprint.has_intersection(erect) {
                            proof {
                                assert(overlap_m(fpm, effsm[j as int].rect));
                            }
                            let ghost tags_j = self.states@[i as int]@;
                            let ghost addsm = effsm[j as int].adds;
                            let adds_len = self.effects[j].adds.len();
                            proof {
                                assert(addsm.len() == adds_len);
                            }
                            let mut k: usize = 0;
                            while k < adds_len
                                invariant
                                    self.wf(),
                                    n == self.states@.len(),
                                    0 <= i < n,
                                    0 <= j < m,
                                    0 <= k <= adds_len,
                                    m == self.effects@.len(),
                                    self.effects@ == w0.effects@,
                                    effsm == w0@.effects,
                                    effsm.len() == m,
                                    addsm == effsm[j as int].adds,
                                    addsm.len() == adds_len,
                                    adds_len == self.effects@[j as int].adds@.len(),
                                    self.positions@ == w0.positions@,
                                    self.physics@ == w0.physics@,
                                    self.graphics@ == w0.graphics@,
                                    self.actions@ == w0.actions@,
                                    self.dialogs@ == w0.dialogs@,
                                    self.curr_dialog == w0.curr_dialog,
                                    self.current_world == w0.current_world,
                                    states_snap.len() == n,
                                    forall|idx: int|
                                        0 <= idx < n && idx != i ==> self.states@[idx]
                                            == states_snap[idx],
                                    insert_all(tags_j, addsm, 0) == insert_all(
                                        self.states@[i as int]@, addsm, k as int),
                                decreases adds_len - k,
                            {
                                let s = self.effects[j].adds[k].clone();
                                proof {
                                    assert(s@ == addsm[k as int]);
                                }
                                self.states[i].insert(s);
                                k = k + 1;
                            }
                            let ghost tags_a = self.states@[i as int]@;
                            proof {
                                assert(tags_a == insert_all(tags_j, addsm, 0));
                            }
                            let ghost remsm = effsm[j as int].removes;
                            let rem_len = self.effects[j].removes.len();
                            proof {
                                assert(remsm.len() == rem_len);
                            }
                            let mut k: usize = 0;
                            while k < rem_len
                                invariant
                                    self.wf(),
                                    n == self.states@.len(),
                                    0 <= i < n,
                                    0 <= j < m,
                                    0 <= k <= rem_len,
                                    m == self.effects@.len(),
                                    self.effects@ == w0.effects@,
                                    effsm == w0@.effects,
                                    effsm.len() == m,
                                    remsm == effsm[j as int].removes,
                                    remsm.len() == rem_len,
                                    rem_len == self.effects@[j as int].removes@.len(),
                                    self.positions@ == w0.positions@,
                                    self.physics@ == w0.physics@,
                                    self.graphics@ == w0.graphics@,
                                    self.actions@ == w0.actions@,
                                    self.dialogs@ == w0.dialogs@,
                                    self.curr_dialog == w0.curr_dialog,
                                    self.current_world == w0.current_world,
                                    states_snap.len() == n,
                                    forall|idx: int|
                                        0 <= idx < n && idx != i ==> self.states@[idx]
                                            == states_snap[idx],
                                    remove_all(tags_a, remsm, 0) == remove_all(
                                        self.states@[i as int]@, remsm, k as int),
                                decreases rem_len - k,
                            {
                                let ghost pre_rem = self.states@[i as int]@;
                                let removed = &self.effects[j].removes[k];
                                proof {
                                    assert(removed@ == remsm[k as int]);
                                }
                                self.states[i].remove(removed);
                                k = k + 1;
                            }
                            proof {
                                assert(self.states@[i as int]@ == remove_all(insert_all(tags_j,
                                    addsm, 0), remsm, 0));
                            }
                        }
                        j = j + 1;
                    }
                    proof {
                        assert(tags_after_effects(tags0, fpm, effsm, 0)
                            == self.states@[i as int]@);
                        assert(w0@.ents[i as int] == ent_model(&w0, i as int));
                        assert(participates(w0@.ents[i as int]));
                        assert(tags0 == w0@.ents[i as int].tags);
                        assert(effects_pass(w0@)[i as int].tags == tags_after_effects(tags0, fpm,
                            effsm, 0));
                        assert(self.states@[i as int]@ == effects_pass(w0@)[i as int].tags);
                    }
                },
                _ => {
                    proof {
                        assert(w0@.ents[i as int] == ent_model(&w0, i as int));
                        assert(!participates(w0@.ents[i as int]));
                        assert(self.states@[i as int] == w0.states@[i as int]);
                        assert(effects_pass(w0@)[i as int].tags == w0@.ents[i as int].tags);
                        assert(self.states@[i as int]@ == effects_pass(w0@)[i as int].tags);
                    }
                },
            }
            i = i + 1;
            proof {
                assert forall|idx: int| 0 <= idx < i implies (#[trigger] self.states@[idx])@
                    == effects_pass(w0@)[idx].tags by {
                    if idx < i - 1 {
                        assert(self.states@[idx] == states_snap[idx]);
                        assert((states_snap[idx])@ == effects_pass(w0@)[idx].tags);
                    }
                }
            }
        }
        proof {
            assert forall|idx: int| 0 <= idx < n implies self@.ents[idx] == effects_pass(w0@)[
                idx] by {
                assert(ent_model(self, idx).tags == self.states@[idx]@);
            }
            assert(self@.ents =~= effects_pass(w0@));
        }
    }
}

/// The model of adding a state to one entity.
pub open spec fn add_state_m(w: WorldM, id: int, state: Seq<char>) -> WorldM {
    WorldM {
        ents: w.ents.update(id, EntM { tags: w.ents[id].tags.insert(state), ..w.ents[id] }),
        ..w
    }
}

/// The model of removing a state from one entity.
pub open spec fn remove_state_m(w: WorldM, id: int, state: Seq<char>) -> WorldM {
    WorldM {
        ents: w.ents.update(id, EntM { tags: w.ents[id].tags.remove(state), ..w.ents[id] }),
        ..w
    }
}

/// Adding the same state twice in a row has the same effect as adding it
/// once.
pub proof fn lemma_add_state_idempotent(w: WorldM, id: int, state: Seq<char>)
    requires
        0 <= id < w.ents.len(),
    ensures
        add_state_m(add_state_m(w, id, state), id, state) == add_state_m(w, id, state),
{
    let once = add_state_m(w, id, state);
    let twice = add_state_m(once, id, state);
    assert(once.ents[id].tags.insert(state) =~= once.ents[id].tags);
    assert(twice.ents =~= once.ents);
    assert(twice =~= once);
}

/// Removing the same state twice in a row has the same effect as removing it
/// once.
pub proof fn lemma_remove_state_idempotent(w: WorldM, id: int, state: Seq<char>)
    requires
        0 <= id < w.ents.len(),
    ensures
        remove_state_m(remove_state_m(w, id, state), id, state) == remove_state_m(w, id, state),
{
    let once = remove_state_m(w, id, state);
    let twice = remove_state_m(once, id, state);
    assert(once.ents[id].tags.remove(state) =~= once.ents[id].tags);
    assert(twice.ents =~= once.ents);
    assert(twice =~= once);
}

/// The tag set after inserting every tag of `adds` from index `k` on.
pub open spec fn insert_all(tags: Set<Seq<char>>, adds: Seq<Seq<char>>, k: int) -> Set<Seq<char>>
    decreases adds.len() - k,
{
    if k < 0 || k >= adds.len() {
        tags
    } else {
        insert_all(tags.insert(adds[k]), adds, k + 1)
    }
}

/// The tag set after removing every tag of `removes` from index `k` on.
pub open spec fn remove_all(tags: Set<Seq<char>>, removes: Seq<Seq<char>>, k: int) -> Set<
    Seq<char>>
    decreases removes.len() - k,
{
    if k < 0 || k >= removes.len() {
        tags
    } else {
        remove_all(tags.remove(removes[k]), removes, k + 1)
    }
}

/// A tag set after the effects from index `j` on have been applied to an
/// entity with footprint `fp`: each effect whose rectangle meets the
/// footprint adds its `adds` and then removes its `removes`.
pub open spec fn tags_after_effects(
    tags: Set<Seq<char>>,
    fp: RectM,
    effs: Seq<EffM>,
    j: int,
) -> Set<Seq<char>>
    decreases effs.len() - j,
{
    if j < 0 || j >= effs.len() {
        tags
    } else {
        let t2 = if overlap_m(fp, effs[j].rect) {
            remove_all(insert_all(tags, effs[j].adds, 0), effs[j].removes, 0)
        } else {
            tags
        };
        tags_after_effects(t2, fp, effs, j + 1)
    }
}

/// The entities of a world after one pass of every effect over every entity
/// that has both a position and a physics component.
pub open spec fn effects_pass(w: WorldM) -> Seq<EntM> {
    Seq::new(
        w.ents.len(),
        |i: int|
            if participates(w.ents[i]) {
                EntM { tags: tags_after_effects(w.ents[i].tags, ent_footprint(w.ents[i]), w.effects, 0), ..w.ents[i] }
            } else {
                w.ents[i]
            },
    )
}

/// If the component containers of two worlds agree everywhere but at index
/// `id`, every other entity's model is unchanged.
pub proof fn lemma_ents_updated(pre: &World, post: &World, id: int)
    requires
        pre.wf(),
        post.wf(),
        0 <= id < pre.states@.len(),
        post.states@.len() == pre.states@.len(),
        post.positions@.len() == pre.positions@.len(),
        post.physics@.len() == pre.physics@.len(),
        post.graphics@.len() == pre.graphics@.len(),
        post.actions@.len() == pre.actions@.len(),
        forall|idx: int|
            0 <= idx < pre.states@.len() && idx != id ==> #[trigger] post.states@[idx]
                == pre.states@[idx],
        forall|idx: int|
            0 <= idx < pre.positions@.len() && idx != id ==> #[trigger] post.positions@[idx]
                == pre.positions@[idx],
        forall|idx: int|
            0 <= idx < pre.physics@.len() && idx != id ==> #[trigger] post.physics@[idx]
                == pre.physics@[idx],
        forall|idx: int|
            0 <= idx < pre.graphics@.len() && idx != id ==> #[trigger] post.graphics@[idx]
                == pre.graphics@[idx],
        forall|idx: int|
            0 <= idx < pre.actions@.len() && idx != id ==> #[trigger] post.actions@[idx]
                == pre.actions@[idx],
    ensures
        forall|idx: int|
            0 <= idx < pre.states@.len() && idx != id ==> #[trigger] post@.ents[idx]
                == pre@.ents[idx],
        post@.ents.len() == pre@.ents.len(),
{
    assert forall|idx: int| 0 <= idx < pre.states@.len() && idx != id implies #[trigger] post@.ents[idx] == pre@.ents[idx] by {
        assert(post.states@[idx] == pre.states@[idx]);
        assert(post.positions@[idx] == pre.positions@[idx]);
        assert(post.physics@[idx] == pre.physics@[idx]);
        assert(post.graphics@[idx] == pre.graphics@[idx]);
        assert(post.actions@[idx] == pre.actions@[idx]);
        assert(ent_model(post, idx) == ent_model(pre, idx));
    }
}

/// If only the tag set of entity `id` changed between two worlds, every
/// other entity's model is unchanged.
proof fn lemma_one_tagset_changed(pre: &World, post: &World, id: int)
    requires
        pre.wf(),
        0 <= id < pre.states@.len(),
        post.states@.len() == pre.states@.len(),
        post.states@ == pre.states@.update(id, post.states@[id]),
        post.positions@ == pre.positions@,
        post.physics@ == pre.physics@,
        post.graphics@ == pre.graphics@,
        post.actions@ == pre.actions@,
    ensures
        forall|i: int|
            0 <= i < pre.states@.len() && i != id ==> ent_model(post, i) == ent_model(pre, i),
        forall|i: int|
            0 <= i < pre.states@.len() && i != id ==> #[trigger] post@.ents[i] == pre@.ents[i],
{
    assert forall|i: int| 0 <= i < pre.states@.len() && i != id implies #[trigger] post@.ents[i]
        == pre@.ents[i] by {
        assert(post.states@[i] == pre.states@[i]);
        assert(ent_model(post, i) == ent_model(pre, i));
    }
}

} // verus!
