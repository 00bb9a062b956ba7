//! The physics component and the per-tick physics/collision system.

use vstd::prelude::*;
use crate::geometry::Rect;
use crate::model::{EntM, PhysM, RectM, WorldM, ent_footprint, footprint_m, overlap_m, participates};
use crate::num::{cadd, clamped, scaled_ms};
use crate::vector::Vector;
use crate::world::{ent_model, World};

verus! {

/// Physics information for a single entity.
#[derive(Debug, Clone, Copy, PartialEq, Eq, Structural)]
pub struct PhysicsComponent {
    /// An entity's actual physical depth.
    pub depth: u32,
    /// Velocity in world units per second.
    pub velocity: Vector,
    /// Whether this object is physical and thus stops other physical objects.
    pub physical: bool,
    /// Hitbox of the entity.
    pub hitbox: Rect,
}

impl View for PhysicsComponent {
    type V = PhysM;

    open spec fn view(&self) -> PhysM {
        PhysM {
            depth: self.depth as int,
            vel: self.velocity@,
            physical: self.physical,
            hitbox: self.hitbox@,
        }
    }
}

impl PhysicsComponent {
    /// Create a new physics component, at rest.
    pub fn new(hitbox: Rect, depth: u32, physical: bool) -> (r: PhysicsComponent)
        ensures
            r@ == (PhysM { depth: depth as int, vel: (0int, 0int), physical, hitbox: hitbox@ }),
    {
        PhysicsComponent { depth, velocity: Vector::zero(), physical, hitbox }
    }
}

/// The tag physics sets on an entity that touched another this tick.
pub open spec fn colliding_tag() -> Seq<char> {
    "colliding"@
}

/// One sweep of entity `i`'s speculative footprints over the other
/// participating entities, from partner `j` on: accumulates whether any
/// partner was hit, and lets each physical partner in turn overwrite the
/// displacement — both axes hit stops the entity, a single axis keeps only
/// the other axis' component.
pub open spec fn delta_scan(
    ents: Seq<EntM>,
    i: int,
    ax: RectM,
    ay: RectM,
    i_physical: bool,
    delta: (int, int),
    collides: bool,
    j: int,
) -> ((int, int), bool)
    decreases ents.len() - j,
{
    if j < 0 || j >= ents.len() {
        (delta, collides)
    } else if j == i || !participates(ents[j]) {
        delta_scan(ents, i, ax, ay, i_physical, delta, collides, j + 1)
    } else {
        let ofp = ent_footprint(ents[j]);
        let xh = overlap_m(ax, ofp);
        let yh = overlap_m(ay, ofp);
        let c2 = collides || xh || yh;
        let d2 = if i_physical && ents[j].phys->Some_0.physical {
            if xh && yh {
                (0int, 0int)
            } else if xh {
                (0int, delta.1)
            } else if yh {
                (delta.0, 0int)
            } else {
                delta
            }
        } else {
            delta
        };
        delta_scan(ents, i, ax, ay, i_physical, d2, c2, j + 1)
    }
}

/// One tick of a single participating entity against the current state of
/// all entities: scale its velocity by the elapsed time, collide the two
/// speculative footprints, record or clear the colliding tag, and apply the
/// surviving displacement to its position.
pub open spec fn step_ent(ents: Seq<EntM>, i: int, dt: int) -> EntM {
    let e = ents[i];
    let ph = e.phys->Some_0;
    let pos = e.pos->Some_0;
    let d0 = (scaled_ms(ph.vel.0, dt), scaled_ms(ph.vel.1, dt));
    let fp = footprint_m(pos, ph);
    let ax = RectM { x: clamped(fp.x + d0.0), ..fp };
    let ay = RectM { y: clamped(fp.y + d0.1), ..fp };
    let scan = delta_scan(ents, i, ax, ay, ph.physical, d0, false, 0);
    let d = scan.0;
    let tags2 = if scan.1 {
        e.tags.insert(colliding_tag())
    } else {
        e.tags.remove(colliding_tag())
    };
    let pos2 = (clamped(pos.0 + d.0), clamped(pos.1 + d.1));
    EntM { tags: tags2, pos: Some(pos2), ..e }
}

/// All entities ticked in index order from `i` on; an entity processed
/// earlier has already moved when a later one collides against it.
pub open spec fn phys_pass(ents: Seq<EntM>, dt: int, i: int) -> Seq<EntM>
    decreases ents.len() - i,
{
    if i < 0 || i >= ents.len() {
        ents
    } else {
        let e2 = if participates(ents[i]) {
            ents.update(i, step_ent(ents, i, dt))
        } else {
            ents
        };
        phys_pass(e2, dt, i + 1)
    }
}

/// The whole world after one physics tick of `dt` milliseconds.
pub open spec fn physics_step(w: WorldM, dt: int) -> WorldM {
    WorldM { ents: phys_pass(w.ents, dt, 0), ..w }
}

/// System for handling physics interactions.
pub struct PhysicsSystem {
    /// Clock value of the previous tick, in milliseconds.
    pub last_tick: u64,
}

impl PhysicsSystem {
    /// Create a new physics system; `now_ms` is the current clock value,
    /// from which the first tick's elapsed time will be measured.
    pub fn new(now_ms: u64) -> (r: PhysicsSystem)
        ensures
            r.last_tick == now_ms,
    {
        PhysicsSystem { last_tick: now_ms }
    }

    /// Handle collisions with other entities and apply the relevant
    /// velocities: one tick over every entity that has both a position and a
    /// physics component, with the time elapsed since the previous tick.
    pub fn run(&mut self, world: &mut World, now_ms: u64)
        requires
            old(world).wf(),
            now_ms >= old(self).last_tick,
        ensures
            final(world).wf(),
            final(self).last_tick == now_ms,
            final(world)@ == physics_step(old(world)@, now_ms - old(self).last_tick),
    {
        let dt: u64 = now_ms - self.last_tick;
        let ghost ents0 = world@.ents;
        let n = world.states.len();
        let mut i: usize = 0;
        while i < n
            invariant
                world.wf(),
                n == world.states@.len(),
                0 <= i <= n,
                world.effects@ == old(world).effects@,
                world.dialogs@ == old(world).dialogs@,
                world.curr_dialog == old(world).curr_dialog,
                world.current_world == old(world).current_world,
                ents0 == old(world)@.ents,
                ents0.len() == n,
                phys_pass(ents0, dt as int, 0) == phys_pass(world@.ents, dt as int, i as int),
            decreases n - i,
        {
            let ghost ents_i = world@.ents;
            let popt = world.positions[i];
            let phopt = world.physics[i];
            match (popt, phopt) {
                (Some(p), Some(ph)) => {
                    proof {
                        assert(ents_i[i as int] == ent_model(world, i as int));
                        assert(participates(ents_i[i as int]));
                    }
                    let d0 = ph.velocity.scaled_by_ms(dt);
                    let fp = ph.hitbox.after_position(&p).after_depth(ph.depth);
                    let ax = Rect { x: cadd(fp.x, d0.x), y: fp.y, w: fp.w, h: fp.h };
                    let ay = Rect { x: fp.x, y: cadd(fp.y, d0.y), w: fp.w, h: fp.h };
                    proof {
                        assert(fp@ =~= footprint_m(p@, ph@));
                        assert(ax@ =~= (RectM { x: clamped(fp@.x + d0@.0), ..fp@ }));
                        assert(ay@ =~= (RectM { y: clamped(fp@.y + d0@.1), ..fp@ }));
                    }
                    let mut dvec = d0;
                    let mut collides = false;
                    let mut j: usize = 0;
                    while j < n
                        invariant
                            world.wf(),
                            n == world.states@.len(),
                            0 <= i < n,
                            0 <= j <= n,
                            ents_i == world@.ents,
                            ents_i.len() == n,
                            participates(ents_i[i as int]),
                            ph == world.physics@[i as int]->Some_0,
                            delta_scan(ents_i, i as int, ax@, ay@, ph.physical, d0@, false, 0)
                                == delta_scan(ents_i, i as int, ax@, ay@, ph.physical, dvec@,
                                collides, j as int),
                        decreases n - j,
                    {
                        if j != i {
                            let jp = world.positions[j];
                            let jph = world.physics[j];
                            match (jp, jph) {
                                (Some(jp), Some(jph)) => {
                                    proof {
                                        assert(ents_i[j as int] == ent_model(world, j as int));
                                        assert(participates(ents_i[j as int]));
                                    }
                                    let ofp = jph.hitbox.after_position(&jp).after_depth(
                                        jph.depth);
                                    proof {
                                        assert(ofp@ =~= ent_footprint(ents_i[j as int]));
                                    }
                                    let xh = ax.has_intersection(ofp);
                                    let yh = ay.has_intersection(ofp);
                                    if xh || yh {
                                        collides = true;
                                    }
                                    if ph.physical && jph.physical {
                                        if xh && yh {
                                            dvec = Vector::zero();
                                        } else if xh {
                                            dvec = Vector::new(0, dvec.y);
                                        } else if yh {
                                            dvec = Vector::new(dvec.x, 0);
                                        }
                                    }
                                },
                                _ => {
                                    proof {
                                        assert(ents_i[j as int] == ent_model(world, j as int));
                                        assert(!participates(ents_i[j as int]));
                                    }
                                },
                            }
                        }
                        j = j + 1;
                    }
                    proof {
                        assert((dvec@, collides) == delta_scan(ents_i, i as int, ax@, ay@,
                            ph.physical, d0@, false, 0));
                    }
                    if collides {
                        world.states[i].insert("colliding".to_owned());
                    } else {
                        let c = "colliding".to_owned();
                        world.states[i].remove(&c);
                    }
                    let ghost world_t = *world;
                    match (&mut world.positions[i]) {
                        Some(pp) => {
                            pp.apply_vector(dvec);
                        },
                        None => {},
                    }
                    proof {
                        assert(world.positions@[i as int] is Some);
                        assert(world.positions@[i as int]->Some_0@ == (clamped(p@.0 + dvec@.0),
                            clamped(p@.1 + dvec@.1)));
                        assert forall|idx: int| 0 <= idx < n implies #[trigger] world@.ents[idx]
                            == ents_i.update(i as int, step_ent(ents_i, i as int, dt as int))[
                        idx] by {
                            if idx != i {
                                assert(world.states@[idx] == world_t.states@[idx]);
                                assert(world.states@[idx] == old(world).states@[idx]
                                    || true);
                                assert(ent_model(world, idx) == ents_i[idx]);
                            } else {
                                assert(ent_model(world, idx) == step_ent(ents_i, i as int,
                                    dt as int));
                            }
                        }
                        assert(world@.ents =~= ents_i.update(i as int, step_ent(ents_i, i as int,
                            dt as int)));
                    }
                },
                _ => {
                    proof {
                        assert(ents_i[i as int] == ent_model(world, i as int));
                        assert(!participates(ents_i[i as int]));
                    }
                },
            }
            i = i + 1;
        }
        self.last_tick = now_ms;
        proof {
            assert(phys_pass(world@.ents, dt as int, n as int) == world@.ents);
            assert(world@ =~= physics_step(old(world)@, dt as int));
        }
    }
}

} // verus!
