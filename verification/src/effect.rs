//! Area effects: rectangles that add and remove tags on every entity whose
//! footprint lies inside them, with an optional time to live.

use vstd::prelude::*;
use crate::geometry::Rect;
use crate::model::{EffM, WorldM};
use crate::world::{effects_pass, World};

verus! {

/// Copy a vector of strings, element for element.
pub fn dup_strings(v: &Vec<String>) -> (r: Vec<String>)
    ensures
        r@ == v@,
{
    let r = v.clone();
    proof {
        assert forall|i: int| 0 <= i < v@.len() implies r@[i] == v@[i] by {
            assert(cloned(v@[i], r@[i]));
        }
        assert(r@ =~= v@);
    }
    r
}

/// Map a vector of strings to the sequence of their character views.
pub open spec fn strings_view(v: Seq<String>) -> Seq<Seq<char>> {
    v.map_values(|s: String| s@)
}

/// An area effect inside the world: any entity whose footprint meets the
/// effect's rectangle gains the `adds` tags and loses the `removes` tags.
#[derive(Debug)]
pub struct Effect {
    /// Names of the states this effect adds.
    pub adds: Vec<String>,
    /// Names of the states this effect removes.
    pub removes: Vec<String>,
    /// Clock value at which the effect was created, in milliseconds.
    pub created: u64,
    /// How long the effect lasts, in milliseconds; `None` lasts forever.
    pub ttl: Option<u64>,
    /// Rectangle over which the effect applies.
    pub rect: Rect,
}

impl View for Effect {
    type V = EffM;

    open spec fn view(&self) -> EffM {
        EffM {
            adds: strings_view(self.adds@),
            removes: strings_view(self.removes@),
            created: self.created as int,
            ttl: match self.ttl {
                Some(t) => Some(t as int),
                None => None,
            },
            rect: self.rect@,
        }
    }
}

/// Whether an effect is over at clock value `now`: it has a time to live and
/// more than that has elapsed since it was created.
pub open spec fn effect_finished(e: EffM, now: int) -> bool {
    match e.ttl {
        Some(t) => now - e.created > t,
        None => false,
    }
}

impl Effect {
    /// Create a new effect at clock value `now_ms`.
    pub fn new(adds: Vec<String>, removes: Vec<String>, rect: Rect, ttl: Option<u64>, now_ms: u64) -> (r:
        Effect)
        ensures
            r@ == (EffM {
                adds: strings_view(adds@),
                removes: strings_view(removes@),
                created: now_ms as int,
                ttl: match ttl {
                    Some(t) => Some(t as int),
                    None => None,
                },
                rect: rect@,
            }),
    {
        Effect { adds, removes, ttl, rect, created: now_ms }
    }

    /// Check if the effect has finished at clock value `now_ms`.
    pub fn finished(&self, now_ms: u64) -> (r: bool)
        ensures
            r == effect_finished(self@, now_ms as int),
    {
        match self.ttl {
            None => false,
            Some(t) => now_ms > self.created && now_ms - self.created > t,
        }
    }

    /// An exact copy of this effect, creation time included.
    pub fn duplicate(&self) -> (r: Effect)
        ensures
            r@ == self@,
    {
        Effect {
            adds: dup_strings(&self.adds),
            removes: dup_strings(&self.removes),
            created: self.created,
            ttl: self.ttl,
            rect: self.rect,
        }
    }
}

/// A template from which identical effects are spawned on demand.
#[derive(Debug)]
pub struct EffectSpawner {
    pub adds: Vec<String>,
    pub removes: Vec<String>,
    pub ttl: Option<u64>,
    pub rect: Rect,
}

impl EffectSpawner {
    /// Create a new effect spawner.
    pub fn new(adds: Vec<String>, removes: Vec<String>, rect: Rect, ttl: Option<u64>) -> (r:
        EffectSpawner)
        ensures
            r.adds@ == adds@,
            r.removes@ == removes@,
            r.ttl == ttl,
            r.rect == rect,
    {
        EffectSpawner { adds, removes, ttl, rect }
    }

    /// Spawn a fresh copy of the templated effect at clock value `now_ms`.
    pub fn spawn(&self, now_ms: u64) -> (r: Effect)
        ensures
            r@ == (EffM {
                adds: strings_view(self.adds@),
                removes: strings_view(self.removes@),
                created: now_ms as int,
                ttl: match self.ttl {
                    Some(t) => Some(t as int),
                    None => None,
                },
                rect: self.rect@,
            }),
    {
        Effect::new(dup_strings(&self.adds), dup_strings(&self.removes), self.rect, self.ttl, now_ms)
    }
}

/// The effects of `effs` from index `j` on that are not finished at `now`,
/// in their original order.
pub open spec fn unfinished_from(effs: Seq<EffM>, now: int, j: int) -> Seq<EffM>
    decreases effs.len() - j,
{
    if j < 0 || j >= effs.len() {
        Seq::empty()
    } else {
        let rest = unfinished_from(effs, now, j + 1);
        if effect_finished(effs[j], now) {
            rest
        } else {
            seq![effs[j]] + rest
        }
    }
}

/// System that applies area effects to entities and expires finished
/// effects.
pub struct EffectSystem {}

impl EffectSystem {
    /// Create a new effect system.
    pub fn new() -> EffectSystem {
        EffectSystem {  }
    }

    /// Remove any effects in the world which have finished at clock value
    /// `now_ms`, after applying the appropriate states to every entity
    /// inside each effect.
    pub fn run(&mut self, world: &mut World, now_ms: u64)
        requires
            old(world).wf(),
        ensures
            final(world).wf(),
            final(world)@ == (WorldM {
                ents: effects_pass(old(world)@),
                effects: unfinished_from(old(world)@.effects, now_ms as int, 0),
                ..old(world)@
            }),
    {
        world.apply_effects();
        let ghost effsm = world@.effects;
        proof {
            assert(effsm == old(world)@.effects);
        }
        let mut kept: Vec<Effect> = Vec::new();
        let m = world.effects.len();
        let mut j: usize = 0;
        while j < m
            invariant
                0 <= j <= m,
                m == world.effects@.len(),
                effsm == world.effects@.map_values(|e: Effect| e@),
                effsm.len() == m,
                kept@.map_values(|e: Effect| e@) + unfinished_from(effsm, now_ms as int, j as int)
                    == unfinished_from(effsm, now_ms as int, 0),
            decreases m - j,
        {
            proof {
                assert(world.effects@[j as int]@ == effsm[j as int]);
            }
            if !world.effects[j].finished(now_ms) {
                let ghost kept_pre = kept@.map_values(|e: Effect| e@);
                kept.push(world.effects[j].duplicate());
                proof {
                    assert(kept@.map_values(|e: Effect| e@) =~= kept_pre.push(effsm[j as int]));
                    assert(kept_pre.push(effsm[j as int]) + unfinished_from(effsm, now_ms as int,
                        j + 1) =~= kept_pre + (seq![effsm[j as int]] + unfinished_from(effsm,
                        now_ms as int, j + 1)));
                }
            }
            j = j + 1;
        }
        let ghost w1 = *world;
        world.effects = kept;
        proof {
            assert(kept@.map_values(|e: Effect| e@) + Seq::<EffM>::empty() =~= kept@.map_values(
                |e: Effect| e@));
            assert(world@.effects == unfinished_from(effsm, now_ms as int, 0));
            assert(world@.ents =~= w1@.ents);
            assert(world@.dialogs =~= w1@.dialogs);
            assert(world@ =~= (WorldM {
                ents: effects_pass(old(world)@),
                effects: unfinished_from(old(world)@.effects, now_ms as int, 0),
                ..old(world)@
            }));
        }
    }
}

} // verus!
