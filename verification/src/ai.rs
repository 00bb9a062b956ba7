//! The AI behaviour controller: a finite-state machine (idle, aggro, lost)
//! bound to one designated monster entity and one designated player entity,
//! driven by footprint-center line of sight and an injected millisecond
//! clock. The controller also tracks the monster across scene changes,
//! simulating its idle motion while its home scene is not loaded.

use vstd::prelude::*;
use crate::geometry::{seg_hits_rect, seg_hits_rect_exec, PositionComponent};
use crate::model::{AiM, EntM, PhysM, WorldM, ent_footprint, participates};
use crate::num::{
    cadd, csub, clamped, dist_exec, dist_points, scale_frac, scaled_frac, sin_milli,
    sin_milli_spec, COORD_LIMIT, PI_MILLI,
};
use crate::vector::Vector;
use crate::world::{ent_model, lemma_ents_updated, World};

verus! {

/// Index of the player entity, fixed by construction.
pub const PID: usize = 0;

/// Index of the monster entity, fixed by construction.
pub const MID: usize = 1;

/// How close, in world units, counts as having arrived at a waypoint.
pub const ARRIVE_RADIUS: u64 = 2;

/// The monster's fixed movement speed while idling, in world units/second.
pub const IDLE_SPEED: i64 = 60;

/// Milliseconds a scheduled teleport waits before it fires.
pub const TELEPORT_DELAY_MS: u64 = 5000;

/// Pursuit speed baseline, in milli-units per second.
pub const PURSUIT_BASE_MILLI: i64 = 54000;

/// Pursuit speed wobble amplitude, in world units per second.
pub const PURSUIT_AMP: i64 = 20;

/// The name of the monster's home scene.
pub open spec fn home() -> Seq<char> {
    "lake"@
}

/// The tag that marks pursuit.
pub open spec fn aggro_tag() -> Seq<char> {
    "aggro"@
}

/// The tag that marks patrolling.
pub open spec fn idle_tag() -> Seq<char> {
    "idle"@
}

/// The tag that marks searching after lost sight.
pub open spec fn lost_tag() -> Seq<char> {
    "lost"@
}

/// The tag that marks movement.
pub open spec fn walking_tag() -> Seq<char> {
    "walking"@
}

/// The world with the monster's position replaced.
pub open spec fn set_mpos(w: WorldM, p: Option<(int, int)>) -> WorldM {
    WorldM { ents: w.ents.update(MID as int, EntM { pos: p, ..w.ents[MID as int] }), ..w }
}

/// Distance from the monster's footprint corner to a point.
pub open spec fn dist_m(w: WorldM, x: int, y: int) -> int {
    let fp = ent_footprint(w.ents[MID as int]);
    dist_points(fp.x, fp.y, x, y)
}

/// Distance from the monster's simulated position to its next waypoint.
pub open spec fn sim_d(a: AiM) -> int {
    let p = a.idle_path[a.next_idle];
    dist_points(p.0, p.1, a.monster_lake_pos.0, a.monster_lake_pos.1)
}

/// Squared distance between two points.
pub open spec fn d2(p: (int, int), q: (int, int)) -> int {
    (p.0 - q.0) * (p.0 - q.0) + (p.1 - q.1) * (p.1 - q.1)
}

/// The first waypoint index at least as close to `pos` as every other, the
/// scan carrying `best` so far from index `k` on.
pub open spec fn nearest_from(path: Seq<(int, int, int)>, pos: (int, int), k: int, best: int) -> int
    decreases path.len() - k,
{
    if k < 0 || k >= path.len() {
        best
    } else {
        let b2 = if d2((path[k].0, path[k].1), pos) < d2((path[best].0, path[best].1), pos) {
            k
        } else {
            best
        };
        nearest_from(path, pos, k + 1, b2)
    }
}

/// The index of the waypoint closest to `pos` by Euclidean distance, the
/// earliest index winning ties.
pub open spec fn nearest_idle(path: Seq<(int, int, int)>, pos: (int, int)) -> int {
    nearest_from(path, pos, 1, 0)
}

/// Whether entity `k`'s footprint blocks the segment between the doubled
/// footprint centers of the monster and the player (everything scaled by two
/// so that the centers stay integral).
pub open spec fn blocks_los(w: WorldM, k: int) -> bool {
    let mfp = ent_footprint(w.ents[MID as int]);
    let pfp = ent_footprint(w.ents[PID as int]);
    let ofp = ent_footprint(w.ents[k]);
    seg_hits_rect(
        2 * mfp.x + mfp.w,
        2 * mfp.y + mfp.h,
        2 * pfp.x + pfp.w,
        2 * pfp.y + pfp.h,
        2 * ofp.x,
        2 * ofp.y,
        2 * ofp.x + 2 * ofp.w,
        2 * ofp.y + 2 * ofp.h,
    )
}

/// Whether the monster sees the player: no other entity's footprint meets
/// the segment between their footprint centers.
pub open spec fn visible_m(w: WorldM) -> bool {
    forall|k: int|
        2 <= k < w.ents.len() && participates(w.ents[k]) ==> !#[trigger] blocks_los(w, k)
}

/// The world after the monster is sent toward `(x, y)` at `speed`: velocity
/// points from its footprint corner to the target with magnitude `speed`
/// (`(speed, 0)` if it already stands exactly there), the walking tag is
/// set, and the sprite faces the sign of the horizontal velocity, keeping
/// its old facing when that is zero.
pub open spec fn goto_m(w: WorldM, x: int, y: int, speed: int) -> WorldM {
    let e = w.ents[MID as int];
    let ph = e.phys->Some_0;
    let fp = ent_footprint(e);
    let len = dist_points(fp.x, fp.y, x, y);
    let vel = if len == 0 {
        (speed, 0int)
    } else {
        (scaled_frac(x - fp.x, speed, len), scaled_frac(y - fp.y, speed, len))
    };
    let flip = if vel.0 >= 1 {
        false
    } else if vel.0 <= -1 {
        true
    } else {
        e.flip->Some_0
    };
    WorldM {
        ents: w.ents.update(
            MID as int,
            EntM {
                tags: e.tags.insert(walking_tag()),
                phys: Some(PhysM { vel, ..ph }),
                flip: Some(flip),
                ..e
            },
        ),
        ..w
    }
}

/// The world after the monster halts: velocity zero, walking tag removed.
pub open spec fn stop_m(w: WorldM) -> WorldM {
    let e = w.ents[MID as int];
    let ph = e.phys->Some_0;
    WorldM {
        ents: w.ents.update(
            MID as int,
            EntM {
                tags: e.tags.remove(walking_tag()),
                phys: Some(PhysM { vel: (0int, 0int), ..ph }),
                ..e
            },
        ),
        ..w
    }
}

/// The AI controller's own well-formedness: a nonempty waypoint path with
/// in-range coordinates and positive wait durations, a valid next-waypoint
/// index, and in-range tracked positions.
pub open spec fn ai_wf(a: AiM) -> bool {
    &&& 0 < a.idle_path.len()
    &&& 0 <= a.next_idle < a.idle_path.len()
    &&& forall|k: int|
        0 <= k < a.idle_path.len() ==> {
            &&& -(COORD_LIMIT as int) <= (#[trigger] a.idle_path[k]).0 <= COORD_LIMIT as int
            &&& -(COORD_LIMIT as int) <= a.idle_path[k].1 <= COORD_LIMIT as int
            &&& a.idle_path[k].2 > 0
        }
    &&& -(COORD_LIMIT as int) <= a.monster_lake_pos.0 <= COORD_LIMIT as int
    &&& -(COORD_LIMIT as int) <= a.monster_lake_pos.1 <= COORD_LIMIT as int
    &&& -(COORD_LIMIT as int) <= a.teleport_location.0 <= COORD_LIMIT as int
    &&& -(COORD_LIMIT as int) <= a.teleport_location.1 <= COORD_LIMIT as int
}

/// How the controller's state must relate to the world for a tick to be
/// meaningful: the player (entity 0) is placed and physical, the monster
/// (entity 1) has physics and graphics, a deloaded monster is either waiting
/// to teleport or parked unaggroed in its home scene, and the monster is
/// never idle and aggroed at once.
pub open spec fn coupled(a: AiM, w: WorldM) -> bool {
    &&& w.ents.len() >= 2
    &&& w.ents[PID as int].pos is Some
    &&& w.ents[PID as int].phys is Some
    &&& -(COORD_LIMIT as int) <= w.ents[PID as int].pos->Some_0.0 <= COORD_LIMIT as int
    &&& -(COORD_LIMIT as int) <= w.ents[PID as int].pos->Some_0.1 <= COORD_LIMIT as int
    &&& w.ents[MID as int].phys is Some
    &&& w.ents[MID as int].flip is Some
    &&& match w.ents[MID as int].pos {
        Some(p) => {
            &&& -(COORD_LIMIT as int) <= p.0 <= COORD_LIMIT as int
            &&& -(COORD_LIMIT as int) <= p.1 <= COORD_LIMIT as int
        },
        None => a.awaiting_teleport || (a.monster_world == home() && !w.ents[
            MID as int].tags.contains(aggro_tag())),
    }
    &&& !(w.ents[MID as int].tags.contains(idle_tag()) && w.ents[MID as int].tags.contains(
        aggro_tag()))
}

/// Phase one of a tick: a monster that belongs to its loaded home scene but
/// has no position is placed back at its tracked home position.
pub open spec fn ai_phase1(a: AiM, w: WorldM) -> WorldM {
    if a.monster_world == home() && w.current_world == home() && w.ents[MID as int].pos is None {
        set_mpos(w, Some(a.monster_lake_pos))
    } else {
        w
    }
}

/// Phase two: the loaded scene is not the monster's. Back home, its position
/// is restored; elsewhere, a placed monster is taken out of the arrays —
/// pursuing, it schedules a teleport after the player; otherwise it parks at
/// its nearest home waypoint and belongs to its home scene again.
pub open spec fn ai_phase2(a: AiM, w: WorldM, now: int) -> (AiM, WorldM) {
    if a.monster_world != w.current_world {
        if w.current_world == home() {
            (AiM { monster_world: home(), ..a }, set_mpos(w, Some(a.monster_lake_pos)))
        } else if w.ents[MID as int].pos is Some {
            let saved = w.ents[MID as int].pos->Some_0;
            if w.ents[MID as int].tags.contains(aggro_tag()) {
                let pfp = ent_footprint(w.ents[PID as int]);
                (
                    AiM {
                        monster_lake_pos: saved,
                        awaiting_teleport: true,
                        teleport_location: (pfp.x, pfp.y),
                        teleport_timer: now,
                        monster_world: w.current_world,
                        ..a
                    },
                    set_mpos(w, None),
                )
            } else {
                let mi = nearest_idle(a.idle_path, saved);
                (
                    AiM {
                        monster_lake_pos: (a.idle_path[mi].0, a.idle_path[mi].1),
                        next_idle: (mi + 1) % a.idle_path.len() as int,
                        last_idle_time: now,
                        monster_world: home(),
                        ..a
                    },
                    set_mpos(w, None),
                )
            }
        } else {
            (a, w)
        }
    } else {
        (a, w)
    }
}

/// Phase three: a pending teleport either keeps the tick waiting (the third
/// component is true) or, once its delay has passed, places the monster at
/// the stored location raised by its hitbox height.
pub open spec fn ai_phase3(a: AiM, w: WorldM, now: int) -> (AiM, WorldM, bool) {
    if a.awaiting_teleport && now - a.teleport_timer < TELEPORT_DELAY_MS as int {
        (a, w, true)
    } else if a.awaiting_teleport {
        let h = w.ents[MID as int].phys->Some_0.hitbox.h;
        (
            AiM { awaiting_teleport: false, ..a },
            set_mpos(w, Some((a.teleport_location.0, clamped(a.teleport_location.1 - h)))),
            false,
        )
    } else {
        (a, w, false)
    }
}

/// Phase four: state transitions. In the monster's own loaded scene, a
/// visible player within the aggro distance makes it aggro (clearing lost
/// and idle); an aggroed monster that lost sight becomes lost and the time
/// is recorded.
pub open spec fn ai_phase4(a: AiM, w: WorldM, now: int) -> (AiM, WorldM) {
    if w.current_world == a.monster_world {
        if visible_m(w) {
            let p = w.ents[PID as int].pos->Some_0;
            if dist_m(w, p.0, p.1) < a.aggro_distance {
                let e = w.ents[MID as int];
                let tags2 = e.tags.remove(lost_tag()).remove(idle_tag()).insert(aggro_tag());
                (
                    a,
                    WorldM { ents: w.ents.update(MID as int, EntM { tags: tags2, ..e }), ..w },
                )
            } else {
                (a, w)
            }
        } else if w.ents[MID as int].tags.contains(aggro_tag()) {
            let e = w.ents[MID as int];
            let tags2 = e.tags.remove(aggro_tag()).insert(lost_tag());
            (
                AiM { last_aggro: now, ..a },
                WorldM { ents: w.ents.update(MID as int, EntM { tags: tags2, ..e }), ..w },
            )
        } else {
            (a, w)
        }
    } else {
        (a, w)
    }
}

/// The pursuit speed at a given tick: a fixed base plus a sine wobble of the
/// time since the last replan (the angle reduced modulo one period before
/// scaling, in milliradians).
pub open spec fn pursuit_speed(a: AiM, now: int) -> int {
    (PURSUIT_BASE_MILLI + PURSUIT_AMP * sin_milli_spec(
        5 * ((now - a.last_pathfind) % (2 * PI_MILLI as int)),
    )) / 1000
}

/// Phase five: per-state behaviour. Idle walks the waypoint loop (really, or
/// simulated while the monster is off scene, or back to its teleport point
/// in a foreign scene); aggro pursues the player's footprint at the wobbling
/// speed; lost halts and, once the delay has passed, returns to idle at the
/// waypoint nearest the tracked position.
pub open spec fn ai_phase5(a: AiM, w: WorldM, now: int) -> (AiM, WorldM) {
    let tags = w.ents[MID as int].tags;
    let len = a.idle_path.len() as int;
    if tags.contains(idle_tag()) {
        if w.current_world == home() && a.monster_world == home() {
            let p = a.idle_path[a.next_idle];
            if dist_m(w, p.0, p.1) < ARRIVE_RADIUS as int {
                (AiM { next_idle: (a.next_idle + 1) % len, last_idle_time: now, ..a }, w)
            } else {
                (a, goto_m(w, p.0, p.1, IDLE_SPEED as int))
            }
        } else if w.current_world != home() && a.monster_world != home() {
            if dist_m(w, a.teleport_location.0, a.teleport_location.1) < ARRIVE_RADIUS as int {
                (AiM { monster_world: home(), ..a }, set_mpos(w, None))
            } else {
                (
                    a,
                    goto_m(w, a.teleport_location.0, a.teleport_location.1, IDLE_SPEED as int),
                )
            }
        } else {
            let a1 = if sim_d(a) < ARRIVE_RADIUS as int {
                AiM { next_idle: (a.next_idle + 1) % len, last_idle_time: now, ..a }
            } else {
                a
            };
            let target = a1.idle_path[a1.next_idle];
            let last = a1.idle_path[(a1.next_idle + len - 1) % len];
            let t = now - a1.last_idle_time;
            let nx = clamped(last.0 + scaled_frac(target.0 - last.0, t, target.2));
            let ny = clamped(last.1 + scaled_frac(target.1 - last.1, t, target.2));
            (AiM { monster_lake_pos: (nx, ny), ..a1 }, w)
        }
    } else if tags.contains(aggro_tag()) {
        let pfp = ent_footprint(w.ents[PID as int]);
        (a, goto_m(w, pfp.x, pfp.y, pursuit_speed(a, now)))
    } else if tags.contains(lost_tag()) {
        let w2 = stop_m(w);
        if now - a.last_aggro > a.lost_delay {
            let e2 = w2.ents[MID as int];
            let tags2 = e2.tags.remove(lost_tag()).insert(idle_tag());
            let mi = nearest_idle(a.idle_path, a.monster_lake_pos);
            (
                AiM { next_idle: (mi + 1) % len, last_idle_time: now, ..a },
                WorldM { ents: w2.ents.update(MID as int, EntM { tags: tags2, ..e2 }), ..w2 },
            )
        } else {
            (a, w2)
        }
    } else {
        (a, w)
    }
}

/// A monster position is in the coordinate range whenever it is present.
pub open spec fn mid_pos_ok(w: WorldM) -> bool {
    match w.ents[MID as int].pos {
        Some(p) => {
            &&& -(COORD_LIMIT as int) <= p.0 <= COORD_LIMIT as int
            &&& -(COORD_LIMIT as int) <= p.1 <= COORD_LIMIT as int
        },
        None => true,
    }
}

/// The first three phases of a tick; the third component says whether the
/// tick ends early because a teleport is still pending.
pub open spec fn ai_pre5(a: AiM, w: WorldM, now: int) -> (AiM, WorldM, bool) {
    let w1 = ai_phase1(a, w);
    let s2 = ai_phase2(a, w1, now);
    ai_phase3(s2.0, s2.1, now)
}

/// One whole AI tick: the five phases in order, phase three able to end the
/// tick early while a teleport is pending.
pub open spec fn ai_step(a: AiM, w: WorldM, now: int) -> (AiM, WorldM) {
    let s3 = ai_pre5(a, w, now);
    if s3.2 {
        (s3.0, s3.1)
    } else {
        let s4 = ai_phase4(s3.0, s3.1, now);
        ai_phase5(s4.0, s4.1, now)
    }
}

/// A single finite-state controller bound to one monster entity and one
/// player entity.
pub struct AISystem {
    /// Clock value at which aggro was last lost.
    pub last_aggro: u64,
    /// Cyclic idle waypoints: x, y, and the wait duration in milliseconds.
    pub idle_path: Vec<(i64, i64, u64)>,
    /// Index of the next idle waypoint.
    pub next_idle: usize,
    /// Clock value at which the idle waypoint last advanced.
    pub last_idle_time: u64,
    /// Distance under which a visible player triggers pursuit.
    pub aggro_distance: u64,
    /// How long after losing sight the monster keeps searching, in
    /// milliseconds.
    pub lost_delay: u64,
    /// Clock value of the last pursuit replan.
    pub last_pathfind: u64,
    /// Name of the scene the monster logically belongs to.
    pub monster_world: String,
    /// Clock value at which a pending teleport was scheduled.
    pub teleport_timer: u64,
    /// Whether a teleport to the player is pending.
    pub awaiting_teleport: bool,
    /// Where a pending teleport will place the monster.
    pub teleport_location: (i64, i64),
    /// The monster's real or simulated position in its home scene.
    pub monster_lake_pos: (i64, i64),
}

impl View for AISystem {
    type V = AiM;

    open spec fn view(&self) -> AiM {
        AiM {
            last_aggro: self.last_aggro as int,
            idle_path: self.idle_path@.map_values(
                |p: (i64, i64, u64)| (p.0 as int, p.1 as int, p.2 as int),
            ),
            next_idle: self.next_idle as int,
            last_idle_time: self.last_idle_time as int,
            aggro_distance: self.aggro_distance as int,
            lost_delay: self.lost_delay as int,
            last_pathfind: self.last_pathfind as int,
            monster_world: self.monster_world@,
            teleport_timer: self.teleport_timer as int,
            awaiting_teleport: self.awaiting_teleport,
            teleport_location: (self.teleport_location.0 as int, self.teleport_location.1 as int),
            monster_lake_pos: (self.monster_lake_pos.0 as int, self.monster_lake_pos.1 as int),
        }
    }
}

impl AISystem {
    /// Create a new controller at clock value `now_ms`. The waypoint path
    /// holds at least one point, every waypoint lies in the coordinate range
    /// with a positive wait duration, and the monster starts at home.
    pub fn new(idle_path: Vec<(i64, i64, u64)>, aggro_distance: u64, lost_delay: u64, now_ms: u64) -> (r:
        AISystem)
        requires
            idle_path@.len() > 0,
            forall|k: int|
                0 <= k < idle_path@.len() ==> {
                    &&& -COORD_LIMIT <= (#[trigger] idle_path@[k]).0 <= COORD_LIMIT
                    &&& -COORD_LIMIT <= idle_path@[k].1 <= COORD_LIMIT
                    &&& idle_path@[k].2 > 0
                },
        ensures
            r@ == (AiM {
                last_aggro: now_ms as int,
                idle_path: idle_path@.map_values(
                    |p: (i64, i64, u64)| (p.0 as int, p.1 as int, p.2 as int),
                ),
                next_idle: 0,
                last_idle_time: now_ms as int,
                aggro_distance: aggro_distance as int,
                lost_delay: lost_delay as int,
                last_pathfind: now_ms as int,
                monster_world: home(),
                teleport_timer: now_ms as int,
                awaiting_teleport: false,
                teleport_location: (0int, 0int),
                monster_lake_pos: (0int, 0int),
            }),
            ai_wf(r@),
    {
        let r = AISystem {
            last_aggro: now_ms,
            idle_path,
            next_idle: 0,
            last_idle_time: now_ms,
            aggro_distance,
            lost_delay,
            last_pathfind: now_ms,
            monster_world: "lake".to_owned(),
            teleport_timer: now_ms,
            awaiting_teleport: false,
            teleport_location: (0, 0),
            monster_lake_pos: (0, 0),
        };
        proof {
            assert forall|k: int| 0 <= k < r@.idle_path.len() implies {
                &&& -(COORD_LIMIT as int) <= (#[trigger] r@.idle_path[k]).0 <= COORD_LIMIT as int
                &&& -(COORD_LIMIT as int) <= r@.idle_path[k].1 <= COORD_LIMIT as int
                &&& r@.idle_path[k].2 > 0
            } by {
                assert(r@.idle_path[k] == (r.idle_path@[k].0 as int, r.idle_path@[k].1 as int,
                    r.idle_path@[k].2 as int));
            }
        }
        r
    }

    /// Distance from the monster's footprint corner to a point.
    pub fn dist(&self, world: &World, x: i64, y: i64) -> (r: u64)
        requires
            world.wf(),
            world@.ents.len() >= 2,
            world@.ents[MID as int].pos is Some,
            world@.ents[MID as int].phys is Some,
            -COORD_LIMIT <= x <= COORD_LIMIT,
            -COORD_LIMIT <= y <= COORD_LIMIT,
        ensures
            r as int == dist_m(world@, x as int, y as int),
    {
        let popt = world.positions[MID];
        let phopt = world.physics[MID];
        match (popt, phopt) {
            (Some(p), Some(ph)) => {
                let fp = ph.hitbox.after_position(&p).after_depth(ph.depth);
                proof {
                    assert(world@.ents[MID as int] == ent_model(world, MID as int));
                    assert(fp@ =~= ent_footprint(world@.ents[MID as int]));
                }
                dist_exec(fp.x, fp.y, x, y)
            },
            _ => 0,
        }
    }

    /// Distance from the monster's simulated home position to its next
    /// waypoint.
    pub fn sim_dist(&self) -> (r: u64)
        requires
            ai_wf(self@),
        ensures
            r as int == sim_d(self@),
    {
        let p = self.idle_path[self.next_idle];
        proof {
            assert(self@.idle_path[self@.next_idle] == (p.0 as int, p.1 as int, p.2 as int));
        }
        dist_exec(p.0, p.1, self.monster_lake_pos.0, self.monster_lake_pos.1)
    }

    /// Whether the monster can see the player: no other entity's footprint
    /// crosses the segment between the two footprint centers.
    pub fn player_visible(&self, world: &World) -> (r: bool)
        requires
            world.wf(),
            world@.ents.len() >= 2,
            participates(world@.ents[PID as int]),
            participates(world@.ents[MID as int]),
        ensures
            r == visible_m(world@),
    {
        let n = world.states.len();
        let (mx2, my2, px2, py2) = {
            let mp = world.positions[MID];
            let mph = world.physics[MID];
            let pp = world.positions[PID];
            let pph = world.physics[PID];
            match (mp, mph, pp, pph) {
                (Some(mp), Some(mph), Some(pp), Some(pph)) => {
                    let m_rect = mph.hitbox.after_position(&mp).after_depth(mph.depth);
                    let p_rect = pph.hitbox.after_position(&pp).after_depth(pph.depth);
                    proof {
                        assert(world@.ents[MID as int] == ent_model(world, MID as int));
                        assert(world@.ents[PID as int] == ent_model(world, PID as int));
                        assert(m_rect@ =~= ent_footprint(world@.ents[MID as int]));
                        assert(p_rect@ =~= ent_footprint(world@.ents[PID as int]));
                    }
                    (
                        2 * m_rect.x + m_rect.w as i64,
                        2 * m_rect.y + m_rect.h as i64,
                        2 * p_rect.x + p_rect.w as i64,
                        2 * p_rect.y + p_rect.h as i64,
                    )
                },
                _ => (0, 0, 0, 0),
            }
        };
        let mut k: usize = 2;
        while k < n
            invariant
                world.wf(),
                n == world.states@.len(),
                n == world@.ents.len(),
                2 <= k,
                k <= n || k == 2,
                participates(world@.ents[PID as int]),
                participates(world@.ents[MID as int]),
                mx2 as int == 2 * ent_footprint(world@.ents[MID as int]).x + ent_footprint(
                    world@.ents[MID as int]).w,
                my2 as int == 2 * ent_footprint(world@.ents[MID as int]).y + ent_footprint(
                    world@.ents[MID as int]).h,
                px2 as int == 2 * ent_footprint(world@.ents[PID as int]).x + ent_footprint(
                    world@.ents[PID as int]).w,
                py2 as int == 2 * ent_footprint(world@.ents[PID as int]).y + ent_footprint(
                    world@.ents[PID as int]).h,
                -4 * COORD_LIMIT <= mx2 <= 4 * COORD_LIMIT,
                -4 * COORD_LIMIT <= my2 <= 4 * COORD_LIMIT,
                -4 * COORD_LIMIT <= px2 <= 4 * COORD_LIMIT,
                -4 * COORD_LIMIT <= py2 <= 4 * COORD_LIMIT,
                forall|j: int|
                    2 <= j < k && participates(world@.ents[j]) ==> !#[trigger] blocks_los(
                        world@,
                        j,
                    ),
            decreases n - k,
        {
            let op = world.positions[k];
            let oph = world.physics[k];
            match (op, oph) {
                (Some(op), Some(oph)) => {
                    let footprint = oph.hitbox.after_position(&op).after_depth(oph.depth);
                    proof {
                        assert(world@.ents[k as int] == ent_model(world, k as int));
                        assert(footprint@ =~= ent_footprint(world@.ents[k as int]));
                    }
                    let l2 = 2 * footprint.x;
                    let t2 = 2 * footprint.y;
                    let r2 = 2 * footprint.x + 2 * (footprint.w as i64);
                    let b2 = 2 * footprint.y + 2 * (footprint.h as i64);
                    if seg_hits_rect_exec(mx2, my2, px2, py2, l2, t2, r2, b2) {
                        proof {
                            assert(blocks_los(world@, k as int));
                            assert(2 <= k < world@.ents.len() && participates(
                                world@.ents[k as int]));
                            assert(!visible_m(world@));
                        }
                        return false;
                    }
                },
                _ => {
                    proof {
                        assert(world@.ents[k as int] == ent_model(world, k as int));
                        assert(!participates(world@.ents[k as int]));
                    }
                },
            }
            k = k + 1;
        }
        true
    }

    /// Send the monster toward `(x, y)` at `speed` world units per second:
    /// set its velocity from its footprint corner toward the target, add the
    /// walking tag, and face the sprite along the horizontal velocity,
    /// keeping the old facing when that is zero.
    pub fn goto(&self, world: &mut World, x: i64, y: i64, speed: i64)
        requires
            old(world).wf(),
            old(world)@.ents.len() >= 2,
            old(world)@.ents[MID as int].pos is Some,
            old(world)@.ents[MID as int].phys is Some,
            old(world)@.ents[MID as int].flip is Some,
            -COORD_LIMIT <= x <= COORD_LIMIT,
            -COORD_LIMIT <= y <= COORD_LIMIT,
            0 <= speed <= COORD_LIMIT,
        ensures
            final(world).wf(),
            final(world)@ == goto_m(old(world)@, x as int, y as int, speed as int),
    {
        let (cx, cy) = {
            let popt = world.positions[MID];
            let phopt = world.physics[MID];
            match (popt, phopt) {
                (Some(p), Some(ph)) => {
                    let fp = ph.hitbox.after_position(&p).after_depth(ph.depth);
                    proof {
                        assert(old(world)@.ents[MID as int] == ent_model(world, MID as int));
                        assert(fp@ =~= ent_footprint(old(world)@.ents[MID as int]));
                    }
                    (fp.x, fp.y)
                },
                _ => (0, 0),
            }
        };
        let len = dist_exec(cx, cy, x, y);
        let dx = x - cx;
        let dy = y - cy;
        let vel = if len == 0 {
            Vector::new(speed, 0)
        } else {
            Vector::new(scale_frac(dx, speed as u64, len), scale_frac(dy, speed as u64, len))
        };
        let ghost mid_pre = *world;
        match (&mut world.physics[MID]) {
            Some(ph) => {
                ph.velocity = vel;
            },
            None => {},
        }
        world.states[MID].insert("walking".to_owned());
        match (&mut world.graphics[MID]) {
            Some(g) => {
                if vel.x >= 1 {
                    g.flipped = false;
                } else if vel.x <= -1 {
                    g.flipped = true;
                }
            },
            None => {},
        }
        proof {
            lemma_ents_updated(old(world), world, MID as int);
            let gm = goto_m(old(world)@, x as int, y as int, speed as int);
            assert(ent_model(world, MID as int) =~= gm.ents[MID as int]);
            assert(world@.ents =~= gm.ents);
            assert(world@ =~= gm);
        }
    }

    /// Halt the monster: zero its velocity and clear the walking tag.
    pub fn stop(&self, world: &mut World)
        requires
            old(world).wf(),
            old(world)@.ents.len() >= 2,
            old(world)@.ents[MID as int].phys is Some,
        ensures
            final(world).wf(),
            final(world)@ == stop_m(old(world)@),
    {
        match (&mut world.physics[MID]) {
            Some(ph) => {
                ph.velocity = Vector::zero();
            },
            None => {},
        }
        let walking = "walking".to_owned();
        world.states[MID].remove(&walking);
        proof {
            lemma_ents_updated(old(world), world, MID as int);
            let sm = stop_m(old(world)@);
            assert(ent_model(world, MID as int) =~= sm.ents[MID as int]);
            assert(world@.ents =~= sm.ents);
            assert(world@ =~= sm);
        }
    }

    /// The index of the waypoint nearest to `pos`, earliest index winning
    /// ties.
    pub fn nearest_waypoint(&self, pos: (i64, i64)) -> (r: usize)
        requires
            ai_wf(self@),
            -COORD_LIMIT <= pos.0 <= COORD_LIMIT,
            -COORD_LIMIT <= pos.1 <= COORD_LIMIT,
        ensures
            r as int == nearest_idle(self@.idle_path, (pos.0 as int, pos.1 as int)),
            r < self.idle_path@.len(),
    {
        let ghost path = self@.idle_path;
        let ghost pm = (pos.0 as int, pos.1 as int);
        let n = self.idle_path.len();
        let mut best: usize = 0;
        let mut k: usize = 1;
        while k < n
            invariant
                ai_wf(self@),
                n == self.idle_path@.len(),
                n == path.len(),
                path == self@.idle_path,
                pm == (pos.0 as int, pos.1 as int),
                -COORD_LIMIT <= pos.0 <= COORD_LIMIT,
                -COORD_LIMIT <= pos.1 <= COORD_LIMIT,
                1 <= k <= n || n <= 1,
                0 <= best < n,
                nearest_idle(path, pm) == nearest_from(path, pm, k as int, best as int),
            decreases n - k,
        {
            let pk = self.idle_path[k];
            let pb = self.idle_path[best];
            proof {
                assert(path[k as int] == (pk.0 as int, pk.1 as int, pk.2 as int));
                assert(path[best as int] == (pb.0 as int, pb.1 as int, pb.2 as int));
            }
            let dkx: i128 = pk.0 as i128 - pos.0 as i128;
            let dky: i128 = pk.1 as i128 - pos.1 as i128;
            let dbx: i128 = pb.0 as i128 - pos.0 as i128;
            let dby: i128 = pb.1 as i128 - pos.1 as i128;
            proof {
                assert(dkx * dkx + dky * dky == d2((path[k as int].0, path[k as int].1), pm)
                    && dbx * dbx + dby * dby == d2((path[best as int].0, path[best as int].1), pm)
                    && dkx * dkx + dky * dky < 79228162514264337593543950336i128 && dbx * dbx + dby
                    * dby < 79228162514264337593543950336i128 && dkx * dkx >= 0 && dky * dky >= 0
                    && dbx * dbx >= 0 && dby * dby >= 0) by (nonlinear_arith)
                    requires
                        -140737488355328i128 <= dkx <= 140737488355328i128,
                        -140737488355328i128 <= dky <= 140737488355328i128,
                        -140737488355328i128 <= dbx <= 140737488355328i128,
                        -140737488355328i128 <= dby <= 140737488355328i128,
                        dkx == path[k as int].0 - pm.0,
                        dky == path[k as int].1 - pm.1,
                        dbx == path[best as int].0 - pm.0,
                        dby == path[best as int].1 - pm.1,
                        d2((path[k as int].0, path[k as int].1), pm) == (path[k as int].0 - pm.0)
                            * (path[k as int].0 - pm.0) + (path[k as int].1 - pm.1) * (
                        path[k as int].1 - pm.1),
                        d2((path[best as int].0, path[best as int].1), pm) == (path[best as int].0
                            - pm.0) * (path[best as int].0 - pm.0) + (path[best as int].1 - pm.1)
                            * (path[best as int].1 - pm.1),
                ;
            }
            if dkx * dkx + dky * dky < dbx * dbx + dby * dby {
                best = k;
            }
            k = k + 1;
        }
        best
    }


    /// Phase one of a tick: place a monster that belongs to its loaded home
    /// scene but has no position back at its tracked home position.
    fn phase_reload(&self, world: &mut World)
        requires
            old(world).wf(),
            old(world)@.ents.len() >= 2,
        ensures
            final(world).wf(),
            final(world)@ == ai_phase1(self@, old(world)@),
    {
        let home_s: String = "lake".to_owned();
        proof {
            assert(old(world)@.ents[MID as int] == ent_model(world, MID as int));
        }
        if self.monster_world == home_s && world.current_world == home_s
            && world.positions[MID].is_none() {
            let ghost pre = *world;
            world.positions[MID] = Some(
                PositionComponent::new(self.monster_lake_pos.0, self.monster_lake_pos.1),
            );
            proof {
                lemma_ents_updated(&pre, world, MID as int);
                assert(ent_model(world, MID as int) =~= ai_phase1(self@, old(world)@).ents[
                    MID as int]);
                assert(world@.ents =~= ai_phase1(self@, old(world)@).ents);
                assert(world@ =~= ai_phase1(self@, old(world)@));
            }
        } else {
            proof {
                assert(world@ =~= ai_phase1(self@, old(world)@));
            }
        }
    }

    /// Phase two of a tick: the loaded scene is not the monster's own. Back
    /// home its position is restored; elsewhere a placed monster leaves the
    /// arrays — pursuing, it schedules a teleport after the player,
    /// otherwise it parks at its nearest home waypoint.
    fn phase_scene_change(&mut self, world: &mut World, now_ms: u64)
        requires
            old(world).wf(),
            old(world)@.ents.len() >= 2,
            ai_wf(old(self)@),
            old(world)@.ents[PID as int].pos is Some,
            old(world)@.ents[PID as int].phys is Some,
            mid_pos_ok(old(world)@),
        ensures
            final(world).wf(),
            final(self)@ == ai_phase2(old(self)@, old(world)@, now_ms as int).0,
            final(world)@ == ai_phase2(old(self)@, old(world)@, now_ms as int).1,
    {
        let ghost a0 = self@;
        let ghost w0 = world@;
        let home_s: String = "lake".to_owned();
        let aggro_s: String = "aggro".to_owned();
        proof {
            assert(w0.ents[MID as int] == ent_model(world, MID as int));
            assert(w0.ents[PID as int] == ent_model(world, PID as int));
        }
        if !(self.monster_world == world.current_world) {
            if world.current_world == home_s {
                self.monster_world = "lake".to_owned();
                let ghost pre = *world;
                world.positions[MID] = Some(
                    PositionComponent::new(self.monster_lake_pos.0, self.monster_lake_pos.1),
                );
                proof {
                    lemma_ents_updated(&pre, world, MID as int);
                    assert(ent_model(world, MID as int) =~= ai_phase2(a0, w0,
                        now_ms as int).1.ents[MID as int]);
                    assert(world@.ents =~= ai_phase2(a0, w0, now_ms as int).1.ents);
                    assert(self@ =~= ai_phase2(a0, w0, now_ms as int).0);
                }
            } else {
                let mpos = world.positions[MID];
                match mpos {
                    Some(saved) => {
                        proof {
                            assert(w0.ents[MID as int].pos == Some((saved.x as int,
                                saved.y as int)));
                            assert(-COORD_LIMIT <= saved.x <= COORD_LIMIT && -COORD_LIMIT
                                <= saved.y <= COORD_LIMIT);
                        }
                        self.monster_lake_pos = (saved.x, saved.y);
                        if world.states[MID].contains(&aggro_s) {
                            self.awaiting_teleport = true;
                            let (tx, ty) = {
                                let pp = world.positions[PID];
                                let pph = world.physics[PID];
                                match (pp, pph) {
                                    (Some(pp), Some(pph)) => {
                                        let fp = pph.hitbox.after_position(&pp).after_depth(
                                            pph.depth);
                                        proof {
                                            assert(fp@ =~= ent_footprint(w0.ents[PID as int]));
                                        }
                                        (fp.x, fp.y)
                                    },
                                    _ => (0, 0),
                                }
                            };
                            self.teleport_location = (tx, ty);
                            self.teleport_timer = now_ms;
                            self.monster_world = world.current_world.clone();
                            let ghost pre = *world;
                            world.positions[MID] = None;
                            proof {
                                lemma_ents_updated(&pre, world, MID as int);
                                assert(ent_model(world, MID as int) =~= ai_phase2(a0, w0,
                                    now_ms as int).1.ents[MID as int]);
                                assert(world@.ents =~= ai_phase2(a0, w0, now_ms as int).1.ents);
                                assert(self@ =~= ai_phase2(a0, w0, now_ms as int).0);
                            }
                        } else {
                            let mi = self.nearest_waypoint((saved.x, saved.y));
                            let plen = self.idle_path.len();
                            let wp = self.idle_path[mi];
                            proof {
                                assert(self@.idle_path[mi as int] == (wp.0 as int, wp.1 as int,
                                    wp.2 as int));
                                assert(mi < plen);
                            }
                            self.monster_lake_pos = (wp.0, wp.1);
                            self.next_idle = (mi + 1) % plen;
                            self.last_idle_time = now_ms;
                            self.monster_world = "lake".to_owned();
                            let ghost pre = *world;
                            world.positions[MID] = None;
                            proof {
                                lemma_ents_updated(&pre, world, MID as int);
                                assert(ent_model(world, MID as int) =~= ai_phase2(a0, w0,
                                    now_ms as int).1.ents[MID as int]);
                                assert(world@.ents =~= ai_phase2(a0, w0, now_ms as int).1.ents);
                                assert(self@ =~= ai_phase2(a0, w0, now_ms as int).0);
                            }
                        }
                    },
                    None => {
                        proof {
                            assert(self@ =~= ai_phase2(a0, w0, now_ms as int).0);
                            assert(world@ =~= ai_phase2(a0, w0, now_ms as int).1);
                        }
                    },
                }
            }
        } else {
            proof {
                assert(self@ =~= ai_phase2(a0, w0, now_ms as int).0);
                assert(world@ =~= ai_phase2(a0, w0, now_ms as int).1);
            }
        }
    }

    /// Phase three of a tick: a pending teleport either keeps the tick
    /// waiting (the result is true) or, once its delay has passed, places
    /// the monster at the stored location raised by its hitbox height.
    fn phase_teleport(&mut self, world: &mut World, now_ms: u64) -> (early: bool)
        requires
            old(world).wf(),
            old(world)@.ents.len() >= 2,
            old(world)@.ents[MID as int].phys is Some,
            now_ms >= old(self).teleport_timer,
        ensures
            final(world).wf(),
            final(self)@ == ai_phase3(old(self)@, old(world)@, now_ms as int).0,
            final(world)@ == ai_phase3(old(self)@, old(world)@, now_ms as int).1,
            early == ai_phase3(old(self)@, old(world)@, now_ms as int).2,
    {
        let ghost a0 = self@;
        let ghost w0 = world@;
        proof {
            assert(w0.ents[MID as int] == ent_model(world, MID as int));
        }
        if self.awaiting_teleport && now_ms - self.teleport_timer < TELEPORT_DELAY_MS {
            true
        } else if self.awaiting_teleport {
            self.awaiting_teleport = false;
            let height: u32 = match world.physics[MID] {
                Some(ph) => ph.hitbox.h,
                None => 0,
            };
            let ghost pre = *world;
            world.positions[MID] = Some(
                PositionComponent::new(
                    self.teleport_location.0,
                    csub(self.teleport_location.1, height as i64),
                ),
            );
            proof {
                lemma_ents_updated(&pre, world, MID as int);
                assert(ent_model(world, MID as int) =~= ai_phase3(a0, w0,
                    now_ms as int).1.ents[MID as int]);
                assert(world@.ents =~= ai_phase3(a0, w0, now_ms as int).1.ents);
                assert(self@ =~= ai_phase3(a0, w0, now_ms as int).0);
            }
            false
        } else {
            false
        }
    }

    /// Phase four of a tick: in the monster's own loaded scene, a visible
    /// player within the aggro distance makes it aggro (clearing lost and
    /// idle); an aggroed monster that lost sight becomes lost and the time
    /// is recorded.
    fn phase_transitions(&mut self, world: &mut World, now_ms: u64)
        requires
            old(world).wf(),
            old(world)@.ents.len() >= 2,
            old(world)@.ents[PID as int].pos is Some,
            old(world)@.ents[PID as int].phys is Some,
            -(COORD_LIMIT as int) <= old(world)@.ents[PID as int].pos->Some_0.0
                <= COORD_LIMIT as int,
            -(COORD_LIMIT as int) <= old(world)@.ents[PID as int].pos->Some_0.1
                <= COORD_LIMIT as int,
            old(world)@.ents[MID as int].phys is Some,
            old(world)@.current_world == old(self)@.monster_world ==> old(world)@.ents[
                MID as int].pos is Some,
        ensures
            final(world).wf(),
            final(self)@ == ai_phase4(old(self)@, old(world)@, now_ms as int).0,
            final(world)@ == ai_phase4(old(self)@, old(world)@, now_ms as int).1,
    {
        let ghost a0 = self@;
        let ghost w0 = world@;
        let aggro_s: String = "aggro".to_owned();
        let idle_s: String = "idle".to_owned();
        let lost_s: String = "lost".to_owned();
        proof {
            assert(w0.ents[MID as int] == ent_model(world, MID as int));
            assert(w0.ents[PID as int] == ent_model(world, PID as int));
        }
        if self.monster_world == world.current_world {
            proof {
                assert(world@.ents[MID as int].pos is Some);
                assert(participates(world@.ents[MID as int]));
                assert(participates(world@.ents[PID as int]));
            }
            if self.player_visible(world) {
                let (px, py) = match world.positions[PID] {
                    Some(p) => (p.x, p.y),
                    None => (0, 0),
                };
                let d = self.dist(world, px, py);
                if d < self.aggro_distance {
                    world.remove_entity_state(MID, &lost_s);
                    world.remove_entity_state(MID, &idle_s);
                    world.add_entity_state(MID, "aggro".to_owned());
                    proof {
                        assert(world@.ents =~= ai_phase4(a0, w0, now_ms as int).1.ents);
                        assert(world@ =~= ai_phase4(a0, w0, now_ms as int).1);
                    }
                }
            } else if world.states[MID].contains(&aggro_s) {
                self.last_aggro = now_ms;
                world.remove_entity_state(MID, &aggro_s);
                world.add_entity_state(MID, "lost".to_owned());
                proof {
                    assert(world@.ents =~= ai_phase4(a0, w0, now_ms as int).1.ents);
                    assert(world@ =~= ai_phase4(a0, w0, now_ms as int).1);
                }
            }
        }
        proof {
            assert(self@ =~= ai_phase4(a0, w0, now_ms as int).0);
            assert(world@ =~= ai_phase4(a0, w0, now_ms as int).1);
        }
    }

    /// Phase five of a tick: act out the current behaviour state — walk the
    /// idle loop (really, simulated, or back to the teleport point), pursue
    /// the player at the wobbling speed, or halt while lost and return to
    /// idle once the delay has passed.
    fn phase_behave(&mut self, world: &mut World, now_ms: u64)
        requires
            old(world).wf(),
            old(world)@.ents.len() >= 2,
            old(world)@.ents[PID as int].pos is Some,
            old(world)@.ents[PID as int].phys is Some,
            old(world)@.ents[MID as int].phys is Some,
            old(world)@.ents[MID as int].flip is Some,
            ai_wf(old(self)@),
            now_ms >= old(self).last_aggro,
            now_ms >= old(self).last_idle_time,
            now_ms >= old(self).last_pathfind,
            old(world)@.ents[MID as int].tags.contains(idle_tag()) && old(world)@.current_world
                == home() && old(self)@.monster_world == home() ==> old(world)@.ents[
                MID as int].pos is Some,
            old(world)@.ents[MID as int].tags.contains(idle_tag()) && old(world)@.current_world
                != home() && old(self)@.monster_world != home() ==> old(world)@.ents[
                MID as int].pos is Some,
            !old(world)@.ents[MID as int].tags.contains(idle_tag()) && old(world)@.ents[
                MID as int].tags.contains(aggro_tag()) ==> old(world)@.ents[MID as int].pos
                is Some,
        ensures
            final(world).wf(),
            final(self)@ == ai_phase5(old(self)@, old(world)@, now_ms as int).0,
            final(world)@ == ai_phase5(old(self)@, old(world)@, now_ms as int).1,
    {
        let ghost a0 = self@;
        let ghost w0 = world@;
        let home_s: String = "lake".to_owned();
        let aggro_s: String = "aggro".to_owned();
        let idle_s: String = "idle".to_owned();
        let lost_s: String = "lost".to_owned();
        proof {
            assert(w0.ents[MID as int] == ent_model(world, MID as int));
            assert(w0.ents[PID as int] == ent_model(world, PID as int));
        }
        if world.states[MID].contains(&idle_s) {
            if world.current_world == home_s && self.monster_world == home_s {
                let wp = self.idle_path[self.next_idle];
                proof {
                    assert(self@.idle_path[self@.next_idle] == (wp.0 as int, wp.1 as int,
                        wp.2 as int));
                    assert(world@.ents[MID as int].pos is Some);
                }
                let d = self.dist(world, wp.0, wp.1);
                if d < ARRIVE_RADIUS {
                    let plen = self.idle_path.len();
                    proof {
                        assert(plen > 0);
                        assert(self.next_idle < plen);
                    }
                    self.next_idle = (self.next_idle + 1) % plen;
                    self.last_idle_time = now_ms;
                } else {
                    self.goto(world, wp.0, wp.1, IDLE_SPEED);
                }
            } else if !(world.current_world == home_s) && !(self.monster_world == home_s) {
                proof {
                    assert(world@.ents[MID as int].pos is Some);
                }
                let d = self.dist(world, self.teleport_location.0, self.teleport_location.1);
                if d < ARRIVE_RADIUS {
                    self.monster_world = "lake".to_owned();
                    let ghost pre = *world;
                    world.positions[MID] = None;
                    proof {
                        lemma_ents_updated(&pre, world, MID as int);
                        assert(ent_model(world, MID as int) =~= ai_phase5(a0, w0,
                            now_ms as int).1.ents[MID as int]);
                        assert(world@.ents =~= ai_phase5(a0, w0, now_ms as int).1.ents);
                    }
                } else {
                    self.goto(world, self.teleport_location.0, self.teleport_location.1,
                        IDLE_SPEED);
                }
            } else {
                if self.sim_dist() < ARRIVE_RADIUS {
                    let plen = self.idle_path.len();
                    proof {
                        assert(plen > 0);
                        assert(self.next_idle < plen);
                    }
                    self.next_idle = (self.next_idle + 1) % plen;
                    self.last_idle_time = now_ms;
                }
                let len = self.idle_path.len();
                let target = self.idle_path[self.next_idle];
                let li: usize = if self.next_idle == 0 {
                    len - 1
                } else {
                    self.next_idle - 1
                };
                proof {
                    if self.next_idle == 0 {
                        vstd::arithmetic::div_mod::lemma_small_mod((len - 1) as nat, len as nat);
                    } else {
                        vstd::arithmetic::div_mod::lemma_mod_multiples_vanish(1,
                            self@.next_idle - 1, len as int);
                        vstd::arithmetic::div_mod::lemma_small_mod((self.next_idle - 1) as nat,
                            len as nat);
                    }
                    assert(li as int == (self@.next_idle + len - 1) % (len as int));
                }
                let last = self.idle_path[li];
                proof {
                    assert(self@.idle_path[self@.next_idle] == (target.0 as int, target.1 as int,
                        target.2 as int));
                    assert(self@.idle_path[(self@.next_idle + len - 1) % (len as int)] == (
                    last.0 as int, last.1 as int, last.2 as int));
                }
                let t = now_ms - self.last_idle_time;
                let nx = cadd(last.0, scale_frac(target.0 - last.0, t, target.2));
                let ny = cadd(last.1, scale_frac(target.1 - last.1, t, target.2));
                self.monster_lake_pos = (nx, ny);
            }
        } else if world.states[MID].contains(&aggro_s) {
            proof {
                assert(world@.ents[MID as int].pos is Some);
            }
            let (tx, ty) = {
                let pp = world.positions[PID];
                let pph = world.physics[PID];
                match (pp, pph) {
                    (Some(pp), Some(pph)) => {
                        let fp = pph.hitbox.after_position(&pp).after_depth(pph.depth);
                        proof {
                            assert(fp@ =~= ent_footprint(w0.ents[PID as int]));
                        }
                        (fp.x, fp.y)
                    },
                    _ => (0, 0),
                }
            };
            let sm = sin_milli(5 * ((now_ms - self.last_pathfind) % (2 * PI_MILLI)));
            let sraw: i64 = PURSUIT_BASE_MILLI + PURSUIT_AMP * sm;
            let speed: i64 = ((sraw as u64) / 1000) as i64;
            proof {
                assert(speed as int == pursuit_speed(a0, now_ms as int));
                assert(34 <= speed <= 74);
            }
            self.goto(world, tx, ty, speed);
        } else if world.states[MID].contains(&lost_s) {
            self.stop(world);
            if now_ms - self.last_aggro > self.lost_delay {
                world.remove_entity_state(MID, &lost_s);
                world.add_entity_state(MID, "idle".to_owned());
                let mi = self.nearest_waypoint(self.monster_lake_pos);
                let plen = self.idle_path.len();
                proof {
                    assert(mi < plen);
                }
                self.next_idle = (mi + 1) % plen;
                self.last_idle_time = now_ms;
                proof {
                    assert(world@.ents =~= ai_phase5(a0, w0, now_ms as int).1.ents);
                }
            }
        }
        proof {
            assert(self@ =~= ai_phase5(a0, w0, now_ms as int).0);
            assert(world@.ents =~= ai_phase5(a0, w0, now_ms as int).1.ents);
            assert(world@ =~= ai_phase5(a0, w0, now_ms as int).1);
        }
    }

    /// One AI tick at clock value `now_ms`: track the monster across scene
    /// changes, settle any pending teleport, run the visibility-driven state
    /// transitions, and act out the current state.
    pub fn run(&mut self, world: &mut World, now_ms: u64)
        requires
            old(world).wf(),
            ai_wf(old(self)@),
            coupled(old(self)@, old(world)@),
            now_ms >= old(self).last_aggro,
            now_ms >= old(self).last_idle_time,
            now_ms >= old(self).last_pathfind,
            now_ms >= old(self).teleport_timer,
        ensures
            final(world).wf(),
            ai_wf(final(self)@),
            coupled(final(self)@, final(world)@),
            final(self).last_aggro <= now_ms,
            final(self).last_idle_time <= now_ms,
            final(self).last_pathfind <= now_ms,
            final(self).teleport_timer <= now_ms,
            (final(self)@, final(world)@) == ai_step(old(self)@, old(world)@, now_ms as int),
    {
        let ghost a0 = self@;
        let ghost w0 = world@;
        proof {
            lemma_pre5_props(a0, w0, now_ms as int);
        }
        self.phase_reload(world);
        self.phase_scene_change(world, now_ms);
        let early = self.phase_teleport(world, now_ms);
        proof {
            assert(self@ == ai_pre5(a0, w0, now_ms as int).0);
            assert(world@ == ai_pre5(a0, w0, now_ms as int).1);
            assert(early == ai_pre5(a0, w0, now_ms as int).2);
        }
        if early {
            proof {
                assert((self@, world@) == ai_step(a0, w0, now_ms as int));
            }
            return ;
        }
        let ghost a3 = self@;
        let ghost w3 = world@;
        self.phase_transitions(world, now_ms);
        proof {
            lemma_phase4_props(a3, w3, now_ms as int);
        }
        let ghost a4 = self@;
        let ghost w4 = world@;
        self.phase_behave(world, now_ms);
        proof {
            lemma_phase5_props(a4, w4, now_ms as int);
            assert((self@, world@) == ai_step(a0, w0, now_ms as int));
        }
    }
}

/// Properties of the first three phases, for composing a tick: the player
/// entity, the monster's physics, graphics and tags, and the rest of the
/// world are untouched; the controller stays well formed; and whenever the
/// tick goes on past them, a monster in its own loaded scene is placed, a
/// deloaded monster is parked at home without aggro, and no teleport is
/// pending.
pub proof fn lemma_pre5_props(a: AiM, w: WorldM, now: int)
    requires
        ai_wf(a),
        coupled(a, w),
        now >= a.last_aggro,
        now >= a.last_idle_time,
        now >= a.last_pathfind,
        now >= a.teleport_timer,
    ensures
        ({
            let s3 = ai_pre5(a, w, now);
            let a3 = s3.0;
            let w3 = s3.1;
            &&& w3.ents.len() == w.ents.len()
            &&& w3.ents[PID as int] == w.ents[PID as int]
            &&& w3.ents[MID as int].phys == w.ents[MID as int].phys
            &&& w3.ents[MID as int].flip == w.ents[MID as int].flip
            &&& w3.ents[MID as int].tags == w.ents[MID as int].tags
            &&& w3.current_world == w.current_world
            &&& ai_wf(a3)
            &&& mid_pos_ok(ai_phase1(a, w))
            &&& mid_pos_ok(ai_phase2(a, ai_phase1(a, w), now).1)
            &&& mid_pos_ok(w3)
            &&& a3.last_aggro == a.last_aggro
            &&& a3.last_pathfind == a.last_pathfind
            &&& (a3.last_idle_time == a.last_idle_time || a3.last_idle_time == now)
            &&& (a3.teleport_timer == a.teleport_timer || a3.teleport_timer == now)
            &&& ai_phase2(a, ai_phase1(a, w), now).0.teleport_timer >= a.teleport_timer
            &&& ai_phase2(a, ai_phase1(a, w), now).1.ents[MID as int].phys == w.ents[
                MID as int].phys
            &&& ai_phase2(a, ai_phase1(a, w), now).1.ents.len() == w.ents.len()
            &&& ai_phase1(a, w).ents.len() == w.ents.len()
            &&& ai_phase1(a, w).ents[PID as int] == w.ents[PID as int]
            &&& (!s3.2 ==> !a3.awaiting_teleport)
            &&& (!s3.2 ==> (w3.ents[MID as int].pos is None ==> a3.monster_world == home()
                && !w3.ents[MID as int].tags.contains(aggro_tag())))
            &&& (!s3.2 ==> (w3.current_world == a3.monster_world ==> w3.ents[MID as int].pos
                is Some))
        }),
{
    let w1 = ai_phase1(a, w);
    let s2 = ai_phase2(a, w1, now);
    let a2 = s2.0;
    let w2 = s2.1;
    let s3 = ai_phase3(a2, w2, now);
    let a3 = s3.0;
    let w3 = s3.1;
    assert(w1.ents.len() == w.ents.len());
    assert(w2.ents.len() == w.ents.len());
    assert(w3.ents.len() == w.ents.len());
    if a.monster_world != w1.current_world && !(w1.current_world == home()) && w1.ents[
        MID as int].pos is Some && !w1.ents[MID as int].tags.contains(aggro_tag()) {
        lemma_nearest_bounds(a.idle_path, w1.ents[MID as int].pos->Some_0, 1, 0);
    }
    assert(ai_wf(a2));
    assert(ai_wf(a3));
    assert(mid_pos_ok(w1));
    assert(mid_pos_ok(w2));
    assert(mid_pos_ok(w3));
    if !s3.2 {
        assert(!a3.awaiting_teleport);
        if w3.ents[MID as int].pos is None {
            assert(!a2.awaiting_teleport);
            if a.monster_world != w1.current_world {
                if w1.current_world == home() {
                    assert(false);
                } else if w1.ents[MID as int].pos is Some {
                    assert(!w1.ents[MID as int].tags.contains(aggro_tag()));
                    assert(a3.monster_world == home());
                } else {
                    assert(w.ents[MID as int].pos is None);
                    assert(!(a.monster_world == home() && w.current_world == home()));
                    assert(a.monster_world == home() && !w.ents[MID as int].tags.contains(
                        aggro_tag()));
                    assert(a3.monster_world == home());
                }
            } else {
                assert(w1.ents[MID as int].pos is None);
                assert(w.ents[MID as int].pos is None);
                assert(a.monster_world == home() && !w.ents[MID as int].tags.contains(
                    aggro_tag()));
                assert(a3.monster_world == home());
            }
        }
        if w3.current_world == a3.monster_world && w3.ents[MID as int].pos is None {
            assert(a3.monster_world == home());
            assert(w.current_world == home());
            assert(a.monster_world != home() ==> w1.current_world == home());
            assert(false);
        }
    }
}

/// The nearest-waypoint scan never leaves the path's index range.
pub proof fn lemma_nearest_bounds(path: Seq<(int, int, int)>, pos: (int, int), k: int, best: int)
    requires
        0 <= best < path.len(),
    ensures
        0 <= nearest_from(path, pos, k, best) < path.len(),
    decreases path.len() - k,
{
    if k < 0 || k >= path.len() {
    } else {
        let b2 = if d2((path[k].0, path[k].1), pos) < d2((path[best].0, path[best].1), pos) {
            k
        } else {
            best
        };
        lemma_nearest_bounds(path, pos, k + 1, b2);
    }
}

/// Properties of the fourth phase: the player, the monster's placement and
/// physics frame, the controller's path and positions are untouched, and an
/// aggro tag afterwards means the monster is placed.
pub proof fn lemma_phase4_props(a: AiM, w: WorldM, now: int)
    requires
        ai_wf(a),
        w.ents.len() >= 2,
        !(w.ents[MID as int].tags.contains(idle_tag()) && w.ents[MID as int].tags.contains(
            aggro_tag())),
        w.ents[MID as int].pos is None ==> a.monster_world == home() && !w.ents[
            MID as int].tags.contains(aggro_tag()),
        w.current_world == a.monster_world ==> w.ents[MID as int].pos is Some,
    ensures
        ({
            let s4 = ai_phase4(a, w, now);
            let a4 = s4.0;
            let w4 = s4.1;
            &&& w4.ents.len() == w.ents.len()
            &&& w4.ents[PID as int] == w.ents[PID as int]
            &&& w4.ents[MID as int].phys == w.ents[MID as int].phys
            &&& w4.ents[MID as int].flip == w.ents[MID as int].flip
            &&& w4.ents[MID as int].pos == w.ents[MID as int].pos
            &&& w4.current_world == w.current_world
            &&& a4.idle_path == a.idle_path
            &&& a4.next_idle == a.next_idle
            &&& a4.monster_world == a.monster_world
            &&& a4.awaiting_teleport == a.awaiting_teleport
            &&& a4.teleport_location == a.teleport_location
            &&& a4.monster_lake_pos == a.monster_lake_pos
            &&& a4.last_idle_time == a.last_idle_time
            &&& a4.last_pathfind == a.last_pathfind
            &&& a4.teleport_timer == a.teleport_timer
            &&& (a4.last_aggro == a.last_aggro || a4.last_aggro == now)
            &&& ai_wf(a4)
            &&& !(w4.ents[MID as int].tags.contains(idle_tag()) && w4.ents[
                MID as int].tags.contains(aggro_tag()))
            &&& (w4.ents[MID as int].tags.contains(aggro_tag()) ==> w4.ents[MID as int].pos
                is Some)
            &&& (w4.ents[MID as int].tags.contains(idle_tag()) ==> w.ents[
                MID as int].tags.contains(idle_tag()))
            &&& (w4.ents[MID as int].pos is None ==> a4.monster_world == home() && !w4.ents[
                MID as int].tags.contains(aggro_tag()))
        }),
{
    lemma_ai_tags_distinct();
}

/// Properties of the fifth phase: afterwards the controller and the world
/// are coupled again and the controller stays well formed.
pub proof fn lemma_phase5_props(a: AiM, w: WorldM, now: int)
    requires
        ai_wf(a),
        !a.awaiting_teleport,
        w.ents.len() >= 2,
        w.ents[PID as int].pos is Some,
        w.ents[PID as int].phys is Some,
        -(COORD_LIMIT as int) <= w.ents[PID as int].pos->Some_0.0 <= COORD_LIMIT as int,
        -(COORD_LIMIT as int) <= w.ents[PID as int].pos->Some_0.1 <= COORD_LIMIT as int,
        w.ents[MID as int].phys is Some,
        w.ents[MID as int].flip is Some,
        mid_pos_ok(w),
        !(w.ents[MID as int].tags.contains(idle_tag()) && w.ents[MID as int].tags.contains(
            aggro_tag())),
        w.ents[MID as int].pos is None ==> a.monster_world == home() && !w.ents[
            MID as int].tags.contains(aggro_tag()),
        w.ents[MID as int].tags.contains(aggro_tag()) ==> w.ents[MID as int].pos is Some,
        now >= a.last_aggro,
        now >= a.last_idle_time,
        now >= a.last_pathfind,
        now >= a.teleport_timer,
    ensures
        ({
            let s5 = ai_phase5(a, w, now);
            let a5 = s5.0;
            let w5 = s5.1;
            &&& ai_wf(a5)
            &&& coupled(a5, w5)
            &&& a5.last_aggro <= now
            &&& a5.last_idle_time <= now
            &&& a5.last_pathfind <= now
            &&& a5.teleport_timer <= now
        }),
{
    lemma_ai_tags_distinct();
}

/// A third entity whose footprint meets the segment between the monster's
/// and the player's footprint centers forces visibility off; with no entity
/// blocking the segment, visibility holds.
pub proof fn lemma_blocker_breaks_sight(w: WorldM, k: int)
    requires
        2 <= k < w.ents.len(),
        participates(w.ents[k]),
        blocks_los(w, k),
    ensures
        !visible_m(w),
{
}

/// While patrolling at home with no aggro trigger, a tick advances the idle
/// waypoint index exactly when the monster has arrived within the waypoint
/// radius, and then cyclically by one — the patrol index walks forward
/// modulo the path length and never moves otherwise.
pub proof fn lemma_idle_loop_advances(a: AiM, w: WorldM, now: int)
    requires
        ai_wf(a),
        coupled(a, w),
        !a.awaiting_teleport,
        a.monster_world == home(),
        w.current_world == home(),
        w.ents[MID as int].pos is Some,
        w.ents[MID as int].tags.contains(idle_tag()),
        !(visible_m(w) && dist_m(w, w.ents[PID as int].pos->Some_0.0, w.ents[
            PID as int].pos->Some_0.1) < a.aggro_distance),
        now >= a.last_idle_time,
    ensures
        ({
            let p = a.idle_path[a.next_idle];
            let a5 = ai_step(a, w, now).0;
            &&& (dist_m(w, p.0, p.1) < ARRIVE_RADIUS as int ==> a5.next_idle == (a.next_idle + 1)
                % a.idle_path.len() as int && a5.last_idle_time == now)
            &&& (dist_m(w, p.0, p.1) >= ARRIVE_RADIUS as int ==> a5.next_idle == a.next_idle)
            &&& a5.idle_path == a.idle_path
        }),
{
    lemma_ai_tags_distinct();
    assert(ai_phase1(a, w) == w);
    assert(ai_phase2(a, w, now) == (a, w));
    assert(ai_phase3(a, w, now) == (a, w, false));
    assert(ai_phase4(a, w, now) == (a, w));
}

/// A monster that sees the player within the aggro distance in its own
/// loaded scene ends the tick aggroed: pursuing, not idle, not lost.
pub proof fn lemma_aggro_on_sight(a: AiM, w: WorldM, now: int)
    requires
        ai_wf(a),
        coupled(a, w),
        !a.awaiting_teleport,
        w.current_world == a.monster_world,
        w.ents[MID as int].pos is Some,
        visible_m(w),
        dist_m(w, w.ents[PID as int].pos->Some_0.0, w.ents[PID as int].pos->Some_0.1)
            < a.aggro_distance,
    ensures
        ({
            let w5 = ai_step(a, w, now).1;
            &&& w5.ents[MID as int].tags.contains(aggro_tag())
            &&& !w5.ents[MID as int].tags.contains(idle_tag())
            &&& !w5.ents[MID as int].tags.contains(lost_tag())
        }),
{
    lemma_ai_tags_distinct();
    assert(ai_phase1(a, w) == w);
    assert(ai_phase2(a, w, now) == (a, w));
    assert(ai_phase3(a, w, now) == (a, w, false));
}

/// An aggroed monster that can no longer see the player ends the tick lost
/// and halted, with the time of the loss recorded; it returns to idle only
/// after the lost delay has strictly passed, and not before.
pub proof fn lemma_aggro_to_lost(a: AiM, w: WorldM, now: int)
    requires
        ai_wf(a),
        coupled(a, w),
        !a.awaiting_teleport,
        w.current_world == a.monster_world,
        w.ents[MID as int].pos is Some,
        !visible_m(w),
        w.ents[MID as int].tags.contains(aggro_tag()),
        a.lost_delay >= 0,
    ensures
        ({
            let s5 = ai_step(a, w, now);
            &&& s5.0.last_aggro == now
            &&& s5.1.ents[MID as int].tags.contains(lost_tag())
            &&& !s5.1.ents[MID as int].tags.contains(aggro_tag())
            &&& !s5.1.ents[MID as int].tags.contains(idle_tag())
            &&& s5.1.ents[MID as int].phys->Some_0.vel == (0int, 0int)
        }),
{
    lemma_ai_tags_distinct();
    assert(ai_phase1(a, w) == w);
    assert(ai_phase2(a, w, now) == (a, w));
    assert(ai_phase3(a, w, now) == (a, w, false));
    assert(!w.ents[MID as int].tags.contains(idle_tag()));
}

/// A lost monster keeps searching while the lost delay has not strictly
/// passed, and becomes idle — replanning the waypoint nearest its tracked
/// position — on the first tick after it has.
pub proof fn lemma_lost_timing(a: AiM, w: WorldM, now: int)
    requires
        ai_wf(a),
        coupled(a, w),
        !a.awaiting_teleport,
        w.ents[MID as int].tags.contains(lost_tag()),
        !w.ents[MID as int].tags.contains(idle_tag()),
        !w.ents[MID as int].tags.contains(aggro_tag()),
        w.current_world == a.monster_world,
        w.ents[MID as int].pos is Some,
        !(visible_m(w) && dist_m(w, w.ents[PID as int].pos->Some_0.0, w.ents[
            PID as int].pos->Some_0.1) < a.aggro_distance),
    ensures
        ({
            let s5 = ai_step(a, w, now);
            &&& (now - a.last_aggro <= a.lost_delay ==> s5.1.ents[MID as int].tags.contains(
                lost_tag()) && !s5.1.ents[MID as int].tags.contains(idle_tag())
                && s5.0.next_idle == a.next_idle)
            &&& (now - a.last_aggro > a.lost_delay ==> s5.1.ents[MID as int].tags.contains(
                idle_tag()) && !s5.1.ents[MID as int].tags.contains(lost_tag())
                && s5.0.next_idle == (nearest_idle(a.idle_path, a.monster_lake_pos) + 1)
                % a.idle_path.len() as int && s5.0.last_idle_time == now)
        }),
{
    lemma_ai_tags_distinct();
    assert(ai_phase1(a, w) == w);
    assert(ai_phase2(a, w, now) == (a, w));
    assert(ai_phase3(a, w, now) == (a, w, false));
    assert(ai_phase4(a, w, now) == (a, w));
}

/// The behaviour tags and the home-scene name are pairwise distinct strings.
pub proof fn lemma_ai_tags_distinct()
    ensures
        aggro_tag() != idle_tag(),
        aggro_tag() != lost_tag(),
        aggro_tag() != walking_tag(),
        idle_tag() != lost_tag(),
        idle_tag() != walking_tag(),
        lost_tag() != walking_tag(),
{
    reveal_strlit("aggro");
    reveal_strlit("idle");
    reveal_strlit("lost");
    reveal_strlit("walking");
    assert(aggro_tag().len() == 5);
    assert(idle_tag().len() == 4);
    assert(lost_tag().len() == 4);
    assert(walking_tag().len() == 7);
    assert(idle_tag()[0] == 'i' && lost_tag()[0] == 'l');
}

} // verus!
