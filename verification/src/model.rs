//! The mathematical model of the world.
//!
//! Every executable type of the store abstracts (via `View`) to one of the
//! ghost structures below, with exact integer fields. The physics and AI
//! systems' contracts are stated as pure functions over these models.

use vstd::prelude::*;
use crate::num::clamped;

verus! {

/// Model of a rectangle in the game world.
#[verifier::ext_equal]
pub ghost struct RectM {
    pub x: int,
    pub y: int,
    pub w: int,
    pub h: int,
}

/// Model of a physics component.
#[verifier::ext_equal]
pub ghost struct PhysM {
    /// The entity's actual physical depth.
    pub depth: int,
    /// Velocity components in world units per second.
    pub vel: (int, int),
    /// Whether this object is physical and thus stops other physical objects.
    pub physical: bool,
    /// Hitbox of the entity, relative to its position.
    pub hitbox: RectM,
}

/// Model of an area effect.
#[verifier::ext_equal]
pub ghost struct EffM {
    pub adds: Seq<Seq<char>>,
    pub removes: Seq<Seq<char>>,
    pub created: int,
    pub ttl: Option<int>,
    pub rect: RectM,
}

/// Model of a scripted action.
#[verifier::ext_equal]
pub ghost enum ActionM {
    AddState { state: Seq<char> },
    RemoveState { state: Seq<char> },
    AddEffect { effect: EffM },
    ShowDialog { dialog: Seq<char> },
}

/// Model of a delayed action sequence.
#[verifier::ext_equal]
pub ghost struct SequenceM {
    pub last_switch: int,
    pub steps: Seq<(int, ActionM)>,
    pub curr: int,
}

/// Model of a dialog.
#[verifier::ext_equal]
pub ghost struct DialogM {
    pub messages: Seq<Seq<char>>,
    pub curr: int,
    pub after: Option<SequenceM>,
}

/// Model of one entity: its tag set and its optional components.
#[verifier::ext_equal]
pub ghost struct EntM {
    pub tags: Set<Seq<char>>,
    pub pos: Option<(int, int)>,
    pub phys: Option<PhysM>,
    pub flip: Option<bool>,
    pub acts: Option<Seq<(Seq<Seq<char>>, SequenceM)>>,
}

/// Model of the whole world store.
#[verifier::ext_equal]
pub ghost struct WorldM {
    pub current_world: Seq<char>,
    pub ents: Seq<EntM>,
    pub effects: Seq<EffM>,
    pub dialogs: Seq<(Seq<char>, DialogM)>,
    pub curr_dialog: Option<Seq<char>>,
}

/// Model of the AI controller's state.
#[verifier::ext_equal]
pub ghost struct AiM {
    /// Clock value at which aggro was last lost.
    pub last_aggro: int,
    /// Cyclic idle waypoints: x, y, and the wait duration in milliseconds.
    pub idle_path: Seq<(int, int, int)>,
    /// Index of the next idle waypoint.
    pub next_idle: int,
    /// Clock value at which the idle waypoint last advanced.
    pub last_idle_time: int,
    /// Distance under which a visible player triggers pursuit.
    pub aggro_distance: int,
    /// How long after losing sight the monster keeps searching, in
    /// milliseconds.
    pub lost_delay: int,
    /// Clock value of the last pursuit replan.
    pub last_pathfind: int,
    /// Name of the scene the monster logically belongs to.
    pub monster_world: Seq<char>,
    /// Clock value at which a pending teleport was scheduled.
    pub teleport_timer: int,
    /// Whether a teleport to the player is pending.
    pub awaiting_teleport: bool,
    /// Where a pending teleport will place the monster.
    pub teleport_location: (int, int),
    /// The monster's real or simulated position in its home scene.
    pub monster_lake_pos: (int, int),
}

/// A rectangle translated by a position.
pub open spec fn rect_after_position(r: RectM, p: (int, int)) -> RectM {
    RectM { x: clamped(r.x + p.0), y: clamped(r.y + p.1), w: r.w, h: r.h }
}

/// A rectangle with depth substituted for its height: the bottom `d` units.
pub open spec fn rect_after_depth(r: RectM, d: int) -> RectM {
    RectM { x: r.x, y: clamped(r.y + r.h - d), w: r.w, h: d }
}

/// The footprint: the hitbox placed at the entity's position, then reduced
/// to its bottom `depth` units. This is the only rectangle collision and
/// visibility ever use.
pub open spec fn footprint_m(pos: (int, int), ph: PhysM) -> RectM {
    rect_after_depth(rect_after_position(ph.hitbox, pos), ph.depth)
}

/// Whether two rectangle models overlap.
pub open spec fn overlap_m(a: RectM, b: RectM) -> bool {
    &&& !(a.x + a.w <= b.x || b.x + b.w <= a.x)
    &&& !(a.y >= b.y + b.h || b.y >= a.y + a.h)
}

/// Whether an entity takes part in physics: it has both a position and a
/// physics component.
pub open spec fn participates(e: EntM) -> bool {
    e.pos is Some && e.phys is Some
}

/// The footprint of a participating entity.
pub open spec fn ent_footprint(e: EntM) -> RectM {
    footprint_m(e.pos->Some_0, e.phys->Some_0)
}

} // verus!
