//! Axis-aligned rectangles, world positions, and the segment intersection
//! test that line-of-sight checks rely on.
//!
//! Coordinates are exact `i64` world units; stored coordinates are clamped
//! into `[-COORD_LIMIT, COORD_LIMIT]` so every operation is total. Predicate
//! arithmetic is carried out in `i128`, wide enough that no intermediate
//! value can overflow.

use vstd::prelude::*;
use crate::num::{cadd, clamp_wide, clamped, COORD_LIMIT};
use crate::vector::Vector;
use crate::model::RectM;

verus! {

/// Rectangle which exists inside the game world.
#[derive(Debug, Copy, Clone, PartialEq, Eq, Structural)]
pub struct Rect {
    pub x: i64,
    pub y: i64,
    pub w: u32,
    pub h: u32,
}

impl View for Rect {
    type V = RectM;

    open spec fn view(&self) -> RectM {
        RectM { x: self.x as int, y: self.y as int, w: self.w as int, h: self.h as int }
    }
}

/// Whether two closed-left, open-right rectangles overlap: they are apart
/// exactly when one lies fully to the left of, or fully above, the other.
pub open spec fn rects_overlap(a: Rect, b: Rect) -> bool {
    &&& !(a.x + a.w <= b.x || b.x + b.w <= a.x)
    &&& !(a.y >= b.y + b.h || b.y >= a.y + a.h)
}

/// Whether the closed segment from `(ax, ay)` to `(bx, by)` meets the closed
/// rectangle `[l, r] x [t, b]`: the bounding boxes must overlap and the four
/// rectangle corners must not lie strictly on one side of the segment's
/// carrier line (a separating-axis test, exact over the integers).
pub open spec fn seg_hits_rect(ax: int, ay: int, bx: int, by: int, l: int, t: int, r: int, b: int) -> bool {
    let d1 = (bx - ax) * (t - ay) - (by - ay) * (l - ax);
    let d2 = (bx - ax) * (t - ay) - (by - ay) * (r - ax);
    let d3 = (bx - ax) * (b - ay) - (by - ay) * (r - ax);
    let d4 = (bx - ax) * (b - ay) - (by - ay) * (l - ax);
    &&& (if ax >= bx { ax } else { bx }) >= l
    &&& (if ax <= bx { ax } else { bx }) <= r
    &&& (if ay >= by { ay } else { by }) >= t
    &&& (if ay <= by { ay } else { by }) <= b
    &&& !(d1 > 0 && d2 > 0 && d3 > 0 && d4 > 0)
    &&& !(d1 < 0 && d2 < 0 && d3 < 0 && d4 < 0)
}

/// Executable separating-axis test for a segment against a rectangle, all
/// eight bounds given directly. The magnitude bound keeps every intermediate
/// product inside `i128`.
pub fn seg_hits_rect_exec(ax: i64, ay: i64, bx: i64, by: i64, l: i64, t: i64, r: i64, b: i64) -> (res:
    bool)
    requires
        -4 * COORD_LIMIT <= ax <= 4 * COORD_LIMIT,
        -4 * COORD_LIMIT <= ay <= 4 * COORD_LIMIT,
        -4 * COORD_LIMIT <= bx <= 4 * COORD_LIMIT,
        -4 * COORD_LIMIT <= by <= 4 * COORD_LIMIT,
        -4 * COORD_LIMIT <= l <= 4 * COORD_LIMIT,
        -4 * COORD_LIMIT <= t <= 4 * COORD_LIMIT,
        -4 * COORD_LIMIT <= r <= 4 * COORD_LIMIT,
        -4 * COORD_LIMIT <= b <= 4 * COORD_LIMIT,
    ensures
        res == seg_hits_rect(ax as int, ay as int, bx as int, by as int, l as int, t as int,
            r as int, b as int),
{
    let dx: i128 = bx as i128 - ax as i128;
    let dy: i128 = by as i128 - ay as i128;
    proof {
        lemma_seg_products_bounded(dx as int, dy as int, ax as int, ay as int, l as int, t as int,
            r as int, b as int);
    }
    let d1: i128 = dx * (t as i128 - ay as i128) - dy * (l as i128 - ax as i128);
    let d2: i128 = dx * (t as i128 - ay as i128) - dy * (r as i128 - ax as i128);
    let d3: i128 = dx * (b as i128 - ay as i128) - dy * (r as i128 - ax as i128);
    let d4: i128 = dx * (b as i128 - ay as i128) - dy * (l as i128 - ax as i128);
    let maxx: i64 = if ax >= bx { ax } else { bx };
    let minx: i64 = if ax <= bx { ax } else { bx };
    let maxy: i64 = if ay >= by { ay } else { by };
    let miny: i64 = if ay <= by { ay } else { by };
    maxx >= l && minx <= r && maxy >= t && miny <= b && !(d1 > 0 && d2 > 0 && d3 > 0 && d4 > 0) && !(
    d1 < 0 && d2 < 0 && d3 < 0 && d4 < 0)
}

/// Bounds for the cross products of the separating-axis test: with every
/// coordinate within `4 * COORD_LIMIT`, each product of a difference pair
/// stays far inside the `i128` range.
proof fn lemma_seg_products_bounded(dx: int, dy: int, ax: int, ay: int, l: int, t: int, r: int, b: int)
    requires
        -8 * COORD_LIMIT <= dx <= 8 * COORD_LIMIT,
        -8 * COORD_LIMIT <= dy <= 8 * COORD_LIMIT,
        -4 * COORD_LIMIT <= ax <= 4 * COORD_LIMIT,
        -4 * COORD_LIMIT <= ay <= 4 * COORD_LIMIT,
        -4 * COORD_LIMIT <= l <= 4 * COORD_LIMIT,
        -4 * COORD_LIMIT <= t <= 4 * COORD_LIMIT,
        -4 * COORD_LIMIT <= r <= 4 * COORD_LIMIT,
        -4 * COORD_LIMIT <= b <= 4 * COORD_LIMIT,
    ensures
        forall|u: int, v: int|
            (-8 * COORD_LIMIT <= u <= 8 * COORD_LIMIT && -8 * COORD_LIMIT <= v <= 8 * COORD_LIMIT)
                ==> -316912650057057350374175801344 <= #[trigger] (u * v)
                <= 316912650057057350374175801344,
{
    assert forall|u: int, v: int|
        (-8 * COORD_LIMIT <= u <= 8 * COORD_LIMIT && -8 * COORD_LIMIT
            <= v <= 8 * COORD_LIMIT) implies -316912650057057350374175801344 <= #[trigger] (
    u * v) <= 316912650057057350374175801344 by {
        assert(-316912650057057350374175801344 <= u * v
            <= 316912650057057350374175801344) by (nonlinear_arith)
            requires
                -562949953421312 <= u <= 562949953421312,
                -562949953421312 <= v <= 562949953421312,
        ;
    }
}

impl Rect {
    /// Create a new rectangle.
    pub fn new(x: i64, y: i64, w: u32, h: u32) -> (r: Rect)
        ensures
            r == (Rect { x, y, w, h }),
    {
        Rect { x, y, w, h }
    }

    /// Check if this rectangle intersects in any way with another rectangle.
    pub fn has_intersection(&self, other: Rect) -> (r: bool)
        ensures
            r == rects_overlap(*self, other),
    {
        let left: i128 = self.x as i128;
        let right: i128 = self.x as i128 + self.w as i128;
        let top: i128 = self.y as i128;
        let bottom: i128 = self.y as i128 + self.h as i128;

        let o_left: i128 = other.x as i128;
        let o_right: i128 = other.x as i128 + other.w as i128;
        let o_top: i128 = other.y as i128;
        let o_bottom: i128 = other.y as i128 + other.h as i128;

        if right <= o_left || o_right <= left {
            return false;
        }
        if top >= o_bottom || o_top >= bottom {
            return false;
        }
        true
    }

    /// Check whether the closed segment between two points meets this
    /// rectangle; used as the opacity test for line-of-sight.
    pub fn intersects_line(&self, ax: i64, ay: i64, bx: i64, by: i64) -> (r: bool)
        requires
            -COORD_LIMIT <= self.x <= COORD_LIMIT,
            -COORD_LIMIT <= self.y <= COORD_LIMIT,
            -4 * COORD_LIMIT <= ax <= 4 * COORD_LIMIT,
            -4 * COORD_LIMIT <= ay <= 4 * COORD_LIMIT,
            -4 * COORD_LIMIT <= bx <= 4 * COORD_LIMIT,
            -4 * COORD_LIMIT <= by <= 4 * COORD_LIMIT,
        ensures
            r == seg_hits_rect(ax as int, ay as int, bx as int, by as int, self.x as int,
                self.y as int, self.x + self.w, self.y + self.h),
    {
        let right: i64 = self.x + self.w as i64;
        let bottom: i64 = self.y + self.h as i64;
        seg_hits_rect_exec(ax, ay, bx, by, self.x, self.y, right, bottom)
    }

    /// Apply a vector to this rectangle.
    pub fn apply_vector(&mut self, v: Vector)
        ensures
            final(self).x == clamped(old(self).x + v.x),
            final(self).y == clamped(old(self).y + v.y),
            final(self).w == old(self).w,
            final(self).h == old(self).h,
    {
        self.x = cadd(self.x, v.x);
        self.y = cadd(self.y, v.y);
    }

    /// Create a new rectangle that has the offset of a position component.
    pub fn after_position(self, pos: &PositionComponent) -> (r: Rect)
        ensures
            r.x == clamped(self.x + pos.x),
            r.y == clamped(self.y + pos.y),
            r.w == self.w,
            r.h == self.h,
    {
        Rect { x: cadd(self.x, pos.x), y: cadd(self.y, pos.y), w: self.w, h: self.h }
    }

    /// Create a new rectangle which substitutes depth for the height: the
    /// result is the bottom `d` units of the rectangle, its top edge shifted
    /// down by the height difference.
    pub fn after_depth(self, d: u32) -> (r: Rect)
        ensures
            r.y == clamped(self.y + self.h - d),
            r.h == d,
            r.x == self.x,
            r.w == self.w,
    {
        let shifted: i64 = clamp_wide(self.y as i128 + self.h as i128 - d as i128);
        Rect { x: self.x, y: shifted, w: self.w, h: d }
    }
}

/// Component for a position in the game world.
#[derive(Debug, Clone, Copy, PartialEq, Eq, Structural)]
pub struct PositionComponent {
    pub x: i64,
    pub y: i64,
}

impl View for PositionComponent {
    type V = (int, int);

    open spec fn view(&self) -> (int, int) {
        (self.x as int, self.y as int)
    }
}

impl PositionComponent {
    /// Create a new position component.
    pub fn new(x: i64, y: i64) -> (p: PositionComponent)
        ensures
            p == (PositionComponent { x, y }),
    {
        PositionComponent { x, y }
    }

    /// Apply a vector to this position component.
    pub fn apply_vector(&mut self, vec: Vector)
        ensures
            final(self).x == clamped(old(self).x + vec.x),
            final(self).y == clamped(old(self).y + vec.y),
    {
        self.x = cadd(self.x, vec.x);
        self.y = cadd(self.y, vec.y);
    }
}

} // verus!
