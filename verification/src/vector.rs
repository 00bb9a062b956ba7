//! Velocity/displacement vectors.
//!
//! A vector is stored by its exact cartesian components in world units, so
//! the axis-separated collision handling and the per-tick displacement are
//! pure integer arithmetic. Component arithmetic saturates at the coordinate
//! range bound (`num::COORD_LIMIT`), which keeps every operation total.

use vstd::prelude::*;
use crate::num::{cadd, csub, clamp_wide, mul_i64_wide, scale_ms, clamped, scaled_ms};

verus! {

/// Vector with x and y components, mainly used for velocity
/// (world units per second).
#[derive(Clone, Copy, Debug, PartialEq, Eq, Structural)]
pub struct Vector {
    /// Horizontal component of the vector.
    pub x: i64,
    /// Vertical component of the vector.
    pub y: i64,
}

impl View for Vector {
    type V = (int, int);

    open spec fn view(&self) -> (int, int) {
        (self.x as int, self.y as int)
    }
}

impl Vector {
    /// Create a new vector from its components.
    pub fn new(x: i64, y: i64) -> (v: Vector)
        ensures
            v == (Vector { x, y }),
    {
        Vector { x, y }
    }

    /// Create a new zero vector.
    pub fn zero() -> (v: Vector)
        ensures
            v == (Vector { x: 0i64, y: 0i64 }),
    {
        Vector { x: 0, y: 0 }
    }

    /// Create a new vector from x and y components.
    pub fn from_components(x: i64, y: i64) -> (v: Vector)
        ensures
            v == (Vector { x, y }),
    {
        Vector { x, y }
    }

    /// Get the x component of the vector.
    pub fn x(&self) -> (r: i64)
        ensures
            r == self.x,
    {
        self.x
    }

    /// Get the y component of the vector.
    pub fn y(&self) -> (r: i64)
        ensures
            r == self.y,
    {
        self.y
    }

    /// Componentwise sum, clamped into the coordinate range.
    pub fn plus(self, rhs: Vector) -> (r: Vector)
        ensures
            r.x == clamped(self.x + rhs.x),
            r.y == clamped(self.y + rhs.y),
    {
        Vector { x: cadd(self.x, rhs.x), y: cadd(self.y, rhs.y) }
    }

    /// Componentwise difference, clamped into the coordinate range.
    pub fn minus(self, rhs: Vector) -> (r: Vector)
        ensures
            r.x == clamped(self.x - rhs.x),
            r.y == clamped(self.y - rhs.y),
    {
        Vector { x: csub(self.x, rhs.x), y: csub(self.y, rhs.y) }
    }

    /// The opposite vector, clamped into the coordinate range.
    pub fn negated(self) -> (r: Vector)
        ensures
            r.x == clamped(-self.x),
            r.y == clamped(-self.y),
    {
        Vector { x: csub(0, self.x), y: csub(0, self.y) }
    }

    /// Componentwise scaling by an integer factor, clamped.
    pub fn times(self, k: i64) -> (r: Vector)
        ensures
            r.x == clamped(self.x * k),
            r.y == clamped(self.y * k),
    {
        Vector { x: clamp_wide(mul_i64_wide(self.x, k)), y: clamp_wide(mul_i64_wide(self.y, k)) }
    }

    /// The displacement this velocity produces over `dt_ms` milliseconds:
    /// each component scaled by `dt_ms / 1000`, rounded toward zero.
    pub fn scaled_by_ms(self, dt_ms: u64) -> (r: Vector)
        ensures
            r.x == scaled_ms(self.x as int, dt_ms as int),
            r.y == scaled_ms(self.y as int, dt_ms as int),
    {
        Vector { x: scale_ms(self.x, dt_ms), y: scale_ms(self.y, dt_ms) }
    }
}

} // verus!
