//! Runtime simulation core of a 2-D tile-style game.
//!
//! The crate owns the mutable state of every entity in a scene and advances
//! that state once per frame: an entity-component world store, a
//! physics/collision-resolution system, a line-of-sight driven AI behaviour
//! controller, and a standalone grid pathfinder.
//!
//! All spatial quantities are exact integers: positions and vector components
//! are `i64` world units, rectangle extents are `u32`, and time is carried as
//! milliseconds (`u64`) handed in by the caller, so every tick is a pure,
//! deterministic function of the previous state and the clock value.

pub mod num;
pub mod vector;
pub mod geometry;
pub mod tags;
pub mod model;
pub mod graphics;
pub mod effect;
pub mod dialog;
pub mod actions;
pub mod state;
pub mod world;
pub mod physics;
pub mod animation;
pub mod ai;
pub mod tree;
pub mod priority_queue;
pub mod pathfinding;
