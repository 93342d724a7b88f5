//! A verified core for a bouncing-balls simulation.
//!
//! Particles move inside an axis-aligned rectangle, reflect off its edges,
//! drift their color channels as triangle waves, and collide elastically in
//! pairs.  All quantities are fixed-point integers: one world unit is
//! `SCALE` fixed-point steps, so the default ball radius of 20 world units
//! is stored as `20 * SCALE`.

use vstd::prelude::*;

pub mod color;
pub mod geometry;
pub mod math;
pub mod particle;
pub mod simulation;

verus! {

/// Fixed-point scale: number of stored steps per world unit.
pub const SCALE: i64 = 1000;

/// Largest magnitude a position or velocity component may have when a
/// single collision is resolved; leaves room in `i64` for the velocity
/// exchange, which can grow a component by at most a factor of five.
pub const MAX_COORD: i64 = 1_152_921_504_606_846_976;

/// Largest particle radius the collision arithmetic admits.
pub const MAX_RADIUS: i64 = 1_000_000_000;

/// Default number of particles in a scene.
pub const BALL_COUNT: usize = 5;

/// Default speed imparted at spawn, in fixed-point units per tick.
pub const BALL_SPEED: i64 = 3 * SCALE;

/// Default particle radius, in fixed-point units.
pub const DEFAULT_RADIUS: i64 = 20 * SCALE;

/// Default drift speed of each color channel, in fixed-point units per tick.
pub const DEFAULT_COLOR_SPEED: i64 = 5;

} // verus!
