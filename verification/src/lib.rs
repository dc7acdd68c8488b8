//! A verified 2-D gravity engine: Barnes-Hut quadtree force approximation,
//! kick-drift-kick (leapfrog) integration, a uniform spatial-hash broad phase,
//! and two collision-resolution policies (absorb, elastic).
//!
//! All physical quantities are signed 64-bit fixed-point numbers with scale
//! `SCALE` (two's-power, 2^16): a stored value `v` stands for the real number
//! `v / SCALE`. Masses, positions, velocities, accelerations, timesteps and
//! tunables all use the same scale. Wide (128-bit) intermediates keep every
//! computation exact up to the single final truncating division of each
//! formula, and every public contract states the result as that exact
//! integer expression.

pub mod fx;
pub mod vec2;
pub mod body;
pub mod quadtree;
pub mod settings;
pub mod hash;
pub mod collide;
pub mod world;
