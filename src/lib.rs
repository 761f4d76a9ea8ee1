//! Simulation core of a top-down vertical shooter: entities advanced frame by
//! frame, shooting and collisions between the two sides, the score, and the
//! title / play / game-over cycle.
//!
//! All quantities are integers: positions in micro-pixels, times in
//! microseconds, speeds in micro-pixels per second.

pub mod combat;
pub mod cooldown;
pub mod entity;
pub mod geometry;
pub mod movement;
pub mod score;
pub mod spawn;
pub mod world;
