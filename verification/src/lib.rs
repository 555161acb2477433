//! Simulation core of a single-screen arcade shooter.
//!
//! The world (player, bullets, enemies, falling power-ups) lives entirely in
//! memory and is advanced one discrete time step at a time.  All coordinates
//! are integers in thousandths of a pixel and all durations are integers in
//! milliseconds, so every speed constant in pixels per second is numerically
//! the same in milli-pixels per millisecond and one tick of motion is exact
//! integer arithmetic.

pub mod game;
pub mod laws;
pub mod model;
