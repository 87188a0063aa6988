//! A two-paddle ball deflection game played by a large population of balls.
//!
//! Positions and velocities are fixed-point integers (thousandths of a pixel,
//! per tick), time is counted in microseconds. `world::World::tick` runs one
//! fixed step: paddle controllers, motion, the paddle clamp, wall and paddle
//! collisions with goal detection, scoring, removal of scored balls, and the
//! repopulate / launch cycle.

pub mod collision;
pub mod controls;
pub mod geometry;
pub mod laws;
mod random;
pub mod timer;
pub mod world;
