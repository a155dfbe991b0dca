//! Simulation core of a top-down combat game: an entity/component registry,
//! collision and line-of-sight geometry, a grid-based pathfinding engine, and
//! the enemy perception/behaviour systems built on top of them.
//!
//! All continuous quantities use fixed-point integers: distances are held in
//! thousandths of a world unit, durations in microseconds.

pub mod collision;
pub mod components;
pub mod ecs;
pub mod game;
pub mod num;
pub mod pathfinding;
pub mod rng;
pub mod systems;
