//! Per-tick tactical decision engine for a squad of units in a top-down
//! last-team-standing arena game.
//!
//! All spatial quantities are fixed-point integers: positions and distances
//! are in milli-units, angles in milli-radians, health in milli-points.
//! The engine is deterministic: one snapshot in, one order per unit out.

pub mod geom;
pub mod model;
pub mod util;
pub mod fight_sim;
pub mod world;
pub mod scoring;
pub mod loot;
pub mod behaviour;
pub mod strategy;
