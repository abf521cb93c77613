//! Core logic of a brick-breaker dungeon crawler: an elastic collision
//! resolver with a Magnus-effect spin model, a weighted depth-gated room
//! selector, and the room-transition state machines that sequence dungeon
//! progression.
//!
//! All tunable gameplay quantities (velocities, forces, coefficients)
//! are held in fixed-point milli-units: an `i64` value of `1000` stands
//! for `1.0`.

pub mod collections;
pub mod collision;
pub mod fixed;
pub mod inventory;
pub mod items;
pub mod room;
pub mod transition;
