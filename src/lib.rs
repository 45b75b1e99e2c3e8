//! Movement resolution for a toroidal grid puzzle: push chains, trigger
//! moves that a prior move may invalidate, and an undo history grouped by
//! tick.

pub mod components;
pub mod constants;
pub mod proofs;
pub mod resources;
pub mod systems;
pub mod utils;
