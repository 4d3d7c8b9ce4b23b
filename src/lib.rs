//! A Game-of-Life variant on a bounded, non-wrapping grid whose live cells
//! carry a faction tag, with a small registry of per-faction rules.

pub mod cell;
pub mod grid;
pub mod proofs;
pub mod race;
