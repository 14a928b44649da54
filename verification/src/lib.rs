//! A rules engine for one round of Koi-Koi, the Japanese Hanafuda
//! matching card game.
//!
//! The crate models the deterministic progression of a single round:
//! dealing, discard/draw matching, card collection, yaku (scoring
//! combination) detection, and the koi-koi continuation mechanic.
//! Shuffling is deliberately external: the caller hands `deal` an
//! ordered deck and the engine enforces the re-deal guard.

pub mod cards;
pub mod round;
mod seq_facts;
pub mod yaku;
