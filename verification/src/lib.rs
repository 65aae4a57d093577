//! A two-player, turn-based combat game engine.
//!
//! Players register, mint a collectible token with randomly rolled
//! attack/defense stats, create or join a named battle, and submit
//! simultaneous moves each round. The engine resolves damage, settles the
//! mana economy, detects victory, and resets state for the next round or
//! ends the battle.

pub mod types;
pub mod rng;
pub mod hashing;
pub mod combat;
pub mod engine;
pub mod decimal;
