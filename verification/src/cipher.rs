//! The threshold cipher: level fitting, key schedule and the engine.

pub mod blocks;
pub mod ctr_core;
pub mod engine;
pub mod key_scheme;
pub mod laws;
pub mod levels;
pub mod transform;
