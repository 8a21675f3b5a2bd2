//! Sequencing of blocks, attestations and ticks.

pub mod key_manager;
pub mod pending;
pub mod server;
pub mod ticks;
