//! The data a space is made of: parsed targets, the global configuration,
//! the space manifest and the per-machine space state.
pub mod config;
pub mod manifest;
pub mod state;
pub mod target;
