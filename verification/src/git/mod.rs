//! The rules the git layer follows: reference names, when a branch holds
//! work that would be lost, and how SSH identities are tried.
pub mod engine;
