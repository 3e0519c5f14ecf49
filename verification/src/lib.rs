//! Multi-repository workspace management over git worktrees: target parsing
//! and resolution, workspace manifests, the managed `.gitignore` block,
//! branch-set naming and teardown planning, view selection, the space
//! registry, and the decisions of the git layer.
pub mod order;
pub mod text;
pub mod models;
pub mod engine;
pub mod utils;
pub mod ops;
pub mod git;
pub mod cli;
