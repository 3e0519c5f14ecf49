//! Paths, space discovery and the registry of known spaces.
pub mod context;
pub mod paths;
pub mod registry;
