//! Turning user-supplied target strings into clone coordinates.
pub mod target_parser;
