//! The command line as data: which command was asked for, and with what.
pub mod commands;
