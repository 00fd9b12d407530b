//! The interactive command line: command parsing and display helpers.
pub mod commands;
pub mod display;
