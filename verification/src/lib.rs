//! Production-chain planning for Captain of Industry: the verified core.
//!
//! The library decides the structure of every plan (which recipe, building
//! and balance entry, in which order, or which error) and leaves the rates
//! per minute to its caller.
pub mod i18n;
pub mod text;
pub mod error;
pub mod model;
pub mod engine;
pub mod calculator;
pub mod cli;
pub mod data;
pub mod gui;
pub mod ui;
