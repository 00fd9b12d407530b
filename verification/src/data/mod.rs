//! The recipe-calculator data model.
pub mod models;
