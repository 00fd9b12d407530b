//! Production-chain calculations over the recipe data.
pub mod chain;
