//! The production-chain engine: recipe selection, the shape of a solved
//! chain, balance-sheet ordering and bookings, and gap-analysis choices.
pub mod solver;
pub mod plan;
pub mod balance;
pub mod gap;
