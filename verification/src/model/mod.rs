//! The game's data model: identifiers, resources, buildings, edicts,
//! research, islands and balance-sheet metadata.
pub mod building;
pub mod difficulty;
pub mod edict;
pub mod ids;
pub mod island;
pub mod research;
pub mod resource;
pub mod results;
