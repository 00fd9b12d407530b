//! State behind the graphical front end: tabs, the island ledger, the data
//! browser's search and the balance table's styling.
pub mod balance;
pub mod data_browser;
pub mod state;
