//! Form state of the desktop front end.
pub mod recipe_browser;
pub mod recipe_editor;
