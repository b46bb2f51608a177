//! Posts: toolpaths turned into programs for a controller.
pub mod grammar;
pub mod acceptance;
pub mod grbl;
