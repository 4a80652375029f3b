//! What goes between the runner and its workers.
pub mod control;
pub mod data;
