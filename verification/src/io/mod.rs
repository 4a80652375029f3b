//! Tables served to the outside.
pub mod laws;
pub mod server;
