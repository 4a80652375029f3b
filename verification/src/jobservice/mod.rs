//! Jobs and what they are made from.
pub mod artifact;
pub mod job;
pub mod laws;
pub mod server;
pub mod urns;
