//! Running the stages of a pipeline.
pub mod building;
pub mod digraph;
pub mod dispatcher;
pub mod executor;
pub mod graph;
pub mod harness;
pub mod laws;
pub mod output;
pub mod runtime;
pub mod scheduler;
pub mod sdf;
