//! FlareDB runs batch and streaming pipelines written against the Beam model.
//!
//! This crate is the part of the runner that decides and computes: the wire
//! coders, the stage fusion, the table layout of materialized collections, the
//! scheduling of fused stages and the bookkeeping of a job.
use vstd::prelude::*;

pub mod coders;
pub mod copies;
pub mod engine;
pub mod environment;
pub mod fusion;
pub mod io;
pub mod jobservice;
pub mod model;
pub mod named;
pub mod shared;
pub mod state;
pub mod store;
pub mod text;
pub mod transforms;
pub mod utils;
pub mod worker;

verus! {

/// The address on which a local instance serves its API.
pub const DEFAULT_API_SERVICE_URL: &'static str = "127.0.0.1:8099";

} // verus!
