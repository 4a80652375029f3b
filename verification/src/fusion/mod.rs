//! From a pipeline to the stages that run it.
pub mod consistent;
pub mod dedup;
pub mod endings;
pub mod expander;
pub mod expansion_laws;
pub mod fuser;
pub mod groups;
pub mod ids;
pub mod idset;
pub mod laws;
pub mod partials;
pub mod payload;
pub mod pipeline;
pub mod pipeline_fuser;
pub mod refs;
pub mod sanitize;
pub mod stage;
pub mod stage_fuser;
pub mod stage_laws;
