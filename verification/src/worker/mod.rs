//! Workers: the processes that run user code.
pub mod manager;
