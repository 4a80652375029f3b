pub mod batch_laws;
pub mod batch_size_estimator;
pub mod errors;
pub mod laws;
pub mod path;
