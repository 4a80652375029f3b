//! Materialized collections.
use vstd::prelude::*;

pub mod batch;
pub mod columns;
pub mod element_store;
pub mod laws;
pub mod record;
pub mod table;

verus! {

/// The column that holds the keys of a keyed table.
pub const KEY_COLUMN: &'static str = "key";

/// The column that holds the values of a table.
pub const VALUE_COLUMN: &'static str = "value";

} // verus!
