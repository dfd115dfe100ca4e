//! m2dir backend.
pub mod convert;
pub mod envelope_search;
pub mod query;
pub mod wire;
