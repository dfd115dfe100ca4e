//! Gmail backend.
pub mod convert;
pub mod envelope_list;
pub mod flag_store;
pub mod watch;
pub mod wire;
