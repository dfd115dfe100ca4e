//! Maildir backend.
pub mod flag_store;
pub mod wire;
