//! IMAP backend.
pub mod convert;
pub mod envelope_diff;
pub mod envelope_list;
pub mod envelope_search;
pub mod fetch;
pub mod flag_add;
pub mod flag_delete;
pub mod flag_set;
pub mod flag_store;
pub mod mailbox_create;
pub mod mailbox_delete;
pub mod mailbox_list;
pub mod message_add;
pub mod message_copy;
pub mod message_delete;
pub mod message_get;
pub mod message_move;
pub mod search_key;
pub mod watch;
pub mod watch_mailbox;
pub mod wire;
