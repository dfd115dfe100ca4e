//! Shared email domain: addresses, flags, envelopes, search queries, and
//! the coroutines that list, search, watch and change messages over IMAP,
//! JMAP, Gmail, Maildir and m2dir.
pub mod address;
pub mod client;
pub mod coroutine;
pub mod date;
pub mod envelope;
pub mod event;
pub mod flag;
pub mod gmail;
pub mod http;
pub mod imap;
pub mod jmap;
pub mod mailbox;
pub mod m2dir;
pub mod maildir;
pub mod page;
pub mod search;
pub mod text;
pub mod watch;
