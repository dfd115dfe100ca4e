//! Mailbox shared across all protocols.
use vstd::prelude::*;

verus! {

/// A mailbox and, where they are known, its message counts.
#[derive(Debug)]
pub struct Mailbox {
    /// Backend-specific identifier of the mailbox.
    pub id: String,
    pub name: String,
    /// Number of messages.
    pub total: Option<u64>,
    /// Number of unread messages.
    pub unread: Option<u64>,
}

/// What a [`Mailbox`] says.
pub struct MailboxView {
    pub id: Seq<char>,
    pub name: Seq<char>,
    pub total: Option<u64>,
    pub unread: Option<u64>,
}

impl DeepView for Mailbox {
    type V = MailboxView;

    open spec fn deep_view(&self) -> MailboxView {
        MailboxView { id: self.id@, name: self.name@, total: self.total, unread: self.unread }
    }
}

} // verus!
