//! Watch event shared across all protocols.
use vstd::prelude::*;

use crate::envelope::{Envelope, EnvelopeView};
use crate::flag::types::FlagSet;

verus! {

/// One change that a watch observed in a mailbox.
///
/// Flag deltas are split into `FlagsAdded` and `FlagsRemoved` so that a
/// hook can target one side of a toggle.
#[derive(Debug)]
pub enum WatchEvent {
    /// A new message landed in the watched mailbox.
    EnvelopeAdded { mailbox: String, envelope: Envelope },
    /// An existing message was expunged from the watched mailbox.
    EnvelopeRemoved { mailbox: String, id: String },
    /// One or more flags were set on an existing message.
    FlagsAdded { mailbox: String, id: String, flags: FlagSet },
    /// One or more flags were unset on an existing message.
    FlagsRemoved { mailbox: String, id: String, flags: FlagSet },
    /// The transport is still alive but had no changes to report.
    KeepAlive,
}

/// What a [`WatchEvent`] says.
pub enum WatchEventView {
    EnvelopeAdded { mailbox: Seq<char>, envelope: EnvelopeView },
    EnvelopeRemoved { mailbox: Seq<char>, id: Seq<char> },
    FlagsAdded { mailbox: Seq<char>, id: Seq<char>, flags: Set<Seq<char>> },
    FlagsRemoved { mailbox: Seq<char>, id: Seq<char>, flags: Set<Seq<char>> },
    KeepAlive,
}

impl DeepView for WatchEvent {
    type V = WatchEventView;

    open spec fn deep_view(&self) -> WatchEventView {
        match self {
            WatchEvent::EnvelopeAdded { mailbox, envelope } => WatchEventView::EnvelopeAdded {
                mailbox: mailbox@,
                envelope: envelope.deep_view(),
            },
            WatchEvent::EnvelopeRemoved { mailbox, id } => WatchEventView::EnvelopeRemoved {
                mailbox: mailbox@,
                id: id@,
            },
            WatchEvent::FlagsAdded { mailbox, id, flags } => WatchEventView::FlagsAdded {
                mailbox: mailbox@,
                id: id@,
                flags: flags@,
            },
            WatchEvent::FlagsRemoved { mailbox, id, flags } => WatchEventView::FlagsRemoved {
                mailbox: mailbox@,
                id: id@,
                flags: flags@,
            },
            WatchEvent::KeepAlive => WatchEventView::KeepAlive,
        }
    }
}

} // verus!
