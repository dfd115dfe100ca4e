//! IMAP watch by comparing snapshots: IDLE until something happens, fetch
//! the mailbox anew, and tell the difference.
//!
//! The driver idles and fetches; [`ImapWatch`] decides what comes next.
use vstd::prelude::*;

use crate::envelope::{Envelope, EnvelopeView};
use crate::event::WatchEvent;
use crate::imap::fetch::{envelope_from, envelope_of, FetchRow, FetchRowView};
use crate::watch::{
    all_applied, changes, diff, flags_by_id, law_changes_lead_to_new, law_no_change_no_event,
    law_snapshot_is_the_latest, snapshot, Shadow,
};

verus! {

/// Envelopes of FETCH responses, in their order.
pub open spec fn row_envelopes(rows: Seq<FetchRowView>) -> Seq<EnvelopeView> {
    rows.map_values(|row: FetchRowView| envelope_of(row.seq, row.items))
}

/// A snapshot of FETCH responses.
pub fn shadow_from_rows(rows: &Vec<FetchRow>) -> (r: Shadow)
    ensures
        r@ == snapshot(row_envelopes(rows.deep_view())),
{
    let mut envelopes: Vec<Envelope> = Vec::new();
    let mut i: usize = 0;
    while i < rows.len()
        invariant
            i <= rows@.len(),
            envelopes@.len() == i,
            forall|j: int|
                0 <= j < i ==> (#[trigger] envelopes@[j]).deep_view() == row_envelopes(
                    rows.deep_view(),
                )[j],
        decreases rows@.len() - i,
    {
        proof {
            assert(rows.deep_view()[i as int] == rows@[i as int].deep_view());
        }
        envelopes.push(envelope_from(rows[i].seq, &rows[i].items));
        i = i + 1;
    }
    proof {
        assert(envelopes.deep_view() =~= row_envelopes(rows.deep_view()));
    }
    Shadow::of(envelopes)
}

/// What the driver does next.
#[derive(Clone, Copy, Debug, PartialEq, Eq, Structural)]
pub enum WatchAction {
    /// Run one IDLE round.
    Idle,
    /// `FETCH 1:*` for the items of a listing.
    Fetch,
    /// The watch is over.
    Stop,
}

/// What a watch does next, where it is shut down or not and something changed
/// or not.
pub open spec fn watch_action(shutdown: bool, had_change: bool) -> WatchAction {
    if shutdown {
        WatchAction::Stop
    } else if had_change {
        WatchAction::Fetch
    } else {
        WatchAction::Idle
    }
}

/// A change is never passed over: unless the watch is shut down, and then it
/// always stops, a change and nothing else leads to a fetch.
pub proof fn law_change_is_fetched(shutdown: bool, had_change: bool)
    ensures
        shutdown <==> watch_action(shutdown, had_change) == WatchAction::Stop,
        !shutdown ==> (had_change <==> watch_action(shutdown, had_change) == WatchAction::Fetch),
{
}

/// A watch on one mailbox.
pub struct ImapWatch {
    mailbox: String,
    shadow: Shadow,
}

impl ImapWatch {
    /// The mailbox that is watched.
    pub closed spec fn mailbox(self) -> Seq<char> {
        self.mailbox@
    }

    /// The mailbox's messages as they were last fetched.
    pub closed spec fn known(self) -> Seq<EnvelopeView> {
        self.shadow@
    }

    /// Begins a watch with what the mailbox holds.
    pub fn new(mailbox: &str, rows: &Vec<FetchRow>) -> (r: ImapWatch)
        ensures
            r.mailbox() == mailbox@,
            r.known() == snapshot(row_envelopes(rows.deep_view())),
    {
        ImapWatch { mailbox: mailbox.to_owned(), shadow: shadow_from_rows(rows) }
    }

    /// What comes before an IDLE round.
    pub fn next(shutdown: bool) -> (r: WatchAction)
        ensures
            r == (if shutdown {
                WatchAction::Stop
            } else {
                WatchAction::Idle
            }),
            r == watch_action(shutdown, false),
    {
        if shutdown {
            WatchAction::Stop
        } else {
            WatchAction::Idle
        }
    }

    /// What comes after an IDLE round that saw a change or not.
    pub fn after_idle(shutdown: bool, had_change: bool) -> (r: WatchAction)
        ensures
            r == (if shutdown {
                WatchAction::Stop
            } else if had_change {
                WatchAction::Fetch
            } else {
                WatchAction::Idle
            }),
            r == watch_action(shutdown, had_change),
    {
        if shutdown {
            WatchAction::Stop
        } else if had_change {
            WatchAction::Fetch
        } else {
            WatchAction::Idle
        }
    }

    /// Takes in what the mailbox holds now, and tells what changed.
    pub fn refresh(&mut self, rows: &Vec<FetchRow>) -> (r: Vec<WatchEvent>)
        ensures
            r.deep_view() == changes(old(self).mailbox(), old(self).known(), final(self).known()),
            final(self).known() == snapshot(row_envelopes(rows.deep_view())),
            final(self).mailbox() == old(self).mailbox(),
    {
        let shadow = shadow_from_rows(rows);
        let events = diff(&self.mailbox, &self.shadow, &shadow);
        self.shadow = shadow;
        events
    }
}

/// What happened in an IDLE round.
#[derive(Clone, Copy, Debug, PartialEq, Eq, Structural)]
pub enum IdleEvent {
    /// The server sent untagged data, or nothing.
    Data { changed: bool },
    /// The server ended the round.
    Over,
    /// The exchange failed.
    Failed,
    /// Bytes were read.
    Bytes,
    /// The watch is to shut down; no bytes were read.
    Shutdown,
    /// The connection was closed.
    Eof,
}

/// What the driver does next in an IDLE round.
#[derive(Clone, Copy, Debug, PartialEq, Eq, Structural)]
pub enum IdleAction {
    /// Resume the exchange.
    Resume,
    /// Ask the server to end the round, then resume the exchange.
    SayDone,
    /// The round is over; whether anything changed in it.
    Finish { had_change: bool },
    /// The round failed: the exchange did, or the connection was closed.
    Fail { eof: bool },
}

/// One IDLE round: ended at the first change, or on shutdown.
#[derive(Clone, Copy, Debug, PartialEq, Eq, Structural)]
pub struct IdleRound {
    pub had_change: bool,
}

impl IdleRound {
    pub fn new() -> (r: IdleRound)
        ensures
            !r.had_change,
    {
        IdleRound { had_change: false }
    }

    /// The round after an event.
    pub open spec fn after(self, event: IdleEvent) -> IdleRound {
        IdleRound { had_change: self.had_change || event == (IdleEvent::Data { changed: true }) }
    }

    /// What follows an event.
    pub open spec fn action(self, event: IdleEvent) -> IdleAction {
        match event {
            IdleEvent::Data { changed } => if changed && !self.had_change {
                IdleAction::SayDone
            } else {
                IdleAction::Resume
            },
            IdleEvent::Over => IdleAction::Finish { had_change: self.had_change },
            IdleEvent::Failed => IdleAction::Fail { eof: false },
            IdleEvent::Bytes => IdleAction::Resume,
            IdleEvent::Shutdown => IdleAction::SayDone,
            IdleEvent::Eof => IdleAction::Fail { eof: true },
        }
    }

    /// Decides what follows an event.
    pub fn on_event(&mut self, event: IdleEvent) -> (r: IdleAction)
        ensures
            *final(self) == old(self).after(event),
            r == old(self).action(event),
            final(self).had_change == (old(self).had_change || event == (IdleEvent::Data {
                changed: true,
            })),
            r == (match event {
                IdleEvent::Data { changed } => if changed && !old(self).had_change {
                    IdleAction::SayDone
                } else {
                    IdleAction::Resume
                },
                IdleEvent::Over => IdleAction::Finish { had_change: old(self).had_change },
                IdleEvent::Failed => IdleAction::Fail { eof: false },
                IdleEvent::Bytes => IdleAction::Resume,
                IdleEvent::Shutdown => IdleAction::SayDone,
                IdleEvent::Eof => IdleAction::Fail { eof: true },
            }),
    {
        match event {
            IdleEvent::Data { changed } => {
                if changed && !self.had_change {
                    self.had_change = true;
                    IdleAction::SayDone
                } else {
                    IdleAction::Resume
                }
            },
            IdleEvent::Over => IdleAction::Finish { had_change: self.had_change },
            IdleEvent::Failed => IdleAction::Fail { eof: false },
            IdleEvent::Bytes => IdleAction::Resume,
            IdleEvent::Shutdown => IdleAction::SayDone,
            IdleEvent::Eof => IdleAction::Fail { eof: true },
        }
    }
}

/// Every response gives its own envelope, in its place.
pub proof fn law_every_row_is_read(rows: Seq<FetchRowView>)
    ensures
        row_envelopes(rows).len() == rows.len(),
        forall|i: int|
            0 <= i < rows.len() ==> #[trigger] row_envelopes(rows)[i] == envelope_of(
                rows[i].seq,
                rows[i].items,
            ),
{
}

/// The events of a refresh, replayed on the flags of the messages that were
/// fetched before, give those of the messages that are fetched now; where the
/// same was fetched there are none.
pub proof fn law_refresh_replays(mailbox: Seq<char>, before: Seq<FetchRowView>, now: Seq<FetchRowView>)
    ensures
        ({
            let was = snapshot(row_envelopes(before));
            let new = snapshot(row_envelopes(now));
            &&& all_applied(flags_by_id(was), changes(mailbox, was, new)) == flags_by_id(new)
            &&& changes(mailbox, new, new).len() == 0
        }),
{
    law_snapshot_is_the_latest(row_envelopes(before), seq![], 0);
    law_snapshot_is_the_latest(row_envelopes(now), seq![], 0);
    law_changes_lead_to_new(mailbox, snapshot(row_envelopes(before)), snapshot(row_envelopes(now)));
    law_no_change_no_event(mailbox, snapshot(row_envelopes(now)));
}

/// A round after events, one after the other.
pub open spec fn round_after(round: IdleRound, events: Seq<IdleEvent>) -> IdleRound
    decreases events.len(),
{
    if events.len() == 0 {
        round
    } else {
        round_after(round, events.drop_last()).after(events.last())
    }
}

/// A round that begins without a change has one exactly when some event told
/// of one. The first that does ends the round, and so does a shutdown; the end
/// of the round tells whether there was a change.
pub proof fn law_first_change_ends_the_round(round: IdleRound, events: Seq<IdleEvent>, event: IdleEvent)
    requires
        !round.had_change,
    ensures
        ({
            let now = round_after(round, events);
            let told = exists|i: int|
                0 <= i < events.len() && #[trigger] events[i] == (IdleEvent::Data { changed: true });
            &&& now.had_change <==> told
            &&& now.action(event) == IdleAction::SayDone <==> event == IdleEvent::Shutdown || (event == (
            IdleEvent::Data { changed: true }) && !told)
            &&& event == IdleEvent::Over <==> now.action(event) == (IdleAction::Finish { had_change: told })
            &&& event == IdleEvent::Over <==> now.action(event) is Finish
            &&& now.action(event) is Fail <==> event == IdleEvent::Failed || event == IdleEvent::Eof
            &&& now.action(event) == (IdleAction::Fail { eof: true }) <==> event == IdleEvent::Eof
        }),
    decreases events.len(),
{
    if events.len() > 0 {
        let most = events.drop_last();
        law_first_change_ends_the_round(round, most, event);
        assert(events[events.len() - 1] == events.last());
        if exists|i: int| 0 <= i < most.len() && #[trigger] most[i] == (IdleEvent::Data { changed: true }) {
            let i = choose|i: int|
                0 <= i < most.len() && #[trigger] most[i] == (IdleEvent::Data { changed: true });
            assert(events[i] == most[i]);
        }
        if exists|i: int|
            0 <= i < events.len() && #[trigger] events[i] == (IdleEvent::Data { changed: true }) {
            let i = choose|i: int|
                0 <= i < events.len() && #[trigger] events[i] == (IdleEvent::Data { changed: true });
            if i < most.len() {
                assert(most[i] == events[i]);
            }
        }
    }
}

} // verus!
