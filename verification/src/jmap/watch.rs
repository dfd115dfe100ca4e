//! JMAP watch over a push channel that stays open: a push whose email state
//! moved leads to Email/changes and Email/get, and these to events.
//!
//! The driver reads the channel and runs the methods; [`JmapWatch`] decides
//! what comes next.
use vstd::prelude::*;

use io_jmap::rfc8620::event_source::JmapStateChange;
use io_jmap::rfc8620::filter::JmapFilter;
use io_jmap::rfc8621::email::query::JmapEmailFilter;
use io_jmap::rfc8621::email::JmapEmailProperty;

use crate::envelope::EnvelopeView;
use crate::event::{WatchEvent, WatchEventView};
use crate::jmap::convert::{
    envelope_from, envelope_of, envelope_properties, envelope_property_list, envelopes_from,
    envelopes_of, list_or_empty, text_or_empty,
};
use crate::jmap::event_source::{StateChange, StateChangeView};
use crate::jmap::filter::{scope_filter, scoped, wire_filter, Filter};
use crate::jmap::watch_mailbox::EMAIL_TYPE;
use crate::jmap::wire::{
    filter_content, properties_content, wire_properties, ChangesOutput, ChangesOutputView, Email,
    EmailProperty, EmailView,
};
use crate::text::{copy_texts, find_row, law_row_is_the_first, row, same_text};
use crate::watch::{
    all_applied, entry_events, flags_by_id, law_only_that_message_goes, lemma_applied_in_turn,
    lemma_entry_applied, lemma_lookup, lemma_put_flags, lemma_put_lookup, lemma_without_flags, lookup, ordered, push_entry, put, snapshot, without, Shadow,
};

verus! {

/// The seconds between two pings of the server.
pub const SSE_PING_SECONDS: u64 = 10;

/// What [`JmapStateChange::parse`] reads in the data of a push; `None` where
/// it is no state change.
pub uninterp spec fn state_change(data: Seq<char>) -> Option<StateChangeView>;

/// [`JmapStateChange::parse`].
#[verifier::external_body]
fn parse_state_change(data: &str) -> (r: Option<StateChange>)
    ensures
        match r {
            Some(change) => state_change(data@) == Some(change.deep_view()),
            None => state_change(data@) is None,
        },
{
    let change = JmapStateChange::parse(data).ok()?;
    let changed = change.changed.into_iter().map(|(id, states)| (id, states.into_iter().collect()));
    Some(StateChange { changed: changed.collect() })
}

/// What the driver does about a push.
#[derive(Clone, Copy, Debug, PartialEq, Eq, Structural)]
pub enum FrameAction {
    /// Report that the channel is alive.
    KeepAlive,
    /// Nothing.
    Skip,
    /// Run Email/changes since the known state, then Email/get for what it
    /// names, if anything.
    Refresh,
}

/// The first email state that a push gives, whatever the account.
pub open spec fn pushed_state(change: StateChangeView) -> Option<Seq<char>>
    decreases change.len(),
{
    if change.len() == 0 {
        None
    } else {
        match row(change[0].1, EMAIL_TYPE@) {
            Some(state) => Some(state),
            None => pushed_state(change.skip(1)),
        }
    }
}

/// What is done about a push in the known state.
pub open spec fn frame_action(change: Option<StateChangeView>, known: Seq<char>) -> FrameAction {
    match change {
        None => FrameAction::Skip,
        Some(change) => if change.len() == 0 {
            FrameAction::KeepAlive
        } else {
            match pushed_state(change) {
                None => FrameAction::Skip,
                Some(state) => if state == known {
                    FrameAction::Skip
                } else {
                    FrameAction::Refresh
                },
            }
        },
    }
}

fn find_pushed_state<'a>(change: &'a StateChange) -> (r: Option<&'a String>)
    ensures
        match r {
            Some(state) => pushed_state(change.deep_view()) == Some(state@),
            None => pushed_state(change.deep_view()) is None,
        },
{
    let ghost all = change.deep_view();
    proof {
        assert(all.skip(0) =~= all);
    }
    let mut i: usize = 0;
    while i < change.changed.len()
        invariant
            i <= change.changed@.len(),
            all == change.deep_view(),
            pushed_state(all) == pushed_state(all.skip(i as int)),
        decreases change.changed@.len() - i,
    {
        proof {
            assert(all.skip(i as int)[0] == change.changed@[i as int].deep_view());
            assert(all.skip(i as int).skip(1) =~= all.skip(i + 1));
        }
        let found = find_row(&change.changed[i].1, EMAIL_TYPE);
        if found.is_some() {
            return found;
        }
        i = i + 1;
    }
    None
}

/// The properties that a watch asks for: those of an envelope and the
/// mailboxes.
pub fn watch_properties() -> (r: Vec<EmailProperty>)
    ensures
        r@ == envelope_property_list().push(EmailProperty::MailboxIds),
{
    let mut out = envelope_properties();
    out.push(EmailProperty::MailboxIds);
    out
}

/// The filter of the emails of a mailbox; none for no mailbox in
/// particular.
pub fn mailbox_filter(mailbox: &str) -> (r: Option<Filter>)
    ensures
        match r {
            Some(filter) => mailbox@.len() > 0 && filter.content() == scoped(None, mailbox@),
            None => mailbox@.len() == 0,
        },
{
    if mailbox.is_empty() {
        return None;
    }
    Some(scope_filter(None, mailbox.to_owned()))
}

/// The filter of the emails of a mailbox, as `io_jmap` holds it.
pub fn seed_filter(mailbox: &str) -> (r: Option<JmapFilter<JmapEmailFilter>>)
    ensures
        match r {
            Some(filter) => mailbox@.len() > 0 && filter_content(filter) == scoped(None, mailbox@),
            None => mailbox@.len() == 0,
        },
{
    match mailbox_filter(mailbox) {
        Some(filter) => Some(wire_filter(&filter)),
        None => None,
    }
}

/// The properties that a watch asks for, as `io_jmap` holds them.
pub fn seed_properties() -> (r: Vec<JmapEmailProperty>)
    ensures
        properties_content(r@) == envelope_property_list().push(EmailProperty::MailboxIds),
{
    wire_properties(&watch_properties())
}

/// Whether an email lists a mailbox.
pub open spec fn lists_mailbox(email: EmailView, mailbox: Seq<char>) -> bool {
    row(list_or_empty(email.mailbox_ids), mailbox) is Some
}

/// Whether an email lists a mailbox.
pub fn email_is_in_mailbox(email: &Email, mailbox: &str) -> (r: bool)
    ensures
        r == lists_mailbox(email.deep_view(), mailbox@),
{
    match &email.mailbox_ids {
        Some(ids) => find_row(ids, mailbox).is_some(),
        None => false,
    }
}

/// The emails that changes name as created or updated.
pub open spec fn touched_ids(changes: ChangesOutputView) -> Seq<Seq<char>> {
    changes.created + changes.updated
}

/// The ids for Email/get: what was created, then what was updated.
pub fn touched(changes: &ChangesOutput) -> (r: Vec<String>)
    ensures
        r.deep_view() == touched_ids(changes.deep_view()),
{
    let mut ids = copy_texts(&changes.created);
    let mut updated = copy_texts(&changes.updated);
    let ghost a = ids.deep_view();
    let ghost b = updated.deep_view();
    ids.append(&mut updated);
    proof {
        assert(ids.deep_view() =~= a + b);
    }
    ids
}

/// What an email that was created or updated does to what is known, and its
/// events; one that left the mailbox is removed.
pub open spec fn refreshed_email(known: Seq<EnvelopeView>, mailbox: Seq<char>, email: EmailView) -> (
    Seq<EnvelopeView>,
    Seq<WatchEventView>,
) {
    if lists_mailbox(email, mailbox) {
        let entry = envelope_of(email);
        (put(known, entry), entry_events(mailbox, known, entry))
    } else {
        let id = text_or_empty(email.id);
        (
            without(known, id),
            if lookup(known, id) is Some {
                seq![WatchEventView::EnvelopeRemoved { mailbox, id }]
            } else {
                seq![]
            },
        )
    }
}

/// What emails do to what is known one after the other, and their events.
pub open spec fn refreshed_emails(known: Seq<EnvelopeView>, mailbox: Seq<char>, emails: Seq<EmailView>) -> (
    Seq<EnvelopeView>,
    Seq<WatchEventView>,
)
    decreases emails.len(),
{
    if emails.len() == 0 {
        (known, seq![])
    } else {
        let before = refreshed_emails(known, mailbox, emails.drop_last());
        let last = refreshed_email(before.0, mailbox, emails.last());
        (last.0, before.1 + last.1)
    }
}

/// What the ends of emails do to what is known one after the other, and
/// their events.
pub open spec fn refreshed_ends(known: Seq<EnvelopeView>, mailbox: Seq<char>, ids: Seq<Seq<char>>) -> (
    Seq<EnvelopeView>,
    Seq<WatchEventView>,
)
    decreases ids.len(),
{
    if ids.len() == 0 {
        (known, seq![])
    } else {
        let before = refreshed_ends(known, mailbox, ids.drop_last());
        let id = ids.last();
        (
            without(before.0, id),
            if lookup(before.0, id) is Some {
                before.1.push(WatchEventView::EnvelopeRemoved { mailbox, id })
            } else {
                before.1
            },
        )
    }
}

/// What is known after a refresh, and its events.
pub open spec fn refreshed(
    known: Seq<EnvelopeView>,
    mailbox: Seq<char>,
    emails: Seq<EmailView>,
    destroyed: Seq<Seq<char>>,
) -> (Seq<EnvelopeView>, Seq<WatchEventView>) {
    let changed = refreshed_emails(known, mailbox, emails);
    let ended = refreshed_ends(changed.0, mailbox, destroyed);
    (ended.0, changed.1 + ended.1)
}

/// A watch on one mailbox.
pub struct JmapWatch {
    mailbox: String,
    state: String,
    shadow: Shadow,
}

/// The emails that a watch begins with, as a snapshot.
pub fn seed_shadow(emails: &Vec<Email>) -> (r: Shadow)
    ensures
        r@ == snapshot(envelopes_of(emails.deep_view())),
{
    Shadow::of(envelopes_from(emails))
}

impl JmapWatch {
    /// The mailbox that is watched.
    pub closed spec fn mailbox(self) -> Seq<char> {
        self.mailbox@
    }

    /// The email state that is known.
    pub closed spec fn state(self) -> Seq<char> {
        self.state@
    }

    /// The mailbox's emails as they were last seen.
    pub closed spec fn known(self) -> Seq<EnvelopeView> {
        self.shadow@
    }

    /// Begins a watch with the emails of the mailbox and the state they were
    /// seen in.
    pub fn new(mailbox: &str, shadow: Shadow, state: String) -> (r: JmapWatch)
        ensures
            r.mailbox() == mailbox@,
            r.state() == state@,
            r.known() == shadow@,
    {
        JmapWatch { mailbox: mailbox.to_owned(), state, shadow }
    }

    /// The state since which Email/changes is asked for.
    pub fn since(&self) -> (r: &String)
        ensures
            r@ == self.state(),
    {
        &self.state
    }

    /// Decides about the data of a push.
    pub fn on_data(&self, data: &str) -> (r: FrameAction)
        ensures
            r == frame_action(state_change(data@), self.state()),
    {
        match parse_state_change(data) {
            Some(change) => self.on_change(&change),
            None => FrameAction::Skip,
        }
    }

    /// Decides about a push.
    pub fn on_change(&self, change: &StateChange) -> (r: FrameAction)
        ensures
            r == frame_action(Some(change.deep_view()), self.state()),
    {
        if change.changed.len() == 0 {
            return FrameAction::KeepAlive;
        }
        match find_pushed_state(change) {
            None => FrameAction::Skip,
            Some(state) => if same_text(state.as_str(), self.state.as_str()) {
                FrameAction::Skip
            } else {
                FrameAction::Refresh
            },
        }
    }

    /// Takes in what changed, and tells the events: `emails` are those that
    /// `changes` names as created or updated.
    pub fn refresh(&mut self, changes: &ChangesOutput, emails: &Vec<Email>) -> (r: Vec<WatchEvent>)
        ensures
            ({
                let round = refreshed(
                    old(self).known(),
                    old(self).mailbox(),
                    emails.deep_view(),
                    changes.deep_view().destroyed,
                );
                &&& final(self).known() == round.0
                &&& r.deep_view() == round.1
            }),
            final(self).state() == changes.deep_view().new_state,
            final(self).mailbox() == old(self).mailbox(),
    {
        let ghost start = self.shadow@;
        let ghost all = emails.deep_view();
        let ghost mailbox = self.mailbox@;
        let mut events: Vec<WatchEvent> = Vec::new();
        proof {
            assert(all.take(0) =~= seq![]);
            assert(events.deep_view() =~= seq![]);
        }
        let mut i: usize = 0;
        while i < emails.len()
            invariant
                i <= emails@.len(),
                all == emails.deep_view(),
                self.mailbox@ == mailbox,
                self.shadow@ == refreshed_emails(start, mailbox, all.take(i as int)).0,
                events.deep_view() == refreshed_emails(start, mailbox, all.take(i as int)).1,
            decreases emails@.len() - i,
        {
            let ghost was = events.deep_view();
            proof {
                assert(all.take(i + 1).drop_last() =~= all.take(i as int));
                assert(all.take(i + 1).last() == emails@[i as int].deep_view());
            }
            let email = &emails[i];
            if email_is_in_mailbox(email, self.mailbox.as_str()) {
                let envelope = envelope_from(email);
                push_entry(&mut events, self.mailbox.as_str(), &self.shadow, &envelope);
                self.shadow.put(envelope);
            } else {
                let id: String = match &email.id {
                    Some(id) => id.clone(),
                    None => {
                        proof {
                            reveal_strlit("");
                            assert(""@ =~= text_or_empty(None));
                        }
                        "".to_owned()
                    },
                };
                proof {
                    assert(id@ == text_or_empty(all[i as int].id));
                }
                if self.shadow.remove(id.as_str()) {
                    let event = WatchEvent::EnvelopeRemoved { mailbox: self.mailbox.clone(), id };
                    let ghost view = event.deep_view();
                    events.push(event);
                    proof {
                        assert(events.deep_view() =~= was + seq![view]);
                    }
                } else {
                    proof {
                        assert(was + seq![] =~= was);
                    }
                }
            }
            i = i + 1;
        }
        proof {
            assert(all.take(all.len() as int) =~= all);
        }
        let ghost middle = self.shadow@;
        let ghost first = events.deep_view();
        let ghost ends = changes.destroyed.deep_view();
        proof {
            assert(ends.take(0) =~= seq![]);
            assert(first + seq![] =~= first);
        }
        let mut k: usize = 0;
        while k < changes.destroyed.len()
            invariant
                k <= changes.destroyed@.len(),
                ends == changes.destroyed.deep_view(),
                self.mailbox@ == mailbox,
                self.shadow@ == refreshed_ends(middle, mailbox, ends.take(k as int)).0,
                events.deep_view() == first + refreshed_ends(middle, mailbox, ends.take(k as int)).1,
            decreases changes.destroyed@.len() - k,
        {
            let ghost was = events.deep_view();
            let ghost told = refreshed_ends(middle, mailbox, ends.take(k as int)).1;
            proof {
                assert(ends.take(k + 1).drop_last() =~= ends.take(k as int));
                assert(ends.take(k + 1).last() == changes.destroyed@[k as int]@);
            }
            let id = &changes.destroyed[k];
            if self.shadow.remove(id.as_str()) {
                let event = WatchEvent::EnvelopeRemoved {
                    mailbox: self.mailbox.clone(),
                    id: id.clone(),
                };
                let ghost view = event.deep_view();
                events.push(event);
                proof {
                    assert(events.deep_view() =~= was.push(view));
                    assert((first + told).push(view) =~= first + told.push(view));
                }
            }
            k = k + 1;
        }
        proof {
            assert(ends.take(ends.len() as int) =~= ends);
        }
        self.state = changes.new_state.clone();
        events
    }
}

proof fn lemma_removal_replays(known: Seq<EnvelopeView>, mailbox: Seq<char>, id: Seq<char>)
    requires
        ordered(known),
    ensures
        ordered(without(known, id)),
        all_applied(
            flags_by_id(known),
            if lookup(known, id) is Some {
                seq![WatchEventView::EnvelopeRemoved { mailbox, id }]
            } else {
                seq![]
            },
        ) == flags_by_id(without(known, id)),
{
    lemma_without_flags(known, id);
    lemma_lookup(known, id);
    let flags = flags_by_id(known);
    if lookup(known, id) is Some {
        let events = seq![WatchEventView::EnvelopeRemoved { mailbox, id }];
        assert(events.drop_last() =~= seq![]);
        assert(all_applied(flags, events.drop_last()) == flags);
    } else {
        assert(flags.remove(id) =~= flags);
    }
}

proof fn lemma_emails_replay(known: Seq<EnvelopeView>, mailbox: Seq<char>, emails: Seq<EmailView>)
    requires
        ordered(known),
    ensures
        ordered(refreshed_emails(known, mailbox, emails).0),
        all_applied(flags_by_id(known), refreshed_emails(known, mailbox, emails).1) == flags_by_id(
            refreshed_emails(known, mailbox, emails).0,
        ),
    decreases emails.len(),
{
    if emails.len() > 0 {
        let before = refreshed_emails(known, mailbox, emails.drop_last());
        let email = emails.last();
        lemma_emails_replay(known, mailbox, emails.drop_last());
        let last = refreshed_email(before.0, mailbox, email);
        if lists_mailbox(email, mailbox) {
            let entry = envelope_of(email);
            lemma_lookup(before.0, entry.id);
            lemma_put_flags(before.0, entry);
            lemma_entry_applied(mailbox, before.0, flags_by_id(before.0), entry);
        } else {
            lemma_removal_replays(before.0, mailbox, text_or_empty(email.id));
        }
        lemma_applied_in_turn(flags_by_id(known), before.1, last.1);
    }
}

proof fn lemma_ends_replay(known: Seq<EnvelopeView>, mailbox: Seq<char>, ids: Seq<Seq<char>>)
    requires
        ordered(known),
    ensures
        ordered(refreshed_ends(known, mailbox, ids).0),
        all_applied(flags_by_id(known), refreshed_ends(known, mailbox, ids).1) == flags_by_id(
            refreshed_ends(known, mailbox, ids).0,
        ),
    decreases ids.len(),
{
    if ids.len() > 0 {
        let before = refreshed_ends(known, mailbox, ids.drop_last());
        let id = ids.last();
        lemma_ends_replay(known, mailbox, ids.drop_last());
        lemma_removal_replays(before.0, mailbox, id);
        let last = if lookup(before.0, id) is Some {
            seq![WatchEventView::EnvelopeRemoved { mailbox, id }]
        } else {
            seq![]
        };
        lemma_applied_in_turn(flags_by_id(known), before.1, last);
        assert(before.1 + last =~= refreshed_ends(known, mailbox, ids).1);
    }
}

/// The events of a refresh, replayed on what was known, give what is known
/// after it: which emails are in the mailbox, and the flags of each.
pub proof fn law_refresh_events_replay(
    known: Seq<EnvelopeView>,
    mailbox: Seq<char>,
    emails: Seq<EmailView>,
    destroyed: Seq<Seq<char>>,
)
    requires
        ordered(known),
    ensures
        ordered(refreshed(known, mailbox, emails, destroyed).0),
        all_applied(flags_by_id(known), refreshed(known, mailbox, emails, destroyed).1)
            == flags_by_id(refreshed(known, mailbox, emails, destroyed).0),
{
    let changed = refreshed_emails(known, mailbox, emails);
    lemma_emails_replay(known, mailbox, emails);
    lemma_ends_replay(changed.0, mailbox, destroyed);
    lemma_applied_in_turn(
        flags_by_id(known),
        changed.1,
        refreshed_ends(changed.0, mailbox, destroyed).1,
    );
}

/// Whether an email is the last of some that tells of an id.
pub open spec fn tells_last(emails: Seq<EmailView>, id: Seq<char>, k: int) -> bool {
    &&& 0 <= k < emails.len()
    &&& text_or_empty(emails[k].id) == id
    &&& forall|j: int| k < j < emails.len() ==> text_or_empty((#[trigger] emails[j]).id) != id
}

proof fn lemma_emails_known(known: Seq<EnvelopeView>, mailbox: Seq<char>, emails: Seq<EmailView>, id: Seq<char>, k: int)
    requires
        ordered(known),
    ensures
        ({
            let after = refreshed_emails(known, mailbox, emails).0;
            &&& tells_last(emails, id, k) ==> lookup(after, id) == if lists_mailbox(emails[k], mailbox) {
                Some(envelope_of(emails[k]))
            } else {
                None
            }
            &&& (forall|j: int|
                0 <= j < emails.len() ==> text_or_empty((#[trigger] emails[j]).id) != id) ==> lookup(
                after,
                id,
            ) == lookup(known, id)
        }),
    decreases emails.len(),
{
    if emails.len() > 0 {
        let most = emails.drop_last();
        lemma_emails_known(known, mailbox, most, id, k);
        lemma_emails_replay(known, mailbox, most);
        let before = refreshed_emails(known, mailbox, most).0;
        let last = emails.last();
        assert(emails[emails.len() - 1] == last);
        assert forall|j: int| 0 <= j < most.len() implies #[trigger] most[j] == emails[j] by {}
        if lists_mailbox(last, mailbox) {
            lemma_put_lookup(before, envelope_of(last), id);
        } else {
            law_only_that_message_goes(before, text_or_empty(last.id), id);
        }
    }
}

proof fn lemma_ends_known(known: Seq<EnvelopeView>, mailbox: Seq<char>, ids: Seq<Seq<char>>, id: Seq<char>)
    requires
        ordered(known),
    ensures
        lookup(refreshed_ends(known, mailbox, ids).0, id) == if ids.contains(id) {
            None
        } else {
            lookup(known, id)
        },
    decreases ids.len(),
{
    if ids.len() > 0 {
        let most = ids.drop_last();
        lemma_ends_known(known, mailbox, most, id);
        lemma_ends_replay(known, mailbox, most);
        law_only_that_message_goes(refreshed_ends(known, mailbox, most).0, ids.last(), id);
        assert(ids[ids.len() - 1] == ids.last());
        if most.contains(id) {
            let i = most.index_of(id);
            assert(ids[i] == id);
        }
        if ids.contains(id) {
            let i = ids.index_of(id);
            if i < most.len() {
                assert(most[i] == id);
            }
        }
    }
}

/// What is known is what the server last told: an email that was destroyed is
/// not known; else the last that was told of an email decides whether it is in
/// the mailbox, and its whole envelope; and an email that nothing was told of
/// stays as it was.
pub proof fn law_known_is_what_was_told(
    known: Seq<EnvelopeView>,
    mailbox: Seq<char>,
    emails: Seq<EmailView>,
    destroyed: Seq<Seq<char>>,
    id: Seq<char>,
    k: int,
)
    requires
        ordered(known),
    ensures
        ({
            let after = refreshed(known, mailbox, emails, destroyed).0;
            &&& destroyed.contains(id) ==> lookup(after, id) is None
            &&& !destroyed.contains(id) && tells_last(emails, id, k) ==> lookup(after, id)
                == if lists_mailbox(emails[k], mailbox) {
                Some(envelope_of(emails[k]))
            } else {
                None
            }
            &&& !destroyed.contains(id) && (forall|j: int|
                0 <= j < emails.len() ==> text_or_empty((#[trigger] emails[j]).id) != id) ==> lookup(
                after,
                id,
            ) == lookup(known, id)
        }),
{
    lemma_emails_known(known, mailbox, emails, id, k);
    lemma_emails_replay(known, mailbox, emails);
    lemma_ends_known(refreshed_emails(known, mailbox, emails).0, mailbox, destroyed, id);
}

/// An email is in a mailbox exactly when the mailbox is among those it lists.
pub proof fn law_listed_mailboxes(email: EmailView, mailbox: Seq<char>)
    ensures
        lists_mailbox(email, mailbox) <==> (email.mailbox_ids matches Some(ids) && exists|i: int|
            0 <= i < ids.len() && (#[trigger] ids[i]).0 == mailbox),
{
    let ids = list_or_empty(email.mailbox_ids);
    law_row_is_the_first(ids, mailbox);
}

/// A push without accounts is a sign of life; one that gives emails another
/// state than the known one leads to a refresh, wherever it stands first among
/// the accounts; any other is passed over.
pub proof fn law_push_leads_to_refresh(change: StateChangeView, known: Seq<char>, k: int)
    requires
        0 <= k <= change.len(),
        forall|i: int| 0 <= i < k ==> row((#[trigger] change[i]).1, "Email"@) is None,
    ensures
        frame_action(None, known) == FrameAction::Skip,
        change.len() == 0 <==> frame_action(Some(change), known) == FrameAction::KeepAlive,
        k == change.len() ==> frame_action(Some(change), known) != FrameAction::Refresh,
        k < change.len() && row(change[k].1, "Email"@) is Some ==> (frame_action(Some(change), known)
            == FrameAction::Refresh <==> row(change[k].1, "Email"@) != Some(known)),
{
    lemma_pushed_state(change, k);
}

proof fn lemma_pushed_state(change: StateChangeView, k: int)
    requires
        0 <= k <= change.len(),
        forall|i: int| 0 <= i < k ==> row((#[trigger] change[i]).1, "Email"@) is None,
    ensures
        k == change.len() ==> pushed_state(change) is None,
        k < change.len() && row(change[k].1, "Email"@) is Some ==> pushed_state(change) == row(
            change[k].1,
            "Email"@,
        ),
    decreases k,
{
    if k > 0 {
        let rest = change.skip(1);
        assert(row(change[0].1, "Email"@) is None);
        assert forall|i: int| 0 <= i < k - 1 implies row((#[trigger] rest[i]).1, "Email"@) is None by {
            assert(rest[i] == change[i + 1]);
        }
        lemma_pushed_state(rest, k - 1);
        if k < change.len() {
            assert(rest[k - 1] == change[k]);
        }
    }
}

/// Every email that was created or updated is asked for, and no other.
pub proof fn law_touched_emails(changes: ChangesOutputView, id: Seq<char>)
    ensures
        touched_ids(changes).contains(id) <==> changes.created.contains(id) || changes.updated.contains(id),
{
    let all = touched_ids(changes);
    let n = changes.created.len();
    if all.contains(id) {
        let i = all.index_of(id);
        if i < n {
            assert(changes.created[i] == id);
        } else {
            assert(changes.updated[i - n] == id);
        }
    }
    if changes.created.contains(id) {
        assert(all[changes.created.index_of(id)] == id);
    }
    if changes.updated.contains(id) {
        assert(all[n + changes.updated.index_of(id)] == id);
    }
}

} // verus!
