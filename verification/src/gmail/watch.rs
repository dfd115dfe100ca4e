//! Gmail watch: one round of `users.history.list` as shared events.
use vstd::prelude::*;

use io_gmail::v1::history_poll::GmailHistoryDiff;
use io_gmail::v1::rest::messages::GmailMessage;

use crate::event::{WatchEvent, WatchEventView};
use crate::flag::types::{law_spelling_parses_back, FlagSet, IanaFlag};
use crate::gmail::convert::{
    envelope_from, envelope_of, flag_label, flag_of_label, has_label, label_flag, label_flags,
    law_label_and_flag, lemma_label_flags, lemma_spellings_differ, GmailMetadata, GmailMetadataView,
};
use crate::gmail::wire::{message_metadata, read_message};
use crate::text::holds_text;
use crate::watch::{all_applied, lemma_applied_in_turn};

verus! {

/// One round's changes of `io_gmail`.
#[verifier::external_type_specification]
#[verifier::external_body]
pub struct ExGmailHistoryDiff(GmailHistoryDiff);

/// The labels that one message gained or lost.
#[derive(Debug)]
pub struct LabelChange {
    pub id: String,
    pub label_ids: Vec<String>,
}

/// What a [`LabelChange`] says.
pub struct LabelChangeView {
    pub id: Seq<char>,
    pub label_ids: Seq<Seq<char>>,
}

impl DeepView for LabelChange {
    type V = LabelChangeView;

    open spec fn deep_view(&self) -> LabelChangeView {
        LabelChangeView { id: self.id@, label_ids: self.label_ids.deep_view() }
    }
}

/// One round's changes.
#[derive(Debug)]
pub struct HistoryDiff {
    pub added: Vec<GmailMetadata>,
    /// The ids of the messages removed.
    pub removed: Vec<String>,
    pub labels_added: Vec<LabelChange>,
    pub labels_removed: Vec<LabelChange>,
}

/// What a [`HistoryDiff`] says.
pub struct HistoryDiffView {
    pub added: Seq<GmailMetadataView>,
    pub removed: Seq<Seq<char>>,
    pub labels_added: Seq<LabelChangeView>,
    pub labels_removed: Seq<LabelChangeView>,
}

impl DeepView for HistoryDiff {
    type V = HistoryDiffView;

    open spec fn deep_view(&self) -> HistoryDiffView {
        HistoryDiffView {
            added: self.added.deep_view(),
            removed: self.removed.deep_view(),
            labels_added: self.labels_added.deep_view(),
            labels_removed: self.labels_removed.deep_view(),
        }
    }
}

/// One round's changes, the messages still opaque.
pub struct RawDiff {
    pub added: Vec<GmailMessage>,
    pub removed: Vec<String>,
    pub labels_added: Vec<LabelChange>,
    pub labels_removed: Vec<LabelChange>,
}

/// What a [`RawDiff`] says.
pub struct RawDiffView {
    pub added: Seq<GmailMessage>,
    pub removed: Seq<Seq<char>>,
    pub labels_added: Seq<LabelChangeView>,
    pub labels_removed: Seq<LabelChangeView>,
}

impl DeepView for RawDiff {
    type V = RawDiffView;

    open spec fn deep_view(&self) -> RawDiffView {
        RawDiffView {
            added: self.added@,
            removed: self.removed.deep_view(),
            labels_added: self.labels_added.deep_view(),
            labels_removed: self.labels_removed.deep_view(),
        }
    }
}

/// The fields of one round's changes.
pub uninterp spec fn diff_content(diff: GmailHistoryDiff) -> RawDiffView;

/// The fields of a [`GmailHistoryDiff`] that events are made of.
#[verifier::external_body]
fn open_diff(diff: GmailHistoryDiff) -> (r: RawDiff)
    ensures
        r.deep_view() == diff_content(diff),
{
    let added_labels = diff.labels_added.into_iter();
    let removed_labels = diff.labels_removed.into_iter();
    RawDiff {
        added: diff.added,
        removed: diff.removed.into_iter().map(|message| message.id).collect(),
        labels_added: added_labels.map(|l| LabelChange { id: l.message.id, label_ids: l.label_ids }).collect(),
        labels_removed: removed_labels
            .map(|l| LabelChange { id: l.message.id, label_ids: l.label_ids })
            .collect(),
    }
}

/// The longest sleep between two looks at the shutdown flag, in nanoseconds.
pub const SLEEP_CHUNK: u64 = 1_000_000_000;

/// What a poll does while it waits for its next round.
#[derive(Clone, Copy, Debug, PartialEq, Eq, Structural)]
pub enum SleepStep {
    /// The watch is shut down.
    Stop,
    /// The wait is over.
    Over,
    /// Sleep for so many nanoseconds, then look again.
    Sleep(u64),
}

/// Decides about a wait of `interval` nanoseconds, of which `slept` have
/// passed: it is cut into chunks, so that the shutdown flag is looked at
/// before each.
pub fn sleep_step(slept: u64, interval: u64, shutdown: bool) -> (r: SleepStep)
    ensures
        r == (if slept >= interval {
            SleepStep::Over
        } else if shutdown {
            SleepStep::Stop
        } else if interval - slept < SLEEP_CHUNK {
            SleepStep::Sleep((interval - slept) as u64)
        } else {
            SleepStep::Sleep(SLEEP_CHUNK)
        }),
        r is Over <==> slept >= interval,
        r is Stop <==> shutdown && slept < interval,
        r matches SleepStep::Sleep(nanos) ==> 0 < nanos <= 1_000_000_000 && slept + nanos <= interval,
{
    if slept >= interval {
        SleepStep::Over
    } else if shutdown {
        SleepStep::Stop
    } else if interval - slept < SLEEP_CHUNK {
        SleepStep::Sleep(interval - slept)
    } else {
        SleepStep::Sleep(SLEEP_CHUNK)
    }
}

/// The metadata of messages.
pub open spec fn metadata_of(messages: Seq<GmailMessage>) -> Seq<GmailMetadataView> {
    messages.map_values(|message: GmailMessage| message_metadata(message))
}

/// One round's changes, the messages read.
pub open spec fn diff_of(raw: RawDiffView) -> HistoryDiffView {
    HistoryDiffView {
        added: metadata_of(raw.added),
        removed: raw.removed,
        labels_added: raw.labels_added,
        labels_removed: raw.labels_removed,
    }
}

/// Reads one round's changes.
pub fn read_diff(diff: GmailHistoryDiff) -> (r: HistoryDiff)
    ensures
        r.deep_view() == diff_of(diff_content(diff)),
{
    let raw = open_diff(diff);
    let ghost messages = raw.added@;
    let RawDiff { added: mut left, removed, labels_added, labels_removed } = raw;
    let mut added: Vec<GmailMetadata> = Vec::new();
    while left.len() > 0
        invariant
            left@.len() + added@.len() == messages.len(),
            left@ == messages.skip(added@.len() as int),
            forall|j: int|
                0 <= j < added@.len() ==> (#[trigger] added@[j]).deep_view() == message_metadata(
                    messages[j],
                ),
        decreases left@.len(),
    {
        let ghost n = added@.len() as int;
        let message = left.remove(0);
        proof {
            assert(message == messages[n]);
            assert(left@ =~= messages.skip(n + 1));
        }
        added.push(read_message(message));
    }
    proof {
        assert(added.deep_view() =~= metadata_of(messages));
    }
    HistoryDiff { added, removed, labels_added, labels_removed }
}

/// The ids of messages.
pub open spec fn ids_of(messages: Seq<GmailMetadataView>) -> Seq<Seq<char>> {
    messages.map_values(|message: GmailMetadataView| message.id)
}

/// The events of messages that were added.
pub open spec fn added_events(mailbox: Seq<char>, messages: Seq<GmailMetadataView>) -> Seq<WatchEventView> {
    messages.map_values(
        |message: GmailMetadataView|
            WatchEventView::EnvelopeAdded { mailbox, envelope: envelope_of(message) },
    )
}

/// The events of messages that were removed, but for those that were added
/// in the same round.
pub open spec fn removed_events(mailbox: Seq<char>, ids: Seq<Seq<char>>, added: Seq<Seq<char>>) -> Seq<
    WatchEventView,
>
    decreases ids.len(),
{
    if ids.len() == 0 {
        seq![]
    } else {
        let before = removed_events(mailbox, ids.drop_last(), added);
        if added.contains(ids.last()) {
            before
        } else {
            before.push(WatchEventView::EnvelopeRemoved { mailbox, id: ids.last() })
        }
    }
}

/// The flags that labels set (or, not `gained`, unset) where they were added
/// or removed: a label that is a flag's absence counts the other way round.
pub open spec fn moved_flags(labels: Seq<Seq<char>>, label_added: bool, gained: bool) -> Set<Seq<char>>
    decreases labels.len(),
{
    if labels.len() == 0 {
        Set::empty()
    } else {
        let before = moved_flags(labels.drop_last(), label_added, gained);
        match label_flag(labels.last()) {
            Some((flag, inverted)) => if (label_added != inverted) == gained {
                before.insert(flag.spelling())
            } else {
                before
            },
            None => before,
        }
    }
}

/// The events of one message's labels.
pub open spec fn label_events(mailbox: Seq<char>, change: LabelChangeView, label_added: bool) -> Seq<
    WatchEventView,
> {
    let gained = moved_flags(change.label_ids, label_added, true);
    let lost = moved_flags(change.label_ids, label_added, false);
    let first: Seq<WatchEventView> = if gained == Set::<Seq<char>>::empty() {
        seq![]
    } else {
        seq![WatchEventView::FlagsAdded { mailbox, id: change.id, flags: gained }]
    };
    let second: Seq<WatchEventView> = if lost == Set::<Seq<char>>::empty() {
        seq![]
    } else {
        seq![WatchEventView::FlagsRemoved { mailbox, id: change.id, flags: lost }]
    };
    first + second
}

/// The events of changes of labels, but for those of messages that were
/// added in the same round.
pub open spec fn labels_events(
    mailbox: Seq<char>,
    changes: Seq<LabelChangeView>,
    label_added: bool,
    added: Seq<Seq<char>>,
) -> Seq<WatchEventView>
    decreases changes.len(),
{
    if changes.len() == 0 {
        seq![]
    } else {
        let before = labels_events(mailbox, changes.drop_last(), label_added, added);
        if added.contains(changes.last().id) {
            before
        } else {
            before + label_events(mailbox, changes.last(), label_added)
        }
    }
}

/// The events of one round.
pub open spec fn diff_events(mailbox: Seq<char>, diff: HistoryDiffView) -> Seq<WatchEventView> {
    let added = ids_of(diff.added);
    added_events(mailbox, diff.added) + removed_events(mailbox, diff.removed, added)
        + labels_events(mailbox, diff.labels_added, true, added) + labels_events(
        mailbox,
        diff.labels_removed,
        false,
        added,
    )
}

/// The flags that labels set, and those they unset.
fn moved_from(labels: &Vec<String>, label_added: bool) -> (r: (FlagSet, FlagSet))
    ensures
        r.0@ == moved_flags(labels.deep_view(), label_added, true),
        r.1@ == moved_flags(labels.deep_view(), label_added, false),
{
    let ghost all = labels.deep_view();
    let mut gained = FlagSet::new();
    let mut lost = FlagSet::new();
    proof {
        assert(all.take(0) =~= seq![]);
    }
    let mut i: usize = 0;
    while i < labels.len()
        invariant
            i <= labels@.len(),
            all == labels.deep_view(),
            gained@ == moved_flags(all.take(i as int), label_added, true),
            lost@ == moved_flags(all.take(i as int), label_added, false),
        decreases labels@.len() - i,
    {
        proof {
            assert(all.take(i + 1).drop_last() =~= all.take(i as int));
            assert(all.take(i + 1).last() == labels@[i as int]@);
        }
        if let Some((flag, inverted)) = flag_of_label(labels[i].as_str()) {
            if label_added != inverted {
                gained.insert(flag);
            } else {
                lost.insert(flag);
            }
        }
        i = i + 1;
    }
    proof {
        assert(all.take(all.len() as int) =~= all);
    }
    (gained, lost)
}

/// Appends the flag events of one change of labels. Labels that are no flags
/// are ignored.
fn push_flag_events(events: &mut Vec<WatchEvent>, mailbox: &str, change: &LabelChange, label_added: bool)
    ensures
        final(events).deep_view() == old(events).deep_view() + label_events(
            mailbox@,
            change.deep_view(),
            label_added,
        ),
{
    let ghost was = events.deep_view();
    let (gained, lost) = moved_from(&change.label_ids, label_added);
    let first = !gained.is_empty();
    let second = !lost.is_empty();
    let ghost views = (
        WatchEventView::FlagsAdded { mailbox: mailbox@, id: change.id@, flags: gained@ },
        WatchEventView::FlagsRemoved { mailbox: mailbox@, id: change.id@, flags: lost@ },
    );
    if first {
        events.push(
            WatchEvent::FlagsAdded {
                mailbox: mailbox.to_owned(),
                id: change.id.clone(),
                flags: gained,
            },
        );
        proof {
            assert(events.deep_view() =~= was.push(views.0));
        }
    }
    let ghost middle = events.deep_view();
    if second {
        events.push(
            WatchEvent::FlagsRemoved {
                mailbox: mailbox.to_owned(),
                id: change.id.clone(),
                flags: lost,
            },
        );
        proof {
            assert(events.deep_view() =~= middle.push(views.1));
        }
    }
    proof {
        assert(events.deep_view() =~= was + label_events(mailbox@, change.deep_view(), label_added));
    }
}

fn push_label_changes(
    events: &mut Vec<WatchEvent>,
    mailbox: &str,
    changes: &Vec<LabelChange>,
    label_added: bool,
    added: &Vec<String>,
)
    ensures
        final(events).deep_view() == old(events).deep_view() + labels_events(
            mailbox@,
            changes.deep_view(),
            label_added,
            added.deep_view(),
        ),
{
    let ghost was = events.deep_view();
    let ghost all = changes.deep_view();
    let ghost skipped = added.deep_view();
    proof {
        assert(all.take(0) =~= seq![]);
        assert(was + seq![] =~= was);
    }
    let mut i: usize = 0;
    while i < changes.len()
        invariant
            i <= changes@.len(),
            all == changes.deep_view(),
            skipped == added.deep_view(),
            events.deep_view() == was + labels_events(
                mailbox@,
                all.take(i as int),
                label_added,
                skipped,
            ),
        decreases changes@.len() - i,
    {
        let ghost so_far = labels_events(mailbox@, all.take(i as int), label_added, skipped);
        proof {
            assert(all.take(i + 1).drop_last() =~= all.take(i as int));
            assert(all.take(i + 1).last() == changes@[i as int].deep_view());
        }
        if !holds_text(added, changes[i].id.as_str()) {
            push_flag_events(events, mailbox, &changes[i], label_added);
            proof {
                let more = label_events(mailbox@, changes@[i as int].deep_view(), label_added);
                assert(was + so_far + more =~= was + (so_far + more));
            }
        }
        i = i + 1;
    }
    proof {
        assert(all.take(all.len() as int) =~= all);
    }
}

/// Folds one round's changes into the shared events for `mailbox`. Changes
/// of messages added in the same round are left out: their envelopes carry
/// their flags.
pub fn history_diff_to_events(diff: &HistoryDiff, mailbox: &str) -> (r: Vec<WatchEvent>)
    ensures
        r.deep_view() == diff_events(mailbox@, diff.deep_view()),
{
    let mut events: Vec<WatchEvent> = Vec::new();
    let mut ids: Vec<String> = Vec::new();
    let ghost messages = diff.added.deep_view();
    let mut i: usize = 0;
    while i < diff.added.len()
        invariant
            i <= diff.added@.len(),
            messages == diff.added.deep_view(),
            ids@.len() == i,
            events@.len() == i,
            forall|j: int| 0 <= j < i ==> (#[trigger] ids@[j])@ == messages[j].id,
            forall|j: int|
                0 <= j < i ==> (#[trigger] events@[j]).deep_view() == added_events(
                    mailbox@,
                    messages,
                )[j],
        decreases diff.added@.len() - i,
    {
        proof {
            assert(messages[i as int] == diff.added@[i as int].deep_view());
        }
        ids.push(diff.added[i].id.clone());
        events.push(
            WatchEvent::EnvelopeAdded {
                mailbox: mailbox.to_owned(),
                envelope: envelope_from(&diff.added[i]),
            },
        );
        i = i + 1;
    }
    let ghost skipped = ids.deep_view();
    let ghost first = events.deep_view();
    let ghost gone = diff.removed.deep_view();
    proof {
        assert(skipped =~= ids_of(messages));
        assert(first =~= added_events(mailbox@, messages));
        assert(gone.take(0) =~= seq![]);
        assert(first + seq![] =~= first);
    }
    let mut k: usize = 0;
    while k < diff.removed.len()
        invariant
            k <= diff.removed@.len(),
            gone == diff.removed.deep_view(),
            skipped == ids.deep_view(),
            events.deep_view() == first + removed_events(mailbox@, gone.take(k as int), skipped),
        decreases diff.removed@.len() - k,
    {
        let ghost so_far = removed_events(mailbox@, gone.take(k as int), skipped);
        proof {
            assert(gone.take(k + 1).drop_last() =~= gone.take(k as int));
            assert(gone.take(k + 1).last() == diff.removed@[k as int]@);
        }
        if !holds_text(&ids, diff.removed[k].as_str()) {
            let event = WatchEvent::EnvelopeRemoved {
                mailbox: mailbox.to_owned(),
                id: diff.removed[k].clone(),
            };
            let ghost view = event.deep_view();
            let ghost was = events.deep_view();
            events.push(event);
            proof {
                assert(events.deep_view() =~= was.push(view));
                assert(was.push(view) =~= first + so_far.push(view));
            }
        }
        k = k + 1;
    }
    proof {
        assert(gone.take(gone.len() as int) =~= gone);
    }
    push_label_changes(&mut events, mailbox, &diff.labels_added, true, &ids);
    push_label_changes(&mut events, mailbox, &diff.labels_removed, false, &ids);
    events
}

/// The events that are told of one round: a sign of life where nothing
/// changed.
pub fn round_events(diff: GmailHistoryDiff, mailbox: &str) -> (r: Vec<WatchEvent>)
    ensures
        ({
            let events = diff_events(mailbox@, diff_of(diff_content(diff)));
            r.deep_view() == (if events.len() == 0 {
                seq![WatchEventView::KeepAlive]
            } else {
                events
            })
        }),
{
    let diff = read_diff(diff);
    let mut events = history_diff_to_events(&diff, mailbox);
    if events.len() == 0 {
        events.push(WatchEvent::KeepAlive);
        proof {
            assert(events.deep_view() =~= seq![WatchEventView::KeepAlive]);
        }
    }
    events
}

/// Whether an event is about a message that was added or removed, or about
/// the flags of one.
pub open spec fn concerns(event: WatchEventView, id: Seq<char>) -> bool {
    match event {
        WatchEventView::EnvelopeAdded { mailbox, envelope } => envelope.id == id,
        WatchEventView::EnvelopeRemoved { mailbox, id: own } => own == id,
        WatchEventView::FlagsAdded { mailbox, id: own, flags } => own == id,
        WatchEventView::FlagsRemoved { mailbox, id: own, flags } => own == id,
        WatchEventView::KeepAlive => false,
    }
}

proof fn lemma_removed_apart(mailbox: Seq<char>, ids: Seq<Seq<char>>, added: Seq<Seq<char>>, id: Seq<char>)
    requires
        added.contains(id),
    ensures
        forall|i: int|
            0 <= i < removed_events(mailbox, ids, added).len() ==> !concerns(
                #[trigger] removed_events(mailbox, ids, added)[i],
                id,
            ),
    decreases ids.len(),
{
    if ids.len() > 0 {
        let before = removed_events(mailbox, ids.drop_last(), added);
        let all = removed_events(mailbox, ids, added);
        lemma_removed_apart(mailbox, ids.drop_last(), added, id);
        assert forall|i: int| 0 <= i < all.len() implies !concerns(#[trigger] all[i], id) by {
            if i < before.len() {
                assert(all[i] == before[i]);
            }
        }
    }
}

proof fn lemma_labels_apart(
    mailbox: Seq<char>,
    changes: Seq<LabelChangeView>,
    label_added: bool,
    added: Seq<Seq<char>>,
    id: Seq<char>,
)
    requires
        added.contains(id),
    ensures
        forall|i: int|
            0 <= i < labels_events(mailbox, changes, label_added, added).len() ==> !concerns(
                #[trigger] labels_events(mailbox, changes, label_added, added)[i],
                id,
            ),
    decreases changes.len(),
{
    if changes.len() > 0 {
        let before = labels_events(mailbox, changes.drop_last(), label_added, added);
        let all = labels_events(mailbox, changes, label_added, added);
        lemma_labels_apart(mailbox, changes.drop_last(), label_added, added, id);
        assert forall|i: int| 0 <= i < all.len() implies !concerns(#[trigger] all[i], id) by {
            if i < before.len() {
                assert(all[i] == before[i]);
            } else {
                let more = label_events(mailbox, changes.last(), label_added);
                assert(all[i] == more[i - before.len()]);
            }
        }
    }
}

/// A message that was added in a round is told of by its envelope alone:
/// no later event of the round is about it.
pub proof fn law_added_told_once(mailbox: Seq<char>, diff: HistoryDiffView, id: Seq<char>, i: int)
    requires
        ids_of(diff.added).contains(id),
        diff.added.len() <= i < diff_events(mailbox, diff).len(),
    ensures
        !concerns(diff_events(mailbox, diff)[i], id),
{
    let added = ids_of(diff.added);
    let a = added_events(mailbox, diff.added);
    let b = removed_events(mailbox, diff.removed, added);
    let c = labels_events(mailbox, diff.labels_added, true, added);
    let d = labels_events(mailbox, diff.labels_removed, false, added);
    lemma_removed_apart(mailbox, diff.removed, added, id);
    lemma_labels_apart(mailbox, diff.labels_added, true, added, id);
    lemma_labels_apart(mailbox, diff.labels_removed, false, added, id);
    let all = a + b + c + d;
    assert(all == diff_events(mailbox, diff));
    if i < a.len() + b.len() {
        assert(all[i] == b[i - a.len()]);
    } else if i < a.len() + b.len() + c.len() {
        assert(all[i] == c[i - a.len() - b.len()]);
    } else {
        assert(all[i] == d[i - a.len() - b.len() - c.len()]);
    }
}

/// The labels of a message after some were put on or taken off.
pub open spec fn relabelled(labels: Set<Seq<char>>, ids: Seq<Seq<char>>, put_on: bool) -> Set<Seq<char>> {
    if put_on {
        labels.union(ids.to_set())
    } else {
        labels.difference(ids.to_set())
    }
}

proof fn lemma_moved(labels: Seq<Seq<char>>, label_added: bool, gained: bool, t: Seq<char>)
    ensures
        moved_flags(labels, label_added, gained).contains(t) <==> exists|i: int|
            0 <= i < labels.len() && (label_flag(#[trigger] labels[i]) matches Some((flag, inverted))
                && flag.spelling() == t && (label_added != inverted) == gained),
    decreases labels.len(),
{
    if labels.len() > 0 {
        let most = labels.drop_last();
        lemma_moved(most, label_added, gained, t);
        assert(labels[labels.len() - 1] == labels.last());
        if moved_flags(most, label_added, gained).contains(t) {
            let i = choose|i: int|
                0 <= i < most.len() && (label_flag(#[trigger] most[i]) matches Some((flag, inverted))
                    && flag.spelling() == t && (label_added != inverted) == gained);
            assert(labels[i] == most[i]);
        }
        if exists|i: int|
            0 <= i < labels.len() && (label_flag(#[trigger] labels[i]) matches Some((flag, inverted))
                && flag.spelling() == t && (label_added != inverted) == gained) {
            let i = choose|i: int|
                0 <= i < labels.len() && (label_flag(#[trigger] labels[i]) matches Some((flag, inverted))
                    && flag.spelling() == t && (label_added != inverted) == gained);
            if i < most.len() {
                assert(most[i] == labels[i]);
            }
        }
    }
}

proof fn lemma_moved_flag(labels: Seq<Seq<char>>, label_added: bool, gained: bool, flag: IanaFlag)
    requires
        has_label(flag),
    ensures
        flag_label(flag.spelling()) matches Some((label, inverted)) && (moved_flags(
            labels,
            label_added,
            gained,
        ).contains(flag.spelling()) <==> labels.contains(label) && (label_added != inverted) == gained),
{
    let (label, inverted) = flag_label(flag.spelling())->0;
    law_label_and_flag(label, flag, inverted);
    lemma_moved(labels, label_added, gained, flag.spelling());
    if moved_flags(labels, label_added, gained).contains(flag.spelling()) {
        let i = choose|i: int|
            0 <= i < labels.len() && (label_flag(#[trigger] labels[i]) matches Some((own, inv))
                && own.spelling() == flag.spelling() && (label_added != inv) == gained);
        let (own, inv) = label_flag(labels[i])->0;
        lemma_spellings_differ(own, flag);
        law_label_and_flag(labels[i], flag, inv);
        assert(labels.contains(labels[i]));
    }
    if labels.contains(label) && (label_added != inverted) == gained {
        let i = choose|i: int| 0 <= i < labels.len() && labels[i] == label;
        assert(label_flag(labels[i]) == Some((flag, inverted)));
    }
}

proof fn lemma_moved_no_other(labels: Seq<Seq<char>>, label_added: bool, gained: bool, t: Seq<char>)
    requires
        moved_flags(labels, label_added, gained).contains(t),
    ensures
        exists|flag: IanaFlag| #[trigger] has_label(flag) && flag.spelling() == t,
{
    lemma_moved(labels, label_added, gained, t);
    let i = choose|i: int|
        0 <= i < labels.len() && (label_flag(#[trigger] labels[i]) matches Some((flag, inverted))
            && flag.spelling() == t && (label_added != inverted) == gained);
    let (flag, inverted) = label_flag(labels[i])->0;
    law_label_and_flag(labels[i], flag, inverted);
    assert(has_label(flag));
}

proof fn lemma_label_flags_no_other(labels: Set<Seq<char>>, t: Seq<char>)
    requires
        label_flags(labels).contains(t),
    ensures
        exists|flag: IanaFlag| #[trigger] has_label(flag) && flag.spelling() == t,
{
    law_spelling_parses_back(IanaFlag::Seen);
    law_spelling_parses_back(IanaFlag::Flagged);
    law_spelling_parses_back(IanaFlag::Important);
    law_spelling_parses_back(IanaFlag::Draft);
    law_spelling_parses_back(IanaFlag::Junk);
    assert(has_label(IanaFlag::Seen) && has_label(IanaFlag::Flagged) && has_label(IanaFlag::Important)
        && has_label(IanaFlag::Draft) && has_label(IanaFlag::Junk));
}

proof fn lemma_relabelled_flags(labels: Set<Seq<char>>, ids: Seq<Seq<char>>, put_on: bool)
    ensures
        label_flags(labels).union(moved_flags(ids, put_on, true)).difference(
            moved_flags(ids, put_on, false),
        ) == label_flags(relabelled(labels, ids, put_on)),
{
    let gained = moved_flags(ids, put_on, true);
    let lost = moved_flags(ids, put_on, false);
    let old = label_flags(labels);
    let after = relabelled(labels, ids, put_on);
    let now = old.union(gained).difference(lost);
    assert forall|t: Seq<char>| now.contains(t) == label_flags(after).contains(t) by {
        if exists|flag: IanaFlag| #[trigger] has_label(flag) && flag.spelling() == t {
            let flag = choose|flag: IanaFlag| #[trigger] has_label(flag) && flag.spelling() == t;
            lemma_label_flags(labels, flag);
            lemma_label_flags(after, flag);
            lemma_moved_flag(ids, put_on, true, flag);
            lemma_moved_flag(ids, put_on, false, flag);
        } else {
            if now.contains(t) {
                if old.contains(t) {
                    lemma_label_flags_no_other(labels, t);
                } else {
                    lemma_moved_no_other(ids, put_on, true, t);
                }
            }
            if label_flags(after).contains(t) {
                lemma_label_flags_no_other(after, t);
            }
        }
    }
    assert(now =~= label_flags(after));
}

/// The events of a change of labels, replayed on the flags that the old
/// labels say, give the flags that the new labels say; no other message is
/// touched.
pub proof fn law_label_events_replay(
    mailbox: Seq<char>,
    change: LabelChangeView,
    put_on: bool,
    labels: Set<Seq<char>>,
    flags: Map<Seq<char>, Set<Seq<char>>>,
)
    requires
        flags.dom().contains(change.id),
        flags[change.id] == label_flags(labels),
    ensures
        all_applied(flags, label_events(mailbox, change, put_on)) == flags.insert(
            change.id,
            label_flags(relabelled(labels, change.label_ids, put_on)),
        ),
{
    let id = change.id;
    let gained = moved_flags(change.label_ids, put_on, true);
    let lost = moved_flags(change.label_ids, put_on, false);
    let none = Set::<Seq<char>>::empty();
    let events = label_events(mailbox, change, put_on);
    let first: Seq<WatchEventView> = if gained == none {
        seq![]
    } else {
        seq![WatchEventView::FlagsAdded { mailbox, id, flags: gained }]
    };
    let second: Seq<WatchEventView> = if lost == none {
        seq![]
    } else {
        seq![WatchEventView::FlagsRemoved { mailbox, id, flags: lost }]
    };
    lemma_relabelled_flags(labels, change.label_ids, put_on);
    lemma_applied_in_turn(flags, first, second);
    assert(events =~= first + second);
    let mid = all_applied(flags, first);
    if gained == none {
        assert(flags[id].union(gained) =~= flags[id]);
        assert(mid =~= flags.insert(id, flags[id].union(gained)));
    } else {
        assert(first.drop_last() =~= seq![]);
        assert(all_applied(flags, first.drop_last()) == flags);
        assert(mid =~= flags.insert(id, flags[id].union(gained)));
    }
    let end = all_applied(mid, second);
    if lost == none {
        assert(mid[id].difference(lost) =~= mid[id]);
        assert(end =~= mid.insert(id, mid[id].difference(lost)));
    } else {
        assert(second.drop_last() =~= seq![]);
        assert(all_applied(mid, second.drop_last()) == mid);
        assert(end =~= mid.insert(id, mid[id].difference(lost)));
    }
    assert(end =~= flags.insert(id, flags[id].union(gained).difference(lost)));
}

/// A flag's label that is put on sets the flag and one that is taken off
/// unsets it; for the label of unread messages it is the other way round.
pub proof fn law_label_moves_its_flag(ids: Seq<Seq<char>>, put_on: bool, label: Seq<char>)
    requires
        ids.contains(label),
        label_flag(label) is Some,
    ensures
        label_flag(label) matches Some((flag, _)) && {
            let sets = put_on != (label == "UNREAD"@);
            &&& sets ==> moved_flags(ids, put_on, true).contains(flag.spelling())
            &&& sets ==> !moved_flags(ids, put_on, false).contains(flag.spelling())
            &&& !sets ==> moved_flags(ids, put_on, false).contains(flag.spelling())
            &&& !sets ==> !moved_flags(ids, put_on, true).contains(flag.spelling())
        },
{
    let (flag, inverted) = label_flag(label)->0;
    law_label_and_flag(label, flag, inverted);
    lemma_moved_flag(ids, put_on, true, flag);
    lemma_moved_flag(ids, put_on, false, flag);
    assert(inverted <==> label == "UNREAD"@);
}

/// The labels of one message after all its changes in a list.
pub open spec fn relabelled_by(
    labels: Set<Seq<char>>,
    changes: Seq<LabelChangeView>,
    id: Seq<char>,
    put_on: bool,
) -> Set<Seq<char>>
    decreases changes.len(),
{
    if changes.len() == 0 {
        labels
    } else {
        let before = relabelled_by(labels, changes.drop_last(), id, put_on);
        if changes.last().id == id {
            relabelled(before, changes.last().label_ids, put_on)
        } else {
            before
        }
    }
}

proof fn lemma_others_untouched(
    flags: Map<Seq<char>, Set<Seq<char>>>,
    events: Seq<WatchEventView>,
    id: Seq<char>,
)
    requires
        forall|i: int| 0 <= i < events.len() ==> !concerns(#[trigger] events[i], id),
    ensures
        all_applied(flags, events).dom().contains(id) == flags.dom().contains(id),
        flags.dom().contains(id) ==> all_applied(flags, events)[id] == flags[id],
    decreases events.len(),
{
    if events.len() > 0 {
        let most = events.drop_last();
        assert forall|i: int| 0 <= i < most.len() implies !concerns(#[trigger] most[i], id) by {
            assert(most[i] == events[i]);
        }
        lemma_others_untouched(flags, most, id);
        assert(!concerns(events[events.len() - 1], id));
    }
}

proof fn lemma_label_list_replays(
    mailbox: Seq<char>,
    changes: Seq<LabelChangeView>,
    put_on: bool,
    added: Seq<Seq<char>>,
    labels: Set<Seq<char>>,
    flags: Map<Seq<char>, Set<Seq<char>>>,
    id: Seq<char>,
)
    requires
        flags.dom().contains(id),
        flags[id] == label_flags(labels),
        !added.contains(id),
    ensures
        all_applied(flags, labels_events(mailbox, changes, put_on, added)).dom().contains(id),
        all_applied(flags, labels_events(mailbox, changes, put_on, added))[id] == label_flags(
            relabelled_by(labels, changes, id, put_on),
        ),
    decreases changes.len(),
{
    if changes.len() > 0 {
        let most = changes.drop_last();
        let last = changes.last();
        lemma_label_list_replays(mailbox, most, put_on, added, labels, flags, id);
        let before = labels_events(mailbox, most, put_on, added);
        let mid = all_applied(flags, before);
        if !added.contains(last.id) {
            let more = label_events(mailbox, last, put_on);
            lemma_applied_in_turn(flags, before, more);
            if last.id == id {
                law_label_events_replay(
                    mailbox,
                    last,
                    put_on,
                    relabelled_by(labels, most, id, put_on),
                    mid,
                );
            } else {
                lemma_others_untouched(mid, more, id);
            }
        }
    }
}

proof fn lemma_removed_others(mailbox: Seq<char>, ids: Seq<Seq<char>>, added: Seq<Seq<char>>, id: Seq<char>)
    requires
        !ids.contains(id),
    ensures
        forall|i: int|
            0 <= i < removed_events(mailbox, ids, added).len() ==> !concerns(
                #[trigger] removed_events(mailbox, ids, added)[i],
                id,
            ),
    decreases ids.len(),
{
    if ids.len() > 0 {
        let most = ids.drop_last();
        assert(!most.contains(id)) by {
            if most.contains(id) {
                let k = choose|k: int| 0 <= k < most.len() && most[k] == id;
                assert(ids[k] == id);
            }
        }
        assert(ids[ids.len() - 1] != id);
        lemma_removed_others(mailbox, most, added, id);
        let before = removed_events(mailbox, most, added);
        let all = removed_events(mailbox, ids, added);
        assert forall|i: int| 0 <= i < all.len() implies !concerns(#[trigger] all[i], id) by {
            if i < before.len() {
                assert(all[i] == before[i]);
            }
        }
    }
}

/// The events of a round, replayed on the flags that a message had by its
/// labels, give the flags that it has by its labels after the round: those
/// put on, then without those taken off.
pub proof fn law_round_replays(
    mailbox: Seq<char>,
    diff: HistoryDiffView,
    id: Seq<char>,
    labels: Set<Seq<char>>,
    flags: Map<Seq<char>, Set<Seq<char>>>,
)
    requires
        flags.dom().contains(id),
        flags[id] == label_flags(labels),
        !ids_of(diff.added).contains(id),
        !diff.removed.contains(id),
    ensures
        all_applied(flags, diff_events(mailbox, diff)).dom().contains(id),
        all_applied(flags, diff_events(mailbox, diff))[id] == label_flags(
            relabelled_by(
                relabelled_by(labels, diff.labels_added, id, true),
                diff.labels_removed,
                id,
                false,
            ),
        ),
{
    let added = ids_of(diff.added);
    let a = added_events(mailbox, diff.added);
    let b = removed_events(mailbox, diff.removed, added);
    let c = labels_events(mailbox, diff.labels_added, true, added);
    let d = labels_events(mailbox, diff.labels_removed, false, added);
    assert forall|i: int| 0 <= i < a.len() implies !concerns(#[trigger] a[i], id) by {
        assert(added[i] == diff.added[i].id);
        assert(envelope_of(diff.added[i]).id == diff.added[i].id);
        assert(added.contains(added[i]));
    }
    lemma_removed_others(mailbox, diff.removed, added, id);
    lemma_applied_in_turn(flags, a + b + c, d);
    lemma_applied_in_turn(flags, a + b, c);
    lemma_applied_in_turn(flags, a, b);
    lemma_others_untouched(flags, a, id);
    let one = all_applied(flags, a);
    lemma_others_untouched(one, b, id);
    let two = all_applied(one, b);
    lemma_label_list_replays(mailbox, diff.labels_added, true, added, labels, two, id);
    lemma_label_list_replays(
        mailbox,
        diff.labels_removed,
        false,
        added,
        relabelled_by(labels, diff.labels_added, id, true),
        all_applied(two, c),
        id,
    );
}

proof fn lemma_removed_told(mailbox: Seq<char>, ids: Seq<Seq<char>>, added: Seq<Seq<char>>)
    ensures
        removed_events(mailbox, ids, added) == ids.filter(
            |id: Seq<char>| !added.contains(id),
        ).map_values(|id: Seq<char>| WatchEventView::EnvelopeRemoved { mailbox, id }),
    decreases ids.len(),
{
    reveal(Seq::filter);
    let keep = |id: Seq<char>| !added.contains(id);
    let tell = |id: Seq<char>| WatchEventView::EnvelopeRemoved { mailbox, id };
    if ids.len() == 0 {
        assert(removed_events(mailbox, ids, added) =~= ids.filter(keep).map_values(tell));
    } else {
        lemma_removed_told(mailbox, ids.drop_last(), added);
        let before = ids.drop_last().filter(keep);
        assert(before.push(ids.last()).map_values(tell) =~= before.map_values(tell).push(
            tell(ids.last()),
        ));
    }
}

/// A round tells of every message that was added, with its envelope, and
/// then of every message that was removed and not added, each in its order
/// and under the watched mailbox.
pub proof fn law_round_tells_all(mailbox: Seq<char>, diff: HistoryDiffView)
    ensures
        ({
            let gone = diff.removed.filter(|id: Seq<char>| !ids_of(diff.added).contains(id));
            let events = diff_events(mailbox, diff);
            &&& events.len() >= diff.added.len() + gone.len()
            &&& forall|i: int|
                0 <= i < diff.added.len() ==> #[trigger] events[i] == (WatchEventView::EnvelopeAdded {
                    mailbox,
                    envelope: envelope_of(diff.added[i]),
                })
            &&& forall|i: int|
                0 <= i < gone.len() ==> #[trigger] events[diff.added.len() + i]
                    == (WatchEventView::EnvelopeRemoved { mailbox, id: gone[i] })
        }),
{
    lemma_removed_told(mailbox, diff.removed, ids_of(diff.added));
}

/// Reading one round's changes keeps them apart: what was added stays added,
/// in its place, what was removed removed, and labels that came or went stay
/// with theirs.
pub proof fn law_round_is_read_whole(raw: RawDiffView)
    ensures
        ({
            let diff = diff_of(raw);
            &&& diff.added.len() == raw.added.len()
            &&& forall|i: int|
                0 <= i < raw.added.len() ==> #[trigger] diff.added[i] == message_metadata(raw.added[i])
            &&& diff.removed == raw.removed
            &&& diff.labels_added == raw.labels_added
            &&& diff.labels_removed == raw.labels_removed
        }),
{
}

} // verus!
