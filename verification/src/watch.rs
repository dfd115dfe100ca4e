//! What changed between two snapshots of a mailbox.
use vstd::prelude::*;

use crate::envelope::{Envelope, EnvelopeView};
use crate::event::{WatchEvent, WatchEventView};
use crate::text::{before, is_before, lemma_before_total, lemma_before_trans, same_text};

verus! {

/// Whether envelopes stand in the order of their ids, none twice.
pub open spec fn ordered(list: Seq<EnvelopeView>) -> bool {
    forall|i: int, j: int|
        0 <= i < j < list.len() ==> before((#[trigger] list[i]).id, (#[trigger] list[j]).id)
}

/// Where the envelope with an id stands, if there is one.
pub open spec fn lookup(list: Seq<EnvelopeView>, id: Seq<char>) -> Option<EnvelopeView>
    decreases list.len(),
{
    if list.len() == 0 {
        None
    } else if list.last().id == id {
        Some(list.last())
    } else {
        lookup(list.drop_last(), id)
    }
}

/// A snapshot with one more envelope, in the place of one with the same id.
pub open spec fn put(list: Seq<EnvelopeView>, envelope: EnvelopeView) -> Seq<EnvelopeView>
    decreases list.len(),
{
    if list.len() == 0 || before(list.last().id, envelope.id) {
        list.push(envelope)
    } else if list.last().id == envelope.id {
        list.drop_last().push(envelope)
    } else {
        put(list.drop_last(), envelope).push(list.last())
    }
}

/// A snapshot of some envelopes; of those with the same id the last counts.
pub open spec fn snapshot(envelopes: Seq<EnvelopeView>) -> Seq<EnvelopeView>
    decreases envelopes.len(),
{
    if envelopes.len() == 0 {
        seq![]
    } else {
        put(snapshot(envelopes.drop_last()), envelopes.last())
    }
}

/// The ids of envelopes.
pub open spec fn ids_of(list: Seq<EnvelopeView>) -> Seq<Seq<char>> {
    list.map_values(|envelope: EnvelopeView| envelope.id)
}

/// A snapshot without the envelope that has an id.
pub open spec fn without(list: Seq<EnvelopeView>, id: Seq<char>) -> Seq<EnvelopeView>
    decreases list.len(),
{
    if list.len() == 0 {
        list
    } else if list.last().id == id {
        list.drop_last()
    } else {
        without(list.drop_last(), id).push(list.last())
    }
}

/// What taking an envelope out of a snapshot does, when its place is known.
proof fn lemma_without(list: Seq<EnvelopeView>, id: Seq<char>, i: int)
    requires
        0 <= i < list.len(),
        list[i].id == id,
        forall|j: int| i < j < list.len() ==> (#[trigger] list[j]).id != id,
    ensures
        without(list, id) == list.remove(i),
    decreases list.len(),
{
    if i == list.len() - 1 {
        assert(list.drop_last() =~= list.remove(i));
    } else {
        assert(list.last() == list[list.len() - 1]);
        lemma_without(list.drop_last(), id, i);
        assert(list.drop_last().remove(i).push(list.last()) =~= list.remove(i));
    }
}

/// A snapshot is the same without an envelope that it does not have.
proof fn lemma_without_absent(list: Seq<EnvelopeView>, id: Seq<char>)
    requires
        lookup(list, id) is None,
    ensures
        without(list, id) == list,
    decreases list.len(),
{
    if list.len() > 0 {
        lemma_without_absent(list.drop_last(), id);
        assert(list.drop_last().push(list.last()) =~= list);
    }
}

/// The envelopes of a mailbox at one time, in the order of their ids.
#[derive(Debug)]
pub struct Shadow {
    entries: Vec<Envelope>,
}

impl View for Shadow {
    type V = Seq<EnvelopeView>;

    closed spec fn view(&self) -> Seq<EnvelopeView> {
        self.entries.deep_view()
    }
}

/// What putting an envelope into a snapshot does, when its place is known.
proof fn lemma_put(list: Seq<EnvelopeView>, envelope: EnvelopeView, i: int)
    requires
        ordered(list),
        0 <= i <= list.len(),
        forall|j: int| 0 <= j < i ==> before((#[trigger] list[j]).id, envelope.id),
        i < list.len() ==> !before(list[i].id, envelope.id),
    ensures
        put(list, envelope) == (if i < list.len() && list[i].id == envelope.id {
            list.update(i, envelope)
        } else {
            list.insert(i, envelope)
        }),
    decreases list.len(),
{
    if list.len() == 0 {
        assert(list.push(envelope) =~= list.insert(0, envelope));
    } else {
        let last = list.last();
        assert(last == list[list.len() - 1]);
        if i == list.len() {
            assert(before(last.id, envelope.id));
            assert(list.push(envelope) =~= list.insert(i, envelope));
        } else {
            lemma_before_total(list[i].id, envelope.id);
            if i < list.len() - 1 {
                assert(before(list[i].id, last.id));
                if list[i].id != envelope.id {
                    lemma_before_trans(envelope.id, list[i].id, last.id);
                }
            }
            lemma_before_total(last.id, envelope.id);
            if last.id == envelope.id {
                if i < list.len() - 1 {
                    assert(false);
                }
                assert(list.drop_last().push(envelope) =~= list.update(i, envelope));
            } else {
                let most = list.drop_last();
                assert(ordered(most));
                lemma_put(most, envelope, i);
                if i < most.len() && most[i].id == envelope.id {
                    assert(most.update(i, envelope).push(last) =~= list.update(i, envelope));
                } else {
                    assert(most.insert(i, envelope).push(last) =~= list.insert(i, envelope));
                }
            }
        }
    }
}

/// A snapshot with one more envelope is in order too.
pub proof fn lemma_put_ordered(list: Seq<EnvelopeView>, envelope: EnvelopeView, i: int)
    requires
        ordered(list),
        0 <= i <= list.len(),
        forall|j: int| 0 <= j < i ==> before((#[trigger] list[j]).id, envelope.id),
        i < list.len() ==> !before(list[i].id, envelope.id),
    ensures
        ordered(put(list, envelope)),
{
    lemma_put(list, envelope, i);
    let now = put(list, envelope);
    if i < list.len() {
        lemma_before_total(list[i].id, envelope.id);
    }
    if i < list.len() && list[i].id == envelope.id {
        assert forall|j: int, k: int| 0 <= j < k < now.len() implies before(
            (#[trigger] now[j]).id,
            (#[trigger] now[k]).id,
        ) by {
            assert(before(list[j].id, list[k].id));
        }
    } else {
        assert forall|j: int, k: int| 0 <= j < k < now.len() implies before(
            (#[trigger] now[j]).id,
            (#[trigger] now[k]).id,
        ) by {
            let j0 = if j < i {
                j
            } else {
                j - 1
            };
            let k0 = if k < i {
                k
            } else {
                k - 1
            };
            if j == i {
                if k0 > i {
                    assert(before(list[i].id, list[k0].id));
                    lemma_before_trans(envelope.id, list[i].id, list[k0].id);
                }
            } else if k == i {
                assert(list[j].id == now[j].id);
            } else {
                assert(before(list[j0].id, list[k0].id));
            }
        }
    }
}

impl Shadow {
    #[verifier::type_invariant]
    closed spec fn inv(self) -> bool {
        ordered(self.entries.deep_view())
    }

    /// An empty snapshot.
    pub fn new() -> (r: Shadow)
        ensures
            r@ == Seq::<EnvelopeView>::empty(),
    {
        let entries: Vec<Envelope> = Vec::new();
        proof {
            assert(entries.deep_view() =~= seq![]);
        }
        Shadow { entries }
    }

    /// A snapshot is in order.
    pub fn as_vec(&self) -> (r: &Vec<Envelope>)
        ensures
            r.deep_view() == self@,
            ordered(self@),
    {
        proof {
            use_type_invariant(self);
        }
        &self.entries
    }

    /// Puts an envelope into the snapshot.
    pub fn put(&mut self, envelope: Envelope)
        ensures
            final(self)@ == put(old(self)@, envelope.deep_view()),
    {
        proof {
            use_type_invariant(&*self);
        }
        let ghost was = self@;
        let ghost new = envelope.deep_view();
        let mut i: usize = 0;
        while i < self.entries.len() && is_before(&self.entries[i].id, &envelope.id)
            invariant
                i <= self.entries@.len(),
                was == self.entries.deep_view(),
                new == envelope.deep_view(),
                forall|j: int| 0 <= j < i ==> before((#[trigger] was[j]).id, new.id),
            decreases self.entries@.len() - i,
        {
            proof {
                assert(was[i as int] == self.entries@[i as int].deep_view());
            }
            i = i + 1;
        }
        proof {
            if i < self.entries@.len() {
                assert(was[i as int] == self.entries@[i as int].deep_view());
            }
            lemma_put(was, new, i as int);
            lemma_put_ordered(was, new, i as int);
        }
        let mut entries: Vec<Envelope> = Vec::new();
        core::mem::swap(&mut self.entries, &mut entries);
        if i < entries.len() && same_text(&entries[i].id, &envelope.id) {
            entries[i] = envelope;
            proof {
                assert(entries.deep_view() =~= was.update(i as int, new));
            }
        } else {
            entries.insert(i, envelope);
            proof {
                assert(entries.deep_view() =~= was.insert(i as int, new));
            }
        }
        self.entries = entries;
    }

    /// A snapshot of some envelopes.
    pub fn of(envelopes: Vec<Envelope>) -> (r: Shadow)
        ensures
            r@ == snapshot(envelopes.deep_view()),
    {
        let ghost all = envelopes.deep_view();
        let mut out = Shadow::new();
        proof {
            assert(all.subrange(0, 0) =~= seq![]);
        }
        let mut i: usize = 0;
        while i < envelopes.len()
            invariant
                i <= envelopes@.len(),
                all == envelopes.deep_view(),
                out@ == snapshot(all.subrange(0, i as int)),
            decreases envelopes@.len() - i,
        {
            proof {
                assert(all.subrange(0, i + 1).drop_last() =~= all.subrange(0, i as int));
                assert(all.subrange(0, i + 1).last() == envelopes@[i as int].deep_view());
            }
            out.put(envelopes[i].clone());
            i = i + 1;
        }
        proof {
            assert(all.subrange(0, all.len() as int) =~= all);
        }
        out
    }

    /// Takes the envelope that has an id out of the snapshot, and tells
    /// whether there was one.
    pub fn remove(&mut self, id: &str) -> (r: bool)
        ensures
            r == (lookup(old(self)@, id@) is Some),
            final(self)@ == without(old(self)@, id@),
    {
        proof {
            use_type_invariant(&*self);
        }
        let ghost was = self@;
        match self.find(id) {
            Some(i) => {
                let mut entries: Vec<Envelope> = Vec::new();
                core::mem::swap(&mut self.entries, &mut entries);
                let _ = entries.remove(i);
                proof {
                    assert(entries.deep_view() =~= was.remove(i as int));
                    assert forall|j: int| i < j < was.len() implies (#[trigger] was[j]).id != id@ by {
                        assert(before(was[i as int].id, was[j].id));
                        lemma_before_total(was[i as int].id, was[j].id);
                    }
                    lemma_without(was, id@, i as int);
                    let now = was.remove(i as int);
                    assert forall|j: int, k: int| 0 <= j < k < now.len() implies before(
                        (#[trigger] now[j]).id,
                        (#[trigger] now[k]).id,
                    ) by {
                        let j0 = if j < i {
                            j
                        } else {
                            j + 1
                        };
                        let k0 = if k < i {
                            k
                        } else {
                            k + 1
                        };
                        assert(before(was[j0].id, was[k0].id));
                    }
                }
                self.entries = entries;
                true
            },
            None => {
                proof {
                    lemma_without_absent(was, id@);
                }
                false
            },
        }
    }

    /// The ids in the snapshot, in their order.
    pub fn ids(&self) -> (r: Vec<String>)
        ensures
            r.deep_view() == ids_of(self@),
    {
        let mut out: Vec<String> = Vec::new();
        let mut i: usize = 0;
        while i < self.entries.len()
            invariant
                i <= self.entries@.len(),
                out@.len() == i,
                forall|j: int|
                    0 <= j < i ==> (#[trigger] out@[j])@ == self.entries@[j].deep_view().id,
            decreases self.entries@.len() - i,
        {
            out.push(self.entries[i].id.clone());
            i = i + 1;
        }
        proof {
            assert(out.deep_view() =~= ids_of(self@));
        }
        out
    }

    /// Where the envelope with an id stands in the snapshot.
    pub fn find(&self, id: &str) -> (r: Option<usize>)
        ensures
            match r {
                Some(i) => i < self@.len() && self@[i as int].id == id@ && lookup(self@, id@) == Some(
                    self@[i as int],
                ),
                None => lookup(self@, id@) is None,
            },
    {
        let ghost all = self@;
        let mut n: usize = self.entries.len();
        proof {
            assert(all.subrange(0, n as int) =~= all);
        }
        while n > 0
            invariant
                n <= self.entries@.len(),
                all == self.entries.deep_view(),
                lookup(all, id@) == lookup(all.subrange(0, n as int), id@),
            decreases n,
        {
            proof {
                assert(all.subrange(0, n as int).last() == self.entries@[n - 1].deep_view());
                assert(all.subrange(0, n as int).drop_last() =~= all.subrange(0, n - 1));
            }
            if same_text(&self.entries[n - 1].id, id) {
                return Some(n - 1);
            }
            n = n - 1;
        }
        None
    }
}

/// What happened to one message of the new snapshot: it is new, or flags of
/// it were set or unset.
pub open spec fn entry_events(mailbox: Seq<char>, old: Seq<EnvelopeView>, entry: EnvelopeView) -> Seq<
    WatchEventView,
> {
    match lookup(old, entry.id) {
        None => seq![WatchEventView::EnvelopeAdded { mailbox, envelope: entry }],
        Some(was) => flag_events(mailbox, entry.id, was.flags, entry.flags),
    }
}

/// The flags set and those unset, each where there are any.
pub open spec fn flag_events(
    mailbox: Seq<char>,
    id: Seq<char>,
    was: Set<Seq<char>>,
    now: Set<Seq<char>>,
) -> Seq<WatchEventView> {
    let added = now.difference(was);
    let removed = was.difference(now);
    let first = if added == Set::<Seq<char>>::empty() {
        seq![]
    } else {
        seq![WatchEventView::FlagsAdded { mailbox, id, flags: added }]
    };
    if removed == Set::<Seq<char>>::empty() {
        first
    } else {
        first.push(WatchEventView::FlagsRemoved { mailbox, id, flags: removed })
    }
}

/// What happened to the messages of the new snapshot, in their order.
pub open spec fn kept_events(mailbox: Seq<char>, old: Seq<EnvelopeView>, new: Seq<EnvelopeView>) -> Seq<
    WatchEventView,
>
    decreases new.len(),
{
    if new.len() == 0 {
        seq![]
    } else {
        kept_events(mailbox, old, new.drop_last()) + entry_events(mailbox, old, new.last())
    }
}

/// The messages that are gone, in their order in the old snapshot.
pub open spec fn gone_events(mailbox: Seq<char>, old: Seq<EnvelopeView>, new: Seq<EnvelopeView>) -> Seq<
    WatchEventView,
>
    decreases old.len(),
{
    if old.len() == 0 {
        seq![]
    } else {
        let rest = gone_events(mailbox, old.drop_last(), new);
        if lookup(new, old.last().id) is None {
            rest.push(WatchEventView::EnvelopeRemoved { mailbox, id: old.last().id })
        } else {
            rest
        }
    }
}

/// What changed between two snapshots.
pub open spec fn changes(mailbox: Seq<char>, old: Seq<EnvelopeView>, new: Seq<EnvelopeView>) -> Seq<
    WatchEventView,
> {
    kept_events(mailbox, old, new) + gone_events(mailbox, old, new)
}

/// Appends the events of one message of the new snapshot.
pub fn push_entry(out: &mut Vec<WatchEvent>, mailbox: &str, past: &Shadow, entry: &Envelope)
    ensures
        final(out).deep_view() == old(out).deep_view() + entry_events(
            mailbox@,
            past@,
            entry.deep_view(),
        ),
{
    let ghost was = out.deep_view();
    let ghost events = entry_events(mailbox@, past@, entry.deep_view());
    match past.find(&entry.id) {
        None => {
            out.push(
                WatchEvent::EnvelopeAdded { mailbox: mailbox.to_owned(), envelope: entry.clone() },
            );
            proof {
                assert(out.deep_view() =~= was + events);
            }
        },
        Some(i) => {
            let entries = past.as_vec();
            proof {
                assert(past@[i as int] == entries@[i as int].deep_view());
            }
            let added = entry.flags.without(&entries[i].flags);
            let removed = entries[i].flags.without(&entry.flags);
            if !added.is_empty() {
                out.push(
                    WatchEvent::FlagsAdded {
                        mailbox: mailbox.to_owned(),
                        id: entry.id.clone(),
                        flags: added,
                    },
                );
            }
            if !removed.is_empty() {
                out.push(
                    WatchEvent::FlagsRemoved {
                        mailbox: mailbox.to_owned(),
                        id: entry.id.clone(),
                        flags: removed,
                    },
                );
            }
            proof {
                assert(out.deep_view() =~= was + events);
            }
        },
    }
}

/// The events that lead from one snapshot to the next.
pub fn diff(mailbox: &str, old: &Shadow, new: &Shadow) -> (r: Vec<WatchEvent>)
    ensures
        r.deep_view() == changes(mailbox@, old@, new@),
{
    let mut out: Vec<WatchEvent> = Vec::new();
    let entries = new.as_vec();
    proof {
        assert(out.deep_view() =~= seq![]);
        assert(new@.subrange(0, 0) =~= seq![]);
    }
    let mut i: usize = 0;
    while i < entries.len()
        invariant
            i <= entries@.len(),
            entries.deep_view() == new@,
            out.deep_view() == kept_events(mailbox@, old@, new@.subrange(0, i as int)),
        decreases entries@.len() - i,
    {
        proof {
            assert(new@.subrange(0, i + 1).drop_last() =~= new@.subrange(0, i as int));
            assert(new@.subrange(0, i + 1).last() == entries@[i as int].deep_view());
        }
        push_entry(&mut out, mailbox, old, &entries[i]);
        i = i + 1;
    }
    let ghost kept = out.deep_view();
    let entries = old.as_vec();
    proof {
        assert(new@.subrange(0, new@.len() as int) =~= new@);
        assert(old@.subrange(0, 0) =~= seq![]);
        assert(kept + gone_events(mailbox@, seq![], new@) =~= kept);
    }
    let mut i: usize = 0;
    while i < entries.len()
        invariant
            i <= entries@.len(),
            entries.deep_view() == old@,
            kept == kept_events(mailbox@, old@, new@),
            out.deep_view() == kept + gone_events(mailbox@, old@.subrange(0, i as int), new@),
        decreases entries@.len() - i,
    {
        proof {
            assert(old@.subrange(0, i + 1).drop_last() =~= old@.subrange(0, i as int));
            assert(old@.subrange(0, i + 1).last() == entries@[i as int].deep_view());
        }
        let ghost was = out.deep_view();
        if new.find(&entries[i].id).is_none() {
            let event = WatchEvent::EnvelopeRemoved {
                mailbox: mailbox.to_owned(),
                id: entries[i].id.clone(),
            };
            let ghost last = event.deep_view();
            out.push(event);
            proof {
                let rest = gone_events(mailbox@, old@.subrange(0, i as int), new@);
                assert(out.deep_view() =~= was.push(last));
                assert(was.push(last) =~= kept + rest.push(last));
            }
        }
        i = i + 1;
    }
    proof {
        assert(old@.subrange(0, old@.len() as int) =~= old@);
    }
    out
}

/// The flags of each message of a snapshot.
pub open spec fn flags_by_id(list: Seq<EnvelopeView>) -> Map<Seq<char>, Set<Seq<char>>>
    decreases list.len(),
{
    if list.len() == 0 {
        Map::empty()
    } else {
        flags_by_id(list.drop_last()).insert(list.last().id, list.last().flags)
    }
}

/// What an event does to the flags of each message.
pub open spec fn applied(flags: Map<Seq<char>, Set<Seq<char>>>, event: WatchEventView) -> Map<
    Seq<char>,
    Set<Seq<char>>,
> {
    match event {
        WatchEventView::EnvelopeAdded { envelope, .. } => flags.insert(envelope.id, envelope.flags),
        WatchEventView::EnvelopeRemoved { id, .. } => flags.remove(id),
        WatchEventView::FlagsAdded { id, flags: added, .. } => flags.insert(
            id,
            flags[id].union(added),
        ),
        WatchEventView::FlagsRemoved { id, flags: removed, .. } => flags.insert(
            id,
            flags[id].difference(removed),
        ),
        WatchEventView::KeepAlive => flags,
    }
}

/// What events do, one after the other.
pub open spec fn all_applied(
    flags: Map<Seq<char>, Set<Seq<char>>>,
    events: Seq<WatchEventView>,
) -> Map<Seq<char>, Set<Seq<char>>>
    decreases events.len(),
{
    if events.len() == 0 {
        flags
    } else {
        applied(all_applied(flags, events.drop_last()), events.last())
    }
}

pub proof fn lemma_applied_in_turn(
    flags: Map<Seq<char>, Set<Seq<char>>>,
    a: Seq<WatchEventView>,
    b: Seq<WatchEventView>,
)
    ensures
        all_applied(flags, a + b) == all_applied(all_applied(flags, a), b),
    decreases b.len(),
{
    if b.len() == 0 {
        assert(a + b =~= a);
    } else {
        assert((a + b).drop_last() =~= a + b.drop_last());
        lemma_applied_in_turn(flags, a, b.drop_last());
    }
}

pub proof fn lemma_lookup(list: Seq<EnvelopeView>, id: Seq<char>)
    ensures
        flags_by_id(list).dom().contains(id) <==> lookup(list, id) is Some,
        lookup(list, id) matches Some(entry) ==> entry.id == id && flags_by_id(list)[id] == entry.flags,
        lookup(list, id) is Some <==> exists|i: int| 0 <= i < list.len() && (#[trigger] list[i]).id == id,
    decreases list.len(),
{
    if list.len() > 0 {
        let most = list.drop_last();
        lemma_lookup(most, id);
        if lookup(list, id) is Some {
            if list.last().id == id {
                assert(list[list.len() - 1].id == id);
            } else {
                let i = choose|i: int| 0 <= i < most.len() && (#[trigger] most[i]).id == id;
                assert(list[i].id == id);
            }
        }
        if exists|i: int| 0 <= i < list.len() && (#[trigger] list[i]).id == id {
            let i = choose|i: int| 0 <= i < list.len() && (#[trigger] list[i]).id == id;
            if i < list.len() - 1 {
                assert(most[i].id == id);
            }
        }
    }
}

/// One snapshot laid over another.
pub open spec fn overlaid(old: Seq<EnvelopeView>, new: Seq<EnvelopeView>) -> Map<
    Seq<char>,
    Set<Seq<char>>,
> {
    flags_by_id(old).union_prefer_right(flags_by_id(new))
}

pub proof fn lemma_entry_applied(
    mailbox: Seq<char>,
    old: Seq<EnvelopeView>,
    flags: Map<Seq<char>, Set<Seq<char>>>,
    entry: EnvelopeView,
)
    requires
        lookup(old, entry.id) matches Some(was) ==> flags.dom().contains(entry.id) && flags[entry.id]
            == was.flags,
    ensures
        all_applied(flags, entry_events(mailbox, old, entry)) == flags.insert(entry.id, entry.flags),
{
    let events = entry_events(mailbox, old, entry);
    match lookup(old, entry.id) {
        None => {
            assert(events.drop_last() =~= seq![]);
            assert(all_applied(flags, events.drop_last()) == flags);
        },
        Some(was) => {
            let added = entry.flags.difference(was.flags);
            let removed = was.flags.difference(entry.flags);
            let first = if added == Set::<Seq<char>>::empty() {
                Seq::<WatchEventView>::empty()
            } else {
                seq![WatchEventView::FlagsAdded { mailbox, id: entry.id, flags: added }]
            };
            let mid = all_applied(flags, first);
            if added == Set::<Seq<char>>::empty() {
                assert(flags.insert(entry.id, was.flags.union(added)) =~= flags) by {
                    assert(was.flags.union(added) =~= was.flags);
                }
            } else {
                assert(first.drop_last() =~= seq![]);
                assert(all_applied(flags, first.drop_last()) == flags);
            }
            assert(mid == flags.insert(entry.id, was.flags.union(added)));
            assert(was.flags.union(added).difference(removed) =~= entry.flags);
            if removed == Set::<Seq<char>>::empty() {
                assert(events =~= first);
                assert(was.flags.union(added) =~= entry.flags) by {
                    assert forall|t: Seq<char>| was.flags.union(added).contains(t) implies entry.flags.contains(t) by {
                        if was.flags.contains(t) && !entry.flags.contains(t) {
                            assert(removed.contains(t));
                        }
                    }
                }
            } else {
                assert(events.drop_last() =~= first);
                assert(mid.insert(entry.id, mid[entry.id].difference(removed)) =~= flags.insert(
                    entry.id,
                    entry.flags,
                ));
            }
        },
    }
}

proof fn lemma_kept_applied(mailbox: Seq<char>, old: Seq<EnvelopeView>, new: Seq<EnvelopeView>)
    requires
        ordered(new),
    ensures
        all_applied(flags_by_id(old), kept_events(mailbox, old, new)) == overlaid(old, new),
    decreases new.len(),
{
    if new.len() == 0 {
        assert(overlaid(old, new) =~= flags_by_id(old));
    } else {
        let most = new.drop_last();
        let entry = new.last();
        assert(ordered(most));
        lemma_kept_applied(mailbox, old, most);
        lemma_applied_in_turn(
            flags_by_id(old),
            kept_events(mailbox, old, most),
            entry_events(mailbox, old, entry),
        );
        lemma_lookup(old, entry.id);
        lemma_lookup(most, entry.id);
        if lookup(most, entry.id) is Some {
            let i = choose|i: int| 0 <= i < most.len() && (#[trigger] most[i]).id == entry.id;
            assert(before(new[i].id, new[new.len() - 1].id));
            lemma_before_total(entry.id, entry.id);
        }
        lemma_entry_applied(mailbox, old, overlaid(old, most), entry);
        assert(overlaid(old, most).insert(entry.id, entry.flags) =~= overlaid(old, new));
    }
}

proof fn lemma_gone_applied(
    mailbox: Seq<char>,
    old: Seq<EnvelopeView>,
    new: Seq<EnvelopeView>,
    flags: Map<Seq<char>, Set<Seq<char>>>,
)
    ensures
        all_applied(flags, gone_events(mailbox, old, new)) == flags.remove_keys(
            flags_by_id(old).dom().difference(flags_by_id(new).dom()),
        ),
    decreases old.len(),
{
    let gone = flags_by_id(old).dom().difference(flags_by_id(new).dom());
    if old.len() == 0 {
        assert(flags.remove_keys(gone) =~= flags);
    } else {
        let most = old.drop_last();
        let id = old.last().id;
        let before_gone = flags_by_id(most).dom().difference(flags_by_id(new).dom());
        lemma_gone_applied(mailbox, most, new, flags);
        lemma_lookup(new, id);
        let events = gone_events(mailbox, old, new);
        if lookup(new, id) is None {
            assert(events.drop_last() =~= gone_events(mailbox, most, new));
            assert(flags.remove_keys(before_gone).remove(id) =~= flags.remove_keys(gone));
        } else {
            assert(gone =~= before_gone);
        }
    }
}

/// The events between two snapshots are complete: applied to the flags of
/// the old messages they give the flags of the new ones, no message left
/// over and none missing.
pub proof fn law_changes_lead_to_new(mailbox: Seq<char>, old: Seq<EnvelopeView>, new: Seq<EnvelopeView>)
    requires
        ordered(old),
        ordered(new),
    ensures
        all_applied(flags_by_id(old), changes(mailbox, old, new)) == flags_by_id(new),
{
    lemma_kept_applied(mailbox, old, new);
    lemma_applied_in_turn(
        flags_by_id(old),
        kept_events(mailbox, old, new),
        gone_events(mailbox, old, new),
    );
    lemma_gone_applied(mailbox, old, new, overlaid(old, new));
    let gone = flags_by_id(old).dom().difference(flags_by_id(new).dom());
    assert(overlaid(old, new).remove_keys(gone) =~= flags_by_id(new));
}

proof fn lemma_place(list: Seq<EnvelopeView>, id: Seq<char>) -> (i: int)
    requires
        ordered(list),
    ensures
        0 <= i <= list.len(),
        forall|j: int| 0 <= j < i ==> before((#[trigger] list[j]).id, id),
        i < list.len() ==> !before(list[i].id, id),
    decreases list.len(),
{
    if list.len() == 0 {
        0
    } else if before(list.last().id, id) {
        assert forall|j: int| 0 <= j < list.len() implies before((#[trigger] list[j]).id, id) by {
            if j < list.len() - 1 {
                assert(before(list[j].id, list[list.len() - 1].id));
                lemma_before_trans(list[j].id, list.last().id, id);
            }
        }
        list.len() as int
    } else {
        let most = list.drop_last();
        assert(ordered(most));
        let i = lemma_place(most, id);
        assert forall|j: int| 0 <= j < i implies before((#[trigger] list[j]).id, id) by {
            assert(most[j] == list[j]);
        }
        if i < most.len() {
            assert(most[i] == list[i]);
        }
        i
    }
}

/// Putting an envelope into a snapshot keeps its order and sets the flags of
/// that message alone.
pub proof fn lemma_put_flags(list: Seq<EnvelopeView>, envelope: EnvelopeView)
    requires
        ordered(list),
    ensures
        ordered(put(list, envelope)),
        flags_by_id(put(list, envelope)) == flags_by_id(list).insert(envelope.id, envelope.flags),
    decreases list.len(),
{
    let i = lemma_place(list, envelope.id);
    lemma_put_ordered(list, envelope, i);
    let now = put(list, envelope);
    if list.len() == 0 || before(list.last().id, envelope.id) {
        assert(now.drop_last() =~= list);
    } else if list.last().id == envelope.id {
        assert(now.drop_last() =~= list.drop_last());
        assert(flags_by_id(now) =~= flags_by_id(list).insert(envelope.id, envelope.flags));
    } else {
        assert(ordered(list.drop_last()));
        lemma_put_flags(list.drop_last(), envelope);
        assert(now.drop_last() =~= put(list.drop_last(), envelope));
        assert(flags_by_id(now) =~= flags_by_id(list).insert(envelope.id, envelope.flags));
    }
}

/// Taking an envelope out of a snapshot keeps its order and forgets that
/// message alone.
pub proof fn lemma_without_flags(list: Seq<EnvelopeView>, id: Seq<char>)
    requires
        ordered(list),
    ensures
        ordered(without(list, id)),
        flags_by_id(without(list, id)) == flags_by_id(list).remove(id),
    decreases list.len(),
{
    lemma_lookup(list, id);
    if lookup(list, id) is None {
        lemma_without_absent(list, id);
        assert(flags_by_id(list).remove(id) =~= flags_by_id(list));
    } else {
        let i = choose|i: int| 0 <= i < list.len() && (#[trigger] list[i]).id == id;
        assert forall|j: int| i < j < list.len() implies (#[trigger] list[j]).id != id by {
            assert(before(list[i].id, list[j].id));
            lemma_before_total(list[i].id, list[j].id);
        }
        lemma_without(list, id, i);
        let now = without(list, id);
        assert forall|j: int, k: int| 0 <= j < k < now.len() implies before(
            (#[trigger] now[j]).id,
            (#[trigger] now[k]).id,
        ) by {
            let j0 = if j < i {
                j
            } else {
                j + 1
            };
            let k0 = if k < i {
                k
            } else {
                k + 1
            };
            assert(before(list[j0].id, list[k0].id));
        }
        let most = list.drop_last();
        assert(ordered(most));
        if list.last().id == id {
            lemma_lookup(most, id);
            assert(lookup(most, id) is None) by {
                if lookup(most, id) is Some {
                    let k = choose|k: int| 0 <= k < most.len() && (#[trigger] most[k]).id == id;
                    assert(before(list[k].id, list[list.len() - 1].id));
                    lemma_before_total(id, id);
                }
            }
            assert(flags_by_id(list).remove(id) =~= flags_by_id(most));
        } else {
            lemma_without_flags(most, id);
            assert(now.drop_last() =~= without(most, id));
            assert(flags_by_id(now) =~= flags_by_id(list).remove(id));
        }
    }
}

pub proof fn lemma_put_lookup(list: Seq<EnvelopeView>, envelope: EnvelopeView, id: Seq<char>)
    ensures
        lookup(put(list, envelope), id) == if id == envelope.id {
            Some(envelope)
        } else {
            lookup(list, id)
        },
    decreases list.len(),
{
    if list.len() == 0 || before(list.last().id, envelope.id) {
        assert(list.push(envelope).drop_last() =~= list);
    } else if list.last().id == envelope.id {
        assert(list.drop_last().push(envelope).drop_last() =~= list.drop_last());
    } else {
        lemma_put_lookup(list.drop_last(), envelope, id);
        let inner = put(list.drop_last(), envelope);
        assert(inner.push(list.last()).drop_last() =~= inner);
    }
}

/// A snapshot holds of each message the last envelope that came of it, whole,
/// in the order of the ids; and nothing of a message that did not come.
pub proof fn law_snapshot_is_the_latest(envelopes: Seq<EnvelopeView>, id: Seq<char>, k: int)
    ensures
        ordered(snapshot(envelopes)),
        0 <= k < envelopes.len() && envelopes[k].id == id && (forall|j: int|
            k < j < envelopes.len() ==> (#[trigger] envelopes[j]).id != id) ==> lookup(
            snapshot(envelopes),
            id,
        ) == Some(envelopes[k]),
        (forall|j: int| 0 <= j < envelopes.len() ==> (#[trigger] envelopes[j]).id != id) ==> lookup(
            snapshot(envelopes),
            id,
        ) is None,
    decreases envelopes.len(),
{
    if envelopes.len() > 0 {
        let most = envelopes.drop_last();
        law_snapshot_is_the_latest(most, id, k);
        lemma_put_lookup(snapshot(most), envelopes.last(), id);
        lemma_put_flags(snapshot(most), envelopes.last());
        assert(envelopes[envelopes.len() - 1] == envelopes.last());
        assert forall|j: int| 0 <= j < most.len() implies #[trigger] most[j] == envelopes[j] by {}
    }
}

/// Taking a message out of a snapshot takes out that one and leaves every
/// other as it was.
pub proof fn law_only_that_message_goes(list: Seq<EnvelopeView>, id: Seq<char>, other: Seq<char>)
    requires
        ordered(list),
    ensures
        lookup(without(list, id), other) == if other == id {
            None
        } else {
            lookup(list, other)
        },
    decreases list.len(),
{
    if list.len() > 0 {
        let most = list.drop_last();
        assert(ordered(most));
        law_only_that_message_goes(most, id, other);
        if list.last().id == id {
            if other == id && lookup(most, id) is Some {
                lemma_lookup(most, id);
                let i = choose|i: int| 0 <= i < most.len() && (#[trigger] most[i]).id == id;
                assert(before(list[i].id, list[list.len() - 1].id));
                lemma_before_total(id, id);
            }
        } else {
            let inner = without(most, id);
            assert(inner.push(list.last()).drop_last() =~= inner);
        }
    }
}

/// Whether an event tells of something that happened between two snapshots.
pub open spec fn happened(
    mailbox: Seq<char>,
    old: Seq<EnvelopeView>,
    new: Seq<EnvelopeView>,
    event: WatchEventView,
) -> bool {
    match event {
        WatchEventView::EnvelopeAdded { mailbox: of, envelope } => {
            &&& of == mailbox
            &&& lookup(old, envelope.id) is None
            &&& lookup(new, envelope.id) == Some(envelope)
        },
        WatchEventView::EnvelopeRemoved { mailbox: of, id } => {
            &&& of == mailbox
            &&& lookup(old, id) is Some
            &&& lookup(new, id) is None
        },
        WatchEventView::FlagsAdded { mailbox: of, id, flags } => {
            &&& of == mailbox
            &&& exists|flag: Seq<char>| flags.contains(flag)
            &&& lookup(old, id) matches Some(was) && lookup(new, id) matches Some(now) && forall|f: Seq<char>|
                #[trigger] flags.contains(f) <==> now.flags.contains(f) && !was.flags.contains(f)
        },
        WatchEventView::FlagsRemoved { mailbox: of, id, flags } => {
            &&& of == mailbox
            &&& exists|flag: Seq<char>| flags.contains(flag)
            &&& lookup(old, id) matches Some(was) && lookup(new, id) matches Some(now) && forall|f: Seq<char>|
                #[trigger] flags.contains(f) <==> was.flags.contains(f) && !now.flags.contains(f)
        },
        WatchEventView::KeepAlive => false,
    }
}

proof fn lemma_at_its_id(list: Seq<EnvelopeView>, k: int)
    requires
        ordered(list),
        0 <= k < list.len(),
    ensures
        lookup(list, list[k].id) == Some(list[k]),
    decreases list.len(),
{
    if k < list.len() - 1 {
        let most = list.drop_last();
        assert(before(list[k].id, list[list.len() - 1].id));
        lemma_before_total(list[k].id, list.last().id);
        assert(ordered(most));
        assert(most[k] == list[k]);
        lemma_at_its_id(most, k);
    }
}

proof fn lemma_entry_happened(
    mailbox: Seq<char>,
    old: Seq<EnvelopeView>,
    new: Seq<EnvelopeView>,
    entry: EnvelopeView,
    e: int,
)
    requires
        lookup(new, entry.id) == Some(entry),
        0 <= e < entry_events(mailbox, old, entry).len(),
    ensures
        happened(mailbox, old, new, entry_events(mailbox, old, entry)[e]),
{
    lemma_lookup(old, entry.id);
    if let Some(was) = lookup(old, entry.id) {
        let added = entry.flags.difference(was.flags);
        let removed = was.flags.difference(entry.flags);
        assert(added =~= Set::<Seq<char>>::empty() || exists|f: Seq<char>| added.contains(f));
        assert(removed =~= Set::<Seq<char>>::empty() || exists|f: Seq<char>| removed.contains(f));
        let event = entry_events(mailbox, old, entry)[e];
        if event is FlagsAdded {
            assert(event->FlagsAdded_flags == added);
            assert(forall|f: Seq<char>|
                added.contains(f) <==> entry.flags.contains(f) && !was.flags.contains(f));
        } else {
            assert(event is FlagsRemoved);
            assert(event->FlagsRemoved_flags == removed);
            assert(forall|f: Seq<char>|
                removed.contains(f) <==> was.flags.contains(f) && !entry.flags.contains(f));
        }
    }
}

proof fn lemma_kept_happened(
    mailbox: Seq<char>,
    old: Seq<EnvelopeView>,
    new: Seq<EnvelopeView>,
    n: int,
    e: int,
)
    requires
        ordered(new),
        0 <= n <= new.len(),
        0 <= e < kept_events(mailbox, old, new.take(n)).len(),
    ensures
        happened(mailbox, old, new, kept_events(mailbox, old, new.take(n))[e]),
    decreases n,
{
    if n > 0 {
        let part = new.take(n);
        assert(part.drop_last() =~= new.take(n - 1));
        assert(part.last() == new[n - 1]);
        lemma_at_its_id(new, n - 1);
        let before = kept_events(mailbox, old, new.take(n - 1));
        if e < before.len() {
            lemma_kept_happened(mailbox, old, new, n - 1, e);
        } else {
            lemma_entry_happened(mailbox, old, new, new[n - 1], e - before.len());
        }
    }
}

proof fn lemma_gone_happened(
    mailbox: Seq<char>,
    old: Seq<EnvelopeView>,
    new: Seq<EnvelopeView>,
    n: int,
    e: int,
)
    requires
        0 <= n <= old.len(),
        0 <= e < gone_events(mailbox, old.take(n), new).len(),
    ensures
        happened(mailbox, old, new, gone_events(mailbox, old.take(n), new)[e]),
        gone_events(mailbox, old.take(n), new)[e] is EnvelopeRemoved,
    decreases n,
{
    if n > 0 {
        let part = old.take(n);
        assert(part.drop_last() =~= old.take(n - 1));
        assert(part.last() == old[n - 1]);
        lemma_lookup(old, old[n - 1].id);
        let before = gone_events(mailbox, old.take(n - 1), new);
        if e < before.len() {
            lemma_gone_happened(mailbox, old, new, n - 1, e);
        }
    }
}

/// Every event between two snapshots tells of something that happened: of a
/// message that was not there and is, with its envelope; of one that was there
/// and is not; of flags that a message got or lost, all of them and no other.
pub proof fn law_only_what_happened_is_told(
    mailbox: Seq<char>,
    old: Seq<EnvelopeView>,
    new: Seq<EnvelopeView>,
    e: int,
)
    requires
        ordered(old),
        ordered(new),
        0 <= e < changes(mailbox, old, new).len(),
    ensures
        happened(mailbox, old, new, changes(mailbox, old, new)[e]),
{
    assert(new.take(new.len() as int) =~= new);
    assert(old.take(old.len() as int) =~= old);
    let kept = kept_events(mailbox, old, new);
    if e < kept.len() {
        lemma_kept_happened(mailbox, old, new, new.len() as int, e);
    } else {
        lemma_gone_happened(mailbox, old, new, old.len() as int, e - kept.len());
    }
}

proof fn lemma_entry_told(mailbox: Seq<char>, old: Seq<EnvelopeView>, new: Seq<EnvelopeView>, k: int, e: int)
    requires
        0 <= k < new.len(),
        0 <= e < entry_events(mailbox, old, new[k]).len(),
    ensures
        kept_events(mailbox, old, new).contains(entry_events(mailbox, old, new[k])[e]),
    decreases new.len(),
{
    let most = new.drop_last();
    let before = kept_events(mailbox, old, most);
    let own = entry_events(mailbox, old, new.last());
    if k == new.len() - 1 {
        assert((before + own)[before.len() + e] == own[e]);
    } else {
        assert(most[k] == new[k]);
        lemma_entry_told(mailbox, old, most, k, e);
        let event = entry_events(mailbox, old, new[k])[e];
        let i = before.index_of(event);
        assert((before + own)[i] == event);
    }
}

/// Every message that came is told of, with its whole envelope.
pub proof fn law_every_arrival_is_told(mailbox: Seq<char>, old: Seq<EnvelopeView>, new: Seq<EnvelopeView>, k: int)
    requires
        0 <= k < new.len(),
        lookup(old, new[k].id) is None,
    ensures
        changes(mailbox, old, new).contains(
            (WatchEventView::EnvelopeAdded { mailbox, envelope: new[k] }),
        ),
{
    lemma_entry_told(mailbox, old, new, k, 0);
    let kept = kept_events(mailbox, old, new);
    let event = WatchEventView::EnvelopeAdded { mailbox, envelope: new[k] };
    assert(entry_events(mailbox, old, new[k])[0] == event);
    let i = kept.index_of(event);
    assert(changes(mailbox, old, new)[i] == event);
}

/// Nothing is told of where nothing changed.
pub proof fn law_no_change_no_event(mailbox: Seq<char>, list: Seq<EnvelopeView>)
    requires
        ordered(list),
    ensures
        changes(mailbox, list, list).len() == 0,
{
    if changes(mailbox, list, list).len() > 0 {
        law_only_what_happened_is_told(mailbox, list, list, 0);
    }
}

/// The message that an event tells of.
pub open spec fn told_id(event: WatchEventView) -> Seq<char> {
    match event {
        WatchEventView::EnvelopeAdded { envelope, .. } => envelope.id,
        WatchEventView::EnvelopeRemoved { id, .. } => id,
        WatchEventView::FlagsAdded { id, .. } => id,
        WatchEventView::FlagsRemoved { id, .. } => id,
        WatchEventView::KeepAlive => seq![],
    }
}

proof fn lemma_kept_order(mailbox: Seq<char>, old: Seq<EnvelopeView>, new: Seq<EnvelopeView>)
    requires
        ordered(new),
    ensures
        forall|i: int|
            0 <= i < kept_events(mailbox, old, new).len() ==> !(#[trigger] kept_events(mailbox, old, new)[i]
                is EnvelopeRemoved) && exists|k: int|
                0 <= k < new.len() && #[trigger] new[k].id == told_id(kept_events(mailbox, old, new)[i]),
        forall|i: int, j: int|
            0 <= i < j < kept_events(mailbox, old, new).len() ==> !before(
                told_id(#[trigger] kept_events(mailbox, old, new)[j]),
                told_id(#[trigger] kept_events(mailbox, old, new)[i]),
            ),
    decreases new.len(),
{
    if new.len() > 0 {
        let most = new.drop_last();
        assert(ordered(most));
        lemma_kept_order(mailbox, old, most);
        let first = kept_events(mailbox, old, most);
        let last = entry_events(mailbox, old, new.last());
        let all = kept_events(mailbox, old, new);
        assert(new[new.len() - 1] == new.last());
        assert forall|i: int| 0 <= i < all.len() implies !(#[trigger] all[i] is EnvelopeRemoved) && (i
            >= first.len() ==> told_id(all[i]) == new.last().id) && exists|k: int|
            0 <= k < new.len() && #[trigger] new[k].id == told_id(all[i]) by {
            if i < first.len() {
                assert(all[i] == first[i]);
                let k = choose|k: int| 0 <= k < most.len() && #[trigger] most[k].id == told_id(first[i]);
                assert(new[k].id == told_id(all[i]));
            } else {
                assert(all[i] == last[i - first.len()]);
                assert(new[new.len() - 1].id == told_id(all[i]));
            }
        }
        assert forall|i: int, j: int| 0 <= i < j < all.len() implies !before(
            told_id(#[trigger] all[j]),
            told_id(#[trigger] all[i]),
        ) by {
            lemma_before_total(told_id(all[i]), told_id(all[j]));
            lemma_before_total(told_id(all[i]), told_id(all[i]));
            if j < first.len() {
                assert(all[i] == first[i] && all[j] == first[j]);
            } else if i < first.len() {
                assert(all[i] == first[i]);
                let k = choose|k: int| 0 <= k < most.len() && #[trigger] most[k].id == told_id(first[i]);
                assert(before(new[k].id, new[new.len() - 1].id));
            }
        }
    }
}

proof fn lemma_gone_order(mailbox: Seq<char>, old: Seq<EnvelopeView>, new: Seq<EnvelopeView>)
    requires
        ordered(old),
    ensures
        forall|i: int|
            0 <= i < gone_events(mailbox, old, new).len() ==> #[trigger] gone_events(mailbox, old, new)[i]
                is EnvelopeRemoved && exists|k: int|
                0 <= k < old.len() && #[trigger] old[k].id == told_id(gone_events(mailbox, old, new)[i]),
        forall|i: int, j: int|
            0 <= i < j < gone_events(mailbox, old, new).len() ==> before(
                told_id(#[trigger] gone_events(mailbox, old, new)[i]),
                told_id(#[trigger] gone_events(mailbox, old, new)[j]),
            ),
    decreases old.len(),
{
    if old.len() > 0 {
        let most = old.drop_last();
        assert(ordered(most));
        lemma_gone_order(mailbox, most, new);
        let first = gone_events(mailbox, most, new);
        let all = gone_events(mailbox, old, new);
        assert(old[old.len() - 1] == old.last());
        assert forall|i: int| 0 <= i < all.len() implies #[trigger] all[i] is EnvelopeRemoved && exists|
            k: int,
        |
            0 <= k < old.len() && #[trigger] old[k].id == told_id(all[i]) by {
            if i < first.len() {
                assert(all[i] == first[i]);
                let k = choose|k: int| 0 <= k < most.len() && #[trigger] most[k].id == told_id(first[i]);
                assert(old[k].id == told_id(all[i]));
            } else {
                assert(old[old.len() - 1].id == told_id(all[i]));
            }
        }
        assert forall|i: int, j: int| 0 <= i < j < all.len() implies before(
            told_id(#[trigger] all[i]),
            told_id(#[trigger] all[j]),
        ) by {
            assert(all[i] == first[i]);
            if j < first.len() {
                assert(all[j] == first[j]);
            } else {
                let k = choose|k: int| 0 <= k < most.len() && #[trigger] most[k].id == told_id(first[i]);
                assert(before(old[k].id, old[old.len() - 1].id));
            }
        }
    }
}

/// What happened to the messages that are there comes first, in the order of
/// their ids, and then which messages are gone, in theirs; no message is told
/// to be gone twice.
pub proof fn law_order_of_events(
    mailbox: Seq<char>,
    old: Seq<EnvelopeView>,
    new: Seq<EnvelopeView>,
    i: int,
    j: int,
)
    requires
        ordered(old),
        ordered(new),
        0 <= i < j < changes(mailbox, old, new).len(),
    ensures
        ({
            let a = changes(mailbox, old, new)[i];
            let b = changes(mailbox, old, new)[j];
            &&& a is EnvelopeRemoved ==> b is EnvelopeRemoved && before(told_id(a), told_id(b))
            &&& !(b is EnvelopeRemoved) ==> !before(told_id(b), told_id(a))
        }),
{
    lemma_kept_order(mailbox, old, new);
    lemma_gone_order(mailbox, old, new);
    let kept = kept_events(mailbox, old, new);
    let gone = gone_events(mailbox, old, new);
    let all = changes(mailbox, old, new);
    if j < kept.len() {
        assert(all[i] == kept[i] && all[j] == kept[j]);
    } else {
        assert(all[j] == gone[j - kept.len()]);
        if i >= kept.len() {
            assert(all[i] == gone[i - kept.len()]);
        } else {
            assert(all[i] == kept[i]);
        }
    }
}

} // verus!
