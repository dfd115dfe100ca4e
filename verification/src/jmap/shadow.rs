//! In-memory mirror of a JMAP mailbox: the keywords of each email in it, and
//! the events that bring it up to date.
use vstd::hash_map::StringHashMap;
use vstd::prelude::*;

use crate::event::{WatchEvent, WatchEventView};
use crate::flag::types::{kept, Flag, FlagSet};
use crate::jmap::convert::{
    envelope_from, envelope_of, law_flags_are_the_true_keywords, list_or_empty, set_keywords,
};
use crate::jmap::wire::{Email, EmailView};
use crate::text::{holds_text, same_text};
use crate::watch::{all_applied, applied, lemma_applied_in_turn};

verus! {

/// The keywords of the emails of a mailbox.
pub type Mirror = Map<Seq<char>, Set<Seq<char>>>;

/// The keywords that are set, as they came.
pub open spec fn raised(list: Seq<(Seq<char>, bool)>) -> Set<Seq<char>> {
    Set::new(|word: Seq<char>| list.contains((word, true)))
}

/// The flags that keywords name.
pub open spec fn named(words: Set<Seq<char>>) -> Set<Seq<char>> {
    words.map(|word: Seq<char>| kept(word))
}

/// Whether an email is in a mailbox.
pub open spec fn in_mailbox(email: EmailView, mailbox: Seq<char>) -> bool {
    list_or_empty(email.mailbox_ids).contains((mailbox, true))
}

/// The events of an email whose keywords changed.
pub open spec fn keyword_events(
    mailbox: Seq<char>,
    id: Seq<char>,
    was: Set<Seq<char>>,
    now: Set<Seq<char>>,
) -> Seq<WatchEventView> {
    let added: Seq<WatchEventView> = if now.subset_of(was) {
        seq![]
    } else {
        seq![WatchEventView::FlagsAdded { mailbox, id, flags: named(now.difference(was)) }]
    };
    let removed: Seq<WatchEventView> = if was.subset_of(now) {
        seq![]
    } else {
        seq![WatchEventView::FlagsRemoved { mailbox, id, flags: named(was.difference(now)) }]
    };
    added + removed
}

/// What an email that was created or updated does to the mirror, and its
/// events: it comes in, changes its keywords, or goes out.
pub open spec fn folded_email(mirror: Mirror, mailbox: Seq<char>, email: EmailView) -> (
    Mirror,
    Seq<WatchEventView>,
) {
    match email.id {
        None => (mirror, seq![]),
        Some(id) => {
            let words = raised(list_or_empty(email.keywords));
            if in_mailbox(email, mailbox) {
                let events = if mirror.contains_key(id) {
                    keyword_events(mailbox, id, mirror[id], words)
                } else {
                    seq![WatchEventView::EnvelopeAdded { mailbox, envelope: envelope_of(email) }]
                };
                (mirror.insert(id, words), events)
            } else {
                folded_gone(mirror, mailbox, id)
            }
        },
    }
}

/// What the end of an email does to the mirror, and its events.
pub open spec fn folded_gone(mirror: Mirror, mailbox: Seq<char>, id: Seq<char>) -> (
    Mirror,
    Seq<WatchEventView>,
) {
    if mirror.contains_key(id) {
        (mirror.remove(id), seq![WatchEventView::EnvelopeRemoved { mailbox, id }])
    } else {
        (mirror, seq![])
    }
}

/// What emails do to the mirror one after the other, and their events.
pub open spec fn folded_emails(mirror: Mirror, mailbox: Seq<char>, emails: Seq<EmailView>) -> (
    Mirror,
    Seq<WatchEventView>,
)
    decreases emails.len(),
{
    if emails.len() == 0 {
        (mirror, seq![])
    } else {
        let before = folded_emails(mirror, mailbox, emails.drop_last());
        let last = folded_email(before.0, mailbox, emails.last());
        (last.0, before.1 + last.1)
    }
}

/// What the ends of emails do to the mirror one after the other, and their
/// events.
pub open spec fn folded_ends(mirror: Mirror, mailbox: Seq<char>, ids: Seq<Seq<char>>) -> (
    Mirror,
    Seq<WatchEventView>,
)
    decreases ids.len(),
{
    if ids.len() == 0 {
        (mirror, seq![])
    } else {
        let before = folded_ends(mirror, mailbox, ids.drop_last());
        let last = folded_gone(before.0, mailbox, ids.last());
        (last.0, before.1 + last.1)
    }
}

/// The mirror after a round of changes, and the events of the round.
pub open spec fn folded(
    mirror: Mirror,
    mailbox: Seq<char>,
    emails: Seq<EmailView>,
    destroyed: Seq<Seq<char>>,
) -> (Mirror, Seq<WatchEventView>) {
    let changed = folded_emails(mirror, mailbox, emails);
    let ended = folded_ends(changed.0, mailbox, destroyed);
    (ended.0, changed.1 + ended.1)
}

/// The keywords that are set, each perhaps more than once.
fn raised_from(list: &Option<Vec<(String, bool)>>) -> (r: Vec<String>)
    ensures
        r.deep_view().to_set() == raised(list_or_empty(list.deep_view())),
{
    let mut out: Vec<String> = Vec::new();
    let ghost all = list_or_empty(list.deep_view());
    if let Some(list) = list {
        let mut i: usize = 0;
        while i < list.len()
            invariant
                i <= list@.len(),
                all == list.deep_view(),
                forall|j: int|
                    0 <= j < out@.len() ==> all.contains(((#[trigger] out@[j])@, true)),
                forall|k: int| 0 <= k < i && (#[trigger] all[k]).1 ==> out.deep_view().contains(all[k].0),
            decreases list@.len() - i,
        {
            let ghost was = out.deep_view();
            proof {
                assert(all[i as int] == list@[i as int].deep_view());
            }
            if list[i].1 {
                out.push(list[i].0.clone());
                proof {
                    assert(all[i as int] == (list@[i as int].0@, true));
                    assert(out.deep_view() =~= was.push(all[i as int].0));
                    assert(out.deep_view()[was.len() as int] == all[i as int].0);
                    assert forall|w: Seq<char>| was.contains(w) implies out.deep_view().contains(w) by {
                        let j = choose|j: int| 0 <= j < was.len() && was[j] == w;
                        assert(out.deep_view()[j] == w);
                    }
                }
            }
            i = i + 1;
        }
    }
    proof {
        let words = out.deep_view();
        assert forall|w: Seq<char>| words.to_set().contains(w) == raised(all).contains(w) by {
            if words.contains(w) {
                let j = choose|j: int| 0 <= j < words.len() && words[j] == w;
                assert(out@[j]@ == w);
            }
            if all.contains((w, true)) {
                let k = choose|k: int| 0 <= k < all.len() && all[k] == (w, true);
                assert(all[k].1);
                assert(all[k].0 == w);
            }
        }
        assert(words.to_set() =~= raised(all));
    }
    out
}

/// The texts of one list that are not in another.
fn missing_from(list: &Vec<String>, other: &Vec<String>) -> (r: Vec<String>)
    ensures
        r.deep_view().to_set() == list.deep_view().to_set().difference(other.deep_view().to_set()),
{
    let mut out: Vec<String> = Vec::new();
    let ghost all = list.deep_view();
    let ghost others = other.deep_view();
    let mut i: usize = 0;
    while i < list.len()
        invariant
            i <= list@.len(),
            all == list.deep_view(),
            others == other.deep_view(),
            forall|j: int|
                0 <= j < out@.len() ==> all.contains((#[trigger] out@[j])@) && !others.contains(
                    out@[j]@,
                ),
            forall|k: int|
                0 <= k < i && !others.contains(#[trigger] all[k]) ==> out.deep_view().contains(all[k]),
        decreases list@.len() - i,
    {
        let ghost was = out.deep_view();
        proof {
            assert(all[i as int] == list@[i as int]@);
        }
        if !holds_text(other, list[i].as_str()) {
            out.push(list[i].clone());
            proof {
                assert(out.deep_view() =~= was.push(all[i as int]));
                assert(out.deep_view()[was.len() as int] == all[i as int]);
                assert forall|w: Seq<char>| was.contains(w) implies out.deep_view().contains(w) by {
                    let j = choose|j: int| 0 <= j < was.len() && was[j] == w;
                    assert(out.deep_view()[j] == w);
                }
            }
        }
        i = i + 1;
    }
    proof {
        let words = out.deep_view();
        let wanted = all.to_set().difference(others.to_set());
        assert forall|w: Seq<char>| words.to_set().contains(w) == wanted.contains(w) by {
            if words.contains(w) {
                let j = choose|j: int| 0 <= j < words.len() && words[j] == w;
                assert(out@[j]@ == w);
            }
            if all.contains(w) && !others.contains(w) {
                let k = choose|k: int| 0 <= k < all.len() && all[k] == w;
                assert(!others.contains(all[k]));
            }
        }
        assert(words.to_set() =~= wanted);
    }
    out
}

/// The flags that keywords name.
fn flags_named(words: &Vec<String>) -> (r: FlagSet)
    ensures
        r@ == named(words.deep_view().to_set()),
{
    let mut out = FlagSet::new();
    let ghost all = words.deep_view();
    let ghost wanted = named(all.to_set());
    let mut i: usize = 0;
    while i < words.len()
        invariant
            i <= words@.len(),
            all == words.deep_view(),
            wanted == named(all.to_set()),
            forall|flag: Seq<char>| out@.contains(flag) ==> #[trigger] wanted.contains(flag),
            forall|k: int| 0 <= k < i ==> out@.contains(kept(#[trigger] all[k])),
        decreases words@.len() - i,
    {
        proof {
            assert(all[i as int] == words@[i as int]@);
            assert(all.to_set().contains(all[i as int]));
            assert(wanted.contains(kept(all[i as int])));
        }
        out.insert(Flag::from_raw(&words[i]));
        i = i + 1;
    }
    proof {
        assert forall|flag: Seq<char>| wanted.contains(flag) implies out@.contains(flag) by {
            let word = choose|word: Seq<char>| #[trigger] all.to_set().contains(word) && kept(word) == flag;
            let k = choose|k: int| 0 <= k < all.len() && all[k] == word;
            assert(out@.contains(kept(all[k])));
        }
        assert(out@ =~= wanted);
    }
    out
}

/// Whether `(key, true)` is in a list.
fn holds_raised(list: &Option<Vec<(String, bool)>>, key: &str) -> (r: bool)
    ensures
        r == list_or_empty(list.deep_view()).contains((key@, true)),
{
    let ghost all = list_or_empty(list.deep_view());
    if let Some(rows) = list {
        let mut i: usize = 0;
        while i < rows.len()
            invariant
                i <= rows@.len(),
                all == rows.deep_view(),
                all == list_or_empty(list.deep_view()),
                forall|j: int| 0 <= j < i ==> #[trigger] all[j] != (key@, true),
            decreases rows@.len() - i,
        {
            proof {
                assert(all[i as int] == rows@[i as int].deep_view());
            }
            if rows[i].1 && same_text(rows[i].0.as_str(), key) {
                proof {
                    assert(all[i as int] == (key@, true));
                }
                return true;
            }
            i = i + 1;
        }
    }
    false
}

/// The keyword sets of a map of keyword lists.
pub open spec fn keyword_sets(map: Map<Seq<char>, Vec<String>>) -> Mirror {
    map.map_values(|words: Vec<String>| words.deep_view().to_set())
}

/// Mirror of a mailbox.
pub struct MailboxShadow {
    map: StringHashMap<Vec<String>>,
}

impl View for MailboxShadow {
    type V = Mirror;

    closed spec fn view(&self) -> Mirror {
        keyword_sets(self.map@)
    }
}

/// Moves events to the end of others.
pub fn append_events(events: &mut Vec<WatchEvent>, more: Vec<WatchEvent>)
    ensures
        final(events).deep_view() == old(events).deep_view() + more.deep_view(),
{
    let ghost was = events.deep_view();
    let ghost added = more.deep_view();
    let mut more = more;
    events.append(&mut more);
    proof {
        assert(events.deep_view() =~= was + added);
    }
}

fn push_event(events: &mut Vec<WatchEvent>, event: WatchEvent)
    ensures
        final(events).deep_view() == old(events).deep_view() + seq![event.deep_view()],
{
    let ghost was = events.deep_view();
    let ghost added = event.deep_view();
    events.push(event);
    proof {
        assert(events.deep_view() =~= was + seq![added]);
    }
}

impl MailboxShadow {
    /// The mirror of an empty mailbox.
    pub fn new() -> (r: MailboxShadow)
        ensures
            r@ == Mirror::empty(),
    {
        let r = MailboxShadow { map: StringHashMap::new() };
        proof {
            assert(r@ =~= Mirror::empty());
        }
        r
    }

    /// Whether an email is mirrored.
    pub fn contains(&self, id: &str) -> (r: bool)
        ensures
            r == self@.contains_key(id@),
    {
        self.map.contains_key(id)
    }

    fn put(&mut self, id: String, words: Vec<String>)
        ensures
            final(self)@ == old(self)@.insert(id@, words.deep_view().to_set()),
    {
        let ghost was = self@;
        let ghost key = id@;
        let ghost set = words.deep_view().to_set();
        self.map.insert(id, words);
        proof {
            assert(self@ =~= was.insert(key, set));
        }
    }

    fn take_out(&mut self, mailbox: &str, id: &str, events: &mut Vec<WatchEvent>)
        ensures
            ({
                let step = folded_gone(old(self)@, mailbox@, id@);
                &&& final(self)@ == step.0
                &&& final(events).deep_view() == old(events).deep_view() + step.1
            }),
    {
        let ghost was = self@;
        let ghost before = events.deep_view();
        if self.map.contains_key(id) {
            self.map.remove(id);
            proof {
                assert(self@ =~= was.remove(id@));
            }
            push_event(
                events,
                WatchEvent::EnvelopeRemoved { mailbox: mailbox.to_owned(), id: id.to_owned() },
            );
        } else {
            proof {
                assert(before + seq![] =~= before);
            }
        }
    }

    /// Folds one email in.
    fn fold_email(&mut self, mailbox: &str, email: &Email, events: &mut Vec<WatchEvent>)
        ensures
            ({
                let step = folded_email(old(self)@, mailbox@, email.deep_view());
                &&& final(self)@ == step.0
                &&& final(events).deep_view() == old(events).deep_view() + step.1
            }),
    {
        let ghost before = events.deep_view();
        let ghost was = self@;
        let ghost step = folded_email(was, mailbox@, email.deep_view());
        let id: &String = match &email.id {
            Some(id) => id,
            None => {
                proof {
                    assert(before + seq![] =~= before);
                }
                return;
            },
        };
        if !holds_raised(&email.mailbox_ids, mailbox) {
            self.take_out(mailbox, id.as_str(), events);
            return;
        }
        let words = raised_from(&email.keywords);
        match self.map.get(id.as_str()) {
            Some(known) => {
                let added = missing_from(&words, known);
                let removed = missing_from(known, &words);
                let ghost now = words.deep_view().to_set();
                let ghost then = known.deep_view().to_set();
                proof {
                    assert(was[id@] == then);
                    assert(now.subset_of(then) <==> added@.len() == 0) by {
                        if added@.len() > 0 {
                            assert(added.deep_view().to_set().contains(added.deep_view()[0]));
                        } else {
                            assert forall|w: Seq<char>| now.contains(w) implies then.contains(w) by {
                                if !then.contains(w) {
                                    assert(added.deep_view().to_set().contains(w));
                                }
                            }
                        }
                    }
                    assert(then.subset_of(now) <==> removed@.len() == 0) by {
                        if removed@.len() > 0 {
                            assert(removed.deep_view().to_set().contains(removed.deep_view()[0]));
                        } else {
                            assert forall|w: Seq<char>| then.contains(w) implies now.contains(w) by {
                                if !now.contains(w) {
                                    assert(removed.deep_view().to_set().contains(w));
                                }
                            }
                        }
                    }
                }
                if added.len() > 0 {
                    push_event(
                        events,
                        WatchEvent::FlagsAdded {
                            mailbox: mailbox.to_owned(),
                            id: id.clone(),
                            flags: flags_named(&added),
                        },
                    );
                }
                let ghost middle = events.deep_view();
                if removed.len() > 0 {
                    push_event(
                        events,
                        WatchEvent::FlagsRemoved {
                            mailbox: mailbox.to_owned(),
                            id: id.clone(),
                            flags: flags_named(&removed),
                        },
                    );
                }
                proof {
                    assert(events.deep_view() =~= before + keyword_events(mailbox@, id@, then, now));
                }
            },
            None => {
                push_event(
                    events,
                    WatchEvent::EnvelopeAdded {
                        mailbox: mailbox.to_owned(),
                        envelope: envelope_from(email),
                    },
                );
            },
        }
        self.put(id.clone(), words);
    }

    /// Folds a round of changes into the mirror and gives the events of the
    /// round: `emails` are those created or updated, `destroyed` the ids of
    /// those destroyed.
    pub fn apply_diff(&mut self, mailbox: &str, emails: &Vec<Email>, destroyed: &Vec<String>) -> (r: Vec<
        WatchEvent,
    >)
        ensures
            final(self)@ == folded(
                old(self)@,
                mailbox@,
                emails.deep_view(),
                destroyed.deep_view(),
            ).0,
            r.deep_view() == folded(
                old(self)@,
                mailbox@,
                emails.deep_view(),
                destroyed.deep_view(),
            ).1,
    {
        let ghost start = self@;
        let ghost all = emails.deep_view();
        let mut events: Vec<WatchEvent> = Vec::new();
        proof {
            assert(all.take(0) =~= seq![]);
            assert(events.deep_view() =~= seq![]);
        }
        let mut i: usize = 0;
        while i < emails.len()
            invariant
                i <= emails@.len(),
                all == emails.deep_view(),
                self@ == folded_emails(start, mailbox@, all.take(i as int)).0,
                events.deep_view() == folded_emails(start, mailbox@, all.take(i as int)).1,
            decreases emails@.len() - i,
        {
            proof {
                assert(all.take(i + 1).drop_last() =~= all.take(i as int));
                assert(all.take(i + 1).last() == emails@[i as int].deep_view());
            }
            self.fold_email(mailbox, &emails[i], &mut events);
            i = i + 1;
        }
        proof {
            assert(all.take(all.len() as int) =~= all);
        }
        let ghost middle = self@;
        let ghost first = events.deep_view();
        let ghost ends = destroyed.deep_view();
        proof {
            assert(ends.take(0) =~= seq![]);
            assert(first + seq![] =~= first);
        }
        let mut k: usize = 0;
        while k < destroyed.len()
            invariant
                k <= destroyed@.len(),
                ends == destroyed.deep_view(),
                self@ == folded_ends(middle, mailbox@, ends.take(k as int)).0,
                events.deep_view() == first + folded_ends(middle, mailbox@, ends.take(k as int)).1,
            decreases destroyed@.len() - k,
        {
            proof {
                assert(ends.take(k + 1).drop_last() =~= ends.take(k as int));
                assert(ends.take(k + 1).last() == destroyed@[k as int]@);
            }
            let ghost then = self@;
            self.take_out(mailbox, destroyed[k].as_str(), &mut events);
            k = k + 1;
            proof {
                let before = folded_ends(middle, mailbox@, ends.take(k - 1)).1;
                let last = folded_gone(then, mailbox@, destroyed@[k - 1]@).1;
                assert(first + before + last =~= first + (before + last));
            }
        }
        proof {
            assert(ends.take(ends.len() as int) =~= ends);
        }
        events
    }
}

/// The ids of the emails in a mailbox after an event.
pub open spec fn ids_after_event(ids: Set<Seq<char>>, event: WatchEventView) -> Set<Seq<char>> {
    match event {
        WatchEventView::EnvelopeAdded { mailbox, envelope } => ids.insert(envelope.id),
        WatchEventView::EnvelopeRemoved { mailbox, id } => ids.remove(id),
        _ => ids,
    }
}

/// The ids of the emails in a mailbox after events.
pub open spec fn ids_after(ids: Set<Seq<char>>, events: Seq<WatchEventView>) -> Set<Seq<char>>
    decreases events.len(),
{
    if events.len() == 0 {
        ids
    } else {
        ids_after_event(ids_after(ids, events.drop_last()), events.last())
    }
}

proof fn lemma_ids_after_concat(ids: Set<Seq<char>>, a: Seq<WatchEventView>, b: Seq<WatchEventView>)
    ensures
        ids_after(ids, a + b) == ids_after(ids_after(ids, a), b),
    decreases b.len(),
{
    if b.len() == 0 {
        assert(a + b =~= a);
    } else {
        lemma_ids_after_concat(ids, a, b.drop_last());
        assert((a + b).drop_last() =~= a + b.drop_last());
        assert((a + b).last() == b.last());
    }
}

proof fn lemma_ids_after_one(ids: Set<Seq<char>>, event: WatchEventView)
    ensures
        ids_after(ids, seq![event]) == ids_after_event(ids, event),
{
    assert(seq![event].drop_last() =~= seq![]);
    assert(ids_after(ids, seq![event].drop_last()) == ids);
}

proof fn lemma_email_tracks(mirror: Mirror, mailbox: Seq<char>, email: EmailView)
    ensures
        ids_after(mirror.dom(), folded_email(mirror, mailbox, email).1) =~= folded_email(
            mirror,
            mailbox,
            email,
        ).0.dom(),
{
    let step = folded_email(mirror, mailbox, email);
    if email.id is Some {
        let id = email.id->0;
        let words = raised(list_or_empty(email.keywords));
        if in_mailbox(email, mailbox) {
            if mirror.contains_key(id) {
                let was = mirror[id];
                let events = keyword_events(mailbox, id, was, words);
                let added: Seq<WatchEventView> = if words.subset_of(was) {
                    seq![]
                } else {
                    seq![
                        WatchEventView::FlagsAdded {
                            mailbox,
                            id,
                            flags: named(words.difference(was)),
                        },
                    ]
                };
                let removed: Seq<WatchEventView> = if was.subset_of(words) {
                    seq![]
                } else {
                    seq![
                        WatchEventView::FlagsRemoved {
                            mailbox,
                            id,
                            flags: named(was.difference(words)),
                        },
                    ]
                };
                assert(events == added + removed);
                lemma_ids_after_concat(mirror.dom(), added, removed);
                if added.len() > 0 {
                    lemma_ids_after_one(mirror.dom(), added[0]);
                }
                if removed.len() > 0 {
                    lemma_ids_after_one(mirror.dom(), removed[0]);
                }
                assert(mirror.insert(id, words).dom() =~= mirror.dom());
            } else {
                lemma_ids_after_one(
                    mirror.dom(),
                    WatchEventView::EnvelopeAdded { mailbox, envelope: envelope_of(email) },
                );
            }
        } else {
            lemma_gone_tracks(mirror, mailbox, id);
        }
    }
}

proof fn lemma_gone_tracks(mirror: Mirror, mailbox: Seq<char>, id: Seq<char>)
    ensures
        ids_after(mirror.dom(), folded_gone(mirror, mailbox, id).1) =~= folded_gone(
            mirror,
            mailbox,
            id,
        ).0.dom(),
{
    if mirror.contains_key(id) {
        lemma_ids_after_one(mirror.dom(), WatchEventView::EnvelopeRemoved { mailbox, id });
    }
}

proof fn lemma_emails_track(mirror: Mirror, mailbox: Seq<char>, emails: Seq<EmailView>)
    ensures
        ids_after(mirror.dom(), folded_emails(mirror, mailbox, emails).1) =~= folded_emails(
            mirror,
            mailbox,
            emails,
        ).0.dom(),
    decreases emails.len(),
{
    if emails.len() > 0 {
        let before = folded_emails(mirror, mailbox, emails.drop_last());
        lemma_emails_track(mirror, mailbox, emails.drop_last());
        lemma_email_tracks(before.0, mailbox, emails.last());
        lemma_ids_after_concat(
            mirror.dom(),
            before.1,
            folded_email(before.0, mailbox, emails.last()).1,
        );
    }
}

proof fn lemma_ends_track(mirror: Mirror, mailbox: Seq<char>, ids: Seq<Seq<char>>)
    ensures
        ids_after(mirror.dom(), folded_ends(mirror, mailbox, ids).1) =~= folded_ends(
            mirror,
            mailbox,
            ids,
        ).0.dom(),
    decreases ids.len(),
{
    if ids.len() > 0 {
        let before = folded_ends(mirror, mailbox, ids.drop_last());
        lemma_ends_track(mirror, mailbox, ids.drop_last());
        lemma_gone_tracks(before.0, mailbox, ids.last());
        lemma_ids_after_concat(mirror.dom(), before.1, folded_gone(before.0, mailbox, ids.last()).1);
    }
}

/// The events of a round account for every email that came into the mailbox
/// or left it: replayed on the ids that were in the mirror, they give the
/// ids that are in it after the round.
pub proof fn law_events_track_mirror(
    mirror: Mirror,
    mailbox: Seq<char>,
    emails: Seq<EmailView>,
    destroyed: Seq<Seq<char>>,
)
    ensures
        ids_after(mirror.dom(), folded(mirror, mailbox, emails, destroyed).1) =~= folded(
            mirror,
            mailbox,
            emails,
            destroyed,
        ).0.dom(),
{
    let changed = folded_emails(mirror, mailbox, emails);
    lemma_emails_track(mirror, mailbox, emails);
    lemma_ends_track(changed.0, mailbox, destroyed);
    lemma_ids_after_concat(mirror.dom(), changed.1, folded_ends(changed.0, mailbox, destroyed).1);
}

/// Whether an email is the last of some that tells of an id.
pub open spec fn tells_last(emails: Seq<EmailView>, id: Seq<char>, k: int) -> bool {
    &&& 0 <= k < emails.len()
    &&& emails[k].id == Some(id)
    &&& forall|j: int| k < j < emails.len() ==> (#[trigger] emails[j]).id != Some(id)
}

proof fn lemma_emails_mirrored(mirror: Mirror, mailbox: Seq<char>, emails: Seq<EmailView>, id: Seq<char>, k: int)
    ensures
        ({
            let after = folded_emails(mirror, mailbox, emails).0;
            &&& tells_last(emails, id, k) ==> (after.contains_key(id) <==> in_mailbox(
                emails[k],
                mailbox,
            )) && (after.contains_key(id) ==> after[id] == raised(list_or_empty(emails[k].keywords)))
            &&& (forall|j: int| 0 <= j < emails.len() ==> (#[trigger] emails[j]).id != Some(id)) ==> (
            after.contains_key(id) <==> mirror.contains_key(id)) && (mirror.contains_key(id) ==> after[id]
                == mirror[id])
        }),
    decreases emails.len(),
{
    if emails.len() > 0 {
        let most = emails.drop_last();
        lemma_emails_mirrored(mirror, mailbox, most, id, k);
        assert(emails[emails.len() - 1] == emails.last());
        assert forall|j: int| 0 <= j < most.len() implies #[trigger] most[j] == emails[j] by {}
    }
}

proof fn lemma_ends_mirrored(mirror: Mirror, mailbox: Seq<char>, ids: Seq<Seq<char>>, id: Seq<char>)
    ensures
        ({
            let after = folded_ends(mirror, mailbox, ids).0;
            &&& after.contains_key(id) <==> mirror.contains_key(id) && !ids.contains(id)
            &&& after.contains_key(id) ==> after[id] == mirror[id]
        }),
    decreases ids.len(),
{
    if ids.len() > 0 {
        let most = ids.drop_last();
        lemma_ends_mirrored(mirror, mailbox, most, id);
        assert(ids[ids.len() - 1] == ids.last());
        if most.contains(id) {
            let i = most.index_of(id);
            assert(ids[i] == id);
        }
        if ids.contains(id) {
            let i = ids.index_of(id);
            if i < most.len() {
                assert(most[i] == id);
            }
        }
    }
}

/// The mirror is the mailbox as the server last told of it: an email that was
/// destroyed is not in it; else the last that was told of an email decides
/// whether it is in it and with which keywords; and an email that nothing was
/// told of stays as it was.
pub proof fn law_mirror_is_what_was_told(
    mirror: Mirror,
    mailbox: Seq<char>,
    emails: Seq<EmailView>,
    destroyed: Seq<Seq<char>>,
    id: Seq<char>,
    k: int,
)
    ensures
        ({
            let after = folded(mirror, mailbox, emails, destroyed).0;
            &&& destroyed.contains(id) ==> !after.contains_key(id)
            &&& !destroyed.contains(id) && tells_last(emails, id, k) ==> (after.contains_key(id)
                <==> in_mailbox(emails[k], mailbox)) && (after.contains_key(id) ==> after[id] == raised(
                list_or_empty(emails[k].keywords),
            ))
            &&& !destroyed.contains(id) && (forall|j: int|
                0 <= j < emails.len() ==> (#[trigger] emails[j]).id != Some(id)) ==> (after.contains_key(
                id,
            ) <==> mirror.contains_key(id)) && (mirror.contains_key(id) ==> after[id] == mirror[id])
        }),
{
    lemma_emails_mirrored(mirror, mailbox, emails, id, k);
    lemma_ends_mirrored(folded_emails(mirror, mailbox, emails).0, mailbox, destroyed, id);
}

/// The flags of the emails of a mirror.
pub open spec fn flags_in(mirror: Mirror) -> Map<Seq<char>, Set<Seq<char>>> {
    mirror.map_values(|words: Set<Seq<char>>| named(words))
}

/// Whether no two keywords are spellings of the same flag.
pub open spec fn told_apart(words: Set<Seq<char>>) -> bool {
    forall|a: Seq<char>, b: Seq<char>|
        words.contains(a) && words.contains(b) && #[trigger] kept(a) == #[trigger] kept(b) ==> a == b
}

/// Whether the keywords of a mirror are all among some.
pub open spec fn mirror_within(mirror: Mirror, words: Set<Seq<char>>) -> bool {
    forall|id: Seq<char>| #[trigger] mirror.contains_key(id) ==> mirror[id].subset_of(words)
}

proof fn lemma_keyword_events_replay(
    mailbox: Seq<char>,
    id: Seq<char>,
    was: Set<Seq<char>>,
    now: Set<Seq<char>>,
    words: Set<Seq<char>>,
    flags: Map<Seq<char>, Set<Seq<char>>>,
)
    requires
        told_apart(words),
        was.subset_of(words),
        now.subset_of(words),
        flags.contains_key(id),
        flags[id] == named(was),
    ensures
        all_applied(flags, keyword_events(mailbox, id, was, now)) == flags.insert(id, named(now)),
{
    let events = keyword_events(mailbox, id, was, now);
    let none: Seq<WatchEventView> = seq![];
    assert(all_applied(flags, none) == flags);
    let mid = flags.insert(id, named(was).union(named(now.difference(was))));
    let first: Seq<WatchEventView> = if now.subset_of(was) {
        seq![]
    } else {
        seq![WatchEventView::FlagsAdded { mailbox, id, flags: named(now.difference(was)) }]
    };
    assert(all_applied(flags, first) =~= mid) by {
        if now.subset_of(was) {
            assert(now.difference(was) =~= Set::empty());
            assert(named(was).union(named(now.difference(was))) =~= named(was));
        } else {
            assert(first.drop_last() =~= none);
        }
    }
    assert(named(was).union(named(now.difference(was))).difference(named(was.difference(now)))
        =~= named(now)) by {
        lemma_named_replay(was, now, words);
    }
    if was.subset_of(now) {
        assert(was.difference(now) =~= Set::empty());
        assert(named(was).union(named(now.difference(was))).difference(named(was.difference(now)))
            =~= named(was).union(named(now.difference(was))));
        assert(events =~= first);
        assert(mid =~= flags.insert(id, named(now)));
    } else {
        assert(events.drop_last() =~= first);
        assert(applied(mid, events.last()) =~= flags.insert(id, named(now)));
    }
}

proof fn lemma_named_replay(was: Set<Seq<char>>, now: Set<Seq<char>>, words: Set<Seq<char>>)
    requires
        told_apart(words),
        was.subset_of(words),
        now.subset_of(words),
    ensures
        named(was).union(named(now.difference(was))).difference(named(was.difference(now))) =~= named(now),
{
    let all = named(was).union(named(now.difference(was)));
    let gone = named(was.difference(now));
    assert forall|flag: Seq<char>| #[trigger] all.difference(gone).contains(flag) <==> named(now).contains(
        flag,
    ) by {
        if all.contains(flag) && !gone.contains(flag) {
            if named(was).contains(flag) {
                let word = choose|word: Seq<char>| was.contains(word) && kept(word) == flag;
                if !now.contains(word) {
                    assert(was.difference(now).contains(word));
                    assert(gone.contains(kept(word)));
                }
                assert(named(now).contains(kept(word)));
            } else {
                let word = choose|word: Seq<char>|
                    now.difference(was).contains(word) && kept(word) == flag;
                assert(now.contains(word));
                assert(named(now).contains(kept(word)));
            }
        }
        if named(now).contains(flag) {
            let word = choose|word: Seq<char>| now.contains(word) && kept(word) == flag;
            if was.contains(word) {
                assert(named(was).contains(kept(word)));
            } else {
                assert(now.difference(was).contains(word));
                assert(named(now.difference(was)).contains(kept(word)));
            }
            if gone.contains(flag) {
                let other = choose|other: Seq<char>|
                    was.difference(now).contains(other) && kept(other) == flag;
                assert(words.contains(other) && words.contains(word));
                assert(kept(other) == kept(word));
            }
        }
    }
}

proof fn lemma_raised_named(list: Seq<(Seq<char>, bool)>)
    ensures
        set_keywords(list) =~= named(raised(list)),
{
    assert forall|flag: Seq<char>| #[trigger] set_keywords(list).contains(flag) <==> named(
        raised(list),
    ).contains(flag) by {
        law_flags_are_the_true_keywords(list, flag);
        if set_keywords(list).contains(flag) {
            let i = choose|i: int| 0 <= i < list.len() && (#[trigger] list[i]).1 && kept(list[i].0) == flag;
            assert(list[i] == (list[i].0, true));
            assert(raised(list).contains(list[i].0));
            assert(named(raised(list)).contains(kept(list[i].0)));
        }
        if named(raised(list)).contains(flag) {
            let word = choose|word: Seq<char>| raised(list).contains(word) && kept(word) == flag;
            let i = list.index_of((word, true));
            assert(list[i].1 && kept(list[i].0) == flag);
        }
    }
}

proof fn lemma_gone_replays(mirror: Mirror, mailbox: Seq<char>, id: Seq<char>, words: Set<Seq<char>>)
    requires
        mirror_within(mirror, words),
    ensures
        ({
            let (after, events) = folded_gone(mirror, mailbox, id);
            mirror_within(after, words) && all_applied(flags_in(mirror), events) == flags_in(after)
        }),
{
    let (after, events) = folded_gone(mirror, mailbox, id);
    let none: Seq<WatchEventView> = seq![];
    assert(all_applied(flags_in(mirror), none) == flags_in(mirror));
    if mirror.contains_key(id) {
        assert(events.drop_last() =~= none);
        assert(flags_in(mirror).remove(id) =~= flags_in(after));
    }
}

proof fn lemma_email_replays(mirror: Mirror, mailbox: Seq<char>, email: EmailView, words: Set<Seq<char>>)
    requires
        told_apart(words),
        mirror_within(mirror, words),
        raised(list_or_empty(email.keywords)).subset_of(words),
    ensures
        ({
            let (after, events) = folded_email(mirror, mailbox, email);
            mirror_within(after, words) && all_applied(flags_in(mirror), events) == flags_in(after)
        }),
{
    let (after, events) = folded_email(mirror, mailbox, email);
    let none: Seq<WatchEventView> = seq![];
    let flags = flags_in(mirror);
    assert(all_applied(flags, none) == flags);
    if let Some(id) = email.id {
        let now = raised(list_or_empty(email.keywords));
        if in_mailbox(email, mailbox) {
            assert(flags.insert(id, named(now)) =~= flags_in(after));
            if mirror.contains_key(id) {
                lemma_keyword_events_replay(mailbox, id, mirror[id], now, words, flags);
            } else {
                lemma_raised_named(list_or_empty(email.keywords));
                assert(events.drop_last() =~= none);
                assert(envelope_of(email).id == id);
                assert(envelope_of(email).flags == named(now));
            }
        } else {
            lemma_gone_replays(mirror, mailbox, id, words);
        }
    }
}

proof fn lemma_emails_replay(mirror: Mirror, mailbox: Seq<char>, emails: Seq<EmailView>, words: Set<Seq<char>>)
    requires
        told_apart(words),
        mirror_within(mirror, words),
        forall|i: int|
            0 <= i < emails.len() ==> raised(list_or_empty((#[trigger] emails[i]).keywords)).subset_of(
                words,
            ),
    ensures
        ({
            let (after, events) = folded_emails(mirror, mailbox, emails);
            mirror_within(after, words) && all_applied(flags_in(mirror), events) == flags_in(after)
        }),
    decreases emails.len(),
{
    if emails.len() > 0 {
        let most = emails.drop_last();
        assert forall|i: int| 0 <= i < most.len() implies raised(
            list_or_empty((#[trigger] most[i]).keywords),
        ).subset_of(words) by {
            assert(most[i] == emails[i]);
        }
        lemma_emails_replay(mirror, mailbox, most, words);
        let before = folded_emails(mirror, mailbox, most);
        assert(emails[emails.len() - 1] == emails.last());
        lemma_email_replays(before.0, mailbox, emails.last(), words);
        lemma_applied_in_turn(
            flags_in(mirror),
            before.1,
            folded_email(before.0, mailbox, emails.last()).1,
        );
    }
}

proof fn lemma_ends_replay(mirror: Mirror, mailbox: Seq<char>, ids: Seq<Seq<char>>, words: Set<Seq<char>>)
    requires
        mirror_within(mirror, words),
    ensures
        ({
            let (after, events) = folded_ends(mirror, mailbox, ids);
            mirror_within(after, words) && all_applied(flags_in(mirror), events) == flags_in(after)
        }),
    decreases ids.len(),
{
    if ids.len() > 0 {
        lemma_ends_replay(mirror, mailbox, ids.drop_last(), words);
        let before = folded_ends(mirror, mailbox, ids.drop_last());
        lemma_gone_replays(before.0, mailbox, ids.last(), words);
        lemma_applied_in_turn(flags_in(mirror), before.1, folded_gone(before.0, mailbox, ids.last()).1);
    }
}

/// The events of a round, replayed on the flags of the emails that were in the
/// mirror, give the flags of those in it after the round, provided that no two
/// keywords are spellings of the same flag.
pub proof fn law_round_replays(
    mirror: Mirror,
    mailbox: Seq<char>,
    emails: Seq<EmailView>,
    destroyed: Seq<Seq<char>>,
    words: Set<Seq<char>>,
)
    requires
        told_apart(words),
        mirror_within(mirror, words),
        forall|i: int|
            0 <= i < emails.len() ==> raised(list_or_empty((#[trigger] emails[i]).keywords)).subset_of(
                words,
            ),
    ensures
        all_applied(flags_in(mirror), folded(mirror, mailbox, emails, destroyed).1) == flags_in(
            folded(mirror, mailbox, emails, destroyed).0,
        ),
{
    lemma_emails_replay(mirror, mailbox, emails, words);
    let changed = folded_emails(mirror, mailbox, emails);
    lemma_ends_replay(changed.0, mailbox, destroyed, words);
    lemma_applied_in_turn(
        flags_in(mirror),
        changed.1,
        folded_ends(changed.0, mailbox, destroyed).1,
    );
}

/// An email is in a mailbox exactly when it lists the mailbox as true, and has
/// a keyword exactly when it lists the keyword as true.
pub proof fn law_listed_as_true(email: EmailView, mailbox: Seq<char>, list: Seq<(Seq<char>, bool)>, word: Seq<char>)
    ensures
        in_mailbox(email, mailbox) <==> (email.mailbox_ids matches Some(ids) && exists|i: int|
            0 <= i < ids.len() && (#[trigger] ids[i]).0 == mailbox && ids[i].1),
        raised(list).contains(word) <==> exists|i: int|
            0 <= i < list.len() && (#[trigger] list[i]).0 == word && list[i].1,
{
    if let Some(ids) = email.mailbox_ids {
        if exists|i: int| 0 <= i < ids.len() && (#[trigger] ids[i]).0 == mailbox && ids[i].1 {
            let i = choose|i: int| 0 <= i < ids.len() && (#[trigger] ids[i]).0 == mailbox && ids[i].1;
            assert(ids[i] == (mailbox, true));
        }
        if ids.contains((mailbox, true)) {
            let i = ids.index_of((mailbox, true));
            assert(ids[i].0 == mailbox && ids[i].1);
        }
    }
    if exists|i: int| 0 <= i < list.len() && (#[trigger] list[i]).0 == word && list[i].1 {
        let i = choose|i: int| 0 <= i < list.len() && (#[trigger] list[i]).0 == word && list[i].1;
        assert(list[i] == (word, true));
    }
    if list.contains((word, true)) {
        let i = list.index_of((word, true));
        assert(list[i].0 == word && list[i].1);
    }
}

} // verus!
