//! IMAP mailbox-watch coroutine over IDLE and QRESYNC, with its deltas as
//! shared events.
use vstd::prelude::*;

use std::sync::atomic::AtomicBool;
use std::sync::Arc;

use io_imap::codec::fragmentizer::Fragmentizer;
use io_imap::coroutine::{ImapCoroutine, ImapCoroutineState};
use io_imap::types::fetch::MessageDataItem;
use io_imap::types::mailbox::Mailbox as WireMailbox;
use io_imap::types::response::Capability;
use io_imap::watch::{
    ImapMailboxWatch, ImapMailboxWatchError, ImapMailboxWatchEvent, ImapMailboxWatchYield as InnerYield,
};

use crate::coroutine::{fed, EmailCoroutineState};
use crate::event::{WatchEvent, WatchEventView};
use crate::flag::types::{kept, Flag, FlagSet};
use crate::imap::convert::{parse_mailbox, transmissible, ImapMailbox, InvalidMailboxName};
use crate::imap::fetch::{envelope_from, envelope_of, item_views, read_items};
use crate::text::{decimal, decimal_of, law_decimal_reads_back, number};

verus! {

/// The mailbox watch of `io_imap`.
#[verifier::external_type_specification]
#[verifier::external_body]
pub struct ExImapMailboxWatch(ImapMailboxWatch);

/// Why a watch failed.
#[verifier::external_type_specification]
#[verifier::external_body]
pub struct ExImapMailboxWatchError(ImapMailboxWatchError);

/// A delta of a watch.
#[verifier::external_type_specification]
#[verifier::external_body]
pub struct ExImapMailboxWatchEvent(ImapMailboxWatchEvent);

/// A delta of a watch, its FETCH items still opaque and its flags spelled
/// out.
pub enum Delta {
    Added { uid: u32, items: Vec<MessageDataItem<'static>> },
    Removed { uid: u32 },
    FlagsAdded { uid: u32, flags: Vec<String> },
    FlagsRemoved { uid: u32, flags: Vec<String> },
}

/// What a [`Delta`] says.
pub enum DeltaView {
    Added { uid: u32, items: Seq<MessageDataItem<'static>> },
    Removed { uid: u32 },
    FlagsAdded { uid: u32, flags: Seq<Seq<char>> },
    FlagsRemoved { uid: u32, flags: Seq<Seq<char>> },
}

impl DeepView for Delta {
    type V = DeltaView;

    open spec fn deep_view(&self) -> DeltaView {
        match self {
            Delta::Added { uid, items } => DeltaView::Added { uid: *uid, items: items@ },
            Delta::Removed { uid } => DeltaView::Removed { uid: *uid },
            Delta::FlagsAdded { uid, flags } => DeltaView::FlagsAdded {
                uid: *uid,
                flags: flags.deep_view(),
            },
            Delta::FlagsRemoved { uid, flags } => DeltaView::FlagsRemoved {
                uid: *uid,
                flags: flags.deep_view(),
            },
        }
    }
}

/// The content of a delta, by its variant.
pub uninterp spec fn delta_content(event: ImapMailboxWatchEvent) -> DeltaView;

/// Tells the variants of [`ImapMailboxWatchEvent`] apart and spells flags
/// out.
#[verifier::external_body]
fn read_delta(event: ImapMailboxWatchEvent) -> (r: Delta)
    ensures
        r.deep_view() == delta_content(event),
{
    match event {
        ImapMailboxWatchEvent::EnvelopeAdded { uid, items } => Delta::Added { uid: uid.get(), items },
        ImapMailboxWatchEvent::EnvelopeRemoved { uid } => Delta::Removed { uid: uid.get() },
        ImapMailboxWatchEvent::FlagsAdded { uid, flags } => Delta::FlagsAdded {
            uid: uid.get(),
            flags: flags.iter().map(|flag| flag.to_string()).collect(),
        },
        ImapMailboxWatchEvent::FlagsRemoved { uid, flags } => Delta::FlagsRemoved {
            uid: uid.get(),
            flags: flags.iter().map(|flag| flag.to_string()).collect(),
        },
    }
}

/// The mailbox that a watch is on.
pub uninterp spec fn watched(watch: ImapMailboxWatch) -> Seq<char>;

/// The flag that a watch looks at to know when to end.
pub uninterp spec fn watch_flag(watch: ImapMailboxWatch) -> Arc<AtomicBool>;

/// Whether a step of a watch can come to `step`, and leave the watch and the
/// parser so. What it comes to rests on the flag and on the fresh tags of the
/// commands it sends too.
pub uninterp spec fn watch_can(
    watch: ImapMailboxWatch,
    fragmentizer: Fragmentizer,
    bytes: Option<Seq<u8>>,
    step: EmailCoroutineState<InnerStep, Result<(), ImapMailboxWatchError>>,
    left: ImapMailboxWatch,
    parsed: Fragmentizer,
) -> bool;

/// [`ImapMailboxWatch::new`]: refused exactly where the server does not
/// have QRESYNC.
#[verifier::external_body]
fn watch_new(qresync: bool, mailbox: &ImapMailbox, shutdown: Arc<AtomicBool>) -> (r: Result<
    ImapMailboxWatch,
    ImapMailboxWatchError,
>)
    ensures
        r is Ok <==> qresync,
        r matches Ok(watch) ==> watched(watch) == mailbox@ && watch_flag(watch) == shutdown,
{
    let capabilities: Vec<Capability> = qresync.then_some(Capability::QResync).into_iter().collect();
    let mailbox = WireMailbox::try_from(mailbox.as_str().to_owned()).unwrap();
    ImapMailboxWatch::new(&capabilities, mailbox, shutdown)
}

/// What a step of the inner watch yields.
pub enum InnerStep {
    WantsRead,
    WantsWrite(Vec<u8>),
    Event(ImapMailboxWatchEvent),
}

/// One step of [`ImapMailboxWatch`] on the parser and the bytes given. It
/// looks at the shutdown flag and sends commands under fresh tags, so the
/// same watch can come to different things; it stays on its mailbox and keeps
/// its flag.
#[verifier::external_body]
fn watch_resume(
    watch: &mut ImapMailboxWatch,
    fragmentizer: &mut Fragmentizer,
    bytes: Option<&[u8]>,
) -> (r: EmailCoroutineState<InnerStep, Result<(), ImapMailboxWatchError>>)
    ensures
        watched(*final(watch)) == watched(*old(watch)),
        watch_flag(*final(watch)) == watch_flag(*old(watch)),
        watch_can(
            *old(watch),
            *old(fragmentizer),
            fed(bytes),
            r,
            *final(watch),
            *final(fragmentizer),
        ),
{
    match watch.resume(fragmentizer, bytes) {
        ImapCoroutineState::Yielded(InnerYield::WantsRead) => {
            EmailCoroutineState::Yielded(InnerStep::WantsRead)
        },
        ImapCoroutineState::Yielded(InnerYield::WantsWrite(out)) => {
            EmailCoroutineState::Yielded(InnerStep::WantsWrite(out))
        },
        ImapCoroutineState::Yielded(InnerYield::Event(event)) => {
            EmailCoroutineState::Yielded(InnerStep::Event(event))
        },
        ImapCoroutineState::Complete(result) => EmailCoroutineState::Complete(result),
    }
}

/// Errors produced by [`ImapWatchMailbox`].
#[derive(Debug)]
pub enum ImapWatchMailboxError {
    Watch(ImapMailboxWatchError),
    InvalidMailbox(String),
}

/// Yield mixing socket I/O requests and domain events.
#[derive(Debug)]
pub enum ImapWatchMailboxYield {
    /// Read more bytes and feed them back on the next resume.
    WantsRead,
    /// Write these bytes.
    WantsWrite(Vec<u8>),
    /// One delta.
    Event(WatchEvent),
}

/// The flags of a delta.
pub open spec fn delta_flags(flags: Seq<Seq<char>>) -> Set<Seq<char>>
    decreases flags.len(),
{
    if flags.len() == 0 {
        Set::empty()
    } else {
        delta_flags(flags.drop_last()).insert(kept(flags.last()))
    }
}

/// The shared event of a delta.
pub open spec fn event_of(mailbox: Seq<char>, delta: DeltaView) -> WatchEventView {
    match delta {
        DeltaView::Added { uid, items } => WatchEventView::EnvelopeAdded {
            mailbox,
            envelope: envelope_of(uid, item_views(items)),
        },
        DeltaView::Removed { uid } => WatchEventView::EnvelopeRemoved {
            mailbox,
            id: decimal(uid as nat),
        },
        DeltaView::FlagsAdded { uid, flags } => WatchEventView::FlagsAdded {
            mailbox,
            id: decimal(uid as nat),
            flags: delta_flags(flags),
        },
        DeltaView::FlagsRemoved { uid, flags } => WatchEventView::FlagsRemoved {
            mailbox,
            id: decimal(uid as nat),
            flags: delta_flags(flags),
        },
    }
}

fn collect_flags(flags: &Vec<String>) -> (r: FlagSet)
    ensures
        r@ == delta_flags(flags.deep_view()),
{
    let mut out = FlagSet::new();
    let ghost all = flags.deep_view();
    proof {
        assert(all.subrange(0, 0) =~= seq![]);
    }
    let mut i: usize = 0;
    while i < flags.len()
        invariant
            i <= flags@.len(),
            all == flags.deep_view(),
            out@ == delta_flags(all.subrange(0, i as int)),
        decreases flags@.len() - i,
    {
        proof {
            assert(all.subrange(0, i + 1).drop_last() =~= all.subrange(0, i as int));
            assert(all.subrange(0, i + 1).last() == flags@[i as int]@);
        }
        out.insert(Flag::from_raw(&flags[i]));
        i = i + 1;
    }
    proof {
        assert(all.subrange(0, all.len() as int) =~= all);
    }
    out
}

/// Translates a delta into a shared [`WatchEvent`].
pub fn translate_event(mailbox: &str, delta: Delta) -> (r: WatchEvent)
    ensures
        r.deep_view() == event_of(mailbox@, delta.deep_view()),
{
    match delta {
        Delta::Added { uid, items } => {
            let items = read_items(&items);
            WatchEvent::EnvelopeAdded {
                mailbox: mailbox.to_owned(),
                envelope: envelope_from(uid, &items),
            }
        },
        Delta::Removed { uid } => WatchEvent::EnvelopeRemoved {
            mailbox: mailbox.to_owned(),
            id: decimal_of(uid as u64),
        },
        Delta::FlagsAdded { uid, flags } => WatchEvent::FlagsAdded {
            mailbox: mailbox.to_owned(),
            id: decimal_of(uid as u64),
            flags: collect_flags(&flags),
        },
        Delta::FlagsRemoved { uid, flags } => WatchEvent::FlagsRemoved {
            mailbox: mailbox.to_owned(),
            id: decimal_of(uid as u64),
            flags: collect_flags(&flags),
        },
    }
}

/// What a resume of a watch returns.
pub type Step = EmailCoroutineState<ImapWatchMailboxYield, Result<(), ImapWatchMailboxError>>;

/// The answer of the watch on `mailbox` for what the inner watch came to.
pub open spec fn answers(
    mailbox: Seq<char>,
    inner: EmailCoroutineState<InnerStep, Result<(), ImapMailboxWatchError>>,
    r: Step,
) -> bool {
    match inner {
        EmailCoroutineState::Yielded(InnerStep::WantsRead) => r == Step::Yielded(
            ImapWatchMailboxYield::WantsRead,
        ),
        EmailCoroutineState::Yielded(InnerStep::WantsWrite(bytes)) => r == Step::Yielded(
            ImapWatchMailboxYield::WantsWrite(bytes),
        ),
        EmailCoroutineState::Yielded(InnerStep::Event(event)) => {
            &&& r matches EmailCoroutineState::Yielded(ImapWatchMailboxYield::Event(out))
            &&& out.deep_view() == event_of(mailbox, delta_content(event))
        },
        EmailCoroutineState::Complete(Ok(())) => r == Step::Complete(Ok(())),
        EmailCoroutineState::Complete(Err(err)) => r == Step::Complete(
            Err(ImapWatchMailboxError::Watch(err)),
        ),
    }
}

/// I/O-free coroutine watching a single IMAP mailbox for envelope-level
/// deltas.
pub struct ImapWatchMailbox {
    inner: ImapMailboxWatch,
    mailbox: String,
}

impl ImapWatchMailbox {
    /// The mailbox that is watched, as events name it.
    pub closed spec fn mailbox(self) -> Seq<char> {
        self.mailbox@
    }

    /// The inner watch.
    pub closed spec fn inner(self) -> ImapMailboxWatch {
        self.inner
    }

    /// The mailbox that the inner watch is on.
    pub open spec fn target(self) -> Seq<char> {
        watched(self.inner())
    }

    /// `qresync` says whether the server has that capability (RFC 7162). The
    /// watch ends after `shutdown` is set.
    pub fn new(mailbox: &str, qresync: bool, shutdown: Arc<AtomicBool>) -> (r: Result<
        ImapWatchMailbox,
        ImapWatchMailboxError,
    >)
        ensures
            match r {
                Ok(watch) => transmissible(mailbox@) && qresync && watch.mailbox() == mailbox@
                    && watch.target() == mailbox@ && watch_flag(watch.inner()) == shutdown,
                Err(ImapWatchMailboxError::InvalidMailbox(name)) => !transmissible(mailbox@) && name@
                    == mailbox@,
                Err(ImapWatchMailboxError::Watch(_)) => transmissible(mailbox@) && !qresync,
            },
    {
        let parsed = match parse_mailbox(mailbox) {
            Ok(parsed) => parsed,
            Err(InvalidMailboxName(name)) => {
                return Err(ImapWatchMailboxError::InvalidMailbox(name));
            },
        };
        match watch_new(qresync, &parsed, shutdown) {
            Ok(inner) => Ok(ImapWatchMailbox { inner, mailbox: mailbox.to_owned() }),
            Err(err) => Err(ImapWatchMailboxError::Watch(err)),
        }
    }

    /// The answer for what the inner watch came to.
    pub fn answer(&self, inner: EmailCoroutineState<InnerStep, Result<(), ImapMailboxWatchError>>) -> (r:
        Step)
        ensures
            answers(self.mailbox(), inner, r),
    {
        match inner {
            EmailCoroutineState::Yielded(InnerStep::WantsRead) => EmailCoroutineState::Yielded(
                ImapWatchMailboxYield::WantsRead,
            ),
            EmailCoroutineState::Yielded(InnerStep::WantsWrite(bytes)) => {
                EmailCoroutineState::Yielded(ImapWatchMailboxYield::WantsWrite(bytes))
            },
            EmailCoroutineState::Yielded(InnerStep::Event(event)) => {
                let delta = read_delta(event);
                EmailCoroutineState::Yielded(
                    ImapWatchMailboxYield::Event(translate_event(&self.mailbox, delta)),
                )
            },
            EmailCoroutineState::Complete(Ok(())) => EmailCoroutineState::Complete(Ok(())),
            EmailCoroutineState::Complete(Err(err)) => EmailCoroutineState::Complete(
                Err(ImapWatchMailboxError::Watch(err)),
            ),
        }
    }

    /// Advances the watch: a step of the inner watch on the parser and the
    /// bytes given, and the answer for what it came to.
    pub fn resume(&mut self, fragmentizer: &mut Fragmentizer, bytes: Option<&[u8]>) -> (r: Step)
        ensures
            final(self).mailbox() == old(self).mailbox(),
            final(self).target() == old(self).target(),
            watch_flag(final(self).inner()) == watch_flag(old(self).inner()),
            exists|inner: EmailCoroutineState<InnerStep, Result<(), ImapMailboxWatchError>>|
                #[trigger] answers(old(self).mailbox(), inner, r) && watch_can(
                    old(self).inner(),
                    *old(fragmentizer),
                    fed(bytes),
                    inner,
                    final(self).inner(),
                    *final(fragmentizer),
                ),
    {
        let step = watch_resume(&mut self.inner, fragmentizer, bytes);
        self.answer(step)
    }
}

/// A flag is told of exactly when it is the kept spelling of one that came.
pub proof fn law_flags_told(flags: Seq<Seq<char>>, flag: Seq<char>)
    ensures
        delta_flags(flags).contains(flag) <==> exists|i: int|
            0 <= i < flags.len() && kept(#[trigger] flags[i]) == flag,
    decreases flags.len(),
{
    if flags.len() > 0 {
        let most = flags.drop_last();
        law_flags_told(most, flag);
        assert(flags[flags.len() - 1] == flags.last());
        if delta_flags(most).contains(flag) {
            let i = choose|i: int| 0 <= i < most.len() && kept(#[trigger] most[i]) == flag;
            assert(flags[i] == most[i]);
        }
        if exists|i: int| 0 <= i < flags.len() && kept(#[trigger] flags[i]) == flag {
            let i = choose|i: int| 0 <= i < flags.len() && kept(#[trigger] flags[i]) == flag;
            if i < most.len() {
                assert(most[i] == flags[i]);
            }
        }
    }
}

/// The flags of a message once the server has told of a change.
pub open spec fn flags_by_delta(delta: DeltaView, uid: u32, flags: Set<Seq<char>>) -> Set<Seq<char>> {
    match delta {
        DeltaView::FlagsAdded { uid: of, flags: new } if of == uid => Set::new(
            |f: Seq<char>|
                flags.contains(f) || exists|i: int| 0 <= i < new.len() && kept(#[trigger] new[i]) == f,
        ),
        DeltaView::FlagsRemoved { uid: of, flags: gone } if of == uid => Set::new(
            |f: Seq<char>|
                flags.contains(f) && !exists|i: int| 0 <= i < gone.len() && kept(#[trigger] gone[i]) == f,
        ),
        _ => flags,
    }
}

/// The flags of a message once an event has been heard.
pub open spec fn flags_by_event(event: WatchEventView, id: Seq<char>, flags: Set<Seq<char>>) -> Set<
    Seq<char>,
> {
    match event {
        WatchEventView::FlagsAdded { id: of, flags: new, .. } if of == id => flags.union(new),
        WatchEventView::FlagsRemoved { id: of, flags: gone, .. } if of == id => flags.difference(gone),
        _ => flags,
    }
}

/// Whoever follows the events has the flags of every message as the server
/// tells of them: those of the message named, and no other.
pub proof fn law_events_follow_the_server(mailbox: Seq<char>, delta: DeltaView, uid: u32, flags: Set<Seq<char>>)
    ensures
        flags_by_event(event_of(mailbox, delta), decimal(uid as nat), flags) =~= flags_by_delta(
            delta,
            uid,
            flags,
        ),
{
    let told = match delta {
        DeltaView::FlagsAdded { uid: of, flags: new } => {
            law_decimal_reads_back(of);
            new
        },
        DeltaView::FlagsRemoved { uid: of, flags: gone } => {
            law_decimal_reads_back(of);
            gone
        },
        _ => seq![],
    };
    law_decimal_reads_back(uid);
    assert forall|f: Seq<char>| delta_flags(told).contains(f) <==> exists|i: int|
        0 <= i < told.len() && kept(#[trigger] told[i]) == f by {
        law_flags_told(told, f);
    }
}

/// A message that came is told of as added and one that went as removed,
/// under its UID, in the mailbox that is watched.
pub proof fn law_arrivals_and_losses(mailbox: Seq<char>, delta: DeltaView)
    ensures
        match event_of(mailbox, delta) {
            WatchEventView::EnvelopeAdded { mailbox: of, envelope } => of == mailbox && (
            delta matches DeltaView::Added { uid, items } && envelope == envelope_of(
                uid,
                item_views(items),
            )),
            WatchEventView::EnvelopeRemoved { mailbox: of, id } => of == mailbox && (
            delta matches DeltaView::Removed { uid } && number(id) == Some(uid)),
            WatchEventView::FlagsAdded { mailbox: of, id, .. } => of == mailbox && (
            delta matches DeltaView::FlagsAdded { uid, .. } && number(id) == Some(uid)),
            WatchEventView::FlagsRemoved { mailbox: of, id, .. } => of == mailbox && (
            delta matches DeltaView::FlagsRemoved { uid, .. } && number(id) == Some(uid)),
            WatchEventView::KeepAlive => false,
        },
{
    match delta {
        DeltaView::Added { .. } => {},
        DeltaView::Removed { uid } => {
            law_decimal_reads_back(uid);
        },
        DeltaView::FlagsAdded { uid, .. } => {
            law_decimal_reads_back(uid);
        },
        DeltaView::FlagsRemoved { uid, .. } => {
            law_decimal_reads_back(uid);
        },
    }
}

} // verus!
