//! JMAP watch-mailbox coroutine: the push channel, closed by the server
//! after each change, then Email/changes and Email/get, their result
//! compared with a mirror of the mailbox.
//!
//! Subscribing, then fetching changes, then fetching emails, then emitting
//! events, then subscribing again. The first round, from the empty state,
//! gives the whole inventory as created: it fills the mirror in silence.
use vstd::prelude::*;

use std::sync::atomic::AtomicBool;
use std::sync::Arc;

use io_jmap::rfc8620::event_source::subscribe::{JmapEventSource, JmapEventSourceError};
use io_jmap::rfc8620::session::JmapSession;
use io_jmap::rfc8621::email::changes::{JmapEmailChanges, JmapEmailChangesError};
use io_jmap::rfc8621::email::get::{JmapEmailGet, JmapEmailGetError};

use crate::coroutine::{
    fed, hands_over, resumed, EmailCoroutineState, JmapStep, Outcome, Stages,
};
use crate::event::{WatchEvent, WatchEventView};
use crate::http::{Guarded, HttpFault};
use crate::jmap::convert::{
    account_id, account_id_of, envelope_properties, envelope_property_list, text_or_empty,
};
use crate::jmap::event_source::{
    source_backlog, source_built, source_left, source_new, source_opening, source_over,
    source_request_of, source_resume, source_step, SourceOutcome, SourceRequest, SourceYield, StateChange,
    StateChangeView,
};
use crate::jmap::shadow::{append_events, folded, MailboxShadow, Mirror};
use crate::jmap::wire::{
    changes_built, changes_left, changes_new, changes_over, changes_resume, changes_step,
    clone_session, email_get_built, email_get_left, email_get_new, email_get_over,
    email_get_resume, email_get_step, emails_content, read_emails, wire_properties, ChangesOutput, ChangesOutputView, ChangesRequest,
    EmailGetRequest, EmailProperty, HttpAuth,
};
use crate::text::{copy_texts, find_row, row, same_text, texts};

verus! {

/// The JMAP type that is subscribed to and compared.
pub const EMAIL_TYPE: &'static str = "Email";

/// The seconds between two pings of the server.
pub const PING_SECONDS: u64 = 30;

/// Errors produced by [`JmapWatchMailbox`].
#[derive(Debug)]
pub enum JmapWatchMailboxError {
    EventSource(HttpFault<JmapEventSourceError>),
    EmailChanges(HttpFault<JmapEmailChangesError>),
    EmailGet(HttpFault<JmapEmailGetError>),
}

/// Yield mixing socket I/O requests and domain events.
#[derive(Debug)]
pub enum JmapWatchMailboxYield {
    /// Read more bytes and feed them back on the next resume.
    WantsRead,
    /// Write these bytes; the next resume usually takes none.
    WantsWrite(Vec<u8>),
    /// One change of the mailbox.
    Event(WatchEvent),
}

/// What a watch goes by.
pub struct Plan {
    pub mailbox_id: String,
    pub session: JmapSession,
    pub auth: HttpAuth,
    pub account_id: String,
}

/// Where a watch stands.
pub enum State {
    Subscribing { source: Guarded<JmapEventSource>, latest: Option<StateChange> },
    FetchingChanges(Guarded<JmapEmailChanges>),
    FetchingEmails { get: Guarded<JmapEmailGet>, destroyed: Vec<String>, new_state: String },
    Emitting,
    Done,
}

/// A watch under way.
pub struct Watching {
    pub plan: Plan,
    pub state: State,
    /// The mailbox as it was last seen.
    pub mirror: Mirror,
    /// The last known state of the account's emails.
    pub email_state: Option<Seq<char>>,
    /// Events still to be handed out, from the first to the last.
    pub pending: Seq<WatchEventView>,
    /// Whether the mirror is still to be filled for the first time.
    pub suppressed: bool,
}

/// What a resume answers.
pub enum Answer {
    Read,
    Write(Seq<u8>),
    Event(WatchEventView),
    Done,
    Failed(JmapWatchMailboxError),
}

/// What a resume returns.
pub type Step = EmailCoroutineState<JmapWatchMailboxYield, Result<(), JmapWatchMailboxError>>;

/// What a resume answered.
pub open spec fn answer_of(step: Step) -> Answer {
    match step {
        EmailCoroutineState::Yielded(JmapWatchMailboxYield::WantsRead) => Answer::Read,
        EmailCoroutineState::Yielded(JmapWatchMailboxYield::WantsWrite(bytes)) => Answer::Write(
            bytes@,
        ),
        EmailCoroutineState::Yielded(JmapWatchMailboxYield::Event(event)) => Answer::Event(
            event.deep_view(),
        ),
        EmailCoroutineState::Complete(Ok(())) => Answer::Done,
        EmailCoroutineState::Complete(Err(err)) => Answer::Failed(err),
    }
}

/// Whether `answer` passes on the I/O request of an exchange.
pub open spec fn passes_on<T, E>(answer: Option<Answer>, wait: Outcome<T, E>) -> bool {
    match wait {
        Outcome::Read => answer == Some(Answer::Read),
        Outcome::Write(bytes) => answer == Some(Answer::Write(bytes)),
        _ => false,
    }
}

/// The state of the account's emails that a push gives.
pub open spec fn observed(change: Option<StateChangeView>, account: Seq<char>) -> Option<Seq<char>> {
    match change {
        Some(changed) => match row(changed, account) {
            Some(states) => row(states, EMAIL_TYPE@),
            None => None,
        },
        None => None,
    }
}

/// Whether changes are to be fetched: the first time always, later where
/// the state seen is another than the one known.
pub open spec fn needs_diff(seen: Option<Seq<char>>, known: Option<Seq<char>>) -> bool {
    match known {
        None => true,
        Some(known) => match seen {
            Some(seen) => seen != known,
            None => false,
        },
    }
}

impl Plan {
    pub open spec fn subscription(self) -> SourceRequest {
        source_request_of(self.session, self.auth@, seq![EMAIL_TYPE@], PING_SECONDS, true)
    }

    pub open spec fn changes(self, since: Seq<char>) -> ChangesRequest {
        ChangesRequest { session: self.session, auth: self.auth@, since }
    }

    /// The Email/get for the emails that were created or updated.
    pub open spec fn get(self, changes: ChangesOutputView) -> EmailGetRequest {
        EmailGetRequest {
            session: self.session,
            auth: self.auth@,
            ids: changes.created + changes.updated,
            properties: envelope_property_list().push(EmailProperty::MailboxIds),
        }
    }
}

impl State {
    /// Whether the exchange under way is not over, and a subscription has no
    /// frames left that were not looked at.
    pub open spec fn live(self) -> bool {
        match self {
            State::Subscribing { source, .. } => !source_over(source) && source_backlog(source, None)
                == 0,
            State::FetchingChanges(changes) => !changes_over(changes),
            State::FetchingEmails { get, .. } => !email_get_over(get),
            _ => true,
        }
    }
}

impl Watching {
    /// The same watch elsewhere.
    pub open spec fn at(self, state: State) -> Watching {
        Watching { state, ..self }
    }

    /// The end of a subscription, where the last push was `latest`: changes
    /// are fetched, or there is nothing but a sign of life.
    pub open spec fn cycle_end(self, latest: Option<StateChangeView>, post: Watching, answer: Option<Answer>) -> bool {
        if needs_diff(observed(latest, self.plan.account_id@), self.email_state) {
            match changes_built(self.plan.changes(text_or_empty(self.email_state))) {
                Err(err) => post == self.at(State::Done) && answer == Some(
                    Answer::Failed(JmapWatchMailboxError::EmailChanges(err)),
                ),
                Ok(changes) => answer is None && post == self.at(State::FetchingChanges(changes)),
            }
        } else {
            let more: Seq<WatchEventView> = if !self.suppressed && latest is Some {
                seq![WatchEventView::KeepAlive]
            } else {
                seq![]
            };
            answer is None && post == (Watching {
                state: State::Emitting,
                pending: self.pending + more,
                ..self
            })
        }
    }
}

/// What an optional push says.
pub open spec fn push_view(change: Option<StateChange>) -> Option<StateChangeView> {
    match change {
        Some(change) => Some(change.deep_view()),
        None => None,
    }
}

impl Stages for Watching {
    type Context = ();

    type Answer = Answer;

    open spec fn rank(self) -> nat {
        match self.state {
            State::Subscribing { .. } => 4,
            State::FetchingChanges(_) => 3,
            State::FetchingEmails { .. } => 2,
            State::Emitting => 1,
            State::Done => 0,
        }
    }

    open spec fn repeats(self, bytes: Option<Seq<u8>>) -> nat {
        match self.state {
            State::Subscribing { source, .. } => source_backlog(source, bytes),
            _ => 0,
        }
    }

    open spec fn stage(self, context: (), bytes: Option<Seq<u8>>, post: Watching, left: (), answer: Option<Answer>) -> bool {
        match self.state {
            State::Subscribing { source, latest } => match source_step(source, bytes) {
                SourceOutcome::Frame(change) => {
                    &&& answer is None
                    &&& post == self.at(post.state)
                    &&& post.state matches State::Subscribing { source: left, latest: Some(own) }
                        && left == source_left(source, bytes) && own.deep_view() == change
                },
                SourceOutcome::Done => self.cycle_end(push_view(latest), post, answer),
                SourceOutcome::Failed(err) => post == self.at(State::Done) && answer == Some(
                    Answer::Failed(JmapWatchMailboxError::EventSource(err)),
                ),
                wait => {
                    &&& post == self.at(
                        State::Subscribing { source: source_left(source, bytes), latest },
                    )
                    &&& match wait {
                        SourceOutcome::Write(out) => answer == Some(Answer::Write(out)),
                        _ => answer == Some(Answer::Read),
                    }
                },
            },
            State::FetchingChanges(changes) => match changes_step(changes, bytes) {
                Outcome::Done(output) => {
                    &&& post == self.at(post.state)
                    &&& match email_get_built(self.plan.get(output)) {
                        Err(err) => post.state is Done && answer == Some(
                            Answer::Failed(JmapWatchMailboxError::EmailGet(err)),
                        ),
                        Ok(built) => answer is None && (post.state matches State::FetchingEmails {
                            get,
                            destroyed,
                            new_state,
                        } && get == built && destroyed.deep_view() == output.destroyed && new_state@
                            == output.new_state),
                    }
                },
                Outcome::Failed(err) => post == self.at(State::Done) && answer == Some(
                    Answer::Failed(JmapWatchMailboxError::EmailChanges(err)),
                ),
                wait => {
                    &&& post == self.at(State::FetchingChanges(changes_left(changes, bytes)))
                    &&& passes_on(answer, wait)
                },
            },
            State::FetchingEmails { get, destroyed, new_state } => match email_get_step(get, bytes) {
                Outcome::Done(batch) => {
                    let round = folded(
                        self.mirror,
                        self.plan.mailbox_id@,
                        emails_content(batch),
                        destroyed.deep_view(),
                    );
                    answer is None && post == (Watching {
                        plan: self.plan,
                        state: State::Emitting,
                        mirror: round.0,
                        email_state: Some(new_state@),
                        pending: if self.suppressed {
                            self.pending
                        } else {
                            self.pending + round.1
                        },
                        suppressed: false,
                    })
                },
                Outcome::Failed(err) => post == self.at(State::Done) && answer == Some(
                    Answer::Failed(JmapWatchMailboxError::EmailGet(err)),
                ),
                wait => {
                    &&& post == self.at(
                        State::FetchingEmails {
                            get: email_get_left(get, bytes),
                            destroyed,
                            new_state,
                        },
                    )
                    &&& passes_on(answer, wait)
                },
            },
            State::Emitting => if self.pending.len() > 0 {
                &&& answer == Some(Answer::Event(self.pending[0]))
                &&& post == (Watching { pending: self.pending.skip(1), ..self })
            } else {
                let request = self.plan.subscription();
                match source_built(request) {
                    Err(err) => post == self.at(State::Done) && answer == Some(
                        Answer::Failed(JmapWatchMailboxError::EventSource(err)),
                    ),
                    Ok(source) => {
                        &&& answer == Some(Answer::Write(source_opening(request)))
                        &&& post == self.at(
                            State::Subscribing { source: source_left(source, None), latest: None },
                        )
                    },
                }
            },
            State::Done => post == self && answer == Some(Answer::Done),
        }
    }
}

/// What a resume does: once shut down the watch is over.
pub open spec fn advanced(
    pre: Watching,
    shutdown: bool,
    bytes: Option<Seq<u8>>,
    post: Watching,
    answer: Answer,
) -> bool {
    if shutdown {
        post == pre.at(State::Done) && answer is Done
    } else {
        resumed(pre, (), bytes, post, (), answer)
    }
}

/// Whether a flag can read so: what it reads is up to other threads.
pub uninterp spec fn flag_reads(flag: Arc<AtomicBool>, value: bool) -> bool;

/// [`AtomicBool::load`]: what other threads have made of the flag.
#[verifier::external_body]
fn is_set(flag: &Arc<AtomicBool>) -> (r: bool)
    ensures
        flag_reads(*flag, r),
{
    flag.load(std::sync::atomic::Ordering::SeqCst)
}

/// Picks out the state of the account's emails that a push gives.
pub fn observed_state<'a>(change: &'a Option<StateChange>, account: &str) -> (r: Option<&'a String>)
    ensures
        match r {
            Some(state) => observed(push_view(*change), account@) == Some(state@),
            None => observed(push_view(*change), account@) is None,
        },
{
    match change {
        Some(change) => match find_row(&change.changed, account) {
            Some(states) => find_row(states, EMAIL_TYPE),
            None => None,
        },
        None => None,
    }
}

/// Starts a subscription.
fn subscribe(plan: &Plan) -> (r: Result<Guarded<JmapEventSource>, HttpFault<JmapEventSourceError>>)
    ensures
        r == source_built(plan.subscription()),
        r matches Ok(source) ==> {
            &&& !source_over(source)
            &&& source_backlog(source, None) == 0
            &&& source_step(source, None) == SourceOutcome::<
                HttpFault<JmapEventSourceError>,
            >::Write(source_opening(plan.subscription()))
        },
{
    let types: [&str; 1] = [EMAIL_TYPE];
    proof {
        assert(texts(types@) =~= seq![EMAIL_TYPE@]);
    }
    source_new(&plan.session, &plan.auth, &types, PING_SECONDS, true)
}

/// I/O-free coroutine watching a single JMAP mailbox over one HTTP
/// connection.
pub struct JmapWatchMailbox {
    plan: Plan,
    state: State,
    shadow: MailboxShadow,
    email_state: Option<String>,
    pending: Vec<WatchEvent>,
    suppress_events: bool,
    shutdown: Arc<AtomicBool>,
}

impl View for JmapWatchMailbox {
    type V = Watching;

    closed spec fn view(&self) -> Watching {
        Watching {
            plan: self.plan,
            state: self.state,
            mirror: self.shadow@,
            email_state: self.email_state.deep_view(),
            pending: self.pending.deep_view(),
            suppressed: self.suppress_events,
        }
    }
}

impl JmapWatchMailbox {
    #[verifier::type_invariant]
    closed spec fn inv(self) -> bool {
        self.state.live()
    }

    /// The flag that ends the watch.
    pub closed spec fn flag(self) -> Arc<AtomicBool> {
        self.shutdown
    }

    /// `mailbox` is the JMAP mailbox id. The watch ends at the first resume
    /// after `shutdown` is set.
    pub fn new(session: &JmapSession, auth: &HttpAuth, mailbox: &str, shutdown: Arc<AtomicBool>) -> (r:
        Result<JmapWatchMailbox, JmapWatchMailboxError>)
        ensures
            ({
                let request = source_request_of(
                    *session,
                    auth@,
                    seq![EMAIL_TYPE@],
                    PING_SECONDS,
                    true,
                );
                match source_built(request) {
                    Ok(source) => r matches Ok(watch) && {
                        &&& watch@.plan.mailbox_id@ == mailbox@
                        &&& watch@.plan.session == *session
                        &&& watch@.plan.auth@ == auth@
                        &&& watch@.plan.account_id@ == account_id(*session)
                        &&& watch@.state == State::Subscribing { source, latest: None }
                        &&& watch@.mirror == Mirror::empty()
                        &&& watch@.email_state is None
                        &&& watch@.pending.len() == 0
                        &&& watch@.suppressed
                        &&& watch.flag() == shutdown
                    },
                    Err(cause) => r matches Err(err) && err == JmapWatchMailboxError::EventSource(
                        cause,
                    ),
                }
            }),
    {
        let plan = Plan {
            mailbox_id: mailbox.to_owned(),
            session: clone_session(session),
            auth: auth.clone(),
            account_id: account_id_of(session),
        };
        match subscribe(&plan) {
            Ok(source) => Ok(
                JmapWatchMailbox {
                    plan,
                    state: State::Subscribing { source, latest: None },
                    shadow: MailboxShadow::new(),
                    email_state: None,
                    pending: Vec::new(),
                    suppress_events: true,
                    shutdown,
                },
            ),
            Err(err) => Err(JmapWatchMailboxError::EventSource(err)),
        }
    }

    /// Picks what follows a subscription whose last push was `latest`.
    fn handle_cycle_end(&mut self, latest: Option<StateChange>) -> (r: Result<
        (),
        JmapWatchMailboxError,
    >)
        requires
            old(self)@.state is Done,
        ensures
            old(self)@.cycle_end(
                push_view(latest),
                final(self)@,
                match r {
                    Ok(()) => None,
                    Err(err) => Some(Answer::Failed(err)),
                },
            ),
            r is Ok ==> (final(self)@.state is FetchingChanges || final(self)@.state is Emitting),
            final(self).flag() == old(self).flag(),
    {
        let ghost pre = self@;
        let diff = match &self.email_state {
            None => true,
            Some(known) => match observed_state(&latest, self.plan.account_id.as_str()) {
                Some(seen) => !same_text(seen.as_str(), known.as_str()),
                None => false,
            },
        };
        if diff {
            let since = match &self.email_state {
                Some(known) => known.clone(),
                None => String::new(),
            };
            proof {
                assert(since@ =~= text_or_empty(pre.email_state));
            }
            match changes_new(&self.plan.session, &self.plan.auth, since.as_str()) {
                Ok(changes) => {
                    self.state = State::FetchingChanges(changes);
                    Ok(())
                },
                Err(err) => Err(JmapWatchMailboxError::EmailChanges(err)),
            }
        } else {
            if !self.suppress_events && latest.is_some() {
                let mut pending: Vec<WatchEvent> = Vec::new();
                core::mem::swap(&mut self.pending, &mut pending);
                pending.push(WatchEvent::KeepAlive);
                self.pending = pending;
            }
            self.state = State::Emitting;
            proof {
                let more: Seq<WatchEventView> = if !pre.suppressed && latest is Some {
                    seq![WatchEventView::KeepAlive]
                } else {
                    seq![]
                };
                assert(self@.pending =~= pre.pending + more);
            }
            Ok(())
        }
    }

    /// Starts the Email/get for what was created or updated.
    fn dispatch_get(&self, output: &ChangesOutput) -> (r: Result<Guarded<JmapEmailGet>, HttpFault<JmapEmailGetError>>)
        ensures
            r == email_get_built(self@.plan.get(output.deep_view())),
            r matches Ok(get) ==> !email_get_over(get),
    {
        let mut ids = copy_texts(&output.created);
        let mut updated = copy_texts(&output.updated);
        let ghost created_ids = ids.deep_view();
        let ghost updated_ids = updated.deep_view();
        ids.append(&mut updated);
        let mut properties = envelope_properties();
        properties.push(EmailProperty::MailboxIds);
        proof {
            assert(ids.deep_view() =~= created_ids + updated_ids);
        }
        email_get_new(&self.plan.session, &self.plan.auth, ids, wire_properties(&properties))
    }

    /// Advances the coroutine by what its flag reads: with no bytes at first
    /// and after a write, with what was read after a read.
    pub fn resume(&mut self, bytes: Option<&[u8]>) -> (r: Step)
        ensures
            final(self).flag() == old(self).flag(),
            exists|shutdown: bool|
                #[trigger] flag_reads(old(self).flag(), shutdown) && advanced(
                    old(self)@,
                    shutdown,
                    fed(bytes),
                    final(self)@,
                    answer_of(r),
                ),
    {
        let ghost pre = self@;
        let shutdown = is_set(&self.shutdown);
        let r = self.advance(shutdown, bytes);
        proof {
            assert(advanced(pre, shutdown, fed(bytes), self@, answer_of(r)));
        }
        r
    }

    /// Advances the coroutine, whose shutdown flag is set or not.
    pub fn advance(&mut self, shutdown: bool, bytes: Option<&[u8]>) -> (r: Step)
        ensures
            final(self).flag() == old(self).flag(),
            advanced(old(self)@, shutdown, fed(bytes), final(self)@, answer_of(r)),
    {
        if shutdown {
            self.state = State::Done;
            EmailCoroutineState::Complete(Ok(()))
        } else {
            self.run(bytes)
        }
    }

    /// Advances the subscription of a watch, which is taken out of it.
    fn listen(
        &mut self,
        source: Guarded<JmapEventSource>,
        latest: Option<StateChange>,
        bytes: Option<&[u8]>,
    ) -> (r: Step)
        requires
            old(self)@.state is Done,
            !source_over(source),
            bytes is Some ==> source_backlog(source, None) == 0,
        ensures
            resumed(
                old(self)@.at(State::Subscribing { source, latest }),
                (),
                fed(bytes),
                final(self)@,
                (),
                answer_of(r),
            ),
            final(self).flag() == old(self).flag(),
        decreases 4nat, source_backlog(source, fed(bytes)), 0nat,
    {
        let ghost pre = self@.at(State::Subscribing { source, latest });
        let mut source = source;
        match source_resume(&mut source, bytes) {
            EmailCoroutineState::Yielded(SourceYield::WantsRead) => {
                self.state = State::Subscribing { source, latest };
                EmailCoroutineState::Yielded(JmapWatchMailboxYield::WantsRead)
            },
            EmailCoroutineState::Yielded(SourceYield::WantsWrite(out)) => {
                self.state = State::Subscribing { source, latest };
                EmailCoroutineState::Yielded(JmapWatchMailboxYield::WantsWrite(out))
            },
            EmailCoroutineState::Yielded(SourceYield::Frame(change)) => {
                let ghost mid = pre.at(State::Subscribing { source, latest: Some(change) });
                proof {
                    assert(hands_over(pre, (), fed(bytes), mid, ()));
                }
                self.listen(source, Some(change), None)
            },
            EmailCoroutineState::Complete(Ok(())) => match self.handle_cycle_end(latest) {
                Ok(()) => {
                    proof {
                        assert(hands_over(pre, (), fed(bytes), self@, ()));
                    }
                    self.run(None)
                },
                Err(err) => EmailCoroutineState::Complete(Err(err)),
            },
            EmailCoroutineState::Complete(Err(err)) => EmailCoroutineState::Complete(
                Err(JmapWatchMailboxError::EventSource(err)),
            ),
        }
    }

    fn run(&mut self, bytes: Option<&[u8]>) -> (r: Step)
        ensures
            resumed(old(self)@, (), fed(bytes), final(self)@, (), answer_of(r)),
            final(self).flag() == old(self).flag(),
        decreases old(self)@.rank(), old(self)@.repeats(fed(bytes)), 1nat,
    {
        proof {
            use_type_invariant(&*self);
        }
        let ghost pre = self@;
        let mut state = State::Done;
        core::mem::swap(&mut self.state, &mut state);
        match state {
            State::Subscribing { source, latest } => self.listen(source, latest, bytes),
            State::FetchingChanges(mut changes) => match changes_resume(&mut changes, bytes) {
                EmailCoroutineState::Yielded(JmapStep::WantsRead) => {
                    self.state = State::FetchingChanges(changes);
                    EmailCoroutineState::Yielded(JmapWatchMailboxYield::WantsRead)
                },
                EmailCoroutineState::Yielded(JmapStep::WantsWrite(out)) => {
                    self.state = State::FetchingChanges(changes);
                    EmailCoroutineState::Yielded(JmapWatchMailboxYield::WantsWrite(out))
                },
                EmailCoroutineState::Complete(Ok(output)) => match self.dispatch_get(&output) {
                    Ok(get) => {
                        self.state = State::FetchingEmails {
                            get,
                            destroyed: output.destroyed,
                            new_state: output.new_state,
                        };
                        proof {
                            assert(hands_over(pre, (), fed(bytes), self@, ()));
                        }
                        self.run(None)
                    },
                    Err(err) => EmailCoroutineState::Complete(
                        Err(JmapWatchMailboxError::EmailGet(err)),
                    ),
                },
                EmailCoroutineState::Complete(Err(err)) => EmailCoroutineState::Complete(
                    Err(JmapWatchMailboxError::EmailChanges(err)),
                ),
            },
            State::FetchingEmails { mut get, destroyed, new_state } => match email_get_resume(
                &mut get,
                bytes,
            ) {
                EmailCoroutineState::Yielded(JmapStep::WantsRead) => {
                    self.state = State::FetchingEmails { get, destroyed, new_state };
                    EmailCoroutineState::Yielded(JmapWatchMailboxYield::WantsRead)
                },
                EmailCoroutineState::Yielded(JmapStep::WantsWrite(out)) => {
                    self.state = State::FetchingEmails { get, destroyed, new_state };
                    EmailCoroutineState::Yielded(JmapWatchMailboxYield::WantsWrite(out))
                },
                EmailCoroutineState::Complete(Ok(batch)) => {
                    let emails = read_emails(&batch);
                    let mut shadow = MailboxShadow::new();
                    core::mem::swap(&mut self.shadow, &mut shadow);
                    let events = shadow.apply_diff(
                        self.plan.mailbox_id.as_str(),
                        &emails,
                        &destroyed,
                    );
                    self.shadow = shadow;
                    if !self.suppress_events {
                        let mut pending: Vec<WatchEvent> = Vec::new();
                        core::mem::swap(&mut self.pending, &mut pending);
                        append_events(&mut pending, events);
                        self.pending = pending;
                    }
                    self.email_state = Some(new_state);
                    self.suppress_events = false;
                    self.state = State::Emitting;
                    proof {
                        assert(hands_over(pre, (), fed(bytes), self@, ()));
                    }
                    self.run(None)
                },
                EmailCoroutineState::Complete(Err(err)) => EmailCoroutineState::Complete(
                    Err(JmapWatchMailboxError::EmailGet(err)),
                ),
            },
            State::Emitting => {
                if self.pending.len() > 0 {
                    let mut pending: Vec<WatchEvent> = Vec::new();
                    core::mem::swap(&mut self.pending, &mut pending);
                    let event = pending.remove(0);
                    self.pending = pending;
                    self.state = State::Emitting;
                    proof {
                        assert(self@.pending =~= pre.pending.skip(1));
                        assert(event.deep_view() == pre.pending[0]);
                    }
                    return EmailCoroutineState::Yielded(JmapWatchMailboxYield::Event(event));
                }
                match subscribe(&self.plan) {
                    Ok(mut source) => match source_resume(&mut source, None) {
                        EmailCoroutineState::Yielded(SourceYield::WantsWrite(out)) => {
                            self.state = State::Subscribing { source, latest: None };
                            EmailCoroutineState::Yielded(JmapWatchMailboxYield::WantsWrite(out))
                        },
                        // The first step of a subscription is a write.
                        _ => EmailCoroutineState::Complete(Ok(())),
                    },
                    Err(err) => EmailCoroutineState::Complete(
                        Err(JmapWatchMailboxError::EventSource(err)),
                    ),
                }
            },
            State::Done => EmailCoroutineState::Complete(Ok(())),
        }
    }
}

proof fn lemma_silent(pre: Watching, bytes: Option<Seq<u8>>, post: Watching, answer: Answer)
    requires
        pre.pending.len() == 0,
        pre.suppressed || pre.state is Emitting,
        resumed(pre, (), bytes, post, (), answer),
    ensures
        !(answer is Event),
        post.pending.len() == 0,
    decreases pre.rank(), pre.repeats(bytes),
{
    if !pre.stage((), bytes, post, (), Some(answer)) {
        let (mid, left) = choose|mid: Watching, left: ()|
            #[trigger] hands_over(pre, (), bytes, mid, left) && resumed(mid, left, None, post, (), answer);
        lemma_silent(mid, None, post, answer);
    }
}

/// Until the mirror is filled there are no events: a resume of a watch that
/// has yet to fill it hands none out, and leaves none to be handed out.
pub proof fn law_first_round_is_silent(pre: Watching, bytes: Option<Seq<u8>>, post: Watching, answer: Answer)
    requires
        pre.pending.len() == 0,
        pre.suppressed,
        resumed(pre, (), bytes, post, (), answer),
    ensures
        !(answer is Event),
        post.pending.len() == 0,
{
    lemma_silent(pre, bytes, post, answer);
}

/// A watch that is over stays over.
pub proof fn law_done_stays(pre: Watching, shutdown: bool, bytes: Option<Seq<u8>>, post: Watching, answer: Answer)
    requires
        pre.state is Done,
        advanced(pre, shutdown, bytes, post, answer),
    ensures
        answer is Done,
        post == pre,
{
    if !shutdown && !pre.stage((), bytes, post, (), Some(answer)) {
        let (mid, left) = choose|mid: Watching, left: ()|
            #[trigger] hands_over(pre, (), bytes, mid, left) && resumed(mid, left, None, post, (), answer);
        assert(pre.stage((), bytes, mid, left, None));
    }
}

/// Changes are fetched exactly when nothing is known yet or the push gives the
/// watched account's emails another state than the known one; what it gives
/// other accounts or other types does not matter.
pub proof fn law_changes_are_fetched(
    push: StateChangeView,
    account: Seq<char>,
    known: Option<Seq<char>>,
)
    ensures
        known is None ==> needs_diff(observed(Some(push), account), known) && needs_diff(
            observed(None, account),
            known,
        ),
        known is Some ==> !needs_diff(observed(None, account), known),
        known is Some ==> (needs_diff(observed(Some(push), account), known) <==> (row(
            push,
            account,
        ) matches Some(states) && row(states, "Email"@) matches Some(state) && state != known->0)),
{
}

/// Every email that was created or updated is asked for with its mailboxes,
/// and no other; changes are asked for since the state that is known.
pub proof fn law_what_is_asked_for(plan: Plan, changes: ChangesOutputView, id: Seq<char>, since: Seq<char>)
    ensures
        plan.get(changes).ids.contains(id) <==> changes.created.contains(id) || changes.updated.contains(
            id,
        ),
        plan.get(changes).properties.contains(EmailProperty::MailboxIds),
        plan.get(changes).properties.contains(EmailProperty::Keywords),
        plan.get(changes).session == plan.session && plan.get(changes).auth == plan.auth@,
        plan.changes(since).since == since && plan.changes(since).session == plan.session && plan.changes(
            since,
        ).auth == plan.auth@,
{
    let all = plan.get(changes).ids;
    let n = changes.created.len();
    if all.contains(id) {
        let i = all.index_of(id);
        if i < n {
            assert(changes.created[i] == id);
        } else {
            assert(changes.updated[i - n] == id);
        }
    }
    if changes.created.contains(id) {
        assert(all[changes.created.index_of(id)] == id);
    }
    if changes.updated.contains(id) {
        assert(all[n + changes.updated.index_of(id)] == id);
    }
    let list = plan.get(changes).properties;
    assert(list[1] == EmailProperty::Keywords);
    assert(list[9] == EmailProperty::MailboxIds);
}

/// Events are handed out one at a time, from the first to the last, and none is
/// lost: one goes out, the others stay, and nothing else changes.
pub proof fn law_events_in_order(pre: Watching, bytes: Option<Seq<u8>>, post: Watching, answer: Answer)
    requires
        pre.state is Emitting,
        resumed(pre, (), bytes, post, (), answer),
    ensures
        pre.pending.len() > 0 ==> answer == Answer::Event(pre.pending[0]) && seq![pre.pending[0]]
            + post.pending == pre.pending,
        pre.pending.len() == 0 ==> !(answer is Event) && post.pending.len() == 0,
        post.mirror == pre.mirror && post.email_state == pre.email_state && post.plan == pre.plan,
{
    if !pre.stage((), bytes, post, (), Some(answer)) {
        let (mid, left) = choose|mid: Watching, left: ()|
            #[trigger] hands_over(pre, (), bytes, mid, left) && resumed(mid, left, None, post, (), answer);
        assert(pre.stage((), bytes, mid, left, None));
    }
    if pre.pending.len() > 0 {
        assert(seq![pre.pending[0]] + pre.pending.skip(1) =~= pre.pending);
    }
}

/// A round is taken over whole: once the emails have come, the mirror and the
/// state are those of the round, and its events are handed out in order behind
/// those still to go, or not at all where the mirror is filled for the first
/// time.
pub proof fn law_round_is_taken_over(
    pre: Watching,
    bytes: Option<Seq<u8>>,
    post: Watching,
    answer: Answer,
    get: Guarded<JmapEmailGet>,
    destroyed: Vec<String>,
    new_state: String,
)
    requires
        pre.state == (State::FetchingEmails { get, destroyed, new_state }),
        email_get_step(get, bytes) is Done,
        resumed(pre, (), bytes, post, (), answer),
    ensures
        ({
            let round = folded(
                pre.mirror,
                pre.plan.mailbox_id@,
                emails_content(email_get_step(get, bytes)->Done_0),
                destroyed.deep_view(),
            );
            let all = if pre.suppressed {
                pre.pending
            } else {
                pre.pending + round.1
            };
            &&& post.mirror == round.0
            &&& post.email_state == Some(new_state@)
            &&& !post.suppressed
            &&& all.len() > 0 ==> answer == Answer::Event(all[0]) && seq![all[0]] + post.pending == all
            &&& all.len() == 0 ==> !(answer is Event)
        }),
{
    if !pre.stage((), bytes, post, (), Some(answer)) {
        let (mid, left) = choose|mid: Watching, left: ()|
            #[trigger] hands_over(pre, (), bytes, mid, left) && resumed(mid, left, None, post, (), answer);
        assert(pre.stage((), bytes, mid, left, None));
        law_events_in_order(mid, None, post, answer);
        assert(mid.state is Emitting);
        lemma_suppression_stays(mid, None, post, answer);
    }
}

proof fn lemma_suppression_stays(pre: Watching, bytes: Option<Seq<u8>>, post: Watching, answer: Answer)
    requires
        pre.state is Emitting,
        resumed(pre, (), bytes, post, (), answer),
    ensures
        post.suppressed == pre.suppressed,
{
    if !pre.stage((), bytes, post, (), Some(answer)) {
        let (mid, left) = choose|mid: Watching, left: ()|
            #[trigger] hands_over(pre, (), bytes, mid, left) && resumed(mid, left, None, post, (), answer);
        assert(pre.stage((), bytes, mid, left, None));
    }
}

/// Of the pushes of a subscription the last counts: each takes the place of the
/// one before.
pub proof fn law_last_push_counts(
    pre: Watching,
    bytes: Option<Seq<u8>>,
    post: Watching,
    answer: Answer,
    source: Guarded<JmapEventSource>,
    latest: Option<StateChange>,
)
    requires
        pre.state == (State::Subscribing { source, latest }),
        source_step(source, bytes) is Frame,
        resumed(pre, (), bytes, post, (), answer),
    ensures
        exists|own: StateChange|
            own.deep_view() == source_step(source, bytes)->Frame_0 && #[trigger] resumed(
                pre.at(
                    (State::Subscribing { source: source_left(source, bytes), latest: Some(own) }),
                ),
                (),
                None,
                post,
                (),
                answer,
            ),
{
    assert(!pre.stage((), bytes, post, (), Some(answer)));
    let (mid, left) = choose|mid: Watching, left: ()|
        #[trigger] hands_over(pre, (), bytes, mid, left) && resumed(mid, left, None, post, (), answer);
    assert(pre.stage((), bytes, mid, left, None));
    let own = mid.state->Subscribing_latest->0;
    assert(mid == pre.at(
        State::Subscribing { source: source_left(source, bytes), latest: Some(own) },
    ));
}

/// The end of a subscription that gave the emails another state leads to the
/// changes since the known one.
pub proof fn law_new_state_leads_to_changes(
    pre: Watching,
    bytes: Option<Seq<u8>>,
    post: Watching,
    answer: Answer,
    source: Guarded<JmapEventSource>,
    latest: Option<StateChange>,
)
    requires
        pre.state == (State::Subscribing { source, latest }),
        source_step(source, bytes) is Done,
        needs_diff(observed(push_view(latest), pre.plan.account_id@), pre.email_state),
        resumed(pre, (), bytes, post, (), answer),
    ensures
        ({
            let known = match pre.email_state {
                Some(state) => state,
                None => seq![],
            };
            match changes_built(
                (ChangesRequest { session: pre.plan.session, auth: pre.plan.auth@, since: known }),
            ) {
                Ok(changes) => resumed(
                    pre.at(State::FetchingChanges(changes)),
                    (),
                    None,
                    post,
                    (),
                    answer,
                ),
                Err(err) => post == pre.at(State::Done) && answer == Answer::Failed(
                    JmapWatchMailboxError::EmailChanges(err),
                ),
            }
        }),
{
    if !pre.stage((), bytes, post, (), Some(answer)) {
        let (mid, left) = choose|mid: Watching, left: ()|
            #[trigger] hands_over(pre, (), bytes, mid, left) && resumed(mid, left, None, post, (), answer);
        assert(pre.stage((), bytes, mid, left, None));
    }
}

/// The end of a subscription that gave the emails no other state changes
/// nothing: there is a sign of life where a push came, and no other event.
pub proof fn law_same_state_changes_nothing(
    pre: Watching,
    bytes: Option<Seq<u8>>,
    post: Watching,
    answer: Answer,
    source: Guarded<JmapEventSource>,
    latest: Option<StateChange>,
)
    requires
        pre.state == (State::Subscribing { source, latest }),
        source_step(source, bytes) is Done,
        !needs_diff(observed(push_view(latest), pre.plan.account_id@), pre.email_state),
        pre.pending.len() == 0,
        resumed(pre, (), bytes, post, (), answer),
    ensures
        post.mirror == pre.mirror && post.email_state == pre.email_state && post.pending.len() == 0,
        answer is Event <==> latest is Some && !pre.suppressed,
        answer matches Answer::Event(event) ==> event is KeepAlive,
{
    assert(!pre.stage((), bytes, post, (), Some(answer)));
    let (mid, left) = choose|mid: Watching, left: ()|
        #[trigger] hands_over(pre, (), bytes, mid, left) && resumed(mid, left, None, post, (), answer);
    assert(pre.stage((), bytes, mid, left, None));
    law_events_in_order(mid, None, post, answer);
}

/// Changes lead to the emails that they name; what they say of destroyed emails
/// and of the new state is kept for the round.
pub proof fn law_changes_lead_to_emails(
    pre: Watching,
    bytes: Option<Seq<u8>>,
    post: Watching,
    answer: Answer,
    changes: Guarded<JmapEmailChanges>,
)
    requires
        pre.state == State::FetchingChanges(changes),
        changes_step(changes, bytes) is Done,
        email_get_built(pre.plan.get(changes_step(changes, bytes)->Done_0)) is Ok,
        resumed(pre, (), bytes, post, (), answer),
    ensures
        ({
            let output = changes_step(changes, bytes)->Done_0;
            let get = email_get_built(pre.plan.get(output))->Ok_0;
            exists|destroyed: Vec<String>, new_state: String|
                destroyed.deep_view() == output.destroyed && new_state@ == output.new_state
                    && #[trigger] resumed(
                    pre.at((State::FetchingEmails { get, destroyed, new_state })),
                    (),
                    None,
                    post,
                    (),
                    answer,
                )
        }),
{
    assert(!pre.stage((), bytes, post, (), Some(answer)));
    let (mid, left) = choose|mid: Watching, left: ()|
        #[trigger] hands_over(pre, (), bytes, mid, left) && resumed(mid, left, None, post, (), answer);
    assert(pre.stage((), bytes, mid, left, None));
    let get = email_get_built(pre.plan.get(changes_step(changes, bytes)->Done_0))->Ok_0;
    let destroyed = mid.state->FetchingEmails_destroyed;
    let new_state = mid.state->FetchingEmails_new_state;
    assert(mid == pre.at(State::FetchingEmails { get, destroyed, new_state }));
}

/// What an exchange waits for is passed on as it is, and what it fails with is
/// told and ends the watch.
pub proof fn law_waits_and_failures_are_told(pre: Watching, bytes: Option<Seq<u8>>, post: Watching, answer: Answer)
    requires
        resumed(pre, (), bytes, post, (), answer),
    ensures
        pre.state matches State::Subscribing { source, .. } ==> {
            &&& source_step(source, bytes) matches SourceOutcome::Write(out) ==> answer == Answer::Write(out)
            &&& source_step(source, bytes) is Read ==> answer is Read
            &&& source_step(source, bytes) matches SourceOutcome::Failed(err) ==> post.state is Done
                && answer == Answer::Failed(JmapWatchMailboxError::EventSource(err))
        },
        pre.state matches State::FetchingChanges(changes) ==> {
            &&& changes_step(changes, bytes) is Read ==> answer is Read
            &&& changes_step(changes, bytes) matches Outcome::Write(out) ==> answer == Answer::Write(out)
            &&& changes_step(changes, bytes) matches Outcome::Failed(err) ==> post.state is Done && answer
                == Answer::Failed(JmapWatchMailboxError::EmailChanges(err))
        },
        pre.state matches State::FetchingEmails { get, .. } ==> {
            &&& email_get_step(get, bytes) is Read ==> answer is Read
            &&& email_get_step(get, bytes) matches Outcome::Write(out) ==> answer == Answer::Write(out)
            &&& email_get_step(get, bytes) matches Outcome::Failed(err) ==> post.state is Done && answer
                == Answer::Failed(JmapWatchMailboxError::EmailGet(err))
        },
{
    if !pre.stage((), bytes, post, (), Some(answer)) {
        let (mid, left) = choose|mid: Watching, left: ()|
            #[trigger] hands_over(pre, (), bytes, mid, left) && resumed(mid, left, None, post, (), answer);
        assert(pre.stage((), bytes, mid, left, None));
    }
}

} // verus!
