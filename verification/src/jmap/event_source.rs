//! The JMAP push channel (RFC 8620 section 7.3).
use vstd::prelude::*;

use std::sync::atomic::AtomicBool;
use std::sync::Arc;

use io_jmap::coroutine::{JmapCoroutine, JmapCoroutineState};
use io_jmap::rfc8620::event_source::subscribe::{
    JmapEventSource, JmapEventSourceError, JmapEventSourceYield,
};
use io_jmap::rfc8620::event_source::JmapCloseAfter;
use io_jmap::rfc8620::session::JmapSession;
use secrecy::SecretString;
use url::Url;

use crate::coroutine::{fed, EmailCoroutineState};
use crate::http::{faulted, guard, guarded_built, guarded_left, Framing, Guarded, HttpFault};
use crate::jmap::wire::{parse_url, session_info, url_of, HttpAuth};
use crate::text::{decimal, joined, texts};

verus! {

/// A subscription to the push channel.
#[verifier::external_type_specification]
#[verifier::external_body]
pub struct ExJmapEventSource(JmapEventSource);

/// Why a subscription failed.
#[verifier::external_type_specification]
#[verifier::external_body]
pub struct ExJmapEventSourceError(JmapEventSourceError);

/// What a subscription asks for.
pub struct SourceRequest {
    pub session: JmapSession,
    pub auth: Seq<char>,
    /// The data types to be told of.
    pub types: Seq<Seq<char>>,
    /// The seconds between two pings of the server.
    pub ping: u64,
    /// Whether the server closes the channel after the first change.
    pub close_after_state: bool,
}

/// The new states of data types by account, in the order of the accounts
/// and of the types.
#[derive(Debug)]
pub struct StateChange {
    pub changed: Vec<(String, Vec<(String, String)>)>,
}

/// What a [`StateChange`] says.
pub type StateChangeView = Seq<(Seq<char>, Seq<(Seq<char>, Seq<char>)>)>;

impl DeepView for StateChange {
    type V = StateChangeView;

    open spec fn deep_view(&self) -> StateChangeView {
        self.changed.deep_view()
    }
}

/// What a step of a subscription yields.
#[derive(Debug)]
pub enum SourceYield {
    WantsRead,
    WantsWrite(Vec<u8>),
    Frame(StateChange),
}

/// What a step of a subscription came to.
pub enum SourceOutcome<E> {
    Read,
    Write(Seq<u8>),
    Frame(StateChangeView),
    Done,
    Failed(E),
}

/// What a step of a subscription returns.
pub type SourceStep<E> = EmailCoroutineState<SourceYield, Result<(), E>>;

/// What a step came to.
pub open spec fn source_outcome<E>(step: SourceStep<E>) -> SourceOutcome<E> {
    match step {
        EmailCoroutineState::Yielded(SourceYield::WantsRead) => SourceOutcome::Read,
        EmailCoroutineState::Yielded(SourceYield::WantsWrite(bytes)) => SourceOutcome::Write(bytes@),
        EmailCoroutineState::Yielded(SourceYield::Frame(change)) => SourceOutcome::Frame(
            change.deep_view(),
        ),
        EmailCoroutineState::Complete(Ok(())) => SourceOutcome::Done,
        EmailCoroutineState::Complete(Err(err)) => SourceOutcome::Failed(err),
    }
}

/// What [`JmapEventSource::new`] gives for a request, under a shutdown flag
/// that is never set.
pub uninterp spec fn source_made(request: SourceRequest) -> Result<
    JmapEventSource,
    JmapEventSourceError,
>;

/// Whether a subscription is over: it is not to be resumed then.
pub uninterp spec fn source_ended(source: JmapEventSource) -> bool;

/// What the next step of a subscription comes to.
pub uninterp spec fn source_answer(source: JmapEventSource, bytes: Option<Seq<u8>>) -> SourceOutcome<
    JmapEventSourceError,
>;

/// The subscription after that step.
pub uninterp spec fn source_next(source: JmapEventSource, bytes: Option<Seq<u8>>) -> JmapEventSource;

/// Where the reply that a subscription reads stands.
pub uninterp spec fn source_framing(source: JmapEventSource) -> Framing;

/// How many frames the next steps of a subscription yield in a row, no more
/// bytes being read.
pub uninterp spec fn source_pending(source: JmapEventSource, bytes: Option<Seq<u8>>) -> nat;

/// The bytes of the HTTP request that opens a subscription.
pub uninterp spec fn source_opening(request: SourceRequest) -> Seq<u8>;

/// The request of a subscription.
pub open spec fn source_request_of(
    session: JmapSession,
    auth: Seq<char>,
    types: Seq<Seq<char>>,
    ping: u64,
    close_after_state: bool,
) -> SourceRequest {
    SourceRequest { session, auth, types, ping, close_after_state }
}

/// [`JmapEventSource::new`] under a shutdown flag that is never set. The
/// first step of a subscription is to write the request.
#[verifier::external_body]
fn source_make(
    session: &JmapSession,
    auth: &HttpAuth,
    types: &[&str],
    ping: u64,
    close_after_state: bool,
) -> (r: Result<JmapEventSource, JmapEventSourceError>)
    ensures
        r == source_made(
            source_request_of(*session, auth@, texts(types@), ping, close_after_state),
        ),
        r matches Ok(source) ==> {
            &&& !source_ended(source)
            &&& source_pending(source, None) == 0
            &&& source_framing(source) == (Framing::Unsent { streamed: true })
            &&& source_answer(source, None) == SourceOutcome::<JmapEventSourceError>::Write(
                source_opening(
                    source_request_of(*session, auth@, texts(types@), ping, close_after_state),
                ),
            )
        },
{
    let auth = SecretString::from(auth.header.clone());
    let close = if close_after_state { JmapCloseAfter::State } else { JmapCloseAfter::No };
    JmapEventSource::new(session, &auth, types, ping, close, Arc::new(AtomicBool::new(false)))
}

/// One step of [`JmapEventSource`]. A frame takes bytes out of what was
/// read, so frames without more bytes come to an end. While there are frames
/// left a step looks at no new bytes and loses them, so none are handed in;
/// once more bytes or a write is asked for there are none left.
#[verifier::external_body]
fn source_run(source: &mut JmapEventSource, bytes: Option<&[u8]>) -> (r: SourceStep<
    JmapEventSourceError,
>)
    requires
        !source_ended(*old(source)),
        !source_framing(*old(source)).after(fed(bytes)).oversized(),
        bytes is Some ==> source_pending(*old(source), None) == 0,
    ensures
        source_outcome(r) == source_answer(*old(source), fed(bytes)),
        *final(source) == source_next(*old(source), fed(bytes)),
        r is Yielded ==> {
            &&& !source_ended(*final(source))
            &&& source_framing(*final(source)) == source_framing(*old(source)).after(fed(bytes))
        },
        source_outcome(r) is Read || source_outcome(r) is Write ==> source_pending(
            *final(source),
            None,
        ) == 0,
        source_outcome(r) is Frame ==> source_pending(*final(source), None) < source_pending(
            *old(source),
            fed(bytes),
        ),
{
    match source.resume(bytes) {
        JmapCoroutineState::Yielded(JmapEventSourceYield::WantsRead) => {
            EmailCoroutineState::Yielded(SourceYield::WantsRead)
        },
        JmapCoroutineState::Yielded(JmapEventSourceYield::WantsWrite(out)) => {
            EmailCoroutineState::Yielded(SourceYield::WantsWrite(out))
        },
        JmapCoroutineState::Yielded(JmapEventSourceYield::Frame(change)) => {
            let changed = change.changed.into_iter().map(|(id, states)| (id, states.into_iter().collect()));
            EmailCoroutineState::Yielded(SourceYield::Frame(StateChange { changed: changed.collect() }))
        },
        JmapCoroutineState::Complete(result) => EmailCoroutineState::Complete(result),
    }
}

/// The subscription for a request, and the framing of its reply.
pub open spec fn source_built(request: SourceRequest) -> Result<
    Guarded<JmapEventSource>,
    HttpFault<JmapEventSourceError>,
> {
    guarded_built(source_made(request), true)
}

/// Whether a subscription is not to be resumed: it is over, or its framing
/// was not followed.
pub open spec fn source_over(source: Guarded<JmapEventSource>) -> bool {
    source_ended(source.exchange) || source_framing(source.exchange) != source.framing
}

/// What the next step of a subscription comes to; a reply that announces too
/// large a chunk is refused.
pub open spec fn source_step(source: Guarded<JmapEventSource>, bytes: Option<Seq<u8>>) -> SourceOutcome<
    HttpFault<JmapEventSourceError>,
> {
    if source.framing.after(bytes).oversized() {
        SourceOutcome::Failed(HttpFault::ChunkSize)
    } else {
        match source_answer(source.exchange, bytes) {
            SourceOutcome::Read => SourceOutcome::Read,
            SourceOutcome::Write(out) => SourceOutcome::Write(out),
            SourceOutcome::Frame(change) => SourceOutcome::Frame(change),
            SourceOutcome::Done => SourceOutcome::Done,
            SourceOutcome::Failed(err) => SourceOutcome::Failed(HttpFault::Exchange(err)),
        }
    }
}

/// The subscription after that step.
pub open spec fn source_left(source: Guarded<JmapEventSource>, bytes: Option<Seq<u8>>) -> Guarded<
    JmapEventSource,
> {
    guarded_left(source, bytes, source_next(source.exchange, bytes))
}

/// How many frames the next steps of a subscription yield in a row, no more
/// bytes being read.
pub open spec fn source_backlog(source: Guarded<JmapEventSource>, bytes: Option<Seq<u8>>) -> nat {
    source_pending(source.exchange, bytes)
}

/// Starts a subscription, whose first step is to write the request.
pub(crate) fn source_new(
    session: &JmapSession,
    auth: &HttpAuth,
    types: &[&str],
    ping: u64,
    close_after_state: bool,
) -> (r: Result<Guarded<JmapEventSource>, HttpFault<JmapEventSourceError>>)
    ensures
        r == source_built(
            source_request_of(*session, auth@, texts(types@), ping, close_after_state),
        ),
        r matches Ok(source) ==> {
            &&& !source_over(source)
            &&& source_backlog(source, None) == 0
            &&& source_step(source, None) == SourceOutcome::<
                HttpFault<JmapEventSourceError>,
            >::Write(
                source_opening(
                    source_request_of(*session, auth@, texts(types@), ping, close_after_state),
                ),
            )
        },
{
    guard(source_make(session, auth, types, ping, close_after_state), true)
}

/// Takes one step, unless the reply is refused; with new bytes only where no
/// frames are left.
pub(crate) fn source_resume(source: &mut Guarded<JmapEventSource>, bytes: Option<&[u8]>) -> (r:
    SourceStep<HttpFault<JmapEventSourceError>>)
    requires
        !source_over(*old(source)),
        bytes is Some ==> source_backlog(*old(source), None) == 0,
    ensures
        source_outcome(r) == source_step(*old(source), fed(bytes)),
        *final(source) == source_left(*old(source), fed(bytes)),
        r is Yielded ==> !source_over(*final(source)),
        source_outcome(r) is Read || source_outcome(r) is Write ==> source_backlog(
            *final(source),
            None,
        ) == 0,
        source_outcome(r) is Frame ==> source_backlog(*final(source), None) < source_backlog(
            *old(source),
            fed(bytes),
        ),
{
    if !source.admits(bytes) {
        return EmailCoroutineState::Complete(Err(HttpFault::ChunkSize));
    }
    faulted(source_run(&mut source.exchange, bytes))
}

/// The URL of a subscription: that of the session's event source, with the
/// types, when the server closes the channel and the seconds between two
/// pings as parameters.
pub open spec fn subscription_url(
    session: JmapSession,
    types: Seq<Seq<char>>,
    ping: u64,
    close_after_state: bool,
) -> Seq<char> {
    let base = session_info(session).event_source_url;
    let mark = if base.contains('?') {
        "&"@
    } else {
        "?"@
    };
    let close = if close_after_state {
        "state"@
    } else {
        "no"@
    };
    base + mark + "types="@ + joined(types, ","@) + "&closeafter="@ + close + "&ping="@ + decimal(
        ping as nat,
    )
}

/// [`JmapEventSource::subscribe_url`]: the session's event source URL with
/// three parameters.
#[verifier::external_body]
fn subscribe_url(session: &JmapSession, types: &[&str], ping: u64, close_after_state: bool) -> (r: String)
    ensures
        r@ == subscription_url(*session, texts(types@), ping, close_after_state),
{
    let close = if close_after_state { JmapCloseAfter::State } else { JmapCloseAfter::No };
    JmapEventSource::subscribe_url(session, types, ping, close)
}

/// The host of a URL, `None` where it has none.
pub uninterp spec fn url_host(url: Url) -> Option<Seq<char>>;

/// The port of a URL, or the known one of its scheme; `None` where there is
/// neither.
pub uninterp spec fn url_port(url: Url) -> Option<u16>;

/// [`Url::host_str`].
#[verifier::external_body]
fn host_of(url: &Url) -> (r: Option<String>)
    ensures
        r.deep_view() == url_host(*url),
{
    url.host_str().map(String::from)
}

/// [`Url::port_or_known_default`].
#[verifier::external_body]
fn port_of(url: &Url) -> (r: Option<u16>)
    ensures
        r == url_port(*url),
{
    url.port_or_known_default()
}

/// Where a push channel is opened: its URL, and the host and port to
/// connect to.
pub struct EventTarget {
    pub url: Url,
    pub host: String,
    pub port: u16,
}

/// The port of a push channel whose URL names none.
pub const DEFAULT_PORT: u16 = 443;

/// Where the push channel of a session is opened, told of `types` and pinged
/// every `ping` seconds; the URL as text where it is not valid or names no
/// host.
pub fn event_target(session: &JmapSession, types: &[&str], ping: u64) -> (r: Result<
    EventTarget,
    String,
>)
    ensures
        ({
            let text = subscription_url(*session, texts(types@), ping, false);
            match r {
                Ok(target) => {
                    &&& url_of(text) == Some(target.url)
                    &&& url_host(target.url) == Some(target.host@)
                    &&& target.port == (match url_port(target.url) {
                        Some(port) => port,
                        None => DEFAULT_PORT,
                    })
                },
                Err(own) => own@ == text && (url_of(text) matches Some(url) ==> url_host(url) is None),
            }
        }),
{
    let text = subscribe_url(session, types, ping, false);
    match parse_url(text.as_str()) {
        None => Err(text),
        Some(url) => match host_of(&url) {
            None => Err(text),
            Some(host) => {
                let port: u16 = match port_of(&url) {
                    Some(port) => port,
                    None => DEFAULT_PORT,
                };
                Ok(EventTarget { url, host, port })
            },
        },
    }
}

} // verus!
