//! JMAP envelope listing: Email/query batched with Email/get, in the order
//! of the server.
use vstd::prelude::*;

use io_jmap::rfc8620::session::JmapSession;
use io_jmap::rfc8621::email::query::{JmapEmailQuery, JmapEmailQueryError};

use crate::coroutine::{fed, EmailCoroutineState, JmapStep, Outcome};
use crate::envelope::{Envelope, EnvelopeView};
use crate::http::{Guarded, HttpFault};
use crate::jmap::convert::{
    compute_position_limit, envelope_properties, envelope_property_list, envelopes_from,
    envelope_of, envelopes_of, law_window_is_the_page, position_limit, window,
};
use crate::jmap::filter::{
    law_search_stays_in_its_mailbox, passes, scope_filter, scoped, wire_filter, ConditionField,
};
use crate::jmap::wire::{
    email_query_built, email_query_left, email_query_new, email_query_over, email_query_resume,
    email_query_step, emails_content, read_emails, wire_properties, wire_sort, EmailQueryRequest,
    HttpAuth,
};
use crate::page::page_of;

verus! {

/// Errors produced by [`JmapEnvelopeList`].
#[derive(Debug)]
pub enum JmapEnvelopeListError {
    EmailQuery(HttpFault<JmapEmailQueryError>),
    ResumedAfterDone,
}

/// Where a listing stands.
pub enum State {
    Listing(Guarded<JmapEmailQuery>),
    Done,
}

pub type Answer = Outcome<Seq<EnvelopeView>, JmapEnvelopeListError>;

/// What a resume returns.
pub type Step = EmailCoroutineState<JmapStep, Result<Vec<Envelope>, JmapEnvelopeListError>>;

impl State {
    pub open spec fn live(self) -> bool {
        self matches State::Listing(query) ==> !email_query_over(query)
    }

    /// What a resume does: where it leaves the coroutine and what it
    /// answers.
    pub open spec fn resumed(self, bytes: Option<Seq<u8>>, post: State, answer: Answer) -> bool {
        match self {
            State::Listing(query) => match email_query_step(query, bytes) {
                Outcome::Done(emails) => post is Done && answer == Outcome::<
                    _,
                    JmapEnvelopeListError,
                >::Done(envelopes_of(emails_content(emails))),
                Outcome::Failed(err) => post is Done && answer == Outcome::<
                    Seq<EnvelopeView>,
                    _,
                >::Failed(JmapEnvelopeListError::EmailQuery(err)),
                wait => post == State::Listing(email_query_left(query, bytes)) && answer.forwards(
                    wait,
                ),
            },
            State::Done => post is Done && answer == Outcome::<Seq<EnvelopeView>, _>::Failed(
                JmapEnvelopeListError::ResumedAfterDone,
            ),
        }
    }
}

/// The Email/query of a listing: one page of a mailbox.
pub open spec fn list_request(
    session: JmapSession,
    auth: Seq<char>,
    mailbox: Seq<char>,
    page: Option<u32>,
    page_size: Option<u32>,
) -> EmailQueryRequest {
    let bounds = position_limit(page, page_size);
    EmailQueryRequest {
        session,
        auth,
        filter: scoped(None, mailbox),
        sort: None,
        position: bounds.0,
        limit: bounds.1,
        properties: envelope_property_list(),
    }
}

/// I/O-free coroutine listing the envelopes of a JMAP mailbox.
pub struct JmapEnvelopeList {
    state: State,
}

impl View for JmapEnvelopeList {
    type V = State;

    closed spec fn view(&self) -> State {
        self.state
    }
}

impl JmapEnvelopeList {
    #[verifier::type_invariant]
    closed spec fn inv(self) -> bool {
        self.state.live()
    }

    /// `mailbox` is the JMAP mailbox id.
    pub fn new(
        session: &JmapSession,
        auth: &HttpAuth,
        mailbox: &str,
        page: Option<u32>,
        page_size: Option<u32>,
    ) -> (r: Result<JmapEnvelopeList, JmapEnvelopeListError>)
        ensures
            ({
                let request = list_request(*session, auth@, mailbox@, page, page_size);
                match r {
                    Ok(run) => run@ matches State::Listing(query) && email_query_built(request) == Ok::<
                        _,
                        HttpFault<JmapEmailQueryError>,
                    >(query),
                    Err(err) => email_query_built(request) matches Err(cause) && err
                        == JmapEnvelopeListError::EmailQuery(cause),
                }
            }),
    {
        let filter = scope_filter(None, mailbox.to_owned());
        let bounds = compute_position_limit(page, page_size);
        let properties = wire_properties(&envelope_properties());
        match email_query_new(session, auth, wire_filter(&filter), wire_sort(&None), bounds, properties) {
            Ok(query) => Ok(JmapEnvelopeList { state: State::Listing(query) }),
            Err(err) => Err(JmapEnvelopeListError::EmailQuery(err)),
        }
    }

    /// Advances the coroutine: with no bytes at first and after a write,
    /// with what was read after a read.
    pub fn resume(&mut self, bytes: Option<&[u8]>) -> (r: Step)
        ensures
            old(self)@.resumed(fed(bytes), final(self)@, r.outcome()),
    {
        proof {
            use_type_invariant(&*self);
        }
        let mut state = State::Done;
        core::mem::swap(&mut self.state, &mut state);
        match state {
            State::Listing(mut query) => match email_query_resume(&mut query, bytes) {
                EmailCoroutineState::Yielded(step) => {
                    self.state = State::Listing(query);
                    EmailCoroutineState::Yielded(step)
                },
                EmailCoroutineState::Complete(Ok(batch)) => EmailCoroutineState::Complete(
                    Ok(envelopes_from(&read_emails(&batch))),
                ),
                EmailCoroutineState::Complete(Err(err)) => EmailCoroutineState::Complete(
                    Err(JmapEnvelopeListError::EmailQuery(err)),
                ),
            },
            State::Done => EmailCoroutineState::Complete(
                Err(JmapEnvelopeListError::ResumedAfterDone),
            ),
        }
    }
}

/// A listing asks for the emails of its mailbox and no other, and of them for
/// the page.
pub proof fn law_list_is_the_page(
    session: JmapSession,
    auth: Seq<char>,
    mailbox: Seq<char>,
    page: Option<u32>,
    page_size: Option<u32>,
    holds: spec_fn(ConditionField, Seq<char>) -> bool,
    all: Seq<EnvelopeView>,
)
    ensures
        ({
            let request = list_request(session, auth, mailbox, page, page_size);
            &&& request.session == session && request.auth == auth
            &&& passes(request.filter, holds) <==> holds(ConditionField::InMailbox, mailbox)
            &&& window(all, request.position, request.limit) == page_of(all, page, page_size)
        }),
{
    law_search_stays_in_its_mailbox(None, mailbox, holds);
    law_window_is_the_page(all, page, page_size);
}

/// A listing gives exactly what the server found, each email as its envelope,
/// in the server's order.
pub proof fn law_list_is_the_servers(pre: State, bytes: Option<Seq<u8>>, post: State, answer: Answer)
    requires
        pre.resumed(bytes, post, answer),
    ensures
        answer is Done ==> post is Done,
        answer is Done <==> (pre matches State::Listing(query) && email_query_step(query, bytes) is Done),
        answer matches Outcome::Done(list) ==> (pre matches State::Listing(query) && email_query_step(
            query,
            bytes,
        ) matches Outcome::Done(emails) && list.len() == emails_content(emails).len() && forall|i: int|
            0 <= i < list.len() ==> #[trigger] list[i] == envelope_of(emails_content(emails)[i])),
{
}

} // verus!
