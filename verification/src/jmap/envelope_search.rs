//! JMAP envelope search: Email/query batched with Email/get, filter and sort
//! pushed to the server; a mailbox named otherwise than by its id is looked
//! up first with Mailbox/query.
//!
//! Residual dates force the page onto the client: the whole filtered set is
//! asked for, and each page sent to the server again.
use vstd::prelude::*;

use io_imap::codec::fragmentizer::Fragmentizer;
use io_jmap::rfc8620::session::JmapSession;
use io_jmap::rfc8621::email::query::{JmapEmailQuery, JmapEmailQueryError};
use io_jmap::rfc8621::mailbox::query::{JmapMailboxQuery, JmapMailboxQueryError};

use crate::coroutine::{
    fed, hands_over, resumed, EmailBackend, EmailCoroutine, EmailCoroutineArg, EmailCoroutineState,
    JmapStep, Outcome, Stages,
};
use crate::envelope::{Envelope, EnvelopeView};
use crate::http::{Guarded, HttpFault};
use crate::jmap::convert::{
    compute_position_limit, envelope_properties, envelope_property_list, envelopes_from,
    envelopes_of, law_window_is_the_page, position_limit, window,
};
use crate::jmap::filter::{
    convert_query, finish, found, given, law_retained_in_order, meets_all, query_parts, scope_filter, scoped, wire_filter, QueryParts,
    QueryPartsView, PostFilter,
};
use crate::jmap::wire::{
    clone_session, email_query_built, email_query_left, email_query_new, email_query_over,
    email_query_resume, email_query_step, emails_content, mailbox_query_built, mailbox_query_left,
    mailbox_query_new, mailbox_query_over, mailbox_query_resume, mailbox_query_step, read_emails,
    wire_properties, wire_sort, EmailQueryRequest, HttpAuth, JmapMailboxRow, JmapMailboxRowView, MailboxProperty,
    MailboxQueryRequest,
};
use crate::page::page_of;
use crate::search::SearchEmailsQuery;
use crate::text::same_text;

verus! {

/// Errors produced by [`JmapEnvelopeSearch`].
#[derive(Debug)]
pub enum JmapEnvelopeSearchError {
    MailboxQuery(HttpFault<JmapMailboxQueryError>),
    EmailQuery(HttpFault<JmapEmailQueryError>),
    NotFound(String),
    InvalidArg,
    ResumedAfterDone,
}

/// Where a search stands.
pub enum State {
    /// Looking the mailbox up by its name.
    Resolving {
        mailbox_query: Guarded<JmapMailboxQuery>,
        name: String,
        session: JmapSession,
        auth: HttpAuth,
        parts: QueryParts,
        page: Option<u32>,
        page_size: Option<u32>,
    },
    Searching {
        email_query: Guarded<JmapEmailQuery>,
        post_filters: Vec<PostFilter>,
        page: Option<u32>,
        page_size: Option<u32>,
    },
    Done,
}

pub type Answer = Outcome<Seq<EnvelopeView>, JmapEnvelopeSearchError>;

/// What a resume returns.
pub type Step = EmailCoroutineState<JmapStep, Result<Vec<Envelope>, JmapEnvelopeSearchError>>;

/// The Email/query of a search: paged by the server unless residual dates
/// have to be checked first.
pub open spec fn search_request(
    session: JmapSession,
    auth: Seq<char>,
    mailbox_id: Seq<char>,
    parts: QueryPartsView,
    page: Option<u32>,
    page_size: Option<u32>,
) -> EmailQueryRequest {
    let bounds = if parts.post_filters.len() == 0 {
        position_limit(page, page_size)
    } else {
        (None, None)
    };
    EmailQueryRequest {
        session,
        auth,
        filter: scoped(parts.filter, mailbox_id),
        sort: Some(parts.sort),
        position: bounds.0,
        limit: bounds.1,
        properties: envelope_property_list(),
    }
}

/// The lookup of a mailbox by its name.
pub open spec fn lookup_request(session: JmapSession, auth: Seq<char>, name: Seq<char>) -> MailboxQueryRequest {
    MailboxQueryRequest {
        session,
        auth,
        name: Some(name),
        properties: seq![MailboxProperty::Id, MailboxProperty::Name],
    }
}

/// The id of the first mailbox of this very name that has one.
pub open spec fn mailbox_id_in(rows: Seq<JmapMailboxRowView>, name: Seq<char>) -> Option<Seq<char>>
    decreases rows.len(),
{
    if rows.len() == 0 {
        None
    } else if rows[0].name == Some(name) && rows[0].id is Some {
        rows[0].id
    } else {
        mailbox_id_in(rows.skip(1), name)
    }
}

/// Id of the first mailbox whose name is `name`.
pub fn find_mailbox_id(mailboxes: &Vec<JmapMailboxRow>, name: &str) -> (r: Option<String>)
    ensures
        r.deep_view() == mailbox_id_in(mailboxes.deep_view(), name@),
{
    let ghost rows = mailboxes.deep_view();
    proof {
        assert(rows.skip(0) =~= rows);
    }
    let mut i: usize = 0;
    while i < mailboxes.len()
        invariant
            i <= mailboxes@.len(),
            rows == mailboxes.deep_view(),
            mailbox_id_in(rows, name@) == mailbox_id_in(rows.skip(i as int), name@),
        decreases mailboxes@.len() - i,
    {
        proof {
            assert(rows.skip(i as int)[0] == mailboxes@[i as int].deep_view());
            assert(rows.skip(i as int).skip(1) =~= rows.skip(i + 1));
        }
        let row = &mailboxes[i];
        if let Some(own) = &row.name {
            if same_text(own.as_str(), name) {
                if let Some(id) = &row.id {
                    return Some(id.clone());
                }
            }
        }
        i = i + 1;
    }
    None
}

impl State {
    pub open spec fn live(self) -> bool {
        match self {
            State::Resolving { mailbox_query, .. } => !mailbox_query_over(mailbox_query),
            State::Searching { email_query, .. } => !email_query_over(email_query),
            State::Done => true,
        }
    }

    /// Whether the search is waiting for this Email/query.
    pub open spec fn searches(
        self,
        email_query: Guarded<JmapEmailQuery>,
        post_filters: Seq<PostFilter>,
        page: Option<u32>,
        page_size: Option<u32>,
    ) -> bool {
        self matches State::Searching { email_query: own, post_filters: left, page: p, page_size: z }
            && own == email_query && left@ == post_filters && p == page && z == page_size
    }
}

impl Stages for State {
    type Context = ();

    type Answer = Answer;

    open spec fn rank(self) -> nat {
        match self {
            State::Resolving { .. } => 2,
            State::Searching { .. } => 1,
            State::Done => 0,
        }
    }

    open spec fn stage(self, context: (), bytes: Option<Seq<u8>>, post: State, left: (), answer: Option<Answer>) -> bool {
        match self {
            State::Resolving { mailbox_query, name, session, auth, parts, page, page_size } => {
                match mailbox_query_step(mailbox_query, bytes) {
                    Outcome::Done(rows) => match mailbox_id_in(rows, name@) {
                        Some(id) => {
                            let request = search_request(
                                session,
                                auth@,
                                id,
                                parts@,
                                page,
                                page_size,
                            );
                            match email_query_built(request) {
                                Err(err) => post is Done && answer == Some(
                                    Outcome::<Seq<EnvelopeView>, _>::Failed(
                                        JmapEnvelopeSearchError::EmailQuery(err),
                                    ),
                                ),
                                Ok(email_query) => answer is None && post.searches(
                                    email_query,
                                    parts.post_filters@,
                                    page,
                                    page_size,
                                ),
                            }
                        },
                        None => post is Done && (answer matches Some(
                            Outcome::Failed(JmapEnvelopeSearchError::NotFound(text)),
                        ) && text@ == name@),
                    },
                    Outcome::Failed(err) => post is Done && answer == Some(
                        Outcome::<Seq<EnvelopeView>, _>::Failed(
                            JmapEnvelopeSearchError::MailboxQuery(err),
                        ),
                    ),
                    wait => {
                        &&& post == State::Resolving {
                            mailbox_query: mailbox_query_left(mailbox_query, bytes),
                            name,
                            session,
                            auth,
                            parts,
                            page,
                            page_size,
                        }
                        &&& answer is Some && answer->0.forwards(wait)
                    },
                }
            },
            State::Searching { email_query, post_filters, page, page_size } => {
                match email_query_step(email_query, bytes) {
                    Outcome::Done(emails) => post is Done && answer == Some(
                        Outcome::<_, JmapEnvelopeSearchError>::Done(
                            found(
                                envelopes_of(emails_content(emails)),
                                post_filters@,
                                page,
                                page_size,
                            ),
                        ),
                    ),
                    Outcome::Failed(err) => post is Done && answer == Some(
                        Outcome::<Seq<EnvelopeView>, _>::Failed(
                            JmapEnvelopeSearchError::EmailQuery(err),
                        ),
                    ),
                    wait => {
                        &&& post == State::Searching {
                            email_query: email_query_left(email_query, bytes),
                            post_filters,
                            page,
                            page_size,
                        }
                        &&& answer is Some && answer->0.forwards(wait)
                    },
                }
            },
            State::Done => post is Done && answer == Some(
                Outcome::<Seq<EnvelopeView>, _>::Failed(JmapEnvelopeSearchError::ResumedAfterDone),
            ),
        }
    }
}

/// I/O-free coroutine searching a JMAP mailbox.
pub struct JmapEnvelopeSearch {
    state: State,
}

impl View for JmapEnvelopeSearch {
    type V = State;

    closed spec fn view(&self) -> State {
        self.state
    }
}

/// Starts the Email/query of a search.
fn begin(
    session: &JmapSession,
    auth: &HttpAuth,
    mailbox_id: String,
    parts: QueryParts,
    page: Option<u32>,
    page_size: Option<u32>,
) -> (r: Result<State, HttpFault<JmapEmailQueryError>>)
    ensures
        ({
            let request = search_request(*session, auth@, mailbox_id@, parts@, page, page_size);
            match email_query_built(request) {
                Ok(email_query) => r matches Ok(state) && !email_query_over(email_query)
                    && state.searches(email_query, parts.post_filters@, page, page_size),
                Err(err) => r == Err::<State, _>(err),
            }
        }),
{
    let ghost request = search_request(*session, auth@, mailbox_id@, parts@, page, page_size);
    let QueryParts { filter, sort, post_filters } = parts;
    let bounds = if post_filters.len() == 0 {
        compute_position_limit(page, page_size)
    } else {
        (None, None)
    };
    let filter = scope_filter(filter, mailbox_id);
    let sort = wire_sort(&Some(sort));
    let properties = wire_properties(&envelope_properties());
    match email_query_new(session, auth, wire_filter(&filter), sort, bounds, properties) {
        Ok(email_query) => {
            proof {
                assert(email_query_built(request) == Ok::<_, HttpFault<JmapEmailQueryError>>(email_query));
            }
            Ok(State::Searching { email_query, post_filters, page, page_size })
        },
        Err(err) => Err(err),
    }
}

impl JmapEnvelopeSearch {
    #[verifier::type_invariant]
    closed spec fn inv(self) -> bool {
        self.state.live()
    }

    /// `mailbox` is the JMAP mailbox id.
    pub fn new(
        session: &JmapSession,
        auth: &HttpAuth,
        mailbox: &str,
        query: Option<&SearchEmailsQuery>,
        page: Option<u32>,
        page_size: Option<u32>,
    ) -> (r: Result<JmapEnvelopeSearch, JmapEnvelopeSearchError>)
        ensures
            ({
                let parts = query_parts(given(query));
                let request = search_request(*session, auth@, mailbox@, parts, page, page_size);
                match email_query_built(request) {
                    Ok(email_query) => r matches Ok(run) && run@.searches(
                        email_query,
                        parts.post_filters,
                        page,
                        page_size,
                    ),
                    Err(cause) => r matches Err(err) && err == JmapEnvelopeSearchError::EmailQuery(
                        cause,
                    ),
                }
            }),
    {
        let parts = convert_query(query);
        match begin(session, auth, mailbox.to_owned(), parts, page, page_size) {
            Ok(state) => Ok(JmapEnvelopeSearch { state }),
            Err(err) => Err(JmapEnvelopeSearchError::EmailQuery(err)),
        }
    }

    /// `name` is the name of the mailbox, looked up first.
    pub fn by_name(
        session: &JmapSession,
        auth: &HttpAuth,
        name: &str,
        query: Option<&SearchEmailsQuery>,
        page: Option<u32>,
        page_size: Option<u32>,
    ) -> (r: Result<JmapEnvelopeSearch, JmapEnvelopeSearchError>)
        ensures
            match mailbox_query_built(lookup_request(*session, auth@, name@)) {
                Ok(lookup) => r matches Ok(run) && (run@ matches State::Resolving {
                    mailbox_query,
                    name: own,
                    session: s,
                    auth: a,
                    parts,
                    page: p,
                    page_size: z,
                } && {
                    &&& mailbox_query == lookup
                    &&& own@ == name@ && s == *session && a@ == auth@ && p == page && z == page_size
                    &&& parts@ == query_parts(given(query))
                }),
                Err(cause) => r matches Err(err) && err == JmapEnvelopeSearchError::MailboxQuery(
                    cause,
                ),
            },
    {
        let mut properties: Vec<MailboxProperty> = Vec::new();
        properties.push(MailboxProperty::Id);
        properties.push(MailboxProperty::Name);
        proof {
            assert(properties@ =~= seq![MailboxProperty::Id, MailboxProperty::Name]);
        }
        match mailbox_query_new(session, auth, Some(name.to_owned()), &properties) {
            Ok(mailbox_query) => Ok(
                JmapEnvelopeSearch {
                    state: State::Resolving {
                        mailbox_query,
                        name: name.to_owned(),
                        session: clone_session(session),
                        auth: auth.clone(),
                        parts: convert_query(query),
                        page,
                        page_size,
                    },
                },
            ),
            Err(err) => Err(JmapEnvelopeSearchError::MailboxQuery(err)),
        }
    }

    /// Advances the coroutine: with no bytes at first and after a write,
    /// with what was read after a read.
    pub fn resume(&mut self, bytes: Option<&[u8]>) -> (r: Step)
        ensures
            resumed(old(self)@, (), fed(bytes), final(self)@, (), r.outcome()),
        decreases old(self)@.rank(),
    {
        proof {
            use_type_invariant(&*self);
        }
        let ghost pre = self@;
        let mut state = State::Done;
        core::mem::swap(&mut self.state, &mut state);
        match state {
            State::Resolving { mut mailbox_query, name, session, auth, parts, page, page_size } => {
                match mailbox_query_resume(&mut mailbox_query, bytes) {
                    EmailCoroutineState::Yielded(step) => {
                        self.state = State::Resolving {
                            mailbox_query,
                            name,
                            session,
                            auth,
                            parts,
                            page,
                            page_size,
                        };
                        EmailCoroutineState::Yielded(step)
                    },
                    EmailCoroutineState::Complete(Ok(rows)) => match find_mailbox_id(
                        &rows,
                        name.as_str(),
                    ) {
                        Some(id) => match begin(&session, &auth, id, parts, page, page_size) {
                            Ok(next) => {
                                self.state = next;
                                proof {
                                    assert(hands_over(pre, (), fed(bytes), self@, ()));
                                }
                                self.resume(None)
                            },
                            Err(err) => EmailCoroutineState::Complete(
                                Err(JmapEnvelopeSearchError::EmailQuery(err)),
                            ),
                        },
                        None => EmailCoroutineState::Complete(
                            Err(JmapEnvelopeSearchError::NotFound(name)),
                        ),
                    },
                    EmailCoroutineState::Complete(Err(err)) => EmailCoroutineState::Complete(
                        Err(JmapEnvelopeSearchError::MailboxQuery(err)),
                    ),
                }
            },
            State::Searching { mut email_query, post_filters, page, page_size } => {
                match email_query_resume(&mut email_query, bytes) {
                    EmailCoroutineState::Yielded(step) => {
                        self.state = State::Searching { email_query, post_filters, page, page_size };
                        EmailCoroutineState::Yielded(step)
                    },
                    EmailCoroutineState::Complete(Ok(batch)) => {
                        let envelopes = envelopes_from(&read_emails(&batch));
                        EmailCoroutineState::Complete(
                            Ok(finish(envelopes, &post_filters, page, page_size)),
                        )
                    },
                    EmailCoroutineState::Complete(Err(err)) => EmailCoroutineState::Complete(
                        Err(JmapEnvelopeSearchError::EmailQuery(err)),
                    ),
                }
            },
            State::Done => EmailCoroutineState::Complete(
                Err(JmapEnvelopeSearchError::ResumedAfterDone),
            ),
        }
    }
}

impl EmailCoroutine for JmapEnvelopeSearch {
    type Yield = JmapStep;

    type Return = Result<Vec<Envelope>, JmapEnvelopeSearchError>;

    const BACKEND: EmailBackend = EmailBackend::Jmap;

    open spec fn ready(self) -> bool {
        true
    }

    open spec fn advances(
        pre: JmapEnvelopeSearch,
        arg: EmailCoroutineArg<'_>,
        post: JmapEnvelopeSearch,
        left: Option<Fragmentizer>,
        r: Step,
    ) -> bool {
        match arg {
            EmailCoroutineArg::Jmap { bytes } => resumed(pre@, (), fed(bytes), post@, (), r.outcome()),
            _ => post == pre && r == Step::Complete(Err(JmapEnvelopeSearchError::InvalidArg)),
        }
    }

    fn resume(&mut self, arg: EmailCoroutineArg<'_>) -> (r: Step) {
        match arg {
            EmailCoroutineArg::Jmap { bytes } => JmapEnvelopeSearch::resume(self, bytes),
            _ => EmailCoroutineState::Complete(Err(JmapEnvelopeSearchError::InvalidArg)),
        }
    }
}

/// Pages are the same whether the server or the library cuts them: of all that
/// the server has for the filter, a search gives the page of those that pass
/// the residual predicates, in the server's order.
pub proof fn law_page_of_what_passes(
    session: JmapSession,
    auth: Seq<char>,
    mailbox_id: Seq<char>,
    parts: QueryPartsView,
    page: Option<u32>,
    page_size: Option<u32>,
    all: Seq<EnvelopeView>,
)
    ensures
        ({
            let request = search_request(session, auth, mailbox_id, parts, page, page_size);
            found(
                window(all, request.position, request.limit),
                parts.post_filters,
                page,
                page_size,
            ) == page_of(
                all.filter(|e: EnvelopeView| meets_all(e.date, parts.post_filters)),
                page,
                page_size,
            )
        }),
{
    law_window_is_the_page(all, page, page_size);
    law_retained_in_order(all, parts.post_filters);
    assert(window(all, None, None) =~= all);
    if parts.post_filters.len() == 0 {
        let pass = |e: EnvelopeView| meets_all(e.date, parts.post_filters);
        lemma_all_pass(all, pass);
    }
}

proof fn lemma_all_pass(all: Seq<EnvelopeView>, pass: spec_fn(EnvelopeView) -> bool)
    requires
        forall|e: EnvelopeView| #[trigger] pass(e),
    ensures
        all.filter(pass) == all,
    decreases all.len(),
{
    reveal(Seq::filter);
    if all.len() > 0 {
        lemma_all_pass(all.drop_last(), pass);
        assert(all.drop_last().push(all.last()) =~= all);
    }
}

/// A mailbox is found by its exact name: the id is that of the first mailbox of
/// that name that has one, and there is none where no mailbox has the name.
pub proof fn law_mailbox_is_found_by_name(rows: Seq<JmapMailboxRowView>, name: Seq<char>, k: int)
    requires
        0 <= k <= rows.len(),
        forall|i: int| 0 <= i < k ==> (#[trigger] rows[i]).name != Some(name) || rows[i].id is None,
    ensures
        k == rows.len() ==> mailbox_id_in(rows, name) is None,
        k < rows.len() && rows[k].name == Some(name) && rows[k].id is Some ==> mailbox_id_in(rows, name)
            == rows[k].id,
    decreases k,
{
    if k > 0 {
        let rest = rows.skip(1);
        assert(rows[0].name != Some(name) || rows[0].id is None);
        assert forall|i: int| 0 <= i < k - 1 implies (#[trigger] rest[i]).name != Some(name)
            || rest[i].id is None by {
            assert(rest[i] == rows[i + 1]);
        }
        law_mailbox_is_found_by_name(rest, name, k - 1);
        if k < rows.len() {
            assert(rest[k - 1] == rows[k]);
        }
    }
}

/// A search gives only what the server found, once the mailbox has been found
/// by its name; a mailbox of no such name is told as such.
pub proof fn law_success_is_the_servers(
    pre: State,
    context: (),
    bytes: Option<Seq<u8>>,
    post: State,
    left: (),
    answer: Answer,
)
    requires
        resumed(pre, context, bytes, post, left, answer),
    ensures
        answer is Done ==> post is Done && !(pre is Done),
        pre matches State::Searching { email_query, .. } ==> (answer is Done <==> email_query_step(
            email_query,
            bytes,
        ) is Done),
        pre matches State::Resolving { mailbox_query, name, .. } ==> (answer is Done ==> (
        mailbox_query_step(mailbox_query, bytes) matches Outcome::Done(rows) && mailbox_id_in(
            rows,
            name@,
        ) is Some)),
    decreases pre.rank(),
{
    if !pre.stage(context, bytes, post, left, Some(answer)) {
        let (mid, between) = choose|mid: State, between: ()|
            #[trigger] hands_over(pre, context, bytes, mid, between) && resumed(
                mid,
                between,
                None,
                post,
                left,
                answer,
            );
        law_success_is_the_servers(mid, between, None, post, left, answer);
    }
}

/// A mailbox is looked for by the name that was given, and with its id.
pub proof fn law_mailbox_asked_for(session: JmapSession, auth: Seq<char>, name: Seq<char>)
    ensures
        lookup_request(session, auth, name).name == Some(name),
        lookup_request(session, auth, name).properties.contains(MailboxProperty::Id),
        lookup_request(session, auth, name).properties.contains(MailboxProperty::Name),
        lookup_request(session, auth, name).session == session && lookup_request(session, auth, name).auth
            == auth,
{
    assert(lookup_request(session, auth, name).properties[0] == MailboxProperty::Id);
    assert(lookup_request(session, auth, name).properties[1] == MailboxProperty::Name);
}

/// What an exchange waits for is passed on as it is, and what it fails with is
/// told and ends the run; a run that is over stays over.
pub proof fn law_waits_and_failures_are_told(
    pre: State,
    context: (),
    bytes: Option<Seq<u8>>,
    post: State,
    left: (),
    answer: Answer,
)
    requires
        resumed(pre, context, bytes, post, left, answer),
    ensures
        pre matches State::Resolving { mailbox_query, .. } ==> {
            &&& mailbox_query_step(mailbox_query, bytes) is Read ==> answer is Read
            &&& mailbox_query_step(mailbox_query, bytes) matches Outcome::Write(out) ==> answer == Answer::Write(out)
            &&& mailbox_query_step(mailbox_query, bytes) matches Outcome::Failed(err) ==> post is Done && answer == Answer::Failed(
                JmapEnvelopeSearchError::MailboxQuery(err),
            )
        },
        pre matches State::Searching { email_query, .. } ==> {
            &&& email_query_step(email_query, bytes) is Read ==> answer is Read
            &&& email_query_step(email_query, bytes) matches Outcome::Write(out) ==> answer == Answer::Write(out)
            &&& email_query_step(email_query, bytes) matches Outcome::Failed(err) ==> post is Done && answer == Answer::Failed(
                JmapEnvelopeSearchError::EmailQuery(err),
            )
        },
        pre is Done ==> post is Done && answer == Answer::Failed(JmapEnvelopeSearchError::ResumedAfterDone),
{
    if !pre.stage(context, bytes, post, left, Some(answer)) {
        let (mid, between) = choose|mid: State, between: ()|
            #[trigger] hands_over(pre, context, bytes, mid, between) && resumed(
                mid,
                between,
                None,
                post,
                left,
                answer,
            );
        assert(pre.stage(context, bytes, mid, between, None));
    }
}

} // verus!
