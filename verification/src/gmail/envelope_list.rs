//! Gmail envelope listing: `users.messages.list`, walked page by page to the
//! one asked for, then one `users.messages.get` for the metadata of each
//! message.
use vstd::prelude::*;

use io_gmail::v1::rest::messages::get::GmailMessageGet;
use io_gmail::v1::rest::messages::list::GmailMessagesList;
use io_gmail::v1::send::GmailSendError;
use io_http::rfc6750::bearer::HttpAuthBearer;

use crate::coroutine::{fed, hands_over, resumed, EmailCoroutineState, GmailStep, Outcome, Stages};
use crate::envelope::{Envelope, EnvelopeView};
use crate::gmail::convert::{envelope_from, envelope_of, include_spam_trash, SPAM, TRASH};
use crate::gmail::wire::{
    clone_auth, get_built, get_left, get_new, get_over, get_resume, get_step, list_built, list_left,
    list_new, list_of, list_over, list_resume, list_step, message_metadata, read_message,
    GetRequest, ListRequest, MessagePageView,
};
use crate::http::{Guarded, HttpFault};
use crate::page::page_number;

verus! {

/// Errors produced by [`GmailEnvelopeList`].
#[derive(Debug)]
pub enum GmailEnvelopeListError {
    Send(HttpFault<GmailSendError>),
    ResumedAfterDone,
}

/// What a listing goes by.
pub struct Plan {
    pub auth: HttpAuthBearer,
    pub user_id: String,
    pub label_ids: Vec<String>,
    pub page_size: Option<u32>,
    pub include_spam_trash: bool,
}

/// Where a listing stands.
pub enum State {
    /// Walking the pages; `skip` more come before the one asked for.
    Listing { skip: u32, list: Guarded<GmailMessagesList> },
    /// Fetching the messages of the page; `done` are those before `index`.
    Getting { ids: Vec<String>, index: usize, get: Guarded<GmailMessageGet>, done: Vec<Envelope> },
    Done,
}

/// A listing under way: its plan and where it stands.
pub struct Listing {
    pub plan: Plan,
    pub state: State,
}

pub type Answer = Outcome<Seq<EnvelopeView>, GmailEnvelopeListError>;

/// What a resume returns.
pub type Step = EmailCoroutineState<GmailStep, Result<Vec<Envelope>, GmailEnvelopeListError>>;

impl Plan {
    /// The request for a page.
    pub open spec fn page(self, token: Option<Seq<char>>) -> ListRequest {
        list_of(
            self.auth,
            self.user_id@,
            self.label_ids.deep_view(),
            self.page_size,
            token,
            self.include_spam_trash,
        )
    }

    /// The request for a message.
    pub open spec fn message(self, id: Seq<char>) -> GetRequest {
        GetRequest { auth: self.auth, user_id: self.user_id@, id }
    }
}

impl State {
    pub open spec fn live(self) -> bool {
        match self {
            State::Listing { list, .. } => !list_over(list),
            State::Getting { ids, index, get, .. } => !get_over(get) && index < ids@.len(),
            State::Done => true,
        }
    }

    /// Whether the message at `index` of these ids is being fetched, after
    /// those that gave these envelopes.
    pub open spec fn getting(
        self,
        get: Guarded<GmailMessageGet>,
        ids: Seq<Seq<char>>,
        index: int,
        done: Seq<EnvelopeView>,
    ) -> bool {
        self matches State::Getting { ids: own, index: at, get: current, done: before }
            && own.deep_view() == ids && at == index && current == get && before.deep_view() == done
    }
}

impl Listing {
    /// What follows once the messages before `index` are fetched.
    pub open spec fn next_message(
        self,
        ids: Seq<Seq<char>>,
        index: int,
        done: Seq<EnvelopeView>,
        post: Listing,
        answer: Option<Answer>,
    ) -> bool {
        if index >= ids.len() {
            post.state is Done && answer == Some(Outcome::<_, GmailEnvelopeListError>::Done(done))
        } else {
            match get_built(self.plan.message(ids[index])) {
                Err(err) => post.state is Done && answer == Some(
                    Outcome::<Seq<EnvelopeView>, _>::Failed(GmailEnvelopeListError::Send(err)),
                ),
                Ok(get) => answer is None && post.state.getting(get, ids, index, done),
            }
        }
    }

    /// What follows a page.
    pub open spec fn after_page(self, skip: u32, page: MessagePageView, post: Listing, answer: Option<Answer>) -> bool {
        if skip == 0 {
            self.next_message(page.ids, 0, seq![], post, answer)
        } else {
            match page.next_page_token {
                None => post.state is Done && answer == Some(
                    Outcome::<_, GmailEnvelopeListError>::Done(Seq::<EnvelopeView>::empty()),
                ),
                Some(token) => match list_built(self.plan.page(Some(token))) {
                    Err(err) => post.state is Done && answer == Some(
                        Outcome::<Seq<EnvelopeView>, _>::Failed(GmailEnvelopeListError::Send(err)),
                    ),
                    Ok(list) => answer is None && post.state == State::Listing {
                        skip: (skip - 1) as u32,
                        list,
                    },
                },
            }
        }
    }
}

impl Stages for Listing {
    type Context = ();

    type Answer = Answer;

    open spec fn rank(self) -> nat {
        match self.state {
            State::Listing { .. } => 2,
            State::Getting { .. } => 1,
            State::Done => 0,
        }
    }

    open spec fn repeats(self, bytes: Option<Seq<u8>>) -> nat {
        match self.state {
            State::Listing { skip, .. } => skip as nat,
            State::Getting { ids, index, .. } => if index < ids@.len() {
                (ids@.len() - index) as nat
            } else {
                0
            },
            State::Done => 0,
        }
    }

    open spec fn stage(self, context: (), bytes: Option<Seq<u8>>, post: Listing, left: (), answer: Option<Answer>) -> bool {
        &&& post.plan == self.plan
        &&& match self.state {
            State::Listing { skip, list } => match list_step(list, bytes) {
                Outcome::Done(page) => self.after_page(skip, page, post, answer),
                Outcome::Failed(err) => post.state is Done && answer == Some(
                    Outcome::<Seq<EnvelopeView>, _>::Failed(GmailEnvelopeListError::Send(err)),
                ),
                wait => {
                    &&& post.state == State::Listing { skip, list: list_left(list, bytes) }
                    &&& answer is Some && answer->0.forwards(wait)
                },
            },
            State::Getting { ids, index, get, done } => match get_step(get, bytes) {
                Outcome::Done(message) => self.next_message(
                    ids.deep_view(),
                    index + 1,
                    done.deep_view().push(envelope_of(message_metadata(message))),
                    post,
                    answer,
                ),
                Outcome::Failed(err) => post.state is Done && answer == Some(
                    Outcome::<Seq<EnvelopeView>, _>::Failed(GmailEnvelopeListError::Send(err)),
                ),
                wait => {
                    &&& post.state == State::Getting {
                        ids,
                        index,
                        get: get_left(get, bytes),
                        done,
                    }
                    &&& answer is Some && answer->0.forwards(wait)
                },
            },
            State::Done => post.state is Done && answer == Some(
                Outcome::<Seq<EnvelopeView>, _>::Failed(GmailEnvelopeListError::ResumedAfterDone),
            ),
        }
    }
}

/// I/O-free coroutine listing envelopes from a Gmail label.
pub struct GmailEnvelopeList {
    plan: Plan,
    state: State,
}

impl View for GmailEnvelopeList {
    type V = Listing;

    closed spec fn view(&self) -> Listing {
        Listing { plan: self.plan, state: self.state }
    }
}

impl GmailEnvelopeList {
    #[verifier::type_invariant]
    closed spec fn inv(self) -> bool {
        self.state.live()
    }

    /// `mailbox` is the label; pages count from 1.
    pub fn new(
        auth: &HttpAuthBearer,
        user_id: &str,
        mailbox: &str,
        page: Option<u32>,
        page_size: Option<u32>,
    ) -> (r: Result<GmailEnvelopeList, GmailEnvelopeListError>)
        ensures
            ({
                let request = list_of(
                    *auth,
                    user_id@,
                    seq![mailbox@],
                    page_size,
                    None,
                    mailbox@ == SPAM@ || mailbox@ == TRASH@,
                );
                match list_built(request) {
                    Ok(list) => r matches Ok(run) && {
                        &&& run@.plan.page(None) == request
                        &&& run@.state == State::Listing {
                            skip: (page_number(page) - 1) as u32,
                            list,
                        }
                    },
                    Err(cause) => r matches Err(err) && err == GmailEnvelopeListError::Send(cause),
                }
            }),
    {
        let mut label_ids: Vec<String> = Vec::new();
        label_ids.push(mailbox.to_owned());
        proof {
            assert(label_ids.deep_view() =~= seq![mailbox@]);
        }
        let hidden = include_spam_trash(mailbox);
        let skip: u32 = match page {
            Some(n) if n > 0 => n - 1,
            _ => 0,
        };
        match list_new(auth, user_id, &label_ids, page_size, &None, hidden) {
            Ok(list) => {
                let plan = Plan {
                    auth: clone_auth(auth),
                    user_id: user_id.to_owned(),
                    label_ids,
                    page_size,
                    include_spam_trash: hidden,
                };
                Ok(GmailEnvelopeList { plan, state: State::Listing { skip, list } })
            },
            Err(err) => Err(GmailEnvelopeListError::Send(err)),
        }
    }

    /// Starts on the message at `index`, or completes after the last one.
    /// Returns `None` where a message is being fetched.
    fn next(&mut self, ids: Vec<String>, index: usize, done: Vec<Envelope>) -> (r: Option<Step>)
        requires
            old(self)@.state is Done,
        ensures
            final(self)@.plan == old(self)@.plan,
            old(self)@.next_message(
                ids.deep_view(),
                index as int,
                done.deep_view(),
                final(self)@,
                match r {
                    Some(step) => Some(step.outcome()),
                    None => None,
                },
            ),
            r is None ==> (final(self)@.state matches State::Getting { ids: own, index: at, .. } && own
                == ids && at == index && index < ids@.len()),
    {
        if index >= ids.len() {
            return Some(EmailCoroutineState::Complete(Ok(done)));
        }
        proof {
            assert(ids.deep_view()[index as int] == ids@[index as int]@);
        }
        match get_new(&self.plan.auth, self.plan.user_id.as_str(), ids[index].as_str()) {
            Ok(get) => {
                self.state = State::Getting { ids, index, get, done };
                None
            },
            Err(err) => Some(EmailCoroutineState::Complete(Err(GmailEnvelopeListError::Send(err)))),
        }
    }

    /// Advances the coroutine: with no bytes at first and after a write,
    /// with what was read after a read.
    pub fn resume(&mut self, bytes: Option<&[u8]>) -> (r: Step)
        ensures
            resumed(old(self)@, (), fed(bytes), final(self)@, (), r.outcome()),
        decreases old(self)@.rank(), old(self)@.repeats(fed(bytes)),
    {
        proof {
            use_type_invariant(&*self);
        }
        let ghost pre = self@;
        let mut state = State::Done;
        core::mem::swap(&mut self.state, &mut state);
        match state {
            State::Listing { skip, mut list } => match list_resume(&mut list, bytes) {
                EmailCoroutineState::Yielded(step) => {
                    self.state = State::Listing { skip, list };
                    EmailCoroutineState::Yielded(step)
                },
                EmailCoroutineState::Complete(Ok(page)) => {
                    if skip > 0 {
                        if page.next_page_token.is_none() {
                            let none: Vec<Envelope> = Vec::new();
                            proof {
                                assert(none.deep_view() =~= seq![]);
                            }
                            return EmailCoroutineState::Complete(Ok(none));
                        }
                        return match list_new(
                            &self.plan.auth,
                            self.plan.user_id.as_str(),
                            &self.plan.label_ids,
                            self.plan.page_size,
                            &page.next_page_token,
                            self.plan.include_spam_trash,
                        ) {
                            Ok(list) => {
                                self.state = State::Listing { skip: skip - 1, list };
                                proof {
                                    assert(hands_over(pre, (), fed(bytes), self@, ()));
                                }
                                self.resume(None)
                            },
                            Err(err) => EmailCoroutineState::Complete(
                                Err(GmailEnvelopeListError::Send(err)),
                            ),
                        };
                    }
                    let none: Vec<Envelope> = Vec::new();
                    proof {
                        assert(none.deep_view() =~= seq![]);
                    }
                    match self.next(page.ids, 0, none) {
                        Some(step) => step,
                        None => {
                            proof {
                                assert(hands_over(pre, (), fed(bytes), self@, ()));
                            }
                            self.resume(None)
                        },
                    }
                },
                EmailCoroutineState::Complete(Err(err)) => EmailCoroutineState::Complete(
                    Err(GmailEnvelopeListError::Send(err)),
                ),
            },
            State::Getting { ids, index, mut get, mut done } => match get_resume(
                &mut get,
                bytes,
            ) {
                EmailCoroutineState::Yielded(step) => {
                    self.state = State::Getting { ids, index, get, done };
                    EmailCoroutineState::Yielded(step)
                },
                EmailCoroutineState::Complete(Ok(fetched)) => {
                    let ghost was = done.deep_view();
                    let metadata = read_message(fetched.message);
                    let envelope = envelope_from(&metadata);
                    let ghost view = envelope.deep_view();
                    done.push(envelope);
                    proof {
                        assert(done.deep_view() =~= was.push(view));
                    }
                    let count: usize = ids.len();
                    proof {
                        assert(index < count);
                    }
                    match self.next(ids, index + 1, done) {
                        Some(step) => step,
                        None => {
                            proof {
                                assert(hands_over(pre, (), fed(bytes), self@, ()));
                            }
                            self.resume(None)
                        },
                    }
                },
                EmailCoroutineState::Complete(Err(err)) => EmailCoroutineState::Complete(
                    Err(GmailEnvelopeListError::Send(err)),
                ),
            },
            State::Done => EmailCoroutineState::Complete(
                Err(GmailEnvelopeListError::ResumedAfterDone),
            ),
        }
    }
}

/// What the server tells of a message when it is asked for at once.
pub open spec fn told_at_once(plan: Plan, id: Seq<char>, envelope: EnvelopeView) -> bool {
    get_built(plan.message(id)) matches Ok(get) && get_step(get, None) matches Outcome::Done(message)
        && envelope == envelope_of(message_metadata(message))
}

/// Whether as many envelopes have been read as messages are done with.
pub open spec fn in_step(state: State) -> bool {
    state matches State::Getting { index, done, ids, .. } ==> done@.len() == index && index <= ids@.len()
}

/// A listing gives one envelope for every message of the page, in the order of
/// the page: what the server told of that message. It succeeds only when the
/// server has told of all of them.
pub proof fn law_every_message_is_listed(
    pre: Listing,
    context: (),
    bytes: Option<Seq<u8>>,
    post: Listing,
    left: (),
    answer: Answer,
)
    requires
        resumed(pre, context, bytes, post, left, answer),
        in_step(pre.state),
    ensures
        in_step(post.state),
        post.plan == pre.plan,
        answer is Done ==> post.state is Done && !(pre.state is Done),
        pre.state matches State::Getting { ids, index, get, done } ==> (answer matches Answer::Done(list)
            ==> {
            &&& index < ids@.len() ==> list.len() == ids@.len()
            &&& forall|i: int| 0 <= i < index ==> #[trigger] list[i] == done.deep_view()[i]
            &&& get_step(get, bytes) matches Outcome::Done(message) && list[index as int] == envelope_of(
                message_metadata(message),
            )
            &&& forall|i: int|
                index < i < ids@.len() ==> told_at_once(pre.plan, ids.deep_view()[i], #[trigger] list[i])
        }),
        pre.state matches State::Listing { skip, list } ==> (answer matches Answer::Done(envelopes)
            ==> list_step(list, bytes) matches Outcome::Done(page) && {
            &&& skip > 0 && page.next_page_token is None ==> envelopes.len() == 0
            &&& skip == 0 ==> envelopes.len() == page.ids.len() && forall|i: int|
                0 <= i < envelopes.len() ==> told_at_once(pre.plan, page.ids[i], #[trigger] envelopes[i])
        }),
    decreases pre.rank(), pre.repeats(bytes),
{
    if !pre.stage(context, bytes, post, left, Some(answer)) {
        let (mid, between) = choose|mid: Listing, between: ()|
            #[trigger] hands_over(pre, context, bytes, mid, between) && resumed(
                mid,
                between,
                None,
                post,
                left,
                answer,
            );
        if let State::Getting { ids, index, get, done } = mid.state {
            assert(done.deep_view().len() == done@.len());
            assert(ids.deep_view().len() == ids@.len());
        }
        if let State::Getting { ids, index, get, done } = pre.state {
            assert(done.deep_view().len() == done@.len());
            assert(ids.deep_view().len() == ids@.len());
        }
        law_every_message_is_listed(mid, between, None, post, left, answer);
    }
}

/// A page is asked for by the token that the server gave for it, with the
/// mailbox and the size of the pages the same from page to page.
pub proof fn law_pages_of_one_listing(plan: Plan, token: Option<Seq<char>>)
    ensures
        plan.page(token).page_token == token,
        plan.page(token) == (ListRequest { page_token: token, ..plan.page(None) }),
{
}

/// Each page before the one asked for is passed over: what is left to pass
/// over goes down by one from page to page.
pub proof fn law_pages_are_counted(
    pre: Listing,
    bytes: Option<Seq<u8>>,
    mid: Listing,
    skip: u32,
    list: Guarded<GmailMessagesList>,
)
    requires
        hands_over(pre, (), bytes, mid, ()),
        pre.state == (State::Listing { skip, list }),
    ensures
        skip == 0 ==> mid.state is Getting,
        skip > 0 ==> (mid.state matches State::Listing { skip: rest, .. } && rest == skip - 1),
{
}

/// What an exchange waits for is passed on as it is, and what it fails with is
/// told and ends the run; a run that is over stays over.
pub proof fn law_waits_and_failures_are_told(
    pre: Listing,
    context: (),
    bytes: Option<Seq<u8>>,
    post: Listing,
    left: (),
    answer: Answer,
)
    requires
        resumed(pre, context, bytes, post, left, answer),
    ensures
        pre.state matches State::Listing { list, .. } ==> {
            &&& list_step(list, bytes) is Read ==> answer is Read
            &&& list_step(list, bytes) matches Outcome::Write(out) ==> answer == Answer::Write(out)
            &&& list_step(list, bytes) matches Outcome::Failed(err) ==> post.state is Done && answer == Answer::Failed(
                GmailEnvelopeListError::Send(err),
            )
        },
        pre.state matches State::Getting { get, .. } ==> {
            &&& get_step(get, bytes) is Read ==> answer is Read
            &&& get_step(get, bytes) matches Outcome::Write(out) ==> answer == Answer::Write(out)
            &&& get_step(get, bytes) matches Outcome::Failed(err) ==> post.state is Done && answer == Answer::Failed(
                GmailEnvelopeListError::Send(err),
            )
        },
        pre.state is Done ==> post.state is Done && answer == Answer::Failed(GmailEnvelopeListError::ResumedAfterDone),
{
    if !pre.stage(context, bytes, post, left, Some(answer)) {
        let (mid, between) = choose|mid: Listing, between: ()|
            #[trigger] hands_over(pre, context, bytes, mid, between) && resumed(
                mid,
                between,
                None,
                post,
                left,
                answer,
            );
        assert(pre.stage(context, bytes, mid, between, None));
    }
}

} // verus!
