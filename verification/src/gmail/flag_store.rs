//! Gmail flag store: one `users.messages.modify` for each message, flags
//! translated into the label ids to add and to remove.
use vstd::prelude::*;

use io_gmail::v1::rest::messages::modify::GmailMessageModify;
use io_gmail::v1::send::GmailSendError;
use io_http::rfc6750::bearer::HttpAuthBearer;

use crate::coroutine::{fed, hands_over, resumed, EmailCoroutineState, GmailStep, Outcome, Stages};
use crate::flag::types::{Flag, FlagOp};
use crate::gmail::convert::{label_patch, patch_of};
use crate::gmail::wire::{
    clone_auth, modify_built, modify_left, modify_new, modify_over, modify_resume, modify_step,
    ModifyRequest,
};
use crate::http::{Guarded, HttpFault};
use crate::text::{own_texts, texts};

verus! {

/// Errors produced by [`GmailFlagStore`].
#[derive(Debug)]
pub enum GmailFlagStoreError {
    Send(HttpFault<GmailSendError>),
    ResumedAfterDone,
}

/// What a store goes by.
pub struct Plan {
    pub auth: HttpAuthBearer,
    pub user_id: String,
    pub ids: Vec<String>,
    pub add: Vec<String>,
    pub remove: Vec<String>,
}

/// Where a store stands.
pub enum State {
    /// Changing the message at `index`.
    Modifying { index: usize, current: Guarded<GmailMessageModify> },
    /// Nothing is to be changed.
    Noop,
    Done,
}

/// A store under way: its plan and where it stands.
pub struct Storing {
    pub plan: Plan,
    pub state: State,
}

pub type Answer = Outcome<(), GmailFlagStoreError>;

/// What a resume returns.
pub type Step = EmailCoroutineState<GmailStep, Result<(), GmailFlagStoreError>>;

impl Plan {
    /// The change of a message.
    pub open spec fn modification(self, id: Seq<char>) -> ModifyRequest {
        ModifyRequest {
            auth: self.auth,
            user_id: self.user_id@,
            id,
            add: self.add.deep_view(),
            remove: self.remove.deep_view(),
        }
    }
}

impl Storing {
    pub open spec fn live(self) -> bool {
        self.state matches State::Modifying { index, current } ==> !modify_over(current) && index
            < self.plan.ids@.len()
    }

    /// What follows once the messages before `index` are changed.
    pub open spec fn next_message(self, index: int, post: Storing, answer: Option<Answer>) -> bool {
        let ids = self.plan.ids.deep_view();
        if index >= ids.len() {
            post.state is Done && answer == Some(Outcome::<_, GmailFlagStoreError>::Done(()))
        } else {
            match modify_built(self.plan.modification(ids[index])) {
                Err(err) => post.state is Done && answer == Some(
                    Outcome::<(), _>::Failed(GmailFlagStoreError::Send(err)),
                ),
                Ok(current) => answer is None && (post.state matches State::Modifying {
                    index: at,
                    current: own,
                } && at == index && own == current),
            }
        }
    }
}

impl Stages for Storing {
    type Context = ();

    type Answer = Answer;

    open spec fn rank(self) -> nat {
        match self.state {
            State::Modifying { .. } => 1,
            _ => 0,
        }
    }

    open spec fn repeats(self, bytes: Option<Seq<u8>>) -> nat {
        match self.state {
            State::Modifying { index, .. } => if index < self.plan.ids@.len() {
                (self.plan.ids@.len() - index) as nat
            } else {
                0
            },
            _ => 0,
        }
    }

    open spec fn stage(self, context: (), bytes: Option<Seq<u8>>, post: Storing, left: (), answer: Option<Answer>) -> bool {
        &&& post.plan == self.plan
        &&& match self.state {
            State::Modifying { index, current } => match modify_step(current, bytes) {
                Outcome::Done(()) => self.next_message(index + 1, post, answer),
                Outcome::Failed(err) => post.state is Done && answer == Some(
                    Outcome::<(), _>::Failed(GmailFlagStoreError::Send(err)),
                ),
                wait => {
                    &&& post.state == State::Modifying {
                        index,
                        current: modify_left(current, bytes),
                    }
                    &&& answer is Some && answer->0.forwards(wait)
                },
            },
            State::Noop => post.state is Done && answer == Some(
                Outcome::<_, GmailFlagStoreError>::Done(()),
            ),
            State::Done => post.state is Done && answer == Some(
                Outcome::<(), _>::Failed(GmailFlagStoreError::ResumedAfterDone),
            ),
        }
    }
}

/// I/O-free coroutine changing the flags of Gmail messages.
pub struct GmailFlagStore {
    plan: Plan,
    state: State,
}

impl View for GmailFlagStore {
    type V = Storing;

    closed spec fn view(&self) -> Storing {
        Storing { plan: self.plan, state: self.state }
    }
}

impl GmailFlagStore {
    #[verifier::type_invariant]
    closed spec fn inv(self) -> bool {
        (Storing { plan: self.plan, state: self.state }).live()
    }

    /// Labels are those of the message, whatever the mailbox: it is not
    /// needed.
    pub fn new(
        auth: &HttpAuthBearer,
        user_id: &str,
        _mailbox: &str,
        ids: &[&str],
        flags: &[Flag],
        op: FlagOp,
    ) -> (r: Result<GmailFlagStore, GmailFlagStoreError>)
        ensures
            ({
                let patch = patch_of(flags@, op);
                let idle = ids@.len() == 0 || (patch.0.len() == 0 && patch.1.len() == 0);
                let request = ModifyRequest {
                    auth: *auth,
                    user_id: user_id@,
                    id: texts(ids@)[0],
                    add: patch.0,
                    remove: patch.1,
                };
                match r {
                    Ok(run) => {
                        &&& run@.plan.ids.deep_view() == texts(ids@)
                        &&& run@.plan.modification(texts(ids@)[0]) == request
                        &&& if idle {
                            run@.state is Noop
                        } else {
                            run@.state matches State::Modifying { index, current } && index == 0
                                && modify_built(request) == Ok::<_, HttpFault<GmailSendError>>(current)
                        }
                    },
                    Err(err) => !idle && (modify_built(request) matches Err(cause) && err
                        == GmailFlagStoreError::Send(cause)),
                }
            }),
    {
        let (add, remove) = label_patch(flags, op);
        proof {
            assert(add.deep_view().len() == add@.len());
            assert(remove.deep_view().len() == remove@.len());
        }
        let ids = own_texts(ids);
        let state = if ids.len() == 0 || (add.len() == 0 && remove.len() == 0) {
            State::Noop
        } else {
            proof {
                assert(ids.deep_view()[0] == ids@[0]@);
            }
            match modify_new(auth, user_id, ids[0].as_str(), &add, &remove) {
                Ok(current) => State::Modifying { index: 0, current },
                Err(err) => return Err(GmailFlagStoreError::Send(err)),
            }
        };
        let plan = Plan { auth: clone_auth(auth), user_id: user_id.to_owned(), ids, add, remove };
        Ok(GmailFlagStore { plan, state })
    }

    /// Advances the coroutine: with no bytes at first and after a write,
    /// with what was read after a read.
    pub fn resume(&mut self, bytes: Option<&[u8]>) -> (r: Step)
        ensures
            resumed(old(self)@, (), fed(bytes), final(self)@, (), r.outcome()),
        decreases old(self)@.rank(), old(self)@.repeats(fed(bytes)),
    {
        proof {
            use_type_invariant(&*self);
        }
        let ghost pre = self@;
        let mut state = State::Done;
        core::mem::swap(&mut self.state, &mut state);
        match state {
            State::Modifying { index, mut current } => match modify_resume(&mut current, bytes) {
                EmailCoroutineState::Yielded(step) => {
                    self.state = State::Modifying { index, current };
                    EmailCoroutineState::Yielded(step)
                },
                EmailCoroutineState::Complete(Ok(())) => {
                    let count: usize = self.plan.ids.len();
                    let index: usize = index + 1;
                    if index >= count {
                        return EmailCoroutineState::Complete(Ok(()));
                    }
                    proof {
                        assert(self.plan.ids.deep_view()[index as int]
                            == self.plan.ids@[index as int]@);
                    }
                    match modify_new(
                        &self.plan.auth,
                        self.plan.user_id.as_str(),
                        self.plan.ids[index].as_str(),
                        &self.plan.add,
                        &self.plan.remove,
                    ) {
                        Ok(current) => {
                            self.state = State::Modifying { index, current };
                            proof {
                                assert(hands_over(pre, (), fed(bytes), self@, ()));
                            }
                            self.resume(None)
                        },
                        Err(err) => EmailCoroutineState::Complete(
                            Err(GmailFlagStoreError::Send(err)),
                        ),
                    }
                },
                EmailCoroutineState::Complete(Err(err)) => EmailCoroutineState::Complete(
                    Err(GmailFlagStoreError::Send(err)),
                ),
            },
            State::Noop => EmailCoroutineState::Complete(Ok(())),
            State::Done => EmailCoroutineState::Complete(
                Err(GmailFlagStoreError::ResumedAfterDone),
            ),
        }
    }
}

/// A store succeeds exactly when the server has taken the change of every
/// message from the one under way to the last, each under its own id.
pub proof fn law_success_is_the_servers(
    pre: Storing,
    context: (),
    bytes: Option<Seq<u8>>,
    post: Storing,
    left: (),
    answer: Answer,
)
    requires
        resumed(pre, context, bytes, post, left, answer),
    ensures
        answer is Done ==> post.state is Done && !(pre.state is Done),
        pre.state is Noop ==> answer is Done,
        pre.state matches State::Modifying { index, current } ==> (answer is Done <==> modify_step(
            current,
            bytes,
        ) is Done && forall|i: int|
            index < i < pre.plan.ids@.len() ==> modified(pre.plan, #[trigger] pre.plan.ids@[i]@)),
    decreases pre.rank(), pre.repeats(bytes),
{
    if !pre.stage(context, bytes, post, left, Some(answer)) {
        let (mid, between) = choose|mid: Storing, between: ()|
            #[trigger] hands_over(pre, context, bytes, mid, between) && resumed(
                mid,
                between,
                None,
                post,
                left,
                answer,
            );
        law_success_is_the_servers(mid, between, None, post, left, answer);
    }
}

/// Whether the server takes the change of a message.
pub open spec fn modified(plan: Plan, id: Seq<char>) -> bool {
    modify_built(plan.modification(id)) matches Ok(current) && modify_step(current, None) is Done
}

/// What an exchange waits for is passed on as it is, and what it fails with is
/// told and ends the run; a run that is over stays over.
pub proof fn law_waits_and_failures_are_told(
    pre: Storing,
    context: (),
    bytes: Option<Seq<u8>>,
    post: Storing,
    left: (),
    answer: Answer,
)
    requires
        resumed(pre, context, bytes, post, left, answer),
    ensures
        pre.state matches State::Modifying { current, .. } ==> {
            &&& modify_step(current, bytes) is Read ==> answer is Read
            &&& modify_step(current, bytes) matches Outcome::Write(out) ==> answer == Answer::Write(out)
            &&& modify_step(current, bytes) matches Outcome::Failed(err) ==> post.state is Done && answer == Answer::Failed(
                GmailFlagStoreError::Send(err),
            )
        },
        pre.state is Done ==> post.state is Done && answer == Answer::Failed(GmailFlagStoreError::ResumedAfterDone),
{
    if !pre.stage(context, bytes, post, left, Some(answer)) {
        let (mid, between) = choose|mid: Storing, between: ()|
            #[trigger] hands_over(pre, context, bytes, mid, between) && resumed(
                mid,
                between,
                None,
                post,
                left,
                answer,
            );
        assert(pre.stage(context, bytes, mid, between, None));
    }
}

/// Each message is changed under its own id, by the labels that were asked for.
pub proof fn law_change_is_what_was_asked_for(plan: Plan, id: Seq<char>)
    ensures
        plan.modification(id).id == id,
        plan.modification(id).add == plan.add.deep_view(),
        plan.modification(id).remove == plan.remove.deep_view(),
        plan.modification(id).user_id == plan.user_id@,
        plan.modification(id).auth == plan.auth,
{
}

} // verus!
