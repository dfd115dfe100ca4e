//! JMAP mailbox delete: Mailbox/set destroying the mailbox together with its
//! emails.
use vstd::prelude::*;

use io_jmap::rfc8620::session::JmapSession;
use io_jmap::rfc8621::mailbox::set::{JmapMailboxSet, JmapMailboxSetError};

use crate::coroutine::{fed, EmailCoroutineState, JmapStep, Outcome};
use crate::http::{Guarded, HttpFault};
use crate::jmap::wire::{
    mailbox_set_built, mailbox_set_left, mailbox_set_new, mailbox_set_over, mailbox_set_resume,
    mailbox_set_step, HttpAuth, MailboxSetRequest,
};
use crate::text::holds_text;

verus! {

/// Errors produced by [`JmapMailboxDelete`].
#[derive(Debug)]
pub enum JmapMailboxDeleteError {
    MailboxSet(HttpFault<JmapMailboxSetError>),
    NotDestroyed(String),
    ResumedAfterDone,
}

/// Where a deletion stands.
pub enum State {
    Destroying { set: Guarded<JmapMailboxSet>, id: String },
    Done,
}

pub type Answer = Outcome<(), JmapMailboxDeleteError>;

/// What a resume returns.
pub type Step = EmailCoroutineState<JmapStep, Result<(), JmapMailboxDeleteError>>;

impl State {
    pub open spec fn live(self) -> bool {
        self matches State::Destroying { set, .. } ==> !mailbox_set_over(set)
    }

    /// What a resume does: where it leaves the coroutine and what it
    /// answers. It succeeds if and only if the mailbox is among those
    /// destroyed.
    pub open spec fn resumed(self, bytes: Option<Seq<u8>>, post: State, answer: Answer) -> bool {
        match self {
            State::Destroying { set, id } => match mailbox_set_step(set, bytes) {
                Outcome::Done(destroyed) => post is Done && if destroyed.contains(id@) {
                    answer is Done
                } else {
                    answer matches Outcome::Failed(JmapMailboxDeleteError::NotDestroyed(text))
                        && text@ == id@
                },
                Outcome::Failed(err) => post is Done && answer == Outcome::<(), _>::Failed(
                    JmapMailboxDeleteError::MailboxSet(err),
                ),
                wait => {
                    &&& post == State::Destroying { set: mailbox_set_left(set, bytes), id }
                    &&& answer.forwards(wait)
                },
            },
            State::Done => post is Done && answer == Outcome::<(), _>::Failed(
                JmapMailboxDeleteError::ResumedAfterDone,
            ),
        }
    }
}

/// I/O-free coroutine destroying a JMAP mailbox.
pub struct JmapMailboxDelete {
    state: State,
}

impl View for JmapMailboxDelete {
    type V = State;

    closed spec fn view(&self) -> State {
        self.state
    }
}

impl JmapMailboxDelete {
    #[verifier::type_invariant]
    closed spec fn inv(self) -> bool {
        self.state.live()
    }

    pub fn new(session: &JmapSession, auth: &HttpAuth, id: &str) -> (r: Result<
        JmapMailboxDelete,
        JmapMailboxDeleteError,
    >)
        ensures
            ({
                let request = MailboxSetRequest {
                    session: *session,
                    auth: auth@,
                    destroy: id@,
                    remove_emails: true,
                };
                match mailbox_set_built(request) {
                    Ok(built) => r matches Ok(run) && (run@ matches State::Destroying {
                        set,
                        id: own,
                    } && set == built && own@ == id@),
                    Err(cause) => r matches Err(err) && err == JmapMailboxDeleteError::MailboxSet(
                        cause,
                    ),
                }
            }),
    {
        match mailbox_set_new(session, auth, id, true) {
            Ok(set) => Ok(JmapMailboxDelete { state: State::Destroying { set, id: id.to_owned() } }),
            Err(err) => Err(JmapMailboxDeleteError::MailboxSet(err)),
        }
    }

    /// Advances the coroutine: with no bytes at first and after a write,
    /// with what was read after a read.
    pub fn resume(&mut self, bytes: Option<&[u8]>) -> (r: Step)
        ensures
            old(self)@.resumed(fed(bytes), final(self)@, r.outcome()),
    {
        proof {
            use_type_invariant(&*self);
        }
        let mut state = State::Done;
        core::mem::swap(&mut self.state, &mut state);
        match state {
            State::Destroying { mut set, id } => match mailbox_set_resume(&mut set, bytes) {
                EmailCoroutineState::Yielded(step) => {
                    self.state = State::Destroying { set, id };
                    EmailCoroutineState::Yielded(step)
                },
                EmailCoroutineState::Complete(Ok(destroyed)) => if holds_text(
                    &destroyed,
                    id.as_str(),
                ) {
                    EmailCoroutineState::Complete(Ok(()))
                } else {
                    EmailCoroutineState::Complete(Err(JmapMailboxDeleteError::NotDestroyed(id)))
                },
                EmailCoroutineState::Complete(Err(err)) => EmailCoroutineState::Complete(
                    Err(JmapMailboxDeleteError::MailboxSet(err)),
                ),
            },
            State::Done => EmailCoroutineState::Complete(
                Err(JmapMailboxDeleteError::ResumedAfterDone),
            ),
        }
    }
}

/// A deletion succeeds exactly when the server tells that it destroyed that
/// mailbox.
pub proof fn law_success_is_the_servers(pre: State, bytes: Option<Seq<u8>>, post: State, answer: Answer)
    requires
        pre.resumed(bytes, post, answer),
    ensures
        answer is Done ==> post is Done,
        answer is Done <==> (pre matches State::Destroying { set, id } && mailbox_set_step(
            set,
            bytes,
        ) matches Outcome::Done(destroyed) && destroyed.contains(id@)),
{
}

} // verus!
