//! JMAP message delete: Email/set destroying one email.
use vstd::prelude::*;

use io_jmap::rfc8620::session::JmapSession;
use io_jmap::rfc8621::email::set::{JmapEmailSet, JmapEmailSetError};

use crate::coroutine::{fed, EmailCoroutineState, JmapStep, Outcome};
use crate::http::{Guarded, HttpFault};
use crate::jmap::wire::{
    args_destroy, args_destroy_email, email_set_args, email_set_built, email_set_left,
    email_set_new, email_set_over, email_set_resume, email_set_step, no_patches,
    EmailSetOutputView, EmailSetRequest, HttpAuth,
};
use crate::text::holds_text;

verus! {

/// Errors produced by [`JmapMessageDelete`].
#[derive(Debug)]
pub enum JmapMessageDeleteError {
    EmailSet(HttpFault<JmapEmailSetError>),
    NotDestroyed(String),
}

/// I/O-free coroutine destroying a single JMAP email by id.
pub struct JmapMessageDelete {
    inner: Guarded<JmapEmailSet>,
    id: String,
}

impl View for JmapMessageDelete {
    type V = (Guarded<JmapEmailSet>, Seq<char>);

    closed spec fn view(&self) -> (Guarded<JmapEmailSet>, Seq<char>) {
        (self.inner, self.id@)
    }
}

pub type Answer = Outcome<(), JmapMessageDeleteError>;

/// What a resume returns.
pub type Step = EmailCoroutineState<JmapStep, Result<(), JmapMessageDeleteError>>;

/// The Email/set that destroys one email.
pub open spec fn delete_request(session: JmapSession, auth: Seq<char>, id: Seq<char>) -> EmailSetRequest {
    EmailSetRequest { session, auth, patches: no_patches(), destroy: seq![id] }
}

/// Whether `answer` is that for what the Email/set came to: success if and
/// only if the email is among those destroyed.
pub open spec fn answers(
    answer: Answer,
    step: Outcome<EmailSetOutputView, HttpFault<JmapEmailSetError>>,
    id: Seq<char>,
) -> bool {
    match step {
        Outcome::Done(output) => if output.destroyed.contains(id) {
            answer is Done
        } else {
            answer matches Outcome::Failed(JmapMessageDeleteError::NotDestroyed(text)) && text@ == id
        },
        Outcome::Failed(err) => answer == Outcome::<(), _>::Failed(
            JmapMessageDeleteError::EmailSet(err),
        ),
        wait => answer.forwards(wait),
    }
}

impl JmapMessageDelete {
    /// A JMAP email is destroyed in every mailbox: the mailbox is not
    /// needed.
    pub fn new(session: &JmapSession, auth: &HttpAuth, _mailbox: &str, id: &str) -> (r: Result<
        JmapMessageDelete,
        JmapMessageDeleteError,
    >)
        ensures
            ({
                let request = delete_request(*session, auth@, id@);
                match email_set_built(request) {
                    Ok(set) => r matches Ok(run) && run@ == (set, id@) && !email_set_over(set),
                    Err(cause) => r matches Err(err) && err == JmapMessageDeleteError::EmailSet(
                        cause,
                    ),
                }
            }),
    {
        let mut args = email_set_args();
        args_destroy_email(&mut args, id);
        proof {
            assert(args_destroy(args) =~= seq![id@]);
        }
        match email_set_new(session, auth, args) {
            Ok(inner) => Ok(JmapMessageDelete { inner, id: id.to_owned() }),
            Err(err) => Err(JmapMessageDeleteError::EmailSet(err)),
        }
    }

    /// Advances the coroutine, which is not over: with no bytes at first
    /// and after a write, with what was read after a read.
    pub fn resume(&mut self, bytes: Option<&[u8]>) -> (r: Step)
        requires
            !email_set_over(old(self)@.0),
        ensures
            answers(r.outcome(), email_set_step(old(self)@.0, fed(bytes)), old(self)@.1),
            final(self)@ == (email_set_left(old(self)@.0, fed(bytes)), old(self)@.1),
            r is Yielded ==> !email_set_over(final(self)@.0),
    {
        match email_set_resume(&mut self.inner, bytes) {
            EmailCoroutineState::Yielded(step) => EmailCoroutineState::Yielded(step),
            EmailCoroutineState::Complete(Ok(output)) => if holds_text(
                &output.destroyed,
                self.id.as_str(),
            ) {
                EmailCoroutineState::Complete(Ok(()))
            } else {
                EmailCoroutineState::Complete(
                    Err(JmapMessageDeleteError::NotDestroyed(self.id.clone())),
                )
            },
            EmailCoroutineState::Complete(Err(err)) => EmailCoroutineState::Complete(
                Err(JmapMessageDeleteError::EmailSet(err)),
            ),
        }
    }
}

/// A deletion succeeds exactly when the server tells that it destroyed that
/// email, and asks for the destruction of no other.
pub proof fn law_success_is_the_servers(
    answer: Answer,
    step: Outcome<EmailSetOutputView, HttpFault<JmapEmailSetError>>,
    session: JmapSession,
    auth: Seq<char>,
    id: Seq<char>,
    other: Seq<char>,
)
    requires
        answers(answer, step, id),
    ensures
        answer is Done <==> (step matches Outcome::Done(output) && output.destroyed.contains(id)),
        delete_request(session, auth, id).destroy.contains(other) <==> other == id,
        delete_request(session, auth, id).session == session && delete_request(session, auth, id).auth
            == auth,
        !delete_request(session, auth, id).patches.contains_key(other),
{
    assert(delete_request(session, auth, id).destroy[0] == id);
}

} // verus!
